//! Scanning object bytes with Yara rules (yara-x) and printing the rules that
//! match, with the patterns that matched.

use vstd::prelude::*;
use crate::output::{print_match, yara_text, Record};

verus! {

#[verifier::external_type_specification]
#[verifier::external_body]
pub struct ExRules(yara_x::Rules);

/// One rule that matched a scan: its identifier, and each of its patterns
/// with the number of matches the scan found for it.
pub struct RuleHit {
    pub rule: String,
    pub patterns: Vec<(String, usize)>,
}

/// Whether `outcome` (the compiled rules, or the compiler's message) is a
/// result that `yara_x::compile` can give for `source`.  It is a relation,
/// not a function: compiling follows `include` directives, which read files.
pub uninterp spec fn yara_compiles_to(source: Seq<char>, outcome: Result<yara_x::Rules, Seq<char>>) -> bool;

/// The rule hits of a scan as plain values: each rule's identifier with its
/// patterns' identifiers and match counts.
pub open spec fn hits_view(hits: Seq<RuleHit>) -> Seq<(Seq<char>, Seq<(Seq<char>, usize)>)> {
    hits.map_values(|h: RuleHit| (h.rule@, h.patterns@.map_values(|p: (String, usize)| (p.0@, p.1))))
}

pub open spec fn opt_hits_view(o: Option<Seq<RuleHit>>) -> Option<Seq<(Seq<char>, Seq<(Seq<char>, usize)>)>> {
    match o {
        Some(h) => Some(hits_view(h)),
        None => None,
    }
}

/// Whether `outcome` (the matching rules with their patterns, or `None` for a
/// failed scan) is a result that scanning `data` with `rules` can give.  It is
/// a relation, not a function: rules may consult the clock, and scans may
/// time out.
pub uninterp spec fn yara_scans_to(rules: yara_x::Rules, data: Seq<u8>, outcome: Option<Seq<(Seq<char>, Seq<(Seq<char>, usize)>)>>) -> bool;

/// `yara_x::compile`: compiles rule source; the error is the compiler's
/// message.  The outcome is one that `yara_compiles_to` admits for `source`.
#[verifier::external_body]
fn yara_compile(source: &str) -> (r: Result<yara_x::Rules, String>)
    ensures
        yara_compiles_to(
            source@,
            match r {
                Ok(x) => Ok(x),
                Err(e) => Err(e@),
            },
        ),
{
    yara_x::compile(source).map_err(|e| e.to_string())
}

/// `yara_x::Scanner::new` and `Scanner::scan` over `data`, then each of
/// `ScanResults::matching_rules` with its identifier and, for each of its
/// patterns, the identifier and `matches().count()`; `None` when the scan
/// fails.  The outcome is one that `yara_scans_to` admits for these rules
/// and bytes.
#[verifier::external_body]
fn yara_scan(rules: &yara_x::Rules, data: &[u8]) -> (r: Option<Vec<RuleHit>>)
    ensures
        yara_scans_to(
            *rules,
            data@,
            match r {
                Some(h) => Some(hits_view(h@)),
                None => None,
            },
        ),
{
    let mut scanner = yara_x::Scanner::new(rules);
    match scanner.scan(data) {
        Ok(res) => Some(res.matching_rules().map(|rule| RuleHit {
            rule: rule.identifier().to_string(),
            patterns: rule.patterns().map(|p| (p.identifier().to_string(), p.matches().count())).collect(),
        }).collect()),
        Err(_) => None,
    }
}

/// What a run makes of the compiler's outcome: compiled rules are kept as
/// they are; a compiler message `e` becomes `yara compile error: e`.
pub fn compile_outcome(outcome: Result<yara_x::Rules, String>) -> (r: Result<yara_x::Rules, String>)
    ensures
        match (outcome, r) {
            (Ok(a), Ok(b)) => a == b,
            (Err(e), Err(m)) => m@ == "yara compile error: "@ + e@,
            _ => false,
        },
{
    match outcome {
        Ok(rules) => Ok(rules),
        Err(e) => {
            let mut m = String::from_str("yara compile error: ");
            m.append(e.as_str());
            Err(m)
        },
    }
}

/// Compiles Yara rule source with `yara_x::compile` and hands the outcome to
/// `compile_outcome`: the rules the compiler gives for `source`, or
/// `yara compile error: ` followed by the message it gives.
pub fn compile_rules(source: &str) -> (r: Result<yara_x::Rules, String>)
    ensures
        r matches Ok(x) ==> yara_compiles_to(source@, Ok(x)),
        r matches Err(m) ==> exists|e: Seq<char>| #[trigger] yara_compiles_to(source@, Err(e)) && m@ == "yara compile error: "@ + e,
        r matches Err(m) ==> m@.len() >= "yara compile error: "@.len() && m@.take("yara compile error: "@.len() as int) == "yara compile error: "@,
{
    let c = yara_compile(source);
    let ghost cv: Result<yara_x::Rules, Seq<char>> = if c is Ok {
        Ok(c->Ok_0)
    } else {
        Err(c->Err_0@)
    };
    let r = compile_outcome(c);
    proof {
        if r is Err {
            let m = r->Err_0;
            let e = cv->Err_0;
            assert(yara_compiles_to(source@, Err(e)));
            assert(m@.take("yara compile error: "@.len() as int) =~= "yara compile error: "@);
        }
    }
    r
}

/// The identifiers of the patterns in `ps` that matched at least once, in order.
pub open spec fn matched_ids(ps: Seq<(String, usize)>) -> Seq<Seq<char>>
    decreases ps.len(),
{
    if ps.len() == 0 {
        Seq::empty()
    } else {
        let prev = matched_ids(ps.drop_last());
        if ps.last().1 > 0 {
            prev.push(ps.last().0@)
        } else {
            prev
        }
    }
}

/// What is printed for the rule hits `hits`, one record each, in order.
pub open spec fn hits_output(hits: Seq<RuleHit>, key: Seq<char>, hide: bool, json: bool) -> Seq<char>
    decreases hits.len(),
{
    if hits.len() == 0 {
        Seq::empty()
    } else {
        hits_output(hits.drop_last(), key, hide, json) + yara_text(key, hits.last().rule@, matched_ids(hits.last().patterns@), hide, json)
    }
}

fn matched_strings(ps: &Vec<(String, usize)>) -> (r: Vec<String>)
    ensures
        r@.map_values(|s: String| s@) == matched_ids(ps@),
{
    let mut out: Vec<String> = Vec::new();
    assert(out@.map_values(|s: String| s@) =~= Seq::<Seq<char>>::empty());
    for i in 0..ps.len()
        invariant
            out@.map_values(|s: String| s@) == matched_ids(ps@.take(i as int)),
    {
        assert(ps@.take(i + 1).drop_last() == ps@.take(i as int));
        assert(ps@.take(i + 1).last() == ps@[i as int]);
        if ps[i].1 > 0 {
            let s = ps[i].0.clone();
            assert(out@.push(s).map_values(|x: String| x@) =~= out@.map_values(|x: String| x@).push(s@));
            out.push(s);
        }
    }
    assert(ps@.take(ps@.len() as int) == ps@);
    out
}

/// Prints one Yara record per rule hit; true when there was a hit.
pub fn report_yara_hits(hits: &Vec<RuleHit>, key_name: &str, hide_filenames: bool, json_output: bool, out: &mut String) -> (r: bool)
    ensures
        r == (hits@.len() > 0),
        final(out)@ == old(out)@ + hits_output(hits@, key_name@, hide_filenames, json_output),
{
    let ghost start = out@;
    assert(start + Seq::<char>::empty() == start);
    for i in 0..hits.len()
        invariant
            out@ == start + hits_output(hits@.take(i as int), key_name@, hide_filenames, json_output),
    {
        let rec = Record::Yara {
            key_name: String::from_str(key_name),
            match_rule: hits[i].rule.clone(),
            match_strings: matched_strings(&hits[i].patterns),
        };
        print_match(&rec, hide_filenames, json_output, out);
        assert(hits@.take(i + 1).drop_last() == hits@.take(i as int));
        assert(hits@.take(i + 1).last() == hits@[i as int]);
    }
    assert(hits@.take(hits@.len() as int) == hits@);
    hits.len() > 0
}

proof fn lemma_yara_text_nonempty(key: Seq<char>, rule: Seq<char>, strings: Seq<Seq<char>>, hide: bool, json: bool)
    ensures
        yara_text(key, rule, strings, hide, json).len() > 0,
{
}

proof fn lemma_hits_output_nonempty(hits: Seq<RuleHit>, key: Seq<char>, hide: bool, json: bool)
    requires
        hits.len() > 0,
    ensures
        hits_output(hits, key, hide, json).len() > 0,
{
    lemma_yara_text_nonempty(key, hits.last().rule@, matched_ids(hits.last().patterns@), hide, json);
}

/// What scanning prints for an outcome: the report of its hits, or nothing
/// for a failed scan.
pub open spec fn scan_text(outcome: Option<Seq<RuleHit>>, key: Seq<char>, hide: bool, json: bool) -> Seq<char> {
    match outcome {
        Some(h) => hits_output(h, key, hide, json),
        None => Seq::empty(),
    }
}

/// Scans one object's bytes with the rules and prints a record for each
/// matching rule: what is appended is the report of an outcome that scanning
/// these bytes with these rules can give, and something is printed exactly
/// when the result is true.
pub fn scan_object(rules: &yara_x::Rules, key_name: &str, data: &[u8], hide_filenames: bool, json_output: bool, out: &mut String) -> (r: bool)
    ensures
        exists|outcome: Option<Seq<RuleHit>>| #[trigger] yara_scans_to(*rules, data@, opt_hits_view(outcome))
            && final(out)@ == old(out)@ + scan_text(outcome, key_name@, hide_filenames, json_output),
        final(out)@.len() >= old(out)@.len(),
        final(out)@.take(old(out)@.len() as int) == old(out)@,
        r == (final(out)@.len() > old(out)@.len()),
{
    match yara_scan(rules, data) {
        Some(hits) => {
            let r = report_yara_hits(&hits, key_name, hide_filenames, json_output, out);
            proof {
                if hits@.len() > 0 {
                    lemma_hits_output_nonempty(hits@, key_name@, hide_filenames, json_output);
                }
                assert(final(out)@.take(old(out)@.len() as int) =~= old(out)@);
                assert(opt_hits_view(Some(hits@)) == Some(hits_view(hits@)));
                assert(final(out)@ == old(out)@ + scan_text(Some(hits@), key_name@, hide_filenames, json_output));
            }
            r
        },
        None => {
            assert(out@.take(out@.len() as int) == out@);
            assert(opt_hits_view(None) == None::<Seq<(Seq<char>, Seq<(Seq<char>, usize)>)>>);
            assert(out@ == old(out)@ + scan_text(None, key_name@, hide_filenames, json_output));
            false
        },
    }
}

} // verus!
