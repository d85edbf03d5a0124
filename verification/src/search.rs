//! The matching engine: every query pattern against every line of every
//! text of an object, with the two-stage matching of parsed log records and
//! the special reading of Azure log exports.

use vstd::prelude::*;
use crate::decompress::{detect, kind_of_name, split_lines, split_lines_spec, texts, texts_spec, views_of, FileKind};
use crate::json::{items_model, json_parsed, model_of, parse_json, JsonModel, JsonValue};
use crate::logparse::{extract_log_entries, extract_spec, falsy, is_falsy, parse_logs, parse_logs_spec, strings_view};
use crate::output::{match_text, write_match};
use crate::pyjson::{dumps, dumps_spec};

verus! {

#[verifier::external_type_specification]
#[verifier::external_body]
pub struct ExRegex(regex::Regex);

/// The error message `regex::Regex::new` gives for `pattern`; `None` when it compiles.
pub uninterp spec fn regex_error(pattern: Seq<char>) -> Option<Seq<char>>;

/// `regex::Regex::as_str`: the pattern text a compiled regex was made from.
pub uninterp spec fn regex_source(re: regex::Regex) -> Seq<char>;

/// What `regex::Regex::is_match` answers for the compiled regex `re` on `text`.
pub uninterp spec fn regex_is_match(re: regex::Regex, text: Seq<char>) -> bool;

/// `regex::Regex::new`: compiles `pattern`, or gives the error's message;
/// whether it compiles, and the message, are the ones `regex_error` names.
#[verifier::external_body]
fn new_regex(pattern: &str) -> (r: Result<regex::Regex, String>)
    ensures
        r is Ok <==> regex_error(pattern@) is None,
        r matches Ok(re) ==> regex_source(re) == pattern@,
        r matches Err(m) ==> regex_error(pattern@) == Some(m@),
{
    regex::Regex::new(pattern).map_err(|e| e.to_string())
}

/// `regex::Regex::is_match`: whether the regex matches anywhere in `text`.
#[verifier::external_body]
fn is_match(re: &regex::Regex, text: &str) -> (r: bool)
    ensures
        r == regex_is_match(*re, text@),
{
    re.is_match(text)
}

/// What a search needs to know.
pub struct SearchConfig {
    /// Each query as given, with its compiled regex.
    pub patterns: Vec<(String, regex::Regex)>,
    pub hide_filenames: bool,
    pub json_output: bool,
    /// The log format (`json`, `jsonl`, `csv`) lines are parsed in, if any.
    pub log_format: Option<String>,
    /// The property path to the records of a parsed line.
    pub log_properties: Vec<String>,
    /// Set when searching an Azure account: compressed objects are then whole JSON documents.
    pub account_name: Option<String>,
}

/// Compiles every pattern; the first that does not compile gives its error message.
pub fn compile_patterns(patterns: &[String]) -> (r: Result<Vec<(String, regex::Regex)>, String>)
    ensures
        r is Ok <==> forall|i: int| 0 <= i < patterns@.len() ==> regex_error(#[trigger] patterns@[i]@) is None,
        r matches Ok(v) ==> v@.len() == patterns@.len() && forall|i: int| 0 <= i < patterns@.len() ==> (#[trigger] v@[i]).0@ == patterns@[i]@ && regex_source(v@[i].1) == patterns@[i]@,
        r matches Err(m) ==> exists|i: int| 0 <= i < patterns@.len() && regex_error(#[trigger] patterns@[i]@) == Some(m@) && forall|j: int| 0 <= j < i ==> regex_error(#[trigger] patterns@[j]@) is None,
{
    let mut v: Vec<(String, regex::Regex)> = Vec::new();
    for i in 0..patterns.len()
        invariant
            v@.len() == i,
            forall|k: int| 0 <= k < i ==> regex_error(#[trigger] patterns@[k]@) is None,
            forall|k: int| 0 <= k < i ==> (#[trigger] v@[k]).0@ == patterns@[k]@ && regex_source(v@[k].1) == patterns@[k]@,
    {
        match new_regex(patterns[i].as_str()) {
            Ok(re) => {
                v.push((patterns[i].clone(), re));
            },
            Err(m) => {
                assert(regex_error(patterns@[i as int]@) == Some(m@));
                return Err(m);
            },
        }
    }
    Ok(v)
}

pub open spec fn format_of(cfg: SearchConfig) -> Option<Seq<char>> {
    match cfg.log_format {
        Some(f) => Some(f@),
        None => None,
    }
}

/// Printing the records `entries` whose `json.dumps` rendering matches the
/// regex `src`: whether any was printed, and what.
pub open spec fn entries_output(cfg: SearchConfig, key: Seq<char>, raw: Seq<char>, src: regex::Regex, entries: Seq<JsonModel>) -> (bool, Seq<char>)
    decreases entries.len(),
{
    if entries.len() == 0 {
        (false, Seq::empty())
    } else {
        let (f, o) = entries_output(cfg, key, raw, src, entries.drop_last());
        let e = entries.last();
        if regex_is_match(src, dumps_spec(e)) {
            (true, o + match_text(key, raw, e, cfg.hide_filenames, cfg.json_output))
        } else {
            (f, o)
        }
    }
}

/// The second stage for a line whose raw text matched: parse it in format
/// `fmt`; a line that does not parse, or parses to a falsy value, prints
/// nothing; otherwise its records are matched one by one.
pub open spec fn logs_output(cfg: SearchConfig, key: Seq<char>, line: Seq<char>, raw: Seq<char>, src: regex::Regex, fmt: Seq<char>) -> (bool, Seq<char>) {
    match parse_logs_spec(line, fmt) {
        None => (false, Seq::empty()),
        Some(p) => if falsy(p) {
            (false, Seq::empty())
        } else {
            entries_output(cfg, key, raw, src, extract_spec(p, strings_view(cfg.log_properties@)))
        },
    }
}

/// Searching one line with the patterns `pats`, in order: whether anything
/// was printed, and what.  Without a log format every matching pattern
/// prints the line; with one, the matching records of the parsed line.
pub open spec fn line_output(cfg: SearchConfig, pats: Seq<(String, regex::Regex)>, key: Seq<char>, line: Seq<char>) -> (bool, Seq<char>)
    decreases pats.len(),
{
    if pats.len() == 0 {
        (false, Seq::empty())
    } else {
        let (f, o) = line_output(cfg, pats.drop_last(), key, line);
        let raw = pats.last().0@;
        let src = pats.last().1;
        if regex_is_match(src, line) {
            match format_of(cfg) {
                Some(fmt) => {
                    let (f2, o2) = logs_output(cfg, key, line, raw, src, fmt);
                    (f || f2, o + o2)
                },
                None => (true, o + match_text(key, raw, JsonModel::Str(line), cfg.hide_filenames, cfg.json_output)),
            }
        } else {
            (f, o)
        }
    }
}

/// Parses a line whose raw text matched `re`, and prints each of its records
/// whose `json.dumps` rendering matches `re` too; true when one was printed.
fn search_logs(cfg: &SearchConfig, key_name: &String, line: &str, raw_pattern: &String, re: &regex::Regex, log_format: &str, out: &mut String) -> (r: bool)
    ensures
        (r, final(out)@) == ({
            let (f, o) = logs_output(*cfg, key_name@, line@, raw_pattern@, *re, log_format@);
            (f, old(out)@ + o)
        }),
        r == (final(out)@.len() > old(out)@.len()),
{
    proof {
        law_logs_found_iff_printed(*cfg, key_name@, line@, raw_pattern@, *re, log_format@);
    }
    let parsed = match parse_logs(line, log_format) {
        Some(p) => p,
        None => {
            assert(old(out)@ + Seq::<char>::empty() == old(out)@);
            return false;
        },
    };
    if is_falsy(&parsed) {
        assert(old(out)@ + Seq::<char>::empty() == old(out)@);
        return false;
    }
    let entries = extract_log_entries(parsed, cfg.log_properties.as_slice());
    let ghost es = items_model(entries@);
    let ghost src = *re;
    let ghost start = out@;
    let mut printed = false;
    assert(start + Seq::<char>::empty() == start);
    for i in 0..entries.len()
        invariant
            es == items_model(entries@),
            src == *re,
            (printed, out@) == ({
                let (f, o) = entries_output(*cfg, key_name@, raw_pattern@, src, es.take(i as int));
                (f, start + o)
            }),
    {
        let entry = &entries[i];
        let text = dumps(entry);
        proof {
            assert(es.take(i + 1).drop_last() == es.take(i as int));
            assert(es.take(i + 1).last() == model_of(*entry));
        }
        if is_match(re, text.as_str()) {
            write_match(out, key_name, raw_pattern, entry, cfg.hide_filenames, cfg.json_output);
            printed = true;
        }
    }
    assert(es.take(entries@.len() as int) == es);
    printed
}

/// Searches one line with every pattern, printing what matches; true when
/// something was printed.
pub fn search_line(cfg: &SearchConfig, key_name: &str, line: &str, out: &mut String) -> (r: bool)
    ensures
        (r, final(out)@) == ({
            let (f, o) = line_output(*cfg, cfg.patterns@, key_name@, line@);
            (f, old(out)@ + o)
        }),
{
    let key = String::from_str(key_name);
    let ghost pats = cfg.patterns@;
    let ghost start = out@;
    let mut found = false;
    assert(start + Seq::<char>::empty() == start);
    for i in 0..cfg.patterns.len()
        invariant
            pats == cfg.patterns@,
            key@ == key_name@,
            (found, out@) == ({
                let (f, o) = line_output(*cfg, pats.take(i as int), key_name@, line@);
                (f, start + o)
            }),
    {
        let (raw, re) = &cfg.patterns[i];
        proof {
            assert(pats.take(i + 1).drop_last() == pats.take(i as int));
            assert(pats.take(i + 1).last() == pats[i as int]);
        }
        let ghost before = out@;
        if is_match(re, line) {
            match &cfg.log_format {
                Some(fmt) => {
                    if search_logs(cfg, &key, line, raw, re, fmt.as_str(), out) {
                        found = true;
                    }
                    assert(out@ == start + line_output(*cfg, pats.take(i + 1), key_name@, line@).1);
                },
                None => {
                    let text_line = JsonValue::String(String::from_str(line));
                    write_match(out, &key, raw, &text_line, cfg.hide_filenames, cfg.json_output);
                    found = true;
                    assert(out@ == start + line_output(*cfg, pats.take(i + 1), key_name@, line@).1);
                },
            }
        }
    }
    assert(pats.take(pats.len() as int) == pats);
    found
}


/// Searching the lines `lines` of one text, in order.
pub open spec fn lines_output(cfg: SearchConfig, key: Seq<char>, lines: Seq<Seq<char>>) -> (bool, Seq<char>)
    decreases lines.len(),
{
    if lines.len() == 0 {
        (false, Seq::empty())
    } else {
        let (f, o) = lines_output(cfg, key, lines.drop_last());
        let (f2, o2) = line_output(cfg, cfg.patterns@, key, lines.last());
        (f || f2, o + o2)
    }
}

/// Searching every line of every text in `ts`, in order.
pub open spec fn texts_output(cfg: SearchConfig, key: Seq<char>, ts: Seq<Seq<char>>) -> (bool, Seq<char>)
    decreases ts.len(),
{
    if ts.len() == 0 {
        (false, Seq::empty())
    } else {
        let (f, o) = texts_output(cfg, key, ts.drop_last());
        let (f2, o2) = lines_output(cfg, key, split_lines_spec(ts.last()));
        (f || f2, o + o2)
    }
}

/// Searching the entries of an Azure export array: each string entry is
/// searched as a line; the first entry that is not a string stops the search
/// of the whole object (the third component).
pub open spec fn azure_entries(cfg: SearchConfig, key: Seq<char>, items: Seq<JsonModel>) -> (bool, Seq<char>, bool)
    decreases items.len(),
{
    if items.len() == 0 {
        (false, Seq::empty(), false)
    } else {
        let (f, o, stop) = azure_entries(cfg, key, items.drop_last());
        if stop {
            (f, o, true)
        } else {
            match items.last() {
                JsonModel::Str(s) => {
                    let (f2, o2) = line_output(cfg, cfg.patterns@, key, s);
                    (f || f2, o + o2, false)
                },
                _ => (f, o, true),
            }
        }
    }
}

/// Searching the texts of an Azure export: each text must parse as a JSON
/// array (one that does not is passed over); a non-string entry stops it all.
pub open spec fn azure_texts(cfg: SearchConfig, key: Seq<char>, ts: Seq<Seq<char>>) -> (bool, Seq<char>, bool)
    decreases ts.len(),
{
    if ts.len() == 0 {
        (false, Seq::empty(), false)
    } else {
        let (f, o, stop) = azure_texts(cfg, key, ts.drop_last());
        if stop {
            (f, o, true)
        } else {
            match json_parsed(ts.last()) {
                Some(JsonModel::Array(items)) => {
                    let (f2, o2, s2) = azure_entries(cfg, key, items);
                    (f || f2, o + o2, s2)
                },
                _ => (f, o, false),
            }
        }
    }
}

/// Searching one object: its packing comes from its name; with an Azure
/// account set, a compressed object is read as whole JSON exports; an object
/// that cannot be unpacked prints nothing.
pub open spec fn object_output(cfg: SearchConfig, key: Seq<char>, data: Seq<u8>) -> (bool, Seq<char>) {
    let kind = kind_of_name(key);
    match texts_spec(data, kind) {
        Err(_) => (false, Seq::empty()),
        Ok(ts) => if cfg.account_name is Some && kind != FileKind::Plain {
            let (f, o, _) = azure_texts(cfg, key, ts);
            (f, o)
        } else {
            texts_output(cfg, key, ts)
        },
    }
}

fn search_azure_json(cfg: &SearchConfig, key_name: &str, data: &[u8], kind: FileKind, out: &mut String) -> (r: bool)
    ensures
        (r, final(out)@) == ({
            match texts_spec(data@, kind) {
                Err(_) => (false, old(out)@),
                Ok(ts) => {
                    let (f, o, _) = azure_texts(*cfg, key_name@, ts);
                    (f, old(out)@ + o)
                },
            }
        }),
{
    let ts = match texts(data, kind) {
        Ok(t) => t,
        Err(_) => return false,
    };
    let ghost tv = views_of(ts@);
    let ghost start = out@;
    let mut matched_any = false;
    assert(start + Seq::<char>::empty() == start);
    for t in 0..ts.len()
        invariant
            tv == views_of(ts@),
            start == old(out)@,
            texts_spec(data@, kind) == Ok::<Seq<Seq<char>>, crate::decompress::DecompressError>(tv),
            ({
                let (f, o, stop) = azure_texts(*cfg, key_name@, tv.take(t as int));
                matched_any == f && out@ == start + o && !stop
            }),
    {
        proof {
            assert(tv.take(t + 1).drop_last() == tv.take(t as int));
            assert(tv.take(t + 1).last() == ts@[t as int]@);
        }
        match parse_json(ts[t].as_str()) {
            Some(JsonValue::Array(entries)) => {
                let ghost items = items_model(entries@);
                let ghost base_f = matched_any;
                let ghost base_o = out@;
                assert(base_o + Seq::<char>::empty() == base_o);
                assert(json_parsed(tv[t as int]) == Some(JsonModel::Array(items)));
                for e in 0..entries.len()
                    invariant
                        items == items_model(entries@),
                        tv == views_of(ts@),
                        t < ts@.len(),
                        start == old(out)@,
                        texts_spec(data@, kind) == Ok::<Seq<Seq<char>>, crate::decompress::DecompressError>(tv),
                        json_parsed(tv[t as int]) == Some(JsonModel::Array(items)),
                        tv.take(t + 1).drop_last() == tv.take(t as int),
                        tv.take(t + 1).last() == tv[t as int],
                        ({
                            let (f, o, stop) = azure_texts(*cfg, key_name@, tv.take(t as int));
                            base_f == f && base_o == start + o && !stop
                        }),
                        ({
                            let (f, o, stop) = azure_entries(*cfg, key_name@, items.take(e as int));
                            matched_any == (base_f || f) && out@ == base_o + o && !stop
                        }),
                {
                    proof {
                        assert(items.take(e + 1).drop_last() == items.take(e as int));
                        assert(items.take(e + 1).last() == model_of(entries@[e as int]));
                    }
                    match &entries[e] {
                        JsonValue::String(s) => {
                            if search_line(cfg, key_name, s.as_str(), out) {
                                matched_any = true;
                            }
                        },
                        _ => {
                            proof {
                                lemma_azure_entries_stop(*cfg, key_name@, items, e as int + 1);
                                lemma_azure_texts_stop(*cfg, key_name@, tv, t as int + 1);
                            }
                            return matched_any;
                        },
                    }
                }
                assert(items.take(entries@.len() as int) == items);
            },
            _ => {},
        }
    }
    assert(tv.take(ts@.len() as int) == tv);
    matched_any
}

proof fn lemma_azure_entries_stop(cfg: SearchConfig, key: Seq<char>, items: Seq<JsonModel>, k: int)
    requires
        0 <= k <= items.len(),
        azure_entries(cfg, key, items.take(k)).2,
    ensures
        azure_entries(cfg, key, items) == azure_entries(cfg, key, items.take(k)),
    decreases items.len() - k,
{
    if k < items.len() {
        assert(items.take(k + 1).drop_last() == items.take(k));
        lemma_azure_entries_stop(cfg, key, items, k + 1);
    } else {
        assert(items.take(k) == items);
    }
}

proof fn lemma_azure_texts_stop(cfg: SearchConfig, key: Seq<char>, ts: Seq<Seq<char>>, k: int)
    requires
        0 <= k <= ts.len(),
        azure_texts(cfg, key, ts.take(k)).2,
    ensures
        azure_texts(cfg, key, ts) == azure_texts(cfg, key, ts.take(k)),
    decreases ts.len() - k,
{
    if k < ts.len() {
        assert(ts.take(k + 1).drop_last() == ts.take(k));
        lemma_azure_texts_stop(cfg, key, ts, k + 1);
    } else {
        assert(ts.take(k) == ts);
    }
}

/// Searches one object's bytes, printing every match; true when something was printed.
pub fn search_object(cfg: &SearchConfig, key_name: &str, data: &[u8], out: &mut String) -> (r: bool)
    ensures
        (r, final(out)@) == ({
            let (f, o) = object_output(*cfg, key_name@, data@);
            (f, old(out)@ + o)
        }),
{
    let kind = detect(key_name);
    if cfg.account_name.is_some() && kind != FileKind::Plain {
        let r = search_azure_json(cfg, key_name, data, kind, out);
        proof {
            if texts_spec(data@, kind) is Err {
                assert(old(out)@ + Seq::<char>::empty() == old(out)@);
            }
        }
        return r;
    }
    let ts = match texts(data, kind) {
        Ok(t) => t,
        Err(_) => {
            assert(old(out)@ + Seq::<char>::empty() == old(out)@);
            return false;
        },
    };
    let ghost tv = views_of(ts@);
    let ghost start = out@;
    let mut matched_any = false;
    assert(start + Seq::<char>::empty() == start);
    for t in 0..ts.len()
        invariant
            tv == views_of(ts@),
            (matched_any, out@) == ({
                let (f, o) = texts_output(*cfg, key_name@, tv.take(t as int));
                (f, start + o)
            }),
    {
        let lines = split_lines(ts[t].as_str());
        let ghost lv = views_of(lines@);
        let ghost base_f = matched_any;
        let ghost base_o = out@;
        assert(base_o + Seq::<char>::empty() == base_o);
        for l in 0..lines.len()
            invariant
                lv == views_of(lines@),
                (matched_any, out@) == ({
                    let (f, o) = lines_output(*cfg, key_name@, lv.take(l as int));
                    (base_f || f, base_o + o)
                }),
        {
            proof {
                assert(lv.take(l + 1).drop_last() == lv.take(l as int));
                assert(lv.take(l + 1).last() == lines@[l as int]@);
            }
            if search_line(cfg, key_name, lines[l].as_str(), out) {
                matched_any = true;
            }
        }
        proof {
            assert(lv.take(lines@.len() as int) == lv);
            assert(tv.take(t + 1).drop_last() == tv.take(t as int));
            assert(tv.take(t + 1).last() == ts@[t as int]@);
        }
    }
    assert(tv.take(ts@.len() as int) == tv);
    matched_any
}

proof fn lemma_match_text_nonempty(key: Seq<char>, query: Seq<char>, line: JsonModel, hide: bool, json: bool)
    ensures
        match_text(key, query, line, hide, json).len() > 0,
{
}

proof fn lemma_entries_found_iff_printed(cfg: SearchConfig, key: Seq<char>, raw: Seq<char>, src: regex::Regex, entries: Seq<JsonModel>)
    ensures
        entries_output(cfg, key, raw, src, entries).0 <==> entries_output(cfg, key, raw, src, entries).1.len() > 0,
    decreases entries.len(),
{
    if entries.len() > 0 {
        lemma_entries_found_iff_printed(cfg, key, raw, src, entries.drop_last());
        lemma_match_text_nonempty(key, raw, entries.last(), cfg.hide_filenames, cfg.json_output);
    }
}

/// A line is reported as found exactly when something was printed for it:
/// with a log format, a raw hit whose records all fail the second test
/// counts as no match.
pub proof fn law_line_found_iff_printed(cfg: SearchConfig, pats: Seq<(String, regex::Regex)>, key: Seq<char>, line: Seq<char>)
    ensures
        line_output(cfg, pats, key, line).0 <==> line_output(cfg, pats, key, line).1.len() > 0,
    decreases pats.len(),
{
    if pats.len() > 0 {
        law_line_found_iff_printed(cfg, pats.drop_last(), key, line);
        let raw = pats.last().0@;
        let src = pats.last().1;
        lemma_match_text_nonempty(key, raw, JsonModel::Str(line), cfg.hide_filenames, cfg.json_output);
        match format_of(cfg) {
            Some(fmt) => {
                match parse_logs_spec(line, fmt) {
                    Some(p) => {
                        lemma_entries_found_iff_printed(cfg, key, raw, src, extract_spec(p, strings_view(cfg.log_properties@)));
                    },
                    None => {},
                }
            },
            None => {},
        }
    }
}

proof fn lemma_lines_found_iff_printed(cfg: SearchConfig, key: Seq<char>, lines: Seq<Seq<char>>)
    ensures
        lines_output(cfg, key, lines).0 <==> lines_output(cfg, key, lines).1.len() > 0,
    decreases lines.len(),
{
    if lines.len() > 0 {
        lemma_lines_found_iff_printed(cfg, key, lines.drop_last());
        law_line_found_iff_printed(cfg, cfg.patterns@, key, lines.last());
    }
}

proof fn lemma_texts_found_iff_printed(cfg: SearchConfig, key: Seq<char>, ts: Seq<Seq<char>>)
    ensures
        texts_output(cfg, key, ts).0 <==> texts_output(cfg, key, ts).1.len() > 0,
    decreases ts.len(),
{
    if ts.len() > 0 {
        lemma_texts_found_iff_printed(cfg, key, ts.drop_last());
        lemma_lines_found_iff_printed(cfg, key, split_lines_spec(ts.last()));
    }
}

proof fn lemma_azure_entries_found_iff_printed(cfg: SearchConfig, key: Seq<char>, items: Seq<JsonModel>)
    ensures
        azure_entries(cfg, key, items).0 <==> azure_entries(cfg, key, items).1.len() > 0,
    decreases items.len(),
{
    if items.len() > 0 {
        lemma_azure_entries_found_iff_printed(cfg, key, items.drop_last());
        match items.last() {
            JsonModel::Str(s) => law_line_found_iff_printed(cfg, cfg.patterns@, key, s),
            _ => {},
        }
    }
}

proof fn lemma_azure_texts_found_iff_printed(cfg: SearchConfig, key: Seq<char>, ts: Seq<Seq<char>>)
    ensures
        azure_texts(cfg, key, ts).0 <==> azure_texts(cfg, key, ts).1.len() > 0,
    decreases ts.len(),
{
    if ts.len() > 0 {
        lemma_azure_texts_found_iff_printed(cfg, key, ts.drop_last());
        match json_parsed(ts.last()) {
            Some(JsonModel::Array(items)) => lemma_azure_entries_found_iff_printed(cfg, key, items),
            _ => {},
        }
    }
}

/// An object is reported as matched exactly when something was printed for it.
pub proof fn law_object_found_iff_printed(cfg: SearchConfig, key: Seq<char>, data: Seq<u8>)
    ensures
        object_output(cfg, key, data).0 <==> object_output(cfg, key, data).1.len() > 0,
{
    match texts_spec(data, kind_of_name(key)) {
        Ok(ts) => {
            lemma_texts_found_iff_printed(cfg, key, ts);
            lemma_azure_texts_found_iff_printed(cfg, key, ts);
        },
        Err(_) => {},
    }
}

/// Nothing is printed for a line that no pattern matches as it stands: the
/// records of a parsed line are looked at only after a raw hit.
pub proof fn law_found_needs_raw_hit(cfg: SearchConfig, pats: Seq<(String, regex::Regex)>, key: Seq<char>, line: Seq<char>)
    ensures
        line_output(cfg, pats, key, line).1.len() > 0 ==> exists|i: int| 0 <= i < pats.len() && regex_is_match(#[trigger] pats[i].1, line),
    decreases pats.len(),
{
    if pats.len() > 0 {
        law_found_needs_raw_hit(cfg, pats.drop_last(), key, line);
        if line_output(cfg, pats.drop_last(), key, line).1.len() > 0 {
            let i = choose|i: int| 0 <= i < pats.drop_last().len() && regex_is_match(#[trigger] pats.drop_last()[i].1, line);
            assert(pats[i] == pats.drop_last()[i]);
        } else if line_output(cfg, pats, key, line).1.len() > 0 {
            assert(regex_is_match(pats[pats.len() - 1].1, line));
        }
    }
}

/// Without a log format, every pattern is tried on the line and the line is
/// found exactly when some pattern matches it.
pub proof fn law_plain_found_iff_some_pattern_matches(cfg: SearchConfig, pats: Seq<(String, regex::Regex)>, key: Seq<char>, line: Seq<char>)
    requires
        cfg.log_format is None,
    ensures
        line_output(cfg, pats, key, line).0 <==> exists|i: int| 0 <= i < pats.len() && regex_is_match(#[trigger] pats[i].1, line),
    decreases pats.len(),
{
    if pats.len() > 0 {
        law_plain_found_iff_some_pattern_matches(cfg, pats.drop_last(), key, line);
        if line_output(cfg, pats.drop_last(), key, line).0 {
            let i = choose|i: int| 0 <= i < pats.drop_last().len() && regex_is_match(#[trigger] pats.drop_last()[i].1, line);
            assert(pats[i] == pats.drop_last()[i]);
        }
        if exists|i: int| 0 <= i < pats.len() && regex_is_match(#[trigger] pats[i].1, line) {
            let i = choose|i: int| 0 <= i < pats.len() && regex_is_match(#[trigger] pats[i].1, line);
            if i < pats.len() - 1 {
                assert(pats.drop_last()[i] == pats[i]);
            }
        }
    }
}

/// With a log format, a line is found exactly when some pattern matches the
/// raw line and its second stage prints a record of the parsed line.
pub proof fn law_format_found_iff_second_stage(cfg: SearchConfig, pats: Seq<(String, regex::Regex)>, key: Seq<char>, line: Seq<char>, fmt: Seq<char>)
    requires
        format_of(cfg) == Some(fmt),
    ensures
        line_output(cfg, pats, key, line).0 <==> exists|i: int| 0 <= i < pats.len() && regex_is_match(#[trigger] pats[i].1, line) && logs_output(
            cfg,
            key,
            line,
            pats[i].0@,
            pats[i].1,
            fmt,
        ).0,
    decreases pats.len(),
{
    if pats.len() > 0 {
        let init = pats.drop_last();
        law_format_found_iff_second_stage(cfg, init, key, line, fmt);
        if line_output(cfg, init, key, line).0 {
            let i = choose|i: int| 0 <= i < init.len() && regex_is_match(#[trigger] init[i].1, line) && logs_output(cfg, key, line, init[i].0@, init[i].1, fmt).0;
            assert(pats[i] == init[i]);
        }
        if exists|i: int| 0 <= i < pats.len() && regex_is_match(#[trigger] pats[i].1, line) && logs_output(cfg, key, line, pats[i].0@, pats[i].1, fmt).0 {
            let i = choose|i: int| 0 <= i < pats.len() && regex_is_match(#[trigger] pats[i].1, line) && logs_output(cfg, key, line, pats[i].0@, pats[i].1, fmt).0;
            if i < pats.len() - 1 {
                assert(init[i] == pats[i]);
            }
        }
    }
}

/// In an Azure export array, the first entry that is not a string ends the
/// search of the whole object: what comes after it is never searched.
pub proof fn law_azure_stops_at_non_string(cfg: SearchConfig, key: Seq<char>, items: Seq<JsonModel>, k: int)
    requires
        0 <= k < items.len(),
        !(items[k] is Str),
    ensures
        azure_entries(cfg, key, items) == azure_entries(cfg, key, items.take(k + 1)),
        azure_entries(cfg, key, items).2,
{
    let t = items.take(k + 1);
    assert(t.drop_last() == items.take(k));
    assert(t.last() == items[k]);
    assert(azure_entries(cfg, key, t).2);
    lemma_azure_entries_stop(cfg, key, items, k + 1);
}

/// The second stage reports a line as found exactly when it printed a record.
pub proof fn law_logs_found_iff_printed(cfg: SearchConfig, key: Seq<char>, line: Seq<char>, raw: Seq<char>, re: regex::Regex, fmt: Seq<char>)
    ensures
        logs_output(cfg, key, line, raw, re, fmt).0 <==> logs_output(cfg, key, line, raw, re, fmt).1.len() > 0,
{
    match parse_logs_spec(line, fmt) {
        Some(p) => lemma_entries_found_iff_printed(cfg, key, raw, re, extract_spec(p, strings_view(cfg.log_properties@))),
        None => {},
    }
}

/// In the second stage every extracted record whose `json.dumps` text
/// matches is printed, one match record each, in order: extending the list of
/// records by `e` adds the record of `e` exactly when `e` matches, whatever
/// was printed before, and nothing otherwise.
pub proof fn law_every_matching_record_printed(cfg: SearchConfig, key: Seq<char>, raw: Seq<char>, src: regex::Regex, es: Seq<JsonModel>, e: JsonModel)
    ensures
        entries_output(cfg, key, raw, src, Seq::empty()) == (false, Seq::<char>::empty()),
        entries_output(cfg, key, raw, src, es.push(e)).1 == entries_output(cfg, key, raw, src, es).1 + (if regex_is_match(src, dumps_spec(e)) {
            match_text(key, raw, e, cfg.hide_filenames, cfg.json_output)
        } else {
            Seq::empty()
        }),
        entries_output(cfg, key, raw, src, es.push(e)).0 == (entries_output(cfg, key, raw, src, es).0 || regex_is_match(src, dumps_spec(e))),
{
    assert(es.push(e).drop_last() == es);
    assert(es.push(e).last() == e);
}

/// Without a log format every pattern is tried on the line, and each one that
/// matches prints its own record of the line, in pattern order: extending the
/// patterns by `p` adds the record of `p` exactly when `p` matches.
pub proof fn law_every_matching_pattern_printed(cfg: SearchConfig, pats: Seq<(String, regex::Regex)>, p: (String, regex::Regex), key: Seq<char>, line: Seq<char>)
    requires
        cfg.log_format is None,
    ensures
        line_output(cfg, Seq::empty(), key, line) == (false, Seq::<char>::empty()),
        line_output(cfg, pats.push(p), key, line).1 == line_output(cfg, pats, key, line).1 + (if regex_is_match(p.1, line) {
            match_text(key, p.0@, JsonModel::Str(line), cfg.hide_filenames, cfg.json_output)
        } else {
            Seq::empty()
        }),
{
    assert(pats.push(p).drop_last() == pats);
    assert(pats.push(p).last() == p);
}

/// Every line of an object is searched, in order: extending the lines by `l`
/// adds exactly what searching `l` alone prints.
pub proof fn law_every_line_searched(cfg: SearchConfig, key: Seq<char>, lines: Seq<Seq<char>>, l: Seq<char>)
    ensures
        lines_output(cfg, key, Seq::empty()) == (false, Seq::<char>::empty()),
        lines_output(cfg, key, lines.push(l)).1 == lines_output(cfg, key, lines).1 + line_output(cfg, cfg.patterns@, key, l).1,
        lines_output(cfg, key, lines.push(l)).0 == (lines_output(cfg, key, lines).0 || line_output(cfg, cfg.patterns@, key, l).0),
{
    assert(lines.push(l).drop_last() == lines);
    assert(lines.push(l).last() == l);
}

/// Whether two configurations search alike: the same patterns, output form,
/// log format and property path (they may differ in the Azure account).
pub open spec fn search_alike(a: SearchConfig, b: SearchConfig) -> bool {
    &&& a.patterns@ == b.patterns@
    &&& a.hide_filenames == b.hide_filenames
    &&& a.json_output == b.json_output
    &&& format_of(a) == format_of(b)
    &&& a.log_properties@ == b.log_properties@
}

proof fn lemma_entries_alike(a: SearchConfig, b: SearchConfig, key: Seq<char>, raw: Seq<char>, src: regex::Regex, es: Seq<JsonModel>)
    requires
        search_alike(a, b),
    ensures
        entries_output(a, key, raw, src, es) == entries_output(b, key, raw, src, es),
    decreases es.len(),
{
    if es.len() > 0 {
        lemma_entries_alike(a, b, key, raw, src, es.drop_last());
    }
}

proof fn lemma_line_alike(a: SearchConfig, b: SearchConfig, pats: Seq<(String, regex::Regex)>, key: Seq<char>, line: Seq<char>)
    requires
        search_alike(a, b),
    ensures
        line_output(a, pats, key, line) == line_output(b, pats, key, line),
    decreases pats.len(),
{
    if pats.len() > 0 {
        lemma_line_alike(a, b, pats.drop_last(), key, line);
        match format_of(a) {
            Some(fmt) => match parse_logs_spec(line, fmt) {
                Some(p) => {
                    assert(strings_view(a.log_properties@) == strings_view(b.log_properties@));
                    lemma_entries_alike(a, b, key, pats.last().0@, pats.last().1, extract_spec(p, strings_view(a.log_properties@)));
                },
                None => {},
            },
            None => {},
        }
    }
}

proof fn lemma_lines_alike(a: SearchConfig, b: SearchConfig, key: Seq<char>, lines: Seq<Seq<char>>)
    requires
        search_alike(a, b),
    ensures
        lines_output(a, key, lines) == lines_output(b, key, lines),
    decreases lines.len(),
{
    if lines.len() > 0 {
        lemma_lines_alike(a, b, key, lines.drop_last());
        lemma_line_alike(a, b, a.patterns@, key, lines.last());
    }
}

proof fn lemma_texts_alike(a: SearchConfig, b: SearchConfig, key: Seq<char>, ts: Seq<Seq<char>>)
    requires
        search_alike(a, b),
    ensures
        texts_output(a, key, ts) == texts_output(b, key, ts),
    decreases ts.len(),
{
    if ts.len() > 0 {
        lemma_texts_alike(a, b, key, ts.drop_last());
        lemma_lines_alike(a, b, key, split_lines_spec(ts.last()));
    }
}

/// An object whose name announces plain text is searched line by line
/// whether or not an Azure account is set: only compressed objects are read
/// as Azure exports.
pub proof fn law_plain_objects_ignore_azure(cfg: SearchConfig, key: Seq<char>, data: Seq<u8>)
    requires
        kind_of_name(key) == FileKind::Plain,
    ensures
        object_output(cfg, key, data) == object_output((SearchConfig { account_name: None, ..cfg }), key, data),
        texts_spec(data, FileKind::Plain) matches Ok(ts) ==> object_output(cfg, key, data) == texts_output(cfg, key, ts),
{
    let b = SearchConfig { account_name: None, ..cfg };
    assert(search_alike(cfg, b));
    match texts_spec(data, kind_of_name(key)) {
        Ok(ts) => lemma_texts_alike(cfg, b, key, ts),
        Err(_) => {},
    }
}

/// Every text of an object (every zip member) is searched, in order:
/// extending the texts by `t` adds exactly what searching the lines of `t`
/// prints.
pub proof fn law_every_text_searched(cfg: SearchConfig, key: Seq<char>, ts: Seq<Seq<char>>, t: Seq<char>)
    ensures
        texts_output(cfg, key, Seq::empty()) == (false, Seq::<char>::empty()),
        texts_output(cfg, key, ts.push(t)).1 == texts_output(cfg, key, ts).1 + lines_output(cfg, key, split_lines_spec(t)).1,
        texts_output(cfg, key, ts.push(t)).0 == (texts_output(cfg, key, ts).0 || lines_output(cfg, key, split_lines_spec(t)).0),
{
    assert(ts.push(t).drop_last() == ts);
    assert(ts.push(t).last() == t);
}

/// In an Azure export array every string entry before the first non-string
/// one is searched as a line, in order: extending entries that did not stop
/// by a string `s` adds exactly what searching `s` as a line prints.
pub proof fn law_azure_searches_string_entries(cfg: SearchConfig, key: Seq<char>, items: Seq<JsonModel>, s: Seq<char>)
    requires
        !azure_entries(cfg, key, items).2,
    ensures
        azure_entries(cfg, key, items.push(JsonModel::Str(s))).1 == azure_entries(cfg, key, items).1 + line_output(cfg, cfg.patterns@, key, s).1,
        !azure_entries(cfg, key, items.push(JsonModel::Str(s))).2,
{
    assert(items.push(JsonModel::Str(s)).drop_last() == items);
    assert(items.push(JsonModel::Str(s)).last() == JsonModel::Str(s));
}

} // verus!
