//! The decisions of a run: which log format applies, where the queries come
//! from, and what a search is configured with, or why the run stops first.

use vstd::prelude::*;
use crate::cli::{parse_comma_list, split_trimmed, Cli};
use crate::filters::{date_spec, parse_date, Filters, Timestamp};
use crate::json::{items_model, model_of, JsonModel, JsonValue};
use crate::pyjson::{python_repr, repr_spec};
use crate::search::{compile_patterns, law_object_found_iff_printed, object_output, regex_error, regex_source, search_object, SearchConfig};
use crate::yara::{opt_hits_view, scan_object, scan_text, yara_scans_to, RuleHit};
use crate::text::chars_of;

verus! {

/// Number of objects searched at the same time.
pub const DEFAULT_WORKERS: usize = 10;

/// What `str::to_lowercase` gives for `s`.
pub uninterp spec fn lowercased(s: Seq<char>) -> Seq<char>;

/// `str::to_lowercase`; the result is the one `lowercased` names.
#[verifier::external_body]
fn to_lowercase(s: &str) -> (r: String)
    ensures
        r@ == lowercased(s@),
{
    s.to_lowercase()
}

pub open spec fn opt_view(o: Option<String>) -> Option<Seq<char>> {
    match o {
        Some(s) => Some(s@),
        None => None,
    }
}

/// The log format and property path a run uses: the presets `cloudtrail`
/// (json, `Records`), `azure` (json, `data`) and `waf` (jsonl, none), chosen
/// case-insensitively; without a log type, the custom format and path; any
/// other log type is refused with its lowercased name.
pub open spec fn log_format_spec(log_type: Option<Seq<char>>, log_format: Option<Seq<char>>, props: Seq<Seq<char>>) -> Result<(Option<Seq<char>>, Seq<Seq<char>>), Seq<char>> {
    match log_type {
        None => Ok((log_format, props)),
        Some(t) => {
            let l = lowercased(t);
            if l == "cloudtrail"@ {
                Ok((Some("json"@), seq!["Records"@]))
            } else if l == "azure"@ {
                Ok((Some("json"@), seq!["data"@]))
            } else if l == "waf"@ {
                Ok((Some("jsonl"@), Seq::empty()))
            } else {
                Err(l)
            }
        },
    }
}

pub open spec fn format_result_view(r: Result<(Option<String>, Vec<String>), String>) -> Result<(Option<Seq<char>>, Seq<Seq<char>>), Seq<char>> {
    match r {
        Ok((f, p)) => Ok((opt_view(f), p@.map_values(|s: String| s@))),
        Err(e) => Err(e@),
    }
}

fn one_string(s: &str) -> (r: Vec<String>)
    ensures
        r@.map_values(|x: String| x@) == seq![s@],
{
    let mut v: Vec<String> = Vec::new();
    v.push(String::from_str(s));
    assert(v@.map_values(|x: String| x@) =~= seq![s@]);
    v
}

/// Resolves `--log_type` against the custom `--log_format` and property path.
pub fn resolve_log_format(log_type: Option<&str>, log_format: Option<String>, log_properties: Vec<String>) -> (r: Result<(Option<String>, Vec<String>), String>)
    ensures
        format_result_view(r) == log_format_spec(
            match log_type {
                Some(t) => Some(t@),
                None => None,
            },
            opt_view(log_format),
            log_properties@.map_values(|s: String| s@),
        ),
{
    match log_type {
        None => Ok((log_format, log_properties)),
        Some(t) => {
            let lower = to_lowercase(t);
            let l = chars_of(lower.as_str());
            if crate::text::same_chars(&l, &chars_of("cloudtrail")) {
                Ok((Some(String::from_str("json")), one_string("Records")))
            } else if crate::text::same_chars(&l, &chars_of("azure")) {
                Ok((Some(String::from_str("json")), one_string("data")))
            } else if crate::text::same_chars(&l, &chars_of("waf")) {
                let v: Vec<String> = Vec::new();
                assert(v@.map_values(|x: String| x@) =~= Seq::<Seq<char>>::empty());
                Ok((Some(String::from_str("jsonl")), v))
            } else {
                Err(lower)
            }
        },
    }
}

/// The queries as Python prints a list of strings (`['a', 'b']`).
pub fn queries_display(queries: &[String]) -> (r: String)
    ensures
        r@ == repr_spec(JsonModel::Array(queries@.map_values(|q: String| JsonModel::Str(q@)))),
{
    let mut items: Vec<JsonValue> = Vec::new();
    for i in 0..queries.len()
        invariant
            items_model(items@) == queries@.take(i as int).map_values(|q: String| JsonModel::Str(q@)),
    {
        let v = JsonValue::String(queries[i].clone());
        assert(items_model(items@.push(v)) =~= items_model(items@).push(model_of(v)));
        assert(queries@.take(i + 1).map_values(|q: String| JsonModel::Str(q@)) =~= queries@.take(i as int).map_values(|q: String| JsonModel::Str(q@)).push(JsonModel::Str(queries@[i as int]@)));
        items.push(v);
    }
    assert(queries@.take(queries@.len() as int) == queries@);
    python_repr(&JsonValue::Array(items))
}

/// Where a run's queries come from.
pub enum QueryPlan {
    /// The queries to use (possibly none).
    Queries(Vec<String>),
    /// Read the queries from this file (one per line).
    ReadFile(String),
}

/// The queries of `--query`, split at commas; when that gives none and a
/// query file is named, the file is to be read instead.
pub fn plan_queries(cli: &Cli) -> (r: QueryPlan)
    ensures
        ({
            let inline = match cli.query {
                Some(q) => split_trimmed(q@, ','),
                None => Seq::<Seq<char>>::empty(),
            };
            match r {
                QueryPlan::Queries(v) => v@.map_values(|x: String| x@) == inline && (inline.len() > 0 || cli.file is None),
                QueryPlan::ReadFile(p) => inline.len() == 0 && cli.file == Some(p),
            }
        }),
{
    let queries = match &cli.query {
        Some(q) => parse_comma_list(q.as_str()),
        None => {
            let v: Vec<String> = Vec::new();
            assert(v@.map_values(|x: String| x@) =~= Seq::<Seq<char>>::empty());
            v
        },
    };
    if queries.len() == 0 {
        match &cli.file {
            Some(f) => {
                return QueryPlan::ReadFile(f.clone());
            },
            None => {},
        }
    }
    QueryPlan::Queries(queries)
}

/// Why a run ends before searching.
pub enum RunStop {
    /// No query was given (Yara rules do not stand in for one).
    NoQuery,
    /// The log type is none of the presets (its lowercased name).
    InvalidLogType(String),
    /// A date bound could not be read (the error message).
    BadDate(String),
    /// A query is not a valid regex (the error message).
    BadPattern(String),
}

/// A search ready to run.
pub struct SearchPlan {
    pub cfg: SearchConfig,
    pub filters: Filters,
}

pub open spec fn date_bound(d: Option<String>) -> Option<Option<Timestamp>> {
    match d {
        None => Some(None),
        Some(s) => match date_spec(s@) {
            Some(t) => Some(Some(t)),
            None => None,
        },
    }
}

fn read_bound(d: &Option<String>) -> (r: Result<Option<Timestamp>, String>)
    ensures
        r is Ok <==> date_bound(*d) is Some,
        r matches Ok(t) ==> date_bound(*d) == Some(t),
        r matches Err(m) ==> d is Some && m@ == "could not parse date: "@ + d->0@,
{
    match d {
        None => Ok(None),
        Some(s) => match parse_date(s.as_str()) {
            Ok(t) => Ok(Some(t)),
            Err(m) => Err(m),
        },
    }
}

fn clone_opt(o: &Option<String>) -> (r: Option<String>)
    ensures
        r == *o,
{
    match o {
        Some(s) => Some(s.clone()),
        None => None,
    }
}

/// Checks a run's options in the order a run does and builds its search:
/// no queries stops with `NoQuery`, Yara rules or not; an unknown log type,
/// an unreadable date bound or an invalid pattern stop with their messages;
/// otherwise the configuration
/// carries the queries, output flags, resolved log format and property path,
/// and the filters carry the key keyword, the date window and the size cap.
pub fn plan_search(cli: &Cli, queries: Vec<String>) -> (r: Result<SearchPlan, RunStop>)
    ensures
        queries@.len() == 0 <==> r matches Err(RunStop::NoQuery),
        ({
            let props = match cli.log_properties {
                Some(p) => split_trimmed(p@, ','),
                None => Seq::<Seq<char>>::empty(),
            };
            let fmt = log_format_spec(opt_view(cli.log_type), opt_view(cli.log_format), props);
            let qs = queries@.map_values(|q: String| q@);
            queries@.len() > 0 ==> match r {
                Err(RunStop::InvalidLogType(l)) => fmt == Err::<(Option<Seq<char>>, Seq<Seq<char>>), Seq<char>>(l@),
                Err(RunStop::BadDate(m)) => fmt is Ok && if date_bound(cli.start_date) is None {
                    m@ == "could not parse date: "@ + cli.start_date->0@
                } else {
                    date_bound(cli.end_date) is None && m@ == "could not parse date: "@ + cli.end_date->0@
                },
                Err(RunStop::BadPattern(m)) => fmt is Ok && date_bound(cli.start_date) is Some && date_bound(cli.end_date) is Some
                    && exists|i: int| 0 <= i < qs.len() && regex_error(#[trigger] qs[i]) == Some(m@),
                Ok(plan) => fmt == Ok::<(Option<Seq<char>>, Seq<Seq<char>>), Seq<char>>((opt_view(plan.cfg.log_format), plan.cfg.log_properties@.map_values(|s: String| s@)))
                    && date_bound(cli.start_date) == Some(plan.filters.from_date)
                    && date_bound(cli.end_date) == Some(plan.filters.to_date)
                    && plan.cfg.patterns@.len() == qs.len()
                    && (forall|i: int| 0 <= i < qs.len() ==> regex_error(#[trigger] qs[i]) is None)
                    && (forall|i: int| 0 <= i < qs.len() ==> (#[trigger] plan.cfg.patterns@[i]).0@ == qs[i] && regex_source(plan.cfg.patterns@[i].1) == qs[i])
                    && plan.cfg.hide_filenames == cli.hide_filenames
                    && plan.cfg.json_output == cli.json_output
                    && plan.cfg.account_name == cli.account_name
                    && plan.filters.key_contains == cli.filename
                    && plan.filters.max_size == cli.file_size
                    && plan.filters.check_size,
                _ => false,
            }
        }),
{
    if queries.len() == 0 {
        return Err(RunStop::NoQuery);
    }
    let log_properties = match &cli.log_properties {
        Some(p) => parse_comma_list(p.as_str()),
        None => {
            let v: Vec<String> = Vec::new();
            assert(v@.map_values(|x: String| x@) =~= Seq::<Seq<char>>::empty());
            v
        },
    };
    let log_type: Option<&str> = match &cli.log_type {
        Some(t) => Some(t.as_str()),
        None => None,
    };
    let (log_format, log_properties) = match resolve_log_format(log_type, clone_opt(&cli.log_format), log_properties) {
        Ok(pair) => pair,
        Err(bad) => {
            return Err(RunStop::InvalidLogType(bad));
        },
    };
    let from_date = match read_bound(&cli.start_date) {
        Ok(t) => t,
        Err(m) => {
            return Err(RunStop::BadDate(m));
        },
    };
    let to_date = match read_bound(&cli.end_date) {
        Ok(t) => t,
        Err(m) => {
            return Err(RunStop::BadDate(m));
        },
    };
    let patterns = match compile_patterns(queries.as_slice()) {
        Ok(p) => p,
        Err(m) => {
            proof {
                let i = choose|i: int| 0 <= i < queries@.len() && regex_error(#[trigger] queries@[i]@) == Some(m@) && forall|j: int| 0 <= j < i ==> regex_error(#[trigger] queries@[j]@) is None;
                assert(queries@.map_values(|q: String| q@)[i] == queries@[i]@);
            }
            return Err(RunStop::BadPattern(m));
        },
    };
    let cfg = SearchConfig {
        patterns,
        hide_filenames: cli.hide_filenames,
        json_output: cli.json_output,
        log_format,
        log_properties,
        account_name: clone_opt(&cli.account_name),
    };
    let filters = Filters {
        key_contains: clone_opt(&cli.filename),
        from_date,
        to_date,
        max_size: cli.file_size,
        check_size: true,
    };
    Ok(SearchPlan { cfg, filters })
}

/// Searches one fetched object: Yara rules, when given, replace the regex
/// search (every matching rule is printed); otherwise the patterns are
/// matched line by line.  Either way output is only appended, and the result
/// tells whether anything was printed.
pub fn search_fetched_object(cfg: &SearchConfig, yara_rules: Option<&yara_x::Rules>, key_name: &str, data: &[u8], out: &mut String) -> (r: bool)
    ensures
        yara_rules is None ==> (r, final(out)@) == ({
            let (f, o) = object_output(*cfg, key_name@, data@);
            (f, old(out)@ + o)
        }),
        yara_rules matches Some(rules) ==> exists|outcome: Option<Seq<RuleHit>>| #[trigger] yara_scans_to(*rules, data@, opt_hits_view(outcome))
            && final(out)@ == old(out)@ + scan_text(outcome, key_name@, cfg.hide_filenames, cfg.json_output),
        final(out)@.len() >= old(out)@.len(),
        final(out)@.take(old(out)@.len() as int) == old(out)@,
        r == (final(out)@.len() > old(out)@.len()),
{
    match yara_rules {
        Some(rules) => scan_object(rules, key_name, data, cfg.hide_filenames, cfg.json_output, out),
        None => {
            let r = search_object(cfg, key_name, data, out);
            proof {
                law_object_found_iff_printed(*cfg, key_name@, data@);
                assert(final(out)@.take(old(out)@.len() as int) =~= old(out)@);
            }
            r
        },
    }
}

/// The log type is matched without regard to case: two spellings with the
/// same lowercase form choose the same format and path.
pub proof fn law_log_type_ignores_case(a: Seq<char>, b: Seq<char>, log_format: Option<Seq<char>>, props: Seq<Seq<char>>)
    requires
        lowercased(a) == lowercased(b),
    ensures
        log_format_spec(Some(a), log_format, props) == log_format_spec(Some(b), log_format, props),
{
}

/// A preset log type overrides any custom format and property path.
pub proof fn law_preset_overrides_custom(t: Seq<char>, f1: Option<Seq<char>>, p1: Seq<Seq<char>>, f2: Option<Seq<char>>, p2: Seq<Seq<char>>)
    ensures
        log_format_spec(Some(t), f1, p1) == log_format_spec(Some(t), f2, p2),
{
}

} // verus!
