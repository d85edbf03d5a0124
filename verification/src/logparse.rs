//! Turning a log line into records: the `json`, `jsonl` and `csv` formats,
//! the walk down a property path, and Python's notion of a falsy value.

use vstd::prelude::*;
use crate::json::{items_model, json_parsed, members_model, model_of, parse_json, JsonModel, JsonNumber, JsonValue, NumberModel};
use crate::text::{chars_of, pieces, same_chars, split_range, trim, trim_bounds};

verus! {

pub open spec fn strings_view(v: Seq<String>) -> Seq<Seq<char>> {
    v.map_values(|s: String| s@)
}

pub open spec fn record_view(r: Option<Vec<String>>) -> Option<Seq<Seq<char>>> {
    match r {
        Some(v) => Some(strings_view(v@)),
        None => None,
    }
}

/// What a `csv::Reader` (headers on, flexible record lengths) reads from
/// `text`: the header fields, and each following record (`None` for one it
/// reports an error on); `None` when reading the header fails.
pub uninterp spec fn csv_table(text: Seq<char>) -> Option<(Seq<Seq<char>>, Seq<Option<Seq<Seq<char>>>>)>;

/// Reads `text` with `csv::ReaderBuilder` (`has_headers(true)`, `flexible(true)`):
/// `headers()`, then every item of `records()`; the result is the one
/// `csv_table` names for this text.
#[verifier::external_body]
fn read_csv(text: &str) -> (r: Option<(Vec<String>, Vec<Option<Vec<String>>>)>)
    ensures
        r is Some <==> csv_table(text@) is Some,
        r matches Some(t) ==> csv_table(text@)->0 == (strings_view(t.0@), t.1@.map_values(|x: Option<Vec<String>>| record_view(x))),
{
    let mut rdr = csv::ReaderBuilder::new().has_headers(true).flexible(true).from_reader(text.as_bytes());
    let headers: Vec<String> = match rdr.headers() {
        Ok(h) => h.iter().map(String::from).collect(),
        Err(_) => return None,
    };
    let records = rdr.records().map(|r| r.ok().map(|rec| rec.iter().map(String::from).collect())).collect();
    Some((headers, records))
}

/// Position of the first member of `m` with key `k`, or `m.len()` when there is none.
pub open spec fn key_pos(m: Seq<(Seq<char>, JsonModel)>, k: Seq<char>) -> nat
    decreases m.len(),
{
    if m.len() == 0 {
        0
    } else if m[0].0 == k {
        0
    } else {
        1 + key_pos(m.skip(1), k)
    }
}

/// Inserting into an ordered map: an existing key keeps its place and takes
/// the new value; a new key goes last.
pub open spec fn obj_insert(m: Seq<(Seq<char>, JsonModel)>, k: Seq<char>, v: JsonModel) -> Seq<(Seq<char>, JsonModel)> {
    let i = key_pos(m, k);
    if i < m.len() {
        m.update(i as int, (k, v))
    } else {
        m.push((k, v))
    }
}

/// The object built from the first `n` header/field pairs.
pub open spec fn csv_object(h: Seq<Seq<char>>, rec: Seq<Seq<char>>, n: nat) -> Seq<(Seq<char>, JsonModel)>
    decreases n,
{
    if n == 0 {
        Seq::empty()
    } else {
        obj_insert(csv_object(h, rec, (n - 1) as nat), h[n - 1], JsonModel::Str(rec[n - 1]))
    }
}

pub open spec fn min_len(a: nat, b: nat) -> nat {
    if a < b {
        a
    } else {
        b
    }
}

/// One object per readable record, mapping each header to its field
/// (pairs stop at the shorter of the two).
pub open spec fn csv_rows(h: Seq<Seq<char>>, recs: Seq<Option<Seq<Seq<char>>>>) -> Seq<JsonModel>
    decreases recs.len(),
{
    if recs.len() == 0 {
        Seq::empty()
    } else {
        let prev = csv_rows(h, recs.drop_last());
        match recs.last() {
            Some(rec) => prev.push(JsonModel::Object(csv_object(h, rec, min_len(h.len(), rec.len())))),
            None => prev,
        }
    }
}

/// The value a log line holds in the given format: `json` parses the line,
/// `jsonl` gives the strings of the trimmed line split at `'\n'`, `csv` reads
/// the line as a header row followed by records; other formats give nothing.
pub open spec fn parse_logs_spec(line: Seq<char>, fmt: Seq<char>) -> Option<JsonModel> {
    if fmt == "json"@ {
        json_parsed(line)
    } else if fmt == "jsonl"@ {
        Some(JsonModel::Array(pieces(trim(line), '\n').map_values(|p: Seq<char>| JsonModel::Str(p))))
    } else if fmt == "csv"@ {
        match csv_table(line) {
            Some((h, recs)) => Some(JsonModel::Array(csv_rows(h, recs))),
            None => None,
        }
    } else {
        None
    }
}

pub open spec fn opt_model(r: Option<JsonValue>) -> Option<JsonModel> {
    match r {
        Some(v) => Some(model_of(v)),
        None => None,
    }
}

proof fn lemma_items_model_push(items: Seq<JsonValue>, x: JsonValue)
    ensures
        items_model(items.push(x)) == items_model(items).push(model_of(x)),
{
    assert(items_model(items.push(x)) =~= items_model(items).push(model_of(x)));
}

proof fn lemma_members_model_push(m: Seq<(String, JsonValue)>, k: String, x: JsonValue)
    ensures
        members_model(m.push((k, x))) == members_model(m).push((k@, model_of(x))),
{
    assert(members_model(m.push((k, x))) =~= members_model(m).push((k@, model_of(x))));
}

proof fn lemma_members_model_update(m: Seq<(String, JsonValue)>, i: int, k: String, x: JsonValue)
    requires
        0 <= i < m.len(),
    ensures
        members_model(m.update(i, (k, x))) == members_model(m).update(i, (k@, model_of(x))),
{
    assert(members_model(m.update(i, (k, x))) =~= members_model(m).update(i, (k@, model_of(x))));
}

proof fn lemma_key_pos(m: Seq<(Seq<char>, JsonModel)>, k: Seq<char>, i: int)
    requires
        0 <= i <= m.len(),
        forall|j: int| 0 <= j < i ==> m[j].0 != k,
        i == m.len() || m[i].0 == k,
    ensures
        key_pos(m, k) == i,
    decreases i,
{
    if i > 0 {
        lemma_key_pos(m.skip(1), k, i - 1);
    }
}

/// Position of the first member with key `k`, or `members.len()`.
fn find_key(members: &Vec<(String, JsonValue)>, k: &String) -> (r: usize)
    ensures
        r == key_pos(members_model(members@), k@),
        r <= members@.len(),
{
    let ghost mm = members_model(members@);
    let mut i: usize = 0;
    while i < members.len()
        invariant
            mm == members_model(members@),
            i <= members@.len(),
            forall|j: int| 0 <= j < i ==> mm[j].0 != k@,
        decreases members@.len() - i,
    {
        if members[i].0 == *k {
            proof { lemma_key_pos(mm, k@, i as int); }
            return i;
        }
        i += 1;
    }
    proof { lemma_key_pos(mm, k@, i as int); }
    i
}

/// The object that a CSV record gives under the header row `h`.
fn csv_record_object(h: &Vec<String>, rec: &Vec<String>) -> (r: Vec<(String, JsonValue)>)
    ensures
        members_model(r@) == csv_object(strings_view(h@), strings_view(rec@), min_len(h@.len(), rec@.len())),
{
    let n = if h.len() < rec.len() { h.len() } else { rec.len() };
    let mut m: Vec<(String, JsonValue)> = Vec::new();
    assert(members_model(m@) =~= Seq::<(Seq<char>, JsonModel)>::empty());
    for i in 0..n
        invariant
            n == min_len(h@.len(), rec@.len()),
            members_model(m@) == csv_object(strings_view(h@), strings_view(rec@), i as nat),
    {
        let key = h[i].clone();
        let val = JsonValue::String(rec[i].clone());
        let pos = find_key(&m, &key);
        proof {
            assert(strings_view(h@)[i as int] == key@);
            assert(strings_view(rec@)[i as int] == rec@[i as int]@);
            assert(model_of(val) == JsonModel::Str(rec@[i as int]@));
        }
        if pos < m.len() {
            proof { lemma_members_model_update(m@, pos as int, key, val); }
            m.set(pos, (key, val));
        } else {
            proof { lemma_members_model_push(m@, key, val); }
            m.push((key, val));
        }
    }
    m
}

/// The `jsonl` reading of a line: the trimmed line split at `'\n'`, as strings.
fn jsonl_value(line: &str) -> (r: JsonValue)
    ensures
        model_of(r) == JsonModel::Array(pieces(trim(line@), '\n').map_values(|p: Seq<char>| JsonModel::Str(p))),
{
    let chars = chars_of(line);
    let (lo, hi) = trim_bounds(&chars, 0, chars.len());
    assert(chars@.subrange(0, chars@.len() as int) == line@);
    let parts = split_range(&chars, lo, hi, '\n');
    let ghost ps = pieces(trim(line@), '\n');
    let mut items: Vec<JsonValue> = Vec::new();
    for i in 0..parts.len()
        invariant
            parts@.map_values(|x: String| x@) == ps,
            items_model(items@) == ps.take(i as int).map_values(|p: Seq<char>| JsonModel::Str(p)),
    {
        let s = parts[i].clone();
        proof {
            assert(parts@.map_values(|x: String| x@)[i as int] == s@);
            lemma_items_model_push(items@, JsonValue::String(s));
            assert(ps.take(i + 1).map_values(|p: Seq<char>| JsonModel::Str(p)) =~= ps.take(i as int).map_values(|p: Seq<char>| JsonModel::Str(p)).push(JsonModel::Str(s@)));
        }
        items.push(JsonValue::String(s));
    }
    assert(ps.take(parts@.len() as int) == ps);
    JsonValue::Array(items)
}

/// The `csv` reading of a line: one object per readable record.
fn csv_value(line: &str) -> (r: Option<JsonValue>)
    ensures
        opt_model(r) == match csv_table(line@) {
            Some((h, recs)) => Some(JsonModel::Array(csv_rows(h, recs))),
            None => None::<JsonModel>,
        },
{
    let (headers, records) = match read_csv(line) {
        Some(t) => t,
        None => return None,
    };
    let ghost h = strings_view(headers@);
    let ghost recs = records@.map_values(|x: Option<Vec<String>>| record_view(x));
    let mut rows: Vec<JsonValue> = Vec::new();
    assert(items_model(rows@) =~= Seq::<JsonModel>::empty());
    for i in 0..records.len()
        invariant
            h == strings_view(headers@),
            recs == records@.map_values(|x: Option<Vec<String>>| record_view(x)),
            items_model(rows@) == csv_rows(h, recs.take(i as int)),
    {
        assert(recs.take(i + 1).drop_last() == recs.take(i as int));
        assert(recs.take(i + 1).last() == record_view(records@[i as int]));
        match &records[i] {
            Some(rec) => {
                let obj = JsonValue::Object(csv_record_object(&headers, rec));
                proof { lemma_items_model_push(rows@, obj); }
                rows.push(obj);
            },
            None => {},
        }
    }
    assert(recs.take(records@.len() as int) == recs);
    Some(JsonValue::Array(rows))
}

/// Reads a log line in the given format (`json`, `jsonl` or `csv`); an
/// unparseable line or an unknown format gives `None`.
pub fn parse_logs(line: &str, log_format: &str) -> (r: Option<JsonValue>)
    ensures
        opt_model(r) == parse_logs_spec(line@, log_format@),
{
    let fmt = chars_of(log_format);
    let json_name = chars_of("json");
    let jsonl_name = chars_of("jsonl");
    let csv_name = chars_of("csv");
    if same_chars(&fmt, &json_name) {
        parse_json(line)
    } else if same_chars(&fmt, &jsonl_name) {
        Some(jsonl_value(line))
    } else if same_chars(&fmt, &csv_name) {
        csv_value(line)
    } else {
        None
    }
}

/// Whether Python would treat the decoded value as false (a float is zero
/// exactly when its `{:e}` rendering is `0e0` or `-0e0`).
pub open spec fn falsy(v: JsonModel) -> bool {
    match v {
        JsonModel::Null => true,
        JsonModel::Bool(b) => !b,
        JsonModel::Number(n) => match n {
            NumberModel::PosInt(u) => u == 0,
            NumberModel::NegInt(i) => i == 0,
            NumberModel::Float(t) => t == "0e0"@ || t == "-0e0"@,
        },
        JsonModel::Str(s) => s.len() == 0,
        JsonModel::Array(items) => items.len() == 0,
        JsonModel::Object(members) => members.len() == 0,
    }
}

/// Python truthiness: `None`, `False`, zero, and empty strings, lists and dicts are false.
pub fn is_falsy(v: &JsonValue) -> (r: bool)
    ensures
        r == falsy(model_of(*v)),
{
    match v {
        JsonValue::Null => true,
        JsonValue::Bool(b) => !*b,
        JsonValue::Number(n) => match n {
            JsonNumber::PosInt(u) => *u == 0,
            JsonNumber::NegInt(i) => *i == 0,
            JsonNumber::Float(t) => {
                let chars = chars_of(t.as_str());
                let zero = chars_of("0e0");
                let neg_zero = chars_of("-0e0");
                same_chars(&chars, &zero) || same_chars(&chars, &neg_zero)
            },
        },
        JsonValue::String(s) => s.as_str().is_empty(),
        JsonValue::Array(items) => items.len() == 0,
        JsonValue::Object(members) => members.len() == 0,
    }
}


/// The value of the first member of `m` with key `k`, or `Null`.
pub open spec fn member_value(m: Seq<(Seq<char>, JsonModel)>, k: Seq<char>) -> JsonModel {
    let i = key_pos(m, k);
    if i < m.len() {
        m[i as int].1
    } else {
        JsonModel::Null
    }
}

/// Following the property path `props` down from `cur`: each step looks the
/// property up in an object; a missing property, a null value or a
/// non-object ends the walk at `Null`.
pub open spec fn walk(cur: JsonModel, props: Seq<Seq<char>>) -> JsonModel
    decreases props.len(),
{
    if props.len() == 0 {
        cur
    } else {
        let next = match cur {
            JsonModel::Object(m) => member_value(m, props[0]),
            _ => JsonModel::Null,
        };
        if next is Null {
            JsonModel::Null
        } else {
            walk(next, props.skip(1))
        }
    }
}

/// The records a value stands for: an array's elements, nothing for `Null`,
/// the value itself otherwise.
pub open spec fn entries_of(v: JsonModel) -> Seq<JsonModel> {
    match v {
        JsonModel::Array(items) => items,
        JsonModel::Null => Seq::empty(),
        _ => seq![v],
    }
}

/// The records of a parsed line: the property path is followed only when it
/// is not empty and the parsed value is an object.
pub open spec fn extract_spec(parsed: JsonModel, props: Seq<Seq<char>>) -> Seq<JsonModel> {
    let cur = if props.len() > 0 && parsed is Object {
        walk(parsed, props)
    } else {
        parsed
    };
    entries_of(cur)
}

/// Follows the property path `log_properties` into `parsed` (only when it
/// starts at an object) and returns the records found there.
pub fn extract_log_entries(parsed: JsonValue, log_properties: &[String]) -> (r: Vec<JsonValue>)
    ensures
        items_model(r@) == extract_spec(model_of(parsed), strings_view(log_properties@)),
{
    let ghost props = strings_view(log_properties@);
    let ghost start = model_of(parsed);
    let mut current = parsed;
    let walking = log_properties.len() > 0 && match &current {
        JsonValue::Object(_) => true,
        _ => false,
    };
    if walking {
        let mut i: usize = 0;
        let mut at_null = false;
        assert(props.skip(0) == props);
        while i < log_properties.len() && !at_null
            invariant
                i <= log_properties@.len(),
                props == strings_view(log_properties@),
                walk(start, props) == walk(model_of(current), props.skip(i as int)),
                at_null ==> model_of(current) == JsonModel::Null,
            decreases log_properties@.len() - i,
        {
            let ghost cur_model = model_of(current);
            let ghost ps = props.skip(i as int);
            assert(ps[0] == log_properties@[i as int]@);
            let next = match current {
                JsonValue::Object(mut members) => {
                    let pos = find_key(&members, &log_properties[i]);
                    if pos < members.len() {
                        let (_, v) = members.remove(pos);
                        v
                    } else {
                        JsonValue::Null
                    }
                },
                _ => JsonValue::Null,
            };
            assert(ps.skip(1) == props.skip(i + 1));
            at_null = match &next {
                JsonValue::Null => true,
                _ => false,
            };
            current = next;
            i += 1;
        }
        proof {
            if at_null {
                let rest = props.skip(i as int);
                if rest.len() > 0 {
                    assert(walk(JsonModel::Null, rest) == JsonModel::Null);
                }
            } else {
                assert(props.skip(i as int).len() == 0);
            }
        }
    }
    match current {
        JsonValue::Array(items) => items,
        JsonValue::Null => {
            let v: Vec<JsonValue> = Vec::new();
            assert(items_model(v@) =~= Seq::<JsonModel>::empty());
            v
        },
        other => {
            let mut v: Vec<JsonValue> = Vec::new();
            v.push(other);
            assert(items_model(v@) =~= seq![model_of(other)]);
            v
        },
    }
}

} // verus!
