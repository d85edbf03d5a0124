//! Printing match records: the plain `key: line` form, the JSON-lines form,
//! and the forms Python prints for Yara matches.

use vstd::prelude::*;
use crate::json::{floats_well_formed, member_floats_well_formed, members_floats_well_formed, model_of, JsonModel, JsonValue};
use crate::pyjson::{
    dumps_members, dumps_spec, law_dumps_printable, member_text, printable_ascii, repr_spec, write_json_string, write_repr, write_value,
};
use crate::text::push_char;

verus! {

/// One thing to print.
#[derive(Debug, PartialEq)]
pub enum Record {
    /// A line (or a parsed log record) that matched a query.
    Match { key_name: String, query: String, line: JsonValue },
    /// A Yara rule that matched an object, with the identifiers of its patterns that matched.
    Yara { key_name: String, match_rule: String, match_strings: Vec<String> },
}

/// The object that JSON output prints for a match: `key_name` (unless
/// hidden), `query` and `line`, in that order.
pub open spec fn match_object(key: Seq<char>, query: Seq<char>, line: JsonModel, hide: bool) -> JsonModel {
    if hide {
        JsonModel::Object(seq![("query"@, JsonModel::Str(query)), ("line"@, line)])
    } else {
        JsonModel::Object(seq![("key_name"@, JsonModel::Str(key)), ("query"@, JsonModel::Str(query)), ("line"@, line)])
    }
}

/// What is printed for a match: with JSON output the object as one JSON
/// line; otherwise the line (a string as it is, another value by `repr()`),
/// after `key: ` unless file names are hidden.
pub open spec fn match_text(key: Seq<char>, query: Seq<char>, line: JsonModel, hide: bool, json: bool) -> Seq<char> {
    if json {
        dumps_spec(match_object(key, query, line, hide)) + seq!['\n']
    } else {
        let disp = match line {
            JsonModel::Str(s) => s,
            _ => repr_spec(line),
        };
        if hide {
            disp + seq!['\n']
        } else {
            key + ": "@ + disp + seq!['\n']
        }
    }
}

/// The members of `ss` separated by `sep`.
pub open spec fn join(ss: Seq<Seq<char>>, sep: Seq<char>) -> Seq<char>
    decreases ss.len(),
{
    if ss.len() == 0 {
        Seq::empty()
    } else if ss.len() == 1 {
        ss[0]
    } else {
        join(ss.drop_last(), sep) + sep + ss.last()
    }
}

/// What is printed for a Yara match: the pattern list as `[$a, $b]`; with
/// JSON output a Python dict literal, otherwise `rule: [..]` after `key: `
/// unless file names are hidden.
pub open spec fn yara_text(key: Seq<char>, rule: Seq<char>, strings: Seq<Seq<char>>, hide: bool, json: bool) -> Seq<char> {
    let disp = seq!['['] + join(strings, ", "@) + seq![']'];
    if json {
        let head = if hide {
            Seq::empty()
        } else {
            "'key_name': '"@ + key + "', "@
        };
        seq!['{'] + head + "'match_rule': '"@ + rule + "', 'match_strings': "@ + disp + seq!['}', '\n']
    } else {
        let line = rule + ": "@ + disp;
        if hide {
            line + seq!['\n']
        } else {
            key + ": "@ + line + seq!['\n']
        }
    }
}

pub open spec fn record_text(rec: Record, hide: bool, json: bool) -> Seq<char> {
    match rec {
        Record::Match { key_name, query, line } => match_text(key_name@, query@, model_of(line), hide, json),
        Record::Yara { key_name, match_rule, match_strings } => yara_text(
            key_name@,
            match_rule@,
            match_strings@.map_values(|s: String| s@),
            hide,
            json,
        ),
    }
}

/// `json.dumps` of the match object, spelled out member by member.
proof fn lemma_match_object_text(key: Seq<char>, query: Seq<char>, line: JsonModel, hide: bool)
    ensures
        dumps_spec(match_object(key, query, line, hide)) == seq!['{'] + (if hide {
            Seq::<char>::empty()
        } else {
            member_text(("key_name"@, JsonModel::Str(key))) + ", "@
        }) + (member_text(("query"@, JsonModel::Str(query))) + ", "@) + member_text(("line"@, line)) + seq!['}'],
{
    let q = ("query"@, JsonModel::Str(query));
    let l = ("line"@, line);
    let k = ("key_name"@, JsonModel::Str(key));
    assert(seq![q, l].drop_last() == seq![q]);
    assert(seq![k, q].drop_last() == seq![k]);
    assert(seq![k, q, l].drop_last() == seq![k, q]);
    let mq = member_text(q);
    let ml = member_text(l);
    let mk = member_text(k);
    assert(dumps_members(seq![q]) == mq);
    assert(dumps_members(seq![k]) == mk);
    assert(dumps_members(seq![q, l]) == mq + ", "@ + ml);
    assert(dumps_members(seq![k, q]) == mk + ", "@ + mq);
    assert(dumps_members(seq![k, q, l]) == mk + ", "@ + mq + ", "@ + ml);
    if hide {
        assert(dumps_spec(match_object(key, query, line, hide)) == seq!['{'] + dumps_members(seq![q, l]) + seq!['}']);
        assert(seq!['{'] + (mq + ", "@ + ml) + seq!['}'] =~= seq!['{'] + Seq::<char>::empty() + (mq + ", "@) + ml + seq!['}']);
    } else {
        assert(dumps_spec(match_object(key, query, line, hide)) == seq!['{'] + dumps_members(seq![k, q, l]) + seq!['}']);
        assert(seq!['{'] + (mk + ", "@ + mq + ", "@ + ml) + seq!['}'] =~= seq!['{'] + (mk + ", "@) + (mq + ", "@) + ml + seq!['}']);
    }
}

fn write_match_json(out: &mut String, key_name: &String, query: &String, line: &JsonValue, hide: bool)
    ensures
        final(out)@ == old(out)@ + dumps_spec(match_object(key_name@, query@, model_of(*line), hide)) + seq!['\n'],
        floats_well_formed(model_of(*line)),
{
    let ghost s0 = out@;
    push_char(out, '{');
    if !hide {
        write_json_string(out, "key_name");
        out.append(": ");
        write_json_string(out, key_name.as_str());
        out.append(", ");
    }
    let ghost s1 = out@;
    write_json_string(out, "query");
    out.append(": ");
    write_json_string(out, query.as_str());
    out.append(", ");
    let ghost s2 = out@;
    write_json_string(out, "line");
    out.append(": ");
    write_value(out, line);
    let ghost s3 = out@;
    push_char(out, '}');
    push_char(out, '\n');
    proof {
        lemma_match_object_text(key_name@, query@, model_of(*line), hide);
        let mk = member_text(("key_name"@, JsonModel::Str(key_name@)));
        let mq = member_text(("query"@, JsonModel::Str(query@)));
        let ml = member_text(("line"@, model_of(*line)));
        let head: Seq<char> = if hide {
            Seq::<char>::empty()
        } else {
            mk + ", "@
        };
        assert(s1 =~= s0 + seq!['{'] + head);
        assert(s2 =~= s1 + (mq + ", "@));
        assert(s3 =~= s2 + ml);
        assert(out@ =~= s0 + (seq!['{'] + head + (mq + ", "@) + ml + seq!['}']) + seq!['\n']);
    }
}

pub(crate) fn write_match(out: &mut String, key_name: &String, query: &String, line: &JsonValue, hide: bool, json: bool)
    ensures
        final(out)@ == old(out)@ + match_text(key_name@, query@, model_of(*line), hide, json),
        json ==> floats_well_formed(model_of(*line)),
{
    if json {
        write_match_json(out, key_name, query, line, hide);
        assert(final(out)@ =~= old(out)@ + match_text(key_name@, query@, model_of(*line), hide, json));
    } else {
        let ghost s0 = out@;
        if !hide {
            out.append(key_name.as_str());
            out.append(": ");
        }
        match line {
            JsonValue::String(s) => {
                out.append(s.as_str());
            },
            _ => {
                write_repr(out, line);
            },
        }
        push_char(out, '\n');
        proof {
            let disp = match model_of(*line) {
                JsonModel::Str(s) => s,
                _ => repr_spec(model_of(*line)),
            };
            if hide {
                assert(out@ =~= s0 + (disp + seq!['\n']));
            } else {
                assert(out@ =~= s0 + (key_name@ + ": "@ + disp + seq!['\n']));
            }
        }
    }
}

fn write_yara(out: &mut String, key_name: &String, match_rule: &String, match_strings: &Vec<String>, hide: bool, json: bool)
    ensures
        final(out)@ == old(out)@ + yara_text(key_name@, match_rule@, match_strings@.map_values(|s: String| s@), hide, json),
{
    let ghost ss = match_strings@.map_values(|s: String| s@);
    let mut disp = String::new();
    push_char(&mut disp, '[');
    for i in 0..match_strings.len()
        invariant
            ss == match_strings@.map_values(|s: String| s@),
            disp@ == seq!['['] + join(ss.take(i as int), ", "@),
    {
        if i > 0 {
            disp.append(", ");
        }
        disp.append(match_strings[i].as_str());
        proof {
            let t = ss.take(i + 1);
            assert(t.drop_last() == ss.take(i as int));
            assert(t.last() == ss[i as int]);
        }
    }
    assert(ss.take(match_strings@.len() as int) == ss);
    push_char(&mut disp, ']');
    if json {
        push_char(out, '{');
        if !hide {
            out.append("'key_name': '");
            out.append(key_name.as_str());
            out.append("', ");
        }
        out.append("'match_rule': '");
        out.append(match_rule.as_str());
        out.append("', 'match_strings': ");
        out.append(disp.as_str());
        push_char(out, '}');
        push_char(out, '\n');
    } else {
        if !hide {
            out.append(key_name.as_str());
            out.append(": ");
        }
        out.append(match_rule.as_str());
        out.append(": ");
        out.append(disp.as_str());
        push_char(out, '\n');
    }
}

/// Prints one record as Python's `print_match` does; with JSON output a
/// match is one line: printable ASCII, then `'\n'`.
pub fn print_match(rec: &Record, hide_filenames: bool, json_output: bool, out: &mut String)
    ensures
        final(out)@ == old(out)@ + record_text(*rec, hide_filenames, json_output),
        json_output && rec is Match ==> ({
            let t = record_text(*rec, hide_filenames, json_output);
            &&& t.len() > 0
            &&& t.last() == '\n'
            &&& printable_ascii(t.drop_last())
        }),
{
    match rec {
        Record::Match { key_name, query, line } => {
            write_match(out, key_name, query, line, hide_filenames, json_output);
            proof {
                if json_output {
                    law_json_match_is_one_line(key_name@, query@, model_of(*line), hide_filenames);
                }
            }
        },
        Record::Yara { key_name, match_rule, match_strings } => write_yara(
            out,
            key_name,
            match_rule,
            match_strings,
            hide_filenames,
            json_output,
        ),
    }
}

/// With JSON output every match is printed as exactly one line: printable
/// ASCII, then `'\n'` (for every line value whose floats are held in the
/// `{:e}` shape, which the JSON reader always delivers).
pub proof fn law_json_match_is_one_line(key: Seq<char>, query: Seq<char>, line: JsonModel, hide: bool)
    requires
        floats_well_formed(line),
    ensures
        ({
            let t = match_text(key, query, line, hide, true);
            &&& t.len() > 0
            &&& t.last() == '\n'
            &&& printable_ascii(t.drop_last())
        }),
{
    let o = match_object(key, query, line, hide);
    let k = ("key_name"@, JsonModel::Str(key));
    let q = ("query"@, JsonModel::Str(query));
    let l = ("line"@, line);
    assert(member_floats_well_formed(k));
    assert(member_floats_well_formed(q));
    assert(member_floats_well_formed(l));
    assert(seq![q, l].drop_last() == seq![q]);
    assert(seq![k, q].drop_last() == seq![k]);
    assert(seq![k, q, l].drop_last() == seq![k, q]);
    assert(seq![q].drop_last() == Seq::<(Seq<char>, JsonModel)>::empty());
    assert(seq![k].drop_last() == Seq::<(Seq<char>, JsonModel)>::empty());
    assert(members_floats_well_formed(Seq::<(Seq<char>, JsonModel)>::empty()));
    assert(seq![q].last() == q);
    assert(seq![k].last() == k);
    assert(seq![q, l].last() == l);
    assert(seq![k, q].last() == q);
    assert(seq![k, q, l].last() == l);
    assert(members_floats_well_formed(seq![q]));
    assert(members_floats_well_formed(seq![k]));
    assert(members_floats_well_formed(seq![q, l]));
    assert(members_floats_well_formed(seq![k, q]));
    assert(members_floats_well_formed(seq![k, q, l]));
    assert(floats_well_formed(o));
    law_dumps_printable(o);
    let t = match_text(key, query, line, hide, true);
    assert(t.drop_last() == dumps_spec(o));
}

/// Hiding file names only drops the `key: ` prefix of a plain match line.
pub proof fn law_hide_drops_only_the_key(key: Seq<char>, query: Seq<char>, line: JsonModel)
    ensures
        match_text(key, query, line, false, false) == key + ": "@ + match_text(key, query, line, true, false),
{
    let disp = match line {
        JsonModel::Str(s) => s,
        _ => repr_spec(line),
    };
    assert(key + ": "@ + disp + seq!['\n'] =~= key + ": "@ + (disp + seq!['\n']));
}

} // verus!
