//! The command-line surface: the option values, the multi-character short
//! options that are rewritten into their long forms, and list splitting.

use vstd::prelude::*;
use crate::output::join;
use crate::text::{
    chars_of, contains_char, has_prefix, is_ws, leading_ws, lemma_piece_len, piece_len, pieces, same_chars, starts_with, string_from_range,
    trailing_ws, trim, trim_bounds,
};

verus! {

/// The options of one invocation.
pub struct Cli {
    /// AWS S3 bucket to search.
    pub bucket: Option<String>,
    /// Azure account name to search.
    pub account_name: Option<String>,
    /// Azure container name to search.
    pub container_name: Option<String>,
    /// Google Cloud bucket to search.
    pub google_bucket: Option<String>,
    /// Comma-separated list of regex patterns to search.
    pub query: Option<String>,
    /// File containing queries (one per line).
    pub file: Option<String>,
    /// File containing Yara rules.
    pub yara: Option<String>,
    /// Filter objects by prefix.
    pub prefix: String,
    /// Filter objects whose names contain a keyword.
    pub filename: Option<String>,
    /// Filter objects modified after this date.
    pub start_date: Option<String>,
    /// Filter objects modified before this date.
    pub end_date: Option<String>,
    /// Max file size in bytes.
    pub file_size: i64,
    /// AWS profile to use.
    pub profile: Option<String>,
    /// Enable debug logging.
    pub debug: bool,
    /// Hide filenames in output.
    pub hide_filenames: bool,
    /// Pre-defined log type (cloudtrail, azure, waf).
    pub log_type: Option<String>,
    /// Custom log format (json, jsonl, csv).
    pub log_format: Option<String>,
    /// Comma-separated list of log properties to extract.
    pub log_properties: Option<String>,
    /// Output results in JSON format.
    pub json_output: bool,
    /// Convert dates to ISO format.
    pub convert_date: bool,
    /// Use the original key name instead of a temporary name.
    pub use_og_name: bool,
}

/// The short options of more than one character, with the long option each stands for.
pub open spec fn short_forms() -> Seq<(Seq<char>, Seq<char>)> {
    seq![
        ("-an"@, "--account-name"@),
        ("-cn"@, "--container-name"@),
        ("-gb"@, "--google-bucket"@),
        ("-fs"@, "--file_size"@),
        ("-pr"@, "--profile"@),
        ("-hf"@, "--hide_filenames"@),
        ("-lt"@, "--log_type"@),
        ("-lf"@, "--log_format"@),
        ("-lp"@, "--log_properties"@),
        ("-jo"@, "--json_output"@),
        ("-cd"@, "--convert_date"@),
        ("-og"@, "--use_og_name"@),
    ]
}

fn short_map() -> (r: Vec<(&'static str, &'static str)>)
    ensures
        r@.len() == short_forms().len(),
        forall|i: int| 0 <= i < r@.len() ==> (#[trigger] r@[i].0@, r@[i].1@) == short_forms()[i],
{
    let r = vec![
        ("-an", "--account-name"),
        ("-cn", "--container-name"),
        ("-gb", "--google-bucket"),
        ("-fs", "--file_size"),
        ("-pr", "--profile"),
        ("-hf", "--hide_filenames"),
        ("-lt", "--log_type"),
        ("-lf", "--log_format"),
        ("-lp", "--log_properties"),
        ("-jo", "--json_output"),
        ("-cd", "--convert_date"),
        ("-og", "--use_og_name"),
    ];
    assert(r@.len() == 12);
    r
}

/// The argument `arg` after rewriting with the pairs `m`, the first pair that
/// applies deciding: `-xx` becomes its long form, `-xx=v` becomes `--long=v`.
pub open spec fn rewrite_arg(arg: Seq<char>, m: Seq<(Seq<char>, Seq<char>)>) -> Seq<char>
    decreases m.len(),
{
    if m.len() == 0 {
        arg
    } else if arg == m[0].0 {
        m[0].1
    } else if has_prefix(arg, m[0].0.push('=')) {
        m[0].1.push('=') + arg.skip(m[0].0.len() as int + 1)
    } else {
        rewrite_arg(arg, m.skip(1))
    }
}

/// The argument as the parser must see it: a multi-character short option
/// (alone or as `-xx=value`) becomes its long option; anything else is kept.
pub open spec fn normalized_arg(arg: Seq<char>) -> Seq<char> {
    rewrite_arg(arg, short_forms())
}

fn normalize_arg(arg: &String) -> (r: String)
    ensures
        r@ == normalized_arg(arg@),
{
    let map = short_map();
    let chars = chars_of(arg.as_str());
    let mut i: usize = 0;
    assert(short_forms().skip(0) == short_forms());
    while i < map.len()
        invariant
            map@.len() == short_forms().len(),
            forall|k: int| 0 <= k < map@.len() ==> (#[trigger] map@[k].0@, map@[k].1@) == short_forms()[k],
            i <= map@.len(),
            chars@ == arg@,
            normalized_arg(arg@) == rewrite_arg(arg@, short_forms().skip(i as int)),
        decreases map@.len() - i,
    {
        let (short, long) = map[i];
        let ghost m = short_forms().skip(i as int);
        assert(m[0] == short_forms()[i as int]);
        assert((map@[i as int].0@, map@[i as int].1@) == short_forms()[i as int]);
        let short_chars = chars_of(short);
        if same_chars(&chars, &short_chars) {
            return String::from_str(long);
        }
        let mut with_eq = short_chars;
        with_eq.push('=');
        if starts_with(&chars, &with_eq) {
            let mut out = String::from_str(long);
            out.append("=");
            let rest = string_from_range(&chars, with_eq.len(), chars.len());
            out.append(rest.as_str());
            proof {
                reveal_strlit("=");
            }
            assert(out@ == m[0].1.push('=') + arg@.skip(m[0].0.len() as int + 1));
            return out;
        }
        assert(m.skip(1) == short_forms().skip(i + 1));
        i += 1;
    }
    assert(short_forms().skip(i as int).len() == 0);
    arg.clone()
}

/// Rewrites the multi-character short options (`-an`, `-lt`, `-jo`, ...), which
/// the option parser does not know, into their long forms; other arguments pass
/// unchanged.
pub fn normalize_args(args: Vec<String>) -> (r: Vec<String>)
    ensures
        r@.len() == args@.len(),
        forall|i: int| 0 <= i < args@.len() ==> (#[trigger] r@[i])@ == normalized_arg(args@[i]@),
{
    let mut out: Vec<String> = Vec::new();
    for i in 0..args.len()
        invariant
            out@.len() == i,
            forall|k: int| 0 <= k < i ==> (#[trigger] out@[k])@ == normalized_arg(args@[k]@),
    {
        out.push(normalize_arg(&args[i]));
    }
    out
}

/// The trimmed members of `ps` that are not empty, in order.
pub open spec fn nonempty_trimmed(ps: Seq<Seq<char>>) -> Seq<Seq<char>>
    decreases ps.len(),
{
    if ps.len() == 0 {
        Seq::empty()
    } else {
        let prev = nonempty_trimmed(ps.drop_last());
        let t = trim(ps.last());
        if t.len() > 0 {
            prev.push(t)
        } else {
            prev
        }
    }
}

/// The pieces of `s` split at `sep`, trimmed, empty ones dropped.
pub open spec fn split_trimmed(s: Seq<char>, sep: char) -> Seq<Seq<char>> {
    nonempty_trimmed(pieces(s, sep))
}

proof fn lemma_nonempty_trimmed_append(a: Seq<Seq<char>>, b: Seq<Seq<char>>)
    ensures
        nonempty_trimmed(a + b) == nonempty_trimmed(a) + nonempty_trimmed(b),
    decreases b.len(),
{
    if b.len() == 0 {
        assert(a + b == a);
    } else {
        assert((a + b).drop_last() == a + b.drop_last());
        lemma_nonempty_trimmed_append(a, b.drop_last());
    }
}

fn split_trim_nonempty(s: &str, sep: char) -> (r: Vec<String>)
    ensures
        r@.map_values(|x: String| x@) == split_trimmed(s@, sep),
{
    let chars = chars_of(s);
    let n = chars.len();
    let mut out: Vec<String> = Vec::new();
    let mut start: usize = 0;
    let ghost mut done: Seq<Seq<char>> = Seq::empty();
    assert(chars@.skip(0) == chars@);
    loop
        invariant
            n == chars@.len(),
            chars@ == s@,
            start <= n,
            pieces(chars@, sep) == done + pieces(chars@.skip(start as int), sep),
            out@.map_values(|x: String| x@) == nonempty_trimmed(done),
        decreases n - start,
    {
        let ghost rest = chars@.skip(start as int);
        let mut j = start;
        while j < n && chars[j] != sep
            invariant
                n == chars@.len(),
                start <= j <= n,
                forall|t: int| start <= t < j ==> chars@[t] != sep,
            decreases n - j,
        {
            j += 1;
        }
        proof {
            lemma_piece_len(rest, sep, j - start);
        }
        let (lo, hi) = trim_bounds(&chars, start, j);
        let ghost piece = chars@.subrange(start as int, j as int);
        assert(rest.take(j - start) == piece);
        proof {
            lemma_nonempty_trimmed_append(done, seq![piece]);
            assert(seq![piece].drop_last() == Seq::<Seq<char>>::empty());
            assert(seq![piece].last() == piece);
            assert(nonempty_trimmed(Seq::<Seq<char>>::empty()) == Seq::<Seq<char>>::empty());
            assert(trim(piece) == chars@.subrange(lo as int, hi as int));
        }
        let ghost before = out@.map_values(|x: String| x@);
        if lo < hi {
            let t = string_from_range(&chars, lo, hi);
            assert(nonempty_trimmed(seq![piece]) == seq![t@]);
            assert(out@.push(t).map_values(|x: String| x@) == before.push(t@));
            out.push(t);
            assert(out@.map_values(|x: String| x@) == before + nonempty_trimmed(seq![piece]));
        } else {
            assert(nonempty_trimmed(seq![piece]) == Seq::<Seq<char>>::empty());
            assert(before + nonempty_trimmed(seq![piece]) == before);
        }
        assert(out@.map_values(|x: String| x@) == nonempty_trimmed(done + seq![piece]));
        if j == n {
            assert(rest == piece);
            proof { done = done + seq![piece]; }
            assert(pieces(chars@, sep) == done);
            return out;
        }
        assert(rest.skip(j - start + 1) == chars@.skip(j + 1));
        proof {
            assert(done + pieces(rest, sep) == (done + seq![piece]) + pieces(chars@.skip(j + 1), sep));
            done = done + seq![piece];
        }
        start = j + 1;
    }
}

/// The patterns of a comma-separated list: split at `,`, trimmed, empty ones dropped.
pub fn parse_comma_list(s: &str) -> (r: Vec<String>)
    ensures
        r@.map_values(|x: String| x@) == split_trimmed(s@, ','),
{
    split_trim_nonempty(s, ',')
}

/// The queries of a query file's contents: one per line, trimmed, blank lines dropped.
/// (Trimming also removes the `'\r'` that `str::lines` would strip from a `"\r\n"` ending.)
pub fn parse_query_lines(content: &str) -> (r: Vec<String>)
    ensures
        r@.map_values(|x: String| x@) == split_trimmed(content@, '\n'),
{
    split_trim_nonempty(content, '\n')
}

proof fn lemma_short_forms_shape()
    ensures
        forall|i: int| 0 <= i < short_forms().len() ==> {
            let (short, long) = #[trigger] short_forms()[i];
            &&& short.len() == 3
            &&& short[0] == '-'
            &&& short[1] != '-'
            &&& long.len() >= 2
            &&& long[0] == '-'
            &&& long[1] == '-'
        },
{
    reveal_strlit("-an");
    reveal_strlit("-cn");
    reveal_strlit("-gb");
    reveal_strlit("-fs");
    reveal_strlit("-pr");
    reveal_strlit("-hf");
    reveal_strlit("-lt");
    reveal_strlit("-lf");
    reveal_strlit("-lp");
    reveal_strlit("-jo");
    reveal_strlit("-cd");
    reveal_strlit("-og");
    reveal_strlit("--account-name");
    reveal_strlit("--container-name");
    reveal_strlit("--google-bucket");
    reveal_strlit("--file_size");
    reveal_strlit("--profile");
    reveal_strlit("--hide_filenames");
    reveal_strlit("--log_type");
    reveal_strlit("--log_format");
    reveal_strlit("--log_properties");
    reveal_strlit("--json_output");
    reveal_strlit("--convert_date");
    reveal_strlit("--use_og_name");
}

/// An argument whose second character is `-` is no rewrite target.
proof fn lemma_rewrite_keeps_long(arg: Seq<char>, m: Seq<(Seq<char>, Seq<char>)>)
    requires
        arg.len() >= 2,
        arg[1] == '-',
        forall|i: int| 0 <= i < m.len() ==> (#[trigger] m[i]).0.len() >= 2 && m[i].0[1] != '-',
    ensures
        rewrite_arg(arg, m) == arg,
    decreases m.len(),
{
    if m.len() > 0 {
        let short = m[0].0;
        assert(arg[1] != short[1]);
        assert(arg != short);
        let p = short.push('=');
        if has_prefix(arg, p) {
            assert(arg.take(p.len() as int)[1] == arg[1]);
            assert(p[1] == short[1]);
        }
        assert forall|i: int| 0 <= i < m.skip(1).len() implies (#[trigger] m.skip(1)[i]).0.len() >= 2 && m.skip(1)[i].0[1] != '-' by {
            assert(m.skip(1)[i] == m[i + 1]);
        }
        lemma_rewrite_keeps_long(arg, m.skip(1));
    }
}

/// A rewritten argument starts like a long option.
proof fn lemma_rewrite_gives_long(arg: Seq<char>, m: Seq<(Seq<char>, Seq<char>)>)
    requires
        forall|i: int| 0 <= i < m.len() ==> (#[trigger] m[i]).1.len() >= 2 && m[i].1[1] == '-',
    ensures
        rewrite_arg(arg, m) == arg || (rewrite_arg(arg, m).len() >= 2 && rewrite_arg(arg, m)[1] == '-'),
    decreases m.len(),
{
    if m.len() > 0 {
        let long = m[0].1;
        if arg == m[0].0 {
        } else if has_prefix(arg, m[0].0.push('=')) {
            let r = long.push('=') + arg.skip(m[0].0.len() as int + 1);
            assert(r[1] == long[1]);
        } else {
            assert forall|i: int| 0 <= i < m.skip(1).len() implies (#[trigger] m.skip(1)[i]).1.len() >= 2 && m.skip(1)[i].1[1] == '-' by {
                assert(m.skip(1)[i] == m[i + 1]);
            }
            lemma_rewrite_gives_long(arg, m.skip(1));
        }
    }
}

/// Rewriting the short options is idempotent: an argument already rewritten
/// is left alone.
pub proof fn law_normalize_idempotent(arg: Seq<char>)
    ensures
        normalized_arg(normalized_arg(arg)) == normalized_arg(arg),
{
    lemma_short_forms_shape();
    let m = short_forms();
    assert forall|i: int| 0 <= i < m.len() implies (#[trigger] m[i]).1.len() >= 2 && m[i].1[1] == '-' by {}
    assert forall|i: int| 0 <= i < m.len() implies (#[trigger] m[i]).0.len() >= 2 && m[i].0[1] != '-' by {}
    lemma_rewrite_gives_long(arg, m);
    let r = normalized_arg(arg);
    if r != arg {
        lemma_rewrite_keeps_long(r, m);
    }
}

proof fn lemma_piece_len_props(s: Seq<char>, sep: char)
    ensures
        piece_len(s, sep) <= s.len(),
        forall|j: int| 0 <= j < piece_len(s, sep) ==> s[j] != sep,
        piece_len(s, sep) < s.len() ==> s[piece_len(s, sep) as int] == sep,
    decreases s.len(),
{
    if s.len() > 0 && s[0] != sep {
        lemma_piece_len_props(s.skip(1), sep);
        assert forall|j: int| 0 <= j < piece_len(s, sep) implies s[j] != sep by {
            if j > 0 {
                assert(s[j] == s.skip(1)[j - 1]);
            }
        }
    }
}

proof fn lemma_pieces_have_no_sep(s: Seq<char>, sep: char)
    ensures
        forall|i: int, j: int| 0 <= i < pieces(s, sep).len() && 0 <= j < pieces(s, sep)[i].len() ==> pieces(s, sep)[i][j] != sep,
    decreases s.len(),
{
    lemma_piece_len_props(s, sep);
    let k = piece_len(s, sep);
    if k < s.len() {
        let rest = s.skip(k as int + 1);
        lemma_pieces_have_no_sep(rest, sep);
        let ps = pieces(s, sep);
        assert(ps == seq![s.take(k as int)] + pieces(rest, sep));
        assert forall|i: int, j: int| 0 <= i < ps.len() && 0 <= j < ps[i].len() implies ps[i][j] != sep by {
            if i > 0 {
                assert(ps[i] == pieces(rest, sep)[i - 1]);
            } else {
                assert(ps[0] == s.take(k as int));
            }
        }
    }
}

proof fn lemma_leading_ws_props(s: Seq<char>)
    ensures
        leading_ws(s) <= s.len(),
        leading_ws(s) < s.len() ==> !is_ws(s[leading_ws(s) as int]),
    decreases s.len(),
{
    if s.len() > 0 && is_ws(s[0]) {
        lemma_leading_ws_props(s.skip(1));
    }
}

proof fn lemma_trailing_ws_props(s: Seq<char>)
    ensures
        trailing_ws(s) <= s.len(),
        trailing_ws(s) < s.len() ==> !is_ws(s[s.len() - trailing_ws(s) - 1]),
    decreases s.len(),
{
    if s.len() > 0 && is_ws(s.last()) {
        lemma_trailing_ws_props(s.drop_last());
    }
}

/// A trimmed piece lies inside the piece and, when not empty, starts and
/// ends with a character that is not whitespace.
proof fn lemma_trim_props(p: Seq<char>)
    ensures
        forall|j: int| 0 <= j < trim(p).len() ==> exists|k: int| 0 <= k < p.len() && #[trigger] trim(p)[j] == p[k],
        trim(p).len() > 0 ==> !is_ws(trim(p)[0]) && !is_ws(trim(p).last()),
{
    lemma_leading_ws_props(p);
    let lw = leading_ws(p) as int;
    let t = p.skip(lw);
    lemma_trailing_ws_props(t);
    let tw = trailing_ws(t) as int;
    assert(trim(p) == t.take(t.len() - tw));
    assert forall|j: int| 0 <= j < trim(p).len() implies exists|k: int| 0 <= k < p.len() && #[trigger] trim(p)[j] == p[k] by {
        assert(trim(p)[j] == p[lw + j]);
    }
    if trim(p).len() > 0 {
        assert(trim(p)[0] == p[lw]);
        assert(trim(p).last() == t[t.len() - tw - 1]);
    }
}

proof fn lemma_nonempty_trimmed_items(ps: Seq<Seq<char>>)
    ensures
        forall|i: int| 0 <= i < nonempty_trimmed(ps).len() ==> nonempty_trimmed(ps)[i].len() > 0 && exists|j: int| 0 <= j < ps.len() && #[trigger] nonempty_trimmed(ps)[i] == trim(ps[j]),
    decreases ps.len(),
{
    if ps.len() > 0 {
        let prev = ps.drop_last();
        lemma_nonempty_trimmed_items(prev);
        let r = nonempty_trimmed(ps);
        assert forall|i: int| 0 <= i < r.len() implies r[i].len() > 0 && exists|j: int| 0 <= j < ps.len() && #[trigger] r[i] == trim(ps[j]) by {
            if i < nonempty_trimmed(prev).len() {
                assert(r[i] == nonempty_trimmed(prev)[i]);
                let j = choose|j: int| 0 <= j < prev.len() && #[trigger] nonempty_trimmed(prev)[i] == trim(prev[j]);
                assert(prev[j] == ps[j]);
            } else {
                assert(r[i] == trim(ps[ps.len() - 1]));
            }
        }
    }
}

/// Each item of a split list is non-empty, holds no separator, and neither
/// starts nor ends with whitespace.
pub proof fn law_split_trimmed_items(s: Seq<char>, sep: char)
    ensures
        forall|i: int| 0 <= i < split_trimmed(s, sep).len() ==> {
            let item = #[trigger] split_trimmed(s, sep)[i];
            &&& item.len() > 0
            &&& !contains_char(item, sep)
            &&& !is_ws(item[0])
            &&& !is_ws(item.last())
        },
{
    let ps = pieces(s, sep);
    lemma_pieces_have_no_sep(s, sep);
    lemma_nonempty_trimmed_items(ps);
    let r = split_trimmed(s, sep);
    assert forall|i: int| 0 <= i < r.len() implies {
        let item = #[trigger] r[i];
        &&& item.len() > 0
        &&& !contains_char(item, sep)
        &&& !is_ws(item[0])
        &&& !is_ws(item.last())
    } by {
        let j = choose|j: int| 0 <= j < ps.len() && #[trigger] nonempty_trimmed(ps)[i] == trim(ps[j]);
        lemma_trim_props(ps[j]);
        if contains_char(r[i], sep) {
            let x = choose|x: int| 0 <= x < r[i].len() && r[i][x] == sep;
            let k = choose|k: int| 0 <= k < ps[j].len() && #[trigger] trim(ps[j])[x] == ps[j][k];
            assert(ps[j][k] != sep);
        }
    }
}

/// With no `sep` in `x`, the pieces of `x + [sep] + y` are those of `x`, then those of `y`.
proof fn lemma_pieces_concat(x: Seq<char>, y: Seq<char>, sep: char)
    ensures
        pieces(x + seq![sep] + y, sep) == pieces(x, sep) + pieces(y, sep),
    decreases x.len(),
{
    lemma_piece_len_props(x, sep);
    let k = piece_len(x, sep) as int;
    let z = x + seq![sep] + y;
    assert(z[k] == sep);
    assert forall|j: int| 0 <= j < k implies z[j] != sep by {
        assert(z[j] == x[j]);
    }
    lemma_piece_len(z, sep, k);
    assert(z.take(k) == x.take(k));
    if k == x.len() {
        assert(z.skip(k + 1) == y);
        assert(x.take(k) == x);
    } else {
        let x2 = x.skip(k + 1);
        assert(z.skip(k + 1) == x2 + seq![sep] + y);
        lemma_pieces_concat(x2, y, sep);
    }
}

/// Joining items that hold no `sep` with `sep` and cutting at `sep` gives the items back.
proof fn lemma_pieces_join(items: Seq<Seq<char>>, sep: char)
    requires
        items.len() > 0,
        forall|i: int| 0 <= i < items.len() ==> !contains_char(#[trigger] items[i], sep),
    ensures
        pieces(join(items, seq![sep]), sep) == items,
    decreases items.len(),
{
    let last = items.last();
    assert(!contains_char(items[items.len() - 1], sep));
    assert forall|j: int| 0 <= j < last.len() implies last[j] != sep by {
        if last[j] == sep {
            assert(contains_char(last, sep));
        }
    }
    lemma_piece_len(last, sep, last.len() as int);
    assert(last.take(last.len() as int) == last);
    if items.len() == 1 {
        assert(pieces(last, sep) == seq![last]);
    } else {
        let init = items.drop_last();
        assert forall|i: int| 0 <= i < init.len() implies !contains_char(#[trigger] init[i], sep) by {
            assert(init[i] == items[i]);
        }
        lemma_pieces_join(init, sep);
        lemma_pieces_concat(join(init, seq![sep]), last, sep);
        assert(pieces(last, sep) == seq![last]);
        assert(init + seq![last] == items);
    }
}

proof fn lemma_trim_keeps_trimmed(x: Seq<char>)
    requires
        x.len() > 0,
        !is_ws(x[0]),
        !is_ws(x.last()),
    ensures
        trim(x) == x,
{
    assert(leading_ws(x) == 0);
    assert(x.skip(0) == x);
    assert(trailing_ws(x) == 0);
    assert(x.take(x.len() as int) == x);
}

proof fn lemma_nonempty_trimmed_keeps(items: Seq<Seq<char>>)
    requires
        forall|i: int| 0 <= i < items.len() ==> (#[trigger] items[i]).len() > 0 && !is_ws(items[i][0]) && !is_ws(items[i].last()),
    ensures
        nonempty_trimmed(items) == items,
    decreases items.len(),
{
    if items.len() > 0 {
        let init = items.drop_last();
        assert forall|i: int| 0 <= i < init.len() implies (#[trigger] init[i]).len() > 0 && !is_ws(init[i][0]) && !is_ws(init[i].last()) by {
            assert(init[i] == items[i]);
        }
        lemma_nonempty_trimmed_keeps(init);
        let last = items[items.len() - 1];
        lemma_trim_keeps_trimmed(last);
        assert(init.push(last) == items);
    }
}

/// A list of items, each non-empty, free of `,` and neither starting nor
/// ending with whitespace, survives joining with `,` and splitting again.
pub proof fn law_comma_list_round_trip(items: Seq<Seq<char>>)
    requires
        forall|i: int| 0 <= i < items.len() ==> {
            let item = #[trigger] items[i];
            &&& item.len() > 0
            &&& !contains_char(item, ',')
            &&& !is_ws(item[0])
            &&& !is_ws(item.last())
        },
    ensures
        split_trimmed(join(items, ","@), ',') == items,
{
    reveal_strlit(",");
    assert(","@ == seq![',']);
    if items.len() == 0 {
        assert(join(items, ","@).len() == 0);
        lemma_piece_len(join(items, ","@), ',', 0);
        let p = pieces(join(items, ","@), ',');
        assert(p == seq![Seq::<char>::empty()]);
        assert(p.drop_last() == Seq::<Seq<char>>::empty());
        assert(nonempty_trimmed(Seq::<Seq<char>>::empty()) == Seq::<Seq<char>>::empty());
        assert(trim(Seq::<char>::empty()).len() == 0);
        assert(nonempty_trimmed(p) == Seq::<Seq<char>>::empty());
        assert(items == Seq::<Seq<char>>::empty());
    } else {
        assert forall|i: int| 0 <= i < items.len() implies !contains_char(#[trigger] items[i], ',') by {}
        lemma_pieces_join(items, ',');
        assert forall|i: int| 0 <= i < items.len() implies (#[trigger] items[i]).len() > 0 && !is_ws(items[i][0]) && !is_ws(items[i].last()) by {}
        lemma_nonempty_trimmed_keeps(items);
        assert(join(items, ","@) == join(items, seq![',']));
        assert(pieces(join(items, ","@), ',') == items);
    }
}

/// Rewriting skips the pairs before `j` when none of them applies.
proof fn lemma_rewrite_skips(arg: Seq<char>, m: Seq<(Seq<char>, Seq<char>)>, j: int)
    requires
        0 <= j <= m.len(),
        forall|i: int| 0 <= i < j ==> arg != (#[trigger] m[i]).0 && !has_prefix(arg, m[i].0.push('=')),
    ensures
        rewrite_arg(arg, m) == rewrite_arg(arg, m.skip(j)),
    decreases j,
{
    if j > 0 {
        assert(m.skip(1).skip(j - 1) == m.skip(j));
        assert forall|i: int| 0 <= i < j - 1 implies arg != (#[trigger] m.skip(1)[i]).0 && !has_prefix(arg, m.skip(1)[i].0.push('=')) by {
            assert(m.skip(1)[i] == m[i + 1]);
        }
        assert(arg != m[0].0 && !has_prefix(arg, m[0].0.push('=')));
        lemma_rewrite_skips(arg, m.skip(1), j - 1);
    } else {
        assert(m.skip(0) == m);
    }
}

/// The short options of the table are all different.
proof fn lemma_short_forms_distinct()
    ensures
        forall|i: int, k: int| 0 <= i < k < short_forms().len() ==> #[trigger] short_forms()[i].0 != #[trigger] short_forms()[k].0,
{
    reveal_strlit("-an");
    reveal_strlit("-cn");
    reveal_strlit("-gb");
    reveal_strlit("-fs");
    reveal_strlit("-pr");
    reveal_strlit("-hf");
    reveal_strlit("-lt");
    reveal_strlit("-lf");
    reveal_strlit("-lp");
    reveal_strlit("-jo");
    reveal_strlit("-cd");
    reveal_strlit("-og");
    let m = short_forms();
    assert forall|i: int, k: int| 0 <= i < k < m.len() implies #[trigger] m[i].0 != #[trigger] m[k].0 by {
        assert(m[i].0[1] != m[k].0[1] || m[i].0[2] != m[k].0[2]);
    }
}

/// The short option at `j` of the table, alone or with `=value`, is rewritten
/// by its own pair: no earlier short option is it or a prefix of it.
proof fn lemma_short_form_at(j: int)
    requires
        0 <= j < short_forms().len(),
    ensures
        normalized_arg(short_forms()[j].0) == short_forms()[j].1,
        forall|v: Seq<char>| #[trigger] normalized_arg(short_forms()[j].0.push('=') + v) == short_forms()[j].1.push('=') + v,
{
    lemma_short_forms_shape();
    let m = short_forms();
    lemma_short_forms_distinct();
    let s = m[j].0;
    assert forall|i: int| 0 <= i < j implies s != (#[trigger] m[i]).0 && !has_prefix(s, m[i].0.push('=')) by {}
    lemma_rewrite_skips(s, m, j);
    assert(m.skip(j)[0] == m[j]);
    assert forall|v: Seq<char>| #[trigger] normalized_arg(s.push('=') + v) == m[j].1.push('=') + v by {
        let arg = s.push('=') + v;
        assert forall|i: int| 0 <= i < j implies arg != (#[trigger] m[i]).0 && !has_prefix(arg, m[i].0.push('=')) by {
            assert(arg.len() >= 4);
            if has_prefix(arg, m[i].0.push('=')) {
                assert(arg.take(4) == m[i].0.push('='));
                assert(arg.take(4)[1] == s[1]);
                assert(arg.take(4)[2] == s[2]);
                assert(m[i].0.push('=')[1] == m[i].0[1]);
                assert(m[i].0.push('=')[2] == m[i].0[2]);
                assert(s =~= m[i].0);
            }
        }
        lemma_rewrite_skips(arg, m, j);
        assert(arg.take(4) == s.push('='));
        assert(arg.skip(4) == v);
    }
}

/// Each multi-character short option stands for its own long option, as the
/// option table declares them, alone or as `-xx=value`.
pub proof fn law_short_options_long_forms()
    ensures
        normalized_arg("-an"@) == "--account-name"@,
        normalized_arg("-cn"@) == "--container-name"@,
        normalized_arg("-gb"@) == "--google-bucket"@,
        normalized_arg("-fs"@) == "--file_size"@,
        normalized_arg("-pr"@) == "--profile"@,
        normalized_arg("-hf"@) == "--hide_filenames"@,
        normalized_arg("-lt"@) == "--log_type"@,
        normalized_arg("-lf"@) == "--log_format"@,
        normalized_arg("-lp"@) == "--log_properties"@,
        normalized_arg("-jo"@) == "--json_output"@,
        normalized_arg("-cd"@) == "--convert_date"@,
        normalized_arg("-og"@) == "--use_og_name"@,
        forall|v: Seq<char>| #[trigger] normalized_arg("-an="@ + v) == "--account-name="@ + v,
        forall|v: Seq<char>| #[trigger] normalized_arg("-cn="@ + v) == "--container-name="@ + v,
        forall|v: Seq<char>| #[trigger] normalized_arg("-gb="@ + v) == "--google-bucket="@ + v,
        forall|v: Seq<char>| #[trigger] normalized_arg("-fs="@ + v) == "--file_size="@ + v,
        forall|v: Seq<char>| #[trigger] normalized_arg("-pr="@ + v) == "--profile="@ + v,
        forall|v: Seq<char>| #[trigger] normalized_arg("-hf="@ + v) == "--hide_filenames="@ + v,
        forall|v: Seq<char>| #[trigger] normalized_arg("-lt="@ + v) == "--log_type="@ + v,
        forall|v: Seq<char>| #[trigger] normalized_arg("-lf="@ + v) == "--log_format="@ + v,
        forall|v: Seq<char>| #[trigger] normalized_arg("-lp="@ + v) == "--log_properties="@ + v,
        forall|v: Seq<char>| #[trigger] normalized_arg("-jo="@ + v) == "--json_output="@ + v,
        forall|v: Seq<char>| #[trigger] normalized_arg("-cd="@ + v) == "--convert_date="@ + v,
        forall|v: Seq<char>| #[trigger] normalized_arg("-og="@ + v) == "--use_og_name="@ + v,
{
    reveal_strlit("-an");
    reveal_strlit("--account-name");
    reveal_strlit("-an=");
    reveal_strlit("--account-name=");
    reveal_strlit("-cn");
    reveal_strlit("--container-name");
    reveal_strlit("-cn=");
    reveal_strlit("--container-name=");
    reveal_strlit("-gb");
    reveal_strlit("--google-bucket");
    reveal_strlit("-gb=");
    reveal_strlit("--google-bucket=");
    reveal_strlit("-fs");
    reveal_strlit("--file_size");
    reveal_strlit("-fs=");
    reveal_strlit("--file_size=");
    reveal_strlit("-pr");
    reveal_strlit("--profile");
    reveal_strlit("-pr=");
    reveal_strlit("--profile=");
    reveal_strlit("-hf");
    reveal_strlit("--hide_filenames");
    reveal_strlit("-hf=");
    reveal_strlit("--hide_filenames=");
    reveal_strlit("-lt");
    reveal_strlit("--log_type");
    reveal_strlit("-lt=");
    reveal_strlit("--log_type=");
    reveal_strlit("-lf");
    reveal_strlit("--log_format");
    reveal_strlit("-lf=");
    reveal_strlit("--log_format=");
    reveal_strlit("-lp");
    reveal_strlit("--log_properties");
    reveal_strlit("-lp=");
    reveal_strlit("--log_properties=");
    reveal_strlit("-jo");
    reveal_strlit("--json_output");
    reveal_strlit("-jo=");
    reveal_strlit("--json_output=");
    reveal_strlit("-cd");
    reveal_strlit("--convert_date");
    reveal_strlit("-cd=");
    reveal_strlit("--convert_date=");
    reveal_strlit("-og");
    reveal_strlit("--use_og_name");
    reveal_strlit("-og=");
    reveal_strlit("--use_og_name=");
    let m = short_forms();
    lemma_short_form_at(0);
    assert(m[0] == ("-an"@, "--account-name"@));
    assert("-an"@.push('=') == "-an="@);
    assert("--account-name"@.push('=') == "--account-name="@);
    lemma_short_form_at(1);
    assert(m[1] == ("-cn"@, "--container-name"@));
    assert("-cn"@.push('=') == "-cn="@);
    assert("--container-name"@.push('=') == "--container-name="@);
    lemma_short_form_at(2);
    assert(m[2] == ("-gb"@, "--google-bucket"@));
    assert("-gb"@.push('=') == "-gb="@);
    assert("--google-bucket"@.push('=') == "--google-bucket="@);
    lemma_short_form_at(3);
    assert(m[3] == ("-fs"@, "--file_size"@));
    assert("-fs"@.push('=') == "-fs="@);
    assert("--file_size"@.push('=') == "--file_size="@);
    lemma_short_form_at(4);
    assert(m[4] == ("-pr"@, "--profile"@));
    assert("-pr"@.push('=') == "-pr="@);
    assert("--profile"@.push('=') == "--profile="@);
    lemma_short_form_at(5);
    assert(m[5] == ("-hf"@, "--hide_filenames"@));
    assert("-hf"@.push('=') == "-hf="@);
    assert("--hide_filenames"@.push('=') == "--hide_filenames="@);
    lemma_short_form_at(6);
    assert(m[6] == ("-lt"@, "--log_type"@));
    assert("-lt"@.push('=') == "-lt="@);
    assert("--log_type"@.push('=') == "--log_type="@);
    lemma_short_form_at(7);
    assert(m[7] == ("-lf"@, "--log_format"@));
    assert("-lf"@.push('=') == "-lf="@);
    assert("--log_format"@.push('=') == "--log_format="@);
    lemma_short_form_at(8);
    assert(m[8] == ("-lp"@, "--log_properties"@));
    assert("-lp"@.push('=') == "-lp="@);
    assert("--log_properties"@.push('=') == "--log_properties="@);
    lemma_short_form_at(9);
    assert(m[9] == ("-jo"@, "--json_output"@));
    assert("-jo"@.push('=') == "-jo="@);
    assert("--json_output"@.push('=') == "--json_output="@);
    lemma_short_form_at(10);
    assert(m[10] == ("-cd"@, "--convert_date"@));
    assert("-cd"@.push('=') == "-cd="@);
    assert("--convert_date"@.push('=') == "--convert_date="@);
    lemma_short_form_at(11);
    assert(m[11] == ("-og"@, "--use_og_name"@));
    assert("-og"@.push('=') == "-og="@);
    assert("--use_og_name"@.push('=') == "--use_og_name="@);
}

} // verus!
