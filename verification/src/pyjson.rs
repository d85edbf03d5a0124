//! Rendering JSON values the way Python renders them: `json.dumps` with its
//! default settings (ASCII-only output) and `repr()` of the decoded value.

use vstd::prelude::*;
use crate::json::{
    all_digits, floats_well_formed, items_floats_well_formed, member_floats_well_formed, members_floats_well_formed, digits_value, e_index, exp_digits, exp_negative, is_digit, items_model, mantissa, members_model, model_of, sci_digits,
    sci_exponent, sci_shape, sign_len, JsonModel, JsonNumber, JsonValue, NumberModel,
};
use crate::text::{contains_char, lemma_piece_len, piece_len, push_char};

verus! {

/// The decimal digit for `d < 10`.
pub open spec fn digit(d: nat) -> char {
    ((d + 48) as u32) as char
}

/// Decimal rendering of a natural number, without leading zeros.
pub open spec fn nat_text(n: nat) -> Seq<char>
    decreases n,
{
    if n < 10 {
        seq![digit(n)]
    } else {
        nat_text(n / 10) + seq![digit(n % 10)]
    }
}

/// Decimal rendering of an integer, with a leading `-` when negative.
pub open spec fn int_text(n: int) -> Seq<char> {
    if n < 0 {
        seq!['-'] + nat_text((-n) as nat)
    } else {
        nat_text(n as nat)
    }
}

/// `n` zeros.
pub open spec fn zeros(n: nat) -> Seq<char> {
    Seq::new(n, |i: int| '0')
}

/// Python's `repr` of the float with significant digits `d` (the first one
/// before the point) and decimal exponent `e`, whose exponent digits are `ed`:
/// positional notation from 1e-4 up to below 1e16 (always with a point),
/// scientific notation otherwise (`1e+16`, `1.5e-07`: a sign and at least two
/// exponent digits).
pub open spec fn py_float_body(d: Seq<char>, e: int, ed: Seq<char>) -> Seq<char> {
    if e < -4 || e >= 16 {
        seq![d[0]] + (if d.len() > 1 {
            seq!['.'] + d.skip(1)
        } else {
            Seq::empty()
        }) + seq!['e'] + (if e < 0 {
            seq!['-']
        } else {
            seq!['+']
        }) + (if ed.len() == 1 {
            seq!['0'] + ed
        } else {
            ed
        })
    } else if e < 0 {
        seq!['0', '.'] + zeros((-e - 1) as nat) + d
    } else if e + 1 < d.len() {
        d.take(e + 1) + seq!['.'] + d.skip(e + 1)
    } else {
        d + zeros((e + 1 - d.len()) as nat) + seq!['.', '0']
    }
}

/// A float text (held in the `{:e}` shape) as Python's `repr` and
/// `json.dumps` write the float; a text of another shape is written as it is.
pub open spec fn float_text(t: Seq<char>) -> Seq<char> {
    if sci_shape(t) {
        t.take(sign_len(t)) + py_float_body(sci_digits(t), sci_exponent(t), exp_digits(t))
    } else {
        t
    }
}

/// A number as Python prints it: integers in decimal, floats as `repr` does.
pub open spec fn number_text(n: NumberModel) -> Seq<char> {
    match n {
        NumberModel::PosInt(u) => nat_text(u as nat),
        NumberModel::NegInt(i) => int_text(i as int),
        NumberModel::Float(t) => float_text(t),
    }
}

/// The lowercase hexadecimal digit for `d < 16`.
pub open spec fn hex_digit(d: nat) -> char {
    if d < 10 {
        digit(d)
    } else {
        ((d - 10 + 97) as u32) as char
    }
}

/// `\u` followed by four lowercase hex digits of `u < 0x10000`.
pub open spec fn u_escape(u: nat) -> Seq<char> {
    seq!['\\', 'u', hex_digit((u / 4096) % 16), hex_digit((u / 256) % 16), hex_digit((u / 16) % 16), hex_digit(u % 16)]
}

/// How `json.dumps` writes one character of a string (with `ensure_ascii`).
pub open spec fn json_escape(c: char) -> Seq<char> {
    if c == '"' {
        seq!['\\', '"']
    } else if c == '\\' {
        seq!['\\', '\\']
    } else if c == '\n' {
        seq!['\\', 'n']
    } else if c == '\r' {
        seq!['\\', 'r']
    } else if c == '\t' {
        seq!['\\', 't']
    } else if c == '\u{8}' {
        seq!['\\', 'b']
    } else if c == '\u{c}' {
        seq!['\\', 'f']
    } else if (c as u32) < 0x20 {
        u_escape(c as nat)
    } else if (c as u32) <= 0x7e {
        seq![c]
    } else if (c as u32) < 0x10000 {
        u_escape(c as nat)
    } else {
        u_escape((0xd800 + ((c as nat - 0x10000) / 1024)) as nat) + u_escape(
            (0xdc00 + ((c as nat - 0x10000) % 1024)) as nat,
        )
    }
}

/// The escaped characters of `s`, concatenated.
pub open spec fn json_escape_all(s: Seq<char>) -> Seq<char>
    decreases s.len(),
{
    if s.len() == 0 {
        Seq::empty()
    } else {
        json_escape_all(s.drop_last()) + json_escape(s.last())
    }
}

/// A string as `json.dumps` writes it: quoted, escaped, ASCII only.
pub open spec fn json_string(s: Seq<char>) -> Seq<char> {
    seq!['"'] + json_escape_all(s) + seq!['"']
}

/// `json.dumps(v)` with Python's default separators.
pub open spec fn dumps_spec(v: JsonModel) -> Seq<char>
    decreases v,
{
    match v {
        JsonModel::Null => "null"@,
        JsonModel::Bool(b) => if b {
            "true"@
        } else {
            "false"@
        },
        JsonModel::Number(n) => number_text(n),
        JsonModel::Str(s) => json_string(s),
        JsonModel::Array(items) => seq!['['] + dumps_items(items) + seq![']'],
        JsonModel::Object(members) => seq!['{'] + dumps_members(members) + seq!['}'],
    }
}

/// The array elements of `items`, rendered and separated by `", "`.
pub open spec fn dumps_items(items: Seq<JsonModel>) -> Seq<char>
    decreases items,
{
    if items.len() == 0 {
        Seq::empty()
    } else if items.len() == 1 {
        dumps_spec(items[0])
    } else {
        dumps_items(items.drop_last()) + ", "@ + dumps_spec(items.last())
    }
}

/// One object member as `"key": value`.
pub open spec fn member_text(m: (Seq<char>, JsonModel)) -> Seq<char>
    decreases m,
{
    json_string(m.0) + ": "@ + dumps_spec(m.1)
}

/// The object members of `members` as `"key": value`, separated by `", "`.
pub open spec fn dumps_members(members: Seq<(Seq<char>, JsonModel)>) -> Seq<char>
    decreases members,
{
    if members.len() == 0 {
        Seq::empty()
    } else if members.len() == 1 {
        member_text(members[0])
    } else {
        dumps_members(members.drop_last()) + ", "@ + member_text(members.last())
    }
}

fn digit_char(d: u64) -> (c: char)
    requires
        d < 10,
    ensures
        c == digit(d as nat),
{
    let b: u8 = (d as u8) + 48;
    let c = b as char;
    assert(c == digit(d as nat)) by {
        assert((b as u32) as char == b as char);
    }
    c
}

fn hex_char(d: u32) -> (c: char)
    requires
        d < 16,
    ensures
        c == hex_digit(d as nat),
{
    if d < 10 {
        digit_char(d as u64)
    } else {
        let b: u8 = (d as u8) - 10 + 97;
        let c = b as char;
        assert(c == hex_digit(d as nat)) by {
            assert((b as u32) as char == b as char);
        }
        c
    }
}

/// Appends the decimal rendering of `n`.
fn write_nat(out: &mut String, n: u64)
    ensures
        final(out)@ == old(out)@ + nat_text(n as nat),
    decreases n,
{
    if n >= 10 {
        write_nat(out, n / 10);
    }
    push_char(out, digit_char(n % 10));
}

/// Appends the decimal rendering of `n`, with `-` when negative.
fn write_int(out: &mut String, n: i64)
    ensures
        final(out)@ == old(out)@ + int_text(n as int),
{
    if n < 0 {
        push_char(out, '-');
        let m: u64 = if n == i64::MIN {
            9223372036854775808u64
        } else {
            (-n) as u64
        };
        write_nat(out, m);
        assert(old(out)@ + int_text(n as int) == old(out)@.push('-') + nat_text(m as nat));
    } else {
        write_nat(out, n as u64);
    }
}

/// Whether `t` has `c` anywhere.
fn has_char(t: &Vec<char>, c: char) -> (r: bool)
    ensures
        r == contains_char(t@, c),
{
    for i in 0..t.len()
        invariant
            forall|j: int| 0 <= j < i ==> t@[j] != c,
    {
        if t[i] == c {
            return true;
        }
    }
    false
}

/// Whether every character of `v[lo..hi]` is a decimal digit.
fn digits_in(v: &Vec<char>, lo: usize, hi: usize) -> (r: bool)
    requires
        lo <= hi <= v@.len(),
    ensures
        r == all_digits(v@.subrange(lo as int, hi as int)),
{
    let mut i = lo;
    while i < hi
        invariant
            lo <= i <= hi <= v@.len(),
            forall|j: int| lo <= j < i ==> is_digit(#[trigger] v@[j]),
        decreases hi - i,
    {
        if !(v[i] >= '0' && v[i] <= '9') {
            assert(v@.subrange(lo as int, hi as int)[i - lo] == v@[i as int]);
            return false;
        }
        i += 1;
    }
    assert forall|j: int| 0 <= j < hi - lo implies is_digit(#[trigger] v@.subrange(lo as int, hi as int)[j]) by {
        assert(v@.subrange(lo as int, hi as int)[j] == v@[lo + j]);
    }
    true
}

/// Appends `v[lo..hi]`.
fn push_range(out: &mut String, v: &Vec<char>, lo: usize, hi: usize)
    requires
        lo <= hi <= v@.len(),
    ensures
        final(out)@ == old(out)@ + v@.subrange(lo as int, hi as int),
{
    let ghost start = out@;
    let mut i = lo;
    while i < hi
        invariant
            lo <= i <= hi <= v@.len(),
            out@ == start + v@.subrange(lo as int, i as int),
        decreases hi - i,
    {
        push_char(out, v[i]);
        assert(v@.subrange(lo as int, i + 1) == v@.subrange(lo as int, i as int).push(v@[i as int]));
        i += 1;
    }
}

/// Appends `n` zeros.
fn push_zeros(out: &mut String, n: usize)
    ensures
        final(out)@ == old(out)@ + zeros(n as nat),
{
    let ghost start = out@;
    let mut i: usize = 0;
    while i < n
        invariant
            i <= n,
            out@ == start + zeros(i as nat),
        decreases n - i,
    {
        push_char(out, '0');
        assert(zeros((i + 1) as nat) == zeros(i as nat).push('0'));
        i += 1;
    }
}

/// The number the digits `v[lo..hi]` spell (at most three of them).
fn digits_number(v: &Vec<char>, lo: usize, hi: usize) -> (r: u32)
    requires
        lo <= hi <= v@.len(),
        hi - lo <= 3,
        all_digits(v@.subrange(lo as int, hi as int)),
    ensures
        r == digits_value(v@.subrange(lo as int, hi as int)),
        r <= 999,
{
    let ghost xd = v@.subrange(lo as int, hi as int);
    let mut ev: u32 = 0;
    let mut i = lo;
    while i < hi
        invariant
            lo <= i <= hi <= v@.len(),
            hi - lo <= 3,
            xd == v@.subrange(lo as int, hi as int),
            all_digits(xd),
            ev == digits_value(v@.subrange(lo as int, i as int)),
            i - lo == 0 ==> ev == 0,
            i - lo == 1 ==> ev <= 9,
            i - lo == 2 ==> ev <= 99,
            ev <= 999,
        decreases hi - i,
    {
        assert(xd[i - lo] == v@[i as int]);
        assert(is_digit(xd[i - lo]));
        let dv = (v[i] as u32) - 48;
        assert(v@.subrange(lo as int, i + 1).drop_last() == v@.subrange(lo as int, i as int));
        assert(v@.subrange(lo as int, i + 1).last() == v@[i as int]);
        ev = ev * 10 + dv;
        i += 1;
    }
    ev
}

/// Position of the first `e` in `c` at or after `s`, or `c.len()`.
fn find_e(c: &Vec<char>, s: usize) -> (k: usize)
    requires
        s <= c@.len(),
    ensures
        k == s + piece_len(c@.skip(s as int), 'e'),
        k <= c@.len(),
{
    let n = c.len();
    let mut k = s;
    while k < n && c[k] != 'e'
        invariant
            s <= k <= n,
            n == c@.len(),
            forall|j: int| s <= j < k ==> c@[j] != 'e',
        decreases n - k,
    {
        k += 1;
    }
    proof {
        let b = c@.skip(s as int);
        assert forall|j: int| 0 <= j < k - s implies b[j] != 'e' by {
            assert(b[j] == c@[s + j]);
        }
        if k < n {
            assert(b[k - s] == c@[k as int]);
        }
        lemma_piece_len(b, 'e', k - s);
    }
    k
}

/// The parts of a float text in the `{:e}` shape: its significant digits, its
/// exponent and the exponent's digits; `None` for a text of another shape.
pub(crate) fn sci_parts(c: &Vec<char>) -> (r: Option<(Vec<char>, i32, Vec<char>)>)
    ensures
        r is Some <==> sci_shape(c@),
        r matches Some(p) ==> p.0@ == sci_digits(c@) && p.1 == sci_exponent(c@) && p.2@ == exp_digits(c@) && -999 <= p.1 <= 999,
{
    let n = c.len();
    let s: usize = if n > 0 && c[0] == '-' {
        1
    } else {
        0
    };
    assert(s == sign_len(c@));
    let k = find_e(c, s);
    assert(e_index(c@) == k);
    if k >= n {
        return None;
    }
    let mlen = k - s;
    let mant_ok = mlen >= 1 && (c[s] >= '0' && c[s] <= '9') && (mlen == 1 || (mlen >= 3 && c[s + 1] == '.'
        && digits_in(c, s + 2, k)));
    let eneg = k + 1 < n && c[k + 1] == '-';
    let xs: usize = if eneg {
        k + 2
    } else {
        k + 1
    };
    let xlen = n - xs;
    let exp_ok = 1 <= xlen && xlen <= 3 && digits_in(c, xs, n) && (xlen == 1 || c[xs] != '0');
    proof {
        let m = mantissa(c@);
        assert(m == c@.subrange(s as int, k as int));
        assert(eneg == exp_negative(c@));
        assert(exp_digits(c@) == c@.subrange(xs as int, n as int));
        if mlen >= 1 {
            assert(m[0] == c@[s as int]);
        }
        if mlen >= 3 {
            assert(m[1] == c@[s + 1]);
            assert(m.skip(2) == c@.subrange(s + 2, k as int));
        }
        if xlen >= 1 {
            assert(exp_digits(c@)[0] == c@[xs as int]);
        }
    }
    if !(mant_ok && exp_ok) {
        return None;
    }
    let ev = digits_number(c, xs, n);
    let mut d: Vec<char> = Vec::new();
    d.push(c[s]);
    if mlen > 1 {
        let mut j = s + 2;
        while j < k
            invariant
                s + 2 <= j <= k <= n,
                n == c@.len(),
                d@ == seq![c@[s as int]] + c@.subrange(s + 2, j as int),
            decreases k - j,
        {
            d.push(c[j]);
            assert(c@.subrange(s + 2, j + 1) == c@.subrange(s + 2, j as int).push(c@[j as int]));
            j += 1;
        }
    }
    proof {
        let m = mantissa(c@);
        if mlen == 1 {
            assert(d@ == m);
        } else {
            assert(m.skip(2) == c@.subrange(s + 2, k as int));
        }
    }
    let e: i32 = if eneg {
        -(ev as i32)
    } else {
        ev as i32
    };
    let mut ed: Vec<char> = Vec::new();
    let mut j = xs;
    while j < n
        invariant
            xs <= j <= n,
            n == c@.len(),
            ed@ == c@.subrange(xs as int, j as int),
        decreases n - j,
    {
        ed.push(c[j]);
        assert(c@.subrange(xs as int, j + 1) == c@.subrange(xs as int, j as int).push(c@[j as int]));
        j += 1;
    }
    Some((d, e, ed))
}

/// Appends `py_float_body(d, e, ed)`.
fn write_py_body(out: &mut String, d: &Vec<char>, e: i32, ed: &Vec<char>)
    requires
        d@.len() >= 1,
        -999 <= e <= 999,
    ensures
        final(out)@ == old(out)@ + py_float_body(d@, e as int, ed@),
{
    let ghost dd = d@;
    let ghost start = out@;
    let dl = d.len();
    if e < -4 || e >= 16 {
        push_char(out, d[0]);
        let ghost a1 = out@;
        if dl > 1 {
            push_char(out, '.');
            push_range(out, d, 1, dl);
            assert(dd.subrange(1, dl as int) == dd.skip(1));
            assert(out@ == a1 + (seq!['.'] + dd.skip(1)));
        } else {
            assert(out@ == a1 + Seq::<char>::empty());
        }
        push_char(out, 'e');
        if e < 0 {
            push_char(out, '-');
        } else {
            push_char(out, '+');
        }
        let ghost a2 = out@;
        if ed.len() == 1 {
            push_char(out, '0');
            push_range(out, ed, 0, ed.len());
            assert(ed@.subrange(0, ed@.len() as int) == ed@);
            assert(out@ == a2 + (seq!['0'] + ed@));
        } else {
            push_range(out, ed, 0, ed.len());
            assert(ed@.subrange(0, ed@.len() as int) == ed@);
        }
        assert(out@ =~= start + py_float_body(dd, e as int, ed@));
    } else if e < 0 {
        push_char(out, '0');
        push_char(out, '.');
        push_zeros(out, (-e - 1) as usize);
        push_range(out, d, 0, dl);
        assert(dd.subrange(0, dl as int) == dd);
        assert(out@ =~= start + py_float_body(dd, e as int, ed@));
    } else if ((e + 1) as usize) < dl {
        let p = (e + 1) as usize;
        push_range(out, d, 0, p);
        push_char(out, '.');
        push_range(out, d, p, dl);
        assert(dd.subrange(0, p as int) == dd.take(p as int));
        assert(dd.subrange(p as int, dl as int) == dd.skip(p as int));
        assert(out@ =~= start + py_float_body(dd, e as int, ed@));
    } else {
        push_range(out, d, 0, dl);
        push_zeros(out, (e as usize) + 1 - dl);
        push_char(out, '.');
        push_char(out, '0');
        assert(dd.subrange(0, dl as int) == dd);
        assert(out@ =~= start + py_float_body(dd, e as int, ed@));
    }
}

/// Appends a float text as Python's `repr` writes the float.
pub fn write_float(out: &mut String, t: &str)
    ensures
        final(out)@ == old(out)@ + float_text(t@),
{
    let c = crate::text::chars_of(t);
    match sci_parts(&c) {
        None => {
            out.append(t);
        },
        Some((d, e, ed)) => {
            let ghost start = out@;
            if c.len() > 0 && c[0] == '-' {
                push_char(out, '-');
            }
            assert(out@ =~= start + t@.take(sign_len(t@)));
            write_py_body(out, &d, e, &ed);
        },
    }
}

/// Appends a number as Python prints it.
pub fn write_number(out: &mut String, n: &JsonNumber)
    ensures
        final(out)@ == old(out)@ + number_text(n@),
        n@ matches NumberModel::Float(t) ==> sci_shape(t),
{
    match n {
        JsonNumber::PosInt(u) => write_nat(out, *u),
        JsonNumber::NegInt(i) => write_int(out, *i),
        JsonNumber::Float(t) => write_float(out, t.as_str()),
    }
}

/// Appends `\u` and four lowercase hex digits of `u`.
fn write_u_escape(out: &mut String, u: u32)
    requires
        u < 0x10000,
    ensures
        final(out)@ == old(out)@ + u_escape(u as nat),
{
    push_char(out, '\\');
    push_char(out, 'u');
    push_char(out, hex_char((u / 4096) % 16));
    push_char(out, hex_char((u / 256) % 16));
    push_char(out, hex_char((u / 16) % 16));
    push_char(out, hex_char(u % 16));
    assert(final(out)@ == old(out)@ + u_escape(u as nat)) by {
        assert(u_escape(u as nat) == seq!['\\', 'u', hex_digit((u / 4096 % 16) as nat), hex_digit((u / 256 % 16) as nat), hex_digit((u / 16 % 16) as nat), hex_digit((u % 16) as nat)]);
    }
}

fn write_two(out: &mut String, a: char, b: char)
    ensures
        final(out)@ == old(out)@ + seq![a, b],
{
    push_char(out, a);
    push_char(out, b);
}

/// Appends one character as `json.dumps` writes it inside a string.
fn write_json_char(out: &mut String, c: char)
    ensures
        final(out)@ == old(out)@ + json_escape(c),
{
    let u = c as u32;
    if c == '"' {
        write_two(out, '\\', '"');
    } else if c == '\\' {
        write_two(out, '\\', '\\');
    } else if c == '\n' {
        write_two(out, '\\', 'n');
    } else if c == '\r' {
        write_two(out, '\\', 'r');
    } else if c == '\t' {
        write_two(out, '\\', 't');
    } else if c == '\u{8}' {
        write_two(out, '\\', 'b');
    } else if c == '\u{c}' {
        write_two(out, '\\', 'f');
    } else if u < 0x20 {
        write_u_escape(out, u);
    } else if u <= 0x7e {
        push_char(out, c);
        assert(old(out)@.push(c) == old(out)@ + seq![c]);
    } else if u < 0x10000 {
        write_u_escape(out, u);
    } else {
        proof {
            vstd::utf8::char_is_scalar(c);
        }
        let v = u - 0x10000;
        write_u_escape(out, 0xd800 + v / 1024);
        write_u_escape(out, 0xdc00 + v % 1024);
    }
}

/// Appends `s` as `json.dumps` writes a string.
pub fn write_json_string(out: &mut String, s: &str)
    ensures
        final(out)@ == old(out)@ + json_string(s@),
{
    let chars = crate::text::chars_of(s);
    let ghost start = out@;
    push_char(out, '"');
    for i in 0..chars.len()
        invariant
            chars@ == s@,
            out@ == start + seq!['"'] + json_escape_all(chars@.take(i as int)),
    {
        write_json_char(out, chars[i]);
        assert(chars@.take(i + 1).drop_last() == chars@.take(i as int));
    }
    assert(chars@.take(chars@.len() as int) == chars@);
    push_char(out, '"');
}

/// Appends `json.dumps(v)`.
pub fn write_value(out: &mut String, v: &JsonValue)
    ensures
        final(out)@ == old(out)@ + dumps_spec(model_of(*v)),
        floats_well_formed(model_of(*v)),
    decreases v,
{
    match v {
        JsonValue::Null => {
            out.append("null");
        },
        JsonValue::Bool(b) => {
            if *b {
                out.append("true");
            } else {
                out.append("false");
            }
        },
        JsonValue::Number(n) => write_number(out, n),
        JsonValue::String(s) => write_json_string(out, s.as_str()),
        JsonValue::Array(items) => {
            let ghost ms = items_model(items@);
            let ghost start = out@;
            push_char(out, '[');
            for i in 0..items.len()
                invariant
                    *v == JsonValue::Array(*items),
                    ms.len() == items@.len(),
                    forall|k: int| 0 <= k < items@.len() ==> ms[k] == model_of(#[trigger] items@[k]),
                    out@ == start + seq!['['] + dumps_items(ms.take(i as int)),
                    items_floats_well_formed(ms.take(i as int)),
            {
                if i > 0 {
                    out.append(", ");
                }
                proof {
                    vstd::seq::axiom_seq_index_decreases(items@, i as int);
                    assert(decreases_to!(*v => (*v)->Array_0));
                }
                write_value(out, &items[i]);
                proof {
                    let t = ms.take(i + 1);
                    assert(t.drop_last() == ms.take(i as int));
                    assert(t.last() == ms[i as int]);
                    if i == 0 {
                        assert(dumps_items(t) == dumps_spec(t[0]));
                    }
                }
            }
            assert(ms.take(items@.len() as int) == ms);
            push_char(out, ']');
        },
        JsonValue::Object(members) => {
            let ghost ms = members_model(members@);
            let ghost start = out@;
            push_char(out, '{');
            for i in 0..members.len()
                invariant
                    *v == JsonValue::Object(*members),
                    ms.len() == members@.len(),
                    forall|k: int| 0 <= k < members@.len() ==> ms[k] == (#[trigger] members@[k].0@, model_of(members@[k].1)),
                    out@ == start + seq!['{'] + dumps_members(ms.take(i as int)),
                    members_floats_well_formed(ms.take(i as int)),
            {
                if i > 0 {
                    out.append(", ");
                }
                let (key, val) = &members[i];
                write_json_string(out, key.as_str());
                out.append(": ");
                proof {
                    vstd::seq::axiom_seq_index_decreases(members@, i as int);
                    assert(decreases_to!(*v => (*v)->Object_0));
                    assert(decreases_to!(members@[i as int] => members@[i as int].1));
                }
                write_value(out, val);
                proof {
                    let t = ms.take(i + 1);
                    assert(t.drop_last() == ms.take(i as int));
                    assert(t.last() == ms[i as int]);
                    assert(member_text(ms[i as int]) == json_string(key@) + ": "@ + dumps_spec(model_of(*val)));
                    assert(ms[i as int].1 == model_of(*val));
                    assert(member_floats_well_formed(ms[i as int]));
                }
            }
            assert(ms.take(members@.len() as int) == ms);
            push_char(out, '}');
        },
    }
}

/// `json.dumps(value)`: separators `", "` and `": "`, non-ASCII escaped.
pub fn dumps(value: &JsonValue) -> (r: String)
    ensures
        r@ == dumps_spec(model_of(*value)),
        printable_ascii(r@),
{
    let mut out = String::new();
    write_value(&mut out, value);
    proof {
        law_dumps_printable(model_of(*value));
        assert(out@ =~= dumps_spec(model_of(*value)));
    }
    out
}

/// The quote `repr()` puts around a string: `"` when the string has a `'`
/// and no `"`, otherwise `'`.
pub open spec fn repr_quote(s: Seq<char>) -> char {
    if contains_char(s, '\'') && !contains_char(s, '"') {
        '"'
    } else {
        '\''
    }
}

/// `w` lowercase hexadecimal digits of `v` (the low `w` digits, most
/// significant first).
pub open spec fn hex_text(v: nat, w: nat) -> Seq<char>
    decreases w,
{
    if w == 0 {
        Seq::empty()
    } else {
        hex_text(v / 16, (w - 1) as nat) + seq![hex_digit(v % 16)]
    }
}

/// Whether `c` lies in the Unicode general categories Other (Cc, Cf, Cs, Co,
/// Cn) or Separator (Zs, Zl, Zp) by the Unicode tables of the `regex` crate:
/// for a non-ASCII character, exactly what Python's `str.isprintable` rejects.
pub uninterp spec fn unicode_other_or_separator(c: char) -> bool;

/// Whether a non-ASCII character is one Python's `repr` escapes.
pub open spec fn py_unprintable(c: char) -> bool {
    unicode_other_or_separator(c)
}

/// Compiles the class `[\p{C}\p{Z}]` with `regex::Regex::new` and asks
/// `Regex::is_match` of the one-character text `c`; the answer is the one
/// `unicode_other_or_separator` names.  (The constant class always compiles.)
#[verifier::external_body]
fn in_other_or_separator(c: char) -> (r: bool)
    ensures
        r == unicode_other_or_separator(c),
{
    let mut buf = [0u8; 4];
    regex::Regex::new(r"[\p{C}\p{Z}]").map(|re| re.is_match(c.encode_utf8(&mut buf))).unwrap_or(false)
}

/// How `repr()` writes one character of a string quoted with `q`: the quote
/// and `\` behind a backslash; `\t`, `\n`, `\r`; other ASCII controls and
/// DEL as `\xhh`; printable ASCII as it is; a non-printable non-ASCII
/// character as `\xhh`, `\uhhhh` or `\Uhhhhhhhh` by its size; anything else
/// as it is.
pub open spec fn repr_escape(c: char, q: char) -> Seq<char> {
    let u = c as u32;
    if c == '\\' {
        seq!['\\', '\\']
    } else if c == '\n' {
        seq!['\\', 'n']
    } else if c == '\r' {
        seq!['\\', 'r']
    } else if c == '\t' {
        seq!['\\', 't']
    } else if c == q {
        seq!['\\', c]
    } else if u < 0x20 || u == 0x7f {
        seq!['\\', 'x'] + hex_text(u as nat, 2)
    } else if u < 0x7f {
        seq![c]
    } else if py_unprintable(c) {
        if u <= 0xff {
            seq!['\\', 'x'] + hex_text(u as nat, 2)
        } else if u <= 0xffff {
            seq!['\\', 'u'] + hex_text(u as nat, 4)
        } else {
            seq!['\\', 'U'] + hex_text(u as nat, 8)
        }
    } else {
        seq![c]
    }
}

pub open spec fn repr_escape_all(s: Seq<char>, q: char) -> Seq<char>
    decreases s.len(),
{
    if s.len() == 0 {
        Seq::empty()
    } else {
        repr_escape_all(s.drop_last(), q) + repr_escape(s.last(), q)
    }
}

/// `repr()` of a string.
pub open spec fn str_repr(s: Seq<char>) -> Seq<char> {
    let q = repr_quote(s);
    seq![q] + repr_escape_all(s, q) + seq![q]
}

/// `repr()` of the Python value that `json.loads` would give for `v`.
pub open spec fn repr_spec(v: JsonModel) -> Seq<char>
    decreases v,
{
    match v {
        JsonModel::Null => "None"@,
        JsonModel::Bool(b) => if b {
            "True"@
        } else {
            "False"@
        },
        JsonModel::Number(n) => number_text(n),
        JsonModel::Str(s) => str_repr(s),
        JsonModel::Array(items) => seq!['['] + repr_items(items) + seq![']'],
        JsonModel::Object(members) => seq!['{'] + repr_members(members) + seq!['}'],
    }
}

pub open spec fn repr_items(items: Seq<JsonModel>) -> Seq<char>
    decreases items,
{
    if items.len() == 0 {
        Seq::empty()
    } else if items.len() == 1 {
        repr_spec(items[0])
    } else {
        repr_items(items.drop_last()) + ", "@ + repr_spec(items.last())
    }
}

pub open spec fn repr_members(members: Seq<(Seq<char>, JsonModel)>) -> Seq<char>
    decreases members,
{
    if members.len() == 0 {
        Seq::empty()
    } else if members.len() == 1 {
        str_repr(members[0].0) + ": "@ + repr_spec(members[0].1)
    } else {
        repr_members(members.drop_last()) + ", "@ + str_repr(members.last().0) + ": "@ + repr_spec(
            members.last().1,
        )
    }
}

/// Appends the `w` low hexadecimal digits of `v`.
fn write_hex(out: &mut String, v: u32, w: usize)
    ensures
        final(out)@ == old(out)@ + hex_text(v as nat, w as nat),
    decreases w,
{
    if w > 0 {
        write_hex(out, v / 16, w - 1);
        push_char(out, hex_char(v % 16));
    }
}

/// Appends one character as `repr()` writes it inside a string quoted with `q`.
fn write_repr_char(out: &mut String, c: char, q: char)
    ensures
        final(out)@ == old(out)@ + repr_escape(c, q),
{
    let u = c as u32;
    if c == '\\' {
        write_two(out, '\\', '\\');
    } else if c == '\n' {
        write_two(out, '\\', 'n');
    } else if c == '\r' {
        write_two(out, '\\', 'r');
    } else if c == '\t' {
        write_two(out, '\\', 't');
    } else if c == q {
        write_two(out, '\\', c);
    } else if u < 0x20 || u == 0x7f {
        write_two(out, '\\', 'x');
        write_hex(out, u, 2);
    } else if u < 0x7f {
        push_char(out, c);
        assert(old(out)@.push(c) == old(out)@ + seq![c]);
    } else if in_other_or_separator(c) {
        if u <= 0xff {
            write_two(out, '\\', 'x');
            write_hex(out, u, 2);
        } else if u <= 0xffff {
            write_two(out, '\\', 'u');
            write_hex(out, u, 4);
        } else {
            write_two(out, '\\', 'U');
            write_hex(out, u, 8);
        }
    } else {
        push_char(out, c);
        assert(old(out)@.push(c) == old(out)@ + seq![c]);
    }
}

/// Appends `repr()` of the string `s`.
pub fn write_str_repr(out: &mut String, s: &str)
    ensures
        final(out)@ == old(out)@ + str_repr(s@),
{
    let chars = crate::text::chars_of(s);
    let quote = if has_char(&chars, '\'') && !has_char(&chars, '"') {
        '"'
    } else {
        '\''
    };
    let ghost start = out@;
    push_char(out, quote);
    for i in 0..chars.len()
        invariant
            chars@ == s@,
            quote == repr_quote(s@),
            out@ == start + seq![quote] + repr_escape_all(chars@.take(i as int), quote),
    {
        let c = chars[i];
        let ghost before = out@;
        write_repr_char(out, c, quote);
        assert(chars@.take(i + 1).drop_last() == chars@.take(i as int));
        assert(out@ == before + repr_escape(c, quote));
    }
    assert(chars@.take(chars@.len() as int) == chars@);
    push_char(out, quote);
}

/// Appends `repr()` of `v`.
pub fn write_repr(out: &mut String, v: &JsonValue)
    ensures
        final(out)@ == old(out)@ + repr_spec(model_of(*v)),
    decreases v,
{
    match v {
        JsonValue::Null => {
            out.append("None");
        },
        JsonValue::Bool(b) => {
            if *b {
                out.append("True");
            } else {
                out.append("False");
            }
        },
        JsonValue::Number(n) => write_number(out, n),
        JsonValue::String(s) => write_str_repr(out, s.as_str()),
        JsonValue::Array(items) => {
            let ghost ms = items_model(items@);
            let ghost start = out@;
            push_char(out, '[');
            for i in 0..items.len()
                invariant
                    *v == JsonValue::Array(*items),
                    ms.len() == items@.len(),
                    forall|k: int| 0 <= k < items@.len() ==> ms[k] == model_of(#[trigger] items@[k]),
                    out@ == start + seq!['['] + repr_items(ms.take(i as int)),
            {
                if i > 0 {
                    out.append(", ");
                }
                proof {
                    vstd::seq::axiom_seq_index_decreases(items@, i as int);
                    assert(decreases_to!(*v => (*v)->Array_0));
                }
                write_repr(out, &items[i]);
                proof {
                    let t = ms.take(i + 1);
                    assert(t.drop_last() == ms.take(i as int));
                    assert(t.last() == ms[i as int]);
                    if i == 0 {
                        assert(repr_items(t) == repr_spec(t[0]));
                    }
                }
            }
            assert(ms.take(items@.len() as int) == ms);
            push_char(out, ']');
        },
        JsonValue::Object(members) => {
            let ghost ms = members_model(members@);
            let ghost start = out@;
            push_char(out, '{');
            for i in 0..members.len()
                invariant
                    *v == JsonValue::Object(*members),
                    ms.len() == members@.len(),
                    forall|k: int| 0 <= k < members@.len() ==> ms[k] == (#[trigger] members@[k].0@, model_of(members@[k].1)),
                    out@ == start + seq!['{'] + repr_members(ms.take(i as int)),
            {
                if i > 0 {
                    out.append(", ");
                }
                let (key, val) = &members[i];
                write_str_repr(out, key.as_str());
                out.append(": ");
                proof {
                    vstd::seq::axiom_seq_index_decreases(members@, i as int);
                    assert(decreases_to!(*v => (*v)->Object_0));
                    assert(decreases_to!(members@[i as int] => members@[i as int].1));
                }
                write_repr(out, val);
                proof {
                    let t = ms.take(i + 1);
                    assert(t.drop_last() == ms.take(i as int));
                    assert(t.last() == ms[i as int]);
                }
            }
            assert(ms.take(members@.len() as int) == ms);
            push_char(out, '}');
        },
    }
}

/// Python's `repr()` of the decoded value: `None`/`True`/`False`, strings in
/// single quotes (double quotes when only `'` occurs), lists and dicts.
pub fn python_repr(v: &JsonValue) -> (r: String)
    ensures
        r@ == repr_spec(model_of(*v)),
{
    let mut out = String::new();
    write_repr(&mut out, v);
    out
}

/// Whether every character of `s` is printable ASCII, from `' '` to `'~'`.
pub open spec fn printable_ascii(s: Seq<char>) -> bool {
    forall|i: int| 0 <= i < s.len() ==> ' ' <= #[trigger] s[i] && s[i] <= '~'
}

proof fn lemma_printable_concat(a: Seq<char>, b: Seq<char>)
    requires
        printable_ascii(a),
        printable_ascii(b),
    ensures
        printable_ascii(a + b),
{
    assert forall|i: int| 0 <= i < (a + b).len() implies ' ' <= #[trigger] (a + b)[i] && (a + b)[i] <= '~' by {
        if i < a.len() {
            assert((a + b)[i] == a[i]);
        } else {
            assert((a + b)[i] == b[i - a.len()]);
        }
    }
}

proof fn lemma_hex_digit_printable(d: nat)
    requires
        d < 16,
    ensures
        ' ' <= hex_digit(d) && hex_digit(d) <= '~',
{
}

proof fn lemma_u_escape_printable(u: nat)
    ensures
        printable_ascii(u_escape(u)),
{
    lemma_hex_digit_printable((u / 4096) % 16);
    lemma_hex_digit_printable((u / 256) % 16);
    lemma_hex_digit_printable((u / 16) % 16);
    lemma_hex_digit_printable(u % 16);
}

proof fn lemma_json_escape_printable(c: char)
    ensures
        printable_ascii(json_escape(c)),
{
    if (c as u32) < 0x20 {
        lemma_u_escape_printable(c as nat);
    } else if (c as u32) <= 0x7e {
    } else if (c as u32) < 0x10000 {
        lemma_u_escape_printable(c as nat);
    } else {
        let hi = (0xd800 + ((c as nat - 0x10000) / 1024)) as nat;
        let lo = (0xdc00 + ((c as nat - 0x10000) % 1024)) as nat;
        lemma_u_escape_printable(hi);
        lemma_u_escape_printable(lo);
        lemma_printable_concat(u_escape(hi), u_escape(lo));
    }
}

proof fn lemma_json_escape_all_printable(s: Seq<char>)
    ensures
        printable_ascii(json_escape_all(s)),
    decreases s.len(),
{
    if s.len() > 0 {
        lemma_json_escape_all_printable(s.drop_last());
        lemma_json_escape_printable(s.last());
        lemma_printable_concat(json_escape_all(s.drop_last()), json_escape(s.last()));
    }
}

/// `json.dumps` of a string is printable ASCII: every control character and
/// every non-ASCII character is written as an escape.
pub proof fn law_json_string_printable(s: Seq<char>)
    ensures
        printable_ascii(json_string(s)),
{
    lemma_json_escape_all_printable(s);
    lemma_printable_concat(seq!['"'], json_escape_all(s));
    lemma_printable_concat(seq!['"'] + json_escape_all(s), seq!['"']);
}

proof fn lemma_nat_text_printable(n: nat)
    ensures
        printable_ascii(nat_text(n)),
    decreases n,
{
    if n >= 10 {
        lemma_nat_text_printable(n / 10);
        lemma_printable_concat(nat_text(n / 10), seq![digit(n % 10)]);
    }
}

proof fn lemma_digits_printable(s: Seq<char>)
    requires
        all_digits(s),
    ensures
        printable_ascii(s),
{
    assert forall|i: int| 0 <= i < s.len() implies ' ' <= #[trigger] s[i] && s[i] <= '~' by {
        assert(is_digit(s[i]));
    }
}

/// A float in the `{:e}` shape is written with digits, `-`, `+`, `.` and `e` only.
proof fn lemma_float_text_printable(t: Seq<char>)
    requires
        sci_shape(t),
    ensures
        printable_ascii(float_text(t)),
{
    let m = mantissa(t);
    let d = sci_digits(t);
    let e = sci_exponent(t);
    let ed = exp_digits(t);
    assert forall|i: int| 0 <= i < d.len() implies is_digit(#[trigger] d[i]) by {
        if m.len() > 1 && i > 0 {
            assert(d[i] == m.skip(2)[i - 1]);
        }
    }
    let sign = t.take(sign_len(t));
    assert(printable_ascii(sign)) by {
        if sign_len(t) == 1 {
            assert(sign == seq!['-']);
        } else {
            assert(sign.len() == 0);
        }
    }
    lemma_digits_printable(d);
    lemma_digits_printable(ed);
    lemma_digits_printable(d.skip(1));
    lemma_digits_printable(seq!['0'] + ed);
    lemma_digits_printable(zeros((-e - 1) as nat));
    lemma_digits_printable(zeros((e + 1 - d.len()) as nat));
    let body = py_float_body(d, e, ed);
    if e < -4 || e >= 16 {
        let frac: Seq<char> = if d.len() > 1 {
            seq!['.'] + d.skip(1)
        } else {
            Seq::empty()
        };
        let sgn: Seq<char> = if e < 0 {
            seq!['-']
        } else {
            seq!['+']
        };
        let ex: Seq<char> = if ed.len() == 1 {
            seq!['0'] + ed
        } else {
            ed
        };
        lemma_printable_concat(seq!['.'], d.skip(1));
        lemma_printable_concat(seq![d[0]], frac);
        lemma_printable_concat(seq![d[0]] + frac, seq!['e']);
        lemma_printable_concat(seq![d[0]] + frac + seq!['e'], sgn);
        lemma_printable_concat(seq![d[0]] + frac + seq!['e'] + sgn, ex);
    } else if e < 0 {
        lemma_printable_concat(seq!['0', '.'], zeros((-e - 1) as nat));
        lemma_printable_concat(seq!['0', '.'] + zeros((-e - 1) as nat), d);
    } else if e + 1 < d.len() {
        lemma_digits_printable(d.take(e + 1));
        lemma_digits_printable(d.skip(e + 1));
        lemma_printable_concat(d.take(e + 1), seq!['.']);
        lemma_printable_concat(d.take(e + 1) + seq!['.'], d.skip(e + 1));
    } else {
        lemma_printable_concat(d, zeros((e + 1 - d.len()) as nat));
        lemma_printable_concat(d + zeros((e + 1 - d.len()) as nat), seq!['.', '0']);
    }
    lemma_printable_concat(sign, body);
}

proof fn lemma_number_text_printable(n: NumberModel)
    requires
        n matches NumberModel::Float(t) ==> sci_shape(t),
    ensures
        printable_ascii(number_text(n)),
{
    match n {
        NumberModel::PosInt(u) => lemma_nat_text_printable(u as nat),
        NumberModel::NegInt(i) => {
            if i < 0 {
                lemma_nat_text_printable((-i) as nat);
                lemma_printable_concat(seq!['-'], nat_text((-i) as nat));
            } else {
                lemma_nat_text_printable(i as nat);
            }
        },
        NumberModel::Float(t) => lemma_float_text_printable(t),
    }
}

proof fn lemma_dumps_printable(v: JsonModel)
    requires
        floats_well_formed(v),
    ensures
        printable_ascii(dumps_spec(v)),
    decreases v,
{
    match v {
        JsonModel::Null => {
            reveal_strlit("null");
        },
        JsonModel::Bool(b) => {
            reveal_strlit("true");
            reveal_strlit("false");
        },
        JsonModel::Number(n) => lemma_number_text_printable(n),
        JsonModel::Str(s) => law_json_string_printable(s),
        JsonModel::Array(items) => {
            lemma_items_printable(items);
            lemma_printable_concat(seq!['['], dumps_items(items));
            lemma_printable_concat(seq!['['] + dumps_items(items), seq![']']);
        },
        JsonModel::Object(members) => {
            lemma_members_printable(members);
            lemma_printable_concat(seq!['{'], dumps_members(members));
            lemma_printable_concat(seq!['{'] + dumps_members(members), seq!['}']);
        },
    }
}

proof fn lemma_items_printable(items: Seq<JsonModel>)
    requires
        items_floats_well_formed(items),
    ensures
        printable_ascii(dumps_items(items)),
    decreases items,
{
    if items.len() == 1 {
        assert(items.drop_last().len() == 0);
        assert(items.last() == items[0]);
        lemma_dumps_printable(items[0]);
    } else if items.len() > 1 {
        lemma_items_printable(items.drop_last());
        lemma_dumps_printable(items.last());
        reveal_strlit(", ");
        lemma_printable_concat(dumps_items(items.drop_last()), ", "@);
        lemma_printable_concat(dumps_items(items.drop_last()) + ", "@, dumps_spec(items.last()));
    }
}

proof fn lemma_member_printable(m: (Seq<char>, JsonModel))
    requires
        member_floats_well_formed(m),
    ensures
        printable_ascii(member_text(m)),
    decreases m,
{
    law_json_string_printable(m.0);
    lemma_dumps_printable(m.1);
    reveal_strlit(": ");
    lemma_printable_concat(json_string(m.0), ": "@);
    lemma_printable_concat(json_string(m.0) + ": "@, dumps_spec(m.1));
}

proof fn lemma_members_printable(members: Seq<(Seq<char>, JsonModel)>)
    requires
        members_floats_well_formed(members),
    ensures
        printable_ascii(dumps_members(members)),
    decreases members,
{
    if members.len() == 1 {
        assert(members.drop_last().len() == 0);
        assert(members.last() == members[0]);
        lemma_member_printable(members[0]);
    } else if members.len() > 1 {
        lemma_members_printable(members.drop_last());
        lemma_member_printable(members.last());
        reveal_strlit(", ");
        lemma_printable_concat(dumps_members(members.drop_last()), ", "@);
        lemma_printable_concat(dumps_members(members.drop_last()) + ", "@, member_text(members.last()));
    }
}

/// `json.dumps` output is printable ASCII, and so holds no line break, for
/// every value whose floats are held in the `{:e}` shape (as the JSON reader
/// delivers them).
pub proof fn law_dumps_printable(v: JsonModel)
    requires
        floats_well_formed(v),
    ensures
        printable_ascii(dumps_spec(v)),
{
    lemma_dumps_printable(v);
}

} // verus!
