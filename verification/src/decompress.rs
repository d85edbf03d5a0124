//! Recognising compressed objects, turning their bytes into text the way
//! Python's `open(..., errors="ignore")` does, and cutting text into lines.

use vstd::prelude::*;
use crate::text::{chars_of, ends_with, has_suffix, push_char};

verus! {

/// How an object's bytes are packed.
#[derive(Clone, Copy, PartialEq, Eq, Debug, Structural)]
pub enum FileKind {
    Plain,
    Gzip,
    Zip,
}

/// The packing that an object's name announces.
pub open spec fn kind_of_name(name: Seq<char>) -> FileKind {
    if has_suffix(name, ".gz"@) {
        FileKind::Gzip
    } else if has_suffix(name, ".zip"@) {
        FileKind::Zip
    } else {
        FileKind::Plain
    }
}

/// `.gz` names are gzip streams, `.zip` names are zip archives, anything else is plain text.
pub fn detect(name: &str) -> (r: FileKind)
    ensures
        r == kind_of_name(name@),
{
    let chars = chars_of(name);
    if ends_with(&chars, ".gz") {
        FileKind::Gzip
    } else if ends_with(&chars, ".zip") {
        FileKind::Zip
    } else {
        FileKind::Plain
    }
}

pub open spec fn is_cont(b: u8) -> bool {
    0x80 <= b && b <= 0xbf
}

/// Length of the UTF-8 sequence that a lead byte announces; 0 for a byte that cannot lead.
pub open spec fn lead_width(b: u8) -> nat {
    if b <= 0x7f {
        1
    } else if 0xc2 <= b && b <= 0xdf {
        2
    } else if 0xe0 <= b && b <= 0xef {
        3
    } else if 0xf0 <= b && b <= 0xf4 {
        4
    } else {
        0
    }
}

/// Whether `b1` may follow the lead byte `b0` (Unicode Table 3-7).
pub open spec fn second_ok(b0: u8, b1: u8) -> bool {
    if b0 == 0xe0 {
        0xa0 <= b1 && b1 <= 0xbf
    } else if b0 == 0xed {
        0x80 <= b1 && b1 <= 0x9f
    } else if b0 == 0xf0 {
        0x90 <= b1 && b1 <= 0xbf
    } else if b0 == 0xf4 {
        0x80 <= b1 && b1 <= 0x8f
    } else {
        is_cont(b1)
    }
}

pub open spec fn cp2(b0: u8, b1: u8) -> u32 {
    (((b0 & 0x1f) as u32) << 6) | ((b1 & 0x3f) as u32)
}

pub open spec fn cp3(b0: u8, b1: u8, b2: u8) -> u32 {
    (((b0 & 0x0f) as u32) << 12) | (((b1 & 0x3f) as u32) << 6) | ((b2 & 0x3f) as u32)
}

pub open spec fn cp4(b0: u8, b1: u8, b2: u8, b3: u8) -> u32 {
    (((b0 & 0x07) as u32) << 18) | (((b1 & 0x3f) as u32) << 12) | (((b2 & 0x3f) as u32) << 6)
        | ((b3 & 0x3f) as u32)
}

/// What the bytes at the front of `b` are: `(Some(code point), length)` for a
/// well-formed sequence, `(None, n)` for `n` bytes to drop.  An ill-formed
/// sequence drops as many bytes as `std::str::Utf8Error::error_len` reports;
/// a sequence cut short by the end of the input drops the rest of the input.
pub open spec fn utf8_front(b: Seq<u8>) -> (Option<u32>, nat)
    recommends
        b.len() > 0,
{
    let w = lead_width(b[0]);
    if w == 1 {
        (Some(b[0] as u32), 1)
    } else if w == 0 {
        (None, 1)
    } else if b.len() < 2 {
        (None, b.len())
    } else if !second_ok(b[0], b[1]) {
        (None, 1)
    } else if w == 2 {
        (Some(cp2(b[0], b[1])), 2)
    } else if b.len() < 3 {
        (None, b.len())
    } else if !is_cont(b[2]) {
        (None, 2)
    } else if w == 3 {
        (Some(cp3(b[0], b[1], b[2])), 3)
    } else if b.len() < 4 {
        (None, b.len())
    } else if !is_cont(b[3]) {
        (None, 3)
    } else {
        (Some(cp4(b[0], b[1], b[2], b[3])), 4)
    }
}

/// The text of `b` decoded as UTF-8, undecodable bytes dropped.
pub open spec fn decode_ignore_spec(b: Seq<u8>) -> Seq<char>
    decreases b.len(),
{
    if b.len() == 0 {
        Seq::empty()
    } else {
        let (c, n) = utf8_front(b);
        let rest = decode_ignore_spec(b.skip(n as int));
        match c {
            Some(cp) => seq![cp as char] + rest,
            None => rest,
        }
    }
}

pub open spec fn is_scalar_value(cp: u32) -> bool {
    cp < 0xd800 || (0xe000 <= cp && cp <= 0x10ffff)
}

/// `char::from_u32`: the character with code point `cp`, if there is one.
#[verifier::external_body]
fn char_from_u32(cp: u32) -> (r: Option<char>)
    ensures
        r is Some <==> is_scalar_value(cp),
        r matches Some(c) ==> c as u32 == cp,
{
    char::from_u32(cp)
}

proof fn lemma_front_is_scalar(b: Seq<u8>)
    requires
        b.len() > 0,
        utf8_front(b).0 is Some,
    ensures
        is_scalar_value(utf8_front(b).0->0),
        utf8_front(b).1 >= 1,
{
    let b0 = b[0];
    if lead_width(b0) == 2 {
        let b1 = b[1];
        assert(0xc2 <= b0 && b0 <= 0xdf && 0x80 <= b1 && b1 <= 0xbf ==> 0x80 <= cp2(b0, b1)
            && cp2(b0, b1) <= 0x7ff) by (bit_vector);
    } else if lead_width(b0) == 3 {
        let b1 = b[1];
        let b2 = b[2];
        assert(0xe0 <= b0 && b0 <= 0xef && second_ok(b0, b1) && 0x80 <= b2 && b2 <= 0xbf
            ==> cp3(b0, b1, b2) < 0xd800 || (0xe000 <= cp3(b0, b1, b2) && cp3(b0, b1, b2)
            <= 0xffff)) by (bit_vector);
    } else if lead_width(b0) == 4 {
        let b1 = b[1];
        let b2 = b[2];
        let b3 = b[3];
        assert(0xf0 <= b0 && b0 <= 0xf4 && second_ok(b0, b1) && 0x80 <= b2 && b2 <= 0xbf
            && 0x80 <= b3 && b3 <= 0xbf ==> 0x10000 <= cp4(b0, b1, b2, b3) && cp4(
            b0,
            b1,
            b2,
            b3,
        ) <= 0x10ffff) by (bit_vector);
    }
}

/// `utf8_front` of `data[i..]`, computed in place.
fn utf8_front_at(data: &[u8], i: usize) -> (r: (Option<u32>, usize))
    requires
        i < data@.len(),
    ensures
        (r.0, r.1 as nat) == utf8_front(data@.skip(i as int)),
{
    let ghost b = data@.skip(i as int);
    let len = data.len() - i;
    let b0 = data[i];
    assert(b[0] == b0);
    if b0 <= 0x7f {
        return (Some(b0 as u32), 1);
    }
    let w: usize = if 0xc2 <= b0 && b0 <= 0xdf {
        2
    } else if 0xe0 <= b0 && b0 <= 0xef {
        3
    } else if 0xf0 <= b0 && b0 <= 0xf4 {
        4
    } else {
        0
    };
    if w == 0 {
        return (None, 1);
    }
    if len < 2 {
        return (None, len);
    }
    let b1 = data[i + 1];
    assert(b[1] == b1);
    let ok1 = if b0 == 0xe0 {
        0xa0 <= b1 && b1 <= 0xbf
    } else if b0 == 0xed {
        0x80 <= b1 && b1 <= 0x9f
    } else if b0 == 0xf0 {
        0x90 <= b1 && b1 <= 0xbf
    } else if b0 == 0xf4 {
        0x80 <= b1 && b1 <= 0x8f
    } else {
        0x80 <= b1 && b1 <= 0xbf
    };
    if !ok1 {
        return (None, 1);
    }
    if w == 2 {
        return (Some((((b0 & 0x1f) as u32) << 6) | ((b1 & 0x3f) as u32)), 2);
    }
    if len < 3 {
        return (None, len);
    }
    let b2 = data[i + 2];
    assert(b[2] == b2);
    if !(0x80 <= b2 && b2 <= 0xbf) {
        return (None, 2);
    }
    if w == 3 {
        return (
            Some((((b0 & 0x0f) as u32) << 12) | (((b1 & 0x3f) as u32) << 6) | ((b2 & 0x3f) as u32)),
            3,
        );
    }
    if len < 4 {
        return (None, len);
    }
    let b3 = data[i + 3];
    assert(b[3] == b3);
    if !(0x80 <= b3 && b3 <= 0xbf) {
        return (None, 3);
    }
    (
        Some((((b0 & 0x07) as u32) << 18) | (((b1 & 0x3f) as u32) << 12) | (((b2 & 0x3f) as u32)
            << 6) | ((b3 & 0x3f) as u32)),
        4,
    )
}

/// Decodes `data` as UTF-8, dropping every byte that is not part of a
/// well-formed sequence (Python's `bytes.decode("utf-8", "ignore")`).
pub fn decode_ignore(data: &[u8]) -> (r: String)
    ensures
        r@ == decode_ignore_spec(data@),
{
    let mut out = String::new();
    let mut i: usize = 0;
    assert(data@.skip(0) == data@);
    while i < data.len()
        invariant
            i <= data@.len(),
            decode_ignore_spec(data@) == out@ + decode_ignore_spec(data@.skip(i as int)),
        decreases data@.len() - i,
    {
        let ghost b = data@.skip(i as int);
        let (cp, n) = utf8_front_at(data, i);
        proof {
            if cp is Some {
                lemma_front_is_scalar(b);
            }
            assert(b.skip(n as int) == data@.skip(i + n));
        }
        match cp {
            Some(cp) => {
                let c = char_from_u32(cp).unwrap();
                proof {
                    vstd::utf8::char_u32_cast(c, cp);
                }
                push_char(&mut out, c);
            },
            None => {},
        }
        i = i + n;
    }
    assert(data@.skip(i as int).len() == 0);
    out
}

} // verus!

verus! {

/// `s` with every `"\r\n"` pair replaced by `"\n"`, scanning left to right.
pub open spec fn collapse_crlf(s: Seq<char>) -> Seq<char>
    decreases s.len(),
{
    if s.len() == 0 {
        s
    } else if s.len() >= 2 && s[0] == '\r' && s[1] == '\n' {
        seq!['\n'] + collapse_crlf(s.skip(2))
    } else {
        seq![s[0]] + collapse_crlf(s.skip(1))
    }
}

/// `s` with every remaining `'\r'` turned into `'\n'`.
pub open spec fn cr_to_lf(s: Seq<char>) -> Seq<char> {
    s.map_values(|c: char| if c == '\r' { '\n' } else { c })
}

/// Universal-newline translation: `\r\n` becomes `\n`, then a lone `\r` becomes `\n`.
pub open spec fn normalize_newlines_spec(s: Seq<char>) -> Seq<char> {
    cr_to_lf(collapse_crlf(s))
}

/// Python's universal-newline translation, as reading in text mode applies it.
pub fn normalize_newlines(s: String) -> (r: String)
    ensures
        r@ == normalize_newlines_spec(s@),
{
    let chars = chars_of(s.as_str());
    let n = chars.len();
    let mut collapsed: Vec<char> = Vec::new();
    let mut i: usize = 0;
    assert(chars@.skip(0) == chars@);
    while i < n
        invariant
            n == chars@.len(),
            i <= n,
            collapse_crlf(chars@) == collapsed@ + collapse_crlf(chars@.skip(i as int)),
        decreases n - i,
    {
        let ghost rest = chars@.skip(i as int);
        if chars[i] == '\r' && i + 1 < n && chars[i + 1] == '\n' {
            collapsed.push('\n');
            assert(rest.skip(2) == chars@.skip(i + 2));
            assert(collapse_crlf(rest) == seq!['\n'] + collapse_crlf(rest.skip(2)));
            i = i + 2;
        } else {
            collapsed.push(chars[i]);
            assert(rest.skip(1) == chars@.skip(i + 1));
            assert(collapse_crlf(rest) == seq![rest[0]] + collapse_crlf(rest.skip(1)));
            i = i + 1;
        }
    }
    assert(chars@.skip(i as int).len() == 0);
    let mut out = String::new();
    let m = collapsed.len();
    for j in 0..m
        invariant
            m == collapsed@.len(),
            collapse_crlf(chars@) == collapsed@,
            out@ == cr_to_lf(collapsed@.take(j as int)),
    {
        let c = collapsed[j];
        push_char(&mut out, if c == '\r' { '\n' } else { c });
        assert(cr_to_lf(collapsed@.take(j + 1)) == cr_to_lf(collapsed@.take(j as int)).push(
            if c == '\r' { '\n' } else { c },
        ));
    }
    assert(collapsed@.take(m as int) == collapsed@);
    out
}

/// Length of the first line of `s`: up to and including the first `'\n'`, or all of `s`.
pub open spec fn first_line_len(s: Seq<char>) -> nat
    decreases s.len(),
{
    if s.len() == 0 {
        0
    } else if s[0] == '\n' {
        1
    } else {
        1 + first_line_len(s.skip(1))
    }
}

/// The lines of `s`, each keeping its `'\n'`; a last line without one is kept too.
pub open spec fn split_lines_spec(s: Seq<char>) -> Seq<Seq<char>>
    decreases s.len(),
{
    if s.len() == 0 {
        Seq::empty()
    } else {
        let k = first_line_len(s);
        if 1 <= k <= s.len() {
            seq![s.take(k as int)] + split_lines_spec(s.skip(k as int))
        } else {
            Seq::empty()
        }
    }
}

pub open spec fn views_of(v: Seq<String>) -> Seq<Seq<char>> {
    v.map_values(|x: String| x@)
}

proof fn lemma_first_line_len(s: Seq<char>, j: int)
    requires
        0 <= j <= s.len(),
        forall|t: int| 0 <= t < j ==> s[t] != '\n',
        j == s.len() || s[j] == '\n',
    ensures
        first_line_len(s) == if j == s.len() { j } else { j + 1 },
    decreases j,
{
    if j > 0 {
        lemma_first_line_len(s.skip(1), j - 1);
    }
}

/// Cuts `text` into lines, each keeping its trailing `'\n'`; a final line
/// without one is kept, and empty text gives no lines.
pub fn split_lines(text: &str) -> (r: Vec<String>)
    ensures
        views_of(r@) == split_lines_spec(text@),
{
    let chars = chars_of(text);
    let n = chars.len();
    let mut lines: Vec<String> = Vec::new();
    let mut start: usize = 0;
    assert(chars@.skip(0) == chars@);
    while start < n
        invariant
            n == chars@.len(),
            start <= n,
            split_lines_spec(chars@) == views_of(lines@) + split_lines_spec(chars@.skip(start as int)),
        decreases n - start,
    {
        let ghost rest = chars@.skip(start as int);
        let mut line = String::new();
        let mut j = start;
        while j < n && chars[j] != '\n'
            invariant
                n == chars@.len(),
                start <= j <= n,
                line@ == chars@.subrange(start as int, j as int),
                forall|t: int| start <= t < j ==> chars@[t] != '\n',
            decreases n - j,
        {
            push_char(&mut line, chars[j]);
            assert(chars@.subrange(start as int, j + 1) == chars@.subrange(start as int, j as int).push(chars@[j as int]));
            j = j + 1;
        }
        let ghost stop = j;
        proof {
            lemma_first_line_len(rest, stop - start);
        }
        if j < n {
            push_char(&mut line, '\n');
            assert(chars@.subrange(start as int, j + 1) == chars@.subrange(start as int, j as int).push(chars@[j as int]));
            j = j + 1;
        }
        assert(rest.take((j - start) as int) == line@);
        assert(rest.skip((j - start) as int) == chars@.skip(j as int));
        assert(views_of(lines@.push(line)) == views_of(lines@).push(line@));
        lines.push(line);
        start = j;
    }
    assert(chars@.skip(start as int).len() == 0);
    lines
}

} // verus!

verus! {

/// Why an object's bytes could not be turned into text.
#[derive(Clone, Copy, PartialEq, Eq, Debug, Structural)]
pub enum DecompressError {
    /// The gzip stream could not be inflated.
    Gzip,
    /// The zip archive, or one of its members, could not be read.
    Zip,
}

#[verifier::external_type_specification]
#[verifier::external_body]
#[verifier::reject_recursive_types(T)]
pub struct ExCursor<T>(std::io::Cursor<T>);

#[verifier::external_type_specification]
#[verifier::external_body]
#[verifier::reject_recursive_types(R)]
pub struct ExZipArchive<R>(zip::ZipArchive<R>);

/// An archive opened over an in-memory copy of its bytes.
pub type MemZip = zip::ZipArchive<std::io::Cursor<Vec<u8>>>;

/// What reading one member of a zip archive gave: whether the member is a
/// directory, and its inflated bytes (`None` when inflating failed).
pub struct ZipMember {
    pub is_dir: bool,
    pub contents: Option<Vec<u8>>,
}

/// One member as the archive yields it: `None` when the member could not be
/// located, else `(is a directory, Some(bytes) or None when inflating failed)`.
pub type ZipEntryModel = Option<(bool, Option<Seq<u8>>)>;

pub open spec fn member_model(m: Option<ZipMember>) -> ZipEntryModel {
    match m {
        None => None,
        Some(m) => Some(
            (
                m.is_dir,
                match m.contents {
                    Some(v) => Some(v@),
                    None => None,
                },
            ),
        ),
    }
}

/// What `flate2::read::GzDecoder` inflates `data` to, read to its end; `None` on a read error.
pub uninterp spec fn gunzip_result(data: Seq<u8>) -> Option<Seq<u8>>;

/// The members that `zip::ZipArchive::new` finds in `data`; `None` when it refuses the bytes.
pub uninterp spec fn zip_opened(data: Seq<u8>) -> Option<Seq<ZipEntryModel>>;

/// The members of an opened archive, in index order.
pub uninterp spec fn zip_members(archive: MemZip) -> Seq<ZipEntryModel>;

/// Inflates a gzip stream with `flate2::read::GzDecoder` and `read_to_end`;
/// the result is the one `gunzip_result` names for these bytes.
#[verifier::external_body]
fn gunzip(data: &[u8]) -> (r: Option<Vec<u8>>)
    ensures
        r is Some <==> gunzip_result(data@) is Some,
        r matches Some(v) ==> v@ == gunzip_result(data@)->0,
{
    let mut decoder = flate2::read::GzDecoder::new(data);
    let mut buf = Vec::new();
    match std::io::Read::read_to_end(&mut decoder, &mut buf) {
        Ok(_) => Some(buf),
        Err(_) => None,
    }
}

/// Opens a zip archive over a copy of `data` with `zip::ZipArchive::new`;
/// its members are the ones `zip_opened` names for these bytes.
#[verifier::external_body]
fn open_zip(data: &[u8]) -> (r: Option<MemZip>)
    ensures
        r is Some <==> zip_opened(data@) is Some,
        r matches Some(a) ==> zip_members(a) == zip_opened(data@)->0,
{
    zip::ZipArchive::new(std::io::Cursor::new(data.to_vec())).ok()
}

/// `zip::ZipArchive::len`: the number of members.
#[verifier::external_body]
fn zip_len(archive: &MemZip) -> (r: usize)
    ensures
        r == zip_members(*archive).len(),
{
    archive.len()
}

/// `zip::ZipArchive::by_index` followed by `ZipFile::is_dir` and `read_to_end`:
/// member `i` as `zip_members` names it; the archive's members do not change.
#[verifier::external_body]
fn read_zip_member(archive: &mut MemZip, i: usize) -> (r: Option<ZipMember>)
    requires
        i < zip_members(*old(archive)).len(),
    ensures
        zip_members(*final(archive)) == zip_members(*old(archive)),
        member_model(r) == zip_members(*old(archive))[i as int],
{
    match archive.by_index(i) {
        Ok(mut file) => {
            let is_dir = file.is_dir();
            let mut buf = Vec::new();
            let contents = match std::io::Read::read_to_end(&mut file, &mut buf) {
                Ok(_) => Some(buf),
                Err(_) => None,
            };
            Some(ZipMember { is_dir, contents })
        },
        Err(_) => None,
    }
}

/// The text of raw object bytes: decoded ignoring bad UTF-8, newlines normalised.
pub open spec fn text_of(b: Seq<u8>) -> Seq<char> {
    normalize_newlines_spec(decode_ignore_spec(b))
}

/// The texts of the members `es`, skipping directories; the first member
/// that cannot be located or inflated makes the whole archive fail.
pub open spec fn zip_texts(es: Seq<ZipEntryModel>) -> Result<Seq<Seq<char>>, DecompressError>
    decreases es.len(),
{
    if es.len() == 0 {
        Ok(Seq::empty())
    } else {
        match zip_texts(es.drop_last()) {
            Err(e) => Err(e),
            Ok(prev) => match es.last() {
                None => Err(DecompressError::Zip),
                Some((true, _)) => Ok(prev),
                Some((false, Some(b))) => Ok(prev.push(text_of(b))),
                Some((false, None)) => Err(DecompressError::Zip),
            },
        }
    }
}

/// The texts that an object of the given packing holds.
pub open spec fn texts_spec(data: Seq<u8>, kind: FileKind) -> Result<Seq<Seq<char>>, DecompressError> {
    match kind {
        FileKind::Plain => Ok(seq![text_of(data)]),
        FileKind::Gzip => match gunzip_result(data) {
            Some(b) => Ok(seq![text_of(b)]),
            None => Err(DecompressError::Gzip),
        },
        FileKind::Zip => match zip_opened(data) {
            Some(es) => zip_texts(es),
            None => Err(DecompressError::Zip),
        },
    }
}

pub open spec fn texts_match(r: Result<Vec<String>, DecompressError>, s: Result<Seq<Seq<char>>, DecompressError>) -> bool {
    match r {
        Ok(v) => s == Ok::<Seq<Seq<char>>, DecompressError>(views_of(v@)),
        Err(e) => s == Err::<Seq<Seq<char>>, DecompressError>(e),
    }
}

/// The texts inside an object: one for plain and gzip objects, one per
/// non-directory member for zip archives.
pub fn texts(data: &[u8], kind: FileKind) -> (r: Result<Vec<String>, DecompressError>)
    ensures
        texts_match(r, texts_spec(data@, kind)),
{
    match kind {
        FileKind::Plain => {
            let t = normalize_newlines(decode_ignore(data));
            let mut v: Vec<String> = Vec::new();
            v.push(t);
            assert(views_of(v@) == seq![text_of(data@)]);
            Ok(v)
        },
        FileKind::Gzip => match gunzip(data) {
            Some(buf) => {
                let t = normalize_newlines(decode_ignore(buf.as_slice()));
                let mut v: Vec<String> = Vec::new();
                v.push(t);
                assert(views_of(v@) == seq![text_of(buf@)]);
                Ok(v)
            },
            None => Err(DecompressError::Gzip),
        },
        FileKind::Zip => {
            let mut archive = match open_zip(data) {
                Some(a) => a,
                None => {
                    return Err(DecompressError::Zip);
                },
            };
            let ghost es = zip_members(archive);
            let n = zip_len(&archive);
            let mut out: Vec<String> = Vec::new();
            assert(es.take(0) =~= Seq::<ZipEntryModel>::empty());
            assert(views_of(out@) =~= Seq::<Seq<char>>::empty());
            for i in 0..n
                invariant
                    n == es.len(),
                    kind == FileKind::Zip,
                    zip_members(archive) == es,
                    zip_opened(data@) == Some(es),
                    zip_texts(es.take(i as int)) == Ok::<Seq<Seq<char>>, DecompressError>(views_of(out@)),
            {
                let member = read_zip_member(&mut archive, i);
                assert(es.take(i + 1).drop_last() == es.take(i as int));
                assert(es.take(i + 1).last() == es[i as int]);
                match member {
                    None => {
                        assert(es[i as int] is None);
                        assert(zip_texts(es.take(i + 1)) == Err::<Seq<Seq<char>>, DecompressError>(DecompressError::Zip));
                        proof { lemma_zip_texts_err_extends(es, i as int + 1); }
                        return Err(DecompressError::Zip);
                    },
                    Some(m) => {
                        if !m.is_dir {
                            match m.contents {
                                Some(bytes) => {
                                    let t = normalize_newlines(decode_ignore(bytes.as_slice()));
                                    assert(views_of(out@.push(t)) == views_of(out@).push(t@));
                                    out.push(t);
                                },
                                None => {
                                    assert(es[i as int] == Some((false, None::<Seq<u8>>)));
                                    assert(zip_texts(es.take(i + 1)) == Err::<Seq<Seq<char>>, DecompressError>(DecompressError::Zip));
                                    proof { lemma_zip_texts_err_extends(es, i as int + 1); }
                                    return Err(DecompressError::Zip);
                                },
                            }
                        }
                    },
                }
            }
            assert(es.take(n as int) == es);
            Ok(out)
        },
    }
}

proof fn lemma_zip_texts_err_extends(es: Seq<ZipEntryModel>, k: int)
    requires
        0 <= k <= es.len(),
        zip_texts(es.take(k)) is Err,
    ensures
        zip_texts(es) == zip_texts(es.take(k)),
    decreases es.len() - k,
{
    if k < es.len() {
        assert(es.take(k + 1).drop_last() == es.take(k));
        lemma_zip_texts_err_extends(es, k + 1);
    } else {
        assert(es.take(k) == es);
    }
}


proof fn lemma_valid_front(b: Seq<u8>)
    requires
        b.len() > 0,
        vstd::utf8::valid_first_scalar(b),
    ensures
        utf8_front(b) == (Some(vstd::utf8::decode_first_scalar(b)), vstd::utf8::length_of_first_scalar(b) as nat),
{
    let b0 = b[0];
    if b0 <= 0x7f {
        assert((b0 & 0x7f) as u32 == b0 as u32) by (bit_vector)
            requires b0 <= 0x7f;
    } else if 0xc0 <= b0 && b0 <= 0xdf {
        let b1 = b[1];
        assert(0xc0 <= b0 && b0 <= 0xdf && 0x80 <= b1 && b1 <= 0xbf && 0x80 <= ((((b0 & 0x1f) as u32) << 6) | ((b1 & 0x3f) as u32)) ==> 0xc2 <= b0) by (bit_vector);
    } else if 0xe0 <= b0 && b0 <= 0xef {
        let b1 = b[1];
        let b2 = b[2];
        assert(0xe0 <= b0 && b0 <= 0xef && 0x80 <= b1 && b1 <= 0xbf && 0x80 <= b2 && b2 <= 0xbf && 0x800 <= cp3(b0, b1, b2) && !(0xd800 <= cp3(b0, b1, b2) && cp3(b0, b1, b2) <= 0xdfff) ==> second_ok(b0, b1)) by (bit_vector);
    } else {
        let b1 = b[1];
        let b2 = b[2];
        let b3 = b[3];
        assert(0xf0 <= b0 && b0 <= 0xf7 && 0x80 <= b1 && b1 <= 0xbf && 0x80 <= b2 && b2 <= 0xbf && 0x80 <= b3 && b3 <= 0xbf && 0x10000 <= cp4(b0, b1, b2, b3) && cp4(b0, b1, b2, b3) <= 0x10ffff ==> b0 <= 0xf4 && second_ok(b0, b1)) by (bit_vector);
    }
}

/// Well-formed UTF-8 loses nothing: its decoding with undecodable bytes
/// dropped is its ordinary decoding.
pub proof fn law_decode_ignore_valid(b: Seq<u8>)
    requires
        vstd::utf8::valid_utf8(b),
    ensures
        decode_ignore_spec(b) == vstd::utf8::decode_utf8(b),
    decreases b.len(),
{
    if b.len() > 0 {
        lemma_valid_front(b);
        let n = vstd::utf8::length_of_first_scalar(b);
        assert(vstd::utf8::pop_first_scalar(b) == b.skip(n));
        law_decode_ignore_valid(b.skip(n));
    }
}

/// Decoding the UTF-8 encoding of a text gives the text back.
pub proof fn law_decode_ignore_roundtrip(s: Seq<char>)
    ensures
        decode_ignore_spec(vstd::utf8::encode_utf8(s)) == s,
{
    vstd::utf8::encode_utf8_valid_utf8(s);
    vstd::utf8::encode_utf8_decode_utf8(s);
    law_decode_ignore_valid(vstd::utf8::encode_utf8(s));
}

proof fn lemma_collapse_crlf_no_cr(s: Seq<char>)
    requires
        forall|i: int| 0 <= i < s.len() ==> s[i] != '\r',
    ensures
        collapse_crlf(s) == s,
    decreases s.len(),
{
    if s.len() > 0 {
        lemma_collapse_crlf_no_cr(s.skip(1));
        assert(seq![s[0]] + s.skip(1) == s);
    }
}

/// After newline normalisation no `'\r'` is left.
pub proof fn law_normalized_has_no_cr(s: Seq<char>)
    ensures
        forall|i: int| 0 <= i < normalize_newlines_spec(s).len() ==> normalize_newlines_spec(s)[i] != '\r',
{
}

/// Text without `'\r'` is left as it is by newline normalisation.
pub proof fn law_normalize_without_cr(s: Seq<char>)
    requires
        forall|i: int| 0 <= i < s.len() ==> s[i] != '\r',
    ensures
        normalize_newlines_spec(s) == s,
{
    lemma_collapse_crlf_no_cr(s);
    assert(cr_to_lf(s) =~= s);
}

/// Newline normalisation is idempotent.
pub proof fn law_normalize_idempotent(s: Seq<char>)
    ensures
        normalize_newlines_spec(normalize_newlines_spec(s)) == normalize_newlines_spec(s),
{
    law_normalized_has_no_cr(s);
    law_normalize_without_cr(normalize_newlines_spec(s));
}

/// The members of `ss`, concatenated.
pub open spec fn concat(ss: Seq<Seq<char>>) -> Seq<char>
    decreases ss.len(),
{
    if ss.len() == 0 {
        Seq::empty()
    } else {
        ss[0] + concat(ss.skip(1))
    }
}

proof fn lemma_first_line_len_bounds(s: Seq<char>)
    requires
        s.len() > 0,
    ensures
        1 <= first_line_len(s) <= s.len(),
        forall|i: int| 0 <= i < first_line_len(s) - 1 ==> s[i] != '\n',
        first_line_len(s) < s.len() ==> s[first_line_len(s) - 1] == '\n',
    decreases s.len(),
{
    if s[0] != '\n' {
        if s.len() > 1 {
            lemma_first_line_len_bounds(s.skip(1));
            assert forall|i: int| 0 < i < first_line_len(s) - 1 implies s[i] != '\n' by {
                assert(s[i] == s.skip(1)[i - 1]);
            }
        } else {
            assert(first_line_len(s.skip(1)) == 0);
        }
    }
}

/// Cutting text into lines loses nothing: the lines put back together are
/// the text; every line is non-empty, holds `'\n'` only as its last
/// character, and every line but the last ends with one.
pub proof fn law_split_lines_lossless(s: Seq<char>)
    ensures
        concat(split_lines_spec(s)) == s,
        forall|i: int| 0 <= i < split_lines_spec(s).len() ==> #[trigger] split_lines_spec(s)[i].len() > 0,
        forall|i: int, j: int| 0 <= i < split_lines_spec(s).len() && 0 <= j < split_lines_spec(s)[i].len() - 1 ==> split_lines_spec(s)[i][j] != '\n',
        forall|i: int| 0 <= i < split_lines_spec(s).len() - 1 ==> #[trigger] split_lines_spec(s)[i].last() == '\n',
    decreases s.len(),
{
    if s.len() > 0 {
        lemma_first_line_len_bounds(s);
        let k = first_line_len(s);
        let rest = s.skip(k as int);
        law_split_lines_lossless(rest);
        let ls = split_lines_spec(s);
        assert(ls == seq![s.take(k as int)] + split_lines_spec(rest));
        assert(ls.skip(1) == split_lines_spec(rest));
        assert(s.take(k as int) + rest == s);
        assert forall|i: int| 0 <= i < ls.len() - 1 implies #[trigger] ls[i].last() == '\n' by {
            if i > 0 {
                assert(ls[i] == split_lines_spec(rest)[i - 1]);
            } else {
                if k == s.len() {
                    assert(split_lines_spec(rest).len() == 0);
                }
            }
        }
        assert forall|i: int, j: int| 0 <= i < ls.len() && 0 <= j < ls[i].len() - 1 implies ls[i][j] != '\n' by {
            if i > 0 {
                assert(ls[i] == split_lines_spec(rest)[i - 1]);
            }
        }
        assert forall|i: int| 0 <= i < ls.len() implies #[trigger] ls[i].len() > 0 by {
            if i > 0 {
                assert(ls[i] == split_lines_spec(rest)[i - 1]);
            }
        }
    }
}

/// The front of `a + [c] + b`, for a byte `c` that cannot continue a
/// sequence, is read from `a` alone: no sequence, well-formed or not,
/// reaches across such a byte.
proof fn lemma_front_stops_before(a: Seq<u8>, c: u8, b: Seq<u8>)
    requires
        a.len() > 0,
        !is_cont(c),
    ensures
        utf8_front(a + seq![c] + b) == utf8_front(a),
        1 <= utf8_front(a).1 <= a.len(),
{
    let x = a + seq![c] + b;
    assert forall|i: int| 0 <= i < a.len() implies x[i] == a[i] by {}
    assert(x[a.len() as int] == c);
    assert(forall|b0: u8| !second_ok(b0, c));
    if a.len() >= 2 {
        assert(x[1] == a[1]);
    }
    if a.len() >= 3 {
        assert(x[2] == a[2]);
    }
    if a.len() >= 4 {
        assert(x[3] == a[3]);
    }
}

/// Undecodable bytes are dropped only up to the next byte that cannot
/// continue a sequence (an ASCII byte or a lead byte): decoding starts afresh
/// there, so the text of `a + [c] + b` is the text of `a` followed by the
/// text of `[c] + b`.
pub proof fn law_decode_restarts_at_non_continuation(a: Seq<u8>, c: u8, b: Seq<u8>)
    requires
        !is_cont(c),
    ensures
        decode_ignore_spec(a + seq![c] + b) == decode_ignore_spec(a) + decode_ignore_spec(seq![c] + b),
    decreases a.len(),
{
    let x = a + seq![c] + b;
    if a.len() == 0 {
        assert(x == seq![c] + b);
        assert(decode_ignore_spec(a) == Seq::<char>::empty());
    } else {
        lemma_front_stops_before(a, c, b);
        let n = utf8_front(a).1 as int;
        assert(x.skip(n) == a.skip(n) + seq![c] + b);
        law_decode_restarts_at_non_continuation(a.skip(n), c, b);
    }
}

/// Dropping undecodable bytes never drops an ASCII byte: the text of
/// `a + [c] + b` is the text of `a`, then `c`, then the text of `b`.
pub proof fn law_decode_keeps_ascii(a: Seq<u8>, c: u8, b: Seq<u8>)
    requires
        c < 0x80,
    ensures
        decode_ignore_spec(a + seq![c] + b) == decode_ignore_spec(a) + seq![(c as u32) as char] + decode_ignore_spec(b),
{
    law_decode_restarts_at_non_continuation(a, c, b);
    let y = seq![c] + b;
    assert(y[0] == c);
    assert(y.skip(1) == b);
}

} // verus!
