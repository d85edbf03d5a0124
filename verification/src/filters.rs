//! Which listed objects are searched: modification-time window, size cap and
//! name keyword; and the date forms a window bound may be given in.

use vstd::prelude::*;
use crate::text::{chars_of, contains_chars, contains_seq};

verus! {

/// An instant as whole seconds since the Unix epoch (UTC) and the nanoseconds into that second.
#[derive(Clone, Copy, PartialEq, Eq, Debug, Structural)]
pub struct Timestamp {
    pub secs: i64,
    pub nanos: u32,
}

/// Whether `a` is strictly earlier than `b`.
pub open spec fn earlier(a: Timestamp, b: Timestamp) -> bool {
    a.secs < b.secs || (a.secs == b.secs && a.nanos < b.nanos)
}

impl Timestamp {
    /// Whether `self` is strictly earlier than `other`.
    pub fn is_before(&self, other: &Timestamp) -> (r: bool)
        ensures
            r == earlier(*self, *other),
    {
        self.secs < other.secs || (self.secs == other.secs && self.nanos < other.nanos)
    }
}

/// What a listing says of one object.
#[derive(Clone, Debug)]
pub struct ObjectMeta {
    pub key: String,
    pub size: i64,
    pub last_modified: Option<Timestamp>,
}

/// The listing filters of one search.
#[derive(Clone, Debug)]
pub struct Filters {
    /// Keep only objects whose key contains this.
    pub key_contains: Option<String>,
    /// Keep only objects modified at or after this.
    pub from_date: Option<Timestamp>,
    /// Keep only objects modified at or before this.
    pub to_date: Option<Timestamp>,
    /// Largest object size kept, when sizes are checked.
    pub max_size: i64,
    /// Whether sizes are checked (Google Cloud listings never check them).
    pub check_size: bool,
}

impl Default for Filters {
    fn default() -> (r: Filters)
        ensures
            r.key_contains is None,
            r.from_date is None,
            r.to_date is None,
            r.max_size == 0,
            !r.check_size,
    {
        Filters { key_contains: None, from_date: None, to_date: None, max_size: 0, check_size: false }
    }
}

/// Whether the filters keep the object: a known modification time must lie
/// within the window (an unknown one passes), a checked size must be neither
/// 0 nor above the cap, and the key must contain the keyword.
pub open spec fn accepts(f: Filters, o: ObjectMeta) -> bool {
    &&& match o.last_modified {
        Some(lm) => {
            &&& match f.from_date {
                Some(from) => !earlier(lm, from),
                None => true,
            }
            &&& match f.to_date {
                Some(to) => !earlier(to, lm),
                None => true,
            }
        },
        None => true,
    }
    &&& !(f.check_size && (o.size == 0 || o.size > f.max_size))
    &&& match f.key_contains {
        Some(kc) => contains_seq(o.key@, kc@),
        None => true,
    }
}

impl Filters {
    /// Whether the object passes every filter.
    pub fn matches(&self, obj: &ObjectMeta) -> (r: bool)
        ensures
            r == accepts(*self, *obj),
    {
        if let Some(lm) = &obj.last_modified {
            if let Some(from) = &self.from_date {
                if lm.is_before(from) {
                    return false;
                }
            }
            if let Some(to) = &self.to_date {
                if to.is_before(lm) {
                    return false;
                }
            }
        }
        if self.check_size && (obj.size == 0 || obj.size > self.max_size) {
            return false;
        }
        if let Some(kc) = &self.key_contains {
            let key = chars_of(obj.key.as_str());
            let needle = chars_of(kc.as_str());
            if !contains_chars(&key, &needle) {
                return false;
            }
        }
        true
    }
}

impl Filters {
    /// The filters a Google Cloud Storage listing is held to: the same
    /// keyword and window, but sizes are never checked there.
    pub fn for_google(&self) -> (r: Filters)
        ensures
            r == (Filters { check_size: false, ..*self }),
    {
        Filters {
            key_contains: match &self.key_contains {
                Some(k) => Some(k.clone()),
                None => None,
            },
            from_date: self.from_date,
            to_date: self.to_date,
            max_size: self.max_size,
            check_size: false,
        }
    }
}

/// The instant `chrono::DateTime::parse_from_rfc3339` reads from `s`; `None` when it fails.
pub uninterp spec fn rfc3339_instant(s: Seq<char>) -> Option<Timestamp>;

/// The instant, taken as UTC, that `chrono::NaiveDateTime::parse_from_str` reads from
/// `s` with format `fmt`; `None` when it fails.
pub uninterp spec fn naive_datetime_instant(s: Seq<char>, fmt: Seq<char>) -> Option<Timestamp>;

/// Midnight UTC of the day that `chrono::NaiveDate::parse_from_str` reads from `s`
/// with format `fmt`; `None` when it fails.
pub uninterp spec fn naive_date_instant(s: Seq<char>, fmt: Seq<char>) -> Option<Timestamp>;

/// `chrono::DateTime::parse_from_rfc3339`, the result as seconds and nanoseconds of
/// its instant; the contract claims the result is the one `rfc3339_instant` names.
#[verifier::external_body]
fn parse_rfc3339(s: &str) -> (r: Option<Timestamp>)
    ensures
        r == rfc3339_instant(s@),
{
    match chrono::DateTime::parse_from_rfc3339(s) {
        Ok(dt) => Some(Timestamp { secs: dt.timestamp(), nanos: dt.timestamp_subsec_nanos() }),
        Err(_) => None,
    }
}

/// `chrono::NaiveDateTime::parse_from_str`, read as UTC (`and_utc`); the contract
/// claims the result is the one `naive_datetime_instant` names.
#[verifier::external_body]
fn parse_naive_datetime(s: &str, fmt: &str) -> (r: Option<Timestamp>)
    ensures
        r == naive_datetime_instant(s@, fmt@),
{
    match chrono::NaiveDateTime::parse_from_str(s, fmt) {
        Ok(ndt) => {
            let dt = ndt.and_utc();
            Some(Timestamp { secs: dt.timestamp(), nanos: dt.timestamp_subsec_nanos() })
        },
        Err(_) => None,
    }
}

/// `chrono::NaiveDate::parse_from_str`, at 00:00:00 UTC (`and_hms_opt(0, 0, 0)`,
/// which always exists, then `and_utc`); the contract claims the result is the
/// one `naive_date_instant` names.
#[verifier::external_body]
fn parse_naive_date(s: &str, fmt: &str) -> (r: Option<Timestamp>)
    ensures
        r == naive_date_instant(s@, fmt@),
{
    match chrono::NaiveDate::parse_from_str(s, fmt) {
        Ok(nd) => match nd.and_hms_opt(0, 0, 0) {
            Some(ndt) => {
                let dt = ndt.and_utc();
                Some(Timestamp { secs: dt.timestamp(), nanos: dt.timestamp_subsec_nanos() })
            },
            None => None,
        },
        Err(_) => None,
    }
}

/// The instant a date argument denotes: the first of RFC 3339,
/// `YYYY-MM-DDTHH:MM:SS`, `YYYY-MM-DD HH:MM:SS` (both UTC) and `YYYY-MM-DD`
/// (midnight UTC) that reads it.
pub open spec fn date_spec(s: Seq<char>) -> Option<Timestamp> {
    match rfc3339_instant(s) {
        Some(t) => Some(t),
        None => match naive_datetime_instant(s, "%Y-%m-%dT%H:%M:%S"@) {
            Some(t) => Some(t),
            None => match naive_datetime_instant(s, "%Y-%m-%d %H:%M:%S"@) {
                Some(t) => Some(t),
                None => naive_date_instant(s, "%Y-%m-%d"@),
            },
        },
    }
}

/// Reads a date argument; a string in none of the forms gives the error
/// `could not parse date: <s>`.
pub fn parse_date(s: &str) -> (r: Result<Timestamp, String>)
    ensures
        r is Ok <==> date_spec(s@) is Some,
        r matches Ok(t) ==> date_spec(s@) == Some(t),
        r matches Err(m) ==> m@ == "could not parse date: "@ + s@,
{
    if let Some(t) = parse_rfc3339(s) {
        return Ok(t);
    }
    if let Some(t) = parse_naive_datetime(s, "%Y-%m-%dT%H:%M:%S") {
        return Ok(t);
    }
    if let Some(t) = parse_naive_datetime(s, "%Y-%m-%d %H:%M:%S") {
        return Ok(t);
    }
    if let Some(t) = parse_naive_date(s, "%Y-%m-%d") {
        return Ok(t);
    }
    let mut m = String::from_str("could not parse date: ");
    m.append(s);
    Err(m)
}

/// Filters that set no keyword, no window and no size check keep every object.
pub proof fn law_unset_filters_keep_all(f: Filters, o: ObjectMeta)
    requires
        f.key_contains is None,
        f.from_date is None,
        f.to_date is None,
        !f.check_size,
    ensures
        accepts(f, o),
{
}

/// When sizes are checked, an empty object and one above the cap are never
/// kept, whatever the other filters say.
pub proof fn law_size_cap(f: Filters, o: ObjectMeta)
    requires
        f.check_size,
        o.size == 0 || o.size > f.max_size,
    ensures
        !accepts(f, o),
{
}

/// An object modified outside a window (known time, before its start or
/// after its end) is never kept; both ends of the window are inclusive.
pub proof fn law_window(f: Filters, o: ObjectMeta, lm: Timestamp)
    requires
        o.last_modified == Some(lm),
    ensures
        f.from_date matches Some(from) && earlier(lm, from) ==> !accepts(f, o),
        f.to_date matches Some(to) && earlier(to, lm) ==> !accepts(f, o),
        accepts((Filters { from_date: Some(lm), to_date: Some(lm), ..f }), o) == accepts(
            (Filters { from_date: None, to_date: None, ..f }),
            o,
        ),
{
}

/// The keyword filter keeps exactly the objects whose key contains the
/// keyword somewhere (at its start, its end or in between), when nothing
/// else rules the object out.
pub proof fn law_keyword_anywhere(f: Filters, o: ObjectMeta, k: String)
    requires
        f.key_contains == Some(k),
        f.from_date is None,
        f.to_date is None,
        !f.check_size || (1 <= o.size <= f.max_size),
    ensures
        accepts(f, o) <==> exists|i: int| 0 <= i && i + k@.len() <= o.key@.len() && #[trigger] o.key@.subrange(i, i + k@.len()) == k@,
        o.key@.len() >= k@.len() && o.key@.subrange(o.key@.len() - k@.len(), o.key@.len() as int) == k@ ==> accepts(f, o),
        o.key@.len() >= k@.len() && o.key@.subrange(0, k@.len() as int) == k@ ==> accepts(f, o),
{
    if o.key@.len() >= k@.len() && o.key@.subrange(o.key@.len() - k@.len(), o.key@.len() as int) == k@ {
        let i = o.key@.len() - k@.len();
        assert(o.key@.subrange(i, i + k@.len()) == k@);
    }
    if o.key@.len() >= k@.len() && o.key@.subrange(0, k@.len() as int) == k@ {
        assert(o.key@.subrange(0int, 0int + k@.len()) == k@);
    }
}

} // verus!
