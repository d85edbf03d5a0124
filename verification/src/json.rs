//! The JSON values that log parsing produces and output formatting renders.

use vstd::prelude::*;
use crate::text::{chars_of, piece_len};

verus! {

/// A JSON number as the parser delivered it.
#[derive(Debug, PartialEq)]
pub enum JsonNumber {
    /// A non-negative integer.
    PosInt(u64),
    /// A negative integer.
    NegInt(i64),
    /// A floating-point number, held as the `{:e}` rendering of the parsed
    /// `f64`: its shortest round-trip digits in scientific form, such as
    /// `1.5e-7` or `0e0`.
    Float(FloatText),
}

/// The text of a float: always in the `{:e}` shape of a finite `f64`
/// (`sci_shape`), which `FloatText::new` checks.
#[derive(Debug, PartialEq)]
pub struct FloatText {
    text: String,
}

impl View for FloatText {
    type V = Seq<char>;

    closed spec fn view(&self) -> Seq<char> {
        self.text@
    }
}

impl FloatText {
    #[verifier::type_invariant]
    spec fn well_shaped(self) -> bool {
        sci_shape(self.text@)
    }

    /// Takes `text` as a float's text when it has the `{:e}` shape.
    pub fn new(text: String) -> (r: Option<FloatText>)
        ensures
            r is Some <==> sci_shape(text@),
            r matches Some(f) ==> f@ == text@,
    {
        let c = chars_of(text.as_str());
        if crate::pyjson::sci_parts(&c).is_some() {
            Some(FloatText { text })
        } else {
            None
        }
    }

    /// The text, which has the `{:e}` shape.
    pub fn as_str(&self) -> (r: &str)
        ensures
            r@ == self@,
            sci_shape(self@),
    {
        proof {
            use_type_invariant(self);
        }
        self.text.as_str()
    }
}

/// A JSON value; object members keep their insertion order.
#[derive(Debug, PartialEq)]
pub enum JsonValue {
    Null,
    Bool(bool),
    Number(JsonNumber),
    String(String),
    Array(Vec<JsonValue>),
    Object(Vec<(String, JsonValue)>),
}

/// Mathematical model of a JSON number.
pub enum NumberModel {
    PosInt(u64),
    NegInt(i64),
    Float(Seq<char>),
}

/// Mathematical model of a JSON value.
pub enum JsonModel {
    Null,
    Bool(bool),
    Number(NumberModel),
    Str(Seq<char>),
    Array(Seq<JsonModel>),
    Object(Seq<(Seq<char>, JsonModel)>),
}

impl View for JsonNumber {
    type V = NumberModel;

    open spec fn view(&self) -> NumberModel {
        match self {
            JsonNumber::PosInt(n) => NumberModel::PosInt(*n),
            JsonNumber::NegInt(n) => NumberModel::NegInt(*n),
            JsonNumber::Float(t) => NumberModel::Float(t@),
        }
    }
}

/// The model of a JSON value: strings by their characters, arrays and
/// objects by the models of their elements.
pub open spec fn model_of(v: JsonValue) -> JsonModel
    decreases v,
{
    match v {
        JsonValue::Null => JsonModel::Null,
        JsonValue::Bool(b) => JsonModel::Bool(b),
        JsonValue::Number(n) => JsonModel::Number(n@),
        JsonValue::String(s) => JsonModel::Str(s@),
        JsonValue::Array(items) => JsonModel::Array(items_model(items@)),
        JsonValue::Object(members) => JsonModel::Object(members_model(members@)),
    }
}

/// The models of array elements.
pub open spec fn items_model(items: Seq<JsonValue>) -> Seq<JsonModel>
    decreases items,
{
    Seq::new(items.len(), |i: int| if 0 <= i < items.len() { model_of(items[i]) } else { JsonModel::Null })
}

/// The models of object members.
pub open spec fn members_model(members: Seq<(String, JsonValue)>) -> Seq<(Seq<char>, JsonModel)>
    decreases members,
{
    Seq::new(
        members.len(),
        |i: int|
            if 0 <= i < members.len() {
                (members[i].0@, model_of(members[i].1))
            } else {
                (Seq::empty(), JsonModel::Null)
            },
    )
}

/// Whether `c` is an ASCII decimal digit.
pub open spec fn is_digit(c: char) -> bool {
    '0' <= c && c <= '9'
}

pub open spec fn all_digits(s: Seq<char>) -> bool {
    forall|i: int| 0 <= i < s.len() ==> is_digit(#[trigger] s[i])
}

/// The number the decimal digits `s` spell.
pub open spec fn digits_value(s: Seq<char>) -> nat
    decreases s.len(),
{
    if s.len() == 0 {
        0
    } else {
        digits_value(s.drop_last()) * 10 + ((s.last() as int) - 48) as nat
    }
}

/// 1 when `t` starts with `-`, else 0.
pub open spec fn sign_len(t: Seq<char>) -> int {
    if t.len() > 0 && t[0] == '-' {
        1
    } else {
        0
    }
}

/// Position of the first `e` after the sign (`t.len()` when there is none).
pub open spec fn e_index(t: Seq<char>) -> int {
    sign_len(t) + piece_len(t.skip(sign_len(t)), 'e')
}

/// The digits and point before the `e`.
pub open spec fn mantissa(t: Seq<char>) -> Seq<char> {
    t.subrange(sign_len(t), e_index(t))
}

/// Whether the exponent after the `e` is negative.
pub open spec fn exp_negative(t: Seq<char>) -> bool {
    let x = t.skip(e_index(t) + 1);
    x.len() > 0 && x[0] == '-'
}

/// The digits of the exponent.
pub open spec fn exp_digits(t: Seq<char>) -> Seq<char> {
    let x = t.skip(e_index(t) + 1);
    if exp_negative(t) {
        x.skip(1)
    } else {
        x
    }
}

/// The shape of Rust's `{:e}` rendering of a finite `f64`: an optional `-`,
/// one digit, optionally `.` and more digits, `e`, an optional `-`, and one
/// to three exponent digits without a leading zero.
pub open spec fn sci_shape(t: Seq<char>) -> bool {
    let m = mantissa(t);
    let x = exp_digits(t);
    &&& e_index(t) < t.len()
    &&& m.len() >= 1
    &&& is_digit(m[0])
    &&& (m.len() == 1 || (m.len() >= 3 && m[1] == '.' && all_digits(m.skip(2))))
    &&& 1 <= x.len() <= 3
    &&& all_digits(x)
    &&& (x.len() == 1 || x[0] != '0')
}

/// The significant digits of a float text, without the point.
pub open spec fn sci_digits(t: Seq<char>) -> Seq<char> {
    let m = mantissa(t);
    if m.len() == 1 {
        m
    } else {
        seq![m[0]] + m.skip(2)
    }
}

/// The decimal exponent of a float text.
pub open spec fn sci_exponent(t: Seq<char>) -> int {
    if exp_negative(t) {
        -(digits_value(exp_digits(t)) as int)
    } else {
        digits_value(exp_digits(t)) as int
    }
}

/// Whether every float inside `v` is held in the `{:e}` shape.
pub open spec fn floats_well_formed(v: JsonModel) -> bool
    decreases v,
{
    match v {
        JsonModel::Number(NumberModel::Float(t)) => sci_shape(t),
        JsonModel::Array(items) => items_floats_well_formed(items),
        JsonModel::Object(members) => members_floats_well_formed(members),
        _ => true,
    }
}

pub open spec fn items_floats_well_formed(items: Seq<JsonModel>) -> bool
    decreases items,
{
    if items.len() == 0 {
        true
    } else {
        items_floats_well_formed(items.drop_last()) && floats_well_formed(items.last())
    }
}

pub open spec fn members_floats_well_formed(members: Seq<(Seq<char>, JsonModel)>) -> bool
    decreases members,
{
    if members.len() == 0 {
        true
    } else {
        members_floats_well_formed(members.drop_last()) && member_floats_well_formed(members.last())
    }
}

pub open spec fn member_floats_well_formed(m: (Seq<char>, JsonModel)) -> bool
    decreases m,
{
    floats_well_formed(m.1)
}

#[verifier::external_type_specification]
#[verifier::external_body]
pub struct ExSerdeValue(serde_json::Value);

#[verifier::external_type_specification]
#[verifier::external_body]
pub struct ExSerdeNumber(serde_json::Number);

/// The value that `serde_json::from_str::<serde_json::Value>` (with insertion-ordered
/// objects) reads from `text`, as a model; `None` when it reports an error.
pub uninterp spec fn json_parsed(text: Seq<char>) -> Option<JsonModel>;

/// Parses `text` with `serde_json::from_str::<serde_json::Value>` and carries the
/// result over into a `JsonValue`; the contract claims that the result is the
/// one `json_parsed` names for this text, and that every float is held as the
/// `{:e}` rendering of a finite `f64` (serde_json delivers no infinities or NaN).
#[verifier::external_body]
pub(crate) fn parse_json(text: &str) -> (r: Option<JsonValue>)
    ensures
        r is Some <==> json_parsed(text@) is Some,
        r matches Some(v) ==> model_of(v) == json_parsed(text@)->0,
        r matches Some(v) ==> floats_well_formed(model_of(v)),
{
    match serde_json::from_str::<serde_json::Value>(text) {
        Ok(v) => Some(from_serde(v)),
        Err(_) => None,
    }
}

/// Carries a `serde_json::Number` over: `u64` and `i64` values as they are,
/// any other number as the `{:e}` rendering of its `f64`.
#[verifier::external_body]
fn number_from_serde(n: &serde_json::Number) -> JsonNumber {
    match (n.as_u64(), n.as_i64()) {
        (Some(u), _) => JsonNumber::PosInt(u),
        (None, Some(i)) => JsonNumber::NegInt(i),
        (None, None) => JsonNumber::Float(FloatText { text: format!("{:e}", n.as_f64().unwrap_or_default()) }),
    }
}

/// Carries a `serde_json::Value` over into a `JsonValue`, variant for variant
/// and member for member; a float keeps the `{:e}` rendering of its `f64`.
#[verifier::external_body]
fn from_serde(v: serde_json::Value) -> JsonValue {
    match v {
        serde_json::Value::Null => JsonValue::Null,
        serde_json::Value::Bool(b) => JsonValue::Bool(b),
        serde_json::Value::Number(n) => JsonValue::Number(number_from_serde(&n)),
        serde_json::Value::String(s) => JsonValue::String(s),
        serde_json::Value::Array(items) => JsonValue::Array(items.into_iter().map(from_serde).collect()),
        serde_json::Value::Object(m) => JsonValue::Object(m.into_iter().map(|(k, x)| (k, from_serde(x))).collect()),
    }
}

} // verus!
