//! JSON values as the configuration and the context hold them.
//!
//! A number keeps what the logic reads of it: an integer's value, or the text
//! that `serde_json` prints for a float.

use vstd::prelude::*;
use crate::text::{decimal, string_push, string_views};
use serde_json::{Number, Value};

verus! {

/// A JSON number.
#[derive(Debug)]
pub enum JsonNumber {
    /// A non-negative integer.
    PosInt(u64),
    /// A negative integer.
    NegInt(i64),
    /// A float, held as the text that `serde_json` prints for it.
    Float(String),
}

/// A JSON value.
#[derive(Debug)]
pub enum JsonValue {
    Null,
    Bool(bool),
    Number(JsonNumber),
    String(String),
    Array(Vec<JsonValue>),
    /// Members in the order `serde_json` keeps them (sorted by key).
    Object(Vec<(String, JsonValue)>),
}

impl JsonNumber {
    /// `serde_json::Number::as_i64`.
    pub open spec fn as_i64_spec(&self) -> Option<i64> {
        match self {
            JsonNumber::PosInt(u) => if *u <= i64::MAX as u64 {
                Some(*u as i64)
            } else {
                None
            },
            JsonNumber::NegInt(i) => Some(*i),
            JsonNumber::Float(_) => None,
        }
    }

    /// The number as an integer, when it is one that fits in `i64`.
    pub fn as_i64(&self) -> (r: Option<i64>)
        ensures
            r == self.as_i64_spec(),
            r == model_as_i64(self@),
    {
        match self {
            JsonNumber::PosInt(u) => if *u <= 9223372036854775807u64 {
                Some(*u as i64)
            } else {
                None
            },
            JsonNumber::NegInt(i) => Some(*i),
            JsonNumber::Float(_) => None,
        }
    }

    /// A number from an `i64` (`impl From<i64> for Number`).
    pub fn from_i64(i: i64) -> (r: JsonNumber)
        ensures
            r.as_i64_spec() == Some(i),
            r@ == int_number(i),
            i >= 0 ==> r == JsonNumber::PosInt(i as u64),
            i < 0 ==> r == JsonNumber::NegInt(i),
    {
        if i >= 0 {
            JsonNumber::PosInt(i as u64)
        } else {
            JsonNumber::NegInt(i)
        }
    }

    /// A copy of this number.
    pub fn clone_number(&self) -> (r: JsonNumber)
        ensures
            r == *self,
            r@ == self@,
    {
        match self {
            JsonNumber::PosInt(u) => JsonNumber::PosInt(*u),
            JsonNumber::NegInt(i) => JsonNumber::NegInt(*i),
            JsonNumber::Float(t) => JsonNumber::Float(t.clone()),
        }
    }
}

/// How `serde_json` prints a number.
pub open spec fn number_text(n: NumberModel) -> Seq<char> {
    match n {
        NumberModel::PosInt(u) => decimal(u as nat),
        NumberModel::NegInt(i) => if i < 0 {
            seq!['-'] + decimal((-(i as int)) as nat)
        } else {
            decimal(i as nat)
        },
        NumberModel::Float(t) => t,
    }
}

/// `serde_json::Number::as_i64` on a number's model.
pub open spec fn model_as_i64(n: NumberModel) -> Option<i64> {
    match n {
        NumberModel::PosInt(u) => if u <= i64::MAX as u64 {
            Some(u as i64)
        } else {
            None
        },
        NumberModel::NegInt(i) => Some(i),
        NumberModel::Float(_) => None,
    }
}

/// The number that an integer becomes (`impl From<i64> for Number`).
pub open spec fn int_number(i: i64) -> NumberModel {
    if i >= 0 {
        NumberModel::PosInt(i as u64)
    } else {
        NumberModel::NegInt(i)
    }
}

/// Print a number as `serde_json` does.
pub fn number_to_string(n: &JsonNumber) -> (r: String)
    ensures
        r@ == number_text(n@),
{
    match n {
        JsonNumber::PosInt(u) => u64_to_decimal(*u),
        JsonNumber::NegInt(i) => {
            if *i < 0 {
                let mag: u64 = if *i == -9223372036854775808i64 {
                    9223372036854775808u64
                } else {
                    (-*i) as u64
                };
                let mut s = String::new();
                string_push(&mut s, '-');
                let d = u64_to_decimal(mag);
                s.append(d.as_str());
                s
            } else {
                u64_to_decimal(*i as u64)
            }
        },
        JsonNumber::Float(t) => t.clone(),
    }
}

/// Decimal rendering of a `u64`.
pub fn u64_to_decimal(n: u64) -> (r: String)
    ensures
        r@ == decimal(n as nat),
    decreases n,
{
    let d = n % 10;
    let c = if d == 0 { '0' }
    else if d == 1 { '1' }
    else if d == 2 { '2' }
    else if d == 3 { '3' }
    else if d == 4 { '4' }
    else if d == 5 { '5' }
    else if d == 6 { '6' }
    else if d == 7 { '7' }
    else if d == 8 { '8' }
    else { '9' };
    if n < 10 {
        let mut s = String::new();
        string_push(&mut s, c);
        s
    } else {
        let mut s = u64_to_decimal(n / 10);
        string_push(&mut s, c);
        s
    }
}

/// The mathematical value of a JSON number.
pub enum NumberModel {
    PosInt(u64),
    NegInt(i64),
    Float(Seq<char>),
}

/// The mathematical value of a JSON value: strings as character sequences,
/// arrays and objects as sequences.
pub enum JsonModel {
    Null,
    Bool(bool),
    Number(NumberModel),
    Str(Seq<char>),
    Array(Seq<JsonModel>),
    Object(Seq<(Seq<char>, JsonModel)>),
}

impl View for JsonNumber {
    type V = NumberModel;

    open spec fn view(&self) -> NumberModel {
        match self {
            JsonNumber::PosInt(u) => NumberModel::PosInt(*u),
            JsonNumber::NegInt(i) => NumberModel::NegInt(*i),
            JsonNumber::Float(t) => NumberModel::Float(t@),
        }
    }
}

/// The models of a sequence of values.
pub open spec fn models(s: Seq<JsonValue>) -> Seq<JsonModel>
    decreases s,
{
    if s.len() == 0 {
        Seq::empty()
    } else {
        models(s.drop_last()).push(json_model(s.last()))
    }
}

/// The models of a sequence of object members.
pub open spec fn member_models(s: Seq<(String, JsonValue)>) -> Seq<(Seq<char>, JsonModel)>
    decreases s,
{
    if s.len() == 0 {
        Seq::empty()
    } else {
        member_models(s.drop_last()).push((s.last().0@, json_model(s.last().1)))
    }
}

/// The model of a value.
pub open spec fn json_model(v: JsonValue) -> JsonModel
    decreases v,
{
    match v {
        JsonValue::Null => JsonModel::Null,
        JsonValue::Bool(b) => JsonModel::Bool(b),
        JsonValue::Number(n) => JsonModel::Number(n@),
        JsonValue::String(s) => JsonModel::Str(s@),
        JsonValue::Array(items) => JsonModel::Array(models(items@)),
        JsonValue::Object(members) => JsonModel::Object(member_models(members@)),
    }
}

impl View for JsonValue {
    type V = JsonModel;

    open spec fn view(&self) -> JsonModel {
        json_model(*self)
    }
}

pub proof fn lemma_models_len(s: Seq<JsonValue>)
    ensures
        models(s).len() == s.len(),
    decreases s.len(),
{
    if s.len() > 0 {
        lemma_models_len(s.drop_last());
    }
}

impl JsonValue {
    /// A copy of this value.
    pub fn clone_value(&self) -> (r: JsonValue)
        ensures
            r@ == self@,
        decreases self,
    {
        match self {
            JsonValue::Null => JsonValue::Null,
            JsonValue::Bool(b) => JsonValue::Bool(*b),
            JsonValue::Number(n) => JsonValue::Number(n.clone_number()),
            JsonValue::String(s) => JsonValue::String(s.clone()),
            JsonValue::Array(items) => {
                let mut out: Vec<JsonValue> = Vec::new();
                let mut i: usize = 0;
                while i < items.len()
                    invariant
                        i <= items.len(),
                        out.len() == i,
                        models(out@) == models(items@.take(i as int)),
                        forall|j: int| 0 <= j < items.len() ==> decreases_to!(*self => #[trigger] items@[j]),
                    decreases items.len() - i,
                {
                    proof {
                        assert(decreases_to!(*self => items@[i as int]));
                    }
                    let v = items[i].clone_value();
                    let ghost before = out@;
                    out.push(v);
                    proof {
                        assert(out@.drop_last() =~= before);
                        assert(items@.take(i as int + 1).drop_last() =~= items@.take(i as int));
                    }
                    i = i + 1;
                }
                assert(items@.take(i as int) =~= items@);
                JsonValue::Array(out)
            },
            JsonValue::Object(members) => {
                let mut out: Vec<(String, JsonValue)> = Vec::new();
                let mut i: usize = 0;
                while i < members.len()
                    invariant
                        i <= members.len(),
                        out.len() == i,
                        member_models(out@) == member_models(members@.take(i as int)),
                        forall|j: int| 0 <= j < members.len() ==> decreases_to!(*self => #[trigger] members@[j].1),
                    decreases members.len() - i,
                {
                    let k = members[i].0.clone();
                    let v = members[i].1.clone_value();
                    let ghost before = out@;
                    out.push((k, v));
                    proof {
                        assert(out@.drop_last() =~= before);
                        assert(members@.take(i as int + 1).drop_last() =~= members@.take(i as int));
                    }
                    i = i + 1;
                }
                assert(members@.take(i as int) =~= members@);
                JsonValue::Object(out)
            },
        }
    }

    /// `Value::is_string`.
    pub fn is_string(&self) -> (r: bool)
        ensures
            r == (*self is String),
    {
        match self {
            JsonValue::String(_) => true,
            _ => false,
        }
    }

    /// `Value::is_number`.
    pub fn is_number(&self) -> (r: bool)
        ensures
            r == (*self is Number),
    {
        match self {
            JsonValue::Number(_) => true,
            _ => false,
        }
    }

    /// `Value::is_boolean`.
    pub fn is_boolean(&self) -> (r: bool)
        ensures
            r == (*self is Bool),
    {
        match self {
            JsonValue::Bool(_) => true,
            _ => false,
        }
    }

    /// `Value::is_array`.
    pub fn is_array(&self) -> (r: bool)
        ensures
            r == (*self is Array),
    {
        match self {
            JsonValue::Array(_) => true,
            _ => false,
        }
    }
}


/// `serde_json::Value`, the outside crate's JSON value, carried through the
/// calls below.
#[verifier::external_type_specification]
#[verifier::external_body]
pub struct ExSerdeValue(serde_json::Value);

/// `serde_json::Number`, the outside crate's JSON number.
#[verifier::external_type_specification]
#[verifier::external_body]
pub struct ExSerdeNumber(serde_json::Number);

/// Rebuilds a value of this module from a `serde_json::Value`, variant by
/// variant.
#[verifier::external_body]
fn from_serde(v: Value) -> JsonValue {
    match v {
        Value::Null => JsonValue::Null,
        Value::Bool(b) => JsonValue::Bool(b),
        Value::Number(n) => JsonValue::Number(from_serde_number(&n)),
        Value::String(s) => JsonValue::String(s),
        Value::Array(a) => JsonValue::Array(a.into_iter().map(from_serde).collect()),
        Value::Object(m) => JsonValue::Object(m.into_iter().map(|(k, x)| (k, from_serde(x))).collect()),
    }
}

/// A `serde_json::Number` as a number of this module: an integer as `PosInt`
/// when it fits in `u64`, else as `NegInt`; any other number keeps the text
/// `serde_json` prints for it.
#[verifier::external_body]
fn from_serde_number(n: &Number) -> JsonNumber {
    match (n.as_u64(), n.as_i64()) {
        (Some(u), _) => JsonNumber::PosInt(u),
        (None, Some(i)) => JsonNumber::NegInt(i),
        (None, None) => JsonNumber::Float(n.to_string()),
    }
}

/// Builds the `serde_json::Value` of a value of this module, variant by variant.
#[verifier::external_body]
fn to_serde(v: &JsonValue) -> Value {
    match v {
        JsonValue::Null => Value::Null,
        JsonValue::Bool(b) => Value::Bool(*b),
        JsonValue::Number(n) => to_serde_number(n),
        JsonValue::String(s) => Value::String(s.clone()),
        JsonValue::Array(a) => Value::Array(a.iter().map(to_serde).collect()),
        JsonValue::Object(m) => Value::Object(m.iter().map(|(k, x)| (k.clone(), to_serde(x))).collect()),
    }
}

/// The `serde_json::Value` of a number of this module; a float's text is
/// read back with `serde_json`'s number parser, and a text that the parser
/// cannot read (a float read from JSON text never has one) becomes `null`.
/// What `json_text` and `json_debug` name includes that choice.
#[verifier::external_body]
fn to_serde_number(n: &JsonNumber) -> Value {
    match n {
        JsonNumber::PosInt(u) => Value::from(*u),
        JsonNumber::NegInt(i) => Value::from(*i),
        JsonNumber::Float(t) => t.parse::<Number>().map_or(Value::Null, Value::Number),
    }
}

/// The compact text that `serde_json` writes for a value (its `Display`).
pub uninterp spec fn json_text(v: JsonModel) -> Seq<char>;

/// The text of `serde_json::Value`'s `Debug` for a value.
pub uninterp spec fn json_debug(v: JsonModel) -> Seq<char>;

/// What `serde_json::from_str::<Value>` makes of a text: the value, or the
/// text of its error.
pub uninterp spec fn json_parse(text: Seq<char>) -> Result<JsonModel, Seq<char>>;

/// A lowercase hexadecimal digit.
pub open spec fn hex_digit(d: int) -> char {
    if d < 10 {
        (('0' as int) + d) as char
    } else {
        (('a' as int) + d - 10) as char
    }
}

/// A character as `serde_json` writes it inside a string: `"` and `\`
/// escaped with a backslash, the control characters below U+0020 as `\b`,
/// `\t`, `\n`, `\f`, `\r` or `\u00XX` (lowercase hexadecimal), every other
/// character as itself.
pub open spec fn json_char(c: char) -> Seq<char> {
    if c == '"' {
        seq!['\\', '"']
    } else if c == '\\' {
        seq!['\\', '\\']
    } else if c == '\u{8}' {
        seq!['\\', 'b']
    } else if c == '\t' {
        seq!['\\', 't']
    } else if c == '\n' {
        seq!['\\', 'n']
    } else if c == '\u{c}' {
        seq!['\\', 'f']
    } else if c == '\r' {
        seq!['\\', 'r']
    } else if (c as int) < 0x20 {
        seq!['\\', 'u', '0', '0', hex_digit((c as int) / 16), hex_digit((c as int) % 16)]
    } else {
        seq![c]
    }
}

/// The characters of a string as `serde_json` writes them.
pub open spec fn json_chars(s: Seq<char>) -> Seq<char>
    decreases s.len(),
{
    if s.len() == 0 {
        Seq::empty()
    } else {
        json_chars(s.drop_last()) + json_char(s.last())
    }
}

/// A string as a JSON string literal.
pub open spec fn json_string(s: Seq<char>) -> Seq<char> {
    seq!['"'] + json_chars(s) + seq!['"']
}

/// The elements of a pretty array of strings: each on a new line after a
/// comma (none before the first), indented by two spaces.
pub open spec fn json_pretty_elements(items: Seq<Seq<char>>) -> Seq<char>
    decreases items.len(),
{
    if items.len() == 0 {
        Seq::empty()
    } else {
        json_pretty_elements(items.drop_last()) + (if items.len() == 1 {
            seq!['\n']
        } else {
            seq![',', '\n']
        }) + seq![' ', ' '] + json_string(items.last())
    }
}

/// What `serde_json::to_string_pretty` writes for a list of strings: `[]`
/// when it is empty, else `[`, the elements, a line break and `]`.
pub open spec fn json_pretty_strings(items: Seq<Seq<char>>) -> Seq<char> {
    if items.len() == 0 {
        seq!['[', ']']
    } else {
        seq!['['] + json_pretty_elements(items) + seq!['\n', ']']
    }
}

/// Compact JSON text of a value: `serde_json::Value`'s `Display`.
#[verifier::external_body]
pub(crate) fn to_json_text(v: &JsonValue) -> (r: String)
    ensures
        r@ == json_text(v@),
{
    to_serde(v).to_string()
}

/// Debug text of a value: `serde_json::Value`'s `Debug`.
#[verifier::external_body]
pub(crate) fn to_debug_text(v: &JsonValue) -> (r: String)
    ensures
        r@ == json_debug(v@),
{
    format!("{:?}", to_serde(v))
}

/// Parses JSON text with `serde_json::from_str`; an error comes back as its
/// message.
#[verifier::external_body]
pub(crate) fn parse_json(text: &str) -> (r: Result<JsonValue, String>)
    ensures
        match r {
            Ok(v) => json_parse(text@) == Ok::<JsonModel, Seq<char>>(v@),
            Err(e) => json_parse(text@) == Err::<JsonModel, Seq<char>>(e@),
        },
{
    match serde_json::from_str::<serde_json::Value>(text) {
        Ok(v) => Ok(from_serde(v)),
        Err(e) => Err(e.to_string()),
    }
}

/// Pretty JSON array of strings: `serde_json::to_string_pretty` on a slice of
/// strings, which cannot fail (its `PrettyFormatter` with a two-space
/// indent, and its string escaping, as `json_pretty_strings` states).
#[verifier::external_body]
pub(crate) fn pretty_json_strings(items: &[String]) -> (r: String)
    ensures
        r@ == json_pretty_strings(string_views(items@)),
{
    serde_json::to_string_pretty(items).unwrap_or_default()
}

} // verus!
