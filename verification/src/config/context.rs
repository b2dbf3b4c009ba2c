//! Context management for grafts.
//!
//! Context values are named JSON values. A graft declares the properties it
//! reads; the values provided for them are checked and coerced to the
//! declared types, and defaults fill in what is not provided.

use vstd::prelude::*;
use crate::error::{ErrorKind, GraftError};
use crate::json::{
    int_number, json_debug, json_text, model_as_i64, number_text, number_to_string, to_debug_text,
    to_json_text, JsonModel, JsonNumber, JsonValue, NumberModel,
};
use crate::text::{
    all_digits, digits_value, join, join_strings, lowercase, owned, str_eq, string_views,
    to_lowercase, chars_of,
};

verus! {

/// The map that a list of entries denotes: a later entry for a key replaces
/// an earlier one.
pub open spec fn entries_map(s: Seq<(String, JsonValue)>) -> Map<Seq<char>, JsonModel>
    decreases s.len(),
{
    if s.len() == 0 {
        Map::empty()
    } else {
        entries_map(s.drop_last()).insert(s.last().0@, s.last().1@)
    }
}

/// Is this the empty string?
pub open spec fn is_empty_str(v: JsonModel) -> bool {
    v matches JsonModel::Str(s) && s.len() == 0
}

/// Context values provided by the user (property name to value).
#[derive(Debug)]
pub struct ContextValues {
    entries: Vec<(String, JsonValue)>,
}

impl View for ContextValues {
    type V = Map<Seq<char>, JsonModel>;

    closed spec fn view(&self) -> Map<Seq<char>, JsonModel> {
        entries_map(self.entries@)
    }
}

proof fn lemma_entries_push(s: Seq<(String, JsonValue)>, x: (String, JsonValue))
    ensures
        entries_map(s.push(x)) == entries_map(s).insert(x.0@, x.1@),
{
    assert(s.push(x).drop_last() =~= s);
}

proof fn lemma_entries_take(s: Seq<(String, JsonValue)>, i: int)
    requires
        0 <= i < s.len(),
    ensures
        entries_map(s.take(i + 1)) == entries_map(s.take(i)).insert(s[i].0@, s[i].1@),
{
    assert(s.take(i + 1).drop_last() =~= s.take(i));
}

/// Inserting every entry of `s`, in order, into `m`.
proof fn lemma_union_entries(m: Map<Seq<char>, JsonModel>, s: Seq<(String, JsonValue)>, i: int)
    requires
        0 <= i < s.len(),
    ensures
        m.union_prefer_right(entries_map(s.take(i + 1)))
            == m.union_prefer_right(entries_map(s.take(i))).insert(s[i].0@, s[i].1@),
{
    lemma_entries_take(s, i);
    assert(m.union_prefer_right(entries_map(s.take(i + 1)))
        =~= m.union_prefer_right(entries_map(s.take(i))).insert(s[i].0@, s[i].1@));
}

impl ContextValues {
    /// No values.
    pub fn new() -> (r: ContextValues)
        ensures
            r@ == Map::<Seq<char>, JsonModel>::empty(),
    {
        ContextValues { entries: Vec::new() }
    }

    /// The entries, each key once; `entries_map` of them is the map.
    pub fn entries(&self) -> (r: &[(String, JsonValue)])
        ensures
            entries_map(r@) == self@,
    {
        self.entries.as_slice()
    }

    /// Are there no values?
    pub fn is_empty(&self) -> (r: bool)
        ensures
            r <==> self@ == Map::<Seq<char>, JsonModel>::empty(),
    {
        if self.entries.len() == 0 {
            assert(self@ =~= Map::<Seq<char>, JsonModel>::empty());
            true
        } else {
            assert(self@.contains_key(self.entries@.last().0@));
            false
        }
    }

    /// The value of a key.
    pub fn get(&self, key: &str) -> (r: Option<&JsonValue>)
        ensures
            match r {
                Some(v) => self@.contains_key(key@) && self@[key@] == v@,
                None => !self@.contains_key(key@),
            },
    {
        let mut found: Option<usize> = None;
        let mut i: usize = 0;
        while i < self.entries.len()
            invariant
                i <= self.entries.len(),
                match found {
                    Some(j) => j < i && entries_map(self.entries@.take(i as int)).contains_key(key@)
                        && entries_map(self.entries@.take(i as int))[key@] == self.entries@[j as int].1@,
                    None => !entries_map(self.entries@.take(i as int)).contains_key(key@),
                },
            decreases self.entries.len() - i,
        {
            proof {
                lemma_entries_take(self.entries@, i as int);
            }
            if str_eq(self.entries[i].0.as_str(), key) {
                found = Some(i);
            }
            i = i + 1;
        }
        assert(self.entries@.take(i as int) =~= self.entries@);
        match found {
            Some(j) => Some(&self.entries[j].1),
            None => None,
        }
    }

    /// Remove a key, giving back its value.
    pub fn remove(&mut self, key: &str) -> (r: Option<JsonValue>)
        ensures
            final(self)@ == old(self)@.remove(key@),
            match r {
                Some(v) => old(self)@.contains_key(key@) && old(self)@[key@] == v@,
                None => !old(self)@.contains_key(key@),
            },
    {
        let mut out: Vec<(String, JsonValue)> = Vec::new();
        let mut found: Option<JsonValue> = None;
        let mut i: usize = 0;
        while i < self.entries.len()
            invariant
                i <= self.entries.len(),
                entries_map(out@) == entries_map(self.entries@.take(i as int)).remove(key@),
                match found {
                    Some(v) => entries_map(self.entries@.take(i as int)).contains_key(key@)
                        && entries_map(self.entries@.take(i as int))[key@] == v@,
                    None => !entries_map(self.entries@.take(i as int)).contains_key(key@),
                },
            decreases self.entries.len() - i,
        {
            proof {
                lemma_entries_take(self.entries@, i as int);
            }
            let ghost before = entries_map(self.entries@.take(i as int));
            if str_eq(self.entries[i].0.as_str(), key) {
                found = Some(self.entries[i].1.clone_value());
                assert(before.insert(key@, self.entries@[i as int].1@).remove(key@) =~= before.remove(key@));
            } else {
                let k = self.entries[i].0.clone();
                let v = self.entries[i].1.clone_value();
                let ghost out_before = out@;
                out.push((k, v));
                proof {
                    lemma_entries_push(out_before, (k, v));
                    assert(before.remove(key@).insert(self.entries@[i as int].0@, self.entries@[i as int].1@)
                        =~= before.insert(self.entries@[i as int].0@, self.entries@[i as int].1@).remove(key@));
                }
            }
            i = i + 1;
        }
        assert(self.entries@.take(i as int) =~= self.entries@);
        self.entries = out;
        found
    }

    /// Set the value of a key.
    pub fn insert(&mut self, key: String, value: JsonValue)
        ensures
            final(self)@ == old(self)@.insert(key@, value@),
    {
        let _ = self.remove(key.as_str());
        let ghost mid = self.entries@;
        let ghost kv = key@;
        let ghost vv = value@;
        self.entries.push((key, value));
        proof {
            assert(self.entries@.drop_last() =~= mid);
            assert(old(self)@.remove(kv).insert(kv, vv) =~= old(self)@.insert(kv, vv));
        }
    }

    /// Add every value of `other`; a key of `other` replaces the same key here.
    pub fn extend(&mut self, other: &ContextValues)
        ensures
            final(self)@ == old(self)@.union_prefer_right(other@),
    {
        let mut i: usize = 0;
        while i < other.entries.len()
            invariant
                i <= other.entries.len(),
                self@ == old(self)@.union_prefer_right(entries_map(other.entries@.take(i as int))),
            decreases other.entries.len() - i,
        {
            proof {
                lemma_union_entries(old(self)@, other.entries@, i as int);
            }
            let k = other.entries[i].0.clone();
            let v = other.entries[i].1.clone_value();
            self.insert(k, v);
            i = i + 1;
        }
        assert(other.entries@.take(i as int) =~= other.entries@);
    }

    /// A copy of these values.
    pub fn clone_values(&self) -> (r: ContextValues)
        ensures
            r@ == self@,
    {
        let mut r = ContextValues::new();
        r.extend(self);
        assert(Map::<Seq<char>, JsonModel>::empty().union_prefer_right(self@) =~= self@);
        r
    }
}

/// The map that merging a child over a parent gives: the child's values
/// replace the parent's, and a child's empty string removes the key.
pub open spec fn merged_context(parent: Map<Seq<char>, JsonModel>, child: Map<Seq<char>, JsonModel>) -> Map<
    Seq<char>,
    JsonModel,
> {
    Map::new(
        |k: Seq<char>|
            if child.contains_key(k) {
                !is_empty_str(child[k])
            } else {
                parent.contains_key(k)
            },
        |k: Seq<char>|
            if child.contains_key(k) {
                child[k]
            } else {
                parent[k]
            },
    )
}

/// Law: a child value always wins over the parent's (an empty string by
/// removing the key), and a key the child does not name keeps the parent's
/// value; with no child values the parent comes back unchanged.
pub proof fn merge_child_wins(parent: Map<Seq<char>, JsonModel>, child: Map<Seq<char>, JsonModel>)
    ensures
        forall|k: Seq<char>|
            #![trigger merged_context(parent, child).contains_key(k)]
            child.contains_key(k) && !is_empty_str(child[k]) ==> merged_context(parent, child).contains_key(k)
                && merged_context(parent, child)[k] == child[k],
        forall|k: Seq<char>|
            #![trigger merged_context(parent, child).contains_key(k)]
            child.contains_key(k) && is_empty_str(child[k]) ==> !merged_context(parent, child).contains_key(k),
        forall|k: Seq<char>|
            #![trigger merged_context(parent, child).contains_key(k)]
            !child.contains_key(k) ==> (merged_context(parent, child).contains_key(k) == parent.contains_key(k))
                && (parent.contains_key(k) ==> merged_context(parent, child)[k] == parent[k]),
        merged_context(parent, Map::empty()) == parent,
{
    assert(merged_context(parent, Map::empty()) =~= parent);
}

/// Merge two context value maps (child overrides parent).
pub fn merge_context_values(parent: ContextValues, child: ContextValues) -> (r: ContextValues)
    ensures
        r@ == merged_context(parent@, child@),
{
    let mut result = parent;
    let entries = child.entries();
    let mut i: usize = 0;
    while i < entries.len()
        invariant
            i <= entries.len(),
            entries_map(entries@) == child@,
            result@ == merged_context(parent@, entries_map(entries@.take(i as int))),
        decreases entries.len() - i,
    {
        proof {
            lemma_entries_take(entries@, i as int);
        }
        let ghost before = result@;
        let ghost c = entries_map(entries@.take(i as int));
        let key = &entries[i].0;
        let value = &entries[i].1;
        if is_empty_string(value) {
            result.remove(key.as_str());
            assert(before.remove(key@) =~= merged_context(parent@, c.insert(key@, value@)));
        } else {
            result.insert(key.clone(), value.clone_value());
            assert(before.insert(key@, value@) =~= merged_context(parent@, c.insert(key@, value@)));
        }
        i = i + 1;
    }
    assert(entries@.take(i as int) =~= entries@);
    result
}

/// Is the value an empty string?
pub fn is_empty_string(value: &JsonValue) -> (r: bool)
    ensures
        r == is_empty_str(value@),
{
    match value {
        JsonValue::String(s) => s.as_str().is_empty(),
        _ => false,
    }
}


/// Data type of a context property.
#[derive(Debug, Clone, Copy, PartialEq, Eq, Structural)]
pub enum ContextDataType {
    Array,
    Boolean,
    Number,
    String,
}

/// The lowercase name of a data type (as its `Debug` form, lowercased).
pub open spec fn data_type_name(t: ContextDataType) -> Seq<char> {
    match t {
        ContextDataType::Array => "array"@,
        ContextDataType::Boolean => "boolean"@,
        ContextDataType::Number => "number"@,
        ContextDataType::String => "string"@,
    }
}

/// The lowercase name of a data type.
pub fn data_type_label(t: ContextDataType) -> (r: &'static str)
    ensures
        r@ == data_type_name(t),
{
    match t {
        ContextDataType::Array => "array",
        ContextDataType::Boolean => "boolean",
        ContextDataType::Number => "number",
        ContextDataType::String => "string",
    }
}

/// Definition of a context property in `.graft.yaml`.
#[derive(Debug)]
pub struct ContextPropertyDefinition {
    /// Data type of the property.
    pub data_type: ContextDataType,
    /// Default value (if present, property is optional).
    pub default_value: Option<JsonValue>,
    /// Human-readable description.
    pub description: String,
    /// Property name.
    pub name: String,
}

impl ContextPropertyDefinition {
    /// A copy of this definition.
    pub fn clone_definition(&self) -> (r: ContextPropertyDefinition)
        ensures
            r.data_type == self.data_type,
            r.name@ == self.name@,
            r.description@ == self.description@,
            match self.default_value {
                Some(v) => r.default_value matches Some(w) && w@ == v@,
                None => r.default_value is None,
            },
    {
        ContextPropertyDefinition {
            data_type: self.data_type,
            default_value: match &self.default_value {
                Some(v) => Some(v.clone_value()),
                None => None,
            },
            description: self.description.clone(),
            name: self.name.clone(),
        }
    }
}

/// What reading a string as a floating-point number gave: not a number at
/// all, a number that JSON cannot hold (infinite or NaN), or a JSON number.
#[derive(Debug)]
pub enum FloatReading {
    NotANumber,
    NotFinite,
    Finite(JsonNumber),
}

/// The model of a float reading.
pub open spec fn reading_model(r: FloatReading) -> Option<Option<NumberModel>> {
    match r {
        FloatReading::NotANumber => None,
        FloatReading::NotFinite => Some(None),
        FloatReading::Finite(n) => Some(Some(n@)),
    }
}

/// A float reader can be called on every string and gives strings with the
/// same characters the same reading.
pub open spec fn reads_floats<F: Fn(&str) -> FloatReading>(read_float: F) -> bool {
    &&& forall|s: &str| #[trigger] read_float.requires((s,))
    &&& forall|s1: &str, s2: &str, r1: FloatReading, r2: FloatReading|
        #![trigger read_float.ensures((s1,), r1), read_float.ensures((s2,), r2)]
        read_float.ensures((s1,), r1) && read_float.ensures((s2,), r2) && s1@ == s2@
            ==> reading_model(r1) == reading_model(r2)
}

/// The reading that a float reader gives a text.
pub open spec fn float_reading<F: Fn(&str) -> FloatReading>(read_float: F, t: Seq<char>) -> Option<
    Option<NumberModel>,
> {
    let pick = choose|r: FloatReading, s: &str| s@ == t && #[trigger] read_float.ensures((s,), r);
    reading_model(pick.0)
}

proof fn lemma_float_reading<F: Fn(&str) -> FloatReading>(read_float: F, s: &str, r: FloatReading)
    requires
        reads_floats(read_float),
        read_float.ensures((s,), r),
    ensures
        float_reading(read_float, s@) == reading_model(r),
{
    assert(exists|r1: FloatReading, x: &str| x@ == s@ && #[trigger] read_float.ensures((x,), r1));
    let pick = choose|r1: FloatReading, x: &str| x@ == s@ && #[trigger] read_float.ensures((x,), r1);
    assert(read_float.ensures((pick.1,), pick.0));
}

/// `str::parse::<i64>`: an optional sign and then at least one decimal digit,
/// within the range of `i64`.
pub open spec fn parse_i64_spec(s: Seq<char>) -> Option<i64> {
    if s.len() > 0 && s[0] == '-' {
        let d = s.drop_first();
        if d.len() > 0 && all_digits(d) && digits_value(d) <= 0x8000_0000_0000_0000 {
            Some((0 - digits_value(d)) as i64)
        } else {
            None
        }
    } else {
        let d = if s.len() > 0 && s[0] == '+' { s.drop_first() } else { s };
        if d.len() > 0 && all_digits(d) && digits_value(d) <= 0x7fff_ffff_ffff_ffff {
            Some(digits_value(d) as i64)
        } else {
            None
        }
    }
}

proof fn lemma_digits_grow(s: Seq<char>, i: int)
    requires
        all_digits(s),
        0 <= i <= s.len(),
    ensures
        digits_value(s.take(i)) <= digits_value(s),
    decreases s.len() - i,
{
    if i < s.len() {
        lemma_digits_grow(s, i + 1);
        assert(s.take(i + 1).drop_last() =~= s.take(i));
    } else {
        assert(s.take(i) =~= s);
    }
}

/// Reads `v[start..]` as decimal digits, up to `limit`.
fn digits_up_to(v: &[char], start: usize, limit: u64) -> (r: Option<u64>)
    requires
        start < v.len(),
    ensures
        match r {
            Some(n) => all_digits(v@.skip(start as int)) && n == digits_value(v@.skip(start as int))
                && n <= limit,
            None => !(all_digits(v@.skip(start as int)) && digits_value(v@.skip(start as int)) <= limit),
        },
{
    let ghost d = v@.skip(start as int);
    let mut acc: u64 = 0;
    let mut i: usize = start;
    while i < v.len()
        invariant
            start <= i <= v.len(),
            d == v@.skip(start as int),
            all_digits(d.take(i - start)),
            acc == digits_value(d.take(i - start)),
            acc <= limit,
        decreases v.len() - i,
    {
        let c = v[i];
        assert(d[i - start] == c);
        assert(d.take(i - start + 1).drop_last() =~= d.take(i - start));
        if !('0' <= c && c <= '9') {
            return None;
        }
        let dig: u64 = (c as u64) - ('0' as u64);
        assert(digits_value(d.take(i - start + 1)) == acc * 10 + dig);
        let next: u128 = (acc as u128) * 10 + (dig as u128);
        if next > limit as u128 {
            proof {
                if all_digits(d) {
                    lemma_digits_grow(d, i - start + 1);
                }
            }
            return None;
        }
        acc = next as u64;
        i = i + 1;
    }
    assert(d.take(i - start) =~= d);
    Some(acc)
}


/// `str::parse::<i64>`.
pub fn parse_i64(s: &str) -> (r: Option<i64>)
    ensures
        r == parse_i64_spec(s@),
{
    let v = chars_of(s);
    if v.len() == 0 {
        return None;
    }
    if v[0] == '-' {
        if v.len() == 1 {
            return None;
        }
        assert(v@.skip(1) =~= s@.drop_first());
        match digits_up_to(v.as_slice(), 1, 0x8000_0000_0000_0000u64) {
            Some(n) => {
                if n == 0x8000_0000_0000_0000u64 {
                    Some(-9223372036854775808i64)
                } else {
                    Some(-(n as i64))
                }
            },
            None => None,
        }
    } else {
        let start: usize = if v[0] == '+' { 1 } else { 0 };
        if start == 1 && v.len() == 1 {
            return None;
        }
        assert(start == 1 ==> v@.skip(1) =~= s@.drop_first());
        assert(start == 0 ==> v@.skip(0) =~= s@);
        match digits_up_to(v.as_slice(), start, 0x7fff_ffff_ffff_ffffu64) {
            Some(n) => Some(n as i64),
            None => None,
        }
    }
}

/// A value coerced to a string.
pub open spec fn coerced_string(v: JsonModel) -> JsonModel {
    match v {
        JsonModel::Str(_) => v,
        JsonModel::Number(n) => JsonModel::Str(number_text(n)),
        JsonModel::Bool(b) => JsonModel::Str(if b { "true"@ } else { "false"@ }),
        _ => JsonModel::Str(json_text(v)),
    }
}

/// A value coerced to a number, or the message of the configuration error.
pub open spec fn coerced_number<F: Fn(&str) -> FloatReading>(name: Seq<char>, v: JsonModel, read_float: F) -> Result<
    JsonModel,
    Seq<char>,
> {
    match v {
        JsonModel::Number(_) => Ok(v),
        JsonModel::Str(s) => match parse_i64_spec(s) {
            Some(i) => Ok(JsonModel::Number(int_number(i))),
            None => match float_reading(read_float, s) {
                Some(Some(n)) => Ok(JsonModel::Number(n)),
                Some(None) => Err("Invalid number value for '"@ + name + "': "@ + s),
                None => Err("Cannot coerce '"@ + s + "' to number for property '"@ + name + "'"@),
            },
        },
        _ => Err("Cannot coerce "@ + json_debug(v) + " to number for property '"@ + name + "'"@),
    }
}

/// The boolean that a word stands for, ignoring case.
pub open spec fn boolean_word(s: Seq<char>) -> Option<bool> {
    let l = lowercase(s);
    if l == "true"@ || l == "yes"@ || l == "1"@ {
        Some(true)
    } else if l == "false"@ || l == "no"@ || l == "0"@ {
        Some(false)
    } else {
        None
    }
}

/// A value coerced to a boolean, or the message of the configuration error.
pub open spec fn coerced_boolean(name: Seq<char>, v: JsonModel) -> Result<JsonModel, Seq<char>> {
    match v {
        JsonModel::Bool(_) => Ok(v),
        JsonModel::Str(s) => match boolean_word(s) {
            Some(b) => Ok(JsonModel::Bool(b)),
            None => Err("Cannot coerce '"@ + s + "' to boolean for property '"@ + name
                + "' (expected true/false/yes/no/1/0)"@),
        },
        JsonModel::Number(n) => match model_as_i64(n) {
            Some(i) => Ok(JsonModel::Bool(i != 0)),
            None => Err("Cannot coerce number to boolean for property '"@ + name + "'"@),
        },
        _ => Err("Cannot coerce "@ + json_debug(v) + " to boolean for property '"@ + name + "'"@),
    }
}

/// An array value, or the message of the configuration error.
pub open spec fn checked_array(name: Seq<char>, v: JsonModel) -> Result<JsonModel, Seq<char>> {
    match v {
        JsonModel::Array(_) => Ok(v),
        _ => Err("Property '"@ + name + "' must be an array, got: "@ + json_debug(v)),
    }
}

/// A value checked and coerced to a data type.
pub open spec fn coerced<F: Fn(&str) -> FloatReading>(
    name: Seq<char>,
    v: JsonModel,
    t: ContextDataType,
    read_float: F,
) -> Result<JsonModel, Seq<char>> {
    match t {
        ContextDataType::String => Ok(coerced_string(v)),
        ContextDataType::Number => coerced_number(name, v, read_float),
        ContextDataType::Boolean => coerced_boolean(name, v),
        ContextDataType::Array => checked_array(name, v),
    }
}

/// Does the result match the spec: the value, or a configuration error with
/// the message?
pub open spec fn coerce_result_is(r: Result<JsonValue, GraftError>, s: Result<JsonModel, Seq<char>>) -> bool {
    match s {
        Ok(m) => r matches Ok(v) && v@ == m,
        Err(msg) => r matches Err(e) && e.is(ErrorKind::Configuration, msg),
    }
}

/// Coerce a value to string.
pub fn coerce_to_string(value: &JsonValue) -> (r: JsonValue)
    ensures
        r@ == coerced_string(value@),
{
    match value {
        JsonValue::String(_) => value.clone_value(),
        JsonValue::Number(n) => JsonValue::String(number_to_string(n)),
        JsonValue::Bool(b) => JsonValue::String(if *b { owned("true") } else { owned("false") }),
        _ => JsonValue::String(to_json_text(value)),
    }
}

/// Coerce a value to number.
pub fn coerce_to_number<F: Fn(&str) -> FloatReading>(name: &str, value: &JsonValue, read_float: &F) -> (r: Result<
    JsonValue,
    GraftError,
>)
    requires
        reads_floats(*read_float),
    ensures
        coerce_result_is(r, coerced_number(name@, value@, *read_float)),
{
    match value {
        JsonValue::Number(_) => Ok(value.clone_value()),
        JsonValue::String(s) => {
            match parse_i64(s.as_str()) {
                Some(i) => Ok(JsonValue::Number(JsonNumber::from_i64(i))),
                None => {
                    let text: &str = s.as_str();
                    let reading = read_float(text);
                    proof {
                        lemma_float_reading(*read_float, text, reading);
                    }
                    match reading {
                        FloatReading::Finite(n) => Ok(JsonValue::Number(n)),
                        FloatReading::NotFinite => {
                            let mut m = owned("Invalid number value for '");
                            m.append(name);
                            m.append("': ");
                            m.append(s.as_str());
                            Err(GraftError::configuration(m))
                        },
                        FloatReading::NotANumber => {
                            let mut m = owned("Cannot coerce '");
                            m.append(s.as_str());
                            m.append("' to number for property '");
                            m.append(name);
                            m.append("'");
                            Err(GraftError::configuration(m))
                        },
                    }
                },
            }
        },
        _ => {
            let mut m = owned("Cannot coerce ");
            m.append(to_debug_text(value).as_str());
            m.append(" to number for property '");
            m.append(name);
            m.append("'");
            Err(GraftError::configuration(m))
        },
    }
}

/// Coerce a value to boolean.
pub fn coerce_to_boolean(name: &str, value: &JsonValue) -> (r: Result<JsonValue, GraftError>)
    ensures
        coerce_result_is(r, coerced_boolean(name@, value@)),
{
    match value {
        JsonValue::Bool(_) => Ok(value.clone_value()),
        JsonValue::String(s) => {
            let l = to_lowercase(s.as_str());
            if str_eq(l.as_str(), "true") || str_eq(l.as_str(), "yes") || str_eq(l.as_str(), "1") {
                Ok(JsonValue::Bool(true))
            } else if str_eq(l.as_str(), "false") || str_eq(l.as_str(), "no") || str_eq(l.as_str(), "0") {
                Ok(JsonValue::Bool(false))
            } else {
                let mut m = owned("Cannot coerce '");
                m.append(s.as_str());
                m.append("' to boolean for property '");
                m.append(name);
                m.append("' (expected true/false/yes/no/1/0)");
                Err(GraftError::configuration(m))
            }
        },
        JsonValue::Number(n) => match n.as_i64() {
            Some(i) => Ok(JsonValue::Bool(i != 0)),
            None => {
                let mut m = owned("Cannot coerce number to boolean for property '");
                m.append(name);
                m.append("'");
                Err(GraftError::configuration(m))
            },
        },
        _ => {
            let mut m = owned("Cannot coerce ");
            m.append(to_debug_text(value).as_str());
            m.append(" to boolean for property '");
            m.append(name);
            m.append("'");
            Err(GraftError::configuration(m))
        },
    }
}

/// Validate array type (no coercion, must be proper array).
pub fn validate_array(name: &str, value: &JsonValue) -> (r: Result<JsonValue, GraftError>)
    ensures
        coerce_result_is(r, checked_array(name@, value@)),
{
    match value {
        JsonValue::Array(_) => Ok(value.clone_value()),
        _ => {
            let mut m = owned("Property '");
            m.append(name);
            m.append("' must be an array, got: ");
            m.append(to_debug_text(value).as_str());
            Err(GraftError::configuration(m))
        },
    }
}

/// Validate and coerce a value to match the expected data type.
pub fn validate_and_coerce_type<F: Fn(&str) -> FloatReading>(
    name: &str,
    value: &JsonValue,
    expected_type: ContextDataType,
    read_float: &F,
) -> (r: Result<JsonValue, GraftError>)
    requires
        reads_floats(*read_float),
    ensures
        coerce_result_is(r, coerced(name@, value@, expected_type, *read_float)),
{
    match expected_type {
        ContextDataType::String => Ok(coerce_to_string(value)),
        ContextDataType::Number => coerce_to_number(name, value, read_float),
        ContextDataType::Boolean => coerce_to_boolean(name, value),
        ContextDataType::Array => validate_array(name, value),
    }
}


/// Where checking the definitions in order stands: the values resolved so
/// far, the provided values not yet taken, and the lines reporting missing
/// properties and values of the wrong type.
pub struct MergeState {
    pub result: Map<Seq<char>, JsonModel>,
    pub provided: Map<Seq<char>, JsonModel>,
    pub missing: Seq<Seq<char>>,
    pub errors: Seq<Seq<char>>,
}

/// Checking one more definition.
pub open spec fn merge_step<F: Fn(&str) -> FloatReading>(
    st: MergeState,
    d: ContextPropertyDefinition,
    read_float: F,
) -> MergeState {
    let name = d.name@;
    if st.provided.contains_key(name) {
        let v = st.provided[name];
        let rest = st.provided.remove(name);
        if is_empty_str(v) {
            MergeState { result: st.result, provided: rest, missing: st.missing, errors: st.errors }
        } else {
            match coerced(name, v, d.data_type, read_float) {
                Ok(c) => MergeState {
                    result: st.result.insert(name, c),
                    provided: rest,
                    missing: st.missing,
                    errors: st.errors,
                },
                Err(msg) => MergeState {
                    result: st.result,
                    provided: rest,
                    missing: st.missing,
                    errors: st.errors.push("  - "@ + name + ": "@ + "Configuration error: "@ + msg),
                },
            }
        }
    } else {
        match d.default_value {
            Some(dv) => MergeState {
                result: st.result.insert(name, dv@),
                provided: st.provided,
                missing: st.missing,
                errors: st.errors,
            },
            None => MergeState {
                result: st.result,
                provided: st.provided,
                missing: st.missing.push(
                    "  - "@ + name + " ("@ + data_type_name(d.data_type) + "): "@ + d.description@,
                ),
                errors: st.errors,
            },
        }
    }
}

/// Checking the definitions in order against the provided values.
pub open spec fn merge_definitions<F: Fn(&str) -> FloatReading>(
    defs: Seq<ContextPropertyDefinition>,
    provided: Map<Seq<char>, JsonModel>,
    read_float: F,
) -> MergeState
    decreases defs.len(),
{
    if defs.len() == 0 {
        MergeState { result: Map::empty(), provided, missing: Seq::empty(), errors: Seq::empty() }
    } else {
        merge_step(merge_definitions(defs.drop_last(), provided, read_float), defs.last(), read_float)
    }
}

/// The resolved values, or the message of the configuration error: missing
/// required properties are reported first, then values of the wrong type.
pub open spec fn merged_values<F: Fn(&str) -> FloatReading>(
    defs: Seq<ContextPropertyDefinition>,
    provided: Map<Seq<char>, JsonModel>,
    read_float: F,
) -> Result<Map<Seq<char>, JsonModel>, Seq<char>> {
    let st = merge_definitions(defs, provided, read_float);
    if st.missing.len() > 0 {
        Err("Missing required context properties:\n"@ + join(st.missing, "\n"@))
    } else if st.errors.len() > 0 {
        Err("Invalid context values:\n"@ + join(st.errors, "\n"@))
    } else {
        Ok(st.result)
    }
}

/// Validate context values against definitions and apply defaults.
///
/// A provided empty string removes the property; a property neither provided
/// nor defaulted is missing.
pub fn validate_and_merge_values<F: Fn(&str) -> FloatReading>(
    definitions: &[ContextPropertyDefinition],
    provided_values: ContextValues,
    read_float: &F,
) -> (r: Result<ContextValues, GraftError>)
    requires
        reads_floats(*read_float),
    ensures
        match merged_values(definitions@, provided_values@, *read_float) {
            Ok(m) => r matches Ok(v) && v@ == m,
            Err(msg) => r matches Err(e) && e.is(ErrorKind::Configuration, msg),
        },
{
    let mut provided = provided_values;
    let mut result = ContextValues::new();
    let mut missing: Vec<String> = Vec::new();
    let mut errors: Vec<String> = Vec::new();
    let mut i: usize = 0;
    while i < definitions.len()
        invariant
            i <= definitions.len(),
            reads_floats(*read_float),
            ({
                let st = merge_definitions(definitions@.take(i as int), provided_values@, *read_float);
                &&& result@ == st.result
                &&& provided@ == st.provided
                &&& string_views(missing@) == st.missing
                &&& string_views(errors@) == st.errors
            }),
        decreases definitions.len() - i,
    {
        let def = &definitions[i];
        proof {
            assert(definitions@.take(i as int + 1).drop_last() =~= definitions@.take(i as int));
        }
        let ghost mv = string_views(missing@);
        let ghost ev = string_views(errors@);
        match provided.remove(def.name.as_str()) {
            Some(value) => {
                if !is_empty_string(&value) {
                    match validate_and_coerce_type(def.name.as_str(), &value, def.data_type, read_float) {
                        Ok(c) => {
                            result.insert(def.name.clone(), c);
                        },
                        Err(err) => {
                            let mut line = owned("  - ");
                            line.append(def.name.as_str());
                            line.append(": ");
                            let shown = err.display();
                            assert(shown@ =~= "Configuration error: "@ + err.message_of());
                            line.append(shown.as_str());
                            assert(line@ =~= "  - "@ + def.name@ + ": "@ + "Configuration error: "@ + err.message_of());
                            errors.push(line);
                            assert(string_views(errors@) =~= ev.push(line@));
                        },
                    }
                }
            },
            None => {
                match &def.default_value {
                    Some(dv) => {
                        result.insert(def.name.clone(), dv.clone_value());
                    },
                    None => {
                        let mut line = owned("  - ");
                        line.append(def.name.as_str());
                        line.append(" (");
                        line.append(data_type_label(def.data_type));
                        line.append("): ");
                        line.append(def.description.as_str());
                        assert(line@ =~= "  - "@ + def.name@ + " ("@ + data_type_name(def.data_type) + "): "@ + def.description@);
                        missing.push(line);
                        assert(string_views(missing@) =~= mv.push(line@));
                    },
                }
            },
        }
        i = i + 1;
    }
    assert(definitions@.take(i as int) =~= definitions@);
    if missing.len() > 0 {
        let mut m = owned("Missing required context properties:\n");
        m.append(join_strings(missing.as_slice(), "\n").as_str());
        return Err(GraftError::configuration(m));
    }
    if errors.len() > 0 {
        let mut m = owned("Invalid context values:\n");
        m.append(join_strings(errors.as_slice(), "\n").as_str());
        return Err(GraftError::configuration(m));
    }
    Ok(result)
}

/// The text that a value stands for in a replacement.
pub open spec fn value_text(v: JsonModel) -> Seq<char> {
    match v {
        JsonModel::Str(s) => s,
        JsonModel::Number(n) => number_text(n),
        JsonModel::Bool(b) => if b { "true"@ } else { "false"@ },
        JsonModel::Null => Seq::empty(),
        _ => json_text(v),
    }
}

/// Law: the text that replaces a placeholder is the value coerced to a
/// string: a string as it is, a number or a boolean as printed (`true`,
/// `false`), an array or object as JSON; only null gives no text.
pub proof fn replacement_text_is_string_coercion(v: JsonModel)
    ensures
        v != JsonModel::Null ==> coerced_string(v) == JsonModel::Str(value_text(v)),
        value_text(JsonModel::Null) == Seq::<char>::empty(),
        v matches JsonModel::Str(s) ==> value_text(v) == s,
        v matches JsonModel::Bool(b) ==> value_text(v) == (if b {
            "true"@
        } else {
            "false"@
        }),
{
}

/// Convert a JSON value to a string for replacement: strings as they are,
/// numbers and booleans as printed, arrays and objects as compact JSON, null
/// as the empty string. It never fails.
pub fn value_to_string(value: &JsonValue) -> (r: Result<String, GraftError>)
    ensures
        r matches Ok(s) && s@ == value_text(value@),
{
    match value {
        JsonValue::String(s) => Ok(s.clone()),
        JsonValue::Number(n) => Ok(number_to_string(n)),
        JsonValue::Bool(b) => Ok(if *b { owned("true") } else { owned("false") }),
        JsonValue::Null => Ok(String::new()),
        _ => Ok(to_json_text(value)),
    }
}

/// Validated context with definitions and values.
#[derive(Debug)]
pub struct ValidatedContext {
    /// Property definitions from `.graft.yaml`.
    pub definitions: Vec<ContextPropertyDefinition>,
    /// Resolved values (after merging, defaults, and validation).
    pub values: ContextValues,
}

impl ValidatedContext {
    /// Get a context value by name.
    pub fn get(&self, name: &str) -> (r: Option<&JsonValue>)
        ensures
            match r {
                Some(v) => self.values@.contains_key(name@) && self.values@[name@] == v@,
                None => !self.values@.contains_key(name@),
            },
    {
        self.values.get(name)
    }

    /// Get a context value as a string.
    pub fn get_as_string(&self, name: &str) -> (r: Result<String, GraftError>)
        ensures
            self.values@.contains_key(name@) ==> (r matches Ok(s) && s@ == value_text(self.values@[name@])),
            !self.values@.contains_key(name@) ==> (r matches Err(e) && e.is(
                ErrorKind::Configuration,
                "Context property not found: "@ + name@,
            )),
    {
        match self.get(name) {
            Some(v) => value_to_string(v),
            None => {
                let mut m = owned("Context property not found: ");
                m.append(name);
                Err(GraftError::configuration(m))
            },
        }
    }

    /// Create a new validated context; `read_float` reads the strings given
    /// for number properties that are not integers.
    pub fn new<F: Fn(&str) -> FloatReading>(
        definitions: Vec<ContextPropertyDefinition>,
        provided_values: ContextValues,
        read_float: &F,
    ) -> (r: Result<ValidatedContext, GraftError>)
        requires
            reads_floats(*read_float),
        ensures
            match merged_values(definitions@, provided_values@, *read_float) {
                Ok(m) => r matches Ok(c) && c.values@ == m && c.definitions@ == definitions@,
                Err(msg) => r matches Err(e) && e.is(ErrorKind::Configuration, msg),
            },
    {
        let values = validate_and_merge_values(definitions.as_slice(), provided_values, read_float)?;
        Ok(ValidatedContext { definitions, values })
    }
}

} // verus!
