//! A JSON document model: what the library reads from JSON replies and what it
//! builds for JSON messages.
use vstd::prelude::*;
use crate::text::str_eq;

verus! {

/// A JSON number, as serde_json keeps it: a non-negative integer, a negative
/// integer, or a floating-point number held by its text.
#[derive(Debug)]
pub enum JsonNumber {
    PosInt(u64),
    NegInt(i64),
    Float(String),
}

/// A JSON value. An object keeps its members in order, and a key is read at
/// its first member.
#[derive(Debug)]
pub enum JsonValue {
    Null,
    Bool(bool),
    Number(JsonNumber),
    String(String),
    Array(Vec<JsonValue>),
    Object(Vec<(String, JsonValue)>),
}

/// The plain value of a JSON value.
pub enum JsonView {
    Null,
    Bool(bool),
    PosInt(u64),
    NegInt(i64),
    Float(Seq<char>),
    Str(Seq<char>),
    Arr(Seq<JsonView>),
    Obj(Seq<(Seq<char>, JsonView)>),
}

/// The plain value of a JSON value.
pub open spec fn json_view(v: JsonValue) -> JsonView
    decreases v,
{
    match v {
        JsonValue::Null => JsonView::Null,
        JsonValue::Bool(b) => JsonView::Bool(b),
        JsonValue::Number(JsonNumber::PosInt(n)) => JsonView::PosInt(n),
        JsonValue::Number(JsonNumber::NegInt(n)) => JsonView::NegInt(n),
        JsonValue::Number(JsonNumber::Float(t)) => JsonView::Float(t@),
        JsonValue::String(s) => JsonView::Str(s@),
        JsonValue::Array(items) => JsonView::Arr(
            Seq::new(
                items@.len(),
                |i: int|
                    if 0 <= i < items@.len() {
                        proof {
                            assert(decreases_to!(v => items));
                            assert(decreases_to!(items => items@));
                            assert(decreases_to!(items@ => items@[i]));
                        }
                        json_view(items@[i])
                    } else {
                        JsonView::Null
                    },
            ),
        ),
        JsonValue::Object(members) => JsonView::Obj(
            Seq::new(
                members@.len(),
                |i: int|
                    if 0 <= i < members@.len() {
                        proof {
                            assert(decreases_to!(v => members));
                            assert(decreases_to!(members => members@));
                            assert(decreases_to!(members@ => members@[i]));
                            assert(decreases_to!(members@[i] => members@[i].1));
                        }
                        (members@[i].0@, json_view(members@[i].1))
                    } else {
                        (seq![], JsonView::Null)
                    },
            ),
        ),
    }
}

impl View for JsonValue {
    type V = JsonView;

    open spec fn view(&self) -> JsonView {
        json_view(*self)
    }
}

/// The plain values of a list of JSON values.
pub open spec fn values_view(v: Seq<JsonValue>) -> Seq<JsonView> {
    v.map_values(|x: JsonValue| x@)
}

/// The plain values of the members of an object.
pub open spec fn members_view(m: Seq<(String, JsonValue)>) -> Seq<(Seq<char>, JsonView)> {
    m.map_values(|p: (String, JsonValue)| (p.0@, p.1@))
}

impl JsonValue {
    /// A JSON string.
    pub fn text(s: &str) -> (r: JsonValue)
        ensures
            r@ == JsonView::Str(s@),
    {
        JsonValue::String(s.to_owned())
    }

    /// A JSON array of the given values, in order.
    pub fn array(items: Vec<JsonValue>) -> (r: JsonValue)
        ensures
            r@ == JsonView::Arr(values_view(items@)),
    {
        let ghost iv = items@;
        let r = JsonValue::Array(items);
        proof {
            match r@ {
                JsonView::Arr(s) => {
                    assert(s =~= values_view(iv));
                },
                _ => {},
            }
        }
        r
    }

    /// A JSON object of the given members, in order.
    pub fn object(members: Vec<(String, JsonValue)>) -> (r: JsonValue)
        ensures
            r@ == JsonView::Obj(members_view(members@)),
    {
        let ghost mv = members@;
        let r = JsonValue::Object(members);
        proof {
            match r@ {
                JsonView::Obj(s) => {
                    assert(s =~= members_view(mv));
                },
                _ => {},
            }
        }
        r
    }
}

/// The value of the first member of `members` named `key`.
pub open spec fn view_lookup(members: Seq<(Seq<char>, JsonView)>, key: Seq<char>) -> Option<
    JsonView,
>
    decreases members.len(),
{
    if members.len() == 0 {
        None
    } else if members[0].0 == key {
        Some(members[0].1)
    } else {
        view_lookup(members.drop_first(), key)
    }
}

impl JsonView {
    /// The member `key` of an object; `None` for a missing member or a non-object.
    pub open spec fn member(self, key: Seq<char>) -> Option<JsonView> {
        match self {
            JsonView::Obj(members) => view_lookup(members, key),
            _ => None,
        }
    }

    /// The text of a string value.
    pub open spec fn str_value(self) -> Option<Seq<char>> {
        match self {
            JsonView::Str(s) => Some(s),
            _ => None,
        }
    }

    /// A number that fits in `u64` (serde_json `Value::as_u64`).
    pub open spec fn u64_value(self) -> Option<u64> {
        match self {
            JsonView::PosInt(n) => Some(n),
            _ => None,
        }
    }

    /// A number that fits in `i64` (serde_json `Value::as_i64`).
    pub open spec fn i64_value(self) -> Option<i64> {
        match self {
            JsonView::PosInt(n) => if n <= i64::MAX {
                Some(n as i64)
            } else {
                None
            },
            JsonView::NegInt(n) => Some(n),
            _ => None,
        }
    }

    /// The string member `key` of an object.
    pub open spec fn member_str(self, key: Seq<char>) -> Option<Seq<char>> {
        match self.member(key) {
            Some(v) => v.str_value(),
            None => None,
        }
    }

    /// The `u64` member `key` of an object.
    pub open spec fn member_u64(self, key: Seq<char>) -> Option<u64> {
        match self.member(key) {
            Some(v) => v.u64_value(),
            None => None,
        }
    }

    /// The `i64` member `key` of an object.
    pub open spec fn member_i64(self, key: Seq<char>) -> Option<i64> {
        match self.member(key) {
            Some(v) => v.i64_value(),
            None => None,
        }
    }
}

/// The plain value of an object is the object of its members' plain values.
proof fn lemma_object_view(members: Vec<(String, JsonValue)>)
    ensures
        JsonValue::Object(members)@ == JsonView::Obj(members_view(members@)),
{
    let v = JsonValue::Object(members);
    match v@ {
        JsonView::Obj(s) => {
            assert(s =~= members_view(members@));
        },
        _ => {},
    }
}

impl JsonValue {
    /// The member `key` of an object, by plain value.
    pub open spec fn member(self, key: Seq<char>) -> Option<JsonView> {
        self@.member(key)
    }

    /// The text of a string value.
    pub open spec fn str_value(self) -> Option<Seq<char>> {
        self@.str_value()
    }

    /// A number that fits in `u64` (serde_json `Value::as_u64`).
    pub open spec fn u64_value(self) -> Option<u64> {
        self@.u64_value()
    }

    /// A number that fits in `i64` (serde_json `Value::as_i64`).
    pub open spec fn i64_value(self) -> Option<i64> {
        self@.i64_value()
    }

    /// The string member `key` of an object.
    pub open spec fn member_str(self, key: Seq<char>) -> Option<Seq<char>> {
        self@.member_str(key)
    }

    /// The `u64` member `key` of an object.
    pub open spec fn member_u64(self, key: Seq<char>) -> Option<u64> {
        self@.member_u64(key)
    }

    /// The `i64` member `key` of an object.
    pub open spec fn member_i64(self, key: Seq<char>) -> Option<i64> {
        self@.member_i64(key)
    }

    /// The member `key` of an object (serde_json `Value::get` with a string key).
    pub fn get(&self, key: &str) -> (r: Option<&JsonValue>)
        ensures
            r matches Some(v) ==> self.member(key@) == Some(v@),
            r is None ==> self.member(key@) is None,
    {
        match self {
            JsonValue::Object(members) => {
                proof {
                    lemma_object_view(*members);
                }
                let ghost mv = members_view(members@);
                let mut i: usize = 0;
                assert(mv.skip(0) =~= mv);
                while i < members.len()
                    invariant
                        i <= members.len(),
                        mv == members_view(members@),
                        self.member(key@) == view_lookup(mv.skip(i as int), key@),
                    decreases members.len() - i,
                {
                    proof {
                        let rest = mv.skip(i as int);
                        assert(rest.drop_first() =~= mv.skip(i + 1));
                        assert(rest[0] == (members@[i as int].0@, members@[i as int].1@));
                    }
                    if str_eq(members[i].0.as_str(), key) {
                        return Some(&members[i].1);
                    }
                    i = i + 1;
                }
                None
            },
            _ => None,
        }
    }

    /// The text of a string value (serde_json `Value::as_str`).
    pub fn as_str(&self) -> (r: Option<&str>)
        ensures
            r matches Some(s) ==> self.str_value() == Some(s@),
            r is None ==> self.str_value() is None,
    {
        match self {
            JsonValue::String(s) => Some(s.as_str()),
            _ => None,
        }
    }

    /// A number that fits in `u64` (serde_json `Value::as_u64`).
    pub fn as_u64(&self) -> (r: Option<u64>)
        ensures
            r == self.u64_value(),
    {
        match self {
            JsonValue::Number(JsonNumber::PosInt(n)) => Some(*n),
            _ => None,
        }
    }

    /// A number that fits in `i64` (serde_json `Value::as_i64`).
    pub fn as_i64(&self) -> (r: Option<i64>)
        ensures
            r == self.i64_value(),
    {
        match self {
            JsonValue::Number(JsonNumber::PosInt(n)) => if *n <= 0x7fff_ffff_ffff_ffffu64 {
                Some(*n as i64)
            } else {
                None
            },
            JsonValue::Number(JsonNumber::NegInt(n)) => Some(*n),
            _ => None,
        }
    }

    /// The elements of an array value.
    pub fn as_array(&self) -> (r: Option<&Vec<JsonValue>>)
        ensures
            r matches Some(a) ==> *self == JsonValue::Array(*a),
            r is None ==> !(self is Array),
    {
        match self {
            JsonValue::Array(a) => Some(a),
            _ => None,
        }
    }

    /// The members of an object value.
    pub fn as_object(&self) -> (r: Option<&Vec<(String, JsonValue)>>)
        ensures
            r matches Some(m) ==> *self == JsonValue::Object(*m),
            r is None ==> !(self is Object),
    {
        match self {
            JsonValue::Object(m) => Some(m),
            _ => None,
        }
    }

    /// The string member `key` of an object.
    pub fn get_str(&self, key: &str) -> (r: Option<&str>)
        ensures
            r matches Some(s) ==> self.member_str(key@) == Some(s@),
            r is None ==> self.member_str(key@) is None,
    {
        match self.get(key) {
            Some(v) => v.as_str(),
            None => None,
        }
    }

    /// The `u64` member `key` of an object.
    pub fn get_u64(&self, key: &str) -> (r: Option<u64>)
        ensures
            r == self.member_u64(key@),
    {
        match self.get(key) {
            Some(v) => v.as_u64(),
            None => None,
        }
    }

    /// The `i64` member `key` of an object.
    pub fn get_i64(&self, key: &str) -> (r: Option<i64>)
        ensures
            r == self.member_i64(key@),
    {
        match self.get(key) {
            Some(v) => v.as_i64(),
            None => None,
        }
    }
}

#[verifier::external_type_specification]
#[verifier::external_body]
pub struct ExSerdeValue(serde_json::Value);

#[verifier::external_type_specification]
#[verifier::external_body]
pub struct ExSerdeNumber(serde_json::Number);

/// A serde_json number as a `JsonNumber`: serde_json keeps a number as a
/// `u64`, an `i64` or an `f64`, and `as_u64` / `as_i64` tell which; a float
/// is kept by the text serde_json writes for it.
#[verifier::external_body]
fn number_from_serde(n: &serde_json::Number) -> JsonNumber {
    match n.as_u64() {
        Some(u) => JsonNumber::PosInt(u),
        None => match n.as_i64() {
            Some(i) => JsonNumber::NegInt(i),
            None => JsonNumber::Float(n.to_string()),
        },
    }
}

/// A serde_json value as a `JsonValue`, variant by variant; an object's
/// members come in the order serde_json's map holds them.
#[verifier::external_body]
fn value_from_serde(v: &serde_json::Value) -> JsonValue {
    match v {
        serde_json::Value::Null => JsonValue::Null,
        serde_json::Value::Bool(b) => JsonValue::Bool(*b),
        serde_json::Value::Number(n) => JsonValue::Number(number_from_serde(n)),
        serde_json::Value::String(s) => JsonValue::String(s.clone()),
        serde_json::Value::Array(a) => JsonValue::Array(a.iter().map(value_from_serde).collect()),
        serde_json::Value::Object(m) => JsonValue::Object(
            m.iter().map(|(k, x)| (k.clone(), value_from_serde(x))).collect(),
        ),
    }
}

/// What serde_json reads from a text: the JSON value it holds, or `None`
/// when the text is no JSON document.
pub uninterp spec fn spec_parse_json(text: Seq<char>) -> Option<JsonView>;

/// serde_json `from_str` into a `serde_json::Value`, then converted to a
/// `JsonValue`: the value the text holds, or `None` when serde_json refuses
/// the text. The result is named; JSON's grammar is not written out here.
#[verifier::external_body]
pub(crate) fn parse_json(text: &str) -> (r: Option<JsonValue>)
    ensures
        match r {
            Some(v) => spec_parse_json(text@) == Some(v@),
            None => spec_parse_json(text@) is None,
        },
{
    match serde_json::from_str::<serde_json::Value>(text) {
        Ok(v) => Some(value_from_serde(&v)),
        Err(_) => None,
    }
}

} // verus!
