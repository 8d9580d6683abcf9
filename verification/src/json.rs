//! JSON values, and the serde_json functions that read, search and write them.

use vstd::prelude::*;

use crate::text::{decimal, same_text, trimmed};

verus! {

/// A JSON value.
#[derive(Debug, PartialEq)]
pub enum Json {
    Null,
    Bool(bool),
    Number(serde_json::Number),
    Text(String),
    Array(Vec<Json>),
    /// The members of an object, in order.
    Object(Vec<(String, Json)>),
}

/// A JSON value, as a mathematical value. A number is its JSON text.
pub enum JsonValue {
    Null,
    Bool(bool),
    Number(Seq<char>),
    Text(Seq<char>),
    Array(Seq<JsonValue>),
    Object(Seq<(Seq<char>, JsonValue)>),
}

/// `serde_json::Number`, a JSON number.
#[verifier::external_type_specification]
#[verifier::external_body]
pub struct ExNumber(serde_json::Number);

/// `serde_json::Value`, a JSON value.
#[verifier::external_type_specification]
#[verifier::external_body]
pub struct ExValue(serde_json::Value);

/// The JSON text of a number, which tells it from every other number.
pub uninterp spec fn number_text(n: serde_json::Number) -> Seq<char>;

/// The JSON value that a `serde_json::Value` holds.
pub uninterp spec fn json_held(v: serde_json::Value) -> JsonValue;

impl Json {
    pub open spec fn value(self) -> JsonValue
        decreases self,
    {
        match self {
            Json::Null => JsonValue::Null,
            Json::Bool(b) => JsonValue::Bool(b),
            Json::Number(n) => JsonValue::Number(number_text(n)),
            Json::Text(s) => JsonValue::Text(s@),
            Json::Array(items) => JsonValue::Array(
                Seq::new(
                    items@.len(),
                    |i: int|
                        if 0 <= i < items@.len() {
                            items@[i].value()
                        } else {
                            JsonValue::Null
                        },
                ),
            ),
            Json::Object(members) => JsonValue::Object(
                Seq::new(
                    members@.len(),
                    |i: int|
                        if 0 <= i < members@.len() {
                            (members@[i].0@, members@[i].1.value())
                        } else {
                            (Seq::empty(), JsonValue::Null)
                        },
                ),
            ),
        }
    }
}

impl View for Json {
    type V = JsonValue;

    open spec fn view(&self) -> JsonValue {
        self.value()
    }
}

impl JsonValue {
    /// Tells whether no object in this value has two members of one name.
    pub open spec fn distinct(self) -> bool
        decreases self,
    {
        match self {
            JsonValue::Array(items) => forall|i: int|
                0 <= i < items.len() ==> (#[trigger] items[i]).distinct(),
            JsonValue::Object(members) => {
                &&& forall|i: int, j: int|
                    0 <= i < j < members.len() ==> (#[trigger] members[i]).0 != (
                    #[trigger] members[j]).0
                &&& forall|i: int| 0 <= i < members.len() ==> (#[trigger] members[i]).1.distinct()
            },
            _ => true,
        }
    }
}

/// The value of the first member named `key`.
pub open spec fn member(members: Seq<(Seq<char>, JsonValue)>, key: Seq<char>) -> Option<JsonValue>
    decreases members.len(),
{
    if members.len() == 0 {
        None
    } else if members[0].0 == key {
        Some(members[0].1)
    } else {
        member(members.drop_first(), key)
    }
}

/// Tells whether a JSON pointer has exactly one step, whose name holds no escape.
pub open spec fn one_step(path: Seq<char>) -> bool {
    &&& path.len() > 0
    &&& path[0] == '/'
    &&& forall|i: int| 1 <= i < path.len() ==> #[trigger] path[i] != '/' && path[i] != '~'
}

/// What `serde_json::Value::pointer` finds in a value under a JSON pointer (RFC 6901).
pub uninterp spec fn pointer_target(v: JsonValue, path: Seq<char>) -> Option<JsonValue>;

/// The compact JSON text that serde_json gives of a value.
pub uninterp spec fn json_text(v: JsonValue) -> Seq<char>;

/// The value that `serde_json::from_str` reads from a text, if it is JSON.
pub uninterp spec fn json_read(text: Seq<char>) -> Option<JsonValue>;

/// The value that `serde_json::from_slice` reads from bytes, if they are JSON.
pub uninterp spec fn json_bytes_read(bytes: Seq<u8>) -> Option<JsonValue>;

/// The bytes that `serde_json::to_vec` writes of a value.
pub uninterp spec fn json_bytes(v: JsonValue) -> Seq<u8>;

/// `Number` of serde_json is a plain value, and its clone is the same number.
pub assume_specification[ <serde_json::Number as Clone>::clone ](n: &serde_json::Number) -> (r:
    serde_json::Number)
    ensures
        r == *n,
;

/// `Display` of `serde_json::Number` gives the JSON text of the number.
#[verifier::external_body]
pub(crate) fn number_shown(n: &serde_json::Number) -> (r: String)
    ensures
        r@ == number_text(*n),
{
    n.to_string()
}

/// `serde_json::Number::from` a `u64`: its JSON text is the number in decimal.
#[verifier::external_body]
fn number_from(n: u64) -> (r: serde_json::Number)
    ensures
        number_text(r) == decimal(n as nat),
{
    serde_json::Number::from(n)
}

/// Rewrites a JSON value as a `serde_json::Value`, variant by variant. An object of serde_json has
/// no two members of one name.
#[verifier::external_body]
pub(crate) fn to_value(json: &Json) -> (r: serde_json::Value)
    requires
        json@.distinct(),
    ensures
        json_held(r) == json@,
{
    match json {
        Json::Null => serde_json::Value::Null,
        Json::Bool(b) => serde_json::Value::Bool(*b),
        Json::Number(n) => serde_json::Value::Number(n.clone()),
        Json::Text(s) => serde_json::Value::String(s.clone()),
        Json::Array(items) => serde_json::Value::Array(items.iter().map(to_value).collect()),
        Json::Object(members) => serde_json::Value::Object(
            members.iter().map(|(k, v)| (k.clone(), to_value(v))).collect(),
        ),
    }
}

/// Rewrites a `serde_json::Value` as a JSON value, variant by variant. An object of serde_json has
/// no two members of one name.
#[verifier::external_body]
pub(crate) fn from_value(v: &serde_json::Value) -> (r: Json)
    ensures
        r@ == json_held(*v),
        r@.distinct(),
{
    match v {
        serde_json::Value::Null => Json::Null,
        serde_json::Value::Bool(b) => Json::Bool(*b),
        serde_json::Value::Number(n) => Json::Number(n.clone()),
        serde_json::Value::String(s) => Json::Text(s.clone()),
        serde_json::Value::Array(items) => Json::Array(items.iter().map(from_value).collect()),
        serde_json::Value::Object(members) => Json::Object(
            members.iter().map(|(k, v)| (k.clone(), from_value(v))).collect(),
        ),
    }
}

/// `serde_json::Value::pointer` looks up a JSON pointer. A pointer with one plain step names a
/// member of an object.
#[verifier::external_body]
pub(crate) fn value_at<'a>(v: &'a serde_json::Value, path: &str) -> (r: Option<
    &'a serde_json::Value,
>)
    ensures
        match r {
            Some(t) => pointer_target(json_held(*v), path@) == Some(json_held(*t)),
            None => pointer_target(json_held(*v), path@) is None,
        },
        one_step(path@) && json_held(*v) is Object ==> match r {
            Some(t) => member(json_held(*v)->Object_0, path@.skip(1)) == Some(json_held(*t)),
            None => member(json_held(*v)->Object_0, path@.skip(1)) is None,
        },
{
    v.pointer(path)
}

/// `Display` of `serde_json::Value` gives the compact JSON text of the value.
#[verifier::external_body]
pub(crate) fn value_text(v: &serde_json::Value) -> (r: String)
    ensures
        r@ == json_text(json_held(*v)),
{
    v.to_string()
}

/// Tells whether a text is an integer in decimal that a number of 64 bits can hold.
pub open spec fn is_integer(text: Seq<char>) -> bool {
    ||| exists|n: u64| text == #[trigger] decimal(n as nat)
    ||| exists|n: u64|
        1 <= n <= 0x8000_0000_0000_0000 && text == seq!['-'] + #[trigger] decimal(n as nat)
}

/// Tells whether the numbers in a value are integers, and arrays and objects are nested in it no
/// deeper than this.
pub open spec fn is_integral(v: JsonValue, depth: nat) -> bool
    decreases v,
{
    match v {
        JsonValue::Number(text) => is_integer(text),
        JsonValue::Array(items) => {
            &&& depth > 0
            &&& forall|i: int|
                0 <= i < items.len() ==> is_integral(#[trigger] items[i], (depth - 1) as nat)
        },
        JsonValue::Object(members) => {
            &&& depth > 0
            &&& forall|i: int|
                0 <= i < members.len() ==> is_integral(
                    (#[trigger] members[i]).1,
                    (depth - 1) as nat,
                )
        },
        _ => true,
    }
}

/// Tells whether a value is the same again when its JSON text is read: its numbers are integers,
/// and it is nested no deeper than serde_json reads.
pub open spec fn reads_back(v: JsonValue) -> bool {
    v.distinct() && is_integral(v, 127)
}

/// Tells whether this value was read.
pub open spec fn was_read(r: Option<serde_json::Value>, v: JsonValue) -> bool {
    r matches Some(value) && json_held(value) == v
}

/// `serde_json::from_str` reads a JSON text, and gives nothing where the text is no JSON, as the empty
/// text is none. Of the text that serde_json writes of a value it gives that value, where the numbers
/// are integers and the nesting is not too deep; there is no white space around such a text, so that
/// trimming leaves it as it is.
#[verifier::external_body]
pub(crate) fn parse_text(text: &str) -> (r: Option<serde_json::Value>)
    ensures
        match r {
            Some(v) => json_read(text@) == Some(json_held(v)),
            None => json_read(text@) is None,
        },
        text@.len() == 0 ==> r is None,
        forall|v: JsonValue|
            reads_back(v) && text@ == trimmed(#[trigger] json_text(v)) ==> was_read(r, v),
{
    serde_json::from_str(text).ok()
}

/// `serde_json::from_slice` reads the bytes of a JSON text, and gives nothing where they are no
/// JSON.
#[verifier::external_body]
pub(crate) fn parse_bytes(bytes: &[u8]) -> (r: Option<serde_json::Value>)
    ensures
        match r {
            Some(v) => json_bytes_read(bytes@) == Some(json_held(v)),
            None => json_bytes_read(bytes@) is None,
        },
{
    serde_json::from_slice(bytes).ok()
}

/// Tells whether a value is an object whose members are texts and unsigned integers of 64 bits.
pub open spec fn is_flat(v: JsonValue) -> bool {
    v matches JsonValue::Object(members) && forall|i: int|
        0 <= i < members.len() ==> match (#[trigger] members[i]).1 {
            JsonValue::Text(_) => true,
            JsonValue::Number(text) => exists|n: u64| text == #[trigger] decimal(n as nat),
            _ => false,
        }
}

/// `serde_json::to_vec` writes a value as a JSON text. Of a flat object, reading the bytes gives
/// the object back.
#[verifier::external_body]
pub(crate) fn value_bytes(v: &serde_json::Value) -> (r: Vec<u8>)
    ensures
        r@ == json_bytes(json_held(*v)),
        is_flat(json_held(*v)) ==> json_bytes_read(r@) == Some(json_held(*v)),
{
    serde_json::to_vec(v).unwrap_or_default()
}

impl Json {
    /// A JSON number.
    pub fn unsigned(n: u64) -> (r: Json)
        ensures
            r@ == JsonValue::Number(decimal(n as nat)),
    {
        Json::Number(number_from(n))
    }

    /// Tells whether no object in this value has two members of one name.
    pub fn is_distinct(&self) -> (r: bool)
        ensures
            r == self@.distinct(),
        decreases self,
    {
        match self {
            Json::Array(items) => {
                let mut i: usize = 0;
                while i < items.len()
                    invariant
                        *self == Json::Array(*items),
                        i <= items@.len(),
                        forall|j: int| 0 <= j < i ==> (#[trigger] self@->Array_0[j]).distinct(),
                    decreases items@.len() - i,
                {
                    assert(decreases_to!(*self => items@[i as int])) by {
                        assert(decreases_to!(*self => self->Array_0));
                        assert(decreases_to!(*items => items@));
                        assert(decreases_to!(items@ => items@[i as int]));
                    }
                    assert(self@->Array_0[i as int] == items@[i as int]@);
                    if !items[i].is_distinct() {
                        return false;
                    }
                    i += 1;
                }
                true
            },
            Json::Object(members) => {
                let mut i: usize = 0;
                while i < members.len()
                    invariant
                        *self == Json::Object(*members),
                        i <= members@.len(),
                        forall|j: int| 0 <= j < i ==> (#[trigger] self@->Object_0[j]).1.distinct(),
                        forall|j: int, k: int|
                            0 <= j < k < i ==> (#[trigger] self@->Object_0[j]).0 != (
                            #[trigger] self@->Object_0[k]).0,
                    decreases members@.len() - i,
                {
                    assert(decreases_to!(*self => members@[i as int].1)) by {
                        assert(decreases_to!(*self => self->Object_0));
                        assert(decreases_to!(*members => members@));
                        assert(decreases_to!(members@ => members@[i as int]));
                        assert(decreases_to!(members@[i as int] => members@[i as int].1));
                    }
                    let ghost values = self@->Object_0;
                    assert(values[i as int] == (members@[i as int].0@, members@[i as int].1@));
                    if !members[i].1.is_distinct() {
                        return false;
                    }
                    let mut j: usize = 0;
                    while j < i
                        invariant
                            *self == Json::Object(*members),
                            values == self@->Object_0,
                            j <= i < members@.len(),
                            forall|k: int|
                                0 <= k < j ==> (#[trigger] values[k]).0 != values[i as int].0,
                        decreases i - j,
                    {
                        assert(values[j as int].0 == members@[j as int].0@);
                        assert(values[i as int].0 == members@[i as int].0@);
                        if same_text(members[j].0.as_str(), members[i].0.as_str()) {
                            return false;
                        }
                        j += 1;
                    }
                    i += 1;
                }
                true
            },
            _ => true,
        }
    }

    /// The same value once more.
    pub fn duplicate(&self) -> (r: Json)
        ensures
            r@ == self@,
        decreases self,
    {
        match self {
            Json::Null => Json::Null,
            Json::Bool(b) => Json::Bool(*b),
            Json::Number(n) => Json::Number(n.clone()),
            Json::Text(s) => Json::Text(s.clone()),
            Json::Array(items) => {
                let mut out: Vec<Json> = Vec::new();
                let mut i: usize = 0;
                while i < items.len()
                    invariant
                        *self == Json::Array(*items),
                        i <= items@.len(),
                        out@.len() == i,
                        forall|j: int| 0 <= j < i ==> (#[trigger] out@[j])@ == items@[j]@,
                    decreases items@.len() - i,
                {
                    assert(decreases_to!(*self => items@[i as int])) by {
                        assert(decreases_to!(*self => self->Array_0));
                        assert(decreases_to!(*items => items@));
                        assert(decreases_to!(items@ => items@[i as int]));
                    }
                    out.push(items[i].duplicate());
                    i += 1;
                }
                let r = Json::Array(out);
                assert(r@->Array_0 == self@->Array_0);
                r
            },
            Json::Object(members) => {
                let mut out: Vec<(String, Json)> = Vec::new();
                let mut i: usize = 0;
                while i < members.len()
                    invariant
                        *self == Json::Object(*members),
                        i <= members@.len(),
                        out@.len() == i,
                        forall|j: int|
                            0 <= j < i ==> (#[trigger] out@[j]).0@ == members@[j].0@ && out@[j].1@
                                == members@[j].1@,
                    decreases members@.len() - i,
                {
                    assert(decreases_to!(*self => members@[i as int].1)) by {
                        assert(decreases_to!(*self => self->Object_0));
                        assert(decreases_to!(*members => members@));
                        assert(decreases_to!(members@ => members@[i as int]));
                        assert(decreases_to!(members@[i as int] => members@[i as int].1));
                    }
                    out.push((members[i].0.clone(), members[i].1.duplicate()));
                    i += 1;
                }
                let r = Json::Object(out);
                assert(r@->Object_0 == self@->Object_0);
                r
            },
        }
    }

    /// A JSON string.
    pub fn text(s: &str) -> (r: Json)
        ensures
            r@ == JsonValue::Text(s@),
    {
        Json::Text(s.to_owned())
    }
}

/// A JSON value holds what it is made of, part for part and in order.
pub proof fn law_json_holds_its_parts(json: Json, i: int)
    ensures
        json is Null <==> json@ is Null,
        json matches Json::Bool(b) ==> json@ == JsonValue::Bool(b),
        json matches Json::Number(n) ==> json@ == JsonValue::Number(number_text(n)),
        json matches Json::Text(s) ==> json@ == JsonValue::Text(s@),
        json matches Json::Array(items) ==> {
            &&& json@ is Array
            &&& json@->Array_0.len() == items@.len()
            &&& 0 <= i < items@.len() ==> json@->Array_0[i] == items@[i]@
        },
        json matches Json::Object(members) ==> {
            &&& json@ is Object
            &&& json@->Object_0.len() == members@.len()
            &&& 0 <= i < members@.len() ==> json@->Object_0[i] == (members@[i].0@, members@[i].1@)
        },
{
}

/// A member that is found is the first of its name, and none is found exactly where none has the
/// name.
pub proof fn law_member_of_a_name(members: Seq<(Seq<char>, JsonValue)>, key: Seq<char>)
    ensures
        match member(members, key) {
            Some(value) => exists|i: int|
                0 <= i < members.len() && #[trigger] members[i] == (key, value) && forall|j: int|
                    0 <= j < i ==> (#[trigger] members[j]).0 != key,
            None => forall|j: int| 0 <= j < members.len() ==> (#[trigger] members[j]).0 != key,
        },
    decreases members.len(),
{
    if members.len() > 0 && members[0].0 != key {
        let rest = members.drop_first();
        law_member_of_a_name(rest, key);
        match member(rest, key) {
            Some(value) => {
                let i = choose|i: int|
                    0 <= i < rest.len() && #[trigger] rest[i] == (key, value) && forall|j: int|
                        0 <= j < i ==> (#[trigger] rest[j]).0 != key;
                assert(members[i + 1] == (key, value));
                assert forall|j: int| 0 <= j < i + 1 implies (#[trigger] members[j]).0 != key by {
                    if j > 0 {
                        assert(rest[j - 1] == members[j]);
                    }
                }
            },
            None => {
                assert forall|j: int| 0 <= j < members.len() implies (#[trigger] members[j]).0
                    != key by {
                    if j > 0 {
                        assert(rest[j - 1] == members[j]);
                    }
                }
            },
        }
    } else if members.len() > 0 {
        assert(members[0] == (key, members[0].1));
    }
}

/// Member names are distinct in a value exactly if no object in it, at any depth, has two members of
/// one name.
pub proof fn law_distinct_members(
    items: Seq<JsonValue>,
    members: Seq<(Seq<char>, JsonValue)>,
    b: bool,
    text: Seq<char>,
)
    ensures
        JsonValue::Null.distinct(),
        JsonValue::Bool(b).distinct(),
        JsonValue::Number(text).distinct(),
        JsonValue::Text(text).distinct(),
        JsonValue::Array(items).distinct() <==> forall|i: int|
            0 <= i < items.len() ==> (#[trigger] items[i]).distinct(),
        JsonValue::Object(members).distinct() <==> {
            &&& forall|i: int| 0 <= i < members.len() ==> (#[trigger] members[i]).1.distinct()
            &&& forall|i: int, j: int|
                0 <= i < members.len() && 0 <= j < members.len() && i != j ==> (
                #[trigger] members[i]).0 != (#[trigger] members[j]).0
        },
{
    reveal_with_fuel(JsonValue::distinct, 2);
    let array = JsonValue::Array(items);
    if array.distinct() {
        assert forall|i: int| 0 <= i < items.len() implies (#[trigger] items[i]).distinct() by {
            assert(array->Array_0[i] == items[i]);
        }
    }
    let object = JsonValue::Object(members);
    if object.distinct() {
        assert forall|i: int| 0 <= i < members.len() implies (
        #[trigger] members[i]).1.distinct() by {
            assert(object->Object_0[i] == members[i]);
        }
        assert forall|i: int, j: int|
            0 <= i < members.len() && 0 <= j < members.len() && i != j implies (
        #[trigger] members[i]).0 != (#[trigger] members[j]).0 by {
            if i < j {
                assert(object->Object_0[i].0 != object->Object_0[j].0);
            } else {
                assert(object->Object_0[j].0 != object->Object_0[i].0);
            }
        }
    } else {
        let values = object->Object_0;
        if forall|i: int| 0 <= i < members.len() ==> (#[trigger] members[i]).1.distinct() {
            assert(forall|i: int|
                0 <= i < values.len() ==> (#[trigger] values[i]).1.distinct());
            assert(!(forall|i: int, j: int|
                0 <= i < j < values.len() ==> (#[trigger] values[i]).0 != (
                #[trigger] values[j]).0));
        }
    }
}

} // verus!
