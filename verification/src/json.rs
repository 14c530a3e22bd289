//! A JSON document as the search API answers it, the three ways the searcher
//! reads one (a member of an object, a string, an array), and the JSON text
//! that serde_json reads and writes.
use vstd::prelude::*;

verus! {

#[verifier::external_type_specification]
#[verifier::external_body]
pub struct ExJsonNumber(serde_json::Number);

#[verifier::external_type_specification]
#[verifier::external_body]
pub struct ExSerdeValue(serde_json::Value);

/// A JSON value. A number is kept as serde_json holds it; an object keeps its
/// members in order.
#[derive(Debug, PartialEq)]
pub enum JsonValue {
    Null,
    Bool(bool),
    Number(serde_json::Number),
    Str(String),
    Array(Vec<JsonValue>),
    Object(Vec<(String, JsonValue)>),
}

/// Whether `i` is the first position of `members` whose key is `key`.
pub open spec fn is_first_key(members: Seq<(String, JsonValue)>, key: Seq<char>, i: int) -> bool {
    &&& 0 <= i < members.len()
    &&& members[i].0@ == key
    &&& forall|j: int| 0 <= j < i ==> (#[trigger] members[j]).0@ != key
}

/// The value of the first member of `members` named `key`, if there is one.
pub open spec fn member(members: Seq<(String, JsonValue)>, key: Seq<char>) -> Option<JsonValue> {
    if exists|i: int| is_first_key(members, key, i) {
        Some(members[choose|i: int| is_first_key(members, key, i)].1)
    } else {
        None
    }
}

/// `value.get(key)`: the member `key` of an object, and nothing for any other
/// kind of value or a missing key.
pub open spec fn json_get(value: JsonValue, key: Seq<char>) -> Option<JsonValue> {
    match value {
        JsonValue::Object(members) => member(members@, key),
        _ => None,
    }
}

/// The text of a value that is a JSON string, as `Value::as_str` gives it.
pub open spec fn json_text(value: Option<JsonValue>) -> Option<Seq<char>> {
    match value {
        Some(JsonValue::Str(s)) => Some(s@),
        _ => None,
    }
}

/// The first position of a key is unique.
pub proof fn lemma_first_key_unique(members: Seq<(String, JsonValue)>, key: Seq<char>, i: int, k: int)
    requires
        is_first_key(members, key, i),
        is_first_key(members, key, k),
    ensures
        i == k,
{
    if i < k {
        assert(members[i].0@ != key);
    } else if k < i {
        assert(members[k].0@ != key);
    }
}

/// Reading a member gives the value of a member of that name, the earliest one
/// where several share it, and nothing only where no member has the name.
pub proof fn law_member_reads_first(members: Seq<(String, JsonValue)>, key: Seq<char>)
    ensures
        member(members, key) is None <==> forall|j: int|
            0 <= j < members.len() ==> (#[trigger] members[j]).0@ != key,
        member(members, key) matches Some(v) ==> exists|i: int|
            0 <= i < members.len() && (#[trigger] members[i]).0@ == key && members[i].1 == v && forall|
                j: int,
            |
                0 <= j < i ==> (#[trigger] members[j]).0@ != key,
        members.len() > 0 && members[0].0@ == key ==> member(members, key) == Some(members[0].1),
{
    if exists|j: int| 0 <= j < members.len() && (#[trigger] members[j]).0@ == key {
        let j = choose|j: int| 0 <= j < members.len() && (#[trigger] members[j]).0@ == key;
        lemma_first_exists(members, key, j);
    }
    if members.len() > 0 && members[0].0@ == key {
        assert(is_first_key(members, key, 0));
        let c = choose|c: int| is_first_key(members, key, c);
        lemma_first_key_unique(members, key, 0, c);
    }
}

/// Where some member has the name, there is a first one.
proof fn lemma_first_exists(members: Seq<(String, JsonValue)>, key: Seq<char>, j: int)
    requires
        0 <= j < members.len(),
        members[j].0@ == key,
    ensures
        exists|i: int| is_first_key(members, key, i),
    decreases j,
{
    if forall|k: int| 0 <= k < j ==> (#[trigger] members[k]).0@ != key {
        assert(is_first_key(members, key, j));
    } else {
        let k = choose|k: int| 0 <= k < j && (#[trigger] members[k]).0@ == key;
        lemma_first_exists(members, key, k);
    }
}

/// Where the first member named `key` stands, if any.
fn find_key(members: &Vec<(String, JsonValue)>, key: &str) -> (r: Option<usize>)
    ensures
        match r {
            Some(i) => is_first_key(members@, key@, i as int) && member(members@, key@)
                == Some(members@[i as int].1),
            None => member(members@, key@) is None && forall|j: int|
                0 <= j < members@.len() ==> (#[trigger] members@[j]).0@ != key@,
        },
{
    let wanted = String::from_str(key);
    let mut i: usize = 0;
    while i < members.len()
        invariant
            wanted@ == key@,
            i <= members@.len(),
            forall|j: int| 0 <= j < i ==> (#[trigger] members@[j]).0@ != key@,
        decreases members.len() - i,
    {
        if members[i].0 == wanted {
            proof {
                assert(is_first_key(members@, key@, i as int));
                let c = choose|c: int| is_first_key(members@, key@, c);
                lemma_first_key_unique(members@, key@, i as int, c);
            }
            return Some(i);
        }
        i = i + 1;
    }
    proof {
        assert(!exists|c: int| is_first_key(members@, key@, c));
    }
    None
}

impl JsonValue {
    /// `value.get(key)`: the member named `key` of an object; nothing for a
    /// missing key or a value that is not an object.
    pub fn get(&self, key: &str) -> (r: Option<&JsonValue>)
        ensures
            match r {
                Some(v) => json_get(*self, key@) == Some(*v),
                None => json_get(*self, key@) is None,
            },
    {
        match self {
            JsonValue::Object(members) => match find_key(members, key) {
                Some(i) => Some(&members[i].1),
                None => None,
            },
            _ => None,
        }
    }

    /// Takes the member named `key` out of an object, as `get` followed by a
    /// clone would give it, without copying it.
    pub fn take(self, key: &str) -> (r: Option<JsonValue>)
        ensures
            r == json_get(self, key@),
    {
        match self {
            JsonValue::Object(members) => {
                let mut members = members;
                match find_key(&members, key) {
                    Some(i) => {
                        let (_, v) = members.remove(i);
                        Some(v)
                    },
                    None => None,
                }
            },
            _ => None,
        }
    }

    /// `value.as_str()`: the text of a JSON string.
    pub fn as_str(&self) -> (r: Option<&String>)
        ensures
            match r {
                Some(s) => json_text(Some(*self)) == Some(s@),
                None => json_text(Some(*self)) is None,
            },
    {
        match self {
            JsonValue::Str(s) => Some(s),
            _ => None,
        }
    }

    /// `value.as_array()`: the elements of a JSON array.
    pub fn as_array(&self) -> (r: Option<&Vec<JsonValue>>)
        ensures
            match r {
                Some(v) => *self == JsonValue::Array(*v),
                None => !(*self is Array),
            },
    {
        match self {
            JsonValue::Array(v) => Some(v),
            _ => None,
        }
    }
}

/// The value that serde_json reads from the bytes `body`, where they are one
/// JSON document.
pub uninterp spec fn parsed_json(body: Seq<u8>) -> Option<JsonValue>;

/// The JSON text that serde_json writes for an array of `records`.
pub uninterp spec fn json_array_text(records: Seq<JsonValue>) -> Seq<char>;

/// serde_json's value for one of the library's, field for field.
#[verifier::external_body]
fn into_serde(value: JsonValue) -> serde_json::Value {
    match value {
        JsonValue::Null => serde_json::Value::Null,
        JsonValue::Bool(b) => serde_json::Value::Bool(b),
        JsonValue::Number(n) => serde_json::Value::Number(n),
        JsonValue::Str(s) => serde_json::Value::String(s),
        JsonValue::Array(items) => serde_json::Value::Array(items.into_iter().map(into_serde).collect()),
        JsonValue::Object(members) => serde_json::Value::Object(
            members.into_iter().map(|(k, v)| (k, into_serde(v))).collect(),
        ),
    }
}

/// The library's value for one of serde_json's, field for field.
#[verifier::external_body]
fn from_serde(value: serde_json::Value) -> JsonValue {
    match value {
        serde_json::Value::Null => JsonValue::Null,
        serde_json::Value::Bool(b) => JsonValue::Bool(b),
        serde_json::Value::Number(n) => JsonValue::Number(n),
        serde_json::Value::String(s) => JsonValue::Str(s),
        serde_json::Value::Array(items) => JsonValue::Array(items.into_iter().map(from_serde).collect()),
        serde_json::Value::Object(members) => JsonValue::Object(
            members.into_iter().map(|(k, v)| (k, from_serde(v))).collect(),
        ),
    }
}

/// `serde_json::from_slice::<Value>(body)`: the value that the bytes hold,
/// where they are one JSON document; nothing where serde_json refuses them.
#[verifier::external_body]
pub(crate) fn parse_body(body: &[u8]) -> (v: Option<JsonValue>)
    ensures
        v == parsed_json(body@),
{
    match serde_json::from_slice::<serde_json::Value>(body) {
        Ok(value) => Some(from_serde(value)),
        Err(_) => None,
    }
}

/// `serde_json::to_string` of the array of `records`: its JSON text. Writing
/// a `serde_json::Value` into a string does not fail, so there always is one.
#[verifier::external_body]
pub(crate) fn records_text(records: Vec<JsonValue>) -> (t: Option<String>)
    ensures
        t is Some,
        t matches Some(s) ==> s@ == json_array_text(records@),
{
    let array = serde_json::Value::Array(records.into_iter().map(into_serde).collect());
    match serde_json::to_string(&array) {
        Ok(s) => Some(s),
        Err(_) => None,
    }
}

} // verus!
