//! A plain model of JSON documents, and the calls into `serde_json` that
//! read and write them.
use vstd::prelude::*;

use crate::text::{str_eq, trim, trim_str};

verus! {

/// A JSON value. Numbers keep their decimal text and, when they are
/// non-negative integers that fit, their `u64` value. Objects keep their
/// members in the order `serde_json` hands them out (sorted by key, no key twice).
#[derive(Debug)]
pub enum JsonValue {
    Null,
    Bool(bool),
    Number(String, Option<u64>),
    Str(String),
    Array(Vec<JsonValue>),
    Object(Vec<JsonMember>),
}

/// One member of a JSON object.
#[derive(Debug)]
pub struct JsonMember {
    pub key: String,
    pub value: JsonValue,
}

/// `serde_json::Value`, carried only inside the calls below.
#[verifier::external_type_specification]
#[verifier::external_body]
pub struct ExSerdeValue(serde_json::Value);

/// What `serde_json` makes of `text`, when it is one JSON document.
pub uninterp spec fn json_parse(text: Seq<char>) -> Option<JsonValue>;

/// What `serde_json` makes of the bytes `bytes`, when they are one JSON document.
pub uninterp spec fn json_parse_bytes(bytes: Seq<u8>) -> Option<JsonValue>;

/// The value stored under `key` in a list of object members: the first match.
pub open spec fn members_get(members: Seq<JsonMember>, key: Seq<char>) -> Option<JsonValue>
    decreases members.len(),
{
    if members.len() == 0 {
        None
    } else if members[0].key@ == key {
        Some(members[0].value)
    } else {
        members_get(members.drop_first(), key)
    }
}

/// `Value::get(key)`: the member `key` of an object, nothing for other values.
pub open spec fn json_get(v: JsonValue, key: Seq<char>) -> Option<JsonValue> {
    match v {
        JsonValue::Object(members) => members_get(members@, key),
        _ => None,
    }
}

/// The text of a string value, trimmed, when it is not blank.
pub open spec fn nonblank_text(v: Option<JsonValue>) -> Option<Seq<char>> {
    match v {
        Some(JsonValue::Str(s)) => if trim(s@).len() > 0 {
            Some(trim(s@))
        } else {
            None
        },
        _ => None,
    }
}

/// The first of `keys` under which `v` holds non-blank text, trimmed.
pub open spec fn json_string_spec(v: JsonValue, keys: Seq<Seq<char>>) -> Option<Seq<char>>
    decreases keys.len(),
{
    if keys.len() == 0 {
        None
    } else {
        match nonblank_text(json_get(v, keys[0])) {
            Some(t) => Some(t),
            None => json_string_spec(v, keys.drop_first()),
        }
    }
}

impl JsonValue {
    /// Moves a `serde_json` value into this model, variant by variant.
    #[verifier::external_body]
    fn from_serde(value: serde_json::Value) -> JsonValue {
        match value {
            serde_json::Value::Null => JsonValue::Null,
            serde_json::Value::Bool(b) => JsonValue::Bool(b),
            serde_json::Value::Number(n) => JsonValue::Number(n.to_string(), n.as_u64()),
            serde_json::Value::String(s) => JsonValue::Str(s),
            serde_json::Value::Array(a) => JsonValue::Array(a.into_iter().map(JsonValue::from_serde).collect()),
            serde_json::Value::Object(m) => JsonValue::Object(m.into_iter().map(|(key, v)| JsonMember { key, value: JsonValue::from_serde(v) }).collect()),
        }
    }
}

/// `serde_json::from_str::<Value>`: the document in `text`, or `None` when
/// `text` is not JSON. Nothing more is stated of the parser than that the same
/// text gives the same value.
#[verifier::external_body]
pub fn parse_json(text: &str) -> (r: Option<JsonValue>)
    ensures
        r == json_parse(text@),
{
    serde_json::from_str::<serde_json::Value>(text).ok().map(JsonValue::from_serde)
}

/// `serde_json::from_slice::<Value>`: the document in `bytes`, or `None`.
#[verifier::external_body]
pub fn parse_json_bytes(bytes: &[u8]) -> (r: Option<JsonValue>)
    ensures
        r == json_parse_bytes(bytes@),
{
    serde_json::from_slice::<serde_json::Value>(bytes).ok().map(JsonValue::from_serde)
}

/// The value stored under `key` among the members of an object (`Map::get`).
pub fn members_get_exec<'a>(members: &'a Vec<JsonMember>, key: &str) -> (r: Option<&'a JsonValue>)
    ensures
        match r {
            Some(x) => members_get(members@, key@) == Some(*x),
            None => members_get(members@, key@) is None,
        },
{
    let mut i: usize = 0;
    assert(members@.subrange(0, members@.len() as int) =~= members@);
    while i < members.len()
        invariant
            i <= members@.len(),
            members_get(members@, key@) == members_get(members@.subrange(i as int, members@.len() as int), key@),
        decreases members@.len() - i,
    {
        let ghost rest = members@.subrange(i as int, members@.len() as int);
        assert(rest[0] == members@[i as int]);
        if str_eq(members[i].key.as_str(), key) {
            assert(members_get(rest, key@) == Some(members@[i as int].value));
            return Some(&members[i].value);
        }
        assert(rest.drop_first() =~= members@.subrange(i + 1, members@.len() as int));
        i = i + 1;
    }
    None
}

/// The member `key` of an object value (`Value::get`).
pub fn json_get_exec<'a>(v: &'a JsonValue, key: &str) -> (r: Option<&'a JsonValue>)
    ensures
        match r {
            Some(x) => json_get(*v, key@) == Some(*x),
            None => json_get(*v, key@) is None,
        },
{
    match v {
        JsonValue::Object(members) => members_get_exec(members, key),
        _ => None,
    }
}

/// The first of `keys` under which `v` holds non-blank text, trimmed.
pub fn json_string(v: &JsonValue, keys: &[&str]) -> (r: Option<String>)
    ensures
        match r {
            Some(s) => json_string_spec(*v, keys@.map_values(|k: &str| k@)) == Some(s@),
            None => json_string_spec(*v, keys@.map_values(|k: &str| k@)) is None,
        },
{
    let ghost ks = keys@.map_values(|k: &str| k@);
    let mut i: usize = 0;
    assert(ks.subrange(0, ks.len() as int) =~= ks);
    while i < keys.len()
        invariant
            i <= keys@.len(),
            ks == keys@.map_values(|k: &str| k@),
            json_string_spec(*v, ks) == json_string_spec(*v, ks.subrange(i as int, ks.len() as int)),
        decreases keys@.len() - i,
    {
        let ghost rest = ks.subrange(i as int, ks.len() as int);
        assert(rest[0] == keys@[i as int]@);
        assert(rest.drop_first() =~= ks.subrange(i + 1, ks.len() as int));
        match json_get_exec(v, keys[i]) {
            Some(JsonValue::Str(s)) => {
                let t = trim_str(s.as_str());
                if !t.as_str().is_empty() {
                    return Some(t);
                }
            },
            _ => {},
        }
        i = i + 1;
    }
    None
}

} // verus!

verus! {

/// Where the first member with key `key` sits.
pub open spec fn member_index(ms: Seq<JsonMember>, key: Seq<char>) -> Option<int>
    decreases ms.len(),
{
    if ms.len() == 0 {
        None
    } else if ms[0].key@ == key {
        Some(0)
    } else {
        match member_index(ms.drop_first(), key) {
            Some(i) => Some(i + 1),
            None => None,
        }
    }
}

/// `member_index` finds the first member with the key, and `members_get`
/// gives its value.
pub proof fn lemma_member_index(ms: Seq<JsonMember>, key: Seq<char>)
    ensures
        match member_index(ms, key) {
            Some(i) => 0 <= i < ms.len() && ms[i].key@ == key && (forall|j: int| 0 <= j < i ==> (#[trigger] ms[j]).key@ != key)
                && members_get(ms, key) == Some(ms[i].value),
            None => (forall|j: int| 0 <= j < ms.len() ==> (#[trigger] ms[j]).key@ != key) && members_get(ms, key) is None,
        },
    decreases ms.len(),
{
    if ms.len() > 0 && ms[0].key@ != key {
        lemma_member_index(ms.drop_first(), key);
        assert forall|j: int| 0 < j < ms.len() implies ms[j] == ms.drop_first()[j - 1] by {}
    }
}

/// Members whose keys, up to position `n`, match: the first match of every
/// key is the same, so lookups agree.
pub proof fn lemma_members_get_same_keys(a: Seq<JsonMember>, b: Seq<JsonMember>, key: Seq<char>)
    requires
        a.len() == b.len(),
        forall|j: int| 0 <= j < a.len() ==> (#[trigger] a[j]).key@ == b[j].key@,
        forall|j: int| 0 <= j < a.len() && a[j].key@ == key ==> a[j].value == b[j].value,
    ensures
        members_get(a, key) == members_get(b, key),
    decreases a.len(),
{
    if a.len() > 0 {
        assert(a[0].key@ == b[0].key@);
        if a[0].key@ != key {
            assert forall|j: int| 0 <= j < a.drop_first().len() implies (#[trigger] a.drop_first()[j]).key@
                == b.drop_first()[j].key@ by {
                assert(a[j + 1].key@ == b[j + 1].key@);
            }
            assert forall|j: int| 0 <= j < a.drop_first().len() && a.drop_first()[j].key@ == key implies a.drop_first()[j].value
                == b.drop_first()[j].value by {
                assert(a[j + 1].key@ == key);
            }
            lemma_members_get_same_keys(a.drop_first(), b.drop_first(), key);
        }
    }
}

/// Lookups in members with one more member at the end.
pub proof fn lemma_members_get_push(ms: Seq<JsonMember>, m: JsonMember, key: Seq<char>)
    ensures
        members_get(ms.push(m), key) == (match members_get(ms, key) {
            Some(v) => Some(v),
            None => if m.key@ == key {
                Some(m.value)
            } else {
                None
            },
        }),
    decreases ms.len(),
{
    if ms.len() > 0 {
        assert(ms.push(m)[0] == ms[0]);
        assert(ms.push(m).drop_first() =~= ms.drop_first().push(m));
        if ms[0].key@ != key {
            lemma_members_get_push(ms.drop_first(), m, key);
        }
    } else {
        assert(ms.push(m)[0] == m);
        assert(ms.push(m).drop_first() =~= Seq::<JsonMember>::empty());
        assert(members_get(Seq::<JsonMember>::empty(), key) is None);
    }
}

/// `ms` with member `key` set to `value`: the first member with that key
/// changes its value, or a member is added at the end (`Map::insert`).
pub fn members_set(ms: &mut Vec<JsonMember>, key: &str, value: JsonValue)
    ensures
        members_get(final(ms)@, key@) == Some(value),
        forall|k: Seq<char>| k != key@ ==> members_get(final(ms)@, k) == #[trigger] members_get(old(ms)@, k),
{
    proof {
        lemma_member_index(ms@, key@);
    }
    let mut i: usize = 0;
    while i < ms.len()
        invariant
            i <= ms@.len(),
            ms@ == old(ms)@,
            forall|j: int| 0 <= j < i ==> (#[trigger] ms@[j]).key@ != key@,
        decreases ms@.len() - i,
    {
        if str_eq(ms[i].key.as_str(), key) {
            let ghost before = ms@;
            let k = ms[i].key.clone();
            ms.set(i, JsonMember { key: k, value });
            proof {
                lemma_member_index(before, key@);
                lemma_member_index(ms@, key@);
                assert(member_index(ms@, key@) == Some(i as int)) by {
                    match member_index(ms@, key@) {
                        Some(x) => {
                            if x < i {
                                assert(ms@[x] == before[x]);
                            }
                            if x > i {
                                assert(ms@[i as int].key@ == key@);
                            }
                        },
                        None => {
                            assert(ms@[i as int].key@ == key@);
                        },
                    }
                }
                assert forall|k: Seq<char>| k != key@ implies members_get(ms@, k) == #[trigger] members_get(before, k) by {
                    assert forall|j: int| 0 <= j < before.len() && before[j].key@ == k implies before[j].value
                        == ms@[j].value by {
                        if j == i {
                            assert(before[j].key@ == key@);
                        }
                    }
                    lemma_members_get_same_keys(before, ms@, k);
                }
            }
            return;
        }
        i = i + 1;
    }
    let ghost before = ms@;
    let m = JsonMember { key: String::from_str(key), value };
    ms.push(m);
    proof {
        assert(members_get(before, key@) is None) by {
            lemma_member_index(before, key@);
        }
        assert(ms@ == before.push(ms@.last()));
        lemma_members_get_push(before, ms@.last(), key@);
        assert forall|k: Seq<char>| k != key@ implies members_get(ms@, k) == #[trigger] members_get(before, k) by {
            lemma_members_get_push(before, ms@.last(), k);
        }
    }
}

} // verus!

verus! {

/// What `serde_json::to_string_pretty` writes for the document `v`.
pub uninterp spec fn json_pretty(v: JsonValue) -> Seq<char>;

impl JsonValue {
    /// Moves this model into a `serde_json` value, variant by variant.
    #[verifier::external_body]
    fn to_serde(&self) -> serde_json::Value {
        match self {
            JsonValue::Null => serde_json::Value::Null,
            JsonValue::Bool(b) => serde_json::Value::Bool(*b),
            JsonValue::Number(text, _) => text.parse::<serde_json::Number>().map(serde_json::Value::Number).unwrap_or(serde_json::Value::Null),
            JsonValue::Str(s) => serde_json::Value::String(s.clone()),
            JsonValue::Array(a) => serde_json::Value::Array(a.iter().map(JsonValue::to_serde).collect()),
            JsonValue::Object(ms) => serde_json::Value::Object(ms.iter().map(|m| (m.key.clone(), m.value.to_serde())).collect()),
        }
    }
}

/// `serde_json::to_string_pretty` of a document: the same document gives the
/// same text. Writing a `Value` cannot fail (its keys are strings); nothing
/// more is stated of the layout.
#[verifier::external_body]
pub fn json_to_string_pretty(v: &JsonValue) -> (r: String)
    ensures
        r@ == json_pretty(*v),
{
    serde_json::to_string_pretty(&v.to_serde()).unwrap_or_default()
}


/// What `serde_json::to_string` writes for a document: compact JSON text.
pub uninterp spec fn json_compact(v: JsonValue) -> Seq<char>;

/// `serde_json::to_string` of a document: the same document gives the same
/// text. A `Value` always serializes, so no failure is left to handle.
#[verifier::external_body]
pub fn json_to_string(v: &JsonValue) -> (r: String)
    ensures
        r@ == json_compact(*v),
{
    serde_json::to_string(&v.to_serde()).unwrap_or_default()
}

/// Takes the value of member `key` out of `ms`, leaving `null` in its place
/// (`Map::get_mut` followed by `std::mem::take`).
pub fn members_take(ms: &mut Vec<JsonMember>, key: &str) -> (r: Option<JsonValue>)
    ensures
        r == members_get(old(ms)@, key@),
        r is Some ==> members_get(final(ms)@, key@) == Some(JsonValue::Null),
        r is None ==> final(ms)@ == old(ms)@,
        forall|k: Seq<char>| k != key@ ==> members_get(final(ms)@, k) == #[trigger] members_get(old(ms)@, k),
{
    proof {
        lemma_member_index(ms@, key@);
    }
    let mut i: usize = 0;
    while i < ms.len()
        invariant
            i <= ms@.len(),
            ms@ == old(ms)@,
            forall|j: int| 0 <= j < i ==> (#[trigger] ms@[j]).key@ != key@,
        decreases ms@.len() - i,
    {
        if str_eq(ms[i].key.as_str(), key) {
            let ghost before = ms@;
            let m = ms.remove(i);
            let JsonMember { key: k, value } = m;
            ms.insert(i, JsonMember { key: k, value: JsonValue::Null });
            proof {
                assert(ms@ =~= before.update(i as int, JsonMember { key: k, value: JsonValue::Null }));
                lemma_member_index(before, key@);
                assert(member_index(before, key@) == Some(i as int)) by {
                    match member_index(before, key@) {
                        Some(x) => {
                            if x > i {
                                assert(before[i as int].key@ == key@);
                            }
                        },
                        None => {
                            assert(before[i as int].key@ == key@);
                        },
                    }
                }
                lemma_member_index(ms@, key@);
                assert(member_index(ms@, key@) == Some(i as int)) by {
                    match member_index(ms@, key@) {
                        Some(x) => {
                            if x < i {
                                assert(ms@[x] == before[x]);
                            }
                            if x > i {
                                assert(ms@[i as int].key@ == key@);
                            }
                        },
                        None => {
                            assert(ms@[i as int].key@ == key@);
                        },
                    }
                }
                assert forall|kk: Seq<char>| kk != key@ implies members_get(ms@, kk) == #[trigger] members_get(before, kk) by {
                    assert forall|j: int| 0 <= j < before.len() && before[j].key@ == kk implies before[j].value
                        == ms@[j].value by {
                        if j == i {
                            assert(before[j].key@ == key@);
                        }
                    }
                    lemma_members_get_same_keys(before, ms@, kk);
                }
            }
            return Some(value);
        }
        i = i + 1;
    }
    None
}

/// A JSON number for the non-negative integer `n`.
pub open spec fn is_count(v: JsonValue, n: nat) -> bool {
    v matches JsonValue::Number(text, value) && text@ == crate::text::decimal(n) && value == Some(n as u64)
}

/// A JSON string with the text `t`.
pub open spec fn is_text(v: JsonValue, t: Seq<char>) -> bool {
    v matches JsonValue::Str(x) && x@ == t
}

/// The JSON number for `n`.
pub fn count_value(n: u64) -> (r: JsonValue)
    ensures
        is_count(r, n as nat),
{
    JsonValue::Number(crate::text::decimal_string(n), Some(n))
}

/// The member `key` with the value `value`.
pub fn member(key: &str, value: JsonValue) -> (r: JsonMember)
    ensures
        r.key@ == key@,
        r.value == value,
{
    JsonMember { key: crate::text::owned(key), value }
}

} // verus!
