//! The workspace roots that Codex's desktop app keeps in its global state
//! (`.codex-global-state.json`): after a provider sync they are written the
//! way the desktop app writes them, each once, and the threads that belong to
//! no project are read from it.
use vstd::prelude::*;

use crate::json::{
    is_text, json_parse, lemma_member_index, member, member_index, members_get, members_get_exec, parse_json,
    JsonMember, JsonValue,
};
use crate::provider_sync::{dedupe_paths, dedupe_spec, desktop_path_spec, to_desktop_workspace_path};
use crate::relay_rotation::ids_view;
use crate::text::{is_blank, owned, str_eq, trim};

verus! {

/// `a` and `b` are the same JSON value: the same variant with the same texts,
/// numbers, items and members, in the same order.
pub open spec fn json_same(a: JsonValue, b: JsonValue) -> bool
    decreases a,
{
    match a {
        JsonValue::Null => b is Null,
        JsonValue::Bool(x) => b == JsonValue::Bool(x),
        JsonValue::Number(t, n) => b matches JsonValue::Number(u, m) && u@ == t@ && m == n,
        JsonValue::Str(s) => b matches JsonValue::Str(u) && u@ == s@,
        JsonValue::Array(xs) => b matches JsonValue::Array(ys) && ys@.len() == xs@.len() && forall|i: int|
            0 <= i < xs@.len() ==> json_same(xs@[i], #[trigger] ys@[i]),
        JsonValue::Object(xs) => b matches JsonValue::Object(ys) && ys@.len() == xs@.len() && forall|i: int|
            0 <= i < xs@.len() ==> (#[trigger] ys@[i]).key@ == xs@[i].key@ && json_same(xs@[i].value, ys@[i].value),
    }
}

/// A copy of a JSON value.
pub fn json_copy(value: &JsonValue) -> (r: JsonValue)
    ensures
        json_same(*value, r),
    decreases value,
{
    match value {
        JsonValue::Object(ms) => {
            let mut out: Vec<JsonMember> = Vec::new();
            let mut i: usize = 0;
            assert(decreases_to!(*value => *ms));
            while i < ms.len()
                invariant
                    i <= ms@.len(),
                    *value == JsonValue::Object(*ms),
                    decreases_to!(*value => *ms),
                    out@.len() == i,
                    forall|j: int|
                        0 <= j < i ==> (#[trigger] out@[j]).key@ == ms@[j].key@ && json_same(ms@[j].value, out@[j].value),
                decreases ms@.len() - i,
            {
                proof {
                    assert(decreases_to!(*ms => ms@));
                    assert(decreases_to!(ms@ => ms@[i as int]));
                    assert(decreases_to!(ms@[i as int] => ms@[i as int].value));
                }
                let v = json_copy(&ms[i].value);
                out.push(JsonMember { key: ms[i].key.clone(), value: v });
                i = i + 1;
            }
            JsonValue::Object(out)
        },
        JsonValue::Array(vs) => {
            let mut out: Vec<JsonValue> = Vec::new();
            let mut i: usize = 0;
            assert(decreases_to!(*value => *vs));
            while i < vs.len()
                invariant
                    i <= vs@.len(),
                    *value == JsonValue::Array(*vs),
                    decreases_to!(*value => *vs),
                    out@.len() == i,
                    forall|j: int| 0 <= j < i ==> json_same(vs@[j], #[trigger] out@[j]),
                decreases vs@.len() - i,
            {
                proof {
                    assert(decreases_to!(*vs => vs@));
                    assert(decreases_to!(vs@ => vs@[i as int]));
                }
                let v = json_copy(&vs[i]);
                out.push(v);
                i = i + 1;
            }
            JsonValue::Array(out)
        },
        JsonValue::Str(s) => JsonValue::Str(s.clone()),
        JsonValue::Null => JsonValue::Null,
        JsonValue::Bool(b) => JsonValue::Bool(*b),
        JsonValue::Number(text, n) => JsonValue::Number(text.clone(), *n),
    }
}

/// The non-blank texts among `vs`, in order.
pub open spec fn text_items(vs: Seq<JsonValue>) -> Seq<Seq<char>>
    decreases vs.len(),
{
    if vs.len() == 0 {
        Seq::empty()
    } else {
        let prev = text_items(vs.drop_last());
        match vs.last() {
            JsonValue::Str(s) => if trim(s@).len() > 0 {
                prev.push(s@)
            } else {
                prev
            },
            _ => prev,
        }
    }
}

/// The paths a value lists: the non-blank texts of an array, or a
/// non-blank text on its own.
pub open spec fn path_array_spec(v: JsonValue) -> Seq<Seq<char>> {
    match v {
        JsonValue::Array(xs) => text_items(xs@),
        JsonValue::Str(s) => if trim(s@).len() > 0 {
            seq![s@]
        } else {
            Seq::empty()
        },
        _ => Seq::empty(),
    }
}

/// The non-blank texts among `vs`, in order.
fn text_items_exec(vs: &Vec<JsonValue>) -> (r: Vec<String>)
    ensures
        ids_view(r@) == text_items(vs@),
{
    let mut out: Vec<String> = Vec::new();
    let mut i: usize = 0;
    while i < vs.len()
        invariant
            i <= vs@.len(),
            ids_view(out@) == text_items(vs@.take(i as int)),
        decreases vs@.len() - i,
    {
        assert(vs@.take(i + 1).drop_last() =~= vs@.take(i as int));
        assert(vs@.take(i + 1).last() == vs@[i as int]);
        match &vs[i] {
            JsonValue::Str(s) => {
                if !is_blank(s.as_str()) {
                    let ghost before = ids_view(out@);
                    out.push(s.clone());
                    assert(ids_view(out@) =~= before.push(s@));
                }
            },
            _ => {},
        }
        i = i + 1;
    }
    assert(vs@.take(vs@.len() as int) =~= vs@);
    out
}

/// The paths a value lists.
pub fn path_array(v: &JsonValue) -> (r: Vec<String>)
    ensures
        ids_view(r@) == path_array_spec(*v),
{
    match v {
        JsonValue::Array(xs) => text_items_exec(xs),
        JsonValue::Str(s) => {
            if is_blank(s.as_str()) {
                let r: Vec<String> = Vec::new();
                assert(ids_view(r@) =~= Seq::<Seq<char>>::empty());
                r
            } else {
                let r = vec![s.clone()];
                assert(ids_view(r@) =~= seq![s@]);
                r
            }
        },
        _ => {
            let r: Vec<String> = Vec::new();
            assert(ids_view(r@) =~= Seq::<Seq<char>>::empty());
            r
        },
    }
}

/// An array of the texts `ps`, in order.
pub open spec fn is_text_array(v: JsonValue, ps: Seq<Seq<char>>) -> bool {
    v matches JsonValue::Array(xs) && xs@.len() == ps.len() && forall|i: int|
        0 <= i < ps.len() ==> is_text(#[trigger] xs@[i], ps[i])
}

/// The array of the texts `ps`.
fn text_array(ps: Vec<String>) -> (r: JsonValue)
    ensures
        is_text_array(r, ids_view(ps@)),
{
    let mut out: Vec<JsonValue> = Vec::new();
    let mut i: usize = 0;
    while i < ps.len()
        invariant
            i <= ps@.len(),
            out@.len() == i,
            forall|j: int| 0 <= j < i ==> is_text(#[trigger] out@[j], ps@[j]@),
        decreases ps@.len() - i,
    {
        out.push(JsonValue::Str(ps[i].clone()));
        i = i + 1;
    }
    JsonValue::Array(out)
}

/// Whether `v` is the array of the texts `ps`.
fn is_text_array_exec(v: &JsonValue, ps: &Vec<String>) -> (r: bool)
    ensures
        r == is_text_array(*v, ids_view(ps@)),
{
    match v {
        JsonValue::Array(xs) => {
            if xs.len() != ps.len() {
                return false;
            }
            let mut i: usize = 0;
            while i < ps.len()
                invariant
                    i <= ps@.len(),
                    *v == JsonValue::Array(*xs),
                    xs@.len() == ps@.len(),
                    forall|j: int| 0 <= j < i ==> is_text(#[trigger] xs@[j], ps@[j]@),
                decreases ps@.len() - i,
            {
                let same = match &xs[i] {
                    JsonValue::Str(s) => str_eq(s.as_str(), ps[i].as_str()),
                    _ => false,
                };
                if !same {
                    assert(!is_text(xs@[i as int], ids_view(ps@)[i as int]));
                    assert(!is_text_array(*v, ids_view(ps@))) by {
                        if is_text_array(*v, ids_view(ps@)) {
                            assert(is_text(xs@[i as int], ids_view(ps@)[i as int]));
                        }
                    }
                    return false;
                }
                i = i + 1;
            }
            true
        },
        _ => false,
    }
}

/// A member key as the desktop app writes it: the key's desktop path, or the
/// key itself when it names no path.
pub open spec fn desktop_key(k: Seq<char>) -> Seq<char> {
    match desktop_path_spec(k) {
        Some(d) => d,
        None => k,
    }
}

fn desktop_key_exec(k: &str) -> (r: String)
    ensures
        r@ == desktop_key(k@),
{
    match to_desktop_workspace_path(k) {
        Some(d) => d,
        None => owned(k),
    }
}

/// No two members share a key.
pub open spec fn keys_unique(ms: Seq<JsonMember>) -> bool {
    forall|i: int, j: int| 0 <= i < j < ms.len() ==> (#[trigger] ms[i]).key@ != (#[trigger] ms[j]).key@
}

/// The value that re-keying `ms` to desktop paths leaves under `k`: that of
/// the last member whose key becomes `k`.
pub open spec fn rekey_get(ms: Seq<JsonMember>, k: Seq<char>) -> Option<JsonValue>
    decreases ms.len(),
{
    if ms.len() == 0 {
        None
    } else if desktop_key(ms.last().key@) == k {
        Some(ms.last().value)
    } else {
        rekey_get(ms.drop_last(), k)
    }
}

/// Both absent, or both present with the same value.
pub open spec fn same_opt(a: Option<JsonValue>, b: Option<JsonValue>) -> bool {
    match (a, b) {
        (Some(x), Some(y)) => json_same(x, y),
        (None, None) => true,
        _ => false,
    }
}

/// `out` is `ms` with every key turned into its desktop path, a later member
/// winning over an earlier one that gets the same key; each key once.
pub open spec fn rekeyed(ms: Seq<JsonMember>, out: Seq<JsonMember>) -> bool {
    &&& keys_unique(out)
    &&& forall|k: Seq<char>| #[trigger] same_opt(rekey_get(ms, k), members_get(out, k))
}

/// Members with distinct keys: the value under a key is that of the one
/// member with it.
proof fn lemma_unique_get(ms: Seq<JsonMember>, i: int)
    requires
        keys_unique(ms),
        0 <= i < ms.len(),
    ensures
        members_get(ms, ms[i].key@) == Some(ms[i].value),
{
    lemma_member_index(ms, ms[i].key@);
    let j = member_index(ms, ms[i].key@)->0;
    if j != i {
        if j < i {
            assert(ms[j].key@ != ms[i].key@);
        } else {
            assert(ms[i].key@ != ms[j].key@);
        }
    }
}

/// Sets member `key` to `value` among members with distinct keys (`Map::insert`).
fn members_put(ms: &mut Vec<JsonMember>, key: String, value: JsonValue)
    requires
        keys_unique(old(ms)@),
    ensures
        keys_unique(final(ms)@),
        members_get(final(ms)@, key@) == Some(value),
        forall|k: Seq<char>| k != key@ ==> members_get(final(ms)@, k) == #[trigger] members_get(old(ms)@, k),
{
    let ghost before = ms@;
    let mut i: usize = 0;
    while i < ms.len()
        invariant
            i <= ms@.len(),
            ms@ == before,
            before == old(ms)@,
            keys_unique(before),
            forall|j: int| 0 <= j < i ==> (#[trigger] ms@[j]).key@ != key@,
        decreases ms@.len() - i,
    {
        if str_eq(ms[i].key.as_str(), key.as_str()) {
            let ghost kv = key@;
            ms.set(i, JsonMember { key, value });
            proof {
                assert(ms@ == before.update(i as int, ms@[i as int]));
                assert(ms@[i as int].key@ == kv);
                assert(before[i as int].key@ == kv);
                assert forall|a: int, b: int| 0 <= a < b < ms@.len() implies (#[trigger] ms@[a]).key@ != (
                #[trigger] ms@[b]).key@ by {
                    assert(ms@[a].key@ == before[a].key@);
                    assert(ms@[b].key@ == before[b].key@);
                }
                lemma_unique_get(ms@, i as int);
                assert forall|j: int| 0 <= j < before.len() implies (#[trigger] before[j]).key@ == ms@[j].key@ by {
                    if j != i {
                        assert(ms@[j] == before[j]);
                    }
                }
                assert forall|k: Seq<char>| k != kv implies members_get(ms@, k) == #[trigger] members_get(before, k) by {
                    assert forall|j: int| 0 <= j < before.len() && before[j].key@ == k implies before[j].value
                        == ms@[j].value by {
                        if j == i {
                            assert(before[j].key@ == kv);
                        } else {
                            assert(ms@[j] == before[j]);
                        }
                    }
                    crate::json::lemma_members_get_same_keys(before, ms@, k);
                }
                assert(before == old(ms)@);
                assert forall|k: Seq<char>| k != key@ implies members_get(ms@, k) == #[trigger] members_get(old(ms)@, k) by {
                    assert(members_get(ms@, k) == members_get(before, k));
                }
            }
            return;
        }
        i = i + 1;
    }
    let m = JsonMember { key, value };
    ms.push(m);
    proof {
        assert(members_get(before, m.key@) is None) by {
            lemma_member_index(before, m.key@);
        }
        assert(ms@ == before.push(m));
        crate::json::lemma_members_get_push(before, m, m.key@);
        assert forall|k: Seq<char>| k != m.key@ implies members_get(ms@, k) == #[trigger] members_get(before, k) by {
            crate::json::lemma_members_get_push(before, m, k);
        }
        assert forall|a: int, b: int| 0 <= a < b < ms@.len() implies (#[trigger] ms@[a]).key@ != (#[trigger] ms@[b]).key@ by {
            if b == before.len() {
                assert(ms@[a] == before[a]);
            }
        }
    }
}

/// `ms` with every key turned into its desktop path.
fn rekey_members(ms: &Vec<JsonMember>) -> (r: Vec<JsonMember>)
    ensures
        rekeyed(ms@, r@),
{
    let mut out: Vec<JsonMember> = Vec::new();
    let mut i: usize = 0;
    while i < ms.len()
        invariant
            i <= ms@.len(),
            keys_unique(out@),
            forall|k: Seq<char>| #[trigger] same_opt(rekey_get(ms@.take(i as int), k), members_get(out@, k)),
        decreases ms@.len() - i,
    {
        let ghost before = out@;
        let key = desktop_key_exec(ms[i].key.as_str());
        let value = json_copy(&ms[i].value);
        let ghost kv = key@;
        let ghost vv = value;
        members_put(&mut out, key, value);
        proof {
            assert(ms@.take(i + 1).drop_last() =~= ms@.take(i as int));
            assert(ms@.take(i + 1).last() == ms@[i as int]);
            assert forall|k: Seq<char>| #[trigger] same_opt(rekey_get(ms@.take(i + 1), k), members_get(out@, k)) by {
                if k != kv {
                    assert(same_opt(rekey_get(ms@.take(i as int), k), members_get(before, k)));
                }
            }
        }
        i = i + 1;
    }
    assert(ms@.take(ms@.len() as int) =~= ms@);
    out
}

/// The key of the workspace roots the desktop app has saved.
pub const SAVED_ROOTS: &'static str = "electron-saved-workspace-roots";
/// The key of the order of the projects.
pub const PROJECT_ORDER: &'static str = "project-order";
/// The key of the workspace roots in use.
pub const ACTIVE_ROOTS: &'static str = "active-workspace-roots";
/// The key of the labels given to workspace roots.
pub const ROOT_LABELS: &'static str = "electron-workspace-root-labels";
/// The key of the preferred "open in" targets.
pub const OPEN_TARGETS: &'static str = "open-in-target-preferences";
/// The key, inside the "open in" preferences, of the per-path preferences.
pub const PER_PATH: &'static str = "perPath";
/// The key of the threads that belong to no project.
pub const PROJECTLESS_THREADS: &'static str = "projectless-thread-ids";

/// The keys whose value lists workspace roots.
pub open spec fn is_roots_key(k: Seq<char>) -> bool {
    k == SAVED_ROOTS@ || k == PROJECT_ORDER@ || k == ACTIVE_ROOTS@
}

/// The keys whose value is an object keyed by workspace roots.
pub open spec fn is_object_key(k: Seq<char>) -> bool {
    k == ROOT_LABELS@ || k == OPEN_TARGETS@
}

/// Member `k` with value `v` is normalized: a list of roots, or an object
/// keyed by roots when it is an object.
pub open spec fn normalizes(k: Seq<char>, v: JsonValue) -> bool {
    is_roots_key(k) || (is_object_key(k) && v is Object)
}

/// Every key is already a desktop path (or names no path).
pub open spec fn keys_kept(ms: Seq<JsonMember>) -> bool {
    forall|i: int| 0 <= i < ms.len() ==> desktop_key((#[trigger] ms[i]).key@) == ms[i].key@
}

/// The "open in" preferences `ms` with their per-path preferences (the first
/// member `perPath`, when it is an object) re-keyed to desktop paths, and
/// every other member as it was.
pub open spec fn per_path_fixed(ms: Seq<JsonMember>, out: Seq<JsonMember>) -> bool {
    &&& out.len() == ms.len()
    &&& forall|i: int|
        0 <= i < ms.len() ==> {
            &&& (#[trigger] out[i]).key@ == ms[i].key@
            &&& if member_index(ms, PER_PATH@) == Some(i) && ms[i].value is Object {
                out[i].value matches JsonValue::Object(q) && rekeyed(ms[i].value->Object_0@, q@)
            } else {
                json_same(ms[i].value, out[i].value)
            }
        }
}

/// `r` is the normalized value of member `k` whose value is `v`: a list of
/// roots becomes its paths as the desktop app writes them, each once (the
/// roots in use stay a list when they are one, else become their first path,
/// or stay as they are when they name none); the labels and the per-path
/// preferences get their keys as desktop paths; anything else stays.
pub open spec fn normalized_value(k: Seq<char>, v: JsonValue, r: JsonValue) -> bool {
    let n = dedupe_spec(path_array_spec(v)).0;
    if k == SAVED_ROOTS@ || k == PROJECT_ORDER@ {
        is_text_array(r, n)
    } else if k == ACTIVE_ROOTS@ {
        if v is Array {
            is_text_array(r, n)
        } else if n.len() > 0 {
            is_text(r, n[0])
        } else {
            json_same(v, r)
        }
    } else if k == ROOT_LABELS@ {
        match v {
            JsonValue::Object(ms) => r matches JsonValue::Object(out) && rekeyed(ms@, out@),
            _ => json_same(v, r),
        }
    } else if k == OPEN_TARGETS@ {
        match v {
            JsonValue::Object(ms) => r matches JsonValue::Object(out) && per_path_fixed(ms@, out@),
            _ => json_same(v, r),
        }
    } else {
        json_same(v, r)
    }
}

/// Normalizing member `k` with value `v` changes it: the list of roots is
/// not already the normalized one, or some label or per-path key is not a
/// desktop path yet. (Keys of an object are distinct, so re-keying changes
/// an object exactly when some key changes: a changed key is shorter.)
pub open spec fn changes(k: Seq<char>, v: JsonValue) -> bool {
    let n = dedupe_spec(path_array_spec(v)).0;
    if k == SAVED_ROOTS@ || k == PROJECT_ORDER@ {
        !is_text_array(v, n)
    } else if k == ACTIVE_ROOTS@ {
        if v is Array {
            !is_text_array(v, n)
        } else if n.len() > 0 {
            !is_text(v, n[0])
        } else {
            false
        }
    } else if k == ROOT_LABELS@ {
        v matches JsonValue::Object(ms) && !keys_kept(ms@)
    } else if k == OPEN_TARGETS@ {
        v matches JsonValue::Object(ms) && (members_get(ms@, PER_PATH@) matches Some(JsonValue::Object(pp)) && !keys_kept(
            pp@,
        ))
    } else {
        false
    }
}

/// The normalized keys, in the order they are handled.
pub open spec fn normalized_keys() -> Seq<Seq<char>> {
    seq![SAVED_ROOTS@, PROJECT_ORDER@, ACTIVE_ROOTS@, ROOT_LABELS@, OPEN_TARGETS@]
}

/// The state has member `k` and it is normalized.
pub open spec fn applies(state: Seq<JsonMember>, k: Seq<char>) -> bool {
    members_get(state, k) matches Some(v) && normalizes(k, v)
}

/// The keys among `ks` that the state normalizes, in order.
pub open spec fn applying_keys(state: Seq<JsonMember>, ks: Seq<Seq<char>>) -> Seq<Seq<char>>
    decreases ks.len(),
{
    if ks.len() == 0 {
        Seq::empty()
    } else {
        let prev = applying_keys(state, ks.drop_last());
        if applies(state, ks.last()) {
            prev.push(ks.last())
        } else {
            prev
        }
    }
}

/// How many of the keys `ks` normalizing changes.
pub open spec fn change_count(state: Seq<JsonMember>, ks: Seq<Seq<char>>) -> nat
    decreases ks.len(),
{
    if ks.len() == 0 {
        0
    } else {
        change_count(state, ks.drop_last()) + (if applies(state, ks.last()) && changes(
            ks.last(),
            members_get(state, ks.last())->0,
        ) {
            1nat
        } else {
            0nat
        })
    }
}

/// The keys of some members.
pub open spec fn member_keys(ms: Seq<JsonMember>) -> Seq<Seq<char>> {
    ms.map_values(|m: JsonMember| m.key@)
}

fn keys_kept_exec(ms: &Vec<JsonMember>) -> (r: bool)
    ensures
        r == keys_kept(ms@),
{
    let mut i: usize = 0;
    while i < ms.len()
        invariant
            i <= ms@.len(),
            forall|j: int| 0 <= j < i ==> desktop_key((#[trigger] ms@[j]).key@) == ms@[j].key@,
        decreases ms@.len() - i,
    {
        let d = desktop_key_exec(ms[i].key.as_str());
        if !str_eq(d.as_str(), ms[i].key.as_str()) {
            return false;
        }
        i = i + 1;
    }
    true
}

/// Where the first member with key `key` sits.
fn first_position(ms: &Vec<JsonMember>, key: &str) -> (r: Option<usize>)
    ensures
        match r {
            Some(i) => member_index(ms@, key@) == Some(i as int),
            None => member_index(ms@, key@) is None,
        },
{
    proof {
        lemma_member_index(ms@, key@);
    }
    let mut i: usize = 0;
    while i < ms.len()
        invariant
            i <= ms@.len(),
            forall|j: int| 0 <= j < i ==> (#[trigger] ms@[j]).key@ != key@,
        decreases ms@.len() - i,
    {
        if str_eq(ms[i].key.as_str(), key) {
            proof {
                lemma_member_index(ms@, key@);
                match member_index(ms@, key@) {
                    Some(x) => {
                        if x > i {
                            assert(ms@[i as int].key@ == key@);
                        }
                    },
                    None => {
                        assert(ms@[i as int].key@ == key@);
                    },
                }
            }
            return Some(i);
        }
        i = i + 1;
    }
    proof {
        lemma_member_index(ms@, key@);
        if member_index(ms@, key@) is Some {
            let x = member_index(ms@, key@)->0;
            assert(ms@[x].key@ == key@);
        }
    }
    None
}

/// The "open in" preferences with their per-path preferences re-keyed.
fn fix_per_path(ms: &Vec<JsonMember>) -> (r: Vec<JsonMember>)
    ensures
        per_path_fixed(ms@, r@),
{
    let first = first_position(ms, PER_PATH);
    let mut out: Vec<JsonMember> = Vec::new();
    let mut i: usize = 0;
    while i < ms.len()
        invariant
            i <= ms@.len(),
            out@.len() == i,
            match first {
                Some(x) => member_index(ms@, PER_PATH@) == Some(x as int),
                None => member_index(ms@, PER_PATH@) is None,
            },
            forall|j: int|
                0 <= j < i ==> {
                    &&& (#[trigger] out@[j]).key@ == ms@[j].key@
                    &&& if member_index(ms@, PER_PATH@) == Some(j) && ms@[j].value is Object {
                        out@[j].value matches JsonValue::Object(q) && rekeyed(ms@[j].value->Object_0@, q@)
                    } else {
                        json_same(ms@[j].value, out@[j].value)
                    }
                },
        decreases ms@.len() - i,
    {
        let is_first = match first {
            Some(x) => x == i,
            None => false,
        };
        let value = match &ms[i].value {
            JsonValue::Object(pp) => {
                if is_first {
                    JsonValue::Object(rekey_members(pp))
                } else {
                    json_copy(&ms[i].value)
                }
            },
            _ => json_copy(&ms[i].value),
        };
        out.push(JsonMember { key: ms[i].key.clone(), value });
        i = i + 1;
    }
    out
}

/// The normalized value of member `key` whose value is `v`.
fn normalize_value(key: &str, v: &JsonValue) -> (r: JsonValue)
    ensures
        normalized_value(key@, *v, r),
{
    if str_eq(key, SAVED_ROOTS) || str_eq(key, PROJECT_ORDER) {
        text_array(dedupe_paths(path_array(v)))
    } else if str_eq(key, ACTIVE_ROOTS) {
        let n = dedupe_paths(path_array(v));
        match v {
            JsonValue::Array(_) => text_array(n),
            _ => {
                if n.len() > 0 {
                    JsonValue::Str(n[0].clone())
                } else {
                    json_copy(v)
                }
            },
        }
    } else if str_eq(key, ROOT_LABELS) {
        match v {
            JsonValue::Object(ms) => JsonValue::Object(rekey_members(ms)),
            _ => json_copy(v),
        }
    } else if str_eq(key, OPEN_TARGETS) {
        match v {
            JsonValue::Object(ms) => JsonValue::Object(fix_per_path(ms)),
            _ => json_copy(v),
        }
    } else {
        json_copy(v)
    }
}

/// Whether normalizing member `key` with value `v` changes it.
fn changes_exec(key: &str, v: &JsonValue) -> (r: bool)
    ensures
        r == changes(key@, *v),
{
    if str_eq(key, SAVED_ROOTS) || str_eq(key, PROJECT_ORDER) {
        let n = dedupe_paths(path_array(v));
        !is_text_array_exec(v, &n)
    } else if str_eq(key, ACTIVE_ROOTS) {
        let n = dedupe_paths(path_array(v));
        match v {
            JsonValue::Array(_) => !is_text_array_exec(v, &n),
            JsonValue::Str(s) => {
                if n.len() > 0 {
                    !str_eq(s.as_str(), n[0].as_str())
                } else {
                    false
                }
            },
            _ => n.len() > 0,
        }
    } else if str_eq(key, ROOT_LABELS) {
        match v {
            JsonValue::Object(ms) => !keys_kept_exec(ms),
            _ => false,
        }
    } else if str_eq(key, OPEN_TARGETS) {
        match v {
            JsonValue::Object(ms) => match members_get_exec(ms, PER_PATH) {
                Some(JsonValue::Object(pp)) => !keys_kept_exec(pp),
                _ => false,
            },
            _ => false,
        }
    } else {
        false
    }
}

/// Whether member `key` with value `v` is normalized.
fn normalizes_exec(key: &str, v: &JsonValue) -> (r: bool)
    ensures
        r == normalizes(key@, *v),
{
    let object = match v {
        JsonValue::Object(_) => true,
        _ => false,
    };
    str_eq(key, SAVED_ROOTS) || str_eq(key, PROJECT_ORDER) || str_eq(key, ACTIVE_ROOTS) || ((str_eq(key, ROOT_LABELS)
        || str_eq(key, OPEN_TARGETS)) && object)
}

/// The members of the global state whose file holds `text` (`None` when
/// there is no file): none without a file or when the document is not an
/// object; `None` when the text is not one JSON document.
pub fn global_state_from_text(text: Option<&str>) -> (r: Option<Vec<JsonMember>>)
    ensures
        match text {
            None => r matches Some(ms) && ms@.len() == 0,
            Some(t) => match json_parse(t@) {
                None => r is None,
                Some(JsonValue::Object(ms)) => r == Some(ms),
                Some(_) => r matches Some(ms) && ms@.len() == 0,
            },
        },
{
    match text {
        None => Some(Vec::new()),
        Some(t) => match parse_json(t) {
            None => None,
            Some(JsonValue::Object(ms)) => Some(ms),
            Some(_) => Some(Vec::new()),
        },
    }
}

/// The normalized members of the global state `state`: one for each of the
/// normalized keys that `state` holds (and, for the labels and the "open in"
/// preferences, holds as an object), in the order of `normalized_keys`.
pub fn normalized_global_state(state: &Vec<JsonMember>) -> (r: Vec<JsonMember>)
    ensures
        member_keys(r@) == applying_keys(state@, normalized_keys()),
        forall|i: int|
            0 <= i < r@.len() ==> normalized_value(
                (#[trigger] r@[i]).key@,
                members_get(state@, r@[i].key@)->0,
                r@[i].value,
            ),
{
    let keys: Vec<&str> = vec![SAVED_ROOTS, PROJECT_ORDER, ACTIVE_ROOTS, ROOT_LABELS, OPEN_TARGETS];
    let ghost ks = normalized_keys();
    assert(keys@.len() == 5);
    assert(forall|j: int| 0 <= j < 5 ==> #[trigger] keys@[j]@ == ks[j]);
    let mut out: Vec<JsonMember> = Vec::new();
    let mut i: usize = 0;
    while i < keys.len()
        invariant
            i <= 5,
            keys@.len() == 5,
            ks == normalized_keys(),
            forall|j: int| 0 <= j < 5 ==> #[trigger] keys@[j]@ == ks[j],
            member_keys(out@) == applying_keys(state@, ks.take(i as int)),
            forall|j: int|
                0 <= j < out@.len() ==> normalized_value(
                    (#[trigger] out@[j]).key@,
                    members_get(state@, out@[j].key@)->0,
                    out@[j].value,
                ),
        decreases 5 - i,
    {
        assert(ks.take(i + 1).drop_last() =~= ks.take(i as int));
        assert(ks.take(i + 1).last() == ks[i as int]);
        let k = keys[i];
        match members_get_exec(state, k) {
            Some(v) => {
                if normalizes_exec(k, v) {
                    let ghost before = out@;
                    let nv = normalize_value(k, v);
                    out.push(member(k, nv));
                    assert(member_keys(out@) =~= member_keys(before).push(k@));
                }
            },
            None => {},
        }
        i = i + 1;
    }
    assert(ks.take(5) =~= ks);
    out
}

/// How many members normalizing the global state `state` changes.
pub fn global_state_update_count(state: &Vec<JsonMember>) -> (r: usize)
    ensures
        r as nat == change_count(state@, normalized_keys()),
{
    let keys: Vec<&str> = vec![SAVED_ROOTS, PROJECT_ORDER, ACTIVE_ROOTS, ROOT_LABELS, OPEN_TARGETS];
    let ghost ks = normalized_keys();
    assert(keys@.len() == 5);
    assert(forall|j: int| 0 <= j < 5 ==> #[trigger] keys@[j]@ == ks[j]);
    let mut count: usize = 0;
    let mut i: usize = 0;
    while i < keys.len()
        invariant
            i <= 5,
            keys@.len() == 5,
            ks == normalized_keys(),
            forall|j: int| 0 <= j < 5 ==> #[trigger] keys@[j]@ == ks[j],
            count as nat == change_count(state@, ks.take(i as int)),
            count <= i,
        decreases 5 - i,
    {
        assert(ks.take(i + 1).drop_last() =~= ks.take(i as int));
        assert(ks.take(i + 1).last() == ks[i as int]);
        let k = keys[i];
        match members_get_exec(state, k) {
            Some(v) => {
                if normalizes_exec(k, v) && changes_exec(k, v) {
                    count = count + 1;
                }
            },
            None => {},
        }
        i = i + 1;
    }
    assert(ks.take(5) =~= ks);
    count
}

/// Member `i` of `state` is the first with its key and is normalized.
pub open spec fn normalized_at(state: Seq<JsonMember>, i: int) -> bool {
    member_index(state, state[i].key@) == Some(i) && normalizes(state[i].key@, state[i].value)
}

/// The global state `state` with its normalized members replaced by their
/// normalized values (every other member as it was), and how many members
/// that changes.
pub fn apply_global_state_update(state: &Vec<JsonMember>) -> (r: (Vec<JsonMember>, usize))
    ensures
        r.1 as nat == change_count(state@, normalized_keys()),
        r.0@.len() == state@.len(),
        forall|i: int|
            0 <= i < state@.len() ==> {
                &&& (#[trigger] r.0@[i]).key@ == state@[i].key@
                &&& if normalized_at(state@, i) {
                    normalized_value(state@[i].key@, state@[i].value, r.0@[i].value)
                } else {
                    json_same(state@[i].value, r.0@[i].value)
                }
            },
{
    let count = global_state_update_count(state);
    let mut out: Vec<JsonMember> = Vec::new();
    let mut i: usize = 0;
    while i < state.len()
        invariant
            i <= state@.len(),
            out@.len() == i,
            forall|j: int|
                0 <= j < i ==> {
                    &&& (#[trigger] out@[j]).key@ == state@[j].key@
                    &&& if normalized_at(state@, j) {
                        normalized_value(state@[j].key@, state@[j].value, out@[j].value)
                    } else {
                        json_same(state@[j].value, out@[j].value)
                    }
                },
        decreases state@.len() - i,
    {
        let key = state[i].key.as_str();
        let first = match first_position(state, key) {
            Some(x) => x == i,
            None => false,
        };
        let value = if first && normalizes_exec(key, &state[i].value) {
            normalize_value(key, &state[i].value)
        } else {
            json_copy(&state[i].value)
        };
        out.push(JsonMember { key: state[i].key.clone(), value });
        i = i + 1;
    }
    (out, count)
}

/// The threads of the global state `state` that belong to no project: the
/// non-blank texts of its `projectless-thread-ids` list, in order.
pub fn projectless_thread_ids(state: &Vec<JsonMember>) -> (r: Vec<String>)
    ensures
        match members_get(state@, PROJECTLESS_THREADS@) {
            Some(JsonValue::Array(xs)) => ids_view(r@) == text_items(xs@),
            _ => r@.len() == 0,
        },
{
    match members_get_exec(state, PROJECTLESS_THREADS) {
        Some(JsonValue::Array(xs)) => text_items_exec(xs),
        _ => Vec::new(),
    }
}

} // verus!
