//! Rollout files: the `session_meta` records of a session, and moving a
//! session to another model provider by rewriting those records.
use vstd::prelude::*;

use crate::codex_oauth::opt_view;
use crate::json::{
    json_compact, json_get, json_parse, json_to_string, members_get, members_get_exec, members_set,
    members_take, parse_json, JsonMember, JsonValue,
};
use crate::provider_sync::{desktop_path_spec, split_line_ending, split_line_ending_spec, to_desktop_workspace_path};
use crate::relay_rotation::{lemma_pairs_index, lemma_pairs_insert, pair_position, pairs_get, pairs_index, pairs_insert};
use crate::text::{
    append_str, contains, is_blank, owned, rows, split_inclusive_nl, str_chars, str_contains, str_eq, string_from,
    trim,
};

verus! {

/// The text of member `key`, when it is a string.
pub open spec fn str_member(ms: Seq<JsonMember>, key: Seq<char>) -> Option<Seq<char>> {
    match members_get(ms, key) {
        Some(JsonValue::Str(s)) => Some(s@),
        _ => None,
    }
}

/// A record whose `type` is the string `session_meta`.
pub open spec fn is_session_meta(rec: JsonValue) -> bool {
    match json_get(rec, "type"@) {
        Some(JsonValue::Str(s)) => s@ == "session_meta"@,
        _ => false,
    }
}

/// The members of a record's `payload`, when it is an object.
pub open spec fn payload_members(rec: JsonValue) -> Option<Seq<JsonMember>> {
    match json_get(rec, "payload"@) {
        Some(JsonValue::Object(p)) => Some(p@),
        _ => None,
    }
}

/// The record on a rollout line, when the line is a `session_meta` record
/// with an object payload.
pub open spec fn session_meta_record(line: Seq<char>) -> Option<JsonValue> {
    if trim(line).len() == 0 {
        None
    } else {
        match json_parse(line) {
            Some(rec) => if is_session_meta(rec) && payload_members(rec) is Some {
                Some(rec)
            } else {
                None
            },
            None => None,
        }
    }
}

/// The provider a payload names, `(missing)` when it names none.
pub open spec fn provider_of(p: Seq<JsonMember>) -> Seq<char> {
    match str_member(p, "model_provider"@) {
        Some(s) => s,
        None => "(missing)"@,
    }
}

/// Whether a payload names a provider other than `target`.
pub open spec fn needs_rewrite(p: Seq<JsonMember>, target: Seq<char>) -> bool {
    str_member(p, "model_provider"@) != Some(target)
}

/// `out` is `rec` with `payload.model_provider` set to `target` and every
/// other member kept.
pub open spec fn provider_rewritten(rec: JsonValue, target: Seq<char>, out: JsonValue) -> bool {
    match (rec, out) {
        (JsonValue::Object(ms), JsonValue::Object(ms2)) => match (
            members_get(ms@, "payload"@),
            members_get(ms2@, "payload"@),
        ) {
            (Some(JsonValue::Object(p)), Some(JsonValue::Object(p2))) => {
                &&& forall|k: Seq<char>| k != "payload"@ ==> #[trigger] members_get(ms2@, k) == members_get(ms@, k)
                &&& forall|k: Seq<char>|
                    k != "model_provider"@ ==> #[trigger] members_get(p2@, k) == members_get(p@, k)
                &&& match members_get(p2@, "model_provider"@) {
                    Some(JsonValue::Str(t)) => t@ == target,
                    _ => false,
                }
            },
            _ => false,
        },
        _ => false,
    }
}

/// What a line becomes: a `session_meta` record that names another provider
/// is written out again, compact, naming `target`; every other line stays.
pub open spec fn line_out_ok(line: Seq<char>, target: Seq<char>, out: Seq<char>) -> bool {
    match session_meta_record(line) {
        Some(rec) => if needs_rewrite(payload_members(rec).unwrap(), target) {
            exists|r: JsonValue| #[trigger] provider_rewritten(rec, target, r) && out == json_compact(r)
        } else {
            out == line
        },
        None => out == line,
    }
}

/// What the `session_meta` records of a rollout say, as plain values.
pub struct RewriteModel {
    pub count: nat,
    pub lines: Seq<Seq<char>>,
    pub thread_id: Option<Seq<char>>,
    pub cwd: Option<Seq<char>>,
    pub providers: Seq<Seq<char>>,
    pub rewrite_needed: bool,
}

pub open spec fn empty_model() -> RewriteModel {
    RewriteModel {
        count: 0,
        lines: Seq::empty(),
        thread_id: None,
        cwd: None,
        providers: Seq::empty(),
        rewrite_needed: false,
    }
}

/// One more line read: a `session_meta` record is counted and kept, its
/// provider listed; the first thread id and the first workspace found stay.
pub open spec fn meta_step(m: RewriteModel, line: Seq<char>, target: Seq<char>) -> RewriteModel {
    match session_meta_record(line) {
        None => m,
        Some(rec) => {
            let p = payload_members(rec).unwrap();
            RewriteModel {
                count: m.count + 1,
                lines: m.lines.push(line),
                thread_id: match m.thread_id {
                    Some(t) => Some(t),
                    None => str_member(p, "id"@),
                },
                cwd: match m.cwd {
                    Some(c) => Some(c),
                    None => match str_member(p, "cwd"@) {
                        Some(c) => desktop_path_spec(c),
                        None => None,
                    },
                },
                providers: m.providers.push(provider_of(p)),
                rewrite_needed: m.rewrite_needed || needs_rewrite(p, target),
            }
        },
    }
}

/// The records among the first `n` pieces of a rollout.
pub open spec fn rewrite_model(segs: Seq<Seq<char>>, target: Seq<char>, n: int) -> RewriteModel
    decreases n,
{
    if n <= 0 {
        empty_model()
    } else {
        meta_step(rewrite_model(segs, target, n - 1), split_line_ending_spec(segs[n - 1]).0, target)
    }
}

/// The first `n` pieces put back together, each line replaced by its output.
pub open spec fn joined_upto(outs: Seq<Seq<char>>, segs: Seq<Seq<char>>, n: int) -> Seq<char>
    decreases n,
{
    if n <= 0 {
        Seq::empty()
    } else {
        joined_upto(outs, segs, n - 1) + outs[n - 1] + split_line_ending_spec(segs[n - 1]).1
    }
}

/// The result of rewriting a rollout.
#[derive(Debug, Clone)]
pub struct RolloutRewrite {
    pub next_text: String,
    pub session_meta_count: usize,
    pub original_session_meta_lines: Vec<String>,
    pub thread_id: Option<String>,
    pub cwd: Option<String>,
    pub providers: Vec<String>,
    pub rewrite_needed: bool,
}

pub open spec fn strings_view(v: Seq<String>) -> Seq<Seq<char>> {
    v.map_values(|s: String| s@)
}

pub open spec fn model_of(
    count: usize,
    lines: Seq<String>,
    thread_id: Option<String>,
    cwd: Option<String>,
    providers: Seq<String>,
    rewrite_needed: bool,
) -> RewriteModel {
    RewriteModel {
        count: count as nat,
        lines: strings_view(lines),
        thread_id: opt_view(thread_id),
        cwd: opt_view(cwd),
        providers: strings_view(providers),
        rewrite_needed,
    }
}

impl RolloutRewrite {
    /// Everything but the new text, as plain values.
    pub open spec fn model(&self) -> RewriteModel {
        model_of(
            self.session_meta_count,
            self.original_session_meta_lines@,
            self.thread_id,
            self.cwd,
            self.providers@,
            self.rewrite_needed,
        )
    }
}

/// What one `session_meta` line says, and what it becomes.
struct MetaLineOut {
    thread_id: Option<String>,
    cwd: Option<String>,
    provider: String,
    needs_rewrite: bool,
    out_line: String,
}

/// The text of member `key` when it is a string.
fn str_member_exec(ms: &Vec<JsonMember>, key: &str) -> (r: Option<String>)
    ensures
        opt_view(r) == str_member(ms@, key@),
{
    match members_get_exec(ms, key) {
        Some(JsonValue::Str(s)) => Some(owned(s.as_str())),
        _ => None,
    }
}

/// Reads one rollout line: `None` unless it is a `session_meta` record with
/// an object payload.
fn session_meta_line(line: &str, target: &str) -> (r: Option<MetaLineOut>)
    ensures
        match r {
            None => session_meta_record(line@) is None,
            Some(o) => session_meta_record(line@) is Some && {
                let p = payload_members(session_meta_record(line@).unwrap()).unwrap();
                &&& opt_view(o.thread_id) == str_member(p, "id"@)
                &&& opt_view(o.cwd) == match str_member(p, "cwd"@) {
                    Some(c) => desktop_path_spec(c),
                    None => None,
                }
                &&& o.provider@ == provider_of(p)
                &&& o.needs_rewrite == needs_rewrite(p, target@)
                &&& line_out_ok(line@, target@, o.out_line@)
            },
        },
{
    if is_blank(line) {
        return None;
    }
    let rec = match parse_json(line) {
        Some(v) => v,
        None => return None,
    };
    let ghost rec0 = rec;
    let mut ms = match rec {
        JsonValue::Object(ms) => ms,
        _ => return None,
    };
    let ghost ms0 = ms@;
    proof {
        reveal_strlit("session_meta");
        reveal_strlit("(missing)");
    }
    match members_get_exec(&ms, "type") {
        Some(JsonValue::Str(s)) => {
            if !str_eq(s.as_str(), "session_meta") {
                return None;
            }
        },
        _ => return None,
    }
    let (thread_id, cwd, current) = match members_get_exec(&ms, "payload") {
        Some(JsonValue::Object(p)) => {
            let id = str_member_exec(p, "id");
            let cwd = match str_member_exec(p, "cwd") {
                Some(c) => to_desktop_workspace_path(c.as_str()),
                None => None,
            };
            let current = str_member_exec(p, "model_provider");
            (id, cwd, current)
        },
        _ => return None,
    };
    let provider = match &current {
        Some(s) => owned(s.as_str()),
        None => owned("(missing)"),
    };
    let needs = match &current {
        Some(s) => !str_eq(s.as_str(), target),
        None => true,
    };
    let ghost p0 = payload_members(rec0).unwrap();
    if !needs {
        return Some(MetaLineOut { thread_id, cwd, provider, needs_rewrite: false, out_line: owned(line) });
    }
    let taken = members_take(&mut ms, "payload");
    let mut pms = match taken {
        Some(JsonValue::Object(pms)) => pms,
        _ => return None,
    };
    let ghost pms0 = pms;
    members_set(&mut pms, "model_provider", JsonValue::Str(owned(target)));
    let ghost pms1 = pms;
    members_set(&mut ms, "payload", JsonValue::Object(pms));
    let out_rec = JsonValue::Object(ms);
    let out_line = json_to_string(&out_rec);
    proof {
        assert(pms0@ == p0);
        assert(members_get(ms0, "payload"@) == Some(JsonValue::Object(pms0)));
        assert(provider_rewritten(rec0, target@, out_rec));
    }
    Some(MetaLineOut { thread_id, cwd, provider, needs_rewrite: true, out_line })
}

/// Moves a rollout to `target_provider`: every `session_meta` record that
/// names another provider is written out again naming `target_provider`, the
/// other lines and all line endings stay as they are. Also reports what the
/// `session_meta` records said before the change.
pub fn rewrite_rollout_session_meta_providers(text: &str, target_provider: &str) -> (r: RolloutRewrite)
    ensures
        r.model() == rewrite_model(
            split_inclusive_nl(text@),
            target_provider@,
            split_inclusive_nl(text@).len() as int,
        ),
        exists|outs: Seq<Seq<char>>|
            {
                &&& outs.len() == split_inclusive_nl(text@).len()
                &&& forall|k: int|
                    0 <= k < outs.len() ==> line_out_ok(
                        split_line_ending_spec(split_inclusive_nl(text@)[k]).0,
                        target_provider@,
                        #[trigger] outs[k],
                    )
                &&& r.next_text@ == joined_upto(outs, split_inclusive_nl(text@), outs.len() as int)
            },
{
    let chars = str_chars(text);
    let segs = crate::text::split_inclusive_nl_chars(chars.as_slice());
    let ghost sv = rows(segs@);
    let ghost target = target_provider@;
    let mut next: Vec<char> = Vec::new();
    let mut count: usize = 0;
    let mut lines: Vec<String> = Vec::new();
    let mut thread_id: Option<String> = None;
    let mut cwd: Option<String> = None;
    let mut providers: Vec<String> = Vec::new();
    let mut rewrite_needed = false;
    let ghost mut outs: Seq<Seq<char>> = Seq::empty();
    let mut i: usize = 0;
    assert(strings_view(lines@) =~= Seq::<Seq<char>>::empty());
    assert(strings_view(providers@) =~= Seq::<Seq<char>>::empty());
    while i < segs.len()
        invariant
            i <= segs@.len(),
            sv == rows(segs@),
            sv == split_inclusive_nl(text@),
            target == target_provider@,
            count <= i,
            model_of(count, lines@, thread_id, cwd, providers@, rewrite_needed) == rewrite_model(sv, target, i as int),
            outs.len() == i,
            forall|k: int| 0 <= k < i ==> line_out_ok(split_line_ending_spec(sv[k]).0, target, #[trigger] outs[k]),
            next@ == joined_upto(outs, sv, i as int),
        decreases segs@.len() - i,
    {
        let (line, ending) = split_line_ending(segs[i].as_slice());
        assert(sv[i as int] == segs@[i as int]@);
        let line_s = string_from(line.as_slice());
        let ending_s = string_from(ending.as_slice());
        let ghost before = model_of(count, lines@, thread_id, cwd, providers@, rewrite_needed);
        let ghost out: Seq<char>;
        match session_meta_line(line_s.as_str(), target_provider) {
            None => {
                append_str(&mut next, line_s.as_str());
                proof {
                    out = line_s@;
                }
            },
            Some(o) => {
                let MetaLineOut { thread_id: t, cwd: c, provider, needs_rewrite, out_line } = o;
                append_str(&mut next, out_line.as_str());
                proof {
                    out = out_line@;
                }
                count = count + 1;
                lines.push(line_s);
                if thread_id.is_none() {
                    thread_id = t;
                }
                if cwd.is_none() {
                    cwd = c;
                }
                providers.push(provider);
                rewrite_needed = rewrite_needed || needs_rewrite;
                proof {
                    assert(strings_view(lines@) =~= before.lines.push(line@));
                    assert(strings_view(providers@) =~= before.providers.push(provider@));
                }
            },
        }
        append_str(&mut next, ending_s.as_str());
        proof {
            assert(outs.push(out)[i as int] == out);
            assert forall|k: int| 0 <= k < i + 1 implies line_out_ok(
                split_line_ending_spec(sv[k]).0,
                target,
                #[trigger] outs.push(out)[k],
            ) by {
                if k < i {
                    assert(outs.push(out)[k] == outs[k]);
                }
            }
            assert(joined_upto(outs.push(out), sv, i as int) == joined_upto(outs, sv, i as int)) by {
                lemma_joined_prefix(outs, out, sv, i as int);
            }
            outs = outs.push(out);
        }
        i = i + 1;
    }
    let r = RolloutRewrite {
        next_text: string_from(next.as_slice()),
        session_meta_count: count,
        original_session_meta_lines: lines,
        thread_id,
        cwd,
        providers,
        rewrite_needed,
    };
    proof {
        assert(outs.len() == sv.len());
    }
    r
}

/// Adding an output at the end does not change the text of the ones before.
proof fn lemma_joined_prefix(outs: Seq<Seq<char>>, out: Seq<char>, segs: Seq<Seq<char>>, n: int)
    requires
        0 <= n <= outs.len(),
    ensures
        joined_upto(outs.push(out), segs, n) == joined_upto(outs, segs, n),
    decreases n,
{
    if n > 0 {
        lemma_joined_prefix(outs, out, segs, n - 1);
        assert(outs.push(out)[n - 1] == outs[n - 1]);
    }
}


/// A rollout whose `session_meta` records were read, with its new text.
#[derive(Debug, Clone)]
pub struct SessionChange {
    pub path: String,
    pub original_text: String,
    pub next_text: String,
    pub original_session_meta_lines: Vec<String>,
    pub thread_id: Option<String>,
    pub cwd: Option<String>,
    pub has_user_event: bool,
    pub rewrite_needed: bool,
    /// The providers its records named, one per record.
    pub providers: Vec<String>,
    /// Whether it holds encrypted content, which only the provider that
    /// wrote it can read.
    pub has_encrypted_content: bool,
}

/// Whether a rollout records something the user said.
pub open spec fn has_user_event_spec(text: Seq<char>) -> bool {
    contains(text, "\"user_message\""@) || contains(text, "\"user_input\""@)
}

/// The change a rollout at `path` undergoes when it moves to `target`:
/// `None` when it has no `session_meta` record; otherwise its new text and
/// what its records said, and whether it records user input.
pub fn session_change_from_rollout(path: &str, text: &str, target: &str) -> (r: Option<SessionChange>)
    ensures
        ({
            let segs = split_inclusive_nl(text@);
            let m = rewrite_model(segs, target@, segs.len() as int);
            match r {
                None => m.count == 0,
                Some(c) => {
                    &&& m.count > 0
                    &&& c.path@ == path@
                    &&& c.original_text@ == text@
                    &&& strings_view(c.original_session_meta_lines@) == m.lines
                    &&& opt_view(c.thread_id) == m.thread_id
                    &&& opt_view(c.cwd) == m.cwd
                    &&& c.rewrite_needed == m.rewrite_needed
                    &&& c.has_user_event == has_user_event_spec(text@)
                    &&& strings_view(c.providers@) == m.providers
                    &&& c.has_encrypted_content == contains(text@, "encrypted_content"@)
                    &&& exists|outs: Seq<Seq<char>>|
                        {
                            &&& outs.len() == segs.len()
                            &&& forall|k: int|
                                0 <= k < outs.len() ==> line_out_ok(
                                    split_line_ending_spec(segs[k]).0,
                                    target@,
                                    #[trigger] outs[k],
                                )
                            &&& c.next_text@ == joined_upto(outs, segs, outs.len() as int)
                        }
                },
            }
        }),
{
    let rw = rewrite_rollout_session_meta_providers(text, target);
    if rw.session_meta_count == 0 {
        return None;
    }
    let has_user_event = str_contains(text, "\"user_message\"") || str_contains(text, "\"user_input\"");
    let has_encrypted_content = str_contains(text, "encrypted_content");
    Some(
        SessionChange {
            path: owned(path),
            original_text: owned(text),
            next_text: rw.next_text,
            original_session_meta_lines: rw.original_session_meta_lines,
            thread_id: rw.thread_id,
            cwd: rw.cwd,
            has_user_event,
            rewrite_needed: rw.rewrite_needed,
            providers: rw.providers,
            has_encrypted_content,
        },
    )
}

/// How many times `p` occurs in `names`.
pub open spec fn occurrences(names: Seq<Seq<char>>, p: Seq<char>) -> nat {
    names.filter(|x: Seq<char>| x == p).len()
}

/// Tallies as plain values.
pub open spec fn tally_view(v: Seq<(String, usize)>) -> Seq<(Seq<char>, nat)> {
    v.map_values(|t: (String, usize)| (t.0@, t.1 as nat))
}

/// The tally of `p`, zero when it has none.
pub open spec fn tally_of(v: Seq<(Seq<char>, nat)>, p: Seq<char>) -> nat {
    match pairs_get(v, p) {
        Some(n) => n,
        None => 0,
    }
}

/// Counts each of `providers` once more in `counts` (a map from provider to
/// count, one entry per provider, first-seen order).
pub fn tally_providers(counts: &mut Vec<(String, usize)>, providers: &[String])
    requires
        forall|j: int| 0 <= j < old(counts)@.len() ==> (#[trigger] old(counts)@[j]).1 + providers@.len() <= usize::MAX,
    ensures
        forall|p: Seq<char>|
            #[trigger] tally_of(tally_view(final(counts)@), p) == tally_of(tally_view(old(counts)@), p) + occurrences(
                strings_view(providers@),
                p,
            ),
        forall|p: Seq<char>|
            (#[trigger] pairs_get(tally_view(final(counts)@), p)) is Some <==> (pairs_get(tally_view(old(counts)@), p) is Some
                || occurrences(strings_view(providers@), p) > 0),
{
    let ghost start = tally_view(counts@);
    let ghost names = strings_view(providers@);
    let mut i: usize = 0;
    while i < providers.len()
        invariant
            i <= providers@.len(),
            names == strings_view(providers@),
            forall|j: int| 0 <= j < counts@.len() ==> (#[trigger] counts@[j]).1 + providers@.len() - i <= usize::MAX,
            forall|p: Seq<char>|
                #[trigger] tally_of(tally_view(counts@), p) == tally_of(start, p) + occurrences(names.take(i as int), p),
            forall|p: Seq<char>|
                (#[trigger] pairs_get(tally_view(counts@), p)) is Some <==> (pairs_get(start, p) is Some || occurrences(
                    names.take(i as int),
                    p,
                ) > 0),
        decreases providers@.len() - i,
    {
        let ghost before = tally_view(counts@);
        let ghost name = providers@[i as int]@;
        assert(names.take(i + 1) =~= names.take(i as int).push(name));
        assert forall|p: Seq<char>| #[trigger] occurrences(names.take(i + 1), p) == occurrences(names.take(i as int), p) + (if p == name { 1nat } else { 0nat }) by {
            assert(names.take(i as int).push(name).filter(|x: Seq<char>| x == p) =~= if name == p {
                names.take(i as int).filter(|x: Seq<char>| x == p).push(name)
            } else {
                names.take(i as int).filter(|x: Seq<char>| x == p)
            }) by {
                reveal(Seq::filter);
                assert(names.take(i as int).push(name).drop_last() =~= names.take(i as int));
            }
        }
        let n: usize = match pair_position(counts, providers[i].as_str()) {
            Some(pos) => {
                let old_n = counts[pos].1;
                let k = counts[pos].0.clone();
                proof {
                    lemma_pairs_index(before, name);
                    assert(before[pos as int].0 == name);
                    assert(pairs_index(before, name) == Some(pos as int)) by {
                        match pairs_index(before, name) {
                            Some(x) => {
                                if x < pos {
                                    assert(before[x].0 != name);
                                }
                                if x > pos {
                                    assert(before[pos as int].0 == name);
                                }
                            },
                            None => {
                                assert(before[pos as int].0 == name);
                            },
                        }
                    }
                    assert(counts@[pos as int].1 + 1 <= usize::MAX);
                }
                counts.set(pos, (k, old_n + 1));
                proof {
                    assert(tally_view(counts@) =~= pairs_insert(before, name, (old_n + 1) as nat));
                }
                old_n + 1
            },
            None => {
                proof {
                    lemma_pairs_index(before, name);
                    assert(pairs_index(before, name) is None) by {
                        match pairs_index(before, name) {
                            Some(x) => {
                                assert(before[x].0 == counts@[x].0@);
                            },
                            None => {},
                        }
                    }
                }
                counts.push((owned(providers[i].as_str()), 1));
                proof {
                    assert(tally_view(counts@) =~= pairs_insert(before, name, 1nat));
                }
                1
            },
        };
        proof {
            assert forall|p: Seq<char>| #[trigger] tally_of(tally_view(counts@), p) == tally_of(start, p) + occurrences(names.take(i + 1), p) by {
                lemma_pairs_insert(before, name, n as nat, p);
                assert(occurrences(names.take(i + 1), p) == occurrences(names.take(i as int), p) + (if p == name { 1nat } else { 0nat }));
                assert(tally_of(before, p) == tally_of(start, p) + occurrences(names.take(i as int), p));
                if p == name {
                    assert(tally_of(before, p) + 1 == n);
                    assert(pairs_get(tally_view(counts@), p) == Some(n as nat));
                } else {
                    assert(pairs_get(tally_view(counts@), p) == pairs_get(before, p));
                }
            }
            assert forall|p: Seq<char>| (#[trigger] pairs_get(tally_view(counts@), p)) is Some <==> (pairs_get(start, p) is Some
                || occurrences(names.take(i + 1), p) > 0) by {
                lemma_pairs_insert(before, name, n as nat, p);
                assert(occurrences(names.take(i + 1), p) == occurrences(names.take(i as int), p) + (if p == name { 1nat } else { 0nat }));
            }
        }
        i = i + 1;
    }
    assert(names.take(i as int) =~= names);
}


/// A change's thread id and workspace, as plain values.
pub open spec fn change_ids(c: SessionChange) -> (Option<Seq<char>>, Option<Seq<char>>, bool) {
    (opt_view(c.thread_id), opt_view(c.cwd), c.has_user_event)
}

/// The thread ids of the first `n` changes that record user input, each
/// once, in first-seen order.
pub open spec fn user_event_ids(cs: Seq<SessionChange>, n: int) -> Seq<Seq<char>>
    decreases n,
{
    if n <= 0 {
        Seq::empty()
    } else {
        let prev = user_event_ids(cs, n - 1);
        match change_ids(cs[n - 1]) {
            (Some(t), _, true) => if prev.contains(t) {
                prev
            } else {
                prev.push(t)
            },
            _ => prev,
        }
    }
}

/// The threads whose sessions record user input.
pub fn thread_ids_with_user_events(changes: &Vec<SessionChange>) -> (r: Vec<String>)
    ensures
        strings_view(r@) == user_event_ids(changes@, changes@.len() as int),
{
    let mut out: Vec<String> = Vec::new();
    let mut i: usize = 0;
    assert(strings_view(out@) =~= Seq::<Seq<char>>::empty());
    while i < changes.len()
        invariant
            i <= changes@.len(),
            strings_view(out@) == user_event_ids(changes@, i as int),
        decreases changes@.len() - i,
    {
        let c = &changes[i];
        if c.has_user_event {
            match &c.thread_id {
                Some(t) => {
                    if !crate::relay_rotation::contains_str(&out, t.as_str()) {
                        out.push(owned(t.as_str()));
                        assert(strings_view(out@) =~= user_event_ids(changes@, i as int).push(t@));
                    }
                },
                None => {},
            }
        }
        i = i + 1;
    }
    out
}

/// The workspace of each thread among the first `n` changes, projectless
/// threads left out; a later change of the same thread wins.
pub open spec fn cwd_pairs(cs: Seq<SessionChange>, projectless: Seq<Seq<char>>, n: int) -> Seq<(Seq<char>, Seq<char>)>
    decreases n,
{
    if n <= 0 {
        Seq::empty()
    } else {
        let prev = cwd_pairs(cs, projectless, n - 1);
        match change_ids(cs[n - 1]) {
            (Some(t), Some(w), _) => if projectless.contains(t) {
                prev
            } else {
                pairs_insert(prev, t, w)
            },
            _ => prev,
        }
    }
}

pub open spec fn cwd_view(v: Seq<(String, String)>) -> Seq<(Seq<char>, Seq<char>)> {
    v.map_values(|p: (String, String)| (p.0@, p.1@))
}

/// The workspace of each thread that has one, except the projectless
/// threads: a map from thread id to workspace, one entry per thread.
pub fn cwd_by_thread_id(changes: &Vec<SessionChange>, projectless: &Vec<String>) -> (r: Vec<(String, String)>)
    ensures
        cwd_view(r@) == cwd_pairs(changes@, strings_view(projectless@), changes@.len() as int),
{
    let ghost pl = strings_view(projectless@);
    let mut out: Vec<(String, String)> = Vec::new();
    let mut i: usize = 0;
    assert(cwd_view(out@) =~= Seq::<(Seq<char>, Seq<char>)>::empty());
    while i < changes.len()
        invariant
            i <= changes@.len(),
            pl == strings_view(projectless@),
            cwd_view(out@) == cwd_pairs(changes@, pl, i as int),
        decreases changes@.len() - i,
    {
        let c = &changes[i];
        match (&c.thread_id, &c.cwd) {
            (Some(t), Some(w)) => {
                if !crate::relay_rotation::contains_str(projectless, t.as_str()) {
                    let ghost before = cwd_view(out@);
                    match pair_position(&out, t.as_str()) {
                        Some(pos) => {
                            let k = owned(out[pos].0.as_str());
                            proof {
                                lemma_pairs_index(before, t@);
                                assert(before[pos as int].0 == t@);
                                assert(pairs_index(before, t@) == Some(pos as int)) by {
                                    match pairs_index(before, t@) {
                                        Some(x) => {
                                            if x < pos {
                                                assert(before[x].0 != t@);
                                            }
                                            if x > pos {
                                                assert(before[pos as int].0 == t@);
                                            }
                                        },
                                        None => {
                                            assert(before[pos as int].0 == t@);
                                        },
                                    }
                                }
                            }
                            out.set(pos, (k, owned(w.as_str())));
                            assert(cwd_view(out@) =~= pairs_insert(before, t@, w@));
                        },
                        None => {
                            proof {
                                lemma_pairs_index(before, t@);
                                assert(pairs_index(before, t@) is None) by {
                                    match pairs_index(before, t@) {
                                        Some(x) => {
                                            assert(before[x].0 == out@[x].0@);
                                        },
                                        None => {},
                                    }
                                }
                            }
                            out.push((owned(t.as_str()), owned(w.as_str())));
                            assert(cwd_view(out@) =~= pairs_insert(before, t@, w@));
                        },
                    }
                }
            },
            _ => {},
        }
        i = i + 1;
    }
    out
}


/// The pieces of a text put back together.
pub open spec fn concat_all(segs: Seq<Seq<char>>) -> Seq<char>
    decreases segs.len(),
{
    if segs.len() == 0 {
        Seq::empty()
    } else {
        segs[0] + concat_all(segs.drop_first())
    }
}

proof fn lemma_concat_all_push(a: Seq<Seq<char>>, x: Seq<char>)
    ensures
        concat_all(a.push(x)) == concat_all(a) + x,
    decreases a.len(),
{
    if a.len() == 0 {
        assert(a.push(x).drop_first() =~= Seq::<Seq<char>>::empty());
        assert(concat_all(Seq::<Seq<char>>::empty()) =~= Seq::<char>::empty());
        assert(concat_all(a.push(x)) =~= x);
    } else {
        assert(a.push(x).drop_first() =~= a.drop_first().push(x));
        lemma_concat_all_push(a.drop_first(), x);
        assert(concat_all(a.push(x)) =~= a[0] + (concat_all(a.drop_first()) + x));
    }
}

/// The pieces of `split_inclusive('\n')` put back together give the text.
proof fn lemma_split_inclusive_concat(s: Seq<char>)
    ensures
        concat_all(split_inclusive_nl(s)) == s,
    decreases s.len(),
{
    if s.len() > 0 {
        crate::text::lemma_first_where(s, |c: char| c == '\n');
        match crate::text::first_where(s, |c: char| c == '\n') {
            None => {
                assert(seq![s].drop_first() =~= Seq::<Seq<char>>::empty());
                assert(concat_all(Seq::<Seq<char>>::empty()) =~= Seq::<char>::empty());
                assert(concat_all(seq![s]) =~= s);
            },
            Some(k) => {
                let rest = s.subrange(k + 1, s.len() as int);
                lemma_split_inclusive_concat(rest);
                let t = seq![s.subrange(0, k + 1)] + split_inclusive_nl(rest);
                assert(t.drop_first() =~= split_inclusive_nl(rest));
                assert(t[0] == s.subrange(0, k + 1));
                assert(s.subrange(0, k + 1) + rest =~= s);
            },
        }
    }
}

/// A piece is its line followed by its line ending.
proof fn lemma_line_ending_concat(seg: Seq<char>)
    ensures
        split_line_ending_spec(seg).0 + split_line_ending_spec(seg).1 == seg,
{
    if crate::text::ends_with(seg, seq!['\r', '\n']) {
        assert(seg.subrange(0, seg.len() - 2) + seq!['\r', '\n'] =~= seg);
    } else if crate::text::ends_with(seg, seq!['\n']) {
        assert(seg.subrange(0, seg.len() - 1) + seq!['\n'] =~= seg);
    } else {
        assert(seg + Seq::<char>::empty() =~= seg);
    }
}

/// When no record among the first `n` pieces needs a new provider, every one
/// of those lines is written back as it was.
proof fn lemma_kept_lines(segs: Seq<Seq<char>>, target: Seq<char>, outs: Seq<Seq<char>>, n: int)
    requires
        0 <= n <= segs.len(),
        outs.len() == segs.len(),
        forall|k: int| 0 <= k < outs.len() ==> line_out_ok(split_line_ending_spec(segs[k]).0, target, #[trigger] outs[k]),
        !rewrite_model(segs, target, n).rewrite_needed,
    ensures
        joined_upto(outs, segs, n) == concat_all(segs.take(n)),
    decreases n,
{
    if n > 0 {
        let line = split_line_ending_spec(segs[n - 1]).0;
        assert(line_out_ok(line, target, outs[n - 1]));
        lemma_kept_lines(segs, target, outs, n - 1);
        assert(outs[n - 1] == line);
        lemma_line_ending_concat(segs[n - 1]);
        assert(segs.take(n) =~= segs.take(n - 1).push(segs[n - 1]));
        lemma_concat_all_push(segs.take(n - 1), segs[n - 1]);
        assert(joined_upto(outs, segs, n) =~= concat_all(segs.take(n - 1)) + (outs[n - 1] + split_line_ending_spec(segs[n - 1]).1));
    } else {
        assert(segs.take(0) =~= Seq::<Seq<char>>::empty());
    }
}

/// A rollout whose `session_meta` records all name the target provider
/// already is written back exactly as it was.
pub proof fn law_up_to_date_rollout_is_unchanged(text: Seq<char>, target: Seq<char>, outs: Seq<Seq<char>>)
    requires
        outs.len() == split_inclusive_nl(text).len(),
        forall|k: int|
            0 <= k < outs.len() ==> line_out_ok(
                split_line_ending_spec(split_inclusive_nl(text)[k]).0,
                target,
                #[trigger] outs[k],
            ),
        !rewrite_model(split_inclusive_nl(text), target, split_inclusive_nl(text).len() as int).rewrite_needed,
    ensures
        joined_upto(outs, split_inclusive_nl(text), outs.len() as int) == text,
{
    let segs = split_inclusive_nl(text);
    lemma_kept_lines(segs, target, outs, segs.len() as int);
    assert(segs.take(segs.len() as int) =~= segs);
    lemma_split_inclusive_concat(text);
}


/// The provider a rollout line names, when it is a `session_meta` record
/// whose payload names one worth listing.
pub open spec fn line_provider(line: Seq<char>) -> Option<Seq<char>> {
    match json_parse(line) {
        Some(rec) => if is_session_meta(rec) {
            match payload_members(rec) {
                Some(p) => match str_member(p, "model_provider"@) {
                    Some(s) => if crate::provider_sync::valid_discovered_id(s) {
                        Some(s)
                    } else {
                        None
                    },
                    None => None,
                },
                None => None,
            }
        } else {
            None
        },
        None => None,
    }
}

/// The providers named among the first `n` pieces of a rollout.
pub open spec fn providers_named(segs: Seq<Seq<char>>, n: int) -> Set<Seq<char>>
    decreases n,
{
    if n <= 0 {
        Set::empty()
    } else {
        match line_provider(split_line_ending_spec(segs[n - 1]).0) {
            Some(s) => providers_named(segs, n - 1).insert(s),
            None => providers_named(segs, n - 1),
        }
    }
}

/// The provider one rollout line names, if any.
fn line_provider_exec(line: &str) -> (r: Option<String>)
    ensures
        opt_view(r) == line_provider(line@),
{
    let rec = match parse_json(line) {
        Some(v) => v,
        None => return None,
    };
    proof {
        reveal_strlit("session_meta");
    }
    match crate::json::json_get_exec(&rec, "type") {
        Some(JsonValue::Str(s)) => {
            if !str_eq(s.as_str(), "session_meta") {
                return None;
            }
        },
        _ => return None,
    }
    match crate::json::json_get_exec(&rec, "payload") {
        Some(JsonValue::Object(p)) => match str_member_exec(p, "model_provider") {
            Some(s) => if crate::provider_sync::is_valid_provider_id_for_discovery(s.as_str()) {
                Some(s)
            } else {
                None
            },
            None => None,
        },
        _ => None,
    }
}

/// The providers that a rollout's `session_meta` records name, those worth
/// listing, in the order of the records (a name may repeat).
pub fn rollout_provider_ids_in(text: &str) -> (r: Vec<String>)
    ensures
        strings_view(r@).to_set() == providers_named(
            split_inclusive_nl(text@),
            split_inclusive_nl(text@).len() as int,
        ),
{
    let chars = str_chars(text);
    let segs = crate::text::split_inclusive_nl_chars(chars.as_slice());
    let ghost sv = rows(segs@);
    let mut out: Vec<String> = Vec::new();
    let mut i: usize = 0;
    assert(strings_view(out@).to_set() =~= Set::<Seq<char>>::empty());
    while i < segs.len()
        invariant
            i <= segs@.len(),
            sv == rows(segs@),
            strings_view(out@).to_set() == providers_named(sv, i as int),
        decreases segs@.len() - i,
    {
        let (line, _ending) = split_line_ending(segs[i].as_slice());
        assert(sv[i as int] == segs@[i as int]@);
        let line_s = string_from(line.as_slice());
        match line_provider_exec(line_s.as_str()) {
            Some(p) => {
                let ghost before = strings_view(out@);
                out.push(p);
                proof {
                    assert(strings_view(out@) =~= before.push(p@));
                    crate::provider_sync::lemma_push_to_set(before, p@);
                }
            },
            None => {},
        }
        i = i + 1;
    }
    out
}


/// The thread a rollout line names, when it is a `session_meta` record whose
/// payload holds a non-blank id.
pub open spec fn line_thread_id(line: Seq<char>) -> Option<Seq<char>> {
    match json_parse(line) {
        Some(rec) => if is_session_meta(rec) {
            match payload_members(rec) {
                Some(p) => match str_member(p, "id"@) {
                    Some(s) => if trim(s).len() > 0 {
                        Some(s)
                    } else {
                        None
                    },
                    None => None,
                },
                None => None,
            }
        } else {
            None
        },
        None => None,
    }
}

/// The threads named among the first `n` pieces of a rollout.
pub open spec fn threads_named(segs: Seq<Seq<char>>, n: int) -> Set<Seq<char>>
    decreases n,
{
    if n <= 0 {
        Set::empty()
    } else {
        match line_thread_id(split_line_ending_spec(segs[n - 1]).0) {
            Some(s) => threads_named(segs, n - 1).insert(s),
            None => threads_named(segs, n - 1),
        }
    }
}

fn line_thread_id_exec(line: &str) -> (r: Option<String>)
    ensures
        opt_view(r) == line_thread_id(line@),
{
    let rec = match parse_json(line) {
        Some(v) => v,
        None => return None,
    };
    proof {
        reveal_strlit("session_meta");
    }
    match crate::json::json_get_exec(&rec, "type") {
        Some(JsonValue::Str(s)) => {
            if !str_eq(s.as_str(), "session_meta") {
                return None;
            }
        },
        _ => return None,
    }
    match crate::json::json_get_exec(&rec, "payload") {
        Some(JsonValue::Object(p)) => match str_member_exec(p, "id") {
            Some(s) => if !is_blank(s.as_str()) {
                Some(s)
            } else {
                None
            },
            None => None,
        },
        _ => None,
    }
}

/// The threads that a rollout's `session_meta` records name, in the order
/// of the records (a name may repeat).
pub fn rollout_thread_ids_in(text: &str) -> (r: Vec<String>)
    ensures
        strings_view(r@).to_set() == threads_named(split_inclusive_nl(text@), split_inclusive_nl(text@).len() as int),
{
    let chars = str_chars(text);
    let segs = crate::text::split_inclusive_nl_chars(chars.as_slice());
    let ghost sv = rows(segs@);
    let mut out: Vec<String> = Vec::new();
    let mut i: usize = 0;
    assert(strings_view(out@).to_set() =~= Set::<Seq<char>>::empty());
    while i < segs.len()
        invariant
            i <= segs@.len(),
            sv == rows(segs@),
            strings_view(out@).to_set() == threads_named(sv, i as int),
        decreases segs@.len() - i,
    {
        let (line, _ending) = split_line_ending(segs[i].as_slice());
        assert(sv[i as int] == segs@[i as int]@);
        let line_s = string_from(line.as_slice());
        match line_thread_id_exec(line_s.as_str()) {
            Some(p) => {
                let ghost before = strings_view(out@);
                out.push(p);
                proof {
                    assert(strings_view(out@) =~= before.push(p@));
                    crate::provider_sync::lemma_push_to_set(before, p@);
                }
            },
            None => {},
        }
        i = i + 1;
    }
    out
}


/// The threads with user input are listed once each.
pub proof fn law_user_event_ids_are_unique(cs: Seq<SessionChange>, n: int)
    ensures
        user_event_ids(cs, n).no_duplicates(),
    decreases n,
{
    if n > 0 {
        law_user_event_ids_are_unique(cs, n - 1);
        let prev = user_event_ids(cs, n - 1);
        match change_ids(cs[n - 1]) {
            (Some(t), _, true) => {
                if !prev.contains(t) {
                    assert forall|i: int, j: int| 0 <= i < j < prev.push(t).len() implies prev.push(t)[i] != prev.push(t)[j] by {
                        if j == prev.len() {
                            assert(prev.push(t)[i] == prev[i]);
                        } else {
                            assert(prev.push(t)[i] == prev[i] && prev.push(t)[j] == prev[j]);
                        }
                    }
                }
            },
            _ => {},
        }
    }
}

/// Keys of a pair list, each at most once.
pub open spec fn keys_unique<V>(s: Seq<(Seq<char>, V)>) -> bool {
    forall|i: int, j: int| 0 <= i < j < s.len() ==> s[i].0 != s[j].0
}

proof fn lemma_insert_keeps_keys_unique<V>(s: Seq<(Seq<char>, V)>, k: Seq<char>, v: V)
    requires
        keys_unique(s),
    ensures
        keys_unique(pairs_insert(s, k, v)),
{
    lemma_pairs_index(s, k);
    let t = pairs_insert(s, k, v);
    match pairs_index(s, k) {
        Some(x) => {
            assert forall|i: int, j: int| 0 <= i < j < t.len() implies t[i].0 != t[j].0 by {
                assert(t[i].0 == s[i].0 && t[j].0 == s[j].0);
            }
        },
        None => {
            assert forall|i: int, j: int| 0 <= i < j < t.len() implies t[i].0 != t[j].0 by {
                if j == s.len() {
                    assert(t[i] == s[i]);
                } else {
                    assert(t[i] == s[i] && t[j] == s[j]);
                }
            }
        },
    }
}

/// Each thread has one workspace: the map holds every thread once.
pub proof fn law_one_workspace_per_thread(cs: Seq<SessionChange>, projectless: Seq<Seq<char>>, n: int)
    ensures
        keys_unique(cwd_pairs(cs, projectless, n)),
    decreases n,
{
    if n > 0 {
        law_one_workspace_per_thread(cs, projectless, n - 1);
        let prev = cwd_pairs(cs, projectless, n - 1);
        match change_ids(cs[n - 1]) {
            (Some(t), Some(w), _) => {
                if !projectless.contains(t) {
                    lemma_insert_keeps_keys_unique(prev, t, w);
                }
            },
            _ => {},
        }
    }
}

} // verus!
