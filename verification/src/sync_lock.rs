//! The lock that keeps two provider syncs apart: reading what an earlier
//! holder left in the lock's owner file, and deciding whether a lock left by
//! an older version may still be in use.
use vstd::prelude::*;

use crate::json::{count_value, is_count, json_get, json_get_exec, json_parse, member, parse_json, JsonValue};

verus! {

/// The version of the lock that this library writes.
pub const PROVIDER_SYNC_LOCK_VERSION: u64 = 2;

/// How long a freshly made lock directory counts as taken, in milliseconds.
pub const LEGACY_LOCK_CREATION_GRACE_MS: u64 = 2000;

/// How long a lock whose process cannot be looked up counts as taken, in
/// seconds.
pub const LEGACY_LOCK_UNKNOWN_PROCESS_GRACE_SECS: u64 = 300;

/// What the owner file of a lock says.
#[derive(Debug, Clone, Copy, PartialEq, Eq)]
pub enum LockOwner {
    /// Written by this version of the lock.
    CurrentVersion,
    /// Not JSON.
    Unreadable,
    /// JSON that names no process.
    NoProcess,
    /// Names a process, and when it started (Unix seconds) if it says so.
    Process { pid: u32, started_at: Option<u64> },
}

/// The non-negative integer under `key`, when there is one.
pub open spec fn u64_member(v: JsonValue, key: Seq<char>) -> Option<u64> {
    match json_get(v, key) {
        Some(JsonValue::Number(_, Some(n))) => Some(n),
        _ => None,
    }
}

/// What an owner file's text says: its lock version, else the process it
/// names (a non-zero id that fits in 32 bits).
pub open spec fn lock_owner_spec(text: Seq<char>) -> LockOwner {
    match json_parse(text) {
        None => LockOwner::Unreadable,
        Some(v) => if u64_member(v, "lockVersion"@) == Some(PROVIDER_SYNC_LOCK_VERSION) {
            LockOwner::CurrentVersion
        } else {
            match u64_member(v, "pid"@) {
                Some(p) => if p != 0 && p <= u32::MAX {
                    LockOwner::Process { pid: p as u32, started_at: u64_member(v, "startedAt"@) }
                } else {
                    LockOwner::NoProcess
                },
                None => LockOwner::NoProcess,
            }
        },
    }
}

fn u64_member_exec(v: &JsonValue, key: &str) -> (r: Option<u64>)
    ensures
        r == u64_member(*v, key@),
{
    match json_get_exec(v, key) {
        Some(JsonValue::Number(_, Some(n))) => Some(*n),
        _ => None,
    }
}

/// Reads the owner file of a lock.
pub fn read_lock_owner(text: &str) -> (r: LockOwner)
    ensures
        r == lock_owner_spec(text@),
{
    let v = match parse_json(text) {
        Some(v) => v,
        None => return LockOwner::Unreadable,
    };
    if u64_member_exec(&v, "lockVersion") == Some(PROVIDER_SYNC_LOCK_VERSION) {
        return LockOwner::CurrentVersion;
    }
    match u64_member_exec(&v, "pid") {
        Some(p) => if p != 0 && p <= 0xffff_ffff {
            LockOwner::Process { pid: p as u32, started_at: u64_member_exec(&v, "startedAt") }
        } else {
            LockOwner::NoProcess
        },
        None => LockOwner::NoProcess,
    }
}

/// Whether a lock directory of this age counts as just made.
pub open spec fn just_made(directory_age_ms: Option<u64>) -> bool {
    match directory_age_ms {
        Some(a) => a < LEGACY_LOCK_CREATION_GRACE_MS,
        None => false,
    }
}

/// Whether a lock found on disk may still be held by someone else.
pub open spec fn lock_active_spec(
    directory_existed: bool,
    owner_existed: bool,
    directory_age_ms: Option<u64>,
    owner: LockOwner,
    process_running: Option<bool>,
    now_secs: u64,
) -> bool {
    if !directory_existed {
        false
    } else if !owner_existed {
        just_made(directory_age_ms)
    } else {
        match owner {
            LockOwner::CurrentVersion => false,
            LockOwner::Unreadable | LockOwner::NoProcess => just_made(directory_age_ms),
            LockOwner::Process { pid, started_at } => match process_running {
                Some(running) => running,
                None => match started_at {
                    Some(s) => (if now_secs >= s {
                        now_secs - s
                    } else {
                        0
                    }) < LEGACY_LOCK_UNKNOWN_PROCESS_GRACE_SECS,
                    None => false,
                },
            },
        }
    }
}

/// Decides whether a lock left on disk may still be in use, so that this
/// sync must not take it: a directory that was not there is free; one
/// without an owner file, or whose owner file names no process, is taken
/// only while just made; a lock of the current version is free (the file
/// lock already decided); otherwise the named process decides while it can be
/// looked up (`process_running`), and its start time within the grace period
/// when it cannot.
pub fn legacy_lock_might_be_active(
    directory_existed: bool,
    owner_existed: bool,
    directory_age_ms: Option<u64>,
    owner: LockOwner,
    process_running: Option<bool>,
    now_secs: u64,
) -> (r: bool)
    ensures
        r == lock_active_spec(directory_existed, owner_existed, directory_age_ms, owner, process_running, now_secs),
{
    let young = match directory_age_ms {
        Some(a) => a < LEGACY_LOCK_CREATION_GRACE_MS,
        None => false,
    };
    if !directory_existed {
        return false;
    }
    if !owner_existed {
        return young;
    }
    match owner {
        LockOwner::CurrentVersion => false,
        LockOwner::Unreadable | LockOwner::NoProcess => young,
        LockOwner::Process { pid: _, started_at } => match process_running {
            Some(running) => running,
            None => match started_at {
                Some(s) => now_secs.saturating_sub(s) < LEGACY_LOCK_UNKNOWN_PROCESS_GRACE_SECS,
                None => false,
            },
        },
    }
}

/// What the owner file of a held sync lock records: the lock's version, the
/// process holding it and when it took it (seconds since the epoch), as one
/// JSON object with its members in key order.
pub fn lock_owner_record(pid: u32, started_at_secs: u64) -> (r: JsonValue)
    ensures
        r matches JsonValue::Object(ms) && {
            &&& ms@.len() == 3
            &&& ms@[0].key@ == "lockVersion"@ && is_count(ms@[0].value, PROVIDER_SYNC_LOCK_VERSION as nat)
            &&& ms@[1].key@ == "pid"@ && is_count(ms@[1].value, pid as nat)
            &&& ms@[2].key@ == "startedAt"@ && is_count(ms@[2].value, started_at_secs as nat)
        },
{
    JsonValue::Object(
        vec![
            member("lockVersion", count_value(PROVIDER_SYNC_LOCK_VERSION)),
            member("pid", count_value(pid as u64)),
            member("startedAt", count_value(started_at_secs)),
        ],
    )
}

} // verus!
