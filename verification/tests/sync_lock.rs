use codex_plus_core::json::json_to_string;
use codex_plus_core::sync_lock::{legacy_lock_might_be_active, lock_owner_record, read_lock_owner, LockOwner};

#[test]
fn owner_files_are_read() {
    assert_eq!(read_lock_owner(r#"{"lockVersion":2,"pid":7,"startedAt":1}"#), LockOwner::CurrentVersion);
    assert_eq!(read_lock_owner("not json"), LockOwner::Unreadable);
    assert_eq!(read_lock_owner(""), LockOwner::Unreadable);
    assert_eq!(read_lock_owner(r#"{"pid":0}"#), LockOwner::NoProcess);
    assert_eq!(read_lock_owner(r#"{"pid":4294967296}"#), LockOwner::NoProcess);
    assert_eq!(read_lock_owner(r#"{"lockVersion":1}"#), LockOwner::NoProcess);
    assert_eq!(
        read_lock_owner(r#"{"lockVersion":1,"pid":42,"startedAt":100}"#),
        LockOwner::Process { pid: 42, started_at: Some(100) }
    );
    assert_eq!(read_lock_owner(r#"{"pid":42}"#), LockOwner::Process { pid: 42, started_at: None });
}

#[test]
fn fresh_directory_is_free_and_young_legacy_lock_is_taken() {
    assert!(!legacy_lock_might_be_active(false, true, Some(0), LockOwner::Process { pid: 1, started_at: None }, Some(true), 0));
    assert!(legacy_lock_might_be_active(true, false, Some(1999), LockOwner::Unreadable, None, 0));
    assert!(!legacy_lock_might_be_active(true, false, Some(2000), LockOwner::Unreadable, None, 0));
    assert!(!legacy_lock_might_be_active(true, false, None, LockOwner::Unreadable, None, 0));
    assert!(legacy_lock_might_be_active(true, true, Some(10), LockOwner::NoProcess, None, 0));
    assert!(!legacy_lock_might_be_active(true, true, Some(10), LockOwner::CurrentVersion, Some(true), 0));
}

#[test]
fn named_process_decides_and_start_time_covers_unknown_processes() {
    let owner = LockOwner::Process { pid: 42, started_at: Some(1_000) };
    assert!(legacy_lock_might_be_active(true, true, None, owner, Some(true), 5_000));
    assert!(!legacy_lock_might_be_active(true, true, None, owner, Some(false), 1_001));
    assert!(legacy_lock_might_be_active(true, true, None, owner, None, 1_299));
    assert!(!legacy_lock_might_be_active(true, true, None, owner, None, 1_300));
    assert!(legacy_lock_might_be_active(true, true, None, owner, None, 10));
    let unknown_start = LockOwner::Process { pid: 42, started_at: None };
    assert!(!legacy_lock_might_be_active(true, true, Some(0), unknown_start, None, 10));
}

#[test]
fn the_owner_record_is_read_back_as_current() {
    let text = json_to_string(&lock_owner_record(4321, 1_700_000_000));
    assert_eq!(text, "{\"lockVersion\":2,\"pid\":4321,\"startedAt\":1700000000}");
    assert_eq!(read_lock_owner(&text), LockOwner::CurrentVersion);
}
