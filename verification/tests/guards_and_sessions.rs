use codex_plus_core::codex_oauth::{clear_oauth_login, poll_oauth_login, LoginState, OAuthLoginPoll, OAuthSession};
use codex_plus_core::gpu_cache_guard::{
    backup_name, gpu_cache_sentinel_path, gpu_cache_step, package_name_from_family, packaged_app_user_model_id,
    GpuCacheGuardAction, GpuCacheStep, SentinelEntry,
};
use codex_plus_core::paths::{is_within_root, migration_error_message, migration_plan, EntryKind, MigrationError, MigrationPlan, TargetContents};

const APP: &str = r"C:\Program Files\WindowsApps\OpenAI.Codex_26.506.2212.0_x64__2p2nqsd0c76g0\app";

#[test]
fn packaged_app_identity_and_sentinel_path() {
    assert_eq!(packaged_app_user_model_id(APP).as_deref(), Some("OpenAI.Codex_2p2nqsd0c76g0!App"));
    assert_eq!(packaged_app_user_model_id(r"C:\portable\app"), None);
    assert_eq!(
        gpu_cache_sentinel_path(APP, "C:/Users/me/AppData/Local").as_deref(),
        Some("C:/Users/me/AppData/Local/Packages/OpenAI.Codex_2p2nqsd0c76g0/LocalCache/Roaming/Codex/web/Codex/GPUPersistentCache")
    );
    assert_eq!(gpu_cache_sentinel_path("/opt/portable/app", "L"), None);
    assert_eq!(package_name_from_family("OpenAI.Codex_2p2nqsd0c76g0").as_deref(), Some("OpenAI.Codex"));
    assert_eq!(package_name_from_family("NoPublisher"), None);
    assert_eq!(package_name_from_family("Bad Name_x"), None);
}

#[test]
fn guard_steps_and_backup_names() {
    assert_eq!(gpu_cache_step(false, true, SentinelEntry::Directory), GpuCacheStep::Skip(GpuCacheGuardAction::NotPackagedApp));
    assert_eq!(gpu_cache_step(true, true, SentinelEntry::Missing), GpuCacheStep::Skip(GpuCacheGuardAction::SkippedAppRunning));
    assert_eq!(gpu_cache_step(true, false, SentinelEntry::Missing), GpuCacheStep::CreateSentinel);
    assert_eq!(gpu_cache_step(true, false, SentinelEntry::Directory), GpuCacheStep::BackupThenCreate);
    assert_eq!(gpu_cache_step(true, false, SentinelEntry::ProtectedFile), GpuCacheStep::KeepSentinel);
    assert_eq!(gpu_cache_step(true, false, SentinelEntry::OtherFile), GpuCacheStep::NormalizeFile);
    assert_eq!(gpu_cache_step(true, false, SentinelEntry::SymbolicLink), GpuCacheStep::RefuseSymlink);
    assert_eq!(gpu_cache_step(true, false, SentinelEntry::Other), GpuCacheStep::RefuseOther);
    assert_eq!(backup_name("Fam_x", 1700000000123, 0), "Fam_x-1700000000123");
    assert_eq!(backup_name("Fam_x", 5, 12), "Fam_x-5-12");
    assert_eq!(GpuCacheGuardAction::ReplacedDirectory.as_str(), "replaced_directory");
    assert_eq!(GpuCacheGuardAction::NotPackagedApp.as_str(), "not_packaged_app");
}

#[test]
fn legacy_state_is_copied_only_when_new_directory_is_empty() {
    let copy = migration_plan(
        false,
        EntryKind::Directory,
        TargetContents::OnlyRuntimeLog,
        EntryKind::Directory,
        EntryKind::RegularFile,
        EntryKind::Missing,
    );
    assert_eq!(copy, MigrationPlan::Copy { settings: true, pending_import: false });
    let in_use = migration_plan(
        false,
        EntryKind::Directory,
        TargetContents::OtherEntries,
        EntryKind::Directory,
        EntryKind::RegularFile,
        EntryKind::RegularFile,
    );
    assert_eq!(in_use, MigrationPlan::Nothing);
    let same = migration_plan(true, EntryKind::Missing, TargetContents::OnlyRuntimeLog, EntryKind::Directory, EntryKind::RegularFile, EntryKind::Missing);
    assert_eq!(same, MigrationPlan::Nothing);
}

#[test]
fn legacy_state_rejects_links_and_special_files() {
    let link = migration_plan(false, EntryKind::Missing, TargetContents::OnlyRuntimeLog, EntryKind::Directory, EntryKind::SymbolicLink, EntryKind::Missing);
    assert_eq!(link, MigrationPlan::Refuse(MigrationError::FileIsSymlink(0)));
    let dir = migration_plan(false, EntryKind::Missing, TargetContents::OnlyRuntimeLog, EntryKind::Directory, EntryKind::RegularFile, EntryKind::Directory);
    assert_eq!(dir, MigrationPlan::Refuse(MigrationError::FileNotRegular(1)));
    let target_link = migration_plan(false, EntryKind::SymbolicLink, TargetContents::OnlyRuntimeLog, EntryKind::Directory, EntryKind::RegularFile, EntryKind::Missing);
    assert_eq!(target_link, MigrationPlan::Refuse(MigrationError::TargetIsSymlink));
    assert_eq!(migration_error_message(MigrationError::TargetIsSymlink), "Codex Deck state directory cannot be a symbolic link");
    let no_legacy = migration_plan(false, EntryKind::Missing, TargetContents::OnlyRuntimeLog, EntryKind::Missing, EntryKind::Missing, EntryKind::Missing);
    assert_eq!(no_legacy, MigrationPlan::Nothing);
}

fn session(status: LoginState, expires_at: u64) -> Option<OAuthSession> {
    Some(OAuthSession { login_id: "L1".to_string(), auth_url: "https://auth".to_string(), expires_at, status })
}

#[test]
fn oauth_login_poll_reports_timeout_and_unknown_logins() {
    assert!(matches!(poll_oauth_login(&session(LoginState::Pending, 100), "L1", 50), OAuthLoginPoll::Pending));
    match poll_oauth_login(&session(LoginState::Pending, 100), "L1", 100) {
        OAuthLoginPoll::Failed(m) => assert_eq!(m, "OAuth 登录已超时，请重新发起"),
        other => panic!("unexpected {other:?}"),
    }
    match poll_oauth_login(&session(LoginState::Failed("denied".to_string()), 100), "L1", 500) {
        OAuthLoginPoll::Failed(m) => assert_eq!(m, "denied"),
        other => panic!("unexpected {other:?}"),
    }
    match poll_oauth_login(&session(LoginState::Pending, 100), "other", 0) {
        OAuthLoginPoll::Failed(m) => assert_eq!(m, "OAuth 登录会话不存在或已经结束"),
        other => panic!("unexpected {other:?}"),
    }
    let mut s = session(LoginState::Pending, 100);
    clear_oauth_login(&mut s, "other");
    assert!(s.is_some());
    clear_oauth_login(&mut s, "L1");
    assert!(s.is_none());
}

#[test]
fn transaction_roots_must_lie_under_the_allowed_root() {
    let root = "/home/me/.codex-deck/legacy-import-transactions";
    assert!(is_within_root("/home/me/.codex-deck/legacy-import-transactions/tx-1", root));
    assert!(is_within_root(root, root));
    assert!(is_within_root("/home/me/.codex-deck/legacy-import-transactions//tx-1/", root));
    assert!(!is_within_root("/home/me/.codex-deck/legacy-import-transactions-evil/tx", root));
    assert!(!is_within_root("/home/me/.codex-deck", root));
    assert!(!is_within_root("home/me/.codex-deck/legacy-import-transactions/tx", root));
}
