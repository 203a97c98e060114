use codex_plus_core::provider_sync::plan_session_index_cleanup_apply;
use codex_plus_core::provider_sync::ensure_codex_app_stopped;
use codex_plus_core::provider_sync::{ load_provider_sync_targets, merge_manual_provider_sync_targets, provider_sync_targets, prune_deleted_thread_references, ProviderSyncTargetSource, };
use codex_plus_core::settings::BackendSettings;
use codex_plus_core::json::json_to_string;
use codex_plus_core::provider_sync::{session_index_backup_metadata, sync_backup_metadata};
use codex_plus_core::provider_sync::{
    build_encrypted_content_warning, catalog_recovery_schema_supported, cwd_looks_like_wsl, dedupe_paths,
    filtered_session_index_text, known_session_index_candidate, non_empty_string, preview_session_index_cleanup,
    sorted_provider_ids, thread_id_match_set, to_desktop_workspace_path, wsl_distribution_from_cwd,
};

const INDEX: &str = "{\"id\":\"live\",\"thread_name\":\"A\",\"updated_at\":\"1\"}\n{\"id\":\"gone\",\"thread_name\":\"B\",\"updated_at\":\"2\"}\r\nnot json\n{\"id\":\"x\",\"thread_name\":\"C\",\"updated_at\":\"3\",\"extra\":1}\n{\"id\":\" gone2 \",\"thread_name\":\"D\",\"updated_at\":\"4\"}";

#[test]
fn index_lines_with_exactly_three_fields_are_entries() {
    let c = known_session_index_candidate(r#"{"id":" t1 ","thread_name":"N","updated_at":"2024"}"#).unwrap();
    assert_eq!(c.id, "t1");
    assert_eq!(c.thread_name, "N");
    assert!(known_session_index_candidate(r#"{"id":"t1","thread_name":"N"}"#).is_none());
    assert!(known_session_index_candidate(r#"{"id":"","thread_name":"N","updated_at":"1"}"#).is_none());
    assert!(known_session_index_candidate(r#"{"id":"t","thread_name":1,"updated_at":"1"}"#).is_none());
}

#[test]
fn cleanup_preview_lists_entries_without_live_sessions() {
    let preview = preview_session_index_cleanup(Some(INDEX), &vec!["live".to_string()]);
    let ids: Vec<&str> = preview.candidates.iter().map(|c| c.id.as_str()).collect();
    assert_eq!(ids, vec!["gone", "gone2"]);
    assert_eq!(preview.snapshot_sha256.len(), 64);

    let empty = preview_session_index_cleanup(None, &Vec::new());
    assert!(empty.candidates.is_empty());
    assert_eq!(empty.snapshot_sha256, "e3b0c44298fc1c149afbf4c8996fb92427ae41e4649b934ca495991b7852b855");
}

#[test]
fn filtering_removes_selected_entries_and_keeps_line_endings() {
    let (text, removed) = filtered_session_index_text(INDEX, &vec!["gone".to_string(), "gone2".to_string()]);
    assert_eq!(removed, 2);
    assert_eq!(
        text,
        "{\"id\":\"live\",\"thread_name\":\"A\",\"updated_at\":\"1\"}\nnot json\n{\"id\":\"x\",\"thread_name\":\"C\",\"updated_at\":\"3\",\"extra\":1}\n"
    );
    let (same, none) = filtered_session_index_text(INDEX, &Vec::new());
    assert_eq!(none, 0);
    assert_eq!(same, INDEX);
}

#[test]
fn thread_ids_match_in_every_local_form() {
    let mut set = thread_id_match_set(&["local:abc".to_string(), "  ".to_string(), "xyz".to_string()]);
    set.sort();
    assert_eq!(
        set,
        vec!["abc", "local%3Aabc", "local%3Axyz", "local%3aabc", "local%3axyz", "local:abc", "local:xyz", "xyz"]
    );
    assert!(thread_id_match_set(&[" ".to_string()]).is_empty());
}

#[test]
fn desktop_paths_drop_verbatim_prefixes() {
    assert_eq!(to_desktop_workspace_path(r"\\?\UNC\server\share/dir").as_deref(), Some(r"\\server\share\dir"));
    assert_eq!(to_desktop_workspace_path(r"\\?\C:\work\x").as_deref(), Some("C:/work/x"));
    assert_eq!(to_desktop_workspace_path("  /home/me ").as_deref(), Some("/home/me"));
    assert_eq!(to_desktop_workspace_path("   "), None);
}

#[test]
fn duplicate_workspace_paths_are_dropped() {
    let paths = dedupe_paths(vec![
        r"C:\Work\".to_string(),
        "c:/work".to_string(),
        "".to_string(),
        r"\\?\D:\x".to_string(),
    ]);
    assert_eq!(paths, vec![r"C:\Work\".to_string(), "D:/x".to_string()]);
}

#[test]
fn wsl_paths_are_recognised() {
    assert!(cwd_looks_like_wsl("/home/me"));
    assert!(cwd_looks_like_wsl(r"\\wsl$\Ubuntu\home"));
    assert!(cwd_looks_like_wsl(r"\\WSL.localhost\Debian"));
    assert!(!cwd_looks_like_wsl(r"C:\Users"));
    assert_eq!(wsl_distribution_from_cwd(r"\\wsl$\Ubuntu\home").as_deref(), Some("ubuntu"));
    assert_eq!(wsl_distribution_from_cwd("//wsl.localhost/Debian").as_deref(), Some("debian"));
    assert_eq!(wsl_distribution_from_cwd(r"\\server\share"), None);
    assert_eq!(wsl_distribution_from_cwd("/home"), None);
}

#[test]
fn encrypted_content_warning_names_other_providers() {
    let counts = vec![("openai".to_string(), 2), ("relay".to_string(), 0), ("azure".to_string(), 3)];
    let warning = build_encrypted_content_warning(&counts, "relay").unwrap();
    assert!(warning.starts_with("检测到 5 个会话文件包含来自 openai, azure 的 encrypted_content"));
    assert!(warning.contains("已同步到 relay"));
    assert!(build_encrypted_content_warning(&vec![("relay".to_string(), 4)], "relay").is_none());
}

#[test]
fn small_helpers() {
    assert_eq!(non_empty_string(Some(" ".to_string())), None);
    assert_eq!(non_empty_string(Some("x".to_string())).as_deref(), Some("x"));
    assert_eq!(
        sorted_provider_ids(&vec!["b".to_string(), " ".to_string(), "a".to_string()]),
        vec!["a".to_string(), "b".to_string()]
    );
    let all: Vec<String> = [
        "host_id",
        "thread_id",
        "display_title",
        "source_created_at",
        "source_updated_at",
        "cwd",
        "source_kind",
        "model_provider",
        "observation_sequence",
        "extra",
    ]
    .iter()
    .map(|s| s.to_string())
    .collect();
    assert!(catalog_recovery_schema_supported(&all));
    assert!(!catalog_recovery_schema_supported(&all[1..].to_vec()));
}

#[test]
fn confirmed_cleanup_checks_the_snapshot_and_the_selection() {
    let live = vec!["live".to_string()];
    let preview = preview_session_index_cleanup(Some(INDEX), &live);

    let (text, removed, selected) = plan_session_index_cleanup_apply(
        Some(INDEX),
        &live,
        &preview.snapshot_sha256,
        &[" gone ".to_string(), "gone".to_string(), "".to_string()],
    )
    .unwrap();
    assert_eq!(removed, 1);
    assert_eq!(selected, vec!["gone".to_string()]);
    assert!(!text.contains("\"gone\""));

    let stale = plan_session_index_cleanup_apply(Some(INDEX), &live, &preview.snapshot_sha256, &["live".to_string()]);
    assert_eq!(stale.unwrap_err(), "确认列表已过期或包含非候选任务；本次清理未执行，请重新预览");
    let changed = plan_session_index_cleanup_apply(Some("{}"), &live, &preview.snapshot_sha256, &[]);
    assert!(changed.unwrap_err().contains("已在预览后发生变化"));
    let missing = plan_session_index_cleanup_apply(None, &live, &preview.snapshot_sha256, &[]);
    assert_eq!(missing.unwrap_err(), "session_index.jsonl 不存在，无法清理");
}

#[test]
fn running_app_blocks_the_cleanup() {
    assert!(ensure_codex_app_stopped(&[], None).is_ok());
    let error = ensure_codex_app_stopped(&[12, 345], Some("/backup".to_string())).unwrap_err();
    assert_eq!(error.message, "Codex App / ChatGPT 仍在运行（进程：12, 345）；请完全退出 App 后重新预览并确认清理");
    assert_eq!(error.backup_dir.as_deref(), Some("/backup"));
}

#[test]
fn manual_providers_join_the_sync_targets() {
    let mut targets = provider_sync_targets(
        "openai",
        &vec!["zeta".to_string()],
        Some(&vec!["alpha".to_string()]),
        &Vec::new(),
    );
    let settings = BackendSettings {
        provider_sync_manual_providers: vec!["beta".to_string(), "zeta".to_string()],
        provider_sync_saved_providers: vec!["zeta".to_string()],
        ..BackendSettings::default()
    };
    merge_manual_provider_sync_targets(&mut targets, &["zeta".to_string(), "beta".to_string()], &settings);

    let ids: Vec<&str> = targets.targets.iter().map(|t| t.id.as_str()).collect();
    assert_eq!(ids, vec!["openai", "alpha", "beta", "zeta"]);
    let zeta = &targets.targets[3];
    assert_eq!(zeta.sources, vec![ProviderSyncTargetSource::Config, ProviderSyncTargetSource::Manual]);
    assert!(zeta.is_manual && zeta.is_saved);
    let beta = &targets.targets[2];
    assert_eq!(beta.sources, vec![ProviderSyncTargetSource::Manual]);
    assert!(beta.is_manual && !beta.is_saved && !beta.is_current_provider);
}

#[test]
fn loaded_targets_list_the_current_provider_first_and_always_openai() {
    let config = "model_provider = \"relay\"\n\n[model_providers.relay]\nname = \"Relay\"\n";
    let rollout = vec!["other".to_string(), "relay".to_string()];
    let sqlite = vec!["openai".to_string()];
    let list = load_provider_sync_targets(Some(config), Some(&rollout), &sqlite);
    assert_eq!(list.current_provider, "relay");
    let ids: Vec<&str> = list.targets.iter().map(|t| t.id.as_str()).collect();
    assert_eq!(ids, vec!["relay", "openai", "other"]);
    assert!(list.targets[0].is_current_provider);
    assert_eq!(list.targets[0].sources, vec![ProviderSyncTargetSource::Config, ProviderSyncTargetSource::Rollout]);
    assert_eq!(list.targets[1].sources, vec![ProviderSyncTargetSource::Config, ProviderSyncTargetSource::Sqlite]);
    assert_eq!(list.targets[2].sources, vec![ProviderSyncTargetSource::Rollout]);

    let bare = load_provider_sync_targets(None, None, &Vec::new());
    assert_eq!(bare.current_provider, "openai");
    assert_eq!(bare.targets.len(), 1);
    assert_eq!(bare.targets[0].sources, vec![ProviderSyncTargetSource::Config]);
}

#[test]
fn pruning_deleted_threads_drops_their_index_entries_in_any_form() {
    let index = "{\"id\":\"a\",\"thread_name\":\"A\",\"updated_at\":\"1\"}\n{\"id\":\"b\",\"thread_name\":\"B\",\"updated_at\":\"2\"}\n";
    let (next, removed) = prune_deleted_thread_references(Some(index), &["local:b".to_string()]).unwrap();
    assert_eq!(removed, 1);
    assert_eq!(next, "{\"id\":\"a\",\"thread_name\":\"A\",\"updated_at\":\"1\"}\n");
    assert!(prune_deleted_thread_references(Some(index), &["zzz".to_string()]).is_none());
    assert!(prune_deleted_thread_references(Some(index), &["  ".to_string()]).is_none());
    assert!(prune_deleted_thread_references(None, &["a".to_string()]).is_none());
}

#[test]
fn backup_metadata_names_the_home_the_time_and_the_manager() {
    assert_eq!(
        json_to_string(&sync_backup_metadata("/h", "relay", 12, 3)),
        "{\"changedSessionFiles\":3,\"codexHome\":\"/h\",\"createdAtMs\":12,\"dbFiles\":[],\"managedBy\":\"Codex++ provider sync\",\"namespace\":\"provider-sync\",\"targetProvider\":\"relay\",\"version\":1}"
    );
    assert_eq!(
        json_to_string(&session_index_backup_metadata("/h", 5, "abc", 2)),
        "{\"codexHome\":\"/h\",\"createdAtMs\":5,\"managedBy\":\"Codex++ provider sync\",\"namespace\":\"provider-sync-session-index-cleanup\",\"prunedSessionIndexEntries\":2,\"snapshotSha256\":\"abc\",\"version\":1}"
    );
}
