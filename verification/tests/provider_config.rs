use codex_plus_core::diagnostic_log::{rate_limit_config, sanitize_event, sensitive_key, truncate_string, RateLimiter};
use codex_plus_core::provider_sync::{
    is_valid_explicit_provider_id, list_configured_provider_ids, read_current_provider, resolve_target_provider,
    root_toml_string_value, rollout_thread_id_from_filename, split_line_ending, toml_string_value, SqliteUpdateCounts,
};

const CONFIG: &str = "model = \"gpt-5\"\nmodel_provider = \"relay\"\n\n[model_providers.relay]\nname = \"r\"\n[model_providers. azure ]\n[profiles.x]\nmodel_provider = \"ignored\"\n";

#[test]
fn current_provider_comes_from_the_root_table() {
    assert_eq!(read_current_provider(Some(CONFIG)), "relay");
    assert_eq!(read_current_provider(Some("[x]\nmodel_provider = \"late\"\n")), "openai");
    assert_eq!(read_current_provider(Some("model_provider = \"  \"")), "openai");
    assert_eq!(read_current_provider(None), "openai");
    assert_eq!(root_toml_string_value("a = 'x\\y'\n", "a").as_deref(), Some("x\\y"));
    assert_eq!(root_toml_string_value("a = \"x\\\"y\"\n", "a").as_deref(), Some("x\"y"));
    assert_eq!(root_toml_string_value("a = 3\n", "a"), None);
    let raw: Vec<char> = "\"open".chars().collect();
    assert_eq!(toml_string_value(&raw), None);
}

#[test]
fn explicit_target_must_be_a_plain_id() {
    assert_eq!(resolve_target_provider(Some(CONFIG), Some("  custom-1.b ")), Ok("custom-1.b".to_string()));
    assert_eq!(resolve_target_provider(Some(CONFIG), Some("   ")), Ok("relay".to_string()));
    assert_eq!(resolve_target_provider(None, None), Ok("openai".to_string()));
    assert_eq!(
        resolve_target_provider(Some(CONFIG), Some("bad id")),
        Err("Invalid provider sync target: \"bad id\"".to_string())
    );
    assert!(is_valid_explicit_provider_id("a_b-c.d9"));
    assert!(!is_valid_explicit_provider_id("a/b"));
    assert!(!is_valid_explicit_provider_id(""));
}

#[test]
fn configured_providers_are_listed_sorted_with_the_default() {
    assert_eq!(
        list_configured_provider_ids(Some(CONFIG)),
        vec!["azure".to_string(), "openai".to_string(), "relay".to_string()]
    );
    assert_eq!(list_configured_provider_ids(None), vec!["openai".to_string()]);
}

#[test]
fn rollout_file_names_carry_the_thread_id() {
    assert_eq!(
        rollout_thread_id_from_filename("rollout-2025-01-01T00-00-00-0199a1b2-c3d4-7e5f-8a9b-0c1d2e3f4a5b.jsonl").as_deref(),
        Some("0199a1b2-c3d4-7e5f-8a9b-0c1d2e3f4a5b")
    );
    assert_eq!(rollout_thread_id_from_filename("rollout-short.jsonl"), None);
    assert_eq!(rollout_thread_id_from_filename("other-0199a1b2-c3d4-7e5f-8a9b-0c1d2e3f4a5b.jsonl"), None);
    assert_eq!(rollout_thread_id_from_filename("rollout-x-0199a1b2-c3d4-7e5f-8a9b-0c1d2e3f4a5g.jsonl"), None);
}

#[test]
fn line_endings_are_split_off() {
    let crlf: Vec<char> = "abc\r\n".chars().collect();
    assert_eq!(split_line_ending(&crlf), ("abc".chars().collect::<Vec<_>>(), vec!['\r', '\n']));
    let lf: Vec<char> = "abc\n".chars().collect();
    assert_eq!(split_line_ending(&lf), ("abc".chars().collect::<Vec<_>>(), vec!['\n']));
    let none: Vec<char> = "abc".chars().collect();
    assert_eq!(split_line_ending(&none), ("abc".chars().collect::<Vec<_>>(), Vec::new()));
}

#[test]
fn update_counts_add_up() {
    let mut counts = SqliteUpdateCounts::zero();
    counts.add(SqliteUpdateCounts {
        provider_rows: 2,
        catalog_provider_rows: 7,
        catalog_inserted_rows: 1,
        catalog_state_rows: 1,
        duplicate_thread_rows_merged: 3,
        user_event_rows: 1,
        cwd_rows: 1,
    });
    assert_eq!(counts.total(), 6);
    assert_eq!(counts.catalog_provider_rows, 7);
    assert_eq!(counts.duplicate_thread_rows_merged, 3);
}

#[test]
fn diagnostic_event_names_keys_and_strings() {
    assert_eq!(sanitize_event("  bridge request/ok  "), "bridge_request_ok");
    assert_eq!(sanitize_event("..__"), "diagnostic.event");
    assert_eq!(sanitize_event(&"x".repeat(200)).len(), 128);
    assert!(sensitive_key("OpenAI_API_Key"));
    assert!(sensitive_key("relay-access-token"));
    assert!(sensitive_key("tokens"));
    assert!(!sensitive_key("token_count"));
    assert_eq!(truncate_string("short"), "short");
    let long = "é".repeat(5000);
    let cut = truncate_string(&long);
    assert_eq!(cut.chars().count(), 4096 + "...[truncated]".len());
    assert!(cut.ends_with("...[truncated]"));
}

#[test]
fn rate_limiter_caps_each_event_per_window() {
    let config = rate_limit_config("bridge.request");
    assert_eq!(config.max_per_window, 60);
    assert_eq!(config.window_ms, 60_000);
    assert_eq!(rate_limit_config("other").max_per_window, 240);
    let mut limiter = RateLimiter::new();
    for _ in 0..60 {
        assert!(!limiter.limited("bridge.request", 1_000, config));
    }
    assert!(limiter.limited("bridge.request", 1_000, config));
    assert!(!limiter.limited("other", 1_000, config));
    assert!(!limiter.limited("bridge.request", 61_000, config));
}

#[test]
fn a_hundred_bridge_requests_in_a_window_log_sixty() {
    let config = rate_limit_config("bridge.request");
    let mut limiter = RateLimiter::new();
    let logged = (0..100u64).filter(|i| !limiter.limited("bridge.request", 5_000 + i * 10, config)).count();
    assert_eq!(logged, 60);
    let quiet = rate_limit_config("manager.noisy");
    let mut limiter = RateLimiter::new();
    let logged = (0..5u64).filter(|i| !limiter.limited("manager.noisy", *i, quiet)).count();
    assert_eq!(logged, 5);
}
