use codex_plus_core::json::parse_json;
use codex_plus_core::market::{installed_market_versions, market_install_state, marketplace_plugin_count};

#[test]
fn installed_versions_come_from_market_entries_and_later_ones_win() {
    let inventory = parse_json(
        r#"{"scripts":[
            {"market_id":"a","version":"1.0"},
            {"market_id":"","version":"9"},
            {"name":"local"},
            {"market_id":"b"},
            {"market_id":"a","version":"1.1"}
        ]}"#,
    )
    .unwrap();
    let installed = installed_market_versions(&inventory);
    assert_eq!(installed, vec![("a".to_string(), "1.1".to_string()), ("b".to_string(), String::new())]);
    assert!(installed_market_versions(&parse_json("{}").unwrap()).is_empty());
}

#[test]
fn install_state_reports_updates() {
    let installed = vec![("a".to_string(), "1.0".to_string()), ("b".to_string(), String::new())];
    let a = market_install_state(&installed, "a", "1.1");
    assert!(a.installed);
    assert_eq!(a.installed_version, "1.0");
    assert!(a.update_available);
    let same = market_install_state(&installed, "a", "1.0");
    assert!(!same.update_available);
    let b = market_install_state(&installed, "b", "2");
    assert!(!b.installed);
    assert!(!b.update_available);
    let c = market_install_state(&installed, "c", "2");
    assert_eq!(c.installed_version, "");
}

#[test]
fn plugin_count_is_the_length_of_the_plugins_array() {
    assert_eq!(marketplace_plugin_count(Some(r#"{"plugins":[{},{},{}]}"#)), 3);
    assert_eq!(marketplace_plugin_count(Some(r#"{"plugins":{}}"#)), 0);
    assert_eq!(marketplace_plugin_count(Some("nope")), 0);
    assert_eq!(marketplace_plugin_count(None), 0);
}
