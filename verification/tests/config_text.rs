use codex_plus_core::config_text::{
    ensure_text_newline, strip_common_config_text_fallback, toml_key_from_line, toml_root_keys_before_first_table,
};

#[test]
fn keys_are_read_from_assignment_lines() {
    assert_eq!(toml_key_from_line("  model = \"gpt-5\"").as_deref(), Some("model"));
    assert_eq!(toml_key_from_line("a.b=1").as_deref(), Some("a.b"));
    assert_eq!(toml_key_from_line("# model = x"), None);
    assert_eq!(toml_key_from_line("= value"), None);
    assert_eq!(toml_key_from_line("[features]"), None);
    assert_eq!(toml_key_from_line("   "), None);
}

#[test]
fn root_keys_stop_at_the_first_table() {
    let keys = toml_root_keys_before_first_table("model = \"a\"\n# note\nprovider = \"b\"\n[tools]\nweb = true\n");
    assert_eq!(keys, vec!["model".to_string(), "provider".to_string()]);
}

#[test]
fn text_gets_one_trailing_newline() {
    assert_eq!(ensure_text_newline("a = 1  \n\n"), "a = 1\n");
    assert_eq!(ensure_text_newline(" \n "), "");
    assert_eq!(ensure_text_newline("x"), "x\n");
}

#[test]
fn common_tables_and_root_keys_are_taken_out() {
    let common = "model = \"gpt-5\"\n[mcp_servers.demo]\ncommand = \"npx\"\n";
    let config = "model = \"gpt-5\"\nmodel_provider = \"relay\"\n[mcp_servers.demo]\ncommand = \"npx\"\n[model_providers.relay]\nbase_url = \"https://x\"\n";

    let stripped = strip_common_config_text_fallback(config, common);

    assert_eq!(stripped, "model_provider = \"relay\"\n[model_providers.relay]\nbase_url = \"https://x\"\n");
}

#[test]
fn without_common_anchors_only_the_ending_is_normalised() {
    assert_eq!(strip_common_config_text_fallback("a = 1\r\n\r\n", "# only a comment\n"), "a = 1\n");
    assert_eq!(strip_common_config_text_fallback("   ", ""), "");
}

#[test]
fn keys_inside_tables_are_kept() {
    let common = "model = \"x\"\n";
    let config = "[profile]\nmodel = \"x\"\n";
    assert_eq!(strip_common_config_text_fallback(config, common), "[profile]\nmodel = \"x\"\n");
}
