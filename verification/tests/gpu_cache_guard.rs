use codex_plus_core::gpu_cache_guard::{
    packaged_app_family_name, parse_appx_package_status_output, validate_appx_package_status,
};

fn packaged_app(root: &str, identity: &str) -> String {
    format!("{root}/{identity}_26.506.2212.0_x64__2p2nqsd0c76g0/app")
}

#[test]
fn derives_stable_and_beta_package_families() {
    let root = r"C:\Program Files\WindowsApps";
    let stable = packaged_app(root, "OpenAI.Codex");
    let beta = packaged_app(root, "OpenAI.CodexBeta");

    assert_eq!(packaged_app_family_name(&stable).as_deref(), Some("OpenAI.Codex_2p2nqsd0c76g0"));
    assert_eq!(packaged_app_family_name(&beta).as_deref(), Some("OpenAI.CodexBeta_2p2nqsd0c76g0"));
}

#[test]
fn parses_appx_health_status_for_remediation_detection() {
    assert_eq!(parse_appx_package_status_output("\r\nNeedsRemediation\r\n").as_deref(), Some("NeedsRemediation"));
    assert_eq!(parse_appx_package_status_output("\nOk\n").as_deref(), Some("Ok"));
    assert_eq!(parse_appx_package_status_output(" \r\n"), None);
}

#[test]
fn blocks_unhealthy_appx_package_instead_of_claiming_cache_repair() {
    validate_appx_package_status("Ok").unwrap();

    let error = validate_appx_package_status("Modified, NeedsRemediation")
        .expect_err("an unhealthy AppX package must block launch");

    assert!(error.message().contains("Modified, NeedsRemediation"));
    assert!(error.message().contains("GPU cache protection cannot repair"));
}
