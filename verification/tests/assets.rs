use codex_plus_core::assets::{image_data_uri, image_file_data_uri, image_overlay_plan, reset_image_overlay_settings};
use codex_plus_core::settings::{BackendSettings, RelayMode, RelayProfile};
use codex_plus_core::assets::{image_content_type, pet_real_mouse_stop_script, pet_real_mouse_update_script};

#[test]
fn image_types_follow_the_extension() {
    assert_eq!(image_content_type("C:/img/Photo.JPG"), Some("image/jpeg"));
    assert_eq!(image_content_type(r"C:\img\a.b.png"), Some("image/png"));
    assert_eq!(image_content_type("x.webp"), Some("image/webp"));
    assert_eq!(image_content_type("dir/.gif"), None);
    assert_eq!(image_content_type("noext"), None);
    assert_eq!(image_content_type("a.tiff"), None);
}

#[test]
fn pet_scripts_carry_the_coordinates() {
    let script = pet_real_mouse_update_script(-12, 340);
    assert!(script.contains("x: -12, y: 340"));
    assert!(pet_real_mouse_stop_script().contains("stop"));
}

#[test]
fn reset_image_overlay_settings_preserves_supplier_settings() {
    let mut settings = BackendSettings {
        codex_app_image_overlay_enabled: true,
        codex_app_image_overlay_path: "C:\\Users\\me\\Pictures\\overlay.png".to_string(),
        codex_app_image_overlay_opacity: 42,
        codex_app_image_overlay_fit_mode: "fill".to_string(),
        active_relay_id: "supplier-a".to_string(),
        relay_profiles: vec![RelayProfile {
            id: "supplier-a".to_string(),
            name: "供应商 A".to_string(),
            relay_mode: RelayMode::PureApi,
            api_key: "sk-test".to_string(),
            ..RelayProfile::default()
        }],
        ..BackendSettings::default()
    };

    reset_image_overlay_settings(&mut settings);

    assert!(!settings.codex_app_image_overlay_enabled);
    assert_eq!(settings.codex_app_image_overlay_path, "");
    assert_eq!(settings.codex_app_image_overlay_opacity, 35);
    assert_eq!(settings.codex_app_image_overlay_fit_mode, "fit");
    assert_eq!(settings.active_relay_id, "supplier-a");
    assert_eq!(settings.relay_profiles.len(), 1);
    assert_eq!(settings.relay_profiles[0].id, "supplier-a");
    assert_eq!(settings.relay_profiles[0].api_key, "sk-test");
}

#[test]
fn image_overlay_config_includes_fit_mode() {
    let settings = BackendSettings { codex_app_image_overlay_fit_mode: "fill".to_string(), ..BackendSettings::default() };
    let config = image_overlay_plan(57321, &settings);

    assert_eq!(config.fit_mode, "fill");
}

#[test]
fn image_overlay_plan_needs_a_path_and_clamps_opacity() {
    let on = BackendSettings {
        codex_app_image_overlay_enabled: true,
        codex_app_image_overlay_path: "  /pics/a.png ".to_string(),
        codex_app_image_overlay_opacity: 250,
        ..BackendSettings::default()
    };
    let plan = image_overlay_plan(4000, &on);
    assert!(plan.wants_image);
    assert_eq!(plan.path, "/pics/a.png");
    assert_eq!(plan.opacity_percent, 100);
    assert_eq!(plan.image_url, "http://127.0.0.1:4000/overlay/image");
    let no_path = BackendSettings { codex_app_image_overlay_path: "   ".to_string(), codex_app_image_overlay_opacity: 0, ..on };
    let plan = image_overlay_plan(4000, &no_path);
    assert!(!plan.wants_image);
    assert_eq!(plan.opacity_percent, 1);
    assert_eq!(plan.image_url, "");
}

#[test]
fn image_data_uris_carry_the_type_and_the_base64_bytes() {
    assert_eq!(image_data_uri("image/png", b"hi!"), "data:image/png;base64,aGkh");
    assert_eq!(image_data_uri("image/gif", b"ab"), "data:image/gif;base64,YWI=");
    assert_eq!(image_file_data_uri("/p/a.JPG", b"ab").as_deref(), Some("data:image/jpeg;base64,YWI="));
    assert_eq!(image_file_data_uri("/p/a.txt", b"ab"), None);
}
