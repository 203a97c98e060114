pub mod text;
pub mod order;
pub mod settings;
pub mod json;
pub mod codex_oauth;
pub mod model_suffix;
pub mod relay_rotation;
pub mod local_relay;
pub mod manager;
pub mod diagnostic_log;
pub mod diagnostic_value;
pub mod gpu_cache_guard;
pub mod paths;
pub mod native_menu;
pub mod assets;
pub mod ssh;
pub mod provider_sync;
pub mod legacy_import;
pub mod config_text;
pub mod rollout;
pub mod sync_lock;
pub mod market;
pub mod oauth_flow;
pub mod doctor;
pub mod rotation_laws;
pub mod global_state;
