use codex_plus_core::native_menu::{pick_bootstrap_main_process_inspector_target, CdpTarget};

fn target(id: &str, target_type: &str, title: &str, url: &str, ws: &str) -> CdpTarget {
    CdpTarget {
        id: id.to_string(),
        target_type: target_type.to_string(),
        title: title.to_string(),
        url: url.to_string(),
        web_socket_debugger_url: Some(ws.to_string()),
    }
}

#[test]
fn bootstrap_target_requires_node_inspector() {
    let renderer = target("renderer", "page", "Codex", "app://-/index.html", "ws://127.0.0.1:9329/page/renderer");
    let node = target("main", "node", "ChatGPT", "file://main.js", "ws://127.0.0.1:9329/node/main");

    let missing_node = pick_bootstrap_main_process_inspector_target(&[renderer.clone()])
        .expect_err("renderer inspector cannot release the paused Node main process");
    assert!(missing_node.message().contains("Node inspector target"));
    assert_eq!(
        pick_bootstrap_main_process_inspector_target(&[renderer, node])
            .expect("Node inspector should be selected")
            .id,
        "main"
    );
}
