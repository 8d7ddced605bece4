use mcp_core::client::McpClient;
use mcp_core::jtext::{parse_text, to_text};
use mcp_core::server::{
    ClientPlan,
    DiscoveryProbe,
    EnvEntry,
    McpServerConfig,
    McpServerManager,
    ProbeKind,
    client_identity,
    collect_discovered,
    is_executable_candidate,
    make_server_status,
    probe_kind,
};
use mcp_core::transport::{
    derive_post_url,
    is_http_url,
    SseEvent,
    SseStep,
    TransportCore,
    INITIAL_RETRY_DELAY_MS,
    MAX_RETRY_DELAY_MS,
    TRANSPORT_TIMEOUT_MS,
};
use mcp_core::types::McpError;

fn s(text: &str) -> String {
    text.to_string()
}

fn config(name: &str, command: &str, args: Vec<&str>) -> McpServerConfig {
    McpServerConfig {
        name: s(name),
        command: s(command),
        args: args.into_iter().map(|a| a.to_string()).collect(),
        env: Vec::new(),
    }
}

#[test]
fn registered_configs_stay_until_unregistered() {
    let mut m = McpServerManager::new();
    m.register_server(config("x", "/bin/echo", vec!["hi"]));
    let servers = m.get_servers();
    assert_eq!(servers.len(), 1);
    assert_eq!(servers[0].name, "x");
    assert_eq!(servers[0].command, "/bin/echo");
    assert_eq!(servers[0].args, vec!["hi".to_string()]);

    m.register_server(config("y", "http://h/sse", vec![]));
    assert_eq!(m.get_servers().len(), 2);

    m.register_server(config("x", "/bin/cat", vec![]));
    let servers = m.get_servers();
    assert_eq!(servers.len(), 2);
    assert_eq!(servers[0].command, "/bin/cat");

    let plan = m.unregister_server("x");
    assert!(!plan.close_client && !plan.kill_process);
    let servers = m.get_servers();
    assert_eq!(servers.len(), 1);
    assert_eq!(servers[0].name, "y");

    let plan = m.unregister_server("missing");
    assert!(!plan.close_client && !plan.kill_process);
}

#[test]
fn register_start_list_stop_flow() {
    let mut m = McpServerManager::new();
    m.register_server(config("x", "/bin/echo", vec!["hi"]));

    match m.get_client_plan("x").expect("known name") {
        ClientPlan::Stdio { spawn, need_start } => {
            assert!(need_start);
            assert_eq!(spawn.command, "/bin/echo");
            assert_eq!(spawn.args, vec!["hi".to_string()]);
        },
        _ => panic!("expected stdio plan"),
    }

    let spawn = m.start_plan("x").expect("known name").expect("not yet running");
    assert_eq!(spawn.command, "/bin/echo");
    m.note_started("x");
    assert!(m.is_running("x"));
    assert!(m.start_plan("x").expect("known name").is_none());

    let mut client = McpClient::new(client_identity().0, client_identity().1);
    let (_id, _msg) = client.initialize_request().expect("handshake message");
    let result = parse_text(
        "{\"protocol_version\":\"0.1.0\",\"name\":\"mock\",\"version\":\"1\",\"capabilities\":{}}",
    )
    .unwrap();
    client.complete_initialize(&result).expect("mock result decodes");
    m.note_client_ready("x");
    assert!(matches!(m.get_client_plan("x").unwrap(), ClientPlan::Cached));

    let (_id, list_msg) = client.list_tools_request();
    let list_reply = parse_text("{\"tools\":[]}").unwrap();
    let tools = mcp_core::client::parse_list_tools(&list_reply).expect("decodes");
    assert!(tools.tools.is_empty());
    drop(list_msg);

    let plan = m.stop_server("x");
    assert!(plan.close_client && plan.kill_process);
    assert!(!m.is_running("x"));
    assert_eq!(m.get_servers().len(), 1);

    let plan = m.unregister_server("x");
    assert!(!plan.close_client && !plan.kill_process);
    assert!(m.get_servers().is_empty());
}

#[test]
fn unknown_names_give_errors_not_panics() {
    let m = McpServerManager::new();
    assert!(matches!(m.start_plan("nope"), Err(McpError::InternalError(_))));
    assert!(matches!(m.get_client_plan("nope"), Err(McpError::InternalError(_))));
}

#[test]
fn http_commands_select_the_sse_transport() {
    let mut m = McpServerManager::new();
    m.register_server(config("h", "http://host:3000/sse", vec![]));
    match m.get_client_plan("h").unwrap() {
        ClientPlan::Sse { url } => assert_eq!(url, "http://host:3000/sse"),
        _ => panic!("expected sse plan"),
    }
    assert!(is_http_url("https://x"));
    assert!(!is_http_url("/usr/bin/server"));
    assert!(matches!(probe_kind("http://h"), ProbeKind::Http));
    assert!(matches!(probe_kind("/bin/echo"), ProbeKind::Command));
}

#[test]
fn config_persistence_round_trips() {
    let mut m = McpServerManager::new();
    let mut cfg = config("a", "http://h/sse", vec![]);
    cfg.env.push(EnvEntry { key: s("KEY"), value: s("value") });
    m.register_server(cfg);

    let saved = m.save_to_json();
    let text = to_text(&saved);
    assert_eq!(
        text,
        "{\"a\":{\"name\":\"a\",\"command\":\"http://h/sse\",\"args\":[],\
         \"env\":{\"KEY\":\"value\"}}}"
    );

    let mut fresh = McpServerManager::new();
    let loaded = parse_text(&text).expect("saved text parses");
    fresh.load_from_json(&loaded).expect("saved registry loads");
    let servers = fresh.get_servers();
    assert_eq!(servers.len(), 1);
    assert_eq!(servers[0].name, "a");
    assert_eq!(servers[0].command, "http://h/sse");
    assert!(servers[0].args.is_empty());
    assert_eq!(servers[0].env.len(), 1);
    assert_eq!(servers[0].env[0].key, "KEY");
    assert_eq!(servers[0].env[0].value, "value");
}

#[test]
fn loading_takes_the_outer_key_over_the_inner_name() {
    let mut m = McpServerManager::new();
    let doc = parse_text(
        "{\"outer\":{\"name\":\"inner\",\"command\":\"/bin/echo\",\"args\":[]}}",
    )
    .unwrap();
    m.load_from_json(&doc).expect("loads");
    let servers = m.get_servers();
    assert_eq!(servers.len(), 1);
    assert_eq!(servers[0].name, "outer");
}

#[test]
fn malformed_config_documents_are_rejected_unchanged() {
    let mut m = McpServerManager::new();
    m.register_server(config("keep", "/bin/echo", vec![]));
    let bad = parse_text("{\"a\":{\"command\":\"/bin/echo\"}}").unwrap();
    assert!(matches!(m.load_from_json(&bad), Err(McpError::ParseError(_))));
    assert_eq!(m.get_servers().len(), 1);
    assert_eq!(m.get_servers()[0].name, "keep");
}

#[test]
fn post_url_derivation_follows_the_sse_rule() {
    assert_eq!(derive_post_url("http://h/sse"), "http://h/messages");
    assert_eq!(derive_post_url("http://h"), "http://h/messages");
    assert_eq!(derive_post_url("http://h/"), "http://h/messages");
    assert_eq!(derive_post_url("http://h///"), "http://h/messages");
    assert_eq!(derive_post_url("http://h/api/sse"), "http://h/api/messages");
}

#[test]
fn sse_backoff_doubles_to_the_ceiling_and_resets() {
    assert_eq!(TRANSPORT_TIMEOUT_MS, 30000);
    let mut t = TransportCore::new();
    let mut delays = Vec::new();
    for _ in 0..8 {
        match t.on_sse_event(SseEvent::ConnectFailed) {
            SseStep::Backoff { delay_ms } => delays.push(delay_ms),
            _ => panic!("expected backoff"),
        }
    }
    assert_eq!(delays, vec![100, 200, 400, 800, 1600, 3200, 5000, 5000]);
    assert!(matches!(t.on_sse_event(SseEvent::Connected), SseStep::Read));
    match t.on_sse_event(SseEvent::StreamEnded) {
        SseStep::Backoff { delay_ms } => assert_eq!(delay_ms, INITIAL_RETRY_DELAY_MS),
        _ => panic!("expected backoff"),
    }
    assert!(MAX_RETRY_DELAY_MS == 5000);
}

#[test]
fn closed_transports_refuse_receives_forever() {
    let mut t = TransportCore::new();
    assert!(t.receive_disposition().is_none());
    t.close();
    assert!(matches!(t.receive_disposition(), Some(McpError::ConnectionClosed)));
    t.close();
    assert!(matches!(t.receive_disposition(), Some(McpError::ConnectionClosed)));
    assert!(matches!(t.on_sse_event(SseEvent::Connected), SseStep::Exit));
    assert!(matches!(t.receive_disposition(), Some(McpError::ConnectionClosed)));
    assert!(matches!(t.on_sse_event(SseEvent::Shutdown), SseStep::Exit));
}

#[test]
fn discovery_skips_non_candidates_without_aborting() {
    let probe = |name: &str, is_file: bool, mode: u32, ok: bool| DiscoveryProbe {
        name: s(name),
        path: format!("/srv/{}", name),
        is_file,
        mode,
        probe_ok: ok,
    };
    assert!(is_executable_candidate(true, 0o755));
    assert!(!is_executable_candidate(true, 0o644));
    assert!(!is_executable_candidate(false, 0o755));

    let entries = vec![
        probe("good", true, 0o755, true),
        probe("subdir", false, 0o755, true),
        probe("plain.txt", true, 0o644, true),
        probe("broken", true, 0o755, false),
        probe("also-good", true, 0o111, true),
    ];
    let found = collect_discovered(&entries);
    assert_eq!(found.len(), 2);
    assert_eq!(found[0].name, "good");
    assert_eq!(found[0].command, "/srv/good");
    assert!(found[0].args.is_empty() && found[0].env.is_empty());
    assert_eq!(found[1].name, "also-good");
}

#[test]
fn status_rows_carry_the_url_for_http_servers() {
    let http = config("h", "https://host/sse", vec![]);
    let row = make_server_status(&http, true);
    assert_eq!(row.url.as_deref(), Some("https://host/sse"));
    assert!(row.is_running);
    let local = config("l", "/bin/echo", vec![]);
    let row = make_server_status(&local, false);
    assert!(row.url.is_none());
    assert!(!row.is_running);
    assert_eq!(row.name, "l");
}

#[test]
fn error_codes_match_the_taxonomy() {
    assert_eq!(McpError::ParseError(s("x")).to_code(), -32700);
    assert_eq!(McpError::InvalidRequest(s("x")).to_code(), -32600);
    assert_eq!(McpError::MethodNotFound(s("x")).to_code(), -32601);
    assert_eq!(McpError::InvalidParams(s("x")).to_code(), -32602);
    assert_eq!(McpError::InternalError(s("x")).to_code(), -32603);
    assert_eq!(McpError::TransportError(s("x")).to_code(), -32000);
    assert_eq!(McpError::ProtocolError(s("x")).to_code(), -32001);
    assert_eq!(McpError::TimeoutError.to_code(), -32002);
    assert_eq!(McpError::ConnectionClosed.to_code(), -32003);
}

#[test]
fn error_messages_match_the_taxonomy() {
    assert_eq!(McpError::ParseError(s("bad json")).message(), "Parse error: bad json");
    assert_eq!(McpError::TransportError(s("refused")).message(), "Transport error: refused");
    assert_eq!(McpError::TimeoutError.message(), "Timeout error");
    assert_eq!(McpError::ConnectionClosed.message(), "Connection closed");
}
