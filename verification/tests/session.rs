use mcp_core::client::{
    McpClient,
    ReaderAction,
    response_payload,
    initialized_notification,
    exit_notification,
    REQUEST_TIMEOUT_MS,
};
use mcp_core::json::Json;
use mcp_core::jtext::to_text;
use mcp_core::rpc::{JsonRpcMessage, JsonRpcNotification, JsonRpcRequest, JsonRpcResponse};
use mcp_core::types::McpError;

fn s(text: &str) -> String {
    text.to_string()
}

fn response(id: Json, result: Option<Json>) -> JsonRpcMessage {
    JsonRpcMessage::Response(JsonRpcResponse { jsonrpc: s("2.0"), id, result, error: None })
}

fn request_id(m: &JsonRpcMessage) -> String {
    match m {
        JsonRpcMessage::Request(q) => to_text(&q.id),
        _ => panic!("not a request"),
    }
}

#[test]
fn ids_start_at_one_and_increase() {
    let mut c = McpClient::new("mlFace", "1.0.0");
    let (id1, m1) = c.begin_request("tools/list", None);
    let (id2, m2) = c.begin_request("tools/call", None);
    let (id3, _m3) = c.begin_request("resources/list", None);
    assert_eq!(id1, 1);
    assert_eq!(id2, 2);
    assert_eq!(id3, 3);
    assert_eq!(request_id(&m1), "\"1\"");
    assert_eq!(request_id(&m2), "\"2\"");
}

#[test]
fn out_of_order_responses_reach_their_own_callers() {
    let mut c = McpClient::new("mlFace", "1.0.0");
    let (id1, _) = c.call_tool_request("a", None);
    let (id2, _) = c.call_tool_request("b", None);
    let (id3, _) = c.call_tool_request("c", None);
    assert_eq!((id1, id2, id3), (1, 2, 3));

    let r3 = c.handle_message(response(Json::Str(s("3")), Some(Json::Str(s("third")))));
    match r3 {
        ReaderAction::Deliver { id, response } => {
            assert_eq!(id, 3);
            assert_eq!(to_text(&response.result.unwrap()), "\"third\"");
        },
        _ => panic!("expected delivery"),
    }
    let r1 = c.handle_message(response(Json::Str(s("1")), Some(Json::Str(s("first")))));
    match r1 {
        ReaderAction::Deliver { id, .. } => assert_eq!(id, 1),
        _ => panic!("expected delivery"),
    }
    let r2 = c.handle_message(response(Json::Str(s("2")), Some(Json::Str(s("second")))));
    match r2 {
        ReaderAction::Deliver { id, .. } => assert_eq!(id, 2),
        _ => panic!("expected delivery"),
    }
}

#[test]
fn numeric_ids_match_string_rendered_requests() {
    let mut c = McpClient::new("mlFace", "1.0.0");
    let (id, _) = c.begin_request("tools/call", None);
    let r = c.handle_message(response(Json::Num(s("1")), Some(Json::Null)));
    match r {
        ReaderAction::Deliver { id: got, .. } => assert_eq!(got, id),
        _ => panic!("expected delivery"),
    }
}

#[test]
fn unknown_id_is_dropped_without_affecting_others() {
    let mut c = McpClient::new("mlFace", "1.0.0");
    let (_id, _) = c.begin_request("tools/call", None);
    let r = c.handle_message(response(Json::Str(s("99")), Some(Json::Null)));
    assert!(matches!(r, ReaderAction::DropUnknownId));
    assert!(c.contains_pending(1));
    let r1 = c.handle_message(response(Json::Str(s("1")), Some(Json::Null)));
    assert!(matches!(r1, ReaderAction::Deliver { .. }));
}

#[test]
fn invalid_id_shapes_are_dropped() {
    let mut c = McpClient::new("mlFace", "1.0.0");
    let (_id, _) = c.begin_request("tools/call", None);
    let r = c.handle_message(response(Json::Null, Some(Json::Null)));
    assert!(matches!(r, ReaderAction::DropInvalidId));
    assert!(c.contains_pending(1));
    let r2 = c.handle_message(response(Json::Str(s("007")), Some(Json::Null)));
    assert!(matches!(r2, ReaderAction::DropUnknownId));
    assert!(c.contains_pending(1));
}

#[test]
fn timeout_removes_only_its_request_and_session_continues() {
    let mut c = McpClient::new("mlFace", "1.0.0");
    let (id1, _) = c.call_tool_request("never-answers", None);
    let (id2, _) = c.list_tools_request();
    assert_eq!(REQUEST_TIMEOUT_MS, 60000);
    c.note_timeout(id1);
    assert!(!c.contains_pending(id1));
    assert!(c.contains_pending(id2));
    let (id3, _) = c.list_tools_request();
    assert_eq!(id3, 3);
    let r = c.handle_message(response(Json::Str(s("3")), Some(Json::Null)));
    assert!(matches!(r, ReaderAction::Deliver { .. }));
}

#[test]
fn late_response_after_timeout_is_unknown() {
    let mut c = McpClient::new("mlFace", "1.0.0");
    let (id, _) = c.call_tool_request("slow", None);
    c.note_timeout(id);
    let r = c.handle_message(response(Json::Str(s("1")), Some(Json::Null)));
    assert!(matches!(r, ReaderAction::DropUnknownId));
}

#[test]
fn connection_closed_drains_every_pending_request() {
    let mut c = McpClient::new("mlFace", "1.0.0");
    let (id1, _) = c.begin_request("a", None);
    let (id2, _) = c.begin_request("b", None);
    let drained = c.on_connection_closed();
    assert_eq!(drained, vec![id1, id2]);
    assert!(!c.contains_pending(id1));
    assert!(!c.contains_pending(id2));
}

#[test]
fn notifications_and_server_requests_change_nothing() {
    let mut c = McpClient::new("mlFace", "1.0.0");
    let (_id, _) = c.begin_request("a", None);
    let note = JsonRpcMessage::Notification(JsonRpcNotification {
        jsonrpc: s("2.0"),
        method: s("progress"),
        params: None,
    });
    match c.handle_message(note) {
        ReaderAction::Notify { method } => assert_eq!(method, "progress"),
        _ => panic!("expected notify"),
    }
    let server_req = JsonRpcMessage::Request(JsonRpcRequest {
        jsonrpc: s("2.0"),
        id: Json::Str(s("s1")),
        method: s("ping"),
        params: None,
    });
    assert!(matches!(c.handle_message(server_req), ReaderAction::Ignore));
    assert!(c.contains_pending(1));
}

#[test]
fn initialize_handshake_happens_exactly_once() {
    let mut c = McpClient::new("mlFace", "1.0.0");
    assert!(c.server_info().is_none());
    let (id, m) = c.initialize_request().expect("first initialize sends");
    assert_eq!(id, 1);
    match &m {
        JsonRpcMessage::Request(q) => {
            assert_eq!(q.method, "initialize");
            let params = to_text(q.params.as_ref().unwrap());
            assert_eq!(
                params,
                "{\"protocol_version\":\"0.1.0\",\"name\":\"mlFace\",\"version\":\"1.0.0\",\
                 \"capabilities\":{\"resources\":{},\"tools\":{},\"prompts\":{},\"sampling\":{}}}"
            );
        },
        _ => panic!("not a request"),
    }
    let result_json = mcp_core::jtext::parse_text(
        "{\"protocol_version\":\"0.1.0\",\"name\":\"mock\",\"version\":\"1\",\"capabilities\":{}}",
    )
    .unwrap();
    let info = c.complete_initialize(&result_json).expect("result decodes");
    assert_eq!(info.name, "mock");
    assert_eq!(info.protocol_version, "0.1.0");
    let cached = c.server_info().expect("cached after success");
    assert_eq!(cached.name, "mock");
    assert!(c.initialize_request().is_none());
    let cached_again = c.server_info().expect("still cached");
    assert_eq!(cached_again.name, "mock");
    assert_eq!(cached_again.version, cached.version);
}

#[test]
fn malformed_initialize_result_is_a_parse_error() {
    let mut c = McpClient::new("mlFace", "1.0.0");
    let _ = c.initialize_request().expect("first initialize sends");
    let bad = mcp_core::jtext::parse_text("{\"name\":\"mock\"}").unwrap();
    match c.complete_initialize(&bad) {
        Err(McpError::ParseError(_)) => {},
        _ => panic!("expected parse error"),
    }
    assert!(c.server_info().is_none());
}

#[test]
fn response_payload_prefers_error_then_result() {
    let ok = JsonRpcResponse {
        jsonrpc: s("2.0"),
        id: Json::Str(s("1")),
        result: Some(Json::Bool(true)),
        error: None,
    };
    assert_eq!(to_text(&response_payload(ok).unwrap()), "true");

    let err = JsonRpcResponse {
        jsonrpc: s("2.0"),
        id: Json::Str(s("1")),
        result: None,
        error: Some(mcp_core::rpc::JsonRpcError {
            code: -32601,
            message: s("nope"),
            data: None,
        }),
    };
    match response_payload(err) {
        Err(McpError::ProtocolError(msg)) => assert_eq!(msg, "Error -32601: nope"),
        _ => panic!("expected protocol error"),
    }

    let neither = JsonRpcResponse {
        jsonrpc: s("2.0"),
        id: Json::Str(s("1")),
        result: None,
        error: None,
    };
    match response_payload(neither) {
        Err(McpError::ProtocolError(msg)) => assert_eq!(msg, "Response missing result"),
        _ => panic!("expected protocol error"),
    }
}

#[test]
fn close_sequence_messages_have_the_wire_methods() {
    let mut c = McpClient::new("mlFace", "1.0.0");
    let (_id, shutdown) = c.shutdown_request();
    match shutdown {
        JsonRpcMessage::Request(q) => assert_eq!(q.method, "shutdown"),
        _ => panic!("not a request"),
    }
    match initialized_notification() {
        JsonRpcMessage::Notification(n) => assert_eq!(n.method, "initialized"),
        _ => panic!("not a notification"),
    }
    match exit_notification() {
        JsonRpcMessage::Notification(n) => assert_eq!(n.method, "exit"),
        _ => panic!("not a notification"),
    }
}
