use mcp_core::json::{Json, JsonField};
use mcp_core::jtext::to_text;
use mcp_core::rpc::{
    JsonRpcError,
    JsonRpcMessage,
    JsonRpcNotification,
    JsonRpcRequest,
    JsonRpcResponse,
    encode_message_text,
    decode_message_text,
};
use mcp_core::transport::{frame_stdio_line, parse_stdio_line};

fn s(text: &str) -> String {
    text.to_string()
}

fn request(id: &str, method: &str, params: Option<Json>) -> JsonRpcMessage {
    JsonRpcMessage::Request(JsonRpcRequest {
        jsonrpc: s("2.0"),
        id: Json::Str(s(id)),
        method: s(method),
        params,
    })
}

#[test]
fn request_text_has_expected_shape() {
    let m = request("1", "tools/list", None);
    assert_eq!(
        encode_message_text(&m),
        "{\"jsonrpc\":\"2.0\",\"id\":\"1\",\"method\":\"tools/list\"}"
    );
}

#[test]
fn message_text_round_trips_request() {
    let m = request("7", "tools/call", Some(Json::Obj(vec![JsonField {
        key: s("name"),
        value: Json::Str(s("echo")),
    }])));
    let text = encode_message_text(&m);
    let back = decode_message_text(&text).expect("own text must parse");
    match back {
        JsonRpcMessage::Request(q) => {
            assert_eq!(q.jsonrpc, "2.0");
            assert_eq!(q.method, "tools/call");
            assert_eq!(to_text(&q.id), "\"7\"");
            assert_eq!(to_text(&q.params.unwrap()), "{\"name\":\"echo\"}");
        },
        _ => panic!("wrong variant"),
    }
}

#[test]
fn message_text_round_trips_response_with_result() {
    let m = JsonRpcMessage::Response(JsonRpcResponse {
        jsonrpc: s("2.0"),
        id: Json::Num(s("3")),
        result: Some(Json::Obj(vec![JsonField { key: s("tools"), value: Json::Arr(vec![]) }])),
        error: None,
    });
    let text = encode_message_text(&m);
    assert_eq!(text, "{\"jsonrpc\":\"2.0\",\"id\":3,\"result\":{\"tools\":[]}}");
    let back = decode_message_text(&text).expect("own text must parse");
    match back {
        JsonRpcMessage::Response(p) => {
            assert_eq!(to_text(&p.id), "3");
            assert!(p.error.is_none());
            assert_eq!(to_text(&p.result.unwrap()), "{\"tools\":[]}");
        },
        _ => panic!("wrong variant"),
    }
}

#[test]
fn message_text_round_trips_response_with_error() {
    let m = JsonRpcMessage::Response(JsonRpcResponse {
        jsonrpc: s("2.0"),
        id: Json::Str(s("9")),
        result: None,
        error: Some(JsonRpcError { code: -32601, message: s("no such method"), data: None }),
    });
    let text = encode_message_text(&m);
    let back = decode_message_text(&text).expect("own text must parse");
    match back {
        JsonRpcMessage::Response(p) => {
            let e = p.error.expect("error kept");
            assert_eq!(e.code, -32601);
            assert_eq!(e.message, "no such method");
            assert!(p.result.is_none());
        },
        _ => panic!("wrong variant"),
    }
}

#[test]
fn message_text_round_trips_notification() {
    let m = JsonRpcMessage::Notification(JsonRpcNotification {
        jsonrpc: s("2.0"),
        method: s("initialized"),
        params: None,
    });
    let text = encode_message_text(&m);
    assert_eq!(text, "{\"jsonrpc\":\"2.0\",\"method\":\"initialized\"}");
    let back = decode_message_text(&text).expect("own text must parse");
    match back {
        JsonRpcMessage::Notification(n) => assert_eq!(n.method, "initialized"),
        _ => panic!("wrong variant"),
    }
}

#[test]
fn decode_classifies_by_field_presence() {
    let req = decode_message_text("{\"jsonrpc\":\"2.0\",\"id\":1,\"method\":\"x\"}").unwrap();
    assert!(matches!(req, JsonRpcMessage::Request(_)));
    let note = decode_message_text("{\"jsonrpc\":\"2.0\",\"method\":\"x\"}").unwrap();
    assert!(matches!(note, JsonRpcMessage::Notification(_)));
    let resp = decode_message_text("{\"jsonrpc\":\"2.0\",\"id\":1,\"result\":null}").unwrap();
    assert!(matches!(resp, JsonRpcMessage::Response(_)));
}

#[test]
fn decode_rejects_non_envelopes() {
    assert!(decode_message_text("{}").is_none());
    assert!(decode_message_text("{\"jsonrpc\":\"2.0\",\"id\":1}").is_none());
    assert!(decode_message_text("null").is_none());
    assert!(decode_message_text("not json at all").is_none());
}

#[test]
fn stdio_frame_is_one_line() {
    let m = request("1", "initialize", None);
    let frame = frame_stdio_line(&m);
    assert!(frame.ends_with('\n'));
    let body = &frame[..frame.len() - 1];
    assert!(!body.contains('\n'));
    let back = parse_stdio_line(body).expect("frame body parses");
    assert!(matches!(back, JsonRpcMessage::Request(_)));
}

#[test]
fn empty_and_noise_lines_are_dropped() {
    assert!(parse_stdio_line("").is_none());
    assert!(parse_stdio_line("log: starting up").is_none());
}
