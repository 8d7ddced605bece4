use mcp_core::client::{
    parse_call_tool_result,
    parse_get_prompt_result,
    parse_list_prompts,
    parse_list_resources,
    parse_list_tools,
    parse_read_resource_result,
};
use mcp_core::jtext::{parse_text, to_text};
use mcp_core::protocol::{
    decode_server_capabilities,
    encode_call_tool_params,
    encode_get_prompt_params,
    encode_read_resource_params,
};
use mcp_core::json::Json;
use mcp_core::types::{CallToolParams, Content, GetPromptParams, McpError, ReadResourceParams};

fn doc(text: &str) -> Json {
    parse_text(text).expect("test document parses")
}

#[test]
fn tools_list_payload_decodes() {
    let lt = parse_list_tools(&doc(
        "{\"tools\":[{\"name\":\"echo\",\"description\":\"say\",\"input_schema\":{}},\
         {\"name\":\"sum\",\"input_schema\":{\"type\":\"object\"}}]}",
    ))
    .expect("decodes");
    assert_eq!(lt.tools.len(), 2);
    assert_eq!(lt.tools[0].name, "echo");
    assert_eq!(lt.tools[0].description.as_deref(), Some("say"));
    assert_eq!(lt.tools[1].name, "sum");
    assert!(lt.tools[1].description.is_none());
    assert_eq!(to_text(&lt.tools[1].input_schema), "{\"type\":\"object\"}");
}

#[test]
fn malformed_tools_list_is_a_parse_error() {
    match parse_list_tools(&doc("{\"tools\":[{\"description\":\"no name\"}]}")) {
        Err(McpError::ParseError(_)) => {},
        _ => panic!("expected parse error"),
    }
    match parse_list_tools(&doc("{}")) {
        Err(McpError::ParseError(_)) => {},
        _ => panic!("expected parse error"),
    }
}

#[test]
fn call_tool_result_decodes_tagged_content() {
    let res = parse_call_tool_result(&doc(
        "{\"is_error\":false,\"content\":[{\"type\":\"text\",\"text\":\"hi\"},\
         {\"type\":\"image\",\"mime_type\":\"image/png\",\"data\":\"AA==\"},\
         {\"type\":\"embedded_resource\",\"uri\":\"file:///x\",\
         \"properties\":{\"k\":\"v\"}}]}",
    ))
    .expect("decodes");
    assert_eq!(res.is_error, Some(false));
    assert_eq!(res.content.len(), 3);
    match &res.content[0] {
        Content::Text { text } => assert_eq!(text, "hi"),
        _ => panic!("expected text"),
    }
    match &res.content[1] {
        Content::Image { mime_type, data } => {
            assert_eq!(mime_type, "image/png");
            assert_eq!(data, "AA==");
        },
        _ => panic!("expected image"),
    }
    match &res.content[2] {
        Content::EmbeddedResource { uri, properties } => {
            assert_eq!(uri, "file:///x");
            let props = properties.as_ref().unwrap();
            assert_eq!(props.len(), 1);
            assert_eq!(props[0].key, "k");
            assert_eq!(props[0].value, "v");
        },
        _ => panic!("expected embedded resource"),
    }
}

#[test]
fn unknown_content_tags_fail_the_decode() {
    match parse_call_tool_result(&doc(
        "{\"content\":[{\"type\":\"video\",\"text\":\"x\"}]}",
    )) {
        Err(McpError::ParseError(_)) => {},
        _ => panic!("expected parse error"),
    }
}

#[test]
fn resources_and_prompts_decode() {
    let lr = parse_list_resources(&doc(
        "{\"resources\":[{\"uri\":\"file:///a\",\"name\":\"a\",\"mime_type\":\"text/plain\"}]}",
    ))
    .expect("decodes");
    assert_eq!(lr.resources.len(), 1);
    assert_eq!(lr.resources[0].uri, "file:///a");
    assert_eq!(lr.resources[0].mime_type.as_deref(), Some("text/plain"));
    assert!(lr.resources[0].description.is_none());

    let rr = parse_read_resource_result(&doc(
        "{\"content\":[{\"type\":\"text\",\"text\":\"body\"}]}",
    ))
    .expect("decodes");
    assert_eq!(rr.content.len(), 1);

    let lp = parse_list_prompts(&doc(
        "{\"prompts\":[{\"id\":\"p1\",\"name\":\"greet\",\
         \"parameter_schema\":{\"type\":\"object\"}}]}",
    ))
    .expect("decodes");
    assert_eq!(lp.prompts.len(), 1);
    assert_eq!(lp.prompts[0].id, "p1");
    assert!(lp.prompts[0].description.is_none());
    assert!(lp.prompts[0].parameter_schema.is_some());

    let gp = parse_get_prompt_result(&doc(
        "{\"content\":[{\"type\":\"text\",\"text\":\"hello\"}]}",
    ))
    .expect("decodes");
    assert_eq!(gp.content.len(), 1);
}

#[test]
fn parameter_encoders_write_the_wire_shapes() {
    let p = encode_call_tool_params(CallToolParams {
        name: "echo".to_string(),
        arguments: Some(doc("{\"msg\":\"hi\"}")),
    });
    assert_eq!(to_text(&p), "{\"name\":\"echo\",\"arguments\":{\"msg\":\"hi\"}}");
    let p = encode_call_tool_params(CallToolParams { name: "echo".to_string(), arguments: None });
    assert_eq!(to_text(&p), "{\"name\":\"echo\"}");
    let p = encode_read_resource_params(ReadResourceParams { uri: "file:///a".to_string() });
    assert_eq!(to_text(&p), "{\"uri\":\"file:///a\"}");
    let p = encode_get_prompt_params(GetPromptParams { id: "p1".to_string(), parameters: None });
    assert_eq!(to_text(&p), "{\"id\":\"p1\"}");
}

#[test]
fn server_capabilities_decode_by_presence() {
    let caps = decode_server_capabilities(&doc(
        "{\"tools\":{},\"resources\":null}",
    ))
    .expect("decodes");
    assert!(caps.tools.is_some());
    assert!(caps.resources.is_none());
    assert!(caps.prompts.is_none());
    assert!(caps.sampling.is_none());
    assert!(decode_server_capabilities(&doc("{\"tools\":3}")).is_none());
}
