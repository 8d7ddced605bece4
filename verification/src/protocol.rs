//! Encoding and decoding of MCP payloads: the `initialize` handshake, tool,
//! resource and prompt payload shapes.

use vstd::prelude::*;
use crate::json::{
    Json,
    JsonV,
    JsonField,
    view_obj,
    view_arr,
    lemma_view_obj,
    lemma_view_arr,
    spec_lookup,
};
use crate::strutil::copy_str;
use crate::types::{
    Tool,
    ToolV,
    ListToolsResult,
    CallToolParams,
    CallToolResult,
    Content,
    ContentV,
    ResourceProperty,
    ResourcePropertyV,
    Resource,
    ResourceV,
    ListResourcesResult,
    ReadResourceParams,
    ReadResourceResult,
    Prompt,
    PromptV,
    ListPromptsResult,
    GetPromptParams,
    GetPromptResult,
    ListToolsResultV,
    CallToolParamsV,
    CallToolResultV,
    ListResourcesResultV,
    ReadResourceParamsV,
    ReadResourceResultV,
    ListPromptsResultV,
    GetPromptParamsV,
    GetPromptResultV,
    ClientCapabilities,
    ServerCapabilities,
    ResourcesClientCapabilities,
    ToolsClientCapabilities,
    PromptsClientCapabilities,
    SamplingClientCapabilities,
    ResourcesServerCapabilities,
    ToolsServerCapabilities,
    PromptsServerCapabilities,
    SamplingServerCapabilities,
    InitializeParams,
    InitializeParamsV,
    InitializeResult,
    InitializeResultV,
};

verus! {

/// An empty JSON object.
pub open spec fn empty_obj() -> JsonV {
    JsonV::Obj(Seq::empty())
}

/// Append `(key, empty object)` when the facet is advertised.
pub open spec fn with_facet(
    fields: Seq<(Seq<char>, JsonV)>,
    key: Seq<char>,
    present: bool,
) -> Seq<(Seq<char>, JsonV)> {
    if present {
        fields.push((key, empty_obj()))
    } else {
        fields
    }
}

/// The JSON object encoding the client's capability facets.
pub open spec fn enc_client_capabilities(c: ClientCapabilities) -> JsonV {
    JsonV::Obj(
        with_facet(
            with_facet(
                with_facet(
                    with_facet(Seq::empty(), "resources"@, c.resources is Some),
                    "tools"@,
                    c.tools is Some,
                ),
                "prompts"@,
                c.prompts is Some,
            ),
            "sampling"@,
            c.sampling is Some,
        ),
    )
}

/// The JSON object encoding the `initialize` parameters.
pub open spec fn enc_initialize_params(p: InitializeParamsV) -> JsonV {
    JsonV::Obj(
        seq![
            ("protocol_version"@, JsonV::Str(p.protocol_version)),
            ("name"@, JsonV::Str(p.name)),
            ("version"@, JsonV::Str(p.version)),
            ("capabilities"@, enc_client_capabilities(p.capabilities)),
        ],
    )
}

/// Whether an optional facet field is present: absent and `null` both mean
/// "not advertised"; any other value must be an object.
pub open spec fn dec_facet(pairs: Seq<(Seq<char>, JsonV)>, key: Seq<char>) -> Option<bool> {
    match spec_lookup(pairs, key) {
        None => Some(false),
        Some(JsonV::Null) => Some(false),
        Some(JsonV::Obj(_)) => Some(true),
        Some(_) => None,
    }
}

/// Decode the server's capability facets.
pub open spec fn dec_server_capabilities(j: JsonV) -> Option<ServerCapabilities> {
    match j {
        JsonV::Obj(pairs) => match (
            dec_facet(pairs, "resources"@),
            dec_facet(pairs, "tools"@),
            dec_facet(pairs, "prompts"@),
            dec_facet(pairs, "sampling"@),
        ) {
            (Some(r), Some(t), Some(p), Some(s)) => Some(
                ServerCapabilities {
                    resources: if r {
                        Some(ResourcesServerCapabilities {  })
                    } else {
                        None
                    },
                    tools: if t {
                        Some(ToolsServerCapabilities {  })
                    } else {
                        None
                    },
                    prompts: if p {
                        Some(PromptsServerCapabilities {  })
                    } else {
                        None
                    },
                    sampling: if s {
                        Some(SamplingServerCapabilities {  })
                    } else {
                        None
                    },
                },
            ),
            _ => None,
        },
        _ => None,
    }
}

/// A required string member of an object.
pub open spec fn req_str_field(pairs: Seq<(Seq<char>, JsonV)>, key: Seq<char>) -> Option<
    Seq<char>,
> {
    match spec_lookup(pairs, key) {
        Some(JsonV::Str(s)) => Some(s),
        _ => None,
    }
}

/// Decode the result of the `initialize` handshake.
pub open spec fn dec_initialize_result(j: JsonV) -> Option<InitializeResultV> {
    match j {
        JsonV::Obj(pairs) => match (
            req_str_field(pairs, "protocol_version"@),
            req_str_field(pairs, "name"@),
            req_str_field(pairs, "version"@),
            spec_lookup(pairs, "capabilities"@),
        ) {
            (Some(pv), Some(n), Some(v), Some(cj)) => match dec_server_capabilities(cj) {
                Some(caps) => Some(
                    InitializeResultV {
                        protocol_version: pv,
                        name: n,
                        version: v,
                        capabilities: caps,
                    },
                ),
                None => None,
            },
            _ => None,
        },
        _ => None,
    }
}


/// An optional string member: absent and `null` both mean "none"; any
/// other value must be a string.
pub open spec fn opt_str_field(pairs: Seq<(Seq<char>, JsonV)>, key: Seq<char>) -> Option<
    Option<Seq<char>>,
> {
    match spec_lookup(pairs, key) {
        None => Some(None),
        Some(JsonV::Null) => Some(None),
        Some(JsonV::Str(v)) => Some(Some(v)),
        Some(_) => None,
    }
}

/// An optional boolean member.
pub open spec fn opt_bool_field(pairs: Seq<(Seq<char>, JsonV)>, key: Seq<char>) -> Option<
    Option<bool>,
> {
    match spec_lookup(pairs, key) {
        None => Some(None),
        Some(JsonV::Null) => Some(None),
        Some(JsonV::Bool(b)) => Some(Some(b)),
        Some(_) => None,
    }
}

/// An optional JSON member: absent and `null` both mean "none".
pub open spec fn opt_json_field(pairs: Seq<(Seq<char>, JsonV)>, key: Seq<char>) -> Option<JsonV> {
    match spec_lookup(pairs, key) {
        None => None,
        Some(JsonV::Null) => None,
        Some(v) => Some(v),
    }
}

/// Decode one tool.
pub open spec fn dec_tool(j: JsonV) -> Option<ToolV> {
    match j {
        JsonV::Obj(pairs) => match (
            req_str_field(pairs, "name"@),
            opt_str_field(pairs, "description"@),
            spec_lookup(pairs, "input_schema"@),
        ) {
            (Some(n), Some(d), Some(schema)) => Some(
                ToolV { name: n, description: d, input_schema: schema },
            ),
            _ => None,
        },
        _ => None,
    }
}

/// Decode a list of tools.
pub open spec fn dec_tools(items: Seq<JsonV>) -> Option<Seq<ToolV>>
    decreases items.len(),
{
    if items.len() == 0 {
        Some(Seq::empty())
    } else {
        match dec_tool(items[0]) {
            Some(t) => match dec_tools(items.drop_first()) {
                Some(rest) => Some(seq![t] + rest),
                None => None,
            },
            None => None,
        }
    }
}

/// Decode the result of `tools/list`.
pub open spec fn dec_list_tools(j: JsonV) -> Option<Seq<ToolV>> {
    match j {
        JsonV::Obj(pairs) => match spec_lookup(pairs, "tools"@) {
            Some(JsonV::Arr(items)) => dec_tools(items),
            _ => None,
        },
        _ => None,
    }
}

/// Decode the properties of an embedded resource.
pub open spec fn dec_properties(pairs: Seq<(Seq<char>, JsonV)>) -> Option<Seq<ResourcePropertyV>>
    decreases pairs.len(),
{
    if pairs.len() == 0 {
        Some(Seq::empty())
    } else {
        match pairs[0].1 {
            JsonV::Str(v) => match dec_properties(pairs.drop_first()) {
                Some(rest) => Some(seq![ResourcePropertyV { key: pairs[0].0, value: v }] + rest),
                None => None,
            },
            _ => None,
        }
    }
}

/// Decode one piece of content, dispatching on its `type` tag.
pub open spec fn dec_content(j: JsonV) -> Option<ContentV> {
    match j {
        JsonV::Obj(pairs) => match req_str_field(pairs, "type"@) {
            Some(tag) => if tag == "text"@ {
                match req_str_field(pairs, "text"@) {
                    Some(t) => Some(ContentV::Text { text: t }),
                    None => None,
                }
            } else if tag == "image"@ {
                match (req_str_field(pairs, "mime_type"@), req_str_field(pairs, "data"@)) {
                    (Some(mt), Some(d)) => Some(ContentV::Image { mime_type: mt, data: d }),
                    _ => None,
                }
            } else if tag == "embedded_resource"@ {
                match req_str_field(pairs, "uri"@) {
                    Some(u) => match spec_lookup(pairs, "properties"@) {
                        None => Some(ContentV::EmbeddedResource { uri: u, properties: None }),
                        Some(JsonV::Null) => Some(
                            ContentV::EmbeddedResource { uri: u, properties: None },
                        ),
                        Some(JsonV::Obj(pp)) => match dec_properties(pp) {
                            Some(props) => Some(
                                ContentV::EmbeddedResource { uri: u, properties: Some(props) },
                            ),
                            None => None,
                        },
                        Some(_) => None,
                    },
                    None => None,
                }
            } else {
                None
            },
            None => None,
        },
        _ => None,
    }
}

/// Decode a list of content pieces.
pub open spec fn dec_content_list(items: Seq<JsonV>) -> Option<Seq<ContentV>>
    decreases items.len(),
{
    if items.len() == 0 {
        Some(Seq::empty())
    } else {
        match dec_content(items[0]) {
            Some(c) => match dec_content_list(items.drop_first()) {
                Some(rest) => Some(seq![c] + rest),
                None => None,
            },
            None => None,
        }
    }
}

/// Decode the result of `tools/call`.
pub open spec fn dec_call_tool_result(j: JsonV) -> Option<CallToolResultV> {
    match j {
        JsonV::Obj(pairs) => match (
            opt_bool_field(pairs, "is_error"@),
            spec_lookup(pairs, "content"@),
        ) {
            (Some(e), Some(JsonV::Arr(items))) => match dec_content_list(items) {
                Some(content) => Some(CallToolResultV { is_error: e, content }),
                None => None,
            },
            _ => None,
        },
        _ => None,
    }
}

/// Decode one resource.
pub open spec fn dec_resource(j: JsonV) -> Option<ResourceV> {
    match j {
        JsonV::Obj(pairs) => match (
            req_str_field(pairs, "uri"@),
            req_str_field(pairs, "name"@),
            opt_str_field(pairs, "description"@),
            opt_str_field(pairs, "mime_type"@),
        ) {
            (Some(u), Some(n), Some(d), Some(mt)) => Some(
                ResourceV { uri: u, name: n, description: d, mime_type: mt },
            ),
            _ => None,
        },
        _ => None,
    }
}

/// Decode a list of resources.
pub open spec fn dec_resources(items: Seq<JsonV>) -> Option<Seq<ResourceV>>
    decreases items.len(),
{
    if items.len() == 0 {
        Some(Seq::empty())
    } else {
        match dec_resource(items[0]) {
            Some(r) => match dec_resources(items.drop_first()) {
                Some(rest) => Some(seq![r] + rest),
                None => None,
            },
            None => None,
        }
    }
}

/// Decode the result of `resources/list`.
pub open spec fn dec_list_resources(j: JsonV) -> Option<Seq<ResourceV>> {
    match j {
        JsonV::Obj(pairs) => match spec_lookup(pairs, "resources"@) {
            Some(JsonV::Arr(items)) => dec_resources(items),
            _ => None,
        },
        _ => None,
    }
}

/// Decode a content-bearing result (`resources/read`, `prompts/get`).
pub open spec fn dec_content_result(j: JsonV) -> Option<Seq<ContentV>> {
    match j {
        JsonV::Obj(pairs) => match spec_lookup(pairs, "content"@) {
            Some(JsonV::Arr(items)) => dec_content_list(items),
            _ => None,
        },
        _ => None,
    }
}

/// Decode one prompt.
pub open spec fn dec_prompt(j: JsonV) -> Option<PromptV> {
    match j {
        JsonV::Obj(pairs) => match (
            req_str_field(pairs, "id"@),
            req_str_field(pairs, "name"@),
            opt_str_field(pairs, "description"@),
        ) {
            (Some(id), Some(n), Some(d)) => Some(
                PromptV {
                    id: id,
                    name: n,
                    description: d,
                    parameter_schema: opt_json_field(pairs, "parameter_schema"@),
                },
            ),
            _ => None,
        },
        _ => None,
    }
}

/// Decode a list of prompts.
pub open spec fn dec_prompts(items: Seq<JsonV>) -> Option<Seq<PromptV>>
    decreases items.len(),
{
    if items.len() == 0 {
        Some(Seq::empty())
    } else {
        match dec_prompt(items[0]) {
            Some(pr) => match dec_prompts(items.drop_first()) {
                Some(rest) => Some(seq![pr] + rest),
                None => None,
            },
            None => None,
        }
    }
}

/// Decode the result of `prompts/list`.
pub open spec fn dec_list_prompts(j: JsonV) -> Option<Seq<PromptV>> {
    match j {
        JsonV::Obj(pairs) => match spec_lookup(pairs, "prompts"@) {
            Some(JsonV::Arr(items)) => dec_prompts(items),
            _ => None,
        },
        _ => None,
    }
}

/// The JSON object encoding `tools/call` parameters.
pub open spec fn enc_call_tool_params(p: CallToolParamsV) -> JsonV {
    JsonV::Obj(
        crate::rpc::with_opt_field(seq![("name"@, JsonV::Str(p.name))], "arguments"@, p.arguments),
    )
}

/// The JSON object encoding `resources/read` parameters.
pub open spec fn enc_read_resource_params(p: ReadResourceParamsV) -> JsonV {
    JsonV::Obj(seq![("uri"@, JsonV::Str(p.uri))])
}

/// The JSON object encoding `prompts/get` parameters.
pub open spec fn enc_get_prompt_params(p: GetPromptParamsV) -> JsonV {
    JsonV::Obj(
        crate::rpc::with_opt_field(seq![("id"@, JsonV::Str(p.id))], "parameters"@, p.parameters),
    )
}

/// Encode the client's capability facets.
pub fn encode_client_capabilities(c: &ClientCapabilities) -> (r: Json)
    ensures
        r@ == enc_client_capabilities(*c),
{
    let mut fields: Vec<JsonField> = Vec::new();
    if c.resources.is_some() {
        fields.push(JsonField { key: copy_str("resources"), value: Json::Obj(Vec::new()) });
    }
    if c.tools.is_some() {
        fields.push(JsonField { key: copy_str("tools"), value: Json::Obj(Vec::new()) });
    }
    if c.prompts.is_some() {
        fields.push(JsonField { key: copy_str("prompts"), value: Json::Obj(Vec::new()) });
    }
    if c.sampling.is_some() {
        fields.push(JsonField { key: copy_str("sampling"), value: Json::Obj(Vec::new()) });
    }
    proof {
        lemma_view_obj(fields@);
        assert(view_obj(Seq::<JsonField>::empty()) =~= Seq::<(Seq<char>, JsonV)>::empty());
        assert(view_obj(fields@) =~= with_facet(
            with_facet(
                with_facet(
                    with_facet(Seq::empty(), "resources"@, c.resources is Some),
                    "tools"@,
                    c.tools is Some,
                ),
                "prompts"@,
                c.prompts is Some,
            ),
            "sampling"@,
            c.sampling is Some,
        ));
    }
    Json::Obj(fields)
}

/// Encode the `initialize` parameters.
pub fn encode_initialize_params(p: &InitializeParams) -> (r: Json)
    ensures
        r@ == enc_initialize_params(p@),
{
    let mut fields: Vec<JsonField> = Vec::new();
    fields.push(
        JsonField {
            key: copy_str("protocol_version"),
            value: Json::Str(p.protocol_version.clone()),
        },
    );
    fields.push(JsonField { key: copy_str("name"), value: Json::Str(p.name.clone()) });
    fields.push(JsonField { key: copy_str("version"), value: Json::Str(p.version.clone()) });
    fields.push(
        JsonField {
            key: copy_str("capabilities"),
            value: encode_client_capabilities(&p.capabilities),
        },
    );
    proof {
        lemma_view_obj(fields@);
        assert(view_obj(fields@) =~= seq![
            ("protocol_version"@, JsonV::Str(p.protocol_version@)),
            ("name"@, JsonV::Str(p.name@)),
            ("version"@, JsonV::Str(p.version@)),
            ("capabilities"@, enc_client_capabilities(p.capabilities)),
        ]);
    }
    Json::Obj(fields)
}

/// Decode one optional facet member.
fn decode_facet(fields: &Vec<JsonField>, key: &str) -> (r: Option<bool>)
    ensures
        r == dec_facet(view_obj(fields@), key@),
{
    match Json::lookup(fields, key) {
        None => Some(false),
        Some(Json::Null) => Some(false),
        Some(Json::Obj(_)) => Some(true),
        Some(_) => None,
    }
}

/// Decode the server's capability facets.
pub fn decode_server_capabilities(j: &Json) -> (r: Option<ServerCapabilities>)
    ensures
        r == dec_server_capabilities(j@),
{
    match j {
        Json::Obj(fields) => {
            let rf = match decode_facet(fields, "resources") {
                Some(b) => b,
                None => {
                    return None;
                },
            };
            let tf = match decode_facet(fields, "tools") {
                Some(b) => b,
                None => {
                    return None;
                },
            };
            let pf = match decode_facet(fields, "prompts") {
                Some(b) => b,
                None => {
                    return None;
                },
            };
            let sf = match decode_facet(fields, "sampling") {
                Some(b) => b,
                None => {
                    return None;
                },
            };
            Some(
                ServerCapabilities {
                    resources: if rf {
                        Some(ResourcesServerCapabilities {  })
                    } else {
                        None
                    },
                    tools: if tf {
                        Some(ToolsServerCapabilities {  })
                    } else {
                        None
                    },
                    prompts: if pf {
                        Some(PromptsServerCapabilities {  })
                    } else {
                        None
                    },
                    sampling: if sf {
                        Some(SamplingServerCapabilities {  })
                    } else {
                        None
                    },
                },
            )
        },
        _ => None,
    }
}

/// Decode the result of the `initialize` handshake.
pub fn decode_initialize_result(j: &Json) -> (r: Option<InitializeResult>)
    ensures
        r.deep_view() == dec_initialize_result(j@),
{
    match j {
        Json::Obj(fields) => {
            let pv = match Json::lookup(fields, "protocol_version") {
                Some(Json::Str(s)) => s,
                _ => {
                    return None;
                },
            };
            let n = match Json::lookup(fields, "name") {
                Some(Json::Str(s)) => s,
                _ => {
                    return None;
                },
            };
            let v = match Json::lookup(fields, "version") {
                Some(Json::Str(s)) => s,
                _ => {
                    return None;
                },
            };
            let cj = match Json::lookup(fields, "capabilities") {
                Some(c) => c,
                None => {
                    return None;
                },
            };
            let caps = match decode_server_capabilities(cj) {
                Some(c) => c,
                None => {
                    return None;
                },
            };
            Some(
                InitializeResult {
                    protocol_version: pv.clone(),
                    name: n.clone(),
                    version: v.clone(),
                    capabilities: caps,
                },
            )
        },
        _ => None,
    }
}


/// Decode one optional string member.
fn opt_str_exec(fields: &Vec<JsonField>, key: &str) -> (r: Option<Option<String>>)
    ensures
        r.deep_view() == opt_str_field(view_obj(fields@), key@),
{
    match Json::lookup(fields, key) {
        None => Some(None),
        Some(Json::Null) => Some(None),
        Some(Json::Str(v)) => Some(Some(v.clone())),
        Some(_) => None,
    }
}

/// Decode one optional boolean member.
fn opt_bool_exec(fields: &Vec<JsonField>, key: &str) -> (r: Option<Option<bool>>)
    ensures
        match r {
            Some(b) => opt_bool_field(view_obj(fields@), key@) == Some(b),
            None => opt_bool_field(view_obj(fields@), key@) is None,
        },
{
    match Json::lookup(fields, key) {
        None => Some(None),
        Some(Json::Null) => Some(None),
        Some(Json::Bool(b)) => Some(Some(*b)),
        Some(_) => None,
    }
}

/// Decode one tool.
pub fn decode_tool(j: &Json) -> (r: Option<Tool>)
    ensures
        r.deep_view() == dec_tool(j@),
{
    match j {
        Json::Obj(fields) => {
            let n = match Json::lookup(fields, "name") {
                Some(Json::Str(s)) => s,
                _ => {
                    return None;
                },
            };
            let d = match opt_str_exec(fields, "description") {
                Some(d) => d,
                None => {
                    return None;
                },
            };
            let schema = match Json::lookup(fields, "input_schema") {
                Some(v) => v.duplicate(),
                None => {
                    return None;
                },
            };
            Some(Tool { name: n.clone(), description: d, input_schema: schema })
        },
        _ => None,
    }
}

/// Decode the result of `tools/list`.
#[verifier::loop_isolation(false)]
pub fn decode_list_tools(j: &Json) -> (r: Option<ListToolsResult>)
    ensures
        match r {
            Some(lt) => dec_list_tools(j@) == Some(lt.tools.deep_view()),
            None => dec_list_tools(j@) is None,
        },
{
    match j {
        Json::Obj(fields) => {
            let items = match Json::lookup(fields, "tools") {
                Some(Json::Arr(items)) => items,
                _ => {
                    return None;
                },
            };
            let ghost model = view_arr(items@);
            proof {
                lemma_view_arr(items@);
                assert(model.skip(0) =~= model);
            }
            let mut out: Vec<Tool> = Vec::new();
            let mut i: usize = 0;
            while i < items.len()
                invariant
                    0 <= i <= items@.len(),
                    model == view_arr(items@),
                    model.len() == items@.len(),
                    forall|k: int| 0 <= k < model.len() ==> #[trigger] model[k] == items@[k]@,
                    out@.len() == i,
                    dec_tools(model) == match dec_tools(model.skip(i as int)) {
                        Some(rest) => Some(out.deep_view() + rest),
                        None => None::<Seq<ToolV>>,
                    },
                decreases items@.len() - i,
            {
                let t = match decode_tool(&items[i]) {
                    Some(t) => t,
                    None => {
                        proof {
                            assert(model.skip(i as int)[0] == model[i as int]);
                        }
                        return None;
                    },
                };
                let ghost tv = t@;
                out.push(t);
                proof {
                    assert(model.skip(i as int)[0] == model[i as int]);
                    assert(model.skip(i as int).drop_first() =~= model.skip(i as int + 1));
                    match dec_tools(model.skip(i as int + 1)) {
                        Some(rest) => {
                            assert(out.deep_view() + rest =~~= out.deep_view().subrange(
                                0,
                                out.deep_view().len() - 1,
                            ) + (seq![tv] + rest));
                        },
                        None => {},
                    }
                }
                i = i + 1;
            }
            proof {
                assert(model.skip(i as int).len() == 0);
                assert(out.deep_view() + Seq::<ToolV>::empty() =~~= out.deep_view());
            }
            Some(ListToolsResult { tools: out })
        },
        _ => None,
    }
}

/// Decode one piece of content.
#[verifier::loop_isolation(false)]
pub fn decode_content(j: &Json) -> (r: Option<Content>)
    ensures
        r.deep_view() == dec_content(j@),
{
    match j {
        Json::Obj(fields) => {
            let tag = match Json::lookup(fields, "type") {
                Some(Json::Str(s)) => s,
                _ => {
                    return None;
                },
            };
            proof {
                reveal_strlit("text");
                reveal_strlit("image");
                reveal_strlit("embedded_resource");
                assert(("text"@).len() != ("image"@).len());
                assert(("text"@).len() != ("embedded_resource"@).len());
                assert(("image"@).len() != ("embedded_resource"@).len());
            }
            if crate::strutil::eq_str(tag.as_str(), "text") {
                let t = match Json::lookup(fields, "text") {
                    Some(Json::Str(s)) => s,
                    _ => {
                        return None;
                    },
                };
                Some(Content::Text { text: t.clone() })
            } else if crate::strutil::eq_str(tag.as_str(), "image") {
                let mt = match Json::lookup(fields, "mime_type") {
                    Some(Json::Str(s)) => s,
                    _ => {
                        return None;
                    },
                };
                let d = match Json::lookup(fields, "data") {
                    Some(Json::Str(s)) => s,
                    _ => {
                        return None;
                    },
                };
                Some(Content::Image { mime_type: mt.clone(), data: d.clone() })
            } else if crate::strutil::eq_str(tag.as_str(), "embedded_resource") {
                let u = match Json::lookup(fields, "uri") {
                    Some(Json::Str(s)) => s,
                    _ => {
                        return None;
                    },
                };
                let props: Option<Vec<ResourceProperty>> = match Json::lookup(
                    fields,
                    "properties",
                ) {
                    None => None,
                    Some(Json::Null) => None,
                    Some(Json::Obj(pp)) => {
                        let ghost model = view_obj(pp@);
                        proof {
                            lemma_view_obj(pp@);
                            assert(model.skip(0) =~= model);
                        }
                        let mut out: Vec<ResourceProperty> = Vec::new();
                        let mut i: usize = 0;
                        while i < pp.len()
                            invariant
                                0 <= i <= pp@.len(),
                                model == view_obj(pp@),
                                model.len() == pp@.len(),
                                forall|k: int|
                                    0 <= k < model.len() ==> #[trigger] model[k] == (
                                    pp@[k].key@,
                                    pp@[k].value@,
                                    ),
                                out@.len() == i,
                                dec_properties(model) == match dec_properties(
                                    model.skip(i as int),
                                ) {
                                    Some(rest) => Some(out.deep_view() + rest),
                                    None => None::<Seq<ResourcePropertyV>>,
                                },
                            decreases pp@.len() - i,
                        {
                            let f = &pp[i];
                            let v = match &f.value {
                                Json::Str(sv) => sv,
                                _ => {
                                    proof {
                                        assert(model.skip(i as int)[0] == model[i as int]);
                                    }
                                    return None;
                                },
                            };
                            out.push(ResourceProperty { key: f.key.clone(), value: v.clone() });
                            proof {
                                assert(model.skip(i as int)[0] == model[i as int]);
                                assert(model.skip(i as int).drop_first() =~= model.skip(
                                    i as int + 1,
                                ));
                                match dec_properties(model.skip(i as int + 1)) {
                                    Some(rest) => {
                                        assert(out.deep_view() + rest
                                            =~~= out.deep_view().subrange(
                                            0,
                                            out.deep_view().len() - 1,
                                        ) + (seq![
                                            ResourcePropertyV { key: f.key@, value: v@ },
                                        ] + rest));
                                    },
                                    None => {},
                                }
                            }
                            i = i + 1;
                        }
                        proof {
                            assert(model.skip(i as int).len() == 0);
                            assert(out.deep_view() + Seq::<ResourcePropertyV>::empty()
                                =~~= out.deep_view());
                        }
                        Some(out)
                    },
                    Some(_) => {
                        return None;
                    },
                };
                Some(Content::EmbeddedResource { uri: u.clone(), properties: props })
            } else {
                None
            }
        },
        _ => None,
    }
}

/// Decode a list of content pieces from an array.
#[verifier::loop_isolation(false)]
fn decode_content_items(items: &Vec<Json>) -> (r: Option<Vec<Content>>)
    ensures
        r.deep_view() == dec_content_list(view_arr(items@)),
{
    let ghost model = view_arr(items@);
    proof {
        lemma_view_arr(items@);
        assert(model.skip(0) =~= model);
    }
    let mut out: Vec<Content> = Vec::new();
    let mut i: usize = 0;
    while i < items.len()
        invariant
            0 <= i <= items@.len(),
            model == view_arr(items@),
            model.len() == items@.len(),
            forall|k: int| 0 <= k < model.len() ==> #[trigger] model[k] == items@[k]@,
            out@.len() == i,
            dec_content_list(model) == match dec_content_list(model.skip(i as int)) {
                Some(rest) => Some(out.deep_view() + rest),
                None => None::<Seq<ContentV>>,
            },
        decreases items@.len() - i,
    {
        let c = match decode_content(&items[i]) {
            Some(c) => c,
            None => {
                proof {
                    assert(model.skip(i as int)[0] == model[i as int]);
                }
                return None;
            },
        };
        let ghost cv = c@;
        out.push(c);
        proof {
            assert(model.skip(i as int)[0] == model[i as int]);
            assert(model.skip(i as int).drop_first() =~= model.skip(i as int + 1));
            match dec_content_list(model.skip(i as int + 1)) {
                Some(rest) => {
                    assert(out.deep_view() + rest =~~= out.deep_view().subrange(
                        0,
                        out.deep_view().len() - 1,
                    ) + (seq![cv] + rest));
                },
                None => {},
            }
        }
        i = i + 1;
    }
    proof {
        assert(model.skip(i as int).len() == 0);
        assert(out.deep_view() + Seq::<ContentV>::empty() =~~= out.deep_view());
    }
    Some(out)
}

/// Decode the result of `tools/call`.
pub fn decode_call_tool_result(j: &Json) -> (r: Option<CallToolResult>)
    ensures
        r.deep_view() == dec_call_tool_result(j@),
{
    match j {
        Json::Obj(fields) => {
            let is_error = match opt_bool_exec(fields, "is_error") {
                Some(b) => b,
                None => {
                    return None;
                },
            };
            let items = match Json::lookup(fields, "content") {
                Some(Json::Arr(items)) => items,
                _ => {
                    return None;
                },
            };
            let content = match decode_content_items(items) {
                Some(c) => c,
                None => {
                    return None;
                },
            };
            Some(CallToolResult { is_error, content })
        },
        _ => None,
    }
}

/// Decode one resource.
pub fn decode_resource(j: &Json) -> (r: Option<Resource>)
    ensures
        r.deep_view() == dec_resource(j@),
{
    match j {
        Json::Obj(fields) => {
            let u = match Json::lookup(fields, "uri") {
                Some(Json::Str(s)) => s,
                _ => {
                    return None;
                },
            };
            let n = match Json::lookup(fields, "name") {
                Some(Json::Str(s)) => s,
                _ => {
                    return None;
                },
            };
            let d = match opt_str_exec(fields, "description") {
                Some(d) => d,
                None => {
                    return None;
                },
            };
            let mt = match opt_str_exec(fields, "mime_type") {
                Some(m) => m,
                None => {
                    return None;
                },
            };
            Some(Resource { uri: u.clone(), name: n.clone(), description: d, mime_type: mt })
        },
        _ => None,
    }
}

/// Decode the result of `resources/list`.
#[verifier::loop_isolation(false)]
pub fn decode_list_resources(j: &Json) -> (r: Option<ListResourcesResult>)
    ensures
        match r {
            Some(lr) => dec_list_resources(j@) == Some(lr.resources.deep_view()),
            None => dec_list_resources(j@) is None,
        },
{
    match j {
        Json::Obj(fields) => {
            let items = match Json::lookup(fields, "resources") {
                Some(Json::Arr(items)) => items,
                _ => {
                    return None;
                },
            };
            let ghost model = view_arr(items@);
            proof {
                lemma_view_arr(items@);
                assert(model.skip(0) =~= model);
            }
            let mut out: Vec<Resource> = Vec::new();
            let mut i: usize = 0;
            while i < items.len()
                invariant
                    0 <= i <= items@.len(),
                    model == view_arr(items@),
                    model.len() == items@.len(),
                    forall|k: int| 0 <= k < model.len() ==> #[trigger] model[k] == items@[k]@,
                    out@.len() == i,
                    dec_resources(model) == match dec_resources(model.skip(i as int)) {
                        Some(rest) => Some(out.deep_view() + rest),
                        None => None::<Seq<ResourceV>>,
                    },
                decreases items@.len() - i,
            {
                let x = match decode_resource(&items[i]) {
                    Some(x) => x,
                    None => {
                        proof {
                            assert(model.skip(i as int)[0] == model[i as int]);
                        }
                        return None;
                    },
                };
                let ghost xv = x@;
                out.push(x);
                proof {
                    assert(model.skip(i as int)[0] == model[i as int]);
                    assert(model.skip(i as int).drop_first() =~= model.skip(i as int + 1));
                    match dec_resources(model.skip(i as int + 1)) {
                        Some(rest) => {
                            assert(out.deep_view() + rest =~~= out.deep_view().subrange(
                                0,
                                out.deep_view().len() - 1,
                            ) + (seq![xv] + rest));
                        },
                        None => {},
                    }
                }
                i = i + 1;
            }
            proof {
                assert(model.skip(i as int).len() == 0);
                assert(out.deep_view() + Seq::<ResourceV>::empty() =~~= out.deep_view());
            }
            Some(ListResourcesResult { resources: out })
        },
        _ => None,
    }
}

/// Decode a content-bearing result (`resources/read`, `prompts/get`).
pub fn decode_content_result(j: &Json) -> (r: Option<Vec<Content>>)
    ensures
        r.deep_view() == dec_content_result(j@),
{
    match j {
        Json::Obj(fields) => {
            let items = match Json::lookup(fields, "content") {
                Some(Json::Arr(items)) => items,
                _ => {
                    return None;
                },
            };
            decode_content_items(items)
        },
        _ => None,
    }
}

/// Decode one prompt.
pub fn decode_prompt(j: &Json) -> (r: Option<Prompt>)
    ensures
        r.deep_view() == dec_prompt(j@),
{
    match j {
        Json::Obj(fields) => {
            let id = match Json::lookup(fields, "id") {
                Some(Json::Str(s)) => s,
                _ => {
                    return None;
                },
            };
            let n = match Json::lookup(fields, "name") {
                Some(Json::Str(s)) => s,
                _ => {
                    return None;
                },
            };
            let d = match opt_str_exec(fields, "description") {
                Some(d) => d,
                None => {
                    return None;
                },
            };
            let schema = match Json::lookup(fields, "parameter_schema") {
                None => None,
                Some(Json::Null) => None,
                Some(v) => Some(v.duplicate()),
            };
            Some(Prompt { id: id.clone(), name: n.clone(), description: d, parameter_schema: schema })
        },
        _ => None,
    }
}

/// Decode the result of `prompts/list`.
#[verifier::loop_isolation(false)]
pub fn decode_list_prompts(j: &Json) -> (r: Option<ListPromptsResult>)
    ensures
        match r {
            Some(lp) => dec_list_prompts(j@) == Some(lp.prompts.deep_view()),
            None => dec_list_prompts(j@) is None,
        },
{
    match j {
        Json::Obj(fields) => {
            let items = match Json::lookup(fields, "prompts") {
                Some(Json::Arr(items)) => items,
                _ => {
                    return None;
                },
            };
            let ghost model = view_arr(items@);
            proof {
                lemma_view_arr(items@);
                assert(model.skip(0) =~= model);
            }
            let mut out: Vec<Prompt> = Vec::new();
            let mut i: usize = 0;
            while i < items.len()
                invariant
                    0 <= i <= items@.len(),
                    model == view_arr(items@),
                    model.len() == items@.len(),
                    forall|k: int| 0 <= k < model.len() ==> #[trigger] model[k] == items@[k]@,
                    out@.len() == i,
                    dec_prompts(model) == match dec_prompts(model.skip(i as int)) {
                        Some(rest) => Some(out.deep_view() + rest),
                        None => None::<Seq<PromptV>>,
                    },
                decreases items@.len() - i,
            {
                let x = match decode_prompt(&items[i]) {
                    Some(x) => x,
                    None => {
                        proof {
                            assert(model.skip(i as int)[0] == model[i as int]);
                        }
                        return None;
                    },
                };
                let ghost xv = x@;
                out.push(x);
                proof {
                    assert(model.skip(i as int)[0] == model[i as int]);
                    assert(model.skip(i as int).drop_first() =~= model.skip(i as int + 1));
                    match dec_prompts(model.skip(i as int + 1)) {
                        Some(rest) => {
                            assert(out.deep_view() + rest =~~= out.deep_view().subrange(
                                0,
                                out.deep_view().len() - 1,
                            ) + (seq![xv] + rest));
                        },
                        None => {},
                    }
                }
                i = i + 1;
            }
            proof {
                assert(model.skip(i as int).len() == 0);
                assert(out.deep_view() + Seq::<PromptV>::empty() =~~= out.deep_view());
            }
            Some(ListPromptsResult { prompts: out })
        },
        _ => None,
    }
}

/// Encode `tools/call` parameters.
pub fn encode_call_tool_params(p: CallToolParams) -> (r: Json)
    ensures
        r@ == enc_call_tool_params(p@),
{
    let ghost model = p@;
    let CallToolParams { name, arguments } = p;
    let mut fields: Vec<JsonField> = Vec::new();
    fields.push(JsonField { key: copy_str("name"), value: Json::Str(name) });
    match arguments {
        Some(a) => fields.push(JsonField { key: copy_str("arguments"), value: a }),
        None => {},
    }
    proof {
        lemma_view_obj(fields@);
        assert(view_obj(fields@) =~= crate::rpc::with_opt_field(
            seq![("name"@, JsonV::Str(model.name))],
            "arguments"@,
            model.arguments,
        ));
    }
    Json::Obj(fields)
}

/// Encode `resources/read` parameters.
pub fn encode_read_resource_params(p: ReadResourceParams) -> (r: Json)
    ensures
        r@ == enc_read_resource_params(p@),
{
    let ghost model = p@;
    let mut fields: Vec<JsonField> = Vec::new();
    fields.push(JsonField { key: copy_str("uri"), value: Json::Str(p.uri) });
    proof {
        lemma_view_obj(fields@);
        assert(view_obj(fields@) =~= seq![("uri"@, JsonV::Str(model.uri))]);
    }
    Json::Obj(fields)
}

/// Encode `prompts/get` parameters.
pub fn encode_get_prompt_params(p: GetPromptParams) -> (r: Json)
    ensures
        r@ == enc_get_prompt_params(p@),
{
    let ghost model = p@;
    let GetPromptParams { id, parameters } = p;
    let mut fields: Vec<JsonField> = Vec::new();
    fields.push(JsonField { key: copy_str("id"), value: Json::Str(id) });
    match parameters {
        Some(pv) => fields.push(JsonField { key: copy_str("parameters"), value: pv }),
        None => {},
    }
    proof {
        lemma_view_obj(fields@);
        assert(view_obj(fields@) =~= crate::rpc::with_opt_field(
            seq![("id"@, JsonV::Str(model.id))],
            "parameters"@,
            model.parameters,
        ));
    }
    Json::Obj(fields)
}

} // verus!
