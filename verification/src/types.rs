//! Protocol payload types for the MCP handshake, tools, resources and
//! prompts, and the error taxonomy.

use vstd::prelude::*;
use vstd::string::StringExecFns;
use crate::json::{Json, JsonV};

verus! {

/// Capability facets announced by a client; each facet is an empty extension
/// point.
#[derive(Debug, Clone, Copy, PartialEq, Eq, Structural)]
pub struct ResourcesClientCapabilities {}

#[derive(Debug, Clone, Copy, PartialEq, Eq, Structural)]
pub struct ToolsClientCapabilities {}

#[derive(Debug, Clone, Copy, PartialEq, Eq, Structural)]
pub struct PromptsClientCapabilities {}

#[derive(Debug, Clone, Copy, PartialEq, Eq, Structural)]
pub struct SamplingClientCapabilities {}

/// Capability facets a client advertises in `initialize`.
#[derive(Debug, Clone, Copy)]
pub struct ClientCapabilities {
    pub resources: Option<ResourcesClientCapabilities>,
    pub tools: Option<ToolsClientCapabilities>,
    pub prompts: Option<PromptsClientCapabilities>,
    pub sampling: Option<SamplingClientCapabilities>,
}

/// Capability facets announced by a server; each facet is an empty extension
/// point.
#[derive(Debug, Clone, Copy, PartialEq, Eq, Structural)]
pub struct ResourcesServerCapabilities {}

#[derive(Debug, Clone, Copy, PartialEq, Eq, Structural)]
pub struct ToolsServerCapabilities {}

#[derive(Debug, Clone, Copy, PartialEq, Eq, Structural)]
pub struct PromptsServerCapabilities {}

#[derive(Debug, Clone, Copy, PartialEq, Eq, Structural)]
pub struct SamplingServerCapabilities {}

/// Capability facets a server reports in its `initialize` result.
#[derive(Debug, Clone, Copy)]
pub struct ServerCapabilities {
    pub resources: Option<ResourcesServerCapabilities>,
    pub tools: Option<ToolsServerCapabilities>,
    pub prompts: Option<PromptsServerCapabilities>,
    pub sampling: Option<SamplingServerCapabilities>,
}

/// Parameters of the `initialize` request.
#[derive(Debug)]
pub struct InitializeParams {
    pub protocol_version: String,
    pub name: String,
    pub version: String,
    pub capabilities: ClientCapabilities,
}

/// Model of `InitializeParams`.
pub struct InitializeParamsV {
    pub protocol_version: Seq<char>,
    pub name: Seq<char>,
    pub version: Seq<char>,
    pub capabilities: ClientCapabilities,
}

/// Result of the `initialize` handshake, cached by the client session.
#[derive(Debug)]
pub struct InitializeResult {
    pub protocol_version: String,
    pub name: String,
    pub version: String,
    pub capabilities: ServerCapabilities,
}

/// Model of `InitializeResult`.
pub struct InitializeResultV {
    pub protocol_version: Seq<char>,
    pub name: Seq<char>,
    pub version: Seq<char>,
    pub capabilities: ServerCapabilities,
}

/// A callable action offered by a server.
#[derive(Debug)]
pub struct Tool {
    pub name: String,
    pub description: Option<String>,
    pub input_schema: Json,
}

/// Model of `Tool`.
pub struct ToolV {
    pub name: Seq<char>,
    pub description: Option<Seq<char>>,
    pub input_schema: JsonV,
}

/// Result of `tools/list`.
#[derive(Debug)]
pub struct ListToolsResult {
    pub tools: Vec<Tool>,
}

/// Parameters of `tools/call`.
#[derive(Debug)]
pub struct CallToolParams {
    pub name: String,
    pub arguments: Option<Json>,
}

/// One named property attached to an embedded resource.
#[derive(Debug)]
pub struct ResourceProperty {
    pub key: String,
    pub value: String,
}

/// Model of `ResourceProperty`.
pub struct ResourcePropertyV {
    pub key: Seq<char>,
    pub value: Seq<char>,
}

/// One piece of content in a tool, resource or prompt result.
#[derive(Debug)]
pub enum Content {
    Text { text: String },
    Image { mime_type: String, data: String },
    EmbeddedResource { uri: String, properties: Option<Vec<ResourceProperty>> },
}

/// Model of `Content`.
pub enum ContentV {
    Text { text: Seq<char> },
    Image { mime_type: Seq<char>, data: Seq<char> },
    EmbeddedResource { uri: Seq<char>, properties: Option<Seq<ResourcePropertyV>> },
}

/// Result of `tools/call`.
#[derive(Debug)]
pub struct CallToolResult {
    pub is_error: Option<bool>,
    pub content: Vec<Content>,
}

/// A readable URI offered by a server.
#[derive(Debug)]
pub struct Resource {
    pub uri: String,
    pub name: String,
    pub description: Option<String>,
    pub mime_type: Option<String>,
}

/// Model of `Resource`.
pub struct ResourceV {
    pub uri: Seq<char>,
    pub name: Seq<char>,
    pub description: Option<Seq<char>>,
    pub mime_type: Option<Seq<char>>,
}

/// Result of `resources/list`.
#[derive(Debug)]
pub struct ListResourcesResult {
    pub resources: Vec<Resource>,
}

/// Parameters of `resources/read`.
#[derive(Debug)]
pub struct ReadResourceParams {
    pub uri: String,
}

/// Result of `resources/read`.
#[derive(Debug)]
pub struct ReadResourceResult {
    pub content: Vec<Content>,
}

/// A parameterized text template offered by a server.
#[derive(Debug)]
pub struct Prompt {
    pub id: String,
    pub name: String,
    pub description: Option<String>,
    pub parameter_schema: Option<Json>,
}

/// Model of `Prompt`.
pub struct PromptV {
    pub id: Seq<char>,
    pub name: Seq<char>,
    pub description: Option<Seq<char>>,
    pub parameter_schema: Option<JsonV>,
}

/// Result of `prompts/list`.
#[derive(Debug)]
pub struct ListPromptsResult {
    pub prompts: Vec<Prompt>,
}

/// Parameters of `prompts/get`.
#[derive(Debug)]
pub struct GetPromptParams {
    pub id: String,
    pub parameters: Option<Json>,
}

/// Result of `prompts/get`.
#[derive(Debug)]
pub struct GetPromptResult {
    pub content: Vec<Content>,
}

/// The error taxonomy of the library.
#[derive(Debug)]
pub enum McpError {
    ParseError(String),
    InvalidRequest(String),
    MethodNotFound(String),
    InvalidParams(String),
    InternalError(String),
    TransportError(String),
    ProtocolError(String),
    TimeoutError,
    ConnectionClosed,
}

/// Model of `McpError`.
pub enum McpErrorV {
    ParseError(Seq<char>),
    InvalidRequest(Seq<char>),
    MethodNotFound(Seq<char>),
    InvalidParams(Seq<char>),
    InternalError(Seq<char>),
    TransportError(Seq<char>),
    ProtocolError(Seq<char>),
    TimeoutError,
    ConnectionClosed,
}

impl View for McpError {
    type V = McpErrorV;

    open spec fn view(&self) -> McpErrorV {
        match self {
            McpError::ParseError(s) => McpErrorV::ParseError(s@),
            McpError::InvalidRequest(s) => McpErrorV::InvalidRequest(s@),
            McpError::MethodNotFound(s) => McpErrorV::MethodNotFound(s@),
            McpError::InvalidParams(s) => McpErrorV::InvalidParams(s@),
            McpError::InternalError(s) => McpErrorV::InternalError(s@),
            McpError::TransportError(s) => McpErrorV::TransportError(s@),
            McpError::ProtocolError(s) => McpErrorV::ProtocolError(s@),
            McpError::TimeoutError => McpErrorV::TimeoutError,
            McpError::ConnectionClosed => McpErrorV::ConnectionClosed,
        }
    }
}

impl DeepView for McpError {
    type V = McpErrorV;

    open spec fn deep_view(&self) -> McpErrorV {
        self@
    }
}

impl McpError {
    /// The JSON-RPC integer code of this error kind.
    pub open spec fn spec_code(&self) -> int {
        match self {
            McpError::ParseError(_) => -32700,
            McpError::InvalidRequest(_) => -32600,
            McpError::MethodNotFound(_) => -32601,
            McpError::InvalidParams(_) => -32602,
            McpError::InternalError(_) => -32603,
            McpError::TransportError(_) => -32000,
            McpError::ProtocolError(_) => -32001,
            McpError::TimeoutError => -32002,
            McpError::ConnectionClosed => -32003,
        }
    }

    /// The JSON-RPC integer code of this error kind.
    pub fn to_code(&self) -> (r: i32)
        ensures
            r == self.spec_code(),
    {
        match self {
            McpError::ParseError(_) => -32700,
            McpError::InvalidRequest(_) => -32600,
            McpError::MethodNotFound(_) => -32601,
            McpError::InvalidParams(_) => -32602,
            McpError::InternalError(_) => -32603,
            McpError::TransportError(_) => -32000,
            McpError::ProtocolError(_) => -32001,
            McpError::TimeoutError => -32002,
            McpError::ConnectionClosed => -32003,
        }
    }

    /// The human-readable description of this error.
    pub open spec fn spec_message(&self) -> Seq<char> {
        match self {
            McpError::ParseError(s) => "Parse error: "@ + s@,
            McpError::InvalidRequest(s) => "Invalid request: "@ + s@,
            McpError::MethodNotFound(s) => "Method not found: "@ + s@,
            McpError::InvalidParams(s) => "Invalid params: "@ + s@,
            McpError::InternalError(s) => "Internal error: "@ + s@,
            McpError::TransportError(s) => "Transport error: "@ + s@,
            McpError::ProtocolError(s) => "Protocol error: "@ + s@,
            McpError::TimeoutError => "Timeout error"@,
            McpError::ConnectionClosed => "Connection closed"@,
        }
    }

    /// Render the error as a human-readable string for the host boundary.
    pub fn message(&self) -> (r: String)
        ensures
            r@ == self.spec_message(),
    {
        match self {
            McpError::ParseError(s) => {
                let mut r = String::from_str("Parse error: ");
                r.append(s.as_str());
                r
            },
            McpError::InvalidRequest(s) => {
                let mut r = String::from_str("Invalid request: ");
                r.append(s.as_str());
                r
            },
            McpError::MethodNotFound(s) => {
                let mut r = String::from_str("Method not found: ");
                r.append(s.as_str());
                r
            },
            McpError::InvalidParams(s) => {
                let mut r = String::from_str("Invalid params: ");
                r.append(s.as_str());
                r
            },
            McpError::InternalError(s) => {
                let mut r = String::from_str("Internal error: ");
                r.append(s.as_str());
                r
            },
            McpError::TransportError(s) => {
                let mut r = String::from_str("Transport error: ");
                r.append(s.as_str());
                r
            },
            McpError::ProtocolError(s) => {
                let mut r = String::from_str("Protocol error: ");
                r.append(s.as_str());
                r
            },
            McpError::TimeoutError => String::from_str("Timeout error"),
            McpError::ConnectionClosed => String::from_str("Connection closed"),
        }
    }
}


/// Model of `ListToolsResult`.
pub struct ListToolsResultV {
    pub tools: Seq<ToolV>,
}

/// Model of `CallToolParams`.
pub struct CallToolParamsV {
    pub name: Seq<char>,
    pub arguments: Option<JsonV>,
}

/// Model of `CallToolResult`.
pub struct CallToolResultV {
    pub is_error: Option<bool>,
    pub content: Seq<ContentV>,
}

/// Model of `ListResourcesResult`.
pub struct ListResourcesResultV {
    pub resources: Seq<ResourceV>,
}

/// Model of `ReadResourceParams`.
pub struct ReadResourceParamsV {
    pub uri: Seq<char>,
}

/// Model of `ReadResourceResult`.
pub struct ReadResourceResultV {
    pub content: Seq<ContentV>,
}

/// Model of `ListPromptsResult`.
pub struct ListPromptsResultV {
    pub prompts: Seq<PromptV>,
}

/// Model of `GetPromptParams`.
pub struct GetPromptParamsV {
    pub id: Seq<char>,
    pub parameters: Option<JsonV>,
}

/// Model of `GetPromptResult`.
pub struct GetPromptResultV {
    pub content: Seq<ContentV>,
}

impl View for ResourcesClientCapabilities {
    type V = ResourcesClientCapabilities;

    open spec fn view(&self) -> ResourcesClientCapabilities {
        *self
    }
}

impl DeepView for ResourcesClientCapabilities {
    type V = ResourcesClientCapabilities;

    open spec fn deep_view(&self) -> ResourcesClientCapabilities {
        *self
    }
}

impl View for ToolsClientCapabilities {
    type V = ToolsClientCapabilities;

    open spec fn view(&self) -> ToolsClientCapabilities {
        *self
    }
}

impl DeepView for ToolsClientCapabilities {
    type V = ToolsClientCapabilities;

    open spec fn deep_view(&self) -> ToolsClientCapabilities {
        *self
    }
}

impl View for PromptsClientCapabilities {
    type V = PromptsClientCapabilities;

    open spec fn view(&self) -> PromptsClientCapabilities {
        *self
    }
}

impl DeepView for PromptsClientCapabilities {
    type V = PromptsClientCapabilities;

    open spec fn deep_view(&self) -> PromptsClientCapabilities {
        *self
    }
}

impl View for SamplingClientCapabilities {
    type V = SamplingClientCapabilities;

    open spec fn view(&self) -> SamplingClientCapabilities {
        *self
    }
}

impl DeepView for SamplingClientCapabilities {
    type V = SamplingClientCapabilities;

    open spec fn deep_view(&self) -> SamplingClientCapabilities {
        *self
    }
}

impl View for ClientCapabilities {
    type V = ClientCapabilities;

    open spec fn view(&self) -> ClientCapabilities {
        *self
    }
}

impl DeepView for ClientCapabilities {
    type V = ClientCapabilities;

    open spec fn deep_view(&self) -> ClientCapabilities {
        *self
    }
}

impl View for ResourcesServerCapabilities {
    type V = ResourcesServerCapabilities;

    open spec fn view(&self) -> ResourcesServerCapabilities {
        *self
    }
}

impl DeepView for ResourcesServerCapabilities {
    type V = ResourcesServerCapabilities;

    open spec fn deep_view(&self) -> ResourcesServerCapabilities {
        *self
    }
}

impl View for ToolsServerCapabilities {
    type V = ToolsServerCapabilities;

    open spec fn view(&self) -> ToolsServerCapabilities {
        *self
    }
}

impl DeepView for ToolsServerCapabilities {
    type V = ToolsServerCapabilities;

    open spec fn deep_view(&self) -> ToolsServerCapabilities {
        *self
    }
}

impl View for PromptsServerCapabilities {
    type V = PromptsServerCapabilities;

    open spec fn view(&self) -> PromptsServerCapabilities {
        *self
    }
}

impl DeepView for PromptsServerCapabilities {
    type V = PromptsServerCapabilities;

    open spec fn deep_view(&self) -> PromptsServerCapabilities {
        *self
    }
}

impl View for SamplingServerCapabilities {
    type V = SamplingServerCapabilities;

    open spec fn view(&self) -> SamplingServerCapabilities {
        *self
    }
}

impl DeepView for SamplingServerCapabilities {
    type V = SamplingServerCapabilities;

    open spec fn deep_view(&self) -> SamplingServerCapabilities {
        *self
    }
}

impl View for ServerCapabilities {
    type V = ServerCapabilities;

    open spec fn view(&self) -> ServerCapabilities {
        *self
    }
}

impl DeepView for ServerCapabilities {
    type V = ServerCapabilities;

    open spec fn deep_view(&self) -> ServerCapabilities {
        *self
    }
}

impl View for InitializeParams {
    type V = InitializeParamsV;

    open spec fn view(&self) -> InitializeParamsV {
        InitializeParamsV {
            protocol_version: self.protocol_version@,
            name: self.name@,
            version: self.version@,
            capabilities: self.capabilities,
        }
    }
}

impl DeepView for InitializeParams {
    type V = InitializeParamsV;

    open spec fn deep_view(&self) -> InitializeParamsV {
        self@
    }
}

impl View for InitializeResult {
    type V = InitializeResultV;

    open spec fn view(&self) -> InitializeResultV {
        InitializeResultV {
            protocol_version: self.protocol_version@,
            name: self.name@,
            version: self.version@,
            capabilities: self.capabilities,
        }
    }
}

impl DeepView for InitializeResult {
    type V = InitializeResultV;

    open spec fn deep_view(&self) -> InitializeResultV {
        self@
    }
}

impl View for Tool {
    type V = ToolV;

    open spec fn view(&self) -> ToolV {
        ToolV {
            name: self.name@,
            description: self.description.deep_view(),
            input_schema: self.input_schema@,
        }
    }
}

impl DeepView for Tool {
    type V = ToolV;

    open spec fn deep_view(&self) -> ToolV {
        self@
    }
}

impl View for ListToolsResult {
    type V = ListToolsResultV;

    open spec fn view(&self) -> ListToolsResultV {
        ListToolsResultV {
            tools: self.tools.deep_view(),
        }
    }
}

impl DeepView for ListToolsResult {
    type V = ListToolsResultV;

    open spec fn deep_view(&self) -> ListToolsResultV {
        self@
    }
}

impl View for CallToolParams {
    type V = CallToolParamsV;

    open spec fn view(&self) -> CallToolParamsV {
        CallToolParamsV {
            name: self.name@,
            arguments: self.arguments.deep_view(),
        }
    }
}

impl DeepView for CallToolParams {
    type V = CallToolParamsV;

    open spec fn deep_view(&self) -> CallToolParamsV {
        self@
    }
}

impl View for ResourceProperty {
    type V = ResourcePropertyV;

    open spec fn view(&self) -> ResourcePropertyV {
        ResourcePropertyV {
            key: self.key@,
            value: self.value@,
        }
    }
}

impl DeepView for ResourceProperty {
    type V = ResourcePropertyV;

    open spec fn deep_view(&self) -> ResourcePropertyV {
        self@
    }
}

impl View for CallToolResult {
    type V = CallToolResultV;

    open spec fn view(&self) -> CallToolResultV {
        CallToolResultV {
            is_error: self.is_error,
            content: self.content.deep_view(),
        }
    }
}

impl DeepView for CallToolResult {
    type V = CallToolResultV;

    open spec fn deep_view(&self) -> CallToolResultV {
        self@
    }
}

impl View for Resource {
    type V = ResourceV;

    open spec fn view(&self) -> ResourceV {
        ResourceV {
            uri: self.uri@,
            name: self.name@,
            description: self.description.deep_view(),
            mime_type: self.mime_type.deep_view(),
        }
    }
}

impl DeepView for Resource {
    type V = ResourceV;

    open spec fn deep_view(&self) -> ResourceV {
        self@
    }
}

impl View for ListResourcesResult {
    type V = ListResourcesResultV;

    open spec fn view(&self) -> ListResourcesResultV {
        ListResourcesResultV {
            resources: self.resources.deep_view(),
        }
    }
}

impl DeepView for ListResourcesResult {
    type V = ListResourcesResultV;

    open spec fn deep_view(&self) -> ListResourcesResultV {
        self@
    }
}

impl View for ReadResourceParams {
    type V = ReadResourceParamsV;

    open spec fn view(&self) -> ReadResourceParamsV {
        ReadResourceParamsV {
            uri: self.uri@,
        }
    }
}

impl DeepView for ReadResourceParams {
    type V = ReadResourceParamsV;

    open spec fn deep_view(&self) -> ReadResourceParamsV {
        self@
    }
}

impl View for ReadResourceResult {
    type V = ReadResourceResultV;

    open spec fn view(&self) -> ReadResourceResultV {
        ReadResourceResultV {
            content: self.content.deep_view(),
        }
    }
}

impl DeepView for ReadResourceResult {
    type V = ReadResourceResultV;

    open spec fn deep_view(&self) -> ReadResourceResultV {
        self@
    }
}

impl View for Prompt {
    type V = PromptV;

    open spec fn view(&self) -> PromptV {
        PromptV {
            id: self.id@,
            name: self.name@,
            description: self.description.deep_view(),
            parameter_schema: self.parameter_schema.deep_view(),
        }
    }
}

impl DeepView for Prompt {
    type V = PromptV;

    open spec fn deep_view(&self) -> PromptV {
        self@
    }
}

impl View for ListPromptsResult {
    type V = ListPromptsResultV;

    open spec fn view(&self) -> ListPromptsResultV {
        ListPromptsResultV {
            prompts: self.prompts.deep_view(),
        }
    }
}

impl DeepView for ListPromptsResult {
    type V = ListPromptsResultV;

    open spec fn deep_view(&self) -> ListPromptsResultV {
        self@
    }
}

impl View for GetPromptParams {
    type V = GetPromptParamsV;

    open spec fn view(&self) -> GetPromptParamsV {
        GetPromptParamsV {
            id: self.id@,
            parameters: self.parameters.deep_view(),
        }
    }
}

impl DeepView for GetPromptParams {
    type V = GetPromptParamsV;

    open spec fn deep_view(&self) -> GetPromptParamsV {
        self@
    }
}

impl View for GetPromptResult {
    type V = GetPromptResultV;

    open spec fn view(&self) -> GetPromptResultV {
        GetPromptResultV {
            content: self.content.deep_view(),
        }
    }
}

impl DeepView for GetPromptResult {
    type V = GetPromptResultV;

    open spec fn deep_view(&self) -> GetPromptResultV {
        self@
    }
}

impl View for Content {
    type V = ContentV;

    open spec fn view(&self) -> ContentV {
        match self {
            Content::Text { text } => ContentV::Text { text: text@ },
            Content::Image { mime_type, data } => ContentV::Image {
                mime_type: mime_type@,
                data: data@,
            },
            Content::EmbeddedResource { uri, properties } => ContentV::EmbeddedResource {
                uri: uri@,
                properties: properties.deep_view(),
            },
        }
    }
}

impl DeepView for Content {
    type V = ContentV;

    open spec fn deep_view(&self) -> ContentV {
        self@
    }
}


impl InitializeResult {
    /// A structurally equal copy of this handshake result.
    pub fn duplicate(&self) -> (r: InitializeResult)
        ensures
            r@ == self@,
    {
        InitializeResult {
            protocol_version: self.protocol_version.clone(),
            name: self.name.clone(),
            version: self.version.clone(),
            capabilities: self.capabilities,
        }
    }
}

} // verus!
