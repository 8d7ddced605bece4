//! The client session: request-id issuance, correlation of responses to
//! pending requests, the `initialize` handshake cache, and the graceful
//! close sequence.
//!
//! The session holds no I/O. The host drives it: it sends the messages the
//! session builds, feeds every inbound message to [`McpClient::handle_message`],
//! and reports timeouts and connection loss back to the session.

use vstd::prelude::*;
use crate::json::{Json, JsonV};
use crate::num::{dec_str, is_canon_dec, dec_val, u64_to_dec, parse_u64_dec};
use crate::rpc::{JsonRpcMessage, JsonRpcMessageV, JsonRpcRequest, JsonRpcRequestV, JsonRpcResponse};
use crate::strutil::{copy_str, str_chars};
use crate::types::{
    ClientCapabilities,
    ResourcesClientCapabilities,
    ToolsClientCapabilities,
    PromptsClientCapabilities,
    SamplingClientCapabilities,
    InitializeParams,
    InitializeResult,
    InitializeResultV,
    McpError,
};
use crate::protocol::{
    enc_initialize_params,
    encode_initialize_params,
    dec_initialize_result,
    decode_initialize_result,
    enc_call_tool_params,
    encode_call_tool_params,
    enc_read_resource_params,
    encode_read_resource_params,
    enc_get_prompt_params,
    encode_get_prompt_params,
};
use crate::rpc::{JsonRpcNotification, JsonRpcNotificationV, JsonRpcResponseV};

verus! {

/// Requests wait up to a minute for their response.
pub const REQUEST_TIMEOUT_MS: u64 = 60000;

/// The protocol version announced in the handshake.
pub fn protocol_version() -> (r: &'static str)
    ensures
        r@ == "0.1.0"@,
{
    "0.1.0"
}

/// What the reader loop should do with one inbound message.
#[derive(Debug)]
pub enum ReaderAction {
    /// A response matched the pending request with this id: complete it.
    Deliver { id: u64, response: JsonRpcResponse },
    /// A response carried an id that matches no pending request: drop it.
    DropUnknownId,
    /// A response id was neither a string nor a number: drop it.
    DropInvalidId,
    /// A server notification: the host dispatches by method name.
    Notify { method: String },
    /// A server-initiated request: out of scope, ignored.
    Ignore,
}

/// The wire correlation key of a response id: the string itself for string
/// ids, the lexeme for number ids, nothing for any other shape.
pub open spec fn id_key(j: JsonV) -> Option<Seq<char>> {
    match j {
        JsonV::Str(s) => Some(s),
        JsonV::Num(lex) => Some(lex),
        _ => None,
    }
}

/// The pending request id a response key refers to, if it is the canonical
/// decimal rendering of one.
pub open spec fn key_id(key: Seq<char>) -> Option<u64> {
    if is_canon_dec(key) && dec_val(key) <= u64::MAX {
        Some(dec_val(key) as u64)
    } else {
        None
    }
}

/// Remove the first occurrence of `x` from `s`.
pub open spec fn seq_remove(s: Seq<u64>, x: u64) -> Seq<u64>
    decreases s.len(),
{
    if s.len() == 0 {
        s
    } else if s[0] == x {
        s.drop_first()
    } else {
        seq![s[0]] + seq_remove(s.drop_first(), x)
    }
}

/// One MCP client session.
pub struct McpClient {
    client_name: String,
    client_version: String,
    next_id: u64,
    pending: Vec<u64>,
    server_info: Option<InitializeResult>,
}

impl McpClient {
    /// Session well-formedness: ids start at one, every pending id was
    /// issued (it is below `next_id`), and no id is pending twice.
    pub closed spec fn wf(&self) -> bool {
        &&& self.next_id >= 1
        &&& forall|i: int|
            0 <= i < self.pending@.len() ==> 1 <= #[trigger] self.pending@[i] < self.next_id
        &&& forall|i: int, k: int|
            0 <= i < k < self.pending@.len() ==> #[trigger] self.pending@[i] != #[trigger] self.pending@[k]
    }

    /// The ids of requests in flight.
    pub closed spec fn spec_pending(&self) -> Seq<u64> {
        self.pending@
    }

    /// The id the next request will carry.
    pub closed spec fn spec_next_id(&self) -> u64 {
        self.next_id
    }

    /// The cached handshake result.
    pub closed spec fn spec_server_info(&self) -> Option<InitializeResultV> {
        self.server_info.deep_view()
    }

    /// The client identity announced in the handshake.
    pub closed spec fn spec_identity(&self) -> (Seq<char>, Seq<char>) {
        (self.client_name@, self.client_version@)
    }

    /// No request id is ever pending twice: whatever the session has gone
    /// through, two distinct in-flight entries always carry distinct ids.
    pub proof fn lemma_pending_ids_unique(&self)
        requires
            self.wf(),
        ensures
            forall|i: int, k: int|
                0 <= i < k < self.spec_pending().len() ==> #[trigger] self.spec_pending()[i]
                    != #[trigger] self.spec_pending()[k],
    {
    }

    /// A fresh session: ids start at one, nothing pending, no handshake yet.
    pub fn new(client_name: &str, client_version: &str) -> (r: McpClient)
        ensures
            r.wf(),
            r.spec_next_id() == 1,
            r.spec_pending() == Seq::<u64>::empty(),
            r.spec_server_info() is None,
            r.spec_identity() == (client_name@, client_version@),
    {
        McpClient {
            client_name: copy_str(client_name),
            client_version: copy_str(client_version),
            next_id: 1,
            pending: Vec::new(),
            server_info: None,
        }
    }

    /// Issue the next request id and register it as pending, and build the
    /// request message: ids are consecutive decimal integers starting at 1,
    /// rendered canonically, and an id is never reused within a session.
    pub fn begin_request(&mut self, method: &str, params: Option<Json>) -> (r: (u64, JsonRpcMessage))
        requires
            old(self).wf(),
            old(self).spec_next_id() < u64::MAX,
        ensures
            final(self).wf(),
            r.0 == old(self).spec_next_id(),
            !old(self).spec_pending().contains(r.0),
            final(self).spec_next_id() == old(self).spec_next_id() + 1,
            final(self).spec_pending() == old(self).spec_pending().push(r.0),
            final(self).spec_server_info() == old(self).spec_server_info(),
            final(self).spec_identity() == old(self).spec_identity(),
            r.1@ == JsonRpcMessageV::Request(
                JsonRpcRequestV {
                    jsonrpc: "2.0"@,
                    id: JsonV::Str(dec_str(r.0 as nat)),
                    method: method@,
                    params: params.deep_view(),
                },
            ),
    {
        let id = self.next_id;
        self.next_id = self.next_id + 1;
        self.pending.push(id);
        let message = JsonRpcMessage::Request(
            JsonRpcRequest {
                jsonrpc: copy_str("2.0"),
                id: Json::Str(u64_to_dec(id)),
                method: copy_str(method),
                params,
            },
        );
        proof {
            assert(!old(self).spec_pending().contains(id)) by {
                if old(self).spec_pending().contains(id) {
                    let i = choose|i: int|
                        0 <= i < old(self).spec_pending().len() && old(self).spec_pending()[i]
                            == id;
                    assert(1 <= old(self).spec_pending()[i] < old(self).next_id);
                }
            }
        }
        (id, message)
    }

    /// Forget a pending request whose deadline passed: its id leaves
    /// `pending`, every other id stays.
    pub fn note_timeout(&mut self, id: u64)
        requires
            old(self).wf(),
        ensures
            final(self).wf(),
            final(self).spec_pending() == seq_remove(old(self).spec_pending(), id),
            !final(self).spec_pending().contains(id),
            forall|x: u64| x != id ==> (final(self).spec_pending().contains(x) <==> old(
                self,
            ).spec_pending().contains(x)),
            final(self).spec_next_id() == old(self).spec_next_id(),
            final(self).spec_server_info() == old(self).spec_server_info(),
            final(self).spec_identity() == old(self).spec_identity(),
    {
        self.remove_pending(id);
    }

    /// Remove the first occurrence of `id` from the pending list.
    #[verifier::loop_isolation(false)]
    fn remove_pending(&mut self, id: u64)
        requires
            old(self).wf(),
        ensures
            final(self).wf(),
            final(self).spec_pending() == seq_remove(old(self).spec_pending(), id),
            !final(self).spec_pending().contains(id),
            forall|x: u64| x != id ==> (final(self).spec_pending().contains(x) <==> old(
                self,
            ).spec_pending().contains(x)),
            final(self).spec_next_id() == old(self).spec_next_id(),
            final(self).spec_server_info() == old(self).spec_server_info(),
            final(self).spec_identity() == old(self).spec_identity(),
            old(self).spec_pending().contains(id) ==> final(self).spec_pending().len() == old(
                self,
            ).spec_pending().len() - 1,
            !old(self).spec_pending().contains(id) ==> final(self).spec_pending() == old(
                self,
            ).spec_pending(),
    {
        let ghost orig = self.pending@;
        let mut i: usize = 0;
        while i < self.pending.len()
            invariant
                0 <= i <= self.pending@.len(),
                *self == *old(self),
                forall|k: int| 0 <= k < i ==> orig[k] != id,
            decreases self.pending@.len() - i,
        {
            if self.pending[i] == id {
                self.pending.remove(i);
                proof {
                    lemma_seq_remove_at(orig, id, i as int);
                    assert(self.pending@ =~= orig.subrange(0, i as int) + orig.subrange(
                        i as int + 1,
                        orig.len() as int,
                    ));
                    lemma_seq_remove_props(orig, id);
                    assert forall|a: int, b: int|
                        0 <= a < b < self.pending@.len() implies #[trigger] self.pending@[a]
                        != #[trigger] self.pending@[b] by {
                        let fa: int = if a < i { a } else { a + 1 };
                        let fb: int = if b < i { b } else { b + 1 };
                        assert(self.pending@[a] == orig[fa]);
                        assert(self.pending@[b] == orig[fb]);
                        assert(orig[fa] != orig[fb]);
                    }
                    assert forall|a: int| 0 <= a < self.pending@.len() implies 1
                        <= #[trigger] self.pending@[a] < self.next_id by {
                        let fa: int = if a < i { a } else { a + 1 };
                        assert(self.pending@[a] == orig[fa]);
                    }
                    assert(!self.pending@.contains(id)) by {
                        if self.pending@.contains(id) {
                            let k = choose|k: int|
                                0 <= k < self.pending@.len() && self.pending@[k] == id;
                            if k < i {
                                assert(orig[k] != id);
                                assert(self.pending@[k] == orig[k]);
                            } else {
                                assert(self.pending@[k] == orig[k + 1]);
                                assert(orig[i as int] == id);
                                assert(orig[k + 1] != orig[i as int]);
                            }
                        }
                    }
                    assert(orig.contains(id)) by {
                        assert(orig[i as int] == id);
                    }
                }
                return ;
            }
            i = i + 1;
        }
        proof {
            assert(!orig.contains(id)) by {
                if orig.contains(id) {
                    let k = choose|k: int| 0 <= k < orig.len() && orig[k] == id;
                    assert(orig[k] != id);
                }
            }
            lemma_seq_remove_absent_whole(orig, id);
        }
    }

    /// Classify one inbound message and update the pending set accordingly:
    /// a response is delivered to exactly the pending request whose id it
    /// carries; a response with an unknown or malformed id changes nothing;
    /// notifications and server-initiated requests change nothing.
    pub fn handle_message(&mut self, message: JsonRpcMessage) -> (r: ReaderAction)
        requires
            old(self).wf(),
        ensures
            final(self).wf(),
            final(self).spec_next_id() == old(self).spec_next_id(),
            final(self).spec_server_info() == old(self).spec_server_info(),
            final(self).spec_identity() == old(self).spec_identity(),
            match message@ {
                JsonRpcMessageV::Response(p) => match id_key(p.id) {
                    Some(key) => match key_id(key) {
                        Some(id) => if old(self).spec_pending().contains(id) {
                            &&& final(self).spec_pending() == seq_remove(
                                old(self).spec_pending(),
                                id,
                            )
                            &&& !final(self).spec_pending().contains(id)
                            &&& (forall|x: u64|
                                x != id ==> (final(self).spec_pending().contains(x) <==> old(
                                    self,
                                ).spec_pending().contains(x)))
                            &&& r matches ReaderAction::Deliver { id: rid, response } && rid == id
                                && response@ == p
                        } else {
                            &&& final(self).spec_pending() == old(self).spec_pending()
                            &&& r is DropUnknownId
                        },
                        None => {
                            &&& final(self).spec_pending() == old(self).spec_pending()
                            &&& r is DropUnknownId
                        },
                    },
                    None => {
                        &&& final(self).spec_pending() == old(self).spec_pending()
                        &&& r is DropInvalidId
                    },
                },
                JsonRpcMessageV::Notification(n) => {
                    &&& final(self).spec_pending() == old(self).spec_pending()
                    &&& r matches ReaderAction::Notify { method } && method@ == n.method
                },
                JsonRpcMessageV::Request(_) => {
                    &&& final(self).spec_pending() == old(self).spec_pending()
                    &&& r is Ignore
                },
            },
    {
        match message {
            JsonRpcMessage::Response(response) => {
                let key: Option<&String> = match &response.id {
                    Json::Str(s) => Some(s),
                    Json::Num(lex) => Some(lex),
                    _ => None,
                };
                match key {
                    Some(k) => {
                        let chars = str_chars(k.as_str());
                        match parse_u64_dec(&chars) {
                            Some(id) => {
                                if self.contains_pending(id) {
                                    self.remove_pending(id);
                                    ReaderAction::Deliver { id, response }
                                } else {
                                    ReaderAction::DropUnknownId
                                }
                            },
                            None => ReaderAction::DropUnknownId,
                        }
                    },
                    None => ReaderAction::DropInvalidId,
                }
            },
            JsonRpcMessage::Notification(n) => ReaderAction::Notify { method: n.method },
            JsonRpcMessage::Request(_) => ReaderAction::Ignore,
        }
    }

    /// The id the next request will carry.
    pub fn next_id_value(&self) -> (r: u64)
        ensures
            r == self.spec_next_id(),
    {
        self.next_id
    }

    /// Whether a request with this id is in flight.
    pub fn contains_pending(&self, id: u64) -> (r: bool)
        ensures
            r == self.spec_pending().contains(id),
    {
        let mut i: usize = 0;
        while i < self.pending.len()
            invariant
                0 <= i <= self.pending@.len(),
                forall|k: int| 0 <= k < i ==> self.pending@[k] != id,
            decreases self.pending@.len() - i,
        {
            if self.pending[i] == id {
                return true;
            }
            i = i + 1;
        }
        proof {
            if self.spec_pending().contains(id) {
                let k = choose|k: int|
                    0 <= k < self.pending@.len() && self.pending@[k] == id;
                assert(self.pending@[k] != id);
            }
        }
        false
    }

    /// The connection closed: every pending request fails now. Returns the
    /// drained ids so the host can complete each waiting caller with a
    /// connection-closed error.
    pub fn on_connection_closed(&mut self) -> (drained: Vec<u64>)
        requires
            old(self).wf(),
        ensures
            final(self).wf(),
            final(self).spec_pending() == Seq::<u64>::empty(),
            drained@ == old(self).spec_pending(),
            final(self).spec_next_id() == old(self).spec_next_id(),
            final(self).spec_server_info() == old(self).spec_server_info(),
            final(self).spec_identity() == old(self).spec_identity(),
    {
        let mut drained: Vec<u64> = Vec::new();
        core::mem::swap(&mut drained, &mut self.pending);
        proof {
            assert(self.pending@ =~= Seq::<u64>::empty());
        }
        drained
    }

    /// The cached handshake result, if `initialize` has completed.
    pub fn server_info(&self) -> (r: Option<InitializeResult>)
        ensures
            r.deep_view() == self.spec_server_info(),
    {
        match &self.server_info {
            Some(info) => Some(info.duplicate()),
            None => None,
        }
    }

    /// Build the `initialize` request, or nothing when the handshake already
    /// completed: a second `initialize` puts no message on the wire.
    pub fn initialize_request(&mut self) -> (r: Option<(u64, JsonRpcMessage)>)
        requires
            old(self).wf(),
            old(self).spec_next_id() < u64::MAX,
        ensures
            final(self).wf(),
            final(self).spec_server_info() == old(self).spec_server_info(),
            final(self).spec_identity() == old(self).spec_identity(),
            old(self).spec_server_info() is Some ==> r is None && *final(self) == *old(self),
            old(self).spec_server_info() is None ==> (r matches Some((id, m)) && {
                &&& id == old(self).spec_next_id()
                &&& final(self).spec_next_id() == old(self).spec_next_id() + 1
                &&& final(self).spec_pending() == old(self).spec_pending().push(id)
                &&& m@ == JsonRpcMessageV::Request(
                    JsonRpcRequestV {
                        jsonrpc: "2.0"@,
                        id: JsonV::Str(dec_str(id as nat)),
                        method: "initialize"@,
                        params: Some(
                            enc_initialize_params(
                                crate::types::InitializeParamsV {
                                    protocol_version: "0.1.0"@,
                                    name: old(self).spec_identity().0,
                                    version: old(self).spec_identity().1,
                                    capabilities: full_client_capabilities(),
                                },
                            ),
                        ),
                    },
                )
            }),
    {
        if self.server_info.is_some() {
            return None;
        }
        let params = InitializeParams {
            protocol_version: copy_str(protocol_version()),
            name: self.client_name.clone(),
            version: self.client_version.clone(),
            capabilities: ClientCapabilities {
                resources: Some(ResourcesClientCapabilities {  }),
                tools: Some(ToolsClientCapabilities {  }),
                prompts: Some(PromptsClientCapabilities {  }),
                sampling: Some(SamplingClientCapabilities {  }),
            },
        };
        let params_json = encode_initialize_params(&params);
        let (id, message) = self.begin_request("initialize", Some(params_json));
        Some((id, message))
    }

    /// Record the handshake result carried by the `initialize` response:
    /// `server_info` goes from unset to set exactly here, never again.
    pub fn complete_initialize(&mut self, result: &Json) -> (r: Result<InitializeResult, McpError>)
        requires
            old(self).wf(),
            old(self).spec_server_info() is None,
        ensures
            final(self).wf(),
            final(self).spec_pending() == old(self).spec_pending(),
            final(self).spec_next_id() == old(self).spec_next_id(),
            final(self).spec_identity() == old(self).spec_identity(),
            match r {
                Ok(info) => {
                    &&& dec_initialize_result(result@) == Some(info@)
                    &&& final(self).spec_server_info() == Some(info@)
                },
                Err(e) => {
                    &&& dec_initialize_result(result@) is None
                    &&& e@ matches crate::types::McpErrorV::ParseError(_)
                    &&& final(self).spec_server_info() is None
                },
            },
    {
        match decode_initialize_result(result) {
            Some(info) => {
                let copy = info.duplicate();
                self.server_info = Some(info);
                Ok(copy)
            },
            None => Err(
                McpError::ParseError(copy_str("malformed initialize result")),
            ),
        }
    }
}


impl McpClient {
    /// Build the `tools/list` request.
    pub fn list_tools_request(&mut self) -> (r: (u64, JsonRpcMessage))
        requires
            old(self).wf(),
            old(self).spec_next_id() < u64::MAX,
        ensures
            final(self).wf(),
            r.0 == old(self).spec_next_id(),
            final(self).spec_next_id() == old(self).spec_next_id() + 1,
            final(self).spec_pending() == old(self).spec_pending().push(r.0),
            final(self).spec_server_info() == old(self).spec_server_info(),
            final(self).spec_identity() == old(self).spec_identity(),
            r.1@ == JsonRpcMessageV::Request(
                JsonRpcRequestV {
                    jsonrpc: "2.0"@,
                    id: JsonV::Str(dec_str(r.0 as nat)),
                    method: "tools/list"@,
                    params: None,
                },
            ),
    {
        self.begin_request("tools/list", None)
    }

    /// Build the `tools/call` request for one tool invocation.
    pub fn call_tool_request(&mut self, name: &str, arguments: Option<Json>) -> (r: (
        u64,
        JsonRpcMessage,
    ))
        requires
            old(self).wf(),
            old(self).spec_next_id() < u64::MAX,
        ensures
            final(self).wf(),
            r.0 == old(self).spec_next_id(),
            final(self).spec_next_id() == old(self).spec_next_id() + 1,
            final(self).spec_pending() == old(self).spec_pending().push(r.0),
            final(self).spec_server_info() == old(self).spec_server_info(),
            final(self).spec_identity() == old(self).spec_identity(),
            r.1@ == JsonRpcMessageV::Request(
                JsonRpcRequestV {
                    jsonrpc: "2.0"@,
                    id: JsonV::Str(dec_str(r.0 as nat)),
                    method: "tools/call"@,
                    params: Some(
                        enc_call_tool_params(
                            crate::types::CallToolParamsV {
                                name: name@,
                                arguments: arguments.deep_view(),
                            },
                        ),
                    ),
                },
            ),
    {
        let params = encode_call_tool_params(
            crate::types::CallToolParams { name: copy_str(name), arguments },
        );
        self.begin_request("tools/call", Some(params))
    }

    /// Build the `resources/list` request.
    pub fn list_resources_request(&mut self) -> (r: (u64, JsonRpcMessage))
        requires
            old(self).wf(),
            old(self).spec_next_id() < u64::MAX,
        ensures
            final(self).wf(),
            r.0 == old(self).spec_next_id(),
            final(self).spec_next_id() == old(self).spec_next_id() + 1,
            final(self).spec_pending() == old(self).spec_pending().push(r.0),
            final(self).spec_server_info() == old(self).spec_server_info(),
            final(self).spec_identity() == old(self).spec_identity(),
            r.1@ == JsonRpcMessageV::Request(
                JsonRpcRequestV {
                    jsonrpc: "2.0"@,
                    id: JsonV::Str(dec_str(r.0 as nat)),
                    method: "resources/list"@,
                    params: None,
                },
            ),
    {
        self.begin_request("resources/list", None)
    }

    /// Build the `resources/read` request for one URI.
    pub fn read_resource_request(&mut self, uri: &str) -> (r: (u64, JsonRpcMessage))
        requires
            old(self).wf(),
            old(self).spec_next_id() < u64::MAX,
        ensures
            final(self).wf(),
            r.0 == old(self).spec_next_id(),
            final(self).spec_next_id() == old(self).spec_next_id() + 1,
            final(self).spec_pending() == old(self).spec_pending().push(r.0),
            final(self).spec_server_info() == old(self).spec_server_info(),
            final(self).spec_identity() == old(self).spec_identity(),
            r.1@ == JsonRpcMessageV::Request(
                JsonRpcRequestV {
                    jsonrpc: "2.0"@,
                    id: JsonV::Str(dec_str(r.0 as nat)),
                    method: "resources/read"@,
                    params: Some(
                        enc_read_resource_params(crate::types::ReadResourceParamsV { uri: uri@ }),
                    ),
                },
            ),
    {
        let params = encode_read_resource_params(
            crate::types::ReadResourceParams { uri: copy_str(uri) },
        );
        self.begin_request("resources/read", Some(params))
    }

    /// Build the `prompts/list` request.
    pub fn list_prompts_request(&mut self) -> (r: (u64, JsonRpcMessage))
        requires
            old(self).wf(),
            old(self).spec_next_id() < u64::MAX,
        ensures
            final(self).wf(),
            r.0 == old(self).spec_next_id(),
            final(self).spec_next_id() == old(self).spec_next_id() + 1,
            final(self).spec_pending() == old(self).spec_pending().push(r.0),
            final(self).spec_server_info() == old(self).spec_server_info(),
            final(self).spec_identity() == old(self).spec_identity(),
            r.1@ == JsonRpcMessageV::Request(
                JsonRpcRequestV {
                    jsonrpc: "2.0"@,
                    id: JsonV::Str(dec_str(r.0 as nat)),
                    method: "prompts/list"@,
                    params: None,
                },
            ),
    {
        self.begin_request("prompts/list", None)
    }

    /// Build the `prompts/get` request for one prompt.
    pub fn get_prompt_request(&mut self, id: &str, parameters: Option<Json>) -> (r: (
        u64,
        JsonRpcMessage,
    ))
        requires
            old(self).wf(),
            old(self).spec_next_id() < u64::MAX,
        ensures
            final(self).wf(),
            r.0 == old(self).spec_next_id(),
            final(self).spec_next_id() == old(self).spec_next_id() + 1,
            final(self).spec_pending() == old(self).spec_pending().push(r.0),
            final(self).spec_server_info() == old(self).spec_server_info(),
            final(self).spec_identity() == old(self).spec_identity(),
            r.1@ == JsonRpcMessageV::Request(
                JsonRpcRequestV {
                    jsonrpc: "2.0"@,
                    id: JsonV::Str(dec_str(r.0 as nat)),
                    method: "prompts/get"@,
                    params: Some(
                        enc_get_prompt_params(
                            crate::types::GetPromptParamsV {
                                id: id@,
                                parameters: parameters.deep_view(),
                            },
                        ),
                    ),
                },
            ),
    {
        let params = encode_get_prompt_params(
            crate::types::GetPromptParams { id: copy_str(id), parameters },
        );
        self.begin_request("prompts/get", Some(params))
    }

    /// Build the `shutdown` request, the first step of the graceful close.
    pub fn shutdown_request(&mut self) -> (r: (u64, JsonRpcMessage))
        requires
            old(self).wf(),
            old(self).spec_next_id() < u64::MAX,
        ensures
            final(self).wf(),
            r.0 == old(self).spec_next_id(),
            final(self).spec_next_id() == old(self).spec_next_id() + 1,
            final(self).spec_pending() == old(self).spec_pending().push(r.0),
            final(self).spec_server_info() == old(self).spec_server_info(),
            final(self).spec_identity() == old(self).spec_identity(),
            r.1@ == JsonRpcMessageV::Request(
                JsonRpcRequestV {
                    jsonrpc: "2.0"@,
                    id: JsonV::Str(dec_str(r.0 as nat)),
                    method: "shutdown"@,
                    params: None,
                },
            ),
    {
        self.begin_request("shutdown", None)
    }
}

/// Build a one-way notification with this method name.
pub fn make_notification(method: &str) -> (r: JsonRpcMessage)
    ensures
        r@ == JsonRpcMessageV::Notification(
            JsonRpcNotificationV { jsonrpc: "2.0"@, method: method@, params: None },
        ),
{
    JsonRpcMessage::Notification(
        JsonRpcNotification { jsonrpc: copy_str("2.0"), method: copy_str(method), params: None },
    )
}

/// The `initialized` notification emitted after a successful handshake.
pub fn initialized_notification() -> (r: JsonRpcMessage)
    ensures
        r@ == JsonRpcMessageV::Notification(
            JsonRpcNotificationV { jsonrpc: "2.0"@, method: "initialized"@, params: None },
        ),
{
    make_notification("initialized")
}

/// The `exit` notification, the last message of the graceful close.
pub fn exit_notification() -> (r: JsonRpcMessage)
    ensures
        r@ == JsonRpcMessageV::Notification(
            JsonRpcNotificationV { jsonrpc: "2.0"@, method: "exit"@, params: None },
        ),
{
    make_notification("exit")
}

/// Extract the payload a delivered response resolves its request with: the
/// error object takes precedence, then the result; a response with neither
/// is a protocol violation.
pub fn response_payload(response: JsonRpcResponse) -> (r: Result<Json, McpError>)
    ensures
        match response@.error {
            Some(e) => r matches Err(err) && err@ == crate::types::McpErrorV::ProtocolError(
                "Error "@ + crate::num::int_str(e.code) + ": "@ + e.message,
            ),
            None => match response@.result {
                Some(v) => r matches Ok(out) && out@ == v,
                None => r matches Err(err) && err@ == crate::types::McpErrorV::ProtocolError(
                    "Response missing result"@,
                ),
            },
        },
{
    match response.error {
        Some(e) => {
            let mut msg = copy_str("Error ");
            let code_str = crate::num::i64_to_lexeme(e.code);
            msg.append(code_str.as_str());
            msg.append(": ");
            msg.append(e.message.as_str());
            proof {
                reveal_strlit("Error ");
                reveal_strlit(": ");
                assert(msg@ =~= "Error "@ + crate::num::int_str(e.code as int) + ": "@
                    + e.message@);
            }
            Err(McpError::ProtocolError(msg))
        },
        None => match response.result {
            Some(v) => Ok(v),
            None => Err(McpError::ProtocolError(copy_str("Response missing result"))),
        },
    }
}

/// Parse the typed result of `tools/list` from a response payload.
pub fn parse_list_tools(payload: &Json) -> (r: Result<
    crate::types::ListToolsResult,
    McpError,
>)
    ensures
        match r {
            Ok(lt) => crate::protocol::dec_list_tools(payload@) == Some(lt.tools.deep_view()),
            Err(e) => crate::protocol::dec_list_tools(payload@) is None && e@ matches
                crate::types::McpErrorV::ParseError(_),
        },
{
    match crate::protocol::decode_list_tools(payload) {
        Some(lt) => Ok(lt),
        None => Err(McpError::ParseError(copy_str("malformed tools/list result"))),
    }
}

/// Parse the typed result of `tools/call` from a response payload.
pub fn parse_call_tool_result(payload: &Json) -> (r: Result<
    crate::types::CallToolResult,
    McpError,
>)
    ensures
        match r {
            Ok(res) => crate::protocol::dec_call_tool_result(payload@) == Some(res@),
            Err(e) => crate::protocol::dec_call_tool_result(payload@) is None && e@ matches
                crate::types::McpErrorV::ParseError(_),
        },
{
    match crate::protocol::decode_call_tool_result(payload) {
        Some(res) => Ok(res),
        None => Err(McpError::ParseError(copy_str("malformed tools/call result"))),
    }
}

/// Parse the typed result of `resources/list` from a response payload.
pub fn parse_list_resources(payload: &Json) -> (r: Result<
    crate::types::ListResourcesResult,
    McpError,
>)
    ensures
        match r {
            Ok(lr) => crate::protocol::dec_list_resources(payload@) == Some(
                lr.resources.deep_view(),
            ),
            Err(e) => crate::protocol::dec_list_resources(payload@) is None && e@ matches
                crate::types::McpErrorV::ParseError(_),
        },
{
    match crate::protocol::decode_list_resources(payload) {
        Some(lr) => Ok(lr),
        None => Err(McpError::ParseError(copy_str("malformed resources/list result"))),
    }
}

/// Parse the typed result of `resources/read` from a response payload.
pub fn parse_read_resource_result(payload: &Json) -> (r: Result<
    crate::types::ReadResourceResult,
    McpError,
>)
    ensures
        match r {
            Ok(res) => crate::protocol::dec_content_result(payload@) == Some(
                res.content.deep_view(),
            ),
            Err(e) => crate::protocol::dec_content_result(payload@) is None && e@ matches
                crate::types::McpErrorV::ParseError(_),
        },
{
    match crate::protocol::decode_content_result(payload) {
        Some(content) => Ok(crate::types::ReadResourceResult { content }),
        None => Err(McpError::ParseError(copy_str("malformed resources/read result"))),
    }
}

/// Parse the typed result of `prompts/list` from a response payload.
pub fn parse_list_prompts(payload: &Json) -> (r: Result<
    crate::types::ListPromptsResult,
    McpError,
>)
    ensures
        match r {
            Ok(lp) => crate::protocol::dec_list_prompts(payload@) == Some(lp.prompts.deep_view()),
            Err(e) => crate::protocol::dec_list_prompts(payload@) is None && e@ matches
                crate::types::McpErrorV::ParseError(_),
        },
{
    match crate::protocol::decode_list_prompts(payload) {
        Some(lp) => Ok(lp),
        None => Err(McpError::ParseError(copy_str("malformed prompts/list result"))),
    }
}

/// Parse the typed result of `prompts/get` from a response payload.
pub fn parse_get_prompt_result(payload: &Json) -> (r: Result<
    crate::types::GetPromptResult,
    McpError,
>)
    ensures
        match r {
            Ok(res) => crate::protocol::dec_content_result(payload@) == Some(
                res.content.deep_view(),
            ),
            Err(e) => crate::protocol::dec_content_result(payload@) is None && e@ matches
                crate::types::McpErrorV::ParseError(_),
        },
{
    match crate::protocol::decode_content_result(payload) {
        Some(content) => Ok(crate::types::GetPromptResult { content }),
        None => Err(McpError::ParseError(copy_str("malformed prompts/get result"))),
    }
}

/// All four capability facets, each advertised as an empty extension point.
pub open spec fn full_client_capabilities() -> ClientCapabilities {
    ClientCapabilities {
        resources: Some(ResourcesClientCapabilities {  }),
        tools: Some(ToolsClientCapabilities {  }),
        prompts: Some(PromptsClientCapabilities {  }),
        sampling: Some(SamplingClientCapabilities {  }),
    }
}

/// Removing an element present at index `i` (and nowhere earlier) keeps
/// everything around it.
proof fn lemma_seq_remove_at(s: Seq<u64>, x: u64, i: int)
    requires
        0 <= i < s.len(),
        s[i] == x,
        forall|k: int| 0 <= k < i ==> s[k] != x,
    ensures
        seq_remove(s, x) == s.subrange(0, i) + s.subrange(i + 1, s.len() as int),
    decreases i,
{
    if i == 0 {
        assert(seq_remove(s, x) == s.drop_first());
        assert(s.drop_first() =~= s.subrange(0, 0) + s.subrange(1, s.len() as int));
    } else {
        lemma_seq_remove_at(s.drop_first(), x, i - 1);
        assert(s.drop_first().subrange(0, i - 1) =~= s.subrange(1, i));
        assert(s.drop_first().subrange(i, s.drop_first().len() as int) =~= s.subrange(
            i + 1,
            s.len() as int,
        ));
        assert(seq![s[0]] + (s.subrange(1, i) + s.subrange(i + 1, s.len() as int)) =~= s.subrange(
            0,
            i,
        ) + s.subrange(i + 1, s.len() as int));
    }
}

/// Removing an absent element changes nothing.
proof fn lemma_seq_remove_absent_whole(s: Seq<u64>, x: u64)
    requires
        !s.contains(x),
    ensures
        seq_remove(s, x) == s,
    decreases s.len(),
{
    if s.len() > 0 {
        assert(s[0] != x);
        assert(!s.drop_first().contains(x)) by {
            if s.drop_first().contains(x) {
                let k = choose|k: int| 0 <= k < s.drop_first().len() && s.drop_first()[k] == x;
                assert(s[k + 1] == x);
            }
        }
        lemma_seq_remove_absent_whole(s.drop_first(), x);
        assert(seq![s[0]] + s.drop_first() =~= s);
    }
}

/// Membership after removal: the removed element may only lose one
/// occurrence; others are untouched.
proof fn lemma_seq_remove_props(s: Seq<u64>, x: u64)
    ensures
        forall|y: u64| y != x ==> (seq_remove(s, x).contains(y) <==> s.contains(y)),
    decreases s.len(),
{
    if s.len() > 0 {
        lemma_seq_remove_props(s.drop_first(), x);
        assert forall|y: u64| y != x implies (seq_remove(s, x).contains(y) <==> s.contains(
            y,
        )) by {
            if s[0] == x {
                assert(seq_remove(s, x) == s.drop_first());
                if s.contains(y) {
                    let k = choose|k: int| 0 <= k < s.len() && s[k] == y;
                    assert(s.drop_first()[k - 1] == y);
                }
                if s.drop_first().contains(y) {
                    let k = choose|k: int|
                        0 <= k < s.drop_first().len() && s.drop_first()[k] == y;
                    assert(s[k + 1] == y);
                }
            } else {
                let t = seq![s[0]] + seq_remove(s.drop_first(), x);
                assert(seq_remove(s, x) == t);
                if s.contains(y) {
                    let k = choose|k: int| 0 <= k < s.len() && s[k] == y;
                    if k == 0 {
                        assert(t[0] == y);
                    } else {
                        assert(s.drop_first()[k - 1] == y);
                        assert(s.drop_first().contains(y));
                        assert(seq_remove(s.drop_first(), x).contains(y));
                        let j = choose|j: int|
                            0 <= j < seq_remove(s.drop_first(), x).len() && seq_remove(
                                s.drop_first(),
                                x,
                            )[j] == y;
                        assert(t[j + 1] == y);
                        assert(t.contains(y));
                    }
                }
                if t.contains(y) {
                    let k = choose|k: int| 0 <= k < t.len() && t[k] == y;
                    if k == 0 {
                        assert(s[0] == y);
                        assert(s.contains(y));
                    } else {
                        assert(seq_remove(s.drop_first(), x)[k - 1] == y);
                        assert(seq_remove(s.drop_first(), x).contains(y));
                        assert(s.drop_first().contains(y));
                        let j = choose|j: int|
                            0 <= j < s.drop_first().len() && s.drop_first()[j] == y;
                        assert(s[j + 1] == y);
                        assert(s.contains(y));
                    }
                }
            }
        }
    }
}

} // verus!
