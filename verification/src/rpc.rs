//! The JSON-RPC 2.0 envelope: requests, responses and notifications, their
//! encoding into JSON values, and the total decode that classifies every
//! well-formed envelope into exactly one variant.

use vstd::prelude::*;
use vstd::string::StringExecFns;
use crate::json::{
    Json,
    JsonV,
    JsonField,
    view_obj,
    lemma_view_obj,
    spec_lookup,
    lemma_lookup_at,
    lemma_lookup_none,
};
use crate::num::{int_str, lex_i64, i64_to_lexeme, parse_i64_lexeme, lemma_int_str_round_trip};
use crate::jtext::{
    ser_json,
    wf_json,
    wf_obj,
    to_text,
    parse_text,
    lemma_int_lexeme,
};
use crate::strutil::{copy_str, str_chars};

verus! {

/// An error object carried in a response.
#[derive(Debug)]
pub struct JsonRpcError {
    pub code: i64,
    pub message: String,
    pub data: Option<Json>,
}

/// Model of `JsonRpcError`.
pub struct JsonRpcErrorV {
    pub code: int,
    pub message: Seq<char>,
    pub data: Option<JsonV>,
}

/// A request: it has an id and expects a response.
#[derive(Debug)]
pub struct JsonRpcRequest {
    pub jsonrpc: String,
    pub id: Json,
    pub method: String,
    pub params: Option<Json>,
}

/// Model of `JsonRpcRequest`.
pub struct JsonRpcRequestV {
    pub jsonrpc: Seq<char>,
    pub id: JsonV,
    pub method: Seq<char>,
    pub params: Option<JsonV>,
}

/// A response: it matches a request by id and carries a result or an error.
#[derive(Debug)]
pub struct JsonRpcResponse {
    pub jsonrpc: String,
    pub id: Json,
    pub result: Option<Json>,
    pub error: Option<JsonRpcError>,
}

/// Model of `JsonRpcResponse`.
pub struct JsonRpcResponseV {
    pub jsonrpc: Seq<char>,
    pub id: JsonV,
    pub result: Option<JsonV>,
    pub error: Option<JsonRpcErrorV>,
}

/// A notification: one-way, it has no id.
#[derive(Debug)]
pub struct JsonRpcNotification {
    pub jsonrpc: String,
    pub method: String,
    pub params: Option<Json>,
}

/// Model of `JsonRpcNotification`.
pub struct JsonRpcNotificationV {
    pub jsonrpc: Seq<char>,
    pub method: Seq<char>,
    pub params: Option<JsonV>,
}

/// A JSON-RPC message, one of the three envelope variants.
#[derive(Debug)]
pub enum JsonRpcMessage {
    Request(JsonRpcRequest),
    Response(JsonRpcResponse),
    Notification(JsonRpcNotification),
}

/// Model of `JsonRpcMessage`.
pub enum JsonRpcMessageV {
    Request(JsonRpcRequestV),
    Response(JsonRpcResponseV),
    Notification(JsonRpcNotificationV),
}

impl View for JsonRpcError {
    type V = JsonRpcErrorV;

    open spec fn view(&self) -> JsonRpcErrorV {
        JsonRpcErrorV { code: self.code as int, message: self.message@, data: self.data.deep_view() }
    }
}

impl DeepView for JsonRpcError {
    type V = JsonRpcErrorV;

    open spec fn deep_view(&self) -> JsonRpcErrorV {
        self@
    }
}

impl View for JsonRpcRequest {
    type V = JsonRpcRequestV;

    open spec fn view(&self) -> JsonRpcRequestV {
        JsonRpcRequestV {
            jsonrpc: self.jsonrpc@,
            id: self.id@,
            method: self.method@,
            params: self.params.deep_view(),
        }
    }
}

impl DeepView for JsonRpcRequest {
    type V = JsonRpcRequestV;

    open spec fn deep_view(&self) -> JsonRpcRequestV {
        self@
    }
}

impl View for JsonRpcResponse {
    type V = JsonRpcResponseV;

    open spec fn view(&self) -> JsonRpcResponseV {
        JsonRpcResponseV {
            jsonrpc: self.jsonrpc@,
            id: self.id@,
            result: self.result.deep_view(),
            error: self.error.deep_view(),
        }
    }
}

impl DeepView for JsonRpcResponse {
    type V = JsonRpcResponseV;

    open spec fn deep_view(&self) -> JsonRpcResponseV {
        self@
    }
}

impl View for JsonRpcNotification {
    type V = JsonRpcNotificationV;

    open spec fn view(&self) -> JsonRpcNotificationV {
        JsonRpcNotificationV {
            jsonrpc: self.jsonrpc@,
            method: self.method@,
            params: self.params.deep_view(),
        }
    }
}

impl DeepView for JsonRpcNotification {
    type V = JsonRpcNotificationV;

    open spec fn deep_view(&self) -> JsonRpcNotificationV {
        self@
    }
}

impl View for JsonRpcMessage {
    type V = JsonRpcMessageV;

    open spec fn view(&self) -> JsonRpcMessageV {
        match self {
            JsonRpcMessage::Request(r) => JsonRpcMessageV::Request(r@),
            JsonRpcMessage::Response(r) => JsonRpcMessageV::Response(r@),
            JsonRpcMessage::Notification(n) => JsonRpcMessageV::Notification(n@),
        }
    }
}

impl DeepView for JsonRpcMessage {
    type V = JsonRpcMessageV;

    open spec fn deep_view(&self) -> JsonRpcMessageV {
        self@
    }
}

/// Append `(key, v)` to an object's members when `v` is present.
pub open spec fn with_opt_field(
    fields: Seq<(Seq<char>, JsonV)>,
    key: Seq<char>,
    v: Option<JsonV>,
) -> Seq<(Seq<char>, JsonV)> {
    match v {
        Some(x) => fields.push((key, x)),
        None => fields,
    }
}

/// The JSON object encoding an error object.
pub open spec fn enc_error(e: JsonRpcErrorV) -> JsonV {
    JsonV::Obj(
        with_opt_field(
            seq![("code"@, JsonV::Num(int_str(e.code))), ("message"@, JsonV::Str(e.message))],
            "data"@,
            e.data,
        ),
    )
}

/// The JSON object encoding a request.
pub open spec fn enc_request(r: JsonRpcRequestV) -> JsonV {
    JsonV::Obj(
        with_opt_field(
            seq![
                ("jsonrpc"@, JsonV::Str(r.jsonrpc)),
                ("id"@, r.id),
                ("method"@, JsonV::Str(r.method)),
            ],
            "params"@,
            r.params,
        ),
    )
}

/// The JSON object encoding a response.
pub open spec fn enc_response(r: JsonRpcResponseV) -> JsonV {
    JsonV::Obj(
        with_opt_field(
            with_opt_field(
                seq![("jsonrpc"@, JsonV::Str(r.jsonrpc)), ("id"@, r.id)],
                "result"@,
                r.result,
            ),
            "error"@,
            match r.error {
                Some(e) => Some(enc_error(e)),
                None => None,
            },
        ),
    )
}

/// The JSON object encoding a notification.
pub open spec fn enc_notification(n: JsonRpcNotificationV) -> JsonV {
    JsonV::Obj(
        with_opt_field(
            seq![("jsonrpc"@, JsonV::Str(n.jsonrpc)), ("method"@, JsonV::Str(n.method))],
            "params"@,
            n.params,
        ),
    )
}

/// The JSON object encoding a message.
pub open spec fn enc_msg(m: JsonRpcMessageV) -> JsonV {
    match m {
        JsonRpcMessageV::Request(r) => enc_request(r),
        JsonRpcMessageV::Response(r) => enc_response(r),
        JsonRpcMessageV::Notification(n) => enc_notification(n),
    }
}

/// Decode an error object from a JSON value.
pub open spec fn dec_error(j: JsonV) -> Option<JsonRpcErrorV> {
    match j {
        JsonV::Obj(pairs) => match (spec_lookup(pairs, "code"@), spec_lookup(pairs, "message"@)) {
            (Some(JsonV::Num(lex)), Some(JsonV::Str(msg))) => match lex_i64(lex) {
                Some(c) => Some(
                    JsonRpcErrorV { code: c, message: msg, data: spec_lookup(pairs, "data"@) },
                ),
                None => None,
            },
            _ => None,
        },
        _ => None,
    }
}

/// Decode a message from a JSON value, classifying by the presence of
/// `method`, `id`, `result` and `error`. Every well-formed envelope maps to
/// exactly one variant; everything else maps to `None`.
pub open spec fn dec_msg(j: JsonV) -> Option<JsonRpcMessageV> {
    match j {
        JsonV::Obj(pairs) => match spec_lookup(pairs, "jsonrpc"@) {
            Some(JsonV::Str(ver)) => match spec_lookup(pairs, "method"@) {
                Some(JsonV::Str(m)) => match spec_lookup(pairs, "id"@) {
                    Some(id) => Some(
                        JsonRpcMessageV::Request(
                            JsonRpcRequestV {
                                jsonrpc: ver,
                                id: id,
                                method: m,
                                params: spec_lookup(pairs, "params"@),
                            },
                        ),
                    ),
                    None => Some(
                        JsonRpcMessageV::Notification(
                            JsonRpcNotificationV {
                                jsonrpc: ver,
                                method: m,
                                params: spec_lookup(pairs, "params"@),
                            },
                        ),
                    ),
                },
                Some(_) => None,
                None => match spec_lookup(pairs, "id"@) {
                    Some(id) => {
                        let result = spec_lookup(pairs, "result"@);
                        match spec_lookup(pairs, "error"@) {
                            Some(ej) => match dec_error(ej) {
                                Some(e) => Some(
                                    JsonRpcMessageV::Response(
                                        JsonRpcResponseV {
                                            jsonrpc: ver,
                                            id: id,
                                            result: result,
                                            error: Some(e),
                                        },
                                    ),
                                ),
                                None => None,
                            },
                            None => match result {
                                Some(_) => Some(
                                    JsonRpcMessageV::Response(
                                        JsonRpcResponseV {
                                            jsonrpc: ver,
                                            id: id,
                                            result: result,
                                            error: None,
                                        },
                                    ),
                                ),
                                None => None,
                            },
                        }
                    },
                    None => None,
                },
            },
            _ => None,
        },
        _ => None,
    }
}

/// A legal response carries exactly one of `result` and `error`, and an
/// error code that fits in 64 signed bits.
pub open spec fn wf_response(r: JsonRpcResponseV) -> bool {
    &&& (r.result is Some <==> r.error is None)
    &&& match r.error {
        Some(e) => i64::MIN <= e.code <= i64::MAX,
        None => true,
    }
}

/// A legal message: every embedded JSON value is well-formed, and a
/// response carries exactly one of `result` and `error`.
pub open spec fn wf_msg(m: JsonRpcMessageV) -> bool {
    match m {
        JsonRpcMessageV::Request(q) => wf_json(q.id) && match q.params {
            Some(p) => wf_json(p),
            None => true,
        },
        JsonRpcMessageV::Response(r) => {
            &&& wf_response(r)
            &&& wf_json(r.id)
            &&& match r.result {
                Some(v) => wf_json(v),
                None => true,
            }
            &&& match r.error {
                Some(e) => match e.data {
                    Some(d) => wf_json(d),
                    None => true,
                },
                None => true,
            }
        },
        JsonRpcMessageV::Notification(n) => match n.params {
            Some(p) => wf_json(p),
            None => true,
        },
    }
}

/// The JSON object encoding a legal message is well-formed.
pub proof fn lemma_wf_enc_msg(m: JsonRpcMessageV)
    requires
        wf_msg(m),
    ensures
        wf_json(enc_msg(m)),
{
    match m {
        JsonRpcMessageV::Request(r) => {
            let base = seq![
                ("jsonrpc"@, JsonV::Str(r.jsonrpc)),
                ("id"@, r.id),
                ("method"@, JsonV::Str(r.method)),
            ];
            lemma_wf_fields(base, "params"@, r.params);
        },
        JsonRpcMessageV::Response(r) => {
            let base = seq![("jsonrpc"@, JsonV::Str(r.jsonrpc)), ("id"@, r.id)];
            match r.error {
                Some(e) => {
                    lemma_int_lexeme(e.code);
                    let ebase = seq![
                        ("code"@, JsonV::Num(int_str(e.code))),
                        ("message"@, JsonV::Str(e.message)),
                    ];
                    lemma_wf_fields(ebase, "data"@, e.data);
                    lemma_wf_fields(base, "error"@, Some(enc_error(e)));
                },
                None => {
                    lemma_wf_fields(base, "result"@, r.result);
                },
            }
        },
        JsonRpcMessageV::Notification(n) => {
            let base = seq![("jsonrpc"@, JsonV::Str(n.jsonrpc)), ("method"@, JsonV::Str(n.method))];
            lemma_wf_fields(base, "params"@, n.params);
        },
    }
}

/// An object whose member values are all well-formed is well-formed.
proof fn lemma_wf_obj_all(pairs: Seq<(Seq<char>, JsonV)>)
    requires
        forall|k: int| 0 <= k < pairs.len() ==> wf_json((#[trigger] pairs[k]).1),
    ensures
        wf_obj(pairs),
    decreases pairs.len(),
{
    if pairs.len() > 0 {
        assert forall|k: int|
            0 <= k < pairs.drop_last().len() implies wf_json(
            (#[trigger] pairs.drop_last()[k]).1,
        ) by {
            assert(pairs.drop_last()[k] == pairs[k]);
        }
        lemma_wf_obj_all(pairs.drop_last());
        assert(wf_json(pairs.last().1));
    }
}

/// A member list of well-formed values, optionally extended by one more, is
/// well-formed.
proof fn lemma_wf_fields(base: Seq<(Seq<char>, JsonV)>, key: Seq<char>, opt: Option<JsonV>)
    requires
        forall|k: int| 0 <= k < base.len() ==> wf_json((#[trigger] base[k]).1),
        match opt {
            Some(v) => wf_json(v),
            None => true,
        },
    ensures
        wf_obj(with_opt_field(base, key, opt)),
{
    let fields = with_opt_field(base, key, opt);
    assert forall|k: int| 0 <= k < fields.len() implies wf_json((#[trigger] fields[k]).1) by {
        if k < base.len() {
            assert(fields[k] == base[k]);
        }
    }
    lemma_wf_obj_all(fields);
}

/// Decoding inverts encoding: every legal message comes back unchanged from
/// its JSON object form.
pub proof fn lemma_msg_round_trip(m: JsonRpcMessageV)
    requires
        wf_msg(m),
    ensures
        dec_msg(enc_msg(m)) == Some(m),
{
    reveal_strlit("jsonrpc");
    reveal_strlit("id");
    reveal_strlit("method");
    reveal_strlit("params");
    reveal_strlit("result");
    reveal_strlit("error");
    assert(("method"@)[0] != ("params"@)[0]);
    assert(("method"@)[0] != ("result"@)[0]);
    assert(("params"@)[0] != ("result"@)[0]);
    match m {
        JsonRpcMessageV::Request(r) => {
            let base = seq![
                ("jsonrpc"@, JsonV::Str(r.jsonrpc)),
                ("id"@, r.id),
                ("method"@, JsonV::Str(r.method)),
            ];
            let fields = with_opt_field(base, "params"@, r.params);
            assert(fields[0].0 == "jsonrpc"@);
            assert(fields[1].0 == "id"@);
            assert(fields[2].0 == "method"@);
            lemma_lookup_at(fields, "jsonrpc"@, 0);
            lemma_lookup_at(fields, "id"@, 1);
            lemma_lookup_at(fields, "method"@, 2);
            match r.params {
                Some(_) => {
                    assert(fields[3].0 == "params"@);
                    lemma_lookup_at(fields, "params"@, 3);
                },
                None => {
                    lemma_lookup_none(fields, "params"@);
                },
            }
        },
        JsonRpcMessageV::Response(r) => {
            let base = seq![("jsonrpc"@, JsonV::Str(r.jsonrpc)), ("id"@, r.id)];
            match r.error {
                Some(e) => {
                    let fields = with_opt_field(base, "error"@, Some(enc_error(e)));
                    assert(fields[0].0 == "jsonrpc"@);
                    assert(fields[1].0 == "id"@);
                    assert(fields[2].0 == "error"@);
                    lemma_lookup_at(fields, "jsonrpc"@, 0);
                    lemma_lookup_at(fields, "id"@, 1);
                    lemma_lookup_at(fields, "error"@, 2);
                    lemma_lookup_none(fields, "method"@);
                    lemma_lookup_none(fields, "result"@);
                    lemma_error_round_trip(e);
                },
                None => {
                    let fields = with_opt_field(base, "result"@, r.result);
                    assert(fields[0].0 == "jsonrpc"@);
                    assert(fields[1].0 == "id"@);
                    assert(fields[2].0 == "result"@);
                    lemma_lookup_at(fields, "jsonrpc"@, 0);
                    lemma_lookup_at(fields, "id"@, 1);
                    lemma_lookup_at(fields, "result"@, 2);
                    lemma_lookup_none(fields, "method"@);
                    lemma_lookup_none(fields, "error"@);
                },
            }
        },
        JsonRpcMessageV::Notification(n) => {
            let base = seq![("jsonrpc"@, JsonV::Str(n.jsonrpc)), ("method"@, JsonV::Str(n.method))];
            let fields = with_opt_field(base, "params"@, n.params);
            assert(fields[0].0 == "jsonrpc"@);
            assert(fields[1].0 == "method"@);
            lemma_lookup_at(fields, "jsonrpc"@, 0);
            lemma_lookup_at(fields, "method"@, 1);
            match n.params {
                Some(_) => {
                    assert(fields[2].0 == "params"@);
                    lemma_lookup_at(fields, "params"@, 2);
                },
                None => {
                    lemma_lookup_none(fields, "params"@);
                },
            }
            lemma_lookup_none(fields, "id"@);
        },
    }
}

/// The codec is a bijection between legal messages and their canonical
/// envelopes: serializing what a canonical envelope decodes to gives back
/// exactly that envelope.
pub proof fn lemma_enc_of_decoded(j: JsonV, m0: JsonRpcMessageV, m: JsonRpcMessageV)
    requires
        wf_msg(m0),
        enc_msg(m0) == j,
        dec_msg(j) == Some(m),
    ensures
        m == m0,
        enc_msg(m) == j,
{
    lemma_msg_round_trip(m0);
}

/// Decoding inverts encoding for error objects.
proof fn lemma_error_round_trip(e: JsonRpcErrorV)
    requires
        i64::MIN <= e.code <= i64::MAX,
    ensures
        dec_error(enc_error(e)) == Some(e),
{
    reveal_strlit("code");
    reveal_strlit("message");
    reveal_strlit("data");
    assert(("code"@)[0] != ("data"@)[0]);
    let base = seq![("code"@, JsonV::Num(int_str(e.code))), ("message"@, JsonV::Str(e.message))];
    let fields = with_opt_field(base, "data"@, e.data);
    assert(fields[0].0 == "code"@);
    assert(fields[1].0 == "message"@);
    lemma_lookup_at(fields, "code"@, 0);
    lemma_lookup_at(fields, "message"@, 1);
    match e.data {
        Some(_) => {
            assert(fields[2].0 == "data"@);
            lemma_lookup_at(fields, "data"@, 2);
        },
        None => {
            lemma_lookup_none(fields, "data"@);
        },
    }
    lemma_int_str_round_trip(e.code);
}

/// Serialize a message to its canonical wire text.
pub fn encode_message_text(m: &JsonRpcMessage) -> (r: String)
    ensures
        r@ == ser_json(enc_msg(m@)),
{
    let j = m.to_json();
    to_text(&j)
}

/// Parse one wire text as a message: the canonical text of every legal
/// message parses back to exactly that message, and whatever parses came
/// from a well-formed envelope whose text the input is.
pub fn decode_message_text(s: &str) -> (r: Option<JsonRpcMessage>)
    ensures
        r matches Some(out) ==> exists|j: JsonV|
            wf_json(j) && s@ == ser_json(j) && #[trigger] dec_msg(j) == Some(out@),
        forall|m: JsonRpcMessageV|
            wf_msg(m) && s@ == ser_json(enc_msg(m)) ==> (r matches Some(out) && out@ == m),
{
    let parsed = match parse_text(s) {
        Some(j) => j,
        None => {
            proof {
                assert forall|m: JsonRpcMessageV|
                    !(wf_msg(m) && s@ == ser_json(enc_msg(m))) by {
                    if wf_msg(m) && s@ == ser_json(enc_msg(m)) {
                        lemma_wf_enc_msg(m);
                    }
                }
            }
            return None;
        },
    };
    let result = JsonRpcMessage::from_json(&parsed);
    proof {
        if result is Some {
            assert(wf_json(parsed@) && s@ == ser_json(parsed@) && dec_msg(parsed@) == Some(
                result->Some_0@,
            ));
        }
        assert forall|m: JsonRpcMessageV|
            wf_msg(m) && s@ == ser_json(enc_msg(m)) implies (result matches Some(out) && out@
            == m) by {
            lemma_wf_enc_msg(m);
            assert(parsed@ == enc_msg(m));
            lemma_msg_round_trip(m);
        }
    }
    result
}

impl JsonRpcError {
    /// Encode this error object as a JSON object.
    pub fn to_json(&self) -> (r: Json)
        ensures
            r@ == enc_error(self@),
    {
        let mut fields: Vec<JsonField> = Vec::new();
        fields.push(JsonField { key: copy_str("code"), value: Json::Num(i64_to_lexeme(self.code)) });
        fields.push(
            JsonField { key: copy_str("message"), value: Json::Str(self.message.clone()) },
        );
        match &self.data {
            Some(d) => fields.push(JsonField { key: copy_str("data"), value: d.duplicate() }),
            None => {},
        }
        proof {
            lemma_view_obj(fields@);
            assert(view_obj(fields@) =~= with_opt_field(
                seq![
                    ("code"@, JsonV::Num(int_str(self.code as int))),
                    ("message"@, JsonV::Str(self.message@)),
                ],
                "data"@,
                self.data.deep_view(),
            ));
        }
        Json::Obj(fields)
    }

    /// Decode an error object from a JSON value.
    pub fn from_json(j: &Json) -> (r: Option<JsonRpcError>)
        ensures
            r.deep_view() == dec_error(j@),
    {
        match j {
            Json::Obj(fields) => {
                let lex = match Json::lookup(fields, "code") {
                    Some(Json::Num(lex)) => lex,
                    _ => {
                        return None;
                    },
                };
                let msg = match Json::lookup(fields, "message") {
                    Some(Json::Str(m)) => m,
                    _ => {
                        return None;
                    },
                };
                let chars = str_chars(lex.as_str());
                let code = match parse_i64_lexeme(&chars) {
                    Some(c) => c,
                    None => {
                        return None;
                    },
                };
                let data = match Json::lookup(fields, "data") {
                    Some(d) => Some(d.duplicate()),
                    None => None,
                };
                Some(JsonRpcError { code, message: msg.clone(), data })
            },
            _ => None,
        }
    }
}

impl JsonRpcMessage {
    /// Encode this message as a JSON object.
    pub fn to_json(&self) -> (r: Json)
        ensures
            r@ == enc_msg(self@),
    {
        match self {
            JsonRpcMessage::Request(q) => {
                let mut fields: Vec<JsonField> = Vec::new();
                fields.push(
                    JsonField { key: copy_str("jsonrpc"), value: Json::Str(q.jsonrpc.clone()) },
                );
                fields.push(JsonField { key: copy_str("id"), value: q.id.duplicate() });
                fields.push(
                    JsonField { key: copy_str("method"), value: Json::Str(q.method.clone()) },
                );
                match &q.params {
                    Some(p) => fields.push(
                        JsonField { key: copy_str("params"), value: p.duplicate() },
                    ),
                    None => {},
                }
                proof {
                    lemma_view_obj(fields@);
                    assert(view_obj(fields@) =~= with_opt_field(
                        seq![
                            ("jsonrpc"@, JsonV::Str(q.jsonrpc@)),
                            ("id"@, q.id@),
                            ("method"@, JsonV::Str(q.method@)),
                        ],
                        "params"@,
                        q.params.deep_view(),
                    ));
                }
                Json::Obj(fields)
            },
            JsonRpcMessage::Response(p) => {
                let mut fields: Vec<JsonField> = Vec::new();
                fields.push(
                    JsonField { key: copy_str("jsonrpc"), value: Json::Str(p.jsonrpc.clone()) },
                );
                fields.push(JsonField { key: copy_str("id"), value: p.id.duplicate() });
                match &p.result {
                    Some(v) => fields.push(
                        JsonField { key: copy_str("result"), value: v.duplicate() },
                    ),
                    None => {},
                }
                match &p.error {
                    Some(e) => fields.push(JsonField { key: copy_str("error"), value: e.to_json() }),
                    None => {},
                }
                proof {
                    lemma_view_obj(fields@);
                    assert(view_obj(fields@) =~= with_opt_field(
                        with_opt_field(
                            seq![("jsonrpc"@, JsonV::Str(p.jsonrpc@)), ("id"@, p.id@)],
                            "result"@,
                            p.result.deep_view(),
                        ),
                        "error"@,
                        match p.error.deep_view() {
                            Some(e) => Some(enc_error(e)),
                            None => None,
                        },
                    ));
                }
                Json::Obj(fields)
            },
            JsonRpcMessage::Notification(n) => {
                let mut fields: Vec<JsonField> = Vec::new();
                fields.push(
                    JsonField { key: copy_str("jsonrpc"), value: Json::Str(n.jsonrpc.clone()) },
                );
                fields.push(
                    JsonField { key: copy_str("method"), value: Json::Str(n.method.clone()) },
                );
                match &n.params {
                    Some(p) => fields.push(
                        JsonField { key: copy_str("params"), value: p.duplicate() },
                    ),
                    None => {},
                }
                proof {
                    lemma_view_obj(fields@);
                    assert(view_obj(fields@) =~= with_opt_field(
                        seq![
                            ("jsonrpc"@, JsonV::Str(n.jsonrpc@)),
                            ("method"@, JsonV::Str(n.method@)),
                        ],
                        "params"@,
                        n.params.deep_view(),
                    ));
                }
                Json::Obj(fields)
            },
        }
    }

    /// Decode a message from a JSON value; `None` for anything that is not a
    /// well-formed envelope.
    pub fn from_json(j: &Json) -> (r: Option<JsonRpcMessage>)
        ensures
            r.deep_view() == dec_msg(j@),
    {
        match j {
            Json::Obj(fields) => {
                let ver = match Json::lookup(fields, "jsonrpc") {
                    Some(Json::Str(v)) => v,
                    _ => {
                        return None;
                    },
                };
                match Json::lookup(fields, "method") {
                    Some(Json::Str(m)) => {
                        let params = match Json::lookup(fields, "params") {
                            Some(p) => Some(p.duplicate()),
                            None => None,
                        };
                        match Json::lookup(fields, "id") {
                            Some(idv) => Some(
                                JsonRpcMessage::Request(
                                    JsonRpcRequest {
                                        jsonrpc: ver.clone(),
                                        id: idv.duplicate(),
                                        method: m.clone(),
                                        params,
                                    },
                                ),
                            ),
                            None => Some(
                                JsonRpcMessage::Notification(
                                    JsonRpcNotification {
                                        jsonrpc: ver.clone(),
                                        method: m.clone(),
                                        params,
                                    },
                                ),
                            ),
                        }
                    },
                    Some(_) => None,
                    None => {
                        let idv = match Json::lookup(fields, "id") {
                            Some(v) => v,
                            None => {
                                return None;
                            },
                        };
                        let result = match Json::lookup(fields, "result") {
                            Some(v) => Some(v.duplicate()),
                            None => None,
                        };
                        match Json::lookup(fields, "error") {
                            Some(ej) => match JsonRpcError::from_json(ej) {
                                Some(e) => Some(
                                    JsonRpcMessage::Response(
                                        JsonRpcResponse {
                                            jsonrpc: ver.clone(),
                                            id: idv.duplicate(),
                                            result,
                                            error: Some(e),
                                        },
                                    ),
                                ),
                                None => None,
                            },
                            None => match result {
                                Some(v) => Some(
                                    JsonRpcMessage::Response(
                                        JsonRpcResponse {
                                            jsonrpc: ver.clone(),
                                            id: idv.duplicate(),
                                            result: Some(v),
                                            error: None,
                                        },
                                    ),
                                ),
                                None => None,
                            },
                        }
                    },
                }
            },
            _ => None,
        }
    }
}

} // verus!
