//! Servers over HTTP: every message is posted to one address, and the answer
//! is a JSON body or a stream of events.

use vstd::prelude::*;

use crate::json::{empty_object, items_view, jempty, json_parse, parse_json, Json, JsonView};
use crate::mcp::client::{initialize_params, initialize_view, notification_view, request_view,
    rpc_notification, rpc_request, server_says};
use crate::mcp::protocol::{best_shared, looks_like_handshake_required, negotiated_from_supported,
    pinned, routable_headers, routing_headers, spec_error, spec_error_view, stateful_view,
    stateless_view, wants_handshake, with_meta, with_request_meta, McpProtocolMode, Negotiated,
    NegotiatedView, SpecError, SpecErrorView, ERROR_UNSUPPORTED_PROTOCOL_VERSION,
    MCP_PROTOCOL_VERSION_LATEST, MCP_PROTOCOL_VERSION_STATEFUL};
use crate::mcp::stdio::{answered_id, envelope_id};
use crate::message::Error;
use crate::text::{cat2, cat3, cat4, cat5, clone_opt, clone_pairs, decimal_int, decimal_of_i64,
    join, joined, lines, lines_of, opt_text, or_else, same, starts_with, strip_prefix, text_pairs,
    texts, trim, trimmed};

verus! {

/// The answer to a posted message.
#[derive(Debug)]
pub struct RawResponse {
    pub status: u16,
    /// The status with its reason, as it is shown.
    pub status_text: String,
    pub content_type: String,
    pub session_id: Option<String>,
    pub body: String,
}

/// The content of a [`RawResponse`].
pub ghost struct RawView {
    pub status: int,
    pub status_text: Seq<char>,
    pub content_type: Seq<char>,
    pub session_id: Option<Seq<char>>,
    pub body: Seq<char>,
}

impl View for RawResponse {
    type V = RawView;

    open spec fn view(&self) -> RawView {
        RawView {
            status: self.status as int,
            status_text: self.status_text@,
            content_type: self.content_type@,
            session_id: opt_text(self.session_id),
            body: self.body@,
        }
    }
}

/// Whether a status means success.
pub open spec fn succeeded(status: int) -> bool {
    200 <= status <= 299
}

fn is_success(response: &RawResponse) -> (r: bool)
    ensures
        r == succeeded(response@.status),
{
    200 <= response.status && response.status <= 299
}

/// The headers of a posted message, in the order they are applied: what the
/// transport needs, what the server was set up with, what routes the request,
/// and what authenticates it.
pub fn post_headers(
    configured: &Vec<(String, String)>,
    negotiated: &Negotiated,
    method: &str,
    tool_name: &Option<String>,
    authorization: &Option<String>,
) -> (r: Vec<(String, String)>)
    ensures
        text_pairs(r@) == seq![
            ("Content-Type"@, "application/json"@),
            ("Accept"@, "application/json, text/event-stream"@),
        ] + text_pairs(configured@) + routing_headers(negotiated@, method@, opt_text(*tool_name))
            + (match opt_text(*authorization) {
            Some(value) => seq![("Authorization"@, value)],
            None => Seq::empty(),
        }),
{
    let mut headers = vec![
        ("Content-Type".to_owned(), "application/json".to_owned()),
        ("Accept".to_owned(), "application/json, text/event-stream".to_owned()),
    ];
    let mut own = clone_pairs(configured);
    let ghost first = own@;
    headers.append(&mut own);
    let mut routing = routable_headers(negotiated, method, tool_name);
    let ghost second = routing@;
    headers.append(&mut routing);
    if let Some(value) = authorization {
        headers.push(("Authorization".to_owned(), value.clone()));
    }
    assert(text_pairs(headers@) =~= seq![
        ("Content-Type"@, "application/json"@),
        ("Accept"@, "application/json, text/event-stream"@),
    ] + text_pairs(first) + text_pairs(second) + (match opt_text(*authorization) {
        Some(value) => seq![("Authorization"@, value)],
        None => Seq::empty(),
    }));
    headers
}

// ------------------------------------------------------------ reading bodies

/// Whether a body is a stream of events.
pub open spec fn is_stream(content_type: Seq<char>) -> bool {
    "text/event-stream"@.is_prefix_of(content_type)
}

/// The value that one line of a stream carries, if it carries any.
pub open spec fn line_value(line: Seq<char>) -> Option<JsonView> {
    if "data:"@.is_prefix_of(line) {
        match json_parse(trimmed(line.skip("data:"@.len() as int))) {
            Ok(value) => Some(value),
            Err(_) => None,
        }
    } else {
        None
    }
}

/// The values that the lines of a stream carry, in order.
pub open spec fn line_values(lines: Seq<Seq<char>>) -> Seq<JsonView>
    decreases lines.len(),
{
    if lines.len() == 0 {
        Seq::empty()
    } else {
        match line_value(lines.last()) {
            Some(value) => line_values(lines.drop_last()).push(value),
            None => line_values(lines.drop_last()),
        }
    }
}

/// The first of the values that answers a request.
pub open spec fn first_answer(values: Seq<JsonView>, id: int) -> Option<JsonView>
    decreases values.len(),
{
    if values.len() == 0 {
        None
    } else if answered_id(values[0]) == Some(id) {
        Some(values[0])
    } else {
        first_answer(values.drop_first(), id)
    }
}

/// The first of the values that answers a request.
pub fn answer_among(values: &Vec<Json>, id: i64) -> (r: Option<Json>)
    ensures
        match r {
            Some(v) => first_answer(items_view(values@), id as int) == Some(v@),
            None => first_answer(items_view(values@), id as int) is None,
        },
{
    let ghost all = items_view(values@);
    let mut i: usize = 0;
    assert(all.skip(0) =~= all);
    while i < values.len()
        invariant
            i <= values@.len(),
            all == items_view(values@),
            first_answer(all, id as int) == first_answer(all.skip(i as int), id as int),
        decreases values.len() - i,
    {
        assert(all.skip(i as int)[0] == values@[i as int]@);
        if let Some(found) = envelope_id(&values[i]) {
            if found == id {
                return Some(values[i].clone());
            }
        }
        assert(all.skip(i as int).drop_first() =~= all.skip(i + 1));
        i += 1;
    }
    None
}

fn stream_values(body: &str) -> (r: Vec<Json>)
    ensures
        items_view(r@) == line_values(lines_of(body@)),
{
    let rows = lines(body);
    let ghost all = texts(rows@);
    let mut r: Vec<Json> = Vec::new();
    let mut i: usize = 0;
    assert(items_view(r@) =~= Seq::<JsonView>::empty());
    while i < rows.len()
        invariant
            i <= rows@.len(),
            all == texts(rows@),
            items_view(r@) == line_values(all.take(i as int)),
        decreases rows.len() - i,
    {
        assert(all.take(i as int + 1).drop_last() =~= all.take(i as int));
        let ghost before = items_view(r@);
        if let Some(data) = strip_prefix(rows[i].as_str(), "data:") {
            let data = trim(data.as_str());
            if let Ok(value) = parse_json(data.as_str()) {
                r.push(value);
                assert(items_view(r@) =~= before.push(value@));
            }
        }
        i += 1;
    }
    assert(all.take(i as int) =~= all);
    r
}

/// The envelope that answers a request, or the text of the failure to find it.
pub open spec fn extracted(
    server: Seq<char>,
    id: int,
    content_type: Seq<char>,
    body: Seq<char>,
) -> Result<JsonView, Seq<char>> {
    if is_stream(content_type) {
        match first_answer(line_values(lines_of(body)), id) {
            Some(value) => Ok(value),
            None => Err(
                server_says(
                    server,
                    "stream ended without a response to request "@ + decimal_int(id),
                ),
            ),
        }
    } else {
        match json_parse(body) {
            Ok(value) => Ok(value),
            Err(message) => Err(
                server_says(server, "sent an unparseable response: "@ + message),
            ),
        }
    }
}

fn server_error(server: &str, what: &str) -> (r: Error)
    ensures
        r.is_mcp(server_says(server@, what@)),
{
    Error::Mcp(cat4("mcp `", server, "` ", what))
}

/// The envelope that answers a request. A stream may carry other messages too,
/// and one that ends without the answer is a failure.
pub fn extract(server: &str, id: i64, content_type: &str, body: &str) -> (r: Result<Json, Error>)
    ensures
        match extracted(server@, id as int, content_type@, body@) {
            Ok(value) => r matches Ok(v) && v@ == value,
            Err(message) => r matches Err(e) && e.is_mcp(message),
        },
{
    if starts_with(content_type, "text/event-stream") {
        match answer_among(&stream_values(body), id) {
            Some(value) => Ok(value),
            None => {
                let number = decimal_of_i64(id);
                let what = cat2("stream ended without a response to request ", number.as_str());
                Err(server_error(server, what.as_str()))
            },
        }
    } else {
        match parse_json(body) {
            Ok(value) => Ok(value),
            Err(message) => {
                let what = cat2("sent an unparseable response: ", message.as_str());
                Err(server_error(server, what.as_str()))
            },
        }
    }
}

/// The error of the protocol itself that a body carries, whatever its status.
/// A body that cannot be read carries none.
pub open spec fn body_error(raw: RawView) -> Option<SpecErrorView> {
    if is_stream(raw.content_type) {
        let values = line_values(lines_of(raw.body));
        if values.len() == 0 {
            None
        } else {
            spec_error_view(values[0])
        }
    } else {
        match json_parse(raw.body) {
            Ok(value) => spec_error_view(value),
            Err(_) => None,
        }
    }
}

fn spec_error_in(probe: &RawResponse) -> (r: Option<SpecError>)
    ensures
        match r {
            Some(e) => body_error(probe@) == Some(e@),
            None => body_error(probe@) is None,
        },
{
    if starts_with(probe.content_type.as_str(), "text/event-stream") {
        let values = stream_values(probe.body.as_str());
        if values.len() == 0 {
            None
        } else {
            spec_error(&values[0])
        }
    } else {
        match parse_json(probe.body.as_str()) {
            Ok(value) => spec_error(&value),
            Err(_) => None,
        }
    }
}

/// The text of a failed status. What is most likely wrong with authentication
/// says so.
pub open spec fn status_text_of(server: Seq<char>, raw: RawView) -> Seq<char> {
    server_says(
        server,
        "returned "@ + raw.status_text + (if raw.status == 401 || raw.status == 403 {
            " — check the McpAuthProvider for this server"@
        } else {
            ""@
        }) + ": "@ + trimmed(raw.body),
    )
}

/// The failure that a status stands for.
pub fn status_error(server: &str, response: &RawResponse) -> (r: Error)
    ensures
        r.is_mcp(status_text_of(server@, response@)),
{
    let hint = if response.status == 401 || response.status == 403 {
        " — check the McpAuthProvider for this server"
    } else {
        ""
    };
    let body = trim(response.body.as_str());
    let what = cat5("returned ", response.status_text.as_str(), hint, ": ", body.as_str());
    server_error(server, what.as_str())
}

// ----------------------------------------------------------------- exchanges

/// One operation that a caller asked for.
#[derive(Debug)]
pub struct Operation {
    pub id: i64,
    pub method: String,
    pub params: Json,
}

/// The content of an [`Operation`].
pub ghost struct OperationView {
    pub id: int,
    pub method: Seq<char>,
    pub params: JsonView,
}

impl View for Operation {
    type V = OperationView;

    open spec fn view(&self) -> OperationView {
        OperationView { id: self.id as int, method: self.method@, params: self.params@ }
    }
}

/// A message to post.
#[derive(Debug)]
pub struct Outgoing {
    pub payload: Json,
    pub negotiated: Negotiated,
    pub method: String,
    pub tool_name: Option<String>,
}

/// The content of an [`Outgoing`].
pub ghost struct OutgoingView {
    pub payload: JsonView,
    pub negotiated: NegotiatedView,
    pub method: Seq<char>,
    pub tool_name: Option<Seq<char>>,
}

impl View for Outgoing {
    type V = OutgoingView;

    open spec fn view(&self) -> OutgoingView {
        OutgoingView {
            payload: self.payload@,
            negotiated: self.negotiated@,
            method: self.method@,
            tool_name: opt_text(self.tool_name),
        }
    }
}

/// What the answer to a posted message is for.
#[derive(Debug)]
pub enum Stage {
    /// The answer to a handshake, after which an operation may wait.
    Initializing { id: i64, preferred: String, waiting: Option<Operation> },
    /// The announcement that ends a handshake; its answer does not matter.
    Announcing { operation: Operation },
    /// The first operation, sent to a server of unknown era.
    Probing { operation: Operation },
    /// An operation, and what is agreed on once it succeeds.
    Operating { id: i64, adopt: Option<Negotiated> },
}

/// The content of a [`Stage`].
pub ghost enum StageView {
    Initializing { id: int, preferred: Seq<char>, waiting: Option<OperationView> },
    Announcing { operation: OperationView },
    Probing { operation: OperationView },
    Operating { id: int, adopt: Option<NegotiatedView> },
}

impl View for Stage {
    type V = StageView;

    open spec fn view(&self) -> StageView {
        match *self {
            Stage::Initializing { id, preferred, waiting } => StageView::Initializing {
                id: id as int,
                preferred: preferred@,
                waiting: match waiting {
                    Some(o) => Some(o@),
                    None => None,
                },
            },
            Stage::Announcing { operation } => StageView::Announcing { operation: operation@ },
            Stage::Probing { operation } => StageView::Probing { operation: operation@ },
            Stage::Operating { id, adopt } => StageView::Operating {
                id: id as int,
                adopt: match adopt {
                    Some(n) => Some(n@),
                    None => None,
                },
            },
        }
    }
}

/// What comes next in an exchange.
#[derive(Debug)]
pub enum Next {
    /// A message to post, and what its answer is for.
    Send { outgoing: Outgoing, stage: Stage },
    /// The envelope that answers the operation, or why there is none.
    Done(Result<Json, Error>),
}

/// What comes next in an exchange.
pub ghost enum NextView {
    Send { outgoing: OutgoingView, stage: StageView },
    Answer(JsonView),
    Failure(Seq<char>),
}

/// Whether this is what comes next.
pub open spec fn is_next(next: Next, v: NextView) -> bool {
    match next {
        Next::Send { outgoing, stage } => v == (NextView::Send {
            outgoing: outgoing@,
            stage: stage@,
        }),
        Next::Done(Ok(envelope)) => v == NextView::Answer(envelope@),
        Next::Done(Err(e)) => v matches NextView::Failure(message) && e.is_mcp(message),
    }
}

/// The tool that an operation calls.
pub open spec fn called_tool(method: Seq<char>, params: JsonView) -> Option<Seq<char>> {
    if method == "tools/call"@ {
        params.at("name"@).text()
    } else {
        None
    }
}

/// The message that carries an operation.
pub open spec fn operation_out(o: OperationView, n: NegotiatedView) -> OutgoingView {
    OutgoingView {
        payload: request_view(o.id, o.method, with_meta(o.params, n.version)),
        negotiated: n,
        method: o.method,
        tool_name: called_tool(o.method, o.params),
    }
}

/// The message that opens a handshake.
pub open spec fn handshake_out(id: int, preferred: Seq<char>) -> OutgoingView {
    OutgoingView {
        payload: request_view(id, "initialize"@, initialize_view(preferred)),
        negotiated: stateful_view(preferred),
        method: "initialize"@,
        tool_name: None,
    }
}

/// The message that carries a notification.
pub open spec fn notification_out(method: Seq<char>, params: JsonView, n: NegotiatedView) -> OutgoingView {
    OutgoingView {
        payload: notification_view(method, params),
        negotiated: n,
        method,
        tool_name: None,
    }
}

/// A handshake for an operation that then follows.
pub open spec fn handshake_for(version: Seq<char>, o: OperationView) -> NextView {
    NextView::Send {
        outgoing: handshake_out(0, version),
        stage: StageView::Initializing { id: 0, preferred: version, waiting: Some(o) },
    }
}

/// The text of the failure of an exchange that no protocol was agreed on for.
pub open spec fn not_initialized() -> Seq<char> {
    "HTTP protocol was not initialized"@
}

/// How an exchange begins. A server of unknown era is sent the operation as a
/// stateless server would want it.
pub open spec fn begun(
    mode: McpProtocolMode,
    negotiated: Option<NegotiatedView>,
    o: OperationView,
) -> NextView {
    if o.method == "initialize"@ {
        let preferred = or_else(
            o.params.at("protocolVersion"@).text(),
            MCP_PROTOCOL_VERSION_STATEFUL@,
        );
        NextView::Send {
            outgoing: handshake_out(o.id, preferred),
            stage: StageView::Initializing { id: o.id, preferred, waiting: None },
        }
    } else {
        match negotiated {
            Some(n) => NextView::Send {
                outgoing: operation_out(o, n),
                stage: StageView::Operating { id: o.id, adopt: None },
            },
            None => if mode == McpProtocolMode::Auto {
                NextView::Send {
                    outgoing: operation_out(o, stateless_view(MCP_PROTOCOL_VERSION_LATEST@)),
                    stage: StageView::Probing { operation: o },
                }
            } else {
                NextView::Failure(not_initialized())
            },
        }
    }
}

/// What follows a refusal by which a stateless server made itself known. It is
/// answered on its own terms: in a version that it speaks.
pub open spec fn retried(server: Seq<char>, o: OperationView, error: SpecErrorView) -> NextView {
    if error.code != ERROR_UNSUPPORTED_PROTOCOL_VERSION {
        NextView::Failure(
            "mcp `"@ + server + "` rejected `"@ + o.method + "` with code "@ + (decimal_int(
                error.code,
            ) + ": "@ + error.message),
        )
    } else {
        match best_shared(error.supported) {
            None => NextView::Failure(
                server_says(
                    server,
                    "supports no protocol version agentyk speaks (it offers "@ + (
                    if error.supported.len() == 0 {
                        "none"@
                    } else {
                        joined(error.supported, ", "@)
                    }) + ")"@,
                ),
            ),
            Some(n) => if n.stateful {
                handshake_for(n.version, o)
            } else {
                NextView::Send {
                    outgoing: operation_out(o, n),
                    stage: StageView::Operating { id: o.id, adopt: Some(n) },
                }
            },
        }
    }
}

/// What follows an answer, and what is agreed on from then on.
pub open spec fn advanced(
    server: Seq<char>,
    negotiated: Option<NegotiatedView>,
    stage: StageView,
    raw: RawView,
) -> (NextView, Option<NegotiatedView>) {
    match stage {
        StageView::Initializing { id, preferred, waiting } => if !succeeded(raw.status) {
            (NextView::Failure(status_text_of(server, raw)), negotiated)
        } else {
            match extracted(server, id, raw.content_type, raw.body) {
                Err(message) => (NextView::Failure(message), negotiated),
                Ok(envelope) => {
                    let n = NegotiatedView {
                        version: or_else(
                            envelope.at("result"@).at("protocolVersion"@).text(),
                            preferred,
                        ),
                        stateful: true,
                        session_id: raw.session_id,
                    };
                    match waiting {
                        None => (NextView::Answer(envelope), Some(n)),
                        Some(o) => (
                            NextView::Send {
                                outgoing: notification_out(
                                    "notifications/initialized"@,
                                    jempty(),
                                    n,
                                ),
                                stage: StageView::Announcing { operation: o },
                            },
                            Some(n),
                        ),
                    }
                },
            }
        },
        StageView::Announcing { operation } => (announced(negotiated, operation), negotiated),
        StageView::Probing { operation } => match body_error(raw) {
            Some(error) => (retried(server, operation, error), negotiated),
            None => if wants_handshake(raw.status, raw.body) {
                (handshake_for(MCP_PROTOCOL_VERSION_STATEFUL@, operation), negotiated)
            } else if !succeeded(raw.status) {
                (NextView::Failure(status_text_of(server, raw)), negotiated)
            } else {
                match extracted(server, operation.id, raw.content_type, raw.body) {
                    Err(message) => (NextView::Failure(message), negotiated),
                    Ok(envelope) => (
                        NextView::Answer(envelope),
                        Some(stateless_view(MCP_PROTOCOL_VERSION_LATEST@)),
                    ),
                }
            },
        },
        StageView::Operating { id, adopt } => if !succeeded(raw.status) {
            (NextView::Failure(status_text_of(server, raw)), negotiated)
        } else {
            match extracted(server, id, raw.content_type, raw.body) {
                Err(message) => (NextView::Failure(message), negotiated),
                Ok(envelope) => (
                    NextView::Answer(envelope),
                    match adopt {
                        Some(n) => Some(n),
                        None => negotiated,
                    },
                ),
            }
        },
    }
}

/// What follows the announcement that ends a handshake: the operation that
/// waited for it.
pub open spec fn announced(negotiated: Option<NegotiatedView>, o: OperationView) -> NextView {
    match negotiated {
        Some(n) => NextView::Send {
            outgoing: operation_out(o, n),
            stage: StageView::Operating { id: o.id, adopt: None },
        },
        None => NextView::Failure(not_initialized()),
    }
}

/// How many more messages an exchange can take after the one of this stage.
pub open spec fn remaining(stage: StageView) -> nat {
    match stage {
        StageView::Probing { .. } => 3,
        StageView::Initializing { .. } => 2,
        StageView::Announcing { .. } => 1,
        StageView::Operating { .. } => 0,
    }
}

/// An exchange ends: each message that is sent leaves fewer to send, so that an
/// operation takes four messages at most.
pub proof fn exchange_ends(
    server: Seq<char>,
    negotiated: Option<NegotiatedView>,
    stage: StageView,
    raw: RawView,
)
    ensures
        advanced(server, negotiated, stage, raw).0 matches NextView::Send { stage: next, .. }
            ==> remaining(next) < remaining(stage),
{
}

/// A server that answers the probe in the stateless protocol is spoken to in
/// that protocol from then on, without a handshake.
pub proof fn stateless_server_needs_no_handshake(
    server: Seq<char>,
    o: OperationView,
    raw: RawView,
    later: OperationView,
)
    requires
        o.method != "initialize"@,
        later.method != "initialize"@,
        body_error(raw) is None,
        !wants_handshake(raw.status, raw.body),
        succeeded(raw.status),
        extracted(server, o.id, raw.content_type, raw.body) is Ok,
    ensures
        ({
            let first = begun(McpProtocolMode::Auto, None, o);
            let (answer, agreed) = advanced(server, None, first->stage, raw);
            &&& answer is Answer
            &&& begun(McpProtocolMode::Auto, agreed, later) == (NextView::Send {
                outgoing: operation_out(later, stateless_view(MCP_PROTOCOL_VERSION_LATEST@)),
                stage: StageView::Operating { id: later.id, adopt: None },
            })
        }),
{
}

/// The session that a server opens in a handshake is named in every later
/// request.
pub proof fn session_binds_later_requests(
    server: Seq<char>,
    negotiated: Option<NegotiatedView>,
    id: int,
    preferred: Seq<char>,
    raw: RawView,
    mode: McpProtocolMode,
    later: OperationView,
)
    requires
        succeeded(raw.status),
        extracted(server, id, raw.content_type, raw.body) is Ok,
        later.method != "initialize"@,
    ensures
        ({
            let stage = StageView::Initializing { id, preferred, waiting: None };
            let (_, agreed) = advanced(server, negotiated, stage, raw);
            begun(mode, agreed, later) matches NextView::Send { outgoing, .. }
                && outgoing.negotiated.session_id == raw.session_id
                && outgoing.negotiated.stateful
        }),
{
}

/// The part of the HTTP transport that decides: what was agreed on with a
/// server, and what to send to it.
#[derive(Debug)]
pub struct HttpTransport {
    pub server_name: String,
    pub mode: McpProtocolMode,
    pub negotiated: Option<Negotiated>,
}

fn operation_message(operation: &Operation, negotiated: &Negotiated) -> (r: Outgoing)
    ensures
        r@ == operation_out(operation@, negotiated@),
{
    let tool_name = if same(operation.method.as_str(), "tools/call") {
        match operation.params.get_str("name") {
            Some(name) => Some(name.to_owned()),
            None => None,
        }
    } else {
        None
    };
    let params = with_request_meta(operation.params.clone(), negotiated.version.as_str());
    Outgoing {
        payload: rpc_request(operation.id, operation.method.as_str(), params),
        negotiated: negotiated.clone(),
        method: operation.method.clone(),
        tool_name,
    }
}

fn handshake_message(id: i64, preferred: &str) -> (r: Outgoing)
    ensures
        r@ == handshake_out(id as int, preferred@),
{
    Outgoing {
        payload: rpc_request(id, "initialize", initialize_params(preferred)),
        negotiated: Negotiated::stateful(preferred),
        method: "initialize".to_owned(),
        tool_name: None,
    }
}

fn notification_message(method: &str, params: Json, negotiated: &Negotiated) -> (r: Outgoing)
    ensures
        r@ == notification_out(method@, params@, negotiated@),
{
    Outgoing {
        payload: rpc_notification(method, params),
        negotiated: negotiated.clone(),
        method: method.to_owned(),
        tool_name: None,
    }
}

fn handshake_then(version: &str, operation: Operation) -> (r: Next)
    ensures
        is_next(r, handshake_for(version@, operation@)),
{
    Next::Send {
        outgoing: handshake_message(0, version),
        stage: Stage::Initializing {
            id: 0,
            preferred: version.to_owned(),
            waiting: Some(operation),
        },
    }
}

impl HttpTransport {
    /// What was agreed on.
    pub open spec fn agreed(&self) -> Option<NegotiatedView> {
        match self.negotiated {
            Some(n) => Some(n@),
            None => None,
        }
    }

    /// A transport to a server.
    pub fn new(server_name: &str, mode: McpProtocolMode) -> (r: Self)
        ensures
            r.server_name@ == server_name@,
            r.mode == mode,
            r.agreed() == pinned(mode),
    {
        HttpTransport {
            server_name: server_name.to_owned(),
            mode,
            negotiated: mode.initial(),
        }
    }

    /// How the exchange for a request begins.
    pub fn begin(&self, id: i64, method: &str, params: Json) -> (r: Next)
        ensures
            is_next(
                r,
                begun(
                    self.mode,
                    self.agreed(),
                    OperationView { id: id as int, method: method@, params: params@ },
                ),
            ),
    {
        if same(method, "initialize") {
            let preferred = match params.get_str("protocolVersion") {
                Some(version) => version.to_owned(),
                None => MCP_PROTOCOL_VERSION_STATEFUL.to_owned(),
            };
            return Next::Send {
                outgoing: handshake_message(id, preferred.as_str()),
                stage: Stage::Initializing { id, preferred, waiting: None },
            };
        }
        let operation = Operation { id, method: method.to_owned(), params };
        match &self.negotiated {
            Some(negotiated) => Next::Send {
                outgoing: operation_message(&operation, negotiated),
                stage: Stage::Operating { id, adopt: None },
            },
            None => match self.mode {
                McpProtocolMode::Auto => {
                    let stateless = Negotiated::stateless(MCP_PROTOCOL_VERSION_LATEST);
                    Next::Send {
                        outgoing: operation_message(&operation, &stateless),
                        stage: Stage::Probing { operation },
                    }
                },
                _ => Next::Done(
                    Err(Error::Mcp("HTTP protocol was not initialized".to_owned())),
                ),
            },
        }
    }

    fn retry_as_modern(&self, operation: Operation, error: SpecError) -> (r: Next)
        ensures
            is_next(r, retried(self.server_name@, operation@, error@)),
    {
        if error.code != ERROR_UNSUPPORTED_PROTOCOL_VERSION {
            let code = decimal_of_i64(error.code);
            let mut text = cat5(
                "mcp `",
                self.server_name.as_str(),
                "` rejected `",
                operation.method.as_str(),
                "` with code ",
            );
            let reason = cat3(code.as_str(), ": ", error.message.as_str());
            text.append(reason.as_str());
            return Next::Done(Err(Error::Mcp(text)));
        }
        match negotiated_from_supported(&error.supported) {
            None => {
                let offers = if error.supported.len() == 0 {
                    "none".to_owned()
                } else {
                    join(&error.supported, ", ")
                };
                let what = cat3(
                    "supports no protocol version agentyk speaks (it offers ",
                    offers.as_str(),
                    ")",
                );
                Next::Done(Err(server_error(self.server_name.as_str(), what.as_str())))
            },
            Some(negotiated) => if negotiated.stateful {
                handshake_then(negotiated.version.as_str(), operation)
            } else {
                Next::Send {
                    outgoing: operation_message(&operation, &negotiated),
                    stage: Stage::Operating { id: operation.id, adopt: Some(negotiated) },
                }
            },
        }
    }

    fn after_handshake(
        &mut self,
        id: i64,
        preferred: String,
        waiting: Option<Operation>,
        raw: RawResponse,
    ) -> (r: Next)
        ensures
            final(self).server_name == old(self).server_name,
            final(self).mode == old(self).mode,
            ({
                let stage = Stage::Initializing { id, preferred, waiting }@;
                let (next, agreed) = advanced(
                    old(self).server_name@,
                    old(self).agreed(),
                    stage,
                    raw@,
                );
                is_next(r, next) && final(self).agreed() == agreed
            }),
    {
        if !is_success(&raw) {
            return Next::Done(Err(status_error(self.server_name.as_str(), &raw)));
        }
        let envelope = match extract(
            self.server_name.as_str(),
            id,
            raw.content_type.as_str(),
            raw.body.as_str(),
        ) {
            Ok(envelope) => envelope,
            Err(e) => {
                return Next::Done(Err(e));
            },
        };
        let version = match envelope.get("result") {
            Some(result) => match result.get_str("protocolVersion") {
                Some(version) => version.to_owned(),
                None => preferred,
            },
            None => preferred,
        };
        let negotiated = Negotiated {
            version,
            stateful: true,
            session_id: clone_opt(&raw.session_id),
        };
        let next = match waiting {
            None => Next::Done(Ok(envelope)),
            Some(operation) => Next::Send {
                outgoing: notification_message(
                    "notifications/initialized",
                    empty_object(),
                    &negotiated,
                ),
                stage: Stage::Announcing { operation },
            },
        };
        self.negotiated = Some(negotiated);
        next
    }

    fn after_probe(&mut self, operation: Operation, raw: RawResponse) -> (r: Next)
        ensures
            final(self).server_name == old(self).server_name,
            final(self).mode == old(self).mode,
            ({
                let stage = StageView::Probing { operation: operation@ };
                let (next, agreed) = advanced(
                    old(self).server_name@,
                    old(self).agreed(),
                    stage,
                    raw@,
                );
                is_next(r, next) && final(self).agreed() == agreed
            }),
    {
        if let Some(error) = spec_error_in(&raw) {
            return self.retry_as_modern(operation, error);
        }
        if looks_like_handshake_required(raw.status, raw.body.as_str()) {
            return handshake_then(MCP_PROTOCOL_VERSION_STATEFUL, operation);
        }
        if !is_success(&raw) {
            return Next::Done(Err(status_error(self.server_name.as_str(), &raw)));
        }
        match extract(
            self.server_name.as_str(),
            operation.id,
            raw.content_type.as_str(),
            raw.body.as_str(),
        ) {
            Ok(envelope) => {
                self.negotiated = Some(Negotiated::stateless(MCP_PROTOCOL_VERSION_LATEST));
                Next::Done(Ok(envelope))
            },
            Err(e) => Next::Done(Err(e)),
        }
    }

    fn after_operation(&mut self, id: i64, adopt: Option<Negotiated>, raw: RawResponse) -> (r: Next)
        ensures
            final(self).server_name == old(self).server_name,
            final(self).mode == old(self).mode,
            ({
                let stage = Stage::Operating { id, adopt }@;
                let (next, agreed) = advanced(
                    old(self).server_name@,
                    old(self).agreed(),
                    stage,
                    raw@,
                );
                is_next(r, next) && final(self).agreed() == agreed
            }),
    {
        if !is_success(&raw) {
            return Next::Done(Err(status_error(self.server_name.as_str(), &raw)));
        }
        match extract(
            self.server_name.as_str(),
            id,
            raw.content_type.as_str(),
            raw.body.as_str(),
        ) {
            Ok(envelope) => {
                if let Some(negotiated) = adopt {
                    self.negotiated = Some(negotiated);
                }
                Next::Done(Ok(envelope))
            },
            Err(e) => Next::Done(Err(e)),
        }
    }

    /// What follows an answer. A transport failure ends the exchange, except
    /// after an announcement, whose outcome does not matter.
    pub fn advance(&mut self, stage: Stage, response: Result<RawResponse, Error>) -> (r: Next)
        ensures
            final(self).server_name == old(self).server_name,
            final(self).mode == old(self).mode,
            match response {
                Ok(raw) => is_next(
                    r,
                    advanced(old(self).server_name@, old(self).agreed(), stage@, raw@).0,
                ) && final(self).agreed() == advanced(
                    old(self).server_name@,
                    old(self).agreed(),
                    stage@,
                    raw@,
                ).1,
                Err(e) => final(self).agreed() == old(self).agreed() && match stage {
                    Stage::Announcing { operation } => is_next(
                        r,
                        announced(old(self).agreed(), operation@),
                    ),
                    _ => r == Next::Done(Err::<Json, Error>(e)),
                },
            },
    {
        match stage {
            Stage::Announcing { operation } => match &self.negotiated {
                Some(negotiated) => Next::Send {
                    outgoing: operation_message(&operation, negotiated),
                    stage: Stage::Operating { id: operation.id, adopt: None },
                },
                None => Next::Done(
                    Err(Error::Mcp("HTTP protocol was not initialized".to_owned())),
                ),
            },
            Stage::Initializing { id, preferred, waiting } => match response {
                Ok(raw) => self.after_handshake(id, preferred, waiting, raw),
                Err(e) => Next::Done(Err(e)),
            },
            Stage::Probing { operation } => match response {
                Ok(raw) => self.after_probe(operation, raw),
                Err(e) => Next::Done(Err(e)),
            },
            Stage::Operating { id, adopt } => match response {
                Ok(raw) => self.after_operation(id, adopt, raw),
                Err(e) => Next::Done(Err(e)),
            },
        }
    }

    /// The message that carries a notification, once a protocol was agreed on.
    pub fn begin_notify(&self, method: &str, params: Json) -> (r: Result<Outgoing, Error>)
        ensures
            match self.agreed() {
                Some(n) => r matches Ok(out) && out@ == notification_out(method@, params@, n),
                None => r matches Err(e) && e.is_mcp(not_initialized()),
            },
    {
        match &self.negotiated {
            Some(negotiated) => Ok(notification_message(method, params, negotiated)),
            None => Err(Error::Mcp("HTTP protocol was not initialized".to_owned())),
        }
    }

    /// What a notification came to.
    pub fn end_notify(&self, response: &RawResponse) -> (r: Result<(), Error>)
        ensures
            r is Ok <==> succeeded(response@.status),
            r matches Err(e) ==> e.is_mcp(status_text_of(self.server_name@, response@)),
    {
        if is_success(response) {
            Ok(())
        } else {
            Err(status_error(self.server_name.as_str(), response))
        }
    }
}

} // verus!
