use agentyk::json::Json;
use agentyk::mcp::client::{
    call_params, check_result_type, discovery_from, initialize_params, parse_tool_list,
    parse_tool_result, result_of, rpc_notification, rpc_request, McpClient,
};
use agentyk::mcp::http::{
    answer_among, extract, post_headers, status_error, HttpTransport, Next, Outgoing, RawResponse,
    Stage,
};
use agentyk::mcp::protocol::{McpProtocolMode, Negotiated, PROTOCOL_VERSION_META_KEY};
use agentyk::mcp::stdio::{
    envelope_id, probe_request, read_line, settle_pinned, settle_probed, write_request,
};
use agentyk::mcp::{McpServer, McpTransport, StaticBearer};
use agentyk::message::Error;

/// A JSON text as a value of the library.
fn json(text: &str) -> Json {
    convert(&serde_json::from_str(text).unwrap())
}

fn convert(value: &serde_json::Value) -> Json {
    match value {
        serde_json::Value::Null => Json::Null,
        serde_json::Value::Bool(b) => Json::Bool(*b),
        serde_json::Value::Number(n) => match (n.as_u64(), n.as_i64()) {
            (Some(u), _) => Json::Unsigned(u),
            (None, Some(i)) => Json::Signed(i),
            (None, None) => Json::Float(n.to_string()),
        },
        serde_json::Value::String(s) => Json::Str(s.clone()),
        serde_json::Value::Array(items) => Json::Array(items.iter().map(convert).collect()),
        serde_json::Value::Object(members) => Json::Object(
            members.iter().map(|(k, v)| (k.clone(), convert(v))).collect(),
        ),
    }
}

/// A value of the library as one that can be indexed and compared.
fn value(json: &Json) -> serde_json::Value {
    match json {
        Json::Null => serde_json::Value::Null,
        Json::Bool(b) => serde_json::Value::Bool(*b),
        Json::Unsigned(n) => serde_json::Value::from(*n),
        Json::Signed(n) => serde_json::Value::from(*n),
        Json::Float(text) => serde_json::from_str(text).unwrap(),
        Json::Str(s) => serde_json::Value::String(s.clone()),
        Json::Array(items) => serde_json::Value::Array(items.iter().map(value).collect()),
        Json::Object(members) => serde_json::Value::Object(
            members.iter().map(|(k, v)| (k.clone(), value(v))).collect(),
        ),
    }
}

/// A JSON text as a value that can be indexed and compared.
fn parsed(text: &str) -> serde_json::Value {
    serde_json::from_str(text).unwrap()
}

fn told(error: &Error) -> String {
    match error {
        Error::Mcp(text) => text.clone(),
        other => panic!("{other:?}"),
    }
}

const ENVELOPE: &str =
    "event: message\ndata: {\"jsonrpc\":\"2.0\",\"id\":7,\"result\":{\"ok\":true}}\n\n";

const ADDRESSED: &str = "data: {\"jsonrpc\":\"2.0\",\"method\":\"notifications/progress\"}\n\ndata: {\"jsonrpc\":\"2.0\",\"id\":1,\"result\":{}}\n\ndata: {\"jsonrpc\":\"2.0\",\"id\":2,\"result\":{\"mine\":true}}\n\n";

const TOOL_LIST: &str = r#"{
    "tools": [
        {"name": "search", "description": "Search things.", "inputSchema": {"type": "object", "properties": {"q": {"type": "string"}}}},
        {"name": "bare"}
    ]
}"#;

const TOOL_RESULT: &str = r#"{
    "content": [
        {"type": "text", "text": "line one"},
        {"type": "image", "data": "…"},
        {"type": "text", "text": "line two"}
    ],
    "isError": false
}"#;

#[test]
fn mcp_reads_the_matching_envelope_out_of_an_sse_stream() {
    let found = extract("demo", 7, "text/event-stream", ENVELOPE).expect("envelope found");
    assert_eq!(value(&found)["result"]["ok"], true);
}

#[test]
fn mod_reads_the_matching_envelope_out_of_an_sse_stream() {
    let found =
        extract("demo", 7, "text/event-stream; charset=utf-8", ENVELOPE).expect("envelope found");
    assert_eq!(value(&found)["result"]["ok"], true);
}

#[test]
fn mcp_ignores_stream_messages_addressed_to_someone_else() {
    let found = extract("demo", 2, "text/event-stream", ADDRESSED).unwrap();
    assert_eq!(value(&found)["result"]["mine"], true);
}

#[test]
fn mod_ignores_stream_messages_addressed_to_someone_else() {
    let values = vec![
        json(r#"{"jsonrpc":"2.0","method":"notifications/progress"}"#),
        json(r#"{"jsonrpc":"2.0","id":1,"result":{}}"#),
        json(r#"{"jsonrpc":"2.0","id":2,"result":{"mine":true}}"#),
    ];
    let found = answer_among(&values, 2).unwrap();
    assert_eq!(value(&found)["result"]["mine"], true);
    let found = extract("demo", 2, "text/event-stream", ADDRESSED).unwrap();
    assert_eq!(value(&found)["result"]["mine"], true);
}

#[test]
fn mcp_a_stream_without_our_response_is_an_error_not_a_hang() {
    let error = extract("demo", 9, "text/event-stream", "data: {\"id\":1}\n\n")
        .expect_err("no response for 9");
    assert!(told(&error).contains("without a response"), "{error:?}");
}

#[test]
fn mod_a_stream_without_our_response_is_an_error_not_a_hang() {
    let error = extract("demo", 9, "text/event-stream", "data: {\"id\":1}\n\n")
        .expect_err("no response for 9");
    assert_eq!(told(&error), "mcp `demo` stream ended without a response to request 9");
}

#[test]
fn mcp_a_plain_json_body_is_read_directly() {
    let found = extract("demo", 1, "application/json", "{\"id\":1,\"result\":{\"ok\":1}}").unwrap();
    assert_eq!(value(&found)["result"]["ok"], 1);
}

#[test]
fn mod_a_plain_json_body_is_read_directly() {
    let found = extract("demo", 1, "application/json", "{\"id\":1,\"result\":{\"ok\":1}}").unwrap();
    assert_eq!(value(&found)["result"]["ok"], 1);
    let error = extract("demo", 1, "application/json", "not json").unwrap_err();
    assert!(told(&error).starts_with("mcp `demo` sent an unparseable response: "), "{error:?}");
}

#[test]
fn mcp_parses_tool_list() {
    let tools = parse_tool_list(&json(TOOL_LIST));
    assert_eq!(tools.len(), 2);
    assert_eq!(tools[0].name, "search");
    assert_eq!(tools[1].parameters, json(r#"{"type": "object"}"#));
}

#[test]
fn mod_parses_tool_list() {
    let tools = parse_tool_list(&json(TOOL_LIST));
    assert_eq!(tools.len(), 2);
    assert_eq!(tools[0].name, "search");
    assert_eq!(tools[0].description, "Search things.");
    assert_eq!(tools[1].description, "");
    assert_eq!(tools[1].parameters, json(r#"{"type": "object"}"#));
    assert!(parse_tool_list(&json(r#"{"tools": [{"description": "nameless"}]}"#)).is_empty());
    assert!(parse_tool_list(&json("{}")).is_empty());
}

#[test]
fn mcp_parses_tool_result_text_blocks() {
    let output = parse_tool_result(&json(TOOL_RESULT));
    assert_eq!(output.content, "line one\nline two");
    assert!(!output.is_error);
}

#[test]
fn mod_parses_tool_result_text_blocks() {
    let output = parse_tool_result(&json(TOOL_RESULT));
    assert_eq!(output.content, "line one\nline two");
    assert!(!output.is_error);
    assert!(parse_tool_result(&json(r#"{"isError": true}"#)).is_error);
}

#[test]
fn a_complete_or_absent_result_type_passes() {
    assert!(
        check_result_type("demo", "tools/call", &json(r#"{"content": []}"#)).is_ok(),
        "a pre-2026-07-28 server omits the field; the spec reads that as complete"
    );
    assert!(
        check_result_type("demo", "tools/call", &json(r#"{"resultType": "complete"}"#)).is_ok()
    );
}

#[test]
fn an_input_required_result_is_an_error_not_an_empty_output() {
    let error = check_result_type(
        "demo",
        "tools/call",
        &json(
            r#"{
                "resultType": "input_required",
                "inputRequests": [{"method": "elicitation/create"}]
            }"#,
        ),
    )
    .expect_err("MRTR is unsupported");
    assert!(told(&error).contains("multi round-trip"), "{error:?}");
}

#[test]
fn an_unknown_result_type_fails_loudly() {
    let error = check_result_type("demo", "tools/list", &json(r#"{"resultType": "partial"}"#))
        .expect_err("unknown result types are not silently read as complete");
    assert!(told(&error).contains("partial"), "{error:?}");
}

#[test]
fn an_error_that_the_server_reports_is_a_failure() {
    let error = result_of("demo", "tools/call", &json(r#"{"id":1,"error":{"code":-1}}"#))
        .expect_err("an error");
    assert_eq!(told(&error), "mcp `demo` `tools/call` failed: {\"code\":-1}");
    let result = result_of("demo", "m", &json(r#"{"id":1,"result":{"a":1}}"#)).unwrap();
    assert_eq!(result, json(r#"{"a":1}"#));
    assert_eq!(result_of("demo", "m", &json(r#"{"id":1}"#)).unwrap(), Json::Null);
    assert!(result_of("demo", "m", &json(r#"{"result":{"resultType":"x"}}"#)).is_err());
}

#[test]
fn messages_are_framed_as_json_rpc() {
    assert_eq!(
        value(&rpc_request(3, "tools/call", call_params("t", json(r#"{"a":1}"#)))),
        parsed(
            r#"{"jsonrpc":"2.0","id":3,"method":"tools/call","params":{"name":"t","arguments":{"a":1}}}"#
        )
    );
    assert_eq!(
        value(&rpc_notification("notifications/initialized", json("{}"))),
        parsed(r#"{"jsonrpc":"2.0","method":"notifications/initialized","params":{}}"#)
    );
    let hello = value(&initialize_params("2025-11-25"));
    assert_eq!(hello["protocolVersion"], "2025-11-25");
    assert_eq!(hello["clientInfo"]["name"], "agentyk");
}

#[test]
fn a_server_describes_itself() {
    let discovery = discovery_from(&json(
        r#"{"supportedVersions":["a",1,"b"],"instructions":"be kind"}"#,
    ));
    assert_eq!(discovery.supported_versions, vec!["a", "b"]);
    assert_eq!(discovery.capabilities, json("{}"));
    assert_eq!(discovery.server_info, None);
    assert_eq!(discovery.instructions.as_deref(), Some("be kind"));
}

#[test]
fn a_tool_list_is_served_from_memory_while_it_is_fresh() {
    let mut client = McpClient::new("demo");
    assert!(client.cached_tools(0).is_none());
    let tools = client.tools_listed(&json(r#"{"tools":[{"name":"t"}],"ttlMs":100}"#), 1000);
    assert_eq!(tools.len(), 1);
    assert_eq!(client.cached_tools(1099).unwrap().len(), 1);
    assert!(client.cached_tools(1100).is_none());
    let mut client = McpClient::new("demo");
    client.tools_listed(&json(r#"{"tools":[{"name":"t"}]}"#), 1000);
    assert!(client.cached_tools(1000).is_none());
}

#[test]
fn request_ids_count_up() {
    let mut client = McpClient::new("demo");
    assert_eq!(client.take_id(), 1);
    assert_eq!(client.take_id(), 2);
    client.next_id = i64::MAX;
    assert_eq!(client.take_id(), i64::MAX);
    assert_eq!(client.take_id(), i64::MIN);
}

#[test]
fn lines_of_a_server_are_read_by_their_id() {
    let (id, envelope) = read_line(r#"{"id":4,"result":{"x":1}}"#).unwrap();
    assert_eq!(id, 4);
    assert_eq!(envelope_id(&envelope), Some(4));
    assert_eq!(value(&envelope)["result"]["x"], 1);
    assert!(read_line("starting up...").is_none());
    assert!(read_line(r#"{"method":"notifications/progress"}"#).is_none());
}

#[test]
fn a_stateless_server_gets_its_metadata_with_every_request() {
    let plain = value(&write_request(&None, 1, "tools/list", json("{}")));
    assert!(plain["params"].get("_meta").is_none());
    let stateless = value(&write_request(
        &Some("2026-07-28".to_string()),
        1,
        "tools/list",
        json("{}"),
    ));
    assert_eq!(stateless["params"]["_meta"][PROTOCOL_VERSION_META_KEY], "2026-07-28");
    assert_eq!(value(&probe_request(1))["method"], "server/discover");
}

#[test]
fn a_probed_server_settles_on_what_it_offers() {
    let silent = settle_probed(&None);
    assert_eq!(silent.handshake.as_deref(), Some("2025-11-25"));
    assert!(silent.adopted.stateful);
    let modern =
        settle_probed(&Some(json(r#"{"id":1,"result":{"supportedVersions":["2026-07-28"]}}"#)));
    assert_eq!(modern.handshake, None);
    assert_eq!(modern.adopted.version, "2026-07-28");
    let older =
        settle_probed(&Some(json(r#"{"id":1,"result":{"supportedVersions":["2025-06-18"]}}"#)));
    assert_eq!(older.handshake.as_deref(), Some("2025-06-18"));
    let refused =
        settle_probed(&Some(json(r#"{"id":1,"error":{"code":-32601,"message":"no"}}"#)));
    assert_eq!(refused.handshake.as_deref(), Some("2025-11-25"));
    assert!(settle_pinned(McpProtocolMode::Auto).is_none());
    assert_eq!(settle_pinned(McpProtocolMode::Latest).unwrap().handshake, None);
    assert_eq!(
        settle_pinned(McpProtocolMode::Legacy).unwrap().handshake.as_deref(),
        McpProtocolMode::Legacy.handshake_version()
    );
}

// ------------------------------------------------------------ HTTP exchanges

fn answer(status: u16, body: &str) -> RawResponse {
    RawResponse {
        status,
        status_text: status.to_string(),
        content_type: "application/json".to_string(),
        session_id: None,
        body: body.to_string(),
    }
}

fn sent(next: Next) -> (Outgoing, Stage) {
    match next {
        Next::Send { outgoing, stage } => (outgoing, stage),
        other => panic!("{other:?}"),
    }
}

fn done(next: Next) -> Result<Json, Error> {
    match next {
        Next::Done(result) => result,
        other => panic!("{other:?}"),
    }
}

#[test]
fn a_stateless_server_answers_without_a_handshake() {
    let mut transport = HttpTransport::new("demo", McpProtocolMode::Auto);
    let (probe, stage) = sent(transport.begin(5, "tools/list", json("{}")));
    assert_eq!(probe.negotiated.version, "2026-07-28");
    assert_eq!(value(&probe.payload)["id"], 5);
    let result = done(transport.advance(stage, Ok(answer(200, r#"{"id":5,"result":{"a":1}}"#))));
    assert_eq!(value(&result.unwrap())["result"]["a"], 1);
    assert_eq!(transport.negotiated, Some(Negotiated::stateless("2026-07-28")));
}

#[test]
fn a_server_that_wants_a_handshake_gets_one_and_keeps_its_session() {
    let mut transport = HttpTransport::new("demo", McpProtocolMode::Auto);
    let (_, stage) = sent(transport.begin(5, "tools/call", json(r#"{"name":"t"}"#)));
    let (hello, stage) =
        sent(transport.advance(stage, Ok(answer(400, "Mcp-Session-Id header required"))));
    assert_eq!(hello.method, "initialize");
    let mut welcome = answer(200, r#"{"id":0,"result":{"protocolVersion":"2025-06-18"}}"#);
    welcome.session_id = Some("s-1".to_string());
    let (note, stage) = sent(transport.advance(stage, Ok(welcome)));
    assert_eq!(note.method, "notifications/initialized");
    let (operation, stage) = sent(transport.advance(stage, Ok(answer(500, "whatever"))));
    assert_eq!(operation.method, "tools/call");
    assert_eq!(operation.tool_name.as_deref(), Some("t"));
    assert_eq!(operation.negotiated.session_id.as_deref(), Some("s-1"));
    assert_eq!(operation.negotiated.version, "2025-06-18");
    let result = done(transport.advance(stage, Ok(answer(200, r#"{"id":5,"result":{}}"#))));
    assert!(result.is_ok());
    let (later, _) = sent(transport.begin(6, "tools/list", json("{}")));
    assert_eq!(later.negotiated.session_id.as_deref(), Some("s-1"));
}

#[test]
fn a_modern_server_that_refuses_our_version_is_asked_in_its_own() {
    let refusal = r#"{"id":5,"error":{"code":-32022,"message":"Unsupported protocol version","data":{"supported":["2025-11-25"]}}}"#;
    let code = agentyk::mcp::protocol::ERROR_UNSUPPORTED_PROTOCOL_VERSION.to_string();
    let refusal = refusal.replace("-32022", &code);
    let mut transport = HttpTransport::new("demo", McpProtocolMode::Auto);
    let (_, stage) = sent(transport.begin(5, "tools/list", json("{}")));
    let (hello, _) = sent(transport.advance(stage, Ok(answer(400, &refusal))));
    assert_eq!(hello.method, "initialize");
    assert_eq!(value(&hello.payload)["params"]["protocolVersion"], "2025-11-25");

    let nothing = refusal.replace("2025-11-25", "1900-01-01");
    let mut transport = HttpTransport::new("demo", McpProtocolMode::Auto);
    let (_, stage) = sent(transport.begin(5, "tools/list", json("{}")));
    let error = done(transport.advance(stage, Ok(answer(400, &nothing)))).unwrap_err();
    assert_eq!(
        told(&error),
        "mcp `demo` supports no protocol version agentyk speaks (it offers 1900-01-01)"
    );
}

#[test]
fn a_failing_server_is_quoted() {
    let mut transport = HttpTransport::new("demo", McpProtocolMode::Latest);
    let (_, stage) = sent(transport.begin(5, "tools/list", json("{}")));
    let mut response = answer(401, " no \n");
    response.status_text = "401 Unauthorized".to_string();
    let error = done(transport.advance(stage, Ok(response))).unwrap_err();
    assert!(told(&error).contains("401 Unauthorized"), "{error:?}");
    assert!(told(&error).contains("McpAuthProvider"), "{error:?}");
    let plain = status_error("demo", &answer(500, "boom"));
    assert!(!told(&plain).contains("McpAuthProvider"), "{plain:?}");
    assert!(told(&plain).ends_with("500: boom"), "{plain:?}");
}

#[test]
fn a_network_failure_ends_the_exchange() {
    let mut transport = HttpTransport::new("demo", McpProtocolMode::Auto);
    let (_, stage) = sent(transport.begin(5, "tools/list", json("{}")));
    let error = done(transport.advance(stage, Err(Error::Mcp("reset".to_string())))).unwrap_err();
    assert_eq!(told(&error), "reset");
    assert_eq!(transport.negotiated, None);
}

#[test]
fn notifications_need_an_agreement() {
    let transport = HttpTransport::new("demo", McpProtocolMode::Auto);
    let error = transport.begin_notify("notifications/initialized", json("{}")).unwrap_err();
    assert_eq!(told(&error), "HTTP protocol was not initialized");
    let transport = HttpTransport::new("demo", McpProtocolMode::Stateful);
    let outgoing = transport.begin_notify("notifications/initialized", json("{}")).unwrap();
    assert!(value(&outgoing.payload).get("id").is_none());
    assert!(transport.end_notify(&answer(202, "")).is_ok());
    assert!(transport.end_notify(&answer(500, "")).is_err());
}

#[test]
fn configured_headers_precede_routing_and_authorization() {
    let headers = post_headers(
        &vec![("X-Team".to_string(), "a".to_string())],
        &Negotiated::stateless("2026-07-28"),
        "tools/list",
        &None,
        &Some("Bearer t".to_string()),
    );
    assert_eq!(headers[0], ("Content-Type".to_string(), "application/json".to_string()));
    assert_eq!(headers[2], ("X-Team".to_string(), "a".to_string()));
    assert_eq!(
        headers.last().unwrap(),
        &("Authorization".to_string(), "Bearer t".to_string())
    );
}

#[test]
fn servers_are_described_by_value() {
    let server = McpServer::stdio("files", "npx").arg("-y").env("HOME", "/tmp");
    assert_eq!(server.capability_id(), "mcp:files");
    match &server.transport {
        McpTransport::Stdio { command, args, env } => {
            assert_eq!(command, "npx");
            assert_eq!(args, &vec!["-y".to_string()]);
            assert_eq!(env, &vec![("HOME".to_string(), "/tmp".to_string())]);
        }
        other => panic!("{other:?}"),
    }
    let server = McpServer::http("api", "https://x/mcp").header("X-A", "1");
    assert_eq!(server.protocol_mode, McpProtocolMode::Auto);
    assert_eq!(
        StaticBearer::new("t").authorization("api").as_deref(),
        Some("Bearer t")
    );
}
