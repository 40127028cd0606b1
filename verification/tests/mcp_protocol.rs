use agentyk::json::Json;
use agentyk::mcp::protocol::{
    cache_ttl, looks_like_handshake_required, negotiated_from_supported, request_meta,
    routable_headers, spec_error, with_request_meta, McpProtocolMode, Negotiated,
    CLIENT_CAPABILITIES_META_KEY, CLIENT_INFO_META_KEY, ERROR_UNSUPPORTED_PROTOCOL_VERSION,
    MCP_PROTOCOL_VERSION_LATEST, MCP_PROTOCOL_VERSION_LEGACY, MCP_PROTOCOL_VERSION_STATEFUL,
    PROTOCOL_VERSION_META_KEY,
};

/// A JSON text as a value of the library.
fn json(text: &str) -> Json {
    convert(&serde_json::from_str(text).unwrap())
}

fn convert(value: &serde_json::Value) -> Json {
    match value {
        serde_json::Value::Null => Json::Null,
        serde_json::Value::Bool(b) => Json::Bool(*b),
        serde_json::Value::Number(n) => match (n.as_u64(), n.as_i64()) {
            (Some(u), _) => Json::Unsigned(u),
            (None, Some(i)) => Json::Signed(i),
            (None, None) => Json::Float(n.to_string()),
        },
        serde_json::Value::String(s) => Json::Str(s.clone()),
        serde_json::Value::Array(items) => Json::Array(items.iter().map(convert).collect()),
        serde_json::Value::Object(members) => Json::Object(
            members.iter().map(|(k, v)| (k.clone(), convert(v))).collect(),
        ),
    }
}

/// A value of the library as one that can be indexed and compared.
fn value(json: &Json) -> serde_json::Value {
    match json {
        Json::Null => serde_json::Value::Null,
        Json::Bool(b) => serde_json::Value::Bool(*b),
        Json::Unsigned(n) => serde_json::Value::from(*n),
        Json::Signed(n) => serde_json::Value::from(*n),
        Json::Float(text) => serde_json::from_str(text).unwrap(),
        Json::Str(s) => serde_json::Value::String(s.clone()),
        Json::Array(items) => serde_json::Value::Array(items.iter().map(value).collect()),
        Json::Object(members) => serde_json::Value::Object(
            members.iter().map(|(k, v)| (k.clone(), value(v))).collect(),
        ),
    }
}

/// A JSON text as a value that can be indexed and compared.
fn parsed(text: &str) -> serde_json::Value {
    serde_json::from_str(text).unwrap()
}

#[test]
fn a_spec_allocated_code_identifies_a_modern_server() {
    let envelope = json(&format!(
        r#"{{
            "jsonrpc": "2.0",
            "id": 1,
            "error": {{
                "code": {ERROR_UNSUPPORTED_PROTOCOL_VERSION},
                "message": "Unsupported protocol version",
                "data": {{"supported": ["2026-07-28", "2025-11-25"], "requested": "1900-01-01"}}
            }}
        }}"#
    ));
    let error = spec_error(&envelope).expect("a spec error");
    assert_eq!(error.code, ERROR_UNSUPPORTED_PROTOCOL_VERSION);
    assert_eq!(error.supported, ["2026-07-28", "2025-11-25"]);
    assert_eq!(error.message, "Unsupported protocol version");
}

#[test]
fn an_implementation_defined_code_is_not_a_spec_error() {
    for code in [-32000, -32019, -32601, -32603] {
        let envelope = json(&format!(r#"{{"error": {{"code": {code}, "message": "nope"}}}}"#));
        assert!(spec_error(&envelope).is_none(), "code {code}");
    }
    assert!(spec_error(&json(r#"{"result": {}}"#)).is_none());
}

#[test]
fn stateless_wins_when_a_server_offers_it() {
    let negotiated =
        negotiated_from_supported(&vec!["2025-11-25".into(), "2026-07-28".into()]).unwrap();
    assert_eq!(negotiated.version, MCP_PROTOCOL_VERSION_LATEST);
    assert!(!negotiated.stateful);
}

#[test]
fn the_newest_shared_stateful_version_is_taken_otherwise() {
    let negotiated =
        negotiated_from_supported(&vec!["2025-03-26".into(), "2025-06-18".into()]).unwrap();
    assert_eq!(
        negotiated.version, "2025-06-18",
        "a version with no mode of its own is still one we can speak"
    );
    assert!(negotiated.stateful);
    assert_eq!(negotiated_from_supported(&vec!["1900-01-01".into()]), None);
    assert_eq!(negotiated_from_supported(&vec![]), None);
}

#[test]
fn a_cache_hint_is_read_only_when_it_is_usable() {
    assert_eq!(cache_ttl(&json(r#"{"ttlMs": 3600000}"#)), Some(3600 * 1000));
    assert_eq!(cache_ttl(&json(r#"{"ttlMs": 0}"#)), None, "expires immediately");
    assert_eq!(cache_ttl(&json(r#"{"ttlMs": -5}"#)), None, "not a duration");
    assert_eq!(cache_ttl(&json("{}")), None, "an older server sends none");
}

#[test]
fn request_metadata_carries_the_fields_a_stateless_server_needs() {
    let params = value(&with_request_meta(
        json(r#"{"name": "search"}"#),
        MCP_PROTOCOL_VERSION_LATEST,
    ));
    assert_eq!(params["_meta"][CLIENT_INFO_META_KEY]["name"], parsed("\"agentyk\""));
    assert_eq!(
        params["_meta"][PROTOCOL_VERSION_META_KEY], MCP_PROTOCOL_VERSION_LATEST,
        "no handshake means the version rides on every request"
    );
    assert_eq!(
        params["_meta"][CLIENT_CAPABILITIES_META_KEY],
        parsed("{}"),
        "we support no roots, sampling, or elicitation"
    );
    assert_eq!(params["name"], "search", "arguments are untouched");
}

#[test]
fn caller_supplied_metadata_survives() {
    let params = value(&with_request_meta(
        json(r#"{"_meta": {"traceparent": "00-abc-def-01"}}"#),
        MCP_PROTOCOL_VERSION_LATEST,
    ));
    assert_eq!(params["_meta"]["traceparent"], "00-abc-def-01");
    assert_eq!(params["_meta"][PROTOCOL_VERSION_META_KEY], MCP_PROTOCOL_VERSION_LATEST);
}

#[test]
fn handshake_detection_is_conservative() {
    assert!(looks_like_handshake_required(400, "Mcp-Session-Id header required"));
    assert!(looks_like_handshake_required(400, "Unsupported protocol version"));
    assert!(looks_like_handshake_required(
        200,
        r#"{"error":{"message":"Server not initialized"}}"#
    ));
    assert!(!looks_like_handshake_required(400, "invalid arguments"));
    assert!(!looks_like_handshake_required(500, "internal server error"));
}

#[test]
fn pinned_modes_select_their_protocol_era() {
    let latest = McpProtocolMode::Latest.initial().unwrap();
    assert_eq!(latest.version, MCP_PROTOCOL_VERSION_LATEST);
    assert!(!latest.stateful);
    assert_eq!(McpProtocolMode::Latest.handshake_version(), None);

    for (mode, version) in [
        (McpProtocolMode::Stateful, MCP_PROTOCOL_VERSION_STATEFUL),
        (McpProtocolMode::Legacy, MCP_PROTOCOL_VERSION_LEGACY),
    ] {
        let negotiated = mode.initial().unwrap();
        assert_eq!(negotiated.version, version);
        assert!(negotiated.stateful);
        assert_eq!(mode.handshake_version(), Some(version));
    }
    assert!(McpProtocolMode::Auto.initial().is_none());
}

#[test]
fn a_callers_own_metadata_wins_over_ours() {
    let params = value(&with_request_meta(
        json(&format!(r#"{{"_meta": {{"{PROTOCOL_VERSION_META_KEY}": "mine"}}}}"#)),
        MCP_PROTOCOL_VERSION_LATEST,
    ));
    assert_eq!(params["_meta"][PROTOCOL_VERSION_META_KEY], "mine");
    assert_eq!(params["_meta"][CLIENT_INFO_META_KEY]["name"], "agentyk");
}

#[test]
fn the_metadata_of_a_request_is_complete() {
    let meta = value(&request_meta("v"));
    assert_eq!(meta.as_object().unwrap().len(), 3);
    assert_eq!(meta[PROTOCOL_VERSION_META_KEY], "v");
}

#[test]
fn routing_headers_name_the_version_the_method_and_the_tool() {
    let headers = routable_headers(
        &Negotiated::stateless("2026-07-28"),
        "tools/call",
        &Some("search".to_string()),
    );
    let find = |name: &str| {
        headers
            .iter()
            .find(|(header, _)| header.eq_ignore_ascii_case(name))
            .map(|(_, value)| value.as_str())
    };
    assert_eq!(find("mcp-protocol-version"), Some("2026-07-28"));
    assert_eq!(find("mcp-method"), Some("tools/call"));
    assert_eq!(find("mcp-name"), Some("search"));
}
