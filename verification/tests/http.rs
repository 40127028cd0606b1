use agentyk::drivers::http::{
    classify_status, decode_error, endpoint_url, network_error, request_headers, status_error,
    with_member,
};
use agentyk::json::Json;
use agentyk::message::{ChatRequest, Error, LlmErrorKind, Message, ModelSpec};

fn request(base_url: Option<&str>) -> ChatRequest {
    let mut request = ChatRequest::new(
        ModelSpec::on("some-gateway", "m"),
        vec![Message::user("hi")],
    );
    request.endpoint.base_url = base_url.map(str::to_string);
    request
}

fn told(error: Error) -> (LlmErrorKind, String) {
    match error {
        Error::Driver { kind, message } => (kind, message),
        other => panic!("{other:?}"),
    }
}

#[test]
fn the_url_is_the_providers_base_plus_the_protocols_path() {
    assert_eq!(
        endpoint_url("test", "/v1/chat", &request(Some("https://gateway.internal"))).unwrap(),
        "https://gateway.internal/v1/chat"
    );
}

#[test]
fn a_provider_with_no_base_url_fails_naming_itself() {
    let error = endpoint_url("test", "/v1/chat", &request(None)).unwrap_err();

    let (kind, message) = told(error);
    assert_eq!(kind, LlmErrorKind::InvalidRequest);
    assert!(message.contains("some-gateway"), "{message}");
    assert!(message.contains("Provider::base_url"), "{message}");
}

#[test]
fn the_default_classification_splits_retryable_from_terminal() {
    assert_eq!(classify_status(401), LlmErrorKind::Authentication);
    assert_eq!(classify_status(429), LlmErrorKind::RateLimited);
    assert_eq!(classify_status(503), LlmErrorKind::Overloaded);
    assert_eq!(classify_status(400), LlmErrorKind::InvalidRequest);
    assert_eq!(classify_status(500), LlmErrorKind::ServerError);
    assert!(classify_status(429).is_retryable());
    assert!(!classify_status(401).is_retryable());
}

#[test]
fn failures_say_what_failed() {
    let (kind, message) = told(network_error("openai", "request failed", true, "deadline"));
    assert_eq!(kind, LlmErrorKind::Timeout);
    assert!(message.contains("deadline"), "{message}");
    let (kind, _) = told(network_error("openai", "request failed", false, "reset"));
    assert_eq!(kind, LlmErrorKind::Network);
    assert_eq!(
        told(decode_error("openai", "missing field")),
        (
            LlmErrorKind::Unknown,
            "openai response did not match the expected shape: missing field".to_string()
        )
    );
    let payload = Json::object1("error", Json::text("no \"x\""));
    assert_eq!(
        told(status_error("gateway", LlmErrorKind::RateLimited, "429 Too Many Requests", &payload)),
        (
            LlmErrorKind::RateLimited,
            "gateway http 429 Too Many Requests: {\"error\":\"no \\\"x\\\"\"}".to_string()
        )
    );
}

#[test]
fn the_endpoints_headers_follow_the_protocols() {
    let mut request = request(None);
    request.endpoint.headers.push(("x-b".to_string(), "2".to_string()));
    let headers = request_headers(&vec![("x-a".to_string(), "1".to_string())], &request);
    assert_eq!(
        headers,
        vec![("x-a".to_string(), "1".to_string()), ("x-b".to_string(), "2".to_string())]
    );
}

#[test]
fn a_member_is_set_in_place() {
    let body = Json::object2("a", Json::Unsigned(1), "b", Json::Null);
    let body = with_member(body, "a", Json::Bool(true));
    assert_eq!(body, Json::object2("a", Json::Bool(true), "b", Json::Null));
    assert_eq!(
        with_member(Json::Null, "a", Json::Null),
        Json::Object(vec![("a".to_string(), Json::Null)])
    );
    assert_eq!(with_member(Json::Bool(true), "a", Json::Null), Json::Bool(true));
}
