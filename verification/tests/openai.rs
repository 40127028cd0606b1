use agentyk::drivers::arguments::parse_tool_call_arguments;
use agentyk::drivers::openai::{
    response_from, to_wire_message, to_wire_messages, ChatCompletion, ChoiceDelta, ChoiceMessage,
    OpenAiDriver, OpenAiStream, StreamChunk, StreamToolCall, WireFunction, WireToolCall, WireUsage,
};
use agentyk::drivers::openrouter::{OpenRouterDriver, OPENROUTER_BASE_URL};
use agentyk::json::Json;
use agentyk::message::{
    ChatRequest, ChatResponse, ContentPart, Error, LlmErrorKind, Message, ModelSpec, ToolCall,
    ToolDefinition, Usage,
};

/// A JSON text as a value of the library.
fn json(text: &str) -> Json {
    convert(&serde_json::from_str(text).unwrap())
}

fn convert(value: &serde_json::Value) -> Json {
    match value {
        serde_json::Value::Null => Json::Null,
        serde_json::Value::Bool(b) => Json::Bool(*b),
        serde_json::Value::Number(n) => match (n.as_u64(), n.as_i64()) {
            (Some(u), _) => Json::Unsigned(u),
            (None, Some(i)) => Json::Signed(i),
            (None, None) => Json::Float(n.to_string()),
        },
        serde_json::Value::String(s) => Json::Str(s.clone()),
        serde_json::Value::Array(items) => Json::Array(items.iter().map(convert).collect()),
        serde_json::Value::Object(members) => Json::Object(
            members.iter().map(|(k, v)| (k.clone(), convert(v))).collect(),
        ),
    }
}

/// A value of the library as one that can be indexed and compared.
fn value(json: &Json) -> serde_json::Value {
    match json {
        Json::Null => serde_json::Value::Null,
        Json::Bool(b) => serde_json::Value::Bool(*b),
        Json::Unsigned(n) => serde_json::Value::from(*n),
        Json::Signed(n) => serde_json::Value::from(*n),
        Json::Float(text) => serde_json::from_str(text).unwrap(),
        Json::Str(s) => serde_json::Value::String(s.clone()),
        Json::Array(items) => serde_json::Value::Array(items.iter().map(value).collect()),
        Json::Object(members) => serde_json::Value::Object(
            members.iter().map(|(k, v)| (k.clone(), value(v))).collect(),
        ),
    }
}

/// A JSON text as a value that can be indexed and compared.
fn parsed(text: &str) -> serde_json::Value {
    serde_json::from_str(text).unwrap()
}

fn gpt() -> ModelSpec {
    ModelSpec::on("openai", "gpt-5.5")
}

fn request(model: ModelSpec) -> ChatRequest {
    ChatRequest::new(model, vec![Message::user("hi")])
}

#[test]
fn arguments_parse_from_string_or_object() {
    assert_eq!(
        parse_tool_call_arguments(&Json::text("{\"a\":1}")),
        json(r#"{"a": 1}"#)
    );
    assert_eq!(parse_tool_call_arguments(&json(r#"{"a": 1}"#)), json(r#"{"a": 1}"#));
    assert_eq!(parse_tool_call_arguments(&Json::text("not json")), json("{}"));
}

#[test]
fn text_only_content_serializes_as_plain_string() {
    let message = Message::user("hello");
    let wire = value(&to_wire_message(&message));
    assert_eq!(wire["content"], "hello");
}

#[test]
fn reasoning_effort_is_forwarded_when_set() {
    let body = OpenAiDriver::new().build_body(&request(gpt().reasoning_effort("high")));
    assert_eq!(value(&body)["reasoning_effort"], "high");
}

#[test]
fn reasoning_effort_omitted_when_unset() {
    let body = OpenAiDriver::new().build_body(&request(gpt()));
    assert!(value(&body).get("reasoning_effort").is_none());
}

#[test]
fn image_content_serializes_as_content_part_array() {
    let message = Message::user_multimodal(vec![
        ContentPart::text("what is this?"),
        ContentPart::image_url("https://example.com/cat.png"),
    ]);
    let wire = value(&to_wire_message(&message));
    assert_eq!(wire["content"][0]["type"], "text");
    assert_eq!(wire["content"][1]["type"], "image_url");
    assert_eq!(wire["content"][1]["image_url"]["url"], "https://example.com/cat.png");
}

#[test]
fn assistant_tool_calls_serialize_arguments_as_string() {
    let message = Message::assistant_with_calls(
        String::new(),
        vec![ToolCall {
            id: "call_0".into(),
            name: "add".into(),
            arguments: json(r#"{"a": 1}"#),
        }],
    );
    let wire = value(&to_wire_message(&message));
    assert_eq!(wire["tool_calls"][0]["function"]["arguments"], "{\"a\":1}");
}

#[test]
fn parse_response_reads_content_calls_and_usage() {
    let completion = ChatCompletion {
        choices: vec![ChoiceMessage {
            content: Some("done".to_string()),
            tool_calls: vec![WireToolCall {
                id: "c1".to_string(),
                function: WireFunction {
                    name: "add".to_string(),
                    arguments: "{\"a\":1}".to_string(),
                },
            }],
        }],
        usage: WireUsage { prompt_tokens: 5, completion_tokens: 9 },
    };
    let response = response_from(&completion).unwrap();
    assert_eq!(response.message.text(), "done");
    assert_eq!(response.message.tool_calls[0].arguments, json(r#"{"a": 1}"#));
    assert_eq!(response.usage, Usage::new(5, 9));
}

#[test]
fn parse_response_reports_an_empty_choices_array() {
    let completion = ChatCompletion {
        choices: vec![],
        usage: WireUsage { prompt_tokens: 0, completion_tokens: 0 },
    };
    match response_from(&completion).unwrap_err() {
        Error::Driver { kind, message } => {
            assert_eq!(kind, LlmErrorKind::Unknown);
            assert!(message.contains("no choices"), "{message}");
        }
        other => panic!("{other:?}"),
    }
}

#[test]
fn the_body_holds_the_system_prompt_the_messages_and_the_tools() {
    let mut request = request(gpt());
    request.system_prompt = Some("be terse".to_string());
    request.tools = vec![ToolDefinition::new("t", "d", json(r#"{"type":"object"}"#))];
    let driver = OpenAiDriver::new();
    let body = driver.build_body(&request);
    assert_eq!(
        value(&body),
        parsed(
            r#"{
                "model": "gpt-5.5",
                "messages": [
                    {"role": "system", "content": "be terse"},
                    {"role": "user", "content": "hi"}
                ],
                "tools": [{
                    "type": "function",
                    "function": {"name": "t", "description": "d", "parameters": {"type": "object"}}
                }]
            }"#
        )
    );
    let streaming = value(&driver.enable_streaming(body));
    assert_eq!(streaming["stream"], true);
    assert_eq!(streaming["stream_options"]["include_usage"], true);
}

#[test]
fn a_key_is_optional() {
    let driver = OpenAiDriver::new();
    assert!(driver.authorize(None, &gpt()).is_empty());
    let mut model = gpt();
    model.api_key = Some("k".to_string());
    assert_eq!(
        driver.authorize(None, &model),
        vec![("Authorization".to_string(), "Bearer k".to_string())]
    );
}

#[test]
fn images_of_a_tool_result_follow_as_a_user_message() {
    let message = Message::tool_result_with_parts(
        "call_0",
        "a cat",
        vec![ContentPart::image_base64("Zm9v", "image/png")],
    );
    let wire: Vec<serde_json::Value> = to_wire_messages(&message).iter().map(value).collect();
    assert_eq!(wire.len(), 2);
    assert_eq!(wire[0]["role"], "tool");
    assert_eq!(wire[0]["content"], "a cat");
    assert_eq!(wire[0]["tool_call_id"], "call_0");
    assert_eq!(wire[1]["role"], "user");
    let image = wire[1]["content"].as_array().unwrap().last().unwrap().clone();
    assert_eq!(image["image_url"]["url"], "data:image/png;base64,Zm9v");
}

fn text_chunk(text: &str) -> StreamChunk {
    StreamChunk {
        choices: vec![ChoiceDelta { content: Some(text.to_string()), tool_calls: vec![] }],
        usage: None,
    }
}

fn call_chunk(index: usize, id: Option<&str>, name: &str, arguments: &str) -> StreamChunk {
    StreamChunk {
        choices: vec![ChoiceDelta {
            content: None,
            tool_calls: vec![StreamToolCall {
                index,
                id: id.map(str::to_string),
                function: Some(WireFunction {
                    name: name.to_string(),
                    arguments: arguments.to_string(),
                }),
            }],
        }],
        usage: None,
    }
}

fn stream(chunks: Vec<StreamChunk>) -> (Vec<(String, String)>, ChatResponse) {
    let mut stream = OpenAiStream::new();
    let mut deltas: Vec<(String, String)> = Vec::new();
    for chunk in chunks {
        if let Some(delta) = stream.apply(chunk) {
            deltas.push((delta, stream.text().to_string()));
        }
    }
    (deltas, stream.finish())
}

#[test]
fn openai_streaming_reports_deltas_and_returns_the_final_message() {
    let (deltas, response) = stream(vec![
        text_chunk("Hel"),
        text_chunk("lo"),
        StreamChunk {
            choices: vec![ChoiceDelta { content: None, tool_calls: vec![] }],
            usage: Some(WireUsage { prompt_tokens: 3, completion_tokens: 2 }),
        },
    ]);

    assert_eq!(
        deltas,
        vec![("Hel".to_string(), "Hel".to_string()), ("lo".to_string(), "Hello".to_string())]
    );
    assert_eq!(response.message.text(), "Hello");
    assert_eq!(response.usage, Usage::new(3, 2));
}

#[test]
fn streaming_assembles_tool_call_fragments_by_index() {
    let (deltas, response) = stream(vec![
        call_chunk(0, Some("call_0"), "add", ""),
        call_chunk(0, None, "", "{\"a\":"),
        call_chunk(0, None, "", "1}"),
    ]);

    assert!(deltas.is_empty(), "tool JSON is not answer text");
    assert_eq!(response.message.tool_calls.len(), 1);
    assert_eq!(response.message.tool_calls[0].id, "call_0");
    assert_eq!(response.message.tool_calls[0].name, "add");
    assert_eq!(response.message.tool_calls[0].arguments, json(r#"{"a": 1}"#));
}

#[test]
fn a_call_that_never_got_a_name_is_left_out() {
    let (_, response) = stream(vec![call_chunk(1, Some("b"), "t", "{}")]);
    assert_eq!(response.message.tool_calls.len(), 1);
    assert_eq!(response.message.tool_calls[0].id, "b");
}

#[test]
fn only_done_ends_a_stream() {
    assert!(OpenAiStream::is_terminator("[DONE]"));
    assert!(!OpenAiStream::is_terminator("[done]"));
}

#[test]
fn has_first_class_driver_id() {
    assert_eq!(OpenRouterDriver::new().id(), "openrouter");
    assert!(!OpenRouterDriver::new().inner.store);
    assert_eq!(OPENROUTER_BASE_URL, "https://openrouter.ai/api/v1");
    assert_eq!(OpenAiDriver::with_id("local").id, "local");
}

#[test]
fn openai_streaming_gives_the_same_answer() {
    let function = |name: &str, arguments: &str| WireFunction {
        name: name.into(),
        arguments: arguments.into(),
    };
    let whole = response_from(&ChatCompletion {
        choices: vec![ChoiceMessage {
            content: Some("on it".into()),
            tool_calls: vec![
                WireToolCall { id: "c1".into(), function: function("add", "{\"a\":1}") },
                WireToolCall { id: "c2".into(), function: function("now", "") },
            ],
        }],
        usage: WireUsage { prompt_tokens: 5, completion_tokens: 9 },
    })
    .unwrap();
    let chunk = |content: Option<&str>, tool_calls: Vec<StreamToolCall>| StreamChunk {
        choices: vec![ChoiceDelta { content: content.map(Into::into), tool_calls }],
        usage: None,
    };
    let (_, streamed) = stream(vec![
        chunk(Some("on "), vec![]),
        chunk(
            None,
            vec![StreamToolCall {
                index: 1,
                id: Some("c2".into()),
                function: Some(function("now", "")),
            }],
        ),
        chunk(
            Some("it"),
            vec![StreamToolCall {
                index: 0,
                id: Some("c1".into()),
                function: Some(function("add", "{\"a\"")),
            }],
        ),
        chunk(
            None,
            vec![StreamToolCall { index: 0, id: None, function: Some(function("", ":1}")) }],
        ),
        StreamChunk {
            choices: vec![],
            usage: Some(WireUsage { prompt_tokens: 5, completion_tokens: 9 }),
        },
    ]);
    assert_eq!(streamed.message.text(), whole.message.text());
    assert_eq!(streamed.message.tool_calls, whole.message.tool_calls);
    assert_eq!(streamed.usage, whole.usage);
}
