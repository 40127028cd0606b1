use agentyk::drivers::anthropic::{
    content_blocks, response_from, to_wire_messages, AnthropicDriver, AnthropicStream,
    ContentBlock, StreamBlockStart, StreamDelta, StreamEvent, WireUsage, DEFAULT_MAX_TOKENS,
};
use agentyk::json::Json;
use agentyk::message::{
    ChatRequest, ContentPart, Error, LlmErrorKind, Message, ModelSpec, ToolCall, ToolDefinition,
    Usage,
};

/// A JSON text as a value of the library.
fn json(text: &str) -> Json {
    convert(&serde_json::from_str(text).unwrap())
}

fn convert(value: &serde_json::Value) -> Json {
    match value {
        serde_json::Value::Null => Json::Null,
        serde_json::Value::Bool(b) => Json::Bool(*b),
        serde_json::Value::Number(n) => match (n.as_u64(), n.as_i64()) {
            (Some(u), _) => Json::Unsigned(u),
            (None, Some(i)) => Json::Signed(i),
            (None, None) => Json::Float(n.to_string()),
        },
        serde_json::Value::String(s) => Json::Str(s.clone()),
        serde_json::Value::Array(items) => Json::Array(items.iter().map(convert).collect()),
        serde_json::Value::Object(members) => Json::Object(
            members.iter().map(|(k, v)| (k.clone(), convert(v))).collect(),
        ),
    }
}

/// A value of the library as one that can be indexed and compared.
fn value(json: &Json) -> serde_json::Value {
    match json {
        Json::Null => serde_json::Value::Null,
        Json::Bool(b) => serde_json::Value::Bool(*b),
        Json::Unsigned(n) => serde_json::Value::from(*n),
        Json::Signed(n) => serde_json::Value::from(*n),
        Json::Float(text) => serde_json::from_str(text).unwrap(),
        Json::Str(s) => serde_json::Value::String(s.clone()),
        Json::Array(items) => serde_json::Value::Array(items.iter().map(value).collect()),
        Json::Object(members) => serde_json::Value::Object(
            members.iter().map(|(k, v)| (k.clone(), value(v))).collect(),
        ),
    }
}

/// A JSON text as a value that can be indexed and compared.
fn parsed(text: &str) -> serde_json::Value {
    serde_json::from_str(text).unwrap()
}

fn values(list: &Vec<Json>) -> Vec<serde_json::Value> {
    list.iter().map(value).collect()
}

fn opus() -> ModelSpec {
    ModelSpec::on("anthropic", "opus-x")
}

fn request(model: ModelSpec) -> ChatRequest {
    ChatRequest::new(model, vec![Message::user("hi")])
}

fn tool(name: &str) -> ToolDefinition {
    ToolDefinition::new(name, "does a thing", json(r#"{"type": "object"}"#))
}

fn call(id: &str, name: &str) -> ToolCall {
    ToolCall { id: id.to_string(), name: name.to_string(), arguments: json("{}") }
}

fn wire_usage(input_tokens: u64, output_tokens: u64) -> WireUsage {
    WireUsage {
        input_tokens,
        output_tokens,
        cache_creation_input_tokens: 0,
        cache_read_input_tokens: 0,
    }
}

#[test]
fn prompt_caching_marks_tools_system_and_the_last_two_messages() {
    let driver = AnthropicDriver::new();
    let mut request = ChatRequest::new(
        opus(),
        vec![
            Message::user("first"),
            Message::assistant("second".to_string()),
            Message::user("third"),
        ],
    );
    request.system_prompt = Some("be terse".into());
    request.tools = vec![tool("read_file"), tool("write_file")];

    let body = value(&driver.build_body(&request));

    assert_eq!(body["system"][0]["text"], "be terse");
    assert_eq!(body["system"][0]["cache_control"]["type"], "ephemeral");
    assert!(body["tools"][0]["cache_control"].is_null());
    assert_eq!(body["tools"][1]["cache_control"]["type"], "ephemeral");
    let messages = body["messages"].as_array().expect("messages");
    assert!(messages[0]["content"][0]["cache_control"].is_null());
    assert_eq!(messages[1]["content"][0]["cache_control"]["type"], "ephemeral");
    assert_eq!(messages[2]["content"][0]["cache_control"]["type"], "ephemeral");
    let markers = serde_json::to_string(&body).unwrap().matches("cache_control").count();
    assert!(markers <= 4, "{markers} breakpoints exceeds the API limit");
}

#[test]
fn a_single_message_request_still_gets_one_conversation_breakpoint() {
    let driver = AnthropicDriver::new();
    let body = value(&driver.build_body(&request(opus())));
    assert_eq!(body["messages"][0]["content"][0]["cache_control"]["type"], "ephemeral");
}

#[test]
fn caching_can_be_turned_off_for_proxies_that_reject_it() {
    let driver = AnthropicDriver::new().prompt_caching(false);
    let mut request = request(opus());
    request.system_prompt = Some("be terse".into());
    request.tools = vec![tool("read_file")];

    let body = value(&driver.build_body(&request));
    assert_eq!(body["system"], "be terse", "plain string, as before");
    assert!(!serde_json::to_string(&body).unwrap().contains("cache_control"));
}

#[test]
fn cached_tokens_are_counted_as_input_tokens() {
    let usage: Usage = WireUsage {
        input_tokens: 10,
        output_tokens: 5,
        cache_creation_input_tokens: 100,
        cache_read_input_tokens: 1000,
    }
    .to_usage();
    assert_eq!(usage.input_tokens, 1110);
    assert_eq!(usage.output_tokens, 5);
}

#[test]
fn anthropics_own_overloaded_code_is_classified_as_retryable() {
    let driver = AnthropicDriver::new();
    assert_eq!(driver.classify_status(529), LlmErrorKind::Overloaded);
    assert!(driver.classify_status(529).is_retryable());
    assert_eq!(driver.classify_status(401), LlmErrorKind::Authentication);
}

#[test]
fn missing_api_key_is_an_authentication_error() {
    let driver = AnthropicDriver::new();
    let error = driver.authorize(None, &opus()).unwrap_err();
    assert!(!error.is_retryable());
    assert!(matches!(error, Error::Driver { kind: LlmErrorKind::Authentication, .. }));
}

#[test]
fn a_key_or_a_provided_header_authorizes() {
    let driver = AnthropicDriver::new();
    let mut model = opus();
    model.api_key = Some("k".to_string());
    let headers = driver.authorize(None, &model).unwrap();
    assert!(headers.contains(&("x-api-key".to_string(), "k".to_string())));
    let given = ("authorization".to_string(), "Bearer t".to_string());
    let headers = driver.authorize(Some(given.clone()), &model).unwrap();
    assert_eq!(headers[0], given);
    assert_eq!(headers[1].0, "anthropic-version");
    assert_eq!(headers.len(), 2);
}

#[test]
fn image_content_becomes_an_image_block() {
    let messages = vec![Message::user_multimodal(vec![
        ContentPart::text("what is this?"),
        ContentPart::image_base64("Zm9v", "image/png"),
    ])];
    let wire = values(&to_wire_messages(&messages));
    assert_eq!(wire[0]["content"][0]["type"], "text");
    assert_eq!(wire[0]["content"][1]["type"], "image");
    assert_eq!(wire[0]["content"][1]["source"]["media_type"], "image/png");
    assert_eq!(wire[0]["content"][1]["source"]["data"], "Zm9v");
}

#[test]
fn an_image_by_address_names_its_url() {
    let blocks = values(&content_blocks(&vec![ContentPart::image_url("https://x/y.png")]));
    assert_eq!(
        blocks,
        vec![parsed(r#"{"type":"image","source":{"type":"url","url":"https://x/y.png"}}"#)]
    );
}

#[test]
fn tool_results_merge_into_one_user_message() {
    let messages = vec![
        Message::user("hi"),
        Message::assistant_with_calls(String::new(), vec![call("a", "one"), call("b", "two")]),
        Message::tool_result("a", "1"),
        Message::tool_result("b", "2"),
    ];
    let wire = values(&to_wire_messages(&messages));
    assert_eq!(wire.len(), 3);
    assert_eq!(wire[2]["role"], "user");
    assert_eq!(wire[2]["content"].as_array().unwrap().len(), 2);
    assert_eq!(wire[2]["content"][0]["type"], "tool_result");
}

#[test]
fn thinking_budget_enables_thinking_and_grows_max_tokens() {
    let driver = AnthropicDriver::new();
    let body = value(&driver.build_body(&request(opus().thinking_budget(12000))));
    assert_eq!(body["thinking"]["type"], "enabled");
    assert_eq!(body["thinking"]["budget_tokens"], 12000);
    assert!(body["max_tokens"].as_u64().unwrap() > 12000);
    assert_eq!(body["max_tokens"], 12000 + DEFAULT_MAX_TOKENS);
}

#[test]
fn no_thinking_param_without_a_budget() {
    let driver = AnthropicDriver::new();
    let body = value(&driver.build_body(&request(opus())));
    assert!(body.get("thinking").is_none());
    assert_eq!(body["max_tokens"], DEFAULT_MAX_TOKENS);
}

#[test]
fn the_length_of_an_answer_can_be_capped() {
    let driver = AnthropicDriver::new().max_tokens(16_000);
    let body = driver.build_body(&request(opus().thinking_budget(1000)));
    assert_eq!(value(&body)["max_tokens"], 16_000);
    assert_eq!(value(&driver.enable_streaming(body))["stream"], true);
}

#[test]
fn assistant_thinking_replays_as_a_leading_block() {
    let messages = vec![Message::assistant("the answer is 4".to_string())
        .with_thinking("2+2…".to_string(), Some("sig-xyz".into()))];
    let wire = values(&to_wire_messages(&messages));
    assert_eq!(wire[0]["content"][0]["type"], "thinking");
    assert_eq!(wire[0]["content"][0]["thinking"], "2+2…");
    assert_eq!(wire[0]["content"][0]["signature"], "sig-xyz");
    assert_eq!(wire[0]["content"][1]["type"], "text");
}

#[test]
fn assistant_without_signature_omits_the_thinking_block() {
    let messages =
        vec![Message::assistant("hi".to_string()).with_thinking("…".to_string(), None)];
    let wire = values(&to_wire_messages(&messages));
    assert_eq!(wire[0]["content"][0]["type"], "text");
}

#[test]
fn parse_response_extracts_thinking_text_calls_and_usage() {
    let content = vec![
        ContentBlock::Thinking {
            thinking: "let me see".to_string(),
            signature: Some("sig-1".to_string()),
        },
        ContentBlock::Text { text: "done".to_string() },
        ContentBlock::ToolUse {
            id: "t1".to_string(),
            name: "add".to_string(),
            input: json(r#"{"a": 1}"#),
        },
    ];
    let response = response_from(&content, wire_usage(11, 3));
    assert_eq!(response.message.text(), "done");
    assert_eq!(response.message.thinking.as_deref(), Some("let me see"));
    assert_eq!(response.message.thinking_signature.as_deref(), Some("sig-1"));
    assert_eq!(response.message.tool_calls.len(), 1);
    assert_eq!(response.message.tool_calls[0].arguments, json(r#"{"a": 1}"#));
    assert_eq!(response.usage, Usage::new(11, 3));
}

#[test]
fn parse_response_ignores_unknown_block_types() {
    let content = vec![ContentBlock::Other, ContentBlock::Text { text: "answer".to_string() }];
    let response = response_from(&content, wire_usage(0, 0));
    assert_eq!(response.message.text(), "answer");
}

fn text_delta(text: &str) -> StreamEvent {
    StreamEvent::ContentBlockDelta {
        index: 0,
        delta: StreamDelta::TextDelta { text: text.to_string() },
    }
}

/// Runs a stream, collecting what each event adds to the answer and the answer
/// so far.
fn stream(events: Vec<StreamEvent>) -> (Vec<(String, String)>, agentyk::message::ChatResponse) {
    let mut stream = AnthropicStream::new();
    let mut deltas: Vec<(String, String)> = Vec::new();
    for event in events {
        if let Some(delta) = stream.apply(event) {
            deltas.push((delta, stream.text().to_string()));
        }
    }
    (deltas, stream.finish())
}

#[test]
fn anthropic_streaming_ignores_unknown_event_types() {
    let (_, response) = stream(vec![StreamEvent::Other, text_delta("ok")]);
    assert_eq!(response.message.text(), "ok");
}

#[test]
fn streaming_reports_text_deltas_in_order_and_collects_usage() {
    let (deltas, response) = stream(vec![
        StreamEvent::MessageStart { usage: wire_usage(7, 0) },
        text_delta("Hi"),
        text_delta("!"),
        StreamEvent::MessageDelta { usage: wire_usage(0, 2) },
        StreamEvent::Other,
    ]);

    assert_eq!(
        deltas,
        vec![("Hi".to_string(), "Hi".to_string()), ("!".to_string(), "Hi!".to_string())]
    );
    assert_eq!(response.message.text(), "Hi!");
    assert_eq!(response.usage, Usage::new(7, 2));
    assert!(response.message.tool_calls.is_empty());
}

#[test]
fn streaming_assembles_tool_use_from_json_fragments() {
    let piece = |text: &str| StreamEvent::ContentBlockDelta {
        index: 0,
        delta: StreamDelta::InputJsonDelta { partial_json: text.to_string() },
    };
    let (deltas, response) = stream(vec![
        StreamEvent::ContentBlockStart {
            index: 0,
            content_block: StreamBlockStart::ToolUse {
                id: "toolu_1".to_string(),
                name: "add".to_string(),
            },
        },
        piece("{\"a\":"),
        piece("1}"),
    ]);

    assert!(deltas.is_empty(), "tool JSON is not answer text");
    assert_eq!(response.message.tool_calls.len(), 1);
    assert_eq!(response.message.tool_calls[0].id, "toolu_1");
    assert_eq!(response.message.tool_calls[0].name, "add");
    assert_eq!(response.message.tool_calls[0].arguments, json(r#"{"a": 1}"#));
}

#[test]
fn streaming_collects_thinking_without_polluting_the_answer() {
    let delta = |index: u64, delta: StreamDelta| StreamEvent::ContentBlockDelta { index, delta };
    let (deltas, response) = stream(vec![
        StreamEvent::ContentBlockStart { index: 0, content_block: StreamBlockStart::Other },
        delta(0, StreamDelta::ThinkingDelta { thinking: "hmm".to_string() }),
        delta(0, StreamDelta::SignatureDelta { signature: "sig-stream".to_string() }),
        delta(1, StreamDelta::TextDelta { text: "answer".to_string() }),
    ]);

    assert_eq!(deltas, vec![("answer".to_string(), "answer".to_string())]);
    assert_eq!(response.message.text(), "answer");
    assert_eq!(response.message.thinking.as_deref(), Some("hmm"));
    assert_eq!(response.message.thinking_signature.as_deref(), Some("sig-stream"));
}

#[test]
fn streamed_cached_tokens_are_counted_as_input_tokens() {
    let (_, response) = stream(vec![StreamEvent::MessageStart {
        usage: WireUsage {
            input_tokens: 10,
            output_tokens: 0,
            cache_creation_input_tokens: 100,
            cache_read_input_tokens: 1000,
        },
    }]);
    assert_eq!(response.usage.input_tokens, 1110);
}

#[test]
fn streamed_calls_come_out_by_their_index() {
    let start = |index: u64, id: &str| StreamEvent::ContentBlockStart {
        index,
        content_block: StreamBlockStart::ToolUse { id: id.to_string(), name: "t".to_string() },
    };
    let (_, response) = stream(vec![start(2, "second"), start(1, "first")]);
    let ids: Vec<&str> = response.message.tool_calls.iter().map(|c| c.id.as_str()).collect();
    assert_eq!(ids, vec!["first", "second"]);
    assert_eq!(response.message.tool_calls[0].arguments, json("{}"));
}

#[test]
fn anthropic_streaming_gives_the_same_answer() {
    let usage = WireUsage {
        input_tokens: 5,
        output_tokens: 9,
        cache_creation_input_tokens: 2,
        cache_read_input_tokens: 3,
    };
    let whole = response_from(
        &vec![
            ContentBlock::Thinking {
                thinking: "let me see".into(),
                signature: Some("sig-1".into()),
            },
            ContentBlock::Text { text: "one moment".into() },
            ContentBlock::ToolUse {
                id: "t1".into(),
                name: "add".into(),
                input: json(r#"{"a": 1}"#),
            },
            ContentBlock::ToolUse { id: "t2".into(), name: "now".into(), input: json("{}") },
        ],
        usage,
    );
    let text = |index: u64, text: &str| StreamEvent::ContentBlockDelta {
        index,
        delta: StreamDelta::TextDelta { text: text.into() },
    };
    let thinking = |thinking: &str| StreamEvent::ContentBlockDelta {
        index: 0,
        delta: StreamDelta::ThinkingDelta { thinking: thinking.into() },
    };
    let input = |index: u64, partial_json: &str| StreamEvent::ContentBlockDelta {
        index,
        delta: StreamDelta::InputJsonDelta { partial_json: partial_json.into() },
    };
    let opened = |index: u64, id: &str, name: &str| StreamEvent::ContentBlockStart {
        index,
        content_block: StreamBlockStart::ToolUse { id: id.into(), name: name.into() },
    };
    let (_, streamed) = stream(vec![
        StreamEvent::MessageStart {
            usage: WireUsage {
                input_tokens: 5,
                output_tokens: 1,
                cache_creation_input_tokens: 2,
                cache_read_input_tokens: 3,
            },
        },
        thinking("let me"),
        thinking(" see"),
        StreamEvent::ContentBlockDelta {
            index: 0,
            delta: StreamDelta::SignatureDelta { signature: "sig-1".into() },
        },
        text(1, "one "),
        opened(3, "t2", "now"),
        opened(2, "t1", "add"),
        input(2, "{\"a\""),
        text(1, "moment"),
        input(2, ": 1}"),
        StreamEvent::MessageDelta {
            usage: WireUsage {
                input_tokens: 0,
                output_tokens: 9,
                cache_creation_input_tokens: 0,
                cache_read_input_tokens: 0,
            },
        },
        StreamEvent::Other,
    ]);
    assert_eq!(streamed.message.text(), whole.message.text());
    assert_eq!(streamed.message.thinking, whole.message.thinking);
    assert_eq!(streamed.message.thinking_signature, whole.message.thinking_signature);
    assert_eq!(streamed.message.tool_calls, whole.message.tool_calls);
    assert_eq!(streamed.usage, whole.usage);
}
