use agentyk::drivers::openresponses::{
    response_from, to_wire_items, wire_content, OpenResponsesDriver, OpenResponsesStream,
    OutputContent, OutputItem, StreamEvent, StreamItem, SummaryPart, WireError, WireUsage,
};
use agentyk::json::Json;
use agentyk::message::{
    ChatRequest, ChatResponse, ContentPart, Error, Message, ModelSpec, Role, ToolCall,
    ToolDefinition, Usage,
};

/// A JSON text as a value of the library.
fn json(text: &str) -> Json {
    convert(&serde_json::from_str(text).unwrap())
}

fn convert(value: &serde_json::Value) -> Json {
    match value {
        serde_json::Value::Null => Json::Null,
        serde_json::Value::Bool(b) => Json::Bool(*b),
        serde_json::Value::Number(n) => match (n.as_u64(), n.as_i64()) {
            (Some(u), _) => Json::Unsigned(u),
            (None, Some(i)) => Json::Signed(i),
            (None, None) => Json::Float(n.to_string()),
        },
        serde_json::Value::String(s) => Json::Str(s.clone()),
        serde_json::Value::Array(items) => Json::Array(items.iter().map(convert).collect()),
        serde_json::Value::Object(members) => Json::Object(
            members.iter().map(|(k, v)| (k.clone(), convert(v))).collect(),
        ),
    }
}

/// A value of the library as one that can be indexed and compared.
fn value(json: &Json) -> serde_json::Value {
    match json {
        Json::Null => serde_json::Value::Null,
        Json::Bool(b) => serde_json::Value::Bool(*b),
        Json::Unsigned(n) => serde_json::Value::from(*n),
        Json::Signed(n) => serde_json::Value::from(*n),
        Json::Float(text) => serde_json::from_str(text).unwrap(),
        Json::Str(s) => serde_json::Value::String(s.clone()),
        Json::Array(items) => serde_json::Value::Array(items.iter().map(value).collect()),
        Json::Object(members) => serde_json::Value::Object(
            members.iter().map(|(k, v)| (k.clone(), value(v))).collect(),
        ),
    }
}

fn items(message: &Message) -> Vec<serde_json::Value> {
    to_wire_items(message).iter().map(value).collect()
}

fn gpt() -> ModelSpec {
    ModelSpec::on("openai", "gpt-5.5")
}

fn request(model: ModelSpec) -> ChatRequest {
    ChatRequest::new(model, vec![Message::user("hi")])
}

fn tool(name: &str) -> ToolDefinition {
    ToolDefinition::new(name, "does a thing", json(r#"{"type": "object"}"#))
}

fn body(driver: &OpenResponsesDriver, request: &ChatRequest) -> serde_json::Value {
    value(&driver.build_body(request))
}

fn usage(input_tokens: u64, output_tokens: u64) -> WireUsage {
    WireUsage { input_tokens, output_tokens, cached_tokens: 0, reasoning_tokens: 0 }
}

fn text_item(text: &str) -> OutputItem {
    OutputItem::Message { content: vec![OutputContent::OutputText { text: text.to_string() }] }
}

fn call_item(call_id: &str, name: &str, arguments: &str) -> OutputItem {
    OutputItem::FunctionCall {
        call_id: call_id.to_string(),
        name: name.to_string(),
        arguments: arguments.to_string(),
    }
}

fn told(error: &Error) -> String {
    match error {
        Error::Driver { message, .. } => message.clone(),
        other => panic!("{other:?}"),
    }
}

#[test]
fn the_system_prompt_becomes_instructions_not_an_input_item() {
    let mut request = request(gpt());
    request.system_prompt = Some("be terse".into());
    let body = body(&OpenResponsesDriver::new(), &request);

    assert_eq!(body["instructions"], "be terse");
    assert_eq!(body["input"].as_array().unwrap().len(), 1);
    assert_eq!(body["input"][0]["role"], "user");
}

#[test]
fn tools_are_flat_rather_than_nested_under_function() {
    let mut request = request(gpt());
    request.tools = vec![tool("add")];
    let body = body(&OpenResponsesDriver::new(), &request);

    assert_eq!(body["tools"][0]["type"], "function");
    assert_eq!(body["tools"][0]["name"], "add");
    assert!(body["tools"][0]["function"].is_null());
}

#[test]
fn responses_are_not_stored_server_side_by_default() {
    let driver = OpenResponsesDriver::new();
    assert_eq!(body(&driver, &request(gpt()))["store"], false);
    assert_eq!(body(&driver.store(true), &request(gpt()))["store"], true);
}

#[test]
fn reasoning_effort_asks_for_a_summary_so_thinking_is_not_lost() {
    let body = body(&OpenResponsesDriver::new(), &request(gpt().reasoning_effort("high")));
    assert_eq!(body["reasoning"]["effort"], "high");
    assert_eq!(body["reasoning"]["summary"], "auto");
}

#[test]
fn reasoning_omitted_when_unset() {
    let body = body(&OpenResponsesDriver::new(), &request(gpt()));
    assert!(body.get("reasoning").is_none());
}

#[test]
fn effort_none_sends_no_reasoning_block() {
    let body = body(&OpenResponsesDriver::new(), &request(gpt().reasoning_effort("none")));
    assert!(body.get("reasoning").is_none());
}

#[test]
fn a_system_message_in_the_transcript_becomes_a_developer_item() {
    let mut message = Message::user("never guess");
    message.role = Role::System;

    let items = items(&message);
    assert_eq!(items.len(), 1);
    assert_eq!(items[0]["role"], "developer");
    assert_eq!(items[0]["content"], "never guess");
}

#[test]
fn a_parsed_tool_call_replays_under_the_id_the_api_expects() {
    let response = response_from(&vec![call_item("call_1", "add", "{\"a\":1}")], usage(0, 0));

    let call = items(&response.message);
    let result = items(&Message::tool_result(&response.message.tool_calls[0].id, "2"));

    assert_eq!(call[0]["call_id"], "call_1");
    assert_eq!(result[0]["call_id"], "call_1");
}

#[test]
fn a_refusal_arrives_as_answer_text() {
    let output = vec![OutputItem::Message {
        content: vec![OutputContent::Refusal { refusal: "I can't help with that.".to_string() }],
    }];
    let response = response_from(&output, usage(0, 0));
    assert_eq!(response.message.text(), "I can't help with that.");
}

#[test]
fn replayed_content_is_typed_by_direction() {
    let user = value(&wire_content(
        Role::User,
        &vec![
            ContentPart::text("what is this?"),
            ContentPart::image_url("https://example.com/cat.png"),
        ],
    ));
    assert_eq!(user[0]["type"], "input_text");
    assert_eq!(user[1]["type"], "input_image");
    assert_eq!(user[1]["image_url"], "https://example.com/cat.png");

    let assistant = value(&wire_content(
        Role::Assistant,
        &vec![
            ContentPart::text("a cat"),
            ContentPart::image_url("https://example.com/cat.png"),
        ],
    ));
    assert_eq!(assistant[0]["type"], "output_text");
}

#[test]
fn text_only_content_serializes_as_a_plain_string() {
    assert_eq!(
        wire_content(Role::User, &vec![ContentPart::text("hello")]),
        Json::text("hello")
    );
}

#[test]
fn an_assistant_turn_expands_into_message_and_function_call_items() {
    let spoke_and_called = items(&Message::assistant_with_calls(
        "on it".to_string(),
        vec![ToolCall {
            id: "call_0".into(),
            name: "add".into(),
            arguments: json(r#"{"a": 1}"#),
        }],
    ));
    assert_eq!(spoke_and_called.len(), 2);
    assert_eq!(spoke_and_called[0]["role"], "assistant");
    assert_eq!(spoke_and_called[1]["type"], "function_call");
    assert_eq!(spoke_and_called[1]["call_id"], "call_0");
    assert_eq!(spoke_and_called[1]["arguments"], "{\"a\":1}");

    let only_called = items(&Message::assistant_with_calls(
        String::new(),
        vec![ToolCall { id: "call_0".into(), name: "add".into(), arguments: json("{}") }],
    ));
    assert_eq!(only_called.len(), 1);
    assert_eq!(only_called[0]["type"], "function_call");
}

#[test]
fn a_tool_result_quotes_the_call_id_it_answers() {
    let items = items(&Message::tool_result("call_0", "42"));
    assert_eq!(items.len(), 1);
    assert_eq!(items[0]["type"], "function_call_output");
    assert_eq!(items[0]["call_id"], "call_0");
    assert_eq!(items[0]["output"], "42");
}

#[test]
fn images_in_a_tool_result_follow_as_a_user_message() {
    let message = Message::tool_result_with_parts(
        "call_0",
        "here",
        vec![ContentPart::image_base64("Zm9v", "image/png")],
    );
    let items = items(&message);
    assert_eq!(items.len(), 2);
    assert_eq!(items[0]["type"], "function_call_output");
    assert_eq!(items[1]["role"], "user");
    assert_eq!(items[1]["content"][1]["type"], "input_image");
}

#[test]
fn parse_response_reads_text_reasoning_calls_and_usage() {
    let output = vec![
        OutputItem::Reasoning {
            summary: vec![SummaryPart::SummaryText { text: "let me see".to_string() }],
        },
        text_item("done"),
        call_item("call_1", "add", "{\"a\":1}"),
    ];

    let response = response_from(&output, usage(5, 9));

    assert_eq!(response.message.text(), "done");
    assert_eq!(response.message.thinking.as_deref(), Some("let me see"));
    assert_eq!(response.message.tool_calls[0].id, "call_1");
    assert_eq!(response.message.tool_calls[0].arguments, json(r#"{"a": 1}"#));
    assert_eq!(response.usage, Usage::new(5, 9));
}

#[test]
fn parse_response_keeps_the_cache_and_reasoning_breakdown() {
    let usage = response_from(
        &vec![],
        WireUsage {
            input_tokens: 1200,
            output_tokens: 40,
            cached_tokens: 1024,
            reasoning_tokens: 32,
        },
    )
    .usage;

    assert_eq!(usage.input_tokens, 1200);
    assert_eq!(usage.cache_read_input_tokens, 1024);
    assert_eq!(usage.reasoning_tokens, 32);
}

#[test]
fn parse_response_ignores_unknown_item_types() {
    let response = response_from(&vec![OutputItem::Other, text_item("answer")], usage(0, 0));
    assert_eq!(response.message.text(), "answer");
}

fn text_delta(text: &str) -> StreamEvent {
    StreamEvent::OutputTextDelta { delta: text.to_string() }
}

fn stream_call(call_id: &str, name: &str, arguments: &str) -> StreamItem {
    StreamItem::FunctionCall {
        call_id: call_id.to_string(),
        name: name.to_string(),
        arguments: arguments.to_string(),
    }
}

fn stream(events: Vec<StreamEvent>) -> Result<(Vec<(String, String)>, ChatResponse), Error> {
    let mut stream = OpenResponsesStream::new();
    let mut deltas: Vec<(String, String)> = Vec::new();
    for event in events {
        if let Some(delta) = stream.apply(event)? {
            deltas.push((delta, stream.text().to_string()));
        }
    }
    Ok((deltas, stream.finish()))
}

#[test]
fn openresponses_streaming_reports_deltas_and_returns_the_final_message() {
    let (deltas, response) = stream(vec![
        StreamEvent::Other,
        text_delta("Hel"),
        text_delta("lo"),
        StreamEvent::Completed { usage: usage(3, 2) },
    ])
    .unwrap();

    assert_eq!(
        deltas,
        vec![("Hel".to_string(), "Hel".to_string()), ("lo".to_string(), "Hello".to_string())]
    );
    assert_eq!(response.message.text(), "Hello");
    assert_eq!(response.usage, Usage::new(3, 2));
}

#[test]
fn streaming_assembles_tool_calls_by_output_index() {
    let piece = |text: &str| StreamEvent::FunctionCallArgumentsDelta {
        output_index: 0,
        delta: text.to_string(),
    };
    let (deltas, response) = stream(vec![
        StreamEvent::OutputItemAdded { output_index: 0, item: stream_call("call_0", "add", "") },
        piece("{\"a\":"),
        piece("1}"),
        StreamEvent::OutputItemDone {
            output_index: 0,
            item: stream_call("call_0", "add", "{\"a\":1}"),
        },
    ])
    .unwrap();

    assert!(deltas.is_empty(), "tool JSON is not answer text");
    assert_eq!(response.message.tool_calls.len(), 1);
    assert_eq!(response.message.tool_calls[0].id, "call_0");
    assert_eq!(response.message.tool_calls[0].name, "add");
    assert_eq!(response.message.tool_calls[0].arguments, json(r#"{"a": 1}"#));
}

#[test]
fn streaming_falls_back_to_the_completed_item_for_arguments() {
    let (_, response) = stream(vec![StreamEvent::OutputItemDone {
        output_index: 0,
        item: stream_call("call_9", "add", "{\"a\":2}"),
    }])
    .unwrap();

    assert_eq!(response.message.tool_calls[0].id, "call_9");
    assert_eq!(response.message.tool_calls[0].arguments, json(r#"{"a": 2}"#));
}

#[test]
fn streaming_collects_the_reasoning_summary_without_polluting_the_answer() {
    let (deltas, response) = stream(vec![
        StreamEvent::ReasoningSummaryDelta { delta: "hmm".to_string() },
        text_delta("answer"),
    ])
    .unwrap();

    assert_eq!(deltas.len(), 1, "reasoning is not answer text");
    assert_eq!(deltas[0].0, "answer");
    assert_eq!(response.message.text(), "answer");
    assert_eq!(response.message.thinking.as_deref(), Some("hmm"));
}

#[test]
fn streaming_collects_gateway_plaintext_reasoning() {
    let (deltas, response) = stream(vec![
        StreamEvent::ReasoningTextDelta { delta: "User asks".to_string() },
        text_delta("answer"),
    ])
    .unwrap();

    assert_eq!(deltas.len(), 1);
    assert_eq!(deltas[0].0, "answer");
    assert_eq!(response.message.thinking.as_deref(), Some("User asks"));
}

#[test]
fn streaming_tolerates_a_chat_completions_done_sentinel() {
    assert!(OpenResponsesStream::is_terminator("[DONE]"));
    assert!(!OpenResponsesStream::is_terminator("{}"));
}

#[test]
fn streaming_surfaces_a_failure_event() {
    let error = stream(vec![
        text_delta("partial"),
        StreamEvent::Failed {
            reason: Some(WireError {
                code: Some("server_error".to_string()),
                message: "upstream gave up".to_string(),
            }),
        },
    ])
    .unwrap_err();

    assert!(told(&error).contains("upstream gave up"), "{error:?}");
    assert!(error.is_retryable(), "a server error is worth retrying");
}

#[test]
fn streaming_surfaces_an_error_event() {
    let error = stream(vec![StreamEvent::Error {
        error: WireError {
            code: Some("rate_limit".to_string()),
            message: "slow down".to_string(),
        },
    }])
    .unwrap_err();

    assert!(told(&error).contains("slow down"), "{error:?}");
}

#[test]
fn streaming_keeps_the_answer_and_usage_of_an_incomplete_response() {
    let (_, response) =
        stream(vec![text_delta("as far as"), StreamEvent::Incomplete { usage: usage(4, 8) }])
            .unwrap();

    assert_eq!(response.message.text(), "as far as");
    assert_eq!(response.usage, Usage::new(4, 8));
}

#[test]
fn streaming_ignores_unknown_event_types() {
    let (_, response) = stream(vec![StreamEvent::Other, text_delta("ok")]).unwrap();
    assert_eq!(response.message.text(), "ok");
}

#[test]
fn closing_a_call_with_its_arguments_never_doubles_them() {
    let (_, response) = stream(vec![
        StreamEvent::OutputItemAdded { output_index: 0, item: stream_call("c", "t", "") },
        StreamEvent::FunctionCallArgumentsDelta { output_index: 0, delta: "{\"a\":1}".to_string() },
        StreamEvent::FunctionCallArgumentsDone {
            output_index: 0,
            arguments: "{\"a\":1}".to_string(),
        },
        StreamEvent::OutputItemDone { output_index: 0, item: stream_call("c", "t", "{\"a\":1}") },
    ])
    .unwrap();
    assert_eq!(response.message.tool_calls[0].arguments, json(r#"{"a": 1}"#));
}

#[test]
fn a_streamed_refusal_is_answer_text() {
    let (deltas, response) =
        stream(vec![StreamEvent::RefusalDelta { delta: "no".to_string() }]).unwrap();
    assert_eq!(deltas, vec![("no".to_string(), "no".to_string())]);
    assert_eq!(response.message.text(), "no");
}

#[test]
fn streaming_is_asked_for_by_a_flag() {
    let driver = OpenResponsesDriver::new();
    let body = driver.enable_streaming(driver.build_body(&request(gpt())));
    assert_eq!(value(&body)["stream"], true);
}

#[test]
fn openresponses_streaming_gives_the_same_answer() {
    let usage = || WireUsage {
        input_tokens: 12,
        output_tokens: 7,
        cached_tokens: 4,
        reasoning_tokens: 2,
    };
    let whole = response_from(
        &vec![
            OutputItem::Reasoning {
                summary: vec![SummaryPart::SummaryText { text: "let me see".into() }],
            },
            OutputItem::Message {
                content: vec![OutputContent::OutputText { text: "one moment".into() }],
            },
            OutputItem::FunctionCall {
                call_id: "call_1".into(),
                name: "add".into(),
                arguments: "{\"a\":1}".into(),
            },
        ],
        usage(),
    );
    let (_, streamed) = stream(vec![
        StreamEvent::ReasoningSummaryDelta { delta: "let me".into() },
        StreamEvent::ReasoningSummaryDelta { delta: " see".into() },
        StreamEvent::OutputItemAdded { output_index: 2, item: stream_call("call_1", "add", "") },
        StreamEvent::OutputTextDelta { delta: "one ".into() },
        StreamEvent::FunctionCallArgumentsDelta { output_index: 2, delta: "{\"a\"".into() },
        StreamEvent::OutputTextDelta { delta: "moment".into() },
        StreamEvent::FunctionCallArgumentsDelta { output_index: 2, delta: ":1}".into() },
        StreamEvent::FunctionCallArgumentsDone {
            output_index: 2,
            arguments: "{\"a\":1}".into(),
        },
        StreamEvent::OutputItemDone {
            output_index: 2,
            item: stream_call("call_1", "add", "{\"a\":1}"),
        },
        StreamEvent::Completed { usage: usage() },
    ])
    .unwrap();
    assert_eq!(streamed.message.text(), whole.message.text());
    assert_eq!(streamed.message.thinking, whole.message.thinking);
    assert_eq!(streamed.message.tool_calls, whole.message.tool_calls);
    assert_eq!(streamed.usage, whole.usage);
}
