//! The OpenResponses protocol: a conversation is a flat list of typed items.

use vstd::prelude::*;

use crate::drivers::http;
use crate::drivers::arguments::{arguments_of, parse_arguments};
use crate::drivers::content::{address_of, image_address, is_text_only, relay_images,
    relayed_images, text_only};
use crate::drivers::slots::{ascending, put_then_get, slot_get, slot_put, Slots};
use crate::json::{items_view, jopt, json_print, jstr, opt_json, print_json, put, Json, JsonView};
use crate::message::{assistant_view, calls_view, images_of, joined_text, messages_view, parts_view,
    text_of, thinking_view, tools_view, ChatRequest, ChatResponse, ContentPart, Error,
    LlmErrorKind, Message, MessageView, PartView, Role, ToolCall, ToolCallView, ToolDefinition,
    ToolView, Usage};
use crate::text::{cat2, cat3, lower, opt_text, same, to_lower};

verus! {

/// Speaks the OpenResponses protocol.
#[derive(Debug)]
pub struct OpenResponsesDriver {
    pub store: bool,
}

// ---------------------------------------------------------------- requests

/// One content part. Text is typed by its direction: what the model produced
/// is output, anything else is input.
pub open spec fn part_entry(role: Role, part: PartView) -> JsonView {
    match part {
        PartView::Text(text) => JsonView::Object(
            seq![
                (
                    "type"@,
                    jstr(
                        if role == Role::Assistant {
                            "output_text"@
                        } else {
                            "input_text"@
                        },
                    ),
                ),
                ("text"@, jstr(text)),
            ],
        ),
        PartView::Image { url, base64, media_type } => JsonView::Object(
            seq![
                ("type"@, jstr("input_image"@)),
                ("image_url"@, jstr(image_address(url, base64, media_type))),
            ],
        ),
    }
}

/// A content: a plain string when it is text alone, an array of parts
/// otherwise.
pub open spec fn content_entry(role: Role, content: Seq<PartView>) -> JsonView {
    if text_only(content) {
        jstr(text_of(content))
    } else {
        JsonView::Array(content.map_values(|p: PartView| part_entry(role, p)))
    }
}

/// A message item.
pub open spec fn message_item(role: Seq<char>, content: JsonView) -> JsonView {
    JsonView::Object(
        seq![("type"@, jstr("message"@)), ("role"@, jstr(role)), ("content"@, content)],
    )
}

/// A function call item, its arguments as text.
pub open spec fn call_item(c: ToolCallView) -> JsonView {
    JsonView::Object(
        seq![
            ("type"@, jstr("function_call"@)),
            ("call_id"@, jstr(c.id)),
            ("name"@, jstr(c.name)),
            ("arguments"@, jstr(json_print(c.arguments))),
        ],
    )
}

/// The items of one message.
pub open spec fn message_items(m: MessageView) -> Seq<JsonView> {
    match m.role {
        Role::System => seq![message_item("developer"@, content_entry(Role::System, m.content))],
        Role::User => seq![message_item("user"@, content_entry(Role::User, m.content))],
        Role::Assistant => (if text_of(m.content).len() == 0 {
            Seq::empty()
        } else {
            seq![message_item("assistant"@, content_entry(Role::Assistant, m.content))]
        }) + m.tool_calls.map_values(|c: ToolCallView| call_item(c)),
        Role::Tool => seq![
            JsonView::Object(
                seq![
                    ("type"@, jstr("function_call_output"@)),
                    ("call_id"@, jopt(m.tool_call_id)),
                    ("output"@, jstr(text_of(m.content))),
                ],
            ),
        ] + if images_of(m.content).len() == 0 {
            Seq::empty()
        } else {
            seq![
                message_item(
                    "user"@,
                    content_entry(Role::User, relayed_images(m.content, m.tool_call_id)),
                ),
            ]
        },
    }
}

/// The items of a conversation.
pub open spec fn conversation(messages: Seq<MessageView>) -> Seq<JsonView>
    decreases messages.len(),
{
    if messages.len() == 0 {
        Seq::empty()
    } else {
        conversation(messages.drop_last()) + message_items(messages.last())
    }
}

/// What the API is told of a tool: flat, with nothing nested.
pub open spec fn tool_entry(t: ToolView) -> JsonView {
    JsonView::Object(
        seq![
            ("type"@, jstr("function"@)),
            ("name"@, jstr(t.name)),
            ("description"@, jstr(t.description)),
            ("parameters"@, t.parameters),
        ],
    )
}

/// The effort to ask for: not reasoning is asked for by saying nothing.
pub open spec fn asked_effort(effort: Option<Seq<char>>) -> Option<Seq<char>> {
    match effort {
        Some(e) if lower(e) != "none"@ => Some(e),
        _ => None,
    }
}

/// The body of a request.
pub open spec fn body_view(
    store: bool,
    model: Seq<char>,
    effort: Option<Seq<char>>,
    system: Option<Seq<char>>,
    messages: Seq<MessageView>,
    tools: Seq<ToolView>,
) -> JsonView {
    JsonView::Object(
        seq![
            ("model"@, jstr(model)),
            ("input"@, JsonView::Array(conversation(messages))),
            ("store"@, JsonView::Bool(store)),
        ] + (match system {
            Some(s) => seq![("instructions"@, jstr(s))],
            None => Seq::empty(),
        }) + (match asked_effort(effort) {
            Some(e) => seq![
                (
                    "reasoning"@,
                    JsonView::Object(
                        seq![("effort"@, jstr(e)), ("summary"@, jstr("auto"@))],
                    ),
                ),
            ],
            None => Seq::empty(),
        }) + (if tools.len() == 0 {
            Seq::empty()
        } else {
            seq![("tools"@, JsonView::Array(tools.map_values(|t: ToolView| tool_entry(t))))]
        }),
    )
}

fn part_json(role: Role, part: &ContentPart) -> (r: Json)
    ensures
        r@ == part_entry(role, part@),
{
    match part {
        ContentPart::Text(part) => {
            let kind = match role {
                Role::Assistant => "output_text",
                _ => "input_text",
            };
            Json::object2("type", Json::text(kind), "text", Json::text(part.text.as_str()))
        },
        ContentPart::Image(image) => {
            let url = address_of(image);
            Json::object2("type", Json::text("input_image"), "image_url", Json::Str(url))
        },
    }
}

/// A content: a plain string when it is text alone, an array of parts
/// otherwise.
pub fn wire_content(role: Role, content: &Vec<ContentPart>) -> (r: Json)
    ensures
        r@ == content_entry(role, parts_view(content@)),
{
    if is_text_only(content) {
        return Json::Str(joined_text(content));
    }
    let mut parts: Vec<Json> = Vec::new();
    let mut i: usize = 0;
    while i < content.len()
        invariant
            parts@.len() == i <= content@.len(),
            forall|k: int| 0 <= k < i ==> (#[trigger] parts@[k])@ == part_entry(role, content@[k]@),
        decreases content.len() - i,
    {
        parts.push(part_json(role, &content[i]));
        i += 1;
    }
    assert(items_view(parts@) =~= parts_view(content@).map_values(
        |p: PartView| part_entry(role, p),
    ));
    Json::array(parts)
}

fn message_json(role: &str, content: Json) -> (r: Json)
    ensures
        r@ == message_item(role@, content@),
{
    Json::object3("type", Json::text("message"), "role", Json::text(role), "content", content)
}

fn call_json(call: &ToolCall) -> (r: Json)
    ensures
        r@ == call_item(call@),
{
    Json::object4(
        "type",
        Json::text("function_call"),
        "call_id",
        Json::text(call.id.as_str()),
        "name",
        Json::text(call.name.as_str()),
        "arguments",
        Json::Str(print_json(&call.arguments)),
    )
}

/// The items of one message. An assistant message that only called tools has
/// no message item; the pictures of a tool result follow in a user message.
pub fn to_wire_items(message: &Message) -> (r: Vec<Json>)
    ensures
        items_view(r@) == message_items(message@),
{
    match message.role {
        Role::System => {
            let items = vec![message_json("developer", wire_content(Role::System, &message.content))];
            assert(items_view(items@) =~= message_items(message@));
            items
        },
        Role::User => {
            let items = vec![message_json("user", wire_content(Role::User, &message.content))];
            assert(items_view(items@) =~= message_items(message@));
            items
        },
        Role::Assistant => {
            let mut items: Vec<Json> = Vec::new();
            let spoken = message.text();
            if !spoken.as_str().is_empty() {
                items.push(
                    message_json("assistant", wire_content(Role::Assistant, &message.content)),
                );
            }
            let ghost base = items_view(items@);
            let ghost asks = message@.tool_calls.map_values(|c: ToolCallView| call_item(c));
            assert(base =~= if text_of(message@.content).len() == 0 {
                Seq::empty()
            } else {
                seq![message_item("assistant"@, content_entry(Role::Assistant, message@.content))]
            });
            assert(base + asks.take(0) =~= base);
            let mut i: usize = 0;
            while i < message.tool_calls.len()
                invariant
                    i <= message.tool_calls@.len(),
                    asks == message@.tool_calls.map_values(|c: ToolCallView| call_item(c)),
                    items_view(items@) == base + asks.take(i as int),
                decreases message.tool_calls.len() - i,
            {
                let ghost earlier = items@;
                let item = call_json(&message.tool_calls[i]);
                items.push(item);
                assert(items_view(items@) =~= items_view(earlier).push(item@));
                assert(asks[i as int] == item@);
                i += 1;
                assert(base + asks.take(i as int) =~= (base + asks.take(i - 1)).push(asks[i - 1]));
            }
            assert(asks.take(i as int) =~= asks);
            items
        },
        Role::Tool => {
            let mut items = vec![
                Json::object3(
                    "type",
                    Json::text("function_call_output"),
                    "call_id",
                    opt_json(&message.tool_call_id),
                    "output",
                    Json::Str(message.text()),
                ),
            ];
            if let Some(content) = relay_images(&message.content, &message.tool_call_id) {
                items.push(message_json("user", wire_content(Role::User, &content)));
            }
            assert(items_view(items@) =~= message_items(message@));
            items
        },
    }
}

fn tool_jsons(tools: &Vec<ToolDefinition>) -> (r: Vec<Json>)
    ensures
        items_view(r@) == tools_view(tools@).map_values(|t: ToolView| tool_entry(t)),
{
    let mut r: Vec<Json> = Vec::new();
    let mut i: usize = 0;
    while i < tools.len()
        invariant
            r@.len() == i <= tools@.len(),
            forall|k: int| 0 <= k < i ==> (#[trigger] r@[k])@ == tool_entry(tools@[k]@),
        decreases tools.len() - i,
    {
        let t = &tools[i];
        r.push(
            Json::object4(
                "type",
                Json::text("function"),
                "name",
                Json::text(t.name.as_str()),
                "description",
                Json::text(t.description.as_str()),
                "parameters",
                t.parameters.clone(),
            ),
        );
        i += 1;
    }
    assert(items_view(r@) =~= tools_view(tools@).map_values(|t: ToolView| tool_entry(t)));
    r
}

impl OpenResponsesDriver {
    /// The protocol, asking the service to keep nothing.
    pub fn new() -> (r: Self)
        ensures
            !r.store,
    {
        OpenResponsesDriver { store: false }
    }

    /// Whether the service should keep the response.
    pub fn store(self, store: bool) -> (r: Self)
        ensures
            r.store == store,
    {
        OpenResponsesDriver { store }
    }

    /// The body of a request.
    pub fn build_body(&self, request: &ChatRequest) -> (r: Json)
        ensures
            r@ == body_view(
                self.store,
                request.model.model@,
                request.model.effort(),
                opt_text(request.system_prompt),
                messages_view(request.messages@),
                tools_view(request.tools@),
            ),
    {
        let mut input: Vec<Json> = Vec::new();
        let ghost all = messages_view(request.messages@);
        let mut i: usize = 0;
        assert(items_view(input@) =~= conversation(all.take(0)));
        while i < request.messages.len()
            invariant
                i <= request.messages@.len(),
                all == messages_view(request.messages@),
                items_view(input@) == conversation(all.take(i as int)),
            decreases request.messages.len() - i,
        {
            let ghost before = input@;
            let mut more = to_wire_items(&request.messages[i]);
            let ghost added = more@;
            input.append(&mut more);
            assert(items_view(input@) =~= items_view(before) + items_view(added));
            assert(all.take(i as int + 1).drop_last() =~= all.take(i as int));
            i += 1;
        }
        assert(all.take(i as int) =~= all);
        let mut members: Vec<(String, Json)> = Vec::new();
        members.push(("model".to_owned(), Json::text(request.model.model.as_str())));
        members.push(("input".to_owned(), Json::array(input)));
        members.push(("store".to_owned(), Json::Bool(self.store)));
        if let Some(system) = &request.system_prompt {
            members.push(("instructions".to_owned(), Json::text(system.as_str())));
        }
        if let Some(reasoning) = &request.model.reasoning {
            if let Some(effort) = &reasoning.effort {
                let small = to_lower(effort.as_str());
                if !same(small.as_str(), "none") {
                    members.push(
                        (
                            "reasoning".to_owned(),
                            Json::object2(
                                "effort",
                                Json::text(effort.as_str()),
                                "summary",
                                Json::text("auto"),
                            ),
                        ),
                    );
                }
            }
        }
        if request.tools.len() > 0 {
            members.push(("tools".to_owned(), Json::array(tool_jsons(&request.tools))));
        }
        let r = Json::object(members);
        assert(r@->Object_0 =~= body_view(
            self.store,
            request.model.model@,
            request.model.effort(),
            opt_text(request.system_prompt),
            all,
            tools_view(request.tools@),
        )->Object_0);
        r
    }

    /// The body of a request, asking for a stream.
    pub fn enable_streaming(&self, body: Json) -> (r: Json)
        ensures
            r@ == http::member_set(body@, "stream"@, JsonView::Bool(true)),
    {
        http::with_member(body, "stream", Json::Bool(true))
    }
}

// --------------------------------------------------------------- responses

/// Token counts as the API reports them: totals, and what they hold.
#[derive(Debug, Clone, Copy, PartialEq, Eq, Structural)]
pub struct WireUsage {
    pub input_tokens: u64,
    pub output_tokens: u64,
    pub cached_tokens: u64,
    pub reasoning_tokens: u64,
}

impl WireUsage {
    /// The same counts under their common names.
    pub open spec fn usage_view(self) -> Usage {
        Usage {
            input_tokens: self.input_tokens,
            output_tokens: self.output_tokens,
            cache_read_input_tokens: self.cached_tokens,
            cache_creation_input_tokens: 0,
            reasoning_tokens: self.reasoning_tokens,
        }
    }

    /// The same counts under their common names.
    pub fn to_usage(self) -> (r: Usage)
        ensures
            r == self.usage_view(),
    {
        Usage::new(self.input_tokens, self.output_tokens).with_cache(
            self.cached_tokens,
            0,
        ).with_reasoning(self.reasoning_tokens)
    }
}

/// A part of a message item. A refusal is something the model said.
#[derive(Debug)]
pub enum OutputContent {
    OutputText { text: String },
    Refusal { refusal: String },
    /// A part of a type that is not known here.
    Other,
}

/// A part of a reasoning summary.
#[derive(Debug)]
pub enum SummaryPart {
    SummaryText { text: String },
    /// A part of a type that is not known here.
    Other,
}

/// One item of a response.
#[derive(Debug)]
pub enum OutputItem {
    Message { content: Vec<OutputContent> },
    /// A call, under the id that its answer must quote.
    FunctionCall { call_id: String, name: String, arguments: String },
    Reasoning { summary: Vec<SummaryPart> },
    /// An item of a type that is not known here.
    Other,
}

/// What the parts of a message item say, one after the other.
pub open spec fn said(content: Seq<OutputContent>) -> Seq<char>
    decreases content.len(),
{
    if content.len() == 0 {
        Seq::empty()
    } else {
        said(content.drop_last()) + (match content.last() {
            OutputContent::OutputText { text } => text@,
            OutputContent::Refusal { refusal } => refusal@,
            OutputContent::Other => Seq::empty(),
        })
    }
}

/// What the parts of a summary say, one after the other.
pub open spec fn summed_up(summary: Seq<SummaryPart>) -> Seq<char>
    decreases summary.len(),
{
    if summary.len() == 0 {
        Seq::empty()
    } else {
        summed_up(summary.drop_last()) + (match summary.last() {
            SummaryPart::SummaryText { text } => text@,
            SummaryPart::Other => Seq::empty(),
        })
    }
}

/// The answer text of a response.
pub open spec fn output_text(output: Seq<OutputItem>) -> Seq<char>
    decreases output.len(),
{
    if output.len() == 0 {
        Seq::empty()
    } else {
        output_text(output.drop_last()) + (match output.last() {
            OutputItem::Message { content } => said(content@),
            _ => Seq::empty(),
        })
    }
}

/// The reasoning of a response.
pub open spec fn output_thinking(output: Seq<OutputItem>) -> Seq<char>
    decreases output.len(),
{
    if output.len() == 0 {
        Seq::empty()
    } else {
        output_thinking(output.drop_last()) + (match output.last() {
            OutputItem::Reasoning { summary } => summed_up(summary@),
            _ => Seq::empty(),
        })
    }
}

/// The calls of a response, in order.
pub open spec fn output_calls(output: Seq<OutputItem>) -> Seq<ToolCallView>
    decreases output.len(),
{
    if output.len() == 0 {
        Seq::empty()
    } else {
        match output.last() {
            OutputItem::FunctionCall { call_id, name, arguments } => output_calls(
                output.drop_last(),
            ).push(
                ToolCallView {
                    id: call_id@,
                    name: name@,
                    arguments: arguments_of(arguments@),
                },
            ),
            _ => output_calls(output.drop_last()),
        }
    }
}

/// A message with its reasoning, if there was any. The service signs none.
pub open spec fn reasoned(message: MessageView, thinking: Seq<char>) -> MessageView {
    if thinking.len() == 0 {
        message
    } else {
        thinking_view(message, thinking, None)
    }
}

/// The message that the items of a response make.
pub open spec fn output_message(output: Seq<OutputItem>) -> MessageView {
    reasoned(assistant_view(output_text(output), output_calls(output)), output_thinking(output))
}

fn join_said(content: &Vec<OutputContent>) -> (r: String)
    ensures
        r@ == said(content@),
{
    let mut r = String::new();
    let mut i: usize = 0;
    while i < content.len()
        invariant
            i <= content@.len(),
            r@ == said(content@.take(i as int)),
        decreases content.len() - i,
    {
        assert(content@.take(i as int + 1).drop_last() =~= content@.take(i as int));
        let ghost before = r@;
        match &content[i] {
            OutputContent::OutputText { text } => {
                r.append(text.as_str());
            },
            OutputContent::Refusal { refusal } => {
                r.append(refusal.as_str());
            },
            OutputContent::Other => {
                assert(before + Seq::<char>::empty() =~= before);
            },
        }
        i += 1;
    }
    assert(content@.take(i as int) =~= content@);
    r
}

fn join_summary(summary: &Vec<SummaryPart>) -> (r: String)
    ensures
        r@ == summed_up(summary@),
{
    let mut r = String::new();
    let mut i: usize = 0;
    while i < summary.len()
        invariant
            i <= summary@.len(),
            r@ == summed_up(summary@.take(i as int)),
        decreases summary.len() - i,
    {
        assert(summary@.take(i as int + 1).drop_last() =~= summary@.take(i as int));
        let ghost before = r@;
        match &summary[i] {
            SummaryPart::SummaryText { text } => {
                r.append(text.as_str());
            },
            SummaryPart::Other => {
                assert(before + Seq::<char>::empty() =~= before);
            },
        }
        i += 1;
    }
    assert(summary@.take(i as int) =~= summary@);
    r
}

fn with_reasoning(message: Message, thinking: String) -> (r: Message)
    ensures
        r@ == reasoned(message@, thinking@),
{
    if thinking.as_str().is_empty() {
        message
    } else {
        message.with_thinking(thinking, None)
    }
}

/// Fold the items of a response into a message: its text, its calls, and the
/// summary of its reasoning.
pub fn message_from_output(output: &Vec<OutputItem>) -> (r: Message)
    ensures
        r@ == output_message(output@),
{
    let mut text = String::new();
    let mut thinking = String::new();
    let mut calls: Vec<ToolCall> = Vec::new();
    let mut i: usize = 0;
    assert(calls_view(calls@) =~= Seq::<ToolCallView>::empty());
    while i < output.len()
        invariant
            i <= output@.len(),
            text@ == output_text(output@.take(i as int)),
            thinking@ == output_thinking(output@.take(i as int)),
            calls_view(calls@) == output_calls(output@.take(i as int)),
        decreases output.len() - i,
    {
        assert(output@.take(i as int + 1).drop_last() =~= output@.take(i as int));
        let ghost before = calls_view(calls@);
        assert(text@ + Seq::<char>::empty() =~= text@);
        assert(thinking@ + Seq::<char>::empty() =~= thinking@);
        match &output[i] {
            OutputItem::Message { content } => {
                let part = join_said(content);
                text.append(part.as_str());
            },
            OutputItem::FunctionCall { call_id, name, arguments } => {
                let call = ToolCall {
                    id: call_id.clone(),
                    name: name.clone(),
                    arguments: parse_arguments(arguments.as_str()),
                };
                calls.push(call);
                assert(calls_view(calls@) =~= before.push(call@));
            },
            OutputItem::Reasoning { summary } => {
                let part = join_summary(summary);
                thinking.append(part.as_str());
            },
            OutputItem::Other => {},
        }
        i += 1;
    }
    assert(output@.take(i as int) =~= output@);
    with_reasoning(Message::assistant_with_calls(text, calls), thinking)
}

/// The answer that a decoded response holds.
pub fn response_from(output: &Vec<OutputItem>, usage: WireUsage) -> (r: ChatResponse)
    ensures
        r.message@ == output_message(output@),
        r.usage == usage.usage_view(),
{
    ChatResponse { message: message_from_output(output), usage: usage.to_usage() }
}

// --------------------------------------------------------------- streaming

/// An item of a stream, at its opening or its close.
#[derive(Debug)]
pub enum StreamItem {
    FunctionCall { call_id: String, name: String, arguments: String },
    /// An item of another type.
    Other,
}

/// An error as the service words it.
#[derive(Debug)]
pub struct WireError {
    pub code: Option<String>,
    pub message: String,
}

/// The text of an error: its code, if it has one, and its message.
pub open spec fn error_text(error: WireError) -> Seq<char> {
    match opt_text(error.code) {
        Some(code) => code + ": "@ + error.message@,
        None => error.message@,
    }
}

impl WireError {
    /// The text of the error: its code, if it has one, and its message.
    pub fn text(&self) -> (r: String)
        ensures
            r@ == error_text(*self),
    {
        match &self.code {
            Some(code) => cat3(code.as_str(), ": ", self.message.as_str()),
            None => self.message.clone(),
        }
    }
}

/// One event of a stream.
#[derive(Debug)]
pub enum StreamEvent {
    OutputTextDelta { delta: String },
    RefusalDelta { delta: String },
    ReasoningSummaryDelta { delta: String },
    ReasoningTextDelta { delta: String },
    OutputItemAdded { output_index: usize, item: StreamItem },
    OutputItemDone { output_index: usize, item: StreamItem },
    FunctionCallArgumentsDelta { output_index: usize, delta: String },
    FunctionCallArgumentsDone { output_index: usize, arguments: String },
    Completed { usage: WireUsage },
    Incomplete { usage: WireUsage },
    Failed { reason: Option<WireError> },
    Error { error: WireError },
    /// An event of a type that is not known here.
    Other,
}

/// A call that is still being received.
#[derive(Debug)]
pub struct PartialToolCall {
    call_id: String,
    name: String,
    arguments: String,
}

/// The content of a [`PartialToolCall`].
pub ghost struct PartialView {
    pub call_id: Seq<char>,
    pub name: Seq<char>,
    pub arguments: Seq<char>,
}

impl View for PartialToolCall {
    type V = PartialView;

    closed spec fn view(&self) -> PartialView {
        PartialView { call_id: self.call_id@, name: self.name@, arguments: self.arguments@ }
    }
}

/// Accumulates a streamed response into the answer that the same request
/// would get without streaming.
#[derive(Debug)]
pub struct OpenResponsesStream {
    text: String,
    thinking: String,
    calls: Slots<PartialToolCall>,
    usage: Usage,
}

/// What an [`OpenResponsesStream`] has accumulated.
pub ghost struct StreamView {
    pub text: Seq<char>,
    pub thinking: Seq<char>,
    /// The calls in ascending order of their output index.
    pub calls: Seq<(int, PartialView)>,
    pub usage: Usage,
}

impl View for OpenResponsesStream {
    type V = StreamView;

    closed spec fn view(&self) -> StreamView {
        StreamView {
            text: self.text@,
            thinking: self.thinking@,
            calls: self.calls@,
            usage: self.usage,
        }
    }
}

/// The call at an output index, empty when nothing of it was received.
pub open spec fn call_at(calls: Seq<(int, PartialView)>, index: int) -> PartialView {
    match slot_get(calls, index) {
        Some(call) => call,
        None => PartialView {
            call_id: Seq::empty(),
            name: Seq::empty(),
            arguments: Seq::empty(),
        },
    }
}

/// The text, or a fallback for an empty one.
pub open spec fn or_fallback(text: Seq<char>, fallback: Seq<char>) -> Seq<char> {
    if text.len() == 0 {
        fallback
    } else {
        text
    }
}

/// The text that an event adds to the answer.
pub open spec fn event_delta(event: StreamEvent) -> Option<Seq<char>> {
    match event {
        StreamEvent::OutputTextDelta { delta } => Some(delta@),
        StreamEvent::RefusalDelta { delta } => Some(delta@),
        _ => None,
    }
}

/// What one event makes of what was accumulated. The events that close an
/// item or its arguments repeat them whole: they fill what is still empty and
/// never add to what was received.
pub open spec fn event_step(s: StreamView, event: StreamEvent) -> StreamView {
    match event {
        StreamEvent::OutputTextDelta { delta } => StreamView { text: s.text + delta@, ..s },
        StreamEvent::RefusalDelta { delta } => StreamView { text: s.text + delta@, ..s },
        StreamEvent::ReasoningSummaryDelta { delta } => StreamView {
            thinking: s.thinking + delta@,
            ..s
        },
        StreamEvent::ReasoningTextDelta { delta } => StreamView {
            thinking: s.thinking + delta@,
            ..s
        },
        StreamEvent::OutputItemAdded { output_index, item } => match item {
            StreamItem::FunctionCall { call_id, name, arguments } => StreamView {
                calls: slot_put(
                    s.calls,
                    output_index as int,
                    PartialView {
                        call_id: call_id@,
                        name: name@,
                        arguments: call_at(s.calls, output_index as int).arguments + arguments@,
                    },
                ),
                ..s
            },
            StreamItem::Other => s,
        },
        StreamEvent::OutputItemDone { output_index, item } => match item {
            StreamItem::FunctionCall { call_id, name, arguments } => {
                let call = call_at(s.calls, output_index as int);
                StreamView {
                    calls: slot_put(
                        s.calls,
                        output_index as int,
                        PartialView {
                            call_id: or_fallback(call.call_id, call_id@),
                            name: or_fallback(call.name, name@),
                            arguments: or_fallback(call.arguments, arguments@),
                        },
                    ),
                    ..s
                }
            },
            StreamItem::Other => s,
        },
        StreamEvent::FunctionCallArgumentsDelta { output_index, delta } => {
            let call = call_at(s.calls, output_index as int);
            StreamView {
                calls: slot_put(
                    s.calls,
                    output_index as int,
                    PartialView { arguments: call.arguments + delta@, ..call },
                ),
                ..s
            }
        },
        StreamEvent::FunctionCallArgumentsDone { output_index, arguments } => {
            let call = call_at(s.calls, output_index as int);
            StreamView {
                calls: slot_put(
                    s.calls,
                    output_index as int,
                    PartialView { arguments: or_fallback(call.arguments, arguments@), ..call },
                ),
                ..s
            }
        },
        StreamEvent::Completed { usage } => StreamView { usage: usage.usage_view(), ..s },
        StreamEvent::Incomplete { usage } => StreamView { usage: usage.usage_view(), ..s },
        StreamEvent::Failed { .. } => s,
        StreamEvent::Error { .. } => s,
        StreamEvent::Other => s,
    }
}

/// What a series of events makes of what was accumulated.
pub open spec fn events_run(s: StreamView, events: Seq<StreamEvent>) -> StreamView
    decreases events.len(),
{
    if events.len() == 0 {
        s
    } else {
        event_step(events_run(s, events.drop_last()), events.last())
    }
}

/// The text deltas of a series of events, one after the other.
pub open spec fn deltas_of(events: Seq<StreamEvent>) -> Seq<char>
    decreases events.len(),
{
    if events.len() == 0 {
        Seq::empty()
    } else {
        match event_delta(events.last()) {
            Some(delta) => deltas_of(events.drop_last()) + delta,
            None => deltas_of(events.drop_last()),
        }
    }
}

/// The answer text is exactly what was handed out as deltas, in order:
/// reasoning and tool arguments never become part of it.
pub proof fn text_is_what_was_streamed(s: StreamView, events: Seq<StreamEvent>)
    ensures
        events_run(s, events).text == s.text + deltas_of(events),
    decreases events.len(),
{
    if events.len() > 0 {
        text_is_what_was_streamed(s, events.drop_last());
        let before = deltas_of(events.drop_last());
        match event_delta(events.last()) {
            Some(delta) => {
                assert((s.text + before) + delta =~= s.text + (before + delta));
            },
            None => {},
        }
    } else {
        assert(s.text + deltas_of(events) =~= s.text);
    }
}

/// An event that closes an item or its arguments never doubles what was
/// received: arguments that are already there stay as they are.
pub proof fn closing_never_doubles(s: StreamView, index: usize, event: StreamEvent)
    requires
        ascending(s.calls),
        call_at(s.calls, index as int).arguments.len() > 0,
        event is OutputItemDone || event is FunctionCallArgumentsDone,
    ensures
        call_at(event_step(s, event).calls, index as int).arguments == call_at(
            s.calls,
            index as int,
        ).arguments,
{
    let calls = event_step(s, event).calls;
    match event {
        StreamEvent::OutputItemDone { output_index, item } => {
            if item is FunctionCall {
                let value = PartialView {
                    call_id: or_fallback(
                        call_at(s.calls, output_index as int).call_id,
                        item->call_id@,
                    ),
                    name: or_fallback(call_at(s.calls, output_index as int).name, item->name@),
                    arguments: or_fallback(
                        call_at(s.calls, output_index as int).arguments,
                        item->arguments@,
                    ),
                };
                put_then_get(s.calls, output_index as int, value, index as int);
            }
        },
        StreamEvent::FunctionCallArgumentsDone { output_index, arguments } => {
            let call = call_at(s.calls, output_index as int);
            let value = PartialView {
                arguments: or_fallback(call.arguments, arguments@),
                ..call
            };
            put_then_get(s.calls, output_index as int, value, index as int);
        },
        _ => {},
    }
}

/// The call that was received.
pub open spec fn received_call(c: PartialView) -> ToolCallView {
    ToolCallView { id: c.call_id, name: c.name, arguments: arguments_of(c.arguments) }
}

/// The calls that have a name, in ascending order of their output index.
pub open spec fn received_calls(calls: Seq<(int, PartialView)>) -> Seq<ToolCallView>
    decreases calls.len(),
{
    if calls.len() == 0 {
        Seq::empty()
    } else if calls.last().1.name.len() > 0 {
        received_calls(calls.drop_last()).push(received_call(calls.last().1))
    } else {
        received_calls(calls.drop_last())
    }
}

fn fill(text: String, fallback: String) -> (r: String)
    ensures
        r@ == or_fallback(text@, fallback@),
{
    if text.as_str().is_empty() {
        fallback
    } else {
        text
    }
}

impl OpenResponsesStream {
    /// The calls are in ascending order.
    pub closed spec fn wf(&self) -> bool {
        self.calls.wf()
    }

    /// Nothing received yet.
    pub fn new() -> (r: Self)
        ensures
            r.wf(),
            r@ == (StreamView {
                text: Seq::empty(),
                thinking: Seq::empty(),
                calls: Seq::empty(),
                usage: Usage {
                    input_tokens: 0,
                    output_tokens: 0,
                    cache_read_input_tokens: 0,
                    cache_creation_input_tokens: 0,
                    reasoning_tokens: 0,
                },
            }),
    {
        OpenResponsesStream {
            text: String::new(),
            thinking: String::new(),
            calls: Slots::new(),
            usage: Usage::new(0, 0),
        }
    }

    fn take_call(&mut self, index: usize) -> (r: PartialToolCall)
        requires
            old(self).wf(),
        ensures
            final(self).wf(),
            r@ == call_at(old(self)@.calls, index as int),
            final(self)@.text == old(self)@.text,
            final(self)@.thinking == old(self)@.thinking,
            final(self)@.usage == old(self)@.usage,
            forall|value: PartialView| #[trigger]
                slot_put(final(self)@.calls, index as int, value) == slot_put(
                    old(self)@.calls,
                    index as int,
                    value,
                ),
    {
        match self.calls.take(index as u64) {
            Some(call) => call,
            None => PartialToolCall {
                call_id: String::new(),
                name: String::new(),
                arguments: String::new(),
            },
        }
    }

    /// Take in one event; returns the text it adds to the answer. An event
    /// that reports a failure of the service is an error.
    pub fn apply(&mut self, event: StreamEvent) -> (r: Result<Option<String>, Error>)
        requires
            old(self).wf(),
        ensures
            final(self).wf(),
            final(self)@ == event_step(old(self)@, event),
            match event {
                StreamEvent::Failed { reason } => r matches Err(e) && e.is_driver(
                    LlmErrorKind::ServerError,
                    "openai responses stream failed: "@ + (match reason {
                        Some(error) => error_text(error),
                        None => Seq::empty(),
                    }),
                ),
                StreamEvent::Error { error } => r matches Err(e) && e.is_driver(
                    LlmErrorKind::Unknown,
                    "openai responses stream reported an error: "@ + error_text(error),
                ),
                _ => r matches Ok(delta) && opt_text(delta) == event_delta(event),
            },
    {
        match event {
            StreamEvent::OutputTextDelta { delta } => {
                self.text.append(delta.as_str());
                Ok(Some(delta))
            },
            StreamEvent::RefusalDelta { delta } => {
                self.text.append(delta.as_str());
                Ok(Some(delta))
            },
            StreamEvent::ReasoningSummaryDelta { delta } => {
                self.thinking.append(delta.as_str());
                Ok(None)
            },
            StreamEvent::ReasoningTextDelta { delta } => {
                self.thinking.append(delta.as_str());
                Ok(None)
            },
            StreamEvent::OutputItemAdded { output_index, item } => {
                match item {
                    StreamItem::FunctionCall { call_id, name, arguments } => {
                        let mut call = self.take_call(output_index);
                        call.call_id = call_id;
                        call.name = name;
                        call.arguments.append(arguments.as_str());
                        assert(self@.calls == self.calls@);
                        self.calls.put(output_index as u64, call);
                    },
                    StreamItem::Other => {},
                }
                Ok(None)
            },
            StreamEvent::OutputItemDone { output_index, item } => {
                match item {
                    StreamItem::FunctionCall { call_id, name, arguments } => {
                        let call = self.take_call(output_index);
                        let filled = PartialToolCall {
                            call_id: fill(call.call_id, call_id),
                            name: fill(call.name, name),
                            arguments: fill(call.arguments, arguments),
                        };
                        assert(self@.calls == self.calls@);
                        self.calls.put(output_index as u64, filled);
                    },
                    StreamItem::Other => {},
                }
                Ok(None)
            },
            StreamEvent::FunctionCallArgumentsDelta { output_index, delta } => {
                let mut call = self.take_call(output_index);
                call.arguments.append(delta.as_str());
                assert(self@.calls == self.calls@);
                self.calls.put(output_index as u64, call);
                Ok(None)
            },
            StreamEvent::FunctionCallArgumentsDone { output_index, arguments } => {
                let call = self.take_call(output_index);
                let filled = PartialToolCall {
                    call_id: call.call_id,
                    name: call.name,
                    arguments: fill(call.arguments, arguments),
                };
                assert(self@.calls == self.calls@);
                self.calls.put(output_index as u64, filled);
                Ok(None)
            },
            StreamEvent::Completed { usage } => {
                self.usage = usage.to_usage();
                Ok(None)
            },
            StreamEvent::Incomplete { usage } => {
                self.usage = usage.to_usage();
                Ok(None)
            },
            StreamEvent::Failed { reason } => {
                let text = match &reason {
                    Some(error) => error.text(),
                    None => String::new(),
                };
                Err(
                    Error::driver(
                        LlmErrorKind::ServerError,
                        cat2("openai responses stream failed: ", text.as_str()),
                    ),
                )
            },
            StreamEvent::Error { error } => {
                let text = error.text();
                Err(
                    Error::driver(
                        LlmErrorKind::Unknown,
                        cat2("openai responses stream reported an error: ", text.as_str()),
                    ),
                )
            },
            StreamEvent::Other => Ok(None),
        }
    }

    /// Whether a payload closes the stream rather than being an event. Some
    /// gateways close it the way Chat Completions does.
    pub fn is_terminator(data: &str) -> (r: bool)
        ensures
            r == (data@ == "[DONE]"@),
    {
        same(data, "[DONE]")
    }

    /// The answer text so far.
    pub fn text(&self) -> (r: &str)
        ensures
            r@ == self@.text,
    {
        self.text.as_str()
    }

    /// The answer that the stream came to. A call that never got a name is
    /// left out.
    pub fn finish(self) -> (r: ChatResponse)
        ensures
            r.message@ == reasoned(
                assistant_view(self@.text, received_calls(self@.calls)),
                self@.thinking,
            ),
            r.usage == self@.usage,
    {
        let mut calls: Vec<ToolCall> = Vec::new();
        let mut i: usize = 0;
        let ghost all = self.calls@;
        assert(calls_view(calls@) =~= Seq::<ToolCallView>::empty());
        while i < self.calls.len()
            invariant
                i <= all.len(),
                all == self.calls@,
                calls_view(calls@) == received_calls(all.take(i as int)),
            decreases all.len() - i,
        {
            assert(all.take(i as int + 1).drop_last() =~= all.take(i as int));
            let ghost before = calls_view(calls@);
            let partial = self.calls.at(i);
            if !partial.name.as_str().is_empty() {
                let call = ToolCall {
                    id: partial.call_id.clone(),
                    name: partial.name.clone(),
                    arguments: parse_arguments(partial.arguments.as_str()),
                };
                calls.push(call);
                assert(calls_view(calls@) =~= before.push(call@));
            }
            i += 1;
        }
        assert(all.take(i as int) =~= all);
        let OpenResponsesStream { text, thinking, calls: _, usage } = self;
        let message = with_reasoning(Message::assistant_with_calls(text, calls), thinking);
        ChatResponse { message, usage }
    }
}

} // verus!
