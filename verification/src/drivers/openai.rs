//! The OpenAI Chat Completions protocol, which many services speak.

use vstd::prelude::*;

use crate::drivers::http;
use crate::drivers::arguments::{arguments_of, parse_arguments};
use crate::drivers::content::{address_of, image_address, is_text_only, relay_images,
    relayed_images, text_only};
use crate::json::{items_view, jopt, json_print, jstr, opt_json, print_json, Json, JsonView};
use crate::message::{assistant_view, calls_view, images_of, joined_text, messages_view, parts_view,
    text_of, tools_view, ChatRequest, ChatResponse, ContentPart, Error, LlmErrorKind, Message,
    MessageView, ModelSpec, PartView, Role, ToolCall, ToolCallView, ToolDefinition, ToolView,
    Usage};
use crate::text::{cat2, opt_text, or_else, same, text_pairs};

verus! {

/// The service's own address.
pub const OPENAI_BASE_URL: &'static str = "https://api.openai.com/v1";

/// Speaks the Chat Completions protocol under a driver id of its own.
#[derive(Debug)]
pub struct OpenAiDriver {
    pub id: String,
}

// ---------------------------------------------------------------- requests

/// One content part.
pub open spec fn part_entry(part: PartView) -> JsonView {
    match part {
        PartView::Text(text) => JsonView::Object(
            seq![("type"@, jstr("text"@)), ("text"@, jstr(text))],
        ),
        PartView::Image { url, base64, media_type } => JsonView::Object(
            seq![
                ("type"@, jstr("image_url"@)),
                (
                    "image_url"@,
                    JsonView::Object(
                        seq![("url"@, jstr(image_address(url, base64, media_type)))],
                    ),
                ),
            ],
        ),
    }
}

/// A content: a plain string when it is text alone, an array of parts
/// otherwise.
pub open spec fn content_entry(content: Seq<PartView>) -> JsonView {
    if text_only(content) {
        jstr(text_of(content))
    } else {
        JsonView::Array(content.map_values(|p: PartView| part_entry(p)))
    }
}

/// One call that an assistant message asks for, its arguments as text.
pub open spec fn call_entry(c: ToolCallView) -> JsonView {
    JsonView::Object(
        seq![
            ("id"@, jstr(c.id)),
            ("type"@, jstr("function"@)),
            (
                "function"@,
                JsonView::Object(
                    seq![("name"@, jstr(c.name)), ("arguments"@, jstr(json_print(c.arguments)))],
                ),
            ),
        ],
    )
}

/// A message of a role with its content.
pub open spec fn role_entry(role: Seq<char>, content: JsonView) -> Seq<(Seq<char>, JsonView)> {
    seq![("role"@, jstr(role)), ("content"@, content)]
}

/// The wire message of one message.
pub open spec fn message_entry(m: MessageView) -> JsonView {
    match m.role {
        Role::System => JsonView::Object(role_entry("system"@, content_entry(m.content))),
        Role::User => JsonView::Object(role_entry("user"@, content_entry(m.content))),
        Role::Assistant => JsonView::Object(
            role_entry("assistant"@, content_entry(m.content)) + if m.tool_calls.len() == 0 {
                Seq::empty()
            } else {
                seq![
                    (
                        "tool_calls"@,
                        JsonView::Array(m.tool_calls.map_values(|c: ToolCallView| call_entry(c))),
                    ),
                ]
            },
        ),
        Role::Tool => JsonView::Object(
            seq![
                ("role"@, jstr("tool"@)),
                ("tool_call_id"@, jopt(m.tool_call_id)),
                ("content"@, jstr(text_of(m.content))),
            ],
        ),
    }
}

/// The wire messages of one message: a tool result carries text alone, so its
/// pictures follow in a user message.
pub open spec fn message_entries(m: MessageView) -> Seq<JsonView> {
    seq![message_entry(m)] + if m.role == Role::Tool && images_of(m.content).len() > 0 {
        seq![
            JsonView::Object(
                role_entry("user"@, content_entry(relayed_images(m.content, m.tool_call_id))),
            ),
        ]
    } else {
        Seq::empty()
    }
}

/// The wire messages of a conversation.
pub open spec fn conversation(messages: Seq<MessageView>) -> Seq<JsonView>
    decreases messages.len(),
{
    if messages.len() == 0 {
        Seq::empty()
    } else {
        conversation(messages.drop_last()) + message_entries(messages.last())
    }
}

/// What the API is told of a tool.
pub open spec fn tool_entry(t: ToolView) -> JsonView {
    JsonView::Object(
        seq![
            ("type"@, jstr("function"@)),
            (
                "function"@,
                JsonView::Object(
                    seq![
                        ("name"@, jstr(t.name)),
                        ("description"@, jstr(t.description)),
                        ("parameters"@, t.parameters),
                    ],
                ),
            ),
        ],
    )
}

/// The body of a request.
pub open spec fn body_view(
    model: Seq<char>,
    effort: Option<Seq<char>>,
    system: Option<Seq<char>>,
    messages: Seq<MessageView>,
    tools: Seq<ToolView>,
) -> JsonView {
    let opening: Seq<JsonView> = match system {
        Some(s) => seq![JsonView::Object(role_entry("system"@, jstr(s)))],
        None => Seq::empty(),
    };
    JsonView::Object(
        seq![
            ("model"@, jstr(model)),
            ("messages"@, JsonView::Array(opening + conversation(messages))),
        ] + (match effort {
            Some(e) => seq![("reasoning_effort"@, jstr(e))],
            None => Seq::empty(),
        }) + (if tools.len() == 0 {
            Seq::empty()
        } else {
            seq![("tools"@, JsonView::Array(tools.map_values(|t: ToolView| tool_entry(t))))]
        }),
    )
}

fn part_json(part: &ContentPart) -> (r: Json)
    ensures
        r@ == part_entry(part@),
{
    match part {
        ContentPart::Text(part) => Json::object2(
            "type",
            Json::text("text"),
            "text",
            Json::text(part.text.as_str()),
        ),
        ContentPart::Image(image) => {
            let url = address_of(image);
            Json::object2(
                "type",
                Json::text("image_url"),
                "image_url",
                Json::object1("url", Json::Str(url)),
            )
        },
    }
}

/// A content: a plain string when it is text alone, an array of parts
/// otherwise.
pub fn wire_content(content: &Vec<ContentPart>) -> (r: Json)
    ensures
        r@ == content_entry(parts_view(content@)),
{
    if is_text_only(content) {
        return Json::Str(joined_text(content));
    }
    let mut parts: Vec<Json> = Vec::new();
    let mut i: usize = 0;
    while i < content.len()
        invariant
            parts@.len() == i <= content@.len(),
            forall|k: int| 0 <= k < i ==> (#[trigger] parts@[k])@ == part_entry(content@[k]@),
        decreases content.len() - i,
    {
        parts.push(part_json(&content[i]));
        i += 1;
    }
    assert(items_view(parts@) =~= parts_view(content@).map_values(|p: PartView| part_entry(p)));
    Json::array(parts)
}

fn call_jsons(calls: &Vec<ToolCall>) -> (r: Vec<Json>)
    ensures
        items_view(r@) == calls_view(calls@).map_values(|c: ToolCallView| call_entry(c)),
{
    let mut r: Vec<Json> = Vec::new();
    let mut i: usize = 0;
    while i < calls.len()
        invariant
            r@.len() == i <= calls@.len(),
            forall|k: int| 0 <= k < i ==> (#[trigger] r@[k])@ == call_entry(calls@[k]@),
        decreases calls.len() - i,
    {
        let call = &calls[i];
        r.push(
            Json::object3(
                "id",
                Json::text(call.id.as_str()),
                "type",
                Json::text("function"),
                "function",
                Json::object2(
                    "name",
                    Json::text(call.name.as_str()),
                    "arguments",
                    Json::Str(print_json(&call.arguments)),
                ),
            ),
        );
        i += 1;
    }
    assert(items_view(r@) =~= calls_view(calls@).map_values(|c: ToolCallView| call_entry(c)));
    r
}

fn role_json(role: &str, content: Json) -> (r: Json)
    ensures
        r@ == JsonView::Object(role_entry(role@, content@)),
{
    Json::object2("role", Json::text(role), "content", content)
}

/// The wire message of one message.
pub fn to_wire_message(message: &Message) -> (r: Json)
    ensures
        r@ == message_entry(message@),
{
    match message.role {
        Role::System => role_json("system", wire_content(&message.content)),
        Role::User => role_json("user", wire_content(&message.content)),
        Role::Assistant => {
            let content = wire_content(&message.content);
            let r = if message.tool_calls.len() == 0 {
                role_json("assistant", content)
            } else {
                Json::object3(
                    "role",
                    Json::text("assistant"),
                    "content",
                    content,
                    "tool_calls",
                    Json::array(call_jsons(&message.tool_calls)),
                )
            };
            assert(r@->Object_0 =~= message_entry(message@)->Object_0);
            r
        },
        Role::Tool => Json::object3(
            "role",
            Json::text("tool"),
            "tool_call_id",
            opt_json(&message.tool_call_id),
            "content",
            Json::Str(message.text()),
        ),
    }
}

/// The wire messages of one message: almost always one. The pictures of a tool
/// result follow in a user message, for a `tool` message takes text alone.
pub fn to_wire_messages(message: &Message) -> (r: Vec<Json>)
    ensures
        items_view(r@) == message_entries(message@),
{
    let mut wire = vec![to_wire_message(message)];
    match message.role {
        Role::Tool => {
            if let Some(content) = relay_images(&message.content, &message.tool_call_id) {
                wire.push(role_json("user", wire_content(&content)));
            }
        },
        _ => {},
    }
    assert(items_view(wire@) =~= message_entries(message@));
    wire
}

fn tool_jsons(tools: &Vec<ToolDefinition>) -> (r: Vec<Json>)
    ensures
        items_view(r@) == tools_view(tools@).map_values(|t: ToolView| tool_entry(t)),
{
    let mut r: Vec<Json> = Vec::new();
    let mut i: usize = 0;
    while i < tools.len()
        invariant
            r@.len() == i <= tools@.len(),
            forall|k: int| 0 <= k < i ==> (#[trigger] r@[k])@ == tool_entry(tools@[k]@),
        decreases tools.len() - i,
    {
        let t = &tools[i];
        r.push(
            Json::object2(
                "type",
                Json::text("function"),
                "function",
                Json::object3(
                    "name",
                    Json::text(t.name.as_str()),
                    "description",
                    Json::text(t.description.as_str()),
                    "parameters",
                    t.parameters.clone(),
                ),
            ),
        );
        i += 1;
    }
    assert(items_view(r@) =~= tools_view(tools@).map_values(|t: ToolView| tool_entry(t)));
    r
}

impl OpenAiDriver {
    /// A driver registered as `openai`.
    pub fn new() -> (r: Self)
        ensures
            r.id@ == "openai"@,
    {
        OpenAiDriver::with_id("openai")
    }

    /// The same protocol under another driver id.
    pub fn with_id(id: &str) -> (r: Self)
        ensures
            r.id@ == id@,
    {
        OpenAiDriver { id: id.to_owned() }
    }

    /// The body of a request.
    pub fn build_body(&self, request: &ChatRequest) -> (r: Json)
        ensures
            r@ == body_view(
                request.model.model@,
                request.model.effort(),
                opt_text(request.system_prompt),
                messages_view(request.messages@),
                tools_view(request.tools@),
            ),
    {
        let mut messages: Vec<Json> = Vec::new();
        if let Some(system) = &request.system_prompt {
            messages.push(role_json("system", Json::text(system.as_str())));
        }
        let ghost opening: Seq<JsonView> = match opt_text(request.system_prompt) {
            Some(s) => seq![JsonView::Object(role_entry("system"@, jstr(s)))],
            None => Seq::empty(),
        };
        let ghost all = messages_view(request.messages@);
        let mut i: usize = 0;
        assert(items_view(messages@) =~= opening + conversation(all.take(0)));
        while i < request.messages.len()
            invariant
                i <= request.messages@.len(),
                all == messages_view(request.messages@),
                items_view(messages@) == opening + conversation(all.take(i as int)),
            decreases request.messages.len() - i,
        {
            let ghost before = messages@;
            let mut more = to_wire_messages(&request.messages[i]);
            let ghost added = more@;
            messages.append(&mut more);
            proof {
                assert(items_view(messages@) =~= items_view(before) + items_view(added));
                assert(all.take(i as int + 1).drop_last() =~= all.take(i as int));
                assert((opening + conversation(all.take(i as int))) + items_view(added) =~= opening
                    + (conversation(all.take(i as int)) + items_view(added)));
            }
            i += 1;
        }
        assert(all.take(i as int) =~= all);
        let mut members: Vec<(String, Json)> = Vec::new();
        members.push(("model".to_owned(), Json::text(request.model.model.as_str())));
        members.push(("messages".to_owned(), Json::array(messages)));
        if let Some(reasoning) = &request.model.reasoning {
            if let Some(effort) = &reasoning.effort {
                members.push(("reasoning_effort".to_owned(), Json::text(effort.as_str())));
            }
        }
        if request.tools.len() > 0 {
            members.push(("tools".to_owned(), Json::array(tool_jsons(&request.tools))));
        }
        let r = Json::object(members);
        assert(r@->Object_0 =~= body_view(
            request.model.model@,
            request.model.effort(),
            opt_text(request.system_prompt),
            all,
            tools_view(request.tools@),
        )->Object_0);
        r
    }

    /// The body of a request, asking for a stream that ends with the usage.
    pub fn enable_streaming(&self, body: Json) -> (r: Json)
        ensures
            r@ == http::member_set(
                http::member_set(body@, "stream"@, JsonView::Bool(true)),
                "stream_options"@,
                JsonView::Object(seq![("include_usage"@, JsonView::Bool(true))]),
            ),
    {
        let body = http::with_member(body, "stream", Json::Bool(true));
        http::with_member(
            body,
            "stream_options",
            Json::object1("include_usage", Json::Bool(true)),
        )
    }

    /// The headers that authenticate a request: the one a provider resolved,
    /// or else the key of the model. A key is optional, for local services
    /// need none.
    pub fn authorize(&self, provided: Option<(String, String)>, model: &ModelSpec) -> (r: Vec<
        (String, String),
    >)
        ensures
            text_pairs(r@) == (match (provided, model.api_key) {
                (Some(header), _) => seq![(header.0@, header.1@)],
                (None, Some(key)) => seq![("Authorization"@, "Bearer "@ + key@)],
                (None, None) => Seq::empty(),
            }),
    {
        let mut headers: Vec<(String, String)> = Vec::new();
        match provided {
            Some(header) => {
                headers.push(header);
            },
            None => {
                if let Some(key) = &model.api_key {
                    headers.push(("Authorization".to_owned(), cat2("Bearer ", key.as_str())));
                }
            },
        }
        assert(text_pairs(headers@) =~= (match (provided, model.api_key) {
            (Some(header), _) => seq![(header.0@, header.1@)],
            (None, Some(key)) => seq![("Authorization"@, "Bearer "@ + key@)],
            (None, None) => Seq::empty(),
        }));
        headers
    }
}

// --------------------------------------------------------------- responses

/// Token counts as the API reports them.
#[derive(Debug, Clone, Copy, PartialEq, Eq, Structural)]
pub struct WireUsage {
    pub prompt_tokens: u64,
    pub completion_tokens: u64,
}

impl WireUsage {
    /// The same counts under their common names.
    pub open spec fn usage_view(self) -> Usage {
        Usage {
            input_tokens: self.prompt_tokens,
            output_tokens: self.completion_tokens,
            cache_read_input_tokens: 0,
            cache_creation_input_tokens: 0,
            reasoning_tokens: 0,
        }
    }

    /// The same counts under their common names.
    pub fn to_usage(self) -> (r: Usage)
        ensures
            r == self.usage_view(),
    {
        Usage::new(self.prompt_tokens, self.completion_tokens)
    }
}

/// The function that a call names, its arguments as text.
#[derive(Debug)]
pub struct WireFunction {
    pub name: String,
    pub arguments: String,
}

/// A call of a response.
#[derive(Debug)]
pub struct WireToolCall {
    pub id: String,
    pub function: WireFunction,
}

/// What one choice of a response says.
#[derive(Debug)]
pub struct ChoiceMessage {
    pub content: Option<String>,
    pub tool_calls: Vec<WireToolCall>,
}

/// A response.
#[derive(Debug)]
pub struct ChatCompletion {
    pub choices: Vec<ChoiceMessage>,
    pub usage: WireUsage,
}

/// The call that a wire call stands for.
pub open spec fn wire_call(c: WireToolCall) -> ToolCallView {
    ToolCallView {
        id: c.id@,
        name: c.function.name@,
        arguments: arguments_of(c.function.arguments@),
    }
}

/// The message that a choice stands for.
pub open spec fn choice_message(choice: ChoiceMessage) -> MessageView {
    assistant_view(
        or_else(opt_text(choice.content), Seq::empty()),
        choice.tool_calls@.map_values(|c: WireToolCall| wire_call(c)),
    )
}

fn choice_to_message(choice: &ChoiceMessage) -> (r: Message)
    ensures
        r@ == choice_message(*choice),
{
    let text = match &choice.content {
        Some(content) => content.clone(),
        None => String::new(),
    };
    let mut calls: Vec<ToolCall> = Vec::new();
    let mut i: usize = 0;
    while i < choice.tool_calls.len()
        invariant
            calls@.len() == i <= choice.tool_calls@.len(),
            forall|k: int| 0 <= k < i ==> (#[trigger] calls@[k])@ == wire_call(choice.tool_calls@[k]),
        decreases choice.tool_calls.len() - i,
    {
        let call = &choice.tool_calls[i];
        calls.push(
            ToolCall {
                id: call.id.clone(),
                name: call.function.name.clone(),
                arguments: parse_arguments(call.function.arguments.as_str()),
            },
        );
        i += 1;
    }
    assert(calls_view(calls@) =~= choice.tool_calls@.map_values(|c: WireToolCall| wire_call(c)));
    Message::assistant_with_calls(text, calls)
}

/// The answer that a decoded response holds: its first choice. A response
/// without any choice is a failure, not an empty answer.
pub fn response_from(completion: &ChatCompletion) -> (r: Result<ChatResponse, Error>)
    ensures
        if completion.choices@.len() == 0 {
            r matches Err(e) && e.is_driver(
                LlmErrorKind::Unknown,
                "openai returned a completion with no choices"@,
            )
        } else {
            r matches Ok(response) && response.message@ == choice_message(completion.choices@[0])
                && response.usage == completion.usage.usage_view()
        },
{
    if completion.choices.len() == 0 {
        return Err(
            Error::driver(
                LlmErrorKind::Unknown,
                "openai returned a completion with no choices".to_owned(),
            ),
        );
    }
    Ok(
        ChatResponse {
            message: choice_to_message(&completion.choices[0]),
            usage: completion.usage.to_usage(),
        },
    )
}

// --------------------------------------------------------------- streaming

/// A fragment of a call.
#[derive(Debug)]
pub struct StreamToolCall {
    /// Which call of the batch the fragment belongs to.
    pub index: usize,
    pub id: Option<String>,
    pub function: Option<WireFunction>,
}

/// What one choice of a chunk adds.
#[derive(Debug)]
pub struct ChoiceDelta {
    pub content: Option<String>,
    pub tool_calls: Vec<StreamToolCall>,
}

/// One chunk of a stream.
#[derive(Debug)]
pub struct StreamChunk {
    pub choices: Vec<ChoiceDelta>,
    pub usage: Option<WireUsage>,
}

/// A call that is still being received.
#[derive(Debug)]
pub struct PartialToolCall {
    id: String,
    name: String,
    arguments: String,
}

/// The content of a [`PartialToolCall`].
pub ghost struct PartialView {
    pub id: Seq<char>,
    pub name: Seq<char>,
    pub arguments: Seq<char>,
}

impl View for PartialToolCall {
    type V = PartialView;

    closed spec fn view(&self) -> PartialView {
        PartialView { id: self.id@, name: self.name@, arguments: self.arguments@ }
    }
}

/// Accumulates a streamed response into the answer that the same request
/// would get without streaming.
#[derive(Debug)]
pub struct OpenAiStream {
    content: String,
    tool_calls: Vec<PartialToolCall>,
    usage: Usage,
}

/// What an [`OpenAiStream`] has accumulated.
pub ghost struct StreamView {
    pub content: Seq<char>,
    pub tool_calls: Seq<PartialView>,
    pub usage: Usage,
}

/// The contents of a list of partial calls.
pub open spec fn partials_view(calls: Seq<PartialToolCall>) -> Seq<PartialView> {
    calls.map_values(|c: PartialToolCall| c@)
}

impl View for OpenAiStream {
    type V = StreamView;

    closed spec fn view(&self) -> StreamView {
        StreamView {
            content: self.content@,
            tool_calls: partials_view(self.tool_calls@),
            usage: self.usage,
        }
    }
}

/// A call of which nothing has been received.
pub open spec fn unknown_call() -> PartialView {
    PartialView { id: Seq::empty(), name: Seq::empty(), arguments: Seq::empty() }
}

/// The calls, extended so that there is one at `index`.
pub open spec fn extended(calls: Seq<PartialView>, index: int) -> Seq<PartialView> {
    if index < calls.len() {
        calls
    } else {
        calls + Seq::new((index + 1 - calls.len()) as nat, |i: int| unknown_call())
    }
}

/// The calls with one fragment added to the call it belongs to.
pub open spec fn with_fragment(calls: Seq<PartialView>, fragment: StreamToolCall) -> Seq<
    PartialView,
> {
    let calls = extended(calls, fragment.index as int);
    let call = calls[fragment.index as int];
    calls.update(
        fragment.index as int,
        PartialView {
            id: call.id + or_else(opt_text(fragment.id), Seq::empty()),
            name: call.name + (match fragment.function {
                Some(f) => f.name@,
                None => Seq::empty(),
            }),
            arguments: call.arguments + (match fragment.function {
                Some(f) => f.arguments@,
                None => Seq::empty(),
            }),
        },
    )
}

/// The calls with each fragment added in turn.
pub open spec fn with_fragments(calls: Seq<PartialView>, fragments: Seq<StreamToolCall>) -> Seq<
    PartialView,
>
    decreases fragments.len(),
{
    if fragments.len() == 0 {
        calls
    } else {
        with_fragment(with_fragments(calls, fragments.drop_last()), fragments.last())
    }
}

/// The text that a chunk adds to the answer.
pub open spec fn chunk_delta(chunk: StreamChunk) -> Option<Seq<char>> {
    if chunk.choices@.len() == 0 {
        None
    } else {
        match opt_text(chunk.choices@[0].content) {
            Some(text) if text.len() > 0 => Some(text),
            _ => None,
        }
    }
}

/// What one chunk makes of what was accumulated.
pub open spec fn chunk_step(s: StreamView, chunk: StreamChunk) -> StreamView {
    StreamView {
        content: s.content + or_else(chunk_delta(chunk), Seq::empty()),
        tool_calls: if chunk.choices@.len() == 0 {
            s.tool_calls
        } else {
            with_fragments(s.tool_calls, chunk.choices@[0].tool_calls@)
        },
        usage: match chunk.usage {
            Some(usage) => usage.usage_view(),
            None => s.usage,
        },
    }
}

/// Whether each fragment names a call that a list can hold.
pub open spec fn chunk_fits(chunk: StreamChunk) -> bool {
    chunk.choices@.len() > 0 ==> forall|i: int|
        0 <= i < chunk.choices@[0].tool_calls@.len() ==> (
        #[trigger] chunk.choices@[0].tool_calls@[i]).index < usize::MAX
}

/// What a series of chunks makes of what was accumulated.
pub open spec fn chunks_run(s: StreamView, chunks: Seq<StreamChunk>) -> StreamView
    decreases chunks.len(),
{
    if chunks.len() == 0 {
        s
    } else {
        chunk_step(chunks_run(s, chunks.drop_last()), chunks.last())
    }
}

/// The text deltas of a series of chunks, one after the other.
pub open spec fn deltas_of(chunks: Seq<StreamChunk>) -> Seq<char>
    decreases chunks.len(),
{
    if chunks.len() == 0 {
        Seq::empty()
    } else {
        deltas_of(chunks.drop_last()) + or_else(chunk_delta(chunks.last()), Seq::empty())
    }
}

/// The answer text is exactly what was handed out as deltas, in order.
pub proof fn text_is_what_was_streamed(s: StreamView, chunks: Seq<StreamChunk>)
    ensures
        chunks_run(s, chunks).content == s.content + deltas_of(chunks),
    decreases chunks.len(),
{
    if chunks.len() > 0 {
        text_is_what_was_streamed(s, chunks.drop_last());
        let before = deltas_of(chunks.drop_last());
        let delta = or_else(chunk_delta(chunks.last()), Seq::empty());
        assert((s.content + before) + delta =~= s.content + (before + delta));
    } else {
        assert(s.content + deltas_of(chunks) =~= s.content);
    }
}

/// The call that its fragments came to.
pub open spec fn partial_call(c: PartialView) -> ToolCallView {
    ToolCallView { id: c.id, name: c.name, arguments: arguments_of(c.arguments) }
}

/// The calls that have a name, in order.
pub open spec fn partial_calls(calls: Seq<PartialView>) -> Seq<ToolCallView>
    decreases calls.len(),
{
    if calls.len() == 0 {
        Seq::empty()
    } else if calls.last().name.len() > 0 {
        partial_calls(calls.drop_last()).push(partial_call(calls.last()))
    } else {
        partial_calls(calls.drop_last())
    }
}

fn add_fragment(calls: &mut Vec<PartialToolCall>, fragment: &StreamToolCall)
    requires
        fragment.index < usize::MAX,
    ensures
        partials_view(final(calls)@) == with_fragment(partials_view(old(calls)@), *fragment),
{
    let ghost before = partials_view(calls@);
    while calls.len() <= fragment.index
        invariant
            fragment.index < usize::MAX,
            before.len() <= calls@.len(),
            calls@.len() <= fragment.index + 1 || calls@.len() == before.len(),
            forall|k: int| 0 <= k < calls@.len() ==> (#[trigger] calls@[k])@ == if k < before.len() {
                before[k]
            } else {
                unknown_call()
            },
        decreases fragment.index + 1 - calls.len(),
    {
        calls.push(
            PartialToolCall { id: String::new(), name: String::new(), arguments: String::new() },
        );
    }
    let ghost grown = partials_view(calls@);
    assert(grown =~= extended(before, fragment.index as int));
    let mut id = calls[fragment.index].id.clone();
    let mut name = calls[fragment.index].name.clone();
    let mut arguments = calls[fragment.index].arguments.clone();
    let ghost call = calls@[fragment.index as int]@;
    if let Some(more) = &fragment.id {
        id.append(more.as_str());
    }
    if let Some(function) = &fragment.function {
        name.append(function.name.as_str());
        arguments.append(function.arguments.as_str());
    }
    assert(id@ =~= call.id + or_else(opt_text(fragment.id), Seq::empty()));
    assert(name@ =~= call.name + (match fragment.function {
        Some(f) => f.name@,
        None => Seq::empty(),
    }));
    assert(arguments@ =~= call.arguments + (match fragment.function {
        Some(f) => f.arguments@,
        None => Seq::empty(),
    }));
    calls.set(fragment.index, PartialToolCall { id, name, arguments });
    assert(partials_view(calls@) =~= with_fragment(before, *fragment));
}

impl OpenAiStream {
    /// Nothing received yet.
    pub fn new() -> (r: Self)
        ensures
            r@ == (StreamView {
                content: Seq::empty(),
                tool_calls: Seq::empty(),
                usage: Usage {
                    input_tokens: 0,
                    output_tokens: 0,
                    cache_read_input_tokens: 0,
                    cache_creation_input_tokens: 0,
                    reasoning_tokens: 0,
                },
            }),
    {
        let r = OpenAiStream {
            content: String::new(),
            tool_calls: Vec::new(),
            usage: Usage::new(0, 0),
        };
        assert(r@.tool_calls =~= Seq::<PartialView>::empty());
        r
    }

    /// Take in one chunk; returns the text it adds to the answer. Fragments of
    /// calls gather under their index.
    pub fn apply(&mut self, chunk: StreamChunk) -> (delta: Option<String>)
        requires
            chunk_fits(chunk),
        ensures
            final(self)@ == chunk_step(old(self)@, chunk),
            opt_text(delta) == chunk_delta(chunk),
    {
        let ghost start = self@;
        if let Some(usage) = chunk.usage {
            self.usage = usage.to_usage();
        }
        if chunk.choices.len() == 0 {
            assert(self@.content =~= start.content + Seq::<char>::empty());
            return None;
        }
        let choice = &chunk.choices[0];
        let delta: Option<String> = match &choice.content {
            Some(content) => if content.as_str().is_empty() {
                None
            } else {
                self.content.append(content.as_str());
                Some(content.clone())
            },
            None => None,
        };
        assert(self@.content =~= start.content + or_else(chunk_delta(chunk), Seq::empty()));
        let ghost fragments = choice.tool_calls@;
        let ghost text = self@.content;
        let ghost usage = self.usage;
        let mut i: usize = 0;
        assert(fragments.take(0) =~= Seq::<StreamToolCall>::empty());
        while i < choice.tool_calls.len()
            invariant
                chunk.choices@.len() > 0,
                *choice == chunk.choices@[0],
                chunk_fits(chunk),
                fragments == choice.tool_calls@,
                i <= fragments.len(),
                self@.content == text,
                self@.usage == usage,
                self@.tool_calls == with_fragments(start.tool_calls, fragments.take(i as int)),
            decreases fragments.len() - i,
        {
            assert(fragments.take(i as int + 1).drop_last() =~= fragments.take(i as int));
            assert(chunk.choices@[0].tool_calls@[i as int].index < usize::MAX);
            add_fragment(&mut self.tool_calls, &choice.tool_calls[i]);
            i += 1;
        }
        assert(fragments.take(i as int) =~= fragments);
        delta
    }

    /// Whether a payload closes the stream rather than being an event.
    pub fn is_terminator(data: &str) -> (r: bool)
        ensures
            r == (data@ == "[DONE]"@),
    {
        same(data, "[DONE]")
    }

    /// The answer text so far.
    pub fn text(&self) -> (r: &str)
        ensures
            r@ == self@.content,
    {
        self.content.as_str()
    }

    /// The answer that the stream came to. A call that never got a name is
    /// left out.
    pub fn finish(self) -> (r: ChatResponse)
        ensures
            r.message@ == assistant_view(self@.content, partial_calls(self@.tool_calls)),
            r.usage == self@.usage,
    {
        let mut calls: Vec<ToolCall> = Vec::new();
        let mut i: usize = 0;
        let ghost all = partials_view(self.tool_calls@);
        assert(calls_view(calls@) =~= Seq::<ToolCallView>::empty());
        while i < self.tool_calls.len()
            invariant
                i <= self.tool_calls@.len(),
                all == partials_view(self.tool_calls@),
                calls_view(calls@) == partial_calls(all.take(i as int)),
            decreases self.tool_calls.len() - i,
        {
            assert(all.take(i as int + 1).drop_last() =~= all.take(i as int));
            let ghost before = calls_view(calls@);
            let partial = &self.tool_calls[i];
            if !partial.name.as_str().is_empty() {
                let call = ToolCall {
                    id: partial.id.clone(),
                    name: partial.name.clone(),
                    arguments: parse_arguments(partial.arguments.as_str()),
                };
                calls.push(call);
                assert(calls_view(calls@) =~= before.push(call@));
            }
            i += 1;
        }
        assert(all.take(i as int) =~= all);
        let OpenAiStream { content, tool_calls: _, usage } = self;
        ChatResponse { message: Message::assistant_with_calls(content, calls), usage }
    }
}

} // verus!
