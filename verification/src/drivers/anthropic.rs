//! The Anthropic Messages protocol.

use vstd::prelude::*;

use crate::drivers::http;
use crate::drivers::arguments::{arguments_of, parse_arguments};
use crate::drivers::slots::{slot_get, slot_put, Slots};
use crate::json::{clone_items, empty_object, items_view, jempty, jopt, jstr, members_view,
    opt_json, put, put_member, Json, JsonView};
use crate::message::{assistant_view, calls_view, messages_view, parts_view, thinking_view,
    tools_view, ChatRequest, ChatResponse, ContentPart, Error, ImagePart, LlmErrorKind, Message,
    MessageView, ModelSpec, PartView, Role, ToolCall, ToolCallView, ToolDefinition, ToolView,
    Usage};
use crate::text::{clone_opt, opt_text, or_else, or_text, text_pairs};

verus! {

/// The service's own address.
pub const ANTHROPIC_BASE_URL: &'static str = "https://api.anthropic.com";

/// The version of the API that requests are written for.
pub const API_VERSION: &'static str = "2023-06-01";

/// How many tokens an answer may take unless told otherwise.
pub const DEFAULT_MAX_TOKENS: u64 = 8192;

/// Speaks the Anthropic Messages protocol.
#[derive(Debug)]
pub struct AnthropicDriver {
    pub max_tokens: u64,
    pub prompt_caching: bool,
}

// ---------------------------------------------------------------- requests

/// What marks the end of a prefix that the service may cache.
pub open spec fn cache_marker() -> JsonView {
    JsonView::Object(seq![("type"@, jstr("ephemeral"@))])
}

/// A value with a cache breakpoint on it.
pub open spec fn marked(v: JsonView) -> JsonView {
    match v {
        JsonView::Object(members) => JsonView::Object(
            put(members, "cache_control"@, cache_marker()),
        ),
        _ => v,
    }
}

/// A list with a cache breakpoint on its last element.
pub open spec fn marked_last(items: Seq<JsonView>) -> Seq<JsonView> {
    if items.len() == 0 {
        items
    } else {
        items.update(items.len() - 1, marked(items.last()))
    }
}

/// Where a picture comes from: its address, or its encoded bytes, which are
/// taken for a PNG unless they say otherwise.
pub open spec fn image_source(
    url: Option<Seq<char>>,
    base64: Option<Seq<char>>,
    media_type: Option<Seq<char>>,
) -> JsonView {
    match url {
        Some(url) => JsonView::Object(seq![("type"@, jstr("url"@)), ("url"@, jstr(url))]),
        None => JsonView::Object(
            seq![
                ("type"@, jstr("base64"@)),
                ("media_type"@, jstr(or_else(media_type, "image/png"@))),
                ("data"@, jstr(or_else(base64, ""@))),
            ],
        ),
    }
}

/// The block form of one content part.
pub open spec fn part_block(part: PartView) -> JsonView {
    match part {
        PartView::Text(text) => JsonView::Object(
            seq![("type"@, jstr("text"@)), ("text"@, jstr(text))],
        ),
        PartView::Image { url, base64, media_type } => JsonView::Object(
            seq![
                ("type"@, jstr("image"@)),
                ("source"@, image_source(url, base64, media_type)),
            ],
        ),
    }
}

/// The block forms of a content.
pub open spec fn part_blocks(content: Seq<PartView>) -> Seq<JsonView> {
    content.map_values(|p: PartView| part_block(p))
}

/// The block that answers a tool call.
pub open spec fn result_block(m: MessageView) -> JsonView {
    JsonView::Object(
        seq![
            ("type"@, jstr("tool_result"@)),
            ("tool_use_id"@, jopt(m.tool_call_id)),
            ("content"@, JsonView::Array(part_blocks(m.content))),
        ],
    )
}

/// The block that asks for a tool call.
pub open spec fn call_block(c: ToolCallView) -> JsonView {
    JsonView::Object(
        seq![
            ("type"@, jstr("tool_use"@)),
            ("id"@, jstr(c.id)),
            ("name"@, jstr(c.name)),
            ("input"@, c.arguments),
        ],
    )
}

/// The blocks that replay signed reasoning: none without a signature, for the
/// API rejects it then.
pub open spec fn thinking_blocks(m: MessageView) -> Seq<JsonView> {
    match (m.thinking, m.thinking_signature) {
        (Some(thinking), Some(signature)) => seq![
            JsonView::Object(
                seq![
                    ("type"@, jstr("thinking"@)),
                    ("thinking"@, jstr(thinking)),
                    ("signature"@, jstr(signature)),
                ],
            ),
        ],
        _ => Seq::empty(),
    }
}

/// The blocks of an assistant message: reasoning, content, calls.
pub open spec fn assistant_blocks(m: MessageView) -> Seq<JsonView> {
    thinking_blocks(m) + part_blocks(m.content) + m.tool_calls.map_values(
        |c: ToolCallView| call_block(c),
    )
}

/// A wire message.
pub open spec fn wire_message(role: Seq<char>, blocks: Seq<JsonView>) -> JsonView {
    JsonView::Object(seq![("role"@, jstr(role)), ("content"@, JsonView::Array(blocks))])
}

/// The message that carries pending tool results, if there are any.
pub open spec fn flushed(pending: Seq<JsonView>) -> Seq<JsonView> {
    if pending.len() == 0 {
        Seq::empty()
    } else {
        seq![wire_message("user"@, pending)]
    }
}

/// The wire messages of a conversation, of which `pending` tool results stand
/// before `messages`: tool results gather in one user message, and a system
/// message has no place here.
pub open spec fn wire_from(messages: Seq<MessageView>, pending: Seq<JsonView>) -> Seq<JsonView>
    decreases messages.len(),
{
    if messages.len() == 0 {
        flushed(pending)
    } else {
        let m = messages[0];
        let rest = messages.drop_first();
        match m.role {
            Role::Tool => wire_from(rest, pending.push(result_block(m))),
            Role::User => flushed(pending) + seq![wire_message("user"@, part_blocks(m.content))]
                + wire_from(rest, Seq::empty()),
            Role::Assistant => flushed(pending) + seq![
                wire_message("assistant"@, assistant_blocks(m)),
            ] + wire_from(rest, Seq::empty()),
            Role::System => wire_from(rest, pending),
        }
    }
}

/// The results of consecutive tool messages reach the model as one user
/// message, in order.
pub proof fn tool_results_merge(run: Seq<MessageView>, pending: Seq<JsonView>)
    requires
        forall|i: int| 0 <= i < run.len() ==> (#[trigger] run[i]).role == Role::Tool,
    ensures
        wire_from(run, pending) == flushed(
            pending + run.map_values(|m: MessageView| result_block(m)),
        ),
    decreases run.len(),
{
    let results = run.map_values(|m: MessageView| result_block(m));
    if run.len() == 0 {
        assert(pending + results =~= pending);
    } else {
        let rest = run.drop_first();
        let next = pending.push(result_block(run[0]));
        tool_results_merge(rest, next);
        assert(next + rest.map_values(|m: MessageView| result_block(m)) =~= pending + results);
    }
}

/// What the API is told of a tool.
pub open spec fn tool_entry(t: ToolView) -> JsonView {
    JsonView::Object(
        seq![
            ("name"@, jstr(t.name)),
            ("description"@, jstr(t.description)),
            ("input_schema"@, t.parameters),
        ],
    )
}

/// A wire message with a cache breakpoint on its last block.
pub open spec fn marked_message(m: JsonView) -> JsonView {
    match m.at("content"@) {
        JsonView::Array(blocks) => JsonView::Object(
            put(m->Object_0, "content"@, JsonView::Array(marked_last(blocks))),
        ),
        _ => m,
    }
}

/// The conversation with breakpoints on its last message and the one before.
pub open spec fn marked_tail(messages: Seq<JsonView>) -> Seq<JsonView> {
    Seq::new(
        messages.len(),
        |i: int|
            if i + 2 >= messages.len() {
                marked_message(messages[i])
            } else {
                messages[i]
            },
    )
}

/// The system prompt in block form, with a breakpoint.
pub open spec fn marked_system(system: Seq<char>) -> JsonView {
    JsonView::Array(
        seq![
            JsonView::Object(
                seq![
                    ("type"@, jstr("text"@)),
                    ("text"@, jstr(system)),
                    ("cache_control"@, cache_marker()),
                ],
            ),
        ],
    )
}

/// How many tokens the answer may take: more than the thinking budget, which
/// the API demands.
pub open spec fn effective_max(max_tokens: u64, budget: Option<u32>) -> int {
    match budget {
        Some(b) if b >= max_tokens => b + max_tokens,
        _ => max_tokens as int,
    }
}

/// The members that a body has beyond the three that are always there.
pub open spec fn optional_members(
    budget: Option<u32>,
    system: Option<JsonView>,
    tools: Seq<JsonView>,
) -> Seq<(Seq<char>, JsonView)> {
    (match budget {
        Some(b) => seq![
            (
                "thinking"@,
                JsonView::Object(
                    seq![
                        ("type"@, jstr("enabled"@)),
                        ("budget_tokens"@, JsonView::Int(b as int)),
                    ],
                ),
            ),
        ],
        None => Seq::empty(),
    }) + (match system {
        Some(s) => seq![("system"@, s)],
        None => Seq::empty(),
    }) + (if tools.len() == 0 {
        Seq::empty()
    } else {
        seq![("tools"@, JsonView::Array(tools))]
    })
}

/// The body of a request.
pub open spec fn body_view(
    max_tokens: u64,
    caching: bool,
    model: Seq<char>,
    budget: Option<u32>,
    system: Option<Seq<char>>,
    messages: Seq<MessageView>,
    tools: Seq<ToolView>,
) -> JsonView {
    let wire = wire_from(messages, Seq::empty());
    let entries = tools.map_values(|t: ToolView| tool_entry(t));
    JsonView::Object(
        seq![
            ("model"@, jstr(model)),
            ("max_tokens"@, JsonView::Int(effective_max(max_tokens, budget))),
            (
                "messages"@,
                JsonView::Array(
                    if caching {
                        marked_tail(wire)
                    } else {
                        wire
                    },
                ),
            ),
        ] + optional_members(
            budget,
            match system {
                Some(s) => Some(
                    if caching {
                        marked_system(s)
                    } else {
                        jstr(s)
                    },
                ),
                None => None,
            },
            if caching {
                marked_last(entries)
            } else {
                entries
            },
        ),
    )
}

fn text_block(text: &str) -> (r: Json)
    ensures
        r@ == part_block(PartView::Text(text@)),
{
    Json::object2("type", Json::text("text"), "text", Json::text(text))
}

fn image_block(part: &ImagePart) -> (r: Json)
    ensures
        r@ == part_block(ContentPart::Image(*part)@),
{
    let source = match &part.url {
        Some(url) => Json::object2("type", Json::text("url"), "url", Json::text(url.as_str())),
        None => Json::object3(
            "type",
            Json::text("base64"),
            "media_type",
            Json::text(or_text(&part.media_type, "image/png")),
            "data",
            Json::text(or_text(&part.base64, "")),
        ),
    };
    Json::object2("type", Json::text("image"), "source", source)
}

/// The block forms of a content: `text` and `image`.
pub fn content_blocks(content: &Vec<ContentPart>) -> (r: Vec<Json>)
    ensures
        items_view(r@) == part_blocks(parts_view(content@)),
{
    let mut r: Vec<Json> = Vec::new();
    let mut i: usize = 0;
    while i < content.len()
        invariant
            r@.len() == i <= content@.len(),
            forall|k: int| 0 <= k < i ==> (#[trigger] r@[k])@ == part_block(content@[k]@),
        decreases content.len() - i,
    {
        let block = match &content[i] {
            ContentPart::Text(part) => text_block(part.text.as_str()),
            ContentPart::Image(part) => image_block(part),
        };
        assert(block@ == part_block(content@[i as int]@));
        r.push(block);
        i += 1;
    }
    assert(items_view(r@) =~= part_blocks(parts_view(content@)));
    r
}

fn assistant_content(message: &Message) -> (r: Vec<Json>)
    ensures
        items_view(r@) == assistant_blocks(message@),
{
    let mut blocks: Vec<Json> = Vec::new();
    if let Some(thinking) = &message.thinking {
        if let Some(signature) = &message.thinking_signature {
            blocks.push(
                Json::object3(
                    "type",
                    Json::text("thinking"),
                    "thinking",
                    Json::text(thinking.as_str()),
                    "signature",
                    Json::text(signature.as_str()),
                ),
            );
        }
    }
    assert(items_view(blocks@) =~= thinking_blocks(message@));
    let mut parts = content_blocks(&message.content);
    let ghost before = blocks@;
    let ghost shown = parts@;
    blocks.append(&mut parts);
    let ghost base = thinking_blocks(message@) + part_blocks(message@.content);
    assert(items_view(blocks@) =~= items_view(before) + items_view(shown));
    assert(items_view(blocks@) == base);
    let ghost asks = message@.tool_calls.map_values(|c: ToolCallView| call_block(c));
    let mut i: usize = 0;
    assert(base + asks.take(0) =~= base);
    while i < message.tool_calls.len()
        invariant
            i <= message.tool_calls@.len(),
            asks == message@.tool_calls.map_values(|c: ToolCallView| call_block(c)),
            items_view(blocks@) == base + asks.take(i as int),
        decreases message.tool_calls.len() - i,
    {
        let call = &message.tool_calls[i];
        let ghost earlier = blocks@;
        blocks.push(
            Json::object4(
                "type",
                Json::text("tool_use"),
                "id",
                Json::text(call.id.as_str()),
                "name",
                Json::text(call.name.as_str()),
                "input",
                call.arguments.clone(),
            ),
        );
        assert(items_view(blocks@) =~= items_view(earlier).push(call_block(call@)));
        assert(asks[i as int] == call_block(call@));
        i += 1;
        assert(base + asks.take(i as int) =~= (base + asks.take(i - 1)).push(asks[i - 1]));
    }
    assert(asks.take(i as int) =~= asks);
    blocks
}

fn role_message(role: &str, blocks: Vec<Json>) -> (r: Json)
    ensures
        r@ == wire_message(role@, items_view(blocks@)),
{
    Json::object2("role", Json::text(role), "content", Json::array(blocks))
}

fn flush_tool_results(wire: &mut Vec<Json>, pending: Vec<Json>)
    ensures
        items_view(final(wire)@) == items_view(old(wire)@) + flushed(items_view(pending@)),
{
    let ghost before = wire@;
    if pending.len() > 0 {
        wire.push(role_message("user", pending));
    }
    assert(items_view(wire@) =~= items_view(before) + flushed(items_view(pending@)));
}

/// The conversation in the alternation of user and assistant messages that
/// the API demands: tool results become `tool_result` blocks inside a user
/// message, tool calls become `tool_use` blocks.
pub fn to_wire_messages(messages: &Vec<Message>) -> (r: Vec<Json>)
    ensures
        items_view(r@) == wire_from(messages_view(messages@), Seq::empty()),
{
    let ghost all = messages_view(messages@);
    let ghost goal = wire_from(all, Seq::empty());
    let mut wire: Vec<Json> = Vec::new();
    let mut pending: Vec<Json> = Vec::new();
    let mut i: usize = 0;
    assert(all.skip(0) =~= all);
    assert(items_view(pending@) =~= Seq::<JsonView>::empty());
    assert(items_view(wire@) + goal =~= goal);
    while i < messages.len()
        invariant
            i <= messages@.len(),
            all == messages_view(messages@),
            goal == items_view(wire@) + wire_from(all.skip(i as int), items_view(pending@)),
        decreases messages.len() - i,
    {
        let message = &messages[i];
        let ghost rest = all.skip(i as int);
        let ghost before = items_view(wire@);
        let ghost held = items_view(pending@);
        let ghost later = wire_from(all.skip(i + 1), Seq::empty());
        assert(rest[0] == message@);
        assert(rest.drop_first() =~= all.skip(i + 1));
        match message.role {
            Role::Tool => {
                pending.push(
                    Json::object3(
                        "type",
                        Json::text("tool_result"),
                        "tool_use_id",
                        opt_json(&message.tool_call_id),
                        "content",
                        Json::array(content_blocks(&message.content)),
                    ),
                );
                assert(items_view(pending@) =~= held.push(result_block(message@)));
            },
            Role::User => {
                flush_tool_results(&mut wire, pending);
                pending = Vec::new();
                let ghost mid = wire@;
                let shown = role_message("user", content_blocks(&message.content));
                wire.push(shown);
                assert(items_view(wire@) =~= items_view(mid).push(shown@));
                assert(before + (flushed(held) + seq![shown@] + later) =~= items_view(wire@) + later);
                assert(items_view(pending@) =~= Seq::<JsonView>::empty());
            },
            Role::Assistant => {
                flush_tool_results(&mut wire, pending);
                pending = Vec::new();
                let ghost mid = wire@;
                let shown = role_message("assistant", assistant_content(message));
                wire.push(shown);
                assert(items_view(wire@) =~= items_view(mid).push(shown@));
                assert(before + (flushed(held) + seq![shown@] + later) =~= items_view(wire@) + later);
                assert(items_view(pending@) =~= Seq::<JsonView>::empty());
            },
            Role::System => {},
        }
        i += 1;
    }
    assert(all.skip(i as int) =~= Seq::<MessageView>::empty());
    flush_tool_results(&mut wire, pending);
    wire
}

fn marker() -> (r: Json)
    ensures
        r@ == cache_marker(),
{
    Json::object1("type", Json::text("ephemeral"))
}

fn mark(v: Json) -> (r: Json)
    ensures
        r@ == marked(v@),
{
    match v {
        Json::Object(members) => {
            let mut members = members;
            assert(v@->Object_0 =~= members_view(members@));
            put_member(&mut members, "cache_control", marker());
            Json::object(members)
        },
        other => other,
    }
}

fn mark_last(items: Vec<Json>) -> (r: Vec<Json>)
    ensures
        items_view(r@) == marked_last(items_view(items@)),
{
    let mut items = items;
    let ghost before = items@;
    match items.pop() {
        None => items,
        Some(last) => {
            items.push(mark(last));
            assert(items_view(items@) =~= marked_last(items_view(before)));
            items
        },
    }
}

fn mark_message(m: Json) -> (r: Json)
    ensures
        r@ == marked_message(m@),
{
    let blocks = match m.get("content") {
        Some(Json::Array(items)) => {
            assert(m@.at("content"@)->Array_0 =~= items_view(items@));
            Some(clone_items(items))
        },
        _ => None,
    };
    match blocks {
        None => m,
        Some(blocks) => match m {
            Json::Object(members) => {
                let mut members = members;
                assert(m@->Object_0 =~= members_view(members@));
                put_member(&mut members, "content", Json::array(mark_last(blocks)));
                Json::object(members)
            },
            other => other,
        },
    }
}

fn mark_tail(messages: Vec<Json>) -> (r: Vec<Json>)
    ensures
        items_view(r@) == marked_tail(items_view(messages@)),
{
    let mut messages = messages;
    let ghost before = items_view(messages@);
    match messages.pop() {
        None => {
            assert(items_view(messages@) =~= marked_tail(before));
            messages
        },
        Some(last) => {
            match messages.pop() {
                None => {},
                Some(previous) => {
                    messages.push(mark_message(previous));
                },
            }
            messages.push(mark_message(last));
            assert(items_view(messages@) =~= marked_tail(before));
            messages
        },
    }
}

fn tool_entries(tools: &Vec<ToolDefinition>) -> (r: Vec<Json>)
    ensures
        items_view(r@) == tools_view(tools@).map_values(|t: ToolView| tool_entry(t)),
{
    let mut r: Vec<Json> = Vec::new();
    let mut i: usize = 0;
    while i < tools.len()
        invariant
            r@.len() == i <= tools@.len(),
            forall|k: int| 0 <= k < i ==> (#[trigger] r@[k])@ == tool_entry(tools@[k]@),
        decreases tools.len() - i,
    {
        let t = &tools[i];
        r.push(
            Json::object3(
                "name",
                Json::text(t.name.as_str()),
                "description",
                Json::text(t.description.as_str()),
                "input_schema",
                t.parameters.clone(),
            ),
        );
        i += 1;
    }
    assert(items_view(r@) =~= tools_view(tools@).map_values(|t: ToolView| tool_entry(t)));
    r
}

impl AnthropicDriver {
    /// A driver with prompt caching and the default answer length.
    pub fn new() -> (r: Self)
        ensures
            r.max_tokens == DEFAULT_MAX_TOKENS,
            r.prompt_caching,
    {
        AnthropicDriver { max_tokens: DEFAULT_MAX_TOKENS, prompt_caching: true }
    }

    /// Cap the length of an answer.
    pub fn max_tokens(self, max_tokens: u64) -> (r: Self)
        ensures
            r == (AnthropicDriver { max_tokens, ..self }),
    {
        let mut r = self;
        r.max_tokens = max_tokens;
        r
    }

    /// Turn prompt caching on or off.
    pub fn prompt_caching(self, enabled: bool) -> (r: Self)
        ensures
            r == (AnthropicDriver { prompt_caching: enabled, ..self }),
    {
        let mut r = self;
        r.prompt_caching = enabled;
        r
    }

    /// The body that `build_body` makes of a request.
    pub open spec fn body(&self, request: ChatRequest) -> JsonView {
        body_view(
            self.max_tokens,
            self.prompt_caching,
            request.model.model@,
            request.model.budget(),
            opt_text(request.system_prompt),
            messages_view(request.messages@),
            tools_view(request.tools@),
        )
    }

    /// The body of a request. With prompt caching, breakpoints stand on the
    /// last tool, the system prompt, and the last two messages.
    pub fn build_body(&self, request: &ChatRequest) -> (r: Json)
        ensures
            r@ == self.body(*request),
    {
        let budget: Option<u32> = match &request.model.reasoning {
            Some(reasoning) => reasoning.budget_tokens,
            None => None,
        };
        let limit: u64 = match budget {
            Some(b) => if b as u64 >= self.max_tokens {
                b as u64 + self.max_tokens
            } else {
                self.max_tokens
            },
            None => self.max_tokens,
        };
        let wire = to_wire_messages(&request.messages);
        let wire = if self.prompt_caching {
            mark_tail(wire)
        } else {
            wire
        };
        let entries = tool_entries(&request.tools);
        let entries = if self.prompt_caching {
            mark_last(entries)
        } else {
            entries
        };
        let mut members: Vec<(String, Json)> = Vec::new();
        members.push(("model".to_owned(), Json::text(request.model.model.as_str())));
        members.push(("max_tokens".to_owned(), Json::Unsigned(limit)));
        members.push(("messages".to_owned(), Json::array(wire)));
        let ghost base = members_view(members@);
        if let Some(b) = budget {
            members.push(
                (
                    "thinking".to_owned(),
                    Json::object2(
                        "type",
                        Json::text("enabled"),
                        "budget_tokens",
                        Json::Unsigned(b as u64),
                    ),
                ),
            );
        }
        if let Some(system) = &request.system_prompt {
            let value = if self.prompt_caching {
                let block = Json::object3(
                    "type",
                    Json::text("text"),
                    "text",
                    Json::text(system.as_str()),
                    "cache_control",
                    marker(),
                );
                let blocks = vec![block];
                assert(items_view(blocks@) =~= seq![block@]);
                Json::array(blocks)
            } else {
                Json::text(system.as_str())
            };
            members.push(("system".to_owned(), value));
        }
        if entries.len() > 0 {
            members.push(("tools".to_owned(), Json::array(entries)));
        }
        let r = Json::object(members);
        assert(r@->Object_0 =~= self.body(*request)->Object_0);
        r
    }

    /// The body of a request, asking for a stream.
    pub fn enable_streaming(&self, body: Json) -> (r: Json)
        ensures
            r@ == http::member_set(body@, "stream"@, JsonView::Bool(true)),
    {
        http::with_member(body, "stream", Json::Bool(true))
    }

    /// The headers that authenticate a request: the one a provider resolved,
    /// or else the key of the model, and the version of the API.
    pub fn authorize(&self, provided: Option<(String, String)>, model: &ModelSpec) -> (r: Result<
        Vec<(String, String)>,
        Error,
    >)
        ensures
            match (provided, model.api_key) {
                (Some(header), _) => r matches Ok(h) && text_pairs(h@) == seq![
                    (header.0@, header.1@),
                    ("anthropic-version"@, API_VERSION@),
                ],
                (None, Some(key)) => r matches Ok(h) && text_pairs(h@) == seq![
                    ("x-api-key"@, key@),
                    ("anthropic-version"@, API_VERSION@),
                ],
                (None, None) => r matches Err(e) && e.is_driver(
                    LlmErrorKind::Authentication,
                    "anthropic driver requires an api key"@,
                ),
            },
    {
        let first = match provided {
            Some(header) => header,
            None => match &model.api_key {
                Some(key) => ("x-api-key".to_owned(), key.clone()),
                None => {
                    return Err(
                        Error::driver(
                            LlmErrorKind::Authentication,
                            "anthropic driver requires an api key".to_owned(),
                        ),
                    );
                },
            },
        };
        let headers = vec![first, ("anthropic-version".to_owned(), API_VERSION.to_owned())];
        assert(text_pairs(headers@) =~= seq![
            (first.0@, first.1@),
            ("anthropic-version"@, API_VERSION@),
        ]);
        Ok(headers)
    }

    /// The class of a status: 529 is this service's own overload code.
    pub fn classify_status(&self, status: u16) -> (r: LlmErrorKind)
        ensures
            r == if status == 529 {
                LlmErrorKind::Overloaded
            } else {
                http::status_kind(status as int)
            },
    {
        if status == 529 {
            LlmErrorKind::Overloaded
        } else {
            http::classify_status(status)
        }
    }
}

// --------------------------------------------------------------- responses

/// Token counts as the API reports them: what the cache served or stored is
/// counted apart from the other input.
#[derive(Debug, Clone, Copy, PartialEq, Eq, Structural)]
pub struct WireUsage {
    pub input_tokens: u64,
    pub output_tokens: u64,
    pub cache_creation_input_tokens: u64,
    pub cache_read_input_tokens: u64,
}

impl WireUsage {
    /// All input tokens, cached or not.
    pub open spec fn total_input(self) -> int {
        self.input_tokens + self.cache_creation_input_tokens + self.cache_read_input_tokens
    }

    /// The count in which cached tokens are input tokens like any other.
    pub open spec fn usage_view(self) -> Usage {
        Usage {
            input_tokens: self.total_input() as u64,
            output_tokens: self.output_tokens,
            cache_read_input_tokens: 0,
            cache_creation_input_tokens: 0,
            reasoning_tokens: 0,
        }
    }

    /// The count in which cached tokens are input tokens like any other, so
    /// that it says how many tokens the request sent.
    pub fn to_usage(self) -> (r: Usage)
        requires
            self.total_input() <= u64::MAX,
        ensures
            r == self.usage_view(),
    {
        Usage::new(
            self.input_tokens + self.cache_creation_input_tokens + self.cache_read_input_tokens,
            self.output_tokens,
        )
    }
}

/// One block of a response.
#[derive(Debug)]
pub enum ContentBlock {
    Text { text: String },
    Thinking { thinking: String, signature: Option<String> },
    ToolUse { id: String, name: String, input: Json },
    /// A block of a type that is not known here.
    Other,
}

/// The text blocks, one after the other.
pub open spec fn blocks_text(blocks: Seq<ContentBlock>) -> Seq<char>
    decreases blocks.len(),
{
    if blocks.len() == 0 {
        Seq::empty()
    } else {
        match blocks.last() {
            ContentBlock::Text { text } => blocks_text(blocks.drop_last()) + text@,
            _ => blocks_text(blocks.drop_last()),
        }
    }
}

/// The calls asked for, in order.
pub open spec fn blocks_calls(blocks: Seq<ContentBlock>) -> Seq<ToolCallView>
    decreases blocks.len(),
{
    if blocks.len() == 0 {
        Seq::empty()
    } else {
        match blocks.last() {
            ContentBlock::ToolUse { id, name, input } => blocks_calls(blocks.drop_last()).push(
                ToolCallView { id: id@, name: name@, arguments: input@ },
            ),
            _ => blocks_calls(blocks.drop_last()),
        }
    }
}

/// The last reasoning block and its signature.
pub open spec fn blocks_thinking(blocks: Seq<ContentBlock>) -> Option<
    (Seq<char>, Option<Seq<char>>),
>
    decreases blocks.len(),
{
    if blocks.len() == 0 {
        None
    } else {
        match blocks.last() {
            ContentBlock::Thinking { thinking, signature } => Some(
                (thinking@, opt_text(signature)),
            ),
            _ => blocks_thinking(blocks.drop_last()),
        }
    }
}

/// The message that the blocks of a response make.
pub open spec fn blocks_message(blocks: Seq<ContentBlock>) -> MessageView {
    let message = assistant_view(blocks_text(blocks), blocks_calls(blocks));
    match blocks_thinking(blocks) {
        Some((thinking, signature)) => thinking_view(message, thinking, signature),
        None => message,
    }
}

/// Fold the blocks of a response into a message: its text, its calls, and the
/// reasoning to send back.
pub fn message_from_blocks(blocks: &Vec<ContentBlock>) -> (r: Message)
    ensures
        r@ == blocks_message(blocks@),
{
    let mut text = String::new();
    let mut thinking: Option<(String, Option<String>)> = None;
    let mut calls: Vec<ToolCall> = Vec::new();
    let mut i: usize = 0;
    assert(calls_view(calls@) =~= Seq::<ToolCallView>::empty());
    while i < blocks.len()
        invariant
            i <= blocks@.len(),
            text@ == blocks_text(blocks@.take(i as int)),
            calls_view(calls@) == blocks_calls(blocks@.take(i as int)),
            match thinking {
                Some((t, s)) => blocks_thinking(blocks@.take(i as int)) == Some(
                    (t@, opt_text(s)),
                ),
                None => blocks_thinking(blocks@.take(i as int)) is None,
            },
        decreases blocks.len() - i,
    {
        assert(blocks@.take(i as int + 1).drop_last() =~= blocks@.take(i as int));
        let ghost before = calls_view(calls@);
        match &blocks[i] {
            ContentBlock::Text { text: part } => {
                text.append(part.as_str());
            },
            ContentBlock::Thinking { thinking: part, signature } => {
                thinking = Some((part.clone(), clone_opt(signature)));
            },
            ContentBlock::ToolUse { id, name, input } => {
                let call = ToolCall {
                    id: id.clone(),
                    name: name.clone(),
                    arguments: input.clone(),
                };
                calls.push(call);
                assert(calls_view(calls@) =~= before.push(call@));
            },
            ContentBlock::Other => {},
        }
        i += 1;
    }
    assert(blocks@.take(i as int) =~= blocks@);
    let message = Message::assistant_with_calls(text, calls);
    match thinking {
        Some((thinking, signature)) => message.with_thinking(thinking, signature),
        None => message,
    }
}

/// The answer that a decoded response holds.
pub fn response_from(content: &Vec<ContentBlock>, usage: WireUsage) -> (r: ChatResponse)
    requires
        usage.total_input() <= u64::MAX,
    ensures
        r.message@ == blocks_message(content@),
        r.usage == usage.usage_view(),
{
    ChatResponse { message: message_from_blocks(content), usage: usage.to_usage() }
}

// --------------------------------------------------------------- streaming

/// How a block of a stream begins.
#[derive(Debug)]
pub enum StreamBlockStart {
    ToolUse { id: String, name: String },
    /// A block of another type.
    Other,
}

/// A further piece of a block of a stream.
#[derive(Debug)]
pub enum StreamDelta {
    TextDelta { text: String },
    InputJsonDelta { partial_json: String },
    ThinkingDelta { thinking: String },
    SignatureDelta { signature: String },
    /// A piece of a type that is not known here.
    Other,
}

/// One event of a stream.
#[derive(Debug)]
pub enum StreamEvent {
    MessageStart { usage: WireUsage },
    ContentBlockStart { index: u64, content_block: StreamBlockStart },
    ContentBlockDelta { index: u64, delta: StreamDelta },
    MessageDelta { usage: WireUsage },
    /// An event of a type that is not known here.
    Other,
}

/// A block of a stream that is still being received.
#[derive(Debug)]
pub struct PartialBlock {
    is_tool_use: bool,
    tool_id: String,
    tool_name: String,
    json_fragments: String,
}

/// The content of a [`PartialBlock`].
pub ghost struct BlockView {
    pub is_tool_use: bool,
    pub tool_id: Seq<char>,
    pub tool_name: Seq<char>,
    pub json_fragments: Seq<char>,
}

impl View for PartialBlock {
    type V = BlockView;

    closed spec fn view(&self) -> BlockView {
        BlockView {
            is_tool_use: self.is_tool_use,
            tool_id: self.tool_id@,
            tool_name: self.tool_name@,
            json_fragments: self.json_fragments@,
        }
    }
}

/// Accumulates a streamed response into the answer that the same request
/// would get without streaming.
#[derive(Debug)]
pub struct AnthropicStream {
    text: String,
    thinking: String,
    thinking_signature: Option<String>,
    blocks: Slots<PartialBlock>,
    usage: Usage,
}

/// What an [`AnthropicStream`] has accumulated.
pub ghost struct StreamView {
    pub text: Seq<char>,
    pub thinking: Seq<char>,
    pub thinking_signature: Option<Seq<char>>,
    /// The open blocks in ascending order of their index.
    pub blocks: Seq<(int, BlockView)>,
    pub usage: Usage,
}

impl View for AnthropicStream {
    type V = StreamView;

    closed spec fn view(&self) -> StreamView {
        StreamView {
            text: self.text@,
            thinking: self.thinking@,
            thinking_signature: opt_text(self.thinking_signature),
            blocks: self.blocks@,
            usage: self.usage,
        }
    }
}

/// A block of which nothing is known yet.
pub open spec fn unknown_block() -> BlockView {
    BlockView {
        is_tool_use: false,
        tool_id: Seq::empty(),
        tool_name: Seq::empty(),
        json_fragments: Seq::empty(),
    }
}

/// Whether the counts of an event fit the number they are added up in.
pub open spec fn event_fits(event: StreamEvent) -> bool {
    event matches StreamEvent::MessageStart { usage } ==> usage.total_input() <= u64::MAX
}

/// The text that an event adds to the answer.
pub open spec fn event_delta(event: StreamEvent) -> Option<Seq<char>> {
    match event {
        StreamEvent::ContentBlockDelta { delta: StreamDelta::TextDelta { text }, .. } => Some(
            text@,
        ),
        _ => None,
    }
}

/// What one event makes of what was accumulated.
pub open spec fn event_step(s: StreamView, event: StreamEvent) -> StreamView {
    match event {
        StreamEvent::MessageStart { usage } => StreamView {
            usage: Usage { input_tokens: usage.total_input() as u64, ..s.usage },
            ..s
        },
        StreamEvent::ContentBlockStart { index, content_block } => match content_block {
            StreamBlockStart::ToolUse { id, name } => StreamView {
                blocks: slot_put(
                    s.blocks,
                    index as int,
                    BlockView {
                        is_tool_use: true,
                        tool_id: id@,
                        tool_name: name@,
                        json_fragments: Seq::empty(),
                    },
                ),
                ..s
            },
            StreamBlockStart::Other => s,
        },
        StreamEvent::ContentBlockDelta { index, delta } => match delta {
            StreamDelta::TextDelta { text } => StreamView { text: s.text + text@, ..s },
            StreamDelta::InputJsonDelta { partial_json } => {
                let block = match slot_get(s.blocks, index as int) {
                    Some(block) => block,
                    None => unknown_block(),
                };
                StreamView {
                    blocks: slot_put(
                        s.blocks,
                        index as int,
                        BlockView {
                            json_fragments: block.json_fragments + partial_json@,
                            ..block
                        },
                    ),
                    ..s
                }
            },
            StreamDelta::ThinkingDelta { thinking } => StreamView {
                thinking: s.thinking + thinking@,
                ..s
            },
            StreamDelta::SignatureDelta { signature } => StreamView {
                thinking_signature: Some(signature@),
                ..s
            },
            StreamDelta::Other => s,
        },
        StreamEvent::MessageDelta { usage } => if usage.output_tokens > 0 {
            StreamView {
                usage: Usage { output_tokens: usage.output_tokens, ..s.usage },
                ..s
            }
        } else {
            s
        },
        StreamEvent::Other => s,
    }
}

/// What a series of events makes of what was accumulated.
pub open spec fn events_run(s: StreamView, events: Seq<StreamEvent>) -> StreamView
    decreases events.len(),
{
    if events.len() == 0 {
        s
    } else {
        event_step(events_run(s, events.drop_last()), events.last())
    }
}

/// The text deltas of a series of events, one after the other.
pub open spec fn deltas_of(events: Seq<StreamEvent>) -> Seq<char>
    decreases events.len(),
{
    if events.len() == 0 {
        Seq::empty()
    } else {
        match event_delta(events.last()) {
            Some(delta) => deltas_of(events.drop_last()) + delta,
            None => deltas_of(events.drop_last()),
        }
    }
}

/// The answer text is exactly what was handed out as deltas, in order:
/// reasoning and tool input never become part of it.
pub proof fn text_is_what_was_streamed(s: StreamView, events: Seq<StreamEvent>)
    ensures
        events_run(s, events).text == s.text + deltas_of(events),
    decreases events.len(),
{
    if events.len() > 0 {
        text_is_what_was_streamed(s, events.drop_last());
        let before = deltas_of(events.drop_last());
        match event_delta(events.last()) {
            Some(delta) => {
                assert((s.text + before) + delta =~= s.text + (before + delta));
            },
            None => {},
        }
    } else {
        assert(s.text + deltas_of(events) =~= s.text);
    }
}

/// The call that a completed block asks for: no fragments stand for an empty
/// object.
pub open spec fn block_call(block: BlockView) -> ToolCallView {
    ToolCallView {
        id: block.tool_id,
        name: block.tool_name,
        arguments: if block.json_fragments.len() == 0 {
            jempty()
        } else {
            arguments_of(block.json_fragments)
        },
    }
}

/// The calls that the blocks ask for, in ascending order of their index.
pub open spec fn block_calls(blocks: Seq<(int, BlockView)>) -> Seq<ToolCallView>
    decreases blocks.len(),
{
    if blocks.len() == 0 {
        Seq::empty()
    } else if blocks.last().1.is_tool_use {
        block_calls(blocks.drop_last()).push(block_call(blocks.last().1))
    } else {
        block_calls(blocks.drop_last())
    }
}

/// The message that a stream comes to.
pub open spec fn stream_message(s: StreamView) -> MessageView {
    let message = assistant_view(s.text, block_calls(s.blocks));
    if s.thinking.len() == 0 {
        message
    } else {
        thinking_view(message, s.thinking, s.thinking_signature)
    }
}

impl AnthropicStream {
    /// The open blocks are in ascending order.
    pub closed spec fn wf(&self) -> bool {
        self.blocks.wf()
    }

    /// Nothing received yet.
    pub fn new() -> (r: Self)
        ensures
            r.wf(),
            r@ == (StreamView {
                text: Seq::empty(),
                thinking: Seq::empty(),
                thinking_signature: None,
                blocks: Seq::empty(),
                usage: Usage {
                    input_tokens: 0,
                    output_tokens: 0,
                    cache_read_input_tokens: 0,
                    cache_creation_input_tokens: 0,
                    reasoning_tokens: 0,
                },
            }),
    {
        AnthropicStream {
            text: String::new(),
            thinking: String::new(),
            thinking_signature: None,
            blocks: Slots::new(),
            usage: Usage::new(0, 0),
        }
    }

    /// Take in one event; returns the text it adds to the answer. Reasoning is
    /// kept, and never handed out as text.
    pub fn apply(&mut self, event: StreamEvent) -> (delta: Option<String>)
        requires
            old(self).wf(),
            event_fits(event),
        ensures
            final(self).wf(),
            final(self)@ == event_step(old(self)@, event),
            opt_text(delta) == event_delta(event),
    {
        match event {
            StreamEvent::MessageStart { usage } => {
                self.usage.input_tokens = usage.to_usage().input_tokens;
                None
            },
            StreamEvent::ContentBlockStart { index, content_block } => {
                match content_block {
                    StreamBlockStart::ToolUse { id, name } => {
                        self.blocks.put(
                            index,
                            PartialBlock {
                                is_tool_use: true,
                                tool_id: id,
                                tool_name: name,
                                json_fragments: String::new(),
                            },
                        );
                    },
                    StreamBlockStart::Other => {},
                }
                None
            },
            StreamEvent::ContentBlockDelta { index, delta } => match delta {
                StreamDelta::TextDelta { text } => {
                    self.text.append(text.as_str());
                    Some(text)
                },
                StreamDelta::InputJsonDelta { partial_json } => {
                    let mut block = match self.blocks.take(index) {
                        Some(block) => block,
                        None => PartialBlock {
                            is_tool_use: false,
                            tool_id: String::new(),
                            tool_name: String::new(),
                            json_fragments: String::new(),
                        },
                    };
                    block.json_fragments.append(partial_json.as_str());
                    self.blocks.put(index, block);
                    None
                },
                StreamDelta::ThinkingDelta { thinking } => {
                    self.thinking.append(thinking.as_str());
                    None
                },
                StreamDelta::SignatureDelta { signature } => {
                    self.thinking_signature = Some(signature);
                    None
                },
                StreamDelta::Other => None,
            },
            StreamEvent::MessageDelta { usage } => {
                if usage.output_tokens > 0 {
                    self.usage.output_tokens = usage.output_tokens;
                }
                None
            },
            StreamEvent::Other => None,
        }
    }

    /// The answer text so far.
    pub fn text(&self) -> (r: &str)
        ensures
            r@ == self@.text,
    {
        self.text.as_str()
    }

    /// The answer that the stream came to.
    pub fn finish(self) -> (r: ChatResponse)
        requires
            self.wf(),
        ensures
            r.message@ == stream_message(self@),
            r.usage == self@.usage,
    {
        let mut calls: Vec<ToolCall> = Vec::new();
        let mut i: usize = 0;
        let ghost all = self.blocks@;
        assert(calls_view(calls@) =~= Seq::<ToolCallView>::empty());
        while i < self.blocks.len()
            invariant
                i <= all.len(),
                all == self.blocks@,
                calls_view(calls@) == block_calls(all.take(i as int)),
            decreases all.len() - i,
        {
            assert(all.take(i as int + 1).drop_last() =~= all.take(i as int));
            let ghost before = calls_view(calls@);
            let block = self.blocks.at(i);
            if block.is_tool_use {
                let arguments = if block.json_fragments.as_str().is_empty() {
                    empty_object()
                } else {
                    parse_arguments(block.json_fragments.as_str())
                };
                let call = ToolCall {
                    id: block.tool_id.clone(),
                    name: block.tool_name.clone(),
                    arguments,
                };
                calls.push(call);
                assert(calls_view(calls@) =~= before.push(call@));
            }
            i += 1;
        }
        assert(all.take(i as int) =~= all);
        let AnthropicStream { text, thinking, thinking_signature, blocks: _, usage } = self;
        let message = Message::assistant_with_calls(text, calls);
        let message = if thinking.as_str().is_empty() {
            message
        } else {
            message.with_thinking(thinking, thinking_signature)
        };
        ChatResponse { message, usage }
    }
}

} // verus!
