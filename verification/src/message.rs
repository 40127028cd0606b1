//! Messages, requests and responses: what a conversation with a model is made
//! of, independent of the protocol that carries it.

use vstd::prelude::*;

use crate::json::{Json, JsonView};
use crate::text::{clone_opt, opt_text, text_pairs};

verus! {

/// Who a message comes from.
#[derive(Debug, Clone, Copy, PartialEq, Eq, Structural)]
pub enum Role {
    System,
    User,
    Assistant,
    Tool,
}

/// A piece of text in a message.
#[derive(Debug, PartialEq, Eq)]
pub struct TextPart {
    pub text: String,
}

/// A picture in a message: by address, or by its encoded bytes.
#[derive(Debug, PartialEq, Eq)]
pub struct ImagePart {
    pub url: Option<String>,
    pub base64: Option<String>,
    pub media_type: Option<String>,
}

/// One part of a message's content.
#[derive(Debug, PartialEq, Eq)]
pub enum ContentPart {
    Text(TextPart),
    Image(ImagePart),
}

/// The content of a [`ContentPart`].
pub ghost enum PartView {
    Text(Seq<char>),
    Image {
        url: Option<Seq<char>>,
        base64: Option<Seq<char>>,
        media_type: Option<Seq<char>>,
    },
}

impl View for ContentPart {
    type V = PartView;

    open spec fn view(&self) -> PartView {
        match *self {
            ContentPart::Text(part) => PartView::Text(part.text@),
            ContentPart::Image(part) => PartView::Image {
                url: opt_text(part.url),
                base64: opt_text(part.base64),
                media_type: opt_text(part.media_type),
            },
        }
    }
}

impl Clone for ContentPart {
    fn clone(&self) -> (r: Self)
        ensures
            r@ == self@,
    {
        match self {
            ContentPart::Text(part) => ContentPart::Text(TextPart { text: part.text.clone() }),
            ContentPart::Image(part) => ContentPart::Image(
                ImagePart {
                    url: clone_opt(&part.url),
                    base64: clone_opt(&part.base64),
                    media_type: clone_opt(&part.media_type),
                },
            ),
        }
    }
}

impl ContentPart {
    /// A text part.
    pub fn text(text: &str) -> (r: Self)
        ensures
            r@ == PartView::Text(text@),
    {
        ContentPart::Text(TextPart { text: text.to_owned() })
    }

    /// A picture by its address.
    pub fn image_url(url: &str) -> (r: Self)
        ensures
            r@ == (PartView::Image { url: Some(url@), base64: None, media_type: None }),
    {
        ContentPart::Image(
            ImagePart { url: Some(url.to_owned()), base64: None, media_type: None },
        )
    }

    /// A picture by its encoded bytes.
    pub fn image_base64(base64: &str, media_type: &str) -> (r: Self)
        ensures
            r@ == (PartView::Image {
                url: None,
                base64: Some(base64@),
                media_type: Some(media_type@),
            }),
    {
        ContentPart::Image(
            ImagePart {
                url: None,
                base64: Some(base64.to_owned()),
                media_type: Some(media_type.to_owned()),
            },
        )
    }

    /// Whether the part is text.
    pub fn is_text(&self) -> (r: bool)
        ensures
            r == (self@ is Text),
    {
        match self {
            ContentPart::Text(_) => true,
            ContentPart::Image(_) => false,
        }
    }
}

/// A tool call that a model asked for.
#[derive(Debug, PartialEq, Eq)]
pub struct ToolCall {
    pub id: String,
    pub name: String,
    pub arguments: Json,
}

/// The content of a [`ToolCall`].
#[verifier::ext_equal]
pub ghost struct ToolCallView {
    pub id: Seq<char>,
    pub name: Seq<char>,
    pub arguments: JsonView,
}

impl View for ToolCall {
    type V = ToolCallView;

    open spec fn view(&self) -> ToolCallView {
        ToolCallView { id: self.id@, name: self.name@, arguments: self.arguments@ }
    }
}

impl Clone for ToolCall {
    fn clone(&self) -> (r: Self)
        ensures
            r@ == self@,
    {
        ToolCall {
            id: self.id.clone(),
            name: self.name.clone(),
            arguments: self.arguments.clone(),
        }
    }
}

/// The contents of a list of parts.
pub open spec fn parts_view(parts: Seq<ContentPart>) -> Seq<PartView> {
    parts.map_values(|p: ContentPart| p@)
}

/// The contents of a list of calls.
pub open spec fn calls_view(calls: Seq<ToolCall>) -> Seq<ToolCallView> {
    calls.map_values(|c: ToolCall| c@)
}

/// One message of a conversation.
#[derive(Debug, PartialEq, Eq)]
pub struct Message {
    pub role: Role,
    pub content: Vec<ContentPart>,
    /// The calls an assistant message asks for.
    pub tool_calls: Vec<ToolCall>,
    /// The call that a tool message answers.
    pub tool_call_id: Option<String>,
    /// Reasoning that led to an assistant message.
    pub thinking: Option<String>,
    /// The provider's signature of that reasoning.
    pub thinking_signature: Option<String>,
}

/// The content of a [`Message`].
#[verifier::ext_equal]
pub ghost struct MessageView {
    pub role: Role,
    pub content: Seq<PartView>,
    pub tool_calls: Seq<ToolCallView>,
    pub tool_call_id: Option<Seq<char>>,
    pub thinking: Option<Seq<char>>,
    pub thinking_signature: Option<Seq<char>>,
}

impl View for Message {
    type V = MessageView;

    open spec fn view(&self) -> MessageView {
        MessageView {
            role: self.role,
            content: parts_view(self.content@),
            tool_calls: calls_view(self.tool_calls@),
            tool_call_id: opt_text(self.tool_call_id),
            thinking: opt_text(self.thinking),
            thinking_signature: opt_text(self.thinking_signature),
        }
    }
}

/// The text parts of a content, one after the other.
pub open spec fn text_of(content: Seq<PartView>) -> Seq<char>
    decreases content.len(),
{
    if content.len() == 0 {
        Seq::empty()
    } else {
        match content.last() {
            PartView::Text(text) => text_of(content.drop_last()) + text,
            PartView::Image { .. } => text_of(content.drop_last()),
        }
    }
}

/// The pictures of a content, in order.
pub open spec fn images_of(content: Seq<PartView>) -> Seq<PartView> {
    content.filter(|p: PartView| p is Image)
}

/// The content that a text by itself makes: nothing when it is empty.
pub open spec fn spoken(text: Seq<char>) -> Seq<PartView> {
    if text.len() == 0 {
        Seq::empty()
    } else {
        seq![PartView::Text(text)]
    }
}

/// A message of text alone.
pub open spec fn plain_message(role: Role, content: Seq<PartView>) -> MessageView {
    MessageView {
        role,
        content,
        tool_calls: Seq::empty(),
        tool_call_id: None,
        thinking: None,
        thinking_signature: None,
    }
}

/// An assistant message with its text and calls.
pub open spec fn assistant_view(text: Seq<char>, calls: Seq<ToolCallView>) -> MessageView {
    MessageView { tool_calls: calls, ..plain_message(Role::Assistant, spoken(text)) }
}

/// The same message with the reasoning that led to it.
pub open spec fn thinking_view(
    message: MessageView,
    thinking: Seq<char>,
    signature: Option<Seq<char>>,
) -> MessageView {
    MessageView { thinking: Some(thinking), thinking_signature: signature, ..message }
}

/// The text of a content is the text of its parts, put together: what two
/// contents say one after the other is what the first says and then the second.
/// A text part says its text; a picture says nothing.
pub proof fn text_is_put_together(a: Seq<PartView>, b: Seq<PartView>, part: PartView)
    ensures
        text_of(a + b) == text_of(a) + text_of(b),
        part matches PartView::Text(text) ==> text_of(seq![part]) == text,
        part is Image ==> text_of(seq![part]).len() == 0,
    decreases b.len(),
{
    let one = seq![part];
    assert(one.drop_last() =~= Seq::<PartView>::empty());
    assert(text_of(one.drop_last()) =~= Seq::<char>::empty());
    if let PartView::Text(text) = part {
        assert(text_of(one) =~= text);
    }
    if b.len() == 0 {
        assert(a + b =~= a);
        assert(text_of(a) + text_of(b) =~= text_of(a));
    } else {
        text_is_put_together(a, b.drop_last(), part);
        assert((a + b).drop_last() =~= a + b.drop_last());
        assert(text_of(a + b) =~= text_of(a) + text_of(b));
    }
}

/// The pictures of a content are its pictures and nothing else, in order.
pub proof fn pictures_are_picked_out(a: Seq<PartView>, b: Seq<PartView>, part: PartView)
    ensures
        images_of(a + b) == images_of(a) + images_of(b),
        part is Image ==> images_of(seq![part]) == seq![part],
        part is Text ==> images_of(seq![part]).len() == 0,
{
    Seq::filter_distributes_over_add(a, b, |p: PartView| p is Image);
    reveal(Seq::filter);
    let keep = |p: PartView| p is Image;
    let one = seq![part];
    assert(one.drop_last() =~= Seq::<PartView>::empty());
    assert(one.drop_last().filter(keep) =~= Seq::<PartView>::empty());
    if part is Image {
        assert(one.filter(keep) =~= one);
    }
}

/// An assistant's message says its text and asks for its calls, and answers no
/// call; a text that is empty makes no part.
pub proof fn an_assistant_says_its_text(text: Seq<char>, calls: Seq<ToolCallView>)
    ensures
        assistant_view(text, calls).role == Role::Assistant,
        text_of(assistant_view(text, calls).content) == text,
        assistant_view(text, calls).content.len() == if text.len() == 0 {
            0nat
        } else {
            1nat
        },
        assistant_view(text, calls).tool_calls == calls,
        assistant_view(text, calls).tool_call_id is None,
        assistant_view(text, calls).thinking is None,
        assistant_view(text, calls).thinking_signature is None,
{
    let none = Seq::<PartView>::empty();
    text_is_put_together(none, none, PartView::Text(text));
    if text.len() == 0 {
        assert(text_of(assistant_view(text, calls).content) =~= text);
    }
}

/// Reasoning is added to a message, and nothing else of it changes.
pub proof fn reasoning_is_added(
    message: MessageView,
    thinking: Seq<char>,
    signature: Option<Seq<char>>,
)
    ensures
        thinking_view(message, thinking, signature).thinking == Some(thinking),
        thinking_view(message, thinking, signature).thinking_signature == signature,
        thinking_view(message, thinking, signature).role == message.role,
        thinking_view(message, thinking, signature).content == message.content,
        thinking_view(message, thinking, signature).tool_calls == message.tool_calls,
        thinking_view(message, thinking, signature).tool_call_id == message.tool_call_id,
{
}

impl Message {
    fn plain(role: Role, content: Vec<ContentPart>) -> (r: Self)
        ensures
            r@ == plain_message(role, parts_view(content@)),
    {
        let r = Message {
            role,
            content,
            tool_calls: Vec::new(),
            tool_call_id: None,
            thinking: None,
            thinking_signature: None,
        };
        assert(r@.tool_calls =~= Seq::<ToolCallView>::empty());
        r
    }

    fn spoken_parts(text: String) -> (r: Vec<ContentPart>)
        ensures
            parts_view(r@) == spoken(text@),
    {
        if text.as_str().is_empty() {
            let r: Vec<ContentPart> = Vec::new();
            assert(parts_view(r@) =~= spoken(text@));
            r
        } else {
            let r = vec![ContentPart::Text(TextPart { text })];
            assert(parts_view(r@) =~= spoken(text@));
            r
        }
    }

    /// A user message of one text.
    pub fn user(text: &str) -> (r: Self)
        ensures
            r@ == plain_message(Role::User, seq![PartView::Text(text@)]),
    {
        let content = vec![ContentPart::text(text)];
        assert(parts_view(content@) =~= seq![PartView::Text(text@)]);
        Message::plain(Role::User, content)
    }

    /// A user message of several parts.
    pub fn user_multimodal(content: Vec<ContentPart>) -> (r: Self)
        ensures
            r@ == plain_message(Role::User, parts_view(content@)),
    {
        Message::plain(Role::User, content)
    }

    /// An assistant message of text alone. An empty text makes no part.
    pub fn assistant(text: String) -> (r: Self)
        ensures
            r@ == assistant_view(text@, Seq::empty()),
    {
        Message::plain(Role::Assistant, Message::spoken_parts(text))
    }

    /// An assistant message with the calls it asks for. An empty text makes
    /// no part.
    pub fn assistant_with_calls(text: String, calls: Vec<ToolCall>) -> (r: Self)
        ensures
            r@ == assistant_view(text@, calls_view(calls@)),
    {
        let mut r = Message::assistant(text);
        r.tool_calls = calls;
        r
    }

    /// The same message with the reasoning that led to it.
    pub fn with_thinking(self, thinking: String, signature: Option<String>) -> (r: Self)
        ensures
            r@ == thinking_view(self@, thinking@, opt_text(signature)),
    {
        let mut r = self;
        r.thinking = Some(thinking);
        r.thinking_signature = signature;
        r
    }

    /// The answer to a tool call.
    pub fn tool_result(call_id: &str, text: &str) -> (r: Self)
        ensures
            r@ == (MessageView {
                tool_call_id: Some(call_id@),
                ..plain_message(Role::Tool, seq![PartView::Text(text@)])
            }),
    {
        let content = vec![ContentPart::text(text)];
        assert(parts_view(content@) =~= seq![PartView::Text(text@)]);
        let mut r = Message::plain(Role::Tool, content);
        r.tool_call_id = Some(call_id.to_owned());
        r
    }

    /// The answer to a tool call, with further parts after its text.
    pub fn tool_result_with_parts(call_id: &str, text: &str, parts: Vec<ContentPart>) -> (r: Self)
        ensures
            r@ == (MessageView {
                tool_call_id: Some(call_id@),
                ..plain_message(Role::Tool, seq![PartView::Text(text@)] + parts_view(parts@))
            }),
    {
        let mut rest = parts;
        let mut content = vec![ContentPart::text(text)];
        content.append(&mut rest);
        assert(parts_view(content@) =~= seq![PartView::Text(text@)] + parts_view(parts@));
        let mut r = Message::plain(Role::Tool, content);
        r.tool_call_id = Some(call_id.to_owned());
        r
    }

    /// The text parts of the message, one after the other.
    pub fn text(&self) -> (r: String)
        ensures
            r@ == text_of(self@.content),
    {
        joined_text(&self.content)
    }
}

impl Clone for Message {
    fn clone(&self) -> (r: Self)
        ensures
            r@ == self@,
    {
        Message {
            role: self.role,
            content: clone_parts(&self.content),
            tool_calls: clone_calls(&self.tool_calls),
            tool_call_id: clone_opt(&self.tool_call_id),
            thinking: clone_opt(&self.thinking),
            thinking_signature: clone_opt(&self.thinking_signature),
        }
    }
}

/// The text parts of a content, one after the other.
pub fn joined_text(content: &Vec<ContentPart>) -> (r: String)
    ensures
        r@ == text_of(parts_view(content@)),
{
    let mut r = String::new();
    let mut i: usize = 0;
    let ghost all = parts_view(content@);
    while i < content.len()
        invariant
            i <= content@.len(),
            all == parts_view(content@),
            r@ == text_of(all.take(i as int)),
        decreases content.len() - i,
    {
        assert(all.take(i as int + 1).drop_last() =~= all.take(i as int));
        match &content[i] {
            ContentPart::Text(part) => {
                r.append(part.text.as_str());
            },
            ContentPart::Image(_) => {},
        }
        i += 1;
    }
    assert(all.take(i as int) =~= all);
    r
}

/// A copy of a list of parts.
pub fn clone_parts(parts: &Vec<ContentPart>) -> (r: Vec<ContentPart>)
    ensures
        parts_view(r@) == parts_view(parts@),
{
    let mut r: Vec<ContentPart> = Vec::new();
    let mut i: usize = 0;
    while i < parts.len()
        invariant
            r@.len() == i <= parts@.len(),
            forall|k: int| 0 <= k < i ==> (#[trigger] r@[k])@ == parts@[k]@,
        decreases parts.len() - i,
    {
        r.push(parts[i].clone());
        i += 1;
    }
    assert(parts_view(r@) =~= parts_view(parts@));
    r
}

/// A copy of a list of calls.
pub fn clone_calls(calls: &Vec<ToolCall>) -> (r: Vec<ToolCall>)
    ensures
        calls_view(r@) == calls_view(calls@),
{
    let mut r: Vec<ToolCall> = Vec::new();
    let mut i: usize = 0;
    while i < calls.len()
        invariant
            r@.len() == i <= calls@.len(),
            forall|k: int| 0 <= k < i ==> (#[trigger] r@[k])@ == calls@[k]@,
        decreases calls.len() - i,
    {
        r.push(calls[i].clone());
        i += 1;
    }
    assert(calls_view(r@) =~= calls_view(calls@));
    r
}

/// Copies of the pictures of a content, in order.
pub fn image_parts(content: &Vec<ContentPart>) -> (r: Vec<ContentPart>)
    ensures
        parts_view(r@) == images_of(parts_view(content@)),
{
    let mut r: Vec<ContentPart> = Vec::new();
    let mut i: usize = 0;
    let ghost all = parts_view(content@);
    let ghost keep = |p: PartView| p is Image;
    assert(all.take(0).filter(keep) =~= Seq::<PartView>::empty()) by {
        reveal(Seq::filter);
    }
    while i < content.len()
        invariant
            i <= content@.len(),
            all == parts_view(content@),
            keep == (|p: PartView| p is Image),
            parts_view(r@) == all.take(i as int).filter(keep),
        decreases content.len() - i,
    {
        let ghost before = parts_view(r@);
        proof {
            assert(all.take(i as int + 1).drop_last() =~= all.take(i as int));
            reveal(Seq::filter);
        }
        if !content[i].is_text() {
            r.push(content[i].clone());
            assert(parts_view(r@) =~= before.push(all[i as int]));
        }
        i += 1;
    }
    assert(all.take(i as int) =~= all);
    r
}

/// The tokens that a completion took.
#[derive(Debug, Clone, Copy, PartialEq, Eq, Structural)]
pub struct Usage {
    pub input_tokens: u64,
    pub output_tokens: u64,
    /// Of the input tokens, those served from the provider's cache.
    pub cache_read_input_tokens: u64,
    /// Of the input tokens, those written to the provider's cache.
    pub cache_creation_input_tokens: u64,
    /// Of the output tokens, those spent on reasoning.
    pub reasoning_tokens: u64,
}

impl Usage {
    /// A count without any breakdown.
    pub fn new(input_tokens: u64, output_tokens: u64) -> (r: Self)
        ensures
            r == (Usage {
                input_tokens,
                output_tokens,
                cache_read_input_tokens: 0,
                cache_creation_input_tokens: 0,
                reasoning_tokens: 0,
            }),
    {
        Usage {
            input_tokens,
            output_tokens,
            cache_read_input_tokens: 0,
            cache_creation_input_tokens: 0,
            reasoning_tokens: 0,
        }
    }

    /// The same count with what the cache served and stored.
    pub fn with_cache(self, read: u64, created: u64) -> (r: Self)
        ensures
            r == (Usage {
                cache_read_input_tokens: read,
                cache_creation_input_tokens: created,
                ..self
            }),
    {
        let mut r = self;
        r.cache_read_input_tokens = read;
        r.cache_creation_input_tokens = created;
        r
    }

    /// The same count with what went into reasoning.
    pub fn with_reasoning(self, reasoning_tokens: u64) -> (r: Self)
        ensures
            r == (Usage { reasoning_tokens, ..self }),
    {
        let mut r = self;
        r.reasoning_tokens = reasoning_tokens;
        r
    }
}

impl Default for Usage {
    fn default() -> (r: Self)
        ensures
            r == (Usage {
                input_tokens: 0,
                output_tokens: 0,
                cache_read_input_tokens: 0,
                cache_creation_input_tokens: 0,
                reasoning_tokens: 0,
            }),
    {
        Usage::new(0, 0)
    }
}

/// How much a model is asked to reason.
#[derive(Debug, PartialEq, Eq)]
pub struct ReasoningConfig {
    pub effort: Option<String>,
    pub budget_tokens: Option<u32>,
}

/// Which model answers, and how it is reached.
#[derive(Debug, PartialEq, Eq)]
pub struct ModelSpec {
    /// The service, or the driver, that serves the model.
    pub provider: String,
    pub model: String,
    pub reasoning: Option<ReasoningConfig>,
    pub api_key: Option<String>,
}

impl ModelSpec {
    /// A model of a provider, with nothing else set.
    pub fn on(provider: &str, model: &str) -> (r: Self)
        ensures
            r.provider@ == provider@,
            r.model@ == model@,
            r.reasoning is None,
            r.api_key is None,
    {
        ModelSpec {
            provider: provider.to_owned(),
            model: model.to_owned(),
            reasoning: None,
            api_key: None,
        }
    }

    /// Ask for a reasoning effort.
    pub fn reasoning_effort(self, effort: &str) -> (r: Self)
        ensures
            r.provider == self.provider,
            r.model == self.model,
            r.api_key == self.api_key,
            r.effort() == Some(effort@),
            r.budget() == self.budget(),
    {
        let budget_tokens = match &self.reasoning {
            Some(reasoning) => reasoning.budget_tokens,
            None => None,
        };
        let mut r = self;
        r.reasoning = Some(ReasoningConfig { effort: Some(effort.to_owned()), budget_tokens });
        r
    }

    /// Give the model a budget of tokens to think with.
    pub fn thinking_budget(self, budget: u32) -> (r: Self)
        ensures
            r.provider == self.provider,
            r.model == self.model,
            r.api_key == self.api_key,
            r.effort() == self.effort(),
            r.budget() == Some(budget),
    {
        let effort = match &self.reasoning {
            Some(reasoning) => clone_opt(&reasoning.effort),
            None => None,
        };
        let mut r = self;
        r.reasoning = Some(ReasoningConfig { effort, budget_tokens: Some(budget) });
        r
    }

    /// The effort asked for.
    pub open spec fn effort(self) -> Option<Seq<char>> {
        match self.reasoning {
            Some(reasoning) => opt_text(reasoning.effort),
            None => None,
        }
    }

    /// The thinking budget given.
    pub open spec fn budget(self) -> Option<u32> {
        match self.reasoning {
            Some(reasoning) => reasoning.budget_tokens,
            None => None,
        }
    }
}

/// A tool as it is shown to a model.
#[derive(Debug, PartialEq, Eq)]
pub struct ToolDefinition {
    pub name: String,
    pub description: String,
    /// The JSON schema of the arguments.
    pub parameters: Json,
    /// What a host may read of the tool; a model never sees it.
    pub metadata: Json,
}

/// The content of a [`ToolDefinition`].
#[verifier::ext_equal]
pub ghost struct ToolView {
    pub name: Seq<char>,
    pub description: Seq<char>,
    pub parameters: JsonView,
    pub metadata: JsonView,
}

impl View for ToolDefinition {
    type V = ToolView;

    open spec fn view(&self) -> ToolView {
        ToolView {
            name: self.name@,
            description: self.description@,
            parameters: self.parameters@,
            metadata: self.metadata@,
        }
    }
}

impl ToolDefinition {
    /// A tool without metadata.
    pub fn new(name: &str, description: &str, parameters: Json) -> (r: Self)
        ensures
            r@ == (ToolView {
                name: name@,
                description: description@,
                parameters: parameters@,
                metadata: JsonView::Null,
            }),
    {
        ToolDefinition {
            name: name.to_owned(),
            description: description.to_owned(),
            parameters,
            metadata: Json::Null,
        }
    }
}

/// The contents of a list of tools.
pub open spec fn tools_view(tools: Seq<ToolDefinition>) -> Seq<ToolView> {
    tools.map_values(|t: ToolDefinition| t@)
}

/// What a tool call came to.
#[derive(Debug, PartialEq, Eq)]
pub struct ToolOutput {
    pub content: String,
    pub is_error: bool,
    /// What a host may read of the outcome; a model never sees it.
    pub metadata: Json,
}

/// The content of a [`ToolOutput`].
#[verifier::ext_equal]
pub ghost struct OutputView {
    pub content: Seq<char>,
    pub is_error: bool,
    pub metadata: JsonView,
}

impl View for ToolOutput {
    type V = OutputView;

    open spec fn view(&self) -> OutputView {
        OutputView {
            content: self.content@,
            is_error: self.is_error,
            metadata: self.metadata@,
        }
    }
}

/// A successful output without metadata.
pub open spec fn text_output(content: Seq<char>) -> OutputView {
    OutputView { content, is_error: false, metadata: JsonView::Null }
}

/// A failed output.
pub open spec fn error_output(content: Seq<char>) -> OutputView {
    OutputView { content, is_error: true, metadata: JsonView::Null }
}

/// A failure is marked as one and a success is not; both say their text, and
/// neither tells a host anything more.
pub proof fn failures_are_marked(content: Seq<char>)
    ensures
        error_output(content).is_error,
        error_output(content).content == content,
        error_output(content).metadata is Null,
        !text_output(content).is_error,
        text_output(content).content == content,
        text_output(content).metadata is Null,
{
}

impl ToolOutput {
    /// A successful output.
    pub fn text(content: String) -> (r: Self)
        ensures
            r@ == text_output(content@),
    {
        ToolOutput { content, is_error: false, metadata: Json::Null }
    }

    /// A failed output.
    pub fn error(content: String) -> (r: Self)
        ensures
            r@ == error_output(content@),
    {
        ToolOutput { content, is_error: true, metadata: Json::Null }
    }

    /// The same output with metadata for the host.
    pub fn with_metadata(self, metadata: Json) -> (r: Self)
        ensures
            r@ == (OutputView { metadata: metadata@, ..self@ }),
    {
        let mut r = self;
        r.metadata = metadata;
        r
    }
}

/// Where a request goes, and the headers it carries.
#[derive(Debug, PartialEq, Eq)]
pub struct Endpoint {
    pub base_url: Option<String>,
    pub headers: Vec<(String, String)>,
}

/// One request to a model.
#[derive(Debug, PartialEq, Eq)]
pub struct ChatRequest {
    pub model: ModelSpec,
    pub system_prompt: Option<String>,
    pub messages: Vec<Message>,
    pub tools: Vec<ToolDefinition>,
    pub endpoint: Endpoint,
}

/// The contents of a list of messages.
pub open spec fn messages_view(messages: Seq<Message>) -> Seq<MessageView> {
    messages.map_values(|m: Message| m@)
}

impl ChatRequest {
    /// A request without a system prompt, tools or an endpoint.
    pub fn new(model: ModelSpec, messages: Vec<Message>) -> (r: Self)
        ensures
            r.model == model,
            r.system_prompt is None,
            r.messages == messages,
            r.tools@.len() == 0,
            r.endpoint.base_url is None,
            text_pairs(r.endpoint.headers@).len() == 0,
    {
        ChatRequest {
            model,
            system_prompt: None,
            messages,
            tools: Vec::new(),
            endpoint: Endpoint { base_url: None, headers: Vec::new() },
        }
    }
}

/// One answer of a model.
#[derive(Debug, PartialEq, Eq)]
pub struct ChatResponse {
    pub message: Message,
    pub usage: Usage,
}

/// What kind of failure a model call met.
#[derive(Debug, Clone, Copy, PartialEq, Eq, Structural)]
pub enum LlmErrorKind {
    Authentication,
    RateLimited,
    Overloaded,
    InvalidRequest,
    ServerError,
    Timeout,
    Network,
    Unknown,
}

impl LlmErrorKind {
    /// Whether the same request may succeed when it is sent again.
    pub open spec fn retryable(self) -> bool {
        match self {
            LlmErrorKind::RateLimited => true,
            LlmErrorKind::Overloaded => true,
            LlmErrorKind::ServerError => true,
            LlmErrorKind::Timeout => true,
            LlmErrorKind::Network => true,
            _ => false,
        }
    }

    /// Whether the same request may succeed when it is sent again.
    pub fn is_retryable(self) -> (r: bool)
        ensures
            r == self.retryable(),
    {
        match self {
            LlmErrorKind::RateLimited => true,
            LlmErrorKind::Overloaded => true,
            LlmErrorKind::ServerError => true,
            LlmErrorKind::Timeout => true,
            LlmErrorKind::Network => true,
            _ => false,
        }
    }
}

/// Whether a failed call is worth another try: where the service was reached
/// too often, was overloaded or failed itself, and where it was not reached in
/// time or at all. A request that is wrong or not allowed stays so.
pub proof fn passing_failures_are_retried(kind: LlmErrorKind)
    ensures
        kind.retryable() <==> !(kind is Authentication) && !(kind is InvalidRequest) && !(kind
            is Unknown),
{
}

/// Why a turn was sealed before it completed.
#[derive(Debug, Clone, Copy, PartialEq, Eq, Structural)]
pub enum SealReason {
    BudgetExhausted,
}

/// What can go wrong.
#[derive(Debug, PartialEq, Eq)]
pub enum Error {
    /// A model call failed.
    Driver { kind: LlmErrorKind, message: String },
    /// No driver is registered under the id; these are.
    UnknownDriver { id: String, registered: Vec<String> },
    /// The parts of an agent do not fit together.
    InvalidAgent(String),
    /// An MCP server or its connection failed.
    Mcp(String),
    /// The event log could not be read or written.
    EventLog(String),
    /// A batch was written for another version of the session.
    EventConflict { expected: u64, actual: u64 },
    /// A turn took more iterations than allowed.
    MaxIterations(usize),
    /// A turn was stopped from outside.
    Cancelled,
    /// A turn was stopped deliberately.
    Sealed(SealReason),
    /// Anything else.
    Other(String),
}

impl Error {
    /// Whether this is a model failure of that kind with that message.
    pub open spec fn is_driver(self, kind: LlmErrorKind, message: Seq<char>) -> bool {
        self matches Error::Driver { kind: k, message: m } && k == kind && m@ == message
    }

    /// Whether this is an MCP failure with that message.
    pub open spec fn is_mcp(self, message: Seq<char>) -> bool {
        self matches Error::Mcp(m) && m@ == message
    }

    /// Whether this is an event log failure with that message.
    pub open spec fn is_event_log(self, message: Seq<char>) -> bool {
        self matches Error::EventLog(m) && m@ == message
    }

    /// Whether this is a failure of no other kind, with that message.
    pub open spec fn is_other(self, message: Seq<char>) -> bool {
        self matches Error::Other(m) && m@ == message
    }

    /// A model failure.
    pub fn driver(kind: LlmErrorKind, message: String) -> (r: Self)
        ensures
            r.is_driver(kind, message@),
    {
        Error::Driver { kind, message }
    }

    /// Whether the same call may succeed when it is made again.
    pub fn is_retryable(&self) -> (r: bool)
        ensures
            r == (self matches Error::Driver { kind, message } && kind.retryable()),
    {
        match self {
            Error::Driver { kind, .. } => kind.is_retryable(),
            _ => false,
        }
    }
}

/// A failure is of one kind, and says its own text: of whatever kind it is
/// taken for, that is its kind, and the text is the one it carries.
pub proof fn a_failure_says_its_own_text(e: Error, kind: LlmErrorKind, text: Seq<char>)
    ensures
        e matches Error::Driver { kind: k, message } ==> (e.is_driver(kind, text) <==> k == kind
            && message@ == text),
        !(e is Driver) ==> !e.is_driver(kind, text),
        e matches Error::Mcp(message) ==> (e.is_mcp(text) <==> message@ == text),
        !(e is Mcp) ==> !e.is_mcp(text),
        e matches Error::EventLog(message) ==> (e.is_event_log(text) <==> message@ == text),
        !(e is EventLog) ==> !e.is_event_log(text),
        e matches Error::Other(message) ==> (e.is_other(text) <==> message@ == text),
        !(e is Other) ==> !e.is_other(text),
{
}

} // verus!
