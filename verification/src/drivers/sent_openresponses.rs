//! What reaches the model of a conversation over the Responses protocol, read
//! back from the wire.

use vstd::prelude::*;

use crate::drivers::content::{image_address, relayed_images};
use crate::drivers::openresponses::{body_view, call_item, content_entry, conversation,
    message_item, message_items, output_calls, output_message, output_text, output_thinking,
    part_entry, said, summed_up, tool_entry, OutputContent, OutputItem, SummaryPart, WireUsage};
use crate::drivers::sent_openai::picture_at;
use crate::json::{json_parse, json_print, lookup, JsonView};
use crate::members::{differ, member_of_one, members_in_two_parts, members_of_four,
    members_of_three, members_of_two};
use crate::message::{an_assistant_says_its_text, images_of, text_of, MessageView, PartView, Role,
    ToolCallView, ToolView};
use crate::text::lower;

verus! {

/// Whether an entry shows a part: its text, typed by who said it, or where its
/// picture is found.
pub open spec fn shows(entry: JsonView, role: Role, part: PartView) -> bool {
    match part {
        PartView::Text(text) => {
            &&& entry.at("type"@) == JsonView::Str(
                if role == Role::Assistant {
                    "output_text"@
                } else {
                    "input_text"@
                },
            )
            &&& entry.at("text"@) == JsonView::Str(text)
        },
        PartView::Image { .. } => {
            &&& entry.at("type"@) == JsonView::Str("input_image"@)
            &&& entry.at("image_url"@) matches JsonView::Str(address) && picture_at(address, part)
        },
    }
}

/// Whether a value shows a content: text alone as one text, anything else part
/// by part.
pub open spec fn shows_all(value: JsonView, role: Role, content: Seq<PartView>) -> bool {
    if forall|i: int| 0 <= i < content.len() ==> (#[trigger] content[i]) is Text {
        value == JsonView::Str(text_of(content))
    } else {
        &&& value is Array
        &&& value->Array_0.len() == content.len()
        &&& forall|i: int|
            0 <= i < content.len() ==> shows(#[trigger] value->Array_0[i], role, content[i])
    }
}

/// Whether an item asks for a call: by its id, its name and its arguments,
/// which are printed.
pub open spec fn asks_for(item: JsonView, call: ToolCallView) -> bool {
    &&& item.at("type"@) == JsonView::Str("function_call"@)
    &&& item.at("call_id"@) == JsonView::Str(call.id)
    &&& item.at("name"@) == JsonView::Str(call.name)
    &&& item.at("arguments"@) == JsonView::Str(json_print(call.arguments))
}

/// How many items the words of an assistant take: none where it says nothing.
pub open spec fn spoken_count(m: MessageView) -> int {
    if text_of(m.content).len() == 0 {
        0
    } else {
        1
    }
}

/// How many items a message takes on the wire.
pub open spec fn item_count(m: MessageView) -> int {
    match m.role {
        Role::System => 1,
        Role::User => 1,
        Role::Assistant => spoken_count(m) + m.tool_calls.len(),
        Role::Tool => if images_of(m.content).len() == 0 {
            1
        } else {
            2
        },
    }
}

/// Whether an item is a message of a role.
pub open spec fn is_message(item: JsonView, role: Seq<char>) -> bool {
    item.at("type"@) == JsonView::Str("message"@) && item.at("role"@) == JsonView::Str(role)
}

/// Whether items say what a message says: who says it, its content, the calls
/// it asks for or the call it answers, and the pictures of a tool result in a
/// user message of their own.
pub open spec fn speaks_for(items: Seq<JsonView>, m: MessageView) -> bool {
    &&& items.len() == item_count(m)
    &&& m.role == Role::System ==> is_message(items[0], "developer"@) && shows_all(
        items[0].at("content"@),
        m.role,
        m.content,
    )
    &&& m.role == Role::User ==> is_message(items[0], "user"@) && shows_all(
        items[0].at("content"@),
        m.role,
        m.content,
    )
    &&& m.role == Role::Assistant ==> {
        let n = spoken_count(m);
        &&& n == 1 ==> is_message(items[0], "assistant"@) && shows_all(
            items[0].at("content"@),
            m.role,
            m.content,
        )
        &&& forall|i: int|
            n <= i < items.len() ==> asks_for(#[trigger] items[i], m.tool_calls[i - n])
    }
    &&& m.role == Role::Tool ==> {
        &&& items[0].at("type"@) == JsonView::Str("function_call_output"@)
        &&& m.tool_call_id matches Some(id) ==> items[0].at("call_id"@) == JsonView::Str(id)
        &&& m.tool_call_id is None ==> items[0].at("call_id"@) is Null
        &&& items[0].at("output"@) == JsonView::Str(text_of(m.content))
        &&& item_count(m) == 2 ==> {
            &&& is_message(items[1], "user"@)
            &&& items[1].at("content"@) is Array
            &&& items[1].at("content"@)->Array_0.len() == images_of(m.content).len() + 1
            &&& forall|i: int|
                1 <= i <= images_of(m.content).len() ==> shows(
                    #[trigger] items[1].at("content"@)->Array_0[i],
                    Role::User,
                    images_of(m.content)[i - 1],
                )
        }
    }
}

/// Whether items say what a conversation says, message after message, with
/// nothing in between.
pub open spec fn tells(items: Seq<JsonView>, messages: Seq<MessageView>) -> bool
    decreases messages.len(),
{
    if messages.len() == 0 {
        items.len() == 0
    } else {
        let n = items.len() - item_count(messages.last());
        &&& 0 <= n
        &&& speaks_for(items.skip(n), messages.last())
        &&& tells(items.take(n), messages.drop_last())
    }
}

proof fn lemma_part(role: Role, part: PartView)
    ensures
        shows(part_entry(role, part), role, part),
{
    reveal_strlit("type");
    reveal_strlit("text");
    reveal_strlit("image_url");
    match part {
        PartView::Text(text) => {
            members_of_two(
                "type"@,
                JsonView::Str(
                    if role == Role::Assistant {
                        "output_text"@
                    } else {
                        "input_text"@
                    },
                ),
                "text"@,
                JsonView::Str(text),
            );
        },
        PartView::Image { url, base64, media_type } => {
            members_of_two(
                "type"@,
                JsonView::Str("input_image"@),
                "image_url"@,
                JsonView::Str(image_address(url, base64, media_type)),
            );
        },
    }
}

proof fn lemma_content(role: Role, content: Seq<PartView>)
    ensures
        shows_all(content_entry(role, content), role, content),
{
    let shown = content.map_values(|p: PartView| part_entry(role, p));
    assert forall|i: int| 0 <= i < content.len() implies shows(
        #[trigger] shown[i],
        role,
        content[i],
    ) by {
        lemma_part(role, content[i]);
    }
}

proof fn lemma_call(call: ToolCallView)
    ensures
        asks_for(call_item(call), call),
{
    reveal_strlit("type");
    reveal_strlit("call_id");
    reveal_strlit("name");
    reveal_strlit("arguments");
    members_of_four(
        "type"@,
        JsonView::Str("function_call"@),
        "call_id"@,
        JsonView::Str(call.id),
        "name"@,
        JsonView::Str(call.name),
        "arguments"@,
        JsonView::Str(json_print(call.arguments)),
    );
}

proof fn lemma_message_item(role: Seq<char>, content: JsonView)
    ensures
        is_message(message_item(role, content), role),
        message_item(role, content).at("content"@) == content,
{
    reveal_strlit("type");
    reveal_strlit("role");
    reveal_strlit("content");
    members_of_three(
        "type"@,
        JsonView::Str("message"@),
        "role"@,
        JsonView::Str(role),
        "content"@,
        content,
    );
}

proof fn lemma_message(m: MessageView)
    ensures
        speaks_for(message_items(m), m),
{
    let items = message_items(m);
    lemma_content(m.role, m.content);
    match m.role {
        Role::System => {
            lemma_message_item("developer"@, content_entry(m.role, m.content));
        },
        Role::User => {
            lemma_message_item("user"@, content_entry(m.role, m.content));
        },
        Role::Assistant => {
            lemma_message_item("assistant"@, content_entry(m.role, m.content));
            let n = spoken_count(m);
            let calls = m.tool_calls.map_values(|c: ToolCallView| call_item(c));
            assert forall|i: int| n <= i < items.len() implies asks_for(
                #[trigger] items[i],
                m.tool_calls[i - n],
            ) by {
                lemma_call(m.tool_calls[i - n]);
                assert(items[i] == calls[i - n]);
            }
        },
        Role::Tool => {
            reveal_strlit("type");
            reveal_strlit("call_id");
            reveal_strlit("output");
            members_of_three(
                "type"@,
                JsonView::Str("function_call_output"@),
                "call_id"@,
                match m.tool_call_id {
                    Some(id) => JsonView::Str(id),
                    None => JsonView::Null,
                },
                "output"@,
                JsonView::Str(text_of(m.content)),
            );
            if images_of(m.content).len() > 0 {
                let parts = relayed_images(m.content, m.tool_call_id);
                lemma_content(Role::User, parts);
                lemma_message_item("user"@, content_entry(Role::User, parts));
                m.content.lemma_filter_pred(|p: PartView| p is Image, 0);
                assert(parts[1] == images_of(m.content)[0]);
                assert(!(parts[1] is Text));
                assert(items[1].at("content"@) == content_entry(Role::User, parts));
                assert forall|i: int| 1 <= i <= images_of(m.content).len() implies shows(
                    #[trigger] items[1].at("content"@)->Array_0[i],
                    Role::User,
                    images_of(m.content)[i - 1],
                ) by {
                    assert(parts[i] == images_of(m.content)[i - 1]);
                }
            }
        },
    }
}

/// The wire form of a conversation says what the conversation says: every
/// message in its role, its content in full, every call under its id and its
/// name, and every result under the id of the call it answers, in order and
/// nothing else.
pub proof fn the_model_sees_the_whole_conversation(messages: Seq<MessageView>)
    ensures
        tells(conversation(messages), messages),
    decreases messages.len(),
{
    if messages.len() > 0 {
        the_model_sees_the_whole_conversation(messages.drop_last());
        let before = conversation(messages.drop_last());
        let added = message_items(messages.last());
        lemma_message(messages.last());
        let all = conversation(messages);
        assert(all.skip(before.len() as int) =~= added);
        assert(all.take(before.len() as int) =~= before);
    }
}

/// A result is found by the call it answers: the id that the result carries is
/// the id that the call was announced under.
pub proof fn results_match_their_calls(call: ToolCallView, answer: MessageView)
    requires
        answer.role == Role::Tool,
        answer.tool_call_id == Some(call.id),
    ensures
        call_item(call).at("call_id"@) == message_items(answer)[0].at("call_id"@),
        call_item(call).at("call_id"@) == JsonView::Str(call.id),
{
    lemma_call(call);
    lemma_message(answer);
}

// ------------------------------------------------------------------ bodies

/// Whether an entry describes a tool: its name, its description, and the
/// schema of its arguments.
pub open spec fn describes(entry: JsonView, tool: ToolView) -> bool {
    &&& entry.at("type"@) == JsonView::Str("function"@)
    &&& entry.at("name"@) == JsonView::Str(tool.name)
    &&& entry.at("description"@) == JsonView::Str(tool.description)
    &&& entry.at("parameters"@) == tool.parameters
}

/// Whether a body asks what is meant: the model, the whole conversation,
/// whether to store it, the system prompt as instructions, the effort to reason
/// with unless that is none, and every tool with its schema, in order. What was
/// not asked for is left out.
pub open spec fn asks(
    body: JsonView,
    store: bool,
    model: Seq<char>,
    effort: Option<Seq<char>>,
    system: Option<Seq<char>>,
    messages: Seq<MessageView>,
    tools: Seq<ToolView>,
) -> bool {
    &&& body.at("model"@) == JsonView::Str(model)
    &&& body.at("store"@) == JsonView::Bool(store)
    &&& body.at("input"@) is Array
    &&& tells(body.at("input"@)->Array_0, messages)
    &&& system matches Some(s) ==> body.at("instructions"@) == JsonView::Str(s)
    &&& system is None ==> body.get("instructions"@) is None
    &&& effort is Some && lower(effort->0) != "none"@ ==> {
        &&& body.at("reasoning"@).at("effort"@) == JsonView::Str(effort->0)
        &&& body.at("reasoning"@).at("summary"@) == JsonView::Str("auto"@)
    }
    &&& effort is None || lower(effort->0) == "none"@ ==> body.get("reasoning"@) is None
    &&& tools.len() == 0 ==> body.get("tools"@) is None
    &&& tools.len() > 0 ==> {
        &&& body.at("tools"@) is Array
        &&& body.at("tools"@)->Array_0.len() == tools.len()
        &&& forall|i: int|
            0 <= i < tools.len() ==> describes(#[trigger] body.at("tools"@)->Array_0[i], tools[i])
    }
}

proof fn lemma_tool(tool: ToolView)
    ensures
        describes(tool_entry(tool), tool),
{
    reveal_strlit("type");
    reveal_strlit("name");
    reveal_strlit("description");
    reveal_strlit("parameters");
    members_of_four(
        "type"@,
        JsonView::Str("function"@),
        "name"@,
        JsonView::Str(tool.name),
        "description"@,
        JsonView::Str(tool.description),
        "parameters"@,
        tool.parameters,
    );
}

proof fn lemma_body(
    store: bool,
    model: Seq<char>,
    effort: Option<Seq<char>>,
    system: Option<Seq<char>>,
    messages: Seq<MessageView>,
    tools: Seq<ToolView>,
    key: Seq<char>,
)
    ensures
        ({
            let body = body_view(store, model, effort, system, messages, tools);
            &&& key == "model"@ ==> body.get(key) == Some(JsonView::Str(model))
            &&& key == "input"@ ==> body.get(key) == Some(JsonView::Array(conversation(messages)))
            &&& key == "store"@ ==> body.get(key) == Some(JsonView::Bool(store))
            &&& key == "instructions"@ ==> body.get(key) == (match system {
                Some(s) => Some(JsonView::Str(s)),
                None => None,
            })
            &&& key == "reasoning"@ ==> body.get(key) == if effort is Some && lower(effort->0)
                != "none"@ {
                Some(
                    JsonView::Object(
                        seq![
                            ("effort"@, JsonView::Str(effort->0)),
                            ("summary"@, JsonView::Str("auto"@)),
                        ],
                    ),
                )
            } else {
                None
            }
            &&& key == "tools"@ ==> body.get(key) == if tools.len() == 0 {
                None
            } else {
                Some(JsonView::Array(tools.map_values(|t: ToolView| tool_entry(t))))
            }
        }),
{
    reveal_strlit("model");
    reveal_strlit("input");
    reveal_strlit("store");
    reveal_strlit("instructions");
    reveal_strlit("reasoning");
    reveal_strlit("tools");
    assert(differ("model"@, "input"@) && differ("model"@, "store"@) && differ(
        "model"@,
        "instructions"@,
    ) && differ("model"@, "reasoning"@) && differ("model"@, "tools"@));
    assert(differ("input"@, "store"@) && differ("input"@, "instructions"@) && differ(
        "input"@,
        "reasoning"@,
    ) && differ("input"@, "tools"@) && differ("store"@, "instructions"@) && differ(
        "store"@,
        "reasoning"@,
    ) && differ("store"@, "tools"@));
    assert(differ("instructions"@, "reasoning"@) && differ("instructions"@, "tools"@) && differ(
        "reasoning"@,
        "tools"@,
    ));
    let none = Seq::<(Seq<char>, JsonView)>::empty();
    let always = seq![
        ("model"@, JsonView::Str(model)),
        ("input"@, JsonView::Array(conversation(messages))),
        ("store"@, JsonView::Bool(store)),
    ];
    let told = match system {
        Some(s) => seq![("instructions"@, JsonView::Str(s))],
        None => none,
    };
    let asked = if effort is Some && lower(effort->0) != "none"@ {
        seq![
            (
                "reasoning"@,
                JsonView::Object(
                    seq![
                        ("effort"@, JsonView::Str(effort->0)),
                        ("summary"@, JsonView::Str("auto"@)),
                    ],
                ),
            ),
        ]
    } else {
        none
    };
    let listed = if tools.len() == 0 {
        none
    } else {
        seq![("tools"@, JsonView::Array(tools.map_values(|t: ToolView| tool_entry(t))))]
    };
    let body = body_view(store, model, effort, system, messages, tools);
    assert(body->Object_0 =~= ((always + told) + asked) + listed);
    members_in_two_parts((always + told) + asked, listed, key);
    members_in_two_parts(always + told, asked, key);
    members_in_two_parts(always, told, key);
    members_of_three("model"@, always[0].1, "input"@, always[1].1, "store"@, always[2].1);
    assert(JsonView::Object(always).get(key) == lookup(always, key));
    if told.len() > 0 {
        member_of_one("instructions"@, told[0].1);
        assert(JsonView::Object(told).get(key) == lookup(told, key));
    }
    if asked.len() > 0 {
        member_of_one("reasoning"@, asked[0].1);
        assert(JsonView::Object(asked).get(key) == lookup(asked, key));
    }
    if listed.len() > 0 {
        member_of_one("tools"@, listed[0].1);
        assert(JsonView::Object(listed).get(key) == lookup(listed, key));
    }
}

/// A request says what was asked: the model, the conversation, whether to store
/// it, the system prompt, the effort and the tools.
pub proof fn a_request_says_what_was_asked(
    store: bool,
    model: Seq<char>,
    effort: Option<Seq<char>>,
    system: Option<Seq<char>>,
    messages: Seq<MessageView>,
    tools: Seq<ToolView>,
)
    ensures
        asks(
            body_view(store, model, effort, system, messages, tools),
            store,
            model,
            effort,
            system,
            messages,
            tools,
        ),
{
    let body = body_view(store, model, effort, system, messages, tools);
    lemma_body(store, model, effort, system, messages, tools, "model"@);
    lemma_body(store, model, effort, system, messages, tools, "input"@);
    lemma_body(store, model, effort, system, messages, tools, "store"@);
    lemma_body(store, model, effort, system, messages, tools, "instructions"@);
    lemma_body(store, model, effort, system, messages, tools, "reasoning"@);
    lemma_body(store, model, effort, system, messages, tools, "tools"@);
    the_model_sees_the_whole_conversation(messages);
    if effort is Some {
        reveal_strlit("effort");
        reveal_strlit("summary");
        members_of_two(
            "effort"@,
            JsonView::Str(effort->0),
            "summary"@,
            JsonView::Str("auto"@),
        );
    }
    if tools.len() > 0 {
        assert forall|i: int| 0 <= i < tools.len() implies describes(
            #[trigger] body.at("tools"@)->Array_0[i],
            tools[i],
        ) by {
            lemma_tool(tools[i]);
        }
    }
}

// --------------------------------------------------------------- responses

/// A response is read item by item: what two lists of items say one after the
/// other, their texts, their calls and their reasoning say one after the other.
pub proof fn responses_are_read_item_by_item(a: Seq<OutputItem>, b: Seq<OutputItem>)
    ensures
        output_text(a + b) == output_text(a) + output_text(b),
        output_calls(a + b) == output_calls(a) + output_calls(b),
        output_thinking(a + b) == output_thinking(a) + output_thinking(b),
    decreases b.len(),
{
    if b.len() == 0 {
        assert(a + b =~= a);
        assert(output_text(a) + output_text(b) =~= output_text(a));
        assert(output_calls(a) + output_calls(b) =~= output_calls(a));
        assert(output_thinking(a) + output_thinking(b) =~= output_thinking(a));
    } else {
        responses_are_read_item_by_item(a, b.drop_last());
        assert((a + b).drop_last() =~= a + b.drop_last());
        assert(output_text(a + b) =~= output_text(a) + output_text(b));
        assert(output_calls(a + b) =~= output_calls(a) + output_calls(b));
        assert(output_thinking(a + b) =~= output_thinking(a) + output_thinking(b));
    }
}

/// The parts of an item are read one by one: a text and a refusal are said, the
/// text of a summary is reasoning, and anything else is nothing.
pub proof fn parts_are_read_one_by_one(
    a: Seq<OutputContent>,
    b: Seq<OutputContent>,
    part: OutputContent,
    c: Seq<SummaryPart>,
    d: Seq<SummaryPart>,
    line: SummaryPart,
)
    ensures
        said(a + b) == said(a) + said(b),
        match part {
            OutputContent::OutputText { text } => said(seq![part]) == text@,
            OutputContent::Refusal { refusal } => said(seq![part]) == refusal@,
            OutputContent::Other => said(seq![part]).len() == 0,
        },
        summed_up(c + d) == summed_up(c) + summed_up(d),
        match line {
            SummaryPart::SummaryText { text } => summed_up(seq![line]) == text@,
            SummaryPart::Other => summed_up(seq![line]).len() == 0,
        },
    decreases b.len() + d.len(),
{
    let one = seq![part];
    assert(one.drop_last() =~= Seq::<OutputContent>::empty());
    assert(said(one.drop_last()) =~= Seq::<char>::empty());
    match part {
        OutputContent::OutputText { text } => {
            assert(said(one) =~= text@);
        },
        OutputContent::Refusal { refusal } => {
            assert(said(one) =~= refusal@);
        },
        OutputContent::Other => {},
    }
    let first = seq![line];
    assert(first.drop_last() =~= Seq::<SummaryPart>::empty());
    assert(summed_up(first.drop_last()) =~= Seq::<char>::empty());
    if let SummaryPart::SummaryText { text } = line {
        assert(summed_up(first) =~= text@);
    }
    if b.len() > 0 {
        parts_are_read_one_by_one(a, b.drop_last(), part, c, d, line);
        assert((a + b).drop_last() =~= a + b.drop_last());
        assert(said(a + b) =~= said(a) + said(b));
    } else {
        assert(a + b =~= a);
        assert(said(a) + said(b) =~= said(a));
    }
    if d.len() > 0 {
        parts_are_read_one_by_one(a, b, part, c, d.drop_last(), line);
        assert((c + d).drop_last() =~= c + d.drop_last());
        assert(summed_up(c + d) =~= summed_up(c) + summed_up(d));
    } else {
        assert(c + d =~= c);
        assert(summed_up(c) + summed_up(d) =~= summed_up(c));
    }
}

/// One item of a response is one thing: a message is said, a call is asked for
/// under the id that its answer must quote, with the arguments that its text
/// stands for, and reasoning is kept apart.
pub proof fn one_item_is_one_thing(item: OutputItem)
    ensures
        ({
            let text = output_text(seq![item]);
            let calls = output_calls(seq![item]);
            let thought = output_thinking(seq![item]);
            match item {
                OutputItem::Message { content } => text == said(content@) && calls.len() == 0
                    && thought.len() == 0,
                OutputItem::FunctionCall { call_id, name, arguments } => {
                    &&& text.len() == 0 && thought.len() == 0 && calls.len() == 1
                    &&& calls[0].id == call_id@
                    &&& calls[0].name == name@
                    &&& json_parse(arguments@) matches Ok(value) ==> calls[0].arguments == value
                    &&& json_parse(arguments@) is Err ==> calls[0].arguments == JsonView::Object(
                        Seq::empty(),
                    )
                },
                OutputItem::Reasoning { summary } => text.len() == 0 && calls.len() == 0 && thought
                    == summed_up(summary@),
                OutputItem::Other => text.len() == 0 && calls.len() == 0 && thought.len() == 0,
            }
        }),
{
    let one = seq![item];
    let none = one.drop_last();
    assert(none =~= Seq::<OutputItem>::empty());
    assert(output_text(none) =~= Seq::<char>::empty());
    assert(output_thinking(none) =~= Seq::<char>::empty());
    assert(output_calls(none) =~= Seq::<ToolCallView>::empty());
    match item {
        OutputItem::Message { content } => {
            assert(output_text(one) =~= said(content@));
            assert(output_thinking(one) =~= Seq::<char>::empty());
            assert(output_calls(one) =~= output_calls(none));
        },
        OutputItem::Reasoning { summary } => {
            assert(output_thinking(one) =~= summed_up(summary@));
        },
        _ => {},
    }
}

/// The answer is an assistant's: its text, its calls in order, and the summary
/// of its reasoning if there was any. It answers no call.
pub proof fn an_answer_holds_what_the_items_say(output: Seq<OutputItem>)
    ensures
        ({
            let m = output_message(output);
            &&& m.role == Role::Assistant
            &&& text_of(m.content) == output_text(output)
            &&& m.tool_calls == output_calls(output)
            &&& m.tool_call_id is None
            &&& m.thinking_signature is None
            &&& output_thinking(output).len() == 0 ==> m.thinking is None
            &&& output_thinking(output).len() > 0 ==> m.thinking == Some(output_thinking(output))
        }),
{
    an_assistant_says_its_text(output_text(output), output_calls(output));
}

/// Every count comes over: tokens sent, tokens written, those the cache served
/// and those that went into reasoning.
pub proof fn every_token_is_counted(usage: WireUsage)
    ensures
        usage.usage_view().input_tokens == usage.input_tokens,
        usage.usage_view().output_tokens == usage.output_tokens,
        usage.usage_view().cache_read_input_tokens == usage.cached_tokens,
        usage.usage_view().reasoning_tokens == usage.reasoning_tokens,
        usage.usage_view().cache_creation_input_tokens == 0,
{
}

} // verus!
