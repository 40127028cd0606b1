//! What reaches the model of a conversation over Chat Completions, read back
//! from the wire.

use vstd::prelude::*;

use crate::drivers::content::{image_address, relayed_images};
use crate::drivers::openai::{body_view, call_entry, choice_message, content_entry, conversation,
    message_entries, message_entry, part_entry, role_entry, tool_entry, ChoiceMessage, WireUsage};
use crate::json::{json_parse, json_print, lookup, JsonView};
use crate::members::{differ, member_of_one, members_in_two_parts, members_of_three,
    members_of_two};
use crate::message::{an_assistant_says_its_text, images_of, text_of, MessageView, PartView, Role,
    ToolCallView, ToolView};

verus! {

/// Where a picture is found.
pub open spec fn picture_at(address: Seq<char>, part: PartView) -> bool {
    part matches PartView::Image { url, base64, media_type } && match url {
        Some(url) => address == url,
        None => address == "data:"@ + (match media_type {
            Some(kind) => kind,
            None => "image/png"@,
        }) + ";base64,"@ + (match base64 {
            Some(data) => data,
            None => ""@,
        }),
    }
}

/// Whether an entry shows a part: its text, or where its picture is found.
pub open spec fn shows(entry: JsonView, part: PartView) -> bool {
    match part {
        PartView::Text(text) => {
            &&& entry.at("type"@) == JsonView::Str("text"@)
            &&& entry.at("text"@) == JsonView::Str(text)
        },
        PartView::Image { .. } => {
            &&& entry.at("type"@) == JsonView::Str("image_url"@)
            &&& entry.at("image_url"@).at("url"@) matches JsonView::Str(address) && picture_at(
                address,
                part,
            )
        },
    }
}

/// Whether a value shows a content: text alone as one text, anything else part
/// by part.
pub open spec fn shows_all(value: JsonView, content: Seq<PartView>) -> bool {
    if forall|i: int| 0 <= i < content.len() ==> (#[trigger] content[i]) is Text {
        value == JsonView::Str(text_of(content))
    } else {
        &&& value is Array
        &&& value->Array_0.len() == content.len()
        &&& forall|i: int|
            0 <= i < content.len() ==> shows(#[trigger] value->Array_0[i], content[i])
    }
}

/// Whether an entry asks for a call: by its id, its name and its arguments,
/// which are printed.
pub open spec fn asks_for(entry: JsonView, call: ToolCallView) -> bool {
    &&& entry.at("id"@) == JsonView::Str(call.id)
    &&& entry.at("type"@) == JsonView::Str("function"@)
    &&& entry.at("function"@).at("name"@) == JsonView::Str(call.name)
    &&& entry.at("function"@).at("arguments"@) == JsonView::Str(json_print(call.arguments))
}

/// How many entries a message takes on the wire: a tool result with pictures
/// takes one more for them.
pub open spec fn entry_count(m: MessageView) -> int {
    if m.role == Role::Tool && images_of(m.content).len() > 0 {
        2
    } else {
        1
    }
}

/// Whether entries say what a message says: who says it, its content, the
/// calls it asks for or the call it answers, and the pictures of a tool result
/// in a user message of their own.
pub open spec fn speaks_for(entries: Seq<JsonView>, m: MessageView) -> bool {
    let entry = entries[0];
    &&& entries.len() == entry_count(m)
    &&& entry.at("role"@) == JsonView::Str(
        match m.role {
            Role::System => "system"@,
            Role::User => "user"@,
            Role::Assistant => "assistant"@,
            Role::Tool => "tool"@,
        },
    )
    &&& m.role != Role::Tool ==> shows_all(entry.at("content"@), m.content) && entry.get(
        "tool_call_id"@,
    ) is None
    &&& m.role == Role::Assistant && m.tool_calls.len() > 0 ==> {
        &&& entry.at("tool_calls"@) is Array
        &&& entry.at("tool_calls"@)->Array_0.len() == m.tool_calls.len()
        &&& forall|i: int|
            0 <= i < m.tool_calls.len() ==> asks_for(
                #[trigger] entry.at("tool_calls"@)->Array_0[i],
                m.tool_calls[i],
            )
    }
    &&& m.role != Role::Assistant || m.tool_calls.len() == 0 ==> entry.get("tool_calls"@) is None
    &&& m.role == Role::Tool ==> {
        &&& m.tool_call_id matches Some(id) ==> entry.at("tool_call_id"@) == JsonView::Str(id)
        &&& m.tool_call_id is None ==> entry.at("tool_call_id"@) is Null
        &&& entry.at("content"@) == JsonView::Str(text_of(m.content))
    }
    &&& entry_count(m) == 2 ==> {
        &&& entries[1].at("role"@) == JsonView::Str("user"@)
        &&& entries[1].at("content"@) is Array
        &&& entries[1].at("content"@)->Array_0.len() == images_of(m.content).len() + 1
        &&& forall|i: int|
            1 <= i <= images_of(m.content).len() ==> shows(
                #[trigger] entries[1].at("content"@)->Array_0[i],
                images_of(m.content)[i - 1],
            )
    }
}

/// Whether entries say what a conversation says, message after message, with
/// nothing in between.
pub open spec fn tells(entries: Seq<JsonView>, messages: Seq<MessageView>) -> bool
    decreases messages.len(),
{
    if messages.len() == 0 {
        entries.len() == 0
    } else {
        let n = entries.len() - entry_count(messages.last());
        &&& 0 <= n
        &&& speaks_for(entries.skip(n), messages.last())
        &&& tells(entries.take(n), messages.drop_last())
    }
}

proof fn lemma_part(part: PartView)
    ensures
        shows(part_entry(part), part),
{
    reveal_strlit("type");
    reveal_strlit("text");
    reveal_strlit("image_url");
    match part {
        PartView::Text(text) => {
            members_of_two("type"@, JsonView::Str("text"@), "text"@, JsonView::Str(text));
        },
        PartView::Image { url, base64, media_type } => {
            let address = image_address(url, base64, media_type);
            member_of_one("url"@, JsonView::Str(address));
            members_of_two(
                "type"@,
                JsonView::Str("image_url"@),
                "image_url"@,
                JsonView::Object(seq![("url"@, JsonView::Str(address))]),
            );
        },
    }
}

proof fn lemma_content(content: Seq<PartView>)
    ensures
        shows_all(content_entry(content), content),
{
    let shown = content.map_values(|p: PartView| part_entry(p));
    assert forall|i: int| 0 <= i < content.len() implies shows(#[trigger] shown[i], content[i]) by {
        lemma_part(content[i]);
    }
}

proof fn lemma_call(call: ToolCallView)
    ensures
        asks_for(call_entry(call), call),
{
    reveal_strlit("id");
    reveal_strlit("type");
    reveal_strlit("function");
    reveal_strlit("name");
    reveal_strlit("arguments");
    let function = JsonView::Object(
        seq![
            ("name"@, JsonView::Str(call.name)),
            ("arguments"@, JsonView::Str(json_print(call.arguments))),
        ],
    );
    members_of_two(
        "name"@,
        JsonView::Str(call.name),
        "arguments"@,
        JsonView::Str(json_print(call.arguments)),
    );
    members_of_three(
        "id"@,
        JsonView::Str(call.id),
        "type"@,
        JsonView::Str("function"@),
        "function"@,
        function,
    );
}

proof fn lemma_message(m: MessageView)
    ensures
        speaks_for(message_entries(m), m),
{
    reveal_strlit("role");
    reveal_strlit("content");
    reveal_strlit("tool_calls");
    reveal_strlit("tool_call_id");
    assert(differ("role"@, "content"@) && differ("role"@, "tool_calls"@) && differ(
        "role"@,
        "tool_call_id"@,
    ) && differ("content"@, "tool_calls"@) && differ("content"@, "tool_call_id"@) && differ(
        "tool_calls"@,
        "tool_call_id"@,
    ));
    let entry = message_entry(m);
    let entries = message_entries(m);
    assert(entries[0] == entry);
    lemma_content(m.content);
    match m.role {
        Role::Tool => {
            members_of_three(
                "role"@,
                JsonView::Str("tool"@),
                "tool_call_id"@,
                match m.tool_call_id {
                    Some(id) => JsonView::Str(id),
                    None => JsonView::Null,
                },
                "content"@,
                JsonView::Str(text_of(m.content)),
            );
            if images_of(m.content).len() > 0 {
                let parts = relayed_images(m.content, m.tool_call_id);
                lemma_content(parts);
                members_of_two("role"@, JsonView::Str("user"@), "content"@, content_entry(parts));
                lemma_images(m.content, 0);
                assert(parts[1] == images_of(m.content)[0]);
                assert(!(parts[1] is Text));
                assert(entries[1].at("content"@) == content_entry(parts));
                assert forall|i: int| 1 <= i <= images_of(m.content).len() implies shows(
                    #[trigger] entries[1].at("content"@)->Array_0[i],
                    images_of(m.content)[i - 1],
                ) by {
                    assert(parts[i] == images_of(m.content)[i - 1]);
                }
            }
        },
        Role::Assistant => {
            let start = role_entry("assistant"@, content_entry(m.content));
            members_of_two(
                "role"@,
                JsonView::Str("assistant"@),
                "content"@,
                content_entry(m.content),
            );
            if m.tool_calls.len() == 0 {
                assert(entry->Object_0 =~= start);
            } else {
                let calls = m.tool_calls.map_values(|c: ToolCallView| call_entry(c));
                assert(entry->Object_0 =~= seq![
                    ("role"@, JsonView::Str("assistant"@)),
                    ("content"@, content_entry(m.content)),
                    ("tool_calls"@, JsonView::Array(calls)),
                ]);
                members_of_three(
                    "role"@,
                    JsonView::Str("assistant"@),
                    "content"@,
                    content_entry(m.content),
                    "tool_calls"@,
                    JsonView::Array(calls),
                );
                assert forall|i: int| 0 <= i < m.tool_calls.len() implies asks_for(
                    #[trigger] entry.at("tool_calls"@)->Array_0[i],
                    m.tool_calls[i],
                ) by {
                    lemma_call(m.tool_calls[i]);
                }
            }
        },
        Role::System => {
            members_of_two("role"@, JsonView::Str("system"@), "content"@, content_entry(m.content));
        },
        Role::User => {
            members_of_two("role"@, JsonView::Str("user"@), "content"@, content_entry(m.content));
        },
    }
}

proof fn lemma_images(content: Seq<PartView>, i: int)
    requires
        0 <= i < images_of(content).len(),
    ensures
        images_of(content)[i] is Image,
{
    content.lemma_filter_pred(|p: PartView| p is Image, i);
}

/// The wire form of a conversation says what the conversation says: every
/// message in its role, its content in full, every call under its id and its
/// name, and every result under the id of the call it answers, in order and
/// nothing else.
pub proof fn the_model_sees_the_whole_conversation(messages: Seq<MessageView>)
    ensures
        tells(conversation(messages), messages),
    decreases messages.len(),
{
    if messages.len() > 0 {
        the_model_sees_the_whole_conversation(messages.drop_last());
        let before = conversation(messages.drop_last());
        let added = message_entries(messages.last());
        lemma_message(messages.last());
        let all = conversation(messages);
        assert(all.skip(before.len() as int) =~= added);
        assert(all.take(before.len() as int) =~= before);
    }
}

/// A result is found by the call it answers: the id that the result carries is
/// the id that the call was announced under.
pub proof fn results_match_their_calls(asking: MessageView, k: int, answer: MessageView)
    requires
        asking.role == Role::Assistant,
        0 <= k < asking.tool_calls.len(),
        answer.role == Role::Tool,
        answer.tool_call_id == Some(asking.tool_calls[k].id),
    ensures
        message_entry(asking).at("tool_calls"@) is Array,
        message_entry(asking).at("tool_calls"@)->Array_0[k].at("id"@) == message_entry(answer).at(
            "tool_call_id"@,
        ),
        message_entry(asking).at("tool_calls"@)->Array_0[k].at("function"@).at("name"@)
            == JsonView::Str(asking.tool_calls[k].name),
{
    lemma_message(asking);
    lemma_message(answer);
    assert(message_entries(asking)[0] == message_entry(asking));
    assert(message_entries(answer)[0] == message_entry(answer));
    assert(asks_for(
        message_entries(asking)[0].at("tool_calls"@)->Array_0[k],
        asking.tool_calls[k],
    ));
}

// ------------------------------------------------------------------ bodies

/// Whether an entry describes a tool: its name, its description, and the
/// schema of its arguments.
pub open spec fn describes(entry: JsonView, tool: ToolView) -> bool {
    &&& entry.at("type"@) == JsonView::Str("function"@)
    &&& entry.at("function"@).at("name"@) == JsonView::Str(tool.name)
    &&& entry.at("function"@).at("description"@) == JsonView::Str(tool.description)
    &&& entry.at("function"@).at("parameters"@) == tool.parameters
}

/// Whether a body asks what is meant: the model, the system prompt and then the
/// whole conversation, the effort to reason with, and every tool with its
/// schema, in order. What was not asked for is left out.
pub open spec fn asks(
    body: JsonView,
    model: Seq<char>,
    effort: Option<Seq<char>>,
    system: Option<Seq<char>>,
    messages: Seq<MessageView>,
    tools: Seq<ToolView>,
) -> bool {
    &&& body.at("model"@) == JsonView::Str(model)
    &&& body.at("messages"@) is Array
    &&& system matches Some(s) ==> {
        let wire = body.at("messages"@)->Array_0;
        &&& wire.len() > 0
        &&& wire[0].at("role"@) == JsonView::Str("system"@)
        &&& wire[0].at("content"@) == JsonView::Str(s)
        &&& tells(wire.drop_first(), messages)
    }
    &&& system is None ==> tells(body.at("messages"@)->Array_0, messages)
    &&& effort matches Some(e) ==> body.at("reasoning_effort"@) == JsonView::Str(e)
    &&& effort is None ==> body.get("reasoning_effort"@) is None
    &&& tools.len() == 0 ==> body.get("tools"@) is None
    &&& tools.len() > 0 ==> {
        &&& body.at("tools"@) is Array
        &&& body.at("tools"@)->Array_0.len() == tools.len()
        &&& forall|i: int|
            0 <= i < tools.len() ==> describes(#[trigger] body.at("tools"@)->Array_0[i], tools[i])
    }
}

proof fn lemma_tool(tool: ToolView)
    ensures
        describes(tool_entry(tool), tool),
{
    reveal_strlit("type");
    reveal_strlit("function");
    reveal_strlit("name");
    reveal_strlit("description");
    reveal_strlit("parameters");
    let function = JsonView::Object(
        seq![
            ("name"@, JsonView::Str(tool.name)),
            ("description"@, JsonView::Str(tool.description)),
            ("parameters"@, tool.parameters),
        ],
    );
    members_of_three(
        "name"@,
        JsonView::Str(tool.name),
        "description"@,
        JsonView::Str(tool.description),
        "parameters"@,
        tool.parameters,
    );
    members_of_two("type"@, JsonView::Str("function"@), "function"@, function);
}

proof fn lemma_body(
    model: Seq<char>,
    effort: Option<Seq<char>>,
    system: Option<Seq<char>>,
    messages: Seq<MessageView>,
    tools: Seq<ToolView>,
    key: Seq<char>,
)
    ensures
        ({
            let body = body_view(model, effort, system, messages, tools);
            let opening: Seq<JsonView> = match system {
                Some(s) => seq![JsonView::Object(role_entry("system"@, JsonView::Str(s)))],
                None => Seq::empty(),
            };
            &&& key == "model"@ ==> body.get(key) == Some(JsonView::Str(model))
            &&& key == "messages"@ ==> body.get(key) == Some(
                JsonView::Array(opening + conversation(messages)),
            )
            &&& key == "reasoning_effort"@ ==> body.get(key) == (match effort {
                Some(e) => Some(JsonView::Str(e)),
                None => None,
            })
            &&& key == "tools"@ ==> body.get(key) == if tools.len() == 0 {
                None
            } else {
                Some(JsonView::Array(tools.map_values(|t: ToolView| tool_entry(t))))
            }
        }),
{
    reveal_strlit("model");
    reveal_strlit("messages");
    reveal_strlit("reasoning_effort");
    reveal_strlit("tools");
    assert(differ("model"@, "messages"@) && differ("model"@, "reasoning_effort"@) && differ(
        "model"@,
        "tools"@,
    ) && differ("messages"@, "reasoning_effort"@) && differ("messages"@, "tools"@) && differ(
        "reasoning_effort"@,
        "tools"@,
    ));
    let none = Seq::<(Seq<char>, JsonView)>::empty();
    let opening: Seq<JsonView> = match system {
        Some(s) => seq![JsonView::Object(role_entry("system"@, JsonView::Str(s)))],
        None => Seq::empty(),
    };
    let always = seq![
        ("model"@, JsonView::Str(model)),
        ("messages"@, JsonView::Array(opening + conversation(messages))),
    ];
    let asked = match effort {
        Some(e) => seq![("reasoning_effort"@, JsonView::Str(e))],
        None => none,
    };
    let listed = if tools.len() == 0 {
        none
    } else {
        seq![("tools"@, JsonView::Array(tools.map_values(|t: ToolView| tool_entry(t))))]
    };
    let body = body_view(model, effort, system, messages, tools);
    assert(body->Object_0 =~= (always + asked) + listed);
    members_in_two_parts(always + asked, listed, key);
    members_in_two_parts(always, asked, key);
    members_of_two("model"@, always[0].1, "messages"@, always[1].1);
    assert(JsonView::Object(always).get(key) == lookup(always, key));
    if asked.len() > 0 {
        member_of_one("reasoning_effort"@, asked[0].1);
        assert(JsonView::Object(asked).get(key) == lookup(asked, key));
    }
    if listed.len() > 0 {
        member_of_one("tools"@, listed[0].1);
        assert(JsonView::Object(listed).get(key) == lookup(listed, key));
    }
}

/// A request says what was asked: the model, the system prompt before the
/// conversation, the conversation, the effort and the tools.
pub proof fn a_request_says_what_was_asked(
    model: Seq<char>,
    effort: Option<Seq<char>>,
    system: Option<Seq<char>>,
    messages: Seq<MessageView>,
    tools: Seq<ToolView>,
)
    ensures
        asks(
            body_view(model, effort, system, messages, tools),
            model,
            effort,
            system,
            messages,
            tools,
        ),
{
    let body = body_view(model, effort, system, messages, tools);
    lemma_body(model, effort, system, messages, tools, "model"@);
    lemma_body(model, effort, system, messages, tools, "messages"@);
    lemma_body(model, effort, system, messages, tools, "reasoning_effort"@);
    lemma_body(model, effort, system, messages, tools, "tools"@);
    the_model_sees_the_whole_conversation(messages);
    match system {
        Some(s) => {
            reveal_strlit("role");
            reveal_strlit("content");
            members_of_two("role"@, JsonView::Str("system"@), "content"@, JsonView::Str(s));
            let wire = body.at("messages"@)->Array_0;
            assert(wire.drop_first() =~= conversation(messages));
        },
        None => {
            assert(body.at("messages"@)->Array_0 =~= conversation(messages));
        },
    }
    if tools.len() > 0 {
        assert forall|i: int| 0 <= i < tools.len() implies describes(
            #[trigger] body.at("tools"@)->Array_0[i],
            tools[i],
        ) by {
            lemma_tool(tools[i]);
        }
    }
}

// --------------------------------------------------------------- responses

/// The answer is what the choice says: its text, and its calls in order under
/// their ids and names, with the arguments that their text stands for. Text
/// that is no JSON stands for no arguments.
pub proof fn an_answer_holds_what_the_choice_says(choice: ChoiceMessage, k: int)
    ensures
        ({
            let m = choice_message(choice);
            let calls = choice.tool_calls@;
            &&& m.role == Role::Assistant
            &&& choice.content matches Some(text) ==> text_of(m.content) == text@
            &&& choice.content is None ==> m.content.len() == 0
            &&& m.tool_call_id is None
            &&& m.tool_calls.len() == calls.len()
            &&& 0 <= k < calls.len() ==> {
                &&& m.tool_calls[k].id == calls[k].id@
                &&& m.tool_calls[k].name == calls[k].function.name@
                &&& json_parse(calls[k].function.arguments@) matches Ok(value)
                    ==> m.tool_calls[k].arguments == value
                &&& json_parse(calls[k].function.arguments@) is Err ==> m.tool_calls[k].arguments
                    == JsonView::Object(Seq::empty())
            }
        }),
{
    let m = choice_message(choice);
    an_assistant_says_its_text(
        match choice.content {
            Some(text) => text@,
            None => Seq::empty(),
        },
        m.tool_calls,
    );
}

/// Tokens that were sent are counted as input, and those that were written as
/// output.
pub proof fn every_token_is_counted(usage: WireUsage)
    ensures
        usage.usage_view().input_tokens == usage.prompt_tokens,
        usage.usage_view().output_tokens == usage.completion_tokens,
{
}

} // verus!
