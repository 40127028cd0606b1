//! What reaches the model of a conversation, read back from the wire.

use vstd::prelude::*;

use crate::drivers::anthropic::{assistant_blocks, blocks_calls, blocks_message, blocks_text,
    blocks_thinking, body_view, call_block, effective_max, flushed, image_source, marked,
    marked_last, marked_message, marked_system, marked_tail, part_block, part_blocks, result_block,
    thinking_blocks, tool_entry, wire_from, wire_message, AnthropicDriver, ContentBlock,
    WireUsage};
use crate::json::{lookup, JsonView};
use crate::members::{differ, member_of_one, members_in_two_parts, members_of_four,
    members_of_three, members_of_two, setting_a_member};
use crate::message::{messages_view, tools_view, ChatRequest, MessageView, PartView, Role,
    ToolCallView, ToolView};
use crate::text::opt_text;

verus! {

/// What a conversation on the wire says, block by block: who says it, and the
/// block.
pub open spec fn said(wire: Seq<JsonView>) -> Seq<(JsonView, JsonView)>
    decreases wire.len(),
{
    if wire.len() == 0 {
        Seq::empty()
    } else {
        let role = wire.last().at("role"@);
        let blocks = match wire.last().at("content"@) {
            JsonView::Array(blocks) => blocks,
            _ => Seq::empty(),
        };
        said(wire.drop_last()) + Seq::new(blocks.len(), |i: int| (role, blocks[i]))
    }
}

/// Whether a block shows a part: its text, or where its picture comes from.
pub open spec fn shows(block: JsonView, part: PartView) -> bool {
    match part {
        PartView::Text(text) => {
            &&& block.at("type"@) == JsonView::Str("text"@)
            &&& block.at("text"@) == JsonView::Str(text)
        },
        PartView::Image { url: Some(url), .. } => {
            &&& block.at("type"@) == JsonView::Str("image"@)
            &&& block.at("source"@).at("type"@) == JsonView::Str("url"@)
            &&& block.at("source"@).at("url"@) == JsonView::Str(url)
        },
        PartView::Image { url: None, base64, media_type } => {
            &&& block.at("type"@) == JsonView::Str("image"@)
            &&& block.at("source"@).at("type"@) == JsonView::Str("base64"@)
            &&& block.at("source"@).at("data"@) == JsonView::Str(
                match base64 {
                    Some(data) => data,
                    None => ""@,
                },
            )
            &&& block.at("source"@).at("media_type"@) == JsonView::Str(
                match media_type {
                    Some(kind) => kind,
                    None => "image/png"@,
                },
            )
        },
    }
}

/// Whether a block asks for a call: by its id, its name and its arguments.
pub open spec fn asks_for(block: JsonView, call: ToolCallView) -> bool {
    &&& block.at("type"@) == JsonView::Str("tool_use"@)
    &&& block.at("id"@) == JsonView::Str(call.id)
    &&& block.at("name"@) == JsonView::Str(call.name)
    &&& block.at("input"@) == call.arguments
}

/// Whether a block answers a call with the parts of a tool message, every one
/// of them in its place.
pub open spec fn answers_with(block: JsonView, m: MessageView) -> bool {
    &&& block.at("type"@) == JsonView::Str("tool_result"@)
    &&& m.tool_call_id matches Some(id) ==> block.at("tool_use_id"@) == JsonView::Str(id)
    &&& m.tool_call_id is None ==> block.at("tool_use_id"@) is Null
    &&& block.at("content"@) matches JsonView::Array(shown) && shown.len() == m.content.len()
        && forall|i: int|
        0 <= i < shown.len() ==> shows(#[trigger] shown[i], m.content[i])
}

/// Whether a block replays signed reasoning.
pub open spec fn replays(block: JsonView, thinking: Seq<char>, signature: Seq<char>) -> bool {
    &&& block.at("type"@) == JsonView::Str("thinking"@)
    &&& block.at("thinking"@) == JsonView::Str(thinking)
    &&& block.at("signature"@) == JsonView::Str(signature)
}

/// How many blocks carry the reasoning of a message.
pub open spec fn reasoning_count(m: MessageView) -> int {
    if m.thinking is Some && m.thinking_signature is Some {
        1
    } else {
        0
    }
}

/// How many blocks a message takes on the wire.
pub open spec fn block_count(m: MessageView) -> int {
    match m.role {
        Role::System => 0,
        Role::User => m.content.len() as int,
        Role::Tool => 1,
        Role::Assistant => reasoning_count(m) + m.content.len() + m.tool_calls.len(),
    }
}

/// Whether blocks say what a message says: a user message its parts, a tool
/// message its result as a user, an assistant message its signed reasoning,
/// its parts and its calls, in this order. A system message says nothing here.
pub open spec fn speaks_for(part: Seq<(JsonView, JsonView)>, m: MessageView) -> bool {
    &&& part.len() == block_count(m)
    &&& forall|i: int|
        0 <= i < part.len() ==> (#[trigger] part[i]).0 == JsonView::Str(
            if m.role == Role::Assistant {
                "assistant"@
            } else {
                "user"@
            },
        )
    &&& m.role == Role::User ==> forall|i: int|
        0 <= i < m.content.len() ==> shows((#[trigger] part[i]).1, m.content[i])
    &&& m.role == Role::Tool ==> answers_with(part[0].1, m)
    &&& m.role == Role::Assistant ==> {
        let n = reasoning_count(m);
        &&& n == 1 ==> replays(part[0].1, m.thinking->0, m.thinking_signature->0)
        &&& forall|i: int|
            n <= i < n + m.content.len() ==> shows((#[trigger] part[i]).1, m.content[i - n])
        &&& forall|i: int|
            n + m.content.len() <= i < part.len() ==> asks_for(
                (#[trigger] part[i]).1,
                m.tool_calls[i - n - m.content.len()],
            )
    }
}

/// Whether blocks say what a conversation says, message after message, with
/// nothing in between and nothing after.
pub open spec fn tells(blocks: Seq<(JsonView, JsonView)>, messages: Seq<MessageView>) -> bool
    decreases messages.len(),
{
    if messages.len() == 0 {
        blocks.len() == 0
    } else {
        let n = block_count(messages[0]);
        &&& n <= blocks.len()
        &&& speaks_for(blocks.take(n), messages[0])
        &&& tells(blocks.skip(n), messages.drop_first())
    }
}

proof fn lemma_part(part: PartView)
    ensures
        shows(part_block(part), part),
{
    reveal_strlit("type");
    reveal_strlit("text");
    reveal_strlit("source");
    reveal_strlit("url");
    reveal_strlit("media_type");
    reveal_strlit("data");
    match part {
        PartView::Text(text) => {
            members_of_two("type"@, JsonView::Str("text"@), "text"@, JsonView::Str(text));
        },
        PartView::Image { url, base64, media_type } => {
            members_of_two(
                "type"@,
                JsonView::Str("image"@),
                "source"@,
                image_source(url, base64, media_type),
            );
            match url {
                Some(url) => {
                    members_of_two("type"@, JsonView::Str("url"@), "url"@, JsonView::Str(url));
                },
                None => {
                    members_of_three(
                        "type"@,
                        JsonView::Str("base64"@),
                        "media_type"@,
                        JsonView::Str(
                            match media_type {
                                Some(kind) => kind,
                                None => "image/png"@,
                            },
                        ),
                        "data"@,
                        JsonView::Str(
                            match base64 {
                                Some(data) => data,
                                None => ""@,
                            },
                        ),
                    );
                },
            }
        },
    }
}

proof fn lemma_call(call: ToolCallView)
    ensures
        asks_for(call_block(call), call),
{
    reveal_strlit("type");
    reveal_strlit("id");
    reveal_strlit("name");
    reveal_strlit("input");
    members_of_four(
        "type"@,
        JsonView::Str("tool_use"@),
        "id"@,
        JsonView::Str(call.id),
        "name"@,
        JsonView::Str(call.name),
        "input"@,
        call.arguments,
    );
}

proof fn lemma_result(m: MessageView)
    ensures
        answers_with(result_block(m), m),
{
    reveal_strlit("type");
    reveal_strlit("tool_use_id");
    reveal_strlit("content");
    members_of_three(
        "type"@,
        JsonView::Str("tool_result"@),
        "tool_use_id"@,
        match m.tool_call_id {
            Some(id) => JsonView::Str(id),
            None => JsonView::Null,
        },
        "content"@,
        JsonView::Array(part_blocks(m.content)),
    );
    let shown = part_blocks(m.content);
    assert forall|i: int| 0 <= i < shown.len() implies shows(#[trigger] shown[i], m.content[i]) by {
        lemma_part(m.content[i]);
    }
}

proof fn lemma_wire_message(role: Seq<char>, blocks: Seq<JsonView>)
    ensures
        wire_message(role, blocks).at("role"@) == JsonView::Str(role),
        wire_message(role, blocks).at("content"@) == JsonView::Array(blocks),
{
    reveal_strlit("role");
    reveal_strlit("content");
    members_of_two("role"@, JsonView::Str(role), "content"@, JsonView::Array(blocks));
}

/// What blocks say in a role.
spec fn in_role(role: Seq<char>, blocks: Seq<JsonView>) -> Seq<(JsonView, JsonView)> {
    Seq::new(blocks.len(), |i: int| (JsonView::Str(role), blocks[i]))
}

proof fn lemma_said_one(role: Seq<char>, blocks: Seq<JsonView>)
    ensures
        said(seq![wire_message(role, blocks)]) == in_role(role, blocks),
{
    let one = seq![wire_message(role, blocks)];
    lemma_wire_message(role, blocks);
    assert(one.drop_last() =~= Seq::<JsonView>::empty());
    assert(said(one.drop_last()) =~= Seq::<(JsonView, JsonView)>::empty());
    assert(said(one) =~= in_role(role, blocks));
}

proof fn lemma_said_concat(a: Seq<JsonView>, b: Seq<JsonView>)
    ensures
        said(a + b) == said(a) + said(b),
    decreases b.len(),
{
    if b.len() == 0 {
        assert(a + b =~= a);
        assert(said(a) + said(b) =~= said(a));
    } else {
        lemma_said_concat(a, b.drop_last());
        assert((a + b).drop_last() =~= a + b.drop_last());
        assert(said(a + b) =~= said(a) + said(b));
    }
}

proof fn lemma_said_flushed(pending: Seq<JsonView>)
    ensures
        said(flushed(pending)) == in_role("user"@, pending),
{
    if pending.len() == 0 {
        assert(said(flushed(pending)) =~= in_role("user"@, pending));
    } else {
        lemma_said_one("user"@, pending);
    }
}

proof fn lemma_tells_concat(
    a: Seq<(JsonView, JsonView)>,
    m: MessageView,
    rest: Seq<(JsonView, JsonView)>,
    messages: Seq<MessageView>,
)
    requires
        messages.len() > 0,
        messages[0] == m,
        speaks_for(a, m),
        tells(rest, messages.drop_first()),
    ensures
        tells(a + rest, messages),
{
    assert((a + rest).take(a.len() as int) =~= a);
    assert((a + rest).skip(a.len() as int) =~= rest);
}

proof fn lemma_user(m: MessageView)
    requires
        m.role == Role::User,
    ensures
        speaks_for(in_role("user"@, part_blocks(m.content)), m),
{
    let part = in_role("user"@, part_blocks(m.content));
    assert forall|i: int| 0 <= i < m.content.len() implies shows(
        (#[trigger] part[i]).1,
        m.content[i],
    ) by {
        lemma_part(m.content[i]);
    }
}

proof fn lemma_assistant(m: MessageView)
    requires
        m.role == Role::Assistant,
    ensures
        speaks_for(in_role("assistant"@, assistant_blocks(m)), m),
{
    reveal_strlit("type");
    reveal_strlit("thinking");
    reveal_strlit("signature");
    let blocks = assistant_blocks(m);
    let part = in_role("assistant"@, blocks);
    let n = reasoning_count(m);
    let calls = m.tool_calls.map_values(|c: ToolCallView| call_block(c));
    assert(thinking_blocks(m).len() == n);
    if n == 1 {
        members_of_three(
            "type"@,
            JsonView::Str("thinking"@),
            "thinking"@,
            JsonView::Str(m.thinking->0),
            "signature"@,
            JsonView::Str(m.thinking_signature->0),
        );
        assert(blocks[0] == thinking_blocks(m)[0]);
    }
    assert forall|i: int| n <= i < n + m.content.len() implies shows(
        (#[trigger] part[i]).1,
        m.content[i - n],
    ) by {
        lemma_part(m.content[i - n]);
        assert(blocks[i] == part_blocks(m.content)[i - n]);
    }
    assert forall|i: int| n + m.content.len() <= i < part.len() implies asks_for(
        (#[trigger] part[i]).1,
        m.tool_calls[i - n - m.content.len()],
    ) by {
        lemma_call(m.tool_calls[i - n - m.content.len()]);
        assert(blocks[i] == calls[i - n - m.content.len()]);
    }
}

/// What the wire says of a conversation and of results that are pending before
/// it: the results, and then what the conversation says.
proof fn lemma_wire_tells(messages: Seq<MessageView>, pending: Seq<JsonView>)
    ensures
        ({
            let all = said(wire_from(messages, pending));
            &&& pending.len() <= all.len()
            &&& all.take(pending.len() as int) == in_role("user"@, pending)
            &&& tells(all.skip(pending.len() as int), messages)
        }),
    decreases messages.len(),
{
    let all = said(wire_from(messages, pending));
    let held = in_role("user"@, pending);
    let n = pending.len() as int;
    if messages.len() == 0 {
        lemma_said_flushed(pending);
        assert(all.take(n) =~= held);
        assert(all.skip(n) =~= Seq::<(JsonView, JsonView)>::empty());
    } else {
        let m = messages[0];
        let rest = messages.drop_first();
        match m.role {
            Role::Tool => {
                let more = pending.push(result_block(m));
                lemma_wire_tells(rest, more);
                lemma_result(m);
                let one = in_role("user"@, seq![result_block(m)]);
                assert(all.take(n + 1) =~= in_role("user"@, more));
                assert(all.take(n) =~= held) by {
                    assert forall|i: int| 0 <= i < n implies all[i] == held[i] by {
                        assert(all.take(n + 1)[i] == in_role("user"@, more)[i]);
                    }
                }
                let later = all.skip(n + 1);
                assert(all.skip(n) =~= one + later) by {
                    assert(all.take(n + 1)[n] == in_role("user"@, more)[n]);
                }
                lemma_tells_concat(one, m, later, messages);
            },
            Role::System => {
                lemma_wire_tells(rest, pending);
                let none = Seq::<(JsonView, JsonView)>::empty();
                assert(none + all.skip(n) =~= all.skip(n));
                lemma_tells_concat(none, m, all.skip(n), messages);
            },
            _ => {
                let none = Seq::<JsonView>::empty();
                let later = said(wire_from(rest, none));
                lemma_wire_tells(rest, none);
                assert(later.skip(0) =~= later);
                let (role, blocks) = if m.role == Role::User {
                    ("user"@, part_blocks(m.content))
                } else {
                    ("assistant"@, assistant_blocks(m))
                };
                if m.role == Role::User {
                    lemma_user(m);
                } else {
                    lemma_assistant(m);
                }
                let shown = in_role(role, blocks);
                lemma_said_flushed(pending);
                lemma_said_one(role, blocks);
                lemma_said_concat(flushed(pending), seq![wire_message(role, blocks)]);
                lemma_said_concat(
                    flushed(pending) + seq![wire_message(role, blocks)],
                    wire_from(rest, none),
                );
                assert(all == (held + shown) + later);
                assert(all.take(n) =~= held);
                assert(all.skip(n) =~= shown + later);
                lemma_tells_concat(shown, m, later, messages);
            },
        }
    }
}

/// The wire form of a conversation says what the conversation says: every part
/// of every message, every call with its id, name and arguments, and every
/// result of a tool under the id of its call with all of its parts, in order
/// and nothing else.
pub proof fn the_model_sees_the_whole_conversation(messages: Seq<MessageView>)
    ensures
        tells(said(wire_from(messages, Seq::empty())), messages),
{
    lemma_wire_tells(messages, Seq::empty());
    let all = said(wire_from(messages, Seq::empty()));
    assert(all.skip(0) =~= all);
}

/// The result of a tool that is one text reaches the model: some block of the
/// wire answers the call by its id, and the first block in it is the text.
pub proof fn tool_results_reach_the_model(
    messages: Seq<MessageView>,
    k: int,
    id: Seq<char>,
    text: Seq<char>,
)
    requires
        0 <= k < messages.len(),
        messages[k].role == Role::Tool,
        messages[k].tool_call_id == Some(id),
        messages[k].content == seq![PartView::Text(text)],
    ensures
        ({
            let all = said(wire_from(messages, Seq::empty()));
            exists|i: int|
                0 <= i < all.len() && (#[trigger] all[i]).1.at("type"@) == JsonView::Str(
                    "tool_result"@,
                ) && all[i].1.at("tool_use_id"@) == JsonView::Str(id) && all[i].1.at("content"@)
                    is Array && all[i].1.at("content"@)->Array_0.len() == 1 && all[i].1.at(
                    "content"@,
                )->Array_0[0].at("text"@) == JsonView::Str(text)
        }),
{
    the_model_sees_the_whole_conversation(messages);
    let all = said(wire_from(messages, Seq::empty()));
    let i = lemma_tells_tool(all, messages, k);
    assert(answers_with(all[i].1, messages[k]));
    let shown = all[i].1.at("content"@)->Array_0;
    assert(shows(shown[0], messages[k].content[0]));
}

proof fn lemma_tells_tool(
    blocks: Seq<(JsonView, JsonView)>,
    messages: Seq<MessageView>,
    k: int,
) -> (i: int)
    requires
        tells(blocks, messages),
        0 <= k < messages.len(),
        messages[k].role == Role::Tool,
    ensures
        0 <= i < blocks.len(),
        answers_with(blocks[i].1, messages[k]),
    decreases messages.len(),
{
    let n = block_count(messages[0]);
    if k == 0 {
        assert(blocks.take(n)[0] == blocks[0]);
        0
    } else {
        assert(messages.drop_first()[k - 1] == messages[k]);
        let j = lemma_tells_tool(blocks.skip(n), messages.drop_first(), k - 1);
        assert(blocks.skip(n)[j] == blocks[n + j]);
        n + j
    }
}

// ------------------------------------------------------------------ bodies

/// Whether two values have the same members, but for a cache breakpoint.
pub open spec fn alike(a: JsonView, b: JsonView) -> bool {
    forall|k: Seq<char>| k != "cache_control"@ ==> #[trigger] a.get(k) == b.get(k)
}

proof fn lemma_marked_is_alike(v: JsonView)
    ensures
        alike(marked(v), v),
        v is Object ==> marked(v).at("cache_control"@).at("type"@) == JsonView::Str("ephemeral"@),
{
    match v {
        JsonView::Object(members) => {
            let marker = JsonView::Object(seq![("type"@, JsonView::Str("ephemeral"@))]);
            member_of_one("type"@, JsonView::Str("ephemeral"@));
            setting_a_member(members, "cache_control"@, marker);
        },
        _ => {},
    }
}

proof fn lemma_alike_speaks(
    a: Seq<(JsonView, JsonView)>,
    b: Seq<(JsonView, JsonView)>,
    m: MessageView,
)
    requires
        a.len() == b.len(),
        forall|i: int|
            0 <= i < a.len() ==> (#[trigger] a[i]).0 == b[i].0 && alike(a[i].1, b[i].1),
        speaks_for(b, m),
    ensures
        speaks_for(a, m),
{
    reveal_strlit("cache_control");
    reveal_strlit("type");
    reveal_strlit("text");
    reveal_strlit("source");
    reveal_strlit("content");
    reveal_strlit("tool_use_id");
    reveal_strlit("id");
    reveal_strlit("name");
    reveal_strlit("input");
    reveal_strlit("thinking");
    reveal_strlit("signature");
    assert("type"@.len() == 4 && "text"@.len() == 4 && "source"@.len() == 6 && "content"@.len() == 7
        && "tool_use_id"@.len() == 11 && "id"@.len() == 2 && "name"@.len() == 4 && "input"@.len()
        == 5 && "thinking"@.len() == 8 && "signature"@.len() == 9 && "cache_control"@.len() == 13);
    assert forall|i: int| 0 <= i < a.len() implies {
        &&& (#[trigger] a[i]).1.at("type"@) == b[i].1.at("type"@)
        &&& a[i].1.at("text"@) == b[i].1.at("text"@)
        &&& a[i].1.at("source"@) == b[i].1.at("source"@)
        &&& a[i].1.at("content"@) == b[i].1.at("content"@)
        &&& a[i].1.at("tool_use_id"@) == b[i].1.at("tool_use_id"@)
        &&& a[i].1.at("id"@) == b[i].1.at("id"@)
        &&& a[i].1.at("name"@) == b[i].1.at("name"@)
        &&& a[i].1.at("input"@) == b[i].1.at("input"@)
        &&& a[i].1.at("thinking"@) == b[i].1.at("thinking"@)
        &&& a[i].1.at("signature"@) == b[i].1.at("signature"@)
    } by {
        assert(alike(a[i].1, b[i].1));
    }
    assert forall|i: int| 0 <= i < a.len() implies (#[trigger] a[i]).0 == JsonView::Str(
        if m.role == Role::Assistant {
            "assistant"@
        } else {
            "user"@
        },
    ) by {
        assert(b[i].0 == a[i].0);
    }
    if m.role == Role::User {
        assert forall|i: int| 0 <= i < m.content.len() implies shows(
            (#[trigger] a[i]).1,
            m.content[i],
        ) by {
            assert(shows(b[i].1, m.content[i]));
        }
    }
    if m.role == Role::Tool {
        assert(answers_with(b[0].1, m));
        assert(a[0].1.at("type"@) == b[0].1.at("type"@));
    }
    if m.role == Role::Assistant {
        let n = reasoning_count(m);
        if n == 1 {
            assert(replays(b[0].1, m.thinking->0, m.thinking_signature->0));
            assert(a[0].1.at("type"@) == b[0].1.at("type"@));
        }
        assert forall|i: int| n <= i < n + m.content.len() implies shows(
            (#[trigger] a[i]).1,
            m.content[i - n],
        ) by {
            assert(shows(b[i].1, m.content[i - n]));
        }
        assert forall|i: int| n + m.content.len() <= i < a.len() implies asks_for(
            (#[trigger] a[i]).1,
            m.tool_calls[i - n - m.content.len()],
        ) by {
            assert(asks_for(b[i].1, m.tool_calls[i - n - m.content.len()]));
        }
    }
}

proof fn lemma_alike_tells(
    a: Seq<(JsonView, JsonView)>,
    b: Seq<(JsonView, JsonView)>,
    messages: Seq<MessageView>,
)
    requires
        a.len() == b.len(),
        forall|i: int|
            0 <= i < a.len() ==> (#[trigger] a[i]).0 == b[i].0 && alike(a[i].1, b[i].1),
        tells(b, messages),
    ensures
        tells(a, messages),
    decreases messages.len(),
{
    if messages.len() > 0 {
        let n = block_count(messages[0]);
        lemma_alike_speaks(a.take(n), b.take(n), messages[0]);
        lemma_alike_tells(a.skip(n), b.skip(n), messages.drop_first());
    }
}

/// The blocks of a wire message.
spec fn blocks_in(m: JsonView) -> Seq<JsonView> {
    match m.at("content"@) {
        JsonView::Array(blocks) => blocks,
        _ => Seq::empty(),
    }
}

proof fn lemma_marked_message(m: JsonView)
    ensures
        marked_message(m).at("role"@) == m.at("role"@),
        blocks_in(marked_message(m)).len() == blocks_in(m).len(),
        forall|i: int|
            0 <= i < blocks_in(m).len() ==> alike(
                #[trigger] blocks_in(marked_message(m))[i],
                blocks_in(m)[i],
            ),
        blocks_in(m).len() > 0 && blocks_in(m).last() is Object ==> blocks_in(
            marked_message(m),
        ).last().at("cache_control"@).at("type"@) == JsonView::Str("ephemeral"@),
{
    reveal_strlit("role");
    reveal_strlit("content");
    assert("role"@.len() != "content"@.len());
    match m.at("content"@) {
        JsonView::Array(blocks) => {
            setting_a_member(m->Object_0, "content"@, JsonView::Array(marked_last(blocks)));
            if blocks.len() > 0 {
                lemma_marked_is_alike(blocks.last());
            }
        },
        _ => {},
    }
}

proof fn lemma_said_alike(a: Seq<JsonView>, b: Seq<JsonView>)
    requires
        a.len() == b.len(),
        forall|i: int|
            0 <= i < a.len() ==> {
                &&& (#[trigger] a[i]).at("role"@) == b[i].at("role"@)
                &&& blocks_in(a[i]).len() == blocks_in(b[i]).len()
                &&& forall|j: int|
                    0 <= j < blocks_in(b[i]).len() ==> alike(
                        #[trigger] blocks_in(a[i])[j],
                        blocks_in(b[i])[j],
                    )
            },
    ensures
        said(a).len() == said(b).len(),
        forall|i: int|
            0 <= i < said(a).len() ==> (#[trigger] said(a)[i]).0 == said(b)[i].0 && alike(
                said(a)[i].1,
                said(b)[i].1,
            ),
    decreases a.len(),
{
    if a.len() > 0 {
        lemma_said_alike(a.drop_last(), b.drop_last());
        let k = a.len() - 1;
        assert(a[k].at("role"@) == b[k].at("role"@));
        let n = said(a.drop_last()).len() as int;
        assert forall|i: int| 0 <= i < said(a).len() implies (#[trigger] said(a)[i]).0 == said(
            b,
        )[i].0 && alike(said(a)[i].1, said(b)[i].1) by {
            if i < n {
                assert(said(a)[i] == said(a.drop_last())[i]);
                assert(said(b)[i] == said(b.drop_last())[i]);
            } else {
                assert(said(a)[i].1 == blocks_in(a[k])[i - n]);
                assert(said(b)[i].1 == blocks_in(b[k])[i - n]);
            }
        }
    }
}

proof fn lemma_marked_tail_tells(messages: Seq<MessageView>)
    ensures
        tells(said(marked_tail(wire_from(messages, Seq::empty()))), messages),
{
    let wire = wire_from(messages, Seq::empty());
    let shown = marked_tail(wire);
    assert forall|i: int| 0 <= i < shown.len() implies {
        &&& (#[trigger] shown[i]).at("role"@) == wire[i].at("role"@)
        &&& blocks_in(shown[i]).len() == blocks_in(wire[i]).len()
        &&& forall|j: int|
            0 <= j < blocks_in(wire[i]).len() ==> alike(
                #[trigger] blocks_in(shown[i])[j],
                blocks_in(wire[i])[j],
            )
    } by {
        lemma_marked_message(wire[i]);
    }
    lemma_said_alike(shown, wire);
    the_model_sees_the_whole_conversation(messages);
    lemma_alike_tells(said(shown), said(wire), messages);
}

proof fn lemma_body_members(
    driver: AnthropicDriver,
    model: Seq<char>,
    budget: Option<u32>,
    system: Option<Seq<char>>,
    messages: Seq<MessageView>,
    tools: Seq<ToolView>,
    key: Seq<char>,
)
    ensures
        ({
            let body = body_view(
                driver.max_tokens,
                driver.prompt_caching,
                model,
                budget,
                system,
                messages,
                tools,
            );
            let wire = wire_from(messages, Seq::empty());
            let entries = tools.map_values(|t: ToolView| tool_entry(t));
            &&& key == "model"@ ==> body.get(key) == Some(JsonView::Str(model))
            &&& key == "max_tokens"@ ==> body.get(key) == Some(
                JsonView::Int(effective_max(driver.max_tokens, budget)),
            )
            &&& key == "messages"@ ==> body.get(key) == Some(
                JsonView::Array(
                    if driver.prompt_caching {
                        marked_tail(wire)
                    } else {
                        wire
                    },
                ),
            )
            &&& key == "thinking"@ ==> body.get(key) == (match budget {
                Some(b) => Some(
                    JsonView::Object(
                        seq![
                            ("type"@, JsonView::Str("enabled"@)),
                            ("budget_tokens"@, JsonView::Int(b as int)),
                        ],
                    ),
                ),
                None => None,
            })
            &&& key == "system"@ ==> body.get(key) == (match system {
                Some(s) => Some(
                    if driver.prompt_caching {
                        marked_system(s)
                    } else {
                        JsonView::Str(s)
                    },
                ),
                None => None,
            })
            &&& key == "tools"@ ==> body.get(key) == if tools.len() == 0 {
                None
            } else {
                Some(
                    JsonView::Array(
                        if driver.prompt_caching {
                            marked_last(entries)
                        } else {
                            entries
                        },
                    ),
                )
            }
        }),
{
    reveal_strlit("model");
    reveal_strlit("max_tokens");
    reveal_strlit("messages");
    reveal_strlit("thinking");
    reveal_strlit("system");
    reveal_strlit("tools");
    assert(differ("model"@, "max_tokens"@) && differ("model"@, "messages"@) && differ(
        "model"@,
        "thinking"@,
    ) && differ("model"@, "system"@) && differ("model"@, "tools"@) && differ(
        "max_tokens"@,
        "messages"@,
    ) && differ("max_tokens"@, "thinking"@) && differ("max_tokens"@, "system"@) && differ(
        "max_tokens"@,
        "tools"@,
    ) && differ("messages"@, "thinking"@) && differ("messages"@, "system"@) && differ(
        "messages"@,
        "tools"@,
    ) && differ("thinking"@, "system"@) && differ("thinking"@, "tools"@) && differ(
        "system"@,
        "tools"@,
    ));
    let wire = wire_from(messages, Seq::empty());
    let entries = tools.map_values(|t: ToolView| tool_entry(t));
    let none = Seq::<(Seq<char>, JsonView)>::empty();
    let always = seq![
        ("model"@, JsonView::Str(model)),
        ("max_tokens"@, JsonView::Int(effective_max(driver.max_tokens, budget))),
        (
            "messages"@,
            JsonView::Array(
                if driver.prompt_caching {
                    marked_tail(wire)
                } else {
                    wire
                },
            ),
        ),
    ];
    let thinking = match budget {
        Some(b) => seq![
            (
                "thinking"@,
                JsonView::Object(
                    seq![
                        ("type"@, JsonView::Str("enabled"@)),
                        ("budget_tokens"@, JsonView::Int(b as int)),
                    ],
                ),
            ),
        ],
        None => none,
    };
    let prompt = match system {
        Some(s) => seq![
            (
                "system"@,
                if driver.prompt_caching {
                    marked_system(s)
                } else {
                    JsonView::Str(s)
                },
            ),
        ],
        None => none,
    };
    let shown = if driver.prompt_caching {
        marked_last(entries)
    } else {
        entries
    };
    let listed = if shown.len() == 0 {
        none
    } else {
        seq![("tools"@, JsonView::Array(shown))]
    };
    let body = body_view(
        driver.max_tokens,
        driver.prompt_caching,
        model,
        budget,
        system,
        messages,
        tools,
    );
    assert(body->Object_0 =~= always + (thinking + prompt + listed));
    members_in_two_parts(always, thinking + prompt + listed, key);
    members_in_two_parts(thinking + prompt, listed, key);
    members_in_two_parts(thinking, prompt, key);
    members_of_three(
        "model"@,
        always[0].1,
        "max_tokens"@,
        always[1].1,
        "messages"@,
        always[2].1,
    );
    assert(JsonView::Object(always).get(key) == lookup(always, key));
    if thinking.len() > 0 {
        member_of_one("thinking"@, thinking[0].1);
        assert(JsonView::Object(thinking).get(key) == lookup(thinking, key));
    }
    if prompt.len() > 0 {
        member_of_one("system"@, prompt[0].1);
        assert(JsonView::Object(prompt).get(key) == lookup(prompt, key));
    }
    if listed.len() > 0 {
        member_of_one("tools"@, listed[0].1);
        assert(JsonView::Object(listed).get(key) == lookup(listed, key));
    }
}

/// Whether an entry describes a tool: its name, its description, and the
/// schema of its arguments.
pub open spec fn describes(entry: JsonView, tool: ToolView) -> bool {
    &&& entry.at("name"@) == JsonView::Str(tool.name)
    &&& entry.at("description"@) == JsonView::Str(tool.description)
    &&& entry.at("input_schema"@) == tool.parameters
}

/// Whether a body asks what is meant: the model, the whole conversation, the
/// system prompt, and every tool with its schema, in order. A thinking budget
/// is passed on as it is; what was not asked for is left out.
pub open spec fn asks(
    body: JsonView,
    caching: bool,
    model: Seq<char>,
    budget: Option<u32>,
    system: Option<Seq<char>>,
    messages: Seq<MessageView>,
    tools: Seq<ToolView>,
) -> bool {
    &&& body.at("model"@) == JsonView::Str(model)
    &&& body.at("messages"@) is Array
    &&& tells(said(body.at("messages"@)->Array_0), messages)
    &&& budget matches Some(b) ==> {
        &&& body.at("thinking"@).at("type"@) == JsonView::Str("enabled"@)
        &&& body.at("thinking"@).at("budget_tokens"@) == JsonView::Int(b as int)
    }
    &&& budget is None ==> body.get("thinking"@) is None
    &&& system matches Some(s) ==> if caching {
        &&& body.at("system"@) is Array
        &&& body.at("system"@)->Array_0.len() == 1
        &&& body.at("system"@)->Array_0[0].at("type"@) == JsonView::Str("text"@)
        &&& body.at("system"@)->Array_0[0].at("text"@) == JsonView::Str(s)
    } else {
        body.at("system"@) == JsonView::Str(s)
    }
    &&& system is None ==> body.get("system"@) is None
    &&& tools.len() == 0 ==> body.get("tools"@) is None
    &&& tools.len() > 0 ==> {
        &&& body.at("tools"@) is Array
        &&& body.at("tools"@)->Array_0.len() == tools.len()
        &&& forall|i: int|
            0 <= i < tools.len() ==> describes(
                #[trigger] body.at("tools"@)->Array_0[i],
                tools[i],
            )
    }
}

proof fn lemma_body_asks(
    driver: AnthropicDriver,
    model: Seq<char>,
    budget: Option<u32>,
    system: Option<Seq<char>>,
    messages: Seq<MessageView>,
    tools: Seq<ToolView>,
)
    ensures
        asks(
            body_view(
                driver.max_tokens,
                driver.prompt_caching,
                model,
                budget,
                system,
                messages,
                tools,
            ),
            driver.prompt_caching,
            model,
            budget,
            system,
            messages,
            tools,
        ),
{
    let body = body_view(
        driver.max_tokens,
        driver.prompt_caching,
        model,
        budget,
        system,
        messages,
        tools,
    );
    lemma_body_members(driver, model, budget, system, messages, tools, "model"@);
    lemma_body_members(driver, model, budget, system, messages, tools, "messages"@);
    lemma_body_members(driver, model, budget, system, messages, tools, "thinking"@);
    lemma_body_members(driver, model, budget, system, messages, tools, "system"@);
    lemma_body_members(driver, model, budget, system, messages, tools, "tools"@);
    the_model_sees_the_whole_conversation(messages);
    lemma_marked_tail_tells(messages);
    reveal_strlit("type");
    reveal_strlit("budget_tokens");
    reveal_strlit("text");
    reveal_strlit("cache_control");
    reveal_strlit("name");
    reveal_strlit("description");
    reveal_strlit("input_schema");
    if let Some(b) = budget {
        members_of_two(
            "type"@,
            JsonView::Str("enabled"@),
            "budget_tokens"@,
            JsonView::Int(b as int),
        );
    }
    if let Some(s) = system {
        members_of_three(
            "type"@,
            JsonView::Str("text"@),
            "text"@,
            JsonView::Str(s),
            "cache_control"@,
            JsonView::Object(seq![("type"@, JsonView::Str("ephemeral"@))]),
        );
    }
    if tools.len() > 0 {
        let entries = tools.map_values(|t: ToolView| tool_entry(t));
        assert(differ("name"@, "cache_control"@) && differ("description"@, "cache_control"@)
            && differ("input_schema"@, "cache_control"@));
        assert forall|i: int| 0 <= i < tools.len() implies describes(
            #[trigger] body.at("tools"@)->Array_0[i],
            tools[i],
        ) by {
            members_of_three(
                "name"@,
                JsonView::Str(tools[i].name),
                "description"@,
                JsonView::Str(tools[i].description),
                "input_schema"@,
                tools[i].parameters,
            );
            assert(entries[i] == tool_entry(tools[i]));
            lemma_marked_is_alike(entries[i]);
        }
    }
}

/// A request says what was asked, with prompt caching or without: the model,
/// the conversation, the system prompt, the tools and the thinking budget.
pub proof fn a_request_says_what_was_asked(driver: AnthropicDriver, request: ChatRequest)
    ensures
        asks(
            driver.body(request),
            driver.prompt_caching,
            request.model.model@,
            match request.model.reasoning {
                Some(reasoning) => reasoning.budget_tokens,
                None => None,
            },
            match request.system_prompt {
                Some(system) => Some(system@),
                None => None,
            },
            Seq::new(request.messages@.len(), |i: int| request.messages@[i]@),
            Seq::new(request.tools@.len(), |i: int| request.tools@[i]@),
        ),
{
    let messages = Seq::new(request.messages@.len(), |i: int| request.messages@[i]@);
    let tools = Seq::new(request.tools@.len(), |i: int| request.tools@[i]@);
    assert(messages_view(request.messages@) =~= messages);
    assert(tools_view(request.tools@) =~= tools);
    lemma_body_asks(
        driver,
        request.model.model@,
        request.model.budget(),
        opt_text(request.system_prompt),
        messages,
        tools,
    );
}

/// An answer may take as many tokens as the driver allows, and more than the
/// budget to think with: where the budget would leave no room, as many more.
pub proof fn an_answer_has_room_beside_thinking(
    driver: AnthropicDriver,
    model: Seq<char>,
    budget: Option<u32>,
    system: Option<Seq<char>>,
    messages: Seq<MessageView>,
    tools: Seq<ToolView>,
)
    ensures
        ({
            let limit = body_view(
                driver.max_tokens,
                driver.prompt_caching,
                model,
                budget,
                system,
                messages,
                tools,
            ).at("max_tokens"@);
            &&& limit is Int
            &&& limit->Int_0 >= driver.max_tokens
            &&& budget is None ==> limit->Int_0 == driver.max_tokens
            &&& budget matches Some(b) ==> {
                &&& driver.max_tokens > 0 ==> limit->Int_0 > b
                &&& b < driver.max_tokens ==> limit->Int_0 == driver.max_tokens
                &&& b >= driver.max_tokens ==> limit->Int_0 - b == driver.max_tokens
            }
        }),
{
    lemma_body_members(driver, model, budget, system, messages, tools, "max_tokens"@);
}

/// With prompt caching, breakpoints stand on the last block of each of the
/// last two messages, and no message before them is touched.
pub proof fn the_end_of_a_conversation_is_marked(wire: Seq<JsonView>, i: int)
    requires
        0 <= i < wire.len(),
    ensures
        marked_tail(wire).len() == wire.len(),
        i < wire.len() - 2 ==> marked_tail(wire)[i] == wire[i],
        i >= wire.len() - 2 && wire[i].at("content"@) is Array && wire[i].at(
            "content"@,
        )->Array_0.len() > 0 && wire[i].at("content"@)->Array_0.last() is Object ==> marked_tail(
            wire,
        )[i].at("content"@)->Array_0.last().at("cache_control"@).at("type"@) == JsonView::Str(
            "ephemeral"@,
        ),
{
    lemma_marked_message(wire[i]);
    if wire[i].at("content"@) is Array {
        setting_a_member(
            wire[i]->Object_0,
            "content"@,
            JsonView::Array(marked_last(wire[i].at("content"@)->Array_0)),
        );
    }
}

// --------------------------------------------------------------- responses

/// A response is read block by block: what two lists of blocks say one after
/// the other, their texts, their calls and their reasoning say one after the
/// other. The last reasoning counts.
pub proof fn responses_are_read_block_by_block(a: Seq<ContentBlock>, b: Seq<ContentBlock>)
    ensures
        blocks_text(a + b) == blocks_text(a) + blocks_text(b),
        blocks_calls(a + b) == blocks_calls(a) + blocks_calls(b),
        blocks_thinking(a + b) == if blocks_thinking(b) is Some {
            blocks_thinking(b)
        } else {
            blocks_thinking(a)
        },
    decreases b.len(),
{
    if b.len() == 0 {
        assert(a + b =~= a);
        assert(blocks_text(a) + blocks_text(b) =~= blocks_text(a));
        assert(blocks_calls(a) + blocks_calls(b) =~= blocks_calls(a));
    } else {
        responses_are_read_block_by_block(a, b.drop_last());
        assert((a + b).drop_last() =~= a + b.drop_last());
        assert((a + b).last() == b.last());
        assert(blocks_text(a + b) =~= blocks_text(a) + blocks_text(b));
        assert(blocks_calls(a + b) =~= blocks_calls(a) + blocks_calls(b));
    }
}

/// One block of a response is one thing: a text is said, a call is asked for
/// with its id, name and input, reasoning is kept with its signature, and a
/// block of another type is nothing.
pub proof fn one_block_is_one_thing(block: ContentBlock)
    ensures
        ({
            let said = blocks_text(seq![block]);
            let calls = blocks_calls(seq![block]);
            let thought = blocks_thinking(seq![block]);
            match block {
                ContentBlock::Text { text } => said == text@ && calls.len() == 0 && thought is None,
                ContentBlock::Thinking { thinking, signature } => said.len() == 0 && calls.len()
                    == 0 && thought == Some((thinking@, opt_text(signature))),
                ContentBlock::ToolUse { id, name, input } => said.len() == 0 && calls.len() == 1
                    && calls[0].id == id@ && calls[0].name == name@ && calls[0].arguments == input@
                    && thought is None,
                ContentBlock::Other => said.len() == 0 && calls.len() == 0 && thought is None,
            }
        }),
{
    let one = seq![block];
    let none = one.drop_last();
    assert(none.len() == 0);
    assert(blocks_text(none).len() == 0 && blocks_calls(none).len() == 0 && blocks_thinking(none)
        is None);
    assert(one.last() == block);
    match block {
        ContentBlock::Text { text } => {
            assert(blocks_text(none) + text@ =~= text@);
        },
        _ => {},
    }
}

/// The answer is an assistant's: its text as one part, its calls in order, and
/// the reasoning to send back. It answers no call.
pub proof fn an_answer_holds_what_the_blocks_say(blocks: Seq<ContentBlock>)
    ensures
        ({
            let m = blocks_message(blocks);
            &&& m.role == Role::Assistant
            &&& blocks_text(blocks).len() == 0 ==> m.content.len() == 0
            &&& blocks_text(blocks).len() > 0 ==> m.content.len() == 1 && m.content[0]
                == PartView::Text(blocks_text(blocks))
            &&& m.tool_calls == blocks_calls(blocks)
            &&& m.tool_call_id is None
            &&& match blocks_thinking(blocks) {
                Some((thinking, signature)) => m.thinking == Some(thinking)
                    && m.thinking_signature == signature,
                None => m.thinking is None && m.thinking_signature is None,
            }
        }),
{
}

/// Every token that a request sent is counted as input, whether the cache
/// served it, stored it or neither; what was written is counted as output.
pub proof fn every_token_is_counted(usage: WireUsage)
    requires
        usage.total_input() <= u64::MAX,
    ensures
        usage.usage_view().input_tokens == usage.input_tokens + usage.cache_creation_input_tokens
            + usage.cache_read_input_tokens,
        usage.usage_view().output_tokens == usage.output_tokens,
{
}

} // verus!
