//! How many cache breakpoints a Messages request carries: the API allows four.

use vstd::prelude::*;

use crate::drivers::anthropic::{assistant_blocks, body_view, call_block, marked_last,
    marked_message, marked_system, marked_tail, part_block, part_blocks, result_block,
    thinking_blocks, tool_entry, wire_from, wire_message};
use crate::json::{lemma_lookup_at, put_then_lookup, JsonView};
use crate::message::{MessageView, PartView, Role, ToolCallView, ToolView};

verus! {

/// Whether a block or a tool carries a breakpoint.
pub open spec fn has_breakpoint(v: JsonView) -> bool {
    v.get("cache_control"@) is Some
}

/// How many of these carry a breakpoint.
pub open spec fn breakpoints_among(items: Seq<JsonView>) -> nat
    decreases items.len(),
{
    if items.len() == 0 {
        0
    } else {
        breakpoints_among(items.drop_last()) + if has_breakpoint(items.last()) {
            1nat
        } else {
            0nat
        }
    }
}

/// How many elements of an array carry a breakpoint.
pub open spec fn breakpoints_in(v: JsonView) -> nat {
    match v {
        JsonView::Array(items) => breakpoints_among(items),
        _ => 0,
    }
}

/// How many blocks of a conversation carry a breakpoint.
pub open spec fn conversation_breakpoints(messages: Seq<JsonView>) -> nat
    decreases messages.len(),
{
    if messages.len() == 0 {
        0
    } else {
        conversation_breakpoints(messages.drop_last()) + breakpoints_in(
            messages.last().at("content"@),
        )
    }
}

/// How many breakpoints a request body carries: on its tools, in its system
/// prompt, and in its conversation.
pub open spec fn body_breakpoints(body: JsonView) -> nat {
    breakpoints_in(body.at("tools"@)) + breakpoints_in(body.at("system"@)) + (match body.at(
        "messages"@,
    ) {
        JsonView::Array(messages) => conversation_breakpoints(messages),
        _ => 0,
    })
}

spec fn bare(items: Seq<JsonView>) -> bool {
    forall|i: int| 0 <= i < items.len() ==> !has_breakpoint(#[trigger] items[i])
}

spec fn bare_message(m: JsonView) -> bool {
    &&& m is Object
    &&& m.at("content"@) matches JsonView::Array(blocks) && bare(blocks)
}

spec fn bare_messages(ms: Seq<JsonView>) -> bool {
    forall|i: int| 0 <= i < ms.len() ==> bare_message(#[trigger] ms[i])
}

proof fn lemma_bare_counts_nothing(items: Seq<JsonView>)
    requires
        bare(items),
    ensures
        breakpoints_among(items) == 0,
    decreases items.len(),
{
    if items.len() > 0 {
        assert forall|i: int| 0 <= i < items.drop_last().len() implies !has_breakpoint(
            #[trigger] items.drop_last()[i],
        ) by {
            assert(items.drop_last()[i] == items[i]);
        }
        lemma_bare_counts_nothing(items.drop_last());
        assert(!has_breakpoint(items[items.len() - 1]));
    }
}

proof fn lemma_marked_last_counts_one(items: Seq<JsonView>)
    requires
        bare(items),
    ensures
        breakpoints_among(marked_last(items)) <= 1,
{
    if items.len() > 0 {
        let m = marked_last(items);
        assert(m.drop_last() =~= items.drop_last());
        assert forall|i: int| 0 <= i < items.drop_last().len() implies !has_breakpoint(
            #[trigger] items.drop_last()[i],
        ) by {
            assert(items.drop_last()[i] == items[i]);
        }
        lemma_bare_counts_nothing(items.drop_last());
    } else {
        lemma_bare_counts_nothing(items);
    }
}

proof fn lemma_no_breakpoint(members: Seq<(Seq<char>, JsonView)>)
    requires
        forall|k: int| 0 <= k < members.len() ==> (#[trigger] members[k]).0.len() != 13,
    ensures
        !has_breakpoint(JsonView::Object(members)),
{
    reveal_strlit("cache_control");
    lemma_lookup_at(members, "cache_control"@, members.len() as int);
}

proof fn lemma_parts_bare(content: Seq<PartView>)
    ensures
        bare(part_blocks(content)),
{
    reveal_strlit("type");
    reveal_strlit("text");
    reveal_strlit("source");
    let blocks = part_blocks(content);
    assert forall|i: int| 0 <= i < blocks.len() implies !has_breakpoint(#[trigger] blocks[i]) by {
        assert(blocks[i] == part_block(content[i]));
        lemma_no_breakpoint(blocks[i]->Object_0);
    }
}

proof fn lemma_assistant_bare(m: MessageView)
    ensures
        bare(assistant_blocks(m)),
{
    reveal_strlit("type");
    reveal_strlit("thinking");
    reveal_strlit("signature");
    reveal_strlit("id");
    reveal_strlit("name");
    reveal_strlit("input");
    let first = thinking_blocks(m);
    let second = part_blocks(m.content);
    let third = m.tool_calls.map_values(|c: ToolCallView| call_block(c));
    lemma_parts_bare(m.content);
    let all = assistant_blocks(m);
    assert forall|i: int| 0 <= i < all.len() implies !has_breakpoint(#[trigger] all[i]) by {
        if i < first.len() {
            assert(all[i] == first[i]);
            lemma_no_breakpoint(first[i]->Object_0);
        } else if i < first.len() + second.len() {
            assert(all[i] == second[i - first.len()]);
        } else {
            let j = i - first.len() - second.len();
            assert(all[i] == call_block(m.tool_calls[j]));
            lemma_no_breakpoint(all[i]->Object_0);
        }
    }
}

proof fn lemma_wire_message_bare(role: Seq<char>, blocks: Seq<JsonView>)
    requires
        bare(blocks),
    ensures
        bare_message(wire_message(role, blocks)),
{
    reveal_strlit("role");
    reveal_strlit("content");
    let m = wire_message(role, blocks);
    assert("role"@.len() != "content"@.len());
    lemma_lookup_at(m->Object_0, "content"@, 1);
}

proof fn lemma_wire_bare(messages: Seq<MessageView>, pending: Seq<JsonView>)
    requires
        bare(pending),
    ensures
        bare_messages(wire_from(messages, pending)),
    decreases messages.len(),
{
    lemma_wire_message_bare("user"@, pending);
    if messages.len() > 0 {
        let m = messages[0];
        let rest = messages.drop_first();
        match m.role {
            Role::Tool => {
                reveal_strlit("type");
                reveal_strlit("tool_use_id");
                reveal_strlit("content");
                lemma_no_breakpoint(result_block(m)->Object_0);
                lemma_wire_bare(rest, pending.push(result_block(m)));
            },
            Role::User => {
                lemma_parts_bare(m.content);
                lemma_wire_message_bare("user"@, part_blocks(m.content));
                lemma_wire_bare(rest, Seq::empty());
            },
            Role::Assistant => {
                lemma_assistant_bare(m);
                lemma_wire_message_bare("assistant"@, assistant_blocks(m));
                lemma_wire_bare(rest, Seq::empty());
            },
            Role::System => {
                lemma_wire_bare(rest, pending);
            },
        }
    }
}

proof fn lemma_bare_messages_count_nothing(ms: Seq<JsonView>)
    requires
        bare_messages(ms),
    ensures
        conversation_breakpoints(ms) == 0,
    decreases ms.len(),
{
    if ms.len() > 0 {
        assert forall|i: int| 0 <= i < ms.drop_last().len() implies bare_message(
            #[trigger] ms.drop_last()[i],
        ) by {
            assert(ms.drop_last()[i] == ms[i]);
        }
        lemma_bare_messages_count_nothing(ms.drop_last());
        assert(bare_message(ms[ms.len() - 1]));
        lemma_bare_counts_nothing(ms.last().at("content"@)->Array_0);
    }
}

proof fn lemma_marked_message_counts_one(m: JsonView)
    requires
        bare_message(m),
    ensures
        breakpoints_in(marked_message(m).at("content"@)) <= 1,
{
    let blocks = m.at("content"@)->Array_0;
    lemma_marked_last_counts_one(blocks);
    put_then_lookup(
        m->Object_0,
        "content"@,
        JsonView::Array(marked_last(blocks)),
        "content"@,
    );
}

proof fn lemma_marked_tail_counts_two(ms: Seq<JsonView>)
    requires
        bare_messages(ms),
    ensures
        conversation_breakpoints(marked_tail(ms)) <= 2,
{
    let t = marked_tail(ms);
    if ms.len() >= 1 {
        assert(bare_message(ms[ms.len() - 1]));
        lemma_marked_message_counts_one(ms[ms.len() - 1]);
        let u = t.drop_last();
        if ms.len() >= 2 {
            assert(bare_message(ms[ms.len() - 2]));
            lemma_marked_message_counts_one(ms[ms.len() - 2]);
            let v = u.drop_last();
            assert forall|i: int| 0 <= i < v.len() implies bare_message(#[trigger] v[i]) by {
                assert(v[i] == ms[i]);
            }
            lemma_bare_messages_count_nothing(v);
            assert(u.last() == marked_message(ms[ms.len() - 2]));
            assert(conversation_breakpoints(u) <= 1);
        } else {
            assert(conversation_breakpoints(u) == 0);
        }
        assert(t.last() == marked_message(ms[ms.len() - 1]));
    }
}

proof fn lemma_tools_bare(tools: Seq<ToolView>)
    ensures
        bare(tools.map_values(|t: ToolView| tool_entry(t))),
{
    reveal_strlit("name");
    reveal_strlit("description");
    reveal_strlit("input_schema");
    let entries = tools.map_values(|t: ToolView| tool_entry(t));
    assert forall|i: int| 0 <= i < entries.len() implies !has_breakpoint(#[trigger] entries[i]) by {
        assert(entries[i] == tool_entry(tools[i]));
        lemma_no_breakpoint(entries[i]->Object_0);
    }
}

/// A request body never carries more than four breakpoints, which is the
/// limit of the API, and none at all without prompt caching.
pub proof fn at_most_four_breakpoints(
    max_tokens: u64,
    caching: bool,
    model: Seq<char>,
    budget: Option<u32>,
    system: Option<Seq<char>>,
    messages: Seq<MessageView>,
    tools: Seq<ToolView>,
)
    ensures
        body_breakpoints(
            body_view(max_tokens, caching, model, budget, system, messages, tools),
        ) <= if caching {
            4nat
        } else {
            0nat
        },
{
    let body = body_view(max_tokens, caching, model, budget, system, messages, tools);
    let members = body->Object_0;
    let wire = wire_from(messages, Seq::empty());
    let entries = tools.map_values(|t: ToolView| tool_entry(t));
    lemma_wire_bare(messages, Seq::empty());
    lemma_bare_messages_count_nothing(wire);
    lemma_marked_tail_counts_two(wire);
    lemma_tools_bare(tools);
    lemma_bare_counts_nothing(entries);
    lemma_marked_last_counts_one(entries);
    reveal_strlit("model");
    reveal_strlit("max_tokens");
    reveal_strlit("messages");
    reveal_strlit("thinking");
    reveal_strlit("system");
    reveal_strlit("tools");
    assert("model"@[0] == 'm' && "tools"@[0] == 't');
    let a: int = if budget is Some {
        1
    } else {
        0
    };
    let b: int = if system is Some {
        1
    } else {
        0
    };
    assert(members[0].0 == "model"@ && members[1].0 == "max_tokens"@ && members[2].0
        == "messages"@);
    lemma_lookup_at(members, "messages"@, 2);
    if budget is Some {
        assert(members[3].0 == "thinking"@);
    }
    if system is Some {
        assert(members[3 + a].0 == "system"@);
    }
    if tools.len() > 0 {
        assert(members[3 + a + b].0 == "tools"@);
    }
    lemma_lookup_at(members, "system"@, 3 + a + if system is None && tools.len() > 0 { 1int } else { 0 });
    lemma_lookup_at(members, "tools"@, 3 + a + b);
    if let Some(s) = system {
        let blocks = marked_system(s)->Array_0;
        assert(blocks.drop_last() =~= Seq::<JsonView>::empty());
        assert(breakpoints_among(Seq::<JsonView>::empty()) == 0);
        assert(breakpoints_among(blocks) <= 1);
    }
}

} // verus!
