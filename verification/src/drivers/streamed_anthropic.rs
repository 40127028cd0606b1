//! A streamed Anthropic response comes to the same answer as the response that
//! arrives whole.

use vstd::prelude::*;

use crate::drivers::anthropic::{block_call, block_calls, blocks_calls, blocks_message, blocks_text,
    blocks_thinking, deltas_of, event_delta, event_fits, event_step, events_run, stream_message,
    text_is_what_was_streamed, unknown_block, BlockView, ContentBlock, StreamBlockStart,
    StreamDelta, StreamEvent, StreamView, WireUsage};
use crate::drivers::slots::{ascending, each_slot_is_found, last_slot, put_keeps_order,
    put_then_get, slot_get};
use crate::json::{json_parse, JsonView};
use crate::message::{an_assistant_says_its_text, text_of, Role, ToolCallView, Usage};

verus! {

/// What a stream has accumulated before its first event.
pub open spec fn nothing() -> StreamView {
    StreamView {
        text: Seq::empty(),
        thinking: Seq::empty(),
        thinking_signature: None,
        blocks: Seq::empty(),
        usage: Usage {
            input_tokens: 0,
            output_tokens: 0,
            cache_read_input_tokens: 0,
            cache_creation_input_tokens: 0,
            reasoning_tokens: 0,
        },
    }
}

/// The pieces of reasoning among the events, one after the other.
pub open spec fn thoughts_of(events: Seq<StreamEvent>) -> Seq<char>
    decreases events.len(),
{
    if events.len() == 0 {
        Seq::empty()
    } else {
        match events.last() {
            StreamEvent::ContentBlockDelta { delta: StreamDelta::ThinkingDelta { thinking }, .. } =>
            thoughts_of(events.drop_last()) + thinking@,
            _ => thoughts_of(events.drop_last()),
        }
    }
}

/// The last signature among the events.
pub open spec fn signature_of(events: Seq<StreamEvent>) -> Option<Seq<char>>
    decreases events.len(),
{
    if events.len() == 0 {
        None
    } else {
        match events.last() {
            StreamEvent::ContentBlockDelta { delta: StreamDelta::SignatureDelta { signature }, .. }
            => Some(signature@),
            _ => signature_of(events.drop_last()),
        }
    }
}

/// What the events say of the block with an index, those of other blocks left
/// aside.
pub open spec fn block_of(events: Seq<StreamEvent>, index: int) -> Option<BlockView>
    decreases events.len(),
{
    if events.len() == 0 {
        None
    } else {
        let before = block_of(events.drop_last(), index);
        match events.last() {
            StreamEvent::ContentBlockStart {
                index: at,
                content_block: StreamBlockStart::ToolUse { id, name },
            } if at == index => Some(
                BlockView {
                    is_tool_use: true,
                    tool_id: id@,
                    tool_name: name@,
                    json_fragments: Seq::empty(),
                },
            ),
            StreamEvent::ContentBlockDelta {
                index: at,
                delta: StreamDelta::InputJsonDelta { partial_json },
            } if at == index => {
                let block = match before {
                    Some(block) => block,
                    None => unknown_block(),
                };
                Some(BlockView { json_fragments: block.json_fragments + partial_json@, ..block })
            },
            _ => before,
        }
    }
}

/// The pieces of input for the block with an index, one after the other.
pub open spec fn fragments_of(events: Seq<StreamEvent>, index: int) -> Seq<char>
    decreases events.len(),
{
    if events.len() == 0 {
        Seq::empty()
    } else {
        match events.last() {
            StreamEvent::ContentBlockDelta {
                index: at,
                delta: StreamDelta::InputJsonDelta { partial_json },
            } if at == index => fragments_of(events.drop_last(), index) + partial_json@,
            _ => fragments_of(events.drop_last(), index),
        }
    }
}

/// Whether an event opens a call in the block with an index.
pub open spec fn opens(event: StreamEvent, index: int) -> bool {
    event matches StreamEvent::ContentBlockStart {
        index: at,
        content_block: StreamBlockStart::ToolUse { .. },
    } && at == index
}

/// A call that is opened once gathers its pieces of input, whatever else the
/// stream carries in between.
pub proof fn opened_call_gathers_its_input(
    before: Seq<StreamEvent>,
    id: String,
    name: String,
    index: u64,
    after: Seq<StreamEvent>,
)
    requires
        forall|i: int| 0 <= i < after.len() ==> !opens(#[trigger] after[i], index as int),
    ensures
        block_of(
            before.push(
                StreamEvent::ContentBlockStart {
                    index,
                    content_block: StreamBlockStart::ToolUse { id, name },
                },
            ) + after,
            index as int,
        ) == Some(
            BlockView {
                is_tool_use: true,
                tool_id: id@,
                tool_name: name@,
                json_fragments: fragments_of(after, index as int),
            },
        ),
    decreases after.len(),
{
    let opened = before.push(
        StreamEvent::ContentBlockStart {
            index,
            content_block: StreamBlockStart::ToolUse { id, name },
        },
    );
    if after.len() == 0 {
        assert(opened + after =~= opened);
        assert(opened.drop_last() =~= before);
    } else {
        let shorter = after.drop_last();
        assert((opened + after).drop_last() =~= opened + shorter);
        assert((opened + after).last() == after.last());
        assert(!opens(after[after.len() - 1], index as int));
        assert forall|i: int| 0 <= i < shorter.len() implies !opens(
            #[trigger] shorter[i],
            index as int,
        ) by {
            assert(shorter[i] == after[i]);
        }
        opened_call_gathers_its_input(before, id, name, index, shorter);
    }
}

/// The number of tokens that the events say were sent.
pub open spec fn input_of(events: Seq<StreamEvent>) -> u64
    decreases events.len(),
{
    if events.len() == 0 {
        0
    } else {
        match events.last() {
            StreamEvent::MessageStart { usage } => usage.total_input() as u64,
            _ => input_of(events.drop_last()),
        }
    }
}

/// The number of tokens that the events say were received.
pub open spec fn output_of(events: Seq<StreamEvent>) -> u64
    decreases events.len(),
{
    if events.len() == 0 {
        0
    } else {
        match events.last() {
            StreamEvent::MessageDelta { usage } if usage.output_tokens > 0 => usage.output_tokens,
            _ => output_of(events.drop_last()),
        }
    }
}

/// Whether the events tell a block: a call in full, and of any other block no
/// call.
pub open spec fn tells_block(events: Seq<StreamEvent>, index: int, block: ContentBlock) -> bool {
    match block {
        ContentBlock::ToolUse { id, name, input } => block_of(events, index) matches Some(b)
            && b.is_tool_use && block_call(b) == (ToolCallView {
            id: id@,
            name: name@,
            arguments: input@,
        }),
        _ => block_of(events, index) matches Some(b) ==> !b.is_tool_use,
    }
}

/// Whether the events tell a response: its text, its reasoning, each of its
/// blocks under its position, and its counts. The events of different blocks
/// may come in any order.
pub open spec fn tells(
    events: Seq<StreamEvent>,
    blocks: Seq<ContentBlock>,
    usage: WireUsage,
) -> bool {
    &&& deltas_of(events) == blocks_text(blocks)
    &&& match blocks_thinking(blocks) {
        Some((thinking, signature)) => thinking.len() > 0 && thoughts_of(events) == thinking
            && signature_of(events) == signature,
        None => thoughts_of(events).len() == 0,
    }
    &&& forall|i: int|
        0 <= i < blocks.len() ==> tells_block(events, i, #[trigger] blocks[i])
    &&& forall|i: int| i < 0 || i >= blocks.len() ==> #[trigger] block_of(events, i) is None
    &&& input_of(events) == usage.total_input()
    &&& output_of(events) == usage.output_tokens
}

proof fn lemma_run(events: Seq<StreamEvent>)
    ensures
        ascending(events_run(nothing(), events).blocks),
        events_run(nothing(), events).thinking == thoughts_of(events),
        events_run(nothing(), events).thinking_signature == signature_of(events),
        events_run(nothing(), events).usage == (Usage {
            input_tokens: input_of(events),
            output_tokens: output_of(events),
            ..nothing().usage
        }),
        forall|i: int| #[trigger]
            slot_get(events_run(nothing(), events).blocks, i) == block_of(events, i),
    decreases events.len(),
{
    if events.len() > 0 {
        let s = events_run(nothing(), events.drop_last());
        lemma_run(events.drop_last());
        let r = event_step(s, events.last());
        match events.last() {
            StreamEvent::ContentBlockStart {
                index,
                content_block: StreamBlockStart::ToolUse { id, name },
            } => {
                let block = BlockView {
                    is_tool_use: true,
                    tool_id: id@,
                    tool_name: name@,
                    json_fragments: Seq::empty(),
                };
                put_keeps_order(s.blocks, index as int, block);
                assert forall|i: int| #[trigger] slot_get(r.blocks, i) == block_of(events, i) by {
                    put_then_get(s.blocks, index as int, block, i);
                    assert(slot_get(s.blocks, i) == block_of(events.drop_last(), i));
                }
            },
            StreamEvent::ContentBlockDelta {
                index,
                delta: StreamDelta::InputJsonDelta { partial_json },
            } => {
                assert(slot_get(s.blocks, index as int) == block_of(
                    events.drop_last(),
                    index as int,
                ));
                let block = match slot_get(s.blocks, index as int) {
                    Some(block) => block,
                    None => unknown_block(),
                };
                let block = BlockView {
                    json_fragments: block.json_fragments + partial_json@,
                    ..block
                };
                put_keeps_order(s.blocks, index as int, block);
                assert forall|i: int| #[trigger] slot_get(r.blocks, i) == block_of(events, i) by {
                    put_then_get(s.blocks, index as int, block, i);
                    assert(slot_get(s.blocks, i) == block_of(events.drop_last(), i));
                }
            },
            _ => {
                assert forall|i: int| #[trigger] slot_get(r.blocks, i) == block_of(events, i) by {
                    assert(slot_get(s.blocks, i) == block_of(events.drop_last(), i));
                }
            },
        }
    }
}

proof fn lemma_calls(s: Seq<(int, BlockView)>, events: Seq<StreamEvent>, blocks: Seq<ContentBlock>)
    requires
        ascending(s),
        forall|i: int| 0 <= i < blocks.len() ==> tells_block(events, i, #[trigger] blocks[i]),
        forall|i: int| 0 <= i < blocks.len() ==> #[trigger] slot_get(s, i) == block_of(events, i),
        forall|i: int| i < 0 || i >= blocks.len() ==> #[trigger] slot_get(s, i) is None,
    ensures
        block_calls(s) == blocks_calls(blocks),
    decreases blocks.len(),
{
    if blocks.len() == 0 {
        if s.len() > 0 {
            each_slot_is_found(s, 0);
        }
    } else {
        let n = blocks.len() - 1;
        let shorter = blocks.drop_last();
        assert(tells_block(events, n, blocks[n]));
        assert(slot_get(s, n) == block_of(events, n));
        assert forall|i: int| 0 <= i < shorter.len() implies tells_block(
            events,
            i,
            #[trigger] shorter[i],
        ) by {
            assert(shorter[i] == blocks[i]);
        }
        if slot_get(s, n) is Some {
            assert(s.len() > 0);
            each_slot_is_found(s, s.len() - 1);
            assert(s.last().0 <= n);
            if s.last().0 != n {
                lemma_below(s, n);
            }
            let t = s.drop_last();
            assert forall|i: int| #[trigger] slot_get(t, i) == if i == n {
                None
            } else {
                slot_get(s, i)
            } by {
                last_slot(s, i);
                if i == n {
                    lemma_below(t, n);
                }
            }
            last_slot(s, n);
            lemma_calls(t, events, shorter);
        } else {
            lemma_calls(s, events, shorter);
        }
    }
}

/// Ascending slots that all lie below a number hold nothing under it.
proof fn lemma_below(s: Seq<(int, BlockView)>, key: int)
    requires
        ascending(s),
        forall|i: int| 0 <= i < s.len() ==> (#[trigger] s[i]).0 < key,
    ensures
        slot_get(s, key) is None,
    decreases s.len(),
{
    if s.len() > 0 {
        lemma_below(s.drop_first(), key);
    }
}

/// Streaming a response gives the same answer as receiving it whole: whenever
/// the events tell the response, what they accumulate to is the message and
/// the count of the response.
pub proof fn streaming_gives_the_same_answer(
    events: Seq<StreamEvent>,
    blocks: Seq<ContentBlock>,
    usage: WireUsage,
)
    requires
        usage.total_input() <= u64::MAX,
        tells(events, blocks, usage),
    ensures
        stream_message(events_run(nothing(), events)) == blocks_message(blocks),
        events_run(nothing(), events).usage == usage.usage_view(),
{
    let s = events_run(nothing(), events);
    lemma_run(events);
    text_is_what_was_streamed(nothing(), events);
    assert(s.text =~= blocks_text(blocks));
    lemma_calls(s.blocks, events, blocks);
}

/// Each event of a stream does one thing. A piece of text is handed out and
/// added to the text; reasoning and its signature are kept and never handed
/// out; a tool use opens its block under its id and name; a piece of input is
/// added to the block it is for; the start counts what was sent and the end
/// what was written. Whatever an event is not about stays as it was.
pub proof fn each_event_does_one_thing(s: StreamView, event: StreamEvent, other: int)
    requires
        ascending(s.blocks),
        event_fits(event),
    ensures
        ({
            let t = event_step(s, event);
            &&& match event {
                StreamEvent::ContentBlockDelta { delta: StreamDelta::TextDelta { text }, .. } => {
                    event_delta(event) == Some(text@) && t.text == s.text + text@
                },
                _ => event_delta(event) is None && t.text == s.text,
            }
            &&& match event {
                StreamEvent::ContentBlockDelta {
                    delta: StreamDelta::ThinkingDelta { thinking },
                    ..
                } => t.thinking == s.thinking + thinking@,
                _ => t.thinking == s.thinking,
            }
            &&& match event {
                StreamEvent::ContentBlockDelta {
                    delta: StreamDelta::SignatureDelta { signature },
                    ..
                } => t.thinking_signature == Some(signature@),
                _ => t.thinking_signature == s.thinking_signature,
            }
            &&& match event {
                StreamEvent::ContentBlockStart {
                    index,
                    content_block: StreamBlockStart::ToolUse { id, name },
                } => slot_get(t.blocks, index as int) matches Some(block) && block.is_tool_use
                    && block.tool_id == id@ && block.tool_name == name@
                    && block.json_fragments.len() == 0 && (other != index ==> slot_get(
                    t.blocks,
                    other,
                ) == slot_get(s.blocks, other)),
                StreamEvent::ContentBlockDelta {
                    index,
                    delta: StreamDelta::InputJsonDelta { partial_json },
                } => {
                    &&& slot_get(s.blocks, index as int) matches Some(block) ==> (slot_get(
                        t.blocks,
                        index as int,
                    ) matches Some(grown) && grown.json_fragments == block.json_fragments
                        + partial_json@ && grown.is_tool_use == block.is_tool_use && grown.tool_id
                        == block.tool_id && grown.tool_name == block.tool_name)
                    &&& slot_get(s.blocks, index as int) is None ==> (slot_get(
                        t.blocks,
                        index as int,
                    ) matches Some(grown) && grown.json_fragments == partial_json@
                        && !grown.is_tool_use)
                    &&& other != index ==> slot_get(t.blocks, other) == slot_get(s.blocks, other)
                },
                _ => t.blocks == s.blocks,
            }
            &&& match event {
                StreamEvent::MessageStart { usage } => t.usage.input_tokens == usage.input_tokens
                    + usage.cache_creation_input_tokens + usage.cache_read_input_tokens
                    && t.usage.output_tokens == s.usage.output_tokens,
                StreamEvent::MessageDelta { usage } => t.usage.input_tokens == s.usage.input_tokens
                    && t.usage.output_tokens == if usage.output_tokens > 0 {
                    usage.output_tokens
                } else {
                    s.usage.output_tokens
                },
                _ => t.usage == s.usage,
            }
        }),
{
    match event {
        StreamEvent::ContentBlockStart {
            index,
            content_block: StreamBlockStart::ToolUse { id, name },
        } => {
            let block = BlockView {
                is_tool_use: true,
                tool_id: id@,
                tool_name: name@,
                json_fragments: Seq::empty(),
            };
            put_then_get(s.blocks, index as int, block, index as int);
            put_then_get(s.blocks, index as int, block, other);
        },
        StreamEvent::ContentBlockDelta {
            index,
            delta: StreamDelta::InputJsonDelta { partial_json },
        } => {
            let block = match slot_get(s.blocks, index as int) {
                Some(block) => block,
                None => unknown_block(),
            };
            let grown = BlockView {
                json_fragments: block.json_fragments + partial_json@,
                ..block
            };
            put_then_get(s.blocks, index as int, grown, index as int);
            put_then_get(s.blocks, index as int, grown, other);
            if slot_get(s.blocks, index as int) is None {
                assert(Seq::<char>::empty() + partial_json@ =~= partial_json@);
            }
        },
        _ => {},
    }
}

/// A block that asks for a tool asks for it by the id and the name it was
/// opened under, with the arguments that its pieces spell; without any piece,
/// with no arguments.
pub proof fn a_block_asks_for_what_it_spells(block: BlockView)
    ensures
        block_call(block).id == block.tool_id,
        block_call(block).name == block.tool_name,
        block.json_fragments.len() == 0 ==> block_call(block).arguments == JsonView::Object(
            Seq::empty(),
        ),
        block.json_fragments.len() > 0 ==> (json_parse(block.json_fragments) matches Ok(value)
            ==> block_call(block).arguments == value),
        block.json_fragments.len() > 0 ==> (json_parse(block.json_fragments) is Err ==> block_call(
            block,
        ).arguments == JsonView::Object(Seq::empty())),
{
}

/// The answer of a stream is what it gathered: the text, the calls of the
/// blocks that ask for one, in order, and the reasoning if there was any.
pub proof fn a_stream_comes_to_what_it_gathered(s: StreamView)
    ensures
        ({
            let m = stream_message(s);
            &&& m.role == Role::Assistant
            &&& text_of(m.content) == s.text
            &&& m.tool_call_id is None
            &&& s.thinking.len() == 0 ==> m.thinking is None && m.thinking_signature is None
            &&& s.thinking.len() > 0 ==> m.thinking == Some(s.thinking) && m.thinking_signature
                == s.thinking_signature
            &&& m.tool_calls == s.blocks.filter(|b: (int, BlockView)| b.1.is_tool_use).map_values(
                |b: (int, BlockView)| block_call(b.1),
            )
        }),
{
    an_assistant_says_its_text(s.text, block_calls(s.blocks));
    lemma_block_calls(s.blocks);
}

proof fn lemma_block_calls(blocks: Seq<(int, BlockView)>)
    ensures
        block_calls(blocks) == blocks.filter(|b: (int, BlockView)| b.1.is_tool_use).map_values(
            |b: (int, BlockView)| block_call(b.1),
        ),
    decreases blocks.len(),
{
    reveal(Seq::filter);
    let keep = |b: (int, BlockView)| b.1.is_tool_use;
    let call = |b: (int, BlockView)| block_call(b.1);
    if blocks.len() > 0 {
        lemma_block_calls(blocks.drop_last());
        assert(block_calls(blocks) =~= blocks.filter(keep).map_values(call));
    } else {
        assert(block_calls(blocks) =~= blocks.filter(keep).map_values(call));
    }
}

} // verus!
