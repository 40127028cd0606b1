//! A streamed OpenAI response comes to the same answer as the response that
//! arrives whole.

use vstd::prelude::*;

use crate::drivers::openai::{choice_message, chunk_delta, chunk_step, chunks_run, deltas_of,
    extended, partial_call, partial_calls, text_is_what_was_streamed, unknown_call, wire_call,
    with_fragment, with_fragments, ChatCompletion, PartialView, StreamChunk, StreamToolCall,
    StreamView, WireToolCall};
use crate::json::{json_parse, JsonView};
use crate::message::{assistant_view, ToolCallView, Usage};
use crate::text::{opt_text, or_else};

verus! {

/// What a stream has accumulated before its first chunk.
pub open spec fn nothing() -> StreamView {
    StreamView {
        content: Seq::empty(),
        tool_calls: Seq::empty(),
        usage: Usage {
            input_tokens: 0,
            output_tokens: 0,
            cache_read_input_tokens: 0,
            cache_creation_input_tokens: 0,
            reasoning_tokens: 0,
        },
    }
}

/// The fragments of calls that a chunk carries.
pub open spec fn fragments_in(chunk: StreamChunk) -> Seq<StreamToolCall> {
    if chunk.choices@.len() == 0 {
        Seq::empty()
    } else {
        chunk.choices@[0].tool_calls@
    }
}

/// The fragments of calls that the chunks carry, in order.
pub open spec fn fragments_of(chunks: Seq<StreamChunk>) -> Seq<StreamToolCall>
    decreases chunks.len(),
{
    if chunks.len() == 0 {
        Seq::empty()
    } else {
        fragments_of(chunks.drop_last()) + fragments_in(chunks.last())
    }
}

/// What the fragments say of the call with an index, those of other calls left
/// aside: their ids, names and arguments, each one after the other.
pub open spec fn call_of(fragments: Seq<StreamToolCall>, index: int) -> PartialView
    decreases fragments.len(),
{
    if fragments.len() == 0 {
        unknown_call()
    } else {
        let before = call_of(fragments.drop_last(), index);
        let last = fragments.last();
        if last.index == index {
            PartialView {
                id: before.id + or_else(opt_text(last.id), Seq::empty()),
                name: before.name + (match last.function {
                    Some(f) => f.name@,
                    None => Seq::empty(),
                }),
                arguments: before.arguments + (match last.function {
                    Some(f) => f.arguments@,
                    None => Seq::empty(),
                }),
            }
        } else {
            before
        }
    }
}

/// The last count that the chunks carry.
pub open spec fn usage_of(chunks: Seq<StreamChunk>) -> Usage
    decreases chunks.len(),
{
    if chunks.len() == 0 {
        nothing().usage
    } else {
        match chunks.last().usage {
            Some(usage) => usage.usage_view(),
            None => usage_of(chunks.drop_last()),
        }
    }
}

/// Whether the chunks tell a response: the text of its first choice, each of
/// that choice's calls under its position, and its count. The fragments of
/// different calls may come in any order. Every call has a name.
pub open spec fn tells(chunks: Seq<StreamChunk>, completion: ChatCompletion) -> bool {
    let choice = completion.choices@[0];
    let calls = choice.tool_calls@;
    &&& completion.choices@.len() > 0
    &&& deltas_of(chunks) == or_else(opt_text(choice.content), Seq::empty())
    &&& forall|i: int|
        0 <= i < calls.len() ==> call_of(fragments_of(chunks), i) == (PartialView {
            id: (#[trigger] calls[i]).id@,
            name: calls[i].function.name@,
            arguments: calls[i].function.arguments@,
        }) && calls[i].function.name@.len() > 0
    &&& forall|k: int|
        0 <= k < fragments_of(chunks).len() ==> (#[trigger] fragments_of(chunks)[k]).index
            < calls.len()
    &&& usage_of(chunks) == completion.usage.usage_view()
}

/// The number of calls that the fragments make room for.
pub open spec fn room(fragments: Seq<StreamToolCall>) -> int
    decreases fragments.len(),
{
    if fragments.len() == 0 {
        0
    } else {
        let before = room(fragments.drop_last());
        if fragments.last().index < before {
            before
        } else {
            fragments.last().index + 1
        }
    }
}

proof fn lemma_gathered(fragments: Seq<StreamToolCall>)
    ensures
        with_fragments(Seq::empty(), fragments).len() == room(fragments),
        forall|i: int|
            0 <= i < room(fragments) ==> #[trigger] with_fragments(Seq::empty(), fragments)[i]
                == call_of(fragments, i),
        forall|i: int| i >= room(fragments) ==> #[trigger] call_of(fragments, i) == unknown_call(),
    decreases fragments.len(),
{
    if fragments.len() > 0 {
        let shorter = fragments.drop_last();
        let last = fragments.last();
        lemma_gathered(shorter);
        let before = with_fragments(Seq::empty(), shorter);
        let grown = extended(before, last.index as int);
        let after = with_fragment(before, last);
        assert(after == with_fragments(Seq::empty(), fragments));
        assert forall|i: int| 0 <= i < grown.len() implies #[trigger] grown[i] == call_of(
            shorter,
            i,
        ) by {
            if i < before.len() {
                assert(grown[i] == before[i]);
            } else {
                assert(call_of(shorter, i) == unknown_call());
            }
        }
        assert forall|i: int| 0 <= i < room(fragments) implies #[trigger] after[i] == call_of(
            fragments,
            i,
        ) by {
            assert(grown[i] == call_of(shorter, i));
        }
        assert forall|i: int| i >= room(fragments) implies #[trigger] call_of(fragments, i)
            == unknown_call() by {
            assert(call_of(shorter, i) == unknown_call());
        }
    }
}

proof fn lemma_append(calls: Seq<PartialView>, a: Seq<StreamToolCall>, b: Seq<StreamToolCall>)
    ensures
        with_fragments(calls, a + b) == with_fragments(with_fragments(calls, a), b),
    decreases b.len(),
{
    if b.len() == 0 {
        assert(a + b =~= a);
    } else {
        assert((a + b).drop_last() =~= a + b.drop_last());
        lemma_append(calls, a, b.drop_last());
    }
}

proof fn lemma_run(chunks: Seq<StreamChunk>)
    ensures
        chunks_run(nothing(), chunks).tool_calls == with_fragments(
            Seq::empty(),
            fragments_of(chunks),
        ),
        chunks_run(nothing(), chunks).usage == usage_of(chunks),
    decreases chunks.len(),
{
    if chunks.len() > 0 {
        lemma_run(chunks.drop_last());
        lemma_append(
            Seq::empty(),
            fragments_of(chunks.drop_last()),
            fragments_in(chunks.last()),
        );
    }
}

proof fn lemma_named(partials: Seq<PartialView>, calls: Seq<WireToolCall>)
    requires
        partials.len() == calls.len(),
        forall|i: int|
            0 <= i < calls.len() ==> (#[trigger] partials[i]).name.len() > 0 && partial_call(
                partials[i],
            ) == wire_call(calls[i]),
    ensures
        partial_calls(partials) == calls.map_values(|c: WireToolCall| wire_call(c)),
    decreases partials.len(),
{
    let all = calls.map_values(|c: WireToolCall| wire_call(c));
    if partials.len() == 0 {
        assert(all =~= Seq::<ToolCallView>::empty());
    } else {
        let n = partials.len() - 1;
        assert(partials[n].name.len() > 0);
        assert forall|i: int| 0 <= i < n implies (#[trigger] partials.drop_last()[i]).name.len() > 0
            && partial_call(partials.drop_last()[i]) == wire_call(calls.drop_last()[i]) by {
            assert(partials[i].name.len() > 0);
        }
        lemma_named(partials.drop_last(), calls.drop_last());
        assert(all =~= calls.drop_last().map_values(|c: WireToolCall| wire_call(c)).push(
            wire_call(calls[n]),
        ));
    }
}

/// Streaming a response gives the same answer as receiving it whole: whenever
/// the chunks tell the response, what they accumulate to is the message and
/// the count of the response.
pub proof fn streaming_gives_the_same_answer(chunks: Seq<StreamChunk>, completion: ChatCompletion)
    requires
        tells(chunks, completion),
    ensures
        ({
            let s = chunks_run(nothing(), chunks);
            &&& assistant_view(s.content, partial_calls(s.tool_calls)) == choice_message(
                completion.choices@[0],
            )
            &&& s.usage == completion.usage.usage_view()
        }),
{
    let s = chunks_run(nothing(), chunks);
    let fragments = fragments_of(chunks);
    let calls = completion.choices@[0].tool_calls@;
    lemma_run(chunks);
    lemma_gathered(fragments);
    text_is_what_was_streamed(nothing(), chunks);
    assert(s.content =~= deltas_of(chunks));
    lemma_room(fragments, calls.len() as int);
    if calls.len() > room(fragments) {
        let i = calls.len() - 1;
        assert(calls[i].function.name@.len() > 0);
        assert(call_of(fragments, i) == unknown_call());
    }
    assert forall|i: int| 0 <= i < calls.len() implies (#[trigger] s.tool_calls[i]).name.len() > 0
        && partial_call(s.tool_calls[i]) == wire_call(calls[i]) by {
        assert(s.tool_calls[i] == call_of(fragments, i));
        assert(calls[i].function.name@.len() > 0);
    }
    lemma_named(s.tool_calls, calls);
}

proof fn lemma_room(fragments: Seq<StreamToolCall>, n: int)
    requires
        0 <= n,
        forall|k: int| 0 <= k < fragments.len() ==> (#[trigger] fragments[k]).index < n,
    ensures
        0 <= room(fragments) <= n,
    decreases fragments.len(),
{
    if fragments.len() > 0 {
        assert forall|k: int| 0 <= k < fragments.drop_last().len() implies (
        #[trigger] fragments.drop_last()[k]).index < n by {
            assert(fragments[k].index < n);
        }
        lemma_room(fragments.drop_last(), n);
        assert(fragments[fragments.len() - 1].index < n);
    }
}

/// Each chunk of a stream adds what it says: the text of its first choice is
/// handed out and added to the text, unless it is empty; a count that comes
/// with it replaces the count so far.
pub proof fn each_chunk_adds_what_it_says(s: StreamView, chunk: StreamChunk)
    ensures
        ({
            let t = chunk_step(s, chunk);
            &&& chunk.choices@.len() > 0 && chunk.choices@[0].content is Some
                && chunk.choices@[0].content->0@.len() > 0 ==> chunk_delta(chunk) == Some(
                chunk.choices@[0].content->0@,
            ) && t.content == s.content + chunk.choices@[0].content->0@
            &&& chunk.choices@.len() == 0 || chunk.choices@[0].content is None
                || chunk.choices@[0].content->0@.len() == 0 ==> chunk_delta(chunk) is None
                && t.content == s.content
            &&& chunk.choices@.len() == 0 || chunk.choices@[0].tool_calls@.len() == 0
                ==> t.tool_calls == s.tool_calls
            &&& chunk.usage matches Some(usage) ==> t.usage.input_tokens == usage.prompt_tokens
                && t.usage.output_tokens == usage.completion_tokens
            &&& chunk.usage is None ==> t.usage == s.usage
        }),
{
    assert(s.content + Seq::<char>::empty() =~= s.content);
}

/// A fragment is added to the call it is for, piece by piece: to its id, its
/// name and its arguments. No other call changes, and calls that were skipped
/// are there with nothing known of them.
pub proof fn a_fragment_is_added_to_its_call(
    calls: Seq<PartialView>,
    fragment: StreamToolCall,
    other: int,
)
    ensures
        ({
            let grown = with_fragment(calls, fragment);
            let at = fragment.index as int;
            let known = at < calls.len();
            let name = match fragment.function {
                Some(f) => f.name@,
                None => Seq::empty(),
            };
            let arguments = match fragment.function {
                Some(f) => f.arguments@,
                None => Seq::empty(),
            };
            &&& grown.len() == if known {
                calls.len() as int
            } else {
                at + 1
            }
            &&& known ==> grown[at].name == calls[at].name + name && grown[at].arguments
                == calls[at].arguments + arguments
            &&& !known ==> grown[at].name == name && grown[at].arguments == arguments
            &&& fragment.id matches Some(id) ==> grown[at].id == if known {
                calls[at].id + id@
            } else {
                id@
            }
            &&& fragment.id is None ==> grown[at].id == if known {
                calls[at].id
            } else {
                Seq::empty()
            }
            &&& 0 <= other < calls.len() && other != at ==> grown[other] == calls[other]
            &&& calls.len() <= other < at ==> grown[other].name.len() == 0
                && grown[other].arguments.len() == 0 && grown[other].id.len() == 0
        }),
{
    let grown = with_fragment(calls, fragment);
    let at = fragment.index as int;
    let none = Seq::<char>::empty();
    if at < calls.len() {
        assert(calls[at].id + none =~= calls[at].id);
    } else {
        match fragment.function {
            Some(f) => {
                assert(none + f.name@ =~= f.name@);
                assert(none + f.arguments@ =~= f.arguments@);
            },
            None => {
                assert(none + none =~= none);
            },
        }
        match fragment.id {
            Some(id) => {
                assert(none + id@ =~= id@);
            },
            None => {
                assert(none + none =~= none);
            },
        }
    }
}

/// Fragments are added one after the other.
pub proof fn fragments_are_added_in_turn(
    calls: Seq<PartialView>,
    a: Seq<StreamToolCall>,
    fragment: StreamToolCall,
)
    ensures
        with_fragments(calls, a.push(fragment)) == with_fragment(
            with_fragments(calls, a),
            fragment,
        ),
        with_fragments(calls, Seq::empty()) == calls,
{
    assert(a.push(fragment).drop_last() =~= a);
}

/// The calls of a stream are those that have a name, in order, under their ids,
/// with the arguments that their text stands for.
pub proof fn named_calls_are_asked_for(calls: Seq<PartialView>, call: PartialView)
    ensures
        call.name.len() == 0 ==> partial_calls(calls.push(call)) == partial_calls(calls),
        call.name.len() > 0 ==> {
            let all = partial_calls(calls.push(call));
            &&& all.len() == partial_calls(calls).len() + 1
            &&& all.drop_last() == partial_calls(calls)
            &&& all.last().id == call.id
            &&& all.last().name == call.name
            &&& json_parse(call.arguments) matches Ok(value) ==> all.last().arguments == value
            &&& json_parse(call.arguments) is Err ==> all.last().arguments == JsonView::Object(
                Seq::empty(),
            )
        },
        partial_calls(Seq::empty()).len() == 0,
{
    assert(calls.push(call).drop_last() =~= calls);
    assert(partial_calls(calls).push(partial_call(call)).drop_last() =~= partial_calls(calls));
}

} // verus!
