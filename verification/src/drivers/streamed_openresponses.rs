//! A streamed Open Responses response comes to the same answer as the response
//! that arrives whole.

use vstd::prelude::*;

use crate::drivers::openresponses::{call_at, deltas_of, error_text, event_delta, event_step,
    events_run, or_fallback, output_calls, output_message, output_text, output_thinking, reasoned,
    received_call, received_calls, text_is_what_was_streamed, OutputItem, PartialView, StreamEvent,
    StreamItem, StreamView, WireError, WireUsage};
use crate::drivers::slots::{ascending, each_slot_is_found, last_slot, put_keeps_order,
    put_then_get, slot_get};
use crate::json::{json_parse, JsonView};
use crate::message::{assistant_view, Usage};

verus! {

/// What a stream has accumulated before its first event.
pub open spec fn nothing() -> StreamView {
    StreamView {
        text: Seq::empty(),
        thinking: Seq::empty(),
        calls: Seq::empty(),
        usage: Usage {
            input_tokens: 0,
            output_tokens: 0,
            cache_read_input_tokens: 0,
            cache_creation_input_tokens: 0,
            reasoning_tokens: 0,
        },
    }
}

/// The pieces of reasoning among the events, one after the other.
pub open spec fn thoughts_of(events: Seq<StreamEvent>) -> Seq<char>
    decreases events.len(),
{
    if events.len() == 0 {
        Seq::empty()
    } else {
        match events.last() {
            StreamEvent::ReasoningSummaryDelta { delta } => thoughts_of(events.drop_last())
                + delta@,
            StreamEvent::ReasoningTextDelta { delta } => thoughts_of(events.drop_last()) + delta@,
            _ => thoughts_of(events.drop_last()),
        }
    }
}

/// A call of which nothing has been received.
pub open spec fn unknown_call() -> PartialView {
    PartialView { call_id: Seq::empty(), name: Seq::empty(), arguments: Seq::empty() }
}

/// What an event makes of a call that was received so far, if the event is about
/// the call with this index.
pub open spec fn call_step(call: PartialView, event: StreamEvent, index: int) -> Option<
    PartialView,
> {
    match event {
        StreamEvent::OutputItemAdded {
            output_index,
            item: StreamItem::FunctionCall { call_id, name, arguments },
        } if output_index == index => Some(
            PartialView {
                call_id: call_id@,
                name: name@,
                arguments: call.arguments + arguments@,
            },
        ),
        StreamEvent::OutputItemDone {
            output_index,
            item: StreamItem::FunctionCall { call_id, name, arguments },
        } if output_index == index => Some(
            PartialView {
                call_id: or_fallback(call.call_id, call_id@),
                name: or_fallback(call.name, name@),
                arguments: or_fallback(call.arguments, arguments@),
            },
        ),
        StreamEvent::FunctionCallArgumentsDelta { output_index, delta } if output_index == index =>
        Some(PartialView { arguments: call.arguments + delta@, ..call }),
        StreamEvent::FunctionCallArgumentsDone { output_index, arguments } if output_index
            == index => Some(
            PartialView { arguments: or_fallback(call.arguments, arguments@), ..call },
        ),
        _ => None,
    }
}

/// What the events say of the call with an index, those of other items left
/// aside.
pub open spec fn call_of(events: Seq<StreamEvent>, index: int) -> Option<PartialView>
    decreases events.len(),
{
    if events.len() == 0 {
        None
    } else {
        let before = call_of(events.drop_last(), index);
        let call = match before {
            Some(call) => call,
            None => unknown_call(),
        };
        match call_step(call, events.last(), index) {
            Some(call) => Some(call),
            None => before,
        }
    }
}

/// The last count that the events carry.
pub open spec fn usage_of(events: Seq<StreamEvent>) -> Usage
    decreases events.len(),
{
    if events.len() == 0 {
        nothing().usage
    } else {
        match events.last() {
            StreamEvent::Completed { usage } => usage.usage_view(),
            StreamEvent::Incomplete { usage } => usage.usage_view(),
            _ => usage_of(events.drop_last()),
        }
    }
}

/// Whether the events tell an item: a call in full, which has a name, and of any
/// other item no call.
pub open spec fn tells_item(events: Seq<StreamEvent>, index: int, item: OutputItem) -> bool {
    match item {
        OutputItem::FunctionCall { call_id, name, arguments } => name@.len() > 0 && call_of(
            events,
            index,
        ) == Some(PartialView { call_id: call_id@, name: name@, arguments: arguments@ }),
        _ => call_of(events, index) matches Some(call) ==> call.name.len() == 0,
    }
}

/// Whether the events tell a response: its text, its reasoning, each of its
/// items under its position, and its count. The events of different items may
/// come in any order.
pub open spec fn tells(
    events: Seq<StreamEvent>,
    output: Seq<OutputItem>,
    usage: WireUsage,
) -> bool {
    &&& deltas_of(events) == output_text(output)
    &&& thoughts_of(events) == output_thinking(output)
    &&& forall|i: int| 0 <= i < output.len() ==> tells_item(events, i, #[trigger] output[i])
    &&& forall|i: int| i < 0 || i >= output.len() ==> #[trigger] call_of(events, i) is None
    &&& usage_of(events) == usage.usage_view()
}

/// The index of the call that an event is about.
pub open spec fn subject_of(event: StreamEvent) -> Option<int> {
    match event {
        StreamEvent::OutputItemAdded {
            output_index,
            item: StreamItem::FunctionCall { .. },
        } => Some(output_index as int),
        StreamEvent::OutputItemDone {
            output_index,
            item: StreamItem::FunctionCall { .. },
        } => Some(output_index as int),
        StreamEvent::FunctionCallArgumentsDelta { output_index, .. } => Some(output_index as int),
        StreamEvent::FunctionCallArgumentsDone { output_index, .. } => Some(output_index as int),
        _ => None,
    }
}

proof fn lemma_run(events: Seq<StreamEvent>)
    ensures
        ascending(events_run(nothing(), events).calls),
        events_run(nothing(), events).thinking == thoughts_of(events),
        events_run(nothing(), events).usage == usage_of(events),
        forall|i: int| #[trigger]
            slot_get(events_run(nothing(), events).calls, i) == call_of(events, i),
    decreases events.len(),
{
    if events.len() > 0 {
        let event = events.last();
        let s = events_run(nothing(), events.drop_last());
        lemma_run(events.drop_last());
        let r = event_step(s, event);
        match subject_of(event) {
            Some(index) => {
                assert(slot_get(s.calls, index) == call_of(events.drop_last(), index));
                let call = call_at(s.calls, index);
                let value = call_step(call, event, index)->0;
                put_keeps_order(s.calls, index, value);
                assert forall|i: int| #[trigger] slot_get(r.calls, i) == call_of(events, i) by {
                    put_then_get(s.calls, index, value, i);
                    assert(slot_get(s.calls, i) == call_of(events.drop_last(), i));
                }
            },
            None => {
                assert forall|i: int| #[trigger] slot_get(r.calls, i) == call_of(events, i) by {
                    assert(slot_get(s.calls, i) == call_of(events.drop_last(), i));
                }
            },
        }
    }
}

/// Ascending slots that all lie below a number hold nothing under it.
proof fn lemma_below(s: Seq<(int, PartialView)>, key: int)
    requires
        ascending(s),
        forall|i: int| 0 <= i < s.len() ==> (#[trigger] s[i]).0 < key,
    ensures
        slot_get(s, key) is None,
    decreases s.len(),
{
    if s.len() > 0 {
        lemma_below(s.drop_first(), key);
    }
}

proof fn lemma_calls(s: Seq<(int, PartialView)>, events: Seq<StreamEvent>, output: Seq<OutputItem>)
    requires
        ascending(s),
        forall|i: int| 0 <= i < output.len() ==> tells_item(events, i, #[trigger] output[i]),
        forall|i: int| 0 <= i < output.len() ==> #[trigger] slot_get(s, i) == call_of(events, i),
        forall|i: int| i < 0 || i >= output.len() ==> #[trigger] slot_get(s, i) is None,
    ensures
        received_calls(s) == output_calls(output),
    decreases output.len(),
{
    if output.len() == 0 {
        if s.len() > 0 {
            each_slot_is_found(s, 0);
        }
    } else {
        let n = output.len() - 1;
        let shorter = output.drop_last();
        assert(tells_item(events, n, output[n]));
        assert(slot_get(s, n) == call_of(events, n));
        assert forall|i: int| 0 <= i < shorter.len() implies tells_item(
            events,
            i,
            #[trigger] shorter[i],
        ) by {
            assert(shorter[i] == output[i]);
        }
        if slot_get(s, n) is Some {
            assert(s.len() > 0);
            each_slot_is_found(s, s.len() - 1);
            assert(s.last().0 <= n);
            if s.last().0 != n {
                lemma_below(s, n);
            }
            let t = s.drop_last();
            assert forall|i: int| #[trigger] slot_get(t, i) == if i == n {
                None
            } else {
                slot_get(s, i)
            } by {
                last_slot(s, i);
                if i == n {
                    lemma_below(t, n);
                }
            }
            last_slot(s, n);
            lemma_calls(t, events, shorter);
        } else {
            lemma_calls(s, events, shorter);
        }
    }
}

/// Streaming a response gives the same answer as receiving it whole: whenever
/// the events tell the response, what they accumulate to is the message and
/// the count of the response.
pub proof fn streaming_gives_the_same_answer(
    events: Seq<StreamEvent>,
    output: Seq<OutputItem>,
    usage: WireUsage,
)
    requires
        tells(events, output, usage),
    ensures
        ({
            let s = events_run(nothing(), events);
            &&& reasoned(assistant_view(s.text, received_calls(s.calls)), s.thinking)
                == output_message(output)
            &&& s.usage == usage.usage_view()
        }),
{
    let s = events_run(nothing(), events);
    lemma_run(events);
    text_is_what_was_streamed(nothing(), events);
    assert(s.text =~= output_text(output));
    lemma_calls(s.calls, events, output);
}

/// Each event of a stream does one thing. A piece of text or of a refusal is
/// handed out and added to the text; reasoning is kept and never handed out; an
/// item that is added opens its call under its id and name; a piece of
/// arguments is added to the call it is for; an event that closes fills in what
/// is missing; the last event counts. Whatever an event is not about stays as
/// it was.
pub proof fn each_event_does_one_thing(s: StreamView, event: StreamEvent, other: int)
    requires
        ascending(s.calls),
    ensures
        ({
            let t = event_step(s, event);
            let none = PartialView {
                call_id: Seq::empty(),
                name: Seq::empty(),
                arguments: Seq::empty(),
            };
            &&& match event {
                StreamEvent::OutputTextDelta { delta } => event_delta(event) == Some(delta@)
                    && t.text == s.text + delta@,
                StreamEvent::RefusalDelta { delta } => event_delta(event) == Some(delta@) && t.text
                    == s.text + delta@,
                _ => event_delta(event) is None && t.text == s.text,
            }
            &&& match event {
                StreamEvent::ReasoningSummaryDelta { delta } => t.thinking == s.thinking + delta@,
                StreamEvent::ReasoningTextDelta { delta } => t.thinking == s.thinking + delta@,
                _ => t.thinking == s.thinking,
            }
            &&& match event {
                StreamEvent::Completed { usage } => t.usage.input_tokens == usage.input_tokens
                    && t.usage.output_tokens == usage.output_tokens
                    && t.usage.cache_read_input_tokens == usage.cached_tokens
                    && t.usage.reasoning_tokens == usage.reasoning_tokens,
                StreamEvent::Incomplete { usage } => t.usage.input_tokens == usage.input_tokens
                    && t.usage.output_tokens == usage.output_tokens
                    && t.usage.cache_read_input_tokens == usage.cached_tokens
                    && t.usage.reasoning_tokens == usage.reasoning_tokens,
                _ => t.usage == s.usage,
            }
            &&& match event {
                StreamEvent::OutputItemAdded {
                    output_index,
                    item: StreamItem::FunctionCall { call_id, name, arguments },
                } => {
                    let before = slot_get(s.calls, output_index as int);
                    &&& slot_get(t.calls, output_index as int) matches Some(call) && call.call_id
                        == call_id@ && call.name == name@ && call.arguments == (match before {
                        Some(known) => known.arguments + arguments@,
                        None => arguments@,
                    })
                    &&& other != output_index ==> slot_get(t.calls, other) == slot_get(
                        s.calls,
                        other,
                    )
                },
                StreamEvent::OutputItemDone {
                    output_index,
                    item: StreamItem::FunctionCall { call_id, name, arguments },
                } => {
                    let before = match slot_get(s.calls, output_index as int) {
                        Some(known) => known,
                        None => none,
                    };
                    &&& slot_get(t.calls, output_index as int) matches Some(call) && call.call_id
                        == (if before.call_id.len() > 0 {
                        before.call_id
                    } else {
                        call_id@
                    }) && call.name == (if before.name.len() > 0 {
                        before.name
                    } else {
                        name@
                    }) && call.arguments == if before.arguments.len() > 0 {
                        before.arguments
                    } else {
                        arguments@
                    }
                    &&& other != output_index ==> slot_get(t.calls, other) == slot_get(
                        s.calls,
                        other,
                    )
                },
                StreamEvent::FunctionCallArgumentsDelta { output_index, delta } => {
                    let before = match slot_get(s.calls, output_index as int) {
                        Some(known) => known,
                        None => none,
                    };
                    &&& slot_get(t.calls, output_index as int) matches Some(call) && call.call_id
                        == before.call_id && call.name == before.name && call.arguments
                        == before.arguments + delta@
                    &&& other != output_index ==> slot_get(t.calls, other) == slot_get(
                        s.calls,
                        other,
                    )
                },
                StreamEvent::FunctionCallArgumentsDone { output_index, arguments } => {
                    let before = match slot_get(s.calls, output_index as int) {
                        Some(known) => known,
                        None => none,
                    };
                    &&& slot_get(t.calls, output_index as int) matches Some(call) && call.call_id
                        == before.call_id && call.name == before.name && call.arguments
                        == if before.arguments.len() > 0 {
                        before.arguments
                    } else {
                        arguments@
                    }
                    &&& other != output_index ==> slot_get(t.calls, other) == slot_get(
                        s.calls,
                        other,
                    )
                },
                _ => t.calls == s.calls,
            }
        }),
{
    let index: int = match event {
        StreamEvent::OutputItemAdded { output_index, .. } => output_index as int,
        StreamEvent::OutputItemDone { output_index, .. } => output_index as int,
        StreamEvent::FunctionCallArgumentsDelta { output_index, .. } => output_index as int,
        StreamEvent::FunctionCallArgumentsDone { output_index, .. } => output_index as int,
        _ => 0,
    };
    let call = call_at(s.calls, index);
    let put = match event {
        StreamEvent::OutputItemAdded {
            item: StreamItem::FunctionCall { call_id, name, arguments },
            ..
        } => PartialView {
            call_id: call_id@,
            name: name@,
            arguments: call.arguments + arguments@,
        },
        StreamEvent::OutputItemDone {
            item: StreamItem::FunctionCall { call_id, name, arguments },
            ..
        } => PartialView {
            call_id: or_fallback(call.call_id, call_id@),
            name: or_fallback(call.name, name@),
            arguments: or_fallback(call.arguments, arguments@),
        },
        StreamEvent::FunctionCallArgumentsDelta { delta, .. } => PartialView {
            arguments: call.arguments + delta@,
            ..call
        },
        StreamEvent::FunctionCallArgumentsDone { arguments, .. } => PartialView {
            arguments: or_fallback(call.arguments, arguments@),
            ..call
        },
        _ => call,
    };
    put_then_get(s.calls, index, put, index);
    put_then_get(s.calls, index, put, other);
    if let StreamEvent::OutputItemAdded {
        item: StreamItem::FunctionCall { arguments, .. },
        ..
    } = event {
        assert(Seq::<char>::empty() + arguments@ =~= arguments@);
    }
}

/// The calls of a stream are those that have a name, in order, under the ids
/// that their answers must quote, with the arguments that their text stands
/// for.
pub proof fn named_calls_are_asked_for(
    calls: Seq<(int, PartialView)>,
    index: int,
    call: PartialView,
)
    ensures
        call.name.len() == 0 ==> received_calls(calls.push((index, call))) == received_calls(calls),
        call.name.len() > 0 ==> {
            let all = received_calls(calls.push((index, call)));
            &&& all.len() == received_calls(calls).len() + 1
            &&& all.drop_last() == received_calls(calls)
            &&& all.last().id == call.call_id
            &&& all.last().name == call.name
            &&& json_parse(call.arguments) matches Ok(value) ==> all.last().arguments == value
            &&& json_parse(call.arguments) is Err ==> all.last().arguments == JsonView::Object(
                Seq::empty(),
            )
        },
        received_calls(Seq::empty()).len() == 0,
{
    assert(calls.push((index, call)).drop_last() =~= calls);
    assert(received_calls(calls).push(received_call(call)).drop_last() =~= received_calls(calls));
}

/// A failure that the service words is passed on in its words: its code, if it
/// has one, before its message.
pub proof fn failures_keep_their_words(error: WireError)
    ensures
        error.code matches Some(code) ==> error_text(error) == code@ + ": "@ + error.message@,
        error.code is None ==> error_text(error) == error.message@,
{
}

} // verus!
