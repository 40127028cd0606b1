//! A scripted model: deterministic, and never far away.

use vstd::prelude::*;

use crate::json::Json;
use crate::message::{assistant_view, calls_view, ChatRequest, ChatResponse, Message, MessageView,
    PartView, Role, ToolCall, ToolCallView, Usage};
use crate::text::{cat2, decimal, decimal_of, digit};

verus! {

/// One tool call for the model to ask for.
#[derive(Debug)]
pub struct SimToolCall {
    /// The tool need not exist.
    pub name: String,
    pub arguments: Json,
}

impl SimToolCall {
    /// Script one tool call.
    pub fn new(name: &str, arguments: Json) -> (r: Self)
        ensures
            r.name@ == name@,
            r.arguments == arguments,
    {
        SimToolCall { name: name.to_owned(), arguments }
    }
}

/// One scripted answer: the calls it asks for, or else its text.
#[derive(Debug)]
pub struct SimTurn {
    pub text: String,
    pub tool_calls: Vec<SimToolCall>,
}

impl SimTurn {
    /// An answer of text, which ends the turn.
    pub fn text(text: &str) -> (r: Self)
        ensures
            r.text@ == text@,
            r.tool_calls@.len() == 0,
    {
        SimTurn { text: text.to_owned(), tool_calls: Vec::new() }
    }

    /// An answer that asks for one tool.
    pub fn tool_call(name: &str, arguments: Json) -> (r: Self)
        ensures
            r.text@ == Seq::<char>::empty(),
            r.tool_calls@.len() == 1,
            r.tool_calls@[0].name@ == name@,
            r.tool_calls@[0].arguments == arguments,
    {
        SimTurn { text: String::new(), tool_calls: vec![SimToolCall::new(name, arguments)] }
    }

    /// An answer that asks for several tools at once.
    pub fn tool_calls(calls: Vec<SimToolCall>) -> (r: Self)
        ensures
            r.text@ == Seq::<char>::empty(),
            r.tool_calls == calls,
    {
        SimTurn { text: String::new(), tool_calls: calls }
    }
}

/// The calls that a scripted answer asks for, numbered from `first` on.
pub open spec fn numbered_calls(calls: Seq<SimToolCall>, first: int) -> Seq<ToolCallView> {
    Seq::new(
        calls.len(),
        |i: int|
            ToolCallView {
                id: call_id(first + i),
                name: calls[i].name@,
                arguments: calls[i].arguments@,
            },
    )
}

/// The id of a call by its number.
pub open spec fn call_id(n: int) -> Seq<char> {
    "call_"@ + decimal(n as nat)
}

/// What the model says once the script is over.
pub open spec fn exhausted() -> Seq<char> {
    "(llmsim: script exhausted)"@
}

/// The message of the next answer.
pub open spec fn next_message(turns: Seq<SimTurn>, played: int, calls: int) -> MessageView {
    if played < turns.len() {
        assistant_view(turns[played].text@, numbered_calls(turns[played].tool_calls@, calls))
    } else {
        assistant_view(exhausted(), Seq::empty())
    }
}

/// How many calls the next answer asks for.
pub open spec fn next_calls(turns: Seq<SimTurn>, played: int) -> nat {
    if played < turns.len() {
        turns[played].tool_calls@.len()
    } else {
        0
    }
}

/// Plays its turns in order and keeps every request it gets. Once the script
/// is over it says so rather than waiting.
#[derive(Debug)]
pub struct SimDriver {
    pub turns: Vec<SimTurn>,
    /// How many turns were played.
    pub played: usize,
    pub requests: Vec<ChatRequest>,
    /// How many calls were asked for.
    pub calls: u64,
}

impl SimDriver {
    /// No more turns were played than there are.
    pub open spec fn wf(&self) -> bool {
        self.played <= self.turns@.len()
    }

    /// A driver that plays these turns.
    pub fn new(turns: Vec<SimTurn>) -> (r: Self)
        ensures
            r.wf(),
            r.turns == turns,
            r.played == 0,
            r.requests@.len() == 0,
            r.calls == 0,
    {
        SimDriver { turns, played: 0, requests: Vec::new(), calls: 0 }
    }

    /// Every request so far, in order.
    pub fn recorded_requests(&self) -> (r: &Vec<ChatRequest>)
        ensures
            *r == self.requests,
    {
        &self.requests
    }

    /// The next answer.
    pub fn complete(&mut self, request: ChatRequest) -> (r: ChatResponse)
        requires
            old(self).wf(),
            old(self).calls + next_calls(old(self).turns@, old(self).played as int) <= u64::MAX,
        ensures
            final(self).wf(),
            final(self).turns == old(self).turns,
            final(self).requests@ == old(self).requests@.push(request),
            final(self).played == if old(self).played < old(self).turns@.len() {
                old(self).played + 1
            } else {
                old(self).played as int
            },
            final(self).calls == old(self).calls + next_calls(
                old(self).turns@,
                old(self).played as int,
            ),
            r.message@ == next_message(
                old(self).turns@,
                old(self).played as int,
                old(self).calls as int,
            ),
            r.usage == (Usage {
                input_tokens: 0,
                output_tokens: 0,
                cache_read_input_tokens: 0,
                cache_creation_input_tokens: 0,
                reasoning_tokens: 0,
            }),
    {
        self.requests.push(request);
        if self.played >= self.turns.len() {
            return ChatResponse {
                message: Message::assistant("(llmsim: script exhausted)".to_owned()),
                usage: Usage::new(0, 0),
            };
        }
        let turn = &self.turns[self.played];
        let mut calls: Vec<ToolCall> = Vec::new();
        let mut i: usize = 0;
        while i < turn.tool_calls.len()
            invariant
                calls@.len() == i <= turn.tool_calls@.len(),
                self.calls + turn.tool_calls@.len() <= u64::MAX,
                forall|k: int|
                    0 <= k < i ==> (#[trigger] calls@[k])@ == numbered_calls(
                        turn.tool_calls@,
                        self.calls as int,
                    )[k],
            decreases turn.tool_calls.len() - i,
        {
            let number = decimal_of(self.calls + i as u64);
            calls.push(
                ToolCall {
                    id: cat2("call_", number.as_str()),
                    name: turn.tool_calls[i].name.clone(),
                    arguments: turn.tool_calls[i].arguments.clone(),
                },
            );
            i += 1;
        }
        assert(calls_view(calls@) =~= numbered_calls(turn.tool_calls@, self.calls as int));
        let message = Message::assistant_with_calls(turn.text.clone(), calls);
        self.calls = self.calls + i as u64;
        self.played = self.played + 1;
        ChatResponse { message, usage: Usage::new(0, 0) }
    }
}

proof fn lemma_decimal_injective(a: nat, b: nat)
    requires
        decimal(a) == decimal(b),
    ensures
        a == b,
    decreases a,
{
    assert(decimal(a).last() == digit(a % 10));
    assert(decimal(b).last() == digit(b % 10));
    assert(a % 10 == b % 10);
    if a < 10 {
        assert(decimal(a).len() == 1);
        if b >= 10 {
            assert(decimal(b).len() == decimal(b / 10).len() + 1);
            assert(decimal(b / 10).len() > 0);
        }
    } else {
        assert(decimal(a / 10).len() > 0);
        assert(b >= 10);
        assert(decimal(a).drop_last() =~= decimal(a / 10));
        assert(decimal(b).drop_last() =~= decimal(b / 10));
        lemma_decimal_injective(a / 10, b / 10);
    }
}

/// No two calls of a driver have the same id.
pub proof fn call_ids_are_unique(a: int, b: int)
    requires
        0 <= a,
        0 <= b,
        a != b,
    ensures
        call_id(a) != call_id(b),
{
    if call_id(a) == call_id(b) {
        let n = "call_"@.len() as int;
        assert(call_id(a).skip(n) =~= decimal(a as nat));
        assert(call_id(b).skip(n) =~= decimal(b as nat));
        lemma_decimal_injective(a as nat, b as nat);
    }
}

/// A scripted answer says its text and asks for its calls, in order, by name
/// and with their arguments, each under the next number; once the script is
/// over the model only says so.
pub proof fn the_script_is_played_as_written(turns: Seq<SimTurn>, played: int, calls: int, k: int)
    requires
        0 <= played,
    ensures
        ({
            let message = next_message(turns, played, calls);
            &&& message.role == Role::Assistant
            &&& played < turns.len() ==> {
                &&& turns[played].text@.len() > 0 ==> message.content == seq![
                    PartView::Text(turns[played].text@),
                ]
                &&& turns[played].text@.len() == 0 ==> message.content.len() == 0
                &&& message.tool_calls.len() == turns[played].tool_calls@.len()
                &&& next_calls(turns, played) == message.tool_calls.len()
                &&& 0 <= k < message.tool_calls.len() ==> {
                    &&& message.tool_calls[k].name == turns[played].tool_calls@[k].name@
                    &&& message.tool_calls[k].arguments == turns[played].tool_calls@[k].arguments@
                    &&& message.tool_calls[k].id == "call_"@ + decimal((calls + k) as nat)
                }
            }
            &&& played >= turns.len() ==> {
                &&& message.content == seq![PartView::Text("(llmsim: script exhausted)"@)]
                &&& message.tool_calls.len() == 0
                &&& next_calls(turns, played) == 0
            }
        }),
{
    reveal_strlit("(llmsim: script exhausted)");
}

} // verus!
