//! How a turn runs: the order in which a host checks, reasons and acts.
//!
//! A host does the work that each command names and hands back what came of
//! it; the answer is what to record in the turn's state, in order, and the
//! next command.

use vstd::prelude::*;

use crate::message::{error_output, Error, OutputView, SealReason, ToolCall, ToolCallView,
    ToolOutput, Usage};

verus! {

/// What a turn's state asks for.
#[derive(Debug)]
pub enum TurnAction {
    Reason,
    ExecuteTool { call: ToolCall },
    Complete(TurnOutcome),
}

/// How a turn's state says that it ended.
#[derive(Debug)]
pub enum TurnOutcome {
    Success { response: String },
    MaxIterations,
    Failed { error: String },
    Cancelled,
    Sealed(SealReason),
}

/// How far a turn has come, as its state counts it.
#[derive(Debug, Clone, Copy, PartialEq, Eq, Structural)]
pub struct TurnProgress {
    pub turn_id: u128,
    /// How often the model was called.
    pub iterations: usize,
    /// How many tool calls were carried out.
    pub tool_calls: usize,
    pub usage: Usage,
}

/// What a turn came to.
#[derive(Debug)]
pub struct TurnResult {
    pub turn_id: u128,
    pub response: String,
    pub iterations: usize,
    pub tool_calls: usize,
    pub usage: Usage,
}

/// The content of a [`TurnResult`].
pub ghost struct ResultView {
    pub turn_id: u128,
    pub response: Seq<char>,
    pub iterations: usize,
    pub tool_calls: usize,
    pub usage: Usage,
}

impl View for TurnResult {
    type V = ResultView;

    open spec fn view(&self) -> ResultView {
        ResultView {
            turn_id: self.turn_id,
            response: self.response@,
            iterations: self.iterations,
            tool_calls: self.tool_calls,
            usage: self.usage,
        }
    }
}

/// The result of a turn that ended with a response: the response, and what the
/// state had counted by then.
pub open spec fn result_of(response: Seq<char>, progress: TurnProgress) -> ResultView {
    ResultView {
        turn_id: progress.turn_id,
        response,
        iterations: progress.iterations,
        tool_calls: progress.tool_calls,
        usage: progress.usage,
    }
}

/// What the middleware made of a tool call.
#[derive(Debug)]
pub enum ToolChainOutcome {
    /// The call is not to run.
    Deny { reason: String },
    /// This call is to run.
    Proceed { call: ToolCall, rewritten: bool },
}

/// A change of a turn's state, whose effects are recorded.
#[derive(Debug)]
pub enum Transition {
    Cancelled,
    Sealed(SealReason),
    ReasonStarted,
    ReasonCompleted,
    Failed(String),
    ToolRewritten(ToolCall),
    ToolStarted { call_id: String },
    ToolDenied { call_id: String, name: String, reason: String },
    ToolCompleted { call_id: String, output: ToolOutput },
}

/// The content of a [`Transition`].
pub ghost enum TransitionView {
    Cancelled,
    Sealed(SealReason),
    ReasonStarted,
    ReasonCompleted,
    Failed(Seq<char>),
    ToolRewritten(ToolCallView),
    ToolStarted { call_id: Seq<char> },
    ToolDenied { call_id: Seq<char>, name: Seq<char>, reason: Seq<char> },
    ToolCompleted { call_id: Seq<char>, output: OutputView },
}

impl View for Transition {
    type V = TransitionView;

    open spec fn view(&self) -> TransitionView {
        match *self {
            Transition::Cancelled => TransitionView::Cancelled,
            Transition::Sealed(reason) => TransitionView::Sealed(reason),
            Transition::ReasonStarted => TransitionView::ReasonStarted,
            Transition::ReasonCompleted => TransitionView::ReasonCompleted,
            Transition::Failed(text) => TransitionView::Failed(text@),
            Transition::ToolRewritten(call) => TransitionView::ToolRewritten(call@),
            Transition::ToolStarted { call_id } => TransitionView::ToolStarted {
                call_id: call_id@,
            },
            Transition::ToolDenied { call_id, name, reason } => TransitionView::ToolDenied {
                call_id: call_id@,
                name: name@,
                reason: reason@,
            },
            Transition::ToolCompleted { call_id, output } => TransitionView::ToolCompleted {
                call_id: call_id@,
                output: output@,
            },
        }
    }
}

/// What the host does next.
#[derive(Debug)]
pub enum TurnCommand {
    /// Find out whether the turn was cancelled or its budget is spent.
    Check,
    /// Ask the state what is next.
    NextAction,
    /// Call the model.
    Reason,
    /// Let the middleware decide on a call.
    Intercept(ToolCall),
    /// Run a call, unless the turn is cancelled meanwhile: then drop it.
    Act(ToolCall),
    /// End the turn, with what it came to or the failure.
    Finish(Result<TurnResult, Error>),
}

/// The content of a [`TurnCommand`].
pub ghost enum CommandView {
    Check,
    NextAction,
    Reason,
    Intercept(ToolCallView),
    Act(ToolCallView),
    Succeed(ResultView),
    Fail(FailureView),
}

/// How a turn fails.
pub ghost enum FailureView {
    Cancelled,
    Sealed(SealReason),
    MaxIterations(int),
    Other(Seq<char>),
    /// The failure of the model call, as it came.
    Passed(Error),
}

/// Whether a failure is the one that is meant.
pub open spec fn is_failure(e: Error, f: FailureView) -> bool {
    match f {
        FailureView::Cancelled => e is Cancelled,
        FailureView::Sealed(reason) => e == Error::Sealed(reason),
        FailureView::MaxIterations(n) => e matches Error::MaxIterations(m) && m == n,
        FailureView::Other(text) => e.is_other(text),
        FailureView::Passed(error) => e == error,
    }
}

/// Whether a command is the one that is meant.
pub open spec fn is_command(c: TurnCommand, v: CommandView) -> bool {
    match c {
        TurnCommand::Check => v is Check,
        TurnCommand::NextAction => v is NextAction,
        TurnCommand::Reason => v is Reason,
        TurnCommand::Intercept(call) => v == CommandView::Intercept(call@),
        TurnCommand::Act(call) => v == CommandView::Act(call@),
        TurnCommand::Finish(Ok(result)) => v == CommandView::Succeed(result@),
        TurnCommand::Finish(Err(e)) => v matches CommandView::Fail(f) && is_failure(e, f),
    }
}

/// What to record, in order, and what to do then.
#[derive(Debug)]
pub struct TurnStep {
    pub transitions: Vec<Transition>,
    pub next: TurnCommand,
}

/// The contents of a list of transitions.
pub open spec fn transitions_view(list: Seq<Transition>) -> Seq<TransitionView> {
    list.map_values(|t: Transition| t@)
}

/// Whether a step is the one that is meant.
pub open spec fn is_step(step: TurnStep, v: (Seq<TransitionView>, CommandView)) -> bool {
    transitions_view(step.transitions@) == v.0 && is_command(step.next, v.1)
}

/// What follows the check before each action: a cancelled turn stops, and so
/// does one whose budget is spent.
pub open spec fn checked(cancelled: bool, sealed: bool) -> (Seq<TransitionView>, CommandView) {
    if cancelled {
        (seq![TransitionView::Cancelled], CommandView::Fail(FailureView::Cancelled))
    } else if sealed {
        (
            seq![TransitionView::Sealed(SealReason::BudgetExhausted)],
            CommandView::Fail(FailureView::Sealed(SealReason::BudgetExhausted)),
        )
    } else {
        (Seq::empty(), CommandView::NextAction)
    }
}

/// What follows an action that the state asks for, and what it has counted.
pub open spec fn acted_on(action: TurnAction, progress: TurnProgress, max_iterations: usize) -> (
    Seq<TransitionView>,
    CommandView,
) {
    match action {
        TurnAction::Reason => (seq![TransitionView::ReasonStarted], CommandView::Reason),
        TurnAction::ExecuteTool { call } => (Seq::empty(), CommandView::Intercept(call@)),
        TurnAction::Complete(outcome) => (
            Seq::empty(),
            match outcome {
                TurnOutcome::Success { response } => CommandView::Succeed(
                    result_of(response@, progress),
                ),
                TurnOutcome::MaxIterations => CommandView::Fail(
                    FailureView::MaxIterations(max_iterations as int),
                ),
                TurnOutcome::Failed { error } => CommandView::Fail(FailureView::Other(error@)),
                TurnOutcome::Cancelled => CommandView::Fail(FailureView::Cancelled),
                TurnOutcome::Sealed(reason) => CommandView::Fail(FailureView::Sealed(reason)),
            },
        ),
    }
}

/// What follows a model call. A call that was cancelled while it streamed
/// ends the turn as cancelled; one that failed ends it with that failure,
/// and is recorded under its description.
pub open spec fn reasoned(outcome: Result<(), Error>, description: Seq<char>) -> (
    Seq<TransitionView>,
    CommandView,
) {
    match outcome {
        Ok(_) => (seq![TransitionView::ReasonCompleted], CommandView::Check),
        Err(Error::Cancelled) => (
            seq![TransitionView::Cancelled],
            CommandView::Fail(FailureView::Cancelled),
        ),
        Err(error) => (
            seq![TransitionView::Failed(description)],
            CommandView::Fail(FailureView::Passed(error)),
        ),
    }
}

/// What follows the middleware's decision on a call. A denied call is answered
/// with the reason and never runs; a rewritten one is announced as it will
/// run.
pub open spec fn intercepted(call: ToolCallView, outcome: ToolChainOutcome) -> (
    Seq<TransitionView>,
    CommandView,
) {
    match outcome {
        ToolChainOutcome::Deny { reason } => (
            seq![
                TransitionView::ToolStarted { call_id: call.id },
                TransitionView::ToolDenied { call_id: call.id, name: call.name, reason: reason@ },
                TransitionView::ToolCompleted { call_id: call.id, output: error_output(reason@) },
            ],
            CommandView::Check,
        ),
        ToolChainOutcome::Proceed { call: executed, rewritten } => (
            (if rewritten {
                seq![TransitionView::ToolRewritten(executed@)]
            } else {
                Seq::empty()
            }) + seq![TransitionView::ToolStarted { call_id: executed.id@ }],
            CommandView::Act(executed@),
        ),
    }
}

/// What follows a call that ran.
pub open spec fn ran(call: ToolCallView, output: OutputView) -> (
    Seq<TransitionView>,
    CommandView,
) {
    (
        seq![TransitionView::ToolCompleted { call_id: call.id, output }],
        CommandView::Check,
    )
}

/// What follows a call that was dropped while it ran, because the turn was
/// cancelled: the turn ends there, and the call is never completed.
pub open spec fn dropped() -> (Seq<TransitionView>, CommandView) {
    (seq![TransitionView::Cancelled], CommandView::Fail(FailureView::Cancelled))
}

// ------------------------------------------------------------ whole turns

/// What a host hands back for a command.
pub ghost enum TurnEvent {
    Checked { cancelled: bool, sealed: bool },
    Action { action: TurnAction, progress: TurnProgress },
    Reasoned { outcome: Result<(), Error>, description: Seq<char> },
    Intercepted(ToolChainOutcome),
    Acted(OutputView),
    /// The turn was cancelled while the call ran, and the call was dropped.
    Dropped,
}

/// Whether an event is an answer to a command.
pub open spec fn answers(command: CommandView, event: TurnEvent) -> bool {
    match command {
        CommandView::Check => event is Checked,
        CommandView::NextAction => event is Action,
        CommandView::Reason => event is Reasoned,
        CommandView::Intercept(_) => event is Intercepted,
        CommandView::Act(_) => event is Acted || event is Dropped,
        CommandView::Succeed(_) => false,
        CommandView::Fail(_) => false,
    }
}

/// What follows an answer to a command.
pub open spec fn after(command: CommandView, event: TurnEvent, max_iterations: usize) -> (
    Seq<TransitionView>,
    CommandView,
) {
    match (command, event) {
        (CommandView::Check, TurnEvent::Checked { cancelled, sealed }) => checked(
            cancelled,
            sealed,
        ),
        (CommandView::NextAction, TurnEvent::Action { action, progress }) => acted_on(
            action,
            progress,
            max_iterations,
        ),
        (CommandView::Reason, TurnEvent::Reasoned { outcome, description }) => reasoned(
            outcome,
            description,
        ),
        (CommandView::Intercept(call), TurnEvent::Intercepted(outcome)) => intercepted(
            call,
            outcome,
        ),
        (CommandView::Act(call), TurnEvent::Acted(output)) => ran(call, output),
        (CommandView::Act(_), TurnEvent::Dropped) => dropped(),
        _ => (Seq::empty(), command),
    }
}

/// What a turn has recorded after some events, and the command it is at. A
/// turn begins with a check.
pub open spec fn turn(events: Seq<TurnEvent>, max_iterations: usize) -> (
    Seq<TransitionView>,
    CommandView,
)
    decreases events.len(),
{
    if events.len() == 0 {
        (Seq::empty(), CommandView::Check)
    } else {
        let before = turn(events.drop_last(), max_iterations);
        let step = after(before.1, events.last(), max_iterations);
        (before.0 + step.0, step.1)
    }
}

/// Whether a transition completes a call.
pub open spec fn completes(t: TransitionView, id: Seq<char>) -> bool {
    t matches TransitionView::ToolCompleted { call_id, .. } && call_id == id
}

/// Whether a call that is started at `i` is answered: it is completed next,
/// or denied and then completed, or dropped by the cancellation that ended the
/// turn, or it is the one that runs now.
pub open spec fn answered(recorded: Seq<TransitionView>, command: CommandView, i: int) -> bool {
    recorded[i] matches TransitionView::ToolStarted { call_id } ==> {
        ||| i + 1 < recorded.len() && completes(recorded[i + 1], call_id)
        ||| i + 2 < recorded.len() && recorded[i + 1] is ToolDenied && completes(
            recorded[i + 2],
            call_id,
        )
        ||| i + 2 == recorded.len() && recorded[i + 1] is Cancelled && command
            == CommandView::Fail(FailureView::Cancelled)
        ||| i + 1 == recorded.len() && (command matches CommandView::Act(call) && call.id
            == call_id)
    }
}

/// In every turn, whatever happens, each call that was started is completed
/// under the same id before anything else is recorded, but for the one that
/// runs now and the one that a cancellation dropped: there the cancellation is
/// the last that is recorded.
pub proof fn started_calls_are_answered(events: Seq<TurnEvent>, max_iterations: usize)
    requires
        forall|n: int|
            0 <= n < events.len() ==> answers(
                turn(#[trigger] events.take(n), max_iterations).1,
                events[n],
            ),
    ensures
        forall|i: int|
            0 <= i < turn(events, max_iterations).0.len() ==> #[trigger] answered(
                turn(events, max_iterations).0,
                turn(events, max_iterations).1,
                i,
            ),
        turn(events, max_iterations).1 is Act ==> turn(events, max_iterations).0.len() > 0 && (turn(
            events,
            max_iterations,
        ).0.last() == TransitionView::ToolStarted {
            call_id: turn(events, max_iterations).1->Act_0.id,
        }),
    decreases events.len(),
{
    if events.len() > 0 {
        let earlier = events.drop_last();
        let event = events.last();
        assert forall|n: int| 0 <= n < earlier.len() implies answers(
            turn(#[trigger] earlier.take(n), max_iterations).1,
            earlier[n],
        ) by {
            assert(earlier.take(n) =~= events.take(n));
        }
        started_calls_are_answered(earlier, max_iterations);
        assert(events.take(earlier.len() as int) =~= earlier);
        let before = turn(earlier, max_iterations);
        let step = after(before.1, event, max_iterations);
        let recorded = before.0 + step.0;
        assert(answers(before.1, event));
        assert forall|i: int| 0 <= i < recorded.len() implies #[trigger] answered(
            recorded,
            step.1,
            i,
        ) by {
            if i < before.0.len() {
                assert(answered(before.0, before.1, i));
                assert(recorded[i] == before.0[i]);
                if i + 1 < before.0.len() {
                    assert(recorded[i + 1] == before.0[i + 1]);
                }
                if i + 2 < before.0.len() {
                    assert(recorded[i + 2] == before.0[i + 2]);
                }
                if i + 1 == before.0.len() && before.1 is Act {
                    assert(recorded[i + 1] == step.0[0]);
                }
            } else {
                let k = i - before.0.len();
                assert(recorded[i] == step.0[k]);
                if k + 1 < step.0.len() {
                    assert(recorded[i + 1] == step.0[k + 1]);
                }
                if k + 2 < step.0.len() {
                    assert(recorded[i + 2] == step.0[k + 2]);
                }
            }
        }
    }
}

/// A call that is dropped is never completed: the cancellation follows its
/// start and is the last that the turn records, and the turn fails as
/// cancelled.
pub proof fn dropped_call_is_never_completed(events: Seq<TurnEvent>, max_iterations: usize)
    requires
        events.len() > 0,
        events.last() is Dropped,
        forall|n: int|
            0 <= n < events.len() ==> answers(
                turn(#[trigger] events.take(n), max_iterations).1,
                events[n],
            ),
    ensures
        ({
            let recorded = turn(events, max_iterations).0;
            &&& recorded.len() >= 2
            &&& recorded[recorded.len() - 2] is ToolStarted
            &&& recorded.last() is Cancelled
        }),
        turn(events, max_iterations).1 == CommandView::Fail(FailureView::Cancelled),
{
    let earlier = events.drop_last();
    assert forall|n: int| 0 <= n < earlier.len() implies answers(
        turn(#[trigger] earlier.take(n), max_iterations).1,
        earlier[n],
    ) by {
        assert(earlier.take(n) =~= events.take(n));
    }
    started_calls_are_answered(earlier, max_iterations);
    assert(events.take(earlier.len() as int) =~= earlier);
    assert(answers(turn(earlier, max_iterations).1, events.last()));
}

/// A denied call never runs: it is answered with the reason, and the host is
/// sent back to its checks.
pub proof fn denied_call_never_runs(call: ToolCallView, reason: String)
    ensures
        intercepted(call, ToolChainOutcome::Deny { reason }).1 is Check,
        intercepted(call, ToolChainOutcome::Deny { reason }).0.last() == (
        TransitionView::ToolCompleted { call_id: call.id, output: error_output(reason@) }),
{
}

/// The state is asked for an action only straight after a check that found
/// the turn neither cancelled nor out of budget.
pub proof fn every_action_is_checked(
    command: CommandView,
    event: TurnEvent,
    max_iterations: usize,
)
    requires
        answers(command, event),
    ensures
        after(command, event, max_iterations).1 is NextAction <==> event == (TurnEvent::Checked {
            cancelled: false,
            sealed: false,
        }),
{
}

/// The output that completes a call which ran is the one that the host handed
/// back for it, in full: its content, whether it is an error, and its metadata.
/// It is recorded under the id of that call, last of all, and the turn goes
/// back to its checks.
pub proof fn ran_call_is_completed_with_its_output(
    events: Seq<TurnEvent>,
    max_iterations: usize,
    call: ToolCallView,
    output: OutputView,
)
    requires
        events.len() > 0,
        events.last() == TurnEvent::Acted(output),
        turn(events.drop_last(), max_iterations).1 == CommandView::Act(call),
    ensures
        turn(events, max_iterations).0 == turn(events.drop_last(), max_iterations).0.push(
            TransitionView::ToolCompleted { call_id: call.id, output },
        ),
        turn(events, max_iterations).1 is Check,
{
    assert(turn(events, max_iterations).0 =~= turn(events.drop_last(), max_iterations).0.push(
        TransitionView::ToolCompleted { call_id: call.id, output },
    ));
}

/// Whatever has been recorded stays recorded, in order.
pub proof fn records_are_kept(events: Seq<TurnEvent>, max_iterations: usize, n: int)
    requires
        0 <= n <= events.len(),
    ensures
        turn(events.take(n), max_iterations).0.is_prefix_of(turn(events, max_iterations).0),
    decreases events.len(),
{
    if n < events.len() {
        let earlier = events.drop_last();
        records_are_kept(earlier, max_iterations, n);
        assert(earlier.take(n) =~= events.take(n));
        let a = turn(events.take(n), max_iterations).0;
        let b = turn(earlier, max_iterations).0;
        let c = turn(events, max_iterations).0;
        assert(b =~= c.take(b.len() as int));
        assert(a =~= c.take(a.len() as int));
    } else {
        assert(events.take(n) =~= events);
    }
}

/// A turn that is found cancelled records just that and fails as cancelled,
/// whether its budget is spent or not. One whose budget is spent is sealed for
/// that reason and fails with it. Any other goes on, and nothing is recorded.
pub proof fn checks_decide_whether_a_turn_goes_on(
    events: Seq<TurnEvent>,
    max_iterations: usize,
    cancelled: bool,
    sealed: bool,
)
    requires
        events.len() > 0,
        events.last() == (TurnEvent::Checked { cancelled, sealed }),
        turn(events.drop_last(), max_iterations).1 is Check,
    ensures
        ({
            let before = turn(events.drop_last(), max_iterations).0;
            let (recorded, next) = turn(events, max_iterations);
            &&& cancelled ==> recorded == before.push(TransitionView::Cancelled) && next
                == CommandView::Fail(FailureView::Cancelled)
            &&& !cancelled && sealed ==> recorded == before.push(
                TransitionView::Sealed(SealReason::BudgetExhausted),
            ) && next == CommandView::Fail(FailureView::Sealed(SealReason::BudgetExhausted))
            &&& !cancelled && !sealed ==> recorded == before && next is NextAction
        }),
{
    let before = turn(events.drop_last(), max_iterations).0;
    let recorded = turn(events, max_iterations).0;
    if cancelled {
        assert(recorded =~= before.push(TransitionView::Cancelled));
    } else if sealed {
        assert(recorded =~= before.push(TransitionView::Sealed(SealReason::BudgetExhausted)));
    } else {
        assert(recorded =~= before);
    }
}

/// A call of the model is announced before it is made. The call of a tool goes
/// to the middleware as the state asks for it, and nothing is recorded yet.
pub proof fn actions_are_carried_out_as_asked(
    events: Seq<TurnEvent>,
    max_iterations: usize,
    action: TurnAction,
    progress: TurnProgress,
)
    requires
        events.len() > 0,
        events.last() == (TurnEvent::Action { action, progress }),
        turn(events.drop_last(), max_iterations).1 is NextAction,
    ensures
        ({
            let before = turn(events.drop_last(), max_iterations).0;
            let (recorded, next) = turn(events, max_iterations);
            &&& action is Reason ==> recorded == before.push(TransitionView::ReasonStarted) && next
                is Reason
            &&& action matches TurnAction::ExecuteTool { call } ==> recorded == before && (next
                matches CommandView::Intercept(asked) && asked.id == call.id@ && asked.name
                == call.name@ && asked.arguments == call.arguments@)
            &&& action is Complete ==> recorded == before
        }),
{
    let before = turn(events.drop_last(), max_iterations).0;
    let recorded = turn(events, max_iterations).0;
    match action {
        TurnAction::Reason => {
            assert(recorded =~= before.push(TransitionView::ReasonStarted));
        },
        _ => {
            assert(recorded =~= before);
        },
    }
}

/// A turn that its state says is over ends as the state says: with the
/// response, and with the turn's id, its iterations, its tool calls and its
/// usage as they were counted; or with the failure, told apart by its kind.
pub proof fn a_finished_turn_tells_what_it_came_to(
    events: Seq<TurnEvent>,
    max_iterations: usize,
    outcome: TurnOutcome,
    progress: TurnProgress,
)
    requires
        events.len() > 0,
        events.last() == (TurnEvent::Action { action: TurnAction::Complete(outcome), progress }),
        turn(events.drop_last(), max_iterations).1 is NextAction,
    ensures
        ({
            let next = turn(events, max_iterations).1;
            match outcome {
                TurnOutcome::Success { response } => next matches CommandView::Succeed(result)
                    && result.response == response@ && result.turn_id == progress.turn_id
                    && result.iterations == progress.iterations && result.tool_calls
                    == progress.tool_calls && result.usage == progress.usage,
                TurnOutcome::MaxIterations => next matches CommandView::Fail(
                    FailureView::MaxIterations(n),
                ) && n == max_iterations,
                TurnOutcome::Failed { error } => next matches CommandView::Fail(
                    FailureView::Other(text),
                ) && text == error@,
                TurnOutcome::Cancelled => next matches CommandView::Fail(FailureView::Cancelled),
                TurnOutcome::Sealed(reason) => next matches CommandView::Fail(
                    FailureView::Sealed(why),
                ) && why == reason,
            }
        }),
{
}

/// A call of the model that answered is recorded as completed, and the turn
/// goes back to its checks. One that failed ends the turn with the failure as
/// it came, recorded under its description; one that was cancelled ends it as
/// cancelled.
pub proof fn model_calls_are_recorded(
    events: Seq<TurnEvent>,
    max_iterations: usize,
    outcome: Result<(), Error>,
    description: Seq<char>,
)
    requires
        events.len() > 0,
        events.last() == (TurnEvent::Reasoned { outcome, description }),
        turn(events.drop_last(), max_iterations).1 is Reason,
    ensures
        ({
            let before = turn(events.drop_last(), max_iterations).0;
            let (recorded, next) = turn(events, max_iterations);
            match outcome {
                Ok(_) => recorded == before.push(TransitionView::ReasonCompleted) && next is Check,
                Err(error) => if error is Cancelled {
                    recorded == before.push(TransitionView::Cancelled) && next == CommandView::Fail(
                        FailureView::Cancelled,
                    )
                } else {
                    recorded == before.push(TransitionView::Failed(description)) && next
                        == CommandView::Fail(FailureView::Passed(error))
                },
            }
        }),
{
    let before = turn(events.drop_last(), max_iterations).0;
    let recorded = turn(events, max_iterations).0;
    match outcome {
        Ok(_) => {
            assert(recorded =~= before.push(TransitionView::ReasonCompleted));
        },
        Err(error) => {
            if error is Cancelled {
                assert(recorded =~= before.push(TransitionView::Cancelled));
            } else {
                assert(recorded =~= before.push(TransitionView::Failed(description)));
            }
        },
    }
}

/// A call that is denied is recorded as started, as denied under its own name
/// for the reason given, and as completed with an error that says the reason.
/// It never runs: the turn goes back to its checks.
pub proof fn a_denied_call_is_answered_with_the_reason(
    events: Seq<TurnEvent>,
    max_iterations: usize,
    call: ToolCallView,
    reason: String,
)
    requires
        events.len() > 0,
        events.last() == TurnEvent::Intercepted(ToolChainOutcome::Deny { reason }),
        turn(events.drop_last(), max_iterations).1 == CommandView::Intercept(call),
    ensures
        ({
            let n = turn(events.drop_last(), max_iterations).0.len() as int;
            let (recorded, next) = turn(events, max_iterations);
            &&& recorded.len() == n + 3
            &&& recorded[n] == TransitionView::ToolStarted { call_id: call.id }
            &&& recorded[n + 1] == TransitionView::ToolDenied {
                call_id: call.id,
                name: call.name,
                reason: reason@,
            }
            &&& recorded[n + 2] matches TransitionView::ToolCompleted { call_id, output }
                && call_id == call.id && output.content == reason@ && output.is_error
                && output.metadata is Null
            &&& next is Check
        }),
{
}

/// A call that may run is announced under the id it runs under, and it runs as
/// the middleware left it: by that name, with those arguments. Where the
/// middleware rewrote it, the call is recorded as rewritten first.
pub proof fn an_accepted_call_runs_as_announced(
    events: Seq<TurnEvent>,
    max_iterations: usize,
    call: ToolCall,
    rewritten: bool,
)
    requires
        events.len() > 0,
        events.last() == TurnEvent::Intercepted(ToolChainOutcome::Proceed { call, rewritten }),
        turn(events.drop_last(), max_iterations).1 is Intercept,
    ensures
        ({
            let n = turn(events.drop_last(), max_iterations).0.len() as int;
            let (recorded, next) = turn(events, max_iterations);
            &&& recorded.len() == n + if rewritten {
                2int
            } else {
                1int
            }
            &&& recorded.last() == TransitionView::ToolStarted { call_id: call.id@ }
            &&& rewritten ==> (recorded[n] matches TransitionView::ToolRewritten(shown) && shown.id
                == call.id@ && shown.name == call.name@ && shown.arguments == call.arguments@)
            &&& next matches CommandView::Act(running) && running.id == call.id@ && running.name
                == call.name@ && running.arguments == call.arguments@
        }),
{
}

/// A failure is of one kind only: whatever it was told to be, it says whether
/// the turn was cancelled, sealed, out of iterations or failed otherwise.
pub proof fn failures_are_told_apart(e: Error, f: FailureView)
    requires
        is_failure(e, f),
    ensures
        f is Cancelled ==> e is Cancelled,
        f matches FailureView::Sealed(reason) ==> (e matches Error::Sealed(why) && why == reason),
        f matches FailureView::MaxIterations(n) ==> (e matches Error::MaxIterations(m) && m == n),
        f matches FailureView::Other(text) ==> (e matches Error::Other(said) && said@ == text),
        f matches FailureView::Passed(error) ==> e == error,
{
}

/// What a host is given to do is what was decided: the kind of the command and
/// everything it carries.
pub proof fn commands_are_told_apart(c: TurnCommand, v: CommandView)
    requires
        is_command(c, v),
    ensures
        v is Check <==> c is Check,
        v is NextAction <==> c is NextAction,
        v is Reason <==> c is Reason,
        v matches CommandView::Intercept(call) ==> (c matches TurnCommand::Intercept(asked)
            && asked@ == call),
        v matches CommandView::Act(call) ==> (c matches TurnCommand::Act(asked) && asked@ == call),
        v matches CommandView::Succeed(result) ==> (c matches TurnCommand::Finish(Ok(told))
            && told.response@ == result.response && told.turn_id == result.turn_id
            && told.iterations == result.iterations && told.tool_calls == result.tool_calls
            && told.usage == result.usage),
        v is Fail ==> (c matches TurnCommand::Finish(Err(_))),
{
}

/// Runs a turn in one go, in the process of its host.
#[derive(Debug, Clone, Copy)]
pub struct InProcessExecutor;

impl InProcessExecutor {
    /// What follows the check before each action.
    pub fn on_checked(&self, cancelled: bool, sealed: bool) -> (r: TurnStep)
        ensures
            is_step(r, checked(cancelled, sealed)),
    {
        let r = if cancelled {
            TurnStep {
                transitions: vec![Transition::Cancelled],
                next: TurnCommand::Finish(Err(Error::Cancelled)),
            }
        } else if sealed {
            TurnStep {
                transitions: vec![Transition::Sealed(SealReason::BudgetExhausted)],
                next: TurnCommand::Finish(Err(Error::Sealed(SealReason::BudgetExhausted))),
            }
        } else {
            TurnStep { transitions: Vec::new(), next: TurnCommand::NextAction }
        };
        assert(transitions_view(r.transitions@) =~= checked(cancelled, sealed).0);
        r
    }

    /// What follows an action that the state asks for, and what it has counted.
    pub fn on_action(
        &self,
        action: TurnAction,
        progress: &TurnProgress,
        max_iterations: usize,
    ) -> (r: TurnStep)
        ensures
            is_step(r, acted_on(action, *progress, max_iterations)),
    {
        let r = match action {
            TurnAction::Reason => TurnStep {
                transitions: vec![Transition::ReasonStarted],
                next: TurnCommand::Reason,
            },
            TurnAction::ExecuteTool { call } => TurnStep {
                transitions: Vec::new(),
                next: TurnCommand::Intercept(call),
            },
            TurnAction::Complete(outcome) => TurnStep {
                transitions: Vec::new(),
                next: TurnCommand::Finish(
                    match outcome {
                        TurnOutcome::Success { response } => Ok(
                            TurnResult {
                                turn_id: progress.turn_id,
                                response,
                                iterations: progress.iterations,
                                tool_calls: progress.tool_calls,
                                usage: progress.usage,
                            },
                        ),
                        TurnOutcome::MaxIterations => Err(Error::MaxIterations(max_iterations)),
                        TurnOutcome::Failed { error } => Err(Error::Other(error)),
                        TurnOutcome::Cancelled => Err(Error::Cancelled),
                        TurnOutcome::Sealed(reason) => Err(Error::Sealed(reason)),
                    },
                ),
            },
        };
        assert(transitions_view(r.transitions@) =~= acted_on(action, *progress, max_iterations).0);
        r
    }

    /// What follows a model call, whose failure is recorded by its
    /// description.
    pub fn on_reasoned(&self, outcome: Result<(), Error>, description: String) -> (r: TurnStep)
        ensures
            is_step(r, reasoned(outcome, description@)),
    {
        let r = match outcome {
            Ok(_) => TurnStep {
                transitions: vec![Transition::ReasonCompleted],
                next: TurnCommand::Check,
            },
            Err(Error::Cancelled) => TurnStep {
                transitions: vec![Transition::Cancelled],
                next: TurnCommand::Finish(Err(Error::Cancelled)),
            },
            Err(error) => TurnStep {
                transitions: vec![Transition::Failed(description)],
                next: TurnCommand::Finish(Err(error)),
            },
        };
        assert(transitions_view(r.transitions@) =~= reasoned(outcome, description@).0);
        r
    }

    /// What follows the middleware's decision on a call.
    pub fn on_intercepted(&self, call: ToolCall, outcome: ToolChainOutcome) -> (r: TurnStep)
        ensures
            is_step(r, intercepted(call@, outcome)),
    {
        let r = match outcome {
            ToolChainOutcome::Deny { reason } => TurnStep {
                transitions: vec![
                    Transition::ToolStarted { call_id: call.id.clone() },
                    Transition::ToolDenied {
                        call_id: call.id.clone(),
                        name: call.name.clone(),
                        reason: reason.clone(),
                    },
                    Transition::ToolCompleted {
                        call_id: call.id.clone(),
                        output: ToolOutput::error(reason),
                    },
                ],
                next: TurnCommand::Check,
            },
            ToolChainOutcome::Proceed { call: executed, rewritten } => {
                let mut transitions: Vec<Transition> = Vec::new();
                if rewritten {
                    transitions.push(Transition::ToolRewritten(executed.clone()));
                }
                transitions.push(Transition::ToolStarted { call_id: executed.id.clone() });
                TurnStep { transitions, next: TurnCommand::Act(executed) }
            },
        };
        assert(transitions_view(r.transitions@) =~= intercepted(call@, outcome).0);
        r
    }

    /// What follows a call that ran.
    pub fn on_acted(&self, call: ToolCall, output: ToolOutput) -> (r: TurnStep)
        ensures
            is_step(r, ran(call@, output@)),
    {
        let r = TurnStep {
            transitions: vec![Transition::ToolCompleted { call_id: call.id, output }],
            next: TurnCommand::Check,
        };
        assert(transitions_view(r.transitions@) =~= ran(call@, output@).0);
        r
    }

    /// What follows a call that was dropped while it ran, because the turn was
    /// cancelled.
    pub fn on_dropped(&self) -> (r: TurnStep)
        ensures
            is_step(
                r,
                (seq![TransitionView::Cancelled], CommandView::Fail(FailureView::Cancelled)),
            ),
    {
        let r = TurnStep {
            transitions: vec![Transition::Cancelled],
            next: TurnCommand::Finish(Err(Error::Cancelled)),
        };
        assert(transitions_view(r.transitions@) =~= seq![TransitionView::Cancelled]);
        r
    }

    /// What follows a streamed piece of an answer: it is recorded, unless the
    /// turn was cancelled meanwhile.
    pub fn on_delta(&self, cancelled: bool) -> (r: Result<(), Error>)
        ensures
            cancelled ==> (r matches Err(e) && e is Cancelled),
            !cancelled ==> r is Ok,
    {
        if cancelled {
            Err(Error::Cancelled)
        } else {
            Ok(())
        }
    }
}

/// A command is answered by the event that it asks for, and by no other: a
/// call that is carried out by its output or by being dropped. A turn that is
/// over is answered by nothing.
pub proof fn each_command_waits_for_its_event(command: CommandView, event: TurnEvent)
    ensures
        command is Check ==> (answers(command, event) <==> event is Checked),
        command is NextAction ==> (answers(command, event) <==> event is Action),
        command is Reason ==> (answers(command, event) <==> event is Reasoned),
        command is Intercept ==> (answers(command, event) <==> event is Intercepted),
        command is Act ==> (answers(command, event) <==> event is Acted || event is Dropped),
        command is Succeed || command is Fail ==> !answers(command, event),
{
}

/// A step is what it records, one by one and in order, and what it asks for
/// next.
pub proof fn a_step_is_what_it_records_and_asks(
    step: TurnStep,
    recorded: Seq<TransitionView>,
    next: CommandView,
)
    ensures
        is_step(step, (recorded, next)) <==> {
            &&& step.transitions@.len() == recorded.len()
            &&& forall|i: int|
                0 <= i < recorded.len() ==> (#[trigger] step.transitions@[i])@ == recorded[i]
            &&& is_command(step.next, next)
        },
{
    let shown = transitions_view(step.transitions@);
    if step.transitions@.len() == recorded.len() && forall|i: int|
        0 <= i < recorded.len() ==> (#[trigger] step.transitions@[i])@ == recorded[i] {
        assert(shown =~= recorded);
    }
    if shown == recorded {
        assert forall|i: int| 0 <= i < recorded.len() implies (
        #[trigger] step.transitions@[i])@ == recorded[i] by {
            assert(shown[i] == step.transitions@[i]@);
        }
    }
}

} // verus!
