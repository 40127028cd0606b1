//! What was observed of a case: its events, the trajectory they make, and the
//! transcript that is scored.

use vstd::prelude::*;

use crate::evals::harness::{truncate, truncated};
use crate::in_process::TurnResult;
use crate::message::{calls_view, clone_calls, text_of, Message, MessageView, ToolCall,
    ToolCallView, Usage};
use crate::text::{cat2, opt_text, texts};

verus! {

/// An event of a session, as far as a case is graded by it.
#[derive(Debug)]
pub enum EvalEvent {
    InputMessage { message: Message },
    OutputMessageDelta,
    OutputMessageCompleted { message: Message, usage: Usage },
    ToolStarted { call: ToolCall },
    ToolDenied,
    ToolCompleted { call_id: String, output: String, is_error: bool },
    Other,
}

/// The content of an [`EvalEvent`].
pub ghost enum EventView {
    InputMessage { message: MessageView },
    OutputMessageDelta,
    OutputMessageCompleted { message: MessageView, usage: Usage },
    ToolStarted { call: ToolCallView },
    ToolDenied,
    ToolCompleted { call_id: Seq<char>, output: Seq<char>, is_error: bool },
    Other,
}

impl View for EvalEvent {
    type V = EventView;

    open spec fn view(&self) -> EventView {
        match *self {
            EvalEvent::InputMessage { message } => EventView::InputMessage { message: message@ },
            EvalEvent::OutputMessageDelta => EventView::OutputMessageDelta,
            EvalEvent::OutputMessageCompleted { message, usage } =>
                EventView::OutputMessageCompleted { message: message@, usage },
            EvalEvent::ToolStarted { call } => EventView::ToolStarted { call: call@ },
            EvalEvent::ToolDenied => EventView::ToolDenied,
            EvalEvent::ToolCompleted { call_id, output, is_error } => EventView::ToolCompleted {
                call_id: call_id@,
                output: output@,
                is_error,
            },
            EvalEvent::Other => EventView::Other,
        }
    }
}

/// The contents of a list of events.
pub open spec fn events_view(events: Seq<EvalEvent>) -> Seq<EventView> {
    events.map_values(|e: EvalEvent| e@)
}

/// What a recorder has collected.
#[derive(Debug)]
pub struct Collected {
    pub events: Vec<EvalEvent>,
    /// When the first piece of an answer came.
    pub first_delta: Option<u64>,
}

/// Collects the events of a session.
#[derive(Debug)]
pub struct Recorder {
    pub inner: Collected,
}

impl Recorder {
    /// A recorder that has collected nothing.
    pub fn new() -> (r: Self)
        ensures
            r.inner.events@.len() == 0,
            r.inner.first_delta is None,
    {
        Recorder { inner: Collected { events: Vec::new(), first_delta: None } }
    }

    /// What the recorder is called.
    pub fn name(&self) -> (r: &'static str)
        ensures
            r@ == "agentyk-eval-recorder"@,
    {
        "agentyk-eval-recorder"
    }

    /// Collect an event. Of the pieces of answers only the time of the first
    /// is kept.
    pub fn on_event(&mut self, event: EvalEvent, now: u64)
        ensures
            event is OutputMessageDelta ==> final(self).inner.events == old(self).inner.events
                && final(self).inner.first_delta == match old(self).inner.first_delta {
                Some(at) => Some(at),
                None => Some(now),
            },
            !(event is OutputMessageDelta) ==> final(self).inner.events@
                == old(self).inner.events@.push(event) && final(self).inner.first_delta
                == old(self).inner.first_delta,
    {
        match event {
            EvalEvent::OutputMessageDelta => {
                if self.inner.first_delta.is_none() {
                    self.inner.first_delta = Some(now);
                }
            },
            event => {
                self.inner.events.push(event);
            },
        }
    }

    /// Hand out what was collected, and begin anew.
    pub fn take(&mut self) -> (r: Collected)
        ensures
            r == old(self).inner,
            final(self).inner.events@.len() == 0,
            final(self).inner.first_delta is None,
    {
        let mut r = Collected { events: Vec::new(), first_delta: None };
        std::mem::swap(&mut r, &mut self.inner);
        r
    }
}

/// The names of the tools that were started, in order.
pub open spec fn started_tools(events: Seq<EventView>) -> Seq<Seq<char>>
    decreases events.len(),
{
    if events.len() == 0 {
        Seq::empty()
    } else {
        match events.last() {
            EventView::ToolStarted { call } => started_tools(events.drop_last()).push(call.name),
            _ => started_tools(events.drop_last()),
        }
    }
}

/// Whether an event is the completion of a call that failed.
pub open spec fn is_failed_call(e: EventView) -> bool {
    e matches EventView::ToolCompleted { is_error, .. } && is_error
}

/// How many calls failed.
pub open spec fn failed_calls(events: Seq<EventView>) -> nat {
    events.filter(|e: EventView| is_failed_call(e)).len()
}

/// How many calls were denied.
pub open spec fn denied_calls(events: Seq<EventView>) -> nat {
    events.filter(|e: EventView| e is ToolDenied).len()
}

// ------------------------------------------------------------- trajectories

/// Who took a step.
#[derive(Debug, Clone, Copy, PartialEq, Eq)]
pub enum StepSource {
    User,
    Agent,
}

/// What a step of the agent cost.
#[derive(Debug, Clone, Copy, PartialEq, Eq)]
pub struct StepMetrics {
    pub prompt_tokens: u64,
    pub completion_tokens: u64,
    pub cached_tokens: u64,
}

/// What came of a call.
#[derive(Debug)]
pub struct ObservationResult {
    pub source_call_id: String,
    pub content: String,
}

/// One step of a trajectory.
#[derive(Debug)]
pub struct Step {
    /// Steps count from one.
    pub step_id: u64,
    pub source: StepSource,
    pub message: String,
    /// What a step of the agent was taken with, what it asked for and cost.
    pub model_name: Option<String>,
    pub tool_calls: Vec<ToolCall>,
    pub metrics: Option<StepMetrics>,
    /// What came of the calls, where any was answered.
    pub observation: Option<Vec<ObservationResult>>,
}

/// The content of a [`Step`]. Results are pairs of a call's id and the text.
#[verifier::ext_equal]
pub ghost struct StepView {
    pub step_id: int,
    pub source: StepSource,
    pub message: Seq<char>,
    pub model_name: Option<Seq<char>>,
    pub tool_calls: Seq<ToolCallView>,
    pub metrics: Option<StepMetrics>,
    pub observation: Option<Seq<(Seq<char>, Seq<char>)>>,
}

/// The contents of a list of results.
pub open spec fn results_view(results: Seq<ObservationResult>) -> Seq<(Seq<char>, Seq<char>)> {
    results.map_values(|r: ObservationResult| (r.source_call_id@, r.content@))
}

impl View for Step {
    type V = StepView;

    open spec fn view(&self) -> StepView {
        StepView {
            step_id: self.step_id as int,
            source: self.source,
            message: self.message@,
            model_name: opt_text(self.model_name),
            tool_calls: calls_view(self.tool_calls@),
            metrics: self.metrics,
            observation: match self.observation {
                Some(results) => Some(results_view(results@)),
                None => None,
            },
        }
    }
}

/// The contents of a list of steps.
pub open spec fn steps_view(steps: Seq<Step>) -> Seq<StepView> {
    steps.map_values(|s: Step| s@)
}

/// What a step says came of a call.
pub open spec fn result_text(output: Seq<char>, is_error: bool) -> Seq<char> {
    truncated(
        if is_error {
            "error: "@ + output
        } else {
            output
        },
        2_000,
    )
}

/// The step with a result added to what came of its calls.
pub open spec fn with_result(step: StepView, call_id: Seq<char>, text: Seq<char>) -> StepView {
    StepView {
        observation: Some(
            (match step.observation {
                Some(results) => results,
                None => Seq::empty(),
            }).push((call_id, text)),
        ),
        ..step
    }
}

/// The steps with what an event adds: a message is a step, and the result of a
/// call belongs to the last step there is.
pub open spec fn add_event(steps: Seq<StepView>, event: EventView, model: Seq<char>) -> Seq<
    StepView,
> {
    match event {
        EventView::InputMessage { message } => steps.push(
            StepView {
                step_id: steps.len() as int + 1,
                source: StepSource::User,
                message: text_of(message.content),
                model_name: None,
                tool_calls: Seq::empty(),
                metrics: None,
                observation: None,
            },
        ),
        EventView::OutputMessageCompleted { message, usage } => steps.push(
            StepView {
                step_id: steps.len() as int + 1,
                source: StepSource::Agent,
                message: text_of(message.content),
                model_name: Some(model),
                tool_calls: message.tool_calls,
                metrics: Some(
                    StepMetrics {
                        prompt_tokens: usage.input_tokens,
                        completion_tokens: usage.output_tokens,
                        cached_tokens: usage.cache_read_input_tokens,
                    },
                ),
                observation: None,
            },
        ),
        EventView::ToolCompleted { call_id, output, is_error } => if steps.len() == 0 {
            steps
        } else {
            steps.update(
                steps.len() - 1,
                with_result(steps.last(), call_id, result_text(output, is_error)),
            )
        },
        _ => steps,
    }
}

/// The steps that events make.
pub open spec fn steps_of(events: Seq<EventView>, model: Seq<char>) -> Seq<StepView>
    decreases events.len(),
{
    if events.len() == 0 {
        Seq::empty()
    } else {
        add_event(steps_of(events.drop_last(), model), events.last(), model)
    }
}

/// Steps are numbered from one, without a gap, and there are no more of them
/// than events.
pub proof fn steps_are_numbered(events: Seq<EventView>, model: Seq<char>)
    ensures
        steps_of(events, model).len() <= events.len(),
        forall|i: int|
            0 <= i < steps_of(events, model).len() ==> (#[trigger] steps_of(
                events,
                model,
            )[i]).step_id == i + 1,
    decreases events.len(),
{
    if events.len() > 0 {
        steps_are_numbered(events.drop_last(), model);
    }
}

/// The results that the steps hold, in order.
pub open spec fn all_results(steps: Seq<StepView>) -> Seq<(Seq<char>, Seq<char>)>
    decreases steps.len(),
{
    if steps.len() == 0 {
        Seq::empty()
    } else {
        all_results(steps.drop_last()) + (match steps.last().observation {
            Some(results) => results,
            None => Seq::empty(),
        })
    }
}

/// The results that events report, in order.
pub open spec fn reported(events: Seq<EventView>) -> Seq<(Seq<char>, Seq<char>)>
    decreases events.len(),
{
    if events.len() == 0 {
        Seq::empty()
    } else {
        match events.last() {
            EventView::ToolCompleted { call_id, output, is_error } => reported(
                events.drop_last(),
            ).push((call_id, result_text(output, is_error))),
            _ => reported(events.drop_last()),
        }
    }
}

/// No result is lost or made up: the trajectory of a session that opened with
/// a message holds each result that was reported, once and in order, under
/// the id of its call.
pub proof fn results_are_kept(events: Seq<EventView>, model: Seq<char>)
    requires
        events.len() > 0,
        events[0] is InputMessage,
    ensures
        steps_of(events, model).len() > 0,
        all_results(steps_of(events, model)) == reported(events),
    decreases events.len(),
{
    let earlier = events.drop_last();
    let steps = steps_of(events, model);
    let before = steps_of(earlier, model);
    if events.len() == 1 {
        assert(earlier =~= Seq::empty());
        assert(reported(earlier) =~= Seq::empty());
        assert(before =~= Seq::empty());
        assert(steps.drop_last() =~= before);
        assert(all_results(before) =~= Seq::empty());
        assert(all_results(steps) =~= Seq::empty());
        assert(reported(events) =~= Seq::empty());
    } else {
        assert(earlier[0] == events[0]);
        results_are_kept(earlier, model);
        match events.last() {
            EventView::InputMessage { message } => {
                assert(steps.drop_last() =~= before);
                assert(all_results(steps) =~= all_results(before));
            },
            EventView::OutputMessageCompleted { message, usage } => {
                assert(steps.drop_last() =~= before);
                assert(all_results(steps) =~= all_results(before));
            },
            EventView::ToolCompleted { call_id, output, is_error } => {
                assert(steps.drop_last() =~= before.drop_last());
                assert(all_results(steps) =~= all_results(before).push(
                    (call_id, result_text(output, is_error)),
                ));
            },
            _ => {},
        }
    }
}

impl Collected {
    /// The names of the tools that were started, in order.
    pub fn tool_names(&self) -> (r: Vec<String>)
        ensures
            texts(r@) == started_tools(events_view(self.events@)),
    {
        let ghost all = events_view(self.events@);
        let mut r: Vec<String> = Vec::new();
        let mut i: usize = 0;
        assert(texts(r@) =~= started_tools(all.take(0)));
        while i < self.events.len()
            invariant
                i <= self.events@.len(),
                all == events_view(self.events@),
                texts(r@) == started_tools(all.take(i as int)),
            decreases self.events.len() - i,
        {
            assert(all.take(i as int + 1).drop_last() =~= all.take(i as int));
            let ghost before = texts(r@);
            if let EvalEvent::ToolStarted { call } = &self.events[i] {
                r.push(call.name.clone());
                assert(texts(r@) =~= before.push(call@.name));
            }
            i += 1;
        }
        assert(all.take(i as int) =~= all);
        r
    }

    /// How many calls failed.
    pub fn tool_errors(&self) -> (n: usize)
        ensures
            n == failed_calls(events_view(self.events@)),
    {
        let ghost all = events_view(self.events@);
        let ghost keep = |e: EventView| is_failed_call(e);
        let mut n: usize = 0;
        let mut i: usize = 0;
        assert(all.take(0).filter(keep).len() == 0) by {
            reveal(Seq::filter);
        }
        while i < self.events.len()
            invariant
                n <= i <= self.events@.len(),
                all == events_view(self.events@),
                keep == (|e: EventView| is_failed_call(e)),
                n == all.take(i as int).filter(keep).len(),
            decreases self.events.len() - i,
        {
            proof {
                assert(all.take(i as int + 1).drop_last() =~= all.take(i as int));
                reveal(Seq::filter);
            }
            if let EvalEvent::ToolCompleted { is_error, .. } = &self.events[i] {
                if *is_error {
                    n += 1;
                }
            }
            i += 1;
        }
        assert(all.take(i as int) =~= all);
        n
    }

    /// How many calls were denied.
    pub fn denied(&self) -> (n: usize)
        ensures
            n == denied_calls(events_view(self.events@)),
    {
        let ghost all = events_view(self.events@);
        let ghost keep = |e: EventView| e is ToolDenied;
        let mut n: usize = 0;
        let mut i: usize = 0;
        assert(all.take(0).filter(keep).len() == 0) by {
            reveal(Seq::filter);
        }
        while i < self.events.len()
            invariant
                n <= i <= self.events@.len(),
                all == events_view(self.events@),
                keep == (|e: EventView| e is ToolDenied),
                n == all.take(i as int).filter(keep).len(),
            decreases self.events.len() - i,
        {
            proof {
                assert(all.take(i as int + 1).drop_last() =~= all.take(i as int));
                reveal(Seq::filter);
            }
            if let EvalEvent::ToolDenied = &self.events[i] {
                n += 1;
            }
            i += 1;
        }
        assert(all.take(i as int) =~= all);
        n
    }

    /// The trajectory that the events make.
    pub fn trajectory(&self, model: &str) -> (steps: Vec<Step>)
        ensures
            steps_view(steps@) == steps_of(events_view(self.events@), model@),
    {
        let ghost all = events_view(self.events@);
        let mut steps: Vec<Step> = Vec::new();
        let mut i: usize = 0;
        assert(steps_view(steps@) =~= steps_of(all.take(0), model@));
        while i < self.events.len()
            invariant
                i <= self.events@.len(),
                all == events_view(self.events@),
                steps@.len() <= i,
                steps_view(steps@) == steps_of(all.take(i as int), model@),
            decreases self.events.len() - i,
        {
            assert(all.take(i as int + 1).drop_last() =~= all.take(i as int));
            let ghost before = steps_view(steps@);
            let number: u64 = steps.len() as u64 + 1;
            match &self.events[i] {
                EvalEvent::InputMessage { message } => {
                    let step = Step {
                        step_id: number,
                        source: StepSource::User,
                        message: message.text(),
                        model_name: None,
                        tool_calls: Vec::new(),
                        metrics: None,
                        observation: None,
                    };
                    assert(step@.tool_calls =~= Seq::empty());
                    steps.push(step);
                    assert(steps_view(steps@) =~= add_event(before, all[i as int], model@));
                },
                EvalEvent::OutputMessageCompleted { message, usage } => {
                    let step = Step {
                        step_id: number,
                        source: StepSource::Agent,
                        message: message.text(),
                        model_name: Some(model.to_owned()),
                        tool_calls: clone_calls(&message.tool_calls),
                        metrics: Some(
                            StepMetrics {
                                prompt_tokens: usage.input_tokens,
                                completion_tokens: usage.output_tokens,
                                cached_tokens: usage.cache_read_input_tokens,
                            },
                        ),
                        observation: None,
                    };
                    steps.push(step);
                    assert(steps_view(steps@) =~= add_event(before, all[i as int], model@));
                },
                EvalEvent::ToolCompleted { call_id, output, is_error } => {
                    if let Some(step) = steps.pop() {
                        let ghost old_step = step@;
                        assert(old_step == before.last());
                        let content = if *is_error {
                            cat2("error: ", output.as_str())
                        } else {
                            output.clone()
                        };
                        let content = truncate(content, 2_000);
                        let mut step = step;
                        let mut results: Vec<ObservationResult> = match step.observation {
                            Some(results) => results,
                            None => Vec::new(),
                        };
                        let ghost had = results_view(results@);
                        assert(had =~= match old_step.observation {
                            Some(results) => results,
                            None => Seq::empty(),
                        });
                        results.push(
                            ObservationResult { source_call_id: call_id.clone(), content },
                        );
                        assert(results_view(results@) =~= had.push(
                            (call_id@, result_text(output@, *is_error)),
                        ));
                        step.observation = Some(results);
                        assert(step@ == with_result(
                            old_step,
                            call_id@,
                            result_text(output@, *is_error),
                        ));
                        steps.push(step);
                    }
                    assert(steps_view(steps@) =~= add_event(before, all[i as int], model@));
                },
                _ => {},
            }
            i += 1;
        }
        assert(all.take(i as int) =~= all);
        steps
    }
}

// ---------------------------------------------------------------- transcripts

/// What the turns of a case came to so far.
#[derive(Debug)]
pub struct Tally {
    pub usage: Usage,
    pub iterations: usize,
    pub tool_calls: usize,
    /// The last answer.
    pub response: String,
    /// Why the case was broken off.
    pub failure: Option<String>,
}

/// Whether a count can be added to another.
pub open spec fn usage_fits(a: Usage, b: Usage) -> bool {
    &&& a.input_tokens + b.input_tokens <= u64::MAX
    &&& a.output_tokens + b.output_tokens <= u64::MAX
    &&& a.cache_read_input_tokens + b.cache_read_input_tokens <= u64::MAX
    &&& a.cache_creation_input_tokens + b.cache_creation_input_tokens <= u64::MAX
    &&& a.reasoning_tokens + b.reasoning_tokens <= u64::MAX
}

/// Whether a count is the sum of two others.
pub open spec fn is_sum(a: Usage, b: Usage, sum: Usage) -> bool {
    &&& sum.input_tokens == a.input_tokens + b.input_tokens
    &&& sum.output_tokens == a.output_tokens + b.output_tokens
    &&& sum.cache_read_input_tokens == a.cache_read_input_tokens + b.cache_read_input_tokens
    &&& sum.cache_creation_input_tokens == a.cache_creation_input_tokens
        + b.cache_creation_input_tokens
    &&& sum.reasoning_tokens == a.reasoning_tokens + b.reasoning_tokens
}

impl Tally {
    /// A case of which nothing ran.
    pub fn new() -> (r: Self)
        ensures
            r.usage == (Usage {
                input_tokens: 0,
                output_tokens: 0,
                cache_read_input_tokens: 0,
                cache_creation_input_tokens: 0,
                reasoning_tokens: 0,
            }),
            r.iterations == 0,
            r.tool_calls == 0,
            r.response@.len() == 0,
            r.failure is None,
    {
        Tally {
            usage: Usage::new(0, 0),
            iterations: 0,
            tool_calls: 0,
            response: String::new(),
            failure: None,
        }
    }

    /// Add what a turn came to, and tell whether the next one is to run. The
    /// first turn that fails breaks the case off, and is not counted.
    pub fn on_turn(&mut self, result: Result<TurnResult, String>) -> (go_on: bool)
        requires
            result matches Ok(turn) ==> usage_fits(old(self).usage, turn.usage) && old(
                self,
            ).iterations + turn.iterations <= usize::MAX && old(self).tool_calls + turn.tool_calls
                <= usize::MAX,
        ensures
            go_on == result is Ok,
            match result {
                Ok(turn) => {
                    &&& is_sum(old(self).usage, turn.usage, final(self).usage)
                    &&& final(self).iterations == old(self).iterations + turn.iterations
                    &&& final(self).tool_calls == old(self).tool_calls + turn.tool_calls
                    &&& final(self).response == turn.response
                    &&& final(self).failure == old(self).failure
                },
                Err(text) => *final(self) == (Tally { failure: Some(text), ..*old(self) }),
            },
    {
        match result {
            Ok(turn) => {
                let sum = Usage {
                    input_tokens: self.usage.input_tokens + turn.usage.input_tokens,
                    output_tokens: self.usage.output_tokens + turn.usage.output_tokens,
                    cache_read_input_tokens: self.usage.cache_read_input_tokens
                        + turn.usage.cache_read_input_tokens,
                    cache_creation_input_tokens: self.usage.cache_creation_input_tokens
                        + turn.usage.cache_creation_input_tokens,
                    reasoning_tokens: self.usage.reasoning_tokens + turn.usage.reasoning_tokens,
                };
                self.usage = sum;
                self.iterations = self.iterations + turn.iterations;
                self.tool_calls = self.tool_calls + turn.tool_calls;
                self.response = turn.response;
                true
            },
            Err(text) => {
                self.failure = Some(text);
                false
            },
        }
    }
}

/// Whose failure broke a case.
#[derive(Debug, Clone, Copy, PartialEq, Eq)]
pub enum ErrorKind {
    /// The agent's.
    Subject,
    /// That of what is around it, for which no agent is graded down.
    Infra,
}

/// What is known of a case when it is over.
#[derive(Debug)]
pub struct Transcript {
    pub final_response: String,
    pub iterations: usize,
    pub tool_calls_count: usize,
    pub tool_calls: Vec<String>,
    pub usage: Usage,
    /// How long the case took, in milliseconds, and how long the first piece
    /// of an answer.
    pub duration_ms: u64,
    pub time_to_first_token_ms: Option<u64>,
    /// The workspace that was left, by path.
    pub files: Vec<(String, String)>,
    pub trajectory: Option<Vec<Step>>,
    pub error: Option<String>,
    pub error_kind: ErrorKind,
}

/// The transcript of a case that never ran, for no fault of the agent.
pub fn infra_failure(message: String) -> (r: Transcript)
    ensures
        r.error == Some(message),
        r.error_kind == ErrorKind::Infra,
        r.final_response@.len() == 0,
        r.iterations == 0,
        r.tool_calls_count == 0,
        r.tool_calls@.len() == 0,
        r.usage == (Usage {
            input_tokens: 0,
            output_tokens: 0,
            cache_read_input_tokens: 0,
            cache_creation_input_tokens: 0,
            reasoning_tokens: 0,
        }),
        r.duration_ms == 0,
        r.time_to_first_token_ms is None,
        r.files@.len() == 0,
        r.trajectory is None,
{
    Transcript {
        final_response: String::new(),
        iterations: 0,
        tool_calls_count: 0,
        tool_calls: Vec::new(),
        usage: Usage::new(0, 0),
        duration_ms: 0,
        time_to_first_token_ms: None,
        files: Vec::new(),
        trajectory: None,
        error: Some(message),
        error_kind: ErrorKind::Infra,
    }
}

/// The transcript of a case that ran from `started` to `ended`, in
/// milliseconds. A turn that failed is the agent's failure.
pub fn transcript_of(
    tally: Tally,
    collected: &Collected,
    model: &str,
    files: Vec<(String, String)>,
    started: u64,
    ended: u64,
) -> (r: Transcript)
    requires
        started <= ended,
        collected.first_delta matches Some(at) ==> started <= at,
    ensures
        r.final_response == tally.response,
        r.iterations == tally.iterations,
        r.tool_calls_count == tally.tool_calls,
        texts(r.tool_calls@) == started_tools(events_view(collected.events@)),
        r.usage == tally.usage,
        r.duration_ms == ended - started,
        r.time_to_first_token_ms == match collected.first_delta {
            Some(at) => Some((at - started) as u64),
            None => None,
        },
        r.files == files,
        r.trajectory matches Some(steps) && steps_view(steps@) == steps_of(
            events_view(collected.events@),
            model@,
        ),
        r.error == tally.failure,
        r.error_kind == ErrorKind::Subject,
{
    let trajectory = collected.trajectory(model);
    Transcript {
        final_response: tally.response,
        iterations: tally.iterations,
        tool_calls_count: tally.tool_calls,
        tool_calls: collected.tool_names(),
        usage: tally.usage,
        duration_ms: ended - started,
        time_to_first_token_ms: match collected.first_delta {
            Some(at) => Some(at - started),
            None => None,
        },
        files,
        trajectory: Some(trajectory),
        error: tally.failure,
        error_kind: ErrorKind::Subject,
    }
}

} // verus!
