use agentyk::agent::{find_driver, register_bundled_drivers, Agent, AgentBuilder};
use agentyk::drivers::sim::{SimDriver, SimToolCall, SimTurn};
use agentyk::in_process::{
    InProcessExecutor, ToolChainOutcome, Transition, TurnAction, TurnCommand, TurnOutcome,
    TurnProgress, TurnResult,
};
use agentyk::json::Json;
use agentyk::message::{
    ChatRequest, Error, LlmErrorKind, Message, ModelSpec, SealReason, ToolCall, ToolOutput, Usage,
};
use agentyk::session::{CommandStep, Session};

fn call(id: &str, name: &str) -> ToolCall {
    ToolCall { id: id.to_string(), name: name.to_string(), arguments: Json::Object(vec![]) }
}

fn kinds(transitions: &Vec<Transition>) -> Vec<&'static str> {
    transitions
        .iter()
        .map(|t| match t {
            Transition::Cancelled => "cancelled",
            Transition::Sealed(_) => "sealed",
            Transition::ReasonStarted => "reason started",
            Transition::ReasonCompleted => "reason completed",
            Transition::Failed(_) => "failed",
            Transition::ToolRewritten(_) => "rewritten",
            Transition::ToolStarted { .. } => "started",
            Transition::ToolDenied { .. } => "denied",
            Transition::ToolCompleted { .. } => "completed",
        })
        .collect()
}

const TURN: InProcessExecutor = InProcessExecutor;

fn progress() -> TurnProgress {
    TurnProgress { turn_id: 7, iterations: 2, tool_calls: 1, usage: Usage::new(3, 4) }
}

#[test]
fn a_turn_checks_before_each_action() {
    assert!(matches!(TURN.on_checked(false, false).next, TurnCommand::NextAction));
    let cancelled = TURN.on_checked(true, true);
    assert_eq!(kinds(&cancelled.transitions), vec!["cancelled"]);
    assert!(matches!(cancelled.next, TurnCommand::Finish(Err(Error::Cancelled))));
    let sealed = TURN.on_checked(false, true);
    assert_eq!(kinds(&sealed.transitions), vec!["sealed"]);
    assert!(matches!(
        sealed.next,
        TurnCommand::Finish(Err(Error::Sealed(SealReason::BudgetExhausted)))
    ));
}

#[test]
fn actions_lead_to_reasoning_to_tools_or_to_the_end() {
    let reason = TURN.on_action(TurnAction::Reason, &progress(), 4);
    assert_eq!(kinds(&reason.transitions), vec!["reason started"]);
    assert!(matches!(reason.next, TurnCommand::Reason));
    let tool = TURN.on_action(TurnAction::ExecuteTool { call: call("a", "t") }, &progress(), 4);
    assert!(tool.transitions.is_empty());
    assert!(matches!(tool.next, TurnCommand::Intercept(c) if c.id == "a"));
    let end = |outcome: TurnOutcome| {
        match TURN.on_action(TurnAction::Complete(outcome), &progress(), 4).next {
            TurnCommand::Finish(result) => result,
            other => panic!("{other:?}"),
        }
    };
    let done = end(TurnOutcome::Success { response: "done".to_string() }).unwrap();
    assert_eq!(done.turn_id, 7);
    assert_eq!(done.response, "done");
    assert_eq!(done.iterations, 2);
    assert_eq!(done.tool_calls, 1);
    assert_eq!(done.usage, Usage::new(3, 4));
    assert!(matches!(end(TurnOutcome::MaxIterations), Err(Error::MaxIterations(4))));
    assert!(
        matches!(end(TurnOutcome::Failed { error: "x".to_string() }), Err(Error::Other(e)) if e == "x")
    );
    assert!(matches!(end(TurnOutcome::Cancelled), Err(Error::Cancelled)));
    assert!(matches!(
        end(TurnOutcome::Sealed(SealReason::BudgetExhausted)),
        Err(Error::Sealed(SealReason::BudgetExhausted))
    ));
}

#[test]
fn a_model_call_that_fails_ends_the_turn_with_its_failure() {
    let answered = TURN.on_reasoned(Ok(()), String::new());
    assert_eq!(kinds(&answered.transitions), vec!["reason completed"]);
    assert!(matches!(answered.next, TurnCommand::Check));
    let cancelled = TURN.on_reasoned(Err(Error::Cancelled), "cancelled".to_string());
    assert_eq!(kinds(&cancelled.transitions), vec!["cancelled"]);
    let error = Error::driver(LlmErrorKind::Network, "reset".to_string());
    let failed = TURN.on_reasoned(Err(error), "described".to_string());
    assert!(matches!(&failed.transitions[0], Transition::Failed(text) if text == "described"));
    assert!(matches!(
        failed.next,
        TurnCommand::Finish(Err(Error::Driver { kind: LlmErrorKind::Network, .. }))
    ));
}

#[test]
fn a_denied_call_is_recorded_and_answered_but_never_runs() {
    let step = TURN.on_intercepted(
        call("a", "write_file"),
        ToolChainOutcome::Deny { reason: "no".to_string() },
    );
    assert_eq!(kinds(&step.transitions), vec!["started", "denied", "completed"]);
    assert!(matches!(
        &step.transitions[1],
        Transition::ToolDenied { call_id, name, reason }
            if call_id == "a" && name == "write_file" && reason == "no"
    ));
    assert!(matches!(
        &step.transitions[2],
        Transition::ToolCompleted { call_id, output }
            if call_id == "a" && output.is_error && output.content == "no"
    ));
    assert!(matches!(step.next, TurnCommand::Check));
}

#[test]
fn a_rewritten_call_is_announced_as_it_will_run() {
    let step = TURN.on_intercepted(
        call("a", "t"),
        ToolChainOutcome::Proceed { call: call("a", "safe"), rewritten: true },
    );
    assert_eq!(kinds(&step.transitions), vec!["rewritten", "started"]);
    assert!(matches!(&step.transitions[0], Transition::ToolRewritten(c) if c.name == "safe"));
    assert!(matches!(&step.next, TurnCommand::Act(c) if c.name == "safe"));
    let plain = TURN.on_intercepted(
        call("a", "t"),
        ToolChainOutcome::Proceed { call: call("a", "t"), rewritten: false },
    );
    assert_eq!(kinds(&plain.transitions), vec!["started"]);
    let ran = TURN.on_acted(call("a", "t"), ToolOutput::text("out".to_string()));
    assert!(matches!(
        &ran.transitions[0],
        Transition::ToolCompleted { call_id, output } if call_id == "a" && output.content == "out"
    ));
    assert!(matches!(ran.next, TurnCommand::Check));
}

#[test]
fn a_cancelled_turn_stops_mid_stream() {
    assert!(TURN.on_delta(false).is_ok());
    assert!(matches!(TURN.on_delta(true), Err(Error::Cancelled)));
}

fn request() -> ChatRequest {
    ChatRequest::new(ModelSpec::on("llmsim", "m"), vec![Message::user("hi")])
}

#[test]
fn a_script_is_played_in_order_and_then_is_over() {
    let mut driver = SimDriver::new(vec![
        SimTurn::tool_call("one", Json::Null),
        SimTurn::tool_calls(vec![
            SimToolCall::new("two", Json::Null),
            SimToolCall::new("three", Json::Bool(true)),
        ]),
        SimTurn::text("done"),
    ]);
    let first = driver.complete(request());
    assert_eq!(first.message.tool_calls[0].id, "call_0");
    assert_eq!(first.usage, Usage::new(0, 0));
    let second = driver.complete(request());
    let ids: Vec<&str> = second.message.tool_calls.iter().map(|c| c.id.as_str()).collect();
    assert_eq!(ids, vec!["call_1", "call_2"]);
    assert_eq!(second.message.tool_calls[1].arguments, Json::Bool(true));
    assert_eq!(driver.complete(request()).message.text(), "done");
    assert_eq!(driver.complete(request()).message.text(), "(llmsim: script exhausted)");
    assert_eq!(driver.recorded_requests().len(), 4);
}

#[test]
fn an_agent_needs_a_model_and_a_driver_for_it() {
    let error = Agent::builder().build().unwrap_err();
    assert!(matches!(error, Error::InvalidAgent(text) if text.contains("a model is required")));
    let error = AgentBuilder::new().model(ModelSpec::on("nowhere", "m")).build().unwrap_err();
    assert!(matches!(error, Error::UnknownDriver { id, .. } if id == "nowhere"));
    let agent = AgentBuilder::new()
        .name("scribe")
        .system_prompt("be terse")
        .model(ModelSpec::on("llmsim", "m"))
        .driver("llmsim")
        .driver("llmsim")
        .capability("files")
        .tool("echo")
        .max_iterations(3)
        .build()
        .unwrap();
    assert_eq!(agent.name(), "scribe");
    assert_eq!(agent.model().model, "m");
    assert_eq!(agent.driver_for_model(), Some("llmsim"));
    assert_eq!(agent.capabilities(), &vec!["files".to_string(), "tools".to_string()]);
    assert_eq!(agent.config().drivers, vec!["llmsim", "openai", "anthropic"]);
    assert_eq!(agent.config().max_iterations, Some(3));
}

#[test]
fn missing_model_is_a_build_error() {
    let error = Agent::builder().build().unwrap_err();
    assert!(matches!(error, Error::InvalidAgent(text) if text.contains("model is required")));
}

#[test]
fn an_unregistered_provider_is_a_build_error_listing_the_registered_ones() {
    let error = Agent::builder()
        .model(ModelSpec::on("no-such-service", "m"))
        .driver("llmsim")
        .build()
        .unwrap_err();
    match error {
        Error::UnknownDriver { id, registered } => {
            assert_eq!(id, "no-such-service");
            assert!(registered.contains(&"llmsim".to_string()), "{registered:?}");
        }
        other => panic!("{other:?}"),
    }
}

/// A session in memory, with the bookkeeping of a turn.
struct Host {
    driver: SimDriver,
    log: Vec<&'static str>,
    /// The tools that ran.
    executed: Vec<String>,
    outputs: Vec<ToolOutput>,
    /// The name, the reason and the call id of each denial.
    denials: Vec<(String, String, String)>,
    /// The tool that the middleware denies.
    denied: &'static str,
    answer: Option<Message>,
    pending: Vec<ToolCall>,
    text: Option<String>,
    iterations: usize,
    tool_calls: usize,
    cancelled: bool,
    /// Whether a tool cancels its turn and then never returns.
    hangs: bool,
}

impl Host {
    fn new(turns: Vec<SimTurn>) -> Self {
        Host {
            driver: SimDriver::new(turns),
            log: vec!["turn started", "input"],
            executed: vec![],
            outputs: vec![],
            denials: vec![],
            denied: "",
            answer: None,
            pending: vec![],
            text: None,
            iterations: 0,
            tool_calls: 0,
            cancelled: false,
            hangs: false,
        }
    }

    fn record(&mut self, transitions: Vec<Transition>) {
        let kinds = kinds(&transitions);
        for (kind, transition) in kinds.into_iter().zip(transitions) {
            self.log.push(kind);
            match transition {
                Transition::ReasonCompleted => {
                    let message = self.answer.take().unwrap();
                    self.text = message.tool_calls.is_empty().then_some(message.text());
                    self.pending = message.tool_calls;
                }
                Transition::ToolCompleted { call_id, output } => {
                    assert_eq!(self.pending.remove(0).id, call_id);
                    self.tool_calls += 1;
                    self.outputs.push(output);
                }
                Transition::ToolDenied { call_id, name, reason } => {
                    self.denials.push((name, reason, call_id));
                }
                _ => {}
            }
        }
    }

    fn execute(&mut self, call: &ToolCall) -> ToolOutput {
        self.executed.push(call.name.clone());
        let number = |name: &str| match call.arguments.get(name) {
            Some(Json::Unsigned(n)) => *n,
            _ => 0,
        };
        ToolOutput::text(match call.name.as_str() {
            "add" => (number("a") + number("b")).to_string(),
            other => panic!("no tool {other}"),
        })
    }

    fn next_action(&mut self) -> TurnAction {
        if let Some(response) = self.text.take() {
            self.log.push("turn completed");
            return TurnAction::Complete(TurnOutcome::Success { response });
        }
        match self.pending.first() {
            Some(next) => TurnAction::ExecuteTool { call: next.clone() },
            None => {
                self.iterations += 1;
                TurnAction::Reason
            }
        }
    }

    fn run(&mut self) -> Result<TurnResult, Error> {
        let mut command = TurnCommand::Check;
        loop {
            let step = match command {
                TurnCommand::Check => TURN.on_checked(self.cancelled, false),
                TurnCommand::NextAction => {
                    let action = self.next_action();
                    let progress = TurnProgress {
                        turn_id: 1,
                        iterations: self.iterations,
                        tool_calls: self.tool_calls,
                        usage: Usage::new(0, 0),
                    };
                    TURN.on_action(action, &progress, 10)
                }
                TurnCommand::Reason => {
                    self.answer = Some(self.driver.complete(request()).message);
                    TURN.on_reasoned(Ok(()), String::new())
                }
                TurnCommand::Intercept(call) => {
                    let outcome = match call.name == self.denied {
                        true => ToolChainOutcome::Deny {
                            reason: format!("`{}` is not allowed", call.name),
                        },
                        false => ToolChainOutcome::Proceed {
                            call: call.clone(),
                            rewritten: false,
                        },
                    };
                    TURN.on_intercepted(call, outcome)
                }
                TurnCommand::Act(call) => match self.hangs {
                    true => {
                        self.cancelled = true;
                        TURN.on_dropped()
                    }
                    false => {
                        let output = self.execute(&call);
                        TURN.on_acted(call, output)
                    }
                },
                TurnCommand::Finish(result) => return result,
            };
            self.record(step.transitions);
            command = step.next;
        }
    }
}

#[test]
fn turn_with_tool_call() {
    let numbers = Json::Object(vec![
        ("a".to_string(), Json::Unsigned(2)),
        ("b".to_string(), Json::Unsigned(3)),
    ]);
    let mut host =
        Host::new(vec![SimTurn::tool_call("add", numbers), SimTurn::text("The sum is 5.")]);
    let turn = host.run().unwrap();
    assert_eq!(turn.response, "The sum is 5.");
    assert_eq!(turn.iterations, 2);
    assert_eq!(turn.tool_calls, 1);
    assert_eq!(
        host.log,
        vec![
            "turn started",
            "input",
            "reason started",
            "reason completed",
            "started",
            "completed",
            "reason started",
            "reason completed",
            "turn completed",
        ]
    );
    assert_eq!(host.outputs[0].content, "5");
    assert!(!host.outputs[0].is_error);
}

#[test]
fn cancelling_during_a_tool_call_drops_it_instead_of_waiting() {
    let mut host = Host::new(vec![
        SimTurn::tool_call("hang", Json::Object(vec![])),
        SimTurn::text("never reached"),
    ]);
    host.hangs = true;
    assert!(matches!(host.run(), Err(Error::Cancelled)));
    assert!(host.log.contains(&"started"));
    assert!(!host.log.contains(&"completed"), "{:?}", host.log);
    assert_eq!(host.log.last(), Some(&"cancelled"));
}

#[test]
fn pre_cancelled_token_stops_before_any_reason_call() {
    let mut host = Host::new(vec![SimTurn::text("should never run")]);
    host.cancelled = true;
    assert!(matches!(host.run(), Err(Error::Cancelled)));
    assert_eq!(host.log, vec!["turn started", "input", "cancelled"]);
    assert!(host.driver.recorded_requests().is_empty());
}

#[test]
fn denied_tool_never_executes() {
    let text = Json::Object(vec![("text".to_string(), Json::Str("should not run".to_string()))]);
    let mut host = Host::new(vec![SimTurn::tool_call("echo", text), SimTurn::text("done")]);
    host.denied = "echo";
    assert_eq!(host.run().unwrap().response, "done");
    assert!(host.log.contains(&"denied"));
    let (name, reason, call_id) = &host.denials[0];
    assert_eq!(name, "echo");
    assert!(reason.contains("not allowed"));
    assert!(!call_id.is_empty());
    // The model saw the denial as an error result, not the tool's real output.
    assert!(host.outputs[0].content.contains("not allowed"));
    assert!(host.outputs[0].is_error);
    assert!(host.executed.is_empty());
}

#[test]
fn bundled_services_need_no_wiring() {
    let agent = AgentBuilder::new().model(ModelSpec::on("anthropic", "m")).build().unwrap();
    assert_eq!(agent.name(), "agent");
    assert!(agent.capabilities().is_empty());
    let mut drivers = vec!["anthropic".to_string()];
    register_bundled_drivers(&mut drivers);
    assert_eq!(drivers, vec!["anthropic", "openai"]);
    assert!(find_driver(&drivers, "openai").is_ok());
    assert!(find_driver(&drivers, "other").is_err());
}

#[test]
fn the_first_capability_that_takes_a_command_wins() {
    let session = Session {
        commands: vec![
            vec!["help".to_string()],
            vec!["clear".to_string(), "help".to_string()],
        ],
    };
    assert_eq!(session.commands(), vec!["help", "clear", "help"]);
    assert_eq!(session.execute_command("help", 0), CommandStep::Try(0));
    assert_eq!(session.execute_command("help", 1), CommandStep::Try(1));
    assert_eq!(session.execute_command("clear", 0), CommandStep::Try(1));
    match session.execute_command("help", 2) {
        CommandStep::Done(output) => {
            assert!(output.is_error);
            assert_eq!(output.content, "unknown command `/help`");
        }
        other => panic!("{other:?}"),
    }
}
