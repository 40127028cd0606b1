use agentyk::evals::cases::{
    coding, long_report, offline_contract, session_efficiency, tool_policy,
};
use agentyk::evals::harness::{
    buffered_delta, command_of, command_output, conclude, fresh_tokens, is_read_back, key_name,
    model_spec, print_outputs, provider, run_command_tool, script, truncate, wrap, CommandRun,
    DenyMiddleware, Harness, Protocol, Target, ToolCallDecision, Wrapped, MAX_FILE,
    MAX_TOOL_OUTPUT,
};
use agentyk::evals::observation::{
    infra_failure, transcript_of, Collected, ErrorKind, EvalEvent, Recorder, StepSource, Tally,
    Transcript,
};
use agentyk::evals::scorers::{
    budgets, checks, contains_any, missing_from, present_in, tool_discipline,
    trajectory_is_joinable,
};
use agentyk::evals::Sample;
use agentyk::in_process::TurnResult;
use agentyk::json::Json;
use agentyk::message::{Message, ModelSpec, ToolCall, Usage};

/// A JSON text as a value of the library.
fn json(text: &str) -> Json {
    convert(&serde_json::from_str(text).unwrap())
}

fn convert(value: &serde_json::Value) -> Json {
    match value {
        serde_json::Value::Null => Json::Null,
        serde_json::Value::Bool(b) => Json::Bool(*b),
        serde_json::Value::Number(n) => match (n.as_u64(), n.as_i64()) {
            (Some(u), _) => Json::Unsigned(u),
            (None, Some(i)) => Json::Signed(i),
            (None, None) => Json::Float(n.to_string()),
        },
        serde_json::Value::String(s) => Json::Str(s.clone()),
        serde_json::Value::Array(items) => Json::Array(items.iter().map(convert).collect()),
        serde_json::Value::Object(members) => Json::Object(
            members.iter().map(|(k, v)| (k.clone(), convert(v))).collect(),
        ),
    }
}

#[test]
fn a_harness_is_resolved_from_what_the_case_asks() {
    let plain = Harness::resolve(&Sample::new("a", "b"), &None, 12);
    assert!(plain.shell);
    assert!(plain.denied.is_empty());
    assert!(!plain.buffered);
    assert_eq!(plain.max_iterations, 12);
    let sample = Sample::new("a", "b")
        .meta("shell", Json::Bool(false))
        .meta("deny", json(r#"["write_file", 3]"#))
        .meta("max_turns", json("5"));
    let harness = Harness::resolve(&sample, &Some("buffered".to_string()), 12);
    assert!(!harness.shell);
    assert_eq!(harness.denied, vec!["write_file"]);
    assert!(harness.buffered);
    assert_eq!(harness.max_iterations, 5);
    assert!(!Harness::resolve(&sample, &Some("stream".to_string()), 1).buffered);
}

fn target(provider: &str, effort: Option<&str>) -> Target {
    Target {
        provider: provider.to_string(),
        model: "m".to_string(),
        reasoning_effort: effort.map(str::to_string),
    }
}

#[test]
fn a_target_names_its_model() {
    let scripted = || ModelSpec::on("llmsim", "llmsim");
    assert_eq!(model_spec(&target("sim", None), scripted()).provider, "llmsim");
    let spec = model_spec(&target("openai", Some("none")), scripted());
    assert_eq!(spec.provider, "openai");
    assert_eq!(spec.model, "m");
    assert_eq!(spec.reasoning.unwrap().effort.as_deref(), Some("none"));
}

#[test]
fn a_service_needs_its_key() {
    assert_eq!(provider("sim", None, false).unwrap().protocol, Protocol::Scripted);
    assert_eq!(key_name("anthropic"), Some("ANTHROPIC_API_KEY"));
    assert_eq!(key_name("sim"), None);
    assert_eq!(provider("openai", None, false).unwrap_err(), "OPENAI_API_KEY is not set");
    assert_eq!(
        provider("openrouter", Some(" ".to_string()), false).unwrap_err(),
        "OPENROUTER_API_KEY is not set"
    );
    assert_eq!(
        provider("elsewhere", Some("k".to_string()), false).unwrap_err(),
        "no agentyk provider for `elsewhere`"
    );
    let spec = provider("anthropic", Some(" k".to_string()), true).unwrap();
    assert_eq!(spec.protocol, Protocol::Anthropic { max_tokens: 16_000 });
    assert_eq!(spec.base_url.as_deref(), Some("https://api.anthropic.com"));
    assert_eq!(spec.key.as_deref(), Some(" k"));
    assert!(spec.buffered);
    let spec = provider("openai", Some("k".to_string()), false).unwrap();
    assert_eq!(spec.base_url.as_deref(), Some("https://api.openai.com/v1"));
    assert_eq!(provider("sim", None, false).unwrap().base_url, None);
    let spec = provider("openrouter", Some("k".to_string()), false).unwrap();
    assert_eq!(spec.protocol, Protocol::OpenAi);
    assert_eq!(spec.base_url.as_deref(), Some("https://openrouter.ai/api/v1"));
}

#[test]
fn a_driver_is_wrapped_to_answer_at_once() {
    assert!(matches!(wrap(7, true), Wrapped::Buffered(7)));
    assert!(matches!(wrap(7, false), Wrapped::Streaming(7)));
    assert_eq!(
        buffered_delta(&Message::assistant("hi".to_string())).as_deref(),
        Some("hi")
    );
    assert_eq!(buffered_delta(&Message::assistant(String::new())), None);
}

#[test]
fn a_script_is_read_step_by_step() {
    let turns = script(&Sample::new("a", "b"));
    assert_eq!(turns.len(), 1);
    assert_eq!(turns[0].text, "(no script)");
    let sample = Sample::new("a", "b").meta(
        "script",
        json(r#"[{"tool": "t", "args": {"a": 1}}, {"tool": "u"}, {"text": "x"}, {}]"#),
    );
    let turns = script(&sample);
    assert_eq!(turns.len(), 4);
    assert_eq!(turns[0].tool_calls[0].name, "t");
    assert_eq!(turns[0].tool_calls[0].arguments, json(r#"{"a": 1}"#));
    assert_eq!(turns[1].tool_calls[0].arguments, json("{}"));
    assert_eq!(turns[2].text, "x");
    assert_eq!(turns[3].text, "(no text)");
}

#[test]
fn an_operator_declines_the_tools_it_names() {
    let gate = DenyMiddleware(vec!["write_file".to_string()]);
    assert!(matches!(
        gate.before_tool("write_file"),
        ToolCallDecision::Deny { reason } if reason == "the operator declined this call"
    ));
    assert!(matches!(gate.before_tool("read_file"), ToolCallDecision::Proceed));
    assert_eq!(gate.name(), "eval-approval");
}

#[test]
fn a_commands_outputs_are_told_as_one() {
    assert_eq!(print_outputs("out", "err"), "out\nerr");
    assert_eq!(print_outputs("out\n", "err"), "out\nerr");
    assert_eq!(print_outputs("", "err"), "err");
    assert_eq!(print_outputs("out", " \n"), "out");
    assert_eq!(print_outputs(" ", ""), "(no output)");
    let failed = conclude(false, Some(-1), "x", "");
    assert!(failed.is_error);
    assert_eq!(failed.content, "exit status Some(-1)\nx");
    assert_eq!(conclude(false, None, "x", "").content, "exit status None\nx");
    let run = CommandRun::Finished {
        success: true,
        code: Some(0),
        stdout: vec![b'a', 0xff],
        stderr: vec![],
    };
    assert_eq!(command_output(run).content, "a\u{fffd}");
    assert_eq!(command_output(CommandRun::TimedOut).content, "command timed out after 30s");
    assert_eq!(
        command_output(CommandRun::Failed("no bash".to_string())).content,
        "failed to run command: no bash"
    );
}

#[test]
fn a_command_is_required() {
    assert_eq!(command_of(&json(r#"{"command": "ls"}"#)).unwrap(), "ls");
    let missing = command_of(&json(r#"{"command": 1}"#)).unwrap_err();
    assert_eq!(missing.content, "`command` is required and must be a string");
    assert_eq!(run_command_tool().name, "run_command");
}

#[test]
fn long_text_is_cut_by_characters() {
    assert_eq!(truncate("abc".to_string(), 3), "abc");
    assert_eq!(truncate("äbcd".to_string(), 3), "äbc\n… output truncated");
    let long = "x".repeat(MAX_TOOL_OUTPUT + 1);
    let output = conclude(true, Some(0), &long, "");
    assert_eq!(output.content.chars().count(), MAX_TOOL_OUTPUT + 19);
}

#[test]
fn only_files_of_a_known_and_moderate_length_are_read_back() {
    assert!(is_read_back(Some(MAX_FILE)));
    assert!(!is_read_back(Some(MAX_FILE + 1)));
    assert!(!is_read_back(None));
}

#[test]
fn fresh_tokens_are_neither_read_from_nor_written_to_a_cache() {
    let usage = Usage::new(100, 5).with_cache(60, 30);
    assert_eq!(fresh_tokens(&usage), 10);
    assert_eq!(fresh_tokens(&Usage::new(10, 0).with_cache(60, 0)), 0);
}

fn called(id: &str, name: &str) -> ToolCall {
    ToolCall { id: id.to_string(), name: name.to_string(), arguments: json("{}") }
}

fn session() -> Vec<EvalEvent> {
    vec![
        EvalEvent::InputMessage { message: Message::user("go") },
        EvalEvent::OutputMessageCompleted {
            message: Message::assistant_with_calls(
                String::new(),
                vec![called("a", "read_file"), called("b", "write_file")],
            ),
            usage: Usage::new(10, 2).with_cache(4, 0),
        },
        EvalEvent::ToolStarted { call: called("a", "read_file") },
        EvalEvent::ToolCompleted {
            call_id: "a".to_string(),
            output: "text".to_string(),
            is_error: false,
        },
        EvalEvent::ToolStarted { call: called("b", "write_file") },
        EvalEvent::ToolDenied,
        EvalEvent::ToolCompleted {
            call_id: "b".to_string(),
            output: "declined".to_string(),
            is_error: true,
        },
        EvalEvent::OutputMessageCompleted {
            message: Message::assistant("done".to_string()),
            usage: Usage::new(20, 3),
        },
        EvalEvent::Other,
    ]
}

fn collected(events: Vec<EvalEvent>) -> Collected {
    let mut recorder = Recorder::new();
    for event in events {
        recorder.on_event(event, 5);
    }
    recorder.take()
}

#[test]
fn a_recorder_keeps_events_and_the_time_of_the_first_piece() {
    let mut recorder = Recorder::new();
    recorder.on_event(EvalEvent::OutputMessageDelta, 7);
    recorder.on_event(EvalEvent::OutputMessageDelta, 9);
    recorder.on_event(EvalEvent::Other, 9);
    let taken = recorder.take();
    assert_eq!(taken.first_delta, Some(7));
    assert_eq!(taken.events.len(), 1);
    assert!(recorder.take().events.is_empty());
    assert_eq!(recorder.name(), "agentyk-eval-recorder");
}

#[test]
fn a_session_is_counted_by_its_events() {
    let collected = collected(session());
    assert_eq!(collected.tool_names(), vec!["read_file", "write_file"]);
    assert_eq!(collected.tool_errors(), 1);
    assert_eq!(collected.denied(), 1);
}

#[test]
fn a_trajectory_joins_results_to_the_step_that_asked() {
    let steps = collected(session()).trajectory("m");
    assert_eq!(steps.len(), 3);
    let ids: Vec<u64> = steps.iter().map(|s| s.step_id).collect();
    assert_eq!(ids, vec![1, 2, 3]);
    assert_eq!(steps[0].source, StepSource::User);
    assert_eq!(steps[0].message, "go");
    assert_eq!(steps[1].model_name.as_deref(), Some("m"));
    assert_eq!(steps[1].metrics.unwrap().cached_tokens, 4);
    let results = steps[1].observation.as_ref().unwrap();
    assert_eq!(results[0].source_call_id, "a");
    assert_eq!(results[0].content, "text");
    assert_eq!(results[1].content, "error: declined");
    assert!(steps[2].observation.is_none());
    let early = collected(vec![EvalEvent::ToolCompleted {
        call_id: "x".to_string(),
        output: String::new(),
        is_error: false,
    }]);
    assert!(early.trajectory("m").is_empty());
}

fn turn(response: &str, usage: Usage) -> TurnResult {
    TurnResult { turn_id: 1, response: response.to_string(), iterations: 2, tool_calls: 1, usage }
}

#[test]
fn turns_add_up_until_one_fails() {
    let mut tally = Tally::new();
    assert!(tally.on_turn(Ok(turn("one", Usage::new(1, 2)))));
    assert!(tally.on_turn(Ok(turn("two", Usage::new(3, 4)))));
    assert!(!tally.on_turn(Err("broke".to_string())));
    assert_eq!(tally.usage, Usage::new(4, 6));
    assert_eq!(tally.iterations, 4);
    let transcript = transcript_of(tally, &collected(session()), "m", vec![], 100, 250);
    assert_eq!(transcript.final_response, "two");
    assert_eq!(transcript.tool_calls_count, 2);
    assert_eq!(transcript.tool_calls, vec!["read_file", "write_file"]);
    assert_eq!(transcript.duration_ms, 150);
    assert_eq!(transcript.error.as_deref(), Some("broke"));
    assert_eq!(transcript.error_kind, ErrorKind::Subject);
    let infra = infra_failure("no key".to_string());
    assert_eq!(infra.error_kind, ErrorKind::Infra);
    assert_eq!(infra.error.as_deref(), Some("no key"));
}

fn transcript(response: &str, files: &[(&str, &str)]) -> Transcript {
    let mut tally = Tally::new();
    tally.on_turn(Ok(turn(response, Usage::new(70, 30))));
    let files = files.iter().map(|(p, c)| (p.to_string(), c.to_string())).collect();
    transcript_of(tally, &collected(session()), "m", files, 0, 0)
}

fn reason(sample: &Sample, response: &str, files: &[(&str, &str)]) -> String {
    let score = checks(sample, &transcript(response, files));
    assert_eq!(score.scorer, "checks");
    assert_eq!(score.pass, score.reason == "every declared check held");
    score.reason
}

#[test]
fn a_case_is_checked_by_its_files_and_its_answer() {
    let none = checks(&Sample::new("a", "b"), &transcript("", &[]));
    assert!(none.pass);
    assert_eq!(none.reason, "no checks declared");
    let sample = Sample::new("a", "b").meta(
        "checks",
        json(
            r#"[
                {"file": "f", "contains": ["x"], "lacks": ["y\n"], "contains_any": ["p", "q"]},
                {"response_contains": ["7"], "response_lacks": ["no"], "response_contains_any": ["a"]}
            ]"#,
        ),
    );
    assert_eq!(reason(&sample, "7a", &[("f", "xp")]), "every declared check held");
    assert_eq!(reason(&sample, "7a", &[]), "f is missing from the workspace");
    assert_eq!(reason(&sample, "7a", &[("f", "p")]), "f lacks \"x\"");
    assert_eq!(reason(&sample, "7a", &[("f", "xpy\n")]), "f still contains \"y\\n\"");
    assert_eq!(reason(&sample, "7a", &[("f", "x")]), "f matches none of [\"p\",\"q\"]");
    assert_eq!(reason(&sample, "a", &[("f", "xp")]), "the response lacks \"7\"");
    assert_eq!(reason(&sample, "7a no", &[("f", "xp")]), "the response contains \"no\"");
    assert_eq!(reason(&sample, "7", &[("f", "xp")]), "the response matches none of [\"a\"]");
}

#[test]
fn needles_are_looked_for_in_order() {
    let list = json(r#"["a", "b", 3]"#);
    assert_eq!(missing_from("xb", Some(&list)).as_deref(), Some("a"));
    assert_eq!(missing_from("ab", Some(&list)), None);
    assert_eq!(missing_from("", None), None);
    assert_eq!(present_in("xb", Some(&list)).as_deref(), Some("b"));
    assert!(contains_any("b", &list));
    assert!(!contains_any("c", &list));
}

#[test]
fn the_choice_of_tools_is_graded() {
    let transcript = transcript("", &[]);
    let grade = |key: &str, list: &str| {
        let score = tool_discipline(&Sample::new("a", "b").meta(key, json(list)), &transcript);
        (score.pass, score.reason)
    };
    assert_eq!(
        grade("required_tools", r#"["read_file", "grep_files"]"#),
        (false, "never called `grep_files` (used [\"read_file\", \"write_file\"])".to_string())
    );
    assert_eq!(
        grade("required_any_tools", r#"["x", "y"]"#),
        (
            false,
            "called none of [\"x\", \"y\"] (used [\"read_file\", \"write_file\"])".to_string()
        )
    );
    assert!(grade("required_any_tools", r#"["x", "read_file"]"#).0);
    assert_eq!(
        grade("forbidden_tools", r#"["write_file"]"#),
        (false, "called `write_file`, which this case forbids".to_string())
    );
    assert_eq!(
        grade("forbidden_tools", r#"["run_command"]"#),
        (true, "used the intended tool surface".to_string())
    );
}

#[test]
fn tokens_are_held_to_the_budget() {
    let transcript = transcript("", &[]);
    let grade = |max: &str| {
        budgets(&Sample::new("a", "b").meta("max_tokens", json(max)), &transcript).reason
    };
    assert_eq!(grade("100"), "100 tokens (budget 100)");
    assert_eq!(grade("99"), "100 tokens exceeds the 99 budget");
    assert_eq!(grade("\"x\""), "no budget declared");
}

#[test]
fn every_call_must_carry_its_observation() {
    assert!(trajectory_is_joinable(&transcript("", &[])).pass);
    let mut events = session();
    events.remove(3);
    let tally = Tally::new();
    let score =
        trajectory_is_joinable(&transcript_of(tally, &collected(events), "m", vec![], 0, 0));
    assert!(!score.pass);
    assert_eq!(score.reason, "`read_file` has no observation joined to call a");
    let none = trajectory_is_joinable(&infra_failure("x".to_string()));
    assert_eq!(none.reason, "the subject reported no trajectory");
}

#[test]
fn every_case_is_data() {
    let ids = |samples: Vec<Sample>| -> Vec<String> {
        samples.into_iter().map(|s| s.id).collect()
    };
    assert_eq!(
        ids(coding()),
        vec!["add-function", "fix-off-by-one", "find-constant", "rename-across-files"]
    );
    assert_eq!(
        ids(tool_policy()),
        vec!["prefer-file-tools", "respects-a-declined-write", "works-without-a-shell"]
    );
    assert_eq!(ids(session_efficiency()), vec!["three-turn-session", "repeated-context"]);
    assert_eq!(
        ids(offline_contract()),
        vec!["scripted-read-then-answer", "scripted-denied-write"]
    );
    let report = long_report();
    assert_eq!(report.matches("## Section ").count(), 240);
    assert!(report.starts_with("# Quarterly report\n\n## Section 1\n\nRoutine narrative"));
    assert!(report.ends_with("STATUS: AMBER-31\n"));
    assert_eq!(session_efficiency()[1].files[0].1, report);
    assert_eq!(session_efficiency()[0].input.len(), 3);
}

#[test]
fn the_offline_cases_hold_what_they_promise() {
    let samples = offline_contract();
    let harness = Harness::resolve(&samples[1], &None, 8);
    assert_eq!(harness.denied, vec!["write_file"]);
    let turns = script(&samples[1]);
    assert_eq!(turns[0].tool_calls[0].name, "write_file");
    let score = checks(&samples[1], &transcript(&turns[1].text, &[("notes.txt", "original\n")]));
    assert!(score.pass, "{}", score.reason);
    let score = checks(&samples[0], &transcript(&script(&samples[0])[1].text, &[]));
    assert!(score.pass, "{}", score.reason);
}

#[test]
fn a_file_of_a_case_is_replaced_by_its_path() {
    let sample = Sample::new("a", "b").file("x", "1").file("y", "2").file("x", "3").tag("t");
    assert_eq!(
        sample.files,
        vec![("x".to_string(), "3".to_string()), ("y".to_string(), "2".to_string())]
    );
    assert_eq!(sample.tags, vec!["t"]);
}
