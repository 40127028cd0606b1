use agentyk::hooks::{
    keep_bounded, parse_output, stated_decision, HookAnswer, HookErrorPolicy, HookEvent,
    HookMatcher, HookOutcome, HookPayload, HookRun, ShellHook, DEFAULT_TIMEOUT, MAX_COMMAND_BYTES,
    MAX_OUTPUT_BYTES, MAX_TIMEOUT, MIN_TIMEOUT,
};
use agentyk::json::Json;

fn hook() -> ShellHook {
    ShellHook::new("gate", HookEvent::PreToolUse, "true")
}

fn finished(success: bool, stdout: &str, stderr: &str) -> HookRun {
    HookRun::Finished {
        success,
        stdout: stdout.as_bytes().to_vec(),
        stderr: stderr.as_bytes().to_vec(),
    }
}

fn decided(answer: HookAnswer) -> HookOutcome {
    match answer {
        HookAnswer::Decided(outcome) => outcome,
        other => panic!("{other:?}"),
    }
}

fn error(message: &str) -> HookOutcome {
    HookOutcome::Error { message: message.to_string() }
}

#[test]
fn silence_and_success_allow() {
    assert_eq!(decided(hook().conclude(finished(true, " \n", "noise"))), HookOutcome::Allow);
}

#[test]
fn a_nonzero_empty_decision_blocks_with_stderr() {
    assert_eq!(
        decided(hook().conclude(finished(false, "", "nope"))),
        HookOutcome::Block { reason: "nope".into(), user_message: None }
    );
    assert_eq!(
        decided(parse_output(false, "", "")),
        HookOutcome::Block { reason: "hook exited unsuccessfully".into(), user_message: None }
    );
}

#[test]
fn an_object_states_the_decision() {
    let text = r#"{"decision":"mutate","patch":{"arguments":{"text":"safe"}}}"#;
    match hook().conclude(finished(false, &format!("\n{text}\n"), "")) {
        HookAnswer::Stated(stated) => assert_eq!(stated, text),
        other => panic!("{other:?}"),
    }
    let mutate = HookOutcome::Mutate { patch: Json::Null, reason: None };
    assert_eq!(
        stated_decision(Ok(HookOutcome::Mutate { patch: Json::Null, reason: None })),
        mutate
    );
    assert_eq!(
        stated_decision(Err("missing field".to_string())),
        error("hook stdout JSON is invalid: missing field")
    );
}

#[test]
fn other_output_is_no_decision() {
    assert_eq!(
        decided(hook().conclude(finished(true, "ok", ""))),
        error("hook stdout is not a JSON decision")
    );
}

#[test]
fn a_hook_that_fails_or_takes_too_long_is_an_error() {
    assert_eq!(
        decided(hook().conclude(HookRun::Failed("could not spawn hook: no".to_string()))),
        error("could not spawn hook: no")
    );
    assert_eq!(
        decided(hook().timeout(250_000_000).conclude(HookRun::TimedOut)),
        error("hook timed out after 250 ms")
    );
}

#[test]
fn output_is_bounded() {
    let half = vec![b'x'; MAX_OUTPUT_BYTES / 2];
    let run = |stdout: Vec<u8>, stderr: Vec<u8>| HookRun::Finished { success: true, stdout, stderr };
    let mut more = half.clone();
    more.push(b'x');
    assert_eq!(
        decided(hook().conclude(run(half.clone(), more))),
        error("hook output exceeded 64 KiB")
    );
    assert_eq!(
        decided(hook().conclude(run(half.clone(), half))),
        error("hook stdout is not a JSON decision")
    );
    let mut kept: Vec<u8> = Vec::new();
    keep_bounded(&mut kept, &vec![1; MAX_OUTPUT_BYTES]);
    keep_bounded(&mut kept, &vec![2; 10]);
    assert_eq!(kept.len(), MAX_OUTPUT_BYTES + 1);
    assert_eq!(kept[MAX_OUTPUT_BYTES], 2);
}

#[test]
fn output_that_is_no_text_is_read_all_the_same() {
    let run = HookRun::Finished { success: false, stdout: vec![], stderr: vec![b'a', 0xff] };
    assert_eq!(
        decided(hook().conclude(run)),
        HookOutcome::Block { reason: "a\u{fffd}".into(), user_message: None }
    );
}

#[test]
fn timeouts_are_clamped() {
    assert_eq!(hook().timeout, DEFAULT_TIMEOUT);
    assert_eq!(hook().timeout(0).timeout, MIN_TIMEOUT);
    assert_eq!(hook().timeout(u128::MAX).timeout, MAX_TIMEOUT);
    assert_eq!(hook().timeout(MIN_TIMEOUT + 1).timeout, MIN_TIMEOUT + 1);
}

#[test]
fn oversized_hooks_are_refused() {
    assert!(hook().refused().is_none());
    let long = ShellHook::new("x", HookEvent::TurnEnd, &"y".repeat(MAX_COMMAND_BYTES + 1));
    assert_eq!(long.refused(), Some(error("hook command exceeded 16 KiB")));
    let mut many = hook();
    for i in 0..17 {
        many = many.env(&format!("V{i}"), "1");
    }
    assert!(many.refused().is_some());
}

#[test]
fn a_hook_sees_its_payload_in_the_environment() {
    let payload = HookPayload {
        event: HookEvent::PreToolUse,
        hook_id: "gate".to_string(),
        session_id: "s".to_string(),
        turn_id: None,
        data: Json::object2(
            "tool_name",
            Json::text("echo"),
            "tool_call_id",
            Json::text("call_1"),
        ),
    };
    let env = hook().env("A", "1").env("A", "2").environment(&payload, "{}");
    let find = |name: &str| {
        env.iter().rev().find(|(key, _)| key == name).map(|(_, value)| value.as_str())
    };
    assert_eq!(find("A"), Some("2"));
    assert_eq!(find("AGENTYK_HOOK_EVENT"), Some("pre_tool_use"));
    assert_eq!(find("AGENTYK_HOOK_PAYLOAD_JSON"), Some("{}"));
    assert_eq!(find("AGENTYK_HOOK_TOOL_NAME"), Some("echo"));
    assert_eq!(find("AGENTYK_HOOK_TOOL_CALL_ID"), Some("call_1"));
    assert_eq!(find("AGENTYK_HOOK_TURN_ID"), Some(""));
}

#[test]
fn hooks_are_composed_by_value() {
    let hook = hook()
        .matcher(HookMatcher { tool_name: Some("echo".to_string()) })
        .on_error(HookErrorPolicy::Block);
    assert_eq!(hook.on_error, HookErrorPolicy::Block);
    assert_eq!(hook.matcher.unwrap().tool_name.as_deref(), Some("echo"));
}
