//! Hooks that a user writes as shell commands: what they are given, how long
//! they may take and how much they may say, and what their answer means.

use vstd::prelude::*;

use crate::json::{Json, JsonView};
use crate::text::{byte_len, byte_len_of, cat2, cat3, decimal, decimal_of, lossy_text, opt_text,
    same, starts_with, text_pairs, trim, trimmed, utf8_lossy};

verus! {

/// How long a hook may take unless told otherwise, in nanoseconds.
pub const DEFAULT_TIMEOUT: u128 = 5_000_000_000;

/// The least time that a hook can be given.
pub const MIN_TIMEOUT: u128 = 100_000_000;

/// The most time that a hook can be given.
pub const MAX_TIMEOUT: u128 = 30_000_000_000;

/// How many bytes a hook may print.
pub const MAX_OUTPUT_BYTES: usize = 65536;

/// How many bytes the command of a hook may have.
pub const MAX_COMMAND_BYTES: usize = 16384;

/// How many variables a hook may set.
pub const MAX_ENV_VARS: usize = 16;

/// When a hook runs.
#[derive(Debug, Clone, Copy, PartialEq, Eq, Structural)]
pub enum HookEvent {
    SessionStart,
    UserPromptSubmit,
    PreToolUse,
    PostToolUse,
    TurnEnd,
    SessionEnd,
}

/// The name of an event.
pub open spec fn event_name(event: HookEvent) -> Seq<char> {
    match event {
        HookEvent::SessionStart => "session_start"@,
        HookEvent::UserPromptSubmit => "user_prompt_submit"@,
        HookEvent::PreToolUse => "pre_tool_use"@,
        HookEvent::PostToolUse => "post_tool_use"@,
        HookEvent::TurnEnd => "turn_end"@,
        HookEvent::SessionEnd => "session_end"@,
    }
}

impl HookEvent {
    /// The name of the event.
    pub fn as_str(self) -> (r: &'static str)
        ensures
            r@ == event_name(self),
    {
        match self {
            HookEvent::SessionStart => "session_start",
            HookEvent::UserPromptSubmit => "user_prompt_submit",
            HookEvent::PreToolUse => "pre_tool_use",
            HookEvent::PostToolUse => "post_tool_use",
            HookEvent::TurnEnd => "turn_end",
            HookEvent::SessionEnd => "session_end",
        }
    }
}

/// What the failure of a hook means for what it intercepts.
#[derive(Debug, Clone, Copy, PartialEq, Eq, Structural)]
pub enum HookErrorPolicy {
    /// It goes on, with a warning.
    Warn,
    /// It is stopped.
    Block,
}

/// Which tool calls a hook is for.
#[derive(Debug, PartialEq, Eq)]
pub struct HookMatcher {
    pub tool_name: Option<String>,
}

/// What a hook decides.
#[allow(inconsistent_fields)]
#[derive(Debug, PartialEq, Eq)]
pub enum HookOutcome {
    Allow,
    Block { reason: String, user_message: Option<String> },
    Mutate { patch: Json, reason: Option<String> },
    Error { message: String },
}

/// The content of a [`HookOutcome`].
#[allow(inconsistent_fields)]
pub ghost enum OutcomeView {
    Allow,
    Block { reason: Seq<char>, user_message: Option<Seq<char>> },
    Mutate { patch: JsonView, reason: Option<Seq<char>> },
    Error { message: Seq<char> },
}

impl View for HookOutcome {
    type V = OutcomeView;

    open spec fn view(&self) -> OutcomeView {
        match *self {
            HookOutcome::Allow => OutcomeView::Allow,
            HookOutcome::Block { reason, user_message } => OutcomeView::Block {
                reason: reason@,
                user_message: opt_text(user_message),
            },
            HookOutcome::Mutate { patch, reason } => OutcomeView::Mutate {
                patch: patch@,
                reason: opt_text(reason),
            },
            HookOutcome::Error { message } => OutcomeView::Error { message: message@ },
        }
    }
}

/// What a hook is told.
#[derive(Debug)]
pub struct HookPayload {
    pub event: HookEvent,
    pub hook_id: String,
    pub session_id: String,
    pub turn_id: Option<String>,
    pub data: Json,
}

/// A hook that the shell runs.
#[derive(Debug)]
pub struct ShellHook {
    pub id: String,
    pub event: HookEvent,
    pub command: String,
    /// Each variable is there once.
    pub env: Vec<(String, String)>,
    pub matcher: Option<HookMatcher>,
    /// In nanoseconds.
    pub timeout: u128,
    pub on_error: HookErrorPolicy,
}

/// The variables with one set: replaced where it was, or added.
pub open spec fn env_with(
    env: Seq<(Seq<char>, Seq<char>)>,
    name: Seq<char>,
    value: Seq<char>,
) -> Seq<(Seq<char>, Seq<char>)>
    decreases env.len(),
{
    if env.len() == 0 {
        seq![(name, value)]
    } else if env[0].0 == name {
        seq![(name, value)] + env.drop_first()
    } else {
        seq![env[0]] + env_with(env.drop_first(), name, value)
    }
}

proof fn lemma_env_with_at(
    env: Seq<(Seq<char>, Seq<char>)>,
    name: Seq<char>,
    value: Seq<char>,
    i: int,
)
    requires
        0 <= i <= env.len(),
        forall|k: int| 0 <= k < i ==> (#[trigger] env[k]).0 != name,
    ensures
        i < env.len() && env[i].0 == name ==> env_with(env, name, value) == env.update(
            i,
            (name, value),
        ),
        i == env.len() ==> env_with(env, name, value) == env.push((name, value)),
    decreases env.len(),
{
    if i > 0 {
        assert(env[0].0 != name);
        lemma_env_with_at(env.drop_first(), name, value, i - 1);
        if i < env.len() && env[i].0 == name {
            assert(env_with(env, name, value) =~= env.update(i, (name, value)));
        }
        if i == env.len() {
            assert(env_with(env, name, value) =~= env.push((name, value)));
        }
    } else if env.len() == 0 {
        assert(env_with(env, name, value) =~= env.push((name, value)));
    } else if env[0].0 == name {
        assert(env_with(env, name, value) =~= env.update(0, (name, value)));
    }
}

/// A time within the bounds that a hook can be given.
pub open spec fn clamped(timeout: u128) -> u128 {
    if timeout < MIN_TIMEOUT {
        MIN_TIMEOUT
    } else if timeout > MAX_TIMEOUT {
        MAX_TIMEOUT
    } else {
        timeout
    }
}

/// Why a hook is not run at all.
pub open spec fn refusal(command: Seq<char>, variables: nat) -> Option<Seq<char>> {
    if byte_len(command) > MAX_COMMAND_BYTES {
        Some("hook command exceeded 16 KiB"@)
    } else if variables > MAX_ENV_VARS {
        Some("hook environment exceeded 16 variables"@)
    } else {
        None
    }
}

/// The text of a member, empty when it is none.
pub open spec fn text_or_empty(v: JsonView, key: Seq<char>) -> Seq<char> {
    match v.at(key).text() {
        Some(text) => text,
        None => Seq::empty(),
    }
}

/// The variables that a hook's command sees, after those of the host: its own,
/// and those that tell it what it runs for.
pub open spec fn environment_view(
    env: Seq<(Seq<char>, Seq<char>)>,
    payload: HookPayload,
    encoded: Seq<char>,
) -> Seq<(Seq<char>, Seq<char>)> {
    env + seq![
        ("AGENTYK_HOOK_PAYLOAD_JSON"@, encoded),
        ("AGENTYK_HOOK_EVENT"@, event_name(payload.event)),
        ("AGENTYK_HOOK_ID"@, payload.hook_id@),
        ("AGENTYK_HOOK_SESSION_ID"@, payload.session_id@),
        (
            "AGENTYK_HOOK_TURN_ID"@,
            match opt_text(payload.turn_id) {
                Some(id) => id,
                None => Seq::empty(),
            },
        ),
        ("AGENTYK_HOOK_TOOL_NAME"@, text_or_empty(payload.data@, "tool_name"@)),
        ("AGENTYK_HOOK_TOOL_CALL_ID"@, text_or_empty(payload.data@, "tool_call_id"@)),
    ]
}

fn member_text(v: &Json, key: &str) -> (r: String)
    ensures
        r@ == text_or_empty(v@, key@),
{
    match v.get_str(key) {
        Some(s) => s.to_owned(),
        None => String::new(),
    }
}

/// How the command of a hook ended.
#[derive(Debug)]
pub enum HookRun {
    /// It could not be run, or not be talked to.
    Failed(String),
    /// It took too long.
    TimedOut,
    /// It came to an end, having printed this.
    Finished { success: bool, stdout: Vec<u8>, stderr: Vec<u8> },
}

/// What the answer of a hook means.
#[derive(Debug)]
pub enum HookAnswer {
    /// This was decided.
    Decided(HookOutcome),
    /// This text states the decision.
    Stated(String),
}

/// What the answer of a hook means.
pub ghost enum AnswerView {
    Decided(OutcomeView),
    Stated(Seq<char>),
}

impl View for HookAnswer {
    type V = AnswerView;

    open spec fn view(&self) -> AnswerView {
        match *self {
            HookAnswer::Decided(outcome) => AnswerView::Decided(outcome@),
            HookAnswer::Stated(text) => AnswerView::Stated(text@),
        }
    }
}

/// What a hook that ended says: nothing means to allow or, if it failed, to
/// block; anything else must be a JSON object that states the decision.
pub open spec fn output_meaning(success: bool, stdout: Seq<char>, stderr: Seq<char>) -> AnswerView {
    if stdout.len() == 0 {
        AnswerView::Decided(
            if success {
                OutcomeView::Allow
            } else {
                OutcomeView::Block {
                    reason: if stderr.len() == 0 {
                        "hook exited unsuccessfully"@
                    } else {
                        stderr
                    },
                    user_message: None,
                }
            },
        )
    } else if stdout[0] != '{' {
        AnswerView::Decided(
            OutcomeView::Error { message: "hook stdout is not a JSON decision"@ },
        )
    } else {
        AnswerView::Stated(stdout)
    }
}

/// What a hook that ended says.
pub fn parse_output(success: bool, stdout: &str, stderr: &str) -> (r: HookAnswer)
    ensures
        r@ == output_meaning(success, stdout@, stderr@),
{
    if stdout.is_empty() {
        if success {
            return HookAnswer::Decided(HookOutcome::Allow);
        }
        let reason = if stderr.is_empty() {
            "hook exited unsuccessfully".to_owned()
        } else {
            stderr.to_owned()
        };
        return HookAnswer::Decided(HookOutcome::Block { reason, user_message: None });
    }
    let opens = starts_with(stdout, "{");
    proof {
        reveal_strlit("{");
        if stdout@[0] == '{' {
            assert("{"@ =~= stdout@.take(1));
        }
        if opens {
            assert("{"@[0] == stdout@[0]);
        }
    }
    if !opens {
        return HookAnswer::Decided(
            HookOutcome::Error { message: "hook stdout is not a JSON decision".to_owned() },
        );
    }
    HookAnswer::Stated(stdout.to_owned())
}

/// What a stated decision comes to: one that cannot be read is an error.
pub fn stated_decision(decoded: Result<HookOutcome, String>) -> (r: HookOutcome)
    ensures
        match decoded {
            Ok(outcome) => r == outcome,
            Err(detail) => r@ == (OutcomeView::Error {
                message: "hook stdout JSON is invalid: "@ + detail@,
            }),
        },
{
    match decoded {
        Ok(outcome) => outcome,
        Err(detail) => HookOutcome::Error {
            message: cat2("hook stdout JSON is invalid: ", detail.as_str()),
        },
    }
}

/// The first of the bytes that are kept of an output: one more than may be
/// printed, which is enough to tell that it was too much.
pub open spec fn kept_of(bytes: Seq<u8>) -> Seq<u8> {
    if bytes.len() > MAX_OUTPUT_BYTES + 1 {
        bytes.take(MAX_OUTPUT_BYTES + 1)
    } else {
        bytes
    }
}

/// Keep the next bytes of an output, up to the limit.
pub fn keep_bounded(kept: &mut Vec<u8>, chunk: &[u8])
    requires
        old(kept)@.len() <= MAX_OUTPUT_BYTES + 1,
    ensures
        final(kept)@ == kept_of(old(kept)@ + chunk@),
{
    let ghost start = kept@;
    let mut i: usize = 0;
    while i < chunk.len() && kept.len() < MAX_OUTPUT_BYTES + 1
        invariant
            i <= chunk@.len(),
            kept@.len() <= MAX_OUTPUT_BYTES + 1,
            kept@ == start + chunk@.take(i as int),
        decreases chunk.len() - i,
    {
        kept.push(chunk[i]);
        i += 1;
        assert(kept@ =~= start + chunk@.take(i as int));
    }
    let ghost all = start + chunk@;
    assert(kept@ =~= all.take(kept@.len() as int));
    assert(i == chunk@.len() ==> kept@ =~= all);
}

/// What is kept does not depend on how an output was cut into chunks.
pub proof fn keeping_ignores_chunks(a: Seq<u8>, b: Seq<u8>, c: Seq<u8>)
    ensures
        kept_of(kept_of(a + b) + c) == kept_of(a + b + c),
{
    assert(kept_of(kept_of(a + b) + c) =~= kept_of(a + b + c));
}

/// What the run of a hook means.
pub open spec fn run_meaning(timeout: u128, run: HookRun) -> AnswerView {
    match run {
        HookRun::Failed(message) => AnswerView::Decided(
            OutcomeView::Error { message: message@ },
        ),
        HookRun::TimedOut => AnswerView::Decided(
            OutcomeView::Error {
                message: "hook timed out after "@ + decimal((timeout / 1_000_000) as nat) + " ms"@,
            },
        ),
        HookRun::Finished { success, stdout, stderr } => if stdout@.len() + stderr@.len()
            > MAX_OUTPUT_BYTES {
            AnswerView::Decided(OutcomeView::Error { message: "hook output exceeded 64 KiB"@ })
        } else {
            output_meaning(
                success,
                trimmed(utf8_lossy(stdout@)),
                trimmed(utf8_lossy(stderr@)),
            )
        },
    }
}

impl ShellHook {
    /// The time given is within its bounds.
    pub open spec fn wf(&self) -> bool {
        MIN_TIMEOUT <= self.timeout <= MAX_TIMEOUT
    }

    /// A hook that may take five seconds and whose failure is a warning.
    pub fn new(id: &str, event: HookEvent, command: &str) -> (r: Self)
        ensures
            r.wf(),
            r.id@ == id@,
            r.event == event,
            r.command@ == command@,
            text_pairs(r.env@) == Seq::<(Seq<char>, Seq<char>)>::empty(),
            r.matcher is None,
            r.timeout == DEFAULT_TIMEOUT,
            r.on_error == HookErrorPolicy::Warn,
    {
        let env: Vec<(String, String)> = Vec::new();
        assert(text_pairs(env@) =~= Seq::<(Seq<char>, Seq<char>)>::empty());
        ShellHook {
            id: id.to_owned(),
            event,
            command: command.to_owned(),
            env,
            matcher: None,
            timeout: DEFAULT_TIMEOUT,
            on_error: HookErrorPolicy::Warn,
        }
    }

    /// Restrict the hook to some tool calls.
    pub fn matcher(self, matcher: HookMatcher) -> (r: Self)
        ensures
            r == (ShellHook { matcher: Some(matcher), ..self }),
    {
        let mut r = self;
        r.matcher = Some(matcher);
        r
    }

    /// Set a variable that the command sees.
    pub fn env(self, name: &str, value: &str) -> (r: Self)
        ensures
            r == (ShellHook { env: r.env, ..self }),
            text_pairs(r.env@) == env_with(text_pairs(self.env@), name@, value@),
    {
        let mut r = self;
        let ghost before = text_pairs(r.env@);
        let mut i: usize = 0;
        while i < r.env.len()
            invariant
                i <= r.env@.len(),
                r == self,
                before == text_pairs(r.env@),
                forall|k: int| 0 <= k < i ==> (#[trigger] before[k]).0 != name@,
            decreases r.env.len() - i,
        {
            if same(r.env[i].0.as_str(), name) {
                proof {
                    lemma_env_with_at(before, name@, value@, i as int);
                }
                r.env.set(i, (name.to_owned(), value.to_owned()));
                assert(text_pairs(r.env@) =~= before.update(i as int, (name@, value@)));
                return r;
            }
            i += 1;
        }
        proof {
            lemma_env_with_at(before, name@, value@, i as int);
        }
        r.env.push((name.to_owned(), value.to_owned()));
        assert(text_pairs(r.env@) =~= before.push((name@, value@)));
        r
    }

    /// How long the command may take, within 100 ms and 30 seconds.
    pub fn timeout(self, timeout: u128) -> (r: Self)
        ensures
            r.wf(),
            r == (ShellHook { timeout: clamped(timeout), ..self }),
    {
        let mut r = self;
        r.timeout = if timeout < MIN_TIMEOUT {
            MIN_TIMEOUT
        } else if timeout > MAX_TIMEOUT {
            MAX_TIMEOUT
        } else {
            timeout
        };
        r
    }

    /// What a failure of the hook means.
    pub fn on_error(self, policy: HookErrorPolicy) -> (r: Self)
        ensures
            r == (ShellHook { on_error: policy, ..self }),
    {
        let mut r = self;
        r.on_error = policy;
        r
    }

    /// Why the hook is not run at all, if it is not.
    pub fn refused(&self) -> (r: Option<HookOutcome>)
        ensures
            match refusal(self.command@, self.env@.len()) {
                Some(message) => r matches Some(outcome) && outcome@ == (OutcomeView::Error {
                    message,
                }),
                None => r is None,
            },
    {
        if byte_len_of(self.command.as_str()) > MAX_COMMAND_BYTES {
            return Some(
                HookOutcome::Error { message: "hook command exceeded 16 KiB".to_owned() },
            );
        }
        if self.env.len() > MAX_ENV_VARS {
            return Some(
                HookOutcome::Error {
                    message: "hook environment exceeded 16 variables".to_owned(),
                },
            );
        }
        None
    }

    /// The variables that the command sees.
    pub fn environment(&self, payload: &HookPayload, encoded: &str) -> (r: Vec<(String, String)>)
        ensures
            text_pairs(r@) == environment_view(text_pairs(self.env@), *payload, encoded@),
    {
        let mut env = crate::text::clone_pairs(&self.env);
        let ghost own = env@;
        let turn = match &payload.turn_id {
            Some(id) => id.clone(),
            None => String::new(),
        };
        let mut told = vec![
            ("AGENTYK_HOOK_PAYLOAD_JSON".to_owned(), encoded.to_owned()),
            ("AGENTYK_HOOK_EVENT".to_owned(), payload.event.as_str().to_owned()),
            ("AGENTYK_HOOK_ID".to_owned(), payload.hook_id.clone()),
            ("AGENTYK_HOOK_SESSION_ID".to_owned(), payload.session_id.clone()),
            ("AGENTYK_HOOK_TURN_ID".to_owned(), turn),
            ("AGENTYK_HOOK_TOOL_NAME".to_owned(), member_text(&payload.data, "tool_name")),
            ("AGENTYK_HOOK_TOOL_CALL_ID".to_owned(), member_text(&payload.data, "tool_call_id")),
        ];
        let ghost added = told@;
        env.append(&mut told);
        assert(text_pairs(env@) =~= text_pairs(own) + text_pairs(added));
        assert(text_pairs(env@) =~= environment_view(text_pairs(self.env@), *payload, encoded@));
        env
    }

    /// What the run of the hook means.
    pub fn conclude(&self, run: HookRun) -> (r: HookAnswer)
        requires
            self.wf(),
        ensures
            r@ == run_meaning(self.timeout, run),
    {
        match run {
            HookRun::Failed(message) => HookAnswer::Decided(HookOutcome::Error { message }),
            HookRun::TimedOut => {
                let ms = decimal_of((self.timeout / 1_000_000) as u64);
                HookAnswer::Decided(
                    HookOutcome::Error { message: cat3("hook timed out after ", ms.as_str(), " ms") },
                )
            },
            HookRun::Finished { success, stdout, stderr } => {
                if stdout.len() > MAX_OUTPUT_BYTES || stderr.len() > MAX_OUTPUT_BYTES
                    - stdout.len() {
                    return HookAnswer::Decided(
                        HookOutcome::Error { message: "hook output exceeded 64 KiB".to_owned() },
                    );
                }
                let stdout = lossy_text(&stdout);
                let stderr = lossy_text(&stderr);
                let said = trim(stdout.as_str());
                let complained = trim(stderr.as_str());
                parse_output(success, said.as_str(), complained.as_str())
            },
        }
    }
}

/// A variable that is set is there with its value; every other one stays as
/// it was, where it was, and a new one comes last.
pub proof fn a_variable_is_set(
    env: Seq<(Seq<char>, Seq<char>)>,
    name: Seq<char>,
    value: Seq<char>,
)
    ensures
        env_with(env, name, value).contains((name, value)),
        forall|k: int|
            0 <= k < env.len() && (#[trigger] env[k]).0 != name ==> env_with(env, name, value)[k]
                == env[k],
        (exists|k: int| 0 <= k < env.len() && (#[trigger] env[k]).0 == name) ==> env_with(
            env,
            name,
            value,
        ).len() == env.len(),
        (forall|k: int| 0 <= k < env.len() ==> (#[trigger] env[k]).0 != name) ==> env_with(
            env,
            name,
            value,
        ) == env.push((name, value)),
    decreases env.len(),
{
    let set = env_with(env, name, value);
    if env.len() == 0 {
        assert(set =~= env.push((name, value)));
        assert(set[0] == (name, value));
    } else if env[0].0 == name {
        assert(set[0] == (name, value));
    } else {
        let rest = env.drop_first();
        a_variable_is_set(rest, name, value);
        let after = env_with(rest, name, value);
        let i = choose|i: int| 0 <= i < after.len() && after[i] == (name, value);
        assert(set[i + 1] == (name, value));
        assert forall|k: int| 0 <= k < env.len() && (#[trigger] env[k]).0 != name implies set[k]
            == env[k] by {
            if k > 0 {
                assert(rest[k - 1] == env[k]);
            }
        }
        if exists|k: int| 0 <= k < env.len() && (#[trigger] env[k]).0 == name {
            let k = choose|k: int| 0 <= k < env.len() && (#[trigger] env[k]).0 == name;
            assert(rest[k - 1].0 == name);
        } else {
            assert forall|k: int| 0 <= k < rest.len() implies (#[trigger] rest[k]).0 != name by {
                assert(env[k + 1] == rest[k]);
            }
            assert(set =~= env.push((name, value)));
        }
    }
}

/// A hook is given the time that was asked for, but never less than a tenth of
/// a second nor more than thirty seconds.
pub proof fn times_are_kept_within_bounds(timeout: u128)
    ensures
        100_000_000 <= clamped(timeout) <= 30_000_000_000,
        100_000_000 <= timeout <= 30_000_000_000 ==> clamped(timeout) == timeout,
        timeout < 100_000_000 ==> clamped(timeout) == 100_000_000,
        timeout > 30_000_000_000 ==> clamped(timeout) == 30_000_000_000,
{
}

/// A hook is run unless its command is longer than 16 KiB or it sets more than
/// sixteen variables.
pub proof fn only_oversized_hooks_are_refused(command: Seq<char>, variables: nat)
    ensures
        refusal(command, variables) is None <==> byte_len(command) <= 16384 && variables <= 16,
        byte_len(command) > 16384 ==> refusal(command, variables) == Some(
            "hook command exceeded 16 KiB"@,
        ),
        byte_len(command) <= 16384 && variables > 16 ==> refusal(command, variables) == Some(
            "hook environment exceeded 16 variables"@,
        ),
{
}

/// Each event has a name of its own.
pub proof fn events_have_names_of_their_own(a: HookEvent, b: HookEvent)
    ensures
        event_name(a) == event_name(b) <==> a == b,
{
    reveal_strlit("session_start");
    reveal_strlit("user_prompt_submit");
    reveal_strlit("pre_tool_use");
    reveal_strlit("post_tool_use");
    reveal_strlit("turn_end");
    reveal_strlit("session_end");
    assert(event_name(HookEvent::SessionStart).len() == 13);
    assert(event_name(HookEvent::UserPromptSubmit).len() == 18);
    assert(event_name(HookEvent::PreToolUse).len() == 12);
    assert(event_name(HookEvent::PostToolUse)[0] == 'p');
    assert(event_name(HookEvent::PostToolUse).len() == 13);
    assert(event_name(HookEvent::SessionStart)[0] == 's');
    assert(event_name(HookEvent::TurnEnd).len() == 8);
    assert(event_name(HookEvent::SessionEnd).len() == 11);
}

/// A command sees the variables of its hook, and behind them what it runs for:
/// the payload, the event, the hook, the session and, where there are any, the
/// turn, the tool and the call.
pub proof fn a_command_is_told_what_it_runs_for(
    env: Seq<(Seq<char>, Seq<char>)>,
    payload: HookPayload,
    encoded: Seq<char>,
)
    ensures
        ({
            let all = environment_view(env, payload, encoded);
            let n = env.len() as int;
            &&& all.take(n) == env
            &&& all.len() == n + 7
            &&& all[n] == ("AGENTYK_HOOK_PAYLOAD_JSON"@, encoded)
            &&& all[n + 1] == ("AGENTYK_HOOK_EVENT"@, event_name(payload.event))
            &&& all[n + 2] == ("AGENTYK_HOOK_ID"@, payload.hook_id@)
            &&& all[n + 3] == ("AGENTYK_HOOK_SESSION_ID"@, payload.session_id@)
            &&& all[n + 4].0 == "AGENTYK_HOOK_TURN_ID"@
            &&& payload.turn_id matches Some(id) ==> all[n + 4].1 == id@
            &&& payload.turn_id is None ==> all[n + 4].1.len() == 0
            &&& all[n + 5].0 == "AGENTYK_HOOK_TOOL_NAME"@
            &&& payload.data@.at("tool_name"@) matches JsonView::Str(name) ==> all[n + 5].1
                == name
            &&& payload.data@.at("tool_name"@) !is Str ==> all[n + 5].1.len() == 0
            &&& all[n + 6].0 == "AGENTYK_HOOK_TOOL_CALL_ID"@
            &&& payload.data@.at("tool_call_id"@) matches JsonView::Str(id) ==> all[n + 6].1 == id
            &&& payload.data@.at("tool_call_id"@) !is Str ==> all[n + 6].1.len() == 0
        }),
{
    assert(environment_view(env, payload, encoded).take(env.len() as int) =~= env);
}

/// A hook that says nothing allows where it succeeded and blocks where it
/// failed, with the reason that it complained of; one that prints an object
/// states its decision, however it ended; anything else is an error.
pub proof fn silence_is_decided_by_the_exit(success: bool, stdout: Seq<char>, stderr: Seq<char>)
    ensures
        stdout.len() == 0 && success ==> output_meaning(success, stdout, stderr)
            == AnswerView::Decided(OutcomeView::Allow),
        stdout.len() == 0 && !success ==> (output_meaning(success, stdout, stderr) matches AnswerView::Decided(
            OutcomeView::Block { reason, user_message },
        ) && reason.len() > 0 && user_message is None && (stderr.len() > 0 ==> reason == stderr)),
        stdout.len() > 0 && stdout[0] == '{' ==> output_meaning(success, stdout, stderr)
            == AnswerView::Stated(stdout),
        stdout.len() > 0 && stdout[0] != '{' ==> output_meaning(
            success,
            stdout,
            stderr,
        ) == AnswerView::Decided(
            OutcomeView::Error { message: "hook stdout is not a JSON decision"@ },
        ),
{
    reveal_strlit("hook exited unsuccessfully");
}

/// A run that failed is an error with its message, one that took too long says
/// after how many milliseconds, and one that printed more than 64 KiB is an
/// error whatever it printed. Otherwise what it printed decides, without the
/// white space around it.
pub proof fn only_a_run_that_ended_decides(timeout: u128, run: HookRun)
    ensures
        run matches HookRun::Failed(message) ==> run_meaning(timeout, run) == AnswerView::Decided(
            OutcomeView::Error { message: message@ },
        ),
        run is TimedOut ==> (run_meaning(timeout, run) matches AnswerView::Decided(
            OutcomeView::Error { message },
        ) && message == "hook timed out after "@ + decimal((timeout / 1_000_000) as nat)
            + " ms"@),
        run matches HookRun::Finished { success, stdout, stderr } ==> if stdout@.len()
            + stderr@.len() > 65536 {
            run_meaning(timeout, run) == AnswerView::Decided(
                OutcomeView::Error { message: "hook output exceeded 64 KiB"@ },
            )
        } else {
            run_meaning(timeout, run) == output_meaning(
                success,
                trimmed(utf8_lossy(stdout@)),
                trimmed(utf8_lossy(stderr@)),
            )
        },
{
}

/// What is kept of an output is its beginning, and all of it unless it is more
/// than may be printed.
pub proof fn the_beginning_is_kept(bytes: Seq<u8>)
    ensures
        kept_of(bytes).is_prefix_of(bytes),
        bytes.len() <= 65537 ==> kept_of(bytes) == bytes,
        bytes.len() > 65537 ==> kept_of(bytes).len() == 65537,
{
}

} // verus!
