//! The agent under test: one session per case, wired alike but for the few
//! knobs that a case may turn.

use vstd::prelude::*;

use crate::drivers::anthropic::ANTHROPIC_BASE_URL;
use crate::drivers::openai::OPENAI_BASE_URL;
use crate::drivers::openrouter::OPENROUTER_BASE_URL;
use crate::drivers::sim::SimTurn;
use crate::evals::Sample;
use crate::json::{empty_object, items_view, jempty, jstr, strings_in, strings_of, Json, JsonView};
use crate::message::{error_output, text_of, text_output, Message, ModelSpec, OutputView,
    ToolDefinition, ToolOutput, Usage};
use crate::text::{cat2, cat3, cat4, chars_of, decimal_int, decimal_of_i64, ends_with, lists,
    lossy_text, opt_text, same, string_of, texts, trim, trimmed, utf8_lossy};

verus! {

/// How much of a command's output goes back to the model.
pub const MAX_TOOL_OUTPUT: usize = 8_000;

/// How long a command may run, in seconds.
pub const COMMAND_TIMEOUT_SECS: u64 = 30;

/// The longest file, in bytes, that is read back from a workspace.
pub const MAX_FILE: u64 = 65_536;

/// What the agent under test is told.
pub const SYSTEM_PROMPT: &'static str = "You are a terse coding agent working in a single workspace directory.\n\nWork by acting, not by narrating: read what you need, make the change, verify\nit. Prefer `read_file`, `grep_files`, and `list_directory` over shell\nequivalents — they are cheaper and always available. Use `run_command` for\neverything else (builds, tests).\n\nA tool call the operator declines is a decision, not an error: say what you\nwould have done and stop, do not route around it with another tool.\n\nKeep replies to a few lines, and end with the answer the task asked for.";

/// What a case may vary. Everything else about the agent is fixed, so that a
/// difference between two cases is a difference in these or in what was said.
#[derive(Debug)]
pub struct Harness {
    /// Offer the shell.
    pub shell: bool,
    /// The tools that the operator declines.
    pub denied: Vec<String>,
    /// Take a driver's way without streaming.
    pub buffered: bool,
    /// How many iterations a turn may take.
    pub max_iterations: usize,
}

impl Harness {
    /// The harness of a case, by what the case asks and by the mode it is run
    /// in.
    pub fn resolve(sample: &Sample, mode: &Option<String>, max_turns: usize) -> (r: Self)
        ensures
            r.shell == match sample@.asks("shell"@) {
                Some(JsonView::Bool(b)) => b,
                _ => true,
            },
            texts(r.denied@) == match sample@.asks("deny"@) {
                Some(names) => strings_in(names),
                None => Seq::empty(),
            },
            r.buffered == (opt_text(*mode) == Some("buffered"@)),
            r.max_iterations == match sample@.asks("max_turns"@) {
                Some(v) => match v.unsigned() {
                    Some(n) => n as usize,
                    None => max_turns,
                },
                None => max_turns,
            },
    {
        let shell = match sample.asks("shell") {
            Some(v) => match v.as_bool() {
                Some(b) => b,
                None => true,
            },
            None => true,
        };
        let buffered = match mode {
            Some(mode) => same(mode.as_str(), "buffered"),
            None => false,
        };
        let max_iterations = match sample.asks("max_turns") {
            Some(v) => match v.as_u64() {
                Some(n) => n as usize,
                None => max_turns,
            },
            None => max_turns,
        };
        Harness { shell, denied: strings_of(sample.asks("deny")), buffered, max_iterations }
    }
}

// ------------------------------------------------------------------- wiring

/// What is under evaluation.
#[derive(Debug)]
pub struct Target {
    pub provider: String,
    pub model: String,
    /// The effort that the target asks for, where it does.
    pub reasoning_effort: Option<String>,
}

/// The model of a target: the scripted one for `sim`, otherwise the one it
/// names, on its service, with the effort that the target asks for.
pub fn model_spec(target: &Target, scripted: ModelSpec) -> (r: ModelSpec)
    ensures
        target.provider@ == "sim"@ ==> r.provider == scripted.provider && r.model
            == scripted.model && r.api_key == scripted.api_key && r.budget() == scripted.budget(),
        target.provider@ != "sim"@ ==> r.provider@ == target.provider@ && r.model@
            == target.model@ && r.api_key is None && r.budget() is None,
        r.effort() == match target.reasoning_effort {
            Some(effort) => Some(effort@),
            None => if target.provider@ == "sim"@ {
                scripted.effort()
            } else {
                None
            },
        },
{
    let spec = if same(target.provider.as_str(), "sim") {
        scripted
    } else {
        ModelSpec::on(target.provider.as_str(), target.model.as_str())
    };
    match &target.reasoning_effort {
        Some(effort) => spec.reasoning_effort(effort.as_str()),
        None => spec,
    }
}

/// How a service is spoken to.
#[derive(Debug, Clone, Copy, PartialEq, Eq)]
pub enum Protocol {
    /// By the script of the case.
    Scripted,
    Anthropic { max_tokens: u32 },
    OpenAi,
}

/// The service that a target runs on.
#[derive(Debug)]
pub struct ProviderSpec {
    pub protocol: Protocol,
    /// Where the service is; the scripted model is nowhere.
    pub base_url: Option<String>,
    pub key: Option<String>,
    /// Whether the driver is to answer without streaming.
    pub buffered: bool,
}

/// The variable that holds the key of a service; the scripted model has none.
pub open spec fn key_variable(provider: Seq<char>) -> Option<Seq<char>> {
    if provider == "anthropic"@ {
        Some("ANTHROPIC_API_KEY"@)
    } else if provider == "openai"@ {
        Some("OPENAI_API_KEY"@)
    } else if provider == "openrouter"@ {
        Some("OPENROUTER_API_KEY"@)
    } else {
        None
    }
}

/// The variable that holds the key of a service; the scripted model has none.
pub fn key_name(provider: &str) -> (r: Option<&'static str>)
    ensures
        match r {
            Some(name) => key_variable(provider@) == Some(name@),
            None => key_variable(provider@) is None,
        },
{
    if same(provider, "anthropic") {
        Some("ANTHROPIC_API_KEY")
    } else if same(provider, "openai") {
        Some("OPENAI_API_KEY")
    } else if same(provider, "openrouter") {
        Some("OPENROUTER_API_KEY")
    } else {
        None
    }
}

/// Whether a key was found that is more than blank.
pub open spec fn usable(key: Option<Seq<char>>) -> bool {
    key matches Some(k) && trimmed(k).len() > 0
}

/// How a service is spoken to, and where it is.
pub open spec fn reached(provider: Seq<char>) -> (Protocol, Option<Seq<char>>) {
    if provider == "sim"@ {
        (Protocol::Scripted, None)
    } else if provider == "anthropic"@ {
        (Protocol::Anthropic { max_tokens: 16_000 }, Some(ANTHROPIC_BASE_URL@))
    } else if provider == "openai"@ {
        (Protocol::OpenAi, Some(OPENAI_BASE_URL@))
    } else {
        (Protocol::OpenAi, Some(OPENROUTER_BASE_URL@))
    }
}

/// The service that a target runs on, given what its key's variable holds. It
/// fails for a service that is not known, and for one whose key is missing or
/// blank.
pub fn provider(name: &str, key: Option<String>, buffered: bool) -> (r: Result<
    ProviderSpec,
    String,
>)
    ensures
        match r {
            Ok(spec) => {
                &&& name@ == "sim"@ || key_variable(name@) is Some && usable(opt_text(key))
                &&& spec.protocol == reached(name@).0
                &&& opt_text(spec.base_url) == reached(name@).1
                &&& spec.key == if name@ == "sim"@ {
                    None
                } else {
                    key
                }
                &&& spec.buffered == buffered
            },
            Err(text) => name@ != "sim"@ && (match key_variable(name@) {
                Some(variable) => !usable(opt_text(key)) && text@ == variable + " is not set"@,
                None => text@ == "no agentyk provider for `"@ + name@ + "`"@,
            }),
        },
{
    proof {
        reveal_strlit("sim");
        reveal_strlit("anthropic");
        reveal_strlit("openai");
        reveal_strlit("openrouter");
        assert("sim"@.len() != "anthropic"@.len());
        assert("sim"@.len() != "openai"@.len());
        assert("sim"@.len() != "openrouter"@.len());
    }
    if same(name, "sim") {
        return Ok(
            ProviderSpec { protocol: Protocol::Scripted, base_url: None, key: None, buffered },
        );
    }
    let variable = match key_name(name) {
        Some(variable) => variable,
        None => {
            return Err(cat3("no agentyk provider for `", name, "`"));
        },
    };
    let found = match &key {
        Some(key) => !trim(key.as_str()).as_str().is_empty(),
        None => false,
    };
    if !found {
        return Err(cat2(variable, " is not set"));
    }
    let (protocol, base_url) = if same(name, "anthropic") {
        (Protocol::Anthropic { max_tokens: 16_000 }, ANTHROPIC_BASE_URL)
    } else if same(name, "openai") {
        (Protocol::OpenAi, OPENAI_BASE_URL)
    } else {
        (Protocol::OpenAi, OPENROUTER_BASE_URL)
    };
    Ok(ProviderSpec { protocol, base_url: Some(base_url.to_owned()), key, buffered })
}

/// A driver, and whether it is to answer without streaming.
#[derive(Debug)]
pub enum Wrapped<D> {
    Buffered(D),
    Streaming(D),
}

/// Take a driver's way without streaming, where that is asked for.
pub fn wrap<D>(driver: D, buffered: bool) -> (r: Wrapped<D>)
    ensures
        r == if buffered {
            Wrapped::Buffered(driver)
        } else {
            Wrapped::Streaming(driver)
        },
{
    if buffered {
        Wrapped::Buffered(driver)
    } else {
        Wrapped::Streaming(driver)
    }
}

/// What a driver without streaming reports of its answer: all of the text at
/// once, if there is any.
pub fn buffered_delta(message: &Message) -> (r: Option<String>)
    ensures
        opt_text(r) == if text_of(message@.content).len() == 0 {
            None
        } else {
            Some(text_of(message@.content))
        },
{
    let text = message.text();
    if text.as_str().is_empty() {
        None
    } else {
        Some(text)
    }
}

// ----------------------------------------------------------------- scripts

/// Whether a scripted answer is the one that a step states: the call of a
/// tool, with no arguments unless some are given, or a text.
pub open spec fn plays(turn: SimTurn, step: JsonView) -> bool {
    match step.at("tool"@).text() {
        Some(tool) => {
            &&& turn.text@.len() == 0
            &&& turn.tool_calls@.len() == 1
            &&& turn.tool_calls@[0].name@ == tool
            &&& turn.tool_calls@[0].arguments@ == match step.get("args"@) {
                Some(arguments) => arguments,
                None => jempty(),
            }
        },
        None => {
            &&& turn.tool_calls@.len() == 0
            &&& turn.text@ == match step.at("text"@).text() {
                Some(text) => text,
                None => "(no text)"@,
            }
        },
    }
}

/// The scripted answers of a case. One without a script gets a single answer.
pub fn script(sample: &Sample) -> (r: Vec<SimTurn>)
    ensures
        match sample@.asks("script"@) {
            Some(JsonView::Array(steps)) => r@.len() == steps.len() && forall|i: int|
                0 <= i < steps.len() ==> plays(#[trigger] r@[i], steps[i]),
            _ => r@.len() == 1 && r@[0].tool_calls@.len() == 0 && r@[0].text@ == "(no script)"@,
        },
{
    let steps = match sample.asks("script") {
        Some(v) => v.as_array(),
        None => None,
    };
    let steps = match steps {
        Some(steps) => steps,
        None => {
            return vec![SimTurn::text("(no script)")];
        },
    };
    let ghost all = items_view(steps@);
    let mut r: Vec<SimTurn> = Vec::new();
    let mut i: usize = 0;
    while i < steps.len()
        invariant
            r@.len() == i <= steps@.len(),
            all == items_view(steps@),
            forall|k: int| 0 <= k < i ==> plays(#[trigger] r@[k], all[k]),
        decreases steps.len() - i,
    {
        let step = &steps[i];
        assert(step@ == all[i as int]);
        let turn = match step.get_str("tool") {
            Some(tool) => {
                let arguments = match step.get("args") {
                    Some(arguments) => arguments.clone(),
                    None => empty_object(),
                };
                SimTurn::tool_call(tool, arguments)
            },
            None => match step.get_str("text") {
                Some(text) => SimTurn::text(text),
                None => SimTurn::text("(no text)"),
            },
        };
        assert(plays(turn, all[i as int]));
        r.push(turn);
        i += 1;
    }
    r
}

// ---------------------------------------------------------------- approval

/// What an operator decides on a call.
#[derive(Debug)]
pub enum ToolCallDecision {
    Proceed,
    Deny { reason: String },
}

/// Declines the calls of the tools it names.
#[derive(Debug)]
pub struct DenyMiddleware(pub Vec<String>);

impl DenyMiddleware {
    /// What the middleware is called.
    pub fn name(&self) -> (r: &'static str)
        ensures
            r@ == "eval-approval"@,
    {
        "eval-approval"
    }

    /// Decide on a call by the name of its tool.
    pub fn before_tool(&self, tool: &str) -> (r: ToolCallDecision)
        ensures
            match r {
                ToolCallDecision::Deny { reason } => texts(self.0@).contains(tool@) && reason@
                    == "the operator declined this call"@,
                ToolCallDecision::Proceed => !texts(self.0@).contains(tool@),
            },
    {
        if lists(&self.0, tool) {
            ToolCallDecision::Deny { reason: "the operator declined this call".to_owned() }
        } else {
            ToolCallDecision::Proceed
        }
    }
}

// ---------------------------------------------------------------- commands

/// What `run_command` takes.
pub open spec fn command_parameters() -> JsonView {
    JsonView::Object(
        seq![
            ("type"@, jstr("object"@)),
            (
                "properties"@,
                JsonView::Object(
                    seq![
                        (
                            "command"@,
                            JsonView::Object(
                                seq![
                                    ("type"@, jstr("string"@)),
                                    ("description"@, jstr("The bash command line to run."@)),
                                ],
                            ),
                        ),
                    ],
                ),
            ),
            ("required"@, JsonView::Array(seq![jstr("command"@)])),
        ],
    )
}

/// The tool that runs a command.
pub fn run_command_tool() -> (r: ToolDefinition)
    ensures
        r@.name == "run_command"@,
        r@.description
            == "Run a bash command in the workspace directory. Use for builds, tests, and anything the file tools cannot do."@,
        r@.parameters == command_parameters(),
{
    let command = Json::object2(
        "type",
        Json::text("string"),
        "description",
        Json::text("The bash command line to run."),
    );
    let required: Vec<Json> = vec![Json::text("command")];
    assert(items_view(required@) =~= seq![jstr("command"@)]);
    let parameters = Json::object3(
        "type",
        Json::text("object"),
        "properties",
        Json::object1("command", command),
        "required",
        Json::array(required),
    );
    ToolDefinition::new(
        "run_command",
        "Run a bash command in the workspace directory. Use for builds, tests, and anything the file tools cannot do.",
        parameters,
    )
}

/// The command of a call, or the answer to one that has none.
pub fn command_of(arguments: &Json) -> (r: Result<String, ToolOutput>)
    ensures
        match arguments@.at("command"@).text() {
            Some(command) => r matches Ok(c) && c@ == command,
            None => r matches Err(output) && output@ == error_output(
                "`command` is required and must be a string"@,
            ),
        },
{
    match arguments.get_str("command") {
        Some(command) => Ok(command.to_owned()),
        None => Err(ToolOutput::error("`command` is required and must be a string".to_owned())),
    }
}

/// How a command ended.
#[derive(Debug)]
pub enum CommandRun {
    /// It could not be run.
    Failed(String),
    TimedOut,
    /// It came to an end. A command that was killed has no code.
    Finished { success: bool, code: Option<i32>, stdout: Vec<u8>, stderr: Vec<u8> },
}

/// The text, cut after so many characters.
pub open spec fn truncated(text: Seq<char>, limit: int) -> Seq<char> {
    if text.len() <= limit {
        text
    } else {
        text.take(limit) + "\n… output truncated"@
    }
}

/// Cut a text after so many characters, and say so.
pub fn truncate(text: String, limit: usize) -> (r: String)
    ensures
        r@ == truncated(text@, limit as int),
{
    let chars = chars_of(text.as_str());
    if chars.len() <= limit {
        return text;
    }
    let kept = string_of(&chars, 0, limit);
    assert(text@.subrange(0, limit as int) =~= text@.take(limit as int));
    cat2(kept.as_str(), "\n… output truncated")
}

/// A cut text is never much longer than the limit.
pub proof fn truncation_is_bounded(text: Seq<char>, limit: int)
    requires
        0 <= limit,
    ensures
        truncated(text, limit).len() <= limit + "\n… output truncated"@.len(),
        text.len() <= limit ==> truncated(text, limit) == text,
        truncated(text, limit).take(
            if text.len() <= limit {
                text.len() as int
            } else {
                limit
            },
        ) == text.take(
            if text.len() <= limit {
                text.len() as int
            } else {
                limit
            },
        ),
{
    if text.len() > limit {
        assert(truncated(text, limit).take(limit) =~= text.take(limit));
    }
}

/// The two outputs of a command as one: what it complained of comes last, on
/// a line of its own, and a command that printed nothing but blanks says so.
pub open spec fn printed(stdout: Seq<char>, stderr: Seq<char>) -> Seq<char> {
    let body = if trimmed(stderr).len() == 0 {
        stdout
    } else if stdout.len() > 0 && stdout.last() != '\n' {
        stdout + "\n"@ + stderr
    } else {
        stdout + stderr
    };
    if trimmed(body).len() == 0 {
        "(no output)"@
    } else {
        body
    }
}

/// The two outputs of a command as one.
pub fn print_outputs(stdout: &str, stderr: &str) -> (r: String)
    ensures
        r@ == printed(stdout@, stderr@),
{
    let body = if trim(stderr).as_str().is_empty() {
        stdout.to_owned()
    } else {
        let open = !stdout.is_empty() && !ends_with(stdout, "\n");
        proof {
            reveal_strlit("\n");
            assert("\n"@.len() == 1);
            if stdout@.len() > 0 {
                let tail = stdout@.subrange(stdout@.len() - 1, stdout@.len() as int);
                assert(tail[0] == stdout@.last());
                if stdout@.last() == '\n' {
                    assert(tail =~= "\n"@);
                } else {
                    assert(tail[0] != "\n"@[0]);
                }
            }
        }
        if open {
            cat3(stdout, "\n", stderr)
        } else {
            cat2(stdout, stderr)
        }
    };
    if trim(body.as_str()).as_str().is_empty() {
        "(no output)".to_owned()
    } else {
        body
    }
}

/// A code as it is told.
pub open spec fn told_code(code: Option<i32>) -> Seq<char> {
    match code {
        Some(n) => "Some("@ + decimal_int(n as int) + ")"@,
        None => "None"@,
    }
}

/// What a command that ended comes to.
pub open spec fn ended(
    success: bool,
    code: Option<i32>,
    stdout: Seq<char>,
    stderr: Seq<char>,
) -> OutputView {
    let body = truncated(printed(stdout, stderr), MAX_TOOL_OUTPUT as int);
    if success {
        text_output(body)
    } else {
        error_output("exit status "@ + told_code(code) + "\n"@ + body)
    }
}

/// What a command that ended comes to.
pub fn conclude(success: bool, code: Option<i32>, stdout: &str, stderr: &str) -> (r: ToolOutput)
    ensures
        r@ == ended(success, code, stdout@, stderr@),
{
    let body = truncate(print_outputs(stdout, stderr), MAX_TOOL_OUTPUT);
    if success {
        return ToolOutput::text(body);
    }
    let told = match code {
        Some(n) => {
            let n = decimal_of_i64(n as i64);
            cat3("Some(", n.as_str(), ")")
        },
        None => "None".to_owned(),
    };
    ToolOutput::error(cat4("exit status ", told.as_str(), "\n", body.as_str()))
}

/// What the run of a command comes to.
pub fn command_output(run: CommandRun) -> (r: ToolOutput)
    ensures
        match run {
            CommandRun::Failed(message) => r@ == error_output(
                "failed to run command: "@ + message@,
            ),
            CommandRun::TimedOut => r@ == error_output("command timed out after 30s"@),
            CommandRun::Finished { success, code, stdout, stderr } => r@ == ended(
                success,
                code,
                utf8_lossy(stdout@),
                utf8_lossy(stderr@),
            ),
        },
{
    match run {
        CommandRun::Failed(message) => ToolOutput::error(
            cat2("failed to run command: ", message.as_str()),
        ),
        CommandRun::TimedOut => ToolOutput::error("command timed out after 30s".to_owned()),
        CommandRun::Finished { success, code, stdout, stderr } => {
            let stdout = lossy_text(&stdout);
            let stderr = lossy_text(&stderr);
            conclude(success, code, stdout.as_str(), stderr.as_str())
        },
    }
}

// --------------------------------------------------------------- workspace

/// Whether a file is read back from a workspace, by its length. One whose
/// length cannot be told is not.
pub fn is_read_back(length: Option<u64>) -> (r: bool)
    ensures
        r == (length matches Some(n) && n <= MAX_FILE),
{
    match length {
        Some(n) => n <= MAX_FILE,
        None => false,
    }
}

// ------------------------------------------------------------------ usage

/// The input tokens that were neither served from a cache nor stored in one.
pub open spec fn fresh(usage: Usage) -> int {
    let rest = usage.input_tokens - usage.cache_read_input_tokens;
    let left = if rest < 0 {
        0
    } else {
        rest
    };
    if left < usage.cache_creation_input_tokens {
        0
    } else {
        left - usage.cache_creation_input_tokens
    }
}

/// The input tokens that were neither served from a cache nor stored in one.
pub fn fresh_tokens(usage: &Usage) -> (r: u64)
    ensures
        r == fresh(*usage),
{
    usage.input_tokens.saturating_sub(usage.cache_read_input_tokens).saturating_sub(
        usage.cache_creation_input_tokens,
    )
}

} // verus!
