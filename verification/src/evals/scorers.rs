//! Scoring: all by what a case itself asks for.

use vstd::prelude::*;

use crate::evals::{find_pair, pair_of, Sample};
use crate::evals::observation::{results_view, steps_of, steps_view, EventView, Step, StepView,
    Transcript};
use crate::json::{items_view, json_print, print_json, strings_in, strings_of, Json, JsonView};
use crate::message::{ToolCallView, Usage};
use crate::text::{cat2, cat3, cat4, cat5, contains, decimal, decimal_of, has_text, lists, quote,
    quote_list, quoted, quoted_list, same, text_pairs, texts};

verus! {

/// A verdict on a case.
#[derive(Debug)]
pub struct Score {
    pub scorer: String,
    pub pass: bool,
    pub reason: String,
}

/// A verdict and the reason for it.
pub ghost struct Verdict {
    pub pass: bool,
    pub reason: Seq<char>,
}

/// A case that passes.
pub open spec fn passes(reason: Seq<char>) -> Verdict {
    Verdict { pass: true, reason }
}

/// A case that fails.
pub open spec fn fails(reason: Seq<char>) -> Verdict {
    Verdict { pass: false, reason }
}

impl Score {
    /// Whether the score is a scorer's verdict.
    pub open spec fn says(&self, scorer: Seq<char>, v: Verdict) -> bool {
        self.scorer@ == scorer && self.pass == v.pass && self.reason@ == v.reason
    }

    /// A passing score.
    pub fn pass(scorer: &str, reason: &str) -> (r: Self)
        ensures
            r.says(scorer@, passes(reason@)),
    {
        Score { scorer: scorer.to_owned(), pass: true, reason: reason.to_owned() }
    }

    /// A failing score.
    pub fn fail(scorer: &str, reason: &str) -> (r: Self)
        ensures
            r.says(scorer@, fails(reason@)),
    {
        Score { scorer: scorer.to_owned(), pass: false, reason: reason.to_owned() }
    }
}

// ------------------------------------------------------------------ needles

/// The first text from `from` on that is in the content, or not in it, as is
/// looked for.
pub open spec fn first_text(
    content: Seq<char>,
    needles: Seq<Seq<char>>,
    present: bool,
    from: int,
) -> Option<Seq<char>>
    decreases needles.len() - from,
{
    if from >= needles.len() {
        None
    } else if has_text(content, needles[from]) == present {
        Some(needles[from])
    } else {
        first_text(content, needles, present, from + 1)
    }
}

fn find_text(content: &str, needles: &Vec<String>, present: bool) -> (r: Option<String>)
    ensures
        match r {
            Some(needle) => first_text(content@, texts(needles@), present, 0) == Some(needle@),
            None => first_text(content@, texts(needles@), present, 0) is None,
        },
{
    let ghost all = texts(needles@);
    let mut i: usize = 0;
    while i < needles.len()
        invariant
            i <= needles@.len(),
            all == texts(needles@),
            first_text(content@, all, present, 0) == first_text(
                content@,
                all,
                present,
                i as int,
            ),
        decreases needles.len() - i,
    {
        assert(all[i as int] == needles@[i as int]@);
        if contains(content, needles[i].as_str()) == present {
            return Some(needles[i].clone());
        }
        i += 1;
    }
    None
}

/// The texts that a value lists; none where there is no list.
pub open spec fn needles(value: Option<JsonView>) -> Seq<Seq<char>> {
    match value {
        Some(v) => strings_in(v),
        None => Seq::empty(),
    }
}

/// The content of an optional value.
pub open spec fn opt_view(value: Option<&Json>) -> Option<JsonView> {
    match value {
        Some(v) => Some(v@),
        None => None,
    }
}

/// The first needle that is absent from a text.
pub fn missing_from(haystack: &str, value: Option<&Json>) -> (r: Option<String>)
    ensures
        match r {
            Some(needle) => first_text(haystack@, needles(opt_view(value)), false, 0) == Some(
                needle@,
            ),
            None => first_text(haystack@, needles(opt_view(value)), false, 0) is None,
        },
{
    find_text(haystack, &strings_of(value), false)
}

/// The first needle that is present in a text.
pub fn present_in(haystack: &str, value: Option<&Json>) -> (r: Option<String>)
    ensures
        match r {
            Some(needle) => first_text(haystack@, needles(opt_view(value)), true, 0) == Some(
                needle@,
            ),
            None => first_text(haystack@, needles(opt_view(value)), true, 0) is None,
        },
{
    find_text(haystack, &strings_of(value), true)
}

/// Whether a text holds at least one of the alternatives.
pub fn contains_any(haystack: &str, alternatives: &Json) -> (r: bool)
    ensures
        r == (first_text(haystack@, strings_in(alternatives@), true, 0) is Some),
{
    find_text(haystack, &strings_of(Some(alternatives)), true).is_some()
}

/// A text with no needle missing holds every one of them, and one with no
/// needle present holds none.
pub proof fn needles_are_all_tried(content: Seq<char>, list: Seq<Seq<char>>, present: bool, from: int)
    requires
        0 <= from,
    ensures
        first_text(content, list, present, from) is None <==> forall|i: int|
            from <= i < list.len() ==> has_text(content, #[trigger] list[i]) != present,
    decreases list.len() - from,
{
    if from < list.len() {
        needles_are_all_tried(content, list, present, from + 1);
    }
}

// ------------------------------------------------------------------- checks

/// What is wrong with a text: it lacks what it should hold, holds what it
/// should not, or holds none of the alternatives. The first that applies is
/// told, in these words.
pub open spec fn text_fault(
    content: Seq<char>,
    wanted: Option<JsonView>,
    unwanted: Option<JsonView>,
    alternatives: Option<JsonView>,
    words: (Seq<char>, Seq<char>, Seq<char>),
) -> Option<Seq<char>> {
    match first_text(content, needles(wanted), false, 0) {
        Some(missing) => Some(words.0 + quoted(missing)),
        None => match first_text(content, needles(unwanted), true, 0) {
            Some(present) => Some(words.1 + quoted(present)),
            None => match alternatives {
                Some(list) => if first_text(content, strings_in(list), true, 0) is Some {
                    None
                } else {
                    Some(words.2 + json_print(list))
                },
                None => None,
            },
        },
    }
}

fn find_fault(
    content: &str,
    wanted: Option<&Json>,
    unwanted: Option<&Json>,
    alternatives: Option<&Json>,
    lacks: &str,
    holds: &str,
    none_of: &str,
) -> (r: Option<String>)
    ensures
        match r {
            Some(fault) => text_fault(
                content@,
                opt_view(wanted),
                opt_view(unwanted),
                opt_view(alternatives),
                (lacks@, holds@, none_of@),
            ) == Some(fault@),
            None => text_fault(
                content@,
                opt_view(wanted),
                opt_view(unwanted),
                opt_view(alternatives),
                (lacks@, holds@, none_of@),
            ) is None,
        },
{
    if let Some(missing) = missing_from(content, wanted) {
        let told = quote(missing.as_str());
        return Some(cat2(lacks, told.as_str()));
    }
    if let Some(present) = present_in(content, unwanted) {
        let told = quote(present.as_str());
        return Some(cat2(holds, told.as_str()));
    }
    if let Some(list) = alternatives {
        if !contains_any(content, list) {
            let told = print_json(list);
            return Some(cat2(none_of, told.as_str()));
        }
    }
    None
}

/// What is wrong with the file that a check names, if it names one.
pub open spec fn file_fault(check: JsonView, files: Seq<(Seq<char>, Seq<char>)>) -> Option<
    Seq<char>,
> {
    match check.at("file"@).text() {
        None => None,
        Some(path) => match find_pair(files, path) {
            None => Some(path + " is missing from the workspace"@),
            Some(content) => text_fault(
                content,
                check.get("contains"@),
                check.get("lacks"@),
                check.get("contains_any"@),
                (path + " lacks "@, path + " still contains "@, path + " matches none of "@),
            ),
        },
    }
}

/// What is wrong with the answer.
pub open spec fn response_fault(check: JsonView, response: Seq<char>) -> Option<Seq<char>> {
    text_fault(
        response,
        check.get("response_contains"@),
        check.get("response_lacks"@),
        check.get("response_contains_any"@),
        (
            "the response lacks "@,
            "the response contains "@,
            "the response matches none of "@,
        ),
    )
}

/// What a check finds wrong: in its file first, then in the answer.
pub open spec fn check_fault(
    check: JsonView,
    files: Seq<(Seq<char>, Seq<char>)>,
    response: Seq<char>,
) -> Option<Seq<char>> {
    match file_fault(check, files) {
        Some(fault) => Some(fault),
        None => response_fault(check, response),
    }
}

/// What the first check that fails, from `from` on, finds wrong.
pub open spec fn first_fault(
    checks: Seq<JsonView>,
    files: Seq<(Seq<char>, Seq<char>)>,
    response: Seq<char>,
    from: int,
) -> Option<Seq<char>>
    decreases checks.len() - from,
{
    if from >= checks.len() {
        None
    } else {
        match check_fault(checks[from], files, response) {
            Some(fault) => Some(fault),
            None => first_fault(checks, files, response, from + 1),
        }
    }
}

/// A case passes its checks exactly when none of them finds a fault.
pub proof fn every_check_is_made(
    checks: Seq<JsonView>,
    files: Seq<(Seq<char>, Seq<char>)>,
    response: Seq<char>,
    from: int,
)
    requires
        0 <= from,
    ensures
        first_fault(checks, files, response, from) is None <==> forall|i: int|
            from <= i < checks.len() ==> check_fault(#[trigger] checks[i], files, response)
                is None,
    decreases checks.len() - from,
{
    if from < checks.len() {
        every_check_is_made(checks, files, response, from + 1);
    }
}

fn find_check_fault(check: &Json, files: &Vec<(String, String)>, response: &str) -> (r: Option<
    String,
>)
    ensures
        match r {
            Some(fault) => check_fault(check@, text_pairs(files@), response@) == Some(fault@),
            None => check_fault(check@, text_pairs(files@), response@) is None,
        },
{
    if let Some(path) = check.get_str("file") {
        let content = match pair_of(files, path) {
            Some(content) => content,
            None => {
                return Some(cat2(path, " is missing from the workspace"));
            },
        };
        let lacks = cat2(path, " lacks ");
        let holds = cat2(path, " still contains ");
        let none_of = cat2(path, " matches none of ");
        let fault = find_fault(
            content.as_str(),
            check.get("contains"),
            check.get("lacks"),
            check.get("contains_any"),
            lacks.as_str(),
            holds.as_str(),
            none_of.as_str(),
        );
        if fault.is_some() {
            return fault;
        }
    }
    find_fault(
        response,
        check.get("response_contains"),
        check.get("response_lacks"),
        check.get("response_contains_any"),
        "the response lacks ",
        "the response contains ",
        "the response matches none of ",
    )
}

/// The verdict on a case's own checks.
pub open spec fn checked(
    asked: Option<JsonView>,
    files: Seq<(Seq<char>, Seq<char>)>,
    response: Seq<char>,
) -> Verdict {
    match asked {
        Some(JsonView::Array(checks)) => match first_fault(checks, files, response, 0) {
            Some(fault) => fails(fault),
            None => passes("every declared check held"@),
        },
        _ => passes("no checks declared"@),
    }
}

/// Grade a case by its own checks, of files and of the answer.
pub fn checks(sample: &Sample, transcript: &Transcript) -> (r: Score)
    ensures
        r.says(
            "checks"@,
            checked(
                sample@.asks("checks"@),
                text_pairs(transcript.files@),
                transcript.final_response@,
            ),
        ),
{
    let checks = match sample.asks("checks") {
        Some(v) => v.as_array(),
        None => None,
    };
    let checks = match checks {
        Some(checks) => checks,
        None => {
            return Score::pass("checks", "no checks declared");
        },
    };
    let ghost all = items_view(checks@);
    let ghost files = text_pairs(transcript.files@);
    let ghost response = transcript.final_response@;
    let mut i: usize = 0;
    while i < checks.len()
        invariant
            i <= checks@.len(),
            all == items_view(checks@),
            files == text_pairs(transcript.files@),
            response == transcript.final_response@,
            sample@.asks("checks"@) == Some(JsonView::Array(all)),
            first_fault(all, files, response, 0) == first_fault(all, files, response, i as int),
        decreases checks.len() - i,
    {
        assert(all[i as int] == checks@[i as int]@);
        if let Some(fault) = find_check_fault(
            &checks[i],
            &transcript.files,
            transcript.final_response.as_str(),
        ) {
            return Score::fail("checks", fault.as_str());
        }
        i += 1;
    }
    Score::pass("checks", "every declared check held")
}

// -------------------------------------------------------------- tool choice

/// The first tool from `from` on that was used, or was not, as is looked for.
pub open spec fn first_tool(
    tools: Seq<Seq<char>>,
    used: Seq<Seq<char>>,
    present: bool,
    from: int,
) -> Option<Seq<char>>
    decreases tools.len() - from,
{
    if from >= tools.len() {
        None
    } else if used.contains(tools[from]) == present {
        Some(tools[from])
    } else {
        first_tool(tools, used, present, from + 1)
    }
}

fn find_tool(tools: &Vec<String>, used: &Vec<String>, present: bool) -> (r: Option<String>)
    ensures
        match r {
            Some(tool) => first_tool(texts(tools@), texts(used@), present, 0) == Some(tool@),
            None => first_tool(texts(tools@), texts(used@), present, 0) is None,
        },
{
    let ghost all = texts(tools@);
    let ghost met = texts(used@);
    let mut i: usize = 0;
    while i < tools.len()
        invariant
            i <= tools@.len(),
            all == texts(tools@),
            met == texts(used@),
            first_tool(all, met, present, 0) == first_tool(all, met, present, i as int),
        decreases tools.len() - i,
    {
        assert(all[i as int] == tools@[i as int]@);
        if lists(used, tools[i].as_str()) == present {
            return Some(tools[i].clone());
        }
        i += 1;
    }
    None
}

/// The verdict on the tools that were used: each that is required, at least
/// one of the alternatives, and none that is forbidden.
pub open spec fn disciplined(
    required: Seq<Seq<char>>,
    alternatives: Seq<Seq<char>>,
    forbidden: Seq<Seq<char>>,
    used: Seq<Seq<char>>,
) -> Verdict {
    match first_tool(required, used, false, 0) {
        Some(tool) => fails(
            "never called `"@ + tool + "` (used "@ + quoted_list(used) + ")"@,
        ),
        None => if alternatives.len() > 0 && first_tool(alternatives, used, true, 0) is None {
            fails(
                "called none of "@ + quoted_list(alternatives) + " (used "@ + quoted_list(used)
                    + ")"@,
            )
        } else {
            match first_tool(forbidden, used, true, 0) {
                Some(tool) => fails("called `"@ + tool + "`, which this case forbids"@),
                None => passes("used the intended tool surface"@),
            }
        },
    }
}

/// Grade the choice of tools.
pub fn tool_discipline(sample: &Sample, transcript: &Transcript) -> (r: Score)
    ensures
        r.says(
            "tool_discipline"@,
            disciplined(
                needles(sample@.asks("required_tools"@)),
                needles(sample@.asks("required_any_tools"@)),
                needles(sample@.asks("forbidden_tools"@)),
                texts(transcript.tool_calls@),
            ),
        ),
{
    let used = &transcript.tool_calls;
    let required = strings_of(sample.asks("required_tools"));
    if let Some(tool) = find_tool(&required, used, false) {
        let told = quote_list(used);
        let reason = cat5("never called `", tool.as_str(), "` (used ", told.as_str(), ")");
        return Score::fail("tool_discipline", reason.as_str());
    }
    let alternatives = strings_of(sample.asks("required_any_tools"));
    if alternatives.len() > 0 && find_tool(&alternatives, used, true).is_none() {
        let those = quote_list(&alternatives);
        let told = quote_list(used);
        let reason = cat5("called none of ", those.as_str(), " (used ", told.as_str(), ")");
        return Score::fail("tool_discipline", reason.as_str());
    }
    let forbidden = strings_of(sample.asks("forbidden_tools"));
    if let Some(tool) = find_tool(&forbidden, used, true) {
        let reason = cat3("called `", tool.as_str(), "`, which this case forbids");
        return Score::fail("tool_discipline", reason.as_str());
    }
    Score::pass("tool_discipline", "used the intended tool surface")
}

/// A tool that a case forbids is never let pass.
pub proof fn forbidden_tool_fails(
    required: Seq<Seq<char>>,
    alternatives: Seq<Seq<char>>,
    forbidden: Seq<Seq<char>>,
    used: Seq<Seq<char>>,
    i: int,
)
    requires
        0 <= i < forbidden.len(),
        used.contains(forbidden[i]),
    ensures
        !disciplined(required, alternatives, forbidden, used).pass,
{
    lemma_first_tool(forbidden, used, true, 0, i);
}

proof fn lemma_first_tool(
    tools: Seq<Seq<char>>,
    used: Seq<Seq<char>>,
    present: bool,
    from: int,
    i: int,
)
    requires
        0 <= from <= i < tools.len(),
        used.contains(tools[i]) == present,
    ensures
        first_tool(tools, used, present, from) is Some,
    decreases tools.len() - from,
{
    if used.contains(tools[from]) != present {
        lemma_first_tool(tools, used, present, from + 1, i);
    }
}

// ------------------------------------------------------------------- budgets

/// The verdict on the tokens that a case took.
pub open spec fn budgeted(asked: Option<JsonView>, usage: Usage) -> Verdict {
    let limit = match asked {
        Some(v) => v.unsigned(),
        None => None,
    };
    let total = usage.input_tokens + usage.output_tokens;
    match limit {
        None => passes("no budget declared"@),
        Some(max) => if total <= max {
            passes(decimal(total as nat) + " tokens (budget "@ + decimal(max as nat) + ")"@)
        } else {
            fails(decimal(total as nat) + " tokens exceeds the "@ + decimal(max as nat) + " budget"@)
        },
    }
}

/// Grade the tokens that a case took by the budget it declares.
pub fn budgets(sample: &Sample, transcript: &Transcript) -> (r: Score)
    requires
        transcript.usage.input_tokens + transcript.usage.output_tokens <= u64::MAX,
    ensures
        r.says("budgets"@, budgeted(sample@.asks("max_tokens"@), transcript.usage)),
{
    let max = match sample.asks("max_tokens") {
        Some(v) => v.as_u64(),
        None => None,
    };
    let max = match max {
        Some(max) => max,
        None => {
            return Score::pass("budgets", "no budget declared");
        },
    };
    let total: u64 = transcript.usage.input_tokens + transcript.usage.output_tokens;
    let took = decimal_of(total);
    let limit = decimal_of(max);
    if total <= max {
        let reason = cat4(took.as_str(), " tokens (budget ", limit.as_str(), ")");
        Score::pass("budgets", reason.as_str())
    } else {
        let reason = cat4(took.as_str(), " tokens exceeds the ", limit.as_str(), " budget");
        Score::fail("budgets", reason.as_str())
    }
}

// -------------------------------------------------------------- trajectories

/// Whether a step says what came of a call.
pub open spec fn observed(step: StepView, call_id: Seq<char>) -> bool {
    step.observation matches Some(results) && exists|i: int|
        0 <= i < results.len() && (#[trigger] results[i]).0 == call_id
}

/// The first call of a step, from `from` on, of which it does not say what
/// came.
pub open spec fn first_unanswered(step: StepView, from: int) -> Option<ToolCallView>
    decreases step.tool_calls.len() - from,
{
    if from >= step.tool_calls.len() {
        None
    } else if !observed(step, step.tool_calls[from].id) {
        Some(step.tool_calls[from])
    } else {
        first_unanswered(step, from + 1)
    }
}

/// The first such call of the steps from `from` on.
pub open spec fn first_unjoined(steps: Seq<StepView>, from: int) -> Option<ToolCallView>
    decreases steps.len() - from,
{
    if from >= steps.len() {
        None
    } else {
        match first_unanswered(steps[from], 0) {
            Some(call) => Some(call),
            None => first_unjoined(steps, from + 1),
        }
    }
}

fn is_observed(step: &Step, call_id: &str) -> (r: bool)
    ensures
        r == observed(step@, call_id@),
{
    let results = match &step.observation {
        Some(results) => results,
        None => {
            return false;
        },
    };
    let ghost all = results_view(results@);
    assert(step@.observation == Some(all));
    let mut i: usize = 0;
    while i < results.len()
        invariant
            i <= results@.len(),
            all == results_view(results@),
            step@.observation == Some(all),
            forall|k: int| 0 <= k < i ==> (#[trigger] all[k]).0 != call_id@,
        decreases results.len() - i,
    {
        if same(results[i].source_call_id.as_str(), call_id) {
            assert(step@.observation->0[i as int].0 == call_id@);
            return true;
        }
        i += 1;
    }
    false
}

/// The verdict on a trajectory: every call must have an observation that is
/// joined to it by its id.
pub open spec fn joined_up(trajectory: Option<Seq<StepView>>) -> Verdict {
    match trajectory {
        None => fails("the subject reported no trajectory"@),
        Some(steps) => match first_unjoined(steps, 0) {
            Some(call) => fails(
                "`"@ + call.name + "` has no observation joined to call "@ + call.id,
            ),
            None => passes("every tool call carries its observation"@),
        },
    }
}

/// Grade a trajectory by whether every call can be joined to what came of it.
pub fn trajectory_is_joinable(transcript: &Transcript) -> (r: Score)
    ensures
        r.says(
            "trajectory"@,
            joined_up(
                match transcript.trajectory {
                    Some(steps) => Some(steps_view(steps@)),
                    None => None,
                },
            ),
        ),
{
    let steps = match &transcript.trajectory {
        Some(steps) => steps,
        None => {
            return Score::fail("trajectory", "the subject reported no trajectory");
        },
    };
    let ghost all = steps_view(steps@);
    let mut i: usize = 0;
    while i < steps.len()
        invariant
            i <= steps@.len(),
            all == steps_view(steps@),
            transcript.trajectory == Some(*steps),
            first_unjoined(all, 0) == first_unjoined(all, i as int),
        decreases steps.len() - i,
    {
        let step = &steps[i];
        assert(step@ == all[i as int]);
        let mut j: usize = 0;
        while j < step.tool_calls.len()
            invariant
                i < steps@.len(),
                j <= step.tool_calls@.len(),
                all == steps_view(steps@),
                transcript.trajectory == Some(*steps),
                step@ == all[i as int],
                first_unjoined(all, 0) == first_unjoined(all, i as int),
                first_unanswered(step@, 0) == first_unanswered(step@, j as int),
            decreases step.tool_calls.len() - j,
        {
            let call = &step.tool_calls[j];
            assert(step@.tool_calls[j as int] == call@);
            if !is_observed(step, call.id.as_str()) {
                let reason = cat4(
                    "`",
                    call.name.as_str(),
                    "` has no observation joined to call ",
                    call.id.as_str(),
                );
                return Score::fail("trajectory", reason.as_str());
            }
            j += 1;
        }
        i += 1;
    }
    Score::pass("trajectory", "every tool call carries its observation")
}

/// The calls that still wait for their result after some events.
pub open spec fn waiting(events: Seq<EventView>) -> Set<Seq<char>>
    decreases events.len(),
{
    if events.len() == 0 {
        Set::empty()
    } else {
        match events.last() {
            EventView::InputMessage { message } => Set::empty(),
            EventView::OutputMessageCompleted { message, usage } => message.tool_calls.map_values(
                |c: ToolCallView| c.id,
            ).to_set(),
            EventView::ToolCompleted { call_id, output, is_error } => waiting(
                events.drop_last(),
            ).remove(call_id),
            _ => waiting(events.drop_last()),
        }
    }
}

/// Whether a session waited for the result of every call before its next
/// message.
pub open spec fn settled(events: Seq<EventView>) -> bool
    decreases events.len(),
{
    if events.len() == 0 {
        true
    } else {
        let earlier = events.drop_last();
        settled(earlier) && (events.last() is InputMessage
            || events.last() is OutputMessageCompleted ==> waiting(earlier) =~= Set::empty())
    }
}

proof fn lemma_unanswered(step: StepView, from: int)
    requires
        0 <= from,
    ensures
        first_unanswered(step, from) is None <==> forall|i: int|
            from <= i < step.tool_calls.len() ==> observed(
                step,
                (#[trigger] step.tool_calls[i]).id,
            ),
    decreases step.tool_calls.len() - from,
{
    if from < step.tool_calls.len() {
        lemma_unanswered(step, from + 1);
    }
}

proof fn lemma_unjoined(steps: Seq<StepView>, from: int)
    requires
        0 <= from,
    ensures
        first_unjoined(steps, from) is None <==> forall|i: int|
            from <= i < steps.len() ==> first_unanswered(#[trigger] steps[i], 0) is None,
    decreases steps.len() - from,
{
    if from < steps.len() {
        lemma_unjoined(steps, from + 1);
    }
}

/// Whether every call of a step is answered, but for those that wait.
pub open spec fn answered_but(step: StepView, waits: Set<Seq<char>>) -> bool {
    forall|i: int|
        0 <= i < step.tool_calls.len() ==> observed(step, (#[trigger] step.tool_calls[i]).id)
            || waits.contains(step.tool_calls[i].id)
}

proof fn lemma_settled_steps(events: Seq<EventView>, model: Seq<char>)
    requires
        settled(events),
    ensures
        ({
            let steps = steps_of(events, model);
            &&& forall|i: int|
                0 <= i < steps.len() - 1 ==> #[trigger] answered_but(steps[i], Set::empty())
            &&& steps.len() > 0 ==> answered_but(steps.last(), waiting(events))
        }),
    decreases events.len(),
{
    if events.len() > 0 {
        let earlier = events.drop_last();
        lemma_settled_steps(earlier, model);
        let before = steps_of(earlier, model);
        let steps = steps_of(events, model);
        match events.last() {
            EventView::InputMessage { message } => {
                assert forall|i: int| 0 <= i < steps.len() - 1 implies #[trigger] answered_but(
                    steps[i],
                    Set::empty(),
                ) by {
                    assert(steps[i] == before[i]);
                }
            },
            EventView::OutputMessageCompleted { message, usage } => {
                assert forall|i: int| 0 <= i < steps.len() - 1 implies #[trigger] answered_but(
                    steps[i],
                    Set::empty(),
                ) by {
                    assert(steps[i] == before[i]);
                }
                let last = steps.last();
                let ids = message.tool_calls.map_values(|c: ToolCallView| c.id);
                assert forall|i: int| 0 <= i < last.tool_calls.len() implies waiting(
                    events,
                ).contains((#[trigger] last.tool_calls[i]).id) by {
                    assert(ids[i] == last.tool_calls[i].id);
                    assert(ids.contains(ids[i]));
                }
            },
            EventView::ToolCompleted { call_id, output, is_error } => {
                if steps.len() > 0 {
                    let was = before.last();
                    let last = steps.last();
                    assert forall|i: int| 0 <= i < steps.len() - 1 implies #[trigger] answered_but(
                        steps[i],
                        Set::empty(),
                    ) by {
                        assert(steps[i] == before[i]);
                    }
                    assert forall|i: int| 0 <= i < last.tool_calls.len() implies observed(
                        last,
                        (#[trigger] last.tool_calls[i]).id,
                    ) || waiting(events).contains(last.tool_calls[i].id) by {
                        let id = last.tool_calls[i].id;
                        let results = last.observation->0;
                        assert(was.tool_calls[i].id == id);
                        if id == call_id {
                            assert(results.last().0 == id);
                            assert(results[results.len() - 1].0 == id);
                        } else if observed(was, id) {
                            let had = was.observation->0;
                            let k = choose|k: int|
                                0 <= k < had.len() && (#[trigger] had[k]).0 == id;
                            assert(results[k] == had[k]);
                        }
                    }
                }
            },
            _ => {},
        }
    }
}

/// A session that waits for the result of every call, denied ones too, before
/// its next message has a trajectory in which every call can be joined to
/// what came of it.
pub proof fn settled_sessions_are_joinable(events: Seq<EventView>, model: Seq<char>)
    requires
        settled(events),
        waiting(events) =~= Set::empty(),
    ensures
        joined_up(Some(steps_of(events, model))).pass,
{
    lemma_settled_steps(events, model);
    let steps = steps_of(events, model);
    assert forall|i: int| 0 <= i < steps.len() implies first_unanswered(
        #[trigger] steps[i],
        0,
    ) is None by {
        lemma_unanswered(steps[i], 0);
        assert(answered_but(steps[i], Set::empty()));
    }
    lemma_unjoined(steps, 0);
}

} // verus!
