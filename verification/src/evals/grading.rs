//! What holds of every grading: what is observed of a case, and when it passes.

use vstd::prelude::*;

use crate::drivers::sim::SimTurn;
use crate::evals::{find_pair, put_pair, SampleView};
use crate::evals::cases::{coding_cases, offline_contract_cases, report, section, sections,
    session_efficiency_cases, tool_policy_cases};
use crate::evals::harness::{command_parameters, ended, fresh, key_variable, plays, printed,
    reached, told_code, truncated, usable, Protocol};
use crate::evals::observation::{add_event, all_results, denied_calls, failed_calls, is_failed_call,
    is_sum, reported, result_text, started_tools, steps_of, EventView, StepSource, StepView};
use crate::evals::scorers::{budgeted, check_fault, checked, disciplined, every_check_is_made,
    file_fault, first_text, first_tool, first_unanswered, first_unjoined, joined_up, needles,
    needles_are_all_tried, observed, opt_view, response_fault, text_fault, Score, Verdict};
use crate::json::{json_print, lookup, put, put_then_lookup, strings_in, Json, JsonView};
use crate::members::{member_of_one, members_of_three, members_of_two};
use crate::message::{text_of, Usage};
use crate::text::{decimal, decimal_int, has_text, is_space, joined, occurs_at, quoted, quoted_list,
    trimmed};
use crate::text_facts::trimmed_text_has_no_edges;

verus! {

// -------------------------------------------------------------------- samples

/// A pair that is set is found with its content, and every other one as it was.
pub proof fn a_pair_is_set(
    pairs: Seq<(Seq<char>, Seq<char>)>,
    name: Seq<char>,
    content: Seq<char>,
    other: Seq<char>,
)
    ensures
        find_pair(put_pair(pairs, name, content), name) == Some(content),
        other != name ==> find_pair(put_pair(pairs, name, content), other) == find_pair(
            pairs,
            other,
        ),
    decreases pairs.len(),
{
    let set = put_pair(pairs, name, content);
    if pairs.len() == 0 {
        assert(set.drop_first() =~= pairs);
    } else if pairs[0].0 == name {
        assert(set.drop_first() =~= pairs.drop_first());
    } else {
        a_pair_is_set(pairs.drop_first(), name, content, other);
        assert(set.drop_first() =~= put_pair(pairs.drop_first(), name, content));
    }
}

/// A pair is found under its name where there is one, the first of them, and
/// nothing is found where there is none.
pub proof fn the_first_pair_is_found(pairs: Seq<(Seq<char>, Seq<char>)>, name: Seq<char>, i: int)
    requires
        0 <= i <= pairs.len(),
        forall|k: int| 0 <= k < i ==> (#[trigger] pairs[k]).0 != name,
    ensures
        i < pairs.len() && pairs[i].0 == name ==> find_pair(pairs, name) == Some(pairs[i].1),
        i == pairs.len() ==> find_pair(pairs, name) is None,
    decreases pairs.len(),
{
    if i > 0 {
        let rest = pairs.drop_first();
        assert(pairs[0].0 != name);
        assert forall|k: int| 0 <= k < i - 1 implies (#[trigger] rest[k]).0 != name by {
            assert(rest[k] == pairs[k + 1]);
        }
        the_first_pair_is_found(rest, name, i - 1);
    }
}

/// A case keeps what it was given: each step of putting one together sets its
/// own part and leaves the others.
pub proof fn a_case_keeps_what_it_was_given(
    case: SampleView,
    id: Seq<char>,
    turns: Seq<Seq<char>>,
    key: Seq<char>,
    text: Seq<char>,
    value: JsonView,
    other: Seq<char>,
)
    ensures
        SampleView::many(id, turns).id == id,
        SampleView::many(id, turns).input == turns,
        SampleView::one(id, text).input == seq![text],
        SampleView::one(id, text).id == id,
        case.tag(text).tags == case.tags.push(text),
        case.tag(text).id == case.id && case.tag(text).input == case.input && case.tag(text).files
            == case.files && case.tag(text).metadata == case.metadata,
        find_pair(case.file(key, text).files, key) == Some(text),
        other != key ==> find_pair(case.file(key, text).files, other) == find_pair(
            case.files,
            other,
        ),
        case.file(key, text).id == case.id && case.file(key, text).input == case.input
            && case.file(key, text).tags == case.tags && case.file(key, text).metadata
            == case.metadata,
        case.meta(key, value).asks(key) == Some(value),
        other != key ==> case.meta(key, value).asks(other) == case.asks(other),
        case.meta(key, value).id == case.id && case.meta(key, value).input == case.input
            && case.meta(key, value).tags == case.tags && case.meta(key, value).files
            == case.files,
{
    a_pair_is_set(case.files, key, text, other);
    put_then_lookup(case.metadata, key, value, key);
    put_then_lookup(case.metadata, key, value, other);
}

/// Whether a case states checks of its own.
pub open spec fn states_checks(case: SampleView) -> bool {
    case.asks("checks"@) matches Some(JsonView::Array(checks)) && checks.len() > 0
}

/// No case passes for want of checks: every one states some.
#[verifier::rlimit(40)]
pub proof fn every_case_states_its_checks()
    ensures
        forall|i: int| 0 <= i < coding_cases().len() ==> states_checks(
            #[trigger] coding_cases()[i],
        ),
        forall|i: int| 0 <= i < tool_policy_cases().len() ==> states_checks(
            #[trigger] tool_policy_cases()[i],
        ),
        forall|i: int| 0 <= i < session_efficiency_cases().len() ==> states_checks(
            #[trigger] session_efficiency_cases()[i],
        ),
        forall|i: int| 0 <= i < offline_contract_cases().len() ==> states_checks(
            #[trigger] offline_contract_cases()[i],
        ),
        coding_cases().len() == 4,
        tool_policy_cases().len() == 3,
        session_efficiency_cases().len() == 2,
        offline_contract_cases().len() == 2,
{
    reveal_strlit("checks");
    reveal_strlit("expect_metrics");
    assert("checks"@.len() != "expect_metrics"@.len());
    assert forall|m: Seq<(Seq<char>, JsonView)>, v: JsonView| #[trigger]
        lookup(put(m, "checks"@, v), "checks"@) == Some(v) by {
        put_then_lookup(m, "checks"@, v, "checks"@);
    }
    assert forall|m: Seq<(Seq<char>, JsonView)>, v: JsonView| #[trigger]
        lookup(put(m, "expect_metrics"@, v), "checks"@) == lookup(m, "checks"@) by {
        put_then_lookup(m, "expect_metrics"@, v, "checks"@);
    }
}

/// The long report holds each of its sections, and ends in its status.
pub proof fn the_report_holds_its_sections(n: nat, k: nat)
    requires
        1 <= k <= n,
    ensures
        has_text(sections(n), section(k)),
        report().take("# Quarterly report\n\n"@.len() as int) == "# Quarterly report\n\n"@,
        report().skip(report().len() - "STATUS: AMBER-31\n"@.len()) == "STATUS: AMBER-31\n"@,
        has_text(report(), sections(240)),
    decreases n,
{
    let a = "# Quarterly report\n\n"@;
    let b = sections(240);
    let c = "STATUS: AMBER-31\n"@;
    let all = report();
    assert(all == a + b + c);
    assert(all.take(a.len() as int) =~= a);
    assert(all.skip(all.len() - c.len()) =~= c);
    assert(all.subrange(a.len() as int, a.len() as int + b.len()) =~= b);
    assert(occurs_at(all, b, a.len() as int));
    let before = sections((n - 1) as nat);
    let whole = sections(n);
    if k == n {
        let i = before.len() as int;
        assert(whole.subrange(i, i + section(n).len()) =~= section(n));
        assert(occurs_at(whole, section(n), i));
    } else {
        the_report_holds_its_sections((n - 1) as nat, k);
        let part = section(k);
        let i = choose|i: int| occurs_at(before, part, i);
        assert(whole.subrange(i, i + part.len()) =~= before.subrange(i, i + part.len()));
        assert(occurs_at(whole, part, i));
    }
}

// ---------------------------------------------------------------- observation

/// The tools that were started are found in order: those of two parts are those
/// of the first and then those of the second, and one event names its tool.
pub proof fn started_tools_are_named_in_order(a: Seq<EventView>, b: Seq<EventView>, e: EventView)
    ensures
        started_tools(a + b) == started_tools(a) + started_tools(b),
        e matches EventView::ToolStarted { call } ==> started_tools(seq![e]) == seq![call.name],
        !(e is ToolStarted) ==> started_tools(seq![e]).len() == 0,
    decreases b.len(),
{
    assert(seq![e].drop_last() =~= Seq::empty());
    assert(seq![e].last() == e);
    assert(started_tools(seq![e].drop_last()) =~= Seq::empty());
    if let EventView::ToolStarted { call } = e {
        assert(started_tools(seq![e]) =~= seq![call.name]);
    }
    if b.len() == 0 {
        assert(a + b =~= a);
        assert(started_tools(a) + started_tools(b) =~= started_tools(a));
    } else {
        started_tools_are_named_in_order(a, b.drop_last(), e);
        assert((a + b).drop_last() =~= a + b.drop_last());
        assert((a + b).last() == b.last());
        assert(started_tools(a + b) =~= started_tools(a) + started_tools(b));
    }
}

/// Calls that failed and calls that were denied are counted, each once and
/// nothing else.
pub proof fn failures_and_denials_are_counted(a: Seq<EventView>, b: Seq<EventView>, e: EventView)
    ensures
        failed_calls(a + b) == failed_calls(a) + failed_calls(b),
        denied_calls(a + b) == denied_calls(a) + denied_calls(b),
        e matches EventView::ToolCompleted { is_error, .. } ==> failed_calls(seq![e]) == if is_error {
            1int
        } else {
            0int
        },
        !(e is ToolCompleted) ==> failed_calls(seq![e]) == 0,
        denied_calls(seq![e]) == if e is ToolDenied {
            1int
        } else {
            0int
        },
{
    let failed = |e: EventView| is_failed_call(e);
    let denied = |e: EventView| e is ToolDenied;
    Seq::filter_distributes_over_add(a, b, failed);
    Seq::filter_distributes_over_add(a, b, denied);
    reveal(Seq::filter);
    let one = seq![e];
    assert(one.drop_last() =~= Seq::empty());
    assert(one.last() == e);
    assert(one.drop_last().filter(failed) =~= Seq::empty());
    assert(one.drop_last().filter(denied) =~= Seq::empty());
}

/// Each event adds what it says to a trajectory: a message is the next step,
/// with what it says, asks for and cost; a result is added to the last step,
/// under the id of its call, behind what came before; and nothing else changes
/// a step.
#[verifier::rlimit(40)]
pub proof fn each_event_adds_what_it_says(
    steps: Seq<StepView>,
    event: EventView,
    model: Seq<char>,
)
    ensures
        ({
            let after = add_event(steps, event, model);
            let n = steps.len() as int;
            &&& forall|i: int| 0 <= i < n - 1 ==> #[trigger] after[i] == steps[i]
            &&& event matches EventView::InputMessage { message } ==> {
                &&& after.len() == n + 1
                &&& after.take(n) == steps
                &&& after[n].step_id == n + 1
                &&& after[n].source == StepSource::User
                &&& after[n].message == text_of(message.content)
                &&& after[n].model_name is None
                &&& after[n].tool_calls.len() == 0
                &&& after[n].metrics is None
                &&& after[n].observation is None
            }
            &&& event matches EventView::OutputMessageCompleted { message, usage } ==> {
                &&& after.len() == n + 1
                &&& after.take(n) == steps
                &&& after[n].step_id == n + 1
                &&& after[n].source == StepSource::Agent
                &&& after[n].message == text_of(message.content)
                &&& after[n].model_name == Some(model)
                &&& after[n].tool_calls == message.tool_calls
                &&& after[n].metrics matches Some(metrics) && metrics.prompt_tokens
                    == usage.input_tokens && metrics.completion_tokens == usage.output_tokens
                    && metrics.cached_tokens == usage.cache_read_input_tokens
                &&& after[n].observation is None
            }
            &&& event matches EventView::ToolCompleted { call_id, output, is_error } ==> {
                &&& after.len() == n
                &&& n > 0 ==> {
                    let was = steps[n - 1];
                    let had = match was.observation {
                        Some(results) => results,
                        None => Seq::empty(),
                    };
                    &&& after[n - 1].observation matches Some(results) && results.len()
                        == had.len() + 1 && results.take(had.len() as int) == had
                        && results.last() == (call_id, result_text(output, is_error))
                    &&& after[n - 1].step_id == was.step_id
                    &&& after[n - 1].source == was.source
                    &&& after[n - 1].message == was.message
                    &&& after[n - 1].tool_calls == was.tool_calls
                    &&& after[n - 1].metrics == was.metrics
                    &&& after[n - 1].model_name == was.model_name
                }
            }
            &&& event is OutputMessageDelta || event is ToolStarted || event is ToolDenied
                || event is Other ==> after == steps
        }),
{
    let after = add_event(steps, event, model);
    let n = steps.len() as int;
    match event {
        EventView::InputMessage { message } => {
            assert(after.take(n) =~= steps);
        },
        EventView::OutputMessageCompleted { message, usage } => {
            assert(after.take(n) =~= steps);
        },
        EventView::ToolCompleted { call_id, output, is_error } => {
            if n > 0 {
                let had = match steps[n - 1].observation {
                    Some(results) => results,
                    None => Seq::empty(),
                };
                let results = after[n - 1].observation->0;
                assert(results.take(had.len() as int) =~= had);
            }
        },
        _ => {},
    }
}

/// A trajectory is made event by event, from nothing.
pub proof fn a_trajectory_is_made_event_by_event(
    events: Seq<EventView>,
    event: EventView,
    model: Seq<char>,
)
    ensures
        steps_of(events.push(event), model) == add_event(steps_of(events, model), event, model),
        steps_of(Seq::empty(), model).len() == 0,
{
    assert(events.push(event).drop_last() =~= events);
}

/// A result is told as it came, up to two thousand characters; that of a call
/// that failed says so first.
pub proof fn a_result_is_told_as_it_came(output: Seq<char>, is_error: bool)
    ensures
        !is_error && output.len() <= 2000 ==> result_text(output, is_error) == output,
        is_error && output.len() + "error: "@.len() <= 2000 ==> result_text(output, is_error)
            == "error: "@ + output,
        !is_error && output.len() > 2000 ==> result_text(output, is_error).take(2000)
            == output.take(2000),
{
    if output.len() > 2000 {
        assert(result_text(output, false).take(2000) =~= output.take(2000));
    }
}

/// The count of two turns is the sum of theirs, of every kind of token.
pub proof fn every_kind_of_token_is_summed(a: Usage, b: Usage, sum: Usage)
    requires
        is_sum(a, b, sum),
    ensures
        sum.input_tokens + sum.output_tokens == a.input_tokens + a.output_tokens + b.input_tokens
            + b.output_tokens,
        sum.input_tokens == a.input_tokens + b.input_tokens,
        sum.cache_read_input_tokens - a.cache_read_input_tokens == b.cache_read_input_tokens,
        sum.cache_creation_input_tokens - a.cache_creation_input_tokens
            == b.cache_creation_input_tokens,
        sum.reasoning_tokens - a.reasoning_tokens == b.reasoning_tokens,
        is_sum(b, a, sum),
{
}

// -------------------------------------------------------------------- scoring

proof fn lemma_first_text(content: Seq<char>, list: Seq<Seq<char>>, present: bool, from: int)
    requires
        0 <= from,
    ensures
        first_text(content, list, present, from) matches Some(text) ==> exists|i: int|
            from <= i < list.len() && #[trigger] list[i] == text && has_text(content, text)
                == present && forall|j: int|
                from <= j < i ==> has_text(content, #[trigger] list[j]) != present,
    decreases list.len() - from,
{
    if from < list.len() {
        if has_text(content, list[from]) == present {
            assert(list[from] == first_text(content, list, present, from)->0);
        } else {
            lemma_first_text(content, list, present, from + 1);
            if let Some(text) = first_text(content, list, present, from + 1) {
                let i = choose|i: int|
                    from + 1 <= i < list.len() && #[trigger] list[i] == text && has_text(
                        content,
                        text,
                    ) == present && forall|j: int|
                        from + 1 <= j < i ==> has_text(content, #[trigger] list[j]) != present;
                assert(list[i] == text);
            }
        }
    }
}

/// Whether a text holds all of the wanted texts, none of the unwanted ones, and
/// one of the alternatives where there are any.
pub open spec fn is_as_asked(
    content: Seq<char>,
    wanted: Seq<Seq<char>>,
    unwanted: Seq<Seq<char>>,
    alternatives: Option<Seq<Seq<char>>>,
) -> bool {
    &&& forall|i: int| 0 <= i < wanted.len() ==> has_text(content, #[trigger] wanted[i])
    &&& forall|i: int| 0 <= i < unwanted.len() ==> !has_text(content, #[trigger] unwanted[i])
    &&& alternatives matches Some(list) ==> exists|i: int|
        0 <= i < list.len() && has_text(content, #[trigger] list[i])
}

/// The texts that a value lists, if there is a value and it is a list.
pub open spec fn texts_in(value: Option<JsonView>) -> Seq<Seq<char>> {
    match value {
        Some(v) => strings_in(v),
        None => Seq::empty(),
    }
}

/// The alternatives that a value lists, if there is a value.
pub open spec fn options_in(value: Option<JsonView>) -> Option<Seq<Seq<char>>> {
    match value {
        Some(v) => Some(strings_in(v)),
        None => None,
    }
}

/// A text is found at fault if and only if it is not as asked, and the first
/// fault is told: which text it lacks, or which one it holds.
#[verifier::rlimit(40)]
pub proof fn a_text_is_at_fault_where_it_is_not_as_asked(
    content: Seq<char>,
    wanted: Option<JsonView>,
    unwanted: Option<JsonView>,
    alternatives: Option<JsonView>,
    words: (Seq<char>, Seq<char>, Seq<char>),
)
    ensures
        text_fault(content, wanted, unwanted, alternatives, words) is None <==> is_as_asked(
            content,
            texts_in(wanted),
            texts_in(unwanted),
            options_in(alternatives),
        ),
        text_fault(content, wanted, unwanted, alternatives, words) matches Some(fault) ==> {
            ||| exists|i: int|
                0 <= i < texts_in(wanted).len() && !has_text(
                    content,
                    #[trigger] texts_in(wanted)[i],
                ) && fault == words.0 + quoted(texts_in(wanted)[i])
            ||| exists|i: int|
                0 <= i < texts_in(unwanted).len() && has_text(
                    content,
                    #[trigger] texts_in(unwanted)[i],
                ) && fault == words.1 + quoted(texts_in(unwanted)[i])
            ||| alternatives is Some && fault == words.2 + json_print(alternatives->0)
        },
{
    let w = texts_in(wanted);
    let u = texts_in(unwanted);
    assert(w == needles(wanted));
    assert(u == needles(unwanted));
    needles_are_all_tried(content, w, false, 0);
    needles_are_all_tried(content, u, true, 0);
    lemma_first_text(content, w, false, 0);
    lemma_first_text(content, u, true, 0);
    if let Some(v) = alternatives {
        let a = strings_in(v);
        assert(a == texts_in(alternatives));
        needles_are_all_tried(content, a, true, 0);
        lemma_first_text(content, a, true, 0);
        assert((first_text(content, a, true, 0) is Some) <==> exists|i: int|
            0 <= i < a.len() && has_text(content, #[trigger] a[i]));
    }
    assert((first_text(content, w, false, 0) is None) <==> forall|i: int|
        0 <= i < w.len() ==> has_text(content, #[trigger] w[i]));
    assert((first_text(content, u, true, 0) is None) <==> forall|i: int|
        0 <= i < u.len() ==> !has_text(content, #[trigger] u[i]));
    let fault = text_fault(content, wanted, unwanted, alternatives, words);
    if fault is None {
        assert(first_text(content, w, false, 0) is None);
        assert(first_text(content, u, true, 0) is None);
        if let Some(v) = alternatives {
            let a = strings_in(v);
            assert(first_text(content, a, true, 0) is Some);
            let i = choose|i: int| 0 <= i < a.len() && has_text(content, #[trigger] a[i]);
            assert(options_in(alternatives) == Some(a));
            assert(has_text(content, a[i]));
            assert(is_as_asked(content, w, u, Some(a)));
        } else {
            assert(is_as_asked(content, w, u, None));
        }
    }
    if is_as_asked(content, w, u, options_in(alternatives)) {
        assert(first_text(content, w, false, 0) is None);
        assert(first_text(content, u, true, 0) is None);
        assert(fault is None);
    }
}

/// What is looked for is what a value lists, and nothing where there is none.
pub proof fn what_is_listed_is_looked_for(value: Option<&Json>)
    ensures
        value matches Some(v) ==> opt_view(value) == Some(v@) && needles(opt_view(value))
            == strings_in(v@),
        value is None ==> needles(opt_view(value)).len() == 0,
{
}

/// The texts that a check lists under a name.
pub open spec fn listed(check: JsonView, name: Seq<char>) -> Seq<Seq<char>> {
    strings_in(check.at(name))
}

/// Whether a check holds: its file, where it names one, is there and is as it
/// asks, and so is the answer.
pub open spec fn holds(
    check: JsonView,
    files: Seq<(Seq<char>, Seq<char>)>,
    response: Seq<char>,
) -> bool {
    &&& check.at("file"@) matches JsonView::Str(path) ==> (find_pair(files, path) matches Some(
        content,
    ) && is_as_asked(
        content,
        listed(check, "contains"@),
        listed(check, "lacks"@),
        options_in(check.get("contains_any"@)),
    ))
    &&& is_as_asked(
        response,
        listed(check, "response_contains"@),
        listed(check, "response_lacks"@),
        options_in(check.get("response_contains_any"@)),
    )
}

proof fn lemma_check(check: JsonView, files: Seq<(Seq<char>, Seq<char>)>, response: Seq<char>)
    ensures
        check_fault(check, files, response) is None <==> holds(check, files, response),
{
    a_text_is_at_fault_where_it_is_not_as_asked(
        response,
        check.get("response_contains"@),
        check.get("response_lacks"@),
        check.get("response_contains_any"@),
        (
            "the response lacks "@,
            "the response contains "@,
            "the response matches none of "@,
        ),
    );
    if let JsonView::Str(path) = check.at("file"@) {
        if let Some(content) = find_pair(files, path) {
            a_text_is_at_fault_where_it_is_not_as_asked(
                content,
                check.get("contains"@),
                check.get("lacks"@),
                check.get("contains_any"@),
                (path + " lacks "@, path + " still contains "@, path + " matches none of "@),
            );
        }
    }
    assert(strings_in(JsonView::Null) =~= Seq::empty());
}

/// A case passes its checks if and only if every one of them holds; one
/// without checks passes.
pub proof fn a_case_passes_where_its_checks_hold(
    asked: Option<JsonView>,
    files: Seq<(Seq<char>, Seq<char>)>,
    response: Seq<char>,
)
    ensures
        match asked {
            Some(JsonView::Array(checks)) => checked(asked, files, response).pass <==> forall|
                i: int,
            |
                0 <= i < checks.len() ==> holds(#[trigger] checks[i], files, response),
            _ => checked(asked, files, response).pass,
        },
{
    if let Some(JsonView::Array(checks)) = asked {
        every_check_is_made(checks, files, response, 0);
        assert forall|i: int| 0 <= i < checks.len() implies (check_fault(
            #[trigger] checks[i],
            files,
            response,
        ) is None <==> holds(checks[i], files, response)) by {
            lemma_check(checks[i], files, response);
        }
        if forall|i: int| 0 <= i < checks.len() ==> holds(#[trigger] checks[i], files, response) {
            assert forall|i: int| 0 <= i < checks.len() implies check_fault(
                #[trigger] checks[i],
                files,
                response,
            ) is None by {
                assert(holds(checks[i], files, response));
            }
        }
        if checked(asked, files, response).pass {
            assert forall|i: int| 0 <= i < checks.len() implies holds(
                #[trigger] checks[i],
                files,
                response,
            ) by {
                assert(check_fault(checks[i], files, response) is None);
            }
        }
    }
}

proof fn lemma_first_tool_is(
    tools: Seq<Seq<char>>,
    used: Seq<Seq<char>>,
    present: bool,
    from: int,
)
    requires
        0 <= from,
    ensures
        match first_tool(tools, used, present, from) {
            Some(tool) => exists|i: int|
                from <= i < tools.len() && #[trigger] tools[i] == tool && used.contains(tool)
                    == present,
            None => forall|i: int|
                from <= i < tools.len() ==> used.contains(#[trigger] tools[i]) != present,
        },
    decreases tools.len() - from,
{
    if from < tools.len() {
        if used.contains(tools[from]) == present {
            assert(tools[from] == first_tool(tools, used, present, from)->0);
        } else {
            lemma_first_tool_is(tools, used, present, from + 1);
        }
    }
}

/// The choice of tools passes if and only if every tool that is required was
/// used, one of the alternatives where there are any, and none that is
/// forbidden.
pub proof fn tools_pass_where_they_are_as_asked(
    required: Seq<Seq<char>>,
    alternatives: Seq<Seq<char>>,
    forbidden: Seq<Seq<char>>,
    used: Seq<Seq<char>>,
)
    ensures
        disciplined(required, alternatives, forbidden, used).pass <==> {
            &&& forall|i: int| 0 <= i < required.len() ==> used.contains(#[trigger] required[i])
            &&& alternatives.len() > 0 ==> exists|i: int|
                0 <= i < alternatives.len() && used.contains(#[trigger] alternatives[i])
            &&& forall|i: int|
                0 <= i < forbidden.len() ==> !used.contains(#[trigger] forbidden[i])
        },
{
    lemma_first_tool_is(required, used, false, 0);
    lemma_first_tool_is(alternatives, used, true, 0);
    lemma_first_tool_is(forbidden, used, true, 0);
}

/// A choice of tools that fails says why: which required tool was not used, or
/// which forbidden one was; and where one of several was required, which those
/// are.
pub proof fn a_failed_choice_of_tools_says_why(
    required: Seq<Seq<char>>,
    alternatives: Seq<Seq<char>>,
    forbidden: Seq<Seq<char>>,
    used: Seq<Seq<char>>,
)
    requires
        !disciplined(required, alternatives, forbidden, used).pass,
    ensures
        ({
            let reason = disciplined(required, alternatives, forbidden, used).reason;
            ||| exists|i: int|
                0 <= i < required.len() && !used.contains(#[trigger] required[i]) && reason
                    == "never called `"@ + required[i] + "` (used "@ + quoted_list(used) + ")"@
            ||| exists|i: int|
                0 <= i < forbidden.len() && used.contains(#[trigger] forbidden[i]) && reason
                    == "called `"@ + forbidden[i] + "`, which this case forbids"@
            ||| reason == "called none of "@ + quoted_list(alternatives) + " (used "@ + quoted_list(
                used,
            ) + ")"@
        }),
{
    lemma_first_tool_is(required, used, false, 0);
    lemma_first_tool_is(forbidden, used, true, 0);
}

/// A score is a scorer's verdict if and only if it names the scorer, passes as
/// the verdict does, and gives its reason.
pub proof fn a_score_is_its_verdict(score: Score, scorer: Seq<char>, v: Verdict)
    ensures
        score.says(scorer, v) <==> score.scorer@ == scorer && score.pass == v.pass && score.reason@
            == v.reason,
{
}

/// A list of texts is shown in brackets, each in quotes, a comma between each
/// two.
pub proof fn a_list_is_shown_in_quotes(list: Seq<Seq<char>>)
    ensures
        quoted_list(list) == "["@ + joined(
            Seq::new(list.len(), |i: int| quoted(list[i])),
            ", "@,
        ) + "]"@,
{
    assert(list.map_values(|t: Seq<char>| quoted(t)) =~= Seq::new(
        list.len(),
        |i: int| quoted(list[i]),
    ));
}

/// A budget is told with what was taken and what was allowed; a trajectory
/// that fails names a call and its id.
pub proof fn scores_tell_their_numbers(
    usage: Usage,
    max: int,
    steps: Seq<StepView>,
    files: Seq<(Seq<char>, Seq<char>)>,
    response: Seq<char>,
)
    requires
        0 <= max <= u64::MAX,
    ensures
        ({
            let total = usage.input_tokens + usage.output_tokens;
            let told = budgeted(Some(JsonView::Int(max)), usage).reason;
            &&& total <= max ==> told == decimal(total as nat) + " tokens (budget "@ + decimal(
                max as nat,
            ) + ")"@
            &&& total > max ==> told == decimal(total as nat) + " tokens exceeds the "@ + decimal(
                max as nat,
            ) + " budget"@
        }),
        budgeted(None, usage).reason == "no budget declared"@,
        joined_up(None).reason == "the subject reported no trajectory"@,
        !joined_up(Some(steps)).pass ==> exists|name: Seq<char>, id: Seq<char>|
            joined_up(Some(steps)).reason == #[trigger] unjoined_reason(name, id),
        joined_up(Some(steps)).pass ==> joined_up(Some(steps)).reason
            == "every tool call carries its observation"@,
        checked(None, files, response).reason == "no checks declared"@,
        checked(Some(JsonView::Array(Seq::empty())), files, response).reason
            == "every declared check held"@,
{
    if let Some(call) = first_unjoined(steps, 0) {
        assert(joined_up(Some(steps)).reason == unjoined_reason(call.name, call.id));
    }
}

/// What is said of a call without an observation.
pub open spec fn unjoined_reason(name: Seq<char>, id: Seq<char>) -> Seq<char> {
    "`"@ + name + "` has no observation joined to call "@ + id
}

/// What is found wrong with a file names the file, and what is found wrong with
/// the answer says that it is the answer.
#[verifier::rlimit(40)]
pub proof fn a_fault_says_where_it_is(
    check: JsonView,
    files: Seq<(Seq<char>, Seq<char>)>,
    response: Seq<char>,
)
    ensures
        file_fault(check, files) matches Some(fault) ==> (check.at("file"@) matches JsonView::Str(
            path,
        ) && fault.take(path.len() as int) == path),
        response_fault(check, response) matches Some(fault) ==> fault.take(13)
            == "the response "@,
{
    reveal_strlit("the response ");
    reveal_strlit("the response lacks ");
    reveal_strlit("the response contains ");
    reveal_strlit("the response matches none of ");
    if let Some(fault) = response_fault(check, response) {
        assert("the response lacks "@.take(13) =~= "the response "@);
        assert("the response contains "@.take(13) =~= "the response "@);
        assert("the response matches none of "@.take(13) =~= "the response "@);
        assert(fault.take(13) =~= "the response lacks "@.take(13) || fault.take(13)
            =~= "the response contains "@.take(13) || fault.take(13)
            =~= "the response matches none of "@.take(13));
    }
    if let Some(fault) = file_fault(check, files) {
        let path = check.at("file"@)->Str_0;
        assert(fault.take(path.len() as int) =~= path);
    }
}

/// A case keeps its budget if and only if its input and output together are no
/// more than that; one without a budget keeps it.
pub proof fn a_budget_is_kept_up_to_its_limit(asked: Option<JsonView>, usage: Usage, max: int)
    requires
        0 <= max <= u64::MAX,
    ensures
        asked == Some(JsonView::Int(max)) ==> (budgeted(asked, usage).pass <==> usage.input_tokens
            + usage.output_tokens <= max),
        asked is None ==> budgeted(asked, usage).pass,
{
}

/// A trajectory passes if and only if there is one and every call in it has an
/// observation under its id.
pub proof fn a_trajectory_passes_where_every_call_is_answered(trajectory: Option<Seq<StepView>>)
    ensures
        match trajectory {
            None => !joined_up(trajectory).pass,
            Some(steps) => joined_up(trajectory).pass <==> forall|i: int, k: int|
                0 <= i < steps.len() && 0 <= k < steps[i].tool_calls.len() ==> is_answered(
                    steps[i],
                    (#[trigger] steps[i].tool_calls[k]).id,
                ),
        },
{
    if let Some(steps) = trajectory {
        lemma_first_unjoined(steps, 0);
        assert forall|step: StepView, id: Seq<char>|
            observed(step, id) == #[trigger] is_answered(step, id) by {}
        assert forall|i: int| 0 <= i < steps.len() implies (first_unanswered(
            #[trigger] steps[i],
            0,
        ) is None <==> forall|k: int|
            0 <= k < steps[i].tool_calls.len() ==> observed(
                steps[i],
                (#[trigger] steps[i].tool_calls[k]).id,
            )) by {
            lemma_first_unanswered(steps[i], 0);
        }
    }
}

/// Whether a step holds a result under this id.
pub open spec fn is_answered(step: StepView, id: Seq<char>) -> bool {
    match step.observation {
        Some(results) => exists|i: int| 0 <= i < results.len() && (#[trigger] results[i]).0 == id,
        None => false,
    }
}

proof fn lemma_first_unanswered(step: StepView, from: int)
    requires
        0 <= from,
    ensures
        first_unanswered(step, from) is None <==> forall|k: int|
            from <= k < step.tool_calls.len() ==> observed(
                step,
                (#[trigger] step.tool_calls[k]).id,
            ),
    decreases step.tool_calls.len() - from,
{
    if from < step.tool_calls.len() {
        lemma_first_unanswered(step, from + 1);
    }
}

proof fn lemma_first_unjoined(steps: Seq<StepView>, from: int)
    requires
        0 <= from,
    ensures
        first_unjoined(steps, from) is None <==> forall|i: int|
            from <= i < steps.len() ==> first_unanswered(#[trigger] steps[i], 0) is None,
    decreases steps.len() - from,
{
    if from < steps.len() {
        lemma_first_unjoined(steps, from + 1);
    }
}

// -------------------------------------------------------------------- harness

/// Each service has its own key and its own address; the scripted model has
/// neither.
pub proof fn services_are_reached_where_they_are()
    ensures
        key_variable("anthropic"@) == Some("ANTHROPIC_API_KEY"@),
        key_variable("openai"@) == Some("OPENAI_API_KEY"@),
        key_variable("openrouter"@) == Some("OPENROUTER_API_KEY"@),
        key_variable("sim"@) is None,
        reached("sim"@) == (Protocol::Scripted, None::<Seq<char>>),
        reached("anthropic"@) == (
            Protocol::Anthropic { max_tokens: 16_000 },
            Some("https://api.anthropic.com"@),
        ),
        reached("openai"@) == (Protocol::OpenAi, Some("https://api.openai.com/v1"@)),
        reached("openrouter"@) == (Protocol::OpenAi, Some("https://openrouter.ai/api/v1"@)),
{
    reveal_strlit("sim");
    reveal_strlit("anthropic");
    reveal_strlit("openai");
    reveal_strlit("openrouter");
    assert("sim"@.len() == 3);
    assert("anthropic"@.len() == 9);
    assert("openai"@.len() == 6);
    assert("openrouter"@.len() == 10);
}

/// A key is usable if and only if it is there and holds more than white space.
pub proof fn a_blank_key_is_none(key: Seq<char>)
    ensures
        usable(Some(key)) <==> exists|k: int| 0 <= k < key.len() && !is_space(#[trigger] key[k]),
        !usable(None),
{
    trimmed_text_has_no_edges(key);
}

/// A step of a script that names a tool is played as its call, with the
/// arguments given; any other as its text.
pub proof fn a_script_is_played_as_it_states(turn: SimTurn, step: JsonView)
    requires
        plays(turn, step),
    ensures
        step.at("tool"@) matches JsonView::Str(tool) ==> {
            &&& turn.tool_calls@.len() == 1
            &&& turn.tool_calls@[0].name@ == tool
            &&& step.get("args"@) matches Some(arguments) ==> turn.tool_calls@[0].arguments@
                == arguments
            &&& step.get("args"@) is None ==> turn.tool_calls@[0].arguments@ == JsonView::Object(
                Seq::empty(),
            )
        },
        step.at("tool"@) !is Str ==> {
            &&& turn.tool_calls@.len() == 0
            &&& step.at("text"@) matches JsonView::Str(text) ==> turn.text@ == text
        },
{
}

/// What a command printed is shown first and what it complained of last, on a
/// line of its own; nothing is left out of either but blanks.
pub proof fn both_outputs_are_shown(stdout: Seq<char>, stderr: Seq<char>)
    requires
        trimmed(stdout).len() > 0,
        trimmed(stderr).len() > 0,
    ensures
        printed(stdout, stderr).take(stdout.len() as int) == stdout,
        printed(stdout, stderr).skip(printed(stdout, stderr).len() - stderr.len()) == stderr,
        stdout.last() != '\n' ==> printed(stdout, stderr) == stdout + seq!['\n'] + stderr,
        stdout.last() == '\n' ==> printed(stdout, stderr) == stdout + stderr,
{
    reveal_strlit("\n");
    assert("\n"@ =~= seq!['\n']);
    trimmed_text_has_no_edges(stdout);
    let k = choose|k: int| 0 <= k < stdout.len() && !is_space(#[trigger] stdout[k]);
    let body = if stdout.last() != '\n' {
        stdout + seq!['\n'] + stderr
    } else {
        stdout + stderr
    };
    trimmed_text_has_no_edges(body);
    assert(body[k] == stdout[k]);
    assert(printed(stdout, stderr) == body);
    assert(body.take(stdout.len() as int) =~= stdout);
    assert(body.skip(body.len() - stderr.len()) =~= stderr);
}

/// A command that complained of nothing is shown as what it printed, and one
/// that printed nothing but blanks says so.
pub proof fn silence_is_told(stdout: Seq<char>, stderr: Seq<char>)
    requires
        trimmed(stderr).len() == 0,
    ensures
        trimmed(stdout).len() > 0 ==> printed(stdout, stderr) == stdout,
        trimmed(stdout).len() == 0 ==> printed(stdout, stderr) == "(no output)"@,
{
}

/// A command that succeeded answers with its output; one that failed answers
/// with an error that tells its code and then its output. Either is cut after
/// eight thousand characters.
pub proof fn a_command_answers_with_its_output(
    success: bool,
    code: Option<i32>,
    stdout: Seq<char>,
    stderr: Seq<char>,
)
    ensures
        ({
            let out = ended(success, code, stdout, stderr);
            let shown = printed(stdout, stderr);
            let lead = "exit status "@ + told_code(code) + "\n"@;
            &&& out.is_error <==> !success
            &&& out.metadata is Null
            &&& success && shown.len() <= 8000 ==> out.content == shown
            &&& !success && shown.len() <= 8000 ==> out.content == lead + shown
            &&& shown.len() > 8000 && success ==> out.content.take(8000) == shown.take(8000)
        }),
        code matches Some(n) ==> told_code(code) == "Some("@ + decimal_int(n as int) + ")"@,
        code is None ==> told_code(code) == "None"@,
{
    let shown = printed(stdout, stderr);
    if shown.len() > 8000 {
        assert(truncated(shown, 8000).take(8000) =~= shown.take(8000));
    }
}

/// The tool that runs a command takes one, as a text, and cannot do without.
pub proof fn a_command_has_to_be_given()
    ensures
        command_parameters().at("type"@) == JsonView::Str("object"@),
        command_parameters().at("properties"@).at("command"@).at("type"@) == JsonView::Str(
            "string"@,
        ),
        command_parameters().at("required"@) == JsonView::Array(seq![JsonView::Str("command"@)]),
{
    reveal_strlit("type");
    reveal_strlit("description");
    reveal_strlit("properties");
    reveal_strlit("required");
    let said = "The bash command line to run."@;
    let command = JsonView::Object(
        seq![("type"@, JsonView::Str("string"@)), ("description"@, JsonView::Str(said))],
    );
    members_of_two("type"@, JsonView::Str("string"@), "description"@, JsonView::Str(said));
    member_of_one("command"@, command);
    members_of_three(
        "type"@,
        JsonView::Str("object"@),
        "properties"@,
        JsonView::Object(seq![("command"@, command)]),
        "required"@,
        JsonView::Array(seq![JsonView::Str("command"@)]),
    );
}

/// The fresh input is what is left of all input without what a cache served
/// and what it stored, and nothing where those are more.
pub proof fn fresh_input_is_what_no_cache_saw(usage: Usage)
    ensures
        usage.cache_read_input_tokens + usage.cache_creation_input_tokens <= usage.input_tokens
            ==> fresh(usage) + usage.cache_read_input_tokens + usage.cache_creation_input_tokens
            == usage.input_tokens,
        usage.cache_read_input_tokens + usage.cache_creation_input_tokens >= usage.input_tokens
            ==> fresh(usage) == 0,
{
}

/// The results of a trajectory come step by step, and those of a session event
/// by event.
pub proof fn results_come_one_by_one(
    steps: Seq<StepView>,
    more: Seq<StepView>,
    a: Seq<EventView>,
    b: Seq<EventView>,
    e: EventView,
)
    ensures
        all_results(steps + more) == all_results(steps) + all_results(more),
        reported(a + b) == reported(a) + reported(b),
        e matches EventView::ToolCompleted { call_id, output, is_error } ==> reported(seq![e])
            == seq![(call_id, result_text(output, is_error))],
        !(e is ToolCompleted) ==> reported(seq![e]).len() == 0,
{
    lemma_all_results(steps, more);
    lemma_reported(a, b);
    assert(seq![e].drop_last() =~= Seq::empty());
    assert(reported(seq![e].drop_last()) =~= Seq::empty());
    assert(seq![e].last() == e);
    if let EventView::ToolCompleted { call_id, output, is_error } = e {
        assert(reported(seq![e]) =~= seq![(call_id, result_text(output, is_error))]);
    }
}

proof fn lemma_all_results(a: Seq<StepView>, b: Seq<StepView>)
    ensures
        all_results(a + b) == all_results(a) + all_results(b),
    decreases b.len(),
{
    if b.len() == 0 {
        assert(a + b =~= a);
        assert(all_results(a) + all_results(b) =~= all_results(a));
    } else {
        lemma_all_results(a, b.drop_last());
        assert((a + b).drop_last() =~= a + b.drop_last());
        assert((a + b).last() == b.last());
        assert(all_results(a + b) =~= all_results(a) + all_results(b));
    }
}

proof fn lemma_reported(a: Seq<EventView>, b: Seq<EventView>)
    ensures
        reported(a + b) == reported(a) + reported(b),
    decreases b.len(),
{
    if b.len() == 0 {
        assert(a + b =~= a);
        assert(reported(a) + reported(b) =~= reported(a));
    } else {
        lemma_reported(a, b.drop_last());
        assert((a + b).drop_last() =~= a + b.drop_last());
        assert((a + b).last() == b.last());
        assert(reported(a + b) =~= reported(a) + reported(b));
    }
}

} // verus!
