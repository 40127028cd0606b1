//! The arguments of a tool call, which travel as text.

use vstd::prelude::*;

use crate::json::{empty_object, jempty, json_parse, parse_json, Json, JsonView};

verus! {

/// The arguments that a parsed text stands for: an empty object when the text
/// is no JSON.
pub open spec fn arguments_or_empty(parsed: Result<JsonView, Seq<char>>) -> JsonView {
    match parsed {
        Ok(value) => value,
        Err(_) => jempty(),
    }
}

/// The arguments that a text stands for.
pub open spec fn arguments_of(text: Seq<char>) -> JsonView {
    arguments_or_empty(json_parse(text))
}

/// The arguments that a parsed text stands for: an empty object when the text
/// is no JSON.
pub fn arguments_from(parsed: Result<Json, String>) -> (r: Json)
    ensures
        r@ == (match parsed {
            Ok(value) => value@,
            Err(_) => jempty(),
        }),
{
    match parsed {
        Ok(value) => value,
        Err(_) => empty_object(),
    }
}

/// The arguments that a text stands for.
pub fn parse_arguments(text: &str) -> (r: Json)
    ensures
        r@ == arguments_of(text@),
{
    arguments_from(parse_json(text))
}

/// Arguments as a provider sends them: a JSON text, or the value itself.
pub fn parse_tool_call_arguments(raw: &Json) -> (r: Json)
    ensures
        r@ == (match raw@ {
            JsonView::Str(text) => arguments_of(text),
            other => other,
        }),
{
    match raw {
        Json::Str(text) => parse_arguments(text.as_str()),
        other => other.clone(),
    }
}

/// Arguments that can be read are those that were sent; those that cannot be
/// read are an object without members, not a failure.
pub proof fn arguments_are_read_as_sent(text: Seq<char>)
    ensures
        match json_parse(text) {
            Ok(value) => arguments_of(text) == value,
            Err(_) => arguments_of(text) == JsonView::Object(Seq::empty()),
        },
{
}

} // verus!
