//! What the workspace tools do with their arguments, and what they answer.
//!
//! A host does the reading and writing between the two.

use vstd::prelude::*;

use crate::filesystem::{entries_view, EntryView, FileEntry, FileStat, StatView};
use crate::filesystem::grep::{compile, regex_new};
use crate::json::{jstr, Json, JsonView};
use crate::message::{error_output, text_output, OutputView, ToolOutput};
use crate::text::{cat2, cat3, cat4, cat5, count_from, count_matches, decimal, decimal_of,
    find_from, join, joined, lemma_find_from, lines, lines_of, occurs_at, replace, replace_from,
    texts};

verus! {

/// The text of an argument.
pub open spec fn text_argument(arguments: JsonView, name: Seq<char>) -> Option<Seq<char>> {
    arguments.at(name).text()
}

/// A flag among the arguments, off unless it is set.
pub open spec fn flag_argument(arguments: JsonView, name: Seq<char>) -> bool {
    arguments.at(name).boolean() == Some(true)
}

/// What a tool answers when an argument that it needs is not there.
pub open spec fn missing_argument(name: Seq<char>) -> OutputView {
    error_output("missing required argument `"@ + name + "`"@)
}

fn missing(name: &str) -> (r: ToolOutput)
    ensures
        r@ == missing_argument(name@),
{
    ToolOutput::error(cat3("missing required argument `", name, "`"))
}

/// The text of an argument, or what the tool answers without it.
pub fn required_text(arguments: &Json, name: &str) -> (r: Result<String, ToolOutput>)
    ensures
        match text_argument(arguments@, name@) {
            Some(text) => r matches Ok(s) && s@ == text,
            None => r matches Err(output) && output@ == missing_argument(name@),
        },
{
    match arguments.get_str(name) {
        Some(s) => Ok(s.to_owned()),
        None => Err(missing(name)),
    }
}

/// The text of an argument, empty when it is not there.
pub fn optional_text(arguments: &Json, name: &str) -> (r: String)
    ensures
        r@ == (match text_argument(arguments@, name@) {
            Some(text) => text,
            None => Seq::empty(),
        }),
{
    match arguments.get_str(name) {
        Some(s) => s.to_owned(),
        None => String::new(),
    }
}

fn flag(arguments: &Json, name: &str) -> (r: bool)
    ensures
        r == flag_argument(arguments@, name@),
{
    match arguments.get(name) {
        Some(v) => match v.as_bool() {
            Some(b) => b,
            None => false,
        },
        None => false,
    }
}

fn number(arguments: &Json, name: &str) -> (r: Option<u64>)
    ensures
        match r {
            Some(n) => arguments@.at(name@).unsigned() == Some(n as int),
            None => arguments@.at(name@).unsigned() is None,
        },
{
    match arguments.get(name) {
        Some(v) => v.as_u64(),
        None => None,
    }
}

// ------------------------------------------------------------------- read

/// The line that a read starts at, counted from 1.
pub open spec fn read_offset(arguments: JsonView) -> int {
    match arguments.at("offset"@).unsigned() {
        Some(n) if n > 1 => n,
        _ => 1,
    }
}

/// The lines that a read returns.
pub open spec fn read_lines(arguments: JsonView, all: Seq<Seq<char>>) -> Seq<Seq<char>> {
    let from = read_offset(arguments) - 1;
    if from >= all.len() {
        Seq::empty()
    } else {
        let rest = all.skip(from);
        match arguments.at("limit"@).unsigned() {
            Some(limit) if limit < rest.len() => rest.take(limit),
            _ => rest,
        }
    }
}

/// What a read answers: the whole content, or the window that was asked for,
/// which is stated along with it.
pub open spec fn read_answer(arguments: JsonView, content: Seq<char>) -> OutputView {
    let offset = read_offset(arguments);
    if offset == 1 && arguments.at("limit"@).unsigned() is None {
        text_output(content)
    } else {
        let all = lines_of(content);
        let taken = read_lines(arguments, all);
        OutputView {
            metadata: JsonView::Object(
                seq![
                    (
                        "lines"@,
                        JsonView::Object(
                            seq![
                                ("offset"@, JsonView::Int(offset)),
                                ("returned"@, JsonView::Int(taken.len() as int)),
                                ("total"@, JsonView::Int(all.len() as int)),
                                ("last"@, JsonView::Int(offset + taken.len() - 1)),
                            ],
                        ),
                    ),
                ],
            ),
            ..text_output(joined(taken, "\n"@))
        }
    }
}

/// What a read answers, once the file was read.
pub fn read_file_output(arguments: &Json, content: Result<String, String>) -> (r: ToolOutput)
    ensures
        r@ == (match content {
            Ok(content) => read_answer(arguments@, content@),
            Err(error) => error_output(error@),
        }),
{
    let content = match content {
        Ok(content) => content,
        Err(error) => {
            return ToolOutput::error(error);
        },
    };
    let offset: u64 = match number(arguments, "offset") {
        Some(n) => if n > 1 {
            n
        } else {
            1
        },
        None => 1,
    };
    let limit = number(arguments, "limit");
    if offset == 1 && limit.is_none() {
        return ToolOutput::text(content);
    }
    let all = lines(content.as_str());
    let ghost texts_all = texts(all@);
    let total: usize = all.len();
    let from: usize = if offset - 1 >= total as u64 {
        total
    } else {
        (offset - 1) as usize
    };
    let rest: usize = total - from;
    let count: usize = match limit {
        Some(limit) => if limit < rest as u64 {
            limit as usize
        } else {
            rest
        },
        None => rest,
    };
    let mut taken: Vec<String> = Vec::new();
    let mut i: usize = 0;
    while i < count
        invariant
            taken@.len() == i <= count,
            from + count <= all@.len(),
            forall|k: int| 0 <= k < i ==> (#[trigger] taken@[k])@ == all@[from + k]@,
        decreases count - i,
    {
        assert(from + i < all.len());
        taken.push(all[from + i].clone());
        i += 1;
    }
    assert(texts(taken@) =~= read_lines(arguments@, texts_all));
    let last: u64 = if count == 0 {
        offset - 1
    } else {
        offset - 1 + count as u64
    };
    let text = join(&taken, "\n");
    ToolOutput::text(text).with_metadata(
        Json::object1(
            "lines",
            Json::object4(
                "offset",
                Json::Unsigned(offset),
                "returned",
                Json::Unsigned(count as u64),
                "total",
                Json::Unsigned(total as u64),
                "last",
                Json::Unsigned(last),
            ),
        ),
    )
}

// ------------------------------------------------------------------ write

/// The path and content to write, or what the tool answers without them.
pub fn write_file_request(arguments: &Json) -> (r: Result<(String, String), ToolOutput>)
    ensures
        match (text_argument(arguments@, "path"@), text_argument(arguments@, "content"@)) {
            (None, _) => r matches Err(output) && output@ == missing_argument("path"@),
            (Some(_), None) => r matches Err(output) && output@ == missing_argument("content"@),
            (Some(path), Some(content)) => r matches Ok(request) && request.0@ == path
                && request.1@ == content,
        },
{
    let path = match required_text(arguments, "path") {
        Ok(path) => path,
        Err(output) => {
            return Err(output);
        },
    };
    match required_text(arguments, "content") {
        Ok(content) => Ok((path, content)),
        Err(output) => Err(output),
    }
}

/// What a write answers, once it was tried.
pub fn write_file_output(path: &str, outcome: Result<(), String>) -> (r: ToolOutput)
    ensures
        r@ == (match outcome {
            Ok(_) => text_output("wrote "@ + path@),
            Err(error) => error_output(error@),
        }),
{
    match outcome {
        Ok(_) => ToolOutput::text(cat2("wrote ", path)),
        Err(error) => ToolOutput::error(error),
    }
}

// ----------------------------------------------------------------- delete

/// The path to delete and whether with everything inside, or what the tool
/// answers without a path.
pub fn delete_file_request(arguments: &Json) -> (r: Result<(String, bool), ToolOutput>)
    ensures
        match text_argument(arguments@, "path"@) {
            None => r matches Err(output) && output@ == missing_argument("path"@),
            Some(path) => r matches Ok(request) && request.0@ == path && request.1
                == flag_argument(arguments@, "recursive"@),
        },
{
    match required_text(arguments, "path") {
        Ok(path) => Ok((path, flag(arguments, "recursive"))),
        Err(output) => Err(output),
    }
}

/// What a deletion answers, once it was tried.
pub fn delete_file_output(path: &str, outcome: Result<(), String>) -> (r: ToolOutput)
    ensures
        r@ == (match outcome {
            Ok(_) => text_output("deleted "@ + path@),
            Err(error) => error_output(error@),
        }),
{
    match outcome {
        Ok(_) => ToolOutput::text(cat2("deleted ", path)),
        Err(error) => ToolOutput::error(error),
    }
}

// ------------------------------------------------------------------- list

/// One line of a listing.
pub open spec fn listing_line(entry: EntryView) -> Seq<char> {
    if entry.is_dir {
        entry.name + "/"@
    } else {
        entry.name + " ("@ + decimal(entry.size as nat) + " bytes)"@
    }
}

/// What a listing answers.
pub open spec fn listing_answer(entries: Seq<EntryView>) -> OutputView {
    text_output(
        if entries.len() == 0 {
            "(empty)"@
        } else {
            joined(entries.map_values(|e: EntryView| listing_line(e)), "\n"@)
        },
    )
}

/// What a listing answers, once it was tried.
pub fn list_directory_output(entries: Result<Vec<FileEntry>, String>) -> (r: ToolOutput)
    ensures
        r@ == (match entries {
            Ok(entries) => listing_answer(entries_view(entries@)),
            Err(error) => error_output(error@),
        }),
{
    let entries = match entries {
        Ok(entries) => entries,
        Err(error) => {
            return ToolOutput::error(error);
        },
    };
    if entries.len() == 0 {
        return ToolOutput::text("(empty)".to_owned());
    }
    let mut shown: Vec<String> = Vec::new();
    let mut i: usize = 0;
    while i < entries.len()
        invariant
            shown@.len() == i <= entries@.len(),
            forall|k: int| 0 <= k < i ==> (#[trigger] shown@[k])@ == listing_line(entries@[k]@),
        decreases entries.len() - i,
    {
        let entry = &entries[i];
        if entry.is_dir {
            shown.push(cat2(entry.name.as_str(), "/"));
        } else {
            let size = decimal_of(entry.size);
            shown.push(cat4(entry.name.as_str(), " (", size.as_str(), " bytes)"));
        }
        i += 1;
    }
    assert(texts(shown@) =~= entries_view(entries@).map_values(|e: EntryView| listing_line(e)));
    ToolOutput::text(join(&shown, "\n"))
}

// ------------------------------------------------------------------- stat

/// What a description answers. A missing path is an answer, not an error.
pub open spec fn stat_answer(path: Seq<char>, stat: StatView) -> OutputView {
    if !stat.exists {
        OutputView {
            metadata: JsonView::Object(
                seq![("exists"@, JsonView::Bool(false)), ("path"@, jstr(path))],
            ),
            ..text_output(path + ": does not exist"@)
        }
    } else {
        OutputView {
            metadata: JsonView::Object(
                seq![
                    ("exists"@, JsonView::Bool(true)),
                    ("path"@, jstr(path)),
                    ("is_dir"@, JsonView::Bool(stat.is_dir)),
                    ("size"@, JsonView::Int(stat.size)),
                ],
            ),
            ..text_output(
                path + ": "@ + (if stat.is_dir {
                    "directory, "@
                } else {
                    "file, "@
                }) + decimal(stat.size as nat) + " bytes"@,
            )
        }
    }
}

/// What a description answers, once it was made.
pub fn stat_file_output(path: &str, stat: Result<FileStat, String>) -> (r: ToolOutput)
    ensures
        r@ == (match stat {
            Ok(stat) => stat_answer(path@, stat@),
            Err(error) => error_output(error@),
        }),
{
    match stat {
        Err(error) => ToolOutput::error(error),
        Ok(stat) => {
            if !stat.exists {
                return ToolOutput::text(cat2(path, ": does not exist")).with_metadata(
                    Json::object2("exists", Json::Bool(false), "path", Json::text(path)),
                );
            }
            let kind = if stat.is_dir {
                "directory, "
            } else {
                "file, "
            };
            let size = decimal_of(stat.size);
            ToolOutput::text(cat5(path, ": ", kind, size.as_str(), " bytes")).with_metadata(
                Json::object4(
                    "exists",
                    Json::Bool(true),
                    "path",
                    Json::text(path),
                    "is_dir",
                    Json::Bool(stat.is_dir),
                    "size",
                    Json::Unsigned(stat.size),
                ),
            )
        },
    }
}

// ------------------------------------------------------------------- edit

/// An edit to make.
#[derive(Debug)]
pub struct EditRequest {
    pub path: String,
    pub old_string: String,
    pub new_string: String,
    pub replace_all: bool,
}

/// The edit that is asked for, or what the tool answers when its arguments do
/// not make one.
pub fn edit_file_request(arguments: &Json) -> (r: Result<EditRequest, ToolOutput>)
    ensures
        match (
            text_argument(arguments@, "path"@),
            text_argument(arguments@, "old_string"@),
            text_argument(arguments@, "new_string"@),
        ) {
            (Some(path), Some(old_text), Some(new_text)) => if old_text.len() == 0 {
                r matches Err(output) && output@ == error_output(
                    "`old_string` must not be empty — use write_file to create a file"@,
                )
            } else {
                r matches Ok(request) && request.path@ == path && request.old_string@ == old_text
                    && request.new_string@ == new_text && request.replace_all == flag_argument(
                    arguments@,
                    "replace_all"@,
                )
            },
            _ => r matches Err(output) && output@ == error_output(
                "missing required arguments: `path`, `old_string`, `new_string`"@,
            ),
        },
{
    match (
        arguments.get_str("path"),
        arguments.get_str("old_string"),
        arguments.get_str("new_string"),
    ) {
        (Some(path), Some(old_text), Some(new_text)) => {
            if old_text.is_empty() {
                return Err(
                    ToolOutput::error(
                        "`old_string` must not be empty — use write_file to create a file".to_owned(),
                    ),
                );
            }
            Ok(
                EditRequest {
                    path: path.to_owned(),
                    old_string: old_text.to_owned(),
                    new_string: new_text.to_owned(),
                    replace_all: flag(arguments, "replace_all"),
                },
            )
        },
        _ => Err(
            ToolOutput::error(
                "missing required arguments: `path`, `old_string`, `new_string`".to_owned(),
            ),
        ),
    }
}

/// The new content of the file that is edited, and how many replacements it
/// holds, or what the tool answers when the edit cannot be made: the text must
/// be there, and only once unless every occurrence is meant.
pub fn edit_content(request: &EditRequest, content: &str) -> (r: Result<
    (String, usize),
    ToolOutput,
>)
    requires
        request.old_string@.len() > 0,
    ensures
        ({
            let n = count_from(content@, request.old_string@, 0);
            if n == 0 {
                r matches Err(output) && output@ == error_output(
                    "`old_string` does not appear in "@ + request.path@
                        + " — read the file and match its exact text"@,
                )
            } else if n > 1 && !request.replace_all {
                r matches Err(output) && output@ == error_output(
                    "`old_string` appears "@ + decimal(n) + " times in "@ + request.path@
                        + " — include surrounding context to make it unique, or pass replace_all"@,
                )
            } else {
                r matches Ok(edited) && edited.1 == n && edited.0@ == replace_from(
                    content@,
                    request.old_string@,
                    request.new_string@,
                    0,
                )
            }
        }),
{
    let n = count_matches(content, request.old_string.as_str());
    if n == 0 {
        return Err(
            ToolOutput::error(
                cat3(
                    "`old_string` does not appear in ",
                    request.path.as_str(),
                    " — read the file and match its exact text",
                ),
            ),
        );
    }
    if n > 1 && !request.replace_all {
        let times = decimal_of(n as u64);
        return Err(
            ToolOutput::error(
                cat5(
                    "`old_string` appears ",
                    times.as_str(),
                    " times in ",
                    request.path.as_str(),
                    " — include surrounding context to make it unique, or pass replace_all",
                ),
            ),
        );
    }
    let updated = replace(content, request.old_string.as_str(), request.new_string.as_str());
    Ok((updated, n))
}

/// An edit of a text that is there once changes that place and nothing else.
pub proof fn single_edit_touches_nothing_else(
    content: Seq<char>,
    old_text: Seq<char>,
    new_text: Seq<char>,
)
    requires
        old_text.len() > 0,
        count_from(content, old_text, 0) == 1,
    ensures
        exists|i: int| #[trigger]
            occurs_at(content, old_text, i) && replace_from(content, old_text, new_text, 0)
                == content.take(i) + new_text + content.skip(i + old_text.len()),
{
    lemma_find_from(content, old_text, 0);
    let i = find_from(content, old_text, 0).unwrap();
    let rest = i + old_text.len();
    lemma_find_from(content, old_text, rest);
    assert(count_from(content, old_text, rest) == 0);
    assert(find_from(content, old_text, rest) is None);
    assert(replace_from(content, old_text, new_text, rest) == content.skip(rest));
    assert(content.subrange(0, i) =~= content.take(i));
    assert(occurs_at(content, old_text, i));
}

/// What an edit answers, once the file was written.
pub fn edit_file_output(path: &str, replacements: usize, outcome: Result<(), String>) -> (r:
    ToolOutput)
    ensures
        r@ == (match outcome {
            Ok(_) => OutputView {
                metadata: JsonView::Object(
                    seq![
                        ("path"@, jstr(path@)),
                        ("replacements"@, JsonView::Int(replacements as int)),
                    ],
                ),
                ..text_output(
                    "edited "@ + path@ + " ("@ + decimal(replacements as nat)
                        + " replacement(s))"@,
                )
            },
            Err(error) => error_output(error@),
        }),
{
    match outcome {
        Ok(_) => {
            let n = decimal_of(replacements as u64);
            ToolOutput::text(
                cat5("edited ", path, " (", n.as_str(), " replacement(s))"),
            ).with_metadata(
                Json::object2(
                    "path",
                    Json::text(path),
                    "replacements",
                    Json::Unsigned(replacements as u64),
                ),
            )
        },
        Err(error) => ToolOutput::error(error),
    }
}

// ------------------------------------------------------------------- grep

/// The expression to search for and where, or what the tool answers without a
/// pattern.
pub fn grep_files_request(arguments: &Json) -> (r: Result<(regex::Regex, String), ToolOutput>)
    ensures
        match text_argument(arguments@, "pattern"@) {
            None => r matches Err(output) && output@ == missing_argument("pattern"@),
            Some(pattern) => match regex_new(pattern) {
                Ok(regex) => r matches Ok(request) && request.0 == regex && request.1@ == (
                match text_argument(arguments@, "path"@) {
                    Some(path) => path,
                    None => Seq::empty(),
                }),
                Err(message) => r matches Err(output) && output@ == error_output(
                    "invalid pattern: "@ + message,
                ),
            },
        },
{
    let pattern = match required_text(arguments, "pattern") {
        Ok(pattern) => pattern,
        Err(output) => {
            return Err(output);
        },
    };
    match compile(pattern.as_str()) {
        Ok(regex) => Ok((regex, optional_text(arguments, "path"))),
        Err(message) => Err(ToolOutput::error(cat2("invalid pattern: ", message.as_str()))),
    }
}

/// What a search answers.
pub open spec fn grep_answer(matches: Seq<Seq<char>>, truncated: bool) -> OutputView {
    OutputView {
        metadata: JsonView::Object(
            seq![
                ("matches"@, JsonView::Int(matches.len() as int)),
                ("truncated"@, JsonView::Bool(truncated)),
            ],
        ),
        ..text_output(
            if matches.len() == 0 {
                "(no matches)"@
            } else if truncated {
                joined(matches, "\n"@)
                    + "\n… more matches were not shown; narrow the pattern or path"@
            } else {
                joined(matches, "\n"@)
            },
        )
    }
}

/// What a search answers, once it is over.
pub fn grep_files_output(matches: &Vec<String>, truncated: bool) -> (r: ToolOutput)
    ensures
        r@ == grep_answer(texts(matches@), truncated),
{
    let body = if matches.len() == 0 {
        "(no matches)".to_owned()
    } else {
        let shown = join(matches, "\n");
        if truncated {
            cat2(
                shown.as_str(),
                "\n… more matches were not shown; narrow the pattern or path",
            )
        } else {
            shown
        }
    };
    ToolOutput::text(body).with_metadata(
        Json::object2(
            "matches",
            Json::Unsigned(matches.len() as u64),
            "truncated",
            Json::Bool(truncated),
        ),
    )
}

} // verus!
