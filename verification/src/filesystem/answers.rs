//! What the answers of the workspace tools promise to whoever reads them.

use vstd::prelude::*;

use crate::filesystem::{EntryView, StatView};
use crate::filesystem::tools::{flag_argument, grep_answer, listing_answer, listing_line,
    missing_argument, read_answer, stat_answer, text_argument};
use crate::json::JsonView;
use crate::members::{differ, member_of_one, members_of_four, members_of_two};
use crate::text::{decimal, has_text, joined, lines_of, occurs_at};
use crate::text_facts::joining_goes_on;

verus! {

/// A read without an offset behind the first line and without a limit answers
/// with the file as it is.
pub proof fn a_whole_file_is_read_as_it_is(arguments: JsonView, content: Seq<char>)
    requires
        !(arguments.at("limit"@) matches JsonView::Int(n) && 0 <= n <= u64::MAX),
        !(arguments.at("offset"@) matches JsonView::Int(n) && 1 < n <= u64::MAX),
    ensures
        read_answer(arguments, content).content == content,
        !read_answer(arguments, content).is_error,
        read_answer(arguments, content).metadata is Null,
{
}

/// A read from a line on, counted from 1, without a limit returns every line
/// from there to the end of the file, in order; with a limit, the first so
/// many of them, and fewer only where the file ends. The answer says where it
/// started, how many lines it holds, how many the file has, and which came
/// last.
pub proof fn lines_are_read_from_the_offset_on(arguments: JsonView, content: Seq<char>)
    requires
        (arguments.at("limit"@) matches JsonView::Int(n) && 0 <= n <= u64::MAX) || (arguments.at(
            "offset"@,
        ) matches JsonView::Int(n) && 1 < n <= u64::MAX),
    ensures
        ({
            let all = lines_of(content);
            let start = match arguments.at("offset"@) {
                JsonView::Int(n) => if 1 < n <= u64::MAX {
                    n
                } else {
                    1
                },
                _ => 1,
            };
            let left = if start <= all.len() {
                all.len() - start + 1
            } else {
                0
            };
            let count = match arguments.at("limit"@) {
                JsonView::Int(n) => if 0 <= n <= u64::MAX && n < left {
                    n
                } else {
                    left
                },
                _ => left,
            };
            let answer = read_answer(arguments, content);
            let window = answer.metadata.at("lines"@);
            &&& answer.content == joined(
                Seq::new(count as nat, |i: int| all[start - 1 + i]),
                "\n"@,
            )
            &&& !answer.is_error
            &&& window.at("offset"@) == JsonView::Int(start)
            &&& window.at("returned"@) == JsonView::Int(count)
            &&& window.at("total"@) == JsonView::Int(all.len() as int)
            &&& window.at("last"@) == JsonView::Int(start + count - 1)
        }),
{
    let all = lines_of(content);
    let start = match arguments.at("offset"@) {
        JsonView::Int(n) => if 1 < n <= u64::MAX {
            n
        } else {
            1
        },
        _ => 1,
    };
    let left = if start <= all.len() {
        all.len() - start + 1
    } else {
        0
    };
    let count = match arguments.at("limit"@) {
        JsonView::Int(n) => if 0 <= n <= u64::MAX && n < left {
            n
        } else {
            left
        },
        _ => left,
    };
    let taken = crate::filesystem::tools::read_lines(arguments, all);
    assert(taken =~= Seq::new(count as nat, |i: int| all[start - 1 + i]));
    reveal_strlit("lines");
    reveal_strlit("offset");
    reveal_strlit("returned");
    reveal_strlit("total");
    reveal_strlit("last");
    let window = seq![
        ("offset"@, JsonView::Int(start)),
        ("returned"@, JsonView::Int(count)),
        ("total"@, JsonView::Int(all.len() as int)),
        ("last"@, JsonView::Int(start + count - 1)),
    ];
    members_of_four(
        "offset"@,
        JsonView::Int(start),
        "returned"@,
        JsonView::Int(count),
        "total"@,
        JsonView::Int(all.len() as int),
        "last"@,
        JsonView::Int(start + count - 1),
    );
    member_of_one("lines"@, JsonView::Object(window));
}

/// Two reads, the second starting behind the last line of the first, are one
/// read of both: nothing is lost between them and nothing comes twice.
pub proof fn reads_can_be_continued(
    first: JsonView,
    second: JsonView,
    both: JsonView,
    content: Seq<char>,
    start: int,
    count: int,
    more: int,
)
    requires
        1 <= start,
        1 <= count,
        1 <= more,
        start + count + more - 1 <= lines_of(content).len() <= u64::MAX,
        first.at("offset"@) == JsonView::Int(start),
        first.at("limit"@) == JsonView::Int(count),
        second.at("offset"@) == JsonView::Int(start + count),
        second.at("limit"@) == JsonView::Int(more),
        both.at("offset"@) == JsonView::Int(start),
        both.at("limit"@) == JsonView::Int(count + more),
    ensures
        read_answer(both, content).content == read_answer(first, content).content + "\n"@
            + read_answer(second, content).content,
{
    let all = lines_of(content);
    lines_are_read_from_the_offset_on(first, content);
    lines_are_read_from_the_offset_on(second, content);
    lines_are_read_from_the_offset_on(both, content);
    let a = Seq::new(count as nat, |i: int| all[start - 1 + i]);
    let b = Seq::new(more as nat, |i: int| all[start + count - 1 + i]);
    let c = Seq::new((count + more) as nat, |i: int| all[start - 1 + i]);
    assert(c =~= a + b);
    joining_two(a, b, "\n"@);
}

/// Texts in two parts are joined like the parts, with the separator between.
pub proof fn joining_two(a: Seq<Seq<char>>, b: Seq<Seq<char>>, sep: Seq<char>)
    requires
        a.len() > 0,
        b.len() > 0,
    ensures
        joined(a + b, sep) == joined(a, sep) + sep + joined(b, sep),
    decreases a.len(),
{
    assert(a =~= seq![a[0]] + a.drop_first());
    joining_goes_on(a[0], a.drop_first(), sep);
    assert(a + b =~= seq![a[0]] + (a.drop_first() + b));
    joining_goes_on(a[0], a.drop_first() + b, sep);
    if a.len() > 1 {
        joining_two(a.drop_first(), b, sep);
        assert(joined(a + b, sep) =~= joined(a, sep) + sep + joined(b, sep));
    } else {
        assert(a.drop_first() + b =~= b);
    }
}

/// A listing has one line for each entry, in order: the name of a directory
/// with a slash behind it, and that of a file with its size.
pub proof fn every_entry_is_listed(entries: Seq<EntryView>) -> (lines: Seq<Seq<char>>)
    ensures
        lines.len() == entries.len(),
        forall|i: int|
            0 <= i < entries.len() ==> #[trigger] lines[i] == entries[i].name + if entries[i].is_dir {
                "/"@
            } else {
                " ("@ + decimal(entries[i].size as nat) + " bytes)"@
            },
        entries.len() > 0 ==> listing_answer(entries).content == joined(lines, "\n"@),
        entries.len() == 0 ==> listing_answer(entries).content == "(empty)"@,
        !listing_answer(entries).is_error,
        listing_answer(entries).metadata is Null,
{
    let lines = entries.map_values(|e: EntryView| listing_line(e));
    assert forall|i: int| 0 <= i < entries.len() implies #[trigger] lines[i] == entries[i].name
        + if entries[i].is_dir {
        "/"@
    } else {
        " ("@ + decimal(entries[i].size as nat) + " bytes)"@
    } by {
        let e = entries[i];
        assert(lines[i] == listing_line(e));
        assert(e.name + " ("@ + decimal(e.size as nat) + " bytes)"@ =~= e.name + (" ("@ + decimal(
            e.size as nat,
        ) + " bytes)"@));
    }
    lines
}

/// A description says whether the path is there, and of one that is, what it
/// is and how large. One that is not there is no failure.
pub proof fn a_description_says_what_is_there(path: Seq<char>, stat: StatView)
    ensures
        ({
            let answer = stat_answer(path, stat);
            let told = answer.metadata;
            &&& !answer.is_error
            &&& told.at("exists"@) == JsonView::Bool(stat.exists)
            &&& told.at("path"@) == JsonView::Str(path)
            &&& stat.exists ==> {
                &&& told.at("is_dir"@) == JsonView::Bool(stat.is_dir)
                &&& told.at("size"@) == JsonView::Int(stat.size)
                &&& stat.is_dir ==> answer.content == path + ": directory, "@ + decimal(
                    stat.size as nat,
                ) + " bytes"@
                &&& !stat.is_dir ==> answer.content == path + ": file, "@ + decimal(
                    stat.size as nat,
                ) + " bytes"@
            }
            &&& !stat.exists ==> {
                &&& told.at("is_dir"@) is Null
                &&& told.at("size"@) is Null
                &&& answer.content == path + ": does not exist"@
            }
        }),
{
    reveal_strlit("exists");
    reveal_strlit("path");
    reveal_strlit("is_dir");
    reveal_strlit("size");
    reveal_strlit(": ");
    reveal_strlit("directory, ");
    reveal_strlit("file, ");
    reveal_strlit(": directory, ");
    reveal_strlit(": file, ");
    assert(": directory, "@ =~= ": "@ + "directory, "@);
    assert(": file, "@ =~= ": "@ + "file, "@);
    assert(path + ": "@ + "directory, "@ =~= path + ": directory, "@);
    assert(path + ": "@ + "file, "@ =~= path + ": file, "@);
    if stat.exists {
        members_of_four(
            "exists"@,
            JsonView::Bool(true),
            "path"@,
            JsonView::Str(path),
            "is_dir"@,
            JsonView::Bool(stat.is_dir),
            "size"@,
            JsonView::Int(stat.size),
        );
    } else {
        members_of_two("exists"@, JsonView::Bool(false), "path"@, JsonView::Str(path));
        assert(differ("is_dir"@, "exists"@) && differ("is_dir"@, "path"@));
        assert(differ("size"@, "exists"@) && differ("size"@, "path"@));
        let told = stat_answer(path, stat).metadata;
        assert(told.get("is_dir"@) is None);
        assert(told.get("size"@) is None);
    }
}

/// A search answers with every match, in order, and says how many there are
/// and whether there are more.
pub proof fn every_match_is_shown(matches: Seq<Seq<char>>, truncated: bool)
    ensures
        ({
            let answer = grep_answer(matches, truncated);
            &&& !answer.is_error
            &&& answer.metadata.at("matches"@) == JsonView::Int(matches.len() as int)
            &&& answer.metadata.at("truncated"@) == JsonView::Bool(truncated)
            &&& matches.len() == 0 ==> answer.content == "(no matches)"@
            &&& matches.len() > 0 && !truncated ==> answer.content == joined(matches, "\n"@)
            &&& matches.len() > 0 && truncated ==> {
                &&& answer.content.len() > joined(matches, "\n"@).len()
                &&& answer.content.take(joined(matches, "\n"@).len() as int) == joined(
                    matches,
                    "\n"@,
                )
            }
        }),
{
    reveal_strlit("matches");
    reveal_strlit("truncated");
    members_of_two(
        "matches"@,
        JsonView::Int(matches.len() as int),
        "truncated"@,
        JsonView::Bool(truncated),
    );
    reveal_strlit("\n… more matches were not shown; narrow the pattern or path");
    let shown = joined(matches, "\n"@);
    let all = shown + "\n… more matches were not shown; narrow the pattern or path"@;
    assert(all.take(shown.len() as int) =~= shown);
}

/// An argument is the text or the flag of its name; anything else of that name
/// is none, and no flag.
pub proof fn arguments_are_found_by_name(arguments: JsonView, name: Seq<char>)
    ensures
        forall|text: Seq<char>|
            arguments.at(name) == JsonView::Str(text) <==> text_argument(arguments, name) == Some(
                text,
            ),
        arguments.at(name) !is Str <==> text_argument(arguments, name) is None,
        flag_argument(arguments, name) <==> arguments.at(name) == JsonView::Bool(true),
{
}

/// An answer for want of an argument is a failure that names it.
pub proof fn a_missing_argument_is_named(name: Seq<char>)
    ensures
        missing_argument(name).is_error,
        missing_argument(name).metadata is Null,
        has_text(missing_argument(name).content, "`"@ + name + "`"@),
{
    let lead = "missing required argument `"@;
    let said = missing_argument(name).content;
    let quoted = "`"@ + name + "`"@;
    reveal_strlit("missing required argument `");
    reveal_strlit("`");
    let i = lead.len() - 1;
    assert(said == lead + name + "`"@);
    assert(said.subrange(i, i + quoted.len()) =~= quoted);
    assert(occurs_at(said, quoted, i));
}

} // verus!
