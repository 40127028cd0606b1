//! The workspace tools as they are shown to a model.
//!
//! Each carries hints for its host on whether it only reads or may destroy,
//! so that a host need not know the tools by name.

use vstd::prelude::*;

use crate::json::{items_view, jstr, members_view, Json, JsonView};
use crate::members::{differ, member_of_one, members_of_four, members_of_three, members_of_two};
use crate::message::{tools_view, ToolDefinition, ToolView};
use crate::text::texts;

verus! {

/// What a host may read of a tool's risk.
pub open spec fn hints_view(readonly: bool, destructive: bool) -> JsonView {
    JsonView::Object(
        seq![
            (
                "hints"@,
                JsonView::Object(
                    seq![
                        ("readonly"@, JsonView::Bool(readonly)),
                        ("destructive"@, JsonView::Bool(destructive)),
                    ],
                ),
            ),
        ],
    )
}

/// The schema of one argument.
pub open spec fn argument(name: Seq<char>, kind: Seq<char>, description: Seq<char>) -> (
    Seq<char>,
    JsonView,
) {
    (
        name,
        JsonView::Object(seq![("type"@, jstr(kind)), ("description"@, jstr(description))]),
    )
}

/// The schema of a tool's arguments; a tool that requires none does not say so.
pub open spec fn schema(arguments: Seq<(Seq<char>, JsonView)>, required: Seq<Seq<char>>) -> JsonView {
    JsonView::Object(
        seq![("type"@, jstr("object"@)), ("properties"@, JsonView::Object(arguments))]
            + if required.len() == 0 {
            Seq::empty()
        } else {
            seq![("required"@, JsonView::Array(required.map_values(|r: Seq<char>| jstr(r))))]
        },
    )
}

/// A tool with its arguments and hints.
pub open spec fn tool_view(
    name: Seq<char>,
    description: Seq<char>,
    arguments: Seq<(Seq<char>, JsonView)>,
    required: Seq<Seq<char>>,
    readonly: bool,
) -> ToolView {
    ToolView {
        name,
        description,
        parameters: schema(arguments, required),
        metadata: hints_view(readonly, !readonly),
    }
}

/// What a host may read of a tool's risk.
pub fn hints(readonly: bool, destructive: bool) -> (r: Json)
    ensures
        r@ == hints_view(readonly, destructive),
{
    Json::object1(
        "hints",
        Json::object2("readonly", Json::Bool(readonly), "destructive", Json::Bool(destructive)),
    )
}

fn argument_json(name: &str, kind: &str, description: &str) -> (r: (String, Json))
    ensures
        (r.0@, r.1@) == argument(name@, kind@, description@),
{
    (
        name.to_owned(),
        Json::object2("type", Json::text(kind), "description", Json::text(description)),
    )
}

fn define(
    name: &str,
    description: &str,
    arguments: Vec<(String, Json)>,
    required: Vec<String>,
    readonly: bool,
) -> (r: ToolDefinition)
    ensures
        r@ == tool_view(
            name@,
            description@,
            members_view(arguments@),
            texts(required@),
            readonly,
        ),
{
    let mut members: Vec<(String, Json)> = Vec::new();
    members.push(("type".to_owned(), Json::text("object")));
    members.push(("properties".to_owned(), Json::object(arguments)));
    if required.len() > 0 {
        let mut names: Vec<Json> = Vec::new();
        let mut i: usize = 0;
        while i < required.len()
            invariant
                names@.len() == i <= required@.len(),
                forall|k: int| 0 <= k < i ==> (#[trigger] names@[k])@ == jstr(required@[k]@),
            decreases required.len() - i,
        {
            names.push(Json::text(required[i].as_str()));
            i += 1;
        }
        assert(items_view(names@) =~= texts(required@).map_values(|r: Seq<char>| jstr(r)));
        members.push(("required".to_owned(), Json::array(names)));
    }
    let parameters = Json::object(members);
    assert(parameters@->Object_0 =~= schema(
        members_view(arguments@),
        texts(required@),
    )->Object_0);
    let mut r = ToolDefinition::new(name, description, parameters);
    r.metadata = hints(readonly, !readonly);
    r
}

/// The tool that reads a file, whole or by a window of lines.
pub open spec fn read_file_tool() -> ToolView {
    tool_view(
        "read_file"@,
        "Read a file's text content. Use `offset`/`limit` to read part of a large file instead of all of it."@,
        seq![
            argument("path"@, "string"@, "Path relative to the workspace root."@),
            argument("offset"@, "integer"@, "1-based line to start at. Default 1."@),
            argument("limit"@, "integer"@, "Maximum number of lines to return."@),
        ],
        seq!["path"@],
        true,
    )
}

/// The tool that reads a file, whole or by a window of lines.
pub fn read_file_definition() -> (r: ToolDefinition)
    ensures
        r@ == read_file_tool(),
{
    let arguments = vec![
        argument_json("path", "string", "Path relative to the workspace root."),
        argument_json("offset", "integer", "1-based line to start at. Default 1."),
        argument_json("limit", "integer", "Maximum number of lines to return."),
    ];
    let required: Vec<String> = vec!["path".to_owned()];
    let r = define(
        "read_file",
        "Read a file's text content. Use `offset`/`limit` to read part of a large file instead of all of it.",
        arguments,
        required,
        true,
    );
    assert(members_view(arguments@) =~= seq![
        argument("path"@, "string"@, "Path relative to the workspace root."@),
        argument("offset"@, "integer"@, "1-based line to start at. Default 1."@),
        argument("limit"@, "integer"@, "Maximum number of lines to return."@),
    ]);
    assert(texts(required@) =~= seq!["path"@]);
    r
}

/// The tool that writes a file.
pub open spec fn write_file_tool() -> ToolView {
    tool_view(
        "write_file"@,
        "Write (creating or overwriting) a file's full text content."@,
        seq![
            argument("path"@, "string"@, "Path relative to the workspace root."@),
            argument("content"@, "string"@, "The file's new full content."@),
        ],
        seq!["path"@, "content"@],
        false,
    )
}

/// The tool that writes a file.
pub fn write_file_definition() -> (r: ToolDefinition)
    ensures
        r@ == write_file_tool(),
{
    let arguments = vec![
        argument_json("path", "string", "Path relative to the workspace root."),
        argument_json("content", "string", "The file's new full content."),
    ];
    let required: Vec<String> = vec!["path".to_owned(), "content".to_owned()];
    let r = define(
        "write_file",
        "Write (creating or overwriting) a file's full text content.",
        arguments,
        required,
        false,
    );
    assert(members_view(arguments@) =~= seq![
        argument("path"@, "string"@, "Path relative to the workspace root."@),
        argument("content"@, "string"@, "The file's new full content."@),
    ]);
    assert(texts(required@) =~= seq!["path"@, "content"@]);
    r
}

/// The tool that replaces a text in a file.
pub open spec fn edit_file_tool() -> ToolView {
    tool_view(
        "edit_file"@,
        "Replace an exact string in a file. Prefer this over write_file for changing part of an existing file: it never rewrites what it did not mean to touch."@,
        seq![
            argument("path"@, "string"@, "Path relative to the workspace root."@),
            argument("old_string"@, "string"@, "Exact text to replace, including indentation."@),
            argument("new_string"@, "string"@, "Replacement text."@),
            argument(
                "replace_all"@,
                "boolean"@,
                "Replace every occurrence instead of requiring a unique one. Default false."@,
            ),
        ],
        seq!["path"@, "old_string"@, "new_string"@],
        false,
    )
}

/// The tool that replaces a text in a file.
pub fn edit_file_definition() -> (r: ToolDefinition)
    ensures
        r@ == edit_file_tool(),
{
    let arguments = vec![
        argument_json("path", "string", "Path relative to the workspace root."),
        argument_json("old_string", "string", "Exact text to replace, including indentation."),
        argument_json("new_string", "string", "Replacement text."),
        argument_json(
            "replace_all",
            "boolean",
            "Replace every occurrence instead of requiring a unique one. Default false.",
        ),
    ];
    let required: Vec<String> = vec!["path".to_owned(), "old_string".to_owned(), "new_string".to_owned()];
    let r = define(
        "edit_file",
        "Replace an exact string in a file. Prefer this over write_file for changing part of an existing file: it never rewrites what it did not mean to touch.",
        arguments,
        required,
        false,
    );
    assert(members_view(arguments@) =~= seq![
        argument("path"@, "string"@, "Path relative to the workspace root."@),
        argument("old_string"@, "string"@, "Exact text to replace, including indentation."@),
        argument("new_string"@, "string"@, "Replacement text."@),
        argument(
            "replace_all"@,
            "boolean"@,
            "Replace every occurrence instead of requiring a unique one. Default false."@,
        ),
    ]);
    assert(texts(required@) =~= seq!["path"@, "old_string"@, "new_string"@]);
    r
}

/// The tool that lists a directory.
pub open spec fn list_directory_tool() -> ToolView {
    tool_view(
        "list_directory"@,
        "List the files and directories directly inside a directory."@,
        seq![
            argument(
                "path"@,
                "string"@,
                "Path relative to the workspace root. Defaults to the root."@,
            ),
        ],
        Seq::<Seq<char>>::empty(),
        true,
    )
}

/// The tool that lists a directory.
pub fn list_directory_definition() -> (r: ToolDefinition)
    ensures
        r@ == list_directory_tool(),
{
    let arguments = vec![
        argument_json(
            "path",
            "string",
            "Path relative to the workspace root. Defaults to the root.",
        ),
    ];
    let required: Vec<String> = Vec::new();
    let r = define(
        "list_directory",
        "List the files and directories directly inside a directory.",
        arguments,
        required,
        true,
    );
    assert(members_view(arguments@) =~= seq![
        argument("path"@, "string"@, "Path relative to the workspace root. Defaults to the root."@),
    ]);
    assert(texts(required@) =~= Seq::<Seq<char>>::empty());
    r
}

/// The tool that searches the workspace.
pub open spec fn grep_files_tool() -> ToolView {
    tool_view(
        "grep_files"@,
        "Search the workspace for a regular expression, returning `path:line: text` matches. Prefer this over listing and reading files one by one to find something."@,
        seq![
            argument("pattern"@, "string"@, "Rust regular expression, matched per line."@),
            argument(
                "path"@,
                "string"@,
                "Directory to search under, relative to the workspace root. Defaults to the root."@,
            ),
        ],
        seq!["pattern"@],
        true,
    )
}

/// The tool that searches the workspace.
pub fn grep_files_definition() -> (r: ToolDefinition)
    ensures
        r@ == grep_files_tool(),
{
    let arguments = vec![
        argument_json("pattern", "string", "Rust regular expression, matched per line."),
        argument_json(
            "path",
            "string",
            "Directory to search under, relative to the workspace root. Defaults to the root.",
        ),
    ];
    let required: Vec<String> = vec!["pattern".to_owned()];
    let r = define(
        "grep_files",
        "Search the workspace for a regular expression, returning `path:line: text` matches. Prefer this over listing and reading files one by one to find something.",
        arguments,
        required,
        true,
    );
    assert(members_view(arguments@) =~= seq![
        argument("pattern"@, "string"@, "Rust regular expression, matched per line."@),
        argument(
            "path"@,
            "string"@,
            "Directory to search under, relative to the workspace root. Defaults to the root."@,
        ),
    ]);
    assert(texts(required@) =~= seq!["pattern"@]);
    r
}

/// The tool that describes a path.
pub open spec fn stat_file_tool() -> ToolView {
    tool_view(
        "stat_file"@,
        "Report whether a path exists, whether it is a directory, and its size — without reading it."@,
        seq![argument("path"@, "string"@, "Path relative to the workspace root."@)],
        seq!["path"@],
        true,
    )
}

/// The tool that describes a path.
pub fn stat_file_definition() -> (r: ToolDefinition)
    ensures
        r@ == stat_file_tool(),
{
    let arguments = vec![argument_json("path", "string", "Path relative to the workspace root.")];
    let required: Vec<String> = vec!["path".to_owned()];
    let r = define(
        "stat_file",
        "Report whether a path exists, whether it is a directory, and its size — without reading it.",
        arguments,
        required,
        true,
    );
    assert(members_view(arguments@) =~= seq![argument("path"@, "string"@, "Path relative to the workspace root."@)]);
    assert(texts(required@) =~= seq!["path"@]);
    r
}

/// The tool that deletes a file or a directory.
pub open spec fn delete_file_tool() -> ToolView {
    tool_view(
        "delete_file"@,
        "Delete a file or (with recursive=true) a directory."@,
        seq![
            argument("path"@, "string"@, "Path relative to the workspace root."@),
            argument(
                "recursive"@,
                "boolean"@,
                "Required to delete a non-empty directory. Default false."@,
            ),
        ],
        seq!["path"@],
        false,
    )
}

/// The tool that deletes a file or a directory.
pub fn delete_file_definition() -> (r: ToolDefinition)
    ensures
        r@ == delete_file_tool(),
{
    let arguments = vec![
        argument_json("path", "string", "Path relative to the workspace root."),
        argument_json(
            "recursive",
            "boolean",
            "Required to delete a non-empty directory. Default false.",
        ),
    ];
    let required: Vec<String> = vec!["path".to_owned()];
    let r = define(
        "delete_file",
        "Delete a file or (with recursive=true) a directory.",
        arguments,
        required,
        false,
    );
    assert(members_view(arguments@) =~= seq![
        argument("path"@, "string"@, "Path relative to the workspace root."@),
        argument(
            "recursive"@,
            "boolean"@,
            "Required to delete a non-empty directory. Default false."@,
        ),
    ]);
    assert(texts(required@) =~= seq!["path"@]);
    r
}

/// The tools, in the order they are offered.
pub open spec fn workspace_tools() -> Seq<ToolView> {
    seq![
        read_file_tool(),
        write_file_tool(),
        edit_file_tool(),
        list_directory_tool(),
        grep_files_tool(),
        stat_file_tool(),
        delete_file_tool(),
    ]
}

/// Every tool says either that it only reads or that it may destroy, and only
/// those that change files say the latter.
pub proof fn mutating_tools_say_so()
    ensures
        forall|i: int|
            0 <= i < workspace_tools().len() ==> {
                let t = #[trigger] workspace_tools()[i];
                t.metadata == hints_view(true, false) || t.metadata == hints_view(false, true)
            },
        write_file_tool().metadata == hints_view(false, true),
        edit_file_tool().metadata == hints_view(false, true),
        delete_file_tool().metadata == hints_view(false, true),
        read_file_tool().metadata == hints_view(true, false),
        list_directory_tool().metadata == hints_view(true, false),
        grep_files_tool().metadata == hints_view(true, false),
        stat_file_tool().metadata == hints_view(true, false),
{
}

/// The tools that a workspace offers to a model.
#[derive(Debug)]
pub struct FileSystemCapability;

impl FileSystemCapability {
    /// The tools, in the order they are offered.
    pub fn tools() -> (r: Vec<ToolDefinition>)
        ensures
            tools_view(r@) == workspace_tools(),
    {
        let tools = vec![
            read_file_definition(),
            write_file_definition(),
            edit_file_definition(),
            list_directory_definition(),
            grep_files_definition(),
            stat_file_definition(),
            delete_file_definition(),
        ];
        assert(tools_view(tools@) =~= workspace_tools());
        tools
    }
}

/// Whether a tool takes an argument of this name and kind.
pub open spec fn takes(tool: ToolView, name: Seq<char>, kind: Seq<char>) -> bool {
    tool.parameters.at("properties"@).at(name).at("type"@) == JsonView::Str(kind)
}

/// Whether these are the arguments that a tool cannot do without.
pub open spec fn needs(tool: ToolView, names: Seq<Seq<char>>) -> bool {
    if names.len() == 0 {
        tool.parameters.get("required"@) is None
    } else {
        tool.parameters.at("required"@) matches JsonView::Array(items) && items.len()
            == names.len() && forall|i: int|
            0 <= i < names.len() ==> #[trigger] items[i] == JsonView::Str(names[i])
    }
}

/// Whether a host reads of a tool that it only reads, or that it may destroy.
pub open spec fn only_reads(tool: ToolView, reads: bool) -> bool {
    let hints = tool.metadata.at("hints"@);
    hints.at("readonly"@) == JsonView::Bool(reads) && hints.at("destructive"@) == JsonView::Bool(
        !reads,
    )
}

/// A tool asks for an object of its arguments, says which ones it needs, and
/// carries its hints.
#[verifier::rlimit(40)]
pub proof fn a_tool_says_what_it_takes(
    name: Seq<char>,
    description: Seq<char>,
    arguments: Seq<(Seq<char>, JsonView)>,
    required: Seq<Seq<char>>,
    readonly: bool,
)
    ensures
        ({
            let tool = tool_view(name, description, arguments, required, readonly);
            &&& tool.name == name
            &&& tool.description == description
            &&& tool.parameters.at("type"@) == JsonView::Str("object"@)
            &&& tool.parameters.at("properties"@) == JsonView::Object(arguments)
            &&& needs(tool, required)
            &&& only_reads(tool, readonly)
        }),
{
    reveal_strlit("type");
    reveal_strlit("properties");
    reveal_strlit("required");
    reveal_strlit("hints");
    reveal_strlit("readonly");
    reveal_strlit("destructive");
    let tool = tool_view(name, description, arguments, required, readonly);
    let two = seq![("type"@, jstr("object"@)), ("properties"@, JsonView::Object(arguments))];
    assert(differ("type"@, "properties"@) && differ("type"@, "required"@) && differ(
        "properties"@,
        "required"@,
    ));
    members_of_two("type"@, jstr("object"@), "properties"@, JsonView::Object(arguments));
    if required.len() == 0 {
        assert(two + Seq::<(Seq<char>, JsonView)>::empty() =~= two);
        assert(tool.parameters == JsonView::Object(two));
    } else {
        let items = required.map_values(|r: Seq<char>| jstr(r));
        members_of_three(
            "type"@,
            jstr("object"@),
            "properties"@,
            JsonView::Object(arguments),
            "required"@,
            JsonView::Array(items),
        );
        assert(two + seq![("required"@, JsonView::Array(items))] =~= seq![
            ("type"@, jstr("object"@)),
            ("properties"@, JsonView::Object(arguments)),
            ("required"@, JsonView::Array(items)),
        ]);
    }
    members_of_two(
        "readonly"@,
        JsonView::Bool(readonly),
        "destructive"@,
        JsonView::Bool(!readonly),
    );
    member_of_one(
        "hints"@,
        JsonView::Object(
            seq![
                ("readonly"@, JsonView::Bool(readonly)),
                ("destructive"@, JsonView::Bool(!readonly)),
            ],
        ),
    );
}

proof fn lemma_argument(name: Seq<char>, kind: Seq<char>, description: Seq<char>)
    ensures
        argument(name, kind, description).0 == name,
        argument(name, kind, description).1.at("type"@) == JsonView::Str(kind),
        argument(name, kind, description).1.at("description"@) == JsonView::Str(description),
{
    reveal_strlit("type");
    reveal_strlit("description");
    members_of_two("type"@, jstr(kind), "description"@, jstr(description));
}

/// The workspace tools that read: what each takes and needs.
#[verifier::rlimit(40)]
pub proof fn reading_tools_take_their_arguments()
    ensures
        read_file_tool().name == "read_file"@,
        takes(read_file_tool(), "path"@, "string"@),
        takes(read_file_tool(), "offset"@, "integer"@),
        takes(read_file_tool(), "limit"@, "integer"@),
        needs(read_file_tool(), seq!["path"@]),
        only_reads(read_file_tool(), true),
        list_directory_tool().name == "list_directory"@,
        takes(list_directory_tool(), "path"@, "string"@),
        needs(list_directory_tool(), Seq::empty()),
        only_reads(list_directory_tool(), true),
        grep_files_tool().name == "grep_files"@,
        takes(grep_files_tool(), "pattern"@, "string"@),
        takes(grep_files_tool(), "path"@, "string"@),
        needs(grep_files_tool(), seq!["pattern"@]),
        only_reads(grep_files_tool(), true),
        stat_file_tool().name == "stat_file"@,
        takes(stat_file_tool(), "path"@, "string"@),
        needs(stat_file_tool(), seq!["path"@]),
        only_reads(stat_file_tool(), true),
{
    reveal_strlit("path");
    reveal_strlit("offset");
    reveal_strlit("limit");
    reveal_strlit("pattern");
    let at_root = "Path relative to the workspace root."@;
    lemma_argument("path"@, "string"@, at_root);
    let path = argument("path"@, "string"@, at_root);
    {
        let offset = argument("offset"@, "integer"@, "1-based line to start at. Default 1."@);
        let limit = argument("limit"@, "integer"@, "Maximum number of lines to return."@);
        lemma_argument("offset"@, "integer"@, "1-based line to start at. Default 1."@);
        lemma_argument("limit"@, "integer"@, "Maximum number of lines to return."@);
        let tool = read_file_tool();
        a_tool_says_what_it_takes(
            tool.name,
            tool.description,
            seq![path, offset, limit],
            seq!["path"@],
            true,
        );
        members_of_three("path"@, path.1, "offset"@, offset.1, "limit"@, limit.1);
    }
    {
        let tool = list_directory_tool();
        let said = "Path relative to the workspace root. Defaults to the root."@;
        let path = argument("path"@, "string"@, said);
        lemma_argument("path"@, "string"@, said);
        a_tool_says_what_it_takes(
            tool.name,
            tool.description,
            seq![path],
            Seq::<Seq<char>>::empty(),
            true,
        );
        member_of_one("path"@, path.1);
    }
    {
        let tool = grep_files_tool();
        let said =
            "Directory to search under, relative to the workspace root. Defaults to the root."@;
        let pattern = argument(
            "pattern"@,
            "string"@,
            "Rust regular expression, matched per line."@,
        );
        let path = argument("path"@, "string"@, said);
        lemma_argument("pattern"@, "string"@, "Rust regular expression, matched per line."@);
        lemma_argument("path"@, "string"@, said);
        a_tool_says_what_it_takes(
            tool.name,
            tool.description,
            seq![pattern, path],
            seq!["pattern"@],
            true,
        );
        members_of_two("pattern"@, pattern.1, "path"@, path.1);
    }
    {
        let tool = stat_file_tool();
        a_tool_says_what_it_takes(
            tool.name,
            tool.description,
            seq![path],
            seq!["path"@],
            true,
        );
        member_of_one("path"@, path.1);
    }
}

/// The workspace tools that change files: what each takes and needs.
#[verifier::rlimit(40)]
pub proof fn writing_tools_take_their_arguments()
    ensures
        write_file_tool().name == "write_file"@,
        takes(write_file_tool(), "path"@, "string"@),
        takes(write_file_tool(), "content"@, "string"@),
        needs(write_file_tool(), seq!["path"@, "content"@]),
        only_reads(write_file_tool(), false),
        edit_file_tool().name == "edit_file"@,
        takes(edit_file_tool(), "path"@, "string"@),
        takes(edit_file_tool(), "old_string"@, "string"@),
        takes(edit_file_tool(), "new_string"@, "string"@),
        takes(edit_file_tool(), "replace_all"@, "boolean"@),
        needs(edit_file_tool(), seq!["path"@, "old_string"@, "new_string"@]),
        only_reads(edit_file_tool(), false),
        delete_file_tool().name == "delete_file"@,
        takes(delete_file_tool(), "path"@, "string"@),
        takes(delete_file_tool(), "recursive"@, "boolean"@),
        needs(delete_file_tool(), seq!["path"@]),
        only_reads(delete_file_tool(), false),
{
    reveal_strlit("path");
    reveal_strlit("content");
    reveal_strlit("old_string");
    reveal_strlit("new_string");
    reveal_strlit("replace_all");
    reveal_strlit("recursive");
    let at_root = "Path relative to the workspace root."@;
    lemma_argument("path"@, "string"@, at_root);
    let path = argument("path"@, "string"@, at_root);
    {
        let tool = write_file_tool();
        let content = argument("content"@, "string"@, "The file's new full content."@);
        lemma_argument("content"@, "string"@, "The file's new full content."@);
        a_tool_says_what_it_takes(
            tool.name,
            tool.description,
            seq![path, content],
            seq!["path"@, "content"@],
            false,
        );
        members_of_two("path"@, path.1, "content"@, content.1);
    }
    {
        let tool = edit_file_tool();
        let all = "Replace every occurrence instead of requiring a unique one. Default false."@;
        let a = argument(
            "old_string"@,
            "string"@,
            "Exact text to replace, including indentation."@,
        );
        let b = argument("new_string"@, "string"@, "Replacement text."@);
        let c = argument("replace_all"@, "boolean"@, all);
        lemma_argument("old_string"@, "string"@, "Exact text to replace, including indentation."@);
        lemma_argument("new_string"@, "string"@, "Replacement text."@);
        lemma_argument("replace_all"@, "boolean"@, all);
        a_tool_says_what_it_takes(
            tool.name,
            tool.description,
            seq![path, a, b, c],
            seq!["path"@, "old_string"@, "new_string"@],
            false,
        );
        members_of_four(
            "path"@,
            path.1,
            "old_string"@,
            a.1,
            "new_string"@,
            b.1,
            "replace_all"@,
            c.1,
        );
    }
    {
        let tool = delete_file_tool();
        let said = "Required to delete a non-empty directory. Default false."@;
        let recursive = argument("recursive"@, "boolean"@, said);
        lemma_argument("recursive"@, "boolean"@, said);
        a_tool_says_what_it_takes(
            tool.name,
            tool.description,
            seq![path, recursive],
            seq!["path"@],
            false,
        );
        members_of_two("path"@, path.1, "recursive"@, recursive.1);
    }
}

} // verus!
