use agentyk::filesystem::definitions::FileSystemCapability;
use agentyk::filesystem::grep::{GrepSearch, GrepStep, MAX_GREP_MATCHES};
use agentyk::filesystem::memory::InMemoryFileSystem;
use agentyk::filesystem::order::ordered;
use agentyk::filesystem::tools::{
    delete_file_output, delete_file_request, edit_content, edit_file_output, edit_file_request,
    grep_files_output, grep_files_request, list_directory_output, optional_text, read_file_output,
    required_text, stat_file_output, write_file_output, write_file_request,
};
use agentyk::filesystem::{
    components_of, parent_and_name, stat_from_listing, FileEntry, RealDiskFileSystem,
    WriteBlocklistFileSystem,
};
use agentyk::json::Json;
use agentyk::message::{Error, ToolOutput};

/// A JSON text as a value of the library.
fn json(text: &str) -> Json {
    convert(&serde_json::from_str(text).unwrap())
}

fn convert(value: &serde_json::Value) -> Json {
    match value {
        serde_json::Value::Null => Json::Null,
        serde_json::Value::Bool(b) => Json::Bool(*b),
        serde_json::Value::Number(n) => match (n.as_u64(), n.as_i64()) {
            (Some(u), _) => Json::Unsigned(u),
            (None, Some(i)) => Json::Signed(i),
            (None, None) => Json::Float(n.to_string()),
        },
        serde_json::Value::String(s) => Json::Str(s.clone()),
        serde_json::Value::Array(items) => Json::Array(items.iter().map(convert).collect()),
        serde_json::Value::Object(members) => Json::Object(
            members.iter().map(|(k, v)| (k.clone(), convert(v))).collect(),
        ),
    }
}

/// A value of the library as one that can be indexed and compared.
fn value(json: &Json) -> serde_json::Value {
    match json {
        Json::Null => serde_json::Value::Null,
        Json::Bool(b) => serde_json::Value::Bool(*b),
        Json::Unsigned(n) => serde_json::Value::from(*n),
        Json::Signed(n) => serde_json::Value::from(*n),
        Json::Float(text) => serde_json::from_str(text).unwrap(),
        Json::Str(s) => serde_json::Value::String(s.clone()),
        Json::Array(items) => serde_json::Value::Array(items.iter().map(value).collect()),
        Json::Object(members) => serde_json::Value::Object(
            members.iter().map(|(k, v)| (k.clone(), value(v))).collect(),
        ),
    }
}

fn told(error: Error) -> String {
    match error {
        Error::Other(text) => text,
        other => panic!("{other:?}"),
    }
}

fn store_with(files: &[(&str, &str)]) -> InMemoryFileSystem {
    let mut store = InMemoryFileSystem::new();
    for (path, content) in files {
        store.write_file(path, content);
    }
    store
}

/// Runs one tool on a store, the way a host does.
fn call_tool(store: &mut InMemoryFileSystem, name: &str, arguments: &str) -> ToolOutput {
    let arguments = json(arguments);
    match name {
        "read_file" => match required_text(&arguments, "path") {
            Ok(path) => read_file_output(&arguments, store.read_file(&path).map_err(told)),
            Err(output) => output,
        },
        "write_file" => match write_file_request(&arguments) {
            Ok((path, content)) => {
                store.write_file(&path, &content);
                write_file_output(&path, Ok(()))
            }
            Err(output) => output,
        },
        "delete_file" => match delete_file_request(&arguments) {
            Ok((path, recursive)) => {
                delete_file_output(&path, store.delete_file(&path, recursive).map_err(told))
            }
            Err(output) => output,
        },
        "list_directory" => {
            list_directory_output(Ok(store.list_directory(&optional_text(&arguments, "path"))))
        }
        "stat_file" => match required_text(&arguments, "path") {
            Ok(path) => stat_file_output(&path, Ok(store.stat(&path))),
            Err(output) => output,
        },
        "edit_file" => {
            let request = match edit_file_request(&arguments) {
                Ok(request) => request,
                Err(output) => return output,
            };
            let content = match store.read_file(&request.path) {
                Ok(content) => content,
                Err(error) => return ToolOutput::error(told(error)),
            };
            match edit_content(&request, &content) {
                Ok((edited, replacements)) => {
                    store.write_file(&request.path, &edited);
                    edit_file_output(&request.path, replacements, Ok(()))
                }
                Err(output) => output,
            }
        }
        "grep_files" => {
            let (pattern, root) = match grep_files_request(&arguments) {
                Ok(request) => request,
                Err(output) => return output,
            };
            let mut search = GrepSearch::new(&root);
            loop {
                match search.step() {
                    GrepStep::List(path) => search.listed(Some(store.list_directory(&path))),
                    GrepStep::Read(path) => {
                        if let Ok(content) = store.read_file(&path) {
                            search.read(&pattern, &path, &content);
                        }
                    }
                    GrepStep::Done => break,
                }
            }
            grep_files_output(search.matches(), search.truncated())
        }
        other => panic!("no tool {other}"),
    }
}

#[test]
fn write_then_read_round_trips() {
    let mut store = InMemoryFileSystem::new();
    let wrote = call_tool(
        &mut store,
        "write_file",
        r#"{"path": "notes.txt", "content": "remember the milk"}"#,
    );
    assert_eq!(wrote.content, "wrote notes.txt");
    let read = call_tool(&mut store, "read_file", r#"{"path": "notes.txt"}"#);
    assert_eq!(read.content, "remember the milk");
}

#[test]
fn list_directory_reports_written_files() {
    let mut store = store_with(&[("a.txt", "1")]);
    let listing = call_tool(&mut store, "list_directory", "{}");
    assert!(listing.content.contains("a.txt (1 bytes)"), "{}", listing.content);
}

#[test]
fn deleting_an_unknown_file_is_an_error_result_not_a_panic() {
    let mut store = InMemoryFileSystem::new();
    let output = call_tool(&mut store, "delete_file", r#"{"path": "missing.txt"}"#);
    assert!(output.is_error);
    assert!(output.content.contains("no such file"), "{}", output.content);
}

#[test]
fn edit_file_refuses_an_ambiguous_match_and_changes_nothing() {
    let mut store = store_with(&[("a.rs", "let x = 1;\nlet x = 1;\n")]);
    let output = call_tool(
        &mut store,
        "edit_file",
        r#"{"path": "a.rs", "old_string": "let x = 1;", "new_string": "let x = 2;"}"#,
    );

    assert!(output.is_error, "{}", output.content);
    assert!(output.content.contains("appears 2 times"), "{}", output.content);
    assert_eq!(
        store.read_file("a.rs").unwrap(),
        "let x = 1;\nlet x = 1;\n",
        "a refused edit must not touch the file"
    );
}

#[test]
fn edit_file_applies_a_unique_match_and_reports_it() {
    let mut store = store_with(&[("a.rs", "fn main() {}\n")]);
    let output = call_tool(
        &mut store,
        "edit_file",
        r#"{"path": "a.rs", "old_string": "fn main", "new_string": "pub fn main"}"#,
    );

    assert!(!output.is_error, "{}", output.content);
    assert_eq!(store.read_file("a.rs").unwrap(), "pub fn main() {}\n");
    assert_eq!(value(&output.metadata)["replacements"], 1);
}

#[test]
fn edit_file_replaces_every_occurrence_when_asked() {
    let mut store = store_with(&[("a.rs", "old\nold\n")]);
    let output = call_tool(
        &mut store,
        "edit_file",
        r#"{"path": "a.rs", "old_string": "old", "new_string": "new", "replace_all": true}"#,
    );

    assert!(!output.is_error);
    assert_eq!(store.read_file("a.rs").unwrap(), "new\nnew\n");
    assert_eq!(value(&output.metadata)["replacements"], 2);
}

#[test]
fn edits_that_cannot_be_made_are_explained() {
    let mut store = store_with(&[("a.rs", "x")]);
    let absent = call_tool(
        &mut store,
        "edit_file",
        r#"{"path": "a.rs", "old_string": "y", "new_string": "z"}"#,
    );
    assert!(absent.content.contains("does not appear in a.rs"), "{}", absent.content);
    let empty = call_tool(
        &mut store,
        "edit_file",
        r#"{"path": "a.rs", "old_string": "", "new_string": "z"}"#,
    );
    assert!(empty.content.contains("must not be empty"), "{}", empty.content);
    let missing = call_tool(&mut store, "edit_file", r#"{"path": "a.rs"}"#);
    assert!(missing.is_error);
}

#[test]
fn grep_files_searches_recursively_and_reports_path_and_line() {
    let mut store = store_with(&[
        ("src/main.rs", "fn main() {}\n"),
        ("src/deep/lib.rs", "// nothing\nfn helper() {}\n"),
        ("README.md", "prose\n"),
    ]);

    let output = call_tool(&mut store, "grep_files", r#"{"pattern": "^fn "}"#);

    assert!(!output.is_error, "{}", output.content);
    assert!(output.content.contains("src/main.rs:1: fn main() {}"), "{}", output.content);
    assert!(
        output.content.contains("src/deep/lib.rs:2: fn helper() {}"),
        "nested files must be searched too: {}",
        output.content
    );
    assert!(!output.content.contains("README.md"), "{}", output.content);
    assert_eq!(value(&output.metadata)["matches"], 2);
}

#[test]
fn grep_files_can_be_scoped_to_a_subdirectory() {
    let mut store = store_with(&[("src/a.rs", "target\n"), ("docs/b.md", "target\n")]);
    let output =
        call_tool(&mut store, "grep_files", r#"{"pattern": "target", "path": "docs"}"#);
    assert!(output.content.contains("docs/b.md"), "{}", output.content);
    assert_eq!(value(&output.metadata)["matches"], 1, "{}", output.content);
}

#[test]
fn an_invalid_pattern_is_reported_to_the_model_not_the_turn() {
    let mut store = store_with(&[("a.rs", "x\n")]);
    let output = call_tool(&mut store, "grep_files", r#"{"pattern": "("}"#);
    assert!(output.is_error);
    assert!(output.content.contains("invalid pattern"), "{}", output.content);
}

#[test]
fn a_finished_search_has_every_matching_line_once() {
    let mut store = store_with(&[
        ("a.txt", "hit 1\nmiss\nhit 2\n"),
        ("x/b.txt", "hit 3"),
        ("x/y/z/c.txt", "miss\nmiss\nhit 4\n"),
        ("x/y/d.txt", "miss\n"),
        ("xy.txt", "hit 5\n"),
    ]);
    let output = call_tool(&mut store, "grep_files", r#"{"pattern": "hit"}"#);
    let mut lines: Vec<&str> = output.content.lines().collect();
    lines.sort();
    assert_eq!(
        lines,
        vec![
            "a.txt:1: hit 1",
            "a.txt:3: hit 2",
            "x/b.txt:1: hit 3",
            "x/y/z/c.txt:3: hit 4",
            "xy.txt:1: hit 5",
        ]
    );
}

#[test]
fn a_listing_is_put_in_the_order_of_its_names() {
    let file = |name: &str, size: u64| FileEntry::file(name.to_string(), size);
    let entries = vec![
        file("b", 1),
        FileEntry::dir("a".to_string()),
        file("é", 2),
        file("B", 3),
        file("a", 4),
        file("ab", 5),
    ];
    let shown: Vec<(String, u64)> =
        ordered(entries).into_iter().map(|e| (e.name, e.size)).collect();
    let names: Vec<&str> = shown.iter().map(|(name, _)| name.as_str()).collect();
    assert_eq!(names, vec!["B", "a", "a", "ab", "b", "é"]);
    assert_eq!(shown[1].1, 0);
    assert_eq!(shown[2].1, 4);
    assert!(ordered(vec![]).is_empty());
}

#[test]
fn a_search_stops_at_its_limit() {
    let mut store = store_with(&[("a.txt", &"hit\n".repeat(MAX_GREP_MATCHES + 1))]);
    let output = call_tool(&mut store, "grep_files", r#"{"pattern": "hit"}"#);
    assert_eq!(value(&output.metadata)["matches"], MAX_GREP_MATCHES);
    assert!(output.content.contains("more matches were not shown"), "{}", output.content);
    let none = call_tool(&mut store, "grep_files", r#"{"pattern": "miss"}"#);
    assert_eq!(none.content, "(no matches)");
}

#[test]
fn a_search_takes_given_hits() {
    let mut search = GrepSearch::new("/");
    assert!(matches!(search.step(), GrepStep::List(path) if path.is_empty()));
    search.listed(Some(vec![FileEntry::file("a".to_string(), 1), FileEntry::dir("d".to_string())]));
    assert!(matches!(search.step(), GrepStep::Read(path) if path == "a"));
    search.add_matches(
        "a",
        &vec!["one".to_string(), "two".to_string()],
        &vec![false, true],
    );
    assert!(matches!(search.step(), GrepStep::List(path) if path == "d"));
    search.listed(None);
    assert!(matches!(search.step(), GrepStep::Done));
    assert_eq!(search.matches(), &vec!["a:2: two".to_string()]);
}

#[test]
fn stat_file_answers_for_files_directories_and_missing_paths() {
    let mut store = store_with(&[("src/main.rs", "12345")]);

    let file = call_tool(&mut store, "stat_file", r#"{"path": "src/main.rs"}"#);
    assert!(!file.is_error, "{}", file.content);
    assert_eq!(value(&file.metadata)["size"], 5);
    assert_eq!(value(&file.metadata)["is_dir"], false);

    let dir = call_tool(&mut store, "stat_file", r#"{"path": "src"}"#);
    assert!(dir.content.contains("directory"), "{}", dir.content);
    assert_eq!(value(&dir.metadata)["is_dir"], true);

    let missing = call_tool(&mut store, "stat_file", r#"{"path": "nope.rs"}"#);
    assert!(!missing.is_error, "{}", missing.content);
    assert!(missing.content.contains("does not exist"), "{}", missing.content);
    assert_eq!(value(&missing.metadata)["exists"], false);
}

#[test]
fn read_file_can_return_a_line_window_and_says_which_one() {
    let mut store = store_with(&[("a.txt", "one\ntwo\nthree\nfour\n")]);
    let output =
        call_tool(&mut store, "read_file", r#"{"path": "a.txt", "offset": 2, "limit": 2}"#);

    assert!(!output.is_error, "{}", output.content);
    assert_eq!(output.content, "two\nthree");
    let metadata = value(&output.metadata);
    assert_eq!(metadata["lines"]["offset"], 2);
    assert_eq!(metadata["lines"]["returned"], 2);
    assert_eq!(metadata["lines"]["total"], 4);
}

#[test]
fn mutating_tools_declare_themselves_in_the_hints_hatch() {
    let tools = FileSystemCapability::tools();
    let hint = |name: &str, key: &str| -> bool {
        tools
            .iter()
            .find(|definition| definition.name == name)
            .map(|definition| value(&definition.metadata)["hints"][key] == true)
            .unwrap_or_else(|| panic!("no {name} tool"))
    };

    assert!(hint("read_file", "readonly"));
    assert!(hint("grep_files", "readonly"));
    assert!(hint("stat_file", "readonly"));
    assert!(hint("list_directory", "readonly"));
    assert!(hint("edit_file", "destructive"));
    assert!(hint("write_file", "destructive"));
    assert!(hint("delete_file", "destructive"));
}

#[test]
fn in_memory_round_trips_and_lists() {
    let store = store_with(&[("a.txt", "1"), ("dir/b.txt", "22")]);

    assert_eq!(store.read_file("a.txt").unwrap(), "1");

    let entries = store.list_directory("");
    assert_eq!(entries.len(), 2);
    let file = entries.iter().find(|e| e.name == "a.txt").unwrap();
    assert_eq!(file.size, 1);
    let subdir = entries.iter().find(|e| e.name == "dir").unwrap();
    assert!(subdir.is_dir);
}

#[test]
fn in_memory_delete_requires_recursive_for_directories() {
    let mut store = store_with(&[("dir/b.txt", "x")]);
    assert!(store.delete_file("dir", false).is_err());
    assert!(store.delete_file("dir", true).is_ok());
    assert!(store.list_directory("").is_empty());
}

#[test]
fn sizes_are_in_bytes() {
    let store = store_with(&[("a.txt", "é")]);
    assert_eq!(store.list_directory("")[0].size, 2);
    assert_eq!(store.stat("/a.txt").size, 2);
    assert!(store.stat("/").is_dir);
}

#[test]
fn write_blocklist_blocks_writes_but_not_reads() {
    let inner = store_with(&[(".git/HEAD", "ref: main")]);
    let guard = WriteBlocklistFileSystem::wrap();

    assert_eq!(inner.read_file(".git/HEAD").unwrap(), "ref: main");
    assert!(guard.check_write(".git/HEAD").is_err());
    assert!(guard.check_write("src/main.rs").is_ok());
    assert_eq!(
        told(guard.check_delete("a/target/x").unwrap_err()),
        "delete blocked: `a/target/x` is under a protected directory"
    );
    let own = WriteBlocklistFileSystem::with_blocklist(vec!["private".to_string()]);
    assert!(own.is_blocked("./private"));
    assert!(!own.is_blocked("privateer"));
}

#[test]
fn real_disk_rejects_path_traversal() {
    let disk = RealDiskFileSystem::rooted("/work".to_string());
    let error = told(disk.resolve("../escape.txt").unwrap_err());
    assert!(error.contains("escapes"), "{error}");
    assert!(disk.resolve("a/../../b").is_err());
    assert_eq!(disk.resolve("//a/./b").unwrap(), vec!["a", "b"]);
}

#[test]
fn paths_are_taken_apart() {
    assert_eq!(components_of("/a//b/./c/"), vec!["a", "b", "c"]);
    assert_eq!(parent_and_name("/"), None);
    assert_eq!(parent_and_name("a"), Some((String::new(), "a".to_string())));
    assert_eq!(parent_and_name("/a/b/"), Some(("a".to_string(), "b".to_string())));
    let listing = Some(vec![FileEntry::file("b".to_string(), 7)]);
    assert_eq!(stat_from_listing("a/b", &listing).size, 7);
    assert!(!stat_from_listing("a/c", &listing).exists);
    assert!(!stat_from_listing("a/c", &None).exists);
}
