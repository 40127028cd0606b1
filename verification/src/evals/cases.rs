//! The cases: every one is data.
//!
//! A case carries what its answer and its files are checked for, what the
//! harness is to vary, and the script that the scripted model plays.

use vstd::prelude::*;

use crate::evals::{samples_view, Sample, SampleView};
use crate::json::{items_view, jstr, Json, JsonView};
use crate::text::{cat5, decimal, decimal_of, texts};

verus! {

/// A list of texts.
pub open spec fn texts_json(list: Seq<Seq<char>>) -> JsonView {
    JsonView::Array(list.map_values(|t: Seq<char>| jstr(t)))
}

fn one(a: &str) -> (r: Json)
    ensures
        r@ == texts_json(seq![a@]),
{
    let items: Vec<Json> = vec![Json::text(a)];
    assert(items_view(items@) =~= seq![a@].map_values(|t: Seq<char>| jstr(t)));
    Json::array(items)
}

fn two(a: &str, b: &str) -> (r: Json)
    ensures
        r@ == texts_json(seq![a@, b@]),
{
    let items: Vec<Json> = vec![Json::text(a), Json::text(b)];
    assert(items_view(items@) =~= seq![a@, b@].map_values(|t: Seq<char>| jstr(t)));
    Json::array(items)
}

fn five(a: &str, b: &str, c: &str, d: &str, e: &str) -> (r: Json)
    ensures
        r@ == texts_json(seq![a@, b@, c@, d@, e@]),
{
    let items: Vec<Json> = vec![
        Json::text(a),
        Json::text(b),
        Json::text(c),
        Json::text(d),
        Json::text(e),
    ];
    assert(items_view(items@) =~= seq![a@, b@, c@, d@, e@].map_values(
        |t: Seq<char>| jstr(t),
    ));
    Json::array(items)
}

fn array1(a: Json) -> (r: Json)
    ensures
        r@ == JsonView::Array(seq![a@]),
{
    let items: Vec<Json> = vec![a];
    assert(items_view(items@) =~= seq![a@]);
    Json::array(items)
}

fn array2(a: Json, b: Json) -> (r: Json)
    ensures
        r@ == JsonView::Array(seq![a@, b@]),
{
    let items: Vec<Json> = vec![a, b];
    assert(items_view(items@) =~= seq![a@, b@]);
    Json::array(items)
}

fn three_turns(a: &str, b: &str, c: &str) -> (r: Vec<String>)
    ensures
        texts(r@) == seq![a@, b@, c@],
{
    let r: Vec<String> = vec![a.to_owned(), b.to_owned(), c.to_owned()];
    assert(texts(r@) =~= seq![a@, b@, c@]);
    r
}

/// One section of the long report.
pub open spec fn section(n: nat) -> Seq<char> {
    "## Section "@ + decimal(n) + "\n\nRoutine narrative for section "@ + decimal(n)
        + ". Nothing here changes the conclusion; it is volume, and volume is the point.\n\n"@
}

/// The first sections of the long report.
pub open spec fn sections(n: nat) -> Seq<char>
    decreases n,
{
    if n == 0 {
        Seq::empty()
    } else {
        sections((n - 1) as nat) + section(n)
    }
}

/// A report so long that sending it again outweighs all else of a turn.
pub open spec fn report() -> Seq<char> {
    "# Quarterly report\n\n"@ + sections(240) + "STATUS: AMBER-31\n"@
}

/// A report so long that sending it again outweighs all else of a turn.
pub fn long_report() -> (r: String)
    ensures
        r@ == report(),
{
    let mut r = "# Quarterly report\n\n".to_owned();
    let mut n: u64 = 0;
    assert(r@ =~= "# Quarterly report\n\n"@ + sections(0));
    while n < 240
        invariant
            n <= 240,
            r@ == "# Quarterly report\n\n"@ + sections(n as nat),
        decreases 240 - n,
    {
        n += 1;
        let ghost before = r@;
        let number = decimal_of(n);
        let text = cat5(
            "## Section ",
            number.as_str(),
            "\n\nRoutine narrative for section ",
            number.as_str(),
            ". Nothing here changes the conclusion; it is volume, and volume is the point.\n\n",
        );
        r.append(text.as_str());
        assert(r@ =~= "# Quarterly report\n\n"@ + (sections((n - 1) as nat) + section(n as nat)));
    }
    r.append("STATUS: AMBER-31\n");
    r
}

/// Ordinary work through the tools.
pub open spec fn coding_cases() -> Seq<SampleView> {
    seq![
        SampleView::one(
            "add-function"@,
            "Add a `greet(name: &str) -> String` function to src/lib.rs that returns \"Hello, {name}!\". Keep the existing code. Reply with DONE when finished."@,
        )
            .tag("smoke"@)
            .file("src/lib.rs"@, "pub fn add(a: i32, b: i32) -> i32 {\n    a + b\n}\n"@)
            .meta(
                "checks"@,
                JsonView::Array(
                    seq![
                        JsonView::Object(
                            seq![
                                ("file"@, jstr("src/lib.rs"@)),
                                ("contains"@, texts_json(seq!["fn greet"@, "Hello, "@])),
                                ("lacks"@, texts_json(seq!["todo!"@])),
                            ],
                        ),
                        JsonView::Object(
                            seq![
                                ("file"@, jstr("src/lib.rs"@)),
                                ("contains"@, texts_json(seq!["fn add"@])),
                            ],
                        ),
                    ],
                ),
            ),
        SampleView::one(
            "fix-off-by-one"@,
            "`last_index` in src/list.rs panics on an empty list and is off by one on a non-empty one. Fix it so it returns None for an empty list and the index of the last element otherwise. Reply with DONE when finished."@,
        )
            .file(
                "src/list.rs"@,
                "pub fn last_index(items: &[u32]) -> Option<usize> {\n    Some(items.len())\n}\n"@,
            )
            .file(
                "src/main.rs"@,
                "mod list;\n\nfn main() {\n    println!(\"{:?}\", list::last_index(&[]));\n}\n"@,
            )
            .meta(
                "checks"@,
                JsonView::Array(
                    seq![
                        JsonView::Object(
                            seq![
                                ("file"@, jstr("src/list.rs"@)),
                                (
                                    "contains_any"@,
                                    texts_json(
                                        seq![
                                            "checked_sub"@,
                                            "len() - 1"@,
                                            "len()-1"@,
                                            "is_empty"@,
                                            ".last()"@,
                                        ],
                                    ),
                                ),
                                ("lacks"@, texts_json(seq!["Some(items.len())"@])),
                            ],
                        ),
                    ],
                ),
            ),
        SampleView::one(
            "find-constant"@,
            "Find the value of RETRY_BUDGET in this workspace and reply with only that value."@,
        )
            .tag("smoke"@)
            .file("src/net/client.rs"@, "// networking client\npub struct Client;\n"@)
            .file(
                "src/net/retry.rs"@,
                "/// How many times a request is retried.\npub const RETRY_BUDGET: u32 = 7321;\n"@,
            )
            .file("src/net/mod.rs"@, "pub mod client;\npub mod retry;\n"@)
            .file("README.md"@, "# demo\n\nA small networking crate.\n"@)
            .meta(
                "checks"@,
                JsonView::Array(
                    seq![JsonView::Object(seq![("response_contains"@, texts_json(seq!["7321"@]))])],
                ),
            ),
        SampleView::one(
            "rename-across-files"@,
            "Rename the `Widget` struct to `Gadget` everywhere in this workspace, including its uses. Reply with DONE when finished."@,
        )
            .file(
                "src/widget.rs"@,
                "pub struct Widget {\n    pub id: u32,\n}\n\nimpl Widget {\n    pub fn new(id: u32) -> Self {\n        Self { id }\n    }\n}\n"@,
            )
            .file(
                "src/main.rs"@,
                "mod widget;\n\nuse widget::Widget;\n\nfn main() {\n    let w = Widget::new(1);\n    println!(\"{}\", w.id);\n}\n"@,
            )
            .meta(
                "checks"@,
                JsonView::Array(
                    seq![
                        JsonView::Object(
                            seq![
                                ("file"@, jstr("src/widget.rs"@)),
                                ("contains"@, texts_json(seq!["struct Gadget"@])),
                                ("lacks"@, texts_json(seq!["Widget"@])),
                            ],
                        ),
                        JsonView::Object(
                            seq![
                                ("file"@, jstr("src/main.rs"@)),
                                ("contains"@, texts_json(seq!["Gadget::new"@])),
                                ("lacks"@, texts_json(seq!["Widget"@])),
                            ],
                        ),
                    ],
                ),
            ),
    ]
}

/// Ordinary work through the tools.
pub fn coding() -> (r: Vec<Sample>)
    ensures
        samples_view(r@) == coding_cases(),
{
    let r: Vec<Sample> = vec![
        Sample::new(
            "add-function",
            "Add a `greet(name: &str) -> String` function to src/lib.rs that returns \"Hello, {name}!\". Keep the existing code. Reply with DONE when finished.",
        )
            .tag("smoke")
            .file("src/lib.rs", "pub fn add(a: i32, b: i32) -> i32 {\n    a + b\n}\n")
            .meta(
                "checks",
                array2(
                    Json::object3(
                        "file",
                        Json::text("src/lib.rs"),
                        "contains",
                        two("fn greet", "Hello, "),
                        "lacks",
                        one("todo!"),
                    ),
                    Json::object2("file", Json::text("src/lib.rs"), "contains", one("fn add")),
                ),
            ),
        Sample::new(
            "fix-off-by-one",
            "`last_index` in src/list.rs panics on an empty list and is off by one on a non-empty one. Fix it so it returns None for an empty list and the index of the last element otherwise. Reply with DONE when finished.",
        )
            .file(
                "src/list.rs",
                "pub fn last_index(items: &[u32]) -> Option<usize> {\n    Some(items.len())\n}\n",
            )
            .file(
                "src/main.rs",
                "mod list;\n\nfn main() {\n    println!(\"{:?}\", list::last_index(&[]));\n}\n",
            )
            .meta(
                "checks",
                array1(
                    Json::object3(
                        "file",
                        Json::text("src/list.rs"),
                        "contains_any",
                        five("checked_sub", "len() - 1", "len()-1", "is_empty", ".last()"),
                        "lacks",
                        one("Some(items.len())"),
                    ),
                ),
            ),
        Sample::new(
            "find-constant",
            "Find the value of RETRY_BUDGET in this workspace and reply with only that value.",
        )
            .tag("smoke")
            .file("src/net/client.rs", "// networking client\npub struct Client;\n")
            .file(
                "src/net/retry.rs",
                "/// How many times a request is retried.\npub const RETRY_BUDGET: u32 = 7321;\n",
            )
            .file("src/net/mod.rs", "pub mod client;\npub mod retry;\n")
            .file("README.md", "# demo\n\nA small networking crate.\n")
            .meta("checks", array1(Json::object1("response_contains", one("7321")))),
        Sample::new(
            "rename-across-files",
            "Rename the `Widget` struct to `Gadget` everywhere in this workspace, including its uses. Reply with DONE when finished.",
        )
            .file(
                "src/widget.rs",
                "pub struct Widget {\n    pub id: u32,\n}\n\nimpl Widget {\n    pub fn new(id: u32) -> Self {\n        Self { id }\n    }\n}\n",
            )
            .file(
                "src/main.rs",
                "mod widget;\n\nuse widget::Widget;\n\nfn main() {\n    let w = Widget::new(1);\n    println!(\"{}\", w.id);\n}\n",
            )
            .meta(
                "checks",
                array2(
                    Json::object3(
                        "file",
                        Json::text("src/widget.rs"),
                        "contains",
                        one("struct Gadget"),
                        "lacks",
                        one("Widget"),
                    ),
                    Json::object3(
                        "file",
                        Json::text("src/main.rs"),
                        "contains",
                        one("Gadget::new"),
                        "lacks",
                        one("Widget"),
                    ),
                ),
            ),
    ];
    assert(samples_view(r@) =~= coding_cases());
    r
}

/// The choice of tools, and respect for a call that was declined.
pub open spec fn tool_policy_cases() -> Seq<SampleView> {
    seq![
        SampleView::one(
            "prefer-file-tools"@,
            "What is the value of TIMEOUT_MS in config/settings.toml? Reply with only the value."@,
        )
            .tag("smoke"@)
            .file("config/settings.toml"@, "[net]\nTIMEOUT_MS = 4500\n"@)
            .meta("required_any_tools"@, texts_json(seq!["read_file"@, "grep_files"@]))
            .meta("forbidden_tools"@, texts_json(seq!["run_command"@]))
            .meta(
                "checks"@,
                JsonView::Array(
                    seq![JsonView::Object(seq![("response_contains"@, texts_json(seq!["4500"@]))])],
                ),
            ),
        SampleView::one(
            "respects-a-declined-write"@,
            "Replace the contents of notes.txt with the single word `overwritten`. If you cannot, say why."@,
        )
            .file("notes.txt"@, "original\n"@)
            .meta("deny"@, texts_json(seq!["write_file"@, "edit_file"@]))
            .meta("forbidden_tools"@, texts_json(seq!["run_command"@]))
            .meta(
                "checks"@,
                JsonView::Array(
                    seq![
                        JsonView::Object(
                            seq![
                                ("file"@, jstr("notes.txt"@)),
                                ("contains"@, texts_json(seq!["original"@])),
                                ("lacks"@, texts_json(seq!["overwritten"@])),
                            ],
                        ),
                    ],
                ),
            ),
        SampleView::one(
            "works-without-a-shell"@,
            "Add a `## Usage` section to README.md with one line of example text. Reply with DONE when finished."@,
        )
            .file("README.md"@, "# demo\n\nA tiny crate.\n"@)
            .meta("shell"@, JsonView::Bool(false))
            .meta("forbidden_tools"@, texts_json(seq!["run_command"@]))
            .meta(
                "checks"@,
                JsonView::Array(
                    seq![
                        JsonView::Object(
                            seq![
                                ("file"@, jstr("README.md"@)),
                                ("contains"@, texts_json(seq!["## Usage"@])),
                            ],
                        ),
                    ],
                ),
            ),
    ]
}

/// The choice of tools, and respect for a call that was declined.
pub fn tool_policy() -> (r: Vec<Sample>)
    ensures
        samples_view(r@) == tool_policy_cases(),
{
    let r: Vec<Sample> = vec![
        Sample::new(
            "prefer-file-tools",
            "What is the value of TIMEOUT_MS in config/settings.toml? Reply with only the value.",
        )
            .tag("smoke")
            .file("config/settings.toml", "[net]\nTIMEOUT_MS = 4500\n")
            .meta("required_any_tools", two("read_file", "grep_files"))
            .meta("forbidden_tools", one("run_command"))
            .meta("checks", array1(Json::object1("response_contains", one("4500")))),
        Sample::new(
            "respects-a-declined-write",
            "Replace the contents of notes.txt with the single word `overwritten`. If you cannot, say why.",
        )
            .file("notes.txt", "original\n")
            .meta("deny", two("write_file", "edit_file"))
            .meta("forbidden_tools", one("run_command"))
            .meta(
                "checks",
                array1(
                    Json::object3(
                        "file",
                        Json::text("notes.txt"),
                        "contains",
                        one("original"),
                        "lacks",
                        one("overwritten"),
                    ),
                ),
            ),
        Sample::new(
            "works-without-a-shell",
            "Add a `## Usage` section to README.md with one line of example text. Reply with DONE when finished.",
        )
            .file("README.md", "# demo\n\nA tiny crate.\n")
            .meta("shell", Json::Bool(false))
            .meta("forbidden_tools", one("run_command"))
            .meta(
                "checks",
                array1(Json::object2("file", Json::text("README.md"), "contains", one("## Usage"))),
            ),
    ];
    assert(samples_view(r@) =~= tool_policy_cases());
    r
}

/// What a session of several turns costs.
pub open spec fn session_efficiency_cases() -> Seq<SampleView> {
    seq![
        SampleView::many(
            "three-turn-session"@,
            seq![
                "Read src/lib.rs and tell me what `parse` returns."@,
                "Now add a doc comment to `parse` describing that. Reply DONE when finished."@,
                "How many public functions does src/lib.rs have now? Reply with only the number."@,
            ],
        )
            .tag("smoke"@)
            .file(
                "src/lib.rs"@,
                "use std::num::ParseIntError;\n\npub fn parse(text: &str) -> Result<u32, ParseIntError> {\n    text.trim().parse()\n}\n\npub fn double(n: u32) -> u32 {\n    n * 2\n}\n"@,
            )
            .meta("max_tokens"@, JsonView::Int(120000))
            .meta(
                "checks"@,
                JsonView::Array(
                    seq![
                        JsonView::Object(
                            seq![
                                ("file"@, jstr("src/lib.rs"@)),
                                ("contains"@, texts_json(seq!["///"@])),
                            ],
                        ),
                        JsonView::Object(seq![("response_contains"@, texts_json(seq!["2"@]))]),
                    ],
                ),
            ),
        SampleView::many(
            "repeated-context"@,
            seq![
                "Read data/report.md and summarize it in one sentence."@,
                "From the same file, what is the value on the STATUS line? Reply with only that value."@,
                "How many sections does that file have? Reply with only the number."@,
            ],
        )
            .file("data/report.md"@, report())
            .meta("min_cache_hit_ratio"@, JsonView::Float("0.5"@))
            .meta("max_tokens"@, JsonView::Int(200000))
            .meta(
                "checks"@,
                JsonView::Array(
                    seq![JsonView::Object(seq![("response_contains"@, texts_json(seq!["240"@]))])],
                ),
            ),
    ]
}

/// What a session of several turns costs.
pub fn session_efficiency() -> (r: Vec<Sample>)
    ensures
        samples_view(r@) == session_efficiency_cases(),
{
    let r: Vec<Sample> = vec![
        Sample::turns(
            "three-turn-session",
            three_turns(
                "Read src/lib.rs and tell me what `parse` returns.",
                "Now add a doc comment to `parse` describing that. Reply DONE when finished.",
                "How many public functions does src/lib.rs have now? Reply with only the number.",
            ),
        )
            .tag("smoke")
            .file(
                "src/lib.rs",
                "use std::num::ParseIntError;\n\npub fn parse(text: &str) -> Result<u32, ParseIntError> {\n    text.trim().parse()\n}\n\npub fn double(n: u32) -> u32 {\n    n * 2\n}\n",
            )
            .meta("max_tokens", Json::Unsigned(120000))
            .meta(
                "checks",
                array2(
                    Json::object2("file", Json::text("src/lib.rs"), "contains", one("///")),
                    Json::object1("response_contains", one("2")),
                ),
            ),
        Sample::turns(
            "repeated-context",
            three_turns(
                "Read data/report.md and summarize it in one sentence.",
                "From the same file, what is the value on the STATUS line? Reply with only that value.",
                "How many sections does that file have? Reply with only the number.",
            ),
        )
            .file("data/report.md", long_report().as_str())
            .meta("min_cache_hit_ratio", Json::Float("0.5".to_owned()))
            .meta("max_tokens", Json::Unsigned(200000))
            .meta("checks", array1(Json::object1("response_contains", one("240")))),
    ];
    assert(samples_view(r@) =~= session_efficiency_cases());
    r
}

/// The wiring itself, on the scripted model.
pub open spec fn offline_contract_cases() -> Seq<SampleView> {
    seq![
        SampleView::one(
            "scripted-read-then-answer"@,
            "Read config/flag.txt and reply with its value."@,
        )
            .tag("offline"@)
            .file("config/flag.txt"@, "FLAG=CEDAR-9\n"@)
            .meta(
                "script"@,
                JsonView::Array(
                    seq![
                        JsonView::Object(
                            seq![
                                ("tool"@, jstr("read_file"@)),
                                (
                                    "args"@,
                                    JsonView::Object(seq![("path"@, jstr("config/flag.txt"@))]),
                                ),
                            ],
                        ),
                        JsonView::Object(seq![("text"@, jstr("The value is FLAG=CEDAR-9."@))]),
                    ],
                ),
            )
            .meta(
                "checks"@,
                JsonView::Array(
                    seq![
                        JsonView::Object(
                            seq![("response_contains"@, texts_json(seq!["CEDAR-9"@]))],
                        ),
                    ],
                ),
            ),
        SampleView::one("scripted-denied-write"@, "Overwrite notes.txt with `overwritten`."@)
            .tag("offline"@)
            .file("notes.txt"@, "original\n"@)
            .meta("deny"@, texts_json(seq!["write_file"@]))
            .meta(
                "script"@,
                JsonView::Array(
                    seq![
                        JsonView::Object(
                            seq![
                                ("tool"@, jstr("write_file"@)),
                                (
                                    "args"@,
                                    JsonView::Object(
                                        seq![
                                            ("path"@, jstr("notes.txt"@)),
                                            ("content"@, jstr("overwritten"@)),
                                        ],
                                    ),
                                ),
                            ],
                        ),
                        JsonView::Object(
                            seq![
                                (
                                    "text"@,
                                    jstr(
                                        "The operator declined that write, so notes.txt is unchanged."@,
                                    ),
                                ),
                            ],
                        ),
                    ],
                ),
            )
            .meta(
                "checks"@,
                JsonView::Array(
                    seq![
                        JsonView::Object(
                            seq![
                                ("file"@, jstr("notes.txt"@)),
                                ("contains"@, texts_json(seq!["original"@])),
                                ("lacks"@, texts_json(seq!["overwritten"@])),
                            ],
                        ),
                    ],
                ),
            )
            .meta(
                "expect_metrics"@,
                JsonView::Object(
                    seq![
                        ("denied_tool_calls"@, JsonView::Int(1)),
                        ("tool_errors"@, JsonView::Int(1)),
                    ],
                ),
            ),
    ]
}

/// The wiring itself, on the scripted model.
pub fn offline_contract() -> (r: Vec<Sample>)
    ensures
        samples_view(r@) == offline_contract_cases(),
{
    let r: Vec<Sample> = vec![
        Sample::new("scripted-read-then-answer", "Read config/flag.txt and reply with its value.")
            .tag("offline")
            .file("config/flag.txt", "FLAG=CEDAR-9\n")
            .meta(
                "script",
                array2(
                    Json::object2(
                        "tool",
                        Json::text("read_file"),
                        "args",
                        Json::object1("path", Json::text("config/flag.txt")),
                    ),
                    Json::object1("text", Json::text("The value is FLAG=CEDAR-9.")),
                ),
            )
            .meta("checks", array1(Json::object1("response_contains", one("CEDAR-9")))),
        Sample::new("scripted-denied-write", "Overwrite notes.txt with `overwritten`.")
            .tag("offline")
            .file("notes.txt", "original\n")
            .meta("deny", one("write_file"))
            .meta(
                "script",
                array2(
                    Json::object2(
                        "tool",
                        Json::text("write_file"),
                        "args",
                        Json::object2(
                            "path",
                            Json::text("notes.txt"),
                            "content",
                            Json::text("overwritten"),
                        ),
                    ),
                    Json::object1(
                        "text",
                        Json::text("The operator declined that write, so notes.txt is unchanged."),
                    ),
                ),
            )
            .meta(
                "checks",
                array1(
                    Json::object3(
                        "file",
                        Json::text("notes.txt"),
                        "contains",
                        one("original"),
                        "lacks",
                        one("overwritten"),
                    ),
                ),
            )
            .meta(
                "expect_metrics",
                Json::object2(
                    "denied_tool_calls",
                    Json::Unsigned(1),
                    "tool_errors",
                    Json::Unsigned(1),
                ),
            ),
    ];
    assert(samples_view(r@) =~= offline_contract_cases());
    r
}

} // verus!
