//! The tools a model can call in chat mode. What touches the disk, the
//! terminal or a process is done by the caller; the library decides what a
//! call means and what text goes back to the model.
pub mod bash;
pub mod call;
pub mod edit_file;
pub mod find_symbol;
pub mod grep;
pub mod list_dir;
pub mod read_file;
pub mod write_file;

use vstd::prelude::*;

use crate::path::{join, join_paths};
use crate::text::{str_eq, to_chars};

verus! {

/// What every tool call runs against.
pub struct ToolCtx {
    /// The repository root.
    pub repo: String,
    /// Whether writes, edits and commands go ahead without asking.
    pub auto_yes: bool,
}

/// A path as a tool call gives it, resolved against the repository root;
/// an absolute path stays as it is.
pub fn resolve(ctx: &ToolCtx, p: &str) -> (r: String)
    ensures
        r@ == join(ctx.repo@, p@),
{
    let base = to_chars(ctx.repo.as_str());
    let pc = to_chars(p);
    join_paths(&base, &pc)
}

/// The tools that chat mode offers.
#[derive(Clone, Copy, Debug, PartialEq, Eq, Structural)]
pub enum Tool {
    ReadFile,
    ListDir,
    Grep,
    EditFile,
    WriteFile,
    Bash,
}

/// The tool called `name`.
pub open spec fn tool_named(name: Seq<char>) -> Option<Tool> {
    if name == "read_file"@ {
        Some(Tool::ReadFile)
    } else if name == "list_dir"@ {
        Some(Tool::ListDir)
    } else if name == "grep"@ {
        Some(Tool::Grep)
    } else if name == "edit_file"@ {
        Some(Tool::EditFile)
    } else if name == "write_file"@ {
        Some(Tool::WriteFile)
    } else if name == "bash"@ {
        Some(Tool::Bash)
    } else {
        None
    }
}

/// Which tool a call names; `None` for an unknown tool.
pub fn tool_of(name: &str) -> (r: Option<Tool>)
    ensures
        r == tool_named(name@),
{
    if str_eq(name, "read_file") {
        Some(Tool::ReadFile)
    } else if str_eq(name, "list_dir") {
        Some(Tool::ListDir)
    } else if str_eq(name, "grep") {
        Some(Tool::Grep)
    } else if str_eq(name, "edit_file") {
        Some(Tool::EditFile)
    } else if str_eq(name, "write_file") {
        Some(Tool::WriteFile)
    } else if str_eq(name, "bash") {
        Some(Tool::Bash)
    } else {
        None
    }
}


/// One parameter of a tool: its name, its JSON type and a description for
/// the model.
pub struct ParamDef {
    pub name: &'static str,
    pub kind: &'static str,
    pub description: Option<&'static str>,
}

impl View for ParamDef {
    type V = (Seq<char>, Seq<char>, Option<Seq<char>>);

    open spec fn view(&self) -> (Seq<char>, Seq<char>, Option<Seq<char>>) {
        (self.name@, self.kind@, match self.description {
            Some(d) => Some(d@),
            None => None,
        })
    }
}

/// A tool as it is described to the model: its name, what it does, its
/// parameters and the names of those that a call must give.
pub struct ToolDef {
    pub name: &'static str,
    pub description: &'static str,
    pub params: Vec<ParamDef>,
    pub required: Vec<&'static str>,
}

/// A tool description as a value.
pub struct ToolDefView {
    pub name: Seq<char>,
    pub description: Seq<char>,
    pub params: Seq<(Seq<char>, Seq<char>, Option<Seq<char>>)>,
    pub required: Seq<Seq<char>>,
}

impl View for ToolDef {
    type V = ToolDefView;

    open spec fn view(&self) -> ToolDefView {
        ToolDefView {
            name: self.name@,
            description: self.description@,
            params: self.params@.map_values(|p: ParamDef| p@),
            required: self.required@.map_values(|k: &'static str| k@),
        }
    }
}

/// The tools offered to the model, in order.
pub open spec fn tool_table() -> Seq<ToolDefView> {
    seq![
        ToolDefView {
            name: "read_file"@,
            description: "Read the contents of a text file. Use this BEFORE editing any file. Returns the file contents, prefixed with line numbers. Optionally read a slice via `offset` (1-indexed line) and `limit` (lines)."@,
            params: seq![
                ("path"@, "string"@, Some("Path, absolute or relative to repo root"@)),
                ("offset"@, "integer"@, Some("First line (1-indexed). Optional."@)),
                ("limit"@, "integer"@, Some("Max lines to return. Optional, default 500."@)),
            ],
            required: seq!["path"@],
        },
        ToolDefView {
            name: "list_dir"@,
            description: "List entries in a directory. Returns names with 'd' or 'f' prefix to indicate dir or file."@,
            params: seq![
                ("path"@, "string"@, Some("Directory path. Defaults to repo root if omitted."@)),
            ],
            required: seq![],
        },
        ToolDefView {
            name: "grep"@,
            description: "Search the repo for a regex pattern. Honors .gitignore. Returns up to 100 matches as `path:line: text`. Use this to FIND code (symbol definitions, callers, strings)."@,
            params: seq![
                ("pattern"@, "string"@, Some("Regex pattern (Rust regex syntax)"@)),
                ("path"@, "string"@, Some("Directory to search. Defaults to repo root."@)),
                ("glob"@, "string"@, Some("Optional file-extension filter, e.g. 'rs' or 'py'."@)),
            ],
            required: seq!["pattern"@],
        },
        ToolDefView {
            name: "edit_file"@,
            description: "Replace an EXACT substring in a file. `old_string` must appear exactly once. Shows a diff and asks the user to confirm before applying. Use this for targeted changes; prefer it over write_file when modifying existing files."@,
            params: seq![
                ("path"@, "string"@, None),
                ("old_string"@, "string"@, Some("Exact text to find. Must be unique in the file."@)),
                ("new_string"@, "string"@, Some("Replacement text."@)),
            ],
            required: seq!["path"@, "old_string"@, "new_string"@],
        },
        ToolDefView {
            name: "write_file"@,
            description: "Create a new file or overwrite an existing one. Shows a diff against the previous contents (or 'new file' marker) and asks the user to confirm. Prefer edit_file for small changes to existing files."@,
            params: seq![
                ("path"@, "string"@, None),
                ("contents"@, "string"@, None),
            ],
            required: seq!["path"@, "contents"@],
        },
        ToolDefView {
            name: "bash"@,
            description: "Run a shell command via `bash -c` in the repo directory. Asks the user to confirm before execution. Returns stdout, stderr, and exit code. Use for build, tests, formatters, git, ls, etc."@,
            params: seq![
                ("cmd"@, "string"@, Some("Shell command line."@)),
                ("timeout_secs"@, "integer"@, Some("Max runtime (default 60)."@)),
            ],
            required: seq!["cmd"@],
        },
    ]
}

/// A parameter description.
fn param(name: &'static str, kind: &'static str, description: Option<&'static str>) -> (r: ParamDef)
    ensures
        r@ == (name@, kind@, match description {
            Some(d) => Some(d@),
            None => None::<Seq<char>>,
        }),
{
    ParamDef { name, kind, description }
}

/// The tools offered to the model in chat mode, in order, as the table
/// `tool_table` gives them.
pub fn definitions() -> (r: Vec<ToolDef>)
    ensures
        r@.map_values(|t: ToolDef| t@) == tool_table(),
{
    let v = vec![
        ToolDef {
            name: "read_file",
            description: "Read the contents of a text file. Use this BEFORE editing any file. Returns the file contents, prefixed with line numbers. Optionally read a slice via `offset` (1-indexed line) and `limit` (lines).",
            params: vec![
                param("path", "string", Some("Path, absolute or relative to repo root")),
                param("offset", "integer", Some("First line (1-indexed). Optional.")),
                param("limit", "integer", Some("Max lines to return. Optional, default 500.")),
            ],
            required: vec!["path"],
        },
        ToolDef {
            name: "list_dir",
            description: "List entries in a directory. Returns names with 'd' or 'f' prefix to indicate dir or file.",
            params: vec![
                param("path", "string", Some("Directory path. Defaults to repo root if omitted.")),
            ],
            required: vec![],
        },
        ToolDef {
            name: "grep",
            description: "Search the repo for a regex pattern. Honors .gitignore. Returns up to 100 matches as `path:line: text`. Use this to FIND code (symbol definitions, callers, strings).",
            params: vec![
                param("pattern", "string", Some("Regex pattern (Rust regex syntax)")),
                param("path", "string", Some("Directory to search. Defaults to repo root.")),
                param("glob", "string", Some("Optional file-extension filter, e.g. 'rs' or 'py'.")),
            ],
            required: vec!["pattern"],
        },
        ToolDef {
            name: "edit_file",
            description: "Replace an EXACT substring in a file. `old_string` must appear exactly once. Shows a diff and asks the user to confirm before applying. Use this for targeted changes; prefer it over write_file when modifying existing files.",
            params: vec![
                param("path", "string", None),
                param("old_string", "string", Some("Exact text to find. Must be unique in the file.")),
                param("new_string", "string", Some("Replacement text.")),
            ],
            required: vec!["path", "old_string", "new_string"],
        },
        ToolDef {
            name: "write_file",
            description: "Create a new file or overwrite an existing one. Shows a diff against the previous contents (or 'new file' marker) and asks the user to confirm. Prefer edit_file for small changes to existing files.",
            params: vec![
                param("path", "string", None),
                param("contents", "string", None),
            ],
            required: vec!["path", "contents"],
        },
        ToolDef {
            name: "bash",
            description: "Run a shell command via `bash -c` in the repo directory. Asks the user to confirm before execution. Returns stdout, stderr, and exit code. Use for build, tests, formatters, git, ls, etc.",
            params: vec![
                param("cmd", "string", Some("Shell command line.")),
                param("timeout_secs", "integer", Some("Max runtime (default 60).")),
            ],
            required: vec!["cmd"],
        },
    ];
    proof {
        let t = tool_table();
        assert forall|i: int| 0 <= i < v@.len() implies #[trigger] v@[i]@ == t[i] by {
            assert(v@[i]@.params =~= t[i].params);
            assert(v@[i]@.required =~= t[i].required);
        }
        assert(v@.map_values(|t: ToolDef| t@) =~= t);
    }
    v
}

/// The parameter `key` is one of `params`.
pub open spec fn has_param(params: Seq<(Seq<char>, Seq<char>, Option<Seq<char>>)>, key: Seq<char>) -> bool {
    exists|j: int| 0 <= j < params.len() && #[trigger] params[j].0 == key
}

/// The tool table names the six tools in the order of `Tool`, each once;
/// every required key is one of the tool's parameters; and every parameter
/// is a string or an integer.
pub proof fn lemma_tool_table()
    ensures
        tool_table().len() == 6,
        tool_named(tool_table()[0].name) == Some(Tool::ReadFile),
        tool_named(tool_table()[1].name) == Some(Tool::ListDir),
        tool_named(tool_table()[2].name) == Some(Tool::Grep),
        tool_named(tool_table()[3].name) == Some(Tool::EditFile),
        tool_named(tool_table()[4].name) == Some(Tool::WriteFile),
        tool_named(tool_table()[5].name) == Some(Tool::Bash),
        forall|i: int, j: int| 0 <= i < j < 6 ==> tool_table()[i].name != tool_table()[j].name,
        forall|i: int, k: int|
            0 <= i < 6 && 0 <= k < tool_table()[i].required.len() ==> has_param(
                tool_table()[i].params,
                #[trigger] tool_table()[i].required[k],
            ),
        forall|i: int, j: int|
            0 <= i < 6 && 0 <= j < tool_table()[i].params.len() ==> (#[trigger] tool_table()[i].params[j]).1 == "string"@
                || tool_table()[i].params[j].1 == "integer"@,
{
    reveal_strlit("read_file");
    reveal_strlit("list_dir");
    reveal_strlit("grep");
    reveal_strlit("edit_file");
    reveal_strlit("write_file");
    reveal_strlit("bash");
    assert("read_file"@[0] != "list_dir"@[0]);
    assert("read_file"@[0] != "grep"@[0]);
    assert("read_file"@[0] != "edit_file"@[0]);
    assert("read_file"@[0] != "write_file"@[0]);
    assert("read_file"@[0] != "bash"@[0]);
    assert("list_dir"@[0] != "grep"@[0]);
    assert("list_dir"@[0] != "edit_file"@[0]);
    assert("list_dir"@[0] != "write_file"@[0]);
    assert("list_dir"@[0] != "bash"@[0]);
    assert("grep"@[0] != "edit_file"@[0]);
    assert("grep"@[0] != "write_file"@[0]);
    assert("grep"@[0] != "bash"@[0]);
    assert("edit_file"@[0] != "write_file"@[0]);
    assert("edit_file"@[0] != "bash"@[0]);
    assert("write_file"@[0] != "bash"@[0]);
    let t = tool_table();
    assert forall|i: int, k: int| 0 <= i < 6 && 0 <= k < t[i].required.len() implies has_param(t[i].params, #[trigger] t[i].required[k]) by {
        if i == 0 && k == 0 {
            assert(t[i].params[0].0 == t[i].required[k]);
        }
        if i == 2 && k == 0 {
            assert(t[i].params[0].0 == t[i].required[k]);
        }
        if i == 3 && k == 0 {
            assert(t[i].params[0].0 == t[i].required[k]);
        }
        if i == 3 && k == 1 {
            assert(t[i].params[1].0 == t[i].required[k]);
        }
        if i == 3 && k == 2 {
            assert(t[i].params[2].0 == t[i].required[k]);
        }
        if i == 4 && k == 0 {
            assert(t[i].params[0].0 == t[i].required[k]);
        }
        if i == 4 && k == 1 {
            assert(t[i].params[1].0 == t[i].required[k]);
        }
        if i == 5 && k == 0 {
            assert(t[i].params[0].0 == t[i].required[k]);
        }
    }
}

} // verus!
