//! Decoding a tool call: the model's argument text, the tool it names, and
//! the arguments that tool reads.
use vstd::prelude::*;

use crate::text::{owned, str_eq};
use crate::tools::{tool_named, tool_of, tool_table, Tool, ToolDefView};

verus! {

#[verifier::external_type_specification]
#[verifier::external_body]
pub struct ExJsonError(serde_json::Error);

/// One argument value as the tools read it: a string, a non-negative
/// integer that fits in a `u64`, a boolean, or anything else.
#[derive(Debug)]
pub enum JsonArg {
    Str(String),
    UInt(u64),
    Bool(bool),
    Other,
}

/// An argument value as a value.
pub enum JsonArgView {
    Str(Seq<char>),
    UInt(u64),
    Bool(bool),
    Other,
}

impl DeepView for JsonArg {
    type V = JsonArgView;

    open spec fn deep_view(&self) -> JsonArgView {
        match self {
            JsonArg::Str(s) => JsonArgView::Str(s@),
            JsonArg::UInt(u) => JsonArgView::UInt(*u),
            JsonArg::Bool(b) => JsonArgView::Bool(*b),
            JsonArg::Other => JsonArgView::Other,
        }
    }
}

/// The members of the JSON value that `text` holds, each key with its value
/// (an empty list when the value is not an object), or `None` when `text`
/// is not valid JSON (`serde_json::from_str::<Value>`).
pub uninterp spec fn json_args(text: Seq<char>) -> Option<Seq<(Seq<char>, JsonArgView)>>;

/// Parses the arguments of a tool call (`serde_json::from_str`), keeping
/// for each member of an object its key and its value as the tools read it
/// (`Value::as_u64` for numbers).
#[verifier::external_body]
fn parse_args(text: &str) -> (r: Result<Vec<(String, JsonArg)>, serde_json::Error>)
    ensures
        r is Err <==> json_args(text@) is None,
        r matches Ok(v) ==> json_args(text@) == Some(v.deep_view()),
{
    let value: serde_json::Value = serde_json::from_str(text)?;
    let mut out = Vec::new();
    if let serde_json::Value::Object(members) = value {
        for (k, v) in members {
            let a = match v {
                serde_json::Value::String(s) => JsonArg::Str(s),
                serde_json::Value::Bool(b) => JsonArg::Bool(b),
                serde_json::Value::Number(n) => n.as_u64().map_or(JsonArg::Other, JsonArg::UInt),
                _ => JsonArg::Other,
            };
            out.push((k, a));
        }
    }
    Ok(out)
}

/// The value of the first member called `key`.
pub open spec fn arg_of(args: Seq<(Seq<char>, JsonArgView)>, key: Seq<char>) -> Option<JsonArgView>
    decreases args.len(),
{
    if args.len() == 0 {
        None
    } else if args[0].0 == key {
        Some(args[0].1)
    } else {
        arg_of(args.drop_first(), key)
    }
}

/// The member `key` when it is a string (`Value::as_str`).
pub open spec fn str_of(args: Seq<(Seq<char>, JsonArgView)>, key: Seq<char>) -> Option<Seq<char>> {
    match arg_of(args, key) {
        Some(JsonArgView::Str(s)) => Some(s),
        _ => None,
    }
}

/// The member `key` when it is an integer that fits in a `u64`
/// (`Value::as_u64`).
pub open spec fn uint_of(args: Seq<(Seq<char>, JsonArgView)>, key: Seq<char>) -> Option<u64> {
    match arg_of(args, key) {
        Some(JsonArgView::UInt(u)) => Some(u),
        _ => None,
    }
}

/// The arguments each tool reads.
#[derive(Debug)]
pub enum ToolArgs {
    ReadFile { path: String, offset: Option<u64>, limit: Option<u64> },
    ListDir { path: Option<String> },
    Grep { pattern: String, path: Option<String>, glob: Option<String> },
    EditFile { path: String, old_string: String, new_string: String },
    WriteFile { path: String, contents: String },
    Bash { cmd: String, timeout_secs: Option<u64> },
}

/// The arguments of a tool as values.
pub enum ToolArgsView {
    ReadFile { path: Seq<char>, offset: Option<u64>, limit: Option<u64> },
    ListDir { path: Option<Seq<char>> },
    Grep { pattern: Seq<char>, path: Option<Seq<char>>, glob: Option<Seq<char>> },
    EditFile { path: Seq<char>, old_string: Seq<char>, new_string: Seq<char> },
    WriteFile { path: Seq<char>, contents: Seq<char> },
    Bash { cmd: Seq<char>, timeout_secs: Option<u64> },
}

/// An optional string as a value.
pub open spec fn opt_view(o: Option<String>) -> Option<Seq<char>> {
    match o {
        Some(s) => Some(s@),
        None => None,
    }
}

impl View for ToolArgs {
    type V = ToolArgsView;

    open spec fn view(&self) -> ToolArgsView {
        match self {
            ToolArgs::ReadFile { path, offset, limit } => ToolArgsView::ReadFile {
                path: path@,
                offset: *offset,
                limit: *limit,
            },
            ToolArgs::ListDir { path } => ToolArgsView::ListDir { path: opt_view(*path) },
            ToolArgs::Grep { pattern, path, glob } => ToolArgsView::Grep {
                pattern: pattern@,
                path: opt_view(*path),
                glob: opt_view(*glob),
            },
            ToolArgs::EditFile { path, old_string, new_string } => ToolArgsView::EditFile {
                path: path@,
                old_string: old_string@,
                new_string: new_string@,
            },
            ToolArgs::WriteFile { path, contents } => ToolArgsView::WriteFile { path: path@, contents: contents@ },
            ToolArgs::Bash { cmd, timeout_secs } => ToolArgsView::Bash { cmd: cmd@, timeout_secs: *timeout_secs },
        }
    }
}

/// What the tool `t` reads from the arguments `a`, or the first of its
/// required string arguments that is missing (or not a string), in the
/// order the tool reads them.
pub open spec fn call_args(t: Tool, a: Seq<(Seq<char>, JsonArgView)>) -> Result<ToolArgsView, Seq<char>> {
    match t {
        Tool::ReadFile => match str_of(a, "path"@) {
            None => Err("path"@),
            Some(p) => Ok(ToolArgsView::ReadFile { path: p, offset: uint_of(a, "offset"@), limit: uint_of(a, "limit"@) }),
        },
        Tool::ListDir => Ok(ToolArgsView::ListDir { path: str_of(a, "path"@) }),
        Tool::Grep => match str_of(a, "pattern"@) {
            None => Err("pattern"@),
            Some(p) => Ok(ToolArgsView::Grep { pattern: p, path: str_of(a, "path"@), glob: str_of(a, "glob"@) }),
        },
        Tool::EditFile => match (str_of(a, "path"@), str_of(a, "old_string"@), str_of(a, "new_string"@)) {
            (None, _, _) => Err("path"@),
            (Some(_), None, _) => Err("old_string"@),
            (Some(_), Some(_), None) => Err("new_string"@),
            (Some(p), Some(o), Some(n)) => Ok(ToolArgsView::EditFile { path: p, old_string: o, new_string: n }),
        },
        Tool::WriteFile => match (str_of(a, "path"@), str_of(a, "contents"@)) {
            (None, _) => Err("path"@),
            (Some(_), None) => Err("contents"@),
            (Some(p), Some(c)) => Ok(ToolArgsView::WriteFile { path: p, contents: c }),
        },
        Tool::Bash => match str_of(a, "cmd"@) {
            None => Err("cmd"@),
            Some(c) => Ok(ToolArgsView::Bash { cmd: c, timeout_secs: uint_of(a, "timeout_secs"@) }),
        },
    }
}

/// The member `key` is a string.
pub open spec fn has_str(a: Seq<(Seq<char>, JsonArgView)>, key: Seq<char>) -> bool {
    arg_of(a, key) matches Some(JsonArgView::Str(_))
}

/// The tool table's entry for `t`.
pub open spec fn table_entry(t: Tool) -> ToolDefView {
    match t {
        Tool::ReadFile => tool_table()[0],
        Tool::ListDir => tool_table()[1],
        Tool::Grep => tool_table()[2],
        Tool::EditFile => tool_table()[3],
        Tool::WriteFile => tool_table()[4],
        Tool::Bash => tool_table()[5],
    }
}

/// Each decoded argument is the value under its own key: a required one is
/// the string under that key, an optional one the string (or integer) under
/// it when there is one. A call decodes exactly when every key that the
/// tool table marks required holds a string; otherwise the key refused is
/// a required one that does not.
pub proof fn lemma_call_args_keys(t: Tool, a: Seq<(Seq<char>, JsonArgView)>)
    ensures
        match call_args(t, a) {
            Ok(ToolArgsView::ReadFile { path, offset, limit }) => {
                &&& t == Tool::ReadFile
                &&& arg_of(a, "path"@) == Some(JsonArgView::Str(path))
                &&& offset == (match arg_of(a, "offset"@) {
                    Some(JsonArgView::UInt(u)) => Some(u),
                    _ => None::<u64>,
                })
                &&& limit == (match arg_of(a, "limit"@) {
                    Some(JsonArgView::UInt(u)) => Some(u),
                    _ => None::<u64>,
                })
            },
            Ok(ToolArgsView::ListDir { path }) => {
                &&& t == Tool::ListDir
                &&& path == (match arg_of(a, "path"@) {
                    Some(JsonArgView::Str(s)) => Some(s),
                    _ => None::<Seq<char>>,
                })
            },
            Ok(ToolArgsView::Grep { pattern, path, glob }) => {
                &&& t == Tool::Grep
                &&& arg_of(a, "pattern"@) == Some(JsonArgView::Str(pattern))
                &&& path == (match arg_of(a, "path"@) {
                    Some(JsonArgView::Str(s)) => Some(s),
                    _ => None::<Seq<char>>,
                })
                &&& glob == (match arg_of(a, "glob"@) {
                    Some(JsonArgView::Str(s)) => Some(s),
                    _ => None::<Seq<char>>,
                })
            },
            Ok(ToolArgsView::EditFile { path, old_string, new_string }) => {
                &&& t == Tool::EditFile
                &&& arg_of(a, "path"@) == Some(JsonArgView::Str(path))
                &&& arg_of(a, "old_string"@) == Some(JsonArgView::Str(old_string))
                &&& arg_of(a, "new_string"@) == Some(JsonArgView::Str(new_string))
            },
            Ok(ToolArgsView::WriteFile { path, contents }) => {
                &&& t == Tool::WriteFile
                &&& arg_of(a, "path"@) == Some(JsonArgView::Str(path))
                &&& arg_of(a, "contents"@) == Some(JsonArgView::Str(contents))
            },
            Ok(ToolArgsView::Bash { cmd, timeout_secs }) => {
                &&& t == Tool::Bash
                &&& arg_of(a, "cmd"@) == Some(JsonArgView::Str(cmd))
                &&& timeout_secs == (match arg_of(a, "timeout_secs"@) {
                    Some(JsonArgView::UInt(u)) => Some(u),
                    _ => None::<u64>,
                })
            },
            Err(k) => !has_str(a, k) && table_entry(t).required.contains(k),
        },
        call_args(t, a) is Ok <==> forall|j: int|
            0 <= j < table_entry(t).required.len() ==> has_str(a, #[trigger] table_entry(t).required[j]),
{
    let req = table_entry(t).required;
    match t {
        Tool::ReadFile => {
            assert(req =~= seq!["path"@]);
            if !has_str(a, "path"@) {
                assert(req[0] == "path"@);
            }
        },
        Tool::ListDir => {
            assert(req.len() == 0);
        },
        Tool::Grep => {
            assert(req =~= seq!["pattern"@]);
            if !has_str(a, "pattern"@) {
                assert(req[0] == "pattern"@);
            }
        },
        Tool::EditFile => {
            assert(req =~= seq!["path"@, "old_string"@, "new_string"@]);
            assert(req[0] == "path"@);
            assert(req[1] == "old_string"@);
            assert(req[2] == "new_string"@);
        },
        Tool::WriteFile => {
            assert(req =~= seq!["path"@, "contents"@]);
            assert(req[0] == "path"@);
            assert(req[1] == "contents"@);
        },
        Tool::Bash => {
            assert(req =~= seq!["cmd"@]);
            if !has_str(a, "cmd"@) {
                assert(req[0] == "cmd"@);
            }
        },
    }
}

/// Why a tool call could not be decoded.
#[derive(Debug)]
pub enum CallError {
    /// The argument text is not valid JSON.
    InvalidJson(serde_json::Error),
    /// No tool has the called name.
    UnknownTool,
    /// A required string argument, named here, is missing.
    MissingArg(&'static str),
}

/// The position of the first argument called `key`.
fn find_arg(args: &Vec<(String, JsonArg)>, key: &str) -> (r: Option<usize>)
    ensures
        match arg_of(args.deep_view(), key@) {
            Some(v) => r matches Some(i) && i < args@.len() && args@[i as int].1.deep_view() == v,
            None => r is None,
        },
{
    let ghost av = args.deep_view();
    let mut i: usize = 0;
    assert(av.skip(0) == av);
    while i < args.len()
        invariant
            i <= args@.len(),
            av == args.deep_view(),
            arg_of(av, key@) == arg_of(av.skip(i as int), key@),
        decreases args@.len() - i,
    {
        assert(av.skip(i as int)[0] == av[i as int]);
        assert(av[i as int] == (args@[i as int].0@, args@[i as int].1.deep_view()));
        if str_eq(args[i].0.as_str(), key) {
            return Some(i);
        }
        assert(av.skip(i as int).drop_first() == av.skip(i + 1));
        i += 1;
    }
    assert(av.skip(i as int).len() == 0);
    None
}

/// The argument `key` when it is a string.
fn str_arg(args: &Vec<(String, JsonArg)>, key: &str) -> (r: Option<String>)
    ensures
        opt_view(r) == str_of(args.deep_view(), key@),
{
    match find_arg(args, key) {
        Some(i) => match &args[i].1 {
            JsonArg::Str(s) => Some(owned(s.as_str())),
            _ => None,
        },
        None => None,
    }
}

/// The argument `key` when it is an integer that fits in a `u64`.
fn uint_arg(args: &Vec<(String, JsonArg)>, key: &str) -> (r: Option<u64>)
    ensures
        r == uint_of(args.deep_view(), key@),
{
    match find_arg(args, key) {
        Some(i) => match &args[i].1 {
            JsonArg::UInt(u) => Some(*u),
            _ => None,
        },
        None => None,
    }
}

/// Decodes a call of the tool `name` with the argument text `args_json`:
/// invalid JSON is refused before anything else, then an unknown tool, then
/// the first missing required argument; otherwise the tool and what it
/// reads.
pub fn decode_call(name: &str, args_json: &str) -> (r: Result<(Tool, ToolArgs), CallError>)
    ensures
        match json_args(args_json@) {
            None => r matches Err(CallError::InvalidJson(_)),
            Some(a) => match tool_named(name@) {
                None => r matches Err(CallError::UnknownTool),
                Some(t) => match call_args(t, a) {
                    Err(k) => r matches Err(CallError::MissingArg(k2)) && k2@ == k,
                    Ok(v) => r matches Ok((t2, args)) && t2 == t && args@ == v,
                },
            },
        },
{
    let args = match parse_args(args_json) {
        Ok(a) => a,
        Err(e) => return Err(CallError::InvalidJson(e)),
    };
    let tool = match tool_of(name) {
        Some(t) => t,
        None => return Err(CallError::UnknownTool),
    };
    let decoded = match tool {
        Tool::ReadFile => match str_arg(&args, "path") {
            None => return Err(CallError::MissingArg("path")),
            Some(path) => ToolArgs::ReadFile {
                path,
                offset: uint_arg(&args, "offset"),
                limit: uint_arg(&args, "limit"),
            },
        },
        Tool::ListDir => ToolArgs::ListDir { path: str_arg(&args, "path") },
        Tool::Grep => match str_arg(&args, "pattern") {
            None => return Err(CallError::MissingArg("pattern")),
            Some(pattern) => ToolArgs::Grep { pattern, path: str_arg(&args, "path"), glob: str_arg(&args, "glob") },
        },
        Tool::EditFile => {
            let path = match str_arg(&args, "path") {
                Some(p) => p,
                None => return Err(CallError::MissingArg("path")),
            };
            let old_string = match str_arg(&args, "old_string") {
                Some(o) => o,
                None => return Err(CallError::MissingArg("old_string")),
            };
            let new_string = match str_arg(&args, "new_string") {
                Some(n) => n,
                None => return Err(CallError::MissingArg("new_string")),
            };
            ToolArgs::EditFile { path, old_string, new_string }
        },
        Tool::WriteFile => {
            let path = match str_arg(&args, "path") {
                Some(p) => p,
                None => return Err(CallError::MissingArg("path")),
            };
            let contents = match str_arg(&args, "contents") {
                Some(c) => c,
                None => return Err(CallError::MissingArg("contents")),
            };
            ToolArgs::WriteFile { path, contents }
        },
        Tool::Bash => match str_arg(&args, "cmd") {
            None => return Err(CallError::MissingArg("cmd")),
            Some(cmd) => ToolArgs::Bash { cmd, timeout_secs: uint_arg(&args, "timeout_secs") },
        },
    };
    Ok((tool, decoded))
}

} // verus!
