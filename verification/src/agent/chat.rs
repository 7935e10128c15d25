//! The chat REPL: its system prompt, what a typed line means, when a turn
//! of tool calls ends, and the one-line preview of a tool's result.
use vstd::prelude::*;

use crate::text::{from_chars, lines, owned, push_str, split_lines, str_eq, sub_chars, to_chars, trim, trim_chars};
use crate::tools::find_symbol::debug_quoted;

verus! {

broadcast use crate::text::lemma_chars_deep_view;

/// Tool calls a single turn may make at most.
pub const MAX_TOOL_CALLS_PER_TURN: usize = 25;

/// The chat system prompt, up to the working directory.
pub const CHAT_PROMPT_HEAD: &'static str = "You are OpenCode, an interactive coding agent operating in the user's repository.\n\nYou have tools to investigate and modify code:\n- read_file: read a file's contents. ALWAYS use this before editing a file.\n- list_dir: list a directory's entries.\n- grep: regex search across the repo (honors .gitignore). Use this to FIND code.\n- edit_file: replace an exact substring in a file (user confirms).\n- write_file: create or overwrite a file (user confirms).\n- bash: run a shell command (user confirms). Use for build/test/format/git/ls.\n\nHow to work:\n- When asked to find something, start with grep or list_dir, then read_file to confirm.\n- When asked to fix or change something, explore first, then make minimal targeted edits.\n- Read a file BEFORE editing it — edit_file requires an exact unique substring match.\n- Prefer edit_file over write_file when modifying existing files.\n- After making changes, suggest or run a verification command (cargo check, pytest, etc.).\n- When the task is complete, reply with a SHORT plain-text summary and emit NO further tool calls.\n- If a tool returns ERROR, read the message carefully and adjust — don't repeat the same call.\n\nWorking directory: ";

/// The chat system prompt for the repository at `repo`.
pub fn system_prompt(repo: &str) -> (r: String)
    ensures
        r@ == CHAT_PROMPT_HEAD@ + repo@ + "\n"@,
{
    let mut s = owned(CHAT_PROMPT_HEAD);
    push_str(&mut s, repo);
    push_str(&mut s, "\n");
    s
}

/// The first line that is not blank.
pub open spec fn first_nonblank(ls: Seq<Seq<char>>) -> Option<Seq<char>>
    decreases ls.len(),
{
    if ls.len() == 0 {
        None
    } else if trim(ls[0]).len() > 0 {
        Some(ls[0])
    } else {
        first_nonblank(ls.drop_first())
    }
}

/// The first non-blank line of `s`, trimmed, cut to 77 characters and
/// `...` when it is longer than 80.
pub open spec fn preview_of(s: Seq<char>) -> Seq<char> {
    let line = match first_nonblank(lines(s)) {
        Some(l) => trim(l),
        None => seq![],
    };
    if line.len() <= 80 {
        line
    } else {
        line.take(77) + "..."@
    }
}

/// A one-line preview of a tool result.
pub fn preview(s: &str) -> (r: String)
    ensures
        r@ == preview_of(s@),
{
    let chars = to_chars(s);
    let ls = split_lines(&chars);
    let ghost lv = ls.deep_view();
    let mut line: Vec<char> = Vec::new();
    let mut i: usize = 0;
    assert(lv.skip(0) == lv);
    while i < ls.len()
        invariant_except_break
            line@ == Seq::<char>::empty(),
        invariant
            i <= ls@.len(),
            lv == ls.deep_view(),
            lv == lines(s@),
            first_nonblank(lv) == first_nonblank(lv.skip(i as int)),
        ensures
            line@ == match first_nonblank(lv) {
                Some(l) => trim(l),
                None => seq![],
            },
        decreases ls@.len() - i,
    {
        let t = trim_chars(&ls[i]);
        assert(lv[i as int] == ls@[i as int]@);
        assert(lv.skip(i as int)[0] == lv[i as int]);
        if t.len() > 0 {
            line = t;
            break;
        }
        assert(lv.skip(i as int).drop_first() == lv.skip(i + 1));
        i += 1;
    }
    assert(line@ == match first_nonblank(lines(s@)) {
        Some(l) => trim(l),
        None => seq![],
    });
    if line.len() <= 80 {
        from_chars(&line)
    } else {
        let cut = sub_chars(&line, 0, 77);
        let mut out = from_chars(&cut);
        push_str(&mut out, "...");
        out
    }
}

/// What a line typed at the prompt asks for.
#[derive(Debug)]
pub enum ChatInput {
    /// A blank line: prompt again.
    Skip,
    /// `/exit` or `/quit`.
    Quit,
    /// `/reset`: drop the conversation but for the system prompt.
    Reset,
    /// A message to the model, trimmed.
    Message(String),
}

/// What the typed `line` asks for.
pub fn classify_input(line: &str) -> (r: ChatInput)
    ensures
        trim(line@).len() == 0 ==> r is Skip,
        (trim(line@) == "/exit"@ || trim(line@) == "/quit"@) ==> r is Quit,
        trim(line@) == "/reset"@ ==> r is Reset,
        trim(line@).len() > 0 && trim(line@) != "/exit"@ && trim(line@) != "/quit"@ && trim(line@)
            != "/reset"@ ==> (r matches ChatInput::Message(m) && m@ == trim(line@)),
{
    proof {
        reveal_strlit("/exit");
        reveal_strlit("/quit");
        reveal_strlit("/reset");
    }
    let chars = to_chars(line);
    let t = trim_chars(&chars);
    let input = from_chars(&t);
    if t.len() == 0 {
        ChatInput::Skip
    } else if str_eq(input.as_str(), "/exit") || str_eq(input.as_str(), "/quit") {
        ChatInput::Quit
    } else if str_eq(input.as_str(), "/reset") {
        ChatInput::Reset
    } else {
        ChatInput::Message(input)
    }
}

/// What a turn does with the model's reply.
#[derive(Debug, PartialEq, Eq, Structural)]
pub enum TurnStep {
    /// No tool calls: show the reply and end the turn.
    Reply,
    /// Run the tool calls, then ask the model again.
    RunTools,
    /// Run the tool calls, then end the turn: the cap is reached.
    RunToolsLast,
}

/// The step after the model's reply number `iter` (from 0) of a turn,
/// which asked for `n_calls` tool calls.
pub fn turn_step(iter: usize, n_calls: usize) -> (r: TurnStep)
    requires
        iter < MAX_TOOL_CALLS_PER_TURN,
    ensures
        n_calls == 0 ==> r == TurnStep::Reply,
        n_calls > 0 && iter + 1 == MAX_TOOL_CALLS_PER_TURN ==> r == TurnStep::RunToolsLast,
        n_calls > 0 && iter + 1 < MAX_TOOL_CALLS_PER_TURN ==> r == TurnStep::RunTools,
{
    if n_calls == 0 {
        TurnStep::Reply
    } else if iter + 1 == MAX_TOOL_CALLS_PER_TURN {
        TurnStep::RunToolsLast
    } else {
        TurnStep::RunTools
    }
}

/// A preview is at most 80 characters long.
pub proof fn lemma_preview_short(s: Seq<char>)
    ensures
        preview_of(s).len() <= 80,
{
    reveal_strlit("...");
}

/// The color a call label's verb is shown in.
#[derive(Clone, Copy, Debug, PartialEq, Eq, Structural)]
pub enum Tint {
    Green,
    Yellow,
    Magenta,
}

/// A one-line label of a tool call: a colored verb, then what it acts on;
/// an unknown tool shows its name and raw arguments with no verb.
pub struct CallLabel {
    pub verb: Option<(&'static str, Tint)>,
    pub rest: String,
}

/// An argument as shown: its text, or `?` when missing.
pub open spec fn shown(a: Option<Seq<char>>, missing: Seq<char>) -> Seq<char> {
    match a {
        Some(t) => t,
        None => missing,
    }
}

/// The label of a call of the tool `name`, whose arguments `path`,
/// `pattern` and `cmd` are given when present as strings, and whose
/// argument text is `raw`.
pub open spec fn label_of(
    name: Seq<char>,
    path: Option<Seq<char>>,
    pattern: Option<Seq<char>>,
    cmd: Option<Seq<char>>,
    raw: Seq<char>,
) -> (Option<(Seq<char>, Tint)>, Seq<char>) {
    if name == "read_file"@ {
        (Some(("Read"@, Tint::Green)), shown(path, "?"@))
    } else if name == "list_dir"@ {
        (Some(("List"@, Tint::Green)), shown(path, "."@))
    } else if name == "grep"@ {
        (Some(("Grep"@, Tint::Green)), debug_quoted(shown(pattern, "?"@)) + " in "@ + shown(path, "."@))
    } else if name == "edit_file"@ {
        (Some(("Edit"@, Tint::Yellow)), shown(path, "?"@))
    } else if name == "write_file"@ {
        (Some(("Write"@, Tint::Yellow)), shown(path, "?"@))
    } else if name == "bash"@ {
        (Some(("Bash"@, Tint::Magenta)), shown(cmd, "?"@))
    } else {
        (None, name + "("@ + raw + ")"@)
    }
}

fn or_default<'a>(a: Option<&'a str>, missing: &'static str) -> (r: &'a str)
    ensures
        r@ == shown(
            match a {
                Some(t) => Some(t@),
                None => None,
            },
            missing@,
        ),
{
    match a {
        Some(t) => t,
        None => missing,
    }
}

/// The label shown in the terminal for a tool call.
pub fn call_label(name: &str, path: Option<&str>, pattern: Option<&str>, cmd: Option<&str>, raw: &str) -> (r: CallLabel)
    ensures
        ({
            let l = label_of(
                name@,
                match path {
                    Some(t) => Some(t@),
                    None => None,
                },
                match pattern {
                    Some(t) => Some(t@),
                    None => None,
                },
                match cmd {
                    Some(t) => Some(t@),
                    None => None,
                },
                raw@,
            );
            &&& r.rest@ == l.1
            &&& match (r.verb, l.0) {
                (Some((v, t)), Some((lv, lt))) => v@ == lv && t == lt,
                (None, None) => true,
                _ => false,
            }
        }),
{
    if str_eq(name, "read_file") {
        CallLabel { verb: Some(("Read", Tint::Green)), rest: owned(or_default(path, "?")) }
    } else if str_eq(name, "list_dir") {
        CallLabel { verb: Some(("List", Tint::Green)), rest: owned(or_default(path, ".")) }
    } else if str_eq(name, "grep") {
        let mut rest = crate::tools::find_symbol::quoted(or_default(pattern, "?"));
        push_str(&mut rest, " in ");
        push_str(&mut rest, or_default(path, "."));
        CallLabel { verb: Some(("Grep", Tint::Green)), rest }
    } else if str_eq(name, "edit_file") {
        CallLabel { verb: Some(("Edit", Tint::Yellow)), rest: owned(or_default(path, "?")) }
    } else if str_eq(name, "write_file") {
        CallLabel { verb: Some(("Write", Tint::Yellow)), rest: owned(or_default(path, "?")) }
    } else if str_eq(name, "bash") {
        CallLabel { verb: Some(("Bash", Tint::Magenta)), rest: owned(or_default(cmd, "?")) }
    } else {
        let mut rest = owned(name);
        push_str(&mut rest, "(");
        push_str(&mut rest, raw);
        push_str(&mut rest, ")");
        CallLabel { verb: None, rest }
    }
}

} // verus!
