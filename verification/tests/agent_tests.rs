use opencode::agent::debug::{file_step, FileStep};
use opencode::agent::debug::{debug_step, DebugAction, DebugEvent};
use opencode::agent::ask::{ask_prompt, render_context};
use opencode::agent::chat::{call_label, classify_input, preview, system_prompt, turn_step, ChatInput, Tint, TurnStep, MAX_TOOL_CALLS_PER_TURN};
use opencode::agent::debug::{fix_prompt, hint_block, hint_candidates, select_hints};
use opencode::agent::edit::{edit_prompt, edit_target, strip_fences, unchanged};
use opencode::agent::json::JsonError;
use opencode::agent::paths::PathError;
use opencode::agent::scaffold::{plan_listing, scaffold_prompt};
use opencode::agent::system_preamble;
use opencode::agent::{debug, scaffold};
use opencode::rag::Chunk;

#[test]
fn extract_json_takes_first_balanced_object() {
    let r = scaffold::extract_json("Sure! {\"a\": {\"b\": \"}\"}} trailing");
    assert_eq!(r, Ok("{\"a\": {\"b\": \"}\"}}".to_string()));
}

#[test]
fn extract_json_skips_escaped_quote() {
    let r = debug::extract_json("x {\"s\": \"a\\\"}\"} y");
    assert_eq!(r, Ok("{\"s\": \"a\\\"}\"}".to_string()));
}

#[test]
fn extract_json_errors() {
    assert_eq!(debug::extract_json("no object here"), Err(JsonError::NoObject));
    assert_eq!(scaffold::extract_json("{\"a\": 1"), Err(JsonError::Unterminated));
}

#[test]
fn sanitize_rel_accepts_relative() {
    assert_eq!(scaffold::sanitize_rel("src/main.rs"), Ok("src/main.rs".to_string()));
    assert_eq!(debug::sanitize_rel("./a"), Ok("./a".to_string()));
    assert_eq!(debug::sanitize_rel("a/..b"), Ok("a/..b".to_string()));
}

#[test]
fn sanitize_rel_refuses_escapes() {
    assert_eq!(scaffold::sanitize_rel("/etc/passwd"), Err(PathError::Absolute));
    assert_eq!(scaffold::sanitize_rel("../x"), Err(PathError::UnsafeComponent));
    assert_eq!(debug::sanitize_rel("a/../b"), Err(PathError::UnsafeComponent));
    assert_eq!(debug::sanitize_rel("a/.."), Err(PathError::UnsafeComponent));
}

#[test]
fn strip_fences_removes_language_fence() {
    assert_eq!(strip_fences("```rust\nfn main() {}\n```"), "fn main() {}\n");
}

#[test]
fn strip_fences_with_text_after_closing_fence() {
    assert_eq!(strip_fences("```\ncode\n```\nextra"), "code\n");
}

#[test]
fn strip_fences_leaves_plain_text() {
    assert_eq!(strip_fences("  plain \n"), "  plain \n");
    assert_eq!(strip_fences("```no closing"), "```no closing");
}

#[test]
fn preamble_with_and_without_language() {
    assert_eq!(
        system_preamble(Some("rust")),
        "You are OpenCode, a careful local coding agent. You read provided context and respond concisely. Prefer correctness and idiomatic style for rust. When asked to modify code, output exactly the requested format (full file or unified diff) — no prose, no markdown fences unless explicitly requested."
    );
    assert!(system_preamble(None).contains("idiomatic style for the language used in the provided code."));
}

#[test]
fn chat_system_prompt_ends_with_repo() {
    let p = system_prompt("/home/me/repo");
    assert!(p.starts_with("You are OpenCode, an interactive coding agent operating in the user's repository.\n\n"));
    assert!(p.ends_with("\nWorking directory: /home/me/repo\n"));
    assert!(p.contains("- bash: run a shell command (user confirms). Use for build/test/format/git/ls.\n"));
}

#[test]
fn preview_first_nonblank_line() {
    assert_eq!(preview("\n\n  hello  \nworld"), "hello");
    assert_eq!(preview(""), "");
    assert_eq!(preview("   \n\t\n"), "");
}

#[test]
fn preview_cuts_long_line() {
    let long = "x".repeat(100);
    assert_eq!(preview(&long), format!("{}...", "x".repeat(77)));
    let exact = "y".repeat(80);
    assert_eq!(preview(&exact), exact);
    assert!(preview(&"z".repeat(500)).chars().count() <= 80);
}

#[test]
fn classify_chat_input() {
    assert!(matches!(classify_input("   "), ChatInput::Skip));
    assert!(matches!(classify_input(" /exit "), ChatInput::Quit));
    assert!(matches!(classify_input("/quit"), ChatInput::Quit));
    assert!(matches!(classify_input("/reset\n"), ChatInput::Reset));
    match classify_input("  fix the bug \n") {
        ChatInput::Message(m) => assert_eq!(m, "fix the bug"),
        other => panic!("unexpected {:?}", other),
    }
}

#[test]
fn turn_steps() {
    assert_eq!(MAX_TOOL_CALLS_PER_TURN, 25);
    assert_eq!(turn_step(0, 0), TurnStep::Reply);
    assert_eq!(turn_step(3, 2), TurnStep::RunTools);
    assert_eq!(turn_step(24, 1), TurnStep::RunToolsLast);
    assert_eq!(turn_step(24, 0), TurnStep::Reply);
}

#[test]
fn ask_context_and_prompt() {
    let hits = vec![
        Chunk { path: "src/a.rs".into(), start_line: 1, end_line: 2, text: "x\ny".into() },
        Chunk { path: "b.py".into(), start_line: 51, end_line: 110, text: "z".into() },
    ];
    let ctx = render_context(&hits);
    assert_eq!(ctx, "--- src/a.rs:1-2 ---\nx\ny\n\n--- b.py:51-110 ---\nz\n\n");
    assert_eq!(
        ask_prompt(&ctx, "what?"),
        format!("Codebase context:\n\n{ctx}\n\nQuestion: what?\n\nAnswer concisely. Cite file paths and line ranges where relevant.")
    );
    assert_eq!(render_context(&Vec::new()), "");
}

#[test]
fn edit_prompt_and_checks() {
    assert_eq!(
        edit_prompt("src/a.rs", "fn a() {}", "rename a to b"),
        "Here is the current contents of src/a.rs:\n\n```\nfn a() {}\n```\n\nApply this change: rename a to b\n\nRespond with the FULL updated file contents only — no commentary, no markdown fences, no diff format. Preserve formatting and existing code that doesn't need to change."
    );
    assert!(unchanged(" a \n", "a"));
    assert!(!unchanged("a", "b"));
    assert_eq!(edit_target("/repo", "src/a.rs"), "/repo/src/a.rs");
    assert_eq!(edit_target("/repo", "/tmp/x"), "/tmp/x");
}

#[test]
fn scaffold_prompt_text() {
    assert_eq!(
        scaffold_prompt(None, "a todo app"),
        "Generate a complete project for this spec, written in the most appropriate language:\n\na todo app\n\nRespond as JSON with this exact schema:\n{\"files\": [{\"path\": \"relative/path.ext\", \"contents\": \"file body\"}]}\n\nRules:\n- Paths must be relative (no leading /).\n- Include all files needed to build and run (manifest, source, README).\n- Keep it minimal and runnable; do not invent dependencies that aren't standard.\n- Do NOT wrap the JSON in markdown fences."
    );
    assert!(scaffold_prompt(Some("go"), "x").starts_with("Generate a complete project for this spec, written in go:\n\nx\n\n"));
}

#[test]
fn plan_listing_lists_files_under_out() {
    let files = vec![("a.rs".to_string(), 10usize), ("src/b.rs".to_string(), 3usize)];
    assert_eq!(
        plan_listing("out", &files),
        Ok("Plan (2 files):\n  out/a.rs  (10 bytes)\n  out/src/b.rs  (3 bytes)\n".to_string())
    );
}

#[test]
fn plan_listing_refuses_unsafe_paths() {
    let files = vec![("ok.rs".to_string(), 1usize), ("/abs".to_string(), 2usize), ("../x".to_string(), 3usize)];
    assert_eq!(plan_listing("out", &files), Err(PathError::Absolute));
    let files2 = vec![("a/../../x".to_string(), 1usize)];
    assert_eq!(plan_listing("out", &files2), Err(PathError::UnsafeComponent));
}

#[test]
fn fix_prompt_text() {
    let p = fix_prompt(101, "cargo test", "error[E0425]", "", "");
    assert_eq!(
        p,
        "A command failed with exit code 101.\n\nCommand: cargo test\n\nstderr (tail):\nerror[E0425]\n\nstdout (tail):\n\n\nFiles referenced in the error:\n(none detected)\n\nPropose a minimal fix. Respond as JSON:\n{\"rationale\": \"one or two sentences\", \"files\": [{\"path\": \"relative/path\", \"contents\": \"FULL new file contents\"}]}\nOnly include files you are actually changing. Paths must be relative to the repo root."
    );
    let q = fix_prompt(-1, "make", "e", "o", "--- a.rs ---\nx\n\n");
    assert!(q.starts_with("A command failed with exit code -1.\n"));
    assert!(q.contains("Files referenced in the error:\n--- a.rs ---\nx\n\n\n\nPropose"));
}

#[test]
fn fix_prompt_keeps_stdout_tail() {
    let out = "o".repeat(1500);
    let p = fix_prompt(1, "c", "", &out, "");
    assert!(p.contains(&format!("stdout (tail):\n... [500 bytes truncated]\n{}\n\n", "o".repeat(1000))));
}

#[test]
fn hint_block_text() {
    assert_eq!(hint_block("src/a.rs", "fn a() {}"), "--- src/a.rs ---\nfn a() {}\n\n");
}

#[test]
fn hint_candidates_from_stderr() {
    let c = hint_candidates("error at src/main.rs:10:5\n  --> lib/util.py:3\n", "/repo");
    assert_eq!(c, vec!["/repo/src/main.rs".to_string(), "/repo/lib/util.py".to_string()]);
    assert!(hint_candidates("nothing to see", "/repo").is_empty());
}

#[test]
fn select_hints_dedups_and_caps() {
    let cands: Vec<String> = vec!["/r/a.rs", "/r/./a.rs", "/r/b.rs", "/r/c.rs", "/r/d.rs", "/r/e.rs", "/r/f.rs", "/r/g.rs"]
        .into_iter()
        .map(String::from)
        .collect();
    let is_file = vec![true, true, false, true, true, true, true, true];
    let kept = select_hints(&cands, &is_file);
    assert_eq!(kept, vec!["/r/a.rs", "/r/c.rs", "/r/d.rs", "/r/e.rs", "/r/f.rs"]);
    assert!(kept.len() <= 5);
}

#[test]
fn call_labels() {
    let l = call_label("read_file", Some("src/a.rs"), None, None, "{}");
    assert_eq!((l.verb, l.rest.as_str()), (Some(("Read", Tint::Green)), "src/a.rs"));
    let l = call_label("list_dir", None, None, None, "{}");
    assert_eq!((l.verb, l.rest.as_str()), (Some(("List", Tint::Green)), "."));
    let l = call_label("grep", None, Some("fn \"main\""), Some("ignored"), "{}");
    assert_eq!((l.verb, l.rest.as_str()), (Some(("Grep", Tint::Green)), "\"fn \\\"main\\\"\" in ."));
    let l = call_label("edit_file", None, None, None, "{}");
    assert_eq!((l.verb, l.rest.as_str()), (Some(("Edit", Tint::Yellow)), "?"));
    let l = call_label("write_file", Some("b"), None, None, "{}");
    assert_eq!((l.verb, l.rest.as_str()), (Some(("Write", Tint::Yellow)), "b"));
    let l = call_label("bash", None, None, Some("ls -la"), "{}");
    assert_eq!((l.verb, l.rest.as_str()), (Some(("Bash", Tint::Magenta)), "ls -la"));
    let l = call_label("find_symbol", Some("x"), None, None, "{\"name\":\"f\"}");
    assert_eq!((l.verb, l.rest.as_str()), (None, "find_symbol({\"name\":\"f\"})"));
}

#[test]
fn debug_loop_decisions() {
    assert_eq!(debug_step(0, 3, DebugEvent::Start), DebugAction::RunCommand);
    assert_eq!(debug_step(0, 0, DebugEvent::Start), DebugAction::FailMaxIters);
    assert_eq!(debug_step(1, 3, DebugEvent::Exited(0)), DebugAction::Succeed);
    assert_eq!(debug_step(1, 3, DebugEvent::Exited(101)), DebugAction::AskForFix);
    assert_eq!(debug_step(1, 3, DebugEvent::Planned(0)), DebugAction::FailNoFiles);
    assert_eq!(debug_step(1, 3, DebugEvent::Planned(2)), DebugAction::ApplyFiles);
    assert_eq!(debug_step(1, 3, DebugEvent::Applied(false)), DebugAction::Stop);
    assert_eq!(debug_step(2, 3, DebugEvent::Applied(true)), DebugAction::RunCommand);
    assert_eq!(debug_step(3, 3, DebugEvent::Applied(true)), DebugAction::FailMaxIters);
}

#[test]
fn extracted_object_is_a_fixed_point() {
    let reply = "Sure! {\"a\": \"}{\", \"b\": {\"c\": 1}} trailing {x}";
    let obj = debug::extract_json(reply).unwrap();
    assert_eq!(obj, "{\"a\": \"}{\", \"b\": {\"c\": 1}}");
    assert_eq!(debug::extract_json(&obj).unwrap(), obj);
}

#[test]
fn per_file_apply_steps() {
    assert_eq!(file_step("same", "same", false), FileStep::Unchanged);
    assert_eq!(file_step("same", "same", true), FileStep::Unchanged);
    assert_eq!(file_step("old", "new", true), FileStep::Write);
    assert_eq!(file_step("old", "new", false), FileStep::Ask);
}
