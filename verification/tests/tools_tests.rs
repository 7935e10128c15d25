use opencode::tools::call::{decode_call, CallError, ToolArgs};
use opencode::symbols::Symbol;
use opencode::tools::bash::{report, timed_out_message, timeout_secs};
use opencode::tools::edit_file::{
    ambiguous_message, confirm_prompt, count_matches, edited_message, no_change_message, not_found_message, plan_edit,
    rejected_message, EditPlan,
};
use opencode::tools::find_symbol::render_symbol_hits;
use opencode::tools::grep::{compile_grep_pattern, ext_selected, glob_ext, grep_text, render_grep, small_enough};
use opencode::tools::list_dir::render_listing;
use opencode::tools::read_file::{read_window, render_read};
use opencode::tools::write_file::{new_file_preview, written_message, write_kind, WriteKind};
use opencode::tools::{resolve, tool_of, Tool, ToolCtx};
use opencode::tools::{bash, write_file};

fn chars(s: &str) -> Vec<char> {
    s.chars().collect()
}

fn sym(name: &str, kind: &str, path: &str, line: usize) -> Symbol {
    Symbol { name: name.into(), kind: kind.into(), path: path.into(), line }
}

#[test]
fn resolve_relative_and_absolute() {
    let ctx = ToolCtx { repo: "/repo".into(), auto_yes: false };
    assert_eq!(resolve(&ctx, "src/a.rs"), "/repo/src/a.rs");
    assert_eq!(resolve(&ctx, "/etc/hosts"), "/etc/hosts");
    let ctx2 = ToolCtx { repo: "/repo/".into(), auto_yes: true };
    assert_eq!(resolve(&ctx2, "x"), "/repo/x");
}

#[test]
fn tool_names() {
    assert_eq!(tool_of("read_file"), Some(Tool::ReadFile));
    assert_eq!(tool_of("list_dir"), Some(Tool::ListDir));
    assert_eq!(tool_of("grep"), Some(Tool::Grep));
    assert_eq!(tool_of("edit_file"), Some(Tool::EditFile));
    assert_eq!(tool_of("write_file"), Some(Tool::WriteFile));
    assert_eq!(tool_of("bash"), Some(Tool::Bash));
    assert_eq!(tool_of("find_symbol"), None);
}

#[test]
fn read_window_defaults_and_bounds() {
    assert_eq!(read_window(None, None), (1, 500));
    assert_eq!(read_window(Some(0), Some(5000)), (1, 2000));
    assert_eq!(read_window(Some(7), Some(3)), (7, 3));
}

#[test]
fn render_read_window_with_note() {
    assert_eq!(
        render_read("a\nb\nc\n", 1, 2),
        "    1  a\n    2  b\n\n[showed lines 1-2 of 3; pass offset/limit to see more]\n"
    );
}

#[test]
fn render_read_whole_file() {
    assert_eq!(render_read("a\nb", 1, 500), "    1  a\n    2  b\n");
    assert_eq!(render_read("x\ny\nz", 3, 10), "    3  z\n");
}

#[test]
fn render_read_past_end() {
    assert_eq!(render_read("a\nb\nc\n", 5, 10), "(file has 3 lines; offset 5 is past the end)");
    assert_eq!(render_read("", 1, 10), "(file has 0 lines; offset 1 is past the end)");
}

#[test]
fn render_read_wide_numbers() {
    let text: String = (1..=100000).map(|i| format!("{i}\n")).collect();
    let out = render_read(&text, 99999, 2);
    assert_eq!(out, "99999  99999\n100000  100000\n");
}

#[test]
fn listing_sorts_dirs_first() {
    let rows = vec![
        (false, "b.txt".to_string()),
        (true, "src".to_string()),
        (false, "a.txt".to_string()),
        (true, ".git".to_string()),
    ];
    assert_eq!(render_listing(&rows), "d .git\nd src\nf a.txt\nf b.txt\n");
}

#[test]
fn listing_empty_and_capped() {
    assert_eq!(render_listing(&Vec::new()), "(empty directory)\n");
    let rows: Vec<(bool, String)> = (0..201).map(|i| (false, format!("f{i:03}"))).collect();
    let out = render_listing(&rows);
    assert!(out.starts_with("f f000\nf f001\n"));
    assert!(out.ends_with("f f199\n\n[201 entries; showing first 200]\n"));
    assert!(!out.contains("f f200"));
}

#[test]
fn count_matches_like_str_matches() {
    assert_eq!(count_matches(&chars("aaaa"), &chars("aa")), 2);
    assert_eq!(count_matches(&chars("abcabc"), &chars("bc")), 2);
    assert_eq!(count_matches(&chars("abc"), &chars("")), 4);
    assert_eq!(count_matches(&chars("abc"), &chars("x")), 0);
}

#[test]
fn plan_edit_outcomes() {
    match plan_edit("hello world", "world", "there") {
        EditPlan::Apply(u) => assert_eq!(u, "hello there"),
        other => panic!("unexpected {:?}", other),
    }
    assert!(matches!(plan_edit("aaa", "a", "b"), EditPlan::Ambiguous(3)));
    assert!(matches!(plan_edit("abc", "x", "y"), EditPlan::NotFound));
    assert!(matches!(plan_edit("abc", "b", "b"), EditPlan::NoChange));
    assert!(matches!(plan_edit("ab", "", "x"), EditPlan::Ambiguous(3)));
    match plan_edit("", "", "x") {
        EditPlan::Apply(u) => assert_eq!(u, "x"),
        other => panic!("unexpected {:?}", other),
    }
}

#[test]
fn plan_edit_result_holds_new_text() {
    match plan_edit("fn a() { old(); }", "old()", "new_call()") {
        EditPlan::Apply(u) => {
            assert_eq!(u, "fn a() { new_call(); }");
            assert!(u.contains("new_call()"));
        }
        other => panic!("unexpected {:?}", other),
    }
}

#[test]
fn edit_messages() {
    assert_eq!(not_found_message("a.rs"), "ERROR: old_string not found in a.rs. Re-read the file to see exact contents.");
    assert_eq!(ambiguous_message(3, "a.rs"), "ERROR: old_string matches 3 times in a.rs. Make old_string longer/more unique.");
    assert_eq!(no_change_message("a.rs"), "(no change — old_string == new_string in a.rs)");
    assert_eq!(confirm_prompt("a.rs"), "Apply edit to a.rs?");
    assert_eq!(rejected_message("a.rs"), "user rejected edit to a.rs");
    assert_eq!(edited_message("a.rs", 10, 12), "edited a.rs (10 bytes -> 12 bytes)");
}

#[test]
fn write_kinds_and_messages() {
    assert_eq!(write_kind(true, "", "x"), WriteKind::Create);
    assert_eq!(write_kind(false, "x", "x"), WriteKind::NoChange);
    assert_eq!(write_kind(false, "x", "y"), WriteKind::Overwrite);
    assert_eq!(write_file::no_change_message("a"), "(no change — contents identical for a)");
    assert_eq!(write_file::confirm_prompt(true, "a"), "Create a?");
    assert_eq!(write_file::confirm_prompt(false, "a"), "Overwrite a?");
    assert_eq!(write_file::rejected_message("a"), "user rejected write to a");
    assert_eq!(written_message(true, "a", 5), "created a (5 bytes)");
    assert_eq!(written_message(false, "a", 5), "overwrote a (5 bytes)");
}

#[test]
fn new_file_preview_short_and_long() {
    assert_eq!(new_file_preview("a.txt", 3, "x\ny"), "--- new file: a.txt (3 bytes) ---\nx\ny\n");
    let long: String = (1..=32).map(|i| format!("{i}\n")).collect();
    let expect_body: Vec<String> = (1..=30).map(|i| i.to_string()).collect();
    assert_eq!(
        new_file_preview("b", long.len(), &long),
        format!("--- new file: b ({} bytes) ---\n{}\n... [2 more lines]\n", long.len(), expect_body.join("\n"))
    );
    assert_eq!(new_file_preview("e", 0, ""), "--- new file: e (0 bytes) ---\n\n");
}

#[test]
fn bash_timeouts_and_report() {
    assert_eq!(timeout_secs(None), 60);
    assert_eq!(timeout_secs(Some(1000)), 600);
    assert_eq!(timeout_secs(Some(5)), 5);
    assert_eq!(report(0, "out", "err"), "exit: 0\n--- stdout ---\nout\n--- stderr ---\nerr");
    assert_eq!(report(-1, "", ""), "exit: -1\n--- stdout ---\n\n--- stderr ---\n");
    assert_eq!(report(i32::MIN, "", "").lines().next(), Some("exit: -2147483648"));
    assert_eq!(bash::rejected_message("rm -rf x"), "user rejected command: rm -rf x");
    assert_eq!(timed_out_message(60), "ERROR: command timed out after 60s");
}

#[test]
fn bash_report_keeps_stream_tails() {
    let big = "e".repeat(4100);
    let r = report(2, "", &big);
    assert!(r.ends_with(&format!("--- stderr ---\n... [100 bytes truncated]\n{}", "e".repeat(4000))));
}

#[test]
fn grep_filters() {
    assert_eq!(glob_ext(Some("..rs")), Some("rs".to_string()));
    assert_eq!(glob_ext(Some("py")), Some("py".to_string()));
    assert_eq!(glob_ext(None), None);
    assert!(ext_selected(Some("rs"), &Some("rs".to_string())));
    assert!(!ext_selected(Some("py"), &Some("rs".to_string())));
    assert!(!ext_selected(None, &Some("rs".to_string())));
    assert!(ext_selected(None, &None));
    assert!(small_enough(1024 * 1024));
    assert!(!small_enough(1024 * 1024 + 1));
}

#[test]
fn grep_text_reports_matching_lines() {
    let re = compile_grep_pattern("fo+").unwrap();
    let mut found = Vec::new();
    grep_text(&re, "x.rs", "foo\nbar\n  fooo  \n", &mut found);
    assert_eq!(found, vec!["x.rs:1: foo".to_string(), "x.rs:3:   fooo".to_string()]);
}

#[test]
fn grep_text_stops_at_cap() {
    let re = compile_grep_pattern("hit").unwrap();
    let text: String = (0..150).map(|_| "hit\n").collect();
    let mut found = vec!["earlier".to_string(); 90];
    grep_text(&re, "f", &text, &mut found);
    assert_eq!(found.len(), 100);
    assert_eq!(found[90], "f:1: hit");
    assert_eq!(found[99], "f:10: hit");
}

#[test]
fn grep_pattern_compilation() {
    assert!(compile_grep_pattern("a(b").is_err());
    assert!(compile_grep_pattern("^fn [a-z]+").is_ok());
    let re = compile_grep_pattern("^fn [a-z]+").unwrap();
    let mut found = Vec::new();
    grep_text(&re, "m.rs", "fn main() {}
  fn inner
fnx
", &mut found);
    assert_eq!(found, vec!["m.rs:1: fn main() {}".to_string()]);
}

#[test]
fn grep_rendering() {
    assert_eq!(render_grep(&Vec::new(), 3), "(no matches in 3 files)");
    assert_eq!(render_grep(&vec!["a".to_string(), "b".to_string()], 2), "a\nb\n");
    let full: Vec<String> = (0..100).map(|i| format!("m{i}")).collect();
    let out = render_grep(&full, 7);
    assert!(out.ends_with("m99\n\n[hit 100 match cap; narrow the pattern or path]\n"));
}

#[test]
fn find_symbol_no_hits_quotes_name() {
    assert_eq!(
        render_symbol_hits("foo", None, &Vec::new()),
        "(no symbol named \"foo\". Try partial=true, or use grep for free-form search.)"
    );
    assert_eq!(
        render_symbol_hits("a\"b", Some("fn"), &Vec::new()),
        "(no symbol named \"a\\\"b\" of kind \"fn\". Try partial=true, or use grep for free-form search.)"
    );
}

#[test]
fn find_symbol_renders_hits_with_filter() {
    let a = sym("foo", "fn", "src/a.rs", 3);
    let b = sym("foo", "struct", "src/b.rs", 7);
    let hits = vec![&a, &b];
    assert_eq!(
        render_symbol_hits("foo", None, &hits),
        "fn: foo (fn) at src/a.rs:3\nstruct: foo (struct) at src/b.rs:7\n"
    );
    assert_eq!(render_symbol_hits("foo", Some("struct"), &hits), "struct: foo (struct) at src/b.rs:7\n");
    assert_eq!(render_symbol_hits("foo", Some(""), &hits), render_symbol_hits("foo", None, &hits));
    assert_eq!(
        render_symbol_hits("foo", Some("enum"), &hits),
        "(no symbol named \"foo\" of kind \"enum\". Try partial=true, or use grep for free-form search.)"
    );
}

#[test]
fn find_symbol_caps_results() {
    let many: Vec<Symbol> = (0..60).map(|i| sym("s", "fn", "a.rs", i + 1)).collect();
    let refs: Vec<&Symbol> = many.iter().collect();
    let out = render_symbol_hits("s", None, &refs);
    assert_eq!(out.lines().count(), 50);
    assert!(out.ends_with("fn: s (fn) at a.rs:50\n"));
}

#[test]
fn tool_table_in_order() {
    let defs = opencode::tools::definitions();
    let names: Vec<&str> = defs.iter().map(|t| t.name).collect();
    assert_eq!(names, vec!["read_file", "list_dir", "grep", "edit_file", "write_file", "bash"]);
    assert_eq!(defs[3].required, vec!["path", "old_string", "new_string"]);
    assert!(defs[1].required.is_empty());
    assert_eq!(defs[5].params[1].name, "timeout_secs");
    assert_eq!(defs[5].params[1].kind, "integer");
    for t in &defs {
        assert!(tool_of(t.name).is_some());
    }
}

#[test]
fn decode_tool_calls() {
    assert!(matches!(decode_call("read_file", "{not json"), Err(CallError::InvalidJson(_))));
    assert!(matches!(decode_call("nope", "{}"), Err(CallError::UnknownTool)));
    assert!(matches!(decode_call("nope", "{oops"), Err(CallError::InvalidJson(_))));
    assert!(matches!(decode_call("read_file", "{}"), Err(CallError::MissingArg("path"))));
    assert!(matches!(decode_call("read_file", "{\"path\": 3}"), Err(CallError::MissingArg("path"))));
    assert!(matches!(decode_call("read_file", "[1, 2]"), Err(CallError::MissingArg("path"))));
    assert!(matches!(
        decode_call("edit_file", "{\"path\": \"a\", \"new_string\": \"b\"}"),
        Err(CallError::MissingArg("old_string"))
    ));
    match decode_call("read_file", "{\"path\": \"src/x.rs\", \"offset\": 5, \"limit\": -1}") {
        Ok((Tool::ReadFile, ToolArgs::ReadFile { path, offset, limit })) => {
            assert_eq!(path, "src/x.rs");
            assert_eq!(offset, Some(5));
            assert_eq!(limit, None);
        }
        other => panic!("unexpected {:?}", other.map(|(_, a)| a)),
    }
    match decode_call("list_dir", "{}") {
        Ok((Tool::ListDir, ToolArgs::ListDir { path })) => assert_eq!(path, None),
        _ => panic!("list_dir"),
    }
    match decode_call("bash", "{\"cmd\": \"ls\", \"timeout_secs\": 9}") {
        Ok((Tool::Bash, ToolArgs::Bash { cmd, timeout_secs })) => {
            assert_eq!(cmd, "ls");
            assert_eq!(timeout_secs, Some(9));
        }
        _ => panic!("bash"),
    }
}
