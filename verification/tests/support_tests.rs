use opencode::diff::{diff_display, DiffTint};
use opencode::cache::{content_hash, hex_lower};
use opencode::cli::{chat_model, join_words_arg};
use opencode::config::{default_backend, default_model, normalize_base_url, DEFAULT_CONTEXT_WINDOW};
use opencode::diff::is_affirmative;
use opencode::llm::{fill_missing, order_by_index, ChatMessage, EmbeddingsClient, OpenAiBackend};
use opencode::manifest::{clean, manifest_wants, extract_summary, looks_like_attribute, render_tree, sort_entries, strip_comment_lead};
use opencode::walk::{is_excluded_dir, keep_entry};

fn chars(s: &str) -> Vec<char> {
    s.chars().collect()
}

#[test]
fn content_hash_is_sha256_hex() {
    assert_eq!(content_hash(""), "e3b0c44298fc1c149afbf4c8996fb92427ae41e4649b934ca495991b7852b855");
    assert_eq!(content_hash("abc"), "ba7816bf8f01cfea414140de5dae2223b00361a396177a9cb410ff61f20015ad");
    assert_eq!(content_hash("é").len(), 64);
}

#[test]
fn hex_encoding() {
    assert_eq!(hex_lower(&[0x0f, 0xa0, 0xff, 0x00]), "0fa0ff00");
    assert_eq!(hex_lower(&[]), "");
}

#[test]
fn config_defaults() {
    let b = default_backend();
    assert_eq!(b.base_url, "http://localhost:11434/v1");
    assert!(b.api_key.is_none());
    assert_eq!(default_model(), "llama3:8b");
    assert_eq!(DEFAULT_CONTEXT_WINDOW, 8192);
}

#[test]
fn base_url_normalization() {
    assert_eq!(normalize_base_url("http://x/v1//"), "http://x/v1");
    assert_eq!(normalize_base_url("http://x/v1"), "http://x/v1");
    let once = normalize_base_url("https://api.together.xyz/v1/");
    assert_eq!(normalize_base_url(&once), once);
    assert!(!once.ends_with('/'));
}

#[test]
fn cli_words_and_chat_model() {
    assert_eq!(join_words_arg(&vec!["how".to_string(), "does".to_string(), "it".to_string()]), "how does it");
    assert_eq!(join_words_arg(&Vec::new()), "");
    assert_eq!(chat_model("llama3:8b", false), ("llama3.1:8b".to_string(), true));
    assert_eq!(chat_model("llama3:8b", true), ("llama3:8b".to_string(), false));
    assert_eq!(chat_model("qwen2.5-coder:14b", false), ("qwen2.5-coder:14b".to_string(), false));
}

#[test]
fn chat_messages_and_endpoints() {
    let s = ChatMessage::system("be brief".to_string());
    assert_eq!((s.role.as_str(), s.content.as_str()), ("system", "be brief"));
    let u = ChatMessage::user("hi".to_string());
    assert_eq!((u.role.as_str(), u.content.as_str()), ("user", "hi"));
    let b = OpenAiBackend::new("http://h:8080/v1/", None, "m".to_string());
    assert_eq!(b.chat_url(), "http://h:8080/v1/chat/completions");
    let e = EmbeddingsClient::new("http://h/v1", Some("k".to_string()), "nomic".to_string());
    assert_eq!(e.embeddings_url(), "http://h/v1/embeddings");
    assert_eq!(e.model(), "nomic");
}

#[test]
fn excluded_directories() {
    assert!(is_excluded_dir("node_modules"));
    assert!(is_excluded_dir(".venv"));
    assert!(is_excluded_dir("DerivedData"));
    assert!(!is_excluded_dir("src"));
    assert!(!is_excluded_dir("Target"));
    assert!(keep_entry(false, Some("target")));
    assert!(!keep_entry(true, Some("target")));
    assert!(keep_entry(true, Some("src")));
    assert!(keep_entry(true, None));
}

#[test]
fn affirmative_answers() {
    assert!(is_affirmative(" Yes\n"));
    assert!(is_affirmative("y"));
    assert!(is_affirmative("Y"));
    assert!(!is_affirmative("no"));
    assert!(!is_affirmative("yess"));
    assert!(!is_affirmative(""));
}

#[test]
fn summary_from_rust_doc_comment() {
    assert_eq!(extract_summary("//! Crate docs here\nfn main() {}\n", "src/lib.rs"), "Crate docs here");
}

#[test]
fn summary_skips_attributes() {
    assert_eq!(extract_summary("#![allow(dead_code)]\n//! Real summary\n", "src/lib.rs"), "Real summary");
}

#[test]
fn summary_from_python_docstring() {
    assert_eq!(extract_summary("\"\"\"Module doc.\nMore.\n\"\"\"\nimport os\n", "pkg/a.py"), "Module doc.");
    assert_eq!(extract_summary("'''Single quotes.'''\n", "b.py"), "Single quotes.");
}

#[test]
fn summary_from_markdown_heading() {
    assert_eq!(extract_summary("\n# Title  here\n\ntext", "README.md"), "Title here");
    assert_eq!(extract_summary("", "empty.md"), "");
}

#[test]
fn summary_from_declarative_line() {
    assert_eq!(extract_summary("pub struct Foo {}\n", "a.rs"), "pub struct Foo {}");
    assert_eq!(extract_summary("use x;\npub fn a() {}\n", "a.rs"), "");
    assert_eq!(extract_summary("//    many    spaces   \n", "a.rs"), "many spaces");
}

#[test]
fn summary_helpers() {
    assert_eq!(clean(&chars("  a   b  ")), "a b");
    assert_eq!(clean(&chars(&"x".repeat(150))), "x".repeat(100));
    assert!(looks_like_attribute(&chars("[derive(Debug)]")));
    assert!(looks_like_attribute(&chars("!![cfg(test)]")));
    assert!(!looks_like_attribute(&chars("hello")));
    assert_eq!(strip_comment_lead(&chars("/// doc")), Some(chars("doc")));
    assert_eq!(strip_comment_lead(&chars("<!-- html -->")), Some(chars("html -->")));
    assert_eq!(strip_comment_lead(&chars("code")), None);
}

#[test]
fn tree_groups_by_directory() {
    let entries = vec![
        ("Cargo.toml".to_string(), String::new()),
        ("src/main.rs".to_string(), "entry point".to_string()),
    ];
    assert_eq!(
        render_tree(&entries),
        format!("./\n  Cargo.toml\nsrc/\n  main.rs{} entry point\n", " ".repeat(17))
    );
}

#[test]
fn tree_caps_listed_files() {
    let entries: Vec<(String, String)> = (0..85).map(|i| (format!("f{i:02}.rs"), String::new())).collect();
    let out = render_tree(&entries);
    assert!(out.ends_with("  f79.rs\n  ... (5 more files)\n"));
    assert_eq!(out.lines().filter(|l| l.starts_with("  f")).count(), 80);
}

#[test]
fn entries_sort_by_path() {
    let mut e = vec![
        ("src/b.rs".to_string(), "b".to_string()),
        ("a.rs".to_string(), "a".to_string()),
        ("src/a.rs".to_string(), "c".to_string()),
    ];
    sort_entries(&mut e);
    let names: Vec<&str> = e.iter().map(|x| x.0.as_str()).collect();
    assert_eq!(names, vec!["a.rs", "src/a.rs", "src/b.rs"]);
}

#[test]
fn manifest_lists_code_files() {
    assert!(manifest_wants("src/main.rs", 10));
    assert!(manifest_wants("README.md", 262144));
    assert!(!manifest_wants("README.md", 262145));
    assert!(!manifest_wants("run.zsh", 10));
    assert!(!manifest_wants("Makefile", 10));
}

#[test]
fn embedding_batch_reordered_by_index() {
    let items = vec![(2usize, "c"), (0usize, "a"), (1usize, "b"), (0usize, "a2")];
    assert_eq!(order_by_index(items), vec!["a", "a2", "b", "c"]);
    assert_eq!(order_by_index(Vec::<(usize, u8)>::new()), Vec::<u8>::new());
}

#[test]
fn cached_and_fetched_embeddings_merge_in_order() {
    let slots = vec![Some("a"), None, Some("c"), None];
    assert_eq!(fill_missing(slots, vec!["b", "d", "extra"]), vec!["a", "b", "c", "d"]);
    assert_eq!(fill_missing(vec![Some(1), Some(2)], Vec::new()), vec![1, 2]);
}

#[test]
fn whitespace_class_matches_std() {
    for u in 0u32..=0x10FFFF {
        if let Some(c) = char::from_u32(u) {
            assert_eq!(opencode::text::is_whitespace(c), c.is_whitespace(), "U+{u:04X}");
        }
    }
}

#[test]
fn ascii_lowercase_matches_std() {
    for u in 0u32..=0x2FF {
        if let Some(c) = char::from_u32(u) {
            assert_eq!(opencode::text::ascii_lower(c), c.to_ascii_lowercase());
        }
    }
}

#[test]
fn diff_display_pieces() {
    let pieces = diff_display("a.rs", "one\ntwo\n", "one\nthree\n");
    assert_eq!(pieces[0], (DiffTint::OldHeader, "--- a.rs (old)\n".to_string()));
    assert_eq!(pieces[1], (DiffTint::NewHeader, "+++ a.rs (new)\n".to_string()));
    assert_eq!(
        pieces[2..].to_vec(),
        vec![
            (DiffTint::Context, " one\n".to_string()),
            (DiffTint::Removed, "-two\n".to_string()),
            (DiffTint::Added, "+three\n".to_string()),
        ]
    );
    let tail = diff_display("b", "x", "y");
    assert_eq!(
        tail[2..].to_vec(),
        vec![
            (DiffTint::Removed, "-x".to_string()),
            (DiffTint::Plain, "\n".to_string()),
            (DiffTint::Added, "+y".to_string()),
            (DiffTint::Plain, "\n".to_string()),
        ]
    );
}

#[test]
fn clean_twice_is_clean_once() {
    let s: Vec<char> = "  a \t b\n c  ".chars().collect();
    let once = clean(&s);
    assert_eq!(once, "a b c");
    let again: Vec<char> = once.chars().collect();
    assert_eq!(clean(&again), once);
}

#[test]
fn summaries_are_short_and_collapsed() {
    let long = format!("//! {}\n", "word  ".repeat(40));
    let r = extract_summary(&long, "src/lib.rs");
    assert!(r.chars().count() <= 100);
    assert_eq!(r, r.split_whitespace().collect::<Vec<_>>().join(" "));
    let mut text = String::new();
    for _ in 0..50 {
        text.push_str("\n");
    }
    text.push_str("//! too late\n");
    assert_eq!(extract_summary(&text, "src/lib.rs"), "");
}

#[test]
fn summary_reads_only_first_fifty_lines() {
    let mut text = String::from("\r\n\n");
    for _ in 0..10 {
        text.push_str("  \r\n");
    }
    text.push_str("pub fn entry() {}\r\n\n");
    for i in 0..60 {
        text.push_str(&format!("// later {i}\n"));
    }
    let head = text.lines().take(50).collect::<Vec<_>>().join("\n");
    assert_eq!(extract_summary(&text, "src/a.rs"), extract_summary(&head, "src/a.rs"));
    assert_eq!(extract_summary(&text, "src/a.rs"), "pub fn entry() {}");
}
