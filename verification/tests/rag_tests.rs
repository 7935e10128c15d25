use opencode::exec::tail;
use opencode::rag::bm25::{add_document, term_counts, term_statistics, tokenize};
use opencode::rag::hybrid::chunk_index_of;
use opencode::rag::scan::{chunk_file, is_code_ext, wants_file};
use opencode::rag::Chunk;

fn chunk(path: &str, start: usize, end: usize, text: &str) -> Chunk {
    Chunk { path: path.to_string(), start_line: start, end_line: end, text: text.to_string() }
}

#[test]
fn tokenize_splits_camel_case() {
    assert_eq!(tokenize("parseJsonResponse"), vec!["parse", "json", "response"]);
}

#[test]
fn tokenize_splits_snake_case_and_punctuation() {
    assert_eq!(tokenize("snake_case_name(x, y)"), vec!["snake", "case", "name"]);
}

#[test]
fn tokenize_drops_one_byte_tokens() {
    assert_eq!(tokenize("a b c"), Vec::<String>::new());
    assert_eq!(tokenize(""), Vec::<String>::new());
}

#[test]
fn tokenize_keeps_acronym_runs_together() {
    assert_eq!(tokenize("HTTPServer"), vec!["httpserver"]);
}

#[test]
fn tokenize_splits_after_digit() {
    assert_eq!(tokenize("x1Y"), vec!["x1"]);
}

#[test]
fn tokenize_keeps_two_byte_letter() {
    assert_eq!(tokenize("é"), vec!["é"]);
}

#[test]
fn tokenize_tokens_have_no_capitals() {
    for t in tokenize("FooBar BAZ quxQuux Über") {
        assert!(!t.chars().any(|c| c.is_ascii_uppercase()));
        assert!(t.len() > 1);
    }
}

#[test]
fn tail_keeps_short_text() {
    assert_eq!(tail("hello", 10), "hello");
    assert_eq!(tail("hello", 5), "hello");
}

#[test]
fn tail_cuts_long_text() {
    assert_eq!(tail("abcdef", 3), "... [3 bytes truncated]\ndef");
}

#[test]
fn tail_moves_to_char_boundary() {
    // "aéb" is 4 bytes; the last 2 start inside 'é'.
    assert_eq!(tail("aéb", 2), "... [3 bytes truncated]\nb");
}

#[test]
fn chunk_file_windows_overlap() {
    let text: String = (1..=130).map(|i| format!("l{i}\n")).collect();
    let mut out = Vec::new();
    chunk_file("f.rs".to_string(), &text, &mut out);
    assert_eq!(out.len(), 3);
    assert_eq!((out[0].start_line, out[0].end_line), (1, 60));
    assert_eq!((out[1].start_line, out[1].end_line), (51, 110));
    assert_eq!((out[2].start_line, out[2].end_line), (101, 130));
    let expect0: Vec<String> = (1..=60).map(|i| format!("l{i}")).collect();
    assert_eq!(out[0].text, expect0.join("\n"));
    assert_eq!(out[2].path, "f.rs");
}

#[test]
fn chunk_file_short_and_empty() {
    let mut out = Vec::new();
    chunk_file("a.py".to_string(), "", &mut out);
    assert!(out.is_empty());
    chunk_file("a.py".to_string(), "one\r\ntwo", &mut out);
    assert_eq!(out.len(), 1);
    assert_eq!(out[0].text, "one\ntwo");
    assert_eq!((out[0].start_line, out[0].end_line), (1, 2));
}

#[test]
fn chunk_file_appends_after_existing() {
    let mut out = vec![chunk("x", 1, 1, "x")];
    chunk_file("y".to_string(), "a\nb\n", &mut out);
    assert_eq!(out.len(), 2);
    assert_eq!(out[0].path, "x");
    assert_eq!(out[1].text, "a\nb");
}

#[test]
fn code_extensions() {
    let rs: Vec<char> = "rs".chars().collect();
    let exe: Vec<char> = "exe".chars().collect();
    assert!(is_code_ext(&rs));
    assert!(!is_code_ext(&exe));
    assert!(wants_file("src/main.rs", 100));
    assert!(!wants_file("src/main.rs", 600 * 1024));
    assert!(!wants_file("Makefile", 10));
    assert!(wants_file("notes.md", 524288));
}

#[test]
fn chunk_index_found_and_missing() {
    let all = vec![chunk("a", 1, 60, ""), chunk("b", 51, 110, ""), chunk("b", 1, 60, "")];
    assert_eq!(chunk_index_of(&all, &chunk("b", 1, 9, "other")), 2);
    assert_eq!(chunk_index_of(&all, &chunk("c", 1, 60, "")), 0);
}

fn strings(v: &[&str]) -> Vec<String> {
    v.iter().map(|s| s.to_string()).collect()
}

fn table(v: &[(&str, u32)]) -> Vec<(String, u32)> {
    v.iter().map(|(s, n)| (s.to_string(), *n)).collect()
}

#[test]
fn term_counts_in_first_occurrence_order() {
    let toks = strings(&["parse", "json", "parse", "value", "json", "parse"]);
    assert_eq!(term_counts(&toks), table(&[("parse", 3), ("json", 2), ("value", 1)]));
    assert!(term_counts(&Vec::new()).is_empty());
}

#[test]
fn document_frequencies_count_documents() {
    let mut df = table(&[("parse", 1)]);
    add_document(&mut df, &table(&[("json", 4), ("parse", 2)]));
    assert_eq!(df, table(&[("parse", 2), ("json", 1)]));
}

#[test]
fn term_statistics_over_chunks() {
    let texts = strings(&["parseJson parse", "json value", "x"]);
    let (tfs, df, lengths) = term_statistics(&texts);
    assert_eq!(tfs[0], table(&[("parse", 2), ("json", 1)]));
    assert_eq!(tfs[1], table(&[("json", 1), ("value", 1)]));
    assert!(tfs[2].is_empty());
    assert_eq!(df, table(&[("parse", 1), ("json", 2), ("value", 1)]));
    assert_eq!(lengths, vec![3, 2, 0]);
}

#[test]
fn tokens_of_joined_texts() {
    for (a, b) in [("parseJson", "HTTPServer"), ("foo_bar", "x"), ("ab", "cdEf9")] {
        let joined = format!("{a} {b}");
        let mut expect = tokenize(a);
        expect.extend(tokenize(b));
        assert_eq!(tokenize(&joined), expect);
    }
}
