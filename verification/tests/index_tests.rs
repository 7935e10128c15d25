use opencode::grammar::{lang_spec_for_ext, queries, Capture, Lang};
use opencode::symbols::{
    dedup_symbols, extract, finish_symbols, sort_symbols, symbols_from_captures, ExtractError, Symbol, SymbolIndex,
};

fn sym(name: &str, kind: &str, path: &str, line: usize) -> Symbol {
    Symbol { name: name.into(), kind: kind.into(), path: path.into(), line }
}

fn key(s: &Symbol) -> (String, String, String, usize) {
    (s.name.clone(), s.kind.clone(), s.path.clone(), s.line)
}

fn keys(v: &[&Symbol]) -> Vec<(String, String, String, usize)> {
    v.iter().map(|s| key(s)).collect()
}

#[test]
fn index_lookup_after_adding_files() {
    let mut idx = SymbolIndex::new();
    idx.add_file("src/a.rs".into(), vec![sym("parse_json", "fn", "src/a.rs", 3), sym("Config", "struct", "src/a.rs", 10)]);
    idx.add_file("src/b.rs".into(), vec![sym("parse_json", "fn", "src/b.rs", 1)]);
    let exact = idx.lookup_exact("parse_json");
    assert_eq!(
        keys(&exact),
        vec![
            ("parse_json".into(), "fn".into(), "src/a.rs".into(), 3),
            ("parse_json".into(), "fn".into(), "src/b.rs".into(), 1)
        ]
    );
    assert!(idx.lookup_exact("parse").is_empty());
    assert_eq!(idx.by_name.len(), 2);
    assert_eq!(idx.by_path.len(), 2);
}

#[test]
fn index_partial_lookup_ignores_case() {
    let mut idx = SymbolIndex::new();
    idx.add_file("a.rs".into(), vec![sym("ParseJson", "fn", "a.rs", 1), sym("render", "fn", "a.rs", 9)]);
    let hits = idx.lookup_partial("PARSE");
    assert_eq!(keys(&hits), vec![("ParseJson".into(), "fn".into(), "a.rs".into(), 1)]);
    assert_eq!(idx.lookup_partial("").len(), 2);
    assert!(idx.lookup_partial("zzz").is_empty());
}

#[test]
fn index_exact_hits_are_partial_hits() {
    let mut idx = SymbolIndex::new();
    idx.add_file("a.rs".into(), vec![sym("Foo", "struct", "a.rs", 1), sym("foo_bar", "fn", "a.rs", 4)]);
    let exact = keys(&idx.lookup_exact("Foo"));
    let partial = keys(&idx.lookup_partial("Foo"));
    assert!(!exact.is_empty());
    for e in &exact {
        assert!(partial.contains(e));
    }
    assert_eq!(partial.len(), 2);
}

#[test]
fn index_readding_a_file_replaces_its_path_entry() {
    let mut idx = SymbolIndex::new();
    idx.add_file("a.rs".into(), vec![sym("x", "fn", "a.rs", 1)]);
    idx.add_file("a.rs".into(), vec![sym("y", "fn", "a.rs", 2)]);
    assert_eq!(idx.by_path.len(), 1);
    assert_eq!(idx.by_path[0].1.len(), 1);
    assert_eq!(idx.by_path[0].1[0].name, "y");
}

#[test]
fn sorting_and_dedup_of_symbols() {
    let raw = vec![
        sym("b", "fn", "f", 2),
        sym("a", "fn", "f", 2),
        sym("z", "mod", "f", 1),
        sym("a", "fn", "f", 2),
        sym("a", "method", "f", 2),
    ];
    let sorted = sort_symbols(&raw);
    let names: Vec<(usize, String, String)> = sorted.iter().map(|s| (s.line, s.name.clone(), s.kind.clone())).collect();
    assert_eq!(
        names,
        vec![
            (1, "z".into(), "mod".into()),
            (2, "a".into(), "fn".into()),
            (2, "a".into(), "fn".into()),
            (2, "a".into(), "method".into()),
            (2, "b".into(), "fn".into())
        ]
    );
    let d = dedup_symbols(&sorted);
    assert_eq!(d.len(), 4);
    let f = finish_symbols(&raw);
    let fk: Vec<(usize, String, String)> = f.iter().map(|s| (s.line, s.name.clone(), s.kind.clone())).collect();
    assert_eq!(
        fk,
        vec![(1, "z".into(), "mod".into()), (2, "a".into(), "fn".into()), (2, "a".into(), "method".into()), (2, "b".into(), "fn".into())]
    );
    for w in f.windows(2) {
        assert!(!(w[0].line == w[1].line && w[0].name == w[1].name && w[0].kind == w[1].kind));
    }
}

#[test]
fn captures_become_symbols() {
    let caps = vec![
        Capture { index: 0, row: 4, text: Some("f".into()) },
        Capture { index: 1, row: 4, text: Some("body".into()) },
        Capture { index: 0, row: 1, text: None },
        Capture { index: 0, row: 0, text: Some("g".into()) },
    ];
    let out = symbols_from_captures("fn", 0, &caps, "a.rs");
    let k: Vec<(String, String, String, usize)> = out.iter().map(key).collect();
    assert_eq!(k, vec![("f".into(), "fn".into(), "a.rs".into(), 5), ("g".into(), "fn".into(), "a.rs".into(), 1)]);
}

#[test]
fn languages_by_extension() {
    assert_eq!(lang_spec_for_ext("rs"), Some(Lang::Rust));
    assert_eq!(lang_spec_for_ext("py"), Some(Lang::Python));
    assert_eq!(lang_spec_for_ext("mjs"), Some(Lang::JavaScript));
    assert_eq!(lang_spec_for_ext("tsx"), Some(Lang::TypeScript));
    assert_eq!(lang_spec_for_ext("go"), Some(Lang::Go));
    assert_eq!(lang_spec_for_ext("txt"), None);
    assert_eq!(queries(Lang::Rust).len(), 9);
    assert_eq!(queries(Lang::Python)[1], ("class", "(class_definition name: (identifier) @name)"));
}

#[test]
fn extract_rust_definitions() {
    let src = "fn main() {}\nstruct Foo;\n\nmod inner {\n    pub fn helper() {}\n}\n";
    let out = extract(src, "src/main.rs", Lang::Rust).unwrap();
    let k: Vec<(String, String, String, usize)> = out.iter().map(key).collect();
    assert_eq!(
        k,
        vec![
            ("main".into(), "fn".into(), "src/main.rs".into(), 1),
            ("Foo".into(), "struct".into(), "src/main.rs".into(), 2),
            ("inner".into(), "mod".into(), "src/main.rs".into(), 4),
            ("helper".into(), "fn".into(), "src/main.rs".into(), 5)
        ]
    );
}

#[test]
fn extract_python_definitions() {
    let src = "def f():\n    pass\n\nclass C:\n    def m(self):\n        pass\n";
    let out = extract(src, "a.py", Lang::Python).unwrap();
    let k: Vec<(String, String, usize)> = out.iter().map(|s| (s.name.clone(), s.kind.clone(), s.line)).collect();
    assert_eq!(k, vec![("f".into(), "def".into(), 1), ("C".into(), "class".into(), 4), ("m".into(), "def".into(), 5)]);
}

#[test]
fn extract_go_definitions() {
    let src = "package main\n\ntype T struct{}\n\nfunc (t T) M() {}\n\nfunc main() {}\n";
    let out = extract(src, "m.go", Lang::Go).unwrap();
    let k: Vec<(String, String, usize)> = out.iter().map(|s| (s.name.clone(), s.kind.clone(), s.line)).collect();
    assert_eq!(k, vec![("T".into(), "type".into(), 3), ("M".into(), "method".into(), 5), ("main".into(), "func".into(), 7)]);
}

#[test]
fn extract_errors_are_distinct() {
    assert_ne!(ExtractError::Parse, ExtractError::SetLanguage);
}

#[test]
fn partial_lookup_same_for_any_query_case() {
    let mut idx = SymbolIndex::new();
    idx.add_file("a.rs".into(), vec![sym("HttpClient", "struct", "a.rs", 1), sym("http_get", "fn", "a.rs", 5)]);
    assert_eq!(keys(&idx.lookup_partial("HTTP")), keys(&idx.lookup_partial("http")));
    assert_eq!(idx.lookup_partial("hTtP").len(), 2);
}
