//! The languages whose definitions the symbol index knows, the tree-sitter
//! queries that find those definitions, and the calls into tree-sitter that
//! parse a file and run a query over it.
use vstd::prelude::*;

use crate::text::{owned, str_eq};

verus! {

/// A language with a grammar and definition queries.
#[derive(Clone, Copy, Debug, PartialEq, Eq, Structural)]
pub enum Lang {
    Rust,
    Python,
    JavaScript,
    TypeScript,
    Go,
}

/// The language of files with extension `ext`.
pub open spec fn lang_of_ext(ext: Seq<char>) -> Option<Lang> {
    if ext == "rs"@ {
        Some(Lang::Rust)
    } else if ext == "py"@ {
        Some(Lang::Python)
    } else if ext == "js"@ || ext == "jsx"@ || ext == "mjs"@ || ext == "cjs"@ {
        Some(Lang::JavaScript)
    } else if ext == "ts"@ || ext == "tsx"@ {
        Some(Lang::TypeScript)
    } else if ext == "go"@ {
        Some(Lang::Go)
    } else {
        None
    }
}

/// The language of every extension the index knows, and of no other: `js`,
/// `jsx`, `mjs` and `cjs` are JavaScript; `ts` and `tsx` TypeScript; `rs`
/// Rust; `py` Python; `go` Go.
pub proof fn lemma_lang_table(e: Seq<char>)
    ensures
        lang_of_ext(e) == Some(Lang::JavaScript) <==> (e == "js"@ || e == "jsx"@ || e == "mjs"@ || e == "cjs"@),
        lang_of_ext(e) == Some(Lang::TypeScript) <==> (e == "ts"@ || e == "tsx"@),
        lang_of_ext(e) == Some(Lang::Rust) <==> e == "rs"@,
        lang_of_ext(e) == Some(Lang::Python) <==> e == "py"@,
        lang_of_ext(e) == Some(Lang::Go) <==> e == "go"@,
{
    reveal_strlit("rs");
    reveal_strlit("py");
    reveal_strlit("js");
    reveal_strlit("jsx");
    reveal_strlit("mjs");
    reveal_strlit("cjs");
    reveal_strlit("ts");
    reveal_strlit("tsx");
    reveal_strlit("go");
    assert("rs"@[0] != "py"@[0]);
    assert("rs"@[0] != "js"@[0]);
    assert("rs"@[0] != "ts"@[0]);
    assert("rs"@[0] != "go"@[0]);
    assert("py"@[0] != "js"@[0]);
    assert("py"@[0] != "ts"@[0]);
    assert("py"@[0] != "go"@[0]);
    assert("js"@[0] != "ts"@[0]);
    assert("js"@[0] != "go"@[0]);
    assert("jsx"@[0] != "mjs"@[0]);
    assert("jsx"@[0] != "cjs"@[0]);
    assert("jsx"@[0] != "tsx"@[0]);
    assert("mjs"@[0] != "cjs"@[0]);
    assert("mjs"@[0] != "tsx"@[0]);
    assert("cjs"@[0] != "tsx"@[0]);
    assert("ts"@[0] != "go"@[0]);
}

/// The language of files with extension `ext`, if the index knows it.
pub fn lang_spec_for_ext(ext: &str) -> (r: Option<Lang>)
    ensures
        r == lang_of_ext(ext@),
{
    if str_eq(ext, "rs") {
        Some(Lang::Rust)
    } else if str_eq(ext, "py") {
        Some(Lang::Python)
    } else if str_eq(ext, "js") || str_eq(ext, "jsx") || str_eq(ext, "mjs") || str_eq(ext, "cjs") {
        Some(Lang::JavaScript)
    } else if str_eq(ext, "ts") || str_eq(ext, "tsx") {
        Some(Lang::TypeScript)
    } else if str_eq(ext, "go") {
        Some(Lang::Go)
    } else {
        None
    }
}

/// The definition queries of a language: the kind of definition each finds,
/// and the query, whose `@name` capture is the defined name.
pub open spec fn lang_queries(lang: Lang) -> Seq<(Seq<char>, Seq<char>)> {
    match lang {
        Lang::Rust => seq![
            ("fn"@, "(function_item name: (identifier) @name)"@),
            ("struct"@, "(struct_item name: (type_identifier) @name)"@),
            ("enum"@, "(enum_item name: (type_identifier) @name)"@),
            ("trait"@, "(trait_item name: (type_identifier) @name)"@),
            ("type"@, "(type_item name: (type_identifier) @name)"@),
            ("const"@, "(const_item name: (identifier) @name)"@),
            ("static"@, "(static_item name: (identifier) @name)"@),
            ("mod"@, "(mod_item name: (identifier) @name)"@),
            ("macro"@, "(macro_definition name: (identifier) @name)"@),
        ],
        Lang::Python => seq![
            ("def"@, "(function_definition name: (identifier) @name)"@),
            ("class"@, "(class_definition name: (identifier) @name)"@),
        ],
        Lang::JavaScript => seq![
            ("function"@, "(function_declaration name: (identifier) @name)"@),
            ("class"@, "(class_declaration name: (identifier) @name)"@),
            ("method"@, "(method_definition name: (property_identifier) @name)"@),
            ("arrow"@, "(lexical_declaration (variable_declarator name: (identifier) @name value: (arrow_function)))"@),
            ("arrow"@, "(lexical_declaration (variable_declarator name: (identifier) @name value: (function_expression)))"@),
        ],
        Lang::TypeScript => seq![
            ("function"@, "(function_declaration name: (identifier) @name)"@),
            ("class"@, "(class_declaration name: (type_identifier) @name)"@),
            ("method"@, "(method_definition name: (property_identifier) @name)"@),
            ("arrow"@, "(lexical_declaration (variable_declarator name: (identifier) @name value: (arrow_function)))"@),
            ("interface"@, "(interface_declaration name: (type_identifier) @name)"@),
            ("type"@, "(type_alias_declaration name: (type_identifier) @name)"@),
            ("enum"@, "(enum_declaration name: (identifier) @name)"@),
        ],
        Lang::Go => seq![
            ("func"@, "(function_declaration name: (identifier) @name)"@),
            ("method"@, "(method_declaration name: (field_identifier) @name)"@),
            ("type"@, "(type_declaration (type_spec name: (type_identifier) @name))"@),
        ],
    }
}

/// The definition queries of `lang`, in order.
pub fn queries(lang: Lang) -> (r: Vec<(&'static str, &'static str)>)
    ensures
        r.deep_view() == lang_queries(lang),
{
    let v = match lang {
        Lang::Rust => vec![
            ("fn", "(function_item name: (identifier) @name)"),
            ("struct", "(struct_item name: (type_identifier) @name)"),
            ("enum", "(enum_item name: (type_identifier) @name)"),
            ("trait", "(trait_item name: (type_identifier) @name)"),
            ("type", "(type_item name: (type_identifier) @name)"),
            ("const", "(const_item name: (identifier) @name)"),
            ("static", "(static_item name: (identifier) @name)"),
            ("mod", "(mod_item name: (identifier) @name)"),
            ("macro", "(macro_definition name: (identifier) @name)"),
        ],
        Lang::Python => vec![
            ("def", "(function_definition name: (identifier) @name)"),
            ("class", "(class_definition name: (identifier) @name)"),
        ],
        Lang::JavaScript => vec![
            ("function", "(function_declaration name: (identifier) @name)"),
            ("class", "(class_declaration name: (identifier) @name)"),
            ("method", "(method_definition name: (property_identifier) @name)"),
            ("arrow", "(lexical_declaration (variable_declarator name: (identifier) @name value: (arrow_function)))"),
            ("arrow", "(lexical_declaration (variable_declarator name: (identifier) @name value: (function_expression)))"),
        ],
        Lang::TypeScript => vec![
            ("function", "(function_declaration name: (identifier) @name)"),
            ("class", "(class_declaration name: (type_identifier) @name)"),
            ("method", "(method_definition name: (property_identifier) @name)"),
            ("arrow", "(lexical_declaration (variable_declarator name: (identifier) @name value: (arrow_function)))"),
            ("interface", "(interface_declaration name: (type_identifier) @name)"),
            ("type", "(type_alias_declaration name: (type_identifier) @name)"),
            ("enum", "(enum_declaration name: (identifier) @name)"),
        ],
        Lang::Go => vec![
            ("func", "(function_declaration name: (identifier) @name)"),
            ("method", "(method_declaration name: (field_identifier) @name)"),
            ("type", "(type_declaration (type_spec name: (type_identifier) @name))"),
        ],
    };
    assert(v.deep_view() =~= lang_queries(lang));
    v
}

// ---------------------------------------------------------------------
// tree-sitter
// ---------------------------------------------------------------------

#[verifier::external_type_specification]
#[verifier::external_body]
pub struct ExLanguage(tree_sitter::Language);

#[verifier::external_type_specification]
#[verifier::external_body]
pub struct ExParser(tree_sitter::Parser);

#[verifier::external_type_specification]
#[verifier::external_body]
pub struct ExTree(tree_sitter::Tree);

#[verifier::external_type_specification]
#[verifier::external_body]
pub struct ExQuery(tree_sitter::Query);

#[verifier::external_type_specification]
#[verifier::external_body]
pub struct ExLanguageError(tree_sitter::LanguageError);

#[verifier::external_type_specification]
#[verifier::external_body]
pub struct ExQueryError(tree_sitter::QueryError);

/// The Rust grammar (`tree_sitter_rust::language`).
#[verifier::external_body]
fn rust_language() -> tree_sitter::Language {
    tree_sitter_rust::language()
}

/// The Python grammar (`tree_sitter_python::language`).
#[verifier::external_body]
fn python_language() -> tree_sitter::Language {
    tree_sitter_python::language()
}

/// The JavaScript grammar (`tree_sitter_javascript::language`).
#[verifier::external_body]
fn javascript_language() -> tree_sitter::Language {
    tree_sitter_javascript::language()
}

/// The TypeScript grammar (`tree_sitter_typescript::language_typescript`).
#[verifier::external_body]
fn typescript_language() -> tree_sitter::Language {
    tree_sitter_typescript::language_typescript()
}

/// The Go grammar (`tree_sitter_go::language`).
#[verifier::external_body]
fn go_language() -> tree_sitter::Language {
    tree_sitter_go::language()
}

/// Whether the grammar of `lang` was generated for an ABI version that this
/// tree-sitter library accepts (`Parser::set_language`).
pub uninterp spec fn grammar_fits(lang: Lang) -> bool;

/// Whether a parser for `lang`, with no timeout and no cancellation flag,
/// yields a tree for `text` (`Parser::parse`).
pub uninterp spec fn source_parses(lang: Lang, text: Seq<char>) -> bool;

/// Whether `query` compiles against the grammar of `lang` (`Query::new`).
pub uninterp spec fn query_compiles(lang: Lang, query: Seq<char>) -> bool;

/// The index of the capture called `name` in `query` compiled for `lang`
/// (`Query::capture_index_for_name`).
pub uninterp spec fn query_capture_index(lang: Lang, query: Seq<char>, name: Seq<char>) -> Option<u32>;

/// The captures of every match of `query`, compiled for `lang`, over the
/// tree that `lang`'s grammar parses from `text`, match by match in the
/// order found (`QueryCursor::matches`).
pub uninterp spec fn query_captures_of(lang: Lang, query: Seq<char>, text: Seq<char>) -> Seq<CaptureView>;

/// The tree-sitter grammar of a language. Its fields are private and
/// `grammar` is its only constructor, so the grammar is always the one of
/// its language.
pub struct Grammar {
    language: tree_sitter::Language,
    lang: Ghost<Lang>,
}

impl View for Grammar {
    type V = Lang;

    /// The language whose grammar this is.
    closed spec fn view(&self) -> Lang {
        self.lang@
    }
}

/// The tree-sitter grammar of `lang`.
pub fn grammar(lang: Lang) -> (r: Grammar)
    ensures
        r@ == lang,
{
    let language = match lang {
        Lang::Rust => rust_language(),
        Lang::Python => python_language(),
        Lang::JavaScript => javascript_language(),
        Lang::TypeScript => typescript_language(),
        Lang::Go => go_language(),
    };
    Grammar { language, lang: Ghost(lang) }
}

/// A parser with no language set (`Parser::new`).
#[verifier::external_body]
fn new_parser() -> tree_sitter::Parser {
    tree_sitter::Parser::new()
}

/// Sets the parser's language (`Parser::set_language`); it fails exactly
/// when the grammar's ABI version lies outside the range this library
/// accepts, which is a property of the grammar alone.
#[verifier::external_body]
fn set_language(parser: &mut tree_sitter::Parser, g: &Grammar) -> (r: Result<(), tree_sitter::LanguageError>)
    ensures
        r is Ok <==> grammar_fits(g@),
{
    parser.set_language(&g.language)
}

/// A parser whose language is set. Its fields are private and `parser_for`
/// is its only constructor, so the parser always has the grammar of its
/// language, with no timeout and no cancellation flag.
pub struct LangParser {
    parser: tree_sitter::Parser,
    lang: Ghost<Lang>,
}

impl View for LangParser {
    type V = Lang;

    /// The language the parser reads.
    closed spec fn view(&self) -> Lang {
        self.lang@
    }
}

/// A parser for the grammar `g`; fails when the grammar does not fit this
/// tree-sitter library.
pub fn parser_for(g: &Grammar) -> (r: Result<LangParser, tree_sitter::LanguageError>)
    ensures
        r is Ok <==> grammar_fits(g@),
        r matches Ok(p) ==> p@ == g@,
{
    let mut parser = new_parser();
    match set_language(&mut parser, g) {
        Ok(()) => Ok(LangParser { parser, lang: Ghost(g@) }),
        Err(e) => Err(e),
    }
}

/// Parses `text` as a new document (`Parser::parse`). The parser keeps its
/// language; whether a tree comes back is named by `source_parses` (the
/// source shows `None` on a timeout, a cancellation or an external
/// scanner's error, none of which depends on anything but the grammar and
/// the text here).
#[verifier::external_body]
fn parse(p: &mut LangParser, text: &str) -> (r: Option<tree_sitter::Tree>)
    ensures
        final(p)@ == old(p)@,
        r is Some <==> source_parses(old(p)@, text@),
{
    p.parser.parse(text, None)
}

/// A syntax tree together with the text it was parsed from. Its fields are
/// private and `parse_source` is its only constructor, so the tree is always
/// the one its language's grammar gives for its text.
pub struct ParsedSource {
    tree: tree_sitter::Tree,
    text: String,
    lang: Ghost<Lang>,
}

impl View for ParsedSource {
    type V = (Lang, Seq<char>);

    /// The language and the text that were parsed.
    closed spec fn view(&self) -> (Lang, Seq<char>) {
        (self.lang@, self.text@)
    }
}

/// Parses `text` with `p`, keeping the text with the tree; `None` exactly
/// when no tree comes back.
pub fn parse_source(p: &mut LangParser, text: &str) -> (r: Option<ParsedSource>)
    ensures
        final(p)@ == old(p)@,
        r is Some <==> source_parses(old(p)@, text@),
        r matches Some(t) ==> t@ == (old(p)@, text@),
{
    let ghost lang = p@;
    match parse(p, text) {
        Some(tree) => Some(ParsedSource { tree, text: owned(text), lang: Ghost(lang) }),
        None => None,
    }
}

/// Compiles a query for the grammar `g` (`Query::new`).
#[verifier::external_body]
fn new_query(g: &Grammar, source: &str) -> (r: Result<tree_sitter::Query, tree_sitter::QueryError>)
    ensures
        r is Ok <==> query_compiles(g@, source@),
{
    tree_sitter::Query::new(&g.language, source)
}

/// A query compiled for a language, with its source. Its fields are private
/// and `compile_query` is its only constructor, so the query is always the
/// compilation of its source for its language.
pub struct CompiledQuery {
    query: tree_sitter::Query,
    lang: Ghost<Lang>,
    source: Ghost<Seq<char>>,
}

impl View for CompiledQuery {
    type V = (Lang, Seq<char>);

    /// The language and the source of the query.
    closed spec fn view(&self) -> (Lang, Seq<char>) {
        (self.lang@, self.source@)
    }
}

/// Compiles the query `source` for the grammar `g`.
pub fn compile_query(g: &Grammar, source: &str) -> (r: Result<CompiledQuery, tree_sitter::QueryError>)
    ensures
        r is Ok <==> query_compiles(g@, source@),
        r matches Ok(q) ==> q@ == (g@, source@),
{
    match new_query(g, source) {
        Ok(query) => Ok(CompiledQuery { query, lang: Ghost(g@), source: Ghost(source@) }),
        Err(e) => Err(e),
    }
}

/// The index of the query's capture called `name`
/// (`Query::capture_index_for_name`).
#[verifier::external_body]
pub(crate) fn capture_index(q: &CompiledQuery, name: &str) -> (r: Option<u32>)
    ensures
        r == query_capture_index(q@.0, q@.1, name@),
{
    q.query.capture_index_for_name(name)
}

/// One capture of a query match: which capture of the query it is, the
/// 0-based line where the captured node starts, and the node's text, when
/// that text is valid UTF-8.
pub struct Capture {
    pub index: u32,
    pub row: usize,
    pub text: Option<String>,
}

/// A capture as a value.
pub struct CaptureView {
    pub index: u32,
    pub row: int,
    pub text: Option<Seq<char>>,
}

impl View for Capture {
    type V = CaptureView;

    open spec fn view(&self) -> CaptureView {
        CaptureView {
            index: self.index,
            row: self.row as int,
            text: match self.text {
                Some(t) => Some(t@),
                None => None,
            },
        }
    }
}

impl DeepView for Capture {
    type V = CaptureView;

    open spec fn deep_view(&self) -> CaptureView {
        self@
    }
}

/// The captures of every match of `q` over the whole tree of `t`, match by
/// match in the order found (`QueryCursor::matches`, with each captured
/// node's `start_position` and `utf8_text`). The node texts are cut from the
/// text the tree was parsed from, so every byte range lies inside it. A row
/// comes from tree-sitter's 32-bit point and so is at most `u32::MAX`.
#[verifier::external_body]
pub(crate) fn query_captures(q: &CompiledQuery, t: &ParsedSource) -> (r: Vec<Capture>)
    requires
        q@.0 == t@.0,
    ensures
        r.deep_view() == query_captures_of(q@.0, q@.1, t@.1),
        forall|k: int| 0 <= k < r@.len() ==> #[trigger] r@[k].row <= u32::MAX,
{
    let bytes = t.text.as_bytes();
    let mut cursor = tree_sitter::QueryCursor::new();
    let mut out = Vec::new();
    for m in cursor.matches(&q.query, t.tree.root_node(), bytes) {
        for c in m.captures {
            let text = c.node.utf8_text(bytes).ok().map(|s| s.to_string());
            out.push(Capture { index: c.index, row: c.node.start_position().row, text });
        }
    }
    out
}

} // verus!
