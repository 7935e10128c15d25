//! Symbol index: definitions (functions, types, ...) found in the source
//! files of a repository, looked up by name.
use vstd::prelude::*;

use crate::grammar::{
    capture_index, compile_query, grammar, grammar_fits, lang_queries, parse_source, parser_for, queries,
    query_capture_index, query_captures, query_captures_of, query_compiles, source_parses, Capture,
    CaptureView, Lang,
};
use crate::path::{chars_lt, compare_chars, lemma_chars_lt_order};
use crate::text::{ascii_lower_chars, contains, find_seq, lower_seq, owned, str_eq, to_chars};

verus! {

/// A definition found in a source file.
#[derive(Clone, Debug)]
pub struct Symbol {
    pub name: String,
    pub kind: String,
    /// Relative to the repo root.
    pub path: String,
    /// 1-indexed line of the definition.
    pub line: usize,
}

/// A symbol as a mathematical value.
pub struct SymbolView {
    pub name: Seq<char>,
    pub kind: Seq<char>,
    pub path: Seq<char>,
    pub line: int,
}

impl View for Symbol {
    type V = SymbolView;

    open spec fn view(&self) -> SymbolView {
        SymbolView { name: self.name@, kind: self.kind@, path: self.path@, line: self.line as int }
    }
}

impl DeepView for Symbol {
    type V = SymbolView;

    open spec fn deep_view(&self) -> SymbolView {
        self@
    }
}

/// A copy of a symbol.
pub fn copy_symbol(s: &Symbol) -> (r: Symbol)
    ensures
        r@ == s@,
{
    Symbol { name: s.name.clone(), kind: s.kind.clone(), path: s.path.clone(), line: s.line }
}

/// Symbols grouped by name and by file. Each key occurs once.
pub struct SymbolIndex {
    pub by_name: Vec<(String, Vec<Symbol>)>,
    pub by_path: Vec<(String, Vec<Symbol>)>,
}

/// A list of groups, each a key with the symbols filed under it.
pub type Groups = Seq<(Seq<char>, Seq<SymbolView>)>;

/// No key occurs twice.
pub open spec fn distinct_keys(g: Groups) -> bool {
    forall|i: int, j: int| 0 <= i < j < g.len() ==> g[i].0 != g[j].0
}

/// The position of the first group under `key`, or -1.
pub open spec fn key_index(g: Groups, key: Seq<char>) -> int
    decreases g.len(),
{
    if g.len() == 0 {
        -1
    } else if g[0].0 == key {
        0
    } else {
        let r = key_index(g.drop_first(), key);
        if r < 0 {
            -1
        } else {
            r + 1
        }
    }
}

/// The symbols filed under `key`, or none.
pub open spec fn group(g: Groups, key: Seq<char>) -> Seq<SymbolView> {
    let k = key_index(g, key);
    if k >= 0 {
        g[k].1
    } else {
        seq![]
    }
}

/// `g` with `s` added at the end of the group under its name, which is
/// opened when there is none.
pub open spec fn file_under_name(g: Groups, s: SymbolView) -> Groups {
    let k = key_index(g, s.name);
    if k >= 0 {
        g.update(k, (g[k].0, g[k].1.push(s)))
    } else {
        g.push((s.name, seq![s]))
    }
}

/// `g` with each of `syms`, in order, filed under its name.
pub open spec fn file_all(g: Groups, syms: Seq<SymbolView>) -> Groups
    decreases syms.len(),
{
    if syms.len() == 0 {
        g
    } else {
        file_under_name(file_all(g, syms.drop_last()), syms.last())
    }
}

/// `g` with the group under `key` set to `v` (`HashMap::insert`).
pub open spec fn put_group(g: Groups, key: Seq<char>, v: Seq<SymbolView>) -> Groups {
    let k = key_index(g, key);
    if k >= 0 {
        g.update(k, (key, v))
    } else {
        g.push((key, v))
    }
}

/// The symbols of the groups whose key, in ASCII lowercase, holds `q` in
/// ASCII lowercase; group by group, in order.
pub open spec fn partial_hits(g: Groups, q: Seq<char>) -> Seq<SymbolView>
    decreases g.len(),
{
    if g.len() == 0 {
        seq![]
    } else {
        let rest = partial_hits(g.drop_last(), q);
        if contains(lower_seq(g.last().0), lower_seq(q)) {
            rest + g.last().1
        } else {
            rest
        }
    }
}

/// The symbols of `syms` named `key`, in order.
pub open spec fn named(syms: Seq<SymbolView>, key: Seq<char>) -> Seq<SymbolView> {
    syms.filter(|s: SymbolView| s.name == key)
}

/// The found position is in range and holds the key; when there is none,
/// no group holds the key.
pub proof fn lemma_key_index(g: Groups, key: Seq<char>)
    ensures
        -1 <= key_index(g, key) < g.len(),
        key_index(g, key) >= 0 ==> g[key_index(g, key)].0 == key,
        key_index(g, key) >= 0 ==> forall|j: int| 0 <= j < key_index(g, key) ==> g[j].0 != key,
        key_index(g, key) < 0 ==> forall|j: int| 0 <= j < g.len() ==> g[j].0 != key,
    decreases g.len(),
{
    if g.len() > 0 && g[0].0 != key {
        lemma_key_index(g.drop_first(), key);
        assert forall|j: int| 1 <= j < g.len() implies g[j].0 == g.drop_first()[j - 1].0 by {}
    }
}

/// With distinct keys, the position of a key is the one index holding it.
pub proof fn lemma_key_index_at(g: Groups, key: Seq<char>, i: int)
    requires
        distinct_keys(g),
        0 <= i < g.len(),
        g[i].0 == key,
    ensures
        key_index(g, key) == i,
{
    lemma_key_index(g, key);
}

/// Filing a symbol keeps the keys distinct and the names of the filed
/// symbols equal to their keys.
pub open spec fn named_groups(g: Groups) -> bool {
    &&& distinct_keys(g)
    &&& forall|i: int, k: int|
        0 <= i < g.len() && 0 <= k < g[i].1.len() ==> (#[trigger] g[i].1[k]).name == g[i].0
}

/// Filing a symbol under its name keeps the groups named.
pub proof fn lemma_file_under_name(g: Groups, s: SymbolView)
    requires
        named_groups(g),
    ensures
        named_groups(file_under_name(g, s)),
        forall|key: Seq<char>| #[trigger] group(file_under_name(g, s), key) == if key == s.name {
            group(g, key).push(s)
        } else {
            group(g, key)
        },
{
    lemma_key_index(g, s.name);
    let n = file_under_name(g, s);
    let k = key_index(g, s.name);
    assert forall|key: Seq<char>| #[trigger] group(n, key) == if key == s.name {
        group(g, key).push(s)
    } else {
        group(g, key)
    } by {
        lemma_key_index(g, key);
        let kk = key_index(g, key);
        if kk >= 0 {
            lemma_key_index_at(n, key, kk);
        } else if key == s.name {
            lemma_key_index_at(n, key, g.len() as int);
        } else {
            lemma_key_index(n, key);
        }
    }
    assert(distinct_keys(n));
}

/// Filing a file's symbols one by one adds to the group under each name
/// exactly the symbols of that name, in their order, after those already
/// there; and every symbol stays filed under its own name.
pub proof fn lemma_file_all(g: Groups, syms: Seq<SymbolView>)
    requires
        named_groups(g),
    ensures
        named_groups(file_all(g, syms)),
        forall|key: Seq<char>| #[trigger] group(file_all(g, syms), key) == group(g, key) + named(syms, key),
    decreases syms.len(),
{
    reveal(Seq::filter);
    if syms.len() == 0 {
        assert forall|key: Seq<char>| #[trigger] group(file_all(g, syms), key) == group(g, key) + named(syms, key) by {
            assert(group(g, key) + named(syms, key) =~= group(g, key));
        }
    } else {
        let prev = file_all(g, syms.drop_last());
        lemma_file_all(g, syms.drop_last());
        lemma_file_under_name(prev, syms.last());
        assert forall|key: Seq<char>| #[trigger] group(file_all(g, syms), key) == group(g, key) + named(syms, key) by {
            assert(group(prev, key) == group(g, key) + named(syms.drop_last(), key));
            if key == syms.last().name {
                assert(group(g, key) + named(syms, key) =~= (group(g, key) + named(syms.drop_last(), key)).push(syms.last()));
            } else {
                assert(named(syms, key) == named(syms.drop_last(), key));
            }
        }
    }
}

/// After a file's symbols are added, the index still lists each name and
/// each path once and files every symbol under its own name; the exact
/// lookup of any name gives what it gave before, then the file's symbols of
/// that name in their order; and the file's path maps to its symbols.
pub proof fn lemma_add_file(before: Groups, after: Groups, paths_before: Groups, paths_after: Groups, rel: Seq<char>, syms: Seq<SymbolView>)
    requires
        named_groups(before),
        distinct_keys(paths_before),
        after == file_all(before, syms),
        paths_after == put_group(paths_before, rel, syms),
    ensures
        named_groups(after),
        distinct_keys(paths_after),
        forall|key: Seq<char>| #[trigger] group(after, key) == group(before, key) + named(syms, key),
        group(paths_after, rel) == syms,
        forall|key: Seq<char>| key != rel ==> #[trigger] group(paths_after, key) == group(paths_before, key),
{
    lemma_file_all(before, syms);
    lemma_key_index(paths_before, rel);
    let k = key_index(paths_before, rel);
    if k >= 0 {
        lemma_key_index_at(paths_after, rel, k);
    } else {
        lemma_key_index_at(paths_after, rel, paths_before.len() as int);
    }
    assert forall|key: Seq<char>| key != rel implies #[trigger] group(paths_after, key) == group(paths_before, key) by {
        lemma_key_index(paths_before, key);
        let kk = key_index(paths_before, key);
        if kk >= 0 {
            lemma_key_index_at(paths_after, key, kk);
        } else {
            lemma_key_index(paths_after, key);
        }
    }
}

/// A name holds itself, whatever the case of its letters.
proof fn lemma_contains_self(q: Seq<char>)
    ensures
        contains(lower_seq(q), lower_seq(q)),
{
    let l = lower_seq(q);
    assert(l.skip(0).take(l.len() as int) =~= l);
    assert(crate::text::occurs_at(l, l, 0));
}

/// Every symbol of a group whose name holds the query (case aside) is among
/// the partial hits.
proof fn lemma_group_in_partial(g: Groups, q: Seq<char>, i: int, x: SymbolView)
    requires
        0 <= i < g.len(),
        contains(lower_seq(g[i].0), lower_seq(q)),
        g[i].1.contains(x),
    ensures
        partial_hits(g, q).contains(x),
    decreases g.len(),
{
    let rest = partial_hits(g.drop_last(), q);
    if i == g.len() - 1 {
        let k = choose|k: int| 0 <= k < g[i].1.len() && g[i].1[k] == x;
        assert((rest + g.last().1)[rest.len() + k] == x);
    } else {
        lemma_group_in_partial(g.drop_last(), q, i, x);
        let j = choose|j: int| 0 <= j < rest.len() && rest[j] == x;
        if contains(lower_seq(g.last().0), lower_seq(q)) {
            assert((rest + g.last().1)[j] == x);
        }
    }
}

/// What the exact lookup of a name finds, the partial lookup of that name
/// finds too.
pub proof fn lemma_exact_in_partial(g: Groups, name: Seq<char>, x: SymbolView)
    requires
        group(g, name).contains(x),
    ensures
        partial_hits(g, name).contains(x),
{
    lemma_key_index(g, name);
    let k = key_index(g, name);
    lemma_contains_self(name);
    lemma_group_in_partial(g, name, k, x);
}

/// The partial lookup ignores ASCII case: two queries that are equal up to
/// ASCII case find the same symbols.
pub proof fn lemma_partial_ignores_case(g: Groups, q1: Seq<char>, q2: Seq<char>)
    requires
        lower_seq(q1) == lower_seq(q2),
    ensures
        partial_hits(g, q1) == partial_hits(g, q2),
    decreases g.len(),
{
    if g.len() > 0 {
        lemma_partial_ignores_case(g.drop_last(), q1, q2);
    }
}

impl SymbolIndex {
    /// The name groups as values.
    pub open spec fn names(&self) -> Groups {
        self.by_name.deep_view()
    }

    /// The file groups as values.
    pub open spec fn paths(&self) -> Groups {
        self.by_path.deep_view()
    }

    /// Each name and each path is listed once, and every symbol is filed
    /// under its own name.
    pub open spec fn wf(&self) -> bool {
        &&& named_groups(self.names())
        &&& distinct_keys(self.paths())
    }

    /// An empty index.
    pub fn new() -> (r: Self)
        ensures
            r.wf(),
            r.names().len() == 0,
            r.paths().len() == 0,
    {
        SymbolIndex { by_name: Vec::new(), by_path: Vec::new() }
    }

    /// The symbols named exactly `name`.
    pub fn lookup_exact(&self, name: &str) -> (r: Vec<&Symbol>)
        ensures
            r.deep_view() == group(self.names(), name@),
    {
        match position(&self.by_name, name) {
            Some(i) => refs(&self.by_name[i].1),
            None => Vec::new(),
        }
    }

    /// The symbols whose name holds `query`, ASCII case ignored.
    pub fn lookup_partial(&self, query: &str) -> (r: Vec<&Symbol>)
        ensures
            r.deep_view() == partial_hits(self.names(), query@),
    {
        let qc = to_chars(query);
        let q = ascii_lower_chars(&qc);
        let ghost g = self.names();
        let mut out: Vec<&Symbol> = Vec::new();
        let mut i: usize = 0;
        while i < self.by_name.len()
            invariant
                i <= self.by_name@.len(),
                g == self.names(),
                q@ == lower_seq(query@),
                out.deep_view() == partial_hits(g.take(i as int), query@),
            decreases self.by_name@.len() - i,
        {
            assert(g.take(i + 1).drop_last() == g.take(i as int));
            assert(g.take(i + 1).last() == g[i as int]);
            let entry = &self.by_name[i];
            assert(g[i as int] == (entry.0@, entry.1.deep_view()));
            let nc = to_chars(entry.0.as_str());
            let name = ascii_lower_chars(&nc);
            let found = find_seq(&name, &q);
            if found.is_some() {
                extend_refs(&mut out, &entry.1);
            }
            i += 1;
        }
        assert(g.take(g.len() as int) == g);
        out
    }

    /// Files the symbols of one file: each under its name, after those
    /// already there, and all of them under the file's path, in place of
    /// what was filed for that path before.
    pub fn add_file(&mut self, rel: String, symbols: Vec<Symbol>)
        ensures
            final(self).names() == file_all(old(self).names(), symbols.deep_view()),
            final(self).paths() == put_group(old(self).paths(), rel@, symbols.deep_view()),
    {
        let mut i: usize = 0;
        let ghost start = self.names();
        while i < symbols.len()
            invariant
                i <= symbols@.len(),
                self.names() == file_all(start, symbols.deep_view().take(i as int)),
                self.paths() == old(self).paths(),
            decreases symbols@.len() - i,
        {
            let s = copy_symbol(&symbols[i]);
            assert(symbols.deep_view().take(i + 1).drop_last() == symbols.deep_view().take(i as int));
            file_symbol(&mut self.by_name, s);
            i += 1;
        }
        assert(symbols.deep_view().take(symbols@.len() as int) == symbols.deep_view());
        match position(&self.by_path, rel.as_str()) {
            Some(k) => {
                let ghost g = self.paths();
                let ghost v = symbols.deep_view();
                self.by_path.set(k, (rel, symbols));
                assert(self.paths() =~= g.update(k as int, (rel@, v)));
            }
            None => {
                let ghost g = self.paths();
                let ghost v = symbols.deep_view();
                self.by_path.push((rel, symbols));
                assert(self.paths() =~= g.push((rel@, v)));
            }
        }
    }
}

/// The position of the first group under `key`.
fn position(g: &Vec<(String, Vec<Symbol>)>, key: &str) -> (r: Option<usize>)
    ensures
        r is None <==> key_index(g.deep_view(), key@) < 0,
        r matches Some(i) ==> i == key_index(g.deep_view(), key@) && i < g@.len(),
{
    let ghost gv = g.deep_view();
    proof {
        lemma_key_index(gv, key@);
    }
    let mut i: usize = 0;
    while i < g.len()
        invariant
            i <= g@.len(),
            gv == g.deep_view(),
            gv.len() == g@.len(),
            -1 <= key_index(gv, key@) < gv.len(),
            key_index(gv, key@) >= 0 ==> gv[key_index(gv, key@)].0 == key@,
            key_index(gv, key@) >= 0 ==> forall|j: int| 0 <= j < key_index(gv, key@) ==> gv[j].0 != key@,
            key_index(gv, key@) < 0 ==> forall|j: int| 0 <= j < gv.len() ==> gv[j].0 != key@,
            forall|j: int| 0 <= j < i ==> gv[j].0 != key@,
        decreases g@.len() - i,
    {
        if str_eq(g[i].0.as_str(), key) {
            assert(gv[i as int].0 == key@);
            return Some(i);
        }
        i += 1;
    }
    None
}

/// References to each symbol of `v`, in order.
fn refs(v: &Vec<Symbol>) -> (r: Vec<&Symbol>)
    ensures
        r.deep_view() == v.deep_view(),
{
    let mut out: Vec<&Symbol> = Vec::new();
    assert(out.deep_view() + v.deep_view() =~= v.deep_view());
    extend_refs(&mut out, v);
    out
}

/// Appends references to each symbol of `v`, in order.
fn extend_refs<'a>(out: &mut Vec<&'a Symbol>, v: &'a Vec<Symbol>)
    ensures
        final(out).deep_view() == old(out).deep_view() + v.deep_view(),
{
    let ghost before = out.deep_view();
    let mut k: usize = 0;
    while k < v.len()
        invariant
            k <= v@.len(),
            out@.len() == before.len() + k,
            out.deep_view() == before + v.deep_view().take(k as int),
        decreases v@.len() - k,
    {
        let ghost mid = out@;
        let ghost midv = out.deep_view();
        out.push(&v[k]);
        assert(out@ == mid.push(&v@[k as int]));
        assert forall|x: int| 0 <= x < out@.len() implies #[trigger] out.deep_view()[x]
            == (before + v.deep_view().take(k + 1))[x] by {
            if x < mid.len() {
                assert(out@[x] == mid[x]);
                assert(out.deep_view()[x] == midv[x]);
            }
        }
        assert(out.deep_view() =~= before + v.deep_view().take(k + 1));
        k += 1;
    }
    assert(v.deep_view().take(v@.len() as int) == v.deep_view());
}

/// Pushing onto a vector pushes the element's deep view onto its deep view.
proof fn lemma_deep_push<T: DeepView>(a: Vec<T>, b: Vec<T>, x: T)
    requires
        b@ == a@.push(x),
    ensures
        b.deep_view() == a.deep_view().push(x.deep_view()),
{
    assert forall|i: int| 0 <= i < b@.len() implies #[trigger] b.deep_view()[i]
        == a.deep_view().push(x.deep_view())[i] by {
        if i < a@.len() {
            assert(b@[i] == a@[i]);
        }
    }
    assert(b.deep_view() =~= a.deep_view().push(x.deep_view()));
}

/// Setting an element of a vector sets its deep view in the deep view.
proof fn lemma_deep_update<T: DeepView>(a: Vec<T>, b: Vec<T>, k: int, x: T)
    requires
        0 <= k < a@.len(),
        b@ == a@.update(k, x),
    ensures
        b.deep_view() == a.deep_view().update(k, x.deep_view()),
{
    assert forall|i: int| 0 <= i < b@.len() implies #[trigger] b.deep_view()[i]
        == a.deep_view().update(k, x.deep_view())[i] by {
        if i != k {
            assert(b@[i] == a@[i]);
        }
    }
    assert(b.deep_view() =~= a.deep_view().update(k, x.deep_view()));
}

/// Files `s` at the end of the group under its name.
fn file_symbol(g: &mut Vec<(String, Vec<Symbol>)>, s: Symbol)
    ensures
        final(g).deep_view() == file_under_name(old(g).deep_view(), s@),
{
    let ghost gv = g.deep_view();
    match position(g, s.name.as_str()) {
        Some(k) => {
            let mut entry = (String::new(), Vec::new());
            std::mem::swap(&mut entry, &mut g[k]);
            let ghost g1 = *g;
            let ghost old_syms = entry.1;
            assert(entry.0@ == gv[k as int].0 && old_syms.deep_view() == gv[k as int].1);
            entry.1.push(s);
            proof {
                lemma_deep_push(old_syms, entry.1, s);
            }
            g.set(k, entry);
            proof {
                lemma_deep_update(g1, *g, k as int, entry);
            }
            assert(g.deep_view() =~= file_under_name(gv, s@));
        }
        None => {
            let ghost g0 = *g;
            let name = s.name.clone();
            let mut v: Vec<Symbol> = Vec::new();
            v.push(s);
            assert(v.deep_view() =~= seq![s@]);
            let item = (name, v);
            g.push(item);
            proof {
                lemma_deep_push(g0, *g, item);
            }
            assert(g.deep_view() =~= file_under_name(gv, s@));
        }
    }
}

// ---------------------------------------------------------------------
// Ordering and de-duplication of the symbols found in one file
// ---------------------------------------------------------------------

/// `a` comes before `b`: by line, then by name (`(line, name)` order).
pub open spec fn key_lt(a: SymbolView, b: SymbolView) -> bool {
    a.line < b.line || (a.line == b.line && chars_lt(a.name, b.name))
}

/// `a` and `b` have the same line and name.
pub open spec fn same_key(a: SymbolView, b: SymbolView) -> bool {
    a.line == b.line && a.name == b.name
}

/// `perm` lists each index below `n` once.
pub open spec fn is_perm(perm: Seq<int>, n: int) -> bool {
    &&& perm.len() == n
    &&& forall|k: int| 0 <= k < n ==> 0 <= #[trigger] perm[k] < n
    &&& forall|a: int, b: int| 0 <= a < b < n ==> perm[a] != perm[b]
}

/// `out` is `es` sorted by `(line, name)`, symbols with equal keys keeping
/// their relative order: a stable sort, as `sort_by` performs.
pub open spec fn stably_sorted(es: Seq<SymbolView>, out: Seq<SymbolView>) -> bool {
    exists|perm: Seq<int>|
        {
            &&& is_perm(perm, es.len() as int)
            &&& out.len() == es.len()
            &&& forall|k: int| 0 <= k < out.len() ==> #[trigger] out[k] == es[perm[k]]
            &&& forall|a: int, b: int| 0 <= a < b < out.len() ==> !key_lt(out[b], out[a])
            &&& forall|a: int, b: int|
                0 <= a < b < out.len() && same_key(out[a], out[b]) ==> perm[a] < perm[b]
        }
}

/// `s` with each symbol dropped that has the line, name and kind of the
/// last one kept before it (`dedup_by`).
pub open spec fn dedup_syms(s: Seq<SymbolView>) -> Seq<SymbolView>
    decreases s.len(),
{
    if s.len() == 0 {
        s
    } else {
        let d = dedup_syms(s.drop_last());
        if d.len() > 0 && same_key(d.last(), s.last()) && d.last().kind == s.last().kind {
            d
        } else {
            d.push(s.last())
        }
    }
}

/// The order of symbol keys is a strict weak order; incomparable symbols share a key.
proof fn lemma_key_lt_order(a: SymbolView, b: SymbolView, c: SymbolView)
    ensures
        !key_lt(a, a),
        key_lt(a, b) ==> !key_lt(b, a),
        key_lt(a, b) && key_lt(b, c) ==> key_lt(a, c),
        !key_lt(a, b) && !key_lt(b, a) ==> same_key(a, b),
{
    lemma_chars_lt_order(a.name, b.name, c.name);
}

/// Whether `a` comes before `b` by `(line, name)`.
fn symbol_before(a: &Symbol, b: &Symbol) -> (r: bool)
    ensures
        r == key_lt(a@, b@),
{
    if a.line < b.line {
        true
    } else if a.line == b.line {
        let an = to_chars(a.name.as_str());
        let bn = to_chars(b.name.as_str());
        compare_chars(&an, &bn) == -1
    } else {
        false
    }
}

/// The symbols sorted by `(line, name)`, stably.
pub fn sort_symbols(es_v: &Vec<Symbol>) -> (r: Vec<Symbol>)
    ensures
        stably_sorted(es_v.deep_view(), r.deep_view()),
{
    let ghost es = es_v.deep_view();
    let n = es_v.len();
    let mut order: Vec<usize> = Vec::new();
    let mut i: usize = 0;
    while i < n
        invariant
            n == es_v@.len() == es.len(),
            es == es_v.deep_view(),
            i <= n,
            order@.len() == i,
            forall|a: int| 0 <= a < i ==> #[trigger] order@[a] < i,
            forall|a: int, b: int| 0 <= a < b < i ==> order@[a] != order@[b],
            forall|a: int, b: int|
                0 <= a < b < i ==> !key_lt(es[order@[b] as int], es[order@[a] as int]),
            forall|a: int, b: int|
                0 <= a < b < i && same_key(es[order@[a] as int], es[order@[b] as int])
                    ==> order@[a] < order@[b],
        decreases n - i,
    {
        let ghost ki = es[i as int];
        let mut p: usize = 0;
        while p < order.len()
            invariant
                p <= order@.len() == i,
                i < n == es.len() == es_v@.len(),
                es == es_v.deep_view(),
                forall|a: int| 0 <= a < i ==> #[trigger] order@[a] < i,
                ki == es[i as int],
                forall|a: int| 0 <= a < p ==> !key_lt(ki, #[trigger] es[order@[a] as int]),
            ensures
                p <= order@.len(),
                forall|a: int| 0 <= a < p ==> !key_lt(ki, #[trigger] es[order@[a] as int]),
                p < order@.len() ==> key_lt(ki, es[order@[p as int] as int]),
            decreases order@.len() - p,
        {
            if symbol_before(&es_v[i], &es_v[order[p]]) {
                break;
            }
            p += 1;
        }
        proof {
            if p < i {
                let kp = es[order@[p as int] as int];
                assert forall|b: int| p <= b < i implies key_lt(ki, #[trigger] es[order@[b] as int]) by {
                    let kb = es[order@[b] as int];
                    lemma_key_lt_order(ki, kp, kb);
                    lemma_key_lt_order(kp, kb, kb);
                }
            }
        }
        let ghost old_order = order@;
        order.insert(p, i);
        proof {
            assert forall|a: int| 0 <= a < i + 1 implies #[trigger] order@[a] < i + 1 by {
                if a < p {
                    assert(order@[a] == old_order[a]);
                } else if a > p {
                    assert(order@[a] == old_order[a - 1]);
                }
            }
            assert forall|a: int, b: int| 0 <= a < b < i + 1 implies order@[a] != order@[b] by {
                if a < p {
                    assert(order@[a] == old_order[a]);
                } else if a > p {
                    assert(order@[a] == old_order[a - 1]);
                }
                if b < p {
                    assert(order@[b] == old_order[b]);
                } else if b > p {
                    assert(order@[b] == old_order[b - 1]);
                }
            }
            assert forall|a: int, b: int| 0 <= a < b < i + 1 implies !key_lt(
                es[order@[b] as int],
                es[order@[a] as int],
            ) && (same_key(es[order@[a] as int], es[order@[b] as int]) ==> order@[a] < order@[b]) by {
                let ka = es[order@[a] as int];
                let kb = es[order@[b] as int];
                lemma_key_lt_order(ka, kb, kb);
                lemma_key_lt_order(kb, ka, ka);
                if a < p {
                    assert(order@[a] == old_order[a]);
                } else if a > p {
                    assert(order@[a] == old_order[a - 1]);
                }
                if b < p {
                    assert(order@[b] == old_order[b]);
                } else if b > p {
                    assert(order@[b] == old_order[b - 1]);
                }
            }
        }
        i += 1;
    }
    let mut out: Vec<Symbol> = Vec::new();
    let mut j: usize = 0;
    while j < n
        invariant
            n == es_v@.len() == es.len() == order@.len(),
            es == es_v.deep_view(),
            j <= n,
            out@.len() == j,
            forall|a: int| 0 <= a < n ==> #[trigger] order@[a] < n,
            forall|a: int| 0 <= a < j ==> #[trigger] out.deep_view()[a] == es[order@[a] as int],
        decreases n - j,
    {
        let q = order[j];
        let ghost before = out@;
        let ghost beforev = out.deep_view();
        let c = copy_symbol(&es_v[q]);
        assert(c@ == es[q as int]);
        let ghost cg = c;
        out.push(c);
        assert(out@[j as int] == cg);
        assert forall|x: int| 0 <= x < j + 1 implies #[trigger] out.deep_view()[x] == es[order@[x] as int] by {
            if x < j {
                assert(out@[x] == before[x]);
                assert(beforev[x] == es[order@[x] as int]);
            }
        }
        j += 1;
    }
    proof {
        let perm = order@.map_values(|v: usize| v as int);
        let ov = out.deep_view();
        assert(is_perm(perm, n as int));
        assert(forall|x: int| 0 <= x < ov.len() ==> #[trigger] ov[x] == es[perm[x]]);
    }
    out
}

/// The symbols with each one dropped whose line, name and kind equal those
/// of the last one kept before it.
pub fn dedup_symbols(v: &Vec<Symbol>) -> (r: Vec<Symbol>)
    ensures
        r.deep_view() == dedup_syms(v.deep_view()),
{
    let ghost vv = v.deep_view();
    let mut out: Vec<Symbol> = Vec::new();
    let mut i: usize = 0;
    while i < v.len()
        invariant
            i <= v@.len(),
            vv == v.deep_view(),
            out.deep_view() == dedup_syms(vv.take(i as int)),
        decreases v@.len() - i,
    {
        assert(vv.take(i + 1).drop_last() == vv.take(i as int));
        assert(vv.take(i + 1).last() == vv[i as int]);
        let s = &v[i];
        let n = out.len();
        let dup = if n > 0 {
            let last = &out[n - 1];
            assert(out.deep_view().last() == last@);
            last.line == s.line && str_eq(last.name.as_str(), s.name.as_str()) && str_eq(
                last.kind.as_str(),
                s.kind.as_str(),
            )
        } else {
            false
        };
        if !dup {
            let ghost before = out;
            let c = copy_symbol(s);
            let ghost cg = c;
            out.push(c);
            proof {
                lemma_deep_push(before, out, cg);
            }
        }
        i += 1;
    }
    assert(vv.take(vv.len() as int) == vv);
    out
}

/// The symbols of one file in their final order: sorted by `(line, name)`
/// and with repeats of the same definition dropped.
pub fn finish_symbols(raw: &Vec<Symbol>) -> (r: Vec<Symbol>)
    ensures
        exists|sorted: Seq<SymbolView>|
            #[trigger] stably_sorted(raw.deep_view(), sorted) && r.deep_view() == dedup_syms(sorted),
{
    let sorted = sort_symbols(raw);
    dedup_symbols(&sorted)
}

// ---------------------------------------------------------------------
// Definitions of one file
// ---------------------------------------------------------------------

/// The symbols that the captures of one query make: one for each capture of
/// the name (`idx`) whose text is valid UTF-8, on the 1-based line where it
/// starts, in the order of the captures.
pub open spec fn capture_symbols(kind: Seq<char>, idx: u32, caps: Seq<CaptureView>, rel: Seq<char>) -> Seq<SymbolView>
    decreases caps.len(),
{
    if caps.len() == 0 {
        seq![]
    } else {
        let rest = capture_symbols(kind, idx, caps.drop_last(), rel);
        let c = caps.last();
        if c.index == idx && c.text is Some {
            rest.push(SymbolView { name: c.text->0, kind: kind, path: rel, line: c.row + 1 })
        } else {
            rest
        }
    }
}

/// The symbols of kind `kind` in file `rel` that the captures of one query
/// name.
pub fn symbols_from_captures(kind: &str, name_index: u32, caps: &Vec<Capture>, rel: &str) -> (r: Vec<Symbol>)
    requires
        forall|k: int| 0 <= k < caps@.len() ==> #[trigger] caps@[k].row < usize::MAX,
    ensures
        r.deep_view() == capture_symbols(kind@, name_index, caps.deep_view(), rel@),
        forall|k: int| 0 <= k < r@.len() ==> (#[trigger] r@[k]).path@ == rel@ && r@[k].kind@ == kind@,
{
    let ghost cv = caps.deep_view();
    let mut out: Vec<Symbol> = Vec::new();
    let mut i: usize = 0;
    while i < caps.len()
        invariant
            i <= caps@.len(),
            cv == caps.deep_view(),
            forall|k: int| 0 <= k < caps@.len() ==> #[trigger] caps@[k].row < usize::MAX,
            out.deep_view() == capture_symbols(kind@, name_index, cv.take(i as int), rel@),
            forall|k: int| 0 <= k < out@.len() ==> (#[trigger] out@[k]).path@ == rel@ && out@[k].kind@ == kind@,
        decreases caps@.len() - i,
    {
        assert(cv.take(i + 1).drop_last() == cv.take(i as int));
        assert(cv.take(i + 1).last() == caps@[i as int]@);
        let c = &caps[i];
        if c.index == name_index {
            match &c.text {
                Some(t) => {
                    let ghost before = out;
                    let s = Symbol { name: owned(t.as_str()), kind: owned(kind), path: owned(rel), line: c.row + 1 };
                    let ghost sg = s;
                    out.push(s);
                    proof {
                        lemma_deep_push(before, out, sg);
                    }
                }
                None => {}
            }
        }
        i += 1;
    }
    assert(cv.take(cv.len() as int) == cv);
    out
}

/// Every capture's row can be numbered from 1 in a `usize`.
fn rows_fit(caps: &Vec<Capture>) -> (r: bool)
    ensures
        r == forall|k: int| 0 <= k < caps@.len() ==> #[trigger] caps@[k].row < usize::MAX,
{
    let mut i: usize = 0;
    while i < caps.len()
        invariant
            i <= caps@.len(),
            forall|k: int| 0 <= k < i ==> #[trigger] caps@[k].row < usize::MAX,
        decreases caps@.len() - i,
    {
        if caps[i].row == usize::MAX {
            return false;
        }
        i += 1;
    }
    true
}

/// Why a file could not be searched for definitions.
#[derive(Clone, Copy, Debug, PartialEq, Eq, Structural)]
pub enum ExtractError {
    /// The grammar does not fit the tree-sitter library.
    SetLanguage,
    /// The parser produced no tree, or one whose lines cannot be numbered.
    Parse,
}

/// `kind` is the kind of one of the definition queries of `lang`.
pub open spec fn kind_of(lang: Lang, kind: Seq<char>) -> bool {
    exists|i: int| 0 <= i < lang_queries(lang).len() && #[trigger] lang_queries(lang)[i].0 == kind
}

/// `v` is `raw`, symbols of file `rel` of kinds of `lang`, sorted by
/// `(line, name)` with repeats dropped.
pub open spec fn finished_from(raw: Seq<SymbolView>, v: Seq<SymbolView>, rel: Seq<char>, lang: Lang) -> bool {
    &&& forall|k: int| 0 <= k < raw.len() ==> (#[trigger] raw[k]).path == rel && kind_of(lang, raw[k].kind)
    &&& exists|sorted: Seq<SymbolView>| #[trigger] stably_sorted(raw, sorted) && v == dedup_syms(sorted)
}

/// `v` is what some list of symbols of file `rel`, of kinds of `lang`,
/// becomes once sorted by `(line, name)` with repeats dropped.
pub open spec fn extracted(v: Seq<SymbolView>, rel: Seq<char>, lang: Lang) -> bool {
    exists|raw: Seq<SymbolView>| #[trigger] finished_from(raw, v, rel, lang)
}

/// What the definition query `q` (its kind and its source) contributes for
/// `text` in `lang`: nothing when it does not compile or has no `name`
/// capture, else a symbol for each `name` capture; `None` when a capture's
/// line cannot be numbered in a `usize`.
pub open spec fn query_part(lang: Lang, q: (Seq<char>, Seq<char>), text: Seq<char>, rel: Seq<char>) -> Option<Seq<SymbolView>> {
    if !query_compiles(lang, q.1) {
        Some(seq![])
    } else {
        match query_capture_index(lang, q.1, "name"@) {
            None => Some(seq![]),
            Some(idx) => {
                let caps = query_captures_of(lang, q.1, text);
                if forall|k: int| 0 <= k < caps.len() ==> #[trigger] caps[k].row < usize::MAX {
                    Some(capture_symbols(q.0, idx, caps, rel))
                } else {
                    None
                }
            },
        }
    }
}

/// The symbols of all the queries `qs`, query after query; `None` when one
/// of them gives `None`.
pub open spec fn gathered(lang: Lang, qs: Seq<(Seq<char>, Seq<char>)>, text: Seq<char>, rel: Seq<char>) -> Option<Seq<SymbolView>>
    decreases qs.len(),
{
    if qs.len() == 0 {
        Some(seq![])
    } else {
        match gathered(lang, qs.drop_last(), text, rel) {
            None => None,
            Some(prev) => match query_part(lang, qs.last(), text, rel) {
                None => None,
                Some(part) => Some(prev + part),
            },
        }
    }
}

/// Once some queries give `None`, all of them do.
proof fn lemma_gathered_none(lang: Lang, qs: Seq<(Seq<char>, Seq<char>)>, text: Seq<char>, rel: Seq<char>, j: int)
    requires
        0 <= j <= qs.len(),
        gathered(lang, qs.take(j), text, rel) is None,
    ensures
        gathered(lang, qs, text, rel) is None,
    decreases qs.len() - j,
{
    if j < qs.len() {
        assert(qs.take(j + 1).drop_last() == qs.take(j));
        lemma_gathered_none(lang, qs, text, rel, j + 1);
    } else {
        assert(qs.take(j) == qs);
    }
}

/// The definitions in `source`, the text of the file `rel_path` written in
/// `lang`: every query of the language is run over the parse tree, each
/// named capture becomes a symbol, and the symbols are sorted by
/// `(line, name)` with repeats of one definition (line, name and kind)
/// dropped. A query that does not compile for the grammar, or has no `name`
/// capture, is skipped. It fails when the grammar does not fit the
/// tree-sitter library, when no tree comes back, or when a line cannot be
/// numbered.
pub fn extract(source: &str, rel_path: &str, lang: Lang) -> (r: Result<Vec<Symbol>, ExtractError>)
    ensures
        !grammar_fits(lang) ==> r == Err::<Vec<Symbol>, ExtractError>(ExtractError::SetLanguage),
        grammar_fits(lang) && !source_parses(lang, source@) ==> r == Err::<Vec<Symbol>, ExtractError>(
            ExtractError::Parse,
        ),
        grammar_fits(lang) && source_parses(lang, source@) ==> match gathered(lang, lang_queries(lang), source@, rel_path@) {
            None => r == Err::<Vec<Symbol>, ExtractError>(ExtractError::Parse),
            Some(raw) => r matches Ok(v) && finished_from(raw, v.deep_view(), rel_path@, lang),
        },
        r matches Ok(v) ==> extracted(v.deep_view(), rel_path@, lang),
{
    let g = grammar(lang);
    let mut parser = match parser_for(&g) {
        Ok(p) => p,
        Err(_) => return Err(ExtractError::SetLanguage),
    };
    let tree = match parse_source(&mut parser, source) {
        Some(t) => t,
        None => return Err(ExtractError::Parse),
    };
    let qs = queries(lang);
    let ghost lq = lang_queries(lang);
    let mut out: Vec<Symbol> = Vec::new();
    let mut i: usize = 0;
    while i < qs.len()
        invariant
            i <= qs@.len(),
            qs.deep_view() == lq,
            lq == lang_queries(lang),
            g@ == lang,
            grammar_fits(lang),
            source_parses(lang, source@),
            tree@ == (lang, source@),
            gathered(lang, lq.take(i as int), source@, rel_path@) == Some(out.deep_view()),
            forall|k: int| 0 <= k < out@.len() ==> (#[trigger] out@[k]).path@ == rel_path@ && kind_of(lang, out@[k].kind@),
        decreases qs@.len() - i,
    {
        let (kind, qsrc) = qs[i];
        assert(lq[i as int] == (kind@, qsrc@));
        assert(lq.take(i + 1).drop_last() == lq.take(i as int));
        assert(lq.take(i + 1).last() == lq[i as int]);
        let ghost before = out.deep_view();
        if let Ok(query) = compile_query(&g, qsrc) {
            if let Some(idx) = capture_index(&query, "name") {
                let caps = query_captures(&query, &tree);
                if !rows_fit(&caps) {
                    let ghost cv = caps.deep_view();
                    assert(cv == query_captures_of(lang, qsrc@, source@));
                    assert(!(forall|k: int| 0 <= k < cv.len() ==> #[trigger] cv[k].row < usize::MAX)) by {
                        let k = choose|k: int| 0 <= k < caps@.len() && !(#[trigger] caps@[k].row < usize::MAX);
                        assert(cv.len() == caps@.len());
                        assert(cv[k] == caps@[k]@);
                        assert(!(cv[k].row < usize::MAX));
                    }
                    assert(query_part(lang, lq[i as int], source@, rel_path@) is None);
                    proof {
                        lemma_gathered_none(lang, lq, source@, rel_path@, i + 1);
                    }
                    return Err(ExtractError::Parse);
                }
                assert(kind_of(lang, kind@));
                let found = symbols_from_captures(kind, idx, &caps, rel_path);
                let mut k: usize = 0;
                while k < found.len()
                    invariant
                        k <= found@.len(),
                        kind_of(lang, kind@),
                        out.deep_view() == before + found.deep_view().take(k as int),
                        forall|m: int| 0 <= m < found@.len() ==> (#[trigger] found@[m]).path@ == rel_path@ && found@[m].kind@ == kind@,
                        forall|m: int| 0 <= m < out@.len() ==> (#[trigger] out@[m]).path@ == rel_path@ && kind_of(lang, out@[m].kind@),
                    decreases found@.len() - k,
                {
                    let ghost ob = out;
                    let c = copy_symbol(&found[k]);
                    let ghost cg = c;
                    out.push(c);
                    proof {
                        lemma_deep_push(ob, out, cg);
                        assert(found.deep_view().take(k + 1) == found.deep_view().take(k as int).push(found@[k as int]@));
                    }
                    k += 1;
                }
                assert(found.deep_view().take(found@.len() as int) == found.deep_view());
                assert(forall|k: int| 0 <= k < caps.deep_view().len() ==> #[trigger] caps.deep_view()[k].row < usize::MAX) by {
                    assert forall|k: int| 0 <= k < caps.deep_view().len() implies #[trigger] caps.deep_view()[k].row < usize::MAX by {
                        assert(caps.deep_view()[k] == caps@[k]@);
                    }
                }
                assert(query_part(lang, lq[i as int], source@, rel_path@) == Some(found.deep_view()));
            } else {
                assert(query_part(lang, lq[i as int], source@, rel_path@) == Some(Seq::<SymbolView>::empty()));
                assert(before + Seq::<SymbolView>::empty() == before);
            }
        } else {
            assert(query_part(lang, lq[i as int], source@, rel_path@) == Some(Seq::<SymbolView>::empty()));
            assert(before + Seq::<SymbolView>::empty() == before);
        }
        i += 1;
    }
    assert(lq.take(lq.len() as int) == lq);
    let v = finish_symbols(&out);
    proof {
        let raw = out.deep_view();
        assert(forall|k: int| 0 <= k < raw.len() ==> (#[trigger] raw[k]).path == rel_path@ && kind_of(lang, raw[k].kind));
        assert(finished_from(raw, v.deep_view(), rel_path@, lang));
        assert(extracted(v.deep_view(), rel_path@, lang));
    }
    Ok(v)
}

/// `d[k]` and `d[k + 1]` are the same definition: line, name and kind.
pub open spec fn repeats_at(d: Seq<SymbolView>, k: int) -> bool {
    same_key(d[k], d[k + 1]) && d[k].kind == d[k + 1].kind
}

/// No two neighbours of a de-duplicated list are the same definition.
pub proof fn lemma_dedup_no_repeat(s: Seq<SymbolView>)
    ensures
        forall|k: int| 0 <= k < dedup_syms(s).len() - 1 ==> !#[trigger] repeats_at(dedup_syms(s), k),
    decreases s.len(),
{
    if s.len() > 0 {
        lemma_dedup_no_repeat(s.drop_last());
        let d = dedup_syms(s.drop_last());
        if !(d.len() > 0 && same_key(d.last(), s.last()) && d.last().kind == s.last().kind) {
            let e = d.push(s.last());
            assert forall|k: int| 0 <= k < e.len() - 1 implies !#[trigger] repeats_at(e, k) by {
                if k < d.len() - 1 {
                    assert(e[k] == d[k] && e[k + 1] == d[k + 1]);
                    assert(!repeats_at(d, k));
                }
            }
        }
    }
}

} // verus!
