//! The code-aware tokenizer behind BM25 retrieval.
use vstd::prelude::*;
use vstd::utf8::encode_utf8;

use crate::text::{
    alphanumeric, ascii_lower, from_chars, is_alphanumeric, is_ascii_digit, is_ascii_lower,
    is_ascii_upper, lower, owned, push_seq, str_eq, to_chars,
};

verus! {

broadcast use crate::text::lemma_chars_deep_view;

/// Tokenizer state: the tokens so far, the token being built, and whether
/// the previous character was an ASCII lowercase letter or digit.
pub struct TokState {
    pub out: Seq<Seq<char>>,
    pub cur: Seq<char>,
    pub prev_lower: bool,
}

/// Ends the current token, if there is one.
pub open spec fn flush_state(st: TokState) -> TokState {
    if st.cur.len() > 0 {
        TokState { out: st.out.push(st.cur), cur: seq![], prev_lower: st.prev_lower }
    } else {
        st
    }
}

/// One character of tokenizing. Alphanumeric characters extend the current
/// token in ASCII lowercase; an ASCII capital that follows a lowercase
/// letter or digit first ends the current token (a camelCase boundary).
/// Any other character ends the current token.
pub open spec fn tok_step(st: TokState, c: char) -> TokState {
    if alphanumeric(c) {
        let st1 = if is_ascii_upper(c) && st.prev_lower && st.cur.len() > 0 {
            flush_state(st)
        } else {
            st
        };
        TokState {
            out: st1.out,
            cur: st1.cur.push(lower(c)),
            prev_lower: is_ascii_lower(c) || is_ascii_digit(c),
        }
    } else {
        TokState { prev_lower: false, ..flush_state(st) }
    }
}

/// The tokenizer state after reading all of `s`.
pub open spec fn tok_fold(s: Seq<char>) -> TokState
    decreases s.len(),
{
    if s.len() == 0 {
        TokState { out: seq![], cur: seq![], prev_lower: false }
    } else {
        tok_step(tok_fold(s.drop_last()), s.last())
    }
}

/// A token is kept when its UTF-8 encoding is longer than one byte.
pub open spec fn keep_token(t: Seq<char>) -> bool {
    encode_utf8(t).len() > 1
}

/// The tokens of a text: runs of alphanumeric characters, also split at
/// camelCase boundaries, lowercased, one-byte tokens dropped.
pub open spec fn tokens(s: Seq<char>) -> Seq<Seq<char>> {
    flush_state(tok_fold(s)).out.filter(|t: Seq<char>| keep_token(t))
}

/// No camelCase boundary inside `s`: no ASCII capital follows an ASCII
/// lowercase letter or digit.
pub open spec fn no_camel_boundary(s: Seq<char>) -> bool {
    forall|i: int|
        1 <= i < s.len() ==> !(is_ascii_upper(#[trigger] s[i]) && (is_ascii_lower(s[i - 1]) || is_ascii_digit(
            s[i - 1],
        )))
}

/// Reading a run of alphanumeric characters with no camelCase boundary
/// builds one token: all of the run so far, lowercased.
proof fn lemma_run_state(s: Seq<char>, n: int)
    requires
        1 <= n <= s.len(),
        no_camel_boundary(s),
        forall|i: int| 0 <= i < s.len() ==> alphanumeric(#[trigger] s[i]),
    ensures
        tok_fold(s.take(n)) == (TokState {
            out: seq![],
            cur: s.take(n).map_values(|c: char| lower(c)),
            prev_lower: is_ascii_lower(s[n - 1]) || is_ascii_digit(s[n - 1]),
        }),
    decreases n,
{
    let p = s.take(n);
    assert(p.drop_last() == s.take(n - 1));
    assert(p.last() == s[n - 1]);
    assert(alphanumeric(s[n - 1]));
    assert(tok_fold(p) == tok_step(tok_fold(s.take(n - 1)), s[n - 1]));
    if n == 1 {
        assert(s.take(0) =~= Seq::<char>::empty());
        let init = TokState { out: seq![], cur: seq![], prev_lower: false };
        assert(tok_fold(s.take(0)) == init);
        assert(Seq::<char>::empty().push(lower(s[0])) =~= seq![lower(s[0])]);
        assert(p.map_values(|c: char| lower(c)) =~= seq![lower(s[0])]);
    } else {
        lemma_run_state(s, n - 1);
        assert(!(is_ascii_upper(s[n - 1]) && (is_ascii_lower(s[n - 2]) || is_ascii_digit(s[n - 2]))));
        assert(p.map_values(|c: char| lower(c)) =~= s.take(n - 1).map_values(|c: char| lower(c)).push(
            lower(s[n - 1]),
        ));
    }
}

/// Every token of more than one byte is kept, whatever its characters: a
/// run of two or more alphanumeric characters with no camelCase boundary
/// (a word, a number such as `8080`, `snake` or `Parse`) is exactly one
/// token, the run lowercased.
pub proof fn lemma_run_is_one_token(s: Seq<char>)
    requires
        s.len() >= 2,
        no_camel_boundary(s),
    ensures
        (forall|i: int| 0 <= i < s.len() ==> alphanumeric(#[trigger] s[i])) ==> tokens(s) == seq![
            s.map_values(|c: char| lower(c)),
        ],
{
    if forall|i: int| 0 <= i < s.len() ==> alphanumeric(#[trigger] s[i]) {
        lemma_run_state(s, s.len() as int);
        assert(s.take(s.len() as int) == s);
        let cur = s.map_values(|c: char| lower(c));
        lemma_encode_len(cur);
        assert(keep_token(cur));
        let out = flush_state(tok_fold(s)).out;
        assert(out == seq![cur]);
        reveal_with_fuel(Seq::filter, 2);
        assert(out.drop_last() =~= Seq::<Seq<char>>::empty());
        assert(out.filter(|t: Seq<char>| keep_token(t)) =~= seq![cur]);
    }
}

/// The tokenizer state after reading `s` from the state `st`.
pub open spec fn tok_from(st: TokState, s: Seq<char>) -> TokState
    decreases s.len(),
{
    if s.len() == 0 {
        st
    } else {
        tok_step(tok_from(st, s.drop_last()), s.last())
    }
}

/// Reading from the initial state is tokenizing.
proof fn lemma_tok_from_start(s: Seq<char>)
    ensures
        tok_fold(s) == tok_from(TokState { out: seq![], cur: seq![], prev_lower: false }, s),
    decreases s.len(),
{
    if s.len() > 0 {
        lemma_tok_from_start(s.drop_last());
    }
}

/// Reading `a + b` is reading `a`, then `b`.
proof fn lemma_tok_from_append(st: TokState, a: Seq<char>, b: Seq<char>)
    ensures
        tok_from(st, a + b) == tok_from(tok_from(st, a), b),
    decreases b.len(),
{
    if b.len() == 0 {
        assert(a + b == a);
    } else {
        lemma_tok_from_append(st, a, b.drop_last());
        assert((a + b).drop_last() == a + b.drop_last());
        assert((a + b).last() == b.last());
    }
}

/// Tokens already gathered are kept in front of those still to come.
proof fn lemma_tok_shift(pre: Seq<Seq<char>>, st: TokState, b: Seq<char>)
    ensures
        tok_from(TokState { out: pre + st.out, ..st }, b) == (TokState {
            out: pre + tok_from(st, b).out,
            ..tok_from(st, b)
        }),
    decreases b.len(),
{
    if b.len() > 0 {
        lemma_tok_shift(pre, st, b.drop_last());
        let t = tok_from(st, b.drop_last());
        let c = b.last();
        if t.cur.len() > 0 {
            assert((pre + t.out).push(t.cur) == pre + t.out.push(t.cur));
        }
        assert(tok_from(TokState { out: pre + st.out, ..st }, b) == tok_step(
            TokState { out: pre + t.out, ..t },
            c,
        ));
    }
}

/// A character that is not alphanumeric splits a text: the tokens of `a`,
/// that character and `b` are the tokens of `a` followed by those of `b`
/// (it ends the token in progress and the camelCase state). A space is
/// such a character, as `is_alphanumeric`'s contract gives for ASCII.
pub proof fn lemma_tokens_split(a: Seq<char>, c: char, b: Seq<char>)
    ensures
        !alphanumeric(c) ==> tokens(a.push(c) + b) == tokens(a) + tokens(b),
{
    if !alphanumeric(c) {
        let init = TokState { out: seq![], cur: seq![], prev_lower: false };
        lemma_tok_from_start(a);
        lemma_tok_from_start(a.push(c));
        lemma_tok_from_start(b);
        lemma_tok_from_start(a.push(c) + b);
        assert(a.push(c).drop_last() == a);
        let f = flush_state(tok_fold(a)).out;
        let s1 = tok_fold(a.push(c));
        assert(s1 == tok_step(tok_fold(a), c));
        assert(flush_state(tok_fold(a)).cur =~= Seq::<char>::empty());
        assert(f + init.out =~= f);
        assert(s1 == TokState { out: f + init.out, ..init });
        lemma_tok_from_append(init, a.push(c), b);
        lemma_tok_shift(f, init, b);
        let t = tok_fold(b);
        assert(tok_fold(a.push(c) + b) == TokState { out: f + t.out, ..t });
        if t.cur.len() > 0 {
            assert((f + t.out).push(t.cur) == f + t.out.push(t.cur));
        }
        assert(flush_state(tok_fold(a.push(c) + b)).out == f + flush_state(t).out);
        Seq::filter_distributes_over_add(f, flush_state(t).out, |t: Seq<char>| keep_token(t));
    }
}

/// UTF-8 encoding is never shorter than the text, and one character takes one byte exactly when it is ASCII.
proof fn lemma_encode_len(s: Seq<char>)
    ensures
        encode_utf8(s).len() >= s.len(),
        s.len() == 1 ==> (encode_utf8(s).len() == 1 <==> (s[0] as u32) <= 0x7F),
    decreases s.len(),
{
    if s.len() > 0 {
        lemma_encode_len(s.drop_first());
        if s.len() == 1 {
            assert(s.drop_first().len() == 0);
        }
    }
}

/// Whether a token is long enough to keep.
fn keep(t: &Vec<char>) -> (r: bool)
    ensures
        r == keep_token(t@),
{
    proof {
        lemma_encode_len(t@);
    }
    if t.len() >= 2 {
        true
    } else if t.len() == 1 {
        (t[0] as u32) > 0x7F
    } else {
        false
    }
}

/// Ends the current token, if there is one.
pub fn flush(current: &mut Vec<char>, out: &mut Vec<Vec<char>>)
    ensures
        old(current)@.len() > 0 ==> final(current)@ == Seq::<char>::empty() && final(out).deep_view() == old(
            out,
        ).deep_view().push(old(current)@),
        old(current)@.len() == 0 ==> final(current)@ == old(current)@ && final(out).deep_view()
            == old(out).deep_view(),
{
    if current.len() > 0 {
        let mut tok: Vec<char> = Vec::new();
        std::mem::swap(current, &mut tok);
        push_seq(out, tok);
    }
}

/// Code-aware tokenizer: splits on non-alphanumerics and at camelCase
/// boundaries, so that `parseJsonResponse` matches a query for `parse json`.
pub fn tokenize(text: &str) -> (r: Vec<String>)
    ensures
        r.deep_view() == tokens(text@),
{
    let cs = to_chars(text);
    let mut out: Vec<Vec<char>> = Vec::new();
    let mut current: Vec<char> = Vec::new();
    let mut prev_lower = false;
    let mut i: usize = 0;
    assert(out.deep_view() =~= Seq::<Seq<char>>::empty());
    assert(cs@.take(0) =~= Seq::<char>::empty());
    while i < cs.len()
        invariant
            i <= cs@.len(),
            cs@ == text@,
            tok_fold(cs@.take(i as int)) == (TokState {
                out: out.deep_view(),
                cur: current@,
                prev_lower,
            }),
        decreases cs@.len() - i,
    {
        let ch = cs[i];
        assert(cs@.take(i + 1).drop_last() == cs@.take(i as int));
        assert(cs@.take(i + 1).last() == ch);
        let ghost st0 = TokState { out: out.deep_view(), cur: current@, prev_lower };
        assert(tok_fold(cs@.take(i + 1)) == tok_step(st0, ch));
        if is_alphanumeric(ch) {
            if 'A' <= ch && ch <= 'Z' && prev_lower && current.len() > 0 {
                flush(&mut current, &mut out);
                assert(flush_state(st0) == (TokState { out: out.deep_view(), cur: current@, prev_lower }));
            }
            let ghost st1 = TokState { out: out.deep_view(), cur: current@, prev_lower };
            current.push(ascii_lower(ch));
            prev_lower = ('a' <= ch && ch <= 'z') || ('0' <= ch && ch <= '9');
            assert(current@ == st1.cur.push(lower(ch)));
        } else {
            flush(&mut current, &mut out);
            prev_lower = false;
            assert(tok_step(st0, ch) == (TokState { out: out.deep_view(), cur: current@, prev_lower }));
        }
        i += 1;
    }
    assert(cs@.take(cs@.len() as int) == cs@);
    flush(&mut current, &mut out);
    let ghost raw = out.deep_view();
    let mut kept: Vec<String> = Vec::new();
    let mut j: usize = 0;
    while j < out.len()
        invariant
            j <= out@.len(),
            raw == out.deep_view(),
            kept.deep_view() == raw.take(j as int).filter(|t: Seq<char>| keep_token(t)),
        decreases out@.len() - j,
    {
        assert(raw.take(j + 1).drop_last() == raw.take(j as int));
        reveal_with_fuel(Seq::filter, 1);
        if keep(&out[j]) {
            let s = from_chars(&out[j]);
            let ghost before = kept.deep_view();
            kept.push(s);
            assert(kept.deep_view() =~= before.push(raw[j as int]));
        }
        j += 1;
    }
    assert(raw.take(out@.len() as int) == raw);
    kept
}

/// No ASCII capital letter.
pub open spec fn no_ascii_upper(t: Seq<char>) -> bool {
    forall|i: int| 0 <= i < t.len() ==> !is_ascii_upper(#[trigger] t[i])
}

/// Lowercasing leaves no ASCII capital.
proof fn lemma_lower_not_upper(c: char)
    ensures
        !is_ascii_upper(lower(c)),
{
    if is_ascii_upper(c) {
        let v = (c as u32) + 32;
        assert(97 <= v <= 122);
        assert((v as char) as u32 == v);
    }
}

/// While tokenizing, every token and the token being built are free of
/// ASCII capitals, and the tokens are not empty.
proof fn lemma_fold_clean(s: Seq<char>)
    ensures
        no_ascii_upper(tok_fold(s).cur),
        forall|k: int| 0 <= k < tok_fold(s).out.len() ==> no_ascii_upper(#[trigger] tok_fold(s).out[k])
            && tok_fold(s).out[k].len() > 0,
    decreases s.len(),
{
    if s.len() > 0 {
        lemma_fold_clean(s.drop_last());
        lemma_lower_not_upper(s.last());
        let st = tok_fold(s.drop_last());
        let f = flush_state(st);
        assert forall|k: int| 0 <= k < f.out.len() implies no_ascii_upper(#[trigger] f.out[k]) && f.out[k].len() > 0 by {
            if k < st.out.len() {
                assert(f.out[k] == st.out[k]);
            }
        }
        let n = tok_fold(s);
        assert(no_ascii_upper(n.cur));
    }
}

/// Every token is free of ASCII capitals, not empty, and longer than one
/// byte: queries match whatever the case of the code they search.
pub proof fn lemma_tokens_clean(s: Seq<char>)
    ensures
        forall|k: int| 0 <= k < tokens(s).len() ==> no_ascii_upper(#[trigger] tokens(s)[k]) && keep_token(
            tokens(s)[k],
        ) && tokens(s)[k].len() > 0,
{
    lemma_fold_clean(s);
    let st = tok_fold(s);
    let f = flush_state(st);
    assert forall|k: int| 0 <= k < f.out.len() implies no_ascii_upper(#[trigger] f.out[k]) && f.out[k].len() > 0 by {
        if k < st.out.len() {
            assert(f.out[k] == st.out[k]);
        }
    }
    let p = |t: Seq<char>| keep_token(t);
    assert forall|k: int| 0 <= k < tokens(s).len() implies no_ascii_upper(#[trigger] tokens(s)[k]) && keep_token(
        tokens(s)[k],
    ) && tokens(s)[k].len() > 0 by {
        let t = tokens(s)[k];
        assert(f.out.filter(p).contains(t));
        f.out.lemma_filter_contains_rev(p, t);
        let j = choose|j: int| 0 <= j < f.out.len() && f.out[j] == t;
        assert(no_ascii_upper(f.out[j]));
    }
}

// ---------------------------------------------------------------------
// Term statistics
// ---------------------------------------------------------------------

/// Terms with counts, each term listed once, in order of first occurrence.
pub type Counts = Seq<(Seq<char>, nat)>;

/// The position of `t` in `c`, or -1.
pub open spec fn count_index(c: Counts, t: Seq<char>) -> int
    decreases c.len(),
{
    if c.len() == 0 {
        -1
    } else if c[0].0 == t {
        0
    } else {
        let r = count_index(c.drop_first(), t);
        if r < 0 {
            -1
        } else {
            r + 1
        }
    }
}

/// `c` with one more occurrence of `t`.
pub open spec fn bump(c: Counts, t: Seq<char>) -> Counts {
    let k = count_index(c, t);
    if k >= 0 {
        c.update(k, (t, c[k].1 + 1))
    } else {
        c.push((t, 1nat))
    }
}

/// `c` with the occurrences of `ts` added, in order.
pub open spec fn tally_from(c: Counts, ts: Seq<Seq<char>>) -> Counts
    decreases ts.len(),
{
    if ts.len() == 0 {
        c
    } else {
        bump(tally_from(c, ts.drop_last()), ts.last())
    }
}

/// The count of `t` in `c` (0 when absent).
pub open spec fn count_of(c: Counts, t: Seq<char>) -> nat {
    let k = count_index(c, t);
    if k >= 0 {
        c[k].1
    } else {
        0
    }
}

/// A table of term counts as values.
pub open spec fn counts_view(v: Seq<(Seq<char>, u32)>) -> Counts {
    v.map_values(|p: (Seq<char>, u32)| (p.0, p.1 as nat))
}

/// `count_index` is the first entry for the term, or -1 when the term has none.
proof fn lemma_count_index(c: Counts, t: Seq<char>)
    ensures
        -1 <= count_index(c, t) < c.len(),
        count_index(c, t) >= 0 ==> c[count_index(c, t)].0 == t,
        count_index(c, t) >= 0 ==> forall|j: int| 0 <= j < count_index(c, t) ==> c[j].0 != t,
        count_index(c, t) < 0 ==> forall|j: int| 0 <= j < c.len() ==> c[j].0 != t,
    decreases c.len(),
{
    if c.len() > 0 && c[0].0 != t {
        lemma_count_index(c.drop_first(), t);
        assert forall|j: int| 1 <= j < c.len() implies c[j].0 == c.drop_first()[j - 1].0 by {}
    }
}

/// The position of `t` in a table.
fn find_term(v: &Vec<(String, u32)>, t: &str) -> (r: Option<usize>)
    ensures
        r is None <==> count_index(counts_view(v.deep_view()), t@) < 0,
        r matches Some(i) ==> i == count_index(counts_view(v.deep_view()), t@) && i < v@.len(),
{
    let ghost c = counts_view(v.deep_view());
    proof {
        lemma_count_index(c, t@);
    }
    let mut i: usize = 0;
    while i < v.len()
        invariant
            i <= v@.len(),
            c == counts_view(v.deep_view()),
            c.len() == v@.len(),
            -1 <= count_index(c, t@) < c.len(),
            count_index(c, t@) >= 0 ==> c[count_index(c, t@)].0 == t@,
            count_index(c, t@) >= 0 ==> forall|j: int| 0 <= j < count_index(c, t@) ==> c[j].0 != t@,
            count_index(c, t@) < 0 ==> forall|j: int| 0 <= j < c.len() ==> c[j].0 != t@,
            forall|j: int| 0 <= j < i ==> c[j].0 != t@,
        decreases v@.len() - i,
    {
        assert(c[i as int].0 == v@[i as int].0@);
        if str_eq(v[i].0.as_str(), t) {
            assert(c[i as int].0 == t@);
            assert(count_index(c, t@) >= 0);
            assert(count_index(c, t@) == i as int) by {
                let ci = count_index(c, t@);
                if ci < i {
                    assert(c[ci].0 == t@);
                } else if ci > i {
                    assert(c[i as int].0 != t@);
                }
            }
            return Some(i);
        }
        i += 1;
    }
    None
}

/// How many times `u` occurs in `ts`.
pub open spec fn occurrences(ts: Seq<Seq<char>>, u: Seq<char>) -> nat
    decreases ts.len(),
{
    if ts.len() == 0 {
        0
    } else {
        occurrences(ts.drop_last(), u) + if ts.last() == u {
            1nat
        } else {
            0nat
        }
    }
}

/// A term occurs at most as many times as there are tokens.
proof fn lemma_occurrences_len(ts: Seq<Seq<char>>, u: Seq<char>)
    ensures
        occurrences(ts, u) <= ts.len(),
    decreases ts.len(),
{
    if ts.len() > 0 {
        lemma_occurrences_len(ts.drop_last(), u);
    }
}

/// Positions of terms depend on the keys only.
proof fn lemma_count_index_keys(c: Counts, d: Counts, t: Seq<char>)
    requires
        c.len() == d.len(),
        forall|j: int| 0 <= j < c.len() ==> #[trigger] c[j].0 == d[j].0,
    ensures
        count_index(c, t) == count_index(d, t),
    decreases c.len(),
{
    if c.len() > 0 {
        lemma_count_index_keys(c.drop_first(), d.drop_first(), t);
    }
}

/// One more occurrence of `t` adds one to its count and leaves the others.
proof fn lemma_bump_count(c: Counts, t: Seq<char>, u: Seq<char>)
    ensures
        count_of(bump(c, t), u) == count_of(c, u) + if u == t {
            1nat
        } else {
            0nat
        },
{
    lemma_count_index(c, t);
    lemma_count_index(c, u);
    let k = count_index(c, t);
    let b = bump(c, t);
    if k >= 0 {
        lemma_count_index_keys(c, b, u);
    } else {
        lemma_count_index(b, u);
        let ku = count_index(c, u);
        if ku >= 0 {
            lemma_count_index_keys(c, b.take(c.len() as int), u);
            assert(b.take(c.len() as int) =~= c);
            assert(count_index(b, u) == ku) by {
                assert(b[ku].0 == u);
                if count_index(b, u) != ku {
                    assert(count_index(b, u) < ku || count_index(b, u) > ku);
                }
            }
        } else if u == t {
            assert(b[c.len() as int].0 == u);
        }
    }
}

/// Counting a list of occurrences: each term's count grows by the number
/// of times it occurs.
pub proof fn lemma_tally_count(c: Counts, ts: Seq<Seq<char>>, u: Seq<char>)
    ensures
        count_of(tally_from(c, ts), u) == count_of(c, u) + occurrences(ts, u),
    decreases ts.len(),
{
    if ts.len() > 0 {
        lemma_tally_count(c, ts.drop_last(), u);
        lemma_bump_count(tally_from(c, ts.drop_last()), ts.last(), u);
    }
}

/// Adds one occurrence of `t` to a table.
fn bump_term(v: &mut Vec<(String, u32)>, t: &str)
    requires
        count_of(counts_view(old(v).deep_view()), t@) < u32::MAX,
    ensures
        counts_view(final(v).deep_view()) == bump(counts_view(old(v).deep_view()), t@),
{
    let ghost c = counts_view(v.deep_view());
    let ghost v0 = v@;
    match find_term(v, t) {
        Some(k) => {
            let n = v[k].1;
            assert(c[k as int].1 == n);
            let name = owned(v[k].0.as_str());
            proof {
                lemma_count_index(c, t@);
            }
            v.set(k, (name, n + 1));
            assert(counts_view(v.deep_view()) =~= c.update(k as int, (t@, c[k as int].1 + 1))) by {
                assert forall|j: int| 0 <= j < v@.len() implies #[trigger] counts_view(v.deep_view())[j]
                    == c.update(k as int, (t@, c[k as int].1 + 1))[j] by {
                    if j != k {
                        assert(v@[j] == v0[j]);
                    }
                }
            }
        },
        None => {
            v.push((owned(t), 1));
            assert(counts_view(v.deep_view()) =~= c.push((t@, 1nat))) by {
                assert forall|j: int| 0 <= j < v@.len() implies #[trigger] counts_view(v.deep_view())[j]
                    == c.push((t@, 1nat))[j] by {
                    if j < v0.len() {
                        assert(v@[j] == v0[j]);
                    }
                }
            }
        },
    }
}

/// Each distinct token of a text with its number of occurrences (the term
/// frequencies of one chunk), in order of first occurrence.
pub fn term_counts(tokens: &Vec<String>) -> (r: Vec<(String, u32)>)
    requires
        tokens@.len() < u32::MAX,
    ensures
        counts_view(r.deep_view()) == tally_from(seq![], tokens.deep_view()),
{
    let ghost tv = tokens.deep_view();
    let mut out: Vec<(String, u32)> = Vec::new();
    let mut i: usize = 0;
    assert(counts_view(out.deep_view()) =~= tally_from(seq![], tv.take(0)));
    while i < tokens.len()
        invariant
            i <= tokens@.len() < u32::MAX,
            tv == tokens.deep_view(),
            counts_view(out.deep_view()) == tally_from(seq![], tv.take(i as int)),
        decreases tokens@.len() - i,
    {
        assert(tv.take(i + 1).drop_last() == tv.take(i as int));
        assert(tv.take(i + 1).last() == tokens@[i as int]@);
        proof {
            let t = tokens@[i as int]@;
            lemma_tally_count(seq![], tv.take(i as int), t);
            lemma_occurrences_len(tv.take(i as int), t);
            assert(count_of(seq![], t) == 0) by {
                lemma_count_index(seq![], t);
            }
        }
        bump_term(&mut out, tokens[i].as_str());
        i += 1;
    }
    assert(tv.take(tv.len() as int) == tv);
    out
}

/// The terms of a table, in order.
pub open spec fn terms_of(doc: Seq<(Seq<char>, u32)>) -> Seq<Seq<char>> {
    doc.map_values(|p: (Seq<char>, u32)| p.0)
}

/// Counts one more document for each term of `doc`, a table of one
/// document's term frequencies (each term listed once): the document
/// frequencies.
pub fn add_document(df: &mut Vec<(String, u32)>, doc: &Vec<(String, u32)>)
    requires
        forall|a: int, b: int| 0 <= a < b < doc@.len() ==> doc@[a].0@ != doc@[b].0@,
        forall|k: int| 0 <= k < old(df)@.len() ==> #[trigger] old(df)@[k].1 < u32::MAX,
    ensures
        counts_view(final(df).deep_view()) == tally_from(counts_view(old(df).deep_view()), terms_of(doc.deep_view())),
{
    let ghost keys = terms_of(doc.deep_view());
    let ghost start = counts_view(df.deep_view());
    let mut i: usize = 0;
    assert(keys.take(0) =~= Seq::<Seq<char>>::empty());
    while i < doc.len()
        invariant
            i <= doc@.len() == keys.len(),
            keys == terms_of(doc.deep_view()),
            forall|a: int, b: int| 0 <= a < b < doc@.len() ==> doc@[a].0@ != doc@[b].0@,
            forall|k: int| 0 <= k < start.len() ==> #[trigger] start[k].1 < u32::MAX,
            counts_view(df.deep_view()) == tally_from(start, keys.take(i as int)),
        decreases doc@.len() - i,
    {
        assert(keys.take(i + 1).drop_last() == keys.take(i as int));
        assert(keys[i as int] == doc@[i as int].0@);
        assert(keys.take(i + 1).last() == keys[i as int]);
        proof {
            let t = keys[i as int];
            lemma_tally_count(start, keys.take(i as int), t);
            assert(occurrences(keys.take(i as int), t) == 0) by {
                lemma_no_occurrence(keys.take(i as int), t);
            }
            lemma_count_index(start, t);
        }
        bump_term(df, doc[i].0.as_str());
        i += 1;
    }
    assert(keys.take(keys.len() as int) == keys);
}

/// A term that no token equals occurs zero times.
proof fn lemma_no_occurrence(ts: Seq<Seq<char>>, u: Seq<char>)
    requires
        forall|j: int| 0 <= j < ts.len() ==> #[trigger] ts[j] != u,
    ensures
        occurrences(ts, u) == 0,
    decreases ts.len(),
{
    if ts.len() > 0 {
        lemma_no_occurrence(ts.drop_last(), u);
    }
}

/// No term is listed twice.
pub open spec fn distinct_terms(c: Counts) -> bool {
    forall|a: int, b: int| 0 <= a < b < c.len() ==> c[a].0 != c[b].0
}

/// The terms of a table of counts, in order.
pub open spec fn keys_of(c: Counts) -> Seq<Seq<char>> {
    c.map_values(|p: (Seq<char>, nat)| p.0)
}

/// The document frequencies of documents with term tables `docs`: for each
/// term, the number of documents it occurs in.
pub open spec fn doc_freqs(docs: Seq<Counts>) -> Counts
    decreases docs.len(),
{
    if docs.len() == 0 {
        seq![]
    } else {
        tally_from(doc_freqs(docs.drop_last()), keys_of(docs.last()))
    }
}

/// Counting one more token keeps the terms of a tally distinct.
proof fn lemma_bump_distinct(c: Counts, t: Seq<char>)
    requires
        distinct_terms(c),
    ensures
        distinct_terms(bump(c, t)),
{
    lemma_count_index(c, t);
}

/// Counting a run of tokens keeps the terms of a tally distinct.
proof fn lemma_tally_distinct(c: Counts, ts: Seq<Seq<char>>)
    requires
        distinct_terms(c),
    ensures
        distinct_terms(tally_from(c, ts)),
    decreases ts.len(),
{
    if ts.len() > 0 {
        lemma_tally_distinct(c, ts.drop_last());
        lemma_bump_distinct(tally_from(c, ts.drop_last()), ts.last());
    }
}

/// In a tally with distinct terms, each entry's count is the count of its term.
proof fn lemma_entry_count(c: Counts, k: int)
    requires
        distinct_terms(c),
        0 <= k < c.len(),
    ensures
        count_of(c, c[k].0) == c[k].1,
{
    lemma_count_index(c, c[k].0);
}

/// A term listed once in `ts` or not at all.
proof fn lemma_occurrences_distinct(ts: Seq<Seq<char>>, u: Seq<char>)
    requires
        forall|a: int, b: int| 0 <= a < b < ts.len() ==> ts[a] != ts[b],
    ensures
        occurrences(ts, u) <= 1,
    decreases ts.len(),
{
    if ts.len() > 0 {
        lemma_occurrences_distinct(ts.drop_last(), u);
        if ts.last() == u {
            lemma_no_occurrence(ts.drop_last(), u);
        }
    }
}

/// Tokens, each with at least one character of its own, are no more than
/// the characters.
proof fn lemma_fold_count(s: Seq<char>)
    ensures
        tok_fold(s).out.len() + (if tok_fold(s).cur.len() > 0 {
            1int
        } else {
            0int
        }) <= s.len(),
    decreases s.len(),
{
    if s.len() > 0 {
        lemma_fold_count(s.drop_last());
    }
}

/// A text has at most as many tokens as characters.
pub proof fn lemma_tokens_len(s: Seq<char>)
    ensures
        tokens(s).len() <= s.len(),
{
    lemma_fold_count(s);
    let f = flush_state(tok_fold(s));
    f.out.lemma_filter_len(|t: Seq<char>| keep_token(t));
}

/// The integer statistics of BM25 over documents with texts `texts`: each
/// document's term frequencies (its tokens counted, in order of first
/// occurrence), the document frequency of every term, and each document's
/// length in tokens.
pub fn term_statistics(texts: &Vec<String>) -> (r: (Vec<Vec<(String, u32)>>, Vec<(String, u32)>, Vec<usize>))
    requires
        texts@.len() < u32::MAX,
        forall|k: int| 0 <= k < texts@.len() ==> #[trigger] texts@[k]@.len() < u32::MAX,
    ensures
        r.0@.len() == texts@.len(),
        r.2@.len() == texts@.len(),
        forall|k: int| 0 <= k < texts@.len() ==> counts_view(#[trigger] r.0@[k].deep_view()) == tally_from(
            seq![],
            tokens(texts@[k]@),
        ),
        forall|k: int| 0 <= k < texts@.len() ==> #[trigger] r.2@[k] == tokens(texts@[k]@).len(),
        counts_view(r.1.deep_view()) == doc_freqs(
            Seq::new(texts@.len(), |k: int| tally_from(seq![], tokens(texts@[k]@))),
        ),
{
    let ghost docs = Seq::new(texts@.len(), |k: int| tally_from(seq![], tokens(texts@[k]@)));
    let mut tfs: Vec<Vec<(String, u32)>> = Vec::new();
    let mut df: Vec<(String, u32)> = Vec::new();
    let mut lengths: Vec<usize> = Vec::new();
    let mut i: usize = 0;
    assert(docs.take(0) =~= Seq::<Counts>::empty());
    while i < texts.len()
        invariant
            i <= texts@.len() < u32::MAX,
            forall|k: int| 0 <= k < texts@.len() ==> #[trigger] texts@[k]@.len() < u32::MAX,
            docs == Seq::new(texts@.len(), |k: int| tally_from(seq![], tokens(texts@[k]@))),
            tfs@.len() == i,
            lengths@.len() == i,
            forall|k: int| 0 <= k < i ==> counts_view(#[trigger] tfs@[k].deep_view()) == docs[k],
            forall|k: int| 0 <= k < i ==> #[trigger] lengths@[k] == tokens(texts@[k]@).len(),
            counts_view(df.deep_view()) == doc_freqs(docs.take(i as int)),
            distinct_terms(counts_view(df.deep_view())),
            forall|k: int| 0 <= k < df@.len() ==> #[trigger] df@[k].1 <= i,
        decreases texts@.len() - i,
    {
        let toks = tokenize(texts[i].as_str());
        proof {
            lemma_tokens_len(texts@[i as int]@);
        }
        let local = term_counts(&toks);
        let ghost lv = counts_view(local.deep_view());
        let ghost before = counts_view(df.deep_view());
        let ghost df_before = df@;
        proof {
            lemma_tally_distinct(seq![], toks.deep_view());
            assert forall|a: int, b: int| 0 <= a < b < local@.len() implies local@[a].0@ != local@[b].0@ by {
                assert(lv[a].0 == local@[a].0@);
                assert(lv[b].0 == local@[b].0@);
            }
            assert forall|k: int| 0 <= k < df@.len() implies #[trigger] df@[k].1 < u32::MAX by {}
        }
        add_document(&mut df, &local);
        proof {
            assert(terms_of(local.deep_view()) =~= keys_of(lv));
            assert(docs.take(i + 1).drop_last() =~= docs.take(i as int));
            assert(docs.take(i + 1).last() == lv);
            lemma_tally_distinct(before, keys_of(lv));
            let after = counts_view(df.deep_view());
            assert forall|k: int| 0 <= k < df@.len() implies #[trigger] df@[k].1 <= i + 1 by {
                let t = after[k].0;
                lemma_entry_count(after, k);
                lemma_tally_count(before, keys_of(lv), t);
                assert forall|a: int, b: int| 0 <= a < b < keys_of(lv).len() implies keys_of(lv)[a] != keys_of(lv)[b] by {
                    assert(keys_of(lv)[a] == local@[a].0@);
                    assert(keys_of(lv)[b] == local@[b].0@);
                }
                lemma_occurrences_distinct(keys_of(lv), t);
                lemma_count_index(before, t);
                if count_index(before, t) >= 0 {
                    let j = count_index(before, t);
                    assert(before[j].1 == df_before[j].1 as nat);
                    assert(df_before[j].1 <= i);
                }
                assert(after[k].1 == df@[k].1 as nat);
            }
        }
        lengths.push(toks.len());
        tfs.push(local);
        i += 1;
    }
    assert(docs.take(texts@.len() as int) =~= docs);
    (tfs, df, lengths)
}

/// How many of the documents list `t`.
pub open spec fn docs_with(docs: Seq<Counts>, t: Seq<char>) -> nat
    decreases docs.len(),
{
    if docs.len() == 0 {
        0
    } else {
        docs_with(docs.drop_last(), t) + if count_index(docs.last(), t) >= 0 {
            1nat
        } else {
            0nat
        }
    }
}

/// A term occurs once among the terms of a table that lists it, and not
/// at all otherwise.
proof fn lemma_key_occurrences(c: Counts, t: Seq<char>)
    requires
        distinct_terms(c),
    ensures
        occurrences(keys_of(c), t) == if count_index(c, t) >= 0 {
            1nat
        } else {
            0nat
        },
    decreases c.len(),
{
    lemma_count_index(c, t);
    let ks = keys_of(c);
    assert forall|a: int, b: int| 0 <= a < b < ks.len() implies ks[a] != ks[b] by {}
    lemma_occurrences_distinct(ks, t);
    if count_index(c, t) >= 0 {
        let k = count_index(c, t);
        if occurrences(ks, t) == 0 {
            lemma_occurs_somewhere(ks, t, k);
        }
    } else {
        assert forall|j: int| 0 <= j < ks.len() implies #[trigger] ks[j] != t by {}
        lemma_no_occurrence(ks, t);
    }
}

/// A term that stands at some position occurs at least once.
proof fn lemma_occurs_somewhere(ts: Seq<Seq<char>>, t: Seq<char>, k: int)
    requires
        0 <= k < ts.len(),
        ts[k] == t,
    ensures
        occurrences(ts, t) >= 1,
    decreases ts.len(),
{
    if k < ts.len() - 1 {
        lemma_occurs_somewhere(ts.drop_last(), t, k);
    }
}

/// The document frequency of a term is the number of documents that hold
/// it, when each document lists each of its terms once.
pub proof fn lemma_doc_freq(docs: Seq<Counts>, t: Seq<char>)
    requires
        forall|k: int| 0 <= k < docs.len() ==> distinct_terms(#[trigger] docs[k]),
    ensures
        count_of(doc_freqs(docs), t) == docs_with(docs, t),
    decreases docs.len(),
{
    if docs.len() == 0 {
        lemma_count_index(seq![], t);
    } else {
        lemma_doc_freq(docs.drop_last(), t);
        lemma_tally_count(doc_freqs(docs.drop_last()), keys_of(docs.last()), t);
        lemma_key_occurrences(docs.last(), t);
    }
}

} // verus!
