//! Locating the first balanced JSON object in a model reply.
use vstd::prelude::*;

use crate::text::{from_chars, sub_chars, to_chars};

verus! {

/// Why no JSON object could be taken from a reply.
#[derive(Debug, PartialEq, Eq, Structural)]
pub enum JsonError {
    /// The reply holds no `{` at all.
    NoObject,
    /// A `{` opens an object that the reply never closes.
    Unterminated,
}

/// Scanner state: brace depth outside strings, whether inside a string
/// literal, and whether the previous string character was a backslash.
pub struct Scan {
    pub depth: int,
    pub in_str: bool,
    pub escape: bool,
}

/// One character of the scan. Braces only count outside string literals;
/// inside one, a backslash escapes the next character and an unescaped
/// quote ends it.
pub open spec fn scan_step(st: Scan, c: char) -> Scan {
    if st.in_str {
        if st.escape {
            Scan { escape: false, ..st }
        } else if c == '\\' {
            Scan { escape: true, ..st }
        } else if c == '"' {
            Scan { in_str: false, ..st }
        } else {
            st
        }
    } else if c == '"' {
        Scan { in_str: true, ..st }
    } else if c == '{' {
        Scan { depth: st.depth + 1, ..st }
    } else if c == '}' {
        Scan { depth: st.depth - 1, ..st }
    } else {
        st
    }
}

/// The scanner state after reading `s[start..start + n]`.
#[verifier::opaque]
pub open spec fn scan(s: Seq<char>, start: int, n: int) -> Scan
    decreases n,
{
    if n <= 0 {
        Scan { depth: 0, in_str: false, escape: false }
    } else {
        scan_step(scan(s, start, n - 1), s[start + n - 1])
    }
}

/// `s` holds a `{`.
pub open spec fn has_brace(s: Seq<char>) -> bool {
    exists|i: int| 0 <= i < s.len() && s[i] == '{'
}

/// Position of the first `{` in `s` (meaningful when `has_brace(s)`).
pub open spec fn first_brace(s: Seq<char>) -> int {
    choose|i: int| 0 <= i < s.len() && s[i] == '{' && forall|j: int| 0 <= j < i ==> s[j] != '{'
}

/// Whether the object that starts at `start` is closed somewhere.
pub open spec fn has_close(s: Seq<char>, start: int) -> bool {
    exists|i: int| #[trigger] closes_at(s, start, i)
}

/// The first position at which the object that starts at `start` closes.
pub open spec fn first_close(s: Seq<char>, start: int) -> int {
    choose|i: int| #[trigger] closes_at(s, start, i) && forall|j: int|
        start <= j < i ==> !closes_at(s, start, j)
}

/// `s[start..=i]` is a balanced object: reading it brings the depth back to 0.
#[verifier::opaque]
pub open spec fn closes_at(s: Seq<char>, start: int, i: int) -> bool {
    start <= i < s.len() && scan(s, start, i - start + 1).depth == 0
}

/// The object that a reply holds: from its first `{` up to and including
/// the first `}` at which the braces outside string literals balance.
pub open spec fn json_object(s: Seq<char>) -> Result<Seq<char>, JsonError> {
    if !has_brace(s) {
        Err(JsonError::NoObject)
    } else if !has_close(s, first_brace(s)) {
        Err(JsonError::Unterminated)
    } else {
        Ok(s.subrange(first_brace(s), first_close(s, first_brace(s)) + 1))
    }
}

/// The scanner state after `k` characters is one step from the state after `k - 1`.
proof fn lemma_scan_next(s: Seq<char>, start: int, k: int)
    requires
        k >= 1,
    ensures
        scan(s, start, k) == scan_step(scan(s, start, k - 1), s[start + k - 1]),
{
    reveal(scan);
}

/// Before any character the scanner is at depth zero, outside a string.
proof fn lemma_scan_empty(s: Seq<char>, start: int)
    ensures
        scan(s, start, 0) == (Scan { depth: 0, in_str: false, escape: false }),
{
    reveal(scan);
}

/// A closing position lies within the text, at or after the opening brace.
proof fn lemma_closes_bounds(s: Seq<char>, start: int, e: int)
    ensures
        closes_at(s, start, e) ==> start <= e < s.len(),
{
    reveal(closes_at);
}

/// The first closing position after the first `{` gives the extracted object.
proof fn lemma_found(s: Seq<char>, start: int, i: int)
    requires
        has_brace(s),
        first_brace(s) == start,
        closes_at(s, start, i),
        forall|j: int| start <= j < i ==> !#[trigger] closes_at(s, start, j),
    ensures
        json_object(s) == Ok::<Seq<char>, JsonError>(s.subrange(start, i + 1)),
{
    assert(exists|e: int| #[trigger] closes_at(s, start, e) && forall|j: int|
        start <= j < e ==> !closes_at(s, start, j));
    let end = choose|e: int| #[trigger] closes_at(s, start, e) && forall|j: int|
        start <= j < e ==> !closes_at(s, start, j);
    lemma_closes_bounds(s, start, end);
    lemma_closes_bounds(s, start, i);
    assert(end == i) by {
        if end < i {
            assert(!closes_at(s, start, end));
        } else if end > i {
            assert(!closes_at(s, start, i));
        }
    }
    assert(exists|e: int| closes_at(s, start, e));
    assert(s.subrange(start, end + 1) == s.subrange(start, i + 1));
    assert(exists|e: int| closes_at(s, start, e));
    let r = json_object(s);
    assert(r == Ok::<Seq<char>, JsonError>(s.subrange(start, end + 1)));
}

/// One scanner step on machine values.
fn advance(depth: usize, in_str: bool, escape: bool, b: char) -> (r: (usize, bool, bool))
    requires
        in_str || b != '}' || depth >= 1,
        depth < usize::MAX,
    ensures
        scan_step(Scan { depth: depth as int, in_str, escape }, b) == (Scan {
            depth: r.0 as int,
            in_str: r.1,
            escape: r.2,
        }),
        r.0 <= depth + 1,
        !in_str && b == '{' ==> r.0 == depth + 1,
{
    if in_str {
        if escape {
            (depth, true, false)
        } else if b == '\\' {
            (depth, true, true)
        } else if b == '"' {
            (depth, false, false)
        } else {
            (depth, true, escape)
        }
    } else if b == '"' {
        (depth, true, escape)
    } else if b == '{' {
        (depth + 1, false, escape)
    } else if b == '}' {
        (depth - 1, false, escape)
    } else {
        (depth, false, escape)
    }
}

#[verifier::rlimit(60)]
/// Takes the first `{...}` block out of a reply, tracking string literals so
/// that braces inside strings do not count.
pub fn extract_object(s: &str) -> (r: Result<String, JsonError>)
    ensures
        match json_object(s@) {
            Ok(obj) => r matches Ok(t) && t@ == obj,
            Err(e) => r matches Err(e2) && e2 == e,
        },
{
    let cs = to_chars(s);
    let n = cs.len();
    let mut start: usize = 0;
    while start < n && cs[start] != '{'
        invariant
            n == cs@.len(),
            start <= n,
            forall|j: int| 0 <= j < start ==> cs@[j] != '{',
        decreases n - start,
    {
        start += 1;
    }
    if start == n {
        assert(!has_brace(s@));
        return Err(JsonError::NoObject);
    }
    proof {
        let f = first_brace(s@);
        assert(cs@[start as int] == '{');
        let c = choose|i: int| 0 <= i < s@.len() && s@[i] == '{' && forall|j: int| 0 <= j < i ==> s@[j] != '{';
        assert(c == start as int) by {
            if c < start {
            } else if c > start {
                assert(s@[start as int] != '{');
            }
        }
        assert(has_brace(s@));
        assert(f == start as int);
    }
    let mut depth: usize = 0;
    let mut in_str = false;
    let mut escape = false;
    let mut i = start;
    proof {
        lemma_scan_empty(s@, start as int);
    }
    while i < n
        invariant
            n == cs@.len(),
            cs@ == s@,
            start <= i <= n,
            cs@[start as int] == '{',
            has_brace(s@),
            first_brace(s@) == start as int,
            scan(s@, start as int, i - start) == (Scan { depth: depth as int, in_str, escape }),
            depth <= i - start,
            i > start ==> depth >= 1,
            forall|j: int| start <= j < i ==> !#[trigger] closes_at(s@, start as int, j),
        decreases n - i,
    {
        let b = cs[i];
        proof {
            lemma_scan_next(s@, start as int, i - start + 1);
        }
        let (d2, s2, e2) = advance(depth, in_str, escape, b);
        depth = d2;
        in_str = s2;
        escape = e2;
        assert(scan(s@, start as int, i + 1 - start) == (Scan { depth: depth as int, in_str, escape }));
        if depth == 0 {
            assert(closes_at(s@, start as int, i as int)) by {
                reveal(closes_at);
            }
            let obj = sub_chars(&cs, start, i + 1);
            proof {
                lemma_found(s@, start as int, i as int);
            }
            return Ok(from_chars(&obj));
        }
        assert(!closes_at(s@, start as int, i as int)) by {
            reveal(closes_at);
        }
        i += 1;
    }
    assert(!exists|e: int| closes_at(s@, start as int, e)) by {
        reveal(closes_at);
    }
    Err(JsonError::Unterminated)
}

/// A text that holds a `{` has a first one.
proof fn lemma_min_brace(s: Seq<char>, i: int)
    requires
        0 <= i < s.len(),
        s[i] == '{',
    ensures
        exists|m: int| 0 <= m < s.len() && s[m] == '{' && forall|j: int| 0 <= j < m ==> s[j] != '{',
    decreases i,
{
    if exists|j: int| 0 <= j < i && s[j] == '{' {
        let j = choose|j: int| 0 <= j < i && s[j] == '{';
        lemma_min_brace(s, j);
    }
}

/// An object that closes somewhere has a first closing position.
proof fn lemma_min_close(s: Seq<char>, start: int, i: int)
    requires
        closes_at(s, start, i),
    ensures
        exists|m: int| #[trigger] closes_at(s, start, m) && forall|j: int| start <= j < m ==> !closes_at(s, start, j),
    decreases i - start,
{
    lemma_closes_bounds(s, start, i);
    if exists|j: int| start <= j < i && #[trigger] closes_at(s, start, j) {
        let j = choose|j: int| start <= j < i && #[trigger] closes_at(s, start, j);
        lemma_min_close(s, start, j);
    }
}

/// Before the object closes, the scan is at least one level deep.
proof fn lemma_open_prefix(s: Seq<char>, start: int, i: int, n: int)
    requires
        0 <= start < s.len(),
        s[start] == '{',
        start <= i < s.len(),
        forall|j: int| start <= j < i ==> !#[trigger] closes_at(s, start, j),
        1 <= n <= i - start,
    ensures
        scan(s, start, n).depth >= 1,
    decreases n,
{
    lemma_scan_next(s, start, n);
    if n == 1 {
        lemma_scan_empty(s, start);
    } else {
        lemma_open_prefix(s, start, i, n - 1);
        reveal(closes_at);
        assert(!closes_at(s, start, start + n - 1));
    }
}

/// `first_brace` points at a `{` inside the text.
proof fn lemma_start_is_brace(s: Seq<char>)
    requires
        has_brace(s),
    ensures
        0 <= first_brace(s) < s.len(),
        s[first_brace(s)] == '{',
{
    let w = choose|i: int| 0 <= i < s.len() && s[i] == '{';
    lemma_min_brace(s, w);
}

/// `first_close` closes the object, and no earlier position does.
proof fn lemma_first_close_props(s: Seq<char>, start: int)
    requires
        has_close(s, start),
    ensures
        closes_at(s, start, first_close(s, start)),
        forall|j: int| start <= j < first_close(s, start) ==> !#[trigger] closes_at(s, start, j),
{
    let c = choose|i: int| #[trigger] closes_at(s, start, i);
    lemma_min_close(s, start, c);
}

/// The first closing position comes after the opening brace and holds a `}`.
proof fn lemma_close_is_brace(s: Seq<char>, start: int, i: int)
    requires
        0 <= start < s.len(),
        s[start] == '{',
        closes_at(s, start, i),
        forall|j: int| start <= j < i ==> !#[trigger] closes_at(s, start, j),
    ensures
        start < i < s.len(),
        s[i] == '}',
{
    lemma_closes_bounds(s, start, i);
    let n = i - start + 1;
    assert(scan(s, start, n).depth == 0) by {
        reveal(closes_at);
    }
    lemma_scan_next(s, start, n);
    if n == 1 {
        lemma_scan_empty(s, start);
    } else {
        lemma_open_prefix(s, start, i, n - 1);
    }
}

/// The object taken from a reply is a piece of the reply that opens with
/// `{` and closes with `}`.
pub proof fn lemma_object_braced(s: Seq<char>)
    requires
        json_object(s) is Ok,
    ensures
        json_object(s)->Ok_0.len() >= 2,
        json_object(s)->Ok_0[0] == '{',
        json_object(s)->Ok_0.last() == '}',
        exists|a: int, b: int| 0 <= a < b <= s.len() && json_object(s)->Ok_0 == s.subrange(a, b),
{
    lemma_start_is_brace(s);
    let start = first_brace(s);
    lemma_first_close_props(s, start);
    let i = first_close(s, start);
    lemma_close_is_brace(s, start, i);
    let obj = s.subrange(start, i + 1);
    assert(json_object(s)->Ok_0 == obj);
    assert(obj[0] == s[start]);
    assert(obj.last() == s[i]);
}

/// Scanning a piece of the text from its start is scanning the text from
/// where the piece begins.
proof fn lemma_scan_shift(s: Seq<char>, start: int, obj: Seq<char>, n: int)
    requires
        0 <= start,
        start + obj.len() <= s.len(),
        obj == s.subrange(start, start + obj.len()),
        0 <= n <= obj.len(),
    ensures
        scan(obj, 0, n) == scan(s, start, n),
    decreases n,
{
    if n > 0 {
        lemma_scan_shift(s, start, obj, n - 1);
        lemma_scan_next(obj, 0, n);
        lemma_scan_next(s, start, n);
        assert(obj[n - 1] == s[start + n - 1]);
    } else {
        lemma_scan_empty(obj, 0);
        lemma_scan_empty(s, start);
    }
}

/// A text that begins with `{` has its first `{` at 0.
proof fn lemma_first_brace_zero(obj: Seq<char>)
    requires
        obj.len() > 0,
        obj[0] == '{',
    ensures
        has_brace(obj),
        first_brace(obj) == 0,
{
    assert(has_brace(obj));
    let f = first_brace(obj);
    assert(0 <= f < obj.len() && obj[f] == '{' && forall|j: int| 0 <= j < f ==> obj[j] != '{');
    if f != 0 {
        assert(obj[0] != '{');
    }
}

/// An object closing first at `i` balances, read on its own, at its last
/// character and nowhere before.
proof fn lemma_piece_balance(s: Seq<char>, start: int, i: int)
    requires
        0 <= start < s.len(),
        s[start] == '{',
        closes_at(s, start, i),
        forall|j: int| start <= j < i ==> !#[trigger] closes_at(s, start, j),
    ensures
        closes_at(s.subrange(start, i + 1), 0, i - start),
        forall|j: int| 0 <= j < i - start ==> !#[trigger] closes_at(s.subrange(start, i + 1), 0, j),
{
    lemma_close_is_brace(s, start, i);
    let obj = s.subrange(start, i + 1);
    assert(obj == s.subrange(start, start + obj.len()));
    lemma_scan_shift(s, start, obj, obj.len() as int);
    reveal(closes_at);
    assert forall|j: int| 0 <= j < i - start implies !#[trigger] closes_at(obj, 0, j) by {
        lemma_scan_shift(s, start, obj, j + 1);
        assert(!closes_at(s, start, start + j));
    }
}

/// The extracted object balances its braces (outside string literals) at
/// its last character and at no earlier one, and extracting an object from
/// it gives it back unchanged.
#[verifier::spinoff_prover]
#[verifier::rlimit(80)]
pub proof fn lemma_object_fixed(s: Seq<char>, obj: Seq<char>)
    requires
        json_object(s) == Ok::<Seq<char>, JsonError>(obj),
    ensures
        closes_at(obj, 0, obj.len() - 1),
        forall|j: int| 0 <= j < obj.len() - 1 ==> !#[trigger] closes_at(obj, 0, j),
        json_object(obj) == Ok::<Seq<char>, JsonError>(obj),
{
    lemma_start_is_brace(s);
    let start = first_brace(s);
    assert(has_close(s, start));
    lemma_first_close_props(s, start);
    let i = first_close(s, start);
    lemma_close_is_brace(s, start, i);
    assert(obj == s.subrange(start, i + 1));
    lemma_piece_balance(s, start, i);
    lemma_first_brace_zero(obj);
    lemma_found(obj, 0, obj.len() - 1);
    assert(obj.subrange(0, obj.len() as int) == obj);
}

} // verus!
