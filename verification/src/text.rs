//! Character-sequence model of text, and the small text operations that the
//! rest of the library is built from. Every string is reasoned about through
//! its view, a `Seq<char>`.
use vstd::prelude::*;

verus! {

broadcast use vstd::string::group_string_axioms;

/// A character vector's deep view is its view.
pub broadcast proof fn lemma_chars_deep_view(v: Vec<char>)
    ensures
        #[trigger] v.deep_view() == v@,
{
    assert(v.deep_view() =~= v@);
}

/// Appends one character to a string (`String::push`).
#[verifier::external_body]
pub(crate) fn push_char(s: &mut String, c: char)
    ensures
        final(s)@ == old(s)@.push(c),
{
    s.push(c);
}

/// Appends a string slice to a string (`String::push_str`).
#[verifier::external_body]
pub(crate) fn push_str(s: &mut String, t: &str)
    ensures
        final(s)@ == old(s)@ + t@,
{
    s.push_str(t);
}

/// The characters of a string slice, in order.
pub fn to_chars(s: &str) -> (r: Vec<char>)
    ensures
        r@ == s@,
{
    let mut out: Vec<char> = Vec::new();
    for c in it: s.chars()
        invariant
            out@ == it.seq().take(it.index()),
            it.seq() == s@,
    {
        out.push(c);
    }
    out
}

/// A string holding exactly the given characters.
pub fn from_chars(v: &[char]) -> (r: String)
    ensures
        r@ == v@,
{
    let mut out = String::new();
    let mut i: usize = 0;
    while i < v.len()
        invariant
            i <= v@.len(),
            out@ == v@.take(i as int),
        decreases v@.len() - i,
    {
        push_char(&mut out, v[i]);
        i += 1;
        assert(out@ == v@.take(i as int));
    }
    assert(v@.take(v@.len() as int) == v@);
    out
}

/// An owned copy of a string slice.
pub fn owned(s: &str) -> (r: String)
    ensures
        r@ == s@,
{
    s.to_owned()
}

/// Appends the characters of `v` to `s`.
pub fn push_chars(s: &mut String, v: &[char])
    ensures
        final(s)@ == old(s)@ + v@,
{
    let mut i: usize = 0;
    while i < v.len()
        invariant
            i <= v@.len(),
            s@ == old(s)@ + v@.take(i as int),
        decreases v@.len() - i,
    {
        push_char(s, v[i]);
        i += 1;
        assert(s@ == old(s)@ + v@.take(i as int));
    }
    assert(v@.take(v@.len() as int) == v@);
}

/// The characters `v[from..to]` as a new vector.
pub fn sub_chars(v: &[char], from: usize, to: usize) -> (r: Vec<char>)
    requires
        from <= to <= v@.len(),
    ensures
        r@ == v@.subrange(from as int, to as int),
{
    let mut out: Vec<char> = Vec::new();
    let mut i = from;
    while i < to
        invariant
            from <= i <= to <= v@.len(),
            out@ == v@.subrange(from as int, i as int),
        decreases to - i,
    {
        out.push(v[i]);
        i += 1;
        assert(out@ == v@.subrange(from as int, i as int));
    }
    out
}

/// Whether two character sequences are equal.
pub fn chars_eq(a: &[char], b: &[char]) -> (r: bool)
    ensures
        r == (a@ == b@),
{
    if a.len() != b.len() {
        return false;
    }
    let mut i: usize = 0;
    while i < a.len()
        invariant
            i <= a@.len() == b@.len(),
            a@.take(i as int) == b@.take(i as int),
        decreases a@.len() - i,
    {
        if a[i] != b[i] {
            assert(a@[i as int] != b@[i as int]);
            return false;
        }
        i += 1;
        assert(a@.take(i as int) == b@.take(i as int));
    }
    assert(a@ == a@.take(a@.len() as int));
    assert(b@ == b@.take(b@.len() as int));
    true
}

/// `s` begins with `p`.
pub open spec fn starts_with(s: Seq<char>, p: Seq<char>) -> bool {
    p.len() <= s.len() && s.take(p.len() as int) == p
}

/// `s` ends with `p`.
pub open spec fn ends_with(s: Seq<char>, p: Seq<char>) -> bool {
    p.len() <= s.len() && s.skip(s.len() - p.len()) == p
}

/// Whether `s` begins with the characters of `p`.
pub fn has_prefix(s: &[char], p: &str) -> (r: bool)
    ensures
        r == starts_with(s@, p@),
{
    let pc = to_chars(p);
    if pc.len() > s.len() {
        return false;
    }
    let head = sub_chars(s, 0, pc.len());
    chars_eq(&head, &pc)
}

/// Whether `s` ends with the characters of `p`.
pub fn has_suffix(s: &[char], p: &str) -> (r: bool)
    ensures
        r == ends_with(s@, p@),
{
    let pc = to_chars(p);
    if pc.len() > s.len() {
        return false;
    }
    let tail = sub_chars(s, s.len() - pc.len(), s.len());
    chars_eq(&tail, &pc)
}

/// Whether `s` holds exactly the characters of `p`.
pub fn is_str(s: &[char], p: &str) -> (r: bool)
    ensures
        r == (s@ == p@),
{
    let pc = to_chars(p);
    chars_eq(s, &pc)
}

/// `hay[i..]` starts with `needle`.
pub open spec fn occurs_at(hay: Seq<char>, needle: Seq<char>, i: int) -> bool {
    0 <= i <= hay.len() && starts_with(hay.skip(i), needle)
}

/// The first position of `needle` in `hay` (`str::find`), or -1.
#[verifier::opaque]
pub open spec fn find(hay: Seq<char>, needle: Seq<char>) -> int {
    if exists|i: int| #[trigger] occurs_at(hay, needle, i) {
        choose|i: int| #[trigger] occurs_at(hay, needle, i) && forall|j: int|
            0 <= j < i ==> !occurs_at(hay, needle, j)
    } else {
        -1
    }
}

/// The first position found holds the needle, which fits there.
pub proof fn lemma_find(hay: Seq<char>, needle: Seq<char>)
    ensures
        find(hay, needle) >= 0 ==> occurs_at(hay, needle, find(hay, needle)),
        find(hay, needle) >= 0 ==> find(hay, needle) + needle.len() <= hay.len(),
        find(hay, needle) >= -1,
{
    reveal(find);
    if exists|i: int| #[trigger] occurs_at(hay, needle, i) {
        let i = choose|i: int| #[trigger] occurs_at(hay, needle, i);
        let j = find(hay, needle);
        assert(occurs_at(hay, needle, j)) by {
            lemma_first_occurrence(hay, needle, i);
        }
    }
}

/// When the needle occurs somewhere, there is a first position where it
/// occurs.
proof fn lemma_first_occurrence(hay: Seq<char>, needle: Seq<char>, i: int)
    requires
        occurs_at(hay, needle, i),
    ensures
        exists|k: int| #[trigger] occurs_at(hay, needle, k) && forall|j: int| 0 <= j < k ==> !occurs_at(hay, needle, j),
    decreases i,
{
    if exists|j: int| 0 <= j < i && occurs_at(hay, needle, j) {
        let j = choose|j: int| 0 <= j < i && occurs_at(hay, needle, j);
        lemma_first_occurrence(hay, needle, j);
    } else {
        assert(forall|j: int| 0 <= j < i ==> !occurs_at(hay, needle, j));
    }
}

/// `hay` holds `needle` somewhere (`str::contains`).
pub open spec fn contains(hay: Seq<char>, needle: Seq<char>) -> bool {
    exists|i: int| #[trigger] occurs_at(hay, needle, i)
}

/// Whether `s` begins with the characters of `p`.
pub fn has_prefix_chars(s: &[char], p: &[char]) -> (r: bool)
    ensures
        r == starts_with(s@, p@),
{
    if p.len() > s.len() {
        return false;
    }
    let head = sub_chars(s, 0, p.len());
    chars_eq(&head, p)
}

/// The first position of `needle` in `hay`, or `None` (`str::find`).
pub fn find_seq(hay: &[char], needle: &[char]) -> (r: Option<usize>)
    ensures
        r is None <==> find(hay@, needle@) == -1,
        r is None <==> !contains(hay@, needle@),
        r matches Some(i) ==> i == find(hay@, needle@) && i <= hay@.len(),
{
    reveal(find);
    let mut i: usize = 0;
    loop
        invariant
            i <= hay@.len(),
            forall|j: int| 0 <= j < i ==> !#[trigger] occurs_at(hay@, needle@, j),
        ensures
            forall|j: int| 0 <= j <= hay@.len() ==> !#[trigger] occurs_at(hay@, needle@, j),
        decreases hay@.len() - i,
    {
        let rest = sub_chars(hay, i, hay.len());
        assert(rest@ == hay@.skip(i as int));
        if has_prefix_chars(&rest, needle) {
            assert(occurs_at(hay@, needle@, i as int));
            proof {
                reveal(find);
                let c = choose|k: int| #[trigger] occurs_at(hay@, needle@, k) && forall|j: int|
                    0 <= j < k ==> !occurs_at(hay@, needle@, j);
                assert(c == i as int) by {
                    if c < i {
                    } else if c > i {
                        assert(!occurs_at(hay@, needle@, i as int));
                    }
                }
            }
            return Some(i);
        }
        if i == hay.len() {
            assert(forall|j: int| 0 <= j <= i ==> !#[trigger] occurs_at(hay@, needle@, j));
            break;
        }
        i += 1;
    }
    assert(!exists|j: int| #[trigger] occurs_at(hay@, needle@, j));
    None
}

/// Whether two strings are equal.
pub fn str_eq(a: &str, b: &str) -> (r: bool)
    ensures
        r == (a@ == b@),
{
    let ac = to_chars(a);
    let bc = to_chars(b);
    chars_eq(&ac, &bc)
}

// ---------------------------------------------------------------------
// Character classes
// ---------------------------------------------------------------------

/// The Unicode `White_Space` property, the class that `char::is_whitespace`,
/// `str::trim` and `str::split_whitespace` go by.
pub open spec fn is_ws(c: char) -> bool {
    let u = c as u32;
    (0x09 <= u && u <= 0x0D) || u == 0x20 || u == 0x85 || u == 0xA0 || u == 0x1680
        || (0x2000 <= u && u <= 0x200A) || u == 0x2028 || u == 0x2029 || u == 0x202F
        || u == 0x205F || u == 0x3000
}

/// Whether a character has the Unicode `White_Space` property.
pub fn is_whitespace(c: char) -> (r: bool)
    ensures
        r == is_ws(c),
{
    let u = c as u32;
    (0x09 <= u && u <= 0x0D) || u == 0x20 || u == 0x85 || u == 0xA0 || u == 0x1680 || (0x2000
        <= u && u <= 0x200A) || u == 0x2028 || u == 0x2029 || u == 0x202F || u == 0x205F || u
        == 0x3000
}

/// The result of `char::is_alphanumeric`: whether `c` is Unicode
/// alphabetic or numeric.
pub uninterp spec fn alphanumeric(c: char) -> bool;

/// `char::is_alphanumeric` (std): whether the character has the Unicode
/// `Alphabetic` property or a numeric general category (`Nd`, `Nl`, `No`).
/// Among ASCII characters those are exactly the letters and the digits;
/// beyond ASCII the Unicode tables are only named.
#[verifier::external_body]
pub(crate) fn is_alphanumeric(c: char) -> (r: bool)
    ensures
        r == alphanumeric(c),
        (c as u32) < 128 ==> (r <==> (is_ascii_upper(c) || is_ascii_lower(c) || ('0' <= c && c <= '9'))),
{
    c.is_alphanumeric()
}

pub open spec fn is_ascii_upper(c: char) -> bool {
    'A' <= c && c <= 'Z'
}

pub open spec fn is_ascii_lower(c: char) -> bool {
    'a' <= c && c <= 'z'
}

pub open spec fn is_ascii_digit(c: char) -> bool {
    '0' <= c && c <= '9'
}

/// `char::to_ascii_lowercase`: ASCII capitals map to small letters, every
/// other character to itself.
pub open spec fn lower(c: char) -> char {
    if is_ascii_upper(c) {
        ((c as u32) + 32) as char
    } else {
        c
    }
}

/// The ASCII lowercase form of a character.
pub fn ascii_lower(c: char) -> (r: char)
    ensures
        r == lower(c),
{
    if 'A' <= c && c <= 'Z' {
        let b = c as u8;
        let r = (b + 32) as char;
        assert(r == ((c as u32) + 32) as char);
        r
    } else {
        c
    }
}

/// `str::to_ascii_lowercase` on a character sequence.
pub open spec fn lower_seq(s: Seq<char>) -> Seq<char> {
    s.map_values(|c: char| lower(c))
}

/// The ASCII lowercase form of a character sequence.
pub fn ascii_lower_chars(s: &[char]) -> (r: Vec<char>)
    ensures
        r@ == lower_seq(s@),
{
    let mut out: Vec<char> = Vec::new();
    let mut i: usize = 0;
    while i < s.len()
        invariant
            i <= s@.len(),
            out@ == lower_seq(s@.take(i as int)),
        decreases s@.len() - i,
    {
        let c = ascii_lower(s[i]);
        out.push(c);
        i += 1;
        assert(out@ =~= lower_seq(s@.take(i as int)));
    }
    assert(s@.take(s@.len() as int) == s@);
    out
}

// ---------------------------------------------------------------------
// Trimming
// ---------------------------------------------------------------------

/// `s` without its leading whitespace.
pub open spec fn trim_start(s: Seq<char>) -> Seq<char>
    decreases s.len(),
{
    if s.len() > 0 && is_ws(s[0]) {
        trim_start(s.drop_first())
    } else {
        s
    }
}

/// `s` without its trailing whitespace.
pub open spec fn trim_end(s: Seq<char>) -> Seq<char>
    decreases s.len(),
{
    if s.len() > 0 && is_ws(s.last()) {
        trim_end(s.drop_last())
    } else {
        s
    }
}

/// `str::trim`: `s` without leading and trailing whitespace.
pub open spec fn trim(s: Seq<char>) -> Seq<char> {
    trim_end(trim_start(s))
}

/// Trimming the start drops exactly the leading whitespace, up to the first other character.
pub proof fn lemma_trim_start_at(s: Seq<char>, i: int)
    requires
        0 <= i <= s.len(),
        forall|k: int| 0 <= k < i ==> is_ws(#[trigger] s[k]),
        i == s.len() || !is_ws(s[i]),
    ensures
        trim_start(s) == s.skip(i),
    decreases i,
{
    if i == 0 {
        assert(s.skip(0) == s);
    } else {
        let t = s.drop_first();
        assert forall|k: int| 0 <= k < i - 1 implies is_ws(#[trigger] t[k]) by {
            assert(t[k] == s[k + 1]);
        }
        assert(i - 1 == t.len() || t[i - 1] == s[i]);
        lemma_trim_start_at(t, i - 1);
        assert(t.skip(i - 1) == s.skip(i));
    }
}

/// Trimming the end drops exactly the trailing whitespace, after the last other character.
pub proof fn lemma_trim_end_at(s: Seq<char>, j: int)
    requires
        0 <= j <= s.len(),
        forall|k: int| j <= k < s.len() ==> is_ws(#[trigger] s[k]),
        j == 0 || !is_ws(s[j - 1]),
    ensures
        trim_end(s) == s.take(j),
    decreases s.len() - j,
{
    if j == s.len() {
        assert(s.take(j) == s);
    } else {
        let t = s.drop_last();
        assert forall|k: int| j <= k < t.len() implies is_ws(#[trigger] t[k]) by {
            assert(t[k] == s[k]);
        }
        assert(j == 0 || t[j - 1] == s[j - 1]);
        lemma_trim_end_at(t, j);
        assert(t.take(j) == s.take(j));
    }
}

/// Index of the first non-whitespace character (or the length).
pub fn skip_ws_start(s: &[char]) -> (i: usize)
    ensures
        i <= s@.len(),
        trim_start(s@) == s@.skip(i as int),
        forall|k: int| 0 <= k < i ==> is_ws(#[trigger] s@[k]),
        i == s@.len() || !is_ws(s@[i as int]),
{
    let mut i: usize = 0;
    while i < s.len() && is_whitespace(s[i])
        invariant
            i <= s@.len(),
            forall|k: int| 0 <= k < i ==> is_ws(#[trigger] s@[k]),
        decreases s@.len() - i,
    {
        i += 1;
    }
    proof {
        lemma_trim_start_at(s@, i as int);
    }
    i
}

/// Index just past the last non-whitespace character (or 0).
pub fn skip_ws_end(s: &[char]) -> (j: usize)
    ensures
        j <= s@.len(),
        trim_end(s@) == s@.take(j as int),
        forall|k: int| j <= k < s@.len() ==> is_ws(#[trigger] s@[k]),
        j == 0 || !is_ws(s@[j - 1]),
{
    let mut j: usize = s.len();
    while j > 0 && is_whitespace(s[j - 1])
        invariant
            j <= s@.len(),
            forall|k: int| j <= k < s@.len() ==> is_ws(#[trigger] s@[k]),
        decreases j,
    {
        j -= 1;
    }
    proof {
        lemma_trim_end_at(s@, j as int);
    }
    j
}

/// `s` without leading whitespace.
pub fn trim_start_chars(s: &[char]) -> (r: Vec<char>)
    ensures
        r@ == trim_start(s@),
{
    let i = skip_ws_start(s);
    sub_chars(s, i, s.len())
}

/// `s` without trailing whitespace.
pub fn trim_end_chars(s: &[char]) -> (r: Vec<char>)
    ensures
        r@ == trim_end(s@),
{
    let j = skip_ws_end(s);
    sub_chars(s, 0, j)
}

/// `s` without leading and trailing whitespace.
pub fn trim_chars(s: &[char]) -> (r: Vec<char>)
    ensures
        r@ == trim(s@),
{
    let t = trim_start_chars(s);
    trim_end_chars(&t)
}

// ---------------------------------------------------------------------
// Lines
// ---------------------------------------------------------------------

/// Index of the first `'\n'` at or after `k`, or the length when there is none.
pub open spec fn next_nl(s: Seq<char>, k: int) -> int
    decreases s.len() - k,
{
    if k >= s.len() {
        s.len() as int
    } else if s[k] == '\n' {
        k
    } else {
        next_nl(s, k + 1)
    }
}

/// A line as `str::lines` yields it: the text up to the `'\n'`, with one
/// `'\r'` removed from its end when the line was ended by `"\r\n"`.
pub open spec fn line_text(s: Seq<char>, k: int, e: int) -> Seq<char> {
    if e < s.len() && e > k && s[e - 1] == '\r' {
        s.subrange(k, e - 1)
    } else {
        s.subrange(k, e)
    }
}

/// The lines of `s` that start at or after position `k`.
pub open spec fn lines_from(s: Seq<char>, k: int) -> Seq<Seq<char>>
    decreases s.len() - k,
{
    if k < 0 || k >= s.len() {
        seq![]
    } else {
        let e = next_nl(s, k);
        if e < k {
            seq![]
        } else if e >= s.len() {
            seq![line_text(s, k, e)]
        } else {
            seq![line_text(s, k, e)] + lines_from(s, e + 1)
        }
    }
}

/// `str::lines`: lines are ended by `"\n"` or `"\r\n"`; the last line
/// ending is optional, and a text with no characters has no lines.
pub open spec fn lines(s: Seq<char>) -> Seq<Seq<char>> {
    lines_from(s, 0)
}

/// `x` holds no newline.
pub open spec fn no_nl(x: Seq<char>) -> bool {
    forall|m: int| 0 <= m < x.len() ==> #[trigger] x[m] != '\n'
}

/// No line holds a newline.
pub proof fn lemma_lines_no_nl(s: Seq<char>, k: int)
    ensures
        forall|i: int| 0 <= i < lines_from(s, k).len() ==> #[trigger] no_nl(lines_from(s, k)[i]),
    decreases s.len() - k,
{
    if 0 <= k < s.len() {
        lemma_next_nl_bounds(s, k);
        let e = next_nl(s, k);
        let t = line_text(s, k, e);
        assert(no_nl(t)) by {
            assert forall|m: int| 0 <= m < t.len() implies #[trigger] t[m] != '\n' by {
                assert(t[m] == s[k + m]);
            }
        }
        if e < s.len() {
            lemma_lines_no_nl(s, e + 1);
            let r = lines_from(s, e + 1);
            assert forall|i: int| 0 <= i < lines_from(s, k).len() implies #[trigger] no_nl(lines_from(s, k)[i]) by {
                if i > 0 {
                    assert(lines_from(s, k)[i] == r[i - 1]);
                }
            }
        }
    }
}

/// The next newline in `x + y` at or after a position inside `y`.
proof fn lemma_next_nl_shift(x: Seq<char>, y: Seq<char>, k: int)
    requires
        0 <= k <= y.len(),
    ensures
        next_nl(x + y, x.len() + k) == x.len() + next_nl(y, k),
    decreases y.len() - k,
{
    if k < y.len() {
        assert((x + y)[x.len() + k] == y[k]);
        if y[k] != '\n' {
            lemma_next_nl_shift(x, y, k + 1);
        }
    }
}

/// The lines of `x + y` from a position inside `y` are those of `y`.
proof fn lemma_lines_shift(x: Seq<char>, y: Seq<char>, k: int)
    requires
        0 <= k,
    ensures
        lines_from(x + y, x.len() + k) == lines_from(y, k),
    decreases y.len() - k,
{
    let s = x + y;
    if k < y.len() {
        lemma_next_nl_shift(x, y, k);
        lemma_next_nl_bounds(y, k);
        let e = next_nl(y, k);
        assert(line_text(s, x.len() + k, x.len() + e) == line_text(y, k, e)) by {
            if e < y.len() && e > k {
                assert(s[x.len() + e - 1] == y[e - 1]);
            }
            assert(s.subrange(x.len() + k, x.len() + e) == y.subrange(k, e));
            if e > k {
                assert(s.subrange(x.len() + k, x.len() + e - 1) == y.subrange(k, e - 1));
            }
        }
        if e < y.len() {
            lemma_lines_shift(x, y, e + 1);
        }
    }
}

/// A line without its `'\r'` ending, as `str::lines` yields a line ended by
/// `"\r\n"`.
pub open spec fn strip_cr(x: Seq<char>) -> Seq<char> {
    if x.len() > 0 && x.last() == '\r' {
        x.drop_last()
    } else {
        x
    }
}

/// A line without newline followed by `"\n"` and more text is the first line.
proof fn lemma_lines_cons(x: Seq<char>, y: Seq<char>)
    requires
        no_nl(x),
    ensures
        lines(x + seq!['\n'] + y) == seq![strip_cr(x)] + lines(y),
{
    let s = x + seq!['\n'] + y;
    assert(s[x.len() as int] == '\n');
    assert forall|m: int| 0 <= m < x.len() implies s[m] != '\n' by {
        assert(s[m] == x[m]);
    }
    lemma_next_nl_at(s, 0, x.len() as int);
    let e = x.len() as int;
    assert(line_text(s, 0, e) == strip_cr(x)) by {
        if e > 0 {
            assert(s[e - 1] == x.last());
            assert(s.subrange(0, e - 1) == x.drop_last());
        }
        assert(s.subrange(0, e) == x);
    }
    lemma_lines_shift(x + seq!['\n'], y, 0);
    assert(s == (x + seq!['\n']) + y);
}

/// A text without newline is one line, or none when empty.
proof fn lemma_lines_single(x: Seq<char>)
    requires
        no_nl(x),
    ensures
        x.len() == 0 ==> lines(x) == Seq::<Seq<char>>::empty(),
        x.len() > 0 ==> lines(x) == seq![x],
{
    if x.len() > 0 {
        lemma_next_nl_at(x, 0, x.len() as int);
        assert(x.subrange(0, x.len() as int) == x);
    }
}

/// Joined strings split off their first one.
pub proof fn lemma_join_front(ws: Seq<Seq<char>>, sep: Seq<char>)
    requires
        ws.len() >= 2,
    ensures
        join_with(ws, sep) == ws[0] + sep + join_with(ws.drop_first(), sep),
    decreases ws.len(),
{
    if ws.len() == 2 {
        assert(ws.drop_first().len() == 1);
        assert(ws.drop_last().len() == 1);
        assert(join_with(ws.drop_last(), sep) == ws.drop_last()[0]);
        assert(ws.drop_last()[0] == ws[0]);
        assert(join_with(ws.drop_first(), sep) == ws.drop_first()[0]);
        assert(ws.drop_first()[0] == ws.last());
    } else {
        let d = ws.drop_last();
        lemma_join_front(d, sep);
        assert(d.drop_first() == ws.drop_first().drop_last());
        assert(ws.drop_first().last() == ws.last());
        assert(d[0] == ws[0]);
        assert(join_with(ws, sep) == join_with(d, sep) + sep + ws.last());
        assert(join_with(ws.drop_first(), sep) == join_with(ws.drop_first().drop_last(), sep) + sep + ws.last());
        assert(ws[0] + sep + join_with(d.drop_first(), sep) + sep + ws.last() == ws[0] + sep + (join_with(
            d.drop_first(),
            sep,
        ) + sep + ws.last()));
    }
}

/// A trailing whitespace character does not change what trimming keeps.
pub proof fn lemma_trim_drop_ws(x: Seq<char>)
    requires
        x.len() > 0,
        is_ws(x.last()),
    ensures
        trim(x.drop_last()) == trim(x),
    decreases x.len(),
{
    if is_ws(x[0]) {
        if x.len() == 1 {
            assert(x.drop_first() =~= Seq::<char>::empty());
            assert(x.drop_last() =~= Seq::<char>::empty());
            assert(trim_start(x) == trim_start(x.drop_first()));
            assert(trim(x) == trim(Seq::<char>::empty()));
        } else {
            let t = x.drop_first();
            assert(t.last() == x.last());
            lemma_trim_drop_ws(t);
            assert(x.drop_last()[0] == x[0]);
            assert(x.drop_last().drop_first() == t.drop_last());
            assert(trim_start(x) == trim_start(t));
            assert(trim_start(x.drop_last()) == trim_start(t.drop_last()));
        }
    } else {
        assert(x.len() >= 2);
        assert(x.drop_last()[0] == x[0]);
        assert(trim_start(x) == x);
        assert(trim_start(x.drop_last()) == x.drop_last());
        assert(trim_end(x) == trim_end(x.drop_last()));
    }
}

/// `m` are the lines `ls` as far as trimmed lines go: line by line equal
/// once trimmed, save that a last line of `ls` that is blank may be missing.
pub open spec fn trim_same(ls: Seq<Seq<char>>, m: Seq<Seq<char>>) -> bool {
    &&& m.len() <= ls.len() <= m.len() + 1
    &&& forall|k: int| 0 <= k < m.len() ==> #[trigger] trim(m[k]) == trim(ls[k])
    &&& ls.len() == m.len() + 1 ==> trim(ls.last()).len() == 0
}

/// Splitting lines joined with `"\n"` gives them back, as far as trimmed
/// lines go.
pub proof fn lemma_lines_of_join(ls: Seq<Seq<char>>)
    requires
        forall|i: int| 0 <= i < ls.len() ==> #[trigger] no_nl(ls[i]),
    ensures
        trim_same(ls, lines(join_with(ls, "\n"@))),
    decreases ls.len(),
{
    reveal_strlit("\n");
    if ls.len() == 0 {
        assert(lines(Seq::<char>::empty()) == Seq::<Seq<char>>::empty());
    } else if ls.len() == 1 {
        assert(no_nl(ls[0]));
        lemma_lines_single(ls[0]);
        if ls[0].len() == 0 {
            assert(trim(ls[0]).len() == 0);
        }
    } else {
        let rest = ls.drop_first();
        assert forall|i: int| 0 <= i < rest.len() implies #[trigger] no_nl(rest[i]) by {
            assert(rest[i] == ls[i + 1]);
        }
        lemma_lines_of_join(rest);
        lemma_join_front(ls, "\n"@);
        assert(no_nl(ls[0]));
        assert("\n"@ == seq!['\n']);
        lemma_lines_cons(ls[0], join_with(rest, "\n"@));
        let m = lines(join_with(ls, "\n"@));
        let mr = lines(join_with(rest, "\n"@));
        assert(m == seq![strip_cr(ls[0])] + mr);
        assert(trim(strip_cr(ls[0])) == trim(ls[0])) by {
            if ls[0].len() > 0 && ls[0].last() == '\r' {
                lemma_trim_drop_ws(ls[0]);
            }
        }
        assert forall|k: int| 0 <= k < m.len() implies #[trigger] trim(m[k]) == trim(ls[k]) by {
            if k > 0 {
                assert(m[k] == mr[k - 1]);
                assert(ls[k] == rest[k - 1]);
                assert(trim(mr[k - 1]) == trim(rest[k - 1]));
            }
        }
        assert(ls.last() == rest.last());
    }
}

/// `next_nl` is the first newline at or after `k`, or the end of the text.
pub proof fn lemma_next_nl_bounds(s: Seq<char>, k: int)
    requires
        0 <= k <= s.len(),
    ensures
        k <= next_nl(s, k) <= s.len(),
        next_nl(s, k) < s.len() ==> s[next_nl(s, k)] == '\n',
        forall|m: int| k <= m < next_nl(s, k) ==> s[m] != '\n',
    decreases s.len() - k,
{
    if k < s.len() && s[k] != '\n' {
        lemma_next_nl_bounds(s, k + 1);
    }
}

/// A position with no newline before it from `k`, and a newline or the end at it, is `next_nl`.
pub proof fn lemma_next_nl_at(s: Seq<char>, k: int, i: int)
    requires
        0 <= k <= i <= s.len(),
        forall|m: int| k <= m < i ==> s[m] != '\n',
        i == s.len() || s[i] == '\n',
    ensures
        next_nl(s, k) == i,
    decreases i - k,
{
    if k < i {
        lemma_next_nl_at(s, k + 1, i);
    }
}

/// The line `s[k..e]`, stripped as `str::lines` strips it.
fn line_at(s: &[char], k: usize, e: usize) -> (r: Vec<char>)
    requires
        k <= e <= s@.len(),
    ensures
        r@ == line_text(s@, k as int, e as int),
{
    if e < s.len() && e > k && s[e - 1] == '\r' {
        sub_chars(s, k, e - 1)
    } else {
        sub_chars(s, k, e)
    }
}

/// Appends a character vector to a vector of them.
pub fn push_seq(out: &mut Vec<Vec<char>>, item: Vec<char>)
    ensures
        final(out).deep_view() == old(out).deep_view().push(item@),
{
    let ghost old_v = out@;
    let ghost item_v = item@;
    out.push(item);
    assert(out.deep_view() =~= old(out).deep_view().push(item_v)) by {
        assert forall|i: int| 0 <= i < out@.len() implies #[trigger] out.deep_view()[i]
            == old(out).deep_view().push(item_v)[i] by {
            if i < old_v.len() {
                assert(out@[i] == old_v[i]);
            } else {
                assert(out@[i] == item);
            }
        }
    }
}

/// The lines of `s`, as `str::lines` gives them.
pub fn split_lines(s: &[char]) -> (r: Vec<Vec<char>>)
    ensures
        r.deep_view() == lines(s@),
{
    let mut out: Vec<Vec<char>> = Vec::new();
    let mut k: usize = 0;
    let mut i: usize = 0;
    while i < s.len()
        invariant
            k <= i <= s@.len(),
            forall|m: int| k <= m < i ==> s@[m] != '\n',
            out.deep_view() + lines_from(s@, k as int) == lines(s@),
        decreases s@.len() - i,
    {
        if s[i] == '\n' {
            proof {
                lemma_next_nl_at(s@, k as int, i as int);
            }
            let line = line_at(s, k, i);
            let ghost before = out.deep_view();
            let ghost lv = line@;
            push_seq(&mut out, line);
            assert(out.deep_view() == before.push(lv));
            assert(lines_from(s@, k as int) == seq![lv] + lines_from(s@, i + 1));
            assert(out.deep_view() + lines_from(s@, i + 1) == lines(s@));
            k = i + 1;
        }
        i += 1;
    }
    if k < s.len() {
        proof {
            lemma_next_nl_at(s@, k as int, i as int);
        }
        let line = line_at(s, k, s.len());
        let ghost before = out.deep_view();
        let ghost lv = line@;
        push_seq(&mut out, line);
        assert(out.deep_view() == before.push(lv));
        assert(lines_from(s@, s@.len() as int + 1) == Seq::<Seq<char>>::empty());
        assert(lines_from(s@, k as int) == seq![lv]);
    } else {
        assert(lines_from(s@, k as int) == Seq::<Seq<char>>::empty());
    }
    assert(out.deep_view() == out.deep_view() + Seq::<Seq<char>>::empty());
    out
}

// ---------------------------------------------------------------------
// Numbers
// ---------------------------------------------------------------------

/// The decimal digit for `d < 10`.
pub open spec fn digit(d: nat) -> char {
    ((d as u32) + 48) as char
}

/// The decimal representation of `n`, as `format!("{}", n)` writes it.
pub open spec fn decimal(n: nat) -> Seq<char>
    decreases n,
{
    if n < 10 {
        seq![digit(n)]
    } else {
        decimal(n / 10).push(digit(n % 10))
    }
}

/// The decimal representation of `n`.
pub fn decimal_chars(n: usize) -> (r: Vec<char>)
    ensures
        r@ == decimal(n as nat),
    decreases n,
{
    if n < 10 {
        let c = ((n as u8) + 48) as char;
        assert(c == digit(n as nat));
        let mut v = Vec::new();
        v.push(c);
        v
    } else {
        let mut v = decimal_chars(n / 10);
        let d = n % 10;
        let c = ((d as u8) + 48) as char;
        assert(c == digit((n % 10) as nat));
        v.push(c);
        v
    }
}

/// The decimal representation of a 64-bit `n`.
pub fn decimal_chars_u64(n: u64) -> (r: Vec<char>)
    ensures
        r@ == decimal(n as nat),
    decreases n,
{
    if n < 10 {
        let c = ((n as u8) + 48) as char;
        assert(c == digit(n as nat));
        let mut v = Vec::new();
        v.push(c);
        v
    } else {
        let mut v = decimal_chars_u64(n / 10);
        let d = n % 10;
        let c = ((d as u8) + 48) as char;
        assert(c == digit((n % 10) as nat));
        v.push(c);
        v
    }
}

/// Appends the decimal representation of a 64-bit `n` to `s`.
pub fn push_decimal_u64(s: &mut String, n: u64)
    ensures
        final(s)@ == old(s)@ + decimal(n as nat),
{
    let d = decimal_chars_u64(n);
    push_chars(s, &d);
}

/// Appends the decimal representation of `n` to `s`.
pub fn push_decimal(s: &mut String, n: usize)
    ensures
        final(s)@ == old(s)@ + decimal(n as nat),
{
    let d = decimal_chars(n);
    push_chars(s, &d);
}


// ---------------------------------------------------------------------
// Leading characters of a class, words
// ---------------------------------------------------------------------

/// `s` without its leading characters that satisfy `p`
/// (`str::trim_start_matches` with a character class).
pub open spec fn trim_start_by(s: Seq<char>, p: spec_fn(char) -> bool) -> Seq<char>
    decreases s.len(),
{
    if s.len() > 0 && p(s[0]) {
        trim_start_by(s.drop_first(), p)
    } else {
        s
    }
}

/// Trimming the start by a predicate drops exactly the leading run that meets it.
pub proof fn lemma_trim_start_by_at(s: Seq<char>, p: spec_fn(char) -> bool, i: int)
    requires
        0 <= i <= s.len(),
        forall|k: int| 0 <= k < i ==> p(#[trigger] s[k]),
        i == s.len() || !p(s[i]),
    ensures
        trim_start_by(s, p) == s.skip(i),
    decreases i,
{
    if i == 0 {
        assert(s.skip(0) == s);
    } else {
        let t = s.drop_first();
        assert forall|k: int| 0 <= k < i - 1 implies p(#[trigger] t[k]) by {
            assert(t[k] == s[k + 1]);
        }
        assert(i - 1 == t.len() || t[i - 1] == s[i]);
        lemma_trim_start_by_at(t, p, i - 1);
        assert(t.skip(i - 1) == s.skip(i));
    }
}

/// The whitespace-separated words of a text, in order
/// (`str::split_whitespace`): the state is the words so far and the word
/// being read.
pub open spec fn words_fold(s: Seq<char>) -> (Seq<Seq<char>>, Seq<char>)
    decreases s.len(),
{
    if s.len() == 0 {
        (seq![], seq![])
    } else {
        let (ws, cur) = words_fold(s.drop_last());
        let c = s.last();
        if is_ws(c) {
            if cur.len() > 0 {
                (ws.push(cur), seq![])
            } else {
                (ws, cur)
            }
        } else {
            (ws, cur.push(c))
        }
    }
}

/// `str::split_whitespace`.
pub open spec fn words(s: Seq<char>) -> Seq<Seq<char>> {
    let (ws, cur) = words_fold(s);
    if cur.len() > 0 {
        ws.push(cur)
    } else {
        ws
    }
}

/// `ws` joined with single spaces (`[&str]::join(" ")`).
pub open spec fn join_words(ws: Seq<Seq<char>>) -> Seq<char>
    decreases ws.len(),
{
    if ws.len() == 0 {
        seq![]
    } else if ws.len() == 1 {
        ws[0]
    } else {
        join_words(ws.drop_last()) + seq![' '] + ws.last()
    }
}

/// `w` holds no whitespace.
pub open spec fn no_ws(w: Seq<char>) -> bool {
    forall|k: int| 0 <= k < w.len() ==> !is_ws(#[trigger] w[k])
}

/// `w` is a word: non-empty, without whitespace.
pub open spec fn plain_word(w: Seq<char>) -> bool {
    w.len() > 0 && no_ws(w)
}

/// Every one of `ws` is a word.
pub open spec fn plain_words(ws: Seq<Seq<char>>) -> bool {
    forall|i: int| 0 <= i < ws.len() ==> #[trigger] plain_word(ws[i])
}

/// The total length of `ws`.
pub open spec fn words_len(ws: Seq<Seq<char>>) -> int
    decreases ws.len(),
{
    if ws.len() == 0 {
        0
    } else {
        words_len(ws.drop_last()) + ws.last().len()
    }
}

/// What splitting gathers are words, and they, the word in progress and
/// one separator after each gathered word fit in the text.
proof fn lemma_words_fold_plain(s: Seq<char>)
    ensures
        plain_words(words_fold(s).0),
        no_ws(words_fold(s).1),
        words_len(words_fold(s).0) + words_fold(s).0.len() + words_fold(s).1.len() <= s.len(),
    decreases s.len(),
{
    if s.len() > 0 {
        lemma_words_fold_plain(s.drop_last());
        let (ws, cur) = words_fold(s.drop_last());
        let c = s.last();
        if is_ws(c) {
            if cur.len() > 0 {
                let ws2 = ws.push(cur);
                assert(ws2.drop_last() == ws);
                assert forall|i: int| 0 <= i < ws2.len() implies #[trigger] plain_word(ws2[i]) by {
                    if i < ws.len() {
                        assert(ws2[i] == ws[i]);
                    }
                }
            }
        } else {
            let cur2 = cur.push(c);
            assert forall|k: int| 0 <= k < cur2.len() implies !is_ws(#[trigger] cur2[k]) by {
                if k < cur.len() {
                    assert(cur2[k] == cur[k]);
                }
            }
        }
    }
}

/// The words of a text joined with single spaces are the words with one
/// space between each two.
proof fn lemma_join_len(ws: Seq<Seq<char>>)
    ensures
        ws.len() == 0 ==> join_words(ws).len() == 0,
        ws.len() > 0 ==> join_words(ws).len() == words_len(ws) + ws.len() - 1,
    decreases ws.len(),
{
    if ws.len() > 1 {
        lemma_join_len(ws.drop_last());
        assert(ws.drop_last().drop_last().len() + 1 == ws.drop_last().len());
    } else if ws.len() == 1 {
        assert(ws.drop_last().len() == 0);
        assert(words_len(ws.drop_last()) == 0);
        assert(ws.last() == ws[0]);
        assert(join_words(ws) == ws[0]);
    }
}

/// The words of `s` are words, and joined with single spaces they are no
/// longer than `s`.
pub proof fn lemma_words_plain(s: Seq<char>)
    ensures
        plain_words(words(s)),
        join_words(words(s)).len() <= s.len(),
{
    lemma_words_fold_plain(s);
    let (ws, cur) = words_fold(s);
    if cur.len() > 0 {
        let w = ws.push(cur);
        assert(w.drop_last() == ws);
        assert forall|i: int| 0 <= i < w.len() implies #[trigger] plain_word(w[i]) by {
            if i < ws.len() {
                assert(w[i] == ws[i]);
            }
        }
        lemma_join_len(w);
    } else {
        lemma_join_len(ws);
    }
}

/// Characters without whitespace extend the word in progress.
proof fn lemma_fold_word(y: Seq<char>, w: Seq<char>)
    requires
        no_ws(w),
    ensures
        words_fold(y + w) == (words_fold(y).0, words_fold(y).1 + w),
    decreases w.len(),
{
    if w.len() == 0 {
        assert(y + w == y);
        assert(words_fold(y).1 + w == words_fold(y).1);
    } else {
        let w0 = w.drop_last();
        assert(no_ws(w0)) by {
            assert forall|k: int| 0 <= k < w0.len() implies !is_ws(#[trigger] w0[k]) by {
                assert(w0[k] == w[k]);
            }
        }
        lemma_fold_word(y, w0);
        assert((y + w).drop_last() == y + w0);
        assert((y + w).last() == w.last());
        assert(!is_ws(w[w.len() - 1]));
        assert((words_fold(y).1 + w0).push(w.last()) == words_fold(y).1 + w);
    }
}

/// A space after a text closes the word in progress.
proof fn lemma_fold_space(x: Seq<char>)
    ensures
        words_fold(x.push(' ')) == (words(x), Seq::<char>::empty()),
{
    assert(x.push(' ').drop_last() == x);
    assert(x.push(' ').last() == ' ');
    assert(is_ws(' '));
}

/// A single word is split into itself.
proof fn lemma_words_one(w: Seq<char>)
    requires
        plain_word(w),
    ensures
        words(w) == seq![w],
{
    let e = Seq::<char>::empty();
    lemma_fold_word(e, w);
    assert(e + w == w);
    assert(words_fold(e) == (Seq::<Seq<char>>::empty(), e));
    assert(e + w == w);
}

/// Splitting words joined with single spaces gives the words back.
pub proof fn lemma_words_of_join(ws: Seq<Seq<char>>)
    requires
        plain_words(ws),
    ensures
        words(join_words(ws)) == ws,
    decreases ws.len(),
{
    if ws.len() == 0 {
        assert(words_fold(Seq::<char>::empty()) == (Seq::<Seq<char>>::empty(), Seq::<char>::empty()));
        assert(words(join_words(ws)) =~= ws);
    } else if ws.len() == 1 {
        assert(plain_word(ws[0]));
        lemma_words_one(ws[0]);
        assert(seq![ws[0]] =~= ws);
    } else {
        let d = ws.drop_last();
        assert(plain_words(d)) by {
            assert forall|i: int| 0 <= i < d.len() implies #[trigger] plain_word(d[i]) by {
                assert(d[i] == ws[i]);
            }
        }
        lemma_words_of_join(d);
        let x = join_words(d);
        let y = x.push(' ');
        lemma_fold_space(x);
        let last = ws.last();
        assert(plain_word(ws[ws.len() - 1]));
        lemma_fold_word(y, last);
        assert(join_words(ws) == y + last);
        assert(Seq::<char>::empty() + last == last);
        assert(d.push(last) =~= ws);
    }
}

/// Words joined with single spaces begin and end with a word's character.
pub proof fn lemma_join_ends(ws: Seq<Seq<char>>)
    requires
        plain_words(ws),
        ws.len() > 0,
    ensures
        join_words(ws).len() > 0,
        !is_ws(join_words(ws)[0]),
        !is_ws(join_words(ws).last()),
    decreases ws.len(),
{
    assert(plain_word(ws[0]));
    assert(plain_word(ws[ws.len() - 1]));
    if ws.len() > 1 {
        let d = ws.drop_last();
        assert(plain_words(d)) by {
            assert forall|i: int| 0 <= i < d.len() implies #[trigger] plain_word(d[i]) by {
                assert(d[i] == ws[i]);
            }
        }
        lemma_join_ends(d);
        let j = join_words(ws);
        assert(j == join_words(d) + seq![' '] + ws.last());
        assert(j[0] == join_words(d)[0]);
        assert(j.last() == ws.last().last());
    } else {
        assert(ws.last()[ws.last().len() - 1] == ws.last().last());
    }
}

/// Trimming never lengthens a text.
pub proof fn lemma_trim_len(s: Seq<char>)
    ensures
        trim_start(s).len() <= s.len(),
        trim_end(s).len() <= s.len(),
        trim(s).len() <= s.len(),
    decreases s.len(),
{
    if s.len() > 0 {
        lemma_trim_len(s.drop_first());
        lemma_trim_len(s.drop_last());
    }
    lemma_trim_end_len(trim_start(s));
}

/// Trimming the end never lengthens a text.
proof fn lemma_trim_end_len(s: Seq<char>)
    ensures
        trim_end(s).len() <= s.len(),
    decreases s.len(),
{
    if s.len() > 0 {
        lemma_trim_end_len(s.drop_last());
    }
}

/// The words of `s`, joined with single spaces: every run of whitespace
/// becomes one space, and leading and trailing whitespace is dropped.
pub fn collapse_whitespace(s: &[char]) -> (r: Vec<char>)
    ensures
        r@ == join_words(words(s@)),
{
    let mut ws: Vec<Vec<char>> = Vec::new();
    let mut cur: Vec<char> = Vec::new();
    let mut i: usize = 0;
    assert(ws.deep_view() =~= Seq::<Seq<char>>::empty());
    assert(s@.take(0) =~= Seq::<char>::empty());
    while i < s.len()
        invariant
            i <= s@.len(),
            words_fold(s@.take(i as int)) == (ws.deep_view(), cur@),
        decreases s@.len() - i,
    {
        let c = s[i];
        assert(s@.take(i + 1).drop_last() == s@.take(i as int));
        assert(s@.take(i + 1).last() == c);
        if is_whitespace(c) {
            if cur.len() > 0 {
                let mut w: Vec<char> = Vec::new();
                std::mem::swap(&mut cur, &mut w);
                push_seq(&mut ws, w);
            }
        } else {
            cur.push(c);
        }
        i += 1;
    }
    assert(s@.take(s@.len() as int) == s@);
    if cur.len() > 0 {
        push_seq(&mut ws, cur);
    }
    let ghost wv = ws.deep_view();
    assert(wv == words(s@));
    let mut out: Vec<char> = Vec::new();
    let mut j: usize = 0;
    while j < ws.len()
        invariant
            j <= ws@.len(),
            wv == ws.deep_view(),
            out@ == join_words(wv.take(j as int)),
        decreases ws@.len() - j,
    {
        let ghost t = wv.take(j + 1);
        assert(t.drop_last() == wv.take(j as int));
        if j > 0 {
            out.push(' ');
        }
        let mut k: usize = 0;
        let ghost base = out@;
        while k < ws[j].len()
            invariant
                j < ws@.len(),
                k <= ws@[j as int]@.len(),
                out@ == base + ws@[j as int]@.take(k as int),
            decreases ws@[j as int]@.len() - k,
        {
            out.push(ws[j][k]);
            k += 1;
            assert(out@ == base + ws@[j as int]@.take(k as int));
        }
        assert(ws@[j as int]@.take(k as int) == ws@[j as int]@);
        assert(wv[j as int] == ws@[j as int]@);
        j += 1;
    }
    assert(wv.take(ws@.len() as int) == wv);
    out
}

// ---------------------------------------------------------------------
// Joining and trailing characters
// ---------------------------------------------------------------------

/// The strings of `ws` with `sep` between each two (`[String]::join`).
pub open spec fn join_with(ws: Seq<Seq<char>>, sep: Seq<char>) -> Seq<char>
    decreases ws.len(),
{
    if ws.len() == 0 {
        seq![]
    } else if ws.len() == 1 {
        ws[0]
    } else {
        join_with(ws.drop_last(), sep) + sep + ws.last()
    }
}

/// The strings of `ws` joined with `sep` between each two.
pub fn join_strings(ws: &Vec<String>, sep: &str) -> (r: String)
    ensures
        r@ == join_with(ws.deep_view(), sep@),
{
    let ghost wv = ws.deep_view();
    let mut out = String::new();
    let mut i: usize = 0;
    while i < ws.len()
        invariant
            i <= ws@.len(),
            wv == ws.deep_view(),
            out@ == join_with(wv.take(i as int), sep@),
        decreases ws@.len() - i,
    {
        assert(wv.take(i + 1).drop_last() == wv.take(i as int));
        assert(wv.take(i + 1).last() == ws@[i as int]@);
        if i > 0 {
            push_str(&mut out, sep);
        }
        push_str(&mut out, ws[i].as_str());
        i += 1;
    }
    assert(wv.take(wv.len() as int) == wv);
    out
}

/// `s` with every trailing `c` removed (`str::trim_end_matches`).
pub open spec fn strip_trailing(s: Seq<char>, c: char) -> Seq<char>
    decreases s.len(),
{
    if s.len() > 0 && s.last() == c {
        strip_trailing(s.drop_last(), c)
    } else {
        s
    }
}

/// `s` with every trailing `c` removed.
pub fn trim_end_char(s: &str, c: char) -> (r: String)
    ensures
        r@ == strip_trailing(s@, c),
{
    let v = to_chars(s);
    let mut n = v.len();
    assert(v@.take(v@.len() as int) == v@);
    while n > 0 && v[n - 1] == c
        invariant
            n <= v@.len(),
            strip_trailing(v@, c) == strip_trailing(v@.take(n as int), c),
        decreases n,
    {
        assert(v@.take(n as int).drop_last() == v@.take(n - 1));
        n -= 1;
    }
    assert(v@.take(v@.len() as int) == v@);
    let w = sub_chars(&v, 0, n);
    assert(w@ == v@.take(n as int));
    from_chars(&w)
}

/// The length of `s` in bytes, UTF-8 encoded (`str::len`).
pub fn byte_len(s: &str) -> (r: usize)
    ensures
        r == vstd::utf8::encode_utf8(s@).len(),
{
    s.as_bytes().len()
}

/// A signed number in decimal, with a leading `-` when negative.
pub open spec fn signed_decimal(n: int) -> Seq<char> {
    if n < 0 {
        seq!['-'] + decimal((-n) as nat)
    } else {
        decimal(n as nat)
    }
}

/// Appends `n` in decimal, with a leading `-` when negative.
pub fn push_signed(s: &mut String, n: i32)
    ensures
        final(s)@ == old(s)@ + signed_decimal(n as int),
{
    if n < 0 {
        push_char(s, '-');
        let m: u32 = if n == i32::MIN {
            2147483648u32
        } else {
            (-n) as u32
        };
        let ghost before = s@;
        push_decimal(s, m as usize);
        assert(s@ == old(s)@ + (seq!['-'] + decimal((-n) as nat)));
    } else {
        push_decimal(s, n as usize);
    }
}

/// `s` with every leading `c` removed (`str::trim_start_matches`).
pub open spec fn strip_leading(s: Seq<char>, c: char) -> Seq<char>
    decreases s.len(),
{
    if s.len() > 0 && s[0] == c {
        strip_leading(s.drop_first(), c)
    } else {
        s
    }
}

/// `s` with every leading `c` removed.
pub fn trim_start_char(s: &str, c: char) -> (r: String)
    ensures
        r@ == strip_leading(s@, c),
{
    let v = to_chars(s);
    let mut k: usize = 0;
    assert(v@.skip(0) == v@);
    while k < v.len() && v[k] == c
        invariant
            k <= v@.len(),
            strip_leading(v@, c) == strip_leading(v@.skip(k as int), c),
        decreases v@.len() - k,
    {
        assert(v@.skip(k as int).drop_first() == v@.skip(k + 1));
        k += 1;
    }
    let w = sub_chars(&v, k, v.len());
    assert(w@ == v@.skip(k as int));
    from_chars(&w)
}

} // verus!
