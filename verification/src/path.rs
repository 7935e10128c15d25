//! Unix paths as `std::path` reads them: split at `/`, with empty and `.`
//! segments dropped (a leading `.` excepted), `..` a parent step, and a
//! leading `/` the root.
use vstd::prelude::*;

use crate::text::{push_char, push_chars, push_seq, sub_chars};

verus! {

// ---------------------------------------------------------------------
// Splitting at a separator
// ---------------------------------------------------------------------

/// Index of the first `sep` at or after `k`, or the length when there is none.
pub open spec fn next_sep(s: Seq<char>, k: int, sep: char) -> int
    decreases s.len() - k,
{
    if k >= s.len() {
        s.len() as int
    } else if s[k] == sep {
        k
    } else {
        next_sep(s, k + 1, sep)
    }
}

/// The pieces of `s` from position `k` on, as `str::split(sep)` gives them.
pub open spec fn split_from(s: Seq<char>, k: int, sep: char) -> Seq<Seq<char>>
    decreases s.len() - k,
{
    if k < 0 || k > s.len() {
        seq![]
    } else {
        let e = next_sep(s, k, sep);
        if e < k || e >= s.len() {
            seq![s.subrange(k, s.len() as int)]
        } else {
            seq![s.subrange(k, e)] + split_from(s, e + 1, sep)
        }
    }
}

/// `str::split(sep)`: the pieces between separators, empty ones included.
pub open spec fn split(s: Seq<char>, sep: char) -> Seq<Seq<char>> {
    split_from(s, 0, sep)
}

/// A position with no separator before it from `k`, and a separator or the end at it, is `next_sep`.
pub proof fn lemma_next_sep_at(s: Seq<char>, k: int, i: int, sep: char)
    requires
        0 <= k <= i <= s.len(),
        forall|m: int| k <= m < i ==> s[m] != sep,
        i == s.len() || s[i] == sep,
    ensures
        next_sep(s, k, sep) == i,
    decreases i - k,
{
    if k < i {
        lemma_next_sep_at(s, k + 1, i, sep);
    }
}

/// The pieces of `s` between occurrences of `sep`.
pub fn split_chars(s: &[char], sep: char) -> (r: Vec<Vec<char>>)
    ensures
        r.deep_view() == split(s@, sep),
{
    let mut out: Vec<Vec<char>> = Vec::new();
    let mut k: usize = 0;
    let mut i: usize = 0;
    while i < s.len()
        invariant
            k <= i <= s@.len(),
            forall|m: int| k <= m < i ==> s@[m] != sep,
            out.deep_view() + split_from(s@, k as int, sep) == split(s@, sep),
        decreases s@.len() - i,
    {
        if s[i] == sep {
            proof {
                lemma_next_sep_at(s@, k as int, i as int, sep);
            }
            let piece = sub_chars(s, k, i);
            let ghost before = out.deep_view();
            let ghost pv = piece@;
            push_seq(&mut out, piece);
            assert(split_from(s@, k as int, sep) == seq![pv] + split_from(s@, i + 1, sep));
            assert(out.deep_view() + split_from(s@, i + 1, sep) == split(s@, sep));
            k = i + 1;
        }
        i += 1;
    }
    proof {
        lemma_next_sep_at(s@, k as int, i as int, sep);
    }
    let piece = sub_chars(s, k, s.len());
    let ghost pv = piece@;
    push_seq(&mut out, piece);
    assert(split_from(s@, k as int, sep) == seq![pv]);
    out
}

// ---------------------------------------------------------------------
// Components
// ---------------------------------------------------------------------

/// A path component, as `std::path::Component` has them on Unix. The
/// variants are declared in the order that `Component` compares them.
pub enum Comp {
    Root,
    Cur,
    Parent,
    Normal(Seq<char>),
}

/// A path component held at run time.
pub enum Component {
    Root,
    Cur,
    Parent,
    Normal(Vec<char>),
}

impl View for Component {
    type V = Comp;

    open spec fn view(&self) -> Comp {
        match self {
            Component::Root => Comp::Root,
            Component::Cur => Comp::Cur,
            Component::Parent => Comp::Parent,
            Component::Normal(v) => Comp::Normal(v@),
        }
    }
}

impl DeepView for Component {
    type V = Comp;

    open spec fn deep_view(&self) -> Comp {
        self@
    }
}

/// The components that one `/`-separated segment contributes: none for an
/// empty segment or `.`, a parent step for `..`, else the name itself.
pub open spec fn seg_comps(seg: Seq<char>) -> Seq<Comp> {
    if seg.len() == 0 || seg == seq!['.'] {
        seq![]
    } else if seg == seq!['.', '.'] {
        seq![Comp::Parent]
    } else {
        seq![Comp::Normal(seg)]
    }
}

/// The components of a sequence of segments, in order.
pub open spec fn segs_comps(segs: Seq<Seq<char>>) -> Seq<Comp>
    decreases segs.len(),
{
    if segs.len() == 0 {
        seq![]
    } else {
        segs_comps(segs.drop_last()) + seg_comps(segs.last())
    }
}

/// `p` starts at the root.
pub open spec fn is_absolute(p: Seq<char>) -> bool {
    p.len() > 0 && p[0] == '/'
}

/// `p` starts with a `.` segment, which `Path::components` keeps.
pub open spec fn starts_cur(p: Seq<char>) -> bool {
    p.len() > 0 && p[0] == '.' && (p.len() == 1 || p[1] == '/')
}

/// `Path::components` for a Unix path.
pub open spec fn components(p: Seq<char>) -> Seq<Comp> {
    let head: Seq<Comp> = if is_absolute(p) {
        seq![Comp::Root]
    } else if starts_cur(p) {
        seq![Comp::Cur]
    } else {
        seq![]
    };
    head + segs_comps(split(p, '/'))
}

/// The components that one segment contributes.
fn segment_components(seg: Vec<char>, out: &mut Vec<Component>)
    ensures
        final(out).deep_view() == old(out).deep_view() + seg_comps(seg@),
{
    let ghost sv = seg@;
    let n = seg.len();
    if n == 0 || (n == 1 && seg[0] == '.') {
        assert(seg_comps(sv) == Seq::<Comp>::empty()) by {
            if n == 1 {
                assert(sv == seq!['.']);
            }
        }
        assert(out.deep_view() == old(out).deep_view() + Seq::<Comp>::empty());
        return;
    }
    let c = if n == 2 && seg[0] == '.' && seg[1] == '.' {
        assert(sv == seq!['.', '.']);
        Component::Parent
    } else {
        assert(sv != seq!['.', '.']) by {
            if sv == seq!['.', '.'] {
                assert(sv[0] == '.' && sv[1] == '.');
            }
        }
        assert(sv != seq!['.']) by {
            if sv == seq!['.'] {
                assert(sv[0] == '.');
            }
        }
        Component::Normal(seg)
    };
    let ghost cv = c@;
    assert(seg_comps(sv) == seq![cv]);
    let ghost before = out@;
    out.push(c);
    assert(out.deep_view() =~= old(out).deep_view() + seq![cv]) by {
        assert forall|i: int| 0 <= i < out@.len() implies #[trigger] out.deep_view()[i] == (
        old(out).deep_view() + seq![cv])[i] by {
            if i < before.len() {
                assert(out@[i] == before[i]);
            }
        }
    }
}

/// The components of a Unix path, as `Path::components` yields them.
pub fn path_components(p: &[char]) -> (r: Vec<Component>)
    ensures
        r.deep_view() == components(p@),
{
    let mut out: Vec<Component> = Vec::new();
    if p.len() > 0 && p[0] == '/' {
        out.push(Component::Root);
    } else if p.len() > 0 && p[0] == '.' && (p.len() == 1 || p[1] == '/') {
        out.push(Component::Cur);
    }
    let ghost head = out.deep_view();
    assert(head + segs_comps(Seq::<Seq<char>>::empty()) == head);
    let segs = split_chars(p, '/');
    let mut i: usize = 0;
    while i < segs.len()
        invariant
            i <= segs@.len(),
            segs.deep_view() == split(p@, '/'),
            out.deep_view() == head + segs_comps(segs.deep_view().take(i as int)),
        decreases segs@.len() - i,
    {
        let seg = sub_chars(&segs[i], 0, segs[i].len());
        assert(seg@ == segs.deep_view()[i as int]);
        segment_components(seg, &mut out);
        assert(segs.deep_view().take(i + 1).drop_last() == segs.deep_view().take(i as int));
        i += 1;
    }
    assert(segs.deep_view().take(i as int) == segs.deep_view());
    proof {
        if p@.len() > 0 && p@[0] == '/' {
            assert(head == seq![Comp::Root]);
        } else if p@.len() > 0 && p@[0] == '.' && (p@.len() == 1 || p@[1] == '/') {
            assert(head == seq![Comp::Cur]);
        } else {
            assert(head == Seq::<Comp>::empty());
        }
    }
    out
}


// ---------------------------------------------------------------------
// File name, extension, parent
// ---------------------------------------------------------------------

/// `Path::file_name`: the last component, when it is a name.
pub open spec fn file_name(p: Seq<char>) -> Option<Seq<char>> {
    let c = components(p);
    if c.len() > 0 && c.last() is Normal {
        Some(c.last()->Normal_0)
    } else {
        None
    }
}

/// Position of the last `.` in `s`, or -1.
pub open spec fn last_dot(s: Seq<char>) -> int
    decreases s.len(),
{
    if s.len() == 0 {
        -1
    } else if s.last() == '.' {
        s.len() - 1
    } else {
        last_dot(s.drop_last())
    }
}

/// The extension of a file name: what follows its last `.`, when that `.`
/// is not the name's first character.
pub open spec fn name_extension(name: Seq<char>) -> Option<Seq<char>> {
    let d = last_dot(name);
    if d <= 0 {
        None
    } else {
        Some(name.subrange(d + 1, name.len() as int))
    }
}

/// `Path::extension`.
pub open spec fn extension(p: Seq<char>) -> Option<Seq<char>> {
    match file_name(p) {
        Some(name) => name_extension(name),
        None => None,
    }
}

/// A dot with no dot after it, or -1 where there is none, is `last_dot`.
pub proof fn lemma_last_dot_at(s: Seq<char>, d: int)
    requires
        -1 <= d < s.len(),
        d >= 0 ==> s[d] == '.',
        forall|m: int| d < m < s.len() ==> s[m] != '.',
    ensures
        last_dot(s) == d,
    decreases s.len(),
{
    if s.len() > 0 && s.last() != '.' {
        lemma_last_dot_at(s.drop_last(), d);
    }
}

/// The file name of a path, when its last component is a name.
pub fn file_name_of(p: &[char]) -> (r: Option<Vec<char>>)
    ensures
        r.deep_view() == file_name(p@),
{
    let comps = path_components(p);
    let n = comps.len();
    if n == 0 {
        return None;
    }
    match &comps[n - 1] {
        Component::Normal(v) => {
            let name = sub_chars(v, 0, v.len());
            assert(comps.deep_view().last() == comps@[n - 1]@);
            Some(name)
        },
        _ => {
            assert(comps.deep_view().last() == comps@[n - 1]@);
            None
        },
    }
}

/// `Path::extension`: what follows the last `.` of the file name.
pub fn extension_of(p: &[char]) -> (r: Option<Vec<char>>)
    ensures
        r.deep_view() == extension(p@),
{
    match file_name_of(p) {
        None => {
            assert(file_name(p@) is None);
            None
        },
        Some(name) => {
            let mut j = name.len();
            while j > 0 && name[j - 1] != '.'
                invariant
                    j <= name@.len(),
                    forall|m: int| j <= m < name@.len() ==> name@[m] != '.',
                decreases j,
            {
                j -= 1;
            }
            proof {
                lemma_last_dot_at(name@, j - 1);
            }
            assert(file_name(p@) == Some(name@));
            if j <= 1 {
                assert(name_extension(name@) is None);
                None
            } else {
                let e = sub_chars(&name, j, name.len());
                assert(name_extension(name@) == Some(e@));
                let r = Some(e);
                assert(r.deep_view() == Some(e@));
                r
            }
        },
    }
}

/// `Path::parent` as components: all but the last component, unless there
/// are none or the last is the root.
pub open spec fn parent(p: Seq<char>) -> Option<Seq<Comp>> {
    let c = components(p);
    if c.len() == 0 || c.last() is Root {
        None
    } else {
        Some(c.drop_last())
    }
}

/// How a sequence of components displays: names joined by `/`, the root
/// shown as a leading `/`.
pub open spec fn display(c: Seq<Comp>) -> Seq<char>
    decreases c.len(),
{
    if c.len() == 0 {
        seq![]
    } else {
        let prev = display(c.drop_last());
        let sep: Seq<char> = if c.len() == 1 || c[c.len() - 2] is Root {
            seq![]
        } else {
            seq!['/']
        };
        prev + sep + comp_text(c.last())
    }
}

/// The text of one component.
pub open spec fn comp_text(c: Comp) -> Seq<char> {
    match c {
        Comp::Root => seq!['/'],
        Comp::Cur => seq!['.'],
        Comp::Parent => seq!['.', '.'],
        Comp::Normal(n) => n,
    }
}

/// Appends the text of one component.
fn push_comp_text(s: &mut String, c: &Component)
    ensures
        final(s)@ == old(s)@ + comp_text(c@),
{
    match c {
        Component::Root => {
            push_char(s, '/');
            assert(s@ == old(s)@ + seq!['/']);
        },
        Component::Cur => {
            push_char(s, '.');
            assert(s@ == old(s)@ + seq!['.']);
        },
        Component::Parent => {
            push_char(s, '.');
            push_char(s, '.');
            assert(s@ == old(s)@ + seq!['.', '.']);
        },
        Component::Normal(v) => push_chars(s, v),
    }
}

/// The display text of the components `c[..n]`.
pub fn display_components(c: &Vec<Component>, n: usize) -> (r: String)
    requires
        n <= c@.len(),
    ensures
        r@ == display(c.deep_view().take(n as int)),
{
    let mut out = String::new();
    let mut i: usize = 0;
    while i < n
        invariant
            i <= n <= c@.len(),
            out@ == display(c.deep_view().take(i as int)),
        decreases n - i,
    {
        let ghost t = c.deep_view().take(i + 1);
        assert(t.drop_last() == c.deep_view().take(i as int));
        assert(t.last() == c@[i as int]@);
        if i >= 1 && !matches!(c[i - 1], Component::Root) {
            assert(!(t[t.len() - 2] is Root));
            push_char(&mut out, '/');
        } else {
            assert(i == 0 || t[t.len() - 2] is Root);
        }
        push_comp_text(&mut out, &c[i]);
        i += 1;
    }
    out
}

// ---------------------------------------------------------------------
// Joining
// ---------------------------------------------------------------------

/// `PathBuf::join` on Unix: an absolute `p` replaces `base`; otherwise `p`
/// is appended, with a `/` between them unless `base` is empty or already
/// ends in one.
pub open spec fn join(base: Seq<char>, p: Seq<char>) -> Seq<char> {
    if is_absolute(p) {
        p
    } else if base.len() == 0 || base.last() == '/' {
        base + p
    } else {
        base + seq!['/'] + p
    }
}

/// `base.join(p)`.
pub fn join_paths(base: &[char], p: &[char]) -> (r: String)
    ensures
        r@ == join(base@, p@),
{
    let mut out = String::new();
    if p.len() > 0 && p[0] == '/' {
        push_chars(&mut out, p);
        return out;
    }
    push_chars(&mut out, base);
    if base.len() > 0 && base[base.len() - 1] != '/' {
        push_char(&mut out, '/');
    }
    push_chars(&mut out, p);
    out
}


// ---------------------------------------------------------------------
// Ordering
// ---------------------------------------------------------------------

/// Strict lexicographic order of character sequences by code point, which
/// is the byte order of their UTF-8 encodings (`str`'s `Ord`).
pub open spec fn chars_lt(a: Seq<char>, b: Seq<char>) -> bool
    decreases a.len(),
{
    if a.len() == 0 {
        b.len() > 0
    } else if b.len() == 0 {
        false
    } else if (a[0] as u32) < (b[0] as u32) {
        true
    } else if a[0] == b[0] {
        chars_lt(a.drop_first(), b.drop_first())
    } else {
        false
    }
}

/// The rank of a component kind, in `Component`'s declaration order.
pub open spec fn comp_rank(c: Comp) -> int {
    match c {
        Comp::Root => 0,
        Comp::Cur => 1,
        Comp::Parent => 2,
        Comp::Normal(_) => 3,
    }
}

/// `Component`'s order: by kind, names by their text.
pub open spec fn comp_lt(a: Comp, b: Comp) -> bool {
    if comp_rank(a) != comp_rank(b) {
        comp_rank(a) < comp_rank(b)
    } else {
        match (a, b) {
            (Comp::Normal(x), Comp::Normal(y)) => chars_lt(x, y),
            _ => false,
        }
    }
}

/// `Path`'s order: lexicographic over components.
pub open spec fn comps_lt(a: Seq<Comp>, b: Seq<Comp>) -> bool
    decreases a.len(),
{
    if a.len() == 0 {
        b.len() > 0
    } else if b.len() == 0 {
        false
    } else if comp_lt(a[0], b[0]) {
        true
    } else if a[0] == b[0] {
        comps_lt(a.drop_first(), b.drop_first())
    } else {
        false
    }
}

/// Character-wise comparison is a strict total order.
pub proof fn lemma_chars_lt_order(a: Seq<char>, b: Seq<char>, c: Seq<char>)
    ensures
        !chars_lt(a, a),
        chars_lt(a, b) ==> !chars_lt(b, a),
        chars_lt(a, b) && chars_lt(b, c) ==> chars_lt(a, c),
        a != b ==> chars_lt(a, b) || chars_lt(b, a),
    decreases a.len(),
{
    if a.len() > 0 && b.len() > 0 && c.len() > 0 {
        lemma_chars_lt_order(a.drop_first(), b.drop_first(), c.drop_first());
    }
    if a.len() > 0 && b.len() > 0 {
        lemma_chars_lt_order(a.drop_first(), b.drop_first(), b.drop_first());
        if a != b && a[0] == b[0] {
            assert(a.drop_first() != b.drop_first()) by {
                if a.drop_first() == b.drop_first() {
                    assert(a =~= seq![a[0]] + a.drop_first());
                    assert(b =~= seq![b[0]] + b.drop_first());
                }
            }
        }
        vstd::utf8::char_u32_cast(a[0], a[0] as u32);
        vstd::utf8::char_u32_cast(b[0], b[0] as u32);
    }
    if a.len() > 0 {
        lemma_chars_lt_order(a.drop_first(), a.drop_first(), a.drop_first());
    }
    if a.len() == 0 && b.len() == 0 {
        assert(a == b);
    }
}

/// The order of path components is a strict total order.
pub proof fn lemma_comp_lt_order(a: Comp, b: Comp, c: Comp)
    ensures
        !comp_lt(a, a),
        comp_lt(a, b) ==> !comp_lt(b, a),
        comp_lt(a, b) && comp_lt(b, c) ==> comp_lt(a, c),
        a != b ==> comp_lt(a, b) || comp_lt(b, a),
{
    match (a, b, c) {
        (Comp::Normal(x), Comp::Normal(y), Comp::Normal(z)) => {
            lemma_chars_lt_order(x, y, z);
            lemma_chars_lt_order(x, x, x);
        },
        _ => {
            if let Comp::Normal(x) = a {
                lemma_chars_lt_order(x, x, x);
                if let Comp::Normal(y) = b {
                    lemma_chars_lt_order(x, y, y);
                }
            }
            if let Comp::Normal(y) = b {
                if let Comp::Normal(z) = c {
                    lemma_chars_lt_order(y, z, z);
                }
            }
        },
    }
}

/// The order of paths, component by component, is a strict total order.
pub proof fn lemma_comps_lt_order(a: Seq<Comp>, b: Seq<Comp>, c: Seq<Comp>)
    ensures
        !comps_lt(a, a),
        comps_lt(a, b) ==> !comps_lt(b, a),
        comps_lt(a, b) && comps_lt(b, c) ==> comps_lt(a, c),
        a != b ==> comps_lt(a, b) || comps_lt(b, a),
    decreases a.len(),
{
    if a.len() > 0 && b.len() > 0 && c.len() > 0 {
        lemma_comps_lt_order(a.drop_first(), b.drop_first(), c.drop_first());
        lemma_comp_lt_order(a[0], b[0], c[0]);
    }
    if a.len() > 0 && b.len() > 0 {
        lemma_comps_lt_order(a.drop_first(), b.drop_first(), b.drop_first());
        lemma_comp_lt_order(a[0], b[0], b[0]);
        if a != b && a[0] == b[0] {
            assert(a.drop_first() != b.drop_first()) by {
                if a.drop_first() == b.drop_first() {
                    assert(a =~= seq![a[0]] + a.drop_first());
                    assert(b =~= seq![b[0]] + b.drop_first());
                }
            }
        }
    }
    if a.len() > 0 {
        lemma_comps_lt_order(a.drop_first(), a.drop_first(), a.drop_first());
        lemma_comp_lt_order(a[0], a[0], a[0]);
    }
    if a.len() == 0 && b.len() == 0 {
        assert(a == b);
    }
}

/// Compares two character sequences: -1, 0 or 1.
pub fn compare_chars(a: &[char], b: &[char]) -> (r: i8)
    ensures
        r == -1 <==> chars_lt(a@, b@),
        r == 0 <==> a@ == b@,
        r == 1 <==> chars_lt(b@, a@),
{
    proof {
        lemma_chars_lt_order(a@, b@, b@);
    }
    let mut i: usize = 0;
    assert(a@.skip(0) == a@);
    assert(b@.skip(0) == b@);
    while i < a.len() && i < b.len() && a[i] == b[i]
        invariant
            i <= a@.len(),
            i <= b@.len(),
            a@.take(i as int) == b@.take(i as int),
            chars_lt(a@, b@) == chars_lt(a@.skip(i as int), b@.skip(i as int)),
            chars_lt(b@, a@) == chars_lt(b@.skip(i as int), a@.skip(i as int)),
        decreases a@.len() - i,
    {
        assert(a@.skip(i as int).drop_first() == a@.skip(i + 1));
        assert(b@.skip(i as int).drop_first() == b@.skip(i + 1));
        assert(a@.take(i + 1) == a@.take(i as int).push(a@[i as int]));
        assert(b@.take(i + 1) == b@.take(i as int).push(b@[i as int]));
        i += 1;
    }
    if i == a.len() && i == b.len() {
        assert(a@ == a@.take(i as int));
        assert(b@ == b@.take(i as int));
        0
    } else if i == a.len() {
        assert(a@.skip(i as int).len() == 0);
        -1
    } else if i == b.len() {
        assert(b@.skip(i as int).len() == 0);
        1
    } else {
        assert(a@.skip(i as int)[0] == a@[i as int]);
        assert(b@.skip(i as int)[0] == b@[i as int]);
        assert(a@ != b@) by {
            if a@ == b@ {
                assert(a@[i as int] == b@[i as int]);
            }
        }
        proof {
            vstd::utf8::char_u32_cast(a@[i as int], a@[i as int] as u32);
            vstd::utf8::char_u32_cast(b@[i as int], b@[i as int] as u32);
        }
        if (a[i] as u32) < (b[i] as u32) {
            -1
        } else {
            1
        }
    }
}

/// Compares two components: -1, 0 or 1.
pub fn compare_components(a: &Component, b: &Component) -> (r: i8)
    ensures
        r == -1 <==> comp_lt(a@, b@),
        r == 0 <==> a@ == b@,
        r == 1 <==> comp_lt(b@, a@),
{
    proof {
        lemma_comp_lt_order(a@, b@, b@);
    }
    let ra: u8 = match a {
        Component::Root => 0,
        Component::Cur => 1,
        Component::Parent => 2,
        Component::Normal(_) => 3,
    };
    let rb: u8 = match b {
        Component::Root => 0,
        Component::Cur => 1,
        Component::Parent => 2,
        Component::Normal(_) => 3,
    };
    if ra < rb {
        -1
    } else if ra > rb {
        1
    } else {
        match (a, b) {
            (Component::Normal(x), Component::Normal(y)) => compare_chars(x, y),
            _ => 0,
        }
    }
}

/// Compares two component sequences in `Path` order: -1, 0 or 1.
pub fn compare_component_seqs(a: &Vec<Component>, b: &Vec<Component>) -> (r: i8)
    ensures
        r == -1 <==> comps_lt(a.deep_view(), b.deep_view()),
        r == 0 <==> a.deep_view() == b.deep_view(),
        r == 1 <==> comps_lt(b.deep_view(), a.deep_view()),
        r == -1 || r == 0 || r == 1,
{
    let ghost av = a.deep_view();
    let ghost bv = b.deep_view();
    proof {
        lemma_comps_lt_order(av, bv, bv);
    }
    let mut i: usize = 0;
    assert(av.skip(0) == av);
    assert(bv.skip(0) == bv);
    loop
        invariant
            i <= av.len() == a@.len(),
            i <= bv.len() == b@.len(),
            av == a.deep_view(),
            bv == b.deep_view(),
            av.take(i as int) == bv.take(i as int),
            comps_lt(av, bv) == comps_lt(av.skip(i as int), bv.skip(i as int)),
            comps_lt(bv, av) == comps_lt(bv.skip(i as int), av.skip(i as int)),
            !comps_lt(av, av),
            comps_lt(av, bv) ==> !comps_lt(bv, av),
            av != bv ==> comps_lt(av, bv) || comps_lt(bv, av),
        decreases av.len() - i,
    {
        if i == a.len() && i == b.len() {
            assert(av == av.take(i as int));
            assert(bv == bv.take(i as int));
            return 0;
        } else if i == a.len() {
            assert(av.skip(i as int).len() == 0);
            return -1;
        } else if i == b.len() {
            assert(bv.skip(i as int).len() == 0);
            return 1;
        }
        let c = compare_components(&a[i], &b[i]);
        assert(av.skip(i as int)[0] == a@[i as int]@);
        assert(bv.skip(i as int)[0] == b@[i as int]@);
        if c != 0 {
            assert(av != bv) by {
                if av == bv {
                    assert(av[i as int] == bv[i as int]);
                }
            }
            return c;
        }
        assert(av.skip(i as int).drop_first() == av.skip(i + 1));
        assert(bv.skip(i as int).drop_first() == bv.skip(i + 1));
        assert(av.take(i + 1) == av.take(i as int).push(av[i as int]));
        assert(bv.take(i + 1) == bv.take(i as int).push(bv[i as int]));
        i += 1;
    }
}


/// A copy of a component.
pub fn copy_component(c: &Component) -> (r: Component)
    ensures
        r@ == c@,
{
    match c {
        Component::Root => Component::Root,
        Component::Cur => Component::Cur,
        Component::Parent => Component::Parent,
        Component::Normal(v) => {
            let w = sub_chars(v, 0, v.len());
            assert(v@.subrange(0, v@.len() as int) == v@);
            Component::Normal(w)
        },
    }
}

/// Appends a component.
pub fn push_component(out: &mut Vec<Component>, c: Component)
    ensures
        final(out).deep_view() == old(out).deep_view().push(c@),
{
    let ghost old_v = out@;
    let ghost cv = c@;
    out.push(c);
    assert(out.deep_view() =~= old(out).deep_view().push(cv)) by {
        assert forall|i: int| 0 <= i < out@.len() implies #[trigger] out.deep_view()[i]
            == old(out).deep_view().push(cv)[i] by {
            if i < old_v.len() {
                assert(out@[i] == old_v[i]);
            }
        }
    }
}

/// A copy of the first `n` components of `c`.
pub fn copy_components(c: &Vec<Component>, n: usize) -> (r: Vec<Component>)
    requires
        n <= c@.len(),
    ensures
        r.deep_view() == c.deep_view().take(n as int),
{
    let mut out: Vec<Component> = Vec::new();
    let mut i: usize = 0;
    assert(out.deep_view() =~= c.deep_view().take(0));
    while i < n
        invariant
            i <= n <= c@.len(),
            out.deep_view() == c.deep_view().take(i as int),
        decreases n - i,
    {
        let x = copy_component(&c[i]);
        push_component(&mut out, x);
        assert(c.deep_view().take(i + 1) == c.deep_view().take(i as int).push(c@[i as int]@));
        i += 1;
    }
    out
}

} // verus!
