//! The path check that guards every file a model asks to write.
use vstd::prelude::*;

use crate::path::{components, next_sep, seg_comps, segs_comps, split, split_from, Comp};
use crate::text::{from_chars, to_chars};

verus! {

/// Why a path proposed by a model is refused.
#[derive(Debug, PartialEq, Eq, Structural)]
pub enum PathError {
    /// The path starts at the root.
    Absolute,
    /// The path holds a `..` segment.
    UnsafeComponent,
}

/// `p` holds a `..` segment, which would step out of the target directory.
pub open spec fn has_parent_segment(p: Seq<char>) -> bool {
    exists|i: int|
        0 <= i && i + 2 <= p.len() && #[trigger] p[i] == '.' && p[i + 1] == '.' && (i == 0 || p[i
            - 1] == '/') && (i + 2 == p.len() || p[i + 2] == '/')
}

/// The outcome of checking a proposed relative path: refused when it is
/// absolute or holds a `..` segment, else the path unchanged.
pub open spec fn checked_relative(p: Seq<char>) -> Result<Seq<char>, PathError> {
    if p.len() > 0 && p[0] == '/' {
        Err(PathError::Absolute)
    } else if has_parent_segment(p) {
        Err(PathError::UnsafeComponent)
    } else {
        Ok(p)
    }
}

/// Accepts `p` only when writing to it stays inside the target directory.
pub fn check_relative(p: &str) -> (r: Result<String, PathError>)
    ensures
        match checked_relative(p@) {
            Ok(q) => r matches Ok(s) && s@ == q,
            Err(e) => r matches Err(e2) && e2 == e,
        },
{
    let cs = to_chars(p);
    let n = cs.len();
    if n > 0 && cs[0] == '/' {
        return Err(PathError::Absolute);
    }
    assert(!(p@.len() > 0 && p@[0] == '/'));
    let mut i: usize = 0;
    while i < n
        invariant
            n == cs@.len(),
            cs@ == p@,
            i <= n,
            !(p@.len() > 0 && p@[0] == '/'),
            forall|k: int|
                0 <= k < i ==> !(k + 2 <= n && #[trigger] cs@[k] == '.' && cs@[k + 1] == '.' && (
                k == 0 || cs@[k - 1] == '/') && (k + 2 == n || cs@[k + 2] == '/')),
        decreases n - i,
    {
        if n - i >= 2 && cs[i] == '.' && cs[i + 1] == '.' && (i == 0 || cs[i - 1] == '/') && (n
            - i == 2 || cs[i + 2] == '/') {
            assert(p@[i as int] == '.');
            assert(has_parent_segment(p@));
            return Err(PathError::UnsafeComponent);
        }
        i += 1;
    }
    assert(!has_parent_segment(p@));
    Ok(from_chars(&cs))
}

/// `next_sep` is the first `/` at or after `k`, or the end of the text.
proof fn lemma_next_sep(s: Seq<char>, k: int)
    requires
        0 <= k <= s.len(),
    ensures
        k <= next_sep(s, k, '/') <= s.len(),
        forall|m: int| k <= m < next_sep(s, k, '/') ==> s[m] != '/',
        next_sep(s, k, '/') < s.len() ==> s[next_sep(s, k, '/')] == '/',
    decreases s.len() - k,
{
    if k < s.len() && s[k] != '/' {
        lemma_next_sep(s, k + 1);
    }
}

/// Without a `..` segment in `s`, no piece of `s` from a segment start `k`
/// on is `..`.
proof fn lemma_no_parent_piece(s: Seq<char>, k: int)
    requires
        0 <= k <= s.len(),
        k == 0 || s[k - 1] == '/',
        !has_parent_segment(s),
    ensures
        forall|j: int| 0 <= j < split_from(s, k, '/').len() ==> #[trigger] split_from(s, k, '/')[j] != seq!['.', '.'],
    decreases s.len() - k,
{
    lemma_next_sep(s, k);
    let e = next_sep(s, k, '/');
    let seg = s.subrange(k, e);
    if seg == seq!['.', '.'] {
        assert(seg.len() == e - k);
        assert(seq!['.', '.'].len() == 2);
        assert(e == k + 2);
        assert(seg[0] == s[k] && seg[1] == s[k + 1]);
        assert(s[k] == '.' && s[k + 1] == '.' && (k == 0 || s[k - 1] == '/') && (k + 2 == s.len() || s[k + 2] == '/'));
        assert(has_parent_segment(s));
    }
    if e < s.len() {
        lemma_no_parent_piece(s, e + 1);
        let rest = split_from(s, e + 1, '/');
        assert(split_from(s, k, '/') == seq![seg] + rest);
        assert forall|j: int| 0 <= j < split_from(s, k, '/').len() implies #[trigger] split_from(s, k, '/')[j] != seq!['.', '.'] by {
            if j > 0 {
                assert(split_from(s, k, '/')[j] == rest[j - 1]);
            }
        }
    }
}

/// Pieces that are not `..` give only named and current-directory
/// components.
proof fn lemma_pieces_components(segs: Seq<Seq<char>>)
    requires
        forall|j: int| 0 <= j < segs.len() ==> #[trigger] segs[j] != seq!['.', '.'],
    ensures
        forall|k: int| 0 <= k < segs_comps(segs).len() ==> #[trigger] segs_comps(segs)[k] is Normal,
    decreases segs.len(),
{
    if segs.len() > 0 {
        lemma_pieces_components(segs.drop_last());
        let prev = segs_comps(segs.drop_last());
        let last = seg_comps(segs.last());
        assert(segs.last() != seq!['.', '.']);
        assert forall|k: int| 0 <= k < segs_comps(segs).len() implies #[trigger] segs_comps(segs)[k] is Normal by {
            if k < prev.len() {
                assert(segs_comps(segs)[k] == prev[k]);
            } else {
                assert(segs_comps(segs)[k] == last[k - prev.len()]);
            }
        }
    }
}

/// A path that passes the check stays inside the directory it is written
/// under: as `Path::components` reads it, it has no root and no parent
/// step, only names and at most a leading `.`.
pub proof fn lemma_checked_path_stays_inside(p: Seq<char>)
    requires
        checked_relative(p) is Ok,
    ensures
        forall|k: int| 0 <= k < components(p).len() ==> (#[trigger] components(p)[k] is Normal || components(p)[k] is Cur),
        forall|k: int| 0 <= k < components(p).len() ==> #[trigger] components(p)[k] != Comp::Parent,
{
    lemma_no_parent_piece(p, 0);
    lemma_pieces_components(split(p, '/'));
    let c = components(p);
    let head: Seq<Comp> = if crate::path::is_absolute(p) {
        seq![Comp::Root]
    } else if crate::path::starts_cur(p) {
        seq![Comp::Cur]
    } else {
        seq![]
    };
    let body = segs_comps(split(p, '/'));
    assert(c == head + body);
    assert forall|k: int| 0 <= k < c.len() implies (#[trigger] c[k] is Normal || c[k] is Cur) by {
        if k >= head.len() {
            assert(c[k] == body[k - head.len()]);
        }
    }
}

} // verus!
