//! `list_dir`: a directory's entries, directories first, each by name.
use vstd::prelude::*;

use crate::path::{chars_lt, compare_chars, lemma_chars_lt_order};
use crate::symbols::is_perm;
use crate::text::{decimal, owned, push_decimal, push_str, to_chars};

verus! {

/// Entries listed at most.
pub const MAX_ENTRIES: usize = 200;

/// An entry as a value: whether it is a directory, and its name.
pub type Row = (bool, Seq<char>);

/// `a` is listed before `b`: directories before files, then by name.
pub open spec fn row_lt(a: Row, b: Row) -> bool {
    (a.0 && !b.0) || (a.0 == b.0 && chars_lt(a.1, b.1))
}

/// `out` is `rows` sorted by `row_lt`, equal rows keeping their order.
pub open spec fn rows_sorted(rows: Seq<Row>, out: Seq<Row>) -> bool {
    exists|perm: Seq<int>|
        {
            &&& is_perm(perm, rows.len() as int)
            &&& out.len() == rows.len()
            &&& forall|k: int| 0 <= k < out.len() ==> #[trigger] out[k] == rows[perm[k]]
            &&& forall|a: int, b: int| 0 <= a < b < out.len() ==> !row_lt(out[b], out[a])
            &&& forall|a: int, b: int| 0 <= a < b < out.len() && out[a] == out[b] ==> perm[a] < perm[b]
        }
}

/// One listed entry: `d` or `f`, a space, the name, a newline.
pub open spec fn row_line(r: Row) -> Seq<char> {
    (if r.0 {
        "d"@
    } else {
        "f"@
    }) + " "@ + r.1 + "\n"@
}

/// The listed entries, in order.
pub open spec fn row_lines(rs: Seq<Row>) -> Seq<char>
    decreases rs.len(),
{
    if rs.len() == 0 {
        seq![]
    } else {
        row_lines(rs.drop_last()) + row_line(rs.last())
    }
}

/// What `list_dir` returns for sorted entries `sorted`: the first
/// `MAX_ENTRIES` of them, a note when there are more, and a marker when
/// there are none.
pub open spec fn listing(sorted: Seq<Row>) -> Seq<char> {
    let shown = if sorted.len() > MAX_ENTRIES {
        sorted.take(MAX_ENTRIES as int)
    } else {
        sorted
    };
    let body = row_lines(shown) + if sorted.len() > MAX_ENTRIES {
        "\n["@ + decimal(sorted.len()) + " entries; showing first 200]\n"@
    } else {
        seq![]
    };
    if body.len() == 0 {
        "(empty directory)\n"@
    } else {
        body
    }
}

/// The order of listing rows is a strict total order.
proof fn lemma_row_lt_order(a: Row, b: Row, c: Row)
    ensures
        !row_lt(a, a),
        row_lt(a, b) ==> !row_lt(b, a),
        row_lt(a, b) && row_lt(b, c) ==> row_lt(a, c),
        !row_lt(a, b) && !row_lt(b, a) ==> a == b,
{
    lemma_chars_lt_order(a.1, b.1, c.1);
}

/// Whether `a` is listed before `b`.
fn row_before(a: &(bool, String), b: &(bool, String)) -> (r: bool)
    ensures
        r == row_lt((a.0, a.1@), (b.0, b.1@)),
{
    if a.0 != b.0 {
        a.0
    } else {
        let an = to_chars(a.1.as_str());
        let bn = to_chars(b.1.as_str());
        compare_chars(&an, &bn) == -1
    }
}

/// The listing of a directory whose entries are `rows` (directory flag and
/// name, in any order): sorted, directories first, then by name.
pub fn render_listing(rows: &Vec<(bool, String)>) -> (r: String)
    ensures
        exists|sorted: Seq<Row>| #[trigger] rows_sorted(rows.deep_view(), sorted) && r@ == listing(sorted),
{
    let ghost es = rows.deep_view();
    let n = rows.len();
    let mut order: Vec<usize> = Vec::new();
    let mut i: usize = 0;
    while i < n
        invariant
            n == rows@.len() == es.len(),
            es == rows.deep_view(),
            i <= n,
            order@.len() == i,
            forall|a: int| 0 <= a < i ==> #[trigger] order@[a] < i,
            forall|a: int, b: int| 0 <= a < b < i ==> order@[a] != order@[b],
            forall|a: int, b: int| 0 <= a < b < i ==> !row_lt(es[order@[b] as int], es[order@[a] as int]),
            forall|a: int, b: int|
                0 <= a < b < i && es[order@[a] as int] == es[order@[b] as int] ==> order@[a] < order@[b],
        decreases n - i,
    {
        let ghost ki = es[i as int];
        let mut p: usize = 0;
        while p < order.len()
            invariant
                p <= order@.len() == i,
                i < n == es.len() == rows@.len(),
                es == rows.deep_view(),
                forall|a: int| 0 <= a < i ==> #[trigger] order@[a] < i,
                ki == es[i as int],
                forall|a: int| 0 <= a < p ==> !row_lt(ki, #[trigger] es[order@[a] as int]),
            ensures
                p <= order@.len(),
                forall|a: int| 0 <= a < p ==> !row_lt(ki, #[trigger] es[order@[a] as int]),
                p < order@.len() ==> row_lt(ki, es[order@[p as int] as int]),
            decreases order@.len() - p,
        {
            assert(es[i as int] == (rows@[i as int].0, rows@[i as int].1@));
            assert(es[order@[p as int] as int] == (rows@[order@[p as int] as int].0, rows@[order@[p as int] as int].1@));
            if row_before(&rows[i], &rows[order[p]]) {
                break;
            }
            p += 1;
        }
        proof {
            if p < i {
                let kp = es[order@[p as int] as int];
                assert forall|b: int| p <= b < i implies row_lt(ki, #[trigger] es[order@[b] as int]) by {
                    let kb = es[order@[b] as int];
                    lemma_row_lt_order(ki, kp, kb);
                    lemma_row_lt_order(kp, kb, kb);
                }
            }
        }
        let ghost old_order = order@;
        order.insert(p, i);
        proof {
            assert forall|a: int| 0 <= a < i + 1 implies #[trigger] order@[a] < i + 1 by {
                if a < p {
                    assert(order@[a] == old_order[a]);
                } else if a > p {
                    assert(order@[a] == old_order[a - 1]);
                }
            }
            assert forall|a: int, b: int| 0 <= a < b < i + 1 implies order@[a] != order@[b] by {
                if a < p {
                    assert(order@[a] == old_order[a]);
                } else if a > p {
                    assert(order@[a] == old_order[a - 1]);
                }
                if b < p {
                    assert(order@[b] == old_order[b]);
                } else if b > p {
                    assert(order@[b] == old_order[b - 1]);
                }
            }
            assert forall|a: int, b: int| 0 <= a < b < i + 1 implies !row_lt(
                es[order@[b] as int],
                es[order@[a] as int],
            ) && (es[order@[a] as int] == es[order@[b] as int] ==> order@[a] < order@[b]) by {
                let ka = es[order@[a] as int];
                let kb = es[order@[b] as int];
                lemma_row_lt_order(ka, kb, kb);
                lemma_row_lt_order(kb, ka, ka);
                if a < p {
                    assert(order@[a] == old_order[a]);
                } else if a > p {
                    assert(order@[a] == old_order[a - 1]);
                }
                if b < p {
                    assert(order@[b] == old_order[b]);
                } else if b > p {
                    assert(order@[b] == old_order[b - 1]);
                }
            }
        }
        i += 1;
    }
    let ghost perm = order@.map_values(|v: usize| v as int);
    let ghost sorted = Seq::new(n as nat, |k: int| es[perm[k]]);
    proof {
        assert forall|k: int| 0 <= k < n implies 0 <= #[trigger] perm[k] < n by {}
        assert forall|a: int, b: int| 0 <= a < b < n implies perm[a] != perm[b] by {}
        assert(is_perm(perm, n as int));
        assert forall|k: int| 0 <= k < n implies #[trigger] sorted[k] == es[perm[k]] by {}
        assert forall|a: int, b: int| 0 <= a < b < n implies !row_lt(sorted[b], sorted[a]) by {}
        assert forall|a: int, b: int| 0 <= a < b < n && sorted[a] == sorted[b] implies perm[a] < perm[b] by {}
        assert(rows_sorted(es, sorted));
    }
    let shown: usize = if n > MAX_ENTRIES {
        MAX_ENTRIES
    } else {
        n
    };
    let ghost sv = if n > MAX_ENTRIES {
        sorted.take(MAX_ENTRIES as int)
    } else {
        sorted
    };
    assert(sv.len() == shown);
    let mut out = String::new();
    let mut j: usize = 0;
    while j < shown
        invariant
            shown <= n == es.len() == rows@.len() == order@.len(),
            es == rows.deep_view(),
            sv.len() == shown,
            forall|k: int| 0 <= k < shown ==> #[trigger] sv[k] == es[order@[k] as int],
            forall|a: int| 0 <= a < n ==> #[trigger] order@[a] < n,
            j <= shown,
            out@ == row_lines(sv.take(j as int)),
            sv == (if n > MAX_ENTRIES { sorted.take(MAX_ENTRIES as int) } else { sorted }),
        decreases shown - j,
    {
        assert(sv.take(j + 1).drop_last() == sv.take(j as int));
        let q = order[j];
        assert(es[q as int] == (rows@[q as int].0, rows@[q as int].1@));
        if rows[q].0 {
            push_str(&mut out, "d");
        } else {
            push_str(&mut out, "f");
        }
        push_str(&mut out, " ");
        push_str(&mut out, rows[q].1.as_str());
        push_str(&mut out, "\n");
        j += 1;
    }
    assert(sv.take(shown as int) == sv);
    if n > MAX_ENTRIES {
        push_str(&mut out, "\n[");
        push_decimal(&mut out, n);
        push_str(&mut out, " entries; showing first 200]\n");
    }
    if n == 0 {
        assert(sv.len() == 0);
        out = owned("(empty directory)\n");
    } else {
        proof {
            reveal_strlit("\n");
            assert(row_lines(sv) == row_lines(sv.drop_last()) + row_line(sv.last()));
        }
    }
    out
}

} // verus!
