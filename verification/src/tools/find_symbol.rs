//! `find_symbol`: definitions looked up in the symbol index.
use vstd::prelude::*;

use crate::symbols::{Symbol, SymbolView};
use crate::text::{decimal, owned, push_decimal, push_str, str_eq, to_chars};

verus! {

/// Symbols reported at most.
pub const MAX_RESULTS: usize = 50;

/// `s` as `{:?}` prints a string: quoted, with quotes, backslashes and
/// unprintable characters escaped.
pub uninterp spec fn debug_quoted(s: Seq<char>) -> Seq<char>;

/// `s` quoted and escaped as `{:?}` prints it (`<str as Debug>::fmt`).
#[verifier::external_body]
fn debug_str(s: &str) -> (r: String)
    ensures
        r@ == debug_quoted(s@),
{
    format!("{:?}", s)
}

/// `s` quoted and escaped as `{:?}` prints it.
pub(crate) fn quoted(s: &str) -> (r: String)
    ensures
        r@ == debug_quoted(s@),
{
    debug_str(s)
}

/// The kind filter of a call: an empty kind means no filter, since small
/// models often send `""` for a parameter they leave out.
pub open spec fn kind_filter(kind: Option<Seq<char>>) -> Option<Seq<char>> {
    match kind {
        Some(k) => if k.len() > 0 {
            Some(k)
        } else {
            None
        },
        None => None,
    }
}

/// `s` passes the kind filter.
pub open spec fn kind_ok(filter: Option<Seq<char>>, s: SymbolView) -> bool {
    match filter {
        Some(k) => s.kind == k,
        None => true,
    }
}

/// The symbols of `syms` that pass the filter, in order.
pub open spec fn passing(filter: Option<Seq<char>>, syms: Seq<SymbolView>) -> Seq<SymbolView>
    decreases syms.len(),
{
    if syms.len() == 0 {
        seq![]
    } else if kind_ok(filter, syms.last()) {
        passing(filter, syms.drop_last()).push(syms.last())
    } else {
        passing(filter, syms.drop_last())
    }
}

/// One reported symbol.
pub open spec fn hit_line(s: SymbolView) -> Seq<char> {
    s.kind + ": "@ + s.name + " ("@ + s.kind + ") at "@ + s.path + ":"@ + decimal(s.line as nat) + "\n"@
}

/// The reported symbols, in order.
pub open spec fn hit_lines(ss: Seq<SymbolView>) -> Seq<char>
    decreases ss.len(),
{
    if ss.len() == 0 {
        seq![]
    } else {
        hit_lines(ss.drop_last()) + hit_line(ss.last())
    }
}

/// What `find_symbol` returns for the symbols looked up: the first
/// `MAX_RESULTS` that pass the kind filter, or a hint when none does.
pub open spec fn hits_text(name: Seq<char>, kind: Option<Seq<char>>, syms: Seq<SymbolView>) -> Seq<char> {
    let f = kind_filter(kind);
    let found = passing(f, syms);
    if found.len() == 0 {
        "(no symbol named "@ + debug_quoted(name) + match f {
            Some(k) => " of kind "@ + debug_quoted(k),
            None => seq![],
        } + ". Try partial=true, or use grep for free-form search.)"@
    } else {
        hit_lines(
            if found.len() > MAX_RESULTS {
                found.take(MAX_RESULTS as int)
            } else {
                found
            },
        )
    }
}

/// The text `find_symbol` returns for the symbols looked up under `name`.
pub fn render_symbol_hits(name: &str, kind: Option<&str>, syms: &Vec<&Symbol>) -> (r: String)
    ensures
        r@ == hits_text(
            name@,
            match kind {
                Some(k) => Some(k@),
                None => None,
            },
            syms.deep_view(),
        ),
{
    let ghost kv = match kind {
        Some(k) => Some(k@),
        None => None,
    };
    let filter: Option<&str> = match kind {
        Some(k) => if to_chars(k).len() > 0 {
            Some(k)
        } else {
            None
        },
        None => None,
    };
    assert(match filter {
        Some(k) => kind_filter(kv) == Some(k@),
        None => kind_filter(kv) is None,
    });
    let ghost f = kind_filter(kv);
    let ghost sv = syms.deep_view();
    let mut chosen: Vec<&Symbol> = Vec::new();
    let mut i: usize = 0;
    while i < syms.len()
        invariant
            i <= syms@.len(),
            sv == syms.deep_view(),
            f == kind_filter(kv),
            match filter {
                Some(k) => f == Some(k@),
                None => f is None,
            },
            chosen.deep_view() == passing(f, sv.take(i as int)),
        decreases syms@.len() - i,
    {
        assert(sv.take(i + 1).drop_last() == sv.take(i as int));
        assert(sv.take(i + 1).last() == syms@[i as int]@);
        let s = syms[i];
        let ok = match filter {
            Some(k) => str_eq(s.kind.as_str(), k),
            None => true,
        };
        if ok {
            let ghost before = chosen@;
            let ghost beforev = chosen.deep_view();
            chosen.push(s);
            assert(chosen.deep_view() =~= beforev.push(s@)) by {
                assert forall|x: int| 0 <= x < beforev.len() implies chosen.deep_view()[x] == beforev[x] by {
                    assert(chosen@[x] == before[x]);
                }
            }
        }
        i += 1;
    }
    assert(sv.take(sv.len() as int) == sv);
    let ghost found = chosen.deep_view();
    if chosen.len() == 0 {
        let mut s = owned("(no symbol named ");
        let q = debug_str(name);
        push_str(&mut s, q.as_str());
        match filter {
            Some(k) => {
                push_str(&mut s, " of kind ");
                let qk = debug_str(k);
                push_str(&mut s, qk.as_str());
            },
            None => {},
        }
        push_str(&mut s, ". Try partial=true, or use grep for free-form search.)");
        return s;
    }
    let shown: usize = if chosen.len() > MAX_RESULTS {
        MAX_RESULTS
    } else {
        chosen.len()
    };
    let ghost shv = if found.len() > MAX_RESULTS {
        found.take(MAX_RESULTS as int)
    } else {
        found
    };
    let mut out = String::new();
    let mut j: usize = 0;
    while j < shown
        invariant
            shown <= chosen@.len(),
            found == chosen.deep_view(),
            shv.len() == shown,
            forall|k: int| 0 <= k < shown ==> #[trigger] shv[k] == found[k],
            j <= shown,
            out@ == hit_lines(shv.take(j as int)),
        decreases shown - j,
    {
        assert(shv.take(j + 1).drop_last() == shv.take(j as int));
        let s = chosen[j];
        assert(shv[j as int] == s@);
        push_str(&mut out, s.kind.as_str());
        push_str(&mut out, ": ");
        push_str(&mut out, s.name.as_str());
        push_str(&mut out, " (");
        push_str(&mut out, s.kind.as_str());
        push_str(&mut out, ") at ");
        push_str(&mut out, s.path.as_str());
        push_str(&mut out, ":");
        push_decimal(&mut out, s.line);
        push_str(&mut out, "\n");
        j += 1;
    }
    assert(shv.take(shown as int) == shv);
    out
}

} // verus!
