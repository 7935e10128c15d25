//! `read_file`: a window of a file's lines, numbered.
use vstd::prelude::*;

use crate::text::{decimal, lines, push_chars, push_decimal, push_str, split_lines, to_chars};

verus! {

/// Lines shown when the call names no limit.
pub const DEFAULT_LIMIT: usize = 500;

/// Lines shown at most.
pub const MAX_LIMIT: usize = 2000;

/// The first line (from 1) and the number of lines a call asks for: the
/// offset defaults to 1 and is at least 1, the limit defaults to
/// `DEFAULT_LIMIT` and is at most `MAX_LIMIT`.
pub fn read_window(offset: Option<u64>, limit: Option<u64>) -> (r: (usize, usize))
    ensures
        r.0 == (match offset {
            Some(o) => if o >= 1 { o } else { 1 },
            None => 1,
        }) as usize,
        r.1 == if (match limit {
            Some(l) => l,
            None => DEFAULT_LIMIT as u64,
        }) as usize <= MAX_LIMIT {
            (match limit {
                Some(l) => l,
                None => DEFAULT_LIMIT as u64,
            }) as usize
        } else {
            MAX_LIMIT
        },
{
    let o: u64 = match offset {
        Some(o) => if o >= 1 { o } else { 1 },
        None => 1,
    };
    let l: u64 = match limit {
        Some(l) => l,
        None => DEFAULT_LIMIT as u64,
    };
    let lu = l as usize;
    (o as usize, if lu <= MAX_LIMIT { lu } else { MAX_LIMIT })
}

/// `n` in decimal, right-aligned in a field of five characters.
pub open spec fn padded5(n: nat) -> Seq<char> {
    let d = decimal(n);
    if d.len() < 5 {
        Seq::new((5 - d.len()) as nat, |i: int| ' ') + d
    } else {
        d
    }
}

/// Numbered lines `ls[from..to]`, each as `{:>5}  {line}\n` with its number
/// from 1.
pub open spec fn numbered(ls: Seq<Seq<char>>, from: int, to: int) -> Seq<char>
    decreases to - from,
{
    if to <= from {
        seq![]
    } else {
        numbered(ls, from, to - 1) + padded5(to as nat) + "  "@ + ls[to - 1] + "\n"@
    }
}

/// What `read_file` returns for a file with text `text`, from line
/// `offset` (from 1) for at most `limit` lines: the numbered lines and, when
/// lines are left after them, a note of which were shown; or, when no line
/// is shown, a note that the offset is past the end.
pub open spec fn read_result(text: Seq<char>, offset: int, limit: int) -> Seq<char> {
    let ls = lines(text);
    let total = ls.len() as int;
    let start = if offset >= 1 { offset - 1 } else { 0 };
    let end = if start >= total { start } else if limit <= total - start { start + limit } else { total };
    let shown = end - start;
    if shown <= 0 {
        "(file has "@ + decimal(total as nat) + " lines; offset "@ + decimal(offset as nat)
            + " is past the end)"@
    } else if end < total {
        numbered(ls, start, end) + "\n[showed lines "@ + decimal((start + 1) as nat) + "-"@
            + decimal(end as nat) + " of "@ + decimal(total as nat)
            + "; pass offset/limit to see more]\n"@
    } else {
        numbered(ls, start, end)
    }
}

/// Appends `n` right-aligned in five characters.
fn push_padded5(s: &mut String, n: usize)
    ensures
        final(s)@ == old(s)@ + padded5(n as nat),
{
    let d = crate::text::decimal_chars(n);
    let mut k = d.len();
    let ghost before = s@;
    let mut pad: usize = 0;
    while k < 5
        invariant
            d@ == decimal(n as nat),
            d@.len() <= k <= 5 || (k == d@.len() && k >= 5),
            pad == k - d@.len(),
            s@ == before + Seq::new(pad as nat, |i: int| ' '),
        decreases 5 - k,
    {
        crate::text::push_char(s, ' ');
        assert(s@ =~= before + Seq::new((pad + 1) as nat, |i: int| ' '));
        k += 1;
        pad += 1;
    }
    push_chars(s, &d);
    if d.len() >= 5 {
        assert(Seq::new(0nat, |i: int| ' ') + d@ =~= d@);
    }
}

/// The text `read_file` returns: see `read_result`.
pub fn render_read(text: &str, offset: usize, limit: usize) -> (r: String)
    ensures
        r@ == read_result(text@, offset as int, limit as int),
{
    let chars = to_chars(text);
    let ls = split_lines(&chars);
    let ghost lv = ls.deep_view();
    let total = ls.len();
    let start: usize = if offset >= 1 { offset - 1 } else { 0 };
    let end: usize = if start >= total {
        start
    } else if limit <= total - start {
        start + limit
    } else {
        total
    };
    if end <= start {
        let mut s = crate::text::owned("(file has ");
        push_decimal(&mut s, total);
        push_str(&mut s, " lines; offset ");
        push_decimal(&mut s, offset);
        push_str(&mut s, " is past the end)");
        return s;
    }
    let mut out = String::new();
    let mut i = start;
    while i < end
        invariant
            start <= i <= end <= total == ls@.len(),
            lv == ls.deep_view(),
            lv == lines(text@),
            out@ == numbered(lv, start as int, i as int),
        decreases end - i,
    {
        push_padded5(&mut out, i + 1);
        push_str(&mut out, "  ");
        push_chars(&mut out, &ls[i]);
        push_str(&mut out, "\n");
        assert(lv[i as int] == ls@[i as int]@);
        i += 1;
    }
    if end < total {
        push_str(&mut out, "\n[showed lines ");
        push_decimal(&mut out, start + 1);
        push_str(&mut out, "-");
        push_decimal(&mut out, end);
        push_str(&mut out, " of ");
        push_decimal(&mut out, total);
        push_str(&mut out, "; pass offset/limit to see more]\n");
    }
    out
}

} // verus!
