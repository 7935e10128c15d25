//! Diffs shown before a change is applied, and confirmations: what counts
//! as a yes.
use vstd::prelude::*;

use crate::text::{
    ascii_lower_chars, is_str, is_ws, lemma_trim_end_at, lemma_trim_start_at, lower_seq, owned, plain_word,
    push_str, to_chars, trim, trim_chars,
};

verus! {

/// The answer typed at a yes/no prompt means yes: `y` or `yes`, ASCII case
/// and surrounding whitespace ignored.
pub open spec fn affirmative(line: Seq<char>) -> bool {
    lower_seq(trim(line)) == "y"@ || lower_seq(trim(line)) == "yes"@
}

/// Whether the answer typed at a yes/no prompt means yes.
pub fn is_affirmative(line: &str) -> (r: bool)
    ensures
        r == affirmative(line@),
{
    let c = to_chars(line);
    let t = trim_chars(&c);
    let l = ascii_lower_chars(&t);
    is_str(&l, "y") || is_str(&l, "yes")
}

/// The line changes of a line diff of `old` and `new`, grouped into hunks
/// with three lines of context (`TextDiff::from_lines`, `grouped_ops(3)`,
/// `iter_changes`), hunk after hunk: for each, its tag (0 kept, 1 removed,
/// 2 added), the line with its newline, and whether the line lacks one.
pub uninterp spec fn line_changes(old: Seq<char>, new: Seq<char>) -> Seq<(u8, Seq<char>, bool)>;

/// The line changes of a diff of `old` and `new` (`similar`'s Myers line
/// diff with its default configuration, which sets no deadline).
#[verifier::external_body]
fn diff_changes(old: &str, new: &str) -> (r: Vec<(u8, String, bool)>)
    ensures
        r.deep_view() == line_changes(old@, new@),
{
    let diff = similar::TextDiff::from_lines(old, new);
    let mut out = Vec::new();
    for group in diff.grouped_ops(3) {
        for op in group {
            for c in diff.iter_changes(&op) {
                let tag = match c.tag() {
                    similar::ChangeTag::Equal => 0u8,
                    similar::ChangeTag::Delete => 1u8,
                    similar::ChangeTag::Insert => 2u8,
                };
                out.push((tag, c.value().to_string(), c.missing_newline()));
            }
        }
    }
    out
}

/// How a piece of a printed diff is shown.
#[derive(Clone, Copy, Debug, PartialEq, Eq, Structural)]
pub enum DiffTint {
    /// The `---` header (red, bold).
    OldHeader,
    /// The `+++` header (green, bold).
    NewHeader,
    /// A removed line (red).
    Removed,
    /// An added line (green).
    Added,
    /// A line kept as context (dim).
    Context,
    /// Plain text.
    Plain,
}

impl DeepView for DiffTint {
    type V = DiffTint;

    open spec fn deep_view(&self) -> DiffTint {
        *self
    }
}

/// The pieces printed for one line change: the sign and the line in the
/// change's tint, then a newline where the line lacks one.
pub open spec fn change_pieces(c: (u8, Seq<char>, bool)) -> Seq<(DiffTint, Seq<char>)> {
    let piece = if c.0 == 1 {
        (DiffTint::Removed, "-"@ + c.1)
    } else if c.0 == 2 {
        (DiffTint::Added, "+"@ + c.1)
    } else {
        (DiffTint::Context, " "@ + c.1)
    };
    if c.2 {
        seq![piece, (DiffTint::Plain, "\n"@)]
    } else {
        seq![piece]
    }
}

/// The pieces printed for a run of line changes, in order.
pub open spec fn changes_pieces(cs: Seq<(u8, Seq<char>, bool)>) -> Seq<(DiffTint, Seq<char>)>
    decreases cs.len(),
{
    if cs.len() == 0 {
        seq![]
    } else {
        changes_pieces(cs.drop_last()) + change_pieces(cs.last())
    }
}

/// The whole printed diff of the file `label`: the two headers, then the
/// pieces of every line change of `old` against `new`.
pub open spec fn diff_pieces(label: Seq<char>, old: Seq<char>, new: Seq<char>) -> Seq<(DiffTint, Seq<char>)> {
    seq![
        (DiffTint::OldHeader, "--- "@ + label + " (old)\n"@),
        (DiffTint::NewHeader, "+++ "@ + label + " (new)\n"@),
    ] + changes_pieces(line_changes(old, new))
}

/// The text and tint of each piece of the colored unified diff of `old`
/// against `new` for the file `label`, in the order they are printed.
pub fn diff_display(label: &str, old: &str, new: &str) -> (r: Vec<(DiffTint, String)>)
    ensures
        r.deep_view() == diff_pieces(label@, old@, new@),
{
    let changes = diff_changes(old, new);
    let ghost cv = changes.deep_view();
    let mut out: Vec<(DiffTint, String)> = Vec::new();
    let mut h1 = owned("--- ");
    push_str(&mut h1, label);
    push_str(&mut h1, " (old)\n");
    let mut h2 = owned("+++ ");
    push_str(&mut h2, label);
    push_str(&mut h2, " (new)\n");
    out.push((DiffTint::OldHeader, h1));
    out.push((DiffTint::NewHeader, h2));
    let ghost head = out.deep_view();
    assert(head =~= seq![
        (DiffTint::OldHeader, "--- "@ + label@ + " (old)\n"@),
        (DiffTint::NewHeader, "+++ "@ + label@ + " (new)\n"@),
    ]);
    let mut i: usize = 0;
    while i < changes.len()
        invariant
            i <= changes@.len(),
            cv == changes.deep_view(),
            out.deep_view() == head + changes_pieces(cv.take(i as int)),
        decreases changes@.len() - i,
    {
        let (tag, line, missing) = &changes[i];
        assert(cv[i as int] == (*tag, line@, *missing));
        assert(cv.take(i + 1).drop_last() == cv.take(i as int));
        assert(cv.take(i + 1).last() == cv[i as int]);
        let ghost before = out.deep_view();
        let (tint, sign) = if *tag == 1 {
            (DiffTint::Removed, "-")
        } else if *tag == 2 {
            (DiffTint::Added, "+")
        } else {
            (DiffTint::Context, " ")
        };
        let mut piece = owned(sign);
        push_str(&mut piece, line.as_str());
        out.push((tint, piece));
        if *missing {
            out.push((DiffTint::Plain, owned("\n")));
        }
        assert(out.deep_view() =~= before + change_pieces(cv[i as int]));
        assert(head + changes_pieces(cv.take(i + 1)) =~= before + change_pieces(cv[i as int]));
        i += 1;
    }
    assert(cv.take(cv.len() as int) == cv);
    out
}

} // verus!
