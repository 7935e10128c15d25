//! `write_file`: create a file or overwrite one.
use vstd::prelude::*;

use crate::text::{decimal, join_with, lines, owned, push_chars, push_decimal, push_str, split_lines, str_eq, to_chars};

verus! {

broadcast use crate::text::lemma_chars_deep_view;

/// Lines of a new file shown before it is created.
pub const PREVIEW_LINES: usize = 30;

/// What a write comes to.
#[derive(Clone, Copy, Debug, PartialEq, Eq, Structural)]
pub enum WriteKind {
    /// The file exists and already holds the contents.
    NoChange,
    /// The file does not exist.
    Create,
    /// The file exists with other contents.
    Overwrite,
}

/// What writing `contents` to a file does, given whether the file exists
/// and what it holds (`original`, empty when it cannot be read).
pub fn write_kind(is_new: bool, original: &str, contents: &str) -> (r: WriteKind)
    ensures
        is_new ==> r == WriteKind::Create,
        !is_new && original@ == contents@ ==> r == WriteKind::NoChange,
        !is_new && original@ != contents@ ==> r == WriteKind::Overwrite,
{
    if is_new {
        WriteKind::Create
    } else if str_eq(original, contents) {
        WriteKind::NoChange
    } else {
        WriteKind::Overwrite
    }
}

/// What is shown of a new file before it is created: a header with its
/// size in bytes, its first lines, and how many more there are.
pub open spec fn new_file_text(path: Seq<char>, bytes: nat, contents: Seq<char>) -> Seq<char> {
    let ls = lines(contents);
    let shown = if ls.len() > PREVIEW_LINES {
        ls.take(PREVIEW_LINES as int)
    } else {
        ls
    };
    "--- new file: "@ + path + " ("@ + decimal(bytes) + " bytes) ---\n"@ + join_with(shown, "\n"@)
        + "\n"@ + if ls.len() > PREVIEW_LINES {
        "... ["@ + decimal((ls.len() - PREVIEW_LINES) as nat) + " more lines]\n"@
    } else {
        seq![]
    }
}

/// The preview of a new file of `bytes` bytes at `path`.
pub fn new_file_preview(path: &str, bytes: usize, contents: &str) -> (r: String)
    ensures
        r@ == new_file_text(path@, bytes as nat, contents@),
{
    let chars = to_chars(contents);
    let ls = split_lines(&chars);
    let ghost lv = ls.deep_view();
    let n = ls.len();
    let shown: usize = if n > PREVIEW_LINES {
        PREVIEW_LINES
    } else {
        n
    };
    let ghost sv = if lv.len() > PREVIEW_LINES {
        lv.take(PREVIEW_LINES as int)
    } else {
        lv
    };
    let mut s = owned("--- new file: ");
    push_str(&mut s, path);
    push_str(&mut s, " (");
    push_decimal(&mut s, bytes);
    push_str(&mut s, " bytes) ---\n");
    let ghost head = s@;
    let mut i: usize = 0;
    while i < shown
        invariant
            i <= shown <= n == ls@.len(),
            lv == ls.deep_view(),
            sv.len() == shown,
            forall|k: int| 0 <= k < shown ==> #[trigger] sv[k] == lv[k],
            s@ == head + join_with(sv.take(i as int), "\n"@),
        decreases shown - i,
    {
        assert(sv.take(i + 1).drop_last() == sv.take(i as int));
        assert(sv.take(i + 1).last() == ls@[i as int]@);
        if i > 0 {
            push_str(&mut s, "\n");
        }
        push_chars(&mut s, &ls[i]);
        i += 1;
    }
    assert(sv.take(shown as int) == sv);
    push_str(&mut s, "\n");
    if n > PREVIEW_LINES {
        push_str(&mut s, "... [");
        push_decimal(&mut s, n - PREVIEW_LINES);
        push_str(&mut s, " more lines]\n");
    }
    s
}

/// The reply when the file already holds the contents.
pub fn no_change_message(path: &str) -> (r: String)
    ensures
        r@ == "(no change — contents identical for "@ + path@ + ")"@,
{
    let mut s = owned("(no change — contents identical for ");
    push_str(&mut s, path);
    push_str(&mut s, ")");
    s
}

/// The question put to the user before writing.
pub fn confirm_prompt(is_new: bool, path: &str) -> (r: String)
    ensures
        r@ == (if is_new {
            "Create"@
        } else {
            "Overwrite"@
        }) + " "@ + path@ + "?"@,
{
    let mut s = if is_new {
        owned("Create")
    } else {
        owned("Overwrite")
    };
    push_str(&mut s, " ");
    push_str(&mut s, path);
    push_str(&mut s, "?");
    s
}

/// The reply when the user turns the write down.
pub fn rejected_message(path: &str) -> (r: String)
    ensures
        r@ == "user rejected write to "@ + path@,
{
    let mut s = owned("user rejected write to ");
    push_str(&mut s, path);
    s
}

/// The reply once the file is written, with its size in bytes.
pub fn written_message(is_new: bool, path: &str, bytes: usize) -> (r: String)
    ensures
        r@ == (if is_new {
            "created"@
        } else {
            "overwrote"@
        }) + " "@ + path@ + " ("@ + decimal(bytes as nat) + " bytes)"@,
{
    let mut s = if is_new {
        owned("created")
    } else {
        owned("overwrote")
    };
    push_str(&mut s, " ");
    push_str(&mut s, path);
    push_str(&mut s, " (");
    push_decimal(&mut s, bytes);
    push_str(&mut s, " bytes)");
    s
}

} // verus!
