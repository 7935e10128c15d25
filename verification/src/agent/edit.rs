//! Editing a file: cleaning up the full-file reply of a model.
use vstd::prelude::*;

use crate::path::{join, join_paths};
use crate::text::{
    owned, push_str,
    ends_with, from_chars, next_nl, push_char, push_chars, starts_with, sub_chars, to_chars, trim,
    trim_chars, trim_end, trim_end_chars,
};

verus! {

/// A Markdown code fence.
pub open spec fn fence() -> Seq<char> {
    seq!['`', '`', '`']
}

/// `s[i..i + 3]` is a fence.
pub open spec fn fence_at(s: Seq<char>, i: int) -> bool {
    0 <= i && i + 3 <= s.len() && s[i] == '`' && s[i + 1] == '`' && s[i + 2] == '`'
}

/// Start of the last fence in `s` (`str::rfind("```")`), or -1.
pub open spec fn last_fence(s: Seq<char>) -> int {
    if exists|i: int| fence_at(s, i) {
        choose|i: int| fence_at(s, i) && forall|j: int| i < j ==> !fence_at(s, j)
    } else {
        -1
    }
}

/// What follows the opening fence: the text after the first newline (the
/// fence's language tag is dropped), or all of it when there is none.
pub open spec fn after_fence_line(rest: Seq<char>) -> Seq<char> {
    let nl = next_nl(rest, 0);
    if nl < rest.len() {
        rest.skip(nl + 1)
    } else {
        rest
    }
}

/// A model reply with one surrounding code fence removed. When the trimmed
/// reply opens with a fence and a closing fence follows, the result is the
/// text between them, trailing whitespace dropped and one newline added;
/// otherwise the reply is unchanged.
pub open spec fn unfenced(s: Seq<char>) -> Seq<char> {
    let t = trim(s);
    if starts_with(t, fence()) {
        let after = after_fence_line(t.skip(3));
        if ends_with(after, fence()) {
            trim_end(after.take(after.len() - 3)).push('\n')
        } else if last_fence(after) >= 0 {
            trim_end(after.take(last_fence(after))).push('\n')
        } else {
            s
        }
    } else {
        s
    }
}

/// Small models often wrap output in fences despite being told not to.
/// Strips a single leading/trailing fence if present.
pub fn strip_fences(s: &str) -> (r: String)
    ensures
        r@ == unfenced(s@),
{
    let cs = to_chars(s);
    let t = trim_chars(&cs);
    let n = t.len();
    if n >= 3 && t[0] == '`' && t[1] == '`' && t[2] == '`' {
        assert(t@.take(3) == fence());
        let rest = sub_chars(&t, 3, n);
        assert(rest@ == t@.skip(3));
        let mut i: usize = 0;
        while i < rest.len() && rest[i] != '\n'
            invariant
                i <= rest@.len(),
                forall|m: int| 0 <= m < i ==> rest@[m] != '\n',
            decreases rest@.len() - i,
        {
            i += 1;
        }
        proof {
            crate::text::lemma_next_nl_at(rest@, 0, i as int);
        }
        let after = if i < rest.len() {
            sub_chars(&rest, i + 1, rest.len())
        } else {
            rest
        };
        assert(after@ == after_fence_line(t@.skip(3)));
        let m = after.len();
        if m >= 3 && after[m - 3] == '`' && after[m - 2] == '`' && after[m - 1] == '`' {
            assert(after@.skip(m - 3) == fence());
            let body = sub_chars(&after, 0, m - 3);
            let trimmed = trim_end_chars(&body);
            let mut out = from_chars(&trimmed);
            push_char(&mut out, '\n');
            return out;
        }
        assert(!ends_with(after@, fence())) by {
            if ends_with(after@, fence()) {
                assert(after@.skip(m - 3)[0] == '`');
                assert(after@.skip(m - 3)[1] == '`');
                assert(after@.skip(m - 3)[2] == '`');
            }
        }
        let mut j: usize = m;
        while j >= 3 && !(after[j - 3] == '`' && after[j - 2] == '`' && after[j - 1] == '`')
            invariant
                j <= m == after@.len(),
                forall|k: int| j - 3 < k ==> !fence_at(after@, k),
            decreases j,
        {
            j -= 1;
        }
        if j >= 3 {
            let p = j - 3;
            proof {
                assert(fence_at(after@, p as int));
                let c = choose|i: int| fence_at(after@, i) && forall|k: int| i < k ==> !fence_at(after@, k);
                assert(c == p as int) by {
                    if c < p {
                        assert(!fence_at(after@, p as int));
                    } else if c > p {
                    }
                }
            }
            let body = sub_chars(&after, 0, p);
            let trimmed = trim_end_chars(&body);
            let mut out = from_chars(&trimmed);
            push_char(&mut out, '\n');
            return out;
        }
        assert(!exists|i: int| fence_at(after@, i));
    } else {
        assert(!starts_with(t@, fence())) by {
            if starts_with(t@, fence()) {
                assert(t@.take(3)[0] == '`');
                assert(t@.take(3)[1] == '`');
                assert(t@.take(3)[2] == '`');
            }
        }
    }
    let mut out = String::new();
    push_chars(&mut out, &cs);
    out
}

/// The user message asking for the whole edited file.
pub open spec fn edit_text(file: Seq<char>, original: Seq<char>, instruction: Seq<char>) -> Seq<char> {
    "Here is the current contents of "@ + file + ":\n\n```\n"@ + original + "\n```\n\nApply this change: "@
        + instruction
        + "\n\nRespond with the FULL updated file contents only — no commentary, no markdown fences, no diff format. Preserve formatting and existing code that doesn't need to change."@
}

/// The user message asking the model to apply `instruction` to `file`,
/// whose text is `original`.
pub fn edit_prompt(file: &str, original: &str, instruction: &str) -> (r: String)
    ensures
        r@ == edit_text(file@, original@, instruction@),
{
    let mut s = owned("Here is the current contents of ");
    push_str(&mut s, file);
    push_str(&mut s, ":\n\n```\n");
    push_str(&mut s, original);
    push_str(&mut s, "\n```\n\nApply this change: ");
    push_str(&mut s, instruction);
    push_str(
        &mut s,
        "\n\nRespond with the FULL updated file contents only — no commentary, no markdown fences, no diff format. Preserve formatting and existing code that doesn't need to change.",
    );
    s
}

/// The file an edit names: as given when absolute, else under the
/// repository root.
pub fn edit_target(repo: &str, file: &str) -> (r: String)
    ensures
        r@ == join(repo@, file@),
{
    let rc = to_chars(repo);
    let fc = to_chars(file);
    join_paths(&rc, &fc)
}

/// Whether the proposal leaves the file as it is, surrounding whitespace
/// aside.
pub fn unchanged(proposed: &str, original: &str) -> (r: bool)
    ensures
        r == (trim(proposed@) == trim(original@)),
{
    let p = to_chars(proposed);
    let o = to_chars(original);
    let pt = trim_chars(&p);
    let ot = trim_chars(&o);
    crate::text::chars_eq(&pt, &ot)
}

} // verus!
