//! `edit_file`: replace an exact substring that occurs once.
use vstd::prelude::*;

use crate::text::{
    chars_eq, decimal, find, find_seq, from_chars, occurs_at, owned, push_chars, push_decimal, push_str,
    sub_chars, to_chars,
};

verus! {

/// Non-overlapping occurrences of a non-empty `needle` in `hay` from
/// position `k` on, each found leftmost and the search going on after it.
pub open spec fn count_from(hay: Seq<char>, needle: Seq<char>, k: int) -> nat
    decreases hay.len() + 1 - k,
{
    if needle.len() == 0 || k < 0 || k + needle.len() > hay.len() {
        0
    } else if occurs_at(hay, needle, k) {
        1 + count_from(hay, needle, k + needle.len())
    } else {
        count_from(hay, needle, k + 1)
    }
}

/// How many matches `str::matches` finds: the non-overlapping occurrences,
/// or, for an empty pattern, one at each of the `len + 1` character
/// boundaries.
pub open spec fn match_count(hay: Seq<char>, needle: Seq<char>) -> nat {
    if needle.len() == 0 {
        hay.len() + 1
    } else {
        count_from(hay, needle, 0)
    }
}

/// `hay` with its first occurrence of `old` replaced by `new`
/// (`str::replacen(old, new, 1)`).
pub open spec fn replaced(hay: Seq<char>, old: Seq<char>, new: Seq<char>) -> Seq<char> {
    let i = find(hay, old);
    if i < 0 {
        hay
    } else {
        hay.take(i) + new + hay.skip(i + old.len())
    }
}

/// The number of matches of `needle` in `hay` (`str::matches(..).count()`).
pub fn count_matches(hay: &[char], needle: &[char]) -> (r: usize)
    requires
        hay@.len() < usize::MAX,
    ensures
        r == match_count(hay@, needle@),
{
    if needle.len() == 0 {
        return hay.len() + 1;
    }
    let n = needle.len();
    let mut count: usize = 0;
    let mut k: usize = 0;
    while k <= hay.len() && n <= hay.len() - k
        invariant
            n == needle@.len() > 0,
            count <= k,
            k <= hay@.len() + 1,
            count + count_from(hay@, needle@, k as int) == count_from(hay@, needle@, 0),
        decreases hay@.len() + 1 - k,
    {
        let window = sub_chars(hay, k, k + n);
        assert(window@ == hay@.skip(k as int).take(n as int));
        if chars_eq(&window, needle) {
            assert(occurs_at(hay@, needle@, k as int));
            count += 1;
            k += n;
        } else {
            assert(!occurs_at(hay@, needle@, k as int));
            k += 1;
        }
    }
    count
}

/// `hay` with its first occurrence of `old` replaced by `new`.
#[verifier::rlimit(40)]
pub fn replace_first(hay: &[char], old: &[char], new: &[char]) -> (r: String)
    ensures
        r@ == replaced(hay@, old@, new@),
{
    let found = find_seq(hay, old);
    proof {
        crate::text::lemma_find(hay@, old@);
    }
    match found {
        None => from_chars(hay),
        Some(i) => {
            let ghost j = find(hay@, old@);
            assert(i == j);
            assert(j >= 0);
            assert(j + old@.len() <= hay@.len());
            let hl = hay.len();
            assert(old@.len() <= hl);
            let end = i + old.len();
            let a = sub_chars(hay, 0, i);
            let b = sub_chars(hay, end, hay.len());
            let mut out = from_chars(&a);
            push_chars(&mut out, new);
            push_chars(&mut out, &b);
            assert(a@ == hay@.take(j));
            assert(b@ == hay@.skip(j + old@.len()));
            out
        }
    }
}

/// What an edit comes to, before anything is written.
#[derive(Debug)]
pub enum EditPlan {
    /// `old_string` does not occur.
    NotFound,
    /// `old_string` matches this many times.
    Ambiguous(usize),
    /// Replacing it changes nothing.
    NoChange,
    /// The file's new text.
    Apply(String),
}

/// The edit of `original` that replaces `old` by `new`, which must occur
/// exactly once.
pub fn plan_edit(original: &str, old: &str, new: &str) -> (r: EditPlan)
    requires
        original@.len() < usize::MAX,
    ensures
        match_count(original@, old@) == 0 ==> r is NotFound,
        match_count(original@, old@) > 1 ==> (r matches EditPlan::Ambiguous(n) && n == match_count(original@, old@)),
        match_count(original@, old@) == 1 && replaced(original@, old@, new@) == original@ ==> r is NoChange,
        match_count(original@, old@) == 1 && replaced(original@, old@, new@) != original@ ==> (r matches EditPlan::Apply(u) && u@ == replaced(original@, old@, new@)),
{
    let o = to_chars(original);
    let oc = to_chars(old);
    let nc = to_chars(new);
    let n = count_matches(&o, &oc);
    if n == 0 {
        return EditPlan::NotFound;
    }
    if n > 1 {
        return EditPlan::Ambiguous(n);
    }
    let updated = replace_first(&o, &oc, &nc);
    let uc = to_chars(updated.as_str());
    if chars_eq(&uc, &o) {
        EditPlan::NoChange
    } else {
        EditPlan::Apply(updated)
    }
}

/// The reply when `old_string` does not occur in `path`.
pub fn not_found_message(path: &str) -> (r: String)
    ensures
        r@ == "ERROR: old_string not found in "@ + path@ + ". Re-read the file to see exact contents."@,
{
    let mut s = owned("ERROR: old_string not found in ");
    push_str(&mut s, path);
    push_str(&mut s, ". Re-read the file to see exact contents.");
    s
}

/// The reply when `old_string` matches `n` times in `path`.
pub fn ambiguous_message(n: usize, path: &str) -> (r: String)
    ensures
        r@ == "ERROR: old_string matches "@ + decimal(n as nat) + " times in "@ + path@
            + ". Make old_string longer/more unique."@,
{
    let mut s = owned("ERROR: old_string matches ");
    push_decimal(&mut s, n);
    push_str(&mut s, " times in ");
    push_str(&mut s, path);
    push_str(&mut s, ". Make old_string longer/more unique.");
    s
}

/// The reply when the edit changes nothing.
pub fn no_change_message(path: &str) -> (r: String)
    ensures
        r@ == "(no change — old_string == new_string in "@ + path@ + ")"@,
{
    let mut s = owned("(no change — old_string == new_string in ");
    push_str(&mut s, path);
    push_str(&mut s, ")");
    s
}

/// The question put to the user before the edit is written.
pub fn confirm_prompt(path: &str) -> (r: String)
    ensures
        r@ == "Apply edit to "@ + path@ + "?"@,
{
    let mut s = owned("Apply edit to ");
    push_str(&mut s, path);
    push_str(&mut s, "?");
    s
}

/// The reply when the user turns the edit down.
pub fn rejected_message(path: &str) -> (r: String)
    ensures
        r@ == "user rejected edit to "@ + path@,
{
    let mut s = owned("user rejected edit to ");
    push_str(&mut s, path);
    s
}

/// The reply once the edit is written: the file's size before and after,
/// in bytes.
pub fn edited_message(path: &str, old_bytes: usize, new_bytes: usize) -> (r: String)
    ensures
        r@ == "edited "@ + path@ + " ("@ + decimal(old_bytes as nat) + " bytes -> "@ + decimal(
            new_bytes as nat,
        ) + " bytes)"@,
{
    let mut s = owned("edited ");
    push_str(&mut s, path);
    push_str(&mut s, " (");
    push_decimal(&mut s, old_bytes);
    push_str(&mut s, " bytes -> ");
    push_decimal(&mut s, new_bytes);
    push_str(&mut s, " bytes)");
    s
}

/// After a replacement of a text that occurs, the new text stands where
/// the old one was found, with what came before it untouched.
pub proof fn lemma_replaced_holds_new(hay: Seq<char>, old: Seq<char>, new: Seq<char>)
    requires
        find(hay, old) >= 0,
    ensures
        occurs_at(replaced(hay, old, new), new, find(hay, old)),
        replaced(hay, old, new).take(find(hay, old)) == hay.take(find(hay, old)),
        replaced(hay, old, new).len() == hay.len() - old.len() + new.len(),
{
    crate::text::lemma_find(hay, old);
    let i = find(hay, old);
    let r = replaced(hay, old, new);
    assert(r.skip(i).take(new.len() as int) =~= new);
    assert(r.take(i) =~= hay.take(i));
}

} // verus!
