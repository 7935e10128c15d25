//! Repo manifest: a compact file tree with a one-line summary per file,
//! which is put in the chat system prompt so that the model starts out
//! oriented. Summaries come from a heuristic (first comment, docstring or
//! declarative line).
use vstd::prelude::*;

use crate::rag::scan::code_ext;
use crate::path::{
    comps_lt, compare_component_seqs, components, display, display_components, extension, extension_of,
    copy_components, file_name, file_name_of, lemma_comps_lt_order, parent, path_components, Comp,
    Component,
};
use crate::text::{
    collapse_whitespace, find, find_seq, decimal, push_char, push_chars, push_decimal, push_str, from_chars, has_prefix, is_str, join_words, lines, split_lines,
    starts_with, sub_chars, to_chars, trim, trim_chars, trim_start, trim_start_by,
    trim_start_chars, words, trim_end, lemma_words_plain, lemma_words_of_join, lemma_join_ends,
    lemma_trim_len, plain_word, plain_words, is_ws, join_with, no_nl, trim_same, lemma_lines_no_nl, lemma_lines_of_join,
};

verus! {

broadcast use crate::text::lemma_chars_deep_view;

/// At most this many files are listed.
pub const MAX_FILES_LISTED: usize = 80;

/// The walk goes at most this deep.
pub const MAX_DEPTH: usize = 4;

/// Files larger than this many bytes get no summary and are not listed.
pub const MAX_FILE_BYTES_FOR_SUMMARY: u64 = 262144;

/// A summary holds at most this many characters of its source line.
pub const SUMMARY_MAX_CHARS: usize = 100;

/// The rendered tree of a repository.
pub struct Manifest {
    pub root: String,
    pub rendered: String,
    pub file_count: usize,
}

// ---------------------------------------------------------------------
// Summaries
// ---------------------------------------------------------------------

/// A summary line: its first 100 characters with whitespace runs collapsed
/// to single spaces and the ends trimmed.
pub open spec fn cleaned(s: Seq<char>) -> Seq<char> {
    let head = if s.len() <= 100 {
        s
    } else {
        s.take(100)
    };
    join_words(words(trim(head)))
}

/// Cleans up a summary line.
pub fn clean(s: &[char]) -> (r: String)
    ensures
        r@ == cleaned(s@),
{
    let head = if s.len() <= SUMMARY_MAX_CHARS {
        sub_chars(s, 0, s.len())
    } else {
        sub_chars(s, 0, SUMMARY_MAX_CHARS)
    };
    assert(s@.subrange(0, s@.len() as int) == s@);
    let t = trim_chars(&head);
    let w = collapse_whitespace(&t);
    from_chars(&w)
}

/// The characters that may follow a comment opener (`/`, `*`, `<`, `-`, `!`, `#`).
pub open spec fn is_comment_mark(c: char) -> bool {
    c == '/' || c == '*' || c == '<' || c == '-' || c == '!' || c == '#'
}

/// The comment openers, tried in this order.
pub open spec fn comment_opener(t: Seq<char>) -> int {
    if starts_with(t, "///"@) {
        3
    } else if starts_with(t, "//!"@) {
        3
    } else if starts_with(t, "//"@) {
        2
    } else if starts_with(t, "#!"@) {
        2
    } else if starts_with(t, "#"@) {
        1
    } else if starts_with(t, "/*"@) {
        2
    } else if starts_with(t, "*"@) {
        1
    } else if starts_with(t, "<!--"@) {
        4
    } else {
        0
    }
}

/// The text of a comment line: after its opener, further comment marks
/// and surrounding whitespace dropped. `None` when the line does not start
/// with a comment opener.
pub open spec fn comment_body(t: Seq<char>) -> Option<Seq<char>> {
    let k = comment_opener(t);
    if k == 0 {
        None
    } else {
        Some(trim(trim_start_by(t.skip(k), |c: char| is_comment_mark(c))))
    }
}

/// Drops the comment opener of a line.
pub fn strip_comment_lead(line: &[char]) -> (r: Option<Vec<char>>)
    ensures
        r.deep_view() == comment_body(line@),
{
    let k: usize = if has_prefix(line, "///") {
        3
    } else if has_prefix(line, "//!") {
        3
    } else if has_prefix(line, "//") {
        2
    } else if has_prefix(line, "#!") {
        2
    } else if has_prefix(line, "#") {
        1
    } else if has_prefix(line, "/*") {
        2
    } else if has_prefix(line, "*") {
        1
    } else if has_prefix(line, "<!--") {
        4
    } else {
        0
    };
    assert(k as int == comment_opener(line@));
    if k == 0 {
        return None;
    }
    proof {
        reveal_strlit("///");
        reveal_strlit("//!");
        reveal_strlit("//");
        reveal_strlit("#!");
        reveal_strlit("#");
        reveal_strlit("/*");
        reveal_strlit("*");
        reveal_strlit("<!--");
    }
    let rest = sub_chars(line, k, line.len());
    let mut i: usize = 0;
    while i < rest.len() && (rest[i] == '/' || rest[i] == '*' || rest[i] == '<' || rest[i] == '-'
        || rest[i] == '!' || rest[i] == '#')
        invariant
            i <= rest@.len(),
            forall|m: int| 0 <= m < i ==> is_comment_mark(#[trigger] rest@[m]),
        decreases rest@.len() - i,
    {
        i += 1;
    }
    proof {
        crate::text::lemma_trim_start_by_at(rest@, |c: char| is_comment_mark(c), i as int);
        assert(rest@ == line@.skip(k as int));
    }
    let marks_off = sub_chars(&rest, i, rest.len());
    let body = trim_chars(&marks_off);
    let r = Some(body);
    assert(r.deep_view() == Some(body@));
    r
}

/// Attribute lines (`#[derive ...]`, `#![allow ...]`) are not summaries.
pub open spec fn attribute_like(s: Seq<char>) -> bool {
    let t = trim_start_by(s, |c: char| c == '!');
    ||| starts_with(t, "[derive"@)
    ||| starts_with(t, "[cfg"@)
    ||| starts_with(t, "[allow"@)
    ||| starts_with(t, "[serde"@)
    ||| starts_with(t, "[arg"@)
    ||| starts_with(t, "[command"@)
    ||| starts_with(t, "[tokio"@)
}

/// Whether a comment body is really an attribute.
pub fn looks_like_attribute(s: &[char]) -> (r: bool)
    ensures
        r == attribute_like(s@),
{
    let mut i: usize = 0;
    while i < s.len() && s[i] == '!'
        invariant
            i <= s@.len(),
            forall|m: int| 0 <= m < i ==> #[trigger] s@[m] == '!',
        decreases s@.len() - i,
    {
        i += 1;
    }
    proof {
        crate::text::lemma_trim_start_by_at(s@, |c: char| c == '!', i as int);
    }
    let t = sub_chars(s, i, s.len());
    has_prefix(&t, "[derive") || has_prefix(&t, "[cfg") || has_prefix(&t, "[allow") || has_prefix(
        &t,
        "[serde",
    ) || has_prefix(&t, "[arg") || has_prefix(&t, "[command") || has_prefix(&t, "[tokio")
}

/// A line that declares something, usable as a summary.
pub open spec fn declarative(t: Seq<char>) -> bool {
    ||| starts_with(t, "pub "@)
    ||| starts_with(t, "fn "@)
    ||| starts_with(t, "def "@)
    ||| starts_with(t, "class "@)
    ||| starts_with(t, "function "@)
    ||| starts_with(t, "export "@)
    ||| starts_with(t, "package "@)
    ||| starts_with(t, "interface "@)
}

fn is_declarative(t: &[char]) -> (r: bool)
    ensures
        r == declarative(t@),
{
    has_prefix(t, "pub ") || has_prefix(t, "fn ") || has_prefix(t, "def ") || has_prefix(
        t,
        "class ",
    ) || has_prefix(t, "function ") || has_prefix(t, "export ") || has_prefix(t, "package ")
        || has_prefix(t, "interface ")
}

/// The summary taken from lines `ls[k..]`: the first non-blank line decides.
/// A comment with a non-attribute body gives that body; a comment without
/// one is passed over; a declarative line gives itself; any other line
/// gives no summary.
pub open spec fn comment_summary(ls: Seq<Seq<char>>, k: int) -> Seq<char>
    decreases ls.len() - k,
{
    if k < 0 || k >= ls.len() {
        seq![]
    } else {
        let t = trim(ls[k]);
        if t.len() == 0 {
            comment_summary(ls, k + 1)
        } else {
            match comment_body(t) {
                Some(s) => if s.len() > 0 && !attribute_like(s) {
                    cleaned(s)
                } else {
                    comment_summary(ls, k + 1)
                },
                None => if declarative(t) {
                    cleaned(t)
                } else {
                    seq![]
                },
            }
        }
    }
}

/// The Markdown summary from lines `ls[k..]`: the first non-blank line,
/// without its heading marks.
pub open spec fn md_summary(ls: Seq<Seq<char>>, k: int) -> Seq<char>
    decreases ls.len() - k,
{
    if k < 0 || k >= ls.len() {
        seq![]
    } else {
        let t = trim(ls[k]);
        if t.len() == 0 {
            md_summary(ls, k + 1)
        } else {
            cleaned(trim(trim_start_by(t, |c: char| c == '#')))
        }
    }
}

/// The first line of `s`, or nothing when `s` has no lines.
pub open spec fn first_line(s: Seq<char>) -> Seq<char> {
    if lines(s).len() > 0 {
        lines(s)[0]
    } else {
        seq![]
    }
}

/// The summary of a Python file that opens with a docstring delimited by
/// `q`, if it does.
pub open spec fn docstring_with(text: Seq<char>, q: Seq<char>) -> Option<Seq<char>> {
    let t = trim_start(text);
    if starts_with(t, q) && find(t.skip(3), q) >= 0 {
        Some(cleaned(first_line(t.skip(3).take(find(t.skip(3), q)))))
    } else {
        None
    }
}

/// The summary of a Python file from its leading docstring, if it has one.
pub open spec fn docstring(text: Seq<char>) -> Option<Seq<char>> {
    match docstring_with(text, "\"\"\""@) {
        Some(s) => Some(s),
        None => docstring_with(text, "'''"@),
    }
}

/// The one-line summary of a file with text `text` at `path`: a Python
/// file's leading docstring; a Markdown file's first non-blank line; else
/// the first comment (or declarative line) among the first 50 lines.
pub open spec fn summary(text: Seq<char>, path: Seq<char>) -> Seq<char> {
    let ext = match extension(path) {
        Some(e) => e,
        None => seq![],
    };
    if ext == "py"@ && docstring(text) is Some {
        docstring(text)->Some_0
    } else if ext == "md"@ {
        md_summary(lines(text), 0)
    } else {
        let ls = lines(text);
        comment_summary(if ls.len() <= 50 {
            ls
        } else {
            ls.take(50)
        }, 0)
    }
}

/// A summary's shape: at most 100 characters, and its words joined with
/// single spaces are itself (no leading, trailing or repeated whitespace,
/// no newline).
pub open spec fn summary_shaped(r: Seq<char>) -> bool {
    r.len() <= 100 && join_words(words(r)) == r
}

/// A cleaned line has a summary's shape and nothing to trim.
proof fn lemma_cleaned_shape(s: Seq<char>)
    ensures
        summary_shaped(cleaned(s)),
        trim(cleaned(s)) == cleaned(s),
{
    let head = if s.len() <= 100 {
        s
    } else {
        s.take(100)
    };
    lemma_trim_len(head);
    lemma_words_plain(trim(head));
    let ws = words(trim(head));
    let j = join_words(ws);
    assert(j == cleaned(s));
    lemma_words_of_join(ws);
    if ws.len() > 0 {
        lemma_join_ends(ws);
        assert(trim_start(j) == j);
        assert(trim_end(j) == j);
    } else {
        assert(j.len() == 0);
        assert(trim_start(j) == j);
        assert(trim_end(j) == j);
    }
}

/// Cleaning a cleaned line changes nothing.
pub proof fn lemma_clean_idempotent(s: Seq<char>)
    ensures
        cleaned(cleaned(s)) == cleaned(s),
{
    lemma_cleaned_shape(s);
}

/// No summary at all has a summary's shape.
proof fn lemma_empty_shaped()
    ensures
        summary_shaped(Seq::<char>::empty()),
{
    let e = Seq::<Seq<char>>::empty();
    lemma_words_of_join(e);
    assert(join_words(e) == Seq::<char>::empty());
}

/// Every comment summary has a summary's shape.
proof fn lemma_comment_summary_shape(ls: Seq<Seq<char>>, k: int)
    ensures
        summary_shaped(comment_summary(ls, k)),
    decreases ls.len() - k,
{
    lemma_empty_shaped();
    if 0 <= k < ls.len() {
        lemma_comment_summary_shape(ls, k + 1);
        let t = trim(ls[k]);
        lemma_cleaned_shape(t);
        match comment_body(t) {
            Some(b) => {
                lemma_cleaned_shape(b);
            },
            None => {},
        }
    }
}

/// Every Markdown summary has a summary's shape.
proof fn lemma_md_summary_shape(ls: Seq<Seq<char>>, k: int)
    ensures
        summary_shaped(md_summary(ls, k)),
    decreases ls.len() - k,
{
    lemma_empty_shaped();
    if 0 <= k < ls.len() {
        lemma_md_summary_shape(ls, k + 1);
        lemma_cleaned_shape(trim(trim_start_by(trim(ls[k]), |c: char| c == '#')));
    }
}

/// A docstring summary has a summary's shape.
proof fn lemma_docstring_shape(text: Seq<char>, q: Seq<char>)
    ensures
        docstring_with(text, q) matches Some(d) ==> summary_shaped(d),
{
    let t = trim_start(text);
    lemma_cleaned_shape(first_line(t.skip(3).take(find(t.skip(3), q))));
}

/// Every summary is at most 100 characters, with its whitespace collapsed:
/// no leading, trailing or repeated whitespace and no newline.
pub proof fn lemma_summary_shape(text: Seq<char>, path: Seq<char>)
    ensures
        summary(text, path).len() <= 100,
        join_words(words(summary(text, path))) == summary(text, path),
{
    lemma_docstring_shape(text, "\"\"\""@);
    lemma_docstring_shape(text, "'''"@);
    lemma_md_summary_shape(lines(text), 0);
    lemma_comment_summary_shape(first_fifty(lines(text)), 0);
}

/// The lines a summary reads: the first 50, or all when there are fewer.
pub open spec fn first_fifty(ls: Seq<Seq<char>>) -> Seq<Seq<char>> {
    if ls.len() <= 50 {
        ls
    } else {
        ls.take(50)
    }
}

/// For a file that is neither Python nor Markdown only its first 50 lines
/// decide the summary: two texts that agree on them have the same one.
pub proof fn lemma_summary_first_lines(a: Seq<char>, b: Seq<char>, path: Seq<char>)
    requires
        extension(path) != Some("py"@),
        extension(path) != Some("md"@),
        first_fifty(lines(a)) == first_fifty(lines(b)),
    ensures
        summary(a, path) == summary(b, path),
{
    reveal_strlit("py");
    reveal_strlit("md");
}

/// Lines that agree once trimmed, save a blank last line, give the same
/// comment summary.
proof fn lemma_comment_summary_trim_same(ls: Seq<Seq<char>>, m: Seq<Seq<char>>, k: int)
    requires
        trim_same(ls, m),
    ensures
        comment_summary(ls, k) == comment_summary(m, k),
    decreases ls.len() - k,
{
    if 0 <= k < m.len() {
        assert(trim(m[k]) == trim(ls[k]));
        lemma_comment_summary_trim_same(ls, m, k + 1);
    } else if 0 <= k && k < ls.len() {
        assert(k == ls.len() - 1);
        assert(trim(ls[k]).len() == 0);
        assert(comment_summary(ls, k + 1) == Seq::<char>::empty());
    }
}

/// For a file that is neither Python nor Markdown the summary is that of its
/// first 50 lines joined with `"\n"` (`text.lines().take(50)` joined).
pub proof fn lemma_summary_of_first_lines(text: Seq<char>, path: Seq<char>)
    requires
        extension(path) != Some("py"@),
        extension(path) != Some("md"@),
    ensures
        summary(text, path) == summary(join_with(first_fifty(lines(text)), "\n"@), path),
{
    reveal_strlit("py");
    reveal_strlit("md");
    let ls = first_fifty(lines(text));
    lemma_lines_no_nl(text, 0);
    assert forall|i: int| 0 <= i < ls.len() implies #[trigger] no_nl(ls[i]) by {
        assert(ls[i] == lines(text)[i]);
    }
    lemma_lines_of_join(ls);
    let m = lines(join_with(ls, "\n"@));
    assert(first_fifty(m) == m);
    lemma_comment_summary_trim_same(ls, m, 0);
}

/// A word cleaned is itself, when it fits in a summary.
proof fn lemma_clean_word(w: Seq<char>)
    requires
        plain_word(w),
        w.len() <= 100,
    ensures
        cleaned(w) == w,
        trim(w) == w,
{
    assert(w[0] == w[0] && !is_ws(w[0]));
    assert(!is_ws(w[w.len() - 1]));
    assert(trim_start(w) == w);
    assert(trim_end(w) == w);
    let ws = seq![w];
    assert(plain_words(ws)) by {
        assert forall|i: int| 0 <= i < ws.len() implies #[trigger] plain_word(ws[i]) by {
            assert(ws[i] == w);
        }
    }
    lemma_words_of_join(ws);
    assert(join_words(ws) == w);
}

/// A line that starts with `#`, but not `#!`, is a comment: `# ` followed by
/// a word (not itself opened by a comment mark) has that word as its text.
pub proof fn lemma_hash_comment(w: Seq<char>)
    requires
        plain_word(w),
        !is_comment_mark(w[0]),
    ensures
        comment_body("# "@ + w) == Some(w),
        trim("# "@ + w) == "# "@ + w,
{
    reveal_strlit("# ");
    reveal_strlit("///");
    reveal_strlit("//!");
    reveal_strlit("//");
    reveal_strlit("#!");
    reveal_strlit("#");
    let t = "# "@ + w;
    assert(t[0] == '#');
    assert(t[1] == ' ');
    assert(!starts_with(t, "///"@)) by {
        assert(t.take(3)[0] != "///"@[0]);
    }
    assert(!starts_with(t, "//!"@)) by {
        assert(t.take(3)[0] != "//!"@[0]);
    }
    assert(!starts_with(t, "//"@)) by {
        assert(t.take(2)[0] != "//"@[0]);
    }
    assert(!starts_with(t, "#!"@)) by {
        assert(t.take(2)[1] != "#!"@[1]);
    }
    assert(starts_with(t, "#"@)) by {
        assert(t.take(1) =~= "#"@);
    }
    assert(comment_opener(t) == 1);
    let rest = t.skip(1);
    assert(rest =~= seq![' '] + w);
    assert(trim_start_by(rest, |c: char| is_comment_mark(c)) == rest);
    assert(rest.drop_first() =~= w);
    assert(is_ws(' '));
    assert(trim_start(rest) == trim_start(w));
    assert(!is_ws(w[0]));
    assert(trim_start(w) == w);
    assert(!is_ws(w[w.len() - 1]));
    assert(trim_end(w) == w);
    assert(trim(rest) == w);
    assert(trim_start(t) == t);
    assert(t.last() == w.last());
    assert(trim_end(t) == t);
}

/// Blank lines before a comment line `# w` leave `w` as the comment summary.
proof fn lemma_hash_comment_summary(ls: Seq<Seq<char>>, j: int, k: int, w: Seq<char>)
    requires
        0 <= j <= k < ls.len(),
        forall|i: int| j <= i < k ==> #[trigger] trim(ls[i]).len() == 0,
        ls[k] == "# "@ + w,
        plain_word(w),
        !is_comment_mark(w[0]),
        w.len() <= 100,
        !attribute_like(w),
    ensures
        comment_summary(ls, j) == w,
    decreases k - j,
{
    if j < k {
        assert(trim(ls[j]).len() == 0);
        lemma_hash_comment_summary(ls, j + 1, k, w);
    } else {
        lemma_hash_comment(w);
        lemma_clean_word(w);
    }
}

/// The summary of a file that is not Markdown (and, when Python, has no
/// docstring) whose first non-blank line, among its first 50, is `# w` for
/// a word `w` is `w`.
pub proof fn lemma_hash_comment_is_summary(text: Seq<char>, path: Seq<char>, k: int, w: Seq<char>)
    requires
        0 <= k < 50,
        k < lines(text).len(),
        forall|i: int| 0 <= i < k ==> #[trigger] trim(lines(text)[i]).len() == 0,
        lines(text)[k] == "# "@ + w,
        plain_word(w),
        !is_comment_mark(w[0]),
        w[0] != '[',
        w.len() <= 100,
        extension(path) != Some("md"@),
        extension(path) == Some("py"@) ==> docstring(text) is None,
    ensures
        summary(text, path) == w,
{
    reveal_strlit("py");
    reveal_strlit("md");
    reveal_strlit("[derive");
    reveal_strlit("[cfg");
    reveal_strlit("[allow");
    reveal_strlit("[serde");
    reveal_strlit("[arg");
    reveal_strlit("[command");
    reveal_strlit("[tokio");
    let ls = first_fifty(lines(text));
    assert(trim_start_by(w, |c: char| c == '!') == w);
    assert(!attribute_like(w)) by {
        assert(w.take(1)[0] == w[0]);
    }
    assert forall|i: int| 0 <= i < k implies #[trigger] trim(ls[i]).len() == 0 by {
        assert(ls[i] == lines(text)[i]);
        assert(trim(lines(text)[i]).len() == 0);
    }
    assert(ls[k] == lines(text)[k]);
    lemma_hash_comment_summary(ls, 0, k, w);
}

/// The first position of `q` in `hay`, or -1.
fn find_chars(hay: &[char], q: &str) -> (r: Option<usize>)
    ensures
        r is None <==> find(hay@, q@) == -1,
        r matches Some(i) ==> i == find(hay@, q@) && i <= hay@.len(),
{
    let qc = to_chars(q);
    find_seq(hay, &qc)
}

/// The summary from a leading docstring delimited by `q` (three characters).
fn docstring_from(text: &[char], q: &str) -> (r: Option<String>)
    requires
        q@.len() == 3,
    ensures
        r matches Some(x) ==> docstring_with(text@, q@) == Some(x@),
        r is None ==> docstring_with(text@, q@) is None,
{
    let t = trim_start_chars(text);
    if !has_prefix(&t, q) {
        return None;
    }
    let rest = sub_chars(&t, 3, t.len());
    assert(rest@ == t@.skip(3));
    match find_chars(&rest, q) {
        None => None,
        Some(end) => {
            let body = sub_chars(&rest, 0, end);
            assert(body@ == t@.skip(3).take(find(t@.skip(3), q@)));
            let ls = split_lines(&body);
            let first = if ls.len() > 0 {
                sub_chars(&ls[0], 0, ls[0].len())
            } else {
                Vec::new()
            };
            assert(first@ == first_line(body@)) by {
                if ls@.len() > 0 {
                    assert(ls@[0]@ == ls.deep_view()[0]);
                }
            }
            Some(clean(&first))
        },
    }
}

/// The Markdown summary of the lines `ls`.
fn md_summary_of(ls: &Vec<Vec<char>>) -> (r: String)
    ensures
        r@ == md_summary(ls.deep_view(), 0),
{
    let ghost lv = ls.deep_view();
    let mut k: usize = 0;
    while k < ls.len()
        invariant
            k <= ls@.len(),
            lv == ls.deep_view(),
            md_summary(lv, 0) == md_summary(lv, k as int),
        decreases ls@.len() - k,
    {
        assert(lv[k as int] == ls@[k as int]@);
        let t = trim_chars(&ls[k]);
        if t.len() > 0 {
            let mut i: usize = 0;
            while i < t.len() && t[i] == '#'
                invariant
                    i <= t@.len(),
                    forall|m: int| 0 <= m < i ==> #[trigger] t@[m] == '#',
                decreases t@.len() - i,
            {
                i += 1;
            }
            proof {
                crate::text::lemma_trim_start_by_at(t@, |c: char| c == '#', i as int);
            }
            let rest = sub_chars(&t, i, t.len());
            let body = trim_chars(&rest);
            return clean(&body);
        }
        k += 1;
    }
    String::new()
}

/// The comment-style summary of the lines `ls[..limit]`.
fn comment_summary_of(ls: &Vec<Vec<char>>, limit: usize) -> (r: String)
    requires
        limit <= ls@.len(),
    ensures
        r@ == comment_summary(ls.deep_view().take(limit as int), 0),
{
    let ghost lv = ls.deep_view().take(limit as int);
    let mut k: usize = 0;
    while k < limit
        invariant
            k <= limit <= ls@.len(),
            lv == ls.deep_view().take(limit as int),
            comment_summary(lv, 0) == comment_summary(lv, k as int),
        decreases limit - k,
    {
        assert(lv[k as int] == ls@[k as int]@);
        let t = trim_chars(&ls[k]);
        if t.len() > 0 {
            match strip_comment_lead(&t) {
                Some(body) => {
                    assert(comment_body(t@) == Some(body@));
                    if body.len() > 0 && !looks_like_attribute(&body) {
                        return clean(&body);
                    }
                },
                None => {
                    assert(comment_body(t@) is None);
                    if is_declarative(&t) {
                        return clean(&t);
                    }
                    return String::new();
                },
            }
        }
        k += 1;
    }
    String::new()
}

/// Heuristic one-line summary of a file: a Python docstring, a Markdown
/// heading or first paragraph line, else the first doc comment or
/// declarative line.
pub fn extract_summary(text: &str, path: &str) -> (r: String)
    ensures
        r@ == summary(text@, path@),
{
    let pc = to_chars(path);
    let ext = match extension_of(&pc) {
        Some(e) => e,
        None => Vec::new(),
    };
    assert(ext@ == (match extension(path@) {
        Some(e) => e,
        None => Seq::<char>::empty(),
    }));
    let cs = to_chars(text);
    if is_str(&ext, "py") {
        proof {
            reveal_strlit("\"\"\"");
            reveal_strlit("'''");
        }
        match docstring_from(&cs, "\"\"\"") {
            Some(s) => {
                return s;
            },
            None => {},
        }
        match docstring_from(&cs, "'''") {
            Some(s) => {
                return s;
            },
            None => {},
        }
    }
    let ls = split_lines(&cs);
    if is_str(&ext, "md") {
        proof {
            reveal_strlit("py");
            reveal_strlit("md");
            assert("py"@ != "md"@) by {
                assert("py"@[0] != "md"@[0]);
            }
        }
        return md_summary_of(&ls);
    }
    let limit = if ls.len() <= 50 {
        ls.len()
    } else {
        50
    };
    assert(ls.deep_view().take(ls@.len() as int) == ls.deep_view());
    comment_summary_of(&ls, limit)
}


// ---------------------------------------------------------------------
// The tree
// ---------------------------------------------------------------------

/// The directory an entry is listed under: its path's parent, or the
/// empty path when it has none.
pub open spec fn entry_dir(rel: Seq<char>) -> Seq<Comp> {
    match parent(rel) {
        Some(c) => c,
        None => seq![],
    }
}

/// The name an entry is listed as: its path's file name, or nothing.
pub open spec fn entry_name(rel: Seq<char>) -> Seq<char> {
    match file_name(rel) {
        Some(n) => n,
        None => seq![],
    }
}

/// A line of the tree before rendering.
pub enum Item {
    Header(Seq<Comp>),
    File(Seq<char>, Seq<char>),
}

/// The files of `es` listed under directory `d`, in their order in `es`.
pub open spec fn files_in(es: Seq<(Seq<char>, Seq<char>)>, d: Seq<Comp>) -> Seq<Item>
    decreases es.len(),
{
    if es.len() == 0 {
        seq![]
    } else {
        files_in(es.drop_last(), d) + if entry_dir(es.last().0) == d {
            seq![Item::File(entry_name(es.last().0), es.last().1)]
        } else {
            seq![]
        }
    }
}

/// One header per directory of `ds`, each followed by its files.
pub open spec fn dir_items(es: Seq<(Seq<char>, Seq<char>)>, ds: Seq<Seq<Comp>>) -> Seq<Item>
    decreases ds.len(),
{
    if ds.len() == 0 {
        seq![]
    } else {
        dir_items(es, ds.drop_last()) + seq![Item::Header(ds.last())] + files_in(es, ds.last())
    }
}

/// The directory of every entry, in order.
pub open spec fn dirs_of(es: Seq<(Seq<char>, Seq<char>)>) -> Seq<Seq<Comp>> {
    es.map_values(|e: (Seq<char>, Seq<char>)| entry_dir(e.0))
}

/// `ds` lists the directories of `es` once each, in `Path` order.
pub open spec fn sorted_dirs(es: Seq<(Seq<char>, Seq<char>)>, ds: Seq<Seq<Comp>>) -> bool {
    &&& forall|i: int, j: int| 0 <= i < j < ds.len() ==> comps_lt(ds[i], ds[j])
    &&& forall|x: Seq<Comp>| ds.contains(x) <==> dirs_of(es).contains(x)
}

/// The directories of `es` in `Path` order (a `BTreeMap`'s key order).
pub open spec fn tree_dirs(es: Seq<(Seq<char>, Seq<char>)>) -> Seq<Seq<Comp>> {
    choose|ds: Seq<Seq<Comp>>| sorted_dirs(es, ds)
}

/// A directory's header line: `./` for the top directory, else its path
/// followed by `/`.
pub open spec fn dir_label(d: Seq<Comp>) -> Seq<char> {
    if d.len() == 0 {
        "./"@
    } else {
        display(d) + "/"@
    }
}

/// `name` left-aligned in a field of 24 characters.
pub open spec fn pad24(name: Seq<char>) -> Seq<char> {
    if name.len() >= 24 {
        name
    } else {
        name + Seq::new((24 - name.len()) as nat, |i: int| ' ')
    }
}

/// A file's line: its name, and its summary when it has one.
pub open spec fn file_line(name: Seq<char>, summary: Seq<char>) -> Seq<char> {
    if summary.len() == 0 {
        "  "@ + name + "\n"@
    } else {
        "  "@ + pad24(name) + " "@ + summary + "\n"@
    }
}

/// The line that stands for the files left out.
pub open spec fn more_line(n: nat) -> Seq<char> {
    "  ... ("@ + decimal(n) + " more files)\n"@
}

/// Rendering `items` in order: the text so far, how many files are
/// listed, and whether the listing stopped at the cap.
pub open spec fn render_state(items: Seq<Item>, total: int) -> (Seq<char>, int, bool)
    decreases items.len(),
{
    if items.len() == 0 {
        (seq![], 0, false)
    } else {
        let (out, listed, stopped) = render_state(items.drop_last(), total);
        if stopped {
            (out, listed, true)
        } else {
            match items.last() {
                Item::Header(d) => (out + dir_label(d) + "\n"@, listed, false),
                Item::File(n, s) => if listed >= 80 {
                    (out + if total > listed {
                        more_line((total - listed) as nat)
                    } else {
                        seq![]
                    }, listed, true)
                } else {
                    (out + file_line(n, s), listed + 1, false)
                },
            }
        }
    }
}

/// The file tree of `es`: each directory in order with its files under
/// it; after 80 files, one line counting the rest.
pub open spec fn tree(es: Seq<(Seq<char>, Seq<char>)>) -> Seq<char> {
    render_state(dir_items(es, tree_dirs(es)), es.len() as int).0
}

/// Rendering lists at most `MAX_FILES_LISTED` files.
pub proof fn lemma_listed_at_most(items: Seq<Item>, total: int)
    ensures
        0 <= render_state(items, total).1 <= MAX_FILES_LISTED,
    decreases items.len(),
{
    if items.len() > 0 {
        lemma_listed_at_most(items.drop_last(), total);
    }
}

/// The tree of any entries lists at most `MAX_FILES_LISTED` files.
pub proof fn lemma_tree_capped(es: Seq<(Seq<char>, Seq<char>)>)
    ensures
        0 <= render_state(dir_items(es, tree_dirs(es)), es.len() as int).1 <= MAX_FILES_LISTED,
{
    lemma_listed_at_most(dir_items(es, tree_dirs(es)), es.len() as int);
}

/// Once rendering has stopped at the cap, further items change nothing.
proof fn lemma_stopped_stays(items: Seq<Item>, rest: Seq<Item>, total: int)
    requires
        render_state(items, total).2,
    ensures
        render_state(items + rest, total) == render_state(items, total),
    decreases rest.len(),
{
    if rest.len() > 0 {
        lemma_stopped_stays(items, rest.drop_last(), total);
        assert((items + rest).drop_last() == items + rest.drop_last());
    } else {
        assert(items + rest == items);
    }
}

/// Two strictly sorted sequences with the same elements are equal.
proof fn lemma_sorted_unique(a: Seq<Seq<Comp>>, b: Seq<Seq<Comp>>)
    requires
        forall|i: int, j: int| 0 <= i < j < a.len() ==> comps_lt(a[i], a[j]),
        forall|i: int, j: int| 0 <= i < j < b.len() ==> comps_lt(b[i], b[j]),
        forall|x: Seq<Comp>| a.contains(x) <==> b.contains(x),
    ensures
        a == b,
    decreases a.len(),
{
    if a.len() == 0 {
        if b.len() > 0 {
            assert(b.contains(b[0]));
        }
    } else if b.len() == 0 {
        assert(a.contains(a[0]));
    } else {
        assert(a.contains(a[0]));
        assert(b.contains(b[0]));
        let i = choose|i: int| 0 <= i < b.len() && b[i] == a[0];
        let j = choose|j: int| 0 <= j < a.len() && a[j] == b[0];
        lemma_comps_lt_order(a[0], b[0], a[0]);
        assert(a[0] == b[0]) by {
            if a[0] != b[0] {
                if i > 0 {
                    assert(comps_lt(b[0], a[0]));
                }
                if j > 0 {
                    assert(comps_lt(a[0], b[0]));
                }
            }
        }
        let a1 = a.drop_first();
        let b1 = b.drop_first();
        assert forall|x: Seq<Comp>| a1.contains(x) <==> b1.contains(x) by {
            if a1.contains(x) {
                let k = choose|k: int| 0 <= k < a1.len() && a1[k] == x;
                assert(comps_lt(a[0], a[k + 1]));
                lemma_comps_lt_order(a[0], a[0], a[0]);
                assert(b.contains(x));
                let m = choose|m: int| 0 <= m < b.len() && b[m] == x;
                assert(m != 0);
                assert(b1[m - 1] == x);
            }
            if b1.contains(x) {
                let k = choose|k: int| 0 <= k < b1.len() && b1[k] == x;
                assert(comps_lt(b[0], b[k + 1]));
                lemma_comps_lt_order(b[0], b[0], b[0]);
                assert(a.contains(x));
                let m = choose|m: int| 0 <= m < a.len() && a[m] == x;
                assert(m != 0);
                assert(a1[m - 1] == x);
            }
        }
        lemma_sorted_unique(a1, b1);
        assert(a =~= seq![a[0]] + a1);
        assert(b =~= seq![b[0]] + b1);
    }
}

/// The directory components an entry is listed under.
fn dir_of(rel: &[char]) -> (r: Vec<Component>)
    ensures
        r.deep_view() == entry_dir(rel@),
{
    let comps = path_components(rel);
    let n = comps.len();
    if n == 0 || matches!(comps[n - 1], Component::Root) {
        assert(n == 0 || comps.deep_view().last() is Root);
        return Vec::new();
    }
    let out = copy_components(&comps, n - 1);
    assert(comps.deep_view().take(n - 1) == comps.deep_view().drop_last());
    out
}

/// Appends the header line of a directory.
fn push_dir_label(out: &mut String, d: &Vec<Component>)
    ensures
        final(out)@ == old(out)@ + dir_label(d.deep_view()) + "\n"@,
{
    if d.len() == 0 {
        push_str(out, "./");
    } else {
        let text = display_components(d, d.len());
        assert(d.deep_view().take(d@.len() as int) == d.deep_view());
        push_str(out, text.as_str());
        push_str(out, "/");
    }
    push_str(out, "\n");
}

/// Appends the line of one file.
fn push_file_line(out: &mut String, name: &Vec<char>, summary: &str)
    ensures
        final(out)@ == old(out)@ + file_line(name@, summary@),
{
    push_str(out, "  ");
    push_chars(out, name);
    if summary.is_empty() {
        push_str(out, "\n");
        return;
    }
    let ghost base = out@;
    let mut k = name.len();
    while k < 24
        invariant
            name@.len() <= k <= 24 || (k == name@.len() && k >= 24),
            out@ == base + Seq::new((k - name@.len()) as nat, |i: int| ' '),
        decreases 24 - k,
    {
        push_char(out, ' ');
        assert(Seq::new((k + 1 - name@.len()) as nat, |i: int| ' ') =~= Seq::new(
            (k - name@.len()) as nat,
            |i: int| ' ',
        ).push(' '));
        k += 1;
    }
    assert(out@ =~= old(out)@ + "  "@ + pad24(name@)) by {
        if name@.len() >= 24 {
            assert(Seq::new((k - name@.len()) as nat, |i: int| ' ') =~= Seq::<char>::empty());
        }
    }
    push_str(out, " ");
    push_str(out, summary);
    push_str(out, "\n");
}

/// `ds` is strictly increasing in `Path` order.
pub open spec fn strictly_sorted(ds: Seq<Seq<Comp>>) -> bool {
    forall|i: int, j: int| 0 <= i < j < ds.len() ==> comps_lt(ds[i], ds[j])
}

/// Inserts `d` into the strictly sorted `ds`, unless it is there already.
fn insert_dir(ds: &mut Vec<Vec<Component>>, d: Vec<Component>)
    requires
        strictly_sorted(old(ds).deep_view()),
    ensures
        strictly_sorted(final(ds).deep_view()),
        forall|x: Seq<Comp>|
            final(ds).deep_view().contains(x) <==> (old(ds).deep_view().contains(x) || x
                == d.deep_view()),
{
    let ghost dv = d.deep_view();
    let ghost ov = ds.deep_view();
    let mut p: usize = 0;
    if ds.len() == 0 {
        ds.push(d);
        assert(ds.deep_view() =~= seq![dv]);
        assert forall|x: Seq<Comp>| ds.deep_view().contains(x) <==> (ov.contains(x) || x == dv) by {
            if ds.deep_view().contains(x) {
                assert(ds.deep_view()[0] == x);
            }
            if x == dv {
                assert(ds.deep_view()[0] == x);
            }
        }
        return;
    }
    while p < ds.len()
        invariant
            p <= ds@.len(),
            ov == ds.deep_view(),
            ov == old(ds).deep_view(),
            dv == d.deep_view(),
            strictly_sorted(ov),
            forall|i: int| 0 <= i < p ==> comps_lt(#[trigger] ov[i], dv),
        ensures
            p <= ov.len(),
            forall|i: int| 0 <= i < p ==> comps_lt(#[trigger] ov[i], dv),
            p < ov.len() ==> comps_lt(dv, ov[p as int]),
        decreases ds@.len() - p,
    {
        let c = compare_component_seqs(&ds[p], &d);
        assert(ov[p as int] == ds@[p as int].deep_view());
        if c == 0 {
            assert(ov[p as int] == dv);
            assert(ov.contains(dv));
            return;
        }
        if c == 1 {
            break;
        }
        p += 1;
    }
    // Every element from `p` on is above `d`.
    proof {
        if p < ov.len() {
            lemma_comps_lt_order(dv, ov[p as int], ov[p as int]);
            assert forall|i: int| p <= i < ov.len() implies comps_lt(dv, #[trigger] ov[i]) by {
                if i > p {
                    lemma_comps_lt_order(dv, ov[p as int], ov[i]);
                }
            }
        }
    }
    let ghost pp = p;
    assert(forall|i: int| 0 <= i < pp ==> comps_lt(#[trigger] ov[i], dv));
    assert(forall|i: int| pp <= i < ov.len() ==> comps_lt(dv, #[trigger] ov[i]));
    ds.insert(p, d);
    let ghost nv = ds.deep_view();
    assert(nv =~= ov.insert(p as int, dv)) by {
        assert forall|i: int| 0 <= i < nv.len() implies #[trigger] nv[i] == ov.insert(
            p as int,
            dv,
        )[i] by {
            if i < p {
                assert(ds@[i] == old(ds)@[i]);
            } else if i > p {
                assert(ds@[i] == old(ds)@[i - 1]);
            }
        }
    }
    assert forall|i: int, j: int| 0 <= i < j < nv.len() implies comps_lt(nv[i], nv[j]) by {
        if j < pp {
        } else if j == pp {
        } else if i < pp {
            lemma_comps_lt_order(ov[i], dv, ov[j - 1]);
        } else if i == pp {
        } else {
        }
    }
    assert forall|x: Seq<Comp>| nv.contains(x) <==> (ov.contains(x) || x == dv) by {
        if nv.contains(x) {
            let i = choose|i: int| 0 <= i < nv.len() && nv[i] == x;
            if i < pp {
                assert(ov[i] == x);
            } else if i > pp {
                assert(ov[i - 1] == x);
            }
        }
        if ov.contains(x) {
            let i = choose|i: int| 0 <= i < ov.len() && ov[i] == x;
            if i < pp {
                assert(nv[i] == x);
            } else {
                assert(nv[i + 1] == x);
            }
        }
        if x == dv {
            assert(nv[pp as int] == x);
        }
    }
}

/// The items of a prefix of the directories are a prefix of the items of all of them.
proof fn lemma_dir_items_prefix(es: Seq<(Seq<char>, Seq<char>)>, ds: Seq<Seq<Comp>>, i: int) -> (rest: Seq<Item>)
    requires
        0 <= i <= ds.len(),
    ensures
        dir_items(es, ds) == dir_items(es, ds.take(i)) + rest,
    decreases ds.len() - i,
{
    if i == ds.len() {
        assert(ds.take(i) == ds);
        assert(dir_items(es, ds) == dir_items(es, ds) + Seq::<Item>::empty());
        Seq::<Item>::empty()
    } else {
        let r = lemma_dir_items_prefix(es, ds, i + 1);
        assert(ds.take(i + 1).drop_last() == ds.take(i));
        let extra = seq![Item::Header(ds[i])] + files_in(es, ds[i]);
        assert(dir_items(es, ds.take(i + 1)) == dir_items(es, ds.take(i)) + extra);
        assert(dir_items(es, ds) == dir_items(es, ds.take(i)) + (extra + r));
        extra + r
    }
}

/// The files of a directory among a prefix of the entries are a prefix of its files among all of them.
proof fn lemma_files_in_prefix(es: Seq<(Seq<char>, Seq<char>)>, d: Seq<Comp>, m: int) -> (rest: Seq<Item>)
    requires
        0 <= m <= es.len(),
    ensures
        files_in(es, d) == files_in(es.take(m), d) + rest,
    decreases es.len() - m,
{
    if m == es.len() {
        assert(es.take(m) == es);
        assert(files_in(es, d) == files_in(es, d) + Seq::<Item>::empty());
        Seq::<Item>::empty()
    } else {
        let r = lemma_files_in_prefix(es, d, m + 1);
        assert(es.take(m + 1).drop_last() == es.take(m));
        assert(es.take(m + 1).last() == es[m]);
        let extra = if entry_dir(es[m].0) == d {
            seq![Item::File(entry_name(es[m].0), es[m].1)]
        } else {
            seq![]
        };
        assert(files_in(es.take(m + 1), d) == files_in(es.take(m), d) + extra);
        assert(files_in(es, d) == files_in(es.take(m), d) + (extra + r));
        extra + r
    }
}

/// Renders the file list as a tree grouped by directory, directories in
/// `Path` order, at most 80 files listed.
pub fn render_tree(entries: &[(String, String)]) -> (r: String)
    ensures
        r@ == tree(entries.deep_view()),
{
    let ghost es = entries.deep_view();
    let n = entries.len();
    // The directory and name of every entry.
    let mut dirs: Vec<Vec<Component>> = Vec::new();
    let mut names: Vec<Vec<char>> = Vec::new();
    let mut k: usize = 0;
    while k < n
        invariant
            n == entries@.len() == es.len(),
            es == entries.deep_view(),
            k <= n,
            dirs@.len() == k,
            names@.len() == k,
            forall|m: int| 0 <= m < k ==> #[trigger] dirs@[m].deep_view() == entry_dir(es[m].0),
            forall|m: int| 0 <= m < k ==> #[trigger] names@[m]@ == entry_name(es[m].0),
        decreases n - k,
    {
        let rel = to_chars(entries[k].0.as_str());
        assert(rel@ == es[k as int].0);
        dirs.push(dir_of(&rel));
        let name = match file_name_of(&rel) {
            Some(x) => x,
            None => Vec::new(),
        };
        names.push(name);
        k += 1;
    }
    // The distinct directories, sorted.
    let mut ds: Vec<Vec<Component>> = Vec::new();
    let mut k: usize = 0;
    while k < n
        invariant
            n == entries@.len() == es.len() == dirs@.len(),
            es == entries.deep_view(),
            k <= n,
            forall|m: int| 0 <= m < n ==> #[trigger] dirs@[m].deep_view() == entry_dir(es[m].0),
            strictly_sorted(ds.deep_view()),
            forall|x: Seq<Comp>|
                ds.deep_view().contains(x) <==> dirs_of(es).take(k as int).contains(x),
        decreases n - k,
    {
        let d = copy_components(&dirs[k], dirs[k].len());
        assert(dirs@[k as int].deep_view().take(dirs@[k as int]@.len() as int) == dirs@[k as int].deep_view());
        let ghost before = ds.deep_view();
        insert_dir(&mut ds, d);
        let ghost dk = dirs_of(es).take(k + 1);
        assert(dk == dirs_of(es).take(k as int).push(entry_dir(es[k as int].0)));
        assert forall|x: Seq<Comp>|
            ds.deep_view().contains(x) <==> dk.contains(x) by {
            if dk.contains(x) {
                let j = choose|j: int| 0 <= j < dk.len() && dk[j] == x;
                if j < k {
                    assert(dirs_of(es).take(k as int)[j] == x);
                }
            }
            if dirs_of(es).take(k as int).contains(x) {
                let j = choose|j: int| 0 <= j < k && dirs_of(es).take(k as int)[j] == x;
                assert(dk[j] == x);
            }
            if x == entry_dir(es[k as int].0) {
                assert(dk[k as int] == x);
            }
        }
        k += 1;
    }
    let ghost dsv = ds.deep_view();
    proof {
        assert(dirs_of(es).take(n as int) == dirs_of(es));
        assert(sorted_dirs(es, dsv));
        let t = tree_dirs(es);
        assert(sorted_dirs(es, t));
        lemma_sorted_unique(t, dsv);
    }
    // Render.
    let ghost total = n as int;
    let mut out = String::new();
    let mut listed: usize = 0;
    let mut i: usize = 0;
    assert(dsv.take(0) =~= Seq::<Seq<Comp>>::empty());
    while i < ds.len()
        invariant
            i <= ds@.len(),
            dsv == ds.deep_view(),
            tree_dirs(es) == dsv,
            n == entries@.len() == es.len() == dirs@.len() == names@.len(),
            es == entries.deep_view(),
            total == n,
            forall|m: int| 0 <= m < n ==> #[trigger] dirs@[m].deep_view() == entry_dir(es[m].0),
            forall|m: int| 0 <= m < n ==> #[trigger] names@[m]@ == entry_name(es[m].0),
            render_state(dir_items(es, dsv.take(i as int)), total) == (out@, listed as int, false),
            listed <= 80,
        decreases ds@.len() - i,
    {
        let ghost head = dir_items(es, dsv.take(i as int)).push(Item::Header(dsv[i as int]));
        push_dir_label(&mut out, &ds[i]);
        assert(ds@[i as int].deep_view() == dsv[i as int]);
        assert(head.drop_last() == dir_items(es, dsv.take(i as int)));
        assert(render_state(head, total) == (out@, listed as int, false));
        let mut m: usize = 0;
        assert(es.take(0) =~= Seq::<(Seq<char>, Seq<char>)>::empty());
        assert(head + files_in(es.take(0), dsv[i as int]) == head);
        while m < n
            invariant
                i < ds@.len(),
                m <= n,
                dsv == ds.deep_view(),
                n == entries@.len() == es.len() == dirs@.len() == names@.len(),
                es == entries.deep_view(),
                total == n,
                forall|q: int| 0 <= q < n ==> #[trigger] dirs@[q].deep_view() == entry_dir(es[q].0),
                forall|q: int| 0 <= q < n ==> #[trigger] names@[q]@ == entry_name(es[q].0),
                head == dir_items(es, dsv.take(i as int)).push(Item::Header(dsv[i as int])),
                tree_dirs(es) == dsv,
                render_state(head + files_in(es.take(m as int), dsv[i as int]), total) == (
                    out@,
                    listed as int,
                    false,
                ),
                listed <= 80,
            decreases n - m,
        {
            let ghost prev = head + files_in(es.take(m as int), dsv[i as int]);
            assert(es.take(m + 1).drop_last() == es.take(m as int));
            assert(es.take(m + 1).last() == es[m as int]);
            let c = compare_component_seqs(&dirs[m], &ds[i]);
            if c == 0 {
                let ghost item = Item::File(entry_name(es[m as int].0), es[m as int].1);
                let ghost next = prev.push(item);
                assert(head + files_in(es.take(m + 1), dsv[i as int]) == next);
                assert(next.drop_last() == prev);
                if listed >= MAX_FILES_LISTED {
                    if n > listed {
                        push_str(&mut out, "  ... (");
                        push_decimal(&mut out, n - listed);
                        push_str(&mut out, " more files)\n");
                    }
                    proof {
                        assert(render_state(next, total).2);
                        let r1 = lemma_files_in_prefix(es, dsv[i as int], m + 1);
                        let r2 = lemma_dir_items_prefix(es, dsv, i + 1);
                        assert(dsv.take(i + 1).drop_last() == dsv.take(i as int));
                        assert(dsv.take(i + 1).last() == dsv[i as int]);
                        assert(dir_items(es, dsv) == next + (r1 + r2));
                        lemma_stopped_stays(next, r1 + r2, total);
                    }
                    return out;
                }
                assert(entries@[m as int].1@ == es[m as int].1);
                push_file_line(&mut out, &names[m], entries[m].1.as_str());
                listed += 1;
            } else {
                assert(head + files_in(es.take(m + 1), dsv[i as int]) == prev);
            }
            m += 1;
        }
        assert(es.take(n as int) == es);
        assert(dsv.take(i + 1).drop_last() == dsv.take(i as int));
        assert(dsv.take(i + 1).last() == dsv[i as int]);
        assert(head == dir_items(es, dsv.take(i as int)) + seq![Item::Header(dsv[i as int])]);
        assert(dir_items(es, dsv.take(i + 1)) == head + files_in(es, dsv[i as int]));
        i += 1;
    }
    assert(dsv.take(ds@.len() as int) == dsv);
    out
}


// ---------------------------------------------------------------------
// Sorting entries by path
// ---------------------------------------------------------------------

/// `perm` is a permutation of `0..n`.
pub open spec fn is_permutation(perm: Seq<int>, n: int) -> bool {
    &&& perm.len() == n
    &&& forall|k: int| 0 <= k < n ==> 0 <= #[trigger] perm[k] < n
    &&& forall|a: int, b: int| 0 <= a < b < n ==> perm[a] != perm[b]
}

/// `out` is `es` sorted by path (`Path` order), entries with equal paths
/// keeping their relative order: a stable sort, as `sort_by` performs.
pub open spec fn stably_sorted_by_path(
    es: Seq<(Seq<char>, Seq<char>)>,
    out: Seq<(Seq<char>, Seq<char>)>,
) -> bool {
    exists|perm: Seq<int>|
        {
            &&& is_permutation(perm, es.len() as int)
            &&& out.len() == es.len()
            &&& forall|k: int| 0 <= k < out.len() ==> #[trigger] out[k] == es[perm[k]]
            &&& forall|a: int, b: int|
                0 <= a < b < out.len() ==> !comps_lt(
                    components(out[b].0),
                    components(out[a].0),
                )
            &&& forall|a: int, b: int|
                0 <= a < b < out.len() && components(out[a].0) == components(out[b].0)
                    ==> perm[a] < perm[b]
        }
}

/// Sorts manifest entries by their relative path, stably.
pub fn sort_entries(entries: &mut Vec<(String, String)>)
    ensures
        stably_sorted_by_path(old(entries).deep_view(), final(entries).deep_view()),
{
    let ghost es = entries.deep_view();
    let n = entries.len();
    let mut keys: Vec<Vec<Component>> = Vec::new();
    let mut k: usize = 0;
    while k < n
        invariant
            n == entries@.len() == es.len(),
            es == entries.deep_view(),
            k <= n,
            keys@.len() == k,
            forall|m: int| 0 <= m < k ==> #[trigger] keys@[m].deep_view() == components(es[m].0),
        decreases n - k,
    {
        let rel = to_chars(entries[k].0.as_str());
        assert(rel@ == es[k as int].0);
        keys.push(path_components(&rel));
        k += 1;
    }
    // Insertion sort of the indices.
    let mut order: Vec<usize> = Vec::new();
    let mut i: usize = 0;
    while i < n
        invariant
            n == entries@.len() == es.len() == keys@.len(),
            es == entries.deep_view(),
            i <= n,
            forall|m: int| 0 <= m < n ==> #[trigger] keys@[m].deep_view() == components(es[m].0),
            order@.len() == i,
            forall|a: int| 0 <= a < i ==> #[trigger] order@[a] < i,
            forall|a: int, b: int| 0 <= a < b < i ==> order@[a] != order@[b],
            forall|a: int, b: int|
                0 <= a < b < i ==> !comps_lt(
                    components(es[order@[b] as int].0),
                    components(es[order@[a] as int].0),
                ),
            forall|a: int, b: int|
                0 <= a < b < i && components(es[order@[a] as int].0) == components(
                    es[order@[b] as int].0,
                ) ==> order@[a] < order@[b],
        decreases n - i,
    {
        let ghost ki = components(es[i as int].0);
        let mut p: usize = 0;
        while p < order.len()
            invariant
                p <= order@.len() == i,
                i < n == keys@.len() == es.len(),
                forall|m: int| 0 <= m < n ==> #[trigger] keys@[m].deep_view() == components(es[m].0),
                forall|a: int| 0 <= a < i ==> #[trigger] order@[a] < i,
                ki == components(es[i as int].0),
                forall|a: int| 0 <= a < p ==> !comps_lt(ki, #[trigger] components(es[order@[a] as int].0)),
            ensures
                p <= order@.len(),
                forall|a: int| 0 <= a < p ==> !comps_lt(ki, #[trigger] components(es[order@[a] as int].0)),
                p < order@.len() ==> comps_lt(ki, components(es[order@[p as int] as int].0)),
            decreases order@.len() - p,
        {
            let c = compare_component_seqs(&keys[i], &keys[order[p]]);
            if c == -1 {
                break;
            }
            p += 1;
        }
        proof {
            if p < i {
                let kp = components(es[order@[p as int] as int].0);
                assert forall|b: int| p <= b < i implies comps_lt(ki, #[trigger] components(es[order@[b] as int].0)) by {
                    let kb = components(es[order@[b] as int].0);
                    lemma_comps_lt_order(ki, kp, kb);
                    lemma_comps_lt_order(kp, kb, kb);
                }
            }
        }
        let ghost old_order = order@;
        order.insert(p, i);
        proof {
            assert forall|a: int| 0 <= a < i + 1 implies #[trigger] order@[a] < i + 1 by {
                if a < p {
                    assert(order@[a] == old_order[a]);
                } else if a > p {
                    assert(order@[a] == old_order[a - 1]);
                }
            }
            assert forall|a: int, b: int| 0 <= a < b < i + 1 implies order@[a] != order@[b] by {
                if a < p {
                    assert(order@[a] == old_order[a]);
                } else if a > p {
                    assert(order@[a] == old_order[a - 1]);
                }
                if b < p {
                    assert(order@[b] == old_order[b]);
                } else if b > p {
                    assert(order@[b] == old_order[b - 1]);
                }
            }
            assert forall|a: int, b: int| 0 <= a < b < i + 1 implies !comps_lt(
                components(es[order@[b] as int].0),
                components(es[order@[a] as int].0),
            ) && (components(es[order@[a] as int].0) == components(es[order@[b] as int].0) ==> order@[a] < order@[b]) by {
                let ka = components(es[order@[a] as int].0);
                let kb = components(es[order@[b] as int].0);
                lemma_comps_lt_order(ka, kb, kb);
                if a < p {
                    assert(order@[a] == old_order[a]);
                } else if a > p {
                    assert(order@[a] == old_order[a - 1]);
                }
                if b < p {
                    assert(order@[b] == old_order[b]);
                } else if b > p {
                    assert(order@[b] == old_order[b - 1]);
                }
            }
        }
        i += 1;
    }
    // Gather the entries in that order.
    let mut out: Vec<(String, String)> = Vec::new();
    let mut j: usize = 0;
    while j < n
        invariant
            n == entries@.len() == es.len() == order@.len(),
            es == entries.deep_view(),
            j <= n,
            out@.len() == j,
            forall|a: int| 0 <= a < n ==> #[trigger] order@[a] < n,
            forall|a: int| 0 <= a < j ==> #[trigger] out.deep_view()[a] == es[order@[a] as int],
        decreases n - j,
    {
        let q = order[j];
        let a = entries[q].0.clone();
        let b = entries[q].1.clone();
        let ghost before = out.deep_view();
        out.push((a, b));
        assert(out.deep_view()[j as int] == es[q as int]);
        assert forall|x: int| 0 <= x < j + 1 implies #[trigger] out.deep_view()[x] == es[order@[x] as int] by {
            if x < j {
                assert(out.deep_view()[x] == before[x]);
            }
        }
        j += 1;
    }
    proof {
        let perm = order@.map_values(|v: usize| v as int);
        let ov = out.deep_view();
        assert(is_permutation(perm, n as int));
        assert(forall|x: int| 0 <= x < ov.len() ==> #[trigger] ov[x] == es[perm[x]]);
    }
    *entries = out;
}

// ---------------------------------------------------------------------
// Which files are listed
// ---------------------------------------------------------------------

/// The extensions of files the manifest lists.
pub open spec fn manifest_ext(e: Seq<char>) -> bool {
    ||| e == "rs"@ ||| e == "py"@ ||| e == "js"@ ||| e == "jsx"@ ||| e == "ts"@
    ||| e == "tsx"@ ||| e == "go"@ ||| e == "java"@ ||| e == "kt"@ ||| e == "swift"@
    ||| e == "c"@ ||| e == "h"@ ||| e == "cpp"@ ||| e == "hpp"@ ||| e == "cc"@
    ||| e == "hh"@ ||| e == "cs"@ ||| e == "rb"@ ||| e == "php"@ ||| e == "scala"@
    ||| e == "sh"@ ||| e == "bash"@ ||| e == "lua"@ ||| e == "ex"@ ||| e == "exs"@
    ||| e == "html"@ ||| e == "css"@ ||| e == "scss"@ ||| e == "vue"@ ||| e == "svelte"@
    ||| e == "toml"@ ||| e == "yaml"@ ||| e == "yml"@ ||| e == "json"@ ||| e == "md"@
    ||| e == "sql"@
}

/// The manifest lists the same source extensions that retrieval indexes,
/// save the shell and scripting ones `zsh`, `fish`, `r`, `jl` and `erl`.
pub proof fn lemma_manifest_exts(e: Seq<char>)
    ensures
        manifest_ext(e) <==> (code_ext(e) && e != "zsh"@ && e != "fish"@ && e != "r"@ && e != "jl"@ && e != "erl"@),
{
    reveal_strlit("rs");
    reveal_strlit("py");
    reveal_strlit("js");
    reveal_strlit("jsx");
    reveal_strlit("ts");
    reveal_strlit("tsx");
    reveal_strlit("go");
    reveal_strlit("java");
    reveal_strlit("kt");
    reveal_strlit("swift");
    reveal_strlit("c");
    reveal_strlit("h");
    reveal_strlit("cpp");
    reveal_strlit("hpp");
    reveal_strlit("cc");
    reveal_strlit("hh");
    reveal_strlit("cs");
    reveal_strlit("rb");
    reveal_strlit("php");
    reveal_strlit("scala");
    reveal_strlit("sh");
    reveal_strlit("bash");
    reveal_strlit("lua");
    reveal_strlit("ex");
    reveal_strlit("exs");
    reveal_strlit("html");
    reveal_strlit("css");
    reveal_strlit("scss");
    reveal_strlit("vue");
    reveal_strlit("svelte");
    reveal_strlit("toml");
    reveal_strlit("yaml");
    reveal_strlit("yml");
    reveal_strlit("json");
    reveal_strlit("md");
    reveal_strlit("sql");
    reveal_strlit("zsh");
    reveal_strlit("fish");
    reveal_strlit("r");
    reveal_strlit("jl");
    reveal_strlit("erl");
    assert("jsx"@[0] != "zsh"@[0]);
    assert("tsx"@[0] != "zsh"@[0]);
    assert("cpp"@[0] != "zsh"@[0]);
    assert("hpp"@[0] != "zsh"@[0]);
    assert("php"@[0] != "zsh"@[0]);
    assert("lua"@[0] != "zsh"@[0]);
    assert("exs"@[0] != "zsh"@[0]);
    assert("css"@[0] != "zsh"@[0]);
    assert("vue"@[0] != "zsh"@[0]);
    assert("yml"@[0] != "zsh"@[0]);
    assert("sql"@[0] != "zsh"@[0]);
    assert("java"@[0] != "fish"@[0]);
    assert("bash"@[0] != "fish"@[0]);
    assert("html"@[0] != "fish"@[0]);
    assert("scss"@[0] != "fish"@[0]);
    assert("toml"@[0] != "fish"@[0]);
    assert("yaml"@[0] != "fish"@[0]);
    assert("json"@[0] != "fish"@[0]);
    assert("c"@[0] != "r"@[0]);
    assert("h"@[0] != "r"@[0]);
    assert("rs"@[0] != "jl"@[0]);
    assert("py"@[0] != "jl"@[0]);
    assert("js"@[1] != "jl"@[1]);
    assert("ts"@[0] != "jl"@[0]);
    assert("go"@[0] != "jl"@[0]);
    assert("kt"@[0] != "jl"@[0]);
    assert("cc"@[0] != "jl"@[0]);
    assert("hh"@[0] != "jl"@[0]);
    assert("cs"@[0] != "jl"@[0]);
    assert("rb"@[0] != "jl"@[0]);
    assert("sh"@[0] != "jl"@[0]);
    assert("ex"@[0] != "jl"@[0]);
    assert("md"@[0] != "jl"@[0]);
    assert("jsx"@[0] != "erl"@[0]);
    assert("tsx"@[0] != "erl"@[0]);
    assert("cpp"@[0] != "erl"@[0]);
    assert("hpp"@[0] != "erl"@[0]);
    assert("php"@[0] != "erl"@[0]);
    assert("lua"@[0] != "erl"@[0]);
    assert("exs"@[1] != "erl"@[1]);
    assert("css"@[0] != "erl"@[0]);
    assert("vue"@[0] != "erl"@[0]);
    assert("yml"@[0] != "erl"@[0]);
    assert("sql"@[0] != "erl"@[0]);
    if manifest_ext(e) {
        assert(code_ext(e));
        assert(e != "zsh"@);
        assert(e != "fish"@);
        assert(e != "r"@) by {
            if e == "r"@ {
                assert(e.len() == 1 && e[0] == 'r');
                assert("c"@.len() == 1 && "c"@[0] == 'c');
                assert("h"@.len() == 1 && "h"@[0] == 'h');
            }
        }
        assert(e != "jl"@);
        assert(e != "erl"@);
    }
    if code_ext(e) && e != "zsh"@ && e != "fish"@ && e != "r"@ && e != "jl"@ && e != "erl"@ {
        assert(manifest_ext(e));
    }
}

/// Whether the manifest lists a file of `len` bytes at `path`: its
/// extension is on the list (a file without one counts as extension `""`)
/// and it is at most `MAX_FILE_BYTES_FOR_SUMMARY` long.
pub fn manifest_wants(path: &str, len: u64) -> (r: bool)
    ensures
        r == ((match extension(path@) {
            Some(e) => manifest_ext(e),
            None => manifest_ext(Seq::<char>::empty()),
        }) && len <= MAX_FILE_BYTES_FOR_SUMMARY),
{
    let pc = to_chars(path);
    let e = match extension_of(&pc) {
        Some(e) => e,
        None => Vec::new(),
    };
    let listed = is_str(&e, "rs") || is_str(&e, "py") || is_str(&e, "js") || is_str(&e, "jsx")
        || is_str(&e, "ts") || is_str(&e, "tsx") || is_str(&e, "go") || is_str(&e, "java")
        || is_str(&e, "kt") || is_str(&e, "swift") || is_str(&e, "c") || is_str(&e, "h")
        || is_str(&e, "cpp") || is_str(&e, "hpp") || is_str(&e, "cc") || is_str(&e, "hh")
        || is_str(&e, "cs") || is_str(&e, "rb") || is_str(&e, "php") || is_str(&e, "scala")
        || is_str(&e, "sh") || is_str(&e, "bash") || is_str(&e, "lua") || is_str(&e, "ex")
        || is_str(&e, "exs") || is_str(&e, "html") || is_str(&e, "css") || is_str(&e, "scss")
        || is_str(&e, "vue") || is_str(&e, "svelte") || is_str(&e, "toml") || is_str(&e, "yaml")
        || is_str(&e, "yml") || is_str(&e, "json") || is_str(&e, "md") || is_str(&e, "sql");
    listed && len <= MAX_FILE_BYTES_FOR_SUMMARY
}

} // verus!
