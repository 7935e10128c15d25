//! `grep`: lines of the repository's files that match a regex.
use vstd::prelude::*;

use crate::pattern::{compile, is_match, regex_compiles, regex_is_match, Pattern};
use crate::text::{
    decimal, from_chars, join_strings, join_with, lines, owned, push_chars, push_decimal, push_str,
    split_lines, str_eq, strip_leading, to_chars, trim_end, trim_end_chars, trim_start_char,
};

verus! {

broadcast use crate::text::lemma_chars_deep_view;

/// Matching lines reported at most.
pub const MAX_MATCHES: usize = 100;

/// Files larger than this many bytes are not searched.
pub const MAX_FILE_BYTES: u64 = 1048576;

/// The extension filter of a call, leading dots removed (`.rs` means `rs`).
pub fn glob_ext(glob: Option<&str>) -> (r: Option<String>)
    ensures
        match glob {
            Some(g) => r matches Some(e) && e@ == strip_leading(g@, '.'),
            None => r is None,
        },
{
    match glob {
        Some(g) => Some(trim_start_char(g, '.')),
        None => None,
    }
}

/// Whether a file with extension `file_ext` is searched under the filter
/// `want`: always without one, else when the extensions are equal.
pub fn ext_selected(file_ext: Option<&str>, want: &Option<String>) -> (r: bool)
    ensures
        r == match want {
            None => true,
            Some(w) => file_ext matches Some(e) && e@ == w@,
        },
{
    match want {
        None => true,
        Some(w) => match file_ext {
            Some(e) => str_eq(e, w.as_str()),
            None => false,
        },
    }
}

/// Whether a file of `len` bytes is searched.
pub fn small_enough(len: u64) -> (r: bool)
    ensures
        r == (len <= MAX_FILE_BYTES),
{
    len <= MAX_FILE_BYTES
}

/// A reported match: `path:line: text`, the line numbered from 1 and its
/// trailing whitespace dropped.
pub open spec fn match_line(rel: Seq<char>, i: int, line: Seq<char>) -> Seq<char> {
    rel + ":"@ + decimal((i + 1) as nat) + ": "@ + trim_end(line)
}

/// The reports of the first `n` lines of `ls` that `pattern` matches, in
/// the order of the lines.
pub open spec fn grep_reports(pattern: Seq<char>, rel: Seq<char>, ls: Seq<Seq<char>>, n: int) -> Seq<Seq<char>>
    decreases n,
{
    if n <= 0 {
        seq![]
    } else {
        let prev = grep_reports(pattern, rel, ls, n - 1);
        if regex_is_match(pattern, ls[n - 1]) {
            prev.push(match_line(rel, n - 1, ls[n - 1]))
        } else {
            prev
        }
    }
}

/// At most the first `room` of `s`.
pub open spec fn at_most(s: Seq<Seq<char>>, room: int) -> Seq<Seq<char>> {
    if s.len() <= room {
        s
    } else {
        s.take(room)
    }
}

/// The reports of fewer lines are a prefix of those of more.
proof fn lemma_reports_prefix(pattern: Seq<char>, rel: Seq<char>, ls: Seq<Seq<char>>, i: int, m: int)
    requires
        0 <= i <= m,
    ensures
        grep_reports(pattern, rel, ls, i).len() <= grep_reports(pattern, rel, ls, m).len(),
        grep_reports(pattern, rel, ls, m).take(grep_reports(pattern, rel, ls, i).len() as int)
            == grep_reports(pattern, rel, ls, i),
    decreases m - i,
{
    if i < m {
        lemma_reports_prefix(pattern, rel, ls, i, m - 1);
        let a = grep_reports(pattern, rel, ls, i);
        let b = grep_reports(pattern, rel, ls, m - 1);
        let c = grep_reports(pattern, rel, ls, m);
        if regex_is_match(pattern, ls[m - 1]) {
            assert(c.take(a.len() as int) =~= b.take(a.len() as int));
        }
    } else {
        assert(grep_reports(pattern, rel, ls, m).take(grep_reports(pattern, rel, ls, m).len() as int)
            =~= grep_reports(pattern, rel, ls, m));
    }
}

/// Compiles the pattern of a `grep` call; fails exactly when it is not a
/// valid regular expression.
pub fn compile_grep_pattern(pattern: &str) -> (r: Result<Pattern, regex::Error>)
    ensures
        r is Ok <==> regex_compiles(pattern@),
        r matches Ok(p) ==> p@ == pattern@,
{
    compile(pattern)
}

/// Searches the lines of `text`, the file `rel`, adding `path:line: text`
/// for each line that `re` matches, in the order of the lines, until
/// `MAX_MATCHES` reports are gathered. Which lines the regex matches is
/// named by `regex_is_match`.
pub fn grep_text(re: &Pattern, rel: &str, text: &str, matches: &mut Vec<String>)
    requires
        old(matches)@.len() <= MAX_MATCHES,
    ensures
        final(matches).deep_view() == old(matches).deep_view() + at_most(
            grep_reports(re@, rel@, lines(text@), lines(text@).len() as int),
            MAX_MATCHES - old(matches)@.len(),
        ),
        final(matches)@.len() <= MAX_MATCHES,
{
    let chars = to_chars(text);
    let ls = split_lines(&chars);
    let ghost lv = ls.deep_view();
    let ghost start = matches.deep_view();
    let ghost n0 = matches@.len();
    let ghost room = MAX_MATCHES - n0;
    let mut i: usize = 0;
    while i < ls.len() && matches.len() < MAX_MATCHES
        invariant
            i <= ls@.len(),
            lv == ls.deep_view(),
            lv == lines(text@),
            n0 <= matches@.len() <= MAX_MATCHES,
            room == MAX_MATCHES - n0,
            matches.deep_view() == start + grep_reports(re@, rel@, lv, i as int),
        decreases ls@.len() - i,
    {
        let line = from_chars(&ls[i]);
        assert(lv[i as int] == ls@[i as int]@);
        let ghost prev = grep_reports(re@, rel@, lv, i as int);
        if is_match(re, line.as_str()) {
            let mut m = owned(rel);
            push_str(&mut m, ":");
            push_decimal(&mut m, i + 1);
            push_str(&mut m, ": ");
            let t = trim_end_chars(&ls[i]);
            push_chars(&mut m, &t);
            let ghost before = matches.deep_view();
            let ghost mv = m@;
            matches.push(m);
            assert(matches.deep_view() =~= before.push(mv));
            assert(grep_reports(re@, rel@, lv, i + 1) == prev.push(mv));
            assert(start + prev.push(mv) =~= (start + prev).push(mv));
        } else {
            assert(grep_reports(re@, rel@, lv, i + 1) == prev);
        }
        i += 1;
    }
    proof {
        let all = grep_reports(re@, rel@, lv, lv.len() as int);
        let got = grep_reports(re@, rel@, lv, i as int);
        lemma_reports_prefix(re@, rel@, lv, i as int, lv.len() as int);
        assert(matches.deep_view().len() == start.len() + got.len());
        if i < lv.len() {
            assert(got.len() == room);
            assert(at_most(all, room) == got);
        } else {
            assert(got == all);
        }
    }
}

/// What `grep` returns: the reports, one per line; a note when the cap
/// was hit; or, with no report, how many files were searched.
pub open spec fn grep_result(found: Seq<Seq<char>>, scanned: nat) -> Seq<char> {
    if found.len() == 0 {
        "(no matches in "@ + decimal(scanned) + " files)"@
    } else {
        join_with(found, "\n"@) + "\n"@ + if found.len() == MAX_MATCHES {
            "\n[hit 100 match cap; narrow the pattern or path]\n"@
        } else {
            seq![]
        }
    }
}

/// The text `grep` returns for its reports after searching `scanned` files.
pub fn render_grep(found: &Vec<String>, scanned: usize) -> (r: String)
    ensures
        r@ == grep_result(found.deep_view(), scanned as nat),
{
    if found.len() == 0 {
        let mut s = owned("(no matches in ");
        push_decimal(&mut s, scanned);
        push_str(&mut s, " files)");
        return s;
    }
    let mut s = join_strings(found, "\n");
    push_str(&mut s, "\n");
    if found.len() == MAX_MATCHES {
        push_str(&mut s, "\n[hit 100 match cap; narrow the pattern or path]\n");
    }
    s
}

} // verus!
