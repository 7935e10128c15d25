//! Cutting a repository's files into overlapping line windows.
use vstd::prelude::*;

use crate::path::extension_of;
use crate::rag::{Chunk, ChunkView};
use crate::text::{is_str, lines, push_char, push_chars, split_lines, to_chars};

verus! {

broadcast use crate::text::lemma_chars_deep_view;

/// Lines per chunk.
pub const CHUNK_LINES: usize = 60;

/// Lines shared by consecutive chunks.
pub const CHUNK_OVERLAP: usize = 10;

/// Files larger than this many bytes (generated bundles, lockfiles) are skipped.
pub const MAX_FILE_BYTES: u64 = 524288;

/// `lines` joined with `"\n"` between them (`[&str]::join("\n")`).
pub open spec fn join_lines(ls: Seq<Seq<char>>) -> Seq<char>
    decreases ls.len(),
{
    if ls.len() == 0 {
        seq![]
    } else if ls.len() == 1 {
        ls[0]
    } else {
        join_lines(ls.drop_last()) + seq!['\n'] + ls.last()
    }
}

/// The line windows of a file of `n` lines from line index `start` on: each
/// window is 60 lines long (the last one may be shorter) and the next one
/// starts 10 lines before the current one ends.
pub open spec fn windows(n: int, start: int) -> Seq<(int, int)>
    decreases n - start,
{
    if start + 60 >= n || start < 0 {
        seq![(start, n)]
    } else {
        seq![(start, start + 60)] + windows(n, start + 50)
    }
}

/// The chunk of `path` for the window `(a, b)` of the lines `ls`.
pub open spec fn window_chunk(path: Seq<char>, ls: Seq<Seq<char>>, w: (int, int)) -> ChunkView {
    ChunkView {
        path,
        start_line: w.0 + 1,
        end_line: w.1,
        text: join_lines(ls.subrange(w.0, w.1)),
    }
}

/// The chunks of a file: none for a file without lines, else one per window.
pub open spec fn file_chunks(path: Seq<char>, text: Seq<char>) -> Seq<ChunkView> {
    let ls = lines(text);
    if ls.len() == 0 {
        seq![]
    } else {
        windows(ls.len() as int, 0).map_values(|w: (int, int)| window_chunk(path, ls, w))
    }
}

/// Whether a file extension is one that retrieval indexes.
pub open spec fn code_ext(e: Seq<char>) -> bool {
    ||| e == "rs"@ ||| e == "py"@ ||| e == "js"@ ||| e == "jsx"@ ||| e == "ts"@
    ||| e == "tsx"@ ||| e == "go"@ ||| e == "java"@ ||| e == "kt"@ ||| e == "swift"@
    ||| e == "c"@ ||| e == "h"@ ||| e == "cpp"@ ||| e == "hpp"@ ||| e == "cc"@
    ||| e == "hh"@ ||| e == "cs"@ ||| e == "rb"@ ||| e == "php"@ ||| e == "scala"@
    ||| e == "sh"@ ||| e == "bash"@ ||| e == "zsh"@ ||| e == "fish"@ ||| e == "lua"@
    ||| e == "r"@ ||| e == "jl"@ ||| e == "ex"@ ||| e == "exs"@ ||| e == "erl"@
    ||| e == "html"@ ||| e == "css"@ ||| e == "scss"@ ||| e == "vue"@ ||| e == "svelte"@
    ||| e == "toml"@ ||| e == "yaml"@ ||| e == "yml"@ ||| e == "json"@ ||| e == "md"@
    ||| e == "sql"@
}

/// Retrieval indexes a file exactly when its extension is one of the
/// allowlist: every listed extension is indexed, and no other.
pub proof fn lemma_code_ext_list(e: Seq<char>)
    ensures
        code_ext(e) <==> seq![
            "rs"@, "py"@, "js"@, "jsx"@, "ts"@, "tsx"@, "go"@, "java"@, "kt"@, "swift"@,
            "c"@, "h"@, "cpp"@, "hpp"@, "cc"@, "hh"@, "cs"@, "rb"@, "php"@, "scala"@,
            "sh"@, "bash"@, "zsh"@, "fish"@, "lua"@, "r"@, "jl"@, "ex"@, "exs"@, "erl"@,
            "html"@, "css"@, "scss"@, "vue"@, "svelte"@, "toml"@, "yaml"@, "yml"@, "json"@, "md"@,
            "sql"@,
        ].contains(e),
{
    let l: Seq<Seq<char>> = seq![
        "rs"@, "py"@, "js"@, "jsx"@, "ts"@, "tsx"@, "go"@, "java"@, "kt"@, "swift"@,
        "c"@, "h"@, "cpp"@, "hpp"@, "cc"@, "hh"@, "cs"@, "rb"@, "php"@, "scala"@,
        "sh"@, "bash"@, "zsh"@, "fish"@, "lua"@, "r"@, "jl"@, "ex"@, "exs"@, "erl"@,
        "html"@, "css"@, "scss"@, "vue"@, "svelte"@, "toml"@, "yaml"@, "yml"@, "json"@, "md"@,
        "sql"@,
    ];
    if code_ext(e) {
        if e == "rs"@ {
            assert(l[0] == e);
        }
        if e == "py"@ {
            assert(l[1] == e);
        }
        if e == "js"@ {
            assert(l[2] == e);
        }
        if e == "jsx"@ {
            assert(l[3] == e);
        }
        if e == "ts"@ {
            assert(l[4] == e);
        }
        if e == "tsx"@ {
            assert(l[5] == e);
        }
        if e == "go"@ {
            assert(l[6] == e);
        }
        if e == "java"@ {
            assert(l[7] == e);
        }
        if e == "kt"@ {
            assert(l[8] == e);
        }
        if e == "swift"@ {
            assert(l[9] == e);
        }
        if e == "c"@ {
            assert(l[10] == e);
        }
        if e == "h"@ {
            assert(l[11] == e);
        }
        if e == "cpp"@ {
            assert(l[12] == e);
        }
        if e == "hpp"@ {
            assert(l[13] == e);
        }
        if e == "cc"@ {
            assert(l[14] == e);
        }
        if e == "hh"@ {
            assert(l[15] == e);
        }
        if e == "cs"@ {
            assert(l[16] == e);
        }
        if e == "rb"@ {
            assert(l[17] == e);
        }
        if e == "php"@ {
            assert(l[18] == e);
        }
        if e == "scala"@ {
            assert(l[19] == e);
        }
        if e == "sh"@ {
            assert(l[20] == e);
        }
        if e == "bash"@ {
            assert(l[21] == e);
        }
        if e == "zsh"@ {
            assert(l[22] == e);
        }
        if e == "fish"@ {
            assert(l[23] == e);
        }
        if e == "lua"@ {
            assert(l[24] == e);
        }
        if e == "r"@ {
            assert(l[25] == e);
        }
        if e == "jl"@ {
            assert(l[26] == e);
        }
        if e == "ex"@ {
            assert(l[27] == e);
        }
        if e == "exs"@ {
            assert(l[28] == e);
        }
        if e == "erl"@ {
            assert(l[29] == e);
        }
        if e == "html"@ {
            assert(l[30] == e);
        }
        if e == "css"@ {
            assert(l[31] == e);
        }
        if e == "scss"@ {
            assert(l[32] == e);
        }
        if e == "vue"@ {
            assert(l[33] == e);
        }
        if e == "svelte"@ {
            assert(l[34] == e);
        }
        if e == "toml"@ {
            assert(l[35] == e);
        }
        if e == "yaml"@ {
            assert(l[36] == e);
        }
        if e == "yml"@ {
            assert(l[37] == e);
        }
        if e == "json"@ {
            assert(l[38] == e);
        }
        if e == "md"@ {
            assert(l[39] == e);
        }
        if e == "sql"@ {
            assert(l[40] == e);
        }
    }
    if l.contains(e) {
        let i = choose|i: int| 0 <= i < l.len() && l[i] == e;
        assert(code_ext(l[i]));
    }
}

/// Whether retrieval indexes files with extension `e`.
pub fn is_code_ext(e: &[char]) -> (r: bool)
    ensures
        r == code_ext(e@),
{
    is_str(e, "rs") || is_str(e, "py") || is_str(e, "js") || is_str(e, "jsx") || is_str(e, "ts")
        || is_str(e, "tsx") || is_str(e, "go") || is_str(e, "java") || is_str(e, "kt") || is_str(
        e,
        "swift",
    ) || is_str(e, "c") || is_str(e, "h") || is_str(e, "cpp") || is_str(e, "hpp") || is_str(
        e,
        "cc",
    ) || is_str(e, "hh") || is_str(e, "cs") || is_str(e, "rb") || is_str(e, "php") || is_str(
        e,
        "scala",
    ) || is_str(e, "sh") || is_str(e, "bash") || is_str(e, "zsh") || is_str(e, "fish") || is_str(
        e,
        "lua",
    ) || is_str(e, "r") || is_str(e, "jl") || is_str(e, "ex") || is_str(e, "exs") || is_str(
        e,
        "erl",
    ) || is_str(e, "html") || is_str(e, "css") || is_str(e, "scss") || is_str(e, "vue")
        || is_str(e, "svelte") || is_str(e, "toml") || is_str(e, "yaml") || is_str(e, "yml")
        || is_str(e, "json") || is_str(e, "md") || is_str(e, "sql")
}

/// Whether a file of `len` bytes at `path` is indexed: its extension is on
/// the allowlist (a file without one counts as extension `""`) and it is at
/// most `MAX_FILE_BYTES` long.
pub fn wants_file(path: &str, len: u64) -> (r: bool)
    ensures
        r == ((match crate::path::extension(path@) {
            Some(e) => code_ext(e),
            None => code_ext(Seq::<char>::empty()),
        }) && len <= MAX_FILE_BYTES),
{
    let p = to_chars(path);
    let ghost x = crate::path::extension(path@);
    let ext = match extension_of(&p) {
        Some(e) => {
            assert(x == Some(e@));
            e
        },
        None => {
            assert(x is None);
            let e: Vec<char> = Vec::new();
            assert(e@ == Seq::<char>::empty());
            e
        },
    };
    is_code_ext(&ext) && len <= MAX_FILE_BYTES
}

/// The text of the lines `ls[a..b]` joined with newlines.
fn join_window(ls: &Vec<Vec<char>>, a: usize, b: usize) -> (r: String)
    requires
        a < b <= ls@.len(),
    ensures
        r@ == join_lines(ls.deep_view().subrange(a as int, b as int)),
{
    let mut out = String::new();
    push_chars(&mut out, &ls[a]);
    let mut i = a + 1;
    assert(ls.deep_view().subrange(a as int, a + 1) == seq![ls@[a as int]@]);
    while i < b
        invariant
            a < i <= b <= ls@.len(),
            out@ == join_lines(ls.deep_view().subrange(a as int, i as int)),
        decreases b - i,
    {
        push_char(&mut out, '\n');
        push_chars(&mut out, &ls[i]);
        let ghost w = ls.deep_view().subrange(a as int, i + 1);
        assert(w.drop_last() == ls.deep_view().subrange(a as int, i as int));
        assert(w.last() == ls@[i as int]@);
        i += 1;
    }
    out
}

/// Appends the chunks of one file to `out`: overlapping windows of 60
/// lines, consecutive windows sharing 10 lines.
pub fn chunk_file(path: String, text: &str, out: &mut Vec<Chunk>)
    ensures
        final(out).deep_view() == old(out).deep_view() + file_chunks(path@, text@),
{
    let cs = to_chars(text);
    let ls = split_lines(&cs);
    let ghost lv = ls.deep_view();
    let n = ls.len();
    if n == 0 {
        assert(out.deep_view() == old(out).deep_view() + Seq::<ChunkView>::empty());
        return;
    }
    let ghost all = windows(n as int, 0);
    let ghost mk = |w: (int, int)| window_chunk(path@, lv, w);
    let mut start: usize = 0;
    let ghost mut done: Seq<(int, int)> = seq![];
    loop
        invariant_except_break
            start < n,
            done + windows(n as int, start as int) == all,
        invariant
            n == ls@.len() == lv.len(),
            n > 0,
            lv == lines(text@),
            lv == ls.deep_view(),
            forall|x: (int, int)| #[trigger] mk(x) == window_chunk(path@, lv, x),
            out.deep_view() == old(out).deep_view() + done.map_values(mk),
        ensures
            done == all,
        decreases n - start,
    {
        let end = if n - start <= CHUNK_LINES {
            n
        } else {
            start + CHUNK_LINES
        };
        let body = join_window(&ls, start, end);
        let ghost w = (start as int, end as int);
        assert(windows(n as int, start as int)[0] == w);
        let c = Chunk { path: path.clone(), start_line: start + 1, end_line: end, text: body };
        assert(mk(w) == window_chunk(path@, lv, w));
        assert(c@ == mk(w));
        let ghost before = out.deep_view();
        out.push(c);
        assert(out.deep_view() =~= before.push(mk(w)));
        proof {
            assert(done.push(w).map_values(mk) =~= done.map_values(mk).push(mk(w)));
            done = done.push(w);
        }
        if end == n {
            assert(windows(n as int, start as int) == seq![w]);
            assert(done == all);
            break;
        }
        assert(windows(n as int, start as int) == seq![w] + windows(n as int, start + 50));
        let mut next = if end >= CHUNK_OVERLAP {
            end - CHUNK_OVERLAP
        } else {
            0
        };
        assert(out@[out@.len() - 1]@.start_line == start + 1);
        let last_start = out[out.len() - 1].start_line - 1;
        if next <= last_start && next + CHUNK_LINES <= end {
            next = end;
        }
        assert(next == start + 50);
        start = next;
    }
    assert(lv.len() > 0);
    assert(file_chunks(path@, text@) == all.map_values(mk));
}

/// The windows of a file cover its lines from `start` to the end: the
/// first starts at `start`, the last ends at the last line, each holds 1 to
/// 60 lines and every one but the last exactly 60, and each next one starts
/// 10 lines before the previous one ends (so windows start 50 lines apart).
pub proof fn lemma_windows_cover(n: int, start: int)
    requires
        0 <= start < n,
    ensures
        windows(n, start).len() >= 1,
        windows(n, start)[0].0 == start,
        windows(n, start).last().1 == n,
        forall|k: int|
            0 <= k < windows(n, start).len() ==> #[trigger] windows(n, start)[k].0 < windows(n, start)[k].1
                <= windows(n, start)[k].0 + 60,
        forall|k: int|
            0 <= k < windows(n, start).len() - 1 ==> #[trigger] windows(n, start)[k].1 == windows(n, start)[k].0
                + 60,
        forall|k: int|
            0 <= k < windows(n, start).len() - 1 ==> #[trigger] windows(n, start)[k + 1].0 == windows(
                n,
                start,
            )[k].1 - 10,
    decreases n - start,
{
    if !(start + 60 >= n) {
        lemma_windows_cover(n, start + 50);
        let rest = windows(n, start + 50);
        let w = windows(n, start);
        assert(w == seq![(start, start + 60)] + rest);
        assert forall|k: int| 0 <= k < w.len() implies #[trigger] w[k].0 < w[k].1 <= w[k].0 + 60 by {
            if k > 0 {
                assert(w[k] == rest[k - 1]);
            }
        }
        assert forall|k: int| 0 <= k < w.len() - 1 implies #[trigger] w[k].1 == w[k].0 + 60 by {
            if k > 0 {
                assert(w[k] == rest[k - 1]);
            }
        }
        assert forall|k: int| 0 <= k < w.len() - 1 implies #[trigger] w[k + 1].0 == w[k].1 - 10 by {
            if k > 0 {
                let j = k - 1;
                assert(rest[j + 1].0 == rest[j].1 - 10);
                assert(w[k] == rest[j]);
                assert(w[k + 1] == rest[j + 1]);
            } else {
                assert(w[1] == rest[0]);
            }
        }
    }
}

/// The sizes scanning uses: files of more than 512 KiB are not indexed,
/// chunks are 60 lines long and consecutive ones share 10 lines.
pub proof fn lemma_scan_sizes()
    ensures
        MAX_FILE_BYTES == 512 * 1024,
        CHUNK_LINES == 60,
        CHUNK_OVERLAP == 10,
{
}

} // verus!
