//! The debug loop: the checks applied to a proposed fix.
use vstd::prelude::*;

use crate::agent::json::{extract_object, json_object, JsonError};
use crate::agent::paths::{check_relative, checked_relative, PathError};
use crate::exec::{tail, tail_text};
use crate::path::{compare_component_seqs, components, join, join_paths, path_components, Component};
use crate::pattern::{compile, first_groups, group_one_matches, regex_compiles};
use crate::text::{owned, str_eq, push_signed, push_str, signed_decimal, to_chars};

verus! {

/// What happened last in the debug loop.
#[derive(Clone, Copy, Debug, PartialEq, Eq, Structural)]
pub enum DebugEvent {
    /// The loop is about to begin.
    Start,
    /// The command ran and exited with this status.
    Exited(i32),
    /// The model's fix plan named this many files.
    Planned(usize),
    /// The plan's files were offered; whether any was written.
    Applied(bool),
}

/// What the debug loop does next.
#[derive(Clone, Copy, Debug, PartialEq, Eq, Structural)]
pub enum DebugAction {
    /// Run the command (the next iteration begins).
    RunCommand,
    /// Ask the model for a fix of the failure.
    AskForFix,
    /// Show and apply the plan's files.
    ApplyFiles,
    /// The command succeeded: finish successfully.
    Succeed,
    /// The plan named no file: fail ("no files to change").
    FailNoFiles,
    /// No change was applied: stop without error.
    Stop,
    /// Every allowed iteration ran without success: fail.
    FailMaxIters,
}

/// The debug loop's decision after `ev`, in iteration `iter` (counted from
/// 1; 0 before the first run) of at most `max_iters`.
pub open spec fn debug_next(iter: int, max_iters: int, ev: DebugEvent) -> DebugAction {
    match ev {
        DebugEvent::Start => if iter < max_iters {
            DebugAction::RunCommand
        } else {
            DebugAction::FailMaxIters
        },
        DebugEvent::Exited(status) => if status == 0 {
            DebugAction::Succeed
        } else {
            DebugAction::AskForFix
        },
        DebugEvent::Planned(n) => if n == 0 {
            DebugAction::FailNoFiles
        } else {
            DebugAction::ApplyFiles
        },
        DebugEvent::Applied(any) => if !any {
            DebugAction::Stop
        } else if iter < max_iters {
            DebugAction::RunCommand
        } else {
            DebugAction::FailMaxIters
        },
    }
}

/// One step of the debug loop: a successful run ends it; a failed run
/// asks for a fix; a plan with no files fails; a plan of which nothing was
/// applied stops; otherwise the command runs again, as long as fewer than
/// `max_iters` iterations have run, and the loop fails after the last one.
pub fn debug_step(iter: usize, max_iters: usize, ev: DebugEvent) -> (r: DebugAction)
    ensures
        r == debug_next(iter as int, max_iters as int, ev),
        r == DebugAction::RunCommand ==> iter < max_iters,
{
    match ev {
        DebugEvent::Start => if iter < max_iters {
            DebugAction::RunCommand
        } else {
            DebugAction::FailMaxIters
        },
        DebugEvent::Exited(status) => if status == 0 {
            DebugAction::Succeed
        } else {
            DebugAction::AskForFix
        },
        DebugEvent::Planned(n) => if n == 0 {
            DebugAction::FailNoFiles
        } else {
            DebugAction::ApplyFiles
        },
        DebugEvent::Applied(any) => if !any {
            DebugAction::Stop
        } else if iter < max_iters {
            DebugAction::RunCommand
        } else {
            DebugAction::FailMaxIters
        },
    }
}

/// What happens to one file of a fix plan.
#[derive(Clone, Copy, Debug, PartialEq, Eq, Structural)]
pub enum FileStep {
    /// The file already holds the proposed contents: passed over.
    Unchanged,
    /// The diff is shown and the file written without asking (`--yes`).
    Write,
    /// The diff is shown and the user is asked before writing.
    Ask,
}

/// The step for a file that holds `old` when the plan proposes `contents`:
/// unchanged files are passed over; otherwise the change is written
/// outright under `--yes` (`auto_yes`) and confirmed first without it.
pub fn file_step(old: &str, contents: &str, auto_yes: bool) -> (r: FileStep)
    ensures
        old@ == contents@ ==> r == FileStep::Unchanged,
        old@ != contents@ && auto_yes ==> r == FileStep::Write,
        old@ != contents@ && !auto_yes ==> r == FileStep::Ask,
{
    if str_eq(old, contents) {
        FileStep::Unchanged
    } else if auto_yes {
        FileStep::Write
    } else {
        FileStep::Ask
    }
}

/// Refuses absolute paths and any `..` segment, so that no fix writes
/// outside the repository.
pub fn sanitize_rel(p: &str) -> (r: Result<String, PathError>)
    ensures
        match checked_relative(p@) {
            Ok(q) => r matches Ok(s) && s@ == q,
            Err(e) => r matches Err(e2) && e2 == e,
        },
{
    check_relative(p)
}

/// JSON mode usually returns clean JSON, but some servers prepend prose:
/// takes the first `{...}` block.
pub fn extract_json(s: &str) -> (r: Result<String, JsonError>)
    ensures
        match json_object(s@) {
            Ok(obj) => r matches Ok(t) && t@ == obj,
            Err(e) => r matches Err(e2) && e2 == e,
        },
{
    extract_object(s)
}

/// Bytes of the failed command's stderr put in the prompt at most.
pub const STDERR_TAIL_BYTES: usize = 4000;

/// Bytes of the failed command's stdout put in the prompt at most.
pub const STDOUT_TAIL_BYTES: usize = 1000;

/// Files referenced in an error that are put in the prompt at most.
pub const MAX_HINTED_FILES: usize = 5;

/// What a path mentioned in an error looks like: `src/foo.rs`,
/// `foo/bar.py:42`, `./baz.ts`; group 1 is the path.
pub const HINT_PATTERN: &'static str = "(?m)([A-Za-z0-9_\\-./]+\\.[A-Za-z0-9]{1,6})(?::\\d+)?";

/// The close of the fix prompt: the reply's schema and rules.
pub const FIX_RULES: &'static str = "\n\nPropose a minimal fix. Respond as JSON:\n{\"rationale\": \"one or two sentences\", \"files\": [{\"path\": \"relative/path\", \"contents\": \"FULL new file contents\"}]}\nOnly include files you are actually changing. Paths must be relative to the repo root.";

/// The user message asking for a fix of a failed command.
pub open spec fn fix_text(status: int, cmd: Seq<char>, stderr: Seq<char>, stdout: Seq<char>, hinted: Seq<char>) -> Seq<char> {
    "A command failed with exit code "@ + signed_decimal(status) + ".\n\nCommand: "@ + cmd
        + "\n\nstderr (tail):\n"@ + tail_text(stderr, STDERR_TAIL_BYTES as int) + "\n\nstdout (tail):\n"@
        + tail_text(stdout, STDOUT_TAIL_BYTES as int) + "\n\nFiles referenced in the error:\n"@ + if hinted.len()
        == 0 {
        "(none detected)"@
    } else {
        hinted
    } + FIX_RULES@
}

/// The user message asking for a fix of `cmd`, which exited with `status`,
/// with the contents of the files its error mentions (`hinted`).
pub fn fix_prompt(status: i32, cmd: &str, stderr: &str, stdout: &str, hinted: &str) -> (r: String)
    ensures
        r@ == fix_text(status as int, cmd@, stderr@, stdout@, hinted@),
{
    let mut s = owned("A command failed with exit code ");
    push_signed(&mut s, status);
    push_str(&mut s, ".\n\nCommand: ");
    push_str(&mut s, cmd);
    push_str(&mut s, "\n\nstderr (tail):\n");
    let e = tail(stderr, STDERR_TAIL_BYTES);
    push_str(&mut s, e.as_str());
    push_str(&mut s, "\n\nstdout (tail):\n");
    let o = tail(stdout, STDOUT_TAIL_BYTES);
    push_str(&mut s, o.as_str());
    push_str(&mut s, "\n\nFiles referenced in the error:\n");
    if to_chars(hinted).len() == 0 {
        push_str(&mut s, "(none detected)");
    } else {
        push_str(&mut s, hinted);
    }
    push_str(&mut s, FIX_RULES);
    s
}

/// One hinted file in the prompt: its path, then its text.
pub fn hint_block(rel: &str, text: &str) -> (r: String)
    ensures
        r@ == "--- "@ + rel@ + " ---\n"@ + text@ + "\n\n"@,
{
    let mut s = owned("--- ");
    push_str(&mut s, rel);
    push_str(&mut s, " ---\n");
    push_str(&mut s, text);
    push_str(&mut s, "\n\n");
    s
}

/// `p` is `repo` joined with some path.
pub open spec fn joined_under(repo: Seq<char>, p: Seq<char>) -> bool {
    exists|raw: Seq<char>| #[trigger] join(repo, raw) == p
}

/// The repository joined with each path found in an error, in order; a
/// match whose group took no part is skipped.
pub open spec fn hint_paths(repo: Seq<char>, groups: Seq<Option<Seq<char>>>) -> Seq<Seq<char>>
    decreases groups.len(),
{
    if groups.len() == 0 {
        seq![]
    } else {
        let prev = hint_paths(repo, groups.drop_last());
        match groups.last() {
            Some(g) => prev.push(join(repo, g)),
            None => prev,
        }
    }
}

/// The paths that `stderr` mentions, as places under `repo`, in the order
/// they occur: `repo` joined with group 1 of each match of `HINT_PATTERN`.
/// Which text the pattern matches is the regex crate's business
/// (`group_one_matches`); should the pattern not compile, there are none.
pub fn hint_candidates(stderr: &str, repo: &str) -> (r: Vec<String>)
    ensures
        regex_compiles(HINT_PATTERN@) ==> r.deep_view() == hint_paths(repo@, group_one_matches(HINT_PATTERN@, stderr@)),
        !regex_compiles(HINT_PATTERN@) ==> r@.len() == 0,
        forall|k: int| 0 <= k < r@.len() ==> #[trigger] joined_under(repo@, r@[k]@),
{
    let mut out: Vec<String> = Vec::new();
    let re = match compile(HINT_PATTERN) {
        Ok(re) => re,
        Err(_) => return out,
    };
    let groups = first_groups(&re, stderr);
    let ghost gv = groups.deep_view();
    let rc = to_chars(repo);
    let mut i: usize = 0;
    while i < groups.len()
        invariant
            i <= groups@.len(),
            gv == groups.deep_view(),
            rc@ == repo@,
            out.deep_view() == hint_paths(repo@, gv.take(i as int)),
            forall|k: int| 0 <= k < out@.len() ==> #[trigger] joined_under(repo@, out@[k]@),
        decreases groups@.len() - i,
    {
        assert(gv.take(i + 1).drop_last() == gv.take(i as int));
        assert(gv.take(i + 1).last() == gv[i as int]);
        match &groups[i] {
            Some(raw) => {
                let pc = to_chars(raw.as_str());
                let full = join_paths(&rc, &pc);
                assert(gv[i as int] == Some(raw@));
                assert(join(repo@, pc@) == full@);
                assert(joined_under(repo@, full@));
                let ghost ob = out@;
                let ghost od = out.deep_view();
                out.push(full);
                assert(out.deep_view() == od.push(full@));
                assert forall|k: int| 0 <= k < out@.len() implies #[trigger] joined_under(repo@, out@[k]@) by {
                    if k < ob.len() {
                        assert(out@[k] == ob[k]);
                    }
                }
            },
            None => {
                assert(gv[i as int] == None::<Seq<char>>);
            },
        }
        i += 1;
    }
    assert(gv.take(gv.len() as int) == gv);
    out
}

/// Some kept path has the components of `c`.
pub open spec fn seen(kept: Seq<Seq<char>>, c: Seq<char>) -> bool {
    exists|k: int| 0 <= k < kept.len() && #[trigger] components(kept[k]) == components(c)
}

/// The files kept of the first `n` candidates: each candidate that is a
/// file and is not a path already kept, until `MAX_HINTED_FILES` are kept.
pub open spec fn hints_kept(cands: Seq<Seq<char>>, is_file: Seq<bool>, n: int) -> Seq<Seq<char>>
    decreases n,
{
    if n <= 0 {
        seq![]
    } else {
        let prev = hints_kept(cands, is_file, n - 1);
        if prev.len() < MAX_HINTED_FILES && is_file[n - 1] && !seen(prev, cands[n - 1]) {
            prev.push(cands[n - 1])
        } else {
            prev
        }
    }
}

/// The candidates whose files are put in the prompt: those that are files
/// (`is_file`, one flag per candidate), each path once (paths compare by
/// components), at most `MAX_HINTED_FILES`, in order.
pub fn select_hints(cands: &Vec<String>, is_file: &Vec<bool>) -> (r: Vec<String>)
    requires
        is_file@.len() == cands@.len(),
    ensures
        r.deep_view() == hints_kept(cands.deep_view(), is_file@, cands@.len() as int),
{
    let ghost cv = cands.deep_view();
    let mut kept: Vec<String> = Vec::new();
    let mut kept_comps: Vec<Vec<Component>> = Vec::new();
    let mut i: usize = 0;
    while i < cands.len()
        invariant
            i <= cands@.len() == is_file@.len(),
            cv == cands.deep_view(),
            kept.deep_view() == hints_kept(cv, is_file@, i as int),
            kept_comps@.len() == kept@.len(),
            forall|k: int| 0 <= k < kept@.len() ==> #[trigger] kept_comps@[k].deep_view() == components(kept.deep_view()[k]),
        decreases cands@.len() - i,
    {
        let ghost prev = kept.deep_view();
        if kept.len() < MAX_HINTED_FILES && is_file[i] {
            let c = to_chars(cands[i].as_str());
            let cc = path_components(&c);
            assert(c@ == cv[i as int]);
            let mut dup = false;
            let mut j: usize = 0;
            while j < kept_comps.len()
                invariant
                    j <= kept_comps@.len() == prev.len(),
                    prev == kept.deep_view(),
                    cc.deep_view() == components(cv[i as int]),
                    forall|k: int| 0 <= k < prev.len() ==> #[trigger] kept_comps@[k].deep_view() == components(prev[k]),
                    dup == exists|k: int| 0 <= k < j && #[trigger] components(prev[k]) == components(cv[i as int]),
                decreases kept_comps@.len() - j,
            {
                if compare_component_seqs(&kept_comps[j], &cc) == 0 {
                    dup = true;
                }
                j += 1;
            }
            assert(dup == seen(prev, cv[i as int]));
            if !dup {
                let ghost kb = kept@;
                let ghost kbv = kept.deep_view();
                kept.push(owned(cands[i].as_str()));
                assert(kept.deep_view() =~= kbv.push(cv[i as int])) by {
                    assert forall|x: int| 0 <= x < kbv.len() implies kept.deep_view()[x] == kbv[x] by {
                        assert(kept@[x] == kb[x]);
                    }
                }
                let ghost kcb = kept_comps@;
                kept_comps.push(cc);
                assert forall|k: int| 0 <= k < kept@.len() implies #[trigger] kept_comps@[k].deep_view() == components(kept.deep_view()[k]) by {
                    if k < kcb.len() {
                        assert(kept_comps@[k] == kcb[k]);
                    }
                }
            }
        }
        i += 1;
    }
    kept
}

/// At most `MAX_HINTED_FILES` files are put in the prompt, each path once,
/// and each is a candidate that is a file.
pub proof fn lemma_hints_bounded(cands: Seq<Seq<char>>, is_file: Seq<bool>, n: int)
    requires
        0 <= n <= cands.len() == is_file.len(),
    ensures
        hints_kept(cands, is_file, n).len() <= MAX_HINTED_FILES,
        forall|a: int, b: int|
            0 <= a < b < hints_kept(cands, is_file, n).len() ==> components(
                #[trigger] hints_kept(cands, is_file, n)[a],
            ) != components(#[trigger] hints_kept(cands, is_file, n)[b]),
        forall|a: int|
            0 <= a < hints_kept(cands, is_file, n).len() ==> exists|i: int|
                0 <= i < n && is_file[i] && #[trigger] hints_kept(cands, is_file, n)[a] == cands[i],
    decreases n,
{
    if n > 0 {
        lemma_hints_bounded(cands, is_file, n - 1);
        let prev = hints_kept(cands, is_file, n - 1);
        let cur = hints_kept(cands, is_file, n);
        if prev.len() < MAX_HINTED_FILES && is_file[n - 1] && !seen(prev, cands[n - 1]) {
            assert forall|a: int, b: int| 0 <= a < b < cur.len() implies components(#[trigger] cur[a])
                != components(#[trigger] cur[b]) by {
                if b == cur.len() - 1 {
                    assert(cur[a] == prev[a]);
                    assert(cur[b] == cands[n - 1]);
                    if components(prev[a]) == components(cands[n - 1]) {
                        assert(seen(prev, cands[n - 1]));
                    }
                } else {
                    assert(cur[a] == prev[a] && cur[b] == prev[b]);
                }
            }
            assert forall|a: int| 0 <= a < cur.len() implies exists|i: int|
                0 <= i < n && is_file[i] && #[trigger] cur[a] == cands[i] by {
                if a < prev.len() {
                    assert(cur[a] == prev[a]);
                    let i = choose|i: int| 0 <= i < n - 1 && is_file[i] && #[trigger] prev[a] == cands[i];
                    assert(cur[a] == cands[i]);
                } else {
                    assert(cur[a] == cands[n - 1]);
                }
            }
        }
    }
}

} // verus!
