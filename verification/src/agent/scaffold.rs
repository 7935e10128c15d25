//! Scaffolding: the checks applied to a model's project plan.
use vstd::prelude::*;

use crate::agent::json::{extract_object, json_object, JsonError};
use crate::agent::paths::{check_relative, checked_relative, PathError};
use crate::path::{join, join_paths};
use crate::text::{decimal, owned, push_decimal, push_str, to_chars};

verus! {

/// Refuses absolute paths and any `..` segment, so that no plan writes
/// outside the output directory.
pub fn sanitize_rel(p: &str) -> (r: Result<String, PathError>)
    ensures
        match checked_relative(p@) {
            Ok(q) => r matches Ok(s) && s@ == q,
            Err(e) => r matches Err(e2) && e2 == e,
        },
{
    check_relative(p)
}

/// JSON mode usually returns clean JSON, but some servers prepend prose:
/// takes the first `{...}` block.
pub fn extract_json(s: &str) -> (r: Result<String, JsonError>)
    ensures
        match json_object(s@) {
            Ok(obj) => r matches Ok(t) && t@ == obj,
            Err(e) => r matches Err(e2) && e2 == e,
        },
{
    extract_object(s)
}

/// What the scaffold prompt says when no language is configured.
pub const ANY_LANGUAGE: &'static str = "the most appropriate language";

/// The rules and schema that close the scaffold prompt.
pub const SCAFFOLD_RULES: &'static str = "\n\nRespond as JSON with this exact schema:\n{\"files\": [{\"path\": \"relative/path.ext\", \"contents\": \"file body\"}]}\n\nRules:\n- Paths must be relative (no leading /).\n- Include all files needed to build and run (manifest, source, README).\n- Keep it minimal and runnable; do not invent dependencies that aren't standard.\n- Do NOT wrap the JSON in markdown fences.";

/// The user message asking for a project built to `spec`.
pub open spec fn scaffold_text(language: Option<Seq<char>>, spec: Seq<char>) -> Seq<char> {
    "Generate a complete project for this spec, written in "@ + match language {
        Some(l) => l,
        None => ANY_LANGUAGE@,
    } + ":\n\n"@ + spec + SCAFFOLD_RULES@
}

/// The user message asking for a project built to `spec`, in the
/// configured language if there is one.
pub fn scaffold_prompt(language: Option<&str>, spec: &str) -> (r: String)
    ensures
        r@ == scaffold_text(
            match language {
                Some(l) => Some(l@),
                None => None,
            },
            spec@,
        ),
{
    let mut s = owned("Generate a complete project for this spec, written in ");
    match language {
        Some(l) => push_str(&mut s, l),
        None => push_str(&mut s, ANY_LANGUAGE),
    }
    push_str(&mut s, ":\n\n");
    push_str(&mut s, spec);
    push_str(&mut s, SCAFFOLD_RULES);
    s
}

/// The plan's files, each a path and a size in bytes, as listed before
/// they are written: a header with their number, then each file's place
/// under `out` with its size. Refused at the first path that is absolute
/// or steps out with `..`.
pub open spec fn plan_lines(out: Seq<char>, files: Seq<(Seq<char>, nat)>) -> Result<Seq<char>, PathError>
    decreases files.len(),
{
    if files.len() == 0 {
        Ok(seq![])
    } else {
        match plan_lines(out, files.drop_last()) {
            Err(e) => Err(e),
            Ok(prev) => match checked_relative(files.last().0) {
                Err(e) => Err(e),
                Ok(p) => Ok(prev + "  "@ + join(out, p) + "  ("@ + decimal(files.last().1) + " bytes)\n"@),
            },
        }
    }
}

/// The listing of a plan, or the refusal of its first unsafe path.
pub open spec fn plan_listing_text(out: Seq<char>, files: Seq<(Seq<char>, nat)>) -> Result<Seq<char>, PathError> {
    match plan_lines(out, files) {
        Err(e) => Err(e),
        Ok(body) => Ok("Plan ("@ + decimal(files.len()) + " files):\n"@ + body),
    }
}

/// Lists a plan's files under `out`, each with its size, refusing the
/// first path that would be written outside `out`.
pub fn plan_listing(out: &str, files: &Vec<(String, usize)>) -> (r: Result<String, PathError>)
    ensures
        match plan_listing_text(out@, files@.map_values(|f: (String, usize)| (f.0@, f.1 as nat))) {
            Ok(t) => r matches Ok(s) && s@ == t,
            Err(e) => r matches Err(e2) && e2 == e,
        },
{
    let ghost fv = files@.map_values(|f: (String, usize)| (f.0@, f.1 as nat));
    let oc = to_chars(out);
    let mut body = String::new();
    let mut i: usize = 0;
    while i < files.len()
        invariant
            i <= files@.len(),
            fv == files@.map_values(|f: (String, usize)| (f.0@, f.1 as nat)),
            oc@ == out@,
            plan_lines(out@, fv.take(i as int)) == Ok::<Seq<char>, PathError>(body@),
        decreases files@.len() - i,
    {
        assert(fv.take(i + 1).drop_last() == fv.take(i as int));
        assert(fv.take(i + 1).last() == (files@[i as int].0@, files@[i as int].1 as nat));
        match check_relative(files[i].0.as_str()) {
            Err(e) => {
                proof {
                    lemma_plan_lines_err(out@, fv, (i + 1) as int);
                }
                return Err(e);
            },
            Ok(p) => {
                let pc = to_chars(p.as_str());
                let full = join_paths(&oc, &pc);
                push_str(&mut body, "  ");
                push_str(&mut body, full.as_str());
                push_str(&mut body, "  (");
                push_decimal(&mut body, files[i].1);
                push_str(&mut body, " bytes)\n");
            },
        }
        i += 1;
    }
    assert(fv.take(fv.len() as int) == fv);
    let mut s = owned("Plan (");
    push_decimal(&mut s, files.len());
    push_str(&mut s, " files):\n");
    push_str(&mut s, body.as_str());
    Ok(s)
}

/// Once a prefix of the plan is refused, the whole plan is.
proof fn lemma_plan_lines_err(out: Seq<char>, fv: Seq<(Seq<char>, nat)>, n: int)
    requires
        0 < n <= fv.len(),
        plan_lines(out, fv.take(n)) is Err,
    ensures
        plan_lines(out, fv) == plan_lines(out, fv.take(n)),
    decreases fv.len() - n,
{
    if n < fv.len() {
        assert(fv.take(n + 1).drop_last() == fv.take(n));
        lemma_plan_lines_err(out, fv, n + 1);
    } else {
        assert(fv.take(n) == fv);
    }
}

/// A plan is refused exactly when one of its paths is, and then with the
/// refusal of the first such path.
pub proof fn lemma_plan_refused(out: Seq<char>, files: Seq<(Seq<char>, nat)>)
    ensures
        plan_lines(out, files) is Err <==> exists|k: int| 0 <= k < files.len() && #[trigger] checked_relative(files[k].0) is Err,
        plan_lines(out, files) is Err ==> exists|k: int|
            0 <= k < files.len() && #[trigger] checked_relative(files[k].0) == Err::<Seq<char>, PathError>(
                plan_lines(out, files)->Err_0,
            ) && forall|j: int| 0 <= j < k ==> checked_relative(files[j].0) is Ok,
    decreases files.len(),
{
    if files.len() > 0 {
        let prev = files.drop_last();
        lemma_plan_refused(out, prev);
        let last = files.len() - 1;
        assert forall|k: int| 0 <= k < prev.len() implies #[trigger] prev[k] == files[k] by {}
        if plan_lines(out, prev) is Err {
            let k = choose|k: int|
                0 <= k < prev.len() && #[trigger] checked_relative(prev[k].0) == Err::<Seq<char>, PathError>(
                    plan_lines(out, prev)->Err_0,
                ) && forall|j: int| 0 <= j < k ==> checked_relative(prev[j].0) is Ok;
            assert(prev[k] == files[k]);
            assert(checked_relative(files[k].0) is Err);
            assert forall|j: int| 0 <= j < k implies checked_relative(files[j].0) is Ok by {
                assert(prev[j] == files[j]);
            }
        } else {
            assert forall|j: int| 0 <= j < prev.len() implies checked_relative(files[j].0) is Ok by {
                assert(prev[j] == files[j]);
                if checked_relative(files[j].0) is Err {
                    assert(checked_relative(prev[j].0) is Err);
                }
            }
            if checked_relative(files[last].0) is Err {
                assert(checked_relative(files[last].0) == Err::<Seq<char>, PathError>(plan_lines(out, files)->Err_0));
            } else {
                assert forall|k: int| 0 <= k < files.len() implies !(#[trigger] checked_relative(files[k].0) is Err) by {
                    if k < prev.len() {
                        assert(prev[k] == files[k]);
                    }
                }
            }
        }
    }
}

} // verus!
