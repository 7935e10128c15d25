//! Which directories a codebase walk leaves out: well-known dependency
//! trees, virtualenvs, caches and build output, even when `.gitignore` does
//! not list them, so that third-party code is not indexed as the user's.
use vstd::prelude::*;

use crate::text::str_eq;

verus! {

/// The directory names that are never entered.
pub open spec fn excluded_dir_names() -> Seq<Seq<char>> {
    seq![
        "node_modules"@, "bower_components"@, ".next"@, ".nuxt"@, ".svelte-kit"@, ".turbo"@,
        ".parcel-cache"@, ".yarn"@, "target"@, ".venv"@, "venv"@, "__pycache__"@,
        ".pytest_cache"@, ".mypy_cache"@, ".tox"@, ".eggs"@, ".ruff_cache"@, "vendor"@,
        ".gradle"@, ".idea"@, "dist"@, "build"@, "out"@, ".cache"@, ".dart_tool"@,
        "DerivedData"@, "coverage"@, ".nyc_output"@,
    ]
}

/// The directories skipped in every walk, by ecosystem: JavaScript and
/// TypeScript (`node_modules`, `bower_components`, `.next`, `.nuxt`,
/// `.svelte-kit`, `.turbo`, `.parcel-cache`, `.yarn`), Rust (`target`),
/// Python (`.venv`, `venv`, `__pycache__`, `.pytest_cache`, `.mypy_cache`,
/// `.tox`, `.eggs`, `.ruff_cache`), Go (`vendor`), Java, Kotlin and Android
/// (`.gradle`, `.idea`), and build output and caches (`dist`, `build`,
/// `out`, `.cache`, `.dart_tool`, `DerivedData`, `coverage`,
/// `.nyc_output`); no other directory is skipped.
pub proof fn lemma_excluded_dirs(d: Seq<char>)
    ensures
        excluded_dir_names().contains(d) <==> (
            d == "node_modules"@ || d == "bower_components"@ || d == ".next"@ || d == ".nuxt"@
            || d == ".svelte-kit"@ || d == ".turbo"@ || d == ".parcel-cache"@ || d == ".yarn"@
            || d == "target"@
            || d == ".venv"@ || d == "venv"@ || d == "__pycache__"@ || d == ".pytest_cache"@
            || d == ".mypy_cache"@ || d == ".tox"@ || d == ".eggs"@ || d == ".ruff_cache"@
            || d == "vendor"@
            || d == ".gradle"@ || d == ".idea"@
            || d == "dist"@ || d == "build"@ || d == "out"@ || d == ".cache"@ || d == ".dart_tool"@
            || d == "DerivedData"@ || d == "coverage"@ || d == ".nyc_output"@
        ),
{
    let l = excluded_dir_names();
    if l.contains(d) {
        let i = choose|i: int| 0 <= i < l.len() && l[i] == d;
        assert(l[i] == d);
    }
    if d == "node_modules"@ {
        assert(l[0] == d);
    }
    if d == "bower_components"@ {
        assert(l[1] == d);
    }
    if d == ".next"@ {
        assert(l[2] == d);
    }
    if d == ".nuxt"@ {
        assert(l[3] == d);
    }
    if d == ".svelte-kit"@ {
        assert(l[4] == d);
    }
    if d == ".turbo"@ {
        assert(l[5] == d);
    }
    if d == ".parcel-cache"@ {
        assert(l[6] == d);
    }
    if d == ".yarn"@ {
        assert(l[7] == d);
    }
    if d == "target"@ {
        assert(l[8] == d);
    }
    if d == ".venv"@ {
        assert(l[9] == d);
    }
    if d == "venv"@ {
        assert(l[10] == d);
    }
    if d == "__pycache__"@ {
        assert(l[11] == d);
    }
    if d == ".pytest_cache"@ {
        assert(l[12] == d);
    }
    if d == ".mypy_cache"@ {
        assert(l[13] == d);
    }
    if d == ".tox"@ {
        assert(l[14] == d);
    }
    if d == ".eggs"@ {
        assert(l[15] == d);
    }
    if d == ".ruff_cache"@ {
        assert(l[16] == d);
    }
    if d == "vendor"@ {
        assert(l[17] == d);
    }
    if d == ".gradle"@ {
        assert(l[18] == d);
    }
    if d == ".idea"@ {
        assert(l[19] == d);
    }
    if d == "dist"@ {
        assert(l[20] == d);
    }
    if d == "build"@ {
        assert(l[21] == d);
    }
    if d == "out"@ {
        assert(l[22] == d);
    }
    if d == ".cache"@ {
        assert(l[23] == d);
    }
    if d == ".dart_tool"@ {
        assert(l[24] == d);
    }
    if d == "DerivedData"@ {
        assert(l[25] == d);
    }
    if d == "coverage"@ {
        assert(l[26] == d);
    }
    if d == ".nyc_output"@ {
        assert(l[27] == d);
    }
}

/// Whether a directory with this name is skipped, wherever it is.
pub fn is_excluded_dir(name: &str) -> (r: bool)
    ensures
        r == excluded_dir_names().contains(name@),
{
    let names: Vec<&str> = vec![
        "node_modules", "bower_components", ".next", ".nuxt", ".svelte-kit", ".turbo",
        ".parcel-cache", ".yarn", "target", ".venv", "venv", "__pycache__",
        ".pytest_cache", ".mypy_cache", ".tox", ".eggs", ".ruff_cache", "vendor",
        ".gradle", ".idea", "dist", "build", "out", ".cache", ".dart_tool",
        "DerivedData", "coverage", ".nyc_output",
    ];
    let ghost all = excluded_dir_names();
    assert(names.deep_view() =~= all);
    let mut i: usize = 0;
    while i < names.len()
        invariant
            i <= names@.len(),
            names.deep_view() == all,
            all == excluded_dir_names(),
            forall|j: int| 0 <= j < i ==> all[j] != name@,
        decreases names@.len() - i,
    {
        if str_eq(names[i], name) {
            assert(all[i as int] == name@);
            assert(all.contains(name@));
            return true;
        }
        i += 1;
    }
    false
}

/// Whether a walk keeps an entry: files always; directories unless their
/// name is excluded. An entry whose name is not valid Unicode is kept.
pub fn keep_entry(is_dir: bool, name: Option<&str>) -> (r: bool)
    ensures
        r == (!is_dir || match name {
            Some(n) => !excluded_dir_names().contains(n@),
            None => true,
        }),
{
    if !is_dir {
        return true;
    }
    match name {
        Some(n) => !is_excluded_dir(n),
        None => true,
    }
}

} // verus!
