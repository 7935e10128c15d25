//! The subcommands of the command line, and the few decisions taken on
//! them before an agent runs.
use vstd::prelude::*;

use crate::text::{join_strings, join_with, owned, str_eq};

verus! {

/// A subcommand with its arguments.
#[derive(Debug)]
pub enum Cmd {
    /// Write a default config file.
    Init,
    /// Ask a question about the codebase (retrieval over the current repo).
    Ask {
        /// The question, word by word.
        question: Vec<String>,
        /// Chunks to retrieve at most.
        k: usize,
    },
    /// Propose an edit to a file and show a diff before applying it.
    Edit {
        /// The file to edit.
        file: String,
        /// What to do, word by word.
        instruction: Vec<String>,
        /// Apply without confirmation.
        yes: bool,
    },
    /// Scaffold a new project or file tree from a description.
    Scaffold {
        /// Target directory (must not exist or be empty).
        out: String,
        /// What to build, word by word.
        spec: Vec<String>,
        /// Write without confirmation.
        yes: bool,
    },
    /// Run a command, capture its errors, propose a fix as a diff, retry.
    Debug {
        /// Iterations at most.
        max_iters: usize,
        /// Apply fixes without confirmation.
        yes: bool,
        /// The command and its arguments.
        cmd: Vec<String>,
    },
    /// Interactive chat with a tool-use loop.
    Chat {
        /// Confirm every edit, write and shell command without asking.
        yes: bool,
    },
}

/// Chunks retrieved for a question when `--k` is not given.
pub const DEFAULT_ASK_K: usize = 8;

/// Debug iterations when `--max-iters` is not given.
pub const DEFAULT_MAX_ITERS: usize = 3;

/// The words of an argument list as one text, separated by single spaces.
pub fn join_words_arg(words: &Vec<String>) -> (r: String)
    ensures
        r@ == join_with(words.deep_view(), " "@),
{
    join_strings(words, " ")
}

/// The model chat runs with. Chat defaults to `llama3.1:8b`, which calls
/// tools natively: when no model was given on the command line
/// (`model_given` is false) and the configured one is `llama3:8b`, which
/// emits broken tool calls, it is replaced. A model given explicitly is kept
/// as it is. The flag tells whether the model was replaced.
pub fn chat_model(model: &str, model_given: bool) -> (r: (String, bool))
    ensures
        !model_given && model@ == "llama3:8b"@ ==> r.0@ == "llama3.1:8b"@ && r.1,
        model_given || model@ != "llama3:8b"@ ==> r.0@ == model@ && !r.1,
{
    if !model_given && str_eq(model, "llama3:8b") {
        (owned("llama3.1:8b"), true)
    } else {
        (owned(model), false)
    }
}

} // verus!
