pub mod ask;
pub mod chat;
pub mod debug;
pub mod edit;
pub mod json;
pub mod paths;
pub mod scaffold;

use vstd::prelude::*;

use crate::text::{owned, push_str};

verus! {

/// The opening of the shared system prompt.
pub const PREAMBLE_HEAD: &'static str = "You are OpenCode, a careful local coding agent. You read provided context and respond concisely. Prefer correctness and idiomatic style for ";

/// The close of the shared system prompt.
pub const PREAMBLE_TAIL: &'static str = ". When asked to modify code, output exactly the requested format (full file or unified diff) — no prose, no markdown fences unless explicitly requested.";

/// What the preamble says when no language is configured.
pub const ANY_LANGUAGE: &'static str = "the language used in the provided code";

/// The shared system prompt. The language hint helps small models stay
/// idiomatic.
pub open spec fn preamble(language: Option<Seq<char>>) -> Seq<char> {
    PREAMBLE_HEAD@ + match language {
        Some(l) => l,
        None => ANY_LANGUAGE@,
    } + PREAMBLE_TAIL@
}

/// The shared system prompt, for the configured language if there is one.
pub fn system_preamble(language: Option<&str>) -> (r: String)
    ensures
        r@ == preamble(match language {
            Some(l) => Some(l@),
            None => None,
        }),
{
    let mut s = owned(PREAMBLE_HEAD);
    match language {
        Some(l) => push_str(&mut s, l),
        None => push_str(&mut s, ANY_LANGUAGE),
    }
    push_str(&mut s, PREAMBLE_TAIL);
    s
}

} // verus!
