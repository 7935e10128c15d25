//! Answering a question about the codebase: the retrieved chunks as context.
use vstd::prelude::*;

use crate::rag::{Chunk, ChunkView};
use crate::text::{decimal, owned, push_decimal, push_str};

verus! {

/// One chunk as context: a header with its place, then its text.
pub open spec fn chunk_context(c: ChunkView) -> Seq<char> {
    "--- "@ + c.path + ":"@ + decimal(c.start_line as nat) + "-"@ + decimal(c.end_line as nat)
        + " ---\n"@ + c.text + "\n\n"@
}

/// The chunks as context, in order.
pub open spec fn context_of(cs: Seq<ChunkView>) -> Seq<char>
    decreases cs.len(),
{
    if cs.len() == 0 {
        seq![]
    } else {
        context_of(cs.drop_last()) + chunk_context(cs.last())
    }
}

/// The retrieved chunks as one context text.
pub fn render_context(hits: &Vec<Chunk>) -> (r: String)
    ensures
        r@ == context_of(hits.deep_view()),
{
    let ghost hv = hits.deep_view();
    let mut s = String::new();
    let mut i: usize = 0;
    while i < hits.len()
        invariant
            i <= hits@.len(),
            hv == hits.deep_view(),
            s@ == context_of(hv.take(i as int)),
        decreases hits@.len() - i,
    {
        assert(hv.take(i + 1).drop_last() == hv.take(i as int));
        assert(hv.take(i + 1).last() == hits@[i as int]@);
        let c = &hits[i];
        push_str(&mut s, "--- ");
        push_str(&mut s, c.path.as_str());
        push_str(&mut s, ":");
        push_decimal(&mut s, c.start_line);
        push_str(&mut s, "-");
        push_decimal(&mut s, c.end_line);
        push_str(&mut s, " ---\n");
        push_str(&mut s, c.text.as_str());
        push_str(&mut s, "\n\n");
        i += 1;
    }
    assert(hv.take(hv.len() as int) == hv);
    s
}

/// The question put to the model, after the context.
pub open spec fn ask_text(context: Seq<char>, question: Seq<char>) -> Seq<char> {
    "Codebase context:\n\n"@ + context + "\n\nQuestion: "@ + question
        + "\n\nAnswer concisely. Cite file paths and line ranges where relevant."@
}

/// The user message that asks `question` over `context`.
pub fn ask_prompt(context: &str, question: &str) -> (r: String)
    ensures
        r@ == ask_text(context@, question@),
{
    let mut s = owned("Codebase context:\n\n");
    push_str(&mut s, context);
    push_str(&mut s, "\n\nQuestion: ");
    push_str(&mut s, question);
    push_str(&mut s, "\n\nAnswer concisely. Cite file paths and line ranges where relevant.");
    s
}

} // verus!
