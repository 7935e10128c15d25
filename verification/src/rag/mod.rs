pub mod bm25;
pub mod hybrid;
pub mod scan;

use vstd::prelude::*;

verus! {

/// A window of lines from one file, the unit of retrieval.
#[derive(Clone, Debug)]
pub struct Chunk {
    pub path: String,
    /// 1-indexed inclusive line range.
    pub start_line: usize,
    pub end_line: usize,
    pub text: String,
}

/// A chunk as a mathematical value.
pub struct ChunkView {
    pub path: Seq<char>,
    pub start_line: int,
    pub end_line: int,
    pub text: Seq<char>,
}

impl View for Chunk {
    type V = ChunkView;

    open spec fn view(&self) -> ChunkView {
        ChunkView {
            path: self.path@,
            start_line: self.start_line as int,
            end_line: self.end_line as int,
            text: self.text@,
        }
    }
}

impl DeepView for Chunk {
    type V = ChunkView;

    open spec fn deep_view(&self) -> ChunkView {
        self@
    }
}

} // verus!
