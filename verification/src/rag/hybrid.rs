//! Hybrid retrieval: mapping ranked chunks back to their index.
use vstd::prelude::*;

use crate::rag::Chunk;

verus! {

/// Index of the first chunk with the same path and start line as `target`
/// (chunks are identified by both), or 0 when there is none.
pub fn chunk_index_of(all: &[Chunk], target: &Chunk) -> (r: usize)
    ensures
        (exists|i: int|
            0 <= i < all@.len() && all@[i]@.path == target@.path && all@[i]@.start_line
                == target@.start_line) ==> {
            &&& r < all@.len()
            &&& all@[r as int]@.path == target@.path
            &&& all@[r as int]@.start_line == target@.start_line
            &&& forall|j: int|
                0 <= j < r ==> !(all@[j]@.path == target@.path && all@[j]@.start_line
                    == target@.start_line)
        },
        !(exists|i: int|
            0 <= i < all@.len() && all@[i]@.path == target@.path && all@[i]@.start_line
                == target@.start_line) ==> r == 0,
{
    let mut i: usize = 0;
    while i < all.len()
        invariant
            i <= all@.len(),
            forall|j: int|
                0 <= j < i ==> !(all@[j]@.path == target@.path && all@[j]@.start_line
                    == target@.start_line),
        decreases all@.len() - i,
    {
        if all[i].path == target.path && all[i].start_line == target.start_line {
            return i;
        }
        i += 1;
    }
    0
}

} // verus!
