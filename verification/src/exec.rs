//! Output of a user command, and how much of it is shown to a model.
use vstd::prelude::*;
use vstd::utf8::{decode_utf8, encode_utf8, is_char_boundary};

use crate::text::{decimal, owned, push_decimal, push_str};

verus! {

/// What a finished command left behind.
pub struct RunOutput {
    pub status: i32,
    pub stdout: String,
    pub stderr: String,
}

/// The first character boundary at or after `bytes.len() - max`.
pub open spec fn truncation_point(bytes: Seq<u8>, max: int) -> int {
    choose|a: int|
        bytes.len() - max <= a <= bytes.len() && is_char_boundary(bytes, a) && forall|j: int|
            bytes.len() - max <= j < a ==> !is_char_boundary(bytes, j)
}

/// The end of a text, at most `max` bytes of it: the text itself when it is
/// short enough, else a note of how many bytes were cut followed by the
/// text from the first character boundary within its last `max` bytes.
pub open spec fn tail_text(s: Seq<char>, max: int) -> Seq<char> {
    let b = encode_utf8(s);
    if b.len() <= max {
        s
    } else {
        let a = truncation_point(b, max);
        "... ["@ + decimal(a as nat) + " bytes truncated]\n"@ + decode_utf8(
            b.subrange(a, b.len() as int),
        )
    }
}

/// Truncates a stream from the end (the most recent output), which is
/// where errors usually are.
pub fn tail(s: &str, max_bytes: usize) -> (r: String)
    ensures
        r@ == tail_text(s@, max_bytes as int),
{
    broadcast use vstd::utf8::encode_utf8_valid_utf8, vstd::utf8::is_char_boundary_start_end_of_seq;

    let bytes = s.as_bytes();
    let len = bytes.len();
    let ghost b = encode_utf8(s@);
    assert(bytes@ == b);
    if len <= max_bytes {
        return owned(s);
    }
    assert(vstd::utf8::valid_utf8(b));
    assert(is_char_boundary(b, b.len() as int));
    let start = len - max_bytes;
    let mut adjusted = start;
    while adjusted < len && !s.is_char_boundary(adjusted)
        invariant
            start <= adjusted <= len,
            len == b.len(),
            b == encode_utf8(s@),
            start == b.len() - max_bytes,
            forall|j: int| start <= j < adjusted ==> !is_char_boundary(b, j),
        decreases len - adjusted,
    {
        adjusted += 1;
    }
    assert(is_char_boundary(b, adjusted as int));
    proof {
        let a = truncation_point(b, max_bytes as int);
        assert(start <= adjusted <= len && is_char_boundary(b, adjusted as int) && forall|j: int|
            start <= j < adjusted ==> !is_char_boundary(b, j));
        assert(a == adjusted as int) by {
            if a < adjusted {
                assert(!is_char_boundary(b, a));
            } else if a > adjusted {
                assert(!is_char_boundary(b, adjusted as int));
            }
        }
    }
    let (_, rest) = s.split_at(adjusted);
    proof {
        vstd::utf8::encode_utf8_decode_utf8(rest@);
        assert(rest@ == decode_utf8(b.subrange(adjusted as int, len as int)));
    }
    let mut out = owned("... [");
    push_decimal(&mut out, adjusted);
    push_str(&mut out, " bytes truncated]\n");
    push_str(&mut out, rest);
    out
}

/// Between `lo` and a boundary `a` there is a first character boundary at or after `lo`.
proof fn lemma_min_boundary(b: Seq<u8>, lo: int, a: int)
    requires
        vstd::utf8::valid_utf8(b),
        lo <= a <= b.len(),
        is_char_boundary(b, a),
    ensures
        exists|m: int| lo <= m <= b.len() && is_char_boundary(b, m) && forall|j: int| lo <= j < m ==> !is_char_boundary(b, j),
    decreases a - lo,
{
    if exists|j: int| lo <= j < a && is_char_boundary(b, j) {
        let j = choose|j: int| lo <= j < a && is_char_boundary(b, j);
        lemma_min_boundary(b, lo, j);
    }
}

/// Cutting a long stream keeps its end: what follows the note is a suffix
/// of the text, at most `max` bytes long, and the note counts the bytes of
/// what was cut. A short stream is kept whole.
pub proof fn lemma_tail_keeps_end(s: Seq<char>, max: int)
    requires
        max >= 0,
    ensures
        encode_utf8(s).len() <= max ==> tail_text(s, max) == s,
        encode_utf8(s).len() > max ==> exists|p: Seq<char>, t: Seq<char>|
            {
                &&& s == p + t
                &&& #[trigger] encode_utf8(t).len() <= max
                &&& tail_text(s, max) == "... ["@ + decimal(#[trigger] encode_utf8(p).len()) + " bytes truncated]\n"@ + t
            },
{
    broadcast use vstd::utf8::encode_utf8_valid_utf8, vstd::utf8::is_char_boundary_start_end_of_seq;

    let b = encode_utf8(s);
    if b.len() > max {
        assert(vstd::utf8::valid_utf8(b));
        lemma_min_boundary(b, b.len() - max, b.len() as int);
        let a = truncation_point(b, max);
        let head = b.subrange(0, a);
        let rest = b.subrange(a, b.len() as int);
        vstd::utf8::valid_utf8_split(b, a);
        vstd::utf8::decode_utf8_split(b, a);
        vstd::utf8::encode_utf8_decode_utf8(s);
        vstd::utf8::decode_utf8_encode_utf8(head);
        vstd::utf8::decode_utf8_encode_utf8(rest);
        let p = decode_utf8(head);
        let t = decode_utf8(rest);
        assert(s == p + t);
        assert(encode_utf8(t) == rest);
        assert(encode_utf8(p) == head);
        assert(encode_utf8(p).len() == a);
        assert(tail_text(s, max) == "... ["@ + decimal(encode_utf8(p).len()) + " bytes truncated]\n"@ + t);
    }
}

} // verus!
