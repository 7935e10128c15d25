//! Messages of a chat with a model, and the endpoints of the
//! OpenAI-compatible server that answers them.
use vstd::prelude::*;

use crate::symbols::is_perm;
use crate::text::{owned, push_str, strip_trailing, trim_end_char};

verus! {

/// One message of a conversation.
#[derive(Clone, Debug)]
pub struct ChatMessage {
    pub role: String,
    pub content: String,
}

impl ChatMessage {
    /// A system message.
    pub fn system(s: String) -> (r: Self)
        ensures
            r.role@ == "system"@,
            r.content@ == s@,
    {
        ChatMessage { role: owned("system"), content: s }
    }

    /// A user message.
    pub fn user(s: String) -> (r: Self)
        ensures
            r.role@ == "user"@,
            r.content@ == s@,
    {
        ChatMessage { role: owned("user"), content: s }
    }
}

/// Where and how to reach an OpenAI-compatible chat-completions server.
pub struct OpenAiBackend {
    /// The base URL, without trailing slashes.
    pub base_url: String,
    pub api_key: Option<String>,
    pub model: String,
}

impl OpenAiBackend {
    /// A backend for `base_url`, whose trailing slashes are dropped.
    pub fn new(base_url: &str, api_key: Option<String>, model: String) -> (r: Self)
        ensures
            r.base_url@ == strip_trailing(base_url@, '/'),
            r.api_key == api_key,
            r.model@ == model@,
    {
        OpenAiBackend { base_url: trim_end_char(base_url, '/'), api_key, model }
    }

    /// The chat-completions endpoint.
    pub fn chat_url(&self) -> (r: String)
        ensures
            r@ == self.base_url@ + "/chat/completions"@,
    {
        let mut u = owned(self.base_url.as_str());
        push_str(&mut u, "/chat/completions");
        u
    }
}

/// The chat backends; one kind for now, dispatched by value so that async
/// calls need no trait objects.
pub enum LlmBackend {
    OpenAi(OpenAiBackend),
}

/// Where and how to reach an OpenAI-compatible embeddings endpoint.
pub struct EmbeddingsClient {
    /// The base URL, without trailing slashes.
    pub base_url: String,
    pub api_key: Option<String>,
    pub model: String,
}

impl EmbeddingsClient {
    /// A client for `base_url`, whose trailing slashes are dropped.
    pub fn new(base_url: &str, api_key: Option<String>, model: String) -> (r: Self)
        ensures
            r.base_url@ == strip_trailing(base_url@, '/'),
            r.api_key == api_key,
            r.model@ == model@,
    {
        EmbeddingsClient { base_url: trim_end_char(base_url, '/'), api_key, model }
    }

    /// The embedding model's name.
    pub fn model(&self) -> (r: &str)
        ensures
            r@ == self.model@,
    {
        self.model.as_str()
    }

    /// The embeddings endpoint.
    pub fn embeddings_url(&self) -> (r: String)
        ensures
            r@ == self.base_url@ + "/embeddings"@,
    {
        let mut u = owned(self.base_url.as_str());
        push_str(&mut u, "/embeddings");
        u
    }
}

// ---------------------------------------------------------------------
// Embedding batches
// ---------------------------------------------------------------------

/// `out` holds the values of `items` ordered by their index, items with
/// equal indices keeping their order: a stable sort by index
/// (`sort_by_key`), indices then dropped.
pub open spec fn sorted_by_index<T>(items: Seq<(usize, T)>, out: Seq<T>) -> bool {
    exists|perm: Seq<int>|
        {
            &&& #[trigger] is_perm(perm, items.len() as int)
            &&& out.len() == items.len()
            &&& forall|k: int| 0 <= k < out.len() ==> #[trigger] out[k] == items[perm[k]].1
            &&& forall|a: int, b: int| 0 <= a < b < out.len() ==> items[perm[a]].0 <= items[perm[b]].0
            &&& forall|a: int, b: int|
                0 <= a < b < out.len() && items[perm[a]].0 == items[perm[b]].0 ==> perm[a] < perm[b]
        }
}

/// The values of a batch reply in request order: servers may return the
/// items out of order, each tagged with the index of its input.
pub fn order_by_index<T>(items: Vec<(usize, T)>) -> (r: Vec<T>)
    ensures
        sorted_by_index(items@, r@),
{
    let ghost iv = items@;
    let n = items.len();
    let mut order: Vec<usize> = Vec::new();
    let mut i: usize = 0;
    while i < n
        invariant
            n == items@.len() == iv.len(),
            iv == items@,
            i <= n,
            order@.len() == i,
            forall|a: int| 0 <= a < i ==> #[trigger] order@[a] < i,
            forall|a: int, b: int| 0 <= a < b < i ==> order@[a] != order@[b],
            forall|a: int, b: int| 0 <= a < b < i ==> iv[order@[a] as int].0 <= iv[order@[b] as int].0,
            forall|a: int, b: int|
                0 <= a < b < i && iv[order@[a] as int].0 == iv[order@[b] as int].0 ==> order@[a] < order@[b],
        decreases n - i,
    {
        let ki = items[i].0;
        let mut p: usize = 0;
        while p < order.len()
            invariant
                p <= order@.len() == i,
                i < n == iv.len() == items@.len(),
                iv == items@,
                ki == iv[i as int].0,
                forall|a: int| 0 <= a < i ==> #[trigger] order@[a] < i,
                forall|a: int, b: int| 0 <= a < b < i ==> iv[order@[a] as int].0 <= iv[order@[b] as int].0,
                forall|a: int| 0 <= a < p ==> iv[#[trigger] order@[a] as int].0 <= ki,
            ensures
                p <= order@.len(),
                forall|a: int| 0 <= a < p ==> iv[#[trigger] order@[a] as int].0 <= ki,
                p < order@.len() ==> ki < iv[order@[p as int] as int].0,
            decreases order@.len() - p,
        {
            if ki < items[order[p]].0 {
                break;
            }
            p += 1;
        }
        let ghost old_order = order@;
        order.insert(p, i);
        proof {
            assert forall|a: int| 0 <= a < i + 1 implies #[trigger] order@[a] < i + 1 by {
                if a < p {
                    assert(order@[a] == old_order[a]);
                } else if a > p {
                    assert(order@[a] == old_order[a - 1]);
                }
            }
            assert forall|a: int, b: int| 0 <= a < b < i + 1 implies order@[a] != order@[b] by {
                if a < p {
                    assert(order@[a] == old_order[a]);
                } else if a > p {
                    assert(order@[a] == old_order[a - 1]);
                }
                if b < p {
                    assert(order@[b] == old_order[b]);
                } else if b > p {
                    assert(order@[b] == old_order[b - 1]);
                }
            }
            assert forall|a: int, b: int| 0 <= a < b < i + 1 implies iv[order@[a] as int].0 <= iv[order@[b] as int].0
                && (iv[order@[a] as int].0 == iv[order@[b] as int].0 ==> order@[a] < order@[b]) by {
                if a < p {
                    assert(order@[a] == old_order[a]);
                } else if a > p {
                    assert(order@[a] == old_order[a - 1]);
                }
                if b < p {
                    assert(order@[b] == old_order[b]);
                } else if b > p {
                    assert(order@[b] == old_order[b - 1]);
                }
                if p < i && b > p && a != p {
                    assert(ki < iv[old_order[p as int] as int].0);
                }
                if a == p && b > p + 1 {
                    assert(ki < iv[old_order[p as int] as int].0);
                    assert(iv[old_order[p as int] as int].0 <= iv[old_order[b - 1] as int].0);
                }
            }
        }
        i += 1;
    }
    // Move the values out in that order.
    let mut slots: Vec<Option<T>> = Vec::new();
    let mut rest = items;
    let mut m: usize = 0;
    while m < n
        invariant
            m <= n == iv.len(),
            slots@.len() == m,
            rest@ == iv.subrange(m as int, n as int),
            forall|k: int| 0 <= k < m ==> #[trigger] slots@[k] == Some(iv[k].1),
        decreases n - m,
    {
        let (_, v) = rest.remove(0);
        slots.push(Some(v));
        m += 1;
        assert(rest@ =~= iv.subrange(m as int, n as int));
    }
    let mut out: Vec<T> = Vec::new();
    let mut j: usize = 0;
    while j < n
        invariant
            j <= n == iv.len() == order@.len() == slots@.len(),
            out@.len() == j,
            forall|a: int| 0 <= a < n ==> #[trigger] order@[a] < n,
            forall|a: int, b: int| 0 <= a < b < n ==> order@[a] != order@[b],
            forall|k: int| 0 <= k < j ==> #[trigger] out@[k] == iv[order@[k] as int].1,
            forall|k: int|
                0 <= k < n ==> (#[trigger] slots@[k] == Some(iv[k].1) || exists|a: int|
                    0 <= a < j && order@[a] == k),
            forall|a: int| 0 <= a < j ==> #[trigger] slots@[order@[a] as int] is None,
        decreases n - j,
    {
        let q = order[j];
        assert(slots@[q as int] == Some(iv[q as int].1)) by {
            if slots@[q as int] != Some(iv[q as int].1) {
                let a = choose|a: int| 0 <= a < j && order@[a] == q;
                assert(order@[a] != order@[j as int]);
            }
        }
        let mut taken: Option<T> = None;
        std::mem::swap(&mut taken, &mut slots[q]);
        match taken {
            Some(v) => {
                out.push(v);
            },
            None => {
                assert(false);
            },
        }
        j += 1;
    }
    proof {
        let perm = order@.map_values(|v: usize| v as int);
        assert(is_perm(perm, n as int));
        assert(sorted_by_index(iv, out@));
    }
    out
}

/// The number of empty slots.
pub open spec fn missing_count<T>(slots: Seq<Option<T>>) -> nat
    decreases slots.len(),
{
    if slots.len() == 0 {
        0
    } else {
        missing_count(slots.drop_last()) + if slots.last() is None {
            1nat
        } else {
            0nat
        }
    }
}

/// The slots with the empty ones filled from `fetched`, in order.
pub open spec fn filled<T>(slots: Seq<Option<T>>, fetched: Seq<T>) -> Seq<T>
    decreases slots.len(),
{
    if slots.len() == 0 {
        seq![]
    } else {
        let prev = filled(slots.drop_last(), fetched);
        match slots.last() {
            Some(v) => prev.push(v),
            None => prev.push(fetched[missing_count(slots.drop_last()) as int]),
        }
    }
}

/// Merges cached results with fetched ones: each empty slot takes the next
/// fetched value, in order; fetched values beyond the empty slots are left
/// out.
pub fn fill_missing<T>(slots: Vec<Option<T>>, fetched: Vec<T>) -> (r: Vec<T>)
    requires
        fetched@.len() >= missing_count(slots@),
    ensures
        r@ == filled(slots@, fetched@),
{
    let ghost sv = slots@;
    let ghost fv = fetched@;
    let mut slots = slots;
    let mut rest = fetched;
    let mut out: Vec<T> = Vec::new();
    let mut i: usize = 0;
    let n = slots.len();
    assert(sv.take(0) =~= Seq::<Option<T>>::empty());
    assert(fv.skip(0) == fv);
    while i < n
        invariant
            n == sv.len() == slots@.len(),
            i <= n,
            fv.len() >= missing_count(sv),
            forall|k: int| i <= k < n ==> #[trigger] slots@[k] == sv[k],
            out@ == filled(sv.take(i as int), fv),
            rest@ == fv.skip(missing_count(sv.take(i as int)) as int),
            missing_count(sv.take(i as int)) <= missing_count(sv),
        decreases n - i,
    {
        assert(sv.take(i + 1).drop_last() == sv.take(i as int));
        assert(sv.take(i + 1).last() == sv[i as int]);
        proof {
            lemma_missing_prefix(sv, i + 1);
        }
        let mut taken: Option<T> = None;
        std::mem::swap(&mut taken, &mut slots[i]);
        match taken {
            Some(v) => {
                out.push(v);
            },
            None => {
                let ghost m = missing_count(sv.take(i as int));
                assert(rest@.len() > 0);
                let v = rest.remove(0);
                assert(v == fv[m as int]);
                out.push(v);
                assert(rest@ =~= fv.skip((m + 1) as int));
            },
        }
        i += 1;
    }
    assert(sv.take(n as int) =~= sv);
    out
}

/// Prefixes have no more empty slots than the whole.
proof fn lemma_missing_prefix<T>(s: Seq<Option<T>>, n: int)
    requires
        0 <= n <= s.len(),
    ensures
        missing_count(s.take(n)) <= missing_count(s),
    decreases s.len() - n,
{
    if n < s.len() {
        lemma_missing_prefix(s, n + 1);
        assert(s.take(n + 1).drop_last() =~= s.take(n));
    } else {
        assert(s.take(n) =~= s);
    }
}

} // verus!
