//! The deterministic mock provider: its reply text, its usage figures, the
//! seed of its response id and how its reply is cut into stream chunks.
use vstd::prelude::*;

use crate::models::chat::TokenUsage;
use crate::text::{decimal, push_decimal, push_str, split_words, words};

verus! {

/// The reply of the mock provider named `name`.
pub open spec fn mock_reply_text(name: Seq<char>) -> Seq<char> {
    "Deterministic mock response from "@ + name + "."@
}

/// The reply text of the mock provider `provider_name`.
pub fn mock_reply(provider_name: &str) -> (s: String)
    ensures
        s@ == mock_reply_text(provider_name@),
{
    let mut s = String::new();
    push_str(&mut s, "Deterministic mock response from ");
    push_str(&mut s, provider_name);
    push_str(&mut s, ".");
    s
}

/// Usage of a reply: prompt and completion tokens and their sum.
pub fn usage_of(prompt_tokens: u32, completion_tokens: u32) -> (u: TokenUsage)
    requires
        prompt_tokens + completion_tokens <= u32::MAX,
    ensures
        u.prompt_tokens == prompt_tokens,
        u.completion_tokens == completion_tokens,
        u.total_tokens == prompt_tokens + completion_tokens,
{
    TokenUsage { prompt_tokens, completion_tokens, total_tokens: prompt_tokens + completion_tokens }
}

/// The seed of a mock response id: provider, model and the two token counts,
/// separated by `|`, with `|stream` after it for a streamed response.
pub open spec fn mock_seed_text(name: Seq<char>, model: Seq<char>, prompt_tokens: u32, completion_tokens: u32, stream: bool) -> Seq<char> {
    name + "|"@ + model + "|"@ + decimal(prompt_tokens as nat) + "|"@ + decimal(completion_tokens as nat) + if stream {
        "|stream"@
    } else {
        Seq::empty()
    }
}

/// The seed of the response id of a mock reply.
pub fn mock_seed(provider_name: &str, model: &str, prompt_tokens: u32, completion_tokens: u32, stream: bool) -> (s: String)
    ensures
        s@ == mock_seed_text(provider_name@, model@, prompt_tokens, completion_tokens, stream),
{
    let mut s = String::new();
    push_str(&mut s, provider_name);
    push_str(&mut s, "|");
    push_str(&mut s, model);
    push_str(&mut s, "|");
    push_decimal(&mut s, prompt_tokens as u64);
    push_str(&mut s, "|");
    push_decimal(&mut s, completion_tokens as u64);
    if stream {
        push_str(&mut s, "|stream");
    }
    proof {
        if !stream {
            assert(s@ =~= mock_seed_text(provider_name@, model@, prompt_tokens, completion_tokens, stream));
        }
    }
    s
}

/// One byte of the id after `b` arrives in `slot`.
pub open spec fn mixed_byte(prev: u8, b: u8, slot: u8) -> u8 {
    prev.wrapping_mul(31).wrapping_add(b).wrapping_add(slot)
}

/// The sixteen id bytes of a seed: byte `i` of the seed is mixed into slot
/// `i % 16`, starting from zeros.
pub open spec fn id_bytes(seed: Seq<u8>) -> Seq<u8>
    decreases seed.len(),
{
    if seed.len() == 0 {
        Seq::new(16, |i: int| 0u8)
    } else {
        let prev = id_bytes(seed.drop_last());
        let slot = (seed.len() - 1) % 16;
        prev.update(slot, mixed_byte(prev[slot], seed.last(), slot as u8))
    }
}

proof fn lemma_id_bytes_len(seed: Seq<u8>)
    ensures
        id_bytes(seed).len() == 16,
    decreases seed.len(),
{
    if seed.len() > 0 {
        lemma_id_bytes_len(seed.drop_last());
    }
}

/// The bytes of the deterministic response id for `seed`.
pub fn deterministic_id_bytes(seed: &[u8]) -> (b: [u8; 16])
    ensures
        b@ == id_bytes(seed@),
{
    let mut bytes: [u8; 16] = [0u8; 16];
    assert(bytes@ =~= id_bytes(seed@.take(0)));
    let n = seed.len();
    let mut i: usize = 0;
    while i < n
        invariant
            n == seed@.len(),
            i <= n,
            bytes@ == id_bytes(seed@.take(i as int)),
        decreases n - i,
    {
        proof {
            lemma_id_bytes_len(seed@.take(i as int));
            assert(seed@.take(i as int + 1).drop_last() =~= seed@.take(i as int));
        }
        let slot = i % 16;
        let mixed = bytes[slot].wrapping_mul(31).wrapping_add(seed[i]).wrapping_add(slot as u8);
        bytes.set(slot, mixed);
        i = i + 1;
    }
    assert(seed@.take(n as int) =~= seed@);
    bytes
}

/// The stream chunks of a mock reply: its words, each but the last followed
/// by one space.
pub fn mock_stream_pieces(content: &str) -> (r: Vec<String>)
    ensures
        r@.len() == words(content@).len(),
        forall|i: int| 0 <= i < r@.len() ==> #[trigger] r@[i]@ == words(content@)[i] + if i + 1 < r@.len() {
            " "@
        } else {
            Seq::empty()
        },
{
    let ws = split_words(content);
    let n = ws.len();
    let mut r: Vec<String> = Vec::new();
    for k in 0..n
        invariant
            n == ws@.len(),
            n == words(content@).len(),
            r@.len() == k,
            forall|j: int| 0 <= j < ws@.len() ==> #[trigger] ws@[j]@ == words(content@)[j],
            forall|j: int| 0 <= j < k ==> #[trigger] r@[j]@ == words(content@)[j] + if j + 1 < n {
                " "@
            } else {
                Seq::empty()
            },
    {
        let mut piece = String::new();
        push_str(&mut piece, ws[k].as_str());
        if k + 1 < n {
            push_str(&mut piece, " ");
        } else {
            assert(piece@ =~= words(content@)[k as int] + Seq::<char>::empty());
        }
        r.push(piece);
    }
    r
}

} // verus!
