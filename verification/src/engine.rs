//! Decisions of the decode loop that need no model: how many tokens a request
//! may still generate, and each token's sampling seed.

use vstd::prelude::*;
use std::collections::hash_map::DefaultHasher;
use std::hash::Hasher;
use vstd::std_specs::hash::DefaultHasherAdditionalSpecFns;
use vstd::string::*;
use crate::text::{decimal, decimal_spec};

verus! {

/// `a + b`, or `usize::MAX` where that overflows.
pub open spec fn sat_add(a: int, b: int) -> int {
    if a + b > usize::MAX {
        usize::MAX as int
    } else {
        a + b
    }
}

/// `a - b`, or 0 where that would be negative.
pub open spec fn sat_sub(a: int, b: int) -> int {
    if a >= b {
        a - b
    } else {
        0
    }
}

/// The generation budget of a request with `prompt` tokens that asked for
/// `requested` new ones, in a context of `context` tokens: what was asked when
/// prompt, request and one more fit (counted with saturation), else what
/// remains after the prompt and that one token, and whether it was cut.
pub open spec fn budget_spec(prompt: usize, requested: usize, context: usize) -> (usize, bool) {
    if sat_add(sat_add(prompt as int, requested as int), 1) <= context {
        (requested, false)
    } else {
        (sat_sub(sat_sub(context as int, prompt as int), 1) as usize, true)
    }
}

/// Cap a request's generation budget to what remains of `context_length`
/// after the prompt.  Returns `(effective_max_new_tokens, was_truncated)`.
pub fn effective_generation_budget(
    prompt_tokens: usize,
    requested_max_new_tokens: usize,
    context_length: usize,
) -> (r: (usize, bool))
    ensures
        r == budget_spec(prompt_tokens, requested_max_new_tokens, context_length),
{
    let want = prompt_tokens.saturating_add(requested_max_new_tokens).saturating_add(1);
    if want <= context_length {
        (requested_max_new_tokens, false)
    } else {
        let truncated = context_length.saturating_sub(prompt_tokens).saturating_sub(1);
        (truncated, true)
    }
}

/// Where prompt, request and one more are counted without saturating: an
/// untruncated budget is what was asked and fits the context; a truncated one
/// is at most what was asked and fills the context exactly, or is 0 where the
/// prompt alone leaves no room.
pub proof fn law_budget_fits_context(prompt: usize, requested: usize, context: usize)
    requires
        prompt + requested + 1 <= usize::MAX,
    ensures
        ({
            let (b, cut) = budget_spec(prompt, requested, context);
            &&& !cut ==> b == requested && prompt + b + 1 <= context
            &&& cut ==> b <= requested && (prompt + 1 <= context ==> prompt + b + 1 == context)
            &&& cut && prompt + 1 > context ==> b == 0
        }),
{
}

/// The `k` low bytes of `n`, least significant first.
pub open spec fn le_bytes(n: nat, k: nat) -> Seq<u8>
    decreases k,
{
    if k == 0 {
        Seq::empty()
    } else {
        seq![(n % 256) as u8] + le_bytes(n / 256, (k - 1) as nat)
    }
}

/// The bytes of `n` in little-endian order, as `usize::to_le_bytes` gives them.
pub open spec fn usize_le_bytes(n: usize) -> Seq<u8> {
    le_bytes(n as nat, (usize::BITS / 8) as nat)
}

/// The bytes of `n` in big-endian order, as `usize::to_be_bytes` gives them.
pub open spec fn usize_be_bytes(n: usize) -> Seq<u8> {
    usize_le_bytes(n).reverse()
}

/// Trusted: `Hasher::write_usize` on a `DefaultHasher`.  `DefaultHasher`
/// keeps the trait's default, one write of `n.to_ne_bytes()`: the bytes of
/// `n` in the machine's byte order, which is little- or big-endian.  Which of
/// the two is left unsaid, since it is a property of the machine.
#[verifier::external_body]
fn hash_usize(hasher: &mut DefaultHasher, n: usize)
    ensures
        final(hasher)@.len() == old(hasher)@.len() + 1,
        final(hasher)@.drop_last() == old(hasher)@,
        final(hasher)@.last() == usize_le_bytes(n) || final(hasher)@.last() == usize_be_bytes(n),
{
    hasher.write_usize(n);
}

/// What the seed of a token hashes: the request id's bytes, the string
/// terminator `0xff`, and the token index's bytes.
pub open spec fn seed_input(id: Seq<u8>, index_bytes: Seq<u8>) -> Seq<Seq<u8>> {
    seq![id, seq![0xffu8], index_bytes]
}

/// The seed of token `i` of request bytes `id` on a little-endian machine.
pub open spec fn seed_le(id: Seq<u8>, i: usize) -> u64 {
    DefaultHasher::spec_finish(seed_input(id, usize_le_bytes(i)))
}

/// The seed of token `i` of request bytes `id` on a big-endian machine.
pub open spec fn seed_be(id: Seq<u8>, i: usize) -> u64 {
    DefaultHasher::spec_finish(seed_input(id, usize_be_bytes(i)))
}

/// The sampling seed of token `token_index` of request `request_id`: the
/// default hasher over the request id (its bytes, then the `0xff`
/// terminator that string hashing appends) and the index.
pub fn seed_for(request_id: &str, token_index: usize) -> (r: u64)
    ensures
        r == seed_le(request_id.spec_bytes(), token_index) || r == seed_be(
            request_id.spec_bytes(),
            token_index,
        ),
{
    let mut hasher = DefaultHasher::new();
    hasher.write(request_id.as_bytes());
    let terminator: [u8; 1] = [0xff];
    hasher.write(&terminator);
    let ghost before = hasher@;
    hash_usize(&mut hasher, token_index);
    let r = hasher.finish();
    proof {
        let b = hasher@.last();
        assert(hasher@ =~= before.push(b));
        assert(terminator@ =~= seq![0xffu8]);
        assert(hasher@ =~= seed_input(request_id.spec_bytes(), b));
    }
    r
}


// ---------------------------------------------------------------------------
// Admitting a prompt and advancing a request
// ---------------------------------------------------------------------------

/// A prompt that leaves no room in the session it would get.
#[derive(Clone, Copy, Debug, PartialEq, Eq, Structural)]
pub struct PromptTooLong {
    pub prompt: usize,
    pub max_seq_len: usize,
}

impl PromptTooLong {
    /// The message the decode loop reports.
    pub fn to_string(&self) -> (r: String)
        ensures
            r@ == "prompt of "@ + decimal_spec(self.prompt as nat) + " tokens does not fit in a context of "@
                + decimal_spec(self.max_seq_len as nat),
    {
        let mut s = String::from_str("prompt of ");
        s.append(decimal(self.prompt).as_str());
        s.append(" tokens does not fit in a context of ");
        s.append(decimal(self.max_seq_len).as_str());
        s
    }
}

/// How a prompt is admitted: the generation budget, whether it was cut to
/// fit, and the capacity of the session to allocate.
#[derive(Clone, Copy, Debug, PartialEq, Eq, Structural)]
pub struct PromptAdmission {
    pub budget: usize,
    pub truncated: bool,
    pub max_seq_len: usize,
}

/// The session capacity a prompt gets: prompt, budget and one more (counted
/// with saturation), but no more than the context.
pub open spec fn max_seq_len_spec(prompt: usize, budget: usize, context: usize) -> usize {
    let want = sat_add(sat_add(prompt as int, budget as int), 1);
    if want <= context {
        want as usize
    } else {
        context
    }
}

/// Admit a prompt of `prompt` tokens that asked for `requested` new ones in a
/// context of `context` tokens: the budget is cut to fit, the session gets
/// room for prompt, budget and one more up to the context, and a prompt that
/// fills that room is refused.
pub fn admit_prompt(prompt: usize, requested: usize, context: usize) -> (r: Result<
    PromptAdmission,
    PromptTooLong,
>)
    ensures
        ({
            let (b, cut) = budget_spec(prompt, requested, context);
            let m = max_seq_len_spec(prompt, b, context);
            if prompt >= m {
                r == Err::<PromptAdmission, PromptTooLong>(PromptTooLong { prompt, max_seq_len: m })
            } else {
                r == Ok::<PromptAdmission, PromptTooLong>(
                    PromptAdmission { budget: b, truncated: cut, max_seq_len: m },
                )
            }
        }),
{
    let (budget, truncated) = effective_generation_budget(prompt, requested, context);
    let want = prompt.saturating_add(budget).saturating_add(1);
    let max_seq_len = if want <= context {
        want
    } else {
        context
    };
    if prompt >= max_seq_len {
        return Err(PromptTooLong { prompt, max_seq_len });
    }
    Ok(PromptAdmission { budget, truncated, max_seq_len })
}

/// The counters of one request as the decode loop advances it.
pub struct RequestCounters {
    /// Cache position: tokens the session's cache holds
    pub position: usize,
    /// Tokens generated so far
    pub tokens_generated: usize,
    /// The request's generation budget
    pub max_new_tokens: usize,
    /// The generated tokens, in order
    pub generated: Vec<u32>,
    /// The request is done
    pub completed: bool,
    /// It finished on an end-of-sequence token
    pub stopped_on_eos: bool,
}

/// Record token `tok` after the cache advanced by `advance` positions (the
/// whole prompt after prefill, one after a decode step): one more token
/// generated, and the request completes on an end-of-sequence token or when
/// the budget is spent.
fn record_generated(c: &mut RequestCounters, advance: usize, tok: u32, eos: bool)
    requires
        old(c).position + advance <= usize::MAX,
        old(c).tokens_generated < usize::MAX,
    ensures
        final(c).position == old(c).position + advance,
        final(c).tokens_generated == old(c).tokens_generated + 1,
        final(c).max_new_tokens == old(c).max_new_tokens,
        final(c).generated@ == old(c).generated@.push(tok),
        final(c).completed == (old(c).completed || eos || old(c).tokens_generated + 1
            >= old(c).max_new_tokens),
        final(c).stopped_on_eos == (if eos || old(c).tokens_generated + 1 >= old(c).max_new_tokens {
            eos
        } else {
            old(c).stopped_on_eos
        }),
{
    c.generated.push(tok);
    c.position = c.position + advance;
    c.tokens_generated = c.tokens_generated + 1;
    if eos || c.tokens_generated >= c.max_new_tokens {
        c.stopped_on_eos = eos;
        c.completed = true;
    }
}

/// After prefill of a `prompt`-token prompt picked `tok`.
pub fn after_prefill(c: &mut RequestCounters, prompt: usize, tok: u32, eos: bool)
    requires
        old(c).position + prompt <= usize::MAX,
        old(c).tokens_generated < usize::MAX,
    ensures
        final(c).position == old(c).position + prompt,
        final(c).tokens_generated == old(c).tokens_generated + 1,
        final(c).max_new_tokens == old(c).max_new_tokens,
        final(c).generated@ == old(c).generated@.push(tok),
        final(c).completed == (old(c).completed || eos || old(c).tokens_generated + 1
            >= old(c).max_new_tokens),
        eos || old(c).tokens_generated + 1 >= old(c).max_new_tokens ==> final(c).stopped_on_eos == eos,
        !(eos || old(c).tokens_generated + 1 >= old(c).max_new_tokens) ==> final(c).stopped_on_eos
            == old(c).stopped_on_eos,
{
    record_generated(c, prompt, tok, eos);
}

/// After a decode step picked `tok`.
pub fn after_decode(c: &mut RequestCounters, tok: u32, eos: bool)
    requires
        old(c).position < usize::MAX,
        old(c).tokens_generated < usize::MAX,
    ensures
        final(c).position == old(c).position + 1,
        final(c).tokens_generated == old(c).tokens_generated + 1,
        final(c).max_new_tokens == old(c).max_new_tokens,
        final(c).generated@ == old(c).generated@.push(tok),
        final(c).completed == (old(c).completed || eos || old(c).tokens_generated + 1
            >= old(c).max_new_tokens),
        eos || old(c).tokens_generated + 1 >= old(c).max_new_tokens ==> final(c).stopped_on_eos == eos,
        !(eos || old(c).tokens_generated + 1 >= old(c).max_new_tokens) ==> final(c).stopped_on_eos
            == old(c).stopped_on_eos,
{
    record_generated(c, 1, tok, eos);
}

} // verus!
