//! Token/block coordinate arithmetic for a paged KV pool and the admission
//! verdict that sits on top of the pool's reported capacity.
//!
//! The pool itself (block identity, refcounts, the free list) belongs to the
//! allocator; everything here only decides.

use vstd::prelude::*;
use vstd::string::*;
use std::collections::HashMap;
use crate::text::{decimal, decimal_spec};

verus! {

/// `ceil(a / b)` over the integers, for `b > 0`.
pub open spec fn ceil_div(a: int, b: int) -> int
    recommends
        b > 0,
{
    (a + b - 1) / b
}

/// The logical blocks lying entirely inside `[start, end)` for blocks of `bs`
/// tokens; every empty answer is the canonical `(0, 0)`.
pub open spec fn fully_covered_spec(start: int, end: int, bs: int) -> (int, int) {
    if bs <= 0 || start >= end {
        (0, 0)
    } else {
        let first = ceil_div(start, bs);
        let last = end / bs;
        if first >= last {
            (0, 0)
        } else {
            (first, last)
        }
    }
}

/// The logical blocks holding at least one token of `[start, end)`.
pub open spec fn touched_spec(start: int, end: int, bs: int) -> (int, int) {
    if bs <= 0 || start >= end {
        (0, 0)
    } else {
        (start / bs, ceil_div(end, bs))
    }
}

proof fn lemma_ceil_div_exec(n: usize, bs: usize)
    requires
        bs > 0,
    ensures
        (n / bs + if n % bs == 0 { 0int } else { 1int }) == ceil_div(n as int, bs as int),
        n / bs + if n % bs == 0 { 0int } else { 1int } <= n,
{
    assert((n / bs + if n % bs == 0 { 0int } else { 1int }) == ceil_div(n as int, bs as int))
        by (nonlinear_arith)
        requires
            bs > 0,
    {}
    assert(n / bs + if n % bs == 0 { 0int } else { 1int } <= n) by (nonlinear_arith)
        requires
            bs > 0,
    {}
}

/// `ceil(n / bs)` without overflow.
fn div_ceil_usize(n: usize, bs: usize) -> (r: usize)
    requires
        bs > 0,
    ensures
        r == ceil_div(n as int, bs as int),
        r <= n,
{
    proof {
        lemma_ceil_div_exec(n, bs);
    }
    n / bs + if n % bs == 0 {
        0
    } else {
        1
    }
}

/// Blocks entirely inside `range`: the conservative mapping, the only one
/// safe to hand to an eviction. A block straddling either end also holds a
/// neighbour's tokens and is excluded.
pub fn blocks_fully_covered(range: &std::ops::Range<usize>, block_size: usize) -> (r:
    std::ops::Range<usize>)
    ensures
        (r.start as int, r.end as int) == fully_covered_spec(
            range.start as int,
            range.end as int,
            block_size as int,
        ),
{
    if block_size == 0 || range.start >= range.end {
        return 0..0;
    }
    let first = div_ceil_usize(range.start, block_size);
    let last = range.end / block_size;
    if first >= last {
        0..0
    } else {
        first..last
    }
}

/// Blocks overlapping `range`: the liberal mapping, used only for what a
/// surviving span protects.
pub fn blocks_touched(range: &std::ops::Range<usize>, block_size: usize) -> (r:
    std::ops::Range<usize>)
    ensures
        (r.start as int, r.end as int) == touched_spec(
            range.start as int,
            range.end as int,
            block_size as int,
        ),
{
    if block_size == 0 || range.start >= range.end {
        return 0..0;
    }
    (range.start / block_size)..div_ceil_usize(range.end, block_size)
}

/// Floor-align a token-granular prefix match down to whole blocks:
/// `(blocks, remainder_tokens)`. With `block_size == 0` nothing is shareable.
pub fn floor_align_prefix(match_len: usize, block_size: usize) -> (r: (usize, usize))
    ensures
        block_size == 0 ==> r == (0usize, match_len),
        block_size > 0 ==> r.0 == match_len / block_size && r.1 == match_len % block_size,
        block_size > 0 ==> r.0 * block_size + r.1 == match_len && r.1 < block_size,
{
    if block_size == 0 {
        return (0, match_len);
    }
    let r = (match_len / block_size, match_len % block_size);
    proof {
        assert(r.0 * block_size + r.1 == match_len) by (nonlinear_arith)
            requires
                block_size > 0,
                r.0 == match_len / block_size,
                r.1 == match_len % block_size,
        {}
    }
    r
}

/// The geometry of a paged KV pool. `elem_size` is the bytes per element.
#[derive(Clone, Copy, Debug, PartialEq, Eq)]
pub struct KvGeometry {
    pub n_layers: usize,
    pub num_blocks: usize,
    pub block_size: usize,
    pub n_kv_heads: usize,
    pub head_dim: usize,
    pub elem_size: usize,
}

/// The KV pool geometry the policies are computed against: the one place
/// `block_size` lives and token/block arithmetic is done.
#[derive(Clone, Copy, Debug, PartialEq, Eq)]
pub struct PagedGeometry {
    kv: KvGeometry,
}

impl PagedGeometry {
    pub closed spec fn spec_kv(&self) -> KvGeometry {
        self.kv
    }

    /// A geometry for a model with the given layer / head layout and the two
    /// pool-level choices; elements are always 4-byte f32.
    pub fn for_llama(
        n_layers: usize,
        n_kv_heads: usize,
        head_dim: usize,
        block_size: usize,
        num_blocks: usize,
    ) -> (g: Self)
        ensures
            g.spec_kv() == (KvGeometry {
                n_layers,
                num_blocks,
                block_size,
                n_kv_heads,
                head_dim,
                elem_size: 4,
            }),
    {
        PagedGeometry {
            kv: KvGeometry { n_layers, num_blocks, block_size, n_kv_heads, head_dim, elem_size: 4 },
        }
    }

    /// Wrap a geometry built elsewhere.
    pub fn from_kv(kv: KvGeometry) -> (g: Self)
        ensures
            g.spec_kv() == kv,
    {
        PagedGeometry { kv }
    }

    pub fn kv(&self) -> (r: KvGeometry)
        ensures
            r == self.spec_kv(),
    {
        self.kv
    }

    pub fn block_size(&self) -> (r: usize)
        ensures
            r == self.spec_kv().block_size,
    {
        self.kv.block_size
    }

    pub fn n_layers(&self) -> (r: usize)
        ensures
            r == self.spec_kv().n_layers,
    {
        self.kv.n_layers
    }

    /// Elements in one physical block for one layer and one of {K, V}.
    pub fn block_elems(&self) -> (r: usize)
        requires
            self.spec_kv().block_size * self.spec_kv().n_kv_heads * self.spec_kv().head_dim
                <= usize::MAX,
        ensures
            r == self.spec_kv().block_size * self.spec_kv().n_kv_heads * self.spec_kv().head_dim,
    {
        let a = self.kv.block_size;
        let b = self.kv.n_kv_heads;
        let c = self.kv.head_dim;
        proof {
            assert(a * b <= a * b * c || c == 0) by (nonlinear_arith);
            if c == 0 {
                assert(a * b * c == 0) by (nonlinear_arith)
                    requires
                        c == 0,
                {}
            }
        }
        if c == 0 {
            return 0;
        }
        a * b * c
    }

    /// Token positions held by logical block `b`.
    pub fn token_range_of_block(&self, b: usize) -> (r: std::ops::Range<usize>)
        requires
            b < usize::MAX,
            (b + 1) * self.spec_kv().block_size <= usize::MAX,
        ensures
            r.start == b * self.spec_kv().block_size,
            r.end == (b + 1) * self.spec_kv().block_size,
    {
        let bs = self.kv.block_size;
        proof {
            assert(b * bs <= (b + 1) * bs) by (nonlinear_arith);
        }
        (b * bs)..((b + 1) * bs)
    }

    /// The block holding the newest token, which is also the next write
    /// target when the last block is partial; `None` for an empty session.
    pub fn protected_tail_block(&self, filled_tokens: usize) -> (r: Option<usize>)
        requires
            filled_tokens > 0 ==> self.spec_kv().block_size > 0,
        ensures
            r == tail_block_spec(filled_tokens as int, self.spec_kv().block_size as int),
    {
        if filled_tokens == 0 {
            None
        } else {
            Some((filled_tokens - 1) / self.kv.block_size)
        }
    }
}

/// The protected tail block for `filled` tokens in blocks of `bs`.
pub open spec fn tail_block_spec(filled: int, bs: int) -> Option<usize> {
    if filled == 0 {
        None
    } else {
        Some(((filled - 1) / bs) as usize)
    }
}

/// Whether a request may take blocks: `Admit` with the blocks it takes, or
/// `Reject` with the blocks it would take and those available beside the
/// reserve.
#[derive(Clone, Copy, Debug, PartialEq, Eq)]
pub enum AdmissionDecision {
    Admit { blocks_needed: usize },
    Reject { blocks_needed: usize, blocks_available: usize },
}

impl AdmissionDecision {
    pub fn is_admit(&self) -> (r: bool)
        ensures
            r == (*self is Admit),
    {
        match self {
            AdmissionDecision::Admit { .. } => true,
            AdmissionDecision::Reject { .. } => false,
        }
    }
}

/// Blocks available to new work once `reserve` is held back from `free`.
pub open spec fn available_spec(free: int, reserve: int) -> int {
    if free >= reserve {
        free - reserve
    } else {
        0
    }
}

/// The verdict for `need` blocks against `free` free blocks and a reserve.
pub open spec fn verdict_spec(need: usize, free: usize, reserve: usize) -> AdmissionDecision {
    let available = available_spec(free as int, reserve as int) as usize;
    if need <= available {
        AdmissionDecision::Admit { blocks_needed: need }
    } else {
        AdmissionDecision::Reject { blocks_needed: need, blocks_available: available }
    }
}

/// Admission over a pool's advertised free blocks, holding back
/// `reserve_blocks` so a live session can always take its next block.
#[derive(Clone, Copy, Debug)]
pub struct PagedAdmission {
    reserve_blocks: usize,
}

impl PagedAdmission {
    pub closed spec fn spec_reserve(&self) -> usize {
        self.reserve_blocks
    }

    pub fn new(reserve_blocks: usize) -> (r: Self)
        ensures
            r.spec_reserve() == reserve_blocks,
    {
        PagedAdmission { reserve_blocks }
    }

    pub fn reserve_blocks(&self) -> (r: usize)
        ensures
            r == self.spec_reserve(),
    {
        self.reserve_blocks
    }

    /// The verdict for a request needing `need` blocks when the pool reports
    /// `free_blocks` free; the block count itself is the allocator's answer.
    pub fn verdict(&self, need: usize, free_blocks: usize) -> (r: AdmissionDecision)
        ensures
            r == verdict_spec(need, free_blocks, self.spec_reserve()),
    {
        let available = free_blocks.saturating_sub(self.reserve_blocks);
        if need <= available {
            AdmissionDecision::Admit { blocks_needed: need }
        } else {
            AdmissionDecision::Reject { blocks_needed: need, blocks_available: available }
        }
    }
}

/// A larger reserve never turns a rejection into an admission: admission is
/// monotone in the reserve held back.
pub proof fn lemma_reserve_is_monotone(need: usize, free: usize, r1: usize, r2: usize)
    requires
        r1 <= r2,
    ensures
        verdict_spec(need, free, r2) is Admit ==> verdict_spec(need, free, r1) is Admit,
{
}

/// Whether the pool can seat a batch whose allocator-computed requirement is
/// `required` blocks when `free` blocks are free.
pub fn can_admit(required: usize, free: usize) -> (r: bool)
    ensures
        r == (required <= free),
{
    required <= free
}

/// The identity map over token positions `0 .. n_tokens`: single-sequence
/// paged decode has one coordinate system, so attention position and token
/// position agree.
pub fn identity_positions(n_tokens: usize) -> (r: HashMap<usize, usize>)
    ensures
        r@ == Map::new(|p: usize| p < n_tokens, |p: usize| p),
{
    broadcast use vstd::std_specs::hash::group_hash_axioms;

    let mut m: HashMap<usize, usize> = HashMap::new();
    let mut p: usize = 0;
    while p < n_tokens
        invariant
            p <= n_tokens,
            m@ == Map::new(|q: usize| q < p, |q: usize| q),
        decreases n_tokens - p,
    {
        m.insert(p, p);
        assert(m@ =~= Map::new(|q: usize| q < p + 1, |q: usize| q));
        p = p + 1;
    }
    m
}

// ---------------------------------------------------------------------------
// Splicing a matched prefix into an empty session
// ---------------------------------------------------------------------------

/// The allocator's refusals that the splice decision produces or passes on.
pub enum AllocError {
    /// The session is not known to the pool.
    UnknownSession,
    /// Some other refusal, described.
    Rejected(String),
}

/// Failures at the policy/allocator boundary.
pub enum PolicyError {
    /// The allocator rejected the call.
    Alloc(AllocError),
    /// The device layer failed.
    Device(String),
    /// The backing store failed.
    Store(String),
    /// An invariant this adapter guards was violated.
    Invariant(String),
}

/// The message of an allocator refusal.
pub open spec fn alloc_error_text(e: AllocError) -> Seq<char> {
    match e {
        AllocError::UnknownSession => "UnknownSession"@,
        AllocError::Rejected(s) => s@,
    }
}

/// The message of a policy error.
pub open spec fn policy_error_message(e: PolicyError) -> Seq<char> {
    match e {
        PolicyError::Alloc(a) => "KV allocator rejected the call: "@ + alloc_error_text(a),
        PolicyError::Device(s) => "KV device layer: "@ + s@,
        PolicyError::Store(s) => "tier store: "@ + s@,
        PolicyError::Invariant(s) => "adapter invariant violated: "@ + s@,
    }
}

impl PolicyError {
    /// The error's message.
    pub fn to_string(&self) -> (r: String)
        ensures
            r@ == policy_error_message(*self),
    {
        match self {
            PolicyError::Alloc(a) => {
                let mut s = String::from_str("KV allocator rejected the call: ");
                match a {
                    AllocError::UnknownSession => s.append("UnknownSession"),
                    AllocError::Rejected(t) => s.append(t.as_str()),
                }
                s
            },
            PolicyError::Device(t) => String::from_str("KV device layer: ").concat(t.as_str()),
            PolicyError::Store(t) => String::from_str("tier store: ").concat(t.as_str()),
            PolicyError::Invariant(t) => String::from_str("adapter invariant violated: ").concat(
                t.as_str(),
            ),
        }
    }
}

pub open spec fn zero_block_text() -> Seq<char> {
    "PrefixMatch with 0 blocks carries no KV; refusing to skip prefill"@
}

pub open spec fn non_empty_dst_text(n: usize) -> Seq<char> {
    "splice_prefix requires an empty destination; dst holds "@ + decimal_spec(n as nat) + " tokens"@
}

pub open spec fn donor_shrank_text(donor_blocks: usize, blocks: usize) -> Seq<char> {
    "donor holds "@ + decimal_spec(donor_blocks as nat) + " blocks but the match claims "@
        + decimal_spec(blocks as nat) + "; the donor was discarded or shrank while indexed"@
}

pub open spec fn unaligned_projection_text(projected: usize, bs: usize) -> Seq<char> {
    "post-splice fill would be "@ + decimal_spec(projected as nat)
        + ", not block-aligned (block_size="@ + decimal_spec(bs as nat)
        + "); the next decode step would write into the donor's shared block. Refused before splicing \u{2014} dst is untouched and the donor's refcounts are unchanged"@
}

pub open spec fn unaligned_fill_text(filled: usize, bs: usize, projected: usize) -> Seq<char> {
    "post-splice fill "@ + decimal_spec(filled as nat) + " is not block-aligned (block_size="@
        + decimal_spec(bs as nat) + ") but the pre-check projected "@ + decimal_spec(
        projected as nat,
    )
        + ": Fuel's splice fill semantics have changed, and dst is now in the state this guard exists to prevent. Re-derive the projection in splice_prefix against kv_block_pool.rs"@
}

/// `r` is an `Invariant` error with message `msg`.
pub open spec fn is_invariant(r: Result<usize, PolicyError>, msg: Seq<char>) -> bool {
    r matches Err(PolicyError::Invariant(s)) && s@ == msg
}

/// `r` is the unknown-session refusal.
pub open spec fn is_unknown_session(r: Result<usize, PolicyError>) -> bool {
    r matches Err(PolicyError::Alloc(AllocError::UnknownSession))
}

/// The fill a splice of `blocks` blocks leaves: `min(blocks * block_size,
/// donor_filled)`.
pub open spec fn projected_fill(blocks: usize, block_size: usize, donor_filled: usize) -> usize {
    if blocks * block_size <= donor_filled {
        (blocks * block_size) as usize
    } else {
        donor_filled
    }
}

/// The splice decision: the fill it admits, or why not (`None`: a session
/// unknown to the pool; `Some`: the message of a violated invariant).
pub open spec fn precheck_spec(
    blocks: usize,
    block_size: usize,
    dst_filled: Option<usize>,
    donor_blocks: Option<usize>,
    donor_filled: Option<usize>,
) -> Result<usize, Option<Seq<char>>> {
    if blocks == 0 {
        Err(Some(zero_block_text()))
    } else {
        match dst_filled {
            None => Err(None),
            Some(n) => if n > 0 {
                Err(Some(non_empty_dst_text(n)))
            } else {
                match donor_blocks {
                    None => Err(None),
                    Some(d) => if blocks > d {
                        Err(Some(donor_shrank_text(d, blocks)))
                    } else {
                        match donor_filled {
                            None => Err(None),
                            Some(f) => {
                                let p = projected_fill(blocks, block_size, f);
                                if p % block_size != 0 {
                                    Err(Some(unaligned_projection_text(p, block_size)))
                                } else {
                                    Ok(p)
                                }
                            },
                        }
                    },
                }
            },
        }
    }
}

/// Decide, before anything is mutated, whether a prefix of `blocks` blocks
/// of a donor may be spliced into the destination, and the fill it would
/// leave there.  The pool's answers are passed in: the destination's fill,
/// the donor's blocks and the donor's fill (`None`: the pool does not know
/// the session).  A fill that would not be block-aligned is refused, since the
/// next decode step would write into the donor's shared block.
pub fn splice_precheck(
    blocks: usize,
    block_size: usize,
    dst_filled: Option<usize>,
    donor_blocks: Option<usize>,
    donor_filled: Option<usize>,
) -> (r: Result<usize, PolicyError>)
    requires
        block_size > 0,
        blocks * block_size <= usize::MAX,
    ensures
        match precheck_spec(blocks, block_size, dst_filled, donor_blocks, donor_filled) {
            Ok(p) => r == Ok::<usize, PolicyError>(p),
            Err(None) => is_unknown_session(r),
            Err(Some(msg)) => is_invariant(r, msg),
        },
        r matches Ok(p) ==> p % block_size == 0,
{
    if blocks == 0 {
        return Err(
            PolicyError::Invariant(
                String::from_str("PrefixMatch with 0 blocks carries no KV; refusing to skip prefill"),
            ),
        );
    }
    match dst_filled {
        None => {
            return Err(PolicyError::Alloc(AllocError::UnknownSession));
        },
        Some(n) => {
            if n > 0 {
                let mut s = String::from_str(
                    "splice_prefix requires an empty destination; dst holds ",
                );
                s.append(decimal(n).as_str());
                s.append(" tokens");
                return Err(PolicyError::Invariant(s));
            }
        },
    }
    let donor_blocks = match donor_blocks {
        Some(d) => d,
        None => {
            return Err(PolicyError::Alloc(AllocError::UnknownSession));
        },
    };
    if blocks > donor_blocks {
        let mut s = String::from_str("donor holds ");
        s.append(decimal(donor_blocks).as_str());
        s.append(" blocks but the match claims ");
        s.append(decimal(blocks).as_str());
        s.append("; the donor was discarded or shrank while indexed");
        return Err(PolicyError::Invariant(s));
    }
    let donor_filled = match donor_filled {
        Some(f) => f,
        None => {
            return Err(PolicyError::Alloc(AllocError::UnknownSession));
        },
    };
    let full = blocks * block_size;
    let projected = if full <= donor_filled {
        full
    } else {
        donor_filled
    };
    if projected % block_size != 0 {
        let mut s = String::from_str("post-splice fill would be ");
        s.append(decimal(projected).as_str());
        s.append(", not block-aligned (block_size=");
        s.append(decimal(block_size).as_str());
        s.append(
            "); the next decode step would write into the donor's shared block. Refused before splicing \u{2014} dst is untouched and the donor's refcounts are unchanged",
        );
        return Err(PolicyError::Invariant(s));
    }
    Ok(projected)
}

/// After the splice: the destination's fill (`None` read as 0) must be
/// block-aligned, as the pre-check projected.
pub fn splice_postcheck(filled: Option<usize>, projected: usize, block_size: usize) -> (r: Result<
    usize,
    PolicyError,
>)
    requires
        block_size > 0,
    ensures
        ({
            let f = match filled {
                Some(n) => n,
                None => 0,
            };
            &&& f % block_size != 0 ==> is_invariant(r, unaligned_fill_text(f, block_size, projected))
            &&& f % block_size == 0 ==> r == Ok::<usize, PolicyError>(f)
        }),
{
    let filled = match filled {
        Some(n) => n,
        None => 0,
    };
    if filled % block_size != 0 {
        let mut s = String::from_str("post-splice fill ");
        s.append(decimal(filled).as_str());
        s.append(" is not block-aligned (block_size=");
        s.append(decimal(block_size).as_str());
        s.append(") but the pre-check projected ");
        s.append(decimal(projected).as_str());
        s.append(
            ": Fuel's splice fill semantics have changed, and dst is now in the state this guard exists to prevent. Re-derive the projection in splice_prefix against kv_block_pool.rs",
        );
        return Err(PolicyError::Invariant(s));
    }
    Ok(filled)
}

// ---------------------------------------------------------------------------
// Moving whole blocks between the pool and a store
// ---------------------------------------------------------------------------

/// `n` in decimal, zero-padded on the left to six digits.
pub open spec fn padded6(n: nat) -> Seq<char> {
    let d = decimal_spec(n);
    if d.len() < 6 {
        Seq::new((6 - d.len()) as nat, |i: int| '0') + d
    } else {
        d
    }
}

/// The first freed block at or after `from` whose payload was not captured.
pub open spec fn first_uncaptured(freed: Seq<usize>, captured: Seq<usize>, from: int) -> Option<int>
    decreases freed.len() - from,
{
    if from < 0 || from >= freed.len() {
        None
    } else if !captured.contains(freed[from]) {
        Some(from)
    } else {
        first_uncaptured(freed, captured, from + 1)
    }
}

/// Moves whole blocks between the pool and a store; store keys are
/// `"{key_prefix}.b{logical:06}"`, so the prefix must be unique per session.
pub struct BlockTierMover {
    geom: PagedGeometry,
    key_prefix: String,
}

impl BlockTierMover {
    pub closed spec fn spec_prefix(&self) -> Seq<char> {
        self.key_prefix@
    }

    pub closed spec fn spec_geom(&self) -> PagedGeometry {
        self.geom
    }

    pub fn new(geom: PagedGeometry, key_prefix: String) -> (r: Self)
        ensures
            r.spec_geom() == geom,
            r.spec_prefix() == key_prefix@,
    {
        BlockTierMover { geom, key_prefix }
    }

    /// The store key of logical block `logical`.
    pub fn key_for(&self, logical: usize) -> (r: String)
        ensures
            r@ == self.spec_prefix() + ".b"@ + padded6(logical as nat),
    {
        let d = decimal(logical);
        let mut s = self.key_prefix.clone();
        s.append(".b");
        let ghost before = s@;
        let n = d.as_str().unicode_len();
        let mut pad: usize = n;
        let ghost zeros: Seq<char> = Seq::empty();
        while pad < 6
            invariant
                n == decimal_spec(logical as nat).len(),
                n <= pad <= 6 || (n > 6 && pad == n),
                s@ == before + Seq::new((pad - n) as nat, |i: int| '0'),
            decreases 6 - pad,
        {
            s.append("0");
            proof {
                reveal_strlit("0");
                assert(s@ =~= before + Seq::new((pad + 1 - n) as nat, |i: int| '0'));
            }
            pad = pad + 1;
        }
        s.append(d.as_str());
        proof {
            if n < 6 {
                assert(s@ =~= self.key_prefix@ + ".b"@ + padded6(logical as nat));
            } else {
                assert(Seq::new((pad - n) as nat, |i: int| '0') =~= Seq::<char>::empty());
                assert(s@ =~= self.key_prefix@ + ".b"@ + padded6(logical as nat));
            }
        }
        s
    }

    /// The store keys of the freed blocks, in order: one per freed block.
    /// Blocks still shared get none, since their bytes stay live in the pool.
    pub fn keys_for(&self, freed: &[usize]) -> (r: Vec<(usize, String)>)
        ensures
            r@.len() == freed@.len(),
            forall|i: int|
                0 <= i < freed@.len() ==> (#[trigger] r@[i]).0 == freed@[i] && r@[i].1@
                    == self.spec_prefix() + ".b"@ + padded6(freed@[i] as nat),
    {
        let mut out: Vec<(usize, String)> = Vec::new();
        let mut i: usize = 0;
        while i < freed.len()
            invariant
                i <= freed@.len(),
                out@.len() == i,
                forall|j: int|
                    0 <= j < i ==> (#[trigger] out@[j]).0 == freed@[j] && out@[j].1@
                        == self.spec_prefix() + ".b"@ + padded6(freed@[j] as nat),
            decreases freed@.len() - i,
        {
            let k = self.key_for(freed[i]);
            out.push((freed[i], k));
            i = i + 1;
        }
        out
    }

    /// The store keys of a demotion's freed blocks, when a payload was
    /// captured before the detach for every one of them (`captured` lists the
    /// blocks whose bytes were read); else the invariant breach naming the
    /// first freed block without a payload, which the caller answers by
    /// rolling the demotion back.  Blocks reported still shared get no key.
    pub fn demote_keys(&self, freed: &[usize], captured: &[usize]) -> (r: Result<
        Vec<(usize, String)>,
        PolicyError,
    >)
        ensures
            match first_uncaptured(freed@, captured@, 0) {
                Some(j) => r matches Err(PolicyError::Invariant(m)) && m@ == "Fuel freed block "@
                    + decimal_spec(freed@[j] as nat) + " but no payload was captured for it"@,
                None => r matches Ok(v) && v@.len() == freed@.len() && forall|i: int|
                    0 <= i < freed@.len() ==> (#[trigger] v@[i]).0 == freed@[i] && v@[i].1@
                        == self.spec_prefix() + ".b"@ + padded6(freed@[i] as nat),
            },
    {
        let mut i: usize = 0;
        while i < freed.len()
            invariant
                i <= freed@.len(),
                first_uncaptured(freed@, captured@, 0) == first_uncaptured(freed@, captured@, i as int),
            decreases freed@.len() - i,
        {
            let mut found = false;
            let mut k: usize = 0;
            while k < captured.len()
                invariant
                    k <= captured@.len(),
                    i < freed@.len(),
                    found == captured@.take(k as int).contains(freed@[i as int]),
                decreases captured@.len() - k,
            {
                let ghost pre = captured@.take(k as int);
                proof {
                    assert(captured@.take(k + 1) =~= pre.push(captured@[k as int]));
                }
                if captured[k] == freed[i] {
                    found = true;
                    assert(captured@.take(k + 1)[k as int] == freed@[i as int]);
                } else {
                    let ghost t = captured@.take(k + 1);
                    assert forall|x: usize| t.contains(x) implies pre.contains(x) || x
                        == captured@[k as int] by {
                        let j = choose|j: int| 0 <= j < t.len() && #[trigger] t[j] == x;
                        if j < k {
                            assert(pre[j] == x);
                        }
                    }
                    assert forall|x: usize| pre.contains(x) implies t.contains(x) by {
                        let j = choose|j: int| 0 <= j < pre.len() && #[trigger] pre[j] == x;
                        assert(t[j] == x);
                    }
                }
                k = k + 1;
            }
            assert(captured@.take(captured@.len() as int) =~= captured@);
            if !found {
                let mut m = String::from_str("Fuel freed block ");
                m.append(decimal(freed[i]).as_str());
                m.append(" but no payload was captured for it");
                return Err(PolicyError::Invariant(m));
            }
            i = i + 1;
        }
        Ok(self.keys_for(freed))
    }

    /// Floats in one block's payload: K then V for every layer.
    pub fn payload_len(&self) -> (r: usize)
        requires
            self.spec_geom().spec_kv().block_size * self.spec_geom().spec_kv().n_kv_heads
                * self.spec_geom().spec_kv().head_dim * 2 * self.spec_geom().spec_kv().n_layers
                <= usize::MAX,
        ensures
            r == self.spec_geom().spec_kv().n_layers * 2 * (self.spec_geom().spec_kv().block_size
                * self.spec_geom().spec_kv().n_kv_heads * self.spec_geom().spec_kv().head_dim),
    {
        let ghost kv = self.geom.spec_kv();
        let ghost e = kv.block_size * kv.n_kv_heads * kv.head_dim;
        if self.geom.n_layers() == 0 {
            assert(kv.n_layers * 2 * e == 0) by (nonlinear_arith)
                requires
                    kv.n_layers == 0,
            {}
            return 0;
        }
        proof {
            lemma_payload_bounds(e, kv.n_layers as int, 0);
        }
        let be = self.geom.block_elems();
        self.geom.n_layers() * (2 * be)
    }

    /// Where layer `layer`'s K and V slices start in a payload.
    pub fn kv_offsets(&self, layer: usize) -> (r: (usize, usize))
        requires
            layer < self.spec_geom().spec_kv().n_layers,
            self.spec_geom().spec_kv().block_size * self.spec_geom().spec_kv().n_kv_heads
                * self.spec_geom().spec_kv().head_dim * 2 * self.spec_geom().spec_kv().n_layers
                <= usize::MAX,
        ensures
            ({
                let e = self.spec_geom().spec_kv().block_size * self.spec_geom().spec_kv().n_kv_heads
                    * self.spec_geom().spec_kv().head_dim;
                &&& r.0 == layer * 2 * e
                &&& r.1 == layer * 2 * e + e
                &&& r.1 + e <= self.spec_geom().spec_kv().n_layers * 2 * e
            }),
    {
        let ghost kv = self.geom.spec_kv();
        let ghost e = kv.block_size * kv.n_kv_heads * kv.head_dim;
        proof {
            lemma_payload_bounds(e, kv.n_layers as int, layer as int);
        }
        let be = self.geom.block_elems();
        let k0 = layer * (2 * be);
        let v0 = k0 + be;
        (k0, v0)
    }
}

proof fn lemma_payload_bounds(e: int, l: int, layer: int)
    requires
        e >= 0,
        l >= 1,
        0 <= layer < l,
        e * 2 * l <= usize::MAX,
    ensures
        e <= usize::MAX,
        2 * e <= usize::MAX,
        layer * (2 * e) + 2 * e <= l * (2 * e),
        l * (2 * e) == e * 2 * l,
        l * 2 * e == e * 2 * l,
        layer * (2 * e) == layer * 2 * e,
        l * (2 * e) <= usize::MAX,
{
    assert(2 * e <= e * 2 * l) by (nonlinear_arith)
        requires
            e >= 0,
            l >= 1,
    {}
    assert(layer * (2 * e) + 2 * e == (layer + 1) * (2 * e)) by (nonlinear_arith);
    assert((layer + 1) * (2 * e) <= l * (2 * e)) by (nonlinear_arith)
        requires
            layer + 1 <= l,
            e >= 0,
    {}
    assert(l * (2 * e) == e * 2 * l) by (nonlinear_arith);
    assert(l * 2 * e == e * 2 * l) by (nonlinear_arith);
    assert(layer * (2 * e) == layer * 2 * e) by (nonlinear_arith);
}

} // verus!
