//! A chain-hashed, block-aligned prefix index: `chain_hash(blocks[0..=i])`
//! maps to the donor session whose first `i + 1` logical blocks hold that
//! prefix's KV. Only whole blocks are ever indexed or returned, so a hit can
//! never leave a destination mid-block, and a hit always carries at least
//! one block.

use vstd::prelude::*;
use sha2::Digest;

verus! {

/// A session of the KV pool, by the number the pool gave it.
#[derive(Clone, Copy, Debug, PartialEq, Eq, Hash)]
pub struct SessionHandle {
    pub id: u64,
}

/// Hit/miss accounting, counted in blocks and tokens actually shareable.
#[derive(Clone, Copy, Debug, PartialEq, Eq)]
pub struct BlockPrefixStats {
    pub hits: usize,
    pub misses: usize,
    pub blocks_indexed: usize,
    /// Tokens served from a donor's blocks; always a multiple of the block
    /// size.
    pub tokens_shared: usize,
    /// Matched-or-queried tokens that fell in the sub-block remainder.
    pub tokens_lost_to_alignment: usize,
}

/// A block-aligned prefix hit. `blocks >= 1` for every match `lookup`
/// returns.
#[derive(Clone, Copy, Debug, PartialEq, Eq)]
pub struct PrefixMatch {
    /// Session whose blocks `[0, blocks)` are to be shared.
    pub donor: SessionHandle,
    /// Whole blocks to share.
    pub blocks: usize,
    /// `blocks * block_size`.
    pub shared_tokens: usize,
    /// Query tokens left to prefill normally.
    pub remainder_tokens: usize,
}

#[derive(Clone, Copy, Debug, PartialEq, Eq)]
pub struct PrefixEntry {
    pub donor: SessionHandle,
    pub blocks: usize,
}

/// The SHA-256 digest of `data`.
pub uninterp spec fn sha256_spec(data: Seq<u8>) -> Seq<u8>;

/// Trusted: `sha2::Sha256::digest`, the SHA-256 of the whole input. Claims
/// the 32-byte result is the digest of exactly `data`; what the digest is
/// is left to the name.
#[verifier::external_body]
fn sha256_digest(data: &[u8]) -> (r: Vec<u8>)
    ensures
        r@ == sha256_spec(data@),
        r@.len() == 32,
{
    sha2::Sha256::digest(data).to_vec()
}

/// The domain tag every block hash starts with: the ASCII bytes of
/// `lightbulb.block-prefix.v1`.
pub open spec fn block_tag() -> Seq<u8> {
    seq![
        108u8, 105, 103, 104, 116, 98, 117, 108, 98, 46, 98, 108, 111, 99, 107, 45, 112, 114, 101,
        102, 105, 120, 46, 118, 49,
    ]
}

/// Little-endian bytes of a token id.
pub open spec fn u32_le(t: u32) -> Seq<u8> {
    seq![(t % 256) as u8, ((t / 256) % 256) as u8, ((t / 65536) % 256) as u8, (t / 16777216) as u8]
}

/// Little-endian bytes of each token, concatenated.
pub open spec fn tokens_le(ts: Seq<u32>) -> Seq<u8>
    decreases ts.len(),
{
    if ts.len() == 0 {
        Seq::empty()
    } else {
        tokens_le(ts.drop_last()) + u32_le(ts.last())
    }
}

/// Thirty-two zero bytes: the chain's starting value.
pub open spec fn zero_hash() -> Seq<u8> {
    Seq::new(32, |i: int| 0u8)
}

/// The chain hash of the first `i + 1` whole blocks of `tokens`.
pub open spec fn chain_hash(tokens: Seq<u32>, bs: nat, i: nat) -> Seq<u8>
    decreases i,
{
    let prev = if i == 0 {
        zero_hash()
    } else {
        chain_hash(tokens, bs, (i - 1) as nat)
    };
    sha256_spec(block_tag() + prev + tokens_le(tokens.subrange((i * bs) as int, ((i + 1) * bs) as int)))
}

/// One chain hash per whole block of `tokens`.
pub open spec fn chain_hashes_spec(tokens: Seq<u32>, bs: nat) -> Seq<Seq<u8>>
    recommends
        bs > 0,
{
    Seq::new(tokens.len() / bs, |i: int| chain_hash(tokens, bs, i as nat))
}

/// The entry recorded under key `k`.
pub open spec fn entry_of(es: Seq<(Seq<u8>, PrefixEntry)>, k: Seq<u8>) -> Option<PrefixEntry> {
    if exists|i: int| 0 <= i < es.len() && (#[trigger] es[i]).0 == k {
        Some(es[choose|i: int| 0 <= i < es.len() && (#[trigger] es[i]).0 == k].1)
    } else {
        None
    }
}

/// `es` with `k` set to `e`: in place if present, appended otherwise.
pub open spec fn entries_insert(es: Seq<(Seq<u8>, PrefixEntry)>, k: Seq<u8>, e: PrefixEntry) -> Seq<
    (Seq<u8>, PrefixEntry),
> {
    if exists|i: int| 0 <= i < es.len() && (#[trigger] es[i]).0 == k {
        es.update(choose|i: int| 0 <= i < es.len() && (#[trigger] es[i]).0 == k, (k, e))
    } else {
        es.push((k, e))
    }
}

/// The reference count of donor `d` (zero when absent).
pub open spec fn ref_of(rs: Seq<(SessionHandle, usize)>, d: SessionHandle) -> usize {
    if exists|i: int| 0 <= i < rs.len() && (#[trigger] rs[i]).0 == d {
        rs[choose|i: int| 0 <= i < rs.len() && (#[trigger] rs[i]).0 == d].1
    } else {
        0
    }
}

/// `rs` with the count of `d` set to `n`.
pub open spec fn refs_set(rs: Seq<(SessionHandle, usize)>, d: SessionHandle, n: usize) -> Seq<
    (SessionHandle, usize),
> {
    if exists|i: int| 0 <= i < rs.len() && (#[trigger] rs[i]).0 == d {
        rs.update(choose|i: int| 0 <= i < rs.len() && (#[trigger] rs[i]).0 == d, (d, n))
    } else {
        rs.push((d, n))
    }
}

/// `rs` with one reference of `d` released, saturating; an absent donor is
/// left absent.
pub open spec fn refs_release(rs: Seq<(SessionHandle, usize)>, d: SessionHandle) -> Seq<
    (SessionHandle, usize),
> {
    if exists|i: int| 0 <= i < rs.len() && (#[trigger] rs[i]).0 == d {
        let n = ref_of(rs, d);
        refs_set(rs, d, if n > 0 { (n - 1) as usize } else { 0 })
    } else {
        rs
    }
}

/// The index state after recording hashes `hs` for `donor`: each hash, in
/// order, points at `donor` with its block count; re-pointing an existing
/// hash releases one reference of its old donor; every hash takes one
/// reference of `donor`. The count is how many hashes were new.
pub open spec fn record_fold(
    es: Seq<(Seq<u8>, PrefixEntry)>,
    rs: Seq<(SessionHandle, usize)>,
    hs: Seq<Seq<u8>>,
    donor: SessionHandle,
) -> (Seq<(Seq<u8>, PrefixEntry)>, Seq<(SessionHandle, usize)>, nat)
    decreases hs.len(),
{
    if hs.len() == 0 {
        (es, rs, 0)
    } else {
        let (es1, rs1, added) = record_fold(es, rs, hs.drop_last(), donor);
        let h = hs.last();
        let e = PrefixEntry { donor, blocks: hs.len() as usize };
        let (rs2, added2) = match entry_of(es1, h) {
            Some(prev) => (refs_release(rs1, prev.donor), added),
            None => (rs1, added + 1),
        };
        (entries_insert(es1, h, e), refs_set(rs2, donor, (ref_of(rs2, donor) + 1) as usize), added2)
    }
}

/// The longest-prefix walk: follow `hs` while each hash is present; the
/// answer is the entry of the last present hash.
pub open spec fn walk(es: Seq<(Seq<u8>, PrefixEntry)>, hs: Seq<Seq<u8>>, best: Option<PrefixEntry>) -> Option<
    PrefixEntry,
>
    decreases hs.len(),
{
    if hs.len() == 0 {
        best
    } else {
        match entry_of(es, hs[0]) {
            Some(e) => walk(es, hs.drop_first(), Some(e)),
            None => best,
        }
    }
}

/// Keys are unique.
pub open spec fn keys_unique(es: Seq<(Seq<u8>, PrefixEntry)>) -> bool {
    forall|i: int, j: int| 0 <= i < j < es.len() ==> (#[trigger] es[i]).0 != (#[trigger] es[j]).0
}

/// Donors are unique.
pub open spec fn donors_unique(rs: Seq<(SessionHandle, usize)>) -> bool {
    forall|i: int, j: int| 0 <= i < j < rs.len() ==> (#[trigger] rs[i]).0 != (#[trigger] rs[j]).0
}

/// Every entry shares at least one block.
pub open spec fn entries_nonzero(es: Seq<(Seq<u8>, PrefixEntry)>) -> bool {
    forall|i: int| 0 <= i < es.len() ==> (#[trigger] es[i]).1.blocks >= 1
}

/// Every entry's shared token count fits in a `usize`.
pub open spec fn entries_bounded(es: Seq<(Seq<u8>, PrefixEntry)>, bs: usize) -> bool {
    forall|i: int| 0 <= i < es.len() ==> (#[trigger] es[i]).1.blocks * bs <= usize::MAX
}

proof fn lemma_ref_of_set(rs: Seq<(SessionHandle, usize)>, d: SessionHandle, n: usize)
    requires
        donors_unique(rs),
    ensures
        ref_of(refs_set(rs, d, n), d) == n,
        donors_unique(refs_set(rs, d, n)),
{
    let out = refs_set(rs, d, n);
    if exists|i: int| 0 <= i < rs.len() && (#[trigger] rs[i]).0 == d {
        let i = choose|i: int| 0 <= i < rs.len() && (#[trigger] rs[i]).0 == d;
        assert(out[i].0 == d);
        let c = choose|j: int| 0 <= j < out.len() && (#[trigger] out[j]).0 == d;
        if c != i {
            assert(out[c] == rs[c]);
            if c < i {
                assert(rs[c].0 != rs[i].0);
            } else {
                assert(rs[i].0 != rs[c].0);
            }
        }
        assert forall|a: int, b: int| 0 <= a < b < out.len() implies (#[trigger] out[a]).0
            != (#[trigger] out[b]).0 by {
            assert(out[a].0 == rs[a].0 && out[b].0 == rs[b].0);
        }
    } else {
        assert(out[rs.len() as int].0 == d);
        let c = choose|j: int| 0 <= j < out.len() && (#[trigger] out[j]).0 == d;
        if c != rs.len() {
            assert(out[c] == rs[c]);
        }
        assert forall|a: int, b: int| 0 <= a < b < out.len() implies (#[trigger] out[a]).0
            != (#[trigger] out[b]).0 by {
            if b == rs.len() {
                assert(out[a] == rs[a]);
            }
        }
    }
}

proof fn lemma_ref_of_release(rs: Seq<(SessionHandle, usize)>, p: SessionHandle, d: SessionHandle)
    requires
        donors_unique(rs),
    ensures
        ref_of(refs_release(rs, p), d) <= ref_of(rs, d),
        donors_unique(refs_release(rs, p)),
{
    if exists|i: int| 0 <= i < rs.len() && (#[trigger] rs[i]).0 == p {
        let n = ref_of(rs, p);
        let m: usize = if n > 0 { (n - 1) as usize } else { 0 };
        lemma_ref_of_set(rs, p, m);
        let out = refs_set(rs, p, m);
        let i = choose|i: int| 0 <= i < rs.len() && (#[trigger] rs[i]).0 == p;
        assert(out == rs.update(i, (p, m)));
        if d != p {
            if exists|j: int| 0 <= j < rs.len() && (#[trigger] rs[j]).0 == d {
                let j = choose|j: int| 0 <= j < rs.len() && (#[trigger] rs[j]).0 == d;
                assert(out[j] == rs[j]);
                let c = choose|k: int| 0 <= k < out.len() && (#[trigger] out[k]).0 == d;
                if c != j {
                    assert(out[c] == rs[c]);
                    if c < j {
                        assert(rs[c].0 != rs[j].0);
                    } else {
                        assert(rs[j].0 != rs[c].0);
                    }
                }
            } else {
                assert forall|k: int| 0 <= k < out.len() implies (#[trigger] out[k]).0 != d by {
                    if k != i {
                        assert(out[k] == rs[k]);
                    }
                }
            }
        }
    }
}

/// Chain-hashed, block-aligned prefix index. Donor lifetime is the
/// caller's: a donor must stay open while `is_donor` says it is referenced.
pub struct BlockPrefixIndex {
    block_size: usize,
    by_hash: Vec<(Vec<u8>, PrefixEntry)>,
    donor_refs: Vec<(SessionHandle, usize)>,
    stats: BlockPrefixStats,
}

impl BlockPrefixIndex {
    pub closed spec fn spec_block_size(&self) -> usize {
        self.block_size
    }

    pub closed spec fn spec_entries(&self) -> Seq<(Seq<u8>, PrefixEntry)> {
        self.by_hash@.map_values(|p: (Vec<u8>, PrefixEntry)| (p.0@, p.1))
    }

    pub closed spec fn spec_refs(&self) -> Seq<(SessionHandle, usize)> {
        self.donor_refs@
    }

    pub closed spec fn spec_stats(&self) -> BlockPrefixStats {
        self.stats
    }

    pub open spec fn wf(&self) -> bool {
        &&& self.spec_block_size() > 0
        &&& keys_unique(self.spec_entries())
        &&& donors_unique(self.spec_refs())
        &&& entries_nonzero(self.spec_entries())
        &&& entries_bounded(self.spec_entries(), self.spec_block_size())
    }

    /// An empty index over blocks of `block_size` tokens.
    pub fn new(block_size: usize) -> (r: Self)
        requires
            block_size > 0,
        ensures
            r.wf(),
            r.spec_block_size() == block_size,
            r.spec_entries().len() == 0,
            r.spec_refs().len() == 0,
            r.spec_stats() == (BlockPrefixStats {
                hits: 0,
                misses: 0,
                blocks_indexed: 0,
                tokens_shared: 0,
                tokens_lost_to_alignment: 0,
            }),
    {
        let r = BlockPrefixIndex {
            block_size,
            by_hash: Vec::new(),
            donor_refs: Vec::new(),
            stats: BlockPrefixStats {
                hits: 0,
                misses: 0,
                blocks_indexed: 0,
                tokens_shared: 0,
                tokens_lost_to_alignment: 0,
            },
        };
        assert(r.spec_entries() =~= Seq::<(Seq<u8>, PrefixEntry)>::empty());
        r
    }

    pub fn block_size(&self) -> (r: usize)
        ensures
            r == self.spec_block_size(),
    {
        self.block_size
    }

    pub fn stats(&self) -> (r: BlockPrefixStats)
        ensures
            r == self.spec_stats(),
    {
        self.stats
    }

    /// The chain hash of each whole block of `tokens`.
    fn chain_hashes(&self, tokens: &[u32]) -> (r: Vec<Vec<u8>>)
        requires
            self.spec_block_size() > 0,
        ensures
            r@.map_values(|v: Vec<u8>| v@) == chain_hashes_spec(
                tokens@,
                self.spec_block_size() as nat,
            ),
    {
        let bs = self.block_size;
        let total = tokens.len();
        let n_full = total / bs;
        let mut out: Vec<Vec<u8>> = Vec::new();
        let mut prev: Vec<u8> = Vec::new();
        let mut z: usize = 0;
        while z < 32
            invariant
                z <= 32,
                prev@ == Seq::new(z as nat, |i: int| 0u8),
            decreases 32 - z,
        {
            prev.push(0u8);
            z = z + 1;
            assert(prev@ =~= Seq::new(z as nat, |i: int| 0u8));
        }
        let mut b: usize = 0;
        while b < n_full
            invariant
                b <= n_full,
                total == tokens@.len(),
                n_full == tokens@.len() as int / (bs as int),
                bs == self.spec_block_size(),
                bs > 0,
                out@.map_values(|v: Vec<u8>| v@) == chain_hashes_spec(tokens@, bs as nat).take(
                    b as int,
                ),
                prev@ == (if b == 0 {
                    zero_hash()
                } else {
                    chain_hash(tokens@, bs as nat, (b - 1) as nat)
                }),
            decreases n_full - b,
        {
            proof {
                assert((b + 1) * bs <= tokens@.len()) by (nonlinear_arith)
                    requires
                        b < n_full,
                        n_full == tokens@.len() as int / (bs as int),
                        bs > 0,
                {}
                assert(b * bs <= (b + 1) * bs) by (nonlinear_arith);
            }
            let mut data: Vec<u8> = vec![
                108u8, 105, 103, 104, 116, 98, 117, 108, 98, 46, 98, 108, 111, 99, 107, 45, 112,
                114, 101, 102, 105, 120, 46, 118, 49,
            ];
            assert(data@ =~= block_tag());
            let mut p: usize = 0;
            while p < prev.len()
                invariant
                    p <= prev@.len(),
                    data@ == block_tag() + prev@.take(p as int),
                decreases prev@.len() - p,
            {
                data.push(prev[p]);
                p = p + 1;
                assert(data@ =~= block_tag() + prev@.take(p as int));
            }
            assert(prev@.take(prev@.len() as int) =~= prev@);
            let ghost head = data@;
            let lo = b * bs;
            let hi = (b + 1) * bs;
            let mut t = lo;
            assert(tokens@.subrange(lo as int, lo as int) =~= Seq::<u32>::empty());
            while t < hi
                invariant
                    lo <= t <= hi <= tokens@.len(),
                    data@ == head + tokens_le(tokens@.subrange(lo as int, t as int)),
                decreases hi - t,
            {
                let v = tokens[t];
                data.push((v % 256) as u8);
                data.push(((v / 256) % 256) as u8);
                data.push(((v / 65536) % 256) as u8);
                data.push((v / 16777216) as u8);
                assert(tokens@.subrange(lo as int, t + 1).drop_last() =~= tokens@.subrange(
                    lo as int,
                    t as int,
                ));
                t = t + 1;
                assert(data@ =~= head + tokens_le(tokens@.subrange(lo as int, t as int)));
            }
            let digest = sha256_digest(data.as_slice());
            assert(digest@ == chain_hash(tokens@, bs as nat, b as nat));
            let ghost dv = digest@;
            let mut copy: Vec<u8> = Vec::new();
            let mut q: usize = 0;
            while q < digest.len()
                invariant
                    q <= digest@.len(),
                    copy@ == digest@.take(q as int),
                decreases digest@.len() - q,
            {
                copy.push(digest[q]);
                q = q + 1;
                assert(copy@ =~= digest@.take(q as int));
            }
            assert(digest@.take(digest@.len() as int) =~= digest@);
            let ghost out_before = out@.map_values(|v: Vec<u8>| v@);
            assert(chain_hashes_spec(tokens@, bs as nat)[b as int] == chain_hash(tokens@, bs as nat, b as nat));
            out.push(digest);
            assert(out@.map_values(|v: Vec<u8>| v@) =~= out_before.push(dv));
            prev = copy;
            b = b + 1;
            assert(out@.map_values(|v: Vec<u8>| v@) =~= chain_hashes_spec(tokens@, bs as nat).take(
                b as int,
            ));
        }
        assert(chain_hashes_spec(tokens@, bs as nat).take(n_full as int) =~= chain_hashes_spec(
            tokens@,
            bs as nat,
        ));
        out
    }

    /// Position of key `k`, if present.
    fn find_hash(&self, k: &Vec<u8>) -> (r: Option<usize>)
        requires
            keys_unique(self.spec_entries()),
        ensures
            r is None ==> entry_of(self.spec_entries(), k@) is None,
            r matches Some(i) ==> i < self.spec_entries().len() && self.spec_entries()[i as int].0
                == k@ && entry_of(self.spec_entries(), k@) == Some(
                self.spec_entries()[i as int].1,
            ) && (choose|j: int|
                0 <= j < self.spec_entries().len() && (#[trigger] self.spec_entries()[j]).0 == k@)
                == i,
    {
        let ghost es = self.spec_entries();
        let mut i: usize = 0;
        while i < self.by_hash.len()
            invariant
                i <= self.by_hash@.len(),
                es == self.spec_entries(),
                keys_unique(es),
                forall|j: int| 0 <= j < i ==> (#[trigger] es[j]).0 != k@,
            decreases self.by_hash@.len() - i,
        {
            if bytes_equal(&self.by_hash[i].0, k) {
                assert(es[i as int].0 == k@);
                proof {
                    let c = choose|j: int| 0 <= j < es.len() && (#[trigger] es[j]).0 == k@;
                    if c != i {
                        if c < i {
                        } else {
                            assert(es[i as int].0 != es[c].0);
                        }
                    }
                }
                return Some(i);
            }
            i = i + 1;
        }
        None
    }

    /// Position of donor `d`, if present.
    fn find_donor(&self, d: SessionHandle) -> (r: Option<usize>)
        requires
            donors_unique(self.spec_refs()),
        ensures
            r is None ==> !(exists|j: int|
                0 <= j < self.spec_refs().len() && (#[trigger] self.spec_refs()[j]).0 == d),
            r is None ==> ref_of(self.spec_refs(), d) == 0,
            r matches Some(i) ==> i < self.spec_refs().len() && self.spec_refs()[i as int].0 == d
                && ref_of(self.spec_refs(), d) == self.spec_refs()[i as int].1 && (choose|j: int|
                0 <= j < self.spec_refs().len() && (#[trigger] self.spec_refs()[j]).0 == d) == i,
    {
        let ghost rs = self.spec_refs();
        let mut i: usize = 0;
        while i < self.donor_refs.len()
            invariant
                i <= self.donor_refs@.len(),
                rs == self.spec_refs(),
                donors_unique(rs),
                forall|j: int| 0 <= j < i ==> (#[trigger] rs[j]).0 != d,
            decreases self.donor_refs@.len() - i,
        {
            if self.donor_refs[i].0.id == d.id {
                assert(rs[i as int].0 == d);
                proof {
                    let c = choose|j: int| 0 <= j < rs.len() && (#[trigger] rs[j]).0 == d;
                    if c != i {
                        if c < i {
                        } else {
                            assert(rs[i as int].0 != rs[c].0);
                        }
                    }
                }
                return Some(i);
            }
            i = i + 1;
        }
        None
    }

    /// Set the count of donor `d` to `n`.
    fn set_ref(&mut self, d: SessionHandle, n: usize)
        requires
            old(self).wf(),
        ensures
            final(self).wf(),
            final(self).spec_refs() == refs_set(old(self).spec_refs(), d, n),
            final(self).spec_entries() == old(self).spec_entries(),
            final(self).spec_block_size() == old(self).spec_block_size(),
            final(self).spec_stats() == old(self).spec_stats(),
    {
        let ghost rs = self.spec_refs();
        match self.find_donor(d) {
            Some(i) => {
                self.donor_refs.set(i, (d, n));
                assert(self.spec_refs() =~= refs_set(rs, d, n));
                assert forall|a: int, b: int|
                    0 <= a < b < self.spec_refs().len() implies (#[trigger] self.spec_refs()[a]).0
                    != (#[trigger] self.spec_refs()[b]).0 by {
                    assert(self.spec_refs()[a].0 == rs[a].0);
                    assert(self.spec_refs()[b].0 == rs[b].0);
                }
            },
            None => {
                self.donor_refs.push((d, n));
                assert(self.spec_refs() =~= refs_set(rs, d, n));
            },
        }
    }

    /// Release one reference of `donor`, saturating at zero.
    fn release_donor(&mut self, donor: SessionHandle)
        requires
            old(self).wf(),
        ensures
            final(self).wf(),
            final(self).spec_refs() == refs_release(old(self).spec_refs(), donor),
            final(self).spec_entries() == old(self).spec_entries(),
            final(self).spec_block_size() == old(self).spec_block_size(),
            final(self).spec_stats() == old(self).spec_stats(),
    {
        match self.find_donor(donor) {
            Some(i) => {
                let n = self.donor_refs[i].1;
                let m = if n > 0 {
                    n - 1
                } else {
                    0
                };
                self.set_ref(donor, m);
            },
            None => {},
        }
    }

    /// Point `k` at `e`; returns the entry it replaced.
    fn insert_entry(&mut self, k: Vec<u8>, e: PrefixEntry) -> (prev: Option<PrefixEntry>)
        requires
            old(self).wf(),
            e.blocks >= 1,
            e.blocks * old(self).spec_block_size() <= usize::MAX,
        ensures
            final(self).wf(),
            prev == entry_of(old(self).spec_entries(), k@),
            final(self).spec_entries() == entries_insert(old(self).spec_entries(), k@, e),
            final(self).spec_refs() == old(self).spec_refs(),
            final(self).spec_block_size() == old(self).spec_block_size(),
            final(self).spec_stats() == old(self).spec_stats(),
    {
        let ghost es = self.spec_entries();
        let ghost kv = k@;
        match self.find_hash(&k) {
            Some(i) => {
                let prev = self.by_hash[i].1;
                self.by_hash.set(i, (k, e));
                assert(self.spec_entries() =~= entries_insert(es, kv, e));
                assert forall|a: int, b: int|
                    0 <= a < b < self.spec_entries().len() implies (#[trigger] self.spec_entries()[a]).0
                    != (#[trigger] self.spec_entries()[b]).0 by {
                    assert(self.spec_entries()[a].0 == es[a].0);
                    assert(self.spec_entries()[b].0 == es[b].0);
                }
                Some(prev)
            },
            None => {
                self.by_hash.push((k, e));
                assert(self.spec_entries() =~= entries_insert(es, kv, e));
                None
            },
        }
    }

    /// Index `donor`'s prompt so later prompts can share its blocks. Only
    /// whole blocks are indexed; returns how many block-prefix lengths were
    /// new.
    pub fn record(&mut self, tokens: &[u32], donor: SessionHandle) -> (added: usize)
        requires
            old(self).wf(),
            ref_of(old(self).spec_refs(), donor) + tokens@.len() <= usize::MAX,
            old(self).spec_stats().blocks_indexed + tokens@.len() <= usize::MAX,
        ensures
            final(self).wf(),
            final(self).spec_block_size() == old(self).spec_block_size(),
            ({
                let hs = chain_hashes_spec(tokens@, old(self).spec_block_size() as nat);
                let (es, rs, n) = record_fold(
                    old(self).spec_entries(),
                    old(self).spec_refs(),
                    hs,
                    donor,
                );
                &&& final(self).spec_entries() == es
                &&& final(self).spec_refs() == rs
                &&& added == n
            }),
            final(self).spec_stats() == (BlockPrefixStats {
                blocks_indexed: (old(self).spec_stats().blocks_indexed + added) as usize,
                ..old(self).spec_stats()
            }),
    {
        let hashes = self.chain_hashes(tokens);
        let ghost hs = chain_hashes_spec(tokens@, self.spec_block_size() as nat);
        let ghost es0 = self.spec_entries();
        let ghost rs0 = self.spec_refs();
        let ghost stats0 = self.spec_stats();
        proof {
            assert(hs.len() <= tokens@.len()) by (nonlinear_arith)
                requires
                    hs.len() == tokens@.len() as int / (self.spec_block_size() as int),
                    self.spec_block_size() > 0,
            {}
        }
        let mut added: usize = 0;
        let mut i: usize = 0;
        assert(hs.take(0) =~= Seq::<Seq<u8>>::empty());
        while i < hashes.len()
            invariant
                i <= hashes@.len(),
                hashes@.map_values(|v: Vec<u8>| v@) == hs,
                hs == chain_hashes_spec(tokens@, self.spec_block_size() as nat),
                hs.len() <= tokens@.len(),
                self.wf(),
                self.spec_block_size() == old(self).spec_block_size(),
                self.spec_stats() == stats0,
                ref_of(rs0, donor) + tokens@.len() <= usize::MAX,
                stats0.blocks_indexed + tokens@.len() <= usize::MAX,
                ({
                    let (es, rs, n) = record_fold(es0, rs0, hs.take(i as int), donor);
                    &&& self.spec_entries() == es
                    &&& self.spec_refs() == rs
                    &&& added == n
                }),
                added <= i,
                ref_of(self.spec_refs(), donor) <= ref_of(rs0, donor) + i,
            decreases hashes@.len() - i,
        {
            assert(hs.take(i + 1).drop_last() =~= hs.take(i as int));
            assert(hs.take(i + 1).last() == hs[i as int]);
            let h = copy_bytes(&hashes[i]);
            assert(h@ == hs[i as int]);
            proof {
                assert((i + 1) * self.spec_block_size() <= tokens@.len()) by (nonlinear_arith)
                    requires
                        i < hs.len(),
                        hs.len() == tokens@.len() as int / (self.spec_block_size() as int),
                        self.spec_block_size() > 0,
                {}
            }
            let e = PrefixEntry { donor, blocks: i + 1 };
            let ghost refs_before = self.spec_refs();
            let prev = self.insert_entry(h, e);
            match prev {
                Some(p) => {
                    self.release_donor(p.donor);
                    proof {
                        lemma_ref_of_release(refs_before, p.donor, donor);
                    }
                },
                None => {
                    added = added + 1;
                },
            }
            let cur = match self.find_donor(donor) {
                Some(j) => self.donor_refs[j].1,
                None => 0,
            };
            let ghost refs_mid = self.spec_refs();
            self.set_ref(donor, cur + 1);
            proof {
                lemma_ref_of_set(refs_mid, donor, (cur + 1) as usize);
            }
            i = i + 1;
        }
        assert(hs.take(hs.len() as int) =~= hs);
        self.stats.blocks_indexed = self.stats.blocks_indexed + added;
        added
    }

    /// The longest block-aligned prefix of `tokens` some donor holds. A miss
    /// is `None`; a hit always shares at least one block.
    pub fn lookup(&mut self, tokens: &[u32]) -> (r: Option<PrefixMatch>)
        requires
            old(self).wf(),
            old(self).spec_stats().misses < usize::MAX,
            old(self).spec_stats().hits < usize::MAX,
            walk(
                old(self).spec_entries(),
                chain_hashes_spec(tokens@, old(self).spec_block_size() as nat),
                None,
            ) matches Some(e) ==> old(self).spec_stats().tokens_shared + e.blocks
                * old(self).spec_block_size() <= usize::MAX,
            old(self).spec_stats().tokens_lost_to_alignment + old(self).spec_block_size() <= usize::MAX,
        ensures
            final(self).wf(),
            final(self).spec_entries() == old(self).spec_entries(),
            final(self).spec_refs() == old(self).spec_refs(),
            final(self).spec_block_size() == old(self).spec_block_size(),
            ({
                let bs = old(self).spec_block_size();
                let best = walk(old(self).spec_entries(), chain_hashes_spec(tokens@, bs as nat), None);
                let st = old(self).spec_stats();
                match best {
                    None => {
                        &&& r is None
                        &&& final(self).spec_stats() == (BlockPrefixStats { misses: (st.misses + 1) as usize, ..st })
                    },
                    Some(e) => {
                        let shared = e.blocks * bs;
                        let remainder = if tokens@.len() >= shared { tokens@.len() - shared } else { 0 };
                        let lost = if remainder < bs - 1 { remainder } else { bs - 1 };
                        &&& r == Some(PrefixMatch {
                            donor: e.donor,
                            blocks: e.blocks,
                            shared_tokens: shared as usize,
                            remainder_tokens: remainder as usize,
                        })
                        &&& e.blocks >= 1
                        &&& final(self).spec_stats() == (BlockPrefixStats {
                            hits: (st.hits + 1) as usize,
                            tokens_shared: (st.tokens_shared + shared) as usize,
                            tokens_lost_to_alignment: (st.tokens_lost_to_alignment + lost) as usize,
                            ..st
                        })
                    },
                }
            }),
    {
        let hashes = self.chain_hashes(tokens);
        let ghost hs = chain_hashes_spec(tokens@, self.spec_block_size() as nat);
        let ghost es = self.spec_entries();
        let mut best: Option<PrefixEntry> = None;
        let mut i: usize = 0;
        assert(hs.skip(0) =~= hs);
        while i < hashes.len()
            invariant
                i <= hashes@.len(),
                hashes@.map_values(|v: Vec<u8>| v@) == hs,
                es == self.spec_entries(),
                self.wf(),
                walk(es, hs, None) == walk(es, hs.skip(i as int), best),
                best matches Some(e) ==> e.blocks >= 1 && e.blocks * self.spec_block_size() <= usize::MAX,
            ensures
                walk(es, hs, None) == best,
                best matches Some(e) ==> e.blocks >= 1 && e.blocks * self.spec_block_size() <= usize::MAX,
            decreases hashes@.len() - i,
        {
            assert(hashes@[i as int]@ == hs[i as int]);
            assert(hs.skip(i as int)[0] == hs[i as int]);
            assert(hs.skip(i as int).drop_first() =~= hs.skip(i + 1));
            match self.find_hash(&hashes[i]) {
                Some(j) => {
                    best = Some(self.by_hash[j].1);
                    proof {
                        assert(es[j as int].1.blocks >= 1);
                    }
                },
                None => {
                    break;
                },
            }
            i = i + 1;
        }
        match best {
            None => {
                self.stats.misses = self.stats.misses + 1;
                None
            },
            Some(e) => {
                let bs = self.block_size;
                let shared = e.blocks * bs;
                let remainder = tokens.len().saturating_sub(shared);
                self.stats.hits = self.stats.hits + 1;
                self.stats.tokens_shared = self.stats.tokens_shared + shared;
                let lost = if remainder < bs - 1 {
                    remainder
                } else {
                    bs - 1
                };
                self.stats.tokens_lost_to_alignment = self.stats.tokens_lost_to_alignment + lost;
                Some(
                    PrefixMatch {
                        donor: e.donor,
                        blocks: e.blocks,
                        shared_tokens: shared,
                        remainder_tokens: remainder,
                    },
                )
            },
        }
    }
}

/// `es` without the entries pointing at donor `d`, order kept.
pub open spec fn drop_donor_entries(es: Seq<(Seq<u8>, PrefixEntry)>, d: SessionHandle) -> Seq<
    (Seq<u8>, PrefixEntry),
>
    decreases es.len(),
{
    if es.len() == 0 {
        Seq::empty()
    } else {
        let rest = drop_donor_entries(es.drop_last(), d);
        if es.last().1.donor == d {
            rest
        } else {
            rest.push(es.last())
        }
    }
}

/// `rs` without donor `d`, order kept.
pub open spec fn drop_donor_refs(rs: Seq<(SessionHandle, usize)>, d: SessionHandle) -> Seq<
    (SessionHandle, usize),
>
    decreases rs.len(),
{
    if rs.len() == 0 {
        Seq::empty()
    } else {
        let rest = drop_donor_refs(rs.drop_last(), d);
        if rs.last().0 == d {
            rest
        } else {
            rest.push(rs.last())
        }
    }
}

proof fn lemma_drop_entries(es: Seq<(Seq<u8>, PrefixEntry)>, d: SessionHandle, bs: usize)
    requires
        keys_unique(es),
        entries_nonzero(es),
        entries_bounded(es, bs),
    ensures
        keys_unique(drop_donor_entries(es, d)),
        entries_nonzero(drop_donor_entries(es, d)),
        entries_bounded(drop_donor_entries(es, d), bs),
        drop_donor_entries(es, d).len() <= es.len(),
        forall|k: int|
            0 <= k < drop_donor_entries(es, d).len() ==> (#[trigger] drop_donor_entries(es, d)[k]).1.donor
                != d && es.contains(drop_donor_entries(es, d)[k]),
    decreases es.len(),
{
    if es.len() > 0 {
        let pre = es.drop_last();
        assert(keys_unique(pre)) by {
            assert forall|i: int, j: int| 0 <= i < j < pre.len() implies (#[trigger] pre[i]).0
                != (#[trigger] pre[j]).0 by {
                assert(pre[i] == es[i] && pre[j] == es[j]);
            }
        }
        lemma_drop_entries(pre, d, bs);
        let rest = drop_donor_entries(pre, d);
        let out = drop_donor_entries(es, d);
        assert forall|k: int| 0 <= k < rest.len() implies es.contains(#[trigger] rest[k]) by {
            let m = choose|m: int| 0 <= m < pre.len() && pre[m] == rest[k];
            assert(es[m] == pre[m]);
        }
        if es.last().1.donor != d {
            assert(es[es.len() - 1] == es.last());
            assert forall|i: int, j: int| 0 <= i < j < out.len() implies (#[trigger] out[i]).0
                != (#[trigger] out[j]).0 by {
                if j == rest.len() {
                    let m = choose|m: int| 0 <= m < pre.len() && pre[m] == rest[i];
                    assert(es[m] == pre[m]);
                    assert(es[m].0 != es[es.len() - 1].0);
                }
            }
        }
    }
}

proof fn lemma_drop_refs(rs: Seq<(SessionHandle, usize)>, d: SessionHandle)
    requires
        donors_unique(rs),
    ensures
        donors_unique(drop_donor_refs(rs, d)),
        forall|k: int|
            0 <= k < drop_donor_refs(rs, d).len() ==> (#[trigger] drop_donor_refs(rs, d)[k]).0 != d
                && rs.contains(drop_donor_refs(rs, d)[k]),
    decreases rs.len(),
{
    if rs.len() > 0 {
        let pre = rs.drop_last();
        assert(donors_unique(pre)) by {
            assert forall|i: int, j: int| 0 <= i < j < pre.len() implies (#[trigger] pre[i]).0
                != (#[trigger] pre[j]).0 by {
                assert(pre[i] == rs[i] && pre[j] == rs[j]);
            }
        }
        lemma_drop_refs(pre, d);
        let rest = drop_donor_refs(pre, d);
        let out = drop_donor_refs(rs, d);
        assert forall|k: int| 0 <= k < rest.len() implies rs.contains(#[trigger] rest[k]) by {
            let m = choose|m: int| 0 <= m < pre.len() && pre[m] == rest[k];
            assert(rs[m] == pre[m]);
        }
        if rs.last().0 != d {
            assert(rs[rs.len() - 1] == rs.last());
            assert forall|i: int, j: int| 0 <= i < j < out.len() implies (#[trigger] out[i]).0
                != (#[trigger] out[j]).0 by {
                if j == rest.len() {
                    let m = choose|m: int| 0 <= m < pre.len() && pre[m] == rest[i];
                    assert(rs[m] == pre[m]);
                    assert(rs[m].0 != rs[rs.len() - 1].0);
                }
            }
        }
    }
}

/// Donor `d` holds at least one reference.
pub open spec fn is_donor_spec(rs: Seq<(SessionHandle, usize)>, d: SessionHandle) -> bool {
    ref_of(rs, d) > 0
}

/// Insert `x` into a strictly ascending vector of ids, without duplicates.
fn insert_sorted_id(v: &mut Vec<u64>, x: u64)
    requires
        forall|i: int, j: int| 0 <= i < j < old(v)@.len() ==> (#[trigger] old(v)@[i]) < (#[trigger] old(v)@[j]),
    ensures
        forall|i: int, j: int| 0 <= i < j < final(v)@.len() ==> (#[trigger] final(v)@[i]) < (#[trigger] final(v)@[j]),
        final(v)@.to_set() == old(v)@.to_set().insert(x),
{
    let mut i: usize = 0;
    while i < v.len()
        invariant
            i <= v@.len(),
            v@ == old(v)@,
            forall|a: int, b: int| 0 <= a < b < v@.len() ==> (#[trigger] v@[a]) < (#[trigger] v@[b]),
            forall|j: int| 0 <= j < i ==> v@[j] < x,
        ensures
            i <= v@.len(),
            v@ == old(v)@,
            forall|j: int| 0 <= j < i ==> v@[j] < x,
            i < v@.len() ==> v@[i as int] > x,
        decreases v@.len() - i,
    {
        if v[i] == x {
            assert(v@.to_set() =~= old(v)@.to_set().insert(x));
            return;
        }
        if v[i] > x {
            break;
        }
        i = i + 1;
    }
    let ghost before = v@;
    v.insert(i, x);
    assert forall|a: int, b: int| 0 <= a < b < v@.len() implies (#[trigger] v@[a]) < (#[trigger] v@[b]) by {
        if b < i {
        } else if a < i && b == i {
        } else if a < i {
            assert(v@[b] == before[b - 1]);
        } else if a == i {
            assert(v@[b] == before[b - 1]);
            if b - 1 > i {
                assert(before[i as int] < before[b - 1]);
            }
        } else {
            assert(v@[a] == before[a - 1] && v@[b] == before[b - 1]);
        }
    }
    assert forall|y: u64| #[trigger] v@.to_set().contains(y) <==> before.to_set().insert(x).contains(y) by {
        if v@.contains(y) {
            let k = choose|k: int| 0 <= k < v@.len() && v@[k] == y;
            if k < i {
                assert(before[k] == y);
            } else if k > i {
                assert(before[k - 1] == y);
            }
        }
        if before.contains(y) {
            let k = choose|k: int| 0 <= k < before.len() && before[k] == y;
            if k < i {
                assert(v@[k] == y);
            } else {
                assert(v@[k + 1] == y);
            }
        }
        if y == x {
            assert(v@[i as int] == x);
        }
    }
    assert(v@.to_set() =~= before.to_set().insert(x));
}

impl BlockPrefixIndex {
    /// Whether `s` is still referenced as a splice source; while it is, the
    /// caller must keep it open.
    pub fn is_donor(&self, s: SessionHandle) -> (r: bool)
        requires
            self.wf(),
        ensures
            r == is_donor_spec(self.spec_refs(), s),
    {
        match self.find_donor(s) {
            Some(i) => self.donor_refs[i].1 > 0,
            None => false,
        }
    }

    /// Every referenced donor, ordered by session number.
    pub fn donors(&self) -> (r: Vec<SessionHandle>)
        requires
            self.wf(),
        ensures
            forall|i: int, j: int| 0 <= i < j < r@.len() ==> (#[trigger] r@[i]).id < (#[trigger] r@[j]).id,
            forall|d: SessionHandle| r@.contains(d) <==> is_donor_spec(self.spec_refs(), d),
    {
        let ghost rs = self.spec_refs();
        let mut ids: Vec<u64> = Vec::new();
        let mut i: usize = 0;
        while i < self.donor_refs.len()
            invariant
                i <= rs.len(),
                rs == self.spec_refs(),
                donors_unique(rs),
                forall|a: int, b: int| 0 <= a < b < ids@.len() ==> (#[trigger] ids@[a]) < (#[trigger] ids@[b]),
                forall|x: u64| ids@.to_set().contains(x) <==> exists|j: int|
                    0 <= j < i && (#[trigger] rs[j]).0.id == x && rs[j].1 > 0,
            decreases rs.len() - i,
        {
            let (d, n) = self.donor_refs[i];
            if n > 0 {
                insert_sorted_id(&mut ids, d.id);
            }
            proof {
                assert forall|x: u64| ids@.to_set().contains(x) <==> exists|j: int|
                    0 <= j < i + 1 && (#[trigger] rs[j]).0.id == x && rs[j].1 > 0 by {
                    if x == d.id && n > 0 {
                        assert(rs[i as int].0.id == x);
                    }
                }
            }
            i = i + 1;
        }
        let mut out: Vec<SessionHandle> = Vec::new();
        let mut k: usize = 0;
        while k < ids.len()
            invariant
                k <= ids@.len(),
                out@.len() == k,
                forall|j: int| 0 <= j < k ==> (#[trigger] out@[j]).id == ids@[j],
            decreases ids@.len() - k,
        {
            out.push(SessionHandle { id: ids[k] });
            k = k + 1;
        }
        proof {
            assert forall|a: int, b: int| 0 <= a < b < out@.len() implies (#[trigger] out@[a]).id
                < (#[trigger] out@[b]).id by {
                assert(ids@[a] < ids@[b]);
            }
            assert forall|d: SessionHandle| out@.contains(d) <==> is_donor_spec(rs, d) by {
                if out@.contains(d) {
                    let j = choose|j: int| 0 <= j < out@.len() && out@[j] == d;
                    assert(ids@.contains(d.id));
                    assert(ids@.to_set().contains(d.id));
                    let m = choose|m: int| 0 <= m < rs.len() && (#[trigger] rs[m]).0.id == d.id && rs[m].1 > 0;
                    assert(rs[m].0 == d);
                    let c = choose|c: int| 0 <= c < rs.len() && (#[trigger] rs[c]).0 == d;
                    if c != m {
                        if c < m { assert(rs[c].0 != rs[m].0); } else { assert(rs[m].0 != rs[c].0); }
                    }
                }
                if is_donor_spec(rs, d) {
                    let c = choose|c: int| 0 <= c < rs.len() && (#[trigger] rs[c]).0 == d;
                    assert(rs[c].0.id == d.id && rs[c].1 > 0);
                    assert(ids@.to_set().contains(d.id));
                    let j = choose|j: int| 0 <= j < ids@.len() && ids@[j] == d.id;
                    assert(out@[j] == d);
                }
            }
        }
        out
    }

    /// Drop every entry pointing at `donor` and its reference count, making
    /// it safe to close. Returns how many entries were removed.
    pub fn forget_donor(&mut self, donor: SessionHandle) -> (removed: usize)
        requires
            old(self).wf(),
        ensures
            final(self).wf(),
            final(self).spec_entries() == drop_donor_entries(old(self).spec_entries(), donor),
            final(self).spec_refs() == drop_donor_refs(old(self).spec_refs(), donor),
            removed == old(self).spec_entries().len() - final(self).spec_entries().len(),
            !is_donor_spec(final(self).spec_refs(), donor),
            forall|k: int|
                0 <= k < final(self).spec_entries().len() ==> (#[trigger] final(self).spec_entries()[k]).1.donor
                    != donor,
            final(self).spec_block_size() == old(self).spec_block_size(),
            final(self).spec_stats() == old(self).spec_stats(),
    {
        let ghost es = self.spec_entries();
        let ghost rs = self.spec_refs();
        proof {
            lemma_drop_entries(es, donor, self.spec_block_size());
            lemma_drop_refs(rs, donor);
        }
        let before = self.by_hash.len();
        let mut kept: Vec<(Vec<u8>, PrefixEntry)> = Vec::new();
        let mut i: usize = 0;
        assert(es.take(0) =~= Seq::<(Seq<u8>, PrefixEntry)>::empty());
        while i < self.by_hash.len()
            invariant
                i <= self.by_hash@.len(),
                es == self.spec_entries(),
                kept@.map_values(|p: (Vec<u8>, PrefixEntry)| (p.0@, p.1)) == drop_donor_entries(
                    es.take(i as int),
                    donor,
                ),
            decreases self.by_hash@.len() - i,
        {
            assert(es.take(i + 1).drop_last() =~= es.take(i as int));
            let ghost kv = kept@.map_values(|p: (Vec<u8>, PrefixEntry)| (p.0@, p.1));
            if self.by_hash[i].1.donor.id != donor.id {
                let k = copy_bytes(&self.by_hash[i].0);
                let e = self.by_hash[i].1;
                kept.push((k, e));
                assert(kept@.map_values(|p: (Vec<u8>, PrefixEntry)| (p.0@, p.1)) =~= kv.push(es[i as int]));
            } else {
                assert(es[i as int].1.donor == donor);
            }
            i = i + 1;
        }
        assert(es.take(es.len() as int) =~= es);
        let mut refs: Vec<(SessionHandle, usize)> = Vec::new();
        let mut j: usize = 0;
        assert(rs.take(0) =~= Seq::<(SessionHandle, usize)>::empty());
        while j < self.donor_refs.len()
            invariant
                j <= self.donor_refs@.len(),
                rs == self.spec_refs(),
                refs@ == drop_donor_refs(rs.take(j as int), donor),
            decreases self.donor_refs@.len() - j,
        {
            assert(rs.take(j + 1).drop_last() =~= rs.take(j as int));
            if self.donor_refs[j].0.id != donor.id {
                refs.push(self.donor_refs[j]);
            }
            j = j + 1;
        }
        assert(rs.take(rs.len() as int) =~= rs);
        self.by_hash = kept;
        self.donor_refs = refs;
        proof {
            let out = drop_donor_refs(rs, donor);
            assert forall|c: int| 0 <= c < out.len() implies (#[trigger] out[c]).0 != donor by {}
        }
        before - self.by_hash.len()
    }
}

proof fn lemma_entry_of_insert(
    es: Seq<(Seq<u8>, PrefixEntry)>,
    k: Seq<u8>,
    e: PrefixEntry,
    q: Seq<u8>,
)
    requires
        keys_unique(es),
    ensures
        keys_unique(entries_insert(es, k, e)),
        entry_of(entries_insert(es, k, e), q) == (if q == k {
            Some(e)
        } else {
            entry_of(es, q)
        }),
{
    let out = entries_insert(es, k, e);
    if exists|i: int| 0 <= i < es.len() && (#[trigger] es[i]).0 == k {
        let i = choose|i: int| 0 <= i < es.len() && (#[trigger] es[i]).0 == k;
        assert forall|a: int, b: int| 0 <= a < b < out.len() implies (#[trigger] out[a]).0
            != (#[trigger] out[b]).0 by {
            assert(out[a].0 == es[a].0 && out[b].0 == es[b].0);
        }
        if q == k {
            assert(out[i].0 == k);
            let c = choose|c: int| 0 <= c < out.len() && (#[trigger] out[c]).0 == q;
            if c != i {
                assert(out[c].0 == es[c].0);
                if c < i { assert(es[c].0 != es[i].0); } else { assert(es[i].0 != es[c].0); }
            }
        } else {
            if exists|c: int| 0 <= c < es.len() && (#[trigger] es[c]).0 == q {
                let c = choose|c: int| 0 <= c < es.len() && (#[trigger] es[c]).0 == q;
                assert(out[c] == es[c]);
                let c2 = choose|c2: int| 0 <= c2 < out.len() && (#[trigger] out[c2]).0 == q;
                if c2 != c {
                    assert(out[c2] == es[c2]);
                    if c2 < c { assert(es[c2].0 != es[c].0); } else { assert(es[c].0 != es[c2].0); }
                }
            } else {
                assert forall|c: int| 0 <= c < out.len() implies (#[trigger] out[c]).0 != q by {
                    if c != i {
                        assert(out[c] == es[c]);
                    }
                }
            }
        }
    } else {
        assert forall|a: int, b: int| 0 <= a < b < out.len() implies (#[trigger] out[a]).0
            != (#[trigger] out[b]).0 by {
            if b == es.len() {
                assert(out[a] == es[a]);
            }
        }
        if q == k {
            assert(out[es.len() as int].0 == k);
            let c = choose|c: int| 0 <= c < out.len() && (#[trigger] out[c]).0 == q;
            if c != es.len() {
                assert(out[c] == es[c]);
            }
        } else {
            if exists|c: int| 0 <= c < es.len() && (#[trigger] es[c]).0 == q {
                let c = choose|c: int| 0 <= c < es.len() && (#[trigger] es[c]).0 == q;
                assert(out[c] == es[c]);
                let c2 = choose|c2: int| 0 <= c2 < out.len() && (#[trigger] out[c2]).0 == q;
                if c2 != c {
                    assert(out[c2] == es[c2]);
                    if c2 < c { assert(es[c2].0 != es[c].0); } else { assert(es[c].0 != es[c2].0); }
                }
            } else {
                assert forall|c: int| 0 <= c < out.len() implies (#[trigger] out[c]).0 != q by {
                    if c < es.len() {
                        assert(out[c] == es[c]);
                    }
                }
            }
        }
    }
}

proof fn lemma_fold_entries(
    es: Seq<(Seq<u8>, PrefixEntry)>,
    rs: Seq<(SessionHandle, usize)>,
    hs: Seq<Seq<u8>>,
    d: SessionHandle,
)
    requires
        keys_unique(es),
    ensures
        keys_unique(record_fold(es, rs, hs, d).0),
        forall|k: int| 0 <= k < hs.len() ==> (#[trigger] entry_of(record_fold(es, rs, hs, d).0, hs[k])) is Some,
        hs.len() > 0 ==> entry_of(record_fold(es, rs, hs, d).0, hs.last()) == Some(
            PrefixEntry { donor: d, blocks: hs.len() as usize },
        ),
    decreases hs.len(),
{
    if hs.len() > 0 {
        let pre = hs.drop_last();
        lemma_fold_entries(es, rs, pre, d);
        let es1 = record_fold(es, rs, pre, d).0;
        let e = PrefixEntry { donor: d, blocks: hs.len() as usize };
        let h = hs.last();
        assert(record_fold(es, rs, hs, d).0 == entries_insert(es1, h, e));
        lemma_entry_of_insert(es1, h, e, h);
        assert forall|k: int| 0 <= k < hs.len() implies (#[trigger] entry_of(
            record_fold(es, rs, hs, d).0,
            hs[k],
        )) is Some by {
            lemma_entry_of_insert(es1, h, e, hs[k]);
            if k < pre.len() {
                assert(pre[k] == hs[k]);
                assert(entry_of(es1, pre[k]) is Some);
            }
        }
    }
}

proof fn lemma_walk_all_present(es: Seq<(Seq<u8>, PrefixEntry)>, hs: Seq<Seq<u8>>, best: Option<PrefixEntry>)
    requires
        hs.len() > 0,
        forall|k: int| 0 <= k < hs.len() ==> (#[trigger] entry_of(es, hs[k])) is Some,
    ensures
        walk(es, hs, best) == entry_of(es, hs.last()),
    decreases hs.len(),
{
    assert(entry_of(es, hs[0]) is Some);
    if hs.len() > 1 {
        let rest = hs.drop_first();
        assert forall|k: int| 0 <= k < rest.len() implies (#[trigger] entry_of(es, rest[k])) is Some by {
            assert(rest[k] == hs[k + 1]);
        }
        lemma_walk_all_present(es, rest, entry_of(es, hs[0]));
        assert(rest.last() == hs.last());
    } else {
        assert(hs.drop_first().len() == 0);
    }
}

/// What a lookup gives back of a record: right after a prompt with at least
/// one whole block is recorded for `donor`, looking the same prompt up hits
/// that donor with every whole block of the prompt.
pub proof fn law_lookup_after_record(
    es: Seq<(Seq<u8>, PrefixEntry)>,
    rs: Seq<(SessionHandle, usize)>,
    tokens: Seq<u32>,
    bs: usize,
    donor: SessionHandle,
)
    requires
        keys_unique(es),
        bs > 0,
        tokens.len() >= bs,
    ensures
        walk(
            record_fold(es, rs, chain_hashes_spec(tokens, bs as nat), donor).0,
            chain_hashes_spec(tokens, bs as nat),
            None,
        ) == Some(PrefixEntry { donor, blocks: (tokens.len() / (bs as nat)) as usize }),
{
    let hs = chain_hashes_spec(tokens, bs as nat);
    assert(hs.len() >= 1) by (nonlinear_arith)
        requires
            hs.len() == tokens.len() / (bs as nat),
            tokens.len() >= bs,
            bs > 0,
    {}
    lemma_fold_entries(es, rs, hs, donor);
    lemma_walk_all_present(record_fold(es, rs, hs, donor).0, hs, None);
}

/// A prompt shorter than one block indexes nothing and changes nothing.
pub proof fn law_short_prompt_records_nothing(
    es: Seq<(Seq<u8>, PrefixEntry)>,
    rs: Seq<(SessionHandle, usize)>,
    tokens: Seq<u32>,
    bs: usize,
    donor: SessionHandle,
)
    requires
        bs > 0,
        tokens.len() < bs,
    ensures
        record_fold(es, rs, chain_hashes_spec(tokens, bs as nat), donor) == (es, rs, 0nat),
{
    assert(chain_hashes_spec(tokens, bs as nat).len() == 0) by (nonlinear_arith)
        requires
            chain_hashes_spec(tokens, bs as nat).len() == tokens.len() / (bs as nat),
            tokens.len() < bs,
    {}
}

proof fn lemma_dropped_donor_absent(es: Seq<(Seq<u8>, PrefixEntry)>, d: SessionHandle)
    ensures
        forall|k: int|
            0 <= k < drop_donor_entries(es, d).len() ==> (#[trigger] drop_donor_entries(es, d)[k]).1.donor
                != d,
    decreases es.len(),
{
    if es.len() > 0 {
        lemma_dropped_donor_absent(es.drop_last(), d);
        let rest = drop_donor_entries(es.drop_last(), d);
        let out = drop_donor_entries(es, d);
        if es.last().1.donor != d {
            assert forall|k: int| 0 <= k < out.len() implies (#[trigger] out[k]).1.donor != d by {
                if k < rest.len() {
                    assert(out[k] == rest[k]);
                }
            }
        }
    }
}

proof fn lemma_walk_avoids(es: Seq<(Seq<u8>, PrefixEntry)>, hs: Seq<Seq<u8>>, best: Option<PrefixEntry>, d: SessionHandle)
    requires
        forall|k: int| 0 <= k < es.len() ==> (#[trigger] es[k]).1.donor != d,
        best matches Some(b) ==> b.donor != d,
    ensures
        walk(es, hs, best) matches Some(e) ==> e.donor != d,
    decreases hs.len(),
{
    if hs.len() > 0 {
        match entry_of(es, hs[0]) {
            Some(e) => {
                let i = choose|i: int| 0 <= i < es.len() && (#[trigger] es[i]).0 == hs[0];
                assert(es[i].1.donor != d);
                lemma_walk_avoids(es, hs.drop_first(), Some(e), d);
            },
            None => {},
        }
    }
}

/// A forgotten donor is never handed out again: after `forget_donor(d)`,
/// a lookup of any prompt either misses or hits another donor.
pub proof fn law_forgotten_donor_never_matches(
    es: Seq<(Seq<u8>, PrefixEntry)>,
    d: SessionHandle,
    hs: Seq<Seq<u8>>,
)
    ensures
        walk(drop_donor_entries(es, d), hs, None) matches Some(e) ==> e.donor != d,
{
    lemma_dropped_donor_absent(es, d);
    lemma_walk_avoids(drop_donor_entries(es, d), hs, None, d);
}

/// A lookup against an index holding no entries always misses.
pub proof fn law_empty_index_misses(hs: Seq<Seq<u8>>)
    ensures
        walk(Seq::<(Seq<u8>, PrefixEntry)>::empty(), hs, None) is None,
{
    if hs.len() > 0 {
        assert(entry_of(Seq::<(Seq<u8>, PrefixEntry)>::empty(), hs[0]) is None);
    }
}

/// Byte strings compared element by element.
fn bytes_equal(a: &Vec<u8>, b: &Vec<u8>) -> (r: bool)
    ensures
        r == (a@ == b@),
{
    if a.len() != b.len() {
        return false;
    }
    let mut i: usize = 0;
    while i < a.len()
        invariant
            i <= a@.len(),
            a@.len() == b@.len(),
            forall|j: int| 0 <= j < i ==> a@[j] == b@[j],
        decreases a@.len() - i,
    {
        if a[i] != b[i] {
            return false;
        }
        i = i + 1;
    }
    assert(a@ =~= b@);
    true
}

fn copy_bytes(a: &Vec<u8>) -> (r: Vec<u8>)
    ensures
        r@ == a@,
{
    let mut r: Vec<u8> = Vec::new();
    let mut i: usize = 0;
    while i < a.len()
        invariant
            i <= a@.len(),
            r@ == a@.take(i as int),
        decreases a@.len() - i,
    {
        r.push(a[i]);
        i = i + 1;
        assert(r@ =~= a@.take(i as int));
    }
    assert(a@.take(a@.len() as int) =~= a@);
    r
}

} // verus!
