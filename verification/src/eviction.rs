//! Span-level eviction planning in the allocator's block coordinates, and
//! the reconciliation of an eviction report back onto span state.
//!
//! A span is a token range `start_pos..end_pos` owned by a cache slot. An
//! eviction plan names whole logical blocks; the report that comes back says
//! which blocks were actually freed and which stayed resident because another
//! session still shares them. Only freed blocks lose their tokens.

use vstd::prelude::*;
use std::ops::Range;
use crate::policies::{fully_covered_spec, touched_spec, tail_block_spec, blocks_fully_covered,
    blocks_touched};
use crate::ranges::{subtract_spec, subtract_ranges, canonical, covers, range_has,
    lemma_subtract_spec};

verus! {

pub type SpanId = u64;

/// The residency of a span's tokens.
#[derive(Clone, Debug, PartialEq)]
pub enum SpanState {
    Active,
    PartiallyEvicted { remaining_ranges: Vec<Range<usize>> },
    FullyEvicted,
}

/// The mathematical content of a `SpanState`.
pub enum StateView {
    Active,
    Partial(Seq<Range<usize>>),
    Fully,
}

impl View for SpanState {
    type V = StateView;

    open spec fn view(&self) -> StateView {
        match self {
            SpanState::Active => StateView::Active,
            SpanState::PartiallyEvicted { remaining_ranges } => StateView::Partial(
                remaining_ranges@,
            ),
            SpanState::FullyEvicted => StateView::Fully,
        }
    }
}

/// A token range owned by one cache slot.
#[derive(Clone, Debug, PartialEq)]
pub struct CacheSpan {
    pub id: SpanId,
    pub slot: usize,
    pub start_pos: usize,
    pub end_pos: usize,
    pub state: SpanState,
}

/// The mathematical content of a `CacheSpan`.
pub struct SpanView {
    pub id: SpanId,
    pub slot: usize,
    pub start_pos: usize,
    pub end_pos: usize,
    pub state: StateView,
}

impl View for CacheSpan {
    type V = SpanView;

    open spec fn view(&self) -> SpanView {
        SpanView {
            id: self.id,
            slot: self.slot,
            start_pos: self.start_pos,
            end_pos: self.end_pos,
            state: self.state@,
        }
    }
}

impl CacheSpan {
    /// A new, fully resident span.
    pub fn new(id: SpanId, slot: usize, start_pos: usize, end_pos: usize) -> (s: Self)
        ensures
            s@ == (SpanView { id, slot, start_pos, end_pos, state: StateView::Active }),
    {
        CacheSpan { id, slot, start_pos, end_pos, state: SpanState::Active }
    }

    pub fn is_fully_evicted(&self) -> (r: bool)
        ensures
            r == (self@.state is Fully),
    {
        match self.state {
            SpanState::FullyEvicted => true,
            _ => false,
        }
    }
}

/// Why a span could not be registered.
#[derive(Clone, Copy, Debug, PartialEq, Eq)]
pub enum SpanError {
    DuplicateId(SpanId),
}

/// All spans, keyed by id.
#[derive(Clone, Debug)]
pub struct SpanRegistry {
    spans: Vec<CacheSpan>,
}

/// No two spans share an id.
pub open spec fn ids_unique(s: Seq<SpanView>) -> bool {
    forall|i: int, j: int| 0 <= i < j < s.len() ==> (#[trigger] s[i]).id != (#[trigger] s[j]).id
}

/// The index of span `id`, if registered.
pub open spec fn span_index(s: Seq<SpanView>, id: SpanId) -> Option<int> {
    if exists|i: int| 0 <= i < s.len() && (#[trigger] s[i]).id == id {
        Some(choose|i: int| 0 <= i < s.len() && (#[trigger] s[i]).id == id)
    } else {
        None
    }
}

impl SpanRegistry {
    pub closed spec fn spec_spans(&self) -> Seq<SpanView> {
        self.spans@.map_values(|s: CacheSpan| s@)
    }

    pub open spec fn wf(&self) -> bool {
        ids_unique(self.spec_spans())
    }

    pub fn new() -> (r: Self)
        ensures
            r.spec_spans() == Seq::<SpanView>::empty(),
            r.wf(),
    {
        let r = SpanRegistry { spans: Vec::new() };
        assert(r.spec_spans() =~= Seq::<SpanView>::empty());
        r
    }

    /// Register a span; an id already present is refused and nothing changes.
    pub fn register(&mut self, span: CacheSpan) -> (r: Result<(), SpanError>)
        requires
            old(self).wf(),
        ensures
            final(self).wf(),
            (exists|i: int|
                0 <= i < old(self).spec_spans().len() && (#[trigger] old(self).spec_spans()[i]).id
                    == span.id) ==> r == Err::<(), SpanError>(SpanError::DuplicateId(span.id))
                && final(self).spec_spans() == old(self).spec_spans(),
            !(exists|i: int|
                0 <= i < old(self).spec_spans().len() && (#[trigger] old(self).spec_spans()[i]).id
                    == span.id) ==> r is Ok && final(self).spec_spans() == old(
                self,
            ).spec_spans().push(span@),
    {
        let mut i: usize = 0;
        while i < self.spans.len()
            invariant
                i <= self.spans@.len(),
                self.spec_spans() == old(self).spec_spans(),
                self.wf(),
                forall|j: int| 0 <= j < i ==> (#[trigger] self.spec_spans()[j]).id != span.id,
            decreases self.spans@.len() - i,
        {
            if self.spans[i].id == span.id {
                assert(self.spec_spans()[i as int].id == span.id);
                return Err(SpanError::DuplicateId(span.id));
            }
            i = i + 1;
        }
        let ghost sid = span.id;
        let ghost sv = span@;
        self.spans.push(span);
        assert(self.spec_spans() =~= old(self).spec_spans().push(sv));
        Ok(())
    }

    /// The span with this id.
    pub fn get(&self, id: SpanId) -> (r: Option<&CacheSpan>)
        requires
            self.wf(),
        ensures
            span_index(self.spec_spans(), id) is None ==> r is None,
            span_index(self.spec_spans(), id) matches Some(i) ==> r matches Some(s) && s@
                == self.spec_spans()[i],
    {
        match self.find(id) {
            Some(i) => Some(&self.spans[i]),
            None => None,
        }
    }

    fn find(&self, id: SpanId) -> (r: Option<usize>)
        requires
            self.wf(),
        ensures
            r is None ==> span_index(self.spec_spans(), id) is None,
            r matches Some(i) ==> span_index(self.spec_spans(), id) == Some(i as int) && i
                < self.spans@.len(),
    {
        let mut i: usize = 0;
        while i < self.spans.len()
            invariant
                i <= self.spans@.len(),
                self.wf(),
                forall|j: int| 0 <= j < i ==> (#[trigger] self.spec_spans()[j]).id != id,
            decreases self.spans@.len() - i,
        {
            if self.spans[i].id == id {
                assert(self.spec_spans()[i as int].id == id);
                proof {
                    let k = choose|k: int|
                        0 <= k < self.spec_spans().len() && (#[trigger] self.spec_spans()[k]).id
                            == id;
                    if k != i {
                        if k < i {
                            assert(self.spec_spans()[k].id != id);
                        } else {
                            assert(ids_unique(self.spec_spans()));
                            assert(self.spec_spans()[i as int].id != self.spec_spans()[k].id);
                        }
                    }
                }
                return Some(i);
            }
            i = i + 1;
        }
        None
    }

    fn set_state(&mut self, i: usize, state: SpanState)
        requires
            i < old(self).spec_spans().len(),
            old(self).wf(),
        ensures
            final(self).wf(),
            final(self).spec_spans() == old(self).spec_spans().update(
                i as int,
                SpanView { state: state@, ..old(self).spec_spans()[i as int] },
            ),
    {
        let s = CacheSpan {
            id: self.spans[i].id,
            slot: self.spans[i].slot,
            start_pos: self.spans[i].start_pos,
            end_pos: self.spans[i].end_pos,
            state,
        };
        let ghost sv = s@;
        self.spans.set(i, s);
        assert(self.spec_spans() =~= old(self).spec_spans().update(
            i as int,
            SpanView { state: sv.state, ..old(self).spec_spans()[i as int] },
        ));
        assert forall|a: int, b: int|
            0 <= a < b < self.spec_spans().len() implies (#[trigger] self.spec_spans()[a]).id
            != (#[trigger] self.spec_spans()[b]).id by {
            assert(self.spec_spans()[a].id == old(self).spec_spans()[a].id);
            assert(self.spec_spans()[b].id == old(self).spec_spans()[b].id);
        }
    }
}

/// Span `i` lives in `slot` and may still hold tokens.
pub open spec fn live_at(reg: Seq<SpanView>, slot: usize, i: int) -> bool {
    0 <= i < reg.len() && reg[i].slot == slot && !(reg[i].state is Fully)
}

/// Some live span of `slot` has this id.
pub open spec fn is_live(reg: Seq<SpanView>, slot: usize, id: SpanId) -> bool {
    exists|i: int| #[trigger] live_at(reg, slot, i) && reg[i].id == id
}

pub open spec fn in_pair(p: (int, int), b: int) -> bool {
    p.0 <= b < p.1
}

/// Block `b` lies wholly inside some live victim span.
pub open spec fn victim_covers(
    reg: Seq<SpanView>,
    slot: usize,
    victims: Seq<SpanId>,
    bs: usize,
    b: int,
) -> bool {
    exists|i: int|
        #[trigger] live_at(reg, slot, i) && victims.contains(reg[i].id) && in_pair(
            fully_covered_spec(reg[i].start_pos as int, reg[i].end_pos as int, bs as int),
            b,
        )
}

/// Block `b` holds a token of some live span that is not a victim.
pub open spec fn survivor_touches(
    reg: Seq<SpanView>,
    slot: usize,
    victims: Seq<SpanId>,
    bs: usize,
    b: int,
) -> bool {
    exists|i: int|
        #[trigger] live_at(reg, slot, i) && !victims.contains(reg[i].id) && in_pair(
            touched_spec(reg[i].start_pos as int, reg[i].end_pos as int, bs as int),
            b,
        )
}

/// Block `b` may be evicted for these victims.
pub open spec fn block_chosen(
    reg: Seq<SpanView>,
    slot: usize,
    victims: Seq<SpanId>,
    bs: usize,
    session_blocks: usize,
    tail: Option<usize>,
    b: int,
) -> bool {
    &&& 0 <= b < session_blocks
    &&& tail != Some(b as usize)
    &&& victim_covers(reg, slot, victims, bs, b)
    &&& !survivor_touches(reg, slot, victims, bs, b)
}

/// The evictable blocks below `n`, ascending.
pub open spec fn chosen_upto(
    reg: Seq<SpanView>,
    slot: usize,
    victims: Seq<SpanId>,
    bs: usize,
    session_blocks: usize,
    tail: Option<usize>,
    n: nat,
) -> Seq<usize>
    decreases n,
{
    if n == 0 {
        Seq::empty()
    } else {
        let prev = chosen_upto(reg, slot, victims, bs, session_blocks, tail, (n - 1) as nat);
        if block_chosen(reg, slot, victims, bs, session_blocks, tail, n - 1) {
            prev.push((n - 1) as usize)
        } else {
            prev
        }
    }
}

/// The block set a victim list yields: every block wholly inside a victim,
/// minus every block a survivor touches, the protected tail and anything at
/// or past `session_blocks`, ascending.
pub open spec fn victim_blocks(
    reg: Seq<SpanView>,
    slot: usize,
    victims: Seq<SpanId>,
    bs: usize,
    session_blocks: usize,
    tail: Option<usize>,
) -> Seq<usize> {
    chosen_upto(reg, slot, victims, bs, session_blocks, tail, session_blocks as nat)
}

/// The victim list after greedily taking ranked spans until `want` blocks
/// are reached (`want == 0` means no limit).
pub open spec fn plan_victims(
    reg: Seq<SpanView>,
    slot: usize,
    ranked: Seq<SpanId>,
    want: usize,
    bs: usize,
    session_blocks: usize,
    tail: Option<usize>,
) -> Seq<SpanId>
    decreases ranked.len(),
{
    if ranked.len() == 0 {
        Seq::empty()
    } else {
        let v = plan_victims(reg, slot, ranked.drop_last(), want, bs, session_blocks, tail);
        if want > 0 && victim_blocks(reg, slot, v, bs, session_blocks, tail).len() >= want {
            v
        } else if !is_live(reg, slot, ranked.last()) {
            v
        } else {
            v.push(ranked.last())
        }
    }
}

/// What was decided for eviction, in block coordinates.
#[derive(Clone, Debug, PartialEq, Eq)]
pub struct EvictionPlan {
    /// Logical blocks to evict: sorted, unique, each wholly inside a victim
    /// and touched by no survivor.
    pub blocks: Vec<usize>,
    /// The spans the plan implements, most-evictable first.
    pub victim_spans: Vec<SpanId>,
    /// The block holding the newest token; never in `blocks`.
    pub protected_tail: Option<usize>,
}

impl EvictionPlan {
    pub fn is_empty(&self) -> (r: bool)
        ensures
            r == (self.blocks@.len() == 0),
    {
        self.blocks.len() == 0
    }
}

proof fn lemma_chosen_upto_props(
    reg: Seq<SpanView>,
    slot: usize,
    victims: Seq<SpanId>,
    bs: usize,
    sb: usize,
    tail: Option<usize>,
    n: nat,
)
    ensures
        forall|k: int|
            0 <= k < chosen_upto(reg, slot, victims, bs, sb, tail, n).len() ==> (#[trigger] chosen_upto(
                reg,
                slot,
                victims,
                bs,
                sb,
                tail,
                n,
            )[k]) < n && block_chosen(
                reg,
                slot,
                victims,
                bs,
                sb,
                tail,
                chosen_upto(reg, slot, victims, bs, sb, tail, n)[k] as int,
            ),
        forall|j: int, k: int|
            0 <= j < k < chosen_upto(reg, slot, victims, bs, sb, tail, n).len() ==> (#[trigger] chosen_upto(
                reg,
                slot,
                victims,
                bs,
                sb,
                tail,
                n,
            )[j]) < (#[trigger] chosen_upto(reg, slot, victims, bs, sb, tail, n)[k]),
        forall|b: int|
            0 <= b < n && block_chosen(reg, slot, victims, bs, sb, tail, b) ==> chosen_upto(
                reg,
                slot,
                victims,
                bs,
                sb,
                tail,
                n,
            ).contains(b as usize),
    decreases n,
{
    if n > 0 {
        lemma_chosen_upto_props(reg, slot, victims, bs, sb, tail, (n - 1) as nat);
        let prev = chosen_upto(reg, slot, victims, bs, sb, tail, (n - 1) as nat);
        let cur = chosen_upto(reg, slot, victims, bs, sb, tail, n);
        assert forall|b: int|
            0 <= b < n && block_chosen(reg, slot, victims, bs, sb, tail, b) implies cur.contains(
            b as usize,
        ) by {
            if b < n - 1 {
                let k = choose|k: int| 0 <= k < prev.len() && prev[k] == b as usize;
                assert(cur[k] == prev[k]);
            } else {
                assert(cur[cur.len() - 1] == b as usize);
            }
        }
    }
}

proof fn lemma_chosen_upto_stable(
    reg: Seq<SpanView>,
    slot: usize,
    victims: Seq<SpanId>,
    bs: usize,
    sb: usize,
    tail: Option<usize>,
    lo: nat,
    n: nat,
)
    requires
        lo <= n,
        forall|b: int| lo <= b < n ==> !block_chosen(reg, slot, victims, bs, sb, tail, b),
    ensures
        chosen_upto(reg, slot, victims, bs, sb, tail, n) == chosen_upto(
            reg,
            slot,
            victims,
            bs,
            sb,
            tail,
            lo,
        ),
    decreases n,
{
    if n > lo {
        lemma_chosen_upto_stable(reg, slot, victims, bs, sb, tail, lo, (n - 1) as nat);
    }
}

/// The victim list contains `id`.
fn contains_id(v: &Vec<SpanId>, id: SpanId) -> (r: bool)
    ensures
        r == v@.contains(id),
{
    let mut i: usize = 0;
    while i < v.len()
        invariant
            i <= v@.len(),
            forall|j: int| 0 <= j < i ==> v@[j] != id,
        decreases v@.len() - i,
    {
        if v[i] == id {
            assert(v@[i as int] == id);
            return true;
        }
        i = i + 1;
    }
    false
}

/// Maps token-coordinate spans onto the allocator's logical blocks and
/// reconciles the resulting report back onto span state.
#[derive(Clone, Copy, Debug)]
pub struct SpanBlockMap {
    geom: crate::policies::PagedGeometry,
}

impl SpanBlockMap {
    pub closed spec fn spec_block_size(&self) -> usize {
        self.geom.spec_kv().block_size
    }

    pub closed spec fn spec_geom(&self) -> crate::policies::PagedGeometry {
        self.geom
    }

    pub fn new(geom: crate::policies::PagedGeometry) -> (r: Self)
        ensures
            r.spec_geom() == geom,
            r.spec_block_size() == geom.spec_kv().block_size,
    {
        SpanBlockMap { geom }
    }

    /// Whether block `b` may be evicted for `victims`, decided span by span.
    fn block_is_chosen(
        &self,
        registry: &SpanRegistry,
        slot: usize,
        victims: &Vec<SpanId>,
        session_blocks: usize,
        tail: Option<usize>,
        b: usize,
    ) -> (r: bool)
        ensures
            r == block_chosen(
                registry.spec_spans(),
                slot,
                victims@,
                self.spec_block_size(),
                session_blocks,
                tail,
                b as int,
            ),
    {
        let ghost reg = registry.spec_spans();
        let bs = self.geom.block_size();
        if b >= session_blocks {
            return false;
        }
        match tail {
            Some(t) => {
                if t == b {
                    return false;
                }
            },
            None => {},
        }
        let mut covered = false;
        let mut touched = false;
        let mut i: usize = 0;
        while i < registry.spans.len()
            invariant
                i <= registry.spans@.len(),
                reg == registry.spec_spans(),
                bs == self.spec_block_size(),
                covered == exists|j: int|
                    0 <= j < i && #[trigger] live_at(reg, slot, j) && victims@.contains(reg[j].id)
                        && in_pair(
                        fully_covered_spec(reg[j].start_pos as int, reg[j].end_pos as int, bs as int),
                        b as int,
                    ),
                touched == exists|j: int|
                    0 <= j < i && #[trigger] live_at(reg, slot, j) && !victims@.contains(reg[j].id)
                        && in_pair(
                        touched_spec(reg[j].start_pos as int, reg[j].end_pos as int, bs as int),
                        b as int,
                    ),
            decreases registry.spans@.len() - i,
        {
            let sp = &registry.spans[i];
            assert(reg[i as int] == sp@);
            if sp.slot == slot && !sp.is_fully_evicted() {
                assert(live_at(reg, slot, i as int));
                let rng = sp.start_pos..sp.end_pos;
                if contains_id(victims, sp.id) {
                    let fc = blocks_fully_covered(&rng, bs);
                    if fc.start <= b && b < fc.end {
                        covered = true;
                    }
                } else {
                    let tc = blocks_touched(&rng, bs);
                    if tc.start <= b && b < tc.end {
                        touched = true;
                    }
                }
            }
            i = i + 1;
        }
        covered && !touched
    }

    /// The block set for `victims`, ascending.
    fn blocks_for_victims(
        &self,
        registry: &SpanRegistry,
        slot: usize,
        victims: &Vec<SpanId>,
        session_blocks: usize,
        tail: Option<usize>,
    ) -> (r: Vec<usize>)
        ensures
            r@ == victim_blocks(
                registry.spec_spans(),
                slot,
                victims@,
                self.spec_block_size(),
                session_blocks,
                tail,
            ),
    {
        let ghost reg = registry.spec_spans();
        let bs = self.geom.block_size();
        // No block at or past `limit` lies wholly inside any span.
        let mut limit: usize = 0;
        let mut i: usize = 0;
        while i < registry.spans.len()
            invariant
                i <= registry.spans@.len(),
                reg == registry.spec_spans(),
                bs == self.spec_block_size(),
                forall|j: int, b: int|
                    0 <= j < i && in_pair(
                        fully_covered_spec(reg[j].start_pos as int, reg[j].end_pos as int, bs as int),
                        b,
                    ) ==> b < limit,
            decreases registry.spans@.len() - i,
        {
            let sp = &registry.spans[i];
            assert(reg[i as int] == sp@);
            let fc = blocks_fully_covered(&(sp.start_pos..sp.end_pos), bs);
            if fc.end > limit {
                limit = fc.end;
            }
            i = i + 1;
        }
        if limit > session_blocks {
            limit = session_blocks;
        }
        let mut out: Vec<usize> = Vec::new();
        let mut b: usize = 0;
        while b < limit
            invariant
                b <= limit,
                limit <= session_blocks,
                reg == registry.spec_spans(),
                bs == self.spec_block_size(),
                out@ == chosen_upto(reg, slot, victims@, bs, session_blocks, tail, b as nat),
            decreases limit - b,
        {
            if self.block_is_chosen(registry, slot, victims, session_blocks, tail, b) {
                out.push(b);
            }
            b = b + 1;
        }
        proof {
            assert forall|x: int| limit <= x < session_blocks implies !block_chosen(
                reg,
                slot,
                victims@,
                bs,
                session_blocks,
                tail,
                x,
            ) by {
                if victim_covers(reg, slot, victims@, bs, x) {
                    let j = choose|j: int|
                        #[trigger] live_at(reg, slot, j) && victims@.contains(reg[j].id) && in_pair(
                            fully_covered_spec(
                                reg[j].start_pos as int,
                                reg[j].end_pos as int,
                                bs as int,
                            ),
                            x,
                        );
                    assert(x < limit);
                }
            }
            lemma_chosen_upto_stable(
                reg,
                slot,
                victims@,
                bs,
                session_blocks,
                tail,
                limit as nat,
                session_blocks as nat,
            );
        }
        out
    }

    /// Turn a ranked span list (most-evictable first) into a block set,
    /// taking whole spans greedily until `want_blocks` blocks are reached
    /// (`0` means no limit). The last span taken may overshoot.
    pub fn plan(
        &self,
        registry: &SpanRegistry,
        slot: usize,
        ranked: &[SpanId],
        want_blocks: usize,
        session_blocks: usize,
        filled_tokens: usize,
    ) -> (p: EvictionPlan)
        requires
            filled_tokens > 0 ==> self.spec_block_size() > 0,
        ensures
            p.protected_tail == tail_block_spec(filled_tokens as int, self.spec_block_size() as int),
            p.victim_spans@ == plan_victims(
                registry.spec_spans(),
                slot,
                ranked@,
                want_blocks,
                self.spec_block_size(),
                session_blocks,
                p.protected_tail,
            ),
            p.blocks@ == victim_blocks(
                registry.spec_spans(),
                slot,
                p.victim_spans@,
                self.spec_block_size(),
                session_blocks,
                p.protected_tail,
            ),
    {
        let ghost reg = registry.spec_spans();
        let ghost bs = self.spec_block_size();
        let tail = self.geom.protected_tail_block(filled_tokens);
        let mut victims: Vec<SpanId> = Vec::new();
        let mut chosen: Vec<usize> = Vec::new();
        proof {
            assert forall|x: int| 0 <= x < session_blocks implies !block_chosen(
                reg,
                slot,
                Seq::<SpanId>::empty(),
                bs,
                session_blocks,
                tail,
                x,
            ) by {}
            lemma_chosen_upto_stable(
                reg,
                slot,
                Seq::<SpanId>::empty(),
                bs,
                session_blocks,
                tail,
                0,
                session_blocks as nat,
            );
        }
        let mut k: usize = 0;
        assert(ranked@.take(0) =~= Seq::<SpanId>::empty());
        assert(ranked@.take(ranked@.len() as int) =~= ranked@);
        while k < ranked.len()
            invariant
                k <= ranked@.len(),
                reg == registry.spec_spans(),
                bs == self.spec_block_size(),
                tail == tail_block_spec(filled_tokens as int, bs as int),
                victims@ == plan_victims(
                    reg,
                    slot,
                    ranked@.take(k as int),
                    want_blocks,
                    bs,
                    session_blocks,
                    tail,
                ),
                chosen@ == victim_blocks(reg, slot, victims@, bs, session_blocks, tail),
                ranked@.take(ranked@.len() as int) == ranked@,
            ensures
                victims@ == plan_victims(
                    reg,
                    slot,
                    ranked@,
                    want_blocks,
                    bs,
                    session_blocks,
                    tail,
                ),
                chosen@ == victim_blocks(reg, slot, victims@, bs, session_blocks, tail),
            decreases ranked@.len() - k,
        {
            assert(ranked@.take(k + 1).drop_last() =~= ranked@.take(k as int));
            if want_blocks > 0 && chosen.len() >= want_blocks {
                proof {
                    lemma_plan_stops(
                        reg,
                        slot,
                        ranked@,
                        want_blocks,
                        bs,
                        session_blocks,
                        tail,
                        k as nat,
                        ranked@.len(),
                    );
                }
                break;
            }
            let id = ranked[k];
            if self.live_in(registry, slot, id) {
                victims.push(id);
                chosen = self.blocks_for_victims(registry, slot, &victims, session_blocks, tail);
            }
            k = k + 1;
        }
        EvictionPlan { blocks: chosen, victim_spans: victims, protected_tail: tail }
    }

    fn live_in(&self, registry: &SpanRegistry, slot: usize, id: SpanId) -> (r: bool)
        ensures
            r == is_live(registry.spec_spans(), slot, id),
    {
        let ghost reg = registry.spec_spans();
        let mut i: usize = 0;
        while i < registry.spans.len()
            invariant
                i <= registry.spans@.len(),
                reg == registry.spec_spans(),
                forall|j: int| 0 <= j < i ==> !(#[trigger] live_at(reg, slot, j) && reg[j].id == id),
            decreases registry.spans@.len() - i,
        {
            let sp = &registry.spans[i];
            assert(reg[i as int] == sp@);
            if sp.slot == slot && !sp.is_fully_evicted() && sp.id == id {
                assert(live_at(reg, slot, i as int));
                return true;
            }
            i = i + 1;
        }
        false
    }
}

proof fn lemma_plan_stops(
    reg: Seq<SpanView>,
    slot: usize,
    ranked: Seq<SpanId>,
    want: usize,
    bs: usize,
    sb: usize,
    tail: Option<usize>,
    k: nat,
    n: nat,
)
    requires
        k <= n <= ranked.len(),
        want > 0,
        victim_blocks(
            reg,
            slot,
            plan_victims(reg, slot, ranked.take(k as int), want, bs, sb, tail),
            bs,
            sb,
            tail,
        ).len() >= want,
    ensures
        plan_victims(reg, slot, ranked.take(n as int), want, bs, sb, tail) == plan_victims(
            reg,
            slot,
            ranked.take(k as int),
            want,
            bs,
            sb,
            tail,
        ),
    decreases n,
{
    if n > k {
        lemma_plan_stops(reg, slot, ranked, want, bs, sb, tail, k, (n - 1) as nat);
        assert(ranked.take(n as int).drop_last() =~= ranked.take(n - 1));
    }
}


/// The blocks taken from an evict-first score list: entries whose score is
/// not a usable eviction signal, the protected tail, and blocks at or past
/// `session_blocks` are skipped, until `want` blocks are taken (`0` = all).
pub open spec fn taken_blocks(
    scores: Seq<(usize, bool)>,
    want: usize,
    session_blocks: usize,
    tail: Option<usize>,
) -> Seq<usize>
    decreases scores.len(),
{
    if scores.len() == 0 {
        Seq::empty()
    } else {
        let t = taken_blocks(scores.drop_last(), want, session_blocks, tail);
        let (b, usable) = scores.last();
        if want > 0 && t.len() >= want {
            t
        } else if !usable || tail == Some(b) || b >= session_blocks {
            t
        } else {
            t.push(b)
        }
    }
}

/// Strictly ascending.
pub open spec fn strictly_sorted(s: Seq<usize>) -> bool {
    forall|i: int, j: int| 0 <= i < j < s.len() ==> (#[trigger] s[i]) < (#[trigger] s[j])
}

/// Insert `x` into a strictly ascending vector, keeping it strictly
/// ascending and without duplicates.
pub(crate) fn insert_sorted(v: &mut Vec<usize>, x: usize)
    requires
        strictly_sorted(old(v)@),
    ensures
        strictly_sorted(final(v)@),
        final(v)@.to_set() == old(v)@.to_set().insert(x),
{
    let mut i: usize = 0;
    while i < v.len()
        invariant
            i <= v@.len(),
            v@ == old(v)@,
            strictly_sorted(v@),
            forall|j: int| 0 <= j < i ==> v@[j] < x,
        ensures
            i <= v@.len(),
            v@ == old(v)@,
            forall|j: int| 0 <= j < i ==> v@[j] < x,
            i < v@.len() ==> v@[i as int] > x,
        decreases v@.len() - i,
    {
        if v[i] == x {
            assert(v@[i as int] == x);
            assert(v@.to_set() =~= old(v)@.to_set().insert(x));
            return;
        }
        if v[i] > x {
            break;
        }
        i = i + 1;
    }
    let ghost before = v@;
    v.insert(i, x);
    assert(v@ == before.insert(i as int, x));
    assert forall|a: int, b: int| 0 <= a < b < v@.len() implies (#[trigger] v@[a]) < (#[trigger] v@[b]) by {
        if b < i {
        } else if a < i && b == i {
        } else if a < i {
            assert(v@[b] == before[b - 1]);
        } else if a == i {
            assert(v@[b] == before[b - 1]);
            if b - 1 > i {
                assert(before[i as int] < before[b - 1]);
            }
        } else {
            assert(v@[a] == before[a - 1] && v@[b] == before[b - 1]);
        }
    }
    assert forall|y: usize| #[trigger] v@.to_set().contains(y) <==> before.to_set().insert(x).contains(y) by {
        if v@.contains(y) {
            let k = choose|k: int| 0 <= k < v@.len() && v@[k] == y;
            if k < i {
                assert(before[k] == y);
            } else if k > i {
                assert(before[k - 1] == y);
            }
        }
        if before.contains(y) {
            let k = choose|k: int| 0 <= k < before.len() && before[k] == y;
            if k < i {
                assert(v@[k] == y);
            } else {
                assert(v@[k + 1] == y);
            }
        }
        if y == x {
            assert(v@[i as int] == x);
        }
    }
    assert(v@.to_set() =~= before.to_set().insert(x));
}

/// What an eviction did to one span.
#[derive(Clone, Debug, PartialEq)]
pub enum EvictionImpact {
    FullyEvicted,
    PartiallyEvicted { remaining: Vec<Range<usize>> },
    Unchanged,
}

/// The mathematical content of an `EvictionImpact`.
pub enum ImpactView {
    Fully,
    Partial(Seq<Range<usize>>),
    Unchanged,
}

impl View for EvictionImpact {
    type V = ImpactView;

    open spec fn view(&self) -> ImpactView {
        match self {
            EvictionImpact::FullyEvicted => ImpactView::Fully,
            EvictionImpact::PartiallyEvicted { remaining } => ImpactView::Partial(remaining@),
            EvictionImpact::Unchanged => ImpactView::Unchanged,
        }
    }
}

/// The allocator's answer to an eviction: logical blocks whose contents are
/// gone, and logical blocks left resident because another session shares
/// them.
#[derive(Clone, Debug, PartialEq, Eq)]
pub struct EvictReport {
    pub freed: Vec<usize>,
    pub still_shared: Vec<usize>,
}

/// What an eviction did, reconciled onto spans.
#[derive(Clone, Debug, PartialEq)]
pub struct EvictionOutcome {
    /// Per victim span, how it was affected.
    pub impacts: Vec<(SpanId, EvictionImpact)>,
    /// Blocks whose contents are gone.
    pub blocks_freed: Vec<usize>,
    /// Blocks still resident because another session references them; their
    /// tokens are still valid.
    pub blocks_still_resident: Vec<usize>,
}

/// The token ranges a span still holds, per its state.
pub open spec fn base_ranges(s: SpanView) -> Seq<Range<usize>> {
    match s.state {
        StateView::Active => seq![s.start_pos..s.end_pos],
        StateView::Partial(r) => r,
        StateView::Fully => Seq::empty(),
    }
}

/// Each of `base` with every cut removed, concatenated in order.
pub open spec fn flat_subtract(base: Seq<Range<usize>>, cuts: Seq<Range<usize>>) -> Seq<Range<usize>>
    decreases base.len(),
{
    if base.len() == 0 {
        Seq::empty()
    } else {
        flat_subtract(base.drop_last(), cuts) + subtract_spec(base.last(), cuts)
    }
}

/// The token range of each freed block.
pub open spec fn cuts_of(freed: Seq<usize>, bs: usize) -> Seq<Range<usize>> {
    freed.map_values(|b: usize| ((b * bs) as usize)..(((b + 1) * bs) as usize))
}

/// A span's new state and the reported impact, given the cuts of one round.
/// Only what the span still held is cut; a span nothing was taken from
/// keeps its state.
pub open spec fn reconcile(s: SpanView, cuts: Seq<Range<usize>>) -> (StateView, ImpactView) {
    let base = base_ranges(s);
    let rem = flat_subtract(base, cuts);
    if rem.len() == 0 {
        (StateView::Fully, ImpactView::Fully)
    } else if rem == base {
        (s.state, ImpactView::Unchanged)
    } else {
        (StateView::Partial(rem), ImpactView::Partial(rem))
    }
}

/// Registry and impacts after reconciling each victim in turn.
pub open spec fn apply_fold(reg: Seq<SpanView>, victims: Seq<SpanId>, cuts: Seq<Range<usize>>) -> (
    Seq<SpanView>,
    Seq<(SpanId, ImpactView)>,
)
    decreases victims.len(),
{
    if victims.len() == 0 {
        (reg, Seq::empty())
    } else {
        let (r, imps) = apply_fold(reg, victims.drop_last(), cuts);
        let id = victims.last();
        match span_index(r, id) {
            None => (r, imps),
            Some(i) => {
                let (st, im) = reconcile(r[i], cuts);
                (r.update(i, SpanView { state: st, ..r[i] }), imps.push((id, im)))
            },
        }
    }
}

pub open spec fn impacts_view(v: Seq<(SpanId, EvictionImpact)>) -> Seq<(SpanId, ImpactView)> {
    v.map_values(|p: (SpanId, EvictionImpact)| (p.0, p.1@))
}

fn copy_usizes(v: &Vec<usize>) -> (r: Vec<usize>)
    ensures
        r@ == v@,
{
    let mut r: Vec<usize> = Vec::new();
    let mut i: usize = 0;
    while i < v.len()
        invariant
            i <= v@.len(),
            r@ == v@.take(i as int),
        decreases v@.len() - i,
    {
        r.push(v[i]);
        i = i + 1;
        assert(r@ =~= v@.take(i as int));
    }
    assert(v@.take(v@.len() as int) =~= v@);
    r
}

fn copy_ranges(v: &Vec<Range<usize>>) -> (r: Vec<Range<usize>>)
    ensures
        r@ == v@,
{
    let mut r: Vec<Range<usize>> = Vec::new();
    let mut i: usize = 0;
    while i < v.len()
        invariant
            i <= v@.len(),
            r@ == v@.take(i as int),
        decreases v@.len() - i,
    {
        r.push(v[i].start..v[i].end);
        i = i + 1;
        assert(r@ =~= v@.take(i as int));
    }
    assert(v@.take(v@.len() as int) =~= v@);
    r
}

fn ranges_equal(a: &Vec<Range<usize>>, b: &Vec<Range<usize>>) -> (r: bool)
    ensures
        r == (a@ == b@),
{
    if a.len() != b.len() {
        return false;
    }
    let mut i: usize = 0;
    while i < a.len()
        invariant
            i <= a@.len(),
            a@.len() == b@.len(),
            forall|j: int| 0 <= j < i ==> a@[j] == b@[j],
        decreases a@.len() - i,
    {
        if a[i].start != b[i].start || a[i].end != b[i].end {
            return false;
        }
        i = i + 1;
    }
    assert(a@ =~= b@);
    true
}

impl SpanBlockMap {
    /// Turn per-block scores (evict-first order; the flag says whether the
    /// score is a usable eviction signal) into a block set, ascending and
    /// without duplicates. The plan names no spans.
    pub fn plan_from_block_scores(
        &self,
        scores: &[(usize, bool)],
        want_blocks: usize,
        session_blocks: usize,
        filled_tokens: usize,
    ) -> (p: EvictionPlan)
        requires
            filled_tokens > 0 ==> self.spec_block_size() > 0,
        ensures
            p.protected_tail == tail_block_spec(filled_tokens as int, self.spec_block_size() as int),
            p.victim_spans@.len() == 0,
            strictly_sorted(p.blocks@),
            p.blocks@.to_set() == taken_blocks(
                scores@,
                want_blocks,
                session_blocks,
                p.protected_tail,
            ).to_set(),
    {
        let tail = self.geom.protected_tail_block(filled_tokens);
        let mut taken: Vec<usize> = Vec::new();
        let mut k: usize = 0;
        assert(scores@.take(0) =~= Seq::<(usize, bool)>::empty());
        assert(scores@.take(scores@.len() as int) =~= scores@);
        while k < scores.len()
            invariant
                k <= scores@.len(),
                taken@ == taken_blocks(scores@.take(k as int), want_blocks, session_blocks, tail),
                scores@.take(scores@.len() as int) == scores@,
            ensures
                taken@ == taken_blocks(scores@, want_blocks, session_blocks, tail),
            decreases scores@.len() - k,
        {
            assert(scores@.take(k + 1).drop_last() =~= scores@.take(k as int));
            if want_blocks > 0 && taken.len() >= want_blocks {
                proof {
                    lemma_taken_stops(scores@, want_blocks, session_blocks, tail, k as nat, scores@.len());
                }
                break;
            }
            let (b, usable) = scores[k];
            let is_tail = match tail {
                Some(t) => t == b,
                None => false,
            };
            if usable && !is_tail && b < session_blocks {
                taken.push(b);
            }
            k = k + 1;
        }
        let mut blocks: Vec<usize> = Vec::new();
        let mut i: usize = 0;
        while i < taken.len()
            invariant
                i <= taken@.len(),
                strictly_sorted(blocks@),
                blocks@.to_set() == taken@.take(i as int).to_set(),
            decreases taken@.len() - i,
        {
            insert_sorted(&mut blocks, taken[i]);
            proof {
                assert(taken@.take(i + 1) =~= taken@.take(i as int).push(taken@[i as int]));
                taken@.take(i as int).lemma_push_to_set_commute(taken@[i as int]);
            }
            i = i + 1;
        }
        assert(taken@.take(taken@.len() as int) =~= taken@);
        EvictionPlan { blocks, victim_spans: Vec::new(), protected_tail: tail }
    }

    /// Reconcile the allocator's report onto span state. Each victim loses
    /// exactly the tokens of the freed blocks from what it still held;
    /// blocks reported still shared are resident, so they are not cut.
    pub fn apply_report(
        &self,
        registry: &mut SpanRegistry,
        plan: &EvictionPlan,
        report: &EvictReport,
    ) -> (out: EvictionOutcome)
        requires
            old(registry).wf(),
            forall|i: int|
                0 <= i < report.freed@.len() ==> (#[trigger] report.freed@[i]) < usize::MAX && (
                report.freed@[i] + 1) * self.spec_block_size() <= usize::MAX,
            forall|i: int, j: int|
                0 <= i < report.freed@.len() && 0 <= j < report.still_shared@.len() ==> (#[trigger] report.freed@[i])
                    != (#[trigger] report.still_shared@[j]),
        ensures
            final(registry).wf(),
            (final(registry).spec_spans(), impacts_view(out.impacts@)) == apply_fold(
                old(registry).spec_spans(),
                plan.victim_spans@,
                cuts_of(report.freed@, self.spec_block_size()),
            ),
            out.blocks_freed@ == report.freed@,
            out.blocks_still_resident@ == report.still_shared@,
    {
        let ghost bs = self.spec_block_size();
        let mut cuts: Vec<Range<usize>> = Vec::new();
        let mut f: usize = 0;
        while f < report.freed.len()
            invariant
                f <= report.freed@.len(),
                bs == self.spec_block_size(),
                forall|i: int|
                    0 <= i < report.freed@.len() ==> (#[trigger] report.freed@[i]) < usize::MAX && (
                    report.freed@[i] + 1) * bs <= usize::MAX,
                cuts@ == cuts_of(report.freed@.take(f as int), bs),
            decreases report.freed@.len() - f,
        {
            let r = self.geom.token_range_of_block(report.freed[f]);
            cuts.push(r);
            f = f + 1;
            assert(cuts@ =~= cuts_of(report.freed@.take(f as int), bs));
        }
        assert(report.freed@.take(report.freed@.len() as int) =~= report.freed@);
        let ghost cs = cuts@;
        let mut impacts: Vec<(SpanId, EvictionImpact)> = Vec::new();
        let mut k: usize = 0;
        let ghost victims = plan.victim_spans@;
        assert(victims.take(0) =~= Seq::<SpanId>::empty());
        assert(impacts_view(impacts@) =~= Seq::<(SpanId, ImpactView)>::empty());
        while k < plan.victim_spans.len()
            invariant
                k <= victims.len(),
                victims == plan.victim_spans@,
                cuts@ == cs,
                registry.wf(),
                (registry.spec_spans(), impacts_view(impacts@)) == apply_fold(
                    old(registry).spec_spans(),
                    victims.take(k as int),
                    cs,
                ),
            decreases victims.len() - k,
        {
            let id = plan.victim_spans[k];
            assert(victims.take(k + 1).drop_last() =~= victims.take(k as int));
            assert(victims.take(k + 1).last() == id);
            match registry.find(id) {
                None => {},
                Some(i) => {
                    let ghost sv = registry.spec_spans()[i as int];
                    let start = registry.spans[i].start_pos;
                    let end = registry.spans[i].end_pos;
                    let base: Vec<Range<usize>> = match &registry.spans[i].state {
                        SpanState::Active => {
                            let mut b: Vec<Range<usize>> = Vec::new();
                            b.push(start..end);
                            b
                        },
                        SpanState::PartiallyEvicted { remaining_ranges } => copy_ranges(
                            remaining_ranges,
                        ),
                        SpanState::FullyEvicted => Vec::new(),
                    };
                    assert(base@ =~= base_ranges(sv));
                    let mut rem: Vec<Range<usize>> = Vec::new();
                    let mut q: usize = 0;
                    while q < base.len()
                        invariant
                            q <= base@.len(),
                            cuts@ == cs,
                            rem@ == flat_subtract(base@.take(q as int), cs),
                        decreases base@.len() - q,
                    {
                        let mut part = subtract_ranges(base[q].start..base[q].end, cuts.as_slice());
                        assert(base@.take(q + 1).drop_last() =~= base@.take(q as int));
                        assert((base[q as int].start..base[q as int].end) == base@[q as int]);
                        rem.append(&mut part);
                        q = q + 1;
                    }
                    assert(base@.take(base@.len() as int) =~= base@);
                    let ghost recon = reconcile(sv, cs);
                    if rem.len() == 0 {
                        registry.set_state(i, SpanState::FullyEvicted);
                        impacts.push((id, EvictionImpact::FullyEvicted));
                    } else if ranges_equal(&rem, &base) {
                        let kept = match &registry.spans[i].state {
                            SpanState::Active => SpanState::Active,
                            SpanState::PartiallyEvicted { remaining_ranges } => {
                                SpanState::PartiallyEvicted { remaining_ranges: copy_ranges(remaining_ranges) }
                            },
                            SpanState::FullyEvicted => SpanState::FullyEvicted,
                        };
                        assert(kept@ == sv.state);
                        registry.set_state(i, kept);
                        impacts.push((id, EvictionImpact::Unchanged));
                    } else {
                        let rem2 = copy_ranges(&rem);
                        registry.set_state(i, SpanState::PartiallyEvicted { remaining_ranges: rem2 });
                        impacts.push((id, EvictionImpact::PartiallyEvicted { remaining: rem }));
                    }
                    assert(impacts_view(impacts@) =~= apply_fold(
                        old(registry).spec_spans(),
                        victims.take(k as int),
                        cs,
                    ).1.push((id, recon.1)));
                },
            }
            k = k + 1;
        }
        assert(victims.take(victims.len() as int) =~= victims);
        EvictionOutcome {
            impacts,
            blocks_freed: copy_usizes(&report.freed),
            blocks_still_resident: copy_usizes(&report.still_shared),
        }
    }
}

proof fn lemma_taken_stops(
    scores: Seq<(usize, bool)>,
    want: usize,
    sb: usize,
    tail: Option<usize>,
    k: nat,
    n: nat,
)
    requires
        k <= n <= scores.len(),
        want > 0,
        taken_blocks(scores.take(k as int), want, sb, tail).len() >= want,
    ensures
        taken_blocks(scores.take(n as int), want, sb, tail) == taken_blocks(
            scores.take(k as int),
            want,
            sb,
            tail,
        ),
    decreases n,
{
    if n > k {
        lemma_taken_stops(scores, want, sb, tail, k, (n - 1) as nat);
        assert(scores.take(n as int).drop_last() =~= scores.take(n - 1));
    }
}


/// Entry `e` of a score list may be evicted: its score is usable, it is not
/// the protected tail, and it lies inside the session.
pub open spec fn evictable(e: (usize, bool), session_blocks: usize, tail: Option<usize>) -> bool {
    e.1 && tail != Some(e.0) && e.0 < session_blocks
}

/// The evictable blocks of a score list, in its order.
pub open spec fn evictable_blocks(scores: Seq<(usize, bool)>, session_blocks: usize, tail: Option<usize>) -> Seq<
    usize,
> {
    scores.filter(|e: (usize, bool)| evictable(e, session_blocks, tail)).map_values(
        |e: (usize, bool)| e.0,
    )
}

/// A score list's blocks are taken in order until `want` are reached: the
/// blocks taken are the evictable ones in score order, cut to the first
/// `want` when there are more (`want == 0` takes them all).  So a plan is
/// never short while evictable blocks remain, and never longer than asked.
pub proof fn law_blocks_are_taken_until_want_is_reached(
    scores: Seq<(usize, bool)>,
    want: usize,
    session_blocks: usize,
    tail: Option<usize>,
)
    ensures
        ({
            let e = evictable_blocks(scores, session_blocks, tail);
            taken_blocks(scores, want, session_blocks, tail) == if want > 0 && e.len() > want {
                e.take(want as int)
            } else {
                e
            }
        }),
    decreases scores.len(),
{
    let f = |e: (usize, bool)| evictable(e, session_blocks, tail);
    let g = |e: (usize, bool)| e.0;
    if scores.len() > 0 {
        let pre = scores.drop_last();
        law_blocks_are_taken_until_want_is_reached(pre, want, session_blocks, tail);
        reveal(Seq::filter);
        let fe = scores.filter(f);
        let fp = pre.filter(f);
        assert(fe == if f(scores.last()) {
            fp.push(scores.last())
        } else {
            fp
        });
        let e = fe.map_values(g);
        let ep = fp.map_values(g);
        if f(scores.last()) {
            assert(e =~= ep.push(scores.last().0));
            if want > 0 && ep.len() >= want {
                assert(e.take(want as int) =~= ep.take(want as int));
            }
        } else {
            assert(e =~= ep);
        }
    } else {
        reveal(Seq::filter);
        assert(evictable_blocks(scores, session_blocks, tail) =~= Seq::<usize>::empty());
    }
}

} // verus!
