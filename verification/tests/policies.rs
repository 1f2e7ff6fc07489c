use std::collections::BTreeSet;
use std::ops::Range;

use lightbulb::batched::{admit_step, StepRejection};
use lightbulb::eviction::{
    CacheSpan, EvictReport, EvictionImpact, EvictionPlan, SpanBlockMap, SpanError, SpanId,
    SpanRegistry, SpanState,
};
use lightbulb::policies::{
    blocks_fully_covered, blocks_touched, floor_align_prefix, identity_positions, splice_postcheck,
    splice_precheck, AdmissionDecision, AllocError, BlockTierMover, KvGeometry, PagedAdmission,
    PagedGeometry, PolicyError,
};
use lightbulb::prefix_index::{BlockPrefixIndex, SessionHandle};
use lightbulb::ranges::subtract_ranges;

fn geom(num_blocks: usize, block_size: usize) -> PagedGeometry {
    PagedGeometry::from_kv(KvGeometry {
        n_layers: 1,
        num_blocks,
        block_size,
        n_kv_heads: 1,
        head_dim: 2,
        elem_size: 4,
    })
}

/// Blocks a pool of `bs`-token blocks allocates to grow a session holding
/// `filled` tokens by `add`: whole blocks of the new fill minus those of the
/// old.
fn blocks_required(filled: usize, add: usize, bs: usize) -> usize {
    (filled + add).div_ceil(bs) - filled.div_ceil(bs)
}

// ---------------------------------------------------------------------------
// Coordinate conversion
// ---------------------------------------------------------------------------

#[test]
fn blocks_fully_covered_excludes_straddling_blocks() {
    assert_eq!(blocks_fully_covered(&(6..14), 4), 2..3);
    assert_eq!(blocks_fully_covered(&(8..16), 4), 2..4);
    assert_eq!(blocks_fully_covered(&(5..7), 4), 0..0);
    assert_eq!(blocks_fully_covered(&(0..0), 4), 0..0);
}

#[test]
fn blocks_touched_includes_straddling_blocks() {
    assert_eq!(blocks_touched(&(6..14), 4), 1..4);
    assert_eq!(blocks_touched(&(8..16), 4), 2..4);
    assert_eq!(blocks_touched(&(5..7), 4), 1..2);
}

#[test]
fn control_boundary_block_separates_conservative_from_liberal() {
    let bs = 4;
    let a = 0..6;
    let b = 6..12;

    let conservative: BTreeSet<usize> = blocks_fully_covered(&a, bs).collect();
    let liberal: BTreeSet<usize> = blocks_touched(&a, bs).collect();

    assert_eq!(conservative, BTreeSet::from([0]), "only block 0 is entirely inside A");
    assert_eq!(liberal, BTreeSet::from([0, 1]), "A touches block 1 as well");
    assert_ne!(conservative, liberal);

    let boundary = 1usize;
    let g = geom(8, bs);
    let tr = g.token_range_of_block(boundary);
    assert!(b.start < tr.end && b.end > tr.start);
    assert!(!conservative.contains(&boundary));
    assert!(liberal.contains(&boundary));
}

#[test]
fn floor_align_prefix_splits_whole_blocks_from_the_remainder() {
    assert_eq!(floor_align_prefix(9, 4), (2, 1));
    assert_eq!(floor_align_prefix(8, 4), (2, 0));
    assert_eq!(floor_align_prefix(3, 4), (0, 3));
}

#[test]
fn the_protected_tail_is_the_block_of_the_newest_token() {
    let g = geom(16, 4);
    assert_eq!(g.protected_tail_block(0), None);
    assert_eq!(g.protected_tail_block(1), Some(0));
    assert_eq!(g.protected_tail_block(12), Some(2));
    assert_eq!(g.protected_tail_block(13), Some(3));
    assert_eq!(g.block_elems(), 8);
    assert_eq!(g.token_range_of_block(3), 12..16);
}

// ---------------------------------------------------------------------------
// Eviction planning
// ---------------------------------------------------------------------------

#[test]
fn plan_never_evicts_a_block_a_survivor_touches() {
    let g = geom(16, 4);
    let map = SpanBlockMap::new(g);
    let mut reg = SpanRegistry::new();
    reg.register(CacheSpan::new(1, 0, 0, 6)).unwrap();
    reg.register(CacheSpan::new(2, 0, 6, 12)).unwrap();

    let plan = map.plan(&reg, 0, &[1], 4, 3, 12);
    assert_eq!(plan.victim_spans, vec![1]);
    assert_eq!(plan.blocks, vec![0], "block 1 is shared with survivor B, block 2 is B's");
    assert_eq!(plan.protected_tail, Some(2), "token 11 lives in block 2");
}

#[test]
fn survivor_protection_actually_removes_a_fully_covered_block() {
    let bs = 4;
    let g = geom(16, bs);
    let map = SpanBlockMap::new(g);
    let mut reg = SpanRegistry::new();
    reg.register(CacheSpan::new(1, 0, 0, 8)).unwrap();
    reg.register(CacheSpan::new(2, 0, 6, 12)).unwrap();

    let contested = 1usize;
    assert!(blocks_fully_covered(&(0..8), bs).contains(&contested));
    assert!(blocks_touched(&(6..12), bs).contains(&contested));

    let plan = map.plan(&reg, 0, &[1], 4, 3, 12);
    assert_eq!(plan.victim_spans, vec![1]);
    assert_eq!(plan.blocks, vec![0]);
}

#[test]
fn plan_excludes_the_protected_tail_block() {
    let g = geom(16, 4);
    let map = SpanBlockMap::new(g);
    let mut reg = SpanRegistry::new();
    reg.register(CacheSpan::new(1, 0, 0, 12)).unwrap();
    let plan = map.plan(&reg, 0, &[1], 8, 3, 12);
    assert_eq!(plan.protected_tail, Some(2));
    assert_eq!(plan.blocks, vec![0, 1], "block 2 holds the newest token");
}

#[test]
fn plan_stops_once_enough_blocks_are_chosen_and_ignores_other_slots() {
    let g = geom(16, 4);
    let map = SpanBlockMap::new(g);
    let mut reg = SpanRegistry::new();
    reg.register(CacheSpan::new(1, 0, 0, 8)).unwrap();
    reg.register(CacheSpan::new(2, 0, 8, 16)).unwrap();
    reg.register(CacheSpan::new(3, 1, 0, 16)).unwrap();
    // Span 3 lives in slot 1 and is not a candidate for slot 0; span 1
    // already yields the two blocks wanted, so span 2 is not taken.
    let plan = map.plan(&reg, 0, &[3, 1, 2], 2, 8, 32);
    assert_eq!(plan.victim_spans, vec![1]);
    assert_eq!(plan.blocks, vec![0, 1]);
    assert!(!plan.is_empty());

    let none = map.plan(&reg, 0, &[], 2, 8, 32);
    assert!(none.is_empty());
    assert!(none.victim_spans.is_empty());
}

#[test]
fn a_span_id_registers_once() {
    let mut reg = SpanRegistry::new();
    assert!(reg.register(CacheSpan::new(7, 0, 0, 4)).is_ok());
    assert_eq!(reg.register(CacheSpan::new(7, 1, 4, 8)), Err(SpanError::DuplicateId(7)));
    assert_eq!(reg.get(7).unwrap().slot, 0);
    assert!(reg.get(8).is_none());
}

#[test]
fn h2o_plan_skips_protected_tail_nan_and_out_of_range_blocks() {
    let g = geom(16, 4);
    let map = SpanBlockMap::new(g);
    // (block, whether its score is usable): +INF and finite scores are; NaN
    // and -INF are not.
    let raw: Vec<(usize, f32)> = vec![
        (0, f32::INFINITY),
        (2, 5.0),
        (7, 4.0),
        (1, f32::NAN),
        (3, f32::NEG_INFINITY),
        (4, 2.0),
    ];
    let scores: Vec<(usize, bool)> = raw
        .iter()
        .map(|&(b, s)| (b, !s.is_nan() && s != f32::NEG_INFINITY))
        .collect();
    let plan = map.plan_from_block_scores(&scores, 8, 6, 12);
    assert_eq!(plan.protected_tail, Some(2));
    assert_eq!(plan.blocks, vec![0, 4]);
    assert!(plan.victim_spans.is_empty(), "H2O ranks blocks, not spans");
}

// ---------------------------------------------------------------------------
// Admission
// ---------------------------------------------------------------------------

#[test]
fn admission_agrees_with_the_allocator() {
    let adm = PagedAdmission::new(0);
    let need = blocks_required(0, 16, 4);
    assert_eq!(adm.verdict(need, 4), AdmissionDecision::Admit { blocks_needed: 4 });
    let need = blocks_required(16, 1, 4);
    assert_eq!(
        adm.verdict(need, 0),
        AdmissionDecision::Reject { blocks_needed: 1, blocks_available: 0 }
    );
}

#[test]
fn admission_reserve_is_a_lightbulb_policy_not_a_fuel_fact() {
    let s0 = PagedAdmission::new(0);
    let s2 = PagedAdmission::new(2);
    let need = blocks_required(0, 16, 4);
    assert!(s0.verdict(need, 4).is_admit());
    assert!(!s2.verdict(need, 4).is_admit());
    assert_eq!(
        s2.verdict(need, 4),
        AdmissionDecision::Reject { blocks_needed: 4, blocks_available: 2 }
    );
    assert_eq!(s2.reserve_blocks(), 2);
}

#[test]
fn control_off_by_one_block_math_is_caught() {
    let correct = blocks_required(0, 16, 4);
    let wrong = (16 / 4) + 1;
    assert_eq!(correct, 4);
    assert_ne!(correct, wrong);
    let adm = PagedAdmission::new(0);
    assert!(adm.verdict(correct, 4).is_admit());
    assert!(!adm.verdict(wrong, 4).is_admit());
}

#[test]
fn a_reserve_larger_than_the_free_blocks_leaves_nothing_available() {
    let adm = PagedAdmission::new(10);
    assert_eq!(
        adm.verdict(1, 3),
        AdmissionDecision::Reject { blocks_needed: 1, blocks_available: 0 }
    );
    assert!(adm.verdict(0, 3).is_admit());
}

// ---------------------------------------------------------------------------
// Prefix sharing
// ---------------------------------------------------------------------------

#[test]
fn prefix_index_returns_only_block_aligned_matches() {
    let mut idx = BlockPrefixIndex::new(4);
    let donor_tokens: Vec<u32> = (0..10).collect();
    let donor = SessionHandle { id: 1 };
    assert_eq!(idx.record(&donor_tokens, donor), 2, "only whole blocks are indexed");

    let mut q: Vec<u32> = (0..9).collect();
    q.push(999);
    let m = idx.lookup(&q).expect("2 full blocks match");
    assert_eq!(m.blocks, 2);
    assert_eq!(m.shared_tokens, 8);
    assert_eq!(m.remainder_tokens, 2);
    assert!(m.remainder_tokens >= 1);
    assert_eq!(idx.stats().hits, 1);
    assert_eq!(idx.stats().tokens_shared, 8);
}

#[test]
fn prefix_index_cannot_express_a_zero_block_hit() {
    let mut idx = BlockPrefixIndex::new(4);
    let donor = SessionHandle { id: 1 };
    assert_eq!(idx.record(&[1, 2, 3], donor), 0);
    assert!(idx.lookup(&[1, 2, 3]).is_none());
    assert_eq!(idx.stats().misses, 1);
    assert_eq!(idx.stats().hits, 0);
}

#[test]
fn donor_lifetime_is_tracked() {
    let mut idx = BlockPrefixIndex::new(4);
    let donor = SessionHandle { id: 3 };
    let toks: Vec<u32> = (0..8).collect();
    idx.record(&toks, donor);
    assert!(idx.is_donor(donor), "must not be discarded while indexed");
    assert_eq!(idx.donors().len(), 1);
    assert_eq!(idx.forget_donor(donor), 2);
    assert!(!idx.is_donor(donor));
    assert!(idx.lookup(&toks).is_none());
}

#[test]
fn a_divergent_first_block_is_a_miss_and_a_longer_match_wins() {
    let mut idx = BlockPrefixIndex::new(2);
    let a = SessionHandle { id: 1 };
    let b = SessionHandle { id: 2 };
    assert_eq!(idx.record(&[1, 2, 3, 4], a), 2);
    // b shares the first block with a; that block stays a's.
    assert_eq!(idx.record(&[1, 2, 3, 5, 6, 7], b), 2);
    let m = idx.lookup(&[1, 2, 3, 5, 6, 7, 8]).unwrap();
    assert_eq!(m.donor, b);
    assert_eq!(m.blocks, 3);
    assert_eq!(m.remainder_tokens, 1);
    assert!(idx.lookup(&[9, 9, 9]).is_none());
    let donors = idx.donors();
    assert_eq!(donors, vec![a, b]);
}

// ---------------------------------------------------------------------------
// Splicing
// ---------------------------------------------------------------------------

fn invariant_text(r: Result<usize, PolicyError>) -> String {
    match r {
        Err(e @ PolicyError::Invariant(_)) => e.to_string(),
        Err(e) => panic!("expected an invariant error, got {}", e.to_string()),
        Ok(n) => panic!("expected an invariant error, got Ok({n})"),
    }
}

#[test]
fn aligned_splice_is_admitted_with_its_projected_fill() {
    // Donor holds 2 full blocks and 2 spare tokens; splicing its 2 blocks
    // leaves 8 tokens, block-aligned.
    assert_eq!(splice_precheck(2, 4, Some(0), Some(3), Some(10)).ok(), Some(8));
    // A donor filled exactly to the match is aligned too.
    assert_eq!(splice_precheck(2, 4, Some(0), Some(2), Some(8)).ok(), Some(8));
}

#[test]
fn refused_splice_leaves_the_pool_completely_untouched() {
    // The donor holds 6 tokens in 2 blocks; a 2-block splice would leave 6.
    let msg = invariant_text(splice_precheck(2, 4, Some(0), Some(2), Some(6)));
    assert!(msg.contains("not block-aligned"), "{msg}");
    assert!(msg.contains("post-splice fill would be 6"), "{msg}");
}

#[test]
fn splice_prefix_refuses_a_non_empty_destination() {
    // Donor with 8 tokens, destination already holding 4.
    let msg = invariant_text(splice_precheck(2, 4, Some(4), Some(2), Some(8)));
    assert!(msg.contains("requires an empty destination"), "{msg}");
    assert!(msg.contains("dst holds 4 tokens"), "{msg}");
}

#[test]
fn splice_precheck_refuses_a_zero_block_match_and_unknown_sessions() {
    let msg = invariant_text(splice_precheck(0, 4, Some(0), Some(2), Some(8)));
    assert!(msg.contains("0 blocks"), "{msg}");
    assert!(matches!(
        splice_precheck(1, 4, None, Some(2), Some(8)),
        Err(PolicyError::Alloc(AllocError::UnknownSession))
    ));
    assert!(matches!(
        splice_precheck(1, 4, Some(0), None, Some(8)),
        Err(PolicyError::Alloc(AllocError::UnknownSession))
    ));
    assert!(matches!(
        splice_precheck(1, 4, Some(0), Some(2), None),
        Err(PolicyError::Alloc(AllocError::UnknownSession))
    ));
    let msg = invariant_text(splice_precheck(3, 4, Some(0), Some(2), Some(8)));
    assert!(msg.contains("donor holds 2 blocks but the match claims 3"), "{msg}");
}

#[test]
fn splice_postcheck_accepts_aligned_and_names_unaligned_fills() {
    assert_eq!(splice_postcheck(Some(8), 8, 4).ok(), Some(8));
    assert_eq!(splice_postcheck(None, 8, 4).ok(), Some(0));
    let msg = invariant_text(splice_postcheck(Some(7), 8, 4));
    assert!(msg.contains("post-splice fill 7 is not block-aligned (block_size=4)"), "{msg}");
    assert!(msg.starts_with("adapter invariant violated: "), "{msg}");
    let alloc = PolicyError::Alloc(AllocError::UnknownSession).to_string();
    assert_eq!(alloc, "KV allocator rejected the call: UnknownSession");
}

// ---------------------------------------------------------------------------
// Report reconciliation
// ---------------------------------------------------------------------------

fn wrong_apply_treating_shared_as_freed(
    g: &PagedGeometry,
    reg: &SpanRegistry,
    plan: &EvictionPlan,
    report: &EvictReport,
) -> Vec<(SpanId, EvictionImpact)> {
    let mut cuts: Vec<Range<usize>> =
        report.freed.iter().map(|&b| g.token_range_of_block(b)).collect();
    cuts.extend(report.still_shared.iter().map(|&b| g.token_range_of_block(b)));
    plan.victim_spans
        .iter()
        .filter_map(|&id| {
            let s = reg.get(id)?;
            let rem = subtract_ranges(s.start_pos..s.end_pos, &cuts);
            Some((
                id,
                if rem.is_empty() {
                    EvictionImpact::FullyEvicted
                } else {
                    EvictionImpact::PartiallyEvicted { remaining: rem }
                },
            ))
        })
        .collect()
}

#[test]
fn control_still_shared_blocks_must_not_be_recorded_as_evicted() {
    let bs = 4;
    let g = geom(16, bs);
    let map = SpanBlockMap::new(g);
    let mut reg = SpanRegistry::new();
    reg.register(CacheSpan::new(1, 0, 0, 8)).unwrap();
    let plan = EvictionPlan { blocks: vec![0, 1], victim_spans: vec![1], protected_tail: None };
    // Both blocks are shared with a spliced sitter, so nothing was detachable.
    let report = EvictReport { freed: vec![], still_shared: vec![0, 1] };

    let wrong = wrong_apply_treating_shared_as_freed(&g, &reg, &plan, &report);
    assert_eq!(wrong, vec![(1, EvictionImpact::FullyEvicted)]);

    let outcome = map.apply_report(&mut reg, &plan, &report);
    assert_eq!(outcome.impacts, vec![(1, EvictionImpact::Unchanged)]);
    assert_ne!(outcome.impacts, wrong);
    assert_eq!(outcome.blocks_still_resident, vec![0, 1]);
    assert!(outcome.blocks_freed.is_empty());
    assert_eq!(reg.get(1).unwrap().state, SpanState::Active);
}

#[test]
fn mixed_report_yields_partially_evicted_with_the_surviving_ranges() {
    let g = geom(16, 4);
    let map = SpanBlockMap::new(g);
    let mut reg = SpanRegistry::new();
    reg.register(CacheSpan::new(1, 0, 0, 12)).unwrap();
    let plan = EvictionPlan { blocks: vec![0, 1], victim_spans: vec![1], protected_tail: Some(2) };
    let report = EvictReport { freed: vec![1], still_shared: vec![0] };

    let outcome = map.apply_report(&mut reg, &plan, &report);
    assert_eq!(
        outcome.impacts,
        vec![(1, EvictionImpact::PartiallyEvicted { remaining: vec![0..4, 8..12] })]
    );
    assert_eq!(
        reg.get(1).unwrap().state,
        SpanState::PartiallyEvicted { remaining_ranges: vec![0..4, 8..12] }
    );
}

#[test]
fn apply_report_folds_across_eviction_rounds() {
    let g = geom(16, 4);
    let map = SpanBlockMap::new(g);
    let mut reg = SpanRegistry::new();
    reg.register(CacheSpan::new(1, 0, 0, 12)).unwrap();

    let plan1 = EvictionPlan { blocks: vec![0], victim_spans: vec![1], protected_tail: Some(2) };
    let r1 = EvictReport { freed: vec![0], still_shared: vec![] };
    let o1 = map.apply_report(&mut reg, &plan1, &r1);
    assert_eq!(o1.impacts, vec![(1, EvictionImpact::PartiallyEvicted { remaining: vec![4..12] })]);

    let plan2 = EvictionPlan { blocks: vec![1], victim_spans: vec![1], protected_tail: Some(2) };
    let r2 = EvictReport { freed: vec![1], still_shared: vec![] };
    let o2 = map.apply_report(&mut reg, &plan2, &r2);
    assert_eq!(o2.impacts, vec![(1, EvictionImpact::PartiallyEvicted { remaining: vec![8..12] })]);
    assert_eq!(
        reg.get(1).unwrap().state,
        SpanState::PartiallyEvicted { remaining_ranges: vec![8..12] }
    );

    let plan3 = EvictionPlan { blocks: vec![2], victim_spans: vec![1], protected_tail: None };
    let r3 = EvictReport { freed: vec![2], still_shared: vec![] };
    let o3 = map.apply_report(&mut reg, &plan3, &r3);
    assert_eq!(o3.impacts, vec![(1, EvictionImpact::FullyEvicted)]);
    assert_eq!(reg.get(1).unwrap().state, SpanState::FullyEvicted);

    let o4 = map.apply_report(&mut reg, &plan3, &r3);
    assert_eq!(o4.impacts, vec![(1, EvictionImpact::FullyEvicted)]);
    assert_eq!(reg.get(1).unwrap().state, SpanState::FullyEvicted);
    assert!(reg.get(1).unwrap().is_fully_evicted());
}

#[test]
fn fully_covered_span_becomes_fully_evicted() {
    let g = geom(16, 4);
    let map = SpanBlockMap::new(g);
    let mut reg = SpanRegistry::new();
    reg.register(CacheSpan::new(1, 0, 0, 8)).unwrap();
    let plan = EvictionPlan { blocks: vec![0, 1], victim_spans: vec![1], protected_tail: Some(2) };
    let report = EvictReport { freed: vec![0, 1], still_shared: vec![] };
    let outcome = map.apply_report(&mut reg, &plan, &report);
    assert_eq!(outcome.impacts, vec![(1, EvictionImpact::FullyEvicted)]);
    assert_eq!(reg.get(1).unwrap().state, SpanState::FullyEvicted);
}

#[test]
fn subtract_ranges_coalesces_and_handles_full_cover() {
    assert_eq!(subtract_ranges(0..12, &[4..8]), vec![0..4, 8..12]);
    assert_eq!(subtract_ranges(0..12, &[0..4, 4..8, 8..12]), Vec::<Range<usize>>::new());
    assert_eq!(subtract_ranges(0..12, &[]), vec![0..12]);
    assert_eq!(subtract_ranges(0..16, &[4..8, 8..12]), vec![0..4, 12..16]);
}

#[test]
fn subtract_ranges_ignores_cuts_outside_the_base() {
    assert_eq!(subtract_ranges(4..8, &[0..2, 10..12]), vec![4..8]);
    assert_eq!(subtract_ranges(4..8, &[2..5, 7..20]), vec![5..7]);
    assert_eq!(subtract_ranges(5..5, &[0..1]), Vec::<Range<usize>>::new());
}

#[test]
fn identity_positions_maps_every_position_to_itself() {
    let m = identity_positions(5);
    assert_eq!(m.len(), 5);
    for p in 0..5 {
        assert_eq!(m.get(&p), Some(&p));
    }
    assert!(m.get(&5).is_none());
    assert!(identity_positions(0).is_empty());
}

// ---------------------------------------------------------------------------
// Tier moves
// ---------------------------------------------------------------------------

#[test]
fn store_keys_are_zero_padded_and_cover_freed_blocks_only() {
    let mover = BlockTierMover::new(geom(16, 4), "sess7".to_string());
    assert_eq!(mover.key_for(3), "sess7.b000003");
    assert_eq!(mover.key_for(1234567), "sess7.b1234567");
    let keys = mover.keys_for(&[1, 12]);
    assert_eq!(keys, vec![(1, "sess7.b000001".to_string()), (12, "sess7.b000012".to_string())]);
    // n_layers=1, block_size=4, heads=1, head_dim=2: 8 floats per K or V.
    assert_eq!(mover.payload_len(), 16);
    assert_eq!(mover.kv_offsets(0), (0, 8));
}

// ---------------------------------------------------------------------------
// Batched step admission
// ---------------------------------------------------------------------------

#[test]
fn a_duplicated_session_in_one_batch_is_rejected() {
    let r = admit_step(&[4, 5, 4], &[Some(3), Some(1), Some(3)], &[false; 3], 4, 0, 10);
    assert_eq!(r, Err(StepRejection::DuplicateSession { first: 0, second: 2 }));
    let msg = StepRejection::DuplicateSession { first: 0, second: 2 }.to_string();
    assert!(msg.contains("session appears twice in one batch (rows 0 and 2)"), "{msg}");
}

#[test]
fn admission_counts_copies_of_shared_frontier_blocks() {
    // Row 0 is mid-block in a shared block: one copy. Row 1 starts a block:
    // no copy needed even though its previous block is shared.
    let ok = admit_step(&[1, 2], &[Some(5), Some(8)], &[true, true], 4, 1, 2);
    assert_eq!(ok, Ok(vec![5, 8]));
    let refused = admit_step(&[1, 2], &[Some(5), Some(8)], &[true, true], 4, 1, 1);
    assert_eq!(
        refused,
        Err(StepRejection::PoolExhausted { need: 2, cow_splits: 1, have: 1 })
    );
    assert_eq!(admit_step(&[], &[], &[], 4, 0, 1), Err(StepRejection::EmptyBatch));
    assert_eq!(
        admit_step(&[1, 2], &[Some(5), None], &[false, false], 4, 0, 9),
        Err(StepRejection::UnknownSession { row: 1 })
    );
    let msg = StepRejection::PoolExhausted { need: 2, cow_splits: 1, have: 1 }.to_string();
    assert!(msg.contains("needs 2 more block(s) (1 of them to break shared frontier blocks), 1 free"));
}

#[test]
fn admission_is_all_or_nothing_and_leaves_no_partial_growth() {
    // Three blocks of one token: every step starts a new block for every row.
    let (a, b, c) = (1u64, 2u64, 3u64);
    assert_eq!(admit_step(&[a, b, c], &[Some(0); 3], &[false; 3], 1, 3, 3), Ok(vec![0, 0, 0]));
    // Now nothing fits: the step is refused as a whole.
    let err = admit_step(&[a, b, c], &[Some(1); 3], &[false; 3], 1, 3, 0).unwrap_err();
    assert_eq!(err, StepRejection::PoolExhausted { need: 3, cow_splits: 0, have: 0 });
    assert!(err.to_string().contains("pool exhausted"), "{}", err.to_string());
    // Control: with one block free again, a one-row batch is admitted.
    assert_eq!(admit_step(&[a], &[Some(1)], &[false], 1, 1, 1), Ok(vec![1]));
}

#[test]
fn a_forgotten_donor_gives_way_to_another_that_holds_the_prefix() {
    let mut idx = BlockPrefixIndex::new(2);
    let a = SessionHandle { id: 1 };
    let b = SessionHandle { id: 2 };
    idx.record(&[1, 2, 3, 4, 5, 6], a);
    idx.record(&[1, 2, 3, 4], b);
    let hit = idx.lookup(&[1, 2, 3, 4, 5, 6]).unwrap();
    assert_eq!((hit.donor, hit.blocks), (a, 3));
    idx.forget_donor(a);
    let hit = idx.lookup(&[1, 2, 3, 4, 5, 6]).unwrap();
    assert_eq!((hit.donor, hit.blocks), (b, 2));
}
