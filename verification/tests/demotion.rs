use lightbulb::demotion::{DemoteAction, DemoteEvent, DemoteStage, Demotion};
use lightbulb::policies::{BlockTierMover, PagedGeometry};

fn mover() -> BlockTierMover {
    BlockTierMover::new(PagedGeometry::for_llama(2, 1, 4, 2, 8), "sess-c".to_string())
}

fn store_of(a: &DemoteAction) -> (usize, String) {
    match a {
        DemoteAction::Store { logical, key } => (*logical, key.clone()),
        _ => panic!("expected a store"),
    }
}

fn delete_of(a: &DemoteAction) -> String {
    match a {
        DemoteAction::Delete { key } => key.clone(),
        _ => panic!("expected a delete"),
    }
}

fn rewrite_of(a: &DemoteAction) -> usize {
    match a {
        DemoteAction::Rewrite { logical } => *logical,
        _ => panic!("expected a rewrite"),
    }
}

fn failure_of(a: DemoteAction) -> String {
    match a {
        DemoteAction::Fail(e) => e.to_string(),
        _ => panic!("expected a failure"),
    }
}

#[test]
fn demote_stores_freed_blocks_only_never_still_shared() {
    // Block 0 stayed shared, so the pool freed only block 1.
    let m = mover();
    let mut d = Demotion::after_detach(vec![1], vec![0, 1]);
    let a = m.demote_step(&mut d, DemoteEvent::Begin);
    assert_eq!(store_of(&a), (1, "sess-c.b000001".to_string()));
    match m.demote_step(&mut d, DemoteEvent::Stored) {
        DemoteAction::Done { keys } => assert_eq!(keys, vec![(1, "sess-c.b000001".to_string())]),
        _ => panic!("expected the ticket's keys"),
    }
    assert_eq!(d.stage, DemoteStage::Finished);
}

#[test]
fn a_failed_store_rolls_the_demotion_back_instead_of_orphaning_the_handle() {
    let m = mover();
    let mut d = Demotion::after_detach(vec![1, 2], vec![1, 2]);
    assert_eq!(store_of(&m.demote_step(&mut d, DemoteEvent::Begin)).0, 1);
    assert_eq!(store_of(&m.demote_step(&mut d, DemoteEvent::Stored)).0, 2);
    let a = m.demote_step(&mut d, DemoteEvent::StoreFailed("disk full".to_string()));
    assert_eq!(delete_of(&a), "sess-c.b000001");
    assert!(matches!(m.demote_step(&mut d, DemoteEvent::Deleted), DemoteAction::Restore));
    assert_eq!(rewrite_of(&m.demote_step(&mut d, DemoteEvent::Restored)), 1);
    assert_eq!(rewrite_of(&m.demote_step(&mut d, DemoteEvent::Rewritten)), 2);
    let a = m.demote_step(&mut d, DemoteEvent::Rewritten);
    assert_eq!(failure_of(a), "tier store: disk full");
}

#[test]
fn a_freed_block_without_captured_bytes_is_an_invariant_breach() {
    let m = mover();
    let mut d = Demotion::after_detach(vec![1, 3], vec![1]);
    m.demote_step(&mut d, DemoteEvent::Begin);
    let a = m.demote_step(&mut d, DemoteEvent::Stored);
    assert_eq!(delete_of(&a), "sess-c.b000001");
    m.demote_step(&mut d, DemoteEvent::Deleted);
    assert_eq!(rewrite_of(&m.demote_step(&mut d, DemoteEvent::Restored)), 1);
    // Block 3 has no bytes to write back, so the rollback ends after block 1.
    let a = m.demote_step(&mut d, DemoteEvent::Rewritten);
    assert_eq!(
        failure_of(a),
        "adapter invariant violated: Fuel freed block 3 but no payload was captured for it"
    );
}

#[test]
fn a_failed_rollback_names_both_failures() {
    let m = mover();
    let mut d = Demotion::after_detach(vec![4], vec![4]);
    m.demote_step(&mut d, DemoteEvent::Begin);
    let a = m.demote_step(&mut d, DemoteEvent::StoreFailed("disk full".to_string()));
    assert!(matches!(a, DemoteAction::Restore));
    let a = m.demote_step(&mut d, DemoteEvent::RestoreFailed("NoSuchHandle".to_string()));
    assert_eq!(
        failure_of(a),
        "adapter invariant violated: demote failed (tier store: disk full) AND the rollback \
         restore failed (NoSuchHandle); the detached blocks are unrecoverable"
    );

    let mut d = Demotion::after_detach(vec![4], vec![4]);
    m.demote_step(&mut d, DemoteEvent::Begin);
    m.demote_step(&mut d, DemoteEvent::StoreFailed("disk full".to_string()));
    m.demote_step(&mut d, DemoteEvent::Restored);
    let a = m.demote_step(&mut d, DemoteEvent::RewriteFailed { value_half: true, error: "oom".to_string() });
    assert_eq!(
        failure_of(a),
        "adapter invariant violated: demote failed (tier store: disk full) AND rewriting block 4 V \
         during rollback failed (oom); its KV is lost"
    );

    let mut d = Demotion::after_detach(vec![4], vec![4]);
    m.demote_step(&mut d, DemoteEvent::Begin);
    m.demote_step(&mut d, DemoteEvent::StoreFailed("disk full".to_string()));
    m.demote_step(&mut d, DemoteEvent::Restored);
    let a = m.demote_step(&mut d, DemoteEvent::NotResident);
    assert!(failure_of(a).ends_with("AND block 4 is not resident after the rollback restore; its KV is lost"));
}

#[test]
fn nothing_freed_finishes_with_no_keys() {
    let m = mover();
    let mut d = Demotion::after_detach(vec![], vec![0]);
    match m.demote_step(&mut d, DemoteEvent::Begin) {
        DemoteAction::Done { keys } => assert!(keys.is_empty()),
        _ => panic!("expected done"),
    }
}
