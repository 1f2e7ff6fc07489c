use std::collections::hash_map::DefaultHasher;
use std::hash::{Hash, Hasher};

use lightbulb::engine::{effective_generation_budget, seed_for};

#[test]
fn effective_generation_budget_untouched_when_it_fits() {
    let (budget, truncated) = effective_generation_budget(10, 20, 64);
    assert_eq!(budget, 20);
    assert!(!truncated);
}

#[test]
fn effective_generation_budget_truncates_on_the_reviews_concrete_case() {
    let (budget, truncated) = effective_generation_budget(500, 100, 512);
    assert_eq!(budget, 11);
    assert!(truncated);
}

#[test]
fn effective_generation_budget_floors_at_zero_without_underflow() {
    let (budget, truncated) = effective_generation_budget(511, 100, 512);
    assert_eq!(budget, 0);
    assert!(truncated);
}

#[test]
fn effective_generation_budget_boundary_is_not_truncated() {
    let (budget, truncated) = effective_generation_budget(10, 21, 32);
    assert_eq!(budget, 21);
    assert!(!truncated);
}

#[test]
fn effective_generation_budget_saturates_instead_of_overflowing() {
    // prompt + requested + 1 saturates at usize::MAX, which is > 100.
    assert_eq!(effective_generation_budget(usize::MAX, 5, 100), (0, true));
    // A prompt longer than the context leaves nothing.
    assert_eq!(effective_generation_budget(200, 0, 100), (0, true));
    // With the whole range as context, a saturated request still fits.
    assert_eq!(effective_generation_budget(usize::MAX, 5, usize::MAX), (5, false));
}

#[test]
fn seed_for_hashes_the_request_id_then_the_token_index() {
    for (id, ix) in [("req-1", 0usize), ("req-1", 1), ("", 7), ("ünïcode", 99)] {
        let mut h = DefaultHasher::new();
        id.hash(&mut h);
        ix.hash(&mut h);
        assert_eq!(seed_for(id, ix), h.finish(), "{id:?} {ix}");
    }
    assert_ne!(seed_for("a", 0), seed_for("a", 1));
    assert_ne!(seed_for("a", 0), seed_for("b", 0));
    assert_eq!(seed_for("same", 3), seed_for("same", 3));
}

#[test]
fn the_token_index_is_hashed_as_its_bytes_in_one_byte_order() {
    for ix in [0usize, 1, 258, usize::MAX] {
        let with = |bytes: &[u8]| {
            let mut h = DefaultHasher::new();
            h.write(b"req");
            h.write(&[0xff]);
            h.write(bytes);
            h.finish()
        };
        let s = seed_for("req", ix);
        assert!(s == with(&ix.to_le_bytes()) || s == with(&ix.to_be_bytes()), "{ix}");
    }
}
