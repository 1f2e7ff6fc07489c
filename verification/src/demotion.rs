//! The decisions of demoting KV blocks to a store, and of rolling a failed
//! demotion back, as a step function from state and event to the next action.
//!
//! The caller does the outside work: it captures the bytes of the resident
//! blocks, has the pool detach them, and then builds a [`Demotion`] from the
//! blocks the pool freed and the blocks whose bytes it captured.  From there
//! it performs each action that [`BlockTierMover::demote_step`] returns and
//! feeds back what happened.  Only freed blocks are stored; on the first
//! failure every stored key is deleted, the detached blocks are restored and
//! their captured bytes written back, and the original cause is reported
//! (or a compound error where the rollback itself fails).

use vstd::prelude::*;
use vstd::string::*;
use crate::text::{decimal, decimal_spec};
use crate::policies::{BlockTierMover, PolicyError, padded6, policy_error_message};

verus! {

broadcast use vstd::string::group_string_axioms;

/// Where a demotion stands.
#[derive(Clone, Copy, Debug, PartialEq, Eq, Structural)]
pub enum DemoteStage {
    /// Storing the payloads of freed blocks, in order.
    Storing,
    /// Rolling back: deleting the keys stored so far.
    Deleting,
    /// Rolling back: restoring the detached blocks.
    Restoring,
    /// Rolling back: writing captured bytes back into restored blocks.
    Rewriting,
    /// Nothing more to do.
    Finished,
}

/// A demotion after the detach.
pub struct Demotion {
    /// The blocks the pool freed, in its order
    pub freed: Vec<usize>,
    /// The blocks whose bytes were captured before the detach
    pub captured: Vec<usize>,
    /// `(block, key)` of every payload stored so far
    pub keys: Vec<(usize, String)>,
    /// Position in `freed` (storing, rewriting) or in `keys` (deleting)
    pub next: usize,
    /// Why the demotion is being rolled back
    pub cause: Option<PolicyError>,
    pub stage: DemoteStage,
}

/// What happened to the last action.
pub enum DemoteEvent {
    /// Start, right after the detach.
    Begin,
    /// The payload was stored.
    Stored,
    /// Storing failed, with the store's message.
    StoreFailed(String),
    /// A stored key was deleted (whether or not the store managed it).
    Deleted,
    /// The detached blocks are back.
    Restored,
    /// Restoring failed, with the pool's message.
    RestoreFailed(String),
    /// The block to rewrite is not resident after the restore.
    NotResident,
    /// The block's bytes were written back.
    Rewritten,
    /// Writing the block's K (or, with `value_half`, V) bytes failed.
    RewriteFailed { value_half: bool, error: String },
}

/// What to do next.
pub enum DemoteAction {
    /// Store the captured bytes of `logical` under `key`.
    Store { logical: usize, key: String },
    /// Delete `key` from the store.
    Delete { key: String },
    /// Restore the detached blocks.
    Restore,
    /// Write the captured bytes of `logical` back into its restored block.
    Rewrite { logical: usize },
    /// Done: the freed blocks are stored under these keys.
    Done { keys: Vec<(usize, String)> },
    /// The demotion failed with this error.
    Fail(PolicyError),
}

impl Demotion {
    /// A demotion that is about to store the `freed` blocks.
    pub fn after_detach(freed: Vec<usize>, captured: Vec<usize>) -> (r: Self)
        ensures
            r.wf(),
            r.freed@ == freed@,
            r.captured@ == captured@,
            r.keys@.len() == 0,
            r.next == 0,
            r.cause is None,
            r.stage == DemoteStage::Storing,
    {
        Demotion {
            freed,
            captured,
            keys: Vec::new(),
            next: 0,
            cause: None,
            stage: DemoteStage::Storing,
        }
    }

    pub open spec fn wf(&self) -> bool {
        &&& self.stage == DemoteStage::Storing ==> self.next <= self.freed@.len() && self.cause is None
        &&& self.stage == DemoteStage::Deleting ==> self.next <= self.keys@.len() && self.cause is Some
        &&& self.stage == DemoteStage::Restoring ==> self.cause is Some
        &&& self.stage == DemoteStage::Rewriting ==> self.next <= self.freed@.len() && self.cause is Some
    }
}

/// The breach when a freed block has no captured bytes.
pub open spec fn missing_payload_text(logical: usize) -> Seq<char> {
    "Fuel freed block "@ + decimal_spec(logical as nat) + " but no payload was captured for it"@
}

/// A failed rollback: `demote failed (cause) AND ` followed by `tail`.
pub open spec fn compound_text(cause: PolicyError, tail: Seq<char>) -> Seq<char> {
    "demote failed ("@ + policy_error_message(cause) + ") AND "@ + tail
}

/// The compound error when the rollback's restore fails.
pub open spec fn restore_failed_text(cause: PolicyError, e: Seq<char>) -> Seq<char> {
    compound_text(
        cause,
        "the rollback restore failed ("@ + e + "); the detached blocks are unrecoverable"@,
    )
}

/// The compound error when a block is not resident after the restore.
pub open spec fn not_resident_text(cause: PolicyError, logical: usize) -> Seq<char> {
    compound_text(
        cause,
        "block "@ + decimal_spec(logical as nat)
            + " is not resident after the rollback restore; its KV is lost"@,
    )
}

/// The compound error when writing a block back fails.
pub open spec fn rewrite_failed_text(cause: PolicyError, logical: usize, value_half: bool, e: Seq<char>) -> Seq<char> {
    compound_text(
        cause,
        "rewriting block "@ + decimal_spec(logical as nat) + (if value_half {
            " V"@
        } else {
            " K"@
        }) + " during rollback failed ("@ + e + "); its KV is lost"@,
    )
}

/// The first freed block at or after `from` whose bytes were captured.
pub open spec fn next_captured(freed: Seq<usize>, captured: Seq<usize>, from: int) -> Option<int>
    decreases freed.len() - from,
{
    if from < 0 || from >= freed.len() {
        None
    } else if captured.contains(freed[from]) {
        Some(from)
    } else {
        next_captured(freed, captured, from + 1)
    }
}

/// The views of stored keys.
pub open spec fn key_views(v: Seq<(usize, String)>) -> Seq<(usize, Seq<char>)> {
    v.map_values(|e: (usize, String)| (e.0, e.1@))
}

/// The key under which block `logical` is stored.
pub open spec fn store_key(prefix: Seq<char>, logical: usize) -> Seq<char> {
    prefix + ".b"@ + padded6(logical as nat)
}

/// Rolling back starts with stored keys `ks`: delete the first, or restore
/// where none was stored.
pub open spec fn roll_back_outcome(ks: Seq<(usize, Seq<char>)>, n: Demotion, a: DemoteAction) -> bool {
    &&& key_views(n.keys@) == ks
    &&& n.next == 0
    &&& if ks.len() > 0 {
        n.stage == DemoteStage::Deleting && match a {
            DemoteAction::Delete { key } => key@ == ks[0].1,
            _ => false,
        }
    } else {
        n.stage == DemoteStage::Restoring && a is Restore
    }
}

/// Storing from position `next` of `freed`, with keys `ks` stored: store
/// the next freed block, roll back where its bytes were not captured, or
/// finish with the keys.
pub open spec fn store_outcome(
    prefix: Seq<char>,
    freed: Seq<usize>,
    captured: Seq<usize>,
    ks: Seq<(usize, Seq<char>)>,
    next: int,
    n: Demotion,
    a: DemoteAction,
) -> bool {
    &&& n.wf()
    &&& n.freed@ == freed
    &&& n.captured@ == captured
    &&& if next < freed.len() {
        if captured.contains(freed[next]) {
            &&& n.stage == DemoteStage::Storing
            &&& n.next == next
            &&& key_views(n.keys@) == ks
            &&& n.cause is None
            &&& match a {
                DemoteAction::Store { logical, key } => logical == freed[next] && key@ == store_key(
                    prefix,
                    logical,
                ),
                _ => false,
            }
        } else {
            &&& roll_back_outcome(ks, n, a)
            &&& match n.cause {
                Some(PolicyError::Invariant(m)) => m@ == missing_payload_text(freed[next]),
                _ => false,
            }
        }
    } else {
        n.stage == DemoteStage::Finished && match a {
            DemoteAction::Done { keys } => key_views(keys@) == ks,
            _ => false,
        }
    }
}

/// Deleting from position `next` of the stored keys `ks`.
pub open spec fn delete_outcome(ks: Seq<(usize, Seq<char>)>, next: int, n: Demotion, a: DemoteAction) -> bool {
    &&& n.wf()
    &&& key_views(n.keys@) == ks
    &&& n.next == next
    &&& if next < ks.len() {
        n.stage == DemoteStage::Deleting && match a {
            DemoteAction::Delete { key } => key@ == ks[next].1,
            _ => false,
        }
    } else {
        n.stage == DemoteStage::Restoring && a is Restore
    }
}

/// Rewriting from position `from` of `freed`: the next freed block whose
/// bytes were captured, or the cause once none is left.
pub open spec fn rewrite_outcome(
    freed: Seq<usize>,
    captured: Seq<usize>,
    from: int,
    cause: PolicyError,
    n: Demotion,
    a: DemoteAction,
) -> bool {
    &&& n.wf()
    &&& n.freed@ == freed
    &&& n.captured@ == captured
    &&& match next_captured(freed, captured, from) {
        Some(j) => a == DemoteAction::Rewrite { logical: freed[j] } && n.next == j && n.stage
            == DemoteStage::Rewriting && n.cause == Some(cause),
        None => a == DemoteAction::Fail(cause) && n.stage == DemoteStage::Finished,
    }
}

/// The rollback ends in the compound error with message `m`.
pub open spec fn fails_with(a: DemoteAction, n: Demotion, m: Seq<char>) -> bool {
    &&& n.stage == DemoteStage::Finished
    &&& match a {
        DemoteAction::Fail(PolicyError::Invariant(t)) => t@ == m,
        _ => false,
    }
}

/// The events that each stage waits for.
pub open spec fn expects(d: Demotion, ev: DemoteEvent) -> bool {
    match ev {
        DemoteEvent::Begin => d.stage == DemoteStage::Storing,
        DemoteEvent::Stored => d.stage == DemoteStage::Storing && d.next < d.freed@.len(),
        DemoteEvent::StoreFailed(_) => d.stage == DemoteStage::Storing,
        DemoteEvent::Deleted => d.stage == DemoteStage::Deleting && d.next < d.keys@.len(),
        DemoteEvent::Restored => d.stage == DemoteStage::Restoring,
        DemoteEvent::RestoreFailed(_) => d.stage == DemoteStage::Restoring,
        DemoteEvent::NotResident => d.stage == DemoteStage::Rewriting && d.next < d.freed@.len(),
        DemoteEvent::Rewritten => d.stage == DemoteStage::Rewriting && d.next < d.freed@.len(),
        DemoteEvent::RewriteFailed { .. } => d.stage == DemoteStage::Rewriting && d.next
            < d.freed@.len(),
    }
}

/// What one step does: the outcome of event `ev` on demotion `o`, giving
/// demotion `n` and action `a`.
pub open spec fn step_outcome(prefix: Seq<char>, o: Demotion, ev: DemoteEvent, n: Demotion, a: DemoteAction) -> bool {
    match ev {
        DemoteEvent::Begin => store_outcome(prefix, o.freed@, o.captured@, key_views(o.keys@), o.next as int, n, a),
        DemoteEvent::Stored => store_outcome(
            prefix,
            o.freed@,
            o.captured@,
            key_views(o.keys@).push((o.freed@[o.next as int], store_key(prefix, o.freed@[o.next as int]))),
            o.next + 1,
            n,
            a,
        ),
        DemoteEvent::StoreFailed(e) => n.wf() && n.freed@ == o.freed@ && n.captured@ == o.captured@
            && n.cause == Some(PolicyError::Store(e)) && roll_back_outcome(key_views(o.keys@), n, a),
        DemoteEvent::Deleted => delete_outcome(key_views(o.keys@), o.next + 1, n, a) && n.freed@
            == o.freed@ && n.captured@ == o.captured@ && n.cause == o.cause,
        DemoteEvent::Restored => rewrite_outcome(o.freed@, o.captured@, 0, o.cause->0, n, a),
        DemoteEvent::RestoreFailed(e) => fails_with(a, n, restore_failed_text(o.cause->0, e@)),
        DemoteEvent::NotResident => fails_with(
            a,
            n,
            not_resident_text(o.cause->0, o.freed@[o.next as int]),
        ),
        DemoteEvent::Rewritten => rewrite_outcome(o.freed@, o.captured@, o.next + 1, o.cause->0, n, a),
        DemoteEvent::RewriteFailed { value_half, error } => fails_with(
            a,
            n,
            rewrite_failed_text(o.cause->0, o.freed@[o.next as int], value_half, error@),
        ),
    }
}

/// Whether `v` holds `x`.
fn holds(v: &Vec<usize>, x: usize) -> (r: bool)
    ensures
        r == v@.contains(x),
{
    let mut k: usize = 0;
    while k < v.len()
        invariant
            k <= v@.len(),
            forall|j: int| 0 <= j < k ==> v@[j] != x,
        decreases v@.len() - k,
    {
        if v[k] == x {
            assert(v@[k as int] == x);
            return true;
        }
        k = k + 1;
    }
    false
}

/// Take the cause out of a rolling-back demotion.
fn cause_of(d: &mut Demotion) -> (e: PolicyError)
    requires
        old(d).cause is Some,
    ensures
        e == old(d).cause->0,
        final(d).cause is None,
        final(d).freed == old(d).freed,
        final(d).captured == old(d).captured,
        final(d).keys == old(d).keys,
        final(d).next == old(d).next,
        final(d).stage == old(d).stage,
{
    match d.cause.take() {
        Some(e) => e,
        None => PolicyError::Invariant(String::new()),
    }
}

impl BlockTierMover {
    fn delete_next(&self, d: &mut Demotion) -> (a: DemoteAction)
        requires
            old(d).wf(),
            old(d).stage == DemoteStage::Deleting,
        ensures
            delete_outcome(key_views(old(d).keys@), old(d).next as int, *final(d), a),
            final(d).freed == old(d).freed,
            final(d).captured == old(d).captured,
            final(d).cause == old(d).cause,
    {
        if d.next < d.keys.len() {
            let key = d.keys[d.next].1.clone();
            DemoteAction::Delete { key }
        } else {
            d.stage = DemoteStage::Restoring;
            DemoteAction::Restore
        }
    }

    fn rewrite_next(&self, d: &mut Demotion) -> (a: DemoteAction)
        requires
            old(d).wf(),
            old(d).stage == DemoteStage::Rewriting,
        ensures
            rewrite_outcome(
                old(d).freed@,
                old(d).captured@,
                old(d).next as int,
                old(d).cause->0,
                *final(d),
                a,
            ),
    {
        while d.next < d.freed.len() && !holds(&d.captured, d.freed[d.next])
            invariant
                d.wf(),
                d.stage == DemoteStage::Rewriting,
                d.freed == old(d).freed,
                d.captured == old(d).captured,
                d.keys == old(d).keys,
                d.cause == old(d).cause,
                next_captured(d.freed@, d.captured@, old(d).next as int) == next_captured(
                    d.freed@,
                    d.captured@,
                    d.next as int,
                ),
            decreases d.freed@.len() - d.next,
        {
            d.next = d.next + 1;
        }
        if d.next < d.freed.len() {
            DemoteAction::Rewrite { logical: d.freed[d.next] }
        } else {
            let e = cause_of(d);
            d.stage = DemoteStage::Finished;
            DemoteAction::Fail(e)
        }
    }

    fn roll_back(&self, d: &mut Demotion, cause: PolicyError) -> (a: DemoteAction)
        requires
            old(d).wf(),
            old(d).stage == DemoteStage::Storing,
        ensures
            final(d).wf(),
            final(d).freed == old(d).freed,
            final(d).captured == old(d).captured,
            final(d).cause == Some(cause),
            roll_back_outcome(key_views(old(d).keys@), *final(d), a),
    {
        d.cause = Some(cause);
        d.next = 0;
        d.stage = DemoteStage::Deleting;
        self.delete_next(d)
    }

    fn store_next(&self, d: &mut Demotion) -> (a: DemoteAction)
        requires
            old(d).wf(),
            old(d).stage == DemoteStage::Storing,
        ensures
            store_outcome(
                self.spec_prefix(),
                old(d).freed@,
                old(d).captured@,
                key_views(old(d).keys@),
                old(d).next as int,
                *final(d),
                a,
            ),
    {
        if d.next < d.freed.len() {
            let logical = d.freed[d.next];
            if holds(&d.captured, logical) {
                let key = self.key_for(logical);
                DemoteAction::Store { logical, key }
            } else {
                let mut m = String::from_str("Fuel freed block ");
                m.append(decimal(logical).as_str());
                m.append(" but no payload was captured for it");
                self.roll_back(d, PolicyError::Invariant(m))
            }
        } else {
            let mut keys: Vec<(usize, String)> = Vec::new();
            std::mem::swap(&mut keys, &mut d.keys);
            d.stage = DemoteStage::Finished;
            DemoteAction::Done { keys }
        }
    }

    /// The compound error of a rollback that failed: `demote failed (cause)`
    /// followed by `tail`.
    fn compound(cause: &PolicyError, tail: &str) -> (r: PolicyError)
        ensures
            r matches PolicyError::Invariant(m) && m@ == compound_text(*cause, tail@),
    {
        let mut m = String::from_str("demote failed (");
        m.append(cause.to_string().as_str());
        m.append(") AND ");
        m.append(tail);
        PolicyError::Invariant(m)
    }

    /// One step of a demotion: record what happened to the last action and
    /// decide the next one.  Stored payloads are recorded under their keys;
    /// the first failure (a store error, or a freed block without captured
    /// bytes) starts the rollback: the stored keys are deleted in order, the
    /// detached blocks restored, and every freed block whose bytes were
    /// captured is written back, after which the cause is reported.  A
    /// restore or write-back that fails ends in an error naming both.
    pub fn demote_step(&self, d: &mut Demotion, ev: DemoteEvent) -> (a: DemoteAction)
        requires
            old(d).wf(),
            expects(*old(d), ev),
        ensures
            step_outcome(self.spec_prefix(), *old(d), ev, *final(d), a),
    {
        match ev {
            DemoteEvent::Begin => self.store_next(d),
            DemoteEvent::Stored => {
                let n = d.freed.len();
                assert(d.next < n);
                let logical = d.freed[d.next];
                let key = self.key_for(logical);
                d.keys.push((logical, key));
                d.next = d.next + 1;
                proof {
                    assert(key_views(d.keys@) =~= key_views(old(d).keys@).push(
                        (old(d).freed@[old(d).next as int], store_key(self.spec_prefix(), logical)),
                    ));
                }
                self.store_next(d)
            },
            DemoteEvent::StoreFailed(e) => self.roll_back(d, PolicyError::Store(e)),
            DemoteEvent::Deleted => {
                let n = d.keys.len();
                assert(d.next < n);
                d.next = d.next + 1;
                self.delete_next(d)
            },
            DemoteEvent::Restored => {
                d.next = 0;
                d.stage = DemoteStage::Rewriting;
                self.rewrite_next(d)
            },
            DemoteEvent::RestoreFailed(e) => {
                let cause = cause_of(d);
                d.stage = DemoteStage::Finished;
                let mut tail = String::from_str("the rollback restore failed (");
                tail.append(e.as_str());
                tail.append("); the detached blocks are unrecoverable");
                let r = Self::compound(&cause, tail.as_str());
                DemoteAction::Fail(r)
            },
            DemoteEvent::NotResident => {
                let logical = d.freed[d.next];
                let cause = cause_of(d);
                d.stage = DemoteStage::Finished;
                let mut tail = String::from_str("block ");
                tail.append(decimal(logical).as_str());
                tail.append(" is not resident after the rollback restore; its KV is lost");
                let r = Self::compound(&cause, tail.as_str());
                DemoteAction::Fail(r)
            },
            DemoteEvent::Rewritten => {
                let n = d.freed.len();
                assert(d.next < n);
                d.next = d.next + 1;
                self.rewrite_next(d)
            },
            DemoteEvent::RewriteFailed { value_half, error } => {
                let logical = d.freed[d.next];
                let cause = cause_of(d);
                d.stage = DemoteStage::Finished;
                let mut tail = String::from_str("rewriting block ");
                tail.append(decimal(logical).as_str());
                if value_half {
                    tail.append(" V");
                } else {
                    tail.append(" K");
                }
                tail.append(" during rollback failed (");
                tail.append(error.as_str());
                tail.append("); its KV is lost");
                let r = Self::compound(&cause, tail.as_str());
                DemoteAction::Fail(r)
            },
        }
    }
}

} // verus!
