//! Layer bookkeeping of model pruning: which layers tail pruning keeps and
//! fine-tunes, the map from original to pruned layer numbers, and the checks
//! that a pruning manifest fits a model.

use vstd::prelude::*;
use vstd::string::*;
use crate::text::{decimal, decimal_spec};
use crate::eviction::{strictly_sorted, insert_sorted};
use std::collections::HashMap;

verus! {

broadcast use vstd::string::group_string_axioms;

/// Structured sparsity pattern.
#[allow(non_camel_case_types)]
#[derive(Clone, Copy, Debug, PartialEq, Eq, Structural)]
pub enum StructuredPattern {
    /// Any weights can be pruned
    Unstructured,
    /// Keep `n` weights of every `m` consecutive ones (2:4, 4:8, ...)
    N_M { n: usize, m: usize },
}

/// Tail pruning configuration: remove the last layers, then fine-tune a few
/// of those that remain.
#[derive(Clone, Copy, Debug, PartialEq, Eq, Structural)]
pub struct TailPruneConfig {
    /// Number of layers to remove from the end
    pub layers_to_remove: usize,
    /// Number of remaining layers to fine-tune (from the end)
    pub partial_ft_layers: usize,
    /// Whether to fine-tune the LM head
    pub ft_lm_head: bool,
}

impl Default for TailPruneConfig {
    fn default() -> (r: Self)
        ensures
            r.layers_to_remove == 0,
            r.partial_ft_layers == 2,
            r.ft_lm_head,
    {
        TailPruneConfig { layers_to_remove: 0, partial_ft_layers: 2, ft_lm_head: true }
    }
}

/// The kind of pruning policy a manifest records.
#[derive(Clone, Copy, Debug, PartialEq, Eq, Structural)]
pub enum PolicyKind {
    /// No pruning (baseline)
    NoPruning,
    Wanda,
    TailPrune,
    Hybrid,
}

/// `a - b`, or 0 where `b > a`.
pub open spec fn sat_sub(a: int, b: int) -> nat {
    if a >= b {
        (a - b) as nat
    } else {
        0
    }
}

/// The integers `a .. b`.
pub open spec fn index_range(a: nat, b: nat) -> Seq<usize> {
    Seq::new((b - a) as nat, |k: int| (a + k) as usize)
}

fn range_of(a: usize, b: usize) -> (r: Vec<usize>)
    requires
        a <= b,
    ensures
        r@ == index_range(a as nat, b as nat),
{
    let mut v: Vec<usize> = Vec::new();
    let mut k: usize = a;
    while k < b
        invariant
            a <= k <= b,
            v@ == index_range(a as nat, k as nat),
        decreases b - k,
    {
        v.push(k);
        assert(v@ =~= index_range(a as nat, (k + 1) as nat));
        k = k + 1;
    }
    v
}

/// Tail pruning calculations.
pub struct TailPruner;

impl TailPruner {
    /// The layers kept: `0 .. total - layers_to_remove` (none if more are
    /// removed than exist).
    pub fn calculate_kept_layers(total_layers: usize, config: &TailPruneConfig) -> (r: Vec<usize>)
        ensures
            r@ == index_range(0, sat_sub(total_layers as int, config.layers_to_remove as int)),
    {
        let kept_count = total_layers.saturating_sub(config.layers_to_remove);
        range_of(0, kept_count)
    }

    /// The layers fine-tuned: the last `partial_ft_layers` of those kept.
    pub fn calculate_ft_layers(total_layers: usize, config: &TailPruneConfig) -> (r: Vec<usize>)
        ensures
            r@ == index_range(
                sat_sub(
                    sat_sub(total_layers as int, config.layers_to_remove as int) as int,
                    config.partial_ft_layers as int,
                ),
                sat_sub(total_layers as int, config.layers_to_remove as int),
            ),
    {
        let kept_count = total_layers.saturating_sub(config.layers_to_remove);
        let ft_start = kept_count.saturating_sub(config.partial_ft_layers);
        range_of(ft_start, kept_count)
    }
}

/// The fine-tuned layers are among the kept ones.
pub proof fn law_ft_layers_are_kept(total: usize, config: TailPruneConfig)
    ensures
        ({
            let kept = index_range(0, sat_sub(total as int, config.layers_to_remove as int));
            let ft = index_range(
                sat_sub(
                    sat_sub(total as int, config.layers_to_remove as int) as int,
                    config.partial_ft_layers as int,
                ),
                sat_sub(total as int, config.layers_to_remove as int),
            );
            forall|i: int| 0 <= i < ft.len() ==> kept.contains(#[trigger] ft[i])
        }),
{
    let kept = index_range(0, sat_sub(total as int, config.layers_to_remove as int));
    let ft = index_range(
        sat_sub(
            sat_sub(total as int, config.layers_to_remove as int) as int,
            config.partial_ft_layers as int,
        ),
        sat_sub(total as int, config.layers_to_remove as int),
    );
    assert forall|i: int| 0 <= i < ft.len() implies kept.contains(#[trigger] ft[i]) by {
        let x = ft[i];
        assert(kept[x as int] == x);
    }
}

// ---------------------------------------------------------------------------
// Layer mapping: original layer -> pruned layer, or removed
// ---------------------------------------------------------------------------

/// Map from original layer numbers to pruned ones (`None`: removed).
pub struct LayerMapping {
    map: HashMap<usize, Option<usize>>,
}

impl View for LayerMapping {
    type V = Map<usize, Option<usize>>;

    closed spec fn view(&self) -> Map<usize, Option<usize>> {
        self.map@
    }
}

/// The tail-pruning map over `total` layers: the first `kept` keep their
/// number, the rest are removed.
pub open spec fn tail_map(total: nat, kept: nat) -> Map<usize, Option<usize>> {
    Map::new(
        |k: usize| k < total,
        |k: usize|
            if k < kept {
                Some(k)
            } else {
                None
            },
    )
}

/// The numbers of the kept layers (those mapped to `Some`), ascending.
pub open spec fn kept_keys(m: Map<usize, Option<usize>>) -> Set<usize> {
    Set::new(|k: usize| m.contains_key(k) && m[k] is Some)
}

impl LayerMapping {
    pub closed spec fn wf(&self) -> bool {
        self.map@.dom().finite()
    }

    /// An empty mapping.
    pub fn new() -> (r: Self)
        ensures
            r.wf(),
            r@ == Map::<usize, Option<usize>>::empty(),
    {
        LayerMapping { map: HashMap::new() }
    }

    /// Bind `original_idx` to `new_idx`, replacing an earlier binding.
    pub fn insert(&mut self, original_idx: usize, new_idx: Option<usize>)
        requires
            old(self).wf(),
        ensures
            final(self).wf(),
            final(self)@ == old(self)@.insert(original_idx, new_idx),
    {
        broadcast use vstd::std_specs::hash::group_hash_axioms;

        self.map.insert(original_idx, new_idx);
    }

    /// The tail-pruning map over `total_layers`: the layers before
    /// `total_layers - layers_to_remove` keep their number, the rest are
    /// removed.
    pub fn create_tail_mapping(total_layers: usize, layers_to_remove: usize) -> (r: Self)
        ensures
            r.wf(),
            r@ == tail_map(total_layers as nat, sat_sub(total_layers as int, layers_to_remove as int)),
    {
        broadcast use vstd::std_specs::hash::group_hash_axioms;

        let kept_layers = total_layers.saturating_sub(layers_to_remove);
        let mut map: HashMap<usize, Option<usize>> = HashMap::new();
        let mut i: usize = 0;
        while i < total_layers
            invariant
                i <= total_layers,
                kept_layers == sat_sub(total_layers as int, layers_to_remove as int),
                map@ == tail_map(i as nat, kept_layers as nat),
            decreases total_layers - i,
        {
            if i < kept_layers {
                map.insert(i, Some(i));
            } else {
                map.insert(i, None);
            }
            assert(map@ =~= tail_map((i + 1) as nat, kept_layers as nat));
            i = i + 1;
        }
        LayerMapping { map }
    }

    /// Whether `original_idx` has an entry.
    pub fn contains_key(&self, original_idx: usize) -> (r: bool)
        requires
            self.wf(),
        ensures
            r == self@.contains_key(original_idx),
    {
        broadcast use vstd::std_specs::hash::group_hash_axioms;

        self.map.contains_key(&original_idx)
    }

    /// Number of entries.
    pub fn len(&self) -> (r: usize)
        requires
            self.wf(),
        ensures
            r == self@.dom().len(),
    {
        broadcast use vstd::std_specs::hash::group_hash_axioms;

        self.map.len()
    }

    /// The pruned number of `original_idx`: `None` where it was removed or
    /// has no entry.
    pub fn get_pruned_layer_idx(&self, original_idx: usize) -> (r: Option<usize>)
        requires
            self.wf(),
        ensures
            r == (if self@.contains_key(original_idx) {
                self@[original_idx]
            } else {
                None
            }),
    {
        broadcast use vstd::std_specs::hash::group_hash_axioms;

        match self.map.get(&original_idx) {
            Some(v) => *v,
            None => None,
        }
    }

    /// Whether `original_idx` has an entry that says it was removed.
    pub fn is_layer_removed(&self, original_idx: usize) -> (r: bool)
        requires
            self.wf(),
        ensures
            r == (self@.contains_key(original_idx) && self@[original_idx] is None),
    {
        broadcast use vstd::std_specs::hash::group_hash_axioms;

        match self.map.get(&original_idx) {
            Some(v) => v.is_none(),
            None => false,
        }
    }
}

/// Pruning errors.
pub enum PruningError {
    InvalidConfig(String),
    PruningFailed(String),
    VerificationFailed(String),
}

/// The message of a pruning error.
pub open spec fn pruning_error_message(e: PruningError) -> Seq<char> {
    match e {
        PruningError::InvalidConfig(s) => "Invalid configuration: "@ + s@,
        PruningError::PruningFailed(s) => "Pruning failed: "@ + s@,
        PruningError::VerificationFailed(s) => "Mask verification failed: "@ + s@,
    }
}

impl PruningError {
    /// The error's message.
    pub fn to_string(&self) -> (r: String)
        ensures
            r@ == pruning_error_message(*self),
    {
        match self {
            PruningError::InvalidConfig(s) => String::from_str("Invalid configuration: ").concat(
                s.as_str(),
            ),
            PruningError::PruningFailed(s) => String::from_str("Pruning failed: ").concat(s.as_str()),
            PruningError::VerificationFailed(s) => String::from_str(
                "Mask verification failed: ",
            ).concat(s.as_str()),
        }
    }
}

/// The first number in `from .. total` without an entry in `m`.
pub open spec fn first_missing(m: Map<usize, Option<usize>>, total: int, from: int) -> Option<int>
    decreases total - from,
{
    if from >= total {
        None
    } else if !m.contains_key(from as usize) {
        Some(from)
    } else {
        first_missing(m, total, from + 1)
    }
}

/// Why a manifest does not fit a model of `total` layers, if it does not.
/// `sparsity_layers` is the number of layers with a recorded sparsity.
pub open spec fn compat_message(
    policy: PolicyKind,
    m: Map<usize, Option<usize>>,
    sparsity_layers: nat,
    total: nat,
) -> Option<Seq<char>> {
    match policy {
        PolicyKind::TailPrune => if m.dom().len() != total {
            Some(
                "Manifest layer mapping size "@ + decimal_spec(m.dom().len())
                    + " doesn't match model layers "@ + decimal_spec(total),
            )
        } else {
            match first_missing(m, total as int, 0) {
                Some(idx) => Some("Missing layer mapping for index "@ + decimal_spec(idx as nat)),
                None => None,
            }
        },
        PolicyKind::Wanda => if sparsity_layers == 0 {
            Some("Wanda manifest has no layer sparsity information"@)
        } else {
            None
        },
        PolicyKind::NoPruning => None,
        PolicyKind::Hybrid => if m.dom().len() == 0 {
            Some("Hybrid manifest missing layer mapping"@)
        } else if sparsity_layers == 0 {
            Some("Hybrid manifest missing layer sparsity"@)
        } else {
            None
        },
    }
}

/// Applying pruning manifests while a model is loaded.
pub struct PruningLoader;

impl PruningLoader {
    /// Whether tail pruning removed `original_idx`.
    pub fn should_remove_layer(mapping: &LayerMapping, original_idx: usize) -> (r: bool)
        requires
            mapping.wf(),
        ensures
            r == (mapping@.contains_key(original_idx) && mapping@[original_idx] is None),
    {
        mapping.is_layer_removed(original_idx)
    }

    /// The number of `original_idx` after tail pruning, if it was kept.
    pub fn remap_layer_index(mapping: &LayerMapping, original_idx: usize) -> (r: Option<usize>)
        requires
            mapping.wf(),
        ensures
            r == (if mapping@.contains_key(original_idx) {
                mapping@[original_idx]
            } else {
                None
            }),
    {
        mapping.get_pruned_layer_idx(original_idx)
    }

    /// The original numbers of the kept layers, ascending.
    pub fn get_kept_layer_indices(mapping: &LayerMapping) -> (r: Vec<usize>)
        requires
            mapping.wf(),
        ensures
            strictly_sorted(r@),
            r@.to_set() == kept_keys(mapping@),
    {
        broadcast use vstd::std_specs::hash::group_hash_axioms;

        let ghost m = mapping@;
        let mut out: Vec<usize> = Vec::new();
        for k in it: mapping.map.keys()
            invariant
                m == mapping.map@,
                strictly_sorted(out@),
                forall|x: usize| m.contains_key(x) ==> exists|j: int|
                    0 <= j < it.seq().len() && *it.seq()[j] == x,
                forall|x: usize|
                    #[trigger] out@.to_set().contains(x) <==> (exists|j: int|
                        0 <= j < it.index() && *it.seq()[j] == x) && m.contains_key(x) && m[x] is Some,
            ensures
                forall|x: usize| #[trigger] out@.to_set().contains(x) == kept_keys(m).contains(x),
        {
            let ghost before = out@;
            match mapping.map.get(k) {
                Some(v) => {
                    if v.is_some() {
                        insert_sorted(&mut out, *k);
                    }
                },
                None => {},
            }
            proof {
                assert forall|x: usize|
                    #[trigger] out@.to_set().contains(x) <==> (exists|j: int|
                        0 <= j < it.index() + 1 && *it.seq()[j] == x) && m.contains_key(x) && m[x] is Some by {
                    if exists|j: int| 0 <= j < it.index() + 1 && *it.seq()[j] == x {
                        let j = choose|j: int| 0 <= j < it.index() + 1 && *it.seq()[j] == x;
                        if j < it.index() {
                            assert(exists|j: int| 0 <= j < it.index() && *it.seq()[j] == x);
                        }
                    }
                    if exists|j: int| 0 <= j < it.index() && *it.seq()[j] == x {
                        let j = choose|j: int| 0 <= j < it.index() && *it.seq()[j] == x;
                        assert(0 <= j < it.index() + 1 && *it.seq()[j] == x);
                    }
                }
            }
        }
        assert(out@.to_set() =~= kept_keys(m));
        out
    }

    /// Check that a manifest fits a model of `total_model_layers` layers: a
    /// tail-pruning map must cover exactly the layers `0 .. total`; a Wanda
    /// manifest needs recorded sparsities; a hybrid one needs both.
    pub fn validate_manifest_compatibility(
        policy: PolicyKind,
        mapping: &LayerMapping,
        sparsity_layers: usize,
        total_model_layers: usize,
    ) -> (r: Result<(), PruningError>)
        requires
            mapping.wf(),
        ensures
            match compat_message(
                policy,
                mapping@,
                sparsity_layers as nat,
                total_model_layers as nat,
            ) {
                None => r is Ok,
                Some(msg) => r matches Err(PruningError::PruningFailed(s)) && s@ == msg,
            },
    {
        match policy {
            PolicyKind::TailPrune => {
                let n = mapping.len();
                if n != total_model_layers {
                    let mut s = String::from_str("Manifest layer mapping size ");
                    s.append(decimal(n).as_str());
                    s.append(" doesn't match model layers ");
                    s.append(decimal(total_model_layers).as_str());
                    return Err(PruningError::PruningFailed(s));
                }
                let mut idx: usize = 0;
                while idx < total_model_layers
                    invariant
                        idx <= total_model_layers,
                        mapping.wf(),
                        policy == PolicyKind::TailPrune,
                        mapping@.dom().len() == total_model_layers,
                        first_missing(mapping@, total_model_layers as int, 0) == first_missing(
                            mapping@,
                            total_model_layers as int,
                            idx as int,
                        ),
                    decreases total_model_layers - idx,
                {
                    if !mapping.contains_key(idx) {
                        let mut s = String::from_str("Missing layer mapping for index ");
                        s.append(decimal(idx).as_str());
                        return Err(PruningError::PruningFailed(s));
                    }
                    idx = idx + 1;
                }
                Ok(())
            },
            PolicyKind::Wanda => {
                if sparsity_layers == 0 {
                    return Err(
                        PruningError::PruningFailed(
                            String::from_str("Wanda manifest has no layer sparsity information"),
                        ),
                    );
                }
                Ok(())
            },
            PolicyKind::NoPruning => Ok(()),
            PolicyKind::Hybrid => {
                if mapping.len() == 0 {
                    return Err(
                        PruningError::PruningFailed(
                            String::from_str("Hybrid manifest missing layer mapping"),
                        ),
                    );
                }
                if sparsity_layers == 0 {
                    return Err(
                        PruningError::PruningFailed(
                            String::from_str("Hybrid manifest missing layer sparsity"),
                        ),
                    );
                }
                Ok(())
            },
        }
    }
}

/// Tail pruning's map removes exactly the layers past those kept: a layer
/// of the model is removed if and only if it is not among the kept ones, and
/// a kept layer keeps its number.
pub proof fn law_tail_mapping_matches_kept_layers(total: usize, layers_to_remove: usize, k: usize)
    requires
        k < total,
    ensures
        ({
            let kept = sat_sub(total as int, layers_to_remove as int);
            let m = tail_map(total as nat, kept);
            &&& m.contains_key(k)
            &&& (m[k] is None <==> !index_range(0, kept).contains(k))
            &&& (m[k] is Some ==> m[k] == Some(k))
        }),
{
    let kept = sat_sub(total as int, layers_to_remove as int);
    if k < kept {
        assert(index_range(0, kept)[k as int] == k);
    }
}

} // verus!
