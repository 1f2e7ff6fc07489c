//! Multi-GPU planning: parallelism modes, strategy recommendation from a
//! device topology, configuration checks, and the distribution of layers over
//! pipeline stages.

use vstd::prelude::*;
use vstd::string::*;
use crate::text::{decimal, decimal_spec};
use crate::name_mapping::{ModelArchitecture, TensorNameMapper, string_views, layers_of,
    detect_architecture_spec, entry_views, MapEntry};
use crate::eviction::strictly_sorted;

verus! {

broadcast use vstd::string::group_string_axioms;

/// Parallelism strategy for multi-GPU inference.
#[derive(Clone, Copy, Debug, PartialEq, Eq, Structural)]
pub enum ParallelismMode {
    /// Single GPU (no parallelism)
    Single,
    /// Tensor parallelism: split weights across GPUs
    TensorParallel { world_size: usize },
    /// Pipeline parallelism: split layers across GPUs
    PipelineParallel { num_stages: usize, micro_batch_size: usize },
    /// Tensor parallelism within stages, pipeline between stages
    Hybrid { tensor_world_size: usize, pipeline_stages: usize, micro_batch_size: usize },
}

/// GPUs that a mode needs.
pub open spec fn mode_gpus(m: ParallelismMode) -> int {
    match m {
        ParallelismMode::Single => 1,
        ParallelismMode::TensorParallel { world_size } => world_size as int,
        ParallelismMode::PipelineParallel { num_stages, .. } => num_stages as int,
        ParallelismMode::Hybrid { tensor_world_size, pipeline_stages, .. } => tensor_world_size
            * pipeline_stages,
    }
}

/// How a mode communicates.
pub open spec fn pattern_spec(m: ParallelismMode) -> Seq<char> {
    match m {
        ParallelismMode::Single => "None"@,
        ParallelismMode::TensorParallel { .. } => "All-reduce per layer (high frequency)"@,
        ParallelismMode::PipelineParallel { .. } => "Point-to-point between stages (low frequency)"@,
        ParallelismMode::Hybrid { .. } => "All-reduce within stages + P2P between stages"@,
    }
}

/// Which of the four modes `m` is.
pub open spec fn mode_kind(m: ParallelismMode) -> int {
    match m {
        ParallelismMode::Single => 0,
        ParallelismMode::TensorParallel { .. } => 1,
        ParallelismMode::PipelineParallel { .. } => 2,
        ParallelismMode::Hybrid { .. } => 3,
    }
}

impl ParallelismMode {
    /// Total number of GPUs required: for a hybrid, the product of its two
    /// dimensions.
    pub fn num_gpus(&self) -> (r: usize)
        requires
            mode_gpus(*self) <= usize::MAX,
        ensures
            r == mode_gpus(*self),
    {
        match self {
            Self::Single => 1,
            Self::TensorParallel { world_size } => *world_size,
            Self::PipelineParallel { num_stages, .. } => *num_stages,
            Self::Hybrid { tensor_world_size, pipeline_stages, .. } => *tensor_world_size
                * *pipeline_stages,
        }
    }

    /// Description of the communication pattern.
    pub fn communication_pattern(&self) -> (r: &'static str)
        ensures
            r@ == pattern_spec(*self),
    {
        match self {
            Self::Single => "None",
            Self::TensorParallel { .. } => "All-reduce per layer (high frequency)",
            Self::PipelineParallel { .. } => "Point-to-point between stages (low frequency)",
            Self::Hybrid { .. } => "All-reduce within stages + P2P between stages",
        }
    }
}

/// Modes of different kinds describe different communication patterns, so
/// the description identifies the kind of mode.
pub proof fn law_patterns_are_distinct(a: ParallelismMode, b: ParallelismMode)
    requires
        mode_kind(a) != mode_kind(b),
    ensures
        pattern_spec(a) != pattern_spec(b),
{
    reveal_strlit("None");
    reveal_strlit("All-reduce per layer (high frequency)");
    reveal_strlit("Point-to-point between stages (low frequency)");
    reveal_strlit("All-reduce within stages + P2P between stages");
    let p = "Point-to-point between stages (low frequency)"@;
    let h = "All-reduce within stages + P2P between stages"@;
    assert(p[0] != h[0]);
    assert(p != h);
    assert("None"@.len() == 4);
    assert("All-reduce per layer (high frequency)"@.len() == 37);
    assert(p.len() == 45);
    assert(h.len() == 45);
}

/// Communication backend for cross-GPU operations.
#[derive(Clone, Copy, Debug, PartialEq, Eq, Structural)]
pub enum CommunicationBackend {
    /// The tensor library's own multi-device support
    Candle,
    /// NCCL, where available
    NCCL,
}

/// Load balancing strategy.
#[derive(Clone, Copy, Debug, PartialEq, Eq, Structural)]
pub enum LoadBalancingStrategy {
    /// Balance by memory usage
    MemoryAware,
    /// Balance by compute time
    ComputeAware,
    /// Static round-robin
    RoundRobin,
}

/// Cache synchronization strategy for a distributed KV cache.
#[derive(Clone, Copy, Debug, PartialEq, Eq, Structural)]
pub enum CacheSyncStrategy {
    /// Full cache on each GPU
    Replicated,
    /// Cache sharded across GPUs
    Sharded,
    /// Frequently used entries replicated, the rest sharded
    Hybrid,
}

/// Pipeline scheduling strategy.
#[derive(Clone, Copy, Debug, PartialEq, Eq, Structural)]
pub enum PipelineStrategy {
    /// Strict forward/backward separation
    GPipe,
    /// Interleaved forward/backward
    PipeDream,
    /// One forward, one backward per stage
    Interleaved1F1B,
}

/// Weight sharding strategy for tensor parallelism.
#[derive(Clone, Copy, Debug, PartialEq, Eq, Structural)]
pub enum ShardingStrategy {
    /// Split along the output dimension
    ColumnWise,
    /// Split along the input dimension
    RowWise,
    /// Column for some layers, row for others
    Hybrid,
}

/// Kind of link between two GPUs.
#[derive(Clone, Copy, Debug, PartialEq, Eq, Structural)]
pub enum LinkType {
    NVLink,
    PCIe,
}

/// What the planning logic knows of the devices: how many there are, their
/// memory, and which pairs can reach each other directly.
pub struct DeviceTopology {
    pub num_devices: usize,
    /// Memory capacity per device (bytes)
    pub memory_capacity: Vec<usize>,
    /// Available memory per device (bytes)
    pub memory_available: Vec<usize>,
    /// Can device i access device j directly?
    pub p2p_access: Vec<Vec<bool>>,
}

/// Errors of multi-GPU planning.
#[derive(Clone, Copy, Debug, PartialEq, Eq, Structural)]
pub enum MultiGpuError {
    /// A strategy was asked for a topology without devices.
    NoDevices,
    /// The model needs more memory than all devices together have.
    ModelTooLarge { required: usize, available: usize },
    /// More GPUs were requested than exist.
    NotEnoughGpus { requested: usize, available: usize },
    /// The mode needs a different number of GPUs than requested.
    ModeMismatch { required: usize, requested: usize },
    /// A configuration needs more GPUs than its topology has.
    ConfigNeedsMore { required: usize, available: usize },
    /// Devices and pipeline stages differ in number.
    DeviceStageMismatch { devices: usize, stages: usize },
    /// Fewer layers than pipeline stages (`detected`: the layers were found
    /// from tensor names).
    TooFewLayers { layers: usize, stages: usize, detected: bool },
}

/// The message of an error.
pub open spec fn error_message(e: MultiGpuError) -> Seq<char> {
    match e {
        MultiGpuError::NoDevices => "Cannot recommend a parallelism strategy for a topology with no devices"@,
        MultiGpuError::ModelTooLarge { required, available } => "Model too large for available GPU memory: "@
            + decimal_spec(required as nat) + " bytes required, "@ + decimal_spec(available as nat)
            + " available"@,
        MultiGpuError::NotEnoughGpus { requested, available } => "Requested "@ + decimal_spec(
            requested as nat,
        ) + " GPUs but only "@ + decimal_spec(available as nat) + " available"@,
        MultiGpuError::ModeMismatch { required, requested } => "Parallelism mode requires "@
            + decimal_spec(required as nat) + " GPUs but "@ + decimal_spec(requested as nat)
            + " requested"@,
        MultiGpuError::ConfigNeedsMore { required, available } => "Configuration requires "@
            + decimal_spec(required as nat) + " GPUs but only "@ + decimal_spec(available as nat)
            + " available"@,
        MultiGpuError::DeviceStageMismatch { devices, stages } => "Number of devices ("@
            + decimal_spec(devices as nat) + ") must match number of stages ("@ + decimal_spec(
            stages as nat,
        ) + ")"@,
        MultiGpuError::TooFewLayers { layers, stages, detected } => (if detected {
            "Number of detected layers ("@
        } else {
            "Number of layers ("@
        }) + decimal_spec(layers as nat) + ") must be >= number of stages ("@ + decimal_spec(
            stages as nat,
        ) + ")"@,
    }
}

impl MultiGpuError {
    /// The error's message.
    pub fn to_string(&self) -> (r: String)
        ensures
            r@ == error_message(*self),
    {
        match self {
            MultiGpuError::NoDevices => String::from_str(
                "Cannot recommend a parallelism strategy for a topology with no devices",
            ),
            MultiGpuError::ModelTooLarge { required, available } => {
                let mut s = String::from_str("Model too large for available GPU memory: ");
                s.append(decimal(*required).as_str());
                s.append(" bytes required, ");
                s.append(decimal(*available).as_str());
                s.append(" available");
                s
            },
            MultiGpuError::NotEnoughGpus { requested, available } => {
                let mut s = String::from_str("Requested ");
                s.append(decimal(*requested).as_str());
                s.append(" GPUs but only ");
                s.append(decimal(*available).as_str());
                s.append(" available");
                s
            },
            MultiGpuError::ModeMismatch { required, requested } => {
                let mut s = String::from_str("Parallelism mode requires ");
                s.append(decimal(*required).as_str());
                s.append(" GPUs but ");
                s.append(decimal(*requested).as_str());
                s.append(" requested");
                s
            },
            MultiGpuError::ConfigNeedsMore { required, available } => {
                let mut s = String::from_str("Configuration requires ");
                s.append(decimal(*required).as_str());
                s.append(" GPUs but only ");
                s.append(decimal(*available).as_str());
                s.append(" available");
                s
            },
            MultiGpuError::DeviceStageMismatch { devices, stages } => {
                let mut s = String::from_str("Number of devices (");
                s.append(decimal(*devices).as_str());
                s.append(") must match number of stages (");
                s.append(decimal(*stages).as_str());
                s.append(")");
                s
            },
            MultiGpuError::TooFewLayers { layers, stages, detected } => {
                let mut s = if *detected {
                    String::from_str("Number of detected layers (")
                } else {
                    String::from_str("Number of layers (")
                };
                s.append(decimal(*layers).as_str());
                s.append(") must be >= number of stages (");
                s.append(decimal(*stages).as_str());
                s.append(")");
                s
            },
        }
    }
}

/// The sum of a list of sizes.
pub open spec fn seq_sum(s: Seq<usize>) -> nat
    decreases s.len(),
{
    if s.len() == 0 {
        0
    } else {
        seq_sum(s.drop_last()) + (s.last() as nat)
    }
}

proof fn lemma_sum_prefix(s: Seq<usize>, k: int)
    requires
        0 <= k <= s.len(),
    ensures
        seq_sum(s.take(k)) <= seq_sum(s),
    decreases s.len(),
{
    if k < s.len() {
        assert(s.drop_last().take(k) =~= s.take(k));
        lemma_sum_prefix(s.drop_last(), k);
    } else {
        assert(s.take(k) =~= s);
    }
}

proof fn lemma_sum_first_two(s: Seq<usize>)
    requires
        s.len() >= 2,
    ensures
        s[0] + s[1] <= seq_sum(s),
{
    lemma_sum_prefix(s, 2);
    let t2 = s.take(2);
    let t1 = s.take(1);
    assert(t2.drop_last() =~= t1);
    assert(t1.drop_last() =~= Seq::<usize>::empty());
    assert(seq_sum(Seq::<usize>::empty()) == 0);
    assert(seq_sum(t1) == s[0]);
    assert(seq_sum(t2) == s[0] + s[1]);
}

/// The strategy recommended for a model of `model` bytes.
pub open spec fn recommend_spec(t: &DeviceTopology, model: usize) -> Result<
    ParallelismMode,
    MultiGpuError,
> {
    let avail = t.memory_available@;
    let total = seq_sum(avail);
    if avail.len() == 0 {
        Err(MultiGpuError::NoDevices)
    } else if model > total {
        Err(MultiGpuError::ModelTooLarge { required: model, available: total as usize })
    } else if model < avail[0] {
        Ok(ParallelismMode::Single)
    } else if t.num_devices >= 2 && model < avail[0] + avail[1] {
        Ok(ParallelismMode::TensorParallel { world_size: 2 })
    } else {
        Ok(
            ParallelismMode::PipelineParallel {
                num_stages: if t.num_devices < 4 {
                    t.num_devices
                } else {
                    4
                },
                micro_batch_size: 1,
            },
        )
    }
}

/// A pipeline may have `j` stages on `n` devices: at most one per device,
/// and at most four.
pub open spec fn stages_allowed(j: int, n: usize) -> bool {
    0 <= j <= 4 && j <= n
}

/// Every recommendation fits the model in the memory of the devices it
/// uses: a single device holds it, two-way tensor parallelism's two devices
/// together hold it, and a pipeline uses as many devices as it may (at most
/// four), which hold it whenever the machine has no more than four.  A model
/// larger than all memory together is refused with both sizes.
pub proof fn law_recommendation_fits_the_model(t: DeviceTopology, model: usize)
    requires
        t.num_devices == t.memory_available@.len(),
    ensures
        ({
            let avail = t.memory_available@;
            match recommend_spec(&t, model) {
                Ok(ParallelismMode::Single) => model < seq_sum(avail.take(1)),
                Ok(ParallelismMode::TensorParallel { world_size }) => 2 <= world_size
                    <= t.num_devices && model < seq_sum(avail.take(world_size as int)),
                Ok(ParallelismMode::PipelineParallel { num_stages, micro_batch_size }) => {
                    &&& 1 <= num_stages <= t.num_devices
                    &&& num_stages <= 4
                    &&& micro_batch_size >= 1
                    &&& forall|j: int| #[trigger] stages_allowed(j, t.num_devices) ==> j <= num_stages
                    &&& t.num_devices <= 4 ==> model <= seq_sum(avail.take(num_stages as int))
                },
                Ok(ParallelismMode::Hybrid { .. }) => false,
                Err(MultiGpuError::ModelTooLarge { required, available }) => required == model
                    && model > seq_sum(avail) && available == seq_sum(avail) as usize,
                Err(MultiGpuError::NoDevices) => avail.len() == 0,
                Err(_) => false,
            }
        }),
{
    let avail = t.memory_available@;
    if avail.len() >= 1 {
        assert(avail.take(1).drop_last() =~= Seq::<usize>::empty());
        assert(avail.take(1).last() == avail[0]);
    }
    if avail.len() >= 2 {
        assert(avail.take(2).drop_last() =~= avail.take(1));
        assert(avail.take(2).last() == avail[1]);
    }
    assert(avail.take(avail.len() as int) =~= avail);
}

impl DeviceTopology {
    /// Number of devices.
    pub fn num_gpus(&self) -> (r: usize)
        ensures
            r == self.num_devices,
    {
        self.num_devices
    }

    /// The recommended parallelism strategy for a model of
    /// `model_size_bytes`: none if it fits on the first device, two-way
    /// tensor parallelism if it fits on the first two, else a pipeline of at
    /// most four stages.  A model larger than all memory together, or a
    /// topology without devices, is an error.
    pub fn recommend_strategy(&self, model_size_bytes: usize) -> (r: Result<
        ParallelismMode,
        MultiGpuError,
    >)
        requires
            seq_sum(self.memory_available@) <= usize::MAX,
            self.memory_available@.len() > 0 && model_size_bytes <= seq_sum(
                self.memory_available@,
            ) && model_size_bytes >= self.memory_available@[0] && self.num_devices >= 2
                ==> self.memory_available@.len() >= 2,
        ensures
            r == recommend_spec(self, model_size_bytes),
    {
        let avail = &self.memory_available;
        let mut total: usize = 0;
        let mut i: usize = 0;
        while i < avail.len()
            invariant
                i <= avail@.len(),
                seq_sum(avail@) <= usize::MAX,
                total == seq_sum(avail@.take(i as int)),
            decreases avail@.len() - i,
        {
            proof {
                lemma_sum_prefix(avail@, i + 1);
            }
            assert(avail@.take(i + 1).drop_last() =~= avail@.take(i as int));
            total = total + avail[i];
            i = i + 1;
        }
        assert(avail@.take(avail@.len() as int) =~= avail@);
        if avail.len() == 0 {
            return Err(MultiGpuError::NoDevices);
        }
        if model_size_bytes > total {
            return Err(
                MultiGpuError::ModelTooLarge { required: model_size_bytes, available: total },
            );
        }
        if model_size_bytes < avail[0] {
            return Ok(ParallelismMode::Single);
        }
        if self.num_devices >= 2 {
            proof {
                lemma_sum_first_two(avail@);
            }
            if model_size_bytes < avail[0] + avail[1] {
                return Ok(ParallelismMode::TensorParallel { world_size: 2 });
            }
        }
        let stages = if self.num_devices < 4 {
            self.num_devices
        } else {
            4
        };
        Ok(ParallelismMode::PipelineParallel { num_stages: stages, micro_batch_size: 1 })
    }
}

/// Multi-GPU inference configuration.
pub struct MultiGPUConfig {
    pub mode: ParallelismMode,
    pub topology: DeviceTopology,
    pub sharding_strategy: ShardingStrategy,
    pub communication_backend: CommunicationBackend,
    pub distributed_kv_cache: bool,
    pub load_balancing: LoadBalancingStrategy,
}

/// The defaults that a configuration is made with besides its mode and
/// topology.
pub open spec fn has_defaults(c: MultiGPUConfig) -> bool {
    &&& c.sharding_strategy == ShardingStrategy::ColumnWise
    &&& c.communication_backend == CommunicationBackend::Candle
    &&& c.distributed_kv_cache
    &&& c.load_balancing == LoadBalancingStrategy::MemoryAware
}

impl MultiGPUConfig {
    fn with_defaults(mode: ParallelismMode, topology: DeviceTopology) -> (r: Self)
        ensures
            r.mode == mode,
            r.topology == topology,
            has_defaults(r),
    {
        MultiGPUConfig {
            mode,
            topology,
            sharding_strategy: ShardingStrategy::ColumnWise,
            communication_backend: CommunicationBackend::Candle,
            distributed_kv_cache: true,
            load_balancing: LoadBalancingStrategy::MemoryAware,
        }
    }

    /// A configuration over a discovered topology, with the recommended
    /// strategy for a model of `model_size_bytes`.
    pub fn auto_with(model_size_bytes: usize, topology: DeviceTopology) -> (r: Result<
        Self,
        MultiGpuError,
    >)
        requires
            seq_sum(topology.memory_available@) <= usize::MAX,
            topology.memory_available@.len() > 0 && model_size_bytes <= seq_sum(
                topology.memory_available@,
            ) && model_size_bytes >= topology.memory_available@[0] && topology.num_devices >= 2
                ==> topology.memory_available@.len() >= 2,
        ensures
            match recommend_spec(&topology, model_size_bytes) {
                Ok(m) => r matches Ok(c) && c.mode == m && c.topology == topology && has_defaults(c),
                Err(e) => r == Err::<Self, MultiGpuError>(e),
            },
    {
        match topology.recommend_strategy(model_size_bytes) {
            Ok(mode) => Ok(Self::with_defaults(mode, topology)),
            Err(e) => Err(e),
        }
    }

    /// A configuration with a chosen mode over a discovered topology: the
    /// topology must have at least `num_devices` GPUs and the mode must need
    /// exactly that many.
    pub fn manual_with(mode: ParallelismMode, num_devices: usize, topology: DeviceTopology) -> (r:
        Result<Self, MultiGpuError>)
        requires
            mode_gpus(mode) <= usize::MAX,
        ensures
            topology.num_devices < num_devices ==> r == Err::<Self, MultiGpuError>(
                MultiGpuError::NotEnoughGpus {
                    requested: num_devices,
                    available: topology.num_devices,
                },
            ),
            topology.num_devices >= num_devices && mode_gpus(mode) != num_devices ==> r == Err::<
                Self,
                MultiGpuError,
            >(
                MultiGpuError::ModeMismatch {
                    required: mode_gpus(mode) as usize,
                    requested: num_devices,
                },
            ),
            topology.num_devices >= num_devices && mode_gpus(mode) == num_devices ==> (r matches Ok(
                c,
            ) && c.mode == mode && c.topology == topology && has_defaults(c)),
    {
        if topology.num_gpus() < num_devices {
            return Err(
                MultiGpuError::NotEnoughGpus {
                    requested: num_devices,
                    available: topology.num_gpus(),
                },
            );
        }
        if mode.num_gpus() != num_devices {
            return Err(
                MultiGpuError::ModeMismatch { required: mode.num_gpus(), requested: num_devices },
            );
        }
        Ok(Self::with_defaults(mode, topology))
    }

    /// Check that the topology has the GPUs that the mode needs.
    pub fn validate(&self) -> (r: Result<(), MultiGpuError>)
        requires
            mode_gpus(self.mode) <= usize::MAX,
        ensures
            mode_gpus(self.mode) > self.topology.num_devices ==> r == Err::<(), MultiGpuError>(
                MultiGpuError::ConfigNeedsMore {
                    required: mode_gpus(self.mode) as usize,
                    available: self.topology.num_devices,
                },
            ),
            mode_gpus(self.mode) <= self.topology.num_devices ==> r is Ok,
    {
        if self.mode.num_gpus() > self.topology.num_gpus() {
            return Err(
                MultiGpuError::ConfigNeedsMore {
                    required: self.mode.num_gpus(),
                    available: self.topology.num_gpus(),
                },
            );
        }
        Ok(())
    }
}

// ---------------------------------------------------------------------------
// Pipeline stages
// ---------------------------------------------------------------------------

/// First position of stage `s` when `total` layers go to `n` stages: each
/// stage takes `total / n`, the last one also the remainder.
pub open spec fn stage_lo(n: nat, total: nat, s: nat) -> nat {
    s * (total / n)
}

/// One past the last position of stage `s`.
pub open spec fn stage_hi(n: nat, total: nat, s: nat) -> nat {
    if s + 1 == n {
        total
    } else {
        (s + 1) * (total / n)
    }
}

/// The integers `a .. b`.
pub open spec fn int_range(a: nat, b: nat) -> Seq<usize> {
    Seq::new((b - a) as nat, |k: int| (a + k) as usize)
}

proof fn lemma_stage_bounds(n: nat, total: nat, s: nat)
    requires
        0 < n,
        s < n,
    ensures
        stage_lo(n, total, s) <= stage_hi(n, total, s) <= total,
{
    let q = total / n;
    assert(n * q <= total) by (nonlinear_arith)
        requires
            0 < n,
            q == total / n,
    {}
    assert(s * q <= (s + 1) * q) by (nonlinear_arith)
        requires
            q >= 0,
    {}
    assert((s + 1) * q <= n * q) by (nonlinear_arith)
        requires
            q >= 0,
            s + 1 <= n,
    {}
}

/// The bounds of stage `s`.
fn stage_bounds(n: usize, total: usize, s: usize) -> (r: (usize, usize))
    requires
        0 < n,
        s < n,
    ensures
        r.0 == stage_lo(n as nat, total as nat, s as nat),
        r.1 == stage_hi(n as nat, total as nat, s as nat),
        r.0 <= r.1 <= total,
{
    proof {
        lemma_stage_bounds(n as nat, total as nat, s as nat);
    }
    let q = total / n;
    let lo = s * q;
    let hi = if s == n - 1 {
        total
    } else {
        (s + 1) * q
    };
    (lo, hi)
}

/// One stage of a pipeline: its number and the layers it runs.
pub struct PipelineStage {
    /// Stage ID (0 to num_stages - 1)
    pub stage_id: usize,
    /// Layer indices of this stage
    pub layers: Vec<usize>,
}

impl PipelineStage {
    pub fn new(stage_id: usize, layers: Vec<usize>) -> (r: Self)
        ensures
            r.stage_id == stage_id,
            r.layers@ == layers@,
    {
        PipelineStage { stage_id, layers }
    }

    /// Number of layers in this stage.
    pub fn num_layers(&self) -> (r: usize)
        ensures
            r == self.layers@.len(),
    {
        self.layers.len()
    }
}

/// Pipeline parallel scheduler: the stages and how micro-batches run.
pub struct PipelineScheduler {
    pub stages: Vec<PipelineStage>,
    pub micro_batch_size: usize,
    pub strategy: PipelineStrategy,
    /// The name mapper, where the layers were found from tensor names
    pub name_mapper: Option<TensorNameMapper>,
}

/// Stage `i` is numbered `i` and holds `layers[lo .. hi)` of its share.
pub open spec fn stages_split(stages: Seq<PipelineStage>, layers: Seq<usize>, n: nat) -> bool {
    &&& stages.len() == n
    &&& forall|i: int|
        0 <= i < n ==> (#[trigger] stages[i]).stage_id == i && stages[i].layers@ == layers.subrange(
            stage_lo(n, layers.len(), i as nat) as int,
            stage_hi(n, layers.len(), i as nat) as int,
        )
}

/// What a mapper built from `names` holds.
pub open spec fn mapper_of(m: TensorNameMapper, names: Seq<Seq<char>>) -> bool {
    &&& m.architecture == detect_architecture_spec(names)
    &&& m.entries() == crate::name_mapping::mapping_entries(m.architecture, names)
    &&& strictly_sorted(m.layer_indices@)
    &&& m.layer_indices@.to_set() == layers_of(m.architecture, names)
}

/// The stages that `layers` are split into: `stages_split` over a list
/// of layer numbers.
fn split_layers(layers: &Vec<usize>, n: usize) -> (r: Vec<PipelineStage>)
    requires
        0 < n,
        n <= layers@.len(),
    ensures
        stages_split(r@, layers@, n as nat),
{
    let total = layers.len();
    let mut stages: Vec<PipelineStage> = Vec::new();
    let mut s: usize = 0;
    while s < n
        invariant
            0 < n <= layers@.len(),
            total == layers@.len(),
            s <= n,
            stages@.len() == s,
            forall|i: int|
                0 <= i < s ==> (#[trigger] stages@[i]).stage_id == i && stages@[i].layers@
                    == layers@.subrange(
                    stage_lo(n as nat, total as nat, i as nat) as int,
                    stage_hi(n as nat, total as nat, i as nat) as int,
                ),
        decreases n - s,
    {
        let (lo, hi) = stage_bounds(n, total, s);
        let mut part: Vec<usize> = Vec::new();
        let mut k: usize = lo;
        while k < hi
            invariant
                lo <= k <= hi <= layers@.len(),
                part@ == layers@.subrange(lo as int, k as int),
            decreases hi - k,
        {
            part.push(layers[k]);
            assert(part@ =~= layers@.subrange(lo as int, k + 1));
            k = k + 1;
        }
        stages.push(PipelineStage::new(s, part));
        s = s + 1;
    }
    stages
}

/// Stage `s` of `total` positions split `n` ways holds the integers of its
/// range.
fn range_vec(a: usize, b: usize) -> (r: Vec<usize>)
    requires
        a <= b,
    ensures
        r@ == int_range(a as nat, b as nat),
{
    let mut v: Vec<usize> = Vec::new();
    let mut k: usize = a;
    while k < b
        invariant
            a <= k <= b,
            v@ == int_range(a as nat, k as nat),
        decreases b - k,
    {
        v.push(k);
        assert(v@ =~= int_range(a as nat, (k + 1) as nat));
        k = k + 1;
    }
    v
}

/// The first stage at or after `from` whose layers include `layer`.
pub open spec fn stage_from(stages: Seq<PipelineStage>, layer: usize, from: int) -> Option<int>
    decreases stages.len() - from,
{
    if from < 0 || from >= stages.len() {
        None
    } else if stages[from].layers@.contains(layer) {
        Some(from)
    } else {
        stage_from(stages, layer, from + 1)
    }
}

/// Whether `v` holds `x`.
fn contains_usize(v: &Vec<usize>, x: usize) -> (r: bool)
    ensures
        r == v@.contains(x),
{
    let mut k: usize = 0;
    while k < v.len()
        invariant
            k <= v@.len(),
            forall|j: int| 0 <= j < k ==> v@[j] != x,
        decreases v@.len() - k,
    {
        if v[k] == x {
            assert(v@[k as int] == x);
            return true;
        }
        k = k + 1;
    }
    false
}

/// The first entry at or after `from` whose tensor is named `n`.
pub open spec fn entry_named(es: Seq<MapEntry>, n: Seq<char>, from: int) -> Option<int>
    decreases es.len() - from,
{
    if from < 0 || from >= es.len() {
        None
    } else if es[from].1 == n {
        Some(from)
    } else {
        entry_named(es, n, from + 1)
    }
}

impl PipelineScheduler {
    /// A scheduler over `num_devices` devices, one stage per device, with
    /// `num_layers` layers spread evenly (the last stage takes the
    /// remainder).
    pub fn new(
        num_stages: usize,
        num_layers: usize,
        num_devices: usize,
        micro_batch_size: usize,
        strategy: PipelineStrategy,
    ) -> (r: Result<Self, MultiGpuError>)
        requires
            num_stages > 0 || num_devices != num_stages,
        ensures
            num_devices != num_stages ==> r == Err::<Self, MultiGpuError>(
                MultiGpuError::DeviceStageMismatch { devices: num_devices, stages: num_stages },
            ),
            num_devices == num_stages && num_layers < num_stages ==> r == Err::<Self, MultiGpuError>(
                MultiGpuError::TooFewLayers {
                    layers: num_layers,
                    stages: num_stages,
                    detected: false,
                },
            ),
            num_devices == num_stages && num_layers >= num_stages ==> (r matches Ok(p)
                && stages_split(p.stages@, int_range(0, num_layers as nat), num_stages as nat)
                && p.micro_batch_size == micro_batch_size && p.strategy == strategy
                && p.name_mapper is None),
    {
        if num_devices != num_stages {
            return Err(MultiGpuError::DeviceStageMismatch { devices: num_devices, stages: num_stages });
        }
        if num_layers < num_stages {
            return Err(
                MultiGpuError::TooFewLayers { layers: num_layers, stages: num_stages, detected: false },
            );
        }
        let all = range_vec(0, num_layers);
        let stages = split_layers(&all, num_stages);
        Ok(PipelineScheduler { stages, micro_batch_size, strategy, name_mapper: None })
    }

    /// A scheduler whose layers are found from the model's tensor names
    /// and spread evenly over one stage per device.
    pub fn from_tensor_names(
        num_stages: usize,
        tensor_names: &[String],
        num_devices: usize,
        micro_batch_size: usize,
        strategy: PipelineStrategy,
    ) -> (r: Result<Self, MultiGpuError>)
        requires
            num_stages > 0 || num_devices != num_stages,
        ensures
            num_devices != num_stages ==> r == Err::<Self, MultiGpuError>(
                MultiGpuError::DeviceStageMismatch { devices: num_devices, stages: num_stages },
            ),
            num_devices == num_stages && layers_of(
                detect_architecture_spec(string_views(tensor_names@)),
                string_views(tensor_names@),
            ).len() < num_stages ==> r == Err::<Self, MultiGpuError>(
                MultiGpuError::TooFewLayers {
                    layers: layers_of(
                        detect_architecture_spec(string_views(tensor_names@)),
                        string_views(tensor_names@),
                    ).len() as usize,
                    stages: num_stages,
                    detected: true,
                },
            ),
            num_devices == num_stages && layers_of(
                detect_architecture_spec(string_views(tensor_names@)),
                string_views(tensor_names@),
            ).len() >= num_stages ==> (r matches Ok(p) && p.name_mapper matches Some(m)
                && mapper_of(m, string_views(tensor_names@)) && stages_split(
                p.stages@,
                m.layer_indices@,
                num_stages as nat,
            ) && p.micro_batch_size == micro_batch_size && p.strategy == strategy),
    {
        if num_devices != num_stages {
            return Err(MultiGpuError::DeviceStageMismatch { devices: num_devices, stages: num_stages });
        }
        let name_mapper = TensorNameMapper::from_tensor_names(tensor_names);
        let num_layers = name_mapper.layer_indices.len();
        proof {
            let s = name_mapper.layer_indices@;
            assert(s.no_duplicates()) by {
                assert forall|i: int, j: int|
                    0 <= i < s.len() && 0 <= j < s.len() && i != j implies s[i] != s[j] by {
                    if i < j {
                        assert(s[i] < s[j]);
                    } else {
                        assert(s[j] < s[i]);
                    }
                }
            }
            s.unique_seq_to_set();
        }
        if num_layers < num_stages {
            return Err(
                MultiGpuError::TooFewLayers { layers: num_layers, stages: num_stages, detected: true },
            );
        }
        let stages = split_layers(&name_mapper.layer_indices, num_stages);
        Ok(PipelineScheduler { stages, micro_batch_size, strategy, name_mapper: Some(name_mapper) })
    }

    /// The stage whose layers include `layer_idx` (the first such), by its
    /// number.
    pub fn get_stage_for_layer(&self, layer_idx: usize) -> (r: Option<usize>)
        ensures
            match stage_from(self.stages@, layer_idx, 0) {
                Some(i) => r == Some(self.stages@[i].stage_id),
                None => r is None,
            },
    {
        let mut i: usize = 0;
        while i < self.stages.len()
            invariant
                i <= self.stages@.len(),
                stage_from(self.stages@, layer_idx, 0) == stage_from(self.stages@, layer_idx, i as int),
            decreases self.stages@.len() - i,
        {
            let st = &self.stages[i];
            if contains_usize(&st.layers, layer_idx) {
                return Some(st.stage_id);
            }
            i = i + 1;
        }
        None
    }

    /// The stage of the tensor named `tensor_name`: of the layer that the
    /// mapper binds it to.  `None` without a mapper or for an unmapped name.
    pub fn get_gpu_for_tensor(&self, tensor_name: &str) -> (r: Option<usize>)
        ensures
            match self.name_mapper {
                None => r is None,
                Some(m) => match entry_named(m.entries(), tensor_name@, 0) {
                    None => r is None,
                    Some(j) => match stage_from(self.stages@, m.entries()[j].0.0, 0) {
                        Some(i) => r == Some(self.stages@[i].stage_id),
                        None => r is None,
                    },
                },
            },
    {
        let mapper = match &self.name_mapper {
            Some(m) => m,
            None => {
                return None;
            },
        };
        let ghost es = mapper.entries();
        let want = crate::text::chars_of(tensor_name);
        let mut j: usize = 0;
        while j < mapper.mappings.len()
            invariant
                j <= mapper.mappings@.len(),
                self.name_mapper == Some(*mapper),
                es == mapper.entries(),
                want@ == tensor_name@,
                entry_named(es, tensor_name@, 0) == entry_named(es, tensor_name@, j as int),
            decreases mapper.mappings@.len() - j,
        {
            let nm = crate::text::chars_of(mapper.mappings[j].1.as_str());
            assert(es[j as int] == (mapper.mappings@[j as int].0, mapper.mappings@[j as int].1@));
            if nm.len() == want.len() && crate::text::matches_at(&nm, &want, 0) {
                assert(nm@ =~= want@);
                assert(es[j as int].1 == tensor_name@);
                assert(entry_named(es, tensor_name@, j as int) == Some(j as int));
                return self.get_stage_for_layer((mapper.mappings[j].0).0);
            }
            proof {
                if nm@ == want@ {
                    assert(nm@.subrange(0, want@.len() as int) =~= nm@);
                }
            }
            j = j + 1;
        }
        None
    }

    /// The detected architecture, where there is a mapper.
    pub fn detected_architecture(&self) -> (r: Option<&ModelArchitecture>)
        ensures
            match self.name_mapper {
                Some(m) => r == Some(&m.architecture),
                None => r is None,
            },
    {
        match &self.name_mapper {
            Some(m) => Some(&m.architecture),
            None => None,
        }
    }

    /// The number of detected layers, where there is a mapper.
    pub fn detected_layer_count(&self) -> (r: Option<usize>)
        ensures
            match self.name_mapper {
                Some(m) => r == Some(m.layer_indices@.len() as usize),
                None => r is None,
            },
    {
        match &self.name_mapper {
            Some(m) => Some(m.layer_indices.len()),
            None => None,
        }
    }

    /// Number of stages.
    pub fn num_stages(&self) -> (r: usize)
        ensures
            r == self.stages@.len(),
    {
        self.stages.len()
    }

    /// Stage `idx`, if there is one.
    pub fn stage(&self, idx: usize) -> (r: Option<&PipelineStage>)
        ensures
            idx < self.stages@.len() ==> r == Some(&self.stages@[idx as int]),
            idx >= self.stages@.len() ==> r is None,
    {
        if idx < self.stages.len() {
            Some(&self.stages[idx])
        } else {
            None
        }
    }

    /// The rows of each micro-batch that a batch of `batch_size` rows is cut
    /// into for execution, in order, each `micro_batch_size` rows but the
    /// last; or the refusal of a strategy that has no schedule yet.
    pub fn micro_batch_ranges(&self, batch_size: usize) -> (r: Result<
        Vec<std::ops::Range<usize>>,
        String,
    >)
        requires
            self.micro_batch_size > 0,
            batch_size + self.micro_batch_size <= usize::MAX,
        ensures
            match self.strategy {
                PipelineStrategy::GPipe => r matches Ok(v) && v@.len() == micro_batch_count(
                    batch_size as nat,
                    self.micro_batch_size as nat,
                ) && forall|i: int|
                    0 <= i < v@.len() ==> #[trigger] v@[i].start == i * self.micro_batch_size
                        && v@[i].end == micro_end(batch_size as nat, self.micro_batch_size as nat, i),
                PipelineStrategy::PipeDream => r matches Err(m) && m@
                    == "PipeDream scheduling not yet implemented"@,
                PipelineStrategy::Interleaved1F1B => r matches Err(m) && m@
                    == "Interleaved 1F1B scheduling not yet implemented"@,
            },
    {
        match self.strategy {
            PipelineStrategy::GPipe => {},
            PipelineStrategy::PipeDream => {
                return Err(String::from_str("PipeDream scheduling not yet implemented"));
            },
            PipelineStrategy::Interleaved1F1B => {
                return Err(String::from_str("Interleaved 1F1B scheduling not yet implemented"));
            },
        }
        let m = self.micro_batch_size;
        let mut out: Vec<std::ops::Range<usize>> = Vec::new();
        let mut start: usize = 0;
        let ghost mut k: int = 0;
        proof {
            assert(0 * m == 0);
            lemma_micro_count(batch_size as nat, m as nat, 0);
        }
        while start < batch_size
            invariant
                m == self.micro_batch_size,
                m > 0,
                batch_size + m <= usize::MAX,
                k == out@.len(),
                start == k * m,
                start < batch_size + m,
                k <= micro_batch_count(batch_size as nat, m as nat),
                start < batch_size ==> k < micro_batch_count(batch_size as nat, m as nat),
                start >= batch_size ==> k == micro_batch_count(batch_size as nat, m as nat),
                forall|i: int|
                    0 <= i < out@.len() ==> #[trigger] out@[i].start == i * m && out@[i].end
                        == micro_end(batch_size as nat, m as nat, i),
            decreases batch_size + m - start,
        {
            assert((k + 1) * m == k * m + m) by (nonlinear_arith);
            assert(micro_end(batch_size as nat, m as nat, k) == if start + m < batch_size {
                start + m
            } else {
                batch_size as int
            });
            let end = if start + m < batch_size {
                start + m
            } else {
                batch_size
            };
            let ghost before = out@;
            out.push(start..end);
            assert(out@[k].start == k * m && out@[k].end == micro_end(batch_size as nat, m as nat, k));
            assert forall|i: int| 0 <= i < out@.len() implies #[trigger] out@[i].start == i * m
                && out@[i].end == micro_end(batch_size as nat, m as nat, i) by {
                if i < k {
                    assert(out@[i] == before[i]);
                }
            }
            start = start + m;
            proof {
                k = k + 1;
                assert((k - 1) * m == k * m - m) by (nonlinear_arith);
                lemma_micro_count(batch_size as nat, m as nat, k);
            }
        }
        Ok(out)
    }
}

/// How many micro-batches of `m` rows cover `batch` rows.
pub open spec fn micro_batch_count(batch: nat, m: nat) -> nat {
    ((batch + m - 1) as nat / m) as nat
}

/// Where micro-batch `i` ends: `m` rows on, or the end of the batch.
pub open spec fn micro_end(batch: nat, m: nat, i: int) -> int {
    if (i + 1) * m < batch {
        (i + 1) * m
    } else {
        batch as int
    }
}

/// Micro-batches tile the batch: the first starts at row 0, each starts
/// where the one before ended, none is empty, and the last ends at the last
/// row, so splitting, running each and concatenating gives back every row
/// once, in order.
pub proof fn law_micro_batches_tile_the_batch(batch: nat, m: nat)
    requires
        m > 0,
        batch > 0,
    ensures
        ({
            let c = micro_batch_count(batch, m);
            &&& c >= 1
            &&& forall|i: int| 0 <= i < c ==> i * m < #[trigger] micro_end(batch, m, i)
            &&& forall|i: int| 0 <= i < c - 1 ==> #[trigger] micro_end(batch, m, i) == (i + 1) * m
            &&& micro_end(batch, m, c - 1) == batch
        }),
{
    let c = micro_batch_count(batch, m);
    lemma_micro_count(batch, m, 0);
    assert(0 * m == 0);
    assert forall|i: int| 0 <= i < c implies i * m < #[trigger] micro_end(batch, m, i) by {
        lemma_micro_count(batch, m, i);
        assert((i + 1) * m == i * m + m) by (nonlinear_arith);
    }
    assert forall|i: int| 0 <= i < c - 1 implies #[trigger] micro_end(batch, m, i) == (i + 1) * m by {
        lemma_micro_count(batch, m, i + 1);
    }
    lemma_micro_count(batch, m, c - 1);
    lemma_micro_count(batch, m, c as int);
    assert((c - 1 + 1) * m == c * m);
}

proof fn lemma_micro_count(batch: nat, m: nat, k: int)
    requires
        m > 0,
        k >= 0,
    ensures
        k * m < batch ==> k < micro_batch_count(batch, m),
        k * m >= batch ==> k >= micro_batch_count(batch, m),
        k * m >= batch && (k - 1) * m < batch ==> k == micro_batch_count(batch, m),
{
    let c = micro_batch_count(batch, m);
    assert(c * m <= batch + m - 1 < (c + 1) * m) by (nonlinear_arith)
        requires
            m > 0,
            c == ((batch + m - 1) as nat / m) as nat,
    {}
    assert((c + 1) * m == c * m + m) by (nonlinear_arith);
    assert(c * m >= batch);
    if k * m < batch {
        assert(k < c + 1) by (nonlinear_arith)
            requires
                k * m < batch,
                batch + m - 1 < (c + 1) * m,
                m > 0,
        {}
        assert(k < c) by (nonlinear_arith)
            requires
                k * m < batch,
                c * m >= batch,
                m > 0,
        {}
    }
    if k * m >= batch {
        assert(k >= c) by (nonlinear_arith)
            requires
                k * m >= batch,
                c * m <= batch + m - 1,
                m > 0,
                k >= 0,
        {}
    }
    if k * m >= batch && (k - 1) * m < batch {
        assert(k <= c) by (nonlinear_arith)
            requires
                (k - 1) * m < batch,
                batch + m - 1 < (c + 1) * m,
                m > 0,
        {}
    }
}

} // verus!
