use std::collections::BTreeSet;

use lightbulb::multi_gpu::{
    CommunicationBackend, DeviceTopology, LoadBalancingStrategy, MultiGPUConfig, MultiGpuError,
    ParallelismMode, PipelineScheduler, PipelineStrategy, ShardingStrategy,
};
use lightbulb::name_mapping::ModelArchitecture;

fn cpu_topology(n: usize) -> DeviceTopology {
    topology_with(1 << 30, n)
}

fn topology_with(memory_per_device: usize, n: usize) -> DeviceTopology {
    DeviceTopology {
        num_devices: n,
        memory_capacity: vec![memory_per_device; n],
        memory_available: vec![memory_per_device; n],
        p2p_access: vec![vec![false; n]; n],
    }
}

fn config_over(mode: ParallelismMode, gpus: usize) -> MultiGPUConfig {
    MultiGPUConfig {
        mode,
        topology: cpu_topology(gpus),
        sharding_strategy: ShardingStrategy::ColumnWise,
        communication_backend: CommunicationBackend::Candle,
        distributed_kv_cache: true,
        load_balancing: LoadBalancingStrategy::MemoryAware,
    }
}

#[test]
fn a_modes_gpu_count_is_the_product_for_hybrid() {
    assert_eq!(ParallelismMode::Single.num_gpus(), 1);
    assert_eq!(ParallelismMode::TensorParallel { world_size: 8 }.num_gpus(), 8);
    assert_eq!(
        ParallelismMode::PipelineParallel { num_stages: 4, micro_batch_size: 2 }.num_gpus(),
        4
    );
    assert_eq!(
        ParallelismMode::Hybrid { tensor_world_size: 2, pipeline_stages: 2, micro_batch_size: 4 }
            .num_gpus(),
        4,
        "a 2x2 hybrid needs 4 GPUs, not 2"
    );
    assert_eq!(
        ParallelismMode::Hybrid { tensor_world_size: 4, pipeline_stages: 2, micro_batch_size: 4 }
            .num_gpus(),
        8,
        "asymmetric dimensions must still multiply"
    );
}

#[test]
fn validate_accepts_a_configuration_that_fits() {
    let cfg = config_over(ParallelismMode::TensorParallel { world_size: 2 }, 2);
    assert!(cfg.validate().is_ok());
}

#[test]
fn validate_rejects_a_configuration_that_does_not_fit() {
    let cfg = config_over(ParallelismMode::TensorParallel { world_size: 4 }, 2);
    let err = cfg.validate().expect_err("a 4-way config on a 2-device topology must not validate");
    let msg = err.to_string();
    assert!(msg.contains('4') && msg.contains('2'), "{msg}");
    assert_eq!(msg, "Configuration requires 4 GPUs but only 2 available");
}

#[test]
fn validate_accepts_an_exactly_sized_configuration() {
    let cfg = config_over(
        ParallelismMode::Hybrid { tensor_world_size: 2, pipeline_stages: 2, micro_batch_size: 4 },
        4,
    );
    assert!(cfg.validate().is_ok(), "4 GPUs required and 4 available must validate");
}

#[test]
fn each_mode_reports_a_distinct_communication_pattern() {
    let modes = [
        ParallelismMode::Single,
        ParallelismMode::TensorParallel { world_size: 2 },
        ParallelismMode::PipelineParallel { num_stages: 2, micro_batch_size: 1 },
        ParallelismMode::Hybrid { tensor_world_size: 2, pipeline_stages: 2, micro_batch_size: 1 },
    ];
    let patterns: BTreeSet<&str> = modes.iter().map(|m| m.communication_pattern()).collect();
    assert_eq!(patterns.len(), modes.len());
}

#[test]
fn manual_configuration_checks_devices_and_mode() {
    let mode = ParallelismMode::TensorParallel { world_size: 2 };
    let ok = MultiGPUConfig::manual_with(mode, 2, cpu_topology(4)).ok().unwrap();
    assert_eq!(ok.mode, mode);
    assert_eq!(ok.sharding_strategy, ShardingStrategy::ColumnWise);
    assert!(ok.distributed_kv_cache);
    let too_many = MultiGPUConfig::manual_with(mode, 8, cpu_topology(4)).err().unwrap();
    assert_eq!(too_many, MultiGpuError::NotEnoughGpus { requested: 8, available: 4 });
    assert_eq!(too_many.to_string(), "Requested 8 GPUs but only 4 available");
    let mismatch = MultiGPUConfig::manual_with(mode, 3, cpu_topology(4)).err().unwrap();
    assert_eq!(mismatch, MultiGpuError::ModeMismatch { required: 2, requested: 3 });
    assert_eq!(mismatch.to_string(), "Parallelism mode requires 2 GPUs but 3 requested");
}

#[test]
fn automatic_configuration_takes_the_recommended_strategy() {
    let cfg = MultiGPUConfig::auto_with(1500, topology_with(1000, 4)).ok().unwrap();
    assert_eq!(cfg.mode, ParallelismMode::TensorParallel { world_size: 2 });
    assert_eq!(cfg.load_balancing, LoadBalancingStrategy::MemoryAware);
    assert!(MultiGPUConfig::auto_with(5000, topology_with(1000, 2)).is_err());
}

#[test]
fn a_model_larger_than_the_machine_is_an_error() {
    let t = topology_with(1000, 2);
    let err = t.recommend_strategy(5000).expect_err("must not be recommended a strategy");
    let msg = err.to_string();
    assert!(msg.contains("5000") && msg.contains("2000"), "{msg}");
}

#[test]
fn an_empty_topology_is_an_error_not_an_index_panic() {
    let t = topology_with(1000, 0);
    assert!(t.recommend_strategy(1).is_err());
    assert_eq!(t.recommend_strategy(1), Err(MultiGpuError::NoDevices));
}

#[test]
fn a_model_that_fits_on_one_device_needs_no_parallelism() {
    let t = topology_with(1000, 4);
    assert_eq!(t.recommend_strategy(500).unwrap(), ParallelismMode::Single);
}

#[test]
fn a_model_that_fits_on_two_devices_uses_tensor_parallelism() {
    let t = topology_with(1000, 4);
    assert_eq!(
        t.recommend_strategy(1500).unwrap(),
        ParallelismMode::TensorParallel { world_size: 2 }
    );
}

#[test]
fn a_model_spanning_many_devices_uses_pipeline_capped_at_four_stages() {
    let t = topology_with(1000, 8);
    assert_eq!(
        t.recommend_strategy(7500).unwrap(),
        ParallelismMode::PipelineParallel { num_stages: 4, micro_batch_size: 1 }
    );
    let three = topology_with(1000, 3);
    assert_eq!(
        three.recommend_strategy(2500).unwrap(),
        ParallelismMode::PipelineParallel { num_stages: 3, micro_batch_size: 1 }
    );
}

fn llama_names(layers: usize, parts: &[&str]) -> Vec<String> {
    let mut names = Vec::new();
    for layer_idx in 0..layers {
        for p in parts {
            names.push(format!("blk.{}.{}.weight", layer_idx, p));
        }
    }
    names
}

#[test]
fn a_pipeline_scheduler_distributes_layers_across_stages() {
    let s = PipelineScheduler::new(4, 10, 4, 2, PipelineStrategy::GPipe).ok().unwrap();
    assert_eq!(s.num_stages(), 4);
    let layers: Vec<Vec<usize>> = s.stages.iter().map(|st| st.layers.clone()).collect();
    assert_eq!(layers, vec![vec![0, 1], vec![2, 3], vec![4, 5], vec![6, 7, 8, 9]]);
    assert_eq!(s.stage(3).unwrap().stage_id, 3);
    assert!(s.stage(4).is_none());
    assert_eq!(s.detected_layer_count(), None);
    assert_eq!(s.detected_architecture(), None);
    assert_eq!(
        PipelineScheduler::new(4, 10, 3, 2, PipelineStrategy::GPipe).err(),
        Some(MultiGpuError::DeviceStageMismatch { devices: 3, stages: 4 })
    );
    let few = PipelineScheduler::new(4, 3, 4, 2, PipelineStrategy::GPipe).err().unwrap();
    assert_eq!(few.to_string(), "Number of layers (3) must be >= number of stages (4)");
}

#[test]
fn test_architecture_aware_scheduler() {
    let tensor_names = llama_names(32, &["attn_q", "attn_k", "attn_v", "ffn_gate"]);
    let scheduler =
        PipelineScheduler::from_tensor_names(4, &tensor_names, 4, 4, PipelineStrategy::GPipe)
            .ok()
            .unwrap();
    assert_eq!(scheduler.num_stages(), 4);
    assert_eq!(scheduler.detected_layer_count(), Some(32));
    assert_eq!(scheduler.detected_architecture(), Some(&ModelArchitecture::LLaMA));
    assert_eq!(scheduler.stage(0).unwrap().num_layers(), 8);
    assert_eq!(scheduler.stage(1).unwrap().num_layers(), 8);
    assert_eq!(scheduler.stage(2).unwrap().num_layers(), 8);
    assert_eq!(scheduler.stage(3).unwrap().num_layers(), 8);
}

#[test]
fn test_variable_layer_counts() {
    let tensor_names = llama_names(40, &["attn_q", "ffn_gate"]);
    let scheduler =
        PipelineScheduler::from_tensor_names(2, &tensor_names, 2, 4, PipelineStrategy::GPipe)
            .ok()
            .unwrap();
    assert_eq!(scheduler.detected_layer_count(), Some(40));
    assert_eq!(scheduler.stage(0).unwrap().num_layers(), 20);
    assert_eq!(scheduler.stage(1).unwrap().num_layers(), 20);
}

#[test]
fn test_get_gpu_for_layer() {
    let tensor_names = llama_names(24, &["attn_q"]);
    let scheduler =
        PipelineScheduler::from_tensor_names(3, &tensor_names, 3, 4, PipelineStrategy::GPipe)
            .ok()
            .unwrap();
    assert_eq!(scheduler.get_stage_for_layer(0), Some(0));
    assert_eq!(scheduler.get_stage_for_layer(7), Some(0));
    assert_eq!(scheduler.get_stage_for_layer(8), Some(1));
    assert_eq!(scheduler.get_stage_for_layer(15), Some(1));
    assert_eq!(scheduler.get_stage_for_layer(16), Some(2));
    assert_eq!(scheduler.get_stage_for_layer(23), Some(2));
    assert_eq!(scheduler.get_stage_for_layer(100), None);
}

#[test]
fn test_gpu_for_tensor_mapping() {
    let tensor_names = llama_names(16, &["attn_q", "attn_k"]);
    let scheduler =
        PipelineScheduler::from_tensor_names(2, &tensor_names, 2, 4, PipelineStrategy::GPipe)
            .ok()
            .unwrap();
    assert_eq!(scheduler.get_gpu_for_tensor("blk.0.attn_q.weight"), Some(0));
    assert_eq!(scheduler.get_gpu_for_tensor("blk.7.attn_k.weight"), Some(0));
    assert_eq!(scheduler.get_gpu_for_tensor("blk.8.attn_q.weight"), Some(1));
    assert_eq!(scheduler.get_gpu_for_tensor("blk.15.attn_k.weight"), Some(1));
    assert_eq!(scheduler.get_gpu_for_tensor("nonexistent.weight"), None);
}

#[test]
fn too_few_detected_layers_for_the_stages_is_an_error() {
    let tensor_names = llama_names(2, &["attn_q"]);
    let err = PipelineScheduler::from_tensor_names(3, &tensor_names, 3, 1, PipelineStrategy::GPipe)
        .err()
        .unwrap();
    assert_eq!(err, MultiGpuError::TooFewLayers { layers: 2, stages: 3, detected: true });
    assert_eq!(
        err.to_string(),
        "Number of detected layers (2) must be >= number of stages (3)"
    );
}

#[test]
fn unimplemented_pipeline_strategies_report_themselves() {
    for (strategy, needle) in [
        (PipelineStrategy::PipeDream, "PipeDream"),
        (PipelineStrategy::Interleaved1F1B, "1F1B"),
    ] {
        let scheduler = PipelineScheduler::new(2, 4, 2, 2, strategy).ok().unwrap();
        let err = scheduler.micro_batch_ranges(4).err().unwrap();
        assert!(err.contains(needle), "{err}");
        assert!(err.contains("not yet implemented"), "{err}");
    }
}

#[test]
fn an_uneven_batch_is_cut_with_a_short_tail() {
    // batch 5 over micro-batches of 2 -> chunks of 2, 2, 1 covering every row once.
    let scheduler = PipelineScheduler::new(2, 4, 2, 2, PipelineStrategy::GPipe).ok().unwrap();
    assert_eq!(scheduler.micro_batch_ranges(5).ok().unwrap(), vec![0..2, 2..4, 4..5]);
    assert_eq!(scheduler.micro_batch_ranges(4).ok().unwrap(), vec![0..2, 2..4]);
    assert!(scheduler.micro_batch_ranges(0).ok().unwrap().is_empty());
}
