use lightbulb::name_mapping::{ComponentType, ModelArchitecture, TensorNameMapper};
use lightbulb::pruning::{
    LayerMapping, PolicyKind, PruningError, PruningLoader, StructuredPattern, TailPruneConfig,
    TailPruner,
};

#[test]
fn test_tail_prune_config_defaults() {
    let config = TailPruneConfig::default();
    assert_eq!(config.layers_to_remove, 0);
    assert_eq!(config.partial_ft_layers, 2);
    assert!(config.ft_lm_head);
}

#[test]
fn test_structured_pattern_2_4() {
    let pattern = StructuredPattern::N_M { n: 2, m: 4 };
    match pattern {
        StructuredPattern::N_M { n, m } => {
            assert_eq!(n, 2);
            assert_eq!(m, 4);
            assert_eq!((m - n) as f32 / m as f32, 0.5);
        }
        _ => panic!("Wrong pattern"),
    }
}

#[test]
fn test_tail_pruner_kept_layers() {
    let config = TailPruneConfig { layers_to_remove: 8, partial_ft_layers: 2, ft_lm_head: true };
    let kept = TailPruner::calculate_kept_layers(32, &config);
    assert_eq!(kept.len(), 24);
    assert_eq!(kept, (0..24).collect::<Vec<_>>());
}

#[test]
fn test_tail_pruner_ft_layers() {
    let config = TailPruneConfig { layers_to_remove: 8, partial_ft_layers: 2, ft_lm_head: true };
    let ft_layers = TailPruner::calculate_ft_layers(32, &config);
    assert_eq!(ft_layers.len(), 2);
    assert_eq!(ft_layers, vec![22, 23]);
}

#[test]
fn removing_more_layers_than_exist_keeps_and_tunes_nothing() {
    let config = TailPruneConfig { layers_to_remove: 40, partial_ft_layers: 2, ft_lm_head: false };
    assert!(TailPruner::calculate_kept_layers(32, &config).is_empty());
    assert!(TailPruner::calculate_ft_layers(32, &config).is_empty());
    let few = TailPruneConfig { layers_to_remove: 1, partial_ft_layers: 9, ft_lm_head: true };
    assert_eq!(TailPruner::calculate_ft_layers(4, &few), vec![0, 1, 2]);
}

#[test]
fn test_tail_mapping_creation() {
    let mapping = LayerMapping::create_tail_mapping(32, 8);
    assert_eq!(mapping.len(), 32);
    for i in 0..24 {
        assert_eq!(mapping.get_pruned_layer_idx(i), Some(i));
        assert!(!mapping.is_layer_removed(i));
    }
    for i in 24..32 {
        assert_eq!(mapping.get_pruned_layer_idx(i), None);
        assert!(mapping.is_layer_removed(i));
    }
    assert!(!mapping.contains_key(32));
    assert!(!mapping.is_layer_removed(32));
}

#[test]
fn test_loader_should_remove_layer() {
    let mapping = LayerMapping::create_tail_mapping(32, 8);
    for i in 0..24 {
        assert!(!PruningLoader::should_remove_layer(&mapping, i));
    }
    for i in 24..32 {
        assert!(PruningLoader::should_remove_layer(&mapping, i));
    }
}

#[test]
fn test_loader_remap_layer_index() {
    let mapping = LayerMapping::create_tail_mapping(16, 4);
    for i in 0..12 {
        assert_eq!(PruningLoader::remap_layer_index(&mapping, i), Some(i));
    }
    for i in 12..16 {
        assert_eq!(PruningLoader::remap_layer_index(&mapping, i), None);
    }
}

#[test]
fn test_loader_get_kept_indices() {
    let mapping = LayerMapping::create_tail_mapping(20, 6);
    let kept = PruningLoader::get_kept_layer_indices(&mapping);
    assert_eq!(kept.len(), 14);
    assert_eq!(kept, (0..14).collect::<Vec<_>>());
}

#[test]
fn kept_indices_come_out_ascending_whatever_the_insertion_order() {
    let mut mapping = LayerMapping::new();
    mapping.insert(5, Some(2));
    mapping.insert(1, Some(0));
    mapping.insert(3, None);
    mapping.insert(2, Some(1));
    mapping.insert(3, Some(9));
    assert_eq!(mapping.len(), 4);
    assert_eq!(PruningLoader::get_kept_layer_indices(&mapping), vec![1, 2, 3, 5]);
    assert_eq!(mapping.get_pruned_layer_idx(3), Some(9));
}

#[test]
fn test_loader_validate_compatibility() {
    let mapping = LayerMapping::create_tail_mapping(16, 4);
    assert!(PruningLoader::validate_manifest_compatibility(PolicyKind::TailPrune, &mapping, 12, 16)
        .is_ok());
    assert!(PruningLoader::validate_manifest_compatibility(PolicyKind::TailPrune, &mapping, 12, 20)
        .is_err());
    assert!(PruningLoader::validate_manifest_compatibility(PolicyKind::TailPrune, &mapping, 12, 12)
        .is_err());
}

fn failure_text(r: Result<(), PruningError>) -> String {
    match r {
        Err(e) => e.to_string(),
        Ok(()) => panic!("expected an error"),
    }
}

#[test]
fn compatibility_errors_name_what_is_missing() {
    let mapping = LayerMapping::create_tail_mapping(16, 4);
    assert_eq!(
        failure_text(PruningLoader::validate_manifest_compatibility(
            PolicyKind::TailPrune,
            &mapping,
            0,
            20
        )),
        "Pruning failed: Manifest layer mapping size 16 doesn't match model layers 20"
    );
    let mut gappy = LayerMapping::new();
    gappy.insert(0, Some(0));
    gappy.insert(1, Some(1));
    gappy.insert(5, None);
    assert_eq!(
        failure_text(PruningLoader::validate_manifest_compatibility(
            PolicyKind::TailPrune,
            &gappy,
            0,
            3
        )),
        "Pruning failed: Missing layer mapping for index 2"
    );
    let empty = LayerMapping::new();
    assert_eq!(
        failure_text(PruningLoader::validate_manifest_compatibility(PolicyKind::Wanda, &empty, 0, 3)),
        "Pruning failed: Wanda manifest has no layer sparsity information"
    );
    assert!(PruningLoader::validate_manifest_compatibility(PolicyKind::Wanda, &empty, 2, 3).is_ok());
    assert!(PruningLoader::validate_manifest_compatibility(PolicyKind::NoPruning, &empty, 0, 3)
        .is_ok());
    assert_eq!(
        failure_text(PruningLoader::validate_manifest_compatibility(
            PolicyKind::Hybrid,
            &empty,
            1,
            3
        )),
        "Pruning failed: Hybrid manifest missing layer mapping"
    );
    assert_eq!(
        failure_text(PruningLoader::validate_manifest_compatibility(
            PolicyKind::Hybrid,
            &mapping,
            0,
            3
        )),
        "Pruning failed: Hybrid manifest missing layer sparsity"
    );
}

// ---------------------------------------------------------------------------
// Tensor-name mapping
// ---------------------------------------------------------------------------

fn names(v: &[&str]) -> Vec<String> {
    v.iter().map(|s| s.to_string()).collect()
}

#[test]
fn test_llama_architecture_detection() {
    let tensor_names = names(&["blk.0.attn_q.weight", "blk.0.attn_k.weight", "blk.1.ffn_gate.weight"]);
    let mapper = TensorNameMapper::from_tensor_names(&tensor_names);
    assert_eq!(mapper.architecture, ModelArchitecture::LLaMA);
    assert_eq!(mapper.layer_indices, vec![0, 1]);
}

#[test]
fn test_name_mapping() {
    let tensor_names = names(&["blk.0.attn_q.weight", "blk.0.attn_k.weight", "blk.1.attn_q.weight"]);
    let mapper = TensorNameMapper::from_tensor_names(&tensor_names);
    let mapped = mapper.map_name("layer_0").unwrap();
    assert_eq!(mapped, "blk.0.attn_q.weight");
    let key = mapper
        .mappings
        .iter()
        .find(|(k, _)| *k == (0, ComponentType::AttentionKey))
        .map(|(_, v)| v);
    assert_eq!(key, Some(&"blk.0.attn_k.weight".to_string()));
}

#[test]
fn test_layer_tensors() {
    let tensor_names = names(&[
        "blk.0.attn_q.weight",
        "blk.0.attn_k.weight",
        "blk.0.ffn_gate.weight",
        "blk.1.attn_q.weight",
    ]);
    let mapper = TensorNameMapper::from_tensor_names(&tensor_names);
    let layer_0_tensors = mapper.get_layer_tensors(0);
    assert_eq!(layer_0_tensors.len(), 3);
    assert!(layer_0_tensors.contains(&"blk.0.attn_q.weight".to_string()));
}

#[test]
fn abstract_names_with_components_map_to_their_tensors() {
    let tensor_names = names(&[
        "blk.3.attn_q.weight",
        "blk.3.attn_v.weight",
        "blk.3.ffn_down.weight",
        "blk.12.attn_output.weight",
    ]);
    let mapper = TensorNameMapper::from_tensor_names(&tensor_names);
    assert_eq!(mapper.map_name("layer_3.attention.value").as_deref(), Some("blk.3.attn_v.weight"));
    assert_eq!(mapper.map_name("layer_3.attn.v").as_deref(), Some("blk.3.attn_v.weight"));
    assert_eq!(mapper.map_name("layer_3.ffn.down").as_deref(), Some("blk.3.ffn_down.weight"));
    assert_eq!(mapper.map_name("layer_12.attn.output").as_deref(), Some("blk.12.attn_output.weight"));
    assert_eq!(mapper.map_name("layer_+3").as_deref(), Some("blk.3.attn_q.weight"));
    assert_eq!(mapper.map_name("layer_3.ffn.gate"), None, "no gate tensor was listed");
    assert_eq!(mapper.map_name("layer_3.attention"), None);
    assert_eq!(mapper.map_name("layer_x"), None);
    assert_eq!(mapper.map_name("blk.3"), None);
    assert_eq!(mapper.layer_indices, vec![3, 12]);
    let listing: Vec<(ComponentType, String)> = mapper.map_layer(3);
    assert_eq!(
        listing,
        vec![
            (ComponentType::AttentionQuery, "blk.3.attn_q.weight".to_string()),
            (ComponentType::AttentionValue, "blk.3.attn_v.weight".to_string()),
            (ComponentType::FfnDown, "blk.3.ffn_down.weight".to_string()),
        ]
    );
}

#[test]
fn gpt_and_mistral_names_are_recognised() {
    let gpt = names(&["h.0.attn.c_attn.weight", "h.0.mlp.c_fc.weight", "h.1.attn.c_proj.weight"]);
    let m = TensorNameMapper::from_tensor_names(&gpt);
    assert_eq!(m.architecture, ModelArchitecture::GPT);
    assert_eq!(m.layer_indices, vec![0, 1]);
    assert_eq!(m.map_name("layer_0").as_deref(), Some("h.0.attn.c_attn.weight"));
    assert_eq!(m.map_name("layer_0.ffn.up").as_deref(), Some("h.0.mlp.c_fc.weight"));

    let mistral = names(&["model.layers.2.self_attn.q_proj.weight", "model.layers.2.mlp.up_proj.weight"]);
    let m = TensorNameMapper::from_tensor_names(&mistral);
    assert_eq!(m.architecture, ModelArchitecture::Mistral);
    assert_eq!(m.map_name("layer_2.ffn.up").as_deref(), Some("model.layers.2.mlp.up_proj.weight"));

    let unknown = names(&["embed.weight", "blk.4.ffn_up.weight"]);
    let m = TensorNameMapper::from_tensor_names(&unknown);
    assert_eq!(m.architecture, ModelArchitecture::Unknown);
    assert_eq!(m.layer_indices, vec![4], "unknown models are read with the LLaMA names");
}

#[test]
fn a_later_tensor_with_the_same_key_replaces_the_earlier_one() {
    let tensor_names = names(&["blk.0.attn_q.weight", "x.blk.0.attn_q.weight"]);
    let mapper = TensorNameMapper::from_tensor_names(&tensor_names);
    assert_eq!(mapper.mappings.len(), 1);
    assert_eq!(mapper.map_name("layer_0").as_deref(), Some("x.blk.0.attn_q.weight"));
}

#[test]
fn a_layer_number_too_large_for_usize_is_no_layer() {
    let tensor_names = names(&["blk.0.attn_q.weight", "blk.99999999999999999999999.attn_q.weight"]);
    let mapper = TensorNameMapper::from_tensor_names(&tensor_names);
    assert_eq!(mapper.layer_indices, vec![0]);
}

#[test]
fn a_unicode_digit_before_the_layer_number_leaves_the_name_unmapped() {
    // The layer expression's `\d` is Unicode-aware: its leftmost match
    // captures an Arabic-Indic digit, which does not parse as a number.
    let tensor_names = names(&["blk.\u{0661}.x.blk.3.attn_q.weight"]);
    let mapper = TensorNameMapper::from_tensor_names(&tensor_names);
    assert_eq!(mapper.architecture, ModelArchitecture::LLaMA);
    assert!(mapper.mappings.is_empty());
    let plain = TensorNameMapper::from_tensor_names(&names(&["x.blk.3.attn_q.weight"]));
    assert_eq!(plain.map_name("layer_3"), Some("x.blk.3.attn_q.weight".to_string()));
}
