use lightbulb::gguf::{Content, TensorInfo};
use lightbulb::gguf_application::{mask_for_tensor, plan_manifest_application, ApplyError, TensorStep};
use lightbulb::name_mapping::TensorNameMapper;
use lightbulb::quantization::GgmlDType;

fn info(name: &str, tensor_type: u32, dims: &[u64], offset: u64) -> TensorInfo {
    TensorInfo { name: name.to_string(), tensor_type, dimensions: dims.to_vec(), offset }
}

fn strings(v: &[&str]) -> Vec<String> {
    v.iter().map(|s| s.to_string()).collect()
}

fn llama_content(data_len: usize) -> Content {
    Content {
        tensor_infos: vec![
            info("blk.0.attn_q.weight", 8, &[64], 0),
            info("blk.0.attn_k.weight", 8, &[32], 68),
            info("blk.1.attn_q.weight", 0, &[4], 102),
        ],
        tensor_data_offset: 8,
        data: vec![7u8; data_len],
    }
}

fn mapper_of(c: &Content) -> TensorNameMapper {
    let names: Vec<String> = c.tensor_infos.iter().map(|t| t.name.clone()).collect();
    TensorNameMapper::from_tensor_names(&names)
}

#[test]
fn a_mask_is_found_by_its_own_name_first_then_by_mapping() {
    let c = llama_content(126);
    let mapper = mapper_of(&c);
    let masks = strings(&["blk.0.attn_k.weight", "layer_0", "zzz"]);
    assert_eq!(mask_for_tensor("blk.0.attn_q.weight", &masks, &mapper), Some(1));
    assert_eq!(mask_for_tensor("blk.0.attn_k.weight", &masks, &mapper), Some(0));
    assert_eq!(mask_for_tensor("blk.1.attn_q.weight", &masks, &mapper), None);
    let both = strings(&["layer_0", "blk.0.attn_q.weight"]);
    assert_eq!(mask_for_tensor("blk.0.attn_q.weight", &both, &mapper), Some(1));
}

#[test]
fn the_plan_gives_every_tensor_its_bytes_count_and_mask() {
    let c = llama_content(126);
    let mapper = mapper_of(&c);
    let masks = strings(&["blk.0.attn_k.weight", "layer_0", "zzz"]);
    let steps = plan_manifest_application(&c, &masks, &mapper).ok().unwrap();
    assert_eq!(
        steps,
        vec![
            TensorStep { dtype: GgmlDType::Q8_0, start: 8, end: 76, elem_count: 64, mask: Some(1) },
            TensorStep { dtype: GgmlDType::Q8_0, start: 76, end: 110, elem_count: 32, mask: Some(0) },
            TensorStep { dtype: GgmlDType::F32, start: 110, end: 126, elem_count: 4, mask: None },
        ]
    );
    let no_masks: Vec<String> = Vec::new();
    let plain = plan_manifest_application(&c, &no_masks, &mapper).ok().unwrap();
    assert!(plain.iter().all(|s| s.mask.is_none()));
}

#[test]
fn a_repeated_name_reads_the_first_tensors_bytes() {
    let mut c = llama_content(126);
    c.tensor_infos.push(info("blk.0.attn_k.weight", 0, &[2], 0));
    let mapper = mapper_of(&c);
    let steps = plan_manifest_application(&c, &[], &mapper).ok().unwrap();
    assert_eq!(steps.len(), 4);
    assert_eq!(steps[3], TensorStep { dtype: GgmlDType::F32, start: 76, end: 110, elem_count: 2, mask: None });
}

#[test]
fn the_plan_stops_at_the_first_unreadable_tensor() {
    let mut c = llama_content(126);
    c.tensor_infos[1].tensor_type = 4;
    let mapper = mapper_of(&c);
    assert_eq!(plan_manifest_application(&c, &[], &mapper).err(), Some(ApplyError::UnknownType { tensor: 1, code: 4 }));

    let short = llama_content(120);
    let mapper = mapper_of(&short);
    assert_eq!(
        plan_manifest_application(&short, &[], &mapper).err(),
        Some(ApplyError::OutOfBounds { tensor: 2, start: 110, end: 126, file_size: 120 })
    );
}
