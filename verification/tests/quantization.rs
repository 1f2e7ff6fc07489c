use lightbulb::gguf::{
    calculate_model_size, extract_tensor_bytes, get_all_tensor_metadata, list_tensor_names, Content,
    GgufError, TensorInfo,
};
use lightbulb::quantization::GgmlDType;

#[test]
fn test_dtype_properties() {
    assert_eq!(GgmlDType::Q4_0.block_size(), 32);
    assert_eq!(GgmlDType::Q4K.block_size(), 256);
    assert_eq!(GgmlDType::Q4_0.name(), "Q4_0");
    assert_eq!(GgmlDType::from_u32(12), Some(GgmlDType::Q4K));
}

#[test]
fn every_type_number_round_trips_and_gaps_are_unknown() {
    for v in 0..20u32 {
        match GgmlDType::from_u32(v) {
            Some(d) => assert_eq!(d.to_u32(), v),
            None => assert!(v == 4 || v == 5 || v >= 16, "{v}"),
        }
    }
    assert_eq!(GgmlDType::Q8_0.type_size(), 34);
    assert_eq!(GgmlDType::Q6K.type_size(), 210);
    assert_eq!(GgmlDType::F16.block_size(), 1);
    assert_eq!(GgmlDType::Q2K.name(), "Q2_K");
}

fn info(name: &str, tensor_type: u32, dims: &[u64], offset: u64) -> TensorInfo {
    TensorInfo { name: name.to_string(), tensor_type, dimensions: dims.to_vec(), offset }
}

fn content() -> Content {
    // Data section at byte 16; a 2x3 F32 tensor (24 bytes) at 0 and a
    // 64-element Q8_0 tensor (2 blocks, 68 bytes) at 24; one unknown type.
    let data: Vec<u8> = (0..=255u8).cycle().take(16 + 24 + 68).collect();
    Content {
        tensor_infos: vec![
            info("a", 0, &[2, 3], 0),
            info("b", 8, &[64], 24),
            info("odd", 4, &[10], 0),
            info("far", 0, &[100], 0),
        ],
        tensor_data_offset: 16,
        data,
    }
}

#[test]
fn extract_tensor_bytes_returns_the_tensors_whole_blocks() {
    let c = content();
    assert!(c.sizes_fit());
    let (bytes, dtype, shape) = extract_tensor_bytes(&c, "a").ok().unwrap();
    assert_eq!(dtype, GgmlDType::F32);
    assert_eq!(shape, vec![2, 3]);
    assert_eq!(bytes, &c.data[16..40]);
    let (bytes, dtype, _) = extract_tensor_bytes(&c, "b").ok().unwrap();
    assert_eq!(dtype, GgmlDType::Q8_0);
    assert_eq!(bytes.len(), 68);
    assert_eq!(bytes, &c.data[40..108]);
}

#[test]
fn extract_tensor_bytes_errors() {
    let c = content();
    assert!(matches!(extract_tensor_bytes(&c, "nope"), Err(GgufError::TensorNotFound(n)) if n == "nope"));
    assert!(matches!(extract_tensor_bytes(&c, "odd"), Err(GgufError::UnknownType(4))));
    match extract_tensor_bytes(&c, "far") {
        Err(GgufError::OutOfBounds { name, start, end, file_size }) => {
            assert_eq!(name, "far");
            assert_eq!((start, end, file_size), (16, 416, 108));
        }
        _ => panic!("expected out of bounds"),
    }
}

#[test]
fn sizes_names_and_metadata_of_the_table() {
    let c = content();
    assert_eq!(list_tensor_names(&c), vec!["a", "b", "odd", "far"]);
    assert_eq!(calculate_model_size(&c), 24 + 68 + 400);
    let meta = get_all_tensor_metadata(&c);
    let names: Vec<&str> = meta.iter().map(|m| m.name.as_str()).collect();
    assert_eq!(names, vec!["a", "b", "far"], "tensors of unknown type are skipped");
    assert_eq!(meta[1].elem_count, 64);
    assert_eq!(meta[1].size_bytes, 68);
    assert_eq!(meta[0].shape, vec![2, 3]);
}

#[test]
fn a_partial_block_still_occupies_a_whole_one() {
    let c = Content {
        tensor_infos: vec![info("q", 2, &[33], 0)],
        tensor_data_offset: 0,
        data: vec![0; 36],
    };
    let (bytes, _, _) = extract_tensor_bytes(&c, "q").ok().unwrap();
    assert_eq!(bytes.len(), 36, "33 Q4_0 elements need 2 blocks of 18 bytes");
    let overflowing = Content {
        tensor_infos: vec![info("big", 0, &[u64::MAX, 2], 0)],
        tensor_data_offset: 0,
        data: vec![],
    };
    assert!(!overflowing.sizes_fit());
}
