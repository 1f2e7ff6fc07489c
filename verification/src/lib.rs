//! Cache, admission and model-bookkeeping policies for a paged-KV inference
//! engine, with their contracts proved by Verus.

pub mod policies;
pub mod demotion;
pub mod ranges;
pub mod eviction;
pub mod text;
pub mod prefix_index;
pub mod name_mapping;
pub mod tools;
pub mod quantization;
pub mod gguf;
pub mod gguf_application;
pub mod multi_gpu;
pub mod pruning;
pub mod test_notice;
pub mod test_models;
pub mod engine;
pub mod model_config;
pub mod batched;
pub mod tls;
