# lightbulb

Cache, admission and model-bookkeeping policies for a paged-KV inference
engine, written in Verus: every function under `src/` carries a contract that
Verus proves, and the library's laws are public proof functions.

## Layout

- `src/` — the verified library.
  - `policies`, `demotion`, `ranges`, `eviction`, `prefix_index`, `batched`, `engine`:
    block arithmetic of the KV pool, admission verdicts, the demotion and
    rollback step function, span eviction plans
    and their reconciliation, the chain-hashed prefix index, batched step
    and prefill admission, prompt admission, request counters, generation
    budgets and sampling seeds.
  - `name_mapping`, `tools`, `pruning`, `quantization`, `gguf`,
    `gguf_application`, `model_config`, `multi_gpu`: tensor-name mapping per architecture,
    the tool registry, tail-pruning layer maps and manifest checks, GGML
    types, GGUF tensor extraction and manifest application plans, the
    LLaMA shape read from GGUF metadata, and
    multi-GPU configuration and pipeline stages.
  - `tls`, `test_notice`, `test_models`: certificate validity, HTTPS
    addresses and redirects, ACME challenge answers, and the test-skip and
    checkpoint-location decisions.
- `tests/` — tests on concrete values, run against the compiled library.
- `app/` — ordinary Rust around the library: environment and file-system
  probing, certificate files and key generation, axum middleware, JSON
  manifests, and the floating-point sampling and (de)quantization code.

Calls into outside crates (`sha2`, `base64`, `x509-parser`, `regex`, and a few
standard-library functions) stand behind small trusted wrappers whose
doc comments say what is assumed of them.
