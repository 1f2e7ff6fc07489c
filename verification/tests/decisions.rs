use lightbulb::batched::{longest_prompt, prefill_precheck, prefill_rows, PrefillRejection};
use lightbulb::engine::{admit_prompt, after_decode, after_prefill, PromptAdmission, PromptTooLong, RequestCounters};
use lightbulb::model_config::{llama_shape, ConfigError, LlamaShape, MetadataView, ShapeKey};
use lightbulb::policies::{BlockTierMover, PagedGeometry, PolicyError};

#[test]
fn a_prompt_that_fits_gets_its_budget_and_a_bounded_session() {
    assert_eq!(
        admit_prompt(10, 20, 2048),
        Ok(PromptAdmission { budget: 20, truncated: false, max_seq_len: 31 })
    );
    // Budget cut to what remains: 100 - 90 - 1 = 9; session of the whole context.
    assert_eq!(
        admit_prompt(90, 50, 100),
        Ok(PromptAdmission { budget: 9, truncated: true, max_seq_len: 100 })
    );
    // Saturation: a huge request cannot overflow.
    assert_eq!(
        admit_prompt(5, usize::MAX, 64),
        Ok(PromptAdmission { budget: 58, truncated: true, max_seq_len: 64 })
    );
}

#[test]
fn a_prompt_that_fills_the_context_is_refused() {
    let err = admit_prompt(100, 10, 100).unwrap_err();
    assert_eq!(err, PromptTooLong { prompt: 100, max_seq_len: 100 });
    assert_eq!(err.to_string(), "prompt of 100 tokens does not fit in a context of 100");
    assert_eq!(
        admit_prompt(99, 10, 100),
        Ok(PromptAdmission { budget: 0, truncated: true, max_seq_len: 100 })
    );
}

fn counters(max_new_tokens: usize) -> RequestCounters {
    RequestCounters {
        position: 0,
        tokens_generated: 0,
        max_new_tokens,
        generated: Vec::new(),
        completed: false,
        stopped_on_eos: false,
    }
}

#[test]
fn prefill_advances_by_the_prompt_and_decoding_by_one() {
    let mut c = counters(3);
    after_prefill(&mut c, 7, 42, false);
    assert_eq!((c.position, c.tokens_generated, c.completed), (7, 1, false));
    after_decode(&mut c, 43, false);
    assert_eq!((c.position, c.tokens_generated, c.completed), (8, 2, false));
    after_decode(&mut c, 44, false);
    assert_eq!((c.position, c.tokens_generated, c.completed, c.stopped_on_eos), (9, 3, true, false));
    assert_eq!(c.generated, vec![42, 43, 44]);
}

#[test]
fn an_end_of_sequence_token_completes_the_request() {
    let mut c = counters(100);
    after_prefill(&mut c, 4, 2, true);
    assert!(c.completed && c.stopped_on_eos);
}

#[test]
fn prefill_is_refused_in_the_order_of_its_checks() {
    assert_eq!(prefill_precheck(2, &[3], 0, 9), Err(PrefillRejection::CountMismatch { sessions: 2, prompts: 1 }));
    assert_eq!(prefill_precheck(0, &[], 0, 9), Err(PrefillRejection::Empty));
    assert_eq!(prefill_precheck(3, &[3, 0, 0], 0, 9), Err(PrefillRejection::EmptyPrompt { index: 1 }));
    assert_eq!(prefill_precheck(2, &[3, 5], 4, 3), Err(PrefillRejection::PoolCannotSeat { need: 4, free: 3 }));
    assert_eq!(prefill_precheck(2, &[3, 5], 3, 3), Ok(()));
    assert_eq!(
        PrefillRejection::EmptyPrompt { index: 1 }.to_string(),
        "prefill_batch: prompt 1 is empty \u{2014} there is no token to feed"
    );
    assert_eq!(
        PrefillRejection::PoolCannotSeat { need: 4, free: 3 }.to_string(),
        "prefill_batch: pool cannot seat these prompts \u{2014} need 4 block(s), 3 free"
    );
    assert_eq!(PrefillRejection::CountMismatch { sessions: 2, prompts: 1 }.to_string(), "prefill_batch: 2 sessions but 1 prompts");
}

#[test]
fn the_prefill_batch_narrows_as_short_prompts_finish() {
    let lens = [3, 1, 4];
    assert_eq!(longest_prompt(&lens), 4);
    assert_eq!(prefill_rows(&lens, 0), vec![0, 1, 2]);
    assert_eq!(prefill_rows(&lens, 1), vec![0, 2]);
    assert_eq!(prefill_rows(&lens, 3), vec![2]);
    assert!(prefill_rows(&lens, 4).is_empty());
    assert_eq!(longest_prompt(&[]), 0);
}

#[test]
fn demotion_keys_need_a_payload_for_every_freed_block() {
    let mover = BlockTierMover::new(PagedGeometry::for_llama(2, 1, 4, 2, 8), "sess-c".to_string());
    let keys = mover.demote_keys(&[1, 3], &[3, 1, 0]).ok().unwrap();
    assert_eq!(keys, vec![(1, "sess-c.b000001".to_string()), (3, "sess-c.b000003".to_string())]);
    match mover.demote_keys(&[1, 3], &[1]) {
        Err(PolicyError::Invariant(m)) => assert_eq!(m, "Fuel freed block 3 but no payload was captured for it"),
        _ => panic!("expected an invariant breach"),
    }
    assert_eq!(mover.demote_keys(&[], &[]).ok().unwrap(), vec![]);
}

fn tinyllama_meta() -> MetadataView {
    MetadataView {
        embedding_length: Some(2048),
        feed_forward_length: Some(5632),
        block_count: Some(22),
        head_count: Some(32),
        head_count_kv: Some(4),
        vocab_size: None,
        n_vocab: None,
        token_count: Some(32000),
        context_length: None,
        bos_token_id: Some(1),
        eos_token_id: Some(2),
    }
}

#[test]
fn the_llama_shape_falls_back_for_vocabulary_and_context() {
    let s = llama_shape(&tinyllama_meta()).ok().unwrap();
    assert_eq!(
        s,
        LlamaShape {
            hidden_size: 2048,
            intermediate_size: 5632,
            vocab_size: 32000,
            num_hidden_layers: 22,
            num_attention_heads: 32,
            num_key_value_heads: 4,
            head_dim: 64,
            max_position_embeddings: 2048,
            bos_token_id: Some(1),
            eos_token_id: Some(2),
        }
    );
    let mut m = tinyllama_meta();
    m.n_vocab = Some(100);
    assert_eq!(llama_shape(&m).ok().unwrap().vocab_size, 100);
    m.vocab_size = Some(7);
    m.head_count = Some(0);
    let s = llama_shape(&m).ok().unwrap();
    assert_eq!((s.vocab_size, s.head_dim), (7, 2048));
}

#[test]
fn the_llama_shape_names_what_is_missing() {
    let mut m = tinyllama_meta();
    m.block_count = None;
    m.head_count_kv = None;
    assert_eq!(llama_shape(&m).err(), Some(ConfigError::Missing(ShapeKey::BlockCount)));
    assert_eq!(ShapeKey::BlockCount.text(), "llama.block_count");
    let mut m = tinyllama_meta();
    m.token_count = None;
    assert_eq!(llama_shape(&m).err(), Some(ConfigError::NoVocabSize));
}

#[test]
fn decimal_renders_as_display_does() {
    for n in [0usize, 7, 10, 99, 100, 1234567, usize::MAX] {
        assert_eq!(lightbulb::text::decimal(n), format!("{}", n));
    }
}
