//! The integer shape of a LLaMA checkpoint, read from its GGUF metadata.
//!
//! Reading the metadata out of the file, checking that it names the LLaMA
//! architecture and the floating-point settings (RMS epsilon, RoPE base) are
//! the caller's; this decides the sizes.

use vstd::prelude::*;

verus! {

/// The metadata values that the shape is read from; `None` where a key is
/// absent or does not hold an unsigned integer.
pub struct MetadataView {
    /// `llama.embedding_length`
    pub embedding_length: Option<u64>,
    /// `llama.feed_forward_length`
    pub feed_forward_length: Option<u64>,
    /// `llama.block_count`
    pub block_count: Option<u64>,
    /// `llama.attention.head_count`
    pub head_count: Option<u64>,
    /// `llama.attention.head_count_kv`
    pub head_count_kv: Option<u64>,
    /// `llama.vocab_size`
    pub vocab_size: Option<u64>,
    /// `llama.n_vocab`
    pub n_vocab: Option<u64>,
    /// The length of `tokenizer.ggml.tokens`, where it is an array
    pub token_count: Option<usize>,
    /// `llama.context_length`
    pub context_length: Option<u64>,
    /// `tokenizer.ggml.bos_token_id`, where it is a `u32`
    pub bos_token_id: Option<u32>,
    /// `tokenizer.ggml.eos_token_id`, where it is a `u32`
    pub eos_token_id: Option<u32>,
}

/// The sizes of a LLaMA model.
#[derive(Clone, Copy, Debug, PartialEq, Eq, Structural)]
pub struct LlamaShape {
    pub hidden_size: usize,
    pub intermediate_size: usize,
    pub vocab_size: usize,
    pub num_hidden_layers: usize,
    pub num_attention_heads: usize,
    pub num_key_value_heads: usize,
    pub head_dim: usize,
    pub max_position_embeddings: usize,
    pub bos_token_id: Option<u32>,
    pub eos_token_id: Option<u32>,
}

/// A metadata key the shape needs.
#[derive(Clone, Copy, Debug, PartialEq, Eq, Structural)]
pub enum ShapeKey {
    EmbeddingLength,
    FeedForwardLength,
    BlockCount,
    HeadCount,
    HeadCountKv,
}

/// Why no shape could be read.
#[derive(Clone, Copy, Debug, PartialEq, Eq, Structural)]
pub enum ConfigError {
    /// A required key is absent.
    Missing(ShapeKey),
    /// Neither `llama.vocab_size`, `llama.n_vocab` nor the token list gives
    /// the vocabulary size.
    NoVocabSize,
}

/// The GGUF key of each required value.
pub open spec fn key_text(k: ShapeKey) -> Seq<char> {
    match k {
        ShapeKey::EmbeddingLength => "llama.embedding_length"@,
        ShapeKey::FeedForwardLength => "llama.feed_forward_length"@,
        ShapeKey::BlockCount => "llama.block_count"@,
        ShapeKey::HeadCount => "llama.attention.head_count"@,
        ShapeKey::HeadCountKv => "llama.attention.head_count_kv"@,
    }
}

impl ShapeKey {
    /// The key as it stands in the file.
    pub fn text(&self) -> (r: &'static str)
        ensures
            r@ == key_text(*self),
    {
        match self {
            ShapeKey::EmbeddingLength => "llama.embedding_length",
            ShapeKey::FeedForwardLength => "llama.feed_forward_length",
            ShapeKey::BlockCount => "llama.block_count",
            ShapeKey::HeadCount => "llama.attention.head_count",
            ShapeKey::HeadCountKv => "llama.attention.head_count_kv",
        }
    }
}

/// The vocabulary size: `llama.vocab_size`, else `llama.n_vocab`, else the
/// number of tokens in the token list.
pub open spec fn vocab_spec(m: MetadataView) -> Option<usize> {
    match m.vocab_size {
        Some(v) => Some(v as usize),
        None => match m.n_vocab {
            Some(v) => Some(v as usize),
            None => m.token_count,
        },
    }
}

/// The first required key that is absent, in the order they are read.
pub open spec fn first_missing(m: MetadataView) -> Option<ShapeKey> {
    if m.embedding_length is None {
        Some(ShapeKey::EmbeddingLength)
    } else if m.feed_forward_length is None {
        Some(ShapeKey::FeedForwardLength)
    } else if m.block_count is None {
        Some(ShapeKey::BlockCount)
    } else if m.head_count is None {
        Some(ShapeKey::HeadCount)
    } else if m.head_count_kv is None {
        Some(ShapeKey::HeadCountKv)
    } else {
        None
    }
}

/// The shape that complete metadata gives: the head dimension is the hidden
/// size over the head count (a count of 0 read as 1), and the context is
/// 2048 tokens where the file does not say.
pub open spec fn shape_spec(m: MetadataView, vocab: usize) -> LlamaShape {
    let hidden = m.embedding_length->0 as usize;
    let heads = m.head_count->0 as usize;
    LlamaShape {
        hidden_size: hidden,
        intermediate_size: m.feed_forward_length->0 as usize,
        vocab_size: vocab,
        num_hidden_layers: m.block_count->0 as usize,
        num_attention_heads: heads,
        num_key_value_heads: m.head_count_kv->0 as usize,
        head_dim: (hidden / (if heads > 0 { heads } else { 1usize })) as usize,
        max_position_embeddings: match m.context_length {
            Some(c) => c as usize,
            None => 2048usize,
        },
        bos_token_id: m.bos_token_id,
        eos_token_id: m.eos_token_id,
    }
}

/// Read the shape of a LLaMA model from its metadata.
pub fn llama_shape(meta: &MetadataView) -> (r: Result<LlamaShape, ConfigError>)
    ensures
        match first_missing(*meta) {
            Some(k) => r == Err::<LlamaShape, ConfigError>(ConfigError::Missing(k)),
            None => match vocab_spec(*meta) {
                None => r == Err::<LlamaShape, ConfigError>(ConfigError::NoVocabSize),
                Some(v) => r == Ok::<LlamaShape, ConfigError>(shape_spec(*meta, v)),
            },
        },
{
    let hidden = match meta.embedding_length {
        Some(v) => v as usize,
        None => {
            return Err(ConfigError::Missing(ShapeKey::EmbeddingLength));
        },
    };
    let intermediate = match meta.feed_forward_length {
        Some(v) => v as usize,
        None => {
            return Err(ConfigError::Missing(ShapeKey::FeedForwardLength));
        },
    };
    let layers = match meta.block_count {
        Some(v) => v as usize,
        None => {
            return Err(ConfigError::Missing(ShapeKey::BlockCount));
        },
    };
    let heads = match meta.head_count {
        Some(v) => v as usize,
        None => {
            return Err(ConfigError::Missing(ShapeKey::HeadCount));
        },
    };
    let kv_heads = match meta.head_count_kv {
        Some(v) => v as usize,
        None => {
            return Err(ConfigError::Missing(ShapeKey::HeadCountKv));
        },
    };
    let divisor = if heads > 0 {
        heads
    } else {
        1
    };
    let head_dim = hidden / divisor;
    let vocab = match meta.vocab_size {
        Some(v) => v as usize,
        None => match meta.n_vocab {
            Some(v) => v as usize,
            None => match meta.token_count {
                Some(n) => n,
                None => {
                    return Err(ConfigError::NoVocabSize);
                },
            },
        },
    };
    let context = match meta.context_length {
        Some(c) => c as usize,
        None => 2048,
    };
    Ok(
        LlamaShape {
            hidden_size: hidden,
            intermediate_size: intermediate,
            vocab_size: vocab,
            num_hidden_layers: layers,
            num_attention_heads: heads,
            num_key_value_heads: kv_heads,
            head_dim,
            max_position_embeddings: context,
            bos_token_id: meta.bos_token_id,
            eos_token_id: meta.eos_token_id,
        },
    )
}


/// The context the file names is the model's context: a shape read from
/// metadata that carries `llama.context_length = c` has `c` positions, and
/// only metadata without the key gets 2048.
pub proof fn law_context_comes_from_the_file(meta: MetadataView, r: Result<LlamaShape, ConfigError>)
    requires
        match first_missing(meta) {
            Some(k) => r == Err::<LlamaShape, ConfigError>(ConfigError::Missing(k)),
            None => match vocab_spec(meta) {
                None => r == Err::<LlamaShape, ConfigError>(ConfigError::NoVocabSize),
                Some(v) => r == Ok::<LlamaShape, ConfigError>(shape_spec(meta, v)),
            },
        },
    ensures
        r matches Ok(s) ==> (meta.context_length matches Some(c) ==> s.max_position_embeddings
            == c as usize) && (meta.context_length is None ==> s.max_position_embeddings == 2048),
        r matches Ok(s) ==> s.hidden_size == meta.embedding_length->0 as usize
            && s.num_attention_heads == meta.head_count->0 as usize && s.num_key_value_heads
            == meta.head_count_kv->0 as usize && s.num_hidden_layers == meta.block_count->0 as usize
            && s.intermediate_size == meta.feed_forward_length->0 as usize,
        r matches Ok(s) ==> s.head_dim * (if s.num_attention_heads > 0 {
            s.num_attention_heads as int
        } else {
            1
        }) <= s.hidden_size,
{
    if let Ok(s) = r {
        let h = s.hidden_size as int;
        let q: int = if s.num_attention_heads > 0 {
            s.num_attention_heads as int
        } else {
            1
        };
        assert(s.head_dim == h / q);
        assert((h / q) * q <= h) by (nonlinear_arith)
            requires
                q > 0,
                h >= 0,
        {}
    }
}

} // verus!
