//! GGML tensor data types as GGUF files number them, with their block
//! geometry.

use vstd::prelude::*;

verus! {

/// GGML quantization data types.  `to_u32` gives the number that GGUF files
/// use for each.
#[derive(Clone, Copy, Debug, PartialEq, Eq, Hash, Structural)]
pub enum GgmlDType {
    F32,
    F16,
    Q4_0,
    Q4_1,
    Q5_0,
    Q5_1,
    Q8_0,
    Q8_1,
    Q2K,
    Q3K,
    Q4K,
    Q5K,
    Q6K,
    Q8K,
}

/// The GGUF number of each type.
pub open spec fn dtype_code(d: GgmlDType) -> u32 {
    match d {
        GgmlDType::F32 => 0,
        GgmlDType::F16 => 1,
        GgmlDType::Q4_0 => 2,
        GgmlDType::Q4_1 => 3,
        GgmlDType::Q5_0 => 6,
        GgmlDType::Q5_1 => 7,
        GgmlDType::Q8_0 => 8,
        GgmlDType::Q8_1 => 9,
        GgmlDType::Q2K => 10,
        GgmlDType::Q3K => 11,
        GgmlDType::Q4K => 12,
        GgmlDType::Q5K => 13,
        GgmlDType::Q6K => 14,
        GgmlDType::Q8K => 15,
    }
}

/// The type that a GGUF number stands for.
pub open spec fn dtype_of_code(v: u32) -> Option<GgmlDType> {
    if v == 0 {
        Some(GgmlDType::F32)
    } else if v == 1 {
        Some(GgmlDType::F16)
    } else if v == 2 {
        Some(GgmlDType::Q4_0)
    } else if v == 3 {
        Some(GgmlDType::Q4_1)
    } else if v == 6 {
        Some(GgmlDType::Q5_0)
    } else if v == 7 {
        Some(GgmlDType::Q5_1)
    } else if v == 8 {
        Some(GgmlDType::Q8_0)
    } else if v == 9 {
        Some(GgmlDType::Q8_1)
    } else if v == 10 {
        Some(GgmlDType::Q2K)
    } else if v == 11 {
        Some(GgmlDType::Q3K)
    } else if v == 12 {
        Some(GgmlDType::Q4K)
    } else if v == 13 {
        Some(GgmlDType::Q5K)
    } else if v == 14 {
        Some(GgmlDType::Q6K)
    } else if v == 15 {
        Some(GgmlDType::Q8K)
    } else {
        None
    }
}

/// Elements per block.
pub open spec fn block_size_spec(d: GgmlDType) -> usize {
    match d {
        GgmlDType::F32 | GgmlDType::F16 => 1,
        GgmlDType::Q4_0 | GgmlDType::Q4_1 | GgmlDType::Q5_0 | GgmlDType::Q5_1 | GgmlDType::Q8_0
        | GgmlDType::Q8_1 => 32,
        _ => 256,
    }
}

/// Bytes per block.
pub open spec fn type_size_spec(d: GgmlDType) -> usize {
    match d {
        GgmlDType::F32 => 4,
        GgmlDType::F16 => 2,
        GgmlDType::Q4_0 => 18,
        GgmlDType::Q4_1 => 20,
        GgmlDType::Q5_0 => 22,
        GgmlDType::Q5_1 => 24,
        GgmlDType::Q8_0 => 34,
        GgmlDType::Q8_1 => 36,
        GgmlDType::Q2K => 82,
        GgmlDType::Q3K => 110,
        GgmlDType::Q4K => 144,
        GgmlDType::Q5K => 176,
        GgmlDType::Q6K => 210,
        GgmlDType::Q8K => 292,
    }
}

/// The usual name of each type.
pub open spec fn dtype_name(d: GgmlDType) -> Seq<char> {
    match d {
        GgmlDType::F32 => "F32"@,
        GgmlDType::F16 => "F16"@,
        GgmlDType::Q4_0 => "Q4_0"@,
        GgmlDType::Q4_1 => "Q4_1"@,
        GgmlDType::Q5_0 => "Q5_0"@,
        GgmlDType::Q5_1 => "Q5_1"@,
        GgmlDType::Q8_0 => "Q8_0"@,
        GgmlDType::Q8_1 => "Q8_1"@,
        GgmlDType::Q2K => "Q2_K"@,
        GgmlDType::Q3K => "Q3_K"@,
        GgmlDType::Q4K => "Q4_K"@,
        GgmlDType::Q5K => "Q5_K"@,
        GgmlDType::Q6K => "Q6_K"@,
        GgmlDType::Q8K => "Q8_K"@,
    }
}

impl GgmlDType {
    /// The type of a raw GGUF type number.
    pub fn from_u32(value: u32) -> (r: Option<Self>)
        ensures
            r == dtype_of_code(value),
    {
        match value {
            0 => Some(Self::F32),
            1 => Some(Self::F16),
            2 => Some(Self::Q4_0),
            3 => Some(Self::Q4_1),
            6 => Some(Self::Q5_0),
            7 => Some(Self::Q5_1),
            8 => Some(Self::Q8_0),
            9 => Some(Self::Q8_1),
            10 => Some(Self::Q2K),
            11 => Some(Self::Q3K),
            12 => Some(Self::Q4K),
            13 => Some(Self::Q5K),
            14 => Some(Self::Q6K),
            15 => Some(Self::Q8K),
            _ => None,
        }
    }

    /// The raw GGUF type number.
    pub fn to_u32(&self) -> (r: u32)
        ensures
            r == dtype_code(*self),
    {
        match self {
            Self::F32 => 0,
            Self::F16 => 1,
            Self::Q4_0 => 2,
            Self::Q4_1 => 3,
            Self::Q5_0 => 6,
            Self::Q5_1 => 7,
            Self::Q8_0 => 8,
            Self::Q8_1 => 9,
            Self::Q2K => 10,
            Self::Q3K => 11,
            Self::Q4K => 12,
            Self::Q5K => 13,
            Self::Q6K => 14,
            Self::Q8K => 15,
        }
    }

    /// Elements per block.
    pub fn block_size(&self) -> (r: usize)
        ensures
            r == block_size_spec(*self),
    {
        match self {
            Self::F32 | Self::F16 => 1,
            Self::Q4_0 | Self::Q4_1 | Self::Q5_0 | Self::Q5_1 | Self::Q8_0 | Self::Q8_1 => 32,
            Self::Q2K | Self::Q3K | Self::Q4K | Self::Q5K | Self::Q6K | Self::Q8K => 256,
        }
    }

    /// Bytes per block.
    pub fn type_size(&self) -> (r: usize)
        ensures
            r == type_size_spec(*self),
    {
        match self {
            Self::F32 => 4,
            Self::F16 => 2,
            Self::Q4_0 => 18,
            Self::Q4_1 => 20,
            Self::Q5_0 => 22,
            Self::Q5_1 => 24,
            Self::Q8_0 => 34,
            Self::Q8_1 => 36,
            Self::Q2K => 82,
            Self::Q3K => 110,
            Self::Q4K => 144,
            Self::Q5K => 176,
            Self::Q6K => 210,
            Self::Q8K => 292,
        }
    }

    /// Human-readable name.
    pub fn name(&self) -> (r: &'static str)
        ensures
            r@ == dtype_name(*self),
    {
        match self {
            Self::F32 => "F32",
            Self::F16 => "F16",
            Self::Q4_0 => "Q4_0",
            Self::Q4_1 => "Q4_1",
            Self::Q5_0 => "Q5_0",
            Self::Q5_1 => "Q5_1",
            Self::Q8_0 => "Q8_0",
            Self::Q8_1 => "Q8_1",
            Self::Q2K => "Q2_K",
            Self::Q3K => "Q3_K",
            Self::Q4K => "Q4_K",
            Self::Q5K => "Q5_K",
            Self::Q6K => "Q6_K",
            Self::Q8K => "Q8_K",
        }
    }
}

/// Reading a type's number back gives the type.
pub proof fn law_code_round_trip(d: GgmlDType)
    ensures
        dtype_of_code(dtype_code(d)) == Some(d),
{
}

/// A number that names a type is that type's number.
pub proof fn law_code_is_injective(v: u32)
    ensures
        dtype_of_code(v) matches Some(d) ==> dtype_code(d) == v,
{
}


/// The bits each weight is packed into in a block of type `d`.
pub open spec fn weight_bits(d: GgmlDType) -> nat {
    match d {
        GgmlDType::F32 => 32,
        GgmlDType::F16 => 16,
        GgmlDType::Q4_0 | GgmlDType::Q4_1 | GgmlDType::Q4K => 4,
        GgmlDType::Q5_0 | GgmlDType::Q5_1 | GgmlDType::Q5K => 5,
        GgmlDType::Q8_0 | GgmlDType::Q8_1 | GgmlDType::Q8K => 8,
        GgmlDType::Q2K => 2,
        GgmlDType::Q3K => 3,
        GgmlDType::Q6K => 6,
    }
}

/// The bytes of a block of type `d` beyond its packed weights: the `f16`
/// scale (and minimum) of the legacy types, and the super-block scales,
/// minimums and packed sub-block scales of the K-quants (for `Q4_K`: two
/// `f16` and twelve bytes of 6-bit scales).
pub open spec fn header_bytes(d: GgmlDType) -> nat {
    match d {
        GgmlDType::F32 | GgmlDType::F16 => 0,
        GgmlDType::Q4_0 | GgmlDType::Q5_0 | GgmlDType::Q8_0 => 2,
        GgmlDType::Q4_1 | GgmlDType::Q5_1 | GgmlDType::Q8_1 => 4,
        GgmlDType::Q2K => 18,
        GgmlDType::Q3K => 14,
        GgmlDType::Q4K => 16,
        GgmlDType::Q5K => 16,
        GgmlDType::Q6K => 18,
        GgmlDType::Q8K => 36,
    }
}

/// A block's size in bytes is its packed weights (`block_size` weights of
/// `weight_bits` bits each) plus its scale header, for every type.
pub proof fn law_block_bytes_follow_the_layout(d: GgmlDType)
    ensures
        type_size_spec(d) * 8 == weight_bits(d) * block_size_spec(d) + header_bytes(d) * 8,
        block_size_spec(d) * weight_bits(d) % 8 == 0,
{
}

} // verus!
