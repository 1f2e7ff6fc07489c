//! The tensor table of a GGUF file and the byte ranges of its tensors.
//!
//! `Content` holds what the tensor operations read: the tensor descriptors,
//! the offset at which tensor data starts, and the file's bytes.

use vstd::prelude::*;
use crate::quantization::{GgmlDType, dtype_of_code, block_size_spec, type_size_spec};
use crate::name_mapping::string_views;

verus! {

/// One entry of the tensor table.
#[derive(Clone, Debug)]
pub struct TensorInfo {
    pub name: String,
    /// Raw GGUF type number
    pub tensor_type: u32,
    pub dimensions: Vec<u64>,
    /// Offset of the tensor's data from the start of the data section
    pub offset: u64,
}

/// A GGUF file: its tensor table, where tensor data starts, and its bytes.
pub struct Content {
    pub tensor_infos: Vec<TensorInfo>,
    pub tensor_data_offset: u64,
    pub data: Vec<u8>,
}

/// The product of the dimensions.
pub open spec fn dims_product(d: Seq<u64>) -> nat
    decreases d.len(),
{
    if d.len() == 0 {
        1
    } else {
        dims_product(d.drop_last()) * (d.last() as nat)
    }
}

/// Every running product of the dimensions fits in a `u64`, and the whole
/// product in a `usize`.
pub open spec fn product_fits(d: Seq<u64>) -> bool {
    &&& forall|k: int| 0 <= k <= d.len() ==> #[trigger] dims_product(d.take(k)) <= u64::MAX
    &&& dims_product(d) <= usize::MAX
}

/// Bytes that `elems` elements of `dt` occupy: whole blocks.
pub open spec fn byte_size(dt: GgmlDType, elems: nat) -> nat {
    ((elems + block_size_spec(dt) - 1) as nat / block_size_spec(dt) as nat) * (type_size_spec(
        dt,
    ) as nat)
}

/// The sizes of a tensor of known type, and where its data would end,
/// are all computable without overflow.
pub open spec fn info_fits(info: TensorInfo, data_offset: u64) -> bool {
    match dtype_of_code(info.tensor_type) {
        Some(dt) => {
            &&& product_fits(info.dimensions@)
            &&& dims_product(info.dimensions@) + block_size_spec(dt) - 1 <= usize::MAX
            &&& byte_size(dt, dims_product(info.dimensions@)) <= usize::MAX
            &&& data_offset + info.offset + byte_size(dt, dims_product(info.dimensions@))
                <= usize::MAX
        },
        None => true,
    }
}

/// Size in bytes of a tensor: `None` for an unknown type.
pub open spec fn info_bytes(info: TensorInfo) -> Option<nat> {
    match dtype_of_code(info.tensor_type) {
        Some(dt) => Some(byte_size(dt, dims_product(info.dimensions@))),
        None => None,
    }
}

/// Total bytes of the tensors of known type.
pub open spec fn model_size_spec(infos: Seq<TensorInfo>) -> nat
    decreases infos.len(),
{
    if infos.len() == 0 {
        0
    } else {
        model_size_spec(infos.drop_last()) + match info_bytes(infos.last()) {
            Some(b) => b,
            None => 0,
        }
    }
}

/// The first tensor at or after `from` named `n`.
pub open spec fn tensor_from(infos: Seq<TensorInfo>, n: Seq<char>, from: int) -> Option<int>
    decreases infos.len() - from,
{
    if from < 0 || from >= infos.len() {
        None
    } else if infos[from].name@ == n {
        Some(from)
    } else {
        tensor_from(infos, n, from + 1)
    }
}

impl Content {
    /// Every tensor's sizes are computable without overflow.
    pub open spec fn sizes_fit_spec(&self) -> bool {
        forall|i: int|
            0 <= i < self.tensor_infos@.len() ==> info_fits(
                #[trigger] self.tensor_infos@[i],
                self.tensor_data_offset,
            )
    }
}

/// Errors of tensor extraction.
pub enum GgufError {
    /// No tensor of that name.
    TensorNotFound(String),
    /// The tensor's type number names no known type.
    UnknownType(u32),
    /// The tensor's bytes would run past the end of the file.
    OutOfBounds { name: String, start: usize, end: usize, file_size: usize },
}

/// The number of elements of a tensor.
pub(crate) fn element_count(dims: &Vec<u64>) -> (r: usize)
    requires
        product_fits(dims@),
    ensures
        r == dims_product(dims@),
{
    let mut acc: u64 = 1;
    let mut i: usize = 0;
    assert(dims@.take(0) =~= Seq::<u64>::empty());
    while i < dims.len()
        invariant
            i <= dims@.len(),
            product_fits(dims@),
            acc == dims_product(dims@.take(i as int)),
        decreases dims@.len() - i,
    {
        assert(dims@.take(i + 1).drop_last() =~= dims@.take(i as int));
        assert(dims_product(dims@.take(i + 1)) <= u64::MAX);
        acc = acc * dims[i];
        i = i + 1;
    }
    assert(dims@.take(dims@.len() as int) =~= dims@);
    acc as usize
}

/// The bytes that `elems` elements of `dt` occupy.
pub(crate) fn tensor_bytes(dt: GgmlDType, elems: usize) -> (r: usize)
    requires
        elems + block_size_spec(dt) - 1 <= usize::MAX,
        byte_size(dt, elems as nat) <= usize::MAX,
    ensures
        r == byte_size(dt, elems as nat),
{
    let block_size = dt.block_size();
    let type_size = dt.type_size();
    let num_blocks = (elems + (block_size - 1)) / block_size;
    num_blocks * type_size
}

/// A copy of a list of dimensions.
fn copy_dims(d: &Vec<u64>) -> (r: Vec<u64>)
    ensures
        r@ == d@,
{
    let mut out: Vec<u64> = Vec::new();
    let mut i: usize = 0;
    while i < d.len()
        invariant
            i <= d@.len(),
            out@ == d@.take(i as int),
        decreases d@.len() - i,
    {
        out.push(d[i]);
        assert(out@ =~= d@.take(i + 1));
        i = i + 1;
    }
    assert(d@.take(d@.len() as int) =~= d@);
    out
}

impl Content {
    /// Whether every tensor's sizes are computable without overflow.
    pub fn sizes_fit(&self) -> (r: bool)
        ensures
            r == self.sizes_fit_spec(),
    {
        let mut i: usize = 0;
        while i < self.tensor_infos.len()
            invariant
                i <= self.tensor_infos@.len(),
                forall|j: int|
                    0 <= j < i ==> info_fits(#[trigger] self.tensor_infos@[j], self.tensor_data_offset),
            decreases self.tensor_infos@.len() - i,
        {
            if !Self::info_fits_exec(&self.tensor_infos[i], self.tensor_data_offset) {
                return false;
            }
            i = i + 1;
        }
        true
    }

    fn info_fits_exec(info: &TensorInfo, data_offset: u64) -> (r: bool)
        ensures
            r == info_fits(*info, data_offset),
    {
        let dt = match GgmlDType::from_u32(info.tensor_type) {
            Some(dt) => dt,
            None => {
                return true;
            },
        };
        let d = &info.dimensions;
        let mut acc: u64 = 1;
        let mut i: usize = 0;
        assert(d@.take(0) =~= Seq::<u64>::empty());
        while i < d.len()
            invariant
                i <= d@.len(),
                d@ == info.dimensions@,
                dtype_of_code(info.tensor_type) == Some(dt),
                acc == dims_product(d@.take(i as int)),
                forall|k: int| 0 <= k <= i ==> #[trigger] dims_product(d@.take(k)) <= u64::MAX,
            decreases d@.len() - i,
        {
            assert(d@.take(i + 1).drop_last() =~= d@.take(i as int));
            match acc.checked_mul(d[i]) {
                Some(p) => {
                    acc = p;
                },
                None => {
                    assert(dims_product(d@.take(i + 1)) > u64::MAX);
                    assert(!product_fits(d@));
                    return false;
                },
            }
            i = i + 1;
        }
        assert(d@.take(d@.len() as int) =~= d@);
        if acc > usize::MAX as u64 {
            return false;
        }
        let elems = acc as usize;
        let bs = dt.block_size();
        if elems > usize::MAX - (bs - 1) {
            return false;
        }
        let blocks = (elems + (bs - 1)) / bs;
        let bytes = match blocks.checked_mul(dt.type_size()) {
            Some(b) => b,
            None => {
                return false;
            },
        };
        let off = data_offset as u128 + info.offset as u128 + bytes as u128;
        off <= usize::MAX as u128
    }

    /// The tensor table.
    pub fn lightning_tensor_infos(&self) -> (r: &Vec<TensorInfo>)
        ensures
            r@ == self.tensor_infos@,
    {
        &self.tensor_infos
    }

    /// Where tensor data starts.
    pub fn tensor_data_offset(&self) -> (r: u64)
        ensures
            r == self.tensor_data_offset,
    {
        self.tensor_data_offset
    }

    /// The file's bytes.
    pub fn raw_mmap(&self) -> (r: &[u8])
        ensures
            r@ == self.data@,
    {
        self.data.as_slice()
    }
}

proof fn lemma_tensor_found(infos: Seq<TensorInfo>, n: Seq<char>, from: int, i: int)
    requires
        0 <= from <= i < infos.len(),
        infos[i].name@ == n,
        forall|j: int| from <= j < i ==> (#[trigger] infos[j]).name@ != n,
    ensures
        tensor_from(infos, n, from) == Some(i),
    decreases i - from,
{
    if from < i {
        lemma_tensor_found(infos, n, from + 1, i);
    }
}

proof fn lemma_tensor_none(infos: Seq<TensorInfo>, n: Seq<char>, from: int)
    requires
        0 <= from,
        forall|j: int| from <= j < infos.len() ==> (#[trigger] infos[j]).name@ != n,
    ensures
        tensor_from(infos, n, from) is None,
    decreases infos.len() - from,
{
    if from < infos.len() {
        lemma_tensor_none(infos, n, from + 1);
    }
}

/// Position of the first tensor named `name`.
pub(crate) fn find_tensor(infos: &Vec<TensorInfo>, name: &str) -> (r: Option<usize>)
    ensures
        match r {
            Some(k) => k < infos@.len() && tensor_from(infos@, name@, 0) == Some(k as int),
            None => tensor_from(infos@, name@, 0) is None,
        },
{
    let want = crate::text::chars_of(name);
    let mut i: usize = 0;
    while i < infos.len()
        invariant
            i <= infos@.len(),
            want@ == name@,
            forall|j: int| 0 <= j < i ==> (#[trigger] infos@[j]).name@ != name@,
        decreases infos@.len() - i,
    {
        let nm = crate::text::chars_of(infos[i].name.as_str());
        if nm.len() == want.len() && crate::text::matches_at(&nm, &want, 0) {
            assert(nm@ =~= want@);
            proof {
                lemma_tensor_found(infos@, name@, 0, i as int);
            }
            return Some(i);
        }
        proof {
            if nm@ == want@ {
                assert(nm@.subrange(0, want@.len() as int) =~= nm@);
            }
        }
        i = i + 1;
    }
    proof {
        lemma_tensor_none(infos@, name@, 0);
    }
    None
}

/// Where the bytes of tensor `info` start in the file.
pub open spec fn data_start(c: &Content, info: TensorInfo) -> nat {
    (c.tensor_data_offset + info.offset) as nat
}

/// The raw bytes of the first tensor named `tensor_name`, with its type and
/// shape.  The bytes are the whole blocks that its elements occupy, starting
/// at the data section offset plus the tensor's offset.
pub fn extract_tensor_bytes<'a>(content: &'a Content, tensor_name: &str) -> (r: Result<
    (&'a [u8], GgmlDType, Vec<u64>),
    GgufError,
>)
    requires
        content.sizes_fit_spec(),
    ensures
        match tensor_from(content.tensor_infos@, tensor_name@, 0) {
            None => r matches Err(GgufError::TensorNotFound(n)) && n@ == tensor_name@,
            Some(i) => {
                let info = content.tensor_infos@[i];
                match dtype_of_code(info.tensor_type) {
                    None => r matches Err(GgufError::UnknownType(t)) && t == info.tensor_type,
                    Some(dt) => {
                        let start = data_start(content, info);
                        let end = start + byte_size(dt, dims_product(info.dimensions@));
                        if end > content.data@.len() {
                            r matches Err(GgufError::OutOfBounds { name, start: s, end: e, file_size })
                                && name@ == tensor_name@ && s == start && e == end && file_size
                                == content.data@.len()
                        } else {
                            r matches Ok((bytes, t, shape)) && bytes@ == content.data@.subrange(
                                start as int,
                                end as int,
                            ) && t == dt && shape@ == info.dimensions@
                        }
                    },
                }
            },
        },
{
    let infos = &content.tensor_infos;
    let k = match find_tensor(infos, tensor_name) {
        Some(k) => k,
        None => {
            return Err(GgufError::TensorNotFound(String::from_str(tensor_name)));
        },
    };
    let info = &infos[k];
    let dtype = match GgmlDType::from_u32(info.tensor_type) {
        Some(d) => d,
        None => {
            return Err(GgufError::UnknownType(info.tensor_type));
        },
    };
    assert(info_fits(*info, content.tensor_data_offset));
    let elem_count = element_count(&info.dimensions);
    let size = tensor_bytes(dtype, elem_count);
    let start = content.tensor_data_offset as usize + info.offset as usize;
    let end = start + size;
    let file_size = content.data.len();
    if end > file_size {
        return Err(
            GgufError::OutOfBounds { name: String::from_str(tensor_name), start, end, file_size },
        );
    }
    let bytes = &content.data.as_slice()[start..end];
    Ok((bytes, dtype, copy_dims(&info.dimensions)))
}

/// The names of all tensors, in table order.
pub fn list_tensor_names(content: &Content) -> (r: Vec<String>)
    ensures
        string_views(r@) == content.tensor_infos@.map_values(|t: TensorInfo| t.name@),
{
    let infos = &content.tensor_infos;
    let mut out: Vec<String> = Vec::new();
    let mut i: usize = 0;
    while i < infos.len()
        invariant
            i <= infos@.len(),
            out@.len() == i,
            string_views(out@) == infos@.take(i as int).map_values(|t: TensorInfo| t.name@),
        decreases infos@.len() - i,
    {
        let n = infos[i].name.clone();
        assert(n@ == infos@[i as int].name@);
        let ghost before = out@;
        out.push(n);
        assert(out@ == before.push(n));
        assert(string_views(out@) =~= infos@.take(i + 1).map_values(|t: TensorInfo| t.name@)) by {
            assert forall|j: int| 0 <= j < i + 1 implies #[trigger] string_views(out@)[j]
                == infos@.take(i + 1).map_values(|t: TensorInfo| t.name@)[j] by {
                if j < i {
                    assert(out@[j] == before[j]);
                    assert(string_views(before)[j] == infos@.take(i as int).map_values(
                        |t: TensorInfo| t.name@,
                    )[j]);
                } else {
                    assert(out@[j] == n);
                }
            }
        }
        i = i + 1;
    }
    assert(infos@.take(infos@.len() as int) =~= infos@);
    out
}

/// Total size in bytes of the tensors of known type.
pub fn calculate_model_size(content: &Content) -> (r: usize)
    requires
        content.sizes_fit_spec(),
        model_size_spec(content.tensor_infos@) <= usize::MAX,
    ensures
        r == model_size_spec(content.tensor_infos@),
{
    let infos = &content.tensor_infos;
    let mut total_bytes: usize = 0;
    let mut i: usize = 0;
    while i < infos.len()
        invariant
            i <= infos@.len(),
            content.sizes_fit_spec(),
            infos@ == content.tensor_infos@,
            model_size_spec(infos@) <= usize::MAX,
            total_bytes == model_size_spec(infos@.take(i as int)),
        decreases infos@.len() - i,
    {
        proof {
            lemma_model_size_prefix(infos@, i + 1);
        }
        assert(infos@.take(i + 1).drop_last() =~= infos@.take(i as int));
        assert(infos@.take(i + 1).last() == infos@[i as int]);
        let info = &infos[i];
        assert(info_fits(*info, content.tensor_data_offset));
        match GgmlDType::from_u32(info.tensor_type) {
            Some(dtype) => {
                let elem_count = element_count(&info.dimensions);
                total_bytes = total_bytes + tensor_bytes(dtype, elem_count);
            },
            None => {},
        }
        i = i + 1;
    }
    assert(infos@.take(infos@.len() as int) =~= infos@);
    total_bytes
}

proof fn lemma_model_size_prefix(infos: Seq<TensorInfo>, k: int)
    requires
        0 <= k <= infos.len(),
    ensures
        model_size_spec(infos.take(k)) <= model_size_spec(infos),
    decreases infos.len(),
{
    if k < infos.len() {
        assert(infos.drop_last().take(k) =~= infos.take(k));
        lemma_model_size_prefix(infos.drop_last(), k);
    } else {
        assert(infos.take(k) =~= infos);
    }
}

/// Metadata of one tensor.
#[derive(Clone, Debug)]
pub struct TensorMetadata {
    pub name: String,
    pub dtype: GgmlDType,
    pub shape: Vec<u64>,
    pub elem_count: usize,
    pub size_bytes: usize,
}

/// The metadata that a tensor of known type yields.
pub open spec fn metadata_of(info: TensorInfo, m: TensorMetadata) -> bool {
    &&& dtype_of_code(info.tensor_type) == Some(m.dtype)
    &&& m.name@ == info.name@
    &&& m.shape@ == info.dimensions@
    &&& m.elem_count == dims_product(info.dimensions@)
    &&& m.size_bytes == byte_size(m.dtype, dims_product(info.dimensions@))
}

/// The tensors of known type, in table order.
pub open spec fn known_tensors(infos: Seq<TensorInfo>) -> Seq<TensorInfo>
    decreases infos.len(),
{
    if infos.len() == 0 {
        Seq::empty()
    } else if dtype_of_code(infos.last().tensor_type) is Some {
        known_tensors(infos.drop_last()).push(infos.last())
    } else {
        known_tensors(infos.drop_last())
    }
}

/// Metadata of every tensor of known type, in table order.
pub fn get_all_tensor_metadata(content: &Content) -> (r: Vec<TensorMetadata>)
    requires
        content.sizes_fit_spec(),
    ensures
        r@.len() == known_tensors(content.tensor_infos@).len(),
        forall|i: int|
            0 <= i < r@.len() ==> metadata_of(known_tensors(content.tensor_infos@)[i], #[trigger] r@[i]),
{
    let infos = &content.tensor_infos;
    let mut out: Vec<TensorMetadata> = Vec::new();
    let mut i: usize = 0;
    while i < infos.len()
        invariant
            i <= infos@.len(),
            content.sizes_fit_spec(),
            infos@ == content.tensor_infos@,
            out@.len() == known_tensors(infos@.take(i as int)).len(),
            forall|j: int|
                0 <= j < out@.len() ==> metadata_of(
                    known_tensors(infos@.take(i as int))[j],
                    #[trigger] out@[j],
                ),
        decreases infos@.len() - i,
    {
        assert(infos@.take(i + 1).drop_last() =~= infos@.take(i as int));
        assert(infos@.take(i + 1).last() == infos@[i as int]);
        let info = &infos[i];
        assert(info_fits(*info, content.tensor_data_offset));
        match GgmlDType::from_u32(info.tensor_type) {
            Some(dtype) => {
                assert(known_tensors(infos@.take(i + 1)) == known_tensors(infos@.take(i as int)).push(
                    infos@[i as int],
                ));
                let elem_count = element_count(&info.dimensions);
                let size_bytes = tensor_bytes(dtype, elem_count);
                let name = info.name.clone();
                assert(name@ == info.name@);
                out.push(
                    TensorMetadata {
                        name,
                        dtype,
                        shape: copy_dims(&info.dimensions),
                        elem_count,
                        size_bytes,
                    },
                );
            },
            None => {
                assert(known_tensors(infos@.take(i + 1)) == known_tensors(infos@.take(i as int)));
            },
        }
        i = i + 1;
    }
    assert(infos@.take(infos@.len() as int) =~= infos@);
    out
}


/// The total of the `size_bytes` of a list of metadata.
pub open spec fn metadata_bytes(ms: Seq<TensorMetadata>) -> nat
    decreases ms.len(),
{
    if ms.len() == 0 {
        0
    } else {
        metadata_bytes(ms.drop_last()) + ms.last().size_bytes as nat
    }
}

/// The model size is the total of the sizes that the metadata of the
/// tensors of known type report; tensors of unknown type count for nothing.
pub proof fn law_model_size_is_the_metadata_total(infos: Seq<TensorInfo>, ms: Seq<TensorMetadata>)
    requires
        ms.len() == known_tensors(infos).len(),
        forall|i: int| 0 <= i < ms.len() ==> metadata_of(known_tensors(infos)[i], #[trigger] ms[i]),
    ensures
        metadata_bytes(ms) == model_size_spec(infos),
    decreases infos.len(),
{
    if infos.len() > 0 {
        let pre = infos.drop_last();
        let k = known_tensors(pre);
        if dtype_of_code(infos.last().tensor_type) is Some {
            let ms0 = ms.drop_last();
            assert forall|i: int| 0 <= i < ms0.len() implies metadata_of(k[i], #[trigger] ms0[i]) by {
                assert(ms0[i] == ms[i]);
                assert(known_tensors(infos)[i] == k[i]);
            }
            law_model_size_is_the_metadata_total(pre, ms0);
            assert(known_tensors(infos)[ms.len() - 1] == infos.last());
            assert(metadata_of(infos.last(), ms.last()));
        } else {
            law_model_size_is_the_metadata_total(pre, ms);
        }
    }
}

} // verus!
