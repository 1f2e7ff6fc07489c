//! Applying a pruning manifest to a GGUF file: which mask, if any, each
//! tensor gets, and where each tensor's bytes lie.  Dequantizing, masking
//! and writing the file (masked tensors as F32) are the caller's.

use vstd::prelude::*;
use crate::gguf::{
    Content, TensorInfo, tensor_from, dims_product, byte_size, data_start, info_fits, find_tensor,
    element_count, tensor_bytes,
};
use crate::quantization::{GgmlDType, dtype_of_code};
use crate::name_mapping::{TensorNameMapper, MapEntry, parse_abstract_spec, lookup, string_views};
use crate::text::{chars_of, matches_at};

verus! {

/// The tensor name that abstract name `a` maps to under mapping entries `es`.
pub open spec fn mapped_name(es: Seq<MapEntry>, a: Seq<char>) -> Option<Seq<char>> {
    match parse_abstract_spec(a) {
        Some(k) => lookup(es, k),
        None => None,
    }
}

/// The first position at or after `from` whose name is `t`.
pub open spec fn first_named(names: Seq<Seq<char>>, t: Seq<char>, from: int) -> Option<int>
    decreases names.len() - from,
{
    if from < 0 || from >= names.len() {
        None
    } else if names[from] == t {
        Some(from)
    } else {
        first_named(names, t, from + 1)
    }
}

/// The first position at or after `from` whose name maps to `t`.
pub open spec fn first_mapped_to(es: Seq<MapEntry>, names: Seq<Seq<char>>, t: Seq<char>, from: int) -> Option<
    int,
>
    decreases names.len() - from,
{
    if from < 0 || from >= names.len() {
        None
    } else if mapped_name(es, names[from]) == Some(t) {
        Some(from)
    } else {
        first_mapped_to(es, names, t, from + 1)
    }
}

/// The mask for tensor `t`: one recorded under its own name, else the first
/// recorded under an abstract name that maps to it.
pub open spec fn mask_choice(es: Seq<MapEntry>, names: Seq<Seq<char>>, t: Seq<char>) -> Option<int> {
    match first_named(names, t, 0) {
        Some(j) => Some(j),
        None => first_mapped_to(es, names, t, 0),
    }
}

fn same_text(a: &str, b: &str) -> (r: bool)
    ensures
        r == (a@ == b@),
{
    let x = chars_of(a);
    let y = chars_of(b);
    if x.len() != y.len() {
        return false;
    }
    let r = matches_at(&x, &y, 0);
    proof {
        assert(x@.subrange(0, y@.len() as int) =~= x@);
    }
    r
}

/// Which of the masks recorded under `mask_names` applies to `tensor_name`.
pub fn mask_for_tensor(tensor_name: &str, mask_names: &[String], mapper: &TensorNameMapper) -> (r:
    Option<usize>)
    ensures
        match mask_choice(mapper.entries(), string_views(mask_names@), tensor_name@) {
            Some(j) => r == Some(j as usize),
            None => r is None,
        },
{
    let ghost names = string_views(mask_names@);
    let mut i: usize = 0;
    while i < mask_names.len()
        invariant
            i <= mask_names@.len(),
            names == string_views(mask_names@),
            first_named(names, tensor_name@, 0) == first_named(names, tensor_name@, i as int),
        decreases mask_names@.len() - i,
    {
        if same_text(mask_names[i].as_str(), tensor_name) {
            return Some(i);
        }
        i = i + 1;
    }
    let mut i: usize = 0;
    while i < mask_names.len()
        invariant
            i <= mask_names@.len(),
            names == string_views(mask_names@),
            first_named(names, tensor_name@, 0) is None,
            first_mapped_to(mapper.entries(), names, tensor_name@, 0) == first_mapped_to(
                mapper.entries(),
                names,
                tensor_name@,
                i as int,
            ),
        decreases mask_names@.len() - i,
    {
        match mapper.map_name(mask_names[i].as_str()) {
            Some(m) => {
                if same_text(m.as_str(), tensor_name) {
                    return Some(i);
                }
            },
            None => {},
        }
        i = i + 1;
    }
    None
}

/// One tensor of the file as the manifest is applied: its type, the byte
/// range that extraction by its name gives, its element count, and the
/// position of its mask among the recorded names, if it has one.
#[derive(Clone, Copy, Debug, PartialEq, Eq, Structural)]
pub struct TensorStep {
    pub dtype: GgmlDType,
    pub start: usize,
    pub end: usize,
    pub elem_count: usize,
    pub mask: Option<usize>,
}

/// Why a manifest cannot be applied to a file; `tensor` is the position in
/// the tensor table where it showed.
#[derive(Clone, Copy, Debug, PartialEq, Eq, Structural)]
pub enum ApplyError {
    /// A type number that names no known type.
    UnknownType { tensor: usize, code: u32 },
    /// The bytes of the tensor would run past the end of the file.
    OutOfBounds { tensor: usize, start: usize, end: usize, file_size: usize },
}

/// The tensor whose bytes extraction by the name of tensor `i` reads.
pub open spec fn source_of(c: &Content, i: int) -> TensorInfo {
    match tensor_from(c.tensor_infos@, c.tensor_infos@[i].name@, 0) {
        Some(k) => c.tensor_infos@[k],
        None => c.tensor_infos@[i],
    }
}

/// Where the bytes of `info` end, for a known type.
pub open spec fn data_end(c: &Content, info: TensorInfo, dt: GgmlDType) -> nat {
    data_start(c, info) + byte_size(dt, dims_product(info.dimensions@))
}

/// The error at tensor `i`, if there is one there.
pub open spec fn step_error(c: &Content, i: int) -> Option<ApplyError> {
    let info = c.tensor_infos@[i];
    let src = source_of(c, i);
    match dtype_of_code(info.tensor_type) {
        None => Some(ApplyError::UnknownType { tensor: i as usize, code: info.tensor_type }),
        Some(_) => match dtype_of_code(src.tensor_type) {
            None => Some(ApplyError::UnknownType { tensor: i as usize, code: src.tensor_type }),
            Some(dk) => if data_end(c, src, dk) > c.data@.len() {
                Some(
                    ApplyError::OutOfBounds {
                        tensor: i as usize,
                        start: data_start(c, src) as usize,
                        end: data_end(c, src, dk) as usize,
                        file_size: c.data@.len() as usize,
                    },
                )
            } else {
                None
            },
        },
    }
}

/// The step for tensor `i`, where it has no error.
pub open spec fn step_spec(c: &Content, es: Seq<MapEntry>, names: Seq<Seq<char>>, i: int) -> TensorStep {
    let info = c.tensor_infos@[i];
    let src = source_of(c, i);
    let dk = dtype_of_code(src.tensor_type)->0;
    TensorStep {
        dtype: dtype_of_code(info.tensor_type)->0,
        start: data_start(c, src) as usize,
        end: data_end(c, src, dk) as usize,
        elem_count: dims_product(info.dimensions@) as usize,
        mask: match mask_choice(es, names, info.name@) {
            Some(j) => Some(j as usize),
            None => None,
        },
    }
}

/// The first tensor at or after `from` with an error.
pub open spec fn first_failure(c: &Content, from: int) -> Option<int>
    decreases c.tensor_infos@.len() - from,
{
    if from < 0 || from >= c.tensor_infos@.len() {
        None
    } else if step_error(c, from) is Some {
        Some(from)
    } else {
        first_failure(c, from + 1)
    }
}

proof fn lemma_source_found(infos: Seq<TensorInfo>, i: int, from: int)
    requires
        0 <= from <= i < infos.len(),
    ensures
        tensor_from(infos, infos[i].name@, from) matches Some(k) && from <= k <= i,
    decreases i - from,
{
    if infos[from].name@ != infos[i].name@ {
        lemma_source_found(infos, i, from + 1);
    }
}

/// The steps of applying masks recorded under `mask_names` to every tensor
/// of `content`, in table order, or the first tensor that cannot be read.
pub fn plan_manifest_application(
    content: &Content,
    mask_names: &[String],
    mapper: &TensorNameMapper,
) -> (r: Result<Vec<TensorStep>, ApplyError>)
    requires
        content.sizes_fit_spec(),
    ensures
        match first_failure(content, 0) {
            Some(i) => r matches Err(e) && e == step_error(content, i)->0,
            None => r matches Ok(v) && v@ == Seq::new(
                content.tensor_infos@.len(),
                |i: int| step_spec(content, mapper.entries(), string_views(mask_names@), i),
            ),
        },
{
    let infos = &content.tensor_infos;
    let ghost es = mapper.entries();
    let ghost names = string_views(mask_names@);
    let mut steps: Vec<TensorStep> = Vec::new();
    let mut i: usize = 0;
    while i < infos.len()
        invariant
            i <= infos@.len(),
            infos == &content.tensor_infos,
            content.sizes_fit_spec(),
            es == mapper.entries(),
            names == string_views(mask_names@),
            first_failure(content, 0) == first_failure(content, i as int),
            steps@ == Seq::new(i as nat, |j: int| step_spec(content, es, names, j)),
        decreases infos@.len() - i,
    {
        let info = &infos[i];
        let dtype = match GgmlDType::from_u32(info.tensor_type) {
            Some(d) => d,
            None => {
                return Err(ApplyError::UnknownType { tensor: i, code: info.tensor_type });
            },
        };
        proof {
            lemma_source_found(infos@, i as int, 0);
        }
        // Tensor `i` itself carries the name, so the search always finds one.
        let k = match find_tensor(infos, info.name.as_str()) {
            Some(k) => k,
            None => {
                return Err(ApplyError::UnknownType { tensor: i, code: info.tensor_type });
            },
        };
        let src = &infos[k];
        let dk = match GgmlDType::from_u32(src.tensor_type) {
            Some(d) => d,
            None => {
                return Err(ApplyError::UnknownType { tensor: i, code: src.tensor_type });
            },
        };
        assert(info_fits(infos@[k as int], content.tensor_data_offset));
        assert(info_fits(infos@[i as int], content.tensor_data_offset));
        let size = tensor_bytes(dk, element_count(&src.dimensions));
        let start = content.tensor_data_offset as usize + src.offset as usize;
        let end = start + size;
        let file_size = content.data.len();
        if end > file_size {
            return Err(ApplyError::OutOfBounds { tensor: i, start, end, file_size });
        }
        let elem_count = element_count(&info.dimensions);
        let mask = mask_for_tensor(info.name.as_str(), mask_names, mapper);
        steps.push(TensorStep { dtype, start, end, elem_count, mask });
        assert(steps@ =~= Seq::new((i + 1) as nat, |j: int| step_spec(content, es, names, j)));
        i = i + 1;
    }
    Ok(steps)
}

} // verus!
