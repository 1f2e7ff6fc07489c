//! Mapping between abstract layer identifiers ("layer_3.attention.query") and
//! the concrete tensor names of a checkpoint ("blk.3.attn_q.weight").
//!
//! The tensor-name patterns of each architecture family are regular
//! expressions (for example `blk\.\d+\.attn_q\.weight`) matched by the
//! `regex` crate; its results are named by `regex_is_match` and
//! `regex_capture1`.

use vstd::prelude::*;
use vstd::string::*;
use crate::text::{chars_of, seq_contains, str_contains, parse_usize_spec,
    parse_usize_chars, seq_starts_with, matches_at};
use crate::eviction::{strictly_sorted, insert_sorted};

verus! {

broadcast use vstd::string::group_string_axioms;

/// Component type within a transformer layer.
#[derive(Clone, Copy, Debug, PartialEq, Eq, Hash, Structural)]
pub enum ComponentType {
    /// Attention query projection
    AttentionQuery,
    /// Attention key projection
    AttentionKey,
    /// Attention value projection
    AttentionValue,
    /// Attention output projection
    AttentionOutput,
    /// FFN gate projection (gated FFNs such as SwiGLU)
    FfnGate,
    /// FFN up projection
    FfnUp,
    /// FFN down projection
    FfnDown,
    /// Attention normalization
    AttentionNorm,
    /// FFN normalization
    FfnNorm,
}

/// Detected model architecture family.
#[derive(Clone, Copy, Debug, PartialEq, Eq, Structural)]
pub enum ModelArchitecture {
    /// LLaMA family ("blk.{N}.attn_q" names)
    LLaMA,
    /// GPT family ("h.{N}.attn.c_attn" names)
    GPT,
    /// Mistral / Mixtral ("layers.{N}.self_attn" names)
    Mistral,
    /// Generic or unknown architecture
    Unknown,
}

// ---------------------------------------------------------------------------
// Regular expressions
// ---------------------------------------------------------------------------

/// What `regex::Regex::new(p)` followed by `is_match(t)` gives: whether the
/// regular expression `p` matches somewhere in `t`; `false` where `p` does
/// not compile.
pub uninterp spec fn regex_is_match(p: Seq<char>, t: Seq<char>) -> bool;

/// The text of capture group 1 of the leftmost match of the regular
/// expression `p` in `t`, as `regex::Regex::captures` finds it; `None` where
/// `p` does not compile, nothing matches, or group 1 took no part.
pub uninterp spec fn regex_capture1(p: Seq<char>, t: Seq<char>) -> Option<Seq<char>>;

/// Trusted: `regex::Regex::new` and `Regex::is_match`, named by
/// `regex_is_match`; a pattern that does not compile matches nothing.
#[verifier::external_body]
fn regex_matches(pattern: &str, text: &str) -> (r: bool)
    ensures
        r == regex_is_match(pattern@, text@),
{
    match regex::Regex::new(pattern) {
        Ok(re) => re.is_match(text),
        Err(_) => false,
    }
}

/// Trusted: `regex::Regex::new`, `Regex::captures` and `Captures::get(1)`,
/// named by `regex_capture1`; the group's text is copied out.
#[verifier::external_body]
fn regex_first_capture(pattern: &str, text: &str) -> (r: Option<String>)
    ensures
        match regex_capture1(pattern@, text@) {
            Some(c) => r is Some && r->0@ == c,
            None => r is None,
        },
{
    let re = match regex::Regex::new(pattern) {
        Ok(re) => re,
        Err(_) => return None,
    };
    match re.captures(text) {
        Some(caps) => match caps.get(1) {
            Some(m) => Some(m.as_str().to_string()),
            None => None,
        },
        None => None,
    }
}

// ---------------------------------------------------------------------------
// The patterns of each architecture family
// ---------------------------------------------------------------------------

/// The regular expression whose group 1 is the layer number of a tensor
/// name of `arch`.
pub open spec fn layer_regex(arch: ModelArchitecture) -> Seq<char> {
    match arch {
        ModelArchitecture::GPT => "h\\.(\\d+)\\."@,
        ModelArchitecture::Mistral => "layers\\.(\\d+)\\."@,
        _ => "blk\\.(\\d+)\\."@,
    }
}

/// The regular expression of each component that `arch` names, in the order
/// in which they are tried.  GPT fuses query, key and value into one
/// `c_attn` tensor and has no gate projection; an unknown architecture is read
/// with the LLaMA names.
pub open spec fn component_table(arch: ModelArchitecture) -> Seq<(ComponentType, Seq<char>)> {
    match arch {
        ModelArchitecture::GPT => seq![
            (ComponentType::AttentionQuery, "h\\.\\d+\\.attn\\.c_attn\\.weight"@),
            (ComponentType::AttentionKey, "h\\.\\d+\\.attn\\.c_attn\\.weight"@),
            (ComponentType::AttentionValue, "h\\.\\d+\\.attn\\.c_attn\\.weight"@),
            (ComponentType::AttentionOutput, "h\\.\\d+\\.attn\\.c_proj\\.weight"@),
            (ComponentType::FfnUp, "h\\.\\d+\\.mlp\\.c_fc\\.weight"@),
            (ComponentType::FfnDown, "h\\.\\d+\\.mlp\\.c_proj\\.weight"@),
        ],
        ModelArchitecture::Mistral => seq![
            (ComponentType::AttentionQuery, "layers\\.\\d+\\.self_attn\\.q_proj\\.weight"@),
            (ComponentType::AttentionKey, "layers\\.\\d+\\.self_attn\\.k_proj\\.weight"@),
            (ComponentType::AttentionValue, "layers\\.\\d+\\.self_attn\\.v_proj\\.weight"@),
            (ComponentType::AttentionOutput, "layers\\.\\d+\\.self_attn\\.o_proj\\.weight"@),
            (ComponentType::FfnGate, "layers\\.\\d+\\.mlp\\.gate_proj\\.weight"@),
            (ComponentType::FfnUp, "layers\\.\\d+\\.mlp\\.up_proj\\.weight"@),
            (ComponentType::FfnDown, "layers\\.\\d+\\.mlp\\.down_proj\\.weight"@),
        ],
        _ => seq![
            (ComponentType::AttentionQuery, "blk\\.\\d+\\.attn_q\\.weight"@),
            (ComponentType::AttentionKey, "blk\\.\\d+\\.attn_k\\.weight"@),
            (ComponentType::AttentionValue, "blk\\.\\d+\\.attn_v\\.weight"@),
            (ComponentType::AttentionOutput, "blk\\.\\d+\\.attn_output\\.weight"@),
            (ComponentType::FfnGate, "blk\\.\\d+\\.ffn_gate\\.weight"@),
            (ComponentType::FfnUp, "blk\\.\\d+\\.ffn_up\\.weight"@),
            (ComponentType::FfnDown, "blk\\.\\d+\\.ffn_down\\.weight"@),
        ],
    }
}

/// The first component of `table`, from entry `k` on, whose expression
/// matches `s`.
pub open spec fn component_from(s: Seq<char>, table: Seq<(ComponentType, Seq<char>)>, k: int) -> Option<
    ComponentType,
>
    decreases table.len() - k,
{
    if k < 0 || k >= table.len() {
        None
    } else if regex_is_match(table[k].1, s) {
        Some(table[k].0)
    } else {
        component_from(s, table, k + 1)
    }
}

/// The layer number of `s`: the digits that the layer expression captures,
/// parsed as a `usize` (`None` where nothing matches or they do not parse).
pub open spec fn layer_index_of(s: Seq<char>, arch: ModelArchitecture) -> Option<usize> {
    match regex_capture1(layer_regex(arch), s) {
        Some(d) => parse_usize_spec(d),
        None => None,
    }
}

/// The layer and component that a tensor name of `arch` denotes, if any.
pub open spec fn parse_tensor_spec(arch: ModelArchitecture, s: Seq<char>) -> Option<
    (usize, ComponentType),
> {
    match layer_index_of(s, arch) {
        Some(l) => match component_from(s, component_table(arch), 0) {
            Some(c) => Some((l, c)),
            None => None,
        },
        None => None,
    }
}

/// Some name in `names` contains both `a` and `b`.
pub open spec fn any_contains_both(names: Seq<Seq<char>>, a: Seq<char>, b: Seq<char>) -> bool {
    exists|i: int| 0 <= i < names.len() && seq_contains(names[i], a) && seq_contains(#[trigger] names[i], b)
}

/// The architecture that a list of tensor names reveals: the first family
/// whose signature some name carries, LLaMA first, then GPT, then Mistral.
pub open spec fn detect_architecture_spec(names: Seq<Seq<char>>) -> ModelArchitecture {
    if any_contains_both(names, "blk."@, ".attn_q"@) {
        ModelArchitecture::LLaMA
    } else if any_contains_both(names, "h."@, ".attn.c_attn"@) {
        ModelArchitecture::GPT
    } else if any_contains_both(names, "layers."@, ".self_attn."@) {
        ModelArchitecture::Mistral
    } else {
        ModelArchitecture::Unknown
    }
}

/// The views of a list of strings.
pub open spec fn string_views(v: Seq<String>) -> Seq<Seq<char>> {
    v.map_values(|s: String| s@)
}

/// The regular expressions of one architecture family.
struct ArchitecturePatterns {
    layer_pattern: String,
    components: Vec<(ComponentType, String)>,
}

impl ArchitecturePatterns {
    spec fn matches_arch(&self, arch: ModelArchitecture) -> bool {
        &&& self.layer_pattern@ == layer_regex(arch)
        &&& self.components@.len() == component_table(arch).len()
        &&& forall|k: int|
            0 <= k < self.components@.len() ==> (#[trigger] self.components@[k]).0 == component_table(
                arch,
            )[k].0 && self.components@[k].1@ == component_table(arch)[k].1
    }

    fn for_architecture(arch: ModelArchitecture) -> (r: Self)
        ensures
            r.matches_arch(arch),
    {
        match arch {
            ModelArchitecture::LLaMA => Self::llama_patterns(),
            ModelArchitecture::GPT => Self::gpt_patterns(),
            ModelArchitecture::Mistral => Self::mistral_patterns(),
            ModelArchitecture::Unknown => Self::generic_patterns(),
        }
    }

    /// LLaMA-style names (TinyLlama, LLaMA 2/3, Qwen, ...).
    fn llama_patterns() -> (r: Self)
        ensures
            r.matches_arch(ModelArchitecture::LLaMA),
    {
        let mut components: Vec<(ComponentType, String)> = Vec::new();
        components.push((ComponentType::AttentionQuery, String::from_str("blk\\.\\d+\\.attn_q\\.weight")));
        components.push((ComponentType::AttentionKey, String::from_str("blk\\.\\d+\\.attn_k\\.weight")));
        components.push((ComponentType::AttentionValue, String::from_str("blk\\.\\d+\\.attn_v\\.weight")));
        components.push(
            (ComponentType::AttentionOutput, String::from_str("blk\\.\\d+\\.attn_output\\.weight")),
        );
        components.push((ComponentType::FfnGate, String::from_str("blk\\.\\d+\\.ffn_gate\\.weight")));
        components.push((ComponentType::FfnUp, String::from_str("blk\\.\\d+\\.ffn_up\\.weight")));
        components.push((ComponentType::FfnDown, String::from_str("blk\\.\\d+\\.ffn_down\\.weight")));
        ArchitecturePatterns { layer_pattern: String::from_str("blk\\.(\\d+)\\."), components }
    }

    /// GPT-style names.
    fn gpt_patterns() -> (r: Self)
        ensures
            r.matches_arch(ModelArchitecture::GPT),
    {
        let mut components: Vec<(ComponentType, String)> = Vec::new();
        components.push(
            (ComponentType::AttentionQuery, String::from_str("h\\.\\d+\\.attn\\.c_attn\\.weight")),
        );
        components.push((ComponentType::AttentionKey, String::from_str("h\\.\\d+\\.attn\\.c_attn\\.weight")));
        components.push(
            (ComponentType::AttentionValue, String::from_str("h\\.\\d+\\.attn\\.c_attn\\.weight")),
        );
        components.push(
            (ComponentType::AttentionOutput, String::from_str("h\\.\\d+\\.attn\\.c_proj\\.weight")),
        );
        components.push((ComponentType::FfnUp, String::from_str("h\\.\\d+\\.mlp\\.c_fc\\.weight")));
        components.push((ComponentType::FfnDown, String::from_str("h\\.\\d+\\.mlp\\.c_proj\\.weight")));
        ArchitecturePatterns { layer_pattern: String::from_str("h\\.(\\d+)\\."), components }
    }

    /// Mistral-style names.
    fn mistral_patterns() -> (r: Self)
        ensures
            r.matches_arch(ModelArchitecture::Mistral),
    {
        let mut components: Vec<(ComponentType, String)> = Vec::new();
        components.push(
            (ComponentType::AttentionQuery, String::from_str("layers\\.\\d+\\.self_attn\\.q_proj\\.weight")),
        );
        components.push(
            (ComponentType::AttentionKey, String::from_str("layers\\.\\d+\\.self_attn\\.k_proj\\.weight")),
        );
        components.push(
            (ComponentType::AttentionValue, String::from_str("layers\\.\\d+\\.self_attn\\.v_proj\\.weight")),
        );
        components.push(
            (ComponentType::AttentionOutput, String::from_str("layers\\.\\d+\\.self_attn\\.o_proj\\.weight")),
        );
        components.push(
            (ComponentType::FfnGate, String::from_str("layers\\.\\d+\\.mlp\\.gate_proj\\.weight")),
        );
        components.push((ComponentType::FfnUp, String::from_str("layers\\.\\d+\\.mlp\\.up_proj\\.weight")));
        components.push(
            (ComponentType::FfnDown, String::from_str("layers\\.\\d+\\.mlp\\.down_proj\\.weight")),
        );
        ArchitecturePatterns { layer_pattern: String::from_str("layers\\.(\\d+)\\."), components }
    }

    /// Fallback for unknown families: the LLaMA names.
    fn generic_patterns() -> (r: Self)
        ensures
            r.matches_arch(ModelArchitecture::Unknown),
    {
        Self::llama_patterns()
    }

    /// The layer and component of a tensor name.
    fn parse_tensor_name(&self, name: &str, Ghost(arch): Ghost<ModelArchitecture>) -> (r: Option<
        (usize, ComponentType),
    >)
        requires
            self.matches_arch(arch),
        ensures
            r == parse_tensor_spec(arch, name@),
    {
        let layer = match regex_first_capture(self.layer_pattern.as_str(), name) {
            Some(d) => {
                let ds = chars_of(d.as_str());
                proof {
                    assert(ds@.subrange(0, ds@.len() as int) =~= ds@);
                }
                parse_usize_chars(&ds, 0, ds.len())
            },
            None => None,
        };
        let layer = match layer {
            Some(l) => l,
            None => {
                return None;
            },
        };
        let mut k: usize = 0;
        while k < self.components.len()
            invariant
                self.matches_arch(arch),
                k <= self.components@.len(),
                component_from(name@, component_table(arch), 0) == component_from(
                    name@,
                    component_table(arch),
                    k as int,
                ),
                layer_index_of(name@, arch) == Some(layer),
            decreases self.components@.len() - k,
        {
            assert(self.components@[k as int].1@ == component_table(arch)[k as int].1);
            if regex_matches(self.components[k].1.as_str(), name) {
                return Some((layer, self.components[k].0));
            }
            k = k + 1;
        }
        None
    }
}

/// The architecture that a list of tensor names reveals.
fn detect_architecture(tensor_names: &[String]) -> (r: ModelArchitecture)
    ensures
        r == detect_architecture_spec(string_views(tensor_names@)),
{
    let ghost names = string_views(tensor_names@);
    if any_name_contains_both(tensor_names, "blk.", ".attn_q") {
        return ModelArchitecture::LLaMA;
    }
    if any_name_contains_both(tensor_names, "h.", ".attn.c_attn") {
        return ModelArchitecture::GPT;
    }
    if any_name_contains_both(tensor_names, "layers.", ".self_attn.") {
        return ModelArchitecture::Mistral;
    }
    ModelArchitecture::Unknown
}

/// Whether some name contains both `a` and `b`.
fn any_name_contains_both(names: &[String], a: &str, b: &str) -> (r: bool)
    ensures
        r == any_contains_both(string_views(names@), a@, b@),
{
    let ghost views = string_views(names@);
    let mut i: usize = 0;
    while i < names.len()
        invariant
            i <= names@.len(),
            views == string_views(names@),
            forall|j: int| 0 <= j < i ==> !(seq_contains(views[j], a@) && seq_contains(views[j], b@)),
        decreases names@.len() - i,
    {
        let n = names[i].as_str();
        assert(views[i as int] == names@[i as int]@);
        if str_contains(n, a) && str_contains(n, b) {
            return true;
        }
        i = i + 1;
    }
    false
}

// ---------------------------------------------------------------------------
// The mapper
// ---------------------------------------------------------------------------

/// A mapping entry: (layer, component) and the tensor name it stands for.
pub type MapEntry = ((usize, ComponentType), Seq<char>);

/// The first entry at or after `from` whose key is `k`.
pub open spec fn key_from(es: Seq<MapEntry>, k: (usize, ComponentType), from: int) -> Option<int>
    decreases es.len() - from,
{
    if from < 0 || from >= es.len() {
        None
    } else if es[from].0 == k {
        Some(from)
    } else {
        key_from(es, k, from + 1)
    }
}

/// `es` with `k` bound to `v`: the entry for `k` is replaced in place, or a new
/// one is appended.
pub open spec fn entries_put(es: Seq<MapEntry>, k: (usize, ComponentType), v: Seq<char>) -> Seq<
    MapEntry,
> {
    match key_from(es, k, 0) {
        Some(j) => es.update(j, (k, v)),
        None => es.push((k, v)),
    }
}

/// The entries built from `names`, each name bound to the key it parses to,
/// a later name replacing an earlier one with the same key.
pub open spec fn mapping_entries(arch: ModelArchitecture, names: Seq<Seq<char>>) -> Seq<MapEntry>
    decreases names.len(),
{
    if names.len() == 0 {
        Seq::empty()
    } else {
        let es = mapping_entries(arch, names.drop_last());
        match parse_tensor_spec(arch, names.last()) {
            Some(k) => entries_put(es, k, names.last()),
            None => es,
        }
    }
}

/// The layer numbers that occur among `names`.
pub open spec fn layers_of(arch: ModelArchitecture, names: Seq<Seq<char>>) -> Set<usize>
    decreases names.len(),
{
    if names.len() == 0 {
        Set::empty()
    } else {
        let rest = layers_of(arch, names.drop_last());
        match parse_tensor_spec(arch, names.last()) {
            Some(k) => rest.insert(k.0),
            None => rest,
        }
    }
}

proof fn lemma_key_found(es: Seq<MapEntry>, k: (usize, ComponentType), from: int, i: int)
    requires
        0 <= from <= i < es.len(),
        es[i].0 == k,
        forall|j: int| from <= j < i ==> (#[trigger] es[j]).0 != k,
    ensures
        key_from(es, k, from) == Some(i),
    decreases i - from,
{
    if from < i {
        lemma_key_found(es, k, from + 1, i);
    }
}

proof fn lemma_key_none(es: Seq<MapEntry>, k: (usize, ComponentType), from: int)
    requires
        0 <= from,
        forall|j: int| from <= j < es.len() ==> (#[trigger] es[j]).0 != k,
    ensures
        key_from(es, k, from) is None,
    decreases es.len() - from,
{
    if from < es.len() {
        lemma_key_none(es, k, from + 1);
    }
}

/// Dynamic tensor-name mapper.
pub struct TensorNameMapper {
    /// Detected architecture
    pub architecture: ModelArchitecture,
    /// (layer, component) → tensor name, one entry per key
    pub mappings: Vec<((usize, ComponentType), String)>,
    /// All detected layer indices, ascending
    pub layer_indices: Vec<usize>,
}

/// The views of mapping entries.
pub open spec fn entry_views(v: Seq<((usize, ComponentType), String)>) -> Seq<MapEntry> {
    v.map_values(|e: ((usize, ComponentType), String)| (e.0, e.1@))
}

impl TensorNameMapper {
    pub open spec fn entries(&self) -> Seq<MapEntry> {
        entry_views(self.mappings@)
    }

    /// Position of the entry for `k` in `mappings`.
    fn find_key(v: &Vec<((usize, ComponentType), String)>, k: (usize, ComponentType)) -> (r: Option<
        usize,
    >)
        ensures
            match r {
                Some(j) => j < v@.len() && key_from(entry_views(v@), k, 0) == Some(j as int),
                None => key_from(entry_views(v@), k, 0) is None,
            },
    {
        let ghost es = entry_views(v@);
        let mut j: usize = 0;
        while j < v.len()
            invariant
                j <= v@.len(),
                es == entry_views(v@),
                forall|i: int| 0 <= i < j ==> (#[trigger] es[i]).0 != k,
            decreases v@.len() - j,
        {
            assert(es[j as int].0 == v@[j as int].0);
            if (v[j].0).0 == k.0 && (v[j].0).1 == k.1 {
                proof {
                    lemma_key_found(es, k, 0, j as int);
                }
                return Some(j);
            }
            j = j + 1;
        }
        proof {
            lemma_key_none(es, k, 0);
        }
        None
    }

    /// Build a mapper from a checkpoint's tensor names, detecting the
    /// architecture from them first.
    pub fn from_tensor_names(tensor_names: &[String]) -> (r: Self)
        ensures
            r.architecture == detect_architecture_spec(string_views(tensor_names@)),
            r.entries() == mapping_entries(r.architecture, string_views(tensor_names@)),
            strictly_sorted(r.layer_indices@),
            r.layer_indices@.to_set() == layers_of(r.architecture, string_views(tensor_names@)),
    {
        let architecture = detect_architecture(tensor_names);
        let patterns = ArchitecturePatterns::for_architecture(architecture);
        let ghost names = string_views(tensor_names@);
        let mut mappings: Vec<((usize, ComponentType), String)> = Vec::new();
        let mut layer_indices: Vec<usize> = Vec::new();
        let mut i: usize = 0;
        while i < tensor_names.len()
            invariant
                i <= tensor_names@.len(),
                names == string_views(tensor_names@),
                patterns.matches_arch(architecture),
                entry_views(mappings@) == mapping_entries(architecture, names.take(i as int)),
                strictly_sorted(layer_indices@),
                layer_indices@.to_set() == layers_of(architecture, names.take(i as int)),
            decreases tensor_names@.len() - i,
        {
            assert(names.take(i + 1).drop_last() =~= names.take(i as int));
            assert(names.take(i + 1).last() == tensor_names@[i as int]@);
            match patterns.parse_tensor_name(tensor_names[i].as_str(), Ghost(architecture)) {
                Some(key) => {
                    let ghost before = entry_views(mappings@);
                    match Self::find_key(&mappings, key) {
                        Some(j) => {
                            mappings.set(j, (key, tensor_names[i].clone()));
                            assert(entry_views(mappings@) =~= before.update(
                                j as int,
                                (key, tensor_names@[i as int]@),
                            ));
                        },
                        None => {
                            mappings.push((key, tensor_names[i].clone()));
                            assert(entry_views(mappings@) =~= before.push(
                                (key, tensor_names@[i as int]@),
                            ));
                        },
                    }
                    insert_sorted(&mut layer_indices, key.0);
                },
                None => {},
            }
            i = i + 1;
        }
        assert(names.take(tensor_names@.len() as int) =~= names);
        TensorNameMapper { architecture, mappings, layer_indices }
    }
}

// ---------------------------------------------------------------------------
// Abstract names
// ---------------------------------------------------------------------------

/// The first position at or after `from` that holds `c`.
pub open spec fn char_from(s: Seq<char>, c: char, from: int) -> Option<int>
    decreases s.len() - from,
{
    if from < 0 || from >= s.len() {
        None
    } else if s[from] == c {
        Some(from)
    } else {
        char_from(s, c, from + 1)
    }
}

/// The component that the words after the layer part name, written
/// `attention.query` or `attn.q` and so on.
pub open spec fn component_words(rest: Seq<char>) -> Option<ComponentType> {
    if rest == "attention.query"@ || rest == "attn.q"@ {
        Some(ComponentType::AttentionQuery)
    } else if rest == "attention.key"@ || rest == "attn.k"@ {
        Some(ComponentType::AttentionKey)
    } else if rest == "attention.value"@ || rest == "attn.v"@ {
        Some(ComponentType::AttentionValue)
    } else if rest == "attention.output"@ || rest == "attn.output"@ {
        Some(ComponentType::AttentionOutput)
    } else if rest == "ffn.gate"@ {
        Some(ComponentType::FfnGate)
    } else if rest == "ffn.up"@ {
        Some(ComponentType::FfnUp)
    } else if rest == "ffn.down"@ {
        Some(ComponentType::FfnDown)
    } else {
        None
    }
}

/// The layer number of a `layer_N` part, if it is one.
pub open spec fn layer_part(p: Seq<char>) -> Option<usize> {
    if seq_starts_with(p, "layer_"@) {
        parse_usize_spec(p.skip(6))
    } else {
        None
    }
}

/// What an abstract name stands for: `layer_N` alone is layer N's attention
/// query; `layer_N.WORDS` is layer N's component named by WORDS.
pub open spec fn parse_abstract_spec(s: Seq<char>) -> Option<(usize, ComponentType)> {
    match layer_part(s) {
        Some(idx) => Some((idx, ComponentType::AttentionQuery)),
        None => match char_from(s, '.', 0) {
            Some(d) => match layer_part(s.take(d)) {
                Some(idx) => match component_words(s.skip(d + 1)) {
                    Some(c) => Some((idx, c)),
                    None => None,
                },
                None => None,
            },
            None => None,
        },
    }
}

proof fn lemma_char_found(s: Seq<char>, c: char, from: int, i: int)
    requires
        0 <= from <= i < s.len(),
        s[i] == c,
        forall|j: int| from <= j < i ==> s[j] != c,
    ensures
        char_from(s, c, from) == Some(i),
    decreases i - from,
{
    if from < i {
        lemma_char_found(s, c, from + 1, i);
    }
}

proof fn lemma_char_none(s: Seq<char>, c: char, from: int)
    requires
        0 <= from,
        forall|j: int| from <= j < s.len() ==> s[j] != c,
    ensures
        char_from(s, c, from) is None,
    decreases s.len() - from,
{
    if from < s.len() {
        lemma_char_none(s, c, from + 1);
    }
}

/// Whether `s[from..to]` spells `word`.
fn span_is(s: &Vec<char>, from: usize, to: usize, word: &str) -> (r: bool)
    requires
        from <= to <= s@.len(),
    ensures
        r == (s@.subrange(from as int, to as int) == word@),
{
    let w = chars_of(word);
    if to - from != w.len() {
        return false;
    }
    let r = matches_at(s, &w, from);
    assert(r == (s@.subrange(from as int, to as int) =~= w@));
    r
}

/// The layer number of `s[from..to]` read as a `layer_N` part.
fn layer_part_exec(s: &Vec<char>, from: usize, to: usize) -> (r: Option<usize>)
    requires
        from <= to <= s@.len(),
    ensures
        r == layer_part(s@.subrange(from as int, to as int)),
{
    let ghost p = s@.subrange(from as int, to as int);
    proof {
        reveal_strlit("layer_");
    }
    if to - from < 6 || !span_is(s, from, from + 6, "layer_") {
        proof {
            if seq_starts_with(p, "layer_"@) {
                assert(p.subrange(0, 6) =~= s@.subrange(from as int, from + 6));
                assert(false);
            }
        }
        return None;
    }
    assert(p.subrange(0, 6) =~= s@.subrange(from as int, from + 6));
    assert(p.skip(6) =~= s@.subrange(from + 6, to as int));
    parse_usize_chars(s, from + 6, to)
}

/// The component named by `s[from..]`.
fn parse_component(s: &Vec<char>, from: usize) -> (r: Option<ComponentType>)
    requires
        from <= s@.len(),
    ensures
        r == component_words(s@.skip(from as int)),
{
    let to = s.len();
    assert(s@.subrange(from as int, to as int) =~= s@.skip(from as int));
    if span_is(s, from, to, "attention.query") || span_is(s, from, to, "attn.q") {
        Some(ComponentType::AttentionQuery)
    } else if span_is(s, from, to, "attention.key") || span_is(s, from, to, "attn.k") {
        Some(ComponentType::AttentionKey)
    } else if span_is(s, from, to, "attention.value") || span_is(s, from, to, "attn.v") {
        Some(ComponentType::AttentionValue)
    } else if span_is(s, from, to, "attention.output") || span_is(s, from, to, "attn.output") {
        Some(ComponentType::AttentionOutput)
    } else if span_is(s, from, to, "ffn.gate") {
        Some(ComponentType::FfnGate)
    } else if span_is(s, from, to, "ffn.up") {
        Some(ComponentType::FfnUp)
    } else if span_is(s, from, to, "ffn.down") {
        Some(ComponentType::FfnDown)
    } else {
        None
    }
}

/// Parse an abstract name such as `layer_0` or `layer_5.attention.query`.
fn parse_abstract_name(name: &str) -> (r: Option<(usize, ComponentType)>)
    ensures
        r == parse_abstract_spec(name@),
{
    let s = chars_of(name);
    assert(s@.subrange(0, s@.len() as int) =~= s@);
    if let Some(idx) = layer_part_exec(&s, 0, s.len()) {
        return Some((idx, ComponentType::AttentionQuery));
    }
    let mut d: usize = 0;
    while d < s.len() && s[d] != '.'
        invariant
            d <= s@.len(),
            forall|j: int| 0 <= j < d ==> s@[j] != '.',
        decreases s@.len() - d,
    {
        d = d + 1;
    }
    if d == s.len() {
        proof {
            lemma_char_none(s@, '.', 0);
        }
        return None;
    }
    proof {
        lemma_char_found(s@, '.', 0, d as int);
    }
    assert(s@.subrange(0, d as int) =~= s@.take(d as int));
    let idx = match layer_part_exec(&s, 0, d) {
        Some(idx) => idx,
        None => {
            return None;
        },
    };
    match parse_component(&s, d + 1) {
        Some(c) => Some((idx, c)),
        None => None,
    }
}

/// The seven projections of a layer, in the order `map_layer` lists them.
pub open spec fn layer_components() -> Seq<ComponentType> {
    seq![
        ComponentType::AttentionQuery,
        ComponentType::AttentionKey,
        ComponentType::AttentionValue,
        ComponentType::AttentionOutput,
        ComponentType::FfnGate,
        ComponentType::FfnUp,
        ComponentType::FfnDown,
    ]
}

/// The tensor bound to `k` among `es`, if any.
pub open spec fn lookup(es: Seq<MapEntry>, k: (usize, ComponentType)) -> Option<Seq<char>> {
    match key_from(es, k, 0) {
        Some(j) => Some(es[j].1),
        None => None,
    }
}

/// The projections of `layer` among `cs` that `es` binds, with their tensors.
pub open spec fn layer_listing(es: Seq<MapEntry>, layer: usize, cs: Seq<ComponentType>) -> Seq<
    (ComponentType, Seq<char>),
>
    decreases cs.len(),
{
    if cs.len() == 0 {
        Seq::empty()
    } else {
        let rest = layer_listing(es, layer, cs.drop_last());
        match lookup(es, (layer, cs.last())) {
            Some(n) => rest.push((cs.last(), n)),
            None => rest,
        }
    }
}

/// The tensors of `layer` among `es`, in entry order.
pub open spec fn layer_tensors(es: Seq<MapEntry>, layer: usize) -> Seq<Seq<char>> {
    es.filter_map(|e: MapEntry| if e.0.0 == layer { Some(e.1) } else { None })
}

impl TensorNameMapper {
    /// Map an abstract layer identifier to the concrete tensor name.
    pub fn map_name(&self, abstract_name: &str) -> (r: Option<String>)
        ensures
            match parse_abstract_spec(abstract_name@) {
                Some(k) => match lookup(self.entries(), k) {
                    Some(n) => r is Some && r->0@ == n,
                    None => r is None,
                },
                None => r is None,
            },
    {
        let key = match parse_abstract_name(abstract_name) {
            Some(k) => k,
            None => {
                return None;
            },
        };
        match Self::find_key(&self.mappings, key) {
            Some(j) => {
                assert(self.entries()[j as int].1 == self.mappings@[j as int].1@);
                Some(self.mappings[j].1.clone())
            },
            None => None,
        }
    }

    /// The projections of `layer_idx` that are mapped, attention Q, K, V, O
    /// then FFN gate, up, down.
    pub fn map_layer(&self, layer_idx: usize) -> (r: Vec<(ComponentType, String)>)
        ensures
            r@.map_values(|e: (ComponentType, String)| (e.0, e.1@)) == layer_listing(
                self.entries(),
                layer_idx,
                layer_components(),
            ),
    {
        let mut components: Vec<ComponentType> = Vec::new();
        components.push(ComponentType::AttentionQuery);
        components.push(ComponentType::AttentionKey);
        components.push(ComponentType::AttentionValue);
        components.push(ComponentType::AttentionOutput);
        components.push(ComponentType::FfnGate);
        components.push(ComponentType::FfnUp);
        components.push(ComponentType::FfnDown);
        assert(components@ =~= layer_components());
        let mut results: Vec<(ComponentType, String)> = Vec::new();
        let mut k: usize = 0;
        while k < components.len()
            invariant
                k <= components@.len(),
                components@ == layer_components(),
                results@.map_values(|e: (ComponentType, String)| (e.0, e.1@)) == layer_listing(
                    self.entries(),
                    layer_idx,
                    components@.take(k as int),
                ),
            decreases components@.len() - k,
        {
            let c = components[k];
            assert(components@.take(k + 1).drop_last() =~= components@.take(k as int));
            assert(components@.take(k + 1).last() == c);
            let ghost before = results@.map_values(|e: (ComponentType, String)| (e.0, e.1@));
            match Self::find_key(&self.mappings, (layer_idx, c)) {
                Some(j) => {
                    assert(self.entries()[j as int].1 == self.mappings@[j as int].1@);
                    results.push((c, self.mappings[j].1.clone()));
                    assert(results@.map_values(|e: (ComponentType, String)| (e.0, e.1@)) =~= before.push(
                        (c, self.entries()[j as int].1),
                    ));
                },
                None => {},
            }
            k = k + 1;
        }
        assert(components@.take(7) =~= components@);
        results
    }

    /// Every tensor name mapped for `layer_idx`, in entry order.
    pub fn get_layer_tensors(&self, layer_idx: usize) -> (r: Vec<String>)
        ensures
            string_views(r@) == layer_tensors(self.entries(), layer_idx),
    {
        let ghost es = self.entries();
        let mut out: Vec<String> = Vec::new();
        let mut i: usize = 0;
        while i < self.mappings.len()
            invariant
                i <= self.mappings@.len(),
                es == self.entries(),
                string_views(out@) == layer_tensors(es.take(i as int), layer_idx),
            decreases self.mappings@.len() - i,
        {
            assert(es.take(i + 1).drop_last() =~= es.take(i as int));
            assert(es.take(i + 1).last() == es[i as int]);
            assert(es[i as int] == (self.mappings@[i as int].0, self.mappings@[i as int].1@));
            let ghost before = string_views(out@);
            if (self.mappings[i].0).0 == layer_idx {
                out.push(self.mappings[i].1.clone());
                assert(string_views(out@) =~= before + seq![es[i as int].1]);
            }
            i = i + 1;
        }
        assert(es.take(self.mappings@.len() as int) =~= es);
        out
    }
}


/// The regular expression of the GGUF tensor that holds component `c` in a
/// checkpoint of `arch`: the name of the projection in that family's naming
/// (`ffn_gate` for the LLaMA gate projection, `ffn_up` for its up
/// projection, `c_attn` for GPT's fused query, key and value); empty for a
/// component the family does not name.
pub open spec fn component_regex(arch: ModelArchitecture, c: ComponentType) -> Seq<char> {
    match arch {
        ModelArchitecture::GPT => match c {
            ComponentType::AttentionQuery => "h\\.\\d+\\.attn\\.c_attn\\.weight"@,
            ComponentType::AttentionKey => "h\\.\\d+\\.attn\\.c_attn\\.weight"@,
            ComponentType::AttentionValue => "h\\.\\d+\\.attn\\.c_attn\\.weight"@,
            ComponentType::AttentionOutput => "h\\.\\d+\\.attn\\.c_proj\\.weight"@,
            ComponentType::FfnUp => "h\\.\\d+\\.mlp\\.c_fc\\.weight"@,
            ComponentType::FfnDown => "h\\.\\d+\\.mlp\\.c_proj\\.weight"@,
            _ => Seq::empty(),
        },
        ModelArchitecture::Mistral => match c {
            ComponentType::AttentionQuery => "layers\\.\\d+\\.self_attn\\.q_proj\\.weight"@,
            ComponentType::AttentionKey => "layers\\.\\d+\\.self_attn\\.k_proj\\.weight"@,
            ComponentType::AttentionValue => "layers\\.\\d+\\.self_attn\\.v_proj\\.weight"@,
            ComponentType::AttentionOutput => "layers\\.\\d+\\.self_attn\\.o_proj\\.weight"@,
            ComponentType::FfnGate => "layers\\.\\d+\\.mlp\\.gate_proj\\.weight"@,
            ComponentType::FfnUp => "layers\\.\\d+\\.mlp\\.up_proj\\.weight"@,
            ComponentType::FfnDown => "layers\\.\\d+\\.mlp\\.down_proj\\.weight"@,
            _ => Seq::empty(),
        },
        _ => match c {
            ComponentType::AttentionQuery => "blk\\.\\d+\\.attn_q\\.weight"@,
            ComponentType::AttentionKey => "blk\\.\\d+\\.attn_k\\.weight"@,
            ComponentType::AttentionValue => "blk\\.\\d+\\.attn_v\\.weight"@,
            ComponentType::AttentionOutput => "blk\\.\\d+\\.attn_output\\.weight"@,
            ComponentType::FfnGate => "blk\\.\\d+\\.ffn_gate\\.weight"@,
            ComponentType::FfnUp => "blk\\.\\d+\\.ffn_up\\.weight"@,
            ComponentType::FfnDown => "blk\\.\\d+\\.ffn_down\\.weight"@,
            _ => Seq::empty(),
        },
    }
}

/// Each pattern the parser tries is the tensor name of the component it
/// stands for.
pub proof fn law_each_pattern_names_its_component(arch: ModelArchitecture, k: int)
    requires
        0 <= k < component_table(arch).len(),
    ensures
        component_table(arch)[k].1 == component_regex(arch, component_table(arch)[k].0),
        component_regex(arch, component_table(arch)[k].0).len() > 0,
{
    reveal_strlit("h\\.\\d+\\.attn\\.c_attn\\.weight");
    reveal_strlit("h\\.\\d+\\.attn\\.c_proj\\.weight");
    reveal_strlit("h\\.\\d+\\.mlp\\.c_fc\\.weight");
    reveal_strlit("h\\.\\d+\\.mlp\\.c_proj\\.weight");
    reveal_strlit("layers\\.\\d+\\.self_attn\\.q_proj\\.weight");
    reveal_strlit("layers\\.\\d+\\.self_attn\\.k_proj\\.weight");
    reveal_strlit("layers\\.\\d+\\.self_attn\\.v_proj\\.weight");
    reveal_strlit("layers\\.\\d+\\.self_attn\\.o_proj\\.weight");
    reveal_strlit("layers\\.\\d+\\.mlp\\.gate_proj\\.weight");
    reveal_strlit("layers\\.\\d+\\.mlp\\.up_proj\\.weight");
    reveal_strlit("layers\\.\\d+\\.mlp\\.down_proj\\.weight");
    reveal_strlit("blk\\.\\d+\\.attn_q\\.weight");
    reveal_strlit("blk\\.\\d+\\.attn_k\\.weight");
    reveal_strlit("blk\\.\\d+\\.attn_v\\.weight");
    reveal_strlit("blk\\.\\d+\\.attn_output\\.weight");
    reveal_strlit("blk\\.\\d+\\.ffn_gate\\.weight");
    reveal_strlit("blk\\.\\d+\\.ffn_up\\.weight");
    reveal_strlit("blk\\.\\d+\\.ffn_down\\.weight");
}

proof fn lemma_component_from_matches(s: Seq<char>, arch: ModelArchitecture, k: int)
    requires
        0 <= k,
    ensures
        component_from(s, component_table(arch), k) matches Some(c) ==> regex_is_match(
            component_regex(arch, c),
            s,
        ),
    decreases component_table(arch).len() - k,
{
    let t = component_table(arch);
    if k < t.len() {
        if regex_is_match(t[k].1, s) {
            law_each_pattern_names_its_component(arch, k);
        } else {
            lemma_component_from_matches(s, arch, k + 1);
        }
    }
}

/// A tensor name parses to component `c` of layer `l` only where the
/// pattern of that component matches it and the layer pattern captures the
/// number `l`.
pub proof fn law_parsed_names_carry_their_component(arch: ModelArchitecture, s: Seq<char>)
    ensures
        parse_tensor_spec(arch, s) matches Some((l, c)) ==> (regex_capture1(layer_regex(arch), s) matches Some(
            d,
        ) && parse_usize_spec(d) == Some(l) && regex_is_match(component_regex(arch, c), s)),
{
    lemma_component_from_matches(s, arch, 0);
}

proof fn lemma_entries_parse(arch: ModelArchitecture, names: Seq<Seq<char>>)
    ensures
        forall|j: int|
            0 <= j < mapping_entries(arch, names).len() ==> parse_tensor_spec(
                arch,
                (#[trigger] mapping_entries(arch, names)[j]).1,
            ) == Some(mapping_entries(arch, names)[j].0) && names.contains(mapping_entries(arch, names)[j].1),
    decreases names.len(),
{
    if names.len() > 0 {
        let pre = names.drop_last();
        lemma_entries_parse(arch, pre);
        let es = mapping_entries(arch, pre);
        let out = mapping_entries(arch, names);
        assert forall|x: Seq<char>| pre.contains(x) implies names.contains(x) by {
            let i = choose|i: int| 0 <= i < pre.len() && pre[i] == x;
            assert(names[i] == x);
        }
        assert(names.contains(names.last())) by {
            assert(names[names.len() - 1] == names.last());
        }
        match parse_tensor_spec(arch, names.last()) {
            Some(k) => {
                match key_from(es, k, 0) {
                    Some(jj) => {
                        lemma_key_from_range(es, k, 0);
                        assert forall|j: int| 0 <= j < out.len() implies parse_tensor_spec(
                            arch,
                            (#[trigger] out[j]).1,
                        ) == Some(out[j].0) && names.contains(out[j].1) by {
                            if j != jj {
                                assert(out[j] == es[j]);
                            }
                        }
                    },
                    None => {
                        assert forall|j: int| 0 <= j < out.len() implies parse_tensor_spec(
                            arch,
                            (#[trigger] out[j]).1,
                        ) == Some(out[j].0) && names.contains(out[j].1) by {
                            if j < es.len() {
                                assert(out[j] == es[j]);
                            }
                        }
                    },
                }
            },
            None => {},
        }
    }
}

proof fn lemma_key_from_range(es: Seq<MapEntry>, k: (usize, ComponentType), from: int)
    requires
        0 <= from,
    ensures
        key_from(es, k, from) matches Some(j) ==> from <= j < es.len() && es[j].0 == k,
    decreases es.len() - from,
{
    if from < es.len() && es[from].0 != k {
        lemma_key_from_range(es, k, from + 1);
    }
}

/// What a mapper hands out for layer `k.0`'s component `k.1` is one of the
/// checkpoint's tensor names, and it is the tensor name of that component of
/// that layer: its pattern matches and its layer number is `k.0`.
pub proof fn law_mapped_names_carry_their_component(
    arch: ModelArchitecture,
    names: Seq<Seq<char>>,
    k: (usize, ComponentType),
)
    ensures
        lookup(mapping_entries(arch, names), k) matches Some(n) ==> (regex_capture1(layer_regex(arch), n) matches Some(
            d,
        ) && parse_usize_spec(d) == Some(k.0) && names.contains(n) && regex_is_match(
            component_regex(arch, k.1),
            n,
        )),
{
    let es = mapping_entries(arch, names);
    lemma_entries_parse(arch, names);
    lemma_key_from_range(es, k, 0);
    if let Some(j) = key_from(es, k, 0) {
        law_parsed_names_carry_their_component(arch, es[j].1);
    }
}

} // verus!
