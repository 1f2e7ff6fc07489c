//! Tool registry with capability detection from a checkpoint's tensor names.
//!
//! Every model is taken to generate text; vision and function calling are
//! detected from the names of the tensors, and the tools that a model's
//! capabilities allow are registered.  A query is answered with the tools
//! whose keywords it mentions, most matches first.

use vstd::prelude::*;
use vstd::string::*;
use crate::text::{chars_of, seq_contains, str_contains, vec_contains, matches_at, lowercase_spec,
    to_lowercase};
use crate::name_mapping::{ModelArchitecture, TensorNameMapper, detect_architecture_spec,
    layers_of, string_views};
use crate::eviction::strictly_sorted;

verus! {

broadcast use vstd::string::group_string_axioms;

/// Detected model capabilities.
#[derive(Clone, Copy, Debug)]
pub struct ModelCapabilities {
    /// Supports text generation (all transformer models)
    pub supports_text: bool,
    /// Supports vision / image understanding
    pub supports_vision: bool,
    /// Supports function calling / tool use
    pub supports_function_calling: bool,
    /// Maximum context length
    pub max_context: usize,
    /// Number of layers detected
    pub num_layers: usize,
}

impl Default for ModelCapabilities {
    fn default() -> (r: Self)
        ensures
            !r.supports_text,
            !r.supports_vision,
            !r.supports_function_calling,
            r.max_context == 0,
            r.num_layers == 0,
    {
        ModelCapabilities {
            supports_text: false,
            supports_vision: false,
            supports_function_calling: false,
            max_context: 0,
            num_layers: 0,
        }
    }
}

/// Tool definition.
#[derive(Clone, Debug)]
pub struct Tool {
    /// Tool name (e.g. "text_generation")
    pub name: String,
    /// Tool description
    pub description: String,
    /// Keywords for query matching
    pub keywords: Vec<String>,
    /// Whether the tool requires vision
    pub requires_vision: bool,
    /// Whether the tool requires function calling
    pub requires_function_calling: bool,
}

/// A tool as text.
#[verifier::ext_equal]
pub struct ToolView {
    pub name: Seq<char>,
    pub description: Seq<char>,
    pub keywords: Seq<Seq<char>>,
    pub requires_vision: bool,
    pub requires_function_calling: bool,
}

impl View for Tool {
    type V = ToolView;

    open spec fn view(&self) -> ToolView {
        ToolView {
            name: self.name@,
            description: self.description@,
            keywords: string_views(self.keywords@),
            requires_vision: self.requires_vision,
            requires_function_calling: self.requires_function_calling,
        }
    }
}

pub open spec fn text_generation_view() -> ToolView {
    ToolView {
        name: "text_generation"@,
        description: "Generate text based on a prompt"@,
        keywords: seq!["generate"@, "write"@, "create"@, "text"@],
        requires_vision: false,
        requires_function_calling: false,
    }
}

pub open spec fn image_understanding_view() -> ToolView {
    ToolView {
        name: "image_understanding"@,
        description: "Analyze and understand images"@,
        keywords: seq!["image"@, "picture"@, "photo"@, "analyze"@, "see"@, "look"@],
        requires_vision: true,
        requires_function_calling: false,
    }
}

pub open spec fn function_call_view() -> ToolView {
    ToolView {
        name: "function_call"@,
        description: "Call external functions or APIs"@,
        keywords: seq!["function"@, "call"@, "api"@, "tool"@, "execute"@],
        requires_vision: false,
        requires_function_calling: true,
    }
}

/// `Strings` made from literals.
fn strings_of(words: &[&str]) -> (r: Vec<String>)
    ensures
        string_views(r@) == words@.map_values(|w: &str| w@),
{
    let mut out: Vec<String> = Vec::new();
    let mut i: usize = 0;
    while i < words.len()
        invariant
            i <= words@.len(),
            out@.len() == i,
            string_views(out@) == words@.take(i as int).map_values(|w: &str| w@),
        decreases words@.len() - i,
    {
        let st = String::from_str(words[i]);
        let ghost before = out@;
        out.push(st);
        assert(out@ == before.push(st));
        assert(st@ == words@[i as int]@);
        assert(string_views(out@) =~= words@.take(i + 1).map_values(|w: &str| w@)) by {
            assert forall|j: int| 0 <= j < i + 1 implies #[trigger] string_views(out@)[j]
                == words@.take(i + 1).map_values(|w: &str| w@)[j] by {
                if j < i {
                    assert(string_views(out@)[j] == string_views(before)[j]);
                }
            }
        }
        i = i + 1;
    }
    assert(words@.take(words@.len() as int) =~= words@);
    out
}

impl Tool {
    /// The text generation tool.
    pub fn text_generation() -> (r: Self)
        ensures
            r@ == text_generation_view(),
    {
        let words: [&str; 4] = ["generate", "write", "create", "text"];
        let keywords = strings_of(&words);
        assert(string_views(keywords@) =~= text_generation_view().keywords);
        Tool {
            name: String::from_str("text_generation"),
            description: String::from_str("Generate text based on a prompt"),
            keywords,
            requires_vision: false,
            requires_function_calling: false,
        }
    }

    /// The image understanding tool.
    pub fn image_understanding() -> (r: Self)
        ensures
            r@ == image_understanding_view(),
    {
        let words: [&str; 6] = ["image", "picture", "photo", "analyze", "see", "look"];
        let keywords = strings_of(&words);
        assert(string_views(keywords@) =~= image_understanding_view().keywords);
        Tool {
            name: String::from_str("image_understanding"),
            description: String::from_str("Analyze and understand images"),
            keywords,
            requires_vision: true,
            requires_function_calling: false,
        }
    }

    /// The function calling tool.
    pub fn function_call() -> (r: Self)
        ensures
            r@ == function_call_view(),
    {
        let words: [&str; 5] = ["function", "call", "api", "tool", "execute"];
        let keywords = strings_of(&words);
        assert(string_views(keywords@) =~= function_call_view().keywords);
        Tool {
            name: String::from_str("function_call"),
            description: String::from_str("Call external functions or APIs"),
            keywords,
            requires_vision: false,
            requires_function_calling: true,
        }
    }
}

// ---------------------------------------------------------------------------
// Capability detection
// ---------------------------------------------------------------------------

/// Some name contains some word.
pub open spec fn any_has_any(names: Seq<Seq<char>>, words: Seq<Seq<char>>) -> bool {
    exists|i: int, j: int|
        0 <= i < names.len() && 0 <= j < words.len() && seq_contains(
            #[trigger] names[i],
            #[trigger] words[j],
        )
}

/// Words whose presence in a tensor name reveals a vision encoder.
pub open spec fn vision_words() -> Seq<Seq<char>> {
    seq!["vision"@, "image"@, "visual"@, "patch_embed"@, "clip"@]
}

/// Words whose presence in a tensor name reveals a function-calling head.
pub open spec fn function_words() -> Seq<Seq<char>> {
    seq!["function"@, "tool"@, "tool_call"@, "function_call"@]
}

/// The capabilities that a list of tensor names reveals.
pub open spec fn capabilities_spec(names: Seq<Seq<char>>) -> ModelCapabilities {
    ModelCapabilities {
        supports_text: true,
        supports_vision: any_has_any(names, vision_words()),
        supports_function_calling: any_has_any(names, function_words()),
        max_context: 2048,
        num_layers: layers_of(detect_architecture_spec(names), names).len() as usize,
    }
}

/// The tools registered for capabilities `c`, in registration order.
pub open spec fn initial_tools(c: ModelCapabilities) -> Seq<ToolView> {
    let t = if c.supports_text {
        seq![text_generation_view()]
    } else {
        Seq::empty()
    };
    let t = if c.supports_vision {
        t.push(image_understanding_view())
    } else {
        t
    };
    if c.supports_function_calling {
        t.push(function_call_view())
    } else {
        t
    }
}

/// Whether some name contains some word.
fn any_name_has_any(names: &[String], words: &[&str]) -> (r: bool)
    ensures
        r == any_has_any(string_views(names@), words@.map_values(|w: &str| w@)),
{
    let ghost ns = string_views(names@);
    let ghost ws = words@.map_values(|w: &str| w@);
    let mut i: usize = 0;
    while i < names.len()
        invariant
            i <= names@.len(),
            ns == string_views(names@),
            ws == words@.map_values(|w: &str| w@),
            forall|a: int, b: int|
                0 <= a < i && 0 <= b < ws.len() ==> !seq_contains(#[trigger] ns[a], #[trigger] ws[b]),
        decreases names@.len() - i,
    {
        let mut j: usize = 0;
        while j < words.len()
            invariant
                i < names@.len(),
                j <= words@.len(),
                ns == string_views(names@),
                ws == words@.map_values(|w: &str| w@),
                forall|a: int, b: int|
                    0 <= a < i && 0 <= b < ws.len() ==> !seq_contains(#[trigger] ns[a], #[trigger] ws[b]),
                forall|b: int| 0 <= b < j ==> !seq_contains(ns[i as int], #[trigger] ws[b]),
            decreases words@.len() - j,
        {
            assert(ns[i as int] == names@[i as int]@);
            assert(ws[j as int] == words@[j as int]@);
            if str_contains(names[i].as_str(), words[j]) {
                return true;
            }
            j = j + 1;
        }
        i = i + 1;
    }
    false
}

/// Errors of tool registration.
pub enum ToolError {
    /// The named tool needs vision, which the model lacks.
    RequiresVision(String),
    /// The named tool needs function calling, which the model lacks.
    RequiresFunctionCalling(String),
}

/// The message of a registration error.
pub open spec fn tool_error_message(e: ToolError) -> Seq<char> {
    match e {
        ToolError::RequiresVision(n) => "Tool '"@ + n@ + "' requires vision but model doesn't support it"@,
        ToolError::RequiresFunctionCalling(n) => "Tool '"@ + n@
            + "' requires function calling but model doesn't support it"@,
    }
}

impl ToolError {
    /// The error's message.
    pub fn to_string(&self) -> (r: String)
        ensures
            r@ == tool_error_message(*self),
    {
        let mut s = String::from_str("Tool '");
        match self {
            ToolError::RequiresVision(n) => {
                s.append(n.as_str());
                s.append("' requires vision but model doesn't support it");
            },
            ToolError::RequiresFunctionCalling(n) => {
                s.append(n.as_str());
                s.append("' requires function calling but model doesn't support it");
            },
        }
        s
    }
}

// ---------------------------------------------------------------------------
// Query matching
// ---------------------------------------------------------------------------

/// How many of `kws` occur in `q`.
pub open spec fn keyword_hits(q: Seq<char>, kws: Seq<Seq<char>>) -> nat
    decreases kws.len(),
{
    if kws.len() == 0 {
        0
    } else {
        keyword_hits(q, kws.drop_last()) + if seq_contains(q, kws.last()) {
            1nat
        } else {
            0nat
        }
    }
}

/// The hits of tool `i`.
pub open spec fn hits(q: Seq<char>, ts: Seq<ToolView>, i: int) -> nat {
    keyword_hits(q, ts[i].keywords)
}

/// The most hits among the first `n` tools.
pub open spec fn max_hits(q: Seq<char>, ts: Seq<ToolView>, n: int) -> nat
    decreases n,
{
    if n <= 0 {
        0
    } else {
        let m = max_hits(q, ts, n - 1);
        let h = hits(q, ts, n - 1);
        if h > m {
            h
        } else {
            m
        }
    }
}

/// The positions among the first `n` tools whose hits are exactly `c`.
pub open spec fn with_hits(q: Seq<char>, ts: Seq<ToolView>, c: nat, n: int) -> Seq<int>
    decreases n,
{
    if n <= 0 {
        Seq::empty()
    } else {
        with_hits(q, ts, c, n - 1) + if hits(q, ts, n - 1) == c {
            seq![n - 1]
        } else {
            Seq::empty()
        }
    }
}

/// The positions of the tools with `lo + 1` to `hi` hits, most hits first,
/// registration order among equals.
pub open spec fn ranked_between(q: Seq<char>, ts: Seq<ToolView>, hi: nat, lo: nat) -> Seq<int>
    decreases hi - lo,
{
    if hi <= lo {
        Seq::empty()
    } else {
        ranked_between(q, ts, hi, lo + 1) + with_hits(q, ts, lo + 1, ts.len() as int)
    }
}

/// The tools that `q` mentions a keyword of, most matched keywords first.
pub open spec fn tools_for_query_spec(ts: Seq<ToolView>, q: Seq<char>) -> Seq<ToolView> {
    ranked_between(q, ts, max_hits(q, ts, ts.len() as int), 0).map_values(|i: int| ts[i])
}

/// How many keywords occur in `q`.
fn count_hits(q: &Vec<char>, kws: &Vec<String>) -> (r: usize)
    ensures
        r == keyword_hits(q@, string_views(kws@)),
{
    let ghost ks = string_views(kws@);
    let mut n: usize = 0;
    let mut i: usize = 0;
    while i < kws.len()
        invariant
            i <= kws@.len(),
            n <= i,
            ks == string_views(kws@),
            n == keyword_hits(q@, ks.take(i as int)),
        decreases kws@.len() - i,
    {
        assert(ks.take(i + 1).drop_last() =~= ks.take(i as int));
        assert(ks.take(i + 1).last() == kws@[i as int]@);
        let k = chars_of(kws[i].as_str());
        if vec_contains(q, &k) {
            n = n + 1;
        }
        i = i + 1;
    }
    assert(ks.take(kws@.len() as int) =~= ks);
    n
}

// ---------------------------------------------------------------------------
// The registry
// ---------------------------------------------------------------------------

/// The first tool at or after `from` named `n`.
pub open spec fn name_from(ts: Seq<ToolView>, n: Seq<char>, from: int) -> Option<int>
    decreases ts.len() - from,
{
    if from < 0 || from >= ts.len() {
        None
    } else if ts[from].name == n {
        Some(from)
    } else {
        name_from(ts, n, from + 1)
    }
}

/// `ts` with `t` registered: a tool of the same name is replaced in place,
/// else `t` is appended.
pub open spec fn tools_put(ts: Seq<ToolView>, t: ToolView) -> Seq<ToolView> {
    match name_from(ts, t.name, 0) {
        Some(j) => ts.update(j, t),
        None => ts.push(t),
    }
}

/// No two tools share a name.
pub open spec fn names_unique(ts: Seq<ToolView>) -> bool {
    forall|i: int, j: int| 0 <= i < j < ts.len() ==> (#[trigger] ts[i]).name != (#[trigger] ts[j]).name
}

proof fn lemma_name_found(ts: Seq<ToolView>, n: Seq<char>, from: int, i: int)
    requires
        0 <= from <= i < ts.len(),
        ts[i].name == n,
        forall|j: int| from <= j < i ==> (#[trigger] ts[j]).name != n,
    ensures
        name_from(ts, n, from) == Some(i),
    decreases i - from,
{
    if from < i {
        lemma_name_found(ts, n, from + 1, i);
    }
}

proof fn lemma_name_none(ts: Seq<ToolView>, n: Seq<char>, from: int)
    requires
        0 <= from,
        forall|j: int| from <= j < ts.len() ==> (#[trigger] ts[j]).name != n,
    ensures
        name_from(ts, n, from) is None,
    decreases ts.len() - from,
{
    if from < ts.len() {
        lemma_name_none(ts, n, from + 1);
    }
}

proof fn lemma_name_from_hit(ts: Seq<ToolView>, n: Seq<char>, from: int)
    requires
        0 <= from,
        name_from(ts, n, from) is Some,
    ensures
        from <= name_from(ts, n, from)->0 < ts.len(),
        ts[name_from(ts, n, from)->0].name == n,
    decreases ts.len() - from,
{
    if from < ts.len() && ts[from].name != n {
        lemma_name_from_hit(ts, n, from + 1);
    }
}

proof fn lemma_name_absent(ts: Seq<ToolView>, n: Seq<char>, from: int)
    requires
        0 <= from,
        name_from(ts, n, from) is None,
    ensures
        forall|j: int| from <= j < ts.len() ==> (#[trigger] ts[j]).name != n,
    decreases ts.len() - from,
{
    if from < ts.len() {
        lemma_name_absent(ts, n, from + 1);
    }
}

/// Tool registry with capability detection.
pub struct ToolRegistry {
    tools: Vec<Tool>,
    capabilities: ModelCapabilities,
    architecture: ModelArchitecture,
}

impl ToolRegistry {
    /// The registered tools, in registration order.
    pub closed spec fn tool_views(&self) -> Seq<ToolView> {
        self.tools@.map_values(|t: Tool| t@)
    }

    pub closed spec fn spec_capabilities(&self) -> ModelCapabilities {
        self.capabilities
    }

    pub closed spec fn spec_architecture(&self) -> ModelArchitecture {
        self.architecture
    }

    /// Tool names are unique.
    pub open spec fn wf(&self) -> bool {
        names_unique(self.tool_views())
    }

    /// Position of the tool named `name`.
    fn position_of(&self, name: &str) -> (r: Option<usize>)
        ensures
            match r {
                Some(j) => j < self.tool_views().len() && name_from(self.tool_views(), name@, 0) == Some(
                    j as int,
                ),
                None => name_from(self.tool_views(), name@, 0) is None,
            },
    {
        let ghost ts = self.tool_views();
        let n = chars_of(name);
        let mut j: usize = 0;
        while j < self.tools.len()
            invariant
                j <= self.tools@.len(),
                ts == self.tool_views(),
                n@ == name@,
                forall|i: int| 0 <= i < j ==> (#[trigger] ts[i]).name != name@,
            decreases self.tools@.len() - j,
        {
            let t = chars_of(self.tools[j].name.as_str());
            assert(ts[j as int].name == self.tools@[j as int].name@);
            if t.len() == n.len() && matches_at(&t, &n, 0) {
                assert(t@ =~= n@);
                proof {
                    lemma_name_found(ts, name@, 0, j as int);
                }
                return Some(j);
            }
            proof {
                if ts[j as int].name == name@ {
                    assert(t@.subrange(0, n@.len() as int) =~= t@);
                }
            }
            j = j + 1;
        }
        proof {
            lemma_name_none(ts, name@, 0);
        }
        None
    }
}

impl ToolRegistry {
    /// Build a registry from a checkpoint's tensor names: detect the
    /// architecture and the capabilities, and register the tools they allow.
    pub fn from_tensor_names(tensor_names: &[String]) -> (r: Self)
        ensures
            r.wf(),
            r.spec_architecture() == detect_architecture_spec(string_views(tensor_names@)),
            r.spec_capabilities() == capabilities_spec(string_views(tensor_names@)),
            r.tool_views() == initial_tools(capabilities_spec(string_views(tensor_names@))),
    {
        let name_mapper = TensorNameMapper::from_tensor_names(tensor_names);
        let capabilities = Self::detect_capabilities(&name_mapper, tensor_names);
        let mut tools: Vec<Tool> = Vec::new();
        if capabilities.supports_text {
            tools.push(Tool::text_generation());
        }
        if capabilities.supports_vision {
            tools.push(Tool::image_understanding());
        }
        if capabilities.supports_function_calling {
            tools.push(Tool::function_call());
        }
        let r = ToolRegistry { tools, capabilities, architecture: name_mapper.architecture };
        proof {
            reveal_strlit("text_generation");
            reveal_strlit("image_understanding");
            reveal_strlit("function_call");
            assert(r.tool_views() =~= initial_tools(capabilities));
            assert("text_generation"@.len() == 15);
            assert("image_understanding"@.len() == 19);
            assert("function_call"@.len() == 13);
        }
        r
    }

    /// The capabilities that the tensor names reveal.
    fn detect_capabilities(mapper: &TensorNameMapper, tensor_names: &[String]) -> (r:
        ModelCapabilities)
        requires
            mapper.architecture == detect_architecture_spec(string_views(tensor_names@)),
            strictly_sorted(mapper.layer_indices@),
            mapper.layer_indices@.to_set() == layers_of(
                mapper.architecture,
                string_views(tensor_names@),
            ),
        ensures
            r == capabilities_spec(string_views(tensor_names@)),
    {
        let vision: [&str; 5] = ["vision", "image", "visual", "patch_embed", "clip"];
        let function: [&str; 4] = ["function", "tool", "tool_call", "function_call"];
        assert(vision@.map_values(|w: &str| w@) =~= vision_words());
        assert(function@.map_values(|w: &str| w@) =~= function_words());
        let supports_vision = any_name_has_any(tensor_names, &vision);
        let supports_function_calling = any_name_has_any(tensor_names, &function);
        let max_context = Self::detect_max_context(tensor_names);
        proof {
            let s = mapper.layer_indices@;
            assert(s.no_duplicates()) by {
                assert forall|i: int, j: int|
                    0 <= i < s.len() && 0 <= j < s.len() && i != j implies s[i] != s[j] by {
                    if i < j {
                        assert(s[i] < s[j]);
                    } else {
                        assert(s[j] < s[i]);
                    }
                }
            }
            s.unique_seq_to_set();
        }
        ModelCapabilities {
            supports_text: true,
            supports_vision,
            supports_function_calling,
            max_context,
            num_layers: mapper.layer_indices.len(),
        }
    }

    /// The context length: 2048, whether or not a positional-embedding
    /// tensor ("pos" and "emb" in its name) is present.
    fn detect_max_context(tensor_names: &[String]) -> (r: usize)
        ensures
            r == 2048,
    {
        let mut i: usize = 0;
        while i < tensor_names.len()
            invariant
                i <= tensor_names@.len(),
            decreases tensor_names@.len() - i,
        {
            let name = tensor_names[i].as_str();
            if str_contains(name, "pos") && str_contains(name, "emb") {
                return 2048;
            }
            i = i + 1;
        }
        2048
    }

    /// Register a tool, after checking that the model has the capabilities
    /// it requires.  A tool of the same name is replaced.
    pub fn register_tool(&mut self, tool: Tool) -> (r: Result<(), ToolError>)
        ensures
            final(self).spec_capabilities() == old(self).spec_capabilities(),
            final(self).spec_architecture() == old(self).spec_architecture(),
            old(self).wf() ==> final(self).wf(),
            tool.requires_vision && !old(self).spec_capabilities().supports_vision ==> (
            r matches Err(ToolError::RequiresVision(n)) && n@ == tool.name@ && final(self).tool_views()
                == old(self).tool_views()),
            !(tool.requires_vision && !old(self).spec_capabilities().supports_vision) && (
            tool.requires_function_calling
                && !old(self).spec_capabilities().supports_function_calling) ==> (
            r matches Err(ToolError::RequiresFunctionCalling(n)) && n@ == tool.name@
                && final(self).tool_views() == old(self).tool_views()),
            !(tool.requires_vision && !old(self).spec_capabilities().supports_vision) && !(
            tool.requires_function_calling
                && !old(self).spec_capabilities().supports_function_calling) ==> (r is Ok
                && final(self).tool_views() == tools_put(old(self).tool_views(), tool@)),
    {
        if tool.requires_vision && !self.capabilities.supports_vision {
            return Err(ToolError::RequiresVision(tool.name));
        }
        if tool.requires_function_calling && !self.capabilities.supports_function_calling {
            return Err(ToolError::RequiresFunctionCalling(tool.name));
        }
        let ghost before = self.tool_views();
        let ghost t = tool@;
        match self.position_of(tool.name.as_str()) {
            Some(j) => {
                self.tools.set(j, tool);
                assert(self.tool_views() =~= before.update(j as int, t));
                proof {
                    if names_unique(before) {
                        assert forall|a: int, b: int|
                            0 <= a < b < self.tool_views().len() implies (
                            #[trigger] self.tool_views()[a]).name != (
                            #[trigger] self.tool_views()[b]).name by {
                            lemma_name_from_hit(before, t.name, 0);
                        }
                    }
                }
            },
            None => {
                self.tools.push(tool);
                assert(self.tool_views() =~= before.push(t));
                proof {
                    if names_unique(before) {
                        assert forall|a: int, b: int|
                            0 <= a < b < self.tool_views().len() implies (
                            #[trigger] self.tool_views()[a]).name != (
                            #[trigger] self.tool_views()[b]).name by {
                            if b == before.len() {
                                lemma_name_absent(before, t.name, 0);
                            }
                        }
                    }
                }
            },
        }
        Ok(())
    }
}

impl ToolRegistry {
    /// The tools that `query` mentions a keyword of, by how many keywords it
    /// mentions (most first; among equals, in registration order).  The query
    /// is lowercased first; keywords are matched as they are written.
    pub fn get_tools_for_query(&self, query: &str) -> (r: Vec<&Tool>)
        ensures
            r@.map_values(|t: &Tool| t@) == tools_for_query_spec(
                self.tool_views(),
                lowercase_spec(query@),
            ),
    {
        let ghost ts = self.tool_views();
        let ghost q = lowercase_spec(query@);
        let lower = to_lowercase(query);
        let qv = chars_of(lower.as_str());
        let n = self.tools.len();
        let mut counts: Vec<usize> = Vec::new();
        let mut top: usize = 0;
        let mut i: usize = 0;
        while i < n
            invariant
                n == self.tools@.len(),
                ts == self.tool_views(),
                qv@ == q,
                i <= n,
                counts@.len() == i,
                forall|j: int| 0 <= j < i ==> counts@[j] == hits(q, ts, j),
                top == max_hits(q, ts, i as int),
            decreases n - i,
        {
            assert(ts[i as int].keywords == string_views(self.tools@[i as int].keywords@));
            let c = count_hits(&qv, &self.tools[i].keywords);
            counts.push(c);
            if c > top {
                top = c;
            }
            i = i + 1;
        }
        assert(ts.len() == n);
        let mut out: Vec<&Tool> = Vec::new();
        let ghost mut picked: Seq<int> = Seq::empty();
        let mut c: usize = top;
        while c > 0
            invariant
                n == self.tools@.len(),
                ts == self.tool_views(),
                ts.len() == n,
                counts@.len() == n,
                forall|j: int| 0 <= j < n ==> counts@[j] == hits(q, ts, j),
                c <= top,
                top == max_hits(q, ts, n as int),
                picked == ranked_between(q, ts, top as nat, c as nat),
                out@.len() == picked.len(),
                forall|k: int| 0 <= k < picked.len() ==> 0 <= #[trigger] picked[k] < n,
                forall|k: int| 0 <= k < out@.len() ==> (#[trigger] out@[k])@ == ts[picked[k]],
            decreases c,
        {
            let mut j: usize = 0;
            let ghost base = picked;
            while j < n
                invariant
                    n == self.tools@.len(),
                    ts == self.tool_views(),
                    ts.len() == n,
                    counts@.len() == n,
                    forall|x: int| 0 <= x < n ==> counts@[x] == hits(q, ts, x),
                    0 < c <= top,
                    j <= n,
                    picked == base + with_hits(q, ts, c as nat, j as int),
                    out@.len() == picked.len(),
                    forall|k: int| 0 <= k < picked.len() ==> 0 <= #[trigger] picked[k] < n,
                    forall|k: int| 0 <= k < out@.len() ==> (#[trigger] out@[k])@ == ts[picked[k]],
                decreases n - j,
            {
                if counts[j] == c {
                    out.push(&self.tools[j]);
                    proof {
                        picked = picked.push(j as int);
                        assert(base + with_hits(q, ts, c as nat, j + 1) =~= picked);
                    }
                } else {
                    proof {
                        assert(base + with_hits(q, ts, c as nat, j + 1) =~= picked);
                    }
                }
                j = j + 1;
            }
            assert(ranked_between(q, ts, top as nat, (c - 1) as nat) == ranked_between(
                q,
                ts,
                top as nat,
                c as nat,
            ) + with_hits(q, ts, c as nat, n as int));
            c = c - 1;
        }
        assert(out@.map_values(|t: &Tool| t@) =~= tools_for_query_spec(ts, q));
        out
    }

    /// All registered tools, in registration order.
    pub fn tools(&self) -> (r: &Vec<Tool>)
        ensures
            r@.map_values(|t: Tool| t@) == self.tool_views(),
    {
        &self.tools
    }

    /// Number of registered tools.
    pub fn num_tools(&self) -> (r: usize)
        ensures
            r == self.tool_views().len(),
    {
        self.tools.len()
    }

    /// The tool named `name`, if registered.
    pub fn get_tool(&self, name: &str) -> (r: Option<&Tool>)
        ensures
            match name_from(self.tool_views(), name@, 0) {
                Some(j) => r is Some && r->0@ == self.tool_views()[j],
                None => r is None,
            },
    {
        match self.position_of(name) {
            Some(j) => Some(&self.tools[j]),
            None => None,
        }
    }

    /// The detected capabilities.
    pub fn capabilities(&self) -> (r: &ModelCapabilities)
        ensures
            *r == self.spec_capabilities(),
    {
        &self.capabilities
    }

    /// The detected architecture.
    pub fn architecture(&self) -> (r: &ModelArchitecture)
        ensures
            *r == self.spec_architecture(),
    {
        &self.architecture
    }
}

// ---------------------------------------------------------------------------
// What a query returns
// ---------------------------------------------------------------------------

proof fn lemma_with_hits(q: Seq<char>, ts: Seq<ToolView>, c: nat, n: int)
    requires
        0 <= n <= ts.len(),
    ensures
        forall|i: int|
            0 <= i < with_hits(q, ts, c, n).len() ==> 0 <= #[trigger] with_hits(q, ts, c, n)[i] < n
                && hits(q, ts, with_hits(q, ts, c, n)[i]) == c,
        forall|i: int, j: int|
            0 <= i < j < with_hits(q, ts, c, n).len() ==> #[trigger] with_hits(q, ts, c, n)[i]
                < #[trigger] with_hits(q, ts, c, n)[j],
        forall|k: int| 0 <= k < n && hits(q, ts, k) == c ==> with_hits(q, ts, c, n).contains(k),
    decreases n,
{
    if n > 0 {
        lemma_with_hits(q, ts, c, n - 1);
        let prev = with_hits(q, ts, c, n - 1);
        let cur = with_hits(q, ts, c, n);
        assert forall|k: int| 0 <= k < n && hits(q, ts, k) == c implies cur.contains(k) by {
            if k < n - 1 {
                let i = choose|i: int| 0 <= i < prev.len() && prev[i] == k;
                assert(cur[i] == k);
            } else {
                assert(cur[prev.len() as int] == k);
            }
        }
    }
}

proof fn lemma_ranked_between(q: Seq<char>, ts: Seq<ToolView>, hi: nat, lo: nat)
    ensures
        ({
            let r = ranked_between(q, ts, hi, lo);
            &&& forall|i: int|
                0 <= i < r.len() ==> 0 <= #[trigger] r[i] < ts.len() && lo < hits(q, ts, r[i]) <= hi
            &&& forall|i: int, j: int|
                0 <= i < j < r.len() ==> hits(q, ts, #[trigger] r[i]) >= hits(q, ts, #[trigger] r[j])
            &&& forall|i: int, j: int| 0 <= i < j < r.len() ==> #[trigger] r[i] != #[trigger] r[j]
            &&& forall|k: int|
                0 <= k < ts.len() && lo < hits(q, ts, k) <= hi ==> r.contains(k)
        }),
    decreases hi - lo,
{
    if hi > lo {
        lemma_ranked_between(q, ts, hi, lo + 1);
        lemma_with_hits(q, ts, lo + 1, ts.len() as int);
        let a = ranked_between(q, ts, hi, lo + 1);
        let b = with_hits(q, ts, lo + 1, ts.len() as int);
        let r = ranked_between(q, ts, hi, lo);
        assert(r == a + b);
        assert forall|i: int| 0 <= i < r.len() implies 0 <= #[trigger] r[i] < ts.len() && lo < hits(
            q,
            ts,
            r[i],
        ) <= hi by {
            if i >= a.len() {
                assert(r[i] == b[i - a.len()]);
            }
        }
        assert forall|i: int, j: int| 0 <= i < j < r.len() implies hits(q, ts, #[trigger] r[i])
            >= hits(q, ts, #[trigger] r[j]) by {
            if j < a.len() {
            } else if i < a.len() {
                assert(r[j] == b[j - a.len()]);
            } else {
                assert(r[i] == b[i - a.len()]);
                assert(r[j] == b[j - a.len()]);
            }
        }
        assert forall|i: int, j: int| 0 <= i < j < r.len() implies #[trigger] r[i] != #[trigger] r[j] by {
            if j < a.len() {
            } else if i < a.len() {
                assert(r[j] == b[j - a.len()]);
            } else {
                assert(r[i] == b[i - a.len()]);
                assert(r[j] == b[j - a.len()]);
            }
        }
        assert forall|k: int| 0 <= k < ts.len() && lo < hits(q, ts, k) <= hi implies r.contains(k) by {
            if hits(q, ts, k) == lo + 1 {
                assert(b.contains(k));
                let i = choose|i: int| 0 <= i < b.len() && b[i] == k;
                assert(r[a.len() + i] == k);
            } else {
                assert(a.contains(k));
                let i = choose|i: int| 0 <= i < a.len() && a[i] == k;
                assert(r[i] == k);
            }
        }
    }
}

proof fn lemma_max_hits(q: Seq<char>, ts: Seq<ToolView>, n: int)
    requires
        0 <= n,
    ensures
        forall|k: int| 0 <= k < n ==> hits(q, ts, k) <= max_hits(q, ts, n),
    decreases n,
{
    if n > 0 {
        lemma_max_hits(q, ts, n - 1);
    }
}

/// A query is answered with exactly the registered tools that it mentions
/// a keyword of, each once, ordered so that no tool comes after one with
/// fewer keyword hits.
pub proof fn law_query_results_are_ranked(ts: Seq<ToolView>, q: Seq<char>)
    ensures
        ({
            let idx = ranked_between(q, ts, max_hits(q, ts, ts.len() as int), 0);
            &&& forall|i: int|
                0 <= i < idx.len() ==> 0 <= #[trigger] idx[i] < ts.len() && hits(q, ts, idx[i]) > 0
            &&& forall|i: int, j: int|
                0 <= i < j < idx.len() ==> hits(q, ts, #[trigger] idx[i]) >= hits(
                    q,
                    ts,
                    #[trigger] idx[j],
                )
            &&& forall|i: int, j: int| 0 <= i < j < idx.len() ==> #[trigger] idx[i] != #[trigger] idx[j]
            &&& forall|k: int| 0 <= k < ts.len() && hits(q, ts, k) > 0 ==> idx.contains(k)
        }),
{
    let m = max_hits(q, ts, ts.len() as int);
    lemma_ranked_between(q, ts, m, 0);
    lemma_max_hits(q, ts, ts.len() as int);
}

} // verus!
