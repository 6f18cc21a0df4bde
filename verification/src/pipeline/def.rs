//! The pipeline description read from a pipeline YAML file, and the order in
//! which its passes run.

use vstd::prelude::*;

use crate::pipeline::graph::{
    edge, has_cycle, kahn_order, is_matrix, is_permutation, is_topological_order, lemma_topological_order_excludes_cycle,
    matrix_view, topological_order,
};
use crate::text::{concat3, distinct_keys, str_eq};

verus! {

// ---------------------------------------------------------------------------
// Pipeline description
// ---------------------------------------------------------------------------

/// A whole pipeline file: settings, the textures it allocates and its passes.
#[derive(Debug, Clone)]
pub struct PipelineFile {
    pub version: u32,
    pub settings: PipelineSettings,
    pub resources: Vec<ResourceDef>,
    pub passes: Vec<PassDef>,
}

/// Global pipeline settings.
#[derive(Debug, Clone)]
pub struct PipelineSettings {
    pub resolution: [u32; 2],
    pub vsync: bool,
    pub max_fps: u32,
    pub hdr: bool,
}

impl Default for PipelineSettings {
    fn default() -> (s: Self)
        ensures
            s.resolution[0] == 1280 && s.resolution[1] == 720,
            s.vsync,
            s.max_fps == 60,
            !s.hdr,
    {
        PipelineSettings { resolution: default_resolution(), vsync: true, max_fps: 60, hdr: false }
    }
}

/// Resolution used when a pipeline file names none.
pub fn default_resolution() -> (r: [u32; 2])
    ensures
        r[0] == 1280 && r[1] == 720,
{
    [1280, 720]
}

/// Default for flags that are on unless switched off.
pub fn default_true() -> (r: bool)
    ensures
        r,
{
    true
}

/// Default frame-rate cap.
pub fn default_60() -> (r: u32)
    ensures
        r == 60,
{
    60
}

/// A texture the pipeline allocates.
#[derive(Debug, Clone)]
pub struct ResourceDef {
    pub name: String,
    pub resource_type: String,
    pub format: String,
    pub size: String,
}

/// Size used for a resource that names none.
pub fn default_viewport() -> (r: String)
    ensures
        r@ == "viewport"@,
{
    "viewport".to_owned()
}

/// One render pass. `inputs` and `outputs` map a slot name to a resource name.
#[derive(Debug, Clone)]
pub struct PassDef {
    pub name: String,
    pub pass_type: String,
    pub shader: String,
    pub inputs: Vec<(String, String)>,
    pub outputs: Vec<(String, String)>,
    pub sort: Option<String>,
    pub cull: Option<String>,
    pub dispatch: Option<String>,
}

impl PassDef {
    /// Each input slot and each output slot is named once, as in a map.
    pub open spec fn well_formed(&self) -> bool {
        distinct_keys(self.inputs@) && distinct_keys(self.outputs@)
    }
}

// ---------------------------------------------------------------------------
// Pipeline errors
// ---------------------------------------------------------------------------

/// Why a pipeline could not be loaded or built. Reading and YAML errors carry
/// the message of the underlying error.
#[derive(Debug, Clone)]
pub enum PipelineError {
    IoError(String),
    ParseError(String),
    DagCycle(String),
    InvalidFormat(String),
    ShaderError(String),
}

impl PipelineError {
    /// The human-readable text of the error.
    pub fn message(&self) -> (m: String)
        ensures
            m@ == match self {
                PipelineError::IoError(e) => "Pipeline IO error: "@ + e@,
                PipelineError::ParseError(e) => "Pipeline parse error: "@ + e@,
                PipelineError::DagCycle(e) => "Pipeline DAG cycle: "@ + e@,
                PipelineError::InvalidFormat(e) => "Invalid format: "@ + e@,
                PipelineError::ShaderError(e) => "Shader error: "@ + e@,
            },
    {
        let m = match self {
            PipelineError::IoError(e) => concat3("Pipeline IO error: ", e.as_str(), ""),
            PipelineError::ParseError(e) => concat3("Pipeline parse error: ", e.as_str(), ""),
            PipelineError::DagCycle(e) => concat3("Pipeline DAG cycle: ", e.as_str(), ""),
            PipelineError::InvalidFormat(e) => concat3("Invalid format: ", e.as_str(), ""),
            PipelineError::ShaderError(e) => concat3("Shader error: ", e.as_str(), ""),
        };
        proof {
            reveal_strlit("");
        }
        m
    }
}

// ---------------------------------------------------------------------------
// Pass dependencies
// ---------------------------------------------------------------------------

/// Pass `p` writes resource `r` (the swapchain is no resource of the graph).
pub open spec fn produces(p: PassDef, r: Seq<char>) -> bool {
    r != "swapchain"@ && exists|k: int| 0 <= k < p.outputs@.len() && (#[trigger] p.outputs@[k]).1@ == r
}

/// Input slot `k` of pass `v` reads a resource that pass `u` writes
/// (inputs bound to `auto` come from the scene, not from a pass).
pub open spec fn reads_from(passes: Seq<PassDef>, u: int, v: int, k: int) -> bool {
    let r = passes[v].inputs@[k].1@;
    r != "auto"@ && produces(passes[u], r)
}

/// Pass `u` must run before pass `v`.
pub open spec fn depends_on(passes: Seq<PassDef>, u: int, v: int) -> bool {
    &&& 0 <= v < passes.len()
    &&& u != v
    &&& exists|k: int| 0 <= k < passes[v].inputs@.len() && #[trigger] reads_from(passes, u, v, k)
}

/// `order` runs every pass that writes a resource before every other pass that
/// reads it.
pub open spec fn writers_before_readers(passes: Seq<PassDef>, order: Seq<usize>) -> bool {
    forall|i: int, j: int|
        0 <= i < order.len() && 0 <= j < order.len() && #[trigger] depends_on(
            passes,
            order[i] as int,
            order[j] as int,
        ) ==> i < j
}

/// `order` lists each pass once and meets every writer-before-reader rule.
pub open spec fn valid_pass_order(passes: Seq<PassDef>, order: Seq<usize>) -> bool {
    is_permutation(order, passes.len() as int) && writers_before_readers(passes, order)
}

proof fn lemma_valid_order_is_topological(passes: Seq<PassDef>, order: Seq<usize>)
    ensures
        valid_pass_order(passes, order) <==> is_topological_order(pass_graph(passes), order),
{
    let g = pass_graph(passes);
    if valid_pass_order(passes, order) {
        assert forall|a: int, b: int|
            0 <= a < order.len() && 0 <= b < order.len() && #[trigger] edge(g, order[b] as int, order[a] as int)
            implies b < a by {
            assert(depends_on(passes, order[b] as int, order[a] as int));
        }
    }
    if is_topological_order(g, order) {
        assert forall|i: int, j: int|
            0 <= i < order.len() && 0 <= j < order.len() && #[trigger] depends_on(
                passes,
                order[i] as int,
                order[j] as int,
            ) implies i < j by {
            assert(edge(g, order[i] as int, order[j] as int));
        }
    }
}

/// In every order `build_dag` can give, a pass that lists a resource among
/// any of its outputs runs before every other pass that lists the resource
/// among its inputs (the swapchain and `auto` inputs excepted).
pub proof fn lemma_writer_runs_before_reader(
    passes: Seq<PassDef>,
    order: Seq<usize>,
    i: int,
    j: int,
    ko: int,
    ki: int,
)
    requires
        valid_pass_order(passes, order),
        0 <= i < order.len(),
        0 <= j < order.len(),
        order[i] != order[j],
        0 <= ko < passes[order[i] as int].outputs@.len(),
        0 <= ki < passes[order[j] as int].inputs@.len(),
        passes[order[i] as int].outputs@[ko].1@ == passes[order[j] as int].inputs@[ki].1@,
        passes[order[j] as int].inputs@[ki].1@ != "swapchain"@,
        passes[order[j] as int].inputs@[ki].1@ != "auto"@,
    ensures
        i < j,
{
    let u = order[i] as int;
    let v = order[j] as int;
    assert(produces(passes[u], passes[v].inputs@[ki].1@));
    assert(reads_from(passes, u, v, ki));
    assert(depends_on(passes, u, v));
}

/// The dependency matrix of the passes: row `v` marks the passes `v` waits on.
pub open spec fn pass_graph(passes: Seq<PassDef>) -> Seq<Seq<bool>> {
    Seq::new(
        passes.len(),
        |v: int| Seq::new(passes.len(), |u: int| depends_on(passes, u, v)),
    )
}

fn pass_produces(pass: &PassDef, r: &String) -> (b: bool)
    ensures
        b == produces(*pass, r@),
{
    if str_eq(r.as_str(), "swapchain") {
        return false;
    }
    let mut k: usize = 0;
    while k < pass.outputs.len()
        invariant
            k <= pass.outputs@.len(),
            r@ != "swapchain"@,
            forall|j: int| 0 <= j < k ==> (#[trigger] pass.outputs@[j]).1@ != r@,
        decreases pass.outputs@.len() - k,
    {
        if str_eq(pass.outputs[k].1.as_str(), r.as_str()) {
            proof {
                assert(pass.outputs@[k as int].1@ == r@);
            }
            return true;
        }
        k = k + 1;
    }
    false
}

/// Row `v` of the dependency matrix.
fn dependency_row(passes: &[PassDef], v: usize) -> (row: Vec<bool>)
    requires
        v < passes@.len(),
    ensures
        row@ == pass_graph(passes@)[v as int],
{
    let n = passes.len();
    let mut row: Vec<bool> = Vec::new();
    let mut u: usize = 0;
    while u < n
        invariant
            n == passes@.len(),
            u <= n,
            row@.len() == u,
            forall|x: int| 0 <= x < u ==> !(#[trigger] row@[x]),
        decreases n - u,
    {
        row.push(false);
        u = u + 1;
    }
    let inputs = &passes[v].inputs;
    let mut k: usize = 0;
    while k < inputs.len()
        invariant
            n == passes@.len(),
            v < n,
            inputs@ == passes@[v as int].inputs@,
            k <= inputs@.len(),
            row@.len() == n,
            forall|x: int|
                0 <= x < n ==> (#[trigger] row@[x] <==> (x != v && exists|j: int|
                    0 <= j < k && #[trigger] reads_from(passes@, x, v as int, j))),
        decreases inputs@.len() - k,
    {
        let ghost prev = row@;
        let r = &inputs[k].1;
        assert(r@ == passes@[v as int].inputs@[k as int].1@);
        if !str_eq(r.as_str(), "auto") {
            let mut u: usize = 0;
            while u < n
                invariant
                    n == passes@.len(),
                    v < n,
                    u <= n,
                    inputs@ == passes@[v as int].inputs@,
                    k < inputs@.len(),
                    r@ == passes@[v as int].inputs@[k as int].1@,
                    r@ != "auto"@,
                    row@.len() == n,
                    forall|x: int|
                        0 <= x < n ==> (#[trigger] row@[x] <==> (prev[x] || (x < u && x != v
                            && produces(passes@[x], r@)))),
                decreases n - u,
            {
                if u != v && pass_produces(&passes[u], r) {
                    row.set(u, true);
                }
                u = u + 1;
            }
        }
        proof {
            assert forall|x: int| 0 <= x < n implies (#[trigger] row@[x] <==> (x != v && exists|j: int|
                0 <= j < k + 1 && #[trigger] reads_from(passes@, x, v as int, j))) by {
                if x != v && reads_from(passes@, x, v as int, k as int) {
                    assert(row@[x]);
                }
                if row@[x] && !prev[x] {
                    assert(reads_from(passes@, x, v as int, k as int));
                }
                if exists|j: int| 0 <= j < k + 1 && #[trigger] reads_from(passes@, x, v as int, j) {
                    let j = choose|j: int| 0 <= j < k + 1 && #[trigger] reads_from(passes@, x, v as int, j);
                    if j < k {
                        assert(prev[x] || x == v);
                    }
                }
            }
        }
        k = k + 1;
    }
    proof {
        assert(row@ =~= pass_graph(passes@)[v as int]);
    }
    row
}

/// Orders the passes so that every pass that writes a resource runs before
/// every other pass that reads it, as Kahn's algorithm does taking the most recently readied pass
/// first. Fails with `DagCycle` exactly when the dependencies form a cycle.
pub fn build_dag(passes: &[PassDef]) -> (r: Result<Vec<usize>, PipelineError>)
    ensures
        r is Ok <==> !has_cycle(pass_graph(passes@)),
        r is Ok <==> exists|o: Seq<usize>| valid_pass_order(passes@, o),
        match r {
            Ok(order) => valid_pass_order(passes@, order@) && is_topological_order(pass_graph(passes@), order@)
                && order@ == kahn_order(
                pass_graph(passes@),
            ),
            Err(e) => e matches PipelineError::DagCycle(msg) && msg@
                == "Cycle detected in render pass dependencies"@,
        },
{
    let n = passes.len();
    let mut g: Vec<Vec<bool>> = Vec::new();
    let mut v: usize = 0;
    while v < n
        invariant
            n == passes@.len(),
            v <= n,
            g@.len() == v,
            forall|w: int| 0 <= w < v ==> (#[trigger] g@[w])@ == pass_graph(passes@)[w],
        decreases n - v,
    {
        let row = dependency_row(passes, v);
        g.push(row);
        v = v + 1;
    }
    proof {
        assert(matrix_view(g@) =~= pass_graph(passes@));
        assert(is_matrix(matrix_view(g@), g@.len() as int));
    }
    match topological_order(&g) {
        Some(order) => {
            proof {
                lemma_topological_order_excludes_cycle(pass_graph(passes@), order@);
                lemma_valid_order_is_topological(passes@, order@);
            }
            Ok(order)
        },
        None => {
            proof {
                assert forall|o: Seq<usize>| !valid_pass_order(passes@, o) by {
                    lemma_valid_order_is_topological(passes@, o);
                    if is_topological_order(pass_graph(passes@), o) {
                        lemma_topological_order_excludes_cycle(pass_graph(passes@), o);
                    }
                }
            }
            Err(PipelineError::DagCycle("Cycle detected in render pass dependencies".to_owned()))
        },
    }
}

} // verus!
