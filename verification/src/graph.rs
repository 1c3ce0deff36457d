//! The graph model: nodes bound to named operations, each with an ordered
//! list of named inputs. An input is either fed by a connection to another
//! node's output or left external, to be supplied by the caller. The model is
//! read-only during an evaluation pass.

use vstd::prelude::*;

verus! {

/// Identifies a node within one graph: an index into `BjkGraph::nodes`.
#[derive(Clone, Copy, Debug, PartialEq, Eq, Hash, Structural)]
pub struct BjkNodeId(pub usize);

/// How one declared input of a node receives its value.
#[derive(Clone, Debug)]
pub enum DependencyKind {
    /// The input is fed by the output `param_name` of the producer `node`.
    Connection { node: BjkNodeId, param_name: String },
    /// The input is user-set. `promoted` marks whether it is exposed upward
    /// for editing; evaluation ignores it and preserves it as metadata.
    External { promoted: bool },
}

/// One declared input of a node: a name and how it is fed.
#[derive(Clone, Debug)]
pub struct InputParameter {
    pub name: String,
    pub kind: DependencyKind,
}

/// One computation node: an operation name resolved against the registry, the
/// ordered inputs, and, meaningful only on the evaluation target, the name of
/// the output that becomes the pass's final result.
#[derive(Clone, Debug)]
pub struct BjkNode {
    pub op_name: String,
    pub return_value: Option<String>,
    pub inputs: Vec<InputParameter>,
}

/// A graph of computation nodes; `BjkNodeId(i)` names `nodes[i]`.
#[derive(Clone, Debug)]
pub struct BjkGraph {
    pub nodes: Vec<BjkNode>,
}

impl BjkGraph {
    /// Every connection points at a node of the graph.
    pub open spec fn wf(&self) -> bool {
        forall|i: int, k: int|
            0 <= i < self.nodes@.len() && 0 <= k < self.nodes@[i].inputs@.len() ==> match (
            #[trigger] self.nodes@[i].inputs@[k]).kind {
                DependencyKind::Connection { node, .. } => node.0 < self.nodes@.len(),
                DependencyKind::External { .. } => true,
            }
    }
}

/// Node `a` has an input fed by node `b`.
pub open spec fn has_edge(g: BjkGraph, a: int, b: int) -> bool {
    &&& 0 <= a < g.nodes@.len()
    &&& exists|k: int|
        0 <= k < g.nodes@[a].inputs@.len() && ((#[trigger] g.nodes@[a].inputs@[k]).kind matches
        DependencyKind::Connection { node, .. } && node.0 == b)
}

/// Node `i` has an external input named `name`.
pub open spec fn has_external_input(g: BjkGraph, i: int, name: Seq<char>) -> bool {
    &&& 0 <= i < g.nodes@.len()
    &&& exists|k: int|
        0 <= k < g.nodes@[i].inputs@.len() && ((#[trigger] g.nodes@[i].inputs@[k]).kind matches
        DependencyKind::External { .. }) && g.nodes@[i].inputs@[k].name@ == name
}

/// `rank` witnesses acyclicity: it assigns every node a measure that strictly
/// drops along each edge from a consumer to one of its producers.
pub open spec fn valid_rank(g: BjkGraph, rank: Seq<nat>) -> bool {
    &&& rank.len() == g.nodes@.len()
    &&& forall|a: int, b: int| #[trigger] has_edge(g, a, b) ==> 0 <= b < rank.len() && rank[b] < rank[a]
}

/// The graph has no dependency cycle. The evaluator does not check this at
/// run time; the recursion of `run_node` is proved to terminate from it.
pub open spec fn acyclic(g: BjkGraph) -> bool {
    exists|rank: Seq<nat>| valid_rank(g, rank)
}

/// Node `to` is reachable from node `from` along at most `n` dependency edges.
pub open spec fn reaches_in(g: BjkGraph, from: int, to: int, n: nat) -> bool
    decreases n,
{
    if from == to {
        true
    } else if n == 0 {
        false
    } else {
        exists|m: int| #[trigger] has_edge(g, from, m) && reaches_in(g, m, to, (n - 1) as nat)
    }
}

/// Node `to` is the node `from` itself, or one of its transitive producers.
pub open spec fn reaches(g: BjkGraph, from: int, to: int) -> bool {
    exists|n: nat| reaches_in(g, from, to, n)
}

pub proof fn lemma_reaches_self(g: BjkGraph, a: int)
    ensures
        reaches(g, a, a),
{
    assert(reaches_in(g, a, a, 0));
}

pub proof fn lemma_reaches_step(g: BjkGraph, a: int, m: int, b: int)
    requires
        has_edge(g, a, m),
        reaches(g, m, b),
    ensures
        reaches(g, a, b),
{
    let n = choose|n: nat| reaches_in(g, m, b, n);
    if a != b {
        assert(has_edge(g, a, m) && reaches_in(g, m, b, ((n + 1) - 1) as nat));
        assert(reaches_in(g, a, b, n + 1));
    } else {
        lemma_reaches_self(g, a);
    }
}

proof fn lemma_reaches_in_rank(g: BjkGraph, rank: Seq<nat>, a: int, b: int, n: nat)
    requires
        valid_rank(g, rank),
        reaches_in(g, a, b, n),
        0 <= a < rank.len(),
    ensures
        0 <= b < rank.len(),
        rank[b] <= rank[a],
    decreases n,
{
    if a != b {
        let m = choose|m: int| #[trigger] has_edge(g, a, m) && reaches_in(g, m, b, (n - 1) as nat);
        lemma_reaches_in_rank(g, rank, m, b, (n - 1) as nat);
    }
}

/// Along a valid rank, reachability can only lower the rank; in particular no
/// strict producer of a node can reach back to it.
pub proof fn lemma_reaches_rank(g: BjkGraph, rank: Seq<nat>, a: int, b: int)
    requires
        valid_rank(g, rank),
        reaches(g, a, b),
        0 <= a < rank.len(),
    ensures
        0 <= b < rank.len(),
        rank[b] <= rank[a],
{
    let n = choose|n: nat| reaches_in(g, a, b, n);
    lemma_reaches_in_rank(g, rank, a, b, n);
}

} // verus!
