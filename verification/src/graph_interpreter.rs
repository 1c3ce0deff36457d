//! The evaluation engine: one pass resolves the target node's transitive
//! dependencies depth-first, memoizes every node's outputs, substitutes
//! user-set external parameters, and drives the gizmo pre/post hook protocol
//! on the target. `run_graph` is the entry point; `run_node` is the recursive
//! executor.

use vstd::prelude::*;
use crate::errors::GraphError;
use crate::errors::graph_error_of;
use crate::gizmos::BlackjackGizmo;
use crate::graph::BjkGraph;
use crate::graph::BjkNodeId;
use crate::graph::DependencyKind;
use crate::graph::InputParameter;
use crate::graph::has_edge;
use crate::graph::has_external_input;
use crate::graph::lemma_reaches_rank;
use crate::graph::lemma_reaches_self;
use crate::graph::lemma_reaches_step;
use crate::graph::reaches;
use crate::graph::valid_rank;
use crate::graph::acyclic;
use crate::registry::NodeDefinitions;
use crate::values::BlackjackValue;
use crate::values::ValueMap;

verus! {

/// A user-set leaf input: the key under which the caller supplies a value
/// for the external input `param_name` of the node `node_id`. Two parameters
/// are equal exactly when both fields match.
#[derive(Clone, Debug, PartialEq, Eq, Hash)]
pub struct ExternalParameter {
    pub node_id: BjkNodeId,
    pub param_name: String,
}

impl ExternalParameter {
    pub fn new(node_id: BjkNodeId, param_name: String) -> (r: Self)
        ensures
            r.node_id == node_id,
            r.param_name == param_name,
    {
        ExternalParameter { node_id, param_name }
    }
}

/// The model key of an external parameter: node index and input name.
pub open spec fn param_key(p: ExternalParameter) -> (int, Seq<char>) {
    (p.node_id.0 as int, p.param_name@)
}

/// The map described by an association list of external parameters, later
/// entries shadowing earlier ones.
pub open spec fn assoc_param_map(s: Seq<(ExternalParameter, BlackjackValue)>) -> Map<
    (int, Seq<char>),
    BlackjackValue,
>
    decreases s.len(),
{
    if s.len() == 0 {
        Map::empty()
    } else {
        assoc_param_map(s.drop_last()).insert(param_key(s.last().0), s.last().1)
    }
}

/// The values for all external parameters of a pass: a mapping from
/// `ExternalParameter` to a value, owned by the caller, lent to the pass and
/// handed back (possibly written to by a gizmo pre-hook) in the result.
#[derive(Clone, Debug)]
pub struct ExternalParameterValues {
    entries: Vec<(ExternalParameter, BlackjackValue)>,
}

impl View for ExternalParameterValues {
    type V = Map<(int, Seq<char>), BlackjackValue>;

    closed spec fn view(&self) -> Map<(int, Seq<char>), BlackjackValue> {
        assoc_param_map(self.entries@)
    }
}

impl ExternalParameterValues {
    pub fn new() -> (r: Self)
        ensures
            r@ == Map::<(int, Seq<char>), BlackjackValue>::empty(),
    {
        ExternalParameterValues { entries: Vec::new() }
    }

    /// Binds `key` to `value`, shadowing any earlier binding of the same
    /// parameter.
    pub fn insert(&mut self, key: ExternalParameter, value: BlackjackValue)
        ensures
            final(self)@ == old(self)@.insert(param_key(key), value),
    {
        let ghost before = self.entries@;
        self.entries.push((key, value));
        proof {
            assert(self.entries@.drop_last() =~= before);
        }
    }

    /// Looks the most recent binding of `key` up.
    pub fn get(&self, key: &ExternalParameter) -> (r: Option<&BlackjackValue>)
        ensures
            match r {
                Some(v) => self@.contains_key(param_key(*key)) && *v == self@[param_key(*key)],
                None => !self@.contains_key(param_key(*key)),
            },
    {
        let mut i: usize = self.entries.len();
        proof {
            assert(self.entries@.take(i as int) =~= self.entries@);
        }
        while i > 0
            invariant
                i <= self.entries@.len(),
                self@.contains_key(param_key(*key)) == assoc_param_map(
                    self.entries@.take(i as int),
                ).contains_key(param_key(*key)),
                assoc_param_map(self.entries@.take(i as int)).contains_key(param_key(*key))
                    ==> assoc_param_map(self.entries@.take(i as int))[param_key(*key)]
                    == self@[param_key(*key)],
            decreases i,
        {
            proof {
                assert(self.entries@.take(i as int).drop_last() =~= self.entries@.take(i - 1));
                assert(self.entries@.take(i as int).last() == self.entries@[i - 1]);
            }
            let entry = &self.entries[i - 1];
            if entry.0.node_id.0 == key.node_id.0 && entry.0.param_name == key.param_name {
                return Some(&self.entries[i - 1].1);
            }
            i = i - 1;
        }
        proof {
            assert(self.entries@.take(0) =~= Seq::<(ExternalParameter, BlackjackValue)>::empty());
        }
        None
    }
}

impl Default for ExternalParameterValues {
    /// An empty store.
    fn default() -> (r: Self)
        ensures
            r@ == Map::<(int, Seq<char>), BlackjackValue>::empty(),
    {
        ExternalParameterValues::new()
    }
}

/// How one pass treats gizmos: ignore them entirely; run them with a prior
/// round's gizmos fed into the pre-hook; or run only the output side.
pub enum GizmoConfig {
    IgnoreGizmos,
    RunGizmosInOut(Vec<BlackjackGizmo>),
    RinGizmoOut,
}

/// The config makes the pass produce gizmos at all.
pub open spec fn gizmos_enabling(cfg: GizmoConfig) -> bool {
    !(cfg matches GizmoConfig::IgnoreGizmos)
}

/// The config lets the pre-hook rewrite the target's inputs (and write into
/// the parameter store); under any other config the pass leaves the resolved
/// inputs and the store untouched.
pub open spec fn gizmos_rewriting(cfg: GizmoConfig) -> bool {
    cfg matches GizmoConfig::RunGizmosInOut(_)
}

/// The ghost record of one operation invocation: which node ran, and the
/// input map its operation received.
pub struct OpInvocation {
    pub node: int,
    pub inputs: Map<Seq<char>, BlackjackValue>,
}

/// The mutable state threaded through one evaluation pass: the output cache,
/// the target's identity, the gizmo configuration, the gizmo accumulator,
/// the external parameter store, and a ghost trace of every operation
/// invocation the pass makes.
pub struct InterpreterContext {
    outputs_cache: Vec<Option<ValueMap>>,
    external_param_values: ExternalParameterValues,
    target_node: BjkNodeId,
    gizmos_enabled: bool,
    gizmo_config: GizmoConfig,
    gizmo_outputs: Vec<BlackjackGizmo>,
    executed: Ghost<Seq<OpInvocation>>,
}

impl InterpreterContext {
    /// The output cache: for each node index, `Some` of its produced output
    /// mapping once the node has executed.
    pub closed spec fn cache(&self) -> Seq<Option<ValueMap>> {
        self.outputs_cache@
    }

    /// The current external parameter store.
    pub closed spec fn params(&self) -> Map<(int, Seq<char>), BlackjackValue> {
        self.external_param_values@
    }

    /// The trace of operation invocations made so far in this pass.
    pub closed spec fn trace(&self) -> Seq<OpInvocation> {
        self.executed@
    }

    pub closed spec fn target(&self) -> BjkNodeId {
        self.target_node
    }

    pub closed spec fn cfg(&self) -> GizmoConfig {
        self.gizmo_config
    }

    pub closed spec fn gizmos_on(&self) -> bool {
        self.gizmos_enabled
    }

    /// The gizmo accumulator: the last target post-hook result.
    pub closed spec fn gizmo_out(&self) -> Seq<BlackjackGizmo> {
        self.gizmo_outputs@
    }

    /// The pass invariant tying cache and trace together: the cache has one
    /// slot per node, every traced node is cached, every cached node was
    /// traced, and no node is traced twice — each node's operation runs at
    /// most once per pass.
    pub open spec fn wf(&self, g: BjkGraph) -> bool {
        &&& self.cache().len() == g.nodes@.len()
        &&& forall|i: int, j: int|
            0 <= i < j < self.trace().len() ==> (#[trigger] self.trace()[i]).node != (
            #[trigger] self.trace()[j]).node
        &&& forall|i: int|
            0 <= i < self.trace().len() ==> {
                let nd = (#[trigger] self.trace()[i]).node;
                &&& 0 <= nd < g.nodes@.len()
                &&& self.cache()[nd] is Some
            }
        &&& forall|nd: int|
            0 <= nd < g.nodes@.len() && (#[trigger] self.cache()[nd]) is Some ==> exists|i: int|
                0 <= i < self.trace().len() && (#[trigger] self.trace()[i]).node == nd
    }

    /// A fresh context for a pass over a graph of `n_nodes` nodes: empty
    /// cache, empty trace, empty gizmo accumulator.
    pub fn new(
        n_nodes: usize,
        target_node: BjkNodeId,
        external_param_values: ExternalParameterValues,
        gizmo_config: GizmoConfig,
    ) -> (r: Self)
        ensures
            r.cache().len() == n_nodes as int,
            forall|i: int| 0 <= i < n_nodes as int ==> (#[trigger] r.cache()[i]) is None,
            r.params() == external_param_values@,
            r.trace() == Seq::<OpInvocation>::empty(),
            r.target() == target_node,
            r.cfg() == gizmo_config,
            r.gizmos_on() == gizmos_enabling(gizmo_config),
            r.gizmo_out() == Seq::<BlackjackGizmo>::empty(),
    {
        let gizmos_enabled = matches!(
            &gizmo_config,
            GizmoConfig::RinGizmoOut | GizmoConfig::RunGizmosInOut(_)
        );
        let mut outputs_cache: Vec<Option<ValueMap>> = Vec::new();
        let mut i: usize = 0;
        while i < n_nodes
            invariant
                i <= n_nodes,
                outputs_cache@.len() == i as int,
                forall|j: int| 0 <= j < i as int ==> (#[trigger] outputs_cache@[j]) is None,
            decreases n_nodes - i,
        {
            outputs_cache.push(None);
            i = i + 1;
        }
        InterpreterContext {
            outputs_cache,
            external_param_values,
            target_node,
            gizmos_enabled,
            gizmo_config,
            gizmo_outputs: Vec::new(),
            executed: Ghost(Seq::empty()),
        }
    }

    /// Whether `id`'s outputs are already in the cache.
    pub fn has_cached(&self, id: BjkNodeId) -> (b: bool)
        requires
            (id.0 as int) < self.cache().len(),
        ensures
            b == (self.cache()[id.0 as int] is Some),
    {
        self.outputs_cache[id.0].is_some()
    }

    /// Reads the output `name` of the already-executed node `producer` out
    /// of the cache.
    fn read_output(&self, producer: BjkNodeId, name: &String) -> (r: Option<BlackjackValue>)
        requires
            (producer.0 as int) < self.cache().len(),
            self.cache()[producer.0 as int] is Some,
        ensures
            match r {
                Some(v) => cache_entry(self.cache(), producer.0 as int).contains_key(name@) && v
                    == cache_entry(self.cache(), producer.0 as int)[name@],
                None => !cache_entry(self.cache(), producer.0 as int).contains_key(name@),
            },
    {
        match &self.outputs_cache[producer.0] {
            Some(m) => match m.get(name) {
                Some(v) => Some(v.dup()),
                None => None,
            },
            None => vstd::pervasive::unreached(),
        }
    }

    /// Records one operation invocation: appends it to the ghost trace and
    /// caches the outputs it produced.
    fn store_result(
        &mut self,
        id: BjkNodeId,
        outputs: ValueMap,
        inputs_view: Ghost<Map<Seq<char>, BlackjackValue>>,
    )
        requires
            (id.0 as int) < old(self).cache().len(),
        ensures
            final(self).cache() == old(self).cache().update(id.0 as int, Some(outputs)),
            final(self).trace() == old(self).trace().push(
                OpInvocation { node: id.0 as int, inputs: inputs_view@ },
            ),
            final(self).params() == old(self).params(),
            final(self).target() == old(self).target(),
            final(self).cfg() == old(self).cfg(),
            final(self).gizmos_on() == old(self).gizmos_on(),
            final(self).gizmo_out() == old(self).gizmo_out(),
    {
        self.executed = Ghost(
            self.executed@.push(OpInvocation { node: id.0 as int, inputs: inputs_view@ }),
        );
        self.outputs_cache[id.0] = Some(outputs);
    }

    /// Borrows the cached output mapping of the already-executed node `id`.
    fn cached_output(&self, id: BjkNodeId) -> (r: &ValueMap)
        requires
            (id.0 as int) < self.cache().len(),
            self.cache()[id.0 as int] is Some,
        ensures
            r@ == cache_entry(self.cache(), id.0 as int),
    {
        match &self.outputs_cache[id.0] {
            Some(m) => m,
            None => vstd::pervasive::unreached(),
        }
    }

    /// Reads the external parameter `key` out of the store.
    fn read_param(&self, key: &ExternalParameter) -> (r: Option<BlackjackValue>)
        ensures
            match r {
                Some(v) => self.params().contains_key(param_key(*key)) && v == self.params()[
                    param_key(*key)
                ],
                None => !self.params().contains_key(param_key(*key)),
            },
    {
        match self.external_param_values.get(key) {
            Some(v) => Some(v.dup()),
            None => None,
        }
    }
}

/// The output mapping cached for node `i` (empty if the node has not run:
/// callers guard with `is Some`).
pub open spec fn cache_entry(c: Seq<Option<ValueMap>>, i: int) -> Map<Seq<char>, BlackjackValue> {
    match c[i] {
        Some(m) => m@,
        None => Map::empty(),
    }
}

/// Cache growth within a pass: no entry is ever evicted or recomputed, so
/// every entry of the earlier cache stands unchanged in the later one.
pub open spec fn cache_preserved(c1: Seq<Option<ValueMap>>, c2: Seq<Option<ValueMap>>) -> bool {
    &&& c2.len() == c1.len()
    &&& forall|i: int| 0 <= i < c1.len() && c1[i] is Some ==> #[trigger] c2[i] == c1[i]
}

/// The cache is closed under dependencies: every connection input of an
/// executed node has an executed producer — a node never runs before the
/// nodes it reads from.
pub open spec fn cache_closed(g: BjkGraph, c: Seq<Option<ValueMap>>) -> bool {
    forall|i: int, k: int|
        0 <= i < g.nodes@.len() && c[i] is Some && 0 <= k < g.nodes@[i].inputs@.len() ==> match (
        #[trigger] g.nodes@[i].inputs@[k]).kind {
            DependencyKind::Connection { node, .. } => c[node.0 as int] is Some,
            DependencyKind::External { .. } => true,
        }
}

proof fn lemma_closed_reaches_in(g: BjkGraph, c: Seq<Option<ValueMap>>, a: int, b: int, n: nat)
    requires
        g.wf(),
        c.len() == g.nodes@.len(),
        cache_closed(g, c),
        0 <= a < g.nodes@.len(),
        c[a] is Some,
        crate::graph::reaches_in(g, a, b, n),
    ensures
        0 <= b < g.nodes@.len(),
        c[b] is Some,
    decreases n,
{
    if a != b {
        let m = choose|m: int| #[trigger] has_edge(g, a, m) && crate::graph::reaches_in(
            g,
            m,
            b,
            (n - 1) as nat,
        );
        let k = choose|k: int|
            0 <= k < g.nodes@[a].inputs@.len() && ((#[trigger] g.nodes@[a].inputs@[k]).kind
                matches DependencyKind::Connection { node, .. } && node.0 == m);
        assert(c[m] is Some);
        lemma_closed_reaches_in(g, c, m, b, (n - 1) as nat);
    }
}

/// In a dependency-closed cache, everything reachable from an executed node
/// has itself executed.
pub proof fn lemma_closed_cache_reaches(g: BjkGraph, c: Seq<Option<ValueMap>>, a: int, b: int)
    requires
        g.wf(),
        c.len() == g.nodes@.len(),
        cache_closed(g, c),
        0 <= a < g.nodes@.len(),
        c[a] is Some,
        reaches(g, a, b),
    ensures
        0 <= b < g.nodes@.len(),
        c[b] is Some,
{
    let n = choose|n: nat| crate::graph::reaches_in(g, a, b, n);
    lemma_closed_reaches_in(g, c, a, b, n);
}

/// The value one declared input of node `nid` resolves to: for a connection,
/// the named output in the producer's cache entry; for an external input, the
/// stored parameter value. `None` when the needed entry is absent.
pub open spec fn resolve_input(
    g: BjkGraph,
    nid: int,
    c: Seq<Option<ValueMap>>,
    params: Map<(int, Seq<char>), BlackjackValue>,
    inp: InputParameter,
) -> Option<BlackjackValue> {
    match inp.kind {
        DependencyKind::Connection { node, param_name } => {
            if (node.0 as int) < c.len() && c[node.0 as int] is Some && cache_entry(
                c,
                node.0 as int,
            ).contains_key(param_name@) {
                Some(cache_entry(c, node.0 as int)[param_name@])
            } else {
                None
            }
        },
        DependencyKind::External { .. } => {
            if params.contains_key((nid, inp.name@)) {
                Some(params[(nid, inp.name@)])
            } else {
                None
            }
        },
    }
}

/// The input map built from the first `k` declared inputs of node `nid`, in
/// order, later inputs shadowing earlier ones of the same name.
pub open spec fn input_map_upto(
    g: BjkGraph,
    nid: int,
    c: Seq<Option<ValueMap>>,
    params: Map<(int, Seq<char>), BlackjackValue>,
    k: int,
) -> Map<Seq<char>, BlackjackValue>
    decreases k,
{
    if k <= 0 {
        Map::empty()
    } else {
        let inp = g.nodes@[nid].inputs@[k - 1];
        input_map_upto(g, nid, c, params, k - 1).insert(
            inp.name@,
            resolve_input(g, nid, c, params, inp).unwrap(),
        )
    }
}

/// Every declared input of node `nid` resolves.
pub open spec fn inputs_all_resolved(
    g: BjkGraph,
    nid: int,
    c: Seq<Option<ValueMap>>,
    params: Map<(int, Seq<char>), BlackjackValue>,
) -> bool {
    forall|k: int|
        0 <= k < g.nodes@[nid].inputs@.len() ==> resolve_input(
            g,
            nid,
            c,
            params,
            #[trigger] g.nodes@[nid].inputs@[k],
        ) is Some
}

/// The full input map of node `nid`, resolved against cache `c` and
/// parameter store `params`.
pub open spec fn node_input_map(
    g: BjkGraph,
    nid: int,
    c: Seq<Option<ValueMap>>,
    params: Map<(int, Seq<char>), BlackjackValue>,
) -> Map<Seq<char>, BlackjackValue> {
    input_map_upto(g, nid, c, params, g.nodes@[nid].inputs@.len() as int)
}

/// An invocation record is faithful: the recorded node's inputs all resolve
/// against `c` and `params`, and the operation received exactly the map they
/// resolve to.
pub open spec fn good_record(
    g: BjkGraph,
    rec: OpInvocation,
    c: Seq<Option<ValueMap>>,
    params: Map<(int, Seq<char>), BlackjackValue>,
) -> bool {
    &&& 0 <= rec.node < g.nodes@.len()
    &&& inputs_all_resolved(g, rec.node, c, params)
    &&& rec.inputs == node_input_map(g, rec.node, c, params)
}

proof fn lemma_resolve_preserved(
    g: BjkGraph,
    nid: int,
    c1: Seq<Option<ValueMap>>,
    c2: Seq<Option<ValueMap>>,
    params: Map<(int, Seq<char>), BlackjackValue>,
    inp: InputParameter,
)
    requires
        cache_preserved(c1, c2),
        resolve_input(g, nid, c1, params, inp) is Some,
    ensures
        resolve_input(g, nid, c2, params, inp) == resolve_input(g, nid, c1, params, inp),
{
    match inp.kind {
        DependencyKind::Connection { node, param_name } => {
            assert(c2[node.0 as int] == c1[node.0 as int]);
        },
        DependencyKind::External { .. } => {},
    }
}

proof fn lemma_upto_preserved(
    g: BjkGraph,
    nid: int,
    c1: Seq<Option<ValueMap>>,
    c2: Seq<Option<ValueMap>>,
    params: Map<(int, Seq<char>), BlackjackValue>,
    k: int,
)
    requires
        cache_preserved(c1, c2),
        0 <= nid < g.nodes@.len(),
        0 <= k <= g.nodes@[nid].inputs@.len(),
        forall|kk: int|
            0 <= kk < k ==> resolve_input(
                g,
                nid,
                c1,
                params,
                #[trigger] g.nodes@[nid].inputs@[kk],
            ) is Some,
    ensures
        input_map_upto(g, nid, c2, params, k) == input_map_upto(g, nid, c1, params, k),
        forall|kk: int|
            0 <= kk < k ==> resolve_input(
                g,
                nid,
                c2,
                params,
                #[trigger] g.nodes@[nid].inputs@[kk],
            ) == resolve_input(g, nid, c1, params, g.nodes@[nid].inputs@[kk]),
    decreases k,
{
    if k > 0 {
        lemma_upto_preserved(g, nid, c1, c2, params, k - 1);
        lemma_resolve_preserved(g, nid, c1, c2, params, g.nodes@[nid].inputs@[k - 1]);
    }
}

/// A faithful invocation record stays faithful as the cache grows within the
/// pass.
pub proof fn lemma_record_preserved(
    g: BjkGraph,
    rec: OpInvocation,
    c1: Seq<Option<ValueMap>>,
    c2: Seq<Option<ValueMap>>,
    params: Map<(int, Seq<char>), BlackjackValue>,
)
    requires
        cache_preserved(c1, c2),
        good_record(g, rec, c1, params),
    ensures
        good_record(g, rec, c2, params),
{
    lemma_upto_preserved(g, rec.node, c1, c2, params, g.nodes@[rec.node].inputs@.len() as int);
}

proof fn lemma_prefix_trans(a: Seq<OpInvocation>, b: Seq<OpInvocation>, c: Seq<OpInvocation>)
    requires
        a.is_prefix_of(b),
        b.is_prefix_of(c),
    ensures
        a.is_prefix_of(c),
{
    assert(a =~= c.subrange(0, a.len() as int));
}

/// What one `run_node` call does to the pass state, whatever the registry's
/// operations return. `pre`/`post` are the context at entry and exit, `nid`
/// the node the call was asked to run.
///
/// - the pass invariant `wf` is preserved, so no node's operation ever runs
///   twice (memoization);
/// - cached entries are never evicted or recomputed;
/// - the invocation trace only grows, and every new invocation is of a node
///   reachable from `nid` that was not cached at entry (independence:
///   unrelated nodes are never executed);
/// - unless the configuration lets a pre-hook rewrite state, the parameter
///   store is untouched and every new invocation received exactly the input
///   map resolved from the cache and the entry-time parameter store;
/// - the gizmo accumulator changes only if the target itself was executed.
pub open spec fn evaln_frame(
    g: BjkGraph,
    nid: int,
    pre: InterpreterContext,
    post: InterpreterContext,
) -> bool {
    &&& post.wf(g)
    &&& post.target() == pre.target()
    &&& post.gizmos_on() == pre.gizmos_on()
    &&& post.cfg() == pre.cfg()
    &&& cache_preserved(pre.cache(), post.cache())
    &&& pre.trace().is_prefix_of(post.trace())
    &&& forall|j: int|
        pre.trace().len() <= j < post.trace().len() ==> {
            let rec = #[trigger] post.trace()[j];
            &&& 0 <= rec.node < g.nodes@.len()
            &&& pre.cache()[rec.node] is None
            &&& reaches(g, nid, rec.node)
        }
    &&& (!gizmos_rewriting(pre.cfg()) ==> post.params() == pre.params())
    &&& (!gizmos_rewriting(pre.cfg()) ==> forall|j: int|
        pre.trace().len() <= j < post.trace().len() ==> good_record(
            g,
            #[trigger] post.trace()[j],
            post.cache(),
            pre.params(),
        ))
    &&& ((forall|j: int|
        pre.trace().len() <= j < post.trace().len() ==> (#[trigger] post.trace()[j]).node != (
        pre.target().0 as int)) ==> post.gizmo_out() == pre.gizmo_out())
}

proof fn lemma_frame_refl(g: BjkGraph, nid: int, c: InterpreterContext)
    requires
        c.wf(g),
    ensures
        evaln_frame(g, nid, c, c),
{
    assert(c.trace() =~= c.trace().subrange(0, c.trace().len() as int));
}

/// Sequencing two executor steps keeps the frame, where the second step runs
/// either the same node or one of its direct producers.
proof fn lemma_frame_compose(
    g: BjkGraph,
    nid: int,
    mid_nid: int,
    pre: InterpreterContext,
    mid: InterpreterContext,
    post: InterpreterContext,
)
    requires
        evaln_frame(g, nid, pre, mid),
        evaln_frame(g, mid_nid, mid, post),
        has_edge(g, nid, mid_nid) || mid_nid == nid,
    ensures
        evaln_frame(g, nid, pre, post),
{
    lemma_prefix_trans(pre.trace(), mid.trace(), post.trace());
    assert forall|i: int| 0 <= i < pre.cache().len() && pre.cache()[i] is Some implies #[trigger] post.cache()[i] == pre.cache()[i] by {
        assert(mid.cache()[i] == pre.cache()[i]);
    }
    assert forall|j: int| 0 <= j < mid.trace().len() implies post.trace()[j] == mid.trace()[j] by {
        assert(mid.trace() =~= post.trace().subrange(0, mid.trace().len() as int));
    }
    assert forall|j: int| pre.trace().len() <= j < post.trace().len() implies {
        let rec = #[trigger] post.trace()[j];
        &&& 0 <= rec.node < g.nodes@.len()
        &&& pre.cache()[rec.node] is None
        &&& reaches(g, nid, rec.node)
    } by {
        let rec = post.trace()[j];
        if j < mid.trace().len() {
            assert(rec == mid.trace()[j]);
        } else {
            assert(mid.cache()[rec.node] is None);
            if pre.cache()[rec.node] is Some {
                assert(mid.cache()[rec.node] == pre.cache()[rec.node]);
            }
            assert(reaches(g, mid_nid, rec.node));
            if mid_nid != nid {
                lemma_reaches_step(g, nid, mid_nid, rec.node);
            }
        }
    }
    if !gizmos_rewriting(pre.cfg()) {
        assert forall|j: int| pre.trace().len() <= j < post.trace().len() implies good_record(
            g,
            #[trigger] post.trace()[j],
            post.cache(),
            pre.params(),
        ) by {
            let rec = post.trace()[j];
            if j < mid.trace().len() {
                assert(rec == mid.trace()[j]);
                assert(good_record(g, rec, mid.cache(), pre.params()));
                lemma_record_preserved(g, rec, mid.cache(), post.cache(), pre.params());
            } else {
                assert(good_record(g, rec, post.cache(), mid.params()));
            }
        }
    }
    if forall|j: int|
        pre.trace().len() <= j < post.trace().len() ==> (#[trigger] post.trace()[j]).node != (
        pre.target().0 as int) {
        assert forall|j: int|
            mid.trace().len() <= j < post.trace().len() implies (#[trigger] post.trace()[j]).node
            != (mid.target().0 as int) by {
            assert(post.trace()[j].node != pre.target().0 as int);
        }
        assert(post.gizmo_out() == mid.gizmo_out());
        assert forall|j: int|
            pre.trace().len() <= j < mid.trace().len() implies (#[trigger] mid.trace()[j]).node
            != (pre.target().0 as int) by {
            assert(mid.trace()[j] == post.trace()[j]);
        }
        assert(mid.gizmo_out() == pre.gizmo_out());
    }
}

/// When evaluation aborts because an external parameter was absent, the
/// error names a node that really declares that external input, whose
/// outputs were not cached, and the store really lacks the named key.
pub open spec fn missing_param_faithful(
    g: BjkGraph,
    e: GraphError,
    post: InterpreterContext,
) -> bool {
    e matches GraphError::MissingExternalParameter { node_id: n, param_name: p } ==> {
        &&& (n.0 as int) < g.nodes@.len()
        &&& post.cache()[n.0 as int] is None
        &&& has_external_input(g, n.0 as int, p@)
        &&& !post.params().contains_key((n.0 as int, p@))
    }
}

/// When evaluation aborts because a connection named an output its producer
/// did not yield, the producer really ran and its cached outputs really lack
/// the name.
pub open spec fn missing_output_faithful(
    g: BjkGraph,
    e: GraphError,
    post: InterpreterContext,
) -> bool {
    e matches GraphError::MissingCachedOutput { node: pn, param_name: outn } ==> {
        &&& (pn.0 as int) < g.nodes@.len()
        &&& post.cache()[pn.0 as int] is Some
        &&& !cache_entry(post.cache(), pn.0 as int).contains_key(outn@)
    }
}

/// A reported unknown operation really is the operation name of a node
/// reachable from the one being run: the evaluator only asks the registry
/// about nodes the target needs.
pub open spec fn unknown_op_faithful(g: BjkGraph, e: GraphError, nid: int) -> bool {
    e matches GraphError::UnknownOperation { op_name: o } ==> exists|i: int|
        0 <= i < g.nodes@.len() && reaches(g, nid, i) && (#[trigger] g.nodes@[i].op_name@) == o@
}

proof fn lemma_unknown_op_lift(g: BjkGraph, e: GraphError, a: int, m: int)
    requires
        unknown_op_faithful(g, e, m),
        has_edge(g, a, m),
    ensures
        unknown_op_faithful(g, e, a),
{
    match e {
        GraphError::UnknownOperation { op_name } => {
            let i = choose|i: int|
                0 <= i < g.nodes@.len() && reaches(g, m, i) && (#[trigger] g.nodes@[i].op_name@)
                    == op_name@;
            lemma_reaches_step(g, a, m, i);
        },
        _ => {},
    }
}

/// The recursive node executor: ensures `node_id`'s outputs are in the
/// cache, executing its unmet dependencies and then the node itself as
/// needed. A node already cached is left untouched — a producer feeding
/// several consumers executes once per pass. When the node is the pass's
/// target, gizmos are enabled and the operation supports them, the pre-hook
/// may rewrite the resolved inputs (under `RunGizmosInOut`) and the
/// post-hook's gizmos replace the accumulator.
///
/// `rank` is the ghost witness of the graph's acyclicity; the recursion
/// descends along it.
#[verifier::loop_isolation(false)]
#[verifier::rlimit(60)]
pub fn run_node<N: NodeDefinitions>(
    graph: &BjkGraph,
    node_definitions: &N,
    ctx: &mut InterpreterContext,
    node_id: BjkNodeId,
    rank: Ghost<Seq<nat>>,
) -> (r: Result<(), GraphError>)
    requires
        graph.wf(),
        valid_rank(*graph, rank@),
        (node_id.0 as int) < graph.nodes@.len(),
        old(ctx).wf(*graph),
        cache_closed(*graph, old(ctx).cache()),
    ensures
        evaln_frame(*graph, node_id.0 as int, *old(ctx), *final(ctx)),
        cache_closed(*graph, final(ctx).cache()),
        r is Ok ==> final(ctx).cache()[node_id.0 as int] is Some,
        old(ctx).cache()[node_id.0 as int] is Some ==> r is Ok && *final(ctx) == *old(ctx),
        r matches Err(e) ==> missing_param_faithful(*graph, e, *final(ctx))
            && missing_output_faithful(*graph, e, *final(ctx)) && unknown_op_faithful(
            *graph,
            e,
            node_id.0 as int,
        ),
    decreases rank@[node_id.0 as int],
{
    let ghost g = *graph;
    let ghost nid = node_id.0 as int;
    let ghost p0 = old(ctx).params();

    if ctx.has_cached(node_id) {
        proof {
            lemma_frame_refl(g, nid, *ctx);
        }
        return Ok(());
    }
    let node = &graph.nodes[node_id.0];
    let op_name = &node.op_name;
    let node_def = match node_definitions.node_def(op_name) {
        Some(d) => d,
        None => {
            proof {
                lemma_frame_refl(g, nid, *ctx);
                lemma_reaches_self(g, nid);
                assert(reaches(g, nid, nid) && g.nodes@[nid].op_name@ == op_name@);
            }
            return Err(GraphError::UnknownOperation { op_name: op_name.clone() });
        },
    };

    // Resolve the declared inputs in order, running producers first.
    let mut input_map = ValueMap::new();
    let n_inputs = node.inputs.len();
    let mut k: usize = 0;
    proof {
        lemma_frame_refl(g, nid, *ctx);
    }
    while k < n_inputs
        invariant
            k <= n_inputs,
            evaln_frame(g, nid, *old(ctx), *ctx),
            cache_closed(g, ctx.cache()),
            ctx.cache()[nid] is None,
            forall|kk: int|
                0 <= kk < k as int ==> match (#[trigger] g.nodes@[nid].inputs@[kk]).kind {
                    DependencyKind::Connection { node, .. } => ctx.cache()[node.0 as int] is Some,
                    DependencyKind::External { .. } => true,
                },
            !gizmos_rewriting(old(ctx).cfg()) ==> {
                &&& input_map@ == input_map_upto(g, nid, ctx.cache(), p0, k as int)
                &&& forall|kk: int|
                    0 <= kk < k as int ==> resolve_input(
                        g,
                        nid,
                        ctx.cache(),
                        p0,
                        #[trigger] g.nodes@[nid].inputs@[kk],
                    ) is Some
            },
        decreases n_inputs - k,
    {
        let input = &node.inputs[k];
        match &input.kind {
            DependencyKind::Connection { node: producer_ref, param_name } => {
                let producer = *producer_ref;
                proof {
                    assert(g.nodes@[nid].inputs@[k as int] == *input);
                    assert(has_edge(g, nid, producer.0 as int));
                }
                if !ctx.has_cached(producer) {
                    let ghost mid = *ctx;
                    proof {
                        assert(rank@[producer.0 as int] < rank@[nid]);
                    }
                    let rec = run_node(graph, node_definitions, ctx, producer, rank);
                    proof {
                        lemma_frame_compose(g, nid, producer.0 as int, *old(ctx), mid, *ctx);
                        // The node being run cannot have been cached by its
                        // own producers: that would close a cycle.
                        if ctx.cache()[nid] is Some {
                            let j = choose|j: int|
                                0 <= j < ctx.trace().len() && (#[trigger] ctx.trace()[j]).node
                                    == nid;
                            assert(mid.trace() =~= ctx.trace().subrange(
                                0,
                                mid.trace().len() as int,
                            ));
                            if j < mid.trace().len() {
                                assert(mid.trace()[j].node == nid);
                            } else {
                                assert(reaches(g, producer.0 as int, nid));
                                lemma_reaches_rank(g, rank@, producer.0 as int, nid);
                            }
                            assert(false);
                        }
                        if !gizmos_rewriting(old(ctx).cfg()) {
                            lemma_upto_preserved(g, nid, mid.cache(), ctx.cache(), p0, k as int);
                        }
                    }
                    if let Err(e) = rec {
                        proof {
                            lemma_unknown_op_lift(g, e, nid, producer.0 as int);
                        }
                        return Err(e);
                    }
                }
                match ctx.read_output(producer, param_name) {
                    Some(v) => {
                        let ghost before = input_map@;
                        input_map.insert(input.name.clone(), v);
                        proof {
                            if !gizmos_rewriting(old(ctx).cfg()) {
                                assert(resolve_input(g, nid, ctx.cache(), p0, *input) matches Some(
                                    rv,
                                ) && rv == v);
                                assert(input_map@ == input_map_upto(
                                    g,
                                    nid,
                                    ctx.cache(),
                                    p0,
                                    k + 1,
                                ));
                            }
                        }
                    },
                    None => {
                        return Err(
                            GraphError::MissingCachedOutput {
                                node: producer,
                                param_name: param_name.clone(),
                            },
                        );
                    },
                }
            },
            DependencyKind::External { promoted: _ } => {
                let ext = ExternalParameter::new(node_id, input.name.clone());
                proof {
                    assert(g.nodes@[nid].inputs@[k as int] == *input);
                    assert(param_key(ext) == (nid, input.name@));
                }
                match ctx.read_param(&ext) {
                    Some(v) => {
                        input_map.insert(input.name.clone(), v);
                        proof {
                            if !gizmos_rewriting(old(ctx).cfg()) {
                                assert(resolve_input(g, nid, ctx.cache(), p0, *input) matches Some(
                                    rv,
                                ) && rv == v);
                                assert(input_map@ == input_map_upto(
                                    g,
                                    nid,
                                    ctx.cache(),
                                    p0,
                                    k + 1,
                                ));
                            }
                        }
                    },
                    None => {
                        proof {
                            assert(has_external_input(g, nid, input.name@));
                        }
                        return Err(
                            GraphError::MissingExternalParameter {
                                node_id,
                                param_name: input.name.clone(),
                            },
                        );
                    },
                }
            },
        }
        k = k + 1;
    }
    proof {
        if !gizmos_rewriting(old(ctx).cfg()) {
            assert(input_map@ == node_input_map(g, nid, ctx.cache(), p0));
            assert(inputs_all_resolved(g, nid, ctx.cache(), p0));
        }
    }

    // Let the target's pre-hook rewrite the inputs when a prior round's
    // gizmos were supplied.
    let mut op_inputs = input_map;
    if ctx.gizmos_enabled && node_id == ctx.target_node && node_def.has_gizmo {
        let gizmos_in_opt: Option<Vec<BlackjackGizmo>> = match &ctx.gizmo_config {
            GizmoConfig::RunGizmosInOut(gizmos_in) => Some(gizmos_in.clone()),
            _ => None,
        };
        if let Some(gizmos_in) = gizmos_in_opt {
            let hooked = node_definitions.pre_gizmo(
                op_name,
                op_inputs,
                &gizmos_in,
                &mut ctx.external_param_values,
            );
            match hooked {
                Ok(m) => {
                    op_inputs = m;
                },
                Err(f) => {
                    return Err(graph_error_of(op_name, f));
                },
            }
        }
    }

    // Invoke the operation itself and cache what it produced.
    let ghost sent_inputs = op_inputs@;
    let outputs = match node_definitions.call_op(op_name, op_inputs) {
        Ok(o) => o,
        Err(f) => {
            return Err(graph_error_of(op_name, f));
        },
    };
    let ghost mid = *ctx;
    ctx.store_result(node_id, outputs.dup(), Ghost(sent_inputs));
    proof {
        assert(mid.trace() =~= ctx.trace().subrange(0, mid.trace().len() as int));
        assert forall|i: int| 0 <= i < mid.trace().len() implies (#[trigger] mid.trace()[i]).node
            != nid by {
            if mid.trace()[i].node == nid {
                assert(mid.cache()[nid] is Some);
            }
        }
        assert forall|i: int, j: int| 0 <= i < j < ctx.trace().len() implies (
        #[trigger] ctx.trace()[i]).node != (#[trigger] ctx.trace()[j]).node by {
            if j == ctx.trace().len() - 1 {
                assert(ctx.trace()[i] == mid.trace()[i]);
                assert(ctx.trace()[j].node == nid);
            } else {
                assert(ctx.trace()[i] == mid.trace()[i] && ctx.trace()[j] == mid.trace()[j]);
            }
        }
        assert forall|i: int| 0 <= i < ctx.trace().len() implies {
            let nd = (#[trigger] ctx.trace()[i]).node;
            &&& 0 <= nd < g.nodes@.len()
            &&& ctx.cache()[nd] is Some
        } by {
            if i == ctx.trace().len() - 1 {
                assert(ctx.trace()[i].node == nid);
            } else {
                assert(ctx.trace()[i] == mid.trace()[i]);
                assert(mid.cache()[ctx.trace()[i].node] is Some);
            }
        }
        assert forall|nd: int|
            0 <= nd < g.nodes@.len() && (#[trigger] ctx.cache()[nd]) is Some implies exists|i: int|
            0 <= i < ctx.trace().len() && (#[trigger] ctx.trace()[i]).node == nd by {
            if nd == nid {
                assert(ctx.trace()[ctx.trace().len() - 1].node == nd);
            } else {
                assert(mid.cache()[nd] is Some);
                let i = choose|i: int|
                    0 <= i < mid.trace().len() && (#[trigger] mid.trace()[i]).node == nd;
                assert(ctx.trace()[i].node == nd);
            }
        }
        assert(ctx.wf(g));
        assert forall|i: int, k2: int|
            0 <= i < g.nodes@.len() && ctx.cache()[i] is Some && 0 <= k2
                < g.nodes@[i].inputs@.len() implies match (#[trigger] g.nodes@[i].inputs@[k2]).kind {
            DependencyKind::Connection { node, .. } => ctx.cache()[node.0 as int] is Some,
            DependencyKind::External { .. } => true,
        } by {
            if i != nid {
                assert(mid.cache()[i] is Some);
            }
            match g.nodes@[i].inputs@[k2].kind {
                DependencyKind::Connection { node, .. } => {
                    assert(mid.cache()[node.0 as int] is Some);
                },
                DependencyKind::External { .. } => {},
            }
        }
        assert(cache_closed(g, ctx.cache()));
        lemma_reaches_self(g, nid);
        assert(old(ctx).trace().is_prefix_of(mid.trace()));
        lemma_prefix_trans(old(ctx).trace(), mid.trace(), ctx.trace());
        if !gizmos_rewriting(old(ctx).cfg()) {
            assert(cache_preserved(mid.cache(), ctx.cache()));
            assert forall|j: int|
                old(ctx).trace().len() <= j < ctx.trace().len() implies good_record(
                g,
                #[trigger] ctx.trace()[j],
                ctx.cache(),
                p0,
            ) by {
                let rec = ctx.trace()[j];
                if j < mid.trace().len() {
                    assert(rec == mid.trace()[j]);
                    assert(good_record(g, rec, mid.cache(), p0));
                    lemma_record_preserved(g, rec, mid.cache(), ctx.cache(), p0);
                } else {
                    assert(rec == ctx.trace().last());
                    assert(rec.inputs == input_map_upto(g, nid, mid.cache(), p0, n_inputs as int));
                    lemma_record_preserved(
                        g,
                        OpInvocation { node: nid, inputs: rec.inputs },
                        mid.cache(),
                        ctx.cache(),
                        p0,
                    );
                }
            }
        }
        assert(evaln_frame(g, nid, *old(ctx), *ctx));
    }

    // Derive the target's new gizmos from the outputs it just produced; they
    // replace the accumulator — a pass has exactly one target.
    if ctx.gizmos_enabled && node_id == ctx.target_node && node_def.has_gizmo {
        match node_definitions.post_gizmo(op_name, &outputs) {
            Ok(gz) => {
                ctx.gizmo_outputs = gz;
                return Ok(());
            },
            Err(f) => {
                return Err(graph_error_of(op_name, f));
            },
        }
    }
    Ok(())
}

/// The externally visible form of the target's declared return output.
#[derive(Clone, Debug, PartialEq, Eq)]
pub struct RenderableThing {
    pub value: BlackjackValue,
}

impl RenderableThing {
    pub fn from_value(value: BlackjackValue) -> (r: Self)
        ensures
            r.value == value,
    {
        RenderableThing { value }
    }
}

/// Reads the declared return output out of the target's output mapping.
/// With no declared name the renderable is absent — a valid outcome, for
/// targets that exist only for their gizmo side effects. With a declared
/// name the renderable is exactly the named value, whatever else the
/// mapping holds, and a name the mapping lacks aborts the pass.
pub fn extract_renderable(outputs: &ValueMap, return_value: &Option<String>) -> (r: Result<
    Option<RenderableThing>,
    GraphError,
>)
    ensures
        match *return_value {
            None => r matches Ok(o) && o is None,
            Some(n) => if outputs@.contains_key(n@) {
                r matches Ok(o) && (o matches Some(rt) && rt.value == outputs@[n@])
            } else {
                r matches Err(e) && (e matches GraphError::MissingReturnOutput { param_name }
                    && param_name@ == n@)
            },
        },
{
    match return_value {
        None => Ok(None),
        Some(name) => match outputs.get(name) {
            Some(v) => Ok(Some(RenderableThing::from_value(v.dup()))),
            None => Err(GraphError::MissingReturnOutput { param_name: name.clone() }),
        },
    }
}

/// What one evaluation pass hands back: the optional renderable extracted
/// from the target's declared return output, the updated gizmos (present
/// exactly when gizmos were enabled), and the external parameter store,
/// returned by value to the caller. The two ghost fields publish the pass's
/// invocation trace and final output cache, which the contracts of
/// `run_graph` speak about.
pub struct ProgramResult {
    pub renderable: Option<RenderableThing>,
    pub updated_gizmos: Option<Vec<BlackjackGizmo>>,
    pub updated_values: ExternalParameterValues,
    pub pass_trace: Ghost<Seq<OpInvocation>>,
    pub pass_cache: Ghost<Seq<Option<ValueMap>>>,
}

/// The entry point: one evaluation pass rooted at `target_node`.
///
/// On success the result's ghost trace and cache witness, for every
/// registry, that:
/// - no node's operation was invoked twice, and the cache holds exactly the
///   invoked nodes' outputs (memoization);
/// - only nodes the target transitively depends on were invoked
///   (independence of unrelated nodes);
/// - the renderable is present exactly when the target declares a return
///   output, and then equals the declared entry of the target's cached
///   outputs;
/// - gizmos come back exactly when the configuration enabled them;
/// - unless a pre-hook could rewrite state, the parameter store is returned
///   untouched and every operation received exactly its resolved inputs.
///
/// On failure the pass aborted at the first error; a reported missing
/// external parameter names a node that really declares that input and,
/// unless a pre-hook could have written the store, a key the given store
/// really lacks.
pub fn run_graph<N: NodeDefinitions>(
    graph: &BjkGraph,
    target_node: BjkNodeId,
    external_param_values: ExternalParameterValues,
    node_definitions: &N,
    gizmo_config: GizmoConfig,
) -> (r: Result<ProgramResult, GraphError>)
    requires
        graph.wf(),
        acyclic(*graph),
        (target_node.0 as int) < graph.nodes@.len(),
    ensures
        r matches Ok(pr) ==> {
            &&& pr.pass_cache@.len() == graph.nodes@.len()
            &&& forall|i: int, j: int|
                0 <= i < j < pr.pass_trace@.len() ==> (#[trigger] pr.pass_trace@[i]).node != (
                #[trigger] pr.pass_trace@[j]).node
            &&& forall|j: int|
                0 <= j < pr.pass_trace@.len() ==> {
                    let nd = (#[trigger] pr.pass_trace@[j]).node;
                    &&& 0 <= nd < graph.nodes@.len()
                    &&& pr.pass_cache@[nd] is Some
                    &&& reaches(*graph, target_node.0 as int, nd)
                }
            &&& forall|nd: int|
                0 <= nd < graph.nodes@.len() && (#[trigger] pr.pass_cache@[nd]) is Some
                    ==> exists|j: int|
                    0 <= j < pr.pass_trace@.len() && (#[trigger] pr.pass_trace@[j]).node == nd
            &&& pr.pass_cache@[target_node.0 as int] is Some
            &&& forall|nd: int|
                0 <= nd < graph.nodes@.len() && reaches(*graph, target_node.0 as int, nd) ==> (
                #[trigger] pr.pass_cache@[nd]) is Some
            &&& (graph.nodes@[target_node.0 as int].return_value is None <==> pr.renderable
                is None)
            &&& (graph.nodes@[target_node.0 as int].return_value matches Some(n) ==> {
                &&& cache_entry(pr.pass_cache@, target_node.0 as int).contains_key(n@)
                &&& pr.renderable matches Some(rt) && rt.value == cache_entry(
                    pr.pass_cache@,
                    target_node.0 as int,
                )[n@]
            })
            &&& (pr.updated_gizmos is Some <==> gizmos_enabling(gizmo_config))
            &&& (!gizmos_rewriting(gizmo_config) ==> pr.updated_values@
                == external_param_values@)
            &&& (!gizmos_rewriting(gizmo_config) ==> forall|j: int|
                0 <= j < pr.pass_trace@.len() ==> good_record(
                    *graph,
                    #[trigger] pr.pass_trace@[j],
                    pr.pass_cache@,
                    external_param_values@,
                ))
        },
        r matches Err(e) ==> (e matches GraphError::MissingExternalParameter {
            node_id: n,
            param_name: p,
        } ==> {
            &&& (n.0 as int) < graph.nodes@.len()
            &&& has_external_input(*graph, n.0 as int, p@)
            &&& (!gizmos_rewriting(gizmo_config) ==> !external_param_values@.contains_key(
                (n.0 as int, p@),
            ))
        }),
        r matches Err(e) ==> unknown_op_faithful(*graph, e, target_node.0 as int),
{
    let gizmos_enabled = matches!(
        &gizmo_config,
        GizmoConfig::RinGizmoOut | GizmoConfig::RunGizmosInOut(_)
    );
    let mut ctx = InterpreterContext::new(
        graph.nodes.len(),
        target_node,
        external_param_values,
        gizmo_config,
    );
    let ghost rank_seq = choose|rk: Seq<nat>| valid_rank(*graph, rk);

    // Ensure the outputs cache is populated at the target.
    match run_node(graph, node_definitions, &mut ctx, target_node, Ghost(rank_seq)) {
        Ok(()) => {},
        Err(e) => {
            return Err(e);
        },
    }

    let node = &graph.nodes[target_node.0];
    let renderable = match extract_renderable(ctx.cached_output(target_node), &node.return_value) {
        Ok(o) => o,
        Err(e) => {
            return Err(e);
        },
    };

    let ghost cf = ctx;
    proof {
        assert forall|nd: int|
            0 <= nd < graph.nodes@.len() && reaches(*graph, target_node.0 as int, nd) implies (
        #[trigger] cf.cache()[nd]) is Some by {
            lemma_closed_cache_reaches(*graph, cf.cache(), target_node.0 as int, nd);
        }
    }
    let InterpreterContext { external_param_values: updated_values, gizmo_outputs, .. } = ctx;
    Ok(
        ProgramResult {
            renderable,
            updated_gizmos: if gizmos_enabled {
                Some(gizmo_outputs)
            } else {
                None
            },
            updated_values,
            pass_trace: Ghost(cf.trace()),
            pass_cache: Ghost(cf.cache()),
        },
    )
}

} // verus!
