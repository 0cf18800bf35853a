//! The workflow as a directed graph: one node per state, and edges for step claims,
//! outcome routes, implicit phase links and wildcard transitions.
pub mod validate;
pub mod profile;
pub mod render;

use vstd::prelude::*;
use indexmap::IndexMap;
use petgraph::graph::{DiGraph, NodeIndex};
use petgraph::{Directed, Direction};
use petgraph::visit::EdgeRef;
use crate::ir::{state_name, strings_view, IrV, StateDef, StepDef, PhaseDef, WorkflowIR};
use crate::prompt::PromptFile;
use crate::maps::{
    has_key, index_of, map_get, map_insert, map_keys, key_index, keys_distinct, lemma_first_index,
    lemma_key_index_unique, node_entries, nodes_new, nodes_insert, nodes_get, outcome_entries,
    outcomes_at, outcomes_len, phase_entries, phases_at, phases_len, prompt_entries, prompts_at,
    prompts_get, prompts_len, state_entries, states_at, states_get, states_len, step_entries,
    steps_at, steps_get, steps_len, view_entries,
};

verus! {

#[verifier::external_type_specification]
#[verifier::external_body]
#[verifier::reject_recursive_types(N)]
#[verifier::reject_recursive_types(E)]
#[verifier::reject_recursive_types(Ty)]
#[verifier::reject_recursive_types(Ix)]
pub struct ExGraph<N, E, Ty, Ix>(petgraph::graph::Graph<N, E, Ty, Ix>);

#[verifier::external_type_specification]
#[verifier::external_body]
pub struct ExDirected(Directed);

/// Edge types in the workflow graph.
#[derive(Debug)]
pub enum EdgeKind {
    /// Step transition: queue -> action (on claim).
    Claim { step: String },
    /// Outcome routing: action -> target state.
    Outcome { outcome: String, is_success: bool },
    /// Phase link: produce action -> gate queue (implicit).
    PhaseLink { phase: String },
    /// Wildcard: any state -> terminal/escape.
    Wildcard,
}

/// An edge's kind as a value.
pub enum EdgeLabel {
    Claim(Seq<char>),
    Outcome(Seq<char>, bool),
    PhaseLink(Seq<char>),
    Wildcard,
}

impl View for EdgeKind {
    type V = EdgeLabel;

    open spec fn view(&self) -> EdgeLabel {
        match *self {
            EdgeKind::Claim { step } => EdgeLabel::Claim(step@),
            EdgeKind::Outcome { outcome, is_success } => EdgeLabel::Outcome(outcome@, is_success),
            EdgeKind::PhaseLink { phase } => EdgeLabel::PhaseLink(phase@),
            EdgeKind::Wildcard => EdgeLabel::Wildcard,
        }
    }
}

/// An edge as a value: source position, target position, kind.
pub type EdgeV = (int, int, EdgeLabel);

/// The node weights of a graph, by position.
pub uninterp spec fn graph_nodes(g: DiGraph<String, EdgeKind>) -> Seq<Seq<char>>;

/// The edges of a graph, by position (the order in which they were added).
pub uninterp spec fn graph_edges(g: DiGraph<String, EdgeKind>) -> Seq<EdgeV>;

/// `Graph::new`: no nodes, no edges.
#[verifier::external_body]
fn graph_new() -> (g: DiGraph<String, EdgeKind>)
    ensures
        graph_nodes(g) == Seq::<Seq<char>>::empty(),
        graph_edges(g) == Seq::<EdgeV>::empty(),
{
    DiGraph::new()
}

/// `Graph::add_node`: appends a node and returns its position. It panics when the graph
/// already holds as many nodes as its `u32` index can count.
#[verifier::external_body]
fn graph_add_node(g: &mut DiGraph<String, EdgeKind>, weight: String) -> (i: usize)
    requires
        graph_nodes(*old(g)).len() < u32::MAX,
    ensures
        graph_nodes(*final(g)) == graph_nodes(*old(g)).push(weight@),
        graph_edges(*final(g)) == graph_edges(*old(g)),
        i == graph_nodes(*old(g)).len(),
{
    g.add_node(weight).index()
}

/// `Graph::add_edge`: appends an edge from `a` to `b`. It panics on a position that holds
/// no node and when the edges fill the `u32` index.
#[verifier::external_body]
fn graph_add_edge(g: &mut DiGraph<String, EdgeKind>, a: usize, b: usize, weight: EdgeKind)
    requires
        a < graph_nodes(*old(g)).len(),
        b < graph_nodes(*old(g)).len(),
        graph_edges(*old(g)).len() < u32::MAX,
    ensures
        graph_nodes(*final(g)) == graph_nodes(*old(g)),
        graph_edges(*final(g)) == graph_edges(*old(g)).push((a as int, b as int, weight@)),
{
    g.add_edge(NodeIndex::new(a), NodeIndex::new(b), weight);
}

/// `Graph::node_count`.
#[verifier::external_body]
pub fn graph_node_count(g: &DiGraph<String, EdgeKind>) -> (n: usize)
    ensures
        n == graph_nodes(*g).len(),
{
    g.node_count()
}

/// `Graph::edge_count`.
#[verifier::external_body]
pub fn graph_edge_count(g: &DiGraph<String, EdgeKind>) -> (n: usize)
    ensures
        n == graph_edges(*g).len(),
{
    g.edge_count()
}

/// The weight of the node at position `i` (`graph[i]`).
#[verifier::external_body]
pub(crate) fn graph_node<'a>(g: &'a DiGraph<String, EdgeKind>, i: usize) -> (w: &'a String)
    requires
        i < graph_nodes(*g).len(),
    ensures
        w@ == graph_nodes(*g)[i as int],
{
    &g[NodeIndex::new(i)]
}

/// The edge at position `k`: its endpoints (`Graph::edge_endpoints`) and weight (`graph[k]`).
/// A graph to which nodes are only added keeps every edge between existing nodes.
#[verifier::external_body]
pub(crate) fn graph_edge<'a>(g: &'a DiGraph<String, EdgeKind>, k: usize) -> (r: (usize, usize, &'a EdgeKind))
    requires
        k < graph_edges(*g).len(),
    ensures
        (r.0 as int, r.1 as int, r.2@) == graph_edges(*g)[k as int],
        r.0 < graph_nodes(*g).len(),
        r.1 < graph_nodes(*g).len(),
{
    let e = &g.raw_edges()[k];
    (e.source().index(), e.target().index(), &e.weight)
}

/// The number of edges into `i`: those whose target is `i`.
pub open spec fn in_degree(edges: Seq<EdgeV>, i: int) -> nat {
    edges.filter(|e: EdgeV| e.1 == i).len()
}

/// `Graph::edges_directed(i, Incoming).count()`.
#[verifier::external_body]
pub(crate) fn graph_incoming_count(g: &DiGraph<String, EdgeKind>, i: usize) -> (n: usize)
    requires
        i < graph_nodes(*g).len(),
    ensures
        n == in_degree(graph_edges(*g), i as int),
{
    g.edges_directed(NodeIndex::new(i), Direction::Incoming).count()
}

/// The positions of the edges out of `i` among the first `n`, newest first (the order in
/// which petgraph keeps a node's outgoing list).
pub open spec fn out_edges(edges: Seq<EdgeV>, i: int, n: int) -> Seq<int>
    decreases n,
{
    if n <= 0 {
        Seq::empty()
    } else if edges[n - 1].0 == i {
        seq![n - 1] + out_edges(edges, i, n - 1)
    } else {
        out_edges(edges, i, n - 1)
    }
}

/// `Graph::edges(i)`: the positions of the edges out of `i`, newest first.
#[verifier::external_body]
pub(crate) fn graph_outgoing(g: &DiGraph<String, EdgeKind>, i: usize) -> (r: Vec<usize>)
    requires
        i < graph_nodes(*g).len(),
    ensures
        r@.map_values(|k: usize| k as int) == out_edges(graph_edges(*g), i as int, graph_edges(*g).len() as int),
{
    g.edges(NodeIndex::new(i)).map(|e| e.id().index()).collect()
}

/// An edge leads from `a` to `b`.
pub open spec fn has_edge(edges: Seq<EdgeV>, a: int, b: int) -> bool {
    exists|k: int| 0 <= k < edges.len() && (#[trigger] edges[k]).0 == a && edges[k].1 == b
}

/// `p` is a walk along edges from `a` to `b`.
pub open spec fn is_walk(edges: Seq<EdgeV>, p: Seq<int>, a: int, b: int) -> bool {
    &&& p.len() >= 1
    &&& p[0] == a
    &&& p[p.len() - 1] == b
    &&& forall|i: int| 0 <= i < p.len() - 1 ==> has_edge(edges, #[trigger] p[i], p[i + 1])
}

/// `b` can be reached from `a` (in no steps when they are the same node).
pub open spec fn reaches(edges: Seq<EdgeV>, a: int, b: int) -> bool {
    exists|p: Seq<int>| #[trigger] is_walk(edges, p, a, b)
}

/// `petgraph::algo::has_path_connecting`: a depth-first search from `a` that looks for `b`.
#[verifier::external_body]
pub(crate) fn graph_has_path(g: &DiGraph<String, EdgeKind>, a: usize, b: usize) -> (r: bool)
    requires
        a < graph_nodes(*g).len(),
        b < graph_nodes(*g).len(),
    ensures
        r == reaches(graph_edges(*g), a as int, b as int),
{
    petgraph::algo::has_path_connecting(g, NodeIndex::new(a), NodeIndex::new(b), None)
}


/// The position of the state named `n` among the states.
pub open spec fn node_of(s: Seq<(Seq<char>, StateDef)>, n: Seq<char>) -> Option<int> {
    if has_key(s, n) {
        Some(index_of(s, n))
    } else {
        None
    }
}

/// The claim edge of a step: from its queue to its action, where both are states.
pub open spec fn claim_edge(s: Seq<(Seq<char>, StateDef)>, step: StepDef) -> Seq<EdgeV> {
    match (node_of(s, step.queue@), node_of(s, step.action@)) {
        (Some(q), Some(a)) => seq![(q, a, EdgeLabel::Claim(step.name@))],
        _ => Seq::empty(),
    }
}

/// The claim edges of the first `n` steps.
pub open spec fn claim_edges(s: Seq<(Seq<char>, StateDef)>, t: Seq<(Seq<char>, StepDef)>, n: int) -> Seq<EdgeV>
    decreases n,
{
    if n <= 0 {
        Seq::empty()
    } else {
        claim_edges(s, t, n - 1) + claim_edge(s, t[n - 1].1)
    }
}

/// An action state that runs the prompt named `pn`.
pub open spec fn uses_prompt(st: StateDef, pn: Seq<char>) -> bool {
    st matches StateDef::Action { prompt_name, .. } && prompt_name@ == pn
}

/// The position of the first of the first `n` states that runs the prompt `pn`.
pub open spec fn prompt_user(s: Seq<(Seq<char>, StateDef)>, pn: Seq<char>, n: int) -> Option<int>
    decreases n,
{
    if n <= 0 {
        None
    } else {
        match prompt_user(s, pn, n - 1) {
            Some(i) => Some(i),
            None => if uses_prompt(s[n - 1].1, pn) {
                Some(n - 1)
            } else {
                None
            },
        }
    }
}

/// The outcome edges from node `from` for the first `n` routes of `o` (those whose target
/// is a state).
pub open spec fn route_edges(
    s: Seq<(Seq<char>, StateDef)>,
    from: int,
    o: Seq<(Seq<char>, String)>,
    ok: bool,
    n: int,
) -> Seq<EdgeV>
    decreases n,
{
    if n <= 0 {
        Seq::empty()
    } else {
        route_edges(s, from, o, ok, n - 1) + match node_of(s, o[n - 1].1@) {
            Some(t) => seq![(from, t, EdgeLabel::Outcome(o[n - 1].0, ok))],
            None => Seq::empty(),
        }
    }
}

/// The outcome edges of the prompt `pn`: from the first action that runs it, its success
/// routes and then its failure routes.
pub open spec fn prompt_edges(s: Seq<(Seq<char>, StateDef)>, pn: Seq<char>, p: PromptFile) -> Seq<EdgeV> {
    match prompt_user(s, pn, s.len() as int) {
        Some(i) => match node_of(s, state_name(s[i].1)) {
            Some(a) => route_edges(s, a, outcome_entries(p.success), true, outcome_entries(p.success).len() as int)
                + route_edges(s, a, outcome_entries(p.failure), false, outcome_entries(p.failure).len() as int),
            None => Seq::empty(),
        },
        None => Seq::empty(),
    }
}

/// The outcome edges of the first `n` prompts.
pub open spec fn outcome_edges(s: Seq<(Seq<char>, StateDef)>, p: Seq<(Seq<char>, PromptFile)>, n: int) -> Seq<EdgeV>
    decreases n,
{
    if n <= 0 {
        Seq::empty()
    } else {
        outcome_edges(s, p, n - 1) + prompt_edges(s, p[n - 1].0, p[n - 1].1)
    }
}

/// Some route of `o` targets `target`.
pub open spec fn routes_to(o: Seq<(Seq<char>, String)>, target: Seq<char>) -> bool {
    exists|i: int| 0 <= i < o.len() && (#[trigger] o[i]).1@ == target
}

/// The implicit link of a phase: from its produce action to its gate queue, where the
/// produce action's prompt has no success route to that queue.
pub open spec fn phase_link(
    s: Seq<(Seq<char>, StateDef)>,
    t: Seq<(Seq<char>, StepDef)>,
    p: Seq<(Seq<char>, PromptFile)>,
    h: PhaseDef,
) -> Seq<EdgeV> {
    match (map_get(t, h.produce_step@), h.gate_step) {
        (Some(ps), Some(g)) => match map_get(t, g@) {
            Some(gs) => match map_get(s, ps.action@) {
                Some(StateDef::Action { prompt_name, .. }) => match map_get(p, prompt_name@) {
                    Some(prompt) => if routes_to(outcome_entries(prompt.success), gs.queue@) {
                        Seq::empty()
                    } else {
                        match (node_of(s, ps.action@), node_of(s, gs.queue@)) {
                            (Some(a), Some(q)) => seq![(a, q, EdgeLabel::PhaseLink(h.name@))],
                            _ => Seq::empty(),
                        }
                    },
                    None => Seq::empty(),
                },
                _ => Seq::empty(),
            },
            None => Seq::empty(),
        },
        _ => Seq::empty(),
    }
}

/// The implicit links of the first `n` phases.
pub open spec fn phase_links(
    s: Seq<(Seq<char>, StateDef)>,
    t: Seq<(Seq<char>, StepDef)>,
    p: Seq<(Seq<char>, PromptFile)>,
    h: Seq<(Seq<char>, PhaseDef)>,
    n: int,
) -> Seq<EdgeV>
    decreases n,
{
    if n <= 0 {
        Seq::empty()
    } else {
        phase_links(s, t, p, h, n - 1) + phase_link(s, t, p, h[n - 1].1)
    }
}

/// The wildcard edges into node `ti` (the state `target`) from the first `n` states that
/// are neither terminal nor the target itself (escape states included: they are not
/// terminal).
pub open spec fn wildcard_sources(s: Seq<(Seq<char>, StateDef)>, target: Seq<char>, ti: int, n: int) -> Seq<EdgeV>
    decreases n,
{
    if n <= 0 {
        Seq::empty()
    } else {
        wildcard_sources(s, target, ti, n - 1) + if s[n - 1].1 is Terminal || s[n - 1].0 == target {
            Seq::empty()
        } else {
            match node_of(s, s[n - 1].0) {
                Some(i) => seq![(i, ti, EdgeLabel::Wildcard)],
                None => Seq::empty(),
            }
        }
    }
}

/// The wildcard edges of the first `n` wildcard targets (those that are states).
pub open spec fn wildcard_edges(s: Seq<(Seq<char>, StateDef)>, w: Seq<Seq<char>>, n: int) -> Seq<EdgeV>
    decreases n,
{
    if n <= 0 {
        Seq::empty()
    } else {
        wildcard_edges(s, w, n - 1) + match node_of(s, w[n - 1]) {
            Some(ti) => wildcard_sources(s, w[n - 1], ti, s.len() as int),
            None => Seq::empty(),
        }
    }
}

/// The escape states among the first `n` states that are not already in `w`, in order:
/// the implicit wildcard targets.
pub open spec fn escape_targets(s: Seq<(Seq<char>, StateDef)>, w: Seq<Seq<char>>, n: int) -> Seq<Seq<char>>
    decreases n,
{
    if n <= 0 {
        Seq::empty()
    } else {
        escape_targets(s, w, n - 1) + if s[n - 1].1 is Escape && !w.contains(s[n - 1].0) {
            seq![s[n - 1].0]
        } else {
            Seq::<Seq<char>>::empty()
        }
    }
}

/// The targets of the wildcard transitions: the declared ones, then every escape state
/// not declared (an escape state is reachable from any state by a wildcard transition).
pub open spec fn wildcard_target_names(ir: WorkflowIR) -> Seq<Seq<char>> {
    let s = state_entries(ir.states);
    let w = strings_view(ir.wildcard_targets@);
    w + escape_targets(s, w, s.len() as int)
}

/// Every edge of a workflow's graph, in the order in which it is built: step claims, then
/// outcome routes, then implicit phase links, then wildcard transitions.
pub open spec fn workflow_edges(ir: WorkflowIR) -> Seq<EdgeV> {
    let s = state_entries(ir.states);
    let t = step_entries(ir.steps);
    let p = prompt_entries(ir.prompts);
    let h = phase_entries(ir.phases);
    let wt = wildcard_target_names(ir);
    claim_edges(s, t, t.len() as int) + outcome_edges(s, p, p.len() as int) + phase_links(s, t, p, h, h.len() as int)
        + wildcard_edges(s, wt, wt.len() as int)
}

/// The map from state names to node positions: each state at its own position.
pub open spec fn node_table(s: Seq<(Seq<char>, StateDef)>) -> Seq<(Seq<char>, usize)> {
    Seq::new(s.len(), |i: int| (s[i].0, i as usize))
}

/// A graph that the machine's `u32` node and edge indices can hold.
pub open spec fn graph_fits(ir: WorkflowIR) -> bool {
    &&& state_entries(ir.states).len() < u32::MAX
    &&& workflow_edges(ir).len() < u32::MAX
}

pub proof fn lemma_node_table(s: Seq<(Seq<char>, StateDef)>, k: Seq<char>)
    ensures
        map_get(node_table(s), k) == (match node_of(s, k) {
            Some(i) => Some(i as usize),
            None => None,
        }),
        node_of(s, k) matches Some(i) ==> 0 <= i < s.len() && s[i].0 == k,
{
    let nt = node_table(s);
    if has_key(s, k) {
        let i = choose|i: int| 0 <= i < s.len() && (#[trigger] s[i]).0 == k;
        assert(nt[i].0 == k);
        lemma_first_index(s, k);
        lemma_first_index(nt, k);
        let a = index_of(s, k);
        let b = index_of(nt, k);
        assert(key_index(nt, k, a)) by {
            assert forall|j: int| 0 <= j < a implies (#[trigger] nt[j]).0 != k by {
                assert(nt[j].0 == s[j].0);
            }
        }
        lemma_key_index_unique(nt, k, a, b);
    } else {
        assert forall|i: int| 0 <= i < nt.len() implies (#[trigger] nt[i]).0 != k by {
            assert(nt[i].0 == s[i].0);
        }
    }
}

proof fn lemma_claims_grow(s: Seq<(Seq<char>, StateDef)>, t: Seq<(Seq<char>, StepDef)>, m: int, n: int)
    requires
        0 <= m <= n,
    ensures
        claim_edges(s, t, m).len() <= claim_edges(s, t, n).len(),
    decreases n,
{
    if m < n {
        lemma_claims_grow(s, t, m, n - 1);
    }
}

proof fn lemma_routes_grow(s: Seq<(Seq<char>, StateDef)>, from: int, o: Seq<(Seq<char>, String)>, ok: bool, m: int, n: int)
    requires
        0 <= m <= n,
    ensures
        route_edges(s, from, o, ok, m).len() <= route_edges(s, from, o, ok, n).len(),
    decreases n,
{
    if m < n {
        lemma_routes_grow(s, from, o, ok, m, n - 1);
    }
}

proof fn lemma_outcomes_grow(s: Seq<(Seq<char>, StateDef)>, p: Seq<(Seq<char>, PromptFile)>, m: int, n: int)
    requires
        0 <= m <= n,
    ensures
        outcome_edges(s, p, m).len() <= outcome_edges(s, p, n).len(),
    decreases n,
{
    if m < n {
        lemma_outcomes_grow(s, p, m, n - 1);
    }
}

proof fn lemma_links_grow(
    s: Seq<(Seq<char>, StateDef)>,
    t: Seq<(Seq<char>, StepDef)>,
    p: Seq<(Seq<char>, PromptFile)>,
    h: Seq<(Seq<char>, PhaseDef)>,
    m: int,
    n: int,
)
    requires
        0 <= m <= n,
    ensures
        phase_links(s, t, p, h, m).len() <= phase_links(s, t, p, h, n).len(),
    decreases n,
{
    if m < n {
        lemma_links_grow(s, t, p, h, m, n - 1);
    }
}

proof fn lemma_sources_grow(s: Seq<(Seq<char>, StateDef)>, target: Seq<char>, ti: int, m: int, n: int)
    requires
        0 <= m <= n,
    ensures
        wildcard_sources(s, target, ti, m).len() <= wildcard_sources(s, target, ti, n).len(),
    decreases n,
{
    if m < n {
        lemma_sources_grow(s, target, ti, m, n - 1);
    }
}

proof fn lemma_wildcards_grow(s: Seq<(Seq<char>, StateDef)>, w: Seq<Seq<char>>, m: int, n: int)
    requires
        0 <= m <= n,
    ensures
        wildcard_edges(s, w, m).len() <= wildcard_edges(s, w, n).len(),
    decreases n,
{
    if m < n {
        lemma_wildcards_grow(s, w, m, n - 1);
    }
}

proof fn lemma_prompt_user_stable(s: Seq<(Seq<char>, StateDef)>, pn: Seq<char>, m: int, n: int)
    requires
        0 <= m <= n,
        prompt_user(s, pn, m) is Some,
    ensures
        prompt_user(s, pn, n) == prompt_user(s, pn, m),
    decreases n,
{
    if m < n {
        lemma_prompt_user_stable(s, pn, m, n - 1);
    }
}

/// A built workflow graph.
#[derive(Debug)]
pub struct WorkflowGraph {
    pub graph: DiGraph<String, EdgeKind>,
    /// The node position of each state, by name.
    pub node_indices: IndexMap<String, usize>,
}

impl WorkflowGraph {
    /// The node position of the state named `name`.
    pub fn node_index(&self, name: &str) -> (r: Option<usize>)
        ensures
            r == map_get(node_entries(self.node_indices), name@),
    {
        nodes_get(&self.node_indices, name)
    }
}

pub(crate) fn node_lookup(ir: &WorkflowIR, ni: &IndexMap<String, usize>, k: &str) -> (r: Option<usize>)
    requires
        node_entries(*ni) == node_table(state_entries(ir.states)),
        state_entries(ir.states).len() < u32::MAX,
    ensures
        r matches Some(x) ==> node_of(state_entries(ir.states), k@) == Some(x as int) && x < state_entries(ir.states).len(),
        r is None ==> node_of(state_entries(ir.states), k@) is None,
{
    proof {
        lemma_node_table(state_entries(ir.states), k@);
    }
    nodes_get(ni, k)
}

fn add_nodes(ir: &WorkflowIR) -> (r: (DiGraph<String, EdgeKind>, IndexMap<String, usize>))
    requires
        state_entries(ir.states).len() < u32::MAX,
    ensures
        graph_nodes(r.0) == map_keys(state_entries(ir.states)),
        graph_edges(r.0) == Seq::<EdgeV>::empty(),
        node_entries(r.1) == node_table(state_entries(ir.states)),
        keys_distinct(state_entries(ir.states)),
{
    let ghost s = state_entries(ir.states);
    let mut g = graph_new();
    let mut ni = nodes_new();
    let n = states_len(&ir.states);
    for i in 0..n
        invariant
            n == s.len(),
            s == state_entries(ir.states),
            s.len() < u32::MAX,
            graph_nodes(g) == map_keys(s).take(i as int),
            graph_edges(g) == Seq::<EdgeV>::empty(),
            node_entries(ni) == node_table(s).take(i as int),
            forall|a: int, b: int| 0 <= a < b < i ==> (#[trigger] s[a]).0 != (#[trigger] s[b]).0,
    {
        match states_at(&ir.states, i) {
            Some((k, _)) => {
                let ghost before = node_entries(ni);
                let idx = graph_add_node(&mut g, k.clone());
                proof {
                    assert forall|j: int| 0 <= j < before.len() implies (#[trigger] before[j]).0 != k@ by {
                        assert(before[j].0 == s[j].0);
                    }
                }
                nodes_insert(&mut ni, k.clone(), idx);
                proof {
                    assert(node_entries(ni) =~= node_table(s).take(i + 1));
                    assert(graph_nodes(g) =~= map_keys(s).take(i + 1));
                }
            },
            None => {},
        }
    }
    proof {
        assert(graph_nodes(g) =~= map_keys(s));
        assert(node_entries(ni) =~= node_table(s));
    }
    (g, ni)
}

/// The graph holds one node per state, and `ni` finds each.
spec fn nodes_ready(ir: WorkflowIR, g: DiGraph<String, EdgeKind>, ni: IndexMap<String, usize>) -> bool {
    &&& graph_nodes(g) == map_keys(state_entries(ir.states))
    &&& node_entries(ni) == node_table(state_entries(ir.states))
    &&& state_entries(ir.states).len() < u32::MAX
}

fn add_claims(ir: &WorkflowIR, g: &mut DiGraph<String, EdgeKind>, ni: &IndexMap<String, usize>)
    requires
        nodes_ready(*ir, *old(g), *ni),
        graph_edges(*old(g)).len() + claim_edges(state_entries(ir.states), step_entries(ir.steps), step_entries(ir.steps).len() as int).len() < u32::MAX,
    ensures
        graph_nodes(*final(g)) == graph_nodes(*old(g)),
        graph_edges(*final(g)) == graph_edges(*old(g)) + claim_edges(state_entries(ir.states), step_entries(ir.steps), step_entries(ir.steps).len() as int),
{
    let ghost s = state_entries(ir.states);
    let ghost t = step_entries(ir.steps);
    let ghost e0 = graph_edges(*g);
    let n = steps_len(&ir.steps);
    for i in 0..n
        invariant
            n == t.len(),
            s == state_entries(ir.states),
            t == step_entries(ir.steps),
            nodes_ready(*ir, *g, *ni),
            graph_edges(*g) == e0 + claim_edges(s, t, i as int),
            e0.len() + claim_edges(s, t, n as int).len() < u32::MAX,
    {
        proof {
            lemma_claims_grow(s, t, i + 1, n as int);
        }
        match steps_at(&ir.steps, i) {
            Some((_, step)) => {
                let q = node_lookup(ir, ni, step.queue.as_str());
                let a = node_lookup(ir, ni, step.action.as_str());
                match (q, a) {
                    (Some(q), Some(a)) => {
                        graph_add_edge(g, q, a, EdgeKind::Claim { step: step.name.clone() });
                    },
                    _ => {},
                }
            },
            None => {},
        }
        proof {
            assert(graph_edges(*g) =~= e0 + claim_edges(s, t, i + 1));
        }
    }
}

fn add_routes(
    ir: &WorkflowIR,
    g: &mut DiGraph<String, EdgeKind>,
    ni: &IndexMap<String, usize>,
    from: usize,
    o: &IndexMap<String, String>,
    ok: bool,
)
    requires
        nodes_ready(*ir, *old(g), *ni),
        from < state_entries(ir.states).len(),
        graph_edges(*old(g)).len() + route_edges(state_entries(ir.states), from as int, outcome_entries(*o), ok, outcome_entries(*o).len() as int).len() < u32::MAX,
    ensures
        graph_nodes(*final(g)) == graph_nodes(*old(g)),
        graph_edges(*final(g)) == graph_edges(*old(g)) + route_edges(state_entries(ir.states), from as int, outcome_entries(*o), ok, outcome_entries(*o).len() as int),
{
    let ghost s = state_entries(ir.states);
    let ghost oe = outcome_entries(*o);
    let ghost e0 = graph_edges(*g);
    let n = outcomes_len(o);
    for i in 0..n
        invariant
            n == oe.len(),
            s == state_entries(ir.states),
            oe == outcome_entries(*o),
            from < s.len(),
            nodes_ready(*ir, *g, *ni),
            graph_edges(*g) == e0 + route_edges(s, from as int, oe, ok, i as int),
            e0.len() + route_edges(s, from as int, oe, ok, n as int).len() < u32::MAX,
    {
        proof {
            lemma_routes_grow(s, from as int, oe, ok, i + 1, n as int);
        }
        match outcomes_at(o, i) {
            Some((outcome, target)) => {
                match node_lookup(ir, ni, target.as_str()) {
                    Some(t) => {
                        graph_add_edge(g, from, t, EdgeKind::Outcome { outcome: outcome.clone(), is_success: ok });
                    },
                    None => {},
                }
            },
            None => {},
        }
        proof {
            assert(graph_edges(*g) =~= e0 + route_edges(s, from as int, oe, ok, i + 1));
        }
    }
}

/// The position of the first action state that runs the prompt `pn`.
pub(crate) fn find_prompt_user(ir: &WorkflowIR, pn: &String) -> (r: Option<usize>)
    ensures
        r matches Some(i) ==> prompt_user(state_entries(ir.states), pn@, state_entries(ir.states).len() as int) == Some(i as int)
            && i < state_entries(ir.states).len(),
        r is None ==> prompt_user(state_entries(ir.states), pn@, state_entries(ir.states).len() as int) is None,
{
    let ghost s = state_entries(ir.states);
    let n = states_len(&ir.states);
    for j in 0..n
        invariant
            n == s.len(),
            s == state_entries(ir.states),
            prompt_user(s, pn@, j as int) is None,
    {
        match states_at(&ir.states, j) {
            Some((_, StateDef::Action { prompt_name, .. })) => {
                if *prompt_name == *pn {
                    proof {
                        lemma_prompt_user_stable(s, pn@, j + 1, n as int);
                    }
                    return Some(j);
                }
            },
            _ => {},
        }
    }
    None
}

fn add_outcomes(ir: &WorkflowIR, g: &mut DiGraph<String, EdgeKind>, ni: &IndexMap<String, usize>)
    requires
        nodes_ready(*ir, *old(g), *ni),
        graph_edges(*old(g)).len() + outcome_edges(state_entries(ir.states), prompt_entries(ir.prompts), prompt_entries(ir.prompts).len() as int).len() < u32::MAX,
    ensures
        graph_nodes(*final(g)) == graph_nodes(*old(g)),
        graph_edges(*final(g)) == graph_edges(*old(g)) + outcome_edges(state_entries(ir.states), prompt_entries(ir.prompts), prompt_entries(ir.prompts).len() as int),
{
    let ghost s = state_entries(ir.states);
    let ghost p = prompt_entries(ir.prompts);
    let ghost e0 = graph_edges(*g);
    let n = prompts_len(&ir.prompts);
    for i in 0..n
        invariant
            n == p.len(),
            s == state_entries(ir.states),
            p == prompt_entries(ir.prompts),
            nodes_ready(*ir, *g, *ni),
            graph_edges(*g) == e0 + outcome_edges(s, p, i as int),
            e0.len() + outcome_edges(s, p, n as int).len() < u32::MAX,
    {
        proof {
            lemma_outcomes_grow(s, p, i + 1, n as int);
        }
        let ghost e1 = graph_edges(*g);
        match prompts_at(&ir.prompts, i) {
            Some((pn, prompt)) => {
                match find_prompt_user(ir, pn) {
                    Some(u) => {
                        match states_at(&ir.states, u) {
                            Some((_, st)) => {
                                match node_lookup(ir, ni, st.name()) {
                                    Some(a) => {
                                        let ghost so = outcome_entries(prompt.success);
                                        let ghost fo = outcome_entries(prompt.failure);
                                        add_routes(ir, g, ni, a, &prompt.success, true);
                                        add_routes(ir, g, ni, a, &prompt.failure, false);
                                        proof {
                                            assert(graph_edges(*g) =~= e1 + prompt_edges(s, p[i as int].0, p[i as int].1));
                                        }
                                    },
                                    None => {
                                        assert(graph_edges(*g) =~= e1 + prompt_edges(s, p[i as int].0, p[i as int].1));
                                    },
                                }
                            },
                            None => {},
                        }
                    },
                    None => {
                        assert(graph_edges(*g) =~= e1 + prompt_edges(s, p[i as int].0, p[i as int].1));
                    },
                }
            },
            None => {},
        }
        proof {
            assert(graph_edges(*g) =~= e1 + prompt_edges(s, p[i as int].0, p[i as int].1));
            assert(graph_edges(*g) =~= e0 + outcome_edges(s, p, i + 1));
        }
    }
}

/// Whether some route of `o` targets `target`.
fn any_route_to(o: &IndexMap<String, String>, target: &String) -> (b: bool)
    ensures
        b == routes_to(outcome_entries(*o), target@),
{
    let ghost oe = outcome_entries(*o);
    let n = outcomes_len(o);
    for i in 0..n
        invariant
            n == oe.len(),
            oe == outcome_entries(*o),
            forall|j: int| 0 <= j < i ==> (#[trigger] oe[j]).1@ != target@,
    {
        match outcomes_at(o, i) {
            Some((_, t)) => {
                if *t == *target {
                    return true;
                }
            },
            None => {},
        }
    }
    false
}

fn add_phase_links(ir: &WorkflowIR, g: &mut DiGraph<String, EdgeKind>, ni: &IndexMap<String, usize>)
    requires
        nodes_ready(*ir, *old(g), *ni),
        graph_edges(*old(g)).len() + phase_links(
            state_entries(ir.states),
            step_entries(ir.steps),
            prompt_entries(ir.prompts),
            phase_entries(ir.phases),
            phase_entries(ir.phases).len() as int,
        ).len() < u32::MAX,
    ensures
        graph_nodes(*final(g)) == graph_nodes(*old(g)),
        graph_edges(*final(g)) == graph_edges(*old(g)) + phase_links(
            state_entries(ir.states),
            step_entries(ir.steps),
            prompt_entries(ir.prompts),
            phase_entries(ir.phases),
            phase_entries(ir.phases).len() as int,
        ),
{
    let ghost s = state_entries(ir.states);
    let ghost t = step_entries(ir.steps);
    let ghost p = prompt_entries(ir.prompts);
    let ghost h = phase_entries(ir.phases);
    let ghost e0 = graph_edges(*g);
    let n = phases_len(&ir.phases);
    for i in 0..n
        invariant
            n == h.len(),
            s == state_entries(ir.states),
            t == step_entries(ir.steps),
            p == prompt_entries(ir.prompts),
            h == phase_entries(ir.phases),
            nodes_ready(*ir, *g, *ni),
            graph_edges(*g) == e0 + phase_links(s, t, p, h, i as int),
            e0.len() + phase_links(s, t, p, h, n as int).len() < u32::MAX,
    {
        proof {
            lemma_links_grow(s, t, p, h, i + 1, n as int);
        }
        let ghost e1 = graph_edges(*g);
        if let Some((_, phase)) = phases_at(&ir.phases, i) {
            if let (Some(ps), Some(gname)) = (steps_get(&ir.steps, phase.produce_step.as_str()), &phase.gate_step) {
                if let Some(gs) = steps_get(&ir.steps, gname.as_str()) {
                    if let Some(StateDef::Action { prompt_name, .. }) = states_get(&ir.states, ps.action.as_str()) {
                        if let Some(prompt) = prompts_get(&ir.prompts, prompt_name.as_str()) {
                            if !any_route_to(&prompt.success, &gs.queue) {
                                let a = node_lookup(ir, ni, ps.action.as_str());
                                let q = node_lookup(ir, ni, gs.queue.as_str());
                                if let (Some(a), Some(q)) = (a, q) {
                                    graph_add_edge(g, a, q, EdgeKind::PhaseLink { phase: phase.name.clone() });
                                }
                            }
                        }
                    }
                }
            }
        }
        proof {
            assert(graph_edges(*g) =~= e1 + phase_link(s, t, p, h[i as int].1));
            assert(graph_edges(*g) =~= e0 + phase_links(s, t, p, h, i + 1));
        }
    }
}

fn add_wildcard_sources(ir: &WorkflowIR, g: &mut DiGraph<String, EdgeKind>, ni: &IndexMap<String, usize>, target: &String, ti: usize)
    requires
        nodes_ready(*ir, *old(g), *ni),
        ti < state_entries(ir.states).len(),
        graph_edges(*old(g)).len() + wildcard_sources(state_entries(ir.states), target@, ti as int, state_entries(ir.states).len() as int).len() < u32::MAX,
    ensures
        graph_nodes(*final(g)) == graph_nodes(*old(g)),
        graph_edges(*final(g)) == graph_edges(*old(g)) + wildcard_sources(state_entries(ir.states), target@, ti as int, state_entries(ir.states).len() as int),
{
    let ghost s = state_entries(ir.states);
    let ghost e0 = graph_edges(*g);
    let n = states_len(&ir.states);
    for j in 0..n
        invariant
            n == s.len(),
            s == state_entries(ir.states),
            ti < s.len(),
            nodes_ready(*ir, *g, *ni),
            graph_edges(*g) == e0 + wildcard_sources(s, target@, ti as int, j as int),
            e0.len() + wildcard_sources(s, target@, ti as int, n as int).len() < u32::MAX,
    {
        proof {
            lemma_sources_grow(s, target@, ti as int, j + 1, n as int);
        }
        if let Some((name, st)) = states_at(&ir.states, j) {
            if !st.is_terminal() && !(*name == *target) {
                if let Some(si) = node_lookup(ir, ni, name.as_str()) {
                    graph_add_edge(g, si, ti, EdgeKind::Wildcard);
                }
            }
        }
        proof {
            assert(graph_edges(*g) =~= e0 + wildcard_sources(s, target@, ti as int, j + 1));
        }
    }
}

/// The targets of the wildcard transitions (`wildcard_target_names`).
fn wildcard_target_list(ir: &WorkflowIR) -> (r: Vec<String>)
    ensures
        strings_view(r@) == wildcard_target_names(*ir),
{
    let ghost s = state_entries(ir.states);
    let ghost w = strings_view(ir.wildcard_targets@);
    let mut r = crate::prompt::copy_strings(&ir.wildcard_targets);
    let n = states_len(&ir.states);
    for i in 0..n
        invariant
            n == s.len(),
            s == state_entries(ir.states),
            w == strings_view(ir.wildcard_targets@),
            strings_view(r@) == w + escape_targets(s, w, i as int),
    {
        let (name, st) = states_at(&ir.states, i).unwrap();
        let ghost before = strings_view(r@);
        if st.is_escape() && !crate::graph::validate::contains_string(&ir.wildcard_targets, name) {
            r.push(name.clone());
            assert(strings_view(r@) =~= before.push(name@));
        }
        assert(strings_view(r@) =~= w + escape_targets(s, w, i + 1));
    }
    r
}

fn add_wildcards(ir: &WorkflowIR, targets: &Vec<String>, g: &mut DiGraph<String, EdgeKind>, ni: &IndexMap<String, usize>)
    requires
        nodes_ready(*ir, *old(g), *ni),
        graph_edges(*old(g)).len() + wildcard_edges(
            state_entries(ir.states),
            strings_view(targets@),
            targets@.len() as int,
        ).len() < u32::MAX,
    ensures
        graph_nodes(*final(g)) == graph_nodes(*old(g)),
        graph_edges(*final(g)) == graph_edges(*old(g)) + wildcard_edges(
            state_entries(ir.states),
            strings_view(targets@),
            targets@.len() as int,
        ),
{
    let ghost s = state_entries(ir.states);
    let ghost w = strings_view(targets@);
    let ghost e0 = graph_edges(*g);
    let n = targets.len();
    for i in 0..n
        invariant
            n == targets@.len(),
            w.len() == n,
            s == state_entries(ir.states),
            w == strings_view(targets@),
            nodes_ready(*ir, *g, *ni),
            graph_edges(*g) == e0 + wildcard_edges(s, w, i as int),
            e0.len() + wildcard_edges(s, w, n as int).len() < u32::MAX,
    {
        proof {
            lemma_wildcards_grow(s, w, i + 1, n as int);
        }
        let target = &targets[i];
        assert(w[i as int] == target@);
        if let Some(ti) = node_lookup(ir, ni, target.as_str()) {
            add_wildcard_sources(ir, g, ni, target, ti);
        }
        proof {
            assert(graph_edges(*g) =~= e0 + wildcard_edges(s, w, i + 1));
        }
    }
}

/// Builds the graph of a workflow: a node for each state, in order, then the edges of
/// `workflow_edges`.
pub fn build_graph(ir: &WorkflowIR) -> (r: WorkflowGraph)
    requires
        graph_fits(*ir),
    ensures
        graph_nodes(r.graph) == map_keys(state_entries(ir.states)),
        node_entries(r.node_indices) == node_table(state_entries(ir.states)),
        graph_edges(r.graph) == workflow_edges(*ir),
        keys_distinct(state_entries(ir.states)),
{
    let ghost s = state_entries(ir.states);
    let ghost t = step_entries(ir.steps);
    let ghost p = prompt_entries(ir.prompts);
    let ghost h = phase_entries(ir.phases);
    let ghost w = wildcard_target_names(*ir);
    let ghost c = claim_edges(s, t, t.len() as int);
    let ghost o = outcome_edges(s, p, p.len() as int);
    let ghost l = phase_links(s, t, p, h, h.len() as int);
    let ghost x = wildcard_edges(s, w, w.len() as int);
    let targets = wildcard_target_list(ir);
    let (mut graph, node_indices) = add_nodes(ir);
    add_claims(ir, &mut graph, &node_indices);
    add_outcomes(ir, &mut graph, &node_indices);
    add_phase_links(ir, &mut graph, &node_indices);
    assert(w.len() == targets@.len());
    add_wildcards(ir, &targets, &mut graph, &node_indices);
    proof {
        assert(graph_edges(graph) =~= c + o + l + x);
    }
    WorkflowGraph { graph, node_indices }
}

/// The number of outcome routes of the first `n` prompts.
pub open spec fn route_count(p: Seq<(Seq<char>, PromptFile)>, n: int) -> nat
    decreases n,
{
    if n <= 0 {
        0
    } else {
        route_count(p, n - 1) + outcome_entries(p[n - 1].1.success).len() + outcome_entries(p[n - 1].1.failure).len()
    }
}

proof fn lemma_claims_at_most(s: Seq<(Seq<char>, StateDef)>, t: Seq<(Seq<char>, StepDef)>, n: int)
    requires
        0 <= n,
    ensures
        claim_edges(s, t, n).len() <= n,
    decreases n,
{
    if n > 0 {
        lemma_claims_at_most(s, t, n - 1);
    }
}

proof fn lemma_routes_at_most(s: Seq<(Seq<char>, StateDef)>, from: int, o: Seq<(Seq<char>, String)>, ok: bool, n: int)
    requires
        0 <= n,
    ensures
        route_edges(s, from, o, ok, n).len() <= n,
    decreases n,
{
    if n > 0 {
        lemma_routes_at_most(s, from, o, ok, n - 1);
    }
}

proof fn lemma_outcomes_at_most(s: Seq<(Seq<char>, StateDef)>, p: Seq<(Seq<char>, PromptFile)>, n: int)
    requires
        0 <= n <= p.len(),
    ensures
        outcome_edges(s, p, n).len() <= route_count(p, n),
    decreases n,
{
    if n > 0 {
        lemma_outcomes_at_most(s, p, n - 1);
        let pf = p[n - 1].1;
        let so = outcome_entries(pf.success);
        let fo = outcome_entries(pf.failure);
        match prompt_user(s, p[n - 1].0, s.len() as int) {
            Some(i) => match node_of(s, state_name(s[i].1)) {
                Some(a) => {
                    lemma_routes_at_most(s, a, so, true, so.len() as int);
                    lemma_routes_at_most(s, a, fo, false, fo.len() as int);
                },
                None => {},
            },
            None => {},
        }
    }
}

proof fn lemma_links_at_most(
    s: Seq<(Seq<char>, StateDef)>,
    t: Seq<(Seq<char>, StepDef)>,
    p: Seq<(Seq<char>, PromptFile)>,
    h: Seq<(Seq<char>, PhaseDef)>,
    n: int,
)
    requires
        0 <= n,
    ensures
        phase_links(s, t, p, h, n).len() <= n,
    decreases n,
{
    if n > 0 {
        lemma_links_at_most(s, t, p, h, n - 1);
    }
}

proof fn lemma_sources_at_most(s: Seq<(Seq<char>, StateDef)>, target: Seq<char>, ti: int, n: int)
    requires
        0 <= n,
    ensures
        wildcard_sources(s, target, ti, n).len() <= n,
    decreases n,
{
    if n > 0 {
        lemma_sources_at_most(s, target, ti, n - 1);
    }
}

proof fn lemma_wildcards_at_most(s: Seq<(Seq<char>, StateDef)>, w: Seq<Seq<char>>, n: int)
    requires
        0 <= n,
    ensures
        wildcard_edges(s, w, n).len() <= n * s.len(),
    decreases n,
{
    if n > 0 {
        lemma_wildcards_at_most(s, w, n - 1);
        if let Some(ti) = node_of(s, w[n - 1]) {
            lemma_sources_at_most(s, w[n - 1], ti, s.len() as int);
        }
        assert(n * s.len() == (n - 1) * s.len() + s.len()) by (nonlinear_arith);
    }
}

proof fn lemma_route_count_grows(p: Seq<(Seq<char>, PromptFile)>, i: int, j: int)
    requires
        0 <= i <= j,
    ensures
        route_count(p, i) <= route_count(p, j),
    decreases j - i,
{
    if i < j {
        lemma_route_count_grows(p, i, j - 1);
    }
}

/// A bound on the size of a workflow's graph, from the counts of its declarations: fewer
/// states than `u32::MAX`, fewer declared wildcard targets and states together, and fewer
/// steps, outcome routes, phases and wildcard edges together, where the wildcard edges are
/// counted as one per state for each declared target and each state (the escape states
/// being implicit targets).
pub open spec fn size_bounded(ir: WorkflowIR) -> bool {
    let ns = state_entries(ir.states).len();
    let nw = ir.wildcard_targets@.len();
    let p = prompt_entries(ir.prompts);
    &&& ns < u32::MAX
    &&& nw + ns < u32::MAX
    &&& step_entries(ir.steps).len() + route_count(p, p.len() as int) + phase_entries(ir.phases).len() + (nw
        + ns) * ns < u32::MAX
}

/// The number of outcome routes of the first `n` prompts, taken by their views.
pub open spec fn view_route_count(p: Seq<(Seq<char>, crate::prompt::PromptV)>, n: int) -> nat
    decreases n,
{
    if n <= 0 {
        0
    } else {
        view_route_count(p, n - 1) + p[n - 1].1.success.len() + p[n - 1].1.failure.len()
    }
}

/// The size bound of `size_bounded`, read off a workflow's view.
pub open spec fn view_size_bounded(v: IrV) -> bool {
    &&& v.states.len() < u32::MAX
    &&& v.wildcard_targets.len() + v.states.len() < u32::MAX
    &&& v.steps.len() + view_route_count(v.prompts, v.prompts.len() as int) + v.phases.len()
        + (v.wildcard_targets.len() + v.states.len()) * v.states.len() < u32::MAX
}

proof fn lemma_view_route_count(p: Seq<(Seq<char>, PromptFile)>, n: int)
    requires
        0 <= n <= p.len(),
    ensures
        route_count(p, n) == view_route_count(view_entries(p), n),
    decreases n,
{
    if n > 0 {
        lemma_view_route_count(p, n - 1);
        assert(view_entries(p)[n - 1].1 == p[n - 1].1@);
    }
}

/// The size bound depends on the workflow's view alone.
pub proof fn lemma_size_bounded_view(ir: WorkflowIR)
    ensures
        size_bounded(ir) == view_size_bounded(ir@),
{
    let p = prompt_entries(ir.prompts);
    lemma_view_route_count(p, p.len() as int);
}

/// Whether the graph of a workflow certainly fits the machine's `u32` indices, by the
/// bound on its size from the counts of its declarations.
pub fn graph_size_ok(ir: &WorkflowIR) -> (b: bool)
    ensures
        b == size_bounded(*ir),
        b ==> graph_fits(*ir),
{
    let ghost s = state_entries(ir.states);
    let ghost t = step_entries(ir.steps);
    let ghost p = prompt_entries(ir.prompts);
    let ghost h = phase_entries(ir.phases);
    let ghost w = strings_view(ir.wildcard_targets@);
    let ns = states_len(&ir.states) as u64;
    if ns >= u32::MAX as u64 {
        return false;
    }
    let mut routes: u64 = 0;
    let np = prompts_len(&ir.prompts);
    for i in 0..np
        invariant
            np == p.len(),
            p == prompt_entries(ir.prompts),
            routes == route_count(p, i as int),
            routes < u32::MAX,
    {
        if let Some((_, pf)) = prompts_at(&ir.prompts, i) {
            let a = outcomes_len(&pf.success) as u64;
            let b = outcomes_len(&pf.failure) as u64;
            proof {
                assert(route_count(p, i + 1) == routes + a + b);
                lemma_route_count_grows(p, i + 1, np as int);
            }
            if a >= u32::MAX as u64 || b >= u32::MAX as u64 {
                return false;
            }
            let k = a + b;
            if k >= u32::MAX as u64 || routes + k >= u32::MAX as u64 {
                return false;
            }
            routes = routes + k;
        }
    }
    let nt = steps_len(&ir.steps) as u64;
    let nh = phases_len(&ir.phases) as u64;
    let nw = ir.wildcard_targets.len() as u64;
    if nt >= u32::MAX as u64 || nh >= u32::MAX as u64 || nw >= u32::MAX as u64 || nw + ns >= u32::MAX as u64 {
        return false;
    }
    let nx = nw + ns;
    assert(nx * ns < 0x1_0000_0000_0000_0000) by (nonlinear_arith)
        requires
            nx < 0x1_0000_0000,
            ns < 0x1_0000_0000,
    ;
    let wild = nx * ns;
    if wild >= u32::MAX as u64 || nt + routes + nh + wild >= u32::MAX as u64 {
        return false;
    }
    proof {
        let wt = wildcard_target_names(*ir);
        lemma_claims_at_most(s, t, t.len() as int);
        lemma_outcomes_at_most(s, p, p.len() as int);
        lemma_links_at_most(s, t, p, h, h.len() as int);
        lemma_wildcards_at_most(s, wt, wt.len() as int);
        lemma_escape_targets_at_most(s, w, s.len() as int);
        let k = wt.len();
        assert(k <= nx);
        assert(k * s.len() <= nx * ns) by (nonlinear_arith)
            requires
                k <= nx,
                s.len() == ns,
        ;
    }
    true
}

proof fn lemma_escape_targets_at_most(s: Seq<(Seq<char>, StateDef)>, w: Seq<Seq<char>>, n: int)
    requires
        0 <= n,
    ensures
        escape_targets(s, w, n).len() <= n,
    decreases n,
{
    if n > 0 {
        lemma_escape_targets_at_most(s, w, n - 1);
    }
}

proof fn lemma_wildcard_sources_has(s: Seq<(Seq<char>, StateDef)>, target: Seq<char>, ti: int, n: int, i: int)
    requires
        keys_distinct(s),
        0 <= i < n <= s.len(),
        !(s[i].1 is Terminal),
        s[i].0 != target,
    ensures
        wildcard_sources(s, target, ti, n).contains((i, ti, EdgeLabel::Wildcard)),
    decreases n,
{
    let prev = wildcard_sources(s, target, ti, n - 1);
    if i < n - 1 {
        lemma_wildcard_sources_has(s, target, ti, n - 1, i);
        let k = choose|k: int| 0 <= k < prev.len() && prev[k] == (i, ti, EdgeLabel::Wildcard);
        assert(wildcard_sources(s, target, ti, n)[k] == (i, ti, EdgeLabel::Wildcard));
    } else {
        crate::graph::validate::lemma_node_of_key(s, i);
        assert(wildcard_sources(s, target, ti, n)[prev.len() as int] == (i, ti, EdgeLabel::Wildcard));
    }
}

proof fn lemma_wildcard_edges_has(s: Seq<(Seq<char>, StateDef)>, w: Seq<Seq<char>>, n: int, j: int, i: int)
    requires
        keys_distinct(s),
        0 <= j < n <= w.len(),
        has_key(s, w[j]),
        0 <= i < s.len(),
        !(s[i].1 is Terminal),
        s[i].0 != w[j],
    ensures
        wildcard_edges(s, w, n).contains((i, index_of(s, w[j]), EdgeLabel::Wildcard)),
    decreases n,
{
    let e = (i, index_of(s, w[j]), EdgeLabel::Wildcard);
    let prev = wildcard_edges(s, w, n - 1);
    if j < n - 1 {
        lemma_wildcard_edges_has(s, w, n - 1, j, i);
        let k = choose|k: int| 0 <= k < prev.len() && prev[k] == e;
        assert(wildcard_edges(s, w, n)[k] == e);
    } else {
        let ti = index_of(s, w[j]);
        lemma_wildcard_sources_has(s, w[j], ti, s.len() as int, i);
        let src = wildcard_sources(s, w[j], ti, s.len() as int);
        let k = choose|k: int| 0 <= k < src.len() && src[k] == e;
        assert(wildcard_edges(s, w, n) == prev + src);
        assert(wildcard_edges(s, w, n)[prev.len() + k] == e);
    }
}

proof fn lemma_wildcard_target_edge(ir: WorkflowIR, j: int, i: int)
    requires
        keys_distinct(state_entries(ir.states)),
        0 <= j < wildcard_target_names(ir).len(),
        has_key(state_entries(ir.states), wildcard_target_names(ir)[j]),
        0 <= i < state_entries(ir.states).len(),
        !(state_entries(ir.states)[i].1 is Terminal),
        state_entries(ir.states)[i].0 != wildcard_target_names(ir)[j],
    ensures
        workflow_edges(ir).contains(
            (i, index_of(state_entries(ir.states), wildcard_target_names(ir)[j]), EdgeLabel::Wildcard),
        ),
{
    let s = state_entries(ir.states);
    let w = wildcard_target_names(ir);
    lemma_wildcard_edges_has(s, w, w.len() as int, j, i);
    let e = (i, index_of(s, w[j]), EdgeLabel::Wildcard);
    let we = wildcard_edges(s, w, w.len() as int);
    let k = choose|k: int| 0 <= k < we.len() && we[k] == e;
    let front = workflow_edges(ir).len() - we.len();
    assert(workflow_edges(ir)[front + k] == e);
}

/// A wildcard transition `* -> t` gives an edge into `t` from every state that is not a
/// terminal (escape states included), other than `t` itself.
pub proof fn lemma_wildcard_edges_reach_target(ir: WorkflowIR, j: int, i: int)
    requires
        keys_distinct(state_entries(ir.states)),
        0 <= j < ir.wildcard_targets@.len(),
        has_key(state_entries(ir.states), ir.wildcard_targets@[j]@),
        0 <= i < state_entries(ir.states).len(),
        !(state_entries(ir.states)[i].1 is Terminal),
        state_entries(ir.states)[i].0 != ir.wildcard_targets@[j]@,
    ensures
        workflow_edges(ir).contains(
            (i, index_of(state_entries(ir.states), ir.wildcard_targets@[j]@), EdgeLabel::Wildcard),
        ),
{
    let w = strings_view(ir.wildcard_targets@);
    assert(wildcard_target_names(ir)[j] == w[j]);
    assert(w[j] == ir.wildcard_targets@[j]@);
    lemma_wildcard_target_edge(ir, j, i);
}

proof fn lemma_escape_in_targets(s: Seq<(Seq<char>, StateDef)>, w: Seq<Seq<char>>, n: int, e: int)
    requires
        0 <= e < n <= s.len(),
        s[e].1 is Escape,
        !w.contains(s[e].0),
    ensures
        escape_targets(s, w, n).contains(s[e].0),
    decreases n,
{
    let prev = escape_targets(s, w, n - 1);
    if e < n - 1 {
        lemma_escape_in_targets(s, w, n - 1, e);
        let k = choose|k: int| 0 <= k < prev.len() && prev[k] == s[e].0;
        assert(escape_targets(s, w, n)[k] == s[e].0);
    } else {
        assert(escape_targets(s, w, n)[prev.len() as int] == s[e].0);
    }
}

/// Every escape state is reached by a wildcard transition, declared or not: there is an
/// edge into it from every other state that is not a terminal.
pub proof fn lemma_escape_states_get_wildcard_edges(ir: WorkflowIR, e: int, i: int)
    requires
        keys_distinct(state_entries(ir.states)),
        0 <= e < state_entries(ir.states).len(),
        state_entries(ir.states)[e].1 is Escape,
        0 <= i < state_entries(ir.states).len(),
        !(state_entries(ir.states)[i].1 is Terminal),
        i != e,
    ensures
        workflow_edges(ir).contains((i, e, EdgeLabel::Wildcard)),
{
    let s = state_entries(ir.states);
    let w = strings_view(ir.wildcard_targets@);
    let wt = wildcard_target_names(ir);
    let name = s[e].0;
    let j: int = if w.contains(name) {
        choose|j: int| 0 <= j < w.len() && w[j] == name
    } else {
        lemma_escape_in_targets(s, w, s.len() as int, e);
        let et = escape_targets(s, w, s.len() as int);
        let k = choose|k: int| 0 <= k < et.len() && et[k] == name;
        w.len() + k
    };
    assert(wt[j] == name);
    assert(has_key(s, name));
    crate::graph::validate::lemma_node_of_key(s, e);
    lemma_wildcard_target_edge(ir, j, i);
}


proof fn lemma_claim_edges_hold(s: Seq<(Seq<char>, StateDef)>, t: Seq<(Seq<char>, StepDef)>, n: int, i: int)
    requires
        0 <= i < n <= t.len(),
        node_of(s, t[i].1.queue@) is Some,
        node_of(s, t[i].1.action@) is Some,
    ensures
        claim_edges(s, t, n).contains(
            (node_of(s, t[i].1.queue@)->0, node_of(s, t[i].1.action@)->0, EdgeLabel::Claim(t[i].1.name@)),
        ),
    decreases n,
{
    let e = (node_of(s, t[i].1.queue@)->0, node_of(s, t[i].1.action@)->0, EdgeLabel::Claim(t[i].1.name@));
    let prev = claim_edges(s, t, n - 1);
    if i < n - 1 {
        lemma_claim_edges_hold(s, t, n - 1, i);
        let k = choose|k: int| 0 <= k < prev.len() && prev[k] == e;
        assert(claim_edges(s, t, n)[k] == e);
    } else {
        assert(claim_edges(s, t, n)[prev.len() as int] == e);
    }
}

/// Every step whose queue and action are states gives a claim edge from its queue to its
/// action, named after the step.
pub proof fn lemma_steps_give_claim_edges(ir: WorkflowIR, i: int)
    requires
        0 <= i < step_entries(ir.steps).len(),
        node_of(state_entries(ir.states), step_entries(ir.steps)[i].1.queue@) is Some,
        node_of(state_entries(ir.states), step_entries(ir.steps)[i].1.action@) is Some,
    ensures
        workflow_edges(ir).contains(
            (
                node_of(state_entries(ir.states), step_entries(ir.steps)[i].1.queue@)->0,
                node_of(state_entries(ir.states), step_entries(ir.steps)[i].1.action@)->0,
                EdgeLabel::Claim(step_entries(ir.steps)[i].1.name@),
            ),
        ),
{
    let s = state_entries(ir.states);
    let t = step_entries(ir.steps);
    lemma_claim_edges_hold(s, t, t.len() as int, i);
    let c = claim_edges(s, t, t.len() as int);
    let e = (node_of(s, t[i].1.queue@)->0, node_of(s, t[i].1.action@)->0, EdgeLabel::Claim(t[i].1.name@));
    let k = choose|k: int| 0 <= k < c.len() && c[k] == e;
    assert(workflow_edges(ir)[k] == e);
}

} // verus!
