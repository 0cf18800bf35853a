//! Stepping through a workflow by hand: where it starts, which transitions leave the
//! current state, and taking one.
use vstd::prelude::*;
use crate::graph::{
    build_graph, graph_edge, graph_edges, graph_fits, graph_node, graph_nodes, graph_outgoing, lemma_node_table,
    node_of, node_table, out_edges, workflow_edges, EdgeKind, EdgeLabel, EdgeV, WorkflowGraph,
};
use crate::ir::{state_display, WorkflowIR, StateDef};
use crate::maps::{
    map_get, map_keys, node_entries, phase_entries, phases_at, phases_get, phases_len, profile_entries,
    profiles_get, state_entries, states_get, step_entries, steps_get, view_entries, lemma_view_keys,
};
use crate::text::{chars_of, nat_text, parse_usize, push_char, push_str, trim, trimmed_bounds, u64_text, usize_text};

verus! {

broadcast use vstd::string::group_string_axioms;

/// A transition that can be taken from the current state.
#[derive(Debug)]
pub struct SimTransition {
    pub label: String,
    pub from: String,
    pub to: String,
    pub kind: TransitionKind,
}

/// The kind of a simulator transition.
#[derive(Debug)]
pub enum TransitionKind {
    Claim { step: String },
    Outcome { outcome: String, is_success: bool },
    Wildcard,
}

/// A transition kind as a value.
pub enum TransitionKindV {
    Claim(Seq<char>),
    Outcome(Seq<char>, bool),
    Wildcard,
}

impl View for TransitionKind {
    type V = TransitionKindV;

    open spec fn view(&self) -> TransitionKindV {
        match *self {
            TransitionKind::Claim { step } => TransitionKindV::Claim(step@),
            TransitionKind::Outcome { outcome, is_success } => TransitionKindV::Outcome(outcome@, is_success),
            TransitionKind::Wildcard => TransitionKindV::Wildcard,
        }
    }
}

/// A transition as a value: (label, from, to, kind).
pub type TransitionV = (Seq<char>, Seq<char>, Seq<char>, TransitionKindV);

impl View for SimTransition {
    type V = TransitionV;

    open spec fn view(&self) -> TransitionV {
        (self.label@, self.from@, self.to@, self.kind@)
    }
}

/// The simulator state: the current state and the transitions taken so far.
#[derive(Debug)]
pub struct SimState {
    pub current: String,
    pub history: Vec<SimTransition>,
}

/// Transitions as values, in order.
pub open spec fn transitions_view(v: Seq<SimTransition>) -> Seq<TransitionV> {
    v.map_values(|t: SimTransition| t@)
}

impl SimTransition {
    /// A copy of the transition.
    pub fn duplicate(&self) -> (r: SimTransition)
        ensures
            r@ == self@,
    {
        let kind = match &self.kind {
            TransitionKind::Claim { step } => TransitionKind::Claim { step: step.clone() },
            TransitionKind::Outcome { outcome, is_success } => TransitionKind::Outcome {
                outcome: outcome.clone(),
                is_success: *is_success,
            },
            TransitionKind::Wildcard => TransitionKind::Wildcard,
        };
        SimTransition { label: self.label.clone(), from: self.from.clone(), to: self.to.clone(), kind }
    }
}

/// The first phase that a simulation runs: the profile's first, or the workflow's first
/// phase where no profile is named; `Err` with the message where there is none.
pub open spec fn first_phase(ir: WorkflowIR, profile: Option<Seq<char>>) -> Result<Seq<char>, Seq<char>> {
    match profile {
        Some(pn) => match map_get(profile_entries(ir.profiles), pn) {
            Some(pr) => if pr.phases@.len() > 0 {
                Ok(pr.phases@[0]@)
            } else {
                Err("profile '"@ + pn + "' has no phases"@)
            },
            None => Err("profile '"@ + pn + "' not found"@),
        },
        None => if phase_entries(ir.phases).len() > 0 {
            Ok(phase_entries(ir.phases)[0].0)
        } else {
            Err("workflow has no phases"@)
        },
    }
}

/// Where a simulation starts: the queue of the produce step of the first phase.
pub open spec fn entry_queue(ir: WorkflowIR, profile: Option<Seq<char>>) -> Result<Seq<char>, Seq<char>> {
    match first_phase(ir, profile) {
        Ok(x) => match map_get(phase_entries(ir.phases), x) {
            Some(ph) => match map_get(step_entries(ir.steps), ph.produce_step@) {
                Some(st) => Ok(st.queue@),
                None => Err("step '"@ + ph.produce_step@ + "' not found"@),
            },
            None => Err("phase '"@ + x + "' not found"@),
        },
        Err(m) => Err(m),
    }
}

fn quoted_message(a: &str, name: &str, b: &str) -> (r: String)
    ensures
        r@ == a@ + name@ + b@,
{
    let mut s = String::from_str(a);
    push_str(&mut s, name);
    push_str(&mut s, b);
    s
}

/// A new simulation at the entry queue of the workflow: the queue of the first step of
/// the first phase of the given profile (or of the workflow's first phase).
pub fn new(ir: &WorkflowIR, profile: Option<&str>) -> (r: Result<SimState, String>)
    ensures
        match entry_queue(*ir, match profile {
            Some(p) => Some(p@),
            None => None,
        }) {
            Ok(q) => r matches Ok(st) && st.current@ == q && st.history@.len() == 0,
            Err(m) => r matches Err(e) && e@ == m,
        },
{
    let first: &String = match profile {
        Some(pname) => {
            match profiles_get(&ir.profiles, pname) {
                Some(prof) => {
                    if prof.phases.len() > 0 {
                        &prof.phases[0]
                    } else {
                        return Err(quoted_message("profile '", pname, "' has no phases"));
                    }
                },
                None => return Err(quoted_message("profile '", pname, "' not found")),
            }
        },
        None => {
            match phases_at(&ir.phases, 0) {
                Some((k, _)) => k,
                None => return Err(String::from_str("workflow has no phases")),
            }
        },
    };
    let phase = match phases_get(&ir.phases, first.as_str()) {
        Some(ph) => ph,
        None => return Err(quoted_message("phase '", first.as_str(), "' not found")),
    };
    let step = match steps_get(&ir.steps, phase.produce_step.as_str()) {
        Some(st) => st,
        None => return Err(quoted_message("step '", phase.produce_step.as_str(), "' not found")),
    };
    Ok(SimState { current: step.queue.clone(), history: Vec::new() })
}

/// Takes a transition: the current state becomes its target, and it joins the history.
pub fn apply(state: &mut SimState, transition: &SimTransition)
    ensures
        final(state).current@ == transition.to@,
        transitions_view(final(state).history@) == transitions_view(old(state).history@).push(transition@),
{
    state.current = transition.to.clone();
    let ghost before = transitions_view(state.history@);
    state.history.push(transition.duplicate());
    assert(transitions_view(state.history@) =~= before.push(transition@));
}

/// Node `i` has an outgoing edge other than a wildcard transition.
pub open spec fn has_move(edges: Seq<EdgeV>, i: int) -> bool {
    exists|k: int| 0 <= k < edges.len() && (#[trigger] edges[k]).0 == i && !(edges[k].2 is Wildcard)
}

/// Whether a walk that has reached the state named `current` has ended: it is no state of
/// the workflow, is a terminal or an escape, or has no outgoing edge other than a wildcard.
pub open spec fn sim_ended(ir: WorkflowIR, current: Seq<char>) -> bool {
    match node_of(state_entries(ir.states), current) {
        Some(i) => state_entries(ir.states)[i].1 is Terminal || state_entries(ir.states)[i].1 is Escape
            || !has_move(workflow_edges(ir), i),
        None => true,
    }
}

/// What the simulator does next.
pub enum SimMove {
    /// The walk has ended.
    Finished,
    /// The walk has not ended, but no transition leaves the current state.
    Stuck,
    /// The transitions to choose from, in the order shown.
    Choose(Vec<SimTransition>),
}

/// The simulator's next move from its current state: finish where the walk has ended,
/// otherwise offer the available transitions (or report that there are none).
pub fn next_move(state: &SimState, ir: &WorkflowIR) -> (m: SimMove)
    requires
        graph_fits(*ir),
    ensures
        (m is Finished) == sim_ended(*ir, state.current@),
        !sim_ended(*ir, state.current@) ==> (node_of(state_entries(ir.states), state.current@) matches Some(i) && {
            let ts = sorted_transitions(outgoing_transitions(*ir, state.current@, i));
            &&& (m is Stuck) == (ts.len() == 0)
            &&& (m matches SimMove::Choose(v) ==> transitions_view(v@) == ts && v@.len() > 0)
        }),
{
    if is_terminal(state, ir) {
        return SimMove::Finished;
    }
    let ts = available_transitions(state, ir);
    if ts.len() == 0 {
        SimMove::Stuck
    } else {
        SimMove::Choose(ts)
    }
}

/// Whether the simulation has ended: the current state is no state of the workflow, is a
/// terminal or an escape, or has no outgoing edge other than a wildcard transition.
pub fn is_terminal(state: &SimState, ir: &WorkflowIR) -> (b: bool)
    requires
        graph_fits(*ir),
    ensures
        b == sim_ended(*ir, state.current@),
{
    let ghost s = state_entries(ir.states);
    let g = build_graph(ir);
    let idx = match crate::graph::node_lookup(ir, &g.node_indices, state.current.as_str()) {
        Some(i) => i,
        None => return true,
    };
    let (_name, st) = crate::maps::states_at(&ir.states, idx).unwrap();
    if st.is_terminal() || st.is_escape() {
        return true;
    }
    let ghost edges = workflow_edges(*ir);
    let m = crate::graph::graph_edge_count(&g.graph);
    for k in 0..m
        invariant
            m == edges.len(),
            edges == graph_edges(g.graph),
            s == state_entries(ir.states),
            edges == workflow_edges(*ir),
            node_of(s, state.current@) == Some(idx as int),
            idx < s.len(),
            !(s[idx as int].1 is Terminal || s[idx as int].1 is Escape),
            forall|j: int| 0 <= j < k ==> !((#[trigger] edges[j]).0 == idx && !(edges[j].2 is Wildcard)),
    {
        let (a, _b, kind) = graph_edge(&g.graph, k);
        if a == idx {
            match kind {
                EdgeKind::Wildcard => {},
                _ => {
                    assert(edges[k as int].0 == idx && !(edges[k as int].2 is Wildcard));
                    assert(has_move(edges, idx as int));
                    assert(!(s[idx as int].1 is Terminal || s[idx as int].1 is Escape));
                    return false;
                },
            }
        }
    }
    true
}


/// The transition along edge `e` out of the state named `current`.
pub open spec fn transition_of(s: Seq<(Seq<char>, StateDef)>, current: Seq<char>, e: EdgeV) -> TransitionV {
    let target = s[e.1].0;
    match e.2 {
        EdgeLabel::Claim(step) => ("claim ("@ + step + ") -> "@ + target, current, target, TransitionKindV::Claim(step)),
        EdgeLabel::Outcome(o, ok) => (
            "["@ + (if ok {
                "ok"@
            } else {
                "fail"@
            }) + "] "@ + o + " -> "@ + target,
            current,
            target,
            TransitionKindV::Outcome(o, ok),
        ),
        EdgeLabel::PhaseLink(ph) => ("phase link ("@ + ph + ") -> "@ + target, current, target, TransitionKindV::Claim(ph)),
        EdgeLabel::Wildcard => ("[*] -> "@ + target, current, target, TransitionKindV::Wildcard),
    }
}

/// Where a transition sorts: claims, then successful outcomes, then failed ones, then
/// wildcards.
pub open spec fn rank(k: TransitionKindV) -> int {
    match k {
        TransitionKindV::Claim(_) => 0,
        TransitionKindV::Outcome(_, true) => 1,
        TransitionKindV::Outcome(_, false) => 2,
        TransitionKindV::Wildcard => 3,
    }
}

/// The transitions of `ts` of rank `r`, in order.
pub open spec fn with_rank(ts: Seq<TransitionV>, r: int) -> Seq<TransitionV>
    decreases ts.len(),
{
    if ts.len() == 0 {
        Seq::empty()
    } else {
        with_rank(ts.drop_last(), r) + if rank(ts.last().3) == r {
            seq![ts.last()]
        } else {
            Seq::empty()
        }
    }
}

/// The transitions out of node `i`, in the order in which petgraph lists the edges.
pub open spec fn outgoing_transitions(ir: WorkflowIR, current: Seq<char>, i: int) -> Seq<TransitionV> {
    let e = workflow_edges(ir);
    out_edges(e, i, e.len() as int).map_values(|k: int| transition_of(state_entries(ir.states), current, e[k]))
}

/// The available transitions, ordered by rank and otherwise as listed.
pub open spec fn sorted_transitions(ts: Seq<TransitionV>) -> Seq<TransitionV> {
    with_rank(ts, 0) + with_rank(ts, 1) + with_rank(ts, 2) + with_rank(ts, 3)
}

proof fn lemma_with_rank(ts: Seq<TransitionV>, r: int)
    ensures
        forall|j: int| 0 <= j < with_rank(ts, r).len() ==> rank((#[trigger] with_rank(ts, r)[j]).3) == r
            && ts.contains(with_rank(ts, r)[j]),
    decreases ts.len(),
{
    if ts.len() > 0 {
        lemma_with_rank(ts.drop_last(), r);
        let prev = with_rank(ts.drop_last(), r);
        assert forall|j: int| 0 <= j < with_rank(ts, r).len() implies rank((#[trigger] with_rank(ts, r)[j]).3) == r
            && ts.contains(with_rank(ts, r)[j]) by {
            if j < prev.len() {
                assert(with_rank(ts, r)[j] == prev[j]);
                let k = choose|k: int| 0 <= k < ts.drop_last().len() && ts.drop_last()[k] == prev[j];
                assert(ts[k] == prev[j]);
            } else {
                assert(with_rank(ts, r)[j] == ts.last());
                assert(ts[ts.len() - 1] == ts.last());
            }
        }
    }
}

/// The available transitions come in rank order (claims, successful outcomes, failed
/// outcomes, wildcards), and each is one of the transitions they are sorted from.
pub proof fn lemma_sorted_transitions(ts: Seq<TransitionV>)
    ensures
        forall|a: int, b: int|
            0 <= a < b < sorted_transitions(ts).len() ==> rank((#[trigger] sorted_transitions(ts)[a]).3) <= rank(
                (#[trigger] sorted_transitions(ts)[b]).3,
            ),
        forall|j: int| 0 <= j < sorted_transitions(ts).len() ==> ts.contains(#[trigger] sorted_transitions(ts)[j]),
{
    lemma_with_rank(ts, 0);
    lemma_with_rank(ts, 1);
    lemma_with_rank(ts, 2);
    lemma_with_rank(ts, 3);
    let w0 = with_rank(ts, 0);
    let w1 = with_rank(ts, 1);
    let w2 = with_rank(ts, 2);
    let w3 = with_rank(ts, 3);
    let st = sorted_transitions(ts);
    let l0 = w0.len() as int;
    let l1 = l0 + w1.len();
    let l2 = l1 + w2.len();
    assert forall|j: int| 0 <= j < st.len() implies rank((#[trigger] st[j]).3) == (if j < l0 {
        0int
    } else if j < l1 {
        1int
    } else if j < l2 {
        2int
    } else {
        3int
    }) && ts.contains(st[j]) by {
        if j < l0 {
            assert(st[j] == w0[j]);
        } else if j < l1 {
            assert(st[j] == w1[j - l0]);
        } else if j < l2 {
            assert(st[j] == w2[j - l1]);
        } else {
            assert(st[j] == w3[j - l2]);
        }
    }
}

/// Every transition out of a state starts at that state.
pub proof fn lemma_outgoing_from(ir: WorkflowIR, current: Seq<char>, i: int)
    ensures
        forall|j: int| 0 <= j < outgoing_transitions(ir, current, i).len() ==> (#[trigger] outgoing_transitions(
            ir,
            current,
            i,
        )[j]).1 == current,
{
}

fn rank_of(k: &TransitionKind) -> (r: u8)
    ensures
        r as int == rank(k@),
{
    match k {
        TransitionKind::Claim { .. } => 0,
        TransitionKind::Outcome { is_success, .. } => if *is_success {
            1
        } else {
            2
        },
        TransitionKind::Wildcard => 3,
    }
}

fn transition_along(g: &WorkflowGraph, ir: &WorkflowIR, current: &String, k: usize) -> (t: SimTransition)
    requires
        graph_nodes(g.graph) == map_keys(state_entries(ir.states)),
        k < graph_edges(g.graph).len(),
    ensures
        t@ == transition_of(state_entries(ir.states), current@, graph_edges(g.graph)[k as int]),
{
    let (_, dst, kind) = graph_edge(&g.graph, k);
    let target = graph_node(&g.graph, dst);
    match kind {
        EdgeKind::Claim { step } => {
            let mut label = String::from_str("claim (");
            push_str(&mut label, step.as_str());
            push_str(&mut label, ") -> ");
            push_str(&mut label, target.as_str());
            SimTransition { label, from: current.clone(), to: target.clone(), kind: TransitionKind::Claim { step: step.clone() } }
        },
        EdgeKind::Outcome { outcome, is_success } => {
            let mut label = String::from_str("[");
            push_str(&mut label, if *is_success { "ok" } else { "fail" });
            push_str(&mut label, "] ");
            push_str(&mut label, outcome.as_str());
            push_str(&mut label, " -> ");
            push_str(&mut label, target.as_str());
            SimTransition {
                label,
                from: current.clone(),
                to: target.clone(),
                kind: TransitionKind::Outcome { outcome: outcome.clone(), is_success: *is_success },
            }
        },
        EdgeKind::PhaseLink { phase } => {
            let mut label = String::from_str("phase link (");
            push_str(&mut label, phase.as_str());
            push_str(&mut label, ") -> ");
            push_str(&mut label, target.as_str());
            SimTransition { label, from: current.clone(), to: target.clone(), kind: TransitionKind::Claim { step: phase.clone() } }
        },
        EdgeKind::Wildcard => {
            let mut label = String::from_str("[*] -> ");
            push_str(&mut label, target.as_str());
            SimTransition { label, from: current.clone(), to: target.clone(), kind: TransitionKind::Wildcard }
        },
    }
}

proof fn lemma_out_edges_bounded(e: Seq<EdgeV>, i: int, n: int)
    requires
        0 <= n,
    ensures
        forall|j: int| 0 <= j < out_edges(e, i, n).len() ==> 0 <= #[trigger] out_edges(e, i, n)[j] < n,
    decreases n,
{
    if n > 0 {
        lemma_out_edges_bounded(e, i, n - 1);
        let prev = out_edges(e, i, n - 1);
        if e[n - 1].0 == i {
            assert forall|j: int| 0 <= j < out_edges(e, i, n).len() implies 0 <= #[trigger] out_edges(e, i, n)[j] < n by {
                if j > 0 {
                    assert(out_edges(e, i, n)[j] == prev[j - 1]);
                }
            }
        }
    }
}

/// The transitions that leave the current state, claims first, then successful outcomes,
/// failed outcomes and wildcards; none where the current state is no state of the workflow.
pub fn available_transitions(state: &SimState, ir: &WorkflowIR) -> (r: Vec<SimTransition>)
    requires
        graph_fits(*ir),
    ensures
        match node_of(state_entries(ir.states), state.current@) {
            Some(i) => transitions_view(r@) == sorted_transitions(outgoing_transitions(*ir, state.current@, i)),
            None => r@.len() == 0,
        },
        forall|j: int| 0 <= j < r@.len() ==> (#[trigger] r@[j]).from@ == state.current@,
        forall|a: int, b: int| 0 <= a < b < r@.len() ==> rank((#[trigger] r@[a])@.3) <= rank((#[trigger] r@[b])@.3),
{
    let graph = build_graph(ir);
    proof {
        lemma_node_table(state_entries(ir.states), state.current@);
    }
    let idx = match graph.node_index(state.current.as_str()) {
        Some(i) => i,
        None => return Vec::new(),
    };
    let ghost e = workflow_edges(*ir);
    let ghost all = outgoing_transitions(*ir, state.current@, idx as int);
    let ids = graph_outgoing(&graph.graph, idx);
    proof {
        lemma_out_edges_bounded(e, idx as int, e.len() as int);
        assert(ids@.len() == out_edges(e, idx as int, e.len() as int).len());
        assert forall|m: int| 0 <= m < ids@.len() implies (#[trigger] ids@[m]) < e.len() by {
            assert(ids@.map_values(|k: usize| k as int)[m] == ids@[m] as int);
        }
    }
    let mut transitions: Vec<SimTransition> = Vec::new();
    for j in 0..ids.len()
        invariant
            e == graph_edges(graph.graph),
            graph_nodes(graph.graph) == map_keys(state_entries(ir.states)),
            ids@.map_values(|k: usize| k as int) == out_edges(e, idx as int, e.len() as int),
            forall|m: int| 0 <= m < ids@.len() ==> (#[trigger] ids@[m]) < e.len(),
            all == outgoing_transitions(*ir, state.current@, idx as int),
            all.len() == ids@.len(),
            e == workflow_edges(*ir),
            transitions_view(transitions@) == all.take(j as int),
    {
        assert(ids@.map_values(|k: usize| k as int)[j as int] == ids@[j as int] as int);
        let ghost oe = out_edges(e, idx as int, e.len() as int);
        assert(oe[j as int] == ids@[j as int] as int) by {
            assert(ids@.map_values(|k: usize| k as int)[j as int] == ids@[j as int] as int);
        }
        assert(all[j as int] == transition_of(state_entries(ir.states), state.current@, e[ids@[j as int] as int]));
        let t = transition_along(&graph, ir, &state.current, ids[j]);
        let ghost tv = t@;
        let ghost before = transitions_view(transitions@);
        transitions.push(t);
        assert(transitions_view(transitions@) =~= before.push(tv));
        assert(all.take(j + 1) =~= all.take(j as int).push(all[j as int]));
        assert(transitions_view(transitions@) =~= all.take(j + 1));
    }
    assert(transitions_view(transitions@) =~= all);
    let mut sorted: Vec<SimTransition> = Vec::new();
    for r in 0..4u8
        invariant
            transitions_view(transitions@) == all,
            transitions_view(sorted@) == if r == 0 {
                Seq::<TransitionV>::empty()
            } else if r == 1 {
                with_rank(all, 0)
            } else if r == 2 {
                with_rank(all, 0) + with_rank(all, 1)
            } else if r == 3 {
                with_rank(all, 0) + with_rank(all, 1) + with_rank(all, 2)
            } else {
                sorted_transitions(all)
            },
    {
        let ghost base = transitions_view(sorted@);
        for j in 0..transitions.len()
            invariant
                transitions_view(transitions@) == all,
                transitions_view(sorted@) == base + with_rank(all.take(j as int), r as int),
        {
            assert(all.take(j + 1).drop_last() =~= all.take(j as int));
            assert(all.take(j + 1).last() == transitions@[j as int]@);
            let ghost before = transitions_view(sorted@);
            assert(before == base + with_rank(all.take(j as int), r as int));
            if rank_of(&transitions[j].kind) == r {
                let d = transitions[j].duplicate();
                sorted.push(d);
                assert(transitions_view(sorted@) =~= before.push(d@));
                assert(with_rank(all.take(j + 1), r as int) == with_rank(all.take(j as int), r as int) + seq![transitions@[j as int]@]);
            } else {
                assert(with_rank(all.take(j + 1), r as int) == with_rank(all.take(j as int), r as int) + Seq::<TransitionV>::empty());
            }
            assert(transitions_view(sorted@) =~= base + with_rank(all.take(j + 1), r as int));
        }
        assert(all.take(transitions@.len() as int) =~= all);
    }
    proof {
        lemma_sorted_transitions(all);
        lemma_outgoing_from(*ir, state.current@, idx as int);
        let sv = transitions_view(sorted@);
        assert forall|j: int| 0 <= j < sorted@.len() implies (#[trigger] sorted@[j]).from@ == state.current@ by {
            assert(sv[j] == sorted@[j]@);
            assert(all.contains(sv[j]));
        }
        assert forall|a: int, b: int| 0 <= a < b < sorted@.len() implies rank((#[trigger] sorted@[a])@.3) <= rank(
            (#[trigger] sorted@[b])@.3,
        ) by {
            assert(sv[a] == sorted@[a]@);
            assert(sv[b] == sorted@[b]@);
        }
    }
    sorted
}

/// What the simulator does with a line the user typed.
#[derive(Debug)]
pub enum SimInput {
    /// Stop the simulation.
    Quit,
    /// Take the transition at this position of the list shown.
    Take(usize),
    /// Print this message and ask again.
    Invalid(String),
}

/// The simulator's reading of a line, as a value.
pub enum SimInputV {
    Quit,
    Take(nat),
    Invalid(Seq<char>),
}

impl View for SimInput {
    type V = SimInputV;

    open spec fn view(&self) -> SimInputV {
        match self {
            SimInput::Quit => SimInputV::Quit,
            SimInput::Take(i) => SimInputV::Take(*i as nat),
            SimInput::Invalid(m) => SimInputV::Invalid(m@),
        }
    }
}

/// How the simulator reads a line when `count` transitions are listed: `q` or `quit` (around
/// white space) stops it; a number from 1 to `count` takes that transition; anything else is
/// answered with a reminder of what it accepts.
pub open spec fn sim_input(line: Seq<char>, count: nat) -> SimInputV {
    let t = trim(line);
    if t == "q"@ || t == "quit"@ {
        SimInputV::Quit
    } else if usize_text(t) is Some && 1 <= usize_text(t).unwrap() && usize_text(t).unwrap() <= count {
        SimInputV::Take((usize_text(t).unwrap() - 1) as nat)
    } else {
        SimInputV::Invalid("Invalid input. Enter a number 1-"@ + nat_text(count) + " or 'q' to quit.\n"@)
    }
}

/// Reads a line the user typed while `count` transitions are listed.
pub fn read_sim_input(line: &str, count: usize) -> (r: SimInput)
    ensures
        r@ == sim_input(line@, count as nat),
{
    let cs = chars_of(line);
    let (a, b) = trimmed_bounds(&cs, 0, cs.len());
    assert(cs@.subrange(0, cs@.len() as int) =~= line@);
    let mut t = String::new();
    for k in a..b
        invariant
            a <= k <= b <= cs@.len(),
            t@ == cs@.subrange(a as int, k as int),
    {
        push_char(&mut t, cs[k]);
        assert(t@ =~= cs@.subrange(a as int, k + 1));
    }
    if crate::text::str_equal(t.as_str(), "q") || crate::text::str_equal(t.as_str(), "quit") {
        return SimInput::Quit;
    }
    match parse_usize(t.as_str()) {
        Some(k) => {
            if 1 <= k && k <= count {
                return SimInput::Take(k - 1);
            }
        },
        None => {},
    }
    let mut m = String::from_str("Invalid input. Enter a number 1-");
    push_str(&mut m, u64_text(count as u64).as_str());
    push_str(&mut m, " or 'q' to quit.\n");
    SimInput::Invalid(m)
}

/// The lines that list the transitions, numbered from 1.
pub open spec fn transition_list(ts: Seq<TransitionV>) -> Seq<Seq<char>> {
    Seq::new(ts.len(), |i: int| "  "@ + nat_text((i + 1) as nat) + ". "@ + ts[i].0)
}

/// The numbered list of the transitions that can be taken.
pub fn transition_lines(transitions: &Vec<SimTransition>) -> (r: Vec<String>)
    ensures
        r@.map_values(|s: String| s@) == transition_list(transitions_view(transitions@)),
{
    let mut r: Vec<String> = Vec::new();
    for i in 0..transitions.len()
        invariant
            r@.len() == i,
            i <= transitions@.len(),
            forall|k: int| 0 <= k < i ==> (#[trigger] r@[k])@ == "  "@ + nat_text((k + 1) as nat) + ". "@
                + transitions@[k].label@,
    {
        let mut line = String::from_str("  ");
        push_str(&mut line, u64_text(i as u64 + 1).as_str());
        push_str(&mut line, ". ");
        push_str(&mut line, transitions[i].label.as_str());
        r.push(line);
    }
    assert(r@.map_values(|s: String| s@) =~= transition_list(transitions_view(transitions@)));
    r
}

/// The line that shows the current state: its name and display name (`???` for a name that
/// is no state).
pub fn state_line(state: &SimState, ir: &WorkflowIR) -> (r: String)
    ensures
        r@ == "Current state: "@ + state.current@ + " ("@ + match map_get(state_entries(ir.states), state.current@) {
            Some(st) => state_display(st),
            None => "???"@,
        } + ")"@,
{
    let mut line = String::from_str("Current state: ");
    push_str(&mut line, state.current.as_str());
    push_str(&mut line, " (");
    match states_get(&ir.states, state.current.as_str()) {
        Some(st) => push_str(&mut line, st.display_name()),
        None => push_str(&mut line, "???"),
    }
    push_str(&mut line, ")");
    line
}

} // verus!
