//! The workflow graph as text: a Mermaid state diagram or a Graphviz digraph.
use vstd::prelude::*;
use crate::graph::{build_graph, graph_edge, graph_edge_count, graph_edges, graph_fits, graph_node, graph_nodes, workflow_edges, EdgeKind, EdgeLabel, EdgeV};
use crate::ir::{state_display, StateDef, WorkflowIR};
use crate::maps::{
    map_get, map_keys, phase_entries, phases_get, profile_entries, profiles_at, profiles_len, state_entries, states_at,
    states_len, step_entries, steps_get,
};
use crate::text::{contains_text, lemma_contains_prefix, lemma_contains_within, push_str};

verus! {

broadcast use vstd::string::group_string_axioms;

/// Output format for graph rendering.
#[derive(Debug, Clone, Copy, PartialEq, Eq, Structural)]
pub enum RenderFormat {
    Mermaid,
    Dot,
}

/// The Mermaid line(s) declaring a state.
pub open spec fn mermaid_node(name: Seq<char>, st: StateDef) -> Seq<char> {
    if st is Terminal {
        "    "@ + name + " : "@ + state_display(st) + "\n"@ + "    "@ + name + " --> [*]\n"@
    } else if st is Escape {
        "    "@ + name + " : "@ + state_display(st) + " (escape)\n"@
    } else {
        "    "@ + name + " : "@ + state_display(st) + "\n"@
    }
}

pub open spec fn mermaid_nodes(s: Seq<(Seq<char>, StateDef)>, n: int) -> Seq<char>
    decreases n,
{
    if n <= 0 {
        Seq::empty()
    } else {
        mermaid_nodes(s, n - 1) + mermaid_node(s[n - 1].0, s[n - 1].1)
    }
}

/// The entry queue that the first `n` profiles give: that of the first profile whose first
/// phase's produce step exists.
pub open spec fn entry_of_profiles(ir: WorkflowIR, n: int) -> Option<Seq<char>>
    decreases n,
{
    if n <= 0 {
        None
    } else {
        match entry_of_profiles(ir, n - 1) {
            Some(q) => Some(q),
            None => {
                let pr = profile_entries(ir.profiles)[n - 1].1;
                if pr.phases@.len() > 0 {
                    match map_get(phase_entries(ir.phases), pr.phases@[0]@) {
                        Some(ph) => match map_get(step_entries(ir.steps), ph.produce_step@) {
                            Some(st) => Some(st.queue@),
                            None => None,
                        },
                        None => None,
                    }
                } else {
                    None
                }
            },
        }
    }
}

/// The Mermaid line of an edge (none for a wildcard).
pub open spec fn mermaid_edge(s: Seq<(Seq<char>, StateDef)>, e: EdgeV) -> Seq<char> {
    let src = s[e.0].0;
    let dst = s[e.1].0;
    match e.2 {
        EdgeLabel::Claim(step) => "    "@ + src + " --> "@ + dst + " : claim ("@ + step + ")\n"@,
        EdgeLabel::Outcome(o, ok) => "    "@ + src + " --> "@ + dst + " : "@ + o + " ["@ + (if ok {
            "ok"@
        } else {
            "fail"@
        }) + "]\n"@,
        EdgeLabel::PhaseLink(ph) => "    "@ + src + " --> "@ + dst + " : phase ("@ + ph + ")\n"@,
        EdgeLabel::Wildcard => Seq::empty(),
    }
}

pub open spec fn mermaid_edges(s: Seq<(Seq<char>, StateDef)>, e: Seq<EdgeV>, n: int) -> Seq<char>
    decreases n,
{
    if n <= 0 {
        Seq::empty()
    } else {
        mermaid_edges(s, e, n - 1) + mermaid_edge(s, e[n - 1])
    }
}

/// The Mermaid state diagram of a workflow.
pub open spec fn mermaid_text(ir: WorkflowIR) -> Seq<char> {
    let s = state_entries(ir.states);
    let e = workflow_edges(ir);
    "stateDiagram-v2\n"@ + mermaid_nodes(s, s.len() as int) + "\n"@ + match entry_of_profiles(
        ir,
        profile_entries(ir.profiles).len() as int,
    ) {
        Some(q) => "    [*] --> "@ + q + "\n"@,
        None => Seq::empty(),
    } + mermaid_edges(s, e, e.len() as int)
}

/// The Graphviz attributes of a state.
pub open spec fn dot_attrs(st: StateDef) -> Seq<char> {
    match st {
        StateDef::Terminal { .. } => "shape=doublecircle, style=filled, fillcolor=\"#d4edda\""@,
        StateDef::Escape { .. } => "shape=diamond, style=filled, fillcolor=\"#fff3cd\""@,
        StateDef::Queue { .. } => "shape=box, style=\"rounded,filled\", fillcolor=\"#cce5ff\""@,
        StateDef::Action { .. } => "shape=box, style=\"rounded,filled\", fillcolor=\"#e2e3e5\""@,
    }
}

pub open spec fn dot_nodes(s: Seq<(Seq<char>, StateDef)>, n: int) -> Seq<char>
    decreases n,
{
    if n <= 0 {
        Seq::empty()
    } else {
        dot_nodes(s, n - 1) + "    "@ + s[n - 1].0 + " [label=\""@ + state_display(s[n - 1].1) + "\", "@ + dot_attrs(
            s[n - 1].1,
        ) + "];\n"@
    }
}

/// The label and extra attributes of an edge.
pub open spec fn dot_label(l: EdgeLabel) -> (Seq<char>, Seq<char>) {
    match l {
        EdgeLabel::Claim(step) => ("claim ("@ + step + ")"@, Seq::empty()),
        EdgeLabel::Outcome(o, ok) => (o, if ok {
            ", color=green"@
        } else {
            ", color=red"@
        }),
        EdgeLabel::PhaseLink(ph) => ("phase ("@ + ph + ")"@, ", style=dashed"@),
        EdgeLabel::Wildcard => ("*"@, ", style=dotted, color=gray"@),
    }
}

/// The Graphviz line of an edge.
pub open spec fn dot_edge(s: Seq<(Seq<char>, StateDef)>, e: EdgeV) -> Seq<char> {
    let (label, style) = dot_label(e.2);
    "    "@ + s[e.0].0 + " -> "@ + s[e.1].0 + " [label=\""@ + label + "\""@ + style + "];\n"@
}

pub open spec fn dot_edges(s: Seq<(Seq<char>, StateDef)>, e: Seq<EdgeV>, n: int) -> Seq<char>
    decreases n,
{
    if n <= 0 {
        Seq::empty()
    } else {
        dot_edges(s, e, n - 1) + dot_edge(s, e[n - 1])
    }
}

/// The Graphviz digraph of a workflow.
pub open spec fn dot_text(ir: WorkflowIR) -> Seq<char> {
    let s = state_entries(ir.states);
    let e = workflow_edges(ir);
    "digraph workflow {\n"@ + "    rankdir=TB;\n"@ + "    node [shape=box, style=rounded];\n\n"@ + dot_nodes(s, s.len() as int)
        + "\n"@ + dot_edges(s, e, e.len() as int) + "}\n"@
}


fn entry_queue_of(ir: &WorkflowIR) -> (r: Option<&String>)
    ensures
        match entry_of_profiles(*ir, profile_entries(ir.profiles).len() as int) {
            Some(q) => r matches Some(x) && x@ == q,
            None => r is None,
        },
{
    let n = profiles_len(&ir.profiles);
    for i in 0..n
        invariant
            n == profile_entries(ir.profiles).len(),
            entry_of_profiles(*ir, i as int) is None,
    {
        if let Some((_, profile)) = profiles_at(&ir.profiles, i) {
            if profile.phases.len() > 0 {
                if let Some(phase) = phases_get(&ir.phases, profile.phases[0].as_str()) {
                    if let Some(step) = steps_get(&ir.steps, phase.produce_step.as_str()) {
                        proof {
                            lemma_entry_stable(*ir, i + 1, n as int);
                        }
                        return Some(&step.queue);
                    }
                }
            }
        }
    }
    None
}

proof fn lemma_entry_stable(ir: WorkflowIR, m: int, n: int)
    requires
        0 <= m <= n,
        entry_of_profiles(ir, m) is Some,
    ensures
        entry_of_profiles(ir, n) == entry_of_profiles(ir, m),
    decreases n,
{
    if m < n {
        lemma_entry_stable(ir, m, n - 1);
    }
}


fn push_mermaid_edge(out: &mut String, graph: &crate::graph::WorkflowGraph, ir: &WorkflowIR, k: usize)
    requires
        graph_nodes(graph.graph) == map_keys(state_entries(ir.states)),
        k < graph_edges(graph.graph).len(),
    ensures
        final(out)@ == old(out)@ + mermaid_edge(state_entries(ir.states), graph_edges(graph.graph)[k as int]),
{
    let ghost o0 = out@;
    let (src, dst, kind) = graph_edge(&graph.graph, k);
    let src_name = graph_node(&graph.graph, src);
    let dst_name = graph_node(&graph.graph, dst);
    match kind {
        EdgeKind::Claim { step } => {
            push_str(out, "    ");
            push_str(out, src_name.as_str());
            push_str(out, " --> ");
            push_str(out, dst_name.as_str());
            push_str(out, " : claim (");
            push_str(out, step.as_str());
            push_str(out, ")\n");
        },
        EdgeKind::Outcome { outcome, is_success } => {
            push_str(out, "    ");
            push_str(out, src_name.as_str());
            push_str(out, " --> ");
            push_str(out, dst_name.as_str());
            push_str(out, " : ");
            push_str(out, outcome.as_str());
            push_str(out, " [");
            push_str(out, if *is_success { "ok" } else { "fail" });
            push_str(out, "]\n");
        },
        EdgeKind::PhaseLink { phase } => {
            push_str(out, "    ");
            push_str(out, src_name.as_str());
            push_str(out, " --> ");
            push_str(out, dst_name.as_str());
            push_str(out, " : phase (");
            push_str(out, phase.as_str());
            push_str(out, ")\n");
        },
        EdgeKind::Wildcard => {},
    }
    assert(out@ =~= o0 + mermaid_edge(state_entries(ir.states), graph_edges(graph.graph)[k as int]));
}

fn push_dot_edge(out: &mut String, graph: &crate::graph::WorkflowGraph, ir: &WorkflowIR, k: usize)
    requires
        graph_nodes(graph.graph) == map_keys(state_entries(ir.states)),
        k < graph_edges(graph.graph).len(),
    ensures
        final(out)@ == old(out)@ + dot_edge(state_entries(ir.states), graph_edges(graph.graph)[k as int]),
{
    let ghost o0 = out@;
    let (src, dst, kind) = graph_edge(&graph.graph, k);
    let src_name = graph_node(&graph.graph, src);
    let dst_name = graph_node(&graph.graph, dst);
    push_str(out, "    ");
    push_str(out, src_name.as_str());
    push_str(out, " -> ");
    push_str(out, dst_name.as_str());
    push_str(out, " [label=\"");
    match kind {
        EdgeKind::Claim { step } => {
            push_str(out, "claim (");
            push_str(out, step.as_str());
            push_str(out, ")");
            push_str(out, "\"");
        },
        EdgeKind::Outcome { outcome, is_success } => {
            push_str(out, outcome.as_str());
            push_str(out, "\"");
            push_str(out, if *is_success { ", color=green" } else { ", color=red" });
        },
        EdgeKind::PhaseLink { phase } => {
            push_str(out, "phase (");
            push_str(out, phase.as_str());
            push_str(out, ")");
            push_str(out, "\"");
            push_str(out, ", style=dashed");
        },
        EdgeKind::Wildcard => {
            push_str(out, "*");
            push_str(out, "\"");
            push_str(out, ", style=dotted, color=gray");
        },
    }
    push_str(out, "];\n");
    assert(out@ =~= o0 + dot_edge(state_entries(ir.states), graph_edges(graph.graph)[k as int]));
}

/// The Mermaid state diagram of a workflow.
#[verifier::spinoff_prover]
#[verifier::rlimit(40)]
pub fn render_mermaid(ir: &WorkflowIR) -> (r: String)
    requires
        graph_fits(*ir),
    ensures
        r@ == mermaid_text(*ir),
{
    let graph = build_graph(ir);
    let ghost s = state_entries(ir.states);
    let ghost e = workflow_edges(*ir);
    let mut out = String::from_str("stateDiagram-v2\n");
    let ghost o0 = out@;
    let n = states_len(&ir.states);
    for i in 0..n
        invariant
            n == s.len(),
            s == state_entries(ir.states),
            out@ == o0 + mermaid_nodes(s, i as int),
    {
        if let Some((name, st)) = states_at(&ir.states, i) {
            push_str(&mut out, "    ");
            push_str(&mut out, name.as_str());
            push_str(&mut out, " : ");
            push_str(&mut out, st.display_name());
            if st.is_terminal() {
                push_str(&mut out, "\n");
                push_str(&mut out, "    ");
                push_str(&mut out, name.as_str());
                push_str(&mut out, " --> [*]\n");
            } else if st.is_escape() {
                push_str(&mut out, " (escape)\n");
            } else {
                push_str(&mut out, "\n");
            }
        }
        assert(out@ =~= o0 + mermaid_nodes(s, i + 1));
    }
    push_str(&mut out, "\n");
    if let Some(q) = entry_queue_of(ir) {
        push_str(&mut out, "    [*] --> ");
        push_str(&mut out, q.as_str());
        push_str(&mut out, "\n");
    }
    let ghost o1 = out@;
    let m = graph_edge_count(&graph.graph);
    for k in 0..m
        invariant
            m == e.len(),
            e == graph_edges(graph.graph),
            graph_nodes(graph.graph) == map_keys(s),
            s == state_entries(ir.states),
            out@ == o1 + mermaid_edges(s, e, k as int),
    {
        push_mermaid_edge(&mut out, &graph, ir, k);
        assert(out@ =~= o1 + mermaid_edges(s, e, k + 1));
    }
    assert(out@ =~= mermaid_text(*ir));
    out
}

fn dot_attrs_of(st: &StateDef) -> (r: &'static str)
    ensures
        r@ == dot_attrs(*st),
{
    match st {
        StateDef::Terminal { .. } => "shape=doublecircle, style=filled, fillcolor=\"#d4edda\"",
        StateDef::Escape { .. } => "shape=diamond, style=filled, fillcolor=\"#fff3cd\"",
        StateDef::Queue { .. } => "shape=box, style=\"rounded,filled\", fillcolor=\"#cce5ff\"",
        StateDef::Action { .. } => "shape=box, style=\"rounded,filled\", fillcolor=\"#e2e3e5\"",
    }
}

/// The Graphviz digraph of a workflow.
#[verifier::spinoff_prover]
#[verifier::rlimit(40)]
pub fn render_dot(ir: &WorkflowIR) -> (r: String)
    requires
        graph_fits(*ir),
    ensures
        r@ == dot_text(*ir),
{
    let graph = build_graph(ir);
    let ghost s = state_entries(ir.states);
    let ghost e = workflow_edges(*ir);
    let mut out = String::from_str("digraph workflow {\n");
    push_str(&mut out, "    rankdir=TB;\n");
    push_str(&mut out, "    node [shape=box, style=rounded];\n\n");
    let ghost o0 = out@;
    let n = states_len(&ir.states);
    for i in 0..n
        invariant
            n == s.len(),
            s == state_entries(ir.states),
            out@ == o0 + dot_nodes(s, i as int),
    {
        if let Some((name, st)) = states_at(&ir.states, i) {
            push_str(&mut out, "    ");
            push_str(&mut out, name.as_str());
            push_str(&mut out, " [label=\"");
            push_str(&mut out, st.display_name());
            push_str(&mut out, "\", ");
            push_str(&mut out, dot_attrs_of(st));
            push_str(&mut out, "];\n");
        }
        assert(out@ =~= o0 + dot_nodes(s, i + 1));
    }
    push_str(&mut out, "\n");
    let ghost o1 = out@;
    let m = graph_edge_count(&graph.graph);
    for k in 0..m
        invariant
            m == e.len(),
            e == graph_edges(graph.graph),
            graph_nodes(graph.graph) == map_keys(s),
            s == state_entries(ir.states),
            out@ == o1 + dot_edges(s, e, k as int),
    {
        push_dot_edge(&mut out, &graph, ir, k);
        assert(out@ =~= o1 + dot_edges(s, e, k + 1));
    }
    push_str(&mut out, "}\n");
    assert(out@ =~= dot_text(*ir));
    out
}

/// The workflow graph in the given format.
pub fn render(ir: &WorkflowIR, format: RenderFormat) -> (r: String)
    requires
        graph_fits(*ir),
    ensures
        r@ == match format {
            RenderFormat::Mermaid => mermaid_text(*ir),
            RenderFormat::Dot => dot_text(*ir),
        },
{
    match format {
        RenderFormat::Mermaid => render_mermaid(ir),
        RenderFormat::Dot => render_dot(ir),
    }
}


proof fn lemma_mermaid_nodes_hold(s: Seq<(Seq<char>, StateDef)>, n: int, i: int)
    requires
        0 <= i < n <= s.len(),
    ensures
        contains_text(mermaid_nodes(s, n), "    "@ + s[i].0 + " : "@),
    decreases n,
{
    let m = "    "@ + s[i].0 + " : "@;
    if i < n - 1 {
        lemma_mermaid_nodes_hold(s, n - 1, i);
        lemma_contains_within(Seq::empty(), mermaid_nodes(s, n - 1), mermaid_node(s[n - 1].0, s[n - 1].1), m);
        assert(Seq::<char>::empty() + mermaid_nodes(s, n - 1) + mermaid_node(s[n - 1].0, s[n - 1].1) =~= mermaid_nodes(s, n));
    } else {
        let nd = mermaid_node(s[i].0, s[i].1);
        let rest = nd.subrange(m.len() as int, nd.len() as int);
        assert(nd =~= m + rest);
        lemma_contains_prefix(m, rest);
        lemma_contains_within(mermaid_nodes(s, n - 1), nd, Seq::empty(), m);
        assert(mermaid_nodes(s, n - 1) + nd + Seq::<char>::empty() =~= mermaid_nodes(s, n));
    }
}

proof fn lemma_dot_nodes_hold(s: Seq<(Seq<char>, StateDef)>, n: int, i: int)
    requires
        0 <= i < n <= s.len(),
    ensures
        contains_text(dot_nodes(s, n), "    "@ + s[i].0 + " [label=\""@),
    decreases n,
{
    let m = "    "@ + s[i].0 + " [label=\""@;
    let last = "    "@ + s[n - 1].0 + " [label=\""@ + state_display(s[n - 1].1) + "\", "@ + dot_attrs(s[n - 1].1) + "];\n"@;
    assert(dot_nodes(s, n) =~= dot_nodes(s, n - 1) + last);
    if i < n - 1 {
        lemma_dot_nodes_hold(s, n - 1, i);
        lemma_contains_within(Seq::empty(), dot_nodes(s, n - 1), last, m);
        assert(Seq::<char>::empty() + dot_nodes(s, n - 1) + last =~= dot_nodes(s, n));
    } else {
        let rest = last.subrange(m.len() as int, last.len() as int);
        assert(last =~= m + rest);
        lemma_contains_prefix(m, rest);
        lemma_contains_within(dot_nodes(s, n - 1), last, Seq::empty(), m);
        assert(dot_nodes(s, n - 1) + last + Seq::<char>::empty() =~= dot_nodes(s, n));
    }
}

/// The Mermaid text begins `stateDiagram-v2` and declares every state; the DOT text begins
/// `digraph workflow {`, ends with `}`, and declares every state.
pub proof fn lemma_render_names_every_state(ir: WorkflowIR)
    ensures
        mermaid_text(ir).subrange(0, "stateDiagram-v2\n"@.len() as int) == "stateDiagram-v2\n"@,
        dot_text(ir).subrange(0, "digraph workflow {\n"@.len() as int) == "digraph workflow {\n"@,
        dot_text(ir).subrange(dot_text(ir).len() - "}\n"@.len(), dot_text(ir).len() as int) == "}\n"@,
        forall|i: int| 0 <= i < state_entries(ir.states).len() ==> contains_text(
            mermaid_text(ir),
            "    "@ + (#[trigger] state_entries(ir.states)[i]).0 + " : "@,
        ) && contains_text(dot_text(ir), "    "@ + state_entries(ir.states)[i].0 + " [label=\""@),
{
    let s = state_entries(ir.states);
    let e = workflow_edges(ir);
    let mh = "stateDiagram-v2\n"@;
    let mn = mermaid_nodes(s, s.len() as int);
    let mt = mermaid_text(ir);
    let mrest = mt.subrange((mh.len() + mn.len()) as int, mt.len() as int);
    assert(mt =~= mh + mn + mrest);
    assert(mt.subrange(0, mh.len() as int) =~= mh);
    let dh = "digraph workflow {\n"@ + "    rankdir=TB;\n"@ + "    node [shape=box, style=rounded];\n\n"@;
    let dn = dot_nodes(s, s.len() as int);
    let dt = dot_text(ir);
    let drest = "\n"@ + dot_edges(s, e, e.len() as int) + "}\n"@;
    assert(dt =~= dh + dn + drest);
    assert(dt.subrange(0, "digraph workflow {\n"@.len() as int) =~= "digraph workflow {\n"@);
    assert(dt.subrange(dt.len() - "}\n"@.len(), dt.len() as int) =~= "}\n"@);
    assert forall|i: int| 0 <= i < s.len() implies contains_text(mt, "    "@ + (#[trigger] s[i]).0 + " : "@)
        && contains_text(dt, "    "@ + s[i].0 + " [label=\""@) by {
        lemma_mermaid_nodes_hold(s, s.len() as int, i);
        lemma_contains_within(mh, mn, mrest, "    "@ + s[i].0 + " : "@);
        lemma_dot_nodes_hold(s, s.len() as int, i);
        lemma_contains_within(dh, dn, drest, "    "@ + s[i].0 + " [label=\""@);
    }
}


proof fn lemma_mermaid_edges_hold(s: Seq<(Seq<char>, StateDef)>, e: Seq<EdgeV>, n: int, k: int)
    requires
        0 <= k < n <= e.len(),
    ensures
        contains_text(mermaid_edges(s, e, n), mermaid_edge(s, e[k])),
    decreases n,
{
    let prev = mermaid_edges(s, e, n - 1);
    let last = mermaid_edge(s, e[n - 1]);
    if k < n - 1 {
        lemma_mermaid_edges_hold(s, e, n - 1, k);
        lemma_contains_within(Seq::empty(), prev, last, mermaid_edge(s, e[k]));
        assert(Seq::<char>::empty() + prev + last =~= mermaid_edges(s, e, n));
    } else {
        lemma_contains_prefix(last, Seq::empty());
        assert(last + Seq::<char>::empty() =~= last);
        lemma_contains_within(prev, last, Seq::empty(), last);
        assert(prev + last + Seq::<char>::empty() =~= mermaid_edges(s, e, n));
    }
}

/// Every outcome edge of the graph has its Mermaid line, `SRC --> DST : OUTCOME [ok]` for
/// a success route and `SRC --> DST : OUTCOME [fail]` for a failure route.
pub proof fn lemma_mermaid_labels_outcomes(ir: WorkflowIR, k: int)
    requires
        0 <= k < workflow_edges(ir).len(),
        workflow_edges(ir)[k].2 is Outcome,
    ensures
        contains_text(
            mermaid_text(ir),
            "    "@ + state_entries(ir.states)[workflow_edges(ir)[k].0].0 + " --> "@ + state_entries(
                ir.states,
            )[workflow_edges(ir)[k].1].0 + " : "@ + workflow_edges(ir)[k].2->Outcome_0 + " ["@ + (if workflow_edges(
                ir,
            )[k].2->Outcome_1 {
                "ok"@
            } else {
                "fail"@
            }) + "]\n"@,
        ),
{
    let s = state_entries(ir.states);
    let e = workflow_edges(ir);
    let me = mermaid_edges(s, e, e.len() as int);
    let mt = mermaid_text(ir);
    let front = mt.subrange(0, mt.len() - me.len());
    assert(mt =~= front + me + Seq::empty());
    lemma_mermaid_edges_hold(s, e, e.len() as int, k);
    lemma_contains_within(front, me, Seq::empty(), mermaid_edge(s, e[k]));
}

} // verus!
