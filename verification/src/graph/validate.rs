//! Whole-workflow checks on the graph: produce actions that cannot succeed, states that
//! nothing leads to, states from which no terminal can be reached, and warnings.
use vstd::prelude::*;
use crate::error::{errors_view, warnings_view, Diagnostics, ErrorV, LoomError, LoomWarning, WarningV};
use crate::ir::{is_produce_state, phase_step_names, state_name, strings_view, StateDef, WorkflowIR};
use crate::maps::{
    has_key, index_of, key_index, keys_distinct, lemma_first_index, lemma_key_index_unique, map_get,
    outcome_entries, outcomes_len, phase_entries, phases_at, phases_get, phases_len, profile_entries,
    profiles_at, profiles_len, prompt_entries, prompts_at, prompts_get, prompts_len, state_entries,
    states_at, states_len, step_entries, steps_at, steps_get, steps_len,
};
use crate::graph::{
    build_graph, find_prompt_user, graph_fits, graph_has_path, graph_incoming_count, in_degree,
    node_lookup, node_of, prompt_user, reaches, workflow_edges, EdgeV,
};
use crate::text::push_char;

verus! {

/// States as (name, state) entries.
pub type States = Seq<(Seq<char>, StateDef)>;

/// The error for the state at `i`, if it is a produce action whose prompt has no success
/// outcome.
pub open spec fn produce_error(ir: WorkflowIR, i: int) -> Seq<ErrorV> {
    let s = state_entries(ir.states);
    match s[i].1 {
        StateDef::Action { prompt_name, .. } => if is_produce_state(s[i].1) {
            match map_get(prompt_entries(ir.prompts), prompt_name@) {
                Some(p) => if outcome_entries(p.success).len() == 0 {
                    seq![ErrorV::ProduceNoSuccess { action: s[i].0 }]
                } else {
                    Seq::empty()
                },
                None => Seq::empty(),
            }
        } else {
            Seq::empty()
        },
        _ => Seq::empty(),
    }
}

pub open spec fn produce_errors(ir: WorkflowIR, n: int) -> Seq<ErrorV>
    decreases n,
{
    if n <= 0 {
        Seq::empty()
    } else {
        produce_errors(ir, n - 1) + produce_error(ir, n - 1)
    }
}

/// The entry queues of the first `n` profiles: the queue of the produce step of each
/// profile's first phase.
pub open spec fn entry_queues(ir: WorkflowIR, n: int) -> Seq<Seq<char>>
    decreases n,
{
    if n <= 0 {
        Seq::empty()
    } else {
        let pr = profile_entries(ir.profiles)[n - 1].1;
        entry_queues(ir, n - 1) + if pr.phases@.len() > 0 {
            match map_get(phase_entries(ir.phases), pr.phases@[0]@) {
                Some(ph) => match map_get(step_entries(ir.steps), ph.produce_step@) {
                    Some(st) => seq![st.queue@],
                    None => Seq::empty(),
                },
                None => Seq::empty(),
            }
        } else {
            Seq::empty()
        }
    }
}

/// The first character of a segment of a name that starts at `j`, or `'\0'` where the
/// segment is empty.
pub open spec fn segment_initial(s: Seq<char>, j: int) -> char {
    if j < s.len() && s[j] != '_' {
        s[j]
    } else {
        '\0'
    }
}

/// The initials of the `_`-separated segments of `s` that start at or before `n`.
pub open spec fn initials_upto(s: Seq<char>, n: int) -> Seq<char>
    decreases n,
{
    if n <= 0 {
        seq![segment_initial(s, 0)]
    } else {
        initials_upto(s, n - 1) + if s[n - 1] == '_' {
            seq![segment_initial(s, n)]
        } else {
            Seq::empty()
        }
    }
}

/// The short step name suggested for a dead state: the initial of each `_`-separated
/// segment of its name (`'\0'` for an empty segment).
pub open spec fn step_hint(s: Seq<char>) -> Seq<char> {
    initials_upto(s, s.len() as int)
}

/// The error for the state at `i`, if it is neither a terminal nor an escape, nothing leads
/// to it, and it is no entry queue.
pub open spec fn dead_error(ir: WorkflowIR, i: int) -> Seq<ErrorV> {
    let s = state_entries(ir.states);
    let entries = entry_queues(ir, profile_entries(ir.profiles).len() as int);
    if s[i].1 is Terminal || s[i].1 is Escape || entries.contains(s[i].0) {
        Seq::empty()
    } else if in_degree(workflow_edges(ir), i) == 0 {
        seq![ErrorV::DeadState { name: s[i].0, hint: step_hint(s[i].0) }]
    } else {
        Seq::empty()
    }
}

pub open spec fn dead_errors(ir: WorkflowIR, n: int) -> Seq<ErrorV>
    decreases n,
{
    if n <= 0 {
        Seq::empty()
    } else {
        dead_errors(ir, n - 1) + dead_error(ir, n - 1)
    }
}

/// The workflow has a terminal state.
pub open spec fn has_terminal(s: States) -> bool {
    exists|j: int| 0 <= j < s.len() && (#[trigger] s[j]).1 is Terminal
}

/// Some terminal state can be reached from node `i`.
pub open spec fn reaches_terminal(ir: WorkflowIR, i: int) -> bool {
    let s = state_entries(ir.states);
    exists|j: int| 0 <= j < s.len() && (#[trigger] s[j]).1 is Terminal && reaches(workflow_edges(ir), i, j)
}

/// The error for the state at `i`, if it is neither terminal nor escape and no terminal can
/// be reached from it (where the workflow has a terminal at all).
pub open spec fn reach_error(ir: WorkflowIR, i: int) -> Seq<ErrorV> {
    let s = state_entries(ir.states);
    if s[i].1 is Terminal || s[i].1 is Escape || !has_terminal(s) || reaches_terminal(ir, i) {
        Seq::empty()
    } else {
        seq![ErrorV::TerminalUnreachable { name: s[i].0 }]
    }
}

pub open spec fn reach_errors(ir: WorkflowIR, n: int) -> Seq<ErrorV>
    decreases n,
{
    if n <= 0 {
        Seq::empty()
    } else {
        reach_errors(ir, n - 1) + reach_error(ir, n - 1)
    }
}

/// The step names of the first `n` phases, in order.
pub open spec fn phase_steps(h: Seq<(Seq<char>, crate::ir::PhaseDef)>, n: int) -> Seq<Seq<char>>
    decreases n,
{
    if n <= 0 {
        Seq::empty()
    } else {
        phase_steps(h, n - 1) + phase_step_names(h[n - 1].1)
    }
}

/// Some phase runs the step named `n`.
pub open spec fn in_some_phase(ir: WorkflowIR, n: Seq<char>) -> bool {
    let h = phase_entries(ir.phases);
    phase_steps(h, h.len() as int).contains(n)
}

pub open spec fn unused_steps(ir: WorkflowIR, n: int) -> Seq<WarningV>
    decreases n,
{
    if n <= 0 {
        Seq::empty()
    } else {
        let name = step_entries(ir.steps)[n - 1].0;
        unused_steps(ir, n - 1) + if in_some_phase(ir, name) {
            Seq::empty()
        } else {
            seq![WarningV::UnusedStep { name }]
        }
    }
}

/// The warning for the `i`th prompt, if it has one success outcome and no failure outcome
/// and some action runs it.
pub open spec fn single_outcome_warning(ir: WorkflowIR, i: int) -> Seq<WarningV> {
    let s = state_entries(ir.states);
    let (pn, p) = prompt_entries(ir.prompts)[i];
    if outcome_entries(p.success).len() == 1 && outcome_entries(p.failure).len() == 0 {
        match prompt_user(s, pn, s.len() as int) {
            Some(u) => seq![WarningV::SingleOutcomeAction { name: state_name(s[u].1) }],
            None => Seq::empty(),
        }
    } else {
        Seq::empty()
    }
}

pub open spec fn single_outcome_warnings(ir: WorkflowIR, n: int) -> Seq<WarningV>
    decreases n,
{
    if n <= 0 {
        Seq::empty()
    } else {
        single_outcome_warnings(ir, n - 1) + single_outcome_warning(ir, n - 1)
    }
}

/// Some state that is not an escape (a state of the workflow proper, or a terminal) can be
/// reached from node `i`.
pub open spec fn reaches_workflow(ir: WorkflowIR, i: int) -> bool {
    let s = state_entries(ir.states);
    exists|j: int| 0 <= j < s.len() && !((#[trigger] s[j]).1 is Escape) && reaches(workflow_edges(ir), i, j)
}

/// The error for the state at `i`, if it is an escape with no path back to the workflow:
/// no state other than an escape can be reached from it.
pub open spec fn escape_error(ir: WorkflowIR, i: int) -> Seq<ErrorV> {
    let s = state_entries(ir.states);
    if s[i].1 is Escape && !reaches_workflow(ir, i) {
        seq![ErrorV::EscapeUnreachable { name: s[i].0 }]
    } else {
        Seq::empty()
    }
}

pub open spec fn escape_errors(ir: WorkflowIR, n: int) -> Seq<ErrorV>
    decreases n,
{
    if n <= 0 {
        Seq::empty()
    } else {
        escape_errors(ir, n - 1) + escape_error(ir, n - 1)
    }
}

/// The errors that validation reports, in order.
pub open spec fn validation_errors(ir: WorkflowIR) -> Seq<ErrorV> {
    let n = state_entries(ir.states).len() as int;
    produce_errors(ir, n) + dead_errors(ir, n) + reach_errors(ir, n) + escape_errors(ir, n)
}

/// The warnings that validation reports, in order.
pub open spec fn validation_warnings(ir: WorkflowIR) -> Seq<WarningV> {
    unused_steps(ir, step_entries(ir.steps).len() as int) + single_outcome_warnings(
        ir,
        prompt_entries(ir.prompts).len() as int,
    )
}


/// In a map without repeated keys, the entry at position `i` is the one its key finds.
pub proof fn lemma_node_of_key(s: States, i: int)
    requires
        keys_distinct(s),
        0 <= i < s.len(),
    ensures
        node_of(s, s[i].0) == Some(i),
{
    let k = s[i].0;
    assert(has_key(s, k));
    lemma_first_index(s, k);
    assert(key_index(s, k, i));
    lemma_key_index_unique(s, k, i, index_of(s, k));
}

fn check_produce_has_success(ir: &WorkflowIR, diag: &mut Diagnostics)
    ensures
        errors_view(final(diag).errors@) == errors_view(old(diag).errors@) + produce_errors(*ir, state_entries(ir.states).len() as int),
        final(diag).warnings@ == old(diag).warnings@,
{
    let ghost e0 = errors_view(diag.errors@);
    let n = states_len(&ir.states);
    for i in 0..n
        invariant
            n == state_entries(ir.states).len(),
            errors_view(diag.errors@) == e0 + produce_errors(*ir, i as int),
            diag.warnings@ == old(diag).warnings@,
    {
        let ghost before = errors_view(diag.errors@);
        if let Some((name, st)) = states_at(&ir.states, i) {
            if let StateDef::Action { prompt_name, .. } = st {
                if st.is_produce() {
                    if let Some(p) = prompts_get(&ir.prompts, prompt_name.as_str()) {
                        if outcomes_len(&p.success) == 0 {
                            diag.error(LoomError::ProduceNoSuccess { action: name.clone() });
                        }
                    }
                }
            }
        }
        assert(errors_view(diag.errors@) =~= before + produce_error(*ir, i as int));
        assert(errors_view(diag.errors@) =~= e0 + produce_errors(*ir, i + 1));
    }
}

/// The queues where the workflow is entered, one per profile that has one.
fn entry_queue_list(ir: &WorkflowIR) -> (r: Vec<String>)
    ensures
        strings_view(r@) == entry_queues(*ir, profile_entries(ir.profiles).len() as int),
{
    let mut r: Vec<String> = Vec::new();
    let n = profiles_len(&ir.profiles);
    for i in 0..n
        invariant
            n == profile_entries(ir.profiles).len(),
            strings_view(r@) == entry_queues(*ir, i as int),
    {
        let ghost before = strings_view(r@);
        if let Some((_, profile)) = profiles_at(&ir.profiles, i) {
            if profile.phases.len() > 0 {
                if let Some(phase) = phases_get(&ir.phases, profile.phases[0].as_str()) {
                    if let Some(step) = steps_get(&ir.steps, phase.produce_step.as_str()) {
                        r.push(step.queue.clone());
                    }
                }
            }
        }
        assert(strings_view(r@) =~= entry_queues(*ir, i + 1));
    }
    r
}

/// Whether `v` holds `s`.
pub fn contains_string(v: &Vec<String>, s: &String) -> (b: bool)
    ensures
        b == strings_view(v@).contains(s@),
{
    for i in 0..v.len()
        invariant
            forall|j: int| 0 <= j < i ==> v@[j]@ != s@,
    {
        if v[i] == *s {
            assert(strings_view(v@)[i as int] == s@);
            return true;
        }
    }
    proof {
        if strings_view(v@).contains(s@) {
            let j = choose|j: int| 0 <= j < strings_view(v@).len() && strings_view(v@)[j] == s@;
            assert(v@[j]@ == s@);
        }
    }
    false
}

/// The initial of each `_`-separated segment of `name`.
pub fn step_hint_of(name: &str) -> (r: String)
    ensures
        r@ == step_hint(name@),
{
    let cs = crate::text::chars_of(name);
    let mut r = String::new();
    let first = if cs.len() > 0 && cs[0] != '_' { cs[0] } else { '\0' };
    push_char(&mut r, first);
    for i in 0..cs.len()
        invariant
            cs@ == name@,
            r@ == initials_upto(name@, i as int),
    {
        if cs[i] == '_' {
            let c = if i + 1 < cs.len() && cs[i + 1] != '_' { cs[i + 1] } else { '\0' };
            push_char(&mut r, c);
        }
        assert(r@ =~= initials_upto(name@, i + 1));
    }
    r
}

/// The graph of `ir` as `build_graph` makes it.
spec fn graph_of(ir: WorkflowIR, g: crate::graph::WorkflowGraph) -> bool {
    &&& crate::graph::graph_nodes(g.graph) == crate::maps::map_keys(state_entries(ir.states))
    &&& crate::maps::node_entries(g.node_indices) == crate::graph::node_table(state_entries(ir.states))
    &&& crate::graph::graph_edges(g.graph) == workflow_edges(ir)
    &&& keys_distinct(state_entries(ir.states))
    &&& graph_fits(ir)
}

fn check_dead_states(ir: &WorkflowIR, g: &crate::graph::WorkflowGraph, diag: &mut Diagnostics)
    requires
        graph_of(*ir, *g),
    ensures
        errors_view(final(diag).errors@) == errors_view(old(diag).errors@) + dead_errors(*ir, state_entries(ir.states).len() as int),
        final(diag).warnings@ == old(diag).warnings@,
{
    let ghost s = state_entries(ir.states);
    let ghost e0 = errors_view(diag.errors@);
    let entries = entry_queue_list(ir);
    let n = states_len(&ir.states);
    for i in 0..n
        invariant
            n == s.len(),
            s == state_entries(ir.states),
            graph_of(*ir, *g),
            strings_view(entries@) == entry_queues(*ir, profile_entries(ir.profiles).len() as int),
            errors_view(diag.errors@) == e0 + dead_errors(*ir, i as int),
            diag.warnings@ == old(diag).warnings@,
    {
        let ghost before = errors_view(diag.errors@);
        if let Some((name, st)) = states_at(&ir.states, i) {
            if !(st.is_terminal() || st.is_escape()) && !contains_string(&entries, name) {
                proof {
                    lemma_node_of_key(s, i as int);
                }
                if let Some(idx) = node_lookup(ir, &g.node_indices, name.as_str()) {
                    if graph_incoming_count(&g.graph, idx) == 0 {
                        let hint = step_hint_of(name.as_str());
                        diag.error(LoomError::DeadState { name: name.clone(), hint });
                    }
                }
            }
        }
        assert(errors_view(diag.errors@) =~= before + dead_error(*ir, i as int));
        assert(errors_view(diag.errors@) =~= e0 + dead_errors(*ir, i + 1));
    }
}

/// The node positions of the terminal states.
fn terminal_positions(ir: &WorkflowIR, g: &crate::graph::WorkflowGraph) -> (r: Vec<usize>)
    requires
        graph_of(*ir, *g),
    ensures
        forall|j: int| 0 <= j < state_entries(ir.states).len() ==> ((#[trigger] state_entries(ir.states)[j]).1 is Terminal
            <==> r@.contains(j as usize)),
        forall|k: int| 0 <= k < r@.len() ==> (#[trigger] r@[k]) < state_entries(ir.states).len(),
{
    let ghost s = state_entries(ir.states);
    let mut r: Vec<usize> = Vec::new();
    let n = states_len(&ir.states);
    for i in 0..n
        invariant
            n == s.len(),
            s == state_entries(ir.states),
            graph_of(*ir, *g),
            forall|j: int| 0 <= j < i ==> ((#[trigger] s[j]).1 is Terminal <==> r@.contains(j as usize)),
            forall|k: int| 0 <= k < r@.len() ==> (#[trigger] r@[k]) < i,
    {
        let ghost rb = r@;
        if let Some((name, st)) = states_at(&ir.states, i) {
            if st.is_terminal() {
                proof {
                    lemma_node_of_key(s, i as int);
                }
                if let Some(idx) = node_lookup(ir, &g.node_indices, name.as_str()) {
                    r.push(idx);
                    assert(r@[r@.len() - 1] == i);
                }
            }
        }
        assert forall|j: int| 0 <= j < i + 1 implies ((#[trigger] s[j]).1 is Terminal <==> r@.contains(j as usize)) by {
            if r@.contains(j as usize) {
                let k = choose|k: int| 0 <= k < r@.len() && r@[k] == j as usize;
                if k < rb.len() {
                    assert(rb[k] == r@[k]);
                    assert(rb.contains(j as usize));
                }
            }
            if j < i && rb.contains(j as usize) {
                let k = choose|k: int| 0 <= k < rb.len() && rb[k] == j as usize;
                assert(r@[k] == rb[k]);
            }
            if j == i && s[j].1 is Terminal {
                assert(r@[r@.len() - 1] == j as usize);
            }
        }
    }
    r
}

fn check_terminal_reachability(ir: &WorkflowIR, g: &crate::graph::WorkflowGraph, diag: &mut Diagnostics)
    requires
        graph_of(*ir, *g),
    ensures
        errors_view(final(diag).errors@) == errors_view(old(diag).errors@) + reach_errors(*ir, state_entries(ir.states).len() as int),
        final(diag).warnings@ == old(diag).warnings@,
{
    let ghost s = state_entries(ir.states);
    let ghost e0 = errors_view(diag.errors@);
    let terminals = terminal_positions(ir, g);
    let n = states_len(&ir.states);
    proof {
        if has_terminal(s) {
            let j = choose|j: int| 0 <= j < s.len() && (#[trigger] s[j]).1 is Terminal;
            assert(terminals@.contains(j as usize));
        }
        if terminals.len() > 0 {
            assert(s[terminals@[0] as int].1 is Terminal);
        }
    }
    if terminals.len() == 0 {
        proof {
            assert forall|m: int| 0 <= m <= n implies #[trigger] reach_errors(*ir, m) =~= Seq::<ErrorV>::empty() by {
                lemma_no_reach_errors(*ir, m);
            }
            assert(errors_view(diag.errors@) =~= e0 + reach_errors(*ir, n as int));
        }
        return;
    }
    for i in 0..n
        invariant
            n == s.len(),
            s == state_entries(ir.states),
            graph_of(*ir, *g),
            has_terminal(s),
            forall|j: int| 0 <= j < s.len() ==> ((#[trigger] s[j]).1 is Terminal <==> terminals@.contains(j as usize)),
            forall|k: int| 0 <= k < terminals@.len() ==> (#[trigger] terminals@[k]) < s.len(),
            errors_view(diag.errors@) == e0 + reach_errors(*ir, i as int),
            diag.warnings@ == old(diag).warnings@,
    {
        let ghost before = errors_view(diag.errors@);
        if let Some((name, st)) = states_at(&ir.states, i) {
            if !(st.is_terminal() || st.is_escape()) {
                proof {
                    lemma_node_of_key(s, i as int);
                }
                if let Some(idx) = node_lookup(ir, &g.node_indices, name.as_str()) {
                    let mut found = false;
                    for k in 0..terminals.len()
                        invariant
                            idx == i,
                            i < s.len(),
                            s == state_entries(ir.states),
                            graph_of(*ir, *g),
                            forall|m: int| 0 <= m < terminals@.len() ==> (#[trigger] terminals@[m]) < s.len(),
                            found == exists|m: int| 0 <= m < k && reaches(workflow_edges(*ir), i as int, #[trigger] terminals@[m] as int),
                    {
                        if graph_has_path(&g.graph, idx, terminals[k]) {
                            found = true;
                        }
                    }
                    proof {
                        if reaches_terminal(*ir, i as int) {
                            let j = choose|j: int| 0 <= j < s.len() && (#[trigger] s[j]).1 is Terminal && reaches(workflow_edges(*ir), i as int, j);
                            assert(terminals@.contains(j as usize));
                            let m = choose|m: int| 0 <= m < terminals@.len() && terminals@[m] == j as usize;
                            assert(reaches(workflow_edges(*ir), i as int, terminals@[m] as int));
                        }
                        if found {
                            let m = choose|m: int| 0 <= m < terminals@.len() && reaches(workflow_edges(*ir), i as int, #[trigger] terminals@[m] as int);
                            let j = terminals@[m] as int;
                            assert(terminals@.contains(j as usize));
                            assert(s[j].1 is Terminal);
                        }
                    }
                    if !found {
                        diag.error(LoomError::TerminalUnreachable { name: name.clone() });
                    }
                }
            }
        }
        assert(errors_view(diag.errors@) =~= before + reach_error(*ir, i as int));
        assert(errors_view(diag.errors@) =~= e0 + reach_errors(*ir, i + 1));
    }
}

proof fn lemma_no_reach_errors(ir: WorkflowIR, m: int)
    requires
        !has_terminal(state_entries(ir.states)),
    ensures
        reach_errors(ir, m) =~= Seq::<ErrorV>::empty(),
    decreases m,
{
    if m > 0 {
        lemma_no_reach_errors(ir, m - 1);
    }
}

/// The names of the steps that the phases run, in order.
fn phase_step_list(ir: &WorkflowIR) -> (r: Vec<String>)
    ensures
        strings_view(r@) == phase_steps(phase_entries(ir.phases), phase_entries(ir.phases).len() as int),
{
    let ghost h = phase_entries(ir.phases);
    let mut r: Vec<String> = Vec::new();
    let n = phases_len(&ir.phases);
    for i in 0..n
        invariant
            n == h.len(),
            h == phase_entries(ir.phases),
            strings_view(r@) == phase_steps(h, i as int),
    {
        if let Some((_, phase)) = phases_at(&ir.phases, i) {
            r.push(phase.produce_step.clone());
            if let Some(gs) = &phase.gate_step {
                r.push(gs.clone());
            }
        }
        assert(strings_view(r@) =~= phase_steps(h, i + 1));
    }
    r
}

fn check_warnings(ir: &WorkflowIR, diag: &mut Diagnostics)
    ensures
        warnings_view(final(diag).warnings@) == warnings_view(old(diag).warnings@) + validation_warnings(*ir),
        final(diag).errors@ == old(diag).errors@,
{
    let ghost w0 = warnings_view(diag.warnings@);
    let in_phases = phase_step_list(ir);
    let n = steps_len(&ir.steps);
    for i in 0..n
        invariant
            n == step_entries(ir.steps).len(),
            strings_view(in_phases@) == phase_steps(phase_entries(ir.phases), phase_entries(ir.phases).len() as int),
            warnings_view(diag.warnings@) == w0 + unused_steps(*ir, i as int),
            diag.errors@ == old(diag).errors@,
    {
        let ghost before = warnings_view(diag.warnings@);
        let ghost sn = step_entries(ir.steps)[i as int].0;
        if let Some((name, _)) = steps_at(&ir.steps, i) {
            if !contains_string(&in_phases, name) {
                diag.warn(LoomWarning::UnusedStep { name: name.clone() });
                assert(warnings_view(diag.warnings@) =~= before.push(WarningV::UnusedStep { name: sn }));
            }
        }
        assert(unused_steps(*ir, i + 1) == unused_steps(*ir, i as int) + if in_some_phase(*ir, sn) {
            Seq::<WarningV>::empty()
        } else {
            seq![WarningV::UnusedStep { name: sn }]
        });
        assert(warnings_view(diag.warnings@) =~= w0 + unused_steps(*ir, i + 1));
    }
    let ghost w1 = warnings_view(diag.warnings@);
    let m = prompts_len(&ir.prompts);
    for i in 0..m
        invariant
            m == prompt_entries(ir.prompts).len(),
            warnings_view(diag.warnings@) == w1 + single_outcome_warnings(*ir, i as int),
            diag.errors@ == old(diag).errors@,
    {
        let ghost before = warnings_view(diag.warnings@);
        if let Some((pn, p)) = prompts_at(&ir.prompts, i) {
            if outcomes_len(&p.success) == 1 && outcomes_len(&p.failure) == 0 {
                if let Some(u) = find_prompt_user(ir, pn) {
                    if let Some((_, st)) = states_at(&ir.states, u) {
                        let name = st.name();
                        diag.warn(LoomWarning::SingleOutcomeAction { name: String::from_str(name) });
                    }
                }
            }
        }
        assert(warnings_view(diag.warnings@) =~= before + single_outcome_warning(*ir, i as int));
        assert(warnings_view(diag.warnings@) =~= w1 + single_outcome_warnings(*ir, i + 1));
    }
}

/// Whether some state other than an escape can be reached from node `i`.
fn reaches_non_escape(ir: &WorkflowIR, g: &crate::graph::WorkflowGraph, i: usize) -> (b: bool)
    requires
        graph_of(*ir, *g),
        i < state_entries(ir.states).len(),
    ensures
        b == reaches_workflow(*ir, i as int),
{
    let ghost s = state_entries(ir.states);
    let n = states_len(&ir.states);
    for j in 0..n
        invariant
            n == s.len(),
            s == state_entries(ir.states),
            i < s.len(),
            graph_of(*ir, *g),
            forall|k: int| 0 <= k < j ==> !(!((#[trigger] s[k]).1 is Escape) && reaches(workflow_edges(*ir), i as int, k)),
    {
        let (_name, st) = states_at(&ir.states, j).unwrap();
        if !st.is_escape() {
            assert(crate::maps::map_keys(s).len() == s.len());
            if graph_has_path(&g.graph, i, j) {
                assert(!(s[j as int].1 is Escape) && reaches(workflow_edges(*ir), i as int, j as int));
                return true;
            }
        }
    }
    false
}

fn check_escape_reachability(ir: &WorkflowIR, g: &crate::graph::WorkflowGraph, diag: &mut Diagnostics)
    requires
        graph_of(*ir, *g),
    ensures
        errors_view(final(diag).errors@) == errors_view(old(diag).errors@) + escape_errors(*ir, state_entries(ir.states).len() as int),
        final(diag).warnings@ == old(diag).warnings@,
{
    let ghost e0 = errors_view(diag.errors@);
    let n = states_len(&ir.states);
    for i in 0..n
        invariant
            n == state_entries(ir.states).len(),
            graph_of(*ir, *g),
            errors_view(diag.errors@) == e0 + escape_errors(*ir, i as int),
            diag.warnings@ == old(diag).warnings@,
    {
        let ghost before = errors_view(diag.errors@);
        let (name, st) = states_at(&ir.states, i).unwrap();
        if st.is_escape() {
            if !reaches_non_escape(ir, g, i) {
                diag.error(LoomError::EscapeUnreachable { name: name.clone() });
            }
        }
        assert(errors_view(diag.errors@) =~= before + escape_error(*ir, i as int));
        assert(errors_view(diag.errors@) =~= e0 + escape_errors(*ir, i + 1));
    }
}

/// Runs every validation check on a workflow: errors for produce actions without a success
/// outcome, dead states, states that cannot reach a terminal, and escape states with no path
/// back to the workflow; warnings for steps that no phase runs and actions with a single
/// outcome.
pub fn validate(ir: &WorkflowIR) -> (d: Diagnostics)
    requires
        graph_fits(*ir),
    ensures
        errors_view(d.errors@) == validation_errors(*ir),
        warnings_view(d.warnings@) == validation_warnings(*ir),
{
    let graph = build_graph(ir);
    let mut diag = Diagnostics::new();
    assert(errors_view(diag.errors@) =~= Seq::<ErrorV>::empty());
    assert(warnings_view(diag.warnings@) =~= Seq::<WarningV>::empty());
    check_produce_has_success(ir, &mut diag);
    check_dead_states(ir, &graph, &mut diag);
    check_terminal_reachability(ir, &graph, &mut diag);
    check_escape_reachability(ir, &graph, &mut diag);
    check_warnings(ir, &mut diag);
    diag
}

/// No error of `es` is a dead-state error for the state named `name`.
pub open spec fn no_dead_state_for(es: Seq<ErrorV>, name: Seq<char>) -> bool {
    forall|j: int| 0 <= j < es.len() ==> !((#[trigger] es[j]) matches ErrorV::DeadState { name: x, .. } && x == name)
}

proof fn lemma_no_dead_concat(a: Seq<ErrorV>, b: Seq<ErrorV>, name: Seq<char>)
    requires
        no_dead_state_for(a, name),
        no_dead_state_for(b, name),
    ensures
        no_dead_state_for(a + b, name),
{
    assert forall|j: int| 0 <= j < (a + b).len() implies !((#[trigger] (a + b)[j]) matches ErrorV::DeadState { name: x, .. } && x == name) by {
        if j < a.len() {
            assert((a + b)[j] == a[j]);
        } else {
            assert((a + b)[j] == b[j - a.len()]);
        }
    }
}

proof fn lemma_produce_errors_not_dead(ir: WorkflowIR, n: int, name: Seq<char>)
    ensures
        no_dead_state_for(produce_errors(ir, n), name),
    decreases n,
{
    if n > 0 {
        lemma_produce_errors_not_dead(ir, n - 1, name);
        lemma_no_dead_concat(produce_errors(ir, n - 1), produce_error(ir, n - 1), name);
    }
}

proof fn lemma_reach_errors_not_dead(ir: WorkflowIR, n: int, name: Seq<char>)
    ensures
        no_dead_state_for(reach_errors(ir, n), name),
    decreases n,
{
    if n > 0 {
        lemma_reach_errors_not_dead(ir, n - 1, name);
        lemma_no_dead_concat(reach_errors(ir, n - 1), reach_error(ir, n - 1), name);
    }
}

proof fn lemma_escape_errors_not_dead(ir: WorkflowIR, n: int, name: Seq<char>)
    ensures
        no_dead_state_for(escape_errors(ir, n), name),
    decreases n,
{
    if n > 0 {
        lemma_escape_errors_not_dead(ir, n - 1, name);
        lemma_no_dead_concat(escape_errors(ir, n - 1), escape_error(ir, n - 1), name);
    }
}

proof fn lemma_dead_errors_spare_entries(ir: WorkflowIR, n: int, name: Seq<char>)
    requires
        entry_queues(ir, profile_entries(ir.profiles).len() as int).contains(name),
    ensures
        no_dead_state_for(dead_errors(ir, n), name),
    decreases n,
{
    if n > 0 {
        lemma_dead_errors_spare_entries(ir, n - 1, name);
        lemma_no_dead_concat(dead_errors(ir, n - 1), dead_error(ir, n - 1), name);
    }
}

proof fn lemma_entry_queue_listed(ir: WorkflowIR, n: int, k: int, q: Seq<char>)
    requires
        0 <= k < n <= profile_entries(ir.profiles).len(),
        profile_entries(ir.profiles)[k].1.phases@.len() > 0,
        map_get(phase_entries(ir.phases), profile_entries(ir.profiles)[k].1.phases@[0]@) matches Some(ph)
            && map_get(step_entries(ir.steps), ph.produce_step@) matches Some(st) && st.queue@ == q,
    ensures
        entry_queues(ir, n).contains(q),
    decreases n,
{
    let prev = entry_queues(ir, n - 1);
    if k < n - 1 {
        lemma_entry_queue_listed(ir, n - 1, k, q);
        let j = choose|j: int| 0 <= j < prev.len() && prev[j] == q;
        assert(entry_queues(ir, n)[j] == q);
    } else {
        assert(entry_queues(ir, n)[prev.len() as int] == q);
    }
}

/// The queue where any profile starts (the queue of its first phase's produce step) is
/// never reported as a dead state, whichever profile it belongs to.
pub proof fn lemma_entry_queues_are_not_dead(ir: WorkflowIR, k: int)
    requires
        0 <= k < profile_entries(ir.profiles).len(),
        profile_entries(ir.profiles)[k].1.phases@.len() > 0,
        map_get(phase_entries(ir.phases), profile_entries(ir.profiles)[k].1.phases@[0]@) is Some,
        map_get(
            step_entries(ir.steps),
            map_get(phase_entries(ir.phases), profile_entries(ir.profiles)[k].1.phases@[0]@)->0.produce_step@,
        ) is Some,
    ensures
        forall|j: int| 0 <= j < validation_errors(ir).len() ==> !((#[trigger] validation_errors(ir)[j]) matches ErrorV::DeadState {
            name: x,
            ..
        } && x == map_get(
            step_entries(ir.steps),
            map_get(phase_entries(ir.phases), profile_entries(ir.profiles)[k].1.phases@[0]@)->0.produce_step@,
        )->0.queue@),
{
    let ph = map_get(phase_entries(ir.phases), profile_entries(ir.profiles)[k].1.phases@[0]@)->0;
    let st = map_get(step_entries(ir.steps), ph.produce_step@)->0;
    let q = st.queue@;
    let n = state_entries(ir.states).len() as int;
    lemma_entry_queue_listed(ir, profile_entries(ir.profiles).len() as int, k, q);
    lemma_produce_errors_not_dead(ir, n, q);
    lemma_dead_errors_spare_entries(ir, n, q);
    lemma_reach_errors_not_dead(ir, n, q);
    lemma_escape_errors_not_dead(ir, n, q);
    lemma_no_dead_concat(produce_errors(ir, n), dead_errors(ir, n), q);
    lemma_no_dead_concat(produce_errors(ir, n) + dead_errors(ir, n), reach_errors(ir, n), q);
    lemma_no_dead_concat(produce_errors(ir, n) + dead_errors(ir, n) + reach_errors(ir, n), escape_errors(ir, n), q);
    assert(no_dead_state_for(validation_errors(ir), q));
}

} // verus!
