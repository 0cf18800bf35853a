//! Structural differences between two versions of a workflow.
use vstd::prelude::*;
use indexmap::IndexMap;
use crate::ir::{
    ir_valid, opt_view, state_display, strings_view, ActionOverride, PhaseDef, ProfileDef, StateDef, StepDef, WorkflowIR,
};
use crate::prompt::PromptFile;
use crate::codegen::toml_emit::kind_word;
use crate::maps::{
    keys_distinct, lemma_get_own, has_key, map_get, view_entries, lemma_view_keys, outcome_entries, outcomes_at, outcomes_get, outcomes_len,
    override_entries, overrides_at, overrides_get, overrides_len, phase_entries, phases_at, phases_get, phases_len,
    profile_entries, profiles_at, profiles_get, profiles_len, prompt_entries, prompts_at, prompts_get, prompts_len,
    state_entries, states_at, states_get, states_len, step_entries, steps_at, steps_get, steps_len,
};
use crate::text::{push_char, push_str, ascii_upper, chars_of};

verus! {

broadcast use vstd::string::group_string_axioms;

/// The kind of change detected between two workflow versions.
#[derive(Debug, Clone, Copy, PartialEq, Eq, Structural)]
pub enum ChangeKind {
    Added,
    Removed,
    Changed,
}

/// A single structural change between two workflow versions.
#[derive(Debug)]
pub struct Change {
    pub kind: ChangeKind,
    pub category: String,
    pub name: String,
    pub detail: Option<String>,
}

/// A change as a value: (kind, category, name, detail).
pub type ChangeV = (ChangeKind, Seq<char>, Seq<char>, Option<Seq<char>>);

impl View for Change {
    type V = ChangeV;

    open spec fn view(&self) -> ChangeV {
        (self.kind, self.category@, self.name@, opt_view(self.detail))
    }
}

/// Changes as values, in order.
pub open spec fn changes_view(v: Seq<Change>) -> Seq<ChangeV> {
    v.map_values(|c: Change| c@)
}

pub open spec fn one(kind: ChangeKind, category: Seq<char>, name: Seq<char>, detail: Option<Seq<char>>) -> Seq<ChangeV> {
    seq![(kind, category, name, detail)]
}

/// `kind "Display Name"`.
pub open spec fn state_summary(st: StateDef) -> Seq<char> {
    kind_word(st) + " \""@ + state_display(st) + "\""@
}

/// The changes between two versions of the state `name`.
pub open spec fn state_changes(name: Seq<char>, os: StateDef, ns: StateDef) -> Seq<ChangeV> {
    (if kind_word(os) != kind_word(ns) {
        one(ChangeKind::Changed, "state"@, name, Some("kind "@ + kind_word(os) + " -> "@ + kind_word(ns)))
    } else {
        Seq::empty()
    }) + if state_display(os) != state_display(ns) {
        one(
            ChangeKind::Changed,
            "state"@,
            name,
            Some("display_name \""@ + state_display(os) + "\" -> \""@ + state_display(ns) + "\""@),
        )
    } else {
        Seq::empty()
    }
}

/// The changes of the first `n` states of the new version.
pub open spec fn new_state_changes(o: Seq<(Seq<char>, StateDef)>, nw: Seq<(Seq<char>, StateDef)>, n: int) -> Seq<ChangeV>
    decreases n,
{
    if n <= 0 {
        Seq::empty()
    } else {
        let (name, ns) = nw[n - 1];
        new_state_changes(o, nw, n - 1) + match map_get(o, name) {
            None => one(ChangeKind::Added, "state"@, name, Some(state_summary(ns))),
            Some(os) => state_changes(name, os, ns),
        }
    }
}

/// The removals among the first `n` states of the old version.
pub open spec fn removed_states(o: Seq<(Seq<char>, StateDef)>, nw: Seq<(Seq<char>, StateDef)>, n: int) -> Seq<ChangeV>
    decreases n,
{
    if n <= 0 {
        Seq::empty()
    } else {
        removed_states(o, nw, n - 1) + if has_key(nw, o[n - 1].0) {
            Seq::empty()
        } else {
            one(ChangeKind::Removed, "state"@, o[n - 1].0, Some(state_summary(o[n - 1].1)))
        }
    }
}

/// The changes of the first `n` steps of the new version.
pub open spec fn new_step_changes(o: Seq<(Seq<char>, StepDef)>, nw: Seq<(Seq<char>, StepDef)>, n: int) -> Seq<ChangeV>
    decreases n,
{
    if n <= 0 {
        Seq::empty()
    } else {
        let (name, ns) = nw[n - 1];
        new_step_changes(o, nw, n - 1) + match map_get(o, name) {
            None => one(ChangeKind::Added, "step"@, name, None),
            Some(os) => if os.queue@ != ns.queue@ || os.action@ != ns.action@ {
                one(
                    ChangeKind::Changed,
                    "step"@,
                    name,
                    Some(os.queue@ + "->"@ + os.action@ + " -> "@ + ns.queue@ + "->"@ + ns.action@),
                )
            } else {
                Seq::empty()
            },
        }
    }
}

/// The removals among the first `n` entries of the old version (for maps whose removals
/// carry no detail).
pub open spec fn removed_keys<V>(category: Seq<char>, o: Seq<(Seq<char>, V)>, nw: Seq<(Seq<char>, V)>, n: int) -> Seq<ChangeV>
    decreases n,
{
    if n <= 0 {
        Seq::empty()
    } else {
        removed_keys(category, o, nw, n - 1) + if has_key(nw, o[n - 1].0) {
            Seq::empty()
        } else {
            one(ChangeKind::Removed, category, o[n - 1].0, None)
        }
    }
}

/// A gate step as text: its name, or `none`.
pub open spec fn gate_text(g: Option<Seq<char>>) -> Seq<char> {
    match g {
        Some(x) => x,
        None => "none"@,
    }
}

/// The changes of the first `n` phases of the new version.
pub open spec fn new_phase_changes(o: Seq<(Seq<char>, PhaseDef)>, nw: Seq<(Seq<char>, PhaseDef)>, n: int) -> Seq<ChangeV>
    decreases n,
{
    if n <= 0 {
        Seq::empty()
    } else {
        let (name, np) = nw[n - 1];
        new_phase_changes(o, nw, n - 1) + match map_get(o, name) {
            None => one(ChangeKind::Added, "phase"@, name, None),
            Some(op) => if op.produce_step@ != np.produce_step@ || opt_view(op.gate_step) != opt_view(np.gate_step) {
                one(
                    ChangeKind::Changed,
                    "phase"@,
                    name,
                    Some("produce "@ + op.produce_step@ + "->"@ + np.produce_step@ + ", gate "@ + gate_text(
                        opt_view(op.gate_step),
                    ) + "->"@ + gate_text(opt_view(np.gate_step))),
                )
            } else {
                Seq::empty()
            },
        }
    }
}

/// A list of names as `["a", "b"]`.
pub open spec fn list_text(v: Seq<Seq<char>>) -> Seq<char> {
    "["@ + list_items(v) + "]"@
}

pub open spec fn list_items(v: Seq<Seq<char>>) -> Seq<char>
    decreases v.len(),
{
    if v.len() == 0 {
        Seq::empty()
    } else if v.len() == 1 {
        "\""@ + v[0] + "\""@
    } else {
        list_items(v.drop_last()) + ", \""@ + v.last() + "\""@
    }
}

/// Two maps of overrides hold the same entries, in any order.
pub open spec fn overrides_equal(a: Seq<(Seq<char>, ActionOverride)>, b: Seq<(Seq<char>, ActionOverride)>) -> bool {
    &&& a.len() == b.len()
    &&& forall|i: int| 0 <= i < a.len() ==> map_get(view_entries(b), #[trigger] a[i].0) == Some(a[i].1@)
}

/// The changes between two versions of the profile `name`.
pub open spec fn profile_changes(name: Seq<char>, op: ProfileDef, np: ProfileDef) -> Seq<ChangeV> {
    (if strings_view(op.phases@) != strings_view(np.phases@) {
        one(
            ChangeKind::Changed,
            "profile"@,
            name,
            Some("phases "@ + list_text(strings_view(op.phases@)) + " -> "@ + list_text(strings_view(np.phases@))),
        )
    } else {
        Seq::empty()
    }) + (if op.output != np.output {
        one(ChangeKind::Changed, "profile"@, name, Some("output changed"@))
    } else {
        Seq::empty()
    }) + if !overrides_equal(override_entries(op.overrides), override_entries(np.overrides)) {
        one(ChangeKind::Changed, "profile"@, name, Some("overrides changed"@))
    } else {
        Seq::empty()
    }
}

/// The changes of the first `n` profiles of the new version.
pub open spec fn new_profile_changes(o: Seq<(Seq<char>, ProfileDef)>, nw: Seq<(Seq<char>, ProfileDef)>, n: int) -> Seq<ChangeV>
    decreases n,
{
    if n <= 0 {
        Seq::empty()
    } else {
        let (name, np) = nw[n - 1];
        new_profile_changes(o, nw, n - 1) + match map_get(o, name) {
            None => one(ChangeKind::Added, "profile"@, name, None),
            Some(op) => profile_changes(name, op, np),
        }
    }
}

/// The changes among the first `n` routes of the new map of a prompt's outcomes.
pub open spec fn new_route_changes(pn: Seq<char>, kind: Seq<char>, o: Seq<(Seq<char>, String)>, nw: Seq<(Seq<char>, String)>, n: int) -> Seq<ChangeV>
    decreases n,
{
    if n <= 0 {
        Seq::empty()
    } else {
        let (out, t) = nw[n - 1];
        new_route_changes(pn, kind, o, nw, n - 1) + match map_get(o, out) {
            None => one(ChangeKind::Added, "outcome"@, pn + "."@ + out, Some("-> "@ + t@ + " ["@ + kind + "]"@)),
            Some(ot) => if ot@ != t@ {
                one(ChangeKind::Changed, "outcome"@, pn + "."@ + out, Some(ot@ + " -> "@ + t@))
            } else {
                Seq::empty()
            },
        }
    }
}

/// The removals among the first `n` routes of the old map of a prompt's outcomes.
pub open spec fn removed_routes(pn: Seq<char>, kind: Seq<char>, o: Seq<(Seq<char>, String)>, nw: Seq<(Seq<char>, String)>, n: int) -> Seq<ChangeV>
    decreases n,
{
    if n <= 0 {
        Seq::empty()
    } else {
        removed_routes(pn, kind, o, nw, n - 1) + if has_key(nw, o[n - 1].0) {
            Seq::empty()
        } else {
            one(ChangeKind::Removed, "outcome"@, pn + "."@ + o[n - 1].0, Some("["@ + kind + "]"@))
        }
    }
}

/// The changes between two maps of outcome routes of the prompt `pn`.
pub open spec fn route_changes(pn: Seq<char>, kind: Seq<char>, o: Seq<(Seq<char>, String)>, nw: Seq<(Seq<char>, String)>) -> Seq<ChangeV> {
    new_route_changes(pn, kind, o, nw, nw.len() as int) + removed_routes(pn, kind, o, nw, o.len() as int)
}

/// The outcome changes of the first `n` prompts of the new version that the old one has.
pub open spec fn prompt_changes(o: Seq<(Seq<char>, PromptFile)>, nw: Seq<(Seq<char>, PromptFile)>, n: int) -> Seq<ChangeV>
    decreases n,
{
    if n <= 0 {
        Seq::empty()
    } else {
        let (pn, np) = nw[n - 1];
        prompt_changes(o, nw, n - 1) + match map_get(o, pn) {
            None => Seq::empty(),
            Some(op) => route_changes(pn, "success"@, outcome_entries(op.success), outcome_entries(np.success))
                + route_changes(pn, "failure"@, outcome_entries(op.failure), outcome_entries(np.failure)),
        }
    }
}

/// Every change from `old` to `new`: states, steps, phases, profiles, then outcomes.
pub open spec fn workflow_changes(old: WorkflowIR, new: WorkflowIR) -> Seq<ChangeV> {
    let (os, ns) = (state_entries(old.states), state_entries(new.states));
    let (ot, nt) = (step_entries(old.steps), step_entries(new.steps));
    let (oh, nh) = (phase_entries(old.phases), phase_entries(new.phases));
    let (op, np) = (profile_entries(old.profiles), profile_entries(new.profiles));
    let (opr, npr) = (prompt_entries(old.prompts), prompt_entries(new.prompts));
    new_state_changes(os, ns, ns.len() as int) + removed_states(os, ns, os.len() as int) + new_step_changes(ot, nt, nt.len() as int)
        + removed_keys("step"@, ot, nt, ot.len() as int) + new_phase_changes(oh, nh, nh.len() as int) + removed_keys(
        "phase"@,
        oh,
        nh,
        oh.len() as int,
    ) + new_profile_changes(op, np, np.len() as int) + removed_keys("profile"@, op, np, op.len() as int) + prompt_changes(
        opr,
        npr,
        npr.len() as int,
    )
}


/// The kind of a state as a word: `queue`, `action`, `terminal` or `escape`.
pub fn state_kind_label(state: &StateDef) -> (r: &'static str)
    ensures
        r@ == kind_word(*state),
{
    match state {
        StateDef::Queue { .. } => "queue",
        StateDef::Action { .. } => "action",
        StateDef::Terminal { .. } => "terminal",
        StateDef::Escape { .. } => "escape",
    }
}

fn push_change(changes: &mut Vec<Change>, kind: ChangeKind, category: &str, name: String, detail: Option<String>)
    ensures
        changes_view(final(changes)@) == changes_view(old(changes)@) + one(kind, category@, name@, opt_view(detail)),
{
    let ghost before = changes_view(changes@);
    let c = Change { kind, category: String::from_str(category), name, detail };
    let ghost cv = c@;
    changes.push(c);
    assert(changes_view(changes@) =~= before + one(kind, category@, name@, opt_view(detail)));
}

fn join2(a: &str, b: &str) -> (r: String)
    ensures
        r@ == a@ + b@,
{
    let mut s = String::from_str(a);
    push_str(&mut s, b);
    s
}

fn join3(a: &str, b: &str, c: &str) -> (r: String)
    ensures
        r@ == a@ + b@ + c@,
{
    let mut s = String::from_str(a);
    push_str(&mut s, b);
    push_str(&mut s, c);
    assert(s@ =~= a@ + b@ + c@);
    s
}

fn join4(a: &str, b: &str, c: &str, d: &str) -> (r: String)
    ensures
        r@ == a@ + b@ + c@ + d@,
{
    let mut s = String::from_str(a);
    push_str(&mut s, b);
    push_str(&mut s, c);
    push_str(&mut s, d);
    assert(s@ =~= a@ + b@ + c@ + d@);
    s
}

fn state_summary_of(st: &StateDef) -> (r: String)
    ensures
        r@ == state_summary(*st),
{
    join4(state_kind_label(st), " \"", st.display_name(), "\"")
}

/// The changes between two versions of the state `name`.
pub fn diff_single_state(name: &str, old_state: &StateDef, new_state: &StateDef, changes: &mut Vec<Change>)
    ensures
        changes_view(final(changes)@) == changes_view(old(changes)@) + state_changes(name@, *old_state, *new_state),
{
    let ghost c0 = changes_view(changes@);
    let old_kind = state_kind_label(old_state);
    let new_kind = state_kind_label(new_state);
    if !crate::text::str_equal(old_kind, new_kind) {
        let mut d = join2("kind ", old_kind);
        push_str(&mut d, " -> ");
        push_str(&mut d, new_kind);
        push_change(changes, ChangeKind::Changed, "state", String::from_str(name), Some(d));
    }
    let ghost c1 = changes_view(changes@);
    if !crate::text::str_equal(old_state.display_name(), new_state.display_name()) {
        let mut d = join2("display_name \"", old_state.display_name());
        push_str(&mut d, "\" -> \"");
        push_str(&mut d, new_state.display_name());
        push_str(&mut d, "\"");
        push_change(changes, ChangeKind::Changed, "state", String::from_str(name), Some(d));
    }
    assert(changes_view(changes@) =~= c0 + state_changes(name@, *old_state, *new_state));
}

fn diff_states(old_ir: &WorkflowIR, new_ir: &WorkflowIR, changes: &mut Vec<Change>)
    ensures
        changes_view(final(changes)@) == changes_view(old(changes)@) + new_state_changes(
            state_entries(old_ir.states),
            state_entries(new_ir.states),
            state_entries(new_ir.states).len() as int,
        ) + removed_states(state_entries(old_ir.states), state_entries(new_ir.states), state_entries(old_ir.states).len() as int),
{
    let ghost o = state_entries(old_ir.states);
    let ghost nw = state_entries(new_ir.states);
    let ghost c0 = changes_view(changes@);
    let n = states_len(&new_ir.states);
    for i in 0..n
        invariant
            n == nw.len(),
            o == state_entries(old_ir.states),
            nw == state_entries(new_ir.states),
            changes_view(changes@) == c0 + new_state_changes(o, nw, i as int),
    {
        if let Some((name, ns)) = states_get_at(new_ir, i) {
            match states_get(&old_ir.states, name.as_str()) {
                None => {
                    let d = state_summary_of(ns);
                    push_change(changes, ChangeKind::Added, "state", name.clone(), Some(d));
                },
                Some(os) => diff_single_state(name.as_str(), os, ns, changes),
            }
        }
        assert(changes_view(changes@) =~= c0 + new_state_changes(o, nw, i + 1));
    }
    let ghost c1 = changes_view(changes@);
    let m = states_len(&old_ir.states);
    for i in 0..m
        invariant
            m == o.len(),
            o == state_entries(old_ir.states),
            nw == state_entries(new_ir.states),
            changes_view(changes@) == c1 + removed_states(o, nw, i as int),
    {
        if let Some((name, os)) = states_get_at(old_ir, i) {
            if states_get(&new_ir.states, name.as_str()).is_none() {
                let d = state_summary_of(os);
                push_change(changes, ChangeKind::Removed, "state", name.clone(), Some(d));
            }
        }
        assert(changes_view(changes@) =~= c1 + removed_states(o, nw, i + 1));
    }
}

fn states_get_at(ir: &WorkflowIR, i: usize) -> (r: Option<(&String, &StateDef)>)
    ensures
        r matches Some((k, v)) ==> i < state_entries(ir.states).len() && k@ == state_entries(ir.states)[i as int].0
            && *v == state_entries(ir.states)[i as int].1,
        r is None ==> i >= state_entries(ir.states).len(),
{
    states_at(&ir.states, i)
}


fn diff_steps(old_ir: &WorkflowIR, new_ir: &WorkflowIR, changes: &mut Vec<Change>)
    ensures
        changes_view(final(changes)@) == changes_view(old(changes)@) + new_step_changes(
            step_entries(old_ir.steps),
            step_entries(new_ir.steps),
            step_entries(new_ir.steps).len() as int,
        ) + removed_keys("step"@, step_entries(old_ir.steps), step_entries(new_ir.steps), step_entries(old_ir.steps).len() as int),
{
    let ghost o = step_entries(old_ir.steps);
    let ghost nw = step_entries(new_ir.steps);
    let ghost c0 = changes_view(changes@);
    let n = steps_len(&new_ir.steps);
    for i in 0..n
        invariant
            n == nw.len(),
            o == step_entries(old_ir.steps),
            nw == step_entries(new_ir.steps),
            changes_view(changes@) == c0 + new_step_changes(o, nw, i as int),
    {
        if let Some((name, ns)) = steps_at(&new_ir.steps, i) {
            match steps_get(&old_ir.steps, name.as_str()) {
                None => push_change(changes, ChangeKind::Added, "step", name.clone(), None),
                Some(os) => {
                    if !(os.queue == ns.queue) || !(os.action == ns.action) {
                        let mut d = join4(os.queue.as_str(), "->", os.action.as_str(), " -> ");
                        push_str(&mut d, ns.queue.as_str());
                        push_str(&mut d, "->");
                        push_str(&mut d, ns.action.as_str());
                        push_change(changes, ChangeKind::Changed, "step", name.clone(), Some(d));
                    }
                },
            }
        }
        assert(changes_view(changes@) =~= c0 + new_step_changes(o, nw, i + 1));
    }
    let ghost c1 = changes_view(changes@);
    let m = steps_len(&old_ir.steps);
    for i in 0..m
        invariant
            m == o.len(),
            o == step_entries(old_ir.steps),
            nw == step_entries(new_ir.steps),
            changes_view(changes@) == c1 + removed_keys("step"@, o, nw, i as int),
    {
        if let Some((name, _)) = steps_at(&old_ir.steps, i) {
            if steps_get(&new_ir.steps, name.as_str()).is_none() {
                push_change(changes, ChangeKind::Removed, "step", name.clone(), None);
            }
        }
        assert(changes_view(changes@) =~= c1 + removed_keys("step"@, o, nw, i + 1));
    }
}

/// Whether two optional strings are equal.
pub fn opt_equal(a: &Option<String>, b: &Option<String>) -> (r: bool)
    ensures
        r == (opt_view(*a) == opt_view(*b)),
{
    match (a, b) {
        (Some(x), Some(y)) => *x == *y,
        (None, None) => true,
        _ => false,
    }
}

fn gate_text_of(g: &Option<String>) -> (r: &str)
    ensures
        r@ == gate_text(opt_view(*g)),
{
    match g {
        Some(x) => x.as_str(),
        None => "none",
    }
}

fn diff_phases(old_ir: &WorkflowIR, new_ir: &WorkflowIR, changes: &mut Vec<Change>)
    ensures
        changes_view(final(changes)@) == changes_view(old(changes)@) + new_phase_changes(
            phase_entries(old_ir.phases),
            phase_entries(new_ir.phases),
            phase_entries(new_ir.phases).len() as int,
        ) + removed_keys("phase"@, phase_entries(old_ir.phases), phase_entries(new_ir.phases), phase_entries(old_ir.phases).len() as int),
{
    let ghost o = phase_entries(old_ir.phases);
    let ghost nw = phase_entries(new_ir.phases);
    let ghost c0 = changes_view(changes@);
    let n = phases_len(&new_ir.phases);
    for i in 0..n
        invariant
            n == nw.len(),
            o == phase_entries(old_ir.phases),
            nw == phase_entries(new_ir.phases),
            changes_view(changes@) == c0 + new_phase_changes(o, nw, i as int),
    {
        if let Some((name, np)) = phases_at(&new_ir.phases, i) {
            match phases_get(&old_ir.phases, name.as_str()) {
                None => push_change(changes, ChangeKind::Added, "phase", name.clone(), None),
                Some(op) => {
                    if !(op.produce_step == np.produce_step) || !opt_equal(&op.gate_step, &np.gate_step) {
                        let mut d = join4("produce ", op.produce_step.as_str(), "->", np.produce_step.as_str());
                        push_str(&mut d, ", gate ");
                        push_str(&mut d, gate_text_of(&op.gate_step));
                        push_str(&mut d, "->");
                        push_str(&mut d, gate_text_of(&np.gate_step));
                        push_change(changes, ChangeKind::Changed, "phase", name.clone(), Some(d));
                    }
                },
            }
        }
        assert(changes_view(changes@) =~= c0 + new_phase_changes(o, nw, i + 1));
    }
    let ghost c1 = changes_view(changes@);
    let m = phases_len(&old_ir.phases);
    for i in 0..m
        invariant
            m == o.len(),
            o == phase_entries(old_ir.phases),
            nw == phase_entries(new_ir.phases),
            changes_view(changes@) == c1 + removed_keys("phase"@, o, nw, i as int),
    {
        if let Some((name, _)) = phases_at(&old_ir.phases, i) {
            if phases_get(&new_ir.phases, name.as_str()).is_none() {
                push_change(changes, ChangeKind::Removed, "phase", name.clone(), None);
            }
        }
        assert(changes_view(changes@) =~= c1 + removed_keys("phase"@, o, nw, i + 1));
    }
}

/// Whether two lists of strings are equal.
pub fn strings_equal(a: &Vec<String>, b: &Vec<String>) -> (r: bool)
    ensures
        r == (strings_view(a@) == strings_view(b@)),
{
    if a.len() != b.len() {
        assert(strings_view(a@).len() != strings_view(b@).len());
        return false;
    }
    for i in 0..a.len()
        invariant
            a@.len() == b@.len(),
            forall|j: int| 0 <= j < i ==> a@[j]@ == b@[j]@,
    {
        if !(a[i] == b[i]) {
            assert(strings_view(a@)[i as int] != strings_view(b@)[i as int]);
            return false;
        }
    }
    assert(strings_view(a@) =~= strings_view(b@));
    true
}

/// A list of names as `["a", "b"]`.
pub fn list_text_of(v: &Vec<String>) -> (r: String)
    ensures
        r@ == list_text(strings_view(v@)),
{
    let ghost sv = strings_view(v@);
    let mut s = String::from_str("[");
    for i in 0..v.len()
        invariant
            sv == strings_view(v@),
            s@ == "["@ + list_items(sv.take(i as int)),
    {
        assert(sv.take(i + 1).drop_last() =~= sv.take(i as int));
        if i > 0 {
            push_str(&mut s, ", \"");
        } else {
            assert(sv.take(1)[0] == sv[0]);
            push_str(&mut s, "\"");
        }
        push_str(&mut s, v[i].as_str());
        push_str(&mut s, "\"");
        assert(s@ =~= "["@ + list_items(sv.take(i + 1)));
    }
    assert(sv.take(v@.len() as int) =~= sv);
    push_str(&mut s, "]");
    s
}

fn override_same(a: &ActionOverride, b: &ActionOverride) -> (r: bool)
    ensures
        r == (a@ == b@),
{
    if a.executor != b.executor {
        return false;
    }
    match (&a.output, &b.output) {
        (Some(x), Some(y)) => x.artifact_type == y.artifact_type && opt_equal(&x.access_hint, &y.access_hint),
        (None, None) => true,
        _ => false,
    }
}

/// Whether two maps of overrides hold the same entries, in any order (the `==` of
/// `IndexMap`).
pub fn overrides_same(a: &IndexMap<String, ActionOverride>, b: &IndexMap<String, ActionOverride>) -> (r: bool)
    ensures
        r == overrides_equal(override_entries(*a), override_entries(*b)),
{
    let ghost ea = override_entries(*a);
    let ghost eb = override_entries(*b);
    let n = overrides_len(a);
    if n != overrides_len(b) {
        return false;
    }
    for i in 0..n
        invariant
            n == ea.len(),
            ea == override_entries(*a),
            eb == override_entries(*b),
            forall|j: int| 0 <= j < i ==> map_get(view_entries(eb), #[trigger] ea[j].0) == Some(ea[j].1@),
    {
        if let Some((k, v)) = overrides_at(a, i) {
            proof {
                lemma_view_keys(eb, k@);
            }
            match overrides_get(b, k.as_str()) {
                Some(w) => {
                    if !override_same(v, w) {
                        return false;
                    }
                },
                None => return false,
            }
        }
    }
    true
}

/// The changes between two versions of the profile `name`.
pub fn diff_single_profile(name: &str, old_profile: &ProfileDef, new_profile: &ProfileDef, changes: &mut Vec<Change>)
    ensures
        changes_view(final(changes)@) == changes_view(old(changes)@) + profile_changes(name@, *old_profile, *new_profile),
{
    let ghost c0 = changes_view(changes@);
    if !strings_equal(&old_profile.phases, &new_profile.phases) {
        let mut d = join2("phases ", list_text_of(&old_profile.phases).as_str());
        push_str(&mut d, " -> ");
        push_str(&mut d, list_text_of(&new_profile.phases).as_str());
        push_change(changes, ChangeKind::Changed, "profile", String::from_str(name), Some(d));
    }
    let ghost c1 = changes_view(changes@);
    if old_profile.output != new_profile.output {
        push_change(changes, ChangeKind::Changed, "profile", String::from_str(name), Some(String::from_str("output changed")));
    }
    let ghost c2 = changes_view(changes@);
    if !overrides_same(&old_profile.overrides, &new_profile.overrides) {
        push_change(changes, ChangeKind::Changed, "profile", String::from_str(name), Some(String::from_str("overrides changed")));
    }
    assert(changes_view(changes@) =~= c0 + profile_changes(name@, *old_profile, *new_profile));
}

fn diff_profiles(old_ir: &WorkflowIR, new_ir: &WorkflowIR, changes: &mut Vec<Change>)
    ensures
        changes_view(final(changes)@) == changes_view(old(changes)@) + new_profile_changes(
            profile_entries(old_ir.profiles),
            profile_entries(new_ir.profiles),
            profile_entries(new_ir.profiles).len() as int,
        ) + removed_keys("profile"@, profile_entries(old_ir.profiles), profile_entries(new_ir.profiles), profile_entries(old_ir.profiles).len() as int),
{
    let ghost o = profile_entries(old_ir.profiles);
    let ghost nw = profile_entries(new_ir.profiles);
    let ghost c0 = changes_view(changes@);
    let n = profiles_len(&new_ir.profiles);
    for i in 0..n
        invariant
            n == nw.len(),
            o == profile_entries(old_ir.profiles),
            nw == profile_entries(new_ir.profiles),
            changes_view(changes@) == c0 + new_profile_changes(o, nw, i as int),
    {
        if let Some((name, np)) = profiles_at(&new_ir.profiles, i) {
            match profiles_get(&old_ir.profiles, name.as_str()) {
                None => push_change(changes, ChangeKind::Added, "profile", name.clone(), None),
                Some(op) => diff_single_profile(name.as_str(), op, np, changes),
            }
        }
        assert(changes_view(changes@) =~= c0 + new_profile_changes(o, nw, i + 1));
    }
    let ghost c1 = changes_view(changes@);
    let m = profiles_len(&old_ir.profiles);
    for i in 0..m
        invariant
            m == o.len(),
            o == profile_entries(old_ir.profiles),
            nw == profile_entries(new_ir.profiles),
            changes_view(changes@) == c1 + removed_keys("profile"@, o, nw, i as int),
    {
        if let Some((name, _)) = profiles_at(&old_ir.profiles, i) {
            if profiles_get(&new_ir.profiles, name.as_str()).is_none() {
                push_change(changes, ChangeKind::Removed, "profile", name.clone(), None);
            }
        }
        assert(changes_view(changes@) =~= c1 + removed_keys("profile"@, o, nw, i + 1));
    }
}

/// The changes between two maps of outcome routes of the prompt `prompt_name`.
pub fn diff_outcome_map(
    prompt_name: &str,
    outcome_kind: &str,
    old_map: &IndexMap<String, String>,
    new_map: &IndexMap<String, String>,
    changes: &mut Vec<Change>,
)
    ensures
        changes_view(final(changes)@) == changes_view(old(changes)@) + route_changes(
            prompt_name@,
            outcome_kind@,
            outcome_entries(*old_map),
            outcome_entries(*new_map),
        ),
{
    let ghost o = outcome_entries(*old_map);
    let ghost nw = outcome_entries(*new_map);
    let ghost c0 = changes_view(changes@);
    let n = outcomes_len(new_map);
    for i in 0..n
        invariant
            n == nw.len(),
            o == outcome_entries(*old_map),
            nw == outcome_entries(*new_map),
            changes_view(changes@) == c0 + new_route_changes(prompt_name@, outcome_kind@, o, nw, i as int),
    {
        if let Some((out, t)) = outcomes_at(new_map, i) {
            let full = join3(prompt_name, ".", out.as_str());
            assert(full@ =~= prompt_name@ + "."@ + out@);
            match outcomes_get(old_map, out.as_str()) {
                None => {
                    let mut d = join2("-> ", t.as_str());
                    push_str(&mut d, " [");
                    push_str(&mut d, outcome_kind);
                    push_str(&mut d, "]");
                    push_change(changes, ChangeKind::Added, "outcome", full, Some(d));
                },
                Some(ot) => {
                    if !(*ot == *t) {
                        let d = join3(ot.as_str(), " -> ", t.as_str());
                        assert(d@ =~= ot@ + " -> "@ + t@);
                        push_change(changes, ChangeKind::Changed, "outcome", full, Some(d));
                    }
                },
            }
        }
        assert(changes_view(changes@) =~= c0 + new_route_changes(prompt_name@, outcome_kind@, o, nw, i + 1));
    }
    let ghost c1 = changes_view(changes@);
    let m = outcomes_len(old_map);
    for i in 0..m
        invariant
            m == o.len(),
            o == outcome_entries(*old_map),
            nw == outcome_entries(*new_map),
            changes_view(changes@) == c1 + removed_routes(prompt_name@, outcome_kind@, o, nw, i as int),
    {
        if let Some((out, _)) = outcomes_at(old_map, i) {
            if outcomes_get(new_map, out.as_str()).is_none() {
                let full = join3(prompt_name, ".", out.as_str());
                assert(full@ =~= prompt_name@ + "."@ + out@);
                let d = join3("[", outcome_kind, "]");
                assert(d@ =~= "["@ + outcome_kind@ + "]"@);
                push_change(changes, ChangeKind::Removed, "outcome", full, Some(d));
            }
        }
        assert(changes_view(changes@) =~= c1 + removed_routes(prompt_name@, outcome_kind@, o, nw, i + 1));
    }
    assert(changes_view(changes@) =~= c0 + route_changes(prompt_name@, outcome_kind@, o, nw));
}

fn diff_outcomes(old_ir: &WorkflowIR, new_ir: &WorkflowIR, changes: &mut Vec<Change>)
    ensures
        changes_view(final(changes)@) == changes_view(old(changes)@) + prompt_changes(
            prompt_entries(old_ir.prompts),
            prompt_entries(new_ir.prompts),
            prompt_entries(new_ir.prompts).len() as int,
        ),
{
    let ghost o = prompt_entries(old_ir.prompts);
    let ghost nw = prompt_entries(new_ir.prompts);
    let ghost c0 = changes_view(changes@);
    let n = prompts_len(&new_ir.prompts);
    for i in 0..n
        invariant
            n == nw.len(),
            o == prompt_entries(old_ir.prompts),
            nw == prompt_entries(new_ir.prompts),
            changes_view(changes@) == c0 + prompt_changes(o, nw, i as int),
    {
        if let Some((pn, np)) = prompts_at(&new_ir.prompts, i) {
            if let Some(op) = prompts_get(&old_ir.prompts, pn.as_str()) {
                let ghost c1 = changes_view(changes@);
                diff_outcome_map(pn.as_str(), "success", &op.success, &np.success, changes);
                diff_outcome_map(pn.as_str(), "failure", &op.failure, &np.failure, changes);
            }
        }
        assert(changes_view(changes@) =~= c0 + prompt_changes(o, nw, i + 1));
    }
}

/// Every structural change from `old_ir` to `new_ir`: states, steps, phases, profiles, then
/// outcome routes.
pub fn diff_workflows(old_ir: &WorkflowIR, new_ir: &WorkflowIR) -> (r: Vec<Change>)
    ensures
        changes_view(r@) == workflow_changes(*old_ir, *new_ir),
        ir_valid(*old_ir),
        ir_valid(*new_ir),
        *old_ir == *new_ir ==> r@.len() == 0,
{
    maps_hold_keys_once(old_ir);
    maps_hold_keys_once(new_ir);
    proof {
        if *old_ir == *new_ir {
            lemma_diff_self_empty(*old_ir);
        }
    }
    let mut changes: Vec<Change> = Vec::new();
    assert(changes_view(changes@) =~= Seq::<ChangeV>::empty());
    diff_states(old_ir, new_ir, &mut changes);
    diff_steps(old_ir, new_ir, &mut changes);
    diff_phases(old_ir, new_ir, &mut changes);
    diff_profiles(old_ir, new_ir, &mut changes);
    diff_outcomes(old_ir, new_ir, &mut changes);
    assert(changes_view(changes@) =~= workflow_changes(*old_ir, *new_ir));
    changes
}


/// Each map of a workflow holds each key once (`ir_valid`), as every `IndexMap` does.
fn maps_hold_keys_once(ir: &WorkflowIR)
    ensures
        ir_valid(*ir),
{
    crate::maps::states_keys_distinct(&ir.states);
    crate::maps::steps_keys_distinct(&ir.steps);
    crate::maps::phases_keys_distinct(&ir.phases);
    crate::maps::profiles_keys_distinct(&ir.profiles);
    crate::maps::prompts_keys_distinct(&ir.prompts);
    let np = profiles_len(&ir.profiles);
    let ghost pe = profile_entries(ir.profiles);
    for i in 0..np
        invariant
            np == pe.len(),
            pe == profile_entries(ir.profiles),
            forall|k: int| 0 <= k < i ==> keys_distinct(override_entries((#[trigger] pe[k]).1.overrides)),
    {
        let (_n, prof) = profiles_at(&ir.profiles, i).unwrap();
        crate::maps::overrides_keys_distinct(&prof.overrides);
    }
    let nq = prompts_len(&ir.prompts);
    let ghost qe = prompt_entries(ir.prompts);
    for i in 0..nq
        invariant
            nq == qe.len(),
            qe == prompt_entries(ir.prompts),
            forall|k: int| 0 <= k < i ==> keys_distinct(outcome_entries((#[trigger] qe[k]).1.success))
                && keys_distinct(outcome_entries(qe[k].1.failure)),
    {
        let (_n, pf) = prompts_at(&ir.prompts, i).unwrap();
        crate::maps::outcomes_keys_distinct(&pf.success);
        crate::maps::outcomes_keys_distinct(&pf.failure);
    }
}

/// A change as a line: `  + category: name` with ` (detail)` where it has one.
pub open spec fn change_text(c: ChangeV) -> Seq<char> {
    "  "@ + match c.0 {
        ChangeKind::Added => "+"@,
        ChangeKind::Removed => "-"@,
        ChangeKind::Changed => "~"@,
    } + " "@ + c.1 + ": "@ + c.2 + match c.3 {
        Some(d) => " ("@ + d + ")"@,
        None => Seq::empty(),
    }
}

impl Change {
    /// The change as a line of text.
    pub fn display_text(&self) -> (r: String)
        ensures
            r@ == change_text(self@),
    {
        let mut s = String::from_str("  ");
        push_str(&mut s, match self.kind {
            ChangeKind::Added => "+",
            ChangeKind::Removed => "-",
            ChangeKind::Changed => "~",
        });
        push_str(&mut s, " ");
        push_str(&mut s, self.category.as_str());
        push_str(&mut s, ": ");
        push_str(&mut s, self.name.as_str());
        if let Some(d) = &self.detail {
            push_str(&mut s, " (");
            push_str(&mut s, d.as_str());
            push_str(&mut s, ")");
        }
        assert(s@ =~= change_text(self@));
        s
    }
}

/// What `char::to_uppercase` gives for a character: its Unicode upper-case mapping, one or
/// more characters.
pub uninterp spec fn char_uppercase(c: char) -> Seq<char>;

/// The upper-case form of a character (`char::to_uppercase`, collected). The contract claims
/// that the outcome is `char_uppercase` of the character, and, as std documents, that an ASCII
/// character maps as `to_ascii_uppercase` maps it.
#[verifier::external_body]
fn uppercase_of(c: char) -> (r: String)
    ensures
        r@ == char_uppercase(c),
        ('\0' <= c <= '\u{7f}') ==> r@ == seq![ascii_upper(c)],
{
    c.to_uppercase().collect()
}

/// A category name as a section heading: first character upper-cased, and a plural `s`.
pub open spec fn heading(cat: Seq<char>) -> Seq<char> {
    if cat.len() == 0 {
        Seq::empty()
    } else {
        char_uppercase(cat[0]) + cat.drop_first() + "s"@
    }
}

/// `state` becomes `States`.
pub fn capitalize_category(cat: &str) -> (r: String)
    ensures
        r@ == heading(cat@),
        cat@.len() > 0 && '\0' <= cat@[0] <= '\u{7f}' ==> r@ == seq![ascii_upper(cat@[0])] + cat@.drop_first()
            + "s"@,
{
    let cs = chars_of(cat);
    if cs.len() == 0 {
        return String::new();
    }
    let mut s = uppercase_of(cs[0]);
    assert(cs@.subrange(1, 1) =~= Seq::<char>::empty());
    for i in 1..cs.len()
        invariant
            cs@ == cat@,
            cs@.len() > 0,
            s@ == char_uppercase(cs@[0]) + cs@.subrange(1, i as int),
    {
        push_char(&mut s, cs[i]);
        assert(s@ =~= char_uppercase(cs@[0]) + cs@.subrange(1, i + 1));
    }
    push_str(&mut s, "s");
    assert(cs@.subrange(1, cs@.len() as int) =~= cat@.drop_first());
    s
}

/// The changes of category `cat` among the first `n`, as lines.
pub open spec fn category_lines(cs: Seq<ChangeV>, cat: Seq<char>, n: int) -> Seq<char>
    decreases n,
{
    if n <= 0 {
        Seq::empty()
    } else {
        category_lines(cs, cat, n - 1) + if cs[n - 1].1 == cat {
            change_text(cs[n - 1]) + "\n"@
        } else {
            Seq::empty()
        }
    }
}

/// Some change has category `cat`.
pub open spec fn has_category(cs: Seq<ChangeV>, cat: Seq<char>) -> bool {
    exists|i: int| 0 <= i < cs.len() && (#[trigger] cs[i]).1 == cat
}

/// The section of category `cat`: its heading and its changes, then a blank line.
pub open spec fn section(cs: Seq<ChangeV>, cat: Seq<char>) -> Seq<char> {
    if has_category(cs, cat) {
        heading(cat) + ":\n"@ + category_lines(cs, cat, cs.len() as int) + "\n"@
    } else {
        Seq::empty()
    }
}

/// The text of a list of changes: a section per category, in the order state, step, phase,
/// profile, outcome.
pub open spec fn diff_text(cs: Seq<ChangeV>) -> Seq<char> {
    if cs.len() == 0 {
        "No changes detected.\n"@
    } else {
        section(cs, "state"@) + section(cs, "step"@) + section(cs, "phase"@) + section(cs, "profile"@) + section(
            cs,
            "outcome"@,
        )
    }
}

fn push_section(out: &mut String, changes: &[Change], cat: &str)
    ensures
        final(out)@ == old(out)@ + section(changes@.map_values(|c: Change| c@), cat@),
{
    let ghost cs = changes@.map_values(|c: Change| c@);
    let ghost o0 = out@;
    let mut body = String::new();
    let mut any = false;
    for i in 0..changes.len()
        invariant
            cs == changes@.map_values(|c: Change| c@),
            body@ == category_lines(cs, cat@, i as int),
            any == exists|j: int| 0 <= j < i && (#[trigger] cs[j]).1 == cat@,
    {
        assert(cs[i as int] == changes@[i as int]@);
        if crate::text::str_equal(changes[i].category.as_str(), cat) {
            let line = changes[i].display_text();
            push_str(&mut body, line.as_str());
            push_str(&mut body, "\n");
            any = true;
        }
    }
    if any {
        let h = capitalize_category(cat);
        push_str(out, h.as_str());
        push_str(out, ":\n");
        push_str(out, body.as_str());
        push_str(out, "\n");
        assert(out@ =~= o0 + section(cs, cat@));
    }
}

/// The changes as text, grouped by category; a fixed line where there are none.
pub fn format_diff(changes: &[Change]) -> (r: String)
    ensures
        r@ == diff_text(changes@.map_values(|c: Change| c@)),
{
    if changes.len() == 0 {
        return String::from_str("No changes detected.\n");
    }
    let mut out = String::new();
    push_section(&mut out, changes, "state");
    push_section(&mut out, changes, "step");
    push_section(&mut out, changes, "phase");
    push_section(&mut out, changes, "profile");
    push_section(&mut out, changes, "outcome");
    assert(out@ =~= diff_text(changes@.map_values(|c: Change| c@)));
    out
}


proof fn lemma_no_state_changes(s: Seq<(Seq<char>, StateDef)>, n: int)
    requires
        keys_distinct(s),
        0 <= n <= s.len(),
    ensures
        new_state_changes(s, s, n) == Seq::<ChangeV>::empty(),
        removed_states(s, s, n) == Seq::<ChangeV>::empty(),
    decreases n,
{
    if n > 0 {
        lemma_no_state_changes(s, n - 1);
        lemma_get_own(s, n - 1);
        assert(state_changes(s[n - 1].0, s[n - 1].1, s[n - 1].1) =~= Seq::<ChangeV>::empty());
        assert(new_state_changes(s, s, n) =~= Seq::<ChangeV>::empty());
        assert(removed_states(s, s, n) =~= Seq::<ChangeV>::empty());
    }
}

proof fn lemma_no_removed_keys<V>(cat: Seq<char>, e: Seq<(Seq<char>, V)>, n: int)
    requires
        0 <= n <= e.len(),
    ensures
        removed_keys(cat, e, e, n) == Seq::<ChangeV>::empty(),
    decreases n,
{
    if n > 0 {
        lemma_no_removed_keys(cat, e, n - 1);
        assert(has_key(e, e[n - 1].0));
        assert(removed_keys(cat, e, e, n) =~= Seq::<ChangeV>::empty());
    }
}

proof fn lemma_no_step_changes(t: Seq<(Seq<char>, StepDef)>, n: int)
    requires
        keys_distinct(t),
        0 <= n <= t.len(),
    ensures
        new_step_changes(t, t, n) == Seq::<ChangeV>::empty(),
    decreases n,
{
    if n > 0 {
        lemma_no_step_changes(t, n - 1);
        lemma_get_own(t, n - 1);
        assert(new_step_changes(t, t, n) =~= Seq::<ChangeV>::empty());
    }
}

proof fn lemma_no_phase_changes(h: Seq<(Seq<char>, PhaseDef)>, n: int)
    requires
        keys_distinct(h),
        0 <= n <= h.len(),
    ensures
        new_phase_changes(h, h, n) == Seq::<ChangeV>::empty(),
    decreases n,
{
    if n > 0 {
        lemma_no_phase_changes(h, n - 1);
        lemma_get_own(h, n - 1);
        assert(new_phase_changes(h, h, n) =~= Seq::<ChangeV>::empty());
    }
}

proof fn lemma_overrides_equal_self(ov: Seq<(Seq<char>, ActionOverride)>)
    requires
        keys_distinct(ov),
    ensures
        overrides_equal(ov, ov),
{
    assert forall|i: int| 0 <= i < ov.len() implies map_get(view_entries(ov), #[trigger] ov[i].0) == Some(ov[i].1@) by {
        lemma_get_own(ov, i);
        lemma_view_keys(ov, ov[i].0);
    }
}

proof fn lemma_no_profile_changes(p: Seq<(Seq<char>, ProfileDef)>, n: int)
    requires
        keys_distinct(p),
        0 <= n <= p.len(),
        forall|i: int| 0 <= i < p.len() ==> keys_distinct(override_entries((#[trigger] p[i]).1.overrides)),
    ensures
        new_profile_changes(p, p, n) == Seq::<ChangeV>::empty(),
    decreases n,
{
    if n > 0 {
        lemma_no_profile_changes(p, n - 1);
        lemma_get_own(p, n - 1);
        let pf = p[n - 1].1;
        lemma_overrides_equal_self(override_entries(pf.overrides));
        assert(profile_changes(p[n - 1].0, pf, pf) =~= Seq::<ChangeV>::empty());
        assert(new_profile_changes(p, p, n) =~= Seq::<ChangeV>::empty());
    }
}

proof fn lemma_no_route_changes(pn: Seq<char>, kind: Seq<char>, o: Seq<(Seq<char>, String)>, n: int)
    requires
        keys_distinct(o),
        0 <= n <= o.len(),
    ensures
        new_route_changes(pn, kind, o, o, n) == Seq::<ChangeV>::empty(),
        removed_routes(pn, kind, o, o, n) == Seq::<ChangeV>::empty(),
    decreases n,
{
    if n > 0 {
        lemma_no_route_changes(pn, kind, o, n - 1);
        lemma_get_own(o, n - 1);
        assert(new_route_changes(pn, kind, o, o, n) =~= Seq::<ChangeV>::empty());
        assert(removed_routes(pn, kind, o, o, n) =~= Seq::<ChangeV>::empty());
    }
}

proof fn lemma_no_prompt_changes(p: Seq<(Seq<char>, PromptFile)>, n: int)
    requires
        keys_distinct(p),
        0 <= n <= p.len(),
        forall|i: int| 0 <= i < p.len() ==> keys_distinct(outcome_entries((#[trigger] p[i]).1.success)) && keys_distinct(
            outcome_entries(p[i].1.failure),
        ),
    ensures
        prompt_changes(p, p, n) == Seq::<ChangeV>::empty(),
    decreases n,
{
    if n > 0 {
        lemma_no_prompt_changes(p, n - 1);
        lemma_get_own(p, n - 1);
        let (pn, pf) = p[n - 1];
        let s = outcome_entries(pf.success);
        let f = outcome_entries(pf.failure);
        lemma_no_route_changes(pn, "success"@, s, s.len() as int);
        lemma_no_route_changes(pn, "failure"@, f, f.len() as int);
        assert(route_changes(pn, "success"@, s, s) =~= Seq::<ChangeV>::empty());
        assert(route_changes(pn, "failure"@, f, f) =~= Seq::<ChangeV>::empty());
        assert(prompt_changes(p, p, n) =~= Seq::<ChangeV>::empty());
    }
}

/// A workflow compared with itself has no changes.
pub proof fn lemma_diff_self_empty(ir: WorkflowIR)
    requires
        ir_valid(ir),
    ensures
        workflow_changes(ir, ir) == Seq::<ChangeV>::empty(),
{
    let s = state_entries(ir.states);
    let t = step_entries(ir.steps);
    let h = phase_entries(ir.phases);
    let p = profile_entries(ir.profiles);
    let pr = prompt_entries(ir.prompts);
    lemma_no_state_changes(s, s.len() as int);
    lemma_no_step_changes(t, t.len() as int);
    lemma_no_removed_keys("step"@, t, t.len() as int);
    lemma_no_phase_changes(h, h.len() as int);
    lemma_no_removed_keys("phase"@, h, h.len() as int);
    lemma_no_profile_changes(p, p.len() as int);
    lemma_no_removed_keys("profile"@, p, p.len() as int);
    lemma_no_prompt_changes(pr, pr.len() as int);
    assert(workflow_changes(ir, ir) =~= Seq::<ChangeV>::empty());
}


/// Some change of `cs` has this kind, category and name.
pub open spec fn has_change(cs: Seq<ChangeV>, kind: ChangeKind, cat: Seq<char>, name: Seq<char>) -> bool {
    exists|j: int| 0 <= j < cs.len() && (#[trigger] cs[j]).0 == kind && cs[j].1 == cat && cs[j].2 == name
}

/// Every change of `cs` has category `cat`.
pub open spec fn all_of_category(cs: Seq<ChangeV>, cat: Seq<char>) -> bool {
    forall|j: int| 0 <= j < cs.len() ==> (#[trigger] cs[j]).1 == cat
}

proof fn lemma_has_change_concat(a: Seq<ChangeV>, b: Seq<ChangeV>, kind: ChangeKind, cat: Seq<char>, name: Seq<char>)
    ensures
        has_change(a + b, kind, cat, name) == (has_change(a, kind, cat, name) || has_change(b, kind, cat, name)),
        all_of_category(a, cat) && all_of_category(b, cat) ==> all_of_category(a + b, cat),
{
    if has_change(a + b, kind, cat, name) {
        let j = choose|j: int| 0 <= j < (a + b).len() && (#[trigger] (a + b)[j]).0 == kind && (a + b)[j].1 == cat
            && (a + b)[j].2 == name;
        if j < a.len() {
            assert(a[j] == (a + b)[j]);
        } else {
            assert(b[j - a.len()] == (a + b)[j]);
        }
    }
    if has_change(a, kind, cat, name) {
        let j = choose|j: int| 0 <= j < a.len() && (#[trigger] a[j]).0 == kind && a[j].1 == cat && a[j].2 == name;
        assert((a + b)[j] == a[j]);
    }
    if has_change(b, kind, cat, name) {
        let j = choose|j: int| 0 <= j < b.len() && (#[trigger] b[j]).0 == kind && b[j].1 == cat && b[j].2 == name;
        assert((a + b)[a.len() + j] == b[j]);
    }
    if all_of_category(a, cat) && all_of_category(b, cat) {
        assert forall|j: int| 0 <= j < (a + b).len() implies (#[trigger] (a + b)[j]).1 == cat by {
            if j < a.len() {
                assert(a[j] == (a + b)[j]);
            } else {
                assert(b[j - a.len()] == (a + b)[j]);
            }
        }
    }
}

proof fn lemma_no_change_of_other_category(cs: Seq<ChangeV>, cat: Seq<char>, kind: ChangeKind, other: Seq<char>, name: Seq<char>)
    requires
        all_of_category(cs, cat),
        cat != other,
    ensures
        !has_change(cs, kind, other, name),
{
}

proof fn lemma_new_state_changes(o: Seq<(Seq<char>, StateDef)>, nw: Seq<(Seq<char>, StateDef)>, k: int, name: Seq<char>)
    requires
        0 <= k <= nw.len(),
    ensures
        all_of_category(new_state_changes(o, nw, k), "state"@),
        has_change(new_state_changes(o, nw, k), ChangeKind::Added, "state"@, name) == (exists|i: int|
            0 <= i < k && (#[trigger] nw[i]).0 == name && map_get(o, name) is None),
        !has_change(new_state_changes(o, nw, k), ChangeKind::Removed, "state"@, name),
        has_change(new_state_changes(o, nw, k), ChangeKind::Changed, "state"@, name) ==> map_get(o, name) is Some
            && exists|i: int| 0 <= i < k && (#[trigger] nw[i]).0 == name,
    decreases k,
{
    if k > 0 {
        lemma_new_state_changes(o, nw, k - 1, name);
        let prev = new_state_changes(o, nw, k - 1);
        let (n2, ns) = nw[k - 1];
        let piece = match map_get(o, n2) {
            None => one(ChangeKind::Added, "state"@, n2, Some(state_summary(ns))),
            Some(os) => state_changes(n2, os, ns),
        };
        assert(all_of_category(piece, "state"@));
        lemma_has_change_concat(prev, piece, ChangeKind::Added, "state"@, name);
        lemma_has_change_concat(prev, piece, ChangeKind::Removed, "state"@, name);
        lemma_has_change_concat(prev, piece, ChangeKind::Changed, "state"@, name);
        if has_change(piece, ChangeKind::Added, "state"@, name) || has_change(piece, ChangeKind::Changed, "state"@, name) {
            assert(nw[k - 1].0 == name);
        }
        if exists|i: int| 0 <= i < k && (#[trigger] nw[i]).0 == name && map_get(o, name) is None {
            let i = choose|i: int| 0 <= i < k && (#[trigger] nw[i]).0 == name && map_get(o, name) is None;
            if i == k - 1 {
                assert(piece[0].2 == name);
            }
        }
    }
}

proof fn lemma_removed_states(o: Seq<(Seq<char>, StateDef)>, nw: Seq<(Seq<char>, StateDef)>, k: int, name: Seq<char>)
    requires
        0 <= k <= o.len(),
    ensures
        all_of_category(removed_states(o, nw, k), "state"@),
        has_change(removed_states(o, nw, k), ChangeKind::Removed, "state"@, name) == (exists|i: int|
            0 <= i < k && (#[trigger] o[i]).0 == name && !has_key(nw, name)),
        !has_change(removed_states(o, nw, k), ChangeKind::Added, "state"@, name),
        !has_change(removed_states(o, nw, k), ChangeKind::Changed, "state"@, name),
    decreases k,
{
    if k > 0 {
        lemma_removed_states(o, nw, k - 1, name);
        let prev = removed_states(o, nw, k - 1);
        let piece = if has_key(nw, o[k - 1].0) {
            Seq::<ChangeV>::empty()
        } else {
            one(ChangeKind::Removed, "state"@, o[k - 1].0, Some(state_summary(o[k - 1].1)))
        };
        lemma_has_change_concat(prev, piece, ChangeKind::Added, "state"@, name);
        lemma_has_change_concat(prev, piece, ChangeKind::Removed, "state"@, name);
        lemma_has_change_concat(prev, piece, ChangeKind::Changed, "state"@, name);
        if exists|i: int| 0 <= i < k && (#[trigger] o[i]).0 == name && !has_key(nw, name) {
            let i = choose|i: int| 0 <= i < k && (#[trigger] o[i]).0 == name && !has_key(nw, name);
            if i == k - 1 {
                assert(piece[0].2 == name);
            }
        }
    }
}

proof fn lemma_step_categories(o: Seq<(Seq<char>, StepDef)>, nw: Seq<(Seq<char>, StepDef)>, k: int)
    ensures
        all_of_category(new_step_changes(o, nw, k), "step"@),
    decreases k,
{
    if k > 0 {
        lemma_step_categories(o, nw, k - 1);
        let prev = new_step_changes(o, nw, k - 1);
        let x = new_step_changes(o, nw, k);
        assert forall|j: int| 0 <= j < x.len() implies (#[trigger] x[j]).1 == "step"@ by {
            if j < prev.len() {
                assert(x[j] == prev[j]);
            }
        }
    }
}

proof fn lemma_removed_categories<V>(cat: Seq<char>, o: Seq<(Seq<char>, V)>, nw: Seq<(Seq<char>, V)>, k: int)
    ensures
        all_of_category(removed_keys(cat, o, nw, k), cat),
    decreases k,
{
    if k > 0 {
        lemma_removed_categories(cat, o, nw, k - 1);
        let prev = removed_keys(cat, o, nw, k - 1);
        let x = removed_keys(cat, o, nw, k);
        assert forall|j: int| 0 <= j < x.len() implies (#[trigger] x[j]).1 == cat by {
            if j < prev.len() {
                assert(x[j] == prev[j]);
            }
        }
    }
}

proof fn lemma_phase_categories(o: Seq<(Seq<char>, PhaseDef)>, nw: Seq<(Seq<char>, PhaseDef)>, k: int)
    ensures
        all_of_category(new_phase_changes(o, nw, k), "phase"@),
    decreases k,
{
    if k > 0 {
        lemma_phase_categories(o, nw, k - 1);
        let prev = new_phase_changes(o, nw, k - 1);
        let x = new_phase_changes(o, nw, k);
        assert forall|j: int| 0 <= j < x.len() implies (#[trigger] x[j]).1 == "phase"@ by {
            if j < prev.len() {
                assert(x[j] == prev[j]);
            }
        }
    }
}

proof fn lemma_profile_categories(o: Seq<(Seq<char>, ProfileDef)>, nw: Seq<(Seq<char>, ProfileDef)>, k: int)
    ensures
        all_of_category(new_profile_changes(o, nw, k), "profile"@),
    decreases k,
{
    if k > 0 {
        lemma_profile_categories(o, nw, k - 1);
        let prev = new_profile_changes(o, nw, k - 1);
        let x = new_profile_changes(o, nw, k);
        assert forall|j: int| 0 <= j < x.len() implies (#[trigger] x[j]).1 == "profile"@ by {
            if j < prev.len() {
                assert(x[j] == prev[j]);
            }
        }
    }
}

proof fn lemma_route_categories(pn: Seq<char>, kind: Seq<char>, o: Seq<(Seq<char>, String)>, nw: Seq<(Seq<char>, String)>, k: int)
    ensures
        all_of_category(new_route_changes(pn, kind, o, nw, k), "outcome"@),
        all_of_category(removed_routes(pn, kind, o, nw, k), "outcome"@),
    decreases k,
{
    if k > 0 {
        lemma_route_categories(pn, kind, o, nw, k - 1);
        let p1 = new_route_changes(pn, kind, o, nw, k - 1);
        let x1 = new_route_changes(pn, kind, o, nw, k);
        assert forall|j: int| 0 <= j < x1.len() implies (#[trigger] x1[j]).1 == "outcome"@ by {
            if j < p1.len() {
                assert(x1[j] == p1[j]);
            }
        }
        let p2 = removed_routes(pn, kind, o, nw, k - 1);
        let x2 = removed_routes(pn, kind, o, nw, k);
        assert forall|j: int| 0 <= j < x2.len() implies (#[trigger] x2[j]).1 == "outcome"@ by {
            if j < p2.len() {
                assert(x2[j] == p2[j]);
            }
        }
    }
}

proof fn lemma_prompt_categories(o: Seq<(Seq<char>, PromptFile)>, nw: Seq<(Seq<char>, PromptFile)>, k: int)
    ensures
        all_of_category(prompt_changes(o, nw, k), "outcome"@),
    decreases k,
{
    if k > 0 {
        lemma_prompt_categories(o, nw, k - 1);
        let prev = prompt_changes(o, nw, k - 1);
        let (pn, np) = nw[k - 1];
        match map_get(o, pn) {
            None => {
                assert(prompt_changes(o, nw, k) =~= prev);
            },
            Some(op) => {
                let (a1, b1) = (outcome_entries(op.success), outcome_entries(np.success));
                let (a2, b2) = (outcome_entries(op.failure), outcome_entries(np.failure));
                lemma_route_categories(pn, "success"@, a1, b1, b1.len() as int);
                lemma_route_categories(pn, "success"@, a1, b1, a1.len() as int);
                lemma_route_categories(pn, "failure"@, a2, b2, b2.len() as int);
                lemma_route_categories(pn, "failure"@, a2, b2, a2.len() as int);
                let r1 = route_changes(pn, "success"@, a1, b1);
                let r2 = route_changes(pn, "failure"@, a2, b2);
                lemma_has_change_concat(new_route_changes(pn, "success"@, a1, b1, b1.len() as int), removed_routes(pn, "success"@, a1, b1, a1.len() as int), ChangeKind::Added, "outcome"@, pn);
                lemma_has_change_concat(new_route_changes(pn, "failure"@, a2, b2, b2.len() as int), removed_routes(pn, "failure"@, a2, b2, a2.len() as int), ChangeKind::Added, "outcome"@, pn);
                lemma_has_change_concat(r1, r2, ChangeKind::Added, "outcome"@, pn);
                lemma_has_change_concat(prev, r1 + r2, ChangeKind::Added, "outcome"@, pn);
            },
        }
    }
}

/// A diff reports a state as added exactly when the new version has it and the old one
/// does not, and as removed exactly when the old version has it and the new one does not;
/// a state it reports as changed is in both.
pub proof fn lemma_state_additions_and_removals(old: WorkflowIR, new: WorkflowIR, name: Seq<char>)
    ensures
        has_change(workflow_changes(old, new), ChangeKind::Added, "state"@, name) == (has_key(
            state_entries(new.states),
            name,
        ) && !has_key(state_entries(old.states), name)),
        has_change(workflow_changes(old, new), ChangeKind::Removed, "state"@, name) == (has_key(
            state_entries(old.states),
            name,
        ) && !has_key(state_entries(new.states), name)),
        has_change(workflow_changes(old, new), ChangeKind::Changed, "state"@, name) ==> has_key(
            state_entries(old.states),
            name,
        ) && has_key(state_entries(new.states), name),
{
    reveal_strlit("state");
    reveal_strlit("step");
    reveal_strlit("phase");
    reveal_strlit("profile");
    reveal_strlit("outcome");
    assert("state"@ != "phase"@) by {
        assert("state"@[1] != "phase"@[1]);
    }
    assert("state"@ != "step"@) by {
        assert("state"@.len() != "step"@.len());
    }
    assert("state"@ != "profile"@) by {
        assert("state"@.len() != "profile"@.len());
    }
    assert("state"@ != "outcome"@) by {
        assert("state"@.len() != "outcome"@.len());
    }
    let (os, ns) = (state_entries(old.states), state_entries(new.states));
    let (ot, nt) = (step_entries(old.steps), step_entries(new.steps));
    let (oh, nh) = (phase_entries(old.phases), phase_entries(new.phases));
    let (op, np) = (profile_entries(old.profiles), profile_entries(new.profiles));
    let (opr, npr) = (prompt_entries(old.prompts), prompt_entries(new.prompts));
    let a = new_state_changes(os, ns, ns.len() as int);
    let b = removed_states(os, ns, os.len() as int);
    let c = new_step_changes(ot, nt, nt.len() as int);
    let d = removed_keys("step"@, ot, nt, ot.len() as int);
    let e = new_phase_changes(oh, nh, nh.len() as int);
    let f = removed_keys("phase"@, oh, nh, oh.len() as int);
    let g = new_profile_changes(op, np, np.len() as int);
    let h = removed_keys("profile"@, op, np, op.len() as int);
    let i = prompt_changes(opr, npr, npr.len() as int);
    lemma_new_state_changes(os, ns, ns.len() as int, name);
    lemma_removed_states(os, ns, os.len() as int, name);
    lemma_step_categories(ot, nt, nt.len() as int);
    lemma_removed_categories("step"@, ot, nt, ot.len() as int);
    lemma_phase_categories(oh, nh, nh.len() as int);
    lemma_removed_categories("phase"@, oh, nh, oh.len() as int);
    lemma_profile_categories(op, np, np.len() as int);
    lemma_removed_categories("profile"@, op, np, op.len() as int);
    lemma_prompt_categories(opr, npr, npr.len() as int);
    let rest = c + d + e + f + g + h + i;
    assert forall|k: ChangeKind| !has_change(rest, k, "state"@, name) by {
        lemma_has_change_concat(c, d, k, "state"@, name);
        lemma_has_change_concat(c + d, e, k, "state"@, name);
        lemma_has_change_concat(c + d + e, f, k, "state"@, name);
        lemma_has_change_concat(c + d + e + f, g, k, "state"@, name);
        lemma_has_change_concat(c + d + e + f + g, h, k, "state"@, name);
        lemma_has_change_concat(c + d + e + f + g + h, i, k, "state"@, name);
        lemma_no_change_of_other_category(c, "step"@, k, "state"@, name);
        lemma_no_change_of_other_category(d, "step"@, k, "state"@, name);
        lemma_no_change_of_other_category(e, "phase"@, k, "state"@, name);
        lemma_no_change_of_other_category(f, "phase"@, k, "state"@, name);
        lemma_no_change_of_other_category(g, "profile"@, k, "state"@, name);
        lemma_no_change_of_other_category(h, "profile"@, k, "state"@, name);
        lemma_no_change_of_other_category(i, "outcome"@, k, "state"@, name);
    }
    assert(workflow_changes(old, new) =~= a + b + rest);
    lemma_has_change_concat(a, b, ChangeKind::Added, "state"@, name);
    lemma_has_change_concat(a, b, ChangeKind::Removed, "state"@, name);
    lemma_has_change_concat(a + b, rest, ChangeKind::Added, "state"@, name);
    lemma_has_change_concat(a + b, rest, ChangeKind::Removed, "state"@, name);
    lemma_has_change_concat(a, b, ChangeKind::Changed, "state"@, name);
    lemma_has_change_concat(a + b, rest, ChangeKind::Changed, "state"@, name);
    if has_change(a, ChangeKind::Changed, "state"@, name) {
        let j = choose|j: int| 0 <= j < ns.len() && (#[trigger] ns[j]).0 == name;
        assert(has_key(ns, name));
    }
    if has_key(ns, name) && !has_key(os, name) {
        let j = choose|j: int| 0 <= j < ns.len() && (#[trigger] ns[j]).0 == name;
        assert(0 <= j < ns.len() && ns[j].0 == name && map_get(os, name) is None);
    }
    if exists|j: int| 0 <= j < ns.len() && (#[trigger] ns[j]).0 == name && map_get(os, name) is None {
        let j = choose|j: int| 0 <= j < ns.len() && (#[trigger] ns[j]).0 == name && map_get(os, name) is None;
        assert(has_key(ns, name));
    }
    if has_key(os, name) && !has_key(ns, name) {
        let j = choose|j: int| 0 <= j < os.len() && (#[trigger] os[j]).0 == name;
        assert(0 <= j < os.len() && os[j].0 == name && !has_key(ns, name));
    }
    if exists|j: int| 0 <= j < os.len() && (#[trigger] os[j]).0 == name && !has_key(ns, name) {
        let j = choose|j: int| 0 <= j < os.len() && (#[trigger] os[j]).0 == name && !has_key(ns, name);
        assert(has_key(os, name));
    }
}


proof fn lemma_step_added(o: Seq<(Seq<char>, StepDef)>, nw: Seq<(Seq<char>, StepDef)>, k: int, name: Seq<char>)
    requires
        0 <= k <= nw.len(),
    ensures
        has_change(new_step_changes(o, nw, k), ChangeKind::Added, "step"@, name) == (exists|i: int|
            0 <= i < k && (#[trigger] nw[i]).0 == name && map_get(o, name) is None),
        !has_change(new_step_changes(o, nw, k), ChangeKind::Removed, "step"@, name),
        has_change(new_step_changes(o, nw, k), ChangeKind::Changed, "step"@, name) ==> map_get(o, name) is Some
            && exists|i: int| 0 <= i < k && (#[trigger] nw[i]).0 == name,
    decreases k,
{
    if k > 0 {
        lemma_step_added(o, nw, k - 1, name);
        let prev = new_step_changes(o, nw, k - 1);
        let x = new_step_changes(o, nw, k);
        let piece = x.subrange(prev.len() as int, x.len() as int);
        assert(x =~= prev + piece);
        lemma_has_change_concat(prev, piece, ChangeKind::Added, "step"@, name);
        lemma_has_change_concat(prev, piece, ChangeKind::Removed, "step"@, name);
        lemma_has_change_concat(prev, piece, ChangeKind::Changed, "step"@, name);
        if has_change(piece, ChangeKind::Added, "step"@, name) || has_change(piece, ChangeKind::Changed, "step"@, name) {
            assert(nw[k - 1].0 == name);
        }
        if exists|i: int| 0 <= i < k && (#[trigger] nw[i]).0 == name && map_get(o, name) is None {
            let i = choose|i: int| 0 <= i < k && (#[trigger] nw[i]).0 == name && map_get(o, name) is None;
            if i == k - 1 {
                assert(piece[0].0 == ChangeKind::Added && piece[0].2 == name);
            }
        }
    }
}

proof fn lemma_phase_added(o: Seq<(Seq<char>, PhaseDef)>, nw: Seq<(Seq<char>, PhaseDef)>, k: int, name: Seq<char>)
    requires
        0 <= k <= nw.len(),
    ensures
        has_change(new_phase_changes(o, nw, k), ChangeKind::Added, "phase"@, name) == (exists|i: int|
            0 <= i < k && (#[trigger] nw[i]).0 == name && map_get(o, name) is None),
        !has_change(new_phase_changes(o, nw, k), ChangeKind::Removed, "phase"@, name),
        has_change(new_phase_changes(o, nw, k), ChangeKind::Changed, "phase"@, name) ==> map_get(o, name) is Some
            && exists|i: int| 0 <= i < k && (#[trigger] nw[i]).0 == name,
    decreases k,
{
    if k > 0 {
        lemma_phase_added(o, nw, k - 1, name);
        let prev = new_phase_changes(o, nw, k - 1);
        let x = new_phase_changes(o, nw, k);
        let piece = x.subrange(prev.len() as int, x.len() as int);
        assert(x =~= prev + piece);
        lemma_has_change_concat(prev, piece, ChangeKind::Added, "phase"@, name);
        lemma_has_change_concat(prev, piece, ChangeKind::Removed, "phase"@, name);
        lemma_has_change_concat(prev, piece, ChangeKind::Changed, "phase"@, name);
        if has_change(piece, ChangeKind::Added, "phase"@, name) || has_change(piece, ChangeKind::Changed, "phase"@, name) {
            assert(nw[k - 1].0 == name);
        }
        if exists|i: int| 0 <= i < k && (#[trigger] nw[i]).0 == name && map_get(o, name) is None {
            let i = choose|i: int| 0 <= i < k && (#[trigger] nw[i]).0 == name && map_get(o, name) is None;
            if i == k - 1 {
                assert(piece[0].0 == ChangeKind::Added && piece[0].2 == name);
            }
        }
    }
}

proof fn lemma_profile_added(o: Seq<(Seq<char>, ProfileDef)>, nw: Seq<(Seq<char>, ProfileDef)>, k: int, name: Seq<char>)
    requires
        0 <= k <= nw.len(),
    ensures
        has_change(new_profile_changes(o, nw, k), ChangeKind::Added, "profile"@, name) == (exists|i: int|
            0 <= i < k && (#[trigger] nw[i]).0 == name && map_get(o, name) is None),
        !has_change(new_profile_changes(o, nw, k), ChangeKind::Removed, "profile"@, name),
        has_change(new_profile_changes(o, nw, k), ChangeKind::Changed, "profile"@, name) ==> map_get(o, name) is Some
            && exists|i: int| 0 <= i < k && (#[trigger] nw[i]).0 == name,
    decreases k,
{
    if k > 0 {
        lemma_profile_added(o, nw, k - 1, name);
        let prev = new_profile_changes(o, nw, k - 1);
        let x = new_profile_changes(o, nw, k);
        let piece = x.subrange(prev.len() as int, x.len() as int);
        assert(x =~= prev + piece);
        lemma_has_change_concat(prev, piece, ChangeKind::Added, "profile"@, name);
        lemma_has_change_concat(prev, piece, ChangeKind::Removed, "profile"@, name);
        lemma_has_change_concat(prev, piece, ChangeKind::Changed, "profile"@, name);
        if has_change(piece, ChangeKind::Added, "profile"@, name) || has_change(piece, ChangeKind::Changed, "profile"@, name) {
            assert(nw[k - 1].0 == name);
        }
        if exists|i: int| 0 <= i < k && (#[trigger] nw[i]).0 == name && map_get(o, name) is None {
            let i = choose|i: int| 0 <= i < k && (#[trigger] nw[i]).0 == name && map_get(o, name) is None;
            if i == k - 1 {
                assert(piece[0].0 == ChangeKind::Added && piece[0].2 == name);
            }
        }
    }
}

proof fn lemma_removed_keys_removed<V>(cat: Seq<char>, o: Seq<(Seq<char>, V)>, nw: Seq<(Seq<char>, V)>, k: int, name: Seq<char>)
    requires
        0 <= k <= o.len(),
    ensures
        has_change(removed_keys(cat, o, nw, k), ChangeKind::Removed, cat, name) == (exists|i: int|
            0 <= i < k && (#[trigger] o[i]).0 == name && !has_key(nw, name)),
        !has_change(removed_keys(cat, o, nw, k), ChangeKind::Added, cat, name),
        !has_change(removed_keys(cat, o, nw, k), ChangeKind::Changed, cat, name),
    decreases k,
{
    if k > 0 {
        lemma_removed_keys_removed(cat, o, nw, k - 1, name);
        let prev = removed_keys(cat, o, nw, k - 1);
        let x = removed_keys(cat, o, nw, k);
        let piece = x.subrange(prev.len() as int, x.len() as int);
        assert(x =~= prev + piece);
        lemma_has_change_concat(prev, piece, ChangeKind::Added, cat, name);
        lemma_has_change_concat(prev, piece, ChangeKind::Removed, cat, name);
        lemma_has_change_concat(prev, piece, ChangeKind::Changed, cat, name);
        if exists|i: int| 0 <= i < k && (#[trigger] o[i]).0 == name && !has_key(nw, name) {
            let i = choose|i: int| 0 <= i < k && (#[trigger] o[i]).0 == name && !has_key(nw, name);
            if i == k - 1 {
                assert(piece[0].0 == ChangeKind::Removed && piece[0].2 == name);
            }
        }
    }
}

proof fn lemma_has_key_iff<V>(e: Seq<(Seq<char>, V)>, name: Seq<char>)
    ensures
        has_key(e, name) == (exists|i: int| 0 <= i < e.len() && (#[trigger] e[i]).0 == name),
{
}

/// A diff reports a step, phase or profile as added exactly when the new version has it
/// and the old one does not, and as removed exactly when the old version has it and the
/// new one does not; one it reports as changed is in both.
pub proof fn lemma_key_additions_and_removals(old: WorkflowIR, new: WorkflowIR, name: Seq<char>)
    ensures
        has_change(workflow_changes(old, new), ChangeKind::Added, "step"@, name) == (has_key(step_entries(new.steps), name)
            && !has_key(step_entries(old.steps), name)),
        has_change(workflow_changes(old, new), ChangeKind::Removed, "step"@, name) == (has_key(step_entries(old.steps), name)
            && !has_key(step_entries(new.steps), name)),
        has_change(workflow_changes(old, new), ChangeKind::Added, "phase"@, name) == (has_key(phase_entries(new.phases), name)
            && !has_key(phase_entries(old.phases), name)),
        has_change(workflow_changes(old, new), ChangeKind::Removed, "phase"@, name) == (has_key(phase_entries(old.phases), name)
            && !has_key(phase_entries(new.phases), name)),
        has_change(workflow_changes(old, new), ChangeKind::Added, "profile"@, name) == (has_key(profile_entries(new.profiles), name)
            && !has_key(profile_entries(old.profiles), name)),
        has_change(workflow_changes(old, new), ChangeKind::Removed, "profile"@, name) == (has_key(profile_entries(old.profiles), name)
            && !has_key(profile_entries(new.profiles), name)),
        has_change(workflow_changes(old, new), ChangeKind::Changed, "step"@, name) ==> has_key(step_entries(old.steps), name)
            && has_key(step_entries(new.steps), name),
        has_change(workflow_changes(old, new), ChangeKind::Changed, "phase"@, name) ==> has_key(phase_entries(old.phases), name)
            && has_key(phase_entries(new.phases), name),
        has_change(workflow_changes(old, new), ChangeKind::Changed, "profile"@, name) ==> has_key(profile_entries(old.profiles), name)
            && has_key(profile_entries(new.profiles), name),
        has_change(workflow_changes(old, new), ChangeKind::Changed, "step"@, name) == has_change(
            new_step_changes(step_entries(old.steps), step_entries(new.steps), step_entries(new.steps).len() as int),
            ChangeKind::Changed,
            "step"@,
            name,
        ),
{
    reveal_strlit("state");
    reveal_strlit("step");
    reveal_strlit("phase");
    reveal_strlit("profile");
    reveal_strlit("outcome");
    assert("state"@ != "phase"@) by {
        assert("state"@[1] != "phase"@[1]);
    }
    assert("step"@ != "state"@ && "step"@ != "phase"@ && "step"@ != "profile"@ && "step"@ != "outcome"@) by {
        assert("step"@.len() != "state"@.len() && "step"@.len() != "phase"@.len() && "step"@.len() != "profile"@.len()
            && "step"@.len() != "outcome"@.len());
    }
    assert("phase"@ != "profile"@ && "phase"@ != "outcome"@) by {
        assert("phase"@.len() != "profile"@.len() && "phase"@.len() != "outcome"@.len());
    }
    assert("profile"@ != "state"@ && "profile"@ != "outcome"@) by {
        assert("profile"@.len() != "state"@.len());
        assert("profile"@[1] != "outcome"@[1]);
    }
    let (os, ns) = (state_entries(old.states), state_entries(new.states));
    let (ot, nt) = (step_entries(old.steps), step_entries(new.steps));
    let (oh, nh) = (phase_entries(old.phases), phase_entries(new.phases));
    let (op, np) = (profile_entries(old.profiles), profile_entries(new.profiles));
    let (opr, npr) = (prompt_entries(old.prompts), prompt_entries(new.prompts));
    let a = new_state_changes(os, ns, ns.len() as int);
    let b = removed_states(os, ns, os.len() as int);
    let c = new_step_changes(ot, nt, nt.len() as int);
    let d = removed_keys("step"@, ot, nt, ot.len() as int);
    let e = new_phase_changes(oh, nh, nh.len() as int);
    let f = removed_keys("phase"@, oh, nh, oh.len() as int);
    let g = new_profile_changes(op, np, np.len() as int);
    let h = removed_keys("profile"@, op, np, op.len() as int);
    let i = prompt_changes(opr, npr, npr.len() as int);
    lemma_new_state_changes(os, ns, ns.len() as int, name);
    lemma_removed_states(os, ns, os.len() as int, name);
    lemma_step_categories(ot, nt, nt.len() as int);
    lemma_removed_categories("step"@, ot, nt, ot.len() as int);
    lemma_phase_categories(oh, nh, nh.len() as int);
    lemma_removed_categories("phase"@, oh, nh, oh.len() as int);
    lemma_profile_categories(op, np, np.len() as int);
    lemma_removed_categories("profile"@, op, np, op.len() as int);
    lemma_prompt_categories(opr, npr, npr.len() as int);
    lemma_step_added(ot, nt, nt.len() as int, name);
    lemma_phase_added(oh, nh, nh.len() as int, name);
    lemma_profile_added(op, np, np.len() as int, name);
    lemma_removed_keys_removed("step"@, ot, nt, ot.len() as int, name);
    lemma_removed_keys_removed("phase"@, oh, nh, oh.len() as int, name);
    lemma_removed_keys_removed("profile"@, op, np, op.len() as int, name);
    lemma_has_key_iff(nt, name);
    lemma_has_key_iff(ot, name);
    lemma_has_key_iff(nh, name);
    lemma_has_key_iff(oh, name);
    lemma_has_key_iff(np, name);
    lemma_has_key_iff(op, name);
    assert(workflow_changes(old, new) =~= a + b + c + d + e + f + g + h + i);
    assert forall|k: ChangeKind, cat: Seq<char>| #![trigger has_change(workflow_changes(old, new), k, cat, name)]
        cat == "step"@ || cat == "phase"@ || cat == "profile"@ implies has_change(workflow_changes(old, new), k, cat, name)
        == (has_change(c, k, cat, name) || has_change(d, k, cat, name) || has_change(e, k, cat, name) || has_change(f, k, cat, name)
        || has_change(g, k, cat, name) || has_change(h, k, cat, name)) by {
        lemma_has_change_concat(a, b, k, cat, name);
        lemma_has_change_concat(a + b, c, k, cat, name);
        lemma_has_change_concat(a + b + c, d, k, cat, name);
        lemma_has_change_concat(a + b + c + d, e, k, cat, name);
        lemma_has_change_concat(a + b + c + d + e, f, k, cat, name);
        lemma_has_change_concat(a + b + c + d + e + f, g, k, cat, name);
        lemma_has_change_concat(a + b + c + d + e + f + g, h, k, cat, name);
        lemma_has_change_concat(a + b + c + d + e + f + g + h, i, k, cat, name);
        lemma_no_change_of_other_category(i, "outcome"@, k, cat, name);
        if cat != "step"@ {
            lemma_no_change_of_other_category(c, "step"@, k, cat, name);
            lemma_no_change_of_other_category(d, "step"@, k, cat, name);
        }
        if cat != "phase"@ {
            lemma_no_change_of_other_category(e, "phase"@, k, cat, name);
            lemma_no_change_of_other_category(f, "phase"@, k, cat, name);
        }
        if cat != "profile"@ {
            lemma_no_change_of_other_category(g, "profile"@, k, cat, name);
            lemma_no_change_of_other_category(h, "profile"@, k, cat, name);
        }
        lemma_no_change_of_other_category(a, "state"@, k, cat, name);
        lemma_no_change_of_other_category(b, "state"@, k, cat, name);
    }
    assert(has_change(workflow_changes(old, new), ChangeKind::Added, "step"@, name) == (has_change(c, ChangeKind::Added, "step"@, name)));
    assert(has_change(workflow_changes(old, new), ChangeKind::Changed, "step"@, name) == (has_change(c, ChangeKind::Changed, "step"@, name)));
    assert(has_change(workflow_changes(old, new), ChangeKind::Changed, "phase"@, name) == (has_change(e, ChangeKind::Changed, "phase"@, name)));
    assert(has_change(workflow_changes(old, new), ChangeKind::Changed, "profile"@, name) == (has_change(g, ChangeKind::Changed, "profile"@, name)));
}


/// The step `o` (where there is one) leads from another queue or to another action than
/// `ns`.
pub open spec fn step_differs(o: Option<StepDef>, ns: StepDef) -> bool {
    match o {
        Some(os) => os.queue@ != ns.queue@ || os.action@ != ns.action@,
        None => false,
    }
}

proof fn lemma_step_changed_entries(o: Seq<(Seq<char>, StepDef)>, nw: Seq<(Seq<char>, StepDef)>, k: int, name: Seq<char>)
    requires
        0 <= k <= nw.len(),
    ensures
        has_change(new_step_changes(o, nw, k), ChangeKind::Changed, "step"@, name) == (exists|i: int|
            0 <= i < k && (#[trigger] nw[i]).0 == name && step_differs(map_get(o, name), nw[i].1)),
    decreases k,
{
    if k > 0 {
        lemma_step_changed_entries(o, nw, k - 1, name);
        let prev = new_step_changes(o, nw, k - 1);
        let x = new_step_changes(o, nw, k);
        let piece = x.subrange(prev.len() as int, x.len() as int);
        assert(x =~= prev + piece);
        lemma_has_change_concat(prev, piece, ChangeKind::Changed, "step"@, name);
        if has_change(piece, ChangeKind::Changed, "step"@, name) {
            assert(nw[k - 1].0 == name);
        }
        if exists|i: int| 0 <= i < k && (#[trigger] nw[i]).0 == name && step_differs(map_get(o, name), nw[i].1) {
            let i = choose|i: int| 0 <= i < k && (#[trigger] nw[i]).0 == name && step_differs(map_get(o, name), nw[i].1);
            if i == k - 1 {
                assert(piece[0].0 == ChangeKind::Changed && piece[0].1 == "step"@ && piece[0].2 == name);
            }
        }
    }
}

/// A step present in both versions is reported as changed exactly when its queue or its
/// action differs between them.
pub proof fn lemma_step_changed_iff_differs(old: WorkflowIR, new: WorkflowIR, i: int, j: int)
    requires
        ir_valid(old),
        ir_valid(new),
        0 <= i < step_entries(old.steps).len(),
        0 <= j < step_entries(new.steps).len(),
        step_entries(old.steps)[i].0 == step_entries(new.steps)[j].0,
    ensures
        has_change(workflow_changes(old, new), ChangeKind::Changed, "step"@, step_entries(new.steps)[j].0) == (
        step_entries(old.steps)[i].1.queue@ != step_entries(new.steps)[j].1.queue@ || step_entries(old.steps)[i].1.action@
            != step_entries(new.steps)[j].1.action@),
{
    let ot = step_entries(old.steps);
    let nt = step_entries(new.steps);
    let name = nt[j].0;
    lemma_key_additions_and_removals(old, new, name);
    lemma_step_changed_entries(ot, nt, nt.len() as int, name);
    lemma_get_own(ot, i);
    if exists|m: int| 0 <= m < nt.len() && (#[trigger] nt[m]).0 == name && step_differs(map_get(ot, name), nt[m].1) {
        let m = choose|m: int| 0 <= m < nt.len() && (#[trigger] nt[m]).0 == name && step_differs(map_get(ot, name), nt[m].1);
        if m != j {
            assert(nt[m].0 == nt[j].0);
        }
    }
}

} // verus!
