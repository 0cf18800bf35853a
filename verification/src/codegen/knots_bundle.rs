//! The knots bundle: the workflow as the records that the knots tool reads (states, steps,
//! phases, profiles with their resolved executors and outputs, prompts, and transition
//! tables). Turning a bundle into JSON text is left to the caller.
use vstd::prelude::*;
use indexmap::IndexMap;
use crate::ir::{
    opt_view, output_view, state_display, state_name, strings_view, PhaseDef, ProfileDef, StateDef, StepDef,
    WorkflowIR,
};
use crate::parse::ast::{ActionOutput, ActionType, Constraint, Executor, GateKind};
use crate::prompt::{copy_opt, copy_routes, copy_strings, ParamDef, ParamType, PromptFile};
use crate::codegen::toml_emit::{constraint_word, executor_word, gate_word, kind_word, param_type_word};
use crate::graph::profile::{insert_all, lemma_insert_all_concat, lemma_insert_all_one};
use crate::maps::{
    lemma_view_insert, bundle_output_entries, bundle_outputs_insert, bundle_outputs_new, executor_word_entries, executor_words_insert,
    executor_words_new, lemma_view_keys, map_get, map_insert, outcome_entries, outcomes_at, outcomes_len,
    override_entries, overrides_get, param_entries, params_at, params_len, phase_entries, phases_at, phases_get,
    phases_len, profile_entries, profiles_at, profiles_len, prompt_entries, prompts_at, prompts_get, prompts_len,
    state_entries, states_at, states_get, states_len, step_entries, steps_at, steps_get, steps_len, view_entries,
};

verus! {

/// The whole bundle.
#[derive(Debug)]
pub struct KnotsBundle {
    pub format: &'static str,
    pub format_version: u32,
    pub workflow: WorkflowMetadata,
    pub states: Vec<StateBundle>,
    pub steps: Vec<StepBundle>,
    pub phases: Vec<PhaseBundle>,
    pub profiles: Vec<ProfileBundle>,
    pub prompts: Vec<PromptBundle>,
    pub transitions: TransitionBundle,
}

#[derive(Debug)]
pub struct WorkflowMetadata {
    pub name: String,
    pub version: u32,
    pub default_profile: Option<String>,
}

#[derive(Debug)]
pub struct StateBundle {
    pub id: String,
    pub display_name: String,
    pub kind: &'static str,
    pub action_kind: Option<&'static str>,
    pub gate_kind: Option<&'static str>,
    pub executor: Option<&'static str>,
    pub constraints: Vec<&'static str>,
    pub prompt: Option<String>,
    pub output: Option<String>,
    pub output_hint: Option<String>,
}

#[derive(Debug)]
pub struct StepBundle {
    pub id: String,
    pub queue: String,
    pub action: String,
}

#[derive(Debug)]
pub struct PhaseBundle {
    pub id: String,
    pub produce_step: String,
    pub gate_step: Option<String>,
}

#[derive(Debug)]
pub struct ProfileBundle {
    pub id: String,
    pub display_name: Option<String>,
    pub description: Option<String>,
    pub phases: Vec<String>,
    pub outputs: IndexMap<String, OutputBundle>,
    pub executors: IndexMap<String, &'static str>,
}

#[derive(Debug)]
pub struct OutputBundle {
    pub artifact_type: String,
    pub access_hint: Option<String>,
}

#[derive(Debug)]
pub struct PromptBundle {
    pub name: String,
    pub accept: Vec<String>,
    pub params: Vec<PromptParamBundle>,
    pub outcomes: Vec<PromptOutcomeBundle>,
    pub body: String,
    pub body_params: Vec<String>,
}

#[derive(Debug)]
pub struct PromptParamBundle {
    pub name: String,
    pub param_type: &'static str,
    pub values: Vec<String>,
    pub required: bool,
    pub default: Option<String>,
    pub description: Option<String>,
}

#[derive(Debug)]
pub struct PromptOutcomeBundle {
    pub name: String,
    pub target: String,
    pub is_success: bool,
}

#[derive(Debug)]
pub struct TransitionBundle {
    pub wildcard_targets: Vec<String>,
    pub queue_to_action: Vec<StepBundle>,
    pub outcome_tables: Vec<ActionOutcomeTable>,
}

#[derive(Debug)]
pub struct ActionOutcomeTable {
    pub action: String,
    pub prompt: String,
    pub success: IndexMap<String, String>,
    pub failure: IndexMap<String, String>,
}

pub open spec fn opt_word(o: Option<&'static str>) -> Option<Seq<char>> {
    match o {
        Some(w) => Some(w@),
        None => None,
    }
}

pub open spec fn words_view(v: Seq<&'static str>) -> Seq<Seq<char>> {
    v.map_values(|w: &'static str| w@)
}

/// The bundle record of a state.
pub open spec fn state_bundle_of(b: StateBundle, st: StateDef) -> bool {
    &&& b.id@ == state_name(st)
    &&& b.display_name@ == state_display(st)
    &&& b.kind@ == kind_word(st)
    &&& match st {
        StateDef::Action { action_type, prompt_name, output, constraints, executor, .. } => {
            &&& opt_word(b.action_kind) == Some(match action_type {
                ActionType::Produce(_) => "produce"@,
                ActionType::Gate(..) => "gate"@,
            })
            &&& opt_word(b.gate_kind) == match action_type {
                ActionType::Gate(k, _) => Some(gate_word(k)),
                _ => None,
            }
            &&& opt_word(b.executor) == Some(executor_word(executor))
            &&& words_view(b.constraints@) == constraints@.map_values(|c: Constraint| constraint_word(c))
            &&& opt_view(b.prompt) == Some(prompt_name@)
            &&& opt_view(b.output) == match output_view(output) {
                Some(o) => Some(o.0),
                None => None,
            }
            &&& opt_view(b.output_hint) == match output_view(output) {
                Some(o) => o.1,
                None => None,
            }
        },
        _ => {
            &&& b.action_kind is None
            &&& b.gate_kind is None
            &&& b.executor is None
            &&& b.constraints@.len() == 0
            &&& b.prompt is None
            &&& b.output is None
            &&& b.output_hint is None
        },
    }
}

pub open spec fn step_bundle_of(b: StepBundle, st: StepDef) -> bool {
    b.id@ == st.name@ && b.queue@ == st.queue@ && b.action@ == st.action@
}

pub open spec fn phase_bundle_of(b: PhaseBundle, ph: PhaseDef) -> bool {
    b.id@ == ph.name@ && b.produce_step@ == ph.produce_step@ && opt_view(b.gate_step) == opt_view(ph.gate_step)
}

/// The actions that the first `n` phases of a profile run, each with what `f` makes of it.
pub open spec fn profile_actions(ir: WorkflowIR, pr: ProfileDef, n: int) -> Seq<(Seq<char>, StateDef)>
    decreases n,
{
    if n <= 0 {
        Seq::empty()
    } else {
        profile_actions(ir, pr, n - 1) + match map_get(phase_entries(ir.phases), pr.phases@[n - 1]@) {
            Some(ph) => step_action(ir, ph.produce_step@) + match ph.gate_step {
                Some(g) => step_action(ir, g@),
                None => Seq::empty(),
            },
            None => Seq::empty(),
        }
    }
}

/// The action of the step named `sn`, where the step and its action exist.
pub open spec fn step_action(ir: WorkflowIR, sn: Seq<char>) -> Seq<(Seq<char>, StateDef)> {
    match map_get(step_entries(ir.steps), sn) {
        Some(st) => match map_get(state_entries(ir.states), st.action@) {
            Some(s) => seq![(st.action@, s)],
            None => Seq::empty(),
        },
        None => Seq::empty(),
    }
}

/// The executor that a profile gives an action: its override's, else the action's own,
/// else the agent.
pub open spec fn resolved_executor(pr: ProfileDef, action: Seq<char>, st: StateDef) -> Executor {
    match map_get(override_entries(pr.overrides), action) {
        Some(o) if o.executor is Some => o.executor->0,
        _ => match st {
            StateDef::Action { executor, .. } => executor,
            _ => Executor::Agent,
        },
    }
}

/// The output that a profile gives an action: its override's, else the action's own.
pub open spec fn resolved_output(pr: ProfileDef, action: Seq<char>, st: StateDef) -> Option<(Seq<char>, Option<Seq<char>>)> {
    match map_get(override_entries(pr.overrides), action) {
        Some(o) if o.output is Some => output_view(o.output),
        _ => match st {
            StateDef::Action { output, .. } => output_view(output),
            _ => None,
        },
    }
}

pub open spec fn executor_inserts(pr: ProfileDef, acts: Seq<(Seq<char>, StateDef)>) -> Seq<(Seq<char>, Seq<char>)> {
    acts.map_values(|a: (Seq<char>, StateDef)| (a.0, executor_word(resolved_executor(pr, a.0, a.1))))
}

pub open spec fn output_inserts(pr: ProfileDef, acts: Seq<(Seq<char>, StateDef)>) -> Seq<(Seq<char>, (Seq<char>, Option<Seq<char>>))>
    decreases acts.len(),
{
    if acts.len() == 0 {
        Seq::empty()
    } else {
        output_inserts(pr, acts.drop_last()) + match resolved_output(pr, acts.last().0, acts.last().1) {
            Some(o) => seq![(acts.last().0, o)],
            None => Seq::empty(),
        }
    }
}

impl View for OutputBundle {
    type V = (Seq<char>, Option<Seq<char>>);

    open spec fn view(&self) -> (Seq<char>, Option<Seq<char>>) {
        (self.artifact_type@, opt_view(self.access_hint))
    }
}

/// The bundle record of a profile: its executors and outputs resolved for every action of
/// its phases, in order.
pub open spec fn profile_bundle_of(b: ProfileBundle, ir: WorkflowIR, pr: ProfileDef) -> bool {
    let acts = profile_actions(ir, pr, pr.phases@.len() as int);
    &&& b.id@ == pr.name@
    &&& opt_view(b.display_name) == opt_view(pr.display_name)
    &&& opt_view(b.description) == opt_view(pr.description)
    &&& strings_view(b.phases@) == strings_view(pr.phases@)
    &&& view_entries(executor_word_entries(b.executors)) == insert_all(Seq::empty(), executor_inserts(pr, acts))
    &&& view_entries(bundle_output_entries(b.outputs)) == insert_all(Seq::empty(), output_inserts(pr, acts))
}

pub open spec fn param_bundle_of(b: PromptParamBundle, name: Seq<char>, d: ParamDef) -> bool {
    &&& b.name@ == name
    &&& b.param_type@ == param_type_word(d.param_type)
    &&& strings_view(b.values@) == strings_view(d.values@)
    &&& b.required == d.required
    &&& opt_view(b.default) == opt_view(d.default)
    &&& opt_view(b.description) == opt_view(d.description)
}

pub open spec fn outcome_records(o: Seq<(Seq<char>, String)>, ok: bool) -> Seq<(Seq<char>, Seq<char>, bool)> {
    o.map_values(|r: (Seq<char>, String)| (r.0, r.1@, ok))
}

pub open spec fn outcome_bundle_view(o: PromptOutcomeBundle) -> (Seq<char>, Seq<char>, bool) {
    (o.name@, o.target@, o.is_success)
}

/// The bundle record of a prompt: its outcomes are the success routes, then the failure
/// routes.
pub open spec fn prompt_bundle_of(b: PromptBundle, name: Seq<char>, p: PromptFile) -> bool {
    let pe = param_entries(p.params);
    &&& b.name@ == name
    &&& strings_view(b.accept@) == strings_view(p.accept@)
    &&& b.params@.len() == pe.len()
    &&& forall|i: int| 0 <= i < pe.len() ==> param_bundle_of(#[trigger] b.params@[i], pe[i].0, pe[i].1)
    &&& b.outcomes@.map_values(|o: PromptOutcomeBundle| outcome_bundle_view(o)) == outcome_records(
        outcome_entries(p.success),
        true,
    ) + outcome_records(outcome_entries(p.failure), false)
    &&& b.body@ == p.body@
    &&& strings_view(b.body_params@) == strings_view(p.body_params@)
}

/// The outcome table of each of the first `n` states that is an action whose prompt exists:
/// (action, prompt, success routes, failure routes).
pub open spec fn outcome_tables(ir: WorkflowIR, n: int) -> Seq<(Seq<char>, Seq<char>, Seq<(Seq<char>, Seq<char>)>, Seq<(Seq<char>, Seq<char>)>)>
    decreases n,
{
    if n <= 0 {
        Seq::empty()
    } else {
        outcome_tables(ir, n - 1) + match state_entries(ir.states)[n - 1].1 {
            StateDef::Action { name, prompt_name, .. } => match map_get(prompt_entries(ir.prompts), prompt_name@) {
                Some(p) => seq![(name@, prompt_name@, view_entries(outcome_entries(p.success)), view_entries(outcome_entries(p.failure)))],
                None => Seq::empty(),
            },
            _ => Seq::empty(),
        }
    }
}

pub open spec fn table_view(t: ActionOutcomeTable) -> (Seq<char>, Seq<char>, Seq<(Seq<char>, Seq<char>)>, Seq<(Seq<char>, Seq<char>)>) {
    (t.action@, t.prompt@, view_entries(outcome_entries(t.success)), view_entries(outcome_entries(t.failure)))
}

/// The bundle of a workflow.
pub open spec fn bundle_of(b: KnotsBundle, ir: WorkflowIR) -> bool {
    let s = state_entries(ir.states);
    let t = step_entries(ir.steps);
    let h = phase_entries(ir.phases);
    let pr = profile_entries(ir.profiles);
    let p = prompt_entries(ir.prompts);
    &&& b.format@ == "knots-bundle"@
    &&& b.format_version == 2
    &&& b.workflow.name@ == ir.name@
    &&& b.workflow.version == ir.version
    &&& opt_view(b.workflow.default_profile) == opt_view(ir.default_profile)
    &&& b.states@.len() == s.len()
    &&& forall|i: int| 0 <= i < s.len() ==> state_bundle_of(#[trigger] b.states@[i], s[i].1)
    &&& b.steps@.len() == t.len()
    &&& forall|i: int| 0 <= i < t.len() ==> step_bundle_of(#[trigger] b.steps@[i], t[i].1)
    &&& b.phases@.len() == h.len()
    &&& forall|i: int| 0 <= i < h.len() ==> phase_bundle_of(#[trigger] b.phases@[i], h[i].1)
    &&& b.profiles@.len() == pr.len()
    &&& forall|i: int| 0 <= i < pr.len() ==> profile_bundle_of(#[trigger] b.profiles@[i], ir, pr[i].1)
    &&& b.prompts@.len() == p.len()
    &&& forall|i: int| 0 <= i < p.len() ==> prompt_bundle_of(#[trigger] b.prompts@[i], p[i].0, p[i].1)
    &&& strings_view(b.transitions.wildcard_targets@) == strings_view(ir.wildcard_targets@)
    &&& b.transitions.queue_to_action@.len() == t.len()
    &&& forall|i: int| 0 <= i < t.len() ==> step_bundle_of(#[trigger] b.transitions.queue_to_action@[i], t[i].1)
    &&& b.transitions.outcome_tables@.map_values(|x: ActionOutcomeTable| table_view(x)) == outcome_tables(ir, s.len() as int)
}


fn executor_name(e: Executor) -> (r: &'static str)
    ensures
        r@ == executor_word(e),
{
    match e {
        Executor::Agent => "agent",
        Executor::Human => "human",
    }
}

fn gate_kind_name(k: GateKind) -> (r: &'static str)
    ensures
        r@ == gate_word(k),
{
    match k {
        GateKind::Approve => "approve",
        GateKind::Auth => "auth",
        GateKind::Review => "review",
    }
}

fn constraint_name(c: Constraint) -> (r: &'static str)
    ensures
        r@ == constraint_word(c),
{
    match c {
        Constraint::ReadOnly => "read_only",
        Constraint::NoGitWrite => "no_git_write",
        Constraint::MetadataOnly => "metadata_only",
    }
}

fn param_type_name(t: ParamType) -> (r: &'static str)
    ensures
        r@ == param_type_word(t),
{
    match t {
        ParamType::String => "string",
        ParamType::Int => "int",
        ParamType::Bool => "bool",
        ParamType::Enum => "enum",
    }
}

fn no_action_bundle(name: &String, display_name: &String, kind: &'static str) -> (b: StateBundle)
    ensures
        b.id@ == name@,
        b.display_name@ == display_name@,
        b.kind@ == kind@,
        b.action_kind is None && b.gate_kind is None && b.executor is None && b.constraints@.len() == 0
            && b.prompt is None && b.output is None && b.output_hint is None,
{
    StateBundle {
        id: name.clone(),
        display_name: display_name.clone(),
        kind,
        action_kind: None,
        gate_kind: None,
        executor: None,
        constraints: Vec::new(),
        prompt: None,
        output: None,
        output_hint: None,
    }
}

/// The bundle record of a state.
pub fn state_bundle(state: &StateDef) -> (b: StateBundle)
    ensures
        state_bundle_of(b, *state),
{
    match state {
        StateDef::Queue { name, display_name } => no_action_bundle(name, display_name, "queue"),
        StateDef::Action { name, display_name, action_type, prompt_name, output, constraints, executor } => {
            let mut cs: Vec<&'static str> = Vec::new();
            for i in 0..constraints.len()
                invariant
                    cs@.len() == i,
                    forall|k: int| 0 <= k < i ==> (#[trigger] cs@[k])@ == constraint_word(constraints@[k]),
            {
                cs.push(constraint_name(constraints[i]));
            }
            assert(words_view(cs@) =~= constraints@.map_values(|c: Constraint| constraint_word(c)));
            StateBundle {
                id: name.clone(),
                display_name: display_name.clone(),
                kind: "action",
                action_kind: Some(match action_type {
                    ActionType::Produce(_) => "produce",
                    ActionType::Gate(..) => "gate",
                }),
                gate_kind: match action_type {
                    ActionType::Produce(_) => None,
                    ActionType::Gate(k, _) => Some(gate_kind_name(*k)),
                },
                executor: Some(executor_name(*executor)),
                constraints: cs,
                prompt: Some(prompt_name.clone()),
                output: match output {
                    Some(o) => Some(o.artifact_type.clone()),
                    None => None,
                },
                output_hint: match output {
                    Some(o) => copy_opt(&o.access_hint),
                    None => None,
                },
            }
        },
        StateDef::Terminal { name, display_name } => no_action_bundle(name, display_name, "terminal"),
        StateDef::Escape { name, display_name } => no_action_bundle(name, display_name, "escape"),
    }
}

/// The bundle record of a step.
pub fn step_bundle(step: &StepDef) -> (b: StepBundle)
    ensures
        step_bundle_of(b, *step),
{
    StepBundle { id: step.name.clone(), queue: step.queue.clone(), action: step.action.clone() }
}

/// The bundle record of a phase.
pub fn phase_bundle(phase: &PhaseDef) -> (b: PhaseBundle)
    ensures
        phase_bundle_of(b, *phase),
{
    PhaseBundle { id: phase.name.clone(), produce_step: phase.produce_step.clone(), gate_step: copy_opt(&phase.gate_step) }
}

proof fn lemma_output_inserts_concat(pr: ProfileDef, a: Seq<(Seq<char>, StateDef)>, b: Seq<(Seq<char>, StateDef)>)
    ensures
        output_inserts(pr, a + b) == output_inserts(pr, a) + output_inserts(pr, b),
    decreases b.len(),
{
    if b.len() == 0 {
        assert(a + b =~= a);
        assert(output_inserts(pr, a) + output_inserts(pr, b) =~= output_inserts(pr, a));
    } else {
        lemma_output_inserts_concat(pr, a, b.drop_last());
        assert((a + b).drop_last() =~= a + b.drop_last());
        assert((a + b).last() == b.last());
    }
}

/// Resolves the executor and output of the action of the step named `sn`.
fn resolve_step(
    ir: &WorkflowIR,
    pr: &ProfileDef,
    sn: &String,
    execs: &mut IndexMap<String, &'static str>,
    outs: &mut IndexMap<String, OutputBundle>,
)
    ensures
        view_entries(executor_word_entries(*final(execs))) == insert_all(
            view_entries(executor_word_entries(*old(execs))),
            executor_inserts(*pr, step_action(*ir, sn@)),
        ),
        view_entries(bundle_output_entries(*final(outs))) == insert_all(
            view_entries(bundle_output_entries(*old(outs))),
            output_inserts(*pr, step_action(*ir, sn@)),
        ),
{
    let ghost e0 = view_entries(executor_word_entries(*execs));
    let ghost o0 = view_entries(bundle_output_entries(*outs));
    let ghost acts = step_action(*ir, sn@);
    if let Some(step) = steps_get(&ir.steps, sn.as_str()) {
        if let Some(state) = states_get(&ir.states, step.action.as_str()) {
            assert(acts == seq![(step.action@, *state)]);
            let ov = overrides_get(&pr.overrides, step.action.as_str());
            let executor = match ov {
                Some(o) if o.executor.is_some() => o.executor.unwrap(),
                _ => match state {
                    StateDef::Action { executor, .. } => *executor,
                    _ => Executor::Agent,
                },
            };
            let w = executor_name(executor);
            proof {
                lemma_view_insert(executor_word_entries(*execs), step.action@, w);
                lemma_insert_all_one(e0, step.action@, w@);
                assert(executor_inserts(*pr, acts) =~= seq![(step.action@, w@)]);
            }
            executor_words_insert(execs, step.action.clone(), w);
            let out: Option<&ActionOutput> = match ov {
                Some(o) if o.output.is_some() => o.output.as_ref(),
                _ => state.output(),
            };
            assert(out matches Some(x) ==> resolved_output(*pr, step.action@, *state) == Some((x.artifact_type@, opt_view(x.access_hint))));
            assert(out is None ==> resolved_output(*pr, step.action@, *state) is None);
            assert(acts.drop_last() =~= Seq::<(Seq<char>, StateDef)>::empty());
            assert(output_inserts(*pr, Seq::<(Seq<char>, StateDef)>::empty()) == Seq::<(Seq<char>, (Seq<char>, Option<Seq<char>>))>::empty());
            assert(acts.last() == (step.action@, *state));
            if let Some(o) = out {
                let ob = OutputBundle { artifact_type: o.artifact_type.clone(), access_hint: copy_opt(&o.access_hint) };
                proof {
                    lemma_view_insert(bundle_output_entries(*outs), step.action@, ob);
                    lemma_insert_all_one(o0, step.action@, ob@);
                    assert(output_inserts(*pr, acts) =~= seq![(step.action@, ob@)]);
                }
                bundle_outputs_insert(outs, step.action.clone(), ob);
            } else {
                proof {
                    lemma_insert_all_one(o0, step.action@, (Seq::<char>::empty(), None));
                    assert(output_inserts(*pr, acts) =~= Seq::<(Seq<char>, (Seq<char>, Option<Seq<char>>))>::empty());
                }
            }
            return;
        }
    }
    proof {
        assert(acts =~= Seq::<(Seq<char>, StateDef)>::empty());
        assert(output_inserts(*pr, Seq::<(Seq<char>, StateDef)>::empty()) == Seq::<(Seq<char>, (Seq<char>, Option<Seq<char>>))>::empty());
        lemma_insert_all_one(e0, sn@, sn@);
        lemma_insert_all_one(o0, sn@, (Seq::<char>::empty(), None));
        assert(executor_inserts(*pr, acts) =~= Seq::<(Seq<char>, Seq<char>)>::empty());
        assert(output_inserts(*pr, acts) =~= Seq::<(Seq<char>, (Seq<char>, Option<Seq<char>>))>::empty());
    }
}


/// The executors and outputs that a profile resolves for the actions of its phases.
pub fn materialize_profile(ir: &WorkflowIR, profile: &ProfileDef) -> (r: (IndexMap<String, &'static str>, IndexMap<String, OutputBundle>))
    ensures
        view_entries(executor_word_entries(r.0)) == insert_all(
            Seq::empty(),
            executor_inserts(*profile, profile_actions(*ir, *profile, profile.phases@.len() as int)),
        ),
        view_entries(bundle_output_entries(r.1)) == insert_all(
            Seq::empty(),
            output_inserts(*profile, profile_actions(*ir, *profile, profile.phases@.len() as int)),
        ),
{
    let mut execs = executor_words_new();
    let mut outs = bundle_outputs_new();
    assert(view_entries(executor_word_entries(execs)) =~= Seq::<(Seq<char>, Seq<char>)>::empty());
    assert(view_entries(bundle_output_entries(outs)) =~= Seq::<(Seq<char>, (Seq<char>, Option<Seq<char>>))>::empty());
    for i in 0..profile.phases.len()
        invariant
            view_entries(executor_word_entries(execs)) == insert_all(
                Seq::empty(),
                executor_inserts(*profile, profile_actions(*ir, *profile, i as int)),
            ),
            view_entries(bundle_output_entries(outs)) == insert_all(
                Seq::empty(),
                output_inserts(*profile, profile_actions(*ir, *profile, i as int)),
            ),
    {
        let ghost prev = profile_actions(*ir, *profile, i as int);
        let ghost empty_acts = Seq::<(Seq<char>, StateDef)>::empty();
        if let Some(phase) = phases_get(&ir.phases, profile.phases[i].as_str()) {
            let ghost a1 = step_action(*ir, phase.produce_step@);
            resolve_step(ir, profile, &phase.produce_step, &mut execs, &mut outs);
            let ghost a2 = match &phase.gate_step {
                Some(g) => step_action(*ir, g@),
                None => empty_acts,
            };
            if let Some(g) = &phase.gate_step {
                resolve_step(ir, profile, g, &mut execs, &mut outs);
            } else {
                proof {
                    lemma_insert_all_one(insert_all(Seq::empty(), executor_inserts(*profile, prev + a1)), Seq::<char>::empty(), Seq::<char>::empty());
                    lemma_insert_all_one(insert_all(Seq::empty(), output_inserts(*profile, prev + a1)), Seq::<char>::empty(), (Seq::<char>::empty(), None));
                    assert(executor_inserts(*profile, a2) =~= Seq::<(Seq<char>, Seq<char>)>::empty());
                    assert(output_inserts(*profile, a2) == Seq::<(Seq<char>, (Seq<char>, Option<Seq<char>>))>::empty());
                }
            }
            proof {
                assert(profile_actions(*ir, *profile, i + 1) =~= prev + (a1 + a2));
                assert(executor_inserts(*profile, prev + (a1 + a2)) =~= executor_inserts(*profile, prev) + executor_inserts(*profile, a1) + executor_inserts(*profile, a2));
                lemma_insert_all_concat(Seq::empty(), executor_inserts(*profile, prev), executor_inserts(*profile, a1));
                lemma_insert_all_concat(Seq::empty(), executor_inserts(*profile, prev) + executor_inserts(*profile, a1), executor_inserts(*profile, a2));
                lemma_output_inserts_concat(*profile, prev, a1 + a2);
                lemma_output_inserts_concat(*profile, a1, a2);
                assert(output_inserts(*profile, prev) + (output_inserts(*profile, a1) + output_inserts(*profile, a2)) =~= output_inserts(*profile, prev) + output_inserts(*profile, a1) + output_inserts(*profile, a2));
                lemma_insert_all_concat(Seq::empty(), output_inserts(*profile, prev), output_inserts(*profile, a1));
                lemma_insert_all_concat(Seq::empty(), output_inserts(*profile, prev) + output_inserts(*profile, a1), output_inserts(*profile, a2));
            }
        } else {
            proof {
                assert(profile_actions(*ir, *profile, i + 1) =~= prev);
            }
        }
    }
    (execs, outs)
}

/// The bundle record of a profile.
pub fn profile_bundle(ir: &WorkflowIR, profile: &ProfileDef) -> (b: ProfileBundle)
    ensures
        profile_bundle_of(b, *ir, *profile),
{
    let (executors, outputs) = materialize_profile(ir, profile);
    ProfileBundle {
        id: profile.name.clone(),
        display_name: copy_opt(&profile.display_name),
        description: copy_opt(&profile.description),
        phases: copy_strings(&profile.phases),
        outputs,
        executors,
    }
}

/// The bundle record of a prompt parameter.
pub fn prompt_param_bundle(name: &String, param: &ParamDef) -> (b: PromptParamBundle)
    ensures
        param_bundle_of(b, name@, *param),
{
    PromptParamBundle {
        name: name.clone(),
        param_type: param_type_name(param.param_type),
        values: copy_strings(&param.values),
        required: param.required,
        default: copy_opt(&param.default),
        description: copy_opt(&param.description),
    }
}

fn push_outcomes(v: &mut Vec<PromptOutcomeBundle>, m: &IndexMap<String, String>, ok: bool)
    ensures
        final(v)@.map_values(|o: PromptOutcomeBundle| outcome_bundle_view(o)) == old(v)@.map_values(
            |o: PromptOutcomeBundle| outcome_bundle_view(o),
        ) + outcome_records(outcome_entries(*m), ok),
{
    let ghost v0 = v@.map_values(|o: PromptOutcomeBundle| outcome_bundle_view(o));
    let ghost e = outcome_entries(*m);
    let n = outcomes_len(m);
    for i in 0..n
        invariant
            n == e.len(),
            e == outcome_entries(*m),
            v@.map_values(|o: PromptOutcomeBundle| outcome_bundle_view(o)) == v0 + outcome_records(e.take(i as int), ok),
    {
        if let Some((k, t)) = outcomes_at(m, i) {
            let ghost before = v@.map_values(|o: PromptOutcomeBundle| outcome_bundle_view(o));
            let b = PromptOutcomeBundle { name: k.clone(), target: t.clone(), is_success: ok };
            let ghost bv = outcome_bundle_view(b);
            v.push(b);
            assert(v@.map_values(|o: PromptOutcomeBundle| outcome_bundle_view(o)) =~= before.push(bv));
        }
        assert(outcome_records(e.take(i + 1), ok) =~= outcome_records(e.take(i as int), ok).push((e[i as int].0, e[i as int].1@, ok)));
    }
    assert(e.take(n as int) =~= e);
}

/// The bundle record of a prompt.
pub fn prompt_bundle(name: &String, prompt: &PromptFile) -> (b: PromptBundle)
    ensures
        prompt_bundle_of(b, name@, *prompt),
{
    let mut outcomes: Vec<PromptOutcomeBundle> = Vec::new();
    assert(outcomes@.map_values(|o: PromptOutcomeBundle| outcome_bundle_view(o)) =~= Seq::<(Seq<char>, Seq<char>, bool)>::empty());
    push_outcomes(&mut outcomes, &prompt.success, true);
    push_outcomes(&mut outcomes, &prompt.failure, false);
    let ghost pe = param_entries(prompt.params);
    let mut params: Vec<PromptParamBundle> = Vec::new();
    let n = params_len(&prompt.params);
    for i in 0..n
        invariant
            n == pe.len(),
            pe == param_entries(prompt.params),
            params@.len() == i,
            forall|k: int| 0 <= k < i ==> param_bundle_of(#[trigger] params@[k], pe[k].0, pe[k].1),
    {
        if let Some((k, d)) = params_at(&prompt.params, i) {
            params.push(prompt_param_bundle(k, d));
        }
    }
    PromptBundle {
        name: name.clone(),
        accept: copy_strings(&prompt.accept),
        params,
        outcomes,
        body: prompt.body.clone(),
        body_params: copy_strings(&prompt.body_params),
    }
}

/// The outcome table of an action state whose prompt exists.
pub fn action_outcome_table(state: &StateDef, prompts: &IndexMap<String, PromptFile>) -> (r: Option<ActionOutcomeTable>)
    ensures
        match *state {
            StateDef::Action { name, prompt_name, .. } => match map_get(prompt_entries(*prompts), prompt_name@) {
                Some(p) => r matches Some(t) && table_view(t) == (
                    name@,
                    prompt_name@,
                    view_entries(outcome_entries(p.success)),
                    view_entries(outcome_entries(p.failure)),
                ),
                None => r is None,
            },
            _ => r is None,
        },
{
    match state {
        StateDef::Action { name, prompt_name, .. } => match prompts_get(prompts, prompt_name.as_str()) {
            Some(p) => Some(ActionOutcomeTable {
                action: name.clone(),
                prompt: prompt_name.clone(),
                success: copy_routes(&p.success),
                failure: copy_routes(&p.failure),
            }),
            None => None,
        },
        _ => None,
    }
}

/// The knots bundle of a workflow.
#[verifier::spinoff_prover]
#[verifier::rlimit(40)]
pub fn build_knots_bundle(ir: &WorkflowIR) -> (b: KnotsBundle)
    ensures
        bundle_of(b, *ir),
{
    let ghost s = state_entries(ir.states);
    let ghost t = step_entries(ir.steps);
    let ghost h = phase_entries(ir.phases);
    let ghost pr = profile_entries(ir.profiles);
    let ghost p = prompt_entries(ir.prompts);
    let mut states: Vec<StateBundle> = Vec::new();
    let mut tables: Vec<ActionOutcomeTable> = Vec::new();
    let n = states_len(&ir.states);
    for i in 0..n
        invariant
            n == s.len(),
            s == state_entries(ir.states),
            states@.len() == i,
            forall|k: int| 0 <= k < i ==> state_bundle_of(#[trigger] states@[k], s[k].1),
            tables@.map_values(|x: ActionOutcomeTable| table_view(x)) == outcome_tables(*ir, i as int),
    {
        if let Some((_, st)) = states_at(&ir.states, i) {
            states.push(state_bundle(st));
            let ghost before = tables@.map_values(|x: ActionOutcomeTable| table_view(x));
            if let Some(tb) = action_outcome_table(st, &ir.prompts) {
                let ghost tv = table_view(tb);
                tables.push(tb);
                assert(tables@.map_values(|x: ActionOutcomeTable| table_view(x)) =~= before.push(tv));
            }
            assert(tables@.map_values(|x: ActionOutcomeTable| table_view(x)) =~= outcome_tables(*ir, i + 1));
        }
    }
    let mut steps: Vec<StepBundle> = Vec::new();
    let mut queue_to_action: Vec<StepBundle> = Vec::new();
    let m = steps_len(&ir.steps);
    for i in 0..m
        invariant
            m == t.len(),
            t == step_entries(ir.steps),
            steps@.len() == i,
            queue_to_action@.len() == i,
            forall|k: int| 0 <= k < i ==> step_bundle_of(#[trigger] steps@[k], t[k].1),
            forall|k: int| 0 <= k < i ==> step_bundle_of(#[trigger] queue_to_action@[k], t[k].1),
    {
        if let Some((_, st)) = steps_at(&ir.steps, i) {
            steps.push(step_bundle(st));
            queue_to_action.push(step_bundle(st));
        }
    }
    let mut phases: Vec<PhaseBundle> = Vec::new();
    let q = phases_len(&ir.phases);
    for i in 0..q
        invariant
            q == h.len(),
            h == phase_entries(ir.phases),
            phases@.len() == i,
            forall|k: int| 0 <= k < i ==> phase_bundle_of(#[trigger] phases@[k], h[k].1),
    {
        if let Some((_, ph)) = phases_at(&ir.phases, i) {
            phases.push(phase_bundle(ph));
        }
    }
    let mut profiles: Vec<ProfileBundle> = Vec::new();
    let r = profiles_len(&ir.profiles);
    for i in 0..r
        invariant
            r == pr.len(),
            pr == profile_entries(ir.profiles),
            profiles@.len() == i,
            forall|k: int| 0 <= k < i ==> profile_bundle_of(#[trigger] profiles@[k], *ir, pr[k].1),
    {
        if let Some((_, pf)) = profiles_at(&ir.profiles, i) {
            profiles.push(profile_bundle(ir, pf));
        }
    }
    let mut prompts: Vec<PromptBundle> = Vec::new();
    let u = prompts_len(&ir.prompts);
    for i in 0..u
        invariant
            u == p.len(),
            p == prompt_entries(ir.prompts),
            prompts@.len() == i,
            forall|k: int| 0 <= k < i ==> prompt_bundle_of(#[trigger] prompts@[k], p[k].0, p[k].1),
    {
        if let Some((name, pf)) = prompts_at(&ir.prompts, i) {
            prompts.push(prompt_bundle(name, pf));
        }
    }
    KnotsBundle {
        format: "knots-bundle",
        format_version: 2,
        workflow: WorkflowMetadata {
            name: ir.name.clone(),
            version: ir.version,
            default_profile: copy_opt(&ir.default_profile),
        },
        states,
        steps,
        phases,
        profiles,
        prompts,
        transitions: TransitionBundle {
            wildcard_targets: copy_strings(&ir.wildcard_targets),
            queue_to_action,
            outcome_tables: tables,
        },
    }
}

} // verus!
