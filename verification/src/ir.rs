//! The intermediate representation of a workflow: every name resolved, every
//! include loaded, every prompt parsed.
use vstd::prelude::*;
use indexmap::IndexMap;
use crate::parse::ast::{ActionOutput, ActionType, Constraint, Executor, GateKind, OutputKind};
use crate::prompt::PromptFile;
use crate::maps::{
    lemma_insert_fresh, override_entries, overrides_at, overrides_insert, overrides_len, overrides_new,
    view_entries,
};
use crate::prompt::{copy_opt, copy_strings, PromptV};
use crate::maps::{keys_distinct, outcome_entries, phase_entries, profile_entries, prompt_entries, state_entries, step_entries};

verus! {

/// A complete, lowered workflow.
#[derive(Debug)]
pub struct WorkflowIR {
    pub name: String,
    pub version: u32,
    pub default_profile: Option<String>,
    pub states: IndexMap<String, StateDef>,
    pub steps: IndexMap<String, StepDef>,
    pub phases: IndexMap<String, PhaseDef>,
    pub profiles: IndexMap<String, ProfileDef>,
    pub wildcard_targets: Vec<String>,
    pub prompts: IndexMap<String, PromptFile>,
}

/// A state of the workflow.
#[derive(Debug)]
pub enum StateDef {
    Queue { name: String, display_name: String },
    Action {
        name: String,
        display_name: String,
        action_type: ActionType,
        prompt_name: String,
        output: Option<ActionOutput>,
        constraints: Vec<Constraint>,
        executor: Executor,
    },
    Terminal { name: String, display_name: String },
    Escape { name: String, display_name: String },
}

/// The name of a state.
pub open spec fn state_name(s: StateDef) -> Seq<char> {
    match s {
        StateDef::Queue { name, .. } => name@,
        StateDef::Action { name, .. } => name@,
        StateDef::Terminal { name, .. } => name@,
        StateDef::Escape { name, .. } => name@,
    }
}

/// The display name of a state.
pub open spec fn state_display(s: StateDef) -> Seq<char> {
    match s {
        StateDef::Queue { display_name, .. } => display_name@,
        StateDef::Action { display_name, .. } => display_name@,
        StateDef::Terminal { display_name, .. } => display_name@,
        StateDef::Escape { display_name, .. } => display_name@,
    }
}

impl StateDef {
    pub fn name(&self) -> (r: &str)
        ensures
            r@ == state_name(*self),
    {
        match self {
            StateDef::Queue { name, .. } => name.as_str(),
            StateDef::Action { name, .. } => name.as_str(),
            StateDef::Terminal { name, .. } => name.as_str(),
            StateDef::Escape { name, .. } => name.as_str(),
        }
    }

    pub fn display_name(&self) -> (r: &str)
        ensures
            r@ == state_display(*self),
    {
        match self {
            StateDef::Queue { display_name, .. } => display_name.as_str(),
            StateDef::Action { display_name, .. } => display_name.as_str(),
            StateDef::Terminal { display_name, .. } => display_name.as_str(),
            StateDef::Escape { display_name, .. } => display_name.as_str(),
        }
    }

    pub fn is_terminal(&self) -> (b: bool)
        ensures
            b == (*self is Terminal),
    {
        matches!(self, StateDef::Terminal { .. })
    }

    pub fn is_escape(&self) -> (b: bool)
        ensures
            b == (*self is Escape),
    {
        matches!(self, StateDef::Escape { .. })
    }

    pub fn is_action(&self) -> (b: bool)
        ensures
            b == (*self is Action),
    {
        matches!(self, StateDef::Action { .. })
    }

    pub fn is_queue(&self) -> (b: bool)
        ensures
            b == (*self is Queue),
    {
        matches!(self, StateDef::Queue { .. })
    }

    /// The executor of an action state.
    pub fn executor(&self) -> (r: Option<Executor>)
        ensures
            r == (match *self {
                StateDef::Action { executor, .. } => Some(executor),
                _ => None,
            }),
    {
        match self {
            StateDef::Action { executor, .. } => Some(*executor),
            _ => None,
        }
    }

    /// The declared output of an action state.
    pub fn output(&self) -> (r: Option<&ActionOutput>)
        ensures
            r == (match *self {
                StateDef::Action { output, .. } => match output {
                    Some(o) => Some(&o),
                    None => None,
                },
                _ => None,
            }),
    {
        match self {
            StateDef::Action { output, .. } => output.as_ref(),
            _ => None,
        }
    }

    pub fn action_type(&self) -> (r: Option<&ActionType>)
        ensures
            r == (match *self {
                StateDef::Action { action_type, .. } => Some(&action_type),
                _ => None,
            }),
    {
        match self {
            StateDef::Action { action_type, .. } => Some(action_type),
            _ => None,
        }
    }

    /// The kind of a gate action.
    pub fn gate_kind(&self) -> (r: Option<GateKind>)
        ensures
            r == (match *self {
                StateDef::Action { action_type: ActionType::Gate(k, _), .. } => Some(k),
                _ => None,
            }),
    {
        match self {
            StateDef::Action { action_type: ActionType::Gate(kind, _), .. } => Some(*kind),
            _ => None,
        }
    }

    pub fn is_produce(&self) -> (b: bool)
        ensures
            b == is_produce_state(*self),
    {
        matches!(self, StateDef::Action { action_type: ActionType::Produce(_), .. })
    }

    pub fn is_gate(&self) -> (b: bool)
        ensures
            b == is_gate_state(*self),
    {
        matches!(self, StateDef::Action { action_type: ActionType::Gate(..), .. })
    }
}

pub open spec fn is_produce_state(s: StateDef) -> bool {
    s matches StateDef::Action { action_type: ActionType::Produce(_), .. }
}

pub open spec fn is_gate_state(s: StateDef) -> bool {
    s matches StateDef::Action { action_type: ActionType::Gate(..), .. }
}

/// A step: a queue and the action claimed from it.
#[derive(Debug)]
pub struct StepDef {
    pub name: String,
    pub queue: String,
    pub action: String,
}

/// A phase: a produce step and an optional gate step.
#[derive(Debug)]
pub struct PhaseDef {
    pub name: String,
    pub produce_step: String,
    pub gate_step: Option<String>,
}

/// The step names of a phase: its produce step, then its gate step if it has one.
pub open spec fn phase_step_names(p: PhaseDef) -> Seq<Seq<char>> {
    match p.gate_step {
        Some(g) => seq![p.produce_step@, g@],
        None => seq![p.produce_step@],
    }
}

impl PhaseDef {
    /// Returns all step names in this phase (produce + optional gate).
    pub fn step_names(&self) -> (r: Vec<&String>)
        ensures
            r@.len() == phase_step_names(*self).len(),
            forall|i: int| 0 <= i < r@.len() ==> (#[trigger] r@[i])@ == phase_step_names(*self)[i],
    {
        let mut names = Vec::new();
        names.push(&self.produce_step);
        if let Some(gs) = &self.gate_step {
            names.push(gs);
        }
        names
    }
}

/// What a profile changes for one action.
#[derive(Debug)]
pub struct ActionOverride {
    pub executor: Option<Executor>,
    pub output: Option<ActionOutput>,
}

/// A profile: the phases it runs, where it delivers, and per-action overrides.
#[derive(Debug)]
pub struct ProfileDef {
    pub name: String,
    pub display_name: Option<String>,
    pub description: Option<String>,
    pub phases: Vec<String>,
    pub output: Option<OutputKind>,
    pub overrides: IndexMap<String, ActionOverride>,
}


/// An action's output as a value: the artifact type and the optional access hint.
pub open spec fn output_view(o: Option<ActionOutput>) -> Option<(Seq<char>, Option<Seq<char>>)> {
    match o {
        Some(out) => Some((out.artifact_type@, match out.access_hint {
            Some(h) => Some(h@),
            None => None,
        })),
        None => None,
    }
}

pub open spec fn opt_view(o: Option<String>) -> Option<Seq<char>> {
    match o {
        Some(s) => Some(s@),
        None => None,
    }
}

/// A state as a value.
pub enum StateV {
    Queue { name: Seq<char>, display_name: Seq<char> },
    Action {
        name: Seq<char>,
        display_name: Seq<char>,
        action_type: ActionType,
        prompt_name: Seq<char>,
        output: Option<(Seq<char>, Option<Seq<char>>)>,
        constraints: Seq<Constraint>,
        executor: Executor,
    },
    Terminal { name: Seq<char>, display_name: Seq<char> },
    Escape { name: Seq<char>, display_name: Seq<char> },
}

impl View for StateDef {
    type V = StateV;

    open spec fn view(&self) -> StateV {
        match *self {
            StateDef::Queue { name, display_name } => StateV::Queue {
                name: name@,
                display_name: display_name@,
            },
            StateDef::Action {
                name,
                display_name,
                action_type,
                prompt_name,
                output,
                constraints,
                executor,
            } => StateV::Action {
                name: name@,
                display_name: display_name@,
                action_type,
                prompt_name: prompt_name@,
                output: output_view(output),
                constraints: constraints@,
                executor,
            },
            StateDef::Terminal { name, display_name } => StateV::Terminal {
                name: name@,
                display_name: display_name@,
            },
            StateDef::Escape { name, display_name } => StateV::Escape {
                name: name@,
                display_name: display_name@,
            },
        }
    }
}

/// A step as a value: (name, queue, action).
impl View for StepDef {
    type V = (Seq<char>, Seq<char>, Seq<char>);

    open spec fn view(&self) -> (Seq<char>, Seq<char>, Seq<char>) {
        (self.name@, self.queue@, self.action@)
    }
}

/// A phase as a value: (name, produce step, gate step).
impl View for PhaseDef {
    type V = (Seq<char>, Seq<char>, Option<Seq<char>>);

    open spec fn view(&self) -> (Seq<char>, Seq<char>, Option<Seq<char>>) {
        (self.name@, self.produce_step@, opt_view(self.gate_step))
    }
}

/// An override as a value: (executor, output).
impl View for ActionOverride {
    type V = (Option<Executor>, Option<(Seq<char>, Option<Seq<char>>)>);

    open spec fn view(&self) -> (Option<Executor>, Option<(Seq<char>, Option<Seq<char>>)>) {
        (self.executor, output_view(self.output))
    }
}


/// A profile as a value.
pub struct ProfileV {
    pub name: Seq<char>,
    pub display_name: Option<Seq<char>>,
    pub description: Option<Seq<char>>,
    pub phases: Seq<Seq<char>>,
    pub output: Option<OutputKind>,
    pub overrides: Seq<(Seq<char>, (Option<Executor>, Option<(Seq<char>, Option<Seq<char>>)>))>,
}

pub open spec fn strings_view(v: Seq<String>) -> Seq<Seq<char>> {
    v.map_values(|s: String| s@)
}

impl View for ProfileDef {
    type V = ProfileV;

    open spec fn view(&self) -> ProfileV {
        ProfileV {
            name: self.name@,
            display_name: opt_view(self.display_name),
            description: opt_view(self.description),
            phases: strings_view(self.phases@),
            output: self.output,
            overrides: view_entries(override_entries(self.overrides)),
        }
    }
}

/// A copy of an action's output.
pub fn copy_output(o: &Option<ActionOutput>) -> (r: Option<ActionOutput>)
    ensures
        output_view(r) == output_view(*o),
{
    match o {
        Some(out) => Some(ActionOutput {
            artifact_type: out.artifact_type.clone(),
            access_hint: copy_opt(&out.access_hint),
        }),
        None => None,
    }
}

impl StateDef {
    /// A copy of the state.
    pub fn duplicate(&self) -> (r: StateDef)
        ensures
            r@ == self@,
    {
        match self {
            StateDef::Queue { name, display_name } => StateDef::Queue {
                name: name.clone(),
                display_name: display_name.clone(),
            },
            StateDef::Action { name, display_name, action_type, prompt_name, output, constraints, executor } => {
                let cs = constraints.clone();
                assert(cs@ =~= constraints@);
                StateDef::Action {
                    name: name.clone(),
                    display_name: display_name.clone(),
                    action_type: *action_type,
                    prompt_name: prompt_name.clone(),
                    output: copy_output(output),
                    constraints: cs,
                    executor: *executor,
                }
            },
            StateDef::Terminal { name, display_name } => StateDef::Terminal {
                name: name.clone(),
                display_name: display_name.clone(),
            },
            StateDef::Escape { name, display_name } => StateDef::Escape {
                name: name.clone(),
                display_name: display_name.clone(),
            },
        }
    }
}

impl StepDef {
    /// A copy of the step.
    pub fn duplicate(&self) -> (r: StepDef)
        ensures
            r@ == self@,
    {
        StepDef { name: self.name.clone(), queue: self.queue.clone(), action: self.action.clone() }
    }
}

impl PhaseDef {
    /// A copy of the phase.
    pub fn duplicate(&self) -> (r: PhaseDef)
        ensures
            r@ == self@,
    {
        PhaseDef {
            name: self.name.clone(),
            produce_step: self.produce_step.clone(),
            gate_step: copy_opt(&self.gate_step),
        }
    }
}

impl ActionOverride {
    /// A copy of the override.
    pub fn duplicate(&self) -> (r: ActionOverride)
        ensures
            r@ == self@,
    {
        ActionOverride { executor: self.executor, output: copy_output(&self.output) }
    }
}

/// A copy of a map of overrides, entry by entry.
pub fn copy_overrides(m: &IndexMap<String, ActionOverride>) -> (r: IndexMap<String, ActionOverride>)
    ensures
        view_entries(override_entries(r)) == view_entries(override_entries(*m)),
{
    let ghost e = override_entries(*m);
    let mut r = overrides_new();
    let n = overrides_len(m);
    for i in 0..n
        invariant
            n == e.len(),
            e == override_entries(*m),
            override_entries(r).len() == i,
            forall|k: int| 0 <= k < i ==> (#[trigger] override_entries(r)[k]).0 == e[k].0 && override_entries(r)[k].1@ == e[k].1@,
    {
        if let Some((k, v)) = overrides_at(m, i) {
            let ghost before = override_entries(r);
            let d = v.duplicate();
            proof {
                assert forall|j: int| 0 <= j < before.len() implies (#[trigger] before[j]).0 != k@ by {
                    assert(e[j].0 != k@);
                }
                lemma_insert_fresh(before, k@, d);
            }
            overrides_insert(&mut r, k.clone(), d);
            assert(override_entries(r)[i as int] == (k@, d));
        }
    }
    assert(view_entries(override_entries(r)) =~= view_entries(e));
    r
}

impl ProfileDef {
    /// A copy of the profile.
    pub fn duplicate(&self) -> (r: ProfileDef)
        ensures
            r@ == self@,
    {
        ProfileDef {
            name: self.name.clone(),
            display_name: copy_opt(&self.display_name),
            description: copy_opt(&self.description),
            phases: copy_strings(&self.phases),
            output: self.output,
            overrides: copy_overrides(&self.overrides),
        }
    }
}

/// A workflow as a value.
pub struct IrV {
    pub name: Seq<char>,
    pub version: u32,
    pub default_profile: Option<Seq<char>>,
    pub states: Seq<(Seq<char>, StateV)>,
    pub steps: Seq<(Seq<char>, (Seq<char>, Seq<char>, Seq<char>))>,
    pub phases: Seq<(Seq<char>, (Seq<char>, Seq<char>, Option<Seq<char>>))>,
    pub profiles: Seq<(Seq<char>, ProfileV)>,
    pub wildcard_targets: Seq<Seq<char>>,
    pub prompts: Seq<(Seq<char>, PromptV)>,
}

impl View for WorkflowIR {
    type V = IrV;

    open spec fn view(&self) -> IrV {
        IrV {
            name: self.name@,
            version: self.version,
            default_profile: opt_view(self.default_profile),
            states: view_entries(state_entries(self.states)),
            steps: view_entries(step_entries(self.steps)),
            phases: view_entries(phase_entries(self.phases)),
            profiles: view_entries(profile_entries(self.profiles)),
            wildcard_targets: strings_view(self.wildcard_targets@),
            prompts: view_entries(prompt_entries(self.prompts)),
        }
    }
}

/// No map of the workflow holds a key twice, as an `IndexMap` never does.
pub open spec fn ir_valid(ir: WorkflowIR) -> bool {
    &&& keys_distinct(state_entries(ir.states))
    &&& keys_distinct(step_entries(ir.steps))
    &&& keys_distinct(phase_entries(ir.phases))
    &&& keys_distinct(profile_entries(ir.profiles))
    &&& keys_distinct(prompt_entries(ir.prompts))
    &&& forall|i: int|
        0 <= i < profile_entries(ir.profiles).len() ==> keys_distinct(
            override_entries((#[trigger] profile_entries(ir.profiles)[i]).1.overrides),
        )
    &&& forall|i: int|
        0 <= i < prompt_entries(ir.prompts).len() ==> keys_distinct(
            outcome_entries((#[trigger] prompt_entries(ir.prompts)[i]).1.success),
        ) && keys_distinct(outcome_entries(prompt_entries(ir.prompts)[i].1.failure))
}
} // verus!
