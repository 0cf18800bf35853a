//! Syntax tree of `.loom` files, as produced by the parser and consumed by the lowering pass.
use vstd::prelude::*;

verus! {

/// A whole `workflow NAME vN { ... }` file.
#[derive(Debug)]
pub struct Workflow {
    pub name: String,
    pub version: u32,
    pub declarations: Vec<Declaration>,
}

/// One declaration in a workflow body.
#[derive(Debug)]
pub enum Declaration {
    Queue(QueueDecl),
    Action(ActionDecl),
    Terminal(TerminalDecl),
    Escape(EscapeDecl),
    Step(StepDecl),
    Phase(PhaseDecl),
    Profile(ProfileDecl),
    Include(IncludeDecl),
    WildcardTransition(WildcardTransitionDecl),
}

/// `queue NAME ["Display"]`
#[derive(Debug)]
pub struct QueueDecl {
    pub name: String,
    pub display_name: Option<String>,
}

/// `action NAME ["Display"] { TYPE [prompt P] [output KIND ["hint"]] (constraint C)* }`
///
/// `prompt` is the prompt the action uses; it is the action's own name unless the
/// body names one explicitly (`prompt_explicit`).
#[derive(Debug)]
pub struct ActionDecl {
    pub name: String,
    pub display_name: Option<String>,
    pub action_type: ActionType,
    pub prompt: String,
    pub prompt_explicit: bool,
    pub output: Option<ActionOutput>,
    pub constraints: Vec<Constraint>,
}

#[derive(Debug, Clone, Copy, PartialEq, Eq, Structural)]
pub enum ActionType {
    Produce(Executor),
    Gate(GateKind, Executor),
}

#[derive(Debug, Clone, Copy, PartialEq, Eq, Structural)]
pub enum GateKind {
    Approve,
    Auth,
    Review,
}

#[derive(Debug, Clone, Copy, PartialEq, Eq, Structural)]
pub enum Executor {
    Agent,
    Human,
}

/// The artifact an action produces, with an optional hint on how to reach it.
#[derive(Debug)]
pub struct ActionOutput {
    pub artifact_type: String,
    pub access_hint: Option<String>,
}

#[derive(Debug, Clone, Copy, PartialEq, Eq, Structural)]
pub enum Constraint {
    ReadOnly,
    NoGitWrite,
    MetadataOnly,
}

/// `terminal NAME ["Display"]`
#[derive(Debug)]
pub struct TerminalDecl {
    pub name: String,
    pub display_name: Option<String>,
}

/// `escape NAME ["Display"]`
#[derive(Debug)]
pub struct EscapeDecl {
    pub name: String,
    pub display_name: Option<String>,
}

/// `step NAME { QUEUE -> ACTION }` or the shorthand `step NAME -> ACTION`, whose
/// queue is `ready_for_ACTION` (`queue_explicit` is false).
#[derive(Debug)]
pub struct StepDecl {
    pub name: String,
    pub queue: String,
    pub queue_explicit: bool,
    pub action: String,
}

/// `phase NAME { produce STEP gate STEP }`
#[derive(Debug)]
pub struct PhaseDecl {
    pub name: String,
    pub produce_step: String,
    pub gate_step: String,
}

/// `profile NAME ["Display"] { FIELD* }`
#[derive(Debug)]
pub struct ProfileDecl {
    pub name: String,
    pub display_name: Option<String>,
    pub fields: Vec<ProfileField>,
}

#[derive(Debug)]
pub enum ProfileField {
    Phases(Vec<String>),
    Output(OutputKind),
    Override(OverrideDecl),
    Description(String),
}

/// Where a profile delivers its work.
#[derive(Debug, Clone, Copy, PartialEq, Eq, Structural)]
pub enum OutputKind {
    Local,
    Remote,
    RemoteMain,
    Pr,
}

/// `override ACTION { (executor E | output KIND ["hint"])* }`
#[derive(Debug)]
pub struct OverrideDecl {
    pub action: String,
    pub executor: Option<Executor>,
    pub output: Option<ActionOutput>,
}

/// `include "path"`
#[derive(Debug)]
pub struct IncludeDecl {
    pub path: String,
}

/// `* -> TARGET`
#[derive(Debug)]
pub struct WildcardTransitionDecl {
    pub target: String,
}

} // verus!
