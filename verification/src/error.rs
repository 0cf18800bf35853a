//! Compiler errors, warnings, and the diagnostics collector.
use vstd::prelude::*;
use crate::text::push_str;

verus! {

broadcast use vstd::string::group_string_axioms;

/// An error found while loading, lowering or validating a workflow.
#[derive(Debug)]
pub enum LoomError {
    Parse { message: String },
    DuplicateIdentifier { name: String },
    UnresolvedReference { name: String, context: String },
    StepTypeMismatch { message: String },
    PhaseTypeMismatch { message: String },
    MissingPrompt { name: String },
    OrphanedPrompt { name: String },
    InvalidOutcomeTarget { prompt: String, outcome: String, target: String },
    UndeclaredParam { prompt: String, param: String },
    ParamValidation { prompt: String, param: String, message: String },
    DeadState { name: String, hint: String },
    TerminalUnreachable { name: String },
    ProduceNoSuccess { action: String },
    ProfileError { message: String },
    ProfileValidation { profile: String, message: String },
    InvalidOverride { action: String },
    InvalidDefaultProfile { name: String },
    EscapeUnreachable { name: String },
    Io { message: String },
    Yaml(String),
    Toml(String),
    Config { message: String },
}

/// A non-fatal finding.
#[derive(Debug)]
pub enum LoomWarning {
    UnusedState { name: String },
    UnusedStep { name: String },
    SingleOutcomeAction { name: String },
    SymmetricFailureRouting { name: String, target: String },
    EscapeNoReentry { name: String },
}

/// Accumulates errors and warnings, in the order they were found.
#[derive(Debug)]
pub struct Diagnostics {
    pub errors: Vec<LoomError>,
    pub warnings: Vec<LoomWarning>,
}

impl Diagnostics {
    /// No errors and no warnings.
    pub fn new() -> (d: Diagnostics)
        ensures
            d.errors@.len() == 0,
            d.warnings@.len() == 0,
    {
        Diagnostics { errors: Vec::new(), warnings: Vec::new() }
    }

    /// Records an error after those already recorded.
    pub fn error(&mut self, err: LoomError)
        ensures
            final(self).errors@ == old(self).errors@.push(err),
            errors_view(final(self).errors@) == errors_view(old(self).errors@).push(err@),
            final(self).warnings@ == old(self).warnings@,
    {
        let ghost before = self.errors@;
        self.errors.push(err);
        assert(errors_view(self.errors@) =~= errors_view(before).push(err@));
    }

    /// Records a warning after those already recorded.
    pub fn warn(&mut self, warning: LoomWarning)
        ensures
            final(self).warnings@ == old(self).warnings@.push(warning),
            final(self).errors@ == old(self).errors@,
    {
        self.warnings.push(warning);
    }

    /// Whether any error was recorded.
    pub fn has_errors(&self) -> (b: bool)
        ensures
            b == (self.errors@.len() > 0),
    {
        self.errors.len() > 0
    }

    /// Appends the errors and warnings of `other` after this collector's own.
    pub fn merge(&mut self, other: Diagnostics)
        ensures
            final(self).errors@ == old(self).errors@ + other.errors@,
            final(self).warnings@ == old(self).warnings@ + other.warnings@,
    {
        let mut other = other;
        self.errors.append(&mut other.errors);
        self.warnings.append(&mut other.warnings);
    }
}


/// An error as a value.
pub enum ErrorV {
    Parse { message: Seq<char> },
    DuplicateIdentifier { name: Seq<char> },
    UnresolvedReference { name: Seq<char>, context: Seq<char> },
    StepTypeMismatch { message: Seq<char> },
    PhaseTypeMismatch { message: Seq<char> },
    MissingPrompt { name: Seq<char> },
    OrphanedPrompt { name: Seq<char> },
    InvalidOutcomeTarget { prompt: Seq<char>, outcome: Seq<char>, target: Seq<char> },
    UndeclaredParam { prompt: Seq<char>, param: Seq<char> },
    ParamValidation { prompt: Seq<char>, param: Seq<char>, message: Seq<char> },
    DeadState { name: Seq<char>, hint: Seq<char> },
    TerminalUnreachable { name: Seq<char> },
    ProduceNoSuccess { action: Seq<char> },
    ProfileError { message: Seq<char> },
    ProfileValidation { profile: Seq<char>, message: Seq<char> },
    InvalidOverride { action: Seq<char> },
    InvalidDefaultProfile { name: Seq<char> },
    EscapeUnreachable { name: Seq<char> },
    Io { message: Seq<char> },
    Yaml(Seq<char>),
    Toml(Seq<char>),
    Config { message: Seq<char> },
}

impl View for LoomError {
    type V = ErrorV;

    open spec fn view(&self) -> ErrorV {
        match *self {
            LoomError::Parse { message } => ErrorV::Parse { message: message@ },
            LoomError::DuplicateIdentifier { name } => ErrorV::DuplicateIdentifier { name: name@ },
            LoomError::UnresolvedReference { name, context } => ErrorV::UnresolvedReference {
                name: name@,
                context: context@,
            },
            LoomError::StepTypeMismatch { message } => ErrorV::StepTypeMismatch { message: message@ },
            LoomError::PhaseTypeMismatch { message } => ErrorV::PhaseTypeMismatch { message: message@ },
            LoomError::MissingPrompt { name } => ErrorV::MissingPrompt { name: name@ },
            LoomError::OrphanedPrompt { name } => ErrorV::OrphanedPrompt { name: name@ },
            LoomError::InvalidOutcomeTarget { prompt, outcome, target } => ErrorV::InvalidOutcomeTarget {
                prompt: prompt@,
                outcome: outcome@,
                target: target@,
            },
            LoomError::UndeclaredParam { prompt, param } => ErrorV::UndeclaredParam {
                prompt: prompt@,
                param: param@,
            },
            LoomError::ParamValidation { prompt, param, message } => ErrorV::ParamValidation {
                prompt: prompt@,
                param: param@,
                message: message@,
            },
            LoomError::DeadState { name, hint } => ErrorV::DeadState { name: name@, hint: hint@ },
            LoomError::TerminalUnreachable { name } => ErrorV::TerminalUnreachable { name: name@ },
            LoomError::ProduceNoSuccess { action } => ErrorV::ProduceNoSuccess { action: action@ },
            LoomError::ProfileError { message } => ErrorV::ProfileError { message: message@ },
            LoomError::ProfileValidation { profile, message } => ErrorV::ProfileValidation {
                profile: profile@,
                message: message@,
            },
            LoomError::InvalidOverride { action } => ErrorV::InvalidOverride { action: action@ },
            LoomError::InvalidDefaultProfile { name } => ErrorV::InvalidDefaultProfile { name: name@ },
            LoomError::EscapeUnreachable { name } => ErrorV::EscapeUnreachable { name: name@ },
            LoomError::Io { message } => ErrorV::Io { message: message@ },
            LoomError::Yaml(m) => ErrorV::Yaml(m@),
            LoomError::Toml(m) => ErrorV::Toml(m@),
            LoomError::Config { message } => ErrorV::Config { message: message@ },
        }
    }
}

/// A warning as a value.
pub enum WarningV {
    UnusedState { name: Seq<char> },
    UnusedStep { name: Seq<char> },
    SingleOutcomeAction { name: Seq<char> },
    SymmetricFailureRouting { name: Seq<char>, target: Seq<char> },
    EscapeNoReentry { name: Seq<char> },
}

impl View for LoomWarning {
    type V = WarningV;

    open spec fn view(&self) -> WarningV {
        match *self {
            LoomWarning::UnusedState { name } => WarningV::UnusedState { name: name@ },
            LoomWarning::UnusedStep { name } => WarningV::UnusedStep { name: name@ },
            LoomWarning::SingleOutcomeAction { name } => WarningV::SingleOutcomeAction { name: name@ },
            LoomWarning::SymmetricFailureRouting { name, target } => WarningV::SymmetricFailureRouting {
                name: name@,
                target: target@,
            },
            LoomWarning::EscapeNoReentry { name } => WarningV::EscapeNoReentry { name: name@ },
        }
    }
}

/// Errors as values, in order.
pub open spec fn errors_view(v: Seq<LoomError>) -> Seq<ErrorV> {
    v.map_values(|e: LoomError| e@)
}

/// Warnings as values, in order.
pub open spec fn warnings_view(v: Seq<LoomWarning>) -> Seq<WarningV> {
    v.map_values(|w: LoomWarning| w@)
}

/// The message of an error.
pub open spec fn error_text(e: ErrorV) -> Seq<char> {
    match e {
        ErrorV::Parse { message } => "Parse error: "@ + message,
        ErrorV::DuplicateIdentifier { name } => "Duplicate identifier: '"@ + name + "' already declared"@,
        ErrorV::UnresolvedReference { name, .. } => "Unresolved reference: '"@ + name + "' not found"@,
        ErrorV::StepTypeMismatch { message } => "Step type mismatch: "@ + message,
        ErrorV::PhaseTypeMismatch { message } => "Phase type mismatch: "@ + message,
        ErrorV::MissingPrompt { name } => "Missing prompt file: prompts/"@ + name + ".md"@,
        ErrorV::OrphanedPrompt { name } => "Orphaned prompt file: prompts/"@ + name + ".md has no matching action"@,
        ErrorV::InvalidOutcomeTarget { prompt, outcome, target } => "Invalid outcome target: outcome '"@ + outcome + "' in prompt '"@ + prompt + "' targets unknown state '"@ + target + "'"@,
        ErrorV::UndeclaredParam { prompt, param } => "Parameter consistency: prompt '"@ + prompt + "' uses '{{ "@ + param + " }}' but it is not declared in params"@,
        ErrorV::ParamValidation { prompt, param, message } => "Parameter validation: prompt '"@ + prompt + "' param '"@ + param + "': "@ + message,
        ErrorV::DeadState { name, .. } => "Dead state: '"@ + name + "' has no inbound transitions"@,
        ErrorV::TerminalUnreachable { name } => "Terminal unreachable: '"@ + name + "' cannot reach any terminal state"@,
        ErrorV::ProduceNoSuccess { action } => "Produce action '"@ + action + "' has no success outcomes"@,
        ErrorV::ProfileError { message } => "Profile error: "@ + message,
        ErrorV::ProfileValidation { profile, message } => "Profile '"@ + profile + "': "@ + message,
        ErrorV::InvalidOverride { action } => "Override validity: override references action '"@ + action + "' not in profile's phases"@,
        ErrorV::InvalidDefaultProfile { name } => "Invalid default profile: '"@ + name + "' is not a declared profile"@,
        ErrorV::EscapeUnreachable { name } => "Escape reachability: escape state '"@ + name + "' has no path back to the workflow"@,
        ErrorV::Io { message } => "IO error: "@ + message,
        ErrorV::Yaml(message) => "YAML parse error: "@ + message,
        ErrorV::Toml(message) => "TOML parse error: "@ + message,
        ErrorV::Config { message } => "Config error: "@ + message,
    }
}

/// The message of a warning.
pub open spec fn warning_text(w: WarningV) -> Seq<char> {
    match w {
        WarningV::UnusedState { name } => "warning: state '"@ + name + "' is declared but not used in any step"@,
        WarningV::UnusedStep { name } => "warning: step '"@ + name + "' is declared but not used in any phase"@,
        WarningV::SingleOutcomeAction { name } => "warning: action '"@ + name + "' has only one success outcome and zero failure outcomes"@,
        WarningV::SymmetricFailureRouting { name, target } => "warning: all failure outcomes for '"@ + name + "' route to '"@ + target + "'"@,
        WarningV::EscapeNoReentry { name } => "warning: escape state '"@ + name + "' has no explicit re-entry transition"@,
    }
}

impl LoomError {
    /// The error's message.
    pub fn message(&self) -> (r: String)
        ensures
            r@ == error_text(self@),
    {
        let r = match self {
            LoomError::Parse { message } => {
                let mut s = String::from_str("Parse error: ");
                push_str(&mut s, message.as_str());
                s
            },
            LoomError::DuplicateIdentifier { name } => {
                let mut s = String::from_str("Duplicate identifier: '");
                push_str(&mut s, name.as_str());
                push_str(&mut s, "' already declared");
                s
            },
            LoomError::UnresolvedReference { name, .. } => {
                let mut s = String::from_str("Unresolved reference: '");
                push_str(&mut s, name.as_str());
                push_str(&mut s, "' not found");
                s
            },
            LoomError::StepTypeMismatch { message } => {
                let mut s = String::from_str("Step type mismatch: ");
                push_str(&mut s, message.as_str());
                s
            },
            LoomError::PhaseTypeMismatch { message } => {
                let mut s = String::from_str("Phase type mismatch: ");
                push_str(&mut s, message.as_str());
                s
            },
            LoomError::MissingPrompt { name } => {
                let mut s = String::from_str("Missing prompt file: prompts/");
                push_str(&mut s, name.as_str());
                push_str(&mut s, ".md");
                s
            },
            LoomError::OrphanedPrompt { name } => {
                let mut s = String::from_str("Orphaned prompt file: prompts/");
                push_str(&mut s, name.as_str());
                push_str(&mut s, ".md has no matching action");
                s
            },
            LoomError::InvalidOutcomeTarget { prompt, outcome, target } => {
                let mut s = String::from_str("Invalid outcome target: outcome '");
                push_str(&mut s, outcome.as_str());
                push_str(&mut s, "' in prompt '");
                push_str(&mut s, prompt.as_str());
                push_str(&mut s, "' targets unknown state '");
                push_str(&mut s, target.as_str());
                push_str(&mut s, "'");
                s
            },
            LoomError::UndeclaredParam { prompt, param } => {
                let mut s = String::from_str("Parameter consistency: prompt '");
                push_str(&mut s, prompt.as_str());
                push_str(&mut s, "' uses '{{ ");
                push_str(&mut s, param.as_str());
                push_str(&mut s, " }}' but it is not declared in params");
                s
            },
            LoomError::ParamValidation { prompt, param, message } => {
                let mut s = String::from_str("Parameter validation: prompt '");
                push_str(&mut s, prompt.as_str());
                push_str(&mut s, "' param '");
                push_str(&mut s, param.as_str());
                push_str(&mut s, "': ");
                push_str(&mut s, message.as_str());
                s
            },
            LoomError::DeadState { name, .. } => {
                let mut s = String::from_str("Dead state: '");
                push_str(&mut s, name.as_str());
                push_str(&mut s, "' has no inbound transitions");
                s
            },
            LoomError::TerminalUnreachable { name } => {
                let mut s = String::from_str("Terminal unreachable: '");
                push_str(&mut s, name.as_str());
                push_str(&mut s, "' cannot reach any terminal state");
                s
            },
            LoomError::ProduceNoSuccess { action } => {
                let mut s = String::from_str("Produce action '");
                push_str(&mut s, action.as_str());
                push_str(&mut s, "' has no success outcomes");
                s
            },
            LoomError::ProfileError { message } => {
                let mut s = String::from_str("Profile error: ");
                push_str(&mut s, message.as_str());
                s
            },
            LoomError::ProfileValidation { profile, message } => {
                let mut s = String::from_str("Profile '");
                push_str(&mut s, profile.as_str());
                push_str(&mut s, "': ");
                push_str(&mut s, message.as_str());
                s
            },
            LoomError::InvalidOverride { action } => {
                let mut s = String::from_str("Override validity: override references action '");
                push_str(&mut s, action.as_str());
                push_str(&mut s, "' not in profile's phases");
                s
            },
            LoomError::InvalidDefaultProfile { name } => {
                let mut s = String::from_str("Invalid default profile: '");
                push_str(&mut s, name.as_str());
                push_str(&mut s, "' is not a declared profile");
                s
            },
            LoomError::EscapeUnreachable { name } => {
                let mut s = String::from_str("Escape reachability: escape state '");
                push_str(&mut s, name.as_str());
                push_str(&mut s, "' has no path back to the workflow");
                s
            },
            LoomError::Io { message } => {
                let mut s = String::from_str("IO error: ");
                push_str(&mut s, message.as_str());
                s
            },
            LoomError::Yaml(message) => {
                let mut s = String::from_str("YAML parse error: ");
                push_str(&mut s, message.as_str());
                s
            },
            LoomError::Toml(message) => {
                let mut s = String::from_str("TOML parse error: ");
                push_str(&mut s, message.as_str());
                s
            },
            LoomError::Config { message } => {
                let mut s = String::from_str("Config error: ");
                push_str(&mut s, message.as_str());
                s
            },
        };
        assert(r@ =~= error_text(self@));
        r
    }
}

impl LoomWarning {
    /// The warning's message.
    pub fn message(&self) -> (r: String)
        ensures
            r@ == warning_text(self@),
    {
        let r = match self {
            LoomWarning::UnusedState { name } => {
                let mut s = String::from_str("warning: state '");
                push_str(&mut s, name.as_str());
                push_str(&mut s, "' is declared but not used in any step");
                s
            },
            LoomWarning::UnusedStep { name } => {
                let mut s = String::from_str("warning: step '");
                push_str(&mut s, name.as_str());
                push_str(&mut s, "' is declared but not used in any phase");
                s
            },
            LoomWarning::SingleOutcomeAction { name } => {
                let mut s = String::from_str("warning: action '");
                push_str(&mut s, name.as_str());
                push_str(&mut s, "' has only one success outcome and zero failure outcomes");
                s
            },
            LoomWarning::SymmetricFailureRouting { name, target } => {
                let mut s = String::from_str("warning: all failure outcomes for '");
                push_str(&mut s, name.as_str());
                push_str(&mut s, "' route to '");
                push_str(&mut s, target.as_str());
                push_str(&mut s, "'");
                s
            },
            LoomWarning::EscapeNoReentry { name } => {
                let mut s = String::from_str("warning: escape state '");
                push_str(&mut s, name.as_str());
                push_str(&mut s, "' has no explicit re-entry transition");
                s
            },
        };
        assert(r@ =~= warning_text(self@));
        r
    }
}

} // verus!
