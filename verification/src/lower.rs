//! Lowering: from the syntax tree (plus the included profile files and the prompt
//! files it names) to the resolved intermediate representation, with every name checked.
use vstd::prelude::*;
use indexmap::IndexMap;
use crate::error::{Diagnostics, ErrorV, LoomError, errors_view};
use crate::ir::{
    ActionOverride, PhaseDef, ProfileDef, ProfileV, StateDef, StateV, StepDef, WorkflowIR,
    opt_view, output_view, strings_view,
};
use crate::maps::{
    has_key, lemma_view_insert, map_get, map_insert, override_entries, overrides_insert,
    overrides_new, phase_entries, phases_get, phases_insert, phases_new, profile_entries,
    profiles_get, profiles_insert, profiles_new, state_entries, states_get, states_insert,
    states_new, step_entries, steps_get, steps_insert, steps_new, view_entries, lemma_view_keys,
};
use crate::parse::ast::{
    ActionDecl, ActionOutput, ActionType, Declaration, Executor, ProfileDecl, ProfileField,
    StepDecl, Workflow,
};
use crate::text::{i64_text, parses_as_i64, snake_to_title_case, title_case};
use crate::prompt::{ParamDef, ParamType, PromptFile};
use crate::maps::{outcome_entries, param_entries, prompt_entries};

verus! {

/// The executor an action type names.
pub open spec fn executor_of(t: ActionType) -> Executor {
    match t {
        ActionType::Produce(e) => e,
        ActionType::Gate(_, e) => e,
    }
}

/// A declared display name, or the identifier in Title Case.
pub open spec fn display_or_title(d: Option<String>, name: String) -> Seq<char> {
    match d {
        Some(s) => s@,
        None => title_case(name@),
    }
}

/// The display name of a queue synthesized by a shorthand step.
pub open spec fn ready_display(action: Seq<char>) -> Seq<char> {
    "Ready for "@ + title_case(action)
}

/// What the declarations of a workflow register, as values.
pub struct Registration {
    pub states: Seq<(Seq<char>, StateV)>,
    pub steps: Seq<(Seq<char>, (Seq<char>, Seq<char>, Seq<char>))>,
    pub phases: Seq<(Seq<char>, (Seq<char>, Seq<char>, Option<Seq<char>>))>,
    pub profiles: Seq<(Seq<char>, ProfileV)>,
    pub wildcards: Seq<Seq<char>>,
    /// (action, prompt) for each registered action, in declaration order.
    pub refs: Seq<(Seq<char>, Seq<char>)>,
    /// Queues made by shorthand steps.
    pub synthesized: Set<Seq<char>>,
    /// The clashes with earlier declarations and the unusable includes, in order.
    pub errs: Seq<ErrorV>,
    /// How many include declarations were met.
    pub includes_used: nat,
}

pub open spec fn empty_registration() -> Registration {
    Registration {
        states: seq![],
        steps: seq![],
        phases: seq![],
        profiles: seq![],
        wildcards: seq![],
        refs: seq![],
        synthesized: Set::empty(),
        errs: seq![],
        includes_used: 0,
    }
}

/// A profile's fields, applied in order: a later `phases`, `output` or `description`
/// replaces an earlier one; overrides are collected by action.
pub open spec fn profile_fields_view(
    fs: Seq<ProfileField>,
    name: Seq<char>,
    display: Option<Seq<char>>,
) -> ProfileV
    decreases fs.len(),
{
    if fs.len() == 0 {
        ProfileV {
            name,
            display_name: display,
            description: None,
            phases: seq![],
            output: None,
            overrides: seq![],
        }
    } else {
        let pv = profile_fields_view(fs.drop_last(), name, display);
        match fs.last() {
            ProfileField::Phases(ns) => ProfileV { phases: strings_view(ns@), ..pv },
            ProfileField::Output(k) => ProfileV { output: Some(k), ..pv },
            ProfileField::Description(d) => ProfileV { description: Some(d@), ..pv },
            ProfileField::Override(o) => ProfileV {
                overrides: map_insert(pv.overrides, o.action@, (o.executor, output_view(o.output))),
                ..pv
            },
        }
    }
}

pub open spec fn profile_view_of(p: ProfileDecl) -> ProfileV {
    profile_fields_view(p.fields@, p.name@, opt_view(p.display_name))
}

pub open spec fn register_profile_spec(r: Registration, p: ProfileDecl) -> Registration {
    if has_key(r.profiles, p.name@) {
        Registration { errs: r.errs.push(ErrorV::DuplicateIdentifier { name: p.name@ }), ..r }
    } else {
        Registration { profiles: map_insert(r.profiles, p.name@, profile_view_of(p)), ..r }
    }
}

pub open spec fn add_state(r: Registration, name: Seq<char>, s: StateV) -> Registration {
    if has_key(r.states, name) {
        Registration { errs: r.errs.push(ErrorV::DuplicateIdentifier { name }), ..r }
    } else {
        Registration { states: map_insert(r.states, name, s), ..r }
    }
}

/// A shorthand step's queue, synthesized unless a queue of that name was declared.
pub open spec fn step_queue_spec(r: Registration, s: StepDecl) -> Registration {
    if s.queue_explicit {
        r
    } else if has_key(r.states, s.queue@) && !r.synthesized.contains(s.queue@) {
        Registration { errs: r.errs.push(ErrorV::DuplicateIdentifier { name: s.queue@ }), ..r }
    } else if !has_key(r.states, s.queue@) {
        Registration {
            states: map_insert(
                r.states,
                s.queue@,
                StateV::Queue { name: s.queue@, display_name: ready_display(s.action@) },
            ),
            synthesized: r.synthesized.insert(s.queue@),
            ..r
        }
    } else {
        r
    }
}

pub open spec fn register_decl(
    r: Registration,
    d: Declaration,
    incs: Seq<Result<ProfileDecl, LoomError>>,
) -> Registration {
    match d {
        Declaration::Queue(q) => add_state(
            r,
            q.name@,
            StateV::Queue { name: q.name@, display_name: display_or_title(q.display_name, q.name) },
        ),
        Declaration::Action(a) => {
            let r2 = add_state(
                r,
                a.name@,
                StateV::Action {
                    name: a.name@,
                    display_name: display_or_title(a.display_name, a.name),
                    action_type: a.action_type,
                    prompt_name: a.prompt@,
                    output: output_view(a.output),
                    constraints: a.constraints@,
                    executor: executor_of(a.action_type),
                },
            );
            if has_key(r.states, a.name@) {
                r2
            } else {
                Registration { refs: r2.refs.push((a.name@, a.prompt@)), ..r2 }
            }
        },
        Declaration::Terminal(t) => add_state(
            r,
            t.name@,
            StateV::Terminal { name: t.name@, display_name: display_or_title(t.display_name, t.name) },
        ),
        Declaration::Escape(e) => add_state(
            r,
            e.name@,
            StateV::Escape { name: e.name@, display_name: display_or_title(e.display_name, e.name) },
        ),
        Declaration::Step(s) => {
            let r2 = step_queue_spec(r, s);
            if has_key(r2.steps, s.name@) {
                Registration { errs: r2.errs.push(ErrorV::DuplicateIdentifier { name: s.name@ }), ..r2 }
            } else {
                Registration {
                    steps: map_insert(r2.steps, s.name@, (s.name@, s.queue@, s.action@)),
                    ..r2
                }
            }
        },
        Declaration::Phase(p) => if has_key(r.phases, p.name@) {
            Registration { errs: r.errs.push(ErrorV::DuplicateIdentifier { name: p.name@ }), ..r }
        } else {
            Registration {
                phases: map_insert(
                    r.phases,
                    p.name@,
                    (p.name@, p.produce_step@, Some(p.gate_step@)),
                ),
                ..r
            }
        },
        Declaration::Profile(p) => register_profile_spec(r, p),
        Declaration::Include(_) => {
            let k = r.includes_used;
            let r2 = Registration { includes_used: k + 1, ..r };
            if k < incs.len() {
                match incs[k as int] {
                    Ok(p) => register_profile_spec(r2, p),
                    Err(e) => Registration { errs: r2.errs.push(e@), ..r2 },
                }
            } else {
                Registration {
                    errs: r2.errs.push(ErrorV::Io { message: "included file was not loaded"@ }),
                    ..r2
                }
            }
        },
        Declaration::WildcardTransition(w) => Registration {
            wildcards: r.wildcards.push(w.target@),
            ..r
        },
    }
}

/// The registration of the declarations, in order.
pub open spec fn register_decls(
    ds: Seq<Declaration>,
    incs: Seq<Result<ProfileDecl, LoomError>>,
) -> Registration
    decreases ds.len(),
{
    if ds.len() == 0 {
        empty_registration()
    } else {
        register_decl(register_decls(ds.drop_last(), incs), ds.last(), incs)
    }
}

/// The maps and lists built while registering declarations.
pub struct Registry {
    pub states: IndexMap<String, StateDef>,
    pub steps: IndexMap<String, StepDef>,
    pub phases: IndexMap<String, PhaseDef>,
    pub profiles: IndexMap<String, ProfileDef>,
    pub wildcard_targets: Vec<String>,
    pub refs: Vec<(String, String)>,
    pub synthesized: Vec<String>,
}

pub open spec fn pairs_view(v: Seq<(String, String)>) -> Seq<(Seq<char>, Seq<char>)> {
    v.map_values(|p: (String, String)| (p.0@, p.1@))
}

/// `x` holds what `r` describes.
pub open spec fn holds(x: Registry, r: Registration) -> bool {
    &&& view_entries(state_entries(x.states)) == r.states
    &&& view_entries(step_entries(x.steps)) == r.steps
    &&& view_entries(phase_entries(x.phases)) == r.phases
    &&& view_entries(profile_entries(x.profiles)) == r.profiles
    &&& strings_view(x.wildcard_targets@) == r.wildcards
    &&& pairs_view(x.refs@) == r.refs
    &&& forall|s: Seq<char>| r.synthesized.contains(s) <==> strings_view(x.synthesized@).contains(s)
}

fn copy_output(o: &Option<ActionOutput>) -> (r: Option<ActionOutput>)
    ensures
        output_view(r) == output_view(*o),
{
    match o {
        Some(out) => Some(ActionOutput {
            artifact_type: out.artifact_type.clone(),
            access_hint: match &out.access_hint {
                Some(h) => Some(h.clone()),
                None => None,
            },
        }),
        None => None,
    }
}

fn copy_strings(v: &Vec<String>) -> (r: Vec<String>)
    ensures
        strings_view(r@) == strings_view(v@),
{
    let mut r: Vec<String> = Vec::new();
    let mut i: usize = 0;
    while i < v.len()
        invariant
            i <= v.len(),
            strings_view(r@) == strings_view(v@).take(i as int),
        decreases v.len() - i,
    {
        let ghost old_r = r@;
        let c = v[i].clone();
        r.push(c);
        assert(strings_view(r@) =~= strings_view(old_r).push(v@[i as int]@));
        assert(strings_view(r@) =~= strings_view(v@).take(i + 1));
        i = i + 1;
    }
    assert(strings_view(v@).take(i as int) =~= strings_view(v@));
    r
}

fn display_or_title_exec(d: &Option<String>, name: &String) -> (r: String)
    ensures
        r@ == display_or_title(*d, *name),
{
    match d {
        Some(s) => s.clone(),
        None => snake_to_title_case(name.as_str()),
    }
}

fn contains_string(v: &Vec<String>, s: &String) -> (b: bool)
    ensures
        b == strings_view(v@).contains(s@),
{
    let mut i: usize = 0;
    while i < v.len()
        invariant
            i <= v.len(),
            forall|j: int| 0 <= j < i ==> strings_view(v@)[j] != s@,
        decreases v.len() - i,
    {
        if v[i] == *s {
            assert(strings_view(v@)[i as int] == s@);
            return true;
        }
        i = i + 1;
    }
    false
}

/// Builds the profile a declaration describes.
fn build_profile(p: &ProfileDecl) -> (d: ProfileDef)
    ensures
        d@ == profile_view_of(*p),
{
    let mut def = ProfileDef {
        name: p.name.clone(),
        display_name: match &p.display_name {
            Some(s) => Some(s.clone()),
            None => None,
        },
        description: None,
        phases: Vec::new(),
        output: None,
        overrides: overrides_new(),
    };
    let mut i: usize = 0;
    assert(p.fields@.take(0) =~= Seq::<ProfileField>::empty());
    assert(view_entries(override_entries(def.overrides)) =~= seq![]);
    assert(strings_view(def.phases@) =~= seq![]);
    while i < p.fields.len()
        invariant
            i <= p.fields@.len(),
            def@ == profile_fields_view(p.fields@.take(i as int), p.name@, opt_view(p.display_name)),
        decreases p.fields.len() - i,
    {
        assert(p.fields@.take(i + 1).drop_last() =~= p.fields@.take(i as int));
        match &p.fields[i] {
            ProfileField::Phases(ns) => {
                def.phases = copy_strings(ns);
            },
            ProfileField::Output(k) => {
                def.output = Some(*k);
            },
            ProfileField::Description(s) => {
                def.description = Some(s.clone());
            },
            ProfileField::Override(o) => {
                let ov = ActionOverride { executor: o.executor, output: copy_output(&o.output) };
                proof {
                    lemma_view_insert(override_entries(def.overrides), o.action@, ov);
                }
                overrides_insert(&mut def.overrides, o.action.clone(), ov);
            },
        }
        i = i + 1;
    }
    assert(p.fields@.take(i as int) =~= p.fields@);
    def
}


fn duplicate(name: &String) -> (e: LoomError)
    ensures
        e@ == (ErrorV::DuplicateIdentifier { name: name@ }),
{
    LoomError::DuplicateIdentifier { name: name.clone() }
}

/// Registers a state unless its name is taken, in which case the clash is reported.
fn add_state_exec(
    x: &mut Registry,
    diag: &mut Diagnostics,
    name: &String,
    st: StateDef,
    Ghost(r): Ghost<Registration>,
) -> (added: bool)
    requires
        holds(*old(x), r),
        errors_view(old(diag).errors@) == r.errs,
    ensures
        added == !has_key(r.states, name@),
        holds(*final(x), add_state(r, name@, st@)),
        errors_view(final(diag).errors@) == add_state(r, name@, st@).errs,
        final(diag).warnings@ == old(diag).warnings@,
{
    proof {
        lemma_view_keys(state_entries(x.states), name@);
    }
    if states_get(&x.states, name.as_str()).is_some() {
        diag.error(duplicate(name));
        false
    } else {
        proof {
            lemma_view_insert(state_entries(x.states), name@, st);
        }
        states_insert(&mut x.states, name.clone(), st);
        true
    }
}

/// Registers a profile unless its name is taken, in which case the clash is reported.
fn register_profile(
    x: &mut Registry,
    diag: &mut Diagnostics,
    p: &ProfileDecl,
    Ghost(r): Ghost<Registration>,
)
    requires
        holds(*old(x), r),
        errors_view(old(diag).errors@) == r.errs,
    ensures
        holds(*final(x), register_profile_spec(r, *p)),
        errors_view(final(diag).errors@) == register_profile_spec(r, *p).errs,
        final(diag).warnings@ == old(diag).warnings@,
{
    proof {
        lemma_view_keys(profile_entries(x.profiles), p.name@);
    }
    if profiles_get(&x.profiles, p.name.as_str()).is_some() {
        diag.error(duplicate(&p.name));
        return;
    }
    let def = build_profile(p);
    proof {
        lemma_view_insert(profile_entries(x.profiles), p.name@, def);
    }
    profiles_insert(&mut x.profiles, p.name.clone(), def);
}

fn copy_constraints(v: &Vec<crate::parse::ast::Constraint>) -> (r: Vec<crate::parse::ast::Constraint>)
    ensures
        r@ == v@,
{
    let mut r = Vec::new();
    let mut i: usize = 0;
    while i < v.len()
        invariant
            i <= v.len(),
            r@ == v@.take(i as int),
        decreases v.len() - i,
    {
        r.push(v[i]);
        assert(r@ =~= v@.take(i + 1));
        i = i + 1;
    }
    assert(v@.take(i as int) =~= v@);
    r
}

fn action_state(a: &ActionDecl) -> (st: StateDef)
    ensures
        st@ == (StateV::Action {
            name: a.name@,
            display_name: display_or_title(a.display_name, a.name),
            action_type: a.action_type,
            prompt_name: a.prompt@,
            output: output_view(a.output),
            constraints: a.constraints@,
            executor: executor_of(a.action_type),
        }),
{
    let executor = match a.action_type {
        ActionType::Produce(e) => e,
        ActionType::Gate(_, e) => e,
    };
    StateDef::Action {
        name: a.name.clone(),
        display_name: display_or_title_exec(&a.display_name, &a.name),
        action_type: a.action_type,
        prompt_name: a.prompt.clone(),
        output: copy_output(&a.output),
        constraints: copy_constraints(&a.constraints),
        executor,
    }
}

/// The remaining included-profile results once `used` include declarations were met.
pub open spec fn remaining_includes(
    incs: Seq<Result<ProfileDecl, LoomError>>,
    used: nat,
) -> Seq<Result<ProfileDecl, LoomError>> {
    if used <= incs.len() {
        incs.skip(used as int)
    } else {
        seq![]
    }
}

/// Phase 1 of lowering: registers every declaration, reporting name clashes and
/// unusable includes. `includes` holds, in order, what each `include` declaration's
/// file gave (its profile, or why it could not be read or parsed).
pub fn register_declarations(
    ast: &Workflow,
    includes: Vec<Result<ProfileDecl, LoomError>>,
) -> (res: (Registry, Diagnostics))
    ensures
        holds(res.0, register_decls(ast.declarations@, includes@)),
        errors_view(res.1.errors@) == register_decls(ast.declarations@, includes@).errs,
        res.1.warnings@.len() == 0,
{
    let ghost incs = includes@;
    let ghost ds = ast.declarations@;
    let mut rem = includes;
    let mut x = Registry {
        states: states_new(),
        steps: steps_new(),
        phases: phases_new(),
        profiles: profiles_new(),
        wildcard_targets: Vec::new(),
        refs: Vec::new(),
        synthesized: Vec::new(),
    };
    let mut diag = Diagnostics::new();
    assert(errors_view(diag.errors@) =~= seq![]);
    assert(holds(x, empty_registration())) by {
        assert(view_entries(state_entries(x.states)) =~= seq![]);
        assert(view_entries(step_entries(x.steps)) =~= seq![]);
        assert(view_entries(phase_entries(x.phases)) =~= seq![]);
        assert(view_entries(profile_entries(x.profiles)) =~= seq![]);
        assert(strings_view(x.wildcard_targets@) =~= seq![]);
        assert(pairs_view(x.refs@) =~= seq![]);
        assert(strings_view(x.synthesized@) =~= seq![]);
    }
    let mut i: usize = 0;
    assert(ds.take(0) =~= Seq::<Declaration>::empty());
    while i < ast.declarations.len()
        invariant
            i <= ds.len(),
            ds == ast.declarations@,
            holds(x, register_decls(ds.take(i as int), incs)),
            errors_view(diag.errors@) == register_decls(ds.take(i as int), incs).errs,
            diag.warnings@.len() == 0,
            rem@ == remaining_includes(incs, register_decls(ds.take(i as int), incs).includes_used),
        decreases ds.len() - i,
    {
        let ghost r = register_decls(ds.take(i as int), incs);
        assert(ds.take(i + 1).drop_last() =~= ds.take(i as int));
        assert(ds.take(i + 1).last() == ds[i as int]);
        let d = &ast.declarations[i];
        match d {
            Declaration::Queue(q) => {
                let st = StateDef::Queue {
                    name: q.name.clone(),
                    display_name: display_or_title_exec(&q.display_name, &q.name),
                };
                add_state_exec(&mut x, &mut diag, &q.name, st, Ghost(r));
            },
            Declaration::Action(a) => {
                let st = action_state(a);
                let added = add_state_exec(&mut x, &mut diag, &a.name, st, Ghost(r));
                if added {
                    let ghost old_refs = x.refs@;
                    x.refs.push((a.name.clone(), a.prompt.clone()));
                    assert(pairs_view(x.refs@) =~= pairs_view(old_refs).push((a.name@, a.prompt@)));
                }
            },
            Declaration::Terminal(t) => {
                let st = StateDef::Terminal {
                    name: t.name.clone(),
                    display_name: display_or_title_exec(&t.display_name, &t.name),
                };
                add_state_exec(&mut x, &mut diag, &t.name, st, Ghost(r));
            },
            Declaration::Escape(e) => {
                let st = StateDef::Escape {
                    name: e.name.clone(),
                    display_name: display_or_title_exec(&e.display_name, &e.name),
                };
                add_state_exec(&mut x, &mut diag, &e.name, st, Ghost(r));
            },
            Declaration::Step(s) => {
                let ghost r2 = step_queue_spec(r, *s);
                proof {
                    lemma_view_keys(state_entries(x.states), s.queue@);
                }
                if !s.queue_explicit {
                    let present = states_get(&x.states, s.queue.as_str()).is_some();
                    let synthesized = contains_string(&x.synthesized, &s.queue);
                    if present && !synthesized {
                        diag.error(duplicate(&s.queue));
                    } else if !present {
                        let mut display = String::from_str("Ready for ");
                        let t = snake_to_title_case(s.action.as_str());
                        display.append(t.as_str());
                        let st = StateDef::Queue { name: s.queue.clone(), display_name: display };
                        proof {
                            lemma_view_insert(state_entries(x.states), s.queue@, st);
                        }
                        states_insert(&mut x.states, s.queue.clone(), st);
                        let ghost old_syn = x.synthesized@;
                        x.synthesized.push(s.queue.clone());
                        assert(strings_view(x.synthesized@) =~= strings_view(old_syn).push(s.queue@));
                        assert forall|q: Seq<char>| r2.synthesized.contains(q) <==> strings_view(x.synthesized@).contains(q) by {
                            if q == s.queue@ {
                                assert(strings_view(x.synthesized@)[old_syn.len() as int] == q);
                            } else if strings_view(x.synthesized@).contains(q) {
                                let j = choose|j: int| 0 <= j < strings_view(x.synthesized@).len() && strings_view(x.synthesized@)[j] == q;
                                assert(strings_view(old_syn)[j] == q);
                            } else if r.synthesized.contains(q) {
                                let j = choose|j: int| 0 <= j < strings_view(old_syn).len() && strings_view(old_syn)[j] == q;
                                assert(strings_view(x.synthesized@)[j] == q);
                            }
                        }
                    }
                }
                assert(holds(x, r2));
                proof {
                    lemma_view_keys(step_entries(x.steps), s.name@);
                }
                if steps_get(&x.steps, s.name.as_str()).is_some() {
                    diag.error(duplicate(&s.name));
                } else {
                    let sd = StepDef { name: s.name.clone(), queue: s.queue.clone(), action: s.action.clone() };
                    proof {
                        lemma_view_insert(step_entries(x.steps), s.name@, sd);
                    }
                    steps_insert(&mut x.steps, s.name.clone(), sd);
                }
            },
            Declaration::Phase(p) => {
                proof {
                    lemma_view_keys(phase_entries(x.phases), p.name@);
                }
                if phases_get(&x.phases, p.name.as_str()).is_some() {
                    diag.error(duplicate(&p.name));
                } else {
                    let pd = PhaseDef {
                        name: p.name.clone(),
                        produce_step: p.produce_step.clone(),
                        gate_step: Some(p.gate_step.clone()),
                    };
                    proof {
                        lemma_view_insert(phase_entries(x.phases), p.name@, pd);
                    }
                    phases_insert(&mut x.phases, p.name.clone(), pd);
                }
            },
            Declaration::Profile(p) => {
                register_profile(&mut x, &mut diag, p, Ghost(r));
            },
            Declaration::Include(_) => {
                let ghost r2 = Registration { includes_used: r.includes_used + 1, ..r };
                if rem.len() > 0 {
                    let inc = rem.remove(0);
                    assert(rem@ =~= remaining_includes(incs, r2.includes_used));
                    match inc {
                        Ok(p) => {
                            register_profile(&mut x, &mut diag, &p, Ghost(r2));
                        },
                        Err(e) => {
                            diag.error(e);
                        },
                    }
                } else {
                    diag.error(LoomError::Io { message: String::from_str("included file was not loaded") });
                    assert(rem@ =~= remaining_includes(incs, r2.includes_used));
                }
            },
            Declaration::WildcardTransition(w) => {
                let ghost old_w = x.wildcard_targets@;
                x.wildcard_targets.push(w.target.clone());
                assert(strings_view(x.wildcard_targets@) =~= strings_view(old_w).push(w.target@));
            },
        }
        i = i + 1;
    }
    assert(ds.take(i as int) =~= ds);
    (x, diag)
}

/// The prompts the registered actions use, each once, in order of first use.
pub open spec fn distinct_prompts(refs: Seq<(Seq<char>, Seq<char>)>) -> Seq<Seq<char>>
    decreases refs.len(),
{
    if refs.len() == 0 {
        seq![]
    } else {
        let d = distinct_prompts(refs.drop_last());
        if d.contains(refs.last().1) {
            d
        } else {
            d.push(refs.last().1)
        }
    }
}

pub open spec fn no_repeats(s: Seq<Seq<char>>) -> bool {
    forall|i: int, j: int| 0 <= i < j < s.len() ==> s[i] != s[j]
}

/// Each prompt with its file, for the prompts whose file could be read.
pub open spec fn prompt_loads(
    names: Seq<Seq<char>>,
    av: Seq<(Seq<char>, Option<crate::prompt::PromptFile>)>,
) -> Seq<(Seq<char>, crate::prompt::PromptFile)>
    decreases names.len(),
{
    if names.len() == 0 {
        seq![]
    } else {
        let prev = prompt_loads(names.drop_last(), av);
        match map_get(av, names.last()) {
            Some(Some(f)) => prev.push((names.last(), f)),
            _ => prev,
        }
    }
}

/// A prompt is missing when no file of that name was read.
pub open spec fn prompt_missing(
    n: Seq<char>,
    av: Seq<(Seq<char>, Option<crate::prompt::PromptFile>)>,
) -> bool {
    !(map_get(av, n) matches Some(Some(_)))
}

pub open spec fn files_view(
    v: Seq<(String, Option<crate::prompt::PromptFile>)>,
) -> Seq<(Seq<char>, Option<crate::prompt::PromptFile>)> {
    v.map_values(|p: (String, Option<crate::prompt::PromptFile>)| (p.0@, p.1))
}

/// The prompt names, each once, in order of first use.
pub fn prompt_names(x: &Registry) -> (r: Vec<String>)
    ensures
        strings_view(r@) == distinct_prompts(pairs_view(x.refs@)),
        no_repeats(strings_view(r@)),
{
    let ghost refs = pairs_view(x.refs@);
    let mut r: Vec<String> = Vec::new();
    let mut i: usize = 0;
    assert(refs.take(0) =~= Seq::<(Seq<char>, Seq<char>)>::empty());
    while i < x.refs.len()
        invariant
            i <= x.refs@.len(),
            refs == pairs_view(x.refs@),
            strings_view(r@) == distinct_prompts(refs.take(i as int)),
            no_repeats(strings_view(r@)),
        decreases x.refs.len() - i,
    {
        assert(refs.take(i + 1).drop_last() =~= refs.take(i as int));
        assert(refs.take(i + 1).last() == refs[i as int]);
        let pn = &x.refs[i].1;
        if !contains_string(&r, pn) {
            let ghost old_r = r@;
            r.push(pn.clone());
            assert(strings_view(r@) =~= strings_view(old_r).push(pn@));
        }
        i = i + 1;
    }
    assert(refs.take(i as int) =~= refs);
    r
}

proof fn lemma_prompt_loads_keys(
    names: Seq<Seq<char>>,
    av: Seq<(Seq<char>, Option<crate::prompt::PromptFile>)>,
    k: Seq<char>,
)
    requires
        has_key(prompt_loads(names, av), k),
    ensures
        names.contains(k),
    decreases names.len(),
{
    let l = prompt_loads(names, av);
    let prev = prompt_loads(names.drop_last(), av);
    if names.len() > 0 {
        let i = choose|i: int| 0 <= i < l.len() && (#[trigger] l[i]).0 == k;
        if i < prev.len() {
            assert(prev[i] == l[i]);
            lemma_prompt_loads_keys(names.drop_last(), av, k);
            let j = choose|j: int| 0 <= j < names.drop_last().len() && names.drop_last()[j] == k;
            assert(names[j] == k);
        } else {
            assert(names[names.len() - 1] == k);
        }
    }
}

/// A missing-prompt error for each of `names` that has no file, in order.
pub open spec fn missing_prompt_errors(
    names: Seq<Seq<char>>,
    av: Seq<(Seq<char>, Option<crate::prompt::PromptFile>)>,
) -> Seq<ErrorV>
    decreases names.len(),
{
    if names.len() == 0 {
        seq![]
    } else {
        let prev = missing_prompt_errors(names.drop_last(), av);
        if prompt_missing(names.last(), av) {
            prev.push(ErrorV::MissingPrompt { name: names.last() })
        } else {
            prev
        }
    }
}

/// Phase 2 of lowering: takes, for each prompt the actions use, the file of that name
/// from `files`, and reports each prompt that has none.
pub fn load_prompts(
    x: &Registry,
    files: Vec<(String, Option<crate::prompt::PromptFile>)>,
    diag: &mut Diagnostics,
) -> (prompts: IndexMap<String, crate::prompt::PromptFile>)
    ensures
        crate::maps::prompt_entries(prompts) == prompt_loads(
            distinct_prompts(pairs_view(x.refs@)),
            files_view(files@),
        ),
        errors_view(final(diag).errors@) == errors_view(old(diag).errors@) + missing_prompt_errors(
            distinct_prompts(pairs_view(x.refs@)),
            files_view(files@),
        ),
        final(diag).errors@.len() >= old(diag).errors@.len(),
        (final(diag).errors@.len() == old(diag).errors@.len()) == (forall|i: int|
            0 <= i < distinct_prompts(pairs_view(x.refs@)).len() ==> !prompt_missing(
                #[trigger] distinct_prompts(pairs_view(x.refs@))[i],
                files_view(files@),
            )),
        final(diag).warnings@ == old(diag).warnings@,
{
    let ghost av = files_view(files@);
    let names = prompt_names(x);
    let ghost ns = strings_view(names@);
    let mut keys: Vec<String> = Vec::new();
    let mut slots: Vec<Option<crate::prompt::PromptFile>> = Vec::new();
    for entry in it: files
        invariant
            keys@.len() == slots@.len(),
            keys@.len() == it.index(),
            it.seq() == files@,
            forall|j: int| 0 <= j < keys@.len() ==> (#[trigger] keys@[j])@ == files@[j].0@ && slots@[j] == files@[j].1,
    {
        let (k, f) = entry;
        keys.push(k);
        slots.push(f);
    }
    assert forall|j: int| 0 <= j < slots@.len() implies #[trigger] slots@[j] == av[j].1 && keys@[j]@ == av[j].0 by {
        assert(keys@[j]@ == files@[j].0@);
        assert(slots@[j] == files@[j].1);
    }
    let mut prompts = crate::maps::prompts_new();
    let mut i: usize = 0;
    let ghost e0 = diag.errors@.len();
    assert(ns.take(0) =~= Seq::<Seq<char>>::empty());
    while i < names.len()
        invariant
            i <= ns.len(),
            ns == strings_view(names@),
            no_repeats(ns),
            av == files_view(files@),
            keys@.len() == slots@.len(),
            keys@.len() == files@.len(),
            forall|j: int| 0 <= j < keys@.len() ==> (#[trigger] keys@[j])@ == av[j].0,
            forall|j: int|
                0 <= j < slots@.len() && #[trigger] slots@[j] != av[j].1 ==> ns.take(i as int).contains(av[j].0),
            crate::maps::prompt_entries(prompts) == prompt_loads(ns.take(i as int), av),
            diag.errors@.len() >= e0,
            (diag.errors@.len() == e0) == (forall|m: int| 0 <= m < i ==> !prompt_missing(#[trigger] ns[m], av)),
            errors_view(diag.errors@) == errors_view(old(diag).errors@) + missing_prompt_errors(ns.take(i as int), av),
            diag.warnings@ == old(diag).warnings@,
        decreases ns.len() - i,
    {
        let n = &names[i];
        assert(ns.take(i + 1).drop_last() =~= ns.take(i as int));
        assert(ns.take(i + 1).last() == n@);
        // the first file with this name
        let mut j: usize = 0;
        while j < keys.len() && keys[j] != *n
            invariant
                j <= keys@.len(),
                keys@.len() == av.len(),
                forall|m: int| 0 <= m < keys@.len() ==> (#[trigger] keys@[m])@ == av[m].0,
                forall|m: int| 0 <= m < j ==> av[m].0 != n@,
            decreases keys.len() - j,
        {
            j = j + 1;
        }
        let mut taken: Option<crate::prompt::PromptFile> = None;
        if j < keys.len() {
            proof {
                crate::maps::lemma_first_index(av, n@);
                assert(crate::maps::key_index(av, n@, j as int));
                crate::maps::lemma_key_index_unique(av, n@, j as int, crate::maps::index_of(av, n@));
                if slots@[j as int] != av[j as int].1 {
                    let q = choose|q: int| 0 <= q < ns.take(i as int).len() && ns.take(i as int)[q] == av[j as int].0;
                    assert(ns[q] == ns[i as int]);
                }
            }
            slots.set_and_swap(j, &mut taken);
        } else {
            assert(!crate::maps::has_key(av, n@));
        }
        match taken {
            Some(f) => {
                proof {
                    if crate::maps::has_key(crate::maps::prompt_entries(prompts), n@) {
                        lemma_prompt_loads_keys(ns.take(i as int), av, n@);
                        let q = choose|q: int| 0 <= q < ns.take(i as int).len() && ns.take(i as int)[q] == n@;
                        assert(ns[q] == ns[i as int]);
                    }
                }
                crate::maps::prompts_insert(&mut prompts, n.clone(), f);
            },
            None => {
                diag.error(LoomError::MissingPrompt { name: n.clone() });
            },
        }
        assert forall|m: int|
            0 <= m < slots@.len() && #[trigger] slots@[m] != av[m].1 implies ns.take(i + 1).contains(av[m].0) by {
            if m == j {
                assert(ns.take(i + 1)[i as int] == av[m].0);
            } else {
                let q = choose|q: int| 0 <= q < ns.take(i as int).len() && ns.take(i as int)[q] == av[m].0;
                assert(ns.take(i + 1)[q] == av[m].0);
            }
        }
        i = i + 1;
    }
    assert(ns.take(i as int) =~= ns);
    prompts
}

pub open spec fn is_queue_named(states: Seq<(Seq<char>, StateV)>, n: Seq<char>) -> bool {
    map_get(states, n) matches Some(StateV::Queue { .. })
}

pub open spec fn is_action_named(states: Seq<(Seq<char>, StateV)>, n: Seq<char>) -> bool {
    map_get(states, n) matches Some(StateV::Action { .. })
}

pub open spec fn is_gate_named(states: Seq<(Seq<char>, StateV)>, n: Seq<char>) -> bool {
    map_get(states, n) matches Some(StateV::Action { action_type: ActionType::Gate(..), .. })
}

pub open spec fn is_produce_named(states: Seq<(Seq<char>, StateV)>, n: Seq<char>) -> bool {
    map_get(states, n) matches Some(StateV::Action { action_type: ActionType::Produce(_), .. })
}

/// A step's queue is a queue state and its action an action state.
pub open spec fn step_ok(r: Registration, st: (Seq<char>, Seq<char>, Seq<char>)) -> bool {
    is_queue_named(r.states, st.1) && is_action_named(r.states, st.2)
}

/// The action of the step named `s`, if the step exists.
pub open spec fn step_action(r: Registration, s: Seq<char>) -> Option<Seq<char>> {
    match map_get(r.steps, s) {
        Some(st) => Some(st.2),
        None => None,
    }
}

/// A phase's produce step exists and does not hold a gate action; its gate step exists
/// and does not hold a produce action.
pub open spec fn phase_ok(r: Registration, ph: (Seq<char>, Seq<char>, Option<Seq<char>>)) -> bool {
    &&& has_key(r.steps, ph.1)
    &&& !(step_action(r, ph.1) matches Some(a) && is_gate_named(r.states, a))
    &&& (ph.2 matches Some(g) ==> has_key(r.steps, g) && !(step_action(r, g) matches Some(a)
        && is_produce_named(r.states, a)))
}

pub open spec fn checks_steps(r: Registration) -> bool {
    forall|i: int| 0 <= i < r.steps.len() ==> step_ok(r, (#[trigger] r.steps[i]).1)
}

pub open spec fn checks_phases(r: Registration) -> bool {
    forall|i: int| 0 <= i < r.phases.len() ==> phase_ok(r, (#[trigger] r.phases[i]).1)
}

/// The error of a step's queue: unresolved, or not a queue.
pub open spec fn step_queue_errors(r: Registration, st: (Seq<char>, Seq<char>, Seq<char>)) -> Seq<ErrorV> {
    if !has_key(r.states, st.1) {
        seq![ErrorV::UnresolvedReference { name: st.1, context: "step '"@ + st.0 + "' queue reference"@ }]
    } else if !is_queue_named(r.states, st.1) {
        seq![ErrorV::StepTypeMismatch { message: "step '"@ + st.0 + "': left side is not a queue state"@ }]
    } else {
        seq![]
    }
}

/// The error of a step's action: unresolved, or not an action.
pub open spec fn step_action_errors(r: Registration, st: (Seq<char>, Seq<char>, Seq<char>)) -> Seq<ErrorV> {
    if !has_key(r.states, st.2) {
        seq![ErrorV::UnresolvedReference { name: st.2, context: "step '"@ + st.0 + "' action reference"@ }]
    } else if !is_action_named(r.states, st.2) {
        seq![ErrorV::StepTypeMismatch { message: "step '"@ + st.0 + "': right side is not an action state"@ }]
    } else {
        seq![]
    }
}

/// The errors of the steps, in order: for each, that of its queue, then that of its action.
pub open spec fn steps_errors(
    r: Registration,
    steps: Seq<(Seq<char>, (Seq<char>, Seq<char>, Seq<char>))>,
) -> Seq<ErrorV>
    decreases steps.len(),
{
    if steps.len() == 0 {
        seq![]
    } else {
        steps_errors(r, steps.drop_last()) + step_queue_errors(r, steps.last().1) + step_action_errors(
            r,
            steps.last().1,
        )
    }
}

fn unresolved(name: &String, context: String) -> (e: LoomError)
    ensures
        e@ == (ErrorV::UnresolvedReference { name: name@, context: context@ }),
{
    LoomError::UnresolvedReference { name: name.clone(), context }
}

/// `a` followed by `b` followed by `c`.
fn join3(a: &str, b: &str, c: &str) -> (r: String)
    ensures
        r@ == a@ + b@ + c@,
{
    let mut r = String::from_str(a);
    r.append(b);
    r.append(c);
    r
}

/// Checks that every step's queue is a queue and its action an action.
fn check_steps(x: &Registry, diag: &mut Diagnostics, Ghost(r): Ghost<Registration>)
    requires
        holds(*x, r),
    ensures
        final(diag).errors@.len() >= old(diag).errors@.len(),
        (final(diag).errors@.len() == old(diag).errors@.len()) == checks_steps(r),
        errors_view(final(diag).errors@) == errors_view(old(diag).errors@) + steps_errors(r, r.steps),
        final(diag).warnings@ == old(diag).warnings@,
{
    let ghost e0 = diag.errors@.len();
    let n = crate::maps::steps_len(&x.steps);
    let mut i: usize = 0;
    while i < n
        invariant
            holds(*x, r),
            n == r.steps.len(),
            i <= n,
            diag.errors@.len() >= e0,
            (diag.errors@.len() == e0) == (forall|m: int| 0 <= m < i ==> step_ok(r, (#[trigger] r.steps[m]).1)),
            errors_view(diag.errors@) == errors_view(old(diag).errors@) + steps_errors(r, r.steps.take(i as int)),
            diag.warnings@ == old(diag).warnings@,
        decreases n - i,
    {
        let (_k, step) = crate::maps::steps_at(&x.steps, i).unwrap();
        assert(r.steps[i as int].1 == step@);
        let ghost ev0 = errors_view(diag.errors@);
        assert(r.steps.take(i + 1).drop_last() =~= r.steps.take(i as int));
        proof {
            lemma_view_keys(state_entries(x.states), step.queue@);
            lemma_view_keys(state_entries(x.states), step.action@);
        }
        let ghost len_before = diag.errors@.len();
        match states_get(&x.states, step.queue.as_str()) {
            None => {
                diag.error(unresolved(&step.queue, join3("step '", step.name.as_str(), "' queue reference")));
            },
            Some(st) => {
                if !st.is_queue() {
                    diag.error(LoomError::StepTypeMismatch {
                        message: join3("step '", step.name.as_str(), "': left side is not a queue state"),
                    });
                }
            },
        }
        assert(errors_view(diag.errors@) =~= ev0 + step_queue_errors(r, step@));
        let ghost ev1 = errors_view(diag.errors@);
        match states_get(&x.states, step.action.as_str()) {
            None => {
                diag.error(unresolved(&step.action, join3("step '", step.name.as_str(), "' action reference")));
            },
            Some(st) => {
                if !st.is_action() {
                    diag.error(LoomError::StepTypeMismatch {
                        message: join3("step '", step.name.as_str(), "': right side is not an action state"),
                    });
                }
            },
        }
        assert(errors_view(diag.errors@) =~= ev1 + step_action_errors(r, step@));
        assert((diag.errors@.len() == len_before) == step_ok(r, r.steps[i as int].1));
        i = i + 1;
    }
    assert(r.steps.take(n as int) =~= r.steps);
}

/// The error of a phase's produce step: unresolved, or holding a gate action.
pub open spec fn phase_produce_errors(r: Registration, ph: (Seq<char>, Seq<char>, Option<Seq<char>>)) -> Seq<ErrorV> {
    if !has_key(r.steps, ph.1) {
        seq![ErrorV::UnresolvedReference { name: ph.1, context: "phase '"@ + ph.0 + "' produce step reference"@ }]
    } else if step_action(r, ph.1) matches Some(a) && is_gate_named(r.states, a) {
        seq![ErrorV::PhaseTypeMismatch { message: "phase '"@ + ph.0 + "': produce step has a gate action"@ }]
    } else {
        seq![]
    }
}

/// The error of a phase's gate step: unresolved, or holding a produce action.
pub open spec fn phase_gate_errors(r: Registration, ph: (Seq<char>, Seq<char>, Option<Seq<char>>)) -> Seq<ErrorV> {
    match ph.2 {
        None => seq![],
        Some(g) => if !has_key(r.steps, g) {
            seq![ErrorV::UnresolvedReference { name: g, context: "phase '"@ + ph.0 + "' gate step reference"@ }]
        } else if step_action(r, g) matches Some(a) && is_produce_named(r.states, a) {
            seq![ErrorV::PhaseTypeMismatch { message: "phase '"@ + ph.0 + "': gate step has a produce action"@ }]
        } else {
            seq![]
        },
    }
}

/// The errors of the phases, in order: for each, that of its produce step, then that of
/// its gate step.
pub open spec fn phases_errors(
    r: Registration,
    phases: Seq<(Seq<char>, (Seq<char>, Seq<char>, Option<Seq<char>>))>,
) -> Seq<ErrorV>
    decreases phases.len(),
{
    if phases.len() == 0 {
        seq![]
    } else {
        phases_errors(r, phases.drop_last()) + phase_produce_errors(r, phases.last().1)
            + phase_gate_errors(r, phases.last().1)
    }
}

/// Checks that every phase's steps exist and hold actions of the right type.
fn check_phases(x: &Registry, diag: &mut Diagnostics, Ghost(r): Ghost<Registration>)
    requires
        holds(*x, r),
    ensures
        final(diag).errors@.len() >= old(diag).errors@.len(),
        (final(diag).errors@.len() == old(diag).errors@.len()) == checks_phases(r),
        errors_view(final(diag).errors@) == errors_view(old(diag).errors@) + phases_errors(r, r.phases),
        final(diag).warnings@ == old(diag).warnings@,
{
    let ghost e0 = diag.errors@.len();
    let n = crate::maps::phases_len(&x.phases);
    let mut i: usize = 0;
    while i < n
        invariant
            holds(*x, r),
            n == r.phases.len(),
            i <= n,
            diag.errors@.len() >= e0,
            (diag.errors@.len() == e0) == (forall|m: int| 0 <= m < i ==> phase_ok(r, (#[trigger] r.phases[m]).1)),
            errors_view(diag.errors@) == errors_view(old(diag).errors@) + phases_errors(r, r.phases.take(i as int)),
            diag.warnings@ == old(diag).warnings@,
        decreases n - i,
    {
        let (_k, phase) = crate::maps::phases_at(&x.phases, i).unwrap();
        assert(r.phases[i as int].1 == phase@);
        let ghost ev0 = errors_view(diag.errors@);
        assert(r.phases.take(i + 1).drop_last() =~= r.phases.take(i as int));
        let ghost len_before = diag.errors@.len();
        proof {
            lemma_view_keys(step_entries(x.steps), phase.produce_step@);
        }
        match steps_get(&x.steps, phase.produce_step.as_str()) {
            None => {
                diag.error(unresolved(&phase.produce_step, join3("phase '", phase.name.as_str(), "' produce step reference")));
            },
            Some(step) => {
                proof {
                    lemma_view_keys(state_entries(x.states), step.action@);
                }
                match states_get(&x.states, step.action.as_str()) {
                    Some(st) => {
                        if st.is_gate() {
                            diag.error(LoomError::PhaseTypeMismatch {
                                message: join3("phase '", phase.name.as_str(), "': produce step has a gate action"),
                            });
                        }
                    },
                    None => {},
                }
            },
        }
        let ghost mid = diag.errors@.len();
        assert(errors_view(diag.errors@) =~= ev0 + phase_produce_errors(r, phase@));
        let ghost ev1 = errors_view(diag.errors@);
        match &phase.gate_step {
            None => {},
            Some(g) => {
                proof {
                    lemma_view_keys(step_entries(x.steps), g@);
                }
                match steps_get(&x.steps, g.as_str()) {
                    None => {
                        diag.error(unresolved(g, join3("phase '", phase.name.as_str(), "' gate step reference")));
                    },
                    Some(step) => {
                        proof {
                            lemma_view_keys(state_entries(x.states), step.action@);
                        }
                        match states_get(&x.states, step.action.as_str()) {
                            Some(st) => {
                                if st.is_produce() {
                                    diag.error(LoomError::PhaseTypeMismatch {
                                        message: join3("phase '", phase.name.as_str(), "': gate step has a produce action"),
                                    });
                                }
                            },
                            None => {},
                        }
                    },
                }
            },
        }
        assert(errors_view(diag.errors@) =~= ev1 + phase_gate_errors(r, phase@));
        assert((diag.errors@.len() == len_before) == phase_ok(r, r.phases[i as int].1));
        i = i + 1;
    }
    assert(r.phases.take(n as int) =~= r.phases);
}

/// Phase `n` exists and one of its steps holds action `a`.
pub open spec fn phase_contributes(r: Registration, n: Seq<char>, a: Seq<char>) -> bool {
    map_get(r.phases, n) matches Some(ph) && (step_action(r, ph.1) == Some(a) || (ph.2 matches Some(
        g,
    ) && step_action(r, g) == Some(a)))
}

/// Action `a` belongs to one of the profile's phases.
pub open spec fn profile_has_action(r: Registration, pv: ProfileV, a: Seq<char>) -> bool {
    exists|i: int| 0 <= i < pv.phases.len() && phase_contributes(r, #[trigger] pv.phases[i], a)
}

/// Every phase a profile lists exists, and every override names an action of those phases.
pub open spec fn profile_ok(r: Registration, pv: ProfileV) -> bool {
    &&& forall|i: int| 0 <= i < pv.phases.len() ==> has_key(r.phases, #[trigger] pv.phases[i])
    &&& forall|j: int|
        0 <= j < pv.overrides.len() ==> has_key(r.states, (#[trigger] pv.overrides[j]).0)
            && profile_has_action(r, pv, pv.overrides[j].0)
}

pub open spec fn checks_profiles(r: Registration) -> bool {
    forall|i: int| 0 <= i < r.profiles.len() ==> profile_ok(r, (#[trigger] r.profiles[i]).1)
}

pub open spec fn checks_wildcards(r: Registration) -> bool {
    forall|i: int| 0 <= i < r.wildcards.len() ==> has_key(r.states, #[trigger] r.wildcards[i])
}

/// The actions of the phases a profile lists, as far as they resolve.
fn profile_actions(x: &Registry, prof: &ProfileDef, Ghost(r): Ghost<Registration>) -> (acts: Vec<String>)
    requires
        holds(*x, r),
    ensures
        forall|a: Seq<char>| strings_view(acts@).contains(a) <==> profile_has_action(r, prof@, a),
{
    let ghost pv = prof@;
    let mut acts: Vec<String> = Vec::new();
    let mut i: usize = 0;
    while i < prof.phases.len()
        invariant
            holds(*x, r),
            pv == prof@,
            i <= prof.phases@.len(),
            forall|a: Seq<char>| strings_view(acts@).contains(a) <==> (exists|m: int| 0 <= m < i && phase_contributes(r, #[trigger] pv.phases[m], a)),
        decreases prof.phases.len() - i,
    {
        let pn = &prof.phases[i];
        assert(pv.phases[i as int] == pn@);
        let ghost old_acts = strings_view(acts@);
        assert(forall|a: Seq<char>| #[trigger] old_acts.contains(a) <==> (exists|m: int| 0 <= m < i && phase_contributes(r, #[trigger] pv.phases[m], a)));
        proof {
            lemma_view_keys(phase_entries(x.phases), pn@);
        }
        let mut p_act: Option<String> = None;
        let mut g_act: Option<String> = None;
        match phases_get(&x.phases, pn.as_str()) {
            Some(ph) => {
                proof {
                    lemma_view_keys(step_entries(x.steps), ph.produce_step@);
                }
                match steps_get(&x.steps, ph.produce_step.as_str()) {
                    Some(st) => {
                        p_act = Some(st.action.clone());
                    },
                    None => {},
                }
                match &ph.gate_step {
                    Some(g) => {
                        proof {
                            lemma_view_keys(step_entries(x.steps), g@);
                        }
                        match steps_get(&x.steps, g.as_str()) {
                            Some(st) => {
                                g_act = Some(st.action.clone());
                            },
                            None => {},
                        }
                    },
                    None => {},
                }
            },
            None => {},
        }
        assert(forall|a: Seq<char>| phase_contributes(r, pn@, a) <==> ((p_act matches Some(pa) && pa@ == a) || (g_act matches Some(ga) && ga@ == a)));
        match p_act {
            Some(pa) => {
                acts.push(pa);
            },
            None => {},
        }
        let ghost mid_acts = strings_view(acts@);
        match g_act {
            Some(ga) => {
                acts.push(ga);
            },
            None => {},
        }
        assert forall|a: Seq<char>| strings_view(acts@).contains(a) <==> (exists|m: int| 0 <= m < i + 1 && phase_contributes(r, #[trigger] pv.phases[m], a)) by {
            let sv = strings_view(acts@);
            if sv.contains(a) {
                let q = choose|q: int| 0 <= q < sv.len() && sv[q] == a;
                if q < old_acts.len() {
                    assert(old_acts[q] == a);
                    assert(old_acts.contains(a));
                    let m = choose|m: int| 0 <= m < i && phase_contributes(r, #[trigger] pv.phases[m], a);
                    assert(0 <= m < i + 1 && phase_contributes(r, pv.phases[m], a));
                } else {
                    assert(phase_contributes(r, pv.phases[i as int], a));
                }
            }
            if exists|m: int| 0 <= m < i + 1 && phase_contributes(r, #[trigger] pv.phases[m], a) {
                let m = choose|m: int| 0 <= m < i + 1 && phase_contributes(r, #[trigger] pv.phases[m], a);
                if m < i {
                    assert(old_acts.contains(a));
                    let q = choose|q: int| 0 <= q < old_acts.len() && old_acts[q] == a;
                    assert(sv[q] == a);
                } else {
                    if p_act matches Some(pa) && pa@ == a {
                        assert(sv[old_acts.len() as int] == a);
                    } else {
                        assert(sv[sv.len() - 1] == a);
                    }
                }
            }
        }
        i = i + 1;
    }
    acts
}

/// A profile-error for each phase of `phases` that is not declared, in order.
pub open spec fn profile_phase_errors(r: Registration, name: Seq<char>, phases: Seq<Seq<char>>) -> Seq<ErrorV>
    decreases phases.len(),
{
    if phases.len() == 0 {
        seq![]
    } else {
        let prev = profile_phase_errors(r, name, phases.drop_last());
        if has_key(r.phases, phases.last()) {
            prev
        } else {
            prev.push(ErrorV::ProfileError {
                message: "profile '"@ + name + "' references undefined phase '"@ + phases.last() + "'"@,
            })
        }
    }
}

/// The errors of a profile's overrides, in order: an override of an unknown state is
/// unresolved; one of an action outside the profile's phases is invalid.
pub open spec fn profile_override_errors(
    r: Registration,
    pv: ProfileV,
    ovs: Seq<(Seq<char>, (Option<Executor>, Option<(Seq<char>, Option<Seq<char>>)>))>,
) -> Seq<ErrorV>
    decreases ovs.len(),
{
    if ovs.len() == 0 {
        seq![]
    } else {
        let prev = profile_override_errors(r, pv, ovs.drop_last());
        let a = ovs.last().0;
        if !has_key(r.states, a) {
            prev.push(ErrorV::UnresolvedReference { name: a, context: "profile '"@ + pv.name + "' override"@ })
        } else if !profile_has_action(r, pv, a) {
            prev.push(ErrorV::InvalidOverride { action: a })
        } else {
            prev
        }
    }
}

/// The errors of one profile: its phases, then its overrides.
pub open spec fn profile_errors(r: Registration, pv: ProfileV) -> Seq<ErrorV> {
    profile_phase_errors(r, pv.name, pv.phases) + profile_override_errors(r, pv, pv.overrides)
}

/// The errors of the profiles, in order.
pub open spec fn profiles_errors(r: Registration, ps: Seq<(Seq<char>, ProfileV)>) -> Seq<ErrorV>
    decreases ps.len(),
{
    if ps.len() == 0 {
        seq![]
    } else {
        profiles_errors(r, ps.drop_last()) + profile_errors(r, ps.last().1)
    }
}

/// Checks every profile's phases and overrides.
fn check_profiles(x: &Registry, diag: &mut Diagnostics, Ghost(r): Ghost<Registration>)
    requires
        holds(*x, r),
    ensures
        final(diag).errors@.len() >= old(diag).errors@.len(),
        (final(diag).errors@.len() == old(diag).errors@.len()) == checks_profiles(r),
        errors_view(final(diag).errors@) == errors_view(old(diag).errors@) + profiles_errors(r, r.profiles),
        final(diag).warnings@ == old(diag).warnings@,
{
    let ghost e0 = diag.errors@.len();
    let n = crate::maps::profiles_len(&x.profiles);
    let mut i: usize = 0;
    while i < n
        invariant
            holds(*x, r),
            n == r.profiles.len(),
            i <= n,
            diag.errors@.len() >= e0,
            (diag.errors@.len() == e0) == (forall|m: int| 0 <= m < i ==> profile_ok(r, (#[trigger] r.profiles[m]).1)),
            errors_view(diag.errors@) == errors_view(old(diag).errors@) + profiles_errors(r, r.profiles.take(i as int)),
            diag.warnings@ == old(diag).warnings@,
        decreases n - i,
    {
        let (_k, prof) = crate::maps::profiles_at(&x.profiles, i).unwrap();
        let ghost pv = prof@;
        assert(r.profiles[i as int].1 == pv);
        let ghost len_before = diag.errors@.len();
        let ghost ev0 = errors_view(diag.errors@);
        assert(r.profiles.take(i + 1).drop_last() =~= r.profiles.take(i as int));
        assert(pv.phases.take(0) =~= Seq::<Seq<char>>::empty());
        let mut j: usize = 0;
        while j < prof.phases.len()
            invariant
                holds(*x, r),
                pv == prof@,
                j <= prof.phases@.len(),
                diag.errors@.len() >= len_before,
                (diag.errors@.len() == len_before) == (forall|m: int| 0 <= m < j ==> has_key(r.phases, #[trigger] pv.phases[m])),
                errors_view(diag.errors@) == ev0 + profile_phase_errors(r, pv.name, pv.phases.take(j as int)),
                diag.warnings@ == old(diag).warnings@,
            decreases prof.phases.len() - j,
        {
            let pn = &prof.phases[j];
            assert(pv.phases[j as int] == pn@);
            assert(pv.phases.take(j + 1).drop_last() =~= pv.phases.take(j as int));
            proof {
                lemma_view_keys(phase_entries(x.phases), pn@);
            }
            if phases_get(&x.phases, pn.as_str()).is_none() {
                let mut msg = join3("profile '", prof.name.as_str(), "' references undefined phase '");
                msg.append(pn.as_str());
                msg.append("'");
                diag.error(LoomError::ProfileError { message: msg });
            }
            j = j + 1;
        }
        let ghost mid = diag.errors@.len();
        assert(pv.phases.take(prof.phases.len() as int) =~= pv.phases);
        let ghost ev1 = errors_view(diag.errors@);
        assert(pv.overrides.take(0) =~= Seq::<(Seq<char>, (Option<Executor>, Option<(Seq<char>, Option<Seq<char>>)>))>::empty());
        let acts = profile_actions(x, prof, Ghost(r));
        let on = crate::maps::overrides_len(&prof.overrides);
        let mut k: usize = 0;
        while k < on
            invariant
                holds(*x, r),
                pv == prof@,
                on == pv.overrides.len(),
                k <= on,
                forall|a: Seq<char>| strings_view(acts@).contains(a) <==> profile_has_action(r, pv, a),
                diag.errors@.len() >= mid,
                (diag.errors@.len() == mid) == (forall|m: int| 0 <= m < k ==> has_key(r.states, (#[trigger] pv.overrides[m]).0) && profile_has_action(r, pv, pv.overrides[m].0)),
                errors_view(diag.errors@) == ev1 + profile_override_errors(r, pv, pv.overrides.take(k as int)),
                diag.warnings@ == old(diag).warnings@,
            decreases on - k,
        {
            let (action, _ov) = crate::maps::overrides_at(&prof.overrides, k).unwrap();
            assert(pv.overrides[k as int].0 == action@);
            assert(pv.overrides.take(k + 1).drop_last() =~= pv.overrides.take(k as int));
            proof {
                lemma_view_keys(state_entries(x.states), action@);
            }
            if states_get(&x.states, action.as_str()).is_none() {
                diag.error(unresolved(action, join3("profile '", prof.name.as_str(), "' override")));
            } else if !contains_string(&acts, action) {
                diag.error(LoomError::InvalidOverride { action: action.clone() });
            }
            k = k + 1;
        }
        assert(pv.overrides.take(on as int) =~= pv.overrides);
        assert(errors_view(diag.errors@) =~= ev0 + profile_errors(r, pv));
        assert((diag.errors@.len() == len_before) == profile_ok(r, r.profiles[i as int].1));
        i = i + 1;
    }
    assert(r.profiles.take(n as int) =~= r.profiles);
}

/// An unresolved-reference error for each wildcard target that is not a state, in order.
pub open spec fn wildcard_errors(r: Registration, ws: Seq<Seq<char>>) -> Seq<ErrorV>
    decreases ws.len(),
{
    if ws.len() == 0 {
        seq![]
    } else {
        let prev = wildcard_errors(r, ws.drop_last());
        if has_key(r.states, ws.last()) {
            prev
        } else {
            prev.push(ErrorV::UnresolvedReference { name: ws.last(), context: "wildcard transition target"@ })
        }
    }
}

/// Checks that every wildcard target is a state.
fn check_wildcards(x: &Registry, diag: &mut Diagnostics, Ghost(r): Ghost<Registration>)
    requires
        holds(*x, r),
    ensures
        final(diag).errors@.len() >= old(diag).errors@.len(),
        (final(diag).errors@.len() == old(diag).errors@.len()) == checks_wildcards(r),
        errors_view(final(diag).errors@) == errors_view(old(diag).errors@) + wildcard_errors(r, r.wildcards),
        final(diag).warnings@ == old(diag).warnings@,
{
    let ghost e0 = diag.errors@.len();
    let mut i: usize = 0;
    while i < x.wildcard_targets.len()
        invariant
            holds(*x, r),
            i <= r.wildcards.len(),
            diag.errors@.len() >= e0,
            (diag.errors@.len() == e0) == (forall|m: int| 0 <= m < i ==> has_key(r.states, #[trigger] r.wildcards[m])),
            errors_view(diag.errors@) == errors_view(old(diag).errors@) + wildcard_errors(r, r.wildcards.take(i as int)),
            diag.warnings@ == old(diag).warnings@,
        decreases x.wildcard_targets.len() - i,
    {
        let t = &x.wildcard_targets[i];
        assert(r.wildcards[i as int] == t@);
        assert(r.wildcards.take(i + 1).drop_last() =~= r.wildcards.take(i as int));
        proof {
            lemma_view_keys(state_entries(x.states), t@);
        }
        if states_get(&x.states, t.as_str()).is_none() {
            diag.error(unresolved(t, String::from_str("wildcard transition target")));
        }
        i = i + 1;
    }
    assert(r.wildcards.take(i as int) =~= r.wildcards);
}

/// Every outcome of a prompt routes to a declared state.
pub open spec fn outcomes_ok(r: Registration, pf: PromptFile) -> bool {
    &&& forall|i: int|
        0 <= i < outcome_entries(pf.success).len() ==> has_key(
            r.states,
            (#[trigger] outcome_entries(pf.success)[i]).1@,
        )
    &&& forall|i: int|
        0 <= i < outcome_entries(pf.failure).len() ==> has_key(
            r.states,
            (#[trigger] outcome_entries(pf.failure)[i]).1@,
        )
}

pub open spec fn checks_outcomes(r: Registration, ps: Seq<(Seq<char>, PromptFile)>) -> bool {
    forall|i: int| 0 <= i < ps.len() ==> outcomes_ok(r, (#[trigger] ps[i]).1)
}

/// Prompt `n` is used by a produce action.
pub open spec fn is_produce_prompt(r: Registration, n: Seq<char>) -> bool {
    exists|i: int| 0 <= i < r.refs.len() && (#[trigger] r.refs[i]).1 == n && is_produce_named(r.states, r.refs[i].0)
}

/// `output` and `output_hint` are supplied by the runtime to produce actions.
pub open spec fn implicit_param(p: Seq<char>) -> bool {
    p == "output"@ || p == "output_hint"@
}

/// Every `{{ param }}` of the body is declared (or implicit, for a produce action's prompt).
pub open spec fn body_params_ok(r: Registration, n: Seq<char>, pf: PromptFile) -> bool {
    forall|i: int|
        0 <= i < pf.body_params@.len() ==> (is_produce_prompt(r, n) && implicit_param(
            (#[trigger] pf.body_params@[i])@,
        )) || has_key(param_entries(pf.params), pf.body_params@[i]@)
}

/// An enum parameter has values and a default among them; a bool default is `true` or
/// `false`; an int default reads as an integer.
pub open spec fn param_ok(pd: ParamDef) -> bool {
    &&& !(pd.param_type == ParamType::Enum && pd.values@.len() == 0)
    &&& (pd.param_type == ParamType::Enum && pd.default is Some) ==> strings_view(pd.values@).contains(
        pd.default->0@,
    )
    &&& (pd.param_type == ParamType::Bool && pd.default is Some) ==> (pd.default->0@ == "true"@
        || pd.default->0@ == "false"@)
    &&& (pd.param_type == ParamType::Int && pd.default is Some) ==> i64_text(pd.default->0@)
}

pub open spec fn params_ok(r: Registration, n: Seq<char>, pf: PromptFile) -> bool {
    &&& body_params_ok(r, n, pf)
    &&& forall|i: int|
        0 <= i < param_entries(pf.params).len() ==> param_ok(
            (#[trigger] param_entries(pf.params)[i]).1,
        )
}

pub open spec fn checks_params(r: Registration, ps: Seq<(Seq<char>, PromptFile)>) -> bool {
    forall|i: int| 0 <= i < ps.len() ==> params_ok(r, (#[trigger] ps[i]).0, ps[i].1)
}

/// An invalid-target error for each outcome of `es` whose target is not a state, in order.
pub open spec fn outcome_map_errors(r: Registration, prompt: Seq<char>, es: Seq<(Seq<char>, String)>) -> Seq<ErrorV>
    decreases es.len(),
{
    if es.len() == 0 {
        seq![]
    } else {
        let prev = outcome_map_errors(r, prompt, es.drop_last());
        if has_key(r.states, es.last().1@) {
            prev
        } else {
            prev.push(ErrorV::InvalidOutcomeTarget { prompt, outcome: es.last().0, target: es.last().1@ })
        }
    }
}

/// The outcome errors of the prompts, in order: for each, its success outcomes, then its
/// failure outcomes.
pub open spec fn outcomes_errors(r: Registration, ps: Seq<(Seq<char>, PromptFile)>) -> Seq<ErrorV>
    decreases ps.len(),
{
    if ps.len() == 0 {
        seq![]
    } else {
        outcomes_errors(r, ps.drop_last()) + outcome_map_errors(r, ps.last().0, outcome_entries(ps.last().1.success))
            + outcome_map_errors(r, ps.last().0, outcome_entries(ps.last().1.failure))
    }
}

/// Checks that every outcome target of a map of outcomes is a state.
fn check_outcome_map(
    x: &Registry,
    prompt: &String,
    m: &IndexMap<String, String>,
    diag: &mut Diagnostics,
    Ghost(r): Ghost<Registration>,
)
    requires
        holds(*x, r),
    ensures
        final(diag).errors@.len() >= old(diag).errors@.len(),
        (final(diag).errors@.len() == old(diag).errors@.len()) == (forall|i: int|
            0 <= i < outcome_entries(*m).len() ==> has_key(r.states, (#[trigger] outcome_entries(*m)[i]).1@)),
        errors_view(final(diag).errors@) == errors_view(old(diag).errors@) + outcome_map_errors(r, prompt@, outcome_entries(*m)),
        final(diag).warnings@ == old(diag).warnings@,
{
    let ghost e0 = diag.errors@.len();
    let n = crate::maps::outcomes_len(m);
    let mut i: usize = 0;
    while i < n
        invariant
            holds(*x, r),
            n == outcome_entries(*m).len(),
            i <= n,
            diag.errors@.len() >= e0,
            (diag.errors@.len() == e0) == (forall|j: int| 0 <= j < i ==> has_key(r.states, (#[trigger] outcome_entries(*m)[j]).1@)),
            errors_view(diag.errors@) == errors_view(old(diag).errors@) + outcome_map_errors(r, prompt@, outcome_entries(*m).take(i as int)),
            diag.warnings@ == old(diag).warnings@,
        decreases n - i,
    {
        let (outcome, target) = crate::maps::outcomes_at(m, i).unwrap();
        assert(outcome_entries(*m).take(i + 1).drop_last() =~= outcome_entries(*m).take(i as int));
        proof {
            lemma_view_keys(state_entries(x.states), target@);
        }
        if states_get(&x.states, target.as_str()).is_none() {
            diag.error(LoomError::InvalidOutcomeTarget {
                prompt: prompt.clone(),
                outcome: outcome.clone(),
                target: target.clone(),
            });
        }
        i = i + 1;
    }
    assert(outcome_entries(*m).take(i as int) =~= outcome_entries(*m));
}

/// Checks the outcome targets of every prompt.
fn check_outcomes(
    x: &Registry,
    prompts: &IndexMap<String, PromptFile>,
    diag: &mut Diagnostics,
    Ghost(r): Ghost<Registration>,
)
    requires
        holds(*x, r),
    ensures
        final(diag).errors@.len() >= old(diag).errors@.len(),
        (final(diag).errors@.len() == old(diag).errors@.len()) == checks_outcomes(r, prompt_entries(*prompts)),
        errors_view(final(diag).errors@) == errors_view(old(diag).errors@) + outcomes_errors(r, prompt_entries(*prompts)),
        final(diag).warnings@ == old(diag).warnings@,
{
    let ghost e0 = diag.errors@.len();
    let ghost ps = prompt_entries(*prompts);
    let n = crate::maps::prompts_len(prompts);
    let mut i: usize = 0;
    while i < n
        invariant
            holds(*x, r),
            ps == prompt_entries(*prompts),
            n == ps.len(),
            i <= n,
            diag.errors@.len() >= e0,
            (diag.errors@.len() == e0) == (forall|j: int| 0 <= j < i ==> outcomes_ok(r, (#[trigger] ps[j]).1)),
            errors_view(diag.errors@) == errors_view(old(diag).errors@) + outcomes_errors(r, ps.take(i as int)),
            diag.warnings@ == old(diag).warnings@,
        decreases n - i,
    {
        let (name, pf) = crate::maps::prompts_at(prompts, i).unwrap();
        assert(ps.take(i + 1).drop_last() =~= ps.take(i as int));
        let ghost before = diag.errors@.len();
        check_outcome_map(x, name, &pf.success, diag, Ghost(r));
        let ghost mid = diag.errors@.len();
        check_outcome_map(x, name, &pf.failure, diag, Ghost(r));
        assert((diag.errors@.len() == before) == outcomes_ok(r, ps[i as int].1));
        i = i + 1;
    }
    assert(ps.take(i as int) =~= ps);
}

/// Whether a produce action uses the prompt `n`.
fn produce_uses_prompt(x: &Registry, n: &String, Ghost(r): Ghost<Registration>) -> (b: bool)
    requires
        holds(*x, r),
    ensures
        b == is_produce_prompt(r, n@),
{
    let mut i: usize = 0;
    while i < x.refs.len()
        invariant
            holds(*x, r),
            i <= r.refs.len(),
            forall|j: int| 0 <= j < i ==> !((#[trigger] r.refs[j]).1 == n@ && is_produce_named(r.states, r.refs[j].0)),
        decreases x.refs.len() - i,
    {
        let (a, pn) = &x.refs[i];
        assert(r.refs[i as int] == (a@, pn@));
        if *pn == *n {
            proof {
                lemma_view_keys(state_entries(x.states), a@);
            }
            match states_get(&x.states, a.as_str()) {
                Some(st) => {
                    if st.is_produce() {
                        return true;
                    }
                },
                None => {},
            }
        }
        i = i + 1;
    }
    false
}

/// A parameter-validation error.
pub open spec fn param_invalid(prompt: Seq<char>, param: Seq<char>, message: Seq<char>) -> Seq<ErrorV> {
    seq![ErrorV::ParamValidation { prompt, param, message }]
}

/// An enum parameter without values.
pub open spec fn param_values_errors(prompt: Seq<char>, param: Seq<char>, pd: ParamDef) -> Seq<ErrorV> {
    if pd.param_type == ParamType::Enum && pd.values@.len() == 0 {
        param_invalid(prompt, param, "enum parameter must have 'values' list"@)
    } else {
        seq![]
    }
}

/// An enum parameter whose default is not among its values.
pub open spec fn param_enum_default_errors(prompt: Seq<char>, param: Seq<char>, pd: ParamDef) -> Seq<ErrorV> {
    if pd.param_type == ParamType::Enum && pd.default is Some && !strings_view(pd.values@).contains(
        pd.default->0@,
    ) {
        param_invalid(prompt, param, "default is not in enum values"@)
    } else {
        seq![]
    }
}

/// A bool parameter whose default is neither `true` nor `false`.
pub open spec fn param_bool_default_errors(prompt: Seq<char>, param: Seq<char>, pd: ParamDef) -> Seq<ErrorV> {
    if pd.param_type == ParamType::Bool && pd.default is Some && pd.default->0@ != "true"@
        && pd.default->0@ != "false"@ {
        param_invalid(prompt, param, "bool parameter default must be 'true' or 'false'"@)
    } else {
        seq![]
    }
}

/// An int parameter whose default does not read as an integer.
pub open spec fn param_int_default_errors(prompt: Seq<char>, param: Seq<char>, pd: ParamDef) -> Seq<ErrorV> {
    if pd.param_type == ParamType::Int && pd.default is Some && !i64_text(pd.default->0@) {
        param_invalid(prompt, param, "int parameter default must be a valid integer"@)
    } else {
        seq![]
    }
}

/// The errors of one parameter definition, in the order they are checked.
pub open spec fn param_def_errors(prompt: Seq<char>, param: Seq<char>, pd: ParamDef) -> Seq<ErrorV> {
    param_values_errors(prompt, param, pd) + param_enum_default_errors(prompt, param, pd)
        + param_bool_default_errors(prompt, param, pd) + param_int_default_errors(prompt, param, pd)
}

/// The errors of a prompt's parameter definitions, in order.
pub open spec fn param_defs_errors(prompt: Seq<char>, es: Seq<(Seq<char>, ParamDef)>) -> Seq<ErrorV>
    decreases es.len(),
{
    if es.len() == 0 {
        seq![]
    } else {
        param_defs_errors(prompt, es.drop_last()) + param_def_errors(prompt, es.last().0, es.last().1)
    }
}

/// An undeclared-parameter error for each of `bs` that the prompt does not declare (and
/// that is not implicit), in order.
pub open spec fn body_param_errors(r: Registration, n: Seq<char>, pf: PromptFile, bs: Seq<String>) -> Seq<ErrorV>
    decreases bs.len(),
{
    if bs.len() == 0 {
        seq![]
    } else {
        let prev = body_param_errors(r, n, pf, bs.drop_last());
        let p = bs.last()@;
        if (is_produce_prompt(r, n) && implicit_param(p)) || has_key(param_entries(pf.params), p) {
            prev
        } else {
            prev.push(ErrorV::UndeclaredParam { prompt: n, param: p })
        }
    }
}

/// The parameter errors of the prompts, in order: for each, its body parameters, then its
/// parameter definitions.
pub open spec fn params_errors(r: Registration, ps: Seq<(Seq<char>, PromptFile)>) -> Seq<ErrorV>
    decreases ps.len(),
{
    if ps.len() == 0 {
        seq![]
    } else {
        let (n, pf) = ps.last();
        params_errors(r, ps.drop_last()) + body_param_errors(r, n, pf, pf.body_params@) + param_defs_errors(
            n,
            param_entries(pf.params),
        )
    }
}

fn param_error(prompt: &String, param: &String, message: &str) -> (e: LoomError)
    ensures
        e@ == (ErrorV::ParamValidation { prompt: prompt@, param: param@, message: message@ }),
{
    LoomError::ParamValidation {
        prompt: prompt.clone(),
        param: param.clone(),
        message: String::from_str(message),
    }
}

fn str_list_contains(v: &Vec<String>, s: &String) -> (b: bool)
    ensures
        b == strings_view(v@).contains(s@),
{
    contains_string(v, s)
}

/// Checks one parameter definition.
fn check_param(prompt: &String, name: &String, pd: &ParamDef, diag: &mut Diagnostics)
    ensures
        final(diag).errors@.len() >= old(diag).errors@.len(),
        (final(diag).errors@.len() == old(diag).errors@.len()) == param_ok(*pd),
        errors_view(final(diag).errors@) == errors_view(old(diag).errors@) + param_def_errors(prompt@, name@, *pd),
        final(diag).warnings@ == old(diag).warnings@,
{
    let ghost e0 = errors_view(diag.errors@);
    if pd.param_type == ParamType::Enum && pd.values.len() == 0 {
        diag.error(param_error(prompt, name, "enum parameter must have 'values' list"));
    }
    assert(errors_view(diag.errors@) =~= e0 + param_values_errors(prompt@, name@, *pd));
    let ghost e1 = errors_view(diag.errors@);
    if pd.param_type == ParamType::Enum {
        if let Some(d) = &pd.default {
            if !str_list_contains(&pd.values, d) {
                diag.error(param_error(prompt, name, "default is not in enum values"));
            }
        }
    }
    assert(errors_view(diag.errors@) =~= e1 + param_enum_default_errors(prompt@, name@, *pd));
    let ghost e2 = errors_view(diag.errors@);
    if pd.param_type == ParamType::Bool {
        if let Some(d) = &pd.default {
            let t = String::from_str("true");
            let f = String::from_str("false");
            if *d != t && *d != f {
                diag.error(param_error(prompt, name, "bool parameter default must be 'true' or 'false'"));
            }
        }
    }
    assert(errors_view(diag.errors@) =~= e2 + param_bool_default_errors(prompt@, name@, *pd));
    let ghost e3 = errors_view(diag.errors@);
    if pd.param_type == ParamType::Int {
        if let Some(d) = &pd.default {
            if !parses_as_i64(d.as_str()) {
                diag.error(param_error(prompt, name, "int parameter default must be a valid integer"));
            }
        }
    }
    assert(errors_view(diag.errors@) =~= e3 + param_int_default_errors(prompt@, name@, *pd));
}

/// Checks the body parameters and the parameter definitions of every prompt.
fn check_params(
    x: &Registry,
    prompts: &IndexMap<String, PromptFile>,
    diag: &mut Diagnostics,
    Ghost(r): Ghost<Registration>,
)
    requires
        holds(*x, r),
    ensures
        final(diag).errors@.len() >= old(diag).errors@.len(),
        (final(diag).errors@.len() == old(diag).errors@.len()) == checks_params(r, prompt_entries(*prompts)),
        errors_view(final(diag).errors@) == errors_view(old(diag).errors@) + params_errors(r, prompt_entries(*prompts)),
        final(diag).warnings@ == old(diag).warnings@,
{
    let ghost e0 = diag.errors@.len();
    let ghost ps = prompt_entries(*prompts);
    let n = crate::maps::prompts_len(prompts);
    let mut i: usize = 0;
    while i < n
        invariant
            holds(*x, r),
            ps == prompt_entries(*prompts),
            n == ps.len(),
            i <= n,
            diag.errors@.len() >= e0,
            (diag.errors@.len() == e0) == (forall|j: int| 0 <= j < i ==> params_ok(r, (#[trigger] ps[j]).0, ps[j].1)),
            errors_view(diag.errors@) == errors_view(old(diag).errors@) + params_errors(r, ps.take(i as int)),
            diag.warnings@ == old(diag).warnings@,
        decreases n - i,
    {
        let (name, pf) = crate::maps::prompts_at(prompts, i).unwrap();
        let ghost before = diag.errors@.len();
        let ghost ev0 = errors_view(diag.errors@);
        assert(ps.take(i + 1).drop_last() =~= ps.take(i as int));
        assert(pf.body_params@.take(0) =~= Seq::<String>::empty());
        let produce = produce_uses_prompt(x, name, Ghost(r));
        let out = String::from_str("output");
        let out_hint = String::from_str("output_hint");
        let mut j: usize = 0;
        while j < pf.body_params.len()
            invariant
                j <= pf.body_params@.len(),
                produce == is_produce_prompt(r, name@),
                out@ == "output"@,
                out_hint@ == "output_hint"@,
                diag.errors@.len() >= before,
                (diag.errors@.len() == before) == (forall|m: int| 0 <= m < j ==> (is_produce_prompt(r, name@) && implicit_param((#[trigger] pf.body_params@[m])@)) || has_key(param_entries(pf.params), pf.body_params@[m]@)),
                errors_view(diag.errors@) == ev0 + body_param_errors(r, name@, *pf, pf.body_params@.take(j as int)),
                diag.warnings@ == old(diag).warnings@,
            decreases pf.body_params.len() - j,
        {
            let p = &pf.body_params[j];
            assert(pf.body_params@.take(j + 1).drop_last() =~= pf.body_params@.take(j as int));
            let implicit = produce && (*p == out || *p == out_hint);
            if !implicit && crate::maps::params_get(&pf.params, p.as_str()).is_none() {
                diag.error(LoomError::UndeclaredParam { prompt: name.clone(), param: p.clone() });
            }
            j = j + 1;
        }
        let ghost mid = diag.errors@.len();
        assert(pf.body_params@.take(pf.body_params.len() as int) =~= pf.body_params@);
        let ghost ev1 = errors_view(diag.errors@);
        assert(param_entries(pf.params).take(0) =~= Seq::<(Seq<char>, ParamDef)>::empty());
        let pn = crate::maps::params_len(&pf.params);
        let mut k: usize = 0;
        while k < pn
            invariant
                pn == param_entries(pf.params).len(),
                k <= pn,
                diag.errors@.len() >= mid,
                (diag.errors@.len() == mid) == (forall|m: int| 0 <= m < k ==> param_ok((#[trigger] param_entries(pf.params)[m]).1)),
                errors_view(diag.errors@) == ev1 + param_defs_errors(name@, param_entries(pf.params).take(k as int)),
                diag.warnings@ == old(diag).warnings@,
            decreases pn - k,
        {
            let (pname, pd) = crate::maps::params_at(&pf.params, k).unwrap();
            assert(param_entries(pf.params).take(k + 1).drop_last() =~= param_entries(pf.params).take(k as int));
            check_param(name, pname, pd, diag);
            k = k + 1;
        }
        assert(param_entries(pf.params).take(pn as int) =~= param_entries(pf.params));
        assert(errors_view(diag.errors@) =~= ev0 + body_param_errors(r, name@, *pf, pf.body_params@)
            + param_defs_errors(name@, param_entries(pf.params)));
        assert((diag.errors@.len() == before) == params_ok(r, ps[i as int].0, ps[i as int].1));
        i = i + 1;
    }
    assert(ps.take(i as int) =~= ps);
}

/// Everything lowering checks holds: no clashing declarations, every include and every
/// prompt file usable, every reference resolved, every prompt parameter consistent, and
/// the default profile (if any) declared.
pub open spec fn lowering_ok(
    ast: Workflow,
    incs: Seq<Result<ProfileDecl, LoomError>>,
    files: Seq<(String, Option<PromptFile>)>,
    dp: Option<String>,
) -> bool {
    let r = register_decls(ast.declarations@, incs);
    let names = distinct_prompts(r.refs);
    let ps = prompt_loads(names, files_view(files));
    &&& r.errs.len() == 0
    &&& forall|i: int| 0 <= i < names.len() ==> !prompt_missing(#[trigger] names[i], files_view(files))
    &&& checks_steps(r)
    &&& checks_phases(r)
    &&& checks_profiles(r)
    &&& checks_wildcards(r)
    &&& checks_outcomes(r, ps)
    &&& checks_params(r, ps)
    &&& (dp matches Some(p) ==> has_key(r.profiles, p@))
}

/// Any declared state is a valid outcome target, escape states included (they wait
/// without being actions): outcomes that route only to declared states give no error.
pub proof fn lemma_declared_targets_accepted(r: Registration, prompt: Seq<char>, es: Seq<(Seq<char>, String)>)
    requires
        forall|i: int| 0 <= i < es.len() ==> #[trigger] map_get(r.states, es[i].1@) is Some,
    ensures
        outcome_map_errors(r, prompt, es).len() == 0,
    decreases es.len(),
{
    if es.len() > 0 {
        assert forall|i: int| 0 <= i < es.drop_last().len() implies #[trigger] map_get(r.states, es.drop_last()[i].1@) is Some by {
            assert(es.drop_last()[i] == es[i]);
        }
        lemma_declared_targets_accepted(r, prompt, es.drop_last());
        assert(map_get(r.states, es[es.len() - 1].1@) is Some);
    }
}

proof fn lemma_step_errors_prefix(r: Registration, steps: Seq<(Seq<char>, (Seq<char>, Seq<char>, Seq<char>))>, i: int)
    requires
        0 <= i < steps.len(),
        steps_errors(r, steps).len() == 0,
    ensures
        step_action_errors(r, steps[i].1).len() == 0,
    decreases steps.len(),
{
    if i < steps.len() - 1 {
        assert(steps.drop_last()[i] == steps[i]);
        lemma_step_errors_prefix(r, steps.drop_last(), i);
    }
}

/// Escape states are never claimed: where the steps check cleanly, the action of every
/// step is an action state, so no step leads into an escape state.
pub proof fn lemma_escape_states_are_not_claimed(r: Registration, i: int)
    requires
        0 <= i < r.steps.len(),
        steps_errors(r, r.steps).len() == 0,
    ensures
        is_action_named(r.states, r.steps[i].1.2),
        !(map_get(r.states, r.steps[i].1.2) matches Some(StateV::Escape { .. })),
{
    lemma_step_errors_prefix(r, r.steps, i);
}

/// The error for an undeclared default profile.
pub open spec fn default_profile_errors(r: Registration, dp: Option<String>) -> Seq<ErrorV> {
    match dp {
        Some(p) => if has_key(r.profiles, p@) {
            seq![]
        } else {
            seq![ErrorV::InvalidDefaultProfile { name: p@ }]
        },
        None => seq![],
    }
}

/// Every error lowering reports, in the order it finds them: the clashing declarations
/// and unusable includes, the missing prompts, then the errors of the steps, the phases,
/// the profiles, the wildcard targets, the outcome targets and the parameters, and last
/// an undeclared default profile.
pub open spec fn lowering_errors(
    ast: Workflow,
    incs: Seq<Result<ProfileDecl, LoomError>>,
    files: Seq<(String, Option<PromptFile>)>,
    dp: Option<String>,
) -> Seq<ErrorV> {
    let r = register_decls(ast.declarations@, incs);
    let names = distinct_prompts(r.refs);
    let ps = prompt_loads(names, files_view(files));
    r.errs + missing_prompt_errors(names, files_view(files)) + steps_errors(r, r.steps) + phases_errors(
        r,
        r.phases,
    ) + profiles_errors(r, r.profiles) + wildcard_errors(r, r.wildcards) + outcomes_errors(r, ps)
        + params_errors(r, ps) + default_profile_errors(r, dp)
}

/// The IR holds what the declarations register and the prompt files they use.
pub open spec fn lowered_from(
    ir: WorkflowIR,
    ast: Workflow,
    incs: Seq<Result<ProfileDecl, LoomError>>,
    files: Seq<(String, Option<PromptFile>)>,
    dp: Option<String>,
) -> bool {
    let r = register_decls(ast.declarations@, incs);
    &&& ir.name@ == ast.name@
    &&& ir.version == ast.version
    &&& opt_view(ir.default_profile) == opt_view(dp)
    &&& view_entries(state_entries(ir.states)) == r.states
    &&& view_entries(step_entries(ir.steps)) == r.steps
    &&& view_entries(phase_entries(ir.phases)) == r.phases
    &&& view_entries(profile_entries(ir.profiles)) == r.profiles
    &&& strings_view(ir.wildcard_targets@) == r.wildcards
    &&& prompt_entries(ir.prompts) == prompt_loads(distinct_prompts(r.refs), files_view(files))
}

/// The registration a lowered workflow describes, as far as the checks read it.
pub open spec fn ir_registration(v: crate::ir::IrV) -> Registration {
    Registration {
        states: v.states,
        steps: v.steps,
        phases: v.phases,
        profiles: v.profiles,
        wildcards: v.wildcard_targets,
        refs: seq![],
        synthesized: Set::empty(),
        errs: seq![],
        includes_used: 0,
    }
}

/// Every reference of a workflow resolves: each step leads from a queue to an action; each
/// phase's produce step exists and holds no gate action, and its gate step exists and holds
/// no produce action; each profile lists declared phases and overrides actions of those
/// phases; each wildcard target and each outcome target is a state; the default profile,
/// where there is one, is declared.
pub open spec fn references_resolve(ir: WorkflowIR) -> bool {
    let r = ir_registration(ir@);
    &&& checks_steps(r)
    &&& checks_phases(r)
    &&& checks_profiles(r)
    &&& checks_wildcards(r)
    &&& checks_outcomes(r, prompt_entries(ir.prompts))
    &&& (ir.default_profile matches Some(d) ==> has_key(ir@.profiles, d@))
}

proof fn lemma_lowered_resolves(
    ir: WorkflowIR,
    ast: Workflow,
    incs: Seq<Result<ProfileDecl, LoomError>>,
    files: Seq<(String, Option<PromptFile>)>,
    dp: Option<String>,
)
    requires
        lowering_ok(ast, incs, files, dp),
        lowered_from(ir, ast, incs, files, dp),
    ensures
        references_resolve(ir),
{
    let r = register_decls(ast.declarations@, incs);
    let q = ir_registration(ir@);
    assert(q.states == r.states && q.steps == r.steps && q.phases == r.phases && q.profiles == r.profiles
        && q.wildcards == r.wildcards);
    assert forall|i: int| 0 <= i < q.steps.len() implies step_ok(q, (#[trigger] q.steps[i]).1) by {
        assert(step_ok(r, r.steps[i].1));
    }
    assert forall|i: int| 0 <= i < q.phases.len() implies phase_ok(q, (#[trigger] q.phases[i]).1) by {
        assert(phase_ok(r, r.phases[i].1));
    }
    assert forall|i: int| 0 <= i < q.profiles.len() implies profile_ok(q, (#[trigger] q.profiles[i]).1) by {
        let pv = r.profiles[i].1;
        assert(profile_ok(r, pv));
        assert forall|j: int| 0 <= j < pv.overrides.len() implies has_key(q.states, (#[trigger] pv.overrides[j]).0)
            && profile_has_action(q, pv, pv.overrides[j].0) by {
            let a = pv.overrides[j].0;
            assert(profile_has_action(r, pv, a));
            let k = choose|k: int| 0 <= k < pv.phases.len() && phase_contributes(r, #[trigger] pv.phases[k], a);
            assert(phase_contributes(q, pv.phases[k], a));
        }
    }
    let ps = prompt_entries(ir.prompts);
    assert forall|i: int| 0 <= i < ps.len() implies outcomes_ok(q, (#[trigger] ps[i]).1) by {
        assert(outcomes_ok(r, ps[i].1));
    }
}

/// Lower a parsed workflow into the IR.
///
/// `includes` holds, in order, what the file of each `include` declaration gave;
/// `prompt_files` holds the prompt files that could be read, by name (`None` for one
/// that could not be parsed). The result is `Ok` exactly when every check passes, and
/// then the IR holds what the declarations register; otherwise it is every error found.
pub fn lower_with_config(
    ast: &Workflow,
    includes: Vec<Result<ProfileDecl, LoomError>>,
    prompt_files: Vec<(String, Option<PromptFile>)>,
    default_profile: Option<String>,
) -> (res: Result<(WorkflowIR, Diagnostics), Vec<LoomError>>)
    ensures
        res is Ok <==> lowering_ok(*ast, includes@, prompt_files@, default_profile),
        res matches Ok((ir, diag)) ==> lowered_from(ir, *ast, includes@, prompt_files@, default_profile)
            && diag.errors@.len() == 0 && diag.warnings@.len() == 0,
        res matches Ok((ir, _)) ==> references_resolve(ir),
        res is Ok <==> lowering_errors(*ast, includes@, prompt_files@, default_profile).len() == 0,
        res matches Err(es) ==> errors_view(es@) == lowering_errors(*ast, includes@, prompt_files@, default_profile),
{
    let ghost incs = includes@;
    let ghost files = prompt_files@;
    let (x, mut diag) = register_declarations(ast, includes);
    let ghost r = register_decls(ast.declarations@, incs);
    let ghost e1 = diag.errors@.len();
    let prompts = load_prompts(&x, prompt_files, &mut diag);
    let ghost e2 = diag.errors@.len();
    check_steps(&x, &mut diag, Ghost(r));
    let ghost e3 = diag.errors@.len();
    check_phases(&x, &mut diag, Ghost(r));
    let ghost e4 = diag.errors@.len();
    check_profiles(&x, &mut diag, Ghost(r));
    let ghost e5 = diag.errors@.len();
    check_wildcards(&x, &mut diag, Ghost(r));
    let ghost e6 = diag.errors@.len();
    check_outcomes(&x, &prompts, &mut diag, Ghost(r));
    let ghost e7 = diag.errors@.len();
    check_params(&x, &prompts, &mut diag, Ghost(r));
    let ghost e8 = diag.errors@.len();
    if let Some(dp) = &default_profile {
        proof {
            lemma_view_keys(profile_entries(x.profiles), dp@);
        }
        if profiles_get(&x.profiles, dp.as_str()).is_none() {
            diag.error(LoomError::InvalidDefaultProfile { name: dp.clone() });
        }
    }
    assert(errors_view(diag.errors@) =~= lowering_errors(*ast, incs, files, default_profile));
    if diag.has_errors() {
        return Err(diag.errors);
    }
    let Registry { states, steps, phases, profiles, wildcard_targets, refs: _, synthesized: _ } = x;
    let ir = WorkflowIR {
        name: ast.name.clone(),
        version: ast.version,
        default_profile,
        states,
        steps,
        phases,
        profiles,
        wildcard_targets,
        prompts,
    };
    proof {
        lemma_lowered_resolves(ir, *ast, incs, files, default_profile);
    }
    Ok((ir, diag))
}

/// Lower a parsed workflow with no default profile.
pub fn lower(
    ast: &Workflow,
    includes: Vec<Result<ProfileDecl, LoomError>>,
    prompt_files: Vec<(String, Option<PromptFile>)>,
) -> (res: Result<(WorkflowIR, Diagnostics), Vec<LoomError>>)
    ensures
        res is Ok <==> lowering_ok(*ast, includes@, prompt_files@, None),
        res matches Ok((ir, diag)) ==> lowered_from(ir, *ast, includes@, prompt_files@, None)
            && diag.errors@.len() == 0 && diag.warnings@.len() == 0,
        res matches Ok((ir, _)) ==> references_resolve(ir),
        res is Ok <==> lowering_errors(*ast, includes@, prompt_files@, None).len() == 0,
        res matches Err(es) ==> errors_view(es@) == lowering_errors(*ast, includes@, prompt_files@, None),
{
    lower_with_config(ast, includes, prompt_files, None)
}

/// The paths of the workflow's `include` declarations, in order: the files whose
/// profiles `lower` expects.
pub fn include_paths(ast: &Workflow) -> (r: Vec<String>)
    ensures
        strings_view(r@) == include_paths_spec(ast.declarations@),
{
    let ghost ds = ast.declarations@;
    let mut r: Vec<String> = Vec::new();
    let mut i: usize = 0;
    assert(ds.take(0) =~= Seq::<Declaration>::empty());
    while i < ast.declarations.len()
        invariant
            i <= ds.len(),
            ds == ast.declarations@,
            strings_view(r@) == include_paths_spec(ds.take(i as int)),
        decreases ds.len() - i,
    {
        assert(ds.take(i + 1).drop_last() =~= ds.take(i as int));
        if let Declaration::Include(inc) = &ast.declarations[i] {
            let ghost old_r = r@;
            r.push(inc.path.clone());
            assert(strings_view(r@) =~= strings_view(old_r).push(inc.path@));
        }
        i = i + 1;
    }
    assert(ds.take(i as int) =~= ds);
    r
}

pub open spec fn include_paths_spec(ds: Seq<Declaration>) -> Seq<Seq<char>>
    decreases ds.len(),
{
    if ds.len() == 0 {
        seq![]
    } else {
        match ds.last() {
            Declaration::Include(inc) => include_paths_spec(ds.drop_last()).push(inc.path@),
            _ => include_paths_spec(ds.drop_last()),
        }
    }
}
} // verus!
