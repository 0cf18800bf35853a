//! The part of a workflow that one profile runs.
use vstd::prelude::*;
use indexmap::IndexMap;
use crate::ir::{
    copy_output, IrV, PhaseDef, ProfileDef, ProfileV, StateDef, StateV, StepDef, WorkflowIR,
};
use crate::prompt::{PromptFile, PromptV};
use crate::maps::{
    has_key, lemma_insert_get, lemma_view_insert, lemma_view_keys, map_get, map_insert, view_entries, override_entries,
    overrides_get, phase_entries, phases_get, phases_insert, phases_new, profile_entries, profiles_get,
    profiles_insert, profiles_new, prompt_entries, prompts_at, prompts_get, prompts_insert, prompts_len,
    prompts_new, outcome_entries, outcomes_at, outcomes_len, state_entries, states_at, states_get,
    states_insert, states_len, states_new, step_entries, steps_get, steps_insert, steps_new,
};

verus! {

/// The entries after inserting each of `ins`, in order.
pub open spec fn insert_all<V>(e: Seq<(Seq<char>, V)>, ins: Seq<(Seq<char>, V)>) -> Seq<(Seq<char>, V)>
    decreases ins.len(),
{
    if ins.len() == 0 {
        e
    } else {
        map_insert(insert_all(e, ins.drop_last()), ins.last().0, ins.last().1)
    }
}

/// An action state with the executor that the profile's override for it names.
pub open spec fn with_override(s: StateV, pv: ProfileV) -> StateV {
    match s {
        StateV::Action { name, display_name, action_type, prompt_name, output, constraints, executor } => match map_get(
            pv.overrides,
            name,
        ) {
            Some((Some(e), _)) => StateV::Action {
                name,
                display_name,
                action_type,
                prompt_name,
                output,
                constraints,
                executor: e,
            },
            _ => s,
        },
        _ => s,
    }
}

/// The states that the step named `sn` brings in: its queue, then its action.
pub open spec fn step_states(v: IrV, pv: ProfileV, sn: Seq<char>) -> Seq<(Seq<char>, StateV)> {
    match map_get(v.steps, sn) {
        Some((_, q, a)) => (match map_get(v.states, q) {
            Some(qs) => seq![(q, qs)],
            None => Seq::empty(),
        }) + match map_get(v.states, a) {
            Some(acts) => seq![(a, with_override(acts, pv))],
            None => Seq::empty(),
        },
        None => Seq::empty(),
    }
}

/// The prompt that the step named `sn` brings in: that of its action.
pub open spec fn step_prompts(v: IrV, sn: Seq<char>) -> Seq<(Seq<char>, PromptV)> {
    match map_get(v.steps, sn) {
        Some((_, _, a)) => match map_get(v.states, a) {
            Some(StateV::Action { prompt_name, .. }) => match map_get(v.prompts, prompt_name) {
                Some(pf) => seq![(prompt_name, pf)],
                None => Seq::empty(),
            },
            _ => Seq::empty(),
        },
        None => Seq::empty(),
    }
}

/// The step named `sn`, where it exists.
pub open spec fn step_itself(v: IrV, sn: Seq<char>) -> Seq<(Seq<char>, (Seq<char>, Seq<char>, Seq<char>))> {
    match map_get(v.steps, sn) {
        Some(st) => seq![(sn, st)],
        None => Seq::empty(),
    }
}

/// The step names of a phase value: produce, then gate if any.
pub open spec fn steps_of(ph: (Seq<char>, Seq<char>, Option<Seq<char>>)) -> Seq<Seq<char>> {
    match ph.2 {
        Some(g) => seq![ph.1, g],
        None => seq![ph.1],
    }
}

/// What the first `n` phases of the profile bring in: (phases, steps, states, prompts).
pub open spec fn phase_parts(v: IrV, pv: ProfileV, n: int) -> (
    Seq<(Seq<char>, (Seq<char>, Seq<char>, Option<Seq<char>>))>,
    Seq<(Seq<char>, (Seq<char>, Seq<char>, Seq<char>))>,
    Seq<(Seq<char>, StateV)>,
    Seq<(Seq<char>, PromptV)>,
)
    decreases n,
{
    if n <= 0 {
        (Seq::empty(), Seq::empty(), Seq::empty(), Seq::empty())
    } else {
        let prev = phase_parts(v, pv, n - 1);
        let x = pv.phases[n - 1];
        match map_get(v.phases, x) {
            Some(ph) => {
                let sns = steps_of(ph);
                let st1 = step_itself(v, sns[0]) + if sns.len() > 1 {
                    step_itself(v, sns[1])
                } else {
                    Seq::empty()
                };
                let ss1 = step_states(v, pv, sns[0]) + if sns.len() > 1 {
                    step_states(v, pv, sns[1])
                } else {
                    Seq::empty()
                };
                let ps1 = step_prompts(v, sns[0]) + if sns.len() > 1 {
                    step_prompts(v, sns[1])
                } else {
                    Seq::empty()
                };
                (prev.0.push((x, ph)), prev.1 + st1, prev.2 + ss1, prev.3 + ps1)
            },
            None => prev,
        }
    }
}

/// The terminal and escape states among the first `n`.
pub open spec fn end_states(s: Seq<(Seq<char>, StateV)>, n: int) -> Seq<(Seq<char>, StateV)>
    decreases n,
{
    if n <= 0 {
        Seq::empty()
    } else {
        end_states(s, n - 1) + if s[n - 1].1 is Terminal || s[n - 1].1 is Escape {
            seq![s[n - 1]]
        } else {
            Seq::empty()
        }
    }
}

/// The outcome targets of the first `n` prompts: each prompt's success targets, then its
/// failure targets.
pub open spec fn outcome_targets(p: Seq<(Seq<char>, PromptV)>, n: int) -> Seq<Seq<char>>
    decreases n,
{
    if n <= 0 {
        Seq::empty()
    } else {
        outcome_targets(p, n - 1) + p[n - 1].1.success.map_values(|r: (Seq<char>, Seq<char>)| r.1)
            + p[n - 1].1.failure.map_values(|r: (Seq<char>, Seq<char>)| r.1)
    }
}

/// The states after adding each target of `t` that is a state and not yet present.
pub open spec fn add_targets(all: Seq<(Seq<char>, StateV)>, e: Seq<(Seq<char>, StateV)>, t: Seq<Seq<char>>) -> Seq<(Seq<char>, StateV)>
    decreases t.len(),
{
    if t.len() == 0 {
        e
    } else {
        let prev = add_targets(all, e, t.drop_last());
        if has_key(prev, t.last()) {
            prev
        } else {
            match map_get(all, t.last()) {
                Some(s) => map_insert(prev, t.last(), s),
                None => prev,
            }
        }
    }
}

/// The subgraph of profile `pn` (with value `pv`): its phases, their steps, the queues and
/// actions of those steps (actions with the profile's executor overrides), every terminal
/// and escape state, the prompts of those actions and the states their outcomes target.
pub open spec fn profile_subgraph(v: IrV, pn: Seq<char>, pv: ProfileV) -> IrV {
    let parts = phase_parts(v, pv, pv.phases.len() as int);
    let prompts = insert_all(Seq::empty(), parts.3);
    let states = insert_all(Seq::empty(), parts.2 + end_states(v.states, v.states.len() as int));
    IrV {
        name: v.name,
        version: v.version,
        default_profile: v.default_profile,
        states: add_targets(v.states, states, outcome_targets(prompts, prompts.len() as int)),
        steps: insert_all(Seq::empty(), parts.1),
        phases: insert_all(Seq::empty(), parts.0),
        profiles: seq![(pn, pv)],
        wildcard_targets: v.wildcard_targets,
        prompts,
    }
}

pub proof fn lemma_insert_all_concat<V>(e: Seq<(Seq<char>, V)>, a: Seq<(Seq<char>, V)>, b: Seq<(Seq<char>, V)>)
    ensures
        insert_all(e, a + b) == insert_all(insert_all(e, a), b),
    decreases b.len(),
{
    if b.len() > 0 {
        lemma_insert_all_concat(e, a, b.drop_last());
        assert((a + b).drop_last() =~= a + b.drop_last());
    } else {
        assert(a + b =~= a);
    }
}


pub proof fn lemma_insert_all_one<V>(e: Seq<(Seq<char>, V)>, k: Seq<char>, v: V)
    ensures
        insert_all(e, seq![(k, v)]) == map_insert(e, k, v),
        insert_all(e, Seq::<(Seq<char>, V)>::empty()) == e,
{
    let one = seq![(k, v)];
    assert(one.drop_last() =~= Seq::<(Seq<char>, V)>::empty());
    assert(insert_all(e, one.drop_last()) == e);
    assert(one.last() == (k, v));
}

pub proof fn lemma_add_targets_concat(all: Seq<(Seq<char>, StateV)>, e: Seq<(Seq<char>, StateV)>, a: Seq<Seq<char>>, b: Seq<Seq<char>>)
    ensures
        add_targets(all, e, a + b) == add_targets(all, add_targets(all, e, a), b),
    decreases b.len(),
{
    if b.len() > 0 {
        lemma_add_targets_concat(all, e, a, b.drop_last());
        assert((a + b).drop_last() =~= a + b.drop_last());
    } else {
        assert(a + b =~= a);
    }
}

fn put_state(m: &mut IndexMap<String, StateDef>, k: String, v: StateDef)
    ensures
        view_entries(state_entries(*final(m))) == map_insert(view_entries(state_entries(*old(m))), k@, v@),
{
    proof {
        lemma_view_insert(state_entries(*m), k@, v);
    }
    states_insert(m, k, v);
}

fn put_step(m: &mut IndexMap<String, StepDef>, k: String, v: StepDef)
    ensures
        view_entries(step_entries(*final(m))) == map_insert(view_entries(step_entries(*old(m))), k@, v@),
{
    proof {
        lemma_view_insert(step_entries(*m), k@, v);
    }
    steps_insert(m, k, v);
}

fn put_phase(m: &mut IndexMap<String, PhaseDef>, k: String, v: PhaseDef)
    ensures
        view_entries(phase_entries(*final(m))) == map_insert(view_entries(phase_entries(*old(m))), k@, v@),
{
    proof {
        lemma_view_insert(phase_entries(*m), k@, v);
    }
    phases_insert(m, k, v);
}

fn put_prompt(m: &mut IndexMap<String, PromptFile>, k: String, v: PromptFile)
    ensures
        view_entries(prompt_entries(*final(m))) == map_insert(view_entries(prompt_entries(*old(m))), k@, v@),
{
    proof {
        lemma_view_insert(prompt_entries(*m), k@, v);
    }
    prompts_insert(m, k, v);
}

/// An action state with the executor that the profile's override for it names.
fn apply_override(st: StateDef, pr: &ProfileDef) -> (r: StateDef)
    ensures
        r@ == with_override(st@, pr@),
{
    match st {
        StateDef::Action { name, display_name, action_type, prompt_name, output, constraints, executor } => {
            proof {
                lemma_view_keys(override_entries(pr.overrides), name@);
            }
            let mut e = executor;
            if let Some(o) = overrides_get(&pr.overrides, name.as_str()) {
                if let Some(x) = o.executor {
                    e = x;
                }
            }
            StateDef::Action { name, display_name, action_type, prompt_name, output, constraints, executor: e }
        },
        other => other,
    }
}

fn collect_step(
    ir: &WorkflowIR,
    pr: &ProfileDef,
    sn: &String,
    states: &mut IndexMap<String, StateDef>,
    steps: &mut IndexMap<String, StepDef>,
    prompts: &mut IndexMap<String, PromptFile>,
)
    ensures
        view_entries(step_entries(*final(steps))) == insert_all(view_entries(step_entries(*old(steps))), step_itself(ir@, sn@)),
        view_entries(state_entries(*final(states))) == insert_all(view_entries(state_entries(*old(states))), step_states(ir@, pr@, sn@)),
        view_entries(prompt_entries(*final(prompts))) == insert_all(view_entries(prompt_entries(*old(prompts))), step_prompts(ir@, sn@)),
{
    proof {
        lemma_view_keys(step_entries(ir.steps), sn@);
    }
    let ghost s0 = view_entries(state_entries(*states));
    let ghost t0 = view_entries(step_entries(*steps));
    let ghost p0 = view_entries(prompt_entries(*prompts));
    if let Some(step) = steps_get(&ir.steps, sn.as_str()) {
        proof {
            lemma_view_keys(state_entries(ir.states), step.queue@);
            lemma_view_keys(state_entries(ir.states), step.action@);
        }
        let sd = step.duplicate();
        proof {
            lemma_insert_all_one(t0, sn@, sd@);
        }
        put_step(steps, sn.clone(), sd);
        assert(step_itself(ir@, sn@) =~= seq![(sn@, step@)]);
        let ghost q_ins: Seq<(Seq<char>, StateV)> = match map_get(ir@.states, step.queue@) {
            Some(qs) => seq![(step.queue@, qs)],
            None => Seq::empty(),
        };
        proof {
            lemma_insert_all_one(s0, step.queue@, ir@.states[0].1);
        }
        if let Some(q) = states_get(&ir.states, step.queue.as_str()) {
            let qd = q.duplicate();
            proof {
                lemma_insert_all_one(s0, step.queue@, qd@);
            }
            put_state(states, step.queue.clone(), qd);
        }
        assert(view_entries(state_entries(*states)) == insert_all(s0, q_ins));
        let ghost s1 = view_entries(state_entries(*states));
        if let Some(a) = states_get(&ir.states, step.action.as_str()) {
            let st = apply_override(a.duplicate(), pr);
            if let StateDef::Action { prompt_name, .. } = &st {
                proof {
                    lemma_view_keys(prompt_entries(ir.prompts), prompt_name@);
                }
                if let Some(pf) = prompts_get(&ir.prompts, prompt_name.as_str()) {
                    let pd = pf.duplicate();
                    proof {
                        lemma_insert_all_one(p0, prompt_name@, pd@);
                    }
                    put_prompt(prompts, prompt_name.clone(), pd);
                } else {
                    proof {
                        lemma_insert_all_one(p0, prompt_name@, ir@.prompts[0].1);
                    }
                }
            }
            let ghost a_ins = seq![(step.action@, st@)];
            proof {
                lemma_insert_all_one(s1, step.action@, st@);
            }
            put_state(states, step.action.clone(), st);
            proof {
                lemma_insert_all_concat(s0, q_ins, a_ins);
                assert(step_states(ir@, pr@, sn@) =~= q_ins + a_ins);
            }
        } else {
            assert(step_states(ir@, pr@, sn@) =~= q_ins + Seq::<(Seq<char>, StateV)>::empty());
            assert(q_ins + Seq::<(Seq<char>, StateV)>::empty() =~= q_ins);
            proof {
                lemma_insert_all_one(p0, sn@, ir@.prompts[0].1);
            }
        }
    } else {
        proof {
            lemma_insert_all_one(p0, sn@, ir@.prompts[0].1);
            lemma_insert_all_one(s0, sn@, ir@.states[0].1);
            lemma_insert_all_one(t0, sn@, ir@.steps[0].1);
        }
    }
}


/// Extracts the subgraph of one profile: `None` where the workflow has no profile of that
/// name.
#[verifier::spinoff_prover]
#[verifier::rlimit(40)]
pub fn extract_profile_subgraph(ir: &WorkflowIR, profile_name: &str) -> (r: Option<WorkflowIR>)
    ensures
        r is None <==> map_get(ir@.profiles, profile_name@) is None,
        r matches Some(sub) ==> map_get(ir@.profiles, profile_name@) matches Some(pv) && sub@ == profile_subgraph(
            ir@,
            profile_name@,
            pv,
        ),
{
    proof {
        lemma_view_keys(profile_entries(ir.profiles), profile_name@);
    }
    let profile = match profiles_get(&ir.profiles, profile_name) {
        Some(p) => p,
        None => return None,
    };
    let ghost v = ir@;
    let ghost pv = profile@;
    let mut states = states_new();
    let mut steps = steps_new();
    let mut phases = phases_new();
    let mut prompts = prompts_new();
    assert(view_entries(state_entries(states)) =~= Seq::<(Seq<char>, StateV)>::empty());
    assert(view_entries(step_entries(steps)) =~= insert_all(Seq::empty(), phase_parts(v, pv, 0).1));
    assert(view_entries(phase_entries(phases)) =~= insert_all(Seq::empty(), phase_parts(v, pv, 0).0));
    assert(view_entries(prompt_entries(prompts)) =~= insert_all(Seq::empty(), phase_parts(v, pv, 0).3));
    for i in 0..profile.phases.len()
        invariant
            v == ir@,
            pv == profile@,
            pv.phases.len() == profile.phases@.len(),
            view_entries(phase_entries(phases)) == insert_all(Seq::empty(), phase_parts(v, pv, i as int).0),
            view_entries(step_entries(steps)) == insert_all(Seq::empty(), phase_parts(v, pv, i as int).1),
            view_entries(state_entries(states)) == insert_all(Seq::empty(), phase_parts(v, pv, i as int).2),
            view_entries(prompt_entries(prompts)) == insert_all(Seq::empty(), phase_parts(v, pv, i as int).3),
    {
        let x = &profile.phases[i];
        assert(pv.phases[i as int] == x@);
        proof {
            lemma_view_keys(phase_entries(ir.phases), x@);
        }
        let ghost prev = phase_parts(v, pv, i as int);
        if let Some(ph) = phases_get(&ir.phases, x.as_str()) {
            let pd = ph.duplicate();
            proof {
                lemma_insert_all_one(insert_all(Seq::empty(), prev.0), x@, pd@);
            }
            put_phase(&mut phases, x.clone(), pd);
            let ghost t1 = view_entries(step_entries(steps));
            let ghost s1 = view_entries(state_entries(states));
            let ghost p1 = view_entries(prompt_entries(prompts));
            collect_step(ir, profile, &ph.produce_step, &mut states, &mut steps, &mut prompts);
            let ghost sns = steps_of(ph@);
            assert(sns[0] == ph.produce_step@);
            match &ph.gate_step {
                Some(g) => {
                    collect_step(ir, profile, g, &mut states, &mut steps, &mut prompts);
                    assert(sns.len() > 1 && sns[1] == g@);
                    proof {
                        lemma_insert_all_concat(Seq::empty(), prev.1, step_itself(v, sns[0]) + step_itself(v, sns[1]));
                        lemma_insert_all_concat(insert_all(Seq::empty(), prev.1), step_itself(v, sns[0]), step_itself(v, sns[1]));
                        lemma_insert_all_concat(Seq::empty(), prev.2, step_states(v, pv, sns[0]) + step_states(v, pv, sns[1]));
                        lemma_insert_all_concat(insert_all(Seq::empty(), prev.2), step_states(v, pv, sns[0]), step_states(v, pv, sns[1]));
                        lemma_insert_all_concat(Seq::empty(), prev.3, step_prompts(v, sns[0]) + step_prompts(v, sns[1]));
                        lemma_insert_all_concat(insert_all(Seq::empty(), prev.3), step_prompts(v, sns[0]), step_prompts(v, sns[1]));
                        assert(prev.0.push((x@, ph@)).drop_last() =~= prev.0);
                    }
                },
                None => {
                    assert(sns.len() == 1);
                    proof {
                        lemma_insert_all_concat(Seq::empty(), prev.1, step_itself(v, sns[0]));
                        lemma_insert_all_concat(Seq::empty(), prev.2, step_states(v, pv, sns[0]));
                        lemma_insert_all_concat(Seq::empty(), prev.3, step_prompts(v, sns[0]));
                        assert(step_itself(v, sns[0]) + Seq::empty() =~= step_itself(v, sns[0]));
                        assert(step_states(v, pv, sns[0]) + Seq::empty() =~= step_states(v, pv, sns[0]));
                        assert(step_prompts(v, sns[0]) + Seq::empty() =~= step_prompts(v, sns[0]));
                        assert(prev.0.push((x@, ph@)).drop_last() =~= prev.0);
                    }
                },
            }
        }
    }
    let ghost parts = phase_parts(v, pv, pv.phases.len() as int);
    let n = states_len(&ir.states);
    let ghost s2 = view_entries(state_entries(states));
    for j in 0..n
        invariant
            v == ir@,
            n == v.states.len(),
            view_entries(state_entries(states)) == insert_all(s2, end_states(v.states, j as int)),
    {
        let ghost before = view_entries(state_entries(states));
        if let Some((name, st)) = states_at(&ir.states, j) {
            assert(v.states[j as int] == (name@, st@));
            if st.is_terminal() || st.is_escape() {
                let sd = st.duplicate();
                put_state(&mut states, name.clone(), sd);
                proof {
                    lemma_insert_all_one(before, name@, sd@);
                    lemma_insert_all_concat(s2, end_states(v.states, j as int), seq![(name@, sd@)]);
                }
            } else {
                proof {
                    lemma_insert_all_one(before, name@, st@);
                    lemma_insert_all_concat(s2, end_states(v.states, j as int), Seq::empty());
                    assert(end_states(v.states, j as int) + Seq::<(Seq<char>, StateV)>::empty() =~= end_states(v.states, j as int));
                }
            }
        }
    }
    proof {
        lemma_insert_all_concat(Seq::empty(), parts.2, end_states(v.states, v.states.len() as int));
    }
    let ghost s3 = view_entries(state_entries(states));
    let ghost pm = view_entries(prompt_entries(prompts));
    let m = prompts_len(&prompts);
    assert(add_targets(v.states, s3, Seq::empty()) == s3);
    for i in 0..m
        invariant
            v == ir@,
            m == pm.len(),
            pm == view_entries(prompt_entries(prompts)),
            view_entries(state_entries(states)) == add_targets(v.states, s3, outcome_targets(pm, i as int)),
    {
        if let Some((_, pf)) = prompts_at(&prompts, i) {
            assert(pm[i as int].1 == pf@);
            add_route_targets(ir, &mut states, &pf.success, Ghost(s3), Ghost(outcome_targets(pm, i as int)));
            let ghost mid = outcome_targets(pm, i as int) + pf@.success.map_values(|r: (Seq<char>, Seq<char>)| r.1);
            add_route_targets(ir, &mut states, &pf.failure, Ghost(s3), Ghost(mid));
        }
    }
    let mut profiles = profiles_new();
    let pd = profile.duplicate();
    proof {
        lemma_view_insert(profile_entries(profiles), profile_name@, pd);
    }
    profiles_insert(&mut profiles, String::from_str(profile_name), pd);
    assert(view_entries(profile_entries(profiles)) =~= seq![(profile_name@, pv)]);
    let sub = WorkflowIR {
        name: ir.name.clone(),
        version: ir.version,
        default_profile: crate::prompt::copy_opt(&ir.default_profile),
        states,
        steps,
        phases,
        profiles,
        wildcard_targets: crate::prompt::copy_strings(&ir.wildcard_targets),
        prompts,
    };
    assert(sub@ =~= profile_subgraph(v, profile_name@, pv));
    Some(sub)
}

/// Adds each target of `routes` that is a state of `ir` and not yet in `states`.
fn add_route_targets(
    ir: &WorkflowIR,
    states: &mut IndexMap<String, StateDef>,
    routes: &IndexMap<String, String>,
    Ghost(base): Ghost<Seq<(Seq<char>, StateV)>>,
    Ghost(done): Ghost<Seq<Seq<char>>>,
)
    requires
        view_entries(state_entries(*old(states))) == add_targets(ir@.states, base, done),
    ensures
        view_entries(state_entries(*final(states))) == add_targets(
            ir@.states,
            base,
            done + view_entries(outcome_entries(*routes)).map_values(|r: (Seq<char>, Seq<char>)| r.1),
        ),
{
    let ghost targets = view_entries(outcome_entries(*routes)).map_values(|r: (Seq<char>, Seq<char>)| r.1);
    let n = outcomes_len(routes);
    assert(done + targets.take(0) =~= done);
    for k in 0..n
        invariant
            n == targets.len(),
            targets == view_entries(outcome_entries(*routes)).map_values(|r: (Seq<char>, Seq<char>)| r.1),
            view_entries(state_entries(*states)) == add_targets(ir@.states, base, done + targets.take(k as int)),
    {
        let ghost prev = view_entries(state_entries(*states));
        if let Some((_, t)) = outcomes_at(routes, k) {
            assert(targets[k as int] == t@);
            assert((done + targets.take(k + 1)).drop_last() =~= done + targets.take(k as int));
            assert((done + targets.take(k + 1)).last() == t@);
            proof {
                lemma_view_keys(state_entries(*states), t@);
                lemma_view_keys(state_entries(ir.states), t@);
            }
            if states_get(states, t.as_str()).is_none() {
                if let Some(s) = states_get(&ir.states, t.as_str()) {
                    put_state(states, t.clone(), s.duplicate());
                }
            }
        }
    }
    assert(targets.take(n as int) =~= targets);
}

proof fn lemma_insert_all_has<V>(e: Seq<(Seq<char>, V)>, ins: Seq<(Seq<char>, V)>, i: int)
    requires
        0 <= i < ins.len(),
    ensures
        has_key(insert_all(e, ins), ins[i].0),
    decreases ins.len(),
{
    let k = ins[i].0;
    let last = ins.last();
    let prev = insert_all(e, ins.drop_last());
    lemma_insert_get(prev, last.0, last.1, k);
    if i < ins.len() - 1 {
        lemma_insert_all_has(e, ins.drop_last(), i);
        assert(map_get(prev, k) is Some);
    }
    assert(map_get(insert_all(e, ins), k) is Some);
}

proof fn lemma_end_states_has(s: Seq<(Seq<char>, StateV)>, n: int, i: int)
    requires
        0 <= i < n <= s.len(),
        s[i].1 is Terminal || s[i].1 is Escape,
    ensures
        exists|j: int| 0 <= j < end_states(s, n).len() && #[trigger] end_states(s, n)[j] == s[i],
    decreases n,
{
    if i < n - 1 {
        lemma_end_states_has(s, n - 1, i);
        let j = choose|j: int| 0 <= j < end_states(s, n - 1).len() && #[trigger] end_states(s, n - 1)[j] == s[i];
        assert(end_states(s, n)[j] == s[i]);
    } else {
        let j = end_states(s, n - 1).len() as int;
        assert(end_states(s, n)[j] == s[i]);
    }
}

proof fn lemma_add_targets_keeps(all: Seq<(Seq<char>, StateV)>, e: Seq<(Seq<char>, StateV)>, t: Seq<Seq<char>>, k: Seq<char>)
    requires
        has_key(e, k),
    ensures
        has_key(add_targets(all, e, t), k),
    decreases t.len(),
{
    if t.len() > 0 {
        lemma_add_targets_keeps(all, e, t.drop_last(), k);
        let prev = add_targets(all, e, t.drop_last());
        if !has_key(prev, t.last()) {
            if let Some(st) = map_get(all, t.last()) {
                lemma_insert_get(prev, t.last(), st, k);
                assert(map_get(prev, k) is Some);
            }
        }
    }
}

/// A profile's subgraph keeps every terminal and escape state of the workflow, whichever
/// phases the profile runs.
pub proof fn lemma_subgraph_keeps_end_states(v: IrV, pn: Seq<char>, pv: ProfileV, i: int)
    requires
        0 <= i < v.states.len(),
        v.states[i].1 is Terminal || v.states[i].1 is Escape,
    ensures
        has_key(profile_subgraph(v, pn, pv).states, v.states[i].0),
{
    let parts = phase_parts(v, pv, pv.phases.len() as int);
    let ends = end_states(v.states, v.states.len() as int);
    lemma_end_states_has(v.states, v.states.len() as int, i);
    let j = choose|j: int| 0 <= j < ends.len() && #[trigger] ends[j] == v.states[i];
    let all = parts.2 + ends;
    assert(all[parts.2.len() + j] == v.states[i]);
    lemma_insert_all_has(Seq::empty(), all, parts.2.len() + j);
    let prompts = insert_all(Seq::<(Seq<char>, PromptV)>::empty(), parts.3);
    lemma_add_targets_keeps(v.states, insert_all(Seq::empty(), all), outcome_targets(prompts, prompts.len() as int), v.states[i].0);
}


proof fn lemma_insert_all_from<V>(e: Seq<(Seq<char>, V)>, ins: Seq<(Seq<char>, V)>, k: Seq<char>)
    ensures
        map_get(insert_all(e, ins), k) matches Some(x) ==> map_get(e, k) == Some(x) || ins.contains((k, x)),
    decreases ins.len(),
{
    if ins.len() > 0 {
        lemma_insert_all_from(e, ins.drop_last(), k);
        lemma_insert_get(insert_all(e, ins.drop_last()), ins.last().0, ins.last().1, k);
        if let Some(x) = map_get(insert_all(e, ins), k) {
            if k == ins.last().0 {
                assert(ins[ins.len() - 1] == (k, x));
            } else if ins.drop_last().contains((k, x)) {
                let j = choose|j: int| 0 <= j < ins.drop_last().len() && ins.drop_last()[j] == (k, x);
                assert(ins[j] == (k, x));
            }
        }
    }
}

/// Each state that the first `n` phases bring in is a state of the workflow, and each
/// prompt they bring in is the workflow's prompt of that name.
proof fn lemma_phase_parts_within(v: IrV, pv: ProfileV, n: int)
    ensures
        forall|j: int| 0 <= j < phase_parts(v, pv, n).2.len() ==> map_get(v.states, (#[trigger] phase_parts(v, pv, n).2[j]).0) is Some,
        forall|j: int| 0 <= j < phase_parts(v, pv, n).3.len() ==> map_get(v.prompts, (#[trigger] phase_parts(v, pv, n).3[j]).0)
            == Some(phase_parts(v, pv, n).3[j].1),
    decreases n,
{
    if n > 0 {
        lemma_phase_parts_within(v, pv, n - 1);
    }
}

proof fn lemma_end_states_within(s: Seq<(Seq<char>, StateV)>, n: int)
    requires
        n <= s.len(),
    ensures
        forall|j: int| 0 <= j < end_states(s, n).len() ==> map_get(s, (#[trigger] end_states(s, n)[j]).0) is Some,
    decreases n,
{
    if n > 0 {
        lemma_end_states_within(s, n - 1);
        let prev = end_states(s, n - 1);
        assert forall|j: int| 0 <= j < end_states(s, n).len() implies map_get(s, (#[trigger] end_states(s, n)[j]).0) is Some by {
            if j < prev.len() {
                assert(end_states(s, n)[j] == prev[j]);
            } else {
                assert(end_states(s, n)[j] == s[n - 1]);
                assert(has_key(s, s[n - 1].0));
            }
        }
    }
}

proof fn lemma_add_targets_within(all: Seq<(Seq<char>, StateV)>, e: Seq<(Seq<char>, StateV)>, t: Seq<Seq<char>>, k: Seq<char>)
    ensures
        map_get(add_targets(all, e, t), k) is Some ==> map_get(e, k) is Some || map_get(all, k) is Some,
    decreases t.len(),
{
    if t.len() > 0 {
        lemma_add_targets_within(all, e, t.drop_last(), k);
        let prev = add_targets(all, e, t.drop_last());
        if !has_key(prev, t.last()) {
            if let Some(st) = map_get(all, t.last()) {
                lemma_insert_get(prev, t.last(), st, k);
            }
        }
    }
}

/// A profile's subgraph holds no state that the workflow does not hold, and each of its
/// prompts is the workflow's prompt of that name.
pub proof fn lemma_subgraph_within(v: IrV, pn: Seq<char>, pv: ProfileV, k: Seq<char>)
    ensures
        map_get(profile_subgraph(v, pn, pv).states, k) is Some ==> map_get(v.states, k) is Some,
        map_get(profile_subgraph(v, pn, pv).prompts, k) matches Some(x) ==> map_get(v.prompts, k) == Some(x),
{
    let parts = phase_parts(v, pv, pv.phases.len() as int);
    let ins = parts.2 + end_states(v.states, v.states.len() as int);
    let states = insert_all(Seq::empty(), ins);
    let prompts = insert_all(Seq::empty(), parts.3);
    lemma_phase_parts_within(v, pv, pv.phases.len() as int);
    lemma_end_states_within(v.states, v.states.len() as int);
    lemma_add_targets_within(v.states, states, outcome_targets(prompts, prompts.len() as int), k);
    if map_get(states, k) is Some {
        lemma_insert_all_from(Seq::<(Seq<char>, StateV)>::empty(), ins, k);
        let x = map_get(states, k)->0;
        let j = choose|j: int| 0 <= j < ins.len() && ins[j] == (k, x);
        if j < parts.2.len() {
            assert(ins[j] == parts.2[j]);
        } else {
            assert(ins[j] == end_states(v.states, v.states.len() as int)[j - parts.2.len()]);
        }
    }
    lemma_insert_all_from(Seq::<(Seq<char>, PromptV)>::empty(), parts.3, k);
    if let Some(x) = map_get(prompts, k) {
        let j = choose|j: int| 0 <= j < parts.3.len() && parts.3[j] == (k, x);
        assert(map_get(v.prompts, parts.3[j].0) == Some(parts.3[j].1));
    }
}

} // verus!
