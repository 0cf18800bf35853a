use vstd::prelude::*;

pub mod text;
pub mod error;
pub mod parse;
pub mod prompt;
pub mod ir;
pub mod maps;
pub mod lower;
pub mod graph;
pub mod codegen;
pub mod sim;
pub mod diff;
pub mod compat;
pub mod templates;
pub mod init;
pub mod release;
pub mod config;
pub mod install;
pub mod version;
pub mod doctor;

use crate::error::{errors_view, error_text, warnings_view, Diagnostics, ErrorV, LoomError};
use crate::graph::{
    find_prompt_user, graph_fits, graph_size_ok, lemma_size_bounded_view, prompt_user, view_size_bounded,
};
use crate::graph::profile::{extract_profile_subgraph, profile_subgraph};
use crate::graph::validate::{validate, validation_errors, validation_warnings};
use crate::ir::{strings_view, ProfileDef, WorkflowIR};
use crate::maps::{
    map_get, phase_entries, phases_len, profile_entries, profiles_at, profiles_len, state_entries, states_len, step_entries,
    steps_len, has_key, view_entries,
};
use crate::text::{nat_text, push_str, u64_text};

verus! {

/// The orphan errors for the first `n` prompt files: each file that no action runs.
pub open spec fn orphan_errors(ir: WorkflowIR, stems: Seq<Seq<char>>, n: int) -> Seq<ErrorV>
    decreases n,
{
    if n <= 0 {
        Seq::empty()
    } else {
        let s = state_entries(ir.states);
        orphan_errors(ir, stems, n - 1) + if prompt_user(s, stems[n - 1], s.len() as int) is Some {
            Seq::empty()
        } else {
            seq![ErrorV::OrphanedPrompt { name: stems[n - 1] }]
        }
    }
}

/// Reports each prompt file (named by `stems`, the file names without `.md`) that no action
/// runs.
pub fn check_orphaned_prompts(ir: &WorkflowIR, stems: &Vec<String>, diag: &mut Diagnostics)
    ensures
        errors_view(final(diag).errors@) == errors_view(old(diag).errors@) + orphan_errors(*ir, strings_view(stems@), stems@.len() as int),
        final(diag).warnings@ == old(diag).warnings@,
{
    let ghost e0 = errors_view(diag.errors@);
    let ghost sv = strings_view(stems@);
    for i in 0..stems.len()
        invariant
            sv == strings_view(stems@),
            errors_view(diag.errors@) == e0 + orphan_errors(*ir, sv, i as int),
            diag.warnings@ == old(diag).warnings@,
    {
        let ghost before = errors_view(diag.errors@);
        assert(sv[i as int] == stems@[i as int]@);
        let ghost st = state_entries(ir.states);
        if find_prompt_user(ir, &stems[i]).is_none() {
            diag.error(LoomError::OrphanedPrompt { name: stems[i].clone() });
            assert(errors_view(diag.errors@) =~= before.push(ErrorV::OrphanedPrompt { name: sv[i as int] }));
        }
        assert(orphan_errors(*ir, sv, i + 1) == orphan_errors(*ir, sv, i as int) + if prompt_user(st, sv[i as int], st.len() as int) is Some {
            Seq::<ErrorV>::empty()
        } else {
            seq![ErrorV::OrphanedPrompt { name: sv[i as int] }]
        });
        assert(errors_view(diag.errors@) =~= e0 + orphan_errors(*ir, sv, i + 1));
    }
}

/// The errors of one profile's own check, each as a profile validation error.
pub open spec fn profile_errors(profile: Seq<char>, errs: Seq<ErrorV>) -> Seq<ErrorV> {
    errs.map_values(|e: ErrorV| ErrorV::ProfileValidation { profile, message: error_text(e) })
}

/// The profile errors of the first `n` profiles, given the subgraph checked for each (none
/// where it was skipped).
pub open spec fn all_profile_errors(p: Seq<(Seq<char>, ProfileDef)>, subs: Seq<Option<WorkflowIR>>, n: int) -> Seq<ErrorV>
    decreases n,
{
    if n <= 0 {
        Seq::empty()
    } else {
        all_profile_errors(p, subs, n - 1) + match subs[n - 1] {
            Some(sub) => profile_errors(p[n - 1].0, validation_errors(sub)),
            None => Seq::empty(),
        }
    }
}

/// The subgraph of the profile named `name`, as a value, where the profile exists.
pub open spec fn subgraph_of(ir: WorkflowIR, name: Seq<char>) -> Option<crate::ir::IrV> {
    match map_get(ir@.profiles, name) {
        Some(pv) => Some(profile_subgraph(ir@, name, pv)),
        None => None,
    }
}

/// Whether `es` are the profile errors of a workflow: for each profile in order, the errors
/// of its subgraph's own check, where the subgraph is within the size bound of
/// `graph_size_ok`; a profile whose subgraph is not is skipped.
pub open spec fn checked_profiles(ir: WorkflowIR, es: Seq<ErrorV>) -> bool {
    exists|subs: Seq<Option<WorkflowIR>>| {
        &&& subs.len() == profile_entries(ir.profiles).len()
        &&& forall|i: int| 0 <= i < subs.len() ==> match #[trigger] subs[i] {
            Some(sub) => subgraph_of(ir, profile_entries(ir.profiles)[i].0) == Some(sub@) && graph_fits(sub)
                && view_size_bounded(sub@),
            None => subgraph_of(ir, profile_entries(ir.profiles)[i].0) matches Some(v) && !view_size_bounded(v),
        }
        &&& es == all_profile_errors(profile_entries(ir.profiles), subs, subs.len() as int)
    }
}

/// Validates the subgraph of each profile on its own and reports its errors as profile
/// validation errors. A subgraph beyond the size bound of `graph_size_ok` (too large for the
/// graph's `u32` indices) is skipped.
pub fn validate_profiles(ir: &WorkflowIR) -> (r: Vec<LoomError>)
    ensures
        checked_profiles(*ir, errors_view(r@)),
{
    let ghost p = profile_entries(ir.profiles);
    let ghost mut subs: Seq<Option<WorkflowIR>> = Seq::empty();
    let mut r: Vec<LoomError> = Vec::new();
    let n = profiles_len(&ir.profiles);
    for i in 0..n
        invariant
            n == p.len(),
            p == profile_entries(ir.profiles),
            subs.len() == i,
            forall|k: int| 0 <= k < subs.len() ==> match #[trigger] subs[k] {
                Some(sub) => subgraph_of(*ir, p[k].0) == Some(sub@) && graph_fits(sub) && view_size_bounded(sub@),
                None => subgraph_of(*ir, p[k].0) matches Some(v) && !view_size_bounded(v),
            },
            errors_view(r@) == all_profile_errors(p, subs, i as int),
    {
        let ghost before = errors_view(r@);
        let ghost mut checked: Option<WorkflowIR> = None;
        if let Some((name, _)) = profiles_at(&ir.profiles, i) {
            proof {
                assert(view_entries(p)[i as int].0 == p[i as int].0);
                assert(has_key(ir@.profiles, name@));
            }
            if let Some(sub) = extract_profile_subgraph(ir, name.as_str()) {
                proof {
                    lemma_size_bounded_view(sub);
                }
                if graph_size_ok(&sub) {
                    let d = validate(&sub);
                    proof {
                        checked = Some(sub);
                    }
                    let ghost dv = errors_view(d.errors@);
                    for j in 0..d.errors.len()
                        invariant
                            dv == errors_view(d.errors@),
                            errors_view(r@) == before + profile_errors(name@, dv.take(j as int)),
                    {
                        let msg = d.errors[j].message();
                        let ghost b2 = errors_view(r@);
                        r.push(LoomError::ProfileValidation { profile: name.clone(), message: msg });
                        assert(errors_view(r@) =~= b2.push(ErrorV::ProfileValidation { profile: name@, message: error_text(dv[j as int]) }));
                        assert(profile_errors(name@, dv.take(j + 1)) =~= profile_errors(name@, dv.take(j as int)).push(
                            ErrorV::ProfileValidation { profile: name@, message: error_text(dv[j as int]) },
                        ));
                    }
                    assert(dv.take(d.errors@.len() as int) =~= dv);
                }
            }
        }
        proof {
            let old_subs = subs;
            subs = subs.push(checked);
            assert(all_profile_errors(p, subs, i as int) == all_profile_errors(p, old_subs, i as int)) by {
                lemma_profile_errors_prefix(p, old_subs, subs, i as int);
            }
        }
        assert(errors_view(r@) =~= all_profile_errors(p, subs, i + 1));
    }
    r
}

proof fn lemma_profile_errors_prefix(p: Seq<(Seq<char>, ProfileDef)>, a: Seq<Option<WorkflowIR>>, b: Seq<Option<WorkflowIR>>, n: int)
    requires
        0 <= n <= a.len(),
        n <= b.len(),
        forall|k: int| 0 <= k < n ==> a[k] == b[k],
    ensures
        all_profile_errors(p, a, n) == all_profile_errors(p, b, n),
    decreases n,
{
    if n > 0 {
        lemma_profile_errors_prefix(p, a, b, n - 1);
    }
}

/// The line `loom validate` prints for a workflow that passes: its name, version, and how
/// many states, steps, phases and profiles it has.
pub open spec fn summary_text(ir: WorkflowIR) -> Seq<char> {
    "ok: "@ + ir.name@ + " v"@ + nat_text(ir.version as nat) + " ("@ + nat_text(state_entries(ir.states).len())
        + " states, "@ + nat_text(step_entries(ir.steps).len()) + " steps, "@ + nat_text(phase_entries(ir.phases).len())
        + " phases, "@ + nat_text(profile_entries(ir.profiles).len()) + " profiles)"@
}

/// The line printed for a workflow that passes validation.
pub fn validation_summary(ir: &WorkflowIR) -> (r: String)
    ensures
        r@ == summary_text(*ir),
{
    let mut m = String::from_str("ok: ");
    push_str(&mut m, ir.name.as_str());
    push_str(&mut m, " v");
    push_str(&mut m, u64_text(ir.version as u64).as_str());
    push_str(&mut m, " (");
    push_str(&mut m, u64_text(states_len(&ir.states) as u64).as_str());
    push_str(&mut m, " states, ");
    push_str(&mut m, u64_text(steps_len(&ir.steps) as u64).as_str());
    push_str(&mut m, " steps, ");
    push_str(&mut m, u64_text(phases_len(&ir.phases) as u64).as_str());
    push_str(&mut m, " phases, ");
    push_str(&mut m, u64_text(profiles_len(&ir.profiles) as u64).as_str());
    push_str(&mut m, " profiles)");
    m
}

/// Validates a lowered workflow, after the errors and warnings of lowering in `diag`: each
/// prompt file (named by `stems`) that no action runs, the checks of the whole graph, then the
/// checks of each profile's subgraph. Only the whole graph's check gives warnings.
pub fn validate_lowered(ir: &WorkflowIR, stems: &Vec<String>, diag: &mut Diagnostics)
    requires
        graph_fits(*ir),
    ensures
        exists|pe: Seq<ErrorV>| {
            &&& checked_profiles(*ir, pe)
            &&& errors_view(final(diag).errors@) == errors_view(old(diag).errors@) + orphan_errors(
                *ir,
                strings_view(stems@),
                stems@.len() as int,
            ) + validation_errors(*ir) + pe
        },
        warnings_view(final(diag).warnings@) == warnings_view(old(diag).warnings@) + validation_warnings(*ir),
{
    check_orphaned_prompts(ir, stems, diag);
    let ghost e1 = diag.errors@;
    let ghost w1 = diag.warnings@;
    let checks = validate(ir);
    let ghost ce = checks.errors@;
    let ghost cw = checks.warnings@;
    diag.merge(checks);
    let ghost e2 = diag.errors@;
    let profile_errs = validate_profiles(ir);
    let ghost pe = profile_errs@;
    diag.merge(Diagnostics { errors: profile_errs, warnings: Vec::new() });
    proof {
        assert(errors_view(e1 + ce) =~= errors_view(e1) + errors_view(ce));
        assert(errors_view(e2 + pe) =~= errors_view(e2) + errors_view(pe));
        assert(warnings_view(w1 + cw) =~= warnings_view(w1) + warnings_view(cw));
        assert(diag.warnings@ =~= w1 + cw);
    }
}

} // verus!
