//! The TOML interchange form of a workflow: one table per state, step, phase, profile and
//! prompt, in the order of the IR.
use vstd::prelude::*;
use crate::ir::{state_display, strings_view, ActionOverride, PhaseDef, ProfileDef, StateDef, StepDef, WorkflowIR};
use crate::parse::ast::{ActionOutput, ActionType, Constraint, Executor, GateKind};
use crate::prompt::{ParamDef, ParamType, PromptFile};
use crate::maps::{
    outcome_entries, outcomes_at, outcomes_len, override_entries, overrides_at, overrides_len,
    param_entries, params_at, params_len, phase_entries, phases_at, phases_len, profile_entries,
    profiles_at, profiles_len, prompt_entries, prompts_at, prompts_len, state_entries, states_at,
    states_len, step_entries, steps_at, steps_len,
};
use crate::text::{
    contains_text, escape_quotes, escape_quotes_of, lemma_contains_prefix, lemma_contains_within, nat_text, push_char,
    push_str, u64_text,
};

verus! {

broadcast use vstd::string::group_string_axioms;

/// `key = "value"` and a newline.
pub open spec fn ql(key: Seq<char>, v: Seq<char>) -> Seq<char> {
    key + " = \""@ + v + "\"\n"@
}

/// `[prefix` `name]` and a newline.
pub open spec fn table(prefix: Seq<char>, name: Seq<char>) -> Seq<char> {
    "["@ + prefix + name + "]\n"@
}

/// Each item in double quotes, followed by `, `.
pub open spec fn quoted_items(items: Seq<Seq<char>>) -> Seq<char>
    decreases items.len(),
{
    if items.len() == 0 {
        Seq::empty()
    } else {
        quoted_items(items.drop_last()) + "\""@ + items.last() + "\", "@
    }
}

pub open spec fn kind_word(st: StateDef) -> Seq<char> {
    match st {
        StateDef::Queue { .. } => "queue"@,
        StateDef::Action { .. } => "action"@,
        StateDef::Terminal { .. } => "terminal"@,
        StateDef::Escape { .. } => "escape"@,
    }
}

pub open spec fn executor_word(e: Executor) -> Seq<char> {
    match e {
        Executor::Agent => "agent"@,
        Executor::Human => "human"@,
    }
}

pub open spec fn gate_word(k: GateKind) -> Seq<char> {
    match k {
        GateKind::Approve => "approve"@,
        GateKind::Auth => "auth"@,
        GateKind::Review => "review"@,
    }
}

pub open spec fn constraint_word(c: Constraint) -> Seq<char> {
    match c {
        Constraint::ReadOnly => "read_only"@,
        Constraint::NoGitWrite => "no_git_write"@,
        Constraint::MetadataOnly => "metadata_only"@,
    }
}

pub open spec fn param_type_word(t: ParamType) -> Seq<char> {
    match t {
        ParamType::String => "string"@,
        ParamType::Int => "int"@,
        ParamType::Bool => "bool"@,
        ParamType::Enum => "enum"@,
    }
}

pub open spec fn bool_word(b: bool) -> Seq<char> {
    if b {
        "true"@
    } else {
        "false"@
    }
}

/// The `[workflow]` table.
pub open spec fn workflow_table(ir: WorkflowIR) -> Seq<char> {
    "[workflow]\n"@ + ql("name"@, ir.name@) + "version = "@ + nat_text(ir.version as nat) + "\n"@ + match ir.default_profile {
        Some(dp) => ql("default_profile"@, dp@),
        None => Seq::empty(),
    } + "\n"@
}

pub open spec fn output_lines(prefix: Seq<char>, o: Option<ActionOutput>) -> Seq<char> {
    match o {
        Some(o) => prefix + ql(".output_artifact"@, o.artifact_type@) + match o.access_hint {
            Some(h) => prefix + ql(".output_access_hint"@, h@),
            None => Seq::empty(),
        },
        None => Seq::empty(),
    }
}

pub open spec fn constraint_line(cs: Seq<Constraint>) -> Seq<char> {
    if cs.len() == 0 {
        Seq::empty()
    } else {
        "constraints = ["@ + quoted_items(cs.map_values(|c: Constraint| constraint_word(c))) + "]\n"@
    }
}

/// The lines that only an action state has.
pub open spec fn action_lines(st: StateDef) -> Seq<char> {
    match st {
        StateDef::Action { action_type, executor, prompt_name, output, constraints, .. } => ql(
            "action_type"@,
            match action_type {
                ActionType::Produce(_) => "produce"@,
                ActionType::Gate(..) => "gate"@,
            },
        ) + match action_type {
            ActionType::Gate(k, _) => ql("gate_kind"@, gate_word(k)),
            _ => Seq::empty(),
        } + ql("executor"@, executor_word(executor)) + ql("prompt"@, prompt_name@) + match output {
            Some(o) => ql("output_artifact"@, o.artifact_type@) + match o.access_hint {
                Some(h) => ql("output_access_hint"@, h@),
                None => Seq::empty(),
            },
            None => Seq::empty(),
        } + constraint_line(constraints@),
        _ => Seq::empty(),
    }
}

pub open spec fn state_table(name: Seq<char>, st: StateDef) -> Seq<char> {
    table("states."@, name) + ql("display_name"@, state_display(st)) + ql("kind"@, kind_word(st)) + action_lines(st)
        + "\n"@
}

pub open spec fn step_table(st: StepDef) -> Seq<char> {
    table("steps."@, st.name@) + ql("queue"@, st.queue@) + ql("action"@, st.action@) + "\n"@
}

pub open spec fn phase_table(p: PhaseDef) -> Seq<char> {
    table("phases."@, p.name@) + ql("produce"@, p.produce_step@) + match p.gate_step {
        Some(g) => ql("gate"@, g@),
        None => Seq::empty(),
    } + "\n"@
}

pub open spec fn override_lines(action: Seq<char>, o: ActionOverride) -> Seq<char> {
    (match o.executor {
        Some(e) => action + ql(".executor"@, executor_word(e)),
        None => Seq::empty(),
    }) + output_lines(action, o.output)
}

pub open spec fn overrides_text(e: Seq<(Seq<char>, ActionOverride)>) -> Seq<char>
    decreases e.len(),
{
    if e.len() == 0 {
        Seq::empty()
    } else {
        overrides_text(e.drop_last()) + override_lines(e.last().0, e.last().1)
    }
}

pub open spec fn profile_table(p: ProfileDef) -> Seq<char> {
    let ov = override_entries(p.overrides);
    table("profiles."@, p.name@) + match p.description {
        Some(d) => ql("description"@, d@),
        None => Seq::empty(),
    } + "phases = ["@ + quoted_items(strings_view(p.phases@)) + "]\n"@ + if ov.len() == 0 {
        Seq::empty()
    } else {
        "[profiles."@ + p.name@ + ".overrides]\n"@ + overrides_text(ov)
    } + "\n"@
}

pub open spec fn routes_text(e: Seq<(Seq<char>, String)>) -> Seq<char>
    decreases e.len(),
{
    if e.len() == 0 {
        Seq::empty()
    } else {
        routes_text(e.drop_last()) + ql(e.last().0, e.last().1@)
    }
}

pub open spec fn routes_table(pn: Seq<char>, which: Seq<char>, e: Seq<(Seq<char>, String)>) -> Seq<char> {
    if e.len() == 0 {
        Seq::empty()
    } else {
        "[prompts."@ + pn + which + "]\n"@ + routes_text(e)
    }
}

pub open spec fn body_block(body: Seq<char>) -> Seq<char> {
    if body.len() == 0 {
        Seq::empty()
    } else {
        "body = \"\"\"\n"@ + body + (if body.last() == '\n' {
            Seq::empty()
        } else {
            "\n"@
        }) + "\"\"\"\n"@
    }
}

pub open spec fn param_table(pn: Seq<char>, name: Seq<char>, d: ParamDef) -> Seq<char> {
    "[prompts."@ + pn + ".params."@ + name + "]\n"@ + ql("type"@, param_type_word(d.param_type)) + "required = "@
        + bool_word(d.required) + "\n"@ + (if d.values@.len() == 0 {
        Seq::empty()
    } else {
        "values = ["@ + quoted_items(strings_view(d.values@)) + "]\n"@
    }) + match d.default {
        Some(v) => ql("default"@, v@),
        None => Seq::empty(),
    } + match d.description {
        Some(v) => ql("description"@, escape_quotes(v@)),
        None => Seq::empty(),
    }
}

pub open spec fn params_text(pn: Seq<char>, e: Seq<(Seq<char>, ParamDef)>) -> Seq<char>
    decreases e.len(),
{
    if e.len() == 0 {
        Seq::empty()
    } else {
        params_text(pn, e.drop_last()) + param_table(pn, e.last().0, e.last().1)
    }
}

pub open spec fn prompt_table(pn: Seq<char>, p: PromptFile) -> Seq<char> {
    table("prompts."@, pn) + "accept = ["@ + quoted_items(strings_view(p.accept@).map_values(|a: Seq<char>| escape_quotes(a)))
        + "]\n"@ + routes_table(pn, ".success"@, outcome_entries(p.success)) + routes_table(
        pn,
        ".failure"@,
        outcome_entries(p.failure),
    ) + body_block(p.body@) + params_text(pn, param_entries(p.params)) + "\n"@
}

pub open spec fn state_tables(e: Seq<(Seq<char>, StateDef)>, n: int) -> Seq<char>
    decreases n,
{
    if n <= 0 {
        Seq::empty()
    } else {
        state_tables(e, n - 1) + state_table(e[n - 1].0, e[n - 1].1)
    }
}

pub open spec fn step_tables(e: Seq<(Seq<char>, StepDef)>, n: int) -> Seq<char>
    decreases n,
{
    if n <= 0 {
        Seq::empty()
    } else {
        step_tables(e, n - 1) + step_table(e[n - 1].1)
    }
}

pub open spec fn phase_tables(e: Seq<(Seq<char>, PhaseDef)>, n: int) -> Seq<char>
    decreases n,
{
    if n <= 0 {
        Seq::empty()
    } else {
        phase_tables(e, n - 1) + phase_table(e[n - 1].1)
    }
}

pub open spec fn profile_tables(e: Seq<(Seq<char>, ProfileDef)>, n: int) -> Seq<char>
    decreases n,
{
    if n <= 0 {
        Seq::empty()
    } else {
        profile_tables(e, n - 1) + profile_table(e[n - 1].1)
    }
}

pub open spec fn prompt_tables(e: Seq<(Seq<char>, PromptFile)>, n: int) -> Seq<char>
    decreases n,
{
    if n <= 0 {
        Seq::empty()
    } else {
        prompt_tables(e, n - 1) + prompt_table(e[n - 1].0, e[n - 1].1)
    }
}

/// The whole TOML text of a workflow.
pub open spec fn workflow_toml(ir: WorkflowIR) -> Seq<char> {
    let s = state_entries(ir.states);
    let t = step_entries(ir.steps);
    let h = phase_entries(ir.phases);
    let pr = profile_entries(ir.profiles);
    let p = prompt_entries(ir.prompts);
    workflow_table(ir) + state_tables(s, s.len() as int) + step_tables(t, t.len() as int) + phase_tables(h, h.len() as int)
        + profile_tables(pr, pr.len() as int) + prompt_tables(p, p.len() as int)
}


fn push_ql(out: &mut String, key: &str, v: &str)
    ensures
        final(out)@ == old(out)@ + ql(key@, v@),
{
    push_str(out, key);
    push_str(out, " = \"");
    push_str(out, v);
    push_str(out, "\"\n");
    assert(final(out)@ =~= old(out)@ + ql(key@, v@));
}

fn push_table(out: &mut String, prefix: &str, name: &str)
    ensures
        final(out)@ == old(out)@ + table(prefix@, name@),
{
    push_str(out, "[");
    push_str(out, prefix);
    push_str(out, name);
    push_str(out, "]\n");
    assert(final(out)@ =~= old(out)@ + table(prefix@, name@));
}

fn push_quoted_items(out: &mut String, items: &Vec<String>)
    ensures
        final(out)@ == old(out)@ + quoted_items(strings_view(items@)),
{
    let ghost o0 = out@;
    for i in 0..items.len()
        invariant
            out@ == o0 + quoted_items(strings_view(items@).take(i as int)),
    {
        push_str(out, "\"");
        push_str(out, items[i].as_str());
        push_str(out, "\", ");
        assert(strings_view(items@).take(i + 1).drop_last() =~= strings_view(items@).take(i as int));
        assert(out@ =~= o0 + quoted_items(strings_view(items@).take(i + 1)));
    }
    assert(strings_view(items@).take(items@.len() as int) =~= strings_view(items@));
}

fn kind_word_of(st: &StateDef) -> (r: &'static str)
    ensures
        r@ == kind_word(*st),
{
    match st {
        StateDef::Queue { .. } => "queue",
        StateDef::Action { .. } => "action",
        StateDef::Terminal { .. } => "terminal",
        StateDef::Escape { .. } => "escape",
    }
}

fn executor_word_of(e: Executor) -> (r: &'static str)
    ensures
        r@ == executor_word(e),
{
    match e {
        Executor::Agent => "agent",
        Executor::Human => "human",
    }
}

fn gate_word_of(k: GateKind) -> (r: &'static str)
    ensures
        r@ == gate_word(k),
{
    match k {
        GateKind::Approve => "approve",
        GateKind::Auth => "auth",
        GateKind::Review => "review",
    }
}

fn constraint_word_of(c: Constraint) -> (r: &'static str)
    ensures
        r@ == constraint_word(c),
{
    match c {
        Constraint::ReadOnly => "read_only",
        Constraint::NoGitWrite => "no_git_write",
        Constraint::MetadataOnly => "metadata_only",
    }
}

fn param_type_word_of(t: ParamType) -> (r: &'static str)
    ensures
        r@ == param_type_word(t),
{
    match t {
        ParamType::String => "string",
        ParamType::Int => "int",
        ParamType::Bool => "bool",
        ParamType::Enum => "enum",
    }
}

fn bool_word_of(b: bool) -> (r: &'static str)
    ensures
        r@ == bool_word(b),
{
    if b {
        "true"
    } else {
        "false"
    }
}

fn push_constraint_line(out: &mut String, cs: &Vec<Constraint>)
    ensures
        final(out)@ == old(out)@ + constraint_line(cs@),
{
    if cs.len() == 0 {
        return;
    }
    let ghost words = cs@.map_values(|c: Constraint| constraint_word(c));
    push_str(out, "constraints = [");
    let ghost o0 = out@;
    for i in 0..cs.len()
        invariant
            words == cs@.map_values(|c: Constraint| constraint_word(c)),
            out@ == o0 + quoted_items(words.take(i as int)),
    {
        push_str(out, "\"");
        push_str(out, constraint_word_of(cs[i]));
        push_str(out, "\", ");
        assert(words.take(i + 1).drop_last() =~= words.take(i as int));
        assert(out@ =~= o0 + quoted_items(words.take(i + 1)));
    }
    assert(words.take(cs@.len() as int) =~= words);
    push_str(out, "]\n");
    assert(final(out)@ =~= old(out)@ + constraint_line(cs@));
}

fn push_output_lines(out: &mut String, o: &Option<ActionOutput>)
    ensures
        final(out)@ == old(out)@ + match *o {
            Some(o) => ql("output_artifact"@, o.artifact_type@) + match o.access_hint {
                Some(h) => ql("output_access_hint"@, h@),
                None => Seq::empty(),
            },
            None => Seq::empty(),
        },
{
    let ghost o0 = out@;
    if let Some(o) = o {
        push_ql(out, "output_artifact", o.artifact_type.as_str());
        if let Some(h) = &o.access_hint {
            push_ql(out, "output_access_hint", h.as_str());
        }
    }
    assert(out@ =~= o0 + match *o {
        Some(o) => ql("output_artifact"@, o.artifact_type@) + match o.access_hint {
            Some(h) => ql("output_access_hint"@, h@),
            None => Seq::empty(),
        },
        None => Seq::empty(),
    });
}

#[verifier::spinoff_prover]
#[verifier::rlimit(60)]
fn push_action_lines(out: &mut String, st: &StateDef)
    ensures
        final(out)@ == old(out)@ + action_lines(*st),
{
    let ghost o0 = out@;
    if let StateDef::Action { action_type, executor, prompt_name, output, constraints, .. } = st {
        match action_type {
            ActionType::Produce(_) => push_ql(out, "action_type", "produce"),
            ActionType::Gate(k, _) => {
                push_ql(out, "action_type", "gate");
                push_ql(out, "gate_kind", gate_word_of(*k));
            },
        }
        let ghost o1 = out@;
        push_ql(out, "executor", executor_word_of(*executor));
        push_ql(out, "prompt", prompt_name.as_str());
        let ghost o2 = out@;
        push_output_lines(out, output);
        let ghost o3 = out@;
        push_constraint_line(out, constraints);
        assert(out@ =~= o0 + (o1.subrange(o0.len() as int, o1.len() as int) + o2.subrange(o1.len() as int, o2.len() as int)
            + o3.subrange(o2.len() as int, o3.len() as int) + constraint_line(constraints@)));
    }
}

fn push_state_table(out: &mut String, name: &String, st: &StateDef)
    ensures
        final(out)@ == old(out)@ + state_table(name@, *st),
{
    let ghost o0 = out@;
    push_table(out, "states.", name.as_str());
    push_ql(out, "display_name", st.display_name());
    push_ql(out, "kind", kind_word_of(st));
    push_action_lines(out, st);
    push_str(out, "\n");
    assert(final(out)@ =~= o0 + state_table(name@, *st));
}

fn push_step_table(out: &mut String, st: &StepDef)
    ensures
        final(out)@ == old(out)@ + step_table(*st),
{
    push_table(out, "steps.", st.name.as_str());
    push_ql(out, "queue", st.queue.as_str());
    push_ql(out, "action", st.action.as_str());
    push_str(out, "\n");
    assert(final(out)@ =~= old(out)@ + step_table(*st));
}

fn push_phase_table(out: &mut String, p: &PhaseDef)
    ensures
        final(out)@ == old(out)@ + phase_table(*p),
{
    push_table(out, "phases.", p.name.as_str());
    push_ql(out, "produce", p.produce_step.as_str());
    if let Some(g) = &p.gate_step {
        push_ql(out, "gate", g.as_str());
    }
    push_str(out, "\n");
    assert(final(out)@ =~= old(out)@ + phase_table(*p));
}


#[verifier::spinoff_prover]
#[verifier::rlimit(60)]
fn push_profile_table(out: &mut String, p: &ProfileDef)
    ensures
        final(out)@ == old(out)@ + profile_table(*p),
{
    let ghost o0 = out@;
    let ghost ov = override_entries(p.overrides);
    push_table(out, "profiles.", p.name.as_str());
    if let Some(d) = &p.description {
        push_ql(out, "description", d.as_str());
    }
    push_str(out, "phases = [");
    push_quoted_items(out, &p.phases);
    push_str(out, "]\n");
    let ghost o1 = out@;
    let n = overrides_len(&p.overrides);
    if n > 0 {
        push_str(out, "[profiles.");
        push_str(out, p.name.as_str());
        push_str(out, ".overrides]\n");
        let ghost o2 = out@;
        for i in 0..n
            invariant
                n == ov.len(),
                ov == override_entries(p.overrides),
                out@ == o2 + overrides_text(ov.take(i as int)),
        {
            if let Some((action, o)) = overrides_at(&p.overrides, i) {
                let ghost b = out@;
                if let Some(e) = o.executor {
                    push_str(out, action.as_str());
                    push_ql(out, ".executor", executor_word_of(e));
                }
                if let Some(oo) = &o.output {
                    push_str(out, action.as_str());
                    push_ql(out, ".output_artifact", oo.artifact_type.as_str());
                    if let Some(h) = &oo.access_hint {
                        push_str(out, action.as_str());
                        push_ql(out, ".output_access_hint", h.as_str());
                    }
                }
                assert(out@ =~= b + override_lines(action@, *o));
            }
            assert(ov.take(i + 1).drop_last() =~= ov.take(i as int));
            assert(out@ =~= o2 + overrides_text(ov.take(i + 1)));
        }
        assert(ov.take(n as int) =~= ov);
    }
    push_str(out, "\n");
    assert(final(out)@ =~= o0 + profile_table(*p));
}

fn push_routes_table(out: &mut String, pn: &String, which: &str, o: &indexmap::IndexMap<String, String>)
    ensures
        final(out)@ == old(out)@ + routes_table(pn@, which@, outcome_entries(*o)),
{
    let ghost e = outcome_entries(*o);
    let n = outcomes_len(o);
    if n == 0 {
        return;
    }
    let ghost o0 = out@;
    push_str(out, "[prompts.");
    push_str(out, pn.as_str());
    push_str(out, which);
    push_str(out, "]\n");
    let ghost o1 = out@;
    for i in 0..n
        invariant
            n == e.len(),
            e == outcome_entries(*o),
            out@ == o1 + routes_text(e.take(i as int)),
    {
        if let Some((k, v)) = outcomes_at(o, i) {
            push_ql(out, k.as_str(), v.as_str());
        }
        assert(e.take(i + 1).drop_last() =~= e.take(i as int));
        assert(out@ =~= o1 + routes_text(e.take(i + 1)));
    }
    assert(e.take(n as int) =~= e);
    assert(final(out)@ =~= o0 + routes_table(pn@, which@, e));
}

/// Whether `s` ends with a newline.
fn ends_with_newline(s: &str) -> (b: bool)
    ensures
        b == (s@.len() > 0 && s@.last() == '\n'),
{
    let cs = crate::text::chars_of(s);
    cs.len() > 0 && cs[cs.len() - 1] == '\n'
}

fn push_body_block(out: &mut String, body: &String)
    ensures
        final(out)@ == old(out)@ + body_block(body@),
{
    let ghost o0 = out@;
    if body.as_str().unicode_len() == 0 {
        return;
    }
    push_str(out, "body = \"\"\"\n");
    push_str(out, body.as_str());
    if !ends_with_newline(body.as_str()) {
        push_str(out, "\n");
    }
    push_str(out, "\"\"\"\n");
    assert(final(out)@ =~= o0 + body_block(body@));
}

#[verifier::spinoff_prover]
#[verifier::rlimit(60)]
fn push_param_table(out: &mut String, pn: &String, name: &String, d: &ParamDef)
    ensures
        final(out)@ == old(out)@ + param_table(pn@, name@, *d),
{
    let ghost o0 = out@;
    push_str(out, "[prompts.");
    push_str(out, pn.as_str());
    push_str(out, ".params.");
    push_str(out, name.as_str());
    push_str(out, "]\n");
    push_ql(out, "type", param_type_word_of(d.param_type));
    push_str(out, "required = ");
    push_str(out, bool_word_of(d.required));
    push_str(out, "\n");
    let ghost o1 = out@;
    if d.values.len() > 0 {
        push_str(out, "values = [");
        push_quoted_items(out, &d.values);
        push_str(out, "]\n");
    }
    let ghost o2 = out@;
    if let Some(v) = &d.default {
        push_ql(out, "default", v.as_str());
    }
    let ghost o3 = out@;
    if let Some(v) = &d.description {
        let escaped = escape_quotes_of(v.as_str());
        push_ql(out, "description", escaped.as_str());
    }
    assert(final(out)@ =~= o0 + param_table(pn@, name@, *d));
}

#[verifier::spinoff_prover]
#[verifier::rlimit(60)]
fn push_prompt_table(out: &mut String, pn: &String, p: &PromptFile)
    ensures
        final(out)@ == old(out)@ + prompt_table(pn@, *p),
{
    let ghost o0 = out@;
    let ghost acc = strings_view(p.accept@).map_values(|a: Seq<char>| escape_quotes(a));
    push_table(out, "prompts.", pn.as_str());
    push_str(out, "accept = [");
    let ghost o1 = out@;
    for i in 0..p.accept.len()
        invariant
            acc == strings_view(p.accept@).map_values(|a: Seq<char>| escape_quotes(a)),
            out@ == o1 + quoted_items(acc.take(i as int)),
    {
        let escaped = escape_quotes_of(p.accept[i].as_str());
        push_str(out, "\"");
        push_str(out, escaped.as_str());
        push_str(out, "\", ");
        assert(acc.take(i + 1).drop_last() =~= acc.take(i as int));
        assert(out@ =~= o1 + quoted_items(acc.take(i + 1)));
    }
    assert(acc.take(p.accept@.len() as int) =~= acc);
    push_str(out, "]\n");
    let ghost o2 = out@;
    push_routes_table(out, pn, ".success", &p.success);
    push_routes_table(out, pn, ".failure", &p.failure);
    push_body_block(out, &p.body);
    let ghost o3 = out@;
    let ghost pe = param_entries(p.params);
    let n = params_len(&p.params);
    for i in 0..n
        invariant
            n == pe.len(),
            pe == param_entries(p.params),
            out@ == o3 + params_text(pn@, pe.take(i as int)),
    {
        if let Some((name, d)) = params_at(&p.params, i) {
            push_param_table(out, pn, name, d);
        }
        assert(pe.take(i + 1).drop_last() =~= pe.take(i as int));
        assert(out@ =~= o3 + params_text(pn@, pe.take(i + 1)));
    }
    assert(pe.take(n as int) =~= pe);
    push_str(out, "\n");
    assert(final(out)@ =~= o0 + prompt_table(pn@, *p));
}


/// The workflow in the TOML interchange format.
#[verifier::spinoff_prover]
#[verifier::rlimit(60)]
pub fn emit_toml(ir: &WorkflowIR) -> (r: String)
    ensures
        r@ == workflow_toml(*ir),
{
    let mut out = String::new();
    push_str(&mut out, "[workflow]\n");
    push_ql(&mut out, "name", ir.name.as_str());
    push_str(&mut out, "version = ");
    let v = u64_text(ir.version as u64);
    push_str(&mut out, v.as_str());
    push_str(&mut out, "\n");
    if let Some(dp) = &ir.default_profile {
        push_ql(&mut out, "default_profile", dp.as_str());
    }
    push_str(&mut out, "\n");
    assert(out@ =~= workflow_table(*ir));
    let ghost o1 = out@;
    let ghost s = state_entries(ir.states);
    let n = states_len(&ir.states);
    for i in 0..n
        invariant
            n == s.len(),
            s == state_entries(ir.states),
            out@ == o1 + state_tables(s, i as int),
    {
        if let Some((name, st)) = states_at(&ir.states, i) {
            push_state_table(&mut out, name, st);
        }
        assert(out@ =~= o1 + state_tables(s, i + 1));
    }
    let ghost o2 = out@;
    let ghost t = step_entries(ir.steps);
    let n = steps_len(&ir.steps);
    for i in 0..n
        invariant
            n == t.len(),
            t == step_entries(ir.steps),
            out@ == o2 + step_tables(t, i as int),
    {
        if let Some((_, st)) = steps_at(&ir.steps, i) {
            push_step_table(&mut out, st);
        }
        assert(out@ =~= o2 + step_tables(t, i + 1));
    }
    let ghost o3 = out@;
    let ghost h = phase_entries(ir.phases);
    let n = phases_len(&ir.phases);
    for i in 0..n
        invariant
            n == h.len(),
            h == phase_entries(ir.phases),
            out@ == o3 + phase_tables(h, i as int),
    {
        if let Some((_, ph)) = phases_at(&ir.phases, i) {
            push_phase_table(&mut out, ph);
        }
        assert(out@ =~= o3 + phase_tables(h, i + 1));
    }
    let ghost o4 = out@;
    let ghost pr = profile_entries(ir.profiles);
    let n = profiles_len(&ir.profiles);
    for i in 0..n
        invariant
            n == pr.len(),
            pr == profile_entries(ir.profiles),
            out@ == o4 + profile_tables(pr, i as int),
    {
        if let Some((_, pf)) = profiles_at(&ir.profiles, i) {
            push_profile_table(&mut out, pf);
        }
        assert(out@ =~= o4 + profile_tables(pr, i + 1));
    }
    let ghost o5 = out@;
    let ghost p = prompt_entries(ir.prompts);
    let n = prompts_len(&ir.prompts);
    for i in 0..n
        invariant
            n == p.len(),
            p == prompt_entries(ir.prompts),
            out@ == o5 + prompt_tables(p, i as int),
    {
        if let Some((pn, pf)) = prompts_at(&ir.prompts, i) {
            push_prompt_table(&mut out, pn, pf);
        }
        assert(out@ =~= o5 + prompt_tables(p, i + 1));
    }
    assert(out@ =~= workflow_toml(*ir));
    out
}


proof fn lemma_state_tables_hold(e: Seq<(Seq<char>, StateDef)>, n: int, i: int)
    requires
        0 <= i < n <= e.len(),
    ensures
        contains_text(state_tables(e, n), table("states."@, e[i].0)),
    decreases n,
{
    if i < n - 1 {
        lemma_state_tables_hold(e, n - 1, i);
        lemma_contains_within(Seq::empty(), state_tables(e, n - 1), state_table(e[n - 1].0, e[n - 1].1), table("states."@, e[i].0));
        assert(Seq::<char>::empty() + state_tables(e, n - 1) + state_table(e[n - 1].0, e[n - 1].1) =~= state_tables(e, n));
    } else {
        let h = table("states."@, e[i].0);
        let st = state_table(e[i].0, e[i].1);
        let rest = st.subrange(h.len() as int, st.len() as int);
        assert(st =~= h + rest);
        lemma_contains_prefix(h, rest);
        lemma_contains_within(state_tables(e, n - 1), st, Seq::empty(), h);
        assert(state_tables(e, n - 1) + st + Seq::<char>::empty() =~= state_tables(e, n));
    }
}

proof fn lemma_profile_tables_hold(e: Seq<(Seq<char>, ProfileDef)>, n: int, i: int)
    requires
        0 <= i < n <= e.len(),
    ensures
        contains_text(profile_tables(e, n), table("profiles."@, e[i].1.name@)),
    decreases n,
{
    if i < n - 1 {
        lemma_profile_tables_hold(e, n - 1, i);
        lemma_contains_within(Seq::empty(), profile_tables(e, n - 1), profile_table(e[n - 1].1), table("profiles."@, e[i].1.name@));
        assert(Seq::<char>::empty() + profile_tables(e, n - 1) + profile_table(e[n - 1].1) =~= profile_tables(e, n));
    } else {
        let h = table("profiles."@, e[i].1.name@);
        let pt = profile_table(e[i].1);
        let rest = pt.subrange(h.len() as int, pt.len() as int);
        assert(pt =~= h + rest);
        lemma_contains_prefix(h, rest);
        lemma_contains_within(profile_tables(e, n - 1), pt, Seq::empty(), h);
        assert(profile_tables(e, n - 1) + pt + Seq::<char>::empty() =~= profile_tables(e, n));
    }
}

/// The TOML text of a workflow begins with its `[workflow]` table, holds a `[states.NAME]`
/// table for every state, and a `[profiles.NAME]` table for every profile.
pub proof fn lemma_toml_has_every_table(ir: WorkflowIR)
    ensures
        workflow_toml(ir).len() >= workflow_table(ir).len(),
        workflow_toml(ir).subrange(0, workflow_table(ir).len() as int) == workflow_table(ir),
        forall|i: int| 0 <= i < state_entries(ir.states).len() ==> contains_text(
            workflow_toml(ir),
            table("states."@, (#[trigger] state_entries(ir.states)[i]).0),
        ),
        forall|i: int| 0 <= i < profile_entries(ir.profiles).len() ==> contains_text(
            workflow_toml(ir),
            table("profiles."@, (#[trigger] profile_entries(ir.profiles)[i]).1.name@),
        ),
{
    let s = state_entries(ir.states);
    let t = step_entries(ir.steps);
    let h = phase_entries(ir.phases);
    let pr = profile_entries(ir.profiles);
    let p = prompt_entries(ir.prompts);
    let w = workflow_table(ir);
    let a = state_tables(s, s.len() as int);
    let b = step_tables(t, t.len() as int) + phase_tables(h, h.len() as int);
    let c = profile_tables(pr, pr.len() as int);
    let d = prompt_tables(p, p.len() as int);
    assert(workflow_toml(ir) =~= w + a + (b + c + d));
    assert(workflow_toml(ir).subrange(0, w.len() as int) =~= w);
    assert forall|i: int| 0 <= i < s.len() implies contains_text(workflow_toml(ir), table("states."@, (#[trigger] s[i]).0)) by {
        lemma_state_tables_hold(s, s.len() as int, i);
        lemma_contains_within(w, a, b + c + d, table("states."@, s[i].0));
    }
    assert(workflow_toml(ir) =~= (w + a + b) + c + d);
    assert forall|i: int| 0 <= i < pr.len() implies contains_text(workflow_toml(ir), table("profiles."@, (#[trigger] pr[i]).1.name@)) by {
        lemma_profile_tables_hold(pr, pr.len() as int, i);
        lemma_contains_within(w + a + b, c, d, table("profiles."@, pr[i].1.name@));
    }
}


/// The header of the table of parameter `name` of prompt `pn`.
pub open spec fn param_header(pn: Seq<char>, name: Seq<char>) -> Seq<char> {
    "[prompts."@ + pn + ".params."@ + name + "]\n"@
}

proof fn lemma_params_text_hold(pn: Seq<char>, e: Seq<(Seq<char>, ParamDef)>, j: int)
    requires
        0 <= j < e.len(),
    ensures
        contains_text(params_text(pn, e), param_header(pn, e[j].0)),
    decreases e.len(),
{
    let m = param_header(pn, e[j].0);
    let prev = params_text(pn, e.drop_last());
    let last = param_table(pn, e.last().0, e.last().1);
    if j < e.len() - 1 {
        assert(e.drop_last()[j] == e[j]);
        lemma_params_text_hold(pn, e.drop_last(), j);
        lemma_contains_within(Seq::empty(), prev, last, m);
        assert(Seq::<char>::empty() + prev + last =~= params_text(pn, e));
    } else {
        let rest = last.subrange(m.len() as int, last.len() as int);
        assert(last =~= m + rest);
        lemma_contains_prefix(m, rest);
        lemma_contains_within(prev, last, Seq::empty(), m);
        assert(prev + last + Seq::<char>::empty() =~= params_text(pn, e));
    }
}

proof fn lemma_prompt_tables_hold(e: Seq<(Seq<char>, PromptFile)>, n: int, i: int, j: int)
    requires
        0 <= i < n <= e.len(),
        0 <= j < param_entries(e[i].1.params).len(),
    ensures
        contains_text(prompt_tables(e, n), param_header(e[i].0, param_entries(e[i].1.params)[j].0)),
    decreases n,
{
    let m = param_header(e[i].0, param_entries(e[i].1.params)[j].0);
    let prev = prompt_tables(e, n - 1);
    let last = prompt_table(e[n - 1].0, e[n - 1].1);
    if i < n - 1 {
        lemma_prompt_tables_hold(e, n - 1, i, j);
        lemma_contains_within(Seq::empty(), prev, last, m);
        assert(Seq::<char>::empty() + prev + last =~= prompt_tables(e, n));
    } else {
        let (pn, pf) = e[i];
        let pt = params_text(pn, param_entries(pf.params));
        lemma_params_text_hold(pn, param_entries(pf.params), j);
        let front = table("prompts."@, pn) + "accept = ["@ + quoted_items(strings_view(pf.accept@).map_values(|a: Seq<char>| escape_quotes(a)))
            + "]\n"@ + routes_table(pn, ".success"@, outcome_entries(pf.success)) + routes_table(
            pn,
            ".failure"@,
            outcome_entries(pf.failure),
        ) + body_block(pf.body@);
        assert(last =~= front + pt + "\n"@);
        lemma_contains_within(front, pt, "\n"@, m);
        lemma_contains_within(prev, last, Seq::empty(), m);
        assert(prev + last + Seq::<char>::empty() =~= prompt_tables(e, n));
    }
}

/// The TOML text of a workflow holds a `[prompts.P.params.X]` table for every parameter
/// `X` of every prompt `P`.
pub proof fn lemma_toml_has_every_param_table(ir: WorkflowIR, i: int, j: int)
    requires
        0 <= i < prompt_entries(ir.prompts).len(),
        0 <= j < param_entries(prompt_entries(ir.prompts)[i].1.params).len(),
    ensures
        contains_text(
            workflow_toml(ir),
            param_header(prompt_entries(ir.prompts)[i].0, param_entries(prompt_entries(ir.prompts)[i].1.params)[j].0),
        ),
{
    let s = state_entries(ir.states);
    let t = step_entries(ir.steps);
    let h = phase_entries(ir.phases);
    let pr = profile_entries(ir.profiles);
    let p = prompt_entries(ir.prompts);
    let front = workflow_table(ir) + state_tables(s, s.len() as int) + step_tables(t, t.len() as int) + phase_tables(
        h,
        h.len() as int,
    ) + profile_tables(pr, pr.len() as int);
    let d = prompt_tables(p, p.len() as int);
    assert(workflow_toml(ir) =~= front + d + Seq::empty());
    lemma_prompt_tables_hold(p, p.len() as int, i, j);
    lemma_contains_within(front, d, Seq::empty(), param_header(p[i].0, param_entries(p[i].1.params)[j].0));
}


proof fn lemma_phase_tables_hold(e: Seq<(Seq<char>, PhaseDef)>, n: int, i: int)
    requires
        0 <= i < n <= e.len(),
    ensures
        contains_text(phase_tables(e, n), phase_table(e[i].1)),
    decreases n,
{
    let prev = phase_tables(e, n - 1);
    let last = phase_table(e[n - 1].1);
    if i < n - 1 {
        lemma_phase_tables_hold(e, n - 1, i);
        lemma_contains_within(Seq::empty(), prev, last, phase_table(e[i].1));
        assert(Seq::<char>::empty() + prev + last =~= phase_tables(e, n));
    } else {
        lemma_contains_prefix(last, Seq::empty());
        assert(last + Seq::<char>::empty() =~= last);
        lemma_contains_within(prev, last, Seq::empty(), last);
        assert(prev + last + Seq::<char>::empty() =~= phase_tables(e, n));
    }
}

/// The TOML text of a workflow holds, for every phase, its table: the `[phases.NAME]`
/// header, the line `produce = "STEP"`, then, where the phase has a gate step, the line
/// `gate = "STEP"`, and a blank line.
pub proof fn lemma_toml_has_every_phase(ir: WorkflowIR, i: int)
    requires
        0 <= i < phase_entries(ir.phases).len(),
    ensures
        contains_text(
            workflow_toml(ir),
            "["@ + "phases."@ + phase_entries(ir.phases)[i].1.name@ + "]\n"@ + "produce"@ + " = \""@
                + phase_entries(ir.phases)[i].1.produce_step@ + "\"\n"@ + match phase_entries(ir.phases)[i].1.gate_step {
                Some(g) => "gate"@ + " = \""@ + g@ + "\"\n"@,
                None => Seq::<char>::empty(),
            } + "\n"@,
        ),
{
    let s = state_entries(ir.states);
    let t = step_entries(ir.steps);
    let h = phase_entries(ir.phases);
    let pr = profile_entries(ir.profiles);
    let p = prompt_entries(ir.prompts);
    let front = workflow_table(ir) + state_tables(s, s.len() as int) + step_tables(t, t.len() as int);
    let mid = phase_tables(h, h.len() as int);
    let back = profile_tables(pr, pr.len() as int) + prompt_tables(p, p.len() as int);
    assert(workflow_toml(ir) =~= front + mid + back);
    lemma_phase_tables_hold(h, h.len() as int, i);
    let pt = phase_table(h[i].1);
    let want = "["@ + "phases."@ + h[i].1.name@ + "]\n"@ + "produce"@ + " = \""@ + h[i].1.produce_step@ + "\"\n"@ + match h[i].1.gate_step {
        Some(g) => "gate"@ + " = \""@ + g@ + "\"\n"@,
        None => Seq::<char>::empty(),
    } + "\n"@;
    assert(pt =~= want);
    lemma_contains_within(front, mid, back, want);
}

} // verus!
