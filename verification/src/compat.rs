//! Backward compatibility between two versions of a workflow: each structural change is
//! safe, breaking, or needs a migration.
use vstd::prelude::*;
use crate::diff::{lemma_diff_self_empty, changes_view, diff_workflows, workflow_changes, Change, ChangeKind, ChangeV};
use crate::ir::{ir_valid, opt_view, WorkflowIR};
use crate::maps::{has_key, state_entries, states_at, states_get, states_len};
use crate::text::{nat_text, push_str, str_equal, str_starts_with, u64_text};

verus! {

broadcast use vstd::string::group_string_axioms;

/// How a change affects existing work.
#[derive(Debug, Clone, Copy, PartialEq, Eq, Structural)]
pub enum Severity {
    Safe,
    Breaking,
    MigrationRequired,
}

/// A change with its severity.
#[derive(Debug)]
pub struct CompatChange {
    pub severity: Severity,
    pub category: String,
    pub name: String,
    pub detail: String,
}

/// A compatibility change as a value: (severity, category, name, detail).
pub type CompatV = (Severity, Seq<char>, Seq<char>, Seq<char>);

impl View for CompatChange {
    type V = CompatV;

    open spec fn view(&self) -> CompatV {
        (self.severity, self.category@, self.name@, self.detail@)
    }
}

/// The result of a compatibility check.
#[derive(Debug)]
pub struct CompatResult {
    pub changes: Vec<CompatChange>,
    pub is_compatible: bool,
}

/// The severity of a change: additions are safe; removals break; of the other changes,
/// outcome re-routing needs a migration, a state's new display name is safe while any other
/// change of a state breaks, and the rest need a migration.
pub open spec fn severity_of(c: ChangeV) -> Severity {
    match c.0 {
        ChangeKind::Added => Severity::Safe,
        ChangeKind::Removed => Severity::Breaking,
        ChangeKind::Changed => changed_severity(c),
    }
}

/// The severity of a change read as a change of an item, by its category and detail.
pub open spec fn changed_severity(c: ChangeV) -> Severity {
    if c.1 == "outcome"@ {
        Severity::MigrationRequired
    } else if c.1 == "state"@ {
        match c.3 {
            Some(d) => if "display_name"@.len() <= d.len() && d.subrange(0, "display_name"@.len() as int)
                == "display_name"@ {
                Severity::Safe
            } else {
                Severity::Breaking
            },
            None => Severity::Breaking,
        }
    } else {
        Severity::MigrationRequired
    }
}

/// The severity of a change read as a changed item (whatever its kind), by its category
/// and detail.
pub fn classify_changed(change: &Change) -> (s: Severity)
    ensures
        s == changed_severity(change@),
{
    if str_equal(change.category.as_str(), "outcome") {
        Severity::MigrationRequired
    } else if str_equal(change.category.as_str(), "state") {
        match &change.detail {
            Some(d) => if str_starts_with(d.as_str(), "display_name") {
                Severity::Safe
            } else {
                Severity::Breaking
            },
            None => Severity::Breaking,
        }
    } else {
        Severity::MigrationRequired
    }
}

/// The severity of a change.
pub fn classify_change(change: &Change) -> (s: Severity)
    ensures
        s == severity_of(change@),
        change.kind == ChangeKind::Added ==> s == Severity::Safe,
        change.kind == ChangeKind::Removed ==> s == Severity::Breaking,
{
    match change.kind {
        ChangeKind::Added => Severity::Safe,
        ChangeKind::Removed => Severity::Breaking,
        ChangeKind::Changed => classify_changed(change),
    }
}

/// A change with its severity; no detail becomes an empty one.
pub open spec fn compat_of(c: ChangeV) -> CompatV {
    (severity_of(c), c.1, c.2, match c.3 {
        Some(d) => d,
        None => Seq::empty(),
    })
}

/// Compatible: no change breaks or needs a migration.
pub open spec fn compatible(cs: Seq<CompatV>) -> bool {
    forall|i: int| 0 <= i < cs.len() ==> (#[trigger] cs[i]).0 == Severity::Safe
}

pub open spec fn compat_view(v: Seq<CompatChange>) -> Seq<CompatV> {
    v.map_values(|c: CompatChange| c@)
}

/// Checks backward compatibility from `old_ir` to `new_ir`: every change of
/// `diff_workflows` with its severity, and whether all of them are safe.
pub fn check_compat(old_ir: &WorkflowIR, new_ir: &WorkflowIR) -> (r: CompatResult)
    ensures
        compat_view(r.changes@) == workflow_changes(*old_ir, *new_ir).map_values(|c: ChangeV| compat_of(c)),
        r.is_compatible == compatible(compat_view(r.changes@)),
        *old_ir == *new_ir ==> r.is_compatible && r.changes@.len() == 0,
{
    let diff_changes = diff_workflows(old_ir, new_ir);
    let ghost dv = changes_view(diff_changes@);
    let mut changes: Vec<CompatChange> = Vec::new();
    let mut is_compatible = true;
    for i in 0..diff_changes.len()
        invariant
            dv == changes_view(diff_changes@),
            compat_view(changes@) == dv.take(i as int).map_values(|c: ChangeV| compat_of(c)),
            is_compatible == compatible(compat_view(changes@)),
    {
        let change = &diff_changes[i];
        assert(dv[i as int] == change@);
        let severity = classify_change(change);
        let detail = match &change.detail {
            Some(d) => d.clone(),
            None => String::new(),
        };
        let ghost before = compat_view(changes@);
        changes.push(CompatChange { severity, category: change.category.clone(), name: change.name.clone(), detail });
        if !(severity == Severity::Safe) {
            is_compatible = false;
        }
        assert(compat_view(changes@) =~= before.push(compat_of(dv[i as int])));
        assert(dv.take(i + 1) =~= dv.take(i as int).push(dv[i as int]));
        assert(compat_view(changes@) =~= dv.take(i + 1).map_values(|c: ChangeV| compat_of(c)));
        proof {
            if is_compatible {
                assert forall|j: int| 0 <= j < compat_view(changes@).len() implies (#[trigger] compat_view(changes@)[j]).0
                    == Severity::Safe by {
                    if j < before.len() {
                        assert(compat_view(changes@)[j] == before[j]);
                    }
                }
            } else if severity != Severity::Safe {
                assert(compat_view(changes@)[i as int].0 != Severity::Safe);
            } else {
                let j = choose|j: int| 0 <= j < before.len() && (#[trigger] before[j]).0 != Severity::Safe;
                assert(compat_view(changes@)[j] == before[j]);
            }
        }
    }
    assert(dv.take(diff_changes@.len() as int) =~= dv);
    CompatResult { changes, is_compatible }
}


/// A severity as a word: `safe`, `breaking` or `migration`.
pub open spec fn severity_word(s: Severity) -> Seq<char> {
    match s {
        Severity::Safe => "safe"@,
        Severity::Breaking => "breaking"@,
        Severity::MigrationRequired => "migration"@,
    }
}

impl Severity {
    /// The severity as a word.
    pub fn display_text(&self) -> (r: String)
        ensures
            r@ == severity_word(*self),
    {
        String::from_str(match self {
            Severity::Safe => "safe",
            Severity::Breaking => "breaking",
            Severity::MigrationRequired => "migration",
        })
    }
}

/// The changes of severity `s` among the first `n`.
pub open spec fn of_severity(cs: Seq<CompatV>, s: Severity, n: int) -> Seq<CompatV>
    decreases n,
{
    if n <= 0 {
        Seq::empty()
    } else {
        of_severity(cs, s, n - 1) + if cs[n - 1].0 == s {
            seq![cs[n - 1]]
        } else {
            Seq::empty()
        }
    }
}

/// A classified change as a line.
pub open spec fn compat_line(c: CompatV) -> Seq<char> {
    "  "@ + match c.0 {
        Severity::Safe => "+"@,
        Severity::Breaking => "-"@,
        Severity::MigrationRequired => "~"@,
    } + " "@ + c.1 + ": "@ + c.2 + (if c.3.len() == 0 {
        Seq::empty()
    } else {
        " ("@ + c.3 + ")"@
    }) + "\n"@
}

pub open spec fn compat_lines(cs: Seq<CompatV>) -> Seq<char>
    decreases cs.len(),
{
    if cs.len() == 0 {
        Seq::empty()
    } else {
        compat_lines(cs.drop_last()) + compat_line(cs.last())
    }
}

/// The group of severity `s`: a count line and a line per change, then a blank line.
pub open spec fn severity_group(cs: Seq<CompatV>, s: Severity) -> Seq<char> {
    let m = of_severity(cs, s, cs.len() as int);
    if m.len() == 0 {
        Seq::empty()
    } else {
        severity_word(s) + ": "@ + nat_text(m.len()) + " change(s)\n"@ + compat_lines(m) + "\n"@
    }
}

/// The text of a compatibility check.
pub open spec fn compat_text(cs: Seq<CompatV>, is_compatible: bool) -> Seq<char> {
    if cs.len() == 0 {
        "No changes detected. Fully compatible.\n"@
    } else {
        severity_group(cs, Severity::Safe) + severity_group(cs, Severity::Breaking) + severity_group(
            cs,
            Severity::MigrationRequired,
        ) + if is_compatible {
            "Result: backward compatible\n"@
        } else {
            "Result: NOT backward compatible ("@ + nat_text(of_severity(cs, Severity::Breaking, cs.len() as int).len())
                + " breaking, "@ + nat_text(of_severity(cs, Severity::MigrationRequired, cs.len() as int).len())
                + " migration)\n"@
        }
    }
}

fn compat_line_of(c: &CompatChange) -> (r: String)
    ensures
        r@ == compat_line(c@),
{
    let mut s = String::from_str("  ");
    push_str(&mut s, match c.severity {
        Severity::Safe => "+",
        Severity::Breaking => "-",
        Severity::MigrationRequired => "~",
    });
    push_str(&mut s, " ");
    push_str(&mut s, c.category.as_str());
    push_str(&mut s, ": ");
    push_str(&mut s, c.name.as_str());
    if c.detail.as_str().unicode_len() != 0 {
        push_str(&mut s, " (");
        push_str(&mut s, c.detail.as_str());
        push_str(&mut s, ")");
    }
    push_str(&mut s, "\n");
    assert(s@ =~= compat_line(c@));
    s
}

/// The changes of severity `s`, their count, and their lines.
fn severity_lines(changes: &Vec<CompatChange>, s: Severity) -> (r: (usize, String))
    ensures
        r.0 == of_severity(compat_view(changes@), s, changes@.len() as int).len(),
        r.1@ == compat_lines(of_severity(compat_view(changes@), s, changes@.len() as int)),
{
    let ghost cs = compat_view(changes@);
    let mut count: usize = 0;
    let mut lines = String::new();
    for i in 0..changes.len()
        invariant
            cs == compat_view(changes@),
            count == of_severity(cs, s, i as int).len(),
            count <= i,
            lines@ == compat_lines(of_severity(cs, s, i as int)),
    {
        assert(cs[i as int] == changes@[i as int]@);
        if changes[i].severity == s {
            let line = compat_line_of(&changes[i]);
            push_str(&mut lines, line.as_str());
            count = count + 1;
            assert(of_severity(cs, s, i + 1) == of_severity(cs, s, i as int).push(cs[i as int]));
            assert(of_severity(cs, s, i + 1).drop_last() =~= of_severity(cs, s, i as int));
        } else {
            assert(of_severity(cs, s, i + 1) =~= of_severity(cs, s, i as int));
        }
    }
    (count, lines)
}

fn push_severity_group(out: &mut String, changes: &Vec<CompatChange>, s: Severity) -> (count: usize)
    ensures
        final(out)@ == old(out)@ + severity_group(compat_view(changes@), s),
        count == of_severity(compat_view(changes@), s, changes@.len() as int).len(),
{
    let (count, lines) = severity_lines(changes, s);
    if count > 0 {
        let ghost o0 = out@;
        let w = s.display_text();
        push_str(out, w.as_str());
        push_str(out, ": ");
        let c = u64_text(count as u64);
        push_str(out, c.as_str());
        push_str(out, " change(s)\n");
        push_str(out, lines.as_str());
        push_str(out, "\n");
        assert(out@ =~= o0 + severity_group(compat_view(changes@), s));
    }
    count
}

/// The result of a compatibility check as text: the changes grouped by severity, then the
/// verdict.
pub fn format_compat(result: &CompatResult) -> (r: String)
    ensures
        r@ == compat_text(compat_view(result.changes@), result.is_compatible),
{
    if result.changes.len() == 0 {
        return String::from_str("No changes detected. Fully compatible.\n");
    }
    let mut out = String::new();
    push_severity_group(&mut out, &result.changes, Severity::Safe);
    let breaking = push_severity_group(&mut out, &result.changes, Severity::Breaking);
    let migration = push_severity_group(&mut out, &result.changes, Severity::MigrationRequired);
    let ghost o = out@;
    if result.is_compatible {
        push_str(&mut out, "Result: backward compatible\n");
    } else {
        push_str(&mut out, "Result: NOT backward compatible (");
        let b = u64_text(breaking as u64);
        push_str(&mut out, b.as_str());
        push_str(&mut out, " breaking, ");
        let m = u64_text(migration as u64);
        push_str(&mut out, m.as_str());
        push_str(&mut out, " migration)\n");
    }
    assert(out@ =~= compat_text(compat_view(result.changes@), result.is_compatible));
    out
}

/// The state map lines for the first `n` old states: kept as themselves, or marked removed.
pub open spec fn old_state_lines(o: Seq<(Seq<char>, crate::ir::StateDef)>, nw: Seq<(Seq<char>, crate::ir::StateDef)>, n: int) -> Seq<char>
    decreases n,
{
    if n <= 0 {
        Seq::empty()
    } else {
        let name = o[n - 1].0;
        old_state_lines(o, nw, n - 1) + if has_key(nw, name) {
            name + " = \""@ + name + "\"\n"@
        } else {
            "# "@ + name + " = REMOVED\n"@
        }
    }
}

/// The state map lines for the first `n` new states that the old version lacks.
pub open spec fn new_state_lines(o: Seq<(Seq<char>, crate::ir::StateDef)>, nw: Seq<(Seq<char>, crate::ir::StateDef)>, n: int) -> Seq<char>
    decreases n,
{
    if n <= 0 {
        Seq::empty()
    } else {
        let name = nw[n - 1].0;
        new_state_lines(o, nw, n - 1) + if has_key(o, name) {
            Seq::empty()
        } else {
            name + " = \""@ + name + "\"  # NEW\n"@
        }
    }
}

/// The TOML state map from `old_ir` to `new_ir`: each old state mapped to itself or marked
/// removed, then each new state marked new.
pub fn emit_state_map(old_ir: &WorkflowIR, new_ir: &WorkflowIR) -> (r: String)
    ensures
        r@ == "[state_map]\n"@ + old_state_lines(
            state_entries(old_ir.states),
            state_entries(new_ir.states),
            state_entries(old_ir.states).len() as int,
        ) + new_state_lines(state_entries(old_ir.states), state_entries(new_ir.states), state_entries(new_ir.states).len() as int),
{
    let ghost o = state_entries(old_ir.states);
    let ghost nw = state_entries(new_ir.states);
    let mut out = String::from_str("[state_map]\n");
    let ghost o0 = out@;
    let n = states_len(&old_ir.states);
    for i in 0..n
        invariant
            n == o.len(),
            o == state_entries(old_ir.states),
            nw == state_entries(new_ir.states),
            out@ == o0 + old_state_lines(o, nw, i as int),
    {
        if let Some((name, _)) = states_at(&old_ir.states, i) {
            if states_get(&new_ir.states, name.as_str()).is_some() {
                push_str(&mut out, name.as_str());
                push_str(&mut out, " = \"");
                push_str(&mut out, name.as_str());
                push_str(&mut out, "\"\n");
            } else {
                push_str(&mut out, "# ");
                push_str(&mut out, name.as_str());
                push_str(&mut out, " = REMOVED\n");
            }
        }
        assert(out@ =~= o0 + old_state_lines(o, nw, i + 1));
    }
    let ghost o1 = out@;
    let m = states_len(&new_ir.states);
    for i in 0..m
        invariant
            m == nw.len(),
            o == state_entries(old_ir.states),
            nw == state_entries(new_ir.states),
            out@ == o1 + new_state_lines(o, nw, i as int),
    {
        if let Some((name, _)) = states_at(&new_ir.states, i) {
            if states_get(&old_ir.states, name.as_str()).is_none() {
                push_str(&mut out, name.as_str());
                push_str(&mut out, " = \"");
                push_str(&mut out, name.as_str());
                push_str(&mut out, "\"  # NEW\n");
            }
        }
        assert(out@ =~= o1 + new_state_lines(o, nw, i + 1));
    }
    assert(out@ =~= o0 + old_state_lines(o, nw, o.len() as int) + new_state_lines(o, nw, nw.len() as int));
    out
}


/// A workflow is backward compatible with itself, with no change to report.
pub proof fn lemma_compat_self(ir: WorkflowIR)
    requires
        ir_valid(ir),
    ensures
        workflow_changes(ir, ir).map_values(|c: ChangeV| compat_of(c)) == Seq::<CompatV>::empty(),
        compatible(Seq::<CompatV>::empty()),
{
    lemma_diff_self_empty(ir);
    assert(workflow_changes(ir, ir).map_values(|c: ChangeV| compat_of(c)) =~= Seq::<CompatV>::empty());
}

/// Additions are safe and removals break, whatever the category.
pub proof fn lemma_additions_safe_removals_break(c: ChangeV)
    ensures
        c.0 == ChangeKind::Added ==> severity_of(c) == Severity::Safe,
        c.0 == ChangeKind::Removed ==> severity_of(c) == Severity::Breaking,
{
}

/// A changed step, phase or profile (a change of any category but `outcome` and `state`)
/// needs a migration; a pair of versions with such a change is not compatible.
pub proof fn lemma_structural_changes_need_migration(old: WorkflowIR, new: WorkflowIR, j: int)
    requires
        0 <= j < workflow_changes(old, new).len(),
        workflow_changes(old, new)[j].0 == ChangeKind::Changed,
        workflow_changes(old, new)[j].1 != "outcome"@,
        workflow_changes(old, new)[j].1 != "state"@,
    ensures
        severity_of(workflow_changes(old, new)[j]) == Severity::MigrationRequired,
        workflow_changes(old, new).map_values(|c: ChangeV| compat_of(c))[j].0 == Severity::MigrationRequired,
        !compatible(workflow_changes(old, new).map_values(|c: ChangeV| compat_of(c))),
{
    let cs = workflow_changes(old, new).map_values(|c: ChangeV| compat_of(c));
    assert(cs[j].0 == Severity::MigrationRequired);
}

/// Read as a changed item, a change of any category but `outcome` and `state` needs a
/// migration, whatever its detail.
pub proof fn lemma_changed_items_need_migration(c: ChangeV)
    requires
        c.1 != "outcome"@,
        c.1 != "state"@,
    ensures
        changed_severity(c) == Severity::MigrationRequired,
{
}

} // verus!
