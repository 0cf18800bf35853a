//! The workflow templates that `loom init` writes: their files, and how a file is
//! adapted to the new workflow's name.
use vstd::prelude::*;
use crate::text::{chars_of, push_char, push_str, str_equal};

verus! {

broadcast use vstd::string::group_string_axioms;

/// A file of a template: where it goes, and its text.
#[derive(Debug)]
pub struct TemplateFile {
    pub relative_path: &'static str,
    pub contents: &'static str,
}

/// A template: its id, what it holds, and its files.
#[derive(Debug)]
pub struct TemplateDefinition {
    pub id: &'static str,
    pub description: &'static str,
    pub files: Vec<TemplateFile>,
}

/// The text of the template file.
pub const MINIMAL_LOOM_TOML: &'static str = r#"[workflow]
name = "__WORKFLOW_NAME__"
version = 1
entry = "workflow.loom"
default_profile = "default"
"#;

/// The text of the template file.
pub const MINIMAL_WORKFLOW_LOOM: &'static str = r#"workflow __WORKFLOW_NAME__ v1 {

    queue ready_for_work "Ready for Work"
    queue ready_for_review "Ready for Review"

    action work "Work" {
        produce agent
        prompt work
    }

    action review "Review" {
        gate review human
        prompt review
    }

    terminal done "Done"

    step do_work {
        ready_for_work -> work
    }

    step review_work {
        ready_for_review -> review
    }

    phase main {
        produce do_work
        gate review_work
    }

    profile default "Default" {
        description "Default profile"
        phases [main]
        output local
    }
}
"#;

/// The text of the template file.
pub const MINIMAL_PROMPTS_WORK_MD: &'static str = r#"---
accept:
  - Work is complete
  - Handoff notes are ready for review

success:
  completed: ready_for_review

failure:
  blocked: ready_for_work

params: {}
---

# Work

Do the work and prepare it for review.
"#;

/// The text of the template file.
pub const MINIMAL_PROMPTS_REVIEW_MD: &'static str = r#"---
accept:
  - The work meets the acceptance criteria
  - The result is ready to ship

success:
  approved: done

failure:
  changes_requested: ready_for_work

params: {}
---

# Review

Review the work and either approve it or send it back for changes.
"#;

/// The text of the template file.
pub const KNOTS_LOOM_TOML: &'static str = r#"[workflow]
name = "knots_sdlc"
version = 1
entry = "workflow.loom"
default_profile = "autopilot"
"#;

/// The text of the template file.
pub const KNOTS_WORKFLOW_LOOM: &'static str = r#"workflow knots_sdlc v1 {

    // ── Action States ─────────────────────────────────────────────

    action planning {
        produce agent
    }

    action plan_review {
        gate review agent
        constraint read_only
        constraint no_git_write
        constraint metadata_only
    }

    action implementation {
        produce agent
    }

    action implementation_review {
        gate review agent
        constraint read_only
        constraint no_git_write
        constraint metadata_only
    }

    action shipment {
        produce agent
    }

    action shipment_review {
        gate review agent
        constraint read_only
        constraint no_git_write
        constraint metadata_only
    }

    // ── Terminal & Escape States ──────────────────────────────────

    terminal shipped
    terminal abandoned
    escape   deferred

    // ── Wildcard Transitions ─────────────────────────────────────

    * -> abandoned
    * -> deferred

    // ── Steps ─────────────────────────────────────────────────────

    step plan -> planning
    step plan_rev -> plan_review
    step impl -> implementation
    step impl_rev -> implementation_review
    step ship -> shipment
    step ship_rev -> shipment_review

    // ── Phases ────────────────────────────────────────────────────

    phase planning_phase {
        produce plan
        gate plan_rev
    }

    phase implementation_phase {
        produce impl
        gate impl_rev
    }

    phase shipment_phase {
        produce ship
        gate ship_rev
    }

    // ── Profiles ──────────────────────────────────────────────────

    include "profiles/autopilot.loom"
    include "profiles/autopilot_with_pr.loom"
    include "profiles/semiauto.loom"
    include "profiles/autopilot_no_planning.loom"
    include "profiles/autopilot_with_pr_no_planning.loom"
    include "profiles/semiauto_no_planning.loom"
}
"#;

/// The text of the template file.
pub const KNOTS_PROFILES_AUTOPILOT_LOOM: &'static str = r#"profile autopilot "Autopilot" {
    description "Agent-owned full flow with remote main output"
    phases [planning_phase, implementation_phase, shipment_phase]
    output remote_main
}
"#;

/// The text of the template file.
pub const KNOTS_PROFILES_AUTOPILOT_NO_PLANNING_LOOM: &'static str = r#"profile autopilot_no_planning "Autopilot (no planning)" {
    description "Agent-owned flow starting at implementation"
    phases [implementation_phase, shipment_phase]
    output remote_main
}
"#;

/// The text of the template file.
pub const KNOTS_PROFILES_AUTOPILOT_WITH_PR_LOOM: &'static str = r#"profile autopilot_with_pr "Autopilot with PR" {
    description "Agent-owned full flow with PR output"
    phases [planning_phase, implementation_phase, shipment_phase]
    output pr
}
"#;

/// The text of the template file.
pub const KNOTS_PROFILES_AUTOPILOT_WITH_PR_NO_PLANNING_LOOM: &'static str = r#"profile autopilot_with_pr_no_planning "Autopilot with PR (no planning)" {
    description "Agent-owned flow with PR output and no planning"
    phases [implementation_phase, shipment_phase]
    output pr
}
"#;

/// The text of the template file.
pub const KNOTS_PROFILES_SEMIAUTO_LOOM: &'static str = r#"profile semiauto "Semi-automatic" {
    description "Human-gated plan and implementation reviews"
    phases [planning_phase, implementation_phase, shipment_phase]
    output remote_main

    override plan_review {
        executor human
    }

    override implementation_review {
        executor human
    }
}
"#;

/// The text of the template file.
pub const KNOTS_PROFILES_SEMIAUTO_NO_PLANNING_LOOM: &'static str = r#"profile semiauto_no_planning "Semi-automatic (no planning)" {
    description "Human-gated implementation review with skipped planning"
    phases [implementation_phase, shipment_phase]
    output remote_main

    override implementation_review {
        executor human
    }
}
"#;

/// The text of the template file.
pub const KNOTS_PROMPTS_IMPLEMENTATION_MD: &'static str = r#"---
accept:
  - Working implementation on feature branch
  - All tests passing with coverage threshold met
  - All invariants respected in the implementation
  - Commits tagged on the knot

success:
  implementation_complete: ready_for_implementation_review

failure:
  blocked_by_dependency: deferred
  implementation_infeasible: ready_for_planning
  merge_conflict: ready_for_implementation

params:
  output_kind:
    type: enum
    values: ["local", "remote", "remote_main", "pr"]
    required: true
    description: Artifact output type from the profile
---

# Implementation

Implement the approved plan on a feature branch.

## Invariant Adherence

- If the knot has invariants, strictly adhere to every invariant condition
  throughout implementation.
- Scope invariants limit what code, modules, or systems may be touched.
- State invariants define properties that must remain true at all times.
- If an implementation step would violate an invariant, stop and redesign
  the approach rather than proceeding.

## Step Boundary

- This session is authorized only for implementation.
- Complete exactly one implementation action, then stop.
- Do not merge the feature branch to main, perform shipment work, or
  continue into later workflow stages in this session.
- Opening or updating a review artifact for the implementation branch is
  allowed only if the profile explicitly requires it.
- After the implementation handoff and transition commands succeed, stop
  immediately.

## Actions

1. Create a feature branch from main in a worktree
2. Implement changes following the plan while respecting all invariants
3. Write tests for all new behavior
4. Run any sanity gates defined in the project or the plan
5. Commit and push the feature branch
6. Tag the knot with each commit hash
7. Open or update a PR if the profile output kind requires it

## Output

- Working implementation on feature branch
- All tests passing with coverage threshold met
- Handoff capsule with implementation summary
"#;

/// The text of the template file.
pub const KNOTS_PROMPTS_IMPLEMENTATION_REVIEW_MD: &'static str = r#"---
accept:
  - Code matches knot description and acceptance criteria
  - All invariants respected in the implementation
  - Tests cover required behavior
  - All sanity gates pass
  - No security issues or regressions

success:
  approved: ready_for_shipment

failure:
  changes_requested: ready_for_implementation
  architecture_concern: ready_for_implementation
  critical_issues: ready_for_implementation

params: {}
---

# Implementation Review

Review the implementation against the knot description and acceptance
criteria.

## Write Constraints

- Review work is read-only for repository code and git state.
- Do not edit code, tests, docs, configs, or other repository files.
- Do not run git write operations.
- Allowed writes are knot metadata updates only.
- If code/git writes are needed to complete review, stop and use the
  reject path to move the knot back to ready for implementation.

## Invariant Review

- If the knot has invariants, verify the implementation does not violate
  any of them.
- For each scope invariant, confirm changes are limited to the allowed
  scope.
- For each state invariant, confirm the required property holds in the
  implemented code.
- Reject the implementation if any invariant condition is breached.

## Review Basis

- Base approval strictly on the code under review and the knot description
  plus acceptance criteria.
- Treat acceptance criteria as the source of truth when present; otherwise
  use the description as the requirement baseline.
- Do not use knot notes or prior handoff capsules to decide approval.

## Step Boundary

- This session is authorized only for implementation review.
- Complete exactly one review action, then stop.
- Do not patch code, amend commits, or continue into shipment after a
  review decision.
- After the review decision, handoff, and transition commands succeed,
  stop immediately.

## Actions

1. Review code changes against the knot description and acceptance criteria
2. Verify the implementation respects all knot invariants
3. Verify tests cover the required behavior
4. Verify all sanity gates pass
5. Validate no security issues or regressions introduced
6. Approve or request changes based only on specification and code drift
"#;

/// The text of the template file.
pub const KNOTS_PROMPTS_PLAN_REVIEW_MD: &'static str = r#"---
accept:
  - Plan is complete, correct, and feasible
  - Test strategy covers requirements
  - No security, performance, or maintainability concerns
  - All invariants respected

success:
  approved: ready_for_implementation

failure:
  plan_flawed: ready_for_planning
  requirements_changed: ready_for_planning

params: {}
---

# Plan Review

Review the implementation plan for completeness, correctness, and
feasibility.

## Write Constraints

- Review work is read-only for repository code and git state.
- Do not edit code, tests, docs, configs, or other repository files.
- Do not run git write operations.
- Allowed writes are knot metadata updates only.

## Invariant Review

- If the knot has invariants, verify the plan does not violate any of them.
- For each invariant, confirm the planned steps respect the condition.
- Reject the plan if any step would breach a scope or state invariant.

## Step Boundary

- This session is authorized only for plan review.
- Complete exactly one review action, then stop.
- Do not start implementation work after approving the plan.
- After the review decision, handoff, and transition commands succeed, stop
  immediately.

## Actions

1. Review the plan for completeness, correctness, and feasibility
2. Verify the plan respects all knot invariants
3. Verify test strategy covers requirements
4. Check for security, performance, and maintainability concerns
5. Approve or request revisions
"#;

/// The text of the template file.
pub const KNOTS_PROMPTS_PLANNING_MD: &'static str = r#"---
accept:
  - Actionable implementation steps with clear deliverables
  - Scope estimated with complexity assessment
  - Dependencies and risks identified
  - Test strategy covers requirements
  - All invariants respected in the plan

success:
  plan_complete: ready_for_plan_review

failure:
  insufficient_context: ready_for_planning
  out_of_scope: ready_for_planning

params:
  complexity:
    type: enum
    values: ["small", "medium", "large"]
    required: false
    description: Expected implementation complexity
---

# Planning

Break the knot into actionable implementation steps.

## Invariant Adherence

- If the knot has invariants, read and understand each one before planning.
- Every step in the plan must respect all invariant conditions.
- Scope invariants constrain what the work may touch.
- State invariants constrain what must remain true throughout execution.
- If any planned step would violate an invariant, redesign the approach or
  flag the conflict in the plan note.

## Step Boundary

- This session is authorized only for planning.
- Complete exactly one planning action, then stop.
- Creating child knots is planning output only. Do not claim, start, or
  execute those child knots in this session.
- Do not edit repository code or perform git write operations during
  planning.
- After the note, handoff, and transition commands for this step succeed,
  stop immediately.

## Actions

1. Analyze the knot requirements and constraints
2. Review knot invariants and ensure the plan respects them
3. Research relevant code, dependencies, and prior art
4. Draft an implementation plan with steps, file changes, and test strategy
5. Estimate complexity and identify risks
6. Write the plan as a knot note
7. Create a hierarchy of child knots if needed

## Output

- Detailed implementation plan attached as a knot note
- Hierarchy of knots created
- Handoff capsule summarizing the plan
"#;

/// The text of the template file.
pub const KNOTS_PROMPTS_SHIPMENT_MD: &'static str = r#"---
accept:
  - Code merged and pushed to main
  - CI green on remote
  - All invariants still hold after merge
  - All commits tagged on the knot

success:
  shipment_complete: ready_for_shipment_review

failure:
  merge_conflicts: ready_for_implementation
  ci_failure: ready_for_implementation
  release_blocked: deferred

params: {}
---

# Shipment

Merge the approved implementation to main and push to remote.

## Actions

1. Merge the feature branch to main
2. Push main to remote
3. Verify CI passes on remote

## Output

The expected output artifact is a **commit** on main:
- Code merged and pushed to main
- CI green on remote
- Handoff capsule summarizing shipment
"#;

/// The text of the template file.
pub const KNOTS_PROMPTS_SHIPMENT_REVIEW_MD: &'static str = r#"---
accept:
  - Change is live on main branch
  - Every commit tagged on the knot
  - All invariants hold in shipped code
  - CI/CD pipeline completed successfully
  - No regressions in dependent systems

success:
  approved: shipped
  approved_already_merged: shipped

failure:
  needs_revision: ready_for_implementation
  critical_regression: ready_for_implementation
  deployment_issue: ready_for_shipment
  dirty_workspace: ready_for_implementation

params: {}
---

# Shipment Review

Verify the shipped code is live, correct, and regression-free.

## Write Constraints

- Review work is read-only for repository code and git state.
- Do not edit code, tests, docs, configs, or other repository files.
- Do not run git write operations.
- Allowed writes are knot metadata updates only.
- If code/git writes are needed to complete review, stop and use the
  reject path.

## Invariant Review

- If the knot has invariants, verify the shipped code does not violate
  any of them.
- For each scope invariant, confirm only allowed areas were changed.
- For each state invariant, confirm the property still holds on main.
- Reject if any invariant condition is breached.

## Step Boundary

- This session is authorized only for shipment review.
- Complete exactly one review action, then stop.
- Do not fix code, re-run shipment, or continue into other workflow
  stages in this session.
- After the review decision, handoff, and transition commands succeed,
  stop immediately.

## Actions

1. Verify the change is live on main branch
2. Confirm every commit from implementation and shipment is tagged on the
   knot
3. Verify all knot invariants hold in the shipped code
4. Confirm CI/CD pipeline completed successfully
5. Validate no regressions in dependent systems
6. Final sign-off
"#;

/// The files of a template as (path, contents) pairs.
pub open spec fn files_view(files: Seq<TemplateFile>) -> Seq<(Seq<char>, Seq<char>)> {
    files.map_values(|f: TemplateFile| (f.relative_path@, f.contents@))
}

/// The files of the `minimal` template.
pub open spec fn minimal_entries() -> Seq<(Seq<char>, Seq<char>)> {
    seq![
        ("loom.toml"@, MINIMAL_LOOM_TOML@),
        ("workflow.loom"@, MINIMAL_WORKFLOW_LOOM@),
        ("prompts/work.md"@, MINIMAL_PROMPTS_WORK_MD@),
        ("prompts/review.md"@, MINIMAL_PROMPTS_REVIEW_MD@),
    ]
}

/// The files of the `knots_sdlc` template.
pub open spec fn knots_entries() -> Seq<(Seq<char>, Seq<char>)> {
    seq![
        ("loom.toml"@, KNOTS_LOOM_TOML@),
        ("workflow.loom"@, KNOTS_WORKFLOW_LOOM@),
        ("profiles/autopilot.loom"@, KNOTS_PROFILES_AUTOPILOT_LOOM@),
        ("profiles/autopilot_no_planning.loom"@, KNOTS_PROFILES_AUTOPILOT_NO_PLANNING_LOOM@),
        ("profiles/autopilot_with_pr.loom"@, KNOTS_PROFILES_AUTOPILOT_WITH_PR_LOOM@),
        ("profiles/autopilot_with_pr_no_planning.loom"@, KNOTS_PROFILES_AUTOPILOT_WITH_PR_NO_PLANNING_LOOM@),
        ("profiles/semiauto.loom"@, KNOTS_PROFILES_SEMIAUTO_LOOM@),
        ("profiles/semiauto_no_planning.loom"@, KNOTS_PROFILES_SEMIAUTO_NO_PLANNING_LOOM@),
        ("prompts/implementation.md"@, KNOTS_PROMPTS_IMPLEMENTATION_MD@),
        ("prompts/implementation_review.md"@, KNOTS_PROMPTS_IMPLEMENTATION_REVIEW_MD@),
        ("prompts/plan_review.md"@, KNOTS_PROMPTS_PLAN_REVIEW_MD@),
        ("prompts/planning.md"@, KNOTS_PROMPTS_PLANNING_MD@),
        ("prompts/shipment.md"@, KNOTS_PROMPTS_SHIPMENT_MD@),
        ("prompts/shipment_review.md"@, KNOTS_PROMPTS_SHIPMENT_REVIEW_MD@),
    ]
}

fn minimal_files() -> (files: Vec<TemplateFile>)
    ensures
        files_view(files@) == minimal_entries(),
{
    let mut files: Vec<TemplateFile> = Vec::new();
    files.push(TemplateFile { relative_path: "loom.toml", contents: MINIMAL_LOOM_TOML });
    files.push(TemplateFile { relative_path: "workflow.loom", contents: MINIMAL_WORKFLOW_LOOM });
    files.push(TemplateFile { relative_path: "prompts/work.md", contents: MINIMAL_PROMPTS_WORK_MD });
    files.push(TemplateFile { relative_path: "prompts/review.md", contents: MINIMAL_PROMPTS_REVIEW_MD });
    assert(files_view(files@) =~= minimal_entries());
    files
}

fn knots_sdlc_files() -> (files: Vec<TemplateFile>)
    ensures
        files_view(files@) == knots_entries(),
{
    let mut files: Vec<TemplateFile> = Vec::new();
    files.push(TemplateFile { relative_path: "loom.toml", contents: KNOTS_LOOM_TOML });
    files.push(TemplateFile { relative_path: "workflow.loom", contents: KNOTS_WORKFLOW_LOOM });
    files.push(TemplateFile { relative_path: "profiles/autopilot.loom", contents: KNOTS_PROFILES_AUTOPILOT_LOOM });
    files.push(TemplateFile { relative_path: "profiles/autopilot_no_planning.loom", contents: KNOTS_PROFILES_AUTOPILOT_NO_PLANNING_LOOM });
    files.push(TemplateFile { relative_path: "profiles/autopilot_with_pr.loom", contents: KNOTS_PROFILES_AUTOPILOT_WITH_PR_LOOM });
    files.push(TemplateFile { relative_path: "profiles/autopilot_with_pr_no_planning.loom", contents: KNOTS_PROFILES_AUTOPILOT_WITH_PR_NO_PLANNING_LOOM });
    files.push(TemplateFile { relative_path: "profiles/semiauto.loom", contents: KNOTS_PROFILES_SEMIAUTO_LOOM });
    files.push(TemplateFile { relative_path: "profiles/semiauto_no_planning.loom", contents: KNOTS_PROFILES_SEMIAUTO_NO_PLANNING_LOOM });
    files.push(TemplateFile { relative_path: "prompts/implementation.md", contents: KNOTS_PROMPTS_IMPLEMENTATION_MD });
    files.push(TemplateFile { relative_path: "prompts/implementation_review.md", contents: KNOTS_PROMPTS_IMPLEMENTATION_REVIEW_MD });
    files.push(TemplateFile { relative_path: "prompts/plan_review.md", contents: KNOTS_PROMPTS_PLAN_REVIEW_MD });
    files.push(TemplateFile { relative_path: "prompts/planning.md", contents: KNOTS_PROMPTS_PLANNING_MD });
    files.push(TemplateFile { relative_path: "prompts/shipment.md", contents: KNOTS_PROMPTS_SHIPMENT_MD });
    files.push(TemplateFile { relative_path: "prompts/shipment_review.md", contents: KNOTS_PROMPTS_SHIPMENT_REVIEW_MD });
    assert(files_view(files@) =~= knots_entries());
    files
}

/// The built-in templates: `minimal`, then `knots_sdlc`.
pub fn list() -> (r: Vec<TemplateDefinition>)
    ensures
        r@.len() == 2,
        r@[0].id@ == "minimal"@,
        r@[0].description@ == "One produce step, one review step, one phase, one default profile"@,
        files_view(r@[0].files@) == minimal_entries(),
        r@[1].id@ == "knots_sdlc"@,
        r@[1].description@ == "Planning, implementation, review, shipment, and multiple execution profiles"@,
        files_view(r@[1].files@) == knots_entries(),
{
    let mut r: Vec<TemplateDefinition> = Vec::new();
    r.push(TemplateDefinition {
        id: "minimal",
        description: "One produce step, one review step, one phase, one default profile",
        files: minimal_files(),
    });
    r.push(TemplateDefinition {
        id: "knots_sdlc",
        description: "Planning, implementation, review, shipment, and multiple execution profiles",
        files: knots_sdlc_files(),
    });
    r
}

/// The template with the given id, if there is one.
pub fn get(id: &str) -> (r: Option<TemplateDefinition>)
    ensures
        r is Some <==> (id@ == "minimal"@ || id@ == "knots_sdlc"@),
        r matches Some(t) ==> t.id@ == id@,
        id@ == "minimal"@ ==> (r matches Some(t) && files_view(t.files@) == minimal_entries()
            && t.description@ == "One produce step, one review step, one phase, one default profile"@),
        id@ == "knots_sdlc"@ ==> (r matches Some(t) && files_view(t.files@) == knots_entries()
            && t.description@ == "Planning, implementation, review, shipment, and multiple execution profiles"@),
{
    proof {
        reveal_strlit("minimal");
        reveal_strlit("knots_sdlc");
        assert("minimal"@.len() == 7 && "knots_sdlc"@.len() == 10);
        assert("minimal"@ != "knots_sdlc"@);
    }
    let mut all = list();
    if str_equal(id, "minimal") {
        return Some(all.remove(0));
    }
    if str_equal(id, "knots_sdlc") {
        return Some(all.remove(1));
    }
    None
}

/// The template used when none is named.
pub fn default_template_id() -> (r: &'static str)
    ensures
        r@ == "minimal"@,
{
    "minimal"
}

/// The ids of the templates, separated by `, `.
pub fn available_template_ids() -> (r: String)
    ensures
        r@ == "minimal"@ + ", "@ + "knots_sdlc"@,
{
    let mut s = String::from_str("minimal");
    push_str(&mut s, ", ");
    push_str(&mut s, "knots_sdlc");
    s
}

/// `s` with each occurrence of `pat` replaced by `rep`, scanning from the left and without
/// overlaps (what `str::replace` does for a non-empty pattern).
/// `rep` before each character of `s` and once more at the end: what replacing the empty
/// pattern gives.
pub open spec fn interleave(s: Seq<char>, rep: Seq<char>) -> Seq<char>
    decreases s.len(),
{
    if s.len() == 0 {
        rep
    } else {
        rep + seq![s[0]] + interleave(s.drop_first(), rep)
    }
}

pub open spec fn replace_all(s: Seq<char>, pat: Seq<char>, rep: Seq<char>) -> Seq<char>
    decreases s.len(),
{
    if pat.len() == 0 {
        interleave(s, rep)
    } else if s.len() < pat.len() {
        s
    } else if s.subrange(0, pat.len() as int) == pat {
        rep + replace_all(s.skip(pat.len() as int), pat, rep)
    } else {
        seq![s[0]] + replace_all(s.drop_first(), pat, rep)
    }
}

/// `rep` before each character of `s` and once more at the end.
fn interleave_str(s: &str, rep: &str) -> (r: String)
    ensures
        r@ == interleave(s@, rep@),
{
    let cs = chars_of(s);
    let mut out = String::new();
    let mut i: usize = 0;
    assert(s@.skip(0) =~= s@);
    while i < cs.len()
        invariant
            cs@ == s@,
            i <= cs@.len(),
            interleave(s@, rep@) == out@ + interleave(s@.skip(i as int), rep@),
        decreases cs.len() - i,
    {
        let ghost rest = s@.skip(i as int);
        assert(rest.drop_first() =~= s@.skip(i + 1));
        assert(rest[0] == cs@[i as int]);
        let ghost before = out@;
        push_str(&mut out, rep);
        push_char(&mut out, cs[i]);
        assert(out@ + interleave(s@.skip(i + 1), rep@) =~= before + interleave(rest, rep@));
        i = i + 1;
    }
    assert(s@.skip(i as int) =~= Seq::<char>::empty());
    push_str(&mut out, rep);
    out
}

/// Replaces each occurrence of `pat` in `s` by `rep`, as `str::replace` does (an empty
/// pattern matches before each character and at the end).
pub fn replace_str(s: &str, pat: &str, rep: &str) -> (r: String)
    ensures
        r@ == replace_all(s@, pat@, rep@),
{
    if pat.unicode_len() == 0 {
        return interleave_str(s, rep);
    }
    let cs = chars_of(s);
    let ps = chars_of(pat);
    let mut out = String::new();
    let mut i: usize = 0;
    assert(s@.skip(0) =~= s@);
    while i < cs.len()
        invariant
            cs@ == s@,
            ps@ == pat@,
            ps@.len() > 0,
            i <= cs@.len(),
            replace_all(s@, pat@, rep@) == out@ + replace_all(s@.skip(i as int), pat@, rep@),
        decreases cs.len() - i,
    {
        let ghost rest = s@.skip(i as int);
        let mut matches = cs.len() - i >= ps.len();
        let mut j: usize = 0;
        while matches && j < ps.len()
            invariant
                cs@ == s@,
                ps@ == pat@,
                i <= cs@.len(),
                matches ==> cs@.len() - i >= ps@.len(),
                j <= ps@.len(),
                matches ==> forall|k: int| 0 <= k < j ==> cs@[i + k] == ps@[k],
                !matches ==> !(rest.len() >= pat@.len() && rest.subrange(0, pat@.len() as int) == pat@),
                rest == s@.skip(i as int),
            decreases ps.len() - j + (if matches { 1int } else { 0int }),
        {
            assert(i + j < cs.len());
            if cs[i + j] != ps[j] {
                assert(rest.subrange(0, pat@.len() as int)[j as int] == cs@[i + j]);
                matches = false;
            } else {
                j = j + 1;
            }
        }
        if matches {
            assert(rest.subrange(0, pat@.len() as int) =~= pat@);
            push_str(&mut out, rep);
            assert(rest.skip(pat@.len() as int) =~= s@.skip(i + ps.len()));
            i = i + ps.len();
        } else {
            push_char(&mut out, cs[i]);
            assert(rest.drop_first() =~= s@.skip(i + 1));
            assert(rest[0] == cs@[i as int]);
            i = i + 1;
        }
    }
    assert(s@.skip(i as int) =~= Seq::<char>::empty());
    out
}

/// A template file's text adapted to the workflow's name: the `minimal` template's
/// placeholder `__WORKFLOW_NAME__` is replaced everywhere; in the `knots_sdlc` template's
/// `loom.toml` and `workflow.loom`, the name `knots_sdlc` is; other files are kept as they are.
pub fn render_contents(template_id: &str, relative_path: &str, contents: &str, workflow_name: &str) -> (r: String)
    ensures
        r@ == if template_id@ == "minimal"@ {
            replace_all(contents@, "__WORKFLOW_NAME__"@, workflow_name@)
        } else if template_id@ == "knots_sdlc"@ && (relative_path@ == "loom.toml"@ || relative_path@ == "workflow.loom"@) {
            replace_all(contents@, "knots_sdlc"@, workflow_name@)
        } else {
            contents@
        },
{
    proof {
        reveal_strlit("__WORKFLOW_NAME__");
        reveal_strlit("knots_sdlc");
    }
    if str_equal(template_id, "minimal") {
        replace_str(contents, "__WORKFLOW_NAME__", workflow_name)
    } else if str_equal(template_id, "knots_sdlc") && (str_equal(relative_path, "loom.toml") || str_equal(
        relative_path,
        "workflow.loom",
    )) {
        replace_str(contents, "knots_sdlc", workflow_name)
    } else {
        String::from_str(contents)
    }
}

/// `s` padded with spaces on the right to `width` characters.
pub open spec fn padded(s: Seq<char>, width: nat) -> Seq<char> {
    if s.len() < width {
        s + Seq::new((width - s.len()) as nat, |i: int| ' ')
    } else {
        s
    }
}

/// A line of the template listing: the id padded to the widest id, two spaces, the
/// description, and ` (default)` for the default template.
pub open spec fn listing_line(id: Seq<char>, description: Seq<char>, width: nat) -> Seq<char> {
    padded(id, width) + "  "@ + description + if id == "minimal"@ {
        " (default)"@
    } else {
        ""@
    }
}

fn pad_to(s: &str, width: usize) -> (r: String)
    ensures
        r@ == padded(s@, width as nat),
{
    let mut r = String::from_str(s);
    let n = s.unicode_len();
    if n < width {
        let mut k = n;
        while k < width
            invariant
                n <= k <= width,
                n == s@.len(),
                r@ == s@ + Seq::new((k - n) as nat, |i: int| ' '),
            decreases width - k,
        {
            push_str(&mut r, " ");
            proof {
                reveal_strlit(" ");
            }
            assert(r@ =~= s@ + Seq::new((k + 1 - n) as nat, |i: int| ' '));
            k = k + 1;
        }
    } else {
        assert(r@ == padded(s@, width as nat));
    }
    r
}

/// The lines of `loom template list`: each template's id, padded to the widest id, and its
/// description; the default template is marked.
pub fn template_list_lines() -> (r: Vec<String>)
    ensures
        r@.len() == 2,
        r@[0]@ == listing_line("minimal"@, "One produce step, one review step, one phase, one default profile"@, 10),
        r@[1]@ == listing_line(
            "knots_sdlc"@,
            "Planning, implementation, review, shipment, and multiple execution profiles"@,
            10,
        ),
{
    let templates = list();
    let mut width: usize = 0;
    for i in 0..templates.len()
        invariant
            templates@.len() == 2,
            width == if i == 0 { 0 } else if i == 1 { templates@[0].id@.len() } else {
                if templates@[0].id@.len() < templates@[1].id@.len() { templates@[1].id@.len() } else { templates@[0].id@.len() }
            },
    {
        let n = templates[i].id.unicode_len();
        if n > width {
            width = n;
        }
    }
    proof {
        reveal_strlit("minimal");
        reveal_strlit("knots_sdlc");
    }
    assert(width == 10);
    let mut r: Vec<String> = Vec::new();
    for i in 0..templates.len()
        invariant
            templates@.len() == 2,
            templates@[0].id@ == "minimal"@,
            templates@[0].description@ == "One produce step, one review step, one phase, one default profile"@,
            templates@[1].id@ == "knots_sdlc"@,
            templates@[1].description@ == "Planning, implementation, review, shipment, and multiple execution profiles"@,
            width == 10,
            r@.len() == i,
            forall|k: int| 0 <= k < i ==> (#[trigger] r@[k])@ == listing_line(templates@[k].id@, templates@[k].description@, 10),
    {
        let t = &templates[i];
        let mut line = pad_to(t.id, width);
        push_str(&mut line, "  ");
        push_str(&mut line, t.description);
        if str_equal(t.id, "minimal") {
            push_str(&mut line, " (default)");
        } else {
            push_str(&mut line, "");
        }
        r.push(line);
    }
    r
}

/// The message for a template id that names no template.
pub fn unknown_template(id: &str) -> (r: String)
    ensures
        r@ == "unknown template '"@ + id@ + "'; available templates: "@ + "minimal"@ + ", "@ + "knots_sdlc"@,
{
    let mut m = String::from_str("unknown template '");
    push_str(&mut m, id);
    push_str(&mut m, "'; available templates: ");
    let ids = available_template_ids();
    push_str(&mut m, ids.as_str());
    m
}

} // verus!
