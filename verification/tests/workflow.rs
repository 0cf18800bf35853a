use indexmap::IndexMap;
use loom_core::compat::{check_compat, classify_changed, emit_state_map, format_compat, Severity};
use loom_core::diff::{capitalize_category, diff_workflows, format_diff, Change, ChangeKind};
use loom_core::error::{Diagnostics, LoomError};
use loom_core::graph::profile::extract_profile_subgraph;
use loom_core::graph::render::{render, RenderFormat};
use loom_core::graph::validate::validate;
use loom_core::graph::{build_graph, graph_edge_count, graph_node_count, graph_size_ok};
use loom_core::ir::{PhaseDef, ProfileDef, StateDef, StepDef, WorkflowIR};
use loom_core::lower::{include_paths, lower_with_config};
use loom_core::parse::ast::{ActionType, Executor, GateKind};
use loom_core::parse::{parse_profile_file, parse_workflow};
use loom_core::prompt::{
    default_true, prompt_from_parts, split_frontmatter, ParamDef, ParamType, PromptFile, PromptFrontmatter,
};
use loom_core::sim::{
    apply, available_transitions, is_terminal, new, read_sim_input, SimInput, SimState, TransitionKind,
};
use loom_core::templates::get;

fn yaml_routes(v: Option<&serde_yaml::Value>) -> IndexMap<String, String> {
    let mut m = IndexMap::new();
    if let Some(map) = v.and_then(|v| v.as_mapping()) {
        for (k, t) in map {
            m.insert(k.as_str().unwrap().to_string(), t.as_str().unwrap().to_string());
        }
    }
    m
}

fn prompt_of(text: &str) -> PromptFile {
    let (front, body) = split_frontmatter(text).unwrap();
    let y: serde_yaml::Value = serde_yaml::from_str(&front).unwrap();
    let accept = y
        .get("accept")
        .and_then(|a| a.as_sequence())
        .map(|s| s.iter().map(|x| x.as_str().unwrap().to_string()).collect())
        .unwrap_or_default();
    let mut params = IndexMap::new();
    if let Some(map) = y.get("params").and_then(|p| p.as_mapping()) {
        for (k, d) in map {
            let param_type = match d.get("type").and_then(|t| t.as_str()).unwrap() {
                "string" => ParamType::String,
                "int" => ParamType::Int,
                "bool" => ParamType::Bool,
                _ => ParamType::Enum,
            };
            let values = d
                .get("values")
                .and_then(|v| v.as_sequence())
                .map(|s| s.iter().map(|x| x.as_str().unwrap().to_string()).collect())
                .unwrap_or_default();
            params.insert(
                k.as_str().unwrap().to_string(),
                ParamDef {
                    param_type,
                    values,
                    required: d.get("required").and_then(|r| r.as_bool()).unwrap_or(default_true()),
                    default: d.get("default").and_then(|x| x.as_str()).map(|x| x.to_string()),
                    description: d.get("description").and_then(|x| x.as_str()).map(|x| x.to_string()),
                },
            );
        }
    }
    let front = PromptFrontmatter {
        accept,
        success: yaml_routes(y.get("success")),
        failure: yaml_routes(y.get("failure")),
        params,
    };
    prompt_from_parts(front, body)
}

/// The files of a template, with every file's text passed through `edit`.
fn template_files(id: &str, edit: &dyn Fn(&str, &str) -> String) -> Vec<(String, String)> {
    get(id)
        .unwrap()
        .files
        .iter()
        .map(|f| (f.relative_path.to_string(), edit(f.relative_path, f.contents)))
        .collect()
}

fn lower_files(files: &[(String, String)], default_profile: Option<&str>) -> Result<(WorkflowIR, Diagnostics), Vec<LoomError>> {
    let text = |p: &str| files.iter().find(|(q, _)| q == p).map(|(_, c)| c.clone()).unwrap();
    let ast = parse_workflow(&text("workflow.loom")).unwrap();
    let includes = include_paths(&ast)
        .iter()
        .map(|p| parse_profile_file(&text(p)))
        .collect();
    let prompts = files
        .iter()
        .filter(|(p, _)| p.starts_with("prompts/"))
        .map(|(p, c)| {
            let stem = p.trim_start_matches("prompts/").trim_end_matches(".md").to_string();
            (stem, Some(prompt_of(c)))
        })
        .collect();
    lower_with_config(&ast, includes, prompts, default_profile.map(|s| s.to_string()))
}

fn load_knots() -> WorkflowIR {
    let files = template_files("knots_sdlc", &|_, c| c.to_string());
    lower_files(&files, Some("autopilot")).unwrap().0
}

/// The second version of the knots workflow: a triage step and profile, no `deferred`
/// escape, the planning action renamed, and `plan_complete` routed past the plan review.
fn load_knots_v2() -> WorkflowIR {
    let mut files = template_files("knots_sdlc", &|p, c| match p {
        "workflow.loom" => c
            .replace("action planning {", "action planning \"Plan Work\" {")
            .replace("    escape   deferred\n", "")
            .replace("    * -> deferred\n", "")
            .replace(
                "    step plan -> planning\n",
                "    step plan -> planning\n    step triage_step -> triage\n",
            )
            .replace(
                "    action plan_review {",
                "    action triage {\n        produce agent\n    }\n\n    action plan_review {",
            )
            .replace(
                "    phase implementation_phase {",
                "    phase triage_phase {\n        produce triage_step\n        gate plan_rev\n    }\n\n    phase implementation_phase {",
            )
            .replace(
                "    include \"profiles/semiauto_no_planning.loom\"\n",
                "    include \"profiles/semiauto_no_planning.loom\"\n    include \"profiles/triage.loom\"\n",
            ),
        "prompts/planning.md" => c.replace("plan_complete: ready_for_plan_review", "plan_complete: ready_for_implementation"),
        "prompts/implementation.md" => c.replace("blocked_by_dependency: deferred", "blocked_by_dependency: abandoned"),
        "prompts/shipment.md" => c.replace("release_blocked: deferred", "release_blocked: abandoned"),
        _ => c.to_string(),
    });
    files.push((
        "profiles/triage.loom".to_string(),
        "profile triage \"Triage\" {\n    phases [triage_phase]\n    output local\n}\n".to_string(),
    ));
    files.push((
        "prompts/triage.md".to_string(),
        "---\naccept:\n  - Triaged\nsuccess:\n  triaged: ready_for_planning\nfailure:\n  dropped: abandoned\nparams: {}\n---\n\n# Triage\n".to_string(),
    ));
    lower_files(&files, Some("autopilot")).unwrap().0
}

#[test]
fn lowers_the_knots_sdlc_template() {
    let ir = load_knots();
    assert_eq!(ir.name, "knots_sdlc");
    assert_eq!(ir.default_profile, Some("autopilot".to_string()));
    assert_eq!(ir.states.len(), 15);
    assert_eq!(ir.steps.len(), 6);
    assert_eq!(ir.phases.len(), 3);
    assert_eq!(ir.profiles.len(), 6);
    assert_eq!(ir.prompts.len(), 6);
    assert_eq!(ir.wildcard_targets, vec!["abandoned".to_string(), "deferred".to_string()]);
    assert!(ir.states.contains_key("ready_for_planning"));
}

#[test]
fn the_minimal_template_lowers_and_validates_clean() {
    let files = template_files("minimal", &|p, c| loom_core::templates::render_contents("minimal", p, c, "payments_flow"));
    let (ir, _) = lower_files(&files, Some("default")).unwrap();
    assert_eq!(ir.name, "payments_flow");
    assert!(graph_size_ok(&ir));
    let diag = validate(&ir);
    assert!(diag.errors.is_empty(), "{:?}", diag.errors);
    assert!(diag.warnings.is_empty());
}

#[test]
fn test_build_graph_knots_sdlc() {
    let ir = load_knots();
    let graph = build_graph(&ir);
    assert_eq!(graph_node_count(&graph.graph), 15);
    assert!(graph_edge_count(&graph.graph) > 0);
    assert_eq!(graph.node_index("ready_for_planning"), Some(ir.states.get_index_of("ready_for_planning").unwrap()));
    assert_eq!(graph.node_index("nowhere"), None);
}

#[test]
fn knots_graph_has_every_kind_of_edge() {
    let ir = load_knots();
    let graph = build_graph(&ir);
    // 6 claims; 24 routes from the 6 prompts; no implicit links (every produce action
    // already routes to its gate queue); 2 wildcard targets, each reached from every
    // non-terminal state but itself: 13 into `abandoned` (the escape `deferred` among
    // them) and 12 into `deferred`.
    assert_eq!(graph_edge_count(&graph.graph), 6 + 24 + 0 + 13 + 12);
}

#[test]
fn test_validate_knots_sdlc() {
    let ir = load_knots();
    let diag = validate(&ir);
    assert!(!diag.has_errors(), "knots_sdlc should validate clean, got {:?}", diag.errors);
}

#[test]
fn test_produce_no_success_is_error() {
    let mut states = IndexMap::new();
    states.insert("q1".into(), StateDef::Queue { name: "q1".into(), display_name: "Q1".into() });
    states.insert(
        "a1".into(),
        StateDef::Action {
            name: "a1".into(),
            display_name: "A1".into(),
            action_type: ActionType::Produce(Executor::Agent),
            prompt_name: "a1_prompt".into(),
            output: None,
            constraints: vec![],
            executor: Executor::Agent,
        },
    );
    states.insert("q2".into(), StateDef::Queue { name: "q2".into(), display_name: "Q2".into() });
    states.insert(
        "a2".into(),
        StateDef::Action {
            name: "a2".into(),
            display_name: "A2".into(),
            action_type: ActionType::Gate(GateKind::Approve, Executor::Human),
            prompt_name: "a2_prompt".into(),
            output: None,
            constraints: vec![],
            executor: Executor::Human,
        },
    );
    states.insert("done".into(), StateDef::Terminal { name: "done".into(), display_name: "Done".into() });

    let mut steps = IndexMap::new();
    steps.insert("s1".into(), StepDef { name: "s1".into(), queue: "q1".into(), action: "a1".into() });
    steps.insert("s2".into(), StepDef { name: "s2".into(), queue: "q2".into(), action: "a2".into() });

    let mut phases = IndexMap::new();
    phases.insert(
        "p1".into(),
        PhaseDef { name: "p1".into(), produce_step: "s1".into(), gate_step: Some("s2".into()) },
    );

    let mut profiles = IndexMap::new();
    profiles.insert(
        "default".into(),
        ProfileDef {
            name: "default".into(),
            display_name: None,
            description: None,
            phases: vec!["p1".into()],
            output: None,
            overrides: IndexMap::new(),
        },
    );

    let mut prompts = IndexMap::new();
    prompts.insert(
        "a1_prompt".into(),
        PromptFile {
            accept: vec![],
            success: IndexMap::new(),
            failure: IndexMap::from([("fail".into(), "q1".into())]),
            params: IndexMap::new(),
            body: String::new(),
            body_params: vec![],
        },
    );
    prompts.insert(
        "a2_prompt".into(),
        PromptFile {
            accept: vec![],
            success: IndexMap::from([("approved".into(), "done".into())]),
            failure: IndexMap::from([("rejected".into(), "q1".into())]),
            params: IndexMap::new(),
            body: String::new(),
            body_params: vec![],
        },
    );

    let ir = WorkflowIR {
        name: "test".into(),
        version: 1,
        default_profile: Some("default".into()),
        states,
        steps,
        phases,
        profiles,
        wildcard_targets: vec![],
        prompts,
    };

    let diag = validate(&ir);
    let has_produce_no_success = diag
        .errors
        .iter()
        .any(|e| matches!(e, LoomError::ProduceNoSuccess { action } if action == "a1"));
    assert!(has_produce_no_success, "expected ProduceNoSuccess error for 'a1', got errors: {:?}", diag.errors);
}

#[test]
fn test_extract_autopilot() {
    let ir = load_knots();
    let sub = extract_profile_subgraph(&ir, "autopilot").unwrap();
    assert_eq!(sub.states.len(), 15);
    assert_eq!(sub.steps.len(), 6);
    assert_eq!(sub.phases.len(), 3);
}

#[test]
fn test_extract_no_planning() {
    let ir = load_knots();
    let sub = extract_profile_subgraph(&ir, "autopilot_no_planning").unwrap();
    assert!(sub.states.len() >= 11);
    assert_eq!(sub.steps.len(), 4);
    assert_eq!(sub.phases.len(), 2);
}

#[test]
fn test_semiauto_overrides() {
    let ir = load_knots();
    let sub = extract_profile_subgraph(&ir, "semiauto").unwrap();
    if let Some(StateDef::Action { executor, .. }) = sub.states.get("plan_review") {
        assert_eq!(*executor, Executor::Human);
    } else {
        panic!("expected plan_review action");
    }
}

#[test]
fn extracting_an_unknown_profile_gives_none() {
    let ir = load_knots();
    assert!(extract_profile_subgraph(&ir, "nonexistent").is_none());
}

#[test]
fn test_render_mermaid() {
    let ir = load_knots();
    let output = render(&ir, RenderFormat::Mermaid);
    assert!(output.contains("stateDiagram-v2"));
    assert!(output.contains("ready_for_planning"));
    assert!(output.contains("    [*] --> ready_for_planning\n"));
    assert!(output.contains("    shipped --> [*]\n"));
    assert!(output.contains("    deferred : Deferred (escape)\n"));
    assert!(output.contains("    ready_for_planning --> planning : claim (plan)\n"));
    assert!(output.contains("    planning --> ready_for_plan_review : plan_complete [ok]\n"));
}

#[test]
fn test_render_dot() {
    let ir = load_knots();
    let output = render(&ir, RenderFormat::Dot);
    assert!(output.contains("digraph workflow"));
    assert!(output.contains("ready_for_planning"));
    assert!(output.contains("    planning -> ready_for_plan_review [label=\"plan_complete\", color=green];\n"));
    assert!(output.contains("    planning -> abandoned [label=\"*\", style=dotted, color=gray];\n"));
    assert!(output.ends_with("}\n"));
}

#[test]
fn test_new_creates_state_at_entry_queue() {
    let ir = load_knots();
    let state = new(&ir, None).unwrap();
    assert_eq!(state.current, "ready_for_planning");
    assert!(state.history.is_empty());
}

#[test]
fn test_new_with_profile() {
    let ir = load_knots();
    let state = new(&ir, Some("autopilot_no_planning")).unwrap();
    assert_eq!(state.current, "ready_for_implementation");
}

#[test]
fn test_new_unknown_profile_returns_error() {
    let ir = load_knots();
    let result = new(&ir, Some("nonexistent"));
    assert_eq!(result.unwrap_err(), "profile 'nonexistent' not found");
}

#[test]
fn test_available_transitions_from_queue_returns_claims() {
    let ir = load_knots();
    let state = new(&ir, None).unwrap();
    let transitions = available_transitions(&state, &ir);
    let claims: Vec<_> = transitions.iter().filter(|t| matches!(&t.kind, TransitionKind::Claim { .. })).collect();
    assert!(!claims.is_empty(), "expected at least one claim transition from queue");
    assert_eq!(claims[0].to, "planning");
}

#[test]
fn test_available_transitions_from_action_returns_outcomes_and_wildcards() {
    let ir = load_knots();
    let state = SimState { current: "planning".to_string(), history: Vec::new() };
    let transitions = available_transitions(&state, &ir);
    let outcomes: Vec<_> = transitions.iter().filter(|t| matches!(&t.kind, TransitionKind::Outcome { .. })).collect();
    let wildcards: Vec<_> = transitions.iter().filter(|t| matches!(&t.kind, TransitionKind::Wildcard)).collect();
    assert!(!outcomes.is_empty(), "expected outcome transitions from action");
    assert!(!wildcards.is_empty(), "expected wildcard transitions from action");
}

#[test]
fn transitions_are_ordered_claims_successes_failures_wildcards() {
    let ir = load_knots();
    let state = SimState { current: "planning".to_string(), history: Vec::new() };
    let labels: Vec<String> = available_transitions(&state, &ir).iter().map(|t| t.label.clone()).collect();
    assert_eq!(
        labels,
        vec![
            "[ok] plan_complete -> ready_for_plan_review",
            "[fail] out_of_scope -> ready_for_planning",
            "[fail] insufficient_context -> ready_for_planning",
            "[*] -> deferred",
            "[*] -> abandoned",
        ]
    );
}

#[test]
fn test_apply_advances_state() {
    let ir = load_knots();
    let mut state = new(&ir, None).unwrap();
    let transitions = available_transitions(&state, &ir);
    let claim = transitions
        .iter()
        .find(|t| matches!(&t.kind, TransitionKind::Claim { .. }))
        .expect("should have a claim transition");
    apply(&mut state, claim);
    assert_eq!(state.current, "planning");
    assert_eq!(state.history.len(), 1);
    assert_eq!(state.history[0].label, "claim (plan) -> planning");
}

#[test]
fn test_terminal_state_detected() {
    let ir = load_knots();
    let state = SimState { current: "shipped".to_string(), history: Vec::new() };
    assert!(is_terminal(&state, &ir));
    let queue_state = SimState { current: "ready_for_planning".to_string(), history: Vec::new() };
    assert!(!is_terminal(&queue_state, &ir));
    let unknown = SimState { current: "nowhere".to_string(), history: Vec::new() };
    assert!(is_terminal(&unknown, &ir));
}

#[test]
fn test_escape_state_is_terminal() {
    let ir = load_knots();
    let state = SimState { current: "deferred".to_string(), history: Vec::new() };
    assert!(is_terminal(&state, &ir));
}

#[test]
fn the_second_version_lowers() {
    let v2 = load_knots_v2();
    assert!(v2.states.contains_key("ready_for_triage"));
    assert!(!v2.states.contains_key("deferred"));
}

#[test]
fn test_diff_detects_added_state() {
    let changes = diff_workflows(&load_knots(), &load_knots_v2());
    assert!(changes.iter().any(|c| c.category == "state" && c.kind == ChangeKind::Added && c.name == "ready_for_triage"));
}

#[test]
fn test_diff_detects_removed_state() {
    let changes = diff_workflows(&load_knots(), &load_knots_v2());
    assert!(changes.iter().any(|c| c.category == "state" && c.kind == ChangeKind::Removed && c.name == "deferred"));
}

#[test]
fn test_diff_detects_display_name_change() {
    let changes = diff_workflows(&load_knots(), &load_knots_v2());
    let changed = changes.iter().find(|c| {
        c.category == "state"
            && c.name == "planning"
            && c.kind == ChangeKind::Changed
            && c.detail.as_deref().is_some_and(|d| d.contains("display_name"))
    });
    assert!(changed.is_some(), "expected display_name change for planning");
    assert_eq!(changed.unwrap().detail.as_deref(), Some("display_name \"Planning\" -> \"Plan Work\""));
}

#[test]
fn test_diff_detects_outcome_target_change() {
    let changes = diff_workflows(&load_knots(), &load_knots_v2());
    let c = changes
        .iter()
        .find(|c| c.category == "outcome" && c.name == "planning.plan_complete" && c.kind == ChangeKind::Changed)
        .expect("expected outcome target change for planning.plan_complete");
    assert_eq!(c.detail.as_deref(), Some("ready_for_plan_review -> ready_for_implementation"));
}

#[test]
fn test_diff_detects_added_profile() {
    let changes = diff_workflows(&load_knots(), &load_knots_v2());
    assert!(changes.iter().any(|c| c.category == "profile" && c.kind == ChangeKind::Added && c.name == "triage"));
}

#[test]
fn test_diff_no_changes_same_workflow() {
    let ir = load_knots();
    let changes = diff_workflows(&ir, &ir);
    assert!(changes.is_empty(), "expected no changes, got: {:?}", changes.len());
    assert_eq!(format_diff(&changes), "No changes detected.\n");
}

#[test]
fn test_format_diff_output() {
    let changes = diff_workflows(&load_knots(), &load_knots_v2());
    let output = format_diff(&changes);
    assert!(output.contains("States:"), "output should have States section");
    assert!(output.contains("+ state: ready_for_triage"), "output should show added state");
    assert!(output.contains("- state: deferred"), "output should show removed state");
    assert!(output.contains("  + state: ready_for_triage (queue \"Ready for Triage\")\n"));
}

#[test]
fn test_compat_has_safe_changes() {
    let result = check_compat(&load_knots(), &load_knots_v2());
    let safe: Vec<_> = result.changes.iter().filter(|c| c.severity == Severity::Safe).collect();
    assert!(!safe.is_empty(), "expected safe changes");
    assert!(safe.iter().any(|c| c.category == "state" && c.name == "ready_for_triage"));
    assert!(safe.iter().any(|c| c.category == "profile" && c.name == "triage"));
}

#[test]
fn test_compat_has_breaking_changes() {
    let result = check_compat(&load_knots(), &load_knots_v2());
    let breaking: Vec<_> = result.changes.iter().filter(|c| c.severity == Severity::Breaking).collect();
    assert!(!breaking.is_empty(), "expected breaking changes");
    assert!(breaking.iter().any(|c| c.name == "deferred"));
}

#[test]
fn test_compat_has_migration_changes() {
    let result = check_compat(&load_knots(), &load_knots_v2());
    let migration: Vec<_> = result.changes.iter().filter(|c| c.severity == Severity::MigrationRequired).collect();
    assert!(!migration.is_empty(), "expected migration-required changes");
    assert!(migration.iter().any(|c| c.name == "planning.plan_complete"));
}

#[test]
fn test_compat_is_not_compatible() {
    let result = check_compat(&load_knots(), &load_knots_v2());
    assert!(!result.is_compatible, "expected NOT compatible");
}

#[test]
fn test_compat_same_workflow_is_compatible() {
    let ir = load_knots();
    let result = check_compat(&ir, &ir);
    assert!(result.is_compatible, "same workflow should be compatible");
    assert!(result.changes.is_empty());
    assert_eq!(format_compat(&result), "No changes detected. Fully compatible.\n");
}

#[test]
fn test_state_map_contains_mappings() {
    let map = emit_state_map(&load_knots(), &load_knots_v2());
    assert!(map.contains("[state_map]"));
    assert!(map.contains("ready_for_planning = \"ready_for_planning\""));
    assert!(map.contains("# deferred = REMOVED"));
    assert!(map.contains("ready_for_triage = \"ready_for_triage\""));
    assert!(map.contains("ready_for_triage = \"ready_for_triage\"  # NEW\n"));
}

#[test]
fn test_format_compat_output() {
    let result = check_compat(&load_knots(), &load_knots_v2());
    let output = format_compat(&result);
    assert!(output.contains("safe:"));
    assert!(output.contains("breaking:"));
    assert!(output.contains("NOT backward compatible"));
}

#[test]
fn summarizes_a_valid_workflow() {
    let ir = load_knots();
    let line = loom_core::validation_summary(&ir);
    assert_eq!(
        line,
        format!(
            "ok: {} v{} ({} states, {} steps, {} phases, {} profiles)",
            ir.name,
            ir.version,
            ir.states.len(),
            ir.steps.len(),
            ir.phases.len(),
            ir.profiles.len()
        )
    );
    assert!(line.starts_with("ok: knots_sdlc v1 ("));
}

#[test]
fn validate_lowered_reports_orphaned_prompt_files() {
    let ir = load_knots();
    let mut stems: Vec<String> = ir.prompts.keys().cloned().collect();
    stems.push("leftover".to_string());
    let mut diag = Diagnostics::new();
    loom_core::validate_lowered(&ir, &stems, &mut diag);
    assert_eq!(diag.errors.len(), 1);
    match &diag.errors[0] {
        LoomError::OrphanedPrompt { name } => assert_eq!(name, "leftover"),
        other => panic!("unexpected error {:?}", other),
    }
    assert_eq!(diag.warnings.len(), validate(&ir).warnings.len());
}

#[test]
fn knots_profiles_validate_clean() {
    let ir = load_knots();
    assert!(loom_core::validate_profiles(&ir).is_empty());
    let mut diag = Diagnostics::new();
    loom_core::check_orphaned_prompts(&ir, &vec!["planning".to_string(), "nobody".to_string()], &mut diag);
    assert_eq!(diag.errors.len(), 1);
    assert_eq!(diag.errors[0].message(), LoomError::OrphanedPrompt { name: "nobody".into() }.message());
}

#[test]
fn reads_simulator_input() {
    assert!(matches!(read_sim_input("q\n", 3), SimInput::Quit));
    assert!(matches!(read_sim_input("  quit ", 3), SimInput::Quit));
    assert!(matches!(read_sim_input("2\n", 3), SimInput::Take(1)));
    assert!(matches!(read_sim_input("+3", 3), SimInput::Take(2)));
    match read_sim_input("4", 3) {
        SimInput::Invalid(m) => assert_eq!(m, "Invalid input. Enter a number 1-3 or 'q' to quit.\n"),
        other => panic!("unexpected {:?}", other),
    }
    assert!(matches!(read_sim_input("0", 3), SimInput::Invalid(_)));
    assert!(matches!(read_sim_input("two", 3), SimInput::Invalid(_)));
    assert!(matches!(read_sim_input("99999999999999999999999", 3), SimInput::Invalid(_)));
}

#[test]
fn shows_simulator_state_and_choices() {
    let ir = load_knots();
    let state = new(&ir, None).unwrap();
    let line = loom_core::sim::state_line(&state, &ir);
    assert_eq!(line, format!("Current state: {} ({})", state.current, ir.states.get(&state.current).unwrap().display_name()));
    let ts = available_transitions(&state, &ir);
    let lines = loom_core::sim::transition_lines(&ts);
    assert_eq!(lines.len(), ts.len());
    assert_eq!(lines[0], format!("  1. {}", ts[0].label));
}

fn lower_inline(src: &str) -> Result<(WorkflowIR, Diagnostics), Vec<LoomError>> {
    let ast = parse_workflow(src).unwrap();
    loom_core::lower::lower(&ast, Vec::new(), Vec::new())
}

fn lower_with_prompt(src: &str, prompt: &str) -> Result<(WorkflowIR, Diagnostics), Vec<LoomError>> {
    let ast = parse_workflow(src).unwrap();
    loom_core::lower::lower(&ast, Vec::new(), vec![("work".to_string(), Some(prompt_of(prompt)))])
}

const WORK_FLOW: &str = r#"
    workflow test v1 {
        queue q1 "Q1"
        action work "Work" { produce agent prompt work }
        terminal done
        step s1 { q1 -> work }
    }
"#;

#[test]
fn test_duplicate_identifier() {
    let err = lower_inline(
        r#"
        workflow test v1 {
            queue q1 "Queue 1"
            queue q1 "Queue 1 again"
        }
    "#,
    )
    .unwrap_err();
    assert!(err.iter().any(|e| matches!(e, LoomError::DuplicateIdentifier { name } if name == "q1")));
}

#[test]
fn test_unresolved_step_queue() {
    let err = lower_inline(
        r#"
        workflow test v1 {
            action a1 "Action" { produce agent prompt a1 }
            step s1 { nonexistent -> a1 }
        }
    "#,
    )
    .unwrap_err();
    assert!(err.iter().any(|e| matches!(e, LoomError::UnresolvedReference { name, .. } if name == "nonexistent")));
}

#[test]
fn test_step_type_mismatch_queue_not_queue() {
    let err = lower_inline(
        r#"
        workflow test v1 {
            action a1 "Action" { produce agent prompt a1 }
            action a2 "Action2" { produce agent prompt a2 }
            step s1 { a1 -> a2 }
        }
    "#,
    )
    .unwrap_err();
    assert!(err.iter().any(|e| matches!(e, LoomError::StepTypeMismatch { .. })));
}

#[test]
fn test_invalid_override_action_not_in_phases() {
    let err = lower_inline(
        r#"
        workflow test v1 {
            queue q1 "Q1"
            queue q2 "Q2"
            action a1 "A1" { produce agent prompt a1 }
            action a2 "A2" { gate review agent prompt a2 }
            action a3 "A3" { produce agent prompt a3 }
            step s1 { q1 -> a1 }
            step s2 { q2 -> a2 }
            phase p1 { produce s1 gate s2 }
            profile test_profile {
                phases [p1]
                override a3 { executor human }
            }
        }
    "#,
    )
    .unwrap_err();
    assert!(err.iter().any(|e| matches!(e, LoomError::InvalidOverride { action } if action == "a3")));
}

#[test]
fn test_invalid_default_profile() {
    let ast = parse_workflow(
        r#"
        workflow test v1 {
            queue q1 "Q1"
            terminal done
            profile real_profile {
                phases []
            }
        }
    "#,
    )
    .unwrap();
    let err = lower_with_config(&ast, Vec::new(), Vec::new(), Some("nonexistent".to_string())).unwrap_err();
    assert!(err.iter().any(|e| matches!(e, LoomError::InvalidDefaultProfile { name } if name == "nonexistent")));
}

#[test]
fn test_enum_param_missing_values() {
    let err = lower_with_prompt(
        WORK_FLOW,
        "---\naccept: []\nsuccess:\n  done: done\nfailure: {}\nparams:\n  color:\n    type: enum\n    description: Pick a color\n---\nDo the thing.\n",
    )
    .unwrap_err();
    assert!(err.iter().any(|e| matches!(e, LoomError::ParamValidation { param, .. } if param == "color")));
}

#[test]
fn test_phase_type_mismatch() {
    let err = lower_inline(
        r#"
        workflow test v1 {
            queue q1 "Q1"
            queue q2 "Q2"
            action a1 "A1" { produce agent prompt a1 }
            action a2 "A2" { produce agent prompt a2 }
            step s1 { q1 -> a1 }
            step s2 { q2 -> a2 }
            phase p1 { produce s1 gate s2 }
        }
    "#,
    )
    .unwrap_err();
    assert!(err.iter().any(|e| matches!(e, LoomError::PhaseTypeMismatch { .. })));
}

#[test]
fn test_unresolved_step_action() {
    let err = lower_inline(
        r#"
        workflow test v1 {
            queue q1 "Q1"
            step s1 { q1 -> nonexistent }
        }
    "#,
    )
    .unwrap_err();
    assert!(err.iter().any(|e| matches!(e, LoomError::UnresolvedReference { name, .. } if name == "nonexistent")));
}

#[test]
fn test_step_type_mismatch_action_not_action() {
    let err = lower_inline(
        r#"
        workflow test v1 {
            queue q1 "Q1"
            queue q2 "Q2"
            step s1 { q1 -> q2 }
        }
    "#,
    )
    .unwrap_err();
    assert!(err.iter().any(|e| matches!(e, LoomError::StepTypeMismatch { .. })));
}

#[test]
fn test_unresolved_phase_produce_step() {
    let err = lower_inline(
        r#"
        workflow test v1 {
            queue q1 "Q1"
            action a1 "A1" { gate review agent prompt a1 }
            step s1 { q1 -> a1 }
            phase p1 { produce nonexistent gate s1 }
        }
    "#,
    )
    .unwrap_err();
    assert!(err.iter().any(|e| matches!(e, LoomError::UnresolvedReference { name, .. } if name == "nonexistent")));
}

#[test]
fn test_unresolved_phase_gate_step() {
    let err = lower_inline(
        r#"
        workflow test v1 {
            queue q1 "Q1"
            action a1 "A1" { produce agent prompt a1 }
            step s1 { q1 -> a1 }
            phase p1 { produce s1 gate nonexistent }
        }
    "#,
    )
    .unwrap_err();
    assert!(err.iter().any(|e| matches!(e, LoomError::UnresolvedReference { name, .. } if name == "nonexistent")));
}

#[test]
fn test_profile_undefined_phase() {
    let err = lower_inline(
        r#"
        workflow test v1 {
            queue q1 "Q1"
            profile p1 {
                phases [nonexistent_phase]
            }
        }
    "#,
    )
    .unwrap_err();
    assert!(err.iter().any(|e| matches!(e, LoomError::ProfileError { .. })));
}

#[test]
fn test_unresolved_wildcard_target() {
    let err = lower_inline(
        r#"
        workflow test v1 {
            queue q1 "Q1"
            * -> nonexistent
        }
    "#,
    )
    .unwrap_err();
    assert!(err.iter().any(|e| matches!(e, LoomError::UnresolvedReference { name, .. } if name == "nonexistent")));
}

#[test]
fn test_invalid_outcome_target() {
    let ast = parse_workflow(
        r#"
        workflow test v1 {
            queue q1 "Q1"
            action work "Work" { produce agent prompt work }
            step s1 { q1 -> work }
        }
    "#,
    )
    .unwrap();
    let prompt = prompt_of("---\naccept: []\nsuccess:\n  done: nonexistent_state\nfailure: {}\nparams: {}\n---\nDo work.\n");
    let err = loom_core::lower::lower(&ast, Vec::new(), vec![("work".to_string(), Some(prompt))]).unwrap_err();
    assert!(err.iter().any(|e| matches!(e, LoomError::InvalidOutcomeTarget { .. })));
}

#[test]
fn test_undeclared_body_param() {
    let err = lower_with_prompt(
        WORK_FLOW,
        "---\naccept: []\nsuccess:\n  done: done\nfailure: {}\nparams: {}\n---\nDo the {{ unknown }} thing.\n",
    )
    .unwrap_err();
    assert!(err.iter().any(|e| matches!(e, LoomError::UndeclaredParam { param, .. } if param == "unknown")));
}

#[test]
fn test_bool_param_bad_default() {
    let err = lower_with_prompt(
        WORK_FLOW,
        "---\naccept: []\nsuccess:\n  done: done\nfailure: {}\nparams:\n  flag:\n    type: bool\n    default: \"yes\"\n---\nUse {{ flag }}.\n",
    )
    .unwrap_err();
    assert!(err.iter().any(|e| matches!(e, LoomError::ParamValidation { param, .. } if param == "flag")));
}

#[test]
fn test_int_param_bad_default() {
    let err = lower_with_prompt(
        WORK_FLOW,
        "---\naccept: []\nsuccess:\n  done: done\nfailure: {}\nparams:\n  count:\n    type: int\n    default: \"abc\"\n---\nCount {{ count }}.\n",
    )
    .unwrap_err();
    assert!(err.iter().any(|e| matches!(e, LoomError::ParamValidation { param, .. } if param == "count")));
}

#[test]
fn test_enum_param_default_not_in_values() {
    let err = lower_with_prompt(
        WORK_FLOW,
        "---\naccept: []\nsuccess:\n  done: done\nfailure: {}\nparams:\n  color:\n    type: enum\n    values: [red, blue]\n    default: \"green\"\n---\nColor {{ color }}.\n",
    )
    .unwrap_err();
    assert!(err.iter().any(|e| matches!(e, LoomError::ParamValidation { param, .. } if param == "color")));
}

#[test]
fn test_duplicate_profile() {
    let err = lower_inline(
        r#"
        workflow test v1 {
            queue q1 "Q1"
            profile p1 { phases [] }
            profile p1 { phases [] }
        }
    "#,
    )
    .unwrap_err();
    assert!(err.iter().any(|e| matches!(e, LoomError::DuplicateIdentifier { name } if name == "p1")));
}

#[test]
fn missing_prompt_files_are_reported() {
    let err = lower_inline(WORK_FLOW).unwrap_err();
    assert!(err.iter().any(|e| matches!(e, LoomError::MissingPrompt { name } if name == "work")));
}

#[test]
fn a_valid_prompt_lowers_clean() {
    let (ir, diag) = lower_with_prompt(
        WORK_FLOW,
        "---\naccept: []\nsuccess:\n  done: done\nfailure: {}\nparams: {}\n---\nDo work.\n",
    )
    .unwrap();
    assert!(!diag.has_errors());
    assert_eq!(ir.states.len(), 3);
    assert_eq!(ir.prompts.len(), 1);
}

#[test]
fn lowering_reports_every_error_in_the_order_found() {
    let err = lower_inline(
        r#"
        workflow test v1 {
            queue q1 "Queue 1"
            queue q1 "Queue 1 again"
            action a1 "Action" { produce agent prompt a1 }
            step s1 { nowhere -> a1 }
            * -> missing_target
        }
    "#,
    )
    .unwrap_err();
    let messages: Vec<String> = err.iter().map(|e| e.message()).collect();
    assert_eq!(
        messages,
        vec![
            "Duplicate identifier: 'q1' already declared".to_string(),
            "Missing prompt file: prompts/a1.md".to_string(),
            "Unresolved reference: 'nowhere' not found".to_string(),
            "Unresolved reference: 'missing_target' not found".to_string(),
        ]
    );
    assert!(matches!(&err[2], LoomError::UnresolvedReference { context, .. } if context == "step 's1' queue reference"));
    assert!(matches!(&err[3], LoomError::UnresolvedReference { context, .. } if context == "wildcard transition target"));
}

#[test]
fn a_step_cannot_lead_into_an_escape_state() {
    let err = lower_inline(
        r#"
        workflow test v1 {
            queue q1 "Queue 1"
            escape parked
            step s1 { q1 -> parked }
        }
    "#,
    )
    .unwrap_err();
    assert_eq!(err.len(), 1);
    assert!(matches!(&err[0], LoomError::StepTypeMismatch { message } if message == "step 's1': right side is not an action state"));
}

#[test]
fn test_emit_toml() {
    let ir = load_knots();
    let toml_out = loom_core::codegen::toml_emit::emit_toml(&ir);

    assert!(toml_out.contains("[workflow]"));
    assert!(toml_out.contains("name = \"knots_sdlc\""));
    assert!(toml_out.contains("[states.ready_for_planning]"));
    assert!(toml_out.contains("[profiles.autopilot]"));
    // Prompt params
    assert!(toml_out.contains("[prompts.planning.params.complexity]"));
    assert!(toml_out.contains("type = \"enum\""));
}

#[test]
fn knots_bundle_of_the_knots_template() {
    let ir = load_knots();
    let b = loom_core::codegen::knots_bundle::build_knots_bundle(&ir);
    assert_eq!(b.format, "knots-bundle");
    assert_eq!(b.format_version, 2);
    assert_eq!(b.workflow.name, "knots_sdlc");
    assert_eq!(b.workflow.default_profile.as_deref(), Some("autopilot"));
    assert!(b.states.iter().any(|s| s.id == "planning"));
    assert!(b.steps.iter().any(|s| s.id == "plan" && s.action == "planning"));
    let planning = b.prompts.iter().find(|p| p.name == "planning").unwrap();
    let complexity = planning.params.iter().find(|p| p.name == "complexity").unwrap();
    assert_eq!(complexity.param_type, "enum");
    let semiauto = b.profiles.iter().find(|p| p.id == "semiauto").unwrap();
    assert_eq!(semiauto.executors.get("plan_review").copied(), Some("human"));
    assert!(b.transitions.queue_to_action.iter().any(|s| s.id == "plan"));
}

#[test]
fn test_parse_prompt() {
    let content = r#"---
accept:
  - Thing works
success:
  done: target_state
failure:
  fail: other_state
params:
  name:
    type: string
    description: The name
---

Do the {{ name }} thing.
"#;
    let prompt = prompt_of(content);
    assert_eq!(prompt.accept.len(), 1);
    assert_eq!(prompt.success.len(), 1);
    assert_eq!(prompt.failure.len(), 1);
    assert_eq!(prompt.params.len(), 1);
    assert_eq!(prompt.body_params, vec!["name"]);
}

#[test]
fn test_parse_empty_params() {
    let content = r#"---
accept: []
success:
  done: target
failure: {}
params: {}
---

Body text.
"#;
    let prompt = prompt_of(content);
    assert!(prompt.params.is_empty());
    assert!(prompt.body_params.is_empty());
}

#[test]
fn test_load_planning_prompt() {
    let text = template_files("knots_sdlc", &|_, c| c.to_string())
        .into_iter()
        .find(|(p, _)| p == "prompts/planning.md")
        .unwrap()
        .1;
    let prompt = prompt_of(&text);
    assert_eq!(prompt.success.len(), 1);
    assert_eq!(prompt.failure.len(), 2);
    assert_eq!(prompt.params.len(), 1);
    assert!(prompt.params.contains_key("complexity"));
}

const LONE_QUEUE_FLOW: &str = r#"
    workflow test v1 {
        queue q1 "Q1"
        queue idle "Idle"
        action work "Work" { produce agent prompt work }
        terminal done
        escape parked
        step s1 { q1 -> work }
    }
"#;

const LONE_QUEUE_PROMPT: &str = "---\naccept: []\nsuccess:\n  ok: done\nfailure:\n  blocked: q1\nparams: {}\n---\n\nWork.\n";

#[test]
fn a_state_with_only_wildcard_moves_ends_the_simulation() {
    let (ir, _) = lower_with_prompt(LONE_QUEUE_FLOW, LONE_QUEUE_PROMPT).unwrap();
    let idle = SimState { current: "idle".to_string(), history: Vec::new() };
    assert!(is_terminal(&idle, &ir));
    let q1 = SimState { current: "q1".to_string(), history: Vec::new() };
    assert!(!is_terminal(&q1, &ir));
}

#[test]
fn an_unreachable_queue_is_a_dead_state() {
    let (ir, _) = lower_with_prompt(LONE_QUEUE_FLOW, LONE_QUEUE_PROMPT).unwrap();
    let diag = validate(&ir);
    assert!(diag.errors.iter().any(|e| matches!(e, LoomError::DeadState { name, .. } if name == "idle")));
    assert!(!diag.errors.iter().any(|e| matches!(e, LoomError::DeadState { name, .. } if name == "q1")));
}

#[test]
fn escape_states_are_wildcard_targets_without_a_declaration() {
    let (ir, _) = lower_with_prompt(LONE_QUEUE_FLOW, LONE_QUEUE_PROMPT).unwrap();
    let g = build_graph(&ir);
    let parked = *g.node_indices.get("parked").unwrap();
    let work = *g.node_indices.get("work").unwrap();
    let done = *g.node_indices.get("done").unwrap();
    let into_parked: Vec<usize> = g
        .graph
        .raw_edges()
        .iter()
        .filter(|e| e.target().index() == parked)
        .map(|e| e.source().index())
        .collect();
    assert!(into_parked.contains(&work));
    assert!(!into_parked.contains(&done));
    let state = SimState { current: "work".to_string(), history: Vec::new() };
    assert!(available_transitions(&state, &ir).iter().any(|t| t.to == "parked"));
}

#[test]
fn the_same_workflow_diffs_empty_and_is_compatible() {
    let ir = load_knots();
    assert!(diff_workflows(&ir, &ir).is_empty());
    let r = check_compat(&ir, &ir);
    assert!(r.is_compatible);
    assert!(r.changes.is_empty());
}

#[test]
fn headings_capitalize_and_pluralize() {
    assert_eq!(capitalize_category("state"), "States");
    assert_eq!(capitalize_category("profile"), "Profiles");
    assert_eq!(capitalize_category(""), "");
}

#[test]
fn any_change_can_be_read_as_a_changed_item() {
    let added = Change {
        kind: ChangeKind::Added,
        category: "state".to_string(),
        name: "q".to_string(),
        detail: Some("display_name: 'A' -> 'B'".to_string()),
    };
    assert_eq!(classify_changed(&added), Severity::Safe);
    let outcome = Change { kind: ChangeKind::Removed, category: "outcome".to_string(), name: "x".to_string(), detail: None };
    assert_eq!(classify_changed(&outcome), Severity::MigrationRequired);
}

#[test]
fn the_simulator_finishes_at_the_end_and_offers_moves_elsewhere() {
    let ir = load_knots();
    let done = SimState { current: "shipped".to_string(), history: Vec::new() };
    assert!(matches!(loom_core::sim::next_move(&done, &ir), loom_core::sim::SimMove::Finished));
    let start = SimState { current: "ready_for_planning".to_string(), history: Vec::new() };
    match loom_core::sim::next_move(&start, &ir) {
        loom_core::sim::SimMove::Choose(ts) => {
            assert_eq!(ts.len(), available_transitions(&start, &ir).len());
            assert!(ts.iter().all(|t| t.from == "ready_for_planning"));
        }
        _ => panic!("expected transitions"),
    }
}

#[test]
fn an_escape_with_no_way_back_is_reported() {
    let (ir, _) = lower_with_prompt(LONE_QUEUE_FLOW, LONE_QUEUE_PROMPT).unwrap();
    let diag = validate(&ir);
    assert!(diag.errors.iter().any(|e| matches!(e, LoomError::EscapeUnreachable { name } if name == "parked")));
}

#[test]
fn escape_states_take_wildcard_transitions_too() {
    let flow = LONE_QUEUE_FLOW.replace("step s1 { q1 -> work }", "step s1 { q1 -> work }\n        * -> done");
    let (ir, _) = lower_with_prompt(&flow, LONE_QUEUE_PROMPT).unwrap();
    let g = build_graph(&ir);
    let parked = *g.node_indices.get("parked").unwrap();
    let done = *g.node_indices.get("done").unwrap();
    assert!(g
        .graph
        .raw_edges()
        .iter()
        .any(|e| e.source().index() == parked && e.target().index() == done));
    let diag = validate(&ir);
    assert!(!diag.errors.iter().any(|e| matches!(e, LoomError::EscapeUnreachable { .. })));
}
