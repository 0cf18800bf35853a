use loom_core::parse::ast::{ActionType, Constraint, Declaration, Executor, GateKind, OutputKind, ProfileField};
use loom_core::parse::{parse_profile_file, parse_workflow};
use loom_core::error::LoomError;
use loom_core::templates::get;

#[test]
fn test_parse_minimal_workflow() {
    let input = r#"
            workflow test v1 {
                queue q1 "Queue One"
                terminal done "Done"
            }
        "#;
    let wf = parse_workflow(input).unwrap();
    assert_eq!(wf.name, "test");
    assert_eq!(wf.version, 1);
    assert_eq!(wf.declarations.len(), 2);
}

#[test]
fn test_parse_action() {
    let input = r#"
            workflow test v1 {
                action planning "Planning" {
                    produce agent
                    prompt planning
                    constraint read_only
                }
            }
        "#;
    let wf = parse_workflow(input).unwrap();
    assert_eq!(wf.declarations.len(), 1);
    if let Declaration::Action(a) = &wf.declarations[0] {
        assert_eq!(a.name, "planning");
        assert_eq!(a.action_type, ActionType::Produce(Executor::Agent));
        assert_eq!(a.prompt, "planning");
        assert_eq!(a.constraints, vec![Constraint::ReadOnly]);
    } else {
        panic!("expected action");
    }
}

#[test]
fn test_parse_gate_action() {
    let input = r#"
            workflow test v1 {
                action review "Review" {
                    gate review human
                    prompt review
                }
            }
        "#;
    let wf = parse_workflow(input).unwrap();
    if let Declaration::Action(a) = &wf.declarations[0] {
        assert_eq!(a.action_type, ActionType::Gate(GateKind::Review, Executor::Human));
    } else {
        panic!("expected action");
    }
}

#[test]
fn test_parse_step() {
    let input = r#"
            workflow test v1 {
                step plan {
                    q1 -> a1
                }
            }
        "#;
    let wf = parse_workflow(input).unwrap();
    if let Declaration::Step(s) = &wf.declarations[0] {
        assert_eq!(s.name, "plan");
        assert_eq!(s.queue, "q1");
        assert_eq!(s.action, "a1");
    } else {
        panic!("expected step");
    }
}

#[test]
fn test_parse_phase() {
    let input = r#"
            workflow test v1 {
                phase p1 {
                    produce s1
                    gate s2
                }
            }
        "#;
    let wf = parse_workflow(input).unwrap();
    if let Declaration::Phase(p) = &wf.declarations[0] {
        assert_eq!(p.name, "p1");
        assert_eq!(p.produce_step, "s1");
        assert_eq!(p.gate_step, "s2");
    } else {
        panic!("expected phase");
    }
}

#[test]
fn test_parse_profile() {
    let input = r#"
            workflow test v1 {
                profile auto "Autopilot" {
                    description "Full auto"
                    phases [p1, p2]
                    output remote_main
                    override review {
                        executor human
                    }
                }
            }
        "#;
    let wf = parse_workflow(input).unwrap();
    if let Declaration::Profile(p) = &wf.declarations[0] {
        assert_eq!(p.name, "auto");
        assert_eq!(p.display_name, Some("Autopilot".to_string()));
        assert_eq!(p.fields.len(), 4);
    } else {
        panic!("expected profile");
    }
}

#[test]
fn test_parse_wildcard() {
    let input = r#"
            workflow test v1 {
                * -> abandoned
            }
        "#;
    let wf = parse_workflow(input).unwrap();
    if let Declaration::WildcardTransition(w) = &wf.declarations[0] {
        assert_eq!(w.target, "abandoned");
    } else {
        panic!("expected wildcard");
    }
}

#[test]
fn parses_the_knots_sdlc_template_workflow() {
    let t = get("knots_sdlc").unwrap();
    let file = t.files.iter().find(|f| f.relative_path == "workflow.loom").unwrap();
    let wf = parse_workflow(file.contents).unwrap();
    assert_eq!(wf.name, "knots_sdlc");
    assert_eq!(wf.version, 1);
    // 6 actions + 2 terminals + 1 escape + 2 wildcards + 6 steps + 3 phases + 6 includes
    assert_eq!(wf.declarations.len(), 26);
}

#[test]
fn parses_a_profile_file_with_overrides() {
    let input = r#"
profile semiauto "Semi-automatic" {
    description "Human-gated plan and implementation reviews"
    phases [planning_phase, implementation_phase, shipment_phase]
    output remote_main

    override plan_review {
        executor human
    }
}
"#;
    let profile = parse_profile_file(input).unwrap();
    assert_eq!(profile.name, "semiauto");
    assert_eq!(profile.display_name, Some("Semi-automatic".to_string()));
    assert_eq!(profile.fields.len(), 4);
    match &profile.fields[2] {
        ProfileField::Output(k) => assert_eq!(*k, OutputKind::RemoteMain),
        _ => panic!("expected output"),
    }
    match &profile.fields[3] {
        ProfileField::Override(o) => {
            assert_eq!(o.action, "plan_review");
            assert_eq!(o.executor, Some(Executor::Human));
        }
        _ => panic!("expected override"),
    }
}

#[test]
fn step_shorthand_names_the_ready_queue() {
    let wf = parse_workflow("workflow w v2 { step plan -> planning }").unwrap();
    assert_eq!(wf.version, 2);
    if let Declaration::Step(s) = &wf.declarations[0] {
        assert_eq!(s.queue, "ready_for_planning");
        assert!(!s.queue_explicit);
    } else {
        panic!("expected step");
    }
}

#[test]
fn action_prompt_defaults_to_its_name() {
    let wf = parse_workflow("workflow w v1 { action build { produce agent } }").unwrap();
    if let Declaration::Action(a) = &wf.declarations[0] {
        assert_eq!(a.prompt, "build");
        assert!(!a.prompt_explicit);
        assert_eq!(a.display_name, None);
    } else {
        panic!("expected action");
    }
}

#[test]
fn rejects_malformed_workflows() {
    assert!(parse_workflow("workflow w { }").is_err());
    assert!(parse_workflow("workflow w v1 { queue }").is_err());
    assert!(parse_workflow("workflow w v1 { queue q \"unterminated }").is_err());
    assert!(parse_workflow("").is_err());
    assert!(parse_profile_file("profile p { phases [a, }").is_err());
}

#[test]
fn comments_are_ignored() {
    let wf = parse_workflow("// heading\nworkflow w v1 {\n  // a queue\n  queue q\n}\n").unwrap();
    assert_eq!(wf.declarations.len(), 1);
}

#[test]
fn syntax_errors_are_parse_errors() {
    let e = parse_workflow("workflow w { }").unwrap_err();
    assert!(matches!(&e, LoomError::Parse { message } if message == "expected a version such as `v1`"));
    let e = parse_workflow("workflow w v1 { queue q \u{0001} }").unwrap_err();
    assert!(matches!(&e, LoomError::Parse { message } if message == "invalid character"));
    assert!(matches!(parse_profile_file("profile p { phases [a, }"), Err(LoomError::Parse { .. })));
}

#[test]
fn test_parse_profile_file() {
    let t = get("knots_sdlc").unwrap();
    let input = t.files.iter().find(|f| f.relative_path == "profiles/semiauto.loom").unwrap().contents;
    let profile = parse_profile_file(input).unwrap();
    assert_eq!(profile.name, "semiauto");
    assert_eq!(profile.display_name, Some("Semi-automatic".to_string()));
}
