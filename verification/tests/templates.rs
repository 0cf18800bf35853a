use loom_core::templates::{
    available_template_ids, default_template_id, get, list, render_contents, replace_str,
};

#[test]
fn test_registry_contains_builtin_templates() {
    let templates = list();
    assert_eq!(templates.len(), 2);
    assert_eq!(templates[0].id, "minimal");
    assert_eq!(templates[1].id, "knots_sdlc");
    assert_eq!(default_template_id(), "minimal");
}

#[test]
fn test_knots_sdlc_template_rewrites_workflow_name() {
    let rendered = render_contents(
        "knots_sdlc",
        "workflow.loom",
        "workflow knots_sdlc v1 {}",
        "payments_sdlc",
    );
    assert_eq!(rendered, "workflow payments_sdlc v1 {}");
}

#[test]
fn minimal_template_placeholder_is_replaced_everywhere() {
    let t = get("minimal").unwrap();
    let toml = t.files.iter().find(|f| f.relative_path == "loom.toml").unwrap();
    let rendered = render_contents("minimal", "loom.toml", toml.contents, "payments_flow");
    assert!(rendered.contains("name = \"payments_flow\""));
    assert!(!rendered.contains("__WORKFLOW_NAME__"));
    let wf = t.files.iter().find(|f| f.relative_path == "workflow.loom").unwrap();
    let rendered = render_contents("minimal", "workflow.loom", wf.contents, "payments_flow");
    assert!(rendered.contains("workflow payments_flow v1"));
}

#[test]
fn knots_sdlc_prompts_are_left_as_they_are() {
    let rendered = render_contents("knots_sdlc", "prompts/planning.md", "knots_sdlc", "x");
    assert_eq!(rendered, "knots_sdlc");
    let rendered = render_contents("other", "loom.toml", "knots_sdlc", "x");
    assert_eq!(rendered, "knots_sdlc");
}

#[test]
fn replace_scans_left_to_right_without_overlap() {
    assert_eq!(replace_str("aaaa", "aa", "b"), "bb");
    assert_eq!(replace_str("aaa", "aa", "b"), "ba");
    assert_eq!(replace_str("abcabc", "bc", ""), "aa");
    assert_eq!(replace_str("", "x", "y"), "");
    assert_eq!(replace_str("abc", "", "X"), "abc".replace("", "X"));
    assert_eq!(replace_str("", "", "X"), "X");
}

#[test]
fn looks_up_templates_by_id() {
    assert_eq!(get("knots_sdlc").unwrap().files.len(), 14);
    assert_eq!(get("minimal").unwrap().files.len(), 4);
    assert!(get("unknown").is_none());
    assert_eq!(available_template_ids(), "minimal, knots_sdlc");
}

#[test]
fn lists_templates_in_columns() {
    assert_eq!(
        loom_core::templates::template_list_lines(),
        vec![
            "minimal     One produce step, one review step, one phase, one default profile (default)",
            "knots_sdlc  Planning, implementation, review, shipment, and multiple execution profiles",
        ]
    );
}

#[test]
fn names_unknown_templates() {
    assert_eq!(
        loom_core::templates::unknown_template("nope"),
        "unknown template 'nope'; available templates: minimal, knots_sdlc"
    );
}
