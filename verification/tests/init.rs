use loom_core::init::{display_dir, resolve_template_id, workflow_name_from_dir_name};

#[test]
fn defaults_to_minimal_for_unknown_name() {
    assert_eq!(resolve_template_id("payments_flow", None), "minimal");
}

#[test]
fn treats_builtin_template_name_as_shorthand() {
    assert_eq!(resolve_template_id("knots_sdlc", None), "knots_sdlc");
}

#[test]
fn explicit_template_wins_over_shorthand() {
    assert_eq!(resolve_template_id("knots_sdlc", Some("minimal")), "minimal");
}

#[test]
fn formats_relative_init_path_for_display() {
    assert_eq!(display_dir("payments_flow"), "./payments_flow/");
}

#[test]
fn formats_absolute_init_path_for_display() {
    assert_eq!(display_dir("/tmp/payments_flow"), "/tmp/payments_flow/");
}

#[test]
fn normalizes_directory_names_into_identifiers() {
    assert_eq!(workflow_name_from_dir_name("payments-flow").unwrap(), "payments_flow");
    assert_eq!(workflow_name_from_dir_name("_x.y").unwrap(), "_x_y");
    assert_eq!(workflow_name_from_dir_name("café").unwrap(), "caf_");
}

#[test]
fn rejects_directory_names_starting_with_a_digit_or_empty() {
    let err = workflow_name_from_dir_name("9lives").unwrap_err();
    assert_eq!(
        err,
        "workflow directory name '9lives' cannot be converted to a valid Loom identifier"
    );
    assert!(workflow_name_from_dir_name("").is_err());
}
