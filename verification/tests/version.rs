use loom_core::version::{compare_versions, normalize_version, plan_update, UpdateStep, VersionOrder};

fn report(step: UpdateStep) -> String {
    match step {
        UpdateStep::Report(s) => s,
        UpdateStep::Install => panic!("expected a report"),
    }
}

#[test]
fn normalizes_tags_and_versions() {
    let a = normalize_version("v1.2.3").unwrap();
    let b = normalize_version("1.2.3").unwrap();
    assert_eq!(compare_versions(&a, &b), VersionOrder::Same);
    let c = normalize_version("vv1.10.0").unwrap();
    assert_eq!(compare_versions(&c, &a), VersionOrder::Newer);
    assert_eq!(compare_versions(&a, &c), VersionOrder::Older);
    let pre = normalize_version("1.2.3-rc.1").unwrap();
    assert_eq!(compare_versions(&pre, &b), VersionOrder::Older);
    assert!(normalize_version("1.2").is_err());
    assert!(normalize_version("").is_err());
}

#[test]
fn plans_update_checks() {
    assert_eq!(
        report(plan_update("0.1.0", "v0.2.0", true, false).unwrap()),
        "Update available: 0.1.0 -> v0.2.0"
    );
    assert_eq!(report(plan_update("0.2.0", "v0.2.0", true, false).unwrap()), "Already up to date: 0.2.0");
    assert_eq!(
        report(plan_update("0.3.0", "v0.2.0", true, false).unwrap()),
        "Current version 0.3.0 is newer than latest release v0.2.0"
    );
}

#[test]
fn plans_update_installs() {
    assert!(matches!(plan_update("0.1.0", "v0.2.0", false, false).unwrap(), UpdateStep::Install));
    assert_eq!(report(plan_update("0.2.0", "v0.2.0", false, false).unwrap()), "Already up to date: 0.2.0");
    assert!(matches!(plan_update("0.2.0", "v0.2.0", false, true).unwrap(), UpdateStep::Install));
    assert_eq!(report(plan_update("0.3.0", "v0.2.0", false, false).unwrap()), "Already up to date: 0.3.0");
}

#[test]
fn plan_update_rejects_unparsable_versions() {
    assert!(plan_update("0.1.0", "latest", true, false).is_err());
    assert!(plan_update("zero", "v0.1.0", false, false).is_err());
    let err = plan_update("0.1.0", "v1.0", false, false).unwrap_err();
    assert!(!err.is_empty());
}
