use loom_core::install::{
    channel_note, confirms_removal, in_channel, looks_like_cargo_install,
    looks_like_installed_binary, removal_targets, symlink_candidates, validate_install_location,
    InstallPath, PathPart,
};
use std::path::{Component, Path};

fn parts(p: &str) -> Vec<PathPart> {
    Path::new(p)
        .components()
        .map(|c| match c {
            Component::RootDir => PathPart::Root,
            Component::CurDir => PathPart::Current,
            Component::ParentDir => PathPart::Parent,
            Component::Normal(s) => PathPart::Normal(s.to_string_lossy().to_string()),
            Component::Prefix(p) => PathPart::Normal(p.as_os_str().to_string_lossy().to_string()),
        })
        .collect()
}

fn install_path(p: &str) -> InstallPath {
    InstallPath { parts: parts(p), display: p.to_string() }
}

#[test]
fn recognizes_installed_paths() {
    let channel = parts("/home/someone/.local/bin/acartine_loom");
    assert!(looks_like_installed_binary(&parts("/tmp/test/.local/bin/loom"), &channel));
    assert!(looks_like_installed_binary(&parts("/usr/local/bin/loom"), &channel));
    assert!(!looks_like_installed_binary(&parts("/tmp/project/target/debug/loom"), &channel));
}

#[test]
fn recognizes_channel_and_system_installs() {
    let channel = parts("/home/someone/.local/bin/acartine_loom");
    assert!(looks_like_installed_binary(
        &parts("/home/someone/.local/bin/acartine_loom/release/loom"),
        &channel
    ));
    assert!(looks_like_installed_binary(&parts("/usr/bin/loom"), &channel));
    assert!(looks_like_installed_binary(&parts("/opt/homebrew/bin/loom"), &channel));
    assert!(!looks_like_installed_binary(&parts("/usr/local/binx/loom"), &channel));
    assert!(!looks_like_installed_binary(&parts("/home/someone/.local/loom"), &channel));
    assert!(in_channel(&parts("/home/someone/.local/bin/acartine_loom/local/loom"), &channel));
    assert!(!in_channel(&parts("/home/someone/.local/bin/loom"), &channel));
}

#[test]
fn recognizes_cargo_installs() {
    assert!(looks_like_cargo_install(&parts("/home/someone/.cargo/bin/loom")));
    assert!(!looks_like_cargo_install(&parts("/home/someone/.cargo/loom")));
    assert!(!looks_like_cargo_install(&parts("/usr/local/bin/loom")));
}

#[test]
fn validates_install_locations() {
    let channel = parts("/home/someone/.local/bin/acartine_loom");
    assert!(validate_install_location(&install_path("/usr/local/bin/loom"), "uninstall", &channel).is_ok());
    assert_eq!(
        validate_install_location(&install_path("/usr/local/bin/other"), "uninstall", &channel).unwrap_err(),
        "refusing to uninstall from /usr/local/bin/other: the executable does not look like an installed `loom` binary"
    );
    assert_eq!(
        validate_install_location(&install_path("/home/someone/.cargo/bin/loom"), "self-update", &channel)
            .unwrap_err(),
        "refusing to self-update from /home/someone/.cargo/bin/loom: this looks like a cargo-installed binary; use `cargo uninstall loom` instead"
    );
    assert_eq!(
        validate_install_location(&install_path("/tmp/project/target/debug/loom"), "uninstall", &channel)
            .unwrap_err(),
        "refusing to uninstall from /tmp/project/target/debug/loom: install Loom into ~/.local/bin, /usr/local/bin, /usr/bin, or /opt/homebrew/bin first"
    );
}

#[test]
fn lists_symlink_candidates() {
    assert_eq!(
        symlink_candidates("/home/u"),
        vec!["/home/u/.local/bin/loom", "/usr/local/bin/loom", "/opt/homebrew/bin/loom"]
    );
}

#[test]
fn lists_removal_targets() {
    let links = vec!["/home/u/.local/bin/loom".to_string()];
    assert_eq!(
        removal_targets(&links, "/c/release/loom", true, true, "/c"),
        vec![
            "symlink: /home/u/.local/bin/loom",
            "binary: /c/release/loom",
            "channel directory: /c"
        ]
    );
    assert_eq!(removal_targets(&Vec::new(), "/usr/bin/loom", true, false, "/c"), vec!["binary: /usr/bin/loom"]);
    assert_eq!(removal_targets(&Vec::new(), "/usr/bin/loom", false, true, "/c"), vec!["binary: /usr/bin/loom"]);
}

#[test]
fn notes_remaining_channel_directory() {
    assert_eq!(
        channel_note(false, true, "/c").unwrap(),
        "\nNote: channel directory /c still exists. Use --purge to remove it."
    );
    assert!(channel_note(true, true, "/c").is_none());
    assert!(channel_note(false, false, "/c").is_none());
}

#[test]
fn reads_confirmation_answers() {
    assert!(confirms_removal("y"));
    assert!(confirms_removal("  YES \n"));
    assert!(confirms_removal("Yes"));
    assert!(!confirms_removal(""));
    assert!(!confirms_removal("no"));
    assert!(!confirms_removal("yess"));
    assert!(!confirms_removal("y e s"));
}
