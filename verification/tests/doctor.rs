use loom_core::doctor::{
    append_block_if_missing, bash_rc_loads_loom, completion_check, completion_marker_text,
    completion_plan, fix_for, installed_message, issue_count, result_lines, shell_kind,
    summary_line, version_check, zsh_rc_loads_loom, CheckResult, CheckStatus, DoctorFix,
    LookupFailure, ShellKind,
};

const ZSH_BLOCK: &str = "# >>> loom completions >>>\nif [[ -d \"$HOME/.zfunc\" ]]; then\n  fpath=(\"$HOME/.zfunc\" $fpath)\nfi\nif ! whence -w compdef >/dev/null 2>&1; then\n  autoload -Uz compinit\n  compinit\nfi\n# <<< loom completions <<<\n";

#[test]
fn version_check_reports_out_of_date() {
    let r = version_check("0.1.0", &Ok("v0.2.0".to_string()));
    assert_eq!(r.name, "version");
    assert_eq!(r.status, CheckStatus::Fail);
    assert_eq!(r.message, "loom 0.1.0 is out of date (latest: v0.2.0)");
    assert_eq!(r.fix_message.as_deref(), Some("Run `loom update` or `loom doctor --fix` to update."));
}

#[test]
fn version_check_reports_up_to_date() {
    let r = version_check("0.2.0", &Ok("v0.2.0".to_string()));
    assert_eq!(r.status, CheckStatus::Pass);
    assert_eq!(r.message, "loom 0.2.0 (up to date)");
    assert!(r.fix_message.is_none());
    let newer = version_check("0.3.0", &Ok("v0.2.0".to_string()));
    assert_eq!(newer.status, CheckStatus::Pass);
}

#[test]
fn version_check_warns_on_failures() {
    let r = version_check("0.1.0", &Err(LookupFailure::Offline("timeout".to_string())));
    assert_eq!(r.status, CheckStatus::Warn);
    assert_eq!(r.message, "could not check for updates (offline?): timeout");
    let r = version_check("0.1.0", &Err(LookupFailure::Platform("none".to_string())));
    assert_eq!(r.message, "could not detect platform: none");
    let r = version_check("0.1.0", &Err(LookupFailure::Client("tls".to_string())));
    assert_eq!(r.message, "could not create HTTP client: tls");
    let r = version_check("0.1.0", &Ok("nightly".to_string()));
    assert_eq!(r.status, CheckStatus::Warn);
    assert!(r.message.starts_with("could not parse latest version 'nightly': "));
    let r = version_check("dev", &Ok("v0.2.0".to_string()));
    assert!(r.message.starts_with("could not parse current version 'dev': "));
}

#[test]
fn completion_check_outcomes() {
    let r = completion_check(None, false);
    assert_eq!(r.status, CheckStatus::Warn);
    assert_eq!(r.message, "could not detect shell ($SHELL not set)");
    let r = completion_check(Some("tcsh"), true);
    assert_eq!(r.message, "unsupported shell for completion check: tcsh");
    let r = completion_check(Some("zsh"), true);
    assert_eq!(r.status, CheckStatus::Pass);
    assert_eq!(r.message, "installed (zsh)");
    let r = completion_check(Some("fish"), false);
    assert_eq!(r.status, CheckStatus::Fail);
    assert_eq!(r.message, "not installed (fish)");
    assert_eq!(r.fix_message.as_deref(), Some("Run `loom doctor --fix` to install fish completions."));
}

#[test]
fn names_supported_shells() {
    assert_eq!(shell_kind("zsh"), Some(ShellKind::Zsh));
    assert_eq!(shell_kind("bash"), Some(ShellKind::Bash));
    assert_eq!(shell_kind("fish"), Some(ShellKind::Fish));
    assert_eq!(shell_kind("sh"), None);
}

#[test]
fn zsh_startup_file_needs_wiring() {
    assert!(!zsh_rc_loads_loom(None));
    assert!(!zsh_rc_loads_loom(Some("export PATH=$PATH:~/bin\n")));
    assert!(zsh_rc_loads_loom(Some(ZSH_BLOCK)));
    assert!(zsh_rc_loads_loom(Some("fpath=(~/.zfunc $fpath)\nautoload -Uz compinit && compinit\n")));
    assert!(!zsh_rc_loads_loom(Some("fpath=(~/.zfunc $fpath)\n")));
}

#[test]
fn bash_startup_file_needs_wiring() {
    let rc = "if [ -f \"$HOME/.bash_completion.d/loom\" ]; then\n  . \"$HOME/.bash_completion.d/loom\"\nfi\n";
    assert!(bash_rc_loads_loom(Some(rc)));
    assert!(bash_rc_loads_loom(Some("for f in ~/.bash_completion.d/*; do source $f; done")));
    assert!(!bash_rc_loads_loom(Some("alias ll='ls -l'")));
    assert!(!bash_rc_loads_loom(None));
}

#[test]
fn appends_completion_block_once() {
    assert_eq!(append_block_if_missing("", ZSH_BLOCK, completion_marker_text()).unwrap(), ZSH_BLOCK);
    assert_eq!(
        append_block_if_missing("export A=1", "B\n", completion_marker_text()).unwrap(),
        "export A=1\nB\n"
    );
    assert_eq!(append_block_if_missing("A\n", "B\n", completion_marker_text()).unwrap(), "A\nB\n");
    assert!(append_block_if_missing(ZSH_BLOCK, ZSH_BLOCK, completion_marker_text()).is_none());
}

#[test]
fn plans_completion_installs() {
    let zsh = completion_plan(Some("zsh")).unwrap();
    assert_eq!(zsh.shell, ShellKind::Zsh);
    assert_eq!((zsh.dir.as_str(), zsh.file.as_str(), zsh.rc_file.as_str()), (".zfunc", "_loom", ".zshrc"));
    assert_eq!(zsh.rc_block, ZSH_BLOCK);
    let bash = completion_plan(Some("bash")).unwrap();
    assert_eq!((bash.dir.as_str(), bash.file.as_str()), (".bash_completion.d", "loom"));
    assert!(bash.rc_block.contains(".bash_completion.d/loom"));
    let fish = completion_plan(Some("fish")).unwrap();
    assert_eq!(fish.file, "loom.fish");
    assert!(fish.rc_block.is_empty());
    assert_eq!(completion_plan(Some("ksh")).err().unwrap(), "unsupported shell for completion install: ksh");
    assert_eq!(completion_plan(None).err().unwrap(), "could not detect shell ($SHELL not set)");
    assert_eq!(installed_message("zsh", "/h/.zfunc/_loom"), "Installed zsh completions to /h/.zfunc/_loom");
}

fn check(name: &str, status: CheckStatus, fix: Option<&str>) -> CheckResult {
    CheckResult {
        name: name.to_string(),
        status,
        message: "m".to_string(),
        fix_message: fix.map(|f| f.to_string()),
    }
}

#[test]
fn reports_check_results() {
    assert_eq!(result_lines(&check("version", CheckStatus::Pass, None)), vec!["  \u{2713} version: m"]);
    assert_eq!(
        result_lines(&check("shell completions", CheckStatus::Fail, Some("do it"))),
        vec!["  \u{2717} shell completions: m", "    do it"]
    );
    assert_eq!(result_lines(&check("x", CheckStatus::Warn, None)), vec!["  ! x: m"]);
}

#[test]
fn counts_and_fixes_issues() {
    let results = vec![
        check("version", CheckStatus::Fail, None),
        check("shell completions", CheckStatus::Warn, None),
        check("other", CheckStatus::Pass, None),
    ];
    assert_eq!(issue_count(&results), 2);
    assert_eq!(fix_for(&results[0]), Some(DoctorFix::Update));
    assert_eq!(fix_for(&results[1]), Some(DoctorFix::Completions));
    assert_eq!(fix_for(&results[2]), None);
    assert_eq!(fix_for(&check("version", CheckStatus::Pass, None)), None);
}

#[test]
fn summarizes_doctor_run() {
    assert_eq!(summary_line(true, 2, 2), "All issues fixed.");
    assert_eq!(summary_line(true, 1, 2), "1 of 2 issue(s) fixed.");
    assert_eq!(summary_line(false, 0, 3), "3 issue(s) found. Run `loom doctor --fix` to fix.");
    assert_eq!(summary_line(false, 0, 0), "All checks passed.");
    assert_eq!(summary_line(true, 0, 0), "All checks passed.");
}

#[test]
fn an_added_block_is_added_once_and_loads_completions() {
    let once = append_block_if_missing("export PATH=/bin", ZSH_BLOCK, completion_marker_text()).unwrap();
    assert_eq!(once, format!("export PATH=/bin\n{ZSH_BLOCK}"));
    assert!(append_block_if_missing(&once, ZSH_BLOCK, completion_marker_text()).is_none());
    assert!(zsh_rc_loads_loom(Some(&once)));
    assert!(!zsh_rc_loads_loom(Some("export PATH=/bin")));
}
