//! The checks of `loom doctor`: whether the binary is up to date, whether shell completions
//! are installed, and how their results are reported and fixed.
use vstd::prelude::*;
use crate::text::{nat_text, push_str, str_contains, str_equal, u64_text, contains_text};
use crate::version::{normalize_version, compare_versions, semver_order, semver_parse, strip_v, VersionOrder};

verus! {

broadcast use vstd::string::group_string_axioms;

/// How a check came out.
#[derive(Debug, Clone, Copy, PartialEq, Eq, Structural)]
pub enum CheckStatus {
    Pass,
    Warn,
    Fail,
}

/// The outcome of one check: its name, how it came out, what it found, and how to fix it.
#[derive(Debug)]
pub struct CheckResult {
    pub name: String,
    pub status: CheckStatus,
    pub message: String,
    pub fix_message: Option<String>,
}

/// A check's outcome as a value.
pub struct CheckResultV {
    pub name: Seq<char>,
    pub status: CheckStatus,
    pub message: Seq<char>,
    pub fix_message: Option<Seq<char>>,
}

impl View for CheckResult {
    type V = CheckResultV;

    open spec fn view(&self) -> CheckResultV {
        CheckResultV {
            name: self.name@,
            status: self.status,
            message: self.message@,
            fix_message: match self.fix_message {
                Some(f) => Some(f@),
                None => None,
            },
        }
    }
}

/// A check's outcome with no fix to offer.
pub open spec fn outcome(name: Seq<char>, status: CheckStatus, message: Seq<char>) -> CheckResultV {
    CheckResultV { name, status, message, fix_message: None }
}

fn result(name: &str, status: CheckStatus, message: String) -> (r: CheckResult)
    ensures
        r@ == outcome(name@, status, message@),
{
    CheckResult { name: String::from_str(name), status, message, fix_message: None }
}

/// Why the latest release could not be looked up.
#[derive(Debug)]
pub enum LookupFailure {
    /// No release is published for this platform.
    Platform(String),
    /// The HTTP client could not be set up.
    Client(String),
    /// The request for the latest release failed.
    Offline(String),
}

/// The outcome of the version check for the running version `current`, given the latest
/// release's tag or why it could not be looked up.
pub open spec fn version_outcome(current: Seq<char>, latest: Result<Seq<char>, (int, Seq<char>)>) -> CheckResultV {
    let name = "version"@;
    match latest {
        Err((k, e)) => outcome(name, CheckStatus::Warn, if k == 0 {
            "could not detect platform: "@ + e
        } else if k == 1 {
            "could not create HTTP client: "@ + e
        } else {
            "could not check for updates (offline?): "@ + e
        }),
        Ok(tag) => if semver_parse(strip_v(tag)) is Err {
            outcome(name, CheckStatus::Warn, "could not parse latest version '"@ + tag + "': "@
                + semver_parse(strip_v(tag))->Err_0)
        } else if semver_parse(strip_v(current)) is Err {
            outcome(name, CheckStatus::Warn, "could not parse current version '"@ + current + "': "@
                + semver_parse(strip_v(current))->Err_0)
        } else if semver_order(strip_v(tag), strip_v(current)) == VersionOrder::Newer {
            CheckResultV {
                name,
                status: CheckStatus::Fail,
                message: "loom "@ + current + " is out of date (latest: "@ + tag + ")"@,
                fix_message: Some("Run `loom update` or `loom doctor --fix` to update."@),
            }
        } else {
            outcome(name, CheckStatus::Pass, "loom "@ + current + " (up to date)"@)
        },
    }
}

/// The lookup failure as a kind and its text.
pub open spec fn failure_view(f: LookupFailure) -> (int, Seq<char>) {
    match f {
        LookupFailure::Platform(e) => (0, e@),
        LookupFailure::Client(e) => (1, e@),
        LookupFailure::Offline(e) => (2, e@),
    }
}

/// Checks whether the running version `current` is the latest release.
pub fn version_check(current: &str, latest: &Result<String, LookupFailure>) -> (r: CheckResult)
    ensures
        r@ == version_outcome(current@, match latest {
            Ok(t) => Ok(t@),
            Err(f) => Err(failure_view(*f)),
        }),
        latest matches Ok(t) && strip_v(t@) == strip_v(current@) && semver_parse(strip_v(current@)) is Ok
            ==> r@.status == CheckStatus::Pass,
{
    let tag = match latest {
        Err(LookupFailure::Platform(e)) => {
            let mut m = String::from_str("could not detect platform: ");
            push_str(&mut m, e.as_str());
            return result("version", CheckStatus::Warn, m);
        },
        Err(LookupFailure::Client(e)) => {
            let mut m = String::from_str("could not create HTTP client: ");
            push_str(&mut m, e.as_str());
            return result("version", CheckStatus::Warn, m);
        },
        Err(LookupFailure::Offline(e)) => {
            let mut m = String::from_str("could not check for updates (offline?): ");
            push_str(&mut m, e.as_str());
            return result("version", CheckStatus::Warn, m);
        },
        Ok(t) => t,
    };
    let latest_version = match normalize_version(tag.as_str()) {
        Ok(v) => v,
        Err(e) => {
            let mut m = String::from_str("could not parse latest version '");
            push_str(&mut m, tag.as_str());
            push_str(&mut m, "': ");
            push_str(&mut m, e.as_str());
            return result("version", CheckStatus::Warn, m);
        },
    };
    let current_version = match normalize_version(current) {
        Ok(v) => v,
        Err(e) => {
            let mut m = String::from_str("could not parse current version '");
            push_str(&mut m, current);
            push_str(&mut m, "': ");
            push_str(&mut m, e.as_str());
            return result("version", CheckStatus::Warn, m);
        },
    };
    if compare_versions(&latest_version, &current_version) == VersionOrder::Newer {
        let mut m = String::from_str("loom ");
        push_str(&mut m, current);
        push_str(&mut m, " is out of date (latest: ");
        push_str(&mut m, tag.as_str());
        push_str(&mut m, ")");
        CheckResult {
            name: String::from_str("version"),
            status: CheckStatus::Fail,
            message: m,
            fix_message: Some(String::from_str("Run `loom update` or `loom doctor --fix` to update.")),
        }
    } else {
        let mut m = String::from_str("loom ");
        push_str(&mut m, current);
        push_str(&mut m, " (up to date)");
        result("version", CheckStatus::Pass, m)
    }
}

/// A shell whose completions loom can install.
#[derive(Debug, Clone, Copy, PartialEq, Eq, Structural)]
pub enum ShellKind {
    Zsh,
    Bash,
    Fish,
}

/// The shell of a shell name, where loom supports it.
pub open spec fn shell_of(name: Seq<char>) -> Option<ShellKind> {
    if name == "zsh"@ {
        Some(ShellKind::Zsh)
    } else if name == "bash"@ {
        Some(ShellKind::Bash)
    } else if name == "fish"@ {
        Some(ShellKind::Fish)
    } else {
        None
    }
}

/// The supported shell of a shell name (the file name of `$SHELL`).
pub fn shell_kind(name: &str) -> (r: Option<ShellKind>)
    ensures
        r == shell_of(name@),
{
    if str_equal(name, "zsh") {
        Some(ShellKind::Zsh)
    } else if str_equal(name, "bash") {
        Some(ShellKind::Bash)
    } else if str_equal(name, "fish") {
        Some(ShellKind::Fish)
    } else {
        None
    }
}

/// The outcome of the completions check, given the shell's name (none where `$SHELL` is not
/// set) and whether that shell's completions were found.
pub open spec fn completion_outcome(shell: Option<Seq<char>>, installed: bool) -> CheckResultV {
    let name = "shell completions"@;
    match shell {
        None => outcome(name, CheckStatus::Warn, "could not detect shell ($SHELL not set)"@),
        Some(s) => if shell_of(s) is None {
            outcome(name, CheckStatus::Warn, "unsupported shell for completion check: "@ + s)
        } else if installed {
            outcome(name, CheckStatus::Pass, "installed ("@ + s + ")"@)
        } else {
            CheckResultV {
                name,
                status: CheckStatus::Fail,
                message: "not installed ("@ + s + ")"@,
                fix_message: Some("Run `loom doctor --fix` to install "@ + s + " completions."@),
            }
        },
    }
}

/// Checks whether shell completions are installed.
pub fn completion_check(shell: Option<&str>, installed: bool) -> (r: CheckResult)
    ensures
        r@ == completion_outcome(match shell {
            Some(s) => Some(s@),
            None => None,
        }, installed),
{
    let s = match shell {
        None => {
            return result(
                "shell completions",
                CheckStatus::Warn,
                String::from_str("could not detect shell ($SHELL not set)"),
            );
        },
        Some(s) => s,
    };
    if shell_kind(s).is_none() {
        let mut m = String::from_str("unsupported shell for completion check: ");
        push_str(&mut m, s);
        return result("shell completions", CheckStatus::Warn, m);
    }
    if installed {
        let mut m = String::from_str("installed (");
        push_str(&mut m, s);
        push_str(&mut m, ")");
        result("shell completions", CheckStatus::Pass, m)
    } else {
        let mut m = String::from_str("not installed (");
        push_str(&mut m, s);
        push_str(&mut m, ")");
        let mut f = String::from_str("Run `loom doctor --fix` to install ");
        push_str(&mut f, s);
        push_str(&mut f, " completions.");
        CheckResult { name: String::from_str("shell completions"), status: CheckStatus::Fail, message: m, fix_message: Some(f) }
    }
}

/// The line that opens the block loom adds to a shell's startup file.
pub open spec fn completion_marker() -> Seq<char> {
    "# >>> loom completions >>>"@
}

/// The marker of the block loom adds to a shell's startup file.
pub fn completion_marker_text() -> (r: &'static str)
    ensures
        r@ == completion_marker(),
{
    "# >>> loom completions >>>"
}

/// The block that makes zsh load completions from `~/.zfunc`.
pub open spec fn zsh_block() -> Seq<char> {
    "# >>> loom completions >>>\nif [[ -d \"$HOME/.zfunc\" ]]; then\n  fpath=(\"$HOME/.zfunc\" $fpath)\nfi\nif ! whence -w compdef >/dev/null 2>&1; then\n  autoload -Uz compinit\n  compinit\nfi\n# <<< loom completions <<<\n"@
}

/// The block that makes bash load loom's completions from `~/.bash_completion.d`.
pub open spec fn bash_block() -> Seq<char> {
    "# >>> loom completions >>>\nif [ -f \"$HOME/.bash_completion.d/loom\" ]; then\n  . \"$HOME/.bash_completion.d/loom\"\nfi\n# <<< loom completions <<<\n"@
}

/// Whether the text of a zsh startup file (none where it does not exist) loads completions
/// from `~/.zfunc`: it holds loom's block, or names `.zfunc` and runs `compinit` or `compdef`.
pub open spec fn zsh_rc_loads(content: Option<Seq<char>>) -> bool {
    match content {
        None => false,
        Some(c) => contains_text(c, completion_marker()) || contains_text(c, ".zfunc"@) && (contains_text(
            c,
            "compinit"@,
        ) || contains_text(c, "compdef"@)),
    }
}

/// Whether a zsh startup file loads loom's completions.
pub fn zsh_rc_loads_loom(content: Option<&str>) -> (r: bool)
    ensures
        r == zsh_rc_loads(match content {
            Some(c) => Some(c@),
            None => None,
        }),
{
    match content {
        None => false,
        Some(c) => str_contains(c, completion_marker_text()) || str_contains(c, ".zfunc") && (str_contains(
            c,
            "compinit",
        ) || str_contains(c, "compdef")),
    }
}

/// Whether the text of a bash startup file (none where it does not exist) loads loom's
/// completions: it holds loom's block, names `.bash_completion.d/loom`, or names
/// `.bash_completion.d` and sources a file.
pub open spec fn bash_rc_loads(content: Option<Seq<char>>) -> bool {
    match content {
        None => false,
        Some(c) => contains_text(c, completion_marker()) || contains_text(c, ".bash_completion.d/loom"@)
            || contains_text(c, ".bash_completion.d"@) && (contains_text(c, "source"@) || contains_text(
            c,
            ". \"$HOME/"@,
        )),
    }
}

/// Whether a bash startup file loads loom's completions.
pub fn bash_rc_loads_loom(content: Option<&str>) -> (r: bool)
    ensures
        r == bash_rc_loads(match content {
            Some(c) => Some(c@),
            None => None,
        }),
{
    match content {
        None => false,
        Some(c) => str_contains(c, completion_marker_text()) || str_contains(c, ".bash_completion.d/loom")
            || str_contains(c, ".bash_completion.d") && (str_contains(c, "source") || str_contains(
            c,
            ". \"$HOME/",
        )),
    }
}

/// The text of a startup file after `block` is added to it, unless it already holds
/// `marker`: the block goes on a line of its own at the end.
pub open spec fn with_block(content: Seq<char>, block: Seq<char>, marker: Seq<char>) -> Option<Seq<char>> {
    if contains_text(content, marker) {
        None
    } else if content.len() > 0 && content.last() != '\n' {
        Some(content + "\n"@ + block)
    } else {
        Some(content + block)
    }
}

/// The new text of a startup file whose text is `content` (empty where it does not exist),
/// or none where it already holds the block.
pub fn append_block_if_missing(content: &str, block: &str, marker: &str) -> (r: Option<String>)
    ensures
        match r {
            Some(t) => with_block(content@, block@, marker@) == Some(t@),
            None => with_block(content@, block@, marker@) is None,
        },
{
    if str_contains(content, marker) {
        return None;
    }
    let mut t = String::from_str(content);
    let n = content.unicode_len();
    if n > 0 && content.get_char(n - 1) != '\n' {
        push_str(&mut t, "\n");
    }
    push_str(&mut t, block);
    Some(t)
}

/// A text that holds `m` still holds it with anything before it.
proof fn lemma_contains_after(p: Seq<char>, s: Seq<char>, m: Seq<char>)
    requires
        contains_text(s, m),
    ensures
        contains_text(p + s, m),
{
    let i = choose|i: int| 0 <= i && i + m.len() <= s.len() && #[trigger] s.subrange(i, i + m.len()) == m;
    assert((p + s).subrange(p.len() + i, p.len() + i + m.len()) =~= s.subrange(i, i + m.len()));
}

/// Both of loom's startup-file blocks begin with the marker.
proof fn lemma_blocks_hold_marker()
    ensures
        contains_text(zsh_block(), completion_marker()),
        contains_text(bash_block(), completion_marker()),
{
    reveal_strlit("# >>> loom completions >>>");
    reveal_strlit("# >>> loom completions >>>\nif [[ -d \"$HOME/.zfunc\" ]]; then\n  fpath=(\"$HOME/.zfunc\" $fpath)\nfi\nif ! whence -w compdef >/dev/null 2>&1; then\n  autoload -Uz compinit\n  compinit\nfi\n# <<< loom completions <<<\n");
    reveal_strlit("# >>> loom completions >>>\nif [ -f \"$HOME/.bash_completion.d/loom\" ]; then\n  . \"$HOME/.bash_completion.d/loom\"\nfi\n# <<< loom completions <<<\n");
    assert(zsh_block().subrange(0int, 0int + completion_marker().len()) =~= completion_marker());
    assert(bash_block().subrange(0int, 0int + completion_marker().len()) =~= completion_marker());
}

/// Adding a block that holds its marker leaves a text that holds the marker, so adding it
/// a second time changes nothing; where nothing is added, the text already holds it.
pub proof fn lemma_block_added_once(content: Seq<char>, block: Seq<char>, marker: Seq<char>)
    requires
        contains_text(block, marker),
    ensures
        with_block(content, block, marker) matches Some(t) ==> contains_text(t, marker) && with_block(
            t,
            block,
            marker,
        ) is None,
        with_block(content, block, marker) is None ==> contains_text(content, marker),
{
    if !contains_text(content, marker) {
        if content.len() > 0 && content.last() != '\n' {
            lemma_contains_after(content + "\n"@, block, marker);
        } else {
            lemma_contains_after(content, block, marker);
        }
    }
}

/// Once `doctor --fix` has added loom's block to a zsh or bash startup file (or found it
/// there), the file loads loom's completions.
pub proof fn lemma_fixed_rc_loads(content: Seq<char>)
    ensures
        zsh_rc_loads(Some(match with_block(content, zsh_block(), completion_marker()) {
            Some(t) => t,
            None => content,
        })),
        bash_rc_loads(Some(match with_block(content, bash_block(), completion_marker()) {
            Some(t) => t,
            None => content,
        })),
{
    lemma_blocks_hold_marker();
    lemma_block_added_once(content, zsh_block(), completion_marker());
    lemma_block_added_once(content, bash_block(), completion_marker());
}

/// Where a shell's completions are installed, relative to the home directory, and the
/// startup file that must load them with the block (empty where none is needed).
pub struct CompletionPlan {
    pub shell: ShellKind,
    pub dir: String,
    pub file: String,
    pub rc_file: String,
    pub rc_block: String,
}

/// The plan for a shell name, or the message where the shell is unknown or not supported.
pub open spec fn completion_install(shell: Option<Seq<char>>) -> Result<(ShellKind, Seq<char>, Seq<char>, Seq<char>, Seq<char>), Seq<char>> {
    match shell {
        None => Err("could not detect shell ($SHELL not set)"@),
        Some(s) => match shell_of(s) {
            Some(ShellKind::Zsh) => Ok((ShellKind::Zsh, ".zfunc"@, "_loom"@, ".zshrc"@, zsh_block())),
            Some(ShellKind::Bash) => Ok((ShellKind::Bash, ".bash_completion.d"@, "loom"@, ".bashrc"@, bash_block())),
            Some(ShellKind::Fish) => Ok((ShellKind::Fish, ".config/fish/completions"@, "loom.fish"@, ".config/fish/config.fish"@, ""@)),
            None => Err("unsupported shell for completion install: "@ + s),
        },
    }
}

/// How to install completions for the shell named `shell` (none where `$SHELL` is not set).
pub fn completion_plan(shell: Option<&str>) -> (r: Result<CompletionPlan, String>)
    ensures
        match completion_install(match shell {
            Some(s) => Some(s@),
            None => None,
        }) {
            Ok((k, d, f, rc, b)) => r matches Ok(p) && p.shell == k && p.dir@ == d && p.file@ == f && p.rc_file@ == rc
                && p.rc_block@ == b,
            Err(m) => r matches Err(e) && e@ == m,
        },
{
    let s = match shell {
        None => return Err(String::from_str("could not detect shell ($SHELL not set)")),
        Some(s) => s,
    };
    match shell_kind(s) {
        Some(ShellKind::Zsh) => Ok(CompletionPlan {
            shell: ShellKind::Zsh,
            dir: String::from_str(".zfunc"),
            file: String::from_str("_loom"),
            rc_file: String::from_str(".zshrc"),
            rc_block: String::from_str(
                "# >>> loom completions >>>\nif [[ -d \"$HOME/.zfunc\" ]]; then\n  fpath=(\"$HOME/.zfunc\" $fpath)\nfi\nif ! whence -w compdef >/dev/null 2>&1; then\n  autoload -Uz compinit\n  compinit\nfi\n# <<< loom completions <<<\n",
            ),
        }),
        Some(ShellKind::Bash) => Ok(CompletionPlan {
            shell: ShellKind::Bash,
            dir: String::from_str(".bash_completion.d"),
            file: String::from_str("loom"),
            rc_file: String::from_str(".bashrc"),
            rc_block: String::from_str(
                "# >>> loom completions >>>\nif [ -f \"$HOME/.bash_completion.d/loom\" ]; then\n  . \"$HOME/.bash_completion.d/loom\"\nfi\n# <<< loom completions <<<\n",
            ),
        }),
        Some(ShellKind::Fish) => {
            proof {
                reveal_strlit("");
            }
            Ok(CompletionPlan {
            shell: ShellKind::Fish,
            dir: String::from_str(".config/fish/completions"),
            file: String::from_str("loom.fish"),
            rc_file: String::from_str(".config/fish/config.fish"),
            rc_block: String::new(),
            })
        },
        None => {
            let mut m = String::from_str("unsupported shell for completion install: ");
            push_str(&mut m, s);
            Err(m)
        },
    }
}

/// The report after completions were installed for `shell` at `dest`.
pub fn installed_message(shell: &str, dest: &str) -> (r: String)
    ensures
        r@ == "Installed "@ + shell@ + " completions to "@ + dest@,
{
    let mut m = String::from_str("Installed ");
    push_str(&mut m, shell);
    push_str(&mut m, " completions to ");
    push_str(&mut m, dest);
    m
}

/// The mark printed before a check's name.
pub open spec fn status_icon(s: CheckStatus) -> Seq<char> {
    match s {
        CheckStatus::Pass => "\u{2713}"@,
        CheckStatus::Warn => "!"@,
        CheckStatus::Fail => "\u{2717}"@,
    }
}

/// The lines that report a check: its mark, name and message, then the fix where there is one.
pub open spec fn report_lines(r: CheckResultV) -> Seq<Seq<char>> {
    let head = "  "@ + status_icon(r.status) + " "@ + r.name + ": "@ + r.message;
    match r.fix_message {
        Some(f) => seq![head, "    "@ + f],
        None => seq![head],
    }
}

/// The lines that report a check.
pub fn result_lines(r: &CheckResult) -> (v: Vec<String>)
    ensures
        v@.map_values(|s: String| s@) == report_lines(r@),
{
    let mut head = String::from_str("  ");
    match r.status {
        CheckStatus::Pass => push_str(&mut head, "\u{2713}"),
        CheckStatus::Warn => push_str(&mut head, "!"),
        CheckStatus::Fail => push_str(&mut head, "\u{2717}"),
    }
    push_str(&mut head, " ");
    push_str(&mut head, r.name.as_str());
    push_str(&mut head, ": ");
    push_str(&mut head, r.message.as_str());
    let mut v: Vec<String> = Vec::new();
    v.push(head);
    match &r.fix_message {
        Some(f) => {
            let mut line = String::from_str("    ");
            push_str(&mut line, f.as_str());
            v.push(line);
        },
        None => {},
    }
    assert(v@.map_values(|s: String| s@) =~= report_lines(r@));
    v
}

/// How many of the checks found an issue.
pub open spec fn issues(rs: Seq<CheckResult>) -> nat
    decreases rs.len(),
{
    if rs.len() == 0 {
        0
    } else {
        issues(rs.drop_last()) + if rs.last().status == CheckStatus::Pass {
            0nat
        } else {
            1nat
        }
    }
}

proof fn lemma_issues_bound(rs: Seq<CheckResult>)
    ensures
        issues(rs) <= rs.len(),
    decreases rs.len(),
{
    if rs.len() > 0 {
        lemma_issues_bound(rs.drop_last());
    }
}

/// The number of checks that found an issue.
pub fn issue_count(results: &Vec<CheckResult>) -> (n: usize)
    ensures
        n == issues(results@),
{
    let mut n: usize = 0;
    for i in 0..results.len()
        invariant
            n == issues(results@.take(i as int)),
            i <= results@.len(),
    {
        proof {
            lemma_issues_bound(results@.take(i as int));
            assert(results@.take(i + 1).drop_last() =~= results@.take(i as int));
        }
        if results[i].status != CheckStatus::Pass {
            n = n + 1;
        }
    }
    assert(results@.take(results@.len() as int) =~= results@);
    n
}

/// What a fix of a failed check does.
#[derive(Debug, Clone, Copy, PartialEq, Eq, Structural)]
pub enum DoctorFix {
    /// Run the self-update.
    Update,
    /// Install shell completions.
    Completions,
}

/// The fix for a check, where it found an issue that `--fix` knows how to fix.
pub open spec fn fix_of(r: CheckResultV) -> Option<DoctorFix> {
    if r.status == CheckStatus::Pass {
        None
    } else if r.name == "version"@ {
        Some(DoctorFix::Update)
    } else if r.name == "shell completions"@ {
        Some(DoctorFix::Completions)
    } else {
        None
    }
}

/// The fix that `loom doctor --fix` applies to a check.
pub fn fix_for(r: &CheckResult) -> (f: Option<DoctorFix>)
    ensures
        f == fix_of(r@),
{
    if r.status == CheckStatus::Pass {
        None
    } else if str_equal(r.name.as_str(), "version") {
        Some(DoctorFix::Update)
    } else if str_equal(r.name.as_str(), "shell completions") {
        Some(DoctorFix::Completions)
    } else {
        None
    }
}

/// The closing line of `loom doctor`: with `--fix`, how many of the issues were fixed;
/// without it, how many were found, or that all checks passed.
pub open spec fn doctor_summary(fix: bool, fixed: nat, found: nat) -> Seq<char> {
    if fix && found > 0 {
        if fixed == found {
            "All issues fixed."@
        } else {
            nat_text(fixed) + " of "@ + nat_text(found) + " issue(s) fixed."@
        }
    } else if found > 0 {
        nat_text(found) + " issue(s) found. Run `loom doctor --fix` to fix."@
    } else {
        "All checks passed."@
    }
}

/// The closing line of `loom doctor`.
pub fn summary_line(fix: bool, fixed: u64, found: u64) -> (r: String)
    ensures
        r@ == doctor_summary(fix, fixed as nat, found as nat),
{
    if fix && found > 0 {
        if fixed == found {
            String::from_str("All issues fixed.")
        } else {
            let mut m = u64_text(fixed);
            push_str(&mut m, " of ");
            let f = u64_text(found);
            push_str(&mut m, f.as_str());
            push_str(&mut m, " issue(s) fixed.");
            m
        }
    } else if found > 0 {
        let mut m = u64_text(found);
        push_str(&mut m, " issue(s) found. Run `loom doctor --fix` to fix.");
        m
    } else {
        String::from_str("All checks passed.")
    }
}

} // verus!
