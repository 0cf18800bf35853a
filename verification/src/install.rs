//! Where an installed `loom` binary may live, which paths self-update and uninstall accept,
//! and what an uninstall removes.
use vstd::prelude::*;
use crate::ir::strings_view;
use crate::text::{chars_of, push_str, str_equal, trim, trimmed_bounds};

verus! {

broadcast use vstd::string::group_string_axioms;

/// One component of a Unix path, as `Path::components` yields it.
#[derive(Debug)]
pub enum PathPart {
    Root,
    Current,
    Parent,
    Normal(String),
}

/// A path component as a value.
pub enum PartV {
    Root,
    Current,
    Parent,
    Normal(Seq<char>),
}

impl View for PathPart {
    type V = PartV;

    open spec fn view(&self) -> PartV {
        match self {
            PathPart::Root => PartV::Root,
            PathPart::Current => PartV::Current,
            PathPart::Parent => PartV::Parent,
            PathPart::Normal(s) => PartV::Normal(s@),
        }
    }
}

/// The components of a path as values.
pub open spec fn parts_view(p: Seq<PathPart>) -> Seq<PartV> {
    Seq::new(p.len(), |i: int| p[i]@)
}

/// A path as the install checks read it: its components and how it is displayed.
pub struct InstallPath {
    pub parts: Vec<PathPart>,
    pub display: String,
}

/// Whether some component of the path is the name `name`.
pub open spec fn has_component(p: Seq<PartV>, name: Seq<char>) -> bool {
    exists|i: int| 0 <= i < p.len() && p[i] == PartV::Normal(name)
}

/// The file name of a path: its last component, where that is a name.
pub open spec fn file_name(p: Seq<PartV>) -> Option<Seq<char>> {
    if p.len() > 0 && p.last() is Normal {
        Some(p.last()->Normal_0)
    } else {
        None
    }
}

/// The file name of a path's parent: the path has a parent where its last component is not
/// the root, and the parent's file name is the component before the last.
pub open spec fn parent_name(p: Seq<PartV>) -> Option<Seq<char>> {
    if p.len() >= 2 && !(p.last() is Root) && p[p.len() - 2] is Normal {
        Some(p[p.len() - 2]->Normal_0)
    } else {
        None
    }
}

/// Whether `base`'s components begin `p`'s (`Path::starts_with`).
pub open spec fn path_starts_with(p: Seq<PartV>, base: Seq<PartV>) -> bool {
    base.len() <= p.len() && p.take(base.len() as int) == base
}

/// The components of the absolute path `/a/b/c`.
pub open spec fn absolute(a: Seq<char>, b: Seq<char>, c: Seq<char>) -> Seq<PartV> {
    seq![PartV::Root, PartV::Normal(a), PartV::Normal(b), PartV::Normal(c)]
}

/// Whether a path looks like a `loom` binary that an installer put in place: one in a
/// `bin` directory under a `.local` directory, one under the channel root, or one under
/// `/usr/local/bin`, `/usr/bin` or `/opt/homebrew/bin`.
pub open spec fn installed_binary(p: Seq<PartV>, channel_root: Seq<PartV>) -> bool {
    ||| has_component(p, ".local"@) && parent_name(p) == Some("bin"@)
    ||| path_starts_with(p, channel_root)
    ||| path_starts_with(p, absolute("usr"@, "local"@, "bin"@))
    ||| path_starts_with(p, seq![PartV::Root, PartV::Normal("usr"@), PartV::Normal("bin"@)])
    ||| path_starts_with(p, absolute("opt"@, "homebrew"@, "bin"@))
}

/// Whether a path looks like a binary that `cargo install` put in place: one in a `bin`
/// directory under a `.cargo` directory.
pub open spec fn cargo_binary(p: Seq<PartV>) -> bool {
    has_component(p, ".cargo"@) && parent_name(p) == Some("bin"@)
}

fn part_is(part: &PathPart, name: &str) -> (r: bool)
    ensures
        r == (part@ == PartV::Normal(name@)),
{
    match part {
        PathPart::Normal(s) => str_equal(s.as_str(), name),
        _ => false,
    }
}

fn has_part(parts: &Vec<PathPart>, name: &str) -> (r: bool)
    ensures
        r == has_component(parts_view(parts@), name@),
{
    let ghost pv = parts_view(parts@);
    for i in 0..parts.len()
        invariant
            pv == parts_view(parts@),
            forall|j: int| 0 <= j < i ==> pv[j] != PartV::Normal(name@),
    {
        if part_is(&parts[i], name) {
            assert(pv[i as int] == PartV::Normal(name@));
            return true;
        }
    }
    false
}

fn parent_is(parts: &Vec<PathPart>, name: &str) -> (r: bool)
    ensures
        r == (parent_name(parts_view(parts@)) == Some(name@)),
{
    let n = parts.len();
    if n < 2 {
        return false;
    }
    let ghost pv = parts_view(parts@);
    assert(pv.last() == parts@[n - 1]@);
    match &parts[n - 1] {
        PathPart::Root => false,
        _ => part_is(&parts[n - 2], name),
    }
}

fn starts_with_parts(parts: &Vec<PathPart>, base: &Vec<PathPart>) -> (r: bool)
    ensures
        r == path_starts_with(parts_view(parts@), parts_view(base@)),
{
    let ghost pv = parts_view(parts@);
    let ghost bv = parts_view(base@);
    if base.len() > parts.len() {
        return false;
    }
    for i in 0..base.len()
        invariant
            pv == parts_view(parts@),
            bv == parts_view(base@),
            base@.len() <= parts@.len(),
            forall|j: int| 0 <= j < i ==> pv[j] == bv[j],
    {
        let same = match (&parts[i], &base[i]) {
            (PathPart::Root, PathPart::Root) => true,
            (PathPart::Current, PathPart::Current) => true,
            (PathPart::Parent, PathPart::Parent) => true,
            (PathPart::Normal(a), PathPart::Normal(b)) => str_equal(a.as_str(), b.as_str()),
            _ => false,
        };
        if !same {
            assert(pv.take(bv.len() as int)[i as int] != bv[i as int]);
            return false;
        }
    }
    assert(pv.take(bv.len() as int) =~= bv);
    true
}

fn starts_with_absolute(parts: &Vec<PathPart>, names: &[&str]) -> (r: bool)
    ensures
        r == path_starts_with(
            parts_view(parts@),
            seq![PartV::Root] + Seq::new(names@.len(), |i: int| PartV::Normal(names@[i]@)),
        ),
{
    let ghost pv = parts_view(parts@);
    let ghost bv = seq![PartV::Root] + Seq::new(names@.len(), |i: int| PartV::Normal(names@[i]@));
    if names.len() >= parts.len() {
        return false;
    }
    match &parts[0] {
        PathPart::Root => {},
        _ => {
            assert(pv.take(bv.len() as int)[0] != bv[0]);
            return false;
        },
    }
    for i in 0..names.len()
        invariant
            pv == parts_view(parts@),
            bv == seq![PartV::Root] + Seq::new(names@.len(), |i: int| PartV::Normal(names@[i]@)),
            names@.len() < parts@.len(),
            pv[0] == PartV::Root,
            forall|j: int| 0 <= j <= i ==> pv[j] == bv[j],
    {
        if !part_is(&parts[i + 1], names[i]) {
            assert(pv.take(bv.len() as int)[i + 1] != bv[i + 1]);
            return false;
        }
    }
    assert(pv.take(bv.len() as int) =~= bv);
    true
}

/// Whether `path` looks like an installed `loom` binary, given the channel root (the
/// directory that channel installs live under).
pub fn looks_like_installed_binary(path: &Vec<PathPart>, channel_root: &Vec<PathPart>) -> (r: bool)
    ensures
        r == installed_binary(parts_view(path@), parts_view(channel_root@)),
{
    let ghost p = parts_view(path@);
    let local = has_part(path, ".local") && parent_is(path, "bin");
    let channel = starts_with_parts(path, channel_root);
    let usr_local_dirs: [&str; 3] = ["usr", "local", "bin"];
    let usr_dirs: [&str; 2] = ["usr", "bin"];
    let homebrew_dirs: [&str; 3] = ["opt", "homebrew", "bin"];
    let usr_local = starts_with_absolute(path, &usr_local_dirs);
    let usr = starts_with_absolute(path, &usr_dirs);
    let homebrew = starts_with_absolute(path, &homebrew_dirs);
    proof {
        assert(usr_local_dirs@ == seq!["usr", "local", "bin"]);
        assert(usr_dirs@ == seq!["usr", "bin"]);
        assert(homebrew_dirs@ == seq!["opt", "homebrew", "bin"]);
        assert(seq![PartV::Root] + Seq::new(3, |i: int| PartV::Normal(usr_local_dirs@[i]@))
            =~= absolute("usr"@, "local"@, "bin"@));
        assert(seq![PartV::Root] + Seq::new(2, |i: int| PartV::Normal(usr_dirs@[i]@))
            =~= seq![PartV::Root, PartV::Normal("usr"@), PartV::Normal("bin"@)]);
        assert(seq![PartV::Root] + Seq::new(3, |i: int| PartV::Normal(homebrew_dirs@[i]@))
            =~= absolute("opt"@, "homebrew"@, "bin"@));
    }
    local || channel || usr_local || usr || homebrew
}

/// Whether `path` looks like a binary that `cargo install` put in place.
pub fn looks_like_cargo_install(path: &Vec<PathPart>) -> (r: bool)
    ensures
        r == cargo_binary(parts_view(path@)),
{
    has_part(path, ".cargo") && parent_is(path, "bin")
}

/// Why an action on the binary at `path` (displayed as `shown`) is refused, if it is.
pub open spec fn install_refusal(
    p: Seq<PartV>,
    shown: Seq<char>,
    action: Seq<char>,
    channel_root: Seq<PartV>,
) -> Option<Seq<char>> {
    let head = "refusing to "@ + action + " from "@ + shown + ": "@;
    if file_name(p) != Some("loom"@) {
        Some(head + "the executable does not look like an installed `loom` binary"@)
    } else if cargo_binary(p) {
        Some(head + "this looks like a cargo-installed binary; use `cargo uninstall loom` instead"@)
    } else if !installed_binary(p, channel_root) {
        Some(head + "install Loom into ~/.local/bin, /usr/local/bin, /usr/bin, or /opt/homebrew/bin first"@)
    } else {
        None
    }
}

/// Accepts the running binary for `action` (self-update, uninstall) only where it is named
/// `loom`, was not put in place by cargo, and sits where an installer puts it.
pub fn validate_install_location(path: &InstallPath, action: &str, channel_root: &Vec<PathPart>) -> (r: Result<(), String>)
    ensures
        match install_refusal(parts_view(path.parts@), path.display@, action@, parts_view(channel_root@)) {
            None => r is Ok,
            Some(m) => r matches Err(e) && e@ == m,
        },
{
    let ghost p = parts_view(path.parts@);
    let n = path.parts.len();
    let named_loom = n > 0 && part_is(&path.parts[n - 1], "loom");
    proof {
        if n > 0 {
            assert(p.last() == path.parts@[n - 1]@);
        }
    }
    let mut m = String::from_str("refusing to ");
    push_str(&mut m, action);
    push_str(&mut m, " from ");
    push_str(&mut m, path.display.as_str());
    push_str(&mut m, ": ");
    if !named_loom {
        push_str(&mut m, "the executable does not look like an installed `loom` binary");
        return Err(m);
    }
    if looks_like_cargo_install(&path.parts) {
        push_str(&mut m, "this looks like a cargo-installed binary; use `cargo uninstall loom` instead");
        return Err(m);
    }
    if !looks_like_installed_binary(&path.parts, channel_root) {
        push_str(
            &mut m,
            "install Loom into ~/.local/bin, /usr/local/bin, /usr/bin, or /opt/homebrew/bin first",
        );
        return Err(m);
    }
    Ok(())
}

/// Whether the binary lives under the channel root.
pub fn in_channel(path: &Vec<PathPart>, channel_root: &Vec<PathPart>) -> (r: bool)
    ensures
        r == path_starts_with(parts_view(path@), parts_view(channel_root@)),
{
    starts_with_parts(path, channel_root)
}

/// The places where a link to a channel binary is looked for, under the home directory
/// `home` and in the system's binary directories.
pub fn symlink_candidates(home: &str) -> (r: Vec<String>)
    ensures
        strings_view(r@) == seq![home@ + "/.local/bin/loom"@, "/usr/local/bin/loom"@, "/opt/homebrew/bin/loom"@],
{
    let mut first = String::from_str(home);
    push_str(&mut first, "/.local/bin/loom");
    let mut r: Vec<String> = Vec::new();
    r.push(first);
    r.push(String::from_str("/usr/local/bin/loom"));
    r.push(String::from_str("/opt/homebrew/bin/loom"));
    assert(strings_view(r@) =~= seq![home@ + "/.local/bin/loom"@, "/usr/local/bin/loom"@, "/opt/homebrew/bin/loom"@]);
    r
}

/// What an uninstall removes, as it is listed before it asks: each link to the binary, the
/// binary, and the channel directory where the purge is asked for and the directory exists.
pub open spec fn removal_list(
    links: Seq<Seq<char>>,
    exe: Seq<char>,
    purge: bool,
    channel_exists: bool,
    channel: Seq<char>,
) -> Seq<Seq<char>> {
    Seq::new(links.len(), |i: int| "symlink: "@ + links[i]) + seq!["binary: "@ + exe] + if purge
        && channel_exists {
        seq!["channel directory: "@ + channel]
    } else {
        Seq::empty()
    }
}

/// The list of what an uninstall removes.
pub fn removal_targets(
    links: &Vec<String>,
    executable: &str,
    purge: bool,
    channel_exists: bool,
    channel_root: &str,
) -> (r: Vec<String>)
    ensures
        strings_view(r@) == removal_list(strings_view(links@), executable@, purge, channel_exists, channel_root@),
{
    let ghost lv = strings_view(links@);
    let mut r: Vec<String> = Vec::new();
    for i in 0..links.len()
        invariant
            lv == strings_view(links@),
            r@.len() == i,
            forall|k: int| 0 <= k < i ==> (#[trigger] r@[k])@ == "symlink: "@ + links@[k]@,
    {
        let mut t = String::from_str("symlink: ");
        push_str(&mut t, links[i].as_str());
        r.push(t);
    }
    assert(strings_view(r@) =~= Seq::new(links@.len(), |j: int| "symlink: "@ + lv[j]));
    let ghost before = strings_view(r@);
    let mut b = String::from_str("binary: ");
    push_str(&mut b, executable);
    r.push(b);
    assert(strings_view(r@) =~= before + seq!["binary: "@ + executable@]);
    if purge && channel_exists {
        let ghost mid = strings_view(r@);
        let mut c = String::from_str("channel directory: ");
        push_str(&mut c, channel_root);
        r.push(c);
        assert(strings_view(r@) =~= mid + seq!["channel directory: "@ + channel_root@]);
    }
    assert(strings_view(r@) =~= removal_list(lv, executable@, purge, channel_exists, channel_root@));
    r
}

/// The reminder that the channel directory stays, where it exists and no purge was asked for.
pub fn channel_note(purge: bool, channel_exists: bool, channel_root: &str) -> (r: Option<String>)
    ensures
        channel_exists && !purge ==> (r matches Some(t) && t@ == "\nNote: channel directory "@ + channel_root@
            + " still exists. Use --purge to remove it."@),
        !(channel_exists && !purge) ==> r is None,
{
    if channel_exists && !purge {
        let mut t = String::from_str("\nNote: channel directory ");
        push_str(&mut t, channel_root);
        push_str(&mut t, " still exists. Use --purge to remove it.");
        Some(t)
    } else {
        None
    }
}

/// Whether an answer, trimmed of white space, is `y` or `yes` in any case. (No character
/// but `Y`, `E` and `S` lowercases to `y`, `e` or `s`, so this is the answer whose lowercase
/// form is `y` or `yes`.)
pub open spec fn affirmative(answer: Seq<char>) -> bool {
    let t = trim(answer);
    ||| t.len() == 1 && (t[0] == 'y' || t[0] == 'Y')
    ||| t.len() == 3 && (t[0] == 'y' || t[0] == 'Y') && (t[1] == 'e' || t[1] == 'E') && (t[2] == 's'
        || t[2] == 'S')
}

/// Whether the answer to the uninstall prompt confirms it.
pub fn confirms_removal(answer: &str) -> (r: bool)
    ensures
        r == affirmative(answer@),
{
    let cs = chars_of(answer);
    let (a, b) = trimmed_bounds(&cs, 0, cs.len());
    assert(cs@.subrange(0, cs@.len() as int) =~= answer@);
    let ghost t = cs@.subrange(a as int, b as int);
    assert(t.len() == b - a);
    if b - a == 1 {
        assert(t[0] == cs@[a as int]);
        cs[a] == 'y' || cs[a] == 'Y'
    } else if b - a == 3 {
        assert(t[0] == cs@[a as int] && t[1] == cs@[a + 1] && t[2] == cs@[a + 2]);
        (cs[a] == 'y' || cs[a] == 'Y') && (cs[a + 1] == 'e' || cs[a + 1] == 'E') && (cs[a + 2] == 's'
            || cs[a + 2] == 'S')
    } else {
        false
    }
}

} // verus!
