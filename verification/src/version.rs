//! Release versions: reading a version or tag as a SemVer version, and what a self-update does
//! once it knows the latest release's tag.
use vstd::prelude::*;
use std::cmp::Ordering;
use crate::text::{chars_of, push_char, push_str};

verus! {

broadcast use vstd::string::group_string_axioms;

#[verifier::external_type_specification]
#[verifier::external_body]
pub struct ExSemverVersion(semver::Version);

/// How one version stands to another.
#[derive(Debug, Clone, Copy, PartialEq, Eq, Structural)]
pub enum VersionOrder {
    Older,
    Same,
    Newer,
}

/// What `semver::Version::parse` gives for a text: `Ok` for a valid SemVer version, else the
/// text of its error.
pub uninterp spec fn semver_parse(text: Seq<char>) -> Result<(), Seq<char>>;

/// How the version parsed from `a` stands to the one parsed from `b` in `semver::Version`'s
/// order.
pub uninterp spec fn semver_order(a: Seq<char>, b: Seq<char>) -> VersionOrder;

/// A version parsed from a text; its view is that text.
pub struct ParsedVersion {
    text: String,
    value: semver::Version,
}

impl View for ParsedVersion {
    type V = Seq<char>;

    closed spec fn view(&self) -> Seq<char> {
        self.text@
    }
}

/// Parses `text` with `semver::Version::parse`, keeping the text beside the version. The
/// contract claims that the outcome is `semver_parse` of the text, and on failure the text of
/// semver's error.
#[verifier::external_body]
fn parse_semver(text: &str) -> (r: Result<ParsedVersion, String>)
    ensures
        match semver_parse(text@) {
            Ok(()) => r matches Ok(v) && v@ == text@,
            Err(m) => r matches Err(e) && e@ == m,
        },
{
    match semver::Version::parse(text) {
        Ok(value) => Ok(ParsedVersion { text: text.to_string(), value }),
        Err(e) => Err(e.to_string()),
    }
}

/// Compares two parsed versions with `semver::Version`'s `Ord`. The contract claims that the
/// outcome is `semver_order` of the texts they were parsed from, and that versions parsed from
/// the same text are equal (parsing is deterministic, and the derived order is reflexive).
#[verifier::external_body]
fn compare_semver(a: &ParsedVersion, b: &ParsedVersion) -> (r: VersionOrder)
    ensures
        r == semver_order(a@, b@),
        a@ == b@ ==> r == VersionOrder::Same,
{
    match a.value.cmp(&b.value) {
        Ordering::Less => VersionOrder::Older,
        Ordering::Equal => VersionOrder::Same,
        Ordering::Greater => VersionOrder::Newer,
    }
}

/// `s` without its leading `v` characters.
pub open spec fn strip_v(s: Seq<char>) -> Seq<char>
    decreases s.len(),
{
    if s.len() > 0 && s[0] == 'v' {
        strip_v(s.drop_first())
    } else {
        s
    }
}

/// Reads a version or a release tag (`v1.2.3`) as a SemVer version: the leading `v`s are
/// dropped before it is parsed.
pub fn normalize_version(raw: &str) -> (r: Result<ParsedVersion, String>)
    ensures
        match semver_parse(strip_v(raw@)) {
            Ok(()) => r matches Ok(v) && v@ == strip_v(raw@),
            Err(m) => r matches Err(e) && e@ == m,
        },
{
    let cs = chars_of(raw);
    let mut i: usize = 0;
    assert(raw@.skip(0) =~= raw@);
    while i < cs.len() && cs[i] == 'v'
        invariant
            cs@ == raw@,
            i <= cs@.len(),
            strip_v(raw@) == strip_v(raw@.skip(i as int)),
        decreases cs@.len() - i,
    {
        assert(raw@.skip(i as int).drop_first() =~= raw@.skip(i + 1));
        i = i + 1;
    }
    let mut rest = String::new();
    let mut j = i;
    while j < cs.len()
        invariant
            cs@ == raw@,
            i <= j <= cs@.len(),
            rest@ == raw@.subrange(i as int, j as int),
        decreases cs@.len() - j,
    {
        push_char(&mut rest, cs[j]);
        assert(rest@ =~= raw@.subrange(i as int, j + 1));
        j = j + 1;
    }
    assert(rest@ =~= raw@.skip(i as int));
    assert(i < cs@.len() ==> raw@.skip(i as int)[0] == cs@[i as int]);
    parse_semver(rest.as_str())
}

/// How the version of `a` stands to that of `b`.
pub fn compare_versions(a: &ParsedVersion, b: &ParsedVersion) -> (r: VersionOrder)
    ensures
        r == semver_order(a@, b@),
        a@ == b@ ==> r == VersionOrder::Same,
{
    compare_semver(a, b)
}

/// What a self-update does next.
#[derive(Debug)]
pub enum UpdateStep {
    /// Print this line and stop.
    Report(String),
    /// Download and install the latest release.
    Install,
}

/// The step a self-update takes, as a value.
pub enum UpdateStepV {
    Report(Seq<char>),
    Install,
}

impl View for UpdateStep {
    type V = UpdateStepV;

    open spec fn view(&self) -> UpdateStepV {
        match self {
            UpdateStep::Report(s) => UpdateStepV::Report(s@),
            UpdateStep::Install => UpdateStepV::Install,
        }
    }
}

/// What a self-update of the running version `current` does, once the latest release's tag
/// is known: with `check`, report how the two stand; else install unless the latest is not
/// newer and no `force` was asked for. A version that does not parse is an error.
pub open spec fn update_step(current: Seq<char>, tag: Seq<char>, check: bool, force: bool) -> Result<UpdateStepV, Seq<char>> {
    let latest = strip_v(tag);
    let now = strip_v(current);
    if semver_parse(latest) is Err {
        Err(semver_parse(latest)->Err_0)
    } else if semver_parse(now) is Err {
        Err(semver_parse(now)->Err_0)
    } else {
        let order = semver_order(latest, now);
        if check {
            Ok(UpdateStepV::Report(match order {
                VersionOrder::Newer => "Update available: "@ + current + " -> "@ + tag,
                VersionOrder::Same => "Already up to date: "@ + current,
                VersionOrder::Older => "Current version "@ + current + " is newer than latest release "@ + tag,
            }))
        } else if order != VersionOrder::Newer && !force {
            Ok(UpdateStepV::Report("Already up to date: "@ + current))
        } else {
            Ok(UpdateStepV::Install)
        }
    }
}

/// Decides what a self-update does, given the running version and the latest release's tag.
pub fn plan_update(current: &str, latest_tag: &str, check: bool, force: bool) -> (r: Result<UpdateStep, String>)
    ensures
        match update_step(current@, latest_tag@, check, force) {
            Ok(s) => r matches Ok(t) && t@ == s,
            Err(m) => r matches Err(e) && e@ == m,
        },
        semver_parse(strip_v(current@)) is Ok && strip_v(latest_tag@) == strip_v(current@) && !force
            ==> (r matches Ok(t) && t@ == UpdateStepV::Report("Already up to date: "@ + current@)),
{
    let latest = match normalize_version(latest_tag) {
        Ok(v) => v,
        Err(e) => return Err(e),
    };
    let now = match normalize_version(current) {
        Ok(v) => v,
        Err(e) => return Err(e),
    };
    let order = compare_versions(&latest, &now);
    if check {
        let mut m: String;
        match order {
            VersionOrder::Newer => {
                m = String::from_str("Update available: ");
                push_str(&mut m, current);
                push_str(&mut m, " -> ");
                push_str(&mut m, latest_tag);
            },
            VersionOrder::Same => {
                m = String::from_str("Already up to date: ");
                push_str(&mut m, current);
            },
            VersionOrder::Older => {
                m = String::from_str("Current version ");
                push_str(&mut m, current);
                push_str(&mut m, " is newer than latest release ");
                push_str(&mut m, latest_tag);
            },
        }
        return Ok(UpdateStep::Report(m));
    }
    if order != VersionOrder::Newer && !force {
        let mut m = String::from_str("Already up to date: ");
        push_str(&mut m, current);
        return Ok(UpdateStep::Report(m));
    }
    Ok(UpdateStep::Install)
}

} // verus!
