//! Where the release archives of each platform are published, and how the tag of the latest
//! release is read back from a redirect.
use vstd::prelude::*;
use sha2::Digest;
use crate::ir::opt_view;
use crate::text::{chars_of, is_white_space, is_whitespace_char, push_char, push_str, str_equal, str_starts_with};

verus! {

broadcast use vstd::string::group_string_axioms;

/// A platform's release artifact.
#[derive(Debug, PartialEq, Eq)]
pub struct ReleaseTarget {
    pub archive_name: String,
    pub triple: String,
}

impl ReleaseTarget {
    /// The target of the given target triple: its archive is `loom-TRIPLE.tar.gz`.
    pub fn new(triple: &str) -> (r: ReleaseTarget)
        ensures
            r.archive_name@ == "loom-"@ + triple@ + ".tar.gz"@,
            r.triple@ == triple@,
    {
        let mut archive_name = String::from_str("loom-");
        push_str(&mut archive_name, triple);
        push_str(&mut archive_name, ".tar.gz");
        ReleaseTarget { archive_name, triple: String::from_str(triple) }
    }
}

/// Where to download a release's archive and its checksums.
#[derive(Debug)]
pub struct ReleaseUrls {
    pub archive_url: String,
    pub checksums_url: String,
}

/// The target triple published for a platform, or the message for a platform that has none.
pub open spec fn target_of(os: Seq<char>, arch: Seq<char>) -> Result<Seq<char>, Seq<char>> {
    if os == "linux"@ && (arch == "x86_64"@ || arch == "amd64"@) {
        Ok("x86_64-unknown-linux-musl"@)
    } else if os == "linux"@ && (arch == "aarch64"@ || arch == "arm64"@) {
        Ok("aarch64-unknown-linux-musl"@)
    } else if os == "macos"@ && (arch == "aarch64"@ || arch == "arm64"@) {
        Ok("aarch64-apple-darwin"@)
    } else if os == "macos"@ && (arch == "x86_64"@ || arch == "amd64"@) {
        Err("unsupported platform: macOS x86_64 has no published Loom release artifact"@)
    } else {
        Err("unsupported platform: "@ + os + " "@ + arch
            + ". Supported targets: x86_64-unknown-linux-musl, aarch64-unknown-linux-musl, aarch64-apple-darwin"@)
    }
}

/// The release target of a platform.
pub fn map_target(os: &str, arch: &str) -> (r: Result<ReleaseTarget, String>)
    ensures
        match target_of(os@, arch@) {
            Ok(t) => r matches Ok(rt) && rt.triple@ == t && rt.archive_name@ == "loom-"@ + t + ".tar.gz"@,
            Err(m) => r matches Err(e) && e@ == m,
        },
{
    let linux = str_equal(os, "linux");
    let macos = str_equal(os, "macos");
    let x86 = str_equal(arch, "x86_64") || str_equal(arch, "amd64");
    let arm = str_equal(arch, "aarch64") || str_equal(arch, "arm64");
    if linux && x86 {
        Ok(ReleaseTarget::new("x86_64-unknown-linux-musl"))
    } else if linux && arm {
        Ok(ReleaseTarget::new("aarch64-unknown-linux-musl"))
    } else if macos && arm {
        Ok(ReleaseTarget::new("aarch64-apple-darwin"))
    } else if macos && x86 {
        Err(String::from_str("unsupported platform: macOS x86_64 has no published Loom release artifact"))
    } else {
        let mut m = String::from_str("unsupported platform: ");
        push_str(&mut m, os);
        push_str(&mut m, " ");
        push_str(&mut m, arch);
        push_str(
            &mut m,
            ". Supported targets: x86_64-unknown-linux-musl, aarch64-unknown-linux-musl, aarch64-apple-darwin",
        );
        Err(m)
    }
}

/// `s` without its trailing `/` characters.
pub open spec fn trim_slashes(s: Seq<char>) -> Seq<char>
    decreases s.len(),
{
    if s.len() > 0 && s.last() == '/' {
        trim_slashes(s.drop_last())
    } else {
        s
    }
}

fn trimmed_base(base: &str) -> (r: String)
    ensures
        r@ == trim_slashes(base@),
{
    let cs = chars_of(base);
    let mut n = cs.len();
    assert(base@.take(n as int) =~= base@);
    while n > 0 && cs[n - 1] == '/'
        invariant
            cs@ == base@,
            n <= cs@.len(),
            trim_slashes(base@) == trim_slashes(base@.take(n as int)),
        decreases n,
    {
        assert(base@.take(n as int).drop_last() =~= base@.take(n - 1));
        n = n - 1;
    }
    assert(n > 0 ==> base@.take(n as int).last() == cs@[n - 1]);
    assert(trim_slashes(base@.take(n as int)) == base@.take(n as int));
    let mut r = String::new();
    for i in 0..n
        invariant
            cs@ == base@,
            n <= cs@.len(),
            r@ == base@.take(i as int),
    {
        push_char(&mut r, cs[i]);
        assert(r@ =~= base@.take(i + 1));
    }
    r
}

/// The download URLs of a release: of the latest release where no tag is given.
pub fn release_urls(base_url: &str, target: &ReleaseTarget, tag: Option<&str>) -> (r: ReleaseUrls)
    ensures
        r.archive_url@ == trim_slashes(base_url@) + match tag {
            Some(t) => "/releases/download/"@ + t@ + "/"@,
            None => "/releases/latest/download/"@,
        } + target.archive_name@,
        r.checksums_url@ == trim_slashes(base_url@) + match tag {
            Some(t) => "/releases/download/"@ + t@ + "/"@,
            None => "/releases/latest/download/"@,
        } + "loom-checksums.txt"@,
{
    let trimmed = trimmed_base(base_url);
    let mut prefix = trimmed;
    match tag {
        Some(t) => {
            push_str(&mut prefix, "/releases/download/");
            push_str(&mut prefix, t);
            push_str(&mut prefix, "/");
        },
        None => {
            push_str(&mut prefix, "/releases/latest/download/");
        },
    }
    let mut archive_url = prefix.clone();
    push_str(&mut archive_url, target.archive_name.as_str());
    let mut checksums_url = prefix;
    push_str(&mut checksums_url, "loom-checksums.txt");
    ReleaseUrls { archive_url, checksums_url }
}

/// The `/`-separated segments of `s` (`str::split('/')`).
pub open spec fn segments(s: Seq<char>) -> Seq<Seq<char>>
    decreases s.len(),
{
    if s.len() == 0 {
        seq![Seq::empty()]
    } else {
        let prev = segments(s.drop_last());
        if s.last() == '/' {
            prev.push(Seq::empty())
        } else {
            prev.update(prev.len() - 1, prev.last().push(s.last()))
        }
    }
}

proof fn lemma_segments_nonempty(s: Seq<char>)
    ensures
        segments(s).len() >= 1,
    decreases s.len(),
{
    if s.len() > 0 {
        lemma_segments_nonempty(s.drop_last());
    }
}

/// The tag in a release download URL: the segment after the first `download` segment; the
/// message where there is no such segment, or where it is empty.
pub open spec fn release_tag(url: Seq<char>) -> Result<Seq<char>, Seq<char>> {
    let parts = segments(url);
    if exists|d: int| 0 <= d < parts.len() && parts[d] == "download"@ {
        let d = choose|d: int| 0 <= d < parts.len() && parts[d] == "download"@ && forall|e: int| 0 <= e < d ==> parts[e] != "download"@;
        if d + 1 < parts.len() && parts[d + 1].len() > 0 {
            Ok(parts[d + 1])
        } else {
            Err("redirected URL is missing the release tag"@)
        }
    } else {
        Err("redirected URL does not include a release download path"@)
    }
}

fn segments_of(url: &str) -> (r: Vec<String>)
    ensures
        r@.map_values(|p: String| p@) == segments(url@),
{
    let cs = chars_of(url);
    let mut parts: Vec<String> = Vec::new();
    parts.push(String::new());
    assert(parts@.map_values(|p: String| p@) =~= segments(url@.take(0)));
    for i in 0..cs.len()
        invariant
            cs@ == url@,
            parts@.map_values(|p: String| p@) == segments(url@.take(i as int)),
            parts@.len() >= 1,
    {
        let ghost prev = parts@.map_values(|p: String| p@);
        assert(url@.take(i + 1).drop_last() =~= url@.take(i as int));
        assert(url@.take(i + 1).last() == cs@[i as int]);
        if cs[i] == '/' {
            parts.push(String::new());
            assert(parts@.map_values(|p: String| p@) =~= prev.push(Seq::empty()));
        } else {
            let last = parts.len() - 1;
            let mut seg = parts.remove(last);
            push_char(&mut seg, cs[i]);
            parts.push(seg);
            assert(parts@.map_values(|p: String| p@) =~= prev.update(prev.len() - 1, prev.last().push(cs@[i as int])));
        }
    }
    assert(url@.take(cs@.len() as int) =~= url@);
    parts
}

/// The tag of a release, read from its download URL.
pub fn parse_release_tag_from_url(url: &str) -> (r: Result<String, String>)
    ensures
        match release_tag(url@) {
            Ok(t) => r matches Ok(x) && x@ == t,
            Err(m) => r matches Err(e) && e@ == m,
        },
{
    let parts = segments_of(url);
    let ghost pv = parts@.map_values(|p: String| p@);
    let mut d: usize = 0;
    while d < parts.len() && !str_equal(parts[d].as_str(), "download")
        invariant
            pv == parts@.map_values(|p: String| p@),
            d <= parts@.len(),
            forall|e: int| 0 <= e < d ==> pv[e] != "download"@,
        decreases parts.len() - d,
    {
        d = d + 1;
    }
    if d == parts.len() {
        return Err(String::from_str("redirected URL does not include a release download path"));
    }
    assert(pv[d as int] == "download"@);
    proof {
        let c = choose|c: int| 0 <= c < pv.len() && pv[c] == "download"@ && forall|e: int| 0 <= e < c ==> pv[e] != "download"@;
        assert(c == d) by {
            if c < d {
                assert(pv[c] != "download"@);
            }
            if d < c {
                assert(pv[d as int] != "download"@);
            }
        }
    }
    if d + 1 < parts.len() && parts[d + 1].as_str().unicode_len() > 0 {
        Ok(parts[d + 1].clone())
    } else {
        Err(String::from_str("redirected URL is missing the release tag"))
    }
}

/// What `url::Url::parse` of `base` followed by `Url::join` of `reference` gives: the joined
/// URL's text, or none where the base is no absolute URL or the join fails.
pub uninterp spec fn url_join(base: Seq<char>, reference: Seq<char>) -> Option<Seq<char>>;

/// Resolves `reference` against `base` with reqwest's `Url` (`url::Url::parse`, then
/// `Url::join`). The contract claims that the outcome is `url_join` of the two texts.
#[verifier::external_body]
fn join_url(base: &str, reference: &str) -> (r: Option<String>)
    ensures
        opt_view(r) == url_join(base@, reference@),
{
    let base_url = reqwest::Url::parse(base).ok()?;
    base_url.join(reference).ok().map(|u| u.to_string())
}

/// Where a redirect points: an absolute `http://` or `https://` location as it is, any other
/// location resolved against the URL that was asked for.
pub open spec fn redirect_target(location: Option<Seq<char>>, base: Seq<char>) -> Option<Seq<char>> {
    match location {
        None => None,
        Some(l) => if l.len() >= 7 && l.take(7) == "http://"@ || l.len() >= 8 && l.take(8) == "https://"@ {
            Some(l)
        } else {
            url_join(base, l)
        },
    }
}

/// The URL a redirect from `base` leads to, given the text of its `Location` header.
pub fn redirected_location(location: Option<&str>, base: &str) -> (r: Option<String>)
    ensures
        opt_view(r) == redirect_target(
            match location {
                Some(l) => Some(l@),
                None => None,
            },
            base@,
        ),
{
    let l = match location {
        Some(l) => l,
        None => return None,
    };
    let http = str_starts_with(l, "http://");
    let https = str_starts_with(l, "https://");
    proof {
        reveal_strlit("http://");
        reveal_strlit("https://");
        if l@.len() >= 7 {
            assert(l@.take(7) =~= l@.subrange(0, 7));
        }
        if l@.len() >= 8 {
            assert(l@.take(8) =~= l@.subrange(0, 8));
        }
    }
    if http || https {
        Some(String::from_str(l))
    } else {
        join_url(base, l)
    }
}

/// The end of the line that starts at `i`: the index of the next `\n`, or the text's length.
pub open spec fn line_end(s: Seq<char>, i: int) -> int
    decreases s.len() - i,
{
    if i >= s.len() || s[i] == '\n' {
        i
    } else {
        line_end(s, i + 1)
    }
}

/// The first index from `i` on that holds no white space, or the line's length.
pub open spec fn skip_space(s: Seq<char>, i: int) -> int
    decreases s.len() - i,
{
    if i >= s.len() || !is_white_space(s[i]) {
        i
    } else {
        skip_space(s, i + 1)
    }
}

/// The first index from `i` on that holds white space, or the line's length.
pub open spec fn word_end(s: Seq<char>, i: int) -> int
    decreases s.len() - i,
{
    if i >= s.len() || is_white_space(s[i]) {
        i
    } else {
        word_end(s, i + 1)
    }
}

/// The scans of a line stay within it and never move backwards.
pub proof fn lemma_scan_bounds(s: Seq<char>, i: int)
    requires
        0 <= i,
    ensures
        i <= line_end(s, i) && (i <= s.len() ==> line_end(s, i) <= s.len()),
        i <= skip_space(s, i) && (i <= s.len() ==> skip_space(s, i) <= s.len()),
        i <= word_end(s, i) && (i <= s.len() ==> word_end(s, i) <= s.len()),
    decreases s.len() - i,
{
    if i < s.len() {
        lemma_scan_bounds(s, i + 1);
    }
}

/// The first two white-space-separated words of a line (`split_whitespace`), where it has two.
pub open spec fn first_two_words(line: Seq<char>) -> Option<(Seq<char>, Seq<char>)> {
    let a = skip_space(line, 0);
    let b = word_end(line, a);
    let c = skip_space(line, b);
    let d = word_end(line, c);
    if c < line.len() {
        Some((line.subrange(a, b), line.subrange(c, d)))
    } else {
        None
    }
}

/// The checksum listed for `name` in a checksums text, from the line at `i` on: the first word
/// of the first line whose second word is `name`. (Lines are split at `\n`; a `\r` before it is
/// white space, so it changes no word.)
pub open spec fn checksum_from(s: Seq<char>, name: Seq<char>, i: int) -> Option<Seq<char>>
    decreases s.len() + 1 - i,
    via checksum_from_decreases
{
    if i < 0 || i > s.len() {
        None
    } else {
        let e = line_end(s, i);
        let line = s.subrange(i, e);
        let words = first_two_words(line);
        if words is Some && words.unwrap().1 == name {
            Some(words.unwrap().0)
        } else {
            checksum_from(s, name, e + 1)
        }
    }
}

#[via_fn]
proof fn checksum_from_decreases(s: Seq<char>, name: Seq<char>, i: int) {
    if 0 <= i {
        lemma_scan_bounds(s, i);
    }
}

fn scan_line_end(cs: &Vec<char>, i: usize) -> (r: usize)
    requires
        i <= cs@.len(),
    ensures
        r == line_end(cs@, i as int),
        i <= r <= cs@.len(),
{
    let mut j = i;
    while j < cs.len() && cs[j] != '\n'
        invariant
            i <= j <= cs@.len(),
            line_end(cs@, i as int) == line_end(cs@, j as int),
        decreases cs@.len() - j,
    {
        j = j + 1;
    }
    j
}

fn scan_space(cs: &Vec<char>, i: usize, end: usize, skip: bool) -> (r: usize)
    requires
        i <= end <= cs@.len(),
    ensures
        i <= r <= end,
        skip ==> r == skip_space(cs@.subrange(0, end as int), i as int),
        !skip ==> r == word_end(cs@.subrange(0, end as int), i as int),
{
    let ghost line = cs@.subrange(0, end as int);
    let mut j = i;
    while j < end && is_whitespace_char(cs[j]) == skip
        invariant
            i <= j <= end <= cs@.len(),
            line == cs@.subrange(0, end as int),
            skip ==> skip_space(line, i as int) == skip_space(line, j as int),
            !skip ==> word_end(line, i as int) == word_end(line, j as int),
        decreases end - j,
    {
        assert(line[j as int] == cs@[j as int]);
        j = j + 1;
    }
    assert(j < end ==> line[j as int] == cs@[j as int]);
    j
}

fn text_of(cs: &Vec<char>, a: usize, b: usize) -> (r: String)
    requires
        a <= b <= cs@.len(),
    ensures
        r@ == cs@.subrange(a as int, b as int),
{
    let mut r = String::new();
    for k in a..b
        invariant
            a <= k <= b <= cs@.len(),
            r@ == cs@.subrange(a as int, k as int),
    {
        push_char(&mut r, cs[k]);
        assert(r@ =~= cs@.subrange(a as int, k + 1));
    }
    r
}

proof fn lemma_shift_line(s: Seq<char>, start: int, e: int, j: int)
    requires
        0 <= start <= j <= e <= s.len(),
    ensures
        skip_space(s.subrange(start, e), j - start) + start == skip_space(s.subrange(0, e), j),
        word_end(s.subrange(start, e), j - start) + start == word_end(s.subrange(0, e), j),
    decreases e - j,
{
    if j < e {
        assert(s.subrange(start, e)[j - start] == s.subrange(0, e)[j]);
        lemma_shift_line(s, start, e, j + 1);
    }
}

/// The checksum that a checksums file (its text `checksums`, displayed as `shown`) lists for
/// the archive `archive_name`.
pub fn checksum_for(archive_name: &str, checksums: &str, shown: &str) -> (r: Result<String, String>)
    ensures
        match checksum_from(checksums@, archive_name@, 0) {
            Some(c) => r matches Ok(x) && x@ == c,
            None => r matches Err(e) && e@ == "checksum file "@ + shown@ + " does not contain an entry for "@
                + archive_name@,
        },
{
    let cs = chars_of(checksums);
    let ghost s = checksums@;
    let mut start: usize = 0;
    loop
        invariant
            cs@ == s,
            s == checksums@,
            start <= cs@.len(),
            checksum_from(s, archive_name@, 0) == checksum_from(s, archive_name@, start as int),
        ensures
            checksum_from(s, archive_name@, 0) is None,
        decreases cs@.len() - start,
    {
        let e = scan_line_end(&cs, start);
        let ghost line = s.subrange(start as int, e as int);
        let a = scan_space(&cs, start, e, true);
        let b = scan_space(&cs, a, e, false);
        let c = scan_space(&cs, b, e, true);
        let d = scan_space(&cs, c, e, false);
        proof {
            lemma_scan_bounds(s, start as int);
            lemma_shift_line(s, start as int, e as int, start as int);
            lemma_shift_line(s, start as int, e as int, a as int);
            lemma_shift_line(s, start as int, e as int, b as int);
            lemma_shift_line(s, start as int, e as int, c as int);
            assert(line.subrange(a - start, b - start) =~= s.subrange(a as int, b as int));
            assert(line.subrange(c - start, d - start) =~= s.subrange(c as int, d as int));
            assert(first_two_words(line) == if c < e {
                Some((s.subrange(a as int, b as int), s.subrange(c as int, d as int)))
            } else {
                None::<(Seq<char>, Seq<char>)>
            });
        }
        if c < e {
            let second = text_of(&cs, c, d);
            if str_equal(second.as_str(), archive_name) {
                let first = text_of(&cs, a, b);
                assert(checksum_from(s, archive_name@, start as int) == Some(first@));
                return Ok(first);
            }
        }
        assert(checksum_from(s, archive_name@, start as int) == checksum_from(s, archive_name@, e + 1));
        if e == cs.len() {
            break;
        }
        start = e + 1;
    }
    let mut m = String::from_str("checksum file ");
    push_str(&mut m, shown);
    push_str(&mut m, " does not contain an entry for ");
    push_str(&mut m, archive_name);
    Err(m)
}

/// What `format!("{:x}", Sha256::digest(bytes))` gives: the SHA-256 digest of the bytes in
/// lowercase hex.
pub uninterp spec fn sha256_hex_of(bytes: Seq<u8>) -> Seq<char>;

/// The SHA-256 digest of `bytes` in lowercase hex (sha2's `Sha256::digest`). The contract
/// claims that the outcome is `sha256_hex_of` of the bytes.
#[verifier::external_body]
fn sha256_hex(bytes: &[u8]) -> (r: String)
    ensures
        r@ == sha256_hex_of(bytes@),
{
    format!("{:x}", sha2::Sha256::digest(bytes))
}

/// Checks a downloaded archive against the checksum that the release's checksums file lists
/// for it.
pub fn verify_checksum(archive: &[u8], archive_name: &str, checksums: &str, shown: &str) -> (r: Result<(), String>)
    ensures
        match checksum_from(checksums@, archive_name@, 0) {
            None => r matches Err(e) && e@ == "checksum file "@ + shown@ + " does not contain an entry for "@
                + archive_name@,
            Some(c) => if sha256_hex_of(archive@) == c {
                r is Ok
            } else {
                r matches Err(e) && e@ == "checksum verification failed for "@ + archive_name@ + ": expected "@ + c
                    + ", got "@ + sha256_hex_of(archive@)
            },
        },
{
    let expected = match checksum_for(archive_name, checksums, shown) {
        Ok(c) => c,
        Err(e) => return Err(e),
    };
    let actual = sha256_hex(archive);
    if !str_equal(actual.as_str(), expected.as_str()) {
        let mut m = String::from_str("checksum verification failed for ");
        push_str(&mut m, archive_name);
        push_str(&mut m, ": expected ");
        push_str(&mut m, expected.as_str());
        push_str(&mut m, ", got ");
        push_str(&mut m, actual.as_str());
        return Err(m);
    }
    Ok(())
}

} // verus!
