use loom_core::release::{
    checksum_for, map_target, parse_release_tag_from_url, redirected_location, release_urls,
    verify_checksum, ReleaseTarget,
};

#[test]
fn builds_release_urls() {
    let target = ReleaseTarget::new("aarch64-apple-darwin");
    let latest = release_urls("https://example.com/acartine/loom", &target, None);
    assert_eq!(
        latest.archive_url,
        "https://example.com/acartine/loom/releases/latest/download/loom-aarch64-apple-darwin.tar.gz"
    );
    assert_eq!(
        latest.checksums_url,
        "https://example.com/acartine/loom/releases/latest/download/loom-checksums.txt"
    );

    let tagged = release_urls("https://example.com/acartine/loom", &target, Some("v1.2.3"));
    assert_eq!(
        tagged.archive_url,
        "https://example.com/acartine/loom/releases/download/v1.2.3/loom-aarch64-apple-darwin.tar.gz"
    );
}

#[test]
fn maps_supported_targets() {
    assert_eq!(
        map_target("linux", "x86_64").unwrap(),
        ReleaseTarget::new("x86_64-unknown-linux-musl")
    );
    assert_eq!(
        map_target("linux", "aarch64").unwrap(),
        ReleaseTarget::new("aarch64-unknown-linux-musl")
    );
    assert_eq!(
        map_target("macos", "arm64").unwrap(),
        ReleaseTarget::new("aarch64-apple-darwin")
    );
}

#[test]
fn rejects_unsupported_targets() {
    let err = map_target("macos", "x86_64").unwrap_err();
    assert!(err.contains("macOS x86_64"));

    let err = map_target("freebsd", "x86_64").unwrap_err();
    assert!(err.contains("unsupported platform"));
}

#[test]
fn parses_redirected_version() {
    let tag = parse_release_tag_from_url(
        "https://github.com/acartine/loom/releases/download/v1.2.3/loom-x86_64-unknown-linux-musl.tar.gz",
    )
    .unwrap();
    assert_eq!(tag, "v1.2.3");
}

#[test]
fn parse_release_tag_fails_for_cdn_url() {
    let result = parse_release_tag_from_url(
        "https://objects.githubusercontent.com/github-production-release-asset-2e65be/123456789/abcdef-1234-5678-9abc-def012345678?X-Amz-Algorithm=AWS4-HMAC-SHA256",
    );
    assert!(result.is_err());
    assert!(result.unwrap_err().contains("download path"));
}

#[test]
fn archive_name_follows_the_triple() {
    let t = ReleaseTarget::new("x");
    assert_eq!(t.archive_name, "loom-x.tar.gz");
    assert_eq!(t.triple, "x");
}

#[test]
fn trailing_slashes_of_the_base_are_dropped() {
    let t = ReleaseTarget::new("x");
    let urls = release_urls("https://h/r//", &t, Some("v1"));
    assert_eq!(urls.archive_url, "https://h/r/releases/download/v1/loom-x.tar.gz");
    assert_eq!(urls.checksums_url, "https://h/r/releases/download/v1/loom-checksums.txt");
}

#[test]
fn a_download_segment_without_a_tag_is_refused() {
    let err = parse_release_tag_from_url("https://h/releases/download/").unwrap_err();
    assert_eq!(err, "redirected URL is missing the release tag");
    let err = parse_release_tag_from_url("https://h/releases/download").unwrap_err();
    assert_eq!(err, "redirected URL is missing the release tag");
    assert_eq!(parse_release_tag_from_url("download/v2/download/v3").unwrap(), "v2");
}

#[test]
fn unsupported_platform_message_lists_targets() {
    let err = map_target("windows", "x86_64").unwrap_err();
    assert_eq!(
        err,
        "unsupported platform: windows x86_64. Supported targets: x86_64-unknown-linux-musl, aarch64-unknown-linux-musl, aarch64-apple-darwin"
    );
    assert_eq!(map_target("linux", "amd64").unwrap().triple, "x86_64-unknown-linux-musl");
}

#[test]
fn redirected_location_resolves_absolute_url() {
    let result = redirected_location(
        Some("https://github.com/acartine/loom/releases/download/v1.2.3/loom-aarch64-apple-darwin.tar.gz"),
        "https://github.com/acartine/loom/releases/latest/download/loom-aarch64-apple-darwin.tar.gz",
    );
    assert_eq!(
        result.unwrap(),
        "https://github.com/acartine/loom/releases/download/v1.2.3/loom-aarch64-apple-darwin.tar.gz"
    );
}

#[test]
fn redirected_location_resolves_root_relative_path() {
    let result = redirected_location(
        Some("/acartine/loom/releases/download/v1.2.3/loom-aarch64-apple-darwin.tar.gz"),
        "https://github.com/acartine/loom/releases/latest/download/loom-aarch64-apple-darwin.tar.gz",
    );
    assert_eq!(
        result.unwrap(),
        "https://github.com/acartine/loom/releases/download/v1.2.3/loom-aarch64-apple-darwin.tar.gz"
    );
}

#[test]
fn redirected_location_returns_none_without_header() {
    let result: Option<String> = redirected_location(
        None,
        "https://github.com/acartine/loom/releases/latest/download/loom.tar.gz",
    );
    assert!(result.is_none());
}

#[test]
fn redirected_location_needs_an_absolute_base_for_relative_paths() {
    assert!(redirected_location(Some("/a/b"), "not a url").is_none());
    assert_eq!(
        redirected_location(Some("http://example.com/x"), "not a url").unwrap(),
        "http://example.com/x"
    );
}

#[test]
fn finds_checksum_for_archive() {
    let text = "abc123  loom-x86_64-unknown-linux-musl.tar.gz\r\ndef456 loom-aarch64-apple-darwin.tar.gz\n";
    assert_eq!(
        checksum_for("loom-aarch64-apple-darwin.tar.gz", text, "sums.txt").unwrap(),
        "def456"
    );
    assert_eq!(
        checksum_for("loom-x86_64-unknown-linux-musl.tar.gz", text, "sums.txt").unwrap(),
        "abc123"
    );
    assert_eq!(
        checksum_for("loom-other.tar.gz", text, "sums.txt").unwrap_err(),
        "checksum file sums.txt does not contain an entry for loom-other.tar.gz"
    );
}

#[test]
fn checksum_entry_needs_name_as_second_word_on_one_line() {
    let text = "abc123\nloom.tar.gz\n   \n  fff  loom.tar.gz  extra\n";
    assert_eq!(checksum_for("loom.tar.gz", text, "f").unwrap(), "fff");
    assert!(checksum_for("loom.tar.gz", "", "f").is_err());
    assert!(checksum_for("loom.tar.gz", "loom.tar.gz abc", "f").is_err());
}

#[test]
fn verifies_archive_checksum() {
    let sums = "ba7816bf8f01cfea414140de5dae2223b00361a396177a9cb410ff61f20015ad  a.tar.gz\n";
    assert!(verify_checksum(b"abc", "a.tar.gz", sums, "sums").is_ok());
    let err = verify_checksum(b"abd", "a.tar.gz", sums, "sums").unwrap_err();
    assert!(err.starts_with(
        "checksum verification failed for a.tar.gz: expected ba7816bf8f01cfea414140de5dae2223b00361a396177a9cb410ff61f20015ad, got "
    ));
    assert!(!err.ends_with("ba7816bf8f01cfea414140de5dae2223b00361a396177a9cb410ff61f20015ad"));
    assert_eq!(
        verify_checksum(b"abc", "b.tar.gz", sums, "sums").unwrap_err(),
        "checksum file sums does not contain an entry for b.tar.gz"
    );
    let empty = "e3b0c44298fc1c149afbf4c8996fb92427ae41e4649b934ca495991b7852b855 e.tar.gz";
    assert!(verify_checksum(b"", "e.tar.gz", empty, "sums").is_ok());
}
