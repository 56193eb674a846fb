use pimprobe::updates::{read_install_status, status_file_for, status_file_name};
use pimprobe::updates::{
    candidate_is_fresh, checked_download_size, commits_url, expected_digest, identity_matches,
    install_failed, install_status, installer_asset, installer_digest_matches, select_development,
    select_stable, stable_version_exec, target_error, valid_commit, Release, ReleaseAsset,
    UpdateError, CANDIDATE_LIFETIME_SECS, MAX_INSTALLER_SIZE,
};
use std::time::{Duration, Instant};

fn release(tag: &str, prerelease: bool, commit: &str) -> Release {
    Release {
        tag: tag.into(),
        name: tag.into(),
        notes: format!("notes for {tag}"),
        prerelease,
        draft: false,
        commit: commit.into(),
        assets: vec![ReleaseAsset {
            name: if tag == "dev" {
                format!("pimprobe-linux-arm64-{}.run", &commit[..7])
            } else {
                format!("pimprobe-linux-arm64-{tag}.run")
            },
            url: format!("https://example.invalid/{tag}.run"),
            digest: Some(format!("sha256:{}", "01".repeat(32))),
        }],
    }
}

#[test]
fn update_candidates_expire_before_installation() {
    let now = Instant::now();
    assert!(candidate_is_fresh(now, now));
    assert!(!candidate_is_fresh(
        now,
        now + Duration::from_secs(15 * 60) + Duration::from_secs(1)
    ));
}

#[test]
fn candidate_lifetime_is_fifteen_minutes() {
    assert_eq!(CANDIDATE_LIFETIME_SECS, 15 * 60);
    let now = Instant::now();
    assert!(candidate_is_fresh(now, now + Duration::from_secs(CANDIDATE_LIFETIME_SECS)));
    // A clock reading before the update was found counts as no time elapsed.
    assert!(candidate_is_fresh(now + Duration::from_secs(5), now));
}

#[test]
fn streamed_installer_size_is_bounded() {
    assert_eq!(
        checked_download_size(MAX_INSTALLER_SIZE - 1, 1).unwrap(),
        MAX_INSTALLER_SIZE
    );
    assert!(checked_download_size(MAX_INSTALLER_SIZE, 1).is_err());
}

#[test]
fn oversized_download_names_the_cause() {
    assert_eq!(
        checked_download_size(usize::MAX, usize::MAX),
        Err(UpdateError::Io("release installer is too large".into()))
    );
    assert_eq!(checked_download_size(0, 0), Ok(0));
}

#[test]
fn stable_selection_uses_calendar_versions_and_allows_returning_from_dev() {
    let releases = vec![
        release("dev", true, "deadbeef"),
        release("2026.09.0", false, "a"),
        release("2026.09.2", false, "c"),
        release("2026.09.1", false, "b"),
        release("v1.0", false, "old"),
        release("2026.9.9", false, "bad-month"),
        release("2026.09.03", false, "bad-sequence"),
    ];
    assert_eq!(
        select_stable(&releases, "local-dirty").unwrap().tag,
        "2026.09.2"
    );
    assert_eq!(
        select_stable(&releases, "2026.09.1").unwrap().tag,
        "2026.09.2"
    );
    assert!(select_stable(&releases, "2026.09.2").is_none());
    assert!(select_stable(&releases, "2026.10.0").is_none());
}

#[test]
fn development_selection_only_compares_commit_identity() {
    let releases = vec![
        release("dev", true, "0123456789abcdef"),
        release("2026.09.0", false, "a"),
    ];
    assert!(select_development(&releases, "0123456").is_none());
    assert_eq!(
        select_development(&releases, "different").unwrap().tag,
        "dev"
    );
}

#[test]
fn releases_without_the_installer_or_digest_are_ignored() {
    let mut missing_digest = release("2026.09.1", false, "a");
    missing_digest.assets[0].digest = None;
    let mut wrong_asset = release("2026.09.2", false, "b");
    wrong_asset.assets[0].name = "source.zip".into();
    assert!(select_stable(&[missing_digest, wrong_asset], "local").is_none());
}

#[test]
fn drafts_and_prereleases_are_not_stable() {
    let mut draft = release("2026.09.4", false, "d");
    draft.draft = true;
    let prerelease = release("2026.09.5", true, "e");
    let fine = release("2026.09.3", false, "c");
    assert_eq!(
        select_stable(&[draft, prerelease, fine], "2026.09.0").unwrap().tag,
        "2026.09.3"
    );
}

#[test]
fn calendar_versions_read_exactly() {
    assert_eq!(stable_version_exec("2026.09.2"), Some((2026, 9, 2)));
    assert_eq!(stable_version_exec("2026.12.10"), Some((2026, 12, 10)));
    assert_eq!(stable_version_exec("2026.13.0"), None);
    assert_eq!(stable_version_exec("2026.00.0"), None);
    assert_eq!(stable_version_exec("2026.9.9"), None);
    assert_eq!(stable_version_exec("2026.09.03"), None);
    assert_eq!(stable_version_exec("v1.0"), None);
}

#[test]
fn installer_asset_is_found_by_qualified_name() {
    let dev = release("dev", true, "0123456789abcdef");
    assert_eq!(
        installer_asset(&dev).unwrap().name,
        "pimprobe-linux-arm64-0123456.run"
    );
    let mut short = release("dev", true, "0123456789");
    short.commit = "012".into();
    assert!(installer_asset(&short).is_none());
    let stable = release("2026.09.1", false, "a");
    assert_eq!(
        installer_asset(&stable).unwrap().url,
        "https://example.invalid/2026.09.1.run"
    );
}

#[test]
fn expected_digest_requires_a_sha256_of_sixty_four_characters() {
    let mut asset = release("2026.09.1", false, "a").assets.remove(0);
    assert_eq!(expected_digest(&asset).unwrap(), "01".repeat(32));
    asset.digest = Some(format!("sha512:{}", "01".repeat(32)));
    assert_eq!(expected_digest(&asset), Err(UpdateError::MissingDigest));
    asset.digest = Some(format!("sha256:{}", "01".repeat(31)));
    assert_eq!(expected_digest(&asset), Err(UpdateError::MissingDigest));
    asset.digest = None;
    assert_eq!(expected_digest(&asset), Err(UpdateError::MissingDigest));
}

#[test]
fn installer_digest_is_checked_against_sha256_of_the_bytes() {
    // SHA-256 of "abc".
    let abc = "ba7816bf8f01cfea414140de5dae2223b00361a396177a9cb410ff61f20015ad";
    assert!(installer_digest_matches(abc, b"abc"));
    assert!(installer_digest_matches(&abc.to_uppercase(), b"abc"));
    assert!(!installer_digest_matches(abc, b"abd"));
    assert!(!installer_digest_matches(&"01".repeat(32), b"abc"));
}

#[test]
fn extracted_identity_must_name_the_selected_release() {
    let commit = "aaaaaaaaaaaaaaaaaaaaaaaaaaaaaaaaaaaaaaaa";
    let ok = Some((Some(format!("{commit}\n")), Some("2026.09.0\n".to_owned())));
    assert!(identity_matches(&ok, commit, "2026.09.0"));
    assert!(!identity_matches(&ok, commit, "2026.09.1"));
    assert!(!identity_matches(&Some((None, Some("2026.09.0".into()))), commit, "2026.09.0"));
    assert!(!identity_matches(&None, commit, "2026.09.0"));
}

#[test]
fn commit_identifiers_are_forty_hex_digits() {
    assert!(valid_commit("0123456789abcdefABCDEF0123456789abcdef01"));
    assert!(!valid_commit("0123456789abcdef"));
    assert!(!valid_commit("0123456789abcdefABCDEF0123456789abcdef0g"));
}

#[test]
fn commits_endpoint_sits_beside_the_releases_endpoint() {
    assert_eq!(
        commits_url("https://api.github.com/repos/f355/pimprobe/releases"),
        "https://api.github.com/repos/f355/pimprobe/commits"
    );
    assert_eq!(
        commits_url("https://example.invalid/releases/releases"),
        "https://example.invalid/commits"
    );
    assert_eq!(commits_url("https://example.invalid/x"), "https://example.invalid/x/commits");
}

#[test]
fn target_check_failures_explain_themselves() {
    assert_eq!(
        target_error("  wrong board\n"),
        UpdateError::Target("wrong board".into())
    );
    assert_eq!(
        target_error(" \n"),
        UpdateError::Target("target validation failed".into())
    );
    assert_eq!(
        target_error("wrong board").message(),
        "The installer cannot run on this machine: wrong board"
    );
    assert_eq!(
        UpdateError::Digest.message(),
        "The downloaded installer failed its SHA-256 check"
    );
}

#[test]
fn installer_status_files_are_read_line_by_line() {
    let failure = install_status("failed\nInstaller failed\n");
    assert_eq!(failure.state, "failed");
    assert_eq!(failure.message, "Installer failed");
    assert!(install_failed(&failure));
    let running = install_status("running\r\nstep one\nstep two");
    assert_eq!(running.state, "running");
    assert_eq!(running.message, "step one\nstep two");
    assert!(!install_failed(&running));
    let empty = install_status("");
    assert_eq!(empty.state, "unknown");
    assert_eq!(empty.message, "");
}

#[test]
fn status_files_are_named_by_the_canonical_operation_id() {
    assert_eq!(
        status_file_name("550E8400-E29B-41D4-A716-446655440000").unwrap(),
        "pimprobe-update-550e8400-e29b-41d4-a716-446655440000.status"
    );
    assert_eq!(
        status_file_name("550e8400e29b41d4a716446655440000").unwrap(),
        "pimprobe-update-550e8400-e29b-41d4-a716-446655440000.status"
    );
    assert!(matches!(status_file_name("../etc/passwd"), Err(UpdateError::Expired)));
    assert!(matches!(status_file_name(""), Err(UpdateError::Expired)));
    assert!(matches!(status_file_for(None), Err(UpdateError::Expired)));
    assert_eq!(
        status_file_for(Some("x".to_owned())).unwrap(),
        "pimprobe-update-x.status"
    );
}

#[test]
fn a_read_failure_is_removed_and_then_reads_unknown() {
    let (status, remove) = read_install_status(Some("failed\nInstaller failed\n"));
    assert_eq!((status.state.as_str(), status.message.as_str()), ("failed", "Installer failed"));
    assert!(remove);
    let (status, remove) = read_install_status(None);
    assert_eq!((status.state.as_str(), status.message.as_str()), ("unknown", ""));
    assert!(!remove);
    let (status, remove) = read_install_status(Some("running\n"));
    assert_eq!(status.state, "running");
    assert!(!remove);
}
