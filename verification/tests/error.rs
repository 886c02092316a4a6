use xtask::error::ReleaseError;
use xtask::release::{run_cargo, validate_semver};
use xtask::text::is_whitespace;

fn args(a: &[&str]) -> Vec<String> {
    a.iter().map(|s| s.to_string()).collect()
}

#[test]
fn semver_error_message() {
    let e = validate_semver("0.10").unwrap_err();
    assert_eq!(e.message(), "`0.10` is not a valid X.Y.Z semver version");
}

#[test]
fn git_error_messages_render_arguments_as_debug_list() {
    let e = ReleaseError::GitFailed(args(&["fetch", "upstream"]));
    assert_eq!(e.message(), format!("git {:?} failed", ["fetch", "upstream"]));
    assert_eq!(e.message(), "git [\"fetch\", \"upstream\"] failed");
    let e = ReleaseError::GitFailedWithOutput {
        args: args(&["status", "--porcelain"]),
        stderr: "fatal: boom\n".to_string(),
    };
    assert_eq!(e.message(), "git [\"status\", \"--porcelain\"] failed: fatal: boom\n");
}

#[test]
fn cargo_error_message() {
    let e = run_cargo(&args(&["fmt", "--check"]), false).unwrap_err();
    assert_eq!(e.message(), "cargo [\"fmt\", \"--check\"] failed");
}

#[test]
fn other_error_messages() {
    assert_eq!(
        ReleaseError::NoVersionLine.message(),
        "no `version = \"...\"` line in Cargo.toml"
    );
    assert_eq!(
        ReleaseError::NoUnreleasedSection.message(),
        "no `## [Unreleased]` section in CHANGELOG.md"
    );
    assert_eq!(
        ReleaseError::UnparseableRemoteUrl("x".to_string()).message(),
        "could not parse owner from remote URL `x`"
    );
    assert_eq!(
        ReleaseError::DirtyWorkingTree.message(),
        "working tree is not clean; commit or stash changes before preparing a release"
    );
    assert_eq!(
        ReleaseError::NotOnMain("dev".to_string()).message(),
        "must be on `main` to prepare a release (currently on `dev`)"
    );
    assert_eq!(
        ReleaseError::OutOfSync.message(),
        "`main` is not in sync with `upstream/main`; pull/rebase first"
    );
    assert_eq!(ReleaseError::PullRequestFailed.message(), "gh pr create failed");
    assert_eq!(
        ReleaseError::UnexpectedEvent.message(),
        "the release workflow was answered out of turn"
    );
}

#[test]
fn whitespace_matches_std() {
    for cp in 0u32..0x3100 {
        if let Some(c) = char::from_u32(cp) {
            assert_eq!(is_whitespace(c), c.is_whitespace(), "{cp:#x}");
        }
    }
}
