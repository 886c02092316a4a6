use xtask::error::ReleaseError;
use xtask::workflow::{Command, CutRelease, CutStage, Event, PrepareRelease, PrepareStage, Step};

fn args(a: &[&str]) -> Vec<String> {
    a.iter().map(|s| s.to_string()).collect()
}

fn captured(out: &str) -> Event {
    Event::Captured { success: true, stdout: out.as_bytes().to_vec(), stderr: Vec::new() }
}

const MANIFEST: &str = "\
[package]
name = \"stmo-cli\"
version = \"0.9.0\"
edition = \"2024\"
";

const CHANGELOG: &str = "\
# Changelog

## [Unreleased]

### Features
- something new

## [0.9.0] - 2026-07-16

### Features
- old stuff
";

/// Drives a preparation through its checks up to the branch creation.
fn prepare_until_branch_created(p: &mut PrepareRelease) {
    assert_eq!(
        p.step(Event::Started),
        Step::Perform(Command::GitCapture(args(&["status", "--porcelain"])))
    );
    assert_eq!(
        p.step(captured("")),
        Step::Perform(Command::GitCapture(args(&["rev-parse", "--abbrev-ref", "HEAD"])))
    );
    assert_eq!(
        p.step(captured("main\n")),
        Step::Perform(Command::Git(args(&["fetch", "upstream"])))
    );
    assert_eq!(
        p.step(Event::Exited(true)),
        Step::Perform(Command::GitCapture(args(&["rev-parse", "HEAD"])))
    );
    assert_eq!(
        p.step(captured("abc123\n")),
        Step::Perform(Command::GitCapture(args(&["rev-parse", "upstream/main"])))
    );
    assert_eq!(
        p.step(captured("abc123")),
        Step::Perform(Command::Git(args(&["checkout", "-b", "release-0.10.0"])))
    );
}

#[test]
fn prepare_release_runs_every_step_in_order() {
    let mut p = PrepareRelease::new("0.10.0", "2026-07-20");
    assert_eq!(p.stage(), PrepareStage::Start);
    prepare_until_branch_created(&mut p);
    assert_eq!(p.step(Event::Exited(true)), Step::Perform(Command::ReadManifest));
    let bumped = match p.step(Event::Read(MANIFEST.to_string())) {
        Step::Perform(Command::WriteManifest(text)) => text,
        other => panic!("unexpected step {other:?}"),
    };
    assert!(bumped.contains("version = \"0.10.0\""));
    assert!(!bumped.contains("0.9.0"));
    assert_eq!(p.step(Event::Written), Step::Perform(Command::ReadChangelog));
    let dated = match p.step(Event::Read(CHANGELOG.to_string())) {
        Step::Perform(Command::WriteChangelog(text)) => text,
        other => panic!("unexpected step {other:?}"),
    };
    assert!(dated.contains("## [0.10.0] - 2026-07-20"));
    assert!(!dated.contains("## [Unreleased]"));
    assert_eq!(
        p.step(Event::Written),
        Step::Perform(Command::Cargo(args(&["test", "--workspace"])))
    );
    match p.step(Event::Exited(true)) {
        Step::Perform(Command::Cargo(a)) => assert_eq!(a[0], "clippy"),
        other => panic!("unexpected step {other:?}"),
    }
    assert_eq!(
        p.step(Event::Exited(true)),
        Step::Perform(Command::Cargo(args(&["fmt", "--check"])))
    );
    assert_eq!(p.step(Event::Exited(true)), Step::Perform(Command::Git(args(&["add", "-A"]))));
    assert_eq!(
        p.step(Event::Exited(true)),
        Step::Perform(Command::Git(args(&["commit", "-m", "Release 0.10.0"])))
    );
    assert_eq!(
        p.step(Event::Exited(true)),
        Step::Finished("\nNext: cargo xtask cut-release 0.10.0".to_string())
    );
    assert_eq!(p.stage(), PrepareStage::Finished);
    assert_eq!(p.step(Event::Exited(true)), Step::Failed(ReleaseError::UnexpectedEvent));
    assert_eq!(p.stage(), PrepareStage::Finished);
}

#[test]
fn prepare_release_rejects_invalid_version_before_any_command() {
    let mut p = PrepareRelease::new("0.10", "2026-07-20");
    assert_eq!(
        p.step(Event::Started),
        Step::Failed(ReleaseError::InvalidSemver("0.10".to_string()))
    );
    assert_eq!(p.stage(), PrepareStage::Failed);
    assert_eq!(p.step(Event::Started), Step::Failed(ReleaseError::UnexpectedEvent));
    assert_eq!(p.stage(), PrepareStage::Failed);
}

#[test]
fn prepare_release_stops_on_dirty_tree() {
    let mut p = PrepareRelease::new("1.0.0", "d");
    p.step(Event::Started);
    assert_eq!(p.step(captured(" M src/lib.rs\n")), Step::Failed(ReleaseError::DirtyWorkingTree));
    assert_eq!(p.stage(), PrepareStage::Failed);
}

#[test]
fn prepare_release_stops_off_main() {
    let mut p = PrepareRelease::new("1.0.0", "d");
    p.step(Event::Started);
    p.step(captured("\n"));
    assert_eq!(
        p.step(captured("feature\n")),
        Step::Failed(ReleaseError::NotOnMain("feature".to_string()))
    );
}

#[test]
fn prepare_release_stops_when_out_of_sync() {
    let mut p = PrepareRelease::new("1.0.0", "d");
    p.step(Event::Started);
    p.step(captured(""));
    p.step(captured("main"));
    p.step(Event::Exited(true));
    p.step(captured("aaa"));
    assert_eq!(p.step(captured("bbb")), Step::Failed(ReleaseError::OutOfSync));
}

#[test]
fn prepare_release_stops_when_git_fails() {
    let mut p = PrepareRelease::new("1.0.0", "d");
    p.step(Event::Started);
    assert_eq!(
        p.step(Event::Captured { success: false, stdout: Vec::new(), stderr: b"boom".to_vec() }),
        Step::Failed(ReleaseError::GitFailedWithOutput {
            args: args(&["status", "--porcelain"]),
            stderr: "boom".to_string(),
        })
    );
}

#[test]
fn prepare_release_stops_when_branch_exists() {
    let mut p = PrepareRelease::new("0.10.0", "d");
    prepare_until_branch_created(&mut p);
    assert_eq!(
        p.step(Event::Exited(false)),
        Step::Failed(ReleaseError::GitFailed(args(&["checkout", "-b", "release-0.10.0"])))
    );
}

#[test]
fn prepare_release_stops_on_manifest_without_version() {
    let mut p = PrepareRelease::new("0.10.0", "d");
    prepare_until_branch_created(&mut p);
    p.step(Event::Exited(true));
    assert_eq!(
        p.step(Event::Read("[package]\n".to_string())),
        Step::Failed(ReleaseError::NoVersionLine)
    );
}

#[test]
fn prepare_release_stops_on_changelog_without_unreleased() {
    let mut p = PrepareRelease::new("0.10.0", "d");
    prepare_until_branch_created(&mut p);
    p.step(Event::Exited(true));
    p.step(Event::Read(MANIFEST.to_string()));
    p.step(Event::Written);
    assert_eq!(
        p.step(Event::Read("# Changelog\n".to_string())),
        Step::Failed(ReleaseError::NoUnreleasedSection)
    );
}

#[test]
fn prepare_release_stops_when_gate_fails() {
    let mut p = PrepareRelease::new("0.10.0", "d");
    prepare_until_branch_created(&mut p);
    p.step(Event::Exited(true));
    p.step(Event::Read(MANIFEST.to_string()));
    p.step(Event::Written);
    p.step(Event::Read(CHANGELOG.to_string()));
    p.step(Event::Written);
    assert_eq!(
        p.step(Event::Exited(false)),
        Step::Failed(ReleaseError::CargoFailed(args(&["test", "--workspace"])))
    );
    assert_eq!(p.stage(), PrepareStage::Failed);
}

#[test]
fn prepare_release_rejects_unexpected_event() {
    let mut p = PrepareRelease::new("1.0.0", "d");
    assert_eq!(p.step(Event::Written), Step::Failed(ReleaseError::UnexpectedEvent));
    assert_eq!(p.stage(), PrepareStage::Failed);
}

#[test]
fn cut_release_pushes_and_opens_pull_request() {
    let mut c = CutRelease::new("0.10.0");
    assert_eq!(c.stage(), CutStage::Start);
    assert_eq!(
        c.step(Event::Started),
        Step::Perform(Command::Git(args(&["push", "-u", "origin", "release-0.10.0"])))
    );
    assert_eq!(
        c.step(Event::Exited(true)),
        Step::Perform(Command::GitCapture(args(&["remote", "get-url", "origin"])))
    );
    match c.step(captured("git@github.com:JohanLorenzo/stmo-cli-fork.git\n")) {
        Step::Perform(Command::Gh(a)) => {
            assert_eq!(a[6], "--head");
            assert_eq!(a[7], "JohanLorenzo:release-0.10.0");
            assert_eq!(a[10], "Release 0.10.0");
        }
        other => panic!("unexpected step {other:?}"),
    }
    assert_eq!(
        c.step(Event::Exited(true)),
        Step::Finished(
            "\nAfter the PR is merged:\n  git checkout main && git pull upstream main\n  git tag -s 0.10.0 -m \"0.10.0\"\n  git push upstream 0.10.0"
                .to_string()
        )
    );
    assert_eq!(c.stage(), CutStage::Finished);
}

#[test]
fn cut_release_stops_on_unparseable_remote() {
    let mut c = CutRelease::new("0.10.0");
    c.step(Event::Started);
    c.step(Event::Exited(true));
    assert_eq!(
        c.step(captured("not-a-url\n")),
        Step::Failed(ReleaseError::UnparseableRemoteUrl("not-a-url".to_string()))
    );
    assert_eq!(c.stage(), CutStage::Failed);
}

#[test]
fn cut_release_stops_when_push_or_gh_fails() {
    let mut c = CutRelease::new("1.0.0");
    c.step(Event::Started);
    assert_eq!(
        c.step(Event::Exited(false)),
        Step::Failed(ReleaseError::GitFailed(args(&["push", "-u", "origin", "release-1.0.0"])))
    );
    let mut c = CutRelease::new("1.0.0");
    c.step(Event::Started);
    c.step(Event::Exited(true));
    c.step(captured("https://github.com/me/repo"));
    assert_eq!(c.step(Event::Exited(false)), Step::Failed(ReleaseError::PullRequestFailed));
}
