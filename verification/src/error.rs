//! The errors that the release helpers and workflows report.

use vstd::prelude::*;
use crate::text::views;

verus! {

/// Why a release step refused to go on.
#[derive(Debug, PartialEq, Eq)]
pub enum ReleaseError {
    /// The version is not three dot-separated runs of ASCII digits.
    InvalidSemver(String),
    /// The manifest has no line of the form `version = "..."`.
    NoVersionLine,
    /// The changelog has no `## [Unreleased]` heading.
    NoUnreleasedSection,
    /// No owner could be read from the remote URL.
    UnparseableRemoteUrl(String),
    /// `git` with these arguments exited unsuccessfully.
    GitFailed(Vec<String>),
    /// `git` with these arguments exited unsuccessfully, writing `stderr`.
    GitFailedWithOutput { args: Vec<String>, stderr: String },
    /// The working tree has uncommitted changes.
    DirtyWorkingTree,
    /// The current branch (given) is not `main`.
    NotOnMain(String),
    /// `main` and `upstream/main` point at different commits.
    OutOfSync,
    /// `cargo` with these arguments exited unsuccessfully.
    CargoFailed(Vec<String>),
    /// `gh pr create` exited unsuccessfully.
    PullRequestFailed,
    /// A workflow was handed an event that does not answer its last command.
    UnexpectedEvent,
}


/// A `ReleaseError` with its texts taken as character sequences.
pub enum Failure {
    InvalidSemver(Seq<char>),
    NoVersionLine,
    NoUnreleasedSection,
    UnparseableRemoteUrl(Seq<char>),
    GitFailed(Seq<Seq<char>>),
    GitFailedWithOutput(Seq<Seq<char>>, Seq<char>),
    DirtyWorkingTree,
    NotOnMain(Seq<char>),
    OutOfSync,
    CargoFailed(Seq<Seq<char>>),
    PullRequestFailed,
    UnexpectedEvent,
}

impl View for ReleaseError {
    type V = Failure;

    open spec fn view(&self) -> Failure {
        match self {
            ReleaseError::InvalidSemver(v) => Failure::InvalidSemver(v@),
            ReleaseError::NoVersionLine => Failure::NoVersionLine,
            ReleaseError::NoUnreleasedSection => Failure::NoUnreleasedSection,
            ReleaseError::UnparseableRemoteUrl(u) => Failure::UnparseableRemoteUrl(u@),
            ReleaseError::GitFailed(a) => Failure::GitFailed(views(a@)),
            ReleaseError::GitFailedWithOutput { args, stderr } => Failure::GitFailedWithOutput(
                views(args@),
                stderr@,
            ),
            ReleaseError::DirtyWorkingTree => Failure::DirtyWorkingTree,
            ReleaseError::NotOnMain(b) => Failure::NotOnMain(b@),
            ReleaseError::OutOfSync => Failure::OutOfSync,
            ReleaseError::CargoFailed(a) => Failure::CargoFailed(views(a@)),
            ReleaseError::PullRequestFailed => Failure::PullRequestFailed,
            ReleaseError::UnexpectedEvent => Failure::UnexpectedEvent,
        }
    }
}


/// The text that `format!("{:?}", ..)` makes of a list of strings with these
/// characters (for instance `["fetch", "upstream"]`).
pub uninterp spec fn debug_list(args: Seq<Seq<char>>) -> Seq<char>;

/// The `Debug` rendering of a list of arguments, by `format!("{:?}", args)`:
/// its result is named `debug_list` of the arguments' characters. How
/// strings are quoted and escaped there is left unsaid.
#[verifier::external_body]
fn debug_args(args: &Vec<String>) -> (s: String)
    ensures
        s@ == debug_list(views(args@)),
{
    format!("{:?}", args)
}

/// The message that reports a failure.
pub open spec fn failure_message(f: Failure) -> Seq<char> {
    match f {
        Failure::InvalidSemver(v) => "`"@ + v + "` is not a valid X.Y.Z semver version"@,
        Failure::NoVersionLine => "no `version = \"...\"` line in Cargo.toml"@,
        Failure::NoUnreleasedSection => "no `## [Unreleased]` section in CHANGELOG.md"@,
        Failure::UnparseableRemoteUrl(u) => "could not parse owner from remote URL `"@ + u + "`"@,
        Failure::GitFailed(a) => "git "@ + debug_list(a) + " failed"@,
        Failure::GitFailedWithOutput(a, e) => "git "@ + debug_list(a) + " failed: "@ + e,
        Failure::DirtyWorkingTree =>
            "working tree is not clean; commit or stash changes before preparing a release"@,
        Failure::NotOnMain(b) => "must be on `main` to prepare a release (currently on `"@ + b
            + "`)"@,
        Failure::OutOfSync => "`main` is not in sync with `upstream/main`; pull/rebase first"@,
        Failure::CargoFailed(a) => "cargo "@ + debug_list(a) + " failed"@,
        Failure::PullRequestFailed => "gh pr create failed"@,
        Failure::UnexpectedEvent => "the release workflow was answered out of turn"@,
    }
}

fn text_of(parts: &str) -> (s: String)
    ensures
        s@ == parts@,
{
    parts.to_owned()
}

impl ReleaseError {
    /// The message that reports this error, as `failure_message` gives it.
    pub fn message(&self) -> (m: String)
        ensures
            m@ == failure_message(self@),
    {
        match self {
            ReleaseError::InvalidSemver(v) => {
                let mut m = text_of("`");
                m.append(v.as_str());
                m.append("` is not a valid X.Y.Z semver version");
                m
            },
            ReleaseError::NoVersionLine => text_of("no `version = \"...\"` line in Cargo.toml"),
            ReleaseError::NoUnreleasedSection => text_of(
                "no `## [Unreleased]` section in CHANGELOG.md",
            ),
            ReleaseError::UnparseableRemoteUrl(u) => {
                let mut m = text_of("could not parse owner from remote URL `");
                m.append(u.as_str());
                m.append("`");
                m
            },
            ReleaseError::GitFailed(a) => {
                let mut m = text_of("git ");
                m.append(debug_args(a).as_str());
                m.append(" failed");
                m
            },
            ReleaseError::GitFailedWithOutput { args, stderr } => {
                let mut m = text_of("git ");
                m.append(debug_args(args).as_str());
                m.append(" failed: ");
                m.append(stderr.as_str());
                m
            },
            ReleaseError::DirtyWorkingTree => text_of(
                "working tree is not clean; commit or stash changes before preparing a release",
            ),
            ReleaseError::NotOnMain(b) => {
                let mut m = text_of("must be on `main` to prepare a release (currently on `");
                m.append(b.as_str());
                m.append("`)");
                m
            },
            ReleaseError::OutOfSync => text_of(
                "`main` is not in sync with `upstream/main`; pull/rebase first",
            ),
            ReleaseError::CargoFailed(a) => {
                let mut m = text_of("cargo ");
                m.append(debug_args(a).as_str());
                m.append(" failed");
                m
            },
            ReleaseError::PullRequestFailed => text_of("gh pr create failed"),
            ReleaseError::UnexpectedEvent => text_of("the release workflow was answered out of turn"),
        }
    }
}

} // verus!
