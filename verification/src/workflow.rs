//! The release workflows as state machines: each step takes what came of the
//! last command and answers with the next command to perform, or with the
//! end of the workflow. The driver performs the commands (processes, files)
//! and reports back; every decision is taken here.

use vstd::prelude::*;
use crate::error::{Failure, ReleaseError};
use vstd::utf8::{decode_utf8, valid_utf8};
use crate::git::{self, captured_text, utf8_lossy};
use crate::text::trim;
use crate::release::{
    after_merge_message, after_merge_text, bump_cargo_version, bumped_manifest, commit_release,
    create_release_branch, date_unreleased_heading, dated_changelog, fork_owner, is_semver,
    next_step_message, next_step_text, parse_fork_owner, pull_request_args, pull_request_spec,
    release_branch, release_branch_name, release_gate, release_gate_spec, release_title, run_cargo,
    validate_semver,
};
use crate::text::{copy_strings, views};

verus! {

/// Outside work that a workflow asks its driver to perform.
#[derive(Debug, PartialEq, Eq)]
pub enum Command {
    /// Run `git` with these arguments; answer `Exited`.
    Git(Vec<String>),
    /// Run `git` with these arguments, capturing its output; answer `Captured`.
    GitCapture(Vec<String>),
    /// Run `cargo` with these arguments; answer `Exited`.
    Cargo(Vec<String>),
    /// Run `gh` with these arguments; answer `Exited`.
    Gh(Vec<String>),
    /// Read `Cargo.toml`; answer `Read`.
    ReadManifest,
    /// Write this text to `Cargo.toml`; answer `Written`.
    WriteManifest(String),
    /// Read `CHANGELOG.md`; answer `Read`.
    ReadChangelog,
    /// Write this text to `CHANGELOG.md`; answer `Written`.
    WriteChangelog(String),
}

/// What the driver reports back to a workflow.
#[derive(Debug, PartialEq, Eq)]
pub enum Event {
    /// The workflow is to begin.
    Started,
    /// A process ran; whether it exited successfully.
    Exited(bool),
    /// A process ran with its output captured.
    Captured { success: bool, stdout: Vec<u8>, stderr: Vec<u8> },
    /// A file was read; its text.
    Read(String),
    /// A file was written.
    Written,
}

/// A workflow's answer to an event.
#[derive(Debug, PartialEq, Eq)]
pub enum Step {
    /// Perform this command and report its outcome.
    Perform(Command),
    /// The workflow is complete; show this text.
    Finished(String),
    /// The workflow stopped for this reason.
    Failed(ReleaseError),
}

/// A `Command` with its texts taken as character sequences.
pub enum CommandView {
    Git(Seq<Seq<char>>),
    GitCapture(Seq<Seq<char>>),
    Cargo(Seq<Seq<char>>),
    Gh(Seq<Seq<char>>),
    ReadManifest,
    WriteManifest(Seq<char>),
    ReadChangelog,
    WriteChangelog(Seq<char>),
}

/// An `Event` with its texts and bytes taken as sequences.
pub enum EventView {
    Started,
    Exited(bool),
    Captured(bool, Seq<u8>, Seq<u8>),
    Read(Seq<char>),
    Written,
}

/// A `Step` with its texts taken as character sequences.
pub enum StepView {
    Perform(CommandView),
    Finished(Seq<char>),
    Failed(Failure),
}

impl View for Command {
    type V = CommandView;

    open spec fn view(&self) -> CommandView {
        match self {
            Command::Git(a) => CommandView::Git(views(a@)),
            Command::GitCapture(a) => CommandView::GitCapture(views(a@)),
            Command::Cargo(a) => CommandView::Cargo(views(a@)),
            Command::Gh(a) => CommandView::Gh(views(a@)),
            Command::ReadManifest => CommandView::ReadManifest,
            Command::WriteManifest(t) => CommandView::WriteManifest(t@),
            Command::ReadChangelog => CommandView::ReadChangelog,
            Command::WriteChangelog(t) => CommandView::WriteChangelog(t@),
        }
    }
}

impl View for Event {
    type V = EventView;

    open spec fn view(&self) -> EventView {
        match self {
            Event::Started => EventView::Started,
            Event::Exited(ok) => EventView::Exited(*ok),
            Event::Captured { success, stdout, stderr } => EventView::Captured(
                *success,
                stdout@,
                stderr@,
            ),
            Event::Read(t) => EventView::Read(t@),
            Event::Written => EventView::Written,
        }
    }
}

impl View for Step {
    type V = StepView;

    open spec fn view(&self) -> StepView {
        match self {
            Step::Perform(c) => StepView::Perform(c@),
            Step::Finished(t) => StepView::Finished(t@),
            Step::Failed(e) => StepView::Failed(e@),
        }
    }
}

/// `git status --porcelain`: what the working tree has uncommitted.
pub open spec fn status_args() -> Seq<Seq<char>> {
    seq!["status"@, "--porcelain"@]
}

/// `git rev-parse --abbrev-ref HEAD`: the current branch.
pub open spec fn current_branch_args() -> Seq<Seq<char>> {
    seq!["rev-parse"@, "--abbrev-ref"@, "HEAD"@]
}

/// `git fetch upstream`.
pub open spec fn fetch_args() -> Seq<Seq<char>> {
    seq!["fetch"@, "upstream"@]
}

/// `git rev-parse HEAD`: the current commit.
pub open spec fn head_args() -> Seq<Seq<char>> {
    seq!["rev-parse"@, "HEAD"@]
}

/// `git rev-parse upstream/main`: the commit of the upstream `main`.
pub open spec fn upstream_args() -> Seq<Seq<char>> {
    seq!["rev-parse"@, "upstream/main"@]
}

/// `git push -u origin release-<version>`.
pub open spec fn push_args(version: Seq<char>) -> Seq<Seq<char>> {
    seq!["push"@, "-u"@, "origin"@, release_branch_name(version)]
}

/// `git remote get-url origin`.
pub open spec fn remote_url_args() -> Seq<Seq<char>> {
    seq!["remote"@, "get-url"@, "origin"@]
}

fn strings2(a: &str, b: &str) -> (v: Vec<String>)
    ensures
        views(v@) == seq![a@, b@],
{
    let v = vec![a.to_owned(), b.to_owned()];
    assert(views(v@) =~= seq![a@, b@]);
    v
}

fn strings3(a: &str, b: &str, c: &str) -> (v: Vec<String>)
    ensures
        views(v@) == seq![a@, b@, c@],
{
    let v = vec![a.to_owned(), b.to_owned(), c.to_owned()];
    assert(views(v@) =~= seq![a@, b@, c@]);
    v
}

/// The stages of preparing a release, in the order they are passed.
#[derive(Clone, Copy, Debug, PartialEq, Eq, Structural)]
pub enum PrepareStage {
    Start,
    Status,
    Branch,
    Fetch,
    Head,
    Upstream,
    CreateBranch,
    ReadManifest,
    WriteManifest,
    ReadChangelog,
    WriteChangelog,
    Test,
    Clippy,
    Fmt,
    Add,
    Commit,
    Finished,
    Failed,
}

/// Preparing a release of `version` dated `date`: check the version, check
/// that the working tree is clean, on `main` and in sync with
/// `upstream/main`, create the release branch, bump `Cargo.toml`, date the
/// changelog, run the release gate, and commit.
pub struct PrepareRelease {
    version: String,
    date: String,
    head: String,
    stage: PrepareStage,
}

/// The state of a `PrepareRelease`: its version and date, the commit that
/// `HEAD` was found at, and its stage.
pub struct PrepareState {
    pub version: Seq<char>,
    pub date: Seq<char>,
    pub head: Seq<char>,
    pub stage: PrepareStage,
}

impl View for PrepareRelease {
    type V = PrepareState;

    closed spec fn view(&self) -> PrepareState {
        PrepareState {
            version: self.version@,
            date: self.date@,
            head: self.head@,
            stage: self.stage,
        }
    }
}

/// For a successful capture whose output is valid UTF-8, the text read
/// from it is that output decoded and trimmed.
pub open spec fn captured_as_decoded(e: EventView) -> bool {
    match e {
        EventView::Captured(ok, out, _) => ok && valid_utf8(out) ==> captured_text(out) == trim(
            decode_utf8(out),
        ),
        _ => true,
    }
}

/// The stages at which a preparation reads what `git` printed.
pub open spec fn prepare_reads_output(stage: PrepareStage) -> bool {
    stage == PrepareStage::Status || stage == PrepareStage::Branch || stage == PrepareStage::Head
        || stage == PrepareStage::Upstream
}

/// Moves a preparation to stage `stage` with the answer `step`.
pub open spec fn prepare_go(s: PrepareState, stage: PrepareStage, step: StepView) -> (PrepareState, StepView) {
    (PrepareState { stage: stage, ..s }, step)
}

/// Stops a preparation for `f`.
pub open spec fn prepare_fail(s: PrepareState, f: Failure) -> (PrepareState, StepView) {
    prepare_go(s, PrepareStage::Failed, StepView::Failed(f))
}

/// Whether a stage ends the workflow.
pub open spec fn prepare_is_terminal(stage: PrepareStage) -> bool {
    stage == PrepareStage::Finished || stage == PrepareStage::Failed
}

/// How a preparation in state `s` answers event `e`, and the state it moves to.
pub open spec fn prepare_next(s: PrepareState, e: EventView) -> (PrepareState, StepView) {
    let v = s.version;
    match (s.stage, e) {
        (PrepareStage::Start, EventView::Started) => if is_semver(v) {
            prepare_go(s, PrepareStage::Status, StepView::Perform(CommandView::GitCapture(status_args())))
        } else {
            prepare_fail(s, Failure::InvalidSemver(v))
        },
        (PrepareStage::Status, EventView::Captured(ok, out, err)) => if !ok {
            prepare_fail(s, Failure::GitFailedWithOutput(status_args(), utf8_lossy(err)))
        } else if captured_text(out).len() > 0 {
            prepare_fail(s, Failure::DirtyWorkingTree)
        } else {
            prepare_go(
                s,
                PrepareStage::Branch,
                StepView::Perform(CommandView::GitCapture(current_branch_args())),
            )
        },
        (PrepareStage::Branch, EventView::Captured(ok, out, err)) => if !ok {
            prepare_fail(s, Failure::GitFailedWithOutput(current_branch_args(), utf8_lossy(err)))
        } else if captured_text(out) != "main"@ {
            prepare_fail(s, Failure::NotOnMain(captured_text(out)))
        } else {
            prepare_go(s, PrepareStage::Fetch, StepView::Perform(CommandView::Git(fetch_args())))
        },
        (PrepareStage::Fetch, EventView::Exited(ok)) => if !ok {
            prepare_fail(s, Failure::GitFailed(fetch_args()))
        } else {
            prepare_go(s, PrepareStage::Head, StepView::Perform(CommandView::GitCapture(head_args())))
        },
        (PrepareStage::Head, EventView::Captured(ok, out, err)) => if !ok {
            prepare_fail(s, Failure::GitFailedWithOutput(head_args(), utf8_lossy(err)))
        } else {
            (
                PrepareState { stage: PrepareStage::Upstream, head: captured_text(out), ..s },
                StepView::Perform(CommandView::GitCapture(upstream_args())),
            )
        },
        (PrepareStage::Upstream, EventView::Captured(ok, out, err)) => if !ok {
            prepare_fail(s, Failure::GitFailedWithOutput(upstream_args(), utf8_lossy(err)))
        } else if captured_text(out) != s.head {
            prepare_fail(s, Failure::OutOfSync)
        } else {
            prepare_go(
                s,
                PrepareStage::CreateBranch,
                StepView::Perform(
                    CommandView::Git(seq!["checkout"@, "-b"@, release_branch_name(v)]),
                ),
            )
        },
        (PrepareStage::CreateBranch, EventView::Exited(ok)) => if !ok {
            prepare_fail(s, Failure::GitFailed(seq!["checkout"@, "-b"@, release_branch_name(v)]))
        } else {
            prepare_go(s, PrepareStage::ReadManifest, StepView::Perform(CommandView::ReadManifest))
        },
        (PrepareStage::ReadManifest, EventView::Read(m)) => match bumped_manifest(m, v) {
            Some(r) => prepare_go(
                s,
                PrepareStage::WriteManifest,
                StepView::Perform(CommandView::WriteManifest(r)),
            ),
            None => prepare_fail(s, Failure::NoVersionLine),
        },
        (PrepareStage::WriteManifest, EventView::Written) => prepare_go(
            s,
            PrepareStage::ReadChangelog,
            StepView::Perform(CommandView::ReadChangelog),
        ),
        (PrepareStage::ReadChangelog, EventView::Read(c)) => match dated_changelog(c, v, s.date) {
            Some(r) => prepare_go(
                s,
                PrepareStage::WriteChangelog,
                StepView::Perform(CommandView::WriteChangelog(r)),
            ),
            None => prepare_fail(s, Failure::NoUnreleasedSection),
        },
        (PrepareStage::WriteChangelog, EventView::Written) => prepare_go(
            s,
            PrepareStage::Test,
            StepView::Perform(CommandView::Cargo(release_gate_spec()[0])),
        ),
        (PrepareStage::Test, EventView::Exited(ok)) => if !ok {
            prepare_fail(s, Failure::CargoFailed(release_gate_spec()[0]))
        } else {
            prepare_go(
                s,
                PrepareStage::Clippy,
                StepView::Perform(CommandView::Cargo(release_gate_spec()[1])),
            )
        },
        (PrepareStage::Clippy, EventView::Exited(ok)) => if !ok {
            prepare_fail(s, Failure::CargoFailed(release_gate_spec()[1]))
        } else {
            prepare_go(
                s,
                PrepareStage::Fmt,
                StepView::Perform(CommandView::Cargo(release_gate_spec()[2])),
            )
        },
        (PrepareStage::Fmt, EventView::Exited(ok)) => if !ok {
            prepare_fail(s, Failure::CargoFailed(release_gate_spec()[2]))
        } else {
            prepare_go(
                s,
                PrepareStage::Add,
                StepView::Perform(CommandView::Git(seq!["add"@, "-A"@])),
            )
        },
        (PrepareStage::Add, EventView::Exited(ok)) => if !ok {
            prepare_fail(s, Failure::GitFailed(seq!["add"@, "-A"@]))
        } else {
            prepare_go(
                s,
                PrepareStage::Commit,
                StepView::Perform(CommandView::Git(seq!["commit"@, "-m"@, release_title(v)])),
            )
        },
        (PrepareStage::Commit, EventView::Exited(ok)) => if !ok {
            prepare_fail(s, Failure::GitFailed(seq!["commit"@, "-m"@, release_title(v)]))
        } else {
            prepare_go(s, PrepareStage::Finished, StepView::Finished(next_step_message(v)))
        },
        _ => if prepare_is_terminal(s.stage) {
            (s, StepView::Failed(Failure::UnexpectedEvent))
        } else {
            prepare_fail(s, Failure::UnexpectedEvent)
        },
    }
}


impl PrepareRelease {
    /// A preparation of `version` dated `date`, about to start.
    pub fn new(version: &str, date: &str) -> (p: PrepareRelease)
        ensures
            p@ == (PrepareState {
                version: version@,
                date: date@,
                head: Seq::empty(),
                stage: PrepareStage::Start,
            }),
    {
        PrepareRelease {
            version: version.to_owned(),
            date: date.to_owned(),
            head: String::new(),
            stage: PrepareStage::Start,
        }
    }

    /// The stage the preparation is at.
    pub fn stage(&self) -> (st: PrepareStage)
        ensures
            st == self@.stage,
    {
        self.stage
    }

    fn go(&mut self, stage: PrepareStage, step: Step) -> (r: Step)
        ensures
            (final(self)@, r@) == prepare_go(old(self)@, stage, step@),
    {
        self.stage = stage;
        step
    }

    fn fail(&mut self, e: ReleaseError) -> (r: Step)
        ensures
            (final(self)@, r@) == prepare_fail(old(self)@, e@),
    {
        self.stage = PrepareStage::Failed;
        Step::Failed(e)
    }

    fn unexpected(&mut self) -> (r: Step)
        requires
            !prepare_is_terminal(old(self)@.stage),
        ensures
            (final(self)@, r@) == prepare_fail(old(self)@, Failure::UnexpectedEvent),
    {
        self.fail(ReleaseError::UnexpectedEvent)
    }

    /// Answers `event`, the outcome of the last command (or `Started` at the
    /// start), with the next step, as `prepare_next` describes. Output that
    /// `git` printed in valid UTF-8 is read as its decoded, trimmed text.
    pub fn step(&mut self, event: Event) -> (r: Step)
        ensures
            (final(self)@, r@) == prepare_next(old(self)@, event@),
            prepare_reads_output(old(self)@.stage) ==> captured_as_decoded(event@),
    {
        match self.stage {
            PrepareStage::Start => match event {
                Event::Started => match validate_semver(self.version.as_str()) {
                    Ok(()) => self.go(
                        PrepareStage::Status,
                        Step::Perform(Command::GitCapture(strings2("status", "--porcelain"))),
                    ),
                    Err(e) => self.fail(e),
                },
                _ => self.unexpected(),
            },
            PrepareStage::Status => match event {
                Event::Captured { success, stdout, stderr } => {
                    let args = strings2("status", "--porcelain");
                    match git::output(&args, success, stdout.as_slice(), stderr.as_slice()) {
                        Err(e) => self.fail(e),
                        Ok(text) => if !text.as_str().is_empty() {
                            self.fail(ReleaseError::DirtyWorkingTree)
                        } else {
                            self.go(
                                PrepareStage::Branch,
                                Step::Perform(
                                    Command::GitCapture(strings3("rev-parse", "--abbrev-ref", "HEAD")),
                                ),
                            )
                        },
                    }
                },
                _ => self.unexpected(),
            },
            PrepareStage::Branch => match event {
                Event::Captured { success, stdout, stderr } => {
                    let args = strings3("rev-parse", "--abbrev-ref", "HEAD");
                    match git::output(&args, success, stdout.as_slice(), stderr.as_slice()) {
                        Err(e) => self.fail(e),
                        Ok(text) => {
                            let main = String::from_str("main");
                            if text == main {
                                self.go(
                                    PrepareStage::Fetch,
                                    Step::Perform(Command::Git(strings2("fetch", "upstream"))),
                                )
                            } else {
                                self.fail(ReleaseError::NotOnMain(text))
                            }
                        },
                    }
                },
                _ => self.unexpected(),
            },
            PrepareStage::Fetch => match event {
                Event::Exited(ok) => {
                    let args = strings2("fetch", "upstream");
                    match git::run(&args, ok) {
                        Err(e) => self.fail(e),
                        Ok(()) => self.go(
                            PrepareStage::Head,
                            Step::Perform(Command::GitCapture(strings2("rev-parse", "HEAD"))),
                        ),
                    }
                },
                _ => self.unexpected(),
            },
            PrepareStage::Head => match event {
                Event::Captured { success, stdout, stderr } => {
                    let args = strings2("rev-parse", "HEAD");
                    match git::output(&args, success, stdout.as_slice(), stderr.as_slice()) {
                        Err(e) => self.fail(e),
                        Ok(text) => {
                            self.head = text;
                            self.go(
                                PrepareStage::Upstream,
                                Step::Perform(
                                    Command::GitCapture(strings2("rev-parse", "upstream/main")),
                                ),
                            )
                        },
                    }
                },
                _ => self.unexpected(),
            },
            PrepareStage::Upstream => match event {
                Event::Captured { success, stdout, stderr } => {
                    let args = strings2("rev-parse", "upstream/main");
                    match git::output(&args, success, stdout.as_slice(), stderr.as_slice()) {
                        Err(e) => self.fail(e),
                        Ok(text) => if text == self.head {
                            let create = create_release_branch(self.version.as_str());
                            self.go(PrepareStage::CreateBranch, Step::Perform(Command::Git(create)))
                        } else {
                            self.fail(ReleaseError::OutOfSync)
                        },
                    }
                },
                _ => self.unexpected(),
            },
            PrepareStage::CreateBranch => match event {
                Event::Exited(ok) => {
                    let args = create_release_branch(self.version.as_str());
                    match git::run(&args, ok) {
                        Err(e) => self.fail(e),
                        Ok(()) => self.go(
                            PrepareStage::ReadManifest,
                            Step::Perform(Command::ReadManifest),
                        ),
                    }
                },
                _ => self.unexpected(),
            },
            PrepareStage::ReadManifest => match event {
                Event::Read(manifest) => match bump_cargo_version(
                    manifest.as_str(),
                    self.version.as_str(),
                ) {
                    Ok(bumped) => self.go(
                        PrepareStage::WriteManifest,
                        Step::Perform(Command::WriteManifest(bumped)),
                    ),
                    Err(e) => self.fail(e),
                },
                _ => self.unexpected(),
            },
            PrepareStage::WriteManifest => match event {
                Event::Written => self.go(
                    PrepareStage::ReadChangelog,
                    Step::Perform(Command::ReadChangelog),
                ),
                _ => self.unexpected(),
            },
            PrepareStage::ReadChangelog => match event {
                Event::Read(changelog) => match date_unreleased_heading(
                    changelog.as_str(),
                    self.version.as_str(),
                    self.date.as_str(),
                ) {
                    Ok(dated) => self.go(
                        PrepareStage::WriteChangelog,
                        Step::Perform(Command::WriteChangelog(dated)),
                    ),
                    Err(e) => self.fail(e),
                },
                _ => self.unexpected(),
            },
            PrepareStage::WriteChangelog => match event {
                Event::Written => {
                    let gate = release_gate();
                    let test = copy_strings(&gate[0]);
                    self.go(PrepareStage::Test, Step::Perform(Command::Cargo(test)))
                },
                _ => self.unexpected(),
            },
            PrepareStage::Test => match event {
                Event::Exited(ok) => {
                    let gate = release_gate();
                    match run_cargo(&gate[0], ok) {
                        Err(e) => self.fail(e),
                        Ok(()) => {
                            let clippy = copy_strings(&gate[1]);
                            self.go(PrepareStage::Clippy, Step::Perform(Command::Cargo(clippy)))
                        },
                    }
                },
                _ => self.unexpected(),
            },
            PrepareStage::Clippy => match event {
                Event::Exited(ok) => {
                    let gate = release_gate();
                    match run_cargo(&gate[1], ok) {
                        Err(e) => self.fail(e),
                        Ok(()) => {
                            let fmt = copy_strings(&gate[2]);
                            self.go(PrepareStage::Fmt, Step::Perform(Command::Cargo(fmt)))
                        },
                    }
                },
                _ => self.unexpected(),
            },
            PrepareStage::Fmt => match event {
                Event::Exited(ok) => {
                    let gate = release_gate();
                    match run_cargo(&gate[2], ok) {
                        Err(e) => self.fail(e),
                        Ok(()) => {
                            let cmds = commit_release(self.version.as_str());
                            let add = copy_strings(&cmds[0]);
                            self.go(PrepareStage::Add, Step::Perform(Command::Git(add)))
                        },
                    }
                },
                _ => self.unexpected(),
            },
            PrepareStage::Add => match event {
                Event::Exited(ok) => {
                    let cmds = commit_release(self.version.as_str());
                    match git::run(&cmds[0], ok) {
                        Err(e) => self.fail(e),
                        Ok(()) => {
                            let commit = copy_strings(&cmds[1]);
                            self.go(PrepareStage::Commit, Step::Perform(Command::Git(commit)))
                        },
                    }
                },
                _ => self.unexpected(),
            },
            PrepareStage::Commit => match event {
                Event::Exited(ok) => {
                    let cmds = commit_release(self.version.as_str());
                    match git::run(&cmds[1], ok) {
                        Err(e) => self.fail(e),
                        Ok(()) => {
                            let message = next_step_text(self.version.as_str());
                            self.go(PrepareStage::Finished, Step::Finished(message))
                        },
                    }
                },
                _ => self.unexpected(),
            },
            PrepareStage::Finished | PrepareStage::Failed => Step::Failed(
                ReleaseError::UnexpectedEvent,
            ),
        }
    }
}


/// The stages of cutting a release, in the order they are passed.
#[derive(Clone, Copy, Debug, PartialEq, Eq, Structural)]
pub enum CutStage {
    Start,
    Push,
    RemoteUrl,
    PullRequest,
    Finished,
    Failed,
}

/// Cutting a prepared release of `version`: push the release branch to
/// `origin`, read the fork owner from the `origin` URL, and open a draft pull
/// request against `mozilla/stmo-cli` `main`.
pub struct CutRelease {
    version: String,
    stage: CutStage,
}

/// The state of a `CutRelease`: its version and stage.
pub struct CutState {
    pub version: Seq<char>,
    pub stage: CutStage,
}

impl View for CutRelease {
    type V = CutState;

    closed spec fn view(&self) -> CutState {
        CutState { version: self.version@, stage: self.stage }
    }
}

/// Moves a cut to stage `stage` with the answer `step`.
pub open spec fn cut_go(s: CutState, stage: CutStage, step: StepView) -> (CutState, StepView) {
    (CutState { stage: stage, ..s }, step)
}

/// Stops a cut for `f`.
pub open spec fn cut_fail(s: CutState, f: Failure) -> (CutState, StepView) {
    cut_go(s, CutStage::Failed, StepView::Failed(f))
}

/// Whether a stage ends the cut.
pub open spec fn cut_is_terminal(stage: CutStage) -> bool {
    stage == CutStage::Finished || stage == CutStage::Failed
}

/// How a cut in state `s` answers event `e`, and the state it moves to.
pub open spec fn cut_next(s: CutState, e: EventView) -> (CutState, StepView) {
    let v = s.version;
    match (s.stage, e) {
        (CutStage::Start, EventView::Started) => cut_go(
            s,
            CutStage::Push,
            StepView::Perform(CommandView::Git(push_args(v))),
        ),
        (CutStage::Push, EventView::Exited(ok)) => if !ok {
            cut_fail(s, Failure::GitFailed(push_args(v)))
        } else {
            cut_go(s, CutStage::RemoteUrl, StepView::Perform(CommandView::GitCapture(remote_url_args())))
        },
        (CutStage::RemoteUrl, EventView::Captured(ok, out, err)) => if !ok {
            cut_fail(s, Failure::GitFailedWithOutput(remote_url_args(), utf8_lossy(err)))
        } else {
            match fork_owner(captured_text(out)) {
                Some(owner) => cut_go(
                    s,
                    CutStage::PullRequest,
                    StepView::Perform(CommandView::Gh(pull_request_spec(v, owner))),
                ),
                None => cut_fail(s, Failure::UnparseableRemoteUrl(captured_text(out))),
            }
        },
        (CutStage::PullRequest, EventView::Exited(ok)) => if !ok {
            cut_fail(s, Failure::PullRequestFailed)
        } else {
            cut_go(s, CutStage::Finished, StepView::Finished(after_merge_message(v)))
        },
        _ => if cut_is_terminal(s.stage) {
            (s, StepView::Failed(Failure::UnexpectedEvent))
        } else {
            cut_fail(s, Failure::UnexpectedEvent)
        },
    }
}

fn push_command(version: &str) -> (v: Vec<String>)
    ensures
        views(v@) == push_args(version@),
{
    let v = vec!["push".to_owned(), "-u".to_owned(), "origin".to_owned(), release_branch(version)];
    assert(views(v@) =~= push_args(version@));
    v
}

impl CutRelease {
    /// A cut of the release of `version`, about to start.
    pub fn new(version: &str) -> (c: CutRelease)
        ensures
            c@ == (CutState { version: version@, stage: CutStage::Start }),
    {
        CutRelease { version: version.to_owned(), stage: CutStage::Start }
    }

    /// The stage the cut is at.
    pub fn stage(&self) -> (st: CutStage)
        ensures
            st == self@.stage,
    {
        self.stage
    }

    fn go(&mut self, stage: CutStage, step: Step) -> (r: Step)
        ensures
            (final(self)@, r@) == cut_go(old(self)@, stage, step@),
    {
        self.stage = stage;
        step
    }

    fn fail(&mut self, e: ReleaseError) -> (r: Step)
        ensures
            (final(self)@, r@) == cut_fail(old(self)@, e@),
    {
        self.stage = CutStage::Failed;
        Step::Failed(e)
    }

    /// Answers `event`, the outcome of the last command (or `Started` at the
    /// start), with the next step, as `cut_next` describes. Output that `git`
    /// printed in valid UTF-8 is read as its decoded, trimmed text.
    pub fn step(&mut self, event: Event) -> (r: Step)
        ensures
            (final(self)@, r@) == cut_next(old(self)@, event@),
            old(self)@.stage == CutStage::RemoteUrl ==> captured_as_decoded(event@),
    {
        match self.stage {
            CutStage::Start => match event {
                Event::Started => {
                    let push = push_command(self.version.as_str());
                    self.go(CutStage::Push, Step::Perform(Command::Git(push)))
                },
                _ => self.fail(ReleaseError::UnexpectedEvent),
            },
            CutStage::Push => match event {
                Event::Exited(ok) => {
                    let push = push_command(self.version.as_str());
                    match git::run(&push, ok) {
                        Err(e) => self.fail(e),
                        Ok(()) => self.go(
                            CutStage::RemoteUrl,
                            Step::Perform(Command::GitCapture(strings3("remote", "get-url", "origin"))),
                        ),
                    }
                },
                _ => self.fail(ReleaseError::UnexpectedEvent),
            },
            CutStage::RemoteUrl => match event {
                Event::Captured { success, stdout, stderr } => {
                    let args = strings3("remote", "get-url", "origin");
                    match git::output(&args, success, stdout.as_slice(), stderr.as_slice()) {
                        Err(e) => self.fail(e),
                        Ok(url) => match parse_fork_owner(url.as_str()) {
                            Ok(owner) => {
                                let pr = pull_request_args(self.version.as_str(), owner.as_str());
                                self.go(CutStage::PullRequest, Step::Perform(Command::Gh(pr)))
                            },
                            Err(e) => self.fail(e),
                        },
                    }
                },
                _ => self.fail(ReleaseError::UnexpectedEvent),
            },
            CutStage::PullRequest => match event {
                Event::Exited(ok) => if ok {
                    let message = after_merge_text(self.version.as_str());
                    self.go(CutStage::Finished, Step::Finished(message))
                } else {
                    self.fail(ReleaseError::PullRequestFailed)
                },
                _ => self.fail(ReleaseError::UnexpectedEvent),
            },
            CutStage::Finished | CutStage::Failed => Step::Failed(ReleaseError::UnexpectedEvent),
        }
    }
}


/// The stage a preparation moves to when a non-final stage is passed.
pub open spec fn prepare_successor(stage: PrepareStage) -> PrepareStage {
    match stage {
        PrepareStage::Start => PrepareStage::Status,
        PrepareStage::Status => PrepareStage::Branch,
        PrepareStage::Branch => PrepareStage::Fetch,
        PrepareStage::Fetch => PrepareStage::Head,
        PrepareStage::Head => PrepareStage::Upstream,
        PrepareStage::Upstream => PrepareStage::CreateBranch,
        PrepareStage::CreateBranch => PrepareStage::ReadManifest,
        PrepareStage::ReadManifest => PrepareStage::WriteManifest,
        PrepareStage::WriteManifest => PrepareStage::ReadChangelog,
        PrepareStage::ReadChangelog => PrepareStage::WriteChangelog,
        PrepareStage::WriteChangelog => PrepareStage::Test,
        PrepareStage::Test => PrepareStage::Clippy,
        PrepareStage::Clippy => PrepareStage::Fmt,
        PrepareStage::Fmt => PrepareStage::Add,
        PrepareStage::Add => PrepareStage::Commit,
        PrepareStage::Commit => PrepareStage::Finished,
        PrepareStage::Finished => PrepareStage::Finished,
        PrepareStage::Failed => PrepareStage::Failed,
    }
}

/// Whether event `e` passes the check of the stage of `s`: the version is
/// valid, the tree is clean, the branch is `main`, `upstream/main` is the
/// commit `HEAD` was found at, the files could be rewritten, and every
/// command succeeded.
pub open spec fn prepare_passes(s: PrepareState, e: EventView) -> bool {
    match s.stage {
        PrepareStage::Start => e == EventView::Started && is_semver(s.version),
        PrepareStage::Status => e matches EventView::Captured(ok, out, _) && ok && captured_text(
            out,
        ).len() == 0,
        PrepareStage::Branch => e matches EventView::Captured(ok, out, _) && ok && captured_text(out)
            == "main"@,
        PrepareStage::Head => e matches EventView::Captured(ok, _, _) && ok,
        PrepareStage::Upstream => e matches EventView::Captured(ok, out, _) && ok && captured_text(
            out,
        ) == s.head,
        PrepareStage::ReadManifest => e matches EventView::Read(m) && bumped_manifest(
            m,
            s.version,
        ) is Some,
        PrepareStage::ReadChangelog => e matches EventView::Read(c) && dated_changelog(
            c,
            s.version,
            s.date,
        ) is Some,
        PrepareStage::WriteManifest | PrepareStage::WriteChangelog => e == EventView::Written,
        PrepareStage::Fetch | PrepareStage::CreateBranch | PrepareStage::Test | PrepareStage::Clippy
        | PrepareStage::Fmt | PrepareStage::Add | PrepareStage::Commit => e == EventView::Exited(true),
        PrepareStage::Finished | PrepareStage::Failed => false,
    }
}

/// One step of a preparation: a finished or failed preparation stays as it
/// is and answers every event as unexpected; any other moves on to the next
/// stage exactly when the event passes the check of its stage, and stops
/// with a failure otherwise. The version and date never change, and the
/// answer is a failure exactly when the preparation stops, a completion
/// exactly when it finishes.
pub proof fn law_prepare_step(s: PrepareState, e: EventView)
    ensures
        ({
            let (t, step) = prepare_next(s, e);
            &&& t.version == s.version
            &&& t.date == s.date
            &&& prepare_is_terminal(s.stage) ==> t == s && step == StepView::Failed(
                Failure::UnexpectedEvent,
            )
            &&& !prepare_is_terminal(s.stage) ==> {
                &&& prepare_passes(s, e) ==> t.stage == prepare_successor(s.stage)
                &&& !prepare_passes(s, e) ==> t.stage == PrepareStage::Failed
                &&& (step is Failed <==> t.stage == PrepareStage::Failed)
                &&& (step is Finished <==> t.stage == PrepareStage::Finished)
            }
        }),
{
}

/// The state a preparation reaches from `s` after answering `events` in turn.
pub open spec fn prepare_run(s: PrepareState, events: Seq<EventView>) -> PrepareState
    decreases events.len(),
{
    if events.len() == 0 {
        s
    } else {
        prepare_run(prepare_next(s, events[0]).0, events.drop_first())
    }
}

/// The position of a stage in the order of a preparation.
pub open spec fn prepare_rank(stage: PrepareStage) -> int {
    match stage {
        PrepareStage::Start => 0,
        PrepareStage::Status => 1,
        PrepareStage::Branch => 2,
        PrepareStage::Fetch => 3,
        PrepareStage::Head => 4,
        PrepareStage::Upstream => 5,
        PrepareStage::CreateBranch => 6,
        PrepareStage::ReadManifest => 7,
        PrepareStage::WriteManifest => 8,
        PrepareStage::ReadChangelog => 9,
        PrepareStage::WriteChangelog => 10,
        PrepareStage::Test => 11,
        PrepareStage::Clippy => 12,
        PrepareStage::Fmt => 13,
        PrepareStage::Add => 14,
        PrepareStage::Commit => 15,
        PrepareStage::Finished => 16,
        PrepareStage::Failed => 17,
    }
}

/// A failed preparation stays failed.
proof fn lemma_prepare_failed_stays(s: PrepareState, events: Seq<EventView>)
    requires
        s.stage == PrepareStage::Failed,
    ensures
        prepare_run(s, events).stage == PrepareStage::Failed,
    decreases events.len(),
{
    if events.len() > 0 {
        lemma_prepare_failed_stays(prepare_next(s, events[0]).0, events.drop_first());
    }
}

/// Running a first event, then the rest.
proof fn lemma_prepare_run_take(s: PrepareState, events: Seq<EventView>, i: int)
    requires
        0 <= i < events.len(),
    ensures
        prepare_run(s, events.take(i + 1)) == prepare_run(
            prepare_next(s, events[0]).0,
            events.drop_first().take(i),
        ),
{
    assert(events.take(i + 1)[0] == events[0]);
    assert(events.take(i + 1).drop_first() =~= events.drop_first().take(i));
}

/// A preparation that finishes has passed every stage from where it was:
/// for each such stage, some event found it at that stage and passed its
/// check.
proof fn lemma_prepare_finish_passes(s: PrepareState, events: Seq<EventView>)
    requires
        prepare_run(s, events).stage == PrepareStage::Finished,
        !prepare_is_terminal(s.stage),
    ensures
        forall|stage: PrepareStage|
            #![trigger prepare_rank(stage)]
            prepare_rank(s.stage) <= prepare_rank(stage) < 16 ==> exists|i: int|
                0 <= i < events.len() && (#[trigger] prepare_run(s, events.take(i))).stage == stage
                    && prepare_passes(prepare_run(s, events.take(i)), events[i]),
    decreases events.len(),
{
    if events.len() == 0 {
        assert(false);
    }
    let t = prepare_next(s, events[0]).0;
    law_prepare_step(s, events[0]);
    assert(events.take(0) =~= Seq::<EventView>::empty());
    assert(prepare_run(s, events.take(0)) == s);
    if !prepare_passes(s, events[0]) {
        lemma_prepare_failed_stays(t, events.drop_first());
        assert(false);
    }
    assert forall|stage: PrepareStage|
        #![trigger prepare_rank(stage)]
        prepare_rank(s.stage) <= prepare_rank(stage) < 16 implies exists|i: int|
            0 <= i < events.len() && (#[trigger] prepare_run(s, events.take(i))).stage == stage
                && prepare_passes(prepare_run(s, events.take(i)), events[i]) by {
        if stage == s.stage {
            assert(0 < events.len() && prepare_run(s, events.take(0)).stage == stage
                && prepare_passes(prepare_run(s, events.take(0)), events[0]));
        } else {
            assert(t.stage != PrepareStage::Finished);
            lemma_prepare_finish_passes(t, events.drop_first());
            let rest = events.drop_first();
            let i = choose|i: int|
                0 <= i < rest.len() && (#[trigger] prepare_run(t, rest.take(i))).stage == stage
                    && prepare_passes(prepare_run(t, rest.take(i)), rest[i]);
            lemma_prepare_run_take(s, events, i);
            assert(rest[i] == events[i + 1]);
            assert(0 <= i + 1 < events.len() && prepare_run(s, events.take(i + 1)).stage == stage
                && prepare_passes(prepare_run(s, events.take(i + 1)), events[i + 1]));
        }
    }
}

/// A fresh preparation of `version` dated `date`.
pub open spec fn prepare_start(version: Seq<char>, date: Seq<char>) -> PrepareState {
    PrepareState { version: version, date: date, head: Seq::empty(), stage: PrepareStage::Start }
}

/// A preparation finishes only after every check has passed, in order:
/// whatever the events, if it finishes, then for every stage before the end
/// some event found it at that stage and passed that stage's check. In
/// particular the release is committed only when the version was valid,
/// the tree clean, the branch `main`, `HEAD` equal to `upstream/main`, both
/// files rewritten and every command successful.
pub proof fn law_prepare_finishes_only_after_checks(
    version: Seq<char>,
    date: Seq<char>,
    events: Seq<EventView>,
)
    requires
        prepare_run(prepare_start(version, date), events).stage == PrepareStage::Finished,
    ensures
        is_semver(version),
        forall|stage: PrepareStage|
            #![trigger prepare_is_terminal(stage)]
            !prepare_is_terminal(stage) ==> exists|i: int|
                0 <= i < events.len() && (#[trigger] prepare_run(
                    prepare_start(version, date),
                    events.take(i),
                )).stage == stage && prepare_passes(
                    prepare_run(prepare_start(version, date), events.take(i)),
                    events[i],
                ),
{
    let s = prepare_start(version, date);
    lemma_prepare_finish_passes(s, events);
    assert forall|stage: PrepareStage|
        #![trigger prepare_is_terminal(stage)]
        !prepare_is_terminal(stage) implies prepare_rank(s.stage) <= prepare_rank(stage) < 16 by {}
    let i = choose|i: int|
        0 <= i < events.len() && (#[trigger] prepare_run(s, events.take(i))).stage
            == PrepareStage::Start && prepare_passes(prepare_run(s, events.take(i)), events[i]);
    lemma_prepare_version_kept(s, events.take(i));
}

/// Running a preparation never changes its version or date.
proof fn lemma_prepare_version_kept(s: PrepareState, events: Seq<EventView>)
    ensures
        prepare_run(s, events).version == s.version,
        prepare_run(s, events).date == s.date,
    decreases events.len(),
{
    if events.len() > 0 {
        law_prepare_step(s, events[0]);
        lemma_prepare_version_kept(prepare_next(s, events[0]).0, events.drop_first());
    }
}


/// The stage a cut moves to when a non-final stage is passed.
pub open spec fn cut_successor(stage: CutStage) -> CutStage {
    match stage {
        CutStage::Start => CutStage::Push,
        CutStage::Push => CutStage::RemoteUrl,
        CutStage::RemoteUrl => CutStage::PullRequest,
        CutStage::PullRequest => CutStage::Finished,
        CutStage::Finished => CutStage::Finished,
        CutStage::Failed => CutStage::Failed,
    }
}

/// Whether event `e` passes the check of the stage of `s`: the push and
/// `gh` succeed, and an owner can be read from the `origin` URL.
pub open spec fn cut_passes(s: CutState, e: EventView) -> bool {
    match s.stage {
        CutStage::Start => e == EventView::Started,
        CutStage::Push | CutStage::PullRequest => e == EventView::Exited(true),
        CutStage::RemoteUrl => e matches EventView::Captured(ok, out, _) && ok && fork_owner(
            captured_text(out),
        ) is Some,
        CutStage::Finished | CutStage::Failed => false,
    }
}

/// One step of a cut: a finished or failed cut stays as it is and answers
/// every event as unexpected; any other moves on to the next stage exactly
/// when the event passes the check of its stage, and stops with a failure
/// otherwise. The answer is a failure exactly when the cut stops, a
/// completion exactly when it finishes.
pub proof fn law_cut_step(s: CutState, e: EventView)
    ensures
        ({
            let (t, step) = cut_next(s, e);
            &&& t.version == s.version
            &&& cut_is_terminal(s.stage) ==> t == s && step == StepView::Failed(
                Failure::UnexpectedEvent,
            )
            &&& !cut_is_terminal(s.stage) ==> {
                &&& cut_passes(s, e) ==> t.stage == cut_successor(s.stage)
                &&& !cut_passes(s, e) ==> t.stage == CutStage::Failed
                &&& (step is Failed <==> t.stage == CutStage::Failed)
                &&& (step is Finished <==> t.stage == CutStage::Finished)
            }
        }),
{
}

/// The state a cut reaches from `s` after answering `events` in turn.
pub open spec fn cut_run(s: CutState, events: Seq<EventView>) -> CutState
    decreases events.len(),
{
    if events.len() == 0 {
        s
    } else {
        cut_run(cut_next(s, events[0]).0, events.drop_first())
    }
}

/// The position of a stage in the order of a cut.
pub open spec fn cut_rank(stage: CutStage) -> int {
    match stage {
        CutStage::Start => 0,
        CutStage::Push => 1,
        CutStage::RemoteUrl => 2,
        CutStage::PullRequest => 3,
        CutStage::Finished => 4,
        CutStage::Failed => 5,
    }
}

/// A failed cut stays failed.
proof fn lemma_cut_failed_stays(s: CutState, events: Seq<EventView>)
    requires
        s.stage == CutStage::Failed,
    ensures
        cut_run(s, events).stage == CutStage::Failed,
    decreases events.len(),
{
    if events.len() > 0 {
        lemma_cut_failed_stays(cut_next(s, events[0]).0, events.drop_first());
    }
}

/// A cut that finishes has passed every stage from where it was.
proof fn lemma_cut_finish_passes(s: CutState, events: Seq<EventView>)
    requires
        cut_run(s, events).stage == CutStage::Finished,
        !cut_is_terminal(s.stage),
    ensures
        forall|stage: CutStage|
            #![trigger cut_rank(stage)]
            cut_rank(s.stage) <= cut_rank(stage) < 4 ==> exists|i: int|
                0 <= i < events.len() && (#[trigger] cut_run(s, events.take(i))).stage == stage
                    && cut_passes(cut_run(s, events.take(i)), events[i]),
    decreases events.len(),
{
    if events.len() == 0 {
        assert(false);
    }
    let t = cut_next(s, events[0]).0;
    law_cut_step(s, events[0]);
    assert(events.take(0) =~= Seq::<EventView>::empty());
    assert(cut_run(s, events.take(0)) == s);
    if !cut_passes(s, events[0]) {
        lemma_cut_failed_stays(t, events.drop_first());
        assert(false);
    }
    assert forall|stage: CutStage|
        #![trigger cut_rank(stage)]
        cut_rank(s.stage) <= cut_rank(stage) < 4 implies exists|i: int|
            0 <= i < events.len() && (#[trigger] cut_run(s, events.take(i))).stage == stage
                && cut_passes(cut_run(s, events.take(i)), events[i]) by {
        if stage == s.stage {
            assert(0 < events.len() && cut_run(s, events.take(0)).stage == stage && cut_passes(
                cut_run(s, events.take(0)),
                events[0],
            ));
        } else {
            assert(t.stage != CutStage::Finished);
            lemma_cut_finish_passes(t, events.drop_first());
            let rest = events.drop_first();
            let i = choose|i: int|
                0 <= i < rest.len() && (#[trigger] cut_run(t, rest.take(i))).stage == stage
                    && cut_passes(cut_run(t, rest.take(i)), rest[i]);
            assert(events.take(i + 1)[0] == events[0]);
            assert(events.take(i + 1).drop_first() =~= rest.take(i));
            assert(rest[i] == events[i + 1]);
            assert(0 <= i + 1 < events.len() && cut_run(s, events.take(i + 1)).stage == stage
                && cut_passes(cut_run(s, events.take(i + 1)), events[i + 1]));
        }
    }
}

/// A fresh cut of `version`.
pub open spec fn cut_start(version: Seq<char>) -> CutState {
    CutState { version: version, stage: CutStage::Start }
}

/// A cut finishes only after every check has passed, in order: the push
/// succeeded, an owner was read from the `origin` URL, and `gh` opened the
/// pull request.
pub proof fn law_cut_finishes_only_after_checks(version: Seq<char>, events: Seq<EventView>)
    requires
        cut_run(cut_start(version), events).stage == CutStage::Finished,
    ensures
        forall|stage: CutStage|
            #![trigger cut_is_terminal(stage)]
            !cut_is_terminal(stage) ==> exists|i: int|
                0 <= i < events.len() && (#[trigger] cut_run(cut_start(version), events.take(i))).stage
                    == stage && cut_passes(cut_run(cut_start(version), events.take(i)), events[i]),
{
    let s = cut_start(version);
    lemma_cut_finish_passes(s, events);
    assert forall|stage: CutStage|
        #![trigger cut_is_terminal(stage)]
        !cut_is_terminal(stage) implies cut_rank(s.stage) <= cut_rank(stage) < 4 by {}
}

/// The branch a cut pushes is the branch the preparation of the same
/// version created, and the pull request carries the title the release was
/// committed with.
pub proof fn law_cut_pushes_prepared_branch(p: PrepareState, e: EventView, c: CutState, owner: Seq<char>)
    requires
        p.stage == PrepareStage::Upstream,
        prepare_passes(p, e),
        c.stage == CutStage::Start,
        c.version == p.version,
    ensures
        prepare_next(p, e).1 matches StepView::Perform(CommandView::Git(create)) && cut_next(
            c,
            EventView::Started,
        ).1 matches StepView::Perform(CommandView::Git(push)) && create[2] == push[3],
        pull_request_spec(c.version, owner)[10] == release_title(p.version),
{
}


/// `HEAD` is compared whole with `upstream/main`: from the stage that reads
/// `HEAD`, once both commits are read successfully, the preparation goes on
/// to create the branch `release-<version>` exactly when the two captured
/// texts are equal, and stops as out of sync otherwise.
pub proof fn law_prepare_compares_whole_head(
    s: PrepareState,
    out1: Seq<u8>,
    err1: Seq<u8>,
    out2: Seq<u8>,
    err2: Seq<u8>,
)
    requires
        s.stage == PrepareStage::Head,
    ensures
        ({
            let t = prepare_next(s, EventView::Captured(true, out1, err1)).0;
            let (u, step) = prepare_next(t, EventView::Captured(true, out2, err2));
            &&& t.stage == PrepareStage::Upstream
            &&& captured_text(out2) == captured_text(out1) ==> u.stage == PrepareStage::CreateBranch
                && step == StepView::Perform(
                CommandView::Git(seq!["checkout"@, "-b"@, "release-"@ + s.version]),
            )
            &&& captured_text(out2) != captured_text(out1) ==> u.stage == PrepareStage::Failed
                && step == StepView::Failed(Failure::OutOfSync)
        }),
{
}

/// The pull request is opened from the owner read from the `origin` URL:
/// when that URL ends in `/` or `:`, an owner, `/` or `:`, and a repository
/// name, with neither name holding `/` or `:`, the cut answers with `gh`
/// arguments whose `--head` is `<owner>:release-<version>`.
pub proof fn law_cut_heads_from_url_owner(
    s: CutState,
    out: Seq<u8>,
    err: Seq<u8>,
    prefix: Seq<char>,
    sep1: char,
    owner: Seq<char>,
    sep2: char,
    repo: Seq<char>,
)
    requires
        s.stage == CutStage::RemoteUrl,
        captured_text(out) == prefix + seq![sep1] + owner + seq![sep2] + repo,
        sep1 == '/' || sep1 == ':',
        sep2 == '/' || sep2 == ':',
        crate::release::free_of_slash_and_colon(owner),
        crate::release::free_of_slash_and_colon(repo),
    ensures
        cut_next(s, EventView::Captured(true, out, err)).0.stage == CutStage::PullRequest,
        cut_next(s, EventView::Captured(true, out, err)).1 matches StepView::Perform(
            CommandView::Gh(args),
        ) && args.len() == 13 && args[0] == "pr"@ && args[1] == "create"@ && args[6] == "--head"@
            && args[7] == owner + ":"@ + ("release-"@ + s.version),
{
    crate::release::law_fork_owner_splits_at_slash_and_colon(prefix, sep1, owner, sep2, repo);
}

} // verus!
