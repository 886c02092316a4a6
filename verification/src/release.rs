//! The text transformations of a release: version checks, manifest and
//! changelog rewrites, and reading the fork owner from a remote URL.

use vstd::prelude::*;
use crate::error::ReleaseError;
use crate::text::{
    occurs_at, free_of, lemma_join_split, lemma_lines_free, lemma_lines_of_joined, lemma_split_append_plain,
    lemma_split_nonempty, lemma_split_plain, lemma_split_push_sep,
    lemma_trim_start_push, strip_cr, is_unicode_whitespace, chars_of, find_first, first_occurrence, join, lemma_first_occurrence, line_ranges, lines_of,
    range_starts_with, ranges_cover, skip_whitespace, split_on, split_ranges, starts_with, trim_start,
    views,
};

verus! {

/// Whether `c` is one of the ASCII digits `0` to `9`.
pub open spec fn is_ascii_digit(c: char) -> bool {
    '0' <= c <= '9'
}

/// A non-empty run of ASCII digits.
pub open spec fn is_numeric_field(p: Seq<char>) -> bool {
    &&& p.len() > 0
    &&& forall|i: int| 0 <= i < p.len() ==> is_ascii_digit(#[trigger] p[i])
}

/// `X.Y.Z` where each of `X`, `Y` and `Z` is a non-empty run of ASCII digits.
pub open spec fn is_semver(v: Seq<char>) -> bool {
    let parts = split_on(v, seq!['.']);
    &&& parts.len() == 3
    &&& forall|j: int| 0 <= j < 3 ==> is_numeric_field(#[trigger] parts[j])
}

/// Accepts exactly the versions of the form `X.Y.Z` with each field a
/// non-empty run of ASCII digits.
pub fn validate_semver(version: &str) -> (res: Result<(), ReleaseError>)
    ensures
        res is Ok <==> is_semver(version@),
        res matches Err(e) ==> e matches ReleaseError::InvalidSemver(v) && v@ == version@,
{
    let chars = chars_of(version);
    let seps = vec!['.'];
    let ranges = split_ranges(&chars, &seps);
    let ghost parts = split_on(version@, seq!['.']);
    proof {
        assert(seps@ =~= seq!['.']);
    }
    let mut valid = ranges.len() == 3;
    if valid {
        let mut j: usize = 0;
        while j < 3
            invariant
                ranges_cover(chars@, ranges@, parts),
                ranges.len() == 3,
                chars@ == version@,
                j <= 3,
                valid <==> forall|k: int| 0 <= k < j ==> is_numeric_field(#[trigger] parts[k]),
            decreases 3 - j,
        {
            let (a, b) = ranges[j];
            let ghost p = parts[j as int];
            assert(ranges@[j as int] == (a, b));
            let mut ok = a < b;
            let mut i = a;
            while i < b
                invariant
                    a <= i <= b <= chars.len(),
                    p == chars@.subrange(a as int, b as int),
                    ok <==> (a < b && forall|t: int| a <= t < i ==> is_ascii_digit(#[trigger] chars@[t])),
                decreases b - i,
            {
                let c = chars[i];
                if !('0' <= c && c <= '9') {
                    ok = false;
                }
                i = i + 1;
            }
            proof {
                if ok {
                    assert forall|t: int| 0 <= t < p.len() implies is_ascii_digit(#[trigger] p[t]) by {
                        assert(p[t] == chars@[a + t]);
                    }
                } else if a < b {
                    let t = choose|t: int| a <= t < b && !is_ascii_digit(#[trigger] chars@[t]);
                    assert(p[t - a] == chars@[t]);
                }
            }
            if !ok {
                valid = false;
            }
            j = j + 1;
        }
    }
    if valid {
        Ok(())
    } else {
        Err(ReleaseError::InvalidSemver(version.to_owned()))
    }
}


/// The characters that separate the segments of a remote URL.
pub open spec fn url_separators() -> Seq<char> {
    seq!['/', ':']
}

/// The owner named by a remote URL: the second-to-last of its segments
/// between `/` and `:` characters, if it has at least two segments.
pub open spec fn fork_owner(url: Seq<char>) -> Option<Seq<char>> {
    let parts = split_on(url, url_separators());
    if parts.len() >= 2 {
        Some(parts[parts.len() - 2])
    } else {
        None
    }
}

/// Reads the owner of a fork from its remote URL, in SSH
/// (`git@host:owner/repo.git`) or HTTPS (`https://host/owner/repo`) form.
pub fn parse_fork_owner(remote_url: &str) -> (res: Result<String, ReleaseError>)
    ensures
        res is Ok <==> fork_owner(remote_url@) is Some,
        res matches Ok(owner) ==> owner@ == fork_owner(remote_url@).unwrap(),
        res matches Err(e) ==> e matches ReleaseError::UnparseableRemoteUrl(u) && u@ == remote_url@,
{
    let chars = chars_of(remote_url);
    let seps = vec!['/', ':'];
    let ranges = split_ranges(&chars, &seps);
    proof {
        assert(seps@ =~= url_separators());
    }
    if ranges.len() >= 2 {
        let (a, b) = ranges[ranges.len() - 2];
        assert(ranges@[ranges.len() - 2] == (a, b));
        let owner = remote_url.substring_char(a, b);
        Ok(owner.to_owned())
    } else {
        Err(ReleaseError::UnparseableRemoteUrl(remote_url.to_owned()))
    }
}


/// The heading that marks the changelog section still to be released.
pub open spec fn unreleased_marker() -> Seq<char> {
    "## [Unreleased]"@
}

/// The heading of a released section: `## [<version>] - <date>`.
pub open spec fn release_heading(version: Seq<char>, date: Seq<char>) -> Seq<char> {
    "## ["@ + version + "] - "@ + date
}

/// The changelog with its first `## [Unreleased]` heading replaced by the
/// heading of the release, if it has such a heading.
pub open spec fn dated_changelog(changelog: Seq<char>, version: Seq<char>, date: Seq<char>) -> Option<Seq<char>> {
    match first_occurrence(changelog, unreleased_marker()) {
        Some(i) => Some(
            changelog.take(i) + release_heading(version, date) + changelog.skip(
                i + unreleased_marker().len(),
            ),
        ),
        None => None,
    }
}

/// Replaces the first `## [Unreleased]` heading of the changelog by
/// `## [<version>] - <date>`, leaving everything else as it was.
pub fn date_unreleased_heading(changelog: &str, version: &str, date: &str) -> (res: Result<String, ReleaseError>)
    ensures
        res is Ok <==> dated_changelog(changelog@, version@, date@) is Some,
        res matches Ok(r) ==> r@ == dated_changelog(changelog@, version@, date@).unwrap(),
        res matches Err(e) ==> e == ReleaseError::NoUnreleasedSection,
{
    let marker_str = "## [Unreleased]";
    let chars = chars_of(changelog);
    let marker = chars_of(marker_str);
    let n = chars.len();
    match find_first(&chars, &marker) {
        None => Err(ReleaseError::NoUnreleasedSection),
        Some(i) => {
            proof {
                lemma_first_occurrence(chars@, marker@);
                assert(first_occurrence(chars@, marker@) == Some(i as int));
                assert(i + marker@.len() <= chars@.len());
            }
            let end = i + marker.len();
            let mut out = String::from_str(changelog.substring_char(0, i));
            out.append("## [");
            out.append(version);
            out.append("] - ");
            out.append(date);
            out.append(changelog.substring_char(end, n));
            proof {
                assert(changelog@.take(i as int) =~= changelog@.subrange(0, i as int));
                assert(changelog@.skip(end as int) =~= changelog@.subrange(end as int, changelog@.len() as int));
            }
            Ok(out)
        },
    }
}


/// What a package version line begins with, once its indentation is removed.
pub open spec fn version_key() -> Seq<char> {
    "version = \""@
}

/// Whether a manifest line sets a version: `version = "` after optional
/// leading whitespace.
pub open spec fn is_version_line(line: Seq<char>) -> bool {
    starts_with(trim_start(line), version_key())
}

/// The first index at or after `k` of a line of `ls` that sets a version.
pub open spec fn first_version_line_from(ls: Seq<Seq<char>>, k: int) -> Option<int>
    decreases ls.len() - k,
{
    if k < 0 || k >= ls.len() {
        None
    } else if is_version_line(ls[k]) {
        Some(k)
    } else {
        first_version_line_from(ls, k + 1)
    }
}

/// The index of the first line of `ls` that sets a version.
pub open spec fn first_version_line(ls: Seq<Seq<char>>) -> Option<int> {
    first_version_line_from(ls, 0)
}

/// What `first_version_line_from` finds is a version line, and no line
/// before it from `k` on is one; when it finds none, no line from `k` on is.
pub proof fn lemma_first_version_line_from(ls: Seq<Seq<char>>, k: int)
    requires
        0 <= k,
    ensures
        first_version_line_from(ls, k) matches Some(i) ==> {
            &&& k <= i < ls.len()
            &&& is_version_line(ls[i])
            &&& forall|j: int| k <= j < i ==> !is_version_line(#[trigger] ls[j])
        },
        first_version_line_from(ls, k) is None ==> forall|j: int|
            k <= j < ls.len() ==> !is_version_line(#[trigger] ls[j]),
    decreases ls.len() - k,
{
    if k < ls.len() && !is_version_line(ls[k]) {
        lemma_first_version_line_from(ls, k + 1);
        assert forall|j: int| k <= j < k + 1 implies !is_version_line(#[trigger] ls[j]) by {
            assert(j == k);
        }
    }
}

/// The manifest line that sets the version to `version`.
pub open spec fn version_line(version: Seq<char>) -> Seq<char> {
    "version = \""@ + version + "\""@
}

/// The manifest with its first version line replaced by
/// `version = "<version>"`, its lines joined by `\n` and ended by a `\n`;
/// none when no line sets a version.
pub open spec fn bumped_manifest(manifest: Seq<char>, version: Seq<char>) -> Option<Seq<char>> {
    let ls = lines_of(manifest);
    match first_version_line(ls) {
        Some(k) => Some(join(ls.update(k, version_line(version)), seq!['\n']) + seq!['\n']),
        None => None,
    }
}

/// Index of the first line among `lines` of `s` that sets a version.
fn find_version_line(s: &Vec<char>, lines: &Vec<(usize, usize)>) -> (r: Option<usize>)
    requires
        ranges_cover(s@, lines@, lines_of(s@)),
    ensures
        r matches Some(k) ==> first_version_line(lines_of(s@)) == Some(k as int),
        r is None ==> first_version_line(lines_of(s@)) is None,
{
    let ghost ls = lines_of(s@);
    let key = chars_of("version = \"");
    let mut j: usize = 0;
    while j < lines.len()
        invariant
            ranges_cover(s@, lines@, ls),
            ls == lines_of(s@),
            key@ == version_key(),
            j <= lines.len(),
            first_version_line(ls) == first_version_line_from(ls, j as int),
        decreases lines.len() - j,
    {
        let (a, b) = lines[j];
        assert(lines@[j as int] == (a, b));
        let t = skip_whitespace(s, a, b);
        if range_starts_with(s, t, b, &key) {
            proof {
                assert(ls[j as int] == s@.subrange(a as int, b as int));
            }
            return Some(j);
        }
        proof {
            assert(ls[j as int] == s@.subrange(a as int, b as int));
        }
        j = j + 1;
    }
    None
}

/// Rewrites the package version of a Cargo manifest: the first line that
/// sets a version (`version = "..."`, possibly indented) becomes
/// `version = "<version>"`; every other line is kept. Lines are rejoined
/// with `\n` and the result ends with a `\n`.
pub fn bump_cargo_version(manifest: &str, version: &str) -> (res: Result<String, ReleaseError>)
    ensures
        res is Ok <==> bumped_manifest(manifest@, version@) is Some,
        res matches Ok(r) ==> r@ == bumped_manifest(manifest@, version@).unwrap(),
        res matches Err(e) ==> e == ReleaseError::NoVersionLine,
{
    let chars = chars_of(manifest);
    let lines = line_ranges(&chars);
    let ghost ls = lines_of(manifest@);
    match find_version_line(&chars, &lines) {
        None => Err(ReleaseError::NoVersionLine),
        Some(k) => {
            proof {
                lemma_first_version_line_from(ls, 0);
            }
            let ghost new_ls = ls.update(k as int, version_line(version@));
            let mut out = String::new();
            let mut j: usize = 0;
            proof {
                reveal_strlit("\n");
                assert(new_ls.take(0) =~= Seq::<Seq<char>>::empty());
            }
            while j < lines.len()
                invariant
                    chars@ == manifest@,
                    ls == lines_of(manifest@),
                    ranges_cover(chars@, lines@, ls),
                    k < lines.len(),
                    new_ls == ls.update(k as int, version_line(version@)),
                    j <= lines.len(),
                    out@ == join(new_ls.take(j as int), seq!['\n']),
                    "\n"@ == seq!['\n'],
                decreases lines.len() - j,
            {
                let ghost before = out@;
                if j > 0 {
                    out.append("\n");
                }
                if j == k {
                    out.append("version = \"");
                    out.append(version);
                    out.append("\"");
                } else {
                    let (a, b) = lines[j];
                    assert(lines@[j as int] == (a, b));
                    out.append(manifest.substring_char(a, b));
                }
                proof {
                    let taken = new_ls.take(j + 1);
                    assert(taken.last() == new_ls[j as int]);
                    if j > 0 {
                        assert(taken.drop_last() =~= new_ls.take(j as int));
                    } else {
                        assert(taken.len() == 1);
                    }
                    if j == k {
                        assert(new_ls[j as int] == version_line(version@));
                    } else {
                        assert(new_ls[j as int] == ls[j as int]);
                    }
                }
                j = j + 1;
            }
            out.append("\n");
            proof {
                assert(new_ls.take(lines.len() as int) =~= new_ls);
            }
            Ok(out)
        },
    }
}


/// The branch a release of `version` is prepared on: `release-<version>`.
pub open spec fn release_branch_name(version: Seq<char>) -> Seq<char> {
    "release-"@ + version
}

/// The title of a release, used as its commit message and pull request
/// title: `Release <version>`.
pub open spec fn release_title(version: Seq<char>) -> Seq<char> {
    "Release "@ + version
}

/// `release-<version>`.
pub fn release_branch(version: &str) -> (b: String)
    ensures
        b@ == release_branch_name(version@),
{
    let mut b = String::from_str("release-");
    b.append(version);
    b
}

/// `Release <version>`.
pub fn release_title_text(version: &str) -> (t: String)
    ensures
        t@ == release_title(version@),
{
    let mut t = String::from_str("Release ");
    t.append(version);
    t
}

/// The `git` arguments that create and check out the release branch.
pub fn create_release_branch(version: &str) -> (args: Vec<String>)
    ensures
        views(args@) == seq!["checkout"@, "-b"@, release_branch_name(version@)],
{
    let args = vec!["checkout".to_owned(), "-b".to_owned(), release_branch(version)];
    proof {
        assert(views(args@) =~= seq!["checkout"@, "-b"@, release_branch_name(version@)]);
    }
    args
}

/// The two `git` invocations that commit a release: stage every change,
/// then commit with the message `Release <version>`.
pub fn commit_release(version: &str) -> (cmds: Vec<Vec<String>>)
    ensures
        cmds.len() == 2,
        views(cmds@[0]@) == seq!["add"@, "-A"@],
        views(cmds@[1]@) == seq!["commit"@, "-m"@, release_title(version@)],
{
    let add = vec!["add".to_owned(), "-A".to_owned()];
    let commit = vec!["commit".to_owned(), "-m".to_owned(), release_title_text(version)];
    proof {
        assert(views(add@) =~= seq!["add"@, "-A"@]);
        assert(views(commit@) =~= seq!["commit"@, "-m"@, release_title(version@)]);
    }
    vec![add, commit]
}

/// The `cargo` invocations that gate a release, in order: the workspace
/// tests, clippy with pedantic lints as errors, and the format check.
pub open spec fn release_gate_spec() -> Seq<Seq<Seq<char>>> {
    seq![
        seq!["test"@, "--workspace"@],
        seq![
            "clippy"@,
            "--workspace"@,
            "--all-targets"@,
            "--all-features"@,
            "--"@,
            "-W"@,
            "clippy::pedantic"@,
            "-D"@,
            "warnings"@,
        ],
        seq!["fmt"@, "--check"@],
    ]
}

/// The `cargo` arguments of the release gate, in the order they run.
pub fn release_gate() -> (cmds: Vec<Vec<String>>)
    ensures
        cmds.len() == 3,
        forall|i: int| 0 <= i < 3 ==> views(#[trigger] cmds@[i]@) == release_gate_spec()[i],
{
    let test = vec!["test".to_owned(), "--workspace".to_owned()];
    let clippy = vec![
        "clippy".to_owned(),
        "--workspace".to_owned(),
        "--all-targets".to_owned(),
        "--all-features".to_owned(),
        "--".to_owned(),
        "-W".to_owned(),
        "clippy::pedantic".to_owned(),
        "-D".to_owned(),
        "warnings".to_owned(),
    ];
    let fmt = vec!["fmt".to_owned(), "--check".to_owned()];
    proof {
        assert(views(test@) =~= release_gate_spec()[0]);
        assert(views(clippy@) =~= release_gate_spec()[1]);
        assert(views(fmt@) =~= release_gate_spec()[2]);
    }
    let cmds = vec![test, clippy, fmt];
    assert(cmds@[0] == test && cmds@[1] == clippy && cmds@[2] == fmt);
    cmds
}

/// The outcome of running `cargo` with `args`: success when the process
/// exited successfully, else a failure that names the arguments.
pub fn run_cargo(args: &Vec<String>, success: bool) -> (res: Result<(), ReleaseError>)
    ensures
        success ==> res is Ok,
        !success ==> (res matches Err(ReleaseError::CargoFailed(a)) && a@ == args@),
{
    if success {
        Ok(())
    } else {
        Err(ReleaseError::CargoFailed(crate::text::copy_strings(args)))
    }
}

/// The body of the release pull request.
pub open spec fn pull_request_body(version: Seq<char>) -> Seq<char> {
    "## Summary\n- Bumps version to "@ + version
        + " and finalizes the CHANGELOG `[Unreleased]` section for this release.\n"@
}

/// The `gh` arguments that open the release pull request from the fork of
/// `owner` as a draft against `mozilla/stmo-cli` `main`.
pub open spec fn pull_request_spec(version: Seq<char>, owner: Seq<char>) -> Seq<Seq<char>> {
    seq![
        "pr"@,
        "create"@,
        "--repo"@,
        "mozilla/stmo-cli"@,
        "--base"@,
        "main"@,
        "--head"@,
        owner + ":"@ + release_branch_name(version),
        "--draft"@,
        "--title"@,
        release_title(version),
        "--body"@,
        pull_request_body(version),
    ]
}

/// The `gh` arguments that open the release pull request.
pub fn pull_request_args(version: &str, owner: &str) -> (args: Vec<String>)
    ensures
        views(args@) == pull_request_spec(version@, owner@),
{
    let mut head = owner.to_owned();
    head.append(":");
    head.append(release_branch(version).as_str());
    let mut body = String::from_str("## Summary\n- Bumps version to ");
    body.append(version);
    body.append(" and finalizes the CHANGELOG `[Unreleased]` section for this release.\n");
    let args = vec![
        "pr".to_owned(),
        "create".to_owned(),
        "--repo".to_owned(),
        "mozilla/stmo-cli".to_owned(),
        "--base".to_owned(),
        "main".to_owned(),
        "--head".to_owned(),
        head,
        "--draft".to_owned(),
        "--title".to_owned(),
        release_title_text(version),
        "--body".to_owned(),
        body,
    ];
    proof {
        assert(views(args@) =~= pull_request_spec(version@, owner@));
    }
    args
}

/// What the user is told once a release is prepared.
pub open spec fn next_step_message(version: Seq<char>) -> Seq<char> {
    "\nNext: cargo xtask cut-release "@ + version
}

/// What the user is told once the release pull request is open.
pub open spec fn after_merge_message(version: Seq<char>) -> Seq<char> {
    "\nAfter the PR is merged:\n  git checkout main && git pull upstream main\n  git tag -s "@
        + version + " -m \""@ + version + "\"\n  git push upstream "@ + version
}

/// `\nNext: cargo xtask cut-release <version>`.
pub fn next_step_text(version: &str) -> (m: String)
    ensures
        m@ == next_step_message(version@),
{
    let mut m = String::from_str("\nNext: cargo xtask cut-release ");
    m.append(version);
    m
}

/// The instructions for tagging the release once its pull request is merged.
pub fn after_merge_text(version: &str) -> (m: String)
    ensures
        m@ == after_merge_message(version@),
{
    let mut m = String::from_str(
        "\nAfter the PR is merged:\n  git checkout main && git pull upstream main\n  git tag -s ",
    );
    m.append(version);
    m.append(" -m \"");
    m.append(version);
    m.append("\"\n  git push upstream ");
    m.append(version);
    m
}


/// A version is accepted exactly when it is three non-empty runs of ASCII
/// digits joined by dots.
pub proof fn law_semver_shape(v: Seq<char>)
    ensures
        is_semver(v) <==> exists|a: Seq<char>, b: Seq<char>, c: Seq<char>|
            #![trigger a + seq!['.'] + b + seq!['.'] + c]
            is_numeric_field(a) && is_numeric_field(b) && is_numeric_field(c) && v == a + seq!['.']
                + b + seq!['.'] + c,
{
    let d = seq!['.'];
    if is_semver(v) {
        let parts = split_on(v, d);
        lemma_join_split(v, '.');
        assert(parts.drop_last().drop_last() =~= seq![parts[0]]);
        assert(parts.drop_last().last() == parts[1]);
        assert(join(parts, d) == join(parts.drop_last(), d) + d + parts[2]);
        assert(join(parts.drop_last(), d) == join(parts.drop_last().drop_last(), d) + d + parts[1]);
        assert(is_numeric_field(parts[0]) && is_numeric_field(parts[1]) && is_numeric_field(parts[2]));
        assert(v == parts[0] + d + parts[1] + d + parts[2]);
    }
    if exists|a: Seq<char>, b: Seq<char>, c: Seq<char>|
        #![trigger a + seq!['.'] + b + seq!['.'] + c]
        is_numeric_field(a) && is_numeric_field(b) && is_numeric_field(c) && v == a + seq!['.'] + b
            + seq!['.'] + c {
        let (a, b, c) = choose|a: Seq<char>, b: Seq<char>, c: Seq<char>|
            #![trigger a + seq!['.'] + b + seq!['.'] + c]
            is_numeric_field(a) && is_numeric_field(b) && is_numeric_field(c) && v == a + seq!['.']
                + b + seq!['.'] + c;
        lemma_semver_accepts(a, b, c);
    }
}

/// A numeric field holds no dot.
proof fn lemma_numeric_free(p: Seq<char>)
    requires
        is_numeric_field(p),
    ensures
        free_of(p, seq!['.']),
{
    assert forall|i: int| 0 <= i < p.len() implies !seq!['.'].contains(#[trigger] p[i]) by {
        assert(is_ascii_digit(p[i]));
        if seq!['.'].contains(p[i]) {
            let k = choose|k: int| 0 <= k < 1 && seq!['.'][k] == p[i];
            assert(seq!['.'][k] == '.');
        }
    }
}

/// Three numeric fields joined by dots are accepted.
proof fn lemma_semver_accepts(a: Seq<char>, b: Seq<char>, c: Seq<char>)
    requires
        is_numeric_field(a),
        is_numeric_field(b),
        is_numeric_field(c),
    ensures
        is_semver(a + seq!['.'] + b + seq!['.'] + c),
{
    let d = seq!['.'];
    assert(d.contains('.')) by {
        assert(d[0] == '.');
    }
    lemma_numeric_free(a);
    lemma_numeric_free(b);
    lemma_numeric_free(c);
    lemma_split_plain(a, d);
    lemma_split_push_sep(a, '.', d);
    let e = Seq::<char>::empty();
    lemma_split_append_plain(a.push('.'), b, d);
    assert(e + b =~= b);
    let s3 = a.push('.') + b;
    assert(split_on(s3, d) =~= seq![a, b]);
    lemma_split_push_sep(s3, '.', d);
    lemma_split_append_plain(s3.push('.'), c, d);
    assert(e + c =~= c);
    let v = a + d + b + d + c;
    assert(v =~= s3.push('.') + c);
    assert(split_on(v, d) =~= seq![a, b, c]);
}

/// For a remote URL that ends in a separator, an owner, a separator and a
/// repository name, with neither name holding `/` or `:`, the owner read
/// from the URL is that owner, whatever comes before.
pub proof fn law_fork_owner_of_remote(
    prefix: Seq<char>,
    sep1: char,
    owner: Seq<char>,
    sep2: char,
    repo: Seq<char>,
)
    requires
        url_separators().contains(sep1),
        url_separators().contains(sep2),
        free_of(owner, url_separators()),
        free_of(repo, url_separators()),
    ensures
        fork_owner(prefix + seq![sep1] + owner + seq![sep2] + repo) == Some(owner),
{
    let seps = url_separators();
    lemma_split_nonempty(prefix, seps);
    let p0 = split_on(prefix, seps);
    lemma_split_push_sep(prefix, sep1, seps);
    let s1 = prefix.push(sep1);
    lemma_split_append_plain(s1, owner, seps);
    let e = Seq::<char>::empty();
    assert(e + owner =~= owner);
    let s2 = s1 + owner;
    assert(split_on(s2, seps) =~= p0.push(owner));
    lemma_split_push_sep(s2, sep2, seps);
    let s3 = s2.push(sep2);
    lemma_split_append_plain(s3, repo, seps);
    assert(e + repo =~= repo);
    let url = prefix + seq![sep1] + owner + seq![sep2] + repo;
    assert(url =~= s3 + repo);
    assert(split_on(url, seps) =~= p0.push(owner).push(repo));
}

/// The first version line of `ls` is `k` when `k` is a version line and no
/// line before it is.
proof fn lemma_first_version_line_at(ls: Seq<Seq<char>>, k: int, i: int)
    requires
        0 <= i <= k < ls.len(),
        is_version_line(ls[k]),
        forall|j: int| 0 <= j < k ==> !is_version_line(#[trigger] ls[j]),
    ensures
        first_version_line_from(ls, i) == Some(k),
    decreases k - i,
{
    if i < k {
        lemma_first_version_line_at(ls, k, i + 1);
    }
}

/// Dropping the `\r` that ends a line does not change whether it sets a
/// version.
proof fn lemma_strip_cr_version_line(l: Seq<char>)
    ensures
        is_version_line(strip_cr(l)) == is_version_line(l),
{
    reveal_strlit("version = \"");
    let key = version_key();
    assert(key.len() == 11 && key[10] == '"');
    if l.len() > 0 && l.last() == '\r' {
        let l0 = l.drop_last();
        assert(l0.push('\r') =~= l);
        lemma_trim_start_push(l0, '\r');
        let t = trim_start(l0);
        if t.len() > 0 {
            let tl = t.push('\r');
            if starts_with(tl, key) {
                assert(tl.take(11)[10] == key[10]);
                assert(t.len() >= 11);
                assert(t.take(11) =~= tl.take(11));
            }
            if starts_with(t, key) {
                assert(t.take(11) =~= tl.take(11));
            }
        } else {
            let r = seq!['\r'];
            assert(is_unicode_whitespace('\r'));
            assert(r.drop_first() =~= Seq::<char>::empty());
            assert(trim_start(r) == trim_start(r.drop_first()));
        }
    }
}

/// The version line holds no `\n` when the version holds none, sets a
/// version, and does not end with `\r`.
proof fn lemma_version_line_facts(v: Seq<char>)
    requires
        free_of(v, seq!['\n']),
    ensures
        free_of(version_line(v), seq!['\n']),
        is_version_line(version_line(v)),
        strip_cr(version_line(v)) == version_line(v),
{
    reveal_strlit("version = \"");
    reveal_strlit("\"");
    let nl = seq!['\n'];
    let vl = version_line(v);
    let key = version_key();
    assert(vl.len() == 12 + v.len());
    assert forall|i: int| 0 <= i < vl.len() implies !nl.contains(#[trigger] vl[i]) by {
        if nl.contains(vl[i]) {
            let k = choose|k: int| 0 <= k < 1 && nl[k] == vl[i];
            assert(nl[k] == '\n');
            if i >= 11 && i < 11 + v.len() {
                assert(vl[i] == v[i - 11]);
            }
        }
    }
    assert(!is_unicode_whitespace(vl[0]));
    assert(trim_start(vl) == vl);
    assert(vl.take(11) =~= key);
    assert(vl.last() == '"');
}

/// Bumping is faithful: the bumped manifest has as many lines as the
/// manifest it came from, its first version line is where that manifest's
/// was and reads `version = "<version>"`, and every other line is the
/// corresponding line of the input (less one trailing `\r`, which the line
/// reading drops). This holds whenever the version holds no `\n`.
pub proof fn law_bump_reads_back(m: Seq<char>, v: Seq<char>)
    requires
        bumped_manifest(m, v) is Some,
        free_of(v, seq!['\n']),
    ensures
        ({
            let ls = lines_of(m);
            let k = first_version_line(ls).unwrap();
            let rs = lines_of(bumped_manifest(m, v).unwrap());
            &&& rs.len() == ls.len()
            &&& first_version_line(rs) == Some(k)
            &&& rs[k] == version_line(v)
            &&& forall|j: int| 0 <= j < ls.len() && j != k ==> #[trigger] rs[j] == strip_cr(ls[j])
        }),
{
    let nl = seq!['\n'];
    let ls = lines_of(m);
    lemma_first_version_line_from(ls, 0);
    let k = first_version_line(ls).unwrap();
    let vl = version_line(v);
    let new_ls = ls.update(k, vl);
    lemma_lines_free(m);
    lemma_version_line_facts(v);
    assert forall|j: int| 0 <= j < new_ls.len() implies free_of(#[trigger] new_ls[j], nl) by {
        if j != k {
            assert(new_ls[j] == ls[j]);
        }
    }
    lemma_lines_of_joined(new_ls);
    let rs = lines_of(bumped_manifest(m, v).unwrap());
    assert(rs == new_ls.map_values(|p: Seq<char>| strip_cr(p)));
    assert(rs[k] == strip_cr(vl));
    assert forall|j: int| 0 <= j < k implies !is_version_line(#[trigger] rs[j]) by {
        assert(rs[j] == strip_cr(ls[j]));
        lemma_strip_cr_version_line(ls[j]);
    }
    lemma_first_version_line_at(rs, k, 0);
}

/// Bumping twice to the same version is bumping once, whenever the version
/// holds no `\n` and no line but the version line ends with `\r`.
pub proof fn law_bump_idempotent(m: Seq<char>, v: Seq<char>)
    requires
        bumped_manifest(m, v) is Some,
        free_of(v, seq!['\n']),
        forall|j: int|
            0 <= j < lines_of(m).len() && j != first_version_line(lines_of(m)).unwrap()
                ==> strip_cr(#[trigger] lines_of(m)[j]) == lines_of(m)[j],
    ensures
        bumped_manifest(bumped_manifest(m, v).unwrap(), v) == bumped_manifest(m, v),
{
    law_bump_reads_back(m, v);
    let ls = lines_of(m);
    let k = first_version_line(ls).unwrap();
    let new_ls = ls.update(k, version_line(v));
    let rs = lines_of(bumped_manifest(m, v).unwrap());
    lemma_first_version_line_from(ls, 0);
    assert forall|j: int| 0 <= j < rs.len() implies #[trigger] rs[j] == new_ls[j] by {
        if j != k {
            assert(rs[j] == strip_cr(ls[j]));
        }
    }
    assert(rs =~= new_ls);
    assert(rs.update(k, version_line(v)) =~= new_ls);
}


/// Dating replaces exactly the first `## [Unreleased]` heading: it fails
/// exactly when there is none; otherwise the text before it, which holds no
/// such heading, is kept, the release heading stands where it stood, and
/// the text after it is kept.
pub proof fn law_dating_in_place(c: Seq<char>, v: Seq<char>, d: Seq<char>)
    ensures
        dated_changelog(c, v, d) is None <==> forall|j: int| !occurs_at(c, unreleased_marker(), j),
        dated_changelog(c, v, d) matches Some(r) ==> {
            let i = first_occurrence(c, unreleased_marker()).unwrap();
            let h = release_heading(v, d);
            &&& occurs_at(c, unreleased_marker(), i)
            &&& forall|j: int| 0 <= j < i ==> !occurs_at(c, unreleased_marker(), j)
            &&& r.take(i) == c.take(i)
            &&& occurs_at(r, h, i)
            &&& r.skip(i + h.len()) == c.skip(i + unreleased_marker().len())
        },
{
    lemma_first_occurrence(c, unreleased_marker());
    if let Some(r) = dated_changelog(c, v, d) {
        let i = first_occurrence(c, unreleased_marker()).unwrap();
        let h = release_heading(v, d);
        let m = unreleased_marker();
        assert(r.take(i) =~= c.take(i));
        assert(r.subrange(i, i + h.len()) =~= h);
        assert(r.skip(i + h.len()) =~= c.skip(i + m.len()));
    }
}


/// A version is accepted exactly when it is three non-empty runs of the
/// characters `'0'` to `'9'` joined by dots (so `0.9.0` is accepted, and
/// nothing but digits and two dots can be).
pub proof fn law_semver_is_digit_triple(v: Seq<char>)
    ensures
        is_semver(v) <==> exists|a: Seq<char>, b: Seq<char>, c: Seq<char>|
            #![trigger a + seq!['.'] + b + seq!['.'] + c]
            a.len() > 0 && b.len() > 0 && c.len() > 0 && (forall|i: int|
                0 <= i < a.len() ==> '0' <= #[trigger] a[i] <= '9') && (forall|i: int|
                0 <= i < b.len() ==> '0' <= #[trigger] b[i] <= '9') && (forall|i: int|
                0 <= i < c.len() ==> '0' <= #[trigger] c[i] <= '9') && v == a + seq!['.'] + b
                + seq!['.'] + c,
{
    law_semver_shape(v);
    if is_semver(v) {
        let (a, b, c) = choose|a: Seq<char>, b: Seq<char>, c: Seq<char>|
            #![trigger a + seq!['.'] + b + seq!['.'] + c]
            is_numeric_field(a) && is_numeric_field(b) && is_numeric_field(c) && v == a + seq!['.']
                + b + seq!['.'] + c;
        assert(forall|i: int| 0 <= i < a.len() ==> is_ascii_digit(#[trigger] a[i]));
        assert(forall|i: int| 0 <= i < b.len() ==> is_ascii_digit(#[trigger] b[i]));
        assert(forall|i: int| 0 <= i < c.len() ==> is_ascii_digit(#[trigger] c[i]));
    }
    if exists|a: Seq<char>, b: Seq<char>, c: Seq<char>|
        #![trigger a + seq!['.'] + b + seq!['.'] + c]
        a.len() > 0 && b.len() > 0 && c.len() > 0 && (forall|i: int|
            0 <= i < a.len() ==> '0' <= #[trigger] a[i] <= '9') && (forall|i: int|
            0 <= i < b.len() ==> '0' <= #[trigger] b[i] <= '9') && (forall|i: int|
            0 <= i < c.len() ==> '0' <= #[trigger] c[i] <= '9') && v == a + seq!['.'] + b + seq![
            '.']
            + c {
        let (a, b, c) = choose|a: Seq<char>, b: Seq<char>, c: Seq<char>|
            #![trigger a + seq!['.'] + b + seq!['.'] + c]
            a.len() > 0 && b.len() > 0 && c.len() > 0 && (forall|i: int|
                0 <= i < a.len() ==> '0' <= #[trigger] a[i] <= '9') && (forall|i: int|
                0 <= i < b.len() ==> '0' <= #[trigger] b[i] <= '9') && (forall|i: int|
                0 <= i < c.len() ==> '0' <= #[trigger] c[i] <= '9') && v == a + seq!['.'] + b
                + seq!['.'] + c;
        assert(is_numeric_field(a) && is_numeric_field(b) && is_numeric_field(c));
        lemma_semver_accepts(a, b, c);
    }
}

/// Whether `t` holds neither `/` nor `:`.
pub open spec fn free_of_slash_and_colon(t: Seq<char>) -> bool {
    forall|i: int| 0 <= i < t.len() ==> #[trigger] t[i] != '/' && t[i] != ':'
}

/// Text free of `/` and `:` is free of the URL separators.
proof fn lemma_free_of_url_separators(t: Seq<char>)
    requires
        free_of_slash_and_colon(t),
    ensures
        free_of(t, url_separators()),
{
    assert forall|i: int| 0 <= i < t.len() implies !url_separators().contains(#[trigger] t[i]) by {
        if url_separators().contains(t[i]) {
            let k = choose|k: int| 0 <= k < 2 && url_separators()[k] == t[i];
            assert(url_separators()[0] == '/' && url_separators()[1] == ':');
        }
    }
}

/// A remote URL is split at `/` and `:` and nowhere else: for a URL that
/// ends in `/` or `:`, an owner, `/` or `:`, and a repository name, with
/// neither name holding `/` or `:` (other characters such as `_`, `.` or
/// `-` may appear), the owner read is that owner, whatever comes before;
/// and a URL with neither `/` nor `:` has no owner.
pub proof fn law_fork_owner_splits_at_slash_and_colon(
    prefix: Seq<char>,
    sep1: char,
    owner: Seq<char>,
    sep2: char,
    repo: Seq<char>,
)
    requires
        sep1 == '/' || sep1 == ':',
        sep2 == '/' || sep2 == ':',
        free_of_slash_and_colon(owner),
        free_of_slash_and_colon(repo),
    ensures
        fork_owner(prefix + seq![sep1] + owner + seq![sep2] + repo) == Some(owner),
        free_of_slash_and_colon(prefix) ==> fork_owner(prefix) is None,
{
    let seps = url_separators();
    assert(seps[0] == '/' && seps[1] == ':');
    assert(seps.contains(sep1)) by {
        if sep1 == '/' {
            assert(seps[0] == sep1);
        } else {
            assert(seps[1] == sep1);
        }
    }
    assert(seps.contains(sep2)) by {
        if sep2 == '/' {
            assert(seps[0] == sep2);
        } else {
            assert(seps[1] == sep2);
        }
    }
    lemma_free_of_url_separators(owner);
    lemma_free_of_url_separators(repo);
    law_fork_owner_of_remote(prefix, sep1, owner, sep2, repo);
    if free_of_slash_and_colon(prefix) {
        lemma_free_of_url_separators(prefix);
        lemma_split_plain(prefix, seps);
    }
}

} // verus!
