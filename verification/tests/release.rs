use xtask::error::ReleaseError;
use xtask::release::{
    bump_cargo_version, commit_release, create_release_branch, date_unreleased_heading,
    parse_fork_owner, pull_request_args, release_gate, validate_semver,
};

#[test]
fn bump_cargo_version_rewrites_package_version() {
    let manifest = "\
[package]
name = \"stmo-cli\"
version = \"0.9.0\"
edition = \"2024\"
";
    let updated = bump_cargo_version(manifest, "0.10.0").unwrap();
    assert!(updated.contains("version = \"0.10.0\""));
    assert!(!updated.contains("0.9.0"));
}

#[test]
fn bump_cargo_version_leaves_dependency_versions_untouched() {
    let manifest = "\
[package]
name = \"stmo-cli\"
version = \"0.9.0\"
edition = \"2024\"

[dependencies]
anyhow = { version = \"1\" }
";
    let updated = bump_cargo_version(manifest, "0.10.0").unwrap();
    assert!(updated.contains("version = \"0.10.0\""));
    assert!(updated.contains("anyhow = { version = \"1\" }"));
}

#[test]
fn bump_cargo_version_errors_when_no_version_line() {
    let manifest = "[package]\nname = \"stmo-cli\"\n";
    assert!(bump_cargo_version(manifest, "0.10.0").is_err());
}

#[test]
fn date_unreleased_heading_replaces_heading_and_preserves_body() {
    let changelog = "\
# Changelog

## [Unreleased]

### Features
- something new

## [0.9.0] - 2026-07-16

### Features
- old stuff
";
    let updated = date_unreleased_heading(changelog, "0.10.0", "2026-07-20").unwrap();
    assert!(updated.contains("## [0.10.0] - 2026-07-20"));
    assert!(!updated.contains("## [Unreleased]"));
    assert!(updated.contains("### Features\n- something new"));
    assert!(updated.contains("## [0.9.0] - 2026-07-16"));
}

#[test]
fn date_unreleased_heading_errors_when_no_unreleased_section() {
    let changelog = "# Changelog\n\n## [0.9.0] - 2026-07-16\n\n### Features\n- old stuff\n";
    assert!(date_unreleased_heading(changelog, "0.10.0", "2026-07-20").is_err());
}

#[test]
fn validate_semver_accepts_x_y_z() {
    assert!(validate_semver("0.10.0").is_ok());
    assert!(validate_semver("12.34.567").is_ok());
}

#[test]
fn validate_semver_rejects_non_x_y_z() {
    assert!(validate_semver("0.10").is_err());
    assert!(validate_semver("v0.10.0").is_err());
    assert!(validate_semver("0.10.0-rc1").is_err());
    assert!(validate_semver("0.10.0.1").is_err());
    assert!(validate_semver("").is_err());
}

#[test]
fn parse_fork_owner_from_ssh_url() {
    let owner = parse_fork_owner("git@github.com:JohanLorenzo/stmo-cli-fork.git").unwrap();
    assert_eq!(owner, "JohanLorenzo");
}

#[test]
fn parse_fork_owner_from_https_url() {
    let owner = parse_fork_owner("https://github.com/JohanLorenzo/stmo-cli-fork.git").unwrap();
    assert_eq!(owner, "JohanLorenzo");
}

#[test]
fn parse_fork_owner_from_https_url_without_git_suffix() {
    let owner = parse_fork_owner("https://github.com/JohanLorenzo/stmo-cli-fork").unwrap();
    assert_eq!(owner, "JohanLorenzo");
}

#[test]
fn parse_fork_owner_rejects_unparseable_url() {
    assert!(parse_fork_owner("not-a-url").is_err());
}

// Further cases.

#[test]
fn bump_cargo_version_exact_output() {
    let manifest = "[package]\r\nname = \"a\"\r\n  version = \"0.1.0\"\r\n[dependencies]\r\nb = { version = \"2\" }";
    let updated = bump_cargo_version(manifest, "1.2.3").unwrap();
    assert_eq!(
        updated,
        "[package]\nname = \"a\"\nversion = \"1.2.3\"\n[dependencies]\nb = { version = \"2\" }\n"
    );
}

#[test]
fn bump_cargo_version_only_first_version_line_changes() {
    let manifest = "version = \"1.0.0\"\nversion = \"1.0.0\"\n";
    let updated = bump_cargo_version(manifest, "2.0.0").unwrap();
    assert_eq!(updated, "version = \"2.0.0\"\nversion = \"1.0.0\"\n");
}

#[test]
fn bump_cargo_version_skips_unicode_indentation() {
    // U+00A0 and U+3000 are whitespace for `str::trim_start`.
    let manifest = "\u{a0}\u{3000}version = \"0.1.0\"\n";
    let updated = bump_cargo_version(manifest, "0.2.0").unwrap();
    assert_eq!(updated, "version = \"0.2.0\"\n");
}

#[test]
fn bump_cargo_version_needs_quote_after_equals() {
    let manifest = "version = 3\nversion=\"1\"\n";
    assert_eq!(bump_cargo_version(manifest, "0.2.0"), Err(ReleaseError::NoVersionLine));
}

#[test]
fn bump_cargo_version_empty_manifest() {
    assert_eq!(bump_cargo_version("", "0.2.0"), Err(ReleaseError::NoVersionLine));
}

#[test]
fn bump_cargo_version_twice_is_once() {
    let manifest = "[package]\nname = \"a\"\nversion = \"0.1.0\"\n\n[deps]\nx = \"1\"\n";
    let once = bump_cargo_version(manifest, "0.2.0").unwrap();
    let twice = bump_cargo_version(&once, "0.2.0").unwrap();
    assert_eq!(once, twice);
}

#[test]
fn date_unreleased_heading_exact_output() {
    let updated = date_unreleased_heading("a\n## [Unreleased]\nb", "1.0.0", "2024-01-02").unwrap();
    assert_eq!(updated, "a\n## [1.0.0] - 2024-01-02\nb");
}

#[test]
fn date_unreleased_heading_replaces_only_first() {
    let updated =
        date_unreleased_heading("## [Unreleased]\n## [Unreleased]\n", "1.0.0", "d").unwrap();
    assert_eq!(updated, "## [1.0.0] - d\n## [Unreleased]\n");
}

#[test]
fn date_unreleased_heading_error_variant() {
    assert_eq!(
        date_unreleased_heading("## [unreleased]", "1.0.0", "d"),
        Err(ReleaseError::NoUnreleasedSection)
    );
}

#[test]
fn validate_semver_error_names_version() {
    assert_eq!(
        validate_semver("1..2"),
        Err(ReleaseError::InvalidSemver("1..2".to_string()))
    );
    assert!(validate_semver("1.2.").is_err());
    assert!(validate_semver(".1.2").is_err());
    assert!(validate_semver("1.2.3 ").is_err());
    assert!(validate_semver("١.2.3").is_err());
    assert!(validate_semver("0.0.0").is_ok());
}

#[test]
fn parse_fork_owner_edge_cases() {
    assert_eq!(parse_fork_owner("a:b").unwrap(), "a");
    assert_eq!(parse_fork_owner("https://host/owner/repo/").unwrap(), "repo");
    assert_eq!(parse_fork_owner("/x").unwrap(), "");
    assert_eq!(
        parse_fork_owner("plain"),
        Err(ReleaseError::UnparseableRemoteUrl("plain".to_string()))
    );
    assert_eq!(parse_fork_owner("ssh://git@host:22/me/r.git").unwrap(), "me");
}

#[test]
fn release_commands() {
    assert_eq!(create_release_branch("1.2.3"), vec!["checkout", "-b", "release-1.2.3"]);
    assert_eq!(
        commit_release("1.2.3"),
        vec![vec!["add", "-A"], vec!["commit", "-m", "Release 1.2.3"]]
    );
    let gate = release_gate();
    assert_eq!(gate.len(), 3);
    assert_eq!(gate[0], vec!["test", "--workspace"]);
    assert_eq!(
        gate[1],
        vec![
            "clippy",
            "--workspace",
            "--all-targets",
            "--all-features",
            "--",
            "-W",
            "clippy::pedantic",
            "-D",
            "warnings"
        ]
    );
    assert_eq!(gate[2], vec!["fmt", "--check"]);
}

#[test]
fn pull_request_arguments() {
    let args = pull_request_args("1.2.3", "me");
    assert_eq!(
        args,
        vec![
            "pr",
            "create",
            "--repo",
            "mozilla/stmo-cli",
            "--base",
            "main",
            "--head",
            "me:release-1.2.3",
            "--draft",
            "--title",
            "Release 1.2.3",
            "--body",
            "## Summary\n- Bumps version to 1.2.3 and finalizes the CHANGELOG `[Unreleased]` section for this release.\n",
        ]
    );
}
