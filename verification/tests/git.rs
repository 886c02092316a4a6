use xtask::error::ReleaseError;
use xtask::git::{output, run};

fn args(a: &[&str]) -> Vec<String> {
    a.iter().map(|s| s.to_string()).collect()
}

#[test]
fn run_succeeds_when_git_succeeds() {
    assert_eq!(run(&args(&["fetch", "upstream"]), true), Ok(()));
}

#[test]
fn run_failure_names_arguments() {
    assert_eq!(
        run(&args(&["fetch", "upstream"]), false),
        Err(ReleaseError::GitFailed(args(&["fetch", "upstream"])))
    );
}

#[test]
fn output_is_trimmed() {
    let out = output(&args(&["rev-parse", "HEAD"]), true, b"  abc123\n\t", b"").unwrap();
    assert_eq!(out, "abc123");
}

#[test]
fn output_trims_unicode_whitespace_only_at_ends() {
    let out = output(&args(&["x"]), true, "\u{2003}a b\u{85}".as_bytes(), b"").unwrap();
    assert_eq!(out, "a b");
}

#[test]
fn output_decodes_invalid_utf8_leniently() {
    let out = output(&args(&["x"]), true, b"a\xffb", b"").unwrap();
    assert_eq!(out, "a\u{fffd}b");
}

#[test]
fn output_failure_carries_stderr() {
    assert_eq!(
        output(&args(&["status"]), false, b"ignored", b"fatal: not a repo\n"),
        Err(ReleaseError::GitFailedWithOutput {
            args: args(&["status"]),
            stderr: "fatal: not a repo\n".to_string(),
        })
    );
}
