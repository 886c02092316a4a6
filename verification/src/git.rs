//! What a finished `git` invocation means for the release workflows.

use vstd::prelude::*;
use vstd::utf8::{decode_utf8, valid_utf8};
use crate::error::ReleaseError;
use crate::text::{copy_strings, trim, trim_text};

verus! {

/// The text that `String::from_utf8_lossy` makes of `bytes`.
pub uninterp spec fn utf8_lossy(bytes: Seq<u8>) -> Seq<char>;

/// `String::from_utf8_lossy`, made owned: its result is named `utf8_lossy`
/// of the bytes and, as its documentation states, is the decoded text when
/// the bytes are valid UTF-8. What it makes of invalid bytes (replacement
/// characters) is left unsaid.
#[verifier::external_body]
fn from_utf8_lossy(bytes: &[u8]) -> (s: String)
    ensures
        s@ == utf8_lossy(bytes@),
        valid_utf8(bytes@) ==> s@ == decode_utf8(bytes@),
{
    String::from_utf8_lossy(bytes).into_owned()
}

/// The text a `git` command printed, as the workflows read it: decoded
/// leniently and trimmed of surrounding whitespace.
pub open spec fn captured_text(stdout: Seq<u8>) -> Seq<char> {
    trim(utf8_lossy(stdout))
}

/// The outcome of running `git` with `args`: success when the process exited
/// successfully, else a failure that names the arguments.
pub fn run(args: &Vec<String>, success: bool) -> (res: Result<(), ReleaseError>)
    ensures
        success ==> res is Ok,
        !success ==> (res matches Err(ReleaseError::GitFailed(a)) && a@ == args@),
{
    if success {
        Ok(())
    } else {
        Err(ReleaseError::GitFailed(copy_strings(args)))
    }
}

/// The output of running `git` with `args`: on success its standard output,
/// decoded and trimmed; else a failure that names the arguments and carries
/// the decoded standard error.
pub fn output(args: &Vec<String>, success: bool, stdout: &[u8], stderr: &[u8]) -> (res: Result<
    String,
    ReleaseError,
>)
    ensures
        success ==> (res matches Ok(o) && o@ == captured_text(stdout@)),
        !success ==> (res matches Err(ReleaseError::GitFailedWithOutput { args: a, stderr: e })
            && a@ == args@ && e@ == utf8_lossy(stderr@)),
        success && valid_utf8(stdout@) ==> (res matches Ok(o) && o@ == trim(decode_utf8(stdout@))),
        !success && valid_utf8(stderr@) ==> (res matches Err(
            ReleaseError::GitFailedWithOutput { stderr: e, .. },
        ) && e@ == decode_utf8(stderr@)),
{
    if success {
        let text = from_utf8_lossy(stdout);
        Ok(trim_text(text.as_str()))
    } else {
        Err(
            ReleaseError::GitFailedWithOutput {
                args: copy_strings(args),
                stderr: from_utf8_lossy(stderr),
            },
        )
    }
}

} // verus!
