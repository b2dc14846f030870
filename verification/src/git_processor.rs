//! Decisions of the `gitDiffToRemote` request: how git's output becomes a
//! response or an error.
use vstd::prelude::*;
use vstd::string::*;
use vstd::utf8::decode_utf8;
use vstd::utf8::valid_utf8;

use crate::text::string_from_utf8;

verus! {

broadcast use vstd::string::group_string_axioms;

/// JSON-RPC's code for an invalid request.
pub const INVALID_REQUEST_ERROR_CODE: i64 = -32600;

/// A git object name.
pub struct GitSha(pub String);

impl GitSha {
    /// The object name `sha`.
    pub fn new(sha: &str) -> (r: GitSha)
        ensures
            r.0@ == sha@,
    {
        GitSha(sha.to_string())
    }
}

/// The base a diff was computed against, and the diff.
pub struct GitDiffToRemoteResponse {
    pub sha: GitSha,
    pub diff: String,
}

/// A JSON-RPC error reply.
pub struct JSONRPCErrorError {
    pub code: i64,
    pub message: String,
}

/// The error reply for an invalid request.
pub fn invalid_request(message: String) -> (r: JSONRPCErrorError)
    ensures
        r.code == INVALID_REQUEST_ERROR_CODE,
        r.message == message,
{
    JSONRPCErrorError { code: INVALID_REQUEST_ERROR_CODE, message }
}

/// Serves git requests of the app server.
pub struct GitRequestProcessor;

impl GitRequestProcessor {
    /// A processor; it holds no state.
    pub fn new() -> (r: Self)
        ensures
            r == GitRequestProcessor,
    {
        GitRequestProcessor
    }
}

/// Whether `git diff` ended as it does when it ran: exit code 0 (no
/// difference) or 1 (differences found).
pub open spec fn diff_exit_ok(exit_code: Option<i32>) -> bool {
    exit_code == Some(0i32) || exit_code == Some(1i32)
}

/// Turns the result of `git diff <sha>` into a response: only when git
/// exited with 0 or 1 and printed valid UTF-8; the response carries the
/// requested sha and the decoded output.
pub fn diff_against_sha_outcome(sha: GitSha, exit_code: Option<i32>, stdout: Vec<u8>) -> (r: Option<
    GitDiffToRemoteResponse,
>)
    ensures
        r is Some <==> diff_exit_ok(exit_code) && valid_utf8(stdout@),
        r matches Some(resp) ==> resp.sha == sha && resp.diff@ == decode_utf8(stdout@),
{
    let exit_ok = match exit_code {
        Some(code) => code == 0 || code == 1,
        None => false,
    };
    if !exit_ok {
        return None;
    }
    match string_from_utf8(stdout) {
        Some(diff) => Some(GitDiffToRemoteResponse { sha, diff }),
        None => None,
    }
}

/// What a `gitDiffToRemote` request is diffed against.
pub enum DiffSource {
    /// The base sha the client named; the remote is not consulted.
    RequestedSha(GitSha),
    /// The remote's merge base, found by the git utilities.
    Remote,
}

/// The base of the diff: the requested sha when the client named one,
/// otherwise the remote.
pub fn diff_source(sha: Option<GitSha>) -> (r: DiffSource)
    ensures
        match sha {
            Some(s) => r == DiffSource::RequestedSha(s),
            None => r == DiffSource::Remote,
        },
{
    match sha {
        Some(s) => DiffSource::RequestedSha(s),
        None => DiffSource::Remote,
    }
}

/// The message of the error reply when no diff could be computed.
pub open spec fn diff_failure_message(cwd_debug: Seq<char>, against_requested_sha: bool) -> Seq<
    char,
> {
    if against_requested_sha {
        "failed to compute git diff for cwd: "@ + cwd_debug
    } else {
        "failed to compute git diff to remote for cwd: "@ + cwd_debug
    }
}

/// The reply of `gitDiffToRemote`: the computed diff, or an invalid-request
/// error naming the working directory (`cwd_debug` is its `Debug` form).
/// `against_requested_sha` tells whether the client named the base sha.
pub fn git_diff_to_origin_reply(
    cwd_debug: &str,
    against_requested_sha: bool,
    outcome: Option<GitDiffToRemoteResponse>,
) -> (r: Result<GitDiffToRemoteResponse, JSONRPCErrorError>)
    ensures
        outcome matches Some(resp) ==> r == Ok::<GitDiffToRemoteResponse, JSONRPCErrorError>(resp),
        outcome is None ==> (r matches Err(e) && e.code == INVALID_REQUEST_ERROR_CODE && e.message@
            == diff_failure_message(cwd_debug@, against_requested_sha)),
{
    match outcome {
        Some(resp) => Ok(resp),
        None => {
            let mut message = String::new();
            if against_requested_sha {
                message.append("failed to compute git diff for cwd: ");
            } else {
                message.append("failed to compute git diff to remote for cwd: ");
            }
            message.append(cwd_debug);
            Err(invalid_request(message))
        },
    }
}

} // verus!
