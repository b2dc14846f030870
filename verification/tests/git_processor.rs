use codex_logic::git_processor::diff_against_sha_outcome;
use codex_logic::git_processor::diff_source;
use codex_logic::git_processor::DiffSource;
use codex_logic::git_processor::git_diff_to_origin_reply;
use codex_logic::git_processor::GitDiffToRemoteResponse;
use codex_logic::git_processor::GitRequestProcessor;
use codex_logic::git_processor::GitSha;
use codex_logic::git_processor::INVALID_REQUEST_ERROR_CODE;

#[test]
fn diff_with_exit_code_zero_or_one_is_a_response() {
    let r = diff_against_sha_outcome(GitSha::new("abc"), Some(1), b"-before\n+latest\n".to_vec())
        .expect("diff");
    assert_eq!(r.sha.0, "abc");
    assert_eq!(r.diff, "-before\n+latest\n");
    let r = diff_against_sha_outcome(GitSha::new("abc"), Some(0), Vec::new()).expect("diff");
    assert_eq!(r.diff, "");
}

#[test]
fn diff_with_other_exit_is_no_response() {
    assert!(diff_against_sha_outcome(GitSha::new("abc"), Some(128), b"x".to_vec()).is_none());
    assert!(diff_against_sha_outcome(GitSha::new("abc"), None, b"x".to_vec()).is_none());
}

#[test]
fn diff_with_invalid_utf8_is_no_response() {
    assert!(diff_against_sha_outcome(GitSha::new("abc"), Some(0), vec![0xff, 0xfe]).is_none());
}

#[test]
fn missing_diff_is_an_invalid_request() {
    let e = match git_diff_to_origin_reply("\"/repo\"", true, None) {
        Err(e) => e,
        Ok(_) => panic!("expected an error"),
    };
    assert_eq!(e.code, INVALID_REQUEST_ERROR_CODE);
    assert_eq!(e.message, "failed to compute git diff for cwd: \"/repo\"");
    let e = match git_diff_to_origin_reply("\"/repo\"", false, None) {
        Err(e) => e,
        Ok(_) => panic!("expected an error"),
    };
    assert_eq!(e.message, "failed to compute git diff to remote for cwd: \"/repo\"");
}

#[test]
fn computed_diff_is_the_reply() {
    let _processor = GitRequestProcessor::new();
    let resp = GitDiffToRemoteResponse { sha: GitSha::new("abc"), diff: "+x".to_string() };
    let r = git_diff_to_origin_reply("\"/repo\"", true, Some(resp)).ok().expect("ok");
    assert_eq!(r.sha.0, "abc");
    assert_eq!(r.diff, "+x");
}

#[test]
fn requested_sha_is_the_diff_base() {
    match diff_source(Some(GitSha::new("abc123"))) {
        DiffSource::RequestedSha(sha) => assert_eq!(sha.0, "abc123"),
        DiffSource::Remote => panic!("expected the requested sha"),
    }
    assert!(matches!(diff_source(None), DiffSource::Remote));
}
