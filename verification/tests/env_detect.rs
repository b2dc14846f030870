use codex_logic::env_detect::parse_repo_remote;
use codex_logic::env_detect::RepoRemote;

#[test]
fn parse_repo_remote_supports_github_and_azure_repos() {
    assert_eq!(
        parse_repo_remote("git@github.com:openai/codex.git"),
        Some(RepoRemote {
            provider: "github",
            owner: "openai".to_string(),
            repo: "codex".to_string(),
        })
    );
    assert_eq!(
        parse_repo_remote("https://github.com/openai/codex.git"),
        Some(RepoRemote {
            provider: "github",
            owner: "openai".to_string(),
            repo: "codex".to_string(),
        })
    );
    assert_eq!(
        parse_repo_remote("https://dev.azure.com/acme/Project%20X/_git/codex.git"),
        Some(RepoRemote {
            provider: "azure_devops",
            owner: "acme/Project X".to_string(),
            repo: "codex".to_string(),
        })
    );
    assert_eq!(
        parse_repo_remote("git@ssh.dev.azure.com:v3/acme/Project%20X/codex"),
        Some(RepoRemote {
            provider: "azure_devops",
            owner: "acme/Project X".to_string(),
            repo: "codex".to_string(),
        })
    );
}

#[test]
fn azure_repos_by_repo_path_escapes_owner_slashes() {
    let remote = parse_repo_remote("https://dev.azure.com/acme/Project%20X/_git/codex.git")
        .expect("azure remote");

    assert_eq!(remote.by_repo_path(), "azure_devops/acme%2FProject%20X/codex");
}

#[test]
fn github_remote_without_dot_git_and_over_ssh_url() {
    assert_eq!(
        parse_repo_remote("ssh://git@github.com/openai/codex"),
        Some(RepoRemote {
            provider: "github",
            owner: "openai".to_string(),
            repo: "codex".to_string(),
        })
    );
    assert_eq!(
        parse_repo_remote("https://github.com/openai/codex").map(|r| r.by_repo_path()),
        Some("github/openai/codex".to_string())
    );
}

#[test]
fn unrecognised_or_malformed_remotes_are_rejected() {
    assert_eq!(parse_repo_remote("https://gitlab.com/openai/codex.git"), None);
    assert_eq!(parse_repo_remote("git@github.com:openai"), None);
    assert_eq!(parse_repo_remote("git@github.com:openai/codex/extra"), None);
    assert_eq!(parse_repo_remote("https://github.com//codex"), None);
    assert_eq!(parse_repo_remote("https://dev.azure.com/acme/Project/codex"), None);
    assert_eq!(parse_repo_remote("https://dev.azure.com/acme/Project/_git/%FF"), None);
    assert_eq!(parse_repo_remote(""), None);
}

#[test]
fn by_repo_path_encodes_non_ascii_and_reserved_bytes() {
    let r = RepoRemote {
        provider: "azure_devops",
        owner: "a b/é~".to_string(),
        repo: "x-y.z_w".to_string(),
    };
    assert_eq!(r.by_repo_path(), "azure_devops/a%20b%2F%C3%A9~/x-y.z_w");
}

#[test]
fn by_repo_path_has_three_segments_for_owner_with_slash() {
    let remote = parse_repo_remote("git@ssh.dev.azure.com:v3/acme/Project%20X/codex")
        .expect("azure remote");
    let path = remote.by_repo_path();
    let segments: Vec<&str> = path.split('/').collect();
    assert_eq!(segments, vec!["azure_devops", "acme%2FProject%20X", "codex"]);
}
