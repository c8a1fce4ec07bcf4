use prist::bitbucket::{commit_hashes, Inline, Paginated, PullRequest, PullRequestCommit, User};
use prist::github::GithubEndpoint;
use prist::hashes::{is_same_commit, str_eq, str_is_prefix, str_lex_le};
use prist::settings::{Auth, Endpoint, EndpointKind, Settings};

#[test]
fn endpoint_recognises_github_host() {
    let e = Endpoint::new(
        Some("github.com".to_string()),
        "repo".to_string(),
        Some("owner".to_string()),
    )
    .unwrap();
    assert!(matches!(e.kind, EndpointKind::Github));
    assert_eq!(e.name, "repo".to_string());
    assert_eq!(e.owner, Some("owner".to_string()));
}

#[test]
fn endpoint_recognises_bitbucket_host() {
    let e = Endpoint::new(
        Some("bitbucket.org".to_string()),
        "repo".to_string(),
        None,
    )
    .unwrap();
    assert!(matches!(e.kind, EndpointKind::Bitbucket));
    assert_eq!(e.owner, None);
}

#[test]
fn endpoint_rejects_unknown_host() {
    let e = Endpoint::new(
        Some("example.com".to_string()),
        "repo".to_string(),
        None,
    );
    assert!(e.is_none());
}

#[test]
fn endpoint_rejects_missing_host() {
    let e = Endpoint::new(None, "repo".to_string(), None);
    assert!(e.is_none());
}

#[test]
fn settings_holds_auth_and_endpoint() {
    let auth = Auth::new("user".to_string(), "token123".to_string());
    let endpoint = Endpoint::new(
        Some("bitbucket.org".to_string()),
        "repo".to_string(),
        Some("owner".to_string()),
    )
    .unwrap();
    let s = Settings::new(auth, endpoint);
    assert_eq!(s.auth.username, "user".to_string());
    assert_eq!(s.auth.password, "token123".to_string());
    assert_eq!(s.endpoint.name, "repo".to_string());
}

#[test]
fn github_endpoint_captures_coordinates() {
    let _ = GithubEndpoint::new("repo".to_string(), Some("owner".to_string()));
}

#[test]
fn commit_hashes_picks_each_listed_hash() {
    let page = Paginated {
        pagelen: 2,
        values: vec![
            PullRequestCommit {
                hash: "a1".to_string(),
            },
            PullRequestCommit {
                hash: "b2".to_string(),
            },
        ],
    };
    assert_eq!(
        commit_hashes(&page.values),
        vec!["a1".to_string(), "b2".to_string()]
    );
}

#[test]
fn inline_anchor_is_buildable() {
    let _ = Inline::new(Some(3), None, Some("src/lib.rs".to_string()));
}

#[test]
fn pull_request_snapshot_holds_its_fields() {
    let pr = PullRequest {
        id: 7,
        title: "Add feature".to_string(),
        comment_count: 2,
        state: "OPEN".to_string(),
        created_on: "t1".to_string(),
        updated_on: "t2".to_string(),
        author: User {
            display_name: "ann".to_string(),
            nickname: "ann".to_string(),
        },
    };
    assert_eq!(pr.id, 7);
    assert_eq!(pr.author.display_name, "ann".to_string());
}

#[test]
fn string_order_and_prefix_checks() {
    assert!(str_lex_le("abc", "abd"));
    assert!(str_lex_le("ab", "abc"));
    assert!(!str_lex_le("b", "abc"));
    assert!(str_is_prefix("ab", "abc"));
    assert!(!str_is_prefix("abc", "ab"));
    assert!(str_eq("same", "same"));
    assert!(!str_eq("same", "samey"));
    assert!(is_same_commit("abc123", "abc123def"));
    assert!(is_same_commit("abc123def", "abc123"));
    assert!(!is_same_commit("abc124", "abc123def"));
}
