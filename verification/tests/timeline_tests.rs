use prist::bitbucket::{
    Approval, Comment, CommentContent, PullRequestActivity, PullRequestCommit, Source, Update,
    User,
};
use prist::timeline::{aggregate, update_events, CommitComments, TimelineKind};

fn person(name: &str) -> User {
    User {
        display_name: name.to_string(),
        nickname: name.to_string(),
    }
}

fn plain_comment(author: &str, when: &str, body: &str) -> Comment {
    Comment {
        user: person(author),
        created_on: when.to_string(),
        content: CommentContent {
            raw: body.to_string(),
        },
        inline: None,
    }
}

fn tip(hash: &str) -> Source {
    Source {
        commit: PullRequestCommit {
            hash: hash.to_string(),
        },
    }
}

#[test]
fn aggregate_scenario_single_update_no_comments() {
    // One update event, two retained commits without comments: one
    // entry of the update kind, showing the destination..source range,
    // and no comment entries.
    let commits = vec![
        CommitComments {
            commit: "c1".to_string(),
            comments: Vec::new(),
        },
        CommitComments {
            commit: "c2".to_string(),
            comments: Vec::new(),
        },
    ];
    let activities = vec![PullRequestActivity::Update {
        update: Update {
            author: person("rebaser"),
            date: "2020-01-01".to_string(),
            source: tip("s1"),
            destination: tip("d1"),
        },
    }];
    let out = aggregate(&commits, &activities);
    assert_eq!(out.len(), 1);
    assert_eq!(out[0].kind, TimelineKind::Update);
    assert_eq!(out[0].text, "d1..s1".to_string());
    assert_eq!(out[0].actor, "rebaser".to_string());
    assert_eq!(out[0].originating_commit, None);
}

#[test]
fn aggregate_length_is_comments_plus_activities() {
    let commits = vec![
        CommitComments {
            commit: "c1".to_string(),
            comments: vec![
                plain_comment("ann", "t1", "first"),
                plain_comment("bob", "t2", "second"),
            ],
        },
        CommitComments {
            commit: "c2".to_string(),
            comments: vec![plain_comment("cay", "t3", "third")],
        },
    ];
    let activities = vec![
        PullRequestActivity::Comment {
            comment: plain_comment("dee", "t4", "overall"),
        },
        PullRequestActivity::Approval {
            approval: Approval {
                user: person("eve"),
                date: "t5".to_string(),
            },
        },
        PullRequestActivity::Update {
            update: Update {
                author: person("fay"),
                date: "t6".to_string(),
                source: tip("s1"),
                destination: tip("d1"),
            },
        },
    ];
    let out = aggregate(&commits, &activities);
    assert_eq!(out.len(), 3 + 3);
}

#[test]
fn aggregate_commit_entries_come_first_in_order() {
    let commits = vec![CommitComments {
        commit: "c1".to_string(),
        comments: vec![
            plain_comment("ann", "t1", "first"),
            plain_comment("bob", "t2", "second"),
        ],
    }];
    let activities = vec![PullRequestActivity::Comment {
        comment: plain_comment("dee", "t4", "overall"),
    }];
    let out = aggregate(&commits, &activities);
    assert_eq!(out.len(), 3);
    assert_eq!(out[0].kind, TimelineKind::Comment);
    assert_eq!(out[0].text, "first".to_string());
    assert_eq!(out[0].originating_commit, Some("c1".to_string()));
    assert_eq!(out[1].text, "second".to_string());
    assert_eq!(out[1].actor, "bob".to_string());
    assert_eq!(out[1].timestamp, "t2".to_string());
    // The pull-request-level comment carries no originating commit.
    assert_eq!(out[2].text, "overall".to_string());
    assert_eq!(out[2].originating_commit, None);
}

#[test]
fn aggregate_approval_entry_has_empty_text() {
    let activities = vec![PullRequestActivity::Approval {
        approval: Approval {
            user: person("eve"),
            date: "t5".to_string(),
        },
    }];
    let out = aggregate(&Vec::new(), &activities);
    assert_eq!(out.len(), 1);
    assert_eq!(out[0].kind, TimelineKind::Approval);
    assert_eq!(out[0].actor, "eve".to_string());
    assert_eq!(out[0].timestamp, "t5".to_string());
    assert_eq!(out[0].text, String::new());
}

#[test]
fn update_events_picks_source_destination_pairs_in_order() {
    let activities = vec![
        PullRequestActivity::Comment {
            comment: plain_comment("ann", "t1", "hello"),
        },
        PullRequestActivity::Update {
            update: Update {
                author: person("bob"),
                date: "t2".to_string(),
                source: tip("s1"),
                destination: tip("d1"),
            },
        },
        PullRequestActivity::Approval {
            approval: Approval {
                user: person("cay"),
                date: "t3".to_string(),
            },
        },
        PullRequestActivity::Update {
            update: Update {
                author: person("dee"),
                date: "t4".to_string(),
                source: tip("s2"),
                destination: tip("d2"),
            },
        },
    ];
    let out = update_events(&activities);
    assert_eq!(
        out,
        vec![
            ("s1".to_string(), "d1".to_string()),
            ("s2".to_string(), "d2".to_string()),
        ]
    );
}

#[test]
fn update_events_empty_feed_yields_no_pairs() {
    let out = update_events(&Vec::new());
    assert!(out.is_empty());
}
