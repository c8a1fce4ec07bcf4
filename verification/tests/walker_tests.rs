use prist::bitbucket::{Commit, CommitParent};
use prist::walker::{walk, walked_hashes, WalkError, Walker, WALK_CAP};

fn record(hash: &str, parents: &[&str]) -> Commit {
    Commit {
        hash: hash.to_string(),
        parents: parents
            .iter()
            .map(|p| CommitParent::Commit { hash: p.to_string() })
            .collect(),
    }
}

fn hashes(commits: &[Commit]) -> Vec<String> {
    commits.iter().map(|c| c.hash.clone()).collect()
}

#[test]
fn walk_scenario_chain_to_merge_base() {
    // Chain A -> B -> C where C is the merge base: the walk yields
    // [A, B], in that order, and leaves the merge base out.
    let graph = vec![
        record("a1", &["b2"]),
        record("b2", &["c3"]),
        record("c3", &[]),
    ];
    let out = walk(&graph, &"c3".to_string(), &"a1".to_string()).unwrap();
    assert_eq!(hashes(&out), vec!["a1".to_string(), "b2".to_string()]);
}

#[test]
fn walk_chain_of_length_k_returns_k_records() {
    let graph = vec![
        record("e1", &["e2"]),
        record("e2", &["e3"]),
        record("e3", &["e4"]),
        record("e4", &["f0"]),
    ];
    let out = walk(&graph, &"f0".to_string(), &"e1".to_string()).unwrap();
    assert_eq!(out.len(), 4);
    assert_eq!(
        hashes(&out),
        vec![
            "e1".to_string(),
            "e2".to_string(),
            "e3".to_string(),
            "e4".to_string()
        ]
    );
}

#[test]
fn walk_source_already_at_merge_base() {
    let graph: Vec<Commit> = Vec::new();
    let out = walk(&graph, &"c3".to_string(), &"c3".to_string()).unwrap();
    assert!(out.is_empty());
}

#[test]
fn walk_stops_on_abbreviated_merge_base() {
    // The cursor is an abbreviation of the merge base hash: the prefix
    // rule says they denote the same commit, so nothing is walked.
    let graph: Vec<Commit> = Vec::new();
    let out = walk(&graph, &"abc123def".to_string(), &"abc123".to_string()).unwrap();
    assert!(out.is_empty());
}

#[test]
fn walk_cyclic_graph_reports_traversal_error() {
    // A record that is its own parent never reaches the merge base:
    // the walk must stop at the iteration cap with the traversal
    // error, not loop forever.
    let graph = vec![record("dead", &["dead"])];
    let err = walk(&graph, &"ffff".to_string(), &"dead".to_string()).unwrap_err();
    assert_eq!(err, WalkError::Traversal);
}

#[test]
fn walk_missing_record_reports_transport_error() {
    let graph = vec![record("a1", &["b2"])];
    let err = walk(&graph, &"ffff".to_string(), &"a1".to_string()).unwrap_err();
    assert_eq!(err, WalkError::Transport);
}

#[test]
fn walk_parentless_record_falls_back_to_merge_base() {
    // A record with no parents before the merge base: the walk takes
    // the merge base as the synthetic next cursor and terminates with
    // the record collected.
    let graph = vec![record("a1", &[])];
    let out = walk(&graph, &"ffff".to_string(), &"a1".to_string()).unwrap();
    assert_eq!(hashes(&out), vec!["a1".to_string()]);
}

#[test]
fn walker_drives_a_chain_one_fetch_at_a_time() {
    let graph = vec![
        record("a1", &["b2"]),
        record("b2", &["c3"]),
        record("c3", &[]),
    ];
    let mut w = Walker::new("c3".to_string(), "a1".to_string());
    let mut fetches: usize = 0;
    loop {
        match w.next_fetch().unwrap() {
            None => break,
            Some(h) => {
                fetches += 1;
                let c = graph.iter().find(|c| c.hash == h).unwrap();
                let copy = record(
                    &c.hash,
                    &c.parents
                        .iter()
                        .map(|p| match p {
                            CommitParent::Commit { hash } => hash.as_str(),
                        })
                        .collect::<Vec<&str>>(),
                );
                w.record(copy);
            }
        }
    }
    assert_eq!(fetches, 2);
    let out = w.into_commits();
    assert_eq!(hashes(&out), vec!["a1".to_string(), "b2".to_string()]);
}

#[test]
fn walker_reports_traversal_error_at_the_cap() {
    let mut w = Walker::new("ffff".to_string(), "dead".to_string());
    for _ in 0..WALK_CAP {
        match w.next_fetch().unwrap() {
            Some(_) => w.record(record("dead", &["dead"])),
            None => panic!("walk must not reach the merge base"),
        }
    }
    assert_eq!(w.next_fetch().unwrap_err(), WalkError::Traversal);
}

#[test]
fn walk_chain_at_the_cap_still_succeeds() {
    // A chain exactly as long as the iteration budget is walked in
    // full; one record longer would be the traversal error.
    // Fixed-width hashes, so no reference is a prefix of another.
    let mut graph: Vec<Commit> = Vec::new();
    for i in 0..WALK_CAP {
        graph.push(record(&format!("{:04}", i), &[&format!("{:04}", i + 1)]));
    }
    let out = walk(
        &graph,
        &format!("{:04}", WALK_CAP),
        &"0000".to_string(),
    )
    .unwrap();
    assert_eq!(out.len(), WALK_CAP);
}

#[test]
fn walked_hashes_picks_each_hash_in_order() {
    let commits = vec![record("a1", &["b2"]), record("b2", &[])];
    assert_eq!(
        walked_hashes(&commits),
        vec!["a1".to_string(), "b2".to_string()]
    );
}
