use prist::reconcile::{dedup_prefixes, reconcile, sort_hashes};

fn strings(xs: &[&str]) -> Vec<String> {
    xs.iter().map(|x| x.to_string()).collect()
}

#[test]
fn reconcile_scenario_mixed_abbreviations() {
    let input = strings(&["abc123def", "abc123", "ffff00"]);
    let out = reconcile(&input);
    assert_eq!(out, strings(&["abc123def", "ffff00"]));
}

#[test]
fn reconcile_prefix_pair_keeps_longer_either_order() {
    let out = reconcile(&strings(&["abc123", "abc123def"]));
    assert_eq!(out, strings(&["abc123def"]));
    let out = reconcile(&strings(&["abc123def", "abc123"]));
    assert_eq!(out, strings(&["abc123def"]));
}

#[test]
fn reconcile_is_idempotent_on_concrete_input() {
    let input = strings(&["ff00", "ab", "abcd", "abc", "ff", "1234"]);
    let once = reconcile(&input);
    let twice = reconcile(&once);
    assert_eq!(once, twice);
}

#[test]
fn reconcile_empty_input() {
    let out = reconcile(&Vec::new());
    assert!(out.is_empty());
}

#[test]
fn reconcile_collapses_equal_hashes() {
    let out = reconcile(&strings(&["beef", "beef", "beef"]));
    assert_eq!(out, strings(&["beef"]));
}

#[test]
fn reconcile_collapses_a_chain_of_abbreviations() {
    let out = reconcile(&strings(&["a", "ab", "abc", "abcd"]));
    assert_eq!(out, strings(&["abcd"]));
}

#[test]
fn reconcile_keeps_unrelated_hashes_sorted() {
    let out = reconcile(&strings(&["ff", "0a", "b1"]));
    assert_eq!(out, strings(&["0a", "b1", "ff"]));
}

#[test]
fn sort_hashes_orders_lexicographically() {
    let out = sort_hashes(&strings(&["ff", "ab", "abc", "0"]));
    assert_eq!(out, strings(&["0", "ab", "abc", "ff"]));
}

#[test]
fn dedup_prefixes_only_collapses_adjacent_pairs() {
    // A third reference that extends the abbreviation sorts between it
    // and the full hash: the single adjacent pass joins the
    // abbreviation with that neighbour, not with the full hash.
    let out = dedup_prefixes(&strings(&["abc123", "abc123a", "abc123def"]));
    assert_eq!(out, strings(&["abc123a", "abc123def"]));
    let out = dedup_prefixes(&strings(&["ab", "ab0", "abab"]));
    assert_eq!(out, strings(&["ab0", "abab"]));
}
