use crab::filter::{contains_any, key_contains};

fn needles(items: &[&str]) -> Vec<String> {
    items.iter().map(|s| s.to_string()).collect()
}

#[test]
fn empty_filter_lets_every_key_pass() {
    assert!(key_contains(&needles(&[]), "anything"));
    assert!(key_contains(&needles(&[]), ""));
}

#[test]
fn filter_ignores_case() {
    assert!(key_contains(&needles(&["CORE"]), "Number of cores"));
    assert!(key_contains(&needles(&["core"]), "CORES"));
    assert!(key_contains(&needles(&["freq", "Cache"]), "L2 cache"));
    assert!(!key_contains(&needles(&["freq", "cache"]), "Socket"));
}

#[test]
fn filter_wants_the_needle_in_one_piece() {
    assert!(!key_contains(&needles(&["ab"]), "a b"));
    assert!(key_contains(&needles(&[""]), "whatever"));
    assert!(!key_contains(&needles(&["longer than key"]), "key"));
}

#[test]
fn contains_any_compares_as_written() {
    assert!(contains_any("Number of cores", &needles(&["x", "core"])));
    assert!(!contains_any("Number of cores", &needles(&["CORE"])));
    assert!(!contains_any("Number of cores", &needles(&[])));
}
