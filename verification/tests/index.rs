use fuzzpick::index::{drain_all, index_items, ranked, total_count, vec_insert_expand, MatchEntry};

fn entry(line: &str, hits: Vec<usize>) -> MatchEntry {
    (line.to_string(), hits)
}

#[test]
fn vec_insert_expand_grows_with_empty_slots() {
    let mut v: Vec<Option<Vec<u32>>> = Vec::new();
    vec_insert_expand(&mut v, 3, 7);
    assert_eq!(v.len(), 4);
    assert_eq!(v[0], None);
    assert_eq!(v[1], None);
    assert_eq!(v[2], None);
    assert_eq!(v[3], Some(vec![7]));
}

#[test]
fn vec_insert_expand_appends_to_an_existing_slot() {
    let mut v: Vec<Option<Vec<u32>>> = Vec::new();
    vec_insert_expand(&mut v, 1, 5);
    vec_insert_expand(&mut v, 1, 6);
    vec_insert_expand(&mut v, 0, 9);
    assert_eq!(v.len(), 2);
    assert_eq!(v[0], Some(vec![9]));
    assert_eq!(v[1], Some(vec![5, 6]));
}

#[test]
fn matching_line_lands_in_the_bucket_of_its_score() {
    let mut idx: Vec<Option<Vec<MatchEntry>>> = Vec::new();
    index_items(&mut idx, "apple".to_string(), "ae", 50);
    // hits [0, 4], gap sum 4
    assert_eq!(idx.len(), 5);
    assert_eq!(idx[4], Some(vec![entry("apple", vec![0, 4])]));
}

#[test]
fn score_is_clamped_to_the_configured_ceiling() {
    let mut idx: Vec<Option<Vec<MatchEntry>>> = Vec::new();
    index_items(&mut idx, "apple".to_string(), "ae", 2);
    assert_eq!(idx.len(), 3);
    assert_eq!(idx[2], Some(vec![entry("apple", vec![0, 4])]));
}

#[test]
fn non_matching_line_is_not_retained() {
    let mut idx: Vec<Option<Vec<MatchEntry>>> = Vec::new();
    index_items(&mut idx, "banana".to_string(), "xyz", 50);
    assert_eq!(idx.len(), 0);
    assert_eq!(total_count(&idx), 0);
}

#[test]
fn empty_query_matches_with_empty_hits_in_the_tightest_bucket() {
    let mut idx: Vec<Option<Vec<MatchEntry>>> = Vec::new();
    index_items(&mut idx, "banana".to_string(), "", 50);
    assert_eq!(idx.len(), 1);
    assert_eq!(idx[0], Some(vec![entry("banana", vec![])]));
}

fn build_sample() -> Vec<Option<Vec<MatchEntry>>> {
    // under query "ab": "ab..." scores 1, "a-b..." scores 2, "a--b" scores 3
    let mut idx: Vec<Option<Vec<MatchEntry>>> = Vec::new();
    index_items(&mut idx, "a--b".to_string(), "ab", 50);
    index_items(&mut idx, "ab one".to_string(), "ab", 50);
    index_items(&mut idx, "a-b".to_string(), "ab", 50);
    index_items(&mut idx, "ab two".to_string(), "ab", 50);
    idx
}

#[test]
fn ranked_walks_buckets_tightest_first_and_keeps_arrival_order() {
    let idx = build_sample();
    let r = ranked(&idx, 10);
    let lines: Vec<&str> = r.iter().map(|e| e.0.as_str()).collect();
    assert_eq!(lines, vec!["ab one", "ab two", "a-b", "a--b"]);
}

#[test]
fn ranked_returns_at_most_limit_items() {
    let idx = build_sample();
    let r = ranked(&idx, 2);
    let lines: Vec<&str> = r.iter().map(|e| e.0.as_str()).collect();
    assert_eq!(lines, vec!["ab one", "ab two"]);
    assert_eq!(ranked(&idx, 0).len(), 0);
    assert_eq!(ranked(&idx, 100).len(), 4);
}

#[test]
fn total_count_counts_every_held_match() {
    let idx = build_sample();
    assert_eq!(total_count(&idx), 4);
}

#[test]
fn drain_empties_the_index_in_ranking_order() {
    let mut idx = build_sample();
    let lines = drain_all(&mut idx);
    assert_eq!(lines, vec!["ab one", "ab two", "a-b", "a--b"]);
    assert_eq!(idx.len(), 0);
    assert_eq!(total_count(&idx), 0);
}

#[test]
fn reinserting_drained_lines_rebuilds_the_same_buckets() {
    let mut idx = build_sample();
    let before = idx.clone();
    let lines = drain_all(&mut idx);
    let mut rebuilt: Vec<Option<Vec<MatchEntry>>> = Vec::new();
    for line in lines {
        index_items(&mut rebuilt, line, "ab", 50);
    }
    // the rebuilt index may be shorter (trailing empty buckets are not
    // recreated), but every bucket's contents agree
    for b in 0..before.len().max(rebuilt.len()) {
        let old_bucket = before.get(b).cloned().flatten().unwrap_or_default();
        let new_bucket = rebuilt.get(b).cloned().flatten().unwrap_or_default();
        assert_eq!(old_bucket, new_bucket, "bucket {}", b);
    }
}
