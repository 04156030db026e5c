use fuzzpick::indexer::{Batcher, Indexer, IndexerEvent, IndexerOut};

fn lines(ls: &[&str]) -> Vec<String> {
    ls.iter().map(|s| s.to_string()).collect()
}

fn result_lines(out: &IndexerOut) -> Vec<String> {
    out.results.iter().map(|e| e.0.clone()).collect()
}

#[test]
fn query_ap_ranks_the_two_matching_lines_in_arrival_order() {
    let mut ix = Indexer::new(50, 100, 50);
    ix.step(IndexerEvent::Query(Some("ap".to_string())));
    let out = ix.step(IndexerEvent::Lines(lines(&["apple", "apply", "banana"])));
    assert_eq!(out.total, 2);
    assert_eq!(
        out.results,
        vec![
            ("apple".to_string(), vec![0, 1]),
            ("apply".to_string(), vec![0, 1]),
        ]
    );
    assert!(out.reinject.is_empty());
}

#[test]
fn query_an_matches_banana_with_adjacent_hits() {
    let mut ix = Indexer::new(50, 100, 50);
    ix.step(IndexerEvent::Query(Some("an".to_string())));
    let out = ix.step(IndexerEvent::Lines(lines(&["apple", "apply", "banana"])));
    assert_eq!(out.total, 1);
    assert_eq!(out.results, vec![("banana".to_string(), vec![1, 2])]);
}

#[test]
fn buffer_of_one_keeps_exactly_the_first_of_equal_scores() {
    let mut ix = Indexer::new(50, 1, 50);
    // the empty query matches everything with score 0: three equal scores
    let out = ix.step(IndexerEvent::Lines(lines(&["one", "two", "three"])));
    assert_eq!(out.total, 3);
    assert_eq!(out.results, vec![("one".to_string(), vec![])]);
}

#[test]
fn query_change_drains_and_reinjects_every_held_line_in_order() {
    let mut ix = Indexer::new(50, 100, 2);
    ix.step(IndexerEvent::Query(Some("ap".to_string())));
    ix.step(IndexerEvent::Lines(lines(&["apple", "apply", "apricot", "banana"])));
    let out = ix.step(IndexerEvent::Query(Some("APP".to_string())));
    // the index is emptied and the three previously matching lines come back
    // as batches of the configured size
    assert_eq!(out.total, 0);
    assert!(out.results.is_empty());
    assert_eq!(
        out.reinject,
        vec![lines(&["apple", "apply"]), lines(&["apricot"])]
    );
    // feeding the re-injected batches rebuilds the index under the new
    // query; "apricot" has a single 'p' and no longer matches
    let mut last_total = 0;
    let mut last = Vec::new();
    for batch in out.reinject {
        let o = ix.step(IndexerEvent::Lines(batch));
        last_total = o.total;
        last = o.results;
    }
    assert_eq!(last_total, 2);
    let ranked: Vec<String> = last.iter().map(|e| e.0.clone()).collect();
    assert_eq!(ranked, vec!["apple", "apply"]);
}

#[test]
fn reindex_under_the_same_query_rebuilds_the_same_ranking() {
    let mut ix = Indexer::new(50, 100, 50);
    ix.step(IndexerEvent::Query(Some("ab".to_string())));
    let before = ix.step(IndexerEvent::Lines(lines(&["a--b", "ab one", "a-b", "ab two"])));
    let drained = ix.step(IndexerEvent::Query(Some("ab".to_string())));
    let mut after = None;
    for batch in drained.reinject {
        after = Some(ix.step(IndexerEvent::Lines(batch)));
    }
    let after = after.expect("at least one batch");
    assert_eq!(result_lines(&before), result_lines(&after));
    assert_eq!(before.total, after.total);
}

#[test]
fn a_query_change_keeping_the_text_reindexes_unchanged() {
    let mut ix = Indexer::new(50, 100, 50);
    ix.step(IndexerEvent::Query(Some("an".to_string())));
    ix.step(IndexerEvent::Lines(lines(&["banana"])));
    // None keeps the current query text
    let out = ix.step(IndexerEvent::Query(None));
    assert_eq!(out.reinject, vec![lines(&["banana"])]);
    let out = ix.step(IndexerEvent::Lines(lines(&["banana"])));
    assert_eq!(out.results, vec![("banana".to_string(), vec![1, 2])]);
}

#[test]
fn batcher_emits_full_batches_and_the_remainder() {
    let mut b = Batcher::new(2);
    assert_eq!(b.push_line("a".to_string()), None);
    assert_eq!(b.push_line("b".to_string()), Some(lines(&["a", "b"])));
    assert_eq!(b.push_line("c".to_string()), None);
    assert_eq!(b.finish(), Some(lines(&["c"])));
    assert_eq!(b.finish(), None);
}

#[test]
fn batcher_with_size_zero_emits_single_lines() {
    let mut b = Batcher::new(0);
    assert_eq!(b.push_line("a".to_string()), Some(lines(&["a"])));
    assert_eq!(b.push_line("b".to_string()), Some(lines(&["b"])));
    assert_eq!(b.finish(), None);
}
