use safari_history::rank::rank_top;
use safari_history::snapshot::index_entries_for;
use safari_history::text::chars_of;
use safari_history::text::has_prefix;
use safari_history::text::key_order;
use safari_history::text::replace_text;
use safari_history::text::same_text;
use safari_history::text::KeyOrder;
use safari_history::util::HistoryItem;

fn record(search: &str, score: u64) -> HistoryItem {
    HistoryItem {
        title: String::new(),
        url: String::new(),
        domain: String::new(),
        search: search.to_string(),
        score,
        favicon: String::new(),
    }
}

fn hits(scores: &[u64]) -> Vec<(String, u64)> {
    scores.iter().enumerate().map(|(i, score)| (format!("hit {}", i), *score)).collect()
}

#[test]
fn keys_are_ordered_by_their_bytes() {
    assert_eq!(key_order("a", "b"), KeyOrder::Before);
    assert_eq!(key_order("b", "a"), KeyOrder::After);
    assert_eq!(key_order("abc", "abc"), KeyOrder::Same);
    assert_eq!(key_order("", ""), KeyOrder::Same);
    assert_eq!(key_order("", "a"), KeyOrder::Before);
    assert_eq!(key_order("ab", "abc"), KeyOrder::Before);
    assert_eq!(key_order("abd", "abc"), KeyOrder::After);
    assert_eq!(key_order("Z", "a"), KeyOrder::Before);
    assert_eq!(key_order("z", "é"), KeyOrder::Before);
    assert_eq!(key_order("é", "日"), KeyOrder::Before);
}

#[test]
fn texts_are_the_same_when_all_characters_are() {
    assert!(same_text("regex", "regex"));
    assert!(same_text("", ""));
    assert!(!same_text("regex", "Regex"));
    assert!(!same_text("regex", "regexp"));
    assert!(!same_text("é", "e"));
}

#[test]
fn a_prefix_is_found_at_the_start_only() {
    assert!(has_prefix("data:text/plain", "data:"));
    assert!(has_prefix("data:", "data:"));
    assert!(has_prefix("anything", ""));
    assert!(!has_prefix("dat", "data:"));
    assert!(!has_prefix("a data:", "data:"));
    assert!(!has_prefix("DATA:x", "data:"));
    assert!(has_prefix("日本語", "日本"));
}

#[test]
fn every_occurrence_is_replaced_from_the_left() {
    assert_eq!(replace_text("foo%20bar", "%20", ".*"), "foo.*bar");
    assert_eq!(replace_text("%20%20", "%20", ".*"), ".*.*");
    assert_eq!(replace_text("no spaces", "%20", ".*"), "no spaces");
    assert_eq!(replace_text("aaa", "aa", "b"), "ba");
    assert_eq!(replace_text("abc", "", "x"), "abc");
    assert_eq!(replace_text("", "a", "x"), "");
    assert_eq!(replace_text("%2%20", "%20", "-"), "%2-");
    assert_eq!(replace_text("é%20é", "%20", " "), "é é");
}

#[test]
fn the_characters_of_a_text_are_listed_in_order() {
    assert_eq!(chars_of("aé日"), vec!['a', 'é', '日']);
    assert!(chars_of("").is_empty());
}

#[test]
fn hits_are_ranked_by_score_and_then_by_later_place() {
    assert_eq!(rank_top(&hits(&[5, 9, 5, 1, 9]), 20), vec![4, 1, 2, 0, 3]);
    assert_eq!(rank_top(&hits(&[5, 9, 5, 1, 9]), 3), vec![4, 1, 2]);
    assert_eq!(rank_top(&hits(&[5, 9, 5, 1, 9]), 1), vec![4]);
    assert_eq!(rank_top(&hits(&[5, 9, 5, 1, 9]), 0), Vec::<usize>::new());
    assert_eq!(rank_top(&hits(&[]), 20), Vec::<usize>::new());
    assert_eq!(rank_top(&hits(&[7, 7, 7]), 2), vec![2, 1]);
    assert_eq!(rank_top(&hits(&[1, 2, 3, 4]), 2), vec![3, 2]);
    assert_eq!(rank_top(&hits(&[4, 3, 2, 1]), 2), vec![0, 1]);
}

#[test]
fn index_entries_hold_each_key_once_with_its_highest_score() {
    let records = vec![
        record("pear", 3),
        record("apple", 1),
        record("pear", 8),
        record("fig", 5),
        record("apple", 1),
        record("pear", 2),
    ];
    assert_eq!(
        index_entries_for(&records),
        vec![("apple".to_string(), 1), ("fig".to_string(), 5), ("pear".to_string(), 8)]
    );
    assert!(index_entries_for(&vec![]).is_empty());
    assert_eq!(index_entries_for(&vec![record("one", 0)]), vec![("one".to_string(), 0)]);
}
