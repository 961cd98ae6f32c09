use safari_history::errors::ErrorKind;
use safari_history::item::DisplayItem;
use safari_history::server::envelope;
use safari_history::server::fallback_item;
use safari_history::server::regex_pattern;
use safari_history::server::Server;
use safari_history::util::HistoryItem;

fn record(search: &str, score: u64) -> HistoryItem {
    HistoryItem {
        title: format!("Title of {}", search),
        url: format!("https://example.com/{}", search),
        domain: "example.com".to_string(),
        search: search.to_string(),
        score,
        favicon: "/icons/example.com.png".to_string(),
    }
}

fn titles(items: &Vec<DisplayItem>) -> Vec<String> {
    items.iter().map(|item| item.title.clone()).collect()
}

fn server_with(records: Vec<HistoryItem>) -> Server {
    let mut server = Server::new("/cache".to_string());
    server.update_items(&records);
    server
}

#[test]
fn a_new_server_answers_with_the_fallback_item() {
    let server = Server::new("/home/me/.cache/safari_history".to_string());
    let items = server.search(None, Some("web")).unwrap();
    assert_eq!(items.len(), 1);
    assert_eq!(items[0].title, "web");
    assert_eq!(items[0].subtitle.as_deref(), Some("Search with Google"));
    assert_eq!(items[0].arg.as_deref(), Some("https://google.com/search?q=web"));
    assert_eq!(items[0].quicklook_url.as_deref(), Some("https://google.com/search?q=web"));
    assert_eq!(items[0].text_copy.as_deref(), Some("web"));
    assert_eq!(items[0].text_large_type.as_deref(), Some("web"));
    assert_eq!(items[0].autocomplete, None);
    assert_eq!(items[0].uid, None);
    assert_eq!(items[0].score, None);
    assert_eq!(
        items[0].icon.as_deref(),
        Some("/home/me/.cache/safari_history/icons/google.com.ico")
    );
    let alternate = items[0].alternate.as_ref().unwrap();
    assert_eq!(alternate.arg, "https://www.google.com/webhp?#btnI=I&q=web");
    assert_eq!(alternate.subtitle, "I'm feeling lucky!");
    assert_eq!(alternate.icon, "/Applications/Safari.app/Contents/Resources/compass.icns");
}

#[test]
fn the_fallback_item_carries_the_query_as_it_came() {
    let server = server_with(vec![record("something else", 1)]);
    let items = server.search(Some("regex"), Some("no%20such%20page")).unwrap();
    assert_eq!(items.len(), 1);
    assert_eq!(items[0].title, "no%20such%20page");
    assert_eq!(items[0].arg.as_deref(), Some("https://google.com/search?q=no%20such%20page"));
    assert_eq!(
        items[0].alternate.as_ref().unwrap().arg,
        "https://www.google.com/webhp?#btnI=I&q=no%20such%20page"
    );
    let direct = fallback_item("/cache", "no%20such%20page");
    assert_eq!(direct.arg, items[0].arg);
    assert_eq!(direct.icon.as_deref(), Some("/cache/icons/google.com.ico"));
}

#[test]
fn a_record_is_shown_with_its_url_favicon_and_score() {
    let server = server_with(vec![record("the only page", 42)]);
    let items = server.search(Some("regex"), Some("only")).unwrap();
    assert_eq!(items.len(), 1);
    let item = &items[0];
    assert_eq!(item.title, "Title of the only page");
    assert_eq!(item.autocomplete.as_deref(), Some("Title of the only page"));
    assert_eq!(item.subtitle.as_deref(), Some("https://example.com/the only page"));
    assert_eq!(item.arg.as_deref(), Some("https://example.com/the only page"));
    assert_eq!(item.uid.as_deref(), Some("https://example.com/the only page"));
    assert_eq!(item.text_copy.as_deref(), Some("https://example.com/the only page"));
    assert_eq!(item.text_large_type.as_deref(), Some("https://example.com/the only page"));
    assert_eq!(item.quicklook_url.as_deref(), Some("https://example.com/the only page"));
    assert_eq!(item.icon.as_deref(), Some("/icons/example.com.png"));
    assert_eq!(item.score, Some(42));
    assert!(item.alternate.is_none());
    let shown = server.get_alfred_item(record("another", 3));
    assert_eq!(shown.title, "Title of another");
    assert_eq!(shown.score, Some(3));
}

#[test]
fn regex_query_with_encoded_space_matches_both_words_in_order() {
    let server = server_with(vec![
        record("foo and then bar", 3),
        record("only foo here", 9),
        record("bar before foo", 5),
        record("xfooybarz", 1),
        record("foobar", 2),
    ]);
    let items = server.search(Some("regex"), Some("foo%20bar")).unwrap();
    assert_eq!(
        titles(&items),
        vec!["Title of foo and then bar", "Title of foobar", "Title of xfooybarz"]
    );
}

#[test]
fn regex_query_keeps_the_case_of_the_keys() {
    let server = server_with(vec![record("lower case", 1), record("Upper Case", 2)]);
    let items = server.search(Some("regex"), Some("Case")).unwrap();
    assert_eq!(titles(&items), vec!["Title of Upper Case"]);
}

#[test]
fn the_pattern_of_a_regex_query_has_gaps_for_encoded_spaces() {
    assert_eq!(regex_pattern("foo%20bar"), ".*foo.*bar.*");
    assert_eq!(regex_pattern(""), ".*.*");
    assert_eq!(regex_pattern("%20"), ".*.*.*");
    assert_eq!(regex_pattern("a%2%20b"), ".*a%2.*b.*");
}

#[test]
fn fuzzy_query_matches_up_to_distance_ten() {
    let server = server_with(vec![
        record("abbbbbbbbb", 1),
        record("abbbbbbbbbb", 2),
        record("abbbbbbbbbbb", 3),
    ]);
    let items = server.search(Some("fuzzy"), Some("a")).unwrap();
    assert_eq!(titles(&items), vec!["Title of abbbbbbbbbb", "Title of abbbbbbbbb"]);
}

#[test]
fn fuzzy_query_counts_replacements_insertions_and_deletions() {
    let server = server_with(vec![
        record("wxyzwxyzwxyz", 1),
        record("abcd", 2),
        record("abcdefghijklmn", 3),
        record("abcdefghijklmno", 4),
        record("", 5),
    ]);
    let items = server.search(None, Some("abcd")).unwrap();
    assert_eq!(
        titles(&items),
        vec!["Title of ", "Title of abcdefghijklmn", "Title of abcd"]
    );
}

#[test]
fn every_search_type_but_regex_is_fuzzy() {
    let server = server_with(vec![record("a.c", 1), record("abc", 2), record("xyzxyzxyzxyzxyz", 3)]);
    assert_eq!(
        titles(&server.search(Some("regex"), Some("a\\.c")).unwrap()),
        vec!["Title of a.c"]
    );
    let fuzzy = vec!["Title of abc", "Title of a.c"];
    assert_eq!(titles(&server.search(Some("fuzzy"), Some("a.c")).unwrap()), fuzzy);
    assert_eq!(titles(&server.search(Some("REGEX"), Some("a.c")).unwrap()), fuzzy);
    assert_eq!(titles(&server.search(Some(""), Some("a.c")).unwrap()), fuzzy);
    assert_eq!(titles(&server.search(None, Some("a.c")).unwrap()), fuzzy);
}

#[test]
fn a_request_without_a_query_asks_for_an_asterisk() {
    let server = server_with(vec![record("*", 1), record("0123456789ab", 2)]);
    assert_eq!(titles(&server.search(None, None).unwrap()), vec!["Title of *"]);
}

#[test]
fn malformed_regex_is_an_error_of_kind_regex() {
    let server = Server::new("/cache".to_string());
    let error = server.search(Some("regex"), Some("(")).unwrap_err();
    assert_eq!(error.kind, ErrorKind::Regex);
    assert!(!error.context.is_empty());
    let items = server.respond(Some("regex"), Some("("));
    assert_eq!(items.len(), 1);
    assert_eq!(items[0].title, "The regular expression was refused");
    assert_eq!(items[0].subtitle, Some(error.message()));
    assert_eq!(items[0].autocomplete, Some(error.message()));
    assert_eq!(items[0].text_copy, Some(error.display_chain()));
    assert_eq!(items[0].text_large_type, Some(error.display_chain()));
    assert_eq!(items[0].arg, None);
}

#[test]
fn a_fuzzy_query_that_is_too_large_is_an_error_of_kind_levenshtein() {
    let server = server_with(vec![record("anything", 1)]);
    let error = server.search(None, Some("a long and winding query")).unwrap_err();
    assert_eq!(error.kind, ErrorKind::Levenshtein);
    assert_eq!(error.context, "Levenshtein automaton exceeds size limit of 10000 states");
    assert_eq!(error.cause, None);
    let items = server.respond(None, Some("a long and winding query"));
    assert_eq!(items.len(), 1);
    assert_eq!(items[0].title, "The fuzzy query was refused");
    assert_eq!(
        items[0].text_copy.as_deref(),
        Some("Error: Levenshtein automaton exceeds size limit of 10000 states\n")
    );
}

#[test]
fn respond_answers_as_search_does_where_it_succeeds() {
    let server = server_with(vec![record("one", 1), record("two", 2)]);
    let found = server.search(Some("regex"), Some("o")).unwrap();
    let answered = server.respond(Some("regex"), Some("o"));
    assert_eq!(titles(&answered), titles(&found));
    assert_eq!(titles(&answered), vec!["Title of two", "Title of one"]);
    let wrapped = envelope(server.search(Some("regex"), Some("o")));
    assert_eq!(titles(&wrapped), titles(&found));
}

#[test]
fn answers_hold_at_most_twenty_items_best_first() {
    let records: Vec<HistoryItem> =
        (0..30u64).map(|i| record(&format!("page{:02}", i), i / 2)).collect();
    let server = server_with(records);
    let items = server.search(Some("regex"), Some("page")).unwrap();
    assert_eq!(items.len(), 20);
    let expected: Vec<String> =
        (10..30u64).rev().map(|i| format!("Title of page{:02}", i)).collect();
    assert_eq!(titles(&items), expected);
}

#[test]
fn hits_with_the_same_score_come_in_descending_key_order() {
    let server = server_with(vec![
        record("b", 7),
        record("d", 7),
        record("a", 7),
        record("c", 8),
        record("e", 6),
    ]);
    let items = server.search(Some("regex"), Some("")).unwrap();
    assert_eq!(
        titles(&items),
        vec!["Title of c", "Title of d", "Title of b", "Title of a", "Title of e"]
    );
}

#[test]
fn the_index_keeps_the_highest_score_and_the_store_the_first_record() {
    let mut first = record("twice", 1);
    first.title = "seen first".to_string();
    let mut second = record("twice", 9);
    second.title = "seen second".to_string();
    let server = server_with(vec![first, record("once", 5), second]);
    let items = server.search(Some("regex"), Some("c")).unwrap();
    assert_eq!(titles(&items), vec!["seen first", "Title of once"]);
    assert_eq!(items[0].score, Some(1));
    assert_eq!(items[1].score, Some(5));
}

#[test]
fn rebuilding_from_the_same_snapshot_changes_no_answer() {
    let records = vec![record("alpha", 3), record("beta", 3), record("alphabet", 1)];
    let mut server = Server::new("/cache".to_string());
    server.update_items(&records);
    let once = titles(&server.search(Some("regex"), Some("al")).unwrap());
    let fuzzy_once = titles(&server.search(None, Some("beta")).unwrap());
    server.update_items(&records);
    assert_eq!(titles(&server.search(Some("regex"), Some("al")).unwrap()), once);
    assert_eq!(titles(&server.search(None, Some("beta")).unwrap()), fuzzy_once);
    assert_eq!(once, vec!["Title of alpha", "Title of alphabet"]);
    let mut other = Server::new("/cache".to_string());
    other.update_items(&records);
    assert_eq!(titles(&other.search(Some("regex"), Some("al")).unwrap()), once);
}

#[test]
fn a_rebuild_replaces_index_and_store_together() {
    let mut server = Server::new("/cache".to_string());
    let mut old = record("shared key", 1);
    old.title = "old title".to_string();
    server.update_items(&vec![old, record("gone", 2)]);
    let mut new = record("shared key", 4);
    new.title = "new title".to_string();
    server.update_items(&vec![new, record("fresh", 3)]);
    let items = server.search(Some("regex"), Some("")).unwrap();
    assert_eq!(titles(&items), vec!["new title", "Title of fresh"]);
    assert_eq!(items[0].score, Some(4));
    let gone = server.search(Some("regex"), Some("gone")).unwrap();
    assert_eq!(gone.len(), 1);
    assert_eq!(gone[0].subtitle.as_deref(), Some("Search with Google"));
}

#[test]
fn every_hit_is_found_in_the_store() {
    let records: Vec<HistoryItem> = (0..50u64)
        .map(|i| record(&format!("key {}", i % 17), i))
        .collect();
    let server = server_with(records);
    let items = server.search(Some("regex"), Some("key")).unwrap();
    assert_eq!(items.len(), 17);
    let hits: Vec<(String, u64)> = (0..17u64).map(|i| (format!("key {}", i), i)).collect();
    assert_eq!(server.get_items(&hits).len(), 17);
}

#[test]
fn get_items_leaves_out_what_the_store_does_not_hold() {
    let server = server_with(vec![record("held", 1)]);
    let hits = vec![("held".to_string(), 1), ("missing".to_string(), 2)];
    assert_eq!(titles(&server.get_items(&hits)), vec!["Title of held"]);
    assert!(server.get_items(&vec![]).is_empty());
}

#[test]
fn the_longest_key_is_measured_in_bytes() {
    let mut server = Server::new("/cache".to_string());
    assert_eq!(server.max_key_length(), 0);
    server.update_items(&vec![record("abc", 1), record("é-é", 2), record("", 3)]);
    assert_eq!(server.max_key_length(), 5);
    server.update_items(&vec![record("ab", 1)]);
    assert_eq!(server.max_key_length(), 2);
    server.update_items(&vec![]);
    assert_eq!(server.max_key_length(), 0);
}

#[test]
fn keys_with_characters_of_several_bytes_are_indexed_in_byte_order() {
    let server = server_with(vec![
        record("zebra", 1),
        record("éclair", 1),
        record("Zebra", 1),
        record("日本", 1),
        record("eclair", 1),
    ]);
    let items = server.search(Some("regex"), Some("")).unwrap();
    assert_eq!(
        titles(&items),
        vec![
            "Title of 日本",
            "Title of éclair",
            "Title of zebra",
            "Title of eclair",
            "Title of Zebra"
        ]
    );
}

fn edit_distance(a: &str, b: &str) -> usize {
    let a: Vec<char> = a.chars().collect();
    let b: Vec<char> = b.chars().collect();
    let mut row: Vec<usize> = (0..=b.len()).collect();
    for i in 1..=a.len() {
        let mut next = vec![i];
        for j in 1..=b.len() {
            let replace = row[j - 1] + if a[i - 1] == b[j - 1] { 0 } else { 1 };
            next.push(replace.min(row[j] + 1).min(next[j - 1] + 1));
        }
        row = next;
    }
    row[b.len()]
}

#[test]
fn fuzzy_hits_are_the_keys_within_ten_edits_of_an_ascii_query() {
    let keys = [
        "",
        "a",
        "ab",
        "abca",
        "bbbbbbbbbb",
        "bbbbbbbbbbb",
        "abbbbbbbbbbb",
        "xaxbxcxaxxxxxx",
        "xaxbxcxaxxxxxxx",
        "éééééééééé",
        "ééééééééééé",
        "aééééééééééé",
        "日本語日本語日本語日",
        "日本語日本語日本語日本",
        "ab日本語日本語日本語日本",
        "abcaabcaabcaab",
        "abcaabcaabcaabc",
        "cbacbacbacba",
        "0123456789abca",
        "0123456789abcz",
    ];
    let records: Vec<HistoryItem> = keys.iter().map(|key| record(key, 0)).collect();
    let server = server_with(records);
    for query in ["", "a", "ab", "abc", "abca", "zzzz", "c a"] {
        let mut expected: Vec<String> = keys
            .iter()
            .filter(|key| edit_distance(query, key) <= 10)
            .map(|key| format!("Title of {}", key))
            .collect();
        expected.sort();
        let mut found = titles(&server.search(None, Some(query)).unwrap());
        found.sort();
        assert_eq!(found, expected, "query {:?}", query);
    }
}
