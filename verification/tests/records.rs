use std::collections::hash_map::DefaultHasher;
use std::hash::Hash;
use std::hash::Hasher;

use safari_history::util::cache_location;
use safari_history::util::db_location;
use safari_history::util::get_domain;
use safari_history::util::icon_path;
use safari_history::util::join_path;
use safari_history::util::unsigned_score;
use safari_history::util::HistoryItem;
use safari_history::util::RawRow;

fn row(title: Option<&str>, url: &str, score: i64) -> RawRow {
    RawRow { title: title.map(String::from), url: url.to_string(), score }
}

fn hash_of(item: &HistoryItem) -> u64 {
    let mut hasher = DefaultHasher::new();
    item.hash(&mut hasher);
    hasher.finish()
}

#[test]
fn a_row_becomes_a_record_with_a_lowercase_search_key() {
    let item = HistoryItem::from_row(&row(
        Some("Rust Lang"),
        "https://www.Rust-Lang.org/Learn?x=1#Top",
        7,
    ))
    .unwrap();
    assert_eq!(item.title, "Rust Lang");
    assert_eq!(item.url, "https://www.Rust-Lang.org/Learn?x=1#Top");
    assert_eq!(item.domain, "www.rust-lang.org");
    assert_eq!(item.search, "rust lang | www.rust-lang.org/learnx=1top");
    assert_eq!(item.score, 7);
    assert_eq!(item.favicon, "/Applications/Safari.app/Contents/Resources/compass.icns");
}

#[test]
fn a_row_without_query_and_fragment_has_a_key_of_title_domain_and_path() {
    let item = HistoryItem::from_row(&row(Some("Docs"), "https://docs.rs", 1)).unwrap();
    assert_eq!(item.domain, "docs.rs");
    assert_eq!(item.search, "docs | docs.rs/");
}

#[test]
fn a_row_without_a_title_is_titled_by_its_domain() {
    let absent = HistoryItem::from_row(&row(None, "https://example.com/a", 1)).unwrap();
    assert_eq!(absent.title, "example.com");
    assert_eq!(absent.search, "example.com | example.com/a");
    let empty = HistoryItem::from_row(&row(Some(""), "https://example.com/a", 1)).unwrap();
    assert_eq!(empty.title, "example.com");
    assert_eq!(empty.search, "example.com | example.com/a");
}

#[test]
fn rows_with_unusable_urls_are_dropped() {
    assert!(HistoryItem::from_row(&row(Some("empty"), "", 1)).is_none());
    assert!(HistoryItem::from_row(&row(Some("data"), "data:text/plain,hello", 1)).is_none());
    assert!(HistoryItem::from_row(&row(Some("words"), "not a url", 1)).is_none());
    assert!(HistoryItem::from_row(&row(Some("relative"), "/just/a/path", 1)).is_none());
    assert!(HistoryItem::from_row(&row(Some("no host"), "mailto:someone@example.com", 1)).is_none());
    assert!(HistoryItem::from_row(&row(Some("space"), "https://example.com/a b", 1)).is_none());
}

#[test]
fn the_score_of_a_row_is_read_without_a_sign() {
    assert_eq!(unsigned_score(0), 0);
    assert_eq!(unsigned_score(12), 12);
    assert_eq!(unsigned_score(i64::MAX), 9223372036854775807);
    assert_eq!(unsigned_score(-1), u64::MAX);
    assert_eq!(unsigned_score(i64::MIN), 9223372036854775808);
    let item = HistoryItem::from_row(&row(Some("t"), "https://example.com/", -2)).unwrap();
    assert_eq!(item.score, u64::MAX - 1);
}

#[test]
fn the_domain_of_a_url_is_its_host() {
    assert_eq!(get_domain("https://user@Example.COM:8080/x?y#z").as_deref(), Some("example.com"));
    assert_eq!(get_domain("http://127.0.0.1/index.html").as_deref(), Some("127.0.0.1"));
    assert_eq!(get_domain("http://[::1]/").as_deref(), Some("[::1]"));
    assert_eq!(get_domain("data:text/plain,Stuff"), None);
    assert_eq!(get_domain("nonsense"), None);
    assert_eq!(get_domain(""), None);
}

#[test]
fn icon_files_are_named_by_domain_and_subtype() {
    assert_eq!(icon_path("/cache", "example.com", "png"), "/cache/icons/example.com.png");
    assert_eq!(icon_path("/cache", "example.com", "x-icon"), "/cache/icons/example.com.ico");
    assert_eq!(icon_path("/cache", "example.com", "X-ICON"), "/cache/icons/example.com.X-ICON");
    assert_eq!(icon_path("", "a", ""), "/icons/a.");
}

#[test]
fn cache_and_database_lie_below_the_home_directory() {
    assert_eq!(cache_location("/Users/me"), "/Users/me/.cache/safari_history");
    assert_eq!(db_location("/Users/me"), "/Users/me/Library/Safari/History.db");
    assert_eq!(join_path("a", "b"), "a/b");
}

#[test]
fn records_are_equal_when_their_domains_are() {
    let one = HistoryItem::from_row(&row(Some("One"), "https://example.com/one", 1)).unwrap();
    let two = HistoryItem::from_row(&row(Some("Two"), "https://example.com/two", 2)).unwrap();
    let other = HistoryItem::from_row(&row(Some("One"), "https://example.org/one", 1)).unwrap();
    assert!(one == two);
    assert!(one != other);
    assert_eq!(hash_of(&one), hash_of(&two));
    let copy = one.clone();
    assert_eq!(copy.title, "One");
    assert_eq!(copy.search, one.search);
}
