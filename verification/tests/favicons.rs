use safari_history::cache::FaviconCache;
use safari_history::errors::ErrorKind;
use safari_history::history::select_icon;
use safari_history::history::IconCandidate;
use safari_history::history::SafariHistory;
use safari_history::server::Server;
use safari_history::util::icon_domain;
use safari_history::util::icon_path;
use safari_history::util::RawRow;

const DEFAULT_ICON: &str = "/Applications/Safari.app/Contents/Resources/compass.icns";

fn row(title: &str, url: &str, score: i64) -> RawRow {
    RawRow { title: Some(title.to_string()), url: url.to_string(), score }
}

fn icon(width: u32, height: u32, subtype: Option<&str>, raw: Option<&[u8]>) -> IconCandidate {
    IconCandidate {
        width,
        height,
        subtype: subtype.map(String::from),
        raw: raw.map(|bytes| bytes.to_vec()),
    }
}

fn file(name: &str, path: &str) -> (String, String) {
    (name.to_string(), path.to_string())
}

#[test]
fn a_cache_without_a_stored_file_starts_from_the_icon_files() {
    let files = vec![
        file("example.com.png", "/c/icons/example.com.png"),
        file("rust-lang.org.ico", "/c/icons/rust-lang.org.ico"),
        file("example.com.ico", "/c/icons/example.com.ico"),
        file("..", "/c"),
        file("", "/c/icons/"),
    ];
    let history = SafariHistory::new("/c".to_string(), None, &files);
    assert_eq!(history.favicon("example.com").as_deref(), Some("/c/icons/example.com.png"));
    assert_eq!(history.favicon("rust-lang.org").as_deref(), Some("/c/icons/rust-lang.org.ico"));
    assert_eq!(history.favicon("docs.rs"), None);
    assert_eq!(history.favicon("."), None);
    assert_eq!(history.favicon(""), None);
}

#[test]
fn an_icon_file_is_named_after_its_domain() {
    assert_eq!(icon_domain("example.com.png").as_deref(), Some("example.com"));
    assert_eq!(icon_domain("example.com.").as_deref(), Some("example.com"));
    assert_eq!(icon_domain("localhost").as_deref(), Some("localhost"));
    assert_eq!(icon_domain(".hidden").as_deref(), Some(".hidden"));
    assert_eq!(icon_domain(".hidden.png").as_deref(), Some(".hidden"));
    assert_eq!(icon_domain("bücher.example.ico").as_deref(), Some("bücher.example"));
    assert_eq!(icon_domain(""), None);
    assert_eq!(icon_domain("."), None);
    assert_eq!(icon_domain(".."), None);
    assert_eq!(icon_domain("...").as_deref(), Some(".."));
    for name in ["example.com.png", "localhost", ".hidden", ".hidden.png", "a.", "..."] {
        let stem = std::path::Path::new(name).file_stem().map(|s| s.to_string_lossy().into_owned());
        assert_eq!(icon_domain(name), stem);
    }
    let written = icon_path("/c", "example.com", "x-icon");
    assert_eq!(written, "/c/icons/example.com.ico");
    assert_eq!(icon_domain("example.com.ico").as_deref(), Some("example.com"));
}

#[test]
fn a_corrupt_cache_file_counts_as_an_empty_cache() {
    let files = vec![file("example.com.png", "/c/icons/example.com.png")];
    let history = SafariHistory::new("/c".to_string(), Some(&[0xc1, 0x00, 0xff]), &files);
    assert_eq!(history.favicon("example.com").as_deref(), Some("/c/icons/example.com.png"));
    let empty = SafariHistory::new("/c".to_string(), Some(&[]), &vec![]);
    assert_eq!(empty.favicon("example.com"), None);
}

#[test]
fn the_stored_cache_goes_before_the_icon_files() {
    let stored = [0x81, 0xa1, b'a', 0xa1, b'b'];
    let files = vec![file("a.png", "from disk"), file("c.png", "d")];
    let history = SafariHistory::new("/c".to_string(), Some(&stored), &files);
    assert_eq!(history.favicon("a").as_deref(), Some("b"));
    assert_eq!(history.favicon("c").as_deref(), Some("d"));
}

#[test]
fn the_cache_is_persisted_as_one_map_of_strings() {
    let history = SafariHistory::new("/c".to_string(), None, &vec![file("a.png", "b")]);
    assert_eq!(history.persist(), Some(vec![0x81, 0xa1, b'a', 0xa1, b'b']));
    let empty = SafariHistory::new("/c".to_string(), None, &vec![]);
    assert_eq!(empty.persist(), Some(vec![0x80]));
}

#[test]
fn persist_then_load_gives_the_same_cache() {
    let files = vec![
        file("example.com.png", "/c/icons/example.com.png"),
        file("rust-lang.org.ico", "/c/icons/rust-lang.org.ico"),
        file("bücher.example.png", "/c/icons/bücher.example.png"),
    ];
    let history = SafariHistory::new("/c".to_string(), None, &files);
    let bytes = history.persist().unwrap();
    let loaded = SafariHistory::new("/c".to_string(), Some(&bytes), &vec![]);
    for domain in ["example.com", "rust-lang.org", "bücher.example"] {
        assert!(history.favicon(domain).is_some());
        assert_eq!(loaded.favicon(domain), history.favicon(domain));
    }
    assert_eq!(loaded.favicon("docs.rs"), None);
    assert_eq!(loaded.persist(), Some(bytes));
}

#[test]
fn the_cache_keeps_one_path_for_each_domain() {
    let mut cache = FaviconCache::new();
    assert_eq!(cache.len(), 0);
    assert!(!cache.contains("a"));
    cache.insert("a".to_string(), "first".to_string());
    cache.insert("b".to_string(), "second".to_string());
    cache.insert("a".to_string(), "third".to_string());
    assert_eq!(cache.len(), 2);
    assert!(cache.contains("a"));
    assert_eq!(cache.get("a").map(String::as_str), Some("third"));
    assert_eq!(cache.get("b").map(String::as_str), Some("second"));
    assert_eq!(cache.get("c"), None);
    let loaded = FaviconCache::from_bytes(&cache.to_bytes().unwrap());
    assert_eq!(loaded.len(), 2);
    assert_eq!(loaded.get("a").map(String::as_str), Some("third"));
    assert_eq!(FaviconCache::from_bytes(&[0x92, 0x01, 0x02]).len(), 0);
}

#[test]
fn rows_become_records_in_their_order() {
    let history = SafariHistory::new("/c".to_string(), None, &vec![]);
    let rows = vec![
        row("First", "https://example.com/1", 9),
        row("Dropped", "data:text/plain,x", 8),
        row("Second", "https://example.org/2", 7),
        row("Dropped too", "", 6),
    ];
    let items = history.get_history_items(&rows);
    let titles: Vec<&str> = items.iter().map(|item| item.title.as_str()).collect();
    assert_eq!(titles, vec!["First", "Second"]);
    assert!(history.get_history_items(&vec![]).is_empty());
}

#[test]
fn an_icon_is_fetched_once_for_each_new_domain() {
    let history = SafariHistory::new(
        "/c".to_string(),
        None,
        &vec![file("known.example.png", "/c/icons/known.example.png")],
    );
    let rows = vec![
        row("Known", "https://known.example/", 9),
        row("One", "https://example.com/one", 8),
        row("Other", "https://example.org/", 7),
        row("Two", "https://example.com/two", 6),
        row("Again", "https://example.org/again", 5),
    ];
    let cycle = history.prepare(&rows);
    assert_eq!(cycle.items.len(), 5);
    assert_eq!(cycle.pending, vec![1, 2]);
    assert_eq!(history.pending_domains(&cycle.items), vec![1, 2]);
}

#[test]
fn records_of_one_domain_leave_with_the_same_favicon() {
    let mut history = SafariHistory::new("/c".to_string(), None, &vec![]);
    let rows =
        vec![row("One", "https://example.com/one", 8), row("Two", "https://example.com/two", 6)];
    let cycle = history.prepare(&rows);
    assert_eq!(cycle.pending, vec![0]);
    assert_ne!(cycle.items[0].search, cycle.items[1].search);
    let published = history.run(cycle, &vec!["/c/icons/example.com.png".to_string()]);
    assert_eq!(published.items.len(), 2);
    assert_eq!(published.items[0].favicon, "/c/icons/example.com.png");
    assert_eq!(published.items[1].favicon, "/c/icons/example.com.png");
    assert_eq!(published.pause_secs, 300);
    assert_eq!(history.favicon("example.com").as_deref(), Some("/c/icons/example.com.png"));
    let bytes = published.cache_bytes.unwrap();
    let loaded = SafariHistory::new("/c".to_string(), Some(&bytes), &vec![]);
    assert_eq!(loaded.favicon("example.com").as_deref(), Some("/c/icons/example.com.png"));

    let mut server = Server::new("/c".to_string());
    server.update_items(&published.items);
    let items = server.search(Some("regex"), Some("example")).unwrap();
    assert_eq!(items.len(), 2);
    assert_eq!(items[0].icon.as_deref(), Some("/c/icons/example.com.png"));
    assert_eq!(items[1].icon.as_deref(), Some("/c/icons/example.com.png"));

    let again = history.prepare(&rows);
    assert!(again.pending.is_empty());
}

#[test]
fn a_record_without_an_icon_keeps_the_default() {
    let mut history = SafariHistory::new("/c".to_string(), None, &vec![]);
    let rows =
        vec![row("One", "https://example.com/", 8), row("Other", "https://example.org/", 6)];
    let cycle = history.prepare(&rows);
    assert_eq!(cycle.pending, vec![0, 1]);
    let published = history.run(cycle, &vec!["/c/icons/example.com.png".to_string()]);
    assert_eq!(published.items[0].favicon, "/c/icons/example.com.png");
    assert_eq!(published.items[1].favicon, DEFAULT_ICON);
    assert_eq!(history.favicon("example.org"), None);
}

#[test]
fn the_first_icon_that_is_large_enough_is_chosen() {
    let icons = vec![
        icon(16, 16, Some("png"), Some(&[1])),
        icon(64, 63, Some("png"), Some(&[2])),
        icon(64, 64, Some("png"), Some(&[3])),
        icon(128, 128, Some("png"), Some(&[4])),
    ];
    assert_eq!(select_icon(&icons), Some(2));
    assert_eq!(select_icon(&icons[..2].iter().map(|i| icon(i.width, i.height, None, None)).collect()), None);
    assert_eq!(select_icon(&vec![]), None);
}

#[test]
fn a_planned_icon_is_written_to_the_icon_path_of_the_domain() {
    let history = SafariHistory::new("/c".to_string(), None, &vec![]);
    let icons = vec![
        icon(32, 32, Some("png"), Some(&[9, 9])),
        icon(64, 64, Some("x-icon"), Some(&[1, 2, 3])),
        icon(96, 96, Some("png"), Some(&[4, 5, 6])),
    ];
    let plan = history.plan_favicon("example.com", &icons);
    let planned = plan.as_ref().unwrap();
    assert_eq!(planned.path, "/c/icons/example.com.ico");
    assert_eq!(planned.contents, vec![1, 2, 3]);
    assert_eq!(history.download_favicon(&plan, true), "/c/icons/example.com.ico");
    assert_eq!(history.download_favicon(&plan, false), DEFAULT_ICON);
}

#[test]
fn every_failure_to_plan_an_icon_names_the_domain() {
    let history = SafariHistory::new("/c".to_string(), None, &vec![]);

    let none = history.plan_favicon("example.com", &vec![]);
    let error = none.as_ref().unwrap_err();
    assert_eq!(error.kind, ErrorKind::NoIcon);
    assert_eq!(error.context, "example.com");
    assert_eq!(error.message(), "No icon was found: 'example.com'");
    assert_eq!(history.download_favicon(&none, true), DEFAULT_ICON);

    let small = history.plan_favicon("example.com", &vec![icon(63, 64, Some("png"), Some(&[1]))]);
    assert_eq!(small.unwrap_err().kind, ErrorKind::NoIcon);

    let unfetched = history.plan_favicon("example.com", &vec![icon(64, 64, Some("png"), None)]);
    let error = unfetched.unwrap_err();
    assert_eq!(error.kind, ErrorKind::EmptyIcon);
    assert_eq!(error.message(), "An empty icon was downloaded: 'example.com'");

    let empty = history.plan_favicon("example.com", &vec![icon(64, 64, Some("png"), Some(&[]))]);
    assert_eq!(empty.unwrap_err().kind, ErrorKind::EmptyIcon);

    let untyped = history.plan_favicon("example.com", &vec![icon(64, 64, None, Some(&[1]))]);
    let error = untyped.as_ref().unwrap_err();
    assert_eq!(error.kind, ErrorKind::NoMimetype);
    assert_eq!(error.message(), "The icon has no detected mimetype: 'example.com'");
    assert_eq!(history.download_favicon(&untyped, true), DEFAULT_ICON);
}
