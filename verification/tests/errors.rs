use safari_history::errors::ErrorKind;
use safari_history::errors::HistoryError;
use safari_history::index::report;
use safari_history::index::SearchFailure;

fn all_kinds() -> Vec<(ErrorKind, &'static str)> {
    vec![
        (ErrorKind::Fst, "The index could not be built or read"),
        (ErrorKind::Regex, "The regular expression was refused"),
        (ErrorKind::Levenshtein, "The fuzzy query was refused"),
        (ErrorKind::ParseURL, "The URL could not be parsed"),
        (ErrorKind::WriteIcon, "The icon could not be written"),
        (ErrorKind::Glob, "The icon directory could not be read"),
        (ErrorKind::ParsePattern, "The file name pattern was refused"),
        (ErrorKind::EmptyIcon, "An empty icon was downloaded"),
        (ErrorKind::NoIcon, "No icon was found"),
        (ErrorKind::NoMimetype, "The icon has no detected mimetype"),
    ]
}

fn names_domain(kind: ErrorKind) -> bool {
    matches!(kind, ErrorKind::EmptyIcon | ErrorKind::NoIcon | ErrorKind::NoMimetype)
}

#[test]
fn every_kind_has_its_description() {
    for (kind, description) in all_kinds() {
        let error = HistoryError::new(kind, "context".to_string());
        assert_eq!(error.kind, kind);
        assert_eq!(error.description(), description);
    }
}

#[test]
fn an_icon_error_names_the_domain_and_a_wrapped_error_its_message() {
    for (kind, description) in all_kinds() {
        let error = HistoryError::new(kind, "example.com".to_string());
        if names_domain(kind) {
            assert_eq!(error.message(), format!("{}: 'example.com'", description));
        } else {
            assert_eq!(error.message(), "example.com");
        }
    }
}

#[test]
fn the_chain_lists_the_message_and_its_cause() {
    let plain = HistoryError::new(ErrorKind::NoIcon, "example.com".to_string());
    assert_eq!(plain.display_chain(), "Error: No icon was found: 'example.com'\n");
    let caused = HistoryError {
        kind: ErrorKind::WriteIcon,
        context: "could not create the file".to_string(),
        cause: Some("the disk is full".to_string()),
    };
    assert_eq!(
        caused.display_chain(),
        "Error: could not create the file\nCaused by: the disk is full\n"
    );
}

#[test]
fn every_kind_is_reported_as_one_item() {
    for (kind, description) in all_kinds() {
        let error = HistoryError {
            kind,
            context: "what happened".to_string(),
            cause: Some("why".to_string()),
        };
        let item = error.to_item();
        assert_eq!(item.title, description);
        assert_eq!(item.subtitle, Some(error.message()));
        assert_eq!(item.autocomplete, Some(error.message()));
        assert_eq!(item.text_copy, Some(error.display_chain()));
        assert_eq!(item.text_large_type, Some(error.display_chain()));
        assert_eq!(item.uid, None);
        assert_eq!(item.arg, None);
        assert_eq!(item.icon, None);
        assert_eq!(item.quicklook_url, None);
        assert_eq!(item.score, None);
        assert!(item.alternate.is_none());
    }
}

#[test]
fn an_error_is_copied_whole() {
    let error = HistoryError {
        kind: ErrorKind::Regex,
        context: "bad pattern".to_string(),
        cause: Some("unclosed group".to_string()),
    };
    let copy = error.clone();
    assert_eq!(copy.kind, ErrorKind::Regex);
    assert_eq!(copy.context, "bad pattern");
    assert_eq!(copy.cause.as_deref(), Some("unclosed group"));
}

#[test]
fn a_failed_search_is_reported_with_the_message_of_its_cause() {
    let out_of_order = fst::Map::from_iter(vec![("b", 1), ("a", 2)]).unwrap_err();
    let expected = out_of_order.to_string();
    let error = report(&SearchFailure::Index(out_of_order));
    assert_eq!(error.kind, ErrorKind::Fst);
    assert_eq!(error.context, expected);
    assert!(!error.context.is_empty());
    assert_eq!(error.description(), "The index could not be built or read");

    let unclosed = fst_regex::Regex::new("(").unwrap_err();
    let expected = unclosed.to_string();
    let error = report(&SearchFailure::Regex(unclosed));
    assert_eq!(error.kind, ErrorKind::Regex);
    assert_eq!(error.context, expected);
    assert_eq!(error.cause, Some(expected));

    let too_large = fst_levenshtein::Levenshtein::new("a query of many letters", 10).unwrap_err();
    let error = report(&SearchFailure::Levenshtein(too_large));
    assert_eq!(error.kind, ErrorKind::Levenshtein);
    assert_eq!(error.context, "Levenshtein automaton exceeds size limit of 10000 states");
    assert_eq!(error.cause, None);
}
