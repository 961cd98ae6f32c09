//! The search index: an `fst::Map` from search keys to scores, built once
//! from sorted entries and then only searched.

use vstd::prelude::*;
use vstd::string::*;
use vstd::utf8::is_ascii_chars;
use crate::errors::HistoryError;
use crate::errors::ErrorKind;
use crate::text::key_lt;

verus! {

/// `fst::Map`, the index: an ordered map from byte strings to numbers that
/// is built once and never changed.
#[verifier::external_type_specification]
#[verifier::external_body]
pub struct ExIndexMap(fst::Map);

/// `fst::Error`: why an index could not be built or read.
#[verifier::external_type_specification]
#[verifier::external_body]
pub struct ExIndexError(fst::Error);

/// `fst_regex::Error`: why a pattern was refused.
#[verifier::external_type_specification]
#[verifier::external_body]
pub struct ExRegexError(fst_regex::Error);

/// `fst_levenshtein::Error`: why an edit-distance automaton was refused.
#[verifier::external_type_specification]
#[verifier::external_body]
pub struct ExLevenshteinError(fst_levenshtein::Error);

/// The entries of an index whose keys are text, in the order in which the
/// index streams them: ascending by the bytes of the key.
pub uninterp spec fn index_entries(index: fst::Map) -> Seq<(Seq<char>, u64)>;

/// Whether every key of an index is text, that is valid UTF-8.
pub uninterp spec fn index_is_text(index: fst::Map) -> bool;

/// The keys that the automaton of `fst_regex::Regex::new` accepts for a
/// pattern, or nothing where the pattern is refused.
pub uninterp spec fn regex_language(pattern: Seq<char>) -> Option<Set<Seq<char>>>;

/// The keys that the automaton of `fst_levenshtein::Levenshtein::new`
/// accepts for a query and a distance, or nothing where the automaton is
/// refused as too large.
pub uninterp spec fn levenshtein_language(query: Seq<char>, distance: u32) -> Option<
    Set<Seq<char>>,
>;

/// Entries as texts and scores.
pub open spec fn pairs_of(entries: Seq<(String, u64)>) -> Seq<(Seq<char>, u64)> {
    entries.map_values(|e: (String, u64)| (e.0@, e.1))
}

/// The keys ascend strictly in the byte order.
pub open spec fn strictly_ascending(entries: Seq<(Seq<char>, u64)>) -> bool {
    forall|i: int, j: int|
        #![trigger entries[i], entries[j]]
        0 <= i < j < entries.len() ==> key_lt(entries[i].0, entries[j].0)
}

/// The entries whose key is in `language`, in their order.
pub open spec fn accepted(entries: Seq<(Seq<char>, u64)>, language: Set<Seq<char>>) -> Seq<
    (Seq<char>, u64),
> {
    entries.filter(|e: (Seq<char>, u64)| language.contains(e.0))
}

/// The least of three numbers.
pub open spec fn least(a: nat, b: nat, c: nat) -> nat {
    if a <= b && a <= c {
        a
    } else if b <= c {
        b
    } else {
        c
    }
}

/// The edit distance of two texts: the least number of characters to
/// insert, delete or replace to turn one into the other.
pub open spec fn edit_distance(a: Seq<char>, b: Seq<char>) -> nat
    decreases a.len() + b.len(),
{
    if a.len() == 0 {
        b.len()
    } else if b.len() == 0 {
        a.len()
    } else {
        least(
            edit_distance(a.drop_last(), b) + 1,
            edit_distance(a, b.drop_last()) + 1,
            edit_distance(a.drop_last(), b.drop_last()) + if a.last() == b.last() {
                0nat
            } else {
                1nat
            },
        )
    }
}

/// The keys within `distance` edits of `query`.
pub open spec fn within_distance(query: Seq<char>, distance: u32) -> Set<Seq<char>> {
    Set::new(|key: Seq<char>| edit_distance(query, key) <= distance)
}

/// Why a search gave no hits.
#[derive(Debug)]
pub enum SearchFailure {
    /// The pattern was refused.
    Regex(fst_regex::Error),
    /// The edit-distance automaton was refused.
    Levenshtein(fst_levenshtein::Error),
    /// The index could not be read.
    Index(fst::Error),
}

/// `fst::Map::from_iter` on the entries. It succeeds exactly when the keys
/// ascend strictly in the byte order, and the index then holds the entries
/// as given.
#[verifier::external_body]
pub(crate) fn build_index(entries: &Vec<(String, u64)>) -> (r: Result<fst::Map, fst::Error>)
    ensures
        match r {
            Ok(index) => {
                &&& strictly_ascending(pairs_of(entries@))
                &&& index_is_text(index)
                &&& index_entries(index) == pairs_of(entries@)
            },
            Err(_) => !strictly_ascending(pairs_of(entries@)),
        },
{
    fst::Map::from_iter(entries.iter().map(|e| (e.0.as_str(), e.1)))
}

/// `fst_levenshtein::Levenshtein::new` for the query and the distance, then
/// `fst::Map::search` with that automaton, streamed into `into_str_vec`.
/// The hits are the entries that the automaton accepts, in the order of the
/// index. For a query of ASCII characters the automaton accepts exactly the
/// keys within the distance; of other queries this is not claimed. The
/// search fails where the automaton is refused, and else only on a key that
/// is no text.
#[verifier::external_body]
pub(crate) fn fuzzy_hits(index: &fst::Map, query: &str, distance: u32) -> (r: Result<
    Vec<(String, u64)>,
    SearchFailure,
>)
    ensures
        match r {
            Ok(hits) => match levenshtein_language(query@, distance) {
                Some(language) => {
                    &&& pairs_of(hits@) == accepted(index_entries(*index), language)
                    &&& is_ascii_chars(query@) ==> language == within_distance(query@, distance)
                },
                None => false,
            },
            Err(SearchFailure::Levenshtein(_)) => levenshtein_language(query@, distance) is None,
            Err(SearchFailure::Index(_)) => !index_is_text(*index),
            Err(SearchFailure::Regex(_)) => false,
        },
{
    let automaton = match fst_levenshtein::Levenshtein::new(query, distance) {
        Ok(automaton) => automaton,
        Err(e) => return Err(SearchFailure::Levenshtein(e)),
    };
    match fst::IntoStreamer::into_stream(index.search(automaton)).into_str_vec() {
        Ok(hits) => Ok(hits),
        Err(e) => Err(SearchFailure::Index(e)),
    }
}

/// `fst_regex::Regex::new` for the pattern, then `fst::Map::search` with
/// that automaton, streamed into `into_str_vec`. The hits are the entries
/// that the automaton accepts, in the order of the index. The search fails
/// where the pattern is refused, and else only on a key that is no text.
#[verifier::external_body]
pub(crate) fn regex_hits(index: &fst::Map, pattern: &str) -> (r: Result<
    Vec<(String, u64)>,
    SearchFailure,
>)
    ensures
        match r {
            Ok(hits) => match regex_language(pattern@) {
                Some(language) => pairs_of(hits@) == accepted(index_entries(*index), language),
                None => false,
            },
            Err(SearchFailure::Regex(_)) => regex_language(pattern@) is None,
            Err(SearchFailure::Index(_)) => !index_is_text(*index),
            Err(SearchFailure::Levenshtein(_)) => false,
        },
{
    let automaton = match fst_regex::Regex::new(pattern) {
        Ok(automaton) => automaton,
        Err(e) => return Err(SearchFailure::Regex(e)),
    };
    match fst::IntoStreamer::into_stream(index.search(automaton)).into_str_vec() {
        Ok(hits) => Ok(hits),
        Err(e) => Err(SearchFailure::Index(e)),
    }
}

/// An `fst::Error` as text: what its `Display` writes, and the same of
/// the error that `cause` names, if it names one. Nothing is claimed of the
/// texts.
#[verifier::external_body]
#[allow(deprecated)]
pub(crate) fn index_error_text(e: &fst::Error) -> (r: (String, Option<String>)) {
    let cause = match std::error::Error::cause(e) {
        Some(c) => Some(c.to_string()),
        None => None,
    };
    (e.to_string(), cause)
}

/// An `fst_regex::Error` as text: what its `Display` writes, and the same
/// of the error that `cause` names, if it names one. Nothing is claimed of
/// the texts.
#[verifier::external_body]
#[allow(deprecated)]
pub(crate) fn regex_error_text(e: &fst_regex::Error) -> (r: (String, Option<String>)) {
    let cause = match std::error::Error::cause(e) {
        Some(c) => Some(c.to_string()),
        None => None,
    };
    (e.to_string(), cause)
}

/// An `fst_levenshtein::Error` as text: what its `Display` writes, and
/// the same of the error that `cause` names, if it names one. Nothing is
/// claimed of the texts.
#[verifier::external_body]
#[allow(deprecated)]
pub(crate) fn levenshtein_error_text(e: &fst_levenshtein::Error) -> (r: (String, Option<String>)) {
    let cause = match std::error::Error::cause(e) {
        Some(c) => Some(c.to_string()),
        None => None,
    };
    (e.to_string(), cause)
}

/// The kind of error that a failed search is reported as.
pub open spec fn kind_of(failure: SearchFailure) -> ErrorKind {
    match failure {
        SearchFailure::Regex(_) => ErrorKind::Regex,
        SearchFailure::Levenshtein(_) => ErrorKind::Levenshtein,
        SearchFailure::Index(_) => ErrorKind::Fst,
    }
}

/// Reports a failed search as an error of the library: the kind says what
/// failed, the context is the message of the failure.
pub fn report(failure: &SearchFailure) -> (r: HistoryError)
    ensures
        r.kind == kind_of(*failure),
{
    match failure {
        SearchFailure::Regex(e) => {
            let (context, cause) = regex_error_text(e);
            HistoryError { kind: ErrorKind::Regex, context, cause }
        },
        SearchFailure::Levenshtein(e) => {
            let (context, cause) = levenshtein_error_text(e);
            HistoryError { kind: ErrorKind::Levenshtein, context, cause }
        },
        SearchFailure::Index(e) => {
            let (context, cause) = index_error_text(e);
            HistoryError { kind: ErrorKind::Fst, context, cause }
        },
    }
}

} // verus!
