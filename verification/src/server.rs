//! The query engine: the index and the item store of the latest snapshot,
//! rebuilt as one and queried as one.

use vstd::prelude::*;
use vstd::string::*;
use vstd::hash_map::StringHashMap;
use vstd::pervasive::unreached;
use vstd::utf8::is_ascii_chars;
use crate::errors::error_item_of;
use crate::errors::ErrorKind;
use crate::errors::HistoryError;
use crate::index::accepted;
use crate::index::edit_distance;
use crate::index::build_index;
use crate::index::fuzzy_hits;
use crate::index::index_entries;
use crate::index::index_is_text;
use crate::index::levenshtein_language;
use crate::index::pairs_of;
use crate::index::regex_hits;
use crate::index::regex_language;
use crate::index::report;
use crate::index::within_distance;
use crate::item::AlternateAction;
use crate::item::AlternateActionView;
use crate::item::DisplayItem;
use crate::item::DisplayItemView;
use crate::item::text_opt;
use crate::rank::lemma_top_ranking;
use crate::rank::rank_top;
use crate::rank::scores_of;
use crate::rank::top_ranking;
use crate::snapshot::attained;
use crate::snapshot::attains;
use crate::snapshot::index_entries_for;
use crate::snapshot::is_index_of;
use crate::snapshot::key_at;
use crate::snapshot::lemma_index_unique;
use crate::text::bytes_of;
use crate::text::replace_all;
use crate::text::replace_text;
use crate::text::same_text;
use crate::util::join_path;
use crate::util::joined;
use crate::util::HistoryItem;
use crate::util::HistoryItemView;
use crate::util::DEFAULT_ICON;
use crate::util::ICONS_DIR;

verus! {

/// The search type that asks for a regular expression; every other asks
/// for a fuzzy search.
pub const SEARCH_TYPE_REGEX: &'static str = "regex";

/// The query of a request that names none.
pub const DEFAULT_QUERY: &'static str = "*";

pub const GOOGLE_SEARCH_URL: &'static str = "https://google.com/search";

pub const GOOGLE_FEELING_LUCKY_URL: &'static str = "https://www.google.com/webhp?#btnI=I";

pub const SEARCH_WITH_GOOGLE: &'static str = "Search with Google";

pub const IM_FEELING_LUCKY: &'static str = "I'm feeling lucky!";

/// What stands before the query in the search URL.
pub const FIRST_PARAMETER: &'static str = "?q=";

/// What stands before the query in the first-result URL.
pub const NEXT_PARAMETER: &'static str = "&q=";

/// The icon file of the fallback item, in the icon directory.
pub const SEARCH_ICON: &'static str = "google.com.ico";

/// The pattern that matches any run of characters.
pub const ANYTHING: &'static str = ".*";

/// How a space arrives in a query.
pub const ENCODED_SPACE: &'static str = "%20";

/// The greatest edit distance at which a fuzzy query still matches.
pub const MAX_DISTANCE: u32 = 10;

/// The greatest number of items in an answer.
pub const MAX_RESULTS: usize = 20;

/// The display form of a record.
pub open spec fn display_of(record: HistoryItemView) -> DisplayItemView {
    DisplayItemView {
        title: record.title,
        subtitle: Some(record.url),
        autocomplete: Some(record.title),
        uid: Some(record.url),
        arg: Some(record.url),
        icon: Some(record.favicon),
        text_copy: Some(record.url),
        text_large_type: Some(record.url),
        quicklook_url: Some(record.url),
        score: Some(record.score),
        alternate: None,
    }
}

/// The URL that searches the web for `query`.
pub open spec fn search_url_of(query: Seq<char>) -> Seq<char> {
    GOOGLE_SEARCH_URL@ + FIRST_PARAMETER@ + query
}

/// The URL that goes to the first result of a web search for `query`.
pub open spec fn lucky_url_of(query: Seq<char>) -> Seq<char> {
    GOOGLE_FEELING_LUCKY_URL@ + NEXT_PARAMETER@ + query
}

/// The item that stands in when nothing is found: it carries the query,
/// searches the web for it, and with the alternate key goes to the first
/// result.
pub open spec fn fallback_of(cache_dir: Seq<char>, query: Seq<char>) -> DisplayItemView {
    DisplayItemView {
        title: query,
        subtitle: Some(SEARCH_WITH_GOOGLE@),
        autocomplete: None,
        uid: None,
        arg: Some(search_url_of(query)),
        icon: Some(joined(joined(cache_dir, ICONS_DIR@), SEARCH_ICON@)),
        text_copy: Some(query),
        text_large_type: Some(query),
        quicklook_url: Some(search_url_of(query)),
        score: None,
        alternate: Some(
            AlternateActionView {
                arg: lucky_url_of(query),
                subtitle: IM_FEELING_LUCKY@,
                icon: DEFAULT_ICON@,
            },
        ),
    }
}

/// The pattern that a regular-expression query is compiled from: the
/// query with every encoded space turned into a gap of any characters, and
/// such a gap before and after it.
pub open spec fn pattern_of(query: Seq<char>) -> Seq<char> {
    ANYTHING@ + replace_all(query, ENCODED_SPACE@, ANYTHING@) + ANYTHING@
}

/// The keys that a query matches, by its mode, or nothing where the query
/// is refused.
pub open spec fn language_of(regex: bool, query: Seq<char>) -> Option<Set<Seq<char>>> {
    if regex {
        regex_language(pattern_of(query))
    } else {
        levenshtein_language(query, MAX_DISTANCE)
    }
}

/// Whether a request asks for a regular expression.
pub open spec fn asks_regex(search_type: Option<&str>) -> bool {
    match search_type {
        Some(t) => t@ == SEARCH_TYPE_REGEX@,
        None => false,
    }
}

/// The query of a request.
pub open spec fn query_of(query: Option<&str>) -> Seq<char> {
    match query {
        Some(q) => q@,
        None => DEFAULT_QUERY@,
    }
}

/// The scores of entries, in their order.
pub open spec fn pair_scores(hits: Seq<(Seq<char>, u64)>) -> Seq<u64> {
    hits.map_values(|h: (Seq<char>, u64)| h.1)
}

/// The item that the store holds for the hit at position `at`, if it holds
/// one.
pub open spec fn lookup(
    items: Map<Seq<char>, DisplayItemView>,
    hits: Seq<(Seq<char>, u64)>,
    at: usize,
) -> Option<DisplayItemView> {
    if items.contains_key(hits[at as int].0) {
        Some(items[hits[at as int].0])
    } else {
        None
    }
}

/// Looking up the hit at a position.
pub open spec fn lookup_in(
    items: Map<Seq<char>, DisplayItemView>,
    hits: Seq<(Seq<char>, u64)>,
) -> spec_fn(usize) -> Option<DisplayItemView> {
    |at: usize| lookup(items, hits, at)
}

/// The items of the hits at the positions `top`, in that order, without
/// those that the store does not hold.
pub open spec fn resolved(
    items: Map<Seq<char>, DisplayItemView>,
    hits: Seq<(Seq<char>, u64)>,
    top: Seq<usize>,
) -> Seq<DisplayItemView> {
    top.filter_map(lookup_in(items, hits))
}

/// The items of the best hits: the hits ranked, the first `MAX_RESULTS` of
/// them kept, and each looked up in the store.
pub open spec fn items_of(items: Map<Seq<char>, DisplayItemView>, hits: Seq<(Seq<char>, u64)>) -> Seq<
    DisplayItemView,
> {
    resolved(items, hits, top_ranking(pair_scores(hits), MAX_RESULTS as nat))
}

/// What a server holds: the entries of its index in key order, the items
/// of its store by search key, and the length in bytes of the longest key.
pub struct ServerView {
    pub entries: Seq<(Seq<char>, u64)>,
    pub items: Map<Seq<char>, DisplayItemView>,
    pub max_key_length: nat,
}

/// What is answered to a query that matches the keys of `language`: the
/// items of the best hits, or the fallback item alone where there are none.
pub open spec fn answer_of(
    view: ServerView,
    cache_dir: Seq<char>,
    language: Set<Seq<char>>,
    query: Seq<char>,
) -> Seq<DisplayItemView> {
    let found = items_of(view.items, accepted(view.entries, language));
    if found.len() == 0 {
        seq![fallback_of(cache_dir, query)]
    } else {
        found
    }
}

/// The record at `i` is the first with its search key.
pub open spec fn is_first(records: Seq<HistoryItem>, i: int) -> bool {
    forall|j: int| 0 <= j < i ==> #[trigger] key_at(records, j) != key_at(records, i)
}

/// The record at `i` is one of the first `n` and has the search key `key`.
pub open spec fn holds_key(records: Seq<HistoryItem>, n: int, i: int, key: Seq<char>) -> bool {
    0 <= i < n && key_at(records, i) == key
}

/// One of the first `n` records has the search key `key`.
pub open spec fn has_key(records: Seq<HistoryItem>, n: int, key: Seq<char>) -> bool {
    exists|i: int| #[trigger] holds_key(records, n, i, key)
}

/// `items` is the store for the first `n` records: it holds an item for
/// each of their search keys, the display form of the first record that has
/// the key.
pub open spec fn is_store_of(
    items: Map<Seq<char>, DisplayItemView>,
    records: Seq<HistoryItem>,
    n: int,
) -> bool {
    &&& forall|key: Seq<char>| #[trigger] items.contains_key(key) <==> has_key(records, n, key)
    &&& forall|i: int|
        0 <= i < n && #[trigger] is_first(records, i) ==> items.contains_key(key_at(records, i))
            && items[key_at(records, i)] == display_of(records[i]@)
}

/// The length in bytes of the search key of the record at `i`.
pub open spec fn key_length(records: Seq<HistoryItem>, i: int) -> nat {
    bytes_of(key_at(records, i)).len()
}

/// `longest` is the length of the longest search key among the first `n`
/// records, and 0 where there is none.
pub open spec fn is_longest_key(records: Seq<HistoryItem>, n: int, longest: nat) -> bool {
    &&& forall|i: int| 0 <= i < n ==> #[trigger] key_length(records, i) <= longest
    &&& longest == 0 || exists|i: int| 0 <= i < n && #[trigger] key_length(records, i) == longest
}

/// `view` is the snapshot of `records`: index, store and longest key are
/// all made from these records, and from no others.
pub open spec fn is_snapshot_of(view: ServerView, records: Seq<HistoryItem>) -> bool {
    &&& is_index_of(view.entries, records)
    &&& is_store_of(view.items, records, records.len() as int)
    &&& is_longest_key(records, records.len() as int, view.max_key_length)
}

/// Display items as what they hold.
pub open spec fn views_of(items: Seq<DisplayItem>) -> Seq<DisplayItemView> {
    items.map_values(|item: DisplayItem| item@)
}

/// The index and the item store of the latest snapshot. Both are replaced
/// together: who holds a server sees the two of one rebuild. To share a
/// server between threads, keep it behind one lock: a rebuild then has it
/// alone, and no query ever sees a rebuild half done.
pub struct Server {
    cache_dir: String,
    index: fst::Map,
    items: StringHashMap<DisplayItem>,
    max_key_length: usize,
    records: Ghost<Seq<HistoryItem>>,
}

impl View for Server {
    type V = ServerView;

    closed spec fn view(&self) -> ServerView {
        ServerView {
            entries: index_entries(self.index),
            items: self.items@.map_values(|item: DisplayItem| item@),
            max_key_length: self.max_key_length as nat,
        }
    }
}

/// The pattern for a regular-expression query.
pub fn regex_pattern(query: &str) -> (r: String)
    ensures
        r@ == pattern_of(query@),
{
    let mut pattern = ANYTHING.to_string();
    let gaps = replace_text(query, ENCODED_SPACE, ANYTHING);
    pattern.append(gaps.as_str());
    pattern.append(ANYTHING);
    pattern
}

/// The item that stands in when nothing is found.
pub fn fallback_item(cache_dir: &str, query: &str) -> (r: DisplayItem)
    ensures
        r@ == fallback_of(cache_dir@, query@),
{
    let mut search_url = GOOGLE_SEARCH_URL.to_string();
    search_url.append(FIRST_PARAMETER);
    search_url.append(query);
    let mut lucky_url = GOOGLE_FEELING_LUCKY_URL.to_string();
    lucky_url.append(NEXT_PARAMETER);
    lucky_url.append(query);
    let icons = join_path(cache_dir, ICONS_DIR);
    DisplayItem {
        title: query.to_string(),
        subtitle: Some(SEARCH_WITH_GOOGLE.to_string()),
        autocomplete: None,
        uid: None,
        arg: Some(search_url.clone()),
        icon: Some(join_path(icons.as_str(), SEARCH_ICON)),
        text_copy: Some(query.to_string()),
        text_large_type: Some(query.to_string()),
        quicklook_url: Some(search_url),
        score: None,
        alternate: Some(
            AlternateAction {
                arg: lucky_url,
                subtitle: IM_FEELING_LUCKY.to_string(),
                icon: DEFAULT_ICON.to_string(),
            },
        ),
    }
}

/// The item reports an error of the given kind.
pub open spec fn reports(item: DisplayItemView, kind: ErrorKind) -> bool {
    exists|context: Seq<char>, cause: Option<Seq<char>>| #[trigger]
        error_item_of(kind, context, cause) == item
}

/// What a request is answered with, whatever became of the search: the
/// items where it succeeded, and one item that reports the error where it
/// failed.
pub open spec fn envelope_of(outcome: Result<Vec<DisplayItem>, HistoryError>) -> Seq<
    DisplayItemView,
> {
    match outcome {
        Ok(items) => views_of(items@),
        Err(e) => seq![error_item_of(e.kind, e.context@, text_opt(e.cause))],
    }
}

/// Puts the outcome of a search into the one shape that requests are
/// answered in.
pub fn envelope(outcome: Result<Vec<DisplayItem>, HistoryError>) -> (r: Vec<DisplayItem>)
    ensures
        views_of(r@) == envelope_of(outcome),
{
    match outcome {
        Ok(items) => items,
        Err(e) => {
            let mut items: Vec<DisplayItem> = Vec::new();
            let item = e.to_item();
            items.push(item);
            items
        },
    }
}

impl Server {
    /// At every moment the server holds the snapshot of one list of
    /// records, whole: its index holds text, and index, store and longest key
    /// are all made from the records it was last rebuilt from.
    #[verifier::type_invariant]
    spec fn wf(&self) -> bool {
        &&& index_is_text(self.index)
        &&& self.entries_fit()
        &&& is_snapshot_of(self@, self.records@)
    }

    /// The index holds no more entries than a vector can.
    spec fn entries_fit(&self) -> bool {
        index_entries(self.index).len() <= usize::MAX
    }

    /// The records that the server was last rebuilt from.
    pub closed spec fn records(&self) -> Seq<HistoryItem> {
        self.records@
    }

    /// The cache directory, below which the icon of the fallback item lies.
    pub closed spec fn cache_dir(&self) -> Seq<char> {
        self.cache_dir@
    }

    /// A server without records, for the given cache directory.
    pub fn new(cache_dir: String) -> (r: Server)
        ensures
            r.cache_dir() == cache_dir@,
            r.records() == Seq::<HistoryItem>::empty(),
            is_snapshot_of(r@, r.records()),
    {
        let none: Vec<(String, u64)> = Vec::new();
        let index = match build_index(&none) {
            Ok(index) => index,
            Err(_) => unreached(),
        };
        let items: StringHashMap<DisplayItem> = StringHashMap::new();
        Server { cache_dir, index, items, max_key_length: 0, records: Ghost(Seq::empty()) }
    }

    /// The display form of a record.
    pub fn get_alfred_item(&self, item: HistoryItem) -> (r: DisplayItem)
        ensures
            r@ == display_of(item@),
    {
        DisplayItem {
            title: item.title.clone(),
            subtitle: Some(item.url.clone()),
            autocomplete: Some(item.title),
            uid: Some(item.url.clone()),
            arg: Some(item.url.clone()),
            icon: Some(item.favicon),
            text_copy: Some(item.url.clone()),
            text_large_type: Some(item.url.clone()),
            quicklook_url: Some(item.url),
            score: Some(item.score),
            alternate: None,
        }
    }

    /// Replaces index, store and longest key by those of a new snapshot.
    /// Of records with the same search key the index keeps the highest
    /// score, and the store the display form of the first.
    pub fn update_items(&mut self, history_items: &Vec<HistoryItem>)
        ensures
            final(self).cache_dir() == old(self).cache_dir(),
            final(self).records() == history_items@,
            is_snapshot_of(final(self)@, final(self).records()),
    {
        let entries = index_entries_for(history_items);
        let index = match build_index(&entries) {
            Ok(index) => index,
            Err(_) => unreached(),
        };
        let mut items: StringHashMap<DisplayItem> = StringHashMap::new();
        let mut longest: usize = 0;
        let mut n: usize = 0;
        let ghost records = history_items@;
        while n < history_items.len()
            invariant
                records == history_items@,
                n <= records.len(),
                is_store_of(items@.map_values(|item: DisplayItem| item@), records, n as int),
                is_longest_key(records, n as int, longest as nat),
            decreases history_items.len() - n,
        {
            let item = &history_items[n];
            let length = item.search.as_str().as_bytes().len();
            let ghost key = key_at(records, n as int);
            let ghost before = items@.map_values(|item: DisplayItem| item@);
            assert(before.contains_key(key) <==> items@.contains_key(key));
            if length > longest {
                longest = length;
            }
            proof {
                assert(key_length(records, n as int) == length);
            }
            if !items.contains_key(item.search.as_str()) {
                let shown = self.get_alfred_item(item.clone());
                items.insert(item.search.clone(), shown);
                proof {
                    let after = items@.map_values(|item: DisplayItem| item@);
                    assert forall|k: Seq<char>| #[trigger]
                        after.contains_key(k) <==> has_key(records, n + 1, k) by {
                        if has_key(records, n + 1, k) {
                            let i = choose|i: int| #[trigger] holds_key(records, n + 1, i, k);
                            if i < n {
                                assert(holds_key(records, n as int, i, k));
                            }
                        }
                        if before.contains_key(k) {
                            let i = choose|i: int| #[trigger] holds_key(records, n as int, i, k);
                            assert(holds_key(records, n + 1, i, k));
                        }
                        if k == key {
                            assert(holds_key(records, n + 1, n as int, k));
                        }
                    }
                }
            } else {
                proof {
                    assert forall|k: Seq<char>| #[trigger]
                        before.contains_key(k) <==> has_key(records, n + 1, k) by {
                        if has_key(records, n + 1, k) {
                            let i = choose|i: int| #[trigger] holds_key(records, n + 1, i, k);
                            if i < n {
                                assert(holds_key(records, n as int, i, k));
                            }
                        }
                        if before.contains_key(k) {
                            let i = choose|i: int| #[trigger] holds_key(records, n as int, i, k);
                            assert(holds_key(records, n + 1, i, k));
                        }
                    }
                }
            }
            n = n + 1;
        }
        proof {
            let view = ServerView {
                entries: index_entries(index),
                items: items@.map_values(|item: DisplayItem| item@),
                max_key_length: longest as nat,
            };
            assert(view.entries.len() == entries.len());
            assert(is_snapshot_of(view, records));
        }
        *self = Server {
            cache_dir: self.cache_dir.clone(),
            index,
            items,
            max_key_length: longest,
            records: Ghost(records),
        };
    }

    /// The items of the best hits: the hits are ranked, the highest score
    /// first and of equal scores the later hit first, the first `MAX_RESULTS`
    /// are kept, and each of these is looked up in the store. A hit that the
    /// store does not hold is left out.
    pub fn get_items(&self, hits: &Vec<(String, u64)>) -> (r: Vec<DisplayItem>)
        ensures
            views_of(r@) == items_of(self@.items, pairs_of(hits@)),
            r@.len() <= MAX_RESULTS,
    {
        let top = rank_top(hits, MAX_RESULTS);
        let ghost pairs = pairs_of(hits@);
        let ghost store = self@.items;
        let ghost find = lookup_in(store, pairs);
        proof {
            assert(scores_of(hits@) =~= pair_scores(pairs));
        }
        let mut found: Vec<DisplayItem> = Vec::new();
        let mut t: usize = 0;
        while t < top.len()
            invariant
                pairs == pairs_of(hits@),
                store == self@.items,
                find == lookup_in(store, pairs),
                t <= top@.len(),
                forall|s: int| 0 <= s < top@.len() ==> 0 <= #[trigger] top@[s] < hits@.len(),
                found@.len() <= t,
                views_of(found@) == top@.take(t as int).filter_map(find),
            decreases top.len() - t,
        {
            let at = top[t];
            proof {
                top@.lemma_filter_map_take_succ(find, t as int);
            }
            match self.items.get(hits[at].0.as_str()) {
                Some(item) => {
                    found.push(item.clone());
                },
                None => {},
            }
            t = t + 1;
        }
        assert(top@.take(top@.len() as int) =~= top@);
        found
    }

    /// Answers a query. The search type `regex` asks for a regular
    /// expression, every other and none for a fuzzy search; a request
    /// without a query asks for `*`. The answer holds the items of the best
    /// hits, or the fallback item alone where nothing is found. A query that
    /// is refused gives the error of its mode. Index and store that the
    /// answer is made from are those of one snapshot.
    pub fn search(&self, search_type: Option<&str>, query: Option<&str>) -> (r: Result<
        Vec<DisplayItem>,
        HistoryError,
    >)
        ensures
            match r {
                Ok(items) => match language_of(asks_regex(search_type), query_of(query)) {
                    Some(language) => views_of(items@) == answer_of(
                        self@,
                        self.cache_dir(),
                        language,
                        query_of(query),
                    ),
                    None => false,
                },
                Err(e) => {
                    &&& language_of(asks_regex(search_type), query_of(query)) is None
                    &&& e.kind == if asks_regex(search_type) {
                        ErrorKind::Regex
                    } else {
                        ErrorKind::Levenshtein
                    }
                },
            },
            r is Ok && !asks_regex(search_type) && is_ascii_chars(query_of(query)) ==> language_of(
                false,
                query_of(query),
            ) == Some(within_distance(query_of(query), MAX_DISTANCE)),
            r matches Ok(items) ==> 1 <= items@.len() <= MAX_RESULTS,
            is_snapshot_of(self@, self.records()),
    {
        proof {
            use_type_invariant(self);
        }
        let query = match query {
            Some(q) => q,
            None => DEFAULT_QUERY,
        };
        let regex = match search_type {
            Some(t) => same_text(t, SEARCH_TYPE_REGEX),
            None => false,
        };
        let outcome = if regex {
            let pattern = regex_pattern(query);
            regex_hits(&self.index, pattern.as_str())
        } else {
            fuzzy_hits(&self.index, query, MAX_DISTANCE)
        };
        let hits = match outcome {
            Ok(hits) => hits,
            Err(failure) => {
                return Err(report(&failure));
            },
        };
        let mut items = self.get_items(&hits);
        if items.len() == 0 {
            items.push(fallback_item(self.cache_dir.as_str(), query));
        }
        Ok(items)
    }

    /// Answers a query as `search` does, and reports a query that is
    /// refused as one item that describes the error: the answer has the same
    /// shape either way.
    pub fn respond(&self, search_type: Option<&str>, query: Option<&str>) -> (r: Vec<DisplayItem>)
        ensures
            match language_of(asks_regex(search_type), query_of(query)) {
                Some(language) => views_of(r@) == answer_of(
                    self@,
                    self.cache_dir(),
                    language,
                    query_of(query),
                ),
                None => r@.len() == 1 && reports(
                    r@[0]@,
                    if asks_regex(search_type) {
                        ErrorKind::Regex
                    } else {
                        ErrorKind::Levenshtein
                    },
                ),
            },
            1 <= r@.len() <= MAX_RESULTS,
            is_snapshot_of(self@, self.records()),
    {
        let outcome = self.search(search_type, query);
        let ghost failed = outcome;
        let r = envelope(outcome);
        proof {
            if let Err(e) = failed {
                assert(views_of(r@)[0] == error_item_of(e.kind, e.context@, text_opt(e.cause)));
            }
            assert(views_of(r@).len() == r@.len());
        }
        r
    }

    /// The length in bytes of the longest search key of the snapshot.
    pub fn max_key_length(&self) -> (r: usize)
        ensures
            r == self@.max_key_length,
    {
        self.max_key_length
    }
}

/// Of the records that have a key, one is the first.
proof fn lemma_first_exists(records: Seq<HistoryItem>, n: int, key: Seq<char>) -> (i: int)
    requires
        has_key(records, n, key),
    ensures
        holds_key(records, n, i, key),
        is_first(records, i),
    decreases n,
{
    let some = choose|i: int| #[trigger] holds_key(records, n, i, key);
    if exists|j: int| #[trigger] holds_key(records, some, j, key) {
        lemma_first_exists(records, some, key)
    } else {
        assert forall|j: int| 0 <= j < some implies #[trigger] key_at(records, j) != key_at(
            records,
            some,
        ) by {
            if key_at(records, j) == key {
                assert(holds_key(records, some, j, key));
            }
        }
        some
    }
}

/// The records determine their store.
pub proof fn lemma_store_unique(
    a: Map<Seq<char>, DisplayItemView>,
    b: Map<Seq<char>, DisplayItemView>,
    records: Seq<HistoryItem>,
    n: int,
)
    requires
        is_store_of(a, records, n),
        is_store_of(b, records, n),
    ensures
        a == b,
{
    assert forall|key: Seq<char>| a.contains_key(key) implies #[trigger] b.contains_key(key)
        && a[key] == b[key] by {
        lemma_first_exists(records, n, key);
    }
}

/// Rebuilding from the same records gives the same snapshot: index, store
/// and longest key are determined by the records. Every query is answered
/// from these alone, so it is answered the same after either rebuild.
pub proof fn lemma_snapshot_is_determined(a: ServerView, b: ServerView, records: Seq<HistoryItem>)
    requires
        is_snapshot_of(a, records),
        is_snapshot_of(b, records),
    ensures
        a == b,
        forall|cache_dir: Seq<char>, language: Set<Seq<char>>, query: Seq<char>|
            #![trigger answer_of(a, cache_dir, language, query)]
            answer_of(a, cache_dir, language, query) == answer_of(b, cache_dir, language, query),
{
    lemma_index_unique(a.entries, b.entries, records);
    lemma_store_unique(a.items, b.items, records, records.len() as int);
}

/// Index and store of a snapshot belong together: the store has an item
/// for every key of the index, and it is the display form of the first
/// record with that key, a record of the same snapshot. No key of the index
/// is answered from another snapshot's store.
pub proof fn lemma_snapshot_is_whole(view: ServerView, records: Seq<HistoryItem>, a: int)
    requires
        is_snapshot_of(view, records),
        0 <= a < view.entries.len(),
    ensures
        view.items.contains_key(view.entries[a].0),
        exists|i: int|
            holds_key(records, records.len() as int, i, view.entries[a].0) && #[trigger] is_first(
                records,
                i,
            ) && view.items[view.entries[a].0] == display_of(records[i]@),
{
    let key = view.entries[a].0;
    assert(attained(records, view.entries[a]));
    let some = choose|i: int| #[trigger] attains(records, i, view.entries[a]);
    assert(holds_key(records, records.len() as int, some, key));
    lemma_first_exists(records, records.len() as int, key);
}

/// Where the store holds every hit at the positions `top`, nothing is
/// left out: there is one item for each position, the item of its hit.
proof fn lemma_all_resolved(
    items: Map<Seq<char>, DisplayItemView>,
    hits: Seq<(Seq<char>, u64)>,
    top: Seq<usize>,
)
    requires
        forall|t: int| 0 <= t < top.len() ==> items.contains_key(hits[#[trigger] top[t] as int].0),
    ensures
        resolved(items, hits, top).len() == top.len(),
        forall|t: int|
            0 <= t < top.len() ==> #[trigger] resolved(items, hits, top)[t] == items[hits[top[t] as int].0],
    decreases top.len(),
{
    if top.len() > 0 {
        let rest = top.drop_last();
        lemma_all_resolved(items, hits, rest);
    }
}

/// The answer to a query on a snapshot is the ranking of its hits: one
/// item for each of the best hits, at most `MAX_RESULTS`, none left out, the
/// scores of their hits never rising, and of two hits with the same score
/// the later first.
pub proof fn lemma_answer_is_ranked(
    view: ServerView,
    records: Seq<HistoryItem>,
    language: Set<Seq<char>>,
)
    requires
        is_snapshot_of(view, records),
        view.entries.len() <= usize::MAX,
    ensures
        ({
            let hits = accepted(view.entries, language);
            let top = top_ranking(pair_scores(hits), MAX_RESULTS as nat);
            let found = items_of(view.items, hits);
            &&& found.len() == top.len()
            &&& found.len() <= MAX_RESULTS
            &&& found.len() == if hits.len() <= MAX_RESULTS {
                hits.len()
            } else {
                MAX_RESULTS as nat
            }
            &&& forall|t: int|
                0 <= t < found.len() ==> #[trigger] found[t] == view.items[hits[top[t] as int].0]
            &&& forall|s: int, t: int|
                #![trigger top[s], top[t]]
                0 <= s < t < top.len() ==> hits[top[s] as int].1 >= hits[top[t] as int].1 && (
                hits[top[s] as int].1 == hits[top[t] as int].1 ==> top[s] > top[t])
        }),
{
    let hits = accepted(view.entries, language);
    let scores = pair_scores(hits);
    let top = top_ranking(scores, MAX_RESULTS as nat);
    let accepts = |e: (Seq<char>, u64)| language.contains(e.0);
    broadcast use vstd::seq_lib::group_filter_ensures;
    lemma_top_ranking(scores, MAX_RESULTS as nat);
    assert forall|t: int| 0 <= t < top.len() implies view.items.contains_key(
        hits[#[trigger] top[t] as int].0,
    ) by {
        let hit = hits[top[t] as int];
        view.entries.lemma_filter_contains_rev(accepts, hit);
        let a = choose|a: int| 0 <= a < view.entries.len() && view.entries[a] == hit;
        lemma_snapshot_is_whole(view, records, a);
    }
    lemma_all_resolved(view.items, hits, top);
}

/// Where a query has no hit, the answer is the fallback item alone: its
/// primary URL is the search URL with the query as it came, and its
/// alternate URL is the first-result URL with the query.
pub proof fn lemma_nothing_found(
    view: ServerView,
    cache_dir: Seq<char>,
    language: Set<Seq<char>>,
    query: Seq<char>,
)
    requires
        accepted(view.entries, language).len() == 0,
    ensures
        answer_of(view, cache_dir, language, query) == seq![fallback_of(cache_dir, query)],
        fallback_of(cache_dir, query).arg == Some(
            GOOGLE_SEARCH_URL@ + FIRST_PARAMETER@ + query,
        ),
        fallback_of(cache_dir, query).alternate is Some,
        fallback_of(cache_dir, query).alternate->0.arg == GOOGLE_FEELING_LUCKY_URL@
            + NEXT_PARAMETER@ + query,
{
    let hits = accepted(view.entries, language);
    let scores = pair_scores(hits);
    lemma_top_ranking(scores, MAX_RESULTS as nat);
}

/// The hits of a fuzzy query whose automaton accepts the keys within the
/// distance are the entries of the index within that distance of the query,
/// and no others.
pub proof fn lemma_fuzzy_hits(
    entries: Seq<(Seq<char>, u64)>,
    query: Seq<char>,
    distance: u32,
    entry: (Seq<char>, u64),
)
    ensures
        accepted(entries, within_distance(query, distance)).contains(entry) <==> entries.contains(
            entry,
        ) && edit_distance(query, entry.0) <= distance,
{
    let language = within_distance(query, distance);
    let accepts = |e: (Seq<char>, u64)| language.contains(e.0);
    broadcast use vstd::seq_lib::group_filter_ensures;
    if accepted(entries, language).contains(entry) {
        entries.lemma_filter_contains_rev(accepts, entry);
    }
}

} // verus!
