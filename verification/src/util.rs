//! History records, the rows they are made from, and the places where the
//! cache and the history database are kept.

use vstd::prelude::*;
use vstd::string::*;
use vstd::std_specs::cmp::PartialEqSpecImpl;
use crate::item::text_opt;
use crate::text::chars_of;
use crate::text::has_prefix;
use crate::text::lowercase;
use crate::text::lowercase_of;
use crate::text::same_text;

verus! {

/// The icon a record has until one is found for its domain, and the icon
/// that stands in whenever finding one fails.
pub const DEFAULT_ICON: &'static str = "/Applications/Safari.app/Contents/Resources/compass.icns";

/// Where the cache is kept, below the home directory.
pub const CACHE_DIR: &'static str = ".cache/safari_history";

/// Where the history database is kept, below the home directory.
pub const DB_LOCATION: &'static str = "Library/Safari/History.db";

/// The directory of the icon files, below the cache directory.
pub const ICONS_DIR: &'static str = "icons";

pub const PATH_SEPARATOR: &'static str = "/";

pub const EXTENSION_SEPARATOR: &'static str = ".";

/// The subtype that icon files in the Windows format come with.
pub const X_ICON: &'static str = "x-icon";

/// The extension such files are given.
pub const ICO: &'static str = "ico";

/// What stands between the title and the rest of a search key.
pub const KEY_SEPARATOR: &'static str = " | ";

/// The start of a URL that holds its own content.
pub const DATA_SCHEME: &'static str = "data:";

/// `dir` and `name` as one path.
pub open spec fn joined(dir: Seq<char>, name: Seq<char>) -> Seq<char> {
    dir + PATH_SEPARATOR@ + name
}

/// Joins a directory and a name below it.
pub fn join_path(dir: &str, name: &str) -> (r: String)
    ensures
        r@ == joined(dir@, name@),
{
    let mut out = dir.to_string();
    out.append(PATH_SEPARATOR);
    out.append(name);
    out
}

/// The cache directory of the user whose home directory is `home`.
pub fn cache_location(home: &str) -> (r: String)
    ensures
        r@ == joined(home@, CACHE_DIR@),
{
    join_path(home, CACHE_DIR)
}

/// The history database of the user whose home directory is `home`.
pub fn db_location(home: &str) -> (r: String)
    ensures
        r@ == joined(home@, DB_LOCATION@),
{
    join_path(home, DB_LOCATION)
}

/// The file extension for an icon of the given subtype.
pub open spec fn extension_of(subtype: Seq<char>) -> Seq<char> {
    if subtype == X_ICON@ {
        ICO@
    } else {
        subtype
    }
}

/// The path of the icon file of a domain: in the icon directory, named by
/// the domain, with the subtype as extension.
pub open spec fn icon_path_of(cache_dir: Seq<char>, domain: Seq<char>, subtype: Seq<char>) -> Seq<
    char,
> {
    joined(joined(cache_dir, ICONS_DIR@), domain + EXTENSION_SEPARATOR@ + extension_of(subtype))
}

/// The path at which the icon of `domain` is kept, given the subtype of
/// its media type.
pub fn icon_path(cache_dir: &str, domain: &str, subtype: &str) -> (r: String)
    ensures
        r@ == icon_path_of(cache_dir@, domain@, subtype@),
{
    let mut name = domain.to_string();
    name.append(EXTENSION_SEPARATOR);
    if same_text(subtype, X_ICON) {
        name.append(ICO);
    } else {
        name.append(subtype);
    }
    let dir = join_path(cache_dir, ICONS_DIR);
    join_path(dir.as_str(), name.as_str())
}

/// The character that sets the extension of a file name off.
pub const DOT: char = '.';

/// The name that stands for the directory itself.
pub const CURRENT: &'static str = ".";

/// The name that stands for the directory above.
pub const PARENT: &'static str = "..";

/// `i` is the place of the last dot of `name`.
pub open spec fn is_last_dot(name: Seq<char>, i: int) -> bool {
    &&& 0 <= i < name.len()
    &&& name[i] == DOT
    &&& forall|j: int| i < j < name.len() ==> name[j] != DOT
}

/// The stem of a file name: the name itself where it has no dot, or only
/// the dot it begins with, and else what stands before its last dot. The
/// empty name and the names of the directory itself and of the directory
/// above have none.
pub open spec fn stem_of(name: Seq<char>) -> Option<Seq<char>> {
    if name.len() == 0 || name == CURRENT@ || name == PARENT@ {
        None
    } else if exists|i: int| 0 < i && is_last_dot(name, i) {
        Some(name.take(choose|i: int| 0 < i && is_last_dot(name, i)))
    } else {
        Some(name)
    }
}

/// A name has at most one last dot.
proof fn lemma_last_dot_unique(name: Seq<char>, i: int, j: int)
    requires
        is_last_dot(name, i),
        is_last_dot(name, j),
    ensures
        i == j,
{
}

/// The domain that an icon file is named after: the stem of its name.
pub fn icon_domain(file_name: &str) -> (r: Option<String>)
    ensures
        text_opt(r) == stem_of(file_name@),
{
    let name = chars_of(file_name);
    if name.len() == 0 || same_text(file_name, CURRENT) || same_text(file_name, PARENT) {
        return None;
    }
    let mut end: usize = name.len();
    while end > 0 && name[end - 1] != DOT
        invariant
            end <= name@.len(),
            forall|j: int| end <= j < name@.len() ==> name@[j] != DOT,
        decreases end,
    {
        end = end - 1;
    }
    let cut = if end > 1 {
        assert(is_last_dot(name@, end - 1));
        end - 1
    } else {
        name.len()
    };
    let mut stem = String::new();
    let mut i: usize = 0;
    while i < cut
        invariant
            i <= cut <= name@.len(),
            stem@ == name@.take(i as int),
        decreases cut - i,
    {
        stem.push(name[i]);
        i = i + 1;
    }
    Some(stem)
}

/// The icon file of a domain is named after it: the stem of the name that
/// `icon_path` gives a file is the domain again, where the domain is not
/// empty and the extension is a word without a dot.
pub proof fn lemma_icon_file_names_its_domain(domain: Seq<char>, extension: Seq<char>)
    requires
        domain.len() > 0,
        extension.len() > 0,
        !extension.contains(DOT),
    ensures
        stem_of(domain + EXTENSION_SEPARATOR@ + extension) == Some(domain),
{
    reveal_strlit(".");
    reveal_strlit("..");
    let name = domain + EXTENSION_SEPARATOR@ + extension;
    let at = domain.len() as int;
    assert(forall|j: int| at < j < name.len() ==> name[j] != DOT);
    let chosen = choose|i: int| 0 < i && is_last_dot(name, i);
    lemma_last_dot_unique(name, at, chosen);
}

/// The parts of a URL that a record is made from.
#[derive(Debug)]
pub struct UrlParts {
    pub host: Option<String>,
    pub path: String,
    pub query: Option<String>,
    pub fragment: Option<String>,
}

/// What `UrlParts` holds: host, path, query, fragment.
pub type UrlPartsView = (Option<Seq<char>>, Seq<char>, Option<Seq<char>>, Option<Seq<char>>);

impl View for UrlParts {
    type V = UrlPartsView;

    open spec fn view(&self) -> UrlPartsView {
        (text_opt(self.host), self.path@, text_opt(self.query), text_opt(self.fragment))
    }
}

/// What `url::Url::parse` makes of a text: nothing where it is no absolute
/// URL, else the URL's host, path, query and fragment as the parsed URL
/// gives them.
pub uninterp spec fn url_parts(url: Seq<char>) -> Option<
    (Option<Seq<char>>, Seq<char>, Option<Seq<char>>, Option<Seq<char>>),
>;

/// `url::Url::parse`, with the parsed URL's `host_str`, `path`, `query` and
/// `fragment` copied out. The grammar of URLs is not restated here; the
/// result is named.
#[verifier::external_body]
pub(crate) fn split_url(url: &str) -> (r: Option<UrlParts>)
    ensures
        match r {
            Some(parts) => url_parts(url@) == Some(parts@),
            None => url_parts(url@) is None,
        },
{
    match url::Url::parse(url) {
        Ok(u) => Some(
            UrlParts {
                host: u.host_str().map(String::from),
                path: String::from(u.path()),
                query: u.query().map(String::from),
                fragment: u.fragment().map(String::from),
            },
        ),
        Err(_) => None,
    }
}

/// Whether `hyper::Uri` accepts a text as a request URI.
pub uninterp spec fn is_request_uri(url: Seq<char>) -> bool;

/// Parses the text as a `hyper::Uri` and says whether that succeeded.
#[verifier::external_body]
pub(crate) fn parses_as_uri(url: &str) -> (r: bool)
    ensures
        r == is_request_uri(url@),
{
    url.parse::<hyper::Uri>().is_ok()
}

/// The host of a URL, if the text is a URL and has one.
pub open spec fn domain_of(url: Seq<char>) -> Option<Seq<char>> {
    match url_parts(url) {
        Some(parts) => parts.0,
        None => None,
    }
}

/// The host of a URL.
pub fn get_domain(url: &str) -> (r: Option<String>)
    ensures
        text_opt(r) == domain_of(url@),
{
    match split_url(url) {
        Some(parts) => parts.host,
        None => None,
    }
}

/// One visited page.
#[derive(Debug)]
pub struct HistoryItem {
    pub title: String,
    pub url: String,
    pub domain: String,
    /// The search key: what queries are matched against, and what tells
    /// two entries of the index apart.
    pub search: String,
    pub score: u64,
    pub favicon: String,
}

/// What a `HistoryItem` holds.
pub struct HistoryItemView {
    pub title: Seq<char>,
    pub url: Seq<char>,
    pub domain: Seq<char>,
    pub search: Seq<char>,
    pub score: u64,
    pub favicon: Seq<char>,
}

impl View for HistoryItem {
    type V = HistoryItemView;

    open spec fn view(&self) -> HistoryItemView {
        HistoryItemView {
            title: self.title@,
            url: self.url@,
            domain: self.domain@,
            search: self.search@,
            score: self.score,
            favicon: self.favicon@,
        }
    }
}

impl Clone for HistoryItem {
    fn clone(&self) -> (r: Self)
        ensures
            r == *self,
    {
        HistoryItem {
            title: self.title.clone(),
            url: self.url.clone(),
            domain: self.domain.clone(),
            search: self.search.clone(),
            score: self.score,
            favicon: self.favicon.clone(),
        }
    }
}

/// Two records are equal when they are of the same domain: that is what
/// counts when favicons are looked for.
impl PartialEq for HistoryItem {
    fn eq(&self, other: &HistoryItem) -> (r: bool) {
        self.domain == other.domain
    }
}

impl PartialEqSpecImpl for HistoryItem {
    open spec fn obeys_eq_spec() -> bool {
        true
    }

    open spec fn eq_spec(&self, other: &HistoryItem) -> bool {
        self.domain@ == other.domain@
    }
}

impl Eq for HistoryItem {

}

/// A record hashes as its domain does, in keeping with its equality.
impl std::hash::Hash for HistoryItem {
    /// `String::hash` on the domain. Nothing is claimed of the hasher's
    /// state.
    #[verifier::external_body]
    fn hash<H: std::hash::Hasher>(&self, state: &mut H) {
        self.domain.hash(state);
    }
}

/// One row of the history source: the page's title if it has one, its URL
/// and its visit score.
#[derive(Debug)]
pub struct RawRow {
    pub title: Option<String>,
    pub url: String,
    pub score: i64,
}

/// The score of a record whose row holds `n`: the same 64 bits, read
/// without a sign.
pub open spec fn score_of(n: i64) -> u64 {
    if n >= 0 {
        n as u64
    } else {
        (n + 0x1_0000_0000_0000_0000) as u64
    }
}

/// Whether a row with this URL is kept: the URL is not empty, holds no
/// content of its own, is accepted as a request URI, parses as a URL and has
/// a host.
pub open spec fn keeps_url(url: Seq<char>) -> bool {
    &&& url.len() > 0
    &&& !DATA_SCHEME@.is_prefix_of(url)
    &&& is_request_uri(url)
    &&& domain_of(url) is Some
}

/// The title of a record: the row's, or the domain where the row has none
/// or an empty one.
pub open spec fn title_of(title: Option<Seq<char>>, domain: Seq<char>) -> Seq<char> {
    match title {
        Some(t) => if t.len() > 0 {
            t
        } else {
            domain
        },
        None => domain,
    }
}

/// The text of an optional part, empty where there is none.
pub open spec fn text_or_empty(o: Option<Seq<char>>) -> Seq<char> {
    match o {
        Some(t) => t,
        None => Seq::empty(),
    }
}

/// The search key of a record: title, separator, domain, path, query and
/// fragment in one, in lowercase.
pub open spec fn search_key_of(
    title: Seq<char>,
    domain: Seq<char>,
    path: Seq<char>,
    query: Option<Seq<char>>,
    fragment: Option<Seq<char>>,
) -> Seq<char> {
    lowercase_of(
        title + KEY_SEPARATOR@ + domain + path + text_or_empty(query) + text_or_empty(fragment),
    )
}

/// The record made from a row, if the row is kept.
pub open spec fn record_of(title: Option<Seq<char>>, url: Seq<char>, score: i64) -> Option<
    HistoryItemView,
> {
    if keeps_url(url) {
        let parts = url_parts(url)->0;
        let domain = parts.0->0;
        let shown = title_of(title, domain);
        Some(
            HistoryItemView {
                title: shown,
                url: url,
                domain: domain,
                search: search_key_of(shown, domain, parts.1, parts.2, parts.3),
                score: score_of(score),
                favicon: DEFAULT_ICON@,
            },
        )
    } else {
        None
    }
}

/// The record made from a row.
pub open spec fn record_of_row(row: RawRow) -> Option<HistoryItemView> {
    record_of(text_opt(row.title), row.url@, row.score)
}

/// Reads the 64 bits of a signed score without a sign.
pub fn unsigned_score(n: i64) -> (r: u64)
    ensures
        r == score_of(n),
{
    if n >= 0 {
        n as u64
    } else {
        let below: u64 = (-(n + 1)) as u64;
        u64::MAX - below
    }
}

impl HistoryItem {
    /// Makes the record of a row. Rows with an empty URL, a `data:` URL, a
    /// URL that does not parse or a URL without a host give none. The
    /// record's favicon is the default icon.
    pub fn from_row(row: &RawRow) -> (r: Option<HistoryItem>)
        ensures
            match r {
                Some(item) => record_of_row(*row) == Some(item@),
                None => record_of_row(*row) is None,
            },
    {
        let url = row.url.as_str();
        if url.is_empty() || has_prefix(url, DATA_SCHEME) || !parses_as_uri(url) {
            return None;
        }
        let parts = match split_url(url) {
            Some(parts) => parts,
            None => { return None; },
        };
        let domain = match parts.host {
            Some(host) => host,
            None => { return None; },
        };
        let title = match &row.title {
            Some(t) => if t.as_str().is_empty() {
                domain.clone()
            } else {
                t.clone()
            },
            None => domain.clone(),
        };
        let mut key = title.clone();
        key.append(KEY_SEPARATOR);
        key.append(domain.as_str());
        key.append(parts.path.as_str());
        match &parts.query {
            Some(q) => { key.append(q.as_str()); },
            None => {},
        }
        match &parts.fragment {
            Some(f) => { key.append(f.as_str()); },
            None => {},
        }
        Some(
            HistoryItem {
                title,
                url: row.url.clone(),
                domain,
                search: lowercase(key.as_str()),
                score: unsigned_score(row.score),
                favicon: DEFAULT_ICON.to_string(),
            },
        )
    }
}

} // verus!
