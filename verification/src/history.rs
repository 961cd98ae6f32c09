//! The ingestion side: rows become records, domains without an icon are
//! found, icons are planned and merged into the favicon cache, and the
//! records leave with their favicons.

use vstd::prelude::*;
use vstd::string::*;
use vstd::hash_map::StringHashMap;
use crate::cache::bytes_opt;
use crate::cache::map_fits;
use crate::cache::packed;
use crate::cache::texts_of;
use crate::cache::unpacked;
use crate::cache::FaviconCache;
use crate::errors::ErrorKind;
use crate::errors::HistoryError;
use crate::server::display_of;
use crate::util::icon_domain;
use crate::util::icon_path;
use crate::util::icon_path_of;
use crate::util::record_of_row;
use crate::util::stem_of;
use crate::util::HistoryItem;
use crate::util::HistoryItemView;
use crate::util::RawRow;
use crate::util::DEFAULT_ICON;

verus! {

/// The least width and height of an icon that is taken.
pub const MIN_ICON_SIZE: u32 = 64;

/// The seconds between two cycles.
pub const PAUSE_SECS: u64 = 300;

/// One icon that was found for a site: its size, the subtype of its media
/// type if that could be told, and its bytes if it was fetched.
#[derive(Debug)]
pub struct IconCandidate {
    pub width: u32,
    pub height: u32,
    pub subtype: Option<String>,
    pub raw: Option<Vec<u8>>,
}

/// An icon file to write: where, and what.
#[derive(Debug)]
pub struct IconFile {
    pub path: String,
    pub contents: Vec<u8>,
}

/// The records of one cycle, and the positions of those for which an icon
/// is to be fetched.
#[derive(Debug)]
pub struct Cycle {
    pub items: Vec<HistoryItem>,
    pub pending: Vec<usize>,
}

/// What one cycle ends with: the records to publish, the bytes of the
/// cache to write out if there are any, and the seconds to pause.
#[derive(Debug)]
pub struct Published {
    pub items: Vec<HistoryItem>,
    pub cache_bytes: Option<Vec<u8>>,
    pub pause_secs: u64,
}

/// Records as what they hold.
pub open spec fn records_of(items: Seq<HistoryItem>) -> Seq<HistoryItemView> {
    items.map_values(|item: HistoryItem| item@)
}

/// Making the record of a row.
pub open spec fn to_record() -> spec_fn(RawRow) -> Option<HistoryItemView> {
    |row: RawRow| record_of_row(row)
}

/// The cache that stored bytes hold: an empty one where there are no bytes
/// or where they hold no cache.
pub open spec fn stored_cache(stored: Option<&[u8]>) -> Map<Seq<char>, Seq<char>> {
    match stored {
        Some(bytes) => match unpacked(bytes@) {
            Some(cache) => cache,
            None => Map::empty(),
        },
        None => Map::empty(),
    }
}

/// What an icon file stands for: the domain it is named after, which is
/// the stem of its name, and its path. A file whose name has no stem stands
/// for nothing.
pub open spec fn named() -> spec_fn((Seq<char>, Seq<char>)) -> Option<(Seq<char>, Seq<char>)> {
    |file: (Seq<char>, Seq<char>)|
        match stem_of(file.0) {
            Some(domain) => Some((domain, file.1)),
            None => None,
        }
}

/// The domains and paths that icon files, given by name and path, stand
/// for.
pub open spec fn icon_entries(files: Seq<(Seq<char>, Seq<char>)>) -> Seq<(Seq<char>, Seq<char>)> {
    files.filter_map(named())
}

/// The cache with the icons that it did not know: each, given by its
/// domain and its path, is entered unless the cache has the domain already;
/// of two for one domain the first counts.
pub open spec fn filled(
    cache: Map<Seq<char>, Seq<char>>,
    files: Seq<(Seq<char>, Seq<char>)>,
) -> Map<Seq<char>, Seq<char>>
    decreases files.len(),
{
    if files.len() == 0 {
        cache
    } else {
        let rest = filled(cache, files.drop_last());
        if rest.contains_key(files.last().0) {
            rest
        } else {
            rest.insert(files.last().0, files.last().1)
        }
    }
}

/// The domain of the record at `i`.
pub open spec fn domain_at(items: Seq<HistoryItem>, i: int) -> Seq<char> {
    items[i].domain@
}

/// No record before the one at `i` is of its domain.
pub open spec fn leads_domain(items: Seq<HistoryItem>, i: int) -> bool {
    forall|j: int| 0 <= j < i ==> #[trigger] domain_at(items, j) != domain_at(items, i)
}

/// An icon is to be fetched for the record at `i`: the cache has none for
/// its domain, and it is the first record of that domain.
pub open spec fn is_pending(cache: Map<Seq<char>, Seq<char>>, items: Seq<HistoryItem>, i: int) -> bool {
    &&& 0 <= i < items.len()
    &&& !cache.contains_key(domain_at(items, i))
    &&& leads_domain(items, i)
}

/// `pending` lists, in ascending order, exactly those of the first `n`
/// positions for which an icon is to be fetched.
pub open spec fn are_pending(
    cache: Map<Seq<char>, Seq<char>>,
    items: Seq<HistoryItem>,
    n: int,
    pending: Seq<usize>,
) -> bool {
    &&& forall|t: int|
        0 <= t < pending.len() ==> (#[trigger] pending[t]) < n && is_pending(
            cache,
            items,
            pending[t] as int,
        )
    &&& forall|s: int, t: int|
        0 <= s < t < pending.len() ==> (#[trigger] pending[s]) < (#[trigger] pending[t])
    &&& forall|i: usize| i < n && is_pending(cache, items, i as int) ==> pending.contains(i)
}

/// The cache after the first `n` icons are entered, each for the domain of
/// the record it was fetched for.
pub open spec fn merged(
    cache: Map<Seq<char>, Seq<char>>,
    items: Seq<HistoryItem>,
    pending: Seq<usize>,
    icons: Seq<String>,
    n: int,
) -> Map<Seq<char>, Seq<char>>
    decreases n,
{
    if n <= 0 {
        cache
    } else {
        let rest = merged(cache, items, pending, icons, n - 1);
        if pending[n - 1] < items.len() {
            rest.insert(domain_at(items, pending[n - 1] as int), icons[n - 1]@)
        } else {
            rest
        }
    }
}

/// As many icons as can be entered: one for each pending position, as far
/// as icons came.
pub open spec fn paired(pending: Seq<usize>, icons: Seq<String>) -> int {
    if pending.len() <= icons.len() {
        pending.len() as int
    } else {
        icons.len() as int
    }
}

/// The record with the favicon that the cache has for its domain; a
/// record whose domain the cache does not have keeps its own.
pub open spec fn with_favicon(cache: Map<Seq<char>, Seq<char>>, item: HistoryItemView) -> HistoryItemView {
    HistoryItemView {
        favicon: if cache.contains_key(item.domain) {
            cache[item.domain]
        } else {
            item.favicon
        },
        ..item
    }
}

/// Whether an icon is large enough to be taken.
pub open spec fn is_large(icon: IconCandidate) -> bool {
    icon.width >= MIN_ICON_SIZE && icon.height >= MIN_ICON_SIZE
}

/// The position of the first icon that is large enough, if there is one.
pub open spec fn first_large(icons: Seq<IconCandidate>) -> Option<int>
    decreases icons.len(),
{
    if icons.len() == 0 {
        None
    } else {
        match first_large(icons.drop_last()) {
            Some(i) => Some(i),
            None => if is_large(icons.last()) {
                Some(icons.len() - 1)
            } else {
                None
            },
        }
    }
}

/// What is planned for the icon that was chosen for a domain: the file to
/// write, or the kind of error that stands against it. Without an icon
/// nothing was found; an icon without bytes is empty; an icon without a
/// subtype has no media type.
pub open spec fn plan_of(cache_dir: Seq<char>, domain: Seq<char>, chosen: Option<IconCandidate>) -> Result<
    (Seq<char>, Seq<u8>),
    ErrorKind,
> {
    match chosen {
        None => Err(ErrorKind::NoIcon),
        Some(icon) => match icon.raw {
            None => Err(ErrorKind::EmptyIcon),
            Some(raw) => if raw@.len() == 0 {
                Err(ErrorKind::EmptyIcon)
            } else {
                match icon.subtype {
                    None => Err(ErrorKind::NoMimetype),
                    Some(subtype) => Ok((icon_path_of(cache_dir, domain, subtype@), raw@)),
                }
            },
        },
    }
}

/// The icon that is chosen among those found: the first that is large
/// enough.
pub open spec fn chosen_of(icons: Seq<IconCandidate>) -> Option<IconCandidate> {
    match first_large(icons) {
        Some(i) => Some(icons[i]),
        None => None,
    }
}

/// The path that a record of the domain gets as its favicon, once the
/// plan is carried out: that of the file if one was planned and written, and
/// the default icon in every other case.
pub open spec fn favicon_of(plan: Result<IconFile, HistoryError>, written: bool) -> Seq<char> {
    match plan {
        Ok(file) => if written {
            file.path@
        } else {
            DEFAULT_ICON@
        },
        Err(_) => DEFAULT_ICON@,
    }
}

/// Chooses among the icons found: the first whose width and height are
/// both at least `MIN_ICON_SIZE`.
pub fn select_icon(icons: &Vec<IconCandidate>) -> (r: Option<usize>)
    ensures
        match r {
            Some(i) => {
                &&& i < icons@.len()
                &&& is_large(icons@[i as int])
                &&& forall|j: int| 0 <= j < i ==> !is_large(#[trigger] icons@[j])
                &&& first_large(icons@) == Some(i as int)
            },
            None => {
                &&& forall|j: int| 0 <= j < icons@.len() ==> !is_large(#[trigger] icons@[j])
                &&& first_large(icons@) is None
            },
        },
{
    let mut i: usize = 0;
    while i < icons.len()
        invariant
            i <= icons@.len(),
            forall|j: int| 0 <= j < i ==> !is_large(#[trigger] icons@[j]),
            first_large(icons@.take(i as int)) is None,
        decreases icons.len() - i,
    {
        assert(icons@.take(i + 1).drop_last() =~= icons@.take(i as int));
        if icons[i].width >= MIN_ICON_SIZE && icons[i].height >= MIN_ICON_SIZE {
            proof {
                lemma_first_large_stays(icons@, i + 1, i as int);
            }
            return Some(i);
        }
        i = i + 1;
    }
    assert(icons@.take(i as int) =~= icons@);
    None
}

/// Once the first `n` icons hold a large one, the first of them stays the
/// first however many follow.
proof fn lemma_first_large_stays(icons: Seq<IconCandidate>, n: int, i: int)
    requires
        0 <= n <= icons.len(),
        first_large(icons.take(n)) == Some(i),
    ensures
        first_large(icons) == Some(i),
    decreases icons.len() - n,
{
    if n < icons.len() {
        assert(icons.take(n + 1).drop_last() =~= icons.take(n));
        lemma_first_large_stays(icons, n + 1, i);
    } else {
        assert(icons.take(n) =~= icons);
    }
}

/// The favicon cache and what is decided around it in each cycle.
pub struct SafariHistory {
    cache_dir: String,
    favicons: FaviconCache,
}

impl View for SafariHistory {
    type V = Map<Seq<char>, Seq<char>>;

    closed spec fn view(&self) -> Map<Seq<char>, Seq<char>> {
        self.favicons@
    }
}

impl SafariHistory {
    /// The cache directory, below which the icon files lie.
    pub closed spec fn cache_dir(&self) -> Seq<char> {
        self.cache_dir@
    }

    /// Loads the cache: from the stored bytes, where there are any and they
    /// hold a cache, and then from the icon files found on disk, each given
    /// by its name and its path. A file stands for the domain that it is
    /// named after, and it is entered only where the cache has no icon for
    /// that domain yet.
    pub fn new(cache_dir: String, stored: Option<&[u8]>, icon_files: &Vec<(String, String)>) -> (r:
        SafariHistory)
        ensures
            r.cache_dir() == cache_dir@,
            r@ == filled(stored_cache(stored), icon_entries(texts_of(icon_files@))),
    {
        let mut favicons = match stored {
            Some(bytes) => FaviconCache::from_bytes(bytes),
            None => FaviconCache::new(),
        };
        let ghost files = texts_of(icon_files@);
        let ghost start = favicons@;
        let mut i: usize = 0;
        while i < icon_files.len()
            invariant
                files == texts_of(icon_files@),
                i <= icon_files@.len(),
                favicons@ == filled(start, icon_entries(files.take(i as int))),
            decreases icon_files.len() - i,
        {
            let ghost before = icon_entries(files.take(i as int));
            proof {
                files.lemma_filter_map_take_succ(named(), i as int);
            }
            match icon_domain(icon_files[i].0.as_str()) {
                Some(domain) => {
                    assert((before + seq![(domain@, files[i as int].1)]).drop_last() =~= before);
                    if !favicons.contains(domain.as_str()) {
                        favicons.insert(domain, icon_files[i].1.clone());
                    }
                },
                None => {},
            }
            i = i + 1;
        }
        assert(files.take(i as int) =~= files);
        SafariHistory { cache_dir, favicons }
    }

    /// The path of the icon that the cache has for a domain.
    pub fn favicon(&self, domain: &str) -> (r: Option<String>)
        ensures
            match r {
                Some(path) => self@.contains_key(domain@) && path@ == self@[domain@],
                None => !self@.contains_key(domain@),
            },
    {
        match self.favicons.get(domain) {
            Some(path) => Some(path.clone()),
            None => None,
        }
    }

    /// The records of the rows: one for each row that is kept, in the
    /// order of the rows.
    pub fn get_history_items(&self, rows: &Vec<RawRow>) -> (items: Vec<HistoryItem>)
        ensures
            records_of(items@) == rows@.filter_map(to_record()),
    {
        let mut items: Vec<HistoryItem> = Vec::new();
        let mut i: usize = 0;
        while i < rows.len()
            invariant
                i <= rows@.len(),
                records_of(items@) == rows@.take(i as int).filter_map(to_record()),
            decreases rows.len() - i,
        {
            proof {
                rows@.lemma_filter_map_take_succ(to_record(), i as int);
            }
            match HistoryItem::from_row(&rows[i]) {
                Some(item) => {
                    items.push(item);
                },
                None => {},
            }
            i = i + 1;
        }
        assert(rows@.take(i as int) =~= rows@);
        items
    }

    /// The positions of the records for which an icon is to be fetched:
    /// for each domain that the cache has no icon for, the first record of
    /// that domain, and no other.
    pub fn pending_domains(&self, items: &Vec<HistoryItem>) -> (pending: Vec<usize>)
        ensures
            are_pending(self@, items@, items@.len() as int, pending@),
    {
        let mut pending: Vec<usize> = Vec::new();
        let mut seen: StringHashMap<usize> = StringHashMap::new();
        let mut i: usize = 0;
        let ghost cache = self@;
        while i < items.len()
            invariant
                cache == self@,
                i <= items@.len(),
                are_pending(cache, items@, i as int, pending@),
                forall|domain: Seq<char>| #[trigger]
                    seen@.contains_key(domain) <==> exists|j: int|
                        0 <= j < i && #[trigger] domain_at(items@, j) == domain
                            && !cache.contains_key(domain),
            decreases items.len() - i,
        {
            let domain = items[i].domain.as_str();
            let ghost before = pending@;
            if !self.favicons.contains(domain) && !seen.contains_key(domain) {
                seen.insert(items[i].domain.clone(), i);
                pending.push(i);
                proof {
                    assert forall|k: usize|
                        k < i + 1 && is_pending(cache, items@, k as int) implies pending@.contains(
                        k,
                    ) by {
                        if k < i {
                            assert(before.contains(k));
                            let t = choose|t: int| 0 <= t < before.len() && before[t] == k;
                            assert(pending@[t] == k);
                        } else {
                            assert(pending@[before.len() as int] == k);
                        }
                    }
                    assert forall|d: Seq<char>| #[trigger]
                        seen@.contains_key(d) <==> exists|j: int|
                            0 <= j < i + 1 && #[trigger] domain_at(items@, j) == d
                                && !cache.contains_key(d) by {
                        if d == domain@ {
                            assert(domain_at(items@, i as int) == d);
                        }
                    }
                }
            }
            i = i + 1;
        }
        pending
    }

    /// The first step of a cycle: the records of the rows, and the
    /// positions of those for which an icon is to be fetched.
    pub fn prepare(&self, rows: &Vec<RawRow>) -> (cycle: Cycle)
        ensures
            records_of(cycle.items@) == rows@.filter_map(to_record()),
            are_pending(self@, cycle.items@, cycle.items@.len() as int, cycle.pending@),
    {
        let items = self.get_history_items(rows);
        let pending = self.pending_domains(&items);
        Cycle { items, pending }
    }

    /// Plans the icon file of a domain from the icons that were found for
    /// its site: the first that is large enough is chosen, and it is to be
    /// written to the icon path of the domain. There is no plan, but an error
    /// that names the domain, where no icon is large enough, where the chosen
    /// one is empty, or where its media type is not known.
    pub fn plan_favicon(&self, domain: &str, icons: &Vec<IconCandidate>) -> (r: Result<
        IconFile,
        HistoryError,
    >)
        ensures
            match r {
                Ok(file) => plan_of(self.cache_dir(), domain@, chosen_of(icons@)) == Ok::<
                    (Seq<char>, Seq<u8>),
                    ErrorKind,
                >((file.path@, file.contents@)),
                Err(e) => {
                    &&& plan_of(self.cache_dir(), domain@, chosen_of(icons@)) == Err::<
                        (Seq<char>, Seq<u8>),
                        ErrorKind,
                    >(e.kind)
                    &&& e.context@ == domain@
                    &&& e.cause is None
                },
            },
    {
        let chosen = match select_icon(icons) {
            Some(i) => &icons[i],
            None => {
                return Err(HistoryError::new(ErrorKind::NoIcon, domain.to_string()));
            },
        };
        let raw = match &chosen.raw {
            Some(raw) => raw,
            None => {
                return Err(HistoryError::new(ErrorKind::EmptyIcon, domain.to_string()));
            },
        };
        if raw.len() == 0 {
            return Err(HistoryError::new(ErrorKind::EmptyIcon, domain.to_string()));
        }
        let subtype = match &chosen.subtype {
            Some(subtype) => subtype,
            None => {
                return Err(HistoryError::new(ErrorKind::NoMimetype, domain.to_string()));
            },
        };
        Ok(
            IconFile {
                path: icon_path(self.cache_dir.as_str(), domain, subtype.as_str()),
                contents: raw.clone(),
            },
        )
    }

    /// The favicon of a domain once its plan is carried out: the path of
    /// the file where one was planned and `written` says that it was written
    /// anew, and the default icon in every other case.
    pub fn download_favicon(&self, plan: &Result<IconFile, HistoryError>, written: bool) -> (r:
        String)
        ensures
            r@ == favicon_of(*plan, written),
    {
        match plan {
            Ok(file) => if written {
                file.path.clone()
            } else {
                DEFAULT_ICON.to_string()
            },
            Err(_) => DEFAULT_ICON.to_string(),
        }
    }

    /// The second step of a cycle. The icons, one for each pending
    /// position as far as they came, are entered into the cache for the
    /// domains of their records; every record gets the favicon that the cache
    /// now has for its domain; and the cache is packed to be written out.
    pub fn run(&mut self, cycle: Cycle, icons: &Vec<String>) -> (published: Published)
        ensures
            final(self).cache_dir() == old(self).cache_dir(),
            final(self)@ == merged(
                old(self)@,
                cycle.items@,
                cycle.pending@,
                icons@,
                paired(cycle.pending@, icons@),
            ),
            published.items@.len() == cycle.items@.len(),
            forall|i: int|
                0 <= i < cycle.items@.len() ==> (#[trigger] published.items@[i])@ == with_favicon(
                    final(self)@,
                    cycle.items@[i]@,
                ),
            bytes_opt(published.cache_bytes) == if map_fits(final(self)@) {
                packed(final(self)@)
            } else {
                None
            },
            published.cache_bytes matches Some(bytes) ==> unpacked(bytes@) == Some(final(self)@),
            published.pause_secs == PAUSE_SECS,
    {
        let ghost start = self@;
        let mut t: usize = 0;
        while t < cycle.pending.len() && t < icons.len()
            invariant
                self.cache_dir == old(self).cache_dir,
                t <= cycle.pending@.len(),
                t <= icons@.len(),
                self@ == merged(start, cycle.items@, cycle.pending@, icons@, t as int),
            decreases cycle.pending.len() - t,
        {
            let at = cycle.pending[t];
            if at < cycle.items.len() {
                self.favicons.insert(cycle.items[at].domain.clone(), icons[t].clone());
            }
            t = t + 1;
        }
        let mut items: Vec<HistoryItem> = Vec::new();
        let mut i: usize = 0;
        while i < cycle.items.len()
            invariant
                i <= cycle.items@.len(),
                items@.len() == i,
                forall|j: int|
                    0 <= j < i ==> (#[trigger] items@[j])@ == with_favicon(
                        self@,
                        cycle.items@[j]@,
                    ),
            decreases cycle.items.len() - i,
        {
            let item = &cycle.items[i];
            let favicon = match self.favicons.get(item.domain.as_str()) {
                Some(path) => path.clone(),
                None => item.favicon.clone(),
            };
            items.push(
                HistoryItem {
                    title: item.title.clone(),
                    url: item.url.clone(),
                    domain: item.domain.clone(),
                    search: item.search.clone(),
                    score: item.score,
                    favicon,
                },
            );
            i = i + 1;
        }
        let cache_bytes = self.favicons.to_bytes();
        Published { items, cache_bytes, pause_secs: PAUSE_SECS }
    }

    /// The cache as bytes, to be written out. What is read back from the
    /// bytes is the cache.
    pub fn persist(&self) -> (r: Option<Vec<u8>>)
        ensures
            bytes_opt(r) == if map_fits(self@) {
                packed(self@)
            } else {
                None
            },
            r matches Some(bytes) ==> unpacked(bytes@) == Some(self@),
    {
        self.favicons.to_bytes()
    }
}

/// Of the records of a domain, one is the first.
proof fn lemma_first_of_domain(items: Seq<HistoryItem>, i: int) -> (first: int)
    requires
        0 <= i < items.len(),
    ensures
        0 <= first <= i,
        domain_at(items, first) == domain_at(items, i),
        leads_domain(items, first),
    decreases i,
{
    if exists|j: int| 0 <= j < i && #[trigger] domain_at(items, j) == domain_at(items, i) {
        let j = choose|j: int| 0 <= j < i && #[trigger] domain_at(items, j) == domain_at(items, i);
        lemma_first_of_domain(items, j)
    } else {
        i
    }
}

/// After the icons are entered, the cache holds what it held and the
/// domains of the records they were fetched for.
proof fn lemma_merged_domains(
    cache: Map<Seq<char>, Seq<char>>,
    items: Seq<HistoryItem>,
    pending: Seq<usize>,
    icons: Seq<String>,
    n: int,
)
    requires
        0 <= n <= pending.len(),
        forall|t: int| 0 <= t < pending.len() ==> (#[trigger] pending[t]) < items.len(),
    ensures
        forall|domain: Seq<char>| #[trigger]
            merged(cache, items, pending, icons, n).contains_key(domain) <==> cache.contains_key(
                domain,
            ) || exists|t: int|
                0 <= t < n && domain_at(items, #[trigger] pending[t] as int) == domain,
    decreases n,
{
    if n > 0 {
        lemma_merged_domains(cache, items, pending, icons, n - 1);
        assert(merged(cache, items, pending, icons, n) == merged(
            cache,
            items,
            pending,
            icons,
            n - 1,
        ).insert(domain_at(items, pending[n - 1] as int), icons[n - 1]@));
    }
}

/// In one cycle an icon is fetched once for each domain that the cache does
/// not know, and never twice for one domain; once the icons are entered the
/// cache has an icon for the domain of every record, and records of one
/// domain leave with the same favicon, which their display items show as
/// their icon.
pub proof fn lemma_one_fetch_per_domain(
    cache: Map<Seq<char>, Seq<char>>,
    items: Seq<HistoryItem>,
    pending: Seq<usize>,
    icons: Seq<String>,
)
    requires
        are_pending(cache, items, items.len() as int, pending),
        icons.len() == pending.len(),
        items.len() <= usize::MAX,
    ensures
        forall|s: int, t: int|
            0 <= s < t < pending.len() ==> domain_at(items, #[trigger] pending[s] as int)
                != domain_at(items, #[trigger] pending[t] as int),
        forall|i: int|
            0 <= i < items.len() && !cache.contains_key(#[trigger] domain_at(items, i))
                ==> exists|t: int|
                0 <= t < pending.len() && domain_at(items, #[trigger] pending[t] as int)
                    == domain_at(items, i),
        forall|i: int|
            0 <= i < items.len() ==> merged(
                cache,
                items,
                pending,
                icons,
                pending.len() as int,
            ).contains_key(#[trigger] domain_at(items, i)),
        forall|i: int, j: int|
            0 <= i < items.len() && 0 <= j < items.len() && domain_at(items, i) == domain_at(
                items,
                j,
            ) ==> #[trigger] with_favicon(
                merged(cache, items, pending, icons, pending.len() as int),
                items[i]@,
            ).favicon == #[trigger] with_favicon(
                merged(cache, items, pending, icons, pending.len() as int),
                items[j]@,
            ).favicon,
        forall|i: int|
            0 <= i < items.len() ==> #[trigger] display_of(
                with_favicon(
                    merged(cache, items, pending, icons, pending.len() as int),
                    items[i]@,
                ),
            ).icon == Some(
                merged(cache, items, pending, icons, pending.len() as int)[domain_at(items, i)],
            ),
{
    assert forall|i: int|
        0 <= i < items.len() && !cache.contains_key(
            #[trigger] domain_at(items, i),
        ) implies exists|t: int|
        0 <= t < pending.len() && domain_at(items, #[trigger] pending[t] as int) == domain_at(
            items,
            i,
        ) by {
        let first = lemma_first_of_domain(items, i);
        assert(pending.contains(first as usize));
    }
    lemma_merged_domains(cache, items, pending, icons, pending.len() as int);
}

/// Writing the cache out and loading it again gives the cache back: the
/// bytes that persisting gives are read back as the mapping that was
/// persisted, where no icon file adds to it.
pub proof fn lemma_persist_then_load(cache: Map<Seq<char>, Seq<char>>, bytes: &[u8])
    requires
        unpacked(bytes@) == Some(cache),
    ensures
        filled(stored_cache(Some(bytes)), icon_entries(Seq::empty())) == cache,
{
}

} // verus!
