//! The favicon cache: for each domain the path of its icon file. It grows
//! and never shrinks, and it is written out and read back as one MessagePack
//! map.

use vstd::prelude::*;
use vstd::string::*;
use vstd::hash_map::StringHashMap;
use crate::text::bytes_of;

verus! {

/// The longest text, in bytes, and the greatest number of entries that one
/// MessagePack map holds.
pub const PACK_LIMIT: usize = 0xFFFF_FFFF;

/// Pairs of strings as texts.
pub open spec fn texts_of(entries: Seq<(String, String)>) -> Seq<(Seq<char>, Seq<char>)> {
    entries.map_values(|e: (String, String)| (e.0@, e.1@))
}

/// The mapping that a list of pairs stands for; of two pairs with the same
/// key the later counts.
pub open spec fn map_of(entries: Seq<(Seq<char>, Seq<char>)>) -> Map<Seq<char>, Seq<char>>
    decreases entries.len(),
{
    if entries.len() == 0 {
        Map::empty()
    } else {
        map_of(entries.drop_last()).insert(entries.last().0, entries.last().1)
    }
}

/// No text of the entries is longer than a MessagePack map can hold, and
/// there are no more entries than it can hold.
pub open spec fn fits_pack(entries: Seq<(Seq<char>, Seq<char>)>) -> bool {
    &&& entries.len() <= PACK_LIMIT
    &&& forall|i: int|
        0 <= i < entries.len() ==> bytes_of(#[trigger] entries[i].0).len() <= PACK_LIMIT
            && bytes_of(entries[i].1).len() <= PACK_LIMIT
}

/// The mapping is finite, and neither it nor a text of it is beyond what
/// a MessagePack map can hold.
pub open spec fn map_fits(cache: Map<Seq<char>, Seq<char>>) -> bool {
    &&& cache.dom().finite()
    &&& cache.len() <= PACK_LIMIT
    &&& forall|key: Seq<char>| #[trigger]
        cache.contains_key(key) ==> bytes_of(key).len() <= PACK_LIMIT && bytes_of(cache[key]).len()
            <= PACK_LIMIT
}

/// The mapping that `rmp_serde` reads from bytes as a map from strings to
/// strings, or nothing where the bytes hold no such map.
pub uninterp spec fn unpacked(bytes: Seq<u8>) -> Option<Map<Seq<char>, Seq<char>>>;

/// The bytes that `rmp_serde` writes for a map from strings to strings
/// whose keys are in order, or nothing where it refuses.
pub uninterp spec fn packed(cache: Map<Seq<char>, Seq<char>>) -> Option<Seq<u8>>;

/// The bytes of an optional vector.
pub open spec fn bytes_opt(o: Option<Vec<u8>>) -> Option<Seq<u8>> {
    match o {
        Some(bytes) => Some(bytes@),
        None => None,
    }
}

/// `rmp_serde::to_vec` on the entries, gathered into a map from strings
/// to strings with its keys in order. The bytes are those of the mapping of
/// the entries, and what `rmp_serde` reads back from them is that mapping.
/// Texts and maps beyond the limit of the format are kept out, since their
/// lengths would be cut.
#[verifier::external_body]
pub(crate) fn pack(entries: &Vec<(String, String)>) -> (r: Option<Vec<u8>>)
    requires
        fits_pack(texts_of(entries@)),
    ensures
        bytes_opt(r) == packed(map_of(texts_of(entries@))),
        r matches Some(bytes) ==> unpacked(bytes@) == Some(map_of(texts_of(entries@))),
{
    let map: std::collections::BTreeMap<&str, &str> = entries.iter().map(
        |e| (e.0.as_str(), e.1.as_str()),
    ).collect();
    rmp_serde::to_vec(&map).ok()
}

/// `rmp_serde::from_slice` for a map from strings to strings, its entries
/// listed. No key comes twice.
#[verifier::external_body]
pub(crate) fn unpack(bytes: &[u8]) -> (r: Option<Vec<(String, String)>>)
    ensures
        match r {
            Some(entries) => {
                &&& unpacked(bytes@) == Some(map_of(texts_of(entries@)))
                &&& distinct_keys(texts_of(entries@))
            },
            None => unpacked(bytes@) is None,
        },
{
    let map: Option<std::collections::BTreeMap<String, String>> = rmp_serde::from_slice(bytes).ok();
    map.map(|m| m.into_iter().collect())
}

/// The favicon cache.
pub struct FaviconCache {
    entries: Vec<(String, String)>,
    places: StringHashMap<usize>,
}

impl View for FaviconCache {
    type V = Map<Seq<char>, Seq<char>>;

    closed spec fn view(&self) -> Map<Seq<char>, Seq<char>> {
        Map::new(
            |domain: Seq<char>| self.places@.contains_key(domain),
            |domain: Seq<char>| self.entries@[self.places@[domain] as int].1@,
        )
    }
}

impl FaviconCache {
    /// Each domain is listed once, and found where it is listed.
    #[verifier::type_invariant]
    spec fn wf(&self) -> bool {
        &&& forall|domain: Seq<char>| #[trigger]
            self.places@.contains_key(domain) ==> self.places@[domain] < self.entries@.len()
                && self.entries@[self.places@[domain] as int].0@ == domain
        &&& forall|i: int|
            0 <= i < self.entries@.len() ==> self.places@.contains_key(
                #[trigger] self.entries@[i].0@,
            ) && self.places@[self.entries@[i].0@] == i
    }

    /// A cache without entries.
    pub fn new() -> (r: FaviconCache)
        ensures
            r@ == Map::<Seq<char>, Seq<char>>::empty(),
    {
        let r = FaviconCache { entries: Vec::new(), places: StringHashMap::new() };
        r
    }

    /// Whether the cache holds an icon for the domain.
    pub fn contains(&self, domain: &str) -> (r: bool)
        ensures
            r == self@.contains_key(domain@),
    {
        self.places.contains_key(domain)
    }

    /// The path of the icon of the domain.
    pub fn get(&self, domain: &str) -> (r: Option<&String>)
        ensures
            match r {
                Some(path) => self@.contains_key(domain@) && path@ == self@[domain@],
                None => !self@.contains_key(domain@),
            },
    {
        proof {
            use_type_invariant(self);
        }
        match self.places.get(domain) {
            Some(place) => Some(&self.entries[*place].1),
            None => None,
        }
    }

    /// The number of domains.
    pub fn len(&self) -> (r: usize)
        ensures
            r == self@.len(),
            self@.dom().finite(),
    {
        proof {
            use_type_invariant(self);
            self.lemma_view_is_map_of();
            lemma_map_of_len(texts_of(self.entries@));
        }
        self.entries.len()
    }

    /// Sets the path of the icon of a domain.
    pub fn insert(&mut self, domain: String, path: String)
        ensures
            final(self)@ == old(self)@.insert(domain@, path@),
    {
        proof {
            use_type_invariant(&*self);
        }
        let mut taken = FaviconCache::new();
        std::mem::swap(self, &mut taken);
        let FaviconCache { mut entries, mut places } = taken;
        let found = match places.get(domain.as_str()) {
            Some(place) => Some(*place),
            None => None,
        };
        match found {
            Some(place) => {
                entries.set(place, (domain, path));
            },
            None => {
                let place = entries.len();
                places.insert(domain.clone(), place);
                entries.push((domain, path));
            },
        }
        *self = FaviconCache { entries, places };
    }

    /// The cache is the mapping of its entries.
    proof fn lemma_view_is_map_of(&self)
        requires
            self.wf(),
        ensures
            self@ == map_of(texts_of(self.entries@)),
    {
        let texts = texts_of(self.entries@);
        lemma_map_of_distinct(texts);
        assert forall|domain: Seq<char>| #[trigger]
            self@.contains_key(domain) implies map_of(texts).contains_key(domain) && map_of(
            texts,
        )[domain] == self@[domain] by {
            let place = self.places@[domain] as int;
            assert(lists(texts, place, domain));
        }
    }

    /// The cache as bytes: one MessagePack map from domains to paths. What
    /// is read back from the bytes is the cache. Nothing is given where the
    /// cache is beyond what such a map can hold, or where packing is refused.
    pub fn to_bytes(&self) -> (r: Option<Vec<u8>>)
        ensures
            bytes_opt(r) == if map_fits(self@) {
                packed(self@)
            } else {
                None
            },
            r matches Some(bytes) ==> unpacked(bytes@) == Some(self@),
    {
        proof {
            use_type_invariant(self);
            self.lemma_view_is_map_of();
            lemma_map_of_len(texts_of(self.entries@));
            lemma_map_of_distinct(texts_of(self.entries@));
        }
        let ghost texts = texts_of(self.entries@);
        if self.entries.len() > PACK_LIMIT {
            return None;
        }
        let mut i: usize = 0;
        while i < self.entries.len()
            invariant
                i <= self.entries@.len(),
                texts == texts_of(self.entries@),
                self@ == map_of(texts),
                distinct_keys(texts),
                forall|j: int|
                    0 <= j < texts.len() ==> map_of(texts)[#[trigger] texts[j].0] == texts[j].1,
                forall|key: Seq<char>| #[trigger]
                    map_of(texts).contains_key(key) <==> exists|j: int| #[trigger]
                        lists(texts, j, key),
                forall|j: int|
                    0 <= j < i ==> bytes_of((#[trigger] self.entries@[j]).0@).len() <= PACK_LIMIT
                        && bytes_of(self.entries@[j].1@).len() <= PACK_LIMIT,
            decreases self.entries.len() - i,
        {
            let entry = &self.entries[i];
            if entry.0.as_str().as_bytes().len() > PACK_LIMIT || entry.1.as_str().as_bytes().len()
                > PACK_LIMIT {
                proof {
                    assert(lists(texts, i as int, entry.0@));
                    assert(self@.contains_key(entry.0@));
                }
                return None;
            }
            i = i + 1;
        }
        pack(&self.entries)
    }

    /// The cache that the bytes hold, or an empty one where they hold
    /// none.
    pub fn from_bytes(bytes: &[u8]) -> (r: FaviconCache)
        ensures
            r@ == match unpacked(bytes@) {
                Some(cache) => cache,
                None => Map::empty(),
            },
    {
        let mut cache = FaviconCache::new();
        let entries = match unpack(bytes) {
            Some(entries) => entries,
            None => { return cache; },
        };
        let mut i: usize = 0;
        while i < entries.len()
            invariant
                i <= entries@.len(),
                cache@ == map_of(texts_of(entries@).take(i as int)),
            decreases entries.len() - i,
        {
            let ghost texts = texts_of(entries@);
            assert(texts.take(i + 1).drop_last() =~= texts.take(i as int));
            cache.insert(entries[i].0.clone(), entries[i].1.clone());
            i = i + 1;
        }
        assert(texts_of(entries@).take(i as int) =~= texts_of(entries@));
        cache
    }
}

/// The pair at `i` has the key `key`.
pub open spec fn lists(entries: Seq<(Seq<char>, Seq<char>)>, i: int, key: Seq<char>) -> bool {
    0 <= i < entries.len() && entries[i].0 == key
}

/// No key comes twice.
pub open spec fn distinct_keys(entries: Seq<(Seq<char>, Seq<char>)>) -> bool {
    forall|i: int, j: int|
        0 <= i < j < entries.len() ==> #[trigger] entries[i].0 != #[trigger] entries[j].0
}

/// The mapping of a list holds a key exactly when a pair of the list has
/// it, and where no key comes twice it holds every pair.
proof fn lemma_map_of_distinct(entries: Seq<(Seq<char>, Seq<char>)>)
    ensures
        forall|key: Seq<char>| #[trigger]
            map_of(entries).contains_key(key) <==> exists|i: int| #[trigger] lists(entries, i, key),
        distinct_keys(entries) ==> forall|i: int|
            0 <= i < entries.len() ==> map_of(entries)[#[trigger] entries[i].0] == entries[i].1,
    decreases entries.len(),
{
    if entries.len() > 0 {
        let rest = entries.drop_last();
        let last = entries.last();
        lemma_map_of_distinct(rest);
        assert(map_of(entries) == map_of(rest).insert(last.0, last.1));
        assert forall|key: Seq<char>| #[trigger]
            map_of(entries).contains_key(key) <==> exists|i: int| #[trigger]
                lists(entries, i, key) by {
            if map_of(entries).contains_key(key) {
                if key == last.0 {
                    assert(lists(entries, entries.len() - 1, key));
                } else {
                    let i = choose|i: int| #[trigger] lists(rest, i, key);
                    assert(lists(entries, i, key));
                }
            }
            if exists|i: int| #[trigger] lists(entries, i, key) {
                let i = choose|i: int| #[trigger] lists(entries, i, key);
                if i < rest.len() {
                    assert(lists(rest, i, key));
                }
            }
        }
        if distinct_keys(entries) {
            assert forall|i: int| 0 <= i < entries.len() implies map_of(entries)[#[trigger] entries[i].0]
                == entries[i].1 by {
                if i < rest.len() {
                    assert(rest[i] == entries[i]);
                }
            }
        }
    }
}

/// The mapping of a list without a key that comes twice has as many
/// entries as the list.
proof fn lemma_map_of_len(entries: Seq<(Seq<char>, Seq<char>)>)
    requires
        distinct_keys(entries),
    ensures
        map_of(entries).dom().finite(),
        map_of(entries).len() == entries.len(),
    decreases entries.len(),
{
    if entries.len() > 0 {
        let rest = entries.drop_last();
        lemma_map_of_len(rest);
        lemma_map_of_distinct(rest);
    }
}

} // verus!
