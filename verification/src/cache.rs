//! The item cache: display metadata by class id, and the string-keyed map
//! that it is built from.

use vstd::prelude::*;
use vstd::hash_map::StringHashMap;
use crate::models::{AssetClassInfo, AssetClassInfoView};

verus! {

/// The contents of the cache, or of the answer to a lookup: display metadata
/// by key.
pub type InfoMap = Map<Seq<char>, AssetClassInfoView>;

/// A map from text keys to display metadata that also keeps a list of its
/// keys, so that its entries can be listed.
pub struct ClassInfoMap {
    map: StringHashMap<AssetClassInfo>,
    keys: Vec<String>,
}

impl View for ClassInfoMap {
    type V = Map<Seq<char>, AssetClassInfoView>;

    closed spec fn view(&self) -> Map<Seq<char>, AssetClassInfoView> {
        Map::new(|k: Seq<char>| self.map@.contains_key(k), |k: Seq<char>| self.map@[k]@)
    }
}

/// The map that a list of entries stands for: each key with the metadata of
/// its last entry.
pub open spec fn entries_map(entries: Seq<(String, AssetClassInfo)>) -> Map<
    Seq<char>,
    AssetClassInfoView,
>
    decreases entries.len(),
{
    if entries.len() == 0 {
        Map::empty()
    } else {
        entries_map(entries.drop_last()).insert(entries.last().0@, entries.last().1@)
    }
}

/// No two entries of the list have the same key.
pub open spec fn distinct_keys(entries: Seq<(String, AssetClassInfo)>) -> bool {
    forall|i: int, j: int|
        0 <= i < j < entries.len() ==> #[trigger] key_at(entries, i) != #[trigger] key_at(entries, j)
}

/// The key of the entry at position `i`.
pub open spec fn key_at(entries: Seq<(String, AssetClassInfo)>, i: int) -> Seq<char> {
    entries[i].0@
}

/// A key is in the map of a list exactly when some entry has it.
pub proof fn lemma_entries_map_keys(entries: Seq<(String, AssetClassInfo)>, key: Seq<char>)
    ensures
        entries_map(entries).contains_key(key) <==> exists|i: int|
            0 <= i < entries.len() && #[trigger] key_at(entries, i) == key,
    decreases entries.len(),
{
    if entries.len() > 0 {
        let front = entries.drop_last();
        let last = entries.len() - 1;
        lemma_entries_map_keys(front, key);
        if entries_map(entries).contains_key(key) {
            if entries.last().0@ == key {
                assert(key_at(entries, last) == key);
            } else {
                let i = choose|i: int| 0 <= i < front.len() && #[trigger] key_at(front, i) == key;
                assert(key_at(entries, i) == key);
            }
        }
        if exists|i: int| 0 <= i < entries.len() && #[trigger] key_at(entries, i) == key {
            let i = choose|i: int| 0 <= i < entries.len() && #[trigger] key_at(entries, i) == key;
            if i < last {
                assert(key_at(front, i) == key);
            }
        }
    }
}

/// The value of a key in the map of a list is that of the last entry that has
/// the key.
pub proof fn lemma_entries_map_value(entries: Seq<(String, AssetClassInfo)>, i: int)
    requires
        0 <= i < entries.len(),
        forall|j: int| i < j < entries.len() ==> #[trigger] key_at(entries, j) != key_at(entries, i),
    ensures
        entries_map(entries).contains_key(key_at(entries, i)),
        entries_map(entries)[key_at(entries, i)] == entries[i].1@,
    decreases entries.len(),
{
    let front = entries.drop_last();
    let last = entries.len() - 1;
    if i < last {
        assert(key_at(entries, last) != key_at(entries, i));
        assert(key_at(front, i) == key_at(entries, i));
        assert forall|j: int| i < j < front.len() implies #[trigger] key_at(front, j) != key_at(
            front,
            i,
        ) by {
            assert(key_at(entries, j) != key_at(entries, i));
        }
        lemma_entries_map_value(front, i);
    }
}

impl ClassInfoMap {
    /// The remembered keys are pairwise different and are exactly the keys of
    /// the map.
    pub closed spec fn wf(&self) -> bool {
        &&& forall|i: int, j: int|
            0 <= i < j < self.keys.len() ==> (#[trigger] self.keys[i])@ != (#[trigger] self.keys[j])@
        &&& forall|i: int|
            0 <= i < self.keys.len() ==> self.map@.contains_key((#[trigger] self.keys[i])@)
        &&& forall|k: Seq<char>|
            self.map@.contains_key(k) ==> exists|i: int|
                0 <= i < self.keys.len() && (#[trigger] self.keys[i])@ == k
    }

    /// An empty map.
    pub fn new() -> (empty: Self)
        ensures
            empty.wf(),
            empty@ == Map::<Seq<char>, AssetClassInfoView>::empty(),
    {
        let empty = ClassInfoMap { map: StringHashMap::new(), keys: Vec::new() };
        assert(empty@ =~= Map::<Seq<char>, AssetClassInfoView>::empty());
        empty
    }

    /// The metadata stored under `key`, if any.
    pub fn get(&self, key: &str) -> (found: Option<&AssetClassInfo>)
        ensures
            match found {
                Some(info) => self@.contains_key(key@) && info@ == self@[key@],
                None => !self@.contains_key(key@),
            },
    {
        self.map.get(key)
    }

    /// Stores `info` under `key`, in place of what was stored there.
    pub fn insert(&mut self, key: String, info: AssetClassInfo)
        requires
            old(self).wf(),
        ensures
            final(self).wf(),
            final(self)@ == old(self)@.insert(key@, info@),
    {
        let ghost before = *self;
        if !self.map.contains_key(key.as_str()) {
            self.keys.push(key.clone());
        }
        self.map.insert(key, info);
        proof {
            assert(self@ =~= before@.insert(key@, info@));
            assert forall|k: Seq<char>| self.map@.contains_key(k) implies exists|i: int|
                0 <= i < self.keys.len() && (#[trigger] self.keys[i])@ == k by {
                if k == key@ {
                    if before.map@.contains_key(key@) {
                        let i = choose|i: int|
                            0 <= i < before.keys.len() && (#[trigger] before.keys[i])@ == k;
                        assert(self.keys[i]@ == k);
                    } else {
                        assert(self.keys[self.keys.len() - 1]@ == k);
                    }
                } else {
                    let i = choose|i: int|
                        0 <= i < before.keys.len() && (#[trigger] before.keys[i])@ == k;
                    assert(self.keys[i]@ == k);
                }
            }
        }
    }

    /// The entries of the map, each key once. Their order is left open.
    pub fn entries(&self) -> (list: Vec<(String, AssetClassInfo)>)
        requires
            self.wf(),
        ensures
            distinct_keys(list@),
            entries_map(list@) == self@,
    {
        let mut list: Vec<(String, AssetClassInfo)> = Vec::new();
        let mut i: usize = 0;
        while i < self.keys.len()
            invariant
                self.wf(),
                i <= self.keys.len(),
                list.len() == i,
                forall|j: int|
                    0 <= j < i ==> (#[trigger] list[j]).0@ == self.keys[j]@ && list[j].1@
                        == self@[self.keys[j]@],
            decreases self.keys.len() - i,
        {
            let key = self.keys[i].clone();
            match self.map.get(key.as_str()) {
                Some(info) => {
                    list.push((key, info.clone()));
                },
                None => {
                    assert(self.map@.contains_key(self.keys[i as int]@));
                },
            }
            i += 1;
        }
        proof {
            let s = list@;
            assert forall|i: int, j: int| 0 <= i < j < s.len() implies #[trigger] key_at(s, i)
                != #[trigger] key_at(s, j) by {
                assert(self.keys[i]@ != self.keys[j]@);
            }
            assert forall|k: Seq<char>| #[trigger]
                entries_map(s).contains_key(k) == self@.contains_key(k) by {
                lemma_entries_map_keys(s, k);
                if self@.contains_key(k) {
                    let i = choose|i: int|
                        0 <= i < self.keys.len() && (#[trigger] self.keys[i])@ == k;
                    assert(key_at(s, i) == k);
                }
                if entries_map(s).contains_key(k) {
                    let i = choose|i: int| 0 <= i < s.len() && #[trigger] key_at(s, i) == k;
                    assert(self.map@.contains_key(self.keys[i]@));
                }
            }
            assert forall|k: Seq<char>| entries_map(s).contains_key(k) implies #[trigger]
                entries_map(s)[k] == self@[k] by {
                lemma_entries_map_keys(s, k);
                let i = choose|i: int| 0 <= i < s.len() && #[trigger] key_at(s, i) == k;
                lemma_entries_map_value(s, i);
            }
            assert(entries_map(s) =~= self@);
        }
        list
    }
}

/// Display metadata of item classes, by class id. The sub-instance id of an
/// item is accepted by the methods and plays no part in the key. Entries are
/// never removed.
pub struct ItemCache {
    infos: ClassInfoMap,
}

impl View for ItemCache {
    type V = Map<Seq<char>, AssetClassInfoView>;

    closed spec fn view(&self) -> Map<Seq<char>, AssetClassInfoView> {
        self.infos@
    }
}

impl ItemCache {
    /// The invariant of the cache's representation.
    pub closed spec fn wf(&self) -> bool {
        self.infos.wf()
    }

    /// A cache that holds the given entries, as read from its backing store.
    /// Where a class id occurs more than once, its last entry counts.
    pub fn new(entries: Vec<(String, AssetClassInfo)>) -> (cache: Self)
        ensures
            cache.wf(),
            cache@ == entries_map(entries@),
    {
        let mut infos = ClassInfoMap::new();
        for entry in it: entries
            invariant
                it.seq() == entries@,
                infos.wf(),
                infos@ == entries_map(entries@.take(it.index() as int)),
        {
            proof {
                let upto = entries@.take(it.index() + 1);
                assert(upto.drop_last() =~= entries@.take(it.index() as int));
                assert(upto.last() == entry);
            }
            infos.insert(entry.0, entry.1);
        }
        assert(entries@.take(entries@.len() as int) =~= entries@);
        ItemCache { infos }
    }

    /// The metadata cached for a class id, if any.
    pub fn get(&self, classid: &str, _instanceid: &str) -> (found: Option<AssetClassInfo>)
        ensures
            match found {
                Some(info) => self@.contains_key(classid@) && info@ == self@[classid@],
                None => !self@.contains_key(classid@),
            },
    {
        match self.infos.get(classid) {
            Some(info) => Some(info.clone()),
            None => None,
        }
    }

    /// Whether a class id is cached.
    pub fn contains(&self, classid: &str) -> (present: bool)
        ensures
            present == self@.contains_key(classid@),
    {
        self.infos.get(classid).is_some()
    }

    /// Caches `info` for a class id, in place of what was cached for it. Every
    /// other entry stays.
    pub fn insert(&mut self, classid: &str, _instanceid: &str, info: AssetClassInfo)
        requires
            old(self).wf(),
        ensures
            final(self).wf(),
            final(self)@ == old(self)@.insert(classid@, info@),
    {
        self.infos.insert(classid.to_owned(), info);
    }

    /// Every entry of the cache, each class id once: what is written to the
    /// backing store. Their order is left open.
    pub fn entries(&self) -> (list: Vec<(String, AssetClassInfo)>)
        requires
            self.wf(),
        ensures
            distinct_keys(list@),
            entries_map(list@) == self@,
    {
        self.infos.entries()
    }
}

/// What was inserted into a cache is found again in a cache rebuilt from the
/// entries that the first one listed afterwards, with equal metadata; and the
/// rebuilt cache holds exactly what the first one held.
pub proof fn lemma_insert_survives_reload(
    before: Map<Seq<char>, AssetClassInfoView>,
    classid: Seq<char>,
    info: AssetClassInfoView,
    listed: Seq<(String, AssetClassInfo)>,
)
    requires
        entries_map(listed) == before.insert(classid, info),
    ensures
        entries_map(listed).contains_key(classid),
        entries_map(listed)[classid] == info,
        forall|other: Seq<char>|
            other != classid && before.contains_key(other) ==> entries_map(listed).contains_key(
                other,
            ) && entries_map(listed)[other] == before[other],
{
}

} // verus!
