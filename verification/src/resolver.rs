//! Resolves the assets of a trade into display names: from the cache where a
//! class is cached, else through the planned lookups, answered one by one.

use vstd::prelude::*;
use vstd::string::StringExecFns;
use crate::cache::{ClassInfoMap, InfoMap, ItemCache};
use crate::composer::texts;
use crate::models::{Asset, AssetClassInfo, AssetClassInfoView};
use crate::plan::{
    asset_pair, batches_view, is_miss_of, plan_lookups, is_plan, LookupBatch, LookupBatchView,
    PairView,
};
use crate::text::{pairs_view, text_eq};

verus! {

/// The key under which a lookup may answer for a pair in place of the class
/// id alone: the class id, an underscore, and the sub-instance id.
pub open spec fn composite_key(classid: Seq<char>, instanceid: Seq<char>) -> Seq<char> {
    classid + seq!['_'] + instanceid
}

/// What the answer to a lookup holds for a pair: the entry under the class
/// id where there is one, else the entry under the composite key, if any.
pub open spec fn found_info(found: InfoMap, pair: PairView) -> Option<AssetClassInfoView> {
    if found.contains_key(pair.0) {
        Some(found[pair.0])
    } else if found.contains_key(composite_key(pair.0, pair.1)) {
        Some(found[composite_key(pair.0, pair.1)])
    } else {
        None
    }
}

/// What the answer to a lookup holds for the pair of the two ids.
pub fn find_info<'a>(found: &'a ClassInfoMap, classid: &str, instanceid: &str) -> (info: Option<
    &'a AssetClassInfo,
>)
    ensures
        match info {
            Some(i) => found_info(found@, (classid@, instanceid@)) == Some(i@),
            None => found_info(found@, (classid@, instanceid@)) is None,
        },
{
    match found.get(classid) {
        Some(info) => Some(info),
        None => {
            let mut key = classid.to_owned();
            key.append("_");
            key.append(instanceid);
            proof {
                reveal_strlit("_");
                assert("_"@ =~= seq!['_']);
            }
            found.get(key.as_str())
        },
    }
}

/// The name given to an asset that could not be resolved.
pub open spec fn placeholder(assetid: Seq<char>) -> Seq<char> {
    "Unknown Asset ("@ + assetid + ")"@
}

/// The name given to an asset that could not be resolved.
pub fn placeholder_name(assetid: &str) -> (name: String)
    ensures
        name@ == placeholder(assetid@),
{
    let mut name = String::from_str("Unknown Asset (");
    name.append(assetid);
    name.append(")");
    name
}

/// The names known for the pairs of a list of entries, each a class id, a
/// sub-instance id and a name: for each pair the name of its last entry.
spec fn names_map(entries: Seq<(String, String, String)>) -> Map<PairView, Seq<char>>
    decreases entries.len(),
{
    if entries.len() == 0 {
        Map::empty()
    } else {
        names_map(entries.drop_last()).insert(
            (entries.last().0@, entries.last().1@),
            entries.last().2@,
        )
    }
}

/// The name known for the pair of the two ids, if any.
fn known_name<'a>(
    entries: &'a Vec<(String, String, String)>,
    classid: &str,
    instanceid: &str,
) -> (name: Option<&'a String>)
    ensures
        match name {
            Some(n) => names_map(entries@).contains_key((classid@, instanceid@)) && n@
                == names_map(entries@)[(classid@, instanceid@)],
            None => !names_map(entries@).contains_key((classid@, instanceid@)),
        },
{
    let ghost pair = (classid@, instanceid@);
    let mut i: usize = entries.len();
    assert(entries@.take(i as int) =~= entries@);
    while i > 0
        invariant
            i <= entries.len(),
            pair == (classid@, instanceid@),
            names_map(entries@).contains_key(pair) == names_map(
                entries@.take(i as int),
            ).contains_key(pair),
            names_map(entries@).contains_key(pair) ==> names_map(entries@)[pair] == names_map(
                entries@.take(i as int),
            )[pair],
        decreases i,
    {
        i -= 1;
        let entry = &entries[i];
        proof {
            let upto = entries@.take(i + 1);
            assert(upto.drop_last() =~= entries@.take(i as int));
            assert(upto.last() == *entry);
        }
        if text_eq(entry.0.as_str(), classid) && text_eq(entry.1.as_str(), instanceid) {
            return Some(&entry.2);
        }
    }
    None
}

/// The names that the cache gives at the start: for each pair of an asset
/// whose class is cached, the market hash name of that class.
pub open spec fn cached_names(assets: Seq<Asset>, cache: InfoMap) -> Map<PairView, Seq<char>> {
    Map::new(
        |p: PairView|
            cache.contains_key(p.0) && exists|k: int|
                0 <= k < assets.len() && #[trigger] asset_pair(assets[k]) == p,
        |p: PairView| cache[p.0].market_hash_name,
    )
}

/// The names known after a lookup for `pairs` was answered with `found`:
/// for each of the pairs that the answer holds, the market hash name that it
/// gives; for every other pair the name known before, if any.
pub open spec fn names_after(
    names: Map<PairView, Seq<char>>,
    found: InfoMap,
    pairs: Seq<PairView>,
) -> Map<PairView, Seq<char>> {
    Map::new(
        |p: PairView| names.contains_key(p) || (pairs.contains(p) && found_info(found, p) is Some),
        |p: PairView|
            if pairs.contains(p) && found_info(found, p) is Some {
                found_info(found, p)->0.market_hash_name
            } else {
                names[p]
            },
    )
}

/// The cache after a lookup for `pairs` was answered with `found`: for each
/// of the pairs in turn, what the answer holds for it is cached under its
/// class id.
pub open spec fn cache_after(cache: InfoMap, found: InfoMap, pairs: Seq<PairView>) -> InfoMap
    decreases pairs.len(),
{
    if pairs.len() == 0 {
        cache
    } else {
        let before = cache_after(cache, found, pairs.drop_last());
        match found_info(found, pairs.last()) {
            Some(info) => before.insert(pairs.last().0, info),
            None => before,
        }
    }
}

/// How many of `pairs` the answer `found` holds.
pub open spec fn found_count(found: InfoMap, pairs: Seq<PairView>) -> nat
    decreases pairs.len(),
{
    if pairs.len() == 0 {
        0
    } else {
        found_count(found, pairs.drop_last()) + if found_info(found, pairs.last()) is Some {
            1nat
        } else {
            0nat
        }
    }
}

/// The name of an asset under the names known: the name of its pair, else
/// the placeholder with its asset id.
pub open spec fn resolved_name(names: Map<PairView, Seq<char>>, asset: Asset) -> Seq<char> {
    if names.contains_key(asset_pair(asset)) {
        names[asset_pair(asset)]
    } else {
        placeholder(asset.assetid@)
    }
}

/// The resolution of the assets of one list, in progress: the names known so
/// far and the lookups still to make.
pub struct Resolution {
    assets: Vec<Asset>,
    known: Vec<(String, String, String)>,
    batches: Vec<LookupBatch>,
    answered: usize,
}

/// What a `Resolution` holds.
pub struct ResolutionView {
    /// The assets to name.
    pub assets: Seq<Asset>,
    /// The names known so far, by pair.
    pub names: Map<PairView, Seq<char>>,
    /// The planned lookups.
    pub batches: Seq<LookupBatchView>,
    /// How many of the lookups were answered.
    pub answered: nat,
}

impl ResolutionView {
    /// The state in which the resolution of `assets` against `cache` starts:
    /// the names are those that the cache gives, the lookups are the plan
    /// for the assets, and none is answered.
    pub open spec fn starts(self, assets: Seq<Asset>, cache: InfoMap) -> bool {
        &&& self.assets == assets
        &&& self.names == cached_names(assets, cache)
        &&& is_plan(self.batches, assets, cache)
        &&& self.answered == 0
    }

    /// The names of the assets under the names known, in their order.
    pub open spec fn resolved_names(self) -> Seq<Seq<char>> {
        Seq::new(self.assets.len(), |k: int| resolved_name(self.names, self.assets[k]))
    }

    /// The lookup to make next, if any is left.
    pub open spec fn pending(self) -> Option<LookupBatchView> {
        if self.answered < self.batches.len() {
            Some(self.batches[self.answered as int])
        } else {
            None
        }
    }

    /// The state after the pending lookup was answered: with `Some` of what
    /// it found, or with `None` where it failed. With no lookup pending the
    /// state stays.
    pub open spec fn answer(self, found: Option<InfoMap>) -> ResolutionView {
        match self.pending() {
            Some(batch) => ResolutionView {
                names: match found {
                    Some(f) => names_after(self.names, f, batch.pairs),
                    None => self.names,
                },
                answered: self.answered + 1,
                ..self
            },
            None => self,
        }
    }
}

impl View for Resolution {
    type V = ResolutionView;

    closed spec fn view(&self) -> ResolutionView {
        ResolutionView {
            assets: self.assets@,
            names: names_map(self.known@),
            batches: batches_view(self.batches@),
            answered: self.answered as nat,
        }
    }
}

impl Resolution {
    /// Starts to resolve `assets`: takes from the cache the names of those
    /// whose class is cached and plans the lookups for the others.
    pub fn begin(assets: Vec<Asset>, cache: &ItemCache) -> (resolution: Self)
        ensures
            resolution@.starts(assets@, cache@),
    {
        let mut known: Vec<(String, String, String)> = Vec::new();
        let mut k: usize = 0;
        assert(names_map(known@) =~= cached_names(assets@.take(0), cache@));
        while k < assets.len()
            invariant
                k <= assets.len(),
                names_map(known@) == cached_names(assets@.take(k as int), cache@),
            decreases assets.len() - k,
        {
            let asset = &assets[k];
            let ghost seen = assets@.take(k as int);
            let ghost more = assets@.take(k + 1);
            let ghost before = known@;
            assert(more =~= seen.push(*asset));
            match cache.get(asset.classid.as_str(), asset.instanceid.as_str()) {
                Some(info) => {
                    known.push((asset.classid.clone(), asset.instanceid.clone(), info.market_hash_name));
                    proof {
                        assert(known@.drop_last() =~= before);
                        assert(asset_pair(more[k as int]) == asset_pair(*asset));
                        assert forall|p: PairView| #[trigger]
                            cached_names(more, cache@).contains_key(p) == (cached_names(
                                seen,
                                cache@,
                            ).contains_key(p) || p == asset_pair(*asset)) by {
                            if cached_names(more, cache@).contains_key(p) && p != asset_pair(*asset) {
                                let i = choose|i: int|
                                    0 <= i < more.len() && #[trigger] asset_pair(more[i]) == p;
                                assert(asset_pair(seen[i]) == p);
                            }
                            if cached_names(seen, cache@).contains_key(p) {
                                let i = choose|i: int|
                                    0 <= i < seen.len() && #[trigger] asset_pair(seen[i]) == p;
                                assert(asset_pair(more[i]) == p);
                            }
                        }
                        assert(names_map(known@) =~= cached_names(more, cache@));
                    }
                },
                None => {
                    proof {
                        assert forall|p: PairView| #[trigger]
                            cached_names(more, cache@).contains_key(p) == cached_names(
                                seen,
                                cache@,
                            ).contains_key(p) by {
                            if cached_names(more, cache@).contains_key(p) {
                                let i = choose|i: int|
                                    0 <= i < more.len() && #[trigger] asset_pair(more[i]) == p;
                                assert(asset_pair(seen[i]) == p);
                            }
                            if cached_names(seen, cache@).contains_key(p) {
                                let i = choose|i: int|
                                    0 <= i < seen.len() && #[trigger] asset_pair(seen[i]) == p;
                                assert(asset_pair(more[i]) == p);
                            }
                        }
                        assert(cached_names(more, cache@) =~= cached_names(seen, cache@));
                    }
                },
            }
            k += 1;
        }
        assert(assets@.take(assets.len() as int) =~= assets@);
        let batches = plan_lookups(&assets, cache);
        Resolution { assets, known, batches, answered: 0 }
    }

    /// The lookup to make next, if any is left.
    pub fn pending(&self) -> (batch: Option<&LookupBatch>)
        ensures
            match batch {
                Some(b) => self@.pending() == Some(b@),
                None => self@.pending() is None,
            },
    {
        if self.answered < self.batches.len() {
            Some(&self.batches[self.answered])
        } else {
            None
        }
    }

    /// Takes the answer `found` to the pending lookup: for each pair of the
    /// batch that the answer holds, under the class id or else under the
    /// composite key, the metadata is cached under the class id and its
    /// market hash name becomes the name of the pair. Returns how many pairs
    /// the answer held. With no lookup pending nothing changes.
    pub fn batch_found(&mut self, cache: &mut ItemCache, found: &ClassInfoMap) -> (resolved: usize)
        requires
            old(cache).wf(),
        ensures
            final(cache).wf(),
            final(self)@ == old(self)@.answer(Some(found@)),
            match old(self)@.pending() {
                Some(batch) => final(cache)@ == cache_after(old(cache)@, found@, batch.pairs)
                    && resolved == found_count(found@, batch.pairs),
                None => final(cache)@ == old(cache)@ && resolved == 0,
            },
    {
        if self.answered >= self.batches.len() {
            return 0;
        }
        let ghost names = names_map(self.known@);
        let ghost cached = cache@;
        let ghost pairs = pairs_view(self.batches[self.answered as int].pairs@);
        let batch = &self.batches[self.answered];
        let mut resolved: usize = 0;
        let mut i: usize = 0;
        assert(pairs.take(0) =~= Seq::<PairView>::empty());
        assert(names_map(self.known@) =~= names_after(names, found@, pairs.take(0)));
        while i < batch.pairs.len()
            invariant
                i <= batch.pairs.len(),
                self.assets == old(self).assets,
                self.batches == old(self).batches,
                self.answered == old(self).answered,
                self.answered < self.batches.len(),
                pairs == pairs_view(batch.pairs@),
                cache.wf(),
                resolved == found_count(found@, pairs.take(i as int)),
                resolved <= i,
                names_map(self.known@) == names_after(names, found@, pairs.take(i as int)),
                cache@ == cache_after(cached, found@, pairs.take(i as int)),
            decreases batch.pairs.len() - i,
        {
            let pair = &batch.pairs[i];
            let ghost before = self.known@;
            let ghost upto = pairs.take(i as int);
            let ghost next = pairs.take(i + 1);
            proof {
                assert(next.drop_last() =~= upto);
                assert(next.last() == (pair.0@, pair.1@));
                assert forall|p: PairView| next.contains(p) <==> upto.contains(p) || p == (
                    pair.0@,
                    pair.1@,
                ) by {
                    if next.contains(p) {
                        let j = choose|j: int| 0 <= j < next.len() && next[j] == p;
                        if j < i {
                            assert(upto[j] == p);
                        }
                    }
                    if upto.contains(p) {
                        let j = choose|j: int| 0 <= j < upto.len() && upto[j] == p;
                        assert(next[j] == p);
                    }
                    if p == (pair.0@, pair.1@) {
                        assert(next[i as int] == p);
                    }
                }
            }
            match find_info(found, pair.0.as_str(), pair.1.as_str()) {
                Some(info) => {
                    cache.insert(pair.0.as_str(), pair.1.as_str(), info.clone());
                    self.known.push((pair.0.clone(), pair.1.clone(), info.market_hash_name.clone()));
                    resolved += 1;
                    proof {
                        assert(self.known@.drop_last() =~= before);
                        assert(names_map(self.known@) =~= names_after(names, found@, next));
                    }
                },
                None => {
                    proof {
                        assert(names_after(names, found@, upto) =~= names_after(names, found@, next));
                    }
                },
            }
            i += 1;
        }
        assert(pairs.take(pairs.len() as int) =~= pairs);
        self.answered += 1;
        resolved
    }

    /// Records that the pending lookup failed: its pairs keep what names they
    /// had, and the next lookup becomes pending. With no lookup pending
    /// nothing changes.
    pub fn batch_failed(&mut self)
        ensures
            final(self)@ == old(self)@.answer(None),
    {
        if self.answered < self.batches.len() {
            self.answered += 1;
        }
    }

    /// The names of the assets, one for each and in their order: for an asset
    /// whose pair has a name that name, else the placeholder with its asset
    /// id.
    pub fn names(&self) -> (list: Vec<String>)
        ensures
            texts(list@) == self@.resolved_names(),
    {
        let mut list: Vec<String> = Vec::new();
        let mut k: usize = 0;
        while k < self.assets.len()
            invariant
                k <= self.assets.len(),
                list.len() == k,
                forall|i: int|
                    0 <= i < k ==> (#[trigger] list[i])@ == resolved_name(
                        names_map(self.known@),
                        self.assets[i],
                    ),
            decreases self.assets.len() - k,
        {
            let asset = &self.assets[k];
            let name = match known_name(&self.known, asset.classid.as_str(), asset.instanceid.as_str()) {
                Some(name) => name.clone(),
                None => placeholder_name(asset.assetid.as_str()),
            };
            list.push(name);
            k += 1;
        }
        assert(texts(list@) =~= self@.resolved_names());
        list
    }
}

/// The state after the lookups were answered in turn with `answers`, each
/// `Some` of what was found or `None` for a failure.
pub open spec fn answer_all(start: ResolutionView, answers: Seq<Option<InfoMap>>) -> ResolutionView
    decreases answers.len(),
{
    if answers.len() == 0 {
        start
    } else {
        answer_all(start, answers.drop_last()).answer(answers.last())
    }
}

/// Answers change neither the assets nor the plan, and each answer to a
/// pending lookup makes the next one pending.
pub proof fn lemma_answer_all_frame(start: ResolutionView, answers: Seq<Option<InfoMap>>)
    ensures
        answer_all(start, answers).assets == start.assets,
        answer_all(start, answers).batches == start.batches,
        start.answered + answers.len() <= start.batches.len() ==> answer_all(
            start,
            answers,
        ).answered == start.answered + answers.len(),
    decreases answers.len(),
{
    if answers.len() > 0 {
        lemma_answer_all_frame(start, answers.drop_last());
    }
}

/// Two assets with the same class id and sub-instance id get the same name,
/// where the pair has a name or the two have the same asset id.
pub proof fn lemma_same_pair_same_name(names: Map<PairView, Seq<char>>, a: Asset, b: Asset)
    requires
        asset_pair(a) == asset_pair(b),
        names.contains_key(asset_pair(a)) || a.assetid@ == b.assetid@,
    ensures
        resolved_name(names, a) == resolved_name(names, b),
{
}

/// An asset whose class is neither cached at the start nor held, for its
/// pair, by any answer gets the placeholder with its asset id.
pub proof fn lemma_unresolved_gets_placeholder(
    start: ResolutionView,
    cache: InfoMap,
    answers: Seq<Option<InfoMap>>,
    k: int,
)
    requires
        start.names == cached_names(start.assets, cache),
        0 <= k < start.assets.len(),
        !cache.contains_key(start.assets[k].classid@),
        forall|n: int|
            0 <= n < answers.len() && (#[trigger] answers[n]) is Some ==> found_info(
                answers[n]->0,
                asset_pair(start.assets[k]),
            ) is None,
    ensures
        !answer_all(start, answers).names.contains_key(asset_pair(start.assets[k])),
        resolved_name(answer_all(start, answers).names, start.assets[k]) == placeholder(
            start.assets[k].assetid@,
        ),
    decreases answers.len(),
{
    if answers.len() > 0 {
        let front = answers.drop_last();
        assert forall|n: int| 0 <= n < front.len() && (#[trigger] front[n]) is Some implies found_info(
            front[n]->0,
            asset_pair(start.assets[k]),
        ) is None by {
            assert(front[n] == answers[n]);
        }
        lemma_unresolved_gets_placeholder(start, cache, front, k);
        assert(answers.last() == answers[answers.len() - 1]);
    }
}

/// An asset whose class is cached at the start gets the market hash name
/// that the cache held for the class then, whatever the lookups answer.
pub proof fn lemma_cached_gets_cached_name(
    start: ResolutionView,
    cache: InfoMap,
    answers: Seq<Option<InfoMap>>,
    k: int,
)
    requires
        start.names == cached_names(start.assets, cache),
        is_plan(start.batches, start.assets, cache),
        0 <= k < start.assets.len(),
        cache.contains_key(start.assets[k].classid@),
    ensures
        resolved_name(answer_all(start, answers).names, start.assets[k])
            == cache[start.assets[k].classid@].market_hash_name,
    decreases answers.len(),
{
    let pair = asset_pair(start.assets[k]);
    if answers.len() == 0 {
        assert(asset_pair(start.assets[k]) == pair);
    } else {
        let front = answers.drop_last();
        lemma_cached_gets_cached_name(start, cache, front, k);
        lemma_answer_all_frame(start, front);
        let before = answer_all(start, front);
        assert(asset_pair(start.assets[k]) == pair);
        if before.pending() is Some {
            let j = before.answered as int;
            if start.batches[j].pairs.contains(pair) {
                let m = choose|m: int| #[trigger]
                    is_miss_of(start.assets, cache, m, start.batches[j].appid, pair);
                assert(false);
            }
        }
    }
}

/// An asset whose pair a lookup found gets the market hash name found there,
/// where no later lookup found the pair again: with the batches answered in
/// turn from the start, the name is that of answer `n` to the batch at
/// position `n`.
pub proof fn lemma_found_gets_found_name(
    start: ResolutionView,
    answers: Seq<Option<InfoMap>>,
    k: int,
    n: int,
)
    requires
        start.answered == 0,
        answers.len() <= start.batches.len(),
        0 <= k < start.assets.len(),
        0 <= n < answers.len(),
        answers[n] is Some,
        start.batches[n].pairs.contains(asset_pair(start.assets[k])),
        found_info(answers[n]->0, asset_pair(start.assets[k])) is Some,
        forall|m: int|
            n < m < answers.len() && (#[trigger] answers[m]) is Some && start.batches[m].pairs.contains(
                asset_pair(start.assets[k]),
            ) ==> found_info(answers[m]->0, asset_pair(start.assets[k])) is None,
    ensures
        resolved_name(answer_all(start, answers).names, start.assets[k]) == found_info(
            answers[n]->0,
            asset_pair(start.assets[k]),
        )->0.market_hash_name,
    decreases answers.len(),
{
    let pair = asset_pair(start.assets[k]);
    let front = answers.drop_last();
    let last = answers.len() - 1;
    lemma_answer_all_frame(start, front);
    let before = answer_all(start, front);
    assert(before.answered == last);
    assert(before.pending() == Some(start.batches[last]));
    assert(answers.last() == answers[last]);
    if n < last {
        assert(front[n] == answers[n]);
        assert forall|m: int|
            n < m < front.len() && (#[trigger] front[m]) is Some && start.batches[m].pairs.contains(
                pair,
            ) implies found_info(front[m]->0, pair) is None by {
            assert(front[m] == answers[m]);
        }
        lemma_found_gets_found_name(start, front, k, n);
    }
}

/// A lookup that holds a pair under the composite key only resolves the
/// assets of that pair with the entry found there.
pub proof fn lemma_composite_key_resolves(
    names: Map<PairView, Seq<char>>,
    found: InfoMap,
    pairs: Seq<PairView>,
    asset: Asset,
)
    requires
        pairs.contains(asset_pair(asset)),
        !found.contains_key(asset.classid@),
        found.contains_key(composite_key(asset.classid@, asset.instanceid@)),
    ensures
        resolved_name(names_after(names, found, pairs), asset) == found[composite_key(
            asset.classid@,
            asset.instanceid@,
        )].market_hash_name,
{
}

/// A lookup takes nothing out of the cache: what was cached stays cached, and
/// a class of which the answer holds no pair keeps its entry.
pub proof fn lemma_cache_only_grows(
    cache: InfoMap,
    found: InfoMap,
    pairs: Seq<PairView>,
    classid: Seq<char>,
)
    requires
        cache.contains_key(classid),
    ensures
        cache_after(cache, found, pairs).contains_key(classid),
        (forall|i: int|
            0 <= i < pairs.len() && (#[trigger] pairs[i]).0 == classid ==> found_info(
                found,
                pairs[i],
            ) is None) ==> cache_after(cache, found, pairs)[classid] == cache[classid],
    decreases pairs.len(),
{
    if pairs.len() > 0 {
        let front = pairs.drop_last();
        lemma_cache_only_grows(cache, found, front, classid);
        if forall|i: int|
            0 <= i < pairs.len() && (#[trigger] pairs[i]).0 == classid ==> found_info(
                found,
                pairs[i],
            ) is None {
            assert forall|i: int|
                0 <= i < front.len() && (#[trigger] front[i]).0 == classid implies found_info(
                found,
                front[i],
            ) is None by {
                assert(front[i] == pairs[i]);
            }
            assert(pairs.last() == pairs[pairs.len() - 1]);
        }
    }
}

/// What a lookup found for a pair is cached under the class id of the pair,
/// unless it found a later pair of the same class.
pub proof fn lemma_found_is_cached(cache: InfoMap, found: InfoMap, pairs: Seq<PairView>, i: int)
    requires
        0 <= i < pairs.len(),
        found_info(found, pairs[i]) is Some,
        forall|j: int|
            i < j < pairs.len() && (#[trigger] pairs[j]).0 == pairs[i].0 ==> found_info(
                found,
                pairs[j],
            ) is None,
    ensures
        cache_after(cache, found, pairs).contains_key(pairs[i].0),
        cache_after(cache, found, pairs)[pairs[i].0] == found_info(found, pairs[i])->0,
    decreases pairs.len(),
{
    let front = pairs.drop_last();
    let last = pairs.len() - 1;
    assert(pairs.last() == pairs[last]);
    if i < last {
        assert(front[i] == pairs[i]);
        assert forall|j: int|
            i < j < front.len() && (#[trigger] front[j]).0 == front[i].0 implies found_info(
            found,
            front[j],
        ) is None by {
            assert(front[j] == pairs[j]);
        }
        lemma_found_is_cached(cache, found, front, i);
    }
}

} // verus!
