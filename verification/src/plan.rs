//! The plan of lookups for a list of assets: which pairs of class id and
//! sub-instance id to ask for, batched by namespace.

use vstd::prelude::*;
use crate::cache::{InfoMap, ItemCache};
use crate::models::Asset;
use crate::text::{
    lemma_text_before_irreflexive, lemma_text_before_transitive, pairs_view, text_before,
    text_order, Order,
};

verus! {

/// A class id and a sub-instance id, as text.
pub type PairView = (Seq<char>, Seq<char>);

/// The class id and sub-instance id of an asset.
pub open spec fn asset_pair(asset: Asset) -> PairView {
    (asset.classid@, asset.instanceid@)
}

/// The order of pairs: by class id, then by sub-instance id.
pub open spec fn pair_before(p: PairView, q: PairView) -> bool {
    text_before(p.0, q.0) || (p.0 == q.0 && text_before(p.1, q.1))
}

/// Each pair of the list comes before every later one, so none occurs twice.
pub open spec fn strictly_sorted(pairs: Seq<PairView>) -> bool {
    forall|i: int, j: int|
        0 <= i < j < pairs.len() ==> pair_before(#[trigger] pairs[i], #[trigger] pairs[j])
}

/// No pair comes before itself.
pub proof fn lemma_pair_before_irreflexive(p: PairView)
    ensures
        !pair_before(p, p),
{
    lemma_text_before_irreflexive(p.0);
    lemma_text_before_irreflexive(p.1);
}

/// The order of pairs is transitive.
pub proof fn lemma_pair_before_transitive(p: PairView, q: PairView, r: PairView)
    requires
        pair_before(p, q),
        pair_before(q, r),
    ensures
        pair_before(p, r),
{
    if text_before(p.0, q.0) && text_before(q.0, r.0) {
        lemma_text_before_transitive(p.0, q.0, r.0);
    }
    if p.0 == q.0 && q.0 == r.0 {
        lemma_text_before_transitive(p.1, q.1, r.1);
    }
}

/// Where the stored pair stands relative to the pair of the two given ids.
fn pair_order(stored: &(String, String), classid: &str, instanceid: &str) -> (order: Order)
    ensures
        match order {
            Order::Before => pair_before((stored.0@, stored.1@), (classid@, instanceid@)),
            Order::Same => (stored.0@, stored.1@) == (classid@, instanceid@),
            Order::After => pair_before((classid@, instanceid@), (stored.0@, stored.1@)),
        },
{
    match text_order(stored.0.as_str(), classid) {
        Order::Before => Order::Before,
        Order::After => Order::After,
        Order::Same => text_order(stored.1.as_str(), instanceid),
    }
}

/// Puts a pair into a sorted list at its place, unless the list holds it.
/// Returns whether the pair was added.
fn insert_pair(pairs: &mut Vec<(String, String)>, classid: &str, instanceid: &str) -> (added: bool)
    requires
        strictly_sorted(pairs_view(old(pairs)@)),
    ensures
        strictly_sorted(pairs_view(final(pairs)@)),
        added == !pairs_view(old(pairs)@).contains((classid@, instanceid@)),
        forall|p: PairView|
            pairs_view(final(pairs)@).contains(p) <==> pairs_view(old(pairs)@).contains(p) || p == (
                classid@,
                instanceid@,
            ),
{
    let ghost before = pairs_view(pairs@);
    let ghost new = (classid@, instanceid@);
    let mut pos: usize = 0;
    let mut placed = false;
    while pos < pairs.len() && !placed
        invariant
            pairs@ == old(pairs)@,
            before == pairs_view(pairs@),
            new == (classid@, instanceid@),
            strictly_sorted(before),
            pos <= pairs.len(),
            forall|j: int| 0 <= j < pos ==> pair_before(#[trigger] before[j], new),
            placed ==> pos < pairs.len() && pair_before(new, before[pos as int]),
        decreases pairs.len() - pos + (if placed { 0int } else { 1int }),
    {
        match pair_order(&pairs[pos], classid, instanceid) {
            Order::Before => {
                pos += 1;
            },
            Order::Same => {
                assert(before[pos as int] == new);
                return false;
            },
            Order::After => {
                placed = true;
            },
        }
    }
    pairs.insert(pos, (classid.to_owned(), instanceid.to_owned()));
    proof {
        let after = pairs_view(pairs@);
        assert(after =~= before.insert(pos as int, new));
        assert forall|j: int| pos <= j < before.len() implies pair_before(
            new,
            #[trigger] before[j],
        ) by {
            if j > pos {
                lemma_pair_before_transitive(new, before[pos as int], before[j]);
            }
        }
        assert forall|i: int, j: int| 0 <= i < j < after.len() implies pair_before(
            #[trigger] after[i],
            #[trigger] after[j],
        ) by {
            if i < pos && j > pos {
                assert(after[i] == before[i]);
                assert(after[j] == before[j - 1]);
            } else if i > pos {
                assert(after[i] == before[i - 1]);
                assert(after[j] == before[j - 1]);
            }
        }
        if before.contains(new) {
            let j = choose|j: int| 0 <= j < before.len() && before[j] == new;
            lemma_pair_before_irreflexive(new);
        }
        assert forall|p: PairView| after.contains(p) <==> before.contains(p) || p == new by {
            if after.contains(p) {
                let i = choose|i: int| 0 <= i < after.len() && after[i] == p;
                if i < pos {
                    assert(before[i] == p);
                } else if i > pos {
                    assert(before[i - 1] == p);
                }
            }
            if before.contains(p) {
                let i = choose|i: int| 0 <= i < before.len() && before[i] == p;
                if i < pos {
                    assert(after[i] == p);
                } else {
                    assert(after[i + 1] == p);
                }
            }
            if p == new {
                assert(after[pos as int] == p);
            }
        }
    }
    true
}

/// One batched lookup: the pairs to ask for in one namespace.
#[derive(Debug, Clone)]
pub struct LookupBatch {
    pub appid: u32,
    pub pairs: Vec<(String, String)>,
}

/// A batch, with its pairs as text.
pub struct LookupBatchView {
    pub appid: u32,
    pub pairs: Seq<PairView>,
}

impl View for LookupBatch {
    type V = LookupBatchView;

    open spec fn view(&self) -> LookupBatchView {
        LookupBatchView { appid: self.appid, pairs: pairs_view(self.pairs@) }
    }
}

/// The batches of a list, with their pairs as text.
pub open spec fn batches_view(batches: Seq<LookupBatch>) -> Seq<LookupBatchView> {
    Seq::new(batches.len(), |j: int| batches[j]@)
}

/// The asset at position `k` is of namespace `appid` and its class is not
/// cached.
pub open spec fn is_miss_in(assets: Seq<Asset>, cache: InfoMap, k: int, appid: u32) -> bool {
    &&& 0 <= k < assets.len()
    &&& !cache.contains_key(assets[k].classid@)
    &&& assets[k].appid == appid
}

/// The asset at position `k` is of namespace `appid`, has the pair `pair`,
/// and its class is not cached.
pub open spec fn is_miss_of(
    assets: Seq<Asset>,
    cache: InfoMap,
    k: int,
    appid: u32,
    pair: PairView,
) -> bool {
    is_miss_in(assets, cache, k, appid) && asset_pair(assets[k]) == pair
}

/// The batch at position `j` is that of namespace `appid` and holds `pair`.
pub open spec fn batch_holds(
    batches: Seq<LookupBatchView>,
    j: int,
    appid: u32,
    pair: PairView,
) -> bool {
    &&& 0 <= j < batches.len()
    &&& batches[j].appid == appid
    &&& batches[j].pairs.contains(pair)
}

/// Every uncached asset of namespace `later` stands behind position `k`.
pub open spec fn all_behind(assets: Seq<Asset>, cache: InfoMap, k: int, later: u32) -> bool {
    forall|k2: int| #[trigger] is_miss_in(assets, cache, k2, later) ==> k < k2
}

/// The first uncached asset of namespace `earlier` stands before every
/// uncached asset of namespace `later`.
pub open spec fn appears_first(
    assets: Seq<Asset>,
    cache: InfoMap,
    earlier: u32,
    later: u32,
) -> bool {
    exists|k: int| #[trigger]
        is_miss_in(assets, cache, k, earlier) && all_behind(assets, cache, k, later)
}

/// `batches` is the lookup plan for `assets` against `cache`:
/// - no batch is empty, and the pairs of each are strictly sorted;
/// - no two batches are of the same namespace;
/// - a batch holds only pairs of uncached assets of its namespace;
/// - the pair of every uncached asset is in the batch of its namespace;
/// - the batches stand in the order in which their namespaces first occur
///   among the uncached assets.
/// There is exactly one such plan.
pub open spec fn is_plan(batches: Seq<LookupBatchView>, assets: Seq<Asset>, cache: InfoMap) -> bool {
    &&& forall|j: int|
        0 <= j < batches.len() ==> (#[trigger] batches[j]).pairs.len() > 0 && strictly_sorted(
            batches[j].pairs,
        )
    &&& forall|j1: int, j2: int|
        0 <= j1 < j2 < batches.len() ==> (#[trigger] batches[j1]).appid != (
        #[trigger] batches[j2]).appid
    &&& forall|j: int, p: PairView|
        0 <= j < batches.len() && #[trigger] batches[j].pairs.contains(p) ==> exists|k: int|
            #[trigger] is_miss_of(assets, cache, k, batches[j].appid, p)
    &&& forall|k: int|
        0 <= k < assets.len() && !cache.contains_key((#[trigger] assets[k]).classid@)
            ==> exists|j: int| #[trigger]
            batch_holds(batches, j, assets[k].appid, asset_pair(assets[k]))
    &&& forall|j1: int, j2: int|
        0 <= j1 < j2 < batches.len() ==> appears_first(
            assets,
            cache,
            (#[trigger] batches[j1]).appid,
            (#[trigger] batches[j2]).appid,
        )
}

/// A plan stays one when an asset of a cached class is added.
proof fn lemma_plan_skip(
    batches: Seq<LookupBatchView>,
    assets: Seq<Asset>,
    cache: InfoMap,
    asset: Asset,
)
    requires
        is_plan(batches, assets, cache),
        cache.contains_key(asset.classid@),
    ensures
        is_plan(batches, assets.push(asset), cache),
{
    let more = assets.push(asset);
    assert forall|j: int, p: PairView|
        0 <= j < batches.len() && #[trigger] batches[j].pairs.contains(p) implies exists|k: int|
        #[trigger] is_miss_of(more, cache, k, batches[j].appid, p) by {
        let k = choose|k: int| #[trigger] is_miss_of(assets, cache, k, batches[j].appid, p);
        assert(is_miss_of(more, cache, k, batches[j].appid, p));
    }
    assert forall|k: int|
        0 <= k < more.len() && !cache.contains_key((#[trigger] more[k]).classid@) implies exists|
        j: int,
    | #[trigger] batch_holds(batches, j, more[k].appid, asset_pair(more[k])) by {
        assert(more[k] == assets[k]);
    }
    assert forall|j1: int, j2: int| 0 <= j1 < j2 < batches.len() implies appears_first(
        more,
        cache,
        (#[trigger] batches[j1]).appid,
        (#[trigger] batches[j2]).appid,
    ) by {
        lemma_appears_first_keeps(assets, cache, asset, batches[j1].appid, batches[j2].appid);
    }
}

/// A namespace that appears first keeps doing so when an asset is added at
/// the end.
proof fn lemma_appears_first_keeps(
    assets: Seq<Asset>,
    cache: InfoMap,
    asset: Asset,
    earlier: u32,
    later: u32,
)
    requires
        appears_first(assets, cache, earlier, later),
    ensures
        appears_first(assets.push(asset), cache, earlier, later),
{
    let more = assets.push(asset);
    let k = choose|k: int| #[trigger]
        is_miss_in(assets, cache, k, earlier) && all_behind(assets, cache, k, later);
    assert(is_miss_in(more, cache, k, earlier));
    assert forall|k2: int| #[trigger] is_miss_in(more, cache, k2, later) implies k < k2 by {
        if k2 < assets.len() {
            assert(is_miss_in(assets, cache, k2, later));
        }
    }
}

/// A plan stays one when an uncached asset is added and its pair is put into
/// the batch of its namespace.
proof fn lemma_plan_extend(
    batches: Seq<LookupBatchView>,
    assets: Seq<Asset>,
    cache: InfoMap,
    asset: Asset,
    j: int,
    pairs: Seq<PairView>,
)
    requires
        is_plan(batches, assets, cache),
        !cache.contains_key(asset.classid@),
        0 <= j < batches.len(),
        batches[j].appid == asset.appid,
        strictly_sorted(pairs),
        forall|p: PairView|
            pairs.contains(p) <==> batches[j].pairs.contains(p) || p == asset_pair(asset),
    ensures
        is_plan(
            batches.update(j, LookupBatchView { appid: asset.appid, pairs }),
            assets.push(asset),
            cache,
        ),
{
    let more = assets.push(asset);
    let next = batches.update(j, LookupBatchView { appid: asset.appid, pairs });
    let last = assets.len() as int;
    assert(pairs.contains(asset_pair(asset)));
    assert forall|i: int| 0 <= i < next.len() implies (#[trigger] next[i]).pairs.len() > 0
        && strictly_sorted(next[i].pairs) by {
        if i != j {
            assert(next[i] == batches[i]);
        }
    }
    assert forall|j1: int, j2: int| 0 <= j1 < j2 < next.len() implies (#[trigger] next[j1]).appid
        != (#[trigger] next[j2]).appid by {
        assert(next[j1].appid == batches[j1].appid);
        assert(next[j2].appid == batches[j2].appid);
    }
    assert forall|i: int, p: PairView|
        0 <= i < next.len() && #[trigger] next[i].pairs.contains(p) implies exists|k: int|
        #[trigger] is_miss_of(more, cache, k, next[i].appid, p) by {
        if i == j && p == asset_pair(asset) {
            assert(is_miss_of(more, cache, last, next[i].appid, p));
        } else {
            assert(batches[i].pairs.contains(p));
            let k = choose|k: int| #[trigger] is_miss_of(assets, cache, k, batches[i].appid, p);
            assert(is_miss_of(more, cache, k, next[i].appid, p));
        }
    }
    assert forall|k: int|
        0 <= k < more.len() && !cache.contains_key((#[trigger] more[k]).classid@) implies exists|
        i: int,
    | #[trigger] batch_holds(next, i, more[k].appid, asset_pair(more[k])) by {
        if k == last {
            assert(batch_holds(next, j, more[k].appid, asset_pair(more[k])));
        } else {
            assert(more[k] == assets[k]);
            let i = choose|i: int| #[trigger]
                batch_holds(batches, i, assets[k].appid, asset_pair(assets[k]));
            assert(batch_holds(next, i, more[k].appid, asset_pair(more[k])));
        }
    }
    assert forall|j1: int, j2: int| 0 <= j1 < j2 < next.len() implies appears_first(
        more,
        cache,
        (#[trigger] next[j1]).appid,
        (#[trigger] next[j2]).appid,
    ) by {
        assert(next[j1].appid == batches[j1].appid);
        assert(next[j2].appid == batches[j2].appid);
        lemma_appears_first_keeps(assets, cache, asset, batches[j1].appid, batches[j2].appid);
    }
}

/// A plan stays one when an uncached asset of a namespace without a batch is
/// added and a batch of its pair alone is put at the end.
proof fn lemma_plan_open(
    batches: Seq<LookupBatchView>,
    assets: Seq<Asset>,
    cache: InfoMap,
    asset: Asset,
)
    requires
        is_plan(batches, assets, cache),
        !cache.contains_key(asset.classid@),
        forall|j: int| 0 <= j < batches.len() ==> (#[trigger] batches[j]).appid != asset.appid,
    ensures
        is_plan(
            batches.push(LookupBatchView { appid: asset.appid, pairs: seq![asset_pair(asset)] }),
            assets.push(asset),
            cache,
        ),
{
    let more = assets.push(asset);
    let opened = LookupBatchView { appid: asset.appid, pairs: seq![asset_pair(asset)] };
    let next = batches.push(opened);
    let last = assets.len() as int;
    let end = batches.len() as int;
    assert(opened.pairs[0] == asset_pair(asset));
    assert forall|i: int| 0 <= i < next.len() implies (#[trigger] next[i]).pairs.len() > 0
        && strictly_sorted(next[i].pairs) by {
        if i < end {
            assert(next[i] == batches[i]);
        }
    }
    assert forall|j1: int, j2: int| 0 <= j1 < j2 < next.len() implies (#[trigger] next[j1]).appid
        != (#[trigger] next[j2]).appid by {
        assert(next[j1] == batches[j1]);
        if j2 < end {
            assert(next[j2] == batches[j2]);
        }
    }
    assert forall|i: int, p: PairView|
        0 <= i < next.len() && #[trigger] next[i].pairs.contains(p) implies exists|k: int|
        #[trigger] is_miss_of(more, cache, k, next[i].appid, p) by {
        if i == end {
            assert(is_miss_of(more, cache, last, next[i].appid, p));
        } else {
            assert(batches[i].pairs.contains(p));
            let k = choose|k: int| #[trigger] is_miss_of(assets, cache, k, batches[i].appid, p);
            assert(is_miss_of(more, cache, k, next[i].appid, p));
        }
    }
    assert forall|k: int|
        0 <= k < more.len() && !cache.contains_key((#[trigger] more[k]).classid@) implies exists|
        i: int,
    | #[trigger] batch_holds(next, i, more[k].appid, asset_pair(more[k])) by {
        if k == last {
            assert(batch_holds(next, end, more[k].appid, asset_pair(more[k])));
        } else {
            assert(more[k] == assets[k]);
            let i = choose|i: int| #[trigger]
                batch_holds(batches, i, assets[k].appid, asset_pair(assets[k]));
            assert(batch_holds(next, i, more[k].appid, asset_pair(more[k])));
        }
    }
    assert forall|j1: int, j2: int| 0 <= j1 < j2 < next.len() implies appears_first(
        more,
        cache,
        (#[trigger] next[j1]).appid,
        (#[trigger] next[j2]).appid,
    ) by {
        assert(next[j1] == batches[j1]);
        if j2 < end {
            assert(next[j2] == batches[j2]);
            lemma_appears_first_keeps(assets, cache, asset, batches[j1].appid, batches[j2].appid);
        } else {
            let p = batches[j1].pairs[0];
            assert(batches[j1].pairs.contains(p));
            let k = choose|k: int| #[trigger] is_miss_of(assets, cache, k, batches[j1].appid, p);
            assert(is_miss_in(more, cache, k, batches[j1].appid));
            assert forall|k2: int| #[trigger]
                is_miss_in(more, cache, k2, asset.appid) implies k < k2 by {
                if k2 < last {
                    assert(more[k2] == assets[k2]);
                    let i = choose|i: int| #[trigger]
                        batch_holds(batches, i, assets[k2].appid, asset_pair(assets[k2]));
                    assert(batches[i].appid != asset.appid);
                }
            }
        }
    }
}

/// Two lists that hold the same items, each with every item standing before
/// all later ones in one strict order, are the same list.
proof fn lemma_sorted_lists_agree<T>(x: Seq<T>, y: Seq<T>, before: spec_fn(T, T) -> bool)
    requires
        forall|a: T| !#[trigger] before(a, a),
        forall|a: T, b: T, c: T| #[trigger] before(a, b) && #[trigger] before(b, c) ==> before(a, c),
        forall|i: int, j: int| 0 <= i < j < x.len() ==> before(#[trigger] x[i], #[trigger] x[j]),
        forall|i: int, j: int| 0 <= i < j < y.len() ==> before(#[trigger] y[i], #[trigger] y[j]),
        forall|e: T| x.contains(e) <==> y.contains(e),
    ensures
        x == y,
    decreases x.len(),
{
    if x.len() == 0 {
        if y.len() > 0 {
            assert(y.contains(y[0]));
        }
        assert(x =~= y);
    } else {
        let m = x.last();
        assert(x.contains(m));
        let i = choose|i: int| 0 <= i < y.len() && y[i] == m;
        let n = y.last();
        assert(y.contains(n));
        let t = choose|t: int| 0 <= t < x.len() && x[t] == n;
        if i < y.len() - 1 {
            assert(before(y[i], y[y.len() - 1]));
            if t < x.len() - 1 {
                assert(before(x[t], x[x.len() - 1]));
            }
            assert(false);
        }
        let xs = x.drop_last();
        let ys = y.drop_last();
        assert forall|e: T| xs.contains(e) <==> ys.contains(e) by {
            if xs.contains(e) {
                let a = choose|a: int| 0 <= a < xs.len() && xs[a] == e;
                assert(before(x[a], x[x.len() - 1]));
                assert(x.contains(e));
                let b = choose|b: int| 0 <= b < y.len() && y[b] == e;
                assert(ys[b] == e);
            }
            if ys.contains(e) {
                let b = choose|b: int| 0 <= b < ys.len() && ys[b] == e;
                assert(before(y[b], y[y.len() - 1]));
                assert(y.contains(e));
                let a = choose|a: int| 0 <= a < x.len() && x[a] == e;
                assert(xs[a] == e);
            }
        }
        assert forall|a: int, b: int| 0 <= a < b < xs.len() implies before(
            #[trigger] xs[a],
            #[trigger] xs[b],
        ) by {
            assert(before(x[a], x[b]));
        }
        assert forall|a: int, b: int| 0 <= a < b < ys.len() implies before(
            #[trigger] ys[a],
            #[trigger] ys[b],
        ) by {
            assert(before(y[a], y[b]));
        }
        lemma_sorted_lists_agree(xs, ys, before);
        assert(x =~= xs.push(m));
        assert(y =~= ys.push(m));
    }
}

/// The namespaces of the batches, in their order.
pub open spec fn batch_appids(batches: Seq<LookupBatchView>) -> Seq<u32> {
    Seq::new(batches.len(), |j: int| batches[j].appid)
}

/// Each namespace of one plan has a batch in the other that holds the same
/// pairs.
proof fn lemma_plans_cover_each_other(
    a: Seq<LookupBatchView>,
    b: Seq<LookupBatchView>,
    assets: Seq<Asset>,
    cache: InfoMap,
    j: int,
    p: PairView,
)
    requires
        is_plan(a, assets, cache),
        is_plan(b, assets, cache),
        0 <= j < a.len(),
        a[j].pairs.contains(p),
    ensures
        exists|i: int| #[trigger] batch_holds(b, i, a[j].appid, p),
{
    let k = choose|k: int| #[trigger] is_miss_of(assets, cache, k, a[j].appid, p);
    assert(!cache.contains_key(assets[k].classid@));
}

/// The plan for a list of assets against a cache is unique: two lists of
/// batches that are both a plan are the same.
pub proof fn lemma_plan_unique(
    a: Seq<LookupBatchView>,
    b: Seq<LookupBatchView>,
    assets: Seq<Asset>,
    cache: InfoMap,
)
    requires
        is_plan(a, assets, cache),
        is_plan(b, assets, cache),
    ensures
        a == b,
{
    let first = |x: u32, y: u32| appears_first(assets, cache, x, y);
    let xs = batch_appids(a);
    let ys = batch_appids(b);
    assert forall|x: u32, y: u32, z: u32| #[trigger] first(x, y) && #[trigger] first(y, z) implies first(
        x,
        z,
    ) by {
        let k1 = choose|k: int| #[trigger]
            is_miss_in(assets, cache, k, x) && all_behind(assets, cache, k, y);
        let k2 = choose|k: int| #[trigger]
            is_miss_in(assets, cache, k, y) && all_behind(assets, cache, k, z);
        assert(all_behind(assets, cache, k1, z));
    }
    assert forall|e: u32| xs.contains(e) <==> ys.contains(e) by {
        if xs.contains(e) {
            let j = choose|j: int| 0 <= j < xs.len() && xs[j] == e;
            let p = a[j].pairs[0];
            assert(a[j].pairs.contains(p));
            lemma_plans_cover_each_other(a, b, assets, cache, j, p);
            let i = choose|i: int| #[trigger] batch_holds(b, i, a[j].appid, p);
            assert(ys[i] == e);
        }
        if ys.contains(e) {
            let j = choose|j: int| 0 <= j < ys.len() && ys[j] == e;
            let p = b[j].pairs[0];
            assert(b[j].pairs.contains(p));
            lemma_plans_cover_each_other(b, a, assets, cache, j, p);
            let i = choose|i: int| #[trigger] batch_holds(a, i, b[j].appid, p);
            assert(xs[i] == e);
        }
    }
    assert forall|i: int, j: int| 0 <= i < j < xs.len() implies first(
        #[trigger] xs[i],
        #[trigger] xs[j],
    ) by {
        assert(appears_first(assets, cache, a[i].appid, a[j].appid));
    }
    assert forall|i: int, j: int| 0 <= i < j < ys.len() implies first(
        #[trigger] ys[i],
        #[trigger] ys[j],
    ) by {
        assert(appears_first(assets, cache, b[i].appid, b[j].appid));
    }
    lemma_sorted_lists_agree(xs, ys, first);
    assert(a.len() == b.len());
    assert forall|j: int| 0 <= j < a.len() implies a[j] == b[j] by {
        assert(xs[j] == ys[j]);
        let before = |p: PairView, q: PairView| pair_before(p, q);
        assert forall|p: PairView| !#[trigger] before(p, p) by {
            lemma_pair_before_irreflexive(p);
        }
        assert forall|p: PairView, q: PairView, r: PairView| #[trigger]
            before(p, q) && #[trigger] before(q, r) implies before(p, r) by {
            lemma_pair_before_transitive(p, q, r);
        }
        assert forall|p: PairView| a[j].pairs.contains(p) <==> b[j].pairs.contains(p) by {
            if a[j].pairs.contains(p) {
                lemma_plans_cover_each_other(a, b, assets, cache, j, p);
                let i = choose|i: int| #[trigger] batch_holds(b, i, a[j].appid, p);
                assert(i == j);
            }
            if b[j].pairs.contains(p) {
                lemma_plans_cover_each_other(b, a, assets, cache, j, p);
                let i = choose|i: int| #[trigger] batch_holds(a, i, b[j].appid, p);
                assert(i == j);
            }
        }
        assert(strictly_sorted(a[j].pairs));
        assert(strictly_sorted(b[j].pairs));
        lemma_sorted_lists_agree(a[j].pairs, b[j].pairs, before);
    }
    assert(a =~= b);
}

/// The lookups to make for `assets`: one batch for each namespace that has an
/// asset whose class is not cached, in the order in which the namespaces
/// first occur, each with the pairs of those assets, sorted and without
/// repetition.
pub fn plan_lookups(assets: &Vec<Asset>, cache: &ItemCache) -> (batches: Vec<LookupBatch>)
    ensures
        is_plan(batches_view(batches@), assets@, cache@),
{
    let mut batches: Vec<LookupBatch> = Vec::new();
    let mut k: usize = 0;
    assert(assets@.take(0) =~= Seq::<Asset>::empty());
    while k < assets.len()
        invariant
            k <= assets.len(),
            is_plan(batches_view(batches@), assets@.take(k as int), cache@),
        decreases assets.len() - k,
    {
        let asset = &assets[k];
        let ghost seen = assets@.take(k as int);
        let ghost planned = batches_view(batches@);
        assert(assets@.take(k + 1) =~= seen.push(*asset));
        if cache.contains(asset.classid.as_str()) {
            proof {
                lemma_plan_skip(planned, seen, cache@, *asset);
            }
        } else {
            let mut j: usize = 0;
            while j < batches.len() && batches[j].appid != asset.appid
                invariant
                    j <= batches.len(),
                    forall|i: int| 0 <= i < j ==> (#[trigger] batches[i]).appid != asset.appid,
                decreases batches.len() - j,
            {
                j += 1;
            }
            if j < batches.len() {
                assert(strictly_sorted(planned[j as int].pairs));
                let batch = &mut batches[j];
                insert_pair(&mut batch.pairs, asset.classid.as_str(), asset.instanceid.as_str());
                proof {
                    let pairs = pairs_view(batches[j as int].pairs@);
                    assert(batches_view(batches@) =~= planned.update(
                        j as int,
                        LookupBatchView { appid: asset.appid, pairs },
                    ));
                    lemma_plan_extend(planned, seen, cache@, *asset, j as int, pairs);
                }
            } else {
                let mut pairs: Vec<(String, String)> = Vec::new();
                pairs.push((asset.classid.clone(), asset.instanceid.clone()));
                batches.push(LookupBatch { appid: asset.appid, pairs });
                proof {
                    assert(pairs_view(batches[j as int].pairs@) =~= seq![asset_pair(*asset)]);
                    assert(batches_view(batches@) =~= planned.push(
                        LookupBatchView { appid: asset.appid, pairs: seq![asset_pair(*asset)] },
                    ));
                    assert forall|i: int| 0 <= i < planned.len() implies (#[trigger] planned[i]).appid
                        != asset.appid by {
                        assert(batches[i].appid != asset.appid);
                    }
                    lemma_plan_open(planned, seen, cache@, *asset);
                }
            }
        }
        k += 1;
    }
    assert(assets@.take(assets.len() as int) =~= assets@);
    batches
}

/// A pair is looked up at most once in a namespace: it stands in one batch
/// only, and once in it.
pub proof fn lemma_one_lookup_per_pair(
    batches: Seq<LookupBatchView>,
    assets: Seq<Asset>,
    cache: InfoMap,
    j1: int,
    i1: int,
    j2: int,
    i2: int,
)
    requires
        is_plan(batches, assets, cache),
        0 <= j1 < batches.len(),
        0 <= i1 < batches[j1].pairs.len(),
        0 <= j2 < batches.len(),
        0 <= i2 < batches[j2].pairs.len(),
        batches[j1].appid == batches[j2].appid,
        batches[j1].pairs[i1] == batches[j2].pairs[i2],
    ensures
        j1 == j2,
        i1 == i2,
{
    lemma_pair_before_irreflexive(batches[j1].pairs[i1]);
    if j1 == j2 && i1 != i2 {
        let pairs = batches[j1].pairs;
        if i1 < i2 {
            assert(pair_before(pairs[i1], pairs[i2]));
        } else {
            assert(pair_before(pairs[i2], pairs[i1]));
        }
    }
}

} // verus!
