//! The report on one completed trade, from the history record that matches
//! the offer to the text of the notification. The assets received are
//! resolved first, then the assets given, so that the second resolution finds
//! in the cache what the first one put there.

use vstd::prelude::*;
use crate::cache::{ClassInfoMap, InfoMap, ItemCache};
use crate::composer::{compose_message, message_text};
use crate::matcher::{find_match, is_first_match, no_match};
use crate::models::{Asset, GetTradeHistoryResponse, TradeHistory, TradeOffer};
use crate::plan::{LookupBatch, LookupBatchView};
use crate::resolver::{cache_after, found_count, Resolution, ResolutionView};

verus! {

/// The resolution of the assets given: it waits until the assets received
/// are resolved.
enum GivenSide {
    Waiting(Vec<Asset>),
    Begun(Resolution),
}

/// What is known of the assets given.
pub enum GivenView {
    /// The assets, while the resolution of the assets received has lookups
    /// to make.
    Waiting(Seq<Asset>),
    /// Their resolution, once that of the assets received is done.
    Begun(ResolutionView),
}

/// The report on one completed trade, in progress.
pub struct TradeReport {
    tradeid: String,
    received: Resolution,
    given: GivenSide,
}

/// What a `TradeReport` holds.
pub struct TradeReportView {
    /// The id of the matched history record.
    pub tradeid: Seq<char>,
    /// The resolution of the assets received.
    pub received: ResolutionView,
    /// The assets given, or their resolution.
    pub given: GivenView,
}

/// The assets of a list that may be absent.
pub open spec fn assets_of(list: Option<Vec<Asset>>) -> Seq<Asset> {
    match list {
        Some(assets) => assets@,
        None => Seq::empty(),
    }
}

impl TradeReportView {
    /// The assets given wait exactly while the resolution of the assets
    /// received has a lookup pending.
    pub open spec fn wf(self) -> bool {
        self.given is Waiting <==> self.received.pending() is Some
    }

    /// The state in which the report on `record` starts against `cache`.
    pub open spec fn begins(self, record: TradeHistory, cache: InfoMap) -> bool {
        &&& self.wf()
        &&& self.tradeid == record.tradeid@
        &&& self.received.starts(assets_of(record.assets_received), cache)
        &&& match self.given {
            GivenView::Waiting(assets) => assets == assets_of(record.assets_given),
            GivenView::Begun(given) => given.starts(assets_of(record.assets_given), cache),
        }
    }

    /// The lookup to make next, if any is left.
    pub open spec fn pending(self) -> Option<LookupBatchView> {
        match self.given {
            GivenView::Waiting(_) => self.received.pending(),
            GivenView::Begun(given) => given.pending(),
        }
    }

    /// The state follows `before` by the answer to the pending lookup, `Some`
    /// of what was found or `None` for a failure, where the cache holds
    /// `cache` afterwards: the answer goes to the resolution that the lookup
    /// belongs to, and once the assets received are resolved, the resolution
    /// of the assets given starts against the cache as it is then.
    pub open spec fn follows(
        self,
        before: TradeReportView,
        answer: Option<InfoMap>,
        cache: InfoMap,
    ) -> bool {
        &&& self.wf()
        &&& self.tradeid == before.tradeid
        &&& match before.given {
            GivenView::Begun(given) => {
                &&& self.received == before.received
                &&& self.given == GivenView::Begun(given.answer(answer))
            },
            GivenView::Waiting(assets) => {
                &&& self.received == before.received.answer(answer)
                &&& match self.given {
                    GivenView::Waiting(still) => still == assets,
                    GivenView::Begun(given) => given.starts(assets, cache),
                }
            },
        }
    }

    /// The text of the notification: the trade id and the names of the
    /// assets received and given.
    pub open spec fn text(self) -> Seq<char> {
        message_text(
            self.tradeid,
            self.received.resolved_names(),
            match self.given {
                GivenView::Waiting(_) => Seq::empty(),
                GivenView::Begun(given) => given.resolved_names(),
            },
        )
    }
}

impl View for TradeReport {
    type V = TradeReportView;

    closed spec fn view(&self) -> TradeReportView {
        TradeReportView {
            tradeid: self.tradeid@,
            received: self.received@,
            given: match self.given {
                GivenSide::Waiting(assets) => GivenView::Waiting(assets@),
                GivenSide::Begun(given) => GivenView::Begun(given@),
            },
        }
    }
}

/// The assets of a list that may be absent.
fn assets_or_none(list: Option<Vec<Asset>>) -> (assets: Vec<Asset>)
    ensures
        assets@ == assets_of(list),
{
    match list {
        Some(assets) => assets,
        None => Vec::new(),
    }
}

impl TradeReport {
    /// Starts the report on the history record of a trade: resolves from the
    /// cache what it can of the assets received and, where that needs no
    /// lookup, of the assets given.
    pub fn begin(record: TradeHistory, cache: &ItemCache) -> (report: Self)
        ensures
            report@.begins(record, cache@),
    {
        let received = Resolution::begin(assets_or_none(record.assets_received), cache);
        let given_assets = assets_or_none(record.assets_given);
        let given = if received.pending().is_none() {
            GivenSide::Begun(Resolution::begin(given_assets, cache))
        } else {
            GivenSide::Waiting(given_assets)
        };
        TradeReport { tradeid: record.tradeid, received, given }
    }

    /// Starts the report on a completed offer from the history that was
    /// fetched for it: on the first record that lies within the match window
    /// of the offer. `None` where no record does: then nothing is reported.
    pub fn for_offer(offer: &TradeOffer, history: GetTradeHistoryResponse, cache: &ItemCache) -> (report:
        Option<Self>)
        ensures
            match report {
                Some(r) => exists|i: int| #[trigger]
                    is_first_match(history.response.trades@, *offer, i) && r@.begins(
                        history.response.trades[i],
                        cache@,
                    ),
                None => no_match(history.response.trades@, *offer),
            },
    {
        match find_match(offer, &history) {
            Some(index) => {
                let mut trades = history.response.trades;
                let record = trades.swap_remove(index);
                assert(is_first_match(history.response.trades@, *offer, index as int));
                Some(TradeReport::begin(record, cache))
            },
            None => None,
        }
    }

    /// The lookup to make next, if any is left.
    pub fn pending(&self) -> (batch: Option<&LookupBatch>)
        ensures
            match batch {
                Some(b) => self@.pending() == Some(b@),
                None => self@.pending() is None,
            },
    {
        match &self.given {
            GivenSide::Waiting(_) => self.received.pending(),
            GivenSide::Begun(given) => given.pending(),
        }
    }

    /// Starts the resolution of the assets given where they still wait and
    /// the assets received are resolved.
    fn proceed(&mut self, cache: &ItemCache)
        requires
            old(self)@.given is Begun ==> old(self)@.received.pending() is None,
        ensures
            final(self)@.wf(),
            final(self)@.tradeid == old(self)@.tradeid,
            final(self)@.received == old(self)@.received,
            match old(self)@.given {
                GivenView::Begun(given) => final(self)@.given == old(self)@.given,
                GivenView::Waiting(assets) => match final(self)@.given {
                    GivenView::Waiting(still) => still == assets,
                    GivenView::Begun(given) => given.starts(assets, cache@),
                },
            },
    {
        if self.received.pending().is_none() {
            let mut side = GivenSide::Waiting(Vec::new());
            std::mem::swap(&mut self.given, &mut side);
            self.given = match side {
                GivenSide::Waiting(assets) => GivenSide::Begun(Resolution::begin(assets, cache)),
                GivenSide::Begun(given) => GivenSide::Begun(given),
            };
        }
    }

    /// Takes the answer `found` to the pending lookup, as the resolution
    /// does that the lookup belongs to: what the answer holds for the pairs of
    /// the batch is cached and names them. Returns how many pairs the answer
    /// held. With no lookup pending nothing changes.
    pub fn batch_found(&mut self, cache: &mut ItemCache, found: &ClassInfoMap) -> (resolved: usize)
        requires
            old(self)@.wf(),
            old(cache).wf(),
        ensures
            final(cache).wf(),
            final(self)@.follows(old(self)@, Some(found@), final(cache)@),
            match old(self)@.pending() {
                Some(batch) => final(cache)@ == cache_after(old(cache)@, found@, batch.pairs)
                    && resolved == found_count(found@, batch.pairs),
                None => final(cache)@ == old(cache)@ && resolved == 0,
            },
    {
        let resolved = match &mut self.given {
            GivenSide::Waiting(_) => self.received.batch_found(cache, found),
            GivenSide::Begun(given) => given.batch_found(cache, found),
        };
        self.proceed(cache);
        resolved
    }

    /// Records that the pending lookup failed. `cache` is the cache as it is
    /// now. With no lookup pending nothing changes.
    pub fn batch_failed(&mut self, cache: &ItemCache)
        requires
            old(self)@.wf(),
        ensures
            final(self)@.follows(old(self)@, None, cache@),
    {
        match &mut self.given {
            GivenSide::Waiting(_) => self.received.batch_failed(),
            GivenSide::Begun(given) => given.batch_failed(),
        };
        self.proceed(cache);
    }

    /// The text of the notification, once no lookup is pending; `None`
    /// before.
    pub fn message(&self) -> (text: Option<String>)
        requires
            self@.wf(),
        ensures
            match text {
                Some(t) => self@.pending() is None && t@ == self@.text(),
                None => self@.pending() is Some,
            },
    {
        match &self.given {
            GivenSide::Waiting(_) => None,
            GivenSide::Begun(given) => {
                if given.pending().is_some() {
                    None
                } else {
                    let received = self.received.names();
                    let given_names = given.names();
                    Some(compose_message(self.tradeid.as_str(), &received, &given_names))
                }
            },
        }
    }
}

} // verus!
