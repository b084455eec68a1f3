//! The state that one account's poller keeps between polls, and what it
//! decides: which offers of a poll are new completed trades, and from when
//! the next poll asks.

use vstd::prelude::*;
use vstd::hash_set::StringHashSet;
use crate::models::{GetTradeOffersResponse, TradeOffer, TRADE_OFFER_STATE_ACCEPTED};

verus! {

/// The next poll asks for offers from this many seconds before the time at
/// which the last one was finished.
pub const SAFETY_MARGIN_SECONDS: u64 = 60;

/// The state of one account's poller. Each account has its own.
pub struct Poller {
    boot_time: u64,
    last_poll_time: u64,
    processed: StringHashSet,
}

/// What a `Poller` holds.
pub struct PollerView {
    /// When the poller was started.
    pub boot_time: u64,
    /// The cutoff that the next poll asks with.
    pub last_poll_time: u64,
    /// The ids of the offers that were selected so far.
    pub processed: Set<Seq<char>>,
}

/// The ids of a list of offers.
pub open spec fn offer_ids(offers: Seq<TradeOffer>) -> Set<Seq<char>> {
    Set::new(
        |id: Seq<char>| exists|i: int| 0 <= i < offers.len() && (#[trigger] offers[i]).tradeofferid@ == id,
    )
}

impl PollerView {
    /// An offer is a new completed trade: it was accepted, its id was not
    /// selected before, and it was last updated no earlier than the poller was
    /// started.
    pub open spec fn eligible(self, offer: TradeOffer) -> bool {
        &&& offer.trade_offer_state == TRADE_OFFER_STATE_ACCEPTED
        &&& !self.processed.contains(offer.tradeofferid@)
        &&& offer.time_updated >= self.boot_time
    }

    /// The state after one offer of a poll was looked at: the id of a new
    /// completed trade is processed from then on.
    pub open spec fn see(self, offer: TradeOffer) -> PollerView {
        if self.eligible(offer) {
            PollerView { processed: self.processed.insert(offer.tradeofferid@), ..self }
        } else {
            self
        }
    }

    /// The state after a poll that listed `offers`, looked at in their
    /// order.
    pub open spec fn after_poll(self, offers: Seq<TradeOffer>) -> PollerView
        decreases offers.len(),
    {
        if offers.len() == 0 {
            self
        } else {
            self.after_poll(offers.drop_last()).see(offers.last())
        }
    }

    /// The offers of a poll that are selected, in their order: each offer
    /// that is a new completed trade when it is looked at.
    pub open spec fn selected(self, offers: Seq<TradeOffer>) -> Seq<TradeOffer>
        decreases offers.len(),
    {
        if offers.len() == 0 {
            Seq::empty()
        } else {
            let earlier = self.selected(offers.drop_last());
            if self.after_poll(offers.drop_last()).eligible(offers.last()) {
                earlier.push(offers.last())
            } else {
                earlier
            }
        }
    }
}

impl View for Poller {
    type V = PollerView;

    closed spec fn view(&self) -> PollerView {
        PollerView {
            boot_time: self.boot_time,
            last_poll_time: self.last_poll_time,
            processed: self.processed@,
        }
    }
}

/// The seconds of a timestamp as an unsigned number: itself where it is not
/// negative, else 2^64 more.
pub open spec fn as_unsigned(seconds: i64) -> int {
    if seconds >= 0 {
        seconds as int
    } else {
        seconds + 0x1_0000_0000_0000_0000
    }
}

/// The seconds of a timestamp as an unsigned number.
pub fn timestamp_to_u64(seconds: i64) -> (unsigned: u64)
    ensures
        unsigned == as_unsigned(seconds),
{
    if seconds >= 0 {
        seconds as u64
    } else {
        let below: u64 = (-(seconds + 1)) as u64;
        u64::MAX - below
    }
}

/// The system clock, read through `chrono::Utc::now()` and the `timestamp`
/// of what it returns: the seconds since the Unix epoch. Nothing is claimed
/// of the number. chrono panics where the system clock stands before the
/// epoch.
#[verifier::external_body]
fn unix_time_now() -> (seconds: i64) {
    chrono::Utc::now().timestamp()
}

impl Poller {
    /// A poller started at `boot_time`: its first poll asks from that time,
    /// and no offer is processed.
    pub fn new(boot_time: u64) -> (poller: Self)
        ensures
            poller@ == (PollerView {
                boot_time,
                last_poll_time: boot_time,
                processed: Set::<Seq<char>>::empty(),
            }),
    {
        Poller { boot_time, last_poll_time: boot_time, processed: StringHashSet::new() }
    }

    /// A poller started now, by the system clock.
    pub fn start() -> (poller: Self)
        ensures
            poller@.last_poll_time == poller@.boot_time,
            poller@.processed == Set::<Seq<char>>::empty(),
    {
        Poller::new(timestamp_to_u64(unix_time_now()))
    }

    /// The cutoff that the next poll asks with.
    pub fn cutoff(&self) -> (cutoff: u64)
        ensures
            cutoff == self@.last_poll_time,
    {
        self.last_poll_time
    }

    /// When the poller was started.
    pub fn boot_time(&self) -> (boot_time: u64)
        ensures
            boot_time == self@.boot_time,
    {
        self.boot_time
    }

    /// Whether an offer id was selected before.
    pub fn is_processed(&self, tradeofferid: &str) -> (processed: bool)
        ensures
            processed == self@.processed.contains(tradeofferid@),
    {
        self.processed.contains(tradeofferid)
    }

    /// Looks at `offers` in their order and appends the selected ones to
    /// `out`.
    fn select_from(&mut self, offers: Vec<TradeOffer>, out: &mut Vec<TradeOffer>)
        ensures
            final(self)@ == old(self)@.after_poll(offers@),
            final(out)@ == old(out)@ + old(self)@.selected(offers@),
    {
        let ghost start = out@;
        proof {
            assert(offers@.take(0) =~= Seq::<TradeOffer>::empty());
            assert(out@ =~= start + old(self)@.selected(offers@.take(0)));
        }
        for offer in it: offers
            invariant
                it.seq() == offers@,
                self@ == old(self)@.after_poll(offers@.take(it.index() as int)),
                out@ == start + old(self)@.selected(offers@.take(it.index() as int)),
        {
            proof {
                let upto = offers@.take(it.index() as int);
                let next = offers@.take(it.index() + 1);
                assert(next.drop_last() =~= upto);
                assert(next.last() == offer);
            }
            if offer.trade_offer_state == TRADE_OFFER_STATE_ACCEPTED && !self.processed.contains(
                offer.tradeofferid.as_str(),
            ) && offer.time_updated >= self.boot_time {
                self.processed.insert(offer.tradeofferid.clone());
                out.push(offer);
                assert(out@ =~= start + old(self)@.selected(offers@.take(it.index() + 1)));
            }
        }
        assert(offers@.take(offers@.len() as int) =~= offers@);
    }

    /// Takes the answer to a poll. Returns the offers that are new completed
    /// trades, those of the received offers before those of the sent ones:
    /// the offers that were accepted, were last updated no earlier than the
    /// poller was started, and whose id was not selected before, by an
    /// earlier poll or earlier in this one. Their ids are processed from now
    /// on, so that no offer with one of them is selected again.
    pub fn select_new_trades(&mut self, offers: GetTradeOffersResponse) -> (new_trades: Vec<
        TradeOffer,
    >)
        ensures
            new_trades@ == old(self)@.selected(
                offers.response.trade_offers_received@ + offers.response.trade_offers_sent@,
            ),
            final(self)@ == old(self)@.after_poll(
                offers.response.trade_offers_received@ + offers.response.trade_offers_sent@,
            ),
    {
        let ghost received = offers.response.trade_offers_received@;
        let ghost sent = offers.response.trade_offers_sent@;
        let mut new_trades: Vec<TradeOffer> = Vec::new();
        self.select_from(offers.response.trade_offers_received, &mut new_trades);
        self.select_from(offers.response.trade_offers_sent, &mut new_trades);
        proof {
            lemma_poll_in_two_parts(old(self)@, received, sent);
            assert(new_trades@ =~= old(self)@.selected(received + sent));
        }
        new_trades
    }

    /// Sets the cutoff of the next poll to the safety margin before `now`, the
    /// time at which the cycle was finished.
    pub fn advance_cutoff(&mut self, now: u64)
        requires
            now >= SAFETY_MARGIN_SECONDS,
        ensures
            final(self)@ == (PollerView {
                last_poll_time: (now - SAFETY_MARGIN_SECONDS) as u64,
                ..old(self)@
            }),
    {
        self.last_poll_time = now - SAFETY_MARGIN_SECONDS;
    }

    /// Finishes a cycle whose poll succeeded: reads the system clock and
    /// finishes the cycle at that time, as `finish_cycle_at` says. The result
    /// is the time read, or `None` where it is less than the safety margin
    /// and nothing changed. What was processed stays in any case. After a
    /// poll that failed this is not called.
    pub fn finish_cycle(&mut self) -> (finished: Option<u64>)
        ensures
            match finished {
                Some(now) => now >= SAFETY_MARGIN_SECONDS && final(self)@ == (PollerView {
                    last_poll_time: (now - SAFETY_MARGIN_SECONDS) as u64,
                    ..old(self)@
                }),
                None => final(self)@ == old(self)@,
            },
    {
        self.finish_cycle_at(timestamp_to_u64(unix_time_now()))
    }

    /// Finishes at the time `now` a cycle whose poll succeeded. From the
    /// safety margin on, the cutoff of the next poll becomes the safety
    /// margin before `now`, and the result is `now`. Before it nothing
    /// changes, and the result is `None`.
    pub fn finish_cycle_at(&mut self, now: u64) -> (finished: Option<u64>)
        ensures
            now >= SAFETY_MARGIN_SECONDS ==> finished == Some(now) && final(self)@ == (PollerView {
                last_poll_time: (now - SAFETY_MARGIN_SECONDS) as u64,
                ..old(self)@
            }),
            now < SAFETY_MARGIN_SECONDS ==> finished is None && final(self)@ == old(self)@,
    {
        if now >= SAFETY_MARGIN_SECONDS {
            self.advance_cutoff(now);
            Some(now)
        } else {
            None
        }
    }
}

/// A poll of two lists of offers, one after the other, is a poll of the first
/// list and then a poll of the second.
pub proof fn lemma_poll_in_two_parts(state: PollerView, first: Seq<TradeOffer>, second: Seq<TradeOffer>)
    ensures
        state.after_poll(first + second) == state.after_poll(first).after_poll(second),
        state.selected(first + second) == state.selected(first) + state.after_poll(first).selected(
            second,
        ),
    decreases second.len(),
{
    if second.len() == 0 {
        assert(first + second =~= first);
        assert(state.selected(first) + Seq::<TradeOffer>::empty() =~= state.selected(first));
    } else {
        let all = first + second;
        assert(all.drop_last() =~= first + second.drop_last());
        assert(all.last() == second.last());
        lemma_poll_in_two_parts(state, first, second.drop_last());
        let middle = state.after_poll(first);
        if middle.after_poll(second.drop_last()).eligible(second.last()) {
            assert(state.selected(all) =~= state.selected(first) + middle.selected(second));
        }
    }
}

/// A poll changes neither the boot time nor the cutoff, and what is processed
/// after it is what was processed before and the ids of the selected offers.
pub proof fn lemma_poll_marks_selected(state: PollerView, offers: Seq<TradeOffer>)
    ensures
        state.after_poll(offers).boot_time == state.boot_time,
        state.after_poll(offers).last_poll_time == state.last_poll_time,
        state.after_poll(offers).processed == state.processed.union(
            offer_ids(state.selected(offers)),
        ),
    decreases offers.len(),
{
    if offers.len() == 0 {
        assert(state.processed =~= state.processed.union(offer_ids(state.selected(offers))));
    } else {
        let front = offers.drop_last();
        lemma_poll_marks_selected(state, front);
        let before = state.after_poll(front);
        let earlier = state.selected(front);
        let chosen = state.selected(offers);
        if before.eligible(offers.last()) {
            assert(chosen[chosen.len() - 1].tradeofferid@ == offers.last().tradeofferid@);
        }
        assert forall|id: Seq<char>|
            offer_ids(chosen).contains(id) <==> offer_ids(earlier).contains(id) || (before.eligible(
                offers.last(),
            ) && id == offers.last().tradeofferid@) by {
            if offer_ids(chosen).contains(id) {
                let i = choose|i: int|
                    0 <= i < chosen.len() && (#[trigger] chosen[i]).tradeofferid@ == id;
                if i < earlier.len() {
                    assert(earlier[i].tradeofferid@ == id);
                }
            }
            if offer_ids(earlier).contains(id) {
                let i = choose|i: int|
                    0 <= i < earlier.len() && (#[trigger] earlier[i]).tradeofferid@ == id;
                assert(chosen[i].tradeofferid@ == id);
            }
        }
        assert(state.after_poll(offers).processed =~= state.processed.union(offer_ids(chosen)));
    }
}

/// A selected offer is one of the offers of the poll, and was a new completed
/// trade when the poll began.
pub proof fn lemma_selected_are_eligible(state: PollerView, offers: Seq<TradeOffer>, offer: TradeOffer)
    requires
        state.selected(offers).contains(offer),
    ensures
        offers.contains(offer),
        state.eligible(offer),
    decreases offers.len(),
{
    if offers.len() > 0 {
        let front = offers.drop_last();
        let earlier = state.selected(front);
        let chosen = state.selected(offers);
        let i = choose|i: int| 0 <= i < chosen.len() && chosen[i] == offer;
        if i < earlier.len() {
            assert(earlier[i] == offer);
            assert(earlier.contains(offer));
            lemma_selected_are_eligible(state, front, offer);
            let j = choose|j: int| 0 <= j < front.len() && front[j] == offer;
            assert(offers[j] == offer);
        } else {
            lemma_poll_marks_selected(state, front);
            assert(offers[offers.len() - 1] == offer);
        }
    }
}

/// No two offers selected from one poll have the same id.
pub proof fn lemma_selected_ids_differ(state: PollerView, offers: Seq<TradeOffer>, i: int, j: int)
    requires
        0 <= i < j < state.selected(offers).len(),
    ensures
        state.selected(offers)[i].tradeofferid@ != state.selected(offers)[j].tradeofferid@,
    decreases offers.len(),
{
    if offers.len() > 0 {
        let front = offers.drop_last();
        let earlier = state.selected(front);
        if j < earlier.len() {
            lemma_selected_ids_differ(state, front, i, j);
        } else {
            lemma_poll_marks_selected(state, front);
            assert(offer_ids(earlier).contains(earlier[i].tradeofferid@));
        }
    }
}

/// An offer of a poll that was a new completed trade when the poll began has
/// its id processed after the poll: it was selected, or an offer with its id
/// before it was.
pub proof fn lemma_eligible_is_processed(state: PollerView, offers: Seq<TradeOffer>, offer: TradeOffer)
    requires
        offers.contains(offer),
        state.eligible(offer),
    ensures
        offer_ids(state.selected(offers)).contains(offer.tradeofferid@),
        state.after_poll(offers).processed.contains(offer.tradeofferid@),
    decreases offers.len(),
{
    let front = offers.drop_last();
    let id = offer.tradeofferid@;
    let i = choose|i: int| 0 <= i < offers.len() && offers[i] == offer;
    lemma_poll_marks_selected(state, offers);
    lemma_poll_marks_selected(state, front);
    if i < front.len() {
        assert(front[i] == offer);
        lemma_eligible_is_processed(state, front, offer);
        assert(state.after_poll(front).processed.contains(id));
    } else {
        assert(offers.last() == offer);
    }
    assert(state.after_poll(offers).processed.contains(id));
    assert(state.processed.union(offer_ids(state.selected(offers))).contains(id));
}

/// An offer whose state is not the accepted one is never selected.
pub proof fn lemma_never_selects_unaccepted(
    state: PollerView,
    offers: Seq<TradeOffer>,
    offer: TradeOffer,
)
    requires
        offer.trade_offer_state != TRADE_OFFER_STATE_ACCEPTED,
    ensures
        !state.selected(offers).contains(offer),
{
    if state.selected(offers).contains(offer) {
        lemma_selected_are_eligible(state, offers, offer);
    }
}

/// An offer that was last updated before the poller was started is never
/// selected, whatever its state.
pub proof fn lemma_never_selects_before_boot(
    state: PollerView,
    offers: Seq<TradeOffer>,
    offer: TradeOffer,
)
    requires
        offer.time_updated < state.boot_time,
    ensures
        !state.selected(offers).contains(offer),
{
    if state.selected(offers).contains(offer) {
        lemma_selected_are_eligible(state, offers, offer);
    }
}

/// The state after a run of polls, each with the offers that it listed.
pub open spec fn after_polls(start: PollerView, polls: Seq<Seq<TradeOffer>>) -> PollerView
    decreases polls.len(),
{
    if polls.len() == 0 {
        start
    } else {
        after_polls(start, polls.drop_last()).after_poll(polls.last())
    }
}

/// Polls change neither the boot time nor the cutoff, and what is processed
/// stays processed.
pub proof fn lemma_polls_keep_processed(start: PollerView, polls: Seq<Seq<TradeOffer>>)
    ensures
        after_polls(start, polls).boot_time == start.boot_time,
        after_polls(start, polls).last_poll_time == start.last_poll_time,
        start.processed.subset_of(after_polls(start, polls).processed),
    decreases polls.len(),
{
    if polls.len() > 0 {
        lemma_polls_keep_processed(start, polls.drop_last());
        lemma_poll_marks_selected(after_polls(start, polls.drop_last()), polls.last());
    }
}

/// An offer whose id is processed is not selected by any later poll.
pub proof fn lemma_processed_is_never_selected(
    state: PollerView,
    between: Seq<Seq<TradeOffer>>,
    later: Seq<TradeOffer>,
    offer: TradeOffer,
)
    requires
        state.processed.contains(offer.tradeofferid@),
    ensures
        !after_polls(state, between).selected(later).contains(offer),
{
    lemma_polls_keep_processed(state, between);
    if after_polls(state, between).selected(later).contains(offer) {
        lemma_selected_are_eligible(after_polls(state, between), later, offer);
    }
}

/// An offer that a poll selected is processed after that poll, and no poll
/// after it selects an offer with its id again, whatever polls lie between.
pub proof fn lemma_never_selects_twice(
    state: PollerView,
    first: Seq<TradeOffer>,
    between: Seq<Seq<TradeOffer>>,
    later: Seq<TradeOffer>,
    offer: TradeOffer,
    again: TradeOffer,
)
    requires
        state.selected(first).contains(offer),
        again.tradeofferid@ == offer.tradeofferid@,
    ensures
        state.after_poll(first).processed.contains(offer.tradeofferid@),
        !after_polls(state.after_poll(first), between).selected(later).contains(again),
{
    let chosen = state.selected(first);
    let i = choose|i: int| 0 <= i < chosen.len() && chosen[i] == offer;
    assert(chosen[i].tradeofferid@ == offer.tradeofferid@);
    assert(offer_ids(chosen).contains(offer.tradeofferid@));
    lemma_poll_marks_selected(state, first);
    lemma_processed_is_never_selected(state.after_poll(first), between, later, again);
}

} // verus!
