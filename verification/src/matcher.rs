//! Correlates a completed trade offer with its trade history record.

use vstd::prelude::*;
use crate::models::{GetTradeHistoryResponse, TradeHistory, TradeOffer};

verus! {

/// A history record matches an offer when its start lies less than this many
/// seconds from the offer's last update.
pub const MATCH_WINDOW_SECONDS: u64 = 120;

/// The history is asked from this many seconds before the offer's last
/// update.
pub const HISTORY_LEAD_SECONDS: u64 = 60;

/// The time from which the history is asked for an offer.
pub fn history_start_time(offer: &TradeOffer) -> (start: u64)
    requires
        offer.time_updated >= HISTORY_LEAD_SECONDS,
    ensures
        start == offer.time_updated - HISTORY_LEAD_SECONDS,
{
    offer.time_updated - HISTORY_LEAD_SECONDS
}

/// The distance between two timestamps.
pub open spec fn time_distance(a: u64, b: u64) -> int {
    if a >= b {
        a - b
    } else {
        b - a
    }
}

/// Whether `record` lies within the match window of `offer`.
pub open spec fn within_window(record: TradeHistory, offer: TradeOffer) -> bool {
    time_distance(record.time_init, offer.time_updated) < MATCH_WINDOW_SECONDS
}

/// The record at position `i` lies within the match window of the offer, and
/// no record before it does.
pub open spec fn is_first_match(trades: Seq<TradeHistory>, offer: TradeOffer, i: int) -> bool {
    &&& 0 <= i < trades.len()
    &&& within_window(trades[i], offer)
    &&& forall|j: int| 0 <= j < i ==> !within_window(#[trigger] trades[j], offer)
}

/// No record lies within the match window of the offer.
pub open spec fn no_match(trades: Seq<TradeHistory>, offer: TradeOffer) -> bool {
    forall|j: int| 0 <= j < trades.len() ==> !within_window(#[trigger] trades[j], offer)
}

/// The position, among the trades of the history, of the first record in the
/// order given that lies within the match window of the offer; `None` when
/// no record does. A closer record further down is not preferred.
pub fn find_match(offer: &TradeOffer, history: &GetTradeHistoryResponse) -> (found: Option<usize>)
    ensures
        match found {
            Some(i) => is_first_match(history.response.trades@, *offer, i as int),
            None => no_match(history.response.trades@, *offer),
        },
{
    let trades = &history.response.trades;
    let mut i: usize = 0;
    while i < trades.len()
        invariant
            trades@ == history.response.trades@,
            i <= trades.len(),
            forall|j: int| 0 <= j < i ==> !within_window(#[trigger] trades[j], *offer),
        decreases trades.len() - i,
    {
        let init: u64 = trades[i].time_init;
        let updated: u64 = offer.time_updated;
        let distance: u64 = if init >= updated {
            init - updated
        } else {
            updated - init
        };
        if distance < MATCH_WINDOW_SECONDS {
            return Some(i);
        }
        i += 1;
    }
    None
}

} // verus!
