use steam_trade_watcher::matcher::{find_match, history_start_time};
use steam_trade_watcher::models::{
    GetTradeHistoryResponse, TradeHistory, TradeHistoryResponseData, TradeOffer,
};

fn offer_updated_at(time_updated: u64) -> TradeOffer {
    TradeOffer {
        tradeofferid: "123456".to_string(),
        trade_offer_state: 3,
        message: None,
        time_created: time_updated,
        time_updated,
        accountid_other: 987654321,
    }
}

fn record(tradeid: &str, time_init: u64) -> TradeHistory {
    TradeHistory {
        tradeid: tradeid.to_string(),
        steamid_other: "76561198000000000".to_string(),
        time_init,
        assets_received: None,
        assets_given: None,
    }
}

fn history(trades: Vec<TradeHistory>) -> GetTradeHistoryResponse {
    GetTradeHistoryResponse {
        response: TradeHistoryResponseData {
            total_trades: Some(trades.len() as u32),
            more: Some(false),
            trades,
        },
    }
}

#[test]
fn first_match_is_chosen_not_the_closest() {
    let offer = offer_updated_at(1_600_000_000);
    let trades = vec![record("far", 1_600_000_100), record("near", 1_600_000_050)];
    assert_eq!(find_match(&offer, &history(trades)), Some(0));
}

#[test]
fn records_outside_the_window_are_passed_over() {
    let offer = offer_updated_at(1_600_000_000);
    let trades = vec![
        record("late", 1_600_000_500),
        record("edge", 1_600_000_120),
        record("hit", 1_600_000_119),
        record("exact", 1_600_000_000),
    ];
    assert_eq!(find_match(&offer, &history(trades)), Some(2));
}

#[test]
fn window_counts_in_both_directions() {
    let offer = offer_updated_at(1_600_000_000);
    assert_eq!(find_match(&offer, &history(vec![record("a", 1_599_999_881)])), Some(0));
    assert_eq!(find_match(&offer, &history(vec![record("a", 1_599_999_880)])), None);
    assert_eq!(find_match(&offer, &history(vec![record("a", 1_600_000_119)])), Some(0));
    assert_eq!(find_match(&offer, &history(vec![record("a", 1_600_000_120)])), None);
}

#[test]
fn no_record_gives_no_match() {
    let offer = offer_updated_at(1_600_000_000);
    assert_eq!(find_match(&offer, &history(Vec::new())), None);
    let trades = vec![record("a", 1_500_000_000), record("b", 1_700_000_000)];
    assert_eq!(find_match(&offer, &history(trades)), None);
}

#[test]
fn distance_is_exact_near_the_ends_of_the_range() {
    let offer = offer_updated_at(u64::MAX);
    assert_eq!(find_match(&offer, &history(vec![record("a", 0), record("b", u64::MAX - 119)])), Some(1));
    let early = offer_updated_at(10);
    assert_eq!(find_match(&early, &history(vec![record("a", u64::MAX), record("b", 129)])), Some(1));
    assert_eq!(find_match(&early, &history(vec![record("a", 130)])), None);
}

#[test]
fn history_is_asked_from_a_minute_before_the_update() {
    assert_eq!(history_start_time(&offer_updated_at(1_600_000_060)), 1_600_000_000);
    assert_eq!(history_start_time(&offer_updated_at(60)), 0);
}
