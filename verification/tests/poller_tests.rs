use steam_trade_watcher::models::{GetTradeOffersResponse, TradeOffer, TradeOffersResponseData};
use steam_trade_watcher::poller::{timestamp_to_u64, Poller};

fn offer(id: &str, state: i32, time_updated: u64) -> TradeOffer {
    TradeOffer {
        tradeofferid: id.to_string(),
        trade_offer_state: state,
        message: Some("Hello".to_string()),
        time_created: 1_600_000_000,
        time_updated,
        accountid_other: 987654321,
    }
}

fn poll(received: Vec<TradeOffer>, sent: Vec<TradeOffer>) -> GetTradeOffersResponse {
    GetTradeOffersResponse {
        response: TradeOffersResponseData { trade_offers_received: received, trade_offers_sent: sent },
    }
}

fn ids(offers: &[TradeOffer]) -> Vec<&str> {
    offers.iter().map(|o| o.tradeofferid.as_str()).collect()
}

#[test]
fn new_poller_asks_from_the_boot_time() {
    let poller = Poller::new(1_600_000_000);
    assert_eq!(poller.cutoff(), 1_600_000_000);
    assert_eq!(poller.boot_time(), 1_600_000_000);
    assert!(!poller.is_processed("123456"));
}

#[test]
fn only_accepted_offers_are_selected() {
    let mut poller = Poller::new(1_600_000_000);
    let received = vec![
        offer("1", 2, 1_600_000_060),
        offer("2", 3, 1_600_000_060),
        offer("3", 7, 1_600_000_060),
    ];
    let sent = vec![offer("4", 1, 1_600_000_060), offer("5", 3, 1_600_000_060)];
    let selected = poller.select_new_trades(poll(received, sent));
    assert_eq!(ids(&selected), vec!["2", "5"]);
    assert!(poller.is_processed("2"));
    assert!(poller.is_processed("5"));
    assert!(!poller.is_processed("1"));
    assert!(!poller.is_processed("3"));
    assert!(!poller.is_processed("4"));
}

#[test]
fn offers_from_before_the_boot_are_not_selected() {
    let mut poller = Poller::new(1_600_000_000);
    let received = vec![
        offer("old", 3, 1_599_999_999),
        offer("at boot", 3, 1_600_000_000),
        offer("new", 3, 1_600_000_001),
    ];
    let selected = poller.select_new_trades(poll(received, Vec::new()));
    assert_eq!(ids(&selected), vec!["at boot", "new"]);
    assert!(!poller.is_processed("old"));
}

#[test]
fn processed_offer_is_not_selected_again() {
    let mut poller = Poller::new(1_600_000_000);
    let first = poller.select_new_trades(poll(vec![offer("123456", 3, 1_600_000_060)], Vec::new()));
    assert_eq!(ids(&first), vec!["123456"]);
    let second = poller.select_new_trades(poll(
        vec![offer("123456", 3, 1_600_000_060), offer("7", 3, 1_600_000_090)],
        vec![offer("123456", 3, 1_600_000_200)],
    ));
    assert_eq!(ids(&second), vec!["7"]);
    let third = poller.select_new_trades(poll(Vec::new(), vec![offer("7", 3, 1_600_000_090)]));
    assert!(third.is_empty());
}

#[test]
fn offer_listed_twice_in_a_poll_is_selected_once() {
    let mut poller = Poller::new(1_600_000_000);
    let selected = poller.select_new_trades(poll(
        vec![offer("1", 3, 1_600_000_010), offer("2", 2, 1_600_000_020), offer("1", 3, 1_600_000_030)],
        vec![offer("2", 3, 1_600_000_040), offer("1", 3, 1_600_000_050), offer("2", 3, 1_600_000_060)],
    ));
    assert_eq!(ids(&selected), vec!["1", "2"]);
    assert_eq!(selected[0].time_updated, 1_600_000_010);
    assert_eq!(selected[1].time_updated, 1_600_000_040);
}

#[test]
fn unselected_offer_leaves_its_id_unprocessed() {
    let mut poller = Poller::new(1_600_000_000);
    let first = poller.select_new_trades(poll(
        vec![offer("1", 2, 1_600_000_010), offer("2", 3, 1_599_999_000)],
        Vec::new(),
    ));
    assert!(first.is_empty());
    let second = poller.select_new_trades(poll(
        vec![offer("1", 3, 1_600_000_020), offer("2", 3, 1_600_000_030)],
        Vec::new(),
    ));
    assert_eq!(ids(&second), vec!["1", "2"]);
}

#[test]
fn selected_offers_keep_their_fields() {
    let mut poller = Poller::new(10);
    let selected = poller.select_new_trades(poll(Vec::new(), vec![offer("9", 3, 77)]));
    assert_eq!(selected.len(), 1);
    assert_eq!(selected[0].tradeofferid, "9");
    assert_eq!(selected[0].trade_offer_state, 3);
    assert_eq!(selected[0].message, Some("Hello".to_string()));
    assert_eq!(selected[0].time_created, 1_600_000_000);
    assert_eq!(selected[0].time_updated, 77);
    assert_eq!(selected[0].accountid_other, 987654321);
}

#[test]
fn cutoff_moves_to_a_minute_before_the_end_of_the_cycle() {
    let mut poller = Poller::new(1_600_000_000);
    poller.select_new_trades(poll(vec![offer("1", 3, 1_600_000_060)], Vec::new()));
    poller.advance_cutoff(1_600_000_300);
    assert_eq!(poller.cutoff(), 1_600_000_240);
    assert_eq!(poller.boot_time(), 1_600_000_000);
    assert!(poller.is_processed("1"));
    poller.advance_cutoff(60);
    assert_eq!(poller.cutoff(), 0);
}

#[test]
fn poller_started_by_the_clock() {
    let mut poller = Poller::start();
    let boot = poller.boot_time();
    assert_eq!(poller.cutoff(), boot);
    assert!(boot > 1_600_000_000);
    let finished = poller.finish_cycle().unwrap();
    assert!(finished >= boot);
    assert!(finished < boot + 3600);
    assert_eq!(poller.cutoff(), finished - 60);
    assert_eq!(poller.boot_time(), boot);
}

#[test]
fn finishing_a_cycle_keeps_what_was_processed() {
    let mut poller = Poller::new(1_600_000_000);
    poller.select_new_trades(poll(vec![offer("1", 3, 1_600_000_060)], Vec::new()));
    let finished = poller.finish_cycle().unwrap();
    assert_eq!(poller.cutoff(), finished - 60);
    assert_eq!(poller.boot_time(), 1_600_000_000);
    assert!(poller.is_processed("1"));
    assert!(!poller.is_processed("2"));
    let again = poller.select_new_trades(poll(vec![offer("1", 3, 1_600_000_060)], Vec::new()));
    assert!(again.is_empty());
}

#[test]
fn cycle_finished_at_a_given_time() {
    let mut poller = Poller::new(1_600_000_000);
    poller.select_new_trades(poll(vec![offer("1", 3, 1_600_000_060)], Vec::new()));
    assert_eq!(poller.finish_cycle_at(1_600_000_300), Some(1_600_000_300));
    assert_eq!(poller.cutoff(), 1_600_000_240);
    assert_eq!(poller.finish_cycle_at(59), None);
    assert_eq!(poller.cutoff(), 1_600_000_240);
    assert_eq!(poller.finish_cycle_at(0), None);
    assert_eq!(poller.cutoff(), 1_600_000_240);
    assert_eq!(poller.finish_cycle_at(60), Some(60));
    assert_eq!(poller.cutoff(), 0);
    assert_eq!(poller.finish_cycle_at(u64::MAX), Some(u64::MAX));
    assert_eq!(poller.cutoff(), u64::MAX - 60);
    assert_eq!(poller.boot_time(), 1_600_000_000);
    assert!(poller.is_processed("1"));
}

#[test]
fn timestamps_become_unsigned() {
    assert_eq!(timestamp_to_u64(0), 0);
    assert_eq!(timestamp_to_u64(1_600_000_000), 1_600_000_000);
    assert_eq!(timestamp_to_u64(i64::MAX), 9_223_372_036_854_775_807);
    assert_eq!(timestamp_to_u64(-1), u64::MAX);
    assert_eq!(timestamp_to_u64(i64::MIN), 9_223_372_036_854_775_808);
}
