use steam_trade_watcher::cache::{ClassInfoMap, ItemCache};
use steam_trade_watcher::composer::account_message;
use steam_trade_watcher::matcher::history_start_time;
use steam_trade_watcher::models::{
    Asset, AssetClassInfo, GetTradeHistoryResponse, GetTradeOffersResponse, TradeHistory,
    TradeHistoryResponseData, TradeOffer, TradeOffersResponseData,
};
use steam_trade_watcher::poller::Poller;
use steam_trade_watcher::report::TradeReport;

#[test]
fn completed_trade_is_reported_with_its_items() {
    let t: u64 = 1_600_000_060;
    let mut poller = Poller::new(t - 60);
    let mut cache = ItemCache::new(Vec::new());

    let offers = GetTradeOffersResponse {
        response: TradeOffersResponseData {
            trade_offers_received: vec![TradeOffer {
                tradeofferid: "123456".to_string(),
                trade_offer_state: 3,
                message: Some("Hello".to_string()),
                time_created: 1_600_000_000,
                time_updated: t,
                accountid_other: 987654321,
            }],
            trade_offers_sent: Vec::new(),
        },
    };
    let new_trades = poller.select_new_trades(offers);
    assert_eq!(new_trades.len(), 1);
    let trade = &new_trades[0];
    assert_eq!(history_start_time(trade), 1_600_000_000);

    let history = GetTradeHistoryResponse {
        response: TradeHistoryResponseData {
            total_trades: Some(1),
            more: Some(false),
            trades: vec![TradeHistory {
                tradeid: "T1".to_string(),
                steamid_other: "76561198000000000".to_string(),
                time_init: t + 99,
                assets_received: Some(vec![Asset {
                    appid: 440,
                    contextid: "2".to_string(),
                    assetid: "5000".to_string(),
                    classid: "100".to_string(),
                    instanceid: "1".to_string(),
                    amount: "1".to_string(),
                    new_assetid: None,
                    new_contextid: None,
                }]),
                assets_given: Some(Vec::new()),
            }],
        },
    };
    let mut report = TradeReport::for_offer(trade, history, &cache).unwrap();
    {
        let batch = report.pending().unwrap();
        assert_eq!(batch.appid, 440);
        assert_eq!(batch.pairs, vec![("100".to_string(), "1".to_string())]);
    }
    let mut found = ClassInfoMap::new();
    found.insert(
        "100".to_string(),
        AssetClassInfo {
            icon_url: None,
            name: "Item".to_string(),
            market_hash_name: "Test Item".to_string(),
            market_name: "Item".to_string(),
            name_color: "FFFFFF".to_string(),
            type_: "Tool".to_string(),
        },
    );
    report.batch_found(&mut cache, &found);
    assert!(report.pending().is_none());

    let text = report.message().unwrap();
    assert!(text.contains("Trade ID: T1"));
    assert!(text.contains("Received:"));
    assert!(text.contains("- Test Item"));
    assert!(text.find("Received:").unwrap() < text.find("- Test Item").unwrap());
    assert!(!text.contains("Given:"));
    assert_eq!(text, "Trade ID: T1\n\n<b>Received:</b>\n- Test Item");
    assert_eq!(
        account_message("Bot1", &text),
        "<b>Account: Bot1</b>\nTrade ID: T1\n\n<b>Received:</b>\n- Test Item"
    );

    assert_eq!(cache.get("100", "1").unwrap().market_hash_name, "Test Item");
    assert!(poller.is_processed("123456"));
}
