use steam_trade_watcher::cache::{ClassInfoMap, ItemCache};
use steam_trade_watcher::models::{
    Asset, AssetClassInfo, GetTradeHistoryResponse, TradeHistory, TradeHistoryResponseData,
    TradeOffer,
};
use steam_trade_watcher::report::TradeReport;

fn offer_updated_at(time_updated: u64) -> TradeOffer {
    TradeOffer {
        tradeofferid: "123456".to_string(),
        trade_offer_state: 3,
        message: None,
        time_created: 1_600_000_000,
        time_updated,
        accountid_other: 987654321,
    }
}

fn asset(appid: u32, assetid: &str, classid: &str, instanceid: &str) -> Asset {
    Asset {
        appid,
        contextid: "2".to_string(),
        assetid: assetid.to_string(),
        classid: classid.to_string(),
        instanceid: instanceid.to_string(),
        amount: "1".to_string(),
        new_assetid: None,
        new_contextid: None,
    }
}

fn record(
    tradeid: &str,
    time_init: u64,
    received: Option<Vec<Asset>>,
    given: Option<Vec<Asset>>,
) -> TradeHistory {
    TradeHistory {
        tradeid: tradeid.to_string(),
        steamid_other: "76561198000000000".to_string(),
        time_init,
        assets_received: received,
        assets_given: given,
    }
}

fn history(trades: Vec<TradeHistory>) -> GetTradeHistoryResponse {
    GetTradeHistoryResponse {
        response: TradeHistoryResponseData { total_trades: None, more: None, trades },
    }
}

fn answer(entries: &[(&str, &str)]) -> ClassInfoMap {
    let mut map = ClassInfoMap::new();
    for (key, name) in entries {
        map.insert(
            key.to_string(),
            AssetClassInfo {
                icon_url: None,
                name: name.to_string(),
                market_hash_name: name.to_string(),
                market_name: name.to_string(),
                name_color: "D2D2D2".to_string(),
                type_: "Tool".to_string(),
            },
        );
    }
    map
}

#[test]
fn no_matching_record_gives_no_report() {
    let cache = ItemCache::new(Vec::new());
    let offer = offer_updated_at(1_600_000_000);
    assert!(TradeReport::for_offer(&offer, history(Vec::new()), &cache).is_none());
    let far = history(vec![record("T0", 1_600_000_120, None, None)]);
    assert!(TradeReport::for_offer(&offer, far, &cache).is_none());
}

#[test]
fn report_is_on_the_first_matching_record() {
    let cache = ItemCache::new(Vec::new());
    let offer = offer_updated_at(1_600_000_000);
    let listed = history(vec![
        record("T0", 1_600_000_500, None, None),
        record("T1", 1_600_000_100, None, None),
        record("T2", 1_600_000_050, None, None),
    ]);
    let report = TradeReport::for_offer(&offer, listed, &cache).unwrap();
    assert!(report.pending().is_none());
    assert_eq!(report.message(), Some("Trade ID: T1".to_string()));
}

#[test]
fn received_assets_are_resolved_before_given_ones() {
    let mut cache = ItemCache::new(Vec::new());
    let offer = offer_updated_at(1_600_000_000);
    let listed = history(vec![record(
        "T1",
        1_600_000_010,
        Some(vec![asset(440, "1", "100", "0"), asset(730, "2", "200", "0")]),
        Some(vec![asset(440, "3", "100", "0"), asset(440, "4", "300", "0")]),
    )]);
    let mut report = TradeReport::for_offer(&offer, listed, &cache).unwrap();
    assert_eq!(report.message(), None);

    assert_eq!(report.pending().unwrap().appid, 440);
    assert_eq!(report.pending().unwrap().pairs, vec![("100".to_string(), "0".to_string())]);
    assert_eq!(report.batch_found(&mut cache, &answer(&[("100", "Hat")])), 1);
    assert_eq!(report.message(), None);

    assert_eq!(report.pending().unwrap().appid, 730);
    report.batch_failed(&cache);
    assert_eq!(report.message(), None);

    assert_eq!(report.pending().unwrap().appid, 440);
    assert_eq!(report.pending().unwrap().pairs, vec![("300".to_string(), "0".to_string())]);
    assert_eq!(report.batch_found(&mut cache, &answer(&[("300_0", "Key")])), 1);
    assert!(report.pending().is_none());

    assert_eq!(
        report.message(),
        Some(
            "Trade ID: T1\n\n<b>Received:</b>\n- Hat\n- Unknown Asset (2)\n\n<b>Given:</b>\n- Hat\n- Key"
                .to_string()
        )
    );
    assert_eq!(report.batch_found(&mut cache, &answer(&[("200", "Late")])), 0);
    assert!(cache.get("200", "0").is_none());
}

#[test]
fn absent_asset_lists_count_as_empty() {
    let mut cache = ItemCache::new(Vec::new());
    let offer = offer_updated_at(1_600_000_000);
    let listed = history(vec![record("T7", 1_599_999_990, None, Some(vec![asset(440, "9", "1", "0")]))]);
    let mut report = TradeReport::for_offer(&offer, listed, &cache).unwrap();
    assert_eq!(report.pending().unwrap().appid, 440);
    report.batch_failed(&cache);
    assert_eq!(
        report.message(),
        Some("Trade ID: T7\n\n<b>Given:</b>\n- Unknown Asset (9)".to_string())
    );
}

#[test]
fn report_on_a_given_record() {
    let cache = ItemCache::new(vec![(
        "100".to_string(),
        AssetClassInfo {
            icon_url: None,
            name: "Hat".to_string(),
            market_hash_name: "Cached Hat".to_string(),
            market_name: "Hat".to_string(),
            name_color: "D2D2D2".to_string(),
            type_: "Tool".to_string(),
        },
    )]);
    let chosen = record(
        "T9",
        5,
        Some(vec![asset(440, "1", "100", "0")]),
        Some(vec![asset(440, "2", "100", "7")]),
    );
    let report = TradeReport::begin(chosen, &cache);
    assert!(report.pending().is_none());
    assert_eq!(
        report.message(),
        Some("Trade ID: T9\n\n<b>Received:</b>\n- Cached Hat\n\n<b>Given:</b>\n- Cached Hat".to_string())
    );
}
