use steam_trade_watcher::steam::{
    SteamClient, ASSET_CLASS_INFO_URL, TRADE_HISTORY_URL, TRADE_OFFERS_URL,
};
use steam_trade_watcher::telegram::TelegramBot;
use steam_trade_watcher::text::{decimal_string, text_eq, text_order, Order};

fn params(list: &[(&str, &str)]) -> Vec<(String, String)> {
    list.iter().map(|(name, value)| (name.to_string(), value.to_string())).collect()
}

#[test]
fn request_addresses() {
    assert_eq!(TRADE_OFFERS_URL, "https://api.steampowered.com/IEconService/GetTradeOffers/v1/");
    assert_eq!(TRADE_HISTORY_URL, "https://api.steampowered.com/IEconService/GetTradeHistory/v1/");
    assert_eq!(
        ASSET_CLASS_INFO_URL,
        "https://api.steampowered.com/ISteamEconomy/GetAssetClassInfo/v0001/"
    );
}

#[test]
fn trade_offers_parameters() {
    let client = SteamClient::new("KEY123".to_string());
    assert_eq!(
        client.trade_offers_query(1_600_000_000),
        params(&[
            ("key", "KEY123"),
            ("get_received_offers", "1"),
            ("get_sent_offers", "1"),
            ("active_only", "0"),
            ("historical_only", "0"),
            ("time_historical_cutoff", "1600000000"),
            ("format", "json"),
        ])
    );
}

#[test]
fn trade_history_parameters() {
    let client = SteamClient::new("KEY123".to_string());
    assert_eq!(
        client.trade_history_query(1_600_000_000),
        params(&[
            ("key", "KEY123"),
            ("max_trades", "10"),
            ("start_time", "1600000000"),
            ("get_descriptions", "0"),
            ("format", "json"),
        ])
    );
}

#[test]
fn asset_class_info_parameters() {
    let client = SteamClient::new("KEY123".to_string());
    let pairs = params(&[("100", "1"), ("200", "0")]);
    assert_eq!(
        client.asset_class_info_query(440, &pairs),
        Some(params(&[
            ("key", "KEY123"),
            ("format", "json"),
            ("class_count", "2"),
            ("classid0", "100"),
            ("instanceid0", "1"),
            ("classid1", "200"),
            ("instanceid1", "0"),
            ("appid", "440"),
        ]))
    );
    assert_eq!(client.asset_class_info_query(440, &Vec::new()), None);
}

#[test]
fn asset_class_info_parameters_are_numbered_in_decimal() {
    let client = SteamClient::new("K".to_string());
    let pairs: Vec<(String, String)> =
        (0..12).map(|i| (format!("c{}", i), format!("i{}", i))).collect();
    let query = client.asset_class_info_query(4_294_967_295, &pairs).unwrap();
    assert_eq!(query.len(), 3 + 24 + 1);
    assert_eq!(query[2], ("class_count".to_string(), "12".to_string()));
    assert_eq!(query[3 + 20], ("classid10".to_string(), "c10".to_string()));
    assert_eq!(query[3 + 23], ("instanceid11".to_string(), "i11".to_string()));
    assert_eq!(query[27], ("appid".to_string(), "4294967295".to_string()));
}

#[test]
fn notification_request() {
    let bot = TelegramBot::new("123:ABC".to_string(), "-999".to_string());
    assert_eq!(bot.send_message_url(), "https://api.telegram.org/bot123:ABC/sendMessage");
    assert_eq!(
        bot.notification_fields("<b>Account: Bot1</b>\nTrade ID: T1"),
        params(&[
            ("chat_id", "-999"),
            ("text", "<b>Account: Bot1</b>\nTrade ID: T1"),
            ("parse_mode", "HTML"),
        ])
    );
}

#[test]
fn decimal_numerals() {
    assert_eq!(decimal_string(0), "0");
    assert_eq!(decimal_string(7), "7");
    assert_eq!(decimal_string(10), "10");
    assert_eq!(decimal_string(1_600_000_060), "1600000060");
    assert_eq!(decimal_string(9_876_543_210), "9876543210");
    assert_eq!(decimal_string(u64::MAX), "18446744073709551615");
}

#[test]
fn strings_are_ordered_by_their_bytes() {
    assert_eq!(text_order("a", "b"), Order::Before);
    assert_eq!(text_order("b", "a"), Order::After);
    assert_eq!(text_order("abc", "abc"), Order::Same);
    assert_eq!(text_order("", ""), Order::Same);
    assert_eq!(text_order("", "a"), Order::Before);
    assert_eq!(text_order("ab", "a"), Order::After);
    assert_eq!(text_order("10", "9"), Order::Before);
    assert_eq!(text_order("Z", "a"), Order::Before);
    assert_eq!(text_order("z", "\u{e9}"), Order::Before);
    assert_eq!(text_order("\u{1f600}", "\u{e9}"), Order::After);
    assert!(text_eq("100", "100"));
    assert!(!text_eq("100", "1000"));
    assert!(!text_eq("100", "101"));
}

#[test]
fn order_agrees_with_the_order_of_str() {
    let samples = ["", "0", "1", "10", "100", "100_1", "2", "a", "ab", "b", "\u{e9}", "\u{4e2d}"];
    for a in samples.iter() {
        for b in samples.iter() {
            let expected = if a < b {
                Order::Before
            } else if a > b {
                Order::After
            } else {
                Order::Same
            };
            assert_eq!(text_order(a, b), expected);
        }
    }
}
