//! The records exchanged with the trading platform.

use vstd::prelude::*;

verus! {

/// The value of `trade_offer_state` for an offer that was accepted.
pub const TRADE_OFFER_STATE_ACCEPTED: i32 = 3;

/// Answer of the offer listing.
#[derive(Debug)]
pub struct GetTradeOffersResponse {
    pub response: TradeOffersResponseData,
}

#[derive(Debug)]
pub struct TradeOffersResponseData {
    pub trade_offers_received: Vec<TradeOffer>,
    pub trade_offers_sent: Vec<TradeOffer>,
}

/// A proposed or completed exchange.
#[derive(Debug, Clone)]
pub struct TradeOffer {
    pub tradeofferid: String,
    pub trade_offer_state: i32,
    pub message: Option<String>,
    pub time_created: u64,
    pub time_updated: u64,
    pub accountid_other: i64,
}

/// Answer of the trade history listing.
#[derive(Debug)]
pub struct GetTradeHistoryResponse {
    pub response: TradeHistoryResponseData,
}

#[derive(Debug)]
pub struct TradeHistoryResponseData {
    pub total_trades: Option<u32>,
    pub more: Option<bool>,
    pub trades: Vec<TradeHistory>,
}

/// A ledger entry of a completed exchange.
#[derive(Debug, Clone)]
pub struct TradeHistory {
    pub tradeid: String,
    pub steamid_other: String,
    pub time_init: u64,
    pub assets_received: Option<Vec<Asset>>,
    pub assets_given: Option<Vec<Asset>>,
}

/// One item instance in a trade.
#[derive(Debug, Clone)]
pub struct Asset {
    pub appid: u32,
    pub contextid: String,
    pub assetid: String,
    pub classid: String,
    pub instanceid: String,
    pub amount: String,
    pub new_assetid: Option<String>,
    pub new_contextid: Option<String>,
}

/// Resolved display metadata of an item class.
#[derive(Debug)]
pub struct AssetClassInfo {
    pub icon_url: Option<String>,
    pub name: String,
    pub market_hash_name: String,
    pub market_name: String,
    pub name_color: String,
    pub type_: String,
}

/// What an `AssetClassInfo` holds, as text.
pub struct AssetClassInfoView {
    pub icon_url: Option<Seq<char>>,
    pub name: Seq<char>,
    pub market_hash_name: Seq<char>,
    pub market_name: Seq<char>,
    pub name_color: Seq<char>,
    pub type_: Seq<char>,
}

impl View for AssetClassInfo {
    type V = AssetClassInfoView;

    open spec fn view(&self) -> AssetClassInfoView {
        AssetClassInfoView {
            icon_url: match self.icon_url {
                Some(s) => Some(s@),
                None => None,
            },
            name: self.name@,
            market_hash_name: self.market_hash_name@,
            market_name: self.market_name@,
            name_color: self.name_color@,
            type_: self.type_@,
        }
    }
}

impl Clone for AssetClassInfo {
    fn clone(&self) -> (copy: Self)
        ensures
            copy@ == self@,
    {
        AssetClassInfo {
            icon_url: match &self.icon_url {
                Some(s) => Some(s.clone()),
                None => None,
            },
            name: self.name.clone(),
            market_hash_name: self.market_hash_name.clone(),
            market_name: self.market_name.clone(),
            name_color: self.name_color.clone(),
            type_: self.type_.clone(),
        }
    }
}

} // verus!
