//! The requests to the trading platform: where each one goes and what
//! parameters it carries. Sending them is the caller's part.

use vstd::prelude::*;
use vstd::string::StringExecFns;
use crate::text::{decimal, decimal_string, pairs_view};

verus! {

/// The address of the offer listing.
pub const TRADE_OFFERS_URL: &'static str =
    "https://api.steampowered.com/IEconService/GetTradeOffers/v1/";

/// The address of the trade history listing.
pub const TRADE_HISTORY_URL: &'static str =
    "https://api.steampowered.com/IEconService/GetTradeHistory/v1/";

/// The address of the lookup of item classes.
pub const ASSET_CLASS_INFO_URL: &'static str =
    "https://api.steampowered.com/ISteamEconomy/GetAssetClassInfo/v0001/";

/// The requests of one account, made with its credential.
pub struct SteamClient {
    api_key: String,
}

/// The parameters of the offer listing.
pub open spec fn trade_offers_params(key: Seq<char>, cutoff: u64) -> Seq<(Seq<char>, Seq<char>)> {
    seq![
        ("key"@, key),
        ("get_received_offers"@, "1"@),
        ("get_sent_offers"@, "1"@),
        ("active_only"@, "0"@),
        ("historical_only"@, "0"@),
        ("time_historical_cutoff"@, decimal(cutoff as nat)),
        ("format"@, "json"@),
    ]
}

/// The parameters of the trade history listing.
pub open spec fn trade_history_params(key: Seq<char>, start_time: u64) -> Seq<
    (Seq<char>, Seq<char>),
> {
    seq![
        ("key"@, key),
        ("max_trades"@, "10"@),
        ("start_time"@, decimal(start_time as nat)),
        ("get_descriptions"@, "0"@),
        ("format"@, "json"@),
    ]
}

/// The numbered parameters of the pairs of a lookup: for the pair at
/// position `i`, counted from 0, `classid` and `instanceid`, each followed by
/// the numeral of `i`.
pub open spec fn numbered_params(pairs: Seq<(Seq<char>, Seq<char>)>) -> Seq<
    (Seq<char>, Seq<char>),
>
    decreases pairs.len(),
{
    if pairs.len() == 0 {
        Seq::empty()
    } else {
        numbered_params(pairs.drop_last()).push(
            ("classid"@ + decimal((pairs.len() - 1) as nat), pairs.last().0),
        ).push(("instanceid"@ + decimal((pairs.len() - 1) as nat), pairs.last().1))
    }
}

/// The parameters of a lookup of item classes in one namespace.
pub open spec fn asset_class_info_params(
    key: Seq<char>,
    appid: u32,
    pairs: Seq<(Seq<char>, Seq<char>)>,
) -> Seq<(Seq<char>, Seq<char>)> {
    seq![("key"@, key), ("format"@, "json"@), ("class_count"@, decimal(pairs.len()))]
        + numbered_params(pairs) + seq![("appid"@, decimal(appid as nat))]
}

/// A parameter with the given name and value.
fn param(name: &str, value: &str) -> (pair: (String, String))
    ensures
        pair.0@ == name@,
        pair.1@ == value@,
{
    (String::from_str(name), String::from_str(value))
}

/// A parameter whose name is `prefix` followed by the numeral of `index`.
fn numbered_param(prefix: &str, index: u64, value: &str) -> (pair: (String, String))
    ensures
        pair.0@ == prefix@ + decimal(index as nat),
        pair.1@ == value@,
{
    let mut name = String::from_str(prefix);
    name.append(decimal_string(index).as_str());
    (name, String::from_str(value))
}

impl SteamClient {
    /// The credential that the requests carry.
    pub closed spec fn key(&self) -> Seq<char> {
        self.api_key@
    }

    /// The requests of the account with the given credential.
    pub fn new(api_key: String) -> (client: Self)
        ensures
            client.key() == api_key@,
    {
        SteamClient { api_key }
    }

    /// The parameters that ask for the received and sent offers, active or
    /// not, that changed since `time_historical_cutoff`.
    pub fn trade_offers_query(&self, time_historical_cutoff: u64) -> (params: Vec<(String, String)>)
        ensures
            pairs_view(params@) == trade_offers_params(self.key(), time_historical_cutoff),
    {
        let mut params: Vec<(String, String)> = Vec::new();
        params.push(param("key", self.api_key.as_str()));
        params.push(param("get_received_offers", "1"));
        params.push(param("get_sent_offers", "1"));
        params.push(param("active_only", "0"));
        params.push(param("historical_only", "0"));
        params.push(
            param("time_historical_cutoff", decimal_string(time_historical_cutoff).as_str()),
        );
        params.push(param("format", "json"));
        assert(pairs_view(params@) =~= trade_offers_params(self.key(), time_historical_cutoff));
        params
    }

    /// The parameters that ask for up to ten trades of the history, from
    /// `start_time` on, without descriptions.
    pub fn trade_history_query(&self, start_time: u64) -> (params: Vec<(String, String)>)
        ensures
            pairs_view(params@) == trade_history_params(self.key(), start_time),
    {
        let mut params: Vec<(String, String)> = Vec::new();
        params.push(param("key", self.api_key.as_str()));
        params.push(param("max_trades", "10"));
        params.push(param("start_time", decimal_string(start_time).as_str()));
        params.push(param("get_descriptions", "0"));
        params.push(param("format", "json"));
        assert(pairs_view(params@) =~= trade_history_params(self.key(), start_time));
        params
    }

    /// The parameters that ask for the metadata of the given pairs of class
    /// id and sub-instance id in the namespace `appid`; `None` for no pairs,
    /// where nothing is to be asked.
    pub fn asset_class_info_query(
        &self,
        appid: u32,
        class_instance_pairs: &Vec<(String, String)>,
    ) -> (params: Option<Vec<(String, String)>>)
        ensures
            class_instance_pairs.len() == 0 <==> params is None,
            params matches Some(list) ==> pairs_view(list@) == asset_class_info_params(
                self.key(),
                appid,
                pairs_view(class_instance_pairs@),
            ),
    {
        if class_instance_pairs.len() == 0 {
            return None;
        }
        let ghost pairs = pairs_view(class_instance_pairs@);
        let ghost head = seq![
            ("key"@, self.key()),
            ("format"@, "json"@),
            ("class_count"@, decimal(pairs.len())),
        ];
        let mut params: Vec<(String, String)> = Vec::new();
        params.push(param("key", self.api_key.as_str()));
        params.push(param("format", "json"));
        params.push(
            param("class_count", decimal_string(class_instance_pairs.len() as u64).as_str()),
        );
        let mut i: usize = 0;
        assert(pairs.take(0) =~= Seq::<(Seq<char>, Seq<char>)>::empty());
        assert(pairs_view(params@) =~= head + numbered_params(pairs.take(0)));
        while i < class_instance_pairs.len()
            invariant
                i <= class_instance_pairs.len(),
                pairs == pairs_view(class_instance_pairs@),
                pairs_view(params@) == head + numbered_params(pairs.take(i as int)),
            decreases class_instance_pairs.len() - i,
        {
            let pair = &class_instance_pairs[i];
            let ghost before = pairs_view(params@);
            params.push(numbered_param("classid", i as u64, pair.0.as_str()));
            params.push(numbered_param("instanceid", i as u64, pair.1.as_str()));
            proof {
                let upto = pairs.take(i as int);
                let next = pairs.take(i + 1);
                assert(next.drop_last() =~= upto);
                assert(next.last() == pairs[i as int]);
                assert(next.len() - 1 == i);
                let first = ("classid"@ + decimal(i as nat), pairs[i as int].0);
                let second = ("instanceid"@ + decimal(i as nat), pairs[i as int].1);
                assert(numbered_params(next) == numbered_params(upto).push(first).push(second));
                assert(pairs_view(params@) =~= before.push(first).push(second));
                assert(pairs_view(params@) =~= head + numbered_params(next));
            }
            i += 1;
        }
        assert(pairs.take(pairs.len() as int) =~= pairs);
        params.push(param("appid", decimal_string(appid as u64).as_str()));
        assert(pairs_view(params@) =~= asset_class_info_params(self.key(), appid, pairs));
        Some(params)
    }
}

} // verus!
