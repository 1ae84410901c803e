//! The addresses at which the two services are asked.

use vstd::prelude::*;
use vstd::string::*;

use crate::text::{decimal, decimal_text};

verus! {

/// Where the listing service lives.
pub const COINGECKO_API_URL: &'static str = "https://api.coingecko.com/api/v3";

/// Where the derivatives exchange lives.
pub const BINANCE_FUTURES_API_URL: &'static str = "https://fapi.binance.com/fapi/v1";

/// How the sifter names itself to the listing service.
pub const USER_AGENT: &'static str = "coingecko_sdk_rs";

/// The header that carries the token of the listing service.
pub const TOKEN_HEADER: &'static str = "x-cg-demo-api-key";

/// The variable of the environment that holds the token.
pub const TOKEN_ENV_VAR: &'static str = "COINGECKO_TOKEN";

/// The address of the `limit` largest coins of all.
pub open spec fn coins_markets_address(base_url: Seq<char>, limit: nat) -> Seq<char> {
    base_url + "/coins/markets?vs_currency=usd&order=market_cap_desc&per_page="@ + decimal(limit)
}

/// The address of all categories.
pub open spec fn categories_address(base_url: Seq<char>) -> Seq<char> {
    base_url + "/coins/categories?order=market_cap_desc"@
}

/// The address of the `limit` largest coins of one category.
pub open spec fn category_coins_address(base_url: Seq<char>, category_id: Seq<char>, limit: nat) -> Seq<
    char,
> {
    base_url + "/coins/markets?vs_currency=usd&category="@ + category_id
        + "&order=market_cap_desc&per_page="@ + decimal(limit)
}

/// The address of the markets of the exchange.
pub open spec fn exchange_info_address(base_url: Seq<char>) -> Seq<char> {
    base_url + "/exchangeInfo"@
}

/// The address of the `limit` largest coins of all.
pub fn coins_markets_url(base_url: &str, limit: u8) -> (url: String)
    ensures
        url@ == coins_markets_address(base_url@, limit as nat),
{
    let mut url = String::from_str(base_url);
    url.append("/coins/markets?vs_currency=usd&order=market_cap_desc&per_page=");
    url.append(decimal_text(limit as u64).as_str());
    url
}

/// The address of all categories.
pub fn categories_url(base_url: &str) -> (url: String)
    ensures
        url@ == categories_address(base_url@),
{
    let mut url = String::from_str(base_url);
    url.append("/coins/categories?order=market_cap_desc");
    url
}

/// The address of the `limit` largest coins of one category.
pub fn category_coins_url(base_url: &str, category_id: &str, limit: u8) -> (url: String)
    ensures
        url@ == category_coins_address(base_url@, category_id@, limit as nat),
{
    let mut url = String::from_str(base_url);
    url.append("/coins/markets?vs_currency=usd&category=");
    url.append(category_id);
    url.append("&order=market_cap_desc&per_page=");
    url.append(decimal_text(limit as u64).as_str());
    url
}

/// The address of the markets of the exchange.
pub fn exchange_info_url(base_url: &str) -> (url: String)
    ensures
        url@ == exchange_info_address(base_url@),
{
    let mut url = String::from_str(base_url);
    url.append("/exchangeInfo");
    url
}

} // verus!
