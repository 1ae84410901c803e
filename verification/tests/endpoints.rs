use market_sifter::endpoints::{
    categories_url, category_coins_url, coins_markets_url, exchange_info_url, COINGECKO_API_URL,
};
use market_sifter::futures::{prepare_bf_markets, BfExchangeInfo, BfMarketData, BfMarketStatus};

fn market(symbol: &str, base: &str, status: BfMarketStatus) -> BfMarketData {
    BfMarketData {
        symbol: symbol.to_string(),
        base_asset: base.to_string(),
        quote_asset: "USDT".to_string(),
        status,
    }
}

#[test]
fn coins_markets_url_carries_the_limit() {
    assert_eq!(
        coins_markets_url(COINGECKO_API_URL, 10),
        "https://api.coingecko.com/api/v3/coins/markets?vs_currency=usd&order=market_cap_desc&per_page=10"
    );
    assert_eq!(
        coins_markets_url("http://x", 255),
        "http://x/coins/markets?vs_currency=usd&order=market_cap_desc&per_page=255"
    );
}

#[test]
fn categories_url_orders_by_market_cap() {
    assert_eq!(categories_url("http://x"), "http://x/coins/categories?order=market_cap_desc");
}

#[test]
fn category_coins_url_names_the_category() {
    assert_eq!(
        category_coins_url("http://x", "layer-1", 0),
        "http://x/coins/markets?vs_currency=usd&category=layer-1&order=market_cap_desc&per_page=0"
    );
}

#[test]
fn exchange_info_url_is_under_the_base() {
    assert_eq!(exchange_info_url("http://y/v1"), "http://y/v1/exchangeInfo");
}

#[test]
fn only_trading_markets_are_usable_and_lower_cased() {
    let markets = vec![
        market("BTCUSDT", "BTC", BfMarketStatus::Trading),
        market("OLDUSDT", "OLD", BfMarketStatus::Close),
        market("ETHUSDT", "Eth", BfMarketStatus::Trading),
        market("NEWUSDT", "NEW", BfMarketStatus::PendingTrading),
        market("SETUSDT", "SET", BfMarketStatus::Settling),
        market("DELUSDT", "DEL", BfMarketStatus::Delivered),
        market("PDLUSDT", "PDL", BfMarketStatus::PreDelivering),
        market("DLVUSDT", "DLV", BfMarketStatus::Delivering),
        market("PSTUSDT", "PST", BfMarketStatus::PreSettle),
    ];
    assert_eq!(prepare_bf_markets(markets), vec!["btc".to_string(), "eth".to_string()]);
}

#[test]
fn no_markets_give_no_symbols() {
    assert!(prepare_bf_markets(vec![]).is_empty());
    let info = BfExchangeInfo { markets: vec![market("BTCUSDT", "BTC", BfMarketStatus::Trading)] };
    assert!(info.markets[0].is_trading());
    assert_eq!(info.into_markets().len(), 1);
}
