//! Markets of the derivatives exchange, and which of their coins can be
//! traded as futures.

use vstd::prelude::*;
use vstd::string::*;

use crate::models::views;
use crate::text::{lowercase_of, texts, to_lowercase};

verus! {

/// Where a futures market stands in its life.
#[derive(Debug, Clone, Copy, PartialEq, Eq)]
pub enum BfMarketStatus {
    PendingTrading,
    Trading,
    PreDelivering,
    Delivering,
    Delivered,
    PreSettle,
    Settling,
    Close,
}

/// One market of the derivatives exchange.
#[derive(Debug, PartialEq, Eq)]
pub struct BfMarketData {
    pub symbol: String,
    pub base_asset: String,
    pub quote_asset: String,
    pub status: BfMarketStatus,
}

/// All that the exchange tells of itself: its markets.
#[derive(Debug, PartialEq, Eq)]
pub struct BfExchangeInfo {
    pub markets: Vec<BfMarketData>,
}

/// A market, as text.
pub struct BfMarketView {
    pub symbol: Seq<char>,
    pub base_asset: Seq<char>,
    pub quote_asset: Seq<char>,
    pub status: BfMarketStatus,
}

impl View for BfMarketData {
    type V = BfMarketView;

    open spec fn view(&self) -> BfMarketView {
        BfMarketView {
            symbol: self.symbol@,
            base_asset: self.base_asset@,
            quote_asset: self.quote_asset@,
            status: self.status,
        }
    }
}

/// For a market that is trading, its base asset in lower case, which is how
/// the listing service writes symbols.
pub open spec fn tradable_symbol() -> spec_fn(BfMarketView) -> Option<Seq<char>> {
    |market: BfMarketView|
        if market.status is Trading {
            Some(lowercase_of(market.base_asset))
        } else {
            None
        }
}

/// The symbols that can be traded as futures: one for each trading market,
/// in the order of the markets.
pub open spec fn prepared(markets: Seq<BfMarketView>) -> Seq<Seq<char>> {
    markets.filter_map(tradable_symbol())
}

impl BfMarketData {
    /// Whether the market is trading.
    pub fn is_trading(&self) -> (yes: bool)
        ensures
            yes == (self.status is Trading),
    {
        match self.status {
            BfMarketStatus::Trading => true,
            _ => false,
        }
    }
}

impl BfExchangeInfo {
    /// The markets of the exchange.
    pub fn into_markets(self) -> (markets: Vec<BfMarketData>)
        ensures
            markets == self.markets,
    {
        self.markets
    }
}

/// The symbols that can be traded as futures.
pub fn prepare_bf_markets(markets: Vec<BfMarketData>) -> (symbols: Vec<String>)
    ensures
        texts(symbols@) == prepared(views(markets@)),
{
    let ghost all = views(markets@);
    let mut symbols: Vec<String> = Vec::new();
    let mut i: usize = 0;
    while i < markets.len()
        invariant
            i <= markets.len(),
            all == views(markets@),
            texts(symbols@) == all.take(i as int).filter_map(tradable_symbol()),
        decreases markets.len() - i,
    {
        proof {
            all.lemma_filter_map_take_succ(tradable_symbol(), i as int);
        }
        if markets[i].is_trading() {
            let symbol = to_lowercase(markets[i].base_asset.as_str());
            symbols.push(symbol);
        }
        i += 1;
    }
    assert(all.take(i as int) =~= all);
    symbols
}

} // verus!
