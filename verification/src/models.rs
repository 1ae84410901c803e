//! The records that flow through the sifter, each with its mathematical
//! view: text becomes a sequence of characters, a vector a sequence.

use vstd::prelude::*;

verus! {

/// One coin as the listing service quotes it.
#[derive(Debug, PartialEq, Eq)]
pub struct CoinMarketData {
    pub id: String,
    pub symbol: String,
    pub name: String,
    /// The quoted market capitalisation, kept as the bit pattern of the
    /// double it was quoted in. It is carried along and never computed with.
    pub market_cap: Option<u64>,
    /// Rank by market capitalisation, 1 for the largest; unset for a coin
    /// without rank.
    pub market_cap_rank: Option<u16>,
}

/// One category of coins as the listing service quotes it.
#[derive(Debug, PartialEq, Eq)]
pub struct CategoryMarketData {
    pub id: String,
    pub name: String,
    /// As in [`CoinMarketData::market_cap`].
    pub market_cap: Option<u64>,
}

/// A category with its coins, largest market capitalisation first.
#[derive(Debug, PartialEq, Eq)]
pub struct CategoryCoins {
    pub category: CategoryMarketData,
    pub coins: Vec<CoinMarketData>,
}

/// One row of the report: a coin that leads at least one category.
#[derive(Debug, PartialEq, Eq)]
pub struct CoinInfo {
    pub symbol: String,
    pub num_categories: usize,
    pub market_cap_rank: u16,
    pub categories: String,
}

/// A coin, as text and numbers.
pub struct CoinView {
    pub id: Seq<char>,
    pub symbol: Seq<char>,
    pub name: Seq<char>,
    pub market_cap: Option<u64>,
    pub market_cap_rank: Option<u16>,
}

/// A category, as text and numbers.
pub struct CategoryView {
    pub id: Seq<char>,
    pub name: Seq<char>,
    pub market_cap: Option<u64>,
}

/// A category with the sequence of its coins.
pub struct CategoryCoinsView {
    pub category: CategoryView,
    pub coins: Seq<CoinView>,
}

/// A row of the report, as text and numbers.
pub struct CoinInfoView {
    pub symbol: Seq<char>,
    pub num_categories: nat,
    pub market_cap_rank: nat,
    pub categories: Seq<char>,
}

/// The views of the items of a sequence, in the same order.
pub open spec fn views<T: View>(items: Seq<T>) -> Seq<T::V> {
    items.map_values(|item: T| item@)
}

/// Taking views commutes with appending an item.
pub proof fn lemma_views_push<T: View>(items: Seq<T>, item: T)
    ensures
        views(items.push(item)) == views(items).push(item@),
{
}

impl View for CoinMarketData {
    type V = CoinView;

    open spec fn view(&self) -> CoinView {
        CoinView {
            id: self.id@,
            symbol: self.symbol@,
            name: self.name@,
            market_cap: self.market_cap,
            market_cap_rank: self.market_cap_rank,
        }
    }
}

impl View for CategoryMarketData {
    type V = CategoryView;

    open spec fn view(&self) -> CategoryView {
        CategoryView { id: self.id@, name: self.name@, market_cap: self.market_cap }
    }
}

impl View for CategoryCoins {
    type V = CategoryCoinsView;

    open spec fn view(&self) -> CategoryCoinsView {
        CategoryCoinsView { category: self.category@, coins: views(self.coins@) }
    }
}

impl View for CoinInfo {
    type V = CoinInfoView;

    open spec fn view(&self) -> CoinInfoView {
        CoinInfoView {
            symbol: self.symbol@,
            num_categories: self.num_categories as nat,
            market_cap_rank: self.market_cap_rank as nat,
            categories: self.categories@,
        }
    }
}

impl Clone for CoinMarketData {
    fn clone(&self) -> (copy: Self)
        ensures
            copy@ == self@,
    {
        CoinMarketData {
            id: self.id.clone(),
            symbol: self.symbol.clone(),
            name: self.name.clone(),
            market_cap: self.market_cap,
            market_cap_rank: self.market_cap_rank,
        }
    }
}

impl Clone for CategoryMarketData {
    fn clone(&self) -> (copy: Self)
        ensures
            copy@ == self@,
    {
        CategoryMarketData {
            id: self.id.clone(),
            name: self.name.clone(),
            market_cap: self.market_cap,
        }
    }
}

impl Clone for CategoryCoins {
    fn clone(&self) -> (copy: Self)
        ensures
            copy@ == self@,
    {
        let mut coins: Vec<CoinMarketData> = Vec::new();
        let mut i: usize = 0;
        while i < self.coins.len()
            invariant
                i <= self.coins.len(),
                views(coins@) == views(self.coins@).take(i as int),
            decreases self.coins.len() - i,
        {
            let coin = self.coins[i].clone();
            proof {
                lemma_views_push(coins@, coin);
            }
            coins.push(coin);
            i += 1;
        }
        assert(views(self.coins@).take(i as int) =~= views(self.coins@));
        CategoryCoins { category: self.category.clone(), coins }
    }
}

impl Clone for CoinInfo {
    fn clone(&self) -> (copy: Self)
        ensures
            copy@ == self@,
    {
        CoinInfo {
            symbol: self.symbol.clone(),
            num_categories: self.num_categories,
            market_cap_rank: self.market_cap_rank,
            categories: self.categories.clone(),
        }
    }
}

} // verus!
