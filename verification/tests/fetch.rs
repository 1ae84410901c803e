use market_sifter::category::CategoryMap;
use market_sifter::fetch::{
    consider_category, filter_categories, ids_of, is_worth_keeping, Answer, FetchState, Request,
    TOP_COINS_IN_CATEGORY, TOP_COINS_TOTAL,
};
use market_sifter::models::{CategoryCoins, CategoryMarketData, CoinMarketData};

fn coin(id: &str, symbol: &str, rank: Option<u16>) -> CoinMarketData {
    CoinMarketData {
        id: id.to_string(),
        symbol: symbol.to_string(),
        name: id.to_string(),
        market_cap: Some(4_600_000_000_000_000_000),
        market_cap_rank: rank,
    }
}

fn category(id: &str) -> CategoryMarketData {
    CategoryMarketData { id: id.to_string(), name: id.to_uppercase(), market_cap: None }
}

fn with_coins(id: &str, coins: Vec<CoinMarketData>) -> CategoryCoins {
    CategoryCoins { category: category(id), coins }
}

fn ids(map: &CategoryMap) -> Vec<String> {
    map.values().iter().map(|entry| entry.category.id.clone()).collect()
}

#[test]
fn category_led_by_a_well_known_coin_is_suppressed() {
    let top = vec!["bitcoin".to_string()];
    let fetched = vec![with_coins("store-of-value", vec![coin("bitcoin", "btc", Some(1))])];
    let kept = filter_categories(&top, &fetched);
    assert!(kept.is_empty());
    assert!(!kept.contains_key(&"store-of-value".to_string()));
}

#[test]
fn category_a_led_by_btc_is_excluded_entirely() {
    let top = ids_of(&vec![coin("btc", "btc", Some(1)), coin("eth", "eth", Some(2))]);
    let fetched = vec![
        with_coins("a", vec![coin("btc", "btc", Some(1))]),
        with_coins("b", vec![coin("niche", "nch", Some(300)), coin("btc", "btc", Some(1))]),
    ];
    let kept = filter_categories(&top, &fetched);
    assert_eq!(ids(&kept), vec!["b".to_string()]);
    assert!(kept.get(&"a".to_string()).is_none());
    assert_eq!(kept.get(&"b".to_string()).map(|e| e.coins.len()), Some(2));
}

#[test]
fn category_without_coins_is_passed_over() {
    let kept = filter_categories(&vec![], &vec![with_coins("empty", vec![])]);
    assert!(kept.is_empty());
}

#[test]
fn worth_keeping_looks_at_the_first_coin_only() {
    let top = vec!["bitcoin".to_string()];
    assert!(!is_worth_keeping(&top, &vec![]));
    assert!(!is_worth_keeping(&top, &vec![coin("bitcoin", "btc", Some(1)), coin("x", "x", None)]));
    assert!(is_worth_keeping(&top, &vec![coin("x", "x", None), coin("bitcoin", "btc", Some(1))]));
}

#[test]
fn kept_categories_come_in_ascending_order_of_id() {
    let fetched = vec![
        with_coins("zk", vec![coin("z", "z", Some(9))]),
        with_coins("ai", vec![coin("a", "a", Some(8))]),
        with_coins("meme", vec![coin("m", "m", Some(7))]),
    ];
    let kept = filter_categories(&vec![], &fetched);
    assert_eq!(kept.len(), 3);
    assert_eq!(ids(&kept), vec!["ai".to_string(), "meme".to_string(), "zk".to_string()]);
}

#[test]
fn later_category_of_the_same_id_replaces_the_earlier() {
    let mut kept = CategoryMap::new();
    consider_category(&mut kept, &vec![], with_coins("ai", vec![coin("a", "a", Some(8))]));
    consider_category(&mut kept, &vec![], with_coins("ai", vec![coin("b", "b", Some(3))]));
    assert_eq!(kept.len(), 1);
    assert_eq!(kept.get(&"ai".to_string()).map(|e| e.coins[0].id.clone()), Some("b".to_string()));
    let all = kept.into_values();
    assert_eq!(all, vec![with_coins("ai", vec![coin("b", "b", Some(3))])]);
}

#[test]
fn market_cap_is_carried_through_unchanged() {
    let kept = filter_categories(&vec![], &vec![with_coins("ai", vec![coin("a", "a", Some(8))])]);
    let entry = kept.get(&"ai".to_string()).map(|e| e.coins[0].market_cap);
    assert_eq!(entry, Some(Some(4_600_000_000_000_000_000)));
}

#[test]
fn fetch_asks_for_categories_then_top_coins_then_each_category() {
    let state = FetchState::new();
    assert_eq!(state.request(), Request::Categories);
    assert!(!state.is_finished());
    let state = state.step(Answer::Categories(Some(vec![category("a"), category("b")])));
    assert_eq!(state.request(), Request::TopCoins { limit: TOP_COINS_TOTAL });
    let state = state.step(Answer::TopCoins(Some(vec![coin("btc", "btc", Some(1))])));
    assert_eq!(
        state.request(),
        Request::CoinsInCategory { category_id: "a".to_string(), limit: TOP_COINS_IN_CATEGORY }
    );
    let state = state.step(Answer::Coins(Some(vec![coin("btc", "btc", Some(1))])));
    assert_eq!(
        state.request(),
        Request::CoinsInCategory { category_id: "b".to_string(), limit: TOP_COINS_IN_CATEGORY }
    );
    let state = state.step(Answer::Coins(Some(vec![coin("niche", "nch", Some(300))])));
    assert_eq!(state.request(), Request::Nothing);
    assert!(state.is_finished());
    let kept = state.into_kept();
    assert_eq!(ids(&kept), vec!["b".to_string()]);
}

#[test]
fn failed_request_for_categories_ends_with_nothing() {
    let state = FetchState::new().step(Answer::Categories(None));
    assert!(state.is_finished());
    assert!(state.into_kept().is_empty());
}

#[test]
fn failed_request_for_top_coins_ends_with_nothing() {
    let state = FetchState::new()
        .step(Answer::Categories(Some(vec![category("a")])))
        .step(Answer::TopCoins(None));
    assert_eq!(state.request(), Request::Nothing);
    assert!(state.into_kept().is_empty());
}

#[test]
fn failed_request_for_one_category_passes_it_over() {
    let state = FetchState::new()
        .step(Answer::Categories(Some(vec![category("a"), category("b")])))
        .step(Answer::TopCoins(Some(vec![])))
        .step(Answer::Coins(None))
        .step(Answer::Coins(Some(vec![coin("x", "x", Some(5))])));
    assert!(state.is_finished());
    assert_eq!(ids(&state.into_kept()), vec!["b".to_string()]);
}

#[test]
fn answer_that_was_not_asked_for_changes_nothing() {
    let state = FetchState::new().step(Answer::Coins(Some(vec![coin("x", "x", Some(5))])));
    assert_eq!(state.request(), Request::Categories);
    let state = state.step(Answer::TopCoins(None));
    assert_eq!(state.request(), Request::Categories);
}

#[test]
fn no_categories_means_nothing_to_ask() {
    let state = FetchState::new()
        .step(Answer::Categories(Some(vec![])))
        .step(Answer::TopCoins(Some(vec![coin("btc", "btc", Some(1))])));
    assert!(state.is_finished());
    assert!(state.into_kept().is_empty());
}
