use market_sifter::category::CategoryMap;
use market_sifter::models::{CategoryCoins, CategoryMarketData, CoinInfo, CoinMarketData};
use market_sifter::top_coins::{
    aggregate, collect_top_coins, goes_before, is_eligible, top_coins_of, MAX_MARKET_CAP,
    MIN_MARKET_CAP, TOP_COINS_FOR_FINAL_LIST,
};

fn coin(symbol: &str, rank: Option<u16>) -> CoinMarketData {
    CoinMarketData {
        id: format!("{}-id", symbol),
        symbol: symbol.to_string(),
        name: symbol.to_uppercase(),
        market_cap: None,
        market_cap_rank: rank,
    }
}

fn category(id: &str, name: &str, coins: Vec<CoinMarketData>) -> CategoryCoins {
    CategoryCoins {
        category: CategoryMarketData { id: id.to_string(), name: name.to_string(), market_cap: None },
        coins,
    }
}

fn row(symbol: &str, num_categories: usize, market_cap_rank: u16, categories: &str) -> CoinInfo {
    CoinInfo {
        symbol: symbol.to_string(),
        num_categories,
        market_cap_rank,
        categories: categories.to_string(),
    }
}

#[test]
fn standing_rules_are_one_coin_and_ranks_1_to_500() {
    assert_eq!(TOP_COINS_FOR_FINAL_LIST, 1);
    assert_eq!(MIN_MARKET_CAP, 1);
    assert_eq!(MAX_MARKET_CAP, 500);
}

#[test]
fn each_category_counts_for_its_first_ranked_coin() {
    let categories = vec![
        category("a", "Alpha", vec![coin("eth", Some(2)), coin("sol", Some(5))]),
        category("b", "Beta", vec![coin("eth", Some(2))]),
        category("c", "Gamma", vec![coin("sol", Some(5))]),
    ];
    let report = collect_top_coins(&None, &categories);
    assert_eq!(report, vec![row("eth", 2, 2, "Alpha, Beta"), row("sol", 1, 5, "Gamma")]);
}

#[test]
fn report_never_holds_a_count_of_zero_nor_a_rank_outside_the_bounds() {
    let categories = vec![
        category("a", "Alpha", vec![coin("far", Some(501))]),
        category("b", "Beta", vec![coin("edge", Some(500))]),
        category("c", "Gamma", vec![coin("top", Some(1))]),
        category("d", "Delta", vec![coin("none", None)]),
        category("e", "Empty", vec![]),
    ];
    let report = collect_top_coins(&None, &categories);
    assert_eq!(report.len(), 2);
    for row in report.iter() {
        assert!(row.num_categories > 0);
        assert!(MIN_MARKET_CAP <= row.market_cap_rank && row.market_cap_rank <= MAX_MARKET_CAP);
    }
    assert_eq!(report, vec![row("edge", 1, 500, "Beta"), row("top", 1, 1, "Gamma")]);
}

#[test]
fn unranked_coins_are_passed_over_for_the_next_ranked_one() {
    let categories =
        vec![category("a", "Alpha", vec![coin("ghost", None), coin("real", Some(40))])];
    let report = collect_top_coins(&None, &categories);
    assert_eq!(report, vec![row("real", 1, 40, "Alpha")]);
}

#[test]
fn futures_filter_applies_before_the_first_is_taken() {
    let categories = vec![
        category("a", "Alpha", vec![coin("eth", Some(2)), coin("sol", Some(5))]),
        category("b", "Beta", vec![coin("eth", Some(2))]),
    ];
    let markets = Some(vec!["sol".to_string()]);
    let report = collect_top_coins(&markets, &categories);
    assert_eq!(report, vec![row("sol", 1, 5, "Alpha")]);
}

#[test]
fn empty_futures_filter_leaves_nothing() {
    let categories = vec![category("a", "Alpha", vec![coin("eth", Some(2))])];
    let report = collect_top_coins(&Some(vec![]), &categories);
    assert!(report.is_empty());
}

#[test]
fn last_category_decides_the_rank() {
    let categories = vec![
        category("a", "Alpha", vec![coin("eth", Some(2))]),
        category("b", "Beta", vec![coin("eth", Some(3))]),
    ];
    let report = collect_top_coins(&None, &categories);
    assert_eq!(report, vec![row("eth", 2, 3, "Alpha, Beta")]);
}

#[test]
fn rank_of_the_last_category_decides_whether_the_row_stays() {
    let categories = vec![
        category("a", "Alpha", vec![coin("eth", Some(2))]),
        category("b", "Beta", vec![coin("eth", Some(900))]),
    ];
    assert!(collect_top_coins(&None, &categories).is_empty());
}

#[test]
fn separator_is_left_out_while_nothing_is_listed() {
    let categories = vec![
        category("a", "", vec![coin("eth", Some(2))]),
        category("b", "Beta", vec![coin("eth", Some(2))]),
        category("c", "Gamma", vec![coin("eth", Some(2))]),
    ];
    let report = collect_top_coins(&None, &categories);
    assert_eq!(report, vec![row("eth", 3, 2, "Beta, Gamma")]);
}

#[test]
fn ties_are_ordered_by_symbol() {
    let categories = vec![
        category("a", "A", vec![coin("zec", Some(9))]),
        category("b", "B", vec![coin("ada", Some(8))]),
        category("c", "C", vec![coin("xrp", Some(7))]),
        category("d", "D", vec![coin("xrp", Some(7))]),
    ];
    let report = collect_top_coins(&None, &categories);
    assert_eq!(report, vec![row("xrp", 2, 7, "C, D"), row("ada", 1, 8, "B"), row("zec", 1, 9, "A")]);
}

#[test]
fn aggregate_takes_up_to_the_limit_from_each_category() {
    let categories = vec![
        category("a", "Alpha", vec![coin("eth", Some(2)), coin("nil", None), coin("sol", Some(5)), coin("ada", Some(8))]),
        category("b", "Beta", vec![coin("sol", Some(6))]),
    ];
    let report = aggregate(&None, &categories, 2, 1, 100);
    assert_eq!(report, vec![row("sol", 2, 6, "Alpha, Beta"), row("eth", 1, 2, "Alpha")]);
    assert!(aggregate(&None, &categories, 0, 1, 100).is_empty());
    let narrow = aggregate(&None, &categories, 3, 6, 8);
    assert_eq!(narrow, vec![row("sol", 2, 6, "Alpha, Beta"), row("ada", 1, 8, "Alpha")]);
}

#[test]
fn eligibility_needs_a_rank_and_a_market() {
    let markets = Some(vec!["eth".to_string()]);
    assert!(is_eligible(&coin("eth", Some(2)), &markets));
    assert!(!is_eligible(&coin("sol", Some(5)), &markets));
    assert!(!is_eligible(&coin("eth", None), &markets));
    assert!(is_eligible(&coin("sol", Some(5)), &None));
    assert!(!is_eligible(&coin("sol", None), &None));
}

#[test]
fn goes_before_prefers_more_categories() {
    assert!(goes_before(&row("z", 2, 1, ""), &row("a", 1, 1, "")));
    assert!(!goes_before(&row("a", 1, 1, ""), &row("z", 2, 1, "")));
    assert!(goes_before(&row("a", 1, 1, ""), &row("b", 1, 1, "")));
    assert!(!goes_before(&row("a", 1, 1, ""), &row("a", 1, 9, "")));
}

#[test]
fn kept_categories_are_reported_in_ascending_order_of_id() {
    let mut kept = CategoryMap::new();
    kept.insert(category("b", "Beta", vec![coin("eth", Some(3))]));
    kept.insert(category("c", "Gamma", vec![coin("sol", Some(5))]));
    kept.insert(category("a", "Alpha", vec![coin("eth", Some(2))]));
    let report = top_coins_of(&None, &kept);
    assert_eq!(report, vec![row("eth", 2, 3, "Alpha, Beta"), row("sol", 1, 5, "Gamma")]);
}
