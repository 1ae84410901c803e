use market_sifter::coin_diff::{
    changed_fields, compare_coin_lists, find_by_symbol, Change, ChangeSummary, DetailedChange,
};
use market_sifter::models::CoinInfo;

fn row(symbol: &str, num_categories: usize, market_cap_rank: u16, categories: &str) -> CoinInfo {
    CoinInfo {
        symbol: symbol.to_string(),
        num_categories,
        market_cap_rank,
        categories: categories.to_string(),
    }
}

fn change(field: &str, old_value: &str, new_value: &str) -> Change {
    Change {
        field: field.to_string(),
        old_value: old_value.to_string(),
        new_value: new_value.to_string(),
    }
}

#[test]
fn diff_of_a_list_with_itself_is_empty() {
    let list = vec![row("eth", 2, 2, "defi, layer1"), row("sol", 1, 5, "layer1")];
    let copy = vec![row("eth", 2, 2, "defi, layer1"), row("sol", 1, 5, "layer1")];
    let summary = compare_coin_lists(list, copy);
    assert_eq!(
        summary,
        ChangeSummary { appeared: vec![], disappeared: vec![], detailed_changes: vec![] }
    );
}

#[test]
fn diff_of_two_empty_lists_is_empty() {
    let summary = compare_coin_lists(vec![], vec![]);
    assert!(summary.appeared.is_empty());
    assert!(summary.disappeared.is_empty());
    assert!(summary.detailed_changes.is_empty());
}

#[test]
fn symbol_only_in_new_list_appears_once() {
    let old = vec![row("eth", 2, 2, "defi, layer1")];
    let new = vec![row("eth", 2, 2, "defi, layer1"), row("sol", 1, 5, "layer1")];
    let summary = compare_coin_lists(old, new);
    assert_eq!(summary.appeared, vec![row("sol", 1, 5, "layer1")]);
    assert!(summary.disappeared.is_empty());
    assert!(summary.detailed_changes.is_empty());
}

#[test]
fn symbol_only_in_old_list_disappears() {
    let old = vec![row("eth", 2, 2, "defi, layer1"), row("doge", 1, 9, "meme")];
    let new = vec![row("eth", 2, 2, "defi, layer1")];
    let summary = compare_coin_lists(old, new);
    assert!(summary.appeared.is_empty());
    assert_eq!(summary.disappeared, vec![row("doge", 1, 9, "meme")]);
    assert!(summary.detailed_changes.is_empty());
}

#[test]
fn changed_fields_are_reported_in_detail() {
    let old = vec![row("eth", 2, 2, "defi, layer1")];
    let new = vec![row("eth", 3, 2, "defi, layer1, staking")];
    let summary = compare_coin_lists(old, new);
    assert!(summary.appeared.is_empty());
    assert!(summary.disappeared.is_empty());
    assert_eq!(
        summary.detailed_changes,
        vec![DetailedChange {
            symbol: "eth".to_string(),
            changes: vec![
                change("num_categories", "2", "3"),
                change("categories", "defi, layer1", "defi, layer1, staking"),
            ],
        }]
    );
}

#[test]
fn rank_change_is_written_in_decimal() {
    let changes = changed_fields(&row("btc", 1, 7, "store"), &row("btc", 1, 123, "store"));
    assert_eq!(changes, vec![change("market_cap_rank", "7", "123")]);
}

#[test]
fn all_three_fields_change_in_order() {
    let changes = changed_fields(&row("x", 10, 499, "a"), &row("x", 9, 500, "b"));
    assert_eq!(
        changes,
        vec![
            change("num_categories", "10", "9"),
            change("market_cap_rank", "499", "500"),
            change("categories", "a", "b"),
        ]
    );
}

#[test]
fn appeared_and_changed_keep_the_order_of_the_new_list() {
    let old = vec![row("b", 1, 2, "x"), row("d", 1, 4, "x")];
    let new = vec![row("e", 1, 5, "x"), row("d", 2, 4, "x"), row("a", 1, 1, "x"), row("b", 1, 3, "x")];
    let summary = compare_coin_lists(old, new);
    assert_eq!(summary.appeared, vec![row("e", 1, 5, "x"), row("a", 1, 1, "x")]);
    let symbols: Vec<String> = summary.detailed_changes.iter().map(|d| d.symbol.clone()).collect();
    assert_eq!(symbols, vec!["d".to_string(), "b".to_string()]);
}

#[test]
fn repeated_symbol_is_found_at_its_last_row() {
    let list = vec![row("eth", 1, 2, "a"), row("sol", 1, 5, "b"), row("eth", 2, 3, "a, c")];
    assert_eq!(find_by_symbol(&list, &"eth".to_string()), Some(2));
    assert_eq!(find_by_symbol(&list, &"sol".to_string()), Some(1));
    assert_eq!(find_by_symbol(&list, &"btc".to_string()), None);
    let old = vec![row("eth", 1, 2, "a"), row("eth", 2, 3, "a, c")];
    let new = vec![row("eth", 2, 3, "a, c")];
    let summary = compare_coin_lists(old, new);
    assert!(summary.detailed_changes.is_empty());
}
