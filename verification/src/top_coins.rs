//! The report itself: for every coin that leads a category, in how many
//! categories it does so, at which rank, and in which.

use vstd::prelude::*;
use vstd::string::*;

use crate::category::{ascending, CategoryMap};
use crate::models::{
    lemma_views_push, views, CategoryCoins, CategoryCoinsView, CoinInfo, CoinInfoView,
    CoinMarketData, CoinView,
};
use crate::text::{
    contains_text, lemma_lex_less_asymmetric, lemma_lex_less_connected,
    lemma_lex_less_transitive, lex_less, precedes, texts,
};

verus! {

/// How many coins stand for one category.
pub const TOP_COINS_FOR_FINAL_LIST: usize = 1;

/// The best rank that the report admits.
pub const MIN_MARKET_CAP: u16 = 1;

/// The last rank that the report admits.
pub const MAX_MARKET_CAP: u16 = 500;

/// One coin chosen to stand for one category.
pub struct Pick {
    pub symbol: Seq<char>,
    pub rank: nat,
    pub category: Seq<char>,
}

/// The symbols tradable as futures, where that restriction is in force.
pub open spec fn market_views(markets: Option<Vec<String>>) -> Option<Seq<Seq<char>>> {
    match markets {
        Some(symbols) => Some(texts(symbols@)),
        None => None,
    }
}

/// Holds of the coins that may stand for a category: those with a rank
/// and, where `markets` restricts, with a symbol among the markets.
pub open spec fn eligible(markets: Option<Seq<Seq<char>>>) -> spec_fn(CoinView) -> bool {
    |coin: CoinView|
        coin.market_cap_rank is Some && (markets matches Some(symbols) ==> symbols.contains(
            coin.symbol,
        ))
}

/// The first `limit` items of `items`, or all of them where there are
/// fewer.
pub open spec fn at_most<A>(items: Seq<A>, limit: nat) -> Seq<A> {
    if items.len() <= limit {
        items
    } else {
        items.take(limit as int)
    }
}

/// The pick that a ranked coin makes for the category called
/// `category`.
pub open spec fn pick_for(category: Seq<char>) -> spec_fn(CoinView) -> Pick {
    |coin: CoinView|
        Pick {
            symbol: coin.symbol,
            rank: coin.market_cap_rank.unwrap() as nat,
            category,
        }
}

/// The picks of one category: its first `limit` eligible coins, in the
/// order in which the category lists them.
pub open spec fn category_picks(
    category: CategoryCoinsView,
    markets: Option<Seq<Seq<char>>>,
    limit: nat,
) -> Seq<Pick> {
    at_most(category.coins.filter(eligible(markets)), limit).map_values(
        pick_for(category.category.name),
    )
}

/// The picks of all categories, category after category.
pub open spec fn all_picks(
    categories: Seq<CategoryCoinsView>,
    markets: Option<Seq<Seq<char>>>,
    limit: nat,
) -> Seq<Pick>
    decreases categories.len(),
{
    if categories.len() == 0 {
        Seq::empty()
    } else {
        all_picks(categories.drop_last(), markets, limit) + category_picks(
            categories.last(),
            markets,
            limit,
        )
    }
}

/// The names listed so far with one more: a comma and a blank go in
/// between, unless nothing is listed yet.
pub open spec fn joined(listed: Seq<char>, name: Seq<char>) -> Seq<char> {
    if listed.len() == 0 {
        name
    } else {
        listed + ", "@ + name
    }
}

/// The row of `symbol` after `picks`: how many of them chose it, the rank
/// that the last of those gave, and the categories of all of them. A symbol
/// that nobody chose has count 0, rank 0 and no category.
pub open spec fn tally(picks: Seq<Pick>, symbol: Seq<char>) -> CoinInfoView
    decreases picks.len(),
{
    if picks.len() == 0 {
        CoinInfoView { symbol, num_categories: 0, market_cap_rank: 0, categories: Seq::empty() }
    } else {
        let before = tally(picks.drop_last(), symbol);
        let pick = picks.last();
        if pick.symbol == symbol {
            CoinInfoView {
                symbol,
                num_categories: before.num_categories + 1,
                market_cap_rank: pick.rank,
                categories: joined(before.categories, pick.category),
            }
        } else {
            before
        }
    }
}

/// The order of the report: more categories first; among rows with equally
/// many, the symbol that comes first in dictionary order.
pub open spec fn ranks_before(a: CoinInfoView, b: CoinInfoView) -> bool {
    a.num_categories > b.num_categories || (a.num_categories == b.num_categories && lex_less(
        a.symbol,
        b.symbol,
    ))
}

/// Each row precedes all rows after it.
pub open spec fn ranked(rows: Seq<CoinInfoView>) -> bool {
    forall|i: int, j: int| 0 <= i < j < rows.len() ==> ranks_before(#[trigger] rows[i], #[trigger] rows[j])
}

/// The row of `symbol` belongs in the report: somebody chose the symbol,
/// and its rank lies within the bounds, both included.
pub open spec fn reported(picks: Seq<Pick>, symbol: Seq<char>, min_rank: nat, max_rank: nat) -> bool {
    &&& tally(picks, symbol).num_categories > 0
    &&& min_rank <= tally(picks, symbol).market_cap_rank <= max_rank
}

/// `rows` is the report on `picks`: the tallies of exactly the reported
/// symbols, in the order of the report.
pub open spec fn is_report(rows: Seq<CoinInfoView>, picks: Seq<Pick>, min_rank: nat, max_rank: nat) -> bool {
    &&& forall|i: int|
        0 <= i < rows.len() ==> (#[trigger] rows[i]) == tally(picks, rows[i].symbol) && reported(
            picks,
            rows[i].symbol,
            min_rank,
            max_rank,
        )
    &&& forall|symbol: Seq<char>| #[trigger]
        reported(picks, symbol, min_rank, max_rank) ==> exists|i: int|
            0 <= i < rows.len() && (#[trigger] rows[i]).symbol == symbol
    &&& ranked(rows)
}

/// No two rows carry the same symbol.
pub open spec fn distinct_symbols(rows: Seq<CoinInfoView>) -> bool {
    forall|i: int, j: int|
        0 <= i < j < rows.len() ==> (#[trigger] rows[i]).symbol != (#[trigger] rows[j]).symbol
}

/// `rows` holds the tallies of exactly the symbols that `picks` chose, each
/// once.
pub open spec fn tallies(rows: Seq<CoinInfoView>, picks: Seq<Pick>) -> bool {
    &&& forall|i: int|
        0 <= i < rows.len() ==> (#[trigger] rows[i]) == tally(picks, rows[i].symbol)
            && rows[i].num_categories > 0
    &&& distinct_symbols(rows)
    &&& forall|symbol: Seq<char>|
        (#[trigger] tally(picks, symbol)).num_categories > 0 ==> exists|i: int|
            0 <= i < rows.len() && (#[trigger] rows[i]).symbol == symbol
}

/// A tally keeps the symbol it was asked for, counts no more picks than
/// there are, and is blank where it counts none.
pub proof fn lemma_tally_bounds(picks: Seq<Pick>, symbol: Seq<char>)
    ensures
        tally(picks, symbol).symbol == symbol,
        tally(picks, symbol).num_categories <= picks.len(),
        tally(picks, symbol).num_categories == 0 ==> tally(picks, symbol).market_cap_rank == 0
            && tally(picks, symbol).categories == Seq::<char>::empty(),
    decreases picks.len(),
{
    if picks.len() > 0 {
        lemma_tally_bounds(picks.drop_last(), symbol);
    }
}

/// One more pick changes the tally of its own symbol and no other.
pub proof fn lemma_tally_push(picks: Seq<Pick>, pick: Pick, symbol: Seq<char>)
    ensures
        tally(picks.push(pick), symbol) == if pick.symbol == symbol {
            CoinInfoView {
                symbol,
                num_categories: tally(picks, symbol).num_categories + 1,
                market_cap_rank: pick.rank,
                categories: joined(tally(picks, symbol).categories, pick.category),
            }
        } else {
            tally(picks, symbol)
        },
{
    assert(picks.push(pick).drop_last() =~= picks);
}

/// The order of the report is transitive.
pub proof fn lemma_ranks_before_transitive(a: CoinInfoView, b: CoinInfoView, c: CoinInfoView)
    requires
        ranks_before(a, b),
        ranks_before(b, c),
    ensures
        ranks_before(a, c),
{
    if a.num_categories == b.num_categories && b.num_categories == c.num_categories {
        lemma_lex_less_transitive(a.symbol, b.symbol, c.symbol);
    }
}

/// Of two rows with different symbols one precedes the other, and only
/// one.
pub proof fn lemma_ranks_before_total(a: CoinInfoView, b: CoinInfoView)
    requires
        a.symbol != b.symbol,
    ensures
        ranks_before(a, b) != ranks_before(b, a),
{
    lemma_lex_less_connected(a.symbol, b.symbol);
    if lex_less(a.symbol, b.symbol) {
        lemma_lex_less_asymmetric(a.symbol, b.symbol);
    }
}

/// No row precedes itself, and of two rows at most one precedes the
/// other.
pub proof fn lemma_ranks_before_asymmetric(a: CoinInfoView, b: CoinInfoView)
    requires
        ranks_before(a, b),
    ensures
        !ranks_before(b, a),
        a != b,
{
    if a.num_categories == b.num_categories {
        lemma_lex_less_asymmetric(a.symbol, b.symbol);
    }
}

/// Two reports on the same picks agree row by row.
proof fn lemma_same_row(
    a: Seq<CoinInfoView>,
    b: Seq<CoinInfoView>,
    picks: Seq<Pick>,
    min_rank: nat,
    max_rank: nat,
    i: int,
)
    requires
        is_report(a, picks, min_rank, max_rank),
        is_report(b, picks, min_rank, max_rank),
        0 <= i < a.len(),
    ensures
        i < b.len(),
        a[i] == b[i],
    decreases i,
{
    assert forall|j: int| 0 <= j < i implies j < b.len() && a[j] == b[j] by {
        lemma_same_row(a, b, picks, min_rank, max_rank, j);
    }
    let k = choose|k: int| 0 <= k < b.len() && (#[trigger] b[k]).symbol == a[i].symbol;
    if k < i {
        lemma_ranks_before_asymmetric(a[k], a[i]);
    }
    let m = choose|m: int| 0 <= m < a.len() && (#[trigger] a[m]).symbol == b[i].symbol;
    if m < i {
        lemma_ranks_before_asymmetric(b[m], b[i]);
    }
    if k > i {
        lemma_ranks_before_asymmetric(b[i], b[k]);
        if m > i {
            lemma_ranks_before_asymmetric(a[i], a[m]);
        }
    }
}

/// The picks and the bounds decide the report: there is one and no
/// other.
pub proof fn lemma_report_is_unique(
    a: Seq<CoinInfoView>,
    b: Seq<CoinInfoView>,
    picks: Seq<Pick>,
    min_rank: nat,
    max_rank: nat,
)
    requires
        is_report(a, picks, min_rank, max_rank),
        is_report(b, picks, min_rank, max_rank),
    ensures
        a == b,
{
    if a.len() > 0 {
        lemma_same_row(a, b, picks, min_rank, max_rank, a.len() - 1);
    }
    if b.len() > 0 {
        lemma_same_row(b, a, picks, min_rank, max_rank, b.len() - 1);
    }
    assert forall|i: int| 0 <= i < a.len() implies a[i] == b[i] by {
        lemma_same_row(a, b, picks, min_rank, max_rank, i);
    }
}

/// Whether `coin` may stand for a category.
pub fn is_eligible(coin: &CoinMarketData, markets: &Option<Vec<String>>) -> (yes: bool)
    ensures
        yes == eligible(market_views(*markets))(coin@),
{
    if coin.market_cap_rank.is_none() {
        return false;
    }
    match markets {
        Some(symbols) => contains_text(symbols, &coin.symbol),
        None => true,
    }
}

/// Whether row `a` precedes row `b` in the report.
pub fn goes_before(a: &CoinInfo, b: &CoinInfo) -> (yes: bool)
    ensures
        yes == ranks_before(a@, b@),
{
    a.num_categories > b.num_categories || (a.num_categories == b.num_categories && precedes(
        a.symbol.as_str(),
        b.symbol.as_str(),
    ))
}

/// Appends a category's name to the names listed so far.
fn join_name(listed: &String, name: &String) -> (all: String)
    ensures
        all@ == joined(listed@, name@),
{
    let mut all = listed.clone();
    if !all.as_str().is_empty() {
        all.append(", ");
    }
    all.append(name.as_str());
    all
}

/// Where the row of `symbol` stands in `rows`.
fn row_of(rows: &Vec<CoinInfo>, symbol: &String) -> (found: Option<usize>)
    ensures
        match found {
            Some(k) => k < rows.len() && rows[k as int].symbol@ == symbol@,
            None => forall|i: int| 0 <= i < rows.len() ==> rows[i].symbol@ != symbol@,
        },
{
    let mut i: usize = 0;
    while i < rows.len()
        invariant
            i <= rows.len(),
            forall|j: int| 0 <= j < i ==> rows[j].symbol@ != symbol@,
        decreases rows.len() - i,
    {
        if rows[i].symbol == *symbol {
            return Some(i);
        }
        i += 1;
    }
    None
}

/// Counts one more pick: the row of the coin's symbol is brought up to date,
/// or made where the symbol is new.
fn record_pick(
    rows: &mut Vec<CoinInfo>,
    coin: &CoinMarketData,
    category: &String,
    Ghost(picks): Ghost<Seq<Pick>>,
)
    requires
        tallies(views(old(rows)@), picks),
        picks.len() < usize::MAX,
        coin.market_cap_rank is Some,
    ensures
        tallies(views(final(rows)@), picks.push(pick_for(category@)(coin@))),
{
    let ghost pick = pick_for(category@)(coin@);
    let ghost before = views(rows@);
    let rank = coin.market_cap_rank.unwrap();
    proof {
        lemma_tally_bounds(picks, coin.symbol@);
        lemma_tally_push(picks, pick, coin.symbol@);
    }
    match row_of(rows, &coin.symbol) {
        Some(k) => {
            let row = &rows[k];
            assert(row@ == before[k as int]);
            let updated = CoinInfo {
                symbol: row.symbol.clone(),
                num_categories: row.num_categories + 1,
                market_cap_rank: rank,
                categories: join_name(&row.categories, category),
            };
            rows.set(k, updated);
            proof {
                let after = views(rows@);
                assert(after =~= before.update(k as int, updated@));
                assert forall|i: int| 0 <= i < after.len() implies (#[trigger] after[i]) == tally(
                    picks.push(pick),
                    after[i].symbol,
                ) && after[i].num_categories > 0 by {
                    lemma_tally_push(picks, pick, after[i].symbol);
                }
                assert forall|symbol: Seq<char>|
                    (#[trigger] tally(picks.push(pick), symbol)).num_categories
                        > 0 implies exists|i: int|
                    0 <= i < after.len() && (#[trigger] after[i]).symbol == symbol by {
                    lemma_tally_push(picks, pick, symbol);
                    if symbol == pick.symbol {
                        assert(after[k as int].symbol == symbol);
                    } else {
                        let i = choose|i: int|
                            0 <= i < before.len() && (#[trigger] before[i]).symbol == symbol;
                        assert(after[i].symbol == symbol);
                    }
                }
            }
        },
        None => {
            let created = CoinInfo {
                symbol: coin.symbol.clone(),
                num_categories: 1,
                market_cap_rank: rank,
                categories: category.clone(),
            };
            proof {
                lemma_views_push(rows@, created);
            }
            rows.push(created);
            proof {
                let after = views(rows@);
                assert forall|i: int| 0 <= i < after.len() implies (#[trigger] after[i]) == tally(
                    picks.push(pick),
                    after[i].symbol,
                ) && after[i].num_categories > 0 by {
                    lemma_tally_push(picks, pick, after[i].symbol);
                }
                assert forall|symbol: Seq<char>|
                    (#[trigger] tally(picks.push(pick), symbol)).num_categories
                        > 0 implies exists|i: int|
                    0 <= i < after.len() && (#[trigger] after[i]).symbol == symbol by {
                    lemma_tally_push(picks, pick, symbol);
                    if symbol == pick.symbol {
                        assert(after[before.len() as int].symbol == symbol);
                    } else {
                        let i = choose|i: int|
                            0 <= i < before.len() && (#[trigger] before[i]).symbol == symbol;
                        assert(after[i].symbol == symbol);
                    }
                }
            }
        },
    }
}

/// Counts the picks of one category.
fn record_category(
    rows: &mut Vec<CoinInfo>,
    entry: &CategoryCoins,
    markets: &Option<Vec<String>>,
    limit: usize,
    Ghost(picks): Ghost<Seq<Pick>>,
)
    requires
        tallies(views(old(rows)@), picks),
        picks.len() + limit <= usize::MAX,
    ensures
        tallies(
            views(final(rows)@),
            picks + category_picks(entry@, market_views(*markets), limit as nat),
        ),
        category_picks(entry@, market_views(*markets), limit as nat).len() <= limit,
{
    let ghost coins = views(entry.coins@);
    let ghost may = eligible(market_views(*markets));
    let ghost pick = pick_for(entry.category.name@);
    let mut k: usize = 0;
    let mut taken: usize = 0;
    proof {
        reveal(Seq::filter);
    }
    while k < entry.coins.len() && taken < limit
        invariant
            k <= entry.coins.len(),
            taken <= limit,
            picks.len() + limit <= usize::MAX,
            coins == views(entry.coins@),
            may == eligible(market_views(*markets)),
            pick == pick_for(entry.category.name@),
            coins.take(k as int).filter(may).len() == taken,
            tallies(views(rows@), picks + coins.take(k as int).filter(may).map_values(pick)),
        decreases entry.coins.len() - k,
    {
        let coin = &entry.coins[k];
        let ghost chosen = coins.take(k as int).filter(may);
        proof {
            assert(coins.take(k + 1) =~= coins.take(k as int).push(coin@));
            coins.take(k as int).lemma_filter_push(coin@, may);
        }
        if is_eligible(coin, markets) {
            proof {
                assert(chosen.push(coin@).map_values(pick) =~= chosen.map_values(pick).push(
                    pick(coin@),
                ));
            }
            record_pick(rows, coin, &entry.category.name, Ghost(picks + chosen.map_values(pick)));
            taken += 1;
        }
        k += 1;
    }
    proof {
        let chosen = coins.take(k as int).filter(may);
        assert(coins =~= coins.take(k as int) + coins.skip(k as int));
        Seq::filter_distributes_over_add(coins.take(k as int), coins.skip(k as int), may);
        assert(at_most(coins.filter(may), limit as nat) =~= chosen);
    }
}

/// Puts `row` where it belongs among rows that are in the order of the
/// report.
fn insert_ranked(sorted: &mut Vec<CoinInfo>, row: CoinInfo)
    requires
        ranked(views(old(sorted)@)),
        forall|i: int| 0 <= i < old(sorted).len() ==> old(sorted)[i].symbol@ != row.symbol@,
    ensures
        ranked(views(final(sorted)@)),
        exists|at: int|
            0 <= at <= old(sorted).len() && views(final(sorted)@) == #[trigger] views(
                old(sorted)@,
            ).insert(at, row@),
{
    let ghost before = views(sorted@);
    let mut at: usize = 0;
    while at < sorted.len() && goes_before(&sorted[at], &row)
        invariant
            at <= sorted.len(),
            before == views(sorted@),
            forall|i: int| 0 <= i < at ==> ranks_before(#[trigger] before[i], row@),
        decreases sorted.len() - at,
    {
        at += 1;
    }
    proof {
        assert forall|j: int| at <= j < before.len() implies ranks_before(
            row@,
            #[trigger] before[j],
        ) by {
            lemma_ranks_before_total(before[at as int], row@);
            if at < j {
                lemma_ranks_before_transitive(row@, before[at as int], before[j]);
            }
        }
    }
    sorted.insert(at, row);
    proof {
        let after = views(sorted@);
        assert(after =~= before.insert(at as int, row@));
    }
}

/// The rank of `row` lies within the bounds, both included.
pub open spec fn within(row: CoinInfoView, min_rank: nat, max_rank: nat) -> bool {
    min_rank <= row.market_cap_rank <= max_rank
}

/// `chosen` holds exactly those of the first `upto` rows of `rows` whose
/// rank lies within the bounds.
pub open spec fn drawn_from(
    chosen: Seq<CoinInfoView>,
    rows: Seq<CoinInfoView>,
    upto: int,
    min_rank: nat,
    max_rank: nat,
) -> bool {
    &&& forall|x: int|
        0 <= x < chosen.len() ==> rows.take(upto).contains(#[trigger] chosen[x]) && within(
            chosen[x],
            min_rank,
            max_rank,
        )
    &&& forall|j: int|
        0 <= j < upto && within(#[trigger] rows[j], min_rank, max_rank) ==> chosen.contains(
            rows[j],
        )
}

/// A row outside the bounds leaves the choice as it is.
proof fn lemma_drawn_skip(
    chosen: Seq<CoinInfoView>,
    rows: Seq<CoinInfoView>,
    upto: int,
    min_rank: nat,
    max_rank: nat,
)
    requires
        0 <= upto < rows.len(),
        drawn_from(chosen, rows, upto, min_rank, max_rank),
        !within(rows[upto], min_rank, max_rank),
    ensures
        drawn_from(chosen, rows, upto + 1, min_rank, max_rank),
{
}

/// A row within the bounds joins the choice, wherever it is put.
proof fn lemma_drawn_insert(
    chosen: Seq<CoinInfoView>,
    at: int,
    rows: Seq<CoinInfoView>,
    upto: int,
    min_rank: nat,
    max_rank: nat,
)
    requires
        0 <= upto < rows.len(),
        0 <= at <= chosen.len(),
        drawn_from(chosen, rows, upto, min_rank, max_rank),
        within(rows[upto], min_rank, max_rank),
    ensures
        drawn_from(chosen.insert(at, rows[upto]), rows, upto + 1, min_rank, max_rank),
{
    let after = chosen.insert(at, rows[upto]);
    assert forall|x: int| 0 <= x < after.len() implies rows.take(upto + 1).contains(
        #[trigger] after[x],
    ) && within(after[x], min_rank, max_rank) by {
        if x == at {
            assert(rows.take(upto + 1)[upto] == after[x]);
        }
    }
    assert forall|j: int|
        0 <= j < upto + 1 && within(#[trigger] rows[j], min_rank, max_rank) implies after.contains(
        rows[j],
    ) by {
        if j == upto {
            assert(after[at] == rows[j]);
        } else {
            let x = chosen.index_of(rows[j]);
            if x < at {
                assert(after[x] == rows[j]);
            } else {
                assert(after[x + 1] == rows[j]);
            }
        }
    }
}

/// The tallies of all chosen symbols, cut down to the bounds and put in
/// order, are the report.
proof fn lemma_report_of_tallies(
    report: Seq<CoinInfoView>,
    rows: Seq<CoinInfoView>,
    picks: Seq<Pick>,
    min_rank: nat,
    max_rank: nat,
)
    requires
        tallies(rows, picks),
        ranked(report),
        drawn_from(report, rows, rows.len() as int, min_rank, max_rank),
    ensures
        is_report(report, picks, min_rank, max_rank),
{
    assert forall|symbol: Seq<char>| #[trigger]
        reported(picks, symbol, min_rank, max_rank) implies exists|x: int|
        0 <= x < report.len() && (#[trigger] report[x]).symbol == symbol by {
    }
}

/// The rows whose rank lies within the bounds, in the order of the
/// report.
fn rank_rows(rows: &Vec<CoinInfo>, min_rank: u16, max_rank: u16) -> (report: Vec<CoinInfo>)
    requires
        distinct_symbols(views(rows@)),
    ensures
        ranked(views(report@)),
        drawn_from(
            views(report@),
            views(rows@),
            rows.len() as int,
            min_rank as nat,
            max_rank as nat,
        ),
{
    let ghost source = views(rows@);
    let mut report: Vec<CoinInfo> = Vec::new();
    let mut i: usize = 0;
    while i < rows.len()
        invariant
            i <= rows.len(),
            source == views(rows@),
            distinct_symbols(source),
            ranked(views(report@)),
            drawn_from(views(report@), source, i as int, min_rank as nat, max_rank as nat),
        decreases rows.len() - i,
    {
        let row = &rows[i];
        let ghost before = views(report@);
        if min_rank <= row.market_cap_rank && row.market_cap_rank <= max_rank {
            let copy = row.clone();
            proof {
                assert forall|x: int| 0 <= x < report.len() implies report[x].symbol@
                    != copy.symbol@ by {
                    let j = source.take(i as int).index_of(before[x]);
                    assert(source[j].symbol != source[i as int].symbol);
                }
            }
            insert_ranked(&mut report, copy);
            proof {
                let at = choose|at: int|
                    0 <= at <= before.len() && views(report@) == #[trigger] before.insert(
                        at,
                        copy@,
                    );
                lemma_drawn_insert(before, at, source, i as int, min_rank as nat, max_rank as nat);
            }
        } else {
            proof {
                lemma_drawn_skip(before, source, i as int, min_rank as nat, max_rank as nat);
            }
        }
        i += 1;
    }
    report
}

/// The report on `categories`, taken in the order given. Each category is
/// stood for by its first `limit` eligible coins; a coin's row counts the
/// categories that chose it, keeps the rank that the last of them quoted and
/// lists their names; rows with a rank outside `min_rank..=max_rank` are left
/// out; the rows come in the order of the report.
pub fn aggregate(
    markets: &Option<Vec<String>>,
    categories: &Vec<CategoryCoins>,
    limit: usize,
    min_rank: u16,
    max_rank: u16,
) -> (report: Vec<CoinInfo>)
    requires
        categories.len() * limit <= usize::MAX,
    ensures
        is_report(
            views(report@),
            all_picks(views(categories@), market_views(*markets), limit as nat),
            min_rank as nat,
            max_rank as nat,
        ),
        forall|i: int| 0 <= i < report.len() ==> (#[trigger] report[i]).num_categories > 0,
        forall|i: int|
            0 <= i < report.len() ==> min_rank <= (#[trigger] report[i]).market_cap_rank
                <= max_rank,
{
    let ghost all = views(categories@);
    let ghost restricted = market_views(*markets);
    let mut rows: Vec<CoinInfo> = Vec::new();
    let mut c: usize = 0;
    while c < categories.len()
        invariant
            c <= categories.len(),
            categories.len() * limit <= usize::MAX,
            all == views(categories@),
            restricted == market_views(*markets),
            all_picks(all.take(c as int), restricted, limit as nat).len() <= c * limit,
            tallies(views(rows@), all_picks(all.take(c as int), restricted, limit as nat)),
        decreases categories.len() - c,
    {
        let ghost picks = all_picks(all.take(c as int), restricted, limit as nat);
        proof {
            assert(all.take(c + 1).drop_last() =~= all.take(c as int));
            assert((c + 1) * limit <= categories.len() * limit) by (nonlinear_arith)
                requires
                    c < categories.len(),
            ;
            assert((c + 1) * limit == c * limit + limit) by (nonlinear_arith);
        }
        record_category(&mut rows, &categories[c], markets, limit, Ghost(picks));
        c += 1;
    }
    assert(all.take(c as int) =~= all);
    let report = rank_rows(&rows, min_rank, max_rank);
    proof {
        lemma_report_of_tallies(
            views(report@),
            views(rows@),
            all_picks(all, restricted, limit as nat),
            min_rank as nat,
            max_rank as nat,
        );
        assert forall|i: int| 0 <= i < report.len() implies (#[trigger] report[i]).num_categories
            > 0 && min_rank <= report[i].market_cap_rank <= max_rank by {
            assert(views(report@)[i] == report[i]@);
        }
    }
    report
}

/// The report on `categories` under the standing rules: one coin for each
/// category, ranks from [`MIN_MARKET_CAP`] to [`MAX_MARKET_CAP`]. With
/// `binance_futures_markets` given, only coins whose symbol is among them
/// are eligible.
pub fn collect_top_coins(
    binance_futures_markets: &Option<Vec<String>>,
    categories: &Vec<CategoryCoins>,
) -> (report: Vec<CoinInfo>)
    ensures
        is_report(
            views(report@),
            all_picks(
                views(categories@),
                market_views(*binance_futures_markets),
                TOP_COINS_FOR_FINAL_LIST as nat,
            ),
            MIN_MARKET_CAP as nat,
            MAX_MARKET_CAP as nat,
        ),
        forall|i: int| 0 <= i < report.len() ==> (#[trigger] report[i]).num_categories > 0,
        forall|i: int|
            0 <= i < report.len() ==> MIN_MARKET_CAP <= (#[trigger] report[i]).market_cap_rank
                <= MAX_MARKET_CAP,
{
    aggregate(
        binance_futures_markets,
        categories,
        TOP_COINS_FOR_FINAL_LIST,
        MIN_MARKET_CAP,
        MAX_MARKET_CAP,
    )
}

/// The report on the kept categories under the standing rules, the
/// categories taken in ascending order of id.
pub fn top_coins_of(binance_futures_markets: &Option<Vec<String>>, categories: &CategoryMap) -> (report:
    Vec<CoinInfo>)
    ensures
        ascending(categories.ordered()),
        is_report(
            views(report@),
            all_picks(
                categories.ordered(),
                market_views(*binance_futures_markets),
                TOP_COINS_FOR_FINAL_LIST as nat,
            ),
            MIN_MARKET_CAP as nat,
            MAX_MARKET_CAP as nat,
        ),
        forall|i: int| 0 <= i < report.len() ==> (#[trigger] report[i]).num_categories > 0,
        forall|i: int|
            0 <= i < report.len() ==> MIN_MARKET_CAP <= (#[trigger] report[i]).market_cap_rank
                <= MAX_MARKET_CAP,
{
    collect_top_coins(binance_futures_markets, categories.values())
}

} // verus!
