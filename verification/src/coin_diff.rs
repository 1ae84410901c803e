//! What changed between two reports: coins that appeared, coins that
//! disappeared, and, for coins in both, the fields that differ.

use vstd::prelude::*;
use vstd::string::*;

use crate::models::{lemma_views_push, views, CoinInfo, CoinInfoView};
use crate::text::{decimal, decimal_text, lemma_decimal_injective};

verus! {

/// One field of a coin that differs between two reports, both values
/// written out as text.
#[derive(Debug, PartialEq, Eq)]
pub struct Change {
    pub field: String,
    pub old_value: String,
    pub new_value: String,
}

/// The fields of one coin that differ between two reports.
#[derive(Debug, PartialEq, Eq)]
pub struct DetailedChange {
    pub symbol: String,
    pub changes: Vec<Change>,
}

/// The difference between an earlier report and a later one.
#[derive(Debug, PartialEq, Eq)]
pub struct ChangeSummary {
    pub appeared: Vec<CoinInfo>,
    pub disappeared: Vec<CoinInfo>,
    pub detailed_changes: Vec<DetailedChange>,
}

/// A change, as text.
pub struct ChangeView {
    pub field: Seq<char>,
    pub old_value: Seq<char>,
    pub new_value: Seq<char>,
}

/// The changes of one coin, as a sequence.
pub struct DetailedChangeView {
    pub symbol: Seq<char>,
    pub changes: Seq<ChangeView>,
}

/// A difference between two reports, as sequences.
pub struct ChangeSummaryView {
    pub appeared: Seq<CoinInfoView>,
    pub disappeared: Seq<CoinInfoView>,
    pub detailed_changes: Seq<DetailedChangeView>,
}

impl View for Change {
    type V = ChangeView;

    open spec fn view(&self) -> ChangeView {
        ChangeView { field: self.field@, old_value: self.old_value@, new_value: self.new_value@ }
    }
}

impl View for DetailedChange {
    type V = DetailedChangeView;

    open spec fn view(&self) -> DetailedChangeView {
        DetailedChangeView { symbol: self.symbol@, changes: views(self.changes@) }
    }
}

impl View for ChangeSummary {
    type V = ChangeSummaryView;

    open spec fn view(&self) -> ChangeSummaryView {
        ChangeSummaryView {
            appeared: views(self.appeared@),
            disappeared: views(self.disappeared@),
            detailed_changes: views(self.detailed_changes@),
        }
    }
}

/// The rows of a report by symbol. Where a symbol occurs more than once, the
/// last row that carries it is the one found.
pub open spec fn symbol_index(list: Seq<CoinInfoView>) -> Map<Seq<char>, CoinInfoView>
    decreases list.len(),
{
    if list.len() == 0 {
        Map::empty()
    } else {
        symbol_index(list.drop_last()).insert(list.last().symbol, list.last())
    }
}

/// Nothing, where the two values are equal; else the one change that
/// records them.
pub open spec fn change_if(differs: bool, field: Seq<char>, old_value: Seq<char>, new_value: Seq<char>)
    -> Seq<ChangeView> {
    if differs {
        seq![ChangeView { field, old_value, new_value }]
    } else {
        Seq::empty()
    }
}

/// The fields in which `new` differs from `old`, in the order
/// `num_categories`, `market_cap_rank`, `categories`; numbers in decimal.
pub open spec fn field_changes(old: CoinInfoView, new: CoinInfoView) -> Seq<ChangeView> {
    change_if(
        old.num_categories != new.num_categories,
        "num_categories"@,
        decimal(old.num_categories),
        decimal(new.num_categories),
    ) + change_if(
        old.market_cap_rank != new.market_cap_rank,
        "market_cap_rank"@,
        decimal(old.market_cap_rank),
        decimal(new.market_cap_rank),
    ) + change_if(
        old.categories != new.categories,
        "categories"@,
        old.categories,
        new.categories,
    )
}

/// A number is reported as changed exactly where its numeral differs: the
/// comparison of the values and the comparison of what is written agree.
pub proof fn lemma_change_shows_in_writing(old: CoinInfoView, new: CoinInfoView)
    ensures
        old.num_categories != new.num_categories <==> decimal(old.num_categories) != decimal(
            new.num_categories,
        ),
        old.market_cap_rank != new.market_cap_rank <==> decimal(old.market_cap_rank) != decimal(
            new.market_cap_rank,
        ),
{
    if decimal(old.num_categories) == decimal(new.num_categories) {
        lemma_decimal_injective(old.num_categories, new.num_categories);
    }
    if decimal(old.market_cap_rank) == decimal(new.market_cap_rank) {
        lemma_decimal_injective(old.market_cap_rank, new.market_cap_rank);
    }
}

/// Holds of the rows whose symbol `index` does not know.
pub open spec fn missing_from(index: Map<Seq<char>, CoinInfoView>) -> spec_fn(CoinInfoView) -> bool {
    |row: CoinInfoView| !index.contains_key(row.symbol)
}

/// For a row whose symbol `index` knows, and which differs in some field
/// from the row found there: the record of those fields.
pub open spec fn detail_against(index: Map<Seq<char>, CoinInfoView>) -> spec_fn(
    CoinInfoView,
) -> Option<DetailedChangeView> {
    |row: CoinInfoView|
        if index.contains_key(row.symbol) && field_changes(index[row.symbol], row).len() > 0 {
            Some(
                DetailedChangeView {
                    symbol: row.symbol,
                    changes: field_changes(index[row.symbol], row),
                },
            )
        } else {
            None
        }
}

/// The difference between report `old` and report `new`. Appeared are the
/// rows of `new` whose symbol `old` lacks, disappeared the rows of `old`
/// whose symbol `new` lacks, each in the order of its report; the detailed
/// changes follow the order of `new`.
pub open spec fn diff(old: Seq<CoinInfoView>, new: Seq<CoinInfoView>) -> ChangeSummaryView {
    ChangeSummaryView {
        appeared: new.filter(missing_from(symbol_index(old))),
        disappeared: old.filter(missing_from(symbol_index(new))),
        detailed_changes: new.filter_map(detail_against(symbol_index(old))),
    }
}

/// Holds of the rows that carry `symbol`.
pub open spec fn carries(symbol: Seq<char>) -> spec_fn(CoinInfoView) -> bool {
    |row: CoinInfoView| row.symbol == symbol
}

/// How many rows of `list` carry `symbol`.
pub open spec fn occurrences(list: Seq<CoinInfoView>, symbol: Seq<char>) -> nat {
    list.filter(carries(symbol)).len()
}

/// Two rows agree in all that a comparison looks at.
pub open spec fn same_fields(a: CoinInfoView, b: CoinInfoView) -> bool {
    &&& a.num_categories == b.num_categories
    &&& a.market_cap_rank == b.market_cap_rank
    &&& a.categories == b.categories
}

/// Rows that share a symbol agree in their fields. A report in which no
/// symbol occurs twice is consistent.
pub open spec fn consistent(list: Seq<CoinInfoView>) -> bool {
    forall|i: int, j: int|
        0 <= i < list.len() && 0 <= j < list.len() && (#[trigger] list[i]).symbol == (
        #[trigger] list[j]).symbol ==> same_fields(list[i], list[j])
}

/// The index knows exactly the symbols that some row carries, and what it
/// holds for a symbol is a row that carries it.
pub proof fn lemma_symbol_index(list: Seq<CoinInfoView>, symbol: Seq<char>)
    ensures
        symbol_index(list).contains_key(symbol) <==> exists|i: int|
            0 <= i < list.len() && (#[trigger] list[i]).symbol == symbol,
        symbol_index(list).contains_key(symbol) <==> occurrences(list, symbol) > 0,
        symbol_index(list).contains_key(symbol) ==> exists|k: int|
            0 <= k < list.len() && (#[trigger] list[k]).symbol == symbol && symbol_index(
                list,
            )[symbol] == list[k],
    decreases list.len(),
{
    reveal(Seq::filter);
    if list.len() > 0 {
        let rest = list.drop_last();
        lemma_symbol_index(rest, symbol);
        assert(list =~= rest.push(list.last()));
        rest.lemma_filter_push(list.last(), carries(symbol));
    }
}

/// A filter that no row passes leaves nothing.
proof fn lemma_filter_none<A>(rows: Seq<A>, keep: spec_fn(A) -> bool)
    requires
        forall|i: int| 0 <= i < rows.len() ==> !keep(#[trigger] rows[i]),
    ensures
        rows.filter(keep) == Seq::<A>::empty(),
    decreases rows.len(),
{
    reveal(Seq::filter);
    if rows.len() > 0 {
        lemma_filter_none(rows.drop_last(), keep);
    }
}

/// A filtering map that maps no row leaves nothing.
proof fn lemma_filter_map_none<A, B>(rows: Seq<A>, pick: spec_fn(A) -> Option<B>)
    requires
        forall|i: int| 0 <= i < rows.len() ==> pick(#[trigger] rows[i]) is None,
    ensures
        rows.filter_map(pick) == Seq::<B>::empty(),
    decreases rows.len(),
{
    if rows.len() > 0 {
        lemma_filter_map_none(rows.drop_last(), pick);
    }
}

/// Filtering by `first` and then by `second` is filtering by `second`
/// alone, where every row that passes `second` passes `first`.
proof fn lemma_filter_narrower<A>(rows: Seq<A>, first: spec_fn(A) -> bool, second: spec_fn(A) -> bool)
    requires
        forall|i: int| 0 <= i < rows.len() && second(#[trigger] rows[i]) ==> first(rows[i]),
    ensures
        rows.filter(first).filter(second) == rows.filter(second),
    decreases rows.len(),
{
    reveal(Seq::filter);
    if rows.len() > 0 {
        let rest = rows.drop_last();
        lemma_filter_narrower(rest, first, second);
        if first(rows.last()) {
            rest.filter(first).lemma_filter_push(rows.last(), second);
        }
    }
}

/// A report compared with itself shows no difference: nothing appeared,
/// nothing disappeared, no field changed.
pub proof fn lemma_diff_with_itself(list: Seq<CoinInfoView>)
    requires
        consistent(list),
    ensures
        diff(list, list).appeared == Seq::<CoinInfoView>::empty(),
        diff(list, list).disappeared == Seq::<CoinInfoView>::empty(),
        diff(list, list).detailed_changes == Seq::<DetailedChangeView>::empty(),
{
    let index = symbol_index(list);
    assert forall|i: int| 0 <= i < list.len() implies !missing_from(index)(#[trigger] list[i])
        && detail_against(index)(list[i]) is None by {
        lemma_symbol_index(list, list[i].symbol);
    }
    lemma_filter_none(list, missing_from(index));
    lemma_filter_map_none(list, detail_against(index));
}

/// A symbol that the earlier report lacks and the later report carries once
/// is reported as appeared exactly once, and neither as disappeared nor
/// among the detailed changes.
pub proof fn lemma_new_symbol_appears_once(
    old: Seq<CoinInfoView>,
    new: Seq<CoinInfoView>,
    symbol: Seq<char>,
)
    requires
        occurrences(old, symbol) == 0,
        occurrences(new, symbol) == 1,
    ensures
        occurrences(diff(old, new).appeared, symbol) == 1,
        occurrences(diff(old, new).disappeared, symbol) == 0,
        forall|i: int|
            0 <= i < diff(old, new).detailed_changes.len() ==> (#[trigger] diff(
                old,
                new,
            ).detailed_changes[i]).symbol != symbol,
{
    let old_index = symbol_index(old);
    let new_index = symbol_index(new);
    lemma_symbol_index(old, symbol);
    lemma_filter_narrower(new, missing_from(old_index), carries(symbol));
    lemma_filter_narrower(old, missing_from(new_index), carries(symbol));
    let details = diff(old, new).detailed_changes;
    assert forall|i: int| 0 <= i < details.len() implies (#[trigger] details[i]).symbol
        != symbol by {
        new.lemma_filter_map_contains(detail_against(old_index), details[i]);
    }
}

/// Where in `list` the row for `symbol` is found: the last position that
/// carries the symbol, if any does.
pub fn find_by_symbol(list: &Vec<CoinInfo>, symbol: &String) -> (found: Option<usize>)
    ensures
        match found {
            Some(k) => k < list.len() && symbol_index(views(list@)).contains_key(symbol@)
                && symbol_index(views(list@))[symbol@] == list[k as int]@,
            None => !symbol_index(views(list@)).contains_key(symbol@),
        },
{
    let mut found: Option<usize> = None;
    let mut i: usize = 0;
    while i < list.len()
        invariant
            i <= list.len(),
            match found {
                Some(k) => k < i && symbol_index(views(list@).take(i as int)).contains_key(symbol@)
                    && symbol_index(views(list@).take(i as int))[symbol@] == list[k as int]@,
                None => !symbol_index(views(list@).take(i as int)).contains_key(symbol@),
            },
        decreases list.len() - i,
    {
        assert(views(list@).take(i + 1).drop_last() =~= views(list@).take(i as int));
        if list[i].symbol == *symbol {
            found = Some(i);
        }
        i += 1;
    }
    assert(views(list@).take(i as int) =~= views(list@));
    found
}

/// The fields in which `new` differs from `old`.
pub fn changed_fields(old: &CoinInfo, new: &CoinInfo) -> (changes: Vec<Change>)
    ensures
        views(changes@) == field_changes(old@, new@),
{
    let mut changes: Vec<Change> = Vec::new();
    if old.num_categories != new.num_categories {
        let change = Change {
            field: String::from_str("num_categories"),
            old_value: decimal_text(old.num_categories as u64),
            new_value: decimal_text(new.num_categories as u64),
        };
        proof {
            lemma_views_push(changes@, change);
        }
        changes.push(change);
    }
    if old.market_cap_rank != new.market_cap_rank {
        let change = Change {
            field: String::from_str("market_cap_rank"),
            old_value: decimal_text(old.market_cap_rank as u64),
            new_value: decimal_text(new.market_cap_rank as u64),
        };
        proof {
            lemma_views_push(changes@, change);
        }
        changes.push(change);
    }
    if old.categories != new.categories {
        let change = Change {
            field: String::from_str("categories"),
            old_value: old.categories.clone(),
            new_value: new.categories.clone(),
        };
        proof {
            lemma_views_push(changes@, change);
        }
        changes.push(change);
    }
    changes
}

/// Compares the previous report with the current one.
pub fn compare_coin_lists(old_list: Vec<CoinInfo>, new_list: Vec<CoinInfo>) -> (summary:
    ChangeSummary)
    ensures
        summary@ == diff(views(old_list@), views(new_list@)),
{
    let ghost old_rows = views(old_list@);
    let ghost new_rows = views(new_list@);
    let ghost old_index = symbol_index(old_rows);
    let ghost new_index = symbol_index(new_rows);

    let mut appeared: Vec<CoinInfo> = Vec::new();
    let mut disappeared: Vec<CoinInfo> = Vec::new();
    let mut detailed_changes: Vec<DetailedChange> = Vec::new();

    proof {
        reveal(Seq::filter);
    }

    let mut i: usize = 0;
    while i < new_list.len()
        invariant
            i <= new_list.len(),
            old_rows == views(old_list@),
            new_rows == views(new_list@),
            old_index == symbol_index(old_rows),
            views(appeared@) == new_rows.take(i as int).filter(missing_from(old_index)),
            views(detailed_changes@) == new_rows.take(i as int).filter_map(
                detail_against(old_index),
            ),
        decreases new_list.len() - i,
    {
        let new_coin = &new_list[i];
        proof {
            assert(new_rows.take(i + 1) =~= new_rows.take(i as int).push(new_coin@));
            new_rows.take(i as int).lemma_filter_push(new_coin@, missing_from(old_index));
            new_rows.lemma_filter_map_take_succ(detail_against(old_index), i as int);
        }
        match find_by_symbol(&old_list, &new_coin.symbol) {
            Some(k) => {
                let changes = changed_fields(&old_list[k], new_coin);
                if changes.len() > 0 {
                    let detail = DetailedChange { symbol: new_coin.symbol.clone(), changes };
                    proof {
                        lemma_views_push(detailed_changes@, detail);
                    }
                    detailed_changes.push(detail);
                }
            },
            None => {
                let coin = new_coin.clone();
                proof {
                    lemma_views_push(appeared@, coin);
                }
                appeared.push(coin);
            },
        }
        i += 1;
    }
    assert(new_rows.take(i as int) =~= new_rows);

    let mut j: usize = 0;
    while j < old_list.len()
        invariant
            j <= old_list.len(),
            old_rows == views(old_list@),
            new_rows == views(new_list@),
            new_index == symbol_index(new_rows),
            views(disappeared@) == old_rows.take(j as int).filter(missing_from(new_index)),
        decreases old_list.len() - j,
    {
        let old_coin = &old_list[j];
        proof {
            assert(old_rows.take(j + 1) =~= old_rows.take(j as int).push(old_coin@));
            old_rows.take(j as int).lemma_filter_push(old_coin@, missing_from(new_index));
        }
        if find_by_symbol(&new_list, &old_coin.symbol).is_none() {
            let coin = old_coin.clone();
            proof {
                lemma_views_push(disappeared@, coin);
            }
            disappeared.push(coin);
        }
        j += 1;
    }
    assert(old_rows.take(j as int) =~= old_rows);

    ChangeSummary { appeared, disappeared, detailed_changes }
}

} // verus!
