//! Which questions to put to the listing service, in which order, and what
//! to keep of the answers. The asking itself is the caller's part: it puts
//! the request that [`FetchState::request`] names and hands the answer to
//! [`FetchState::step`], until nothing is left to ask.

use vstd::prelude::*;
use vstd::string::*;

use crate::category::CategoryMap;
use crate::models::{
    views, CategoryCoins, CategoryCoinsView, CategoryMarketData, CategoryView,
    CoinMarketData, CoinView,
};
use crate::text::{contains_text, texts};

verus! {

/// How many of the largest coins count as well known.
pub const TOP_COINS_TOTAL: u8 = 10;

/// How many coins are asked for in each category.
pub const TOP_COINS_IN_CATEGORY: u8 = 10;

/// A question to the listing service.
#[derive(Debug, PartialEq, Eq)]
pub enum Request {
    /// All categories, largest market capitalisation first.
    Categories,
    /// The `limit` largest coins of all.
    TopCoins { limit: u8 },
    /// The `limit` largest coins of one category.
    CoinsInCategory { category_id: String, limit: u8 },
    /// Nothing: the work is done.
    Nothing,
}

/// What the listing service answered; `None` where the request failed.
pub enum Answer {
    Categories(Option<Vec<CategoryMarketData>>),
    TopCoins(Option<Vec<CoinMarketData>>),
    Coins(Option<Vec<CoinMarketData>>),
}

/// How far the fetching of categories has come.
pub enum FetchState {
    /// Nothing is known yet; the categories are asked for first.
    AwaitingCategories,
    /// The categories are known; the well-known coins are asked for.
    AwaitingTopCoins { categories: Vec<CategoryMarketData> },
    /// The coins of category number `next` are asked for; `kept` holds what
    /// was kept of the categories before it.
    AwaitingCoins {
        top_coin_ids: Vec<String>,
        categories: Vec<CategoryMarketData>,
        next: usize,
        kept: CategoryMap,
    },
    /// All is asked; `kept` is the result.
    Finished { kept: CategoryMap },
}

/// A question, as text and numbers.
pub enum RequestView {
    Categories,
    TopCoins { limit: u8 },
    CoinsInCategory { category_id: Seq<char>, limit: u8 },
    Nothing,
}

/// An answer, as sequences.
pub enum AnswerView {
    Categories(Option<Seq<CategoryView>>),
    TopCoins(Option<Seq<CoinView>>),
    Coins(Option<Seq<CoinView>>),
}

/// A state of the fetching, as sequences and a map.
pub enum FetchStateView {
    AwaitingCategories,
    AwaitingTopCoins { categories: Seq<CategoryView> },
    AwaitingCoins {
        top_coin_ids: Seq<Seq<char>>,
        categories: Seq<CategoryView>,
        next: nat,
        kept: Map<Seq<char>, CategoryCoinsView>,
    },
    Finished { kept: Map<Seq<char>, CategoryCoinsView> },
}

impl View for Request {
    type V = RequestView;

    open spec fn view(&self) -> RequestView {
        match self {
            Request::Categories => RequestView::Categories,
            Request::TopCoins { limit } => RequestView::TopCoins { limit: *limit },
            Request::CoinsInCategory { category_id, limit } => RequestView::CoinsInCategory {
                category_id: category_id@,
                limit: *limit,
            },
            Request::Nothing => RequestView::Nothing,
        }
    }
}

impl View for Answer {
    type V = AnswerView;

    open spec fn view(&self) -> AnswerView {
        match self {
            Answer::Categories(Some(categories)) => AnswerView::Categories(
                Some(views(categories@)),
            ),
            Answer::Categories(None) => AnswerView::Categories(None),
            Answer::TopCoins(Some(coins)) => AnswerView::TopCoins(Some(views(coins@))),
            Answer::TopCoins(None) => AnswerView::TopCoins(None),
            Answer::Coins(Some(coins)) => AnswerView::Coins(Some(views(coins@))),
            Answer::Coins(None) => AnswerView::Coins(None),
        }
    }
}

impl View for FetchState {
    type V = FetchStateView;

    open spec fn view(&self) -> FetchStateView {
        match self {
            FetchState::AwaitingCategories => FetchStateView::AwaitingCategories,
            FetchState::AwaitingTopCoins { categories } => FetchStateView::AwaitingTopCoins {
                categories: views(categories@),
            },
            FetchState::AwaitingCoins {
                top_coin_ids,
                categories,
                next,
                kept,
            } => FetchStateView::AwaitingCoins {
                top_coin_ids: texts(top_coin_ids@),
                categories: views(categories@),
                next: *next as nat,
                kept: kept@,
            },
            FetchState::Finished { kept } => FetchStateView::Finished { kept: kept@ },
        }
    }
}

/// The ids of `coins`, in the same order.
pub open spec fn coin_ids(coins: Seq<CoinView>) -> Seq<Seq<char>> {
    coins.map_values(|coin: CoinView| coin.id)
}

/// A category with these coins is worth keeping: it has coins, and the first and
/// largest of them is not among the well-known coins.
pub open spec fn worth_keeping(top_coin_ids: Seq<Seq<char>>, coins: Seq<CoinView>) -> bool {
    coins.len() > 0 && !top_coin_ids.contains(coins[0].id)
}

/// What is kept once one more category has been looked at.
pub open spec fn considered(
    kept: Map<Seq<char>, CategoryCoinsView>,
    top_coin_ids: Seq<Seq<char>>,
    entry: CategoryCoinsView,
) -> Map<Seq<char>, CategoryCoinsView> {
    if worth_keeping(top_coin_ids, entry.coins) {
        kept.insert(entry.category.id, entry)
    } else {
        kept
    }
}

/// What is kept of categories that came with their coins, looked at in
/// order: those worth keeping, by id.
pub open spec fn filtered(top_coin_ids: Seq<Seq<char>>, fetched: Seq<CategoryCoinsView>) -> Map<
    Seq<char>,
    CategoryCoinsView,
>
    decreases fetched.len(),
{
    if fetched.len() == 0 {
        Map::empty()
    } else {
        considered(filtered(top_coin_ids, fetched.drop_last()), top_coin_ids, fetched.last())
    }
}

/// The question that goes with a state.
pub open spec fn request_in(state: FetchStateView) -> RequestView {
    match state {
        FetchStateView::AwaitingCategories => RequestView::Categories,
        FetchStateView::AwaitingTopCoins { .. } => RequestView::TopCoins { limit: TOP_COINS_TOTAL },
        FetchStateView::AwaitingCoins { categories, next, .. } => if next < categories.len() {
            RequestView::CoinsInCategory {
                category_id: categories[next as int].id,
                limit: TOP_COINS_IN_CATEGORY,
            }
        } else {
            RequestView::Nothing
        },
        FetchStateView::Finished { .. } => RequestView::Nothing,
    }
}

/// The state with nothing kept, in which the coins of the first category
/// are asked for, or all is done where there is no category.
pub open spec fn begun(top_coin_ids: Seq<Seq<char>>, categories: Seq<CategoryView>) -> FetchStateView {
    if categories.len() == 0 {
        FetchStateView::Finished { kept: Map::empty() }
    } else {
        FetchStateView::AwaitingCoins { top_coin_ids, categories, next: 0, kept: Map::empty() }
    }
}

/// The state that follows `state` on `answer`.
///
/// A failed request for the categories or for the well-known coins ends the
/// work with nothing kept. A category is kept where its coins came and make
/// it worth keeping; a failed request for its coins passes it over. An answer to a
/// question that the state does not ask changes nothing.
pub open spec fn after(state: FetchStateView, answer: AnswerView) -> FetchStateView {
    match (state, answer) {
        (
            FetchStateView::AwaitingCategories,
            AnswerView::Categories(Some(categories)),
        ) => FetchStateView::AwaitingTopCoins { categories },
        (FetchStateView::AwaitingCategories, AnswerView::Categories(None)) => FetchStateView::Finished {
            kept: Map::empty(),
        },
        (FetchStateView::AwaitingTopCoins { categories }, AnswerView::TopCoins(Some(coins))) => begun(
            coin_ids(coins),
            categories,
        ),
        (FetchStateView::AwaitingTopCoins { .. }, AnswerView::TopCoins(None)) => FetchStateView::Finished {
            kept: Map::empty(),
        },
        (
            FetchStateView::AwaitingCoins { top_coin_ids, categories, next, kept },
            AnswerView::Coins(coins),
        ) => {
            let kept_now = if next < categories.len() && coins is Some {
                considered(
                    kept,
                    top_coin_ids,
                    CategoryCoinsView { category: categories[next as int], coins: coins->0 },
                )
            } else {
                kept
            };
            if next + 1 < categories.len() {
                FetchStateView::AwaitingCoins {
                    top_coin_ids,
                    categories,
                    next: next + 1,
                    kept: kept_now,
                }
            } else {
                FetchStateView::Finished { kept: kept_now }
            }
        },
        (state, _) => state,
    }
}

/// Whether a category with these coins is kept.
pub fn is_worth_keeping(top_coin_ids: &Vec<String>, coins: &Vec<CoinMarketData>) -> (yes: bool)
    ensures
        yes == worth_keeping(texts(top_coin_ids@), views(coins@)),
{
    if coins.len() == 0 {
        return false;
    }
    !contains_text(top_coin_ids, &coins[0].id)
}

/// The ids of `coins`, in the same order.
pub fn ids_of(coins: &Vec<CoinMarketData>) -> (ids: Vec<String>)
    ensures
        texts(ids@) == coin_ids(views(coins@)),
{
    let mut ids: Vec<String> = Vec::new();
    let mut i: usize = 0;
    while i < coins.len()
        invariant
            i <= coins.len(),
            texts(ids@) == coin_ids(views(coins@)).take(i as int),
        decreases coins.len() - i,
    {
        let ghost so_far = ids@;
        let id = coins[i].id.clone();
        ids.push(id);
        proof {
            assert(texts(ids@) =~= texts(so_far).push(id@));
        }
        i += 1;
    }
    ids
}

/// Keeps `entry` in `kept` if it is worth keeping.
pub fn consider_category(kept: &mut CategoryMap, top_coin_ids: &Vec<String>, entry: CategoryCoins)
    ensures
        final(kept)@ == considered(old(kept)@, texts(top_coin_ids@), entry@),
{
    if is_worth_keeping(top_coin_ids, &entry.coins) {
        kept.insert(entry);
    }
}

/// What is kept of categories that came with their coins, a failed
/// request counting as no coins.
pub fn filter_categories(top_coin_ids: &Vec<String>, fetched: &Vec<CategoryCoins>) -> (kept:
    CategoryMap)
    ensures
        kept@ == filtered(texts(top_coin_ids@), views(fetched@)),
{
    let ghost all = views(fetched@);
    let mut kept = CategoryMap::new();
    let mut i: usize = 0;
    while i < fetched.len()
        invariant
            i <= fetched.len(),
            all == views(fetched@),
            kept@ == filtered(texts(top_coin_ids@), all.take(i as int)),
        decreases fetched.len() - i,
    {
        assert(all.take(i + 1).drop_last() =~= all.take(i as int));
        consider_category(&mut kept, top_coin_ids, fetched[i].clone());
        i += 1;
    }
    assert(all.take(i as int) =~= all);
    kept
}

impl FetchState {
    /// The state in which nothing has been asked.
    pub fn new() -> (state: FetchState)
        ensures
            state@ == FetchStateView::AwaitingCategories,
    {
        FetchState::AwaitingCategories
    }

    /// What to ask next.
    pub fn request(&self) -> (request: Request)
        ensures
            request@ == request_in(self@),
    {
        match self {
            FetchState::AwaitingCategories => Request::Categories,
            FetchState::AwaitingTopCoins { .. } => Request::TopCoins { limit: TOP_COINS_TOTAL },
            FetchState::AwaitingCoins { categories, next, .. } => {
                if *next < categories.len() {
                    Request::CoinsInCategory {
                        category_id: categories[*next].id.clone(),
                        limit: TOP_COINS_IN_CATEGORY,
                    }
                } else {
                    Request::Nothing
                }
            },
            FetchState::Finished { .. } => Request::Nothing,
        }
    }

    /// Whether nothing is left to ask.
    pub fn is_finished(&self) -> (done: bool)
        ensures
            done == (request_in(self@) is Nothing),
    {
        match self {
            FetchState::AwaitingCoins { categories, next, .. } => *next >= categories.len(),
            FetchState::Finished { .. } => true,
            _ => false,
        }
    }

    /// Takes in an answer.
    pub fn step(self, answer: Answer) -> (next_state: FetchState)
        ensures
            next_state@ == after(self@, answer@),
    {
        match (self, answer) {
            (FetchState::AwaitingCategories, Answer::Categories(Some(categories))) => {
                FetchState::AwaitingTopCoins { categories }
            },
            (FetchState::AwaitingCategories, Answer::Categories(None)) => FetchState::Finished {
                kept: CategoryMap::new(),
            },
            (FetchState::AwaitingTopCoins { categories }, Answer::TopCoins(Some(coins))) => {
                if categories.len() == 0 {
                    FetchState::Finished { kept: CategoryMap::new() }
                } else {
                    FetchState::AwaitingCoins {
                        top_coin_ids: ids_of(&coins),
                        categories,
                        next: 0,
                        kept: CategoryMap::new(),
                    }
                }
            },
            (FetchState::AwaitingTopCoins { .. }, Answer::TopCoins(None)) => FetchState::Finished {
                kept: CategoryMap::new(),
            },
            (
                FetchState::AwaitingCoins { top_coin_ids, categories, next, kept },
                Answer::Coins(coins),
            ) => {
                let mut kept = kept;
                if next < categories.len() {
                    match coins {
                        Some(coins) => {
                            let entry = CategoryCoins { category: categories[next].clone(), coins };
                            consider_category(&mut kept, &top_coin_ids, entry);
                        },
                        None => {},
                    }
                }
                if next < categories.len() && next + 1 < categories.len() {
                    FetchState::AwaitingCoins { top_coin_ids, categories, next: next + 1, kept }
                } else {
                    FetchState::Finished { kept }
                }
            },
            (state, _) => state,
        }
    }

    /// The categories kept so far; once nothing is left to ask, the
    /// result.
    pub fn into_kept(self) -> (kept: CategoryMap)
        ensures
            kept@ == kept_in(self@),
    {
        match self {
            FetchState::AwaitingCoins { kept, .. } => kept,
            FetchState::Finished { kept } => kept,
            _ => CategoryMap::new(),
        }
    }
}

/// The categories that a state holds.
pub open spec fn kept_in(state: FetchStateView) -> Map<Seq<char>, CategoryCoinsView> {
    match state {
        FetchStateView::AwaitingCoins { kept, .. } => kept,
        FetchStateView::Finished { kept } => kept,
        _ => Map::empty(),
    }
}

/// A category is kept under an id exactly where some category that came
/// under that id was worth keeping.
pub proof fn lemma_filtered_keys(
    top_coin_ids: Seq<Seq<char>>,
    fetched: Seq<CategoryCoinsView>,
    id: Seq<char>,
)
    ensures
        filtered(top_coin_ids, fetched).contains_key(id) <==> exists|i: int|
            0 <= i < fetched.len() && (#[trigger] fetched[i]).category.id == id && worth_keeping(
                top_coin_ids,
                fetched[i].coins,
            ),
    decreases fetched.len(),
{
    if fetched.len() > 0 {
        let rest = fetched.drop_last();
        lemma_filtered_keys(top_coin_ids, rest, id);
        if exists|i: int|
            0 <= i < fetched.len() && (#[trigger] fetched[i]).category.id == id && worth_keeping(
                top_coin_ids,
                fetched[i].coins,
            ) {
            let i = choose|i: int|
                0 <= i < fetched.len() && (#[trigger] fetched[i]).category.id == id
                    && worth_keeping(top_coin_ids, fetched[i].coins);
            if i < fetched.len() - 1 {
                assert(rest[i] == fetched[i]);
            }
        }
    }
}

/// A category whose largest coin is among the well-known coins is not
/// kept, however often it came.
pub proof fn lemma_well_known_suppressed(
    top_coin_ids: Seq<Seq<char>>,
    fetched: Seq<CategoryCoinsView>,
    id: Seq<char>,
)
    requires
        forall|i: int|
            0 <= i < fetched.len() && (#[trigger] fetched[i]).category.id == id ==> fetched[i].coins.len()
                > 0 && top_coin_ids.contains(fetched[i].coins[0].id),
    ensures
        !filtered(top_coin_ids, fetched).contains_key(id),
{
    lemma_filtered_keys(top_coin_ids, fetched, id);
}

/// The state reached from `state` by the answers, one after the other.
pub open spec fn after_all(state: FetchStateView, answers: Seq<AnswerView>) -> FetchStateView
    decreases answers.len(),
{
    if answers.len() == 0 {
        state
    } else {
        after(after_all(state, answers.drop_last()), answers.last())
    }
}

/// The categories with what came for them: the coins, or none where the
/// request failed.
pub open spec fn paired(categories: Seq<CategoryView>, coins: Seq<Option<Seq<CoinView>>>) -> Seq<
    CategoryCoinsView,
> {
    Seq::new(
        categories.len(),
        |i: int|
            CategoryCoinsView {
                category: categories[i],
                coins: match coins[i] {
                    Some(found) => found,
                    None => Seq::empty(),
                },
            },
    )
}

/// The answers that carry the given coins.
pub open spec fn coin_answers(coins: Seq<Option<Seq<CoinView>>>) -> Seq<AnswerView> {
    coins.map_values(|found: Option<Seq<CoinView>>| AnswerView::Coins(found))
}

/// Asked category by category, the state holds after `upto` answers what is
/// kept of the first `upto` categories, and is finished once every category
/// has had its answer.
pub proof fn lemma_answers_filter(
    top_coin_ids: Seq<Seq<char>>,
    categories: Seq<CategoryView>,
    coins: Seq<Option<Seq<CoinView>>>,
    upto: int,
)
    requires
        categories.len() == coins.len(),
        0 <= upto <= categories.len(),
    ensures
        after_all(begun(top_coin_ids, categories), coin_answers(coins).take(upto)) == if upto
            < categories.len() {
            FetchStateView::AwaitingCoins {
                top_coin_ids,
                categories,
                next: upto as nat,
                kept: filtered(top_coin_ids, paired(categories, coins).take(upto)),
            }
        } else {
            FetchStateView::Finished {
                kept: filtered(top_coin_ids, paired(categories, coins).take(upto)),
            }
        },
    decreases upto,
{
    let answers = coin_answers(coins);
    let fetched = paired(categories, coins);
    if upto > 0 {
        lemma_answers_filter(top_coin_ids, categories, coins, upto - 1);
        assert(answers.take(upto).drop_last() =~= answers.take(upto - 1));
        assert(fetched.take(upto).drop_last() =~= fetched.take(upto - 1));
    }
}

} // verus!
