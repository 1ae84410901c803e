//! The categories worth reporting on, kept by id.

use vstd::prelude::*;
use vstd::string::*;

use crate::models::{views, CategoryCoins, CategoryCoinsView};
use crate::text::{
    lemma_lex_less_asymmetric, lemma_lex_less_connected, lemma_lex_less_irreflexive,
    lemma_lex_less_transitive, lex_less, precedes,
};

verus! {

/// Categories with their coins, at most one under each category id.
/// Putting a category in under an id that is already there replaces what
/// was there. The categories are handed out in ascending order of id.
pub struct CategoryMap {
    entries: Vec<CategoryCoins>,
}

/// The ids ascend strictly, in dictionary order.
pub open spec fn ascending(rows: Seq<CategoryCoinsView>) -> bool {
    forall|i: int, j: int|
        0 <= i < j < rows.len() ==> lex_less(
            (#[trigger] rows[i]).category.id,
            (#[trigger] rows[j]).category.id,
        )
}

/// The categories by id; of two with the same id the later one counts.
pub open spec fn id_index(rows: Seq<CategoryCoinsView>) -> Map<Seq<char>, CategoryCoinsView>
    decreases rows.len(),
{
    if rows.len() == 0 {
        Map::empty()
    } else {
        id_index(rows.drop_last()).insert(rows.last().category.id, rows.last())
    }
}

/// The index knows exactly the ids that occur.
pub proof fn lemma_id_index_keys(rows: Seq<CategoryCoinsView>, id: Seq<char>)
    ensures
        id_index(rows).contains_key(id) <==> exists|i: int|
            0 <= i < rows.len() && (#[trigger] rows[i]).category.id == id,
    decreases rows.len(),
{
    if rows.len() > 0 {
        let rest = rows.drop_last();
        lemma_id_index_keys(rest, id);
        if exists|i: int| 0 <= i < rows.len() && (#[trigger] rows[i]).category.id == id {
            let i = choose|i: int| 0 <= i < rows.len() && (#[trigger] rows[i]).category.id == id;
            if i < rows.len() - 1 {
                assert(rest[i].category.id == id);
            }
        }
    }
}

/// Where the ids ascend, the index holds each category under its own id.
pub proof fn lemma_id_index_values(rows: Seq<CategoryCoinsView>, i: int)
    requires
        ascending(rows),
        0 <= i < rows.len(),
    ensures
        id_index(rows).contains_key(rows[i].category.id),
        id_index(rows)[rows[i].category.id] == rows[i],
    decreases rows.len(),
{
    let rest = rows.drop_last();
    if i < rows.len() - 1 {
        lemma_id_index_values(rest, i);
        lemma_lex_less_irreflexive(rows[i].category.id);
    }
}

impl View for CategoryMap {
    type V = Map<Seq<char>, CategoryCoinsView>;

    open spec fn view(&self) -> Map<Seq<char>, CategoryCoinsView> {
        id_index(self.ordered())
    }
}

impl CategoryMap {
    /// The categories in ascending order of id.
    pub closed spec fn ordered(&self) -> Seq<CategoryCoinsView> {
        views(self.entries@)
    }

    #[verifier::type_invariant]
    spec fn ids_ascend(&self) -> bool {
        ascending(views(self.entries@))
    }

    /// A map without categories.
    pub fn new() -> (map: CategoryMap)
        ensures
            map@ == Map::<Seq<char>, CategoryCoinsView>::empty(),
            map.ordered() == Seq::<CategoryCoinsView>::empty(),
    {
        let entries: Vec<CategoryCoins> = Vec::new();
        CategoryMap { entries }
    }

    /// How many categories the map holds.
    pub fn len(&self) -> (n: usize)
        ensures
            n == self.ordered().len(),
    {
        self.entries.len()
    }

    /// Whether the map holds no category.
    pub fn is_empty(&self) -> (empty: bool)
        ensures
            empty == (self.ordered().len() == 0),
    {
        self.entries.len() == 0
    }

    /// The place of `id` among the ordered ids: the first position whose id
    /// does not come before `id`.
    fn position(&self, id: &String) -> (at: usize)
        ensures
            at <= self.ordered().len(),
            forall|i: int| 0 <= i < at ==> lex_less((#[trigger] self.ordered()[i]).category.id, id@),
            at < self.ordered().len() ==> !lex_less(self.ordered()[at as int].category.id, id@),
    {
        let mut at: usize = 0;
        while at < self.entries.len() && precedes(
            self.entries[at].category.id.as_str(),
            id.as_str(),
        )
            invariant
                at <= self.entries.len(),
                forall|i: int|
                    0 <= i < at ==> lex_less((#[trigger] self.ordered()[i]).category.id, id@),
            decreases self.entries.len() - at,
        {
            at += 1;
        }
        at
    }

    /// The category kept under `id`, if there is one.
    pub fn get(&self, id: &String) -> (found: Option<&CategoryCoins>)
        ensures
            match found {
                Some(entry) => self@.contains_key(id@) && self@[id@] == entry@,
                None => !self@.contains_key(id@),
            },
    {
        proof {
            use_type_invariant(self);
            lemma_id_index_keys(self.ordered(), id@);
        }
        let at = self.position(id);
        if at < self.entries.len() && self.entries[at].category.id == *id {
            proof {
                lemma_id_index_values(self.ordered(), at as int);
            }
            Some(&self.entries[at])
        } else {
            proof {
                if self@.contains_key(id@) {
                    let rows = self.ordered();
                    let i = choose|i: int|
                        0 <= i < rows.len() && (#[trigger] rows[i]).category.id == id@;
                    lemma_lex_less_irreflexive(id@);
                    if i > at {
                        lemma_lex_less_connected(rows[at as int].category.id, id@);
                        lemma_lex_less_asymmetric(rows[at as int].category.id, id@);
                    }
                }
            }
            None
        }
    }

    /// Whether a category is kept under `id`.
    pub fn contains_key(&self, id: &String) -> (found: bool)
        ensures
            found == self@.contains_key(id@),
    {
        self.get(id).is_some()
    }

    /// Puts `entry` in under the id of its category, in place of what was
    /// kept under that id.
    pub fn insert(&mut self, entry: CategoryCoins)
        ensures
            final(self)@ == old(self)@.insert(entry.category.id@, entry@),
    {
        proof {
            use_type_invariant(&*self);
        }
        let ghost before = self.ordered();
        let ghost id = entry.category.id@;
        let at = self.position(&entry.category.id);
        let mut emptied = CategoryMap::new();
        core::mem::swap(self, &mut emptied);
        let mut entries = emptied.entries;
        if at < entries.len() && entries[at].category.id == entry.category.id {
            entries.set(at, entry);
            proof {
                assert(views(entries@) =~= before.update(at as int, entry@));
                lemma_replaced(before, at as int, entry@);
            }
        } else {
            proof {
                lemma_lex_less_irreflexive(id);
                if at < before.len() {
                    lemma_lex_less_connected(before[at as int].category.id, id);
                }
            }
            entries.insert(at, entry);
            proof {
                assert(views(entries@) =~= before.insert(at as int, entry@));
                lemma_inserted(before, at as int, entry@);
            }
        }
        *self = CategoryMap { entries };
    }

    /// The categories in ascending order of id.
    pub fn values(&self) -> (all: &Vec<CategoryCoins>)
        ensures
            views(all@) == self.ordered(),
            ascending(views(all@)),
            id_index(views(all@)) == self@,
    {
        proof {
            use_type_invariant(self);
        }
        &self.entries
    }

    /// Gives up the map for its categories, in ascending order of id.
    pub fn into_values(self) -> (all: Vec<CategoryCoins>)
        ensures
            views(all@) == self.ordered(),
            ascending(views(all@)),
            id_index(views(all@)) == self@,
    {
        proof {
            use_type_invariant(&self);
        }
        self.entries
    }
}

/// Replacing a category by one of the same id keeps the order and changes
/// the index at that id alone.
proof fn lemma_replaced(before: Seq<CategoryCoinsView>, at: int, entry: CategoryCoinsView)
    requires
        ascending(before),
        0 <= at < before.len(),
        before[at].category.id == entry.category.id,
    ensures
        ascending(before.update(at, entry)),
        id_index(before.update(at, entry)) == id_index(before).insert(entry.category.id, entry),
{
    let after = before.update(at, entry);
    assert forall|id: Seq<char>|
        id_index(after).contains_key(id) == id_index(before).insert(
            entry.category.id,
            entry,
        ).contains_key(id) by {
        lemma_id_index_keys(after, id);
        lemma_id_index_keys(before, id);
        if id_index(before).contains_key(id) {
            let i = choose|i: int|
                0 <= i < before.len() && (#[trigger] before[i]).category.id == id;
            assert(after[i].category.id == id);
        }
    }
    assert forall|id: Seq<char>| id_index(after).contains_key(id) implies id_index(after)[id]
        == id_index(before).insert(entry.category.id, entry)[id] by {
        lemma_id_index_keys(after, id);
        let i = choose|i: int| 0 <= i < after.len() && (#[trigger] after[i]).category.id == id;
        lemma_id_index_values(after, i);
        if i != at {
            lemma_id_index_values(before, i);
            lemma_id_index_values(before, at);
            lemma_lex_less_irreflexive(id);
        }
    }
}

/// Putting a category with a new id in its place keeps the order and adds
/// it to the index.
proof fn lemma_inserted(before: Seq<CategoryCoinsView>, at: int, entry: CategoryCoinsView)
    requires
        ascending(before),
        0 <= at <= before.len(),
        forall|i: int| 0 <= i < at ==> lex_less((#[trigger] before[i]).category.id, entry.category.id),
        at < before.len() ==> lex_less(entry.category.id, before[at].category.id),
    ensures
        ascending(before.insert(at, entry)),
        id_index(before.insert(at, entry)) == id_index(before).insert(entry.category.id, entry),
{
    let after = before.insert(at, entry);
    assert forall|j: int| at <= j < before.len() implies lex_less(
        entry.category.id,
        (#[trigger] before[j]).category.id,
    ) by {
        if at < j {
            lemma_lex_less_transitive(
                entry.category.id,
                before[at].category.id,
                before[j].category.id,
            );
        }
    }
    assert forall|id: Seq<char>|
        id_index(after).contains_key(id) == id_index(before).insert(
            entry.category.id,
            entry,
        ).contains_key(id) by {
        lemma_id_index_keys(after, id);
        lemma_id_index_keys(before, id);
        if id_index(before).contains_key(id) {
            let i = choose|i: int|
                0 <= i < before.len() && (#[trigger] before[i]).category.id == id;
            if i < at {
                assert(after[i].category.id == id);
            } else {
                assert(after[i + 1].category.id == id);
            }
        }
        if id == entry.category.id {
            assert(after[at].category.id == id);
        }
    }
    assert forall|id: Seq<char>| id_index(after).contains_key(id) implies id_index(after)[id]
        == id_index(before).insert(entry.category.id, entry)[id] by {
        lemma_id_index_keys(after, id);
        let i = choose|i: int| 0 <= i < after.len() && (#[trigger] after[i]).category.id == id;
        lemma_id_index_values(after, i);
        if i != at {
            let k = if i < at {
                i
            } else {
                i - 1
            };
            lemma_id_index_values(before, k);
            lemma_lex_less_irreflexive(id);
        }
    }
}

} // verus!
