//! Shopping-list generation and maintenance: deriving a deduplicated list
//! from the currently planned, non-leftover meals, and toggling or pruning
//! the lists' items.
//!
//! A stub contributes to a new list only when it is not a leftover and no
//! existing list was already generated from it; every contributing stub is
//! recorded with the new list, so a later generation does not count it
//! again. Ingredients are merged by lowercased name; a merge between
//! incompatible units (or one whose total would not be representable) drops
//! the later contribution, as an explicit decision. The finished items are
//! ordered by unit, stably, for grouped display.

use vstd::prelude::*;

use crate::store::{first_with_id, has_id, lemma_filter_push, lemma_filter_subset, lemma_first_with_id, lemma_key_unique_index, StoreError};
use crate::text::{lower_of, lowercase};
use crate::types::{key_get, key_has, Ingredient, MealPlan, MealStub, ShoppingListInfo, ShoppingListItem};
use crate::units::Units;

verus! {

/// Whether some existing shopping list was generated from a stub with the
/// given date and recipe id.
pub open spec fn already_shopped(lists: Seq<Seq<MealStub>>, date: u64, id: u128) -> bool {
    exists|i: int, k: int|
        0 <= i < lists.len() && 0 <= k < lists[i].len() && lists[i][k].date == date
            && lists[i][k].id == id
}

/// The stubs a new shopping list is generated from: not leftovers, and not
/// already covered by an existing list.
pub open spec fn eligible_for(lists: Seq<Seq<MealStub>>) -> spec_fn(MealStub) -> bool {
    |s: MealStub| !s.leftovers && !already_shopped(lists, s.date, s.id)
}

/// All stubs of a calendar view, in calendar order.
pub open spec fn stubs_concat(days: Seq<(u64, Seq<MealStub>)>) -> Seq<MealStub>
    decreases days.len(),
{
    if days.len() == 0 {
        Seq::empty()
    } else {
        stubs_concat(days.drop_last()) + days.last().1
    }
}

/// Extending the calendar prefix by one day appends that day's stubs.
pub proof fn lemma_stubs_concat_step(days: Seq<(u64, Seq<MealStub>)>, i: int)
    requires
        0 <= i < days.len(),
    ensures
        stubs_concat(days.subrange(0, i + 1)) == stubs_concat(days.subrange(0, i)) + days[i].1,
{
    let p1 = days.subrange(0, i + 1);
    assert(p1.drop_last() =~= days.subrange(0, i));
    assert(p1.last() == days[i]);
}

/// Whether some item's lowercased name matches the lowercased given name.
pub open spec fn has_matching_item(items: Seq<ShoppingListItem>, name: Seq<char>) -> bool {
    exists|j: int| 0 <= j < items.len() && lower_of(items[j].name@) == lower_of(name)
}

/// The index of the first item whose lowercased name matches the lowercased
/// given name; meaningful only when one exists.
pub open spec fn first_matching_item(items: Seq<ShoppingListItem>, name: Seq<char>) -> int {
    choose|j: int|
        0 <= j < items.len() && lower_of(items[j].name@) == lower_of(name) && (forall|t: int|
            0 <= t < j ==> lower_of(items[t].name@) != lower_of(name))
}

/// An index that matches and has no earlier match is the first match.
pub proof fn lemma_first_matching_item(items: Seq<ShoppingListItem>, name: Seq<char>, j: int)
    requires
        0 <= j < items.len(),
        lower_of(items[j].name@) == lower_of(name),
        forall|t: int| 0 <= t < j ==> lower_of(items[t].name@) != lower_of(name),
    ensures
        has_matching_item(items, name),
        first_matching_item(items, name) == j,
{
    let i = first_matching_item(items, name);
    assert(0 <= i < items.len() && lower_of(items[i].name@) == lower_of(name) && (forall|t: int|
        0 <= t < i ==> lower_of(items[t].name@) != lower_of(name)));
    if i < j {
        assert(lower_of(items[i].name@) != lower_of(name));
    } else if j < i {
        assert(lower_of(items[j].name@) != lower_of(name));
    }
}

/// One ingredient folded into the accumulating items. A new name starts a
/// fresh line with the ingredient's own quantity; a known name merges the
/// quantities into the coarser unit, and keeps the line unchanged when the
/// units are incompatible or the total would not be representable.
#[verifier::opaque]
pub open spec fn merge_one(items: Seq<ShoppingListItem>, ing: Ingredient) -> Seq<ShoppingListItem> {
    if has_matching_item(items, ing.name@) {
        let j = first_matching_item(items, ing.name@);
        let it = items[j];
        if it.amount.units.compatible(ing.amount.units) {
            match it.amount.add_spec(ing.amount) {
                Some(a) => items.update(
                    j,
                    ShoppingListItem { amount: a, have: it.have, name: it.name },
                ),
                None => items,
            }
        } else {
            items
        }
    } else {
        items.push(ShoppingListItem { amount: ing.amount, have: false, name: ing.name })
    }
}

/// A whole ingredient list folded in, in order.
pub open spec fn merge_many(
    items: Seq<ShoppingListItem>,
    ings: Seq<Ingredient>,
) -> Seq<ShoppingListItem>
    decreases ings.len(),
{
    if ings.len() == 0 {
        items
    } else {
        merge_one(merge_many(items, ings.drop_last()), ings.last())
    }
}

impl MealPlan {
    /// All planned stubs, in calendar order.
    pub open spec fn all_planned_stubs(self) -> Seq<MealStub> {
        stubs_concat(self.planned_view())
    }

    /// The stubs a newly generated shopping list covers, in calendar order.
    pub open spec fn eligible_stubs(self) -> Seq<MealStub> {
        self.all_planned_stubs().filter(eligible_for(self.for_meals_view()))
    }

    /// The items accumulated from the given stubs' recipes, in order.
    pub open spec fn accumulated_items(self, stubs: Seq<MealStub>) -> Seq<ShoppingListItem>
        decreases stubs.len(),
    {
        if stubs.len() == 0 {
            Seq::empty()
        } else {
            merge_many(
                self.accumulated_items(stubs.drop_last()),
                self.all_meals@[self.meal_index(stubs.last().id)].ingredients@,
            )
        }
    }
}

/// The display order of units on a finished list.
pub open spec fn unit_rank(u: Units) -> int {
    match u {
        Units::Ounce => 0,
        Units::Count => 1,
        Units::Cup => 2,
        Units::Tablespoon => 3,
        Units::Teaspoon => 4,
        Units::Milliliters => 5,
    }
}

/// The predicate selecting the items of one unit rank.
pub open spec fn of_rank(r: int) -> spec_fn(ShoppingListItem) -> bool {
    |it: ShoppingListItem| unit_rank(it.amount.units) == r
}

/// The items of the ranks below `r`, grouped by rank, each group in its
/// original order.
pub open spec fn sorted_up_to(items: Seq<ShoppingListItem>, r: int) -> Seq<ShoppingListItem>
    decreases r,
{
    if r <= 0 {
        Seq::empty()
    } else {
        sorted_up_to(items, r - 1) + items.filter(of_rank(r - 1))
    }
}

/// The items stably ordered by unit: exactly what a stable sort by the unit
/// ranks produces.
pub open spec fn sorted_by_units(items: Seq<ShoppingListItem>) -> Seq<ShoppingListItem> {
    sorted_up_to(items, 6)
}

fn unit_rank_of(u: &Units) -> (r: u8)
    ensures
        r as int == unit_rank(*u),
{
    match u {
        Units::Ounce => 0,
        Units::Count => 1,
        Units::Cup => 2,
        Units::Tablespoon => 3,
        Units::Teaspoon => 4,
        Units::Milliliters => 5,
    }
}

impl MealPlan {
    /// Whether some existing shopping list was generated from the given
    /// date and recipe id.
    fn is_shopped(&self, date: u64, id: u128) -> (r: bool)
        ensures
            r == already_shopped(self.for_meals_view(), date, id),
    {
        let n = self.shopping_list.len();
        let mut i: usize = 0;
        while i < n
            invariant
                n == self.shopping_list@.len(),
                i <= n,
                forall|a: int, b: int|
                    0 <= a < i && 0 <= b < (#[trigger] self.for_meals_view()[a]).len() ==> !((
                    #[trigger] self.for_meals_view()[a][b]).date == date
                        && self.for_meals_view()[a][b].id == id),
            decreases n - i,
        {
            let m = self.shopping_list[i].for_meals.len();
            let mut k: usize = 0;
            while k < m
                invariant
                    0 <= i < n,
                    n == self.shopping_list@.len(),
                    m == self.for_meals_view()[i as int].len(),
                    k <= m,
                    forall|b: int|
                        0 <= b < k ==> !((#[trigger] self.for_meals_view()[i as int][b]).date
                            == date && self.for_meals_view()[i as int][b].id == id),
                decreases m - k,
            {
                let s = self.shopping_list[i].for_meals[k];
                proof {
                    assert(s == self.for_meals_view()[i as int][k as int]);
                }
                if s.date == date && s.id == id {
                    return true;
                }
                k += 1;
            }
            i += 1;
        }
        false
    }

    /// Derives a new shopping list from the currently planned meals, or
    /// `None` when nothing new is to be shopped for. Leftover stubs, and
    /// stubs an existing list already covers, contribute nothing; every
    /// other stub's ingredients are merged into the items by lowercased
    /// name, and the stub itself is recorded with the list. The items come
    /// out stably ordered by unit.
    #[verifier::rlimit(50)]
    pub fn generate_shopping_list(&self) -> (r: Option<ShoppingListInfo>)
        requires
            self.wf(),
        ensures
            (r is None) <==> self.accumulated_items(self.eligible_stubs()).len() == 0,
            match r {
                Some(list) => {
                    &&& list.for_meals@ == self.eligible_stubs()
                    &&& list.items@ == sorted_by_units(
                        self.accumulated_items(self.eligible_stubs()),
                    )
                    &&& list.items@.len() > 0
                    &&& forall|k: int|
                        0 <= k < list.for_meals@.len() ==> !(#[trigger] list.for_meals@[k]).leftovers
                },
                None => true,
            },
    {
        let mut for_meals: Vec<MealStub> = Vec::new();
        let mut items: Vec<ShoppingListItem> = Vec::new();
        let mut keys: Vec<String> = Vec::new();

        let n = self.planned_meals.len();
        let mut i: usize = 0;
        while i < n
            invariant
                self.wf(),
                n == self.planned_meals@.len(),
                i <= n,
                for_meals@ == stubs_concat(self.planned_view().subrange(0, i as int)).filter(
                    eligible_for(self.for_meals_view()),
                ),
                items@ == self.accumulated_items(for_meals@),
                keys@.len() == items@.len(),
                forall|t: int| 0 <= t < keys@.len() ==> keys@[t]@ == lower_of(items@[t].name@),
            decreases n - i,
        {
            let m = self.planned_meals[i].stubs.len();
            let ghost day_stubs = self.planned_view()[i as int].1;
            let ghost before_day = stubs_concat(self.planned_view().subrange(0, i as int));
            let mut k: usize = 0;
            while k < m
                invariant
                    self.wf(),
                    0 <= i < n,
                    n == self.planned_meals@.len(),
                    m == day_stubs.len(),
                    day_stubs == self.planned_view()[i as int].1,
                    before_day == stubs_concat(self.planned_view().subrange(0, i as int)),
                    k <= m,
                    for_meals@ == (before_day + day_stubs.subrange(0, k as int)).filter(
                        eligible_for(self.for_meals_view()),
                    ),
                    items@ == self.accumulated_items(for_meals@),
                    keys@.len() == items@.len(),
                    forall|t: int| 0 <= t < keys@.len() ==> keys@[t]@ == lower_of(items@[t].name@),
                decreases m - k,
            {
                let s = self.planned_meals[i].stubs[k];
                proof {
                    assert(s == day_stubs[k as int]);
                    assert((before_day + day_stubs.subrange(0, k as int + 1)) =~= (before_day
                        + day_stubs.subrange(0, k as int)).push(s));
                    lemma_filter_push(
                        before_day + day_stubs.subrange(0, k as int),
                        s,
                        eligible_for(self.for_meals_view()),
                    );
                }
                let eligible = !s.leftovers && !self.is_shopped(s.date, s.id);
                proof {
                    assert(eligible == eligible_for(self.for_meals_view())(s));
                }
                if eligible {
                    let ghost fm_before = for_meals@;
                    for_meals.push(s);
                    let mi = match self.find_meal(s.id) {
                        Some(mi) => mi,
                        None => {
                            proof {
                                assert(self.has_meal(s.id));
                                assert(false);
                            }
                            0
                        },
                    };
                    proof {
                        let c = self.meal_index(s.id);
                        assert(0 <= c < self.all_meals@.len() && self.all_meals@[c].id == s.id) by {
                            let w = choose|w: int|
                                0 <= w < self.meal_ids().len() && self.meal_ids()[w] == s.id;
                            assert(self.all_meals@[w].id == s.id);
                        }
                        if c < mi as int {
                            assert(self.all_meals@[c].id != self.all_meals@[mi as int].id);
                        } else if (mi as int) < c {
                            assert(self.all_meals@[mi as int].id != self.all_meals@[c].id);
                        }
                        assert(c == mi as int);
                        assert(for_meals@.drop_last() =~= fm_before);
                        assert(for_meals@.last() == s);
                        assert(self.accumulated_items(for_meals@) == merge_many(
                            items@,
                            self.all_meals@[c].ingredients@,
                        ));
                    }

                    let ghost items_start = items@;
                    let ghost ings = self.all_meals@[mi as int].ingredients@;
                    let in_count = self.all_meals[mi].ingredients.len();
                    let mut q: usize = 0;
                    while q < in_count
                        invariant
                            0 <= mi < self.all_meals@.len(),
                            ings == self.all_meals@[mi as int].ingredients@,
                            in_count == ings.len(),
                            q <= in_count,
                            items@ == merge_many(items_start, ings.subrange(0, q as int)),
                            keys@.len() == items@.len(),
                            forall|t: int|
                                0 <= t < keys@.len() ==> keys@[t]@ == lower_of(items@[t].name@),
                        decreases in_count - q,
                    {
                        let ghost items_before = items@;
                        let ing_name_lower = {
                            let ing = &self.all_meals[mi].ingredients[q];
                            lowercase(ing.name.as_str())
                        };
                        proof {
                            assert(ings.subrange(0, q as int + 1).drop_last() =~= ings.subrange(
                                0,
                                q as int,
                            ));
                            assert(ings.subrange(0, q as int + 1).last() == ings[q as int]);
                        }

                        // Look for an item already carrying this name.
                        let mut found: Option<usize> = None;
                        let item_count = items.len();
                        let mut t: usize = 0;
                        while t < item_count && found.is_none()
                            invariant
                                item_count == items@.len(),
                                keys@.len() == items@.len(),
                                forall|u: int|
                                    0 <= u < keys@.len() ==> keys@[u]@ == lower_of(items@[u].name@),
                                ing_name_lower@ == lower_of(ings[q as int].name@),
                                0 <= q < ings.len(),
                                t <= item_count,
                                match found {
                                    Some(j) => j < items@.len() && lower_of(items@[j as int].name@)
                                        == lower_of(ings[q as int].name@) && (forall|u: int|
                                        0 <= u < j ==> lower_of(items@[u].name@) != lower_of(
                                            ings[q as int].name@,
                                        )),
                                    None => forall|u: int|
                                        0 <= u < t ==> lower_of(items@[u].name@) != lower_of(
                                            ings[q as int].name@,
                                        ),
                                },
                            decreases item_count - t,
                        {
                            if keys[t] == ing_name_lower {
                                found = Some(t);
                            }
                            t += 1;
                        }

                        match found {
                            Some(j) => {
                                proof {
                                    lemma_first_matching_item(
                                        items@,
                                        ings[q as int].name@,
                                        j as int,
                                    );
                                }
                                let compatible = {
                                    let ing = &self.all_meals[mi].ingredients[q];
                                    items[j].amount.units.is_compatible(&ing.amount.units)
                                };
                                if compatible {
                                    let summed = {
                                        let ing = &self.all_meals[mi].ingredients[q];
                                        items[j].amount.add(&ing.amount)
                                    };
                                    match summed {
                                        Some(a) => {
                                            items[j].amount = a;
                                            proof {
                                                assert(items@ =~= items_before.update(
                                                    j as int,
                                                    ShoppingListItem {
                                                        amount: a,
                                                        have: items_before[j as int].have,
                                                        name: items_before[j as int].name,
                                                    },
                                                ));
                                            }
                                        },
                                        None => {},
                                    }
                                }
                            },
                            None => {
                                proof {
                                    assert(!has_matching_item(items@, ings[q as int].name@));
                                }
                                let fresh = {
                                    let ing = &self.all_meals[mi].ingredients[q];
                                    ShoppingListItem {
                                        amount: ing.amount,
                                        have: false,
                                        name: ing.name.clone(),
                                    }
                                };
                                items.push(fresh);
                                keys.push(ing_name_lower);
                            },
                        }
                        proof {
                            assert(items@ == merge_one(items_before, ings[q as int])) by {
                                reveal(merge_one);
                            }
                            assert(items@ == merge_many(items_start, ings.subrange(0, q as int + 1)));
                        }
                        q += 1;
                    }
                    proof {
                        assert(ings.subrange(0, in_count as int) =~= ings);
                        assert(items@ == self.accumulated_items(for_meals@));
                    }
                }
                k += 1;
            }
            proof {
                assert(day_stubs.subrange(0, m as int) =~= day_stubs);
                lemma_stubs_concat_step(self.planned_view(), i as int);
            }
            i += 1;
        }
        proof {
            assert(self.planned_view().subrange(0, n as int) =~= self.planned_view());
            assert(for_meals@ == self.eligible_stubs());
        }

        // Order the items by unit, stably, for grouped display.
        let ghost raw = items@;
        let mut out: Vec<ShoppingListItem> = Vec::new();
        let mut rank: u8 = 0;
        while rank < 6
            invariant
                raw == items@,
                rank <= 6,
                out@ == sorted_up_to(items@, rank as int),
            decreases 6 - rank,
        {
            let item_count = items.len();
            let mut t: usize = 0;
            while t < item_count
                invariant
                    raw == items@,
                    item_count == items@.len(),
                    t <= item_count,
                    rank < 6,
                    out@ == sorted_up_to(items@, rank as int) + items@.subrange(0, t as int).filter(
                        of_rank(rank as int),
                    ),
                decreases item_count - t,
            {
                proof {
                    assert(items@.subrange(0, t as int + 1) =~= items@.subrange(0, t as int).push(
                        items@[t as int],
                    ));
                    lemma_filter_push(
                        items@.subrange(0, t as int),
                        items@[t as int],
                        of_rank(rank as int),
                    );
                }
                if unit_rank_of(&items[t].amount.units) == rank {
                    out.push(items[t].clone());
                }
                t += 1;
            }
            proof {
                assert(items@.subrange(0, item_count as int) =~= items@);
            }
            rank += 1;
        }

        if out.len() == 0 {
            proof {
                lemma_sorted_empty_means_empty(items@);
            }
            None
        } else {
            proof {
                assert(items@.len() > 0) by {
                    if items@.len() == 0 {
                        assert(items@ =~= Seq::<ShoppingListItem>::empty());
                        lemma_sorted_of_empty();
                    }
                }
                lemma_eligible_not_leftover(*self, for_meals@);
            }
            Some(ShoppingListInfo { for_meals, items: out })
        }
    }

    /// A shopping list for one planned meal alone: one line per ingredient
    /// of its recipe, unmerged, generated from the first stub for the
    /// recipe at the given date. Fails exactly when the date has no entry,
    /// or when none of its stubs references the recipe.
    pub fn generate_shopping_list_for_meal(&self, date: u64, id: u128) -> (r: Result<
        ShoppingListInfo,
        StoreError,
    >)
        requires
            self.wf(),
        ensures
            match r {
                Ok(list) => {
                    &&& key_has(self.planned_view(), date)
                    &&& has_id(key_get(self.planned_view(), date), id)
                    &&& list.for_meals@ == seq![
                        key_get(self.planned_view(), date)[first_with_id(
                            key_get(self.planned_view(), date),
                            id,
                        )],
                    ]
                    &&& list.items@ == items_from_ingredients(
                        self.all_meals@[self.meal_index(id)].ingredients@,
                    )
                },
                Err(e) => {
                    &&& (e == StoreError::DateNotPlanned || e == StoreError::MealNotPlanned)
                    &&& (e == StoreError::DateNotPlanned <==> !key_has(self.planned_view(), date))
                    &&& (e == StoreError::MealNotPlanned <==> key_has(self.planned_view(), date)
                        && !has_id(key_get(self.planned_view(), date), id))
                },
            },
    {
        let i = match self.find_day(date) {
            Some(i) => i,
            None => {
                return Err(StoreError::DateNotPlanned);
            },
        };
        proof {
            lemma_key_unique_index(self.planned_view(), date, i as int);
        }
        let m = match crate::store::find_stub(&self.planned_meals[i].stubs, id) {
            Some(m) => m,
            None => {
                return Err(StoreError::MealNotPlanned);
            },
        };
        let stub = self.planned_meals[i].stubs[m];
        proof {
            lemma_first_with_id(self.planned_view()[i as int].1, id, m as int);
            assert(self.has_meal(stub.id));
        }

        let mi = match self.find_meal(id) {
            Some(mi) => mi,
            None => {
                proof {
                    assert(false);
                }
                0
            },
        };
        proof {
            let c = self.meal_index(id);
            assert(0 <= c < self.all_meals@.len() && self.all_meals@[c].id == id) by {
                let w = choose|w: int| 0 <= w < self.meal_ids().len() && self.meal_ids()[w] == id;
                assert(self.all_meals@[w].id == id);
            }
            if c < mi as int {
                assert(self.all_meals@[c].id != self.all_meals@[mi as int].id);
            } else if (mi as int) < c {
                assert(self.all_meals@[mi as int].id != self.all_meals@[c].id);
            }
            assert(c == mi as int);
        }

        let ghost ings = self.all_meals@[mi as int].ingredients@;
        let count = self.all_meals[mi].ingredients.len();
        let mut items: Vec<ShoppingListItem> = Vec::new();
        let mut q: usize = 0;
        while q < count
            invariant
                0 <= mi < self.all_meals@.len(),
                ings == self.all_meals@[mi as int].ingredients@,
                count == ings.len(),
                q <= count,
                items@ =~= items_from_ingredients(ings.subrange(0, q as int)),
            decreases count - q,
        {
            let line = {
                let ing = &self.all_meals[mi].ingredients[q];
                ShoppingListItem { amount: ing.amount, have: false, name: ing.name.clone() }
            };
            items.push(line);
            proof {
                assert(items@ =~= items_from_ingredients(ings.subrange(0, q as int + 1)));
            }
            q += 1;
        }
        proof {
            assert(ings.subrange(0, count as int) =~= ings);
        }

        let mut for_meals: Vec<MealStub> = Vec::new();
        for_meals.push(stub);
        proof {
            assert(for_meals@ =~= seq![stub]);
        }
        Ok(ShoppingListInfo { for_meals, items })
    }

    /// Prunes one shopping list: drops every item already in hand, and when
    /// nothing is left, removes the whole list. Fails exactly when no list
    /// exists at the index, and then changes nothing.
    pub fn prune_shopping_list(&mut self, index: usize) -> (r: Result<(), StoreError>)
        requires
            old(self).wf(),
        ensures
            final(self).wf(),
            final(self).all_meals == old(self).all_meals,
            final(self).completed_meals == old(self).completed_meals,
            final(self).planned_meals == old(self).planned_meals,
            match r {
                Ok(_) => {
                    &&& index < old(self).shopping_list@.len()
                    &&& ({
                        let kept = old(self).shopping_list@[index as int].items@.filter(
                            |it: ShoppingListItem| !it.have,
                        );
                        if kept.len() > 0 {
                            &&& final(self).shopping_list@.len() == old(
                                self,
                            ).shopping_list@.len()
                            &&& final(self).shopping_list@[index as int].items@ == kept
                            &&& final(self).shopping_list@[index as int].for_meals == old(
                                self,
                            ).shopping_list@[index as int].for_meals
                            &&& forall|j: int|
                                0 <= j < final(self).shopping_list@.len() && j != index
                                    ==> #[trigger] final(self).shopping_list@[j] == old(
                                    self,
                                ).shopping_list@[j]
                        } else {
                            final(self).shopping_list@ =~= old(self).shopping_list@.remove(
                                index as int,
                            )
                        }
                    })
                },
                Err(e) => {
                    &&& e == StoreError::ListNotFound
                    &&& index >= old(self).shopping_list@.len()
                    &&& *final(self) == *old(self)
                },
            },
    {
        if index >= self.shopping_list.len() {
            return Err(StoreError::ListNotFound);
        }

        let ghost old_items = self.shopping_list@[index as int].items@;
        let kept = keep_unchecked_items(&self.shopping_list[index].items);
        if kept.len() == 0 {
            self.shopping_list.remove(index);
            proof {
                lemma_shopping_wf_removed(*old(self), *self, index as int);
            }
        } else {
            self.shopping_list[index].items = kept;
            proof {
                assert forall|i: int| 0 <= i < self.for_meals_view().len() implies #[trigger] self
                    .for_meals_view()[i] == old(self).for_meals_view()[i] by {}
                lemma_shopping_wf_same_sources(*old(self), *self);
            }
        }
        Ok(())
    }

    /// Flips one item's "have" mark on one shopping list, found by its exact
    /// name. Fails exactly when no list exists at the index, or when the
    /// list has no item of that name, and then changes nothing.
    pub fn toggle_shopping_list_item(&mut self, index: usize, name: &String) -> (r: Result<
        (),
        StoreError,
    >)
        requires
            old(self).wf(),
        ensures
            final(self).wf(),
            final(self).all_meals == old(self).all_meals,
            final(self).completed_meals == old(self).completed_meals,
            final(self).planned_meals == old(self).planned_meals,
            match r {
                Ok(_) => {
                    &&& index < old(self).shopping_list@.len()
                    &&& has_item_named(old(self).shopping_list@[index as int].items@, name@)
                    &&& ({
                        let items = old(self).shopping_list@[index as int].items@;
                        let j = first_item_named(items, name@);
                        let it = items[j];
                        &&& final(self).shopping_list@.len() == old(self).shopping_list@.len()
                        &&& final(self).shopping_list@[index as int].items@ == items.update(
                            j,
                            ShoppingListItem { amount: it.amount, have: !it.have, name: it.name },
                        )
                        &&& final(self).shopping_list@[index as int].for_meals == old(
                            self,
                        ).shopping_list@[index as int].for_meals
                        &&& forall|t: int|
                            0 <= t < final(self).shopping_list@.len() && t != index
                                ==> #[trigger] final(self).shopping_list@[t] == old(
                                self,
                            ).shopping_list@[t]
                    })
                },
                Err(e) => {
                    &&& *final(self) == *old(self)
                    &&& (e == StoreError::ListNotFound || e == StoreError::ItemNotFound)
                    &&& (e == StoreError::ListNotFound <==> index >= old(self).shopping_list@.len())
                    &&& (e == StoreError::ItemNotFound <==> index < old(self).shopping_list@.len()
                        && !has_item_named(old(self).shopping_list@[index as int].items@, name@))
                },
            },
    {
        if index >= self.shopping_list.len() {
            return Err(StoreError::ListNotFound);
        }

        let count = self.shopping_list[index].items.len();
        let mut j: usize = 0;
        while j < count
            invariant
                old(self).wf(),
                *self == *old(self),
                index < self.shopping_list@.len(),
                count == self.shopping_list@[index as int].items@.len(),
                j <= count,
                forall|t: int|
                    0 <= t < j ==> self.shopping_list@[index as int].items@[t].name@ != name@,
            decreases count - j,
        {
            let matches_name = self.shopping_list[index].items[j].name == *name;
            if matches_name {
                proof {
                    lemma_first_item_named(
                        self.shopping_list@[index as int].items@,
                        name@,
                        j as int,
                    );
                }
                let was = self.shopping_list[index].items[j].have;
                self.shopping_list[index].items[j].have = !was;
                proof {
                    let items = old(self).shopping_list@[index as int].items@;
                    let it = items[j as int];
                    assert(self.shopping_list@[index as int].items@ =~= items.update(
                        j as int,
                        ShoppingListItem { amount: it.amount, have: !it.have, name: it.name },
                    ));
                    assert forall|i: int|
                        0 <= i < self.for_meals_view().len() implies #[trigger] self
                        .for_meals_view()[i] == old(self).for_meals_view()[i] by {}
                    lemma_shopping_wf_same_sources(*old(self), *self);
                }
                return Ok(());
            }
            j += 1;
        }
        Err(StoreError::ItemNotFound)
    }

}

/// The items not yet in hand, in their original order.
fn keep_unchecked_items(items: &Vec<ShoppingListItem>) -> (r: Vec<ShoppingListItem>)
    ensures
        r@ == items@.filter(|it: ShoppingListItem| !it.have),
{
    let mut r: Vec<ShoppingListItem> = Vec::new();
    let n = items.len();
    let mut i: usize = 0;
    while i < n
        invariant
            n == items@.len(),
            i <= n,
            r@ == items@.subrange(0, i as int).filter(|it: ShoppingListItem| !it.have),
        decreases n - i,
    {
        proof {
            lemma_filter_push(
                items@.subrange(0, i as int),
                items@[i as int],
                |it: ShoppingListItem| !it.have,
            );
            assert(items@.subrange(0, i as int + 1) =~= items@.subrange(0, i as int).push(
                items@[i as int],
            ));
        }
        if !items[i].have {
            let kept = items[i].clone();
            r.push(kept);
        }
        i += 1;
    }
    proof {
        assert(items@.subrange(0, n as int) =~= items@);
    }
    r
}

/// A plan whose shopping lists kept their source stubs list for list —
/// whatever happened to their items — stays well formed when nothing else
/// changed.
proof fn lemma_shopping_wf_same_sources(pre: MealPlan, post: MealPlan)
    requires
        pre.wf(),
        post.all_meals == pre.all_meals,
        post.completed_meals == pre.completed_meals,
        post.planned_meals == pre.planned_meals,
        post.for_meals_view().len() == pre.for_meals_view().len(),
        forall|i: int|
            0 <= i < post.for_meals_view().len() ==> #[trigger] post.for_meals_view()[i]
                == pre.for_meals_view()[i],
    ensures
        post.wf(),
{
    assert(post.meal_ids() == pre.meal_ids());
    assert(post.planned_view() == pre.planned_view());
    assert(post.completed_view() == pre.completed_view());
    assert(post.shopping_wf()) by {
        assert forall|i: int, k: int|
            0 <= i < post.for_meals_view().len() && 0 <= k < (
            #[trigger] post.for_meals_view()[i]).len() implies post.has_meal(
            (#[trigger] post.for_meals_view()[i][k]).id,
        ) by {
            assert(pre.has_meal(pre.for_meals_view()[i][k].id));
        }
    }
}

/// A plan that dropped one whole shopping list stays well formed when
/// nothing else changed.
proof fn lemma_shopping_wf_removed(pre: MealPlan, post: MealPlan, index: int)
    requires
        pre.wf(),
        post.all_meals == pre.all_meals,
        post.completed_meals == pre.completed_meals,
        post.planned_meals == pre.planned_meals,
        0 <= index < pre.shopping_list@.len(),
        post.shopping_list@ =~= pre.shopping_list@.remove(index),
    ensures
        post.wf(),
{
    assert(post.meal_ids() == pre.meal_ids());
    assert(post.planned_view() == pre.planned_view());
    assert(post.completed_view() == pre.completed_view());
    assert(post.shopping_wf()) by {
        assert forall|i: int, k: int|
            0 <= i < post.for_meals_view().len() && 0 <= k < (
            #[trigger] post.for_meals_view()[i]).len() implies post.has_meal(
            (#[trigger] post.for_meals_view()[i][k]).id,
        ) by {
            let j: int = if i < index {
                i
            } else {
                i + 1
            };
            assert(post.shopping_list@[i] == pre.shopping_list@[j]);
            assert(post.for_meals_view()[i] == pre.for_meals_view()[j]);
            assert(pre.has_meal(pre.for_meals_view()[j][k].id));
        }
    }
}

/// The shopping-list lines a single recipe's ingredients give, one line per
/// ingredient, unmerged.
pub open spec fn items_from_ingredients(ings: Seq<Ingredient>) -> Seq<ShoppingListItem> {
    ings.map_values(
        |ing: Ingredient| ShoppingListItem { amount: ing.amount, have: false, name: ing.name },
    )
}

/// Whether some item carries exactly the given name.
pub open spec fn has_item_named(items: Seq<ShoppingListItem>, name: Seq<char>) -> bool {
    exists|j: int| 0 <= j < items.len() && items[j].name@ == name
}

/// The index of the first item carrying exactly the given name; meaningful
/// only when one exists.
pub open spec fn first_item_named(items: Seq<ShoppingListItem>, name: Seq<char>) -> int {
    choose|j: int|
        0 <= j < items.len() && items[j].name@ == name && (forall|t: int|
            0 <= t < j ==> items[t].name@ != name)
}

/// An index that carries the name and has no earlier carrier is the first.
pub proof fn lemma_first_item_named(items: Seq<ShoppingListItem>, name: Seq<char>, j: int)
    requires
        0 <= j < items.len(),
        items[j].name@ == name,
        forall|t: int| 0 <= t < j ==> items[t].name@ != name,
    ensures
        has_item_named(items, name),
        first_item_named(items, name) == j,
{
    let i = first_item_named(items, name);
    assert(0 <= i < items.len() && items[i].name@ == name && (forall|t: int|
        0 <= t < i ==> items[t].name@ != name));
    if i < j {
        assert(items[i].name@ != name);
    } else if j < i {
        assert(items[j].name@ != name);
    }
}

/// The ingredients of the recipe a stub references.
#[verifier::opaque]
pub open spec fn recipe_ingredients(p: MealPlan, s: MealStub) -> Seq<Ingredient> {
    p.all_meals@[p.meal_index(s.id)].ingredients@
}

/// Wherever some line matches a name, a first matching line exists, and
/// `first_matching_item` denotes it.
#[verifier::spinoff_prover]
proof fn lemma_first_match_exists(items: Seq<ShoppingListItem>, n: Seq<char>, w: int)
    requires
        0 <= w < items.len(),
        lower_of(items[w].name@) == lower_of(n),
    ensures
        ({
            let j = first_matching_item(items, n);
            0 <= j < items.len() && lower_of(items[j].name@) == lower_of(n) && (forall|t: int|
                0 <= t < j ==> lower_of(items[t].name@) != lower_of(n))
        }),
    decreases w,
{
    if exists|t: int| 0 <= t < w && lower_of(items[t].name@) == lower_of(n) {
        let t = choose|t: int| 0 <= t < w && lower_of(items[t].name@) == lower_of(n);
        lemma_first_match_exists(items, n, t);
    } else {
        lemma_first_matching_item(items, n, w);
    }
}

/// Folding one ingredient in: its lowercased name gains a matching line, no
/// line with a new spelling appears, and every name that already had a
/// matching line keeps one.
#[verifier::rlimit(100)]
#[verifier::spinoff_prover]
proof fn lemma_merge_one_names(items: Seq<ShoppingListItem>, ing: Ingredient)
    ensures
        has_matching_item(merge_one(items, ing), ing.name@),
        forall|j: int|
            0 <= j < merge_one(items, ing).len() ==> (exists|t: int|
                0 <= t < items.len() && (#[trigger] merge_one(items, ing)[j]).name@
                    == items[t].name@) || merge_one(items, ing)[j].name@ == ing.name@,
        forall|n: Seq<char>|
            #[trigger] has_matching_item(items, n) ==> has_matching_item(merge_one(items, ing), n),
{
    reveal(merge_one);
    let out = merge_one(items, ing);
    if has_matching_item(items, ing.name@) {
        let w0 = choose|w0: int|
            0 <= w0 < items.len() && lower_of(items[w0].name@) == lower_of(ing.name@);
        lemma_first_match_exists(items, ing.name@, w0);
        let j = first_matching_item(items, ing.name@);
        assert(0 <= j < items.len() && lower_of(items[j].name@) == lower_of(ing.name@));
        assert forall|t: int| 0 <= t < out.len() implies (#[trigger] out[t]).name@
            == items[t].name@ by {}
        assert(lower_of(out[j].name@) == lower_of(ing.name@));
        assert forall|n: Seq<char>| #[trigger] has_matching_item(items, n) implies has_matching_item(
            out,
            n,
        ) by {
            let w = choose|w: int| 0 <= w < items.len() && lower_of(items[w].name@) == lower_of(n);
            assert(lower_of(out[w].name@) == lower_of(n));
        }
    } else {
        assert(out == items.push(
            ShoppingListItem { amount: ing.amount, have: false, name: ing.name },
        ));
        assert(out[items.len() as int].name@ == ing.name@);
        assert forall|n: Seq<char>| #[trigger] has_matching_item(items, n) implies has_matching_item(
            out,
            n,
        ) by {
            let w = choose|w: int| 0 <= w < items.len() && lower_of(items[w].name@) == lower_of(n);
            assert(lower_of(out[w].name@) == lower_of(n));
        }
    }
}

/// Folding a whole ingredient list in, likewise, for every ingredient.
#[verifier::rlimit(100)]
#[verifier::spinoff_prover]
proof fn lemma_merge_many_names(items: Seq<ShoppingListItem>, ings: Seq<Ingredient>)
    ensures
        forall|q: int|
            0 <= q < ings.len() ==> has_matching_item(
                merge_many(items, ings),
                (#[trigger] ings[q]).name@,
            ),
        forall|j: int|
            0 <= j < merge_many(items, ings).len() ==> (exists|t: int|
                0 <= t < items.len() && (#[trigger] merge_many(items, ings)[j]).name@
                    == items[t].name@) || (exists|q: int|
                0 <= q < ings.len() && merge_many(items, ings)[j].name@ == ings[q].name@),
        forall|n: Seq<char>|
            #[trigger] has_matching_item(items, n) ==> has_matching_item(
                merge_many(items, ings),
                n,
            ),
    decreases ings.len(),
{
    if ings.len() > 0 {
        let prev = merge_many(items, ings.drop_last());
        let last = ings.last();
        let out = merge_many(items, ings);
        lemma_merge_many_names(items, ings.drop_last());
        lemma_merge_one_names(prev, last);
        assert(out == merge_one(prev, last));

        assert forall|q: int| 0 <= q < ings.len() implies has_matching_item(
            out,
            (#[trigger] ings[q]).name@,
        ) by {
            if q < ings.len() - 1 {
                assert(ings.drop_last()[q] == ings[q]);
                assert(has_matching_item(prev, ings[q].name@));
            } else {
                assert(ings[q] == last);
            }
        }

        assert forall|j: int| 0 <= j < out.len() implies (exists|t: int|
            0 <= t < items.len() && (#[trigger] out[j]).name@ == items[t].name@) || (exists|q: int|
            0 <= q < ings.len() && out[j].name@ == ings[q].name@) by {
            if exists|t: int| 0 <= t < prev.len() && (#[trigger] out[j]).name@ == prev[t].name@ {
                let t = choose|t: int| 0 <= t < prev.len() && out[j].name@ == prev[t].name@;
                if exists|w: int| 0 <= w < items.len() && (#[trigger] prev[t]).name@
                    == items[w].name@ {
                } else {
                    let q = choose|q: int|
                        0 <= q < ings.drop_last().len() && prev[t].name@
                            == ings.drop_last()[q].name@;
                    assert(ings.drop_last()[q] == ings[q]);
                    assert(out[j].name@ == ings[q].name@);
                }
            } else {
                assert(out[j].name@ == last.name@);
                assert(out[j].name@ == ings[ings.len() - 1].name@);
            }
        }
    }
}

/// Accumulating over stubs: every ingredient of every covered recipe has a
/// matching line.
#[verifier::rlimit(100)]
#[verifier::spinoff_prover]
proof fn lemma_accumulated_names_complete(p: MealPlan, stubs: Seq<MealStub>)
    ensures
        forall|k: int, q: int|
            0 <= k < stubs.len() && 0 <= q < recipe_ingredients(p, stubs[k]).len()
                ==> has_matching_item(
                p.accumulated_items(stubs),
                (#[trigger] recipe_ingredients(p, stubs[k])[q]).name@,
            ),
    decreases stubs.len(),
{
    if stubs.len() > 0 {
        let prev = p.accumulated_items(stubs.drop_last());
        let last_ings = recipe_ingredients(p, stubs.last());
        let out = p.accumulated_items(stubs);
        lemma_accumulated_names_complete(p, stubs.drop_last());
        lemma_merge_many_names(prev, last_ings);
        assert(out == merge_many(prev, last_ings)) by {
            reveal(recipe_ingredients);
        }

        assert forall|k: int, q: int|
            0 <= k < stubs.len() && 0 <= q < recipe_ingredients(p, stubs[k]).len() implies has_matching_item(
            out,
            (#[trigger] recipe_ingredients(p, stubs[k])[q]).name@,
        ) by {
            if k < stubs.len() - 1 {
                assert(stubs.drop_last()[k] == stubs[k]);
                assert(has_matching_item(prev, recipe_ingredients(p, stubs[k])[q].name@));
            } else {
                assert(stubs[k] == stubs.last());
            }
        }
    }
}

/// Accumulating over stubs: every line's spelling is some covered recipe's
/// ingredient's.
#[verifier::rlimit(100)]
#[verifier::spinoff_prover]
proof fn lemma_accumulated_names_sound(p: MealPlan, stubs: Seq<MealStub>)
    ensures
        forall|j: int|
            0 <= j < p.accumulated_items(stubs).len() ==> exists|k: int, q: int|
                0 <= k < stubs.len() && 0 <= q < recipe_ingredients(p, stubs[k]).len() && (
                #[trigger] p.accumulated_items(stubs)[j]).name@ == recipe_ingredients(
                    p,
                    stubs[k],
                )[q].name@,
    decreases stubs.len(),
{
    if stubs.len() > 0 {
        let prev = p.accumulated_items(stubs.drop_last());
        let last_ings = recipe_ingredients(p, stubs.last());
        let out = p.accumulated_items(stubs);
        lemma_accumulated_names_sound(p, stubs.drop_last());
        lemma_merge_many_names(prev, last_ings);
        assert(out == merge_many(prev, last_ings)) by {
            reveal(recipe_ingredients);
        }

        assert forall|j: int| 0 <= j < out.len() implies exists|k: int, q: int|
            0 <= k < stubs.len() && 0 <= q < recipe_ingredients(p, stubs[k]).len() && (
        #[trigger] out[j]).name@ == recipe_ingredients(p, stubs[k])[q].name@ by {
            if exists|t: int| 0 <= t < prev.len() && (#[trigger] out[j]).name@ == prev[t].name@ {
                let t = choose|t: int| 0 <= t < prev.len() && out[j].name@ == prev[t].name@;
                let (k0, q0): (int, int) = choose|k0: int, q0: int|
                    0 <= k0 < stubs.drop_last().len() && 0 <= q0 < recipe_ingredients(
                        p,
                        stubs.drop_last()[k0],
                    ).len() && prev[t].name@ == recipe_ingredients(p, stubs.drop_last()[k0])[q0].name@;
                assert(stubs.drop_last()[k0] == stubs[k0]);
                assert(out[j].name@ == recipe_ingredients(p, stubs[k0])[q0].name@);
            } else {
                let q0 = choose|q0: int|
                    0 <= q0 < last_ings.len() && out[j].name@ == last_ings[q0].name@;
                assert(stubs[stubs.len() - 1] == stubs.last());
                assert(out[j].name@ == recipe_ingredients(p, stubs[stubs.len() - 1])[q0].name@);
            }
        }
    }
}

/// Every item of the ranks below `r` occurs among the given items.
proof fn lemma_sorted_up_to_subset(items: Seq<ShoppingListItem>, r: int)
    ensures
        forall|j: int|
            0 <= j < sorted_up_to(items, r).len() ==> items.contains(
                #[trigger] sorted_up_to(items, r)[j],
            ),
    decreases r,
{
    if r > 0 {
        lemma_sorted_up_to_subset(items, r - 1);
        lemma_filter_subset(items, of_rank(r - 1));
        assert forall|j: int| 0 <= j < sorted_up_to(items, r).len() implies items.contains(
            #[trigger] sorted_up_to(items, r)[j],
        ) by {
            let before = sorted_up_to(items, r - 1);
            if j >= before.len() {
                assert(sorted_up_to(items, r)[j] == items.filter(of_rank(r - 1))[j - before.len()]);
            }
        }
    }
}

/// An item whose rank lies below `r` occurs among the ordered items.
proof fn lemma_sorted_up_to_complete(items: Seq<ShoppingListItem>, t: int, r: int)
    requires
        0 <= t < items.len(),
        unit_rank(items[t].amount.units) < r <= 6,
    ensures
        sorted_up_to(items, r).contains(items[t]),
    decreases r,
{
    let r0 = unit_rank(items[t].amount.units);
    if r - 1 == r0 {
        items.filter_lemma(of_rank(r0));
        assert(of_rank(r0)(items[t]));
        assert(items.filter(of_rank(r0)).contains(items[t]));
        let w = choose|w: int|
            #![trigger items.filter(of_rank(r0))[w]]
            0 <= w < items.filter(of_rank(r0)).len() && items.filter(of_rank(r0))[w] == items[t];
        assert(sorted_up_to(items, r)[sorted_up_to(items, r - 1).len() + w] == items[t]);
    } else {
        lemma_sorted_up_to_complete(items, t, r - 1);
        let w = choose|w: int|
            #![trigger sorted_up_to(items, r - 1)[w]]
            0 <= w < sorted_up_to(items, r - 1).len() && sorted_up_to(items, r - 1)[w] == items[t];
        assert(sorted_up_to(items, r)[w] == items[t]);
    }
}

/// The lines of a generated list carry exactly the ingredient names of the
/// recipes the covered stubs reference: every such ingredient's lowercased
/// name has a matching line, and every line's spelling is one of those
/// ingredients' spellings. With `stubs` the eligible stubs, this is the
/// shape of what `generate_shopping_list` returns.
#[verifier::spinoff_prover]
pub proof fn lemma_generated_item_names(p: MealPlan, stubs: Seq<MealStub>)
    ensures
        ({
            let items = sorted_by_units(p.accumulated_items(stubs));
            &&& forall|k: int, q: int|
                0 <= k < stubs.len() && 0 <= q < recipe_ingredients(p, stubs[k]).len()
                    ==> has_matching_item(
                    items,
                    (#[trigger] recipe_ingredients(p, stubs[k])[q]).name@,
                )
            &&& forall|j: int|
                0 <= j < items.len() ==> exists|k: int, q: int|
                    0 <= k < stubs.len() && 0 <= q < recipe_ingredients(p, stubs[k]).len() && (
                    #[trigger] items[j]).name@ == recipe_ingredients(p, stubs[k])[q].name@
        }),
{
    let acc = p.accumulated_items(stubs);
    let items = sorted_by_units(acc);
    lemma_accumulated_names_complete(p, stubs);
    lemma_accumulated_names_sound(p, stubs);
    lemma_sorted_up_to_subset(acc, 6);

    assert forall|k: int, q: int|
        0 <= k < stubs.len() && 0 <= q < recipe_ingredients(p, stubs[k]).len() implies has_matching_item(
        items,
        (#[trigger] recipe_ingredients(p, stubs[k])[q]).name@,
    ) by {
        let n = recipe_ingredients(p, stubs[k])[q].name@;
        assert(has_matching_item(acc, n));
        let t = choose|t: int| 0 <= t < acc.len() && lower_of(acc[t].name@) == lower_of(n);
        assert(0 <= unit_rank(acc[t].amount.units) < 6);
        lemma_sorted_up_to_complete(acc, t, 6);
        let w = choose|w: int| #![trigger items[w]] 0 <= w < items.len() && items[w] == acc[t];
        assert(lower_of(items[w].name@) == lower_of(n));
    }

    assert forall|j: int| 0 <= j < items.len() implies exists|k: int, q: int|
        0 <= k < stubs.len() && 0 <= q < recipe_ingredients(p, stubs[k]).len() && (
    #[trigger] items[j]).name@ == recipe_ingredients(p, stubs[k])[q].name@ by {
        assert(acc.contains(items[j]));
        let t = choose|t: int| #![trigger acc[t]] 0 <= t < acc.len() && acc[t] == items[j];
        let (k0, q0): (int, int) = choose|k0: int, q0: int|
            0 <= k0 < stubs.len() && 0 <= q0 < recipe_ingredients(p, stubs[k0]).len()
                && acc[t].name@ == recipe_ingredients(p, stubs[k0])[q0].name@;
        assert(items[j].name@ == recipe_ingredients(p, stubs[k0])[q0].name@);
    }
}

/// Generating twice finds nothing new: once a list covering the eligible
/// stubs is appended, and no new meals are planned, no stub is eligible any
/// more, so the next generation accumulates nothing and yields no list.
pub proof fn lemma_regenerate_finds_nothing(p: MealPlan, p2: MealPlan)
    requires
        p2.planned_meals == p.planned_meals,
        p2.for_meals_view() =~~= p.for_meals_view().push(p.eligible_stubs()),
    ensures
        p2.eligible_stubs() == Seq::<MealStub>::empty(),
        p2.accumulated_items(p2.eligible_stubs()).len() == 0,
{
    let all = p.all_planned_stubs();
    let pred = eligible_for(p.for_meals_view());
    let pred2 = eligible_for(p2.for_meals_view());
    assert(p2.all_planned_stubs() == all);

    all.filter_lemma(pred);
    lemma_filter_subset(all, pred2);
    all.filter_lemma(pred2);

    assert forall|i: int| 0 <= i < all.len() implies !pred2(#[trigger] all[i]) by {
        let s = all[i];
        if !s.leftovers {
            if already_shopped(p.for_meals_view(), s.date, s.id) {
                let (a, b): (int, int) = choose|a: int, b: int|
                    0 <= a < p.for_meals_view().len() && 0 <= b < p.for_meals_view()[a].len()
                        && p.for_meals_view()[a][b].date == s.date && p.for_meals_view()[a][b].id
                        == s.id;
                assert(p2.for_meals_view()[a][b] == p.for_meals_view()[a][b]);
                assert(already_shopped(p2.for_meals_view(), s.date, s.id));
            } else {
                assert(pred(s));
                assert(all.filter(pred).contains(s));
                let k = choose|k: int|
                    0 <= k < p.eligible_stubs().len() && p.eligible_stubs()[k] == s;
                let a = p.for_meals_view().len() as int;
                assert(p2.for_meals_view()[a] == p.eligible_stubs());
                assert(p2.for_meals_view()[a][k].date == s.date && p2.for_meals_view()[a][k].id
                    == s.id);
                assert(already_shopped(p2.for_meals_view(), s.date, s.id));
            }
        }
    }

    assert(p2.eligible_stubs() =~= Seq::<MealStub>::empty()) by {
        if p2.eligible_stubs().len() > 0 {
            let e = p2.eligible_stubs()[0];
            assert(pred2(e));
            assert(all.contains(e));
            let i = choose|i: int| 0 <= i < all.len() && all[i] == e;
            assert(!pred2(all[i]));
        }
    }
}

/// Sorting an empty item sequence yields an empty sequence.
proof fn lemma_sorted_of_empty()
    ensures
        sorted_by_units(Seq::<ShoppingListItem>::empty()).len() == 0,
{
    reveal(Seq::filter);
    assert forall|r: int| 0 <= r <= 6 implies sorted_up_to(
        Seq::<ShoppingListItem>::empty(),
        r,
    ).len() == 0 by {
        lemma_sorted_up_to_empty(r);
    }
}

proof fn lemma_sorted_up_to_empty(r: int)
    ensures
        sorted_up_to(Seq::<ShoppingListItem>::empty(), r).len() == 0,
    decreases (if r < 0 {
        0int
    } else {
        r
    }),
{
    reveal(Seq::filter);
    if r > 0 {
        lemma_sorted_up_to_empty(r - 1);
    }
}

/// A unit-ordered item sequence is empty only when the unordered one was.
proof fn lemma_sorted_empty_means_empty(items: Seq<ShoppingListItem>)
    requires
        sorted_by_units(items).len() == 0,
    ensures
        items.len() == 0,
{
    if items.len() > 0 {
        let r0 = unit_rank(items[0].amount.units);
        assert(0 <= r0 < 6);
        items.filter_lemma(of_rank(r0));
        assert(of_rank(r0)(items[0]));
        assert(items.filter(of_rank(r0)).contains(items[0]));
        assert(items.filter(of_rank(r0)).len() > 0);
        assert forall|r: int| 0 <= r0 < r <= 6 implies sorted_up_to(items, r).len() > 0 by {
            lemma_sorted_up_to_covers(items, r0, r);
        }
        assert(sorted_up_to(items, 6).len() > 0);
    }
}

proof fn lemma_sorted_up_to_covers(items: Seq<ShoppingListItem>, r0: int, r: int)
    requires
        0 <= r0 < r,
        items.filter(of_rank(r0)).len() > 0,
    ensures
        sorted_up_to(items, r).len() > 0,
    decreases r,
{
    if r - 1 == r0 {
        assert(sorted_up_to(items, r) == sorted_up_to(items, r0) + items.filter(of_rank(r0)));
    } else {
        lemma_sorted_up_to_covers(items, r0, r - 1);
    }
}

/// Every stub a generation selects is a non-leftover stub.
proof fn lemma_eligible_not_leftover(p: MealPlan, stubs: Seq<MealStub>)
    requires
        stubs == p.eligible_stubs(),
    ensures
        forall|k: int| 0 <= k < stubs.len() ==> !(#[trigger] stubs[k]).leftovers,
{
    p.all_planned_stubs().filter_lemma(eligible_for(p.for_meals_view()));
    assert forall|k: int| 0 <= k < stubs.len() implies !(#[trigger] stubs[k]).leftovers by {
        assert(eligible_for(p.for_meals_view())(stubs[k]));
    }
}

} // verus!
