//! Mutation operations on the aggregate meal plan: planning a meal for a
//! date, unplanning, toggling the leftover flag, completing, moving a meal
//! or the whole calendar by one day, and the cascading removal of a recipe.
//!
//! Every operation keeps the aggregate's well-formedness invariant. Lookups
//! that the caller got wrong are reported as typed errors and leave the plan
//! unchanged.

use vstd::prelude::*;

use crate::types::{key_get, key_has, key_index, keys_unique, CompletedDay, DayPlan, MealPlan, MealStub};

verus! {

/// A lookup error of a mutation operation. Each operation says exactly on
/// which inputs it returns which variant.
#[derive(Clone, Copy, Debug, PartialEq, Eq, Structural)]
pub enum StoreError {
    /// No recipe with the requested id exists.
    MealNotFound,
    /// No meals are planned for the requested date.
    DateNotPlanned,
    /// No stub for the requested recipe exists at the requested date.
    MealNotPlanned,
    /// No shopping list exists at the requested index.
    ListNotFound,
    /// No shopping-list item with the requested name exists.
    ItemNotFound,
}

/// The direction a meal, or the whole calendar, is moved by one day.
#[derive(Clone, Copy, Debug, PartialEq, Eq, Structural)]
pub enum Direction {
    Forward,
    Backward,
}

/// The previous or the next day. Meaningful only away from the ends of the
/// date range.
pub open spec fn shifted_date(date: u64, direction: Direction) -> u64 {
    match direction {
        Direction::Forward => (date + 1) as u64,
        Direction::Backward => (date - 1) as u64,
    }
}

/// The stub moved by one day, everything else preserved.
pub open spec fn shifted_stub(s: MealStub, direction: Direction) -> MealStub {
    MealStub { date: shifted_date(s.date, direction), id: s.id, leftovers: s.leftovers }
}

/// One day entry moved by one day, stub order preserved.
pub open spec fn shifted_day(e: (u64, Seq<MealStub>), direction: Direction) -> (u64, Seq<MealStub>) {
    (shifted_date(e.0, direction), e.1.map_values(|s: MealStub| shifted_stub(s, direction)))
}

/// The whole calendar moved by one day.
pub open spec fn shifted_days(
    days: Seq<(u64, Seq<MealStub>)>,
    direction: Direction,
) -> Seq<(u64, Seq<MealStub>)> {
    days.map_values(|e: (u64, Seq<MealStub>)| shifted_day(e, direction))
}

/// Filtering a sequence extended by one element keeps the element exactly
/// when it satisfies the predicate.
pub proof fn lemma_filter_push<A>(s: Seq<A>, x: A, pred: spec_fn(A) -> bool)
    ensures
        s.push(x).filter(pred) == if pred(x) {
            s.filter(pred).push(x)
        } else {
            s.filter(pred)
        },
{
    reveal(Seq::filter);
    assert(s.push(x).drop_last() =~= s);
    assert(s.push(x).last() == x);
}

/// The predicate that keeps the stubs not referencing the given recipe.
pub open spec fn keeps_other_ids(id: u128) -> spec_fn(MealStub) -> bool {
    |s: MealStub| s.id != id
}

/// A calendar view with a stub appended to the given date's stub list,
/// the date's entry being created at the end when the date had none.
pub open spec fn view_add_stub(
    days: Seq<(u64, Seq<MealStub>)>,
    date: u64,
    stub: MealStub,
) -> Seq<(u64, Seq<MealStub>)> {
    if key_has(days, date) {
        days.update(key_index(days, date), (date, key_get(days, date).push(stub)))
    } else {
        days.push((date, seq![stub]))
    }
}

/// A calendar view with every stub for the given recipe removed from the
/// given date's stub list, the date's entry being removed when that empties
/// it. Meaningful only when the date has an entry.
pub open spec fn view_remove_id_at(
    days: Seq<(u64, Seq<MealStub>)>,
    date: u64,
    id: u128,
) -> Seq<(u64, Seq<MealStub>)> {
    let k = key_index(days, date);
    let filtered = days[k].1.filter(keeps_other_ids(id));
    if filtered.len() > 0 {
        days.update(k, (days[k].0, filtered))
    } else {
        days.remove(k)
    }
}

/// A calendar view with every stub for the given recipe removed from every
/// date, and every date entry that this empties removed as well.
pub open spec fn view_remove_id_everywhere(
    days: Seq<(u64, Seq<MealStub>)>,
    id: u128,
) -> Seq<(u64, Seq<MealStub>)> {
    days.map_values(|e: (u64, Seq<MealStub>)| (e.0, e.1.filter(keeps_other_ids(id)))).filter(
        |e: (u64, Seq<MealStub>)| e.1.len() > 0,
    )
}

/// Filtering a date-keyed sequence keeps its dates unique.
pub proof fn lemma_filter_keys_unique<T>(s: Seq<(u64, T)>, pred: spec_fn((u64, T)) -> bool)
    requires
        keys_unique(s),
    ensures
        keys_unique(s.filter(pred)),
    decreases s.len(),
{
    reveal(Seq::filter);
    if s.len() > 0 {
        assert(keys_unique(s.drop_last())) by {
            assert forall|a: int, b: int| 0 <= a < b < s.drop_last().len() implies #[trigger] s
                .drop_last()[a].0 != #[trigger] s.drop_last()[b].0 by {
                assert(s[a].0 != s[b].0);
            }
        }
        lemma_filter_keys_unique(s.drop_last(), pred);
        let fd = s.drop_last().filter(pred);
        if pred(s.last()) {
            lemma_filter_subset(s.drop_last(), pred);
            assert forall|a: int, b: int| 0 <= a < b < s.filter(pred).len() implies #[trigger] s
                .filter(pred)[a].0 != #[trigger] s.filter(pred)[b].0 by {
                if b == s.filter(pred).len() - 1 {
                    assert(s.filter(pred)[b] == s.last());
                    assert(s.drop_last().contains(fd[a]));
                    let j = choose|j: int|
                        0 <= j < s.drop_last().len() && s.drop_last()[j] == fd[a];
                    assert(s[j].0 != s[s.len() - 1].0);
                } else {
                    assert(fd[a].0 != fd[b].0);
                }
            }
        }
    }
}

/// Whether some stub of the sequence references the given recipe.
pub open spec fn has_id(stubs: Seq<MealStub>, id: u128) -> bool {
    exists|i: int| 0 <= i < stubs.len() && stubs[i].id == id
}

/// The index of the first stub referencing the given recipe; meaningful
/// only when one exists.
pub open spec fn first_with_id(stubs: Seq<MealStub>, id: u128) -> int {
    choose|i: int|
        0 <= i < stubs.len() && stubs[i].id == id && (forall|j: int|
            0 <= j < i ==> stubs[j].id != id)
}

/// A sequence index that references the id and has no earlier reference is
/// the first reference.
pub proof fn lemma_first_with_id(stubs: Seq<MealStub>, id: u128, m: int)
    requires
        0 <= m < stubs.len(),
        stubs[m].id == id,
        forall|j: int| 0 <= j < m ==> stubs[j].id != id,
    ensures
        has_id(stubs, id),
        first_with_id(stubs, id) == m,
{
    let i = first_with_id(stubs, id);
    assert(0 <= i < stubs.len() && stubs[i].id == id && (forall|j: int|
        0 <= j < i ==> stubs[j].id != id));
    if i < m {
        assert(stubs[i].id != id);
    } else if m < i {
        assert(stubs[m].id != id);
    }
}

/// Every element of a filtered sequence occurs in the sequence it was
/// filtered from.
pub proof fn lemma_filter_subset<A>(s: Seq<A>, pred: spec_fn(A) -> bool)
    ensures
        forall|i: int| 0 <= i < s.filter(pred).len() ==> s.contains(#[trigger] s.filter(pred)[i]),
    decreases s.len(),
{
    reveal(Seq::filter);
    if s.len() > 0 {
        lemma_filter_subset(s.drop_last(), pred);
        assert forall|i: int| 0 <= i < s.filter(pred).len() implies s.contains(
            #[trigger] s.filter(pred)[i],
        ) by {
            let f = s.filter(pred);
            let fd = s.drop_last().filter(pred);
            if i < fd.len() {
                assert(fd[i] == f[i]);
                assert(s.drop_last().contains(fd[i]));
                let j = choose|j: int| 0 <= j < s.drop_last().len() && s.drop_last()[j] == fd[i];
                assert(s[j] == f[i]);
            } else {
                assert(f[i] == s.last());
                assert(s[s.len() - 1] == f[i]);
            }
        }
    }
}

/// The stubs of the sequence that do not reference the given recipe, in
/// their original order.
fn stubs_without(stubs: &Vec<MealStub>, id: u128) -> (r: Vec<MealStub>)
    ensures
        r@ == stubs@.filter(keeps_other_ids(id)),
{
    let mut r: Vec<MealStub> = Vec::new();
    let n = stubs.len();
    let mut i: usize = 0;
    while i < n
        invariant
            n == stubs@.len(),
            i <= n,
            r@ == stubs@.subrange(0, i as int).filter(keeps_other_ids(id)),
        decreases n - i,
    {
        let s = stubs[i];
        proof {
            lemma_filter_push(stubs@.subrange(0, i as int), stubs@[i as int], keeps_other_ids(id));
            assert(stubs@.subrange(0, i as int + 1) =~= stubs@.subrange(0, i as int).push(
                stubs@[i as int],
            ));
        }
        if s.id != id {
            r.push(s);
        }
        i += 1;
    }
    proof {
        assert(stubs@.subrange(0, n as int) =~= stubs@);
    }
    r
}

impl MealPlan {
    /// The index of the day entry for `date`, if one exists.
    pub(crate) fn find_day(&self, date: u64) -> (r: Option<usize>)
        ensures
            match r {
                Some(i) => i < self.planned_meals@.len() && self.planned_meals@[i as int].date
                    == date,
                None => !key_has(self.planned_view(), date),
            },
    {
        let n = self.planned_meals.len();
        let mut i: usize = 0;
        while i < n
            invariant
                n == self.planned_meals@.len(),
                i <= n,
                forall|j: int| 0 <= j < i ==> self.planned_view()[j].0 != date,
            decreases n - i,
        {
            if self.planned_meals[i].date == date {
                assert(self.planned_view()[i as int].0 == date);
                return Some(i);
            }
            assert(self.planned_view()[i as int].0 == self.planned_meals@[i as int].date);
            i += 1;
        }
        None
    }

    /// The index of the recipe with the given id, if one exists.
    pub(crate) fn find_meal(&self, id: u128) -> (r: Option<usize>)
        ensures
            match r {
                Some(i) => i < self.all_meals@.len() && self.all_meals@[i as int].id == id
                    && self.has_meal(id),
                None => !self.has_meal(id),
            },
    {
        let n = self.all_meals.len();
        let mut i: usize = 0;
        while i < n
            invariant
                n == self.all_meals@.len(),
                i <= n,
                forall|j: int| 0 <= j < i ==> self.meal_ids()[j] != id,
            decreases n - i,
        {
            if self.all_meals[i].id == id {
                assert(self.meal_ids()[i as int] == id);
                return Some(i);
            }
            assert(self.meal_ids()[i as int] == self.all_meals@[i as int].id);
            i += 1;
        }
        assert forall|j: int| 0 <= j < self.meal_ids().len() implies self.meal_ids()[j] != id by {}
        None
    }

    /// Plans a meal: appends a stub for `meal_id` to the given date's stub
    /// list, creating the date's entry if the date had none. Fails exactly
    /// when no recipe with that id exists, and then changes nothing.
    pub fn plan(&mut self, date: u64, meal_id: u128, leftovers: bool) -> (r: Result<
        MealStub,
        StoreError,
    >)
        requires
            old(self).wf(),
        ensures
            final(self).wf(),
            final(self).all_meals == old(self).all_meals,
            final(self).completed_meals == old(self).completed_meals,
            final(self).shopping_list == old(self).shopping_list,
            match r {
                Ok(stub) => {
                    &&& old(self).has_meal(meal_id)
                    &&& stub == (MealStub { date, id: meal_id, leftovers })
                    &&& final(self).planned_view() =~~= view_add_stub(
                        old(self).planned_view(),
                        date,
                        stub,
                    )
                },
                Err(e) => {
                    &&& e == StoreError::MealNotFound
                    &&& !old(self).has_meal(meal_id)
                    &&& *final(self) == *old(self)
                },
            },
    {
        if self.find_meal(meal_id).is_none() {
            return Err(StoreError::MealNotFound);
        }

        let stub = MealStub { date, id: meal_id, leftovers };
        let ghost old_view = self.planned_view();

        match self.find_day(date) {
            Some(i) => {
                proof {
                    lemma_key_unique_index(old_view, date, i as int);
                }
                self.planned_meals[i].stubs.push(stub);
                proof {
                    let new_view = self.planned_view();
                    let k = i as int;
                    assert(new_view[k] == (date, key_get(old_view, date).push(stub)));
                    assert forall|j: int| 0 <= j < new_view.len() && j != k implies new_view[j]
                        == old_view[j] by {}
                    lemma_plan_wf_update(*old(self), *self, k, stub);
                }
                Ok(stub)
            },
            None => {
                let mut stubs: Vec<MealStub> = Vec::new();
                stubs.push(stub);
                self.planned_meals.push(DayPlan { date, stubs });
                proof {
                    let new_view = self.planned_view();
                    assert(new_view[new_view.len() - 1] == (date, seq![stub]));
                    assert forall|j: int| 0 <= j < old_view.len() implies new_view[j]
                        == old_view[j] by {}
                    lemma_plan_wf_push(*old(self), *self, stub);
                }
                Ok(stub)
            },
        }
    }
}

/// The index of the first stub referencing the given recipe, if any.
pub(crate) fn find_stub(stubs: &Vec<MealStub>, id: u128) -> (r: Option<usize>)
    ensures
        match r {
            Some(m) => m < stubs@.len() && stubs@[m as int].id == id && (forall|j: int|
                0 <= j < m ==> stubs@[j].id != id),
            None => !has_id(stubs@, id),
        },
{
    let n = stubs.len();
    let mut i: usize = 0;
    while i < n
        invariant
            n == stubs@.len(),
            i <= n,
            forall|j: int| 0 <= j < i ==> stubs@[j].id != id,
        decreases n - i,
    {
        if stubs[i].id == id {
            return Some(i);
        }
        i += 1;
    }
    None
}

impl MealPlan {

    /// Unplans a meal: removes every stub for `meal_id` from the given
    /// date's stub list and, when that empties the list, removes the date's
    /// entry from the calendar altogether. Returns the invalidated pair so a
    /// consumer can close any open view of it. Fails exactly when the date
    /// has no entry, and then changes nothing.
    pub fn unplan(&mut self, date: u64, meal_id: u128) -> (r: Result<(u64, u128), StoreError>)
        requires
            old(self).wf(),
        ensures
            final(self).wf(),
            final(self).all_meals == old(self).all_meals,
            final(self).completed_meals == old(self).completed_meals,
            final(self).shopping_list == old(self).shopping_list,
            match r {
                Ok(signal) => {
                    &&& key_has(old(self).planned_view(), date)
                    &&& signal == (date, meal_id)
                    &&& final(self).planned_view() =~~= view_remove_id_at(
                        old(self).planned_view(),
                        date,
                        meal_id,
                    )
                    &&& (key_get(old(self).planned_view(), date).filter(
                        keeps_other_ids(meal_id),
                    ).len() == 0 ==> !key_has(final(self).planned_view(), date))
                },
                Err(e) => {
                    &&& e == StoreError::DateNotPlanned
                    &&& !key_has(old(self).planned_view(), date)
                    &&& *final(self) == *old(self)
                },
            },
    {
        let i = match self.find_day(date) {
            Some(i) => i,
            None => {
                return Err(StoreError::DateNotPlanned);
            },
        };
        let ghost old_view = self.planned_view();
        proof {
            lemma_key_unique_index(old_view, date, i as int);
        }

        let filtered = stubs_without(&self.planned_meals[i].stubs, meal_id);
        if filtered.len() == 0 {
            self.planned_meals.remove(i);
            proof {
                assert(self.planned_view() =~~= old_view.remove(i as int));
                lemma_planned_remove_wf(*old(self), *self, i as int);
                lemma_rest_wf(*old(self), *self);
            }
        } else {
            proof {
                lemma_filter_subset(old_view[i as int].1, keeps_other_ids(meal_id));
            }
            self.planned_meals[i].stubs = filtered;
            proof {
                assert(self.planned_view() =~~= old_view.update(
                    i as int,
                    (date, old_view[i as int].1.filter(keeps_other_ids(meal_id))),
                ));
                lemma_planned_subset_update_wf(
                    *old(self),
                    *self,
                    i as int,
                    old_view[i as int].1.filter(keeps_other_ids(meal_id)),
                );
                lemma_rest_wf(*old(self), *self);
            }
        }
        Ok((date, meal_id))
    }

    /// Flips the leftover flag of the first stub for `meal_id` at the given
    /// date. Fails exactly when the date has no entry, or when none of its
    /// stubs references the recipe, and then changes nothing.
    pub fn toggle_leftover(&mut self, date: u64, meal_id: u128) -> (r: Result<(), StoreError>)
        requires
            old(self).wf(),
        ensures
            final(self).wf(),
            final(self).all_meals == old(self).all_meals,
            final(self).completed_meals == old(self).completed_meals,
            final(self).shopping_list == old(self).shopping_list,
            match r {
                Ok(_) => {
                    &&& key_has(old(self).planned_view(), date)
                    &&& ({
                        let k = key_index(old(self).planned_view(), date);
                        let stubs = key_get(old(self).planned_view(), date);
                        let m = first_with_id(stubs, meal_id);
                        &&& has_id(stubs, meal_id)
                        &&& final(self).planned_view() =~~= old(self).planned_view().update(
                            k,
                            (
                                date,
                                stubs.update(
                                    m,
                                    MealStub {
                                        date: stubs[m].date,
                                        id: stubs[m].id,
                                        leftovers: !stubs[m].leftovers,
                                    },
                                ),
                            ),
                        )
                    })
                },
                Err(e) => {
                    &&& *final(self) == *old(self)
                    &&& (e == StoreError::DateNotPlanned || e == StoreError::MealNotPlanned)
                    &&& (e == StoreError::DateNotPlanned <==> !key_has(
                        old(self).planned_view(),
                        date,
                    ))
                    &&& (e == StoreError::MealNotPlanned <==> key_has(
                        old(self).planned_view(),
                        date,
                    ) && !has_id(key_get(old(self).planned_view(), date), meal_id))
                },
            },
    {
        let i = match self.find_day(date) {
            Some(i) => i,
            None => {
                return Err(StoreError::DateNotPlanned);
            },
        };
        let ghost old_view = self.planned_view();
        proof {
            lemma_key_unique_index(old_view, date, i as int);
        }

        let m = match find_stub(&self.planned_meals[i].stubs, meal_id) {
            Some(m) => m,
            None => {
                return Err(StoreError::MealNotPlanned);
            },
        };
        proof {
            lemma_first_with_id(old_view[i as int].1, meal_id, m as int);
        }

        let s = self.planned_meals[i].stubs[m];
        let flipped = MealStub { date: s.date, id: s.id, leftovers: !s.leftovers };
        self.planned_meals[i].stubs[m] = flipped;

        proof {
            let stubs2 = old_view[i as int].1.update(m as int, flipped);
            assert(self.planned_view() =~~= old_view.update(i as int, (date, stubs2)));
            lemma_planned_stub_update_wf(*old(self), *self, i as int, m as int, flipped);
        }
        Ok(())
    }

    /// Completes a meal: removes every stub for `meal_id` from the given
    /// date's stub list (removing the date's entry when it empties), and
    /// appends the recipe id to the date's completed meals, creating that
    /// entry if the date had none. Returns the invalidated planned pair.
    /// Fails exactly when the date has no planned entry, or when none of its
    /// stubs references the recipe, and then changes nothing.
    pub fn complete(&mut self, date: u64, meal_id: u128) -> (r: Result<(u64, u128), StoreError>)
        requires
            old(self).wf(),
        ensures
            final(self).wf(),
            final(self).all_meals == old(self).all_meals,
            final(self).shopping_list == old(self).shopping_list,
            match r {
                Ok(signal) => {
                    &&& key_has(old(self).planned_view(), date)
                    &&& has_id(key_get(old(self).planned_view(), date), meal_id)
                    &&& signal == (date, meal_id)
                    &&& final(self).planned_view() =~~= view_remove_id_at(
                        old(self).planned_view(),
                        date,
                        meal_id,
                    )
                    &&& (key_get(old(self).planned_view(), date).filter(
                        keeps_other_ids(meal_id),
                    ).len() == 0 ==> !key_has(final(self).planned_view(), date))
                    &&& if key_has(old(self).completed_view(), date) {
                        final(self).completed_view() =~~= old(self).completed_view().update(
                            key_index(old(self).completed_view(), date),
                            (date, key_get(old(self).completed_view(), date).push(meal_id)),
                        )
                    } else {
                        final(self).completed_view() =~~= old(self).completed_view().push(
                            (date, seq![meal_id]),
                        )
                    }
                },
                Err(e) => {
                    &&& *final(self) == *old(self)
                    &&& (e == StoreError::DateNotPlanned || e == StoreError::MealNotPlanned)
                    &&& (e == StoreError::DateNotPlanned <==> !key_has(
                        old(self).planned_view(),
                        date,
                    ))
                    &&& (e == StoreError::MealNotPlanned <==> key_has(
                        old(self).planned_view(),
                        date,
                    ) && !has_id(key_get(old(self).planned_view(), date), meal_id))
                },
            },
    {
        let i = match self.find_day(date) {
            Some(i) => i,
            None => {
                return Err(StoreError::DateNotPlanned);
            },
        };
        let ghost old_view = self.planned_view();
        proof {
            lemma_key_unique_index(old_view, date, i as int);
        }

        if find_stub(&self.planned_meals[i].stubs, meal_id).is_none() {
            return Err(StoreError::MealNotPlanned);
        }

        let filtered = stubs_without(&self.planned_meals[i].stubs, meal_id);
        if filtered.len() == 0 {
            self.planned_meals.remove(i);
            proof {
                assert(self.planned_view() =~~= old_view.remove(i as int));
                lemma_planned_remove_wf(*old(self), *self, i as int);
                lemma_rest_wf(*old(self), *self);
            }
        } else {
            proof {
                lemma_filter_subset(old_view[i as int].1, keeps_other_ids(meal_id));
            }
            self.planned_meals[i].stubs = filtered;
            proof {
                assert(self.planned_view() =~~= old_view.update(
                    i as int,
                    (date, old_view[i as int].1.filter(keeps_other_ids(meal_id))),
                ));
                lemma_planned_subset_update_wf(
                    *old(self),
                    *self,
                    i as int,
                    old_view[i as int].1.filter(keeps_other_ids(meal_id)),
                );
                lemma_rest_wf(*old(self), *self);
            }
        }

        let ghost mid = *self;
        let ghost old_completed = self.completed_view();
        match self.find_completed(date) {
            Some(c) => {
                proof {
                    lemma_key_unique_index(old_completed, date, c as int);
                }
                self.completed_meals[c].meal_ids.push(meal_id);
                proof {
                    assert(self.completed_view() =~~= old_completed.update(
                        c as int,
                        (date, old_completed[c as int].1.push(meal_id)),
                    ));
                    lemma_completed_same_keys_wf(mid, *self);
                }
            },
            None => {
                let mut ids: Vec<u128> = Vec::new();
                ids.push(meal_id);
                self.completed_meals.push(CompletedDay { date, meal_ids: ids });
                proof {
                    assert(self.completed_view() =~~= old_completed.push((date, seq![meal_id])));
                    lemma_completed_push_wf(mid, *self, date, meal_id);
                }
            },
        }
        Ok((date, meal_id))
    }

    /// Moves a meal by one day: removes every stub for `meal_id` from the
    /// given date's stub list (removing the date's entry when it empties)
    /// and re-plans an equivalent stub, with the first matching stub's
    /// leftover flag preserved, at the previous or the next day. Fails
    /// exactly when the date has no entry, or when none of its stubs
    /// references the recipe, and then changes nothing.
    pub fn move_meal(&mut self, date: u64, meal_id: u128, direction: Direction) -> (r: Result<
        MealStub,
        StoreError,
    >)
        requires
            old(self).wf(),
            direction == Direction::Forward ==> date < u64::MAX,
            direction == Direction::Backward ==> date > 0,
        ensures
            final(self).wf(),
            final(self).all_meals == old(self).all_meals,
            final(self).completed_meals == old(self).completed_meals,
            final(self).shopping_list == old(self).shopping_list,
            match r {
                Ok(moved) => ({
                    let stubs = key_get(old(self).planned_view(), date);
                    let kept = stubs[first_with_id(stubs, meal_id)];
                    &&& key_has(old(self).planned_view(), date)
                    &&& has_id(stubs, meal_id)
                    &&& moved == (MealStub {
                        date: shifted_date(date, direction),
                        id: meal_id,
                        leftovers: kept.leftovers,
                    })
                    &&& final(self).planned_view() =~~= view_add_stub(
                        view_remove_id_at(old(self).planned_view(), date, meal_id),
                        shifted_date(date, direction),
                        moved,
                    )
                }),
                Err(e) => {
                    &&& *final(self) == *old(self)
                    &&& (e == StoreError::DateNotPlanned || e == StoreError::MealNotPlanned)
                    &&& (e == StoreError::DateNotPlanned <==> !key_has(
                        old(self).planned_view(),
                        date,
                    ))
                    &&& (e == StoreError::MealNotPlanned <==> key_has(
                        old(self).planned_view(),
                        date,
                    ) && !has_id(key_get(old(self).planned_view(), date), meal_id))
                },
            },
    {
        let i = match self.find_day(date) {
            Some(i) => i,
            None => {
                return Err(StoreError::DateNotPlanned);
            },
        };
        let ghost old_view = self.planned_view();
        proof {
            lemma_key_unique_index(old_view, date, i as int);
        }

        let m = match find_stub(&self.planned_meals[i].stubs, meal_id) {
            Some(m) => m,
            None => {
                return Err(StoreError::MealNotPlanned);
            },
        };
        proof {
            lemma_first_with_id(old_view[i as int].1, meal_id, m as int);
        }
        let kept = self.planned_meals[i].stubs[m];
        proof {
            assert(old(self).has_meal(kept.id));
        }

        let new_date = match direction {
            Direction::Forward => date + 1,
            Direction::Backward => date - 1,
        };

        let unplanned = self.unplan(date, meal_id);
        proof {
            assert(unplanned is Ok);
        }

        match self.plan(new_date, meal_id, kept.leftovers) {
            Ok(moved) => Ok(moved),
            Err(_) => {
                proof {
                    assert(false);
                }
                Err(StoreError::MealNotFound)
            },
        }
    }

    /// Schedules a leftover serving the day after the original: plans a new
    /// stub for the recipe at the next day, marked as a leftover. Fails
    /// exactly when no recipe with that id exists, and then changes nothing.
    pub fn add_leftover_for(&mut self, date: u64, meal_id: u128) -> (r: Result<
        MealStub,
        StoreError,
    >)
        requires
            old(self).wf(),
            date < u64::MAX,
        ensures
            final(self).wf(),
            final(self).all_meals == old(self).all_meals,
            final(self).completed_meals == old(self).completed_meals,
            final(self).shopping_list == old(self).shopping_list,
            match r {
                Ok(stub) => {
                    &&& old(self).has_meal(meal_id)
                    &&& stub == (MealStub {
                        date: (date + 1) as u64,
                        id: meal_id,
                        leftovers: true,
                    })
                    &&& final(self).planned_view() =~~= view_add_stub(
                        old(self).planned_view(),
                        (date + 1) as u64,
                        stub,
                    )
                },
                Err(e) => {
                    &&& e == StoreError::MealNotFound
                    &&& !old(self).has_meal(meal_id)
                    &&& *final(self) == *old(self)
                },
            },
    {
        self.plan(date + 1, meal_id, true)
    }

    /// Shifts the whole calendar by one day: every day entry and every stub
    /// in it moves to the previous or the next day, with stub order and
    /// leftover flags preserved.
    pub fn move_all(&mut self, direction: Direction)
        requires
            old(self).wf(),
            direction == Direction::Forward ==> forall|i: int|
                0 <= i < old(self).planned_view().len()
                    ==> (#[trigger] old(self).planned_view()[i]).0 < u64::MAX,
            direction == Direction::Backward ==> forall|i: int|
                0 <= i < old(self).planned_view().len()
                    ==> (#[trigger] old(self).planned_view()[i]).0 > 0,
        ensures
            final(self).wf(),
            final(self).all_meals == old(self).all_meals,
            final(self).completed_meals == old(self).completed_meals,
            final(self).shopping_list == old(self).shopping_list,
            final(self).planned_view() =~~= shifted_days(old(self).planned_view(), direction),
    {
        let ghost old_view = self.planned_view();
        let n = self.planned_meals.len();
        let mut i: usize = 0;
        while i < n
            invariant
                old(self).wf(),
                old_view == old(self).planned_view(),
                self.all_meals == old(self).all_meals,
                self.completed_meals == old(self).completed_meals,
                self.shopping_list == old(self).shopping_list,
                direction == Direction::Forward ==> forall|j: int|
                    0 <= j < old_view.len() ==> (#[trigger] old_view[j]).0 < u64::MAX,
                direction == Direction::Backward ==> forall|j: int|
                    0 <= j < old_view.len() ==> (#[trigger] old_view[j]).0 > 0,
                n == self.planned_meals@.len(),
                n == old_view.len(),
                i <= n,
                forall|j: int|
                    0 <= j < i ==> #[trigger] self.planned_view()[j] == shifted_day(
                        old_view[j],
                        direction,
                    ),
                forall|j: int| i <= j < n ==> #[trigger] self.planned_view()[j] == old_view[j],
            decreases n - i,
        {
            let ghost start_view = self.planned_view();
            let d = self.planned_meals[i].date;
            proof {
                assert(self.planned_view()[i as int] == old_view[i as int]);
                assert(self.planned_view()[i as int].0 == d);
                assert forall|q: int| 0 <= q < old_view[i as int].1.len() implies (
                #[trigger] old_view[i as int].1[q]).date == old_view[i as int].0 by {
                    assert(old(self).planned_view()[i as int].1[q].date == old(
                        self,
                    ).planned_view()[i as int].0);
                }
            }
            let nd = match direction {
                Direction::Forward => d + 1,
                Direction::Backward => d - 1,
            };

            let sn = self.planned_meals[i].stubs.len();
            let mut new_stubs: Vec<MealStub> = Vec::new();
            let mut k: usize = 0;
            while k < sn
                invariant
                    direction == Direction::Forward ==> old_view[i as int].0 < u64::MAX,
                    direction == Direction::Backward ==> old_view[i as int].0 > 0,
                    forall|q: int|
                        0 <= q < old_view[i as int].1.len() ==> (
                        #[trigger] old_view[i as int].1[q]).date == old_view[i as int].0,
                    0 <= i < n,
                    n == old_view.len(),
                    k <= sn,
                    sn == old_view[i as int].1.len(),
                    self.planned_view() == start_view,
                    start_view[i as int] == old_view[i as int],
                    n == self.planned_meals@.len(),
                    new_stubs@.len() == k,
                    forall|q: int|
                        0 <= q < k ==> #[trigger] new_stubs@[q] == shifted_stub(
                            old_view[i as int].1[q],
                            direction,
                        ),
                decreases sn - k,
            {
                let s = self.planned_meals[i].stubs[k];
                proof {
                    assert(s == old_view[i as int].1[k as int]);
                    assert(s.date == old_view[i as int].0);
                }
                let sd = match direction {
                    Direction::Forward => s.date + 1,
                    Direction::Backward => s.date - 1,
                };
                new_stubs.push(MealStub { date: sd, id: s.id, leftovers: s.leftovers });
                k += 1;
            }

            proof {
                assert(new_stubs@ =~= old_view[i as int].1.map_values(
                    |s: MealStub| shifted_stub(s, direction),
                ));
            }
            self.planned_meals[i] = DayPlan { date: nd, stubs: new_stubs };
            proof {
                assert(self.planned_view()[i as int] == shifted_day(old_view[i as int], direction));
                assert forall|j: int| 0 <= j < n && j != i implies #[trigger] self.planned_view()[j]
                    == start_view[j] by {}
            }
            i += 1;
        }
        proof {
            assert(self.planned_view() =~~= shifted_days(old_view, direction));
            lemma_move_all_wf(*old(self), *self, direction);
        }
    }

    /// Removes a recipe with a full cascade: the recipe itself, every
    /// planned stub referencing it on every date (removing day entries this
    /// empties), and every reference to it in the stub lists the shopping
    /// lists were generated from. Completed meals and the shopping lists'
    /// items are untouched. Removing an unknown id leaves the recipes
    /// unchanged and still scrubs the (then absent) references.
    pub fn remove_meal(&mut self, id: u128)
        requires
            old(self).wf(),
        ensures
            final(self).wf(),
            final(self).completed_meals == old(self).completed_meals,
            !final(self).has_meal(id),
            forall|x: u128| x != id ==> (final(self).has_meal(x) <==> old(self).has_meal(x)),
            old(self).has_meal(id) ==> final(self).all_meals@ =~= old(self).all_meals@.remove(
                old(self).meal_index(id),
            ),
            !old(self).has_meal(id) ==> final(self).all_meals == old(self).all_meals,
            final(self).planned_view() =~~= view_remove_id_everywhere(
                old(self).planned_view(),
                id,
            ),
            forall|i: int, k: int|
                0 <= i < final(self).planned_view().len() && 0 <= k < final(self).planned_view()[i].1.len() ==> (#[trigger] final(self).planned_view()[i].1[k]).id != id,
            final(self).shopping_list@.len() == old(self).shopping_list@.len(),
            forall|i: int|
                0 <= i < final(self).shopping_list@.len() ==> (
                #[trigger] final(self).shopping_list@[i]).items == old(self).shopping_list@[i].items
                    && final(self).for_meals_view()[i] == old(self).for_meals_view()[i].filter(
                    keeps_other_ids(id),
                ),
            forall|i: int, k: int|
                0 <= i < final(self).for_meals_view().len() && 0 <= k < final(self).for_meals_view()[i].len() ==> (#[trigger] final(self).for_meals_view()[i][k]).id != id,
    {
        let ghost pre = *old(self);

        // The recipe itself: ids are unique, so at most one entry goes.
        match self.find_meal(id) {
            Some(j) => {
                proof {
                    let c = pre.meal_index(id);
                    assert(0 <= c < pre.all_meals@.len() && pre.all_meals@[c].id == id);
                    if c < j as int {
                        assert(pre.all_meals@[c].id != pre.all_meals@[j as int].id);
                    } else if (j as int) < c {
                        assert(pre.all_meals@[j as int].id != pre.all_meals@[c].id);
                    }
                    assert(c == j as int);
                }
                self.all_meals.remove(j);
            },
            None => {},
        }
        proof {
            lemma_meal_ids_after_removal(pre, *self, id);
        }
        let ghost mid1 = *self;

        // The calendar: drop every stub with the id, and every day entry
        // that this empties.
        let ghost old_days = self.planned_meals@;
        let mut new_days: Vec<DayPlan> = Vec::new();
        let n = self.planned_meals.len();
        let mut i: usize = 0;
        while i < n
            invariant
                *self == mid1,
                n == self.planned_meals@.len(),
                old_days == self.planned_meals@,
                i <= n,
                new_days@.map_values(|d: DayPlan| (d.date, d.stubs@)) =~~= view_remove_id_everywhere(
                    old_days.map_values(|d: DayPlan| (d.date, d.stubs@)).subrange(0, i as int),
                    id,
                ),
            decreases n - i,
        {
            let ghost old_view = old_days.map_values(|d: DayPlan| (d.date, d.stubs@));
            let date = self.planned_meals[i].date;
            let filtered = stubs_without(&self.planned_meals[i].stubs, id);
            proof {
                let mapper = |e: (u64, Seq<MealStub>)| (e.0, e.1.filter(keeps_other_ids(id)));
                let keeper = |e: (u64, Seq<MealStub>)| e.1.len() > 0;
                let prefix = old_view.subrange(0, i as int);
                let prefix1 = old_view.subrange(0, i as int + 1);
                assert(prefix1 =~= prefix.push(old_view[i as int]));
                assert(prefix1.map_values(mapper) =~= prefix.map_values(mapper).push(
                    mapper(old_view[i as int]),
                ));
                lemma_filter_push(prefix.map_values(mapper), mapper(old_view[i as int]), keeper);
                assert(mapper(old_view[i as int]) == (date, filtered@));
            }
            if filtered.len() > 0 {
                new_days.push(DayPlan { date, stubs: filtered });
            }
            i += 1;
        }
        proof {
            let old_view = old_days.map_values(|d: DayPlan| (d.date, d.stubs@));
            assert(old_view.subrange(0, n as int) =~= old_view);
        }
        self.planned_meals = new_days;
        let ghost mid2 = *self;

        // The shopping lists: scrub the id from every list's source stubs.
        let ghost old_lists = self.shopping_list@;
        let sn = self.shopping_list.len();
        let mut t: usize = 0;
        while t < sn
            invariant
                self.all_meals == mid2.all_meals,
                self.completed_meals == mid2.completed_meals,
                self.planned_meals == mid2.planned_meals,
                sn == self.shopping_list@.len(),
                sn == old_lists.len(),
                t <= sn,
                forall|j: int|
                    0 <= j < t ==> (#[trigger] self.shopping_list@[j]).items == old_lists[j].items
                        && self.shopping_list@[j].for_meals@ == old_lists[j].for_meals@.filter(
                        keeps_other_ids(id),
                    ),
                forall|j: int| t <= j < sn ==> #[trigger] self.shopping_list@[j] == old_lists[j],
            decreases sn - t,
        {
            let scrubbed = stubs_without(&self.shopping_list[t].for_meals, id);
            self.shopping_list[t].for_meals = scrubbed;
            t += 1;
        }

        proof {
            assert(self.all_meals == mid1.all_meals);
            assert(self.meals_wf() && !self.has_meal(id)) by {
                assert(self.meal_ids() == mid1.meal_ids());
            }
            assert forall|x: u128| x != id implies (self.has_meal(x) <==> pre.has_meal(x)) by {
                assert(self.meal_ids() == mid1.meal_ids());
            }
            assert(self.planned_view() == mid2.planned_view());
            lemma_remove_meal_wf(pre, *self, id);
        }
    }

    /// The index of the completed-meals entry for `date`, if one exists.
    fn find_completed(&self, date: u64) -> (r: Option<usize>)
        ensures
            match r {
                Some(i) => i < self.completed_meals@.len() && self.completed_meals@[i as int].date
                    == date,
                None => !key_has(self.completed_view(), date),
            },
    {
        let n = self.completed_meals.len();
        let mut i: usize = 0;
        while i < n
            invariant
                n == self.completed_meals@.len(),
                i <= n,
                forall|j: int| 0 <= j < i ==> self.completed_view()[j].0 != date,
            decreases n - i,
        {
            if self.completed_meals[i].date == date {
                assert(self.completed_view()[i as int].0 == date);
                return Some(i);
            }
            assert(self.completed_view()[i as int].0 == self.completed_meals@[i as int].date);
            i += 1;
        }
        None
    }
}

/// Removing at most the one recipe entry carrying a given id removes that
/// id from the known recipes and keeps every other id, and the recipe ids
/// stay unique.
proof fn lemma_meal_ids_after_removal(pre: MealPlan, post: MealPlan, id: u128)
    requires
        pre.meals_wf(),
        pre.has_meal(id) ==> post.all_meals@ =~= pre.all_meals@.remove(pre.meal_index(id)),
        !pre.has_meal(id) ==> post.all_meals == pre.all_meals,
    ensures
        post.meals_wf(),
        !post.has_meal(id),
        forall|x: u128| x != id ==> (post.has_meal(x) <==> pre.has_meal(x)),
{
    if !pre.has_meal(id) {
        assert(post.meal_ids() == pre.meal_ids());
        assert(!post.has_meal(id));
    } else {
        let j = pre.meal_index(id);
        assert(0 <= j < pre.all_meals@.len() && pre.all_meals@[j].id == id) by {
            let w = choose|w: int| 0 <= w < pre.meal_ids().len() && pre.meal_ids()[w] == id;
            assert(pre.all_meals@[w].id == id);
        }
        assert forall|t: int| 0 <= t < post.all_meals@.len() implies #[trigger] post.all_meals@[t]
            == if t < j {
            pre.all_meals@[t]
        } else {
            pre.all_meals@[t + 1]
        } by {}
        assert(post.meals_wf()) by {
            assert forall|a: int, b: int| 0 <= a < b < post.all_meals@.len() implies #[trigger] post
                .all_meals@[a].id != #[trigger] post.all_meals@[b].id by {
                let a2: int = if a < j { a } else { a + 1 };
                let b2: int = if b < j { b } else { b + 1 };
                assert(pre.all_meals@[a2].id != pre.all_meals@[b2].id);
            }
        }
        assert(!post.has_meal(id)) by {
            assert forall|t: int| 0 <= t < post.meal_ids().len() implies post.meal_ids()[t]
                != id by {
                let t2: int = if t < j { t } else { t + 1 };
                assert(post.meal_ids()[t] == pre.all_meals@[t2].id);
                if t2 < j {
                    assert(pre.all_meals@[t2].id != pre.all_meals@[j].id);
                } else {
                    assert(pre.all_meals@[j].id != pre.all_meals@[t2].id);
                }
            }
        }
        assert forall|x: u128| x != id implies (post.has_meal(x) <==> pre.has_meal(x)) by {
            if pre.has_meal(x) {
                let a = choose|a: int| 0 <= a < pre.meal_ids().len() && pre.meal_ids()[a] == x;
                assert(pre.all_meals@[a].id == x);
                let t: int = if a < j { a } else { a - 1 };
                assert(a != j);
                assert(post.meal_ids()[t] == x);
            }
            if post.has_meal(x) {
                let t = choose|t: int| 0 <= t < post.meal_ids().len() && post.meal_ids()[t] == x;
                let t2: int = if t < j { t } else { t + 1 };
                assert(pre.meal_ids()[t2] == x);
            }
        }
    }
}

/// After the full cascade — the recipe gone, its stubs scrubbed from the
/// calendar and from the shopping lists' sources — the plan is well formed
/// and holds no reference to the removed id.
proof fn lemma_remove_meal_wf(pre: MealPlan, post: MealPlan, id: u128)
    requires
        pre.wf(),
        post.meals_wf(),
        !post.has_meal(id),
        forall|x: u128| x != id ==> (post.has_meal(x) <==> pre.has_meal(x)),
        post.completed_meals == pre.completed_meals,
        post.planned_view() =~~= view_remove_id_everywhere(pre.planned_view(), id),
        post.shopping_list@.len() == pre.shopping_list@.len(),
        forall|j: int|
            0 <= j < post.shopping_list@.len() ==> (#[trigger] post.shopping_list@[j]).for_meals@
                == pre.shopping_list@[j].for_meals@.filter(keeps_other_ids(id)),
    ensures
        post.wf(),
        forall|i: int, k: int|
            0 <= i < post.planned_view().len() && 0 <= k < post.planned_view()[i].1.len() ==> (
            #[trigger] post.planned_view()[i].1[k]).id != id,
        forall|i: int, k: int|
            0 <= i < post.for_meals_view().len() && 0 <= k < post.for_meals_view()[i].len() ==> (
            #[trigger] post.for_meals_view()[i][k]).id != id,
{
    let mapper = |e: (u64, Seq<MealStub>)| (e.0, e.1.filter(keeps_other_ids(id)));
    let keeper = |e: (u64, Seq<MealStub>)| e.1.len() > 0;
    let prev = pre.planned_view();
    let mapped = prev.map_values(mapper);
    let postv = post.planned_view();

    assert(post.completed_view() == pre.completed_view());

    assert(keys_unique(mapped)) by {
        assert forall|a: int, b: int| 0 <= a < b < mapped.len() implies #[trigger] mapped[a].0
            != #[trigger] mapped[b].0 by {
            assert(prev[a].0 != prev[b].0);
        }
    }
    lemma_filter_keys_unique(mapped, keeper);
    lemma_filter_subset(mapped, keeper);
    mapped.filter_lemma(keeper);

    assert(post.planned_wf() && forall|i: int, k: int|
        0 <= i < post.planned_view().len() && 0 <= k < post.planned_view()[i].1.len() ==> (
        #[trigger] post.planned_view()[i].1[k]).id != id) by {
        assert forall|i: int, k: int|
            0 <= i < postv.len() && 0 <= k < (#[trigger] postv[i]).1.len() implies (
        #[trigger] postv[i].1[k]).date == postv[i].0 && post.has_meal(postv[i].1[k].id)
            && postv[i].1[k].id != id by {
            assert(mapped.contains(postv[i]));
            let a = choose|a: int| 0 <= a < mapped.len() && mapped[a] == postv[i];
            assert(postv[i] == (prev[a].0, prev[a].1.filter(keeps_other_ids(id))));
            lemma_filter_subset(prev[a].1, keeps_other_ids(id));
            prev[a].1.filter_lemma(keeps_other_ids(id));
            assert(prev[a].1.contains(postv[i].1[k]));
            let m = choose|m: int| 0 <= m < prev[a].1.len() && prev[a].1[m] == postv[i].1[k];
            assert(prev[a].1[m].date == prev[a].0);
            assert(pre.has_meal(prev[a].1[m].id));
            assert(keeps_other_ids(id)(postv[i].1[k]));
        }
        assert forall|i: int| 0 <= i < postv.len() implies (#[trigger] postv[i]).1.len() > 0 by {
            assert(keeper(postv[i]));
        }
    }

    assert(post.shopping_wf() && forall|i: int, k: int|
        0 <= i < post.for_meals_view().len() && 0 <= k < post.for_meals_view()[i].len() ==> (
        #[trigger] post.for_meals_view()[i][k]).id != id) by {
        assert forall|i: int, k: int|
            0 <= i < post.for_meals_view().len() && 0 <= k < (
            #[trigger] post.for_meals_view()[i]).len() implies post.has_meal(
            (#[trigger] post.for_meals_view()[i][k]).id,
        ) && post.for_meals_view()[i][k].id != id by {
            let source = pre.shopping_list@[i].for_meals@;
            assert(post.for_meals_view()[i] == source.filter(keeps_other_ids(id)));
            lemma_filter_subset(source, keeps_other_ids(id));
            source.filter_lemma(keeps_other_ids(id));
            assert(source.contains(post.for_meals_view()[i][k]));
            let m = choose|m: int| 0 <= m < source.len() && source[m] == post.for_meals_view()[i][k];
            assert(pre.has_meal(pre.for_meals_view()[i][m].id));
            assert(keeps_other_ids(id)(post.for_meals_view()[i][k]));
        }
    }
}

/// Shifting the whole calendar by one day, within the date range, keeps the
/// plan well formed.
proof fn lemma_move_all_wf(pre: MealPlan, post: MealPlan, direction: Direction)
    requires
        pre.wf(),
        direction == Direction::Forward ==> forall|i: int|
            0 <= i < pre.planned_view().len() ==> (#[trigger] pre.planned_view()[i]).0 < u64::MAX,
        direction == Direction::Backward ==> forall|i: int|
            0 <= i < pre.planned_view().len() ==> (#[trigger] pre.planned_view()[i]).0 > 0,
        post.planned_view() =~~= shifted_days(pre.planned_view(), direction),
        post.all_meals == pre.all_meals,
        post.completed_meals == pre.completed_meals,
        post.shopping_list == pre.shopping_list,
    ensures
        post.wf(),
{
    let prev = pre.planned_view();
    let postv = post.planned_view();
    assert(post.meal_ids() == pre.meal_ids());
    assert(keys_unique(postv)) by {
        assert forall|i: int, j: int| 0 <= i < j < postv.len() implies #[trigger] postv[i].0
            != #[trigger] postv[j].0 by {
            assert(prev[i].0 != prev[j].0);
            assert(postv[i].0 == shifted_date(prev[i].0, direction));
            assert(postv[j].0 == shifted_date(prev[j].0, direction));
        }
    }
    assert(post.planned_wf()) by {
        assert forall|i: int, m: int|
            0 <= i < postv.len() && 0 <= m < (#[trigger] postv[i]).1.len() implies (
        #[trigger] postv[i].1[m]).date == postv[i].0 && post.has_meal(postv[i].1[m].id) by {
            assert(postv[i].1[m] == shifted_stub(prev[i].1[m], direction));
            assert(prev[i].1[m].date == prev[i].0);
            assert(pre.has_meal(prev[i].1[m].id));
        }
    }
    lemma_rest_wf(pre, post);
}

/// A plan whose calendar is well formed is well formed outright when its
/// recipes, completed meals and shopping lists are those of a well-formed
/// plan with the same recipes.
proof fn lemma_rest_wf(pre: MealPlan, post: MealPlan)
    requires
        pre.wf(),
        post.planned_wf(),
        post.all_meals == pre.all_meals,
        post.completed_meals == pre.completed_meals,
        post.shopping_list == pre.shopping_list,
    ensures
        post.wf(),
{
    assert(post.meal_ids() == pre.meal_ids());
    assert(post.completed_view() == pre.completed_view());
    assert(post.for_meals_view() == pre.for_meals_view());
    assert(post.meals_wf()) by {
        assert(post.all_meals@ == pre.all_meals@);
    }
    assert(post.shopping_wf()) by {
        assert forall|i: int, k: int|
            0 <= i < post.for_meals_view().len() && 0 <= k < (
            #[trigger] post.for_meals_view()[i]).len() implies post.has_meal(
            (#[trigger] post.for_meals_view()[i][k]).id,
        ) by {
            assert(pre.has_meal(pre.for_meals_view()[i][k].id));
        }
    }
}

/// Appending a completed-meals entry for a date that had none keeps the
/// plan well formed when nothing else changed.
proof fn lemma_completed_push_wf(pre: MealPlan, post: MealPlan, date: u64, id: u128)
    requires
        pre.wf(),
        !key_has(pre.completed_view(), date),
        post.completed_view() =~~= pre.completed_view().push((date, seq![id])),
        post.all_meals == pre.all_meals,
        post.planned_meals == pre.planned_meals,
        post.shopping_list == pre.shopping_list,
    ensures
        post.wf(),
{
    assert(post.meal_ids() == pre.meal_ids());
    assert(post.planned_view() == pre.planned_view());
    assert(post.for_meals_view() == pre.for_meals_view());
    assert(keys_unique(post.completed_view())) by {
        let postv = post.completed_view();
        let prev = pre.completed_view();
        assert forall|a: int, b: int| 0 <= a < b < postv.len() implies #[trigger] postv[a].0
            != #[trigger] postv[b].0 by {
            if b == postv.len() - 1 {
                if postv[a].0 == date {
                    assert(prev[a].0 == date);
                    assert(key_has(prev, date));
                }
            } else {
                assert(prev[a].0 != prev[b].0);
            }
        }
    }
    assert(post.planned_wf()) by {
        assert forall|i: int, m: int|
            0 <= i < post.planned_view().len() && 0 <= m < (
            #[trigger] post.planned_view()[i]).1.len() implies (
        #[trigger] post.planned_view()[i].1[m]).date == post.planned_view()[i].0 && post.has_meal(
            post.planned_view()[i].1[m].id,
        ) by {
            assert(pre.has_meal(pre.planned_view()[i].1[m].id));
        }
    }
    assert(post.shopping_wf()) by {
        assert forall|i: int, k: int|
            0 <= i < post.for_meals_view().len() && 0 <= k < (
            #[trigger] post.for_meals_view()[i]).len() implies post.has_meal(
            (#[trigger] post.for_meals_view()[i][k]).id,
        ) by {
            assert(pre.has_meal(pre.for_meals_view()[i][k].id));
        }
    }
}

/// Updating one completed-meals entry without changing its date keeps the
/// plan well formed when nothing else changed.
proof fn lemma_completed_same_keys_wf(pre: MealPlan, post: MealPlan)
    requires
        pre.wf(),
        post.completed_view().len() == pre.completed_view().len(),
        forall|i: int|
            0 <= i < post.completed_view().len() ==> (#[trigger] post.completed_view()[i]).0
                == pre.completed_view()[i].0,
        post.all_meals == pre.all_meals,
        post.planned_meals == pre.planned_meals,
        post.shopping_list == pre.shopping_list,
    ensures
        post.wf(),
{
    assert(post.meal_ids() == pre.meal_ids());
    assert(post.planned_view() == pre.planned_view());
    assert(post.for_meals_view() == pre.for_meals_view());
    assert(keys_unique(post.completed_view())) by {
        assert forall|i: int, j: int| 0 <= i < j < post.completed_view().len() implies #[trigger] post
            .completed_view()[i].0 != #[trigger] post.completed_view()[j].0 by {
            assert(pre.completed_view()[i].0 != pre.completed_view()[j].0);
        }
    }
}

/// Replacing one stub of a day entry by a stub for the same date and an
/// existing recipe keeps the calendar well formed.
proof fn lemma_planned_stub_update_wf(pre: MealPlan, post: MealPlan, k: int, m: int, stub: MealStub)
    requires
        pre.wf(),
        0 <= k < pre.planned_view().len(),
        0 <= m < pre.planned_view()[k].1.len(),
        stub.date == pre.planned_view()[k].0,
        pre.has_meal(stub.id),
        post.planned_view() =~~= pre.planned_view().update(
            k,
            (pre.planned_view()[k].0, pre.planned_view()[k].1.update(m, stub)),
        ),
        post.all_meals == pre.all_meals,
        post.completed_meals == pre.completed_meals,
        post.shopping_list == pre.shopping_list,
    ensures
        post.wf(),
{
    assert(post.meal_ids() == pre.meal_ids());
    assert(post.completed_view() == pre.completed_view());
    assert(post.for_meals_view() == pre.for_meals_view());
    assert(keys_unique(post.planned_view())) by {
        assert forall|i: int, j: int| 0 <= i < j < post.planned_view().len() implies #[trigger] post
            .planned_view()[i].0 != #[trigger] post.planned_view()[j].0 by {
            assert(post.planned_view()[i].0 == pre.planned_view()[i].0);
            assert(post.planned_view()[j].0 == pre.planned_view()[j].0);
        }
    }
    assert forall|i: int, n: int|
        0 <= i < post.planned_view().len() && 0 <= n < (
        #[trigger] post.planned_view()[i]).1.len() implies (
    #[trigger] post.planned_view()[i].1[n]).date == post.planned_view()[i].0 && post.has_meal(
        post.planned_view()[i].1[n].id,
    ) by {
        if i == k {
            if n != m {
                assert(post.planned_view()[k].1[n] == pre.planned_view()[k].1[n]);
            } else {
                assert(post.planned_view()[k].1[n] == stub);
            }
        } else {
            assert(post.planned_view()[i] == pre.planned_view()[i]);
        }
    }
}

/// Filtering keeps a sequence unchanged when every element satisfies the
/// predicate.
pub proof fn lemma_filter_all_true<A>(s: Seq<A>, pred: spec_fn(A) -> bool)
    requires
        forall|i: int| 0 <= i < s.len() ==> pred(#[trigger] s[i]),
    ensures
        s.filter(pred) == s,
    decreases s.len(),
{
    reveal(Seq::filter);
    if s.len() > 0 {
        assert forall|i: int| 0 <= i < s.drop_last().len() implies pred(
            #[trigger] s.drop_last()[i],
        ) by {
            assert(pred(s[i]));
        }
        lemma_filter_all_true(s.drop_last(), pred);
        assert(pred(s.last()));
        assert(s.filter(pred) =~= s);
    }
}

/// What adding a stub does to the calendar view, date by date: the given
/// date's stub list gains the stub at its end (starting from an empty list
/// when the date had no entry), every other date is untouched, and dates
/// stay unique.
pub proof fn lemma_add_stub_effect(days: Seq<(u64, Seq<MealStub>)>, date: u64, stub: MealStub)
    requires
        keys_unique(days),
    ensures
        keys_unique(view_add_stub(days, date, stub)),
        key_has(view_add_stub(days, date, stub), date),
        key_get(view_add_stub(days, date, stub), date) == (if key_has(days, date) {
            key_get(days, date)
        } else {
            Seq::<MealStub>::empty()
        }).push(stub),
        forall|d: u64|
            d != date ==> ((#[trigger] key_has(view_add_stub(days, date, stub), d)) <==> key_has(
                days,
                d,
            )),
        forall|d: u64|
            d != date && key_has(days, d) ==> #[trigger] key_get(view_add_stub(days, date, stub), d)
                == key_get(days, d),
{
    let va = view_add_stub(days, date, stub);
    if key_has(days, date) {
        let k = key_index(days, date);
        assert(0 <= k < days.len() && days[k].0 == date);
        assert(keys_unique(va)) by {
            assert forall|a: int, b: int| 0 <= a < b < va.len() implies #[trigger] va[a].0
                != #[trigger] va[b].0 by {
                assert(va[a].0 == days[a].0 && va[b].0 == days[b].0);
            }
        }
        lemma_key_unique_index(va, date, k);
        assert forall|d: u64| d != date implies ((#[trigger] key_has(va, d)) <==> key_has(
            days,
            d,
        )) by {
            if key_has(days, d) {
                let i = key_index(days, d);
                assert(days[i].0 == d && i != k);
                assert(va[i].0 == d);
            }
            if key_has(va, d) {
                let i = choose|i: int| 0 <= i < va.len() && va[i].0 == d;
                assert(days[i].0 == d);
            }
        }
        assert forall|d: u64| d != date && key_has(days, d) implies #[trigger] key_get(va, d)
            == key_get(days, d) by {
            let i = key_index(days, d);
            assert(0 <= i < days.len() && days[i].0 == d);
            assert(i != k);
            assert(va[i] == days[i]);
            lemma_key_unique_index(va, d, i);
            lemma_key_unique_index(days, d, i);
        }
    } else {
        let n = days.len() as int;
        assert(va[n] == (date, seq![stub]));
        assert(keys_unique(va)) by {
            assert forall|a: int, b: int| 0 <= a < b < va.len() implies #[trigger] va[a].0
                != #[trigger] va[b].0 by {
                if b == n {
                    if va[a].0 == date {
                        assert(days[a].0 == date);
                        assert(key_has(days, date));
                    }
                } else {
                    assert(days[a].0 != days[b].0);
                }
            }
        }
        lemma_key_unique_index(va, date, n);
        assert(key_get(va, date) =~= Seq::<MealStub>::empty().push(stub));
        assert forall|d: u64| d != date implies ((#[trigger] key_has(va, d)) <==> key_has(
            days,
            d,
        )) by {
            if key_has(days, d) {
                let i = key_index(days, d);
                assert(va[i].0 == d);
            }
            if key_has(va, d) {
                let i = choose|i: int| 0 <= i < va.len() && va[i].0 == d;
                assert(i != n);
                assert(days[i].0 == d);
            }
        }
        assert forall|d: u64| d != date && key_has(days, d) implies #[trigger] key_get(va, d)
            == key_get(days, d) by {
            let i = key_index(days, d);
            assert(0 <= i < days.len() && days[i].0 == d);
            assert(va[i] == days[i]);
            lemma_key_unique_index(va, d, i);
            lemma_key_unique_index(days, d, i);
        }
    }
}

/// What removing a recipe's stubs at one date does to the calendar view,
/// date by date: the date's stub list loses exactly the stubs with the id
/// (the whole entry going away when none are left), every other date is
/// untouched, and dates stay unique.
pub proof fn lemma_remove_id_effect(days: Seq<(u64, Seq<MealStub>)>, date: u64, id: u128)
    requires
        keys_unique(days),
        key_has(days, date),
    ensures
        keys_unique(view_remove_id_at(days, date, id)),
        ({
            let filtered = key_get(days, date).filter(keeps_other_ids(id));
            &&& (filtered.len() > 0 ==> key_has(view_remove_id_at(days, date, id), date)
                && key_get(view_remove_id_at(days, date, id), date) == filtered)
            &&& (filtered.len() == 0 ==> !key_has(view_remove_id_at(days, date, id), date))
        }),
        forall|d: u64|
            d != date ==> ((#[trigger] key_has(view_remove_id_at(days, date, id), d)) <==> key_has(
                days,
                d,
            )),
        forall|d: u64|
            d != date && key_has(days, d) ==> #[trigger] key_get(
                view_remove_id_at(days, date, id),
                d,
            ) == key_get(days, d),
{
    let vr = view_remove_id_at(days, date, id);
    let k = key_index(days, date);
    assert(0 <= k < days.len() && days[k].0 == date);
    let filtered = days[k].1.filter(keeps_other_ids(id));
    assert(key_get(days, date) == days[k].1);
    if filtered.len() > 0 {
        assert(vr == days.update(k, (days[k].0, filtered)));
        assert(keys_unique(vr)) by {
            assert forall|a: int, b: int| 0 <= a < b < vr.len() implies #[trigger] vr[a].0
                != #[trigger] vr[b].0 by {
                assert(vr[a].0 == days[a].0 && vr[b].0 == days[b].0);
            }
        }
        lemma_key_unique_index(vr, date, k);
        assert forall|d: u64| d != date implies ((#[trigger] key_has(vr, d)) <==> key_has(
            days,
            d,
        )) by {
            if key_has(days, d) {
                let i = key_index(days, d);
                assert(i != k);
                assert(vr[i].0 == d);
            }
            if key_has(vr, d) {
                let i = choose|i: int| 0 <= i < vr.len() && vr[i].0 == d;
                assert(days[i].0 == d);
            }
        }
        assert forall|d: u64| d != date && key_has(days, d) implies #[trigger] key_get(vr, d)
            == key_get(days, d) by {
            let i = key_index(days, d);
            assert(i != k);
            assert(vr[i] == days[i]);
            lemma_key_unique_index(vr, d, i);
            lemma_key_unique_index(days, d, i);
        }
    } else {
        assert(vr == days.remove(k));
        assert forall|i: int| 0 <= i < vr.len() implies #[trigger] vr[i] == if i < k {
            days[i]
        } else {
            days[i + 1]
        } by {}
        assert(keys_unique(vr)) by {
            assert forall|a: int, b: int| 0 <= a < b < vr.len() implies #[trigger] vr[a].0
                != #[trigger] vr[b].0 by {
                let a2: int = if a < k { a } else { a + 1 };
                let b2: int = if b < k { b } else { b + 1 };
                assert(days[a2].0 != days[b2].0);
            }
        }
        assert(!key_has(vr, date)) by {
            assert forall|i: int| 0 <= i < vr.len() implies vr[i].0 != date by {
                let i2: int = if i < k { i } else { i + 1 };
                assert(vr[i].0 == days[i2].0);
                if i2 < k {
                    assert(days[i2].0 != days[k].0);
                } else {
                    assert(days[k].0 != days[i2].0);
                }
            }
        }
        assert forall|d: u64| d != date implies ((#[trigger] key_has(vr, d)) <==> key_has(
            days,
            d,
        )) by {
            if key_has(days, d) {
                let i = key_index(days, d);
                assert(i != k);
                let t: int = if i < k { i } else { i - 1 };
                assert(vr[t].0 == d);
            }
            if key_has(vr, d) {
                let t = choose|t: int| 0 <= t < vr.len() && vr[t].0 == d;
                let i2: int = if t < k { t } else { t + 1 };
                assert(days[i2].0 == d);
            }
        }
        assert forall|d: u64| d != date && key_has(days, d) implies #[trigger] key_get(vr, d)
            == key_get(days, d) by {
            let i = key_index(days, d);
            assert(i != k);
            let t: int = if i < k { i } else { i - 1 };
            assert(vr[t] == days[i]);
            lemma_key_unique_index(vr, d, t);
            lemma_key_unique_index(days, d, i);
        }
    }
}

/// Moving a meal forward one day and then moving it back is idempotent:
/// the stub returns to its original date with its leftover flag unchanged
/// (re-appended at the end of that date's stub list), the next day's stub
/// list is exactly what it was, and every other date's stub list is
/// untouched. `view_add_stub` and `view_remove_id_at` are precisely what the
/// two `move_meal` calls do to the calendar, with `fwd` and `back` the stubs
/// they plant.
pub proof fn lemma_move_roundtrip(days: Seq<(u64, Seq<MealStub>)>, date: u64, id: u128)
    requires
        keys_unique(days),
        forall|i: int| 0 <= i < days.len() ==> (#[trigger] days[i]).1.len() > 0,
        date < u64::MAX,
        key_has(days, date),
        has_id(key_get(days, date), id),
        key_has(days, (date + 1) as u64) ==> !has_id(key_get(days, (date + 1) as u64), id),
    ensures
        ({
            let next = (date + 1) as u64;
            let stubs = key_get(days, date);
            let s = stubs[first_with_id(stubs, id)];
            let fwd = MealStub { date: next, id, leftovers: s.leftovers };
            let back = MealStub { date, id, leftovers: s.leftovers };
            let there = view_add_stub(view_remove_id_at(days, date, id), next, fwd);
            let and_back = view_add_stub(view_remove_id_at(there, next, id), date, back);
            &&& keys_unique(and_back)
            &&& key_has(and_back, date)
            &&& key_get(and_back, date) == stubs.filter(keeps_other_ids(id)).push(back)
            &&& (key_has(days, next) <==> key_has(and_back, next))
            &&& (key_has(days, next) ==> key_get(and_back, next) == key_get(days, next))
            &&& forall|d: u64|
                d != date && d != next ==> ((#[trigger] key_has(and_back, d)) <==> key_has(
                    days,
                    d,
                )) && (key_has(days, d) ==> key_get(and_back, d) == key_get(days, d))
        }),
{
    let next = (date + 1) as u64;
    let stubs = key_get(days, date);
    let m = first_with_id(stubs, id);
    let s = stubs[m];
    let fwd = MealStub { date: next, id, leftovers: s.leftovers };
    let back = MealStub { date, id, leftovers: s.leftovers };
    let filtered = stubs.filter(keeps_other_ids(id));

    // The stubs the next day held beforehand (empty when it had no entry);
    // none of them references the id.
    let others = if key_has(days, next) {
        key_get(days, next)
    } else {
        Seq::<MealStub>::empty()
    };
    assert(forall|i: int| 0 <= i < others.len() ==> keeps_other_ids(id)((#[trigger] others[i])));

    // Step one: the id's stubs leave the original date.
    let gone = view_remove_id_at(days, date, id);
    lemma_remove_id_effect(days, date, id);
    assert(key_has(days, next) ==> key_has(gone, next) && key_get(gone, next) == others);
    assert(!key_has(days, next) ==> !key_has(gone, next));

    // Step two: the moved stub lands on the next day.
    let there = view_add_stub(gone, next, fwd);
    lemma_add_stub_effect(gone, next, fwd);
    assert(key_get(there, next) == others.push(fwd));
    assert(filtered.len() > 0 ==> key_has(there, date) && key_get(there, date) == filtered);
    assert(filtered.len() == 0 ==> !key_has(there, date));

    // Step three: the id's stubs leave the next day again — that is exactly
    // the moved stub, the day's other stubs surviving unchanged.
    let gone2 = view_remove_id_at(there, next, id);
    lemma_remove_id_effect(there, next, id);
    assert(key_get(there, next).filter(keeps_other_ids(id)) == others) by {
        lemma_filter_push(others, fwd, keeps_other_ids(id));
        lemma_filter_all_true(others, keeps_other_ids(id));
    }
    assert(others.len() > 0 ==> key_has(gone2, next) && key_get(gone2, next) == others);
    assert(others.len() == 0 ==> !key_has(gone2, next));
    assert(filtered.len() > 0 ==> key_has(gone2, date) && key_get(gone2, date) == filtered);
    assert(filtered.len() == 0 ==> !key_has(gone2, date));

    // Step four: the stub comes home.
    let and_back = view_add_stub(gone2, date, back);
    lemma_add_stub_effect(gone2, date, back);
    assert(key_get(and_back, date) == filtered.push(back)) by {
        if filtered.len() == 0 {
            assert(Seq::<MealStub>::empty().push(back) =~= filtered.push(back));
        }
    }
    assert(key_has(days, next) <==> others.len() > 0) by {
        if key_has(days, next) {
            let i = key_index(days, next);
            assert(0 <= i < days.len() && days[i].0 == next);
            assert(days[i].1.len() > 0);
        }
    }
    assert(key_has(days, next) ==> key_has(and_back, next) && key_get(and_back, next) == others);
    assert forall|d: u64| d != date && d != next implies ((#[trigger] key_has(and_back, d))
        <==> key_has(days, d)) && (key_has(days, d) ==> key_get(and_back, d) == key_get(
        days,
        d,
    )) by {
        assert(key_has(gone, d) <==> key_has(days, d));
        assert(key_has(there, d) <==> key_has(gone, d));
        assert(key_has(gone2, d) <==> key_has(there, d));
        assert(key_has(and_back, d) <==> key_has(gone2, d));
        if key_has(days, d) {
            assert(key_get(gone, d) == key_get(days, d));
            assert(key_get(there, d) == key_get(gone, d));
            assert(key_get(gone2, d) == key_get(there, d));
            assert(key_get(and_back, d) == key_get(gone2, d));
        }
    }
}

/// With unique dates, an entry's index is the chosen index for its date.
pub proof fn lemma_key_unique_index<T>(entries: Seq<(u64, T)>, date: u64, i: int)
    requires
        keys_unique(entries),
        0 <= i < entries.len(),
        entries[i].0 == date,
    ensures
        key_has(entries, date),
        key_index(entries, date) == i,
        key_get(entries, date) == entries[i].1,
{
    let j = key_index(entries, date);
    assert(0 <= j < entries.len() && entries[j].0 == date);
    if i < j {
        assert(entries[i].0 != entries[j].0);
    } else if j < i {
        assert(entries[j].0 != entries[i].0);
    }
}

/// Replacing one day entry's stubs by a nonempty selection of them keeps
/// the calendar well formed.
proof fn lemma_planned_subset_update_wf(pre: MealPlan, post: MealPlan, k: int, stubs2: Seq<MealStub>)
    requires
        pre.wf(),
        0 <= k < pre.planned_view().len(),
        stubs2.len() > 0,
        forall|m: int| 0 <= m < stubs2.len() ==> pre.planned_view()[k].1.contains(#[trigger] stubs2[m]),
        post.planned_view() =~~= pre.planned_view().update(k, (pre.planned_view()[k].0, stubs2)),
        post.all_meals == pre.all_meals,
    ensures
        post.planned_wf(),
{
    assert(post.meal_ids() == pre.meal_ids());
    assert(keys_unique(post.planned_view())) by {
        assert forall|i: int, j: int| 0 <= i < j < post.planned_view().len() implies #[trigger] post
            .planned_view()[i].0 != #[trigger] post.planned_view()[j].0 by {
            assert(post.planned_view()[i].0 == pre.planned_view()[i].0);
            assert(post.planned_view()[j].0 == pre.planned_view()[j].0);
        }
    }
    assert forall|i: int, m: int|
        0 <= i < post.planned_view().len() && 0 <= m < (
        #[trigger] post.planned_view()[i]).1.len() implies (
    #[trigger] post.planned_view()[i].1[m]).date == post.planned_view()[i].0 && post.has_meal(
        post.planned_view()[i].1[m].id,
    ) by {
        if i == k {
            assert(pre.planned_view()[k].1.contains(stubs2[m]));
            let j = choose|j: int|
                0 <= j < pre.planned_view()[k].1.len() && pre.planned_view()[k].1[j] == stubs2[m];
            assert(pre.planned_view()[k].1[j].date == pre.planned_view()[k].0);
        } else {
            assert(post.planned_view()[i] == pre.planned_view()[i]);
        }
    }
}

/// Removing one day entry keeps the calendar well formed, and its date is
/// gone from the calendar afterwards.
proof fn lemma_planned_remove_wf(pre: MealPlan, post: MealPlan, k: int)
    requires
        pre.wf(),
        0 <= k < pre.planned_view().len(),
        post.planned_view() =~~= pre.planned_view().remove(k),
        post.all_meals == pre.all_meals,
    ensures
        post.planned_wf(),
        !key_has(post.planned_view(), pre.planned_view()[k].0),
{
    let prev = pre.planned_view();
    let postv = post.planned_view();
    assert(post.meal_ids() == pre.meal_ids());
    assert forall|i: int| 0 <= i < postv.len() implies #[trigger] postv[i] == if i < k {
        prev[i]
    } else {
        prev[i + 1]
    } by {}
    assert(keys_unique(postv)) by {
        assert forall|i: int, j: int| 0 <= i < j < postv.len() implies #[trigger] postv[i].0
            != #[trigger] postv[j].0 by {
            let i2: int = if i < k { i } else { i + 1 };
            let j2: int = if j < k { j } else { j + 1 };
            assert(prev[i2].0 != prev[j2].0);
        }
    }
    assert forall|i: int, m: int|
        0 <= i < postv.len() && 0 <= m < (#[trigger] postv[i]).1.len() implies (
    #[trigger] postv[i].1[m]).date == postv[i].0 && post.has_meal(postv[i].1[m].id) by {
        let i2: int = if i < k { i } else { i + 1 };
        assert(postv[i] == prev[i2]);
    }
    assert(!key_has(postv, prev[k].0)) by {
        assert forall|i: int| 0 <= i < postv.len() implies postv[i].0 != prev[k].0 by {
            let i2: int = if i < k { i } else { i + 1 };
            assert(postv[i].0 == prev[i2].0);
            if i2 < k {
                assert(prev[i2].0 != prev[k].0);
            } else {
                assert(prev[k].0 != prev[i2].0);
            }
        }
    }
}

/// Appending a stub for an existing recipe to an existing day entry keeps
/// the plan well formed.
proof fn lemma_plan_wf_update(pre: MealPlan, post: MealPlan, k: int, stub: MealStub)
    requires
        pre.wf(),
        pre.has_meal(stub.id),
        0 <= k < pre.planned_view().len(),
        stub.date == pre.planned_view()[k].0,
        post.planned_view().len() == pre.planned_view().len(),
        post.planned_view()[k] == (pre.planned_view()[k].0, pre.planned_view()[k].1.push(stub)),
        forall|j: int|
            0 <= j < post.planned_view().len() && j != k ==> post.planned_view()[j]
                == pre.planned_view()[j],
        post.all_meals == pre.all_meals,
        post.completed_meals == pre.completed_meals,
        post.shopping_list == pre.shopping_list,
    ensures
        post.wf(),
{
    assert(post.meal_ids() == pre.meal_ids());
    assert(keys_unique(post.planned_view())) by {
        assert forall|i: int, j: int| 0 <= i < j < post.planned_view().len() implies #[trigger] post
            .planned_view()[i].0 != #[trigger] post.planned_view()[j].0 by {
            assert(post.planned_view()[i].0 == pre.planned_view()[i].0);
            assert(post.planned_view()[j].0 == pre.planned_view()[j].0);
        }
    }
    assert forall|i: int, m: int|
        0 <= i < post.planned_view().len() && 0 <= m < (
        #[trigger] post.planned_view()[i]).1.len() implies (
    #[trigger] post.planned_view()[i].1[m]).date == post.planned_view()[i].0 && post.has_meal(
        post.planned_view()[i].1[m].id,
    ) by {
        if i == k {
            if m < pre.planned_view()[k].1.len() {
                assert(post.planned_view()[k].1[m] == pre.planned_view()[k].1[m]);
            } else {
                assert(post.planned_view()[k].1[m] == stub);
            }
        } else {
            assert(post.planned_view()[i] == pre.planned_view()[i]);
        }
    }
    assert(post.for_meals_view() == pre.for_meals_view());
}

/// Appending a new day entry holding one stub for an existing recipe, for a
/// date that had no entry, keeps the plan well formed.
proof fn lemma_plan_wf_push(pre: MealPlan, post: MealPlan, stub: MealStub)
    requires
        pre.wf(),
        pre.has_meal(stub.id),
        !key_has(pre.planned_view(), stub.date),
        post.planned_view().len() == pre.planned_view().len() + 1,
        post.planned_view()[pre.planned_view().len() as int] == (stub.date, seq![stub]),
        forall|j: int|
            0 <= j < pre.planned_view().len() ==> post.planned_view()[j] == pre.planned_view()[j],
        post.all_meals == pre.all_meals,
        post.completed_meals == pre.completed_meals,
        post.shopping_list == pre.shopping_list,
    ensures
        post.wf(),
{
    let n = pre.planned_view().len() as int;
    assert(post.meal_ids() == pre.meal_ids());
    assert(keys_unique(post.planned_view())) by {
        assert forall|i: int, j: int| 0 <= i < j < post.planned_view().len() implies #[trigger] post
            .planned_view()[i].0 != #[trigger] post.planned_view()[j].0 by {
            if j == n {
                assert(pre.planned_view()[i].0 == post.planned_view()[i].0);
                if post.planned_view()[i].0 == stub.date {
                    assert(key_has(pre.planned_view(), stub.date));
                }
            }
        }
    }
    assert forall|i: int, m: int|
        0 <= i < post.planned_view().len() && 0 <= m < (
        #[trigger] post.planned_view()[i]).1.len() implies (
    #[trigger] post.planned_view()[i].1[m]).date == post.planned_view()[i].0 && post.has_meal(
        post.planned_view()[i].1[m].id,
    ) by {
        if i == n {
            assert(post.planned_view()[i].1 == seq![stub]);
            assert(post.planned_view()[i].1[m] == stub);
        } else {
            assert(post.planned_view()[i] == pre.planned_view()[i]);
        }
    }
    assert(post.for_meals_view() == pre.for_meals_view());
}

} // verus!
