//! The domain model: recipes, planned-meal stubs, shopping lists, and the
//! aggregate meal plan with its well-formedness invariant.
//!
//! The calendar is a sequence of day entries with unique dates; a date is a
//! day number. Every stub carries the date of the day entry that holds it and
//! refers to a recipe that exists, and no day entry is left with an empty
//! stub list.

use vstd::prelude::*;

use crate::amount::Amount;

verus! {

/// The one notification a remote store pushes: the plan changed elsewhere.
#[derive(Clone, Copy, Debug, PartialEq, Eq, Structural)]
pub enum MealPlanMessage {
    Update,
}

/// One ingredient of a recipe: a quantity and a display name. Names are
/// matched case-insensitively when shopping lists are merged.
#[derive(Clone, Debug)]
pub struct Ingredient {
    pub amount: Amount,
    pub name: String,
}

impl Ingredient {
    /// The ingredient's name normalized for matching: its lowercase form.
    pub fn name(&self) -> (r: String)
        ensures
            r@ == crate::text::lower_of(self.name@),
    {
        crate::text::lowercase(self.name.as_str())
    }
}

/// One free-text instruction of a recipe.
#[derive(Clone, Debug)]
pub struct RecipeStep {
    pub description: String,
}

/// A recipe: identity, display data, ingredients and ordered steps.
#[derive(Clone, Debug)]
pub struct MealInfo {
    pub id: u128,
    pub image: String,
    pub ingredients: Vec<Ingredient>,
    pub name: String,
    pub recipe: Vec<RecipeStep>,
    pub serving_size: usize,
}

/// A reference from a calendar date to a recipe: the date, the recipe id,
/// and whether this serving reuses groceries bought for an earlier one.
/// Equality is structural.
#[derive(Clone, Copy, Debug, PartialEq, Eq, Structural)]
pub struct MealStub {
    pub date: u64,
    pub id: u128,
    pub leftovers: bool,
}

impl MealInfo {
    /// A fresh planned-meal reference to this recipe for the given date.
    pub fn new_stub(&self, date: u64) -> (r: MealStub)
        ensures
            r == (MealStub { date, id: self.id, leftovers: false }),
    {
        MealStub { date, id: self.id, leftovers: false }
    }
}

/// One line of a shopping list: a name, the total quantity needed, and
/// whether the user already has it.
#[derive(Debug)]
pub struct ShoppingListItem {
    pub amount: Amount,
    pub have: bool,
    pub name: String,
}

impl ShoppingListItem {
    /// The item's name normalized for matching: its lowercase form.
    pub fn name(&self) -> (r: String)
        ensures
            r@ == crate::text::lower_of(self.name@),
    {
        crate::text::lowercase(self.name.as_str())
    }
}

impl Clone for ShoppingListItem {
    fn clone(&self) -> (r: ShoppingListItem)
        ensures
            r == *self,
    {
        ShoppingListItem { amount: self.amount, have: self.have, name: self.name.clone() }
    }
}

/// A generated shopping list: its lines, plus the planned-meal stubs it was
/// generated from, kept so a later generation does not count them again.
#[derive(Clone, Debug)]
pub struct ShoppingListInfo {
    pub for_meals: Vec<MealStub>,
    pub items: Vec<ShoppingListItem>,
}

/// The planned-meal stubs of one calendar date.
#[derive(Clone, Debug)]
pub struct DayPlan {
    pub date: u64,
    pub stubs: Vec<MealStub>,
}

/// The recipes completed on one calendar date.
#[derive(Clone, Debug)]
pub struct CompletedDay {
    pub date: u64,
    pub meal_ids: Vec<u128>,
}

/// The aggregate root: all known recipes, the calendar of planned meals,
/// the completed meals, and the generated shopping lists.
#[derive(Clone, Debug)]
pub struct MealPlan {
    pub all_meals: Vec<MealInfo>,
    pub completed_meals: Vec<CompletedDay>,
    pub planned_meals: Vec<DayPlan>,
    pub shopping_list: Vec<ShoppingListInfo>,
}

/// Whether some entry of a date-keyed sequence carries the given date.
pub open spec fn key_has<T>(entries: Seq<(u64, T)>, date: u64) -> bool {
    exists|i: int| 0 <= i < entries.len() && entries[i].0 == date
}

/// The index of the entry carrying the given date (the only one, when the
/// dates are unique and the date is present).
pub open spec fn key_index<T>(entries: Seq<(u64, T)>, date: u64) -> int {
    choose|i: int| 0 <= i < entries.len() && entries[i].0 == date
}

/// The value stored under the given date; meaningful only when present.
pub open spec fn key_get<T>(entries: Seq<(u64, T)>, date: u64) -> T {
    entries[key_index(entries, date)].1
}

/// Whether no two entries of a date-keyed sequence share a date.
pub open spec fn keys_unique<T>(entries: Seq<(u64, T)>) -> bool {
    forall|i: int, j: int|
        0 <= i < j < entries.len() ==> #[trigger] entries[i].0 != #[trigger] entries[j].0
}

/// A calendar as a sequence of dated stub lists.
pub open spec fn days_view(days: Seq<DayPlan>) -> Seq<(u64, Seq<MealStub>)> {
    days.map_values(|d: DayPlan| (d.date, d.stubs@))
}

impl MealPlan {
    /// The calendar as a sequence of dated stub lists.
    pub open spec fn planned_view(self) -> Seq<(u64, Seq<MealStub>)> {
        days_view(self.planned_meals@)
    }

    /// The completed meals as a sequence of dated recipe-id lists.
    pub open spec fn completed_view(self) -> Seq<(u64, Seq<u128>)> {
        self.completed_meals@.map_values(|d: CompletedDay| (d.date, d.meal_ids@))
    }

    /// The stubs each shopping list was generated from.
    pub open spec fn for_meals_view(self) -> Seq<Seq<MealStub>> {
        self.shopping_list@.map_values(|l: ShoppingListInfo| l.for_meals@)
    }

    /// The ids of all known recipes, in storage order.
    pub open spec fn meal_ids(self) -> Seq<u128> {
        self.all_meals@.map_values(|m: MealInfo| m.id)
    }

    /// Whether a recipe with the given id exists.
    pub open spec fn has_meal(self, id: u128) -> bool {
        self.meal_ids().contains(id)
    }

    /// The storage index of the recipe with the given id; meaningful only
    /// when such a recipe exists.
    pub open spec fn meal_index(self, id: u128) -> int {
        choose|j: int| 0 <= j < self.all_meals@.len() && self.all_meals@[j].id == id
    }

    /// The stubs planned for the given date; empty when the date has no
    /// entry.
    pub open spec fn stubs_at(self, date: u64) -> Seq<MealStub> {
        if key_has(self.planned_view(), date) {
            key_get(self.planned_view(), date)
        } else {
            Seq::empty()
        }
    }

    /// Whether some planned stub anywhere references the given recipe.
    pub open spec fn plans_meal(self, id: u128) -> bool {
        exists|i: int, k: int|
            0 <= i < self.planned_view().len() && 0 <= k < self.planned_view()[i].1.len()
                && self.planned_view()[i].1[k].id == id
    }

    /// Recipe ids are unique.
    pub open spec fn meals_wf(self) -> bool {
        forall|i: int, j: int|
            0 <= i < j < self.all_meals@.len()
                ==> #[trigger] self.all_meals@[i].id != #[trigger] self.all_meals@[j].id
    }

    /// Calendar invariant: dates are unique, no day entry is empty, every
    /// stub carries its day's date, and every stub references a recipe that
    /// exists.
    pub open spec fn planned_wf(self) -> bool {
        &&& keys_unique(self.planned_view())
        &&& forall|i: int|
            0 <= i < self.planned_view().len() ==> (#[trigger] self.planned_view()[i]).1.len() > 0
        &&& forall|i: int, k: int|
            0 <= i < self.planned_view().len() && 0 <= k < (#[trigger] self.planned_view()[i]).1.len()
                ==> (#[trigger] self.planned_view()[i].1[k]).date == self.planned_view()[i].0
                    && self.has_meal(self.planned_view()[i].1[k].id)
    }

    /// Completed-meals invariant: dates are unique.
    pub open spec fn completed_wf(self) -> bool {
        keys_unique(self.completed_view())
    }

    /// Shopping-list invariant: every stub a list was generated from
    /// references a recipe that exists.
    pub open spec fn shopping_wf(self) -> bool {
        forall|i: int, k: int|
            0 <= i < self.for_meals_view().len() && 0 <= k < (#[trigger] self.for_meals_view()[i]).len()
                ==> self.has_meal((#[trigger] self.for_meals_view()[i][k]).id)
    }

    /// The aggregate's well-formedness invariant.
    pub open spec fn wf(self) -> bool {
        &&& self.meals_wf()
        &&& self.planned_wf()
        &&& self.completed_wf()
        &&& self.shopping_wf()
    }

    /// An empty plan.
    pub fn new() -> (r: MealPlan)
        ensures
            r.wf(),
            r.all_meals@.len() == 0,
            r.completed_meals@.len() == 0,
            r.planned_meals@.len() == 0,
            r.shopping_list@.len() == 0,
    {
        MealPlan {
            all_meals: Vec::new(),
            completed_meals: Vec::new(),
            planned_meals: Vec::new(),
            shopping_list: Vec::new(),
        }
    }
}

impl Default for MealPlan {
    fn default() -> (r: MealPlan)
        ensures
            r.wf(),
            r.all_meals@.len() == 0,
            r.completed_meals@.len() == 0,
            r.planned_meals@.len() == 0,
            r.shopping_list@.len() == 0,
    {
        MealPlan::new()
    }
}

} // verus!
