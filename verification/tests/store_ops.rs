//! Mutation operations on the meal plan.

use meal_planner::amount::{Amount, AMOUNT_SCALE};
use meal_planner::store::{Direction, StoreError};
use meal_planner::types::{Ingredient, MealInfo, MealPlan, MealStub};
use meal_planner::units::Units;

fn meal(id: u128, name: &str, ingredients: Vec<(&str, u64, Units)>) -> MealInfo {
    MealInfo {
        id,
        image: String::new(),
        ingredients: ingredients
            .into_iter()
            .map(|(n, value, units)| Ingredient {
                amount: Amount { units, value },
                name: n.to_string(),
            })
            .collect(),
        name: name.to_string(),
        recipe: Vec::new(),
        serving_size: 2,
    }
}

fn plan_with_meals(meals: Vec<MealInfo>) -> MealPlan {
    let mut plan = MealPlan::new();
    plan.all_meals = meals;
    plan
}

fn stubs_at(plan: &MealPlan, date: u64) -> Vec<MealStub> {
    plan.planned_meals
        .iter()
        .find(|d| d.date == date)
        .map(|d| d.stubs.clone())
        .unwrap_or_default()
}

fn has_date(plan: &MealPlan, date: u64) -> bool {
    plan.planned_meals.iter().any(|d| d.date == date)
}

#[test]
fn plan_appends_a_stub_and_creates_the_date() {
    let mut plan = plan_with_meals(vec![meal(7, "Soup", vec![])]);
    let stub = plan.plan(100, 7, false).unwrap();
    assert_eq!(
        stub,
        MealStub {
            date: 100,
            id: 7,
            leftovers: false
        }
    );
    assert_eq!(stubs_at(&plan, 100), vec![stub]);
}

#[test]
fn plan_of_an_unknown_meal_fails() {
    let mut plan = MealPlan::new();
    assert_eq!(plan.plan(100, 7, false), Err(StoreError::MealNotFound));
    assert!(plan.planned_meals.is_empty());
}

#[test]
fn unplan_removes_the_matching_stubs() {
    let mut plan = plan_with_meals(vec![meal(1, "A", vec![]), meal(2, "B", vec![])]);
    plan.plan(100, 1, false).unwrap();
    plan.plan(100, 2, false).unwrap();
    let signal = plan.unplan(100, 1).unwrap();
    assert_eq!(signal, (100, 1));
    assert_eq!(
        stubs_at(&plan, 100),
        vec![MealStub {
            date: 100,
            id: 2,
            leftovers: false
        }]
    );
}

#[test]
fn unplan_of_the_last_stub_removes_the_date_entry() {
    let mut plan = plan_with_meals(vec![meal(1, "A", vec![])]);
    plan.plan(100, 1, false).unwrap();
    plan.plan(101, 1, false).unwrap();
    plan.unplan(100, 1).unwrap();
    // No dangling empty list: the date key itself is gone.
    assert!(!has_date(&plan, 100));
    assert!(has_date(&plan, 101));
}

#[test]
fn unplan_of_an_unplanned_date_fails() {
    let mut plan = plan_with_meals(vec![meal(1, "A", vec![])]);
    assert_eq!(plan.unplan(100, 1), Err(StoreError::DateNotPlanned));
}

#[test]
fn toggle_leftover_flips_the_first_matching_stub() {
    let mut plan = plan_with_meals(vec![meal(1, "A", vec![])]);
    plan.plan(100, 1, false).unwrap();
    plan.toggle_leftover(100, 1).unwrap();
    assert!(stubs_at(&plan, 100)[0].leftovers);
    plan.toggle_leftover(100, 1).unwrap();
    assert!(!stubs_at(&plan, 100)[0].leftovers);
}

#[test]
fn toggle_leftover_of_a_missing_stub_fails() {
    let mut plan = plan_with_meals(vec![meal(1, "A", vec![]), meal(2, "B", vec![])]);
    plan.plan(100, 1, false).unwrap();
    assert_eq!(plan.toggle_leftover(100, 2), Err(StoreError::MealNotPlanned));
    assert_eq!(plan.toggle_leftover(99, 1), Err(StoreError::DateNotPlanned));
}

#[test]
fn complete_moves_the_meal_to_the_completed_list() {
    let mut plan = plan_with_meals(vec![meal(1, "A", vec![])]);
    plan.plan(100, 1, false).unwrap();
    let signal = plan.complete(100, 1).unwrap();
    assert_eq!(signal, (100, 1));
    assert!(!has_date(&plan, 100));
    assert_eq!(plan.completed_meals.len(), 1);
    assert_eq!(plan.completed_meals[0].date, 100);
    assert_eq!(plan.completed_meals[0].meal_ids, vec![1]);
}

#[test]
fn move_forward_then_backward_restores_the_stub() {
    let mut plan = plan_with_meals(vec![meal(1, "A", vec![]), meal(2, "B", vec![])]);
    plan.plan(100, 2, false).unwrap();
    plan.plan(100, 1, true).unwrap();

    let moved = plan.move_meal(100, 1, Direction::Forward).unwrap();
    assert_eq!(
        moved,
        MealStub {
            date: 101,
            id: 1,
            leftovers: true
        }
    );
    assert_eq!(stubs_at(&plan, 101), vec![moved]);

    plan.move_meal(101, 1, Direction::Backward).unwrap();
    // The stub is back on its day, leftover flag intact, and the next day
    // holds nothing again.
    assert_eq!(
        stubs_at(&plan, 100),
        vec![
            MealStub {
                date: 100,
                id: 2,
                leftovers: false
            },
            MealStub {
                date: 100,
                id: 1,
                leftovers: true
            },
        ]
    );
    assert!(!has_date(&plan, 101));
}

#[test]
fn add_leftover_for_plans_the_next_day() {
    let mut plan = plan_with_meals(vec![meal(1, "A", vec![])]);
    plan.plan(100, 1, false).unwrap();
    let stub = plan.add_leftover_for(100, 1).unwrap();
    assert_eq!(
        stub,
        MealStub {
            date: 101,
            id: 1,
            leftovers: true
        }
    );
    assert_eq!(stubs_at(&plan, 101), vec![stub]);
    assert_eq!(plan.add_leftover_for(100, 9), Err(StoreError::MealNotFound));
}

#[test]
fn move_of_a_missing_stub_fails() {
    let mut plan = plan_with_meals(vec![meal(1, "A", vec![])]);
    plan.plan(100, 1, false).unwrap();
    assert_eq!(
        plan.move_meal(99, 1, Direction::Forward),
        Err(StoreError::DateNotPlanned)
    );
    assert_eq!(
        plan.move_meal(100, 2, Direction::Backward),
        Err(StoreError::MealNotPlanned)
    );
}

#[test]
fn move_all_shifts_every_planned_day() {
    let mut plan = plan_with_meals(vec![meal(1, "A", vec![]), meal(2, "B", vec![])]);
    plan.plan(100, 1, false).unwrap();
    plan.plan(102, 2, true).unwrap();
    plan.move_all(Direction::Forward);
    assert!(has_date(&plan, 101) && has_date(&plan, 103));
    assert_eq!(stubs_at(&plan, 101)[0].id, 1);
    assert_eq!(stubs_at(&plan, 103)[0].id, 2);
    assert!(stubs_at(&plan, 103)[0].leftovers);
    plan.move_all(Direction::Backward);
    assert!(has_date(&plan, 100) && has_date(&plan, 102));
}

#[test]
fn remove_meal_cascades_through_the_whole_plan() {
    let mut plan = plan_with_meals(vec![
        meal(1, "A", vec![("rice", AMOUNT_SCALE, Units::Count)]),
        meal(2, "B", vec![("beans", AMOUNT_SCALE, Units::Count)]),
    ]);
    plan.plan(100, 1, false).unwrap();
    plan.plan(100, 2, false).unwrap();
    plan.plan(101, 1, false).unwrap();
    let list = plan.generate_shopping_list().unwrap();
    plan.shopping_list.push(list);

    plan.remove_meal(1);

    // The recipe is gone.
    assert!(plan.all_meals.iter().all(|m| m.id != 1));
    assert_eq!(plan.all_meals.len(), 1);
    // No stub on any date references it; the day it alone occupied is gone.
    for day in &plan.planned_meals {
        assert!(day.stubs.iter().all(|s| s.id != 1));
        assert!(!day.stubs.is_empty());
    }
    assert!(!has_date(&plan, 101));
    // No shopping list's source stubs reference it either.
    for list in &plan.shopping_list {
        assert!(list.for_meals.iter().all(|s| s.id != 1));
    }
    // The other recipe's references survive.
    assert_eq!(stubs_at(&plan, 100).len(), 1);
    assert_eq!(stubs_at(&plan, 100)[0].id, 2);
}

#[test]
fn remove_meal_of_an_unknown_id_only_scrubs() {
    let mut plan = plan_with_meals(vec![meal(1, "A", vec![])]);
    plan.plan(100, 1, false).unwrap();
    plan.remove_meal(9);
    assert_eq!(plan.all_meals.len(), 1);
    assert_eq!(stubs_at(&plan, 100).len(), 1);
}

#[test]
fn new_stub_references_the_recipe() {
    let m = meal(5, "A", vec![]);
    assert_eq!(
        m.new_stub(42),
        MealStub {
            date: 42,
            id: 5,
            leftovers: false
        }
    );
}
