//! Shopping-list generation, merging, ordering and maintenance.

use meal_planner::amount::{Amount, AMOUNT_SCALE};
use meal_planner::store::StoreError;
use meal_planner::types::{Ingredient, MealInfo, MealPlan};
use meal_planner::units::Units;

fn meal(id: u128, name: &str, ingredients: Vec<(&str, u64, Units)>) -> MealInfo {
    MealInfo {
        id,
        image: String::new(),
        ingredients: ingredients
            .into_iter()
            .map(|(n, value, units)| Ingredient {
                amount: Amount { units, value },
                name: n.to_string(),
            })
            .collect(),
        name: name.to_string(),
        recipe: Vec::new(),
        serving_size: 2,
    }
}

fn plan_with_meals(meals: Vec<MealInfo>) -> MealPlan {
    let mut plan = MealPlan::new();
    plan.all_meals = meals;
    plan
}

#[test]
fn generation_excludes_leftover_stubs() {
    let mut plan = plan_with_meals(vec![
        meal(1, "Fresh", vec![("rice", AMOUNT_SCALE, Units::Count)]),
        meal(2, "Reheated", vec![("beans", AMOUNT_SCALE, Units::Count)]),
    ]);
    plan.plan(100, 1, false).unwrap();
    plan.plan(100, 2, true).unwrap();

    let list = plan.generate_shopping_list().unwrap();
    // Only the non-leftover meal's ingredients appear.
    assert_eq!(list.items.len(), 1);
    assert_eq!(list.items[0].name, "rice");
    assert_eq!(list.for_meals.len(), 1);
    assert_eq!(list.for_meals[0].id, 1);
    assert!(list.for_meals.iter().all(|s| !s.leftovers));
}

#[test]
fn repeated_generation_finds_nothing_new() {
    let mut plan = plan_with_meals(vec![meal(
        1,
        "Soup",
        vec![("carrot", 3 * AMOUNT_SCALE, Units::Count)],
    )]);
    plan.plan(100, 1, false).unwrap();

    let list = plan.generate_shopping_list().unwrap();
    plan.shopping_list.push(list);

    // Nothing was marked as in hand and nothing new was planned: the next
    // generation yields no list at all.
    assert!(plan.generate_shopping_list().is_none());
}

#[test]
fn generation_on_an_empty_calendar_yields_nothing() {
    let plan = plan_with_meals(vec![meal(1, "Soup", vec![])]);
    assert!(plan.generate_shopping_list().is_none());
}

#[test]
fn ingredients_merge_by_lowercased_name() {
    let mut plan = plan_with_meals(vec![
        meal(1, "A", vec![("Flour", AMOUNT_SCALE, Units::Cup)]),
        meal(
            2,
            "B",
            vec![("flour", 16 * AMOUNT_SCALE, Units::Tablespoon)],
        ),
    ]);
    plan.plan(100, 1, false).unwrap();
    plan.plan(100, 2, false).unwrap();

    let list = plan.generate_shopping_list().unwrap();
    assert_eq!(list.items.len(), 1);
    // The first spelling is kept; the quantities merge into the coarser
    // unit: one cup plus sixteen tablespoons is two cups.
    assert_eq!(list.items[0].name, "Flour");
    assert_eq!(list.items[0].amount.units, Units::Cup);
    assert_eq!(list.items[0].amount.value, 2 * AMOUNT_SCALE);
}

#[test]
fn incompatible_merge_drops_the_later_contribution() {
    let mut plan = plan_with_meals(vec![
        meal(1, "A", vec![("salt", 2 * AMOUNT_SCALE, Units::Count)]),
        meal(2, "B", vec![("salt", AMOUNT_SCALE, Units::Tablespoon)]),
    ]);
    plan.plan(100, 1, false).unwrap();
    plan.plan(100, 2, false).unwrap();

    let list = plan.generate_shopping_list().unwrap();
    assert_eq!(list.items.len(), 1);
    assert_eq!(list.items[0].amount.units, Units::Count);
    assert_eq!(list.items[0].amount.value, 2 * AMOUNT_SCALE);
}

#[test]
fn items_come_out_grouped_by_unit() {
    let mut plan = plan_with_meals(vec![meal(
        1,
        "A",
        vec![
            ("milk", AMOUNT_SCALE, Units::Milliliters),
            ("eggs", 2 * AMOUNT_SCALE, Units::Count),
            ("butter", AMOUNT_SCALE, Units::Ounce),
            ("flour", AMOUNT_SCALE, Units::Cup),
        ],
    )]);
    plan.plan(100, 1, false).unwrap();

    let list = plan.generate_shopping_list().unwrap();
    let units: Vec<Units> = list.items.iter().map(|i| i.amount.units).collect();
    assert_eq!(
        units,
        vec![Units::Ounce, Units::Count, Units::Cup, Units::Milliliters]
    );
}

#[test]
fn single_meal_list_copies_the_ingredients_unmerged() {
    let mut plan = plan_with_meals(vec![meal(
        1,
        "A",
        vec![
            ("salt", AMOUNT_SCALE, Units::Teaspoon),
            ("salt", AMOUNT_SCALE, Units::Teaspoon),
        ],
    )]);
    plan.plan(100, 1, true).unwrap();

    let list = plan.generate_shopping_list_for_meal(100, 1).unwrap();
    assert_eq!(list.items.len(), 2);
    assert_eq!(list.for_meals.len(), 1);
    assert_eq!(list.for_meals[0].id, 1);
    assert!(list.items.iter().all(|i| !i.have));

    assert!(matches!(
        plan.generate_shopping_list_for_meal(100, 9),
        Err(StoreError::MealNotPlanned)
    ));
    assert!(matches!(
        plan.generate_shopping_list_for_meal(99, 1),
        Err(StoreError::DateNotPlanned)
    ));
}

#[test]
fn toggling_an_item_flips_its_have_mark() {
    let mut plan = plan_with_meals(vec![meal(
        1,
        "A",
        vec![("rice", AMOUNT_SCALE, Units::Count)],
    )]);
    plan.plan(100, 1, false).unwrap();
    let list = plan.generate_shopping_list().unwrap();
    plan.shopping_list.push(list);

    plan.toggle_shopping_list_item(0, &"rice".to_string())
        .unwrap();
    assert!(plan.shopping_list[0].items[0].have);

    assert_eq!(
        plan.toggle_shopping_list_item(0, &"beans".to_string()),
        Err(StoreError::ItemNotFound)
    );
    assert_eq!(
        plan.toggle_shopping_list_item(3, &"rice".to_string()),
        Err(StoreError::ListNotFound)
    );
}

#[test]
fn pruning_drops_checked_items_and_empty_lists() {
    let mut plan = plan_with_meals(vec![meal(
        1,
        "A",
        vec![
            ("rice", AMOUNT_SCALE, Units::Count),
            ("beans", AMOUNT_SCALE, Units::Count),
        ],
    )]);
    plan.plan(100, 1, false).unwrap();
    let list = plan.generate_shopping_list().unwrap();
    plan.shopping_list.push(list);

    plan.toggle_shopping_list_item(0, &"rice".to_string())
        .unwrap();
    plan.prune_shopping_list(0).unwrap();
    assert_eq!(plan.shopping_list[0].items.len(), 1);
    assert_eq!(plan.shopping_list[0].items[0].name, "beans");

    plan.toggle_shopping_list_item(0, &"beans".to_string())
        .unwrap();
    plan.prune_shopping_list(0).unwrap();
    // The emptied list is gone altogether.
    assert!(plan.shopping_list.is_empty());

    assert_eq!(plan.prune_shopping_list(0), Err(StoreError::ListNotFound));
}

#[test]
fn item_names_normalize_for_matching() {
    let ing = Ingredient {
        amount: Amount {
            units: Units::Count,
            value: AMOUNT_SCALE,
        },
        name: "Sea Salt".to_string(),
    };
    assert_eq!(ing.name(), "sea salt");
}
