//! Unit algebra and quantity arithmetic.

use meal_planner::amount::{Amount, AMOUNT_SCALE};
use meal_planner::units::{Factor, Units};

#[test]
fn volume_units_are_mutually_compatible() {
    assert!(Units::Cup.is_compatible(&Units::Milliliters));
    assert!(Units::Tablespoon.is_compatible(&Units::Teaspoon));
    assert!(Units::Teaspoon.is_compatible(&Units::Teaspoon));
}

#[test]
fn count_and_ounce_are_singletons() {
    assert!(Units::Count.is_compatible(&Units::Count));
    assert!(Units::Ounce.is_compatible(&Units::Ounce));
    assert!(!Units::Count.is_compatible(&Units::Ounce));
    assert!(!Units::Count.is_compatible(&Units::Cup));
    assert!(!Units::Ounce.is_compatible(&Units::Milliliters));
}

#[test]
fn cup_is_the_coarsest_volume_unit() {
    assert_eq!(Units::Cup.is_bigger(&Units::Tablespoon), Some(true));
    assert_eq!(Units::Cup.is_bigger(&Units::Teaspoon), Some(true));
    assert_eq!(Units::Cup.is_bigger(&Units::Milliliters), Some(true));
    assert_eq!(Units::Tablespoon.is_bigger(&Units::Cup), Some(false));
    assert_eq!(Units::Teaspoon.is_bigger(&Units::Milliliters), Some(true));
    assert_eq!(Units::Milliliters.is_bigger(&Units::Teaspoon), Some(false));
    assert_eq!(Units::Count.is_bigger(&Units::Cup), None);
}

#[test]
fn conversion_factors_match_the_table() {
    assert_eq!(
        Units::Cup.conversion_factor(&Units::Tablespoon),
        Some(Factor { num: 16, den: 1 })
    );
    assert_eq!(
        Units::Tablespoon.conversion_factor(&Units::Cup),
        Some(Factor { num: 1, den: 16 })
    );
    assert_eq!(
        Units::Cup.conversion_factor(&Units::Milliliters),
        Some(Factor { num: 236588, den: 1000 })
    );
    assert_eq!(
        Units::Teaspoon.conversion_factor(&Units::Milliliters),
        Some(Factor { num: 492892, den: 100000 })
    );
    assert_eq!(
        Units::Cup.conversion_factor(&Units::Cup),
        Some(Factor { num: 1, den: 1 })
    );
    assert_eq!(Units::Count.conversion_factor(&Units::Cup), None);
}

#[test]
fn conversion_factors_are_exact_reciprocals() {
    let volume = [
        Units::Cup,
        Units::Tablespoon,
        Units::Teaspoon,
        Units::Milliliters,
    ];
    for a in volume {
        for b in volume {
            let f = a.conversion_factor(&b).unwrap();
            let g = b.conversion_factor(&a).unwrap();
            // The product of the two factors is the rational one.
            assert_eq!(
                (f.num as u128) * (g.num as u128),
                (f.den as u128) * (g.den as u128)
            );
        }
    }
}

#[test]
fn add_merges_into_the_coarser_unit() {
    // One cup plus eight tablespoons is a cup and a half.
    let cup = Amount::new(AMOUNT_SCALE, Units::Cup);
    let tbsp = Amount::new(8 * AMOUNT_SCALE, Units::Tablespoon);
    let sum = cup.add(&tbsp).unwrap();
    assert_eq!(sum.units, Units::Cup);
    assert_eq!(sum.value, AMOUNT_SCALE + AMOUNT_SCALE / 2);
}

#[test]
fn add_of_equal_units_sums_the_values() {
    let a = Amount::new(30000, Units::Count);
    let b = Amount::new(45000, Units::Count);
    let sum = a.add(&b).unwrap();
    assert_eq!(sum.units, Units::Count);
    assert_eq!(sum.value, 75000);
}

#[test]
fn add_is_commutative() {
    let cases = [
        (
            Amount::new(AMOUNT_SCALE, Units::Cup),
            Amount::new(3 * AMOUNT_SCALE, Units::Teaspoon),
        ),
        (
            Amount::new(700, Units::Milliliters),
            Amount::new(1300, Units::Tablespoon),
        ),
        (
            Amount::new(5, Units::Ounce),
            Amount::new(11, Units::Ounce),
        ),
        (
            Amount::new(1, Units::Count),
            Amount::new(2, Units::Cup),
        ),
    ];
    for (x, y) in cases {
        assert_eq!(x.add(&y), y.add(&x));
    }
}

#[test]
fn add_of_incompatible_units_fails() {
    let count = Amount::new(2 * AMOUNT_SCALE, Units::Count);
    let cup = Amount::new(AMOUNT_SCALE, Units::Cup);
    let ounce = Amount::new(AMOUNT_SCALE, Units::Ounce);
    assert_eq!(count.add(&cup), None);
    assert_eq!(cup.add(&count), None);
    assert_eq!(count.add(&ounce), None);
    assert_eq!(ounce.add(&cup), None);
}

#[test]
fn unit_names_parse_case_insensitively() {
    assert_eq!(Units::parse("UNIT"), Ok(Units::Count));
    assert_eq!(Units::parse("Cup"), Ok(Units::Cup));
    assert_eq!(Units::parse("ounce"), Ok(Units::Ounce));
    assert_eq!(Units::parse("Tablespoons"), Ok(Units::Tablespoon));
    assert_eq!(Units::parse("thumb"), Ok(Units::Tablespoon));
    assert_eq!(Units::parse("clove"), Ok(Units::Teaspoon));
    assert_eq!(Units::parse("teaspoon"), Ok(Units::Teaspoon));
    assert_eq!(Units::parse("MILLILITERS"), Ok(Units::Milliliters));
    assert_eq!(Units::parse("furlong"), Err(()));
}
