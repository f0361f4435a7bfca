//! Parsers, scraped-text cleanup, and the plain display helpers.

use meal_planner::scraper::{cleanup_recipe_step, normalize_recipe_json, parse_amount, RecipeJSON};
use meal_planner::server::{AddMealData, Error};
use meal_planner::storage_server::HardDriveStatusName;
use meal_planner::storage_status::{
    Storage, StorageData, GENERAL_ERROR, WRITING_BTRBK, ZPOOL_SCRUBBING,
};
use meal_planner::text::{parse_fixed, parse_u64};
use meal_planner::units::Units;
use meal_planner::weather::{decode_icon, TemperatureDatum};

#[test]
fn plain_numbers_parse_exactly() {
    assert_eq!(parse_u64("0"), Some(0));
    assert_eq!(parse_u64("18446744073709551615"), Some(u64::MAX));
    assert_eq!(parse_u64("18446744073709551616"), None);
    assert_eq!(parse_u64(""), None);
    assert_eq!(parse_u64("12a"), None);
}

#[test]
fn decimals_parse_to_fixed_point() {
    assert_eq!(parse_fixed("2"), Some(200000));
    assert_eq!(parse_fixed("0.5"), Some(50000));
    assert_eq!(parse_fixed("1.25"), Some(125000));
    assert_eq!(parse_fixed("0.123456"), Some(12345));
    assert_eq!(parse_fixed(".5"), Some(50000));
    assert_eq!(parse_fixed("5."), Some(500000));
    assert_eq!(parse_fixed("1.2.3"), None);
    assert_eq!(parse_fixed("."), None);
    assert_eq!(parse_fixed("-1"), None);
    assert_eq!(parse_fixed("1e3"), None);
    assert_eq!(parse_fixed("x"), None);
}

#[test]
fn vulgar_fractions_parse_at_their_conventional_rounding() {
    assert_eq!(parse_amount("\u{bd}"), Ok(50000));
    assert_eq!(parse_amount("\u{2153}"), Ok(30000));
    assert_eq!(parse_amount("\u{215b}"), Ok(12500));
    assert_eq!(parse_amount("2.5"), Ok(250000));
    assert_eq!(parse_amount("half"), Err(()));
}

#[test]
fn scraped_steps_lose_bullets_and_surrounding_whitespace() {
    assert_eq!(cleanup_recipe_step("\u{2022} Stir well  "), "Stir well");
    assert_eq!(cleanup_recipe_step("  plain  "), "plain");
    assert_eq!(
        cleanup_recipe_step("\u{2022} One \u{2022} Two"),
        "One Two"
    );
    assert_eq!(cleanup_recipe_step(""), "");
}

#[test]
fn scraped_recipes_normalize_line_by_line() {
    let json = RecipeJSON {
        author: String::new(),
        canonical_url: String::new(),
        category: String::new(),
        cuisine: String::new(),
        description: String::new(),
        host: String::new(),
        image: "pic".to_string(),
        ingredients: vec![
            "2 cup olive oil".to_string(),
            "\u{bd} Teaspoon sea salt".to_string(),
            "unparsable".to_string(),
            "3 parsec dust".to_string(),
        ],
        instructions_list: vec!["\u{2022} Mix ".to_string()],
        title: "Dressing".to_string(),
        yields: String::new(),
    };
    let normalized = normalize_recipe_json(json);
    assert_eq!(normalized.name, "Dressing");
    assert_eq!(normalized.image, "pic");
    assert_eq!(normalized.ingredients.len(), 2);
    assert_eq!(normalized.ingredients[0].name, "olive oil");
    assert_eq!(normalized.ingredients[0].amount.units, Units::Cup);
    assert_eq!(normalized.ingredients[0].amount.value, 200000);
    assert_eq!(normalized.ingredients[1].name, "sea salt");
    assert_eq!(normalized.ingredients[1].amount.units, Units::Teaspoon);
    assert_eq!(normalized.ingredients[1].amount.value, 50000);
    assert_eq!(normalized.recipe.len(), 1);
    assert_eq!(normalized.recipe[0].description, "Mix");
}

#[test]
fn the_add_recipe_form_builds_a_recipe() {
    let form = AddMealData {
        name: "Toast".to_string(),
        serving_size: "2".to_string(),
        image: "img".to_string(),
        ingredient_amount: vec!["1.5".to_string(), "2".to_string()],
        ingredient_name: vec!["bread".to_string(), "butter".to_string()],
        ingredient_unit: vec!["unit".to_string(), "Tablespoon".to_string()],
        step: vec!["toast it".to_string()],
    };
    let built = form.to_meal_info(77).unwrap();
    assert_eq!(built.id, 77);
    assert_eq!(built.serving_size, 2);
    assert_eq!(built.ingredients.len(), 2);
    assert_eq!(built.ingredients[0].amount.value, 150000);
    assert_eq!(built.ingredients[0].amount.units, Units::Count);
    assert_eq!(built.ingredients[1].amount.units, Units::Tablespoon);
    assert_eq!(built.recipe.len(), 1);
}

#[test]
fn a_bad_form_field_is_a_payload_problem() {
    let form = AddMealData {
        name: "Toast".to_string(),
        serving_size: "two".to_string(),
        image: String::new(),
        ingredient_amount: vec![],
        ingredient_name: vec![],
        ingredient_unit: vec![],
        step: vec![],
    };
    match form.to_meal_info(1) {
        Err(Error::PayloadProblem { .. }) => {}
        other => panic!("expected a payload problem, got {:?}", other),
    }
}

#[test]
fn error_codes_follow_the_taxonomy() {
    let auth = Error::AuthenticationError {
        message: "no cookie".to_string(),
    };
    assert_eq!(auth.get_status_code(), 401);
    assert_eq!(auth.get_message(), Some("no cookie"));
    assert_eq!(
        Error::AuthorizationError {
            message: String::new()
        }
        .get_status_code(),
        403
    );
    assert_eq!(
        Error::InternalServerError {
            message: String::new()
        }
        .get_status_code(),
        500
    );
    assert_eq!(
        Error::PayloadProblem {
            message: String::new()
        }
        .get_status_code(),
        400
    );
}

#[test]
fn temperatures_and_times_display_plainly() {
    let datum = TemperatureDatum {
        time: 0,
        temperature: 72,
    };
    assert_eq!(datum.get_temperature(), "72\u{b0}");
    assert_eq!(datum.get_time(), "12 AM");
    assert_eq!(
        TemperatureDatum {
            time: 12,
            temperature: 0
        }
        .get_time(),
        "12 PM"
    );
    assert_eq!(
        TemperatureDatum {
            time: 15,
            temperature: 0
        }
        .get_time(),
        "3 PM"
    );
    assert_eq!(
        TemperatureDatum {
            time: 9,
            temperature: 0
        }
        .get_time(),
        "9 AM"
    );
}

#[test]
fn weather_codes_decode_to_icon_names() {
    assert_eq!(decode_icon(800, false, true), "clear-day");
    assert_eq!(decode_icon(800, false, false), "clear-night");
    assert_eq!(decode_icon(501, true, true), "rain");
    assert_eq!(decode_icon(501, false, false), "partly-cloudy-night-rain");
    assert_eq!(decode_icon(201, false, true), "thunderstorms-day-rain");
    assert_eq!(decode_icon(741, true, true), "fog");
    assert_eq!(decode_icon(9999, true, true), "");
}

#[test]
fn the_storage_status_line_follows_flag_priority() {
    let mut storage = Storage::new();
    assert_eq!(storage.status_text(), "Not connected");

    let mut data = StorageData::default();
    data.job_flags = 0;
    storage.data = Some(data);
    assert_eq!(storage.status_text(), "Idle");

    data.job_flags = ZPOOL_SCRUBBING | WRITING_BTRBK;
    storage.data = Some(data);
    storage.ellipses = 0;
    assert_eq!(storage.status_text(), "Scrubbing.");

    data.job_flags = GENERAL_ERROR | ZPOOL_SCRUBBING;
    storage.data = Some(data);
    assert_eq!(storage.status_text(), "Error");

    storage.ellipses = 7;
    data.job_flags = WRITING_BTRBK;
    storage.data = Some(data);
    assert_eq!(storage.status_text(), "Writing btrfs backup....");
}

#[test]
fn drive_states_decode_from_the_pool_report() {
    assert_eq!(
        HardDriveStatusName::parse("ONLINE"),
        Some(HardDriveStatusName::Online)
    );
    assert_eq!(
        HardDriveStatusName::parse("FAULTED"),
        Some(HardDriveStatusName::Faulted)
    );
    assert_eq!(
        HardDriveStatusName::parse("DEGRADED"),
        Some(HardDriveStatusName::Degraded)
    );
    assert_eq!(
        HardDriveStatusName::parse("UNAVAIL"),
        Some(HardDriveStatusName::Unavailable)
    );
    assert_eq!(
        HardDriveStatusName::parse("OFFLINE"),
        Some(HardDriveStatusName::Offline)
    );
    assert_eq!(HardDriveStatusName::parse("online"), None);
}

#[test]
fn a_drive_with_any_error_counter_reports_an_error() {
    let clean = meal_planner::storage_server::HardDriveStatus {
        hard_drive_name: "ada0".to_string(),
        status: HardDriveStatusName::Online,
        checksum_errors: 0,
        read_errors: 0,
        write_errors: 0,
    };
    assert!(!clean.is_error());
    let bad = meal_planner::storage_server::HardDriveStatus {
        checksum_errors: 1,
        ..clean
    };
    assert!(bad.is_error());
}
