//! Configuration text round trips and decoding failures.

use sim_model::balance::Balance;
use sim_model::config::cycle_from_quantities;
use sim_model::error::DeserializationError;
use sim_model::model::{BuildingType, CycleDuration, PopulationClass, Recipe, WareType};

fn entry(key: &str, amount: i64) -> (String, i64) {
    (key.to_string(), amount)
}

#[test]
fn balance_config_text_is_sorted_table() {
    let b = Balance::from_entries(vec![entry("wood", -2), entry("plank", 1)]);
    assert_eq!(b.to_config(), r#"{"plank":1,"wood":-2}"#);
}

#[test]
fn balance_round_trip() {
    let b = Balance::from_entries(vec![entry("wood", -2), entry("plank", 1), entry("ore", 40)]);
    let text = b.to_config();
    let back = Balance::from_config(&text).unwrap();
    assert!(back.equals(&b));
}

#[test]
fn empty_balance_round_trip() {
    let text = Balance::new().to_config();
    assert_eq!(text, "{}");
    let back = Balance::from_config(&text).unwrap();
    assert!(back.equals(&Balance::new()));
}

#[test]
fn balance_config_zero_amount_is_no_flow() {
    let back = Balance::from_config(r#"{"wood":0}"#).unwrap();
    assert!(back.equals(&Balance::new()));
}

#[test]
fn balance_config_rejects_bad_syntax() {
    assert_eq!(Balance::from_config("not json").unwrap_err(), DeserializationError::Syntax);
    assert_eq!(Balance::from_config("[1,2]").unwrap_err(), DeserializationError::Syntax);
}

#[test]
fn balance_config_rejects_non_integer_amounts() {
    assert_eq!(Balance::from_config(r#"{"wood":"many"}"#).unwrap_err(), DeserializationError::InvalidField("wood".to_string()));
    assert_eq!(Balance::from_config(r#"{"wood":1.5}"#).unwrap_err(), DeserializationError::InvalidField("wood".to_string()));
    assert_eq!(Balance::from_config(r#"{"wood":18446744073709551615}"#).unwrap_err(), DeserializationError::InvalidField("wood".to_string()));
}

#[test]
fn ware_type_round_trip() {
    let w = WareType { display_name: "Iron ore".to_string() };
    let back = WareType::from_config(&w.to_config()).unwrap();
    assert_eq!(back.display_name, "Iron ore");
}

#[test]
fn building_type_round_trip() {
    let b = BuildingType { display_name: "Smelter".to_string() };
    let back = BuildingType::from_config(&b.to_config()).unwrap();
    assert_eq!(back.display_name, "Smelter");
}

#[test]
fn population_class_round_trip() {
    let p = PopulationClass { display_name: "Laborers".to_string() };
    let back = PopulationClass::from_config(&p.to_config()).unwrap();
    assert_eq!(back.display_name, "Laborers");
}

#[test]
fn name_record_requires_display_name() {
    assert_eq!(WareType::from_config("{}").unwrap_err(), DeserializationError::MissingField("display_name".to_string()));
    assert_eq!(
        BuildingType::from_config(r#"{"display_name":7}"#).unwrap_err(),
        DeserializationError::InvalidField("display_name".to_string())
    );
    assert_eq!(PopulationClass::from_config("][").unwrap_err(), DeserializationError::Syntax);
}

fn smelting_recipe() -> Recipe {
    Recipe::new(
        "Smelting".to_string(),
        "smelter".to_string(),
        Balance::from_entries(vec![entry("ore", -3), entry("ingot", 1)]),
        CycleDuration::new(10, 0),
        Balance::from_entries(vec![entry("laborer", -2)]),
    )
}

#[test]
fn recipe_round_trip() {
    let r = smelting_recipe();
    let text = r.to_config();
    let back = Recipe::from_config(&text).unwrap();
    assert_eq!(back.display_name, "Smelting");
    assert_eq!(back.building, "smelter");
    assert_eq!(back.cycle, CycleDuration::new(10, 0));
    assert!(back.conversion.equals(&r.conversion));
    assert!(back.labor.equals(&r.labor));
}

#[test]
fn recipe_missing_cycle_is_an_error() {
    let text = r#"{
        "display_name": "Smelting",
        "building": "smelter",
        "conversion": {"ore": -3, "ingot": 1},
        "labor": {"laborer": -2}
    }"#;
    assert_eq!(Recipe::from_config(text).unwrap_err(), DeserializationError::MissingField("cycle".to_string()));
}

#[test]
fn recipe_missing_building_is_an_error() {
    let text = r#"{
        "display_name": "Smelting",
        "conversion": {},
        "cycle": {"secs": 10, "nanos": 0},
        "labor": {}
    }"#;
    assert_eq!(Recipe::from_config(text).unwrap_err(), DeserializationError::MissingField("building".to_string()));
}

#[test]
fn recipe_rejects_oversized_nanos() {
    let text = r#"{
        "display_name": "Smelting",
        "building": "smelter",
        "conversion": {},
        "cycle": {"secs": 10, "nanos": 2000000000},
        "labor": {}
    }"#;
    assert_eq!(Recipe::from_config(text).unwrap_err(), DeserializationError::InvalidField("nanos".to_string()));
}

#[test]
fn recipe_rejects_malformed_cycle() {
    let text = r#"{
        "display_name": "Smelting",
        "building": "smelter",
        "conversion": {},
        "cycle": 10,
        "labor": {}
    }"#;
    assert_eq!(Recipe::from_config(text).unwrap_err(), DeserializationError::MissingField("secs".to_string()));
}

#[test]
fn recipe_config_carries_bad_balance_error_up() {
    let text = r#"{
        "display_name": "Smelting",
        "building": "smelter",
        "conversion": {"ore": "three"},
        "cycle": {"secs": 10, "nanos": 0},
        "labor": {}
    }"#;
    assert_eq!(Recipe::from_config(text).unwrap_err(), DeserializationError::InvalidField("ore".to_string()));
}

#[test]
fn cycle_quantities_accept_only_subsecond_nanos() {
    let d = cycle_from_quantities(10, 999_999_999).unwrap();
    assert_eq!(d, CycleDuration::new(10, 999_999_999));
    assert_eq!(
        cycle_from_quantities(10, 1_000_000_000).unwrap_err(),
        DeserializationError::InvalidField("nanos".to_string())
    );
}
