//! The ledger algebra on concrete values.

use sim_model::balance::Balance;
use sim_model::error::ArithmeticOverflow;

fn entry(key: &str, amount: i64) -> (String, i64) {
    (key.to_string(), amount)
}

#[test]
fn new_is_empty() {
    let b = Balance::new();
    assert_eq!(b.get(&"wood".to_string()), 0);
    assert_eq!(b.entries().len(), 0);
}

#[test]
fn default_is_empty() {
    let b: Balance = Default::default();
    assert!(b.equals(&Balance::new()));
}

#[test]
fn get_reads_entries() {
    let b = Balance::from_entries(vec![entry("wood", -2), entry("plank", 1)]);
    assert_eq!(b.get(&"wood".to_string()), -2);
    assert_eq!(b.get(&"plank".to_string()), 1);
    assert_eq!(b.get(&"stone".to_string()), 0);
}

#[test]
fn combine_scenario() {
    let a = Balance::from_entries(vec![entry("wood", -2), entry("plank", 1)]);
    let b = Balance::from_entries(vec![entry("wood", -2), entry("plank", 1)]);
    let sum = a.combine(&b).unwrap();
    let expected = Balance::from_entries(vec![entry("wood", -4), entry("plank", 2)]);
    assert!(sum.equals(&expected));
    assert_eq!(sum.get(&"wood".to_string()), -4);
    assert_eq!(sum.get(&"plank".to_string()), 2);
}

#[test]
fn scale_scenario() {
    let a = Balance::from_entries(vec![entry("wood", -2), entry("plank", 1)]);
    let tripled = a.scale(3).unwrap();
    let expected = Balance::from_entries(vec![entry("wood", -6), entry("plank", 3)]);
    assert!(tripled.equals(&expected));
}

#[test]
fn combine_is_commutative() {
    let a = Balance::from_entries(vec![entry("wood", -2), entry("ore", 5)]);
    let b = Balance::from_entries(vec![entry("wood", 7), entry("plank", 1)]);
    let ab = a.combine(&b).unwrap();
    let ba = b.combine(&a).unwrap();
    assert!(ab.equals(&ba));
}

#[test]
fn combine_is_associative() {
    let a = Balance::from_entries(vec![entry("wood", -2)]);
    let b = Balance::from_entries(vec![entry("wood", 3), entry("ore", 4)]);
    let c = Balance::from_entries(vec![entry("ore", -4), entry("plank", 1)]);
    let left = a.combine(&b).unwrap().combine(&c).unwrap();
    let right = a.combine(&b.combine(&c).unwrap()).unwrap();
    assert!(left.equals(&right));
}

#[test]
fn empty_is_identity() {
    let a = Balance::from_entries(vec![entry("wood", -2), entry("plank", 1)]);
    let sum = a.combine(&Balance::new()).unwrap();
    assert!(sum.equals(&a));
}

#[test]
fn scale_composes_multiplicatively() {
    let a = Balance::from_entries(vec![entry("wood", -2), entry("plank", 1)]);
    let twice_thrice = a.scale(2).unwrap().scale(3).unwrap();
    let six = a.scale(6).unwrap();
    assert!(twice_thrice.equals(&six));
}

#[test]
fn scale_by_one_is_identity() {
    let a = Balance::from_entries(vec![entry("wood", -2), entry("plank", 1)]);
    assert!(a.scale(1).unwrap().equals(&a));
}

#[test]
fn scale_by_zero_zeroes_every_key() {
    let a = Balance::from_entries(vec![entry("wood", -2), entry("plank", 1)]);
    let zeroed = a.scale(0).unwrap();
    assert_eq!(zeroed.get(&"wood".to_string()), 0);
    assert_eq!(zeroed.get(&"plank".to_string()), 0);
    assert!(zeroed.equals(&Balance::new()));
}

#[test]
fn explicit_zero_equals_absent() {
    let zeroed = Balance::from_entries(vec![entry("stone", 0)]);
    assert!(zeroed.equals(&Balance::new()));
    assert!(Balance::new().equals(&zeroed));
    assert_eq!(zeroed.entries().len(), 0);
}

#[test]
fn equality_ignores_entry_order() {
    let a = Balance::from_entries(vec![entry("wood", -2), entry("plank", 1)]);
    let b = Balance::from_entries(vec![entry("plank", 1), entry("wood", -2)]);
    assert!(a.equals(&b));
}

#[test]
fn unequal_balances_differ() {
    let a = Balance::from_entries(vec![entry("wood", -2)]);
    let b = Balance::from_entries(vec![entry("wood", 2)]);
    let c = Balance::from_entries(vec![entry("plank", 1)]);
    assert!(!a.equals(&b));
    assert!(!a.equals(&c));
    assert!(!c.equals(&a));
}

#[test]
fn combine_keeps_keys_zero_in_one_operand() {
    let a = Balance::from_entries(vec![entry("wood", 0), entry("plank", 1)]);
    let b = Balance::from_entries(vec![entry("wood", 3)]);
    let sum = a.combine(&b).unwrap();
    assert_eq!(sum.get(&"wood".to_string()), 3);
    assert_eq!(sum.get(&"plank".to_string()), 1);
}

#[test]
fn combine_drops_cancelled_keys() {
    let a = Balance::from_entries(vec![entry("wood", 2), entry("plank", 1)]);
    let b = Balance::from_entries(vec![entry("wood", -2)]);
    let sum = a.combine(&b).unwrap();
    assert_eq!(sum.get(&"wood".to_string()), 0);
    assert_eq!(sum.entries().len(), 1);
}

#[test]
fn combine_overflow_fails_fast() {
    let a = Balance::from_entries(vec![entry("gold", i64::MAX)]);
    let b = Balance::from_entries(vec![entry("gold", 1)]);
    assert!(matches!(a.combine(&b), Err(ArithmeticOverflow)));
}

#[test]
fn scale_overflow_fails_fast() {
    let a = Balance::from_entries(vec![entry("gold", i64::MAX)]);
    assert!(matches!(a.scale(2), Err(ArithmeticOverflow)));
    assert!(a.scale(1).is_ok());
}
