//! The keyed value table and the saturating arithmetic the operations use.

use entity_system::ops::saturating_add64;
use entity_system::table::ValueTable;

#[test]
fn insert_get_and_replace() {
    let mut t = ValueTable::new();
    assert_eq!(t.get(1), None);
    t.insert(1, 10);
    t.insert(2, 20);
    assert_eq!(t.get(1), Some(10));
    assert_eq!(t.get(2), Some(20));
    t.insert(1, 11);
    assert_eq!(t.get(1), Some(11));
    assert_eq!(t.len(), 2);
    assert!(t.contains_key(2));
    assert!(!t.contains_key(3));
}

#[test]
fn keys_reflect_the_stored_entries() {
    let mut t = ValueTable::new();
    t.insert(5, 0);
    t.insert(7, 0);
    let keys = t.keys();
    assert_eq!(keys.len(), 2);
    assert!(keys.contains(&5));
    assert!(keys.contains(&7));
}

#[test]
fn saturating_addition_clamps_at_the_ends() {
    assert_eq!(saturating_add64(1, 2), 3);
    assert_eq!(saturating_add64(-5, 2), -3);
    assert_eq!(saturating_add64(i64::MAX, 1), i64::MAX);
    assert_eq!(saturating_add64(i64::MIN, -1), i64::MIN);
    assert_eq!(saturating_add64(i64::MAX, -1), i64::MAX - 1);
}
