//! Maps keyed by identifiers.

use trail_stash::table::{same_id, Table};

#[test]
fn identifiers_are_compared_whole() {
    let mut other = [7u8; 32];
    assert!(same_id(&[7u8; 32], &other));
    other[31] = 8;
    assert!(!same_id(&[7u8; 32], &other));
}

#[test]
fn a_table_holds_one_value_a_key() {
    let mut table: Table<u8> = Table::new();
    table.insert([1; 32], 10);
    table.insert([2; 32], 20);
    table.insert([1; 32], 11);
    assert_eq!(table.len(), 2);
    assert_eq!(table.get(&[1; 32]), Some(&11));
    assert_eq!(table.get(&[3; 32]), None);
    assert!(table.contains(&[2; 32]));
    assert_eq!(table.keys(), vec![[1; 32], [2; 32]]);
    assert_eq!(table.row(1), (&[2; 32], &20));
    assert_eq!(table.remove(&[1; 32]), Some(11));
    assert_eq!(table.remove(&[1; 32]), None);
    assert_eq!(table.keys(), vec![[2; 32]]);
}
