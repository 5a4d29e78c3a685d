use orca_pools::table::NameTable;

fn sorted(table: NameTable<u32>) -> Vec<(String, u32)> {
    let mut entries = table.into_entries();
    entries.sort();
    entries
}

#[test]
fn a_value_replaces_the_one_before() {
    let mut table: NameTable<u32> = NameTable::new();
    table.insert("a".to_string(), 1);
    table.insert("b".to_string(), 2);
    table.insert("c".to_string(), 3);
    table.insert("a".to_string(), 4);
    assert_eq!(table.len(), 3);
    assert_eq!(table.get("a"), Some(&4));
    assert_eq!(table.get("c"), Some(&3));
    assert_eq!(table.get("d"), None);
    assert_eq!(
        sorted(table),
        vec![("a".to_string(), 4), ("b".to_string(), 2), ("c".to_string(), 3)]
    );
}

#[test]
fn the_other_table_prevails() {
    let mut left: NameTable<u32> = NameTable::new();
    left.insert("a".to_string(), 1);
    left.insert("b".to_string(), 2);
    let mut right: NameTable<u32> = NameTable::new();
    right.insert("b".to_string(), 20);
    right.insert("c".to_string(), 30);
    left.extend(right);
    assert_eq!(
        sorted(left),
        vec![("a".to_string(), 1), ("b".to_string(), 20), ("c".to_string(), 30)]
    );
}

#[test]
fn lists_grow_at_the_end() {
    let mut table: NameTable<Vec<u32>> = NameTable::new();
    table.push_under("a".to_string(), 1);
    table.push_under("b".to_string(), 2);
    table.push_under("a".to_string(), 3);
    assert_eq!(table.get("a"), Some(&vec![1, 3]));
    assert_eq!(table.get("b"), Some(&vec![2]));
}
