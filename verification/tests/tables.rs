use mini_mud::table::Table;

#[test]
fn table_insert_then_get() {
    let mut t: Table<bool> = Table::new();
    assert!(t.is_empty());
    t.insert("dark".to_string(), true);
    t.insert("locked_north".to_string(), true);
    t.insert("dark".to_string(), false);
    assert_eq!(t.len(), 2);
    assert_eq!(t.get("dark"), Some(&false));
    assert_eq!(t.get("locked_north"), Some(&true));
    assert_eq!(t.get("locked_south"), None);
    assert_eq!(t.key_at(0).as_str(), "dark");
}

#[test]
fn table_keeps_first_seen_order() {
    let mut t: Table<String> = Table::new();
    t.insert("south".to_string(), "a".to_string());
    t.insert("north".to_string(), "b".to_string());
    t.insert("south".to_string(), "c".to_string());
    assert_eq!(t.keys(), vec!["south".to_string(), "north".to_string()]);
    assert_eq!(t.value_at(0), "c");
    assert_eq!(t.value_at(1), "b");
    assert!(t.contains_key("north"));
    assert!(!t.contains_key("North"));
    assert!(!t.is_empty());
}

#[test]
fn duplicate_of_a_table_is_its_own() {
    let mut t: Table<bool> = Table::new();
    t.insert("dark".to_string(), true);
    let mut copy = t.duplicate();
    copy.insert("dark".to_string(), false);
    copy.insert("locked_up".to_string(), true);
    assert_eq!(t.len(), 1);
    assert_eq!(t.get("dark"), Some(&true));
    assert_eq!(copy.len(), 2);
    assert_eq!(copy.get("dark"), Some(&false));
}
