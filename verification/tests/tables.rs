use rust_fuzzylogic::table::Table;
use rust_fuzzylogic::text::str_eq;

#[test]
fn table_inserts_and_finds() {
    let mut t: Table<i64> = Table::new();
    assert!(t.is_empty());
    assert_eq!(t.len(), 0);
    assert_eq!(t.insert("a", 1), None);
    assert_eq!(t.insert("b", 2), None);
    assert_eq!(t.insert("a", 3), Some(1));
    assert_eq!(t.len(), 2);
    assert!(!t.is_empty());
    assert_eq!(t.get("a"), Some(&3));
    assert_eq!(t.get("b"), Some(&2));
    assert_eq!(t.get("c"), None);
    assert!(t.contains_key("a"));
    assert!(!t.contains_key("A"));
    assert_eq!(t.name_at(0), "a");
    assert_eq!(t.name_at(1), "b");
    assert_eq!(*t.value_at(0), 3);
    assert_eq!(*t.value_at(1), 2);
}

#[test]
fn table_removes_and_pops() {
    let mut t: Table<i64> = Table::new();
    t.insert("a", 1);
    t.insert("b", 2);
    t.insert("c", 3);
    assert_eq!(t.remove("b"), Some(2));
    assert_eq!(t.remove("b"), None);
    assert_eq!(t.len(), 2);
    assert_eq!(t.get("a"), Some(&1));
    assert_eq!(t.get("c"), Some(&3));
    assert_eq!(t.pop(), Some(("c".to_string(), 3)));
    assert_eq!(t.pop(), Some(("a".to_string(), 1)));
    assert_eq!(t.pop(), None);
    assert!(t.is_empty());
}

#[test]
fn names_are_compared_character_by_character() {
    assert!(str_eq("", ""));
    assert!(str_eq("temp", "temp"));
    assert!(!str_eq("temp", "temP"));
    assert!(!str_eq("temp", "temp "));
    assert!(!str_eq("temp", ""));
    assert!(str_eq("größe", "größe"));
    assert!(!str_eq("große", "größe"));
}
