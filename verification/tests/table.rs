use server_poller::table::Table;

#[test]
fn entries_come_and_go() {
    let mut table: Table<u32> = Table::new();
    table.insert("a".to_string(), 1);
    table.insert("b".to_string(), 2);
    table.insert("a".to_string(), 3);
    assert_eq!(table.len(), 2);
    assert_eq!(table.get("a"), Some(&3));
    assert_eq!((table.key_at(1), table.value_at(1)), ("b", &2));
    *table.get_mut("b").unwrap() += 5;
    *table.value_at_mut(0) += 1;
    assert_eq!((table.get("a"), table.get("b")), (Some(&4), Some(&7)));
    assert!(table.get_mut("c").is_none());
    table.insert("c".to_string(), 9);
    assert_eq!(table.remove_at(0), 4);
    assert!(!table.has("a") && table.has("b"));
    table.keep(&vec!["c".to_string(), "x".to_string()]);
    assert_eq!(table.len(), 1);
    assert_eq!(table.get("c"), Some(&9));
}
