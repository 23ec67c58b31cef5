use rgparse::table::Table;

#[test]
fn an_empty_table_finds_nothing() {
    let table: Table<String> = Table::new();
    assert_eq!(table.len(), 0);
    assert_eq!(table.position("a"), None);
    assert_eq!(table.get("a"), None);
}

#[test]
fn insert_appends_new_keys_and_replaces_in_place() {
    let mut table: Table<String> = Table::new();
    table.insert(String::from("a"), String::from("1"));
    table.insert(String::from("b"), String::from("2"));
    table.insert(String::from("c"), String::from("3"));
    table.insert(String::from("b"), String::from("two"));
    assert_eq!(table.len(), 3);
    assert_eq!(table.position("a"), Some(0));
    assert_eq!(table.position("b"), Some(1));
    assert_eq!(table.position("c"), Some(2));
    assert_eq!(table.position("d"), None);
    assert_eq!(table.key(1), "b");
    assert_eq!(table.value(1), "two");
    assert_eq!(table.get("b"), Some(&String::from("two")));
    assert_eq!(table.get("c"), Some(&String::from("3")));
    assert_eq!(table.get(""), None);
}

#[test]
fn keys_differ_by_any_character() {
    let mut table: Table<String> = Table::new();
    table.insert(String::from("--a"), String::from("short"));
    table.insert(String::from("--ab"), String::from("long"));
    table.insert(String::from("--A"), String::from("upper"));
    assert_eq!(table.len(), 3);
    assert_eq!(table.get("--a"), Some(&String::from("short")));
    assert_eq!(table.get("--ab"), Some(&String::from("long")));
    assert_eq!(table.get("--A"), Some(&String::from("upper")));
    assert_eq!(table.get("--"), None);
}

#[test]
fn a_duplicate_holds_the_same_entries() {
    let mut table: Table<Option<String>> = Table::new();
    table.insert(String::from("x"), None);
    table.insert(String::from("y"), Some(String::from("why")));
    let mut copy = table.duplicate();
    assert_eq!(copy.len(), 2);
    assert_eq!(copy.get("x"), Some(&None));
    assert_eq!(copy.get("y"), Some(&Some(String::from("why"))));
    copy.insert(String::from("x"), Some(String::from("ex")));
    assert_eq!(table.get("x"), Some(&None));

    let mut plain: Table<String> = Table::new();
    plain.insert(String::from("k"), String::from("v"));
    let plain_copy = plain.duplicate();
    assert_eq!(plain_copy.key(0), "k");
    assert_eq!(plain_copy.value(0), "v");
}

#[test]
fn remove_takes_one_key_out_and_keeps_the_order() {
    let mut table: Table<String> = Table::new();
    table.insert(String::from("a"), String::from("1"));
    table.insert(String::from("b"), String::from("2"));
    table.insert(String::from("c"), String::from("3"));
    table.remove("b");
    assert_eq!(table.len(), 2);
    assert_eq!(table.get("b"), None);
    assert_eq!(table.key(0), "a");
    assert_eq!(table.key(1), "c");
    assert_eq!(table.get("c"), Some(&String::from("3")));
    table.remove("b");
    table.remove("missing");
    assert_eq!(table.len(), 2);
    table.insert(String::from("b"), String::from("again"));
    assert_eq!(table.position("b"), Some(2));
    table.remove("a");
    table.remove("c");
    table.remove("b");
    assert_eq!(table.len(), 0);
}
