use resiliparse::tokens::DOMTokenList;

#[test]
fn parsing_deduplicates_and_keeps_first_seen_order() {
    let list = DOMTokenList::from_value("  b a\tb  c a\n");
    assert_eq!(list.len(), 3);
    assert_eq!(list.item(0).unwrap(), "b");
    assert_eq!(list.item(1).unwrap(), "a");
    assert_eq!(list.item(2).unwrap(), "c");
    assert!(list.item(3).is_none());
    assert_eq!(list.value(), "b a c");
}

#[test]
fn add_then_contains() {
    let mut list = DOMTokenList::from_value("");
    assert_eq!(list.len(), 0);
    list.add(&vec!["a".to_owned(), "b".to_owned()]).unwrap();
    assert!(list.contains("a"));
    assert!(list.contains("b"));
    assert!(!list.contains("c"));
    list.add(&vec!["a".to_owned()]).unwrap();
    assert_eq!(list.len(), 2);
    assert_eq!(list.value(), "a b");
}

#[test]
fn toggle_flips_membership() {
    let mut list = DOMTokenList::from_value("a b");
    assert_eq!(list.toggle("a", None).unwrap(), false);
    assert!(!list.contains("a"));
    assert_eq!(list.toggle("a", None).unwrap(), true);
    assert!(list.contains("a"));
    assert_eq!(list.toggle("b", Some(true)).unwrap(), true);
    assert!(list.contains("b"));
    assert_eq!(list.toggle("b", Some(false)).unwrap(), false);
    assert!(!list.contains("b"));
}

#[test]
fn replace_of_an_absent_token_is_a_no_op() {
    let mut list = DOMTokenList::from_value("x y");
    assert_eq!(list.replace("a", "c").unwrap(), false);
    assert_eq!(list.value(), "x y");
    assert_eq!(list.replace("x", "z").unwrap(), true);
    assert_eq!(list.value(), "z y");
}

#[test]
fn replace_with_an_existing_token_removes_the_old_one() {
    let mut list = DOMTokenList::from_value("a b c");
    assert_eq!(list.replace("a", "c").unwrap(), true);
    assert_eq!(list.value(), "b c");
}

#[test]
fn remove_ignores_absent_tokens() {
    let mut list = DOMTokenList::from_value("a b c");
    list.remove(&vec!["b".to_owned(), "zz".to_owned()]).unwrap();
    assert_eq!(list.value(), "a c");
    assert!(!list.contains("b"));
}

#[test]
fn malformed_tokens_are_rejected_not_dropped() {
    let mut list = DOMTokenList::from_value("a");
    assert!(list.add(&vec!["".to_owned()]).is_err());
    assert!(list.add(&vec!["ok".to_owned(), "has space".to_owned()]).is_err());
    assert!(list.remove(&vec!["\t".to_owned()]).is_err());
    assert!(list.replace("", "x").is_err());
    assert!(list.replace("x", "a b").is_err());
    assert!(list.toggle("a c", None).is_err());
    assert_eq!(list.value(), "a");
}

#[test]
fn values_lists_all_tokens() {
    let list = DOMTokenList::from_value("one two");
    let values = list.values();
    assert_eq!(values, vec!["one".to_owned(), "two".to_owned()]);
}

#[test]
fn list_materialized_from_a_class_attribute() {
    let tree = resiliparse::HTMLTree::parse("<a class=\"bar baz bar\">x</a>");
    let a = tree.document().unwrap().first_element_child().unwrap();
    let list = DOMTokenList::of_attribute(&a, "class").unwrap();
    assert_eq!(list.value(), "bar baz");
    assert!(list.contains("bar"));
    let empty = DOMTokenList::of_attribute(&a, "missing").unwrap();
    assert_eq!(empty.len(), 0);
    drop(tree);
    assert!(DOMTokenList::of_attribute(&a, "class").is_none());
    assert_eq!(list.value(), "bar baz");
}

#[test]
fn token_positions_may_be_relative() {
    let list = DOMTokenList::from_value("a b c");
    assert_eq!(list.get_item(-1).unwrap(), "c");
    assert_eq!(list.get_item(1).unwrap(), "b");
    assert!(list.get_item(3).is_none());
    assert!(list.get_item(-4).is_none());
}
