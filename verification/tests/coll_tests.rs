use resiliparse::HTMLTree;
use resiliparse::coll::ElementNodeList;
use resiliparse::coll::NamedNodeMap;
use resiliparse::coll::NodeList;

#[test]
fn elements_by_class_name_in_document_order() {
    let tree =
        HTMLTree::parse("<div class=\"bar\">a</div><p class=\"other\">b</p><span class=\"other bar\">c</span>");
    let doc = tree.document().unwrap();
    let all = ElementNodeList::of_subtree(&doc);
    let bars = all.get_elements_by_class_name("bar");
    assert_eq!(bars.len(), 2);
    let first = bars.item(0).unwrap();
    let second = bars.item(1).unwrap();
    assert_eq!(first.tag().unwrap(), "div");
    assert_eq!(second.tag().unwrap(), "span");
    assert!(first.node < second.node);
}

#[test]
fn element_lookup_by_id_attr_and_tag() {
    let tree = HTMLTree::parse(
        "<main id=\"foo\"><p id=\"a\">x</p><p id=\"b\" data-kind=\"Note\">y</p></main>",
    );
    let doc = tree.document().unwrap();
    let all = ElementNodeList::of_subtree(&doc);
    assert_eq!(all.len(), 3);

    let b = all.get_element_by_id("b", false).unwrap();
    assert_eq!(b.tag().unwrap(), "p");
    assert_eq!(b.attribute("data-kind").unwrap(), "Note");
    assert!(all.get_element_by_id("B", false).is_none());
    assert!(all.get_element_by_id("B", true).is_some());

    let exact = all.get_elements_by_attr("data-kind", "note", false);
    assert_eq!(exact.len(), 0);
    let folded = all.get_elements_by_attr("data-kind", "note", true);
    assert_eq!(folded.len(), 1);

    let paragraphs = all.get_elements_by_tag_name("P");
    assert_eq!(paragraphs.len(), 2);
    assert_eq!(paragraphs.item(0).unwrap().attribute("id").unwrap(), "a");
}

#[test]
fn node_list_snapshot_is_stable_after_release() {
    let tree = HTMLTree::parse("<div><p>a</p><p>b</p>text</div>");
    let div = tree.document().unwrap().first_element_child().unwrap();
    let list = NodeList::of_children(&div);
    assert_eq!(list.len(), 3);
    let before: Vec<usize> = list.values().iter().map(|h| h.node).collect();
    drop(tree);
    assert_eq!(list.len(), 3);
    let after: Vec<usize> = list.values().iter().map(|h| h.node).collect();
    assert_eq!(before, after);
    let first = list.item(0).unwrap();
    assert!(first.tag().is_none());
    assert!(list.item(3).is_none());
}

#[test]
fn element_list_is_empty_on_a_released_tree() {
    let tree = HTMLTree::parse("<div class=\"bar\"></div>");
    let doc = tree.document().unwrap();
    let all = ElementNodeList::of_subtree(&doc);
    drop(tree);
    assert_eq!(all.len(), 1);
    let filtered = all.get_elements_by_class_name("bar");
    assert_eq!(filtered.len(), 0);
    assert!(all.get_element_by_id("x", false).is_none());
}

#[test]
fn named_node_map_over_attributes() {
    let tree = HTMLTree::parse("<a href=\"https://example.com\" class=\"bar baz\" id=\"l\">x</a>");
    let a = tree.document().unwrap().first_element_child().unwrap();
    let map = NamedNodeMap::of_attributes(&a);
    assert_eq!(map.len(), 3);
    assert_eq!(map.item(0).unwrap(), "href");
    assert_eq!(map.item(1).unwrap(), "class");
    assert_eq!(map.item(2).unwrap(), "id");
    assert!(map.item(3).is_none());
    assert_eq!(map.get_named_item("href").unwrap(), "https://example.com");
    assert_eq!(map.get_named_item("class").unwrap(), "bar baz");
    assert!(map.get_named_item("missing").is_none());
    drop(tree);
    assert_eq!(map.len(), 3);
    assert_eq!(map.get_named_item("id").unwrap(), "l");
}

#[test]
fn child_element_view_skips_text_nodes() {
    let tree = HTMLTree::parse("<div>t<p>a</p>u<span>b</span></div>");
    let div = tree.document().unwrap().first_element_child().unwrap();
    let list = ElementNodeList::of_child_elements(&div);
    assert_eq!(list.len(), 2);
    assert_eq!(list.item(0).unwrap().tag().unwrap(), "p");
    assert_eq!(list.item(1).unwrap().tag().unwrap(), "span");
    assert!(list.item(2).is_none());
}

#[test]
fn relative_positions_are_normalized_against_the_length() {
    let tree = HTMLTree::parse("<ul><li>a</li><li>b</li><li>c</li><li>d</li></ul>");
    let ul = tree.document().unwrap().first_element_child().unwrap();
    let list = NodeList::of_children(&ul);
    assert_eq!(list.len(), 4);
    assert_eq!(list.get_item(0).unwrap().inner_text().unwrap(), "a");
    assert_eq!(list.get_item(-1).unwrap().inner_text().unwrap(), "d");
    assert_eq!(list.get_item(-4).unwrap().inner_text().unwrap(), "a");
    assert!(list.get_item(4).is_none());
    assert!(list.get_item(-5).is_none());
}

#[test]
fn slices_select_a_stepped_range() {
    let tree = HTMLTree::parse("<ul><li>a</li><li>b</li><li>c</li><li>d</li></ul>");
    let ul = tree.document().unwrap().first_element_child().unwrap();
    let list = NodeList::of_children(&ul);
    let every_other = list.get_slice(0, 4, 2).unwrap();
    assert_eq!(every_other.len(), 2);
    assert_eq!(every_other.item(0).unwrap().inner_text().unwrap(), "a");
    assert_eq!(every_other.item(1).unwrap().inner_text().unwrap(), "c");
    let tail = list.get_slice(-3, 99, 1).unwrap();
    assert_eq!(tail.len(), 3);
    assert_eq!(tail.item(0).unwrap().inner_text().unwrap(), "b");
    let by_negative_step_magnitude = list.get_slice(0, 4, -2).unwrap();
    assert_eq!(by_negative_step_magnitude.len(), 2);
    assert!(list.get_slice(0, 4, 0).is_none());
}

#[test]
fn node_list_membership_test() {
    let tree = HTMLTree::parse("<div><p>a</p><p>b</p></div>");
    let div = tree.document().unwrap().first_element_child().unwrap();
    let list = NodeList::of_children(&div);
    let p = div.first_element_child().unwrap();
    assert!(list.contains_node(&p));
    assert!(!list.contains_node(&div));
    let other = HTMLTree::parse("<div><p>a</p><p>b</p></div>");
    let foreign = other.document().unwrap().first_element_child().unwrap().first_element_child().unwrap();
    assert!(!list.contains_node(&foreign));
}
