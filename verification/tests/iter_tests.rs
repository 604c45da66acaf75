use resiliparse::HTMLTree;
use resiliparse::iter::NodeIter;

#[test]
fn traversal_visits_the_subtree_in_document_order() {
    let tree = HTMLTree::parse("<div><p>x</p><span></span></div><b>y</b>");
    let doc = tree.document().unwrap();
    let div = doc.first_element_child().unwrap();
    let mut names: Vec<String> = Vec::new();
    let mut it = NodeIter::of(&div);
    while let Some(node) = it.next() {
        names.push(node.tag().unwrap());
    }
    assert_eq!(names, vec!["div", "p", "#text", "span"]);
}

#[test]
fn traversal_from_the_document_covers_everything() {
    let tree = HTMLTree::parse("<div><p>x</p></div>");
    let doc = tree.document().unwrap();
    let mut count = 0;
    let mut it = NodeIter::of(&doc);
    while let Some(_) = it.next() {
        count += 1;
    }
    assert_eq!(count, 4);
}

#[test]
fn traversal_on_a_released_tree_is_immediately_empty() {
    let tree = HTMLTree::parse("<div><p>x</p></div>");
    let div = tree.document().unwrap().first_element_child().unwrap();
    let mut it = NodeIter::of(&div);
    drop(tree);
    assert!(it.next().is_none());
}
