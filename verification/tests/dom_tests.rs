use resiliparse::HTMLTree;
use resiliparse::NodeType;

const PAGE: &str = "<html><body><p id=\"x\">Hi <b>there</b></p></body></html>";

#[test]
fn example_scenario_navigation_and_serialization() {
    let tree = HTMLTree::parse(PAGE);
    let body = tree.body().unwrap();
    let p = body.first_element_child().unwrap();
    assert_eq!(p.tag().unwrap(), "p");
    assert_eq!(p.inner_text().unwrap(), "Hi there");
    assert_eq!(p.outer_html().unwrap(), "<p id=\"x\">Hi <b>there</b></p>");
    assert_eq!(p.attribute("id").unwrap(), "x");
}

#[test]
fn serialization_round_trip_is_a_fixed_point() {
    for input in [
        PAGE,
        "<!doctype html><html><head><meta charset=\"utf-8\"></head><body>hi<br>there</body></html>",
        "<div><!-- note --><span a=\"1\" b=\"2\">t</span></div>",
        "<p a='x y'>single</p>",
        "<p a=x>unquoted</p>",
        "<form><input disabled></form>",
        "<p>h\u{e9}llo \u{2603}</p>",
    ] {
        let tree = HTMLTree::parse(input);
        let once = tree.document().unwrap().outer_html().unwrap();
        let tree2 = HTMLTree::parse(&once);
        let twice = tree2.document().unwrap().outer_html().unwrap();
        assert_eq!(once, twice);
        let tree3 = HTMLTree::parse(&twice);
        assert_eq!(tree3.document().unwrap().outer_html().unwrap(), twice);
    }
}

#[test]
fn sibling_navigation_is_symmetric() {
    let tree = HTMLTree::parse("<ul><li>a</li><li>b</li><li>c</li></ul>");
    let ul = tree.document().unwrap().first_element_child().unwrap();
    let mut a = ul.first_child().unwrap();
    while let Some(b) = a.next_sibling() {
        let back = b.prev_sibling().unwrap();
        assert_eq!(back.node, a.node);
        a = b;
    }
}

#[test]
fn element_navigation_skips_exactly_non_elements() {
    let tree = HTMLTree::parse("<div>text<p>one</p>more<span>two</span>tail</div>");
    let div = tree.document().unwrap().first_element_child().unwrap();
    let first = div.first_element_child().unwrap();
    assert_eq!(first.tag().unwrap(), "p");
    let second = first.next_element_sibling().unwrap();
    assert_eq!(second.tag().unwrap(), "span");
    assert!(second.next_element_sibling().is_none());
    let back = second.prev_element_sibling().unwrap();
    assert_eq!(back.node, first.node);
    let last = div.last_element_child().unwrap();
    assert_eq!(last.node, second.node);
}

#[test]
fn child_lists_follow_document_order() {
    let tree = HTMLTree::parse("<div>text<p>one</p>more<span>two</span></div>");
    let div = tree.document().unwrap().first_element_child().unwrap();
    let all = div.child_nodes();
    assert_eq!(all.len(), 4);
    assert_eq!(all[0].node_type(), NodeType::Text);
    assert_eq!(all[1].tag().unwrap(), "p");
    assert_eq!(all[2].node_type(), NodeType::Text);
    assert_eq!(all[3].tag().unwrap(), "span");
    let elems = div.child_element_nodes();
    assert_eq!(elems.len(), 2);
    assert_eq!(elems[0].tag().unwrap(), "p");
    assert_eq!(elems[1].tag().unwrap(), "span");
}

#[test]
fn node_kinds_and_values() {
    let tree = HTMLTree::parse("<div><!-- note -->data</div>");
    let doc = tree.document().unwrap();
    assert_eq!(doc.node_type(), NodeType::Document);
    assert_eq!(doc.tag().unwrap(), "#document");
    let div = doc.first_element_child().unwrap();
    assert_eq!(div.node_type(), NodeType::Element);
    let comment = div.first_child().unwrap();
    assert_eq!(comment.node_type(), NodeType::Comment);
    assert_eq!(comment.value().unwrap(), " note ");
    let text = comment.next_sibling().unwrap();
    assert_eq!(text.node_type(), NodeType::Text);
    assert_eq!(text.value().unwrap(), "data");
    assert_eq!(text.parent().unwrap().node, div.node);
    assert_eq!(div.parent().unwrap().node, doc.node);
    assert!(doc.parent().is_none());
}

#[test]
fn inner_html_of_a_childless_node_is_absent() {
    let tree = HTMLTree::parse("<div><span></span></div>");
    let div = tree.document().unwrap().first_element_child().unwrap();
    let span = div.first_element_child().unwrap();
    assert!(span.inner_html().is_none());
    assert_eq!(div.inner_html().unwrap(), "<span></span>");
}

#[test]
fn text_extraction_skips_comments() {
    let tree = HTMLTree::parse("<div>a<!-- hidden --><b>b</b></div>");
    let div = tree.document().unwrap().first_element_child().unwrap();
    assert_eq!(div.outer_text().unwrap(), "ab");
    assert_eq!(div.inner_text().unwrap(), "ab");
    assert_eq!(div.text_content().unwrap(), "ab");
}

#[test]
fn released_tree_degrades_to_absence() {
    let tree = HTMLTree::parse(PAGE);
    let body = tree.body().unwrap();
    let p = body.first_element_child().unwrap();
    drop(tree);
    assert_eq!(p.node_type(), NodeType::Undefined);
    assert!(p.tag().is_none());
    assert!(p.value().is_none());
    assert!(p.first_child().is_none());
    assert!(p.last_child().is_none());
    assert!(p.parent().is_none());
    assert!(p.next_sibling().is_none());
    assert!(p.prev_sibling().is_none());
    assert!(p.first_element_child().is_none());
    assert!(p.next_element_sibling().is_none());
    assert!(p.outer_html().is_none());
    assert!(p.inner_html().is_none());
    assert!(p.inner_text().is_none());
    assert!(p.attribute("id").is_none());
    assert_eq!(p.child_nodes().len(), 0);
    assert_eq!(p.child_element_nodes().len(), 0);
    assert!(!p.has_child_nodes());
}

#[test]
fn subtree_containment() {
    let tree = HTMLTree::parse("<div><p><b>x</b></p></div><span></span>");
    let doc = tree.document().unwrap();
    let div = doc.first_element_child().unwrap();
    let p = div.first_element_child().unwrap();
    let b = p.first_element_child().unwrap();
    let span = div.next_element_sibling().unwrap();
    assert!(div.contains(&b));
    assert!(div.contains(&div));
    assert!(!div.contains(&span));
    assert!(doc.contains(&span));
    assert_eq!(b.owner_document().unwrap().node, doc.node);
    assert_eq!(b.parent_element().unwrap().node, p.node);
}

#[test]
fn void_elements_and_doctype_serialize_without_close_tags() {
    let tree = HTMLTree::parse("<!doctype html><html><head><meta charset=\"utf-8\"></head></html>");
    let html = tree.document().unwrap().outer_html().unwrap();
    assert_eq!(
        html,
        "<!DOCTYPE html><html><head><meta charset=\"utf-8\"></head></html>"
    );
}

#[test]
fn multibyte_text_survives_byte_parsing() {
    let tree = resiliparse::HTMLTree::parse_bytes("<p>\u{e9}t\u{e9} \u{2603}</p>".as_bytes());
    let p = tree.document().unwrap().first_element_child().unwrap();
    assert_eq!(p.inner_text().unwrap(), "\u{e9}t\u{e9} \u{2603}");
}

#[test]
fn unclosed_and_stray_markup_is_recovered() {
    let tree = HTMLTree::parse("<div><p>open</stray>");
    let div = tree.document().unwrap().first_element_child().unwrap();
    assert_eq!(div.tag().unwrap(), "div");
    let p = div.first_element_child().unwrap();
    assert_eq!(p.inner_text().unwrap(), "open");
}

#[test]
fn alias_accessors_agree_with_their_primaries() {
    let tree = HTMLTree::parse("<div><p>a</p><b>c</b></div>");
    let div = tree.document().unwrap().first_element_child().unwrap();
    let p = div.first_element_child().unwrap();
    let b = p.next_element_sibling().unwrap();
    assert_eq!(p.name().unwrap(), p.tag().unwrap());
    assert_eq!(p.node_name().unwrap(), "p");
    assert_eq!(p.text().unwrap(), "a");
    assert_eq!(p.parent_node().unwrap().node, div.node);
    assert_eq!(b.previous_sibling().unwrap().node, p.node);
    assert_eq!(b.prev().unwrap().node, p.node);
    assert_eq!(p.next().unwrap().node, b.node);
    let t = p.first_child().unwrap();
    assert_eq!(t.node_value().unwrap(), "a");
}

#[test]
fn handle_equality_means_same_tree_and_same_locator() {
    let tree = HTMLTree::parse("<div><p>a</p></div>");
    let div = tree.document().unwrap().first_element_child().unwrap();
    let p1 = div.first_element_child().unwrap();
    let p2 = div.first_child().unwrap();
    assert!(p1.same_node(&p2));
    assert!(!p1.same_node(&div));
    let other = HTMLTree::parse("<div><p>a</p></div>");
    let foreign = other.document().unwrap().first_element_child().unwrap().first_element_child().unwrap();
    assert!(!p1.same_node(&foreign));
    drop(tree);
    assert!(p1.same_node(&p2));
}
