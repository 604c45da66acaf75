use resiliparse::HTMLTree;

const HTML: &str = r#"<!doctype html>
<html lang="en">
  <head>
    <meta charset="utf-8">
    <title>Example page</title>
  </head>
  <body>
    <main id="foo">
      <p id="a">Hello <span class="bar">world</span>!</p>
      <p id="b" class="dom">Hello <a href="https://example.com" class="bar baz">DOM</a>!</p>
     </main>
     <!-- A comment -->
  </body>
</html>"#;

#[test]
fn parse_from_str() {
    let _tree1 = HTMLTree::parse(HTML);
    let _tree2 = HTMLTree::parse("<html></html>");
}

#[test]
fn parse_from_string() {
    let _tree1 = HTMLTree::parse(&HTML.to_owned());
    let _tree2 = HTMLTree::parse(HTML.to_owned().as_str());
}

#[test]
fn parse_from_bytes() {
    let _tree1 = HTMLTree::parse_bytes(&HTML.to_owned().into_bytes());
    let _tree2 = HTMLTree::parse_bytes(HTML.to_owned().into_bytes().as_slice());
    let _tree3 = HTMLTree::parse_bytes(HTML.as_bytes());
}

#[test]
fn parse_never_fails_and_document_is_present() {
    for input in ["", "plain text", "<", "<<<>>>", "</stray>", "<html></html>", "\u{e9}t\u{e9}"] {
        let tree = HTMLTree::parse(input);
        assert!(tree.document().is_some());
    }
}

#[test]
fn structural_elements_of_the_example_page() {
    let tree = HTMLTree::parse(HTML);
    assert!(tree.head().is_some());
    assert!(tree.body().is_some());
    assert_eq!(tree.title().unwrap(), "Example page");
}

#[test]
fn missing_structural_elements_are_absent() {
    let tree = HTMLTree::parse("<html></html>");
    assert!(tree.head().is_none());
    assert!(tree.body().is_none());
    assert!(tree.title().is_none());
}

#[test]
fn markup_free_input_becomes_one_text_node() {
    let tree = HTMLTree::parse("plain text only");
    let doc = tree.document().unwrap();
    let children = doc.child_nodes();
    assert_eq!(children.len(), 1);
    assert_eq!(children[0].value().unwrap(), "plain text only");
    assert_eq!(children[0].tag().unwrap(), "#text");
}

#[test]
fn comment_led_input_yields_a_comment_first() {
    let tree = HTMLTree::parse("<!-- note --><p>y</p>");
    let doc = tree.document().unwrap();
    let first = doc.first_child().unwrap();
    assert_eq!(first.value().unwrap(), " note ");
    let p = doc.first_element_child().unwrap();
    assert_eq!(p.inner_text().unwrap(), "y");
}

#[test]
fn doctype_led_input_yields_a_doctype_first() {
    let tree = HTMLTree::parse("<!doctype html><p>y</p>");
    let doc = tree.document().unwrap();
    let first = doc.first_child().unwrap();
    assert_eq!(first.tag().unwrap(), "html");
    assert_eq!(doc.outer_html().unwrap(), "<!DOCTYPE html><p>y</p>");
}
