use turndown::clean_attribute;
use turndown::collapse_whitespace;
use turndown::get_rules;
use turndown::is_block;
use turndown::is_void;
use turndown::repeat;
use turndown::trim_leading_newlines;
use turndown::trim_trailing_newlines;
use turndown::HeadingStyle;
use turndown::Node;
use turndown::NodeType;
use turndown::RuleFilter;
use turndown::Turndown;
use turndown::TurndownOptions;

#[test]
fn test_new_element() {
    let node = Node::new_element("div");
    assert_eq!(node.node_type, NodeType::Element);
    assert_eq!(node.node_name, "DIV");
    assert!(node.is_block());
}

#[test]
fn test_new_text() {
    let node = Node::new_text("Hello");
    assert_eq!(node.node_type, NodeType::Text);
    assert_eq!(node.node_value, "Hello");
    assert!(!node.is_block());
}

#[test]
fn test_void_element() {
    let node = Node::new_element("br");
    assert!(node.is_void());
}

#[test]
fn test_add_child() {
    let mut parent = Node::new_element("div");
    let child = Node::new_text("child");
    parent.add_child(child);
    assert_eq!(parent.children.len(), 1);
}

#[test]
fn test_get_set_attribute() {
    let mut node = Node::new_element("a");
    node.set_attribute("href", "http://example.com");
    assert_eq!(
        node.get_attribute("href"),
        Some("http://example.com".to_string())
    );
}

#[test]
fn test_text_content() {
    let mut parent = Node::new_element("p");
    parent.add_child(Node::new_text("Hello "));
    parent.add_child(Node::new_text("World"));
    assert_eq!(parent.text_content(), "Hello World");
}

#[test]
fn test_is_blank() {
    let node = Node::new_element("div");
    assert!(node.is_blank());

    let mut node_with_text = Node::new_element("p");
    node_with_text.add_child(Node::new_text("content"));
    assert!(!node_with_text.is_blank());
}

#[test]
fn test_trim_leading_newlines() {
    assert_eq!(trim_leading_newlines("\n\ntest"), "test");
    assert_eq!(trim_leading_newlines("test"), "test");
}

#[test]
fn test_trim_trailing_newlines() {
    assert_eq!(trim_trailing_newlines("test\n\n"), "test");
    assert_eq!(trim_trailing_newlines("test"), "test");
}

#[test]
fn test_repeat() {
    assert_eq!(repeat('#', 3), "###");
    assert_eq!(repeat('=', 2), "==");
}

#[test]
fn test_is_block() {
    assert!(is_block("div"));
    assert!(is_block("DIV"));
    assert!(!is_block("span"));
}

#[test]
fn test_is_void() {
    assert!(is_void("br"));
    assert!(is_void("BR"));
    assert!(!is_void("div"));
}

#[test]
fn test_clean_attribute() {
    assert_eq!(clean_attribute(Some("  hello  world  ")), "hello world");
    assert_eq!(clean_attribute(None), "");
}

#[test]
fn test_collapse_whitespace_simple() {
    assert_eq!(collapse_whitespace(" and "), " and ");
}

#[test]
fn test_collapse_whitespace_newline() {
    assert_eq!(collapse_whitespace("text\nmore"), "text more");
}

#[test]
fn test_collapse_whitespace_with_spaces() {
    assert_eq!(collapse_whitespace("text  \n  more"), "text more");
}

#[test]
fn test_collapse_whitespace_double_newline() {
    assert_eq!(collapse_whitespace("para1\n\npara2"), "para1\n\npara2");
}

#[test]
fn test_collapse_whitespace_leading_trailing() {
    assert_eq!(collapse_whitespace("  text  "), " text ");
}

#[test]
fn test_get_rules() {
    let rules = get_rules();
    assert!(rules.iter().any(|(key, _)| key == "paragraph"));
    assert!(rules.iter().any(|(key, _)| key == "heading"));
}

#[test]
fn test_rule_filter_string() {
    let filter = RuleFilter::Tag("div".to_string());
    let node = Node::new_element("div");
    assert!(filter.matches(&node, false, &TurndownOptions::default()));
}

#[test]
fn test_rule_filter_array() {
    let filter = RuleFilter::TagList(vec!["p".to_string(), "div".to_string()]);
    let node = Node::new_element("p");
    assert!(filter.matches(&node, false, &TurndownOptions::default()));
}

#[test]
fn test_new() {
    let turndown = Turndown::new();
    assert_eq!(turndown.options().heading_style, HeadingStyle::Atx);
}

#[test]
fn test_escape() {
    let turndown = Turndown::new();
    let text = "Test [brackets] and *asterisks*";
    let escaped = turndown.escape(text);
    assert!(escaped.contains("\\["));
    assert!(escaped.contains("\\*"));
}

#[test]
fn test_empty_input() {
    let turndown = Turndown::new();
    let result = turndown.convert(&Node::new_document());
    assert_eq!(result, "");
}

#[test]
fn test_simple_paragraph() {
    let turndown = Turndown::new();
    let mut doc = Node::new_document();
    let mut p = Node::new_element("p");
    p.add_child(Node::new_text("Hello World"));
    doc.add_child(p);
    let result = turndown.convert(&doc);
    assert!(!result.is_empty());
}
