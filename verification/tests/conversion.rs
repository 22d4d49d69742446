use turndown::CodeBlockStyle;
use turndown::HeadingStyle;
use turndown::LinkReferenceStyle;
use turndown::LinkStyle;
use turndown::Node;
use turndown::Replacement;
use turndown::Rule;
use turndown::RuleFilter;
use turndown::Turndown;
use turndown::TurndownOptions;

fn elem(name: &str) -> Node {
    Node::new_element(name)
}

fn elem_with_text(name: &str, text: &str) -> Node {
    let mut e = Node::new_element(name);
    e.add_child(Node::new_text(text));
    e
}

fn doc_of(children: Vec<Node>) -> Node {
    let mut doc = Node::new_document();
    for child in children {
        doc.add_child(child);
    }
    doc
}

#[test]
fn test_default_options() {
    let turndown = Turndown::new();
    let doc = doc_of(vec![elem_with_text("p", "Hello")]);
    let md = turndown.convert(&doc);
    assert!(!md.is_empty());
}

#[test]
fn test_escape_markdown() {
    let turndown = Turndown::new();
    let text = "Test [brackets] and *asterisks*";
    let escaped = turndown.escape(text);
    assert!(escaped.contains("\\["));
    assert!(escaped.contains("\\*"));
}

#[test]
fn test_tracking_image_stripping() {
    let mut options = TurndownOptions::default();
    options.strip_tracking_images = true;
    options.strip_images_without_alt = true;
    options.tracking_image_pattern = Some(
        "(?i)(pixel|beacon|track|analytics|spacer|tagpixel|emimp/ip_|utm_|clicktracking)"
            .to_string(),
    );

    let turndown = Turndown::with_options(options);

    let mut img_tracker = elem("img");
    img_tracker.set_attribute("src", "https://analytics.example.com/track.php");
    img_tracker.set_attribute("alt", "");
    let mut img_beacon = elem("img");
    img_beacon.set_attribute("src", "https://example.com/beacon");
    img_beacon.set_attribute("alt", "tracking");
    let mut img_logo = elem("img");
    img_logo.set_attribute("src", "https://example.com/logo.png");
    img_logo.set_attribute("alt", "Logo");

    let doc = doc_of(vec![
        elem_with_text("p", "Content before"),
        img_tracker,
        img_beacon,
        elem_with_text("p", "Content after"),
        img_logo,
    ]);

    let result = turndown.convert(&doc);

    assert!(result.contains("Content before"));
    assert!(result.contains("Content after"));
    assert!(result.contains("Logo"));

    assert!(!result.contains("track.php"));
    assert!(!result.contains("beacon"));
}

#[test]
fn test_images_without_alt_stripping() {
    let mut options = TurndownOptions::default();
    options.strip_tracking_images = true;
    options.strip_images_without_alt = true;

    let turndown = Turndown::with_options(options);

    let mut img1 = elem("img");
    img1.set_attribute("src", "https://example.com/image1.png");
    let mut img2 = elem("img");
    img2.set_attribute("src", "https://example.com/image2.jpg");
    let mut img_real = elem("img");
    img_real.set_attribute("src", "https://example.com/real-image.png");
    img_real.set_attribute("alt", "Meaningful");

    let doc = doc_of(vec![
        elem_with_text("p", "Before"),
        img1,
        elem_with_text("p", "Middle"),
        img2,
        img_real,
        elem_with_text("p", "After"),
    ]);

    let result = turndown.convert(&doc);

    assert!(result.contains("Before"));
    assert!(result.contains("After"));
    assert!(result.contains("Meaningful"));

    assert!(!result.contains("image1.png"));
    assert!(!result.contains("image2.jpg"));
}

#[test]
fn test_tracking_stripping_disabled_by_default() {
    let turndown = Turndown::new();

    let mut img_tracker = elem("img");
    img_tracker.set_attribute("src", "https://analytics.example.com/track.php");
    img_tracker.set_attribute("alt", "");
    let mut img_plain = elem("img");
    img_plain.set_attribute("src", "https://example.com/image.png");

    let doc = doc_of(vec![
        elem_with_text("p", "Content"),
        img_tracker,
        img_plain,
    ]);

    let result = turndown.convert(&doc);

    assert!(result.contains("track.php"));
    assert!(result.contains("image.png"));
}

#[test]
fn test_strong_in_paragraph() {
    let turndown = Turndown::new();
    let mut p = elem("p");
    p.add_child(Node::new_text("Hello "));
    p.add_child(elem_with_text("strong", "World"));
    let doc = doc_of(vec![p]);
    assert_eq!(turndown.convert(&doc), "Hello **World**");
}

#[test]
fn test_unordered_list_default_bullet() {
    let turndown = Turndown::new();
    let mut ul = elem("ul");
    ul.add_child(elem_with_text("li", "a"));
    ul.add_child(elem_with_text("li", "b"));
    let doc = doc_of(vec![ul]);
    assert_eq!(turndown.convert(&doc), "* a\n* b");
}

#[test]
fn test_inline_link_default_style() {
    let turndown = Turndown::new();
    let mut a = elem_with_text("a", "text");
    a.set_attribute("href", "http://x.com");
    let doc = doc_of(vec![a]);
    assert_eq!(turndown.convert(&doc), "[text](http://x.com)");
}

#[test]
fn test_blank_paragraph_run_collapses() {
    let turndown = Turndown::new();
    let doc = doc_of(vec![
        elem_with_text("p", "first"),
        elem("p"),
        elem("p"),
        elem("p"),
        elem_with_text("p", "last"),
    ]);
    assert_eq!(turndown.convert(&doc), "first\n\nlast");
}

#[test]
fn test_atx_heading_levels() {
    let turndown = Turndown::new();
    let doc = doc_of(vec![elem_with_text("h2", "Title")]);
    assert_eq!(turndown.convert(&doc), "## Title");
    let doc6 = doc_of(vec![elem_with_text("h6", "Deep")]);
    assert_eq!(turndown.convert(&doc6), "###### Deep");
}

#[test]
fn test_setext_heading() {
    let mut options = TurndownOptions::default();
    options.heading_style = HeadingStyle::Setext;
    let turndown = Turndown::with_options(options);
    let doc = doc_of(vec![elem_with_text("h1", "Hi")]);
    assert_eq!(turndown.convert(&doc), "Hi\n==");
}

#[test]
fn test_ordered_list_numbering_ignores_source_hints() {
    let turndown = Turndown::new();
    let mut ol = elem("ol");
    let mut li1 = elem_with_text("li", "a");
    li1.set_attribute("value", "7");
    ol.add_child(li1);
    ol.add_child(elem_with_text("li", "b"));
    ol.add_child(elem_with_text("li", "c"));
    let doc = doc_of(vec![ol]);
    assert_eq!(turndown.convert(&doc), "1.  a\n2.  b\n3.  c");
}

#[test]
fn test_blockquote_prefixes_lines() {
    let turndown = Turndown::new();
    let mut bq = elem("blockquote");
    bq.add_child(elem_with_text("p", "quoted"));
    let doc = doc_of(vec![bq]);
    assert_eq!(turndown.convert(&doc), "> quoted");
}

#[test]
fn test_fenced_code_block() {
    let turndown = Turndown::new();
    let mut pre = elem("pre");
    pre.add_child(elem_with_text("code", "x = 1"));
    let doc = doc_of(vec![pre]);
    assert_eq!(turndown.convert(&doc), "```\nx = 1\n```");
}

#[test]
fn test_indented_code_block_style() {
    let mut options = TurndownOptions::default();
    options.code_block_style = CodeBlockStyle::Indented;
    let turndown = Turndown::with_options(options);
    let mut pre = elem("pre");
    pre.add_child(elem_with_text("code", "x = 1"));
    let doc = doc_of(vec![pre]);
    assert_eq!(turndown.convert(&doc), "x = 1");
}

#[test]
fn test_inline_code_backticks() {
    let turndown = Turndown::new();
    let mut code = elem("code");
    let mut text = Node::new_text("y");
    text.is_code = true;
    code.add_child(text);
    let doc = doc_of(vec![code]);
    assert_eq!(turndown.convert(&doc), "`y`");
}

#[test]
fn test_inline_code_with_inner_backtick() {
    let turndown = Turndown::new();
    let mut code = elem("code");
    let mut text = Node::new_text("a`b");
    text.is_code = true;
    code.add_child(text);
    let doc = doc_of(vec![code]);
    assert_eq!(turndown.convert(&doc), "`` a`b ``");
}

#[test]
fn test_horizontal_rule_marker() {
    let turndown = Turndown::new();
    let doc = doc_of(vec![
        elem_with_text("p", "x"),
        elem("hr"),
        elem_with_text("p", "y"),
    ]);
    assert_eq!(turndown.convert(&doc), "x\n\n* * *\n\ny");
}

#[test]
fn test_line_break_marker() {
    let turndown = Turndown::new();
    let mut p = elem("p");
    p.add_child(Node::new_text("a"));
    p.add_child(elem("br"));
    p.add_child(Node::new_text("b"));
    let doc = doc_of(vec![p]);
    assert_eq!(turndown.convert(&doc), "a  \nb");
}

#[test]
fn test_image_with_title() {
    let turndown = Turndown::new();
    let mut img = elem("img");
    img.set_attribute("alt", "Logo");
    img.set_attribute("src", "http://e.com/l.png");
    img.set_attribute("title", "T");
    let doc = doc_of(vec![img]);
    assert_eq!(turndown.convert(&doc), "![Logo](http://e.com/l.png \"T\")");
}

#[test]
fn test_pixel_image_always_dropped() {
    let turndown = Turndown::new();
    let mut img = elem("img");
    img.set_attribute("src", "http://e.com/spacer.gif");
    img.set_attribute("width", "1");
    img.set_attribute("height", "1");
    let doc = doc_of(vec![elem_with_text("p", "around"), img]);
    assert_eq!(turndown.convert(&doc), "around");
}

#[test]
fn test_superscript_and_subscript() {
    let turndown = Turndown::new();
    let mut p = elem("p");
    p.add_child(Node::new_text("x"));
    p.add_child(elem_with_text("sup", "2"));
    let doc = doc_of(vec![p]);
    assert_eq!(turndown.convert(&doc), "x<sup>2</sup>");

    let mut p2 = elem("p");
    p2.add_child(Node::new_text("H"));
    p2.add_child(elem_with_text("sub", "2"));
    p2.add_child(Node::new_text("O"));
    let doc2 = doc_of(vec![p2]);
    assert_eq!(turndown.convert(&doc2), "H<sub>2</sub> O");
}

#[test]
fn test_reference_link_styles() {
    let mut options = TurndownOptions::default();
    options.link_style = LinkStyle::Referenced;
    let turndown = Turndown::with_options(options);
    let mut a = elem_with_text("a", "text");
    a.set_attribute("href", "http://x.com");
    let doc = doc_of(vec![a]);
    assert_eq!(turndown.convert(&doc), "[text][1]");

    let mut options2 = TurndownOptions::default();
    options2.link_style = LinkStyle::Referenced;
    options2.link_reference_style = LinkReferenceStyle::Collapsed;
    let turndown2 = Turndown::with_options(options2);
    assert_eq!(turndown2.convert(&doc), "text[]");

    let mut options3 = TurndownOptions::default();
    options3.link_style = LinkStyle::Referenced;
    options3.link_reference_style = LinkReferenceStyle::Shortcut;
    let turndown3 = Turndown::with_options(options3);
    assert_eq!(turndown3.convert(&doc), "[text]");
}

#[test]
fn test_link_href_parentheses_escaped() {
    let turndown = Turndown::new();
    let mut a = elem_with_text("a", "text");
    a.set_attribute("href", "http://x.com/a(b)");
    let doc = doc_of(vec![a]);
    assert_eq!(turndown.convert(&doc), "[text](http://x.com/a\\(b\\))");
}

#[test]
fn test_escape_leading_markers() {
    let turndown = Turndown::new();
    assert_eq!(turndown.escape("# Hello"), "\\# Hello");
    assert_eq!(turndown.escape("1. item"), "1\\. item");
    assert_eq!(turndown.escape("- x"), "\\- x");
    assert_eq!(turndown.escape("a_b"), "a\\_b");
    assert_eq!(turndown.escape("back\\slash"), "back\\\\slash");
}

#[test]
fn test_emphasis_delimiters() {
    let turndown = Turndown::new();
    let mut p = elem("p");
    p.add_child(elem_with_text("em", "it"));
    let doc = doc_of(vec![p]);
    assert_eq!(turndown.convert(&doc), "_it_");
}

#[test]
fn test_empty_emphasis_renders_nothing() {
    let turndown = Turndown::new();
    let mut p = elem("p");
    p.add_child(Node::new_text("a"));
    p.add_child(elem_with_text("em", "  "));
    p.add_child(Node::new_text("b"));
    let doc = doc_of(vec![p]);
    assert_eq!(turndown.convert(&doc), "a    b");
}

#[test]
fn test_keep_renders_raw_markup() {
    let mut turndown = Turndown::new();
    turndown.keep(RuleFilter::Tag("custom".to_string()));
    let doc = doc_of(vec![elem_with_text("custom", "x")]);
    assert_eq!(turndown.convert(&doc), "<custom>x</custom>");
}

#[test]
fn test_remove_drops_subtree() {
    let mut turndown = Turndown::new();
    turndown.remove(RuleFilter::Tag("aside".to_string()));
    let doc = doc_of(vec![
        elem_with_text("p", "keep"),
        elem_with_text("aside", "gone"),
    ]);
    let result = turndown.convert(&doc);
    assert!(result.contains("keep"));
    assert!(!result.contains("gone"));
}

#[test]
fn test_add_rule_takes_precedence() {
    let mut turndown = Turndown::new();
    turndown.add_rule(
        "silencer".to_string(),
        Rule {
            filter: RuleFilter::Tag("p".to_string()),
            replacement: Replacement::DropContent,
        },
    );
    let doc = doc_of(vec![elem_with_text("p", "x")]);
    assert_eq!(turndown.convert(&doc), "");
}

#[test]
fn test_hidden_preheader_stays_inline() {
    let turndown = Turndown::new();
    let mut div = elem("div");
    div.set_attribute("data-email-preheader", "1");
    div.add_child(Node::new_text(" hi "));
    let doc = doc_of(vec![div]);
    assert_eq!(turndown.convert(&doc), "hi");
}

#[test]
fn test_paragraph_inside_list_item_is_inline() {
    let turndown = Turndown::new();
    let mut ul = elem("ul");
    let mut li = elem("li");
    li.add_child(elem_with_text("p", "inner"));
    ul.add_child(li);
    let doc = doc_of(vec![ul]);
    assert_eq!(turndown.convert(&doc), "* inner");
}

#[test]
fn test_to_outer_html_roundtrip_shape() {
    let mut a = Node::new_element("a");
    a.set_attribute("href", "http://x.com");
    a.add_child(Node::new_text("text"));
    assert_eq!(a.to_outer_html(), "<a href=\"http://x.com\">text</a>");
}

#[test]
fn test_flanking_whitespace_moves_outside_delimiters() {
    let turndown = Turndown::new();
    let mut p = elem("p");
    p.add_child(Node::new_text("a"));
    p.add_child(elem_with_text("strong", " bold "));
    p.add_child(Node::new_text("b"));
    let doc = doc_of(vec![p]);
    assert_eq!(turndown.convert(&doc), "a **bold** b");
}

#[test]
fn test_is_meaningful_when_blank() {
    assert!(turndown::is_meaningful_when_blank("a"));
    assert!(turndown::is_meaningful_when_blank("TABLE"));
    assert!(!turndown::is_meaningful_when_blank("div"));
    let table = Node::new_element("table");
    assert!(!table.is_blank());
}

#[test]
fn test_is_tracking_image_pattern() {
    assert!(turndown::is_tracking_image(
        "https://example.com/pixel.gif",
        "alt",
        Some("(?i)pixel"),
        false
    ));
    assert!(!turndown::is_tracking_image(
        "https://example.com/photo.jpg",
        "alt",
        Some("(?i)pixel"),
        false
    ));
    assert!(turndown::is_tracking_image(
        "https://example.com/photo.jpg",
        "  ",
        None,
        true
    ));
    assert!(!turndown::is_tracking_image(
        "https://example.com/photo.jpg",
        "alt",
        Some("(?i)(unclosed"),
        false
    ));
}

#[test]
fn test_embedded_paragraph_blank_line_separation() {
    let turndown = Turndown::new();
    let mut p1 = elem("p");
    p1.add_child(Node::new_text("Hello "));
    p1.add_child(elem_with_text("strong", "World"));
    let doc = doc_of(vec![p1, elem_with_text("p", "next")]);
    assert_eq!(turndown.convert(&doc), "Hello **World**\n\nnext");
}

#[test]
fn test_empty_fence_string_falls_back_to_backticks() {
    let mut options = TurndownOptions::default();
    options.fence = String::new();
    let turndown = Turndown::with_options(options);
    let mut pre = elem("pre");
    pre.add_child(elem_with_text("code", "x"));
    let doc = doc_of(vec![pre]);
    assert_eq!(turndown.convert(&doc), "```\nx\n```");
}

#[test]
fn test_custom_bullet_marker() {
    let mut options = TurndownOptions::default();
    options.bullet_list_marker = "-".to_string();
    let turndown = Turndown::with_options(options);
    let mut ul = elem("ul");
    ul.add_child(elem_with_text("li", "a"));
    let doc = doc_of(vec![ul]);
    assert_eq!(turndown.convert(&doc), "- a");
}

#[test]
fn test_blank_classification_precedes_custom_rules() {
    let mut turndown = Turndown::new();
    turndown.add_rule(
        "markup".to_string(),
        Rule {
            filter: RuleFilter::Tag("div".to_string()),
            replacement: Replacement::KeepMarkup,
        },
    );
    let doc = doc_of(vec![
        elem_with_text("p", "a"),
        elem("div"),
        elem_with_text("p", "b"),
    ]);
    let result = turndown.convert(&doc);
    assert_eq!(result, "a\n\nb");
    assert!(!result.contains("<div>"));
}

#[test]
fn test_nested_link_content_passes_through() {
    let turndown = Turndown::new();
    let mut inner = elem_with_text("a", "text");
    inner.set_attribute("href", "http://v.com");
    let mut outer = elem("a");
    outer.set_attribute("href", "http://x.com");
    outer.add_child(inner);
    let doc = doc_of(vec![outer]);
    assert_eq!(turndown.convert(&doc), "[text](http://v.com)");
}

#[test]
fn test_inline_code_newline_collapses_to_space() {
    let turndown = Turndown::new();
    let mut code = elem("code");
    let mut text = Node::new_text("a\nb");
    text.is_code = true;
    code.add_child(text);
    let doc = doc_of(vec![code]);
    assert_eq!(turndown.convert(&doc), "`a b`");

    let mut code2 = elem("code");
    let mut text2 = Node::new_text("a\r\nb\rc");
    text2.is_code = true;
    code2.add_child(text2);
    let doc2 = doc_of(vec![code2]);
    assert_eq!(turndown.convert(&doc2), "`a b c`");
}

#[test]
fn test_rule_iteration_by_index() {
    let turndown = Turndown::new();
    let rules = &turndown.rules;
    assert_eq!(rules.len(), 22);
    let mut seen: usize = 0;
    let mut i: usize = 0;
    while let Some(_rule) = rules.rule_at(i) {
        seen += 1;
        i += 1;
    }
    assert_eq!(seen, 22);
    assert_eq!(
        rules.rule_at(0).unwrap().replacement,
        Replacement::Paragraph
    );
    assert!(rules.rule_at(22).is_none());
}

#[test]
fn test_trim_newlines() {
    assert_eq!(turndown::trim_newlines("\n\nboth\n"), "both");
    assert_eq!(turndown::trim_newlines("none"), "none");
}
