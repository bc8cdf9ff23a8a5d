use browser_use::dom::{DomTree, ElementNode};
use browser_use::snapshot::{
    append_with_index, generate_snapshot, get_direct_text_content, get_text_content,
};

#[test]
fn snapshot_test_empty_dom_tree() {
    let root = ElementNode::new("body");
    let dom_tree = DomTree::new(root);
    assert_eq!(dom_tree.count_interactive(), 0);
}

#[test]
fn test_generate_snapshot_simple() {
    let mut root = ElementNode::new("body");
    root.is_visible = true;

    let mut heading = ElementNode::new("h1");
    heading.text_content = Some("Welcome".to_string());
    heading.is_visible = true;
    root.add_child(heading);

    let mut button = ElementNode::new("button");
    button.text_content = Some("Click me".to_string());
    button.is_visible = true;
    button.is_interactive = true;
    button.index = Some(0);
    root.add_child(button);

    let snapshot = generate_snapshot(&root, 0);
    assert!(snapshot.contains("# Welcome"));
    assert!(snapshot.contains("[0] Click me"));
}

#[test]
fn test_generate_snapshot_with_links() {
    let mut root = ElementNode::new("body");
    root.is_visible = true;

    let mut link = ElementNode::new("a");
    link.add_attribute("href", "https://example.com");
    link.text_content = Some("Example Link".to_string());
    link.is_visible = true;
    link.is_interactive = true;
    link.index = Some(5);
    root.add_child(link);

    let snapshot = generate_snapshot(&root, 0);
    assert!(snapshot.contains("[5] Example Link (https://example.com)"));
}

#[test]
fn test_generate_snapshot_with_input() {
    let mut root = ElementNode::new("body");
    root.is_visible = true;

    let mut input = ElementNode::new("input");
    input.add_attribute("type", "text");
    input.add_attribute("placeholder", "Enter your name");
    input.is_visible = true;
    input.is_interactive = true;
    input.index = Some(10);
    root.add_child(input);

    let snapshot = generate_snapshot(&root, 0);
    assert!(snapshot.contains("[10]"));
    assert!(snapshot.contains("input"));
    assert!(snapshot.contains("placeholder=\"Enter your name\""));
}

fn shown(tag: &str) -> ElementNode {
    let mut n = ElementNode::new(tag);
    n.is_visible = true;
    n
}

fn leaf(tag: &str, text: &str) -> ElementNode {
    let mut n = shown(tag);
    n.text_content = Some(text.to_string());
    n
}

#[test]
fn snapshot_heading_then_button_on_separate_lines() {
    let mut root = shown("body");
    root.add_child(leaf("h1", "Welcome"));
    let mut button = leaf("button", "Click me");
    button.is_interactive = true;
    button.index = Some(0);
    root.add_child(button);
    let snapshot = generate_snapshot(&root, 0);
    assert_eq!(snapshot, "# Welcome\n[0] Click me\n");
}

#[test]
fn snapshot_link_line_exact() {
    let mut root = shown("body");
    let mut link = leaf("a", "Example Link");
    link.add_attribute("href", "https://example.com");
    link.is_interactive = true;
    link.index = Some(5);
    root.add_child(link);
    let snapshot = generate_snapshot(&root, 0);
    assert_eq!(snapshot, "[5] Example Link (https://example.com)\n");
}

#[test]
fn snapshot_link_variants() {
    let mut root = shown("body");
    root.add_child(leaf("a", "Only text"));
    let mut bare = shown("a");
    bare.add_attribute("href", "/home");
    root.add_child(bare);
    root.add_child(shown("a"));
    assert_eq!(generate_snapshot(&root, 0), "Only text\n<link /home>\n<link >\n");
}

#[test]
fn snapshot_heading_levels() {
    let mut root = shown("body");
    for (tag, text) in [("h2", "Two"), ("h3", "Three"), ("h6", "Six")] {
        root.add_child(leaf(tag, text));
    }
    assert_eq!(generate_snapshot(&root, 0), "## Two\n### Three\n###### Six\n");
}

#[test]
fn snapshot_form_controls() {
    let mut root = shown("form");
    root.add_child(shown("input"));
    let mut area = shown("textarea");
    area.add_attribute("placeholder", "Say");
    root.add_child(area);
    root.add_child(shown("textarea"));
    root.add_child(shown("select"));
    root.add_child(shown("button"));
    root.add_child(shown("label"));
    root.add_child(leaf("label", "  Name "));
    assert_eq!(
        generate_snapshot(&root, 0),
        "<input type=\"text\">,\n<textarea placeholder=\"Say\">\n<textarea>\n<select>\n<button>\nName\n"
    );
}

#[test]
fn snapshot_hidden_subtree_is_pruned() {
    let mut root = shown("body");
    let mut hidden = shown("div");
    hidden.is_visible = false;
    hidden.add_child(leaf("p", "secret"));
    root.add_child(hidden);
    root.add_child(leaf("p", "shown"));
    assert_eq!(generate_snapshot(&root, 0), "shown\n");
}

#[test]
fn snapshot_hidden_root_is_still_visited() {
    let mut root = shown("body");
    root.is_visible = false;
    root.add_child(leaf("p", "inside"));
    assert_eq!(generate_snapshot(&root, 0), "inside\n");
    assert_eq!(generate_snapshot(&root, 1), "");
}

#[test]
fn snapshot_list_items_are_indented() {
    let mut list = shown("ul");
    list.add_child(leaf("li", "First"));
    let mut inner = shown("ul");
    inner.add_child(leaf("li", "Nested"));
    let mut item = shown("li");
    item.add_child(inner);
    list.add_child(item);
    let mut root = shown("body");
    root.add_child(list);
    assert_eq!(generate_snapshot(&root, 0), "  • First\n  • \n      • Nested\n");
}

#[test]
fn snapshot_unknown_tags() {
    let mut root = shown("body");
    let mut widget = shown("custom-widget");
    widget.is_interactive = true;
    widget.index = Some(3);
    widget.add_child(leaf("p", "not shown"));
    root.add_child(widget);
    let mut plain = leaf("em", "plain");
    plain.index = Some(9);
    root.add_child(plain);
    assert_eq!(generate_snapshot(&root, 0), "[3] <custom-widget>\n[9] plain\n");
}

#[test]
fn snapshot_text_truncated_at_two_hundred() {
    let long = "x".repeat(250);
    let mut root = shown("body");
    let mut button = leaf("button", &long);
    button.is_interactive = true;
    button.index = Some(1);
    root.add_child(button);
    let expected = format!("[1] {}...\n", "x".repeat(197));
    assert_eq!(generate_snapshot(&root, 0), expected);

    let text = "y".repeat(150);
    let node = leaf("span", &text);
    assert_eq!(get_text_content(&node), text);
}

#[test]
fn direct_text_rules() {
    let mut div = leaf("div", "  own text  ");
    let mut child = leaf("span", "child");
    child.is_visible = false;
    div.add_child(child);
    assert_eq!(get_direct_text_content(&div), "own text");

    let mut with_child = leaf("div", "own text");
    with_child.add_child(leaf("span", "child"));
    assert_eq!(get_direct_text_content(&with_child), "");

    let mut long = leaf("div", &"z".repeat(100));
    long.add_child(ElementNode::new("span"));
    assert_eq!(get_direct_text_content(&long), "");
    assert_eq!(get_direct_text_content(&shown("div")), "");
}

#[test]
fn append_with_index_prefixes_handles() {
    let mut out = String::new();
    let mut node = shown("button");
    append_with_index(&mut out, &node, "Go");
    node.index = Some(12);
    append_with_index(&mut out, &node, "Go");
    assert_eq!(out, "Go\n[12] Go\n");
}
