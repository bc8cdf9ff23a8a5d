use browser_use::dom::{DomTree, ElementNode};

fn sample_page() -> ElementNode {
    let mut root = ElementNode::new("body");
    let mut nav = ElementNode::new("nav");
    let mut home = ElementNode::new("a");
    home.is_interactive = true;
    home.add_attribute("id", "home-link");
    home.text_content = Some("Home".to_string());
    nav.add_child(home);
    let mut about = ElementNode::new("a");
    about.is_interactive = true;
    about.text_content = Some("About".to_string());
    nav.add_child(about);
    root.add_child(nav);
    root.add_child(ElementNode::new("p"));
    let mut button = ElementNode::new("button");
    button.is_interactive = true;
    button.add_attribute("id", "9 bad id");
    root.add_child(button);
    let mut stale = ElementNode::new("span");
    stale.index = Some(42);
    root.add_child(stale);
    root
}

#[test]
fn indexing_assigns_handles_in_document_order() {
    let dom = DomTree::new(sample_page());
    assert_eq!(dom.interactive_indices(), vec![0, 1, 2]);
    assert_eq!(dom.get_selector(0), Some("#home-link".to_string()));
    assert_eq!(
        dom.get_selector(1),
        Some("body > nav:nth-child(1) > a:nth-child(2)".to_string())
    );
    assert_eq!(dom.get_selector(2), Some("body > button:nth-child(3)".to_string()));
    assert_eq!(dom.get_selector(3), None);
    assert_eq!(dom.get_selector(42), None);
    assert_eq!(dom.root.children[3].index, None);
    assert_eq!(dom.count_elements(), 7);
    assert_eq!(dom.count_interactive(), 3);
}

#[test]
fn indexing_is_deterministic() {
    let a = DomTree::new(sample_page());
    let b = DomTree::new(sample_page());
    assert_eq!(a.interactive_indices(), b.interactive_indices());
    for k in a.interactive_indices() {
        assert_eq!(a.get_selector(k), b.get_selector(k));
        let na = a.find_node_by_index(k).unwrap();
        let nb = b.find_node_by_index(k).unwrap();
        assert_eq!(na.tag_name, nb.tag_name);
        assert_eq!(na.text_content, nb.text_content);
    }
}

#[test]
fn handles_are_unique_and_resolve() {
    let dom = DomTree::new(sample_page());
    let ids = dom.interactive_indices();
    for (pos, k) in ids.iter().enumerate() {
        assert_eq!(*k, pos);
        let node = dom.find_node_by_index(*k).unwrap();
        assert_eq!(node.index, Some(*k));
        assert!(node.is_interactive);
        assert!(!dom.get_selector(*k).unwrap().is_empty());
    }
    assert!(dom.find_node_by_index(ids.len()).is_none());
    assert_eq!(dom.selector_map.len(), 3);
}

#[test]
fn node_without_locator_gets_no_handle() {
    let mut root = ElementNode::new("");
    let mut button = ElementNode::new("button");
    button.is_interactive = true;
    root.add_child(button);
    let mut named = ElementNode::new("button");
    named.is_interactive = true;
    named.add_attribute("id", "ok");
    root.add_child(named);
    let dom = DomTree::new(root);
    assert_eq!(dom.interactive_indices(), vec![0]);
    assert_eq!(dom.get_selector(0), Some("#ok".to_string()));
    assert_eq!(dom.root.children[0].index, None);
    assert_eq!(dom.root.children[1].index, Some(0));
}

#[test]
fn interactive_root_is_indexed_by_tag() {
    let mut root = ElementNode::new("button");
    root.is_interactive = true;
    let dom = DomTree::new(root);
    assert_eq!(dom.get_selector(0), Some("button".to_string()));
    assert_eq!(dom.root.index, Some(0));
}

#[test]
fn attributes_replace_and_lookup() {
    let mut node = ElementNode::new("input");
    assert_eq!(node.get_attribute("type"), None);
    node.add_attribute("type", "text");
    node.add_attribute("name", "q");
    node.add_attribute("type", "search");
    assert_eq!(node.get_attribute("type"), Some(&"search".to_string()));
    assert_eq!(node.get_attribute("name"), Some(&"q".to_string()));
    assert_eq!(node.attributes.len(), 2);
}

#[test]
fn new_node_defaults_and_counts() {
    let mut node = ElementNode::new("div");
    assert_eq!(node.tag_name, "div");
    assert!(!node.is_visible);
    assert!(!node.is_interactive);
    assert!(node.index.is_none());
    assert!(node.text_content.is_none());
    assert!(node.bounding_box.is_none());
    assert_eq!(node.count_elements(), 1);
    let mut child = ElementNode::new("button");
    child.is_interactive = true;
    node.add_child(child);
    node.add_child(ElementNode::new("span"));
    assert_eq!(node.children[0].tag_name, "button");
    assert_eq!(node.count_elements(), 3);
    assert_eq!(node.count_interactive(), 1);
}

use browser_use::classify::{classify, RenderFacts};
use browser_use::dom::BoundingBox;

fn shown() -> RenderFacts {
    RenderFacts { display_none: false, visibility_hidden: false }
}

fn boxed(tag: &str) -> ElementNode {
    let mut n = ElementNode::new(tag);
    n.bounding_box = Some(BoundingBox { x: 0, y: 0, width: 10, height: 10 });
    n
}

#[test]
fn classify_visibility() {
    let mut p = boxed("p");
    classify(&mut p, &shown());
    assert!(p.is_visible);
    assert!(!p.is_interactive);

    let mut script = boxed("script");
    classify(&mut script, &shown());
    assert!(!script.is_visible);

    let mut flat = ElementNode::new("div");
    flat.bounding_box = Some(BoundingBox { x: 5, y: 5, width: 0, height: 10 });
    classify(&mut flat, &shown());
    assert!(!flat.is_visible);

    let mut none = boxed("div");
    classify(&mut none, &RenderFacts { display_none: true, visibility_hidden: false });
    assert!(!none.is_visible);

    let mut unboxed = ElementNode::new("div");
    classify(&mut unboxed, &shown());
    assert!(!unboxed.is_visible);
}

#[test]
fn classify_interactivity() {
    let mut button = boxed("button");
    classify(&mut button, &shown());
    assert!(button.is_interactive);

    let mut hidden_button = boxed("button");
    classify(&mut hidden_button, &RenderFacts { display_none: false, visibility_hidden: true });
    assert!(!hidden_button.is_interactive);

    let mut label = boxed("label");
    classify(&mut label, &shown());
    assert!(!label.is_interactive);
    label.add_attribute("for", "email");
    classify(&mut label, &shown());
    assert!(label.is_interactive);

    let mut role = boxed("div");
    role.add_attribute("role", "checkbox");
    classify(&mut role, &shown());
    assert!(role.is_interactive);

    let mut tab = boxed("span");
    tab.add_attribute("tabindex", "0");
    classify(&mut tab, &shown());
    assert!(tab.is_interactive);

    let mut untab = boxed("span");
    untab.add_attribute("tabindex", "-1");
    classify(&mut untab, &shown());
    assert!(!untab.is_interactive);
}

#[test]
fn shared_id_falls_back_to_position() {
    let mut root = ElementNode::new("body");
    for _ in 0..2 {
        let mut b = ElementNode::new("button");
        b.is_interactive = true;
        b.add_attribute("id", "dup");
        root.add_child(b);
    }
    let mut other = ElementNode::new("span");
    other.add_attribute("id", "solo");
    other.is_interactive = true;
    root.add_child(other);
    let dom = DomTree::new(root);
    assert_eq!(dom.get_selector(0), Some("body > button:nth-child(1)".to_string()));
    assert_eq!(dom.get_selector(1), Some("body > button:nth-child(2)".to_string()));
    assert_eq!(dom.get_selector(2), Some("#solo".to_string()));
}
