use browser_use::dom::{DomTree, ElementNode};

#[test]
fn element_json_lists_fields_in_order() {
    let mut node = ElementNode::new("a");
    node.add_attribute("href", "/x?a=\"1\"");
    node.add_attribute("id", "go");
    node.text_content = Some("Go\nnow".to_string());
    node.is_visible = true;
    node.is_interactive = true;
    assert_eq!(
        node.to_json(),
        "{\"tag_name\":\"a\",\"attributes\":{\"href\":\"/x?a=\\\"1\\\"\",\"id\":\"go\"},\
         \"text_content\":\"Go\\nnow\",\"is_visible\":true,\"is_interactive\":true,\"children\":[]}"
    );
}

#[test]
fn tree_json_carries_handles_and_children() {
    let mut root = ElementNode::new("body");
    root.is_visible = true;
    let mut button = ElementNode::new("button");
    button.is_visible = true;
    button.is_interactive = true;
    button.add_attribute("id", "test-btn");
    root.add_child(button);
    let hidden = ElementNode::new("p");
    root.add_child(hidden);
    let dom = DomTree::new(root);
    let json = dom.to_json();
    assert_eq!(
        json,
        "{\"tag_name\":\"body\",\"attributes\":{},\"text_content\":null,\"is_visible\":true,\
         \"is_interactive\":false,\"children\":[\
         {\"tag_name\":\"button\",\"attributes\":{\"id\":\"test-btn\"},\"text_content\":null,\
         \"is_visible\":true,\"is_interactive\":true,\"index\":0,\"children\":[]},\
         {\"tag_name\":\"p\",\"attributes\":{},\"text_content\":null,\"is_visible\":false,\
         \"is_interactive\":false,\"children\":[]}]}"
    );
    let parsed: serde_json::Value = serde_json::from_str(&json).unwrap();
    assert_eq!(parsed["children"][0]["index"], serde_json::Value::from(0));
    assert!(parsed["children"][1].get("index").is_none());
}
