use std::cell::Cell;

use browser_use::clickable::clickable_listing;
use browser_use::dom::{DomTree, ElementNode};
use browser_use::error::BrowserError;
use browser_use::tools::{
    default_timeout, default_wait, resolve_selector, script_outcome, ClickParams, ClickTool,
    ElementSelector, GetClickableElementsTool, InputTool, NavigateTool, SelectParams, SnapshotTool,
    ToolContext,
    ToolKind, ToolRegistry, ToolResult,
};

fn page() -> ElementNode {
    let mut root = ElementNode::new("body");
    let mut button = ElementNode::new("button");
    button.is_visible = true;
    button.is_interactive = true;
    button.text_content = Some("  Submit  ".to_string());
    root.add_child(button);
    let mut link = ElementNode::new("a");
    link.is_visible = true;
    link.is_interactive = true;
    link.add_attribute("id", "home");
    root.add_child(link);
    root
}

#[test]
fn test_tool_name() {
    let tool = GetClickableElementsTool;
    assert_eq!(tool.name(), "get_clickable_elements");
}

#[test]
fn get_clickable_elements_test_empty_dom_tree() {
    let root = ElementNode::new("body");
    let dom_tree = DomTree::new(root);
    assert_eq!(dom_tree.count_interactive(), 0);
}

#[test]
fn test_tool_result_success() {
    let mut map = serde_json::Map::new();
    map.insert(
        "url".to_string(),
        serde_json::Value::String("https://example.com".to_string()),
    );
    let result = ToolResult::success(Some(serde_json::Value::Object(map)));
    assert!(result.success);
    assert!(result.data.is_some());
    assert!(result.error.is_none());
}

#[test]
fn test_tool_result_failure() {
    let result = ToolResult::failure("Test error");
    assert!(!result.success);
    assert!(result.data.is_none());
    assert_eq!(result.error, Some("Test error".to_string()));
}

#[test]
fn test_tool_result_with_metadata() {
    let result = ToolResult::success(None).with_metadata("duration_ms", serde_json::Value::from(100));

    assert!(result.has_metadata("duration_ms"));
}

#[test]
fn metadata_key_is_replaced() {
    let result = ToolResult::success(None)
        .with_metadata("a", serde_json::Value::from(1))
        .with_metadata("b", serde_json::Value::from(2))
        .with_metadata("a", serde_json::Value::from(3));
    assert_eq!(result.metadata.len(), 2);
    assert_eq!(result.metadata[0].0, "b");
    assert_eq!(result.metadata[1].1, serde_json::Value::from(3));
    assert!(!result.has_metadata("c"));
}

#[test]
fn test_tool_registry() {
    let registry = ToolRegistry::with_defaults();

    assert!(registry.has("navigate"));
    assert!(registry.has("click"));
    assert!(registry.has("input"));
    assert!(!registry.has("nonexistent"));

    assert!(registry.count() >= 7);
}

#[test]
fn test_tool_registry_list() {
    let registry = ToolRegistry::with_defaults();
    let names = registry.list_names();

    assert!(names.contains(&"navigate".to_string()));
    assert!(names.contains(&"click".to_string()));
}

#[test]
fn registry_register_and_get() {
    let mut registry = ToolRegistry::new();
    assert_eq!(registry.count(), 0);
    registry.register(ToolKind::Snapshot);
    registry.register(ToolKind::Click);
    registry.register(ToolKind::Snapshot);
    assert_eq!(registry.count(), 2);
    assert_eq!(registry.get("snapshot"), Some(ToolKind::Snapshot));
    assert_eq!(registry.get("click"), Some(ToolKind::Click));
    assert_eq!(registry.get("navigate"), None);
    assert_eq!(registry.list_names(), vec!["snapshot".to_string(), "click".to_string()]);
    assert_eq!(registry.all_tools(), vec![ToolKind::Snapshot, ToolKind::Click]);
    assert_eq!(ToolRegistry::with_defaults().count(), 10);
}

#[test]
fn execute_unknown_tool_is_a_failure_result() {
    let registry = ToolRegistry::with_defaults();
    let ran = Cell::new(false);
    let result = registry
        .execute("does-not-exist", |_| {
            ran.set(true);
            Ok(ToolResult::success(None))
        })
        .unwrap();
    assert!(!ran.get());
    assert!(!result.success);
    assert!(result.data.is_none());
    assert!(result.metadata.is_empty());
    assert_eq!(result.error, Some("Tool 'does-not-exist' not found".to_string()));

    let result = registry
        .execute("wait", |kind| {
            assert_eq!(kind, ToolKind::Wait);
            Ok(ToolResult::failure("ran"))
        })
        .unwrap();
    assert_eq!(result.error, Some("ran".to_string()));
    assert_eq!(ToolRegistry::default().count(), 10);
}

#[test]
fn test_click_params_css() {
    let params = ClickParams {
        selector: ElementSelector::from_fields("click", Some("#my-button".to_string()), None).unwrap(),
    };
    match params.selector {
        ElementSelector::Css { selector } => assert_eq!(selector, "#my-button"),
        _ => panic!("Expected CSS selector"),
    }
}

#[test]
fn test_click_params_index() {
    let params = ClickParams { selector: ElementSelector::from_fields("click", None, Some(5)).unwrap() };
    match params.selector {
        ElementSelector::Index { index } => assert_eq!(index, 5),
        _ => panic!("Expected index selector"),
    }
}

#[test]
fn test_select_params_css() {
    let params = SelectParams {
        selector: ElementSelector::from_fields("select", Some("#country-select".to_string()), None).unwrap(),
        value: "us".to_string(),
    };
    match params.selector {
        ElementSelector::Css { selector } => assert_eq!(selector, "#country-select"),
        _ => panic!("Expected CSS selector"),
    }
    assert_eq!(params.value, "us");
}

#[test]
fn test_select_params_index() {
    let params = SelectParams {
        selector: ElementSelector::from_fields("select", None, Some(5)).unwrap(),
        value: "option2".to_string(),
    };
    match params.selector {
        ElementSelector::Index { index } => assert_eq!(index, 5),
        _ => panic!("Expected index selector"),
    }
    assert_eq!(params.value, "option2");
}

#[test]
fn tool_names_and_defaults() {
    assert_eq!(NavigateTool.name(), "navigate");
    assert!(!NavigateTool.description().is_empty());
    assert_eq!(ClickTool.name(), "click");
    assert_eq!(SnapshotTool.name(), "snapshot");
    assert_eq!(ToolKind::GetClickableElements.name(), "get_clickable_elements");
    assert!(default_wait());
    assert_eq!(default_timeout(), 30000);
    assert_eq!(InputTool.clearing_keystrokes("héllo"), 105);
}

#[test]
fn selector_from_fields() {
    match ElementSelector::from_fields("click", Some("#my-button".to_string()), None) {
        Ok(ElementSelector::Css { selector }) => assert_eq!(selector, "#my-button"),
        _ => panic!("Expected CSS selector"),
    }
    match ElementSelector::from_fields("hover", None, Some(5)) {
        Ok(ElementSelector::Index { index }) => assert_eq!(index, 5),
        _ => panic!("Expected index selector"),
    }
    match ElementSelector::from_fields("click", None, None) {
        Err(BrowserError::InvalidArgument(m)) => assert_eq!(
            m,
            "Invalid click parameters: expected either 'selector' or 'index'"
        ),
        _ => panic!("expected invalid argument"),
    }
}

#[test]
fn context_reads_the_page_once() {
    let calls = Cell::new(0);
    let mut context = ToolContext::new();
    assert!(context.needs_extraction());
    {
        let dom = context
            .get_dom(|| {
                calls.set(calls.get() + 1);
                Ok(page())
            })
            .unwrap();
        assert_eq!(dom.selector_map.len(), 2);
    }
    assert!(!context.needs_extraction());
    let dom = context
        .get_dom(|| {
            calls.set(calls.get() + 1);
            Ok(ElementNode::new("body"))
        })
        .unwrap();
    assert_eq!(dom.selector_map.len(), 2);
    assert_eq!(calls.get(), 1);
}

#[test]
fn context_with_dom_never_reads() {
    let mut context = ToolContext::with_dom(DomTree::new(page()));
    let dom = context
        .get_dom(|| -> Result<ElementNode, BrowserError> { panic!("no read expected") })
        .unwrap();
    assert_eq!(dom.get_selector(1), Some("#home".to_string()));
}

#[test]
fn failed_read_is_reported_and_retried() {
    let mut context = ToolContext::new();
    let r = context.get_dom(|| Err(BrowserError::DomExtractionFailed("down".to_string())));
    assert!(matches!(r, Err(BrowserError::DomExtractionFailed(_))));
    assert!(context.needs_extraction());
}

#[test]
fn resolve_by_locator_and_by_handle() {
    let mut context = ToolContext::new();
    let css = ElementSelector::Css { selector: "#x".to_string() };
    let r = resolve_selector(&css, &mut context, || -> Result<ElementNode, BrowserError> {
        panic!("no read expected")
    });
    assert_eq!(r.unwrap(), "#x");
    assert!(context.needs_extraction());

    let by_index = ElementSelector::Index { index: 0 };
    let r = resolve_selector(&by_index, &mut context, || Ok(page()));
    assert_eq!(r.unwrap(), "body > button:nth-child(1)");

    let missing = ClickParams { selector: ElementSelector::Index { index: 7 } };
    match ClickTool.locate(&missing, &mut context, || Ok(page())) {
        Err(BrowserError::ElementNotFound(m)) => assert_eq!(m, "No element with index 7"),
        _ => panic!("expected element not found"),
    }
}

#[test]
fn script_outcomes() {
    assert!(script_outcome("hover", Some(true), None).is_ok());
    match script_outcome("hover", Some(false), None) {
        Err(BrowserError::ToolExecutionFailed { tool, reason }) => {
            assert_eq!(tool, "hover");
            assert_eq!(reason, "Unknown error");
        }
        _ => panic!("expected failure"),
    }
    match script_outcome("select", None, Some("Option not found".to_string())) {
        Err(e) => assert_eq!(e.message(), "Tool 'select' execution failed: Option not found"),
        _ => panic!("expected failure"),
    }
}

#[test]
fn error_messages() {
    assert_eq!(
        BrowserError::ElementNotFound("No element with index 3".to_string()).message(),
        "Element not found: No element with index 3"
    );
    assert_eq!(BrowserError::Timeout("late".to_string()).message(), "Timeout: late");
    assert_eq!(
        BrowserError::InvalidArgument("bad".to_string()).message(),
        "Invalid argument: bad"
    );
}

#[test]
fn snapshot_and_listing_tools() {
    let mut context = ToolContext::new();
    let outcome = SnapshotTool.take(&mut context, || Ok(page())).unwrap();
    assert_eq!(outcome.snapshot, "[0] Submit\n[1] <link >\n");
    assert_eq!(outcome.interactive_count, 2);
    let listing = GetClickableElementsTool.list(&mut context, || Ok(page())).unwrap();
    assert_eq!(listing.elements, "[0]<button>Submit</button>\n[1]<a>");
    assert_eq!(listing.count, 2);
}

#[test]
fn clickable_listing_of_empty_page() {
    let dom = DomTree::new(ElementNode::new("body"));
    let listing = clickable_listing(&dom);
    assert_eq!(listing.elements, "");
    assert_eq!(listing.count, 0);
}

#[test]
fn clickable_text_is_cut_at_one_hundred() {
    let text = "w".repeat(150);
    let mut root = ElementNode::new("body");
    let mut button = ElementNode::new("button");
    button.is_visible = true;
    button.is_interactive = true;
    button.text_content = Some(text.clone());
    root.add_child(button);
    let dom = DomTree::new(root);
    let listing = clickable_listing(&dom);
    let shown = format!("{}...", "w".repeat(97));
    assert_eq!(shown.chars().count(), 100);
    assert_eq!(listing.elements, format!("[0]<button>{}</button>", shown));
    let snapshot = browser_use::snapshot::generate_snapshot(&dom.root, 0);
    assert_eq!(snapshot, format!("[0] {}\n", text));
}

#[test]
fn every_error_kind_has_a_message() {
    let cases = [
        (BrowserError::LaunchFailed("x".to_string()), "Failed to launch browser: x"),
        (BrowserError::NavigationFailed("x".to_string()), "Navigation failed: x"),
        (BrowserError::DomExtractionFailed("x".to_string()), "DOM extraction failed: x"),
        (BrowserError::EvaluationFailed("x".to_string()), "JavaScript evaluation failed: x"),
        (BrowserError::ScreenshotFailed("x".to_string()), "Screenshot failed: x"),
        (
            BrowserError::ToolExecutionFailed { tool: "click".to_string(), reason: "x".to_string() },
            "Tool 'click' execution failed: x",
        ),
    ];
    for (error, text) in cases {
        assert_eq!(error.message(), text);
    }
}

#[test]
fn listing_reports_a_failed_read_and_caches_nothing() {
    let mut context = ToolContext::new();
    let r = GetClickableElementsTool.list(&mut context, || {
        Err(BrowserError::DomExtractionFailed("gone".to_string()))
    });
    match r {
        Err(BrowserError::DomExtractionFailed(m)) => assert_eq!(m, "gone"),
        _ => panic!("expected the reader's error"),
    }
    assert!(context.needs_extraction());
}

#[test]
fn snapshot_of_a_given_tree_reads_nothing() {
    let mut context = ToolContext::with_dom(DomTree::new(ElementNode::new("body")));
    let outcome = SnapshotTool
        .take(&mut context, || -> Result<ElementNode, BrowserError> { panic!("no read expected") })
        .unwrap();
    assert_eq!(outcome.snapshot, "");
    assert_eq!(outcome.interactive_count, 0);
}
