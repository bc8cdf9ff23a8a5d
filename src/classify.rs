//! Deciding, per element, whether it is visible and whether it is a target
//! for interaction.

use vstd::prelude::*;
use crate::dom::{attr_lookup, BoundingBox, ElementNode, NodeView};
use crate::text::same_text;

verus! {

/// What the page's computed style says of an element.
pub struct RenderFacts {
    /// `display: none`.
    pub display_none: bool,
    /// `visibility: hidden` or `collapse`.
    pub visibility_hidden: bool,
}

/// Tags that never render content of their own.
pub open spec fn is_excluded_tag(tag: Seq<char>) -> bool {
    tag == "script"@ || tag == "style"@ || tag == "meta"@ || tag == "head"@ || tag == "link"@
        || tag == "noscript"@ || tag == "template"@ || tag == "title"@
}

/// Tags that the browser itself makes interactive.
pub open spec fn is_native_interactive_tag(tag: Seq<char>) -> bool {
    tag == "button"@ || tag == "a"@ || tag == "input"@ || tag == "select"@ || tag == "textarea"@
        || tag == "option"@ || tag == "summary"@
}

/// ARIA roles of widgets a user acts on.
pub open spec fn is_interactive_role(role: Seq<char>) -> bool {
    role == "button"@ || role == "link"@ || role == "checkbox"@ || role == "radio"@ || role == "tab"@
        || role == "menuitem"@ || role == "option"@ || role == "switch"@ || role == "textbox"@
        || role == "combobox"@ || role == "slider"@ || role == "searchbox"@
}

pub open spec fn box_non_empty(b: Option<BoundingBox>) -> bool {
    match b {
        Some(r) => r.width > 0 && r.height > 0,
        None => false,
    }
}

/// Visible: not an excluded tag, not hidden by style, and with a non-empty box.
pub open spec fn visible_spec(n: NodeView, b: Option<BoundingBox>, f: RenderFacts) -> bool {
    !is_excluded_tag(n.tag) && !f.display_none && !f.visibility_hidden && box_non_empty(b)
}

/// A `tabindex` that puts the element in the tab order (not negative).
pub open spec fn tab_reachable(n: NodeView) -> bool {
    match attr_lookup(n.attributes, "tabindex"@) {
        Some(v) => v.len() > 0 && v[0] != '-',
        None => false,
    }
}

/// Interactive: visible, and a native control, a label bound to a control,
/// an element with an interactive role, or one in the tab order.
pub open spec fn interactive_spec(n: NodeView, b: Option<BoundingBox>, f: RenderFacts) -> bool {
    &&& visible_spec(n, b, f)
    &&& {
        ||| is_native_interactive_tag(n.tag)
        ||| (n.tag == "label"@ && attr_lookup(n.attributes, "for"@) is Some)
        ||| (match attr_lookup(n.attributes, "role"@) {
            Some(r) => is_interactive_role(r),
            None => false,
        })
        ||| tab_reachable(n)
    }
}

fn is_excluded(tag: &String) -> (r: bool)
    ensures
        r == is_excluded_tag(tag@),
{
    same_text(tag, "script") || same_text(tag, "style") || same_text(tag, "meta") || same_text(tag, "head")
        || same_text(tag, "link") || same_text(tag, "noscript") || same_text(tag, "template")
        || same_text(tag, "title")
}

fn is_native_interactive(tag: &String) -> (r: bool)
    ensures
        r == is_native_interactive_tag(tag@),
{
    same_text(tag, "button") || same_text(tag, "a") || same_text(tag, "input") || same_text(tag, "select")
        || same_text(tag, "textarea") || same_text(tag, "option") || same_text(tag, "summary")
}

fn is_role(role: &String) -> (r: bool)
    ensures
        r == is_interactive_role(role@),
{
    same_text(role, "button") || same_text(role, "link") || same_text(role, "checkbox") || same_text(role, "radio")
        || same_text(role, "tab") || same_text(role, "menuitem") || same_text(role, "option")
        || same_text(role, "switch") || same_text(role, "textbox") || same_text(role, "combobox")
        || same_text(role, "slider") || same_text(role, "searchbox")
}

/// Sets the node's visibility and interactivity flags from its tag,
/// attributes and box and from `facts`; nothing else changes.
pub fn classify(node: &mut ElementNode, facts: &RenderFacts)
    ensures
        final(node).is_visible == visible_spec(old(node)@, old(node).bounding_box, *facts),
        final(node).is_interactive == interactive_spec(old(node)@, old(node).bounding_box, *facts),
        final(node)@.tag == old(node)@.tag,
        final(node)@.attributes == old(node)@.attributes,
        final(node)@.text == old(node)@.text,
        final(node)@.index == old(node)@.index,
        final(node)@.children == old(node)@.children,
        final(node).bounding_box == old(node).bounding_box,
{
    let has_box = match node.bounding_box {
        Some(b) => b.width > 0 && b.height > 0,
        None => false,
    };
    let visible = !is_excluded(&node.tag_name) && !facts.display_none && !facts.visibility_hidden && has_box;
    let native = is_native_interactive(&node.tag_name);
    let bound_label = same_text(&node.tag_name, "label") && node.get_attribute("for").is_some();
    let with_role = match node.get_attribute("role") {
        Some(r) => is_role(r),
        None => false,
    };
    let tabbable = match node.get_attribute("tabindex") {
        Some(v) => {
            let t = v.as_str();
            t.unicode_len() > 0 && t.get_char(0) != '-'
        },
        None => false,
    };
    node.is_visible = visible;
    node.is_interactive = visible && (native || bound_label || with_role || tabbable);
}

} // verus!
