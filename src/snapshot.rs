//! The Markdown-like page snapshot.

use vstd::prelude::*;
use crate::dom::{attr_lookup, lemma_children_view, lemma_size_child, size, ElementNode, NodeView};
use crate::text::{dec, decimal, same_text, trim_text, trimmed, truncate_text, truncated};

verus! {

/// Longest text, in characters, kept whole in the snapshot.
pub const SNAPSHOT_TEXT_LIMIT: usize = 200;

/// Longest own text, in characters, that a node with children may show.
pub const DIRECT_TEXT_LIMIT: usize = 100;

/// The node's text, trimmed and cut to the snapshot limit; empty when it has none.
pub open spec fn text_content(n: NodeView) -> Seq<char> {
    match n.text {
        Some(t) => truncated(trimmed(t), SNAPSHOT_TEXT_LIMIT as nat),
        None => Seq::empty(),
    }
}

pub open spec fn any_visible(cs: Seq<NodeView>) -> bool {
    exists|i: int| 0 <= i < cs.len() && (#[trigger] cs[i]).visible
}

/// The text that belongs to the node itself rather than to its descendants:
/// a leaf's text, or the short text of a node none of whose children is visible.
pub open spec fn direct_text(n: NodeView) -> Seq<char> {
    if n.children.len() == 0 {
        text_content(n)
    } else {
        match n.text {
            Some(t) => if trimmed(t).len() > 0 && trimmed(t).len() < DIRECT_TEXT_LIMIT
                && !any_visible(n.children) {
                trimmed(t)
            } else {
                Seq::empty()
            },
            None => Seq::empty(),
        }
    }
}

/// One line for the node: `[index] content` when it holds a handle.
pub open spec fn with_index(n: NodeView, content: Seq<char>) -> Seq<char> {
    match n.index {
        Some(i) => "["@ + dec(i) + "] "@ + content + "\n"@,
        None => content + "\n"@,
    }
}

pub open spec fn heading_marker(tag: Seq<char>) -> Option<Seq<char>> {
    if tag == "h1"@ {
        Some("# "@)
    } else if tag == "h2"@ {
        Some("## "@)
    } else if tag == "h3"@ {
        Some("### "@)
    } else if tag == "h4"@ {
        Some("#### "@)
    } else if tag == "h5"@ {
        Some("##### "@)
    } else if tag == "h6"@ {
        Some("###### "@)
    } else {
        None
    }
}

/// Tags whose own text is shown before their children.
pub open spec fn is_block_tag(tag: Seq<char>) -> bool {
    tag == "p"@ || tag == "div"@ || tag == "span"@ || tag == "section"@ || tag == "article"@
        || tag == "main"@ || tag == "header"@ || tag == "footer"@ || tag == "nav"@
}

/// Tags that show nothing of their own, only their children.
pub open spec fn is_container_tag(tag: Seq<char>) -> bool {
    tag == "body"@ || tag == "ul"@ || tag == "ol"@ || tag == "form"@ || tag == "fieldset"@
        || tag == "table"@ || tag == "tbody"@ || tag == "thead"@ || tag == "tr"@
}

/// Tags with a rendering rule of their own.
pub open spec fn is_known_tag(tag: Seq<char>) -> bool {
    heading_marker(tag) is Some || tag == "button"@ || tag == "a"@ || tag == "input"@
        || tag == "textarea"@ || tag == "select"@ || tag == "label"@ || is_block_tag(tag)
        || tag == "li"@ || is_container_tag(tag)
}

pub open spec fn indent(k: nat) -> Seq<char>
    decreases k,
{
    if k == 0 {
        Seq::empty()
    } else {
        indent((k - 1) as nat) + "  "@
    }
}

pub open spec fn placeholder_clause(n: NodeView) -> Seq<char> {
    match attr_lookup(n.attributes, "placeholder"@) {
        Some(p) => " placeholder=\""@ + p + "\""@,
        None => Seq::empty(),
    }
}

/// What a visible node contributes itself, children aside.
pub open spec fn own_output(n: NodeView, depth: nat) -> Seq<char> {
    let t = text_content(n);
    if heading_marker(n.tag) is Some {
        with_index(n, heading_marker(n.tag)->0 + t)
    } else if n.tag == "button"@ {
        with_index(n, if t.len() > 0 { t } else { "<button>"@ })
    } else if n.tag == "a"@ {
        let href = match attr_lookup(n.attributes, "href"@) {
            Some(h) => h,
            None => Seq::empty(),
        };
        if t.len() > 0 {
            if href.len() > 0 {
                with_index(n, t + " ("@ + href + ")"@)
            } else {
                with_index(n, t)
            }
        } else {
            with_index(n, "<link "@ + href + ">"@)
        }
    } else if n.tag == "input"@ {
        let ty = match attr_lookup(n.attributes, "type"@) {
            Some(v) => v,
            None => "text"@,
        };
        with_index(n, "<input type=\""@ + ty + "\""@ + placeholder_clause(n) + ">,"@)
    } else if n.tag == "textarea"@ {
        with_index(n, "<textarea"@ + placeholder_clause(n) + ">"@)
    } else if n.tag == "select"@ {
        with_index(n, "<select>"@)
    } else if n.tag == "label"@ {
        if t.len() > 0 { with_index(n, t) } else { Seq::empty() }
    } else if is_block_tag(n.tag) {
        if direct_text(n).len() > 0 { with_index(n, direct_text(n)) } else { Seq::empty() }
    } else if n.tag == "li"@ {
        let level: nat = if depth > 0 { (depth - 1) as nat } else { 0 };
        with_index(n, indent(level) + "• "@ + direct_text(n))
    } else if is_container_tag(n.tag) {
        Seq::empty()
    } else if n.interactive {
        with_index(n, if t.len() > 0 { t } else { "<"@ + n.tag + ">"@ })
    } else {
        if direct_text(n).len() > 0 { with_index(n, direct_text(n)) } else { Seq::empty() }
    }
}

/// Whether the snapshot goes on into the node's children: all but an
/// interactive node of a tag without a rule of its own.
pub open spec fn descends(n: NodeView) -> bool {
    is_known_tag(n.tag) || !n.interactive
}

pub open spec fn next_depth(depth: nat) -> nat {
    if depth < usize::MAX { depth + 1 } else { depth }
}

/// The snapshot of a subtree at `depth`: a hidden node below the root shows
/// nothing, its subtree included.
pub open spec fn snapshot(n: NodeView, depth: nat) -> Seq<char>
    decreases n,
{
    if !n.visible && depth > 0 {
        Seq::empty()
    } else {
        own_output(n, depth) + (if descends(n) {
            snapshot_seq(n.children, next_depth(depth))
        } else {
            Seq::empty()
        })
    }
}

pub open spec fn snapshot_seq(cs: Seq<NodeView>, depth: nat) -> Seq<char>
    decreases cs,
{
    if cs.len() == 0 {
        Seq::empty()
    } else {
        snapshot_seq(cs.drop_last(), depth) + snapshot(cs.last(), depth)
    }
}

/// Appends `content` as one line, prefixed by the node's handle if it has one.
pub fn append_with_index(output: &mut String, node: &ElementNode, content: &str)
    ensures
        final(output)@ == old(output)@ + with_index(node@, content@),
{
    match node.index {
        Some(i) => {
            output.append("[");
            let d = decimal(i);
            output.append(d.as_str());
            output.append("] ");
        },
        None => {},
    }
    output.append(content);
    output.append("\n");
}

/// The node's text, trimmed and cut to the snapshot limit.
pub fn get_text_content(node: &ElementNode) -> (r: String)
    ensures
        r@ == text_content(node@),
{
    match &node.text_content {
        Some(t) => {
            let tt = trim_text(t.as_str());
            truncate_text(tt.as_str(), SNAPSHOT_TEXT_LIMIT)
        },
        None => String::new(),
    }
}

fn has_visible_child(node: &ElementNode) -> (r: bool)
    ensures
        r == any_visible(node@.children),
{
    proof {
        lemma_children_view(node);
    }
    let mut i: usize = 0;
    while i < node.children.len()
        invariant
            i <= node.children@.len(),
            node@.children.len() == node.children@.len(),
            forall|j: int| 0 <= j < node.children@.len() ==> node@.children[j] == (#[trigger] node.children@[j])@,
            forall|j: int| 0 <= j < i ==> !(#[trigger] node@.children[j]).visible,
        decreases node.children@.len() - i,
    {
        if node.children[i].is_visible {
            assert(node@.children[i as int].visible);
            return true;
        }
        i = i + 1;
    }
    false
}

/// The text that belongs to the node itself rather than to its descendants.
pub fn get_direct_text_content(node: &ElementNode) -> (r: String)
    ensures
        r@ == direct_text(node@),
{
    proof {
        lemma_children_view(node);
    }
    if node.children.len() == 0 {
        get_text_content(node)
    } else {
        match &node.text_content {
            Some(t) => {
                let tt = trim_text(t.as_str());
                let n = tt.as_str().unicode_len();
                if n > 0 && n < DIRECT_TEXT_LIMIT && !has_visible_child(node) {
                    tt
                } else {
                    String::new()
                }
            },
            None => String::new(),
        }
    }
}

fn heading_marker_text(tag: &String) -> (r: Option<&'static str>)
    ensures
        match r {
            Some(m) => heading_marker(tag@) == Some(m@),
            None => heading_marker(tag@) is None,
        },
{
    if same_text(tag, "h1") {
        Some("# ")
    } else if same_text(tag, "h2") {
        Some("## ")
    } else if same_text(tag, "h3") {
        Some("### ")
    } else if same_text(tag, "h4") {
        Some("#### ")
    } else if same_text(tag, "h5") {
        Some("##### ")
    } else if same_text(tag, "h6") {
        Some("###### ")
    } else {
        None
    }
}

fn is_block(tag: &String) -> (r: bool)
    ensures
        r == is_block_tag(tag@),
{
    same_text(tag, "p") || same_text(tag, "div") || same_text(tag, "span") || same_text(tag, "section")
        || same_text(tag, "article") || same_text(tag, "main") || same_text(tag, "header")
        || same_text(tag, "footer") || same_text(tag, "nav")
}

fn is_container(tag: &String) -> (r: bool)
    ensures
        r == is_container_tag(tag@),
{
    same_text(tag, "body") || same_text(tag, "ul") || same_text(tag, "ol") || same_text(tag, "form")
        || same_text(tag, "fieldset") || same_text(tag, "table") || same_text(tag, "tbody")
        || same_text(tag, "thead") || same_text(tag, "tr")
}

fn append_placeholder(out: &mut String, node: &ElementNode)
    ensures
        final(out)@ == old(out)@ + placeholder_clause(node@),
{
    match node.get_attribute("placeholder") {
        Some(p) => {
            out.append(" placeholder=\"");
            out.append(p.as_str());
            out.append("\"");
        },
        None => {},
    }
}

/// What a visible node contributes itself, children aside.
fn render_own(node: &ElementNode, depth: usize) -> (r: String)
    ensures
        r@ == own_output(node@, depth as nat),
{
    let tag = &node.tag_name;
    let mut output = String::new();
    let t = get_text_content(node);
    let t_empty = t.as_str().unicode_len() == 0;
    match heading_marker_text(tag) {
        Some(m) => {
            let mut content = String::from_str(m);
            content.append(t.as_str());
            append_with_index(&mut output, node, content.as_str());
            return output;
        },
        None => {},
    }
    if same_text(tag, "button") {
        if !t_empty {
            append_with_index(&mut output, node, t.as_str());
        } else {
            append_with_index(&mut output, node, "<button>");
        }
    } else if same_text(tag, "a") {
        let empty = String::new();
        let href = match node.get_attribute("href") {
            Some(h) => h,
            None => &empty,
        };
        if !t_empty {
            if href.as_str().unicode_len() > 0 {
                let mut content = t.clone();
                content.append(" (");
                content.append(href.as_str());
                content.append(")");
                append_with_index(&mut output, node, content.as_str());
            } else {
                append_with_index(&mut output, node, t.as_str());
            }
        } else {
            let mut content = String::from_str("<link ");
            content.append(href.as_str());
            content.append(">");
            append_with_index(&mut output, node, content.as_str());
        }
    } else if same_text(tag, "input") {
        let mut content = String::from_str("<input type=\"");
        match node.get_attribute("type") {
            Some(v) => content.append(v.as_str()),
            None => content.append("text"),
        }
        content.append("\"");
        append_placeholder(&mut content, node);
        content.append(">,");
        append_with_index(&mut output, node, content.as_str());
    } else if same_text(tag, "textarea") {
        let mut content = String::from_str("<textarea");
        append_placeholder(&mut content, node);
        content.append(">");
        append_with_index(&mut output, node, content.as_str());
    } else if same_text(tag, "select") {
        append_with_index(&mut output, node, "<select>");
    } else if same_text(tag, "label") {
        if !t_empty {
            append_with_index(&mut output, node, t.as_str());
        }
    } else if is_block(tag) {
        let d = get_direct_text_content(node);
        if d.as_str().unicode_len() > 0 {
            append_with_index(&mut output, node, d.as_str());
        }
    } else if same_text(tag, "li") {
        let level: usize = if depth > 0 { depth - 1 } else { 0 };
        let mut content = String::new();
        let mut k: usize = 0;
        while k < level
            invariant
                k <= level,
                content@ == indent(k as nat),
            decreases level - k,
        {
            content.append("  ");
            k = k + 1;
        }
        content.append("• ");
        let d = get_direct_text_content(node);
        content.append(d.as_str());
        append_with_index(&mut output, node, content.as_str());
    } else if is_container(tag) {
    } else if node.is_interactive {
        if !t_empty {
            append_with_index(&mut output, node, t.as_str());
        } else {
            let mut content = String::from_str("<");
            content.append(tag.as_str());
            content.append(">");
            append_with_index(&mut output, node, content.as_str());
        }
    } else {
        let d = get_direct_text_content(node);
        if d.as_str().unicode_len() > 0 {
            append_with_index(&mut output, node, d.as_str());
        }
    }
    output
}

fn descends_into(node: &ElementNode) -> (r: bool)
    ensures
        r == descends(node@),
{
    let tag = &node.tag_name;
    !node.is_interactive || heading_marker_text(tag).is_some() || same_text(tag, "button")
        || same_text(tag, "a") || same_text(tag, "input") || same_text(tag, "textarea")
        || same_text(tag, "select") || same_text(tag, "label") || is_block(tag)
        || same_text(tag, "li") || is_container(tag)
}

/// The Markdown-like snapshot of the subtree of `node`, taken at `depth`
/// (0 for the root, which is shown even when it is flagged hidden).
pub fn generate_snapshot(node: &ElementNode, depth: usize) -> (r: String)
    ensures
        r@ == snapshot(node@, depth as nat),
    decreases size(node@),
{
    if !node.is_visible && depth > 0 {
        return String::new();
    }
    let mut output = render_own(node, depth);
    if descends_into(node) {
        let child_depth = depth.saturating_add(1);
        let ghost start = output@;
        proof {
            lemma_children_view(node);
            assert(node@.children.take(0) =~= Seq::<NodeView>::empty());
            assert(output@ =~= start + snapshot_seq(node@.children.take(0), child_depth as nat));
        }
        let mut i: usize = 0;
        while i < node.children.len()
            invariant
                i <= node.children@.len(),
                node@.children.len() == node.children@.len(),
                forall|j: int| 0 <= j < node.children@.len() ==> node@.children[j] == (#[trigger] node.children@[j])@,
                child_depth as nat == next_depth(depth as nat),
                output@ == start + snapshot_seq(node@.children.take(i as int), child_depth as nat),
            decreases node.children@.len() - i,
        {
            proof {
                lemma_size_child(node@, i as int);
            }
            let part = generate_snapshot(&node.children[i], child_depth);
            assert(node@.children.take(i + 1).drop_last() =~= node@.children.take(i as int));
            output.append(part.as_str());
            i = i + 1;
        }
        assert(node@.children.take(i as int) =~= node@.children);
    }
    output
}

/// A node flagged hidden below the root contributes nothing to the snapshot,
/// and none of its descendants is rendered.
pub proof fn lemma_hidden_subtree_pruned(n: NodeView, depth: nat)
    requires
        !n.visible,
        depth > 0,
    ensures
        snapshot(n, depth) == Seq::<char>::empty(),
{
}

} // verus!
