//! The listing of the clickable elements of an indexed tree.

use vstd::prelude::*;
use crate::dom::{find_in, lemma_resolution_sound, range_from, DomTree, ElementNode, NodeView};
use crate::snapshot::SNAPSHOT_TEXT_LIMIT;
use crate::text::{dec, decimal, trim_text, trimmed, truncate_text, truncated};

verus! {

/// Longest text, in characters, kept whole in the clickable listing.
pub const CLICKABLE_TEXT_LIMIT: usize = 100;

/// The element's text as the listing shows it: trimmed, cut to its limit.
pub open spec fn clickable_text(n: NodeView) -> Seq<char> {
    match n.text {
        Some(t) => truncated(trimmed(t), CLICKABLE_TEXT_LIMIT as nat),
        None => Seq::empty(),
    }
}

/// `[k]<tag>text</tag>`, or `[k]<tag>` for an element without text.
pub open spec fn clickable_line(k: nat, n: NodeView) -> Seq<char> {
    let head = "["@ + dec(k) + "]<"@ + n.tag + ">"@;
    if clickable_text(n).len() == 0 {
        head
    } else {
        head + clickable_text(n) + "</"@ + n.tag + ">"@
    }
}

/// The lines of the handles `ks` that resolve to a node of `root`, in the order of `ks`.
pub open spec fn clickable_lines(root: NodeView, ks: Seq<nat>) -> Seq<Seq<char>>
    decreases ks.len(),
{
    if ks.len() == 0 {
        Seq::empty()
    } else {
        let prev = clickable_lines(root, ks.drop_last());
        match find_in(root, ks.last()) {
            Some(m) => prev.push(clickable_line(ks.last(), m)),
            None => prev,
        }
    }
}

/// The lines joined by line breaks.
pub open spec fn join_lines(ls: Seq<Seq<char>>) -> Seq<char>
    decreases ls.len(),
{
    if ls.len() == 0 {
        Seq::empty()
    } else if ls.len() == 1 {
        ls[0]
    } else {
        join_lines(ls.drop_last()) + "\n"@ + ls.last()
    }
}

/// The clickable elements of a page: one line per handle, and the number of handles.
pub struct ClickableListing {
    pub elements: String,
    pub count: usize,
}

fn clickable_line_text(k: usize, node: &ElementNode) -> (r: String)
    ensures
        r@ == clickable_line(k as nat, node@),
{
    let text = match &node.text_content {
        Some(t) => {
            let tt = trim_text(t.as_str());
            truncate_text(tt.as_str(), CLICKABLE_TEXT_LIMIT)
        },
        None => String::new(),
    };
    let mut line = String::from_str("[");
    let d = decimal(k);
    line.append(d.as_str());
    line.append("]<");
    line.append(node.tag_name.as_str());
    line.append(">");
    if text.as_str().unicode_len() > 0 {
        line.append(text.as_str());
        line.append("</");
        line.append(node.tag_name.as_str());
        line.append(">");
    }
    line
}

proof fn lemma_all_lines_present(d: &DomTree, m: nat)
    requires
        d.wf(),
        m <= d.selector_map@.len(),
    ensures
        clickable_lines(d.root@, range_from(0, m)).len() == m,
    decreases m,
{
    if m > 0 {
        assert(range_from(0, m).drop_last() =~= range_from(0, (m - 1) as nat));
        lemma_all_lines_present(d, (m - 1) as nat);
        lemma_resolution_sound(d, (m - 1) as nat);
    }
}

/// The listing of the clickable elements of `dom`, in handle order.
pub fn clickable_listing(dom: &DomTree) -> (r: ClickableListing)
    ensures
        r.elements@ == join_lines(clickable_lines(dom.root@, range_from(0, dom.selector_map@.len()))),
        r.count == dom.selector_map@.len(),
        dom.wf() ==> clickable_lines(dom.root@, range_from(0, dom.selector_map@.len())).len()
            == r.count,
{
    let indices = dom.interactive_indices();
    let mut elements = String::new();
    let mut lines: usize = 0;
    let ghost root = dom.root@;
    let mut i: usize = 0;
    assert(range_from(0, 0) =~= Seq::<nat>::empty());
    while i < indices.len()
        invariant
            i <= indices@.len(),
            indices@.len() == dom.selector_map@.len(),
            forall|k: int| 0 <= k < indices@.len() ==> indices@[k] == k,
            root == dom.root@,
            lines as nat == clickable_lines(root, range_from(0, i as nat)).len(),
            lines <= i,
            elements@ == join_lines(clickable_lines(root, range_from(0, i as nat))),
        decreases indices@.len() - i,
    {
        let k = indices[i];
        let ghost prev = clickable_lines(root, range_from(0, i as nat));
        assert(range_from(0, (i + 1) as nat).drop_last() =~= range_from(0, i as nat));
        assert(range_from(0, (i + 1) as nat).last() == k);
        match dom.find_node_by_index(k) {
            Some(node) => {
                let line = clickable_line_text(k, node);
                let ghost now = prev.push(line@);
                assert(now.drop_last() =~= prev);
                if lines > 0 {
                    elements.append("\n");
                } else {
                    assert(now.len() == 1);
                }
                elements.append(line.as_str());
                lines = lines + 1;
            },
            None => {},
        }
        i = i + 1;
    }
    proof {
        if dom.wf() {
            lemma_all_lines_present(dom, dom.selector_map@.len());
        }
    }
    ClickableListing { elements, count: indices.len() }
}

/// A text longer than the listing's limit but within the snapshot's is cut
/// to exactly the listing's limit, ending in `...`, in the listing, and kept
/// whole in the snapshot.
pub proof fn lemma_truncation_paths(s: Seq<char>)
    requires
        CLICKABLE_TEXT_LIMIT < s.len() <= SNAPSHOT_TEXT_LIMIT,
    ensures
        truncated(s, CLICKABLE_TEXT_LIMIT as nat).len() == CLICKABLE_TEXT_LIMIT,
        truncated(s, CLICKABLE_TEXT_LIMIT as nat).subrange(0, 97) == s.subrange(0, 97),
        truncated(s, CLICKABLE_TEXT_LIMIT as nat).subrange(97, 100) == seq!['.', '.', '.'],
        truncated(s, SNAPSHOT_TEXT_LIMIT as nat) == s,
{
    let t = truncated(s, CLICKABLE_TEXT_LIMIT as nat);
    assert(t.subrange(0, 97) =~= s.subrange(0, 97));
    assert(t.subrange(97, 100) =~= seq!['.', '.', '.']);
}

} // verus!
