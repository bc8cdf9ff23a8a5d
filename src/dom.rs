//! The element tree, its indexer and the selector map.

use vstd::prelude::*;
use crate::text::{dec, decimal, same_text};

verus! {

/// Geometry of a rendered element, in whole CSS pixels.
#[derive(Clone, Copy, Debug, PartialEq, Eq)]
pub struct BoundingBox {
    pub x: i64,
    pub y: i64,
    pub width: u64,
    pub height: u64,
}

/// One element of the document; it owns its children.
#[derive(Debug)]
pub struct ElementNode {
    pub tag_name: String,
    /// Attribute names and values, in insertion order.
    pub attributes: Vec<(String, String)>,
    pub text_content: Option<String>,
    pub is_visible: bool,
    pub is_interactive: bool,
    /// The handle given by the indexer, if any.
    pub index: Option<usize>,
    pub children: Vec<ElementNode>,
    pub bounding_box: Option<BoundingBox>,
}

/// Mathematical model of an [`ElementNode`].
pub struct NodeView {
    pub tag: Seq<char>,
    pub attributes: Seq<(Seq<char>, Seq<char>)>,
    pub text: Option<Seq<char>>,
    pub visible: bool,
    pub interactive: bool,
    pub index: Option<nat>,
    pub children: Seq<NodeView>,
}

pub open spec fn attrs_view(a: Seq<(String, String)>) -> Seq<(Seq<char>, Seq<char>)> {
    a.map_values(|p: (String, String)| (p.0@, p.1@))
}

pub open spec fn opt_text_view(t: Option<String>) -> Option<Seq<char>> {
    match t {
        Some(s) => Some(s@),
        None => None,
    }
}

pub open spec fn opt_index_view(i: Option<usize>) -> Option<nat> {
    match i {
        Some(k) => Some(k as nat),
        None => None,
    }
}

pub open spec fn node_view(n: ElementNode) -> NodeView
    decreases n,
{
    NodeView {
        tag: n.tag_name@,
        attributes: attrs_view(n.attributes@),
        text: opt_text_view(n.text_content),
        visible: n.is_visible,
        interactive: n.is_interactive,
        index: opt_index_view(n.index),
        children: nodes_view(n.children@),
    }
}

pub open spec fn nodes_view(v: Seq<ElementNode>) -> Seq<NodeView>
    decreases v,
{
    if v.len() == 0 {
        Seq::empty()
    } else {
        nodes_view(v.drop_last()).push(node_view(v.last()))
    }
}

impl View for ElementNode {
    type V = NodeView;

    open spec fn view(&self) -> NodeView {
        node_view(*self)
    }
}

proof fn lemma_nodes_view(v: Seq<ElementNode>)
    ensures
        nodes_view(v).len() == v.len(),
        forall|j: int| 0 <= j < v.len() ==> nodes_view(v)[j] == node_view(#[trigger] v[j]),
    decreases v.len(),
{
    if v.len() > 0 {
        lemma_nodes_view(v.drop_last());
        assert forall|j: int| 0 <= j < v.len() implies nodes_view(v)[j] == node_view(#[trigger] v[j]) by {
            if j < v.len() - 1 {
                assert(v.drop_last()[j] == v[j]);
            }
        }
    }
}

/// The value of the first attribute named `k`.
pub open spec fn attr_lookup(a: Seq<(Seq<char>, Seq<char>)>, k: Seq<char>) -> Option<Seq<char>>
    decreases a.len(),
{
    if a.len() == 0 {
        None
    } else if a[0].0 == k {
        Some(a[0].1)
    } else {
        attr_lookup(a.drop_first(), k)
    }
}

/// Number of nodes in the tree.
pub open spec fn size(n: NodeView) -> nat
    decreases n,
{
    1 + size_seq(n.children)
}

pub open spec fn size_seq(cs: Seq<NodeView>) -> nat
    decreases cs,
{
    if cs.len() == 0 {
        0
    } else {
        size_seq(cs.drop_last()) + size(cs.last())
    }
}

/// Number of nodes flagged interactive.
pub open spec fn interactive_count(n: NodeView) -> nat
    decreases n,
{
    (if n.interactive { 1nat } else { 0nat }) + interactive_count_seq(n.children)
}

pub open spec fn interactive_count_seq(cs: Seq<NodeView>) -> nat
    decreases cs,
{
    if cs.len() == 0 {
        0
    } else {
        interactive_count_seq(cs.drop_last()) + interactive_count(cs.last())
    }
}

proof fn lemma_size_seq_elem(cs: Seq<NodeView>, i: int)
    requires
        0 <= i < cs.len(),
    ensures
        size(cs[i]) <= size_seq(cs),
    decreases cs.len(),
{
    if i < cs.len() - 1 {
        lemma_size_seq_elem(cs.drop_last(), i);
        assert(cs.drop_last()[i] == cs[i]);
    }
}

/// A child's subtree is smaller than its parent's.
pub proof fn lemma_size_child(n: NodeView, i: int)
    requires
        0 <= i < n.children.len(),
    ensures
        size(n.children[i]) < size(n),
{
    lemma_size_seq_elem(n.children, i);
}

pub open spec fn capped(n: nat) -> usize {
    if n <= usize::MAX { n as usize } else { usize::MAX }
}

proof fn lemma_attr_lookup_skip(a: Seq<(Seq<char>, Seq<char>)>, k: Seq<char>, i: int)
    requires
        0 <= i <= a.len(),
        forall|j: int| 0 <= j < i ==> (#[trigger] a[j]).0 != k,
    ensures
        attr_lookup(a, k) == attr_lookup(a.subrange(i, a.len() as int), k),
    decreases i,
{
    if i > 0 {
        lemma_attr_lookup_skip(a.drop_first(), k, i - 1);
        assert(a.drop_first().subrange(i - 1, a.drop_first().len() as int)
            =~= a.subrange(i, a.len() as int));
    } else {
        assert(a.subrange(0, a.len() as int) =~= a);
    }
}

/// The model of a node's children is the models of its children.
pub proof fn lemma_children_view(n: &ElementNode)
    ensures
        n@.children.len() == n.children@.len(),
        forall|j: int| 0 <= j < n.children@.len() ==> n@.children[j] == (#[trigger] n.children@[j])@,
{
    lemma_nodes_view(n.children@);
}

impl ElementNode {
    /// A node with the given tag and empty defaults: no attributes, text,
    /// children, box or handle, and neither flag set.
    pub fn new(tag_name: &str) -> (r: ElementNode)
        ensures
            r@.tag == tag_name@,
            r@.attributes.len() == 0,
            r@.text is None,
            !r@.visible,
            !r@.interactive,
            r@.index is None,
            r@.children.len() == 0,
            r.bounding_box is None,
    {
        ElementNode {
            tag_name: String::from_str(tag_name),
            attributes: Vec::new(),
            text_content: None,
            is_visible: false,
            is_interactive: false,
            index: None,
            children: Vec::new(),
            bounding_box: None,
        }
    }

    /// Position of the first attribute named `name`.
    fn attribute_position(&self, name: &str) -> (r: Option<usize>)
        ensures
            match r {
                Some(i) => i < self.attributes@.len() && self.attributes@[i as int].0@ == name@
                    && forall|j: int| 0 <= j < i ==> (#[trigger] self.attributes@[j]).0@ != name@,
                None => forall|j: int|
                    0 <= j < self.attributes@.len() ==> (#[trigger] self.attributes@[j]).0@ != name@,
            },
    {
        let mut i: usize = 0;
        while i < self.attributes.len()
            invariant
                i <= self.attributes@.len(),
                forall|j: int| 0 <= j < i ==> (#[trigger] self.attributes@[j]).0@ != name@,
            decreases self.attributes@.len() - i,
        {
            if same_text(&self.attributes[i].0, name) {
                return Some(i);
            }
            i = i + 1;
        }
        None
    }

    /// The value of the attribute `name`; `None` when it is absent.
    pub fn get_attribute(&self, name: &str) -> (r: Option<&String>)
        ensures
            match r {
                Some(v) => attr_lookup(self@.attributes, name@) == Some(v@),
                None => attr_lookup(self@.attributes, name@) is None,
            },
    {
        let pos = self.attribute_position(name);
        proof {
            let a = self@.attributes;
            let p = match pos { Some(i) => i as int, None => a.len() as int };
            assert forall|j: int| 0 <= j < p implies (#[trigger] a[j]).0 != name@ by {
                assert(a[j].0 == self.attributes@[j].0@);
            }
            lemma_attr_lookup_skip(a, name@, p);
        }
        match pos {
            Some(i) => Some(&self.attributes[i].1),
            None => None,
        }
    }

    /// Sets attribute `name` to `value`: the first attribute of that name is
    /// replaced, and a new one is appended when there is none.
    pub fn add_attribute(&mut self, name: &str, value: &str)
        ensures
            final(self)@.tag == old(self)@.tag,
            final(self)@.text == old(self)@.text,
            final(self)@.visible == old(self)@.visible,
            final(self)@.interactive == old(self)@.interactive,
            final(self)@.index == old(self)@.index,
            final(self)@.children == old(self)@.children,
            attr_lookup(final(self)@.attributes, name@) == Some(value@),
            forall|k: Seq<char>| k != name@ ==> attr_lookup(final(self)@.attributes, k)
                == attr_lookup(old(self)@.attributes, k),
    {
        let pos = self.attribute_position(name);
        let entry = (String::from_str(name), String::from_str(value));
        let ghost before = self@.attributes;
        match pos {
            Some(i) => {
                self.attributes.set(i, entry);
            },
            None => {
                self.attributes.push(entry);
            },
        }
        proof {
            let after = self@.attributes;
            let p = match pos { Some(i) => i as int, None => before.len() as int };
            assert forall|j: int| 0 <= j < p implies (#[trigger] before[j]).0 != name@ by {
                assert(before[j].0 == old(self).attributes@[j].0@);
            }
            assert forall|j: int| 0 <= j < p implies (#[trigger] after[j]).0 != name@ by {
                assert(after[j] == before[j]);
            }
            lemma_attr_lookup_skip(before, name@, p);
            lemma_attr_lookup_skip(after, name@, p);
            assert(after[p] == (name@, value@));
            assert forall|k: Seq<char>| k != name@ implies attr_lookup(after, k)
                == attr_lookup(before, k) by {
                lemma_attr_lookup_same_prefix(before, after, name@, k, p);
            }
        }
    }

    /// Appends `child` after the existing children.
    pub fn add_child(&mut self, child: ElementNode)
        ensures
            final(self)@.tag == old(self)@.tag,
            final(self)@.attributes == old(self)@.attributes,
            final(self)@.text == old(self)@.text,
            final(self)@.visible == old(self)@.visible,
            final(self)@.interactive == old(self)@.interactive,
            final(self)@.index == old(self)@.index,
            final(self)@.children == old(self)@.children.push(child@),
    {
        self.children.push(child);
        proof {
            lemma_children_view(old(self));
            lemma_children_view(self);
            assert(self.children@.drop_last() =~= old(self).children@);
        }
        assert(self@.children =~= old(self)@.children.push(child@));
    }

    /// Number of nodes in this subtree, this one included (at most `usize::MAX`).
    pub fn count_elements(&self) -> (r: usize)
        ensures
            r == capped(size(self@)),
        decreases self,
    {
        let mut total: usize = 1;
        let mut i: usize = 0;
        proof {
            lemma_children_view(self);
        }
        while i < self.children.len()
            invariant
                i <= self.children@.len(),
                self@.children.len() == self.children@.len(),
                forall|j: int| 0 <= j < self.children@.len() ==> self@.children[j] == (#[trigger] self.children@[j])@,
                total == capped(1 + size_seq(self@.children.take(i as int))),
            decreases self.children@.len() - i,
        {
            let c = self.children[i].count_elements();
            assert(self@.children.take(i + 1).drop_last() =~= self@.children.take(i as int));
            total = total.saturating_add(c);
            i = i + 1;
        }
        assert(self@.children.take(i as int) =~= self@.children);
        total
    }

    /// Number of nodes of this subtree flagged interactive (at most `usize::MAX`).
    pub fn count_interactive(&self) -> (r: usize)
        ensures
            r == capped(interactive_count(self@)),
        decreases self,
    {
        let mut total: usize = if self.is_interactive { 1 } else { 0 };
        let mut i: usize = 0;
        proof {
            lemma_children_view(self);
        }
        while i < self.children.len()
            invariant
                i <= self.children@.len(),
                self@.children.len() == self.children@.len(),
                forall|j: int| 0 <= j < self.children@.len() ==> self@.children[j] == (#[trigger] self.children@[j])@,
                total == capped(
                    (if self@.interactive { 1nat } else { 0nat })
                        + interactive_count_seq(self@.children.take(i as int)),
                ),
            decreases self.children@.len() - i,
        {
            let c = self.children[i].count_interactive();
            assert(self@.children.take(i + 1).drop_last() =~= self@.children.take(i as int));
            total = total.saturating_add(c);
            i = i + 1;
        }
        assert(self@.children.take(i as int) =~= self@.children);
        total
    }
}

proof fn lemma_attr_lookup_same_prefix(
    a: Seq<(Seq<char>, Seq<char>)>,
    b: Seq<(Seq<char>, Seq<char>)>,
    name: Seq<char>,
    k: Seq<char>,
    p: int,
)
    requires
        k != name,
        0 <= p <= a.len(),
        p < b.len(),
        b[p].0 == name,
        forall|j: int| 0 <= j < p ==> b[j] == a[j],
        p < a.len() ==> a[p].0 == name && b.len() == a.len()
            && forall|j: int| p < j < a.len() ==> b[j] == a[j],
        p == a.len() ==> b.len() == a.len() + 1,
    ensures
        attr_lookup(b, k) == attr_lookup(a, k),
    decreases p,
{
    if p > 0 {
        let a1 = a.drop_first();
        let b1 = b.drop_first();
        assert(a[0] == b[0]);
        assert(b1[p - 1] == b[p]);
        if p < a.len() {
            assert(a1[p - 1] == a[p]);
        }
        assert forall|j: int| 0 <= j < p - 1 implies b1[j] == a1[j] by {
            assert(b[j + 1] == a[j + 1]);
        }
        if p < a.len() {
            assert forall|j: int| p - 1 < j < a1.len() implies b1[j] == a1[j] by {
                assert(b[j + 1] == a[j + 1]);
            }
        }
        lemma_attr_lookup_same_prefix(a1, b1, name, k, p - 1);
        if a[0].0 != k {
            assert(attr_lookup(a, k) == attr_lookup(a1, k));
            assert(attr_lookup(b, k) == attr_lookup(b1, k));
        }
    } else {
        assert(b[0].0 != k);
        assert(attr_lookup(b, k) == attr_lookup(b.drop_first(), k));
        if p < a.len() {
            assert(a[0].0 != k);
            assert(attr_lookup(a, k) == attr_lookup(a.drop_first(), k));
            assert forall|j: int| 0 <= j < a.drop_first().len() implies
                a.drop_first()[j] == b.drop_first()[j] by {
                assert(b[j + 1] == a[j + 1]);
            }
            assert(a.drop_first() =~= b.drop_first());
        } else {
            assert(a.len() == 0);
            assert(b.drop_first().len() == 0);
        }
    }
}

pub open spec fn strings_view(v: Seq<String>) -> Seq<Seq<char>> {
    v.map_values(|s: String| s@)
}

pub open spec fn is_ident_char(c: char) -> bool {
    ('a' <= c && c <= 'z') || ('A' <= c && c <= 'Z') || ('0' <= c && c <= '9') || c == '-' || c == '_'
}

/// A name that can follow `#` in a CSS selector without escaping.
pub open spec fn is_css_ident(s: Seq<char>) -> bool {
    &&& s.len() > 0
    &&& (('a' <= s[0] && s[0] <= 'z') || ('A' <= s[0] && s[0] <= 'Z'))
    &&& forall|i: int| 0 <= i < s.len() ==> is_ident_char(#[trigger] s[i])
}

/// The node's `id` attribute, as a list of at most one value.
pub open spec fn own_id(n: NodeView) -> Seq<Seq<char>> {
    match attr_lookup(n.attributes, seq!['i', 'd']) {
        Some(id) => seq![id],
        None => Seq::empty(),
    }
}

/// The `id` attributes of a subtree, in document order.
pub open spec fn ids_of(n: NodeView) -> Seq<Seq<char>>
    decreases n,
{
    own_id(n) + ids_seq(n.children)
}

pub open spec fn ids_seq(cs: Seq<NodeView>) -> Seq<Seq<char>>
    decreases cs,
{
    if cs.len() == 0 {
        Seq::empty()
    } else {
        ids_seq(cs.drop_last()) + ids_of(cs.last())
    }
}

/// How many times `x` occurs in `s`.
pub open spec fn count_in(s: Seq<Seq<char>>, x: Seq<char>) -> nat
    decreases s.len(),
{
    if s.len() == 0 {
        0
    } else {
        count_in(s.drop_last(), x) + (if s.last() == x { 1nat } else { 0nat })
    }
}

/// `#id` when the node has an `id` usable as a selector that no other
/// element of the tree, whose ids are `ids`, carries.
pub open spec fn id_locator(n: NodeView, ids: Seq<Seq<char>>) -> Option<Seq<char>> {
    match attr_lookup(n.attributes, seq!['i', 'd']) {
        Some(id) => if is_css_ident(id) && count_in(ids, id) == 1 {
            Some(seq!['#'] + id)
        } else {
            None
        },
        None => None,
    }
}

/// The locator of a node whose positional path from the root is `path`;
/// `ok` says whether every tag along that path is non-empty.
pub open spec fn locator(n: NodeView, ids: Seq<Seq<char>>, path: Seq<char>, ok: bool) -> Option<Seq<char>> {
    match id_locator(n, ids) {
        Some(l) => Some(l),
        None => if ok {
            Some(path)
        } else {
            None
        },
    }
}

pub open spec fn nth_child_open() -> Seq<char> {
    seq![':', 'n', 't', 'h', '-', 'c', 'h', 'i', 'l', 'd', '(']
}

/// Positional path of the child at position `pos` (from 0) below `parent`.
pub open spec fn child_path(parent: Seq<char>, tag: Seq<char>, pos: nat) -> Seq<char> {
    parent + seq![' ', '>', ' '] + tag + nth_child_open() + dec(pos + 1) + seq![')']
}

/// Indexing of one subtree whose positional path is `path`, the first free
/// handle being `next`: the subtree with its handles, and the locators of the
/// handles it used, in order.
pub open spec fn idx_node(n: NodeView, ids: Seq<Seq<char>>, path: Seq<char>, ok: bool, next: nat) -> (NodeView, Seq<Seq<char>>)
    decreases n,
{
    let mine: Seq<Seq<char>> = if n.interactive && locator(n, ids, path, ok) is Some {
        seq![locator(n, ids, path, ok)->0]
    } else {
        Seq::empty()
    };
    let me: Option<nat> = if mine.len() > 0 { Some(next) } else { None };
    let kids = idx_children(n.children, ids, path, ok, next + mine.len());
    (NodeView { index: me, children: kids.0, ..n }, mine + kids.1)
}

pub open spec fn idx_children(cs: Seq<NodeView>, ids: Seq<Seq<char>>, path: Seq<char>, ok: bool, next: nat) -> (Seq<NodeView>, Seq<Seq<char>>)
    decreases cs,
{
    if cs.len() == 0 {
        (Seq::empty(), Seq::empty())
    } else {
        let prev = idx_children(cs.drop_last(), ids, path, ok, next);
        let c = cs.last();
        let pos = (cs.len() - 1) as nat;
        let cur = idx_node(c, ids, child_path(path, c.tag, pos), ok && c.tag.len() > 0, next + prev.1.len());
        (prev.0.push(cur.0), prev.1 + cur.1)
    }
}

/// Indexing of a whole tree: handles from 0, paths from the root's tag.
pub open spec fn idx_tree(root: NodeView) -> (NodeView, Seq<Seq<char>>) {
    idx_node(root, ids_of(root), root.tag, root.tag.len() > 0, 0)
}

fn is_css_ident_text(s: &String) -> (r: bool)
    ensures
        r == is_css_ident(s@),
{
    let t = s.as_str();
    let n = t.unicode_len();
    if n == 0 {
        return false;
    }
    let c0 = t.get_char(0);
    if !(('a' <= c0 && c0 <= 'z') || ('A' <= c0 && c0 <= 'Z')) {
        return false;
    }
    let mut i: usize = 0;
    while i < n
        invariant
            n == s@.len(),
            t@ == s@,
            i <= n,
            forall|k: int| 0 <= k < i ==> is_ident_char(#[trigger] s@[k]),
        decreases n - i,
    {
        let c = t.get_char(i);
        if !(('a' <= c && c <= 'z') || ('A' <= c && c <= 'Z') || ('0' <= c && c <= '9') || c == '-'
            || c == '_') {
            assert(!is_ident_char(s@[i as int]));
            return false;
        }
        i = i + 1;
    }
    true
}

fn occurs_once(ids: &Vec<String>, id: &String) -> (r: bool)
    ensures
        r == (count_in(strings_view(ids@), id@) == 1),
{
    let ghost all = strings_view(ids@);
    let mut count: usize = 0;
    let mut i: usize = 0;
    assert(all.take(0) =~= Seq::<Seq<char>>::empty());
    while i < ids.len()
        invariant
            i <= ids@.len(),
            all == strings_view(ids@),
            count <= i,
            count as nat == count_in(all.take(i as int), id@),
        decreases ids@.len() - i,
    {
        assert(all.take(i + 1).drop_last() =~= all.take(i as int));
        assert(all.take(i + 1).last() == ids@[i as int]@);
        if ids[i].eq(id) {
            count = count + 1;
        }
        i = i + 1;
    }
    assert(all.take(i as int) =~= all);
    count == 1
}

/// Appends the `id` attributes of the subtree of `node` to `out`, in document order.
fn collect_ids(node: &ElementNode, out: &mut Vec<String>)
    ensures
        strings_view(final(out)@) == strings_view(old(out)@) + ids_of(node@),
    decreases size(node@),
{
    let ghost start = strings_view(out@);
    let id_name = "id";
    proof {
        reveal_strlit("id");
        assert(id_name@ =~= seq!['i', 'd']);
    }
    match node.get_attribute(id_name) {
        Some(id) => {
            out.push(id.clone());
        },
        None => {},
    }
    assert(strings_view(out@) =~= start + own_id(node@));
    let ghost mid = strings_view(out@);
    proof {
        lemma_children_view(node);
    }
    let mut i: usize = 0;
    assert(node@.children.take(0) =~= Seq::<NodeView>::empty());
    assert(strings_view(out@) =~= mid + ids_seq(node@.children.take(0)));
    while i < node.children.len()
        invariant
            i <= node.children@.len(),
            node@.children.len() == node.children@.len(),
            forall|j: int| 0 <= j < node.children@.len() ==> node@.children[j] == (#[trigger] node.children@[j])@,
            strings_view(out@) == mid + ids_seq(node@.children.take(i as int)),
        decreases node.children@.len() - i,
    {
        proof {
            lemma_size_child(node@, i as int);
        }
        assert(node@.children.take(i + 1).drop_last() =~= node@.children.take(i as int));
        let ghost before = strings_view(out@);
        collect_ids(&node.children[i], out);
        assert(strings_view(out@) =~= mid + ids_seq(node@.children.take(i + 1)));
        i = i + 1;
    }
    assert(node@.children.take(i as int) =~= node@.children);
    assert(strings_view(out@) =~= start + ids_of(node@));
}

fn locator_for(node: &ElementNode, ids: &Vec<String>, path: &String, ok: bool) -> (r: Option<String>)
    ensures
        opt_text_view(r) == locator(node@, strings_view(ids@), path@, ok),
{
    let id_name = "id";
    proof {
        reveal_strlit("id");
        assert(id_name@ =~= seq!['i', 'd']);
    }
    match node.get_attribute(id_name) {
        Some(id) => {
            if is_css_ident_text(id) && occurs_once(ids, id) {
                let hash = "#";
                proof {
                    reveal_strlit("#");
                }
                let mut l = String::from_str(hash);
                l.append(id.as_str());
                assert(l@ =~= seq!['#'] + id@);
                return Some(l);
            }
        },
        None => {},
    }
    if ok {
        Some(path.clone())
    } else {
        None
    }
}

fn make_child_path(parent: &String, tag: &String, pos: usize) -> (r: String)
    requires
        pos < usize::MAX,
    ensures
        r@ == child_path(parent@, tag@, pos as nat),
{
    let sep = " > ";
    let open = ":nth-child(";
    let close = ")";
    proof {
        reveal_strlit(" > ");
        reveal_strlit(":nth-child(");
        reveal_strlit(")");
        assert(sep@ =~= seq![' ', '>', ' ']);
        assert(open@ =~= nth_child_open());
        assert(close@ =~= seq![')']);
    }
    let mut r = parent.clone();
    r.append(sep);
    r.append(tag.as_str());
    r.append(open);
    let d = decimal(pos + 1);
    r.append(d.as_str());
    r.append(close);
    r
}

fn index_node(node: ElementNode, ids: &Vec<String>, path: &String, ok: bool, locs: &mut Vec<String>) -> (r: ElementNode)
    ensures
        r@ == idx_node(node@, strings_view(ids@), path@, ok, old(locs)@.len()).0,
        strings_view(final(locs)@) == strings_view(old(locs)@) + idx_node(
            node@, strings_view(ids@),
            path@,
            ok,
            old(locs)@.len(),
        ).1,
    decreases size(node@),
{
    let ghost orig = node;
    let ghost next0 = locs@.len();
    let ghost locs0 = locs@;
    let loc = locator_for(&node, ids, path, ok);
    let ElementNode {
        tag_name,
        attributes,
        text_content,
        is_visible,
        is_interactive,
        index: _,
        children,
        bounding_box,
    } = node;
    let mut my_index: Option<usize> = None;
    if is_interactive {
        match loc {
            Some(l) => {
                my_index = Some(locs.len());
                locs.push(l);
            },
            None => {},
        }
    }
    let ghost mine = strings_view(locs@).subrange(next0 as int, locs@.len() as int);
    assert(strings_view(locs@) =~= strings_view(locs0) + mine);
    let ghost start = locs@.len();
    let mut children = children;
    let n = children.len();
    let mut out: Vec<ElementNode> = Vec::new();
    let mut i: usize = 0;
    proof {
        lemma_nodes_view(orig.children@);
        assert(children@.subrange(0, n as int) =~= children@);
        assert(orig@.children.take(0) =~= Seq::<NodeView>::empty());
        assert(nodes_view(out@) =~= Seq::<NodeView>::empty());
        assert(strings_view(locs@) =~= strings_view(locs0) + mine + Seq::<Seq<char>>::empty());
    }
    while i < n
        invariant
            n == orig.children@.len(),
            i <= n,
            children@ == orig.children@.subrange(i as int, n as int),
            orig@.children.len() == n,
            forall|j: int| 0 <= j < n ==> orig@.children[j] == (#[trigger] orig.children@[j])@,
            nodes_view(out@) == idx_children(orig@.children.take(i as int), strings_view(ids@), path@, ok, start).0,
            strings_view(locs@) == strings_view(locs0) + mine + idx_children(
                orig@.children.take(i as int), strings_view(ids@),
                path@,
                ok,
                start,
            ).1,
            start == next0 + mine.len(),
            next0 == locs0.len(),
            orig == node,
        decreases n - i,
    {
        let c = children.remove(0);
        assert(c == orig.children@[i as int]);
        proof {
            assert(orig@.children[i as int] == c@);
            lemma_size_child(orig@, i as int);
        }
        assert(children@ =~= orig.children@.subrange(i + 1, n as int));
        let cp = make_child_path(path, &c.tag_name, i);
        let cok = ok && c.tag_name.as_str().unicode_len() > 0;
        let ghost before = locs@;
        let c2 = index_node(c, ids, &cp, cok, locs);
        proof {
            let cs = orig@.children.take(i + 1);
            assert(cs.drop_last() =~= orig@.children.take(i as int));
            assert(cs.last() == c@);
        }
        let ghost out_before = out@;
        out.push(c2);
        proof {
            assert(out@.drop_last() =~= out_before);
            let cs = orig@.children.take(i + 1);
            let prev = idx_children(cs.drop_last(), strings_view(ids@), path@, ok, start);
            assert(before.len() == strings_view(before).len());
            assert(before.len() == start + prev.1.len());
            assert(cp@ == child_path(path@, cs.last().tag, i as nat));
            assert(strings_view(locs@) =~= strings_view(locs0) + mine + (prev.1 + idx_node(
                cs.last(), strings_view(ids@),
                cp@,
                cok,
                before.len(),
            ).1));
        }
        i = i + 1;
    }
    assert(orig@.children.take(n as int) =~= orig@.children);
    ElementNode {
        tag_name,
        attributes,
        text_content,
        is_visible,
        is_interactive,
        index: my_index,
        children: out,
        bounding_box,
    }
}

/// The handles held by a subtree, in document order.
pub open spec fn indices_of(n: NodeView) -> Seq<nat>
    decreases n,
{
    (match n.index {
        Some(k) => seq![k],
        None => Seq::empty(),
    }) + indices_seq(n.children)
}

pub open spec fn indices_seq(cs: Seq<NodeView>) -> Seq<nat>
    decreases cs,
{
    if cs.len() == 0 {
        Seq::empty()
    } else {
        indices_seq(cs.drop_last()) + indices_of(cs.last())
    }
}

/// Every node of the subtree that holds a handle is flagged interactive.
pub open spec fn indexed_interactive(n: NodeView) -> bool
    decreases n,
{
    &&& (n.index is Some ==> n.interactive)
    &&& indexed_interactive_seq(n.children)
}

pub open spec fn indexed_interactive_seq(cs: Seq<NodeView>) -> bool
    decreases cs,
{
    cs.len() == 0 || (indexed_interactive_seq(cs.drop_last()) && indexed_interactive(cs.last()))
}

/// `start, start + 1, ..., start + len - 1`.
pub open spec fn range_from(start: nat, len: nat) -> Seq<nat> {
    Seq::new(len, |k: int| (start + k) as nat)
}

proof fn lemma_range_concat(a: nat, m: nat, l: nat)
    ensures
        range_from(a, m) + range_from(a + m, l) =~= range_from(a, m + l),
{
}

proof fn lemma_idx_node(n: NodeView, ids: Seq<Seq<char>>, path: Seq<char>, ok: bool, next: nat)
    requires
        ok ==> path.len() > 0,
    ensures
        indices_of(idx_node(n, ids, path, ok, next).0) == range_from(next, idx_node(n, ids, path, ok, next).1.len()),
        indexed_interactive(idx_node(n, ids, path, ok, next).0),
        forall|k: int| 0 <= k < idx_node(n, ids, path, ok, next).1.len()
            ==> (#[trigger] idx_node(n, ids, path, ok, next).1[k]).len() > 0,
    decreases n,
{
    let r = idx_node(n, ids, path, ok, next);
    let mine: Seq<Seq<char>> = if n.interactive && locator(n, ids, path, ok) is Some {
        seq![locator(n, ids, path, ok)->0]
    } else {
        Seq::empty()
    };
    let kids = idx_children(n.children, ids, path, ok, next + mine.len());
    lemma_idx_children(n.children, ids, path, ok, next + mine.len());
    lemma_range_concat(next, mine.len(), kids.1.len());
    if mine.len() > 0 {
        assert(seq![next] =~= range_from(next, 1));
        match id_locator(n, ids) {
            Some(l) => assert(l.len() > 0),
            None => {},
        }
    } else {
        assert(Seq::<nat>::empty() =~= range_from(next, 0));
    }
    assert(r.1 == mine + kids.1);
    assert forall|k: int| 0 <= k < r.1.len() implies (#[trigger] r.1[k]).len() > 0 by {
        if k >= mine.len() {
            assert(r.1[k] == kids.1[k - mine.len()]);
        }
    }
}

proof fn lemma_idx_children(cs: Seq<NodeView>, ids: Seq<Seq<char>>, path: Seq<char>, ok: bool, next: nat)
    requires
        ok ==> path.len() > 0,
    ensures
        indices_seq(idx_children(cs, ids, path, ok, next).0) == range_from(next, idx_children(cs, ids, path, ok, next).1.len()),
        indexed_interactive_seq(idx_children(cs, ids, path, ok, next).0),
        forall|k: int| 0 <= k < idx_children(cs, ids, path, ok, next).1.len()
            ==> (#[trigger] idx_children(cs, ids, path, ok, next).1[k]).len() > 0,
    decreases cs,
{
    if cs.len() == 0 {
        assert(range_from(next, 0) =~= Seq::<nat>::empty());
    } else {
        let prev = idx_children(cs.drop_last(), ids, path, ok, next);
        let c = cs.last();
        let pos = (cs.len() - 1) as nat;
        let cp = child_path(path, c.tag, pos);
        let cur = idx_node(c, ids, cp, ok && c.tag.len() > 0, next + prev.1.len());
        lemma_idx_children(cs.drop_last(), ids, path, ok, next);
        lemma_idx_node(c, ids, cp, ok && c.tag.len() > 0, next + prev.1.len());
        lemma_range_concat(next, prev.1.len(), cur.1.len());
        let r = idx_children(cs, ids, path, ok, next);
        assert(r.0.drop_last() =~= prev.0);
        assert(r.0.last() == cur.0);
        assert forall|k: int| 0 <= k < r.1.len() implies (#[trigger] r.1[k]).len() > 0 by {
            if k >= prev.1.len() {
                assert(r.1[k] == cur.1[k - prev.1.len()]);
            } else {
                assert(r.1[k] == prev.1[k]);
            }
        }
    }
}

/// Handles mapped to locators. The handles of a map built by [`DomTree::new`]
/// are `0 .. len`, in the order in which they were handed out, so the model is
/// the sequence of locators, the one of handle `k` at position `k`.
#[derive(Debug)]
pub struct SelectorMap {
    locators: Vec<String>,
}

impl View for SelectorMap {
    type V = Seq<Seq<char>>;

    closed spec fn view(&self) -> Seq<Seq<char>> {
        strings_view(self.locators@)
    }
}

impl SelectorMap {
    /// Number of handles.
    pub fn len(&self) -> (r: usize)
        ensures
            r == self@.len(),
    {
        self.locators.len()
    }

    pub fn is_empty(&self) -> (r: bool)
        ensures
            r == (self@.len() == 0),
    {
        self.locators.len() == 0
    }

    /// The locator of handle `index`; `None` when no element holds it.
    pub fn get_selector(&self, index: usize) -> (r: Option<String>)
        ensures
            opt_text_view(r) == (if index < self@.len() {
                Some(self@[index as int])
            } else {
                None
            }),
    {
        if index < self.locators.len() {
            Some(self.locators[index].clone())
        } else {
            None
        }
    }

    /// The handles, in the order in which they were handed out.
    pub fn interactive_indices(&self) -> (r: Vec<usize>)
        ensures
            r@.len() == self@.len(),
            forall|k: int| 0 <= k < r@.len() ==> r@[k] == k,
    {
        let mut r: Vec<usize> = Vec::new();
        let mut i: usize = 0;
        while i < self.locators.len()
            invariant
                i <= self.locators@.len(),
                r@.len() == i,
                forall|k: int| 0 <= k < i ==> r@[k] == k,
            decreases self.locators@.len() - i,
        {
            r.push(i);
            i = i + 1;
        }
        r
    }
}

/// An indexed tree and its selector map.
#[derive(Debug)]
pub struct DomTree {
    pub root: ElementNode,
    pub selector_map: SelectorMap,
}

impl DomTree {
    /// The handles in the tree are `0 .. n` in document order, each on an
    /// interactive node, and each has a non-empty locator in the map.
    pub open spec fn wf(&self) -> bool {
        &&& indices_of(self.root@) == range_from(0, self.selector_map@.len())
        &&& indexed_interactive(self.root@)
        &&& forall|k: int| 0 <= k < self.selector_map@.len() ==> (#[trigger] self.selector_map@[k]).len() > 0
    }

    /// Indexes `root`: in document order, each interactive node that has a
    /// locator receives the next handle from 0; every other node loses its handle.
    pub fn new(root: ElementNode) -> (r: DomTree)
        ensures
            r.root@ == idx_tree(root@).0,
            r.selector_map@ == idx_tree(root@).1,
            r.wf(),
    {
        let path = root.tag_name.clone();
        let ok = root.tag_name.as_str().unicode_len() > 0;
        let mut locators: Vec<String> = Vec::new();
        let ghost v = root@;
        let mut ids: Vec<String> = Vec::new();
        collect_ids(&root, &mut ids);
        assert(strings_view(ids@) =~= ids_of(v));
        let indexed = index_node(root, &ids, &path, ok, &mut locators);
        assert(strings_view(locators@) =~= idx_tree(v).1);
        let r = DomTree { root: indexed, selector_map: SelectorMap { locators } };
        proof {
            lemma_idx_node(v, ids_of(v), v.tag, v.tag.len() > 0, 0);
        }
        r
    }

    /// Number of nodes in the tree (at most `usize::MAX`).
    pub fn count_elements(&self) -> (r: usize)
        ensures
            r == capped(size(self.root@)),
    {
        self.root.count_elements()
    }

    /// Number of nodes flagged interactive (at most `usize::MAX`).
    pub fn count_interactive(&self) -> (r: usize)
        ensures
            r == capped(interactive_count(self.root@)),
    {
        self.root.count_interactive()
    }

    /// The locator of handle `index`.
    pub fn get_selector(&self, index: usize) -> (r: Option<String>)
        ensures
            opt_text_view(r) == (if index < self.selector_map@.len() {
                Some(self.selector_map@[index as int])
            } else {
                None
            }),
    {
        self.selector_map.get_selector(index)
    }

    /// The handles, in the order in which they were handed out.
    pub fn interactive_indices(&self) -> (r: Vec<usize>)
        ensures
            r@.len() == self.selector_map@.len(),
            forall|k: int| 0 <= k < r@.len() ==> r@[k] == k,
    {
        self.selector_map.interactive_indices()
    }

    /// The node that holds handle `index`, the first in document order.
    pub fn find_node_by_index(&self, index: usize) -> (r: Option<&ElementNode>)
        ensures
            match r {
                Some(m) => find_in(self.root@, index as nat) == Some(m@),
                None => find_in(self.root@, index as nat) is None,
            },
    {
        find_node(&self.root, index)
    }
}

/// The first node of the subtree, in document order, that holds handle `idx`.
pub open spec fn find_in(n: NodeView, idx: nat) -> Option<NodeView>
    decreases n,
{
    if n.index == Some(idx) {
        Some(n)
    } else {
        find_seq(n.children, idx)
    }
}

pub open spec fn find_seq(cs: Seq<NodeView>, idx: nat) -> Option<NodeView>
    decreases cs,
{
    if cs.len() == 0 {
        None
    } else {
        match find_seq(cs.drop_last(), idx) {
            Some(m) => Some(m),
            None => find_in(cs.last(), idx),
        }
    }
}

fn find_node(node: &ElementNode, idx: usize) -> (r: Option<&ElementNode>)
    ensures
        match r {
            Some(m) => find_in(node@, idx as nat) == Some(m@),
            None => find_in(node@, idx as nat) is None,
        },
    decreases size(node@),
{
    if node.index == Some(idx) {
        return Some(node);
    }
    proof {
        lemma_children_view(node);
    }
    let mut i: usize = 0;
    while i < node.children.len()
        invariant
            i <= node.children@.len(),
            node@.children.len() == node.children@.len(),
            forall|j: int| 0 <= j < node.children@.len() ==> node@.children[j] == (#[trigger] node.children@[j])@,
            find_seq(node@.children.take(i as int), idx as nat) is None,
            node@.index != Some(idx as nat),
        decreases node.children@.len() - i,
    {
        proof {
            lemma_size_child(node@, i as int);
        }
        let found = find_node(&node.children[i], idx);
        assert(node@.children.take(i + 1).drop_last() =~= node@.children.take(i as int));
        match found {
            Some(m) => {
                proof {
                    assert(find_seq(node@.children.take(i + 1), idx as nat) == Some(m@));
                    lemma_find_seq_prefix(node@.children, i as int + 1, idx as nat);
                }
                return Some(m);
            },
            None => {},
        }
        i = i + 1;
    }
    assert(node@.children.take(i as int) =~= node@.children);
    None
}

proof fn lemma_find_seq_prefix(cs: Seq<NodeView>, i: int, idx: nat)
    requires
        0 <= i <= cs.len(),
        find_seq(cs.take(i), idx) is Some,
    ensures
        find_seq(cs, idx) == find_seq(cs.take(i), idx),
    decreases cs.len() - i,
{
    if i < cs.len() {
        assert(cs.take(i + 1).drop_last() =~= cs.take(i));
        lemma_find_seq_prefix(cs, i + 1, idx);
    } else {
        assert(cs.take(i) =~= cs);
    }
}

/// A subtree has a node with handle `idx` exactly when `idx` is among its
/// handles, and the node found holds that handle.
pub proof fn lemma_find_in(n: NodeView, idx: nat)
    ensures
        find_in(n, idx) is Some <==> indices_of(n).contains(idx),
        find_in(n, idx) is Some ==> find_in(n, idx)->0.index == Some(idx),
    decreases n,
{
    let own: Seq<nat> = match n.index {
        Some(k) => seq![k],
        None => Seq::empty(),
    };
    lemma_find_seq(n.children, idx);
    let all = indices_of(n);
    assert(all == own + indices_seq(n.children));
    if n.index == Some(idx) {
        assert(all[0] == idx);
    } else {
        if indices_seq(n.children).contains(idx) {
            let j = choose|j: int| 0 <= j < indices_seq(n.children).len() && indices_seq(n.children)[j] == idx;
            assert(all[own.len() + j] == idx);
        }
        if all.contains(idx) {
            let j = choose|j: int| 0 <= j < all.len() && all[j] == idx;
            if j >= own.len() {
                assert(indices_seq(n.children)[j - own.len()] == idx);
            }
        }
    }
}

pub proof fn lemma_find_seq(cs: Seq<NodeView>, idx: nat)
    ensures
        find_seq(cs, idx) is Some <==> indices_seq(cs).contains(idx),
        find_seq(cs, idx) is Some ==> find_seq(cs, idx)->0.index == Some(idx),
    decreases cs,
{
    if cs.len() > 0 {
        let a = indices_seq(cs.drop_last());
        let b = indices_of(cs.last());
        lemma_find_seq(cs.drop_last(), idx);
        lemma_find_in(cs.last(), idx);
        let all = indices_seq(cs);
        assert(all == a + b);
        if a.contains(idx) {
            let j = choose|j: int| 0 <= j < a.len() && a[j] == idx;
            assert(all[j] == idx);
        }
        if b.contains(idx) {
            let j = choose|j: int| 0 <= j < b.len() && b[j] == idx;
            assert(all[a.len() + j] == idx);
        }
        if all.contains(idx) {
            let j = choose|j: int| 0 <= j < all.len() && all[j] == idx;
            if j < a.len() {
                assert(a[j] == idx);
            } else {
                assert(b[j - a.len()] == idx);
            }
        }
    }
}

/// Indexing is deterministic: two builds from equal trees hand the same
/// handles to the same nodes, in the same order, with the same locators.
pub proof fn lemma_indexing_deterministic(a: NodeView, b: NodeView)
    requires
        a == b,
    ensures
        idx_tree(a).0 == idx_tree(b).0,
        idx_tree(a).1 == idx_tree(b).1,
        indices_of(idx_tree(a).0) == indices_of(idx_tree(b).0),
{
}

/// No two nodes of a built tree share a handle.
pub proof fn lemma_handles_unique(d: &DomTree)
    requires
        d.wf(),
    ensures
        indices_of(d.root@).no_duplicates(),
{
    let s = indices_of(d.root@);
    assert forall|i: int, j: int| 0 <= i < s.len() && 0 <= j < s.len() && i != j implies s[i] != s[j] by {
        assert(s[i] == i && s[j] == j);
    }
}

/// Every handle of the map resolves to a non-empty locator and to the node
/// that holds it; a number that is not a handle resolves to nothing.
pub proof fn lemma_resolution_sound(d: &DomTree, index: nat)
    requires
        d.wf(),
    ensures
        index < d.selector_map@.len() ==> {
            &&& d.selector_map@[index as int].len() > 0
            &&& find_in(d.root@, index) is Some
            &&& find_in(d.root@, index)->0.index == Some(index)
            &&& find_in(d.root@, index)->0.interactive
        },
        index >= d.selector_map@.len() ==> find_in(d.root@, index) is None,
{
    let s = indices_of(d.root@);
    lemma_find_in(d.root@, index);
    if index < d.selector_map@.len() {
        assert(s[index as int] == index);
        lemma_found_interactive(d.root@, index);
    } else {
        if s.contains(index) {
            let j = choose|j: int| 0 <= j < s.len() && s[j] == index;
            assert(s[j] == j);
        }
    }
}

proof fn lemma_found_interactive(n: NodeView, idx: nat)
    requires
        indexed_interactive(n),
        find_in(n, idx) is Some,
    ensures
        find_in(n, idx)->0.interactive,
    decreases n,
{
    if n.index != Some(idx) {
        lemma_found_interactive_seq(n.children, idx);
    }
}

proof fn lemma_found_interactive_seq(cs: Seq<NodeView>, idx: nat)
    requires
        indexed_interactive_seq(cs),
        find_seq(cs, idx) is Some,
    ensures
        find_seq(cs, idx)->0.interactive,
    decreases cs,
{
    if cs.len() > 0 {
        if find_seq(cs.drop_last(), idx) is Some {
            lemma_found_interactive_seq(cs.drop_last(), idx);
        } else {
            lemma_found_interactive(cs.last(), idx);
        }
    }
}

} // verus!
