//! JSON text of element trees.

use vstd::prelude::*;
use crate::dom::{lemma_children_view, lemma_size_child, size, DomTree, ElementNode, NodeView};
use crate::text::{dec, decimal};

verus! {

/// A lowercase hexadecimal digit.
pub open spec fn hex_digit(d: nat) -> char {
    if d < 10 {
        ('0' as nat + d) as char
    } else {
        ('a' as nat + (d - 10)) as char
    }
}

/// One character inside a JSON string literal: `"` and `\` and the control
/// characters below U+0020 are escaped, with the short forms where JSON has
/// them and `\u00xx` otherwise; every other character stands for itself.
pub open spec fn json_escape_char(c: char) -> Seq<char> {
    if c == '"' {
        seq!['\\', '"']
    } else if c == '\\' {
        seq!['\\', '\\']
    } else if c == '\u{8}' {
        seq!['\\', 'b']
    } else if c == '\u{c}' {
        seq!['\\', 'f']
    } else if c == '\n' {
        seq!['\\', 'n']
    } else if c == '\r' {
        seq!['\\', 'r']
    } else if c == '\t' {
        seq!['\\', 't']
    } else if (c as nat) < 0x20 {
        seq!['\\', 'u', '0', '0', hex_digit((c as nat) / 16), hex_digit((c as nat) % 16)]
    } else {
        seq![c]
    }
}

pub open spec fn json_escaped(s: Seq<char>) -> Seq<char>
    decreases s.len(),
{
    if s.len() == 0 {
        Seq::empty()
    } else {
        json_escaped(s.drop_last()) + json_escape_char(s.last())
    }
}

/// The JSON string literal of `s`: its escaped characters between quotes.
pub open spec fn json_string_of(s: Seq<char>) -> Seq<char> {
    seq!['"'] + json_escaped(s) + seq!['"']
}

/// Relies on `serde_json::to_string` applied to a `str`: it writes the
/// string between quotes, escaping `"`, `\` and the control characters as
/// `json_escape_char` says; writing into memory, it never fails.
#[verifier::external_body]
pub(crate) fn json_string(s: &str) -> (r: String)
    ensures
        r@ == json_string_of(s@),
{
    serde_json::to_string(s).unwrap_or_default()
}

pub open spec fn bool_json(b: bool) -> Seq<char> {
    if b { "true"@ } else { "false"@ }
}

pub open spec fn text_json(t: Option<Seq<char>>) -> Seq<char> {
    match t {
        Some(s) => json_string_of(s),
        None => "null"@,
    }
}

/// `,"index":n`, or nothing for a node without handle.
pub open spec fn index_json(i: Option<nat>) -> Seq<char> {
    match i {
        Some(k) => ",\"index\":"@ + dec(k),
        None => Seq::empty(),
    }
}

pub open spec fn attr_json(p: (Seq<char>, Seq<char>)) -> Seq<char> {
    json_string_of(p.0) + ":"@ + json_string_of(p.1)
}

/// The members of the attributes object, in order, separated by commas.
pub open spec fn attrs_json(a: Seq<(Seq<char>, Seq<char>)>) -> Seq<char>
    decreases a.len(),
{
    if a.len() == 0 {
        Seq::empty()
    } else if a.len() == 1 {
        attr_json(a[0])
    } else {
        attrs_json(a.drop_last()) + ","@ + attr_json(a.last())
    }
}

/// The JSON object of a subtree: tag, attributes, text, flags, the handle
/// when there is one, and the children in order.
pub open spec fn node_json(n: NodeView) -> Seq<char>
    decreases n,
{
    "{\"tag_name\":"@ + json_string_of(n.tag) + ",\"attributes\":{"@ + attrs_json(n.attributes)
        + "},\"text_content\":"@ + text_json(n.text) + ",\"is_visible\":"@ + bool_json(n.visible)
        + ",\"is_interactive\":"@ + bool_json(n.interactive) + index_json(n.index) + ",\"children\":["@
        + children_json(n.children) + "]}"@
}

pub open spec fn children_json(cs: Seq<NodeView>) -> Seq<char>
    decreases cs,
{
    if cs.len() == 0 {
        Seq::empty()
    } else if cs.len() == 1 {
        node_json(cs[0])
    } else {
        children_json(cs.drop_last()) + ","@ + node_json(cs.last())
    }
}

fn append_bool(out: &mut String, b: bool)
    ensures
        final(out)@ == old(out)@ + bool_json(b),
{
    if b {
        out.append("true");
    } else {
        out.append("false");
    }
}

impl ElementNode {
    /// The JSON text of this subtree.
    pub fn to_json(&self) -> (r: String)
        ensures
            r@ == node_json(self@),
        decreases size(self@),
    {
        let mut out = String::from_str("{\"tag_name\":");
        let tag = json_string(self.tag_name.as_str());
        out.append(tag.as_str());
        out.append(",\"attributes\":{");
        let ghost start = out@;
        let mut i: usize = 0;
        assert(self@.attributes.take(0) =~= Seq::<(Seq<char>, Seq<char>)>::empty());
        assert(out@ =~= start + attrs_json(self@.attributes.take(0)));
        while i < self.attributes.len()
            invariant
                i <= self.attributes@.len(),
                self@.attributes.len() == self.attributes@.len(),
                out@ == start + attrs_json(self@.attributes.take(i as int)),
            decreases self.attributes@.len() - i,
        {
            let ghost prefix = self@.attributes.take(i + 1);
            assert(prefix.drop_last() =~= self@.attributes.take(i as int));
            assert(prefix.last() == (self.attributes@[i as int].0@, self.attributes@[i as int].1@));
            if i > 0 {
                out.append(",");
            } else {
                assert(prefix.len() == 1);
                assert(self@.attributes.take(0) =~= Seq::<(Seq<char>, Seq<char>)>::empty());
            }
            let k = json_string(self.attributes[i].0.as_str());
            out.append(k.as_str());
            out.append(":");
            let v = json_string(self.attributes[i].1.as_str());
            out.append(v.as_str());
            i = i + 1;
        }
        assert(self@.attributes.take(i as int) =~= self@.attributes);
        out.append("},\"text_content\":");
        match &self.text_content {
            Some(t) => {
                let q = json_string(t.as_str());
                out.append(q.as_str());
            },
            None => out.append("null"),
        }
        out.append(",\"is_visible\":");
        append_bool(&mut out, self.is_visible);
        out.append(",\"is_interactive\":");
        append_bool(&mut out, self.is_interactive);
        match self.index {
            Some(k) => {
                out.append(",\"index\":");
                let d = decimal(k);
                out.append(d.as_str());
            },
            None => {},
        }
        out.append(",\"children\":[");
        let ghost mid = out@;
        proof {
            lemma_children_view(self);
        }
        let mut j: usize = 0;
        assert(self@.children.take(0) =~= Seq::<NodeView>::empty());
        assert(out@ =~= mid + children_json(self@.children.take(0)));
        while j < self.children.len()
            invariant
                j <= self.children@.len(),
                self@.children.len() == self.children@.len(),
                forall|x: int| 0 <= x < self.children@.len() ==> self@.children[x] == (#[trigger] self.children@[x])@,
                out@ == mid + children_json(self@.children.take(j as int)),
            decreases self.children@.len() - j,
        {
            proof {
                lemma_size_child(self@, j as int);
            }
            let ghost prefix = self@.children.take(j + 1);
            assert(prefix.drop_last() =~= self@.children.take(j as int));
            if j > 0 {
                out.append(",");
            } else {
                assert(prefix.len() == 1);
            }
            let c = self.children[j].to_json();
            out.append(c.as_str());
            j = j + 1;
        }
        assert(self@.children.take(j as int) =~= self@.children);
        out.append("]}");
        out
    }
}

impl DomTree {
    /// The JSON text of the tree.
    pub fn to_json(&self) -> (r: String)
        ensures
            r@ == node_json(self.root@),
    {
        self.root.to_json()
    }
}

} // verus!
