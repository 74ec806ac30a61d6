//! A lossless, editable XML DOM.
//!
//! Every node keeps its exact original bytes, so an unedited tree serializes
//! byte-for-byte identical to its input — declaration, attribute quoting and
//! spacing, self-closing style, whitespace, comments and CDATA included.
//! Editing marks individual elements `dirty`; a dirty element regenerates only
//! its own tags, while clean siblings and subtrees still emit verbatim.

use vstd::prelude::*;
use crate::bytes::{bytes_eq, extend, find_byte, index_of, lemma_index_of, slice_of, to_vec};
use crate::error::OxmlError;
use crate::text::{chars_of, from_utf8_lossy, lossy_decode, string_of};
use crate::xml_reader::{
    open_reader, read_event, reader_input, reader_position, reader_reads, reader_trims, step_empty, step_end_tag,
    step_eof, step_error, step_start, xml_step, XmlEvent,
};
use vstd::utf8::encode_utf8;

verus! {

/// One node of the tree: an element, or any other markup or text kept as its
/// exact original bytes.
#[derive(Debug, PartialEq)]
pub enum Node {
    Element(Element),
    Raw(Vec<u8>),
}

/// An XML element with its children, keeping its original tag bytes until it is
/// edited.
#[derive(Debug, PartialEq)]
pub struct Element {
    /// Qualified name as written, e.g. `a:t`.
    pub name: Vec<u8>,
    /// Exact original start-tag bytes; emitted verbatim unless `dirty`.
    pub raw_start: Vec<u8>,
    /// Exact original end-tag bytes; empty when self-closing.
    pub raw_end: Vec<u8>,
    /// Whether the element is written as a single self-closing tag.
    pub self_closing: bool,
    /// When set, the tags are regenerated from `name` and `attrs`.
    pub dirty: bool,
    /// Attributes (name, value) in source order.
    pub attrs: Vec<(Vec<u8>, Vec<u8>)>,
    pub children: Vec<Node>,
}

/// A parsed document: its top-level nodes (declaration, root element, trailing
/// whitespace, ...).
#[derive(Debug, PartialEq)]
pub struct Document {
    pub nodes: Vec<Node>,
}

// ─── Names ──────────────────────────────────────────────────────────────────

/// A qualified name with any namespace prefix (up to the first `:`) removed.
pub open spec fn local_of(name: Seq<u8>) -> Seq<u8> {
    let i = index_of(name, 58u8);
    if i < 0 {
        name
    } else {
        name.skip(i + 1)
    }
}

pub open spec fn attrs_view(a: Seq<(Vec<u8>, Vec<u8>)>) -> Seq<(Seq<u8>, Seq<u8>)> {
    a.map_values(|p: (Vec<u8>, Vec<u8>)| (p.0@, p.1@))
}

/// The local name of a name with a one-byte prefix, `x:local`.
pub proof fn lemma_local_of_prefixed(prefix: u8, local: Seq<u8>)
    requires
        prefix != 58,
    ensures
        local_of(seq![prefix, 58u8] + local) == local,
{
    let s = seq![prefix, 58u8] + local;
    assert(s.drop_first()[0] == 58);
    assert(index_of(s.drop_first(), 58u8) == 0);
    assert(index_of(s, 58u8) == 1);
    assert(s.skip(2) =~= local);
}

impl Element {
    pub open spec fn local(self) -> Seq<u8> {
        local_of(self.name@)
    }

    pub open spec fn attrs_v(self) -> Seq<(Seq<u8>, Seq<u8>)> {
        attrs_view(self.attrs@)
    }
}

/// Whether a node is an element with the given local name.
pub open spec fn is_named(n: Node, local: Seq<u8>) -> bool {
    n matches Node::Element(e) && e.local() == local
}

// ─── Serialization ──────────────────────────────────────────────────────────

pub open spec fn attr_bytes(k: Seq<u8>, v: Seq<u8>) -> Seq<u8> {
    /*   */ seq![32u8] + k + /* =\" */ seq![61u8, 34u8] + v + /* \" */ seq![34u8]
}

pub open spec fn attrs_bytes(a: Seq<(Seq<u8>, Seq<u8>)>) -> Seq<u8>
    decreases a.len(),
{
    if a.len() == 0 {
        Seq::empty()
    } else {
        attrs_bytes(a.drop_last()) + attr_bytes(a.last().0, a.last().1)
    }
}

/// The bytes an element's start tag is written as.
pub open spec fn start_tag_bytes(e: Element) -> Seq<u8> {
    if e.dirty {
        /* < */ seq![60u8] + e.name@ + attrs_bytes(e.attrs_v()) + (if e.self_closing {
            /* /> */ seq![47u8, 62u8]
        } else {
            /* > */ seq![62u8]
        })
    } else {
        e.raw_start@
    }
}

/// The bytes an element's end tag is written as (none when self-closing).
pub open spec fn end_tag_bytes(e: Element) -> Seq<u8> {
    if e.self_closing {
        Seq::empty()
    } else if e.dirty {
        /* </ */ seq![60u8, 47u8] + e.name@ + /* > */ seq![62u8]
    } else {
        e.raw_end@
    }
}

/// The bytes an element is written as.
pub open spec fn element_bytes(e: Element) -> Seq<u8>
    decreases e,
{
    if e.self_closing {
        start_tag_bytes(e)
    } else {
        start_tag_bytes(e) + nodes_bytes(e.children@) + end_tag_bytes(e)
    }
}

pub open spec fn node_bytes(n: Node) -> Seq<u8>
    decreases n,
{
    match n {
        Node::Element(e) => element_bytes(e),
        Node::Raw(b) => b@,
    }
}

/// The bytes a sequence of nodes is written as: each node's bytes, in order.
pub open spec fn nodes_bytes(ns: Seq<Node>) -> Seq<u8>
    decreases ns,
{
    if ns.len() == 0 {
        Seq::empty()
    } else {
        nodes_bytes(ns.drop_last()) + node_bytes(ns.last())
    }
}

pub proof fn lemma_nodes_bytes_push(ns: Seq<Node>, n: Node)
    ensures
        nodes_bytes(ns.push(n)) == nodes_bytes(ns) + node_bytes(n),
{
    assert(ns.push(n).drop_last() =~= ns);
}

pub proof fn lemma_nodes_bytes_concat(a: Seq<Node>, b: Seq<Node>)
    ensures
        nodes_bytes(a + b) == nodes_bytes(a) + nodes_bytes(b),
    decreases b.len(),
{
    if b.len() == 0 {
        assert(a + b =~= a);
    } else {
        lemma_nodes_bytes_concat(a, b.drop_last());
        assert((a + b).drop_last() =~= a + b.drop_last());
    }
}

// ─── Paths into the tree ────────────────────────────────────────────────────

/// Whether following the child indices `p` from `e` passes through elements
/// only.
pub open spec fn valid_path(e: Element, p: Seq<usize>) -> bool
    decreases p.len(),
{
    p.len() == 0 || (p[0] < e.children@.len() && e.children@[p[0] as int] is Element
        && valid_path(e.children@[p[0] as int]->Element_0, p.drop_first()))
}

/// The element reached from `e` by following the child indices `p`.
pub open spec fn at_path(e: Element, p: Seq<usize>) -> Element
    decreases p.len(),
{
    if p.len() == 0 {
        e
    } else {
        at_path(e.children@[p[0] as int]->Element_0, p.drop_first())
    }
}

/// Everything of an element but its children.
pub open spec fn same_tags(a: Element, b: Element) -> bool {
    &&& a.name == b.name
    &&& a.raw_start == b.raw_start
    &&& a.raw_end == b.raw_end
    &&& a.self_closing == b.self_closing
    &&& a.dirty == b.dirty
    &&& a.attrs == b.attrs
}

/// `new` is `old` with the element at path `p` replaced by `sub`, every other
/// node unchanged.
pub open spec fn replaced_at(old: Element, new: Element, p: Seq<usize>, sub: Element) -> bool
    decreases p.len(),
{
    if p.len() == 0 {
        new == sub
    } else {
        let i = p[0] as int;
        &&& same_tags(old, new)
        &&& new.children@.len() == old.children@.len()
        &&& forall|j: int| 0 <= j < old.children@.len() && j != i ==> new.children@[j] == old.children@[j]
        &&& new.children@[i] is Element
        &&& replaced_at(old.children@[i]->Element_0, new.children@[i]->Element_0, p.drop_first(), sub)
    }
}

/// Depth-first search (self excluded) for the first element named `local`.
pub open spec fn desc_path(e: Element, local: Seq<u8>) -> Option<Seq<usize>>
    decreases e, e.children@.len() + 1,
{
    desc_path_from(e, 0, local)
}

pub open spec fn desc_path_from(e: Element, i: int, local: Seq<u8>) -> Option<Seq<usize>>
    decreases e, e.children@.len() - i,
{
    if i < 0 || i >= e.children@.len() || i > usize::MAX {
        None
    } else {
        match e.children@[i] {
            Node::Element(c) => {
                if c.local() == local {
                    Some(seq![i as usize])
                } else {
                    match desc_path(c, local) {
                        Some(p) => Some(seq![i as usize] + p),
                        None => desc_path_from(e, i + 1, local),
                    }
                }
            },
            Node::Raw(_) => desc_path_from(e, i + 1, local),
        }
    }
}

/// The first descendant (depth-first, self excluded) named `local`.
pub open spec fn find_desc(e: Element, local: Seq<u8>) -> Option<Element> {
    match desc_path(e, local) {
        Some(p) => Some(at_path(e, p)),
        None => None,
    }
}

pub proof fn lemma_desc_path(e: Element, local: Seq<u8>)
    ensures
        desc_path(e, local) matches Some(p) ==> p.len() > 0 && valid_path(e, p)
            && at_path(e, p).local() == local,
    decreases e, e.children@.len() + 1,
{
    lemma_desc_path_from(e, 0, local);
}

pub proof fn lemma_desc_path_from(e: Element, i: int, local: Seq<u8>)
    ensures
        desc_path_from(e, i, local) matches Some(p) ==> p.len() > 0 && valid_path(e, p)
            && at_path(e, p).local() == local,
    decreases e, e.children@.len() - i,
{
    if 0 <= i < e.children@.len() && i <= usize::MAX {
        match e.children@[i] {
            Node::Element(c) => {
                if c.local() == local {
                    let p = seq![i as usize];
                    assert(p[0] as int == i);
                    assert(p.drop_first() =~= Seq::<usize>::empty());
                    assert(valid_path(c, p.drop_first()));
                    assert(at_path(c, p.drop_first()) == c);
                } else {
                    lemma_desc_path(c, local);
                    match desc_path(c, local) {
                        Some(q) => {
                            let p = seq![i as usize] + q;
                            assert(p[0] as int == i);
                            assert(p.drop_first() =~= q);
                        },
                        None => {
                            lemma_desc_path_from(e, i + 1, local);
                        },
                    }
                }
            },
            Node::Raw(_) => {
                lemma_desc_path_from(e, i + 1, local);
            },
        }
    }
}

/// A qualified name with any namespace prefix removed (`a:t` → `t`).
pub fn local_name_of(n: &[u8]) -> (r: &[u8])
    ensures
        r@ == local_of(n@),
{
    proof { lemma_index_of(n@, 58u8); }
    match find_byte(n, 58u8) {
        Some(i) => {
            assert(i < n.len());
            slice_of(n, i + 1, n.len())
        },
        None => n,
    }
}

// ─── Element API ────────────────────────────────────────────────────────────

impl Element {
    /// Local name with any namespace prefix stripped (`a:t` → `t`).
    pub fn local_name(&self) -> (r: &[u8])
        ensures
            r@ == self.local(),
    {
        local_name_of(self.name.as_slice())
    }

    /// Whether this element's local name is `local`.
    pub fn is_named(&self, local: &[u8]) -> (r: bool)
        ensures
            r == (self.local() == local@),
    {
        bytes_eq(self.local_name(), local)
    }

    /// Direct child elements with the given local name, in order.
    pub fn children_named<'a>(&'a self, local: &[u8]) -> (r: Vec<&'a Element>)
        ensures
            r@.len() == named_children(self.children@, local@).len(),
            forall|k: int| 0 <= k < r@.len() ==> *r@[k] == named_children(self.children@, local@)[k],
    {
        let mut out: Vec<&Element> = Vec::new();
        let mut i: usize = 0;
        while i < self.children.len()
            invariant
                i <= self.children@.len(),
                out@.len() == named_children(self.children@.take(i as int), local@).len(),
                forall|k: int| 0 <= k < out@.len() ==> *out@[k] == named_children(self.children@.take(i as int), local@)[k],
            decreases self.children@.len() - i,
        {
            proof {
                assert(self.children@.take(i + 1).drop_last() =~= self.children@.take(i as int));
            }
            match &self.children[i] {
                Node::Element(e) => {
                    if e.is_named(local) {
                        out.push(e);
                    }
                },
                Node::Raw(_) => {},
            }
            i = i + 1;
        }
        assert(self.children@.take(self.children@.len() as int) =~= self.children@);
        out
    }

    /// First descendant element (depth-first, self excluded) named `local`.
    pub fn find_descendant<'a>(&'a self, local: &[u8]) -> (r: Option<&'a Element>)
        ensures
            match r {
                Some(x) => find_desc(*self, local@) == Some(*x),
                None => find_desc(*self, local@) is None,
            },
        decreases *self,
    {
        let mut i: usize = 0;
        while i < self.children.len()
            invariant
                i <= self.children@.len(),
                desc_path(*self, local@) == desc_path_from(*self, i as int, local@),
            decreases self.children@.len() - i,
        {
            match &self.children[i] {
                Node::Element(c) => {
                    if c.is_named(local) {
                        proof {
                            let p = seq![i as usize];
                            assert(p[0] as int == i);
                            assert(p.drop_first() =~= Seq::<usize>::empty());
                            assert(desc_path(*self, local@) == Some(p));
                            assert(at_path(*self, p) == at_path(*c, p.drop_first()));
                        }
                        return Some(c);
                    }
                    match c.find_descendant(local) {
                        Some(f) => {
                            proof {
                                let q = desc_path(*c, local@)->Some_0;
                                let p = seq![i as usize] + q;
                                assert(p[0] as int == i);
                                assert(p.drop_first() =~= q);
                                assert(desc_path(*self, local@) == Some(p));
                                assert(at_path(*self, p) == at_path(*c, q));
                            }
                            return Some(f);
                        },
                        None => {},
                    }
                },
                Node::Raw(_) => {},
            }
            i = i + 1;
        }
        None
    }

    /// Path (child indices) of the first descendant named `local`.
    pub fn find_descendant_path(&self, local: &[u8]) -> (r: Option<Vec<usize>>)
        ensures
            match r {
                Some(p) => desc_path(*self, local@) == Some(p@),
                None => desc_path(*self, local@) is None,
            },
        decreases *self,
    {
        let mut i: usize = 0;
        while i < self.children.len()
            invariant
                i <= self.children@.len(),
                desc_path(*self, local@) == desc_path_from(*self, i as int, local@),
            decreases self.children@.len() - i,
        {
            match &self.children[i] {
                Node::Element(c) => {
                    if c.is_named(local) {
                        let mut p: Vec<usize> = Vec::new();
                        p.push(i);
                        return Some(p);
                    }
                    match c.find_descendant_path(local) {
                        Some(q) => {
                            let mut p: Vec<usize> = Vec::new();
                            p.push(i);
                            let ghost qv = q@;
                            let mut q = q;
                            p.append(&mut q);
                            assert(p@ =~= seq![i] + qv);
                            return Some(p);
                        },
                        None => {},
                    }
                },
                Node::Raw(_) => {},
            }
            i = i + 1;
        }
        None
    }

    /// Value of an attribute by its qualified name, if present (first match).
    pub fn attr<'a>(&'a self, name: &[u8]) -> (r: Option<&'a [u8]>)
        ensures
            match r {
                Some(v) => attr_index(self.attrs_v(), name@) >= 0
                    && v@ == self.attrs_v()[attr_index(self.attrs_v(), name@)].1,
                None => attr_index(self.attrs_v(), name@) < 0,
            },
    {
        let mut i: usize = 0;
        while i < self.attrs.len()
            invariant
                i <= self.attrs@.len(),
                attr_index(self.attrs_v(), name@) == attr_index_from(self.attrs_v(), i as int, name@),
            decreases self.attrs@.len() - i,
        {
            if bytes_eq(self.attrs[i].0.as_slice(), name) {
                return Some(self.attrs[i].1.as_slice());
            }
            i = i + 1;
        }
        None
    }

    /// Set (or add) an attribute, marking the start tag for regeneration.
    pub fn set_attr(&mut self, name: &[u8], value: &[u8])
        ensures
            final(self).attrs_v() == set_attr_spec(old(self).attrs_v(), name@, value@),
            final(self).dirty,
            final(self).name == old(self).name,
            final(self).raw_start == old(self).raw_start,
            final(self).raw_end == old(self).raw_end,
            final(self).self_closing == old(self).self_closing,
            final(self).children == old(self).children,
    {
        self.dirty = true;
        let mut i: usize = 0;
        while i < self.attrs.len()
            invariant
                i <= self.attrs@.len(),
                self.attrs == old(self).attrs,
                self.dirty,
                self.name == old(self).name,
                self.raw_start == old(self).raw_start,
                self.raw_end == old(self).raw_end,
                self.self_closing == old(self).self_closing,
                self.children == old(self).children,
                attr_index(self.attrs_v(), name@) == attr_index_from(self.attrs_v(), i as int, name@),
            decreases self.attrs@.len() - i,
        {
            if bytes_eq(self.attrs[i].0.as_slice(), name) {
                let k = to_vec(self.attrs[i].0.as_slice());
                let ghost before = self.attrs_v();
                self.attrs.set(i, (k, to_vec(value)));
                assert(self.attrs_v() =~= before.update(i as int, (name@, value@)));
                return;
            }
            i = i + 1;
        }
        let ghost before = self.attrs_v();
        self.attrs.push((to_vec(name), to_vec(value)));
        assert(self.attrs_v() =~= before.push((name@, value@)));
    }

    /// Remove every attribute whose name is one of `names`, marking the start
    /// tag for regeneration.
    pub fn remove_attrs(&mut self, names: &[&[u8]])
        ensures
            final(self).attrs_v() == remove_attrs_spec(old(self).attrs_v(), slice_views(names@)),
            final(self).dirty,
            final(self).name == old(self).name,
            final(self).raw_start == old(self).raw_start,
            final(self).raw_end == old(self).raw_end,
            final(self).self_closing == old(self).self_closing,
            final(self).children == old(self).children,
    {
        let ghost nv = slice_views(names@);
        let ghost old_v = self.attrs_v();
        let mut kept: Vec<(Vec<u8>, Vec<u8>)> = Vec::new();
        let mut i: usize = 0;
        while i < self.attrs.len()
            invariant
                i <= self.attrs@.len(),
                self.attrs == old(self).attrs,
                old_v == self.attrs_v(),
                nv == slice_views(names@),
                attrs_view(kept@) == remove_attrs_spec(old_v.take(i as int), nv),
            decreases self.attrs@.len() - i,
        {
            let hit = name_in(self.attrs[i].0.as_slice(), names);
            proof {
                assert(old_v.take(i + 1).drop_last() =~= old_v.take(i as int));
            }
            if !hit {
                let k = to_vec(self.attrs[i].0.as_slice());
                let v = to_vec(self.attrs[i].1.as_slice());
                let ghost before = attrs_view(kept@);
                kept.push((k, v));
                assert(attrs_view(kept@) =~= before.push(old_v[i as int]));
            }
            i = i + 1;
        }
        assert(old_v.take(old_v.len() as int) =~= old_v);
        self.attrs = kept;
        self.dirty = true;
    }

    /// Concatenated text of this element's immediate text children, with the
    /// predefined entities decoded.
    pub fn text_content(&self) -> (r: String)
        ensures
            r@ == raw_text(self.children@),
    {
        let mut s = String::new();
        let mut i: usize = 0;
        while i < self.children.len()
            invariant
                i <= self.children@.len(),
                s@ == raw_text(self.children@.take(i as int)),
            decreases self.children@.len() - i,
        {
            proof {
                assert(self.children@.take(i + 1).drop_last() =~= self.children@.take(i as int));
            }
            match &self.children[i] {
                Node::Raw(b) => {
                    let t = unescape(b.as_slice());
                    s.append(t.as_str());
                },
                Node::Element(_) => {},
            }
            i = i + 1;
        }
        assert(self.children@.take(self.children@.len() as int) =~= self.children@);
        s
    }

    /// Replace the content with a single escaped text node, keeping the tags.
    /// A self-closing element becomes an open/close pair.
    pub fn set_text_content(&mut self, text: &str)
        ensures
            final(self).children@.len() == 1,
            final(self).children@[0] is Raw,
            final(self).children@[0]->Raw_0@ == encode_utf8(escape_chars(text@)),
            final(self).name == old(self).name,
            final(self).raw_start == old(self).raw_start,
            final(self).raw_end == old(self).raw_end,
            final(self).attrs == old(self).attrs,
            !final(self).self_closing,
            final(self).dirty == (old(self).dirty || old(self).self_closing),
    {
        let escaped = escape(text);
        let b = to_vec(escaped.as_str().as_bytes());
        let mut ch: Vec<Node> = Vec::new();
        ch.push(Node::Raw(b));
        self.children = ch;
        if self.self_closing {
            self.self_closing = false;
            self.dirty = true;
        }
    }

    // ─── DOM mutation toolkit ───────────────────────────────────────────

    /// Insert a child node at `index`, appending when `index` is past the end.
    /// A self-closing element becomes an open/close pair.
    pub fn insert_child_at(&mut self, index: usize, node: Node)
        ensures
            final(self).children@ == (if index >= old(self).children@.len() {
                old(self).children@.push(node)
            } else {
                old(self).children@.insert(index as int, node)
            }),
            final(self).name == old(self).name,
            final(self).raw_start == old(self).raw_start,
            final(self).raw_end == old(self).raw_end,
            final(self).attrs == old(self).attrs,
            !final(self).self_closing,
            final(self).dirty == (old(self).dirty || old(self).self_closing),
    {
        if self.self_closing {
            self.self_closing = false;
            self.dirty = true;
        }
        let len = self.children.len();
        if index >= len {
            self.children.push(node);
        } else {
            self.children.insert(index, node);
        }
    }

    /// Replace the child at `index` with `node`, returning the old child.
    pub fn replace_child(&mut self, index: usize, node: Node) -> (r: Node)
        requires
            index < old(self).children@.len(),
        ensures
            r == old(self).children@[index as int],
            final(self).children@ == old(self).children@.update(index as int, node),
            same_tags(*old(self), *final(self)),
    {
        let old_node = self.children.remove(index);
        self.children.insert(index, node);
        old_node
    }

    /// Insert a child in schema-valid order for this element's local name:
    /// after the last existing child element whose rank is not above the new
    /// child's. Non-element nodes, and children of elements without an order
    /// table, are appended. A self-closing element becomes an open/close pair.
    pub fn insert_child_ordered(&mut self, node: Node)
        ensures
            final(self).children@ == old(self).children@.insert(
                ordered_position(old(self).local(), old(self).children@, node),
                node,
            ),
            final(self).name == old(self).name,
            final(self).raw_start == old(self).raw_start,
            final(self).raw_end == old(self).raw_end,
            final(self).attrs == old(self).attrs,
            !final(self).self_closing,
            final(self).dirty == (old(self).dirty || old(self).self_closing),
    {
        if self.self_closing {
            self.self_closing = false;
            self.dirty = true;
        }
        let len = self.children.len();
        let child_rank: usize = match &node {
            Node::Element(e) => {
                match child_order_table(self.local_name()) {
                    Some(table) => rank_of(e.local_name(), &table),
                    None => {
                        self.children.push(node);
                        proof { assert(old(self).children@.insert(len as int, node) =~= old(self).children@.push(node)); }
                        return;
                    },
                }
            },
            Node::Raw(_) => {
                self.children.push(node);
                proof { assert(old(self).children@.insert(len as int, node) =~= old(self).children@.push(node)); }
                return;
            },
        };
        let table = match child_order_table(self.local_name()) {
            Some(t) => t,
            None => {
                self.children.push(node);
                return;
            },
        };
        let mut insert_pos: usize = 0;
        let mut i: usize = 0;
        while i < self.children.len()
            invariant
                i <= self.children@.len(),
                self.children@ == old(self).children@,
                insert_pos == last_le(self.children@.take(i as int), table_view(table@), child_rank as int),
                child_rank == rank_in(node->Element_0.local(), table_view(table@)),
                node is Element,
                order_table(old(self).local()) == Some(table_view(table@)),
            decreases self.children@.len() - i,
        {
            proof {
                assert(self.children@.take(i + 1).drop_last() =~= self.children@.take(i as int));
            }
            match &self.children[i] {
                Node::Element(e) => {
                    let r = rank_of(e.local_name(), &table);
                    if r <= child_rank {
                        insert_pos = i + 1;
                    }
                },
                Node::Raw(_) => {},
            }
            i = i + 1;
        }
        assert(self.children@.take(self.children@.len() as int) =~= self.children@);
        proof { lemma_last_le_bound(self.children@, table_view(table@), child_rank as int); }
        self.children.insert(insert_pos, node);
    }

    /// Serialize this element into `out`.
    pub fn write(&self, out: &mut Vec<u8>)
        ensures
            final(out)@ == old(out)@ + element_bytes(*self),
        decreases *self,
    {
        let ghost start = out@;
        if self.dirty {
            out.push(60u8);
            extend(out, self.name.as_slice());
            let mut i: usize = 0;
            while i < self.attrs.len()
                invariant
                    i <= self.attrs@.len(),
                    out@ == start + /* < */ seq![60u8] + self.name@ + attrs_bytes(self.attrs_v().take(i as int)),
                decreases self.attrs@.len() - i,
            {
                let ghost before = out@;
                out.push(32u8);
                extend(out, self.attrs[i].0.as_slice());
                out.push(61u8);
                out.push(34u8);
                extend(out, self.attrs[i].1.as_slice());
                out.push(34u8);
                proof {
                    assert(self.attrs_v().take(i + 1).drop_last() =~= self.attrs_v().take(i as int));
                    assert(out@ =~= before + attr_bytes(self.attrs_v()[i as int].0, self.attrs_v()[i as int].1));
                }
                i = i + 1;
            }
            assert(self.attrs_v().take(self.attrs@.len() as int) =~= self.attrs_v());
            if self.self_closing {
                out.push(47u8);
                out.push(62u8);
                assert(out@ =~= start + element_bytes(*self));
                return;
            }
            out.push(62u8);
        } else {
            extend(out, self.raw_start.as_slice());
            if self.self_closing {
                return;
            }
        }
        let ghost mid = out@;
        assert(mid =~= start + start_tag_bytes(*self));
        write_nodes(&self.children, out);
        if self.dirty {
            out.push(60u8);
            out.push(47u8);
            extend(out, self.name.as_slice());
            out.push(62u8);
        } else {
            extend(out, self.raw_end.as_slice());
        }
        assert(out@ =~= start + element_bytes(*self));
    }
}

/// Serialize a sequence of nodes into `out`.
fn write_nodes(nodes: &Vec<Node>, out: &mut Vec<u8>)
    ensures
        final(out)@ == old(out)@ + nodes_bytes(nodes@),
    decreases *nodes,
{
    let ghost start = out@;
    let mut i: usize = 0;
    while i < nodes.len()
        invariant
            i <= nodes@.len(),
            out@ == start + nodes_bytes(nodes@.take(i as int)),
        decreases nodes@.len() - i,
    {
        proof {
            assert(nodes@.take(i + 1).drop_last() =~= nodes@.take(i as int));
        }
        match &nodes[i] {
            Node::Element(e) => {
                e.write(out);
                assert(node_bytes(nodes@[i as int]) == element_bytes(*e));
            },
            Node::Raw(b) => {
                extend(out, b.as_slice());
                assert(node_bytes(nodes@[i as int]) == b@);
            },
        }
        assert(nodes@.take(i + 1).last() == nodes@[i as int]);
        assert(nodes_bytes(nodes@.take(i + 1)) == nodes_bytes(nodes@.take(i as int)) + node_bytes(nodes@[i as int]));
        assert(out@ =~= start + nodes_bytes(nodes@.take(i + 1)));
        i = i + 1;
    }
    assert(nodes@.take(nodes@.len() as int) =~= nodes@);
}

// ─── Specifications of the element API ──────────────────────────────────────

/// The child elements named `local`, in order.
pub open spec fn named_children(ns: Seq<Node>, local: Seq<u8>) -> Seq<Element>
    decreases ns.len(),
{
    if ns.len() == 0 {
        Seq::empty()
    } else {
        let rest = named_children(ns.drop_last(), local);
        if is_named(ns.last(), local) {
            rest.push(ns.last()->Element_0)
        } else {
            rest
        }
    }
}

/// Index of the first attribute named `name`, or -1.
pub open spec fn attr_index(a: Seq<(Seq<u8>, Seq<u8>)>, name: Seq<u8>) -> int {
    attr_index_from(a, 0, name)
}

pub open spec fn attr_index_from(a: Seq<(Seq<u8>, Seq<u8>)>, i: int, name: Seq<u8>) -> int
    decreases a.len() - i,
{
    if i < 0 || i >= a.len() {
        -1
    } else if a[i].0 == name {
        i
    } else {
        attr_index_from(a, i + 1, name)
    }
}

/// The value of the first attribute named `name`.
pub open spec fn attr_value(e: Element, name: Seq<u8>) -> Option<Seq<u8>> {
    let i = attr_index(e.attrs_v(), name);
    if i < 0 {
        None
    } else {
        Some(e.attrs_v()[i].1)
    }
}

/// Attributes after setting `name` to `value`: the first attribute of that
/// name takes the value, or the pair is appended.
pub open spec fn set_attr_spec(a: Seq<(Seq<u8>, Seq<u8>)>, name: Seq<u8>, value: Seq<u8>) -> Seq<
    (Seq<u8>, Seq<u8>),
> {
    let i = attr_index(a, name);
    if i < 0 {
        a.push((name, value))
    } else {
        a.update(i, (name, value))
    }
}

/// Attributes without those whose name is in `names`.
pub open spec fn remove_attrs_spec(a: Seq<(Seq<u8>, Seq<u8>)>, names: Seq<Seq<u8>>) -> Seq<
    (Seq<u8>, Seq<u8>),
>
    decreases a.len(),
{
    if a.len() == 0 {
        a
    } else {
        let rest = remove_attrs_spec(a.drop_last(), names);
        if names.contains(a.last().0) {
            rest
        } else {
            rest.push(a.last())
        }
    }
}

/// The byte strings a list of slices holds.
pub open spec fn slice_views(s: Seq<&[u8]>) -> Seq<Seq<u8>> {
    Seq::new(s.len(), |i: int| s[i]@)
}

/// Whether `name` is one of `names`.
pub fn name_in(name: &[u8], names: &[&[u8]]) -> (r: bool)
    ensures
        r == slice_views(names@).contains(name@),
{
    let ghost nv = slice_views(names@);
    let mut i: usize = 0;
    while i < names.len()
        invariant
            i <= names@.len(),
            nv == slice_views(names@),
            forall|j: int| 0 <= j < i ==> nv[j] != name@,
        decreases names@.len() - i,
    {
        if bytes_eq(names[i], name) {
            assert(nv[i as int] == name@);
            return true;
        }
        i = i + 1;
    }
    false
}


// ─── Text escaping ──────────────────────────────────────────────────────────

/// How one character is written in escaped text.
pub open spec fn escape_char(c: char) -> Seq<char> {
    if c == '&' {
        seq!['&', 'a', 'm', 'p', ';']
    } else if c == '<' {
        seq!['&', 'l', 't', ';']
    } else if c == '>' {
        seq!['&', 'g', 't', ';']
    } else if c == '"' {
        seq!['&', 'q', 'u', 'o', 't', ';']
    } else if c == '\'' {
        seq!['&', 'a', 'p', 'o', 's', ';']
    } else {
        seq![c]
    }
}

/// Text with the five predefined entities escaped.
pub open spec fn escape_chars(s: Seq<char>) -> Seq<char>
    decreases s.len(),
{
    if s.len() == 0 {
        s
    } else {
        escape_chars(s.drop_last()) + escape_char(s.last())
    }
}

/// Text with the predefined entities decoded, left to right.
pub open spec fn unescape_chars(s: Seq<char>) -> Seq<char>
    decreases s.len(),
{
    if s.len() == 0 {
        s
    } else if s.len() >= 4 && s.take(4) == seq!['&', 'l', 't', ';'] {
        seq!['<'] + unescape_chars(s.skip(4))
    } else if s.len() >= 4 && s.take(4) == seq!['&', 'g', 't', ';'] {
        seq!['>'] + unescape_chars(s.skip(4))
    } else if s.len() >= 6 && s.take(6) == seq!['&', 'q', 'u', 'o', 't', ';'] {
        seq!['"'] + unescape_chars(s.skip(6))
    } else if s.len() >= 6 && s.take(6) == seq!['&', 'a', 'p', 'o', 's', ';'] {
        seq!['\''] + unescape_chars(s.skip(6))
    } else if s.len() >= 5 && s.take(5) == seq!['&', 'a', 'm', 'p', ';'] {
        seq!['&'] + unescape_chars(s.skip(5))
    } else {
        seq![s[0]] + unescape_chars(s.drop_first())
    }
}

/// The decoded text of the raw (non-element) nodes, concatenated.
pub open spec fn raw_text(ns: Seq<Node>) -> Seq<char>
    decreases ns.len(),
{
    if ns.len() == 0 {
        Seq::empty()
    } else {
        raw_text(ns.drop_last()) + match ns.last() {
            Node::Raw(b) => unescape_chars(lossy_decode(b@)),
            Node::Element(_) => Seq::empty(),
        }
    }
}

/// Escape text for element content or attribute values (the five
/// predefined entities).
pub fn escape_public(s: &str) -> (r: String)
    ensures
        r@ == escape_chars(s@),
{
    escape(s)
}

fn push_escaped(out: &mut String, c: char)
    ensures
        final(out)@ == old(out)@ + escape_char(c),
{
    let ghost start = out@;
    if c == '&' {
        out.push('&'); out.push('a'); out.push('m'); out.push('p'); out.push(';');
    } else if c == '<' {
        out.push('&'); out.push('l'); out.push('t'); out.push(';');
    } else if c == '>' {
        out.push('&'); out.push('g'); out.push('t'); out.push(';');
    } else if c == '"' {
        out.push('&'); out.push('q'); out.push('u'); out.push('o'); out.push('t'); out.push(';');
    } else if c == '\'' {
        out.push('&'); out.push('a'); out.push('p'); out.push('o'); out.push('s'); out.push(';');
    } else {
        out.push(c);
    }
    assert(out@ =~= start + escape_char(c));
}

/// XML-escape text (the five predefined entities).
fn escape(s: &str) -> (r: String)
    ensures
        r@ == escape_chars(s@),
{
    let cs = chars_of(s);
    let mut out = String::new();
    let mut i: usize = 0;
    while i < cs.len()
        invariant
            i <= cs@.len(),
            cs@ == s@,
            out@ == escape_chars(cs@.take(i as int)),
        decreases cs@.len() - i,
    {
        proof {
            assert(cs@.take(i + 1).drop_last() =~= cs@.take(i as int));
        }
        push_escaped(&mut out, cs[i]);
        i = i + 1;
    }
    assert(cs@.take(cs@.len() as int) =~= cs@);
    out
}

/// How one character is written in an attribute value of authored markup:
/// `&`, `"` and `<` as entities, anything else as itself.
pub open spec fn attr_escape_char(c: char) -> Seq<char> {
    if c == '&' {
        seq!['&', 'a', 'm', 'p', ';']
    } else if c == '"' {
        seq!['&', 'q', 'u', 'o', 't', ';']
    } else if c == '<' {
        seq!['&', 'l', 't', ';']
    } else {
        seq![c]
    }
}

/// An attribute value with `&`, `"` and `<` escaped.
pub open spec fn attr_escape_chars(s: Seq<char>) -> Seq<char>
    decreases s.len(),
{
    if s.len() == 0 {
        s
    } else {
        attr_escape_chars(s.drop_last()) + attr_escape_char(s.last())
    }
}

/// Escape an attribute value: `&`, `"` and `<` become entities.
pub fn escape_attr(s: &str) -> (r: String)
    ensures
        r@ == attr_escape_chars(s@),
{
    let cs = chars_of(s);
    let mut out = String::new();
    let mut i: usize = 0;
    while i < cs.len()
        invariant
            i <= cs@.len(),
            cs@ == s@,
            out@ == attr_escape_chars(cs@.take(i as int)),
        decreases cs@.len() - i,
    {
        proof {
            assert(cs@.take(i + 1).drop_last() =~= cs@.take(i as int));
        }
        let c = cs[i];
        let ghost start = out@;
        if c == '&' {
            out.push('&'); out.push('a'); out.push('m'); out.push('p'); out.push(';');
        } else if c == '"' {
            out.push('&'); out.push('q'); out.push('u'); out.push('o'); out.push('t'); out.push(';');
        } else if c == '<' {
            out.push('&'); out.push('l'); out.push('t'); out.push(';');
        } else {
            out.push(c);
        }
        assert(out@ =~= start + attr_escape_char(c));
        i = i + 1;
    }
    assert(cs@.take(cs@.len() as int) =~= cs@);
    out
}

/// Whether `cs[i..]` starts with `pat`.
fn starts_at(cs: &Vec<char>, i: usize, pat: &[char]) -> (r: bool)
    requires
        i <= cs@.len(),
    ensures
        r == (cs@.len() - i >= pat@.len() && cs@.skip(i as int).take(pat@.len() as int) == pat@),
{
    let n = cs.len();
    if n - i < pat.len() {
        return false;
    }
    let mut k: usize = 0;
    while k < pat.len()
        invariant
            k <= pat@.len(),
            n == cs@.len(),
            i + pat@.len() <= n,
            forall|j: int| 0 <= j < k ==> cs@[i + j] == pat@[j],
        decreases pat@.len() - k,
    {
        assert(i + k < n);
        if cs[i + k] != pat[k] {
            assert(cs@.skip(i as int).take(pat@.len() as int)[k as int] != pat@[k as int]);
            return false;
        }
        k = k + 1;
    }
    assert(cs@.skip(i as int).take(pat@.len() as int) =~= pat@);
    true
}

/// Decode the predefined entities of raw text bytes (read as UTF-8, invalid
/// sequences replaced).
fn unescape(b: &[u8]) -> (r: String)
    ensures
        r@ == unescape_chars(lossy_decode(b@)),
{
    let s = from_utf8_lossy(b);
    let cs = chars_of(s.as_str());
    let ghost all = cs@;
    let mut out = String::new();
    let mut i: usize = 0;
    let lt: [char; 4] = ['&', 'l', 't', ';'];
    let gt: [char; 4] = ['&', 'g', 't', ';'];
    let quot: [char; 6] = ['&', 'q', 'u', 'o', 't', ';'];
    let apos: [char; 6] = ['&', 'a', 'p', 'o', 's', ';'];
    let amp: [char; 5] = ['&', 'a', 'm', 'p', ';'];
    assert(lt@ =~= seq!['&', 'l', 't', ';']);
    assert(gt@ =~= seq!['&', 'g', 't', ';']);
    assert(quot@ =~= seq!['&', 'q', 'u', 'o', 't', ';']);
    assert(apos@ =~= seq!['&', 'a', 'p', 'o', 's', ';']);
    assert(amp@ =~= seq!['&', 'a', 'm', 'p', ';']);
    assert(all.skip(0) =~= all);
    assert(out@ + unescape_chars(all) =~= unescape_chars(all));
    while i < cs.len()
        invariant
            i <= cs@.len(),
            all == cs@,
            all == lossy_decode(b@),
            lt@ == seq!['&', 'l', 't', ';'],
            gt@ == seq!['&', 'g', 't', ';'],
            quot@ == seq!['&', 'q', 'u', 'o', 't', ';'],
            apos@ == seq!['&', 'a', 'p', 'o', 's', ';'],
            amp@ == seq!['&', 'a', 'm', 'p', ';'],
            out@ + unescape_chars(all.skip(i as int)) == unescape_chars(all),
        decreases cs@.len() - i,
    {
        let ghost rest = all.skip(i as int);
        if starts_at(&cs, i, &lt) {
            out.push('<');
            assert(rest.skip(4) =~= all.skip(i + 4));
            i = i + 4;
        } else if starts_at(&cs, i, &gt) {
            out.push('>');
            assert(rest.skip(4) =~= all.skip(i + 4));
            i = i + 4;
        } else if starts_at(&cs, i, &quot) {
            out.push('"');
            assert(rest.skip(6) =~= all.skip(i + 6));
            i = i + 6;
        } else if starts_at(&cs, i, &apos) {
            out.push('\'');
            assert(rest.skip(6) =~= all.skip(i + 6));
            i = i + 6;
        } else if starts_at(&cs, i, &amp) {
            out.push('&');
            assert(rest.skip(5) =~= all.skip(i + 5));
            i = i + 5;
        } else {
            out.push(cs[i]);
            assert(rest.drop_first() =~= all.skip(i + 1));
            i = i + 1;
        }
    }
    assert(all.skip(all.len() as int) =~= Seq::<char>::empty());
    out
}

pub proof fn lemma_escape_concat(a: Seq<char>, b: Seq<char>)
    ensures
        escape_chars(a + b) == escape_chars(a) + escape_chars(b),
    decreases b.len(),
{
    if b.len() == 0 {
        assert(a + b =~= a);
        assert(escape_chars(a) + escape_chars(b) =~= escape_chars(a));
    } else {
        lemma_escape_concat(a, b.drop_last());
        assert((a + b).drop_last() =~= a + b.drop_last());
    }
}

/// Decoding what escaping wrote gives the text back.
pub proof fn lemma_unescape_escape(s: Seq<char>)
    ensures
        unescape_chars(escape_chars(s)) == s,
    decreases s.len(),
{
    if s.len() > 0 {
        let c = s[0];
        let t = s.drop_first();
        assert(s =~= seq![c] + t);
        lemma_escape_concat(seq![c], t);
        assert(seq![c].drop_last() =~= Seq::<char>::empty());
        reveal_with_fuel(escape_chars, 2);
        assert(escape_chars(seq![c]) =~= escape_char(c));
        lemma_unescape_escape(t);
        let e = escape_char(c) + escape_chars(t);
        if c == '&' {
            assert(e.take(5) =~= seq!['&', 'a', 'm', 'p', ';']);
            assert(e.take(4) != seq!['&', 'l', 't', ';']);
            assert(e.take(4) != seq!['&', 'g', 't', ';']);
            assert(e.len() < 6 || e.take(6) != seq!['&', 'q', 'u', 'o', 't', ';']);
            assert(e.len() < 6 || e.take(6) != seq!['&', 'a', 'p', 'o', 's', ';']);
            assert(e.skip(5) =~= escape_chars(t));
        } else if c == '<' {
            assert(e.take(4) =~= seq!['&', 'l', 't', ';']);
            assert(e.skip(4) =~= escape_chars(t));
        } else if c == '>' {
            assert(e.take(4) =~= seq!['&', 'g', 't', ';']);
            assert(e.take(4) != seq!['&', 'l', 't', ';']);
            assert(e.skip(4) =~= escape_chars(t));
        } else if c == '"' {
            assert(e.take(6) =~= seq!['&', 'q', 'u', 'o', 't', ';']);
            assert(e.take(4) != seq!['&', 'l', 't', ';']);
            assert(e.take(4) != seq!['&', 'g', 't', ';']);
            assert(e.skip(6) =~= escape_chars(t));
        } else if c == '\'' {
            assert(e.take(6) =~= seq!['&', 'a', 'p', 'o', 's', ';']);
            assert(e.take(4) != seq!['&', 'l', 't', ';']);
            assert(e.take(4) != seq!['&', 'g', 't', ';']);
            assert(e.take(6) != seq!['&', 'q', 'u', 'o', 't', ';']);
            assert(e.skip(6) =~= escape_chars(t));
        } else {
            assert(e[0] == c);
            assert(e.len() < 4 || e.take(4)[0] != '&');
            assert(e.len() < 5 || e.take(5)[0] != '&');
            assert(e.len() < 6 || e.take(6)[0] != '&');
            assert(e.drop_first() =~= escape_chars(t));
        }
    }
}

// ─── Child-order tables (schema-valid ordering) ─────────────────────────────

/// Child order for `rPr` (text character properties).
pub open spec fn rpr_order() -> Seq<Seq<u8>> {
    seq![/* ln */ seq![108u8, 110u8], /* noFill */ seq![110u8, 111u8, 70u8, 105u8, 108u8, 108u8], /* solidFill */ seq![115u8, 111u8, 108u8, 105u8, 100u8, 70u8, 105u8, 108u8, 108u8], /* gradFill */ seq![103u8, 114u8, 97u8, 100u8, 70u8, 105u8, 108u8, 108u8], /* blipFill */ seq![98u8, 108u8, 105u8, 112u8, 70u8, 105u8, 108u8, 108u8], /* pattFill */ seq![112u8, 97u8, 116u8, 116u8, 70u8, 105u8, 108u8, 108u8], /* grpFill */ seq![103u8, 114u8, 112u8, 70u8, 105u8, 108u8, 108u8],
        /* effectLst */ seq![101u8, 102u8, 102u8, 101u8, 99u8, 116u8, 76u8, 115u8, 116u8], /* effectDag */ seq![101u8, 102u8, 102u8, 101u8, 99u8, 116u8, 68u8, 97u8, 103u8], /* highlight */ seq![104u8, 105u8, 103u8, 104u8, 108u8, 105u8, 103u8, 104u8, 116u8], /* uLnTx */ seq![117u8, 76u8, 110u8, 84u8, 120u8], /* uLn */ seq![117u8, 76u8, 110u8], /* uFillTx */ seq![117u8, 70u8, 105u8, 108u8, 108u8, 84u8, 120u8], /* uFill */ seq![117u8, 70u8, 105u8, 108u8, 108u8],
        /* latin */ seq![108u8, 97u8, 116u8, 105u8, 110u8], /* ea */ seq![101u8, 97u8], /* cs */ seq![99u8, 115u8], /* sym */ seq![115u8, 121u8, 109u8], /* hlinkClick */ seq![104u8, 108u8, 105u8, 110u8, 107u8, 67u8, 108u8, 105u8, 99u8, 107u8], /* hlinkMouseOver */ seq![104u8, 108u8, 105u8, 110u8, 107u8, 77u8, 111u8, 117u8, 115u8, 101u8, 79u8, 118u8, 101u8, 114u8], /* rtl */ seq![114u8, 116u8, 108u8], /* extLst */ seq![101u8, 120u8, 116u8, 76u8, 115u8, 116u8]]
}

/// Child order for `pPr` (text paragraph properties).
pub open spec fn ppr_order() -> Seq<Seq<u8>> {
    seq![/* lnSpc */ seq![108u8, 110u8, 83u8, 112u8, 99u8], /* spcBef */ seq![115u8, 112u8, 99u8, 66u8, 101u8, 102u8], /* spcAft */ seq![115u8, 112u8, 99u8, 65u8, 102u8, 116u8], /* buClrTx */ seq![98u8, 117u8, 67u8, 108u8, 114u8, 84u8, 120u8], /* buClr */ seq![98u8, 117u8, 67u8, 108u8, 114u8], /* buSzTx */ seq![98u8, 117u8, 83u8, 122u8, 84u8, 120u8], /* buSzPct */ seq![98u8, 117u8, 83u8, 122u8, 80u8, 99u8, 116u8],
        /* buSzPts */ seq![98u8, 117u8, 83u8, 122u8, 80u8, 116u8, 115u8], /* buFontTx */ seq![98u8, 117u8, 70u8, 111u8, 110u8, 116u8, 84u8, 120u8], /* buFont */ seq![98u8, 117u8, 70u8, 111u8, 110u8, 116u8], /* buNone */ seq![98u8, 117u8, 78u8, 111u8, 110u8, 101u8], /* buAutoNum */ seq![98u8, 117u8, 65u8, 117u8, 116u8, 111u8, 78u8, 117u8, 109u8], /* buChar */ seq![98u8, 117u8, 67u8, 104u8, 97u8, 114u8], /* buBlip */ seq![98u8, 117u8, 66u8, 108u8, 105u8, 112u8],
        /* tabLst */ seq![116u8, 97u8, 98u8, 76u8, 115u8, 116u8], /* defRPr */ seq![100u8, 101u8, 102u8, 82u8, 80u8, 114u8], /* extLst */ seq![101u8, 120u8, 116u8, 76u8, 115u8, 116u8]]
}

/// Child order for `spPr` (shape properties).
pub open spec fn sppr_order() -> Seq<Seq<u8>> {
    seq![/* xfrm */ seq![120u8, 102u8, 114u8, 109u8], /* custGeom */ seq![99u8, 117u8, 115u8, 116u8, 71u8, 101u8, 111u8, 109u8], /* prstGeom */ seq![112u8, 114u8, 115u8, 116u8, 71u8, 101u8, 111u8, 109u8], /* noFill */ seq![110u8, 111u8, 70u8, 105u8, 108u8, 108u8], /* solidFill */ seq![115u8, 111u8, 108u8, 105u8, 100u8, 70u8, 105u8, 108u8, 108u8], /* gradFill */ seq![103u8, 114u8, 97u8, 100u8, 70u8, 105u8, 108u8, 108u8], /* blipFill */ seq![98u8, 108u8, 105u8, 112u8, 70u8, 105u8, 108u8, 108u8],
        /* pattFill */ seq![112u8, 97u8, 116u8, 116u8, 70u8, 105u8, 108u8, 108u8], /* grpFill */ seq![103u8, 114u8, 112u8, 70u8, 105u8, 108u8, 108u8], /* ln */ seq![108u8, 110u8], /* effectLst */ seq![101u8, 102u8, 102u8, 101u8, 99u8, 116u8, 76u8, 115u8, 116u8], /* effectDag */ seq![101u8, 102u8, 102u8, 101u8, 99u8, 116u8, 68u8, 97u8, 103u8], /* scene3d */ seq![115u8, 99u8, 101u8, 110u8, 101u8, 51u8, 100u8], /* sp3d */ seq![115u8, 112u8, 51u8, 100u8],
        /* extLst */ seq![101u8, 120u8, 116u8, 76u8, 115u8, 116u8]]
}

/// Child order for `txBody` (text body).
pub open spec fn txbody_order() -> Seq<Seq<u8>> {
    seq![/* bodyPr */ seq![98u8, 111u8, 100u8, 121u8, 80u8, 114u8], /* lstStyle */ seq![108u8, 115u8, 116u8, 83u8, 116u8, 121u8, 108u8, 101u8], /* p */ seq![112u8]]
}

/// The child-order table for a parent's local name, if it has one.
pub open spec fn order_table(parent_local: Seq<u8>) -> Option<Seq<Seq<u8>>> {
    if parent_local == /* rPr */ seq![114u8, 80u8, 114u8] {
        Some(rpr_order())
    } else if parent_local == /* pPr */ seq![112u8, 80u8, 114u8] {
        Some(ppr_order())
    } else if parent_local == /* spPr */ seq![115u8, 112u8, 80u8, 114u8] {
        Some(sppr_order())
    } else if parent_local == /* txBody */ seq![116u8, 120u8, 66u8, 111u8, 100u8, 121u8] {
        Some(txbody_order())
    } else {
        None
    }
}

pub open spec fn table_view(t: Seq<Vec<u8>>) -> Seq<Seq<u8>> {
    t.map_values(|v: Vec<u8>| v@)
}

/// Position of `local` in `table`, or the table's length for unknown names.
pub open spec fn rank_in(local: Seq<u8>, table: Seq<Seq<u8>>) -> int
    decreases table.len(),
{
    if table.len() == 0 {
        0
    } else if rank_in(local, table.drop_last()) < table.len() - 1 {
        rank_in(local, table.drop_last())
    } else if table.last() == local {
        table.len() - 1
    } else {
        table.len() as int
    }
}

/// The position just after the last element child whose rank is at most
/// `rank`, or 0.
pub open spec fn last_le(ns: Seq<Node>, table: Seq<Seq<u8>>, rank: int) -> int
    decreases ns.len(),
{
    if ns.len() == 0 {
        0
    } else if ns.last() is Element && rank_in(ns.last()->Element_0.local(), table) <= rank {
        ns.len() as int
    } else {
        last_le(ns.drop_last(), table, rank)
    }
}

pub proof fn lemma_last_le_bound(ns: Seq<Node>, table: Seq<Seq<u8>>, rank: int)
    ensures
        0 <= last_le(ns, table, rank) <= ns.len(),
    decreases ns.len(),
{
    if ns.len() > 0 {
        lemma_last_le_bound(ns.drop_last(), table, rank);
    }
}

/// Whether the element children among `ns` come in rank order (by `table`).
pub open spec fn rank_sorted(ns: Seq<Node>, table: Seq<Seq<u8>>) -> bool {
    forall|i: int, j: int|
        0 <= i < j < ns.len() && #[trigger] ns[i] is Element && #[trigger] ns[j] is Element ==> rank_in(
            ns[i]->Element_0.local(),
            table,
        ) <= rank_in(ns[j]->Element_0.local(), table)
}

proof fn lemma_last_le_split(ns: Seq<Node>, table: Seq<Seq<u8>>, rank: int)
    ensures
        forall|j: int|
            last_le(ns, table, rank) <= j < ns.len() && #[trigger] ns[j] is Element ==> rank_in(
                ns[j]->Element_0.local(),
                table,
            ) > rank,
        last_le(ns, table, rank) > 0 ==> ns[last_le(ns, table, rank) - 1] is Element && rank_in(
            ns[last_le(ns, table, rank) - 1]->Element_0.local(),
            table,
        ) <= rank,
    decreases ns.len(),
{
    lemma_last_le_bound(ns, table, rank);
    if ns.len() > 0 {
        lemma_last_le_split(ns.drop_last(), table, rank);
        lemma_last_le_bound(ns.drop_last(), table, rank);
        assert forall|j: int| 0 <= j < ns.len() - 1 implies ns.drop_last()[j] == ns[j] by {}
    }
}

/// `insert_child_ordered` keeps element children in schema order: under a
/// parent with an order table, children already in rank order stay in rank
/// order once an element is inserted where `insert_child_ordered` puts it
/// (after every child ranked no higher, before every child ranked higher).
pub proof fn lemma_ordered_insert_keeps_rank_order(parent_local: Seq<u8>, ns: Seq<Node>, e: Element)
    requires
        order_table(parent_local) is Some,
        rank_sorted(ns, order_table(parent_local).unwrap()),
    ensures
        rank_sorted(
            ns.insert(ordered_position(parent_local, ns, Node::Element(e)), Node::Element(e)),
            order_table(parent_local).unwrap(),
        ),
{
    let table = order_table(parent_local).unwrap();
    let r = rank_in(e.local(), table);
    let pos = last_le(ns, table, r);
    lemma_last_le_bound(ns, table, r);
    lemma_last_le_split(ns, table, r);
    let m = ns.insert(pos, Node::Element(e));
    assert forall|i: int, j: int|
        0 <= i < j < m.len() && #[trigger] m[i] is Element && #[trigger] m[j] is Element implies rank_in(
            m[i]->Element_0.local(),
            table,
        ) <= rank_in(m[j]->Element_0.local(), table) by {
        if i < pos && j < pos {
            assert(m[i] == ns[i] && m[j] == ns[j]);
        } else if i < pos && j == pos {
            assert(m[i] == ns[i]);
            if i < pos - 1 {
                assert(ns[i] is Element && ns[pos - 1] is Element);
            }
        } else if i < pos && j > pos {
            assert(m[i] == ns[i] && m[j] == ns[j - 1]);
            assert(ns[j - 1] is Element);
        } else if i == pos {
            assert(m[j] == ns[j - 1]);
            assert(ns[j - 1] is Element);
        } else {
            assert(m[i] == ns[i - 1] && m[j] == ns[j - 1]);
            assert(ns[i - 1] is Element && ns[j - 1] is Element);
        }
    }
}

/// Where `insert_child_ordered` puts `node` among `children` of an element
/// named `parent_local`.
pub open spec fn ordered_position(parent_local: Seq<u8>, children: Seq<Node>, node: Node) -> int {
    match node {
        Node::Raw(_) => children.len() as int,
        Node::Element(e) => match order_table(parent_local) {
            None => children.len() as int,
            Some(t) => last_le(children, t, rank_in(e.local(), t)),
        },
    }
}

fn table_of(names: &[&[u8]]) -> (r: Vec<Vec<u8>>)
    ensures
        table_view(r@) == names@.map_values(|n: &[u8]| n@),
{
    let mut out: Vec<Vec<u8>> = Vec::new();
    let mut i: usize = 0;
    while i < names.len()
        invariant
            i <= names@.len(),
            table_view(out@) == names@.map_values(|n: &[u8]| n@).take(i as int),
        decreases names@.len() - i,
    {
        let ghost before = table_view(out@);
        out.push(to_vec(names[i]));
        assert(table_view(out@) =~= before.push(names@[i as int]@));
        i = i + 1;
        assert(table_view(out@) =~= names@.map_values(|n: &[u8]| n@).take(i as int));
    }
    assert(names@.map_values(|n: &[u8]| n@).take(names@.len() as int) =~= names@.map_values(|n: &[u8]| n@));
    out
}

/// Look up the child-order table for a parent's local name.
fn child_order_table(parent_local: &[u8]) -> (r: Option<Vec<Vec<u8>>>)
    ensures
        match r {
            Some(t) => order_table(parent_local@) == Some(table_view(t@)),
            None => order_table(parent_local@) is None,
        },
{
    if bytes_eq(parent_local, &/* rPr */ [114u8, 80u8, 114u8]) {
        let names: [&[u8]; 22] = [&/* ln */ [108u8, 110u8], &/* noFill */ [110u8, 111u8, 70u8, 105u8, 108u8, 108u8], &/* solidFill */ [115u8, 111u8, 108u8, 105u8, 100u8, 70u8, 105u8, 108u8, 108u8], &/* gradFill */ [103u8, 114u8, 97u8, 100u8, 70u8, 105u8, 108u8, 108u8], &/* blipFill */ [98u8, 108u8, 105u8, 112u8, 70u8, 105u8, 108u8, 108u8],
            &/* pattFill */ [112u8, 97u8, 116u8, 116u8, 70u8, 105u8, 108u8, 108u8], &/* grpFill */ [103u8, 114u8, 112u8, 70u8, 105u8, 108u8, 108u8], &/* effectLst */ [101u8, 102u8, 102u8, 101u8, 99u8, 116u8, 76u8, 115u8, 116u8], &/* effectDag */ [101u8, 102u8, 102u8, 101u8, 99u8, 116u8, 68u8, 97u8, 103u8], &/* highlight */ [104u8, 105u8, 103u8, 104u8, 108u8, 105u8, 103u8, 104u8, 116u8], &/* uLnTx */ [117u8, 76u8, 110u8, 84u8, 120u8],
            &/* uLn */ [117u8, 76u8, 110u8], &/* uFillTx */ [117u8, 70u8, 105u8, 108u8, 108u8, 84u8, 120u8], &/* uFill */ [117u8, 70u8, 105u8, 108u8, 108u8], &/* latin */ [108u8, 97u8, 116u8, 105u8, 110u8], &/* ea */ [101u8, 97u8], &/* cs */ [99u8, 115u8], &/* sym */ [115u8, 121u8, 109u8], &/* hlinkClick */ [104u8, 108u8, 105u8, 110u8, 107u8, 67u8, 108u8, 105u8, 99u8, 107u8],
            &/* hlinkMouseOver */ [104u8, 108u8, 105u8, 110u8, 107u8, 77u8, 111u8, 117u8, 115u8, 101u8, 79u8, 118u8, 101u8, 114u8], &/* rtl */ [114u8, 116u8, 108u8], &/* extLst */ [101u8, 120u8, 116u8, 76u8, 115u8, 116u8]];
        let t = table_of(&names);
        assert(table_view(t@) =~= rpr_order());
        Some(t)
    } else if bytes_eq(parent_local, &/* pPr */ [112u8, 80u8, 114u8]) {
        let names: [&[u8]; 17] = [&/* lnSpc */ [108u8, 110u8, 83u8, 112u8, 99u8], &/* spcBef */ [115u8, 112u8, 99u8, 66u8, 101u8, 102u8], &/* spcAft */ [115u8, 112u8, 99u8, 65u8, 102u8, 116u8], &/* buClrTx */ [98u8, 117u8, 67u8, 108u8, 114u8, 84u8, 120u8], &/* buClr */ [98u8, 117u8, 67u8, 108u8, 114u8],
            &/* buSzTx */ [98u8, 117u8, 83u8, 122u8, 84u8, 120u8], &/* buSzPct */ [98u8, 117u8, 83u8, 122u8, 80u8, 99u8, 116u8], &/* buSzPts */ [98u8, 117u8, 83u8, 122u8, 80u8, 116u8, 115u8], &/* buFontTx */ [98u8, 117u8, 70u8, 111u8, 110u8, 116u8, 84u8, 120u8], &/* buFont */ [98u8, 117u8, 70u8, 111u8, 110u8, 116u8], &/* buNone */ [98u8, 117u8, 78u8, 111u8, 110u8, 101u8],
            &/* buAutoNum */ [98u8, 117u8, 65u8, 117u8, 116u8, 111u8, 78u8, 117u8, 109u8], &/* buChar */ [98u8, 117u8, 67u8, 104u8, 97u8, 114u8], &/* buBlip */ [98u8, 117u8, 66u8, 108u8, 105u8, 112u8], &/* tabLst */ [116u8, 97u8, 98u8, 76u8, 115u8, 116u8], &/* defRPr */ [100u8, 101u8, 102u8, 82u8, 80u8, 114u8], &/* extLst */ [101u8, 120u8, 116u8, 76u8, 115u8, 116u8]];
        let t = table_of(&names);
        assert(table_view(t@) =~= ppr_order());
        Some(t)
    } else if bytes_eq(parent_local, &/* spPr */ [115u8, 112u8, 80u8, 114u8]) {
        let names: [&[u8]; 15] = [&/* xfrm */ [120u8, 102u8, 114u8, 109u8], &/* custGeom */ [99u8, 117u8, 115u8, 116u8, 71u8, 101u8, 111u8, 109u8], &/* prstGeom */ [112u8, 114u8, 115u8, 116u8, 71u8, 101u8, 111u8, 109u8], &/* noFill */ [110u8, 111u8, 70u8, 105u8, 108u8, 108u8],
            &/* solidFill */ [115u8, 111u8, 108u8, 105u8, 100u8, 70u8, 105u8, 108u8, 108u8], &/* gradFill */ [103u8, 114u8, 97u8, 100u8, 70u8, 105u8, 108u8, 108u8], &/* blipFill */ [98u8, 108u8, 105u8, 112u8, 70u8, 105u8, 108u8, 108u8], &/* pattFill */ [112u8, 97u8, 116u8, 116u8, 70u8, 105u8, 108u8, 108u8], &/* grpFill */ [103u8, 114u8, 112u8, 70u8, 105u8, 108u8, 108u8], &/* ln */ [108u8, 110u8],
            &/* effectLst */ [101u8, 102u8, 102u8, 101u8, 99u8, 116u8, 76u8, 115u8, 116u8], &/* effectDag */ [101u8, 102u8, 102u8, 101u8, 99u8, 116u8, 68u8, 97u8, 103u8], &/* scene3d */ [115u8, 99u8, 101u8, 110u8, 101u8, 51u8, 100u8], &/* sp3d */ [115u8, 112u8, 51u8, 100u8], &/* extLst */ [101u8, 120u8, 116u8, 76u8, 115u8, 116u8]];
        let t = table_of(&names);
        assert(table_view(t@) =~= sppr_order());
        Some(t)
    } else if bytes_eq(parent_local, &/* txBody */ [116u8, 120u8, 66u8, 111u8, 100u8, 121u8]) {
        let names: [&[u8]; 3] = [&/* bodyPr */ [98u8, 111u8, 100u8, 121u8, 80u8, 114u8], &/* lstStyle */ [108u8, 115u8, 116u8, 83u8, 116u8, 121u8, 108u8, 101u8], &/* p */ [112u8]];
        let t = table_of(&names);
        assert(names@[2]@ == /* p */ seq![112u8]);
        assert(table_view(t@) =~= txbody_order());
        Some(t)
    } else {
        None
    }
}

/// The rank of a child's local name in an order table; unknown names rank
/// past the end.
fn rank_of(local: &[u8], table: &Vec<Vec<u8>>) -> (r: usize)
    ensures
        r == rank_in(local@, table_view(table@)),
{
    let ghost tv = table_view(table@);
    let mut i: usize = 0;
    while i < table.len()
        invariant
            i <= table@.len(),
            tv == table_view(table@),
            rank_in(local@, tv.take(i as int)) == i,
        decreases table@.len() - i,
    {
        proof {
            assert(tv.take(i + 1).drop_last() =~= tv.take(i as int));
        }
        if bytes_eq(table[i].as_slice(), local) {
            proof { lemma_rank_prefix(local@, tv, i as int); }
            return i;
        }
        i = i + 1;
    }
    assert(tv.take(tv.len() as int) =~= tv);
    i
}

proof fn lemma_rank_prefix(local: Seq<u8>, t: Seq<Seq<u8>>, i: int)
    requires
        0 <= i < t.len(),
        t[i] == local,
        rank_in(local, t.take(i)) == i,
    ensures
        rank_in(local, t) == i,
    decreases t.len(),
{
    if t.len() > i + 1 {
        assert(t.drop_last().take(i) =~= t.take(i));
        lemma_rank_prefix(local, t.drop_last(), i);
    } else {
        assert(t.drop_last() =~= t.take(i));
    }
}

// ─── Document ───────────────────────────────────────────────────────────────

/// Index of the first element among `ns`, or -1.
pub open spec fn first_element_index(ns: Seq<Node>) -> int
    decreases ns.len(),
{
    if ns.len() == 0 {
        -1
    } else if ns[0] is Element {
        0
    } else {
        let r = first_element_index(ns.drop_first());
        if r < 0 {
            -1
        } else {
            r + 1
        }
    }
}

pub proof fn lemma_first_element_index(ns: Seq<Node>)
    ensures
        -1 <= first_element_index(ns) < ns.len(),
        first_element_index(ns) >= 0 ==> ns[first_element_index(ns)] is Element,
        forall|j: int| 0 <= j < first_element_index(ns) ==> ns[j] is Raw,
        first_element_index(ns) < 0 ==> forall|j: int| 0 <= j < ns.len() ==> ns[j] is Raw,
    decreases ns.len(),
{
    if ns.len() > 0 {
        lemma_first_element_index(ns.drop_first());
        assert forall|j: int| 0 < j < ns.len() implies ns[j] == ns.drop_first()[j - 1] by {}
    }
}

/// The first element among `ns`: a document's root element.
pub open spec fn first_element(ns: Seq<Node>) -> Option<Element> {
    let i = first_element_index(ns);
    if i < 0 {
        None
    } else {
        Some(ns[i]->Element_0)
    }
}

/// The bytes of an element still open during parsing: its start tag and the
/// children read so far.
pub open spec fn open_bytes(e: Element) -> Seq<u8> {
    e.raw_start@ + nodes_bytes(e.children@)
}

pub open spec fn stack_bytes(s: Seq<Element>) -> Seq<u8>
    decreases s.len(),
{
    if s.len() == 0 {
        Seq::empty()
    } else {
        stack_bytes(s.drop_last()) + open_bytes(s.last())
    }
}

// ─── The tree a parse builds ────────────────────────────────────────────────

/// An element as plain data: its fields with every vector taken by its view.
pub struct ElemV {
    pub name: Seq<u8>,
    pub raw_start: Seq<u8>,
    pub raw_end: Seq<u8>,
    pub self_closing: bool,
    pub dirty: bool,
    pub attrs: Seq<(Seq<u8>, Seq<u8>)>,
    pub children: Seq<NodeV>,
}

/// A node as plain data.
pub enum NodeV {
    Elem(ElemV),
    RawV(Seq<u8>),
}

/// The plain data of an element.
pub open spec fn elem_v(e: Element) -> ElemV
    decreases e,
{
    ElemV {
        name: e.name@,
        raw_start: e.raw_start@,
        raw_end: e.raw_end@,
        self_closing: e.self_closing,
        dirty: e.dirty,
        attrs: e.attrs_v(),
        children: nodes_v(e.children@),
    }
}

pub open spec fn node_v(n: Node) -> NodeV
    decreases n,
{
    match n {
        Node::Element(e) => NodeV::Elem(elem_v(e)),
        Node::Raw(b) => NodeV::RawV(b@),
    }
}

/// The plain data of a sequence of nodes, in order.
pub open spec fn nodes_v(ns: Seq<Node>) -> Seq<NodeV>
    decreases ns,
{
    if ns.len() == 0 {
        Seq::empty()
    } else {
        nodes_v(ns.drop_last()).push(node_v(ns.last()))
    }
}

/// The plain data of a stack of open elements.
pub open spec fn stack_v(s: Seq<Element>) -> Seq<ElemV> {
    s.map_values(|e: Element| elem_v(e))
}

/// A finished node goes to the innermost open element, or to the top level.
pub open spec fn push_v(stack: Seq<ElemV>, roots: Seq<NodeV>, n: NodeV) -> (Seq<ElemV>, Seq<NodeV>) {
    if stack.len() > 0 {
        let t = stack.last();
        (
            stack.drop_last().push(
                ElemV {
                    name: t.name,
                    raw_start: t.raw_start,
                    raw_end: t.raw_end,
                    self_closing: t.self_closing,
                    dirty: t.dirty,
                    attrs: t.attrs,
                    children: t.children.push(n),
                },
            ),
            roots,
        )
    } else {
        (stack, roots.push(n))
    }
}

/// A fresh element as the reader reports it: its name, its start tag's
/// bytes and its attributes, with no children yet.
pub open spec fn read_elem(name: Seq<u8>, raw: Seq<u8>, attrs: Seq<(Seq<u8>, Seq<u8>)>, self_closing: bool) -> ElemV {
    ElemV {
        name,
        raw_start: raw,
        raw_end: Seq::empty(),
        self_closing,
        dirty: false,
        attrs,
        children: Seq::empty(),
    }
}

/// An open element closed by an end tag written as `raw`.
pub open spec fn closed_elem(t: ElemV, raw: Seq<u8>) -> ElemV {
    ElemV {
        name: t.name,
        raw_start: t.raw_start,
        raw_end: raw,
        self_closing: t.self_closing,
        dirty: t.dirty,
        attrs: t.attrs,
        children: t.children,
    }
}

/// The tree built from the reader's reports on `src` from the `k`-th on, at
/// byte offset `pos`, with the top-level nodes `roots` and the open
/// elements `stack` built so far: each report's bytes are those from the
/// previous offset to the reader's new one; a start tag opens an element, an
/// end tag closes the innermost one, a self-closing tag and anything else
/// (kept as bytes) are appended where they stand. `None` when the reader
/// fails, an attribute cannot be read, an offset falls outside the input or
/// goes back, a report makes no progress, an end tag has nothing to close,
/// or the input ends before it is all read or with elements still open.
pub open spec fn parse_steps(src: Seq<u8>, k: nat, roots: Seq<NodeV>, stack: Seq<ElemV>, pos: int) -> Option<Seq<NodeV>>
    decreases src.len() - pos,
{
    if pos < 0 || pos > src.len() {
        None
    } else {
        let s = xml_step(src, false, k);
        let end = s.1 as int;
        if s.0 == step_error() || end > src.len() || end < pos {
            None
        } else if s.0 == step_eof() {
            if end == src.len() && end == pos && stack.len() == 0 {
                Some(roots)
            } else {
                None
            }
        } else if end == pos {
            None
        } else {
            let raw = src.subrange(pos, end);
            if s.0 == step_start() {
                match s.3 {
                    Some(a) => parse_steps(src, k + 1, roots, stack.push(read_elem(s.2, raw, a, false)), end),
                    None => None,
                }
            } else if s.0 == step_end_tag() {
                if stack.len() == 0 {
                    None
                } else {
                    let (st, rs) = push_v(stack.drop_last(), roots, NodeV::Elem(closed_elem(stack.last(), raw)));
                    parse_steps(src, k + 1, rs, st, end)
                }
            } else if s.0 == step_empty() {
                match s.3 {
                    Some(a) => {
                        let (st, rs) = push_v(stack, roots, NodeV::Elem(read_elem(s.2, raw, a, true)));
                        parse_steps(src, k + 1, rs, st, end)
                    },
                    None => None,
                }
            } else {
                let (st, rs) = push_v(stack, roots, NodeV::RawV(raw));
                parse_steps(src, k + 1, rs, st, end)
            }
        }
    }
}

/// The top-level nodes quick_xml's reports on `src` build, when they build
/// a tree.
pub open spec fn parsed_nodes(src: Seq<u8>) -> Option<Seq<NodeV>> {
    parse_steps(src, 0, Seq::empty(), Seq::empty(), 0)
}

pub proof fn lemma_nodes_v_index(ns: Seq<Node>)
    ensures
        nodes_v(ns).len() == ns.len(),
        forall|i: int| 0 <= i < ns.len() ==> #[trigger] nodes_v(ns)[i] == node_v(ns[i]),
    decreases ns.len(),
{
    if ns.len() > 0 {
        lemma_nodes_v_index(ns.drop_last());
        assert forall|i: int| 0 <= i < ns.len() implies #[trigger] nodes_v(ns)[i] == node_v(ns[i]) by {
            if i < ns.len() - 1 {
                assert(ns.drop_last()[i] == ns[i]);
            }
        }
    }
}

/// Whether no descendant of `e` is named `local`.
pub open spec fn holds_none(e: Element, local: Seq<u8>) -> bool {
    desc_path(e, local) is None
}

/// Whether an element is neither named `local` nor holds one so named.
pub open spec fn free_of(e: Element, local: Seq<u8>) -> bool {
    e.local() != local && holds_none(e, local)
}

/// Whether every element among `ns` is free of elements named `local`.
pub open spec fn nodes_free_of(ns: Seq<Node>, local: Seq<u8>) -> bool {
    forall|i: int| 0 <= i < ns.len() && #[trigger] ns[i] is Element ==> free_of(ns[i]->Element_0, local)
}

proof fn lemma_holds_none_from(e: Element, i: int, local: Seq<u8>)
    requires
        0 <= i,
    ensures
        desc_path_from(e, i, local) is None <==> (forall|j: int|
            i <= j < e.children@.len() && #[trigger] e.children@[j] is Element ==> free_of(
                e.children@[j]->Element_0,
                local,
            )),
    decreases e.children@.len() - i,
{
    assert(e.children.len() == e.children@.len());
    if i < e.children@.len() {
        lemma_holds_none_from(e, i + 1, local);
        match e.children@[i] {
            Node::Element(c) => {
                if !free_of(c, local) {
                    lemma_desc_path(c, local);
                }
            },
            Node::Raw(_) => {},
        }
    }
}

/// An element holds nothing named `local` exactly when each of its children
/// is free of such elements.
pub proof fn lemma_holds_none(e: Element, local: Seq<u8>)
    ensures
        holds_none(e, local) <==> nodes_free_of(e.children@, local),
{
    lemma_holds_none_from(e, 0, local);
}

/// Searches depend on an element's plain data alone.
pub proof fn lemma_desc_path_view(a: Element, b: Element, local: Seq<u8>)
    requires
        elem_v(a) == elem_v(b),
    ensures
        desc_path(a, local) == desc_path(b, local),
    decreases a, a.children@.len() + 1,
{
    lemma_desc_path_from_view(a, b, 0, local);
}

proof fn lemma_desc_path_from_view(a: Element, b: Element, i: int, local: Seq<u8>)
    requires
        elem_v(a) == elem_v(b),
    ensures
        desc_path_from(a, i, local) == desc_path_from(b, i, local),
    decreases a, a.children@.len() - i,
{
    lemma_nodes_v_index(a.children@);
    lemma_nodes_v_index(b.children@);
    assert(nodes_v(a.children@) == nodes_v(b.children@));
    if 0 <= i < a.children@.len() && i <= usize::MAX {
        assert(elem_v(a).children == elem_v(b).children);
        assert(nodes_v(a.children@)[i] == node_v(a.children@[i]));
        assert(nodes_v(b.children@)[i] == node_v(b.children@[i]));
        assert(node_v(a.children@[i]) == node_v(b.children@[i]));
        match a.children@[i] {
            Node::Element(c) => {
                let d = b.children@[i]->Element_0;
                assert(b.children@[i] is Element);
                assert(elem_v(c) == elem_v(d));
                assert(c.local() == d.local());
                lemma_desc_path_view(c, d, local);
                lemma_desc_path_from_view(a, b, i + 1, local);
            },
            Node::Raw(_) => {
                assert(b.children@[i] is Raw);
                lemma_desc_path_from_view(a, b, i + 1, local);
            },
        }
    }
}

/// An element free of `local` keeps every descendant free of it.
pub proof fn lemma_free_below(e: Element, q: Seq<usize>, local: Seq<u8>)
    requires
        holds_none(e, local),
        valid_path(e, q),
        q.len() > 0,
    ensures
        free_of(at_path(e, q), local),
    decreases q.len(),
{
    lemma_holds_none(e, local);
    let c = e.children@[q[0] as int]->Element_0;
    assert(e.children@[q[0] as int] is Element);
    assert(free_of(c, local));
    assert(at_path(e, q) == at_path(c, q.drop_first()));
    if q.len() > 1 {
        lemma_free_below(c, q.drop_first(), local);
    } else {
        assert(q.drop_first() =~= Seq::<usize>::empty());
    }
}

/// A search over a tree where neither the element replaced at `p` nor its
/// replacement holds anything named `local` finds what it found before.
pub proof fn lemma_desc_path_stable_free(old: Element, new: Element, p: Seq<usize>, sub: Element, local: Seq<u8>)
    requires
        p.len() > 0,
        valid_path(old, p),
        replaced_at(old, new, p, sub),
        same_tags(at_path(old, p), sub),
        free_of(at_path(old, p), local),
        holds_none(sub, local),
    ensures
        desc_path(new, local) == desc_path(old, local),
        desc_path(old, local) matches Some(q) ==> valid_path(new, q) && same_tags(at_path(old, q), at_path(new, q)),
    decreases old, old.children@.len() + 1,
{
    lemma_desc_path_from_stable_free(old, new, p, sub, local, 0);
}

proof fn lemma_desc_path_from_stable_free(
    old: Element,
    new: Element,
    p: Seq<usize>,
    sub: Element,
    local: Seq<u8>,
    i: int,
)
    requires
        p.len() > 0,
        valid_path(old, p),
        replaced_at(old, new, p, sub),
        same_tags(at_path(old, p), sub),
        free_of(at_path(old, p), local),
        holds_none(sub, local),
        0 <= i,
    ensures
        desc_path_from(new, i, local) == desc_path_from(old, i, local),
        desc_path_from(old, i, local) matches Some(q) ==> valid_path(new, q) && same_tags(
            at_path(old, q),
            at_path(new, q),
        ),
    decreases old, old.children@.len() - i,
{
    let pi = p[0] as int;
    let rest = p.drop_first();
    lemma_desc_path_from(old, i, local);
    if 0 <= i < old.children@.len() && i <= usize::MAX {
        lemma_desc_path_from_stable_free(old, new, p, sub, local, i + 1);
        if i != pi {
            assert(new.children@[i] == old.children@[i]);
            match old.children@[i] {
                Node::Element(c) => {
                    if c.local() == local {
                        let q = seq![i as usize];
                        assert(q.drop_first() =~= Seq::<usize>::empty());
                        assert(at_path(old, q) == at_path(c, q.drop_first()));
                        assert(at_path(new, q) == at_path(c, q.drop_first()));
                        assert(valid_path(c, q.drop_first()));
                    } else {
                        lemma_desc_path(c, local);
                        if let Some(r) = desc_path(c, local) {
                            let q = seq![i as usize] + r;
                            assert(q.drop_first() =~= r);
                            assert(q[0] as int == i);
                            assert(at_path(old, q) == at_path(c, r));
                            assert(at_path(new, q) == at_path(c, r));
                        }
                    }
                },
                Node::Raw(_) => {},
            }
        } else {
            let c = old.children@[i]->Element_0;
            let cn = new.children@[i]->Element_0;
            assert(replaced_at(c, cn, rest, sub));
            if rest.len() > 0 {
                assert(same_tags(c, cn));
                assert(at_path(c, rest) == at_path(old, p));
                lemma_desc_path_stable_free(c, cn, rest, sub, local);
                lemma_desc_path(c, local);
                if c.local() == local {
                    let q = seq![i as usize];
                    assert(q.drop_first() =~= Seq::<usize>::empty());
                    assert(at_path(old, q) == at_path(c, q.drop_first()));
                    assert(at_path(new, q) == at_path(cn, q.drop_first()));
                    assert(valid_path(cn, q.drop_first()));
                } else if let Some(r) = desc_path(c, local) {
                    let q = seq![i as usize] + r;
                    assert(q.drop_first() =~= r);
                    assert(q[0] as int == i);
                    assert(at_path(old, q) == at_path(c, r));
                    assert(at_path(new, q) == at_path(cn, r));
                }
            } else {
                assert(at_path(c, rest) == c);
                assert(cn == sub);
                assert(c.local() == sub.local());
            }
        }
    }
}

/// Whether markup parses to nodes among which there is an element.
pub open spec fn fragment_parses(src: Seq<u8>) -> bool {
    parsed_nodes(src) matches Some(vs) && exists|i: int| 0 <= i < vs.len() && #[trigger] vs[i] is Elem
}

/// Whether `e` is the first element of the nodes markup `src` parses to.
pub open spec fn first_parsed(src: Seq<u8>, e: Element) -> bool {
    parsed_nodes(src) matches Some(vs) && exists|i: int| {
        &&& 0 <= i < vs.len()
        &&& #[trigger] vs[i] == NodeV::Elem(elem_v(e))
        &&& forall|j: int| 0 <= j < i ==> vs[j] is RawV
    }
}

/// `d` is what parsing `src` gives: the tree quick_xml's reports build, its
/// bytes those of `src`.
pub open spec fn parses_to(src: Seq<u8>, d: Document) -> bool {
    &&& parsed_nodes(src) == Some(nodes_v(d.nodes@))
    &&& d.bytes() == src
}

impl Document {
    /// The bytes this document serializes to.
    pub open spec fn bytes(self) -> Seq<u8> {
        nodes_bytes(self.nodes@)
    }

    /// Parse XML into the lossless tree: the tree quick_xml's reports build
    /// ([`parsed_nodes`]); it serializes back to exactly `src`. Fails exactly
    /// when they build none.
    pub fn parse(src: &[u8]) -> (r: Result<Document, OxmlError>)
        ensures
            r is Ok <==> parsed_nodes(src@) is Some,
            r matches Ok(d) ==> d.bytes() == src@ && Some(nodes_v(d.nodes@)) == parsed_nodes(src@),
    {
        let mut reader = open_reader(src);
        let mut stack: Vec<Element> = Vec::new();
        let mut roots: Vec<Node> = Vec::new();
        let mut pos: usize = 0;
        proof {
            assert(nodes_v(roots@) =~= Seq::<NodeV>::empty());
            assert(stack_v(stack@) =~= Seq::<ElemV>::empty());
        }
        loop
            invariant_except_break
                pos <= src@.len(),
                nodes_bytes(roots@) + stack_bytes(stack@) == src@.take(pos as int),
                forall|k: int| 0 <= k < stack@.len() ==> !stack@[k].dirty && !stack@[k].self_closing,
                reader_input(reader) == src@,
                !reader_trims(reader),
                parsed_nodes(src@) == parse_steps(src@, reader_reads(reader), nodes_v(roots@), stack_v(stack@), pos as int),
            ensures
                pos == src@.len(),
                nodes_bytes(roots@) + stack_bytes(stack@) == src@.take(pos as int),
                stack@.len() == 0 ==> parsed_nodes(src@) == Some(nodes_v(roots@)),
                stack@.len() != 0 ==> parsed_nodes(src@) is None,
            decreases src@.len() - pos,
        {
            let ghost k = reader_reads(reader);
            let ghost st = xml_step(src@, false, k);
            let ev = read_event(&mut reader);
            let ev = match ev {
                Ok(ev) => ev,
                Err(e) => {
                    return Err(OxmlError::Xml(e));
                },
            };
            let end64 = reader_position(&reader);
            assert(end64 == st.1);
            if end64 > src.len() as u64 || (end64 as usize) < pos {
                return Err(OxmlError::Parse(string_of("reader position out of range")));
            }
            let end = end64 as usize;
            let raw = to_vec(slice_of(src, pos, end));
            proof {
                assert(src@.take(end as int) =~= src@.take(pos as int) + raw@);
            }
            match ev {
                XmlEvent::Eof => {
                    if end != src.len() || end != pos {
                        return Err(OxmlError::Parse(string_of("input not fully read")));
                    }
                    break;
                },
                _ => {},
            }
            if end == pos {
                return Err(OxmlError::Parse(string_of("reader made no progress")));
            }
            let ghost rv = nodes_v(roots@);
            let ghost sv = stack_v(stack@);
            match ev {
                XmlEvent::Tag(empty, name, attrs) => {
                    let attrs = match attrs {
                        Ok(a) => a,
                        Err(msg) => {
                            return Err(OxmlError::XmlAttr(msg));
                        },
                    };
                    let el = Element {
                        name,
                        raw_start: raw,
                        raw_end: Vec::new(),
                        self_closing: empty,
                        dirty: false,
                        attrs,
                        children: Vec::new(),
                    };
                    proof {
                        assert(open_bytes(el) =~= raw@);
                        assert(el.children@ =~= Seq::<Node>::empty());
                        assert(elem_v(el) == read_elem(st.2, raw@, st.3.unwrap(), empty));
                    }
                    if empty {
                        proof { assert(element_bytes(el) == raw@); }
                        push_node(&mut stack, &mut roots, Node::Element(el));
                    } else {
                        proof {
                            assert(stack@.push(el).drop_last() =~= stack@);
                            assert(stack_v(stack@.push(el)) =~= sv.push(elem_v(el)));
                        }
                        stack.push(el);
                    }
                },
                XmlEvent::End(_) => {
                    let mut el = match stack.pop() {
                        Some(el) => el,
                        None => {
                            return Err(OxmlError::Parse(string_of("unbalanced end tag")));
                        },
                    };
                    proof {
                        assert(stack_v(stack@) =~= sv.drop_last());
                        assert(elem_v(el) == sv.last());
                    }
                    el.raw_end = raw;
                    let ghost ebytes = element_bytes(el);
                    assert(ebytes =~= open_bytes(el) + raw@);
                    assert(elem_v(el) == closed_elem(sv.last(), raw@));
                    push_node(&mut stack, &mut roots, Node::Element(el));
                },
                _ => {
                    push_node(&mut stack, &mut roots, Node::Raw(raw));
                },
            }
            pos = end;
        }
        if stack.len() != 0 {
            return Err(OxmlError::Parse(string_of("unclosed element")));
        }
        assert(src@.take(src@.len() as int) =~= src@);
        assert(stack_bytes(stack@) =~= Seq::<u8>::empty());
        assert(nodes_bytes(roots@) + Seq::<u8>::empty() =~= nodes_bytes(roots@));
        Ok(Document { nodes: roots })
    }

    /// Serialize back to bytes (identical to the source when unedited).
    pub fn to_bytes(&self) -> (r: Vec<u8>)
        ensures
            r@ == self.bytes(),
    {
        let mut out: Vec<u8> = Vec::new();
        write_nodes(&self.nodes, &mut out);
        assert(out@ =~= self.bytes());
        out
    }

    /// The root element: the first element among the top-level nodes.
    pub fn root(&self) -> (r: Option<&Element>)
        ensures
            match r {
                Some(e) => first_element(self.nodes@) == Some(*e),
                None => first_element(self.nodes@) is None,
            },
    {
        proof { lemma_first_element_index(self.nodes@); }
        let mut i: usize = 0;
        while i < self.nodes.len()
            invariant
                i <= self.nodes@.len(),
                forall|j: int| 0 <= j < i ==> self.nodes@[j] is Raw,
                -1 <= first_element_index(self.nodes@) < self.nodes@.len(),
                first_element_index(self.nodes@) >= 0 ==> self.nodes@[first_element_index(self.nodes@)] is Element,
                forall|j: int| 0 <= j < first_element_index(self.nodes@) ==> self.nodes@[j] is Raw,
                first_element_index(self.nodes@) < 0 ==> forall|j: int| 0 <= j < self.nodes@.len() ==> self.nodes@[j] is Raw,
            decreases self.nodes@.len() - i,
        {
            match &self.nodes[i] {
                Node::Element(e) => {
                    return Some(e);
                },
                Node::Raw(_) => {},
            }
            i = i + 1;
        }
        None
    }

    /// Index of the root element among the top-level nodes.
    pub fn root_index(&self) -> (r: Option<usize>)
        ensures
            match r {
                Some(i) => first_element_index(self.nodes@) == i,
                None => first_element_index(self.nodes@) < 0,
            },
    {
        proof { lemma_first_element_index(self.nodes@); }
        let mut i: usize = 0;
        while i < self.nodes.len()
            invariant
                i <= self.nodes@.len(),
                forall|j: int| 0 <= j < i ==> self.nodes@[j] is Raw,
                -1 <= first_element_index(self.nodes@) < self.nodes@.len(),
                first_element_index(self.nodes@) >= 0 ==> self.nodes@[first_element_index(self.nodes@)] is Element,
                forall|j: int| 0 <= j < first_element_index(self.nodes@) ==> self.nodes@[j] is Raw,
                first_element_index(self.nodes@) < 0 ==> forall|j: int| 0 <= j < self.nodes@.len() ==> self.nodes@[j] is Raw,
            decreases self.nodes@.len() - i,
        {
            if let Node::Element(_) = &self.nodes[i] {
                return Some(i);
            }
            i = i + 1;
        }
        None
    }

    /// Mutable access to the root element.
    pub fn root_mut(&mut self) -> (r: Option<&mut Element>)
        ensures
            match r {
                Some(e) => first_element_index(old(self).nodes@) >= 0
                    && *e == old(self).nodes@[first_element_index(old(self).nodes@)]->Element_0
                    && final(self).nodes@ == old(self).nodes@.update(first_element_index(old(self).nodes@), Node::Element(*final(e))),
                None => first_element_index(old(self).nodes@) < 0 && *final(self) == *old(self),
            },
    {
        proof { lemma_first_element_index(self.nodes@); }
        match self.root_index() {
            Some(i) => node_element_mut(&mut self.nodes, i),
            None => None,
        }
    }
}

/// Index of the first element among `ns` named `local`, or -1.
pub open spec fn first_named_index(ns: Seq<Node>, local: Seq<u8>) -> int
    decreases ns.len(),
{
    if ns.len() == 0 {
        -1
    } else if is_named(ns[0], local) {
        0
    } else {
        let r = first_named_index(ns.drop_first(), local);
        if r < 0 {
            -1
        } else {
            r + 1
        }
    }
}

pub proof fn lemma_first_named_index(ns: Seq<Node>, local: Seq<u8>)
    ensures
        -1 <= first_named_index(ns, local) < ns.len(),
        first_named_index(ns, local) >= 0 ==> is_named(ns[first_named_index(ns, local)], local),
        forall|j: int| 0 <= j < first_named_index(ns, local) ==> !is_named(ns[j], local),
        first_named_index(ns, local) < 0 ==> forall|j: int| 0 <= j < ns.len() ==> !is_named(ns[j], local),
    decreases ns.len(),
{
    if ns.len() > 0 {
        lemma_first_named_index(ns.drop_first(), local);
        assert forall|j: int| 0 < j < ns.len() implies ns[j] == ns.drop_first()[j - 1] by {}
    }
}

/// Index of the first child element named `local`.
pub fn first_named_position(ns: &Vec<Node>, local: &[u8]) -> (r: Option<usize>)
    ensures
        match r {
            Some(i) => first_named_index(ns@, local@) == i,
            None => first_named_index(ns@, local@) < 0,
        },
{
    proof { lemma_first_named_index(ns@, local@); }
    let mut i: usize = 0;
    while i < ns.len()
        invariant
            i <= ns@.len(),
            forall|j: int| 0 <= j < i ==> !is_named(ns@[j], local@),
            -1 <= first_named_index(ns@, local@) < ns@.len(),
            first_named_index(ns@, local@) >= 0 ==> is_named(ns@[first_named_index(ns@, local@)], local@),
            forall|j: int| 0 <= j < first_named_index(ns@, local@) ==> !is_named(ns@[j], local@),
            first_named_index(ns@, local@) < 0 ==> forall|j: int| 0 <= j < ns@.len() ==> !is_named(ns@[j], local@),
        decreases ns@.len() - i,
    {
        if let Node::Element(e) = &ns[i] {
            if e.is_named(local) {
                return Some(i);
            }
        }
        i = i + 1;
    }
    None
}

impl Element {
    /// The first direct child element named `local`, mutably.
    pub fn first_child_named_mut(&mut self, local: &[u8]) -> (r: Option<&mut Element>)
        ensures
            match r {
                Some(c) => {
                    let i = first_named_index(old(self).children@, local@);
                    &&& i >= 0
                    &&& *c == old(self).children@[i]->Element_0
                    &&& same_tags(*old(self), *final(self))
                    &&& final(self).children@ == old(self).children@.update(i, Node::Element(*final(c)))
                },
                None => first_named_index(old(self).children@, local@) < 0 && *final(self) == *old(self),
            },
    {
        proof { lemma_first_named_index(self.children@, local@); }
        match first_named_position(&self.children, local) {
            Some(i) => node_element_mut(&mut self.children, i),
            None => None,
        }
    }

    /// The first direct child element named `local`.
    pub fn first_child_named(&self, local: &[u8]) -> (r: Option<&Element>)
        ensures
            match r {
                Some(c) => first_named_index(self.children@, local@) >= 0
                    && *c == self.children@[first_named_index(self.children@, local@)]->Element_0,
                None => first_named_index(self.children@, local@) < 0,
            },
    {
        proof { lemma_first_named_index(self.children@, local@); }
        match first_named_position(&self.children, local) {
            Some(i) => match &self.children[i] {
                Node::Element(e) => Some(e),
                Node::Raw(_) => None,
            },
            None => None,
        }
    }
}

/// The nodes of `ns` whose decision in `d` equals `pick`, in order.
pub open spec fn pick_by(ns: Seq<Node>, d: Seq<bool>, pick: bool) -> Seq<Node>
    decreases ns.len(),
{
    if ns.len() == 0 || d.len() != ns.len() {
        Seq::empty()
    } else {
        let rest = pick_by(ns.drop_last(), d.drop_last(), pick);
        if d.last() == pick {
            rest.push(ns.last())
        } else {
            rest
        }
    }
}

impl Element {
    /// Remove all children for which `predicate` holds, returning them in
    /// order. The element's own tags are untouched.
    pub fn remove_children_where<F: Fn(&Node) -> bool>(&mut self, predicate: F) -> (r: Vec<Node>)
        requires
            forall|n: &Node| predicate.requires((n,)),
        ensures
            same_tags(*old(self), *final(self)),
            exists|d: Seq<bool>| {
                &&& d.len() == old(self).children@.len()
                &&& forall|k: int| 0 <= k < d.len() ==> call_ensures(predicate, (&old(self).children@[k],), d[k])
                &&& final(self).children@ == pick_by(old(self).children@, d, false)
                &&& r@ == pick_by(old(self).children@, d, true)
            },
    {
        let mut all: Vec<Node> = Vec::new();
        std::mem::swap(&mut all, &mut self.children);
        let ghost orig = all@;
        let mut kept: Vec<Node> = Vec::new();
        let mut removed: Vec<Node> = Vec::new();
        let ghost mut d: Seq<bool> = Seq::empty();
        while all.len() > 0
            invariant
                forall|n: &Node| predicate.requires((n,)),
                d.len() + all@.len() == orig.len(),
                all@ == orig.skip(d.len() as int),
                forall|k: int| 0 <= k < d.len() ==> call_ensures(predicate, (&orig[k],), d[k]),
                kept@ == pick_by(orig.take(d.len() as int), d, false),
                removed@ == pick_by(orig.take(d.len() as int), d, true),
            decreases all@.len(),
        {
            let n = all.remove(0);
            let b = predicate(&n);
            let ghost k = d.len() as int;
            let ghost d_old = d;
            proof {
                assert(n == orig[k]);
                d = d.push(b);
                assert(orig.take(k + 1).drop_last() =~= orig.take(k));
                assert(d.drop_last() =~= d_old);
                assert(orig.take(k + 1).last() == n);
                assert(orig.skip(k + 1) =~= all@);
            }
            if b {
                removed.push(n);
            } else {
                kept.push(n);
            }
        }
        assert(orig.take(orig.len() as int) =~= orig);
        self.children = kept;
        removed
    }
}

/// Mutable access to the element at `nodes[i]`, which must be an element.
pub fn node_element_mut(nodes: &mut Vec<Node>, i: usize) -> (r: Option<&mut Element>)
    requires
        i < old(nodes)@.len(),
        old(nodes)@[i as int] is Element,
    ensures
        r matches Some(e) && *e == old(nodes)@[i as int]->Element_0
            && final(nodes)@ == old(nodes)@.update(i as int, Node::Element(*final(e))),
{
    match &mut nodes[i] {
        Node::Element(e) => Some(e),
        Node::Raw(_) => None,
    }
}

/// Append a finished node to the innermost open element, or to the top level.
fn push_node(stack: &mut Vec<Element>, roots: &mut Vec<Node>, node: Node)
    requires
        forall|k: int| 0 <= k < old(stack)@.len() ==> !old(stack)@[k].dirty && !old(stack)@[k].self_closing,
    ensures
        nodes_bytes(final(roots)@) + stack_bytes(final(stack)@)
            == nodes_bytes(old(roots)@) + stack_bytes(old(stack)@) + node_bytes(node),
        final(stack)@.len() == old(stack)@.len(),
        forall|k: int| 0 <= k < final(stack)@.len() ==> !final(stack)@[k].dirty && !final(stack)@[k].self_closing,
        (stack_v(final(stack)@), nodes_v(final(roots)@)) == push_v(stack_v(old(stack)@), nodes_v(old(roots)@), node_v(node)),
{
    match stack.pop() {
        Some(mut parent) => {
            let ghost rest = stack@;
            let ghost before = parent;
            proof { lemma_nodes_bytes_push(parent.children@, node); }
            parent.children.push(node);
            stack.push(parent);
            proof {
                assert(stack@.drop_last() =~= rest);
                assert(old(stack)@.drop_last() =~= rest);
                assert(parent.children@.drop_last() =~= before.children@);
                assert(parent.children@.last() == node);
                assert(nodes_v(parent.children@) == nodes_v(before.children@).push(node_v(node)));
                assert(stack_v(old(stack)@).last() == elem_v(before));
                assert(stack_v(old(stack)@).drop_last() =~= stack_v(rest));
                assert(stack_v(stack@) =~= push_v(stack_v(old(stack)@), nodes_v(old(roots)@), node_v(node)).0);
            }
        },
        None => {
            proof { lemma_nodes_bytes_push(roots@, node); }
            roots.push(node);
            proof {
                assert(roots@.drop_last() =~= old(roots)@);
                assert(roots@.last() == node);
                assert(stack_v(stack@) =~= Seq::<ElemV>::empty());
            }
        },
    }
}


// ─── Copies, fresh elements and deep mutable access ─────────────────────────

/// Two elements alike in everything that is written or read: name, tags,
/// flags, attributes, and the bytes of their children.
pub open spec fn alike(a: Element, b: Element) -> bool {
    &&& a.name@ == b.name@
    &&& a.raw_start@ == b.raw_start@
    &&& a.raw_end@ == b.raw_end@
    &&& a.self_closing == b.self_closing
    &&& a.dirty == b.dirty
    &&& a.attrs_v() == b.attrs_v()
    &&& nodes_bytes(a.children@) == nodes_bytes(b.children@)
    &&& element_bytes(a) == element_bytes(b)
}

fn copy_attrs(a: &Vec<(Vec<u8>, Vec<u8>)>) -> (r: Vec<(Vec<u8>, Vec<u8>)>)
    ensures
        attrs_view(r@) == attrs_view(a@),
{
    let mut out: Vec<(Vec<u8>, Vec<u8>)> = Vec::new();
    let mut i: usize = 0;
    while i < a.len()
        invariant
            i <= a@.len(),
            out@.len() == i,
            attrs_view(out@) == attrs_view(a@.take(i as int)),
        decreases a@.len() - i,
    {
        let (k, v) = &a[i];
        let ghost before = out@;
        out.push((to_vec(k.as_slice()), to_vec(v.as_slice())));
        proof {
            assert(a@.take(i + 1) =~= a@.take(i as int).push(a@[i as int]));
            assert(out@ =~= before.push(out@[i as int]));
            assert forall|j: int| 0 <= j < i + 1 implies #[trigger] attrs_view(out@)[j] == attrs_view(a@.take(i + 1))[j] by {
                if j < i {
                    assert(attrs_view(out@)[j] == attrs_view(before)[j]);
                    assert(attrs_view(a@.take(i + 1))[j] == attrs_view(a@.take(i as int))[j]);
                }
            }
            assert(attrs_view(out@) =~= attrs_view(a@.take(i + 1)));
        }
        i = i + 1;
    }
    assert(a@.take(a@.len() as int) =~= a@);
    out
}

/// A deep copy of an element.
pub fn copy_element(e: &Element) -> (r: Element)
    ensures
        alike(r, *e),
        elem_v(r) == elem_v(*e),
    decreases *e,
{
    let mut children: Vec<Node> = Vec::new();
    let mut i: usize = 0;
    while i < e.children.len()
        invariant
            i <= e.children@.len(),
            nodes_bytes(children@) == nodes_bytes(e.children@.take(i as int)),
            nodes_v(children@) == nodes_v(e.children@.take(i as int)),
        decreases e.children@.len() - i,
    {
        let n = match &e.children[i] {
            Node::Element(c) => Node::Element(copy_element(c)),
            Node::Raw(b) => Node::Raw(to_vec(b.as_slice())),
        };
        proof {
            lemma_nodes_bytes_push(children@, n);
            lemma_nodes_bytes_push(e.children@.take(i as int), e.children@[i as int]);
            assert(e.children@.take(i + 1) =~= e.children@.take(i as int).push(e.children@[i as int]));
            assert(node_v(n) == node_v(e.children@[i as int]));
            assert(children@.push(n).drop_last() =~= children@);
            assert(e.children@.take(i + 1).drop_last() =~= e.children@.take(i as int));
        }
        children.push(n);
        i = i + 1;
    }
    assert(e.children@.take(e.children@.len() as int) =~= e.children@);
    let r = Element {
        name: to_vec(e.name.as_slice()),
        raw_start: to_vec(e.raw_start.as_slice()),
        raw_end: to_vec(e.raw_end.as_slice()),
        self_closing: e.self_closing,
        dirty: e.dirty,
        attrs: copy_attrs(&e.attrs),
        children,
    };
    r
}

/// A fresh element named `name`: no attributes, no children, written with
/// an open and a close tag.
pub fn new_element(name: &[u8]) -> (r: Element)
    ensures
        r.name@ == name@,
        r.dirty,
        !r.self_closing,
        r.attrs@.len() == 0,
        r.children@.len() == 0,
        r.raw_start@.len() == 0,
        r.raw_end@.len() == 0,
        element_bytes(r) == /* < */ seq![60u8] + name@ + /* ></ */ seq![62u8, 60u8, 47u8] + name@ + /* > */ seq![62u8],
{
    let r = Element {
        name: to_vec(name),
        raw_start: Vec::new(),
        raw_end: Vec::new(),
        self_closing: false,
        dirty: true,
        attrs: Vec::new(),
        children: Vec::new(),
    };
    assert(r.attrs_v() =~= Seq::<(Seq<u8>, Seq<u8>)>::empty());
    assert(element_bytes(r) =~= /* < */ seq![60u8] + name@ + /* ></ */ seq![62u8, 60u8, 47u8] + name@ + /* > */ seq![62u8]);
    r
}

/// Mutable access to the element at path `p[k..]` below `e`.
pub fn descend_mut<'a>(e: &'a mut Element, p: &Vec<usize>, k: usize) -> (r: Option<&'a mut Element>)
    requires
        k <= p@.len(),
        valid_path(*old(e), p@.skip(k as int)),
    ensures
        r matches Some(x) && *x == at_path(*old(e), p@.skip(k as int))
            && replaced_at(*old(e), *final(e), p@.skip(k as int), *final(x)),
    decreases p@.len() - k,
{
    if k == p.len() {
        assert(p@.skip(k as int) =~= Seq::<usize>::empty());
        return Some(e);
    }
    let i = p[k];
    proof {
        assert(p@.skip(k as int)[0] == i);
        assert(p@.skip(k as int).drop_first() =~= p@.skip(k + 1));
    }
    match node_element_mut(&mut e.children, i) {
        Some(c) => descend_mut(c, p, k + 1),
        None => None,
    }
}

impl Element {
    /// The first descendant (depth-first, self excluded) named `local`,
    /// mutably.
    pub fn find_descendant_mut(&mut self, local: &[u8]) -> (r: Option<&mut Element>)
        ensures
            match r {
                Some(x) => desc_path(*old(self), local@) matches Some(p) && *x == at_path(*old(self), p)
                    && replaced_at(*old(self), *final(self), p, *final(x)),
                None => desc_path(*old(self), local@) is None && *final(self) == *old(self),
            },
    {
        match self.find_descendant_path(local) {
            Some(p) => {
                proof {
                    lemma_desc_path(*self, local@);
                    assert(p@.skip(0) =~= p@);
                }
                descend_mut(self, &p, 0)
            },
            None => None,
        }
    }
}


// ─── Edits at a path, and what they leave unchanged ─────────────────────────

/// The document's root element: its first top-level element.
pub open spec fn doc_root(d: Document) -> Option<Element> {
    first_element(d.nodes@)
}

/// `new` is `old` with the element at path `p` below the root replaced by
/// `sub`; every other node of the document is unchanged.
pub open spec fn doc_replaced(old: Document, new: Document, p: Seq<usize>, sub: Element) -> bool {
    let i = first_element_index(old.nodes@);
    &&& i >= 0
    &&& new.nodes@.len() == old.nodes@.len()
    &&& forall|j: int| 0 <= j < old.nodes@.len() && j != i ==> new.nodes@[j] == old.nodes@[j]
    &&& new.nodes@[i] is Element
    &&& replaced_at(old.nodes@[i]->Element_0, new.nodes@[i]->Element_0, p, sub)
}

/// Every element strictly above the end of path `p` is written with an open
/// and a close tag, so that what lies at the path is written out.
pub open spec fn open_along(e: Element, p: Seq<usize>) -> bool
    decreases p.len(),
{
    p.len() == 0 || (!e.self_closing && open_along(e.children@[p[0] as int]->Element_0, p.drop_first()))
}

pub proof fn lemma_nodes_bytes_split(ns: Seq<Node>, i: int)
    requires
        0 <= i < ns.len(),
    ensures
        nodes_bytes(ns) == nodes_bytes(ns.take(i)) + node_bytes(ns[i]) + nodes_bytes(ns.skip(i + 1)),
{
    lemma_nodes_bytes_concat(ns.take(i + 1), ns.skip(i + 1));
    assert(ns.take(i + 1) + ns.skip(i + 1) =~= ns);
    lemma_nodes_bytes_push(ns.take(i), ns[i]);
    assert(ns.take(i).push(ns[i]) =~= ns.take(i + 1));
}

/// The bytes an element is written as before its `i`-th child.
pub open spec fn bytes_before_child(e: Element, i: int) -> Seq<u8> {
    start_tag_bytes(e) + nodes_bytes(e.children@.take(i))
}

/// The bytes an element is written as after its `i`-th child.
pub open spec fn bytes_after_child(e: Element, i: int) -> Seq<u8> {
    nodes_bytes(e.children@.skip(i + 1)) + end_tag_bytes(e)
}

proof fn lemma_child_bytes(old: Element, new: Element, i: int)
    requires
        !old.self_closing,
        same_tags(old, new),
        0 <= i < old.children@.len(),
        new.children@.len() == old.children@.len(),
        forall|j: int| 0 <= j < old.children@.len() && j != i ==> new.children@[j] == old.children@[j],
    ensures
        element_bytes(old) == bytes_before_child(old, i) + node_bytes(old.children@[i]) + bytes_after_child(old, i),
        element_bytes(new) == bytes_before_child(old, i) + node_bytes(new.children@[i]) + bytes_after_child(old, i),
{
    lemma_nodes_bytes_split(old.children@, i);
    lemma_nodes_bytes_split(new.children@, i);
    assert(new.children@.take(i) =~= old.children@.take(i));
    assert(new.children@.skip(i + 1) =~= old.children@.skip(i + 1));
    assert(element_bytes(old) =~= bytes_before_child(old, i) + node_bytes(old.children@[i]) + bytes_after_child(old, i));
    assert(element_bytes(new) =~= bytes_before_child(old, i) + node_bytes(new.children@[i]) + bytes_after_child(old, i));
}

/// Replacing the element at a path changes the written bytes only where that
/// element was written: before and after it, the bytes are the same.
pub proof fn lemma_replaced_bytes(old: Element, new: Element, p: Seq<usize>, sub: Element)
    requires
        valid_path(old, p),
        open_along(old, p),
        replaced_at(old, new, p, sub),
    ensures
        exists|pre: Seq<u8>, post: Seq<u8>|
            element_bytes(old) == pre + element_bytes(at_path(old, p)) + post
                && #[trigger] element_bytes(new) == pre + element_bytes(sub) + post,
    decreases p.len(),
{
    if p.len() == 0 {
        let e = Seq::<u8>::empty();
        assert(element_bytes(old) =~= e + element_bytes(at_path(old, p)) + e);
        assert(element_bytes(new) =~= e + element_bytes(sub) + e);
    } else {
        let i = p[0] as int;
        let c_old = old.children@[i]->Element_0;
        let c_new = new.children@[i]->Element_0;
        lemma_replaced_bytes(c_old, c_new, p.drop_first(), sub);
        let (pre, post) = choose|pre: Seq<u8>, post: Seq<u8>|
            element_bytes(c_old) == pre + element_bytes(at_path(c_old, p.drop_first())) + post
                && #[trigger] element_bytes(c_new) == pre + element_bytes(sub) + post;
        lemma_child_bytes(old, new, i);
        let pre2 = bytes_before_child(old, i) + pre;
        let post2 = post + bytes_after_child(old, i);
        assert(at_path(old, p) == at_path(c_old, p.drop_first()));
        assert(element_bytes(old) =~= pre2 + element_bytes(at_path(old, p)) + post2);
        assert(element_bytes(new) =~= pre2 + element_bytes(sub) + post2);
    }
}

/// An edit at a path of the root leaves every byte of the document outside
/// the edited element as it was.
#[verifier::spinoff_prover]
#[verifier::rlimit(40)]
pub proof fn lemma_doc_replaced_bytes(old: Document, new: Document, p: Seq<usize>, sub: Element)
    requires
        doc_root(old) matches Some(r) && valid_path(r, p) && open_along(r, p),
        doc_replaced(old, new, p, sub),
    ensures
        exists|pre: Seq<u8>, post: Seq<u8>|
            old.bytes() == pre + element_bytes(at_path(doc_root(old).unwrap(), p)) + post
                && #[trigger] new.bytes() == pre + element_bytes(sub) + post,
{
    let i = first_element_index(old.nodes@);
    let r_old = old.nodes@[i]->Element_0;
    let r_new = new.nodes@[i]->Element_0;
    lemma_first_element_index(old.nodes@);
    lemma_replaced_bytes(r_old, r_new, p, sub);
    let (pre, post) = choose|pre: Seq<u8>, post: Seq<u8>|
        element_bytes(r_old) == pre + element_bytes(at_path(r_old, p)) + post
            && #[trigger] element_bytes(r_new) == pre + element_bytes(sub) + post;
    lemma_nodes_bytes_split(old.nodes@, i);
    lemma_nodes_bytes_split(new.nodes@, i);
    assert(new.nodes@.take(i) =~= old.nodes@.take(i));
    assert(new.nodes@.skip(i + 1) =~= old.nodes@.skip(i + 1));
    let pre2 = nodes_bytes(old.nodes@.take(i)) + pre;
    let post2 = post + nodes_bytes(old.nodes@.skip(i + 1));
    assert(old.bytes() =~= pre2 + element_bytes(at_path(r_old, p)) + post2);
    assert(new.bytes() =~= pre2 + element_bytes(sub) + post2);
}

/// Two nested edits make one edit at the joined path.
pub proof fn lemma_replaced_compose(a: Element, b: Element, p1: Seq<usize>, m: Element, p2: Seq<usize>, x: Element)
    requires
        valid_path(a, p1),
        replaced_at(a, b, p1, m),
        replaced_at(at_path(a, p1), m, p2, x),
    ensures
        replaced_at(a, b, p1 + p2, x),
    decreases p1.len(),
{
    if p1.len() == 0 {
        assert(p1 + p2 =~= p2);
    } else {
        let i = p1[0] as int;
        lemma_replaced_compose(a.children@[i]->Element_0, b.children@[i]->Element_0, p1.drop_first(), m, p2, x);
        assert((p1 + p2).drop_first() =~= p1.drop_first() + p2);
        assert((p1 + p2)[0] == p1[0]);
    }
}

/// Following a joined path is following its parts in turn.
pub proof fn lemma_at_path_concat(a: Element, p1: Seq<usize>, p2: Seq<usize>)
    requires
        valid_path(a, p1),
    ensures
        valid_path(a, p1 + p2) == valid_path(at_path(a, p1), p2),
        at_path(a, p1 + p2) == at_path(at_path(a, p1), p2),
    decreases p1.len(),
{
    if p1.len() == 0 {
        assert(p1 + p2 =~= p2);
    } else {
        lemma_at_path_concat(a.children@[p1[0] as int]->Element_0, p1.drop_first(), p2);
        assert((p1 + p2).drop_first() =~= p1.drop_first() + p2);
        assert((p1 + p2)[0] == p1[0]);
    }
}

impl Document {
    /// Mutable access to the element at path `p` below the root.
    pub fn element_at_mut(&mut self, p: &Vec<usize>) -> (r: Option<&mut Element>)
        requires
            doc_root(*old(self)) matches Some(root) && valid_path(root, p@),
        ensures
            r matches Some(x) && *x == at_path(doc_root(*old(self)).unwrap(), p@)
                && doc_replaced(*old(self), *final(self), p@, *final(x)),
    {
        proof { lemma_first_element_index(self.nodes@); }
        match self.root_mut() {
            Some(root) => {
                assert(p@.skip(0) =~= p@);
                descend_mut(root, p, 0)
            },
            None => None,
        }
    }
}


/// The element at path `p[k..]` below `e`.
pub fn element_at<'a>(e: &'a Element, p: &Vec<usize>, k: usize) -> (r: &'a Element)
    requires
        k <= p@.len(),
        valid_path(*e, p@.skip(k as int)),
    ensures
        *r == at_path(*e, p@.skip(k as int)),
    decreases p@.len() - k,
{
    if k == p.len() {
        assert(p@.skip(k as int) =~= Seq::<usize>::empty());
        return e;
    }
    let i = p[k];
    proof {
        assert(p@.skip(k as int)[0] == i);
        assert(p@.skip(k as int).drop_first() =~= p@.skip(k + 1));
    }
    match &e.children[i] {
        Node::Element(c) => element_at(c, p, k + 1),
        Node::Raw(_) => e,
    }
}

/// The first direct child of `e` named `local`, if any.
pub open spec fn first_child(e: Element, local: Seq<u8>) -> Option<Element> {
    let i = first_named_index(e.children@, local);
    if i >= 0 {
        Some(e.children@[i]->Element_0)
    } else {
        None
    }
}


// ─── Searches across an edit ────────────────────────────────────────────────

/// Whether a depth-first search reaches the end of path `q` no later than it
/// enters the element at path `p`: `q` leads to `p` or one of its ancestors,
/// or turns off to an earlier child where the two first differ.
pub open spec fn search_before(q: Seq<usize>, p: Seq<usize>) -> bool
    decreases q.len(),
{
    q.len() == 0 || (p.len() > 0 && (q[0] < p[0] || (q[0] == p[0] && search_before(q.drop_first(), p.drop_first()))))
}

pub proof fn lemma_search_before_prefix(q: Seq<usize>, r: Seq<usize>)
    ensures
        search_before(q, q + r),
    decreases q.len(),
{
    if q.len() > 0 {
        assert((q + r).drop_first() =~= q.drop_first() + r);
        assert((q + r)[0] == q[0]);
        lemma_search_before_prefix(q.drop_first(), r);
    }
}

/// An edit at a path leaves the path followable, ending at the new element.
pub proof fn lemma_replaced_valid(old: Element, new: Element, p: Seq<usize>, sub: Element)
    requires
        valid_path(old, p),
        replaced_at(old, new, p, sub),
    ensures
        valid_path(new, p),
        at_path(new, p) == sub,
    decreases p.len(),
{
    if p.len() > 0 {
        let i = p[0] as int;
        lemma_replaced_valid(old.children@[i]->Element_0, new.children@[i]->Element_0, p.drop_first(), sub);
    }
}

/// An edit at `p1 + p2` is, below `p1`, an edit at `p2`.
pub proof fn lemma_replaced_below(old: Element, new: Element, p1: Seq<usize>, p2: Seq<usize>, sub: Element)
    requires
        valid_path(old, p1),
        replaced_at(old, new, p1 + p2, sub),
    ensures
        valid_path(new, p1),
        replaced_at(at_path(old, p1), at_path(new, p1), p2, sub),
    decreases p1.len(),
{
    if p1.len() == 0 {
        assert(p1 + p2 =~= p2);
    } else {
        let i = p1[0] as int;
        assert((p1 + p2).drop_first() =~= p1.drop_first() + p2);
        assert((p1 + p2)[0] == p1[0]);
        lemma_replaced_below(old.children@[i]->Element_0, new.children@[i]->Element_0, p1.drop_first(), p2, sub);
    }
}

pub proof fn lemma_desc_path_from_start(e: Element, i: int, local: Seq<u8>)
    ensures
        desc_path_from(e, i, local) matches Some(q) ==> q.len() > 0 && q[0] >= i,
    decreases e.children@.len() - i,
{
    lemma_desc_path_from(e, i, local);
    if 0 <= i < e.children@.len() && i <= usize::MAX {
        match e.children@[i] {
            Node::Element(c) => {
                if c.local() != local && desc_path(c, local) is None {
                    lemma_desc_path_from_start(e, i + 1, local);
                }
            },
            Node::Raw(_) => {
                lemma_desc_path_from_start(e, i + 1, local);
            },
        }
    }
}

/// A search that in the old tree ends before the edited element finds the
/// same path in the edited tree, at an element with the same tags.
pub proof fn lemma_desc_path_stable(old: Element, new: Element, p: Seq<usize>, sub: Element, local: Seq<u8>)
    requires
        p.len() > 0,
        valid_path(old, p),
        replaced_at(old, new, p, sub),
        same_tags(at_path(old, p), sub),
        desc_path(old, local) matches Some(q) && search_before(q, p),
    ensures
        desc_path(new, local) == desc_path(old, local),
        valid_path(new, desc_path(old, local).unwrap()),
        same_tags(at_path(old, desc_path(old, local).unwrap()), at_path(new, desc_path(old, local).unwrap())),
    decreases old, old.children@.len() + 1,
{
    lemma_desc_path_from_stable(old, new, p, sub, local, 0);
}

pub proof fn lemma_desc_path_from_stable(old: Element, new: Element, p: Seq<usize>, sub: Element, local: Seq<u8>, i: int)
    requires
        p.len() > 0,
        0 <= i <= p[0],
        valid_path(old, p),
        replaced_at(old, new, p, sub),
        same_tags(at_path(old, p), sub),
        desc_path_from(old, i, local) matches Some(q) && search_before(q, p),
    ensures
        desc_path_from(new, i, local) == desc_path_from(old, i, local),
        valid_path(new, desc_path_from(old, i, local).unwrap()),
        same_tags(
            at_path(old, desc_path_from(old, i, local).unwrap()),
            at_path(new, desc_path_from(old, i, local).unwrap()),
        ),
    decreases old, old.children@.len() - i,
{
    let q = desc_path_from(old, i, local).unwrap();
    let pi = p[0] as int;
    lemma_desc_path_from(old, i, local);
    if i < pi {
        assert(new.children@[i] == old.children@[i]);
        match old.children@[i] {
            Node::Element(c) => {
                if c.local() == local {
                    assert(q == seq![i as usize]);
                    assert(q.drop_first() =~= Seq::<usize>::empty());
                } else {
                    lemma_desc_path(c, local);
                    match desc_path(c, local) {
                        Some(r) => {
                            assert(q == seq![i as usize] + r);
                            assert(q.drop_first() =~= r);
                            assert(q[0] as int == i);
                        },
                        None => {
                            lemma_desc_path_from_stable(old, new, p, sub, local, i + 1);
                        },
                    }
                }
            },
            Node::Raw(_) => {
                lemma_desc_path_from_stable(old, new, p, sub, local, i + 1);
            },
        }
    } else {
        let rest = p.drop_first();
        match old.children@[i] {
            Node::Element(c) => {
                let cn = new.children@[i]->Element_0;
                assert(i == pi);
                assert(replaced_at(c, cn, rest, sub));
                assert(same_tags(c, cn)) by {
                    if rest.len() > 0 {
                        assert(same_tags(c, cn));
                    } else {
                        assert(at_path(c, rest) == c);
                        assert(cn == sub);
                    }
                }
                if c.local() == local {
                    assert(q == seq![i as usize]);
                    assert(q.drop_first() =~= Seq::<usize>::empty());
                    assert(at_path(c, q.drop_first()) == c);
                    assert(at_path(cn, q.drop_first()) == cn);
                    assert(valid_path(cn, q.drop_first()));
                } else {
                    lemma_desc_path(c, local);
                    match desc_path(c, local) {
                        Some(r) => {
                            assert(q == seq![i as usize] + r);
                            assert(q.drop_first() =~= r);
                            assert(q[0] as int == i);
                            assert(search_before(r, rest));
                            assert(rest.len() > 0);
                            assert(at_path(c, rest) == at_path(old, p));
                            lemma_desc_path_stable(c, cn, rest, sub, local);
                        },
                        None => {
                            lemma_desc_path_from_start(old, i + 1, local);
                            assert(q[0] >= i + 1);
                            assert(false);
                        },
                    }
                }
            },
            Node::Raw(_) => {
                assert(false);
            },
        }
    }
}

/// An edit below the root keeps the root's place among the document's nodes.
pub proof fn lemma_doc_replaced_root(old: Document, new: Document, p: Seq<usize>, sub: Element)
    requires
        doc_replaced(old, new, p, sub),
    ensures
        doc_root(old) is Some,
        doc_root(new) is Some,
        replaced_at(doc_root(old).unwrap(), doc_root(new).unwrap(), p, sub),
{
    let i = first_element_index(old.nodes@);
    lemma_first_element_index(old.nodes@);
    lemma_first_element_index(new.nodes@);
    let j = first_element_index(new.nodes@);
    if j < i {
        if j >= 0 {
            assert(new.nodes@[j] == old.nodes@[j]);
        } else {
            assert(new.nodes@[i] is Element);
        }
    }
    if j > i {
        assert(new.nodes@[i] is Raw);
    }
    assert(j == i);
}

} // verus!
