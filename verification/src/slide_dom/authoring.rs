//! New shapes: text boxes, preset shapes, connectors, freeforms and shapes
//! inside groups. Each is written as markup, read back with the document
//! parser, and appended; the shapes already there are not touched.

use vstd::prelude::*;
use vstd::utf8::encode_utf8;
use crate::error::OxmlError;
use crate::numbers::parse_unsigned;
use crate::text::{dec_int, dec_i64, dec_nat, dec_u64, from_utf8_lossy, push_str, string_of};
use crate::xml::{
    at_path, attr_value, is_named, doc_replaced, element_at, valid_path, escape_chars, escape_public, first_element, first_element_index,
    elem_v, first_parsed, fragment_parses, lemma_first_element_index, lemma_nodes_v_index, nodes_bytes, nodes_v,
    same_tags, Document, Element, Node, NodeV,
};
use super::{
    connector_prst, custgeom_text, doc_at, find_tree_child_path, find_tree_path, kind_drawable, message,
    tree_child_path, tree_path, ConnectorAnchor, ConnectorType, FreeformPath, SlideDom,
};

verus! {

// ─── Shape ids ──────────────────────────────────────────────────────────────

/// The id a `cNvPr` element declares, when it is one and the id is a valid
/// `u32`.
pub open spec fn cnvpr_id(e: Element) -> Option<nat> {
    if e.local() == /* cNvPr */ seq![99u8, 78u8, 118u8, 80u8, 114u8] {
        match attr_value(e, /* id */ seq![105u8, 100u8]) {
            Some(v) => parse_unsigned(v, u32::MAX as nat),
            None => None,
        }
    } else {
        None
    }
}

/// The largest of `m` and the ids declared in the subtree of `e`.
pub open spec fn max_id_el(e: Element, m: nat) -> nat
    decreases e,
{
    let m1 = match cnvpr_id(e) {
        Some(n) => if n > m { n } else { m },
        None => m,
    };
    max_id_nodes(e.children@, m1)
}

/// The largest of `m` and the ids declared in the subtrees of `ns`.
pub open spec fn max_id_nodes(ns: Seq<Node>, m: nat) -> nat
    decreases ns,
{
    if ns.len() == 0 {
        m
    } else {
        let m1 = max_id_nodes(ns.drop_last(), m);
        match ns.last() {
            Node::Element(e) => max_id_el(e, m1),
            Node::Raw(_) => m1,
        }
    }
}

proof fn lemma_max_el_ge(e: Element, m: nat)
    ensures
        max_id_el(e, m) >= m,
    decreases e,
{
    let m1 = match cnvpr_id(e) {
        Some(n) => if n > m { n } else { m },
        None => m,
    };
    lemma_max_nodes_ge(e.children@, m1);
}

proof fn lemma_max_nodes_ge(ns: Seq<Node>, m: nat)
    ensures
        max_id_nodes(ns, m) >= m,
    decreases ns,
{
    if ns.len() > 0 {
        lemma_max_nodes_ge(ns.drop_last(), m);
        match ns.last() {
            Node::Element(e) => lemma_max_el_ge(e, max_id_nodes(ns.drop_last(), m)),
            Node::Raw(_) => {},
        }
    }
}

/// The largest id among nodes covers that of the subtree of each element
/// among them, started from what comes before it.
proof fn lemma_max_nodes_covers(ns: Seq<Node>, m: nat, i: int)
    requires
        0 <= i < ns.len(),
        ns[i] is Element,
    ensures
        max_id_nodes(ns, m) >= max_id_el(ns[i]->Element_0, max_id_nodes(ns.take(i), m)),
    decreases ns.len(),
{
    if i == ns.len() - 1 {
        assert(ns.take(i) =~= ns.drop_last());
    } else {
        lemma_max_nodes_covers(ns.drop_last(), m, i);
        assert(ns.drop_last().take(i) =~= ns.take(i));
        assert(ns.drop_last()[i] == ns[i]);
        match ns.last() {
            Node::Element(e) => lemma_max_el_ge(e, max_id_nodes(ns.drop_last(), m)),
            Node::Raw(_) => {},
        }
    }
}

/// Every id declared in the subtree of `e` is at most `max_id_el(e, m)`.
proof fn lemma_ids_below(e: Element, m: nat, q: Seq<usize>)
    requires
        valid_path(e, q),
    ensures
        cnvpr_id(at_path(e, q)) matches Some(n) ==> n <= max_id_el(e, m),
    decreases q.len(),
{
    let m1 = match cnvpr_id(e) {
        Some(n) => if n > m { n } else { m },
        None => m,
    };
    lemma_max_nodes_ge(e.children@, m1);
    if q.len() > 0 {
        let i = q[0] as int;
        let c = e.children@[i]->Element_0;
        let x = max_id_nodes(e.children@.take(i), m1);
        lemma_ids_below(c, x, q.drop_first());
        lemma_max_nodes_covers(e.children@, m1, i);
    }
}

/// A new shape's id is unused: it is larger than every id declared anywhere
/// in the shape tree.
pub proof fn lemma_next_id_unused(d: Document, q: Seq<usize>)
    requires
        tree_path(d) matches Some(tp) && valid_path(doc_at(d, tp), q),
    ensures
        cnvpr_id(at_path(doc_at(d, tree_path(d).unwrap()), q)) matches Some(n) ==> n < next_id_of(d),
{
    lemma_ids_below(doc_at(d, tree_path(d).unwrap()), 1, q);
}

/// The id a new shape gets: one more than the largest id declared in the
/// shape tree (at least 1, the tree's own).
pub open spec fn next_id_of(d: Document) -> nat {
    match tree_path(d) {
        Some(tp) => max_id_el(doc_at(d, tp), 1) + 1,
        None => 2,
    }
}

fn collect_max_id(e: &Element, max: &mut u32)
    ensures
        *final(max) as nat == max_id_el(*e, *old(max) as nat),
    decreases *e,
{
    let cn: [u8; 5] = /* cNvPr */ [99u8, 78u8, 118u8, 80u8, 114u8];
    let idn: [u8; 2] = /* id */ [105u8, 100u8];
    assert(cn@ =~= /* cNvPr */ seq![99u8, 78u8, 118u8, 80u8, 114u8]);
    assert(idn@ =~= /* id */ seq![105u8, 100u8]);
    if e.is_named(cn.as_slice()) {
        match e.attr(idn.as_slice()) {
            Some(v) => match crate::numbers::parse_u32(v) {
                Some(id) => {
                    if id > *max {
                        *max = id;
                    }
                },
                None => {},
            },
            None => {},
        }
    }
    let ghost m1 = *max as nat;
    let mut i: usize = 0;
    while i < e.children.len()
        invariant
            i <= e.children@.len(),
            *max as nat == max_id_nodes(e.children@.take(i as int), m1),
        decreases e.children@.len() - i,
    {
        proof {
            assert(e.children@.take(i + 1).drop_last() =~= e.children@.take(i as int));
        }
        match &e.children[i] {
            Node::Element(c) => {
                collect_max_id(c, max);
            },
            Node::Raw(_) => {},
        }
        i = i + 1;
    }
    assert(e.children@.take(e.children@.len() as int) =~= e.children@);
}

impl SlideDom {
    /// The id for a new shape.
    fn next_shape_id(&self) -> (r: u32)
        requires
            next_id_of(self.document()) <= u32::MAX,
        ensures
            r == next_id_of(self.document()),
    {
        let mut max: u32 = 1;
        match find_tree_path(&self.doc) {
            Some(p) => {
                let root = self.doc.root().unwrap();
                assert(p@.skip(0) =~= p@);
                let tree = element_at(root, &p, 0);
                collect_max_id(tree, &mut max);
            },
            None => {},
        }
        max + 1
    }
}

// ─── Authored markup ────────────────────────────────────────────────────────

/// `<a:xfrm>` with an offset and an extent.
pub open spec fn xfrm_xml(x: i64, y: i64, cx: i64, cy: i64) -> Seq<char> {
    /* <a:xfrm><a:off x=\" */ seq!['<', 'a', ':', 'x', 'f', 'r', 'm', '>', '<', 'a', ':', 'o', 'f', 'f', ' ', 'x', '=', '"'] + dec_int(x as int) + /* \" y=\" */ seq!['"', ' ', 'y', '=', '"'] + dec_int(y as int) + /* \"/><a:ext cx=\" */ seq!['"', '/', '>', '<', 'a', ':', 'e', 'x', 't', ' ', 'c', 'x', '=', '"']
        + dec_int(cx as int) + /* \" cy=\" */ seq!['"', ' ', 'c', 'y', '=', '"'] + dec_int(cy as int) + /* \"/></a:xfrm> */ seq!['"', '/', '>', '<', '/', 'a', ':', 'x', 'f', 'r', 'm', '>']
}

/// The non-visual properties head of a shape: `<p:cNvPr id=".." name="{kind} {id}"/>`.
pub open spec fn cnvpr_xml(id: nat, kind: Seq<char>) -> Seq<char> {
    /* <p:cNvPr id=\" */ seq!['<', 'p', ':', 'c', 'N', 'v', 'P', 'r', ' ', 'i', 'd', '=', '"'] + dec_nat(id) + /* \" name=\" */ seq!['"', ' ', 'n', 'a', 'm', 'e', '=', '"'] + kind + /*   */ seq![' '] + dec_nat(id) + /* \"/> */ seq!['"', '/', '>']
}

/// A text box holding one paragraph of `text`.
pub open spec fn text_box_xml(id: nat, text: Seq<char>, x: i64, y: i64, cx: i64, cy: i64) -> Seq<char> {
    /* <p:sp><p:nvSpPr> */ seq!['<', 'p', ':', 's', 'p', '>', '<', 'p', ':', 'n', 'v', 'S', 'p', 'P', 'r', '>'] + cnvpr_xml(id, /* TextBox */ seq!['T', 'e', 'x', 't', 'B', 'o', 'x']) + /* <p:cNvSpPr txBox=\"1\"/><p:nvPr/></p:nvSpPr><p:spPr> */ seq!['<', 'p', ':', 'c', 'N', 'v', 'S', 'p', 'P', 'r', ' ', 't', 'x', 'B', 'o', 'x', '=', '"', '1', '"', '/', '>', '<', 'p', ':', 'n', 'v', 'P', 'r', '/', '>', '<', '/', 'p', ':', 'n', 'v', 'S', 'p', 'P', 'r', '>', '<', 'p', ':', 's', 'p', 'P', 'r', '>']
        + xfrm_xml(x, y, cx, cy) + /* <a:prstGeom prst=\"rect\"><a:avLst/></a:prstGeom></p:spPr><p:txBody><a:bodyPr/><a:lstStyle/><a:p><a:r><a:t> */ seq!['<', 'a', ':', 'p', 'r', 's', 't', 'G', 'e', 'o', 'm', ' ', 'p', 'r', 's', 't', '=', '"', 'r', 'e', 'c', 't', '"', '>', '<', 'a', ':', 'a', 'v', 'L', 's', 't', '/', '>', '<', '/', 'a', ':', 'p', 'r', 's', 't', 'G', 'e', 'o', 'm', '>', '<', '/', 'p', ':', 's', 'p', 'P', 'r', '>', '<', 'p', ':', 't', 'x', 'B', 'o', 'd', 'y', '>', '<', 'a', ':', 'b', 'o', 'd', 'y', 'P', 'r', '/', '>', '<', 'a', ':', 'l', 's', 't', 'S', 't', 'y', 'l', 'e', '/', '>', '<', 'a', ':', 'p', '>', '<', 'a', ':', 'r', '>', '<', 'a', ':', 't', '>']
        + escape_chars(text) + /* </a:t></a:r></a:p></p:txBody></p:sp> */ seq!['<', '/', 'a', ':', 't', '>', '<', '/', 'a', ':', 'r', '>', '<', '/', 'a', ':', 'p', '>', '<', '/', 'p', ':', 't', 'x', 'B', 'o', 'd', 'y', '>', '<', '/', 'p', ':', 's', 'p', '>']
}

/// A preset shape (named `Shape {id}`) with an empty text body.
pub open spec fn preset_shape_xml(id: nat, prst: Seq<char>, x: i64, y: i64, cx: i64, cy: i64) -> Seq<char> {
    /* <p:sp><p:nvSpPr> */ seq!['<', 'p', ':', 's', 'p', '>', '<', 'p', ':', 'n', 'v', 'S', 'p', 'P', 'r', '>'] + cnvpr_xml(id, /* Shape */ seq!['S', 'h', 'a', 'p', 'e']) + /* <p:cNvSpPr/><p:nvPr/></p:nvSpPr><p:spPr> */ seq!['<', 'p', ':', 'c', 'N', 'v', 'S', 'p', 'P', 'r', '/', '>', '<', 'p', ':', 'n', 'v', 'P', 'r', '/', '>', '<', '/', 'p', ':', 'n', 'v', 'S', 'p', 'P', 'r', '>', '<', 'p', ':', 's', 'p', 'P', 'r', '>'] + xfrm_xml(
        x,
        y,
        cx,
        cy,
    ) + /* <a:prstGeom prst=\" */ seq!['<', 'a', ':', 'p', 'r', 's', 't', 'G', 'e', 'o', 'm', ' ', 'p', 'r', 's', 't', '=', '"'] + prst + /* \"><a:avLst/></a:prstGeom></p:spPr><p:txBody><a:bodyPr/><a:lstStyle/><a:p/></p:txBody></p:sp> */ seq!['"', '>', '<', 'a', ':', 'a', 'v', 'L', 's', 't', '/', '>', '<', '/', 'a', ':', 'p', 'r', 's', 't', 'G', 'e', 'o', 'm', '>', '<', '/', 'p', ':', 's', 'p', 'P', 'r', '>', '<', 'p', ':', 't', 'x', 'B', 'o', 'd', 'y', '>', '<', 'a', ':', 'b', 'o', 'd', 'y', 'P', 'r', '/', '>', '<', 'a', ':', 'l', 's', 't', 'S', 't', 'y', 'l', 'e', '/', '>', '<', 'a', ':', 'p', '/', '>', '<', '/', 'p', ':', 't', 'x', 'B', 'o', 'd', 'y', '>', '<', '/', 'p', ':', 's', 'p', '>']
}

/// A freeform shape with the given custom geometry markup.
pub open spec fn freeform_xml(id: nat, geom: Seq<char>, x: i64, y: i64, cx: i64, cy: i64) -> Seq<char> {
    /* <p:sp><p:nvSpPr> */ seq!['<', 'p', ':', 's', 'p', '>', '<', 'p', ':', 'n', 'v', 'S', 'p', 'P', 'r', '>'] + cnvpr_xml(id, /* Freeform */ seq!['F', 'r', 'e', 'e', 'f', 'o', 'r', 'm']) + /* <p:cNvSpPr/><p:nvPr/></p:nvSpPr><p:spPr> */ seq!['<', 'p', ':', 'c', 'N', 'v', 'S', 'p', 'P', 'r', '/', '>', '<', 'p', ':', 'n', 'v', 'P', 'r', '/', '>', '<', '/', 'p', ':', 'n', 'v', 'S', 'p', 'P', 'r', '>', '<', 'p', ':', 's', 'p', 'P', 'r', '>'] + xfrm_xml(
        x,
        y,
        cx,
        cy,
    ) + geom + /* </p:spPr><p:txBody><a:bodyPr/><a:lstStyle/><a:p/></p:txBody></p:sp> */ seq!['<', '/', 'p', ':', 's', 'p', 'P', 'r', '>', '<', 'p', ':', 't', 'x', 'B', 'o', 'd', 'y', '>', '<', 'a', ':', 'b', 'o', 'd', 'y', 'P', 'r', '/', '>', '<', 'a', ':', 'l', 's', 't', 'S', 't', 'y', 'l', 'e', '/', '>', '<', 'a', ':', 'p', '/', '>', '<', '/', 'p', ':', 't', 'x', 'B', 'o', 'd', 'y', '>', '<', '/', 'p', ':', 's', 'p', '>']
}

/// A picture shape showing the image of relationship `r_id`.
pub open spec fn picture_xml(id: nat, name: Seq<char>, r_id: Seq<char>, x: i64, y: i64, cx: i64, cy: i64) -> Seq<char> {
    /* <p:pic><p:nvPicPr><p:cNvPr id=\" */ seq!['<', 'p', ':', 'p', 'i', 'c', '>', '<', 'p', ':', 'n', 'v', 'P', 'i', 'c', 'P', 'r', '>', '<', 'p', ':', 'c', 'N', 'v', 'P', 'r', ' ', 'i', 'd', '=', '"'] + dec_nat(id) + /* \" name=\" */ seq!['"', ' ', 'n', 'a', 'm', 'e', '=', '"'] + escape_chars(name)
        + /* \"/><p:cNvPicPr><a:picLocks noChangeAspect=\"1\"/></p:cNvPicPr><p:nvPr/></p:nvPicPr><p:blipFill><a:blip r:embed=\" */ seq!['"', '/', '>', '<', 'p', ':', 'c', 'N', 'v', 'P', 'i', 'c', 'P', 'r', '>', '<', 'a', ':', 'p', 'i', 'c', 'L', 'o', 'c', 'k', 's', ' ', 'n', 'o', 'C', 'h', 'a', 'n', 'g', 'e', 'A', 's', 'p', 'e', 'c', 't', '=', '"', '1', '"', '/', '>', '<', '/', 'p', ':', 'c', 'N', 'v', 'P', 'i', 'c', 'P', 'r', '>', '<', 'p', ':', 'n', 'v', 'P', 'r', '/', '>', '<', '/', 'p', ':', 'n', 'v', 'P', 'i', 'c', 'P', 'r', '>', '<', 'p', ':', 'b', 'l', 'i', 'p', 'F', 'i', 'l', 'l', '>', '<', 'a', ':', 'b', 'l', 'i', 'p', ' ', 'r', ':', 'e', 'm', 'b', 'e', 'd', '=', '"']
        + r_id + /* \"/><a:stretch><a:fillRect/></a:stretch></p:blipFill><p:spPr> */ seq!['"', '/', '>', '<', 'a', ':', 's', 't', 'r', 'e', 't', 'c', 'h', '>', '<', 'a', ':', 'f', 'i', 'l', 'l', 'R', 'e', 'c', 't', '/', '>', '<', '/', 'a', ':', 's', 't', 'r', 'e', 't', 'c', 'h', '>', '<', '/', 'p', ':', 'b', 'l', 'i', 'p', 'F', 'i', 'l', 'l', '>', '<', 'p', ':', 's', 'p', 'P', 'r', '>'] + xfrm_xml(x, y, cx, cy)
        + /* <a:prstGeom prst=\"rect\"><a:avLst/></a:prstGeom></p:spPr></p:pic> */ seq!['<', 'a', ':', 'p', 'r', 's', 't', 'G', 'e', 'o', 'm', ' ', 'p', 'r', 's', 't', '=', '"', 'r', 'e', 'c', 't', '"', '>', '<', 'a', ':', 'a', 'v', 'L', 's', 't', '/', '>', '<', '/', 'a', ':', 'p', 'r', 's', 't', 'G', 'e', 'o', 'm', '>', '<', '/', 'p', ':', 's', 'p', 'P', 'r', '>', '<', '/', 'p', ':', 'p', 'i', 'c', '>']
}

/// A connection end: `<a:{tag} id=".." idx=".."/>`.
pub open spec fn anchor_xml(tag: Seq<char>, a: ConnectorAnchor) -> Seq<char> {
    /* <a: */ seq!['<', 'a', ':'] + tag + /*  id=\" */ seq![' ', 'i', 'd', '=', '"'] + dec_nat(a.shape_id as nat) + /* \" idx=\" */ seq!['"', ' ', 'i', 'd', 'x', '=', '"'] + dec_nat(a.connection_idx as nat)
        + /* \"/> */ seq!['"', '/', '>']
}

/// The connector's non-visual connector properties, with its ends.
pub open spec fn cxn_props_xml(start: Option<ConnectorAnchor>, end: Option<ConnectorAnchor>) -> Seq<char> {
    let st = match start {
        Some(a) => anchor_xml(/* stCxn */ seq!['s', 't', 'C', 'x', 'n'], a),
        None => Seq::empty(),
    };
    let en = match end {
        Some(a) => anchor_xml(/* endCxn */ seq!['e', 'n', 'd', 'C', 'x', 'n'], a),
        None => Seq::empty(),
    };
    if start is None && end is None {
        /* <p:cNvCxnSpPr/> */ seq!['<', 'p', ':', 'c', 'N', 'v', 'C', 'x', 'n', 'S', 'p', 'P', 'r', '/', '>']
    } else {
        /* <p:cNvCxnSpPr> */ seq!['<', 'p', ':', 'c', 'N', 'v', 'C', 'x', 'n', 'S', 'p', 'P', 'r', '>'] + st + en + /* </p:cNvCxnSpPr> */ seq!['<', '/', 'p', ':', 'c', 'N', 'v', 'C', 'x', 'n', 'S', 'p', 'P', 'r', '>']
    }
}

/// A connector shape.
pub open spec fn connector_xml(
    id: nat,
    kind: ConnectorType,
    start: Option<ConnectorAnchor>,
    end: Option<ConnectorAnchor>,
    x: i64,
    y: i64,
    cx: i64,
    cy: i64,
) -> Seq<char> {
    /* <p:cxnSp><p:nvCxnSpPr> */ seq!['<', 'p', ':', 'c', 'x', 'n', 'S', 'p', '>', '<', 'p', ':', 'n', 'v', 'C', 'x', 'n', 'S', 'p', 'P', 'r', '>'] + cnvpr_xml(id, /* Connector */ seq!['C', 'o', 'n', 'n', 'e', 'c', 't', 'o', 'r']) + cxn_props_xml(start, end)
        + /* <p:nvPr/></p:nvCxnSpPr><p:spPr> */ seq!['<', 'p', ':', 'n', 'v', 'P', 'r', '/', '>', '<', '/', 'p', ':', 'n', 'v', 'C', 'x', 'n', 'S', 'p', 'P', 'r', '>', '<', 'p', ':', 's', 'p', 'P', 'r', '>'] + xfrm_xml(x, y, cx, cy) + /* <a:prstGeom prst=\" */ seq!['<', 'a', ':', 'p', 'r', 's', 't', 'G', 'e', 'o', 'm', ' ', 'p', 'r', 's', 't', '=', '"'] + connector_prst(
        kind,
    ) + /* \"><a:avLst/></a:prstGeom></p:spPr></p:cxnSp> */ seq!['"', '>', '<', 'a', ':', 'a', 'v', 'L', 's', 't', '/', '>', '<', '/', 'a', ':', 'p', 'r', 's', 't', 'G', 'e', 'o', 'm', '>', '<', '/', 'p', ':', 's', 'p', 'P', 'r', '>', '<', '/', 'p', ':', 'c', 'x', 'n', 'S', 'p', '>']
}

/// `e` is what the parser made of the markup `src`: the first element of a
/// node list written as exactly `src`.
pub open spec fn parsed_from(e: Element, src: Seq<u8>) -> bool {
    &&& exists|ns: Seq<Node>| nodes_bytes(ns) == src && #[trigger] first_element(ns) == Some(e)
    &&& first_parsed(src, e)
}

/// `new` is `old` with the first element of the markup `src` appended to
/// its shape tree; nothing else changed.
pub open spec fn appended_parsed(old: Document, new: Document, src: Seq<u8>) -> bool {
    tree_path(old) matches Some(tp) && {
        let t = doc_at(old, tp);
        exists|new_t: Element, e: Element| {
            &&& #[trigger] doc_replaced(old, new, tp, new_t)
            &&& same_tags(t, new_t)
            &&& new_t.children@ == t.children@.push(Node::Element(e))
            &&& #[trigger] parsed_from(e, src)
        }
    }
}

fn push_xfrm(out: &mut String, x: i64, y: i64, cx: i64, cy: i64)
    ensures
        final(out)@ == old(out)@ + xfrm_xml(x, y, cx, cy),
{
    proof { reveal_strlit("<a:xfrm><a:off x=\""); assert("<a:xfrm><a:off x=\""@ == /* <a:xfrm><a:off x=\" */ seq!['<', 'a', ':', 'x', 'f', 'r', 'm', '>', '<', 'a', ':', 'o', 'f', 'f', ' ', 'x', '=', '"']); } push_str(out, "<a:xfrm><a:off x=\"");
    let s = dec_i64(x);
    push_str(out, s.as_str());
    proof { reveal_strlit("\" y=\""); assert("\" y=\""@ == /* \" y=\" */ seq!['"', ' ', 'y', '=', '"']); } push_str(out, "\" y=\"");
    let s = dec_i64(y);
    push_str(out, s.as_str());
    proof { reveal_strlit("\"/><a:ext cx=\""); assert("\"/><a:ext cx=\""@ == /* \"/><a:ext cx=\" */ seq!['"', '/', '>', '<', 'a', ':', 'e', 'x', 't', ' ', 'c', 'x', '=', '"']); } push_str(out, "\"/><a:ext cx=\"");
    let s = dec_i64(cx);
    push_str(out, s.as_str());
    proof { reveal_strlit("\" cy=\""); assert("\" cy=\""@ == /* \" cy=\" */ seq!['"', ' ', 'c', 'y', '=', '"']); } push_str(out, "\" cy=\"");
    let s = dec_i64(cy);
    push_str(out, s.as_str());
    proof { reveal_strlit("\"/></a:xfrm>"); assert("\"/></a:xfrm>"@ == /* \"/></a:xfrm> */ seq!['"', '/', '>', '<', '/', 'a', ':', 'x', 'f', 'r', 'm', '>']); } push_str(out, "\"/></a:xfrm>");
    assert(out@ =~= old(out)@ + xfrm_xml(x, y, cx, cy));
}

fn push_cnvpr(out: &mut String, id: u32, kind: &str)
    ensures
        final(out)@ == old(out)@ + cnvpr_xml(id as nat, kind@),
{
    proof { reveal_strlit("<p:cNvPr id=\""); assert("<p:cNvPr id=\""@ == /* <p:cNvPr id=\" */ seq!['<', 'p', ':', 'c', 'N', 'v', 'P', 'r', ' ', 'i', 'd', '=', '"']); } push_str(out, "<p:cNvPr id=\"");
    let s = dec_u64(id as u64);
    push_str(out, s.as_str());
    proof { reveal_strlit("\" name=\""); assert("\" name=\""@ == /* \" name=\" */ seq!['"', ' ', 'n', 'a', 'm', 'e', '=', '"']); } push_str(out, "\" name=\"");
    push_str(out, kind);
    proof { reveal_strlit(" "); assert(" "@ == /*   */ seq![' ']); } push_str(out, " ");
    push_str(out, s.as_str());
    proof { reveal_strlit("\"/>"); assert("\"/>"@ == /* \"/> */ seq!['"', '/', '>']); } push_str(out, "\"/>");
    assert(out@ =~= old(out)@ + cnvpr_xml(id as nat, kind@));
}

fn push_anchor(out: &mut String, tag: &str, a: ConnectorAnchor)
    ensures
        final(out)@ == old(out)@ + anchor_xml(tag@, a),
{
    proof { reveal_strlit("<a:"); assert("<a:"@ == /* <a: */ seq!['<', 'a', ':']); } push_str(out, "<a:");
    push_str(out, tag);
    proof { reveal_strlit(" id=\""); assert(" id=\""@ == /*  id=\" */ seq![' ', 'i', 'd', '=', '"']); } push_str(out, " id=\"");
    let s = dec_u64(a.shape_id as u64);
    push_str(out, s.as_str());
    proof { reveal_strlit("\" idx=\""); assert("\" idx=\""@ == /* \" idx=\" */ seq!['"', ' ', 'i', 'd', 'x', '=', '"']); } push_str(out, "\" idx=\"");
    let s = dec_u64(a.connection_idx as u64);
    push_str(out, s.as_str());
    proof { reveal_strlit("\"/>"); assert("\"/>"@ == /* \"/> */ seq!['"', '/', '>']); } push_str(out, "\"/>");
    assert(out@ =~= old(out)@ + anchor_xml(tag@, a));
}

/// Parse authored markup and take its first element; the error when the
/// markup does not parse is the parser's, and `missing` when it holds no
/// element.
fn parse_fragment(xml: &String, missing: &str) -> (r: Result<Element, OxmlError>)
    ensures
        r is Ok <==> fragment_parses(encode_utf8(xml@)),
        r matches Ok(e) ==> parsed_from(e, encode_utf8(xml@)),
{
    let doc = match Document::parse(xml.as_str().as_bytes()) {
        Ok(d) => d,
        Err(e) => return Err(e),
    };
    let ghost ns = doc.nodes@;
    let i = match doc.root_index() {
        Some(i) => i,
        None => {
            proof {
                lemma_first_element_index(ns);
                lemma_nodes_v_index(ns);
                let vs = nodes_v(ns);
                assert forall|j: int| 0 <= j < vs.len() implies !(#[trigger] vs[j] is Elem) by {
                    assert(ns[j] is Raw);
                }
            }
            return Err(OxmlError::Parse(string_of(missing)));
        },
    };
    proof {
        lemma_first_element_index(ns);
        lemma_nodes_v_index(ns);
    }
    let mut nodes = doc.nodes;
    match nodes.remove(i) {
        Node::Element(e) => {
            assert(first_element(ns) == Some(e));
            proof {
                let vs = nodes_v(ns);
                assert(vs[i as int] == NodeV::Elem(elem_v(e)));
                assert forall|j: int| 0 <= j < i implies vs[j] is RawV by {
                    assert(ns[j] is Raw);
                }
                assert(first_parsed(encode_utf8(xml@), e));
                assert(fragment_parses(encode_utf8(xml@)));
            }
            Ok(e)
        },
        Node::Raw(_) => Err(OxmlError::Parse(string_of(missing))),
    }
}

impl SlideDom {
    /// Parse the markup and append its first element to the shape tree,
    /// answering `id`.
    fn add_parsed(&mut self, xml: &String, missing: &str, id: u32) -> (r: Result<u32, OxmlError>)
        ensures
            r is Ok <==> (tree_path(old(self).document()) is Some && fragment_parses(encode_utf8(xml@))),
            r is Err ==> final(self).document() == old(self).document(),
            r matches Ok(i) ==> i == id && appended_parsed(old(self).document(), final(self).document(), encode_utf8(xml@)),
    {
        let e = match parse_fragment(xml, missing) {
            Ok(e) => e,
            Err(err) => return Err(err),
        };
        let p = match find_tree_path(&self.doc) {
            Some(p) => p,
            None => return Err(OxmlError::Parse(string_of("slide has no spTree"))),
        };
        let ghost ge = e;
        let ghost old_t = doc_at(self.doc, p@);
        let tree = self.doc.element_at_mut(&p).unwrap();
        tree.children.push(Node::Element(e));
        let ghost new_t = *tree;
        proof {
            assert(self.document() == self.doc);
            assert(old(self).document() == old(self).doc);
            let tp = tree_path(old(self).document()).unwrap();
            assert(tp == p@);
            assert(old_t == doc_at(old(self).document(), tp));
            assert(doc_replaced(old(self).document(), self.document(), tp, new_t));
            assert(parsed_from(ge, encode_utf8(xml@)));
            assert(new_t.children@ == old_t.children@.push(Node::Element(ge)));
        }
        Ok(id)
    }

    /// Append a text box (a non-placeholder `p:sp`) at the given position and
    /// size in EMU, holding one paragraph of `text`; returns its id, one more
    /// than the largest id on the slide. Fails, changing nothing, when there
    /// is no shape tree or the markup does not parse.
    pub fn add_text_box(&mut self, text: &str, x: i64, y: i64, cx: i64, cy: i64) -> (r: Result<u32, OxmlError>)
        requires
            next_id_of(old(self).document()) <= u32::MAX,
        ensures
            r is Ok <==> (tree_path(old(self).document()) is Some && fragment_parses(
                encode_utf8(text_box_xml(next_id_of(old(self).document()) as nat, text@, x, y, cx, cy)),
            )),
            r is Err ==> final(self).document() == old(self).document(),
            r matches Ok(id) ==> id == next_id_of(old(self).document()) && appended_parsed(
                old(self).document(),
                final(self).document(),
                encode_utf8(text_box_xml(id as nat, text@, x, y, cx, cy)),
            ),
    {
        let id = self.next_shape_id();
        let mut xml = String::new();
        proof { reveal_strlit("<p:sp><p:nvSpPr>"); assert("<p:sp><p:nvSpPr>"@ == /* <p:sp><p:nvSpPr> */ seq!['<', 'p', ':', 's', 'p', '>', '<', 'p', ':', 'n', 'v', 'S', 'p', 'P', 'r', '>']); } push_str(&mut xml, "<p:sp><p:nvSpPr>");
        push_cnvpr(&mut xml, id, "TextBox");
        proof { reveal_strlit("<p:cNvSpPr txBox=\"1\"/><p:nvPr/></p:nvSpPr><p:spPr>"); assert("<p:cNvSpPr txBox=\"1\"/><p:nvPr/></p:nvSpPr><p:spPr>"@ == /* <p:cNvSpPr txBox=\"1\"/><p:nvPr/></p:nvSpPr><p:spPr> */ seq!['<', 'p', ':', 'c', 'N', 'v', 'S', 'p', 'P', 'r', ' ', 't', 'x', 'B', 'o', 'x', '=', '"', '1', '"', '/', '>', '<', 'p', ':', 'n', 'v', 'P', 'r', '/', '>', '<', '/', 'p', ':', 'n', 'v', 'S', 'p', 'P', 'r', '>', '<', 'p', ':', 's', 'p', 'P', 'r', '>']); } push_str(&mut xml, "<p:cNvSpPr txBox=\"1\"/><p:nvPr/></p:nvSpPr><p:spPr>");
        push_xfrm(&mut xml, x, y, cx, cy);
        proof { reveal_strlit("<a:prstGeom prst=\"rect\"><a:avLst/></a:prstGeom></p:spPr><p:txBody><a:bodyPr/><a:lstStyle/><a:p><a:r><a:t>"); assert("<a:prstGeom prst=\"rect\"><a:avLst/></a:prstGeom></p:spPr><p:txBody><a:bodyPr/><a:lstStyle/><a:p><a:r><a:t>"@ == /* <a:prstGeom prst=\"rect\"><a:avLst/></a:prstGeom></p:spPr><p:txBody><a:bodyPr/><a:lstStyle/><a:p><a:r><a:t> */ seq!['<', 'a', ':', 'p', 'r', 's', 't', 'G', 'e', 'o', 'm', ' ', 'p', 'r', 's', 't', '=', '"', 'r', 'e', 'c', 't', '"', '>', '<', 'a', ':', 'a', 'v', 'L', 's', 't', '/', '>', '<', '/', 'a', ':', 'p', 'r', 's', 't', 'G', 'e', 'o', 'm', '>', '<', '/', 'p', ':', 's', 'p', 'P', 'r', '>', '<', 'p', ':', 't', 'x', 'B', 'o', 'd', 'y', '>', '<', 'a', ':', 'b', 'o', 'd', 'y', 'P', 'r', '/', '>', '<', 'a', ':', 'l', 's', 't', 'S', 't', 'y', 'l', 'e', '/', '>', '<', 'a', ':', 'p', '>', '<', 'a', ':', 'r', '>', '<', 'a', ':', 't', '>']); } push_str(&mut xml, "<a:prstGeom prst=\"rect\"><a:avLst/></a:prstGeom></p:spPr><p:txBody><a:bodyPr/><a:lstStyle/><a:p><a:r><a:t>");
        let esc = escape_public(text);
        push_str(&mut xml, esc.as_str());
        proof { reveal_strlit("</a:t></a:r></a:p></p:txBody></p:sp>"); assert("</a:t></a:r></a:p></p:txBody></p:sp>"@ == /* </a:t></a:r></a:p></p:txBody></p:sp> */ seq!['<', '/', 'a', ':', 't', '>', '<', '/', 'a', ':', 'r', '>', '<', '/', 'a', ':', 'p', '>', '<', '/', 'p', ':', 't', 'x', 'B', 'o', 'd', 'y', '>', '<', '/', 'p', ':', 's', 'p', '>']); } push_str(&mut xml, "</a:t></a:r></a:p></p:txBody></p:sp>");
        proof { reveal_strlit("TextBox"); }
        assert(xml@ =~= text_box_xml(id as nat, text@, x, y, cx, cy));
        self.add_parsed(&xml, "authored sp did not parse", id)
    }

    /// Append a picture (`p:pic`) showing the image of relationship `r_id`,
    /// named `name`, at the given position and size in EMU; returns its id.
    /// The media part and the relationship are the caller's. Fails, changing
    /// nothing, when there is no shape tree or the markup does not parse.
    pub fn insert_picture(&mut self, x: i64, y: i64, cx: i64, cy: i64, r_id: &str, name: &str) -> (r: Result<u32, OxmlError>)
        requires
            next_id_of(old(self).document()) <= u32::MAX,
        ensures
            r is Ok <==> (tree_path(old(self).document()) is Some && fragment_parses(
                encode_utf8(picture_xml(next_id_of(old(self).document()) as nat, name@, r_id@, x, y, cx, cy)),
            )),
            r is Err ==> final(self).document() == old(self).document(),
            r matches Ok(id) ==> id == next_id_of(old(self).document()) && appended_parsed(
                old(self).document(),
                final(self).document(),
                encode_utf8(picture_xml(id as nat, name@, r_id@, x, y, cx, cy)),
            ),
    {
        let id = self.next_shape_id();
        let mut xml = String::new();
        proof { reveal_strlit("<p:pic><p:nvPicPr><p:cNvPr id=\""); assert("<p:pic><p:nvPicPr><p:cNvPr id=\""@ == /* <p:pic><p:nvPicPr><p:cNvPr id=\" */ seq!['<', 'p', ':', 'p', 'i', 'c', '>', '<', 'p', ':', 'n', 'v', 'P', 'i', 'c', 'P', 'r', '>', '<', 'p', ':', 'c', 'N', 'v', 'P', 'r', ' ', 'i', 'd', '=', '"']); } push_str(&mut xml, "<p:pic><p:nvPicPr><p:cNvPr id=\"");
        let s = dec_u64(id as u64);
        push_str(&mut xml, s.as_str());
        proof { reveal_strlit("\" name=\""); assert("\" name=\""@ == /* \" name=\" */ seq!['"', ' ', 'n', 'a', 'm', 'e', '=', '"']); } push_str(&mut xml, "\" name=\"");
        let esc = escape_public(name);
        push_str(&mut xml, esc.as_str());
        proof { reveal_strlit("\"/><p:cNvPicPr><a:picLocks noChangeAspect=\"1\"/></p:cNvPicPr><p:nvPr/></p:nvPicPr><p:blipFill><a:blip r:embed=\""); assert("\"/><p:cNvPicPr><a:picLocks noChangeAspect=\"1\"/></p:cNvPicPr><p:nvPr/></p:nvPicPr><p:blipFill><a:blip r:embed=\""@ == /* \"/><p:cNvPicPr><a:picLocks noChangeAspect=\"1\"/></p:cNvPicPr><p:nvPr/></p:nvPicPr><p:blipFill><a:blip r:embed=\" */ seq!['"', '/', '>', '<', 'p', ':', 'c', 'N', 'v', 'P', 'i', 'c', 'P', 'r', '>', '<', 'a', ':', 'p', 'i', 'c', 'L', 'o', 'c', 'k', 's', ' ', 'n', 'o', 'C', 'h', 'a', 'n', 'g', 'e', 'A', 's', 'p', 'e', 'c', 't', '=', '"', '1', '"', '/', '>', '<', '/', 'p', ':', 'c', 'N', 'v', 'P', 'i', 'c', 'P', 'r', '>', '<', 'p', ':', 'n', 'v', 'P', 'r', '/', '>', '<', '/', 'p', ':', 'n', 'v', 'P', 'i', 'c', 'P', 'r', '>', '<', 'p', ':', 'b', 'l', 'i', 'p', 'F', 'i', 'l', 'l', '>', '<', 'a', ':', 'b', 'l', 'i', 'p', ' ', 'r', ':', 'e', 'm', 'b', 'e', 'd', '=', '"']); } push_str(&mut xml, "\"/><p:cNvPicPr><a:picLocks noChangeAspect=\"1\"/></p:cNvPicPr><p:nvPr/></p:nvPicPr><p:blipFill><a:blip r:embed=\"");
        push_str(&mut xml, r_id);
        proof { reveal_strlit("\"/><a:stretch><a:fillRect/></a:stretch></p:blipFill><p:spPr>"); assert("\"/><a:stretch><a:fillRect/></a:stretch></p:blipFill><p:spPr>"@ == /* \"/><a:stretch><a:fillRect/></a:stretch></p:blipFill><p:spPr> */ seq!['"', '/', '>', '<', 'a', ':', 's', 't', 'r', 'e', 't', 'c', 'h', '>', '<', 'a', ':', 'f', 'i', 'l', 'l', 'R', 'e', 'c', 't', '/', '>', '<', '/', 'a', ':', 's', 't', 'r', 'e', 't', 'c', 'h', '>', '<', '/', 'p', ':', 'b', 'l', 'i', 'p', 'F', 'i', 'l', 'l', '>', '<', 'p', ':', 's', 'p', 'P', 'r', '>']); } push_str(&mut xml, "\"/><a:stretch><a:fillRect/></a:stretch></p:blipFill><p:spPr>");
        push_xfrm(&mut xml, x, y, cx, cy);
        proof { reveal_strlit("<a:prstGeom prst=\"rect\"><a:avLst/></a:prstGeom></p:spPr></p:pic>"); assert("<a:prstGeom prst=\"rect\"><a:avLst/></a:prstGeom></p:spPr></p:pic>"@ == /* <a:prstGeom prst=\"rect\"><a:avLst/></a:prstGeom></p:spPr></p:pic> */ seq!['<', 'a', ':', 'p', 'r', 's', 't', 'G', 'e', 'o', 'm', ' ', 'p', 'r', 's', 't', '=', '"', 'r', 'e', 'c', 't', '"', '>', '<', 'a', ':', 'a', 'v', 'L', 's', 't', '/', '>', '<', '/', 'a', ':', 'p', 'r', 's', 't', 'G', 'e', 'o', 'm', '>', '<', '/', 'p', ':', 's', 'p', 'P', 'r', '>', '<', '/', 'p', ':', 'p', 'i', 'c', '>']); } push_str(&mut xml, "<a:prstGeom prst=\"rect\"><a:avLst/></a:prstGeom></p:spPr></p:pic>");
        assert(xml@ =~= picture_xml(id as nat, name@, r_id@, x, y, cx, cy));
        self.add_parsed(&xml, "authored p:pic did not parse", id)
    }

    /// Append a preset shape (`p:sp` with `<a:prstGeom prst="{prst}">`) at
    /// the given position and size in EMU, with an empty text body; returns
    /// its id. Fails, changing nothing, when there is no shape tree or the
    /// markup does not parse.
    pub fn add_autoshape(&mut self, prst: &str, x: i64, y: i64, cx: i64, cy: i64) -> (r: Result<u32, OxmlError>)
        requires
            next_id_of(old(self).document()) <= u32::MAX,
        ensures
            r is Ok <==> (tree_path(old(self).document()) is Some && fragment_parses(
                encode_utf8(preset_shape_xml(next_id_of(old(self).document()) as nat, prst@, x, y, cx, cy)),
            )),
            r is Err ==> final(self).document() == old(self).document(),
            r matches Ok(id) ==> id == next_id_of(old(self).document()) && appended_parsed(
                old(self).document(),
                final(self).document(),
                encode_utf8(preset_shape_xml(id as nat, prst@, x, y, cx, cy)),
            ),
    {
        let id = self.next_shape_id();
        let xml = preset_shape(id, prst, x, y, cx, cy);
        self.add_parsed(&xml, "authored sp did not parse", id)
    }

    /// Append a connector (`p:cxnSp`) of the given kind at the given position
    /// and size in EMU, with its optional start and end connections; returns
    /// its id. Fails, changing nothing, when there is no shape tree or the
    /// markup does not parse.
    pub fn add_connector(
        &mut self,
        connector_type: ConnectorType,
        start: Option<ConnectorAnchor>,
        end: Option<ConnectorAnchor>,
        x: i64,
        y: i64,
        cx: i64,
        cy: i64,
    ) -> (r: Result<u32, OxmlError>)
        requires
            next_id_of(old(self).document()) <= u32::MAX,
        ensures
            r is Ok <==> (tree_path(old(self).document()) is Some && fragment_parses(
                encode_utf8(connector_xml(next_id_of(old(self).document()) as nat, connector_type, start, end, x, y, cx, cy)),
            )),
            r is Err ==> final(self).document() == old(self).document(),
            r matches Ok(id) ==> id == next_id_of(old(self).document()) && appended_parsed(
                old(self).document(),
                final(self).document(),
                encode_utf8(connector_xml(id as nat, connector_type, start, end, x, y, cx, cy)),
            ),
    {
        let id = self.next_shape_id();
        let xml = connector_markup(id, connector_type, start, end, x, y, cx, cy);
        self.add_parsed(&xml, "authored p:cxnSp did not parse", id)
    }

    /// Append a freeform shape (`p:sp` with the path's `<a:custGeom>`) at the
    /// given position and size in EMU, with an empty text body; returns its
    /// id. Fails, changing nothing, when there is no shape tree or the markup
    /// does not parse.
    pub fn add_freeform(&mut self, path: &FreeformPath, x: i64, y: i64, cx: i64, cy: i64) -> (r: Result<u32, OxmlError>)
        requires
            next_id_of(old(self).document()) <= u32::MAX,
        ensures
            r is Ok <==> (tree_path(old(self).document()) is Some && fragment_parses(
                encode_utf8(freeform_xml(next_id_of(old(self).document()) as nat, custgeom_text(path.width_v(), path.height_v(), path.segments_v()), x, y, cx, cy)),
            )),
            r is Err ==> final(self).document() == old(self).document(),
            r matches Ok(id) ==> id == next_id_of(old(self).document()) && appended_parsed(
                old(self).document(),
                final(self).document(),
                encode_utf8(freeform_xml(id as nat, custgeom_text(path.width_v(),
                        path.height_v(), path.segments_v()), x, y, cx, cy)),
            ),
    {
        let id = self.next_shape_id();
        let geom = path.build_xml();
        let mut xml = String::new();
        proof { reveal_strlit("<p:sp><p:nvSpPr>"); assert("<p:sp><p:nvSpPr>"@ == /* <p:sp><p:nvSpPr> */ seq!['<', 'p', ':', 's', 'p', '>', '<', 'p', ':', 'n', 'v', 'S', 'p', 'P', 'r', '>']); } push_str(&mut xml, "<p:sp><p:nvSpPr>");
        push_cnvpr(&mut xml, id, "Freeform");
        proof { reveal_strlit("<p:cNvSpPr/><p:nvPr/></p:nvSpPr><p:spPr>"); assert("<p:cNvSpPr/><p:nvPr/></p:nvSpPr><p:spPr>"@ == /* <p:cNvSpPr/><p:nvPr/></p:nvSpPr><p:spPr> */ seq!['<', 'p', ':', 'c', 'N', 'v', 'S', 'p', 'P', 'r', '/', '>', '<', 'p', ':', 'n', 'v', 'P', 'r', '/', '>', '<', '/', 'p', ':', 'n', 'v', 'S', 'p', 'P', 'r', '>', '<', 'p', ':', 's', 'p', 'P', 'r', '>']); } push_str(&mut xml, "<p:cNvSpPr/><p:nvPr/></p:nvSpPr><p:spPr>");
        push_xfrm(&mut xml, x, y, cx, cy);
        push_str(&mut xml, geom.as_str());
        proof { reveal_strlit("</p:spPr><p:txBody><a:bodyPr/><a:lstStyle/><a:p/></p:txBody></p:sp>"); assert("</p:spPr><p:txBody><a:bodyPr/><a:lstStyle/><a:p/></p:txBody></p:sp>"@ == /* </p:spPr><p:txBody><a:bodyPr/><a:lstStyle/><a:p/></p:txBody></p:sp> */ seq!['<', '/', 'p', ':', 's', 'p', 'P', 'r', '>', '<', 'p', ':', 't', 'x', 'B', 'o', 'd', 'y', '>', '<', 'a', ':', 'b', 'o', 'd', 'y', 'P', 'r', '/', '>', '<', 'a', ':', 'l', 's', 't', 'S', 't', 'y', 'l', 'e', '/', '>', '<', 'a', ':', 'p', '/', '>', '<', '/', 'p', ':', 't', 'x', 'B', 'o', 'd', 'y', '>', '<', '/', 'p', ':', 's', 'p', '>']); } push_str(&mut xml, "</p:spPr><p:txBody><a:bodyPr/><a:lstStyle/><a:p/></p:txBody></p:sp>");
        proof { reveal_strlit("Freeform"); }
        assert(xml@ =~= freeform_xml(id as nat, geom@, x, y, cx, cy));
        self.add_parsed(&xml, "authored freeform sp did not parse", id)
    }
}

fn push_cxn_props(out: &mut String, start: Option<ConnectorAnchor>, end: Option<ConnectorAnchor>)
    ensures
        final(out)@ == old(out)@ + cxn_props_xml(start, end),
{
    let mut ends = String::new();
    match start {
        Some(a) => push_anchor(&mut ends, "stCxn", a),
        None => {},
    }
    match end {
        Some(a) => push_anchor(&mut ends, "endCxn", a),
        None => {},
    }
    if start.is_none() && end.is_none() {
        proof { reveal_strlit("<p:cNvCxnSpPr/>"); assert("<p:cNvCxnSpPr/>"@ == /* <p:cNvCxnSpPr/> */ seq!['<', 'p', ':', 'c', 'N', 'v', 'C', 'x', 'n', 'S', 'p', 'P', 'r', '/', '>']); } push_str(out, "<p:cNvCxnSpPr/>");
    } else {
        proof { reveal_strlit("<p:cNvCxnSpPr>"); assert("<p:cNvCxnSpPr>"@ == /* <p:cNvCxnSpPr> */ seq!['<', 'p', ':', 'c', 'N', 'v', 'C', 'x', 'n', 'S', 'p', 'P', 'r', '>']); } push_str(out, "<p:cNvCxnSpPr>");
        push_str(out, ends.as_str());
        proof { reveal_strlit("</p:cNvCxnSpPr>"); assert("</p:cNvCxnSpPr>"@ == /* </p:cNvCxnSpPr> */ seq!['<', '/', 'p', ':', 'c', 'N', 'v', 'C', 'x', 'n', 'S', 'p', 'P', 'r', '>']); } push_str(out, "</p:cNvCxnSpPr>");
    }
    proof {
        reveal_strlit("stCxn");
        reveal_strlit("endCxn");
        let st = match start { Some(a) => anchor_xml(/* stCxn */ seq!['s', 't', 'C', 'x', 'n'], a), None => Seq::<char>::empty() };
        let en = match end { Some(a) => anchor_xml(/* endCxn */ seq!['e', 'n', 'd', 'C', 'x', 'n'], a), None => Seq::<char>::empty() };
        assert(ends@ =~= st + en);
    }
    assert(out@ =~= old(out)@ + cxn_props_xml(start, end));
}

/// The markup of a connector.
fn connector_markup(
    id: u32,
    connector_type: ConnectorType,
    start: Option<ConnectorAnchor>,
    end: Option<ConnectorAnchor>,
    x: i64,
    y: i64,
    cx: i64,
    cy: i64,
) -> (r: String)
    ensures
        r@ == connector_xml(id as nat, connector_type, start, end, x, y, cx, cy),
{
    let prst = connector_type.prst();
    let mut xml = String::new();
    proof { reveal_strlit("<p:cxnSp><p:nvCxnSpPr>"); assert("<p:cxnSp><p:nvCxnSpPr>"@ == /* <p:cxnSp><p:nvCxnSpPr> */ seq!['<', 'p', ':', 'c', 'x', 'n', 'S', 'p', '>', '<', 'p', ':', 'n', 'v', 'C', 'x', 'n', 'S', 'p', 'P', 'r', '>']); } push_str(&mut xml, "<p:cxnSp><p:nvCxnSpPr>");
    push_cnvpr(&mut xml, id, "Connector");
    push_cxn_props(&mut xml, start, end);
    proof { reveal_strlit("<p:nvPr/></p:nvCxnSpPr><p:spPr>"); assert("<p:nvPr/></p:nvCxnSpPr><p:spPr>"@ == /* <p:nvPr/></p:nvCxnSpPr><p:spPr> */ seq!['<', 'p', ':', 'n', 'v', 'P', 'r', '/', '>', '<', '/', 'p', ':', 'n', 'v', 'C', 'x', 'n', 'S', 'p', 'P', 'r', '>', '<', 'p', ':', 's', 'p', 'P', 'r', '>']); } push_str(&mut xml, "<p:nvPr/></p:nvCxnSpPr><p:spPr>");
    push_xfrm(&mut xml, x, y, cx, cy);
    proof { reveal_strlit("<a:prstGeom prst=\""); assert("<a:prstGeom prst=\""@ == /* <a:prstGeom prst=\" */ seq!['<', 'a', ':', 'p', 'r', 's', 't', 'G', 'e', 'o', 'm', ' ', 'p', 'r', 's', 't', '=', '"']); } push_str(&mut xml, "<a:prstGeom prst=\"");
    push_str(&mut xml, prst);
    proof { reveal_strlit("\"><a:avLst/></a:prstGeom></p:spPr></p:cxnSp>"); assert("\"><a:avLst/></a:prstGeom></p:spPr></p:cxnSp>"@ == /* \"><a:avLst/></a:prstGeom></p:spPr></p:cxnSp> */ seq!['"', '>', '<', 'a', ':', 'a', 'v', 'L', 's', 't', '/', '>', '<', '/', 'a', ':', 'p', 'r', 's', 't', 'G', 'e', 'o', 'm', '>', '<', '/', 'p', ':', 's', 'p', 'P', 'r', '>', '<', '/', 'p', ':', 'c', 'x', 'n', 'S', 'p', '>']); } push_str(&mut xml, "\"><a:avLst/></a:prstGeom></p:spPr></p:cxnSp>");
    proof { reveal_strlit("Connector"); }
    assert(xml@ =~= connector_xml(id as nat, connector_type, start, end, x, y, cx, cy));
    xml
}

/// The markup of a preset shape.
fn preset_shape(id: u32, prst: &str, x: i64, y: i64, cx: i64, cy: i64) -> (r: String)
    ensures
        r@ == preset_shape_xml(id as nat, prst@, x, y, cx, cy),
{
    let mut xml = String::new();
    proof { reveal_strlit("<p:sp><p:nvSpPr>"); assert("<p:sp><p:nvSpPr>"@ == /* <p:sp><p:nvSpPr> */ seq!['<', 'p', ':', 's', 'p', '>', '<', 'p', ':', 'n', 'v', 'S', 'p', 'P', 'r', '>']); } push_str(&mut xml, "<p:sp><p:nvSpPr>");
    push_cnvpr(&mut xml, id, "Shape");
    proof { reveal_strlit("<p:cNvSpPr/><p:nvPr/></p:nvSpPr><p:spPr>"); assert("<p:cNvSpPr/><p:nvPr/></p:nvSpPr><p:spPr>"@ == /* <p:cNvSpPr/><p:nvPr/></p:nvSpPr><p:spPr> */ seq!['<', 'p', ':', 'c', 'N', 'v', 'S', 'p', 'P', 'r', '/', '>', '<', 'p', ':', 'n', 'v', 'P', 'r', '/', '>', '<', '/', 'p', ':', 'n', 'v', 'S', 'p', 'P', 'r', '>', '<', 'p', ':', 's', 'p', 'P', 'r', '>']); } push_str(&mut xml, "<p:cNvSpPr/><p:nvPr/></p:nvSpPr><p:spPr>");
    push_xfrm(&mut xml, x, y, cx, cy);
    proof { reveal_strlit("<a:prstGeom prst=\""); assert("<a:prstGeom prst=\""@ == /* <a:prstGeom prst=\" */ seq!['<', 'a', ':', 'p', 'r', 's', 't', 'G', 'e', 'o', 'm', ' ', 'p', 'r', 's', 't', '=', '"']); } push_str(&mut xml, "<a:prstGeom prst=\"");
    push_str(&mut xml, prst);
    proof { reveal_strlit("\"><a:avLst/></a:prstGeom></p:spPr><p:txBody><a:bodyPr/><a:lstStyle/><a:p/></p:txBody></p:sp>"); assert("\"><a:avLst/></a:prstGeom></p:spPr><p:txBody><a:bodyPr/><a:lstStyle/><a:p/></p:txBody></p:sp>"@ == /* \"><a:avLst/></a:prstGeom></p:spPr><p:txBody><a:bodyPr/><a:lstStyle/><a:p/></p:txBody></p:sp> */ seq!['"', '>', '<', 'a', ':', 'a', 'v', 'L', 's', 't', '/', '>', '<', '/', 'a', ':', 'p', 'r', 's', 't', 'G', 'e', 'o', 'm', '>', '<', '/', 'p', ':', 's', 'p', 'P', 'r', '>', '<', 'p', ':', 't', 'x', 'B', 'o', 'd', 'y', '>', '<', 'a', ':', 'b', 'o', 'd', 'y', 'P', 'r', '/', '>', '<', 'a', ':', 'l', 's', 't', 'S', 't', 'y', 'l', 'e', '/', '>', '<', 'a', ':', 'p', '/', '>', '<', '/', 'p', ':', 't', 'x', 'B', 'o', 'd', 'y', '>', '<', '/', 'p', ':', 's', 'p', '>']); } push_str(&mut xml, "\"><a:avLst/></a:prstGeom></p:spPr><p:txBody><a:bodyPr/><a:lstStyle/><a:p/></p:txBody></p:sp>");
    proof { reveal_strlit("Shape"); }
    assert(xml@ =~= preset_shape_xml(id as nat, prst@, x, y, cx, cy));
    xml
}

/// Index of the last group-properties child (`nvGrpSpPr` or `grpSpPr`) among
/// `ns`, or -1.
pub open spec fn last_group_prop_index(ns: Seq<Node>) -> int
    decreases ns.len(),
{
    if ns.len() == 0 {
        -1
    } else if is_named(ns.last(), /* grpSpPr */ seq![103u8, 114u8, 112u8, 83u8, 112u8, 80u8, 114u8]) || is_named(ns.last(), /* nvGrpSpPr */ seq![110u8, 118u8, 71u8, 114u8, 112u8, 83u8, 112u8, 80u8, 114u8]) {
        ns.len() - 1
    } else {
        last_group_prop_index(ns.drop_last())
    }
}

/// Where a new shape goes in a group: right after its last group-properties
/// child, or at the end when it has none.
pub open spec fn group_insert_pos(g: Element) -> int {
    let j = last_group_prop_index(g.children@);
    if j >= 0 {
        j + 1
    } else {
        g.children@.len() as int
    }
}

/// `new` is `old` with the first element of the markup `src` inserted into
/// the group at path `gp`; nothing else changed.
pub open spec fn inserted_in_group(old: Document, new: Document, gp: Seq<usize>, src: Seq<u8>) -> bool {
    let g = doc_at(old, gp);
    exists|new_g: Element, e: Element| {
        &&& #[trigger] doc_replaced(old, new, gp, new_g)
        &&& same_tags(g, new_g)
        &&& new_g.children@ == g.children@.insert(group_insert_pos(g), Node::Element(e))
        &&& #[trigger] parsed_from(e, src)
    }
}

fn group_position(g: &Element) -> (r: usize)
    ensures
        r == group_insert_pos(*g),
        r <= g.children@.len(),
{
    let a: [u8; 7] = /* grpSpPr */ [103u8, 114u8, 112u8, 83u8, 112u8, 80u8, 114u8];
    let b: [u8; 9] = /* nvGrpSpPr */ [110u8, 118u8, 71u8, 114u8, 112u8, 83u8, 112u8, 80u8, 114u8];
    assert(a@ =~= /* grpSpPr */ seq![103u8, 114u8, 112u8, 83u8, 112u8, 80u8, 114u8]);
    assert(b@ =~= /* nvGrpSpPr */ seq![110u8, 118u8, 71u8, 114u8, 112u8, 83u8, 112u8, 80u8, 114u8]);
    let mut i: usize = g.children.len();
    assert(g.children@.take(i as int) =~= g.children@);
    while i > 0
        invariant
            i <= g.children@.len(),
            a@ == /* grpSpPr */ seq![103u8, 114u8, 112u8, 83u8, 112u8, 80u8, 114u8],
            b@ == /* nvGrpSpPr */ seq![110u8, 118u8, 71u8, 114u8, 112u8, 83u8, 112u8, 80u8, 114u8],
            last_group_prop_index(g.children@) == last_group_prop_index(g.children@.take(i as int)),
        decreases i,
    {
        let hit = match &g.children[i - 1] {
            Node::Element(e) => e.is_named(a.as_slice()) || e.is_named(b.as_slice()),
            Node::Raw(_) => false,
        };
        assert(g.children@.take(i as int).last() == g.children@[i - 1]);
        if hit {
            return i;
        }
        assert(g.children@.take(i as int).drop_last() =~= g.children@.take(i - 1));
        i = i - 1;
    }
    g.children.len()
}

impl SlideDom {
    /// Insert a preset shape (as `add_autoshape` writes it) into group shape
    /// `group_shape_idx` (counting every kind of shape of the shape tree),
    /// right after the group's properties; returns its id. Fails, changing
    /// nothing, when there is no such shape, it is not a group, or the markup
    /// does not parse.
    pub fn add_shape_to_group(&mut self, group_shape_idx: usize, prst: &str, x: i64, y: i64, cx: i64, cy: i64) -> (r: Result<u32, OxmlError>)
        requires
            next_id_of(old(self).document()) <= u32::MAX,
        ensures
            r is Ok <==> ((tree_child_path(old(self).document(), kind_drawable(), group_shape_idx as int) matches Some(
                gp,
            ) && doc_at(old(self).document(), gp).local() == /* grpSp */ seq![103u8, 114u8, 112u8, 83u8, 112u8]) && fragment_parses(
                encode_utf8(preset_shape_xml(next_id_of(old(self).document()) as nat, prst@, x, y, cx, cy)),
            )),
            r is Err ==> final(self).document() == old(self).document(),
            r matches Ok(id) ==> {
                let gp = tree_child_path(old(self).document(), kind_drawable(), group_shape_idx as int).unwrap();
                &&& id == next_id_of(old(self).document())
                &&& tree_child_path(old(self).document(), kind_drawable(), group_shape_idx as int) is Some
                &&& doc_at(old(self).document(), gp).local() == /* grpSp */ seq![103u8, 114u8, 112u8, 83u8, 112u8]
                &&& inserted_in_group(old(self).document(), final(self).document(), gp,
                    encode_utf8(preset_shape_xml(id as nat, prst@, x, y, cx, cy)))
            },
    {
        let id = self.next_shape_id();
        let p = match find_tree_child_path(&self.doc, 3, group_shape_idx) {
            Some(p) => p,
            None => return Err(OxmlError::Parse(message("no shape at index ", group_shape_idx, ""))),
        };
        let root = self.doc.root().unwrap();
        assert(p@.skip(0) =~= p@);
        let g = element_at(root, &p, 0);
        let grp: [u8; 5] = /* grpSp */ [103u8, 114u8, 112u8, 83u8, 112u8];
        assert(grp@ =~= /* grpSp */ seq![103u8, 114u8, 112u8, 83u8, 112u8]);
        if !g.is_named(grp.as_slice()) {
            let mut m = message("shape at index ", group_shape_idx, " is not a group (is \"");
            let l = from_utf8_lossy(g.local_name());
            push_str(&mut m, l.as_str());
            push_str(&mut m, "\")");
            return Err(OxmlError::Parse(m));
        }
        let pos = group_position(g);
        let xml = preset_shape(id, prst, x, y, cx, cy);
        let e = match parse_fragment(&xml, "authored sp did not parse") {
            Ok(e) => e,
            Err(err) => return Err(err),
        };
        let ghost ge = e;
        let ghost old_g = doc_at(self.doc, p@);
        let ge_node = Node::Element(e);
        let target = self.doc.element_at_mut(&p).unwrap();
        target.children.insert(pos, ge_node);
        let ghost new_g = *target;
        proof {
            assert(self.document() == self.doc);
            assert(old(self).document() == old(self).doc);
            let gp = tree_child_path(old(self).document(), kind_drawable(), group_shape_idx as int).unwrap();
            assert(gp == p@);
            assert(old_g == doc_at(old(self).document(), gp));
            assert(doc_replaced(old(self).document(), self.document(), gp, new_g));
            assert(parsed_from(ge, encode_utf8(preset_shape_xml(id as nat, prst@, x, y, cx, cy))));
            assert(new_g.children@ == old_g.children@.insert(group_insert_pos(old_g), Node::Element(ge)));
        }
        Ok(id)
    }
}

} // verus!
