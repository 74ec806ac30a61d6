//! Fills of shapes and of table cells.

use vstd::prelude::*;
use vstd::utf8::encode_utf8;
use crate::error::OxmlError;
use crate::text::{dec_i64, dec_nat, dec_u64};
use crate::xml::{
    attr_escape_chars, doc_replaced, element_bytes, escape_attr, local_of, new_element, node_bytes, nodes_bytes,
    ordered_position, same_tags, Document, Element, Node,
};
use super::{
    doc_at, drop_children_named, find_tree_child_path, kind_drawable, message, tree_child_path, without_names,
    ColorSpec, FillSpec, SlideDom,
};
use super::shape_props::{color_bytes, color_element, coord_text, ensure_sppr, solid_fill_bytes, sppr_ensured};
use super::table::{cell_path, find_cell_path, tcpr_index, tcpr_mut, tcpr_slot};

verus! {

// ─── Fill markup ────────────────────────────────────────────────────────────

/// The children of `ns` other than fill elements (`noFill`, `solidFill`,
/// `gradFill`, `blipFill`, `pattFill`, `grpFill`), in order.
pub open spec fn without_fills(ns: Seq<Node>) -> Seq<Node> {
    without_names(
        without_names(ns, /* noFill */ seq![110u8, 111u8, 70u8, 105u8, 108u8, 108u8], /* solidFill */ seq![115u8, 111u8, 108u8, 105u8, 100u8, 70u8, 105u8, 108u8, 108u8], /* gradFill */ seq![103u8, 114u8, 97u8, 100u8, 70u8, 105u8, 108u8, 108u8]),
        /* blipFill */ seq![98u8, 108u8, 105u8, 112u8, 70u8, 105u8, 108u8, 108u8],
        /* pattFill */ seq![112u8, 97u8, 116u8, 116u8, 70u8, 105u8, 108u8, 108u8],
        /* grpFill */ seq![103u8, 114u8, 112u8, 70u8, 105u8, 108u8, 108u8],
    )
}

/// The bytes of one gradient stop.
pub open spec fn stop_bytes(pos: u64, c: ColorSpec) -> Seq<u8> {
    /* <a:gs pos=\" */ seq![60u8, 97u8, 58u8, 103u8, 115u8, 32u8, 112u8, 111u8, 115u8, 61u8, 34u8] + encode_utf8(dec_nat(pos as nat)) + /* \"> */ seq![34u8, 62u8] + color_bytes(c) + /* </a:gs> */ seq![60u8, 47u8, 97u8, 58u8, 103u8, 115u8, 62u8]
}

/// The bytes of gradient stops, in order.
pub open spec fn stops_bytes(stops: Seq<(u64, ColorSpec)>) -> Seq<u8>
    decreases stops.len(),
{
    if stops.len() == 0 {
        Seq::empty()
    } else {
        stops_bytes(stops.drop_last()) + stop_bytes(stops.last().0, stops.last().1)
    }
}

/// The bytes of a fill element.
pub open spec fn fill_bytes(f: FillSpec) -> Seq<u8> {
    match f {
        FillSpec::NoFill => /* <a:noFill/> */ seq![60u8, 97u8, 58u8, 110u8, 111u8, 70u8, 105u8, 108u8, 108u8, 47u8, 62u8],
        FillSpec::Solid { color } => solid_fill_bytes(color),
        FillSpec::Gradient { stops, angle } => /* <a:gradFill><a:gsLst> */ seq![60u8, 97u8, 58u8, 103u8, 114u8, 97u8, 100u8, 70u8, 105u8, 108u8, 108u8, 62u8, 60u8, 97u8, 58u8, 103u8, 115u8, 76u8, 115u8, 116u8, 62u8] + stops_bytes(stops@)
            + /* </a:gsLst><a:lin ang=\" */ seq![60u8, 47u8, 97u8, 58u8, 103u8, 115u8, 76u8, 115u8, 116u8, 62u8, 60u8, 97u8, 58u8, 108u8, 105u8, 110u8, 32u8, 97u8, 110u8, 103u8, 61u8, 34u8] + coord_text(angle) + /* \" scaled=\"0\"/></a:gradFill> */ seq![34u8, 32u8, 115u8, 99u8, 97u8, 108u8, 101u8, 100u8, 61u8, 34u8, 48u8, 34u8, 47u8, 62u8, 60u8, 47u8, 97u8, 58u8, 103u8, 114u8, 97u8, 100u8, 70u8, 105u8, 108u8, 108u8, 62u8],
        FillSpec::Pattern { preset, fg, bg } => /* <a:pattFill prst=\" */ seq![60u8, 97u8, 58u8, 112u8, 97u8, 116u8, 116u8, 70u8, 105u8, 108u8, 108u8, 32u8, 112u8, 114u8, 115u8, 116u8, 61u8, 34u8] + encode_utf8(preset@) + /* \"><a:fgClr> */ seq![34u8, 62u8, 60u8, 97u8, 58u8, 102u8, 103u8, 67u8, 108u8, 114u8, 62u8]
            + color_bytes(fg) + /* </a:fgClr><a:bgClr> */ seq![60u8, 47u8, 97u8, 58u8, 102u8, 103u8, 67u8, 108u8, 114u8, 62u8, 60u8, 97u8, 58u8, 98u8, 103u8, 67u8, 108u8, 114u8, 62u8] + color_bytes(bg) + /* </a:bgClr></a:pattFill> */ seq![60u8, 47u8, 97u8, 58u8, 98u8, 103u8, 67u8, 108u8, 114u8, 62u8, 60u8, 47u8, 97u8, 58u8, 112u8, 97u8, 116u8, 116u8, 70u8, 105u8, 108u8, 108u8, 62u8],
        FillSpec::Picture { r_id } => /* <a:blipFill><a:blip r:embed=\" */ seq![60u8, 97u8, 58u8, 98u8, 108u8, 105u8, 112u8, 70u8, 105u8, 108u8, 108u8, 62u8, 60u8, 97u8, 58u8, 98u8, 108u8, 105u8, 112u8, 32u8, 114u8, 58u8, 101u8, 109u8, 98u8, 101u8, 100u8, 61u8, 34u8] + encode_utf8(attr_escape_chars(r_id@))
            + /* \"/><a:stretch><a:fillRect/></a:stretch></a:blipFill> */ seq![34u8, 47u8, 62u8, 60u8, 97u8, 58u8, 115u8, 116u8, 114u8, 101u8, 116u8, 99u8, 104u8, 62u8, 60u8, 97u8, 58u8, 102u8, 105u8, 108u8, 108u8, 82u8, 101u8, 99u8, 116u8, 47u8, 62u8, 60u8, 47u8, 97u8, 58u8, 115u8, 116u8, 114u8, 101u8, 116u8, 99u8, 104u8, 62u8, 60u8, 47u8, 97u8, 58u8, 98u8, 108u8, 105u8, 112u8, 70u8, 105u8, 108u8, 108u8, 62u8],
    }
}

/// The local name of a fill's element.
pub open spec fn fill_local(f: FillSpec) -> Seq<u8> {
    match f {
        FillSpec::NoFill => /* noFill */ seq![110u8, 111u8, 70u8, 105u8, 108u8, 108u8],
        FillSpec::Solid { .. } => /* solidFill */ seq![115u8, 111u8, 108u8, 105u8, 100u8, 70u8, 105u8, 108u8, 108u8],
        FillSpec::Gradient { .. } => /* gradFill */ seq![103u8, 114u8, 97u8, 100u8, 70u8, 105u8, 108u8, 108u8],
        FillSpec::Pattern { .. } => /* pattFill */ seq![112u8, 97u8, 116u8, 116u8, 70u8, 105u8, 108u8, 108u8],
        FillSpec::Picture { .. } => /* blipFill */ seq![98u8, 108u8, 105u8, 112u8, 70u8, 105u8, 108u8, 108u8],
    }
}

/// Whether a color's markup can be read back: an RGB value holds no `"`.
pub open spec fn color_ok(c: ColorSpec) -> bool {
    match c {
        ColorSpec::Rgb(h) => !h@.contains('"'),
        ColorSpec::Theme(_) => true,
    }
}

/// Whether the markup of every color of a fill can be read back.
pub open spec fn fill_colors_ok(f: FillSpec) -> bool {
    match f {
        FillSpec::Solid { color } => color_ok(color),
        FillSpec::Gradient { stops, .. } => forall|i: int| 0 <= i < stops@.len() ==> color_ok(#[trigger] stops@[i].1),
        FillSpec::Pattern { fg, bg, .. } => color_ok(fg) && color_ok(bg),
        _ => true,
    }
}

/// A fresh element holding one child.
pub(crate) fn wrap_one(name: &[u8], child: Element) -> (e: Element)
    ensures
        e.name@ == name@,
        element_bytes(e) == /* < */ seq![60u8] + name@ + /* > */ seq![62u8] + element_bytes(child) + /* </ */ seq![60u8, 47u8] + name@ + /* > */ seq![62u8],
{
    let mut e = new_element(name);
    let ghost c0 = e.children@;
    e.children.push(Node::Element(child));
    proof {
        assert(c0 =~= Seq::<Node>::empty());
        crate::xml::lemma_nodes_bytes_push(c0, Node::Element(child));
        assert(e.attrs_v() =~= Seq::<(Seq<u8>, Seq<u8>)>::empty());
        assert(nodes_bytes(e.children@) =~= element_bytes(child));
    }
    e
}

/// A fresh element holding two children.
fn wrap_two(name: &[u8], a: Element, b: Element) -> (e: Element)
    ensures
        e.name@ == name@,
        element_bytes(e) == /* < */ seq![60u8] + name@ + /* > */ seq![62u8] + element_bytes(a) + element_bytes(b) + /* </ */ seq![60u8, 47u8] + name@ + /* > */ seq![62u8],
        nodes_bytes(e.children@) == element_bytes(a) + element_bytes(b),
        e.attrs@.len() == 0,
        e.dirty,
        !e.self_closing,
{
    let mut e = new_element(name);
    let ghost c0 = e.children@;
    e.children.push(Node::Element(a));
    let ghost c1 = e.children@;
    e.children.push(Node::Element(b));
    proof {
        assert(c0 =~= Seq::<Node>::empty());
        crate::xml::lemma_nodes_bytes_push(c0, Node::Element(a));
        crate::xml::lemma_nodes_bytes_push(c1, Node::Element(b));
        assert(e.attrs_v() =~= Seq::<(Seq<u8>, Seq<u8>)>::empty());
        assert(nodes_bytes(e.children@) =~= element_bytes(a) + element_bytes(b));
    }
    e
}

/// A fresh self-closing element with no attributes.
fn empty_leaf(name: &[u8]) -> (e: Element)
    ensures
        e.name@ == name@,
        element_bytes(e) == /* < */ seq![60u8] + name@ + /* /> */ seq![47u8, 62u8],
{
    let mut e = new_element(name);
    e.self_closing = true;
    proof { assert(e.attrs_v() =~= Seq::<(Seq<u8>, Seq<u8>)>::empty()); }
    e
}

fn stop_element(pos: u64, c: &ColorSpec) -> (e: Element)
    ensures
        element_bytes(e) == stop_bytes(pos, *c),
{
    let n: [u8; 4] = /* a:gs */ [97u8, 58u8, 103u8, 115u8];
    let k: [u8; 3] = /* pos */ [112u8, 111u8, 115u8];
    assert(n@ =~= /* a:gs */ seq![97u8, 58u8, 103u8, 115u8]);
    assert(k@ =~= /* pos */ seq![112u8, 111u8, 115u8]);
    let mut e = new_element(n.as_slice());
    let d = dec_u64(pos);
    proof { assert(e.attrs_v() =~= Seq::<(Seq<u8>, Seq<u8>)>::empty()); }
    e.set_attr(k.as_slice(), d.as_str().as_bytes());
    let ce = color_element(c);
    let ghost c0 = e.children@;
    e.children.push(Node::Element(ce));
    proof {
        assert(c0 =~= Seq::<Node>::empty());
        crate::xml::lemma_nodes_bytes_push(c0, Node::Element(ce));
        reveal_with_fuel(crate::xml::attrs_bytes, 2);
        assert(crate::xml::attr_index(Seq::<(Seq<u8>, Seq<u8>)>::empty(), /* pos */ seq![112u8, 111u8, 115u8]) == -1);
        assert(e.attrs_v() =~= seq![(/* pos */ seq![112u8, 111u8, 115u8], encode_utf8(dec_nat(pos as nat)))]);
        assert(e.attrs_v().drop_last() =~= Seq::<(Seq<u8>, Seq<u8>)>::empty());
        assert(element_bytes(e) =~= stop_bytes(pos, *c));
    }
    e
}

fn gradient_element(stops: &Vec<(u64, ColorSpec)>, angle: i64) -> (e: Element)
    ensures
        element_bytes(e) == /* <a:gradFill><a:gsLst> */ seq![60u8, 97u8, 58u8, 103u8, 114u8, 97u8, 100u8, 70u8, 105u8, 108u8, 108u8, 62u8, 60u8, 97u8, 58u8, 103u8, 115u8, 76u8, 115u8, 116u8, 62u8] + stops_bytes(stops@) + /* </a:gsLst><a:lin ang=\" */ seq![60u8, 47u8, 97u8, 58u8, 103u8, 115u8, 76u8, 115u8, 116u8, 62u8, 60u8, 97u8, 58u8, 108u8, 105u8, 110u8, 32u8, 97u8, 110u8, 103u8, 61u8, 34u8]
            + coord_text(angle) + /* \" scaled=\"0\"/></a:gradFill> */ seq![34u8, 32u8, 115u8, 99u8, 97u8, 108u8, 101u8, 100u8, 61u8, 34u8, 48u8, 34u8, 47u8, 62u8, 60u8, 47u8, 97u8, 58u8, 103u8, 114u8, 97u8, 100u8, 70u8, 105u8, 108u8, 108u8, 62u8],
        e.name@ == /* a:gradFill */ seq![97u8, 58u8, 103u8, 114u8, 97u8, 100u8, 70u8, 105u8, 108u8, 108u8],
{
    let ln: [u8; 7] = /* a:gsLst */ [97u8, 58u8, 103u8, 115u8, 76u8, 115u8, 116u8];
    assert(ln@ =~= /* a:gsLst */ seq![97u8, 58u8, 103u8, 115u8, 76u8, 115u8, 116u8]);
    let mut lst = new_element(ln.as_slice());
    let mut i: usize = 0;
    while i < stops.len()
        invariant
            i <= stops@.len(),
            lst.name@ == /* a:gsLst */ seq![97u8, 58u8, 103u8, 115u8, 76u8, 115u8, 116u8],
            lst.dirty,
            !lst.self_closing,
            lst.attrs@.len() == 0,
            nodes_bytes(lst.children@) == stops_bytes(stops@.take(i as int)),
        decreases stops@.len() - i,
    {
        let gs = stop_element(stops[i].0, &stops[i].1);
        let ghost c0 = lst.children@;
        lst.children.push(Node::Element(gs));
        proof {
            crate::xml::lemma_nodes_bytes_push(c0, Node::Element(gs));
            assert(stops@.take(i + 1).drop_last() =~= stops@.take(i as int));
        }
        i = i + 1;
    }
    proof {
        assert(stops@.take(stops@.len() as int) =~= stops@);
        assert(lst.attrs_v() =~= Seq::<(Seq<u8>, Seq<u8>)>::empty());
    }
    let lnn: [u8; 5] = /* a:lin */ [97u8, 58u8, 108u8, 105u8, 110u8];
    let ka: [u8; 3] = /* ang */ [97u8, 110u8, 103u8];
    let ks: [u8; 6] = /* scaled */ [115u8, 99u8, 97u8, 108u8, 101u8, 100u8];
    let zero: [u8; 1] = /* 0 */ [48u8];
    assert(lnn@ =~= /* a:lin */ seq![97u8, 58u8, 108u8, 105u8, 110u8]);
    assert(ka@ =~= /* ang */ seq![97u8, 110u8, 103u8]);
    assert(ks@ =~= /* scaled */ seq![115u8, 99u8, 97u8, 108u8, 101u8, 100u8]);
    assert(zero@ =~= /* 0 */ seq![48u8]);
    let mut lin = new_element(lnn.as_slice());
    lin.self_closing = true;
    let d = dec_i64(angle);
    proof { assert(lin.attrs_v() =~= Seq::<(Seq<u8>, Seq<u8>)>::empty()); }
    lin.set_attr(ka.as_slice(), d.as_str().as_bytes());
    let ghost a1 = lin.attrs_v();
    lin.set_attr(ks.as_slice(), zero.as_slice());
    proof {
        assert(crate::xml::attr_index(Seq::<(Seq<u8>, Seq<u8>)>::empty(), /* ang */ seq![97u8, 110u8, 103u8]) == -1);
        assert(a1 =~= seq![(/* ang */ seq![97u8, 110u8, 103u8], coord_text(angle))]);
        assert(a1[0].0 != /* scaled */ seq![115u8, 99u8, 97u8, 108u8, 101u8, 100u8]) by {
            assert(a1[0].0[0] != /* scaled */ seq![115u8, 99u8, 97u8, 108u8, 101u8, 100u8][0]);
        }
        assert(crate::xml::attr_index_from(a1, 1, /* scaled */ seq![115u8, 99u8, 97u8, 108u8, 101u8, 100u8]) == -1);
        assert(crate::xml::attr_index(a1, /* scaled */ seq![115u8, 99u8, 97u8, 108u8, 101u8, 100u8]) == -1);
        assert(lin.attrs_v() =~= seq![(/* ang */ seq![97u8, 110u8, 103u8], coord_text(angle)), (/* scaled */ seq![115u8, 99u8, 97u8, 108u8, 101u8, 100u8], /* 0 */ seq![48u8])]);
        reveal_with_fuel(crate::xml::attrs_bytes, 3);
        assert(lin.attrs_v().drop_last() =~= a1);
        assert(a1.drop_last() =~= Seq::<(Seq<u8>, Seq<u8>)>::empty());
        assert(element_bytes(lin) =~= /* <a:lin ang=\" */ seq![60u8, 97u8, 58u8, 108u8, 105u8, 110u8, 32u8, 97u8, 110u8, 103u8, 61u8, 34u8] + coord_text(angle) + /* \" scaled=\"0\"/> */ seq![34u8, 32u8, 115u8, 99u8, 97u8, 108u8, 101u8, 100u8, 61u8, 34u8, 48u8, 34u8, 47u8, 62u8]);
        assert(element_bytes(lst) =~= /* <a:gsLst> */ seq![60u8, 97u8, 58u8, 103u8, 115u8, 76u8, 115u8, 116u8, 62u8] + stops_bytes(stops@) + /* </a:gsLst> */ seq![60u8, 47u8, 97u8, 58u8, 103u8, 115u8, 76u8, 115u8, 116u8, 62u8]);
    }
    let gn: [u8; 10] = /* a:gradFill */ [97u8, 58u8, 103u8, 114u8, 97u8, 100u8, 70u8, 105u8, 108u8, 108u8];
    assert(gn@ =~= /* a:gradFill */ seq![97u8, 58u8, 103u8, 114u8, 97u8, 100u8, 70u8, 105u8, 108u8, 108u8]);
    let e = wrap_two(gn.as_slice(), lst, lin);
    assert(element_bytes(e) =~= /* <a:gradFill><a:gsLst> */ seq![60u8, 97u8, 58u8, 103u8, 114u8, 97u8, 100u8, 70u8, 105u8, 108u8, 108u8, 62u8, 60u8, 97u8, 58u8, 103u8, 115u8, 76u8, 115u8, 116u8, 62u8] + stops_bytes(stops@) + /* </a:gsLst><a:lin ang=\" */ seq![60u8, 47u8, 97u8, 58u8, 103u8, 115u8, 76u8, 115u8, 116u8, 62u8, 60u8, 97u8, 58u8, 108u8, 105u8, 110u8, 32u8, 97u8, 110u8, 103u8, 61u8, 34u8]
        + coord_text(angle) + /* \" scaled=\"0\"/></a:gradFill> */ seq![34u8, 32u8, 115u8, 99u8, 97u8, 108u8, 101u8, 100u8, 61u8, 34u8, 48u8, 34u8, 47u8, 62u8, 60u8, 47u8, 97u8, 58u8, 103u8, 114u8, 97u8, 100u8, 70u8, 105u8, 108u8, 108u8, 62u8]);
    e
}

fn pattern_element(preset: &String, fg: &ColorSpec, bg: &ColorSpec) -> (e: Element)
    ensures
        element_bytes(e) == /* <a:pattFill prst=\" */ seq![60u8, 97u8, 58u8, 112u8, 97u8, 116u8, 116u8, 70u8, 105u8, 108u8, 108u8, 32u8, 112u8, 114u8, 115u8, 116u8, 61u8, 34u8] + encode_utf8(preset@) + /* \"><a:fgClr> */ seq![34u8, 62u8, 60u8, 97u8, 58u8, 102u8, 103u8, 67u8, 108u8, 114u8, 62u8] + color_bytes(*fg)
            + /* </a:fgClr><a:bgClr> */ seq![60u8, 47u8, 97u8, 58u8, 102u8, 103u8, 67u8, 108u8, 114u8, 62u8, 60u8, 97u8, 58u8, 98u8, 103u8, 67u8, 108u8, 114u8, 62u8] + color_bytes(*bg) + /* </a:bgClr></a:pattFill> */ seq![60u8, 47u8, 97u8, 58u8, 98u8, 103u8, 67u8, 108u8, 114u8, 62u8, 60u8, 47u8, 97u8, 58u8, 112u8, 97u8, 116u8, 116u8, 70u8, 105u8, 108u8, 108u8, 62u8],
        e.name@ == /* a:pattFill */ seq![97u8, 58u8, 112u8, 97u8, 116u8, 116u8, 70u8, 105u8, 108u8, 108u8],
{
    let pn: [u8; 10] = /* a:pattFill */ [97u8, 58u8, 112u8, 97u8, 116u8, 116u8, 70u8, 105u8, 108u8, 108u8];
    let k: [u8; 4] = /* prst */ [112u8, 114u8, 115u8, 116u8];
    let fgn: [u8; 7] = /* a:fgClr */ [97u8, 58u8, 102u8, 103u8, 67u8, 108u8, 114u8];
    let bgn: [u8; 7] = /* a:bgClr */ [97u8, 58u8, 98u8, 103u8, 67u8, 108u8, 114u8];
    assert(pn@ =~= /* a:pattFill */ seq![97u8, 58u8, 112u8, 97u8, 116u8, 116u8, 70u8, 105u8, 108u8, 108u8]);
    assert(k@ =~= /* prst */ seq![112u8, 114u8, 115u8, 116u8]);
    assert(fgn@ =~= /* a:fgClr */ seq![97u8, 58u8, 102u8, 103u8, 67u8, 108u8, 114u8]);
    assert(bgn@ =~= /* a:bgClr */ seq![97u8, 58u8, 98u8, 103u8, 67u8, 108u8, 114u8]);
    let f = wrap_one(fgn.as_slice(), color_element(fg));
    let b = wrap_one(bgn.as_slice(), color_element(bg));
    assert(element_bytes(f) =~= /* <a:fgClr> */ seq![60u8, 97u8, 58u8, 102u8, 103u8, 67u8, 108u8, 114u8, 62u8] + color_bytes(*fg) + /* </a:fgClr> */ seq![60u8, 47u8, 97u8, 58u8, 102u8, 103u8, 67u8, 108u8, 114u8, 62u8]);
    assert(element_bytes(b) =~= /* <a:bgClr> */ seq![60u8, 97u8, 58u8, 98u8, 103u8, 67u8, 108u8, 114u8, 62u8] + color_bytes(*bg) + /* </a:bgClr> */ seq![60u8, 47u8, 97u8, 58u8, 98u8, 103u8, 67u8, 108u8, 114u8, 62u8]);
    let ghost kids = element_bytes(f) + element_bytes(b);
    let ghost gf = f;
    let ghost gb = b;
    let mut e = wrap_two(pn.as_slice(), f, b);
    proof { assert(e.attrs_v() =~= Seq::<(Seq<u8>, Seq<u8>)>::empty()); }
    e.set_attr(k.as_slice(), preset.as_str().as_bytes());
    let ghost v = encode_utf8(preset@);
    proof {
        assert(crate::xml::attr_index(Seq::<(Seq<u8>, Seq<u8>)>::empty(), /* prst */ seq![112u8, 114u8, 115u8, 116u8]) == -1);
        assert(e.attrs_v() =~= seq![(/* prst */ seq![112u8, 114u8, 115u8, 116u8], v)]);
        assert(crate::xml::attrs_bytes(e.attrs_v()) == /*  prst=\" */ seq![32u8, 112u8, 114u8, 115u8, 116u8, 61u8, 34u8] + v + /* \" */ seq![34u8]) by {
            reveal_with_fuel(crate::xml::attrs_bytes, 2);
            assert(e.attrs_v().drop_last() =~= Seq::<(Seq<u8>, Seq<u8>)>::empty());
            assert(crate::xml::attrs_bytes(e.attrs_v()) =~= /*  prst=\" */ seq![32u8, 112u8, 114u8, 115u8, 116u8, 61u8, 34u8] + v + /* \" */ seq![34u8]);
        }
        assert(crate::xml::start_tag_bytes(e) =~= /* <a:pattFill prst=\" */ seq![60u8, 97u8, 58u8, 112u8, 97u8, 116u8, 116u8, 70u8, 105u8, 108u8, 108u8, 32u8, 112u8, 114u8, 115u8, 116u8, 61u8, 34u8] + v + /* \"> */ seq![34u8, 62u8]);
        assert(crate::xml::end_tag_bytes(e) =~= /* </a:pattFill> */ seq![60u8, 47u8, 97u8, 58u8, 112u8, 97u8, 116u8, 116u8, 70u8, 105u8, 108u8, 108u8, 62u8]);
        assert(nodes_bytes(e.children@) == kids);
        assert(element_bytes(e) == crate::xml::start_tag_bytes(e) + kids + crate::xml::end_tag_bytes(e));
    }
    proof { pattern_bytes_shape(v, kids, *fg, *bg, gf, gb); }
    e
}

proof fn pattern_bytes_shape(v: Seq<u8>, kids: Seq<u8>, fg: ColorSpec, bg: ColorSpec, f: Element, b: Element)
    requires
        kids == element_bytes(f) + element_bytes(b),
        element_bytes(f) == /* <a:fgClr> */ seq![60u8, 97u8, 58u8, 102u8, 103u8, 67u8, 108u8, 114u8, 62u8] + color_bytes(fg) + /* </a:fgClr> */ seq![60u8, 47u8, 97u8, 58u8, 102u8, 103u8, 67u8, 108u8, 114u8, 62u8],
        element_bytes(b) == /* <a:bgClr> */ seq![60u8, 97u8, 58u8, 98u8, 103u8, 67u8, 108u8, 114u8, 62u8] + color_bytes(bg) + /* </a:bgClr> */ seq![60u8, 47u8, 97u8, 58u8, 98u8, 103u8, 67u8, 108u8, 114u8, 62u8],
    ensures
        /* <a:pattFill prst=\" */ seq![60u8, 97u8, 58u8, 112u8, 97u8, 116u8, 116u8, 70u8, 105u8, 108u8, 108u8, 32u8, 112u8, 114u8, 115u8, 116u8, 61u8, 34u8] + v + /* \"> */ seq![34u8, 62u8] + kids + /* </a:pattFill> */ seq![60u8, 47u8, 97u8, 58u8, 112u8, 97u8, 116u8, 116u8, 70u8, 105u8, 108u8, 108u8, 62u8] == /* <a:pattFill prst=\" */ seq![60u8, 97u8, 58u8, 112u8, 97u8, 116u8, 116u8, 70u8, 105u8, 108u8, 108u8, 32u8, 112u8, 114u8, 115u8, 116u8, 61u8, 34u8] + v + /* \"><a:fgClr> */ seq![34u8, 62u8, 60u8, 97u8, 58u8, 102u8, 103u8, 67u8, 108u8, 114u8, 62u8]
            + color_bytes(fg) + /* </a:fgClr><a:bgClr> */ seq![60u8, 47u8, 97u8, 58u8, 102u8, 103u8, 67u8, 108u8, 114u8, 62u8, 60u8, 97u8, 58u8, 98u8, 103u8, 67u8, 108u8, 114u8, 62u8] + color_bytes(bg) + /* </a:bgClr></a:pattFill> */ seq![60u8, 47u8, 97u8, 58u8, 98u8, 103u8, 67u8, 108u8, 114u8, 62u8, 60u8, 47u8, 97u8, 58u8, 112u8, 97u8, 116u8, 116u8, 70u8, 105u8, 108u8, 108u8, 62u8],
{
    assert(/* <a:pattFill prst=\" */ seq![60u8, 97u8, 58u8, 112u8, 97u8, 116u8, 116u8, 70u8, 105u8, 108u8, 108u8, 32u8, 112u8, 114u8, 115u8, 116u8, 61u8, 34u8] + v + /* \"> */ seq![34u8, 62u8] + kids + /* </a:pattFill> */ seq![60u8, 47u8, 97u8, 58u8, 112u8, 97u8, 116u8, 116u8, 70u8, 105u8, 108u8, 108u8, 62u8] =~= /* <a:pattFill prst=\" */ seq![60u8, 97u8, 58u8, 112u8, 97u8, 116u8, 116u8, 70u8, 105u8, 108u8, 108u8, 32u8, 112u8, 114u8, 115u8, 116u8, 61u8, 34u8] + v + /* \"><a:fgClr> */ seq![34u8, 62u8, 60u8, 97u8, 58u8, 102u8, 103u8, 67u8, 108u8, 114u8, 62u8]
        + color_bytes(fg) + /* </a:fgClr><a:bgClr> */ seq![60u8, 47u8, 97u8, 58u8, 102u8, 103u8, 67u8, 108u8, 114u8, 62u8, 60u8, 97u8, 58u8, 98u8, 103u8, 67u8, 108u8, 114u8, 62u8] + color_bytes(bg) + /* </a:bgClr></a:pattFill> */ seq![60u8, 47u8, 97u8, 58u8, 98u8, 103u8, 67u8, 108u8, 114u8, 62u8, 60u8, 47u8, 97u8, 58u8, 112u8, 97u8, 116u8, 116u8, 70u8, 105u8, 108u8, 108u8, 62u8]);
}

fn picture_fill_element(r_id: &String) -> (e: Element)
    ensures
        element_bytes(e) == /* <a:blipFill><a:blip r:embed=\" */ seq![60u8, 97u8, 58u8, 98u8, 108u8, 105u8, 112u8, 70u8, 105u8, 108u8, 108u8, 62u8, 60u8, 97u8, 58u8, 98u8, 108u8, 105u8, 112u8, 32u8, 114u8, 58u8, 101u8, 109u8, 98u8, 101u8, 100u8, 61u8, 34u8] + encode_utf8(attr_escape_chars(r_id@))
            + /* \"/><a:stretch><a:fillRect/></a:stretch></a:blipFill> */ seq![34u8, 47u8, 62u8, 60u8, 97u8, 58u8, 115u8, 116u8, 114u8, 101u8, 116u8, 99u8, 104u8, 62u8, 60u8, 97u8, 58u8, 102u8, 105u8, 108u8, 108u8, 82u8, 101u8, 99u8, 116u8, 47u8, 62u8, 60u8, 47u8, 97u8, 58u8, 115u8, 116u8, 114u8, 101u8, 116u8, 99u8, 104u8, 62u8, 60u8, 47u8, 97u8, 58u8, 98u8, 108u8, 105u8, 112u8, 70u8, 105u8, 108u8, 108u8, 62u8],
        e.name@ == /* a:blipFill */ seq![97u8, 58u8, 98u8, 108u8, 105u8, 112u8, 70u8, 105u8, 108u8, 108u8],
{
    let bn: [u8; 6] = /* a:blip */ [97u8, 58u8, 98u8, 108u8, 105u8, 112u8];
    let k: [u8; 7] = /* r:embed */ [114u8, 58u8, 101u8, 109u8, 98u8, 101u8, 100u8];
    let sn: [u8; 9] = /* a:stretch */ [97u8, 58u8, 115u8, 116u8, 114u8, 101u8, 116u8, 99u8, 104u8];
    let fr: [u8; 10] = /* a:fillRect */ [97u8, 58u8, 102u8, 105u8, 108u8, 108u8, 82u8, 101u8, 99u8, 116u8];
    let bf: [u8; 10] = /* a:blipFill */ [97u8, 58u8, 98u8, 108u8, 105u8, 112u8, 70u8, 105u8, 108u8, 108u8];
    assert(bn@ =~= /* a:blip */ seq![97u8, 58u8, 98u8, 108u8, 105u8, 112u8]);
    assert(k@ =~= /* r:embed */ seq![114u8, 58u8, 101u8, 109u8, 98u8, 101u8, 100u8]);
    assert(sn@ =~= /* a:stretch */ seq![97u8, 58u8, 115u8, 116u8, 114u8, 101u8, 116u8, 99u8, 104u8]);
    assert(fr@ =~= /* a:fillRect */ seq![97u8, 58u8, 102u8, 105u8, 108u8, 108u8, 82u8, 101u8, 99u8, 116u8]);
    assert(bf@ =~= /* a:blipFill */ seq![97u8, 58u8, 98u8, 108u8, 105u8, 112u8, 70u8, 105u8, 108u8, 108u8]);
    let v = escape_attr(r_id.as_str());
    let blip = super::fresh_leaf(bn.as_slice(), k.as_slice(), v.as_str().as_bytes());
    let stretch = wrap_one(sn.as_slice(), empty_leaf(fr.as_slice()));
    let e = wrap_two(bf.as_slice(), blip, stretch);
    assert(element_bytes(e) =~= /* <a:blipFill><a:blip r:embed=\" */ seq![60u8, 97u8, 58u8, 98u8, 108u8, 105u8, 112u8, 70u8, 105u8, 108u8, 108u8, 62u8, 60u8, 97u8, 58u8, 98u8, 108u8, 105u8, 112u8, 32u8, 114u8, 58u8, 101u8, 109u8, 98u8, 101u8, 100u8, 61u8, 34u8] + encode_utf8(attr_escape_chars(r_id@))
        + /* \"/><a:stretch><a:fillRect/></a:stretch></a:blipFill> */ seq![34u8, 47u8, 62u8, 60u8, 97u8, 58u8, 115u8, 116u8, 114u8, 101u8, 116u8, 99u8, 104u8, 62u8, 60u8, 97u8, 58u8, 102u8, 105u8, 108u8, 108u8, 82u8, 101u8, 99u8, 116u8, 47u8, 62u8, 60u8, 47u8, 97u8, 58u8, 115u8, 116u8, 114u8, 101u8, 116u8, 99u8, 104u8, 62u8, 60u8, 47u8, 97u8, 58u8, 98u8, 108u8, 105u8, 112u8, 70u8, 105u8, 108u8, 108u8, 62u8]);
    e
}

/// The element of a fill.
fn fill_element(f: &FillSpec) -> (e: Element)
    ensures
        element_bytes(e) == fill_bytes(*f),
        e.local() == fill_local(*f),
{
    match f {
        FillSpec::NoFill => {
            let n: [u8; 8] = /* a:noFill */ [97u8, 58u8, 110u8, 111u8, 70u8, 105u8, 108u8, 108u8];
            assert(n@ =~= /* a:noFill */ seq![97u8, 58u8, 110u8, 111u8, 70u8, 105u8, 108u8, 108u8]);
            proof {
                assert(/* a:noFill */ seq![97u8, 58u8, 110u8, 111u8, 70u8, 105u8, 108u8, 108u8] =~= seq![97u8, 58u8] + /* noFill */ seq![110u8, 111u8, 70u8, 105u8, 108u8, 108u8]);
                crate::xml::lemma_local_of_prefixed(97u8, /* noFill */ seq![110u8, 111u8, 70u8, 105u8, 108u8, 108u8]);
            }
            let e = empty_leaf(n.as_slice());
            assert(element_bytes(e) =~= fill_bytes(*f));
            e
        },
        FillSpec::Solid { color } => {
            let n: [u8; 11] = /* a:solidFill */ [97u8, 58u8, 115u8, 111u8, 108u8, 105u8, 100u8, 70u8, 105u8, 108u8, 108u8];
            assert(n@ =~= /* a:solidFill */ seq![97u8, 58u8, 115u8, 111u8, 108u8, 105u8, 100u8, 70u8, 105u8, 108u8, 108u8]);
            proof {
                assert(/* a:solidFill */ seq![97u8, 58u8, 115u8, 111u8, 108u8, 105u8, 100u8, 70u8, 105u8, 108u8, 108u8] =~= seq![97u8, 58u8] + /* solidFill */ seq![115u8, 111u8, 108u8, 105u8, 100u8, 70u8, 105u8, 108u8, 108u8]);
                crate::xml::lemma_local_of_prefixed(97u8, /* solidFill */ seq![115u8, 111u8, 108u8, 105u8, 100u8, 70u8, 105u8, 108u8, 108u8]);
            }
            let e = wrap_one(n.as_slice(), color_element(color));
            assert(element_bytes(e) =~= fill_bytes(*f));
            e
        },
        FillSpec::Gradient { stops, angle } => {
            proof {
                assert(/* a:gradFill */ seq![97u8, 58u8, 103u8, 114u8, 97u8, 100u8, 70u8, 105u8, 108u8, 108u8] =~= seq![97u8, 58u8] + /* gradFill */ seq![103u8, 114u8, 97u8, 100u8, 70u8, 105u8, 108u8, 108u8]);
                crate::xml::lemma_local_of_prefixed(97u8, /* gradFill */ seq![103u8, 114u8, 97u8, 100u8, 70u8, 105u8, 108u8, 108u8]);
            }
            gradient_element(stops, *angle)
        },
        FillSpec::Pattern { preset, fg, bg } => {
            proof {
                assert(/* a:pattFill */ seq![97u8, 58u8, 112u8, 97u8, 116u8, 116u8, 70u8, 105u8, 108u8, 108u8] =~= seq![97u8, 58u8] + /* pattFill */ seq![112u8, 97u8, 116u8, 116u8, 70u8, 105u8, 108u8, 108u8]);
                crate::xml::lemma_local_of_prefixed(97u8, /* pattFill */ seq![112u8, 97u8, 116u8, 116u8, 70u8, 105u8, 108u8, 108u8]);
            }
            pattern_element(preset, fg, bg)
        },
        FillSpec::Picture { r_id } => {
            proof {
                assert(/* a:blipFill */ seq![97u8, 58u8, 98u8, 108u8, 105u8, 112u8, 70u8, 105u8, 108u8, 108u8] =~= seq![97u8, 58u8] + /* blipFill */ seq![98u8, 108u8, 105u8, 112u8, 70u8, 105u8, 108u8, 108u8]);
                crate::xml::lemma_local_of_prefixed(97u8, /* blipFill */ seq![98u8, 108u8, 105u8, 112u8, 70u8, 105u8, 108u8, 108u8]);
            }
            picture_fill_element(r_id)
        },
    }
}

/// Remove every fill element among the children.
pub(crate) fn drop_fills(e: &mut Element)
    ensures
        same_tags(*old(e), *final(e)),
        final(e).children@ == without_fills(old(e).children@),
{
    let a: [u8; 6] = /* noFill */ [110u8, 111u8, 70u8, 105u8, 108u8, 108u8];
    let b: [u8; 9] = /* solidFill */ [115u8, 111u8, 108u8, 105u8, 100u8, 70u8, 105u8, 108u8, 108u8];
    let c: [u8; 8] = /* gradFill */ [103u8, 114u8, 97u8, 100u8, 70u8, 105u8, 108u8, 108u8];
    let d: [u8; 8] = /* blipFill */ [98u8, 108u8, 105u8, 112u8, 70u8, 105u8, 108u8, 108u8];
    let f: [u8; 8] = /* pattFill */ [112u8, 97u8, 116u8, 116u8, 70u8, 105u8, 108u8, 108u8];
    let g: [u8; 7] = /* grpFill */ [103u8, 114u8, 112u8, 70u8, 105u8, 108u8, 108u8];
    assert(a@ =~= /* noFill */ seq![110u8, 111u8, 70u8, 105u8, 108u8, 108u8]);
    assert(b@ =~= /* solidFill */ seq![115u8, 111u8, 108u8, 105u8, 100u8, 70u8, 105u8, 108u8, 108u8]);
    assert(c@ =~= /* gradFill */ seq![103u8, 114u8, 97u8, 100u8, 70u8, 105u8, 108u8, 108u8]);
    assert(d@ =~= /* blipFill */ seq![98u8, 108u8, 105u8, 112u8, 70u8, 105u8, 108u8, 108u8]);
    assert(f@ =~= /* pattFill */ seq![112u8, 97u8, 116u8, 116u8, 70u8, 105u8, 108u8, 108u8]);
    assert(g@ =~= /* grpFill */ seq![103u8, 114u8, 112u8, 70u8, 105u8, 108u8, 108u8]);
    drop_children_named(e, a.as_slice(), b.as_slice(), c.as_slice());
    drop_children_named(e, d.as_slice(), f.as_slice(), g.as_slice());
}

// ─── Shape fill ─────────────────────────────────────────────────────────────

/// `s1` is shape properties `s0` without their fills and with a fill written
/// as `bytes`, named `local`, inserted in schema order; it is then written
/// with an open and a close tag.
pub open spec fn fill_set(s0: Element, s1: Element, bytes: Seq<u8>, local: Seq<u8>) -> bool {
    let kept = without_fills(s0.children@);
    &&& s1.name == s0.name
    &&& s1.raw_start == s0.raw_start
    &&& s1.raw_end == s0.raw_end
    &&& s1.attrs == s0.attrs
    &&& !s1.self_closing
    &&& s1.dirty == (s0.dirty || s0.self_closing)
    &&& exists|n: Node| {
        &&& #[trigger] node_bytes(n) == bytes
        &&& n matches Node::Element(ne) && ne.local() == local
        &&& s1.children@ == kept.insert(ordered_position(s0.local(), kept, n), n)
    }
}

fn put_fill(sppr: &mut Element, fe: Element)
    ensures
        fill_set(*old(sppr), *final(sppr), element_bytes(fe), fe.local()),
{
    let ghost node = Node::Element(fe);
    drop_fills(sppr);
    if sppr.self_closing {
        sppr.self_closing = false;
        sppr.dirty = true;
    }
    proof { assert(local_of(sppr.name@) == sppr.local()); }
    sppr.insert_child_ordered(Node::Element(fe));
    assert(node_bytes(node) == element_bytes(fe));
}

impl SlideDom {
    /// Set the fill of drawable `shape_idx`: its `spPr` (appended fresh when
    /// absent) loses every fill element and gets the one for `fill`, in
    /// schema order. Fails, changing nothing, when there is no such shape.
    pub fn set_shape_fill(&mut self, shape_idx: usize, fill: &FillSpec) -> (r: Result<(), OxmlError>)
        requires
            tree_child_path(old(self).document(), kind_drawable(), shape_idx as int) is Some ==> fill_colors_ok(*fill),
        ensures
            r is Ok <==> tree_child_path(old(self).document(), kind_drawable(), shape_idx as int) is Some,
            r is Err ==> final(self).document() == old(self).document(),
            r is Ok ==> {
                let sp = tree_child_path(old(self).document(), kind_drawable(), shape_idx as int).unwrap();
                exists|new_sp: Element, s0: Element, s1: Element| {
                    &&& #[trigger] doc_replaced(old(self).document(), final(self).document(), sp, new_sp)
                    &&& #[trigger] sppr_ensured(doc_at(old(self).document(), sp), new_sp, s0, s1)
                    &&& fill_set(s0, s1, fill_bytes(*fill), fill_local(*fill))
                }
            },
    {
        let p = match find_tree_child_path(&self.doc, 3, shape_idx) {
            Some(p) => p,
            None => return Err(OxmlError::Parse(message("no shape at index ", shape_idx, ""))),
        };
        let fe = fill_element(fill);
        let ghost old_sp = doc_at(self.doc, p@);
        let sp = self.doc.element_at_mut(&p).unwrap();
        let sppr = ensure_sppr(sp);
        let ghost s0 = *sppr;
        put_fill(sppr, fe);
        let ghost s1 = *sppr;
        let ghost new_sp = *sp;
        proof {
            assert(self.document() == self.doc);
            assert(old(self).document() == old(self).doc);
            let spp = tree_child_path(old(self).document(), kind_drawable(), shape_idx as int).unwrap();
            assert(spp == p@);
            assert(old_sp == doc_at(old(self).document(), spp));
            assert(doc_replaced(old(self).document(), self.document(), spp, new_sp));
            assert(sppr_ensured(doc_at(old(self).document(), spp), new_sp, s0, s1));
            assert(fill_set(s0, s1, fill_bytes(*fill), fill_local(*fill)));
        }
        Ok(())
    }
}

// ─── Cell fill ──────────────────────────────────────────────────────────────

/// `new` is cell `old` whose properties (its first `tcPr`, or a fresh
/// self-closing `a:tcPr` put first when it has none) lost every fill element
/// and got a child written as `bytes` appended; the properties element is
/// then written with an open and a close tag.
pub open spec fn cell_fill_set(old: Element, new: Element, bytes: Seq<u8>) -> bool {
    let i = tcpr_index(old);
    let slot = tcpr_slot(old);
    &&& same_tags(old, new)
    &&& new.children@.len() > slot
    &&& new.children@[slot] is Element
    &&& new.children@ == if i >= 0 {
        old.children@.update(slot, new.children@[slot])
    } else {
        old.children@.insert(0, new.children@[0])
    }
    &&& {
        let q = new.children@[slot]->Element_0;
        &&& !q.self_closing
        &&& q.children@.len() > 0
        &&& node_bytes(q.children@.last()) == bytes
        &&& if i >= 0 {
            let o = old.children@[i]->Element_0;
            &&& q.name == o.name
            &&& q.raw_start == o.raw_start
            &&& q.raw_end == o.raw_end
            &&& q.attrs == o.attrs
            &&& q.dirty == (o.dirty || o.self_closing)
            &&& q.children@.drop_last() == without_fills(o.children@)
        } else {
            &&& q.name@ == /* a:tcPr */ seq![97u8, 58u8, 116u8, 99u8, 80u8, 114u8]
            &&& q.attrs_v().len() == 0
            &&& q.raw_start@.len() == 0
            &&& q.raw_end@.len() == 0
            &&& q.dirty
            &&& q.children@.len() == 1
        }
    }
}

fn append_fill(pr: &mut Element, fe: Element)
    ensures
        final(pr).name == old(pr).name,
        final(pr).raw_start == old(pr).raw_start,
        final(pr).raw_end == old(pr).raw_end,
        final(pr).attrs == old(pr).attrs,
        final(pr).dirty == (old(pr).dirty || old(pr).self_closing),
        !final(pr).self_closing,
        final(pr).children@ == without_fills(old(pr).children@).push(Node::Element(fe)),
{
    drop_fills(pr);
    if pr.self_closing {
        pr.self_closing = false;
        pr.dirty = true;
    }
    pr.children.push(Node::Element(fe));
}

impl SlideDom {
    /// Set the fill of the cell at (`row_idx`, `col_idx`) of the table of
    /// drawable `shape_idx`: its `a:tcPr` (created first when absent) loses
    /// every fill element and gets the one for `fill` last. Fails, changing
    /// nothing, when there is no such cell.
    pub fn set_cell_fill(&mut self, shape_idx: usize, row_idx: usize, col_idx: usize, fill: &FillSpec) -> (r: Result<(), OxmlError>)
        requires
            cell_path(old(self).document(), shape_idx as int, row_idx as int, col_idx as int) is Some ==> fill_colors_ok(*fill),
        ensures
            r is Ok <==> cell_path(old(self).document(), shape_idx as int, row_idx as int, col_idx as int) is Some,
            r is Err ==> final(self).document() == old(self).document(),
            r is Ok ==> {
                let q = cell_path(old(self).document(), shape_idx as int, row_idx as int, col_idx as int).unwrap();
                exists|new_c: Element| {
                    &&& #[trigger] doc_replaced(old(self).document(), final(self).document(), q, new_c)
                    &&& cell_fill_set(doc_at(old(self).document(), q), new_c, fill_bytes(*fill))
                }
            },
    {
        let p = match find_cell_path(&self.doc, shape_idx, row_idx, col_idx) {
            Ok(p) => p,
            Err(e) => return Err(e),
        };
        let fe = fill_element(fill);
        let ghost fb = element_bytes(fe);
        let ghost old_c = doc_at(self.doc, p@);
        let tc = self.doc.element_at_mut(&p).unwrap();
        let pr = tcpr_mut(tc);
        append_fill(pr, fe);
        let ghost new_c = *tc;
        proof {
            let slot = tcpr_slot(old_c);
            let q = new_c.children@[slot]->Element_0;
            assert(q.children@.drop_last() =~= without_fills(
                if tcpr_index(old_c) >= 0 { old_c.children@[tcpr_index(old_c)]->Element_0.children@ } else { Seq::empty() },
            ));
            if tcpr_index(old_c) < 0 {
                assert(without_names(Seq::<Node>::empty(), /* noFill */ seq![110u8, 111u8, 70u8, 105u8, 108u8, 108u8], /* solidFill */ seq![115u8, 111u8, 108u8, 105u8, 100u8, 70u8, 105u8, 108u8, 108u8], /* gradFill */ seq![103u8, 114u8, 97u8, 100u8, 70u8, 105u8, 108u8, 108u8]) =~= Seq::<Node>::empty());
                assert(without_fills(Seq::<Node>::empty()) =~= Seq::<Node>::empty());
            }
            assert(cell_fill_set(old_c, new_c, fill_bytes(*fill)));
            assert(self.document() == self.doc);
            assert(old(self).document() == old(self).doc);
            assert(old_c == doc_at(old(self).document(), cell_path(old(self).document(), shape_idx as int, row_idx as int, col_idx as int).unwrap()));
        }
        Ok(())
    }
}

} // verus!
