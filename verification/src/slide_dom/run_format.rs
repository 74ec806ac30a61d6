//! Character formatting of runs: the attributes, fill and typeface of their
//! `a:rPr`.

use vstd::prelude::*;
use vstd::utf8::encode_utf8;
use crate::error::OxmlError;
use crate::text::{dec_i64, dec_int, push_str, string_of};
use crate::xml::{
    attr_escape_chars, attrs_view, doc_replaced, doc_root, element_at, escape_attr, first_named_index,
    first_named_position, is_named, lemma_first_named_index, local_of, node_bytes, node_element_mut, same_tags,
    valid_path, Document, Element, Node,
};
use super::{
    doc_at, drop_children_named, find_paragraph_path, lemma_path_push, message, nth_position, without_names,
    ColorSpec, RunFormat, SlideDom,
};
use super::fills::{drop_fills, without_fills, wrap_one};
use super::placeholders::{find_placeholder_path, find_tx_below, placeholder_tx_path};
use super::shape_props::{
    color_element, kv, prop_after, prop_base, prop_mut, prop_replaced, run_path, set_attrs, solid_fill_bytes,
};
use super::table::{message2, set_attrs_spec};

verus! {

// ─── What a format writes ───────────────────────────────────────────────────

/// `k="1"` or `k="0"` when the flag is set.
pub open spec fn flag_kv(k: Seq<u8>, v: Option<bool>) -> Seq<(Seq<u8>, Seq<u8>)> {
    match v {
        Some(b) => seq![(k, if b { /* 1 */ seq![49u8] } else { /* 0 */ seq![48u8] })],
        None => Seq::empty(),
    }
}

/// `k="text"` when the text is set.
pub open spec fn text_kv(k: Seq<u8>, v: Option<String>) -> Seq<(Seq<u8>, Seq<u8>)> {
    match v {
        Some(t) => seq![(k, encode_utf8(t@))],
        None => Seq::empty(),
    }
}

/// `k="number"` when the number is set.
pub open spec fn int_kv(k: Seq<u8>, v: Option<int>) -> Seq<(Seq<u8>, Seq<u8>)> {
    match v {
        Some(n) => seq![(k, encode_utf8(dec_int(n)))],
        None => Seq::empty(),
    }
}

/// The underline attribute: the style when given, else `sng` or `none`.
pub open spec fn underline_kv(f: RunFormat) -> Seq<(Seq<u8>, Seq<u8>)> {
    match f.underline_style {
        Some(s) => seq![(/* u */ seq![117u8], encode_utf8(s@))],
        None => match f.underline {
            Some(u) => seq![(/* u */ seq![117u8], if u { /* sng */ seq![115u8, 110u8, 103u8] } else { /* none */ seq![110u8, 111u8, 110u8, 101u8] })],
            None => Seq::empty(),
        },
    }
}

/// The attributes a format sets on run properties, in the order they are
/// set: bold, italic, underline, size, strikethrough, baseline, language.
pub open spec fn format_kvs(f: RunFormat) -> Seq<(Seq<u8>, Seq<u8>)> {
    flag_kv(/* b */ seq![98u8], f.bold) + flag_kv(/* i */ seq![105u8], f.italic) + underline_kv(f) + int_kv(
        /* sz */ seq![115u8, 122u8],
        match f.size {
            Some(s) => Some(s as int),
            None => None,
        },
    ) + text_kv(/* strike */ seq![115u8, 116u8, 114u8, 105u8, 107u8, 101u8], f.strikethrough) + int_kv(
        /* baseline */ seq![98u8, 97u8, 115u8, 101u8, 108u8, 105u8, 110u8, 101u8],
        match f.baseline {
            Some(b) => Some(b as int),
            None => None,
        },
    ) + text_kv(/* lang */ seq![108u8, 97u8, 110u8, 103u8], f.lang)
}

/// The solid fill a format gives run text: the theme color when given, else
/// the RGB color.
pub open spec fn format_fill(f: RunFormat) -> Option<Seq<u8>> {
    match f.theme_color {
        Some(sc) => Some(solid_fill_bytes(ColorSpec::Theme(sc))),
        None => match f.color {
            Some(h) => Some(solid_fill_bytes(ColorSpec::Rgb(h))),
            None => None,
        },
    }
}

/// Whether the color markup a format writes can be read back: an RGB value
/// that is used holds no `"`.
pub open spec fn format_colors_ok(f: RunFormat) -> bool {
    match f.theme_color {
        Some(_) => true,
        None => match f.color {
            Some(h) => !h@.contains('"'),
            None => true,
        },
    }
}

/// The bytes of a Latin typeface element.
pub open spec fn latin_bytes(font: Seq<char>) -> Seq<u8> {
    /* <a:latin typeface=\" */ seq![60u8, 97u8, 58u8, 108u8, 97u8, 116u8, 105u8, 110u8, 32u8, 116u8, 121u8, 112u8, 101u8, 102u8, 97u8, 99u8, 101u8, 61u8, 34u8] + encode_utf8(attr_escape_chars(font)) + /* \"/> */ seq![34u8, 47u8, 62u8]
}

/// Where a run fill goes among run properties: just after the first
/// outline (`ln`), or first.
pub open spec fn after_line(ns: Seq<Node>) -> int {
    let i = first_named_index(ns, /* ln */ seq![108u8, 110u8]);
    if i >= 0 {
        i + 1
    } else {
        0
    }
}

/// `ms` is `ns` without its fills and with a node written as `bytes` put
/// where run fills go.
pub open spec fn rpr_fill_put(ns: Seq<Node>, ms: Seq<Node>, bytes: Seq<u8>) -> bool {
    let kept = without_fills(ns);
    exists|n: Node| #[trigger] node_bytes(n) == bytes && ms == kept.insert(after_line(kept), n)
}

/// `ms` is `ns` without its `latin` elements and with a node written as
/// `bytes` appended.
pub open spec fn rpr_font_put(ns: Seq<Node>, ms: Seq<Node>, bytes: Seq<u8>) -> bool {
    exists|n: Node| #[trigger] node_bytes(n) == bytes && ms == without_names(ns, /* latin */ seq![108u8, 97u8, 116u8, 105u8, 110u8], /* latin */ seq![108u8, 97u8, 116u8, 105u8, 110u8], /* latin */ seq![108u8, 97u8, 116u8, 105u8, 110u8]).push(n)
}

/// The children of run properties after the fill step of a format.
pub open spec fn fill_stage(ns: Seq<Node>, ms: Seq<Node>, f: RunFormat) -> bool {
    match format_fill(f) {
        Some(b) => rpr_fill_put(ns, ms, b),
        None => ms == ns,
    }
}

/// The children of run properties after the typeface step of a format.
pub open spec fn font_stage(ns: Seq<Node>, ms: Seq<Node>, f: RunFormat) -> bool {
    match f.font {
        Some(ft) => rpr_font_put(ns, ms, latin_bytes(ft@)),
        None => ms == ns,
    }
}

/// `q` is run properties `b` (as name, attributes, children, self-closing,
/// dirty, original start and end tags) formatted by `f`: the attributes of
/// `f` set in order, then its fill, then its typeface; written with an
/// open and a close tag once it has children.
pub open spec fn rpr_formatted(
    b: (Seq<u8>, Seq<(Seq<u8>, Seq<u8>)>, Seq<Node>, bool, bool, Seq<u8>, Seq<u8>),
    q: Element,
    f: RunFormat,
) -> bool {
    &&& q.name@ == b.0
    &&& q.raw_start@ == b.5
    &&& q.raw_end@ == b.6
    &&& q.attrs_v() == set_attrs_spec(b.1, format_kvs(f))
    &&& exists|mid: Seq<Node>| #[trigger] fill_stage(b.2, mid, f) && font_stage(mid, q.children@, f)
    &&& q.self_closing == (b.3 && q.children@.len() == 0)
    &&& q.dirty == (b.4 || format_kvs(f).len() > 0 || (b.3 && q.children@.len() > 0))
}

/// `new` is run `old` formatted by `f`: its first `rPr` (or a fresh
/// self-closing `a:rPr` put first when it has none) is formatted; nothing
/// else changed.
pub open spec fn run_formatted(old: Element, new: Element, f: RunFormat) -> bool {
    &&& prop_replaced(old, new, /* rPr */ seq![114u8, 80u8, 114u8])
    &&& rpr_formatted(prop_base(old, /* rPr */ seq![114u8, 80u8, 114u8], /* a:rPr */ seq![97u8, 58u8, 114u8, 80u8, 114u8]), prop_after(old, new, /* rPr */ seq![114u8, 80u8, 114u8]), f)
}

fn push_kv(out: &mut Vec<(Vec<u8>, Vec<u8>)>, k: &[u8], v: &[u8])
    ensures
        attrs_view(final(out)@) == attrs_view(old(out)@).push((k@, v@)),
{
    out.push(kv(k, v));
    assert(attrs_view(out@) =~= attrs_view(old(out)@).push((k@, v@)));
}

fn flag_attr(out: &mut Vec<(Vec<u8>, Vec<u8>)>, k: &[u8], v: Option<bool>)
    ensures
        attrs_view(final(out)@) == attrs_view(old(out)@) + flag_kv(k@, v),
{
    let one: [u8; 1] = /* 1 */ [49u8];
    let zero: [u8; 1] = /* 0 */ [48u8];
    assert(one@ =~= /* 1 */ seq![49u8]);
    assert(zero@ =~= /* 0 */ seq![48u8]);
    match v {
        Some(b) => {
            if b {
                push_kv(out, k, one.as_slice());
            } else {
                push_kv(out, k, zero.as_slice());
            }
        },
        None => {},
    }
    assert(attrs_view(out@) =~= attrs_view(old(out)@) + flag_kv(k@, v));
}

fn text_attr(out: &mut Vec<(Vec<u8>, Vec<u8>)>, k: &[u8], v: &Option<String>)
    ensures
        attrs_view(final(out)@) == attrs_view(old(out)@) + text_kv(k@, *v),
{
    match v {
        Some(t) => push_kv(out, k, t.as_str().as_bytes()),
        None => {},
    }
    assert(attrs_view(out@) =~= attrs_view(old(out)@) + text_kv(k@, *v));
}

fn number_attr(out: &mut Vec<(Vec<u8>, Vec<u8>)>, k: &[u8], v: Option<i64>)
    ensures
        attrs_view(final(out)@) == attrs_view(old(out)@) + int_kv(
            k@,
            match v {
                Some(n) => Some(n as int),
                None => None,
            },
        ),
{
    match v {
        Some(n) => {
            let d = dec_i64(n);
            push_kv(out, k, d.as_str().as_bytes());
        },
        None => {},
    }
    assert(attrs_view(out@) =~= attrs_view(old(out)@) + int_kv(
        k@,
        match v {
            Some(n) => Some(n as int),
            None => None,
        },
    ));
}

fn underline_attr(out: &mut Vec<(Vec<u8>, Vec<u8>)>, f: &RunFormat)
    ensures
        attrs_view(final(out)@) == attrs_view(old(out)@) + underline_kv(*f),
{
    let u: [u8; 1] = /* u */ [117u8];
    let sng: [u8; 3] = /* sng */ [115u8, 110u8, 103u8];
    let none: [u8; 4] = /* none */ [110u8, 111u8, 110u8, 101u8];
    assert(u@ =~= /* u */ seq![117u8]);
    assert(sng@ =~= /* sng */ seq![115u8, 110u8, 103u8]);
    assert(none@ =~= /* none */ seq![110u8, 111u8, 110u8, 101u8]);
    match &f.underline_style {
        Some(s) => push_kv(out, u.as_slice(), s.as_str().as_bytes()),
        None => match f.underline {
            Some(b) => {
                if b {
                    push_kv(out, u.as_slice(), sng.as_slice());
                } else {
                    push_kv(out, u.as_slice(), none.as_slice());
                }
            },
            None => {},
        },
    }
    assert(attrs_view(out@) =~= attrs_view(old(out)@) + underline_kv(*f));
}

/// The attributes of a format, in the order they are set.
fn format_attr_list(f: &RunFormat) -> (r: Vec<(Vec<u8>, Vec<u8>)>)
    ensures
        attrs_view(r@) == format_kvs(*f),
{
    let kb: [u8; 1] = /* b */ [98u8];
    let ki: [u8; 1] = /* i */ [105u8];
    let ksz: [u8; 2] = /* sz */ [115u8, 122u8];
    let kst: [u8; 6] = /* strike */ [115u8, 116u8, 114u8, 105u8, 107u8, 101u8];
    let kbl: [u8; 8] = /* baseline */ [98u8, 97u8, 115u8, 101u8, 108u8, 105u8, 110u8, 101u8];
    let kl: [u8; 4] = /* lang */ [108u8, 97u8, 110u8, 103u8];
    assert(kb@ =~= /* b */ seq![98u8]);
    assert(ki@ =~= /* i */ seq![105u8]);
    assert(ksz@ =~= /* sz */ seq![115u8, 122u8]);
    assert(kst@ =~= /* strike */ seq![115u8, 116u8, 114u8, 105u8, 107u8, 101u8]);
    assert(kbl@ =~= /* baseline */ seq![98u8, 97u8, 115u8, 101u8, 108u8, 105u8, 110u8, 101u8]);
    assert(kl@ =~= /* lang */ seq![108u8, 97u8, 110u8, 103u8]);
    let mut out: Vec<(Vec<u8>, Vec<u8>)> = Vec::new();
    assert(attrs_view(out@) =~= Seq::<(Seq<u8>, Seq<u8>)>::empty());
    flag_attr(&mut out, kb.as_slice(), f.bold);
    flag_attr(&mut out, ki.as_slice(), f.italic);
    underline_attr(&mut out, f);
    number_attr(&mut out, ksz.as_slice(), f.size);
    text_attr(&mut out, kst.as_slice(), &f.strikethrough);
    let bl: Option<i64> = match f.baseline {
        Some(b) => Some(b as i64),
        None => None,
    };
    number_attr(&mut out, kbl.as_slice(), bl);
    text_attr(&mut out, kl.as_slice(), &f.lang);
    assert(attrs_view(out@) =~= format_kvs(*f));
    out
}

/// The solid fill element of a format, when it sets a color.
fn format_fill_element(f: &RunFormat) -> (r: Option<Element>)
    ensures
        match format_fill(*f) {
            Some(b) => r matches Some(e) && node_bytes(Node::Element(e)) == b,
            None => r is None,
        },
{
    let sf: [u8; 11] = /* a:solidFill */ [97u8, 58u8, 115u8, 111u8, 108u8, 105u8, 100u8, 70u8, 105u8, 108u8, 108u8];
    assert(sf@ =~= /* a:solidFill */ seq![97u8, 58u8, 115u8, 111u8, 108u8, 105u8, 100u8, 70u8, 105u8, 108u8, 108u8]);
    match f.theme_color {
        Some(sc) => {
            let c = ColorSpec::Theme(sc);
            let e = wrap_one(sf.as_slice(), color_element(&c));
            assert(node_bytes(Node::Element(e)) =~= solid_fill_bytes(c));
            Some(e)
        },
        None => match &f.color {
            Some(h) => {
                let c = ColorSpec::Rgb(h.clone());
                let e = wrap_one(sf.as_slice(), color_element(&c));
                assert(node_bytes(Node::Element(e)) =~= solid_fill_bytes(c));
                Some(e)
            },
            None => None,
        },
    }
}

fn latin_element(font: &String) -> (e: Element)
    ensures
        node_bytes(Node::Element(e)) == latin_bytes(font@),
{
    let n: [u8; 7] = /* a:latin */ [97u8, 58u8, 108u8, 97u8, 116u8, 105u8, 110u8];
    let k: [u8; 8] = /* typeface */ [116u8, 121u8, 112u8, 101u8, 102u8, 97u8, 99u8, 101u8];
    assert(n@ =~= /* a:latin */ seq![97u8, 58u8, 108u8, 97u8, 116u8, 105u8, 110u8]);
    assert(k@ =~= /* typeface */ seq![116u8, 121u8, 112u8, 101u8, 102u8, 97u8, 99u8, 101u8]);
    let v = escape_attr(font.as_str());
    let e = super::fresh_leaf(n.as_slice(), k.as_slice(), v.as_str().as_bytes());
    assert(node_bytes(Node::Element(e)) =~= latin_bytes(font@));
    e
}

fn put_rpr_fill(q: &mut Element, fe: Element)
    ensures
        same_tags(*old(q), *final(q)),
        final(q).children@ == without_fills(old(q).children@).insert(
            after_line(without_fills(old(q).children@)),
            Node::Element(fe),
        ),
{
    drop_fills(q);
    let ln: [u8; 2] = /* ln */ [108u8, 110u8];
    assert(ln@ =~= /* ln */ seq![108u8, 110u8]);
    proof { lemma_first_named_index(q.children@, /* ln */ seq![108u8, 110u8]); }
    let len = q.children.len();
    let pos = match first_named_position(&q.children, ln.as_slice()) {
        Some(i) => i + 1,
        None => 0,
    };
    q.children.insert(pos, Node::Element(fe));
}

fn put_latin(q: &mut Element, le: Element)
    ensures
        same_tags(*old(q), *final(q)),
        final(q).children@ == without_names(old(q).children@, /* latin */ seq![108u8, 97u8, 116u8, 105u8, 110u8], /* latin */ seq![108u8, 97u8, 116u8, 105u8, 110u8], /* latin */ seq![108u8, 97u8, 116u8, 105u8, 110u8]).push(Node::Element(le)),
{
    let l: [u8; 5] = /* latin */ [108u8, 97u8, 116u8, 105u8, 110u8];
    assert(l@ =~= /* latin */ seq![108u8, 97u8, 116u8, 105u8, 110u8]);
    drop_children_named(q, l.as_slice(), l.as_slice(), l.as_slice());
    q.children.push(Node::Element(le));
}

/// Format run properties in place.
fn format_rpr(q: &mut Element, f: &RunFormat)
    ensures
        rpr_formatted(
            (old(q).name@, old(q).attrs_v(), old(q).children@, old(q).self_closing, old(q).dirty, old(q).raw_start@, old(q).raw_end@),
            *final(q),
            *f,
        ),
{
    let kvs = format_attr_list(f);
    let fill = format_fill_element(f);
    let latin = match &f.font {
        Some(ft) => Some(latin_element(ft)),
        None => None,
    };
    set_attrs(q, &kvs);
    let ghost c0 = q.children@;
    match fill {
        Some(fe) => put_rpr_fill(q, fe),
        None => {},
    }
    let ghost mid = q.children@;
    match latin {
        Some(le) => put_latin(q, le),
        None => {},
    }
    proof {
        assert(c0 == old(q).children@);
        if format_fill(*f) is Some {
            let b = format_fill(*f)->0;
            let fe = fill->0;
            assert(node_bytes(Node::Element(fe)) == b);
            assert(rpr_fill_put(c0, mid, b));
        }
        assert(fill_stage(c0, mid, *f));
        if f.font is Some {
            let ft = f.font->0;
            let le = latin->0;
            assert(node_bytes(Node::Element(le)) == latin_bytes(ft@));
            assert(rpr_font_put(mid, q.children@, latin_bytes(ft@)));
        }
        assert(font_stage(mid, q.children@, *f));
    }
    proof {
        assert(kvs@.len() == attrs_view(kvs@).len());
        assert(q.attrs_v() == set_attrs_spec(old(q).attrs_v(), format_kvs(*f)));
        assert(q.dirty == (old(q).dirty || format_kvs(*f).len() > 0));
        assert(q.self_closing == old(q).self_closing);
    }
    if q.self_closing && q.children.len() > 0 {
        q.self_closing = false;
        q.dirty = true;
    }
    proof {
        let b = (old(q).name@, old(q).attrs_v(), old(q).children@, old(q).self_closing, old(q).dirty, old(q).raw_start@, old(q).raw_end@);
        assert(b.2 == old(q).children@);
        assert(fill_stage(b.2, mid, *f) && font_stage(mid, q.children@, *f));
        assert(rpr_formatted(b, *q, *f));
    }
}

/// Format one run.
fn format_run_el(run: &mut Element, f: &RunFormat)
    ensures
        run_formatted(*old(run), *final(run), *f),
{
    let rl: [u8; 3] = /* rPr */ [114u8, 80u8, 114u8];
    let rq: [u8; 5] = /* a:rPr */ [97u8, 58u8, 114u8, 80u8, 114u8];
    assert(rl@ =~= /* rPr */ seq![114u8, 80u8, 114u8]);
    assert(rq@ =~= /* a:rPr */ seq![97u8, 58u8, 114u8, 80u8, 114u8]);
    proof {
        assert(/* a:rPr */ seq![97u8, 58u8, 114u8, 80u8, 114u8] =~= seq![97u8, 58u8] + /* rPr */ seq![114u8, 80u8, 114u8]);
        crate::xml::lemma_local_of_prefixed(97u8, /* rPr */ seq![114u8, 80u8, 114u8]);
    }
    let q = prop_mut(run, rl.as_slice(), rq.as_slice());
    format_rpr(q, f);
}

// ─── Formatting every run of a text body ────────────────────────────────────

/// Node `o` became `n`: formatted when it is a run, else unchanged.
pub open spec fn run_slot_formatted(o: Node, n: Node, f: RunFormat) -> bool {
    if is_named(o, /* r */ seq![114u8]) {
        n is Element && run_formatted(o->Element_0, n->Element_0, f)
    } else {
        n == o
    }
}

/// Paragraph `o` became `n`: each of its runs formatted, nothing else
/// changed.
pub open spec fn para_runs_formatted(o: Element, n: Element, f: RunFormat) -> bool {
    &&& same_tags(o, n)
    &&& n.children@.len() == o.children@.len()
    &&& forall|j: int| 0 <= j < o.children@.len() ==> #[trigger] run_slot_formatted(o.children@[j], n.children@[j], f)
}

/// Node `o` became `n`: its runs formatted when it is a paragraph, else
/// unchanged.
pub open spec fn para_slot_formatted(o: Node, n: Node, f: RunFormat) -> bool {
    if is_named(o, /* p */ seq![112u8]) {
        n is Element && para_runs_formatted(o->Element_0, n->Element_0, f)
    } else {
        n == o
    }
}

/// Text body `o` became `n`: every run of each of its paragraphs formatted,
/// nothing else changed.
pub open spec fn body_runs_formatted(o: Element, n: Element, f: RunFormat) -> bool {
    &&& same_tags(o, n)
    &&& n.children@.len() == o.children@.len()
    &&& forall|k: int| 0 <= k < o.children@.len() ==> #[trigger] para_slot_formatted(o.children@[k], n.children@[k], f)
}

/// Whether some paragraph among `ns` holds a run.
pub open spec fn has_runs(ns: Seq<Node>) -> bool
    decreases ns.len(),
{
    if ns.len() == 0 {
        false
    } else {
        has_runs(ns.drop_last()) || (is_named(ns.last(), /* p */ seq![112u8]) && first_named_index(
            ns.last()->Element_0.children@,
            /* r */ seq![114u8],
        ) >= 0)
    }
}

fn format_para(p: &mut Element, f: &RunFormat)
    ensures
        para_runs_formatted(*old(p), *final(p), *f),
{
    let rn: [u8; 1] = /* r */ [114u8];
    assert(rn@ =~= /* r */ seq![114u8]);
    let mut all: Vec<Node> = Vec::new();
    std::mem::swap(&mut all, &mut p.children);
    let ghost orig = all@;
    let mut done: Vec<Node> = Vec::new();
    let ghost mut k: int = 0;
    assert(orig.skip(0) =~= orig);
    while all.len() > 0
        invariant
            0 <= k <= orig.len(),
            k + all@.len() == orig.len(),
            all@ == orig.skip(k),
            done@.len() == k,
            forall|j: int| 0 <= j < k ==> #[trigger] run_slot_formatted(orig[j], done@[j], *f),
        decreases all@.len(),
    {
        let n = all.remove(0);
        let ghost n0 = n;
        proof {
            assert(n0 == orig[k]);
            assert(orig.skip(k + 1) =~= all@);
        }
        let n = format_run_node(n, f);
        proof { assert(run_slot_formatted(n0, n, *f)); }
        let ghost before = done@;
        done.push(n);
        proof {
            assert forall|j: int| 0 <= j < k + 1 implies #[trigger] run_slot_formatted(orig[j], done@[j], *f) by {
                if j < k {
                    assert(done@[j] == before[j]);
                }
            }
            k = k + 1;
        }
    }
    p.children = done;
}

fn format_run_node(n: Node, f: &RunFormat) -> (m: Node)
    ensures
        run_slot_formatted(n, m, *f),
{
    let rn: [u8; 1] = /* r */ [114u8];
    assert(rn@ =~= /* r */ seq![114u8]);
    match n {
        Node::Element(e) => {
            if e.is_named(rn.as_slice()) {
                let mut e2 = e;
                format_run_el(&mut e2, f);
                Node::Element(e2)
            } else {
                Node::Element(e)
            }
        },
        Node::Raw(b) => Node::Raw(b),
    }
}

fn format_para_node(n: Node, f: &RunFormat) -> (m: Node)
    ensures
        para_slot_formatted(n, m, *f),
{
    let pn: [u8; 1] = /* p */ [112u8];
    assert(pn@ =~= /* p */ seq![112u8]);
    match n {
        Node::Element(e) => {
            if e.is_named(pn.as_slice()) {
                let mut e2 = e;
                format_para(&mut e2, f);
                Node::Element(e2)
            } else {
                Node::Element(e)
            }
        },
        Node::Raw(b) => Node::Raw(b),
    }
}

fn format_body(tx: &mut Element, f: &RunFormat)
    ensures
        body_runs_formatted(*old(tx), *final(tx), *f),
{
    let pn: [u8; 1] = /* p */ [112u8];
    assert(pn@ =~= /* p */ seq![112u8]);
    let mut all: Vec<Node> = Vec::new();
    std::mem::swap(&mut all, &mut tx.children);
    let ghost orig = all@;
    let mut done: Vec<Node> = Vec::new();
    let ghost mut k: int = 0;
    assert(orig.skip(0) =~= orig);
    while all.len() > 0
        invariant
            0 <= k <= orig.len(),
            k + all@.len() == orig.len(),
            all@ == orig.skip(k),
            done@.len() == k,
            forall|j: int| 0 <= j < k ==> #[trigger] para_slot_formatted(orig[j], done@[j], *f),
        decreases all@.len(),
    {
        let n = all.remove(0);
        let ghost n0 = n;
        proof {
            assert(n0 == orig[k]);
            assert(orig.skip(k + 1) =~= all@);
        }
        let n = format_para_node(n, f);
        proof { assert(para_slot_formatted(n0, n, *f)); }
        let ghost before = done@;
        done.push(n);
        proof {
            assert forall|j: int| 0 <= j < k + 1 implies #[trigger] para_slot_formatted(orig[j], done@[j], *f) by {
                if j < k {
                    assert(done@[j] == before[j]);
                }
            }
            k = k + 1;
        }
    }
    tx.children = done;
}

/// Whether some paragraph among `ns` holds a run, computed.
fn any_runs(ns: &Vec<Node>) -> (r: bool)
    ensures
        r == has_runs(ns@),
{
    let pn: [u8; 1] = /* p */ [112u8];
    let rn: [u8; 1] = /* r */ [114u8];
    assert(pn@ =~= /* p */ seq![112u8]);
    assert(rn@ =~= /* r */ seq![114u8]);
    let mut i: usize = 0;
    let mut found = false;
    while i < ns.len()
        invariant
            i <= ns@.len(),
            found == has_runs(ns@.take(i as int)),
            pn@ == /* p */ seq![112u8],
            rn@ == /* r */ seq![114u8],
        decreases ns@.len() - i,
    {
        proof {
            assert(ns@.take(i + 1).drop_last() =~= ns@.take(i as int));
            assert(ns@.take(i + 1).last() == ns@[i as int]);
        }
        let here = match &ns[i] {
            Node::Element(e) => {
                if e.is_named(pn.as_slice()) {
                    match first_named_position(&e.children, rn.as_slice()) {
                        Some(_) => true,
                        None => false,
                    }
                } else {
                    false
                }
            },
            Node::Raw(_) => false,
        };
        assert(here == (is_named(ns@[i as int], /* p */ seq![112u8]) && first_named_index(ns@[i as int]->Element_0.children@, /* r */ seq![114u8]) >= 0));
        found = found || here;
        i = i + 1;
    }
    assert(ns@.take(ns@.len() as int) =~= ns@);
    found
}

impl SlideDom {
    /// Apply character formatting to every run of every paragraph of the
    /// first text body of the placeholder for `ph_type` (`title` also takes
    /// a centred title, `body` a subtitle); only what `fmt` sets changes.
    /// Fails, changing nothing, when there is no such placeholder, it has no
    /// text body, or the body holds no run.
    pub fn format_placeholder(&mut self, ph_type: &str, fmt: &RunFormat) -> (r: Result<(), OxmlError>)
        requires
            (placeholder_tx_path(old(self).document(), encode_utf8(ph_type@), false) matches Some(t) && has_runs(
                doc_at(old(self).document(), t).children@,
            )) ==> format_colors_ok(*fmt),
        ensures
            r is Ok <==> (placeholder_tx_path(old(self).document(), encode_utf8(ph_type@), false) matches Some(t)
                && has_runs(doc_at(old(self).document(), t).children@)),
            r is Err ==> final(self).document() == old(self).document(),
            r is Ok ==> {
                let t = placeholder_tx_path(old(self).document(), encode_utf8(ph_type@), false).unwrap();
                exists|new_tx: Element| {
                    &&& #[trigger] doc_replaced(old(self).document(), final(self).document(), t, new_tx)
                    &&& body_runs_formatted(doc_at(old(self).document(), t), new_tx, *fmt)
                }
            },
    {
        let sp = match find_placeholder_path(&self.doc, ph_type.as_bytes(), false) {
            Some(p) => p,
            None => {
                let mut m = string_of("no ");
                push_str(&mut m, ph_type);
                push_str(&mut m, " placeholder on slide");
                return Err(OxmlError::Parse(m));
            },
        };
        let p = match find_tx_below(&self.doc, sp) {
            Some(p) => p,
            None => return Err(OxmlError::Parse(string_of("placeholder has no txBody"))),
        };
        let root = self.doc.root().unwrap();
        assert(p@.skip(0) =~= p@);
        let tx = element_at(root, &p, 0);
        if !any_runs(&tx.children) {
            return Err(OxmlError::Parse(string_of("placeholder has no runs to format")));
        }
        let ghost old_tx = *tx;
        let txm = self.doc.element_at_mut(&p).unwrap();
        format_body(txm, fmt);
        let ghost new_tx = *txm;
        proof {
            assert(self.document() == self.doc);
            assert(old(self).document() == old(self).doc);
            let t = placeholder_tx_path(old(self).document(), encode_utf8(ph_type@), false).unwrap();
            assert(t == p@);
            assert(old_tx == doc_at(old(self).document(), t));
            assert(doc_replaced(old(self).document(), self.document(), t, new_tx));
        }
        Ok(())
    }

    /// Apply character formatting to run `run_idx` (counting runs and line
    /// breaks) of paragraph `para_idx` of autoshape `shape_idx`; only what
    /// `fmt` sets changes, sibling runs are kept byte for byte. Fails,
    /// changing nothing, when there is no such paragraph or run, or it is a
    /// line break.
    pub fn format_run(&mut self, shape_idx: usize, para_idx: usize, run_idx: usize, fmt: &RunFormat) -> (r: Result<(), OxmlError>)
        requires
            run_path(old(self).document(), shape_idx as int, para_idx as int, run_idx as int) is Some
                ==> format_colors_ok(*fmt),
        ensures
            r is Ok <==> run_path(old(self).document(), shape_idx as int, para_idx as int, run_idx as int) is Some,
            r is Err ==> final(self).document() == old(self).document(),
            r is Ok ==> {
                let p = run_path(old(self).document(), shape_idx as int, para_idx as int, run_idx as int).unwrap();
                exists|new_r: Element| {
                    &&& #[trigger] doc_replaced(old(self).document(), final(self).document(), p, new_r)
                    &&& run_formatted(doc_at(old(self).document(), p), new_r, *fmt)
                }
            },
    {
        let mut p = match find_paragraph_path(&self.doc, shape_idx, para_idx) {
            Ok(p) => p,
            Err(e) => return Err(e),
        };
        let root = self.doc.root().unwrap();
        assert(p@.skip(0) =~= p@);
        let para = element_at(root, &p, 0);
        let pos = match nth_position(&para.children, 1, run_idx) {
            Some(i) => i,
            None => {
                let c = super::count_of_kind(&para.children, 1);
                return Err(OxmlError::Parse(message2("run index ", run_idx, " out of range (have ", c, " runs/breaks)")));
            },
        };
        let rn: [u8; 1] = /* r */ [114u8];
        assert(rn@ =~= /* r */ seq![114u8]);
        let is_run = match &para.children[pos] {
            Node::Element(e) => e.is_named(rn.as_slice()),
            Node::Raw(_) => false,
        };
        if !is_run {
            return Err(OxmlError::Parse(message("element at run index ", run_idx, " is not an <a:r> run")));
        }
        proof { lemma_path_push(*root, p@, pos); }
        p.push(pos);
        let ghost old_r = doc_at(self.doc, p@);
        let run = self.doc.element_at_mut(&p).unwrap();
        format_run_el(run, fmt);
        let ghost new_r = *run;
        proof {
            assert(self.document() == self.doc);
            assert(old(self).document() == old(self).doc);
            let rp = run_path(old(self).document(), shape_idx as int, para_idx as int, run_idx as int).unwrap();
            assert(rp == p@);
            assert(old_r == doc_at(old(self).document(), rp));
            assert(doc_replaced(old(self).document(), self.document(), rp, new_r));
        }
        Ok(())
    }
}

} // verus!
