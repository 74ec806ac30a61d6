//! Placeholders: the title, the body's bullets, and the footer, date and
//! slide-number placeholders.

use vstd::prelude::*;
use vstd::utf8::encode_utf8;
use crate::error::OxmlError;
use crate::notes_dom::{drop_paragraphs, first_rpr_template, non_paragraphs, rpr_template};
use crate::paragraph::{make_paragraph, make_run, para_bytes, run_bytes};
use crate::text::{dec_nat, dec_u64, string_of};
use crate::xml::{
    alike, at_path, attr_value, attrs_bytes, copy_element, desc_path, doc_replaced, element_at, element_bytes, find_desc,
    first_child, first_named_index, first_named_position, is_named, lemma_at_path_concat, lemma_desc_path,
    lemma_first_named_index, lemma_nodes_bytes_push, new_element, node_bytes, nodes_bytes, remove_attrs_spec,
    same_tags, set_attr_spec, slice_views, valid_path, doc_root, Document, Element, Node,
};
use super::{doc_at, drop_children_named, find_tree_path, lemma_path_push, tree_path, without_names, SlideDom};
use super::shapes::{declared_ph_type, ph_type_of};
use super::table::{attr_set, txbody_of};

verus! {

// ─── Finding placeholders ───────────────────────────────────────────────────

/// Whether placeholder type `t` answers a request for `want`: the same
/// type, a centred title for a title, a subtitle for a body.
pub open spec fn ph_hit(t: Seq<u8>, want: Seq<u8>) -> bool {
    t == want || (want == /* title */ seq![116u8, 105u8, 116u8, 108u8, 101u8] && t == /* ctrTitle */ seq![99u8, 116u8, 114u8, 84u8, 105u8, 116u8, 108u8, 101u8]) || (want == /* body */ seq![98u8, 111u8, 100u8, 121u8] && t == /* subTitle */ seq![115u8, 117u8, 98u8, 84u8, 105u8, 116u8, 108u8, 101u8])
}

/// Whether node `n` is an autoshape whose placeholder type answers `want`.
pub open spec fn is_placeholder_for(n: Node, want: Seq<u8>) -> bool {
    is_named(n, /* sp */ seq![115u8, 112u8]) && match ph_type_of(n->Element_0) {
        Some(t) => ph_hit(t, want),
        None => false,
    }
}

/// Whether node `n` is an autoshape whose first `ph` declares exactly type
/// `want`.
pub open spec fn is_typed_placeholder(n: Node, want: Seq<u8>) -> bool {
    is_named(n, /* sp */ seq![115u8, 112u8]) && match find_desc(n->Element_0, /* ph */ seq![112u8, 104u8]) {
        Some(ph) => attr_value(ph, /* type */ seq![116u8, 121u8, 112u8, 101u8]) == Some(want),
        None => false,
    }
}

/// Index of the first node among `ns` from `i` on with property `exact`
/// (typed placeholder) or not (answering placeholder) for `want`, or -1.
pub open spec fn ph_index_from(ns: Seq<Node>, want: Seq<u8>, exact: bool, i: int) -> int
    decreases ns.len() - i,
{
    if i < 0 || i >= ns.len() {
        -1
    } else if (if exact { is_typed_placeholder(ns[i], want) } else { is_placeholder_for(ns[i], want) }) {
        i
    } else {
        ph_index_from(ns, want, exact, i + 1)
    }
}

/// Path to the placeholder shape the slide has for `want`.
pub open spec fn placeholder_path(d: Document, want: Seq<u8>, exact: bool) -> Option<Seq<usize>> {
    match tree_path(d) {
        Some(tp) => {
            let i = ph_index_from(doc_at(d, tp).children@, want, exact, 0);
            if i >= 0 {
                Some(tp.push(i as usize))
            } else {
                None
            }
        },
        None => None,
    }
}

/// Path to the first text body of the placeholder for `want`.
pub open spec fn placeholder_tx_path(d: Document, want: Seq<u8>, exact: bool) -> Option<Seq<usize>> {
    match placeholder_path(d, want, exact) {
        Some(sp) => match desc_path(doc_at(d, sp), /* txBody */ seq![116u8, 120u8, 66u8, 111u8, 100u8, 121u8]) {
            Some(q) => Some(sp + q),
            None => None,
        },
        None => None,
    }
}

/// Path to the first paragraph of the title's text body.
pub open spec fn title_paragraph_path(d: Document) -> Option<Seq<usize>> {
    match placeholder_tx_path(d, /* title */ seq![116u8, 105u8, 116u8, 108u8, 101u8], false) {
        Some(tx) => {
            let i = first_named_index(doc_at(d, tx).children@, /* p */ seq![112u8]);
            if i >= 0 {
                Some(tx.push(i as usize))
            } else {
                None
            }
        },
        None => None,
    }
}

proof fn lemma_ph_index(ns: Seq<Node>, want: Seq<u8>, exact: bool, i: int)
    ensures
        ph_index_from(ns, want, exact, i) >= 0 ==> i <= ph_index_from(ns, want, exact, i) < ns.len()
            && is_named(ns[ph_index_from(ns, want, exact, i)], /* sp */ seq![115u8, 112u8]),
    decreases ns.len() - i,
{
    if 0 <= i < ns.len() && !(if exact { is_typed_placeholder(ns[i], want) } else { is_placeholder_for(ns[i], want) }) {
        lemma_ph_index(ns, want, exact, i + 1);
    }
}

fn ph_matches(sp: &Element, want: &[u8], exact: bool) -> (r: bool)
    ensures
        r == (if exact { is_typed_placeholder(Node::Element(*sp), want@) } else { is_placeholder_for(Node::Element(*sp), want@) }),
{
    let spn: [u8; 2] = /* sp */ [115u8, 112u8];
    let ph: [u8; 2] = /* ph */ [112u8, 104u8];
    let ty: [u8; 4] = /* type */ [116u8, 121u8, 112u8, 101u8];
    let title: [u8; 5] = /* title */ [116u8, 105u8, 116u8, 108u8, 101u8];
    let ctr: [u8; 8] = /* ctrTitle */ [99u8, 116u8, 114u8, 84u8, 105u8, 116u8, 108u8, 101u8];
    let body: [u8; 4] = /* body */ [98u8, 111u8, 100u8, 121u8];
    let sub: [u8; 8] = /* subTitle */ [115u8, 117u8, 98u8, 84u8, 105u8, 116u8, 108u8, 101u8];
    assert(spn@ =~= /* sp */ seq![115u8, 112u8]);
    assert(ph@ =~= /* ph */ seq![112u8, 104u8]);
    assert(ty@ =~= /* type */ seq![116u8, 121u8, 112u8, 101u8]);
    assert(title@ =~= /* title */ seq![116u8, 105u8, 116u8, 108u8, 101u8]);
    assert(ctr@ =~= /* ctrTitle */ seq![99u8, 116u8, 114u8, 84u8, 105u8, 116u8, 108u8, 101u8]);
    assert(body@ =~= /* body */ seq![98u8, 111u8, 100u8, 121u8]);
    assert(sub@ =~= /* subTitle */ seq![115u8, 117u8, 98u8, 84u8, 105u8, 116u8, 108u8, 101u8]);
    if !sp.is_named(spn.as_slice()) {
        return false;
    }
    let p = match sp.find_descendant(ph.as_slice()) {
        Some(p) => p,
        None => return false,
    };
    let t: &[u8] = match p.attr(ty.as_slice()) {
        Some(t) => t,
        None => {
            if exact {
                return false;
            }
            body.as_slice()
        },
    };
    if exact {
        return crate::bytes::bytes_eq(t, want);
    }
    crate::bytes::bytes_eq(t, want) || (crate::bytes::bytes_eq(want, title.as_slice()) && crate::bytes::bytes_eq(
        t,
        ctr.as_slice(),
    )) || (crate::bytes::bytes_eq(want, body.as_slice()) && crate::bytes::bytes_eq(t, sub.as_slice()))
}

/// Path to the placeholder shape for `want`, computed.
pub(crate) fn find_placeholder_path(d: &Document, want: &[u8], exact: bool) -> (r: Option<Vec<usize>>)
    ensures
        match r {
            Some(p) => placeholder_path(*d, want@, exact) == Some(p@) && valid_path(doc_root(*d).unwrap(), p@),
            None => placeholder_path(*d, want@, exact) is None,
        },
{
    let mut p = match find_tree_path(d) {
        Some(p) => p,
        None => return None,
    };
    let root = d.root().unwrap();
    assert(p@.skip(0) =~= p@);
    let tree = element_at(root, &p, 0);
    let mut i: usize = 0;
    proof { lemma_ph_index(tree.children@, want@, exact, 0); }
    while i < tree.children.len()
        invariant
            i <= tree.children@.len(),
            ph_index_from(tree.children@, want@, exact, 0) == ph_index_from(tree.children@, want@, exact, i as int),
            doc_root(*d) == Some(*root),
            valid_path(*root, p@),
            *tree == at_path(*root, p@),
            tree_path(*d) == Some(p@),
        decreases tree.children@.len() - i,
    {
        let hit = match &tree.children[i] {
            Node::Element(e) => ph_matches(e, want, exact),
            Node::Raw(_) => false,
        };
        if hit {
            proof { lemma_path_push(*root, p@, i); }
            p.push(i);
            return Some(p);
        }
        i = i + 1;
    }
    None
}

/// Path to the first text body of a shape at path `sp`, computed.
pub(crate) fn find_tx_below(d: &Document, sp: Vec<usize>) -> (r: Option<Vec<usize>>)
    requires
        doc_root(*d) is Some,
        valid_path(doc_root(*d).unwrap(), sp@),
    ensures
        match r {
            Some(p) => desc_path(doc_at(*d, sp@), /* txBody */ seq![116u8, 120u8, 66u8, 111u8, 100u8, 121u8]) matches Some(q) && p@ == sp@ + q && valid_path(
                doc_root(*d).unwrap(),
                p@,
            ),
            None => desc_path(doc_at(*d, sp@), /* txBody */ seq![116u8, 120u8, 66u8, 111u8, 100u8, 121u8]) is None,
        },
{
    let root = d.root().unwrap();
    assert(sp@.skip(0) =~= sp@);
    let e = element_at(root, &sp, 0);
    let tb: [u8; 6] = /* txBody */ [116u8, 120u8, 66u8, 111u8, 100u8, 121u8];
    assert(tb@ =~= /* txBody */ seq![116u8, 120u8, 66u8, 111u8, 100u8, 121u8]);
    let mut q = match e.find_descendant_path(tb.as_slice()) {
        Some(q) => q,
        None => return None,
    };
    proof {
        lemma_desc_path(*e, /* txBody */ seq![116u8, 120u8, 66u8, 111u8, 100u8, 121u8]);
        lemma_at_path_concat(*root, sp@, q@);
    }
    let ghost spv = sp@;
    let ghost qv = q@;
    let mut p = sp;
    p.append(&mut q);
    assert(p@ =~= spv + qv);
    Some(p)
}

// ─── The title ──────────────────────────────────────────────────────────────

/// `new_p` is paragraph `old_p` whose runs (`r`) were removed and one run of
/// `text`, with the properties `rpr`, appended.
pub open spec fn runs_replaced(old_p: Element, new_p: Element, text: Seq<char>, rpr: Option<Element>) -> bool {
    &&& same_tags(old_p, new_p)
    &&& new_p.children@.len() > 0
    &&& new_p.children@.drop_last() == without_names(old_p.children@, /* r */ seq![114u8], /* r */ seq![114u8], /* r */ seq![114u8])
    &&& node_bytes(new_p.children@.last()) == run_bytes(text, rpr)
}

impl SlideDom {
    /// Set the title's text: the runs of the first paragraph of the title
    /// placeholder (`title` or `ctrTitle`) are replaced by one run of `text`
    /// copying the first existing run's properties; everything else is kept.
    /// Fails, changing nothing, when there is no title placeholder, text body
    /// or paragraph.
    pub fn set_title(&mut self, text: &str) -> (r: Result<(), OxmlError>)
        ensures
            r is Ok <==> title_paragraph_path(old(self).document()) is Some,
            r is Err ==> final(self).document() == old(self).document(),
            r is Ok ==> {
                let pp = title_paragraph_path(old(self).document()).unwrap();
                let tx = doc_at(old(self).document(), pp.drop_last());
                exists|new_p: Element| {
                    &&& #[trigger] doc_replaced(old(self).document(), final(self).document(), pp, new_p)
                    &&& runs_replaced(doc_at(old(self).document(), pp), new_p, text@, rpr_template(tx))
                }
            },
    {
        let title: [u8; 5] = /* title */ [116u8, 105u8, 116u8, 108u8, 101u8];
        assert(title@ =~= /* title */ seq![116u8, 105u8, 116u8, 108u8, 101u8]);
        let sp = match find_placeholder_path(&self.doc, title.as_slice(), false) {
            Some(p) => p,
            None => return Err(OxmlError::Parse(string_of("no title placeholder on slide"))),
        };
        let mut p = match find_tx_below(&self.doc, sp) {
            Some(p) => p,
            None => return Err(OxmlError::Parse(string_of("placeholder has no txBody"))),
        };
        let root = self.doc.root().unwrap();
        assert(p@.skip(0) =~= p@);
        let tx = element_at(root, &p, 0);
        let tmpl = first_rpr_template(tx);
        let pn: [u8; 1] = /* p */ [112u8];
        assert(pn@ =~= /* p */ seq![112u8]);
        proof { lemma_first_named_index(tx.children@, /* p */ seq![112u8]); }
        let i = match first_named_position(&tx.children, pn.as_slice()) {
            Some(i) => i,
            None => return Err(OxmlError::Parse(string_of("txBody has no paragraph"))),
        };
        let ghost txp = p@;
        let ghost old_tx = *tx;
        proof { lemma_path_push(*root, p@, i); }
        p.push(i);
        let run = make_run(text, &tmpl);
        let ghost old_p = doc_at(self.doc, p@);
        let para = self.doc.element_at_mut(&p).unwrap();
        let r: [u8; 1] = /* r */ [114u8];
        assert(r@ =~= /* r */ seq![114u8]);
        drop_children_named(para, r.as_slice(), r.as_slice(), r.as_slice());
        let ghost before = para.children@;
        para.children.push(Node::Element(run));
        let ghost new_p = *para;
        proof {
            assert(new_p.children@.drop_last() =~= before);
            assert(crate::paragraph::opt_bytes(tmpl) == crate::paragraph::opt_bytes(rpr_template(old_tx)));
            assert(runs_replaced(old_p, new_p, text@, rpr_template(old_tx)));
            assert(self.document() == self.doc);
            assert(old(self).document() == old(self).doc);
            let pp = title_paragraph_path(old(self).document()).unwrap();
            assert(pp == txp.push(i));
            assert(pp.drop_last() =~= txp);
            assert(old_p == doc_at(old(self).document(), pp));
            assert(doc_replaced(old(self).document(), self.document(), pp, new_p));
        }
        Ok(())
    }
}

// ─── The body's bullets ─────────────────────────────────────────────────────

/// The paragraph properties new bullets copy: the first `pPr` of the first
/// paragraph.
pub open spec fn ppr_template(tx: Element) -> Option<Element> {
    match first_child(tx, /* p */ seq![112u8]) {
        Some(p) => first_child(p, /* pPr */ seq![112u8, 80u8, 114u8]),
        None => None,
    }
}

/// Attributes with the outline level set to `level`, or removed for level 0.
pub open spec fn level_attrs(a: Seq<(Seq<u8>, Seq<u8>)>, level: u8) -> Seq<(Seq<u8>, Seq<u8>)> {
    if level > 0 {
        set_attr_spec(a, /* lvl */ seq![108u8, 118u8, 108u8], encode_utf8(dec_nat(level as nat)))
    } else {
        remove_attrs_spec(a, seq![/* lvl */ seq![108u8, 118u8, 108u8]])
    }
}

/// The bytes of an element written from its name, attributes and children.
pub open spec fn written_bytes(name: Seq<u8>, attrs: Seq<(Seq<u8>, Seq<u8>)>, self_closing: bool, children: Seq<Node>) -> Seq<u8> {
    if self_closing {
        /* < */ seq![60u8] + name + attrs_bytes(attrs) + /* /> */ seq![47u8, 62u8]
    } else {
        /* < */ seq![60u8] + name + attrs_bytes(attrs) + /* > */ seq![62u8] + nodes_bytes(children) + /* </ */ seq![60u8, 47u8] + name + /* > */ seq![62u8]
    }
}

/// The bytes of a bullet's paragraph properties: the template with the
/// level applied, or a fresh `a:pPr` holding only a non-zero level.
pub open spec fn bullet_ppr_bytes(ppr: Option<Element>, level: u8) -> Seq<u8> {
    match ppr {
        Some(t) => written_bytes(t.name@, level_attrs(t.attrs_v(), level), t.self_closing, t.children@),
        None => if level > 0 {
            /* <a:pPr lvl=\" */ seq![60u8, 97u8, 58u8, 112u8, 80u8, 114u8, 32u8, 108u8, 118u8, 108u8, 61u8, 34u8] + encode_utf8(dec_nat(level as nat)) + /* \"/> */ seq![34u8, 47u8, 62u8]
        } else {
            Seq::empty()
        },
    }
}

/// The bytes of a bullet paragraph: its properties, then one run.
pub open spec fn bullet_para_bytes(text: Seq<char>, level: u8, ppr: Option<Element>, rpr: Option<Element>) -> Seq<u8> {
    /* <a:p> */ seq![60u8, 97u8, 58u8, 112u8, 62u8] + bullet_ppr_bytes(ppr, level) + run_bytes(text, rpr) + /* </a:p> */ seq![60u8, 47u8, 97u8, 58u8, 112u8, 62u8]
}

/// `new_tx` is `old_tx` with its paragraphs replaced by one bullet paragraph
/// per item (text and level), copying the templates; its other children
/// stay, in order, before them.
pub open spec fn bullets_rewritten(old_tx: Element, new_tx: Element, items: Seq<(String, u8)>) -> bool {
    let kept = non_paragraphs(old_tx.children@);
    &&& same_tags(old_tx, new_tx)
    &&& new_tx.children@.len() == kept.len() + items.len()
    &&& new_tx.children@.take(kept.len() as int) == kept
    &&& forall|k: int| 0 <= k < items.len() ==> {
        &&& (#[trigger] new_tx.children@[kept.len() + k]) is Element
        &&& node_bytes(new_tx.children@[kept.len() + k]) == bullet_para_bytes(items[k].0@, items[k].1,
            ppr_template(old_tx), rpr_template(old_tx))
    }
}

pub(crate) fn first_ppr_template(tx: &Element) -> (r: Option<Element>)
    ensures
        match (r, ppr_template(*tx)) {
            (Some(a), Some(b)) => alike(a, b) && b.local() == /* pPr */ seq![112u8, 80u8, 114u8] && crate::xml::elem_v(a) == crate::xml::elem_v(b),
            (None, None) => true,
            _ => false,
        },
{
    let pn: [u8; 1] = /* p */ [112u8];
    let qn: [u8; 3] = /* pPr */ [112u8, 80u8, 114u8];
    assert(pn@ =~= /* p */ seq![112u8]);
    assert(qn@ =~= /* pPr */ seq![112u8, 80u8, 114u8]);
    proof { lemma_first_named_index(tx.children@, /* p */ seq![112u8]); }
    match tx.first_child_named(pn.as_slice()) {
        Some(p) => {
            proof { lemma_first_named_index(p.children@, /* pPr */ seq![112u8, 80u8, 114u8]); }
            match p.first_child_named(qn.as_slice()) {
                Some(q) => Some(copy_element(q)),
                None => None,
            }
        },
        None => None,
    }
}

fn bullet_paragraph(text: &str, level: u8, ppr: &Option<Element>, rpr: &Option<Element>) -> (p: Element)
    ensures
        element_bytes(p) == bullet_para_bytes(text@, level, *ppr, *rpr),
{
    let name: [u8; 3] = /* a:p */ [97u8, 58u8, 112u8];
    assert(name@ =~= /* a:p */ seq![97u8, 58u8, 112u8]);
    let mut p = new_element(name.as_slice());
    let lvl: [u8; 3] = /* lvl */ [108u8, 118u8, 108u8];
    assert(lvl@ =~= /* lvl */ seq![108u8, 118u8, 108u8]);
    let digits = dec_u64(level as u64);
    let ghost c0 = p.children@;
    assert(c0 =~= Seq::<Node>::empty());
    match ppr {
        Some(t) => {
            let mut q = copy_element(t);
            if level > 0 {
                q.set_attr(lvl.as_slice(), digits.as_str().as_bytes());
            } else {
                let names: [&[u8]; 1] = [lvl.as_slice()];
                assert(slice_views(names@) =~= seq![/* lvl */ seq![108u8, 118u8, 108u8]]);
                q.remove_attrs(names.as_slice());
            }
            proof {
                assert(element_bytes(q) == written_bytes(t.name@, level_attrs(t.attrs_v(), level), t.self_closing, t.children@));
                lemma_nodes_bytes_push(c0, Node::Element(q));
            }
            p.children.push(Node::Element(q));
        },
        None => {
            if level > 0 {
                let apr: [u8; 5] = /* a:pPr */ [97u8, 58u8, 112u8, 80u8, 114u8];
                assert(apr@ =~= /* a:pPr */ seq![97u8, 58u8, 112u8, 80u8, 114u8]);
                let q = super::fresh_leaf(apr.as_slice(), lvl.as_slice(), digits.as_str().as_bytes());
                proof { lemma_nodes_bytes_push(c0, Node::Element(q)); }
                p.children.push(Node::Element(q));
            }
        },
    }
    let ghost c1 = p.children@;
    assert(nodes_bytes(c1) == bullet_ppr_bytes(*ppr, level));
    let run = make_run(text, rpr);
    p.children.push(Node::Element(run));
    proof {
        lemma_nodes_bytes_push(c1, Node::Element(run));
        assert(p.attrs_v() =~= Seq::<(Seq<u8>, Seq<u8>)>::empty());
        assert(element_bytes(p) =~= bullet_para_bytes(text@, level, *ppr, *rpr));
    }
    p
}

impl SlideDom {
    /// Replace the body placeholder's paragraphs (`body` or `subTitle`) with
    /// one paragraph per item: its text, at its outline level, copying the
    /// first paragraph's properties and the first run's properties; the
    /// text body's other children stay. Fails, changing nothing, when there
    /// is no body placeholder or it has no text body.
    pub fn set_body_bullets(&mut self, items: &[(String, u8)]) -> (r: Result<(), OxmlError>)
        ensures
            r is Ok <==> placeholder_tx_path(old(self).document(), /* body */ seq![98u8, 111u8, 100u8, 121u8], false) is Some,
            r is Err ==> final(self).document() == old(self).document(),
            r is Ok ==> {
                let p = placeholder_tx_path(old(self).document(), /* body */ seq![98u8, 111u8, 100u8, 121u8], false).unwrap();
                exists|new_tx: Element| {
                    &&& doc_replaced(old(self).document(), final(self).document(), p, new_tx)
                    &&& #[trigger] bullets_rewritten(doc_at(old(self).document(), p), new_tx, items@)
                }
            },
    {
        let body: [u8; 4] = /* body */ [98u8, 111u8, 100u8, 121u8];
        assert(body@ =~= /* body */ seq![98u8, 111u8, 100u8, 121u8]);
        let sp = match find_placeholder_path(&self.doc, body.as_slice(), false) {
            Some(p) => p,
            None => return Err(OxmlError::Parse(string_of("no body placeholder on slide"))),
        };
        let path = match find_tx_below(&self.doc, sp) {
            Some(p) => p,
            None => return Err(OxmlError::Parse(string_of("body placeholder has no txBody"))),
        };
        let root = self.doc.root().unwrap();
        assert(path@.skip(0) =~= path@);
        let tx0 = element_at(root, &path, 0);
        let ppr = first_ppr_template(tx0);
        let rpr = first_rpr_template(tx0);
        let ghost old_tx = *tx0;
        let mut paras: Vec<Node> = Vec::new();
        let mut k: usize = 0;
        while k < items.len()
            invariant
                k <= items@.len(),
                paras@.len() == k,
                match (ppr, ppr_template(old_tx)) {
                    (Some(a), Some(b)) => alike(a, b),
                    (None, None) => true,
                    _ => false,
                },
                match (rpr, rpr_template(old_tx)) {
                    (Some(a), Some(b)) => alike(a, b),
                    (None, None) => true,
                    _ => false,
                },
                forall|j: int| 0 <= j < k ==> {
                    &&& (#[trigger] paras@[j]) is Element
                    &&& node_bytes(paras@[j]) == bullet_para_bytes(items@[j].0@, items@[j].1, ppr_template(old_tx),
                        rpr_template(old_tx))
                },
            decreases items@.len() - k,
        {
            let para = bullet_paragraph(items[k].0.as_str(), items[k].1, &ppr, &rpr);
            proof {
                assert(bullet_ppr_bytes(ppr, items@[k as int].1) == bullet_ppr_bytes(ppr_template(old_tx), items@[k as int].1));
                assert(crate::paragraph::opt_bytes(rpr) == crate::paragraph::opt_bytes(rpr_template(old_tx)));
            }
            paras.push(Node::Element(para));
            k = k + 1;
        }
        let tx = self.doc.element_at_mut(&path).unwrap();
        drop_paragraphs(tx);
        let ghost kept = tx.children@;
        let ghost new_paras = paras@;
        tx.children.append(&mut paras);
        proof {
            assert(tx.children@ =~= kept + new_paras);
            assert(tx.children@.take(kept.len() as int) =~= kept);
            assert forall|j: int| 0 <= j < new_paras.len() implies #[trigger] tx.children@[kept.len() + j] == new_paras[j] by {}
        }
        let ghost new_tx = *tx;
        proof {
            assert(bullets_rewritten(old_tx, new_tx, items@));
            assert(self.document() == self.doc);
            assert(old(self).document() == old(self).doc);
            assert(placeholder_tx_path(old(self).document(), /* body */ seq![98u8, 111u8, 100u8, 121u8], false).unwrap() == path@);
            assert(old_tx == doc_at(old(self).document(), path@));
            assert(doc_replaced(old(self).document(), self.document(), path@, new_tx));
        }
        Ok(())
    }
}

// ─── Footer, date and slide number ──────────────────────────────────────────

/// Path to the `cNvPr` of the placeholder typed exactly `want`.
pub open spec fn placeholder_cnvpr_path(d: Document, want: Seq<u8>) -> Option<Seq<usize>> {
    match placeholder_path(d, want, true) {
        Some(sp) => match desc_path(doc_at(d, sp), /* cNvPr */ seq![99u8, 78u8, 118u8, 80u8, 114u8]) {
            Some(q) => Some(sp + q),
            None => None,
        },
        None => None,
    }
}

/// `new_tx` is `old_tx` with its paragraphs replaced by one paragraph of
/// `text` copying the first run's properties; its other children stay, in
/// order, before it.
pub open spec fn text_rewritten(old_tx: Element, new_tx: Element, text: Seq<char>) -> bool {
    let kept = non_paragraphs(old_tx.children@);
    &&& same_tags(old_tx, new_tx)
    &&& new_tx.children@.len() == kept.len() + 1
    &&& new_tx.children@.drop_last() == kept
    &&& new_tx.children@.last() is Element
    &&& node_bytes(new_tx.children@.last()) == para_bytes(text, rpr_template(old_tx))
}

/// The bytes of a fresh text body holding one paragraph of `text`.
pub open spec fn new_txbody_bytes(text: Seq<char>) -> Seq<u8> {
    /* <p:txBody><a:bodyPr/><a:lstStyle/> */ seq![60u8, 112u8, 58u8, 116u8, 120u8, 66u8, 111u8, 100u8, 121u8, 62u8, 60u8, 97u8, 58u8, 98u8, 111u8, 100u8, 121u8, 80u8, 114u8, 47u8, 62u8, 60u8, 97u8, 58u8, 108u8, 115u8, 116u8, 83u8, 116u8, 121u8, 108u8, 101u8, 47u8, 62u8] + para_bytes(text, None) + /* </p:txBody> */ seq![60u8, 47u8, 112u8, 58u8, 116u8, 120u8, 66u8, 111u8, 100u8, 121u8, 62u8]
}

/// `new_sp` is shape `old_sp` with a fresh text body of `text` appended; a
/// self-closing shape becomes an open/close pair.
pub open spec fn txbody_added(old_sp: Element, new_sp: Element, text: Seq<char>) -> bool {
    &&& new_sp.name == old_sp.name
    &&& new_sp.raw_start == old_sp.raw_start
    &&& new_sp.raw_end == old_sp.raw_end
    &&& new_sp.attrs == old_sp.attrs
    &&& !new_sp.self_closing
    &&& new_sp.dirty == (old_sp.dirty || old_sp.self_closing)
    &&& new_sp.children@.len() == old_sp.children@.len() + 1
    &&& new_sp.children@.drop_last() == old_sp.children@
    &&& node_bytes(new_sp.children@.last()) == new_txbody_bytes(text)
}

/// `new` is `old` after setting the text of the placeholder typed exactly
/// `want`, `sub` being what was put in place: the first text body with its
/// paragraphs rewritten, or, when it has none, the shape with a fresh text
/// body appended.
pub open spec fn placeholder_text_step(old: Document, new: Document, want: Seq<u8>, text: Seq<char>, sub: Element) -> bool {
    match placeholder_tx_path(old, want, true) {
        Some(txp) => doc_replaced(old, new, txp, sub) && text_rewritten(doc_at(old, txp), sub, text),
        None => {
            let sp = placeholder_path(old, want, true).unwrap();
            doc_replaced(old, new, sp, sub) && txbody_added(doc_at(old, sp), sub, text)
        },
    }
}

/// `new` is `old` after setting the text of the placeholder typed exactly
/// `want`.
pub open spec fn placeholder_text_set(old: Document, new: Document, want: Seq<u8>, text: Seq<char>) -> bool {
    exists|sub: Element| #[trigger] placeholder_text_step(old, new, want, text, sub)
}

/// `new` is `cNvPr` element `old` shown (`hidden` removed) or hidden
/// (`hidden="1"`).
pub open spec fn visibility_set(old: Element, new: Element, visible: bool) -> bool {
    if visible {
        &&& new.attrs_v() == remove_attrs_spec(old.attrs_v(), seq![/* hidden */ seq![104u8, 105u8, 100u8, 100u8, 101u8, 110u8]])
        &&& new.dirty
        &&& new.name == old.name
        &&& new.raw_start == old.raw_start
        &&& new.raw_end == old.raw_end
        &&& new.self_closing == old.self_closing
        &&& new.children == old.children
    } else {
        attr_set(old, new, /* hidden */ seq![104u8, 105u8, 100u8, 100u8, 101u8, 110u8], /* 1 */ seq![49u8])
    }
}

impl SlideDom {
    fn edit_placeholder_text(&mut self, want: &[u8], missing: &str, text: &str) -> (r: Result<(), OxmlError>)
        ensures
            r is Ok <==> placeholder_path(old(self).document(), want@, true) is Some,
            r is Err ==> final(self).document() == old(self).document(),
            r is Ok ==> placeholder_text_set(old(self).document(), final(self).document(), want@, text@),
    {
        let sp = match find_placeholder_path(&self.doc, want, true) {
            Some(p) => p,
            None => return Err(OxmlError::Parse(string_of(missing))),
        };
        let ghost spv = sp@;
        let sp_copy = copy_path(&sp);
        match find_tx_below(&self.doc, sp) {
            Some(path) => {
                let root = self.doc.root().unwrap();
                assert(path@.skip(0) =~= path@);
                let tx0 = element_at(root, &path, 0);
                let rpr = first_rpr_template(tx0);
                let ghost old_tx = *tx0;
                let para = make_paragraph(text, &rpr);
                proof {
                    assert(crate::paragraph::opt_bytes(rpr) == crate::paragraph::opt_bytes(rpr_template(old_tx)));
                }
                let tx = self.doc.element_at_mut(&path).unwrap();
                drop_paragraphs(tx);
                let ghost kept = tx.children@;
                tx.children.push(Node::Element(para));
                let ghost new_tx = *tx;
                proof {
                    assert(new_tx.children@.drop_last() =~= kept);
                    assert(text_rewritten(old_tx, new_tx, text@));
                    assert(self.document() == self.doc);
                    assert(old(self).document() == old(self).doc);
                    assert(placeholder_tx_path(old(self).document(), want@, true) == Some(path@));
                    assert(old_tx == doc_at(old(self).document(), path@));
                    assert(doc_replaced(old(self).document(), self.document(), path@, new_tx));
                    assert(text_rewritten(doc_at(old(self).document(), path@), new_tx, text@));
                    assert(placeholder_text_step(old(self).document(), self.document(), want@, text@, new_tx));
                }
                Ok(())
            },
            None => {
                let pn: [u8; 3] = /* a:p */ [97u8, 58u8, 112u8];
                let tn: [u8; 8] = /* p:txBody */ [112u8, 58u8, 116u8, 120u8, 66u8, 111u8, 100u8, 121u8];
                assert(pn@ =~= /* a:p */ seq![97u8, 58u8, 112u8]);
                assert(tn@ =~= /* p:txBody */ seq![112u8, 58u8, 116u8, 120u8, 66u8, 111u8, 100u8, 121u8]);
                let para = make_paragraph(text, &None);
                let body = txbody_of(tn.as_slice(), para);
                let ghost old_sp = doc_at(self.doc, sp_copy@);
                let e = self.doc.element_at_mut(&sp_copy).unwrap();
                e.children.push(Node::Element(body));
                if e.self_closing {
                    e.self_closing = false;
                    e.dirty = true;
                }
                let ghost new_sp = *e;
                proof {
                    assert(new_sp.children@.drop_last() =~= old_sp.children@);
                    assert(element_bytes(body) =~= new_txbody_bytes(text@));
                    assert(txbody_added(old_sp, new_sp, text@));
                    assert(self.document() == self.doc);
                    assert(old(self).document() == old(self).doc);
                    assert(placeholder_tx_path(old(self).document(), want@, true) is None);
                    assert(old_sp == doc_at(old(self).document(), spv));
                    assert(doc_replaced(old(self).document(), self.document(), spv, new_sp));
                    assert(placeholder_path(old(self).document(), want@, true) == Some(spv));
                    assert(txbody_added(doc_at(old(self).document(), spv), new_sp, text@));
                    assert(placeholder_text_step(old(self).document(), self.document(), want@, text@, new_sp));
                }
                Ok(())
            },
        }
    }

    fn edit_visibility(&mut self, want: &[u8], missing: &str, visible: bool) -> (r: Result<(), OxmlError>)
        ensures
            r is Ok <==> placeholder_cnvpr_path(old(self).document(), want@) is Some,
            r is Err ==> final(self).document() == old(self).document(),
            r is Ok ==> {
                let cp = placeholder_cnvpr_path(old(self).document(), want@).unwrap();
                exists|new_c: Element| {
                    &&& #[trigger] doc_replaced(old(self).document(), final(self).document(), cp, new_c)
                    &&& visibility_set(doc_at(old(self).document(), cp), new_c, visible)
                }
            },
    {
        let sp = match find_placeholder_path(&self.doc, want, true) {
            Some(p) => p,
            None => return Err(OxmlError::Parse(string_of(missing))),
        };
        let mut p = sp;
        let root = self.doc.root().unwrap();
        assert(p@.skip(0) =~= p@);
        let e = element_at(root, &p, 0);
        let cn: [u8; 5] = /* cNvPr */ [99u8, 78u8, 118u8, 80u8, 114u8];
        assert(cn@ =~= /* cNvPr */ seq![99u8, 78u8, 118u8, 80u8, 114u8]);
        let mut q = match e.find_descendant_path(cn.as_slice()) {
            Some(q) => q,
            None => return Err(OxmlError::Parse(string_of("shape has no cNvPr element"))),
        };
        proof {
            lemma_desc_path(*e, /* cNvPr */ seq![99u8, 78u8, 118u8, 80u8, 114u8]);
            lemma_at_path_concat(*root, p@, q@);
        }
        let ghost pv = p@;
        let ghost qv = q@;
        p.append(&mut q);
        assert(p@ =~= pv + qv);
        let hidden: [u8; 6] = /* hidden */ [104u8, 105u8, 100u8, 100u8, 101u8, 110u8];
        let one: [u8; 1] = /* 1 */ [49u8];
        assert(hidden@ =~= /* hidden */ seq![104u8, 105u8, 100u8, 100u8, 101u8, 110u8]);
        assert(one@ =~= /* 1 */ seq![49u8]);
        let ghost old_c = doc_at(self.doc, p@);
        let c = self.doc.element_at_mut(&p).unwrap();
        if visible {
            let names: [&[u8]; 1] = [hidden.as_slice()];
            assert(slice_views(names@) =~= seq![/* hidden */ seq![104u8, 105u8, 100u8, 100u8, 101u8, 110u8]]);
            c.remove_attrs(names.as_slice());
        } else {
            c.set_attr(hidden.as_slice(), one.as_slice());
        }
        let ghost new_c = *c;
        proof {
            assert(visibility_set(old_c, new_c, visible));
            assert(self.document() == self.doc);
            assert(old(self).document() == old(self).doc);
            assert(placeholder_cnvpr_path(old(self).document(), want@) == Some(p@));
            assert(old_c == doc_at(old(self).document(), p@));
            assert(doc_replaced(old(self).document(), self.document(), p@, new_c));
            let cp = placeholder_cnvpr_path(old(self).document(), want@).unwrap();
            assert(cp == p@);
            assert(doc_replaced(old(self).document(), self.document(), cp, new_c));
            assert(visibility_set(doc_at(old(self).document(), cp), new_c, visible));
        }
        Ok(())
    }

    /// Set the text of the footer placeholder (`ph@type="ftr"`): its text
    /// body's paragraphs become one paragraph of `text` copying the first
    /// run's properties, or a fresh text body is added. Fails, changing
    /// nothing, when there is no footer placeholder.
    pub fn set_footer_text(&mut self, text: &str) -> (r: Result<(), OxmlError>)
        ensures
            r is Ok <==> placeholder_path(old(self).document(), /* ftr */ seq![102u8, 116u8, 114u8], true) is Some,
            r is Err ==> final(self).document() == old(self).document(),
            r is Ok ==> placeholder_text_set(old(self).document(), final(self).document(), /* ftr */ seq![102u8, 116u8, 114u8], text@),
    {
        let t: [u8; 3] = /* ftr */ [102u8, 116u8, 114u8];
        assert(t@ =~= /* ftr */ seq![102u8, 116u8, 114u8]);
        self.edit_placeholder_text(t.as_slice(), "slide has no footer placeholder (ph@type=\"ftr\")", text)
    }

    /// Set the text of the slide-number placeholder (`ph@type="sldNum"`), as
    /// `set_footer_text` does. Fails, changing nothing, when there is none.
    pub fn set_slide_number_text(&mut self, text: &str) -> (r: Result<(), OxmlError>)
        ensures
            r is Ok <==> placeholder_path(old(self).document(), /* sldNum */ seq![115u8, 108u8, 100u8, 78u8, 117u8, 109u8], true) is Some,
            r is Err ==> final(self).document() == old(self).document(),
            r is Ok ==> placeholder_text_set(old(self).document(), final(self).document(), /* sldNum */ seq![115u8, 108u8, 100u8, 78u8, 117u8, 109u8], text@),
    {
        let t: [u8; 6] = /* sldNum */ [115u8, 108u8, 100u8, 78u8, 117u8, 109u8];
        assert(t@ =~= /* sldNum */ seq![115u8, 108u8, 100u8, 78u8, 117u8, 109u8]);
        self.edit_placeholder_text(t.as_slice(), "slide has no slide-number placeholder (ph@type=\"sldNum\")", text)
    }

    /// Set the text of the date placeholder (`ph@type="dt"`), as
    /// `set_footer_text` does. Fails, changing nothing, when there is none.
    pub fn set_date_text(&mut self, text: &str) -> (r: Result<(), OxmlError>)
        ensures
            r is Ok <==> placeholder_path(old(self).document(), /* dt */ seq![100u8, 116u8], true) is Some,
            r is Err ==> final(self).document() == old(self).document(),
            r is Ok ==> placeholder_text_set(old(self).document(), final(self).document(), /* dt */ seq![100u8, 116u8], text@),
    {
        let t: [u8; 2] = /* dt */ [100u8, 116u8];
        assert(t@ =~= /* dt */ seq![100u8, 116u8]);
        self.edit_placeholder_text(t.as_slice(), "slide has no date placeholder (ph@type=\"dt\")", text)
    }

    /// Show or hide the slide-number placeholder: `hidden="1"` on its
    /// `cNvPr`, or that attribute removed. Fails, changing nothing, when
    /// there is no such placeholder or it has no `cNvPr`.
    pub fn set_slide_number_visible(&mut self, visible: bool) -> (r: Result<(), OxmlError>)
        ensures
            r is Ok <==> placeholder_cnvpr_path(old(self).document(), /* sldNum */ seq![115u8, 108u8, 100u8, 78u8, 117u8, 109u8]) is Some,
            r is Err ==> final(self).document() == old(self).document(),
            r is Ok ==> {
                let cp = placeholder_cnvpr_path(old(self).document(), /* sldNum */ seq![115u8, 108u8, 100u8, 78u8, 117u8, 109u8]).unwrap();
                exists|new_c: Element| {
                    &&& #[trigger] doc_replaced(old(self).document(), final(self).document(), cp, new_c)
                    &&& visibility_set(doc_at(old(self).document(), cp), new_c, visible)
                }
            },
    {
        let t: [u8; 6] = /* sldNum */ [115u8, 108u8, 100u8, 78u8, 117u8, 109u8];
        assert(t@ =~= /* sldNum */ seq![115u8, 108u8, 100u8, 78u8, 117u8, 109u8]);
        self.edit_visibility(t.as_slice(), "slide has no slide-number placeholder (ph@type=\"sldNum\")", visible)
    }

    /// Show or hide the footer placeholder, as `set_slide_number_visible`
    /// does.
    pub fn set_footer_visible(&mut self, visible: bool) -> (r: Result<(), OxmlError>)
        ensures
            r is Ok <==> placeholder_cnvpr_path(old(self).document(), /* ftr */ seq![102u8, 116u8, 114u8]) is Some,
            r is Err ==> final(self).document() == old(self).document(),
            r is Ok ==> {
                let cp = placeholder_cnvpr_path(old(self).document(), /* ftr */ seq![102u8, 116u8, 114u8]).unwrap();
                exists|new_c: Element| {
                    &&& #[trigger] doc_replaced(old(self).document(), final(self).document(), cp, new_c)
                    &&& visibility_set(doc_at(old(self).document(), cp), new_c, visible)
                }
            },
    {
        let t: [u8; 3] = /* ftr */ [102u8, 116u8, 114u8];
        assert(t@ =~= /* ftr */ seq![102u8, 116u8, 114u8]);
        self.edit_visibility(t.as_slice(), "slide has no footer placeholder (ph@type=\"ftr\")", visible)
    }

    /// Show or hide the date placeholder, as `set_slide_number_visible`
    /// does.
    pub fn set_date_visible(&mut self, visible: bool) -> (r: Result<(), OxmlError>)
        ensures
            r is Ok <==> placeholder_cnvpr_path(old(self).document(), /* dt */ seq![100u8, 116u8]) is Some,
            r is Err ==> final(self).document() == old(self).document(),
            r is Ok ==> {
                let cp = placeholder_cnvpr_path(old(self).document(), /* dt */ seq![100u8, 116u8]).unwrap();
                exists|new_c: Element| {
                    &&& #[trigger] doc_replaced(old(self).document(), final(self).document(), cp, new_c)
                    &&& visibility_set(doc_at(old(self).document(), cp), new_c, visible)
                }
            },
    {
        let t: [u8; 2] = /* dt */ [100u8, 116u8];
        assert(t@ =~= /* dt */ seq![100u8, 116u8]);
        self.edit_visibility(t.as_slice(), "slide has no date placeholder (ph@type=\"dt\")", visible)
    }
}

/// A copy of a path.
fn copy_path(p: &Vec<usize>) -> (r: Vec<usize>)
    ensures
        r@ == p@,
{
    let mut r: Vec<usize> = Vec::new();
    let mut i: usize = 0;
    while i < p.len()
        invariant
            i <= p@.len(),
            r@ == p@.take(i as int),
        decreases p@.len() - i,
    {
        r.push(p[i]);
        assert(p@.take(i + 1) =~= p@.take(i as int).push(p@[i as int]));
        i = i + 1;
    }
    assert(p@.take(p@.len() as int) =~= p@);
    r
}

// ─── Laws of placeholder lookup ─────────────────────────────────────────────

/// `ph_index_from` from `k` lands on `i` when node `i` qualifies and none
/// between `k` and `i` does.
proof fn lemma_ph_index_at(ns: Seq<Node>, want: Seq<u8>, exact: bool, k: int, i: int)
    requires
        0 <= k <= i < ns.len(),
        if exact { is_typed_placeholder(ns[i], want) } else { is_placeholder_for(ns[i], want) },
        forall|j: int| k <= j < i ==> !(if exact { is_typed_placeholder(#[trigger] ns[j], want) } else { is_placeholder_for(ns[j], want) }),
    ensures
        ph_index_from(ns, want, exact, k) == i,
    decreases i - k,
{
    if k < i {
        lemma_ph_index_at(ns, want, exact, k + 1, i);
    }
}

/// Which shapes answer a placeholder request, by the `type` their first `ph`
/// declares: the requested type itself; a centred title for a title; a
/// subtitle for a body; and an untyped placeholder for a body only.
pub proof fn lemma_placeholder_request_answers(n: Node, want: Seq<u8>)
    ensures
        declared_ph_type(n) is None ==> !is_placeholder_for(n, want),
        declared_ph_type(n) == Some(None::<Seq<u8>>) ==> (is_placeholder_for(n, want) <==> want == /* body */ seq![98u8, 111u8, 100u8, 121u8]),
        declared_ph_type(n) == Some(Some(want)) ==> is_placeholder_for(n, want),
        declared_ph_type(n) == Some(Some(/* ctrTitle */ seq![99u8, 116u8, 114u8, 84u8, 105u8, 116u8, 108u8, 101u8])) && want == /* title */ seq![116u8, 105u8, 116u8, 108u8, 101u8] ==> is_placeholder_for(n, want),
        declared_ph_type(n) == Some(Some(/* subTitle */ seq![115u8, 117u8, 98u8, 84u8, 105u8, 116u8, 108u8, 101u8])) && want == /* body */ seq![98u8, 111u8, 100u8, 121u8] ==> is_placeholder_for(n, want),
        forall|t: Seq<u8>|
            declared_ph_type(n) == Some(Some(t)) && t != want && !(t == /* ctrTitle */ seq![99u8, 116u8, 114u8, 84u8, 105u8, 116u8, 108u8, 101u8] && want == /* title */ seq![116u8, 105u8, 116u8, 108u8, 101u8]) && !(t
                == /* subTitle */ seq![115u8, 117u8, 98u8, 84u8, 105u8, 116u8, 108u8, 101u8] && want == /* body */ seq![98u8, 111u8, 100u8, 121u8]) ==> !is_placeholder_for(n, want),
{
}

/// The shape at child `i` of the shape tree, and the paths below it.
proof fn lemma_tree_child_at(d: Document, tp: Seq<usize>, i: usize, q: Seq<usize>)
    requires
        tree_path(d) == Some(tp),
        0 <= i < doc_at(d, tp).children@.len(),
        doc_at(d, tp).children@[i as int] is Element,
    ensures
        doc_at(d, tp.push(i)) == doc_at(d, tp).children@[i as int]->Element_0,
        doc_at(d, tp.push(i) + q) == at_path(doc_at(d, tp).children@[i as int]->Element_0, q),
{
    let root = doc_root(d).unwrap();
    lemma_desc_path(root, /* spTree */ seq![115u8, 112u8, 84u8, 114u8, 101u8, 101u8]);
    lemma_path_push(root, tp, i);
    lemma_at_path_concat(root, tp.push(i), q);
}

/// A centred title answers a request for the title: when the first autoshape
/// of the shape tree whose placeholder type is `title` or `ctrTitle` is a
/// `ctrTitle`, the title lookup finds that shape, its text body, and (when
/// the text body has one) its first paragraph, which `set_title` rewrites.
pub proof fn lemma_centered_title_answers_title(d: Document, tp: Seq<usize>, i: usize)
    requires
        tree_path(d) == Some(tp),
        0 <= i < doc_at(d, tp).children@.len(),
        declared_ph_type(doc_at(d, tp).children@[i as int]) == Some(Some(/* ctrTitle */ seq![99u8, 116u8, 114u8, 84u8, 105u8, 116u8, 108u8, 101u8])),
        forall|j: int|
            0 <= j < i ==> {
                &&& declared_ph_type(#[trigger] doc_at(d, tp).children@[j]) != Some(Some(/* title */ seq![116u8, 105u8, 116u8, 108u8, 101u8]))
                &&& declared_ph_type(doc_at(d, tp).children@[j]) != Some(Some(/* ctrTitle */ seq![99u8, 116u8, 114u8, 84u8, 105u8, 116u8, 108u8, 101u8]))
            },
    ensures
        placeholder_path(d, /* title */ seq![116u8, 105u8, 116u8, 108u8, 101u8], false) == Some(tp.push(i)),
        placeholder_tx_path(d, /* title */ seq![116u8, 105u8, 116u8, 108u8, 101u8], false) == (match desc_path(doc_at(d, tp).children@[i as int]->Element_0, /* txBody */ seq![116u8, 120u8, 66u8, 111u8, 100u8, 121u8]) {
            Some(q) => Some(tp.push(i) + q),
            None => None,
        }),
        title_paragraph_path(d) is Some <==> (desc_path(doc_at(d, tp).children@[i as int]->Element_0, /* txBody */ seq![116u8, 120u8, 66u8, 111u8, 100u8, 121u8]) matches Some(q)
            && first_named_index(at_path(doc_at(d, tp).children@[i as int]->Element_0, q).children@, /* p */ seq![112u8]) >= 0),
{
    let ns = doc_at(d, tp).children@;
    assert(/* body */ seq![98u8, 111u8, 100u8, 121u8] != /* title */ seq![116u8, 105u8, 116u8, 108u8, 101u8]);
    assert(/* body */ seq![98u8, 111u8, 100u8, 121u8] != /* ctrTitle */ seq![99u8, 116u8, 114u8, 84u8, 105u8, 116u8, 108u8, 101u8]);
    assert(is_placeholder_for(ns[i as int], /* title */ seq![116u8, 105u8, 116u8, 108u8, 101u8]));
    assert forall|j: int| 0 <= j < i implies !is_placeholder_for(#[trigger] ns[j], /* title */ seq![116u8, 105u8, 116u8, 108u8, 101u8]) by {
        assert(declared_ph_type(ns[j]) != Some(Some(/* title */ seq![116u8, 105u8, 116u8, 108u8, 101u8])));
    }
    lemma_ph_index_at(ns, /* title */ seq![116u8, 105u8, 116u8, 108u8, 101u8], false, 0, i as int);
    let sp = ns[i as int]->Element_0;
    match desc_path(sp, /* txBody */ seq![116u8, 120u8, 66u8, 111u8, 100u8, 121u8]) {
        Some(q) => {
            lemma_tree_child_at(d, tp, i, q);
        },
        None => {
            lemma_tree_child_at(d, tp, i, Seq::<usize>::empty());
        },
    }
}

/// A placeholder without a type is a body placeholder (the PresentationML
/// default): when the first autoshape of the shape tree whose placeholder is
/// untyped, `body` or `subTitle` is untyped, the body lookup of
/// `set_body_bullets` finds that shape and its text body.
pub proof fn lemma_untyped_placeholder_answers_body(d: Document, tp: Seq<usize>, i: usize)
    requires
        tree_path(d) == Some(tp),
        0 <= i < doc_at(d, tp).children@.len(),
        declared_ph_type(doc_at(d, tp).children@[i as int]) == Some(None::<Seq<u8>>),
        forall|j: int|
            0 <= j < i ==> {
                &&& declared_ph_type(#[trigger] doc_at(d, tp).children@[j]) != Some(None::<Seq<u8>>)
                &&& declared_ph_type(doc_at(d, tp).children@[j]) != Some(Some(/* body */ seq![98u8, 111u8, 100u8, 121u8]))
                &&& declared_ph_type(doc_at(d, tp).children@[j]) != Some(Some(/* subTitle */ seq![115u8, 117u8, 98u8, 84u8, 105u8, 116u8, 108u8, 101u8]))
            },
    ensures
        placeholder_path(d, /* body */ seq![98u8, 111u8, 100u8, 121u8], false) == Some(tp.push(i)),
        placeholder_tx_path(d, /* body */ seq![98u8, 111u8, 100u8, 121u8], false) == (match desc_path(doc_at(d, tp).children@[i as int]->Element_0, /* txBody */ seq![116u8, 120u8, 66u8, 111u8, 100u8, 121u8]) {
            Some(q) => Some(tp.push(i) + q),
            None => None,
        }),
{
    let ns = doc_at(d, tp).children@;
    assert(is_placeholder_for(ns[i as int], /* body */ seq![98u8, 111u8, 100u8, 121u8]));
    assert forall|j: int| 0 <= j < i implies !is_placeholder_for(#[trigger] ns[j], /* body */ seq![98u8, 111u8, 100u8, 121u8]) by {
        assert(declared_ph_type(ns[j]) != Some(None::<Seq<u8>>));
    }
    lemma_ph_index_at(ns, /* body */ seq![98u8, 111u8, 100u8, 121u8], false, 0, i as int);
    let sp = ns[i as int]->Element_0;
    match desc_path(sp, /* txBody */ seq![116u8, 120u8, 66u8, 111u8, 100u8, 121u8]) {
        Some(q) => {
            lemma_tree_child_at(d, tp, i, q);
        },
        None => {
            lemma_tree_child_at(d, tp, i, Seq::<usize>::empty());
        },
    }
}

} // verus!
