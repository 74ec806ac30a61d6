//! Properties of a single shape: auto-fit, picture crop, hyperlinks and
//! click actions, transform (position, size, rotation) and outline.

use vstd::prelude::*;
use vstd::utf8::encode_utf8;
use crate::error::{parse_error_is, OxmlError};
use crate::text::{dec_int, dec_i64, dec_nat, dec_u64, from_utf8_lossy, push_str, string_of};
use crate::xml::{
    attrs_view, desc_path, doc_replaced, element_at, element_bytes, first_named_index, first_named_position,
    is_named, lemma_at_path_concat, lemma_desc_path, lemma_first_named_index, local_of, new_element, node_bytes,
    node_element_mut, nodes_bytes, ordered_position, same_tags, set_attr_spec, valid_path, doc_root, Document, Element, Node,
};
use super::{
    doc_at, drop_children_named, find_paragraph_path, find_text_body_path, find_tree_child_path, kind_drawable,
    kind_run, lemma_insert_update, lemma_path_push, message, nth_kind, nth_position, paragraph_path,
    text_body_error, text_body_path, tree_child_path, without_names, ClickAction, AutoFit, ColorSpec, LineSpec, SlideDom,
};
use super::table::{message2, set_attrs_spec};

verus! {

/// Set each pair of `kvs` in turn.
pub(crate) fn set_attrs(e: &mut Element, kvs: &Vec<(Vec<u8>, Vec<u8>)>)
    ensures
        final(e).attrs_v() == set_attrs_spec(old(e).attrs_v(), attrs_view(kvs@)),
        final(e).dirty || kvs@.len() == 0,
        kvs@.len() == 0 ==> final(e).dirty == old(e).dirty,
        final(e).name == old(e).name,
        final(e).raw_start == old(e).raw_start,
        final(e).raw_end == old(e).raw_end,
        final(e).self_closing == old(e).self_closing,
        final(e).children == old(e).children,
{
    let mut i: usize = 0;
    while i < kvs.len()
        invariant
            i <= kvs@.len(),
            e.attrs_v() == set_attrs_spec(old(e).attrs_v(), attrs_view(kvs@).take(i as int)),
            e.dirty || i == 0,
            i == 0 ==> e.dirty == old(e).dirty,
            e.name == old(e).name,
            e.raw_start == old(e).raw_start,
            e.raw_end == old(e).raw_end,
            e.self_closing == old(e).self_closing,
            e.children == old(e).children,
        decreases kvs@.len() - i,
    {
        e.set_attr(kvs[i].0.as_slice(), kvs[i].1.as_slice());
        proof {
            assert(attrs_view(kvs@).take(i + 1).drop_last() =~= attrs_view(kvs@).take(i as int));
        }
        i = i + 1;
    }
    assert(attrs_view(kvs@).take(kvs@.len() as int) =~= attrs_view(kvs@));
}

/// A pair of owned byte strings.
pub(crate) fn kv(k: &[u8], v: &[u8]) -> (r: (Vec<u8>, Vec<u8>))
    ensures
        r.0@ == k@,
        r.1@ == v@,
{
    (crate::bytes::to_vec(k), crate::bytes::to_vec(v))
}

// ─── Auto-fit ───────────────────────────────────────────────────────────────

/// The bytes of the auto-fit child for a mode (none for `Off`).
pub open spec fn autofit_bytes(fit: AutoFit) -> Seq<u8> {
    match fit {
        AutoFit::Off => Seq::empty(),
        AutoFit::ShrinkToFit { font_scale } => match font_scale {
            Some(s) => if s != 100000 {
                /* <a:normAutofit fontScale=\" */ seq![60u8, 97u8, 58u8, 110u8, 111u8, 114u8, 109u8, 65u8, 117u8, 116u8, 111u8, 102u8, 105u8, 116u8, 32u8, 102u8, 111u8, 110u8, 116u8, 83u8, 99u8, 97u8, 108u8, 101u8, 61u8, 34u8] + encode_utf8(dec_nat(s as nat)) + /* \"/> */ seq![34u8, 47u8, 62u8]
            } else {
                /* <a:normAutofit/> */ seq![60u8, 97u8, 58u8, 110u8, 111u8, 114u8, 109u8, 65u8, 117u8, 116u8, 111u8, 102u8, 105u8, 116u8, 47u8, 62u8]
            },
            None => /* <a:normAutofit/> */ seq![60u8, 97u8, 58u8, 110u8, 111u8, 114u8, 109u8, 65u8, 117u8, 116u8, 111u8, 102u8, 105u8, 116u8, 47u8, 62u8],
        },
        AutoFit::ResizeShape => /* <a:spAutoFit/> */ seq![60u8, 97u8, 58u8, 115u8, 112u8, 65u8, 117u8, 116u8, 111u8, 70u8, 105u8, 116u8, 47u8, 62u8],
    }
}

/// `new` is body properties `old` without their auto-fit children, then,
/// unless the mode is `Off`, with the mode's child put first (the element
/// becoming an open/close pair).
pub open spec fn autofit_set(old: Element, new: Element, fit: AutoFit) -> bool {
    let kept = without_names(old.children@, /* normAutofit */ seq![110u8, 111u8, 114u8, 109u8, 65u8, 117u8, 116u8, 111u8, 102u8, 105u8, 116u8], /* spAutoFit */ seq![115u8, 112u8, 65u8, 117u8, 116u8, 111u8, 70u8, 105u8, 116u8], /* noAutofit */ seq![110u8, 111u8, 65u8, 117u8, 116u8, 111u8, 102u8, 105u8, 116u8]);
    if fit is Off {
        &&& same_tags(old, new)
        &&& new.children@ == kept
    } else {
        &&& new.name == old.name
        &&& new.raw_start == old.raw_start
        &&& new.raw_end == old.raw_end
        &&& new.attrs == old.attrs
        &&& !new.self_closing
        &&& new.dirty == (old.dirty || old.self_closing)
        &&& new.children@.len() == kept.len() + 1
        &&& new.children@ == kept.insert(0, new.children@[0])
        &&& node_bytes(new.children@[0]) == autofit_bytes(fit)
    }
}

/// Path to the body properties (first `bodyPr` child) of the text body of
/// autoshape `idx`.
pub open spec fn body_pr_path(d: Document, idx: int) -> Option<Seq<usize>> {
    match text_body_path(d, idx) {
        Some(tp) => {
            let i = first_named_index(doc_at(d, tp).children@, /* bodyPr */ seq![98u8, 111u8, 100u8, 121u8, 80u8, 114u8]);
            if i >= 0 {
                Some(tp.push(i as usize))
            } else {
                None
            }
        },
        None => None,
    }
}

fn autofit_element(fit: &AutoFit) -> (e: Element)
    requires
        !(*fit is Off),
    ensures
        element_bytes(e) == autofit_bytes(*fit),
{
    match fit {
        AutoFit::ResizeShape => {
            let n: [u8; 11] = /* a:spAutoFit */ [97u8, 58u8, 115u8, 112u8, 65u8, 117u8, 116u8, 111u8, 70u8, 105u8, 116u8];
            assert(n@ =~= /* a:spAutoFit */ seq![97u8, 58u8, 115u8, 112u8, 65u8, 117u8, 116u8, 111u8, 70u8, 105u8, 116u8]);
            let mut e = new_element(n.as_slice());
            e.self_closing = true;
            proof {
                assert(e.attrs_v() =~= Seq::<(Seq<u8>, Seq<u8>)>::empty());
                assert(element_bytes(e) =~= autofit_bytes(*fit));
            }
            e
        },
        _ => {
            let n: [u8; 13] = /* a:normAutofit */ [97u8, 58u8, 110u8, 111u8, 114u8, 109u8, 65u8, 117u8, 116u8, 111u8, 102u8, 105u8, 116u8];
            assert(n@ =~= /* a:normAutofit */ seq![97u8, 58u8, 110u8, 111u8, 114u8, 109u8, 65u8, 117u8, 116u8, 111u8, 102u8, 105u8, 116u8]);
            let scale = match fit {
                AutoFit::ShrinkToFit { font_scale } => *font_scale,
                _ => None,
            };
            match scale {
                Some(s) => {
                    if s != 100000 {
                        let k: [u8; 9] = /* fontScale */ [102u8, 111u8, 110u8, 116u8, 83u8, 99u8, 97u8, 108u8, 101u8];
                        assert(k@ =~= /* fontScale */ seq![102u8, 111u8, 110u8, 116u8, 83u8, 99u8, 97u8, 108u8, 101u8]);
                        let d = dec_u64(s as u64);
                        let e = super::fresh_leaf(n.as_slice(), k.as_slice(), d.as_str().as_bytes());
                        assert(element_bytes(e) =~= autofit_bytes(*fit));
                        return e;
                    }
                },
                None => {},
            }
            let mut e = new_element(n.as_slice());
            e.self_closing = true;
            proof {
                assert(e.attrs_v() =~= Seq::<(Seq<u8>, Seq<u8>)>::empty());
                assert(element_bytes(e) =~= autofit_bytes(*fit));
            }
            e
        },
    }
}

impl SlideDom {
    /// Set the auto-fit of the text body of autoshape `shape_idx`: any
    /// `normAutofit`, `spAutoFit` or `noAutofit` child of its `bodyPr` is
    /// removed, and the mode's element put first (none for `Off`). Fails,
    /// changing nothing, when there is no such shape, text body or `bodyPr`.
    pub fn set_autofit(&mut self, shape_idx: usize, autofit: &AutoFit) -> (r: Result<(), OxmlError>)
        ensures
            r is Ok <==> body_pr_path(old(self).document(), shape_idx as int) is Some,
            r is Err ==> final(self).document() == old(self).document(),
            r matches Err(e) ==> parse_error_is(
                e,
                if text_body_path(old(self).document(), shape_idx as int) is None {
                    text_body_error(old(self).document(), shape_idx as int)
                } else {
                    "shape at index "@ + dec_nat(shape_idx as nat) + " text body has no bodyPr"@
                },
            ),
            r is Ok ==> {
                let p = body_pr_path(old(self).document(), shape_idx as int).unwrap();
                exists|new_b: Element| {
                    &&& #[trigger] doc_replaced(old(self).document(), final(self).document(), p, new_b)
                    &&& autofit_set(doc_at(old(self).document(), p), new_b, *autofit)
                }
            },
    {
        let mut p = match find_text_body_path(&self.doc, shape_idx) {
            Ok(p) => p,
            Err(e) => return Err(e),
        };
        let root = self.doc.root().unwrap();
        assert(p@.skip(0) =~= p@);
        let tx = element_at(root, &p, 0);
        let bn: [u8; 6] = /* bodyPr */ [98u8, 111u8, 100u8, 121u8, 80u8, 114u8];
        assert(bn@ =~= /* bodyPr */ seq![98u8, 111u8, 100u8, 121u8, 80u8, 114u8]);
        proof { lemma_first_named_index(tx.children@, /* bodyPr */ seq![98u8, 111u8, 100u8, 121u8, 80u8, 114u8]); }
        let i = match first_named_position(&tx.children, bn.as_slice()) {
            Some(i) => i,
            None => return Err(OxmlError::Parse(message("shape at index ", shape_idx, " text body has no bodyPr"))),
        };
        proof { lemma_path_push(*root, p@, i); }
        let ghost p0 = p@;
        p.push(i);
        let fresh = match autofit {
            AutoFit::Off => None,
            _ => Some(autofit_element(autofit)),
        };
        let a: [u8; 11] = /* normAutofit */ [110u8, 111u8, 114u8, 109u8, 65u8, 117u8, 116u8, 111u8, 102u8, 105u8, 116u8];
        let b: [u8; 9] = /* spAutoFit */ [115u8, 112u8, 65u8, 117u8, 116u8, 111u8, 70u8, 105u8, 116u8];
        let c: [u8; 9] = /* noAutofit */ [110u8, 111u8, 65u8, 117u8, 116u8, 111u8, 102u8, 105u8, 116u8];
        assert(a@ =~= /* normAutofit */ seq![110u8, 111u8, 114u8, 109u8, 65u8, 117u8, 116u8, 111u8, 102u8, 105u8, 116u8]);
        assert(b@ =~= /* spAutoFit */ seq![115u8, 112u8, 65u8, 117u8, 116u8, 111u8, 70u8, 105u8, 116u8]);
        assert(c@ =~= /* noAutofit */ seq![110u8, 111u8, 65u8, 117u8, 116u8, 111u8, 102u8, 105u8, 116u8]);
        let ghost old_b = doc_at(self.doc, p@);
        let body_pr = self.doc.element_at_mut(&p).unwrap();
        drop_children_named(body_pr, a.as_slice(), b.as_slice(), c.as_slice());
        match fresh {
            Some(el) => {
                if body_pr.self_closing {
                    body_pr.self_closing = false;
                    body_pr.dirty = true;
                }
                let ghost kept = body_pr.children@;
                let ghost node = Node::Element(el);
                body_pr.children.insert(0, Node::Element(el));
                assert(body_pr.children@ == kept.insert(0, node));
            },
            None => {},
        }
        let ghost new_b = *body_pr;
        proof {
            assert(autofit_set(old_b, new_b, *autofit));
            assert(self.document() == self.doc);
            assert(old(self).document() == old(self).doc);
            let bp = body_pr_path(old(self).document(), shape_idx as int).unwrap();
            assert(bp == p@);
            assert(old_b == doc_at(old(self).document(), bp));
            assert(doc_replaced(old(self).document(), self.document(), bp, new_b));
        }
        Ok(())
    }
}

// ─── Picture crop ───────────────────────────────────────────────────────────

/// Path to the picture fill (first `blipFill` child) of drawable `idx` when
/// it is a picture (`p:pic`).
pub open spec fn blip_fill_path(d: Document, idx: int) -> Option<Seq<usize>> {
    match tree_child_path(d, kind_drawable(), idx) {
        Some(sp) => if doc_at(d, sp).local() == /* pic */ seq![112u8, 105u8, 99u8] {
            let i = first_named_index(doc_at(d, sp).children@, /* blipFill */ seq![98u8, 108u8, 105u8, 112u8, 70u8, 105u8, 108u8, 108u8]);
            if i >= 0 {
                Some(sp.push(i as usize))
            } else {
                None
            }
        } else {
            None
        },
        None => None,
    }
}

/// The crop attributes, in the order they are set.
pub open spec fn crop_kvs(left: u32, top: u32, right: u32, bottom: u32) -> Seq<(Seq<u8>, Seq<u8>)> {
    seq![
        (/* l */ seq![108u8], encode_utf8(dec_nat(left as nat))),
        (/* t */ seq![116u8], encode_utf8(dec_nat(top as nat))),
        (/* r */ seq![114u8], encode_utf8(dec_nat(right as nat))),
        (/* b */ seq![98u8], encode_utf8(dec_nat(bottom as nat))),
    ]
}

/// Where a fresh source rectangle goes in a picture fill: right after its
/// first `blip`, or first.
pub open spec fn src_rect_slot(bf: Element) -> int {
    let b = first_named_index(bf.children@, /* blip */ seq![98u8, 108u8, 105u8, 112u8]);
    if b >= 0 {
        b + 1
    } else {
        0
    }
}

/// `new` is picture fill `old` whose first `srcRect` (or a fresh
/// self-closing `a:srcRect` put after the `blip`) got the attributes `kvs`
/// set in order; nothing else changed.
pub open spec fn src_rect_set(old: Element, new: Element, kvs: Seq<(Seq<u8>, Seq<u8>)>) -> bool {
    let i = first_named_index(old.children@, /* srcRect */ seq![115u8, 114u8, 99u8, 82u8, 101u8, 99u8, 116u8]);
    let slot = if i >= 0 { i } else { src_rect_slot(old) };
    &&& same_tags(old, new)
    &&& 0 <= slot < new.children@.len()
    &&& new.children@[slot] is Element
    &&& new.children@ == if i >= 0 {
        old.children@.update(slot, new.children@[slot])
    } else {
        old.children@.insert(slot, new.children@[slot])
    }
    &&& {
        let q = new.children@[slot]->Element_0;
        &&& q.dirty
        &&& if i >= 0 {
            let o = old.children@[i]->Element_0;
            &&& q.attrs_v() == set_attrs_spec(o.attrs_v(), kvs)
            &&& q.name == o.name
            &&& q.raw_start == o.raw_start
            &&& q.raw_end == o.raw_end
            &&& q.self_closing == o.self_closing
            &&& q.children == o.children
        } else {
            &&& q.attrs_v() == set_attrs_spec(Seq::empty(), kvs)
            &&& q.name@ == /* a:srcRect */ seq![97u8, 58u8, 115u8, 114u8, 99u8, 82u8, 101u8, 99u8, 116u8]
            &&& q.raw_start@.len() == 0
            &&& q.raw_end@.len() == 0
            &&& q.self_closing
            &&& q.children@.len() == 0
        }
    }
}

fn crop_attrs(left: u32, top: u32, right: u32, bottom: u32) -> (r: Vec<(Vec<u8>, Vec<u8>)>)
    ensures
        attrs_view(r@) == crop_kvs(left, top, right, bottom),
        r@.len() == 4,
{
    let kl: [u8; 1] = /* l */ [108u8];
    let kt: [u8; 1] = /* t */ [116u8];
    let kr: [u8; 1] = /* r */ [114u8];
    let kb: [u8; 1] = /* b */ [98u8];
    assert(kl@ =~= /* l */ seq![108u8]);
    assert(kt@ =~= /* t */ seq![116u8]);
    assert(kr@ =~= /* r */ seq![114u8]);
    assert(kb@ =~= /* b */ seq![98u8]);
    let vl = dec_u64(left as u64);
    let vt = dec_u64(top as u64);
    let vr = dec_u64(right as u64);
    let vb = dec_u64(bottom as u64);
    let mut out: Vec<(Vec<u8>, Vec<u8>)> = Vec::new();
    out.push(kv(kl.as_slice(), vl.as_str().as_bytes()));
    out.push(kv(kt.as_slice(), vt.as_str().as_bytes()));
    out.push(kv(kr.as_slice(), vr.as_str().as_bytes()));
    out.push(kv(kb.as_slice(), vb.as_str().as_bytes()));
    assert(attrs_view(out@) =~= crop_kvs(left, top, right, bottom));
    out
}

fn set_src_rect(bf: &mut Element, kvs: &Vec<(Vec<u8>, Vec<u8>)>)
    requires
        kvs@.len() > 0,
    ensures
        src_rect_set(*old(bf), *final(bf), attrs_view(kvs@)),
{
    let sn: [u8; 7] = /* srcRect */ [115u8, 114u8, 99u8, 82u8, 101u8, 99u8, 116u8];
    let bn: [u8; 4] = /* blip */ [98u8, 108u8, 105u8, 112u8];
    assert(sn@ =~= /* srcRect */ seq![115u8, 114u8, 99u8, 82u8, 101u8, 99u8, 116u8]);
    assert(bn@ =~= /* blip */ seq![98u8, 108u8, 105u8, 112u8]);
    proof {
        lemma_first_named_index(bf.children@, /* srcRect */ seq![115u8, 114u8, 99u8, 82u8, 101u8, 99u8, 116u8]);
        lemma_first_named_index(bf.children@, /* blip */ seq![98u8, 108u8, 105u8, 112u8]);
    }
    match first_named_position(&bf.children, sn.as_slice()) {
        Some(i) => {
            let q = node_element_mut(&mut bf.children, i).unwrap();
            set_attrs(q, kvs);
        },
        None => {
            let len = bf.children.len();
            let slot = match first_named_position(&bf.children, bn.as_slice()) {
                Some(b) => {
                    assert(b < len);
                    b + 1
                },
                None => 0,
            };
            let qn: [u8; 9] = /* a:srcRect */ [97u8, 58u8, 115u8, 114u8, 99u8, 82u8, 101u8, 99u8, 116u8];
            assert(qn@ =~= /* a:srcRect */ seq![97u8, 58u8, 115u8, 114u8, 99u8, 82u8, 101u8, 99u8, 116u8]);
            let mut e = new_element(qn.as_slice());
            e.self_closing = true;
            proof { assert(e.attrs_v() =~= Seq::<(Seq<u8>, Seq<u8>)>::empty()); }
            set_attrs(&mut e, kvs);
            let ghost before = bf.children@;
            let ghost node = Node::Element(e);
            bf.children.insert(slot, Node::Element(e));
            assert(bf.children@ == before.insert(slot as int, node));
        },
    }
}

impl SlideDom {
    /// Crop the picture that is drawable `shape_idx`: the first `srcRect` of
    /// its first `blipFill` (a fresh one put right after the `blip` when it
    /// has none) gets `l`, `t`, `r`, `b` in thousandths of a percent. Fails,
    /// changing nothing, when there is no such shape, it is not a picture, or
    /// it has no `blipFill`.
    pub fn set_image_crop(&mut self, shape_idx: usize, left: u32, top: u32, right: u32, bottom: u32) -> (r: Result<(), OxmlError>)
        ensures
            r is Ok <==> blip_fill_path(old(self).document(), shape_idx as int) is Some,
            r is Err ==> final(self).document() == old(self).document(),
            r is Ok ==> {
                let p = blip_fill_path(old(self).document(), shape_idx as int).unwrap();
                exists|new_bf: Element| {
                    &&& #[trigger] doc_replaced(old(self).document(), final(self).document(), p, new_bf)
                    &&& src_rect_set(doc_at(old(self).document(), p), new_bf, crop_kvs(left, top, right, bottom))
                }
            },
    {
        let mut p = match find_tree_child_path(&self.doc, 3, shape_idx) {
            Some(p) => p,
            None => return Err(OxmlError::Parse(message("no shape at index ", shape_idx, ""))),
        };
        let root = self.doc.root().unwrap();
        assert(p@.skip(0) =~= p@);
        let sp = element_at(root, &p, 0);
        let pic: [u8; 3] = /* pic */ [112u8, 105u8, 99u8];
        assert(pic@ =~= /* pic */ seq![112u8, 105u8, 99u8]);
        if !sp.is_named(pic.as_slice()) {
            let mut m = message("shape at index ", shape_idx, " is not a picture (is \"");
            let l = from_utf8_lossy(sp.local_name());
            push_str(&mut m, l.as_str());
            push_str(&mut m, "\")");
            return Err(OxmlError::Parse(m));
        }
        let bfn: [u8; 8] = /* blipFill */ [98u8, 108u8, 105u8, 112u8, 70u8, 105u8, 108u8, 108u8];
        assert(bfn@ =~= /* blipFill */ seq![98u8, 108u8, 105u8, 112u8, 70u8, 105u8, 108u8, 108u8]);
        proof { lemma_first_named_index(sp.children@, /* blipFill */ seq![98u8, 108u8, 105u8, 112u8, 70u8, 105u8, 108u8, 108u8]); }
        let i = match first_named_position(&sp.children, bfn.as_slice()) {
            Some(i) => i,
            None => return Err(OxmlError::Parse(message("picture at index ", shape_idx, " has no blipFill"))),
        };
        proof { lemma_path_push(*root, p@, i); }
        p.push(i);
        let kvs = crop_attrs(left, top, right, bottom);
        let ghost old_bf = doc_at(self.doc, p@);
        let bf = self.doc.element_at_mut(&p).unwrap();
        set_src_rect(bf, &kvs);
        let ghost new_bf = *bf;
        proof {
            assert(self.document() == self.doc);
            assert(old(self).document() == old(self).doc);
            let bp = blip_fill_path(old(self).document(), shape_idx as int).unwrap();
            assert(bp == p@);
            assert(old_bf == doc_at(old(self).document(), bp));
            assert(doc_replaced(old(self).document(), self.document(), bp, new_bf));
            assert(src_rect_set(doc_at(old(self).document(), bp), new_bf, crop_kvs(left, top, right, bottom)));
        }
        Ok(())
    }
}

// ─── Click actions and hyperlinks ───────────────────────────────────────────

/// The bytes of a click action's `a:hlinkClick`.
pub open spec fn click_bytes(action: ClickAction) -> Seq<u8> {
    match action {
        ClickAction::ExternalUrl { r_id } => /* <a:hlinkClick r:id=\" */ seq![60u8, 97u8, 58u8, 104u8, 108u8, 105u8, 110u8, 107u8, 67u8, 108u8, 105u8, 99u8, 107u8, 32u8, 114u8, 58u8, 105u8, 100u8, 61u8, 34u8] + encode_utf8(r_id@) + /* \"/> */ seq![34u8, 47u8, 62u8],
        ClickAction::JumpToSlide { r_id, action } => /* <a:hlinkClick r:id=\" */ seq![60u8, 97u8, 58u8, 104u8, 108u8, 105u8, 110u8, 107u8, 67u8, 108u8, 105u8, 99u8, 107u8, 32u8, 114u8, 58u8, 105u8, 100u8, 61u8, 34u8] + encode_utf8(r_id@)
            + /* \" action=\" */ seq![34u8, 32u8, 97u8, 99u8, 116u8, 105u8, 111u8, 110u8, 61u8, 34u8] + encode_utf8(action@) + /* \"/> */ seq![34u8, 47u8, 62u8],
    }
}

/// `new` is `cNvPr` element `old` without its `hlinkClick` children and with
/// a child written as `bytes` appended; a self-closing element becomes an
/// open/close pair.
pub open spec fn link_appended(old: Element, new: Element, bytes: Seq<u8>) -> bool {
    &&& new.name == old.name
    &&& new.raw_start == old.raw_start
    &&& new.raw_end == old.raw_end
    &&& new.attrs == old.attrs
    &&& !new.self_closing
    &&& new.dirty == (old.dirty || old.self_closing)
    &&& new.children@.len() > 0
    &&& new.children@.drop_last() == without_names(old.children@, /* hlinkClick */ seq![104u8, 108u8, 105u8, 110u8, 107u8, 67u8, 108u8, 105u8, 99u8, 107u8], /* hlinkClick */ seq![104u8, 108u8, 105u8, 110u8, 107u8, 67u8, 108u8, 105u8, 99u8, 107u8], /* hlinkClick */ seq![104u8, 108u8, 105u8, 110u8, 107u8, 67u8, 108u8, 105u8, 99u8, 107u8])
    &&& node_bytes(new.children@.last()) == bytes
}

/// Path to the first `cNvPr` below drawable `idx`.
pub open spec fn shape_cnvpr_path(d: Document, idx: int) -> Option<Seq<usize>> {
    match tree_child_path(d, kind_drawable(), idx) {
        Some(sp) => match desc_path(doc_at(d, sp), /* cNvPr */ seq![99u8, 78u8, 118u8, 80u8, 114u8]) {
            Some(q) => Some(sp + q),
            None => None,
        },
        None => None,
    }
}

fn click_element(action: &ClickAction) -> (e: Element)
    ensures
        element_bytes(e) == click_bytes(*action),
{
    let n: [u8; 12] = /* a:hlinkClick */ [97u8, 58u8, 104u8, 108u8, 105u8, 110u8, 107u8, 67u8, 108u8, 105u8, 99u8, 107u8];
    let k: [u8; 4] = /* r:id */ [114u8, 58u8, 105u8, 100u8];
    assert(n@ =~= /* a:hlinkClick */ seq![97u8, 58u8, 104u8, 108u8, 105u8, 110u8, 107u8, 67u8, 108u8, 105u8, 99u8, 107u8]);
    assert(k@ =~= /* r:id */ seq![114u8, 58u8, 105u8, 100u8]);
    match action {
        ClickAction::ExternalUrl { r_id } => {
            let e = super::fresh_leaf(n.as_slice(), k.as_slice(), r_id.as_str().as_bytes());
            assert(element_bytes(e) =~= click_bytes(*action));
            e
        },
        ClickAction::JumpToSlide { r_id, action: act } => {
            let mut e = super::fresh_leaf(n.as_slice(), k.as_slice(), r_id.as_str().as_bytes());
            let a: [u8; 6] = /* action */ [97u8, 99u8, 116u8, 105u8, 111u8, 110u8];
            assert(a@ =~= /* action */ seq![97u8, 99u8, 116u8, 105u8, 111u8, 110u8]);
            e.set_attr(a.as_slice(), act.as_str().as_bytes());
            proof {
                assert(/* r:id */ seq![114u8, 58u8, 105u8, 100u8] != /* action */ seq![97u8, 99u8, 116u8, 105u8, 111u8, 110u8]) by {
                    assert(/* r:id */ seq![114u8, 58u8, 105u8, 100u8].len() != /* action */ seq![97u8, 99u8, 116u8, 105u8, 111u8, 110u8].len());
                }
                assert(crate::xml::attr_index_from(seq![(/* r:id */ seq![114u8, 58u8, 105u8, 100u8], encode_utf8(r_id@))], 1, /* action */ seq![97u8, 99u8, 116u8, 105u8, 111u8, 110u8]) == -1);
                assert(crate::xml::attr_index(seq![(/* r:id */ seq![114u8, 58u8, 105u8, 100u8], encode_utf8(r_id@))], /* action */ seq![97u8, 99u8, 116u8, 105u8, 111u8, 110u8]) == -1);
                let v = e.attrs_v();
                assert(v =~= seq![(/* r:id */ seq![114u8, 58u8, 105u8, 100u8], encode_utf8(r_id@)), (/* action */ seq![97u8, 99u8, 116u8, 105u8, 111u8, 110u8], encode_utf8(act@))]);
                reveal_with_fuel(crate::xml::attrs_bytes, 3);
                assert(v.drop_last() =~= seq![(/* r:id */ seq![114u8, 58u8, 105u8, 100u8], encode_utf8(r_id@))]);
                assert(v.drop_last().drop_last() =~= Seq::<(Seq<u8>, Seq<u8>)>::empty());
                assert(element_bytes(e) =~= click_bytes(*action));
            }
            e
        },
    }
}

/// Remove `hlinkClick` children, open the element, and append `child`.
fn append_link(e: &mut Element, child: Element)
    ensures
        link_appended(*old(e), *final(e), element_bytes(child)),
{
    let h: [u8; 10] = /* hlinkClick */ [104u8, 108u8, 105u8, 110u8, 107u8, 67u8, 108u8, 105u8, 99u8, 107u8];
    assert(h@ =~= /* hlinkClick */ seq![104u8, 108u8, 105u8, 110u8, 107u8, 67u8, 108u8, 105u8, 99u8, 107u8]);
    drop_children_named(e, h.as_slice(), h.as_slice(), h.as_slice());
    if e.self_closing {
        e.self_closing = false;
        e.dirty = true;
    }
    let ghost before = e.children@;
    e.children.push(Node::Element(child));
    assert(e.children@.drop_last() =~= before);
}

impl SlideDom {
    /// Set what clicking drawable `shape_idx` does: the `hlinkClick` children
    /// of its first `cNvPr` are replaced by one for `action`, appended. Fails,
    /// changing nothing, when there is no such shape or it has no `cNvPr`.
    pub fn set_shape_click_action(&mut self, shape_idx: usize, action: &ClickAction) -> (r: Result<(), OxmlError>)
        ensures
            r is Ok <==> shape_cnvpr_path(old(self).document(), shape_idx as int) is Some,
            r is Err ==> final(self).document() == old(self).document(),
            r is Ok ==> {
                let p = shape_cnvpr_path(old(self).document(), shape_idx as int).unwrap();
                exists|new_c: Element| {
                    &&& #[trigger] doc_replaced(old(self).document(), final(self).document(), p, new_c)
                    &&& link_appended(doc_at(old(self).document(), p), new_c, click_bytes(*action))
                }
            },
    {
        let mut p = match find_tree_child_path(&self.doc, 3, shape_idx) {
            Some(p) => p,
            None => return Err(OxmlError::Parse(message("no shape at index ", shape_idx, ""))),
        };
        let root = self.doc.root().unwrap();
        assert(p@.skip(0) =~= p@);
        let sp = element_at(root, &p, 0);
        let cn: [u8; 5] = /* cNvPr */ [99u8, 78u8, 118u8, 80u8, 114u8];
        assert(cn@ =~= /* cNvPr */ seq![99u8, 78u8, 118u8, 80u8, 114u8]);
        let mut q = match sp.find_descendant_path(cn.as_slice()) {
            Some(q) => q,
            None => return Err(OxmlError::Parse(message("shape at index ", shape_idx, " has no cNvPr element"))),
        };
        proof {
            lemma_desc_path(*sp, /* cNvPr */ seq![99u8, 78u8, 118u8, 80u8, 114u8]);
            lemma_at_path_concat(*root, p@, q@);
        }
        let ghost pv = p@;
        let ghost qv = q@;
        p.append(&mut q);
        assert(p@ =~= pv + qv);
        let link = click_element(action);
        let ghost old_c = doc_at(self.doc, p@);
        let c = self.doc.element_at_mut(&p).unwrap();
        append_link(c, link);
        let ghost new_c = *c;
        proof {
            assert(self.document() == self.doc);
            assert(old(self).document() == old(self).doc);
            let cp = shape_cnvpr_path(old(self).document(), shape_idx as int).unwrap();
            assert(cp == p@);
            assert(old_c == doc_at(old(self).document(), cp));
            assert(doc_replaced(old(self).document(), self.document(), cp, new_c));
            assert(link_appended(doc_at(old(self).document(), cp), new_c, click_bytes(*action)));
        }
        Ok(())
    }
}

// ─── Run hyperlinks ─────────────────────────────────────────────────────────

/// Index of a properties child `local` of `p` (its first), or -1.
pub open spec fn prop_index(p: Element, local: Seq<u8>) -> int {
    first_named_index(p.children@, local)
}

/// Where the properties child `local` is once it is ensured: where it was,
/// or first.
pub open spec fn prop_slot(p: Element, local: Seq<u8>) -> int {
    if prop_index(p, local) >= 0 {
        prop_index(p, local)
    } else {
        0
    }
}

/// `new` is `old` whose properties child `local` was replaced (or, when it
/// had none, one was put first); nothing else changed.
pub open spec fn prop_replaced(old: Element, new: Element, local: Seq<u8>) -> bool {
    let i = prop_slot(old, local);
    &&& same_tags(old, new)
    &&& new.children@.len() > i
    &&& new.children@[i] is Element
    &&& new.children@ == if prop_index(old, local) >= 0 {
        old.children@.update(i, new.children@[i])
    } else {
        old.children@.insert(0, new.children@[0])
    }
}

/// The properties child `local` of `new` after the edit.
pub open spec fn prop_after(old: Element, new: Element, local: Seq<u8>) -> Element {
    new.children@[prop_slot(old, local)]->Element_0
}

/// The properties child `local` of `old` (a fresh self-closing `qname` when
/// there is none), as (name, attributes, children, self-closing, dirty,
/// original start tag, original end tag).
pub open spec fn prop_base(old: Element, local: Seq<u8>, qname: Seq<u8>) -> (
    Seq<u8>,
    Seq<(Seq<u8>, Seq<u8>)>,
    Seq<Node>,
    bool,
    bool,
    Seq<u8>,
    Seq<u8>,
) {
    if prop_index(old, local) >= 0 {
        let b = old.children@[prop_index(old, local)]->Element_0;
        (b.name@, b.attrs_v(), b.children@, b.self_closing, b.dirty, b.raw_start@, b.raw_end@)
    } else {
        (qname, Seq::empty(), Seq::empty(), true, true, Seq::empty(), Seq::empty())
    }
}

/// Mutable access to the properties child `local` of `parent`, putting a
/// fresh self-closing `qname` first when it has none.
pub(crate) fn prop_mut<'a>(parent: &'a mut Element, local: &[u8], qname: &[u8]) -> (r: &'a mut Element)
    requires
        local_of(qname@) == local@,
    ensures
        prop_replaced(*old(parent), *final(parent), local@),
        prop_after(*old(parent), *final(parent), local@) == *final(r),
        ({
            let b = prop_base(*old(parent), local@, qname@);
            &&& r.name@ == b.0
            &&& r.attrs_v() == b.1
            &&& r.children@ == b.2
            &&& r.self_closing == b.3
            &&& r.dirty == b.4
            &&& r.raw_start@ == b.5
            &&& r.raw_end@ == b.6
        }),
        r.local() == local@,
{
    proof { lemma_first_named_index(parent.children@, local@); }
    match first_named_position(&parent.children, local) {
        Some(i) => node_element_mut(&mut parent.children, i).unwrap(),
        None => {
            let mut e = new_element(qname);
            e.self_closing = true;
            proof {
                assert(e.attrs_v() =~= Seq::<(Seq<u8>, Seq<u8>)>::empty());
                assert(e.children@ =~= Seq::<Node>::empty());
                assert(e.raw_start@ =~= Seq::<u8>::empty());
                assert(e.raw_end@ =~= Seq::<u8>::empty());
                lemma_insert_update(parent.children@);
            }
            parent.children.insert(0, Node::Element(e));
            node_element_mut(&mut parent.children, 0).unwrap()
        },
    }
}

/// The bytes of a run hyperlink.
pub open spec fn hlink_bytes(r_id: Seq<char>) -> Seq<u8> {
    /* <a:hlinkClick r:id=\" */ seq![60u8, 97u8, 58u8, 104u8, 108u8, 105u8, 110u8, 107u8, 67u8, 108u8, 105u8, 99u8, 107u8, 32u8, 114u8, 58u8, 105u8, 100u8, 61u8, 34u8] + encode_utf8(r_id) + /* \"/> */ seq![34u8, 47u8, 62u8]
}

/// `new` is run `old` whose properties (a fresh `a:rPr` put first when it
/// has none) lost their `hlinkClick` children and got a hyperlink to
/// relationship `r_id`, in schema order; the properties element is then
/// written with an open and a close tag.
pub open spec fn run_link_set(old: Element, new: Element, r_id: Seq<char>) -> bool {
    let b = prop_base(old, /* rPr */ seq![114u8, 80u8, 114u8], /* a:rPr */ seq![97u8, 58u8, 114u8, 80u8, 114u8]);
    let q = prop_after(old, new, /* rPr */ seq![114u8, 80u8, 114u8]);
    let kept = without_names(b.2, /* hlinkClick */ seq![104u8, 108u8, 105u8, 110u8, 107u8, 67u8, 108u8, 105u8, 99u8, 107u8], /* hlinkClick */ seq![104u8, 108u8, 105u8, 110u8, 107u8, 67u8, 108u8, 105u8, 99u8, 107u8], /* hlinkClick */ seq![104u8, 108u8, 105u8, 110u8, 107u8, 67u8, 108u8, 105u8, 99u8, 107u8]);
    &&& prop_replaced(old, new, /* rPr */ seq![114u8, 80u8, 114u8])
    &&& q.name@ == b.0
    &&& q.attrs_v() == b.1
    &&& q.raw_start@ == b.5
    &&& q.raw_end@ == b.6
    &&& !q.self_closing
    &&& q.dirty == (b.4 || b.3)
    &&& exists|n: Node| {
        &&& #[trigger] node_bytes(n) == hlink_bytes(r_id)
        &&& n matches Node::Element(ne) && ne.local() == /* hlinkClick */ seq![104u8, 108u8, 105u8, 110u8, 107u8, 67u8, 108u8, 105u8, 99u8, 107u8]
        &&& q.children@ == kept.insert(ordered_position(local_of(b.0), kept, n), n)
    }
}

/// Path to run `run` (an `a:r`, not a line break) of paragraph `para` of
/// autoshape `idx`.
pub open spec fn run_path(d: Document, idx: int, para: int, run: int) -> Option<Seq<usize>> {
    match paragraph_path(d, idx, para) {
        Some(pp) => {
            let ns = doc_at(d, pp).children@;
            let i = nth_kind(ns, kind_run(), run);
            if i >= 0 && is_named(ns[i], /* r */ seq![114u8]) {
                Some(pp.push(i as usize))
            } else {
                None
            }
        },
        None => None,
    }
}

fn set_run_link(run: &mut Element, r_id: &str)
    ensures
        run_link_set(*old(run), *final(run), r_id@),
{
    let rl: [u8; 3] = /* rPr */ [114u8, 80u8, 114u8];
    let rq: [u8; 5] = /* a:rPr */ [97u8, 58u8, 114u8, 80u8, 114u8];
    let h: [u8; 10] = /* hlinkClick */ [104u8, 108u8, 105u8, 110u8, 107u8, 67u8, 108u8, 105u8, 99u8, 107u8];
    let hq: [u8; 12] = /* a:hlinkClick */ [97u8, 58u8, 104u8, 108u8, 105u8, 110u8, 107u8, 67u8, 108u8, 105u8, 99u8, 107u8];
    let k: [u8; 4] = /* r:id */ [114u8, 58u8, 105u8, 100u8];
    assert(rl@ =~= /* rPr */ seq![114u8, 80u8, 114u8]);
    assert(rq@ =~= /* a:rPr */ seq![97u8, 58u8, 114u8, 80u8, 114u8]);
    assert(h@ =~= /* hlinkClick */ seq![104u8, 108u8, 105u8, 110u8, 107u8, 67u8, 108u8, 105u8, 99u8, 107u8]);
    assert(hq@ =~= /* a:hlinkClick */ seq![97u8, 58u8, 104u8, 108u8, 105u8, 110u8, 107u8, 67u8, 108u8, 105u8, 99u8, 107u8]);
    assert(k@ =~= /* r:id */ seq![114u8, 58u8, 105u8, 100u8]);
    proof {
        assert(/* a:rPr */ seq![97u8, 58u8, 114u8, 80u8, 114u8] =~= seq![97u8, 58u8] + /* rPr */ seq![114u8, 80u8, 114u8]);
        crate::xml::lemma_local_of_prefixed(97u8, /* rPr */ seq![114u8, 80u8, 114u8]);
        assert(/* a:hlinkClick */ seq![97u8, 58u8, 104u8, 108u8, 105u8, 110u8, 107u8, 67u8, 108u8, 105u8, 99u8, 107u8] =~= seq![97u8, 58u8] + /* hlinkClick */ seq![104u8, 108u8, 105u8, 110u8, 107u8, 67u8, 108u8, 105u8, 99u8, 107u8]);
        crate::xml::lemma_local_of_prefixed(97u8, /* hlinkClick */ seq![104u8, 108u8, 105u8, 110u8, 107u8, 67u8, 108u8, 105u8, 99u8, 107u8]);
    }
    let link = super::fresh_leaf(hq.as_slice(), k.as_slice(), r_id.as_bytes());
    let ghost n = Node::Element(link);
    let q = prop_mut(run, rl.as_slice(), rq.as_slice());
    drop_children_named(q, h.as_slice(), h.as_slice(), h.as_slice());
    if q.self_closing {
        q.self_closing = false;
        q.dirty = true;
    }
    proof { assert(local_of(q.name@) == q.local()); }
    q.insert_child_ordered(Node::Element(link));
    proof {
        assert(node_bytes(n) =~= hlink_bytes(r_id@));
    }
}

impl SlideDom {
    /// Link run `run_idx` (counting runs and line breaks) of paragraph
    /// `para_idx` of autoshape `shape_idx` to relationship `r_id`: the run's
    /// `a:rPr` (created first when absent) loses any `hlinkClick` and gets one
    /// in schema order. `url` is what the relationship points to; only `r_id`
    /// is written. Fails, changing nothing, when there is no such paragraph or
    /// run, or it is a line break.
    pub fn set_run_hyperlink(&mut self, shape_idx: usize, para_idx: usize, run_idx: usize, url: &str, r_id: &str) -> (r: Result<(), OxmlError>)
        ensures
            r is Ok <==> run_path(old(self).document(), shape_idx as int, para_idx as int, run_idx as int) is Some,
            r is Err ==> final(self).document() == old(self).document(),
            r is Ok ==> {
                let p = run_path(old(self).document(), shape_idx as int, para_idx as int, run_idx as int).unwrap();
                exists|new_r: Element| {
                    &&& #[trigger] doc_replaced(old(self).document(), final(self).document(), p, new_r)
                    &&& run_link_set(doc_at(old(self).document(), p), new_r, r_id@)
                }
            },
    {
        let mut p = match find_paragraph_path(&self.doc, shape_idx, para_idx) {
            Ok(p) => p,
            Err(e) => return Err(e),
        };
        let root = self.doc.root().unwrap();
        assert(p@.skip(0) =~= p@);
        let para = element_at(root, &p, 0);
        let pos = match nth_position(&para.children, 1, run_idx) {
            Some(i) => i,
            None => {
                let c = super::count_of_kind(&para.children, 1);
                return Err(OxmlError::Parse(message2("run index ", run_idx, " out of range (have ", c, " runs/breaks)")));
            },
        };
        let rn: [u8; 1] = /* r */ [114u8];
        assert(rn@ =~= /* r */ seq![114u8]);
        let is_run = match &para.children[pos] {
            Node::Element(e) => e.is_named(rn.as_slice()),
            Node::Raw(_) => false,
        };
        if !is_run {
            return Err(OxmlError::Parse(message("element at run index ", run_idx, " is not an <a:r> run")));
        }
        proof { lemma_path_push(*root, p@, pos); }
        p.push(pos);
        let ghost old_r = doc_at(self.doc, p@);
        let run = self.doc.element_at_mut(&p).unwrap();
        set_run_link(run, r_id);
        let ghost new_r = *run;
        proof {
            assert(self.document() == self.doc);
            assert(old(self).document() == old(self).doc);
            let rp = run_path(old(self).document(), shape_idx as int, para_idx as int, run_idx as int).unwrap();
            assert(rp == p@);
            assert(old_r == doc_at(old(self).document(), rp));
            assert(doc_replaced(old(self).document(), self.document(), rp, new_r));
            assert(run_link_set(doc_at(old(self).document(), rp), new_r, r_id@));
        }
        Ok(())
    }
}

// ─── Transform ──────────────────────────────────────────────────────────────

/// Whether `e` is a fresh self-closing element named `name`, with no
/// attributes or children.
pub open spec fn is_fresh_leaf(e: Element, name: Seq<u8>) -> bool {
    &&& e.name@ == name
    &&& e.attrs_v().len() == 0
    &&& e.children@.len() == 0
    &&& e.self_closing
    &&& e.dirty
    &&& e.raw_start@.len() == 0
    &&& e.raw_end@.len() == 0
}

/// `new_sp` is shape `old_sp` whose properties (its first `spPr` child, or a
/// fresh self-closing `p:spPr` appended when it has none) went from `s0` to
/// `s1`; nothing else changed.
pub open spec fn sppr_ensured(old_sp: Element, new_sp: Element, s0: Element, s1: Element) -> bool {
    let i = first_named_index(old_sp.children@, /* spPr */ seq![115u8, 112u8, 80u8, 114u8]);
    &&& same_tags(old_sp, new_sp)
    &&& if i >= 0 {
        &&& s0 == old_sp.children@[i]->Element_0
        &&& new_sp.children@ == old_sp.children@.update(i, Node::Element(s1))
    } else {
        &&& is_fresh_leaf(s0, /* p:spPr */ seq![112u8, 58u8, 115u8, 112u8, 80u8, 114u8])
        &&& new_sp.children@ == old_sp.children@.push(Node::Element(s1))
    }
}

/// `s1` is shape properties `s0` whose transform (its first `xfrm` child, or
/// a fresh self-closing `a:xfrm` put in schema order when it has none) went
/// from `x0` to `x1`; nothing else changed.
pub open spec fn xfrm_ensured(s0: Element, s1: Element, x0: Element, x1: Element) -> bool {
    let j = first_named_index(s0.children@, /* xfrm */ seq![120u8, 102u8, 114u8, 109u8]);
    if j >= 0 {
        &&& x0 == s0.children@[j]->Element_0
        &&& same_tags(s0, s1)
        &&& s1.children@ == s0.children@.update(j, Node::Element(x1))
    } else {
        &&& is_fresh_leaf(x0, /* a:xfrm */ seq![97u8, 58u8, 120u8, 102u8, 114u8, 109u8])
        &&& s1.name == s0.name
        &&& s1.raw_start == s0.raw_start
        &&& s1.raw_end == s0.raw_end
        &&& s1.attrs == s0.attrs
        &&& !s1.self_closing
        &&& s1.dirty == (s0.dirty || s0.self_closing)
        &&& s1.children@ == s0.children@.insert(
            ordered_position(s0.local(), s0.children@, Node::Element(x0)),
            Node::Element(x1),
        )
    }
}

/// The transform of a shape went from `x0` to `x1`, through its properties
/// going from `s0` to `s1`.
pub open spec fn shape_xfrm_edit(old_sp: Element, new_sp: Element, s0: Element, s1: Element, x0: Element, x1: Element) -> bool {
    sppr_ensured(old_sp, new_sp, s0, s1) && xfrm_ensured(s0, s1, x0, x1)
}

/// `n` is `o` with attributes `k1`, `k2` set in turn; nothing else changed
/// but the start tag being marked for regeneration.
pub open spec fn pair_set(o: Element, n: Element, k1: Seq<u8>, v1: Seq<u8>, k2: Seq<u8>, v2: Seq<u8>) -> bool {
    &&& n.attrs_v() == set_attr_spec(set_attr_spec(o.attrs_v(), k1, v1), k2, v2)
    &&& n.dirty
    &&& n.name == o.name
    &&& n.raw_start == o.raw_start
    &&& n.raw_end == o.raw_end
    &&& n.self_closing == o.self_closing
    &&& n.children == o.children
}

/// Whether `e` is a fresh self-closing `name` holding exactly the attributes
/// `k1`, `k2`.
pub open spec fn fresh_pair(e: Element, name: Seq<u8>, k1: Seq<u8>, v1: Seq<u8>, k2: Seq<u8>, v2: Seq<u8>) -> bool {
    &&& e.name@ == name
    &&& e.attrs_v() == seq![(k1, v1), (k2, v2)]
    &&& e.children@.len() == 0
    &&& e.self_closing
    &&& e.dirty
    &&& e.raw_start@.len() == 0
    &&& e.raw_end@.len() == 0
}

/// The decimal text of a coordinate.
pub open spec fn coord_text(v: i64) -> Seq<u8> {
    encode_utf8(dec_int(v as int))
}

/// `n` is transform `o` (opened when self-closing) whose first child
/// `local` got `k1`, `k2`, or, when it has none, with a fresh `qname`
/// holding them inserted at `pos`.
pub open spec fn pair_child_set(o: Element, n: Element, local: Seq<u8>, qname: Seq<u8>, pos: int, k1: Seq<u8>, v1: Seq<u8>, k2: Seq<u8>, v2: Seq<u8>) -> bool {
    let i = first_named_index(o.children@, local);
    &&& n.name == o.name
    &&& n.raw_start == o.raw_start
    &&& n.raw_end == o.raw_end
    &&& n.attrs == o.attrs
    &&& !n.self_closing
    &&& n.dirty == (o.dirty || o.self_closing)
    &&& if i >= 0 {
        &&& n.children@.len() == o.children@.len()
        &&& n.children@[i] is Element
        &&& n.children@ == o.children@.update(i, n.children@[i])
        &&& pair_set(o.children@[i]->Element_0, n.children@[i]->Element_0, k1, v1, k2, v2)
    } else {
        &&& 0 <= pos <= o.children@.len()
        &&& n.children@.len() == o.children@.len() + 1
        &&& n.children@[pos] is Element
        &&& n.children@ == o.children@.insert(pos, n.children@[pos])
        &&& fresh_pair(n.children@[pos]->Element_0, qname, k1, v1, k2, v2)
    }
}

/// The offset of transform `o` set to (`x`, `y`): an `a:off` put first when
/// it has none.
pub open spec fn off_set(o: Element, n: Element, x: i64, y: i64) -> bool {
    pair_child_set(o, n, /* off */ seq![111u8, 102u8, 102u8], /* a:off */ seq![97u8, 58u8, 111u8, 102u8, 102u8], 0, /* x */ seq![120u8], coord_text(x), /* y */ seq![121u8], coord_text(y))
}

/// Where a fresh extent goes in a transform: right after its first offset,
/// or first.
pub open spec fn ext_slot(o: Element) -> int {
    let f = first_named_index(o.children@, /* off */ seq![111u8, 102u8, 102u8]);
    if f >= 0 {
        f + 1
    } else {
        0
    }
}

/// The extent of transform `o` set to (`cx`, `cy`).
pub open spec fn ext_set(o: Element, n: Element, cx: i64, cy: i64) -> bool {
    pair_child_set(o, n, /* ext */ seq![101u8, 120u8, 116u8], /* a:ext */ seq![97u8, 58u8, 101u8, 120u8, 116u8], ext_slot(o), /* cx */ seq![99u8, 120u8], coord_text(cx), /* cy */ seq![99u8, 121u8], coord_text(cy))
}

/// Offset, extent and optional rotation set in turn.
pub open spec fn geometry_set(o: Element, n: Element, x: i64, y: i64, cx: i64, cy: i64, rot: Option<i64>) -> bool {
    exists|a: Element, b: Element| {
        &&& #[trigger] off_set(o, a, x, y)
        &&& #[trigger] ext_set(a, b, cx, cy)
        &&& match rot {
            Some(r) => super::table::attr_set(b, n, /* rot */ seq![114u8, 111u8, 116u8], coord_text(r)),
            None => n == b,
        }
    }
}

/// `new` is `old` after the transform of shape `sp` went through `edit`
/// (0 offset, 1 extent, 2 rotation, 3 all three) with the given values.
pub open spec fn xfrm_step(edit: u8, x0: Element, x1: Element, a: i64, b: i64, c: i64, d: i64, rot: Option<i64>) -> bool {
    if edit == 0 {
        off_set(x0, x1, a, b)
    } else if edit == 1 {
        ext_set(x0, x1, c, d)
    } else if edit == 2 {
        rot matches Some(r) && super::table::attr_set(x0, x1, /* rot */ seq![114u8, 111u8, 116u8], coord_text(r))
    } else {
        geometry_set(x0, x1, a, b, c, d, rot)
    }
}

/// `new` is `old` whose drawable `idx` had its transform edited as `edit`
/// says; nothing else changed.
pub open spec fn shape_xfrm_changed(old: Document, new: Document, idx: int, edit: u8, a: i64, b: i64, c: i64, d: i64, rot: Option<i64>) -> bool {
    let sp = tree_child_path(old, kind_drawable(), idx).unwrap();
    exists|new_sp: Element, s0: Element, s1: Element, x0: Element, x1: Element| {
        &&& #[trigger] doc_replaced(old, new, sp, new_sp)
        &&& #[trigger] shape_xfrm_edit(doc_at(old, sp), new_sp, s0, s1, x0, x1)
        &&& xfrm_step(edit, x0, x1, a, b, c, d, rot)
    }
}

/// When no node of `ns` is named `local`, a node so named inserted at `k`
/// is the first of them.
proof fn lemma_first_named_insert(ns: Seq<Node>, local: Seq<u8>, k: int, x: Node)
    requires
        0 <= k <= ns.len(),
        forall|j: int| 0 <= j < ns.len() ==> !is_named(ns[j], local),
        is_named(x, local),
    ensures
        first_named_index(ns.insert(k, x), local) == k,
    decreases k,
{
    if k > 0 {
        lemma_first_named_insert(ns.drop_first(), local, k - 1, x);
        assert(ns.insert(k, x).drop_first() =~= ns.drop_first().insert(k - 1, x));
        assert(ns.insert(k, x)[0] == ns[0]);
    } else {
        assert(ns.insert(0, x)[0] == x);
    }
}

pub(crate) fn ensure_sppr(sp: &mut Element) -> (r: &mut Element)
    ensures
        sppr_ensured(*old(sp), *final(sp), *r, *final(r)),
{
    let n: [u8; 4] = /* spPr */ [115u8, 112u8, 80u8, 114u8];
    assert(n@ =~= /* spPr */ seq![115u8, 112u8, 80u8, 114u8]);
    proof { lemma_first_named_index(sp.children@, /* spPr */ seq![115u8, 112u8, 80u8, 114u8]); }
    match first_named_position(&sp.children, n.as_slice()) {
        Some(i) => node_element_mut(&mut sp.children, i).unwrap(),
        None => {
            let q: [u8; 6] = /* p:spPr */ [112u8, 58u8, 115u8, 112u8, 80u8, 114u8];
            assert(q@ =~= /* p:spPr */ seq![112u8, 58u8, 115u8, 112u8, 80u8, 114u8]);
            let mut e = new_element(q.as_slice());
            e.self_closing = true;
            let ghost before = sp.children@;
            sp.children.push(Node::Element(e));
            let last = sp.children.len() - 1;
            proof {
                assert forall|f: Node| #[trigger] before.push(e_node(e)).update(last as int, f) == before.push(f) by {
                    assert(before.push(e_node(e)).update(last as int, f) =~= before.push(f));
                }
            }
            node_element_mut(&mut sp.children, last).unwrap()
        },
    }
}

/// Where an ordered insertion puts a node lies within the children.
proof fn lemma_ordered_bound(pl: Seq<u8>, ns: Seq<Node>, n: Node)
    ensures
        0 <= ordered_position(pl, ns, n) <= ns.len(),
{
    match n {
        Node::Element(e) => match crate::xml::order_table(pl) {
            Some(t) => crate::xml::lemma_last_le_bound(ns, t, crate::xml::rank_in(e.local(), t)),
            None => {},
        },
        Node::Raw(_) => {},
    }
}

spec fn e_node(e: Element) -> Node {
    Node::Element(e)
}

fn ensure_xfrm_in(sppr: &mut Element) -> (r: &mut Element)
    ensures
        xfrm_ensured(*old(sppr), *final(sppr), *r, *final(r)),
{
    let n: [u8; 4] = /* xfrm */ [120u8, 102u8, 114u8, 109u8];
    assert(n@ =~= /* xfrm */ seq![120u8, 102u8, 114u8, 109u8]);
    proof { lemma_first_named_index(sppr.children@, /* xfrm */ seq![120u8, 102u8, 114u8, 109u8]); }
    match first_named_position(&sppr.children, n.as_slice()) {
        Some(j) => node_element_mut(&mut sppr.children, j).unwrap(),
        None => {
            let q: [u8; 6] = /* a:xfrm */ [97u8, 58u8, 120u8, 102u8, 114u8, 109u8];
            assert(q@ =~= /* a:xfrm */ seq![97u8, 58u8, 120u8, 102u8, 114u8, 109u8]);
            let mut e = new_element(q.as_slice());
            e.self_closing = true;
            proof {
                assert(e.attrs_v() =~= Seq::<(Seq<u8>, Seq<u8>)>::empty());
                assert(/* a:xfrm */ seq![97u8, 58u8, 120u8, 102u8, 114u8, 109u8] =~= seq![97u8, 58u8] + /* xfrm */ seq![120u8, 102u8, 114u8, 109u8]);
                crate::xml::lemma_local_of_prefixed(97u8, /* xfrm */ seq![120u8, 102u8, 114u8, 109u8]);
            }
            let ghost before = sppr.children@;
            let ghost k = ordered_position(sppr.local(), before, Node::Element(e));
            sppr.insert_child_ordered(Node::Element(e));
            proof {
                lemma_ordered_bound(sppr.local(), before, Node::Element(e));
                lemma_first_named_insert(before, /* xfrm */ seq![120u8, 102u8, 114u8, 109u8], k, Node::Element(e));
            }
            let j = first_named_position(&sppr.children, n.as_slice()).unwrap();
            proof {
                assert forall|f: Node| #[trigger] before.insert(k, e_node(e)).update(k, f) == before.insert(k, f) by {
                    assert(before.insert(k, e_node(e)).update(k, f) =~= before.insert(k, f));
                }
            }
            node_element_mut(&mut sppr.children, j).unwrap()
        },
    }
}

fn set_pair_child(xf: &mut Element, local: &[u8], qname: &[u8], pos: usize, k1: &[u8], v1: &[u8], k2: &[u8], v2: &[u8])
    requires
        first_named_index(old(xf).children@, local@) < 0 ==> pos <= old(xf).children@.len(),
        k1@ != k2@,
    ensures
        pair_child_set(*old(xf), *final(xf), local@, qname@, pos as int, k1@, v1@, k2@, v2@),
{
    if xf.self_closing {
        xf.self_closing = false;
        xf.dirty = true;
    }
    proof { lemma_first_named_index(xf.children@, local@); }
    match first_named_position(&xf.children, local) {
        Some(i) => {
            let c = node_element_mut(&mut xf.children, i).unwrap();
            c.set_attr(k1, v1);
            c.set_attr(k2, v2);
        },
        None => {
            let mut c = new_element(qname);
            c.self_closing = true;
            proof { assert(c.attrs_v() =~= Seq::<(Seq<u8>, Seq<u8>)>::empty()); }
            c.set_attr(k1, v1);
            proof {
                assert(crate::xml::attr_index(Seq::<(Seq<u8>, Seq<u8>)>::empty(), k1@) == -1);
                assert(c.attrs_v() =~= seq![(k1@, v1@)]);
                assert(crate::xml::attr_index_from(seq![(k1@, v1@)], 1, k2@) == -1);
                assert(crate::xml::attr_index(seq![(k1@, v1@)], k2@) == -1);
            }
            c.set_attr(k2, v2);
            proof {
                assert(c.attrs_v() =~= seq![(k1@, v1@), (k2@, v2@)]);
            }
            let ghost before = xf.children@;
            let ghost node = Node::Element(c);
            xf.children.insert(pos, Node::Element(c));
            assert(xf.children@ == before.insert(pos as int, node));
        },
    }
}

fn set_off(xf: &mut Element, x: i64, y: i64)
    ensures
        off_set(*old(xf), *final(xf), x, y),
{
    let n: [u8; 3] = /* off */ [111u8, 102u8, 102u8];
    let q: [u8; 5] = /* a:off */ [97u8, 58u8, 111u8, 102u8, 102u8];
    let kx: [u8; 1] = /* x */ [120u8];
    let ky: [u8; 1] = /* y */ [121u8];
    assert(n@ =~= /* off */ seq![111u8, 102u8, 102u8]);
    assert(q@ =~= /* a:off */ seq![97u8, 58u8, 111u8, 102u8, 102u8]);
    assert(kx@ =~= /* x */ seq![120u8]);
    assert(ky@ =~= /* y */ seq![121u8]);
    let dx = dec_i64(x);
    let dy = dec_i64(y);
    set_pair_child(xf, n.as_slice(), q.as_slice(), 0, kx.as_slice(), dx.as_str().as_bytes(), ky.as_slice(), dy.as_str().as_bytes());
}

fn set_ext(xf: &mut Element, cx: i64, cy: i64)
    ensures
        ext_set(*old(xf), *final(xf), cx, cy),
{
    let n: [u8; 3] = /* ext */ [101u8, 120u8, 116u8];
    let q: [u8; 5] = /* a:ext */ [97u8, 58u8, 101u8, 120u8, 116u8];
    let o: [u8; 3] = /* off */ [111u8, 102u8, 102u8];
    let kx: [u8; 2] = /* cx */ [99u8, 120u8];
    let ky: [u8; 2] = /* cy */ [99u8, 121u8];
    assert(n@ =~= /* ext */ seq![101u8, 120u8, 116u8]);
    assert(q@ =~= /* a:ext */ seq![97u8, 58u8, 101u8, 120u8, 116u8]);
    assert(o@ =~= /* off */ seq![111u8, 102u8, 102u8]);
    assert(kx@ =~= /* cx */ seq![99u8, 120u8]);
    assert(ky@ =~= /* cy */ seq![99u8, 121u8]);
    proof { lemma_first_named_index(xf.children@, /* off */ seq![111u8, 102u8, 102u8]); }
    let len = xf.children.len();
    let pos = match first_named_position(&xf.children, o.as_slice()) {
        Some(f) => {
            assert(f < len);
            f + 1
        },
        None => 0,
    };
    let dx = dec_i64(cx);
    let dy = dec_i64(cy);
    set_pair_child(xf, n.as_slice(), q.as_slice(), pos, kx.as_slice(), dx.as_str().as_bytes(), ky.as_slice(), dy.as_str().as_bytes());
}

fn set_rot(xf: &mut Element, rot: i64)
    ensures
        super::table::attr_set(*old(xf), *final(xf), /* rot */ seq![114u8, 111u8, 116u8], coord_text(rot)),
{
    let k: [u8; 3] = /* rot */ [114u8, 111u8, 116u8];
    assert(k@ =~= /* rot */ seq![114u8, 111u8, 116u8]);
    let d = dec_i64(rot);
    xf.set_attr(k.as_slice(), d.as_str().as_bytes());
}

/// Apply a transform edit to a transform element.
fn edit_xfrm(xf: &mut Element, edit: u8, a: i64, b: i64, c: i64, d: i64, rot: Option<i64>)
    requires
        edit == 2 ==> rot is Some,
    ensures
        xfrm_step(edit, *old(xf), *final(xf), a, b, c, d, rot),
{
    if edit == 0 {
        set_off(xf, a, b);
    } else if edit == 1 {
        set_ext(xf, c, d);
    } else if edit == 2 {
        set_rot(xf, rot.unwrap());
    } else {
        set_off(xf, a, b);
        let ghost m1 = *xf;
        set_ext(xf, c, d);
        let ghost m2 = *xf;
        match rot {
            Some(r) => set_rot(xf, r),
            None => {},
        }
        proof {
            assert(off_set(*old(xf), m1, a, b));
            assert(ext_set(m1, m2, c, d));
        }
    }
}

impl SlideDom {
    /// Edit the transform of drawable `shape_idx`, ensuring its `spPr` and
    /// `xfrm` first.
    fn edit_shape_xfrm(&mut self, shape_idx: usize, edit: u8, a: i64, b: i64, c: i64, d: i64, rot: Option<i64>) -> (r: Result<(), OxmlError>)
        requires
            edit == 2 ==> rot is Some,
        ensures
            r is Ok <==> tree_child_path(old(self).document(), kind_drawable(), shape_idx as int) is Some,
            r is Err ==> final(self).document() == old(self).document(),
            r is Ok ==> shape_xfrm_changed(old(self).document(), final(self).document(), shape_idx as int, edit, a, b, c, d, rot),
    {
        let p = match find_tree_child_path(&self.doc, 3, shape_idx) {
            Some(p) => p,
            None => return Err(OxmlError::Parse(message("no shape at index ", shape_idx, ""))),
        };
        let ghost old_sp = doc_at(self.doc, p@);
        let sp = self.doc.element_at_mut(&p).unwrap();
        let sppr = ensure_sppr(sp);
        let ghost s0 = *sppr;
        let xf = ensure_xfrm_in(sppr);
        let ghost x0 = *xf;
        edit_xfrm(xf, edit, a, b, c, d, rot);
        let ghost x1 = *xf;
        let ghost s1 = *sppr;
        let ghost new_sp = *sp;
        proof {
            assert(self.document() == self.doc);
            assert(old(self).document() == old(self).doc);
            let spp = tree_child_path(old(self).document(), kind_drawable(), shape_idx as int).unwrap();
            assert(spp == p@);
            assert(old_sp == doc_at(old(self).document(), spp));
            assert(doc_replaced(old(self).document(), self.document(), spp, new_sp));
            assert(shape_xfrm_edit(doc_at(old(self).document(), spp), new_sp, s0, s1, x0, x1));
            assert(xfrm_step(edit, x0, x1, a, b, c, d, rot));
        }
        Ok(())
    }

    /// Set the position (`a:off`) of drawable `shape_idx`, creating its
    /// `spPr` and `xfrm` when absent. Fails, changing nothing, when there is
    /// no such shape.
    pub fn set_shape_position(&mut self, shape_idx: usize, x: i64, y: i64) -> (r: Result<(), OxmlError>)
        ensures
            r is Ok <==> tree_child_path(old(self).document(), kind_drawable(), shape_idx as int) is Some,
            r is Err ==> final(self).document() == old(self).document(),
            r is Ok ==> shape_xfrm_changed(old(self).document(), final(self).document(), shape_idx as int, 0, x, y, 0, 0, None),
    {
        self.edit_shape_xfrm(shape_idx, 0, x, y, 0, 0, None)
    }

    /// Set the size (`a:ext`) of drawable `shape_idx`, creating its `spPr`
    /// and `xfrm` when absent. Fails, changing nothing, when there is no such
    /// shape.
    pub fn set_shape_size(&mut self, shape_idx: usize, cx: i64, cy: i64) -> (r: Result<(), OxmlError>)
        ensures
            r is Ok <==> tree_child_path(old(self).document(), kind_drawable(), shape_idx as int) is Some,
            r is Err ==> final(self).document() == old(self).document(),
            r is Ok ==> shape_xfrm_changed(old(self).document(), final(self).document(), shape_idx as int, 1, 0, 0, cx, cy, None),
    {
        self.edit_shape_xfrm(shape_idx, 1, 0, 0, cx, cy, None)
    }

    /// Set the rotation (`rot` of `a:xfrm`, in 60,000ths of a degree) of
    /// drawable `shape_idx`, creating its `spPr` and `xfrm` when absent.
    /// Fails, changing nothing, when there is no such shape.
    pub fn set_shape_rotation(&mut self, shape_idx: usize, rot: i64) -> (r: Result<(), OxmlError>)
        ensures
            r is Ok <==> tree_child_path(old(self).document(), kind_drawable(), shape_idx as int) is Some,
            r is Err ==> final(self).document() == old(self).document(),
            r is Ok ==> shape_xfrm_changed(old(self).document(), final(self).document(), shape_idx as int, 2, 0, 0, 0, 0, Some(rot)),
    {
        self.edit_shape_xfrm(shape_idx, 2, 0, 0, 0, 0, Some(rot))
    }

    /// Set position, size and, when given, rotation of drawable `shape_idx`
    /// in one call, creating its `spPr` and `xfrm` when absent. Fails,
    /// changing nothing, when there is no such shape.
    pub fn set_shape_geometry(&mut self, shape_idx: usize, x: i64, y: i64, cx: i64, cy: i64, rot: Option<i64>) -> (r: Result<(), OxmlError>)
        ensures
            r is Ok <==> tree_child_path(old(self).document(), kind_drawable(), shape_idx as int) is Some,
            r is Err ==> final(self).document() == old(self).document(),
            r is Ok ==> shape_xfrm_changed(old(self).document(), final(self).document(), shape_idx as int, 3, x, y, cx, cy, rot),
    {
        self.edit_shape_xfrm(shape_idx, 3, x, y, cx, cy, rot)
    }
}

// ─── Outline ────────────────────────────────────────────────────────────────

/// The bytes of a color: `a:srgbClr` holding the hex digits without leading
/// `#`, uppercased, or `a:schemeClr` holding the theme color's name.
pub open spec fn color_bytes(c: ColorSpec) -> Seq<u8> {
    match c {
        ColorSpec::Rgb(h) => /* <a:srgbClr val=\" */ seq![60u8, 97u8, 58u8, 115u8, 114u8, 103u8, 98u8, 67u8, 108u8, 114u8, 32u8, 118u8, 97u8, 108u8, 61u8, 34u8] + encode_utf8(crate::text::uppercase_of(crate::text::trim_hashes(h@)))
            + /* \"/> */ seq![34u8, 47u8, 62u8],
        ColorSpec::Theme(sc) => /* <a:schemeClr val=\" */ seq![60u8, 97u8, 58u8, 115u8, 99u8, 104u8, 101u8, 109u8, 101u8, 67u8, 108u8, 114u8, 32u8, 118u8, 97u8, 108u8, 61u8, 34u8] + encode_utf8(crate::scheme_color::scheme_val(sc)) + /* \"/> */ seq![34u8, 47u8, 62u8],
    }
}

/// The bytes of an outline (`a:ln`).
pub open spec fn line_bytes(l: LineSpec) -> Seq<u8> {
    match l {
        LineSpec::NoLine => /* <a:ln><a:noFill/></a:ln> */ seq![60u8, 97u8, 58u8, 108u8, 110u8, 62u8, 60u8, 97u8, 58u8, 110u8, 111u8, 70u8, 105u8, 108u8, 108u8, 47u8, 62u8, 60u8, 47u8, 97u8, 58u8, 108u8, 110u8, 62u8],
        LineSpec::Styled { color, width_emu, dash } => /* <a:ln w=\" */ seq![60u8, 97u8, 58u8, 108u8, 110u8, 32u8, 119u8, 61u8, 34u8] + coord_text(width_emu) + /* \"><a:solidFill> */ seq![34u8, 62u8, 60u8, 97u8, 58u8, 115u8, 111u8, 108u8, 105u8, 100u8, 70u8, 105u8, 108u8, 108u8, 62u8]
            + color_bytes(color) + /* </a:solidFill> */ seq![60u8, 47u8, 97u8, 58u8, 115u8, 111u8, 108u8, 105u8, 100u8, 70u8, 105u8, 108u8, 108u8, 62u8] + match dash {
            Some(d) => /* <a:prstDash val=\" */ seq![60u8, 97u8, 58u8, 112u8, 114u8, 115u8, 116u8, 68u8, 97u8, 115u8, 104u8, 32u8, 118u8, 97u8, 108u8, 61u8, 34u8] + encode_utf8(d@) + /* \"/> */ seq![34u8, 47u8, 62u8],
            None => Seq::empty(),
        } + /* </a:ln> */ seq![60u8, 47u8, 97u8, 58u8, 108u8, 110u8, 62u8],
    }
}

/// Whether the markup of an outline's color can be read back: an RGB value
/// holds no `"`.
pub open spec fn line_color_ok(l: LineSpec) -> bool {
    match l {
        LineSpec::Styled { color: ColorSpec::Rgb(h), .. } => !h@.contains('"'),
        _ => true,
    }
}

/// `s1` is shape properties `s0` without their outlines and with an outline
/// written as `bytes` inserted in schema order; it is then written with an
/// open and a close tag.
pub open spec fn line_set(s0: Element, s1: Element, bytes: Seq<u8>) -> bool {
    let kept = without_names(s0.children@, /* ln */ seq![108u8, 110u8], /* ln */ seq![108u8, 110u8], /* ln */ seq![108u8, 110u8]);
    &&& s1.name == s0.name
    &&& s1.raw_start == s0.raw_start
    &&& s1.raw_end == s0.raw_end
    &&& s1.attrs == s0.attrs
    &&& !s1.self_closing
    &&& s1.dirty == (s0.dirty || s0.self_closing)
    &&& exists|n: Node| {
        &&& #[trigger] node_bytes(n) == bytes
        &&& n matches Node::Element(ne) && ne.local() == /* ln */ seq![108u8, 110u8]
        &&& s1.children@ == kept.insert(ordered_position(s0.local(), kept, n), n)
    }
}

pub(crate) fn color_element(c: &ColorSpec) -> (e: Element)
    ensures
        element_bytes(e) == color_bytes(*c),
{
    let k: [u8; 3] = /* val */ [118u8, 97u8, 108u8];
    assert(k@ =~= /* val */ seq![118u8, 97u8, 108u8]);
    match c {
        ColorSpec::Rgb(h) => {
            let n: [u8; 9] = /* a:srgbClr */ [97u8, 58u8, 115u8, 114u8, 103u8, 98u8, 67u8, 108u8, 114u8];
            assert(n@ =~= /* a:srgbClr */ seq![97u8, 58u8, 115u8, 114u8, 103u8, 98u8, 67u8, 108u8, 114u8]);
            let t = crate::text::trim_leading_hashes(h.as_str());
            let u = crate::text::to_uppercase(t.as_str());
            let e = super::fresh_leaf(n.as_slice(), k.as_slice(), u.as_str().as_bytes());
            assert(element_bytes(e) =~= color_bytes(*c));
            e
        },
        ColorSpec::Theme(sc) => {
            let n: [u8; 11] = /* a:schemeClr */ [97u8, 58u8, 115u8, 99u8, 104u8, 101u8, 109u8, 101u8, 67u8, 108u8, 114u8];
            assert(n@ =~= /* a:schemeClr */ seq![97u8, 58u8, 115u8, 99u8, 104u8, 101u8, 109u8, 101u8, 67u8, 108u8, 114u8]);
            let v = sc.val();
            let e = super::fresh_leaf(n.as_slice(), k.as_slice(), v.as_bytes());
            assert(element_bytes(e) =~= color_bytes(*c));
            e
        },
    }
}

fn line_element(l: &LineSpec) -> (e: Element)
    ensures
        element_bytes(e) == line_bytes(*l),
        e.local() == /* ln */ seq![108u8, 110u8],
{
    let n: [u8; 4] = /* a:ln */ [97u8, 58u8, 108u8, 110u8];
    assert(n@ =~= /* a:ln */ seq![97u8, 58u8, 108u8, 110u8]);
    proof {
        assert(/* a:ln */ seq![97u8, 58u8, 108u8, 110u8] =~= seq![97u8, 58u8] + /* ln */ seq![108u8, 110u8]);
        crate::xml::lemma_local_of_prefixed(97u8, /* ln */ seq![108u8, 110u8]);
    }
    let e = match l {
        LineSpec::NoLine => {
            let mut ln = new_element(n.as_slice());
            let nf: [u8; 8] = /* a:noFill */ [97u8, 58u8, 110u8, 111u8, 70u8, 105u8, 108u8, 108u8];
            assert(nf@ =~= /* a:noFill */ seq![97u8, 58u8, 110u8, 111u8, 70u8, 105u8, 108u8, 108u8]);
            let mut no_fill = new_element(nf.as_slice());
            no_fill.self_closing = true;
            proof { assert(no_fill.attrs_v() =~= Seq::<(Seq<u8>, Seq<u8>)>::empty()); }
            let ghost c0 = ln.children@;
            ln.children.push(Node::Element(no_fill));
            proof {
                assert(c0 =~= Seq::<Node>::empty());
                crate::xml::lemma_nodes_bytes_push(c0, Node::Element(no_fill));
                assert(ln.attrs_v() =~= Seq::<(Seq<u8>, Seq<u8>)>::empty());
                assert(element_bytes(ln) =~= line_bytes(*l));
            }
            ln
        },
        LineSpec::Styled { color, width_emu, dash } => styled_line(color, *width_emu, dash),
    };
    assert(element_bytes(e) =~= line_bytes(*l));
    e
}

/// The bytes of a solid fill of a color.
pub open spec fn solid_fill_bytes(c: ColorSpec) -> Seq<u8> {
    /* <a:solidFill> */ seq![60u8, 97u8, 58u8, 115u8, 111u8, 108u8, 105u8, 100u8, 70u8, 105u8, 108u8, 108u8, 62u8] + color_bytes(c) + /* </a:solidFill> */ seq![60u8, 47u8, 97u8, 58u8, 115u8, 111u8, 108u8, 105u8, 100u8, 70u8, 105u8, 108u8, 108u8, 62u8]
}

/// The bytes of an optional preset dash.
pub open spec fn dash_bytes(dash: Option<String>) -> Seq<u8> {
    match dash {
        Some(d) => /* <a:prstDash val=\" */ seq![60u8, 97u8, 58u8, 112u8, 114u8, 115u8, 116u8, 68u8, 97u8, 115u8, 104u8, 32u8, 118u8, 97u8, 108u8, 61u8, 34u8] + encode_utf8(d@) + /* \"/> */ seq![34u8, 47u8, 62u8],
        None => Seq::empty(),
    }
}

fn solid_fill(c: &ColorSpec) -> (e: Element)
    ensures
        element_bytes(e) == solid_fill_bytes(*c),
{
    let sf: [u8; 11] = /* a:solidFill */ [97u8, 58u8, 115u8, 111u8, 108u8, 105u8, 100u8, 70u8, 105u8, 108u8, 108u8];
    assert(sf@ =~= /* a:solidFill */ seq![97u8, 58u8, 115u8, 111u8, 108u8, 105u8, 100u8, 70u8, 105u8, 108u8, 108u8]);
    let mut solid = new_element(sf.as_slice());
    let ce = color_element(c);
    let ghost s0 = solid.children@;
    solid.children.push(Node::Element(ce));
    proof {
        assert(s0 =~= Seq::<Node>::empty());
        crate::xml::lemma_nodes_bytes_push(s0, Node::Element(ce));
        assert(solid.attrs_v() =~= Seq::<(Seq<u8>, Seq<u8>)>::empty());
        assert(element_bytes(solid) =~= solid_fill_bytes(*c));
    }
    solid
}

fn styled_line(color: &ColorSpec, width_emu: i64, dash: &Option<String>) -> (e: Element)
    ensures
        element_bytes(e) == /* <a:ln w=\" */ seq![60u8, 97u8, 58u8, 108u8, 110u8, 32u8, 119u8, 61u8, 34u8] + coord_text(width_emu) + /* \"> */ seq![34u8, 62u8] + solid_fill_bytes(*color) + dash_bytes(*dash)
            + /* </a:ln> */ seq![60u8, 47u8, 97u8, 58u8, 108u8, 110u8, 62u8],
        e.name@ == /* a:ln */ seq![97u8, 58u8, 108u8, 110u8],
{
    let n: [u8; 4] = /* a:ln */ [97u8, 58u8, 108u8, 110u8];
    assert(n@ =~= /* a:ln */ seq![97u8, 58u8, 108u8, 110u8]);
    let mut ln = new_element(n.as_slice());
    let w: [u8; 1] = /* w */ [119u8];
    assert(w@ =~= /* w */ seq![119u8]);
    let d = dec_i64(width_emu);
    proof { assert(ln.attrs_v() =~= Seq::<(Seq<u8>, Seq<u8>)>::empty()); }
    ln.set_attr(w.as_slice(), d.as_str().as_bytes());
    let solid = solid_fill(color);
    let ghost c0 = ln.children@;
    ln.children.push(Node::Element(solid));
    proof {
        assert(c0 =~= Seq::<Node>::empty());
        crate::xml::lemma_nodes_bytes_push(c0, Node::Element(solid));
    }
    let ghost c1 = ln.children@;
    match dash {
        Some(dv) => {
            let pd: [u8; 10] = /* a:prstDash */ [97u8, 58u8, 112u8, 114u8, 115u8, 116u8, 68u8, 97u8, 115u8, 104u8];
            let k: [u8; 3] = /* val */ [118u8, 97u8, 108u8];
            assert(pd@ =~= /* a:prstDash */ seq![97u8, 58u8, 112u8, 114u8, 115u8, 116u8, 68u8, 97u8, 115u8, 104u8]);
            assert(k@ =~= /* val */ seq![118u8, 97u8, 108u8]);
            let de = super::fresh_leaf(pd.as_slice(), k.as_slice(), dv.as_str().as_bytes());
            ln.children.push(Node::Element(de));
            proof { crate::xml::lemma_nodes_bytes_push(c1, Node::Element(de)); }
        },
        None => {},
    }
    proof {
        reveal_with_fuel(crate::xml::attrs_bytes, 2);
        assert(crate::xml::attr_index(Seq::<(Seq<u8>, Seq<u8>)>::empty(), /* w */ seq![119u8]) == -1);
        assert(ln.attrs_v() =~= seq![(/* w */ seq![119u8], coord_text(width_emu))]);
        assert(ln.attrs_v().drop_last() =~= Seq::<(Seq<u8>, Seq<u8>)>::empty());
        assert(nodes_bytes(ln.children@) =~= solid_fill_bytes(*color) + dash_bytes(*dash));
        assert(element_bytes(ln) =~= /* <a:ln w=\" */ seq![60u8, 97u8, 58u8, 108u8, 110u8, 32u8, 119u8, 61u8, 34u8] + coord_text(width_emu) + /* \"> */ seq![34u8, 62u8] + solid_fill_bytes(*color)
            + dash_bytes(*dash) + /* </a:ln> */ seq![60u8, 47u8, 97u8, 58u8, 108u8, 110u8, 62u8]);
    }
    ln
}

fn put_line(sppr: &mut Element, ln: Element)
    requires
        ln.local() == /* ln */ seq![108u8, 110u8],
    ensures
        line_set(*old(sppr), *final(sppr), element_bytes(ln)),
{
    let n: [u8; 2] = /* ln */ [108u8, 110u8];
    assert(n@ =~= /* ln */ seq![108u8, 110u8]);
    let ghost node = Node::Element(ln);
    drop_children_named(sppr, n.as_slice(), n.as_slice(), n.as_slice());
    if sppr.self_closing {
        sppr.self_closing = false;
        sppr.dirty = true;
    }
    proof { assert(local_of(sppr.name@) == sppr.local()); }
    sppr.insert_child_ordered(Node::Element(ln));
    assert(node_bytes(node) == element_bytes(ln));
}

impl SlideDom {
    /// Set the outline of drawable `shape_idx`: its `spPr` (appended fresh
    /// when absent) loses any `a:ln` and gets the one for `line`, in schema
    /// order. Fails, changing nothing, when there is no such shape.
    pub fn set_shape_line(&mut self, shape_idx: usize, line: &LineSpec) -> (r: Result<(), OxmlError>)
        requires
            tree_child_path(old(self).document(), kind_drawable(), shape_idx as int) is Some ==> line_color_ok(*line),
        ensures
            r is Ok <==> tree_child_path(old(self).document(), kind_drawable(), shape_idx as int) is Some,
            r is Err ==> final(self).document() == old(self).document(),
            r is Ok ==> {
                let sp = tree_child_path(old(self).document(), kind_drawable(), shape_idx as int).unwrap();
                exists|new_sp: Element, s0: Element, s1: Element| {
                    &&& #[trigger] doc_replaced(old(self).document(), final(self).document(), sp, new_sp)
                    &&& #[trigger] sppr_ensured(doc_at(old(self).document(), sp), new_sp, s0, s1)
                    &&& line_set(s0, s1, line_bytes(*line))
                }
            },
    {
        let p = match find_tree_child_path(&self.doc, 3, shape_idx) {
            Some(p) => p,
            None => return Err(OxmlError::Parse(message("no shape at index ", shape_idx, ""))),
        };
        let ln = line_element(line);
        let ghost old_sp = doc_at(self.doc, p@);
        let sp = self.doc.element_at_mut(&p).unwrap();
        let sppr = ensure_sppr(sp);
        let ghost s0 = *sppr;
        put_line(sppr, ln);
        let ghost s1 = *sppr;
        let ghost new_sp = *sp;
        proof {
            assert(self.document() == self.doc);
            assert(old(self).document() == old(self).doc);
            let spp = tree_child_path(old(self).document(), kind_drawable(), shape_idx as int).unwrap();
            assert(spp == p@);
            assert(old_sp == doc_at(old(self).document(), spp));
            assert(doc_replaced(old(self).document(), self.document(), spp, new_sp));
            assert(sppr_ensured(doc_at(old(self).document(), spp), new_sp, s0, s1));
            assert(line_set(s0, s1, line_bytes(*line)));
        }
        Ok(())
    }
}

} // verus!
