//! The shapes of a slide as a whole: listing, deleting and reordering them,
//! the text they hold, and what the inventory reports of each.

use vstd::prelude::*;
use crate::error::{parse_error_is, OxmlError};
use crate::notes_dom::texts_of;
use crate::numbers::{parse_i64, parse_signed, parse_u32, parse_unsigned};
use crate::paragraph::{join_lines, join_paragraph_texts, paragraph_text_spec};
use crate::text::{dec_nat, from_utf8_lossy, push_str, string_of, utf8_lossy};
use crate::xml::{
    attr_value, find_desc, first_child, first_named_index, is_named, lemma_first_named_index, named_children,
    same_tags, doc_replaced, doc_root, element_at, lemma_desc_path, lemma_desc_path_stable, lemma_doc_replaced_root,
    lemma_replaced_valid, lemma_search_before_prefix, Document, Element, Node,
};
use super::{
    lemma_kind_children_concat, lemma_kind_children_insert, lemma_kind_children_len, lemma_kind_children_remove,
    lemma_kind_children_single, lemma_nth_kind_count, lemma_nth_kind_from, child_removed, count_kind, count_of_kind, doc_at, find_tree_path, insert_pos_for, insert_position,
    kind_children, kind_drawable, kind_elements, kind_sp, lemma_count_first, lemma_count_nth, lemma_path_push, message,
    nth_kind, nth_position, tree_path, tree_child_path, node_is_kind, find_tree_child_path, ShapeInfo, SlideDom,
};
use super::table::message2;

verus! {

/// The paragraphs of the first text body of each autoshape (`p:sp`) among
/// `ns`, in order.
pub open spec fn sp_paragraphs(ns: Seq<Node>) -> Seq<Element>
    decreases ns.len(),
{
    if ns.len() == 0 {
        Seq::empty()
    } else {
        let rest = sp_paragraphs(ns.drop_last());
        if is_named(ns.last(), /* sp */ seq![115u8, 112u8]) {
            match find_desc(ns.last()->Element_0, /* txBody */ seq![116u8, 120u8, 66u8, 111u8, 100u8, 121u8]) {
                Some(tx) => rest + named_children(tx.children@, /* p */ seq![112u8]),
                None => rest,
            }
        } else {
            rest
        }
    }
}

/// The text of a slide: the paragraphs of its autoshapes, one per line.
pub open spec fn slide_text(d: Document) -> Seq<char> {
    match tree_path(d) {
        Some(tp) => join_lines(texts_of(sp_paragraphs(doc_at(d, tp).children@))),
        None => Seq::empty(),
    }
}

/// The placeholder type of a shape: the `type` of its first `ph` descendant,
/// `body` when that has none; none when the shape has no `ph`.
pub open spec fn ph_type_of(sp: Element) -> Option<Seq<u8>> {
    match find_desc(sp, /* ph */ seq![112u8, 104u8]) {
        Some(ph) => match attr_value(ph, /* type */ seq![116u8, 121u8, 112u8, 101u8]) {
            Some(t) => Some(t),
            None => Some(/* body */ seq![98u8, 111u8, 100u8, 121u8]),
        },
        None => None,
    }
}

/// The `type` attribute an autoshape node's first `ph` declares, as written:
/// `Some(None)` when that `ph` has no `type`; `None` when the node is no
/// autoshape or has no `ph`.
pub open spec fn declared_ph_type(n: Node) -> Option<Option<Seq<u8>>> {
    if is_named(n, /* sp */ seq![115u8, 112u8]) {
        match find_desc(n->Element_0, /* ph */ seq![112u8, 104u8]) {
            Some(ph) => Some(attr_value(ph, /* type */ seq![116u8, 121u8, 112u8, 101u8])),
            None => None,
        }
    } else {
        None
    }
}

/// Index of the first autoshape among `ns` from `i` on whose placeholder
/// type is exactly `want`, or -1.
pub open spec fn exact_ph_index_from(ns: Seq<Node>, want: Seq<u8>, i: int) -> int
    decreases ns.len() - i,
{
    if i < 0 || i >= ns.len() {
        -1
    } else if is_named(ns[i], /* sp */ seq![115u8, 112u8]) && ph_type_of(ns[i]->Element_0) == Some(want) {
        i
    } else {
        exact_ph_index_from(ns, want, i + 1)
    }
}

/// The number of paragraphs of the body placeholder: the paragraphs of the
/// first text body of the first autoshape whose placeholder type is `body`
/// (0 when there is none, or it has no text body).
pub open spec fn body_paragraph_count_of(d: Document) -> nat {
    match tree_path(d) {
        Some(tp) => {
            let ns = doc_at(d, tp).children@;
            let i = exact_ph_index_from(ns, /* body */ seq![98u8, 111u8, 100u8, 121u8], 0);
            if i >= 0 {
                match find_desc(ns[i]->Element_0, /* txBody */ seq![116u8, 120u8, 66u8, 111u8, 100u8, 121u8]) {
                    Some(tx) => named_children(tx.children@, /* p */ seq![112u8]).len(),
                    None => 0,
                }
            } else {
                0
            }
        },
        None => 0,
    }
}

proof fn lemma_exact_ph_index(ns: Seq<Node>, want: Seq<u8>, i: int)
    ensures
        exact_ph_index_from(ns, want, i) >= 0 ==> i <= exact_ph_index_from(ns, want, i) < ns.len()
            && is_named(ns[exact_ph_index_from(ns, want, i)], /* sp */ seq![115u8, 112u8]),
    decreases ns.len() - i,
{
    if 0 <= i < ns.len() && !(is_named(ns[i], /* sp */ seq![115u8, 112u8]) && ph_type_of(ns[i]->Element_0) == Some(want)) {
        lemma_exact_ph_index(ns, want, i + 1);
    }
}

/// `exact_ph_index_from` from `k` lands on `i` when node `i` is an
/// autoshape of placeholder type `want` and none between `k` and `i` is.
proof fn lemma_exact_ph_index_at(ns: Seq<Node>, want: Seq<u8>, k: int, i: int)
    requires
        0 <= k <= i < ns.len(),
        is_named(ns[i], /* sp */ seq![115u8, 112u8]) && ph_type_of(ns[i]->Element_0) == Some(want),
        forall|j: int| k <= j < i ==> !(is_named(#[trigger] ns[j], /* sp */ seq![115u8, 112u8]) && ph_type_of(ns[j]->Element_0) == Some(want)),
    ensures
        exact_ph_index_from(ns, want, k) == i,
    decreases i - k,
{
    if k < i {
        lemma_exact_ph_index_at(ns, want, k + 1, i);
    }
}

/// A placeholder whose `ph` has no `type` is of type `body`, the
/// PresentationML default.
pub proof fn lemma_untyped_placeholder_type_is_body(sp: Element)
    requires
        find_desc(sp, /* ph */ seq![112u8, 104u8]) matches Some(ph) && attr_value(ph, /* type */ seq![116u8, 121u8, 112u8, 101u8]) is None,
    ensures
        ph_type_of(sp) == Some(/* body */ seq![98u8, 111u8, 100u8, 121u8]),
{
}

/// The body placeholder may be untyped: when the first autoshape of the
/// shape tree whose placeholder is untyped or `body` is untyped, the body
/// paragraph count is the number of paragraphs of its first text body.
pub proof fn lemma_untyped_placeholder_counted_as_body(d: Document, tp: Seq<usize>, i: usize)
    requires
        tree_path(d) == Some(tp),
        i < doc_at(d, tp).children@.len(),
        declared_ph_type(doc_at(d, tp).children@[i as int]) == Some(None::<Seq<u8>>),
        forall|j: int|
            0 <= j < i ==> {
                &&& declared_ph_type(#[trigger] doc_at(d, tp).children@[j]) != Some(None::<Seq<u8>>)
                &&& declared_ph_type(doc_at(d, tp).children@[j]) != Some(Some(/* body */ seq![98u8, 111u8, 100u8, 121u8]))
            },
    ensures
        body_paragraph_count_of(d) == (match find_desc(doc_at(d, tp).children@[i as int]->Element_0, /* txBody */ seq![116u8, 120u8, 66u8, 111u8, 100u8, 121u8]) {
            Some(tx) => named_children(tx.children@, /* p */ seq![112u8]).len(),
            None => 0,
        }),
{
    let ns = doc_at(d, tp).children@;
    assert forall|j: int| 0 <= j < i implies !(is_named(#[trigger] ns[j], /* sp */ seq![115u8, 112u8]) && ph_type_of(ns[j]->Element_0) == Some(/* body */ seq![98u8, 111u8, 100u8, 121u8])) by {
        assert(declared_ph_type(ns[j]) != Some(None::<Seq<u8>>));
    }
    lemma_exact_ph_index_at(ns, /* body */ seq![98u8, 111u8, 100u8, 121u8], 0, i as int);
}

/// Whether a shape's placeholder type is exactly `want`.
pub(crate) fn ph_type_is(sp: &Element, want: &[u8]) -> (r: bool)
    ensures
        r == (ph_type_of(*sp) == Some(want@)),
{
    let ph: [u8; 2] = /* ph */ [112u8, 104u8];
    assert(ph@ =~= /* ph */ seq![112u8, 104u8]);
    match sp.find_descendant(ph.as_slice()) {
        Some(e) => {
            let ty: [u8; 4] = /* type */ [116u8, 121u8, 112u8, 101u8];
            assert(ty@ =~= /* type */ seq![116u8, 121u8, 112u8, 101u8]);
            match e.attr(ty.as_slice()) {
                Some(t) => crate::bytes::bytes_eq(t, want),
                None => {
                    let body: [u8; 4] = /* body */ [98u8, 111u8, 100u8, 121u8];
                    assert(body@ =~= /* body */ seq![98u8, 111u8, 100u8, 121u8]);
                    crate::bytes::bytes_eq(body.as_slice(), want)
                },
            }
        },
        None => false,
    }
}

impl SlideDom {
    /// Every shape of the shape tree (`p:sp`, `p:pic`, `p:graphicFrame`,
    /// `p:cxnSp`, `p:grpSp`), in order; none when there is no shape tree.
    pub fn all_shapes(&self) -> (r: Vec<&Element>)
        ensures
            match tree_path(self.document()) {
                Some(tp) => {
                    let ks = kind_children(doc_at(self.document(), tp).children@, kind_drawable());
                    &&& r@.len() == ks.len()
                    &&& forall|j: int| 0 <= j < r@.len() ==> *r@[j] == ks[j]
                },
                None => r@.len() == 0,
            },
    {
        match find_tree_path(&self.doc) {
            Some(p) => {
                let root = self.doc.root().unwrap();
                assert(p@.skip(0) =~= p@);
                let tree = element_at(root, &p, 0);
                kind_elements(&tree.children, 3)
            },
            None => Vec::new(),
        }
    }

    /// The autoshapes (`p:sp`) of the shape tree, in order; none when there
    /// is no shape tree.
    pub fn shapes(&self) -> (r: Vec<&Element>)
        ensures
            match tree_path(self.document()) {
                Some(tp) => {
                    let ks = kind_children(doc_at(self.document(), tp).children@, kind_sp());
                    &&& r@.len() == ks.len()
                    &&& forall|j: int| 0 <= j < r@.len() ==> *r@[j] == ks[j]
                },
                None => r@.len() == 0,
            },
    {
        match find_tree_path(&self.doc) {
            Some(p) => {
                let root = self.doc.root().unwrap();
                assert(p@.skip(0) =~= p@);
                let tree = element_at(root, &p, 0);
                kind_elements(&tree.children, 2)
            },
            None => Vec::new(),
        }
    }

    /// Everything drawn on the slide, in drawing order: the same shapes as
    /// `all_shapes`.
    pub fn drawables(&self) -> (r: Vec<&Element>)
        ensures
            match tree_path(self.document()) {
                Some(tp) => {
                    let ks = kind_children(doc_at(self.document(), tp).children@, kind_drawable());
                    &&& r@.len() == ks.len()
                    &&& forall|j: int| 0 <= j < r@.len() ==> *r@[j] == ks[j]
                },
                None => r@.len() == 0,
            },
    {
        self.all_shapes()
    }

    /// Delete shape `shape_idx` (counting every kind of shape) from the
    /// shape tree; every other shape is kept byte for byte. Fails, changing
    /// nothing, when there is no shape tree or no such shape.
    pub fn delete_shape(&mut self, shape_idx: usize) -> (r: Result<(), OxmlError>)
        ensures
            r is Ok <==> tree_child_path(old(self).document(), kind_drawable(), shape_idx as int) is Some,
            r is Err ==> final(self).document() == old(self).document(),
            r matches Err(e) ==> parse_error_is(e, shape_index_error(old(self).document(), "shape index "@, shape_idx as int)),
            r is Ok ==> {
                let tp = tree_path(old(self).document()).unwrap();
                let t = doc_at(old(self).document(), tp);
                exists|new_t: Element| {
                    &&& doc_replaced(old(self).document(), final(self).document(), tp, new_t)
                    &&& #[trigger] child_removed(t, new_t, nth_kind(t.children@, kind_drawable(), shape_idx as int))
                }
            },
    {
        let p = match find_tree_path(&self.doc) {
            Some(p) => p,
            None => return Err(OxmlError::Parse(string_of("slide has no spTree"))),
        };
        let root = self.doc.root().unwrap();
        assert(p@.skip(0) =~= p@);
        let t = element_at(root, &p, 0);
        let pos = match nth_position(&t.children, 3, shape_idx) {
            Some(i) => i,
            None => {
                let c = count_of_kind(&t.children, 3);
                return Err(OxmlError::Parse(message2("shape index ", shape_idx, " out of range (have ", c, " shapes)")));
            },
        };
        let ghost old_t = doc_at(self.doc, p@);
        let tree = self.doc.element_at_mut(&p).unwrap();
        let _ = tree.children.remove(pos);
        let ghost new_t = *tree;
        proof {
            assert(child_removed(old_t, new_t, pos as int));
            assert(self.document() == self.doc);
            assert(old(self).document() == old(self).doc);
            assert(old_t == doc_at(old(self).document(), tree_path(old(self).document()).unwrap()));
        }
        Ok(())
    }

    /// Move shape `from_idx` so that it becomes shape `to_idx` (counting every
    /// kind of shape), changing the drawing order; every shape is kept byte
    /// for byte. Equal indices change nothing. Fails, changing nothing, when
    /// there is no shape tree or either index is not that of a shape.
    pub fn reorder_shape(&mut self, from_idx: usize, to_idx: usize) -> (r: Result<(), OxmlError>)
        ensures
            r is Ok <==> (tree_path(old(self).document()) matches Some(tp) && {
                let c = count_kind(doc_at(old(self).document(), tp).children@, kind_drawable());
                from_idx < c && to_idx < c
            }),
            from_idx == to_idx ==> final(self).document() == old(self).document(),
            r matches Err(e) ==> parse_error_is(
                e,
                if tree_path(old(self).document()) is Some && from_idx < count_kind(
                    doc_at(old(self).document(), tree_path(old(self).document()).unwrap()).children@,
                    kind_drawable(),
                ) {
                    shape_index_error(old(self).document(), "to_idx "@, to_idx as int)
                } else {
                    shape_index_error(old(self).document(), "from_idx "@, from_idx as int)
                },
            ),
            r is Err ==> final(self).document() == old(self).document(),
            (from_idx != to_idx && r is Ok) ==> shape_moved(
                old(self).document(),
                final(self).document(),
                from_idx as int,
                to_idx as int,
            ),
    {
        let p = match find_tree_path(&self.doc) {
            Some(p) => p,
            None => return Err(OxmlError::Parse(string_of("slide has no spTree"))),
        };
        let root = self.doc.root().unwrap();
        assert(p@.skip(0) =~= p@);
        let t = element_at(root, &p, 0);
        let count = count_of_kind(&t.children, 3);
        if from_idx >= count {
            return Err(OxmlError::Parse(message2("from_idx ", from_idx, " out of range (have ", count, " shapes)")));
        }
        if to_idx >= count {
            return Err(OxmlError::Parse(message2("to_idx ", to_idx, " out of range (have ", count, " shapes)")));
        }
        if from_idx == to_idx {
            return Ok(());
        }
        proof { lemma_count_nth(t.children@, 3, from_idx as int); }
        let from = nth_position(&t.children, 3, from_idx).unwrap();
        let ghost old_t = doc_at(self.doc, p@);
        let tree = self.doc.element_at_mut(&p).unwrap();
        let node = tree.children.remove(from);
        let ghost mid = tree.children@;
        proof {
            lemma_count_remove(old_t.children@, 3, from as int);
            assert(mid == old_t.children@.remove(from as int));
            lemma_insert_pos_defined(mid, 3, to_idx as int);
        }
        let to = insert_position(&tree.children, 3, to_idx).unwrap();
        tree.children.insert(to, node);
        let ghost new_t = *tree;
        proof {
            assert(same_tags(old_t, new_t));
            assert(self.document() == self.doc);
            assert(old(self).document() == old(self).doc);
            assert(old_t == doc_at(old(self).document(), tree_path(old(self).document()).unwrap()));
        }
        Ok(())
    }

    /// The shapes inside group shape `shape_idx` (counting every kind of
    /// shape of the shape tree): its children of any shape kind, in order.
    /// Fails when there is no shape tree or such shape, or it is not a group.
    pub fn group_shapes(&self, shape_idx: usize) -> (r: Result<Vec<&Element>, OxmlError>)
        ensures
            match r {
                Ok(v) => tree_child_path(self.document(), kind_drawable(), shape_idx as int) matches Some(g) && {
                    let e = doc_at(self.document(), g);
                    let ks = kind_children(e.children@, kind_drawable());
                    &&& e.local() == /* grpSp */ seq![103u8, 114u8, 112u8, 83u8, 112u8]
                    &&& v@.len() == ks.len()
                    &&& forall|j: int| 0 <= j < v@.len() ==> *v@[j] == ks[j]
                },
                Err(e) => !(tree_child_path(self.document(), kind_drawable(), shape_idx as int) matches Some(g)
                    && doc_at(self.document(), g).local() == /* grpSp */ seq![103u8, 114u8, 112u8, 83u8, 112u8]) && parse_error_is(
                    e,
                    group_error(self.document(), shape_idx as int),
                ),
            },
    {
        let p = match find_tree_child_path(&self.doc, 3, shape_idx) {
            Some(p) => p,
            None => return Err(OxmlError::Parse(message("no shape at index ", shape_idx, ""))),
        };
        let root = self.doc.root().unwrap();
        assert(p@.skip(0) =~= p@);
        let g = element_at(root, &p, 0);
        let grp: [u8; 5] = /* grpSp */ [103u8, 114u8, 112u8, 83u8, 112u8];
        assert(grp@ =~= /* grpSp */ seq![103u8, 114u8, 112u8, 83u8, 112u8]);
        if !g.is_named(grp.as_slice()) {
            let mut m = message("shape at index ", shape_idx, " is not a group (is \"");
            let l = from_utf8_lossy(g.local_name());
            push_str(&mut m, l.as_str());
            push_str(&mut m, "\")");
            return Err(OxmlError::Parse(m));
        }
        Ok(kind_elements(&g.children, 3))
    }

    /// The text of every autoshape's first text body, one paragraph per
    /// line.
    pub fn text(&self) -> (r: String)
        ensures
            r@ == slide_text(self.document()),
    {
        let p = match find_tree_path(&self.doc) {
            Some(p) => p,
            None => return String::new(),
        };
        let root = self.doc.root().unwrap();
        assert(p@.skip(0) =~= p@);
        let tree = element_at(root, &p, 0);
        let ps = collect_sp_paragraphs(&tree.children);
        let s = join_paragraph_texts(&ps);
        proof {
            assert(crate::paragraph::paragraph_texts(ps@) =~= texts_of(sp_paragraphs(tree.children@)));
        }
        s
    }

    /// The number of paragraphs of the body placeholder (0 when the slide has
    /// none, or it has no text body).
    pub fn body_paragraph_count(&self) -> (r: usize)
        ensures
            r == body_paragraph_count_of(self.document()),
    {
        let p = match find_tree_path(&self.doc) {
            Some(p) => p,
            None => return 0,
        };
        let root = self.doc.root().unwrap();
        assert(p@.skip(0) =~= p@);
        let tree = element_at(root, &p, 0);
        let body: [u8; 4] = /* body */ [98u8, 111u8, 100u8, 121u8];
        assert(body@ =~= /* body */ seq![98u8, 111u8, 100u8, 121u8]);
        let i = match exact_ph_position(&tree.children, body.as_slice()) {
            Some(i) => i,
            None => return 0,
        };
        let sp = match &tree.children[i] {
            Node::Element(e) => e,
            Node::Raw(_) => return 0,
        };
        let tb: [u8; 6] = /* txBody */ [116u8, 120u8, 66u8, 111u8, 100u8, 121u8];
        let pn: [u8; 1] = /* p */ [112u8];
        assert(tb@ =~= /* txBody */ seq![116u8, 120u8, 66u8, 111u8, 100u8, 121u8]);
        assert(pn@ =~= /* p */ seq![112u8]);
        match sp.find_descendant(tb.as_slice()) {
            Some(tx) => tx.children_named(pn.as_slice()).len(),
            None => 0,
        }
    }
}

/// Index of the first autoshape among `ns` whose placeholder type is
/// exactly `want`.
pub(crate) fn exact_ph_position(ns: &Vec<Node>, want: &[u8]) -> (r: Option<usize>)
    ensures
        match r {
            Some(i) => exact_ph_index_from(ns@, want@, 0) == i && i < ns@.len() && is_named(ns@[i as int], /* sp */ seq![115u8, 112u8]),
            None => exact_ph_index_from(ns@, want@, 0) < 0,
        },
{
    let sp: [u8; 2] = /* sp */ [115u8, 112u8];
    assert(sp@ =~= /* sp */ seq![115u8, 112u8]);
    let mut i: usize = 0;
    proof { lemma_exact_ph_index(ns@, want@, 0); }
    while i < ns.len()
        invariant
            i <= ns@.len(),
            sp@ == /* sp */ seq![115u8, 112u8],
            exact_ph_index_from(ns@, want@, 0) == exact_ph_index_from(ns@, want@, i as int),
        decreases ns@.len() - i,
    {
        if let Node::Element(e) = &ns[i] {
            if e.is_named(sp.as_slice()) && ph_type_is(e, want) {
                return Some(i);
            }
        }
        i = i + 1;
    }
    None
}

/// The paragraphs of the first text body of each autoshape among `ns`.
fn collect_sp_paragraphs<'a>(ns: &'a Vec<Node>) -> (r: Vec<&'a Element>)
    ensures
        crate::paragraph::derefs(r@) == sp_paragraphs(ns@),
{
    let mut out: Vec<&'a Element> = Vec::new();
    let sp: [u8; 2] = /* sp */ [115u8, 112u8];
    let tb: [u8; 6] = /* txBody */ [116u8, 120u8, 66u8, 111u8, 100u8, 121u8];
    let pn: [u8; 1] = /* p */ [112u8];
    assert(sp@ =~= /* sp */ seq![115u8, 112u8]);
    assert(tb@ =~= /* txBody */ seq![116u8, 120u8, 66u8, 111u8, 100u8, 121u8]);
    assert(pn@ =~= /* p */ seq![112u8]);
    let mut i: usize = 0;
    while i < ns.len()
        invariant
            i <= ns@.len(),
            sp@ == /* sp */ seq![115u8, 112u8],
            tb@ == /* txBody */ seq![116u8, 120u8, 66u8, 111u8, 100u8, 121u8],
            pn@ == /* p */ seq![112u8],
            crate::paragraph::derefs(out@) == sp_paragraphs(ns@.take(i as int)),
        decreases ns@.len() - i,
    {
        assert(ns@.take(i + 1).drop_last() =~= ns@.take(i as int));
        if let Node::Element(e) = &ns[i] {
            if e.is_named(sp.as_slice()) {
                match e.find_descendant(tb.as_slice()) {
                    Some(tx) => {
                        let ps = tx.children_named(pn.as_slice());
                        let ghost before = out@;
                        let mut k: usize = 0;
                        while k < ps.len()
                            invariant
                                k <= ps@.len(),
                                out@ == before + ps@.take(k as int),
                            decreases ps@.len() - k,
                        {
                            out.push(ps[k]);
                            assert(ps@.take(k + 1) =~= ps@.take(k as int).push(ps@[k as int]));
                            k = k + 1;
                        }
                        proof {
                            assert(ps@.take(ps@.len() as int) =~= ps@);
                            assert(crate::paragraph::derefs(out@) =~= crate::paragraph::derefs(before)
                                + named_children(tx.children@, /* p */ seq![112u8]));
                        }
                    },
                    None => {},
                }
            }
        }
        i = i + 1;
    }
    assert(ns@.take(ns@.len() as int) =~= ns@);
    out
}

/// The number of nodes of a kind over a concatenation.
proof fn lemma_count_concat(a: Seq<Node>, b: Seq<Node>, k: u8)
    ensures
        count_kind(a + b, k) == count_kind(a, k) + count_kind(b, k),
    decreases b.len(),
{
    if b.len() == 0 {
        assert(a + b =~= a);
    } else {
        lemma_count_concat(a, b.drop_last(), k);
        assert((a + b).drop_last() =~= a + b.drop_last());
    }
}

/// Removing a node of a kind leaves one fewer of that kind.
proof fn lemma_count_remove(s: Seq<Node>, k: u8, i: int)
    requires
        0 <= i < s.len(),
        node_is_kind(s[i], k),
    ensures
        count_kind(s.remove(i), k) + 1 == count_kind(s, k),
{
    let a = s.take(i);
    let b = s.skip(i + 1);
    assert(s =~= a + seq![s[i]] + b);
    assert(s.remove(i) =~= a + b);
    lemma_count_concat(a, b, k);
    lemma_count_concat(a + seq![s[i]], b, k);
    lemma_count_concat(a, seq![s[i]], k);
    assert(count_kind(seq![s[i]], k) == 1) by {
        assert(seq![s[i]].drop_last() =~= Seq::<Node>::empty());
        assert(count_kind(Seq::<Node>::empty(), k) == 0);
        assert(seq![s[i]].last() == s[i]);
    }
}

/// The message a failed listing of group shape `idx` carries: there is no
/// such shape, or it is not a group (its local name given).
pub open spec fn group_error(d: Document, idx: int) -> Seq<char> {
    match tree_child_path(d, kind_drawable(), idx) {
        Some(g) => "shape at index "@ + dec_nat(idx as nat) + " is not a group (is \""@ + utf8_lossy(doc_at(d, g).local())
            + "\")"@,
        None => "no shape at index "@ + dec_nat(idx as nat) + ""@,
    }
}

/// The message an out-of-range shape index carries, the index named by
/// `what`: that the slide has no shape tree, or how many shapes it has.
pub open spec fn shape_index_error(d: Document, what: Seq<char>, idx: int) -> Seq<char> {
    match tree_path(d) {
        Some(tp) => what + dec_nat(idx as nat) + " out of range (have "@ + dec_nat(
            count_kind(doc_at(d, tp).children@, kind_drawable()),
        ) + " shapes)"@,
        None => "slide has no spTree"@,
    }
}

/// What a successful `reorder_shape(from, to)` with `from != to` makes of a
/// slide part: the shape tree, and nothing else, has its `from`-th shape
/// (of any kind) taken out and put back where it becomes the `to`-th.
pub open spec fn shape_moved(old: Document, new: Document, from: int, to: int) -> bool {
    match tree_path(old) {
        Some(tp) => {
            let t = doc_at(old, tp);
            let f = nth_kind(t.children@, kind_drawable(), from);
            let mid = t.children@.remove(f);
            &&& 0 <= from < count_kind(t.children@, kind_drawable())
            &&& 0 <= to < count_kind(t.children@, kind_drawable())
            &&& exists|new_t: Element| {
                &&& doc_replaced(old, new, tp, new_t)
                &&& #[trigger] same_tags(t, new_t)
                &&& new_t.children@ == mid.insert(insert_pos_for(mid, kind_drawable(), to), t.children@[f])
            }
        },
        None => false,
    }
}

/// Where the `n`-th node of kind `k` is inserted, exactly `n` of them lie
/// before it.
proof fn lemma_insert_pos_count(s: Seq<Node>, k: u8, n: int)
    requires
        0 <= n <= count_kind(s, k),
    ensures
        0 <= insert_pos_for(s, k, n) <= s.len(),
        kind_children(s.take(insert_pos_for(s, k, n)), k).len() == n,
{
    lemma_insert_pos_defined(s, k, n);
    lemma_kind_children_len(s, k);
    if nth_kind(s, k, n) >= 0 {
        lemma_nth_kind_from(s, k, n, 0);
        lemma_nth_kind_count(s, k, n);
    } else if n == 0 {
        assert(s.take(s.len() as int) =~= s);
    } else {
        lemma_count_nth(s, k, n - 1);
        let j = nth_kind(s, k, n - 1);
        lemma_nth_kind_from(s, k, n - 1, 0);
        lemma_nth_kind_count(s, k, n - 1);
        assert(s.take(j + 1) =~= s.take(j) + seq![s[j]]);
        lemma_kind_children_concat(s.take(j), seq![s[j]], k);
        lemma_kind_children_single(s[j], k);
    }
}

/// Moving a shape in the drawing order: once `reorder_shape(from, to)`
/// (with `from != to`) has turned `before` into `after`, the shape tree is
/// found where it was, and its shapes (what `drawables()` lists) are those
/// of `before` with the `from`-th taken out and put back at index `to`.
pub proof fn lemma_reorder_shape_moves(before: SlideDom, after: SlideDom, from: int, to: int)
    requires
        shape_moved(before.document(), after.document(), from, to),
    ensures
        tree_path(after.document()) == tree_path(before.document()),
        kind_children(doc_at(after.document(), tree_path(before.document()).unwrap()).children@, kind_drawable())
            == kind_children(
            doc_at(before.document(), tree_path(before.document()).unwrap()).children@,
            kind_drawable(),
        ).remove(from).insert(
            to,
            kind_children(doc_at(before.document(), tree_path(before.document()).unwrap()).children@, kind_drawable())[from],
        ),
{
    let d0 = before.document();
    let d1 = after.document();
    let k = kind_drawable();
    let tp = tree_path(d0).unwrap();
    let t = doc_at(d0, tp);
    let cs = t.children@;
    let f = nth_kind(cs, k, from);
    let mid = cs.remove(f);
    let pos = insert_pos_for(mid, k, to);
    let new_t = choose|nt: Element| {
        &&& doc_replaced(d0, d1, tp, nt)
        &&& #[trigger] same_tags(t, nt)
        &&& nt.children@ == mid.insert(pos, cs[f])
    };
    // the list of shapes
    lemma_count_nth(cs, k, from);
    lemma_nth_kind_from(cs, k, from, 0);
    lemma_nth_kind_count(cs, k, from);
    lemma_kind_children_remove(cs, f, k);
    lemma_count_remove(cs, k, f);
    lemma_insert_pos_count(mid, k, to);
    lemma_kind_children_insert(mid, pos, cs[f], k);
    // the shape tree stays where it was
    lemma_doc_replaced_root(d0, d1, tp, new_t);
    let root0 = doc_root(d0).unwrap();
    let root1 = doc_root(d1).unwrap();
    lemma_desc_path(root0, /* spTree */ seq![115u8, 112u8, 84u8, 114u8, 101u8, 101u8]);
    assert(tp + Seq::<usize>::empty() =~= tp);
    lemma_search_before_prefix(tp, Seq::<usize>::empty());
    lemma_desc_path_stable(root0, root1, tp, new_t, /* spTree */ seq![115u8, 112u8, 84u8, 114u8, 101u8, 101u8]);
    lemma_replaced_valid(root0, root1, tp, new_t);
}

/// Removing the `n`-th node of kind `k` (a shape, paragraph, run, row, ...)
/// leaves one node of that kind fewer.
pub proof fn lemma_nth_removed(ns: Seq<Node>, k: u8, n: int)
    requires
        nth_kind(ns, k, n) >= 0,
    ensures
        count_kind(ns.remove(nth_kind(ns, k, n)), k) + 1 == count_kind(ns, k),
{
    super::lemma_nth_kind_from(ns, k, n, 0);
    lemma_count_remove(ns, k, nth_kind(ns, k, n));
}

/// A kind's insertion position is defined up to one past its count.
proof fn lemma_insert_pos_defined(s: Seq<Node>, k: u8, n: int)
    requires
        0 <= n <= count_kind(s, k),
    ensures
        insert_pos_for(s, k, n) >= 0,
{
    if n < count_kind(s, k) {
        lemma_count_nth(s, k, n);
    } else if n > 0 {
        lemma_count_nth(s, k, n - 1);
    }
}

// ─── Inventory ──────────────────────────────────────────────────────────────

/// The id a shape declares: `id` of its first `cNvPr` descendant read as a
/// `u32`, 0 when missing or invalid.
pub open spec fn shape_id_of(e: Element) -> nat {
    match find_desc(e, /* cNvPr */ seq![99u8, 78u8, 118u8, 80u8, 114u8]) {
        Some(c) => match attr_value(c, /* id */ seq![105u8, 100u8]) {
            Some(v) => match parse_unsigned(v, u32::MAX as nat) {
                Some(n) => n,
                None => 0,
            },
            None => 0,
        },
        None => 0,
    }
}

/// The name a shape declares: `name` of its first `cNvPr` descendant,
/// decoded; empty when missing.
pub open spec fn shape_name_of(e: Element) -> Seq<char> {
    match find_desc(e, /* cNvPr */ seq![99u8, 78u8, 118u8, 80u8, 114u8]) {
        Some(c) => match attr_value(c, /* name */ seq![110u8, 97u8, 109u8, 101u8]) {
            Some(v) => utf8_lossy(v),
            None => Seq::empty(),
        },
        None => Seq::empty(),
    }
}

/// Attribute `a` of an element read as an `i64`.
pub open spec fn coord_of(e: Option<Element>, a: Seq<u8>) -> Option<int> {
    match e {
        Some(x) => match attr_value(x, a) {
            Some(v) => parse_signed(v, i64::MIN as int, i64::MAX as int),
            None => None,
        },
        None => None,
    }
}

/// The geometry of a shape: from its first `xfrm` descendant, the `x`, `y`
/// of its first `off` child and the `cx`, `cy` of its first `ext` child,
/// when all four are there and valid.
pub open spec fn geometry_of(e: Element) -> Option<(int, int, int, int)> {
    match find_desc(e, /* xfrm */ seq![120u8, 102u8, 114u8, 109u8]) {
        Some(xf) => {
            let off = first_child(xf, /* off */ seq![111u8, 102u8, 102u8]);
            let ext = first_child(xf, /* ext */ seq![101u8, 120u8, 116u8]);
            match (coord_of(off, /* x */ seq![120u8]), coord_of(off, /* y */ seq![121u8]), coord_of(ext, /* cx */ seq![99u8, 120u8]), coord_of(ext, /* cy */ seq![99u8, 121u8])) {
                (Some(x), Some(y), Some(cx), Some(cy)) => Some((x, y, cx, cy)),
                _ => None,
            }
        },
        None => None,
    }
}

/// The text of a shape: the paragraphs of its first text body, one per line.
pub open spec fn shape_text_of(e: Element) -> Option<Seq<char>> {
    match find_desc(e, /* txBody */ seq![116u8, 120u8, 66u8, 111u8, 100u8, 121u8]) {
        Some(tx) => Some(join_lines(texts_of(named_children(tx.children@, /* p */ seq![112u8])))),
        None => None,
    }
}

/// Whether `i` is what the inventory reports of shape `e`.
pub open spec fn info_of(i: ShapeInfo, e: Element) -> bool {
    &&& i.id as nat == shape_id_of(e)
    &&& i.name@ == shape_name_of(e)
    &&& i.shape_type@ == utf8_lossy(e.local())
    &&& match i.geometry {
        Some((x, y, cx, cy)) => geometry_of(e) == Some((x as int, y as int, cx as int, cy as int)),
        None => geometry_of(e) is None,
    }
    &&& match i.text {
        Some(t) => shape_text_of(e) == Some(t@),
        None => shape_text_of(e) is None,
    }
}

/// Attribute `a` of `e` read as an `i64`, computed.
fn coord(e: Option<&Element>, a: &[u8]) -> (r: Option<i64>)
    ensures
        match r {
            Some(v) => coord_of(match e { Some(x) => Some(*x), None => None }, a@) == Some(v as int),
            None => coord_of(match e { Some(x) => Some(*x), None => None }, a@) is None,
        },
{
    match e {
        Some(x) => match x.attr(a) {
            Some(v) => parse_i64(v),
            None => None,
        },
        None => None,
    }
}

fn geometry(e: &Element) -> (r: Option<(i64, i64, i64, i64)>)
    ensures
        match r {
            Some((x, y, cx, cy)) => geometry_of(*e) == Some((x as int, y as int, cx as int, cy as int)),
            None => geometry_of(*e) is None,
        },
{
    let xn: [u8; 4] = /* xfrm */ [120u8, 102u8, 114u8, 109u8];
    let on: [u8; 3] = /* off */ [111u8, 102u8, 102u8];
    let en: [u8; 3] = /* ext */ [101u8, 120u8, 116u8];
    let kx: [u8; 1] = /* x */ [120u8];
    let ky: [u8; 1] = /* y */ [121u8];
    let kcx: [u8; 2] = /* cx */ [99u8, 120u8];
    let kcy: [u8; 2] = /* cy */ [99u8, 121u8];
    assert(xn@ =~= /* xfrm */ seq![120u8, 102u8, 114u8, 109u8]);
    assert(on@ =~= /* off */ seq![111u8, 102u8, 102u8]);
    assert(en@ =~= /* ext */ seq![101u8, 120u8, 116u8]);
    assert(kx@ =~= /* x */ seq![120u8]);
    assert(ky@ =~= /* y */ seq![121u8]);
    assert(kcx@ =~= /* cx */ seq![99u8, 120u8]);
    assert(kcy@ =~= /* cy */ seq![99u8, 121u8]);
    let xf = match e.find_descendant(xn.as_slice()) {
        Some(xf) => xf,
        None => return None,
    };
    let off = xf.first_child_named(on.as_slice());
    let ext = xf.first_child_named(en.as_slice());
    proof {
        assert(first_child(*xf, /* off */ seq![111u8, 102u8, 102u8]) == match off { Some(x) => Some(*x), None => None::<Element> });
        assert(first_child(*xf, /* ext */ seq![101u8, 120u8, 116u8]) == match ext { Some(x) => Some(*x), None => None::<Element> });
    }
    let x = coord(off, kx.as_slice());
    let y = coord(off, ky.as_slice());
    let cx = coord(ext, kcx.as_slice());
    let cy = coord(ext, kcy.as_slice());
    match (x, y, cx, cy) {
        (Some(x), Some(y), Some(cx), Some(cy)) => Some((x, y, cx, cy)),
        _ => None,
    }
}

/// What the inventory reports of a shape.
fn extract_shape_info(e: &Element) -> (r: ShapeInfo)
    ensures
        info_of(r, *e),
{
    let shape_type = from_utf8_lossy(e.local_name());
    let cn: [u8; 5] = /* cNvPr */ [99u8, 78u8, 118u8, 80u8, 114u8];
    let idn: [u8; 2] = /* id */ [105u8, 100u8];
    let nn: [u8; 4] = /* name */ [110u8, 97u8, 109u8, 101u8];
    assert(cn@ =~= /* cNvPr */ seq![99u8, 78u8, 118u8, 80u8, 114u8]);
    assert(idn@ =~= /* id */ seq![105u8, 100u8]);
    assert(nn@ =~= /* name */ seq![110u8, 97u8, 109u8, 101u8]);
    let cnvpr = e.find_descendant(cn.as_slice());
    let id: u32 = match cnvpr {
        Some(c) => match c.attr(idn.as_slice()) {
            Some(v) => match parse_u32(v) {
                Some(n) => n,
                None => 0,
            },
            None => 0,
        },
        None => 0,
    };
    let name = match cnvpr {
        Some(c) => match c.attr(nn.as_slice()) {
            Some(v) => from_utf8_lossy(v),
            None => String::new(),
        },
        None => String::new(),
    };
    let geometry = geometry(e);
    let tb: [u8; 6] = /* txBody */ [116u8, 120u8, 66u8, 111u8, 100u8, 121u8];
    let pn: [u8; 1] = /* p */ [112u8];
    assert(tb@ =~= /* txBody */ seq![116u8, 120u8, 66u8, 111u8, 100u8, 121u8]);
    assert(pn@ =~= /* p */ seq![112u8]);
    let text = match e.find_descendant(tb.as_slice()) {
        Some(tx) => {
            let ps = tx.children_named(pn.as_slice());
            let t = join_paragraph_texts(&ps);
            proof {
                assert(crate::paragraph::paragraph_texts(ps@) =~= texts_of(named_children(tx.children@, /* p */ seq![112u8])));
            }
            Some(t)
        },
        None => None,
    };
    ShapeInfo { id, name, shape_type, geometry, text }
}

impl SlideDom {
    /// What the inventory reports of every shape of the shape tree (any
    /// kind), in order; nothing when there is no shape tree.
    pub fn shape_inventory(&self) -> (r: Vec<ShapeInfo>)
        ensures
            match tree_path(self.document()) {
                Some(tp) => {
                    let ks = kind_children(doc_at(self.document(), tp).children@, kind_drawable());
                    &&& r@.len() == ks.len()
                    &&& forall|j: int| 0 <= j < r@.len() ==> info_of(#[trigger] r@[j], ks[j])
                },
                None => r@.len() == 0,
            },
    {
        let shapes = self.all_shapes();
        let mut out: Vec<ShapeInfo> = Vec::new();
        let mut i: usize = 0;
        while i < shapes.len()
            invariant
                i <= shapes@.len(),
                out@.len() == i,
                forall|j: int| 0 <= j < i ==> info_of(#[trigger] out@[j], *shapes@[j]),
            decreases shapes@.len() - i,
        {
            out.push(extract_shape_info(shapes[i]));
            i = i + 1;
        }
        out
    }
}

} // verus!
