//! The notes slide (`ppt/notesSlides/notesSlideN.xml`) as an editable tree.
//!
//! Edits rewrite the body placeholder's paragraphs in place; every other byte
//! of the part is kept.

use vstd::prelude::*;
use crate::error::OxmlError;
use crate::paragraph::{
    join_lines, join_paragraph_texts, lines_of, make_templated_paragraph, opt_bytes, paragraph_text_spec,
    paragraph_texts, templated_para_bytes, text_lines,
};
use crate::slide_dom::placeholders::{first_ppr_template, ppr_template};
use crate::slide_dom::shapes::declared_ph_type;
use crate::text::{push_chars, string_of};
use crate::xml::{
    elem_v, free_of, holds_none, lemma_desc_path_stable_free, lemma_holds_none, nodes_free_of, lemma_desc_path_view, nodes_v, parsed_nodes,
    alike, at_path, attr_value, copy_element, desc_path, doc_replaced, doc_root, element_at, first_child,
    first_named_index, is_named, lemma_at_path_concat, lemma_desc_path, lemma_desc_path_stable, lemma_doc_replaced_root,
    lemma_first_named_index, lemma_replaced_below, lemma_replaced_valid, lemma_search_before_prefix, named_children,
    node_bytes, replaced_at, same_tags, search_before, valid_path, Document, Element, Node,
};
use crate::bytes::bytes_eq;

verus! {

/// A notes-slide part as an editable tree.
#[derive(Debug, PartialEq)]
pub struct NotesDom {
    doc: Document,
}

/// Whether a shape carries the body placeholder: its first `ph` descendant
/// has type `body`, or no type (body is the default).
pub open spec fn is_body_ph(sp: Element) -> bool {
    match crate::xml::find_desc(sp, /* ph */ seq![112u8, 104u8]) {
        Some(ph) => match attr_value(ph, /* type */ seq![116u8, 121u8, 112u8, 101u8]) {
            Some(t) => t == /* body */ seq![98u8, 111u8, 100u8, 121u8],
            None => true,
        },
        None => false,
    }
}

/// Whether a node is a body-placeholder shape (`p:sp`).
pub open spec fn is_body_shape(n: Node) -> bool {
    n matches Node::Element(e) && e.local() == /* sp */ seq![115u8, 112u8] && is_body_ph(e)
}

/// Index of the first body-placeholder shape among `ns` from `i` on, or -1.
pub open spec fn body_index_from(ns: Seq<Node>, i: int) -> int
    decreases ns.len() - i,
{
    if i < 0 || i >= ns.len() {
        -1
    } else if is_body_shape(ns[i]) {
        i
    } else {
        body_index_from(ns, i + 1)
    }
}

proof fn lemma_body_index(ns: Seq<Node>, i: int)
    ensures
        body_index_from(ns, i) >= 0 ==> i <= body_index_from(ns, i) < ns.len()
            && is_body_shape(ns[body_index_from(ns, i)]),
    decreases ns.len() - i,
{
    if 0 <= i < ns.len() && !is_body_shape(ns[i]) {
        lemma_body_index(ns, i + 1);
    }
}

/// Path from the root to the body placeholder shape, through the shape tree.
pub open spec fn notes_body_path(d: Document) -> Option<Seq<usize>> {
    match doc_root(d) {
        Some(root) => match desc_path(root, /* spTree */ seq![115u8, 112u8, 84u8, 114u8, 101u8, 101u8]) {
            Some(tp) => {
                let bi = body_index_from(at_path(root, tp).children@, 0);
                if bi >= 0 {
                    Some(tp.push(bi as usize))
                } else {
                    None
                }
            },
            None => None,
        },
        None => None,
    }
}

/// Path from the root to the body placeholder's text body.
pub open spec fn notes_tx_path(d: Document) -> Option<Seq<usize>> {
    match notes_body_path(d) {
        Some(bp) => match desc_path(at_path(doc_root(d).unwrap(), bp), /* txBody */ seq![116u8, 120u8, 66u8, 111u8, 100u8, 121u8]) {
            Some(q) => Some(bp + q),
            None => None,
        },
        None => None,
    }
}

/// The text of each of a sequence of paragraphs.
pub open spec fn texts_of(ps: Seq<Element>) -> Seq<Seq<char>> {
    Seq::new(ps.len(), |k: int| paragraph_text_spec(ps[k]))
}

/// The notes text: the body text's paragraphs joined by `\n`; empty when
/// there is no body placeholder or it has no text body.
pub open spec fn notes_text_of(d: Document) -> Seq<char> {
    match notes_tx_path(d) {
        Some(p) => join_lines(texts_of(named_children(at_path(doc_root(d).unwrap(), p).children@, /* p */ seq![112u8]))),
        None => Seq::empty(),
    }
}

/// The first run among paragraphs `ps` (in order).
pub open spec fn first_run(ps: Seq<Element>) -> Option<Element>
    decreases ps.len(),
{
    if ps.len() == 0 {
        None
    } else {
        match first_child(ps[0], /* r */ seq![114u8]) {
            Some(r) => Some(r),
            None => first_run(ps.drop_first()),
        }
    }
}

/// The run properties that new paragraphs copy: those of the first run of
/// the first paragraph that has a run.
pub open spec fn rpr_template(tx: Element) -> Option<Element> {
    match first_run(named_children(tx.children@, /* p */ seq![112u8])) {
        Some(r) => first_child(r, /* rPr */ seq![114u8, 80u8, 114u8]),
        None => None,
    }
}

/// The children that are not paragraphs, in order.
pub open spec fn non_paragraphs(ns: Seq<Node>) -> Seq<Node>
    decreases ns.len(),
{
    if ns.len() == 0 {
        Seq::empty()
    } else {
        let r = non_paragraphs(ns.drop_last());
        if is_named(ns.last(), /* p */ seq![112u8]) {
            r
        } else {
            r.push(ns.last())
        }
    }
}

/// `new_tx` is `old_tx` with its paragraphs replaced by one fresh paragraph
/// per line of `text`, each copying the first paragraph's properties and the
/// first run's properties; its other children stay, in order, before them.
pub open spec fn paragraphs_rewritten(old_tx: Element, new_tx: Element, text: Seq<char>) -> bool {
    let kept = non_paragraphs(old_tx.children@);
    let lines = text_lines(text);
    &&& same_tags(old_tx, new_tx)
    &&& new_tx.children@.len() == kept.len() + lines.len()
    &&& new_tx.children@.take(kept.len() as int) == kept
    &&& forall|k: int| 0 <= k < lines.len() ==> {
        &&& (#[trigger] new_tx.children@[kept.len() + k]) is Element
        &&& is_named(new_tx.children@[kept.len() + k], /* p */ seq![112u8])
        &&& paragraph_text_spec(new_tx.children@[kept.len() + k]->Element_0) == lines[k]
        &&& node_bytes(new_tx.children@[kept.len() + k]) == templated_para_bytes(
            lines[k],
            ppr_template(old_tx),
            rpr_template(old_tx),
        )
        &&& opt_free(ppr_template(old_tx), /* ph */ seq![112u8, 104u8]) && opt_free(rpr_template(old_tx), /* ph */ seq![112u8, 104u8]) ==> holds_none(
            new_tx.children@[kept.len() + k]->Element_0,
            /* ph */ seq![112u8, 104u8],
        )
    }
}

/// Whether an optional element is free of elements named `local`.
pub open spec fn opt_free(o: Option<Element>, local: Seq<u8>) -> bool {
    o matches Some(x) ==> free_of(x, local)
}

proof fn lemma_named_concat(a: Seq<Node>, b: Seq<Node>, local: Seq<u8>)
    ensures
        named_children(a + b, local) == named_children(a, local) + named_children(b, local),
    decreases b.len(),
{
    if b.len() == 0 {
        assert(a + b =~= a);
        assert(named_children(a, local) + named_children(b, local) =~= named_children(a, local));
    } else {
        lemma_named_concat(a, b.drop_last(), local);
        assert((a + b).drop_last() =~= a + b.drop_last());
        assert((a + b).last() == b.last());
        if is_named(b.last(), local) {
            assert(named_children(a + b, local) =~= named_children(a, local) + named_children(b, local));
        } else {
            assert(named_children(a + b, local) =~= named_children(a, local) + named_children(b, local));
        }
    }
}

proof fn lemma_no_paragraphs_left(ns: Seq<Node>)
    ensures
        named_children(non_paragraphs(ns), /* p */ seq![112u8]) == Seq::<Element>::empty(),
    decreases ns.len(),
{
    if ns.len() > 0 {
        lemma_no_paragraphs_left(ns.drop_last());
        if !is_named(ns.last(), /* p */ seq![112u8]) {
            let r = non_paragraphs(ns.drop_last());
            assert(r.push(ns.last()).drop_last() =~= r);
        }
    }
}

proof fn lemma_named_all(ps: Seq<Node>, local: Seq<u8>)
    requires
        forall|k: int| 0 <= k < ps.len() ==> is_named(#[trigger] ps[k], local),
    ensures
        named_children(ps, local).len() == ps.len(),
        forall|k: int| 0 <= k < ps.len() ==> named_children(ps, local)[k] == (#[trigger] ps[k])->Element_0,
    decreases ps.len(),
{
    if ps.len() > 0 {
        assert forall|k: int| 0 <= k < ps.drop_last().len() implies is_named(#[trigger] ps.drop_last()[k], local) by {
            assert(ps.drop_last()[k] == ps[k]);
        }
        lemma_named_all(ps.drop_last(), local);
        assert(is_named(ps[ps.len() - 1], local));
        assert forall|k: int| 0 <= k < ps.len() implies named_children(ps, local)[k] == (#[trigger] ps[k])->Element_0 by {
            if k < ps.len() - 1 {
                assert(ps.drop_last()[k] == ps[k]);
            }
        }
    }
}

/// The text body that `set_notes_text` writes reads back the text: the
/// texts of its paragraphs, joined by `\n`, are `text`, when it holds no
/// `\r` and does not end with `\n`.
pub proof fn lemma_rewritten_reads_back(old_tx: Element, new_tx: Element, text: Seq<char>)
    requires
        paragraphs_rewritten(old_tx, new_tx, text),
        !text.contains('\r'),
        text.len() > 0 ==> text.last() != '\n',
    ensures
        join_lines(texts_of(named_children(new_tx.children@, /* p */ seq![112u8]))) == text,
{
    let kept = non_paragraphs(old_tx.children@);
    let lines = text_lines(text);
    let ns = new_tx.children@;
    let ps = ns.skip(kept.len() as int);
    assert(ns =~= kept + ps);
    lemma_named_concat(kept, ps, /* p */ seq![112u8]);
    lemma_no_paragraphs_left(old_tx.children@);
    assert forall|k: int| 0 <= k < ps.len() implies is_named(#[trigger] ps[k], /* p */ seq![112u8]) by {
        assert(ps[k] == ns[kept.len() + k]);
    }
    lemma_named_all(ps, /* p */ seq![112u8]);
    let named = named_children(ns, /* p */ seq![112u8]);
    assert(named =~= named_children(ps, /* p */ seq![112u8]));
    assert(texts_of(named) =~= lines) by {
        assert forall|k: int| 0 <= k < lines.len() implies texts_of(named)[k] == lines[k] by {
            assert(ps[k] == ns[kept.len() + k]);
            assert(named[k] == ps[k]->Element_0);
        }
    }
    crate::paragraph::lemma_lines_join_back(text);
}

/// What a successful `set_notes_text(text)` makes of a part: the body
/// placeholder's text body, and nothing else, is replaced by one whose
/// paragraphs are rewritten from `text`.
pub open spec fn notes_rewritten(old: Document, new: Document, text: Seq<char>) -> bool {
    &&& notes_tx_path(old) is Some
    &&& exists|new_tx: Element| {
        &&& doc_replaced(old, new, notes_tx_path(old).unwrap(), new_tx)
        &&& #[trigger] paragraphs_rewritten(at_path(doc_root(old).unwrap(), notes_tx_path(old).unwrap()), new_tx, text)
    }
}

/// Whether, within the body placeholder shape, the placeholder mark is met
/// before the text body in document order (as where the shape's non-visual
/// properties come before its text).
pub open spec fn mark_before_text(d: Document) -> bool {
    match notes_body_path(d) {
        Some(bp) => {
            let sp = at_path(doc_root(d).unwrap(), bp);
            match (desc_path(sp, /* ph */ seq![112u8, 104u8]), desc_path(sp, /* txBody */ seq![116u8, 120u8, 66u8, 111u8, 100u8, 121u8])) {
                (Some(a), Some(b)) => search_before(a, b),
                _ => true,
            }
        },
        None => true,
    }
}

proof fn lemma_body_index_same(a: Seq<Node>, b: Seq<Node>, i: int, bi: int)
    requires
        0 <= i <= bi < a.len(),
        a.len() == b.len(),
        body_index_from(a, i) == bi,
        forall|j: int| i <= j < bi ==> b[j] == a[j],
        is_body_shape(b[bi]),
    ensures
        body_index_from(b, i) == bi,
    decreases bi - i,
{
    if i < bi {
        assert(b[i] == a[i]);
        lemma_body_index_same(a, b, i + 1, bi);
    }
}

/// Whether the body placeholder's text body holds no placeholder mark.
pub open spec fn text_body_unmarked(d: Document) -> bool {
    notes_tx_path(d) matches Some(p) ==> holds_none(at_path(doc_root(d).unwrap(), p), /* ph */ seq![112u8, 104u8])
}

proof fn lemma_first_child_free(e: Element, name: Seq<u8>, l: Seq<u8>)
    requires
        holds_none(e, l),
    ensures
        opt_free(first_child(e, name), l),
{
    lemma_first_named_index(e.children@, name);
    lemma_holds_none(e, l);
    let i = first_named_index(e.children@, name);
    if i >= 0 {
        assert(e.children@[i] is Element);
    }
}

proof fn lemma_named_free(ns: Seq<Node>, name: Seq<u8>, l: Seq<u8>)
    requires
        nodes_free_of(ns, l),
    ensures
        forall|k: int| 0 <= k < named_children(ns, name).len() ==> free_of(#[trigger] named_children(ns, name)[k], l),
    decreases ns.len(),
{
    if ns.len() > 0 {
        assert forall|i: int| 0 <= i < ns.drop_last().len() && #[trigger] ns.drop_last()[i] is Element implies free_of(
            ns.drop_last()[i]->Element_0,
            l,
        ) by {
            assert(ns.drop_last()[i] == ns[i]);
        }
        lemma_named_free(ns.drop_last(), name, l);
        let rest = named_children(ns.drop_last(), name);
        if is_named(ns.last(), name) {
            assert(ns[ns.len() - 1] is Element);
            assert(free_of(ns[ns.len() - 1]->Element_0, l));
            assert forall|k: int| 0 <= k < named_children(ns, name).len() implies free_of(
                #[trigger] named_children(ns, name)[k],
                l,
            ) by {
                if k < rest.len() {
                    assert(named_children(ns, name)[k] == rest[k]);
                }
            }
        }
    }
}

proof fn lemma_first_run_free(ps: Seq<Element>, l: Seq<u8>)
    requires
        forall|k: int| 0 <= k < ps.len() ==> free_of(#[trigger] ps[k], l),
    ensures
        opt_free(first_run(ps), l),
    decreases ps.len(),
{
    if ps.len() > 0 {
        assert(free_of(ps[0], l));
        lemma_first_child_free(ps[0], /* r */ seq![114u8], l);
        assert forall|k: int| 0 <= k < ps.drop_first().len() implies free_of(#[trigger] ps.drop_first()[k], l) by {
            assert(ps.drop_first()[k] == ps[k + 1]);
        }
        lemma_first_run_free(ps.drop_first(), l);
    }
}

proof fn lemma_non_paragraphs_free(ns: Seq<Node>, l: Seq<u8>)
    requires
        nodes_free_of(ns, l),
    ensures
        nodes_free_of(non_paragraphs(ns), l),
    decreases ns.len(),
{
    if ns.len() > 0 {
        assert forall|i: int| 0 <= i < ns.drop_last().len() && #[trigger] ns.drop_last()[i] is Element implies free_of(
            ns.drop_last()[i]->Element_0,
            l,
        ) by {
            assert(ns.drop_last()[i] == ns[i]);
        }
        lemma_non_paragraphs_free(ns.drop_last(), l);
        let r = non_paragraphs(ns.drop_last());
        if !is_named(ns.last(), /* p */ seq![112u8]) {
            assert forall|i: int| 0 <= i < r.push(ns.last()).len() && #[trigger] r.push(ns.last())[i] is Element implies free_of(
                r.push(ns.last())[i]->Element_0,
                l,
            ) by {
                if i < r.len() {
                    assert(r.push(ns.last())[i] == r[i]);
                } else {
                    assert(ns[ns.len() - 1] == ns.last());
                }
            }
        }
    }
}

/// A text body free of placeholder marks stays free of them when its
/// paragraphs are rewritten.
proof fn lemma_rewritten_unmarked(old_tx: Element, new_tx: Element, text: Seq<char>)
    requires
        paragraphs_rewritten(old_tx, new_tx, text),
        holds_none(old_tx, /* ph */ seq![112u8, 104u8]),
    ensures
        holds_none(new_tx, /* ph */ seq![112u8, 104u8]),
{
    let l = /* ph */ seq![112u8, 104u8];
    lemma_holds_none(old_tx, l);
    // the templates lie inside the old text body
    lemma_first_child_free(old_tx, /* p */ seq![112u8], l);
    if first_child(old_tx, /* p */ seq![112u8]) is Some {
        let p = first_child(old_tx, /* p */ seq![112u8]).unwrap();
        lemma_holds_none(p, l);
        lemma_first_child_free(p, /* pPr */ seq![112u8, 80u8, 114u8], l);
    }
    assert(opt_free(ppr_template(old_tx), l));
    lemma_named_free(old_tx.children@, /* p */ seq![112u8], l);
    lemma_first_run_free(named_children(old_tx.children@, /* p */ seq![112u8]), l);
    if first_run(named_children(old_tx.children@, /* p */ seq![112u8])) is Some {
        lemma_first_child_free(first_run(named_children(old_tx.children@, /* p */ seq![112u8])).unwrap(), /* rPr */ seq![114u8, 80u8, 114u8], l);
    }
    assert(opt_free(rpr_template(old_tx), l));
    // the kept children and the new paragraphs
    let kept = non_paragraphs(old_tx.children@);
    lemma_non_paragraphs_free(old_tx.children@, l);
    let ns = new_tx.children@;
    assert forall|i: int| 0 <= i < ns.len() && #[trigger] ns[i] is Element implies free_of(ns[i]->Element_0, l) by {
        if i < kept.len() {
            assert(ns.take(kept.len() as int)[i] == ns[i]);
            assert(kept[i] == ns[i]);
            assert(kept[i] is Element);
            assert(free_of(kept[i]->Element_0, l));
        } else {
            let k = i - kept.len();
            assert(kept.len() + k == i);
            assert(0 <= k < text_lines(text).len());
            let n = new_tx.children@[kept.len() + k];
            assert(n is Element);
            assert(is_named(n, /* p */ seq![112u8]));
            assert(holds_none(n->Element_0, l));
            assert(n->Element_0.local() == /* p */ seq![112u8]);
            assert(/* p */ seq![112u8].len() != l.len());
            assert(free_of(n->Element_0, l));
            assert(n == ns[i]);
        }
    }
    lemma_holds_none(new_tx, l);
}

/// Reading the notes text back after setting it gives the text set: when
/// `set_notes_text(text)` has turned `before` into `after`, `notes_text()` of
/// `after` is `text`, for a text that holds no `\r` and does not end with
/// `\n`, in a part whose body shape's text body holds no placeholder mark,
/// or has the shape's mark before it.
pub proof fn lemma_set_notes_text_reads_back(before: NotesDom, after: NotesDom, text: Seq<char>)
    requires
        notes_rewritten(before.document(), after.document(), text),
        !text.contains('\r'),
        text.len() > 0 ==> text.last() != '\n',
        mark_before_text(before.document()) || text_body_unmarked(before.document()),
    ensures
        notes_text_of(after.document()) == text,
{
    let d0 = before.document();
    let d1 = after.document();
    let p = notes_tx_path(d0).unwrap();
    let root0 = doc_root(d0).unwrap();
    let old_tx = at_path(root0, p);
    let new_tx = choose|t: Element| doc_replaced(d0, d1, p, t) && #[trigger] paragraphs_rewritten(old_tx, t, text);
    lemma_doc_replaced_root(d0, d1, p, new_tx);
    let root1 = doc_root(d1).unwrap();
    let tp = desc_path(root0, /* spTree */ seq![115u8, 112u8, 84u8, 114u8, 101u8, 101u8]).unwrap();
    lemma_desc_path(root0, /* spTree */ seq![115u8, 112u8, 84u8, 114u8, 101u8, 101u8]);
    let tree0 = at_path(root0, tp);
    let bi = body_index_from(tree0.children@, 0);
    lemma_body_index(tree0.children@, 0);
    assert(notes_body_path(d0) is Some);
    assert(0 <= bi < tree0.children@.len());
    assert(tree0.children.len() == tree0.children@.len());
    let bs = seq![bi as usize];
    assert(bs[0] as int == bi);
    let bp = tp.push(bi as usize);
    assert(bp =~= tp + bs);
    assert(bs.drop_first() =~= Seq::<usize>::empty());
    let sp0 = tree0.children@[bi]->Element_0;
    assert(valid_path(sp0, bs.drop_first()));
    assert(at_path(sp0, bs.drop_first()) == sp0);
    assert(valid_path(tree0, bs));
    assert(at_path(tree0, bs) == sp0);
    lemma_at_path_concat(root0, tp, bs);
    assert(at_path(root0, bp) == sp0);
    let q2 = desc_path(sp0, /* txBody */ seq![116u8, 120u8, 66u8, 111u8, 100u8, 121u8]).unwrap();
    lemma_desc_path(sp0, /* txBody */ seq![116u8, 120u8, 66u8, 111u8, 100u8, 121u8]);
    assert(p == bp + q2);
    lemma_at_path_concat(root0, bp, q2);
    let rest = bs + q2;
    assert(p =~= tp + rest);
    lemma_at_path_concat(root0, tp, rest);
    assert(rest.drop_first() =~= q2);
    assert(rest[0] == bi as usize);
    assert(same_tags(old_tx, new_tx));
    // the shape tree is found where it was
    lemma_search_before_prefix(tp, rest);
    lemma_desc_path_stable(root0, root1, p, new_tx, /* spTree */ seq![115u8, 112u8, 84u8, 114u8, 101u8, 101u8]);
    lemma_replaced_below(root0, root1, tp, rest, new_tx);
    let tree1 = at_path(root1, tp);
    assert(replaced_at(tree0, tree1, rest, new_tx));
    let sp1 = tree1.children@[bi]->Element_0;
    assert(replaced_at(sp0, sp1, q2, new_tx));
    assert(same_tags(sp0, sp1));
    assert(at_path(sp0, q2) == old_tx);
    // the body shape is still the first body placeholder
    if text_body_unmarked(d0) {
        assert(holds_none(old_tx, /* ph */ seq![112u8, 104u8]));
        lemma_rewritten_unmarked(old_tx, new_tx, text);
        lemma_desc_path(sp0, /* txBody */ seq![116u8, 120u8, 66u8, 111u8, 100u8, 121u8]);
        lemma_desc_path_stable_free(sp0, sp1, q2, new_tx, /* ph */ seq![112u8, 104u8]);
    } else {
        let a = desc_path(sp0, /* ph */ seq![112u8, 104u8]).unwrap();
        assert(search_before(a, q2));
        lemma_desc_path_stable(sp0, sp1, q2, new_tx, /* ph */ seq![112u8, 104u8]);
    }
    assert(is_body_ph(sp1));
    assert(is_body_shape(tree1.children@[bi]));
    assert forall|j: int| 0 <= j < bi implies tree1.children@[j] == tree0.children@[j] by {}
    lemma_body_index_same(tree0.children@, tree1.children@, 0, bi);
    assert(tree1.children@[bi] is Element);
    assert(valid_path(sp1, bs.drop_first()));
    assert(valid_path(tree1, bs));
    assert(at_path(sp1, bs.drop_first()) == sp1);
    assert(at_path(tree1, bs) == sp1);
    lemma_at_path_concat(root1, tp, bs);
    assert(notes_body_path(d1) == Some(bp));
    // the text body is found where it was
    assert(q2 + Seq::<usize>::empty() =~= q2);
    lemma_search_before_prefix(q2, Seq::<usize>::empty());
    lemma_desc_path_stable(sp0, sp1, q2, new_tx, /* txBody */ seq![116u8, 120u8, 66u8, 111u8, 100u8, 121u8]);
    assert(notes_tx_path(d1) == Some(p));
    lemma_replaced_valid(root0, root1, p, new_tx);
    lemma_rewritten_reads_back(old_tx, new_tx, text);
}

/// Which notes shapes are the body placeholder, by the `type` their first
/// `ph` declares: `body`, or no type at all.
pub proof fn lemma_notes_body_shapes(n: Node)
    ensures
        is_body_shape(n) <==> (declared_ph_type(n) == Some(None::<Seq<u8>>) || declared_ph_type(n) == Some(Some(/* body */ seq![98u8, 111u8, 100u8, 121u8]))),
{
}

/// `body_index_from` from `k` lands on `i` when node `i` is a body
/// placeholder shape and none between `k` and `i` is.
proof fn lemma_body_index_at(ns: Seq<Node>, k: int, i: int)
    requires
        0 <= k <= i < ns.len(),
        is_body_shape(ns[i]),
        forall|j: int| k <= j < i ==> !is_body_shape(#[trigger] ns[j]),
    ensures
        body_index_from(ns, k) == i,
    decreases i - k,
{
    if k < i {
        lemma_body_index_at(ns, k + 1, i);
    }
}

/// A notes shape whose placeholder has no `type` is the body placeholder
/// (body is the default type): when the first shape of the shape tree whose
/// placeholder is untyped or `body` is untyped, the notes text is read from
/// its text body and `set_notes_text` rewrites that text body.
pub proof fn lemma_untyped_placeholder_is_notes_body(d: Document, tp: Seq<usize>, i: usize)
    requires
        doc_root(d) is Some,
        desc_path(doc_root(d).unwrap(), /* spTree */ seq![115u8, 112u8, 84u8, 114u8, 101u8, 101u8]) == Some(tp),
        i < at_path(doc_root(d).unwrap(), tp).children@.len(),
        declared_ph_type(at_path(doc_root(d).unwrap(), tp).children@[i as int]) == Some(None::<Seq<u8>>),
        forall|j: int|
            0 <= j < i ==> {
                &&& declared_ph_type(#[trigger] at_path(doc_root(d).unwrap(), tp).children@[j]) != Some(None::<Seq<u8>>)
                &&& declared_ph_type(at_path(doc_root(d).unwrap(), tp).children@[j]) != Some(Some(/* body */ seq![98u8, 111u8, 100u8, 121u8]))
            },
    ensures
        notes_body_path(d) == Some(tp.push(i)),
        notes_tx_path(d) == (match desc_path(at_path(doc_root(d).unwrap(), tp).children@[i as int]->Element_0, /* txBody */ seq![116u8, 120u8, 66u8, 111u8, 100u8, 121u8]) {
            Some(q) => Some(tp.push(i) + q),
            None => None,
        }),
        notes_text_of(d) == (match crate::xml::find_desc(
            at_path(doc_root(d).unwrap(), tp).children@[i as int]->Element_0,
            /* txBody */ seq![116u8, 120u8, 66u8, 111u8, 100u8, 121u8],
        ) {
            Some(tx) => join_lines(texts_of(named_children(tx.children@, /* p */ seq![112u8]))),
            None => Seq::<char>::empty(),
        }),
{
    let root = doc_root(d).unwrap();
    let ns = at_path(root, tp).children@;
    let e = ns[i as int]->Element_0;
    assert(is_body_shape(ns[i as int]));
    assert forall|j: int| 0 <= j < i implies !is_body_shape(#[trigger] ns[j]) by {
        assert(declared_ph_type(ns[j]) != Some(None::<Seq<u8>>));
    }
    lemma_body_index_at(ns, 0, i as int);
    lemma_desc_path(root, /* spTree */ seq![115u8, 112u8, 84u8, 114u8, 101u8, 101u8]);
    lemma_at_path_concat(root, tp, seq![i]);
    assert(tp + seq![i] =~= tp.push(i));
    assert(seq![i].drop_first() =~= Seq::<usize>::empty());
    assert(at_path(e, Seq::<usize>::empty()) == e);
    assert(at_path(root, tp.push(i)) == e);
    assert(valid_path(e, Seq::<usize>::empty()));
    assert(valid_path(root, tp.push(i)));
    match desc_path(e, /* txBody */ seq![116u8, 120u8, 66u8, 111u8, 100u8, 121u8]) {
        Some(q) => {
            lemma_at_path_concat(root, tp.push(i), q);
        },
        None => {},
    }
}

fn is_body_placeholder(sp: &Element) -> (r: bool)
    ensures
        r == is_body_ph(*sp),
{
    let ph_name: [u8; 2] = /* ph */ [112u8, 104u8];
    assert(ph_name@ =~= /* ph */ seq![112u8, 104u8]);
    match sp.find_descendant(ph_name.as_slice()) {
        Some(ph) => {
            let ph_type_attr: [u8; 4] = /* type */ [116u8, 121u8, 112u8, 101u8];
            assert(ph_type_attr@ =~= /* type */ seq![116u8, 121u8, 112u8, 101u8]);
            match ph.attr(ph_type_attr.as_slice()) {
                Some(t) => {
                    let body: [u8; 4] = /* body */ [98u8, 111u8, 100u8, 121u8];
                    assert(body@ =~= /* body */ seq![98u8, 111u8, 100u8, 121u8]);
                    bytes_eq(t, body.as_slice())
                },
                None => true,
            }
        },
        None => false,
    }
}

fn body_index(tree: &Element) -> (r: Option<usize>)
    ensures
        match r {
            Some(i) => body_index_from(tree.children@, 0) == i,
            None => body_index_from(tree.children@, 0) < 0,
        },
{
    let sp_name: [u8; 2] = /* sp */ [115u8, 112u8];
    assert(sp_name@ =~= /* sp */ seq![115u8, 112u8]);
    let mut i: usize = 0;
    while i < tree.children.len()
        invariant
            i <= tree.children@.len(),
            sp_name@ == /* sp */ seq![115u8, 112u8],
            body_index_from(tree.children@, 0) == body_index_from(tree.children@, i as int),
        decreases tree.children@.len() - i,
    {
        if let Node::Element(sp) = &tree.children[i] {
            if sp.is_named(sp_name.as_slice()) && is_body_placeholder(sp) {
                return Some(i);
            }
        }
        i = i + 1;
    }
    None
}

/// Path to the body placeholder's text body, computed.
fn tx_path(d: &Document) -> (r: Option<Vec<usize>>)
    ensures
        match r {
            Some(p) => notes_tx_path(*d) == Some(p@) && valid_path(doc_root(*d).unwrap(), p@),
            None => notes_tx_path(*d) is None,
        },
{
    let root = match d.root() {
        Some(r) => r,
        None => return None,
    };
    let tree_name: [u8; 6] = /* spTree */ [115u8, 112u8, 84u8, 114u8, 101u8, 101u8];
    assert(tree_name@ =~= /* spTree */ seq![115u8, 112u8, 84u8, 114u8, 101u8, 101u8]);
    let mut path = match root.find_descendant_path(tree_name.as_slice()) {
        Some(p) => p,
        None => return None,
    };
    proof { lemma_desc_path(*root, /* spTree */ seq![115u8, 112u8, 84u8, 114u8, 101u8, 101u8]); }
    assert(path@.skip(0) =~= path@);
    let tree = element_at(root, &path, 0);
    let bi = match body_index(tree) {
        Some(i) => i,
        None => return None,
    };
    let ghost tp = path@;
    path.push(bi);
    proof {
        lemma_body_index(tree.children@, 0);
        lemma_at_path_concat(*root, tp, seq![bi]);
        assert(tp + seq![bi] =~= path@);
        let child = tree.children@[bi as int]->Element_0;
        assert(seq![bi].drop_first() =~= Seq::<usize>::empty());
        assert(at_path(child, Seq::<usize>::empty()) == child);
        assert(valid_path(child, Seq::<usize>::empty()));
        assert(at_path(*tree, seq![bi]) == child);
        assert(valid_path(*tree, seq![bi]));
    }
    assert(path@.skip(0) =~= path@);
    let sp = element_at(root, &path, 0);
    let tx_name: [u8; 6] = /* txBody */ [116u8, 120u8, 66u8, 111u8, 100u8, 121u8];
    assert(tx_name@ =~= /* txBody */ seq![116u8, 120u8, 66u8, 111u8, 100u8, 121u8]);
    let q = match sp.find_descendant_path(tx_name.as_slice()) {
        Some(q) => q,
        None => return None,
    };
    proof {
        lemma_desc_path(*sp, /* txBody */ seq![116u8, 120u8, 66u8, 111u8, 100u8, 121u8]);
        lemma_at_path_concat(*root, path@, q@);
    }
    let ghost bp = path@;
    let mut q = q;
    path.append(&mut q);
    assert(path@ =~= bp + desc_path(*sp, /* txBody */ seq![116u8, 120u8, 66u8, 111u8, 100u8, 121u8]).unwrap());
    Some(path)
}

pub(crate) fn first_rpr_template(tx: &Element) -> (r: Option<Element>)
    ensures
        match (r, rpr_template(*tx)) {
            (Some(a), Some(b)) => alike(a, b) && b.local() == /* rPr */ seq![114u8, 80u8, 114u8] && elem_v(a) == elem_v(b),
            (None, None) => true,
            _ => false,
        },
{
    let p_name: [u8; 1] = /* p */ [112u8];
    assert(p_name@ =~= /* p */ seq![112u8]);
    let r_name: [u8; 1] = /* r */ [114u8];
    assert(r_name@ =~= /* r */ seq![114u8]);
    let rpr_name: [u8; 3] = /* rPr */ [114u8, 80u8, 114u8];
    assert(rpr_name@ =~= /* rPr */ seq![114u8, 80u8, 114u8]);
    let ps = tx.children_named(p_name.as_slice());
    let ghost named = named_children(tx.children@, /* p */ seq![112u8]);
    let mut k: usize = 0;
    assert(named.skip(0) =~= named);
    while k < ps.len()
        invariant
            k <= ps@.len(),
            named == named_children(tx.children@, /* p */ seq![112u8]),
            ps@.len() == named.len(),
            forall|j: int| 0 <= j < ps@.len() ==> *ps@[j] == named[j],
            r_name@ == /* r */ seq![114u8],
            rpr_name@ == /* rPr */ seq![114u8, 80u8, 114u8],
            first_run(named) == first_run(named.skip(k as int)),
        decreases ps@.len() - k,
    {
        let p = ps[k];
        proof {
            assert(named.skip(k as int)[0] == *p);
            assert(named.skip(k as int).drop_first() =~= named.skip(k + 1));
            lemma_first_named_index(p.children@, /* r */ seq![114u8]);
        }
        if let Some(run) = p.first_child_named(r_name.as_slice()) {
            proof {
                lemma_first_named_index(run.children@, /* rPr */ seq![114u8, 80u8, 114u8]);
                assert(first_child(*p, /* r */ seq![114u8]) == Some(*run));
                assert(first_run(named.skip(k as int)) == Some(*run));
            }
            return match run.first_child_named(rpr_name.as_slice()) {
                Some(rpr) => {
                    proof {
                        assert(first_child(*run, /* rPr */ seq![114u8, 80u8, 114u8]) == Some(*rpr));
                        assert(first_run(named) == Some(*run));
                        assert(named == named_children(tx.children@, /* p */ seq![112u8]));
                        assert(first_run(named_children(tx.children@, /* p */ seq![112u8])) == Some(*run));
                        assert(rpr_template(*tx) == Some(*rpr));
                    }
                    Some(copy_element(rpr))
                },
                None => {
                    proof {
                        assert(first_child(*run, /* rPr */ seq![114u8, 80u8, 114u8]) is None);
                    }
                    None
                },
            };
        }
        proof {
            assert(first_child(*p, /* r */ seq![114u8]) is None);
        }
        k = k + 1;
    }
    assert(named.skip(k as int) =~= Seq::<Element>::empty());
    None
}

pub(crate) fn drop_paragraphs(e: &mut Element)
    ensures
        same_tags(*old(e), *final(e)),
        final(e).children@ == non_paragraphs(old(e).children@),
{
    let p_name: [u8; 1] = /* p */ [112u8];
    assert(p_name@ =~= /* p */ seq![112u8]);
    let mut all: Vec<Node> = Vec::new();
    std::mem::swap(&mut all, &mut e.children);
    let ghost orig = all@;
    let mut kept: Vec<Node> = Vec::new();
    let ghost mut k: int = 0;
    assert(orig.skip(0) =~= orig);
    while all.len() > 0
        invariant
            0 <= k <= orig.len(),
            k + all@.len() == orig.len(),
            all@ == orig.skip(k),
            kept@ == non_paragraphs(orig.take(k)),
            p_name@ == /* p */ seq![112u8],
        decreases all@.len(),
    {
        let n = all.remove(0);
        proof {
            assert(n == orig[k]);
            assert(orig.take(k + 1).drop_last() =~= orig.take(k));
            assert(orig.take(k + 1).last() == n);
            assert(orig.skip(k + 1) =~= all@);
        }
        let is_p = match &n {
            Node::Element(x) => x.is_named(p_name.as_slice()),
            Node::Raw(_) => false,
        };
        if !is_p {
            kept.push(n);
        }
        proof { k = k + 1; }
    }
    assert(orig.take(orig.len() as int) =~= orig);
    e.children = kept;
}

/// The characters of `cs` as a string.
fn string_of_chars(cs: &Vec<char>) -> (r: String)
    ensures
        r@ == cs@,
{
    let mut s = String::new();
    push_chars(&mut s, cs.as_slice());
    s
}

impl NotesDom {
    /// The tree the part is held as.
    pub closed spec fn document(&self) -> Document {
        self.doc
    }

    /// Parse a notes-slide part.
    pub fn parse(src: &[u8]) -> (r: Result<NotesDom, OxmlError>)
        ensures
            r is Ok <==> parsed_nodes(src@) is Some,
            r matches Ok(n) ==> n.document().bytes() == src@ && Some(nodes_v(n.document().nodes@)) == parsed_nodes(
                src@,
            ),
    {
        match Document::parse(src) {
            Ok(doc) => Ok(NotesDom { doc }),
            Err(e) => Err(e),
        }
    }

    /// Serialize (byte-identical to the source while unedited).
    pub fn to_bytes(&self) -> (r: Vec<u8>)
        ensures
            r@ == self.document().bytes(),
    {
        self.doc.to_bytes()
    }

    /// The notes text: the body placeholder's paragraphs joined by `\n`;
    /// empty when there is no body placeholder or text body.
    pub fn notes_text(&self) -> (r: String)
        ensures
            r@ == notes_text_of(self.document()),
    {
        match tx_path(&self.doc) {
            Some(p) => {
                let root = self.doc.root().unwrap();
                assert(p@.skip(0) =~= p@);
                let tx = element_at(root, &p, 0);
                let p_name: [u8; 1] = /* p */ [112u8];
                assert(p_name@ =~= /* p */ seq![112u8]);
                let ps = tx.children_named(p_name.as_slice());
                let r = join_paragraph_texts(&ps);
                proof {
                    let named = named_children(tx.children@, /* p */ seq![112u8]);
                    assert forall|k: int| 0 <= k < named.len() implies paragraph_texts(ps@)[k] == texts_of(named)[k] by {
                        assert(*ps@[k] == named[k]);
                    }
                    assert(paragraph_texts(ps@) =~= texts_of(named));
                }
                r
            },
            None => String::new(),
        }
    }

    /// Replace the notes text: one paragraph per line of `text` (one empty
    /// paragraph for empty text), each copying the first existing
    /// paragraph's properties and the first existing run's properties;
    /// everything else in the part is kept. Fails, changing
    /// nothing, when there is no body placeholder or it has no text body.
    pub fn set_notes_text(&mut self, text: &str) -> (r: Result<(), OxmlError>)
        ensures
            r is Ok <==> notes_tx_path(old(self).document()) is Some,
            r is Err ==> final(self).document() == old(self).document(),
            r is Ok ==> notes_rewritten(old(self).document(), final(self).document(), text@),
    {
        let path = match tx_path(&self.doc) {
            Some(p) => p,
            None => {
                return Err(OxmlError::Parse(string_of("notes slide has no body placeholder with a text body")));
            },
        };
        let root = self.doc.root().unwrap();
        assert(path@.skip(0) =~= path@);
        let tmpl = first_rpr_template(element_at(root, &path, 0));
        let ptmpl = first_ppr_template(element_at(root, &path, 0));
        let lines = lines_of(text);
        let ghost old_tx = at_path(doc_root(self.doc).unwrap(), path@);
        let mut paras: Vec<Node> = Vec::new();
        let mut k: usize = 0;
        while k < lines.len()
            invariant
                k <= lines@.len(),
                lines@.len() == text_lines(text@).len(),
                forall|j: int| 0 <= j < lines@.len() ==> lines@[j]@ == text_lines(text@)[j],
                paras@.len() == k,
                old_tx == at_path(doc_root(self.doc).unwrap(), path@),
                self.doc == old(self).doc,
                match (tmpl, rpr_template(old_tx)) {
                    (Some(a), Some(b)) => alike(a, b) && b.local() == /* rPr */ seq![114u8, 80u8, 114u8] && elem_v(a) == elem_v(b),
                    (None, None) => true,
                    _ => false,
                },
                match (ptmpl, ppr_template(old_tx)) {
                    (Some(a), Some(b)) => alike(a, b) && b.local() == /* pPr */ seq![112u8, 80u8, 114u8] && elem_v(a) == elem_v(b),
                    (None, None) => true,
                    _ => false,
                },
                forall|j: int| 0 <= j < k ==> {
                    &&& (#[trigger] paras@[j]) is Element
                    &&& is_named(paras@[j], /* p */ seq![112u8])
                    &&& paragraph_text_spec(paras@[j]->Element_0) == text_lines(text@)[j]
                    &&& node_bytes(paras@[j]) == templated_para_bytes(
                        text_lines(text@)[j],
                        ppr_template(old_tx),
                        rpr_template(old_tx),
                    )
                    &&& opt_free(ppr_template(old_tx), /* ph */ seq![112u8, 104u8]) && opt_free(rpr_template(old_tx), /* ph */ seq![112u8, 104u8]) ==> holds_none(
                        paras@[j]->Element_0,
                        /* ph */ seq![112u8, 104u8],
                    )
                },
            decreases lines@.len() - k,
        {
            let line = string_of_chars(&lines[k]);
            let para = make_templated_paragraph(line.as_str(), &ptmpl, &tmpl);
            proof {
                assert(opt_bytes(tmpl) == opt_bytes(rpr_template(old_tx)));
                assert(opt_bytes(ptmpl) == opt_bytes(ppr_template(old_tx)));
                if opt_free(ppr_template(old_tx), /* ph */ seq![112u8, 104u8]) && opt_free(rpr_template(old_tx), /* ph */ seq![112u8, 104u8]) {
                    if ptmpl is Some {
                        lemma_desc_path_view(ptmpl.unwrap(), ppr_template(old_tx).unwrap(), /* ph */ seq![112u8, 104u8]);
                    }
                    if tmpl is Some {
                        lemma_desc_path_view(tmpl.unwrap(), rpr_template(old_tx).unwrap(), /* ph */ seq![112u8, 104u8]);
                    }
                    assert(ptmpl matches Some(x) ==> free_of(x, /* ph */ seq![112u8, 104u8]));
                    assert(tmpl matches Some(x) ==> free_of(x, /* ph */ seq![112u8, 104u8]));
                    assert(holds_none(para, /* ph */ seq![112u8, 104u8]));
                }
                assert(templated_para_bytes(line@, ptmpl, tmpl) == templated_para_bytes(
                    text_lines(text@)[k as int],
                    ppr_template(old_tx),
                    rpr_template(old_tx),
                ));
            }
            paras.push(Node::Element(para));
            k = k + 1;
        }
        let tx = self.doc.element_at_mut(&path).unwrap();
        drop_paragraphs(tx);
        let ghost kept = tx.children@;
        let ghost new_paras = paras@;
        tx.children.append(&mut paras);
        proof {
            assert(tx.children@ =~= kept + new_paras);
            assert(tx.children@.take(kept.len() as int) =~= kept);
            assert forall|j: int| 0 <= j < new_paras.len() implies #[trigger] tx.children@[kept.len() + j] == new_paras[j] by {}
            assert(same_tags(old_tx, *tx));
            assert(kept == non_paragraphs(old_tx.children@));
            assert(tx.children@.len() == kept.len() + text_lines(text@).len());
        }
        let ghost new_tx = *tx;
        assert(paragraphs_rewritten(old_tx, new_tx, text@));
        assert(doc_replaced(old(self).doc, self.doc, path@, new_tx));
        assert(old(self).document() == old(self).doc);
        assert(self.document() == self.doc);
        assert(notes_tx_path(old(self).document()).unwrap() == path@);
        assert(old_tx == at_path(doc_root(old(self).document()).unwrap(), notes_tx_path(old(self).document()).unwrap()));
        Ok(())
    }
}

} // verus!
