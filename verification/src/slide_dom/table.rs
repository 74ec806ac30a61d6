//! Tables (`a:tbl` inside a `p:graphicFrame`): rows, columns, merged cells
//! and cell properties.

use vstd::prelude::*;
use vstd::utf8::encode_utf8;
use crate::error::{parse_error_is, OxmlError};
use crate::numbers::{parse_unsigned, parse_usize};
use crate::text::{dec_int, dec_i64, dec_nat, dec_u64, from_utf8_lossy, push_str, string_of, utf8_lossy};
use crate::xml::{
    attr_value, remove_attrs_spec, slice_views, set_attr_spec, at_path, desc_path, doc_replaced, doc_root, element_at, element_bytes, first_named_index,
    first_named_position, is_named, lemma_at_path_concat, lemma_desc_path, lemma_first_named_index,
    lemma_nodes_bytes_push, new_element, node_bytes, nodes_bytes, node_element_mut, same_tags, valid_path, Document,
    Element, Node,
};
use super::{
    child_appended, child_inserted, child_removed, count_kind, count_of_kind, doc_at, find_tree_child_path,
    drop_children_named, without_names, fresh_leaf, insert_pos_for, insert_position, is_kind, kind_cell, kind_drawable, kind_grid_col, kind_row,
    lemma_path_push, message, nth_kind, nth_position, tree_child_path, SlideDom, ppr_attr_set, ppr_mut,
    lemma_insert_update, lemma_kind_children_len, lemma_nth_kind_count, lemma_nth_kind_from, lemma_nth_kind_same,
    node_is_kind,
};
use crate::paragraph::{make_paragraph, para_bytes};
use crate::xml::{attr_index, attr_index_from};

verus! {

/// Path to the table (`a:tbl`, the first one below) of drawable `idx` of the
/// shape tree, when that drawable is a `p:graphicFrame`.
pub open spec fn table_path(d: Document, idx: int) -> Option<Seq<usize>> {
    match tree_child_path(d, kind_drawable(), idx) {
        Some(g) => if doc_at(d, g).local() == /* graphicFrame */ seq![103u8, 114u8, 97u8, 112u8, 104u8, 105u8, 99u8, 70u8, 114u8, 97u8, 109u8, 101u8] {
            match desc_path(doc_at(d, g), /* tbl */ seq![116u8, 98u8, 108u8]) {
                Some(q) => Some(g + q),
                None => None,
            }
        } else {
            None
        },
        None => None,
    }
}

/// The message a failed table lookup of drawable `idx` carries: there is
/// no such drawable, it is not a `p:graphicFrame` (its local name given), or
/// it holds no table.
pub open spec fn table_error(d: Document, idx: int) -> Seq<char> {
    match tree_child_path(d, kind_drawable(), idx) {
        Some(g) => if doc_at(d, g).local() != /* graphicFrame */ seq![103u8, 114u8, 97u8, 112u8, 104u8, 105u8, 99u8, 70u8, 114u8, 97u8, 109u8, 101u8] {
            "shape at index "@ + dec_nat(idx as nat) + " is not a graphicFrame (is \""@ + utf8_lossy(doc_at(d, g).local())
                + "\")"@
        } else {
            "graphicFrame at index "@ + dec_nat(idx as nat) + " does not contain a table"@
        },
        None => "no shape at index "@ + dec_nat(idx as nat) + ""@,
    }
}

/// The message a failed merge carries: an inverted range, a failed table
/// lookup, or the end row or end column past the table.
pub open spec fn merge_error(d: Document, idx: int, sr: nat, sc: nat, er: nat, ec: nat) -> Seq<char> {
    if sr > er || sc > ec {
        "invalid merge range: start ("@ + dec_nat(sr) + ","@ + dec_nat(sc) + ") must be <= end ("@ + dec_nat(er) + ","@
            + dec_nat(ec) + ")"@
    } else {
        match table_path(d, idx) {
            Some(p) => if er >= row_count(doc_at(d, p)) {
                "end_row "@ + dec_nat(er) + " out of range (table has "@ + dec_nat(row_count(doc_at(d, p))) + " rows)"@
            } else {
                "end_col "@ + dec_nat(ec) + " out of range (table has "@ + dec_nat(grid_col_count(doc_at(d, p)))
                    + " columns)"@
            },
            None => table_error(d, idx),
        }
    }
}

/// The number of rows of a table: its `a:tr` children.
pub open spec fn row_count(tbl: Element) -> nat {
    count_kind(tbl.children@, kind_row())
}

/// The number of columns of a table: the `a:gridCol` children of its first
/// `a:tblGrid` child (none without one).
pub open spec fn grid_col_count(tbl: Element) -> nat {
    let g = first_named_index(tbl.children@, /* tblGrid */ seq![116u8, 98u8, 108u8, 71u8, 114u8, 105u8, 100u8]);
    if g >= 0 {
        count_kind(tbl.children@[g]->Element_0.children@, kind_grid_col())
    } else {
        0
    }
}

/// The bytes of an empty text body: `<a:txBody><a:bodyPr/><a:lstStyle/><a:p/></a:txBody>`.
pub open spec fn empty_txbody_bytes() -> Seq<u8> {
    /* <a:txBody><a:bodyPr/><a:lstStyle/><a:p/></a:txBody> */ seq![60u8, 97u8, 58u8, 116u8, 120u8, 66u8, 111u8, 100u8, 121u8, 62u8, 60u8, 97u8, 58u8, 98u8, 111u8, 100u8, 121u8, 80u8, 114u8, 47u8, 62u8, 60u8, 97u8, 58u8, 108u8, 115u8, 116u8, 83u8, 116u8, 121u8, 108u8, 101u8, 47u8, 62u8, 60u8, 97u8, 58u8, 112u8, 47u8, 62u8, 60u8, 47u8, 97u8, 58u8, 116u8, 120u8, 66u8, 111u8, 100u8, 121u8, 62u8]
}

/// The bytes of a fresh cell holding an empty text body.
pub open spec fn empty_cell_bytes() -> Seq<u8> {
    /* <a:tc> */ seq![60u8, 97u8, 58u8, 116u8, 99u8, 62u8] + empty_txbody_bytes() + /* </a:tc> */ seq![60u8, 47u8, 97u8, 58u8, 116u8, 99u8, 62u8]
}

/// The bytes of `n` fresh cells.
pub open spec fn cells_bytes(n: nat) -> Seq<u8>
    decreases n,
{
    if n == 0 {
        Seq::empty()
    } else {
        cells_bytes((n - 1) as nat) + empty_cell_bytes()
    }
}

/// The bytes of a fresh row of height `h` with `n` fresh cells.
pub open spec fn row_bytes(h: i64, n: nat) -> Seq<u8> {
    /* <a:tr h=\" */ seq![60u8, 97u8, 58u8, 116u8, 114u8, 32u8, 104u8, 61u8, 34u8] + encode_utf8(dec_int(h as int)) + /* \"> */ seq![34u8, 62u8] + cells_bytes(n) + /* </a:tr> */ seq![60u8, 47u8, 97u8, 58u8, 116u8, 114u8, 62u8]
}

/// The bytes of a fresh grid column of width `w`.
pub open spec fn grid_col_bytes(w: i64) -> Seq<u8> {
    /* <a:gridCol w=\" */ seq![60u8, 97u8, 58u8, 103u8, 114u8, 105u8, 100u8, 67u8, 111u8, 108u8, 32u8, 119u8, 61u8, 34u8] + encode_utf8(dec_int(w as int)) + /* \"/> */ seq![34u8, 47u8, 62u8]
}

/// A fresh self-closing element with no attributes.
fn leaf(name: &[u8]) -> (e: Element)
    ensures
        e.name@ == name@,
        element_bytes(e) == /* < */ seq![60u8] + name@ + /* /> */ seq![47u8, 62u8],
{
    let mut e = new_element(name);
    e.self_closing = true;
    proof {
        assert(e.attrs_v() =~= Seq::<(Seq<u8>, Seq<u8>)>::empty());
        assert(element_bytes(e) =~= /* < */ seq![60u8] + name@ + /* /> */ seq![47u8, 62u8]);
    }
    e
}

/// A fresh text body named `name` holding `p` after an empty `a:bodyPr` and
/// `a:lstStyle`.
pub(crate) fn txbody_of(name: &[u8], p: Element) -> (e: Element)
    ensures
        element_bytes(e) == /* < */ seq![60u8] + name@ + /* ><a:bodyPr/><a:lstStyle/> */ seq![62u8, 60u8, 97u8, 58u8, 98u8, 111u8, 100u8, 121u8, 80u8, 114u8, 47u8, 62u8, 60u8, 97u8, 58u8, 108u8, 115u8, 116u8, 83u8, 116u8, 121u8, 108u8, 101u8, 47u8, 62u8] + element_bytes(p) + /* </ */ seq![60u8, 47u8] + name@ + /* > */ seq![62u8],
        e.name@ == name@,
{
    let b: [u8; 8] = /* a:bodyPr */ [97u8, 58u8, 98u8, 111u8, 100u8, 121u8, 80u8, 114u8];
    let l: [u8; 10] = /* a:lstStyle */ [97u8, 58u8, 108u8, 115u8, 116u8, 83u8, 116u8, 121u8, 108u8, 101u8];
    assert(b@ =~= /* a:bodyPr */ seq![97u8, 58u8, 98u8, 111u8, 100u8, 121u8, 80u8, 114u8]);
    assert(l@ =~= /* a:lstStyle */ seq![97u8, 58u8, 108u8, 115u8, 116u8, 83u8, 116u8, 121u8, 108u8, 101u8]);
    let mut tx = new_element(name);
    let eb = leaf(b.as_slice());
    let el = leaf(l.as_slice());
    let ghost c0 = tx.children@;
    tx.children.push(Node::Element(eb));
    let ghost c1 = tx.children@;
    tx.children.push(Node::Element(el));
    let ghost c2 = tx.children@;
    tx.children.push(Node::Element(p));
    proof {
        assert(c0 =~= Seq::<Node>::empty());
        lemma_nodes_bytes_push(c0, Node::Element(eb));
        lemma_nodes_bytes_push(c1, Node::Element(el));
        lemma_nodes_bytes_push(c2, Node::Element(p));
        assert(tx.attrs_v() =~= Seq::<(Seq<u8>, Seq<u8>)>::empty());
        assert(element_bytes(tx) =~= /* < */ seq![60u8] + name@ + /* ><a:bodyPr/><a:lstStyle/> */ seq![62u8, 60u8, 97u8, 58u8, 98u8, 111u8, 100u8, 121u8, 80u8, 114u8, 47u8, 62u8, 60u8, 97u8, 58u8, 108u8, 115u8, 116u8, 83u8, 116u8, 121u8, 108u8, 101u8, 47u8, 62u8] + element_bytes(p) + /* </ */ seq![60u8, 47u8] + name@ + /* > */ seq![62u8]);
    }
    tx
}

/// A fresh empty text body.
pub(crate) fn empty_txbody() -> (e: Element)
    ensures
        element_bytes(e) == empty_txbody_bytes(),
        e.name@ == /* a:txBody */ seq![97u8, 58u8, 116u8, 120u8, 66u8, 111u8, 100u8, 121u8],
{
    let p: [u8; 3] = /* a:p */ [97u8, 58u8, 112u8];
    assert(p@ =~= /* a:p */ seq![97u8, 58u8, 112u8]);
    let n: [u8; 8] = /* a:txBody */ [97u8, 58u8, 116u8, 120u8, 66u8, 111u8, 100u8, 121u8];
    assert(n@ =~= /* a:txBody */ seq![97u8, 58u8, 116u8, 120u8, 66u8, 111u8, 100u8, 121u8]);
    let ep = leaf(p.as_slice());
    let tx = txbody_of(n.as_slice(), ep);
    assert(element_bytes(tx) =~= empty_txbody_bytes());
    tx
}

/// A fresh cell holding an empty text body.
fn make_table_cell() -> (e: Element)
    ensures
        element_bytes(e) == empty_cell_bytes(),
{
    let n: [u8; 4] = /* a:tc */ [97u8, 58u8, 116u8, 99u8];
    assert(n@ =~= /* a:tc */ seq![97u8, 58u8, 116u8, 99u8]);
    let mut tc = new_element(n.as_slice());
    let tx = empty_txbody();
    let ghost c0 = tc.children@;
    tc.children.push(Node::Element(tx));
    proof {
        assert(c0 =~= Seq::<Node>::empty());
        lemma_nodes_bytes_push(c0, Node::Element(tx));
        assert(tc.attrs_v() =~= Seq::<(Seq<u8>, Seq<u8>)>::empty());
        assert(element_bytes(tc) =~= empty_cell_bytes());
    }
    tc
}

/// A fresh row of height `h` with `n` fresh cells.
fn make_table_row(h: i64, n: usize) -> (e: Element)
    ensures
        element_bytes(e) == row_bytes(h, n as nat),
{
    let name: [u8; 4] = /* a:tr */ [97u8, 58u8, 116u8, 114u8];
    let key: [u8; 1] = /* h */ [104u8];
    assert(name@ =~= /* a:tr */ seq![97u8, 58u8, 116u8, 114u8]);
    assert(key@ =~= /* h */ seq![104u8]);
    let mut tr = new_element(name.as_slice());
    let digits = dec_i64(h);
    tr.set_attr(key.as_slice(), digits.as_str().as_bytes());
    let mut i: usize = 0;
    assert(tr.children@ =~= Seq::<Node>::empty());
    while i < n
        invariant
            i <= n,
            tr.name@ == /* a:tr */ seq![97u8, 58u8, 116u8, 114u8],
            tr.dirty,
            !tr.self_closing,
            tr.attrs_v() == seq![(/* h */ seq![104u8], encode_utf8(dec_int(h as int)))],
            nodes_bytes(tr.children@) == cells_bytes(i as nat),
        decreases n - i,
    {
        let c = make_table_cell();
        let ghost before = tr.children@;
        tr.children.push(Node::Element(c));
        proof { lemma_nodes_bytes_push(before, Node::Element(c)); }
        i = i + 1;
    }
    proof {
        reveal_with_fuel(crate::xml::attrs_bytes, 2);
        assert(tr.attrs_v().drop_last() =~= Seq::<(Seq<u8>, Seq<u8>)>::empty());
        assert(element_bytes(tr) =~= row_bytes(h, n as nat));
    }
    tr
}

/// Path to the table of drawable `idx`, computed; the error says which step
/// failed.
fn find_table_path(d: &Document, idx: usize) -> (r: Result<Vec<usize>, OxmlError>)
    ensures
        match r {
            Ok(p) => table_path(*d, idx as int) == Some(p@) && valid_path(doc_root(*d).unwrap(), p@),
            Err(e) => table_path(*d, idx as int) is None && parse_error_is(e, table_error(*d, idx as int)),
        },
{
    let mut p = match find_tree_child_path(d, 3, idx) {
        Some(p) => p,
        None => return Err(OxmlError::Parse(message("no shape at index ", idx, ""))),
    };
    let root = d.root().unwrap();
    assert(p@.skip(0) =~= p@);
    let g = element_at(root, &p, 0);
    let gf: [u8; 12] = /* graphicFrame */ [103u8, 114u8, 97u8, 112u8, 104u8, 105u8, 99u8, 70u8, 114u8, 97u8, 109u8, 101u8];
    assert(gf@ =~= /* graphicFrame */ seq![103u8, 114u8, 97u8, 112u8, 104u8, 105u8, 99u8, 70u8, 114u8, 97u8, 109u8, 101u8]);
    if !g.is_named(gf.as_slice()) {
        let mut m = message("shape at index ", idx, " is not a graphicFrame (is \"");
        let l = from_utf8_lossy(g.local_name());
        push_str(&mut m, l.as_str());
        push_str(&mut m, "\")");
        return Err(OxmlError::Parse(m));
    }
    let name: [u8; 3] = /* tbl */ [116u8, 98u8, 108u8];
    assert(name@ =~= /* tbl */ seq![116u8, 98u8, 108u8]);
    let mut q = match g.find_descendant_path(name.as_slice()) {
        Some(q) => q,
        None => return Err(OxmlError::Parse(message("graphicFrame at index ", idx, " does not contain a table"))),
    };
    proof {
        lemma_desc_path(*g, /* tbl */ seq![116u8, 98u8, 108u8]);
        lemma_at_path_concat(*root, p@, q@);
    }
    let ghost gp = p@;
    let ghost qv = q@;
    p.append(&mut q);
    assert(p@ =~= gp + qv);
    Ok(p)
}

/// A message of the form `a` + decimal `n` + `b` + decimal `m` + `c`.
pub(crate) fn message2(a: &str, n: usize, b: &str, m: usize, c: &str) -> (r: String)
    ensures
        r@ == a@ + dec_nat(n as nat) + b@ + dec_nat(m as nat) + c@,
{
    let mut s = message(a, n, b);
    let d = dec_u64(m as u64);
    push_str(&mut s, d.as_str());
    push_str(&mut s, c);
    s
}

/// The number of grid columns of a table, computed.
fn grid_cols(tbl: &Element) -> (r: usize)
    ensures
        r == grid_col_count(*tbl),
{
    let name: [u8; 7] = /* tblGrid */ [116u8, 98u8, 108u8, 71u8, 114u8, 105u8, 100u8];
    assert(name@ =~= /* tblGrid */ seq![116u8, 98u8, 108u8, 71u8, 114u8, 105u8, 100u8]);
    proof { lemma_first_named_index(tbl.children@, /* tblGrid */ seq![116u8, 98u8, 108u8, 71u8, 114u8, 105u8, 100u8]); }
    match first_named_position(&tbl.children, name.as_slice()) {
        Some(g) => match &tbl.children[g] {
            Node::Element(grid) => count_of_kind(&grid.children, 6),
            Node::Raw(_) => 0,
        },
        None => 0,
    }
}

impl SlideDom {
    /// The table of drawable `shape_idx` of the shape tree (counting `p:sp`,
    /// `p:pic`, `p:graphicFrame`, `p:cxnSp` and `p:grpSp`). Fails when there
    /// is no such shape, it is not a graphic frame, or holds no table.
    pub fn table_element(&self, shape_idx: usize) -> (r: Result<&Element, OxmlError>)
        ensures
            match r {
                Ok(t) => table_path(self.document(), shape_idx as int) matches Some(p) && *t == doc_at(
                    self.document(),
                    p,
                ),
                Err(e) => table_path(self.document(), shape_idx as int) is None && parse_error_is(
                    e,
                    table_error(self.document(), shape_idx as int),
                ),
            },
    {
        let p = match find_table_path(&self.doc, shape_idx) {
            Ok(p) => p,
            Err(e) => return Err(e),
        };
        let root = self.doc.root().unwrap();
        assert(p@.skip(0) =~= p@);
        Ok(element_at(root, &p, 0))
    }

    /// The table of drawable `shape_idx`, mutably; whatever is done to it is
    /// the only change to the slide.
    pub fn table_element_mut(&mut self, shape_idx: usize) -> (r: Result<&mut Element, OxmlError>)
        ensures
            match r {
                Ok(t) => table_path(old(self).document(), shape_idx as int) matches Some(p) && *t == doc_at(
                    old(self).document(),
                    p,
                ) && doc_replaced(old(self).document(), final(self).document(), p, *final(t)),
                Err(_) => table_path(old(self).document(), shape_idx as int) is None && final(self).document()
                    == old(self).document(),
            },
    {
        let p = match find_table_path(&self.doc, shape_idx) {
            Ok(p) => p,
            Err(e) => return Err(e),
        };
        Ok(self.doc.element_at_mut(&p).unwrap())
    }
}

impl SlideDom {
    /// Append a row of height `height_emu` to the table of drawable
    /// `shape_idx`, with one fresh cell per grid column; every other row is
    /// kept. Fails, changing nothing, when there is no such table.
    pub fn add_table_row(&mut self, shape_idx: usize, height_emu: i64) -> (r: Result<(), OxmlError>)
        ensures
            r is Ok <==> table_path(old(self).document(), shape_idx as int) is Some,
            r is Err ==> final(self).document() == old(self).document(),
            r is Ok ==> {
                let p = table_path(old(self).document(), shape_idx as int).unwrap();
                let t = doc_at(old(self).document(), p);
                exists|new_t: Element| {
                    &&& doc_replaced(old(self).document(), final(self).document(), p, new_t)
                    &&& #[trigger] child_appended(t, new_t, row_bytes(height_emu, grid_col_count(t)))
                }
            },
    {
        let p = match find_table_path(&self.doc, shape_idx) {
            Ok(p) => p,
            Err(e) => return Err(e),
        };
        let root = self.doc.root().unwrap();
        assert(p@.skip(0) =~= p@);
        let n = grid_cols(element_at(root, &p, 0));
        let tr = make_table_row(height_emu, n);
        let ghost old_t = doc_at(self.doc, p@);
        let tbl = self.doc.element_at_mut(&p).unwrap();
        tbl.children.push(Node::Element(tr));
        let ghost new_t = *tbl;
        proof {
            assert(new_t.children@.drop_last() =~= old_t.children@);
            assert(child_appended(old_t, new_t, row_bytes(height_emu, grid_col_count(old_t))));
            assert(self.document() == self.doc);
            assert(old(self).document() == old(self).doc);
            assert(old_t == doc_at(old(self).document(), table_path(old(self).document(), shape_idx as int).unwrap()));
        }
        Ok(())
    }

    /// Insert a row of height `height_emu` before row `row_idx` of the table
    /// of drawable `shape_idx` (`row_idx` equal to the row count appends it
    /// after the last row). Fails, changing nothing, when there is no such
    /// table or `row_idx` is beyond the row count.
    pub fn insert_table_row(&mut self, shape_idx: usize, row_idx: usize, height_emu: i64) -> (r: Result<(), OxmlError>)
        ensures
            r is Ok <==> (table_path(old(self).document(), shape_idx as int) matches Some(p) && insert_pos_for(
                doc_at(old(self).document(), p).children@,
                kind_row(),
                row_idx as int,
            ) >= 0),
            r is Err ==> final(self).document() == old(self).document(),
            r is Ok ==> {
                let p = table_path(old(self).document(), shape_idx as int).unwrap();
                let t = doc_at(old(self).document(), p);
                let pos = insert_pos_for(t.children@, kind_row(), row_idx as int);
                exists|new_t: Element| {
                    &&& doc_replaced(old(self).document(), final(self).document(), p, new_t)
                    &&& #[trigger] child_inserted(t, new_t, pos, row_bytes(height_emu, grid_col_count(t)))
                }
            },
    {
        let p = match find_table_path(&self.doc, shape_idx) {
            Ok(p) => p,
            Err(e) => return Err(e),
        };
        let root = self.doc.root().unwrap();
        assert(p@.skip(0) =~= p@);
        let t = element_at(root, &p, 0);
        let n = grid_cols(t);
        let pos = match insert_position(&t.children, 4, row_idx) {
            Some(i) => i,
            None => {
                let c = count_of_kind(&t.children, 4);
                return Err(OxmlError::Parse(message2("row insert index ", row_idx, " out of range (have ", c, " rows)")));
            },
        };
        let tr = make_table_row(height_emu, n);
        let ghost old_t = doc_at(self.doc, p@);
        let ghost node = Node::Element(tr);
        let tbl = self.doc.element_at_mut(&p).unwrap();
        tbl.insert_child_at(pos, Node::Element(tr));
        let ghost new_t = *tbl;
        proof {
            if pos == old_t.children@.len() {
                assert(old_t.children@.push(node) =~= old_t.children@.insert(pos as int, node));
            }
            assert(new_t.children@ == old_t.children@.insert(pos as int, node));
            assert(new_t.children@.take(pos as int) =~= old_t.children@.take(pos as int));
            assert(new_t.children@.skip(pos + 1) =~= old_t.children@.skip(pos as int));
            assert(child_inserted(old_t, new_t, pos as int, row_bytes(height_emu, grid_col_count(old_t))));
            assert(self.document() == self.doc);
            assert(old(self).document() == old(self).doc);
            assert(old_t == doc_at(old(self).document(), table_path(old(self).document(), shape_idx as int).unwrap()));
        }
        Ok(())
    }

    /// Remove row `row_idx` of the table of drawable `shape_idx`; every other
    /// row is kept. Fails, changing nothing, when there is no such table or
    /// row.
    pub fn remove_table_row(&mut self, shape_idx: usize, row_idx: usize) -> (r: Result<(), OxmlError>)
        ensures
            r is Ok <==> (table_path(old(self).document(), shape_idx as int) matches Some(p) && nth_kind(
                doc_at(old(self).document(), p).children@,
                kind_row(),
                row_idx as int,
            ) >= 0),
            r is Err ==> final(self).document() == old(self).document(),
            r is Ok ==> {
                let p = table_path(old(self).document(), shape_idx as int).unwrap();
                let t = doc_at(old(self).document(), p);
                exists|new_t: Element| {
                    &&& doc_replaced(old(self).document(), final(self).document(), p, new_t)
                    &&& #[trigger] child_removed(t, new_t, nth_kind(t.children@, kind_row(), row_idx as int))
                }
            },
    {
        let p = match find_table_path(&self.doc, shape_idx) {
            Ok(p) => p,
            Err(e) => return Err(e),
        };
        let root = self.doc.root().unwrap();
        assert(p@.skip(0) =~= p@);
        let t = element_at(root, &p, 0);
        let pos = match nth_position(&t.children, 4, row_idx) {
            Some(i) => i,
            None => {
                let c = count_of_kind(&t.children, 4);
                return Err(OxmlError::Parse(message2("row index ", row_idx, " out of range (have ", c, " rows)")));
            },
        };
        let ghost old_t = doc_at(self.doc, p@);
        let tbl = self.doc.element_at_mut(&p).unwrap();
        let _ = tbl.children.remove(pos);
        let ghost new_t = *tbl;
        proof {
            assert(child_removed(old_t, new_t, pos as int));
            assert(self.document() == self.doc);
            assert(old(self).document() == old(self).doc);
            assert(old_t == doc_at(old(self).document(), table_path(old(self).document(), shape_idx as int).unwrap()));
        }
        Ok(())
    }
}

/// `new` is `old` with attribute `k` set to `v`: nothing else changed but
/// the start tag being marked for regeneration.
pub open spec fn attr_set(old: Element, new: Element, k: Seq<u8>, v: Seq<u8>) -> bool {
    &&& new.attrs_v() == set_attr_spec(old.attrs_v(), k, v)
    &&& new.dirty
    &&& new.name == old.name
    &&& new.raw_start == old.raw_start
    &&& new.raw_end == old.raw_end
    &&& new.self_closing == old.self_closing
    &&& new.children == old.children
}

/// How one child of a table changes when a column of width `w` is appended:
/// the grid gets a fresh grid column, each row a fresh cell, and anything
/// else stays.
pub open spec fn column_added_at(o: Node, n: Node, j: int, g: int, w: i64) -> bool {
    if j == g {
        o is Element && n is Element && child_appended(o->Element_0, n->Element_0, grid_col_bytes(w))
    } else if is_named(o, /* tr */ seq![116u8, 114u8]) {
        n is Element && child_appended(o->Element_0, n->Element_0, empty_cell_bytes())
    } else {
        n == o
    }
}

/// `new` is table `old` with a column of width `w` appended, the grid being
/// child `g`.
pub open spec fn column_added(old: Element, new: Element, g: int, w: i64) -> bool {
    &&& same_tags(old, new)
    &&& new.children@.len() == old.children@.len()
    &&& forall|j: int| 0 <= j < old.children@.len() ==> #[trigger] column_added_at(old.children@[j], new.children@[j], j, g, w)
}

/// How one child of a table changes when column `col` (grid column at
/// `gpos` of the grid) is removed: the grid loses that grid column, each row
/// its cell `col` when it has one, and anything else stays.
pub open spec fn column_removed_at(o: Node, n: Node, j: int, g: int, gpos: int, col: int) -> bool {
    if j == g {
        o is Element && n is Element && child_removed(o->Element_0, n->Element_0, gpos)
    } else if is_named(o, /* tr */ seq![116u8, 114u8]) && nth_kind(o->Element_0.children@, kind_cell(), col) >= 0 {
        n is Element && child_removed(o->Element_0, n->Element_0, nth_kind(o->Element_0.children@, kind_cell(), col))
    } else {
        n == o
    }
}

/// `new` is table `old` without column `col`, the grid being child `g` and
/// the removed grid column its child `gpos`.
pub open spec fn column_removed(old: Element, new: Element, g: int, gpos: int, col: int) -> bool {
    &&& same_tags(old, new)
    &&& new.children@.len() == old.children@.len()
    &&& forall|j: int| 0 <= j < old.children@.len() ==> #[trigger] column_removed_at(old.children@[j], new.children@[j], j, g, gpos, col)
}

/// Index of the grid (`a:tblGrid`) among a table's children, or -1.
pub open spec fn grid_index(tbl: Element) -> int {
    first_named_index(tbl.children@, /* tblGrid */ seq![116u8, 98u8, 108u8, 71u8, 114u8, 105u8, 100u8])
}

/// Index of grid column `col` in the grid of a table (which it must have).
pub open spec fn grid_col_index(tbl: Element, col: int) -> int {
    nth_kind(tbl.children@[grid_index(tbl)]->Element_0.children@, kind_grid_col(), col)
}

fn append_column(tbl: &mut Element, g: usize, w: i64)
    requires
        g < old(tbl).children@.len(),
        is_named(old(tbl).children@[g as int], /* tblGrid */ seq![116u8, 98u8, 108u8, 71u8, 114u8, 105u8, 100u8]),
    ensures
        column_added(*old(tbl), *final(tbl), g as int, w),
{
    let name: [u8; 9] = /* a:gridCol */ [97u8, 58u8, 103u8, 114u8, 105u8, 100u8, 67u8, 111u8, 108u8];
    let key: [u8; 1] = /* w */ [119u8];
    assert(name@ =~= /* a:gridCol */ seq![97u8, 58u8, 103u8, 114u8, 105u8, 100u8, 67u8, 111u8, 108u8]);
    assert(key@ =~= /* w */ seq![119u8]);
    let digits = dec_i64(w);
    let mut j: usize = 0;
    while j < tbl.children.len()
        invariant
            g < old(tbl).children@.len(),
            is_named(old(tbl).children@[g as int], /* tblGrid */ seq![116u8, 98u8, 108u8, 71u8, 114u8, 105u8, 100u8]),
            digits@ == dec_int(w as int),
            name@ == /* a:gridCol */ seq![97u8, 58u8, 103u8, 114u8, 105u8, 100u8, 67u8, 111u8, 108u8],
            key@ == /* w */ seq![119u8],
            j <= tbl.children@.len(),
            tbl.children@.len() == old(tbl).children@.len(),
            same_tags(*old(tbl), *tbl),
            forall|k: int| 0 <= k < j ==> #[trigger] column_added_at(old(tbl).children@[k], tbl.children@[k], k, g as int, w),
            forall|k: int| j <= k < tbl.children@.len() ==> tbl.children@[k] == old(tbl).children@[k],
        decreases tbl.children@.len() - j,
    {
        if j == g {
            let col = fresh_leaf(name.as_slice(), key.as_slice(), digits.as_str().as_bytes());
            let ghost o = tbl.children@[j as int]->Element_0;
            let grid = node_element_mut(&mut tbl.children, j).unwrap();
            grid.children.push(Node::Element(col));
            proof {
                assert(grid.children@.drop_last() =~= o.children@);
                assert(element_bytes(col) =~= grid_col_bytes(w));
            }
        } else if is_kind(&tbl.children[j], 4) {
            let cell = make_table_cell();
            let ghost o = tbl.children@[j as int]->Element_0;
            let tr = node_element_mut(&mut tbl.children, j).unwrap();
            tr.children.push(Node::Element(cell));
            proof { assert(tr.children@.drop_last() =~= o.children@); }
        }
        j = j + 1;
    }
}

fn drop_column(tbl: &mut Element, g: usize, gpos: usize, col: usize)
    requires
        g < old(tbl).children@.len(),
        is_named(old(tbl).children@[g as int], /* tblGrid */ seq![116u8, 98u8, 108u8, 71u8, 114u8, 105u8, 100u8]),
        gpos < old(tbl).children@[g as int]->Element_0.children@.len(),
    ensures
        column_removed(*old(tbl), *final(tbl), g as int, gpos as int, col as int),
{
    let mut j: usize = 0;
    while j < tbl.children.len()
        invariant
            g < old(tbl).children@.len(),
            is_named(old(tbl).children@[g as int], /* tblGrid */ seq![116u8, 98u8, 108u8, 71u8, 114u8, 105u8, 100u8]),
            gpos < old(tbl).children@[g as int]->Element_0.children@.len(),
            j <= tbl.children@.len(),
            tbl.children@.len() == old(tbl).children@.len(),
            same_tags(*old(tbl), *tbl),
            forall|k: int| 0 <= k < j ==> #[trigger] column_removed_at(old(tbl).children@[k], tbl.children@[k], k, g as int, gpos as int, col as int),
            forall|k: int| j <= k < tbl.children@.len() ==> tbl.children@[k] == old(tbl).children@[k],
        decreases tbl.children@.len() - j,
    {
        if j == g {
            let grid = node_element_mut(&mut tbl.children, j).unwrap();
            let _ = grid.children.remove(gpos);
        } else if is_kind(&tbl.children[j], 4) {
            let pos = match &tbl.children[j] {
                Node::Element(tr) => nth_position(&tr.children, 5, col),
                Node::Raw(_) => None,
            };
            match pos {
                Some(c) => {
                    let tr = node_element_mut(&mut tbl.children, j).unwrap();
                    let _ = tr.children.remove(c);
                },
                None => {},
            }
        }
        j = j + 1;
    }
}

impl SlideDom {
    /// Append a column of width `width_emu` to the table of drawable
    /// `shape_idx`: a grid column at the end of its first `a:tblGrid`, and a
    /// fresh cell at the end of every row. Fails, changing nothing, when
    /// there is no such table or it has no grid.
    pub fn add_table_column(&mut self, shape_idx: usize, width_emu: i64) -> (r: Result<(), OxmlError>)
        ensures
            r is Ok <==> (table_path(old(self).document(), shape_idx as int) matches Some(p) && grid_index(
                doc_at(old(self).document(), p),
            ) >= 0),
            r is Err ==> final(self).document() == old(self).document(),
            r is Ok ==> {
                let p = table_path(old(self).document(), shape_idx as int).unwrap();
                let t = doc_at(old(self).document(), p);
                exists|new_t: Element| {
                    &&& doc_replaced(old(self).document(), final(self).document(), p, new_t)
                    &&& #[trigger] column_added(t, new_t, grid_index(t), width_emu)
                }
            },
    {
        let p = match find_table_path(&self.doc, shape_idx) {
            Ok(p) => p,
            Err(e) => return Err(e),
        };
        let root = self.doc.root().unwrap();
        assert(p@.skip(0) =~= p@);
        let t = element_at(root, &p, 0);
        let name: [u8; 7] = /* tblGrid */ [116u8, 98u8, 108u8, 71u8, 114u8, 105u8, 100u8];
        assert(name@ =~= /* tblGrid */ seq![116u8, 98u8, 108u8, 71u8, 114u8, 105u8, 100u8]);
        proof { lemma_first_named_index(t.children@, /* tblGrid */ seq![116u8, 98u8, 108u8, 71u8, 114u8, 105u8, 100u8]); }
        let g = match first_named_position(&t.children, name.as_slice()) {
            Some(g) => g,
            None => return Err(OxmlError::Parse(string_of("table has no tblGrid"))),
        };
        let ghost old_t = doc_at(self.doc, p@);
        let tbl = self.doc.element_at_mut(&p).unwrap();
        append_column(tbl, g, width_emu);
        let ghost new_t = *tbl;
        proof {
            assert(self.document() == self.doc);
            assert(old(self).document() == old(self).doc);
            assert(old_t == doc_at(old(self).document(), table_path(old(self).document(), shape_idx as int).unwrap()));
            assert(column_added(old_t, new_t, grid_index(old_t), width_emu));
        }
        Ok(())
    }

    /// Remove column `col_idx` of the table of drawable `shape_idx`: its grid
    /// column, and the cell `col_idx` of every row that has one. Fails,
    /// changing nothing, when there is no such table, it has no grid, or the
    /// grid has no such column.
    pub fn remove_table_column(&mut self, shape_idx: usize, col_idx: usize) -> (r: Result<(), OxmlError>)
        ensures
            r is Ok <==> (table_path(old(self).document(), shape_idx as int) matches Some(p) && grid_index(
                doc_at(old(self).document(), p),
            ) >= 0 && grid_col_index(doc_at(old(self).document(), p), col_idx as int) >= 0),
            r is Err ==> final(self).document() == old(self).document(),
            r is Ok ==> {
                let p = table_path(old(self).document(), shape_idx as int).unwrap();
                let t = doc_at(old(self).document(), p);
                exists|new_t: Element| {
                    &&& doc_replaced(old(self).document(), final(self).document(), p, new_t)
                    &&& #[trigger] column_removed(t, new_t, grid_index(t), grid_col_index(t, col_idx as int), col_idx as int)
                }
            },
    {
        let p = match find_table_path(&self.doc, shape_idx) {
            Ok(p) => p,
            Err(e) => return Err(e),
        };
        let root = self.doc.root().unwrap();
        assert(p@.skip(0) =~= p@);
        let t = element_at(root, &p, 0);
        let (g, gpos) = match locate_grid_col(t, col_idx) {
            Ok(x) => x,
            Err(e) => return Err(e),
        };
        let ghost old_t = doc_at(self.doc, p@);
        let tbl = self.doc.element_at_mut(&p).unwrap();
        drop_column(tbl, g, gpos, col_idx);
        let ghost new_t = *tbl;
        proof {
            assert(self.document() == self.doc);
            assert(old(self).document() == old(self).doc);
            assert(old_t == doc_at(old(self).document(), table_path(old(self).document(), shape_idx as int).unwrap()));
        }
        Ok(())
    }

    /// Set the width (`w`) of grid column `col_idx` of the table of drawable
    /// `shape_idx`. Fails, changing nothing, when there is no such table,
    /// grid or grid column.
    pub fn set_column_width(&mut self, shape_idx: usize, col_idx: usize, width_emu: i64) -> (r: Result<(), OxmlError>)
        ensures
            r is Ok <==> (table_path(old(self).document(), shape_idx as int) matches Some(p) && grid_index(
                doc_at(old(self).document(), p),
            ) >= 0 && grid_col_index(doc_at(old(self).document(), p), col_idx as int) >= 0),
            r is Err ==> final(self).document() == old(self).document(),
            r is Ok ==> {
                let p = table_path(old(self).document(), shape_idx as int).unwrap();
                let t = doc_at(old(self).document(), p);
                let q = p.push(grid_index(t) as usize).push(grid_col_index(t, col_idx as int) as usize);
                exists|new_c: Element| {
                    &&& doc_replaced(old(self).document(), final(self).document(), q, new_c)
                    &&& #[trigger] attr_set(doc_at(old(self).document(), q), new_c, /* w */ seq![119u8], encode_utf8(dec_int(width_emu as int)))
                }
            },
    {
        let mut p = match find_table_path(&self.doc, shape_idx) {
            Ok(p) => p,
            Err(e) => return Err(e),
        };
        let root = self.doc.root().unwrap();
        assert(p@.skip(0) =~= p@);
        let t = element_at(root, &p, 0);
        let (g, gpos) = match locate_grid_col(t, col_idx) {
            Ok(x) => x,
            Err(e) => return Err(e),
        };
        proof {
            lemma_path_push(*root, p@, g);
        }
        let ghost p0 = p@;
        p.push(g);
        proof {
            lemma_kind_is_element(doc_at(self.doc, p@).children@, 6, col_idx as int);
            lemma_path_push(*root, p@, gpos);
        }
        p.push(gpos);
        let key: [u8; 1] = /* w */ [119u8];
        assert(key@ =~= /* w */ seq![119u8]);
        let digits = dec_i64(width_emu);
        let ghost old_c = doc_at(self.doc, p@);
        let c = self.doc.element_at_mut(&p).unwrap();
        c.set_attr(key.as_slice(), digits.as_str().as_bytes());
        let ghost new_c = *c;
        proof {
            assert(self.document() == self.doc);
            assert(old(self).document() == old(self).doc);
            assert(p@ == p0.push(g).push(gpos));
            assert(attr_set(old_c, new_c, /* w */ seq![119u8], encode_utf8(dec_int(width_emu as int))));
            let tp = table_path(old(self).document(), shape_idx as int).unwrap();
            assert(tp == p0);
            let tt = doc_at(old(self).document(), tp);
            assert(tt == *t);
            assert(grid_index(tt) == g);
            assert(grid_col_index(tt, col_idx as int) == gpos);
            assert(old_c == doc_at(old(self).document(), tp.push(g).push(gpos)));
            assert(doc_replaced(old(self).document(), self.document(), tp.push(g).push(gpos), new_c));
            let q = tp.push(grid_index(tt) as usize).push(grid_col_index(tt, col_idx as int) as usize);
            assert(q == tp.push(g).push(gpos));
            assert(attr_set(doc_at(old(self).document(), q), new_c, /* w */ seq![119u8], encode_utf8(dec_int(width_emu as int))));
        }
        Ok(())
    }

    /// Set the height (`h`) of row `row_idx` of the table of drawable
    /// `shape_idx`. Fails, changing nothing, when there is no such table or
    /// row.
    pub fn set_row_height(&mut self, shape_idx: usize, row_idx: usize, height_emu: i64) -> (r: Result<(), OxmlError>)
        ensures
            r is Ok <==> (table_path(old(self).document(), shape_idx as int) matches Some(p) && nth_kind(
                doc_at(old(self).document(), p).children@,
                kind_row(),
                row_idx as int,
            ) >= 0),
            r is Err ==> final(self).document() == old(self).document(),
            r is Ok ==> {
                let p = table_path(old(self).document(), shape_idx as int).unwrap();
                let t = doc_at(old(self).document(), p);
                let q = p.push(nth_kind(t.children@, kind_row(), row_idx as int) as usize);
                exists|new_r: Element| {
                    &&& doc_replaced(old(self).document(), final(self).document(), q, new_r)
                    &&& #[trigger] attr_set(doc_at(old(self).document(), q), new_r, /* h */ seq![104u8], encode_utf8(dec_int(height_emu as int)))
                }
            },
    {
        let mut p = match find_table_path(&self.doc, shape_idx) {
            Ok(p) => p,
            Err(e) => return Err(e),
        };
        let root = self.doc.root().unwrap();
        assert(p@.skip(0) =~= p@);
        let t = element_at(root, &p, 0);
        let pos = match nth_position(&t.children, 4, row_idx) {
            Some(i) => i,
            None => {
                let c = count_of_kind(&t.children, 4);
                return Err(OxmlError::Parse(message2("row index ", row_idx, " out of range (have ", c, " rows)")));
            },
        };
        proof { lemma_path_push(*root, p@, pos); }
        let ghost p0 = p@;
        p.push(pos);
        let key: [u8; 1] = /* h */ [104u8];
        assert(key@ =~= /* h */ seq![104u8]);
        let digits = dec_i64(height_emu);
        let ghost old_r = doc_at(self.doc, p@);
        let e = self.doc.element_at_mut(&p).unwrap();
        e.set_attr(key.as_slice(), digits.as_str().as_bytes());
        let ghost new_r = *e;
        proof {
            assert(self.document() == self.doc);
            assert(old(self).document() == old(self).doc);
            assert(p@ == p0.push(pos));
            assert(attr_set(old_r, new_r, /* h */ seq![104u8], encode_utf8(dec_int(height_emu as int))));
            let tp = table_path(old(self).document(), shape_idx as int).unwrap();
            assert(tp == p0);
            let tt = doc_at(old(self).document(), tp);
            assert(tt == *t);
            assert(nth_kind(tt.children@, kind_row(), row_idx as int) == pos);
            assert(old_r == doc_at(old(self).document(), tp.push(pos)));
            assert(doc_replaced(old(self).document(), self.document(), tp.push(pos), new_r));
            let q = tp.push(nth_kind(tt.children@, kind_row(), row_idx as int) as usize);
            assert(q == tp.push(pos));
            assert(attr_set(doc_at(old(self).document(), q), new_r, /* h */ seq![104u8], encode_utf8(dec_int(height_emu as int))));
        }
        Ok(())
    }
}

/// The grid of a table and the index of grid column `col` in it.
fn locate_grid_col(t: &Element, col: usize) -> (r: Result<(usize, usize), OxmlError>)
    ensures
        match r {
            Ok((g, gpos)) => grid_index(*t) == g && g < t.children@.len() && is_named(t.children@[g as int], /* tblGrid */ seq![116u8, 98u8, 108u8, 71u8, 114u8, 105u8, 100u8])
                && grid_col_index(*t, col as int) == gpos && gpos < t.children@[g as int]->Element_0.children@.len(),
            Err(_) => grid_index(*t) < 0 || grid_col_index(*t, col as int) < 0,
        },
{
    let name: [u8; 7] = /* tblGrid */ [116u8, 98u8, 108u8, 71u8, 114u8, 105u8, 100u8];
    assert(name@ =~= /* tblGrid */ seq![116u8, 98u8, 108u8, 71u8, 114u8, 105u8, 100u8]);
    proof { lemma_first_named_index(t.children@, /* tblGrid */ seq![116u8, 98u8, 108u8, 71u8, 114u8, 105u8, 100u8]); }
    let g = match first_named_position(&t.children, name.as_slice()) {
        Some(g) => g,
        None => return Err(OxmlError::Parse(string_of("table has no tblGrid"))),
    };
    let grid = match &t.children[g] {
        Node::Element(e) => e,
        Node::Raw(_) => return Err(OxmlError::Parse(string_of("table has no tblGrid"))),
    };
    match nth_position(&grid.children, 6, col) {
        Some(gpos) => Ok((g, gpos)),
        None => {
            let c = count_of_kind(&grid.children, 6);
            Err(OxmlError::Parse(message2("gridCol index ", col, " out of range (have ", c, " elements)")))
        },
    }
}

/// The `n`-th node of a kind is an element.
proof fn lemma_kind_is_element(ns: Seq<Node>, k: u8, n: int)
    requires
        nth_kind(ns, k, n) >= 0,
    ensures
        nth_kind(ns, k, n) < ns.len(),
        ns[nth_kind(ns, k, n)] is Element,
{
    super::lemma_nth_kind_from(ns, k, n, 0);
}

// ─── Merged cells ───────────────────────────────────────────────────────────

/// Kinds of cell edit over a rectangle of cells.
pub open spec fn op_merge() -> u8 { 0 }

pub open spec fn op_split() -> u8 { 1 }

/// The attributes of the cell at row `r`, column `c` after merging rows
/// `sr..=er` and columns `sc..=ec`: the origin gets `gridSpan` and
/// `rowSpan` (each only when it spans more than one), a cell below the first
/// row `vMerge="1"`, a cell right of the first column `hMerge="1"`.
pub open spec fn merged_attrs(a: Seq<(Seq<u8>, Seq<u8>)>, r: int, c: int, sr: int, sc: int, er: int, ec: int) -> Seq<(Seq<u8>, Seq<u8>)> {
    if r == sr && c == sc {
        let a1 = if ec > sc {
            set_attr_spec(a, /* gridSpan */ seq![103u8, 114u8, 105u8, 100u8, 83u8, 112u8, 97u8, 110u8], encode_utf8(dec_nat((ec - sc + 1) as nat)))
        } else {
            a
        };
        if er > sr {
            set_attr_spec(a1, /* rowSpan */ seq![114u8, 111u8, 119u8, 83u8, 112u8, 97u8, 110u8], encode_utf8(dec_nat((er - sr + 1) as nat)))
        } else {
            a1
        }
    } else {
        let a1 = if r > sr { set_attr_spec(a, /* vMerge */ seq![118u8, 77u8, 101u8, 114u8, 103u8, 101u8], /* 1 */ seq![49u8]) } else { a };
        if c > sc { set_attr_spec(a1, /* hMerge */ seq![104u8, 77u8, 101u8, 114u8, 103u8, 101u8], /* 1 */ seq![49u8]) } else { a1 }
    }
}

/// `n` is cell `o` (row `r`, column `c`) after the merge: attributes as
/// above; the origin keeps its content, a covered cell loses its text bodies
/// and gets a fresh empty one at the end.
pub open spec fn cell_merged(o: Element, n: Element, r: int, c: int, sr: int, sc: int, er: int, ec: int) -> bool {
    &&& n.attrs_v() == merged_attrs(o.attrs_v(), r, c, sr, sc, er, ec)
    &&& n.name == o.name
    &&& n.raw_start == o.raw_start
    &&& n.raw_end == o.raw_end
    &&& n.self_closing == o.self_closing
    &&& if r == sr && c == sc {
        &&& n.children == o.children
        &&& n.dirty == (o.dirty || ec > sc || er > sr)
    } else {
        &&& n.dirty
        &&& n.children@.len() > 0
        &&& n.children@.drop_last() == without_names(o.children@, /* txBody */ seq![116u8, 120u8, 66u8, 111u8, 100u8, 121u8], /* txBody */ seq![116u8, 120u8, 66u8, 111u8, 100u8, 121u8], /* txBody */ seq![116u8, 120u8, 66u8, 111u8, 100u8, 121u8])
        &&& node_bytes(n.children@.last()) == empty_txbody_bytes()
    }
}

/// The attribute names a split removes: the spans from the origin, the merge
/// marks from the others.
pub open spec fn split_names(r: int, c: int, row: int, col: int) -> Seq<Seq<u8>> {
    if r == row && c == col {
        seq![/* gridSpan */ seq![103u8, 114u8, 105u8, 100u8, 83u8, 112u8, 97u8, 110u8], /* rowSpan */ seq![114u8, 111u8, 119u8, 83u8, 112u8, 97u8, 110u8]]
    } else {
        seq![/* hMerge */ seq![104u8, 77u8, 101u8, 114u8, 103u8, 101u8], /* vMerge */ seq![118u8, 77u8, 101u8, 114u8, 103u8, 101u8]]
    }
}

/// `n` is cell `o` (row `r`, column `c`) after splitting the merge whose
/// origin is (`row`, `col`).
pub open spec fn cell_split(o: Element, n: Element, r: int, c: int, row: int, col: int) -> bool {
    &&& n.attrs_v() == remove_attrs_spec(o.attrs_v(), split_names(r, c, row, col))
    &&& n.dirty
    &&& n.name == o.name
    &&& n.raw_start == o.raw_start
    &&& n.raw_end == o.raw_end
    &&& n.self_closing == o.self_closing
    &&& n.children == o.children
}

/// Whether attributes hold none of the names a merge sets.
pub open spec fn no_merge_attrs(a: Seq<(Seq<u8>, Seq<u8>)>) -> bool {
    forall|i: int|
        0 <= i < a.len() ==> {
            let k = #[trigger] a[i].0;
            k != /* gridSpan */ seq![103u8, 114u8, 105u8, 100u8, 83u8, 112u8, 97u8, 110u8] && k != /* rowSpan */ seq![114u8, 111u8, 119u8, 83u8, 112u8, 97u8, 110u8] && k != /* hMerge */ seq![104u8, 77u8, 101u8, 114u8, 103u8, 101u8] && k != /* vMerge */ seq![118u8, 77u8, 101u8, 114u8, 103u8, 101u8]
        }
}

proof fn lemma_attr_index_absent(a: Seq<(Seq<u8>, Seq<u8>)>, i: int, name: Seq<u8>)
    requires
        0 <= i,
        forall|j: int| 0 <= j < a.len() ==> #[trigger] a[j].0 != name,
    ensures
        crate::xml::attr_index_from(a, i, name) == -1,
    decreases a.len() - i,
{
    if i < a.len() {
        assert(a[i].0 != name);
        lemma_attr_index_absent(a, i + 1, name);
    }
}

proof fn lemma_remove_kept(a: Seq<(Seq<u8>, Seq<u8>)>, names: Seq<Seq<u8>>)
    requires
        forall|j: int| 0 <= j < a.len() ==> !names.contains(#[trigger] a[j].0),
    ensures
        remove_attrs_spec(a, names) == a,
    decreases a.len(),
{
    if a.len() > 0 {
        assert forall|j: int| 0 <= j < a.drop_last().len() implies !names.contains(#[trigger] a.drop_last()[j].0) by {
            assert(a.drop_last()[j] == a[j]);
        }
        lemma_remove_kept(a.drop_last(), names);
        assert(!names.contains(a[a.len() - 1].0));
        assert(a.drop_last().push(a.last()) =~= a);
    }
}

/// Setting an absent attribute that the removal names, then removing:
/// the same as removing alone.
proof fn lemma_set_then_remove(a: Seq<(Seq<u8>, Seq<u8>)>, k: Seq<u8>, v: Seq<u8>, names: Seq<Seq<u8>>)
    requires
        forall|j: int| 0 <= j < a.len() ==> #[trigger] a[j].0 != k,
        names.contains(k),
    ensures
        set_attr_spec(a, k, v) == a.push((k, v)),
        remove_attrs_spec(a.push((k, v)), names) == remove_attrs_spec(a, names),
{
    lemma_attr_index_absent(a, 0, k);
    assert(a.push((k, v)).drop_last() =~= a);
}

/// Merging a rectangle and then splitting the merge at its origin gives
/// every cell of the rectangle back the attributes it had, when it held none
/// of the names a merge sets: the split takes off exactly what the merge put
/// on (the spans from the origin, the merge marks from the other cells).
pub proof fn lemma_merge_then_split_attrs(a: Seq<(Seq<u8>, Seq<u8>)>, r: int, c: int, sr: int, sc: int, er: int, ec: int)
    requires
        no_merge_attrs(a),
    ensures
        remove_attrs_spec(merged_attrs(a, r, c, sr, sc, er, ec), split_names(r, c, sr, sc)) == a,
{
    let names = split_names(r, c, sr, sc);
    let (k1, k2) = if r == sr && c == sc { (/* gridSpan */ seq![103u8, 114u8, 105u8, 100u8, 83u8, 112u8, 97u8, 110u8], /* rowSpan */ seq![114u8, 111u8, 119u8, 83u8, 112u8, 97u8, 110u8]) } else { (/* vMerge */ seq![118u8, 77u8, 101u8, 114u8, 103u8, 101u8], /* hMerge */ seq![104u8, 77u8, 101u8, 114u8, 103u8, 101u8]) };
    assert(names.contains(k1)) by {
        if r == sr && c == sc { assert(names[0] == k1); } else { assert(names[1] == k1); }
    }
    assert(names.contains(k2)) by {
        if r == sr && c == sc { assert(names[1] == k2); } else { assert(names[0] == k2); }
    }
    assert forall|j: int| 0 <= j < a.len() implies !names.contains(#[trigger] a[j].0) by {
        let k = a[j].0;
        assert(k != /* gridSpan */ seq![103u8, 114u8, 105u8, 100u8, 83u8, 112u8, 97u8, 110u8] && k != /* rowSpan */ seq![114u8, 111u8, 119u8, 83u8, 112u8, 97u8, 110u8] && k != /* hMerge */ seq![104u8, 77u8, 101u8, 114u8, 103u8, 101u8] && k != /* vMerge */ seq![118u8, 77u8, 101u8, 114u8, 103u8, 101u8]);
    }
    lemma_remove_kept(a, names);
    let v1 = if r == sr && c == sc { encode_utf8(dec_nat((ec - sc + 1) as nat)) } else { /* 1 */ seq![49u8] };
    let v2 = if r == sr && c == sc { encode_utf8(dec_nat((er - sr + 1) as nat)) } else { /* 1 */ seq![49u8] };
    let set1 = if r == sr && c == sc { ec > sc } else { r > sr };
    let set2 = if r == sr && c == sc { er > sr } else { c > sc };
    assert forall|j: int| 0 <= j < a.len() implies #[trigger] a[j].0 != k1 && a[j].0 != k2 by {
        let k = a[j].0;
        assert(k != /* gridSpan */ seq![103u8, 114u8, 105u8, 100u8, 83u8, 112u8, 97u8, 110u8] && k != /* rowSpan */ seq![114u8, 111u8, 119u8, 83u8, 112u8, 97u8, 110u8] && k != /* hMerge */ seq![104u8, 77u8, 101u8, 114u8, 103u8, 101u8] && k != /* vMerge */ seq![118u8, 77u8, 101u8, 114u8, 103u8, 101u8]);
    }
    let a1 = if set1 { a.push((k1, v1)) } else { a };
    if set1 {
        lemma_set_then_remove(a, k1, v1, names);
    }
    assert forall|j: int| 0 <= j < a1.len() implies #[trigger] a1[j].0 != k2 by {
        if set1 && j == a.len() {
            assert(a1[j].0 == k1);
        } else {
            assert(a1[j] == a[j]);
        }
    }
    assert(remove_attrs_spec(a1, names) == a);
    if set2 {
        lemma_set_then_remove(a1, k2, v2, names);
    }
}

proof fn lemma_attr_index_to_end(a: Seq<(Seq<u8>, Seq<u8>)>, x: (Seq<u8>, Seq<u8>), i: int)
    requires
        0 <= i <= a.len(),
        forall|j: int| 0 <= j < a.len() ==> #[trigger] a[j].0 != x.0,
    ensures
        attr_index_from(a.push(x), i, x.0) == a.len(),
    decreases a.len() - i,
{
    if i < a.len() {
        assert(a.push(x)[i] == a[i]);
        lemma_attr_index_to_end(a, x, i + 1);
    } else {
        assert(a.push(x)[i] == x);
    }
}

/// The value under `k` among attributes that held no `k` before `x` was
/// appended.
proof fn lemma_attr_index_push(a: Seq<(Seq<u8>, Seq<u8>)>, x: (Seq<u8>, Seq<u8>), k: Seq<u8>)
    requires
        forall|j: int| 0 <= j < a.len() ==> #[trigger] a[j].0 != k,
    ensures
        attr_index(a.push(x), k) == if x.0 == k { a.len() as int } else { -1 },
{
    if x.0 == k {
        lemma_attr_index_to_end(a, x, 0);
    } else {
        assert forall|j: int| 0 <= j < a.push(x).len() implies #[trigger] a.push(x)[j].0 != k by {
            if j < a.len() {
                assert(a.push(x)[j] == a[j]);
            }
        }
        lemma_attr_index_absent(a.push(x), 0, k);
    }
}

/// The span a merge writes on its origin reads back as the span.
proof fn lemma_origin_span(a: Seq<(Seq<u8>, Seq<u8>)>, sr: int, sc: int, er: int, ec: int, name: Seq<u8>)
    requires
        no_merge_attrs(a),
        0 <= sr <= er < usize::MAX,
        0 <= sc <= ec < usize::MAX,
        name == /* gridSpan */ seq![103u8, 114u8, 105u8, 100u8, 83u8, 112u8, 97u8, 110u8] || name == /* rowSpan */ seq![114u8, 111u8, 119u8, 83u8, 112u8, 97u8, 110u8],
    ensures
        ({
            let m = merged_attrs(a, sr, sc, sr, sc, er, ec);
            let i = attr_index(m, name);
            let want = if name == /* gridSpan */ seq![103u8, 114u8, 105u8, 100u8, 83u8, 112u8, 97u8, 110u8] { ec - sc + 1 } else { er - sr + 1 };
            if want > 1 {
                i >= 0 && parse_unsigned(m[i].1, usize::MAX as nat) == Some(want as nat)
            } else {
                i < 0
            }
        }),
{
    let gs = /* gridSpan */ seq![103u8, 114u8, 105u8, 100u8, 83u8, 112u8, 97u8, 110u8];
    let rs = /* rowSpan */ seq![114u8, 111u8, 119u8, 83u8, 112u8, 97u8, 110u8];
    assert(gs != rs) by {
        assert(gs.len() != rs.len());
    }
    let v1 = encode_utf8(dec_nat((ec - sc + 1) as nat));
    let v2 = encode_utf8(dec_nat((er - sr + 1) as nat));
    assert forall|j: int| 0 <= j < a.len() implies #[trigger] a[j].0 != gs && a[j].0 != rs by {
        let k = a[j].0;
        assert(k != /* gridSpan */ seq![103u8, 114u8, 105u8, 100u8, 83u8, 112u8, 97u8, 110u8] && k != /* rowSpan */ seq![114u8, 111u8, 119u8, 83u8, 112u8, 97u8, 110u8] && k != /* hMerge */ seq![104u8, 77u8, 101u8, 114u8, 103u8, 101u8] && k != /* vMerge */ seq![118u8, 77u8, 101u8, 114u8, 103u8, 101u8]);
    }
    lemma_attr_index_absent(a, 0, gs);
    lemma_attr_index_absent(a, 0, rs);
    let a1 = if ec > sc { a.push((gs, v1)) } else { a };
    assert forall|j: int| 0 <= j < a1.len() implies #[trigger] a1[j].0 != rs by {
        if j < a.len() {
            assert(a1[j] == a[j]);
        }
    }
    if ec > sc {
        lemma_attr_index_push(a, (gs, v1), gs);
        lemma_attr_index_push(a, (gs, v1), rs);
    }
    let m = if er > sr { a1.push((rs, v2)) } else { a1 };
    if er > sr {
        lemma_attr_index_absent(a1, 0, rs);
        assert(set_attr_spec(a1, rs, v2) == a1.push((rs, v2)));
        lemma_attr_index_push(a1, (rs, v2), rs);
        if ec > sc {
            // gridSpan stands before the appended rowSpan
            assert(attr_index_from(a1, 0, gs) == a.len());
            lemma_attr_index_prefix(a1, (rs, v2), gs, 0);
        } else {
            assert forall|j: int| 0 <= j < a1.len() implies #[trigger] a1[j].0 != gs by {}
            lemma_attr_index_push(a1, (rs, v2), gs);
        }
    }
    if ec > sc {
        assert(set_attr_spec(a, gs, v1) == a.push((gs, v1)));
        crate::numbers::lemma_dec_reads_back((ec - sc + 1) as nat, usize::MAX as nat);
    }
    if er > sr {
        crate::numbers::lemma_dec_reads_back((er - sr + 1) as nat, usize::MAX as nat);
    }
    assert(merged_attrs(a, sr, sc, sr, sc, er, ec) == m);
}

/// Appending after a match leaves the match where it was.
proof fn lemma_attr_index_prefix(a: Seq<(Seq<u8>, Seq<u8>)>, x: (Seq<u8>, Seq<u8>), k: Seq<u8>, i: int)
    requires
        0 <= i,
        attr_index_from(a, i, k) >= 0,
    ensures
        attr_index_from(a.push(x), i, k) == attr_index_from(a, i, k),
    decreases a.len() - i,
{
    if i < a.len() {
        assert(a.push(x)[i] == a[i]);
        if a[i].0 != k {
            lemma_attr_index_prefix(a, x, k, i + 1);
        }
    }
}

/// `n` is cell `o` at (`r`, `c`) after edit `op` of the rectangle
/// `sr..=er` × `sc..=ec`.
pub open spec fn cell_changed(op: u8, o: Element, n: Element, r: int, c: int, sr: int, sc: int, er: int, ec: int) -> bool {
    if op == op_merge() {
        cell_merged(o, n, r, c, sr, sc, er, ec)
    } else {
        cell_split(o, n, r, c, sr, sc)
    }
}

/// Child `j` of row `r` after the edit: a cell whose column (its rank among
/// the cells) lies in `sc..=ec` is changed, anything else stays.
pub open spec fn row_slot_changed(op: u8, os: Seq<Node>, n: Node, j: int, r: int, sr: int, sc: int, er: int, ec: int) -> bool {
    let c = count_kind(os.take(j), kind_cell()) as int;
    if is_named(os[j], /* tc */ seq![116u8, 99u8]) && sc <= c <= ec {
        n is Element && cell_changed(op, os[j]->Element_0, n->Element_0, r, c, sr, sc, er, ec)
    } else {
        n == os[j]
    }
}

/// `n` is row `o` (row `r`) after the edit.
pub open spec fn row_changed(op: u8, o: Element, n: Element, r: int, sr: int, sc: int, er: int, ec: int) -> bool {
    &&& same_tags(o, n)
    &&& n.children@.len() == o.children@.len()
    &&& forall|j: int| 0 <= j < o.children@.len() ==> #[trigger] row_slot_changed(op, o.children@, n.children@[j], j, r, sr, sc, er, ec)
}

/// Child `j` of a table after the edit: a row whose rank among the rows lies
/// in `sr..=er` is changed, anything else stays.
pub open spec fn table_slot_changed(op: u8, os: Seq<Node>, n: Node, j: int, sr: int, sc: int, er: int, ec: int) -> bool {
    let r = count_kind(os.take(j), kind_row()) as int;
    if is_named(os[j], /* tr */ seq![116u8, 114u8]) && sr <= r <= er {
        n is Element && row_changed(op, os[j]->Element_0, n->Element_0, r, sr, sc, er, ec)
    } else {
        n == os[j]
    }
}

/// `n` is table `o` after edit `op` of the rectangle `sr..=er` × `sc..=ec`.
pub open spec fn table_changed(op: u8, o: Element, n: Element, sr: int, sc: int, er: int, ec: int) -> bool {
    &&& same_tags(o, n)
    &&& n.children@.len() == o.children@.len()
    &&& forall|j: int| 0 <= j < o.children@.len() ==> #[trigger] table_slot_changed(op, o.children@, n.children@[j], j, sr, sc, er, ec)
}

fn change_cell(op: u8, tc: &mut Element, r: usize, c: usize, sr: usize, sc: usize, er: usize, ec: usize)
    requires
        op == op_merge() ==> sr <= er < usize::MAX && sc <= ec < usize::MAX,
        sr <= r,
        sc <= c,
    ensures
        cell_changed(op, *old(tc), *final(tc), r as int, c as int, sr as int, sc as int, er as int, ec as int),
{
    let ghost a0 = tc.attrs_v();
    if op == 0 {
        if r == sr && c == sc {
            if ec > sc {
                let k: [u8; 8] = /* gridSpan */ [103u8, 114u8, 105u8, 100u8, 83u8, 112u8, 97u8, 110u8];
                assert(k@ =~= /* gridSpan */ seq![103u8, 114u8, 105u8, 100u8, 83u8, 112u8, 97u8, 110u8]);
                let d = dec_u64((ec - sc + 1) as u64);
                tc.set_attr(k.as_slice(), d.as_str().as_bytes());
            }
            let ghost a1 = tc.attrs_v();
            assert(a1 == if ec > sc {
                set_attr_spec(a0, /* gridSpan */ seq![103u8, 114u8, 105u8, 100u8, 83u8, 112u8, 97u8, 110u8], encode_utf8(dec_nat((ec - sc + 1) as nat)))
            } else {
                a0
            });
            if er > sr {
                let k: [u8; 7] = /* rowSpan */ [114u8, 111u8, 119u8, 83u8, 112u8, 97u8, 110u8];
                assert(k@ =~= /* rowSpan */ seq![114u8, 111u8, 119u8, 83u8, 112u8, 97u8, 110u8]);
                let d = dec_u64((er - sr + 1) as u64);
                tc.set_attr(k.as_slice(), d.as_str().as_bytes());
            }
            assert(tc.attrs_v() == if er > sr {
                set_attr_spec(a1, /* rowSpan */ seq![114u8, 111u8, 119u8, 83u8, 112u8, 97u8, 110u8], encode_utf8(dec_nat((er - sr + 1) as nat)))
            } else {
                a1
            });
        } else {
            let one: [u8; 1] = /* 1 */ [49u8];
            assert(one@ =~= /* 1 */ seq![49u8]);
            if r > sr {
                let k: [u8; 6] = /* vMerge */ [118u8, 77u8, 101u8, 114u8, 103u8, 101u8];
                assert(k@ =~= /* vMerge */ seq![118u8, 77u8, 101u8, 114u8, 103u8, 101u8]);
                tc.set_attr(k.as_slice(), one.as_slice());
            }
            let ghost a1 = tc.attrs_v();
            assert(a1 == if r > sr { set_attr_spec(a0, /* vMerge */ seq![118u8, 77u8, 101u8, 114u8, 103u8, 101u8], /* 1 */ seq![49u8]) } else { a0 });
            if c > sc {
                let k: [u8; 6] = /* hMerge */ [104u8, 77u8, 101u8, 114u8, 103u8, 101u8];
                assert(k@ =~= /* hMerge */ seq![104u8, 77u8, 101u8, 114u8, 103u8, 101u8]);
                tc.set_attr(k.as_slice(), one.as_slice());
            }
            assert(tc.attrs_v() == if c > sc { set_attr_spec(a1, /* hMerge */ seq![104u8, 77u8, 101u8, 114u8, 103u8, 101u8], /* 1 */ seq![49u8]) } else { a1 });
            let t: [u8; 6] = /* txBody */ [116u8, 120u8, 66u8, 111u8, 100u8, 121u8];
            assert(t@ =~= /* txBody */ seq![116u8, 120u8, 66u8, 111u8, 100u8, 121u8]);
            drop_children_named(tc, t.as_slice(), t.as_slice(), t.as_slice());
            let ghost before = tc.children@;
            tc.children.push(Node::Element(empty_txbody()));
            assert(tc.children@.drop_last() =~= before);
        }
    } else {
        let a: [u8; 8] = /* gridSpan */ [103u8, 114u8, 105u8, 100u8, 83u8, 112u8, 97u8, 110u8];
        let b: [u8; 7] = /* rowSpan */ [114u8, 111u8, 119u8, 83u8, 112u8, 97u8, 110u8];
        let h: [u8; 6] = /* hMerge */ [104u8, 77u8, 101u8, 114u8, 103u8, 101u8];
        let v: [u8; 6] = /* vMerge */ [118u8, 77u8, 101u8, 114u8, 103u8, 101u8];
        assert(a@ =~= /* gridSpan */ seq![103u8, 114u8, 105u8, 100u8, 83u8, 112u8, 97u8, 110u8]);
        assert(b@ =~= /* rowSpan */ seq![114u8, 111u8, 119u8, 83u8, 112u8, 97u8, 110u8]);
        assert(h@ =~= /* hMerge */ seq![104u8, 77u8, 101u8, 114u8, 103u8, 101u8]);
        assert(v@ =~= /* vMerge */ seq![118u8, 77u8, 101u8, 114u8, 103u8, 101u8]);
        if r == sr && c == sc {
            let names: [&[u8]; 2] = [a.as_slice(), b.as_slice()];
            assert(slice_views(names@) =~= split_names(r as int, c as int, sr as int, sc as int));
            tc.remove_attrs(names.as_slice());
        } else {
            let names: [&[u8]; 2] = [h.as_slice(), v.as_slice()];
            assert(slice_views(names@) =~= split_names(r as int, c as int, sr as int, sc as int));
            tc.remove_attrs(names.as_slice());
        }
    }
}

fn change_row(op: u8, tr: &mut Element, r: usize, sr: usize, sc: usize, er: usize, ec: usize)
    requires
        op == op_merge() ==> sr <= er < usize::MAX && sc <= ec < usize::MAX,
        sr <= r,
    ensures
        row_changed(op, *old(tr), *final(tr), r as int, sr as int, sc as int, er as int, ec as int),
{
    let mut j: usize = 0;
    let mut c: usize = 0;
    while j < tr.children.len()
        invariant
            op == op_merge() ==> sr <= er < usize::MAX && sc <= ec < usize::MAX,
            sr <= r,
            j <= tr.children@.len(),
            c <= j,
            c == count_kind(old(tr).children@.take(j as int), kind_cell()),
            tr.children@.len() == old(tr).children@.len(),
            same_tags(*old(tr), *tr),
            forall|k: int| 0 <= k < j ==> #[trigger] row_slot_changed(op, old(tr).children@, tr.children@[k], k,
                r as int, sr as int, sc as int, er as int, ec as int),
            forall|k: int| j <= k < tr.children@.len() ==> tr.children@[k] == old(tr).children@[k],
        decreases tr.children@.len() - j,
    {
        proof {
            assert(old(tr).children@.take(j + 1).drop_last() =~= old(tr).children@.take(j as int));
        }
        if is_kind(&tr.children[j], 5) {
            if sc <= c && c <= ec {
                let tc = node_element_mut(&mut tr.children, j).unwrap();
                change_cell(op, tc, r, c, sr, sc, er, ec);
            }
            c = c + 1;
        }
        j = j + 1;
    }
}

fn change_table(op: u8, tbl: &mut Element, sr: usize, sc: usize, er: usize, ec: usize)
    requires
        op == op_merge() ==> sr <= er < usize::MAX && sc <= ec < usize::MAX,
    ensures
        table_changed(op, *old(tbl), *final(tbl), sr as int, sc as int, er as int, ec as int),
{
    let mut j: usize = 0;
    let mut r: usize = 0;
    while j < tbl.children.len()
        invariant
            op == op_merge() ==> sr <= er < usize::MAX && sc <= ec < usize::MAX,
            j <= tbl.children@.len(),
            r <= j,
            r == count_kind(old(tbl).children@.take(j as int), kind_row()),
            tbl.children@.len() == old(tbl).children@.len(),
            same_tags(*old(tbl), *tbl),
            forall|k: int| 0 <= k < j ==> #[trigger] table_slot_changed(op, old(tbl).children@, tbl.children@[k], k,
                sr as int, sc as int, er as int, ec as int),
            forall|k: int| j <= k < tbl.children@.len() ==> tbl.children@[k] == old(tbl).children@[k],
        decreases tbl.children@.len() - j,
    {
        proof {
            assert(old(tbl).children@.take(j + 1).drop_last() =~= old(tbl).children@.take(j as int));
        }
        if is_kind(&tbl.children[j], 4) {
            if sr <= r && r <= er {
                let tr = node_element_mut(&mut tbl.children, j).unwrap();
                change_row(op, tr, r, sr, sc, er, ec);
            }
            r = r + 1;
        }
        j = j + 1;
    }
}

/// The cell at row `row`, column `col` of a table, when there is one.
pub open spec fn cell_at(t: Element, row: int, col: int) -> Option<Element> {
    let ri = nth_kind(t.children@, kind_row(), row);
    if ri < 0 {
        None
    } else {
        let tr = t.children@[ri]->Element_0;
        let ci = nth_kind(tr.children@, kind_cell(), col);
        if ci < 0 {
            None
        } else {
            Some(tr.children@[ci]->Element_0)
        }
    }
}

/// The span a cell declares in attribute `name`: its decimal value, or 1
/// when the cell, the attribute or a valid value is missing.
pub open spec fn span_value(cell: Option<Element>, name: Seq<u8>) -> nat {
    match cell {
        Some(c) => match attr_value(c, name) {
            Some(v) => match parse_unsigned(v, usize::MAX as nat) {
                Some(n) => n,
                None => 1,
            },
            None => 1,
        },
        None => 1,
    }
}

/// The last row a split of the merge at (`row`, `col`) reaches.
pub open spec fn split_end_row(t: Element, row: int, col: int) -> int {
    row + span_value(cell_at(t, row, col), /* rowSpan */ seq![114u8, 111u8, 119u8, 83u8, 112u8, 97u8, 110u8]) - 1
}

/// The last column a split of the merge at (`row`, `col`) reaches.
pub open spec fn split_end_col(t: Element, row: int, col: int) -> int {
    col + span_value(cell_at(t, row, col), /* gridSpan */ seq![103u8, 114u8, 105u8, 100u8, 83u8, 112u8, 97u8, 110u8]) - 1
}

/// The spans a split reads from the origin cell reach no further than the
/// machine's index range: the end row and column are representable.
pub open spec fn split_spans_fit(d: Document, idx: int, row: int, col: int) -> bool {
    match table_path(d, idx) {
        Some(p) => {
            let t = doc_at(d, p);
            (row < row_count(t) && col < grid_col_count(t)) ==> (0 <= split_end_row(t, row, col) < usize::MAX
                && 0 <= split_end_col(t, row, col) < usize::MAX)
        },
        None => true,
    }
}

/// The span a cell declares in attribute `name`, computed.
fn cell_span(t: &Element, row: usize, col: usize, name: &[u8]) -> (r: usize)
    ensures
        r == span_value(cell_at(*t, row as int, col as int), name@),
{
    let ri = match nth_position(&t.children, 4, row) {
        Some(i) => i,
        None => return 1,
    };
    let tr = match &t.children[ri] {
        Node::Element(e) => e,
        Node::Raw(_) => return 1,
    };
    let ci = match nth_position(&tr.children, 5, col) {
        Some(i) => i,
        None => return 1,
    };
    let tc = match &tr.children[ci] {
        Node::Element(e) => e,
        Node::Raw(_) => return 1,
    };
    match tc.attr(name) {
        Some(v) => match parse_usize(v) {
            Some(n) => n,
            None => 1,
        },
        None => 1,
    }
}

impl SlideDom {
    /// Merge the cells of rows `start_row..=end_row` and columns
    /// `start_col..=end_col` of the table of drawable `shape_idx`: the origin
    /// cell gets `gridSpan`/`rowSpan` and keeps its content; every other cell
    /// of the range gets `vMerge`/`hMerge` and an empty text body. Fails,
    /// changing nothing, when the range is inverted, there is no such table,
    /// or the range reaches past its rows or grid columns.
    pub fn merge_table_cells(
        &mut self,
        shape_idx: usize,
        start_row: usize,
        start_col: usize,
        end_row: usize,
        end_col: usize,
    ) -> (r: Result<(), OxmlError>)
        ensures
            r is Ok <==> (start_row <= end_row && start_col <= end_col && (table_path(
                old(self).document(),
                shape_idx as int,
            ) matches Some(p) && end_row < row_count(doc_at(old(self).document(), p)) && end_col
                < grid_col_count(doc_at(old(self).document(), p)))),
            r is Err ==> final(self).document() == old(self).document(),
            r matches Err(e) ==> parse_error_is(
                e,
                merge_error(old(self).document(), shape_idx as int, start_row as nat, start_col as nat, end_row as nat, end_col as nat),
            ),
            r is Ok ==> {
                let p = table_path(old(self).document(), shape_idx as int).unwrap();
                exists|new_t: Element| {
                    &&& doc_replaced(old(self).document(), final(self).document(), p, new_t)
                    &&& #[trigger] table_changed(op_merge(), doc_at(old(self).document(), p), new_t,
                        start_row as int, start_col as int, end_row as int, end_col as int)
                }
            },
    {
        if start_row > end_row || start_col > end_col {
            let mut m = message2("invalid merge range: start (", start_row, ",", start_col, ") must be <= end (");
            let a = dec_u64(end_row as u64);
            push_str(&mut m, a.as_str());
            push_str(&mut m, ",");
            let b = dec_u64(end_col as u64);
            push_str(&mut m, b.as_str());
            push_str(&mut m, ")");
            return Err(OxmlError::Parse(m));
        }
        let p = match find_table_path(&self.doc, shape_idx) {
            Ok(p) => p,
            Err(e) => return Err(e),
        };
        let root = self.doc.root().unwrap();
        assert(p@.skip(0) =~= p@);
        let t = element_at(root, &p, 0);
        let rows = count_of_kind(&t.children, 4);
        let cols = grid_cols(t);
        if end_row >= rows {
            return Err(OxmlError::Parse(message2("end_row ", end_row, " out of range (table has ", rows, " rows)")));
        }
        if end_col >= cols {
            return Err(OxmlError::Parse(message2("end_col ", end_col, " out of range (table has ", cols, " columns)")));
        }
        let ghost old_t = doc_at(self.doc, p@);
        let tbl = self.doc.element_at_mut(&p).unwrap();
        change_table(0, tbl, start_row, start_col, end_row, end_col);
        let ghost new_t = *tbl;
        proof {
            assert(self.document() == self.doc);
            assert(old(self).document() == old(self).doc);
            assert(old_t == doc_at(old(self).document(), table_path(old(self).document(), shape_idx as int).unwrap()));
            assert(table_changed(op_merge(), old_t, new_t, start_row as int, start_col as int, end_row as int, end_col as int));
            assert(doc_replaced(old(self).document(), self.document(), p@, new_t));
        }
        Ok(())
    }

    /// Split the merge whose origin is the cell at (`row`, `col`) of the
    /// table of drawable `shape_idx`: the spans the origin declares give the
    /// rectangle; the origin loses `gridSpan`/`rowSpan`, every other cell of
    /// it `hMerge`/`vMerge`. Fails, changing nothing, when there is no such
    /// table or the cell position lies past its rows or grid columns.
    pub fn split_table_cell(&mut self, shape_idx: usize, row: usize, col: usize) -> (r: Result<(), OxmlError>)
        requires
            split_spans_fit(old(self).document(), shape_idx as int, row as int, col as int),
        ensures
            r is Ok <==> (table_path(old(self).document(), shape_idx as int) matches Some(p) && row < row_count(
                doc_at(old(self).document(), p),
            ) && col < grid_col_count(doc_at(old(self).document(), p))),
            r is Err ==> final(self).document() == old(self).document(),
            r is Ok ==> {
                let p = table_path(old(self).document(), shape_idx as int).unwrap();
                let t = doc_at(old(self).document(), p);
                exists|new_t: Element| {
                    &&& doc_replaced(old(self).document(), final(self).document(), p, new_t)
                    &&& #[trigger] table_changed(op_split(), t, new_t, row as int, col as int,
                        split_end_row(t, row as int, col as int), split_end_col(t, row as int, col as int))
                }
            },
    {
        let p = match find_table_path(&self.doc, shape_idx) {
            Ok(p) => p,
            Err(e) => return Err(e),
        };
        let root = self.doc.root().unwrap();
        assert(p@.skip(0) =~= p@);
        let t = element_at(root, &p, 0);
        let rows = count_of_kind(&t.children, 4);
        let cols = grid_cols(t);
        if row >= rows {
            return Err(OxmlError::Parse(message2("row ", row, " out of range (table has ", rows, " rows)")));
        }
        if col >= cols {
            return Err(OxmlError::Parse(message2("col ", col, " out of range (table has ", cols, " columns)")));
        }
        let gs_name: [u8; 8] = /* gridSpan */ [103u8, 114u8, 105u8, 100u8, 83u8, 112u8, 97u8, 110u8];
        let rs_name: [u8; 7] = /* rowSpan */ [114u8, 111u8, 119u8, 83u8, 112u8, 97u8, 110u8];
        assert(gs_name@ =~= /* gridSpan */ seq![103u8, 114u8, 105u8, 100u8, 83u8, 112u8, 97u8, 110u8]);
        assert(rs_name@ =~= /* rowSpan */ seq![114u8, 111u8, 119u8, 83u8, 112u8, 97u8, 110u8]);
        let gs = cell_span(t, row, col, gs_name.as_slice());
        let rs = cell_span(t, row, col, rs_name.as_slice());
        let end_row = row + rs - 1;
        let end_col = col + gs - 1;
        let ghost old_t = doc_at(self.doc, p@);
        let tbl = self.doc.element_at_mut(&p).unwrap();
        change_table(1, tbl, row, col, end_row, end_col);
        let ghost new_t = *tbl;
        proof {
            assert(self.document() == self.doc);
            assert(old(self).document() == old(self).doc);
            assert(old_t == doc_at(old(self).document(), table_path(old(self).document(), shape_idx as int).unwrap()));
            assert(split_end_row(old_t, row as int, col as int) == end_row);
            assert(split_end_col(old_t, row as int, col as int) == end_col);
            assert(table_changed(op_split(), old_t, new_t, row as int, col as int, end_row as int, end_col as int));
            assert(doc_replaced(old(self).document(), self.document(), p@, new_t));
        }
        Ok(())
    }
}

// ─── Cells ──────────────────────────────────────────────────────────────────

/// Path to the cell at row `row`, column `col` of the table of drawable
/// `idx`.
pub open spec fn cell_path(d: Document, idx: int, row: int, col: int) -> Option<Seq<usize>> {
    match table_path(d, idx) {
        Some(p) => {
            let t = doc_at(d, p);
            let ri = nth_kind(t.children@, kind_row(), row);
            if ri < 0 {
                None
            } else {
                let tr = t.children@[ri]->Element_0;
                let ci = nth_kind(tr.children@, kind_cell(), col);
                if ci < 0 {
                    None
                } else {
                    Some(p.push(ri as usize).push(ci as usize))
                }
            }
        },
        None => None,
    }
}

/// Path to the first paragraph of the first text body below the cell at
/// (`row`, `col`).
pub open spec fn cell_paragraph_path(d: Document, idx: int, row: int, col: int) -> Option<Seq<usize>> {
    match cell_path(d, idx, row, col) {
        Some(q) => match desc_path(doc_at(d, q), /* txBody */ seq![116u8, 120u8, 66u8, 111u8, 100u8, 121u8]) {
            Some(b) => {
                let i = first_named_index(doc_at(d, q + b).children@, /* p */ seq![112u8]);
                if i >= 0 {
                    Some((q + b).push(i as usize))
                } else {
                    None
                }
            },
            None => None,
        },
        None => None,
    }
}

/// `new` is `old` whose text bodies were removed and a child written as
/// `body` appended.
pub open spec fn body_replaced(old: Element, new: Element, body: Seq<u8>) -> bool {
    &&& same_tags(old, new)
    &&& new.children@.len() > 0
    &&& new.children@.drop_last() == without_names(old.children@, /* txBody */ seq![116u8, 120u8, 66u8, 111u8, 100u8, 121u8], /* txBody */ seq![116u8, 120u8, 66u8, 111u8, 100u8, 121u8], /* txBody */ seq![116u8, 120u8, 66u8, 111u8, 100u8, 121u8])
    &&& node_bytes(new.children@.last()) == body
}

/// The bytes of a text body holding one paragraph of `text`.
pub open spec fn text_body_bytes(text: Seq<char>) -> Seq<u8> {
    /* <a:txBody><a:bodyPr/><a:lstStyle/> */ seq![60u8, 97u8, 58u8, 116u8, 120u8, 66u8, 111u8, 100u8, 121u8, 62u8, 60u8, 97u8, 58u8, 98u8, 111u8, 100u8, 121u8, 80u8, 114u8, 47u8, 62u8, 60u8, 97u8, 58u8, 108u8, 115u8, 116u8, 83u8, 116u8, 121u8, 108u8, 101u8, 47u8, 62u8] + para_bytes(text, None) + /* </a:txBody> */ seq![60u8, 47u8, 97u8, 58u8, 116u8, 120u8, 66u8, 111u8, 100u8, 121u8, 62u8]
}

/// Index of a cell's properties element (its first `tcPr`), or -1.
pub open spec fn tcpr_index(tc: Element) -> int {
    first_named_index(tc.children@, /* tcPr */ seq![116u8, 99u8, 80u8, 114u8])
}

/// `new` is cell `old` whose properties element (a fresh self-closing
/// `a:tcPr` put first when it had none) got the attributes `kvs` set in
/// order; nothing else changed.
pub open spec fn tcpr_attrs_set(old: Element, new: Element, kvs: Seq<(Seq<u8>, Seq<u8>)>) -> bool {
    let i = tcpr_index(old);
    let slot = if i >= 0 { i } else { 0 };
    &&& same_tags(old, new)
    &&& new.children@.len() > slot
    &&& new.children@[slot] is Element
    &&& new.children@ == if i >= 0 {
        old.children@.update(slot, new.children@[slot])
    } else {
        old.children@.insert(0, new.children@[0])
    }
    &&& {
        let q = new.children@[slot]->Element_0;
        &&& q.dirty
        &&& if i >= 0 {
            let o = old.children@[i]->Element_0;
            &&& q.attrs_v() == set_attrs_spec(o.attrs_v(), kvs)
            &&& q.name == o.name
            &&& q.raw_start == o.raw_start
            &&& q.raw_end == o.raw_end
            &&& q.self_closing == o.self_closing
            &&& q.children == o.children
        } else {
            &&& q.attrs_v() == set_attrs_spec(Seq::empty(), kvs)
            &&& q.name@ == /* a:tcPr */ seq![97u8, 58u8, 116u8, 99u8, 80u8, 114u8]
            &&& q.raw_start@.len() == 0
            &&& q.raw_end@.len() == 0
            &&& q.self_closing
            &&& q.children@.len() == 0
        }
    }
}

/// Attributes after setting each pair of `kvs` in turn.
pub open spec fn set_attrs_spec(a: Seq<(Seq<u8>, Seq<u8>)>, kvs: Seq<(Seq<u8>, Seq<u8>)>) -> Seq<(Seq<u8>, Seq<u8>)>
    decreases kvs.len(),
{
    if kvs.len() == 0 {
        a
    } else {
        set_attr_spec(set_attrs_spec(a, kvs.drop_last()), kvs.last().0, kvs.last().1)
    }
}

/// The margin attributes of a cell, in the order they are set.
pub open spec fn margin_kvs(left: i64, top: i64, right: i64, bottom: i64) -> Seq<(Seq<u8>, Seq<u8>)> {
    seq![
        (/* marL */ seq![109u8, 97u8, 114u8, 76u8], encode_utf8(dec_int(left as int))),
        (/* marT */ seq![109u8, 97u8, 114u8, 84u8], encode_utf8(dec_int(top as int))),
        (/* marR */ seq![109u8, 97u8, 114u8, 82u8], encode_utf8(dec_int(right as int))),
        (/* marB */ seq![109u8, 97u8, 114u8, 66u8], encode_utf8(dec_int(bottom as int))),
    ]
}

/// Where a cell's properties element is once it is ensured.
pub open spec fn tcpr_slot(tc: Element) -> int {
    if tcpr_index(tc) >= 0 {
        tcpr_index(tc)
    } else {
        0
    }
}

/// Mutable access to a cell's properties element, putting a fresh
/// self-closing `a:tcPr` first when it has none.
pub(crate) fn tcpr_mut(tc: &mut Element) -> (r: &mut Element)
    ensures
        same_tags(*old(tc), *final(tc)),
        final(tc).children@.len() > tcpr_slot(*old(tc)),
        final(tc).children@[tcpr_slot(*old(tc))] == Node::Element(*final(r)),
        final(tc).children@ == if tcpr_index(*old(tc)) >= 0 {
            old(tc).children@.update(tcpr_slot(*old(tc)), final(tc).children@[tcpr_slot(*old(tc))])
        } else {
            old(tc).children@.insert(0, final(tc).children@[0])
        },
        tcpr_index(*old(tc)) >= 0 ==> *r == old(tc).children@[tcpr_index(*old(tc))]->Element_0,
        tcpr_index(*old(tc)) < 0 ==> {
            &&& r.name@ == /* a:tcPr */ seq![97u8, 58u8, 116u8, 99u8, 80u8, 114u8]
            &&& r.attrs_v() == Seq::<(Seq<u8>, Seq<u8>)>::empty()
            &&& r.raw_start@.len() == 0
            &&& r.raw_end@.len() == 0
            &&& r.self_closing
            &&& r.children@.len() == 0
        },
{
    let name: [u8; 4] = /* tcPr */ [116u8, 99u8, 80u8, 114u8];
    assert(name@ =~= /* tcPr */ seq![116u8, 99u8, 80u8, 114u8]);
    proof { lemma_first_named_index(tc.children@, /* tcPr */ seq![116u8, 99u8, 80u8, 114u8]); }
    match first_named_position(&tc.children, name.as_slice()) {
        Some(i) => node_element_mut(&mut tc.children, i).unwrap(),
        None => {
            let q: [u8; 6] = /* a:tcPr */ [97u8, 58u8, 116u8, 99u8, 80u8, 114u8];
            assert(q@ =~= /* a:tcPr */ seq![97u8, 58u8, 116u8, 99u8, 80u8, 114u8]);
            let mut e = new_element(q.as_slice());
            e.self_closing = true;
            proof {
                assert(e.attrs_v() =~= Seq::<(Seq<u8>, Seq<u8>)>::empty());
                lemma_insert_update(tc.children@);
            }
            tc.children.insert(0, Node::Element(e));
            node_element_mut(&mut tc.children, 0).unwrap()
        },
    }
}

/// Set the margin attributes, in order, to the decimal texts given.
fn set_margins(pr: &mut Element, l: &String, t: &String, r: &String, b: &String)
    ensures
        final(pr).attrs_v() == set_attr_spec(set_attr_spec(set_attr_spec(set_attr_spec(old(pr).attrs_v(),
            /* marL */ seq![109u8, 97u8, 114u8, 76u8], encode_utf8(l@)), /* marT */ seq![109u8, 97u8, 114u8, 84u8], encode_utf8(t@)), /* marR */ seq![109u8, 97u8, 114u8, 82u8], encode_utf8(r@)), /* marB */ seq![109u8, 97u8, 114u8, 66u8], encode_utf8(b@)),
        final(pr).dirty,
        final(pr).name == old(pr).name,
        final(pr).raw_start == old(pr).raw_start,
        final(pr).raw_end == old(pr).raw_end,
        final(pr).self_closing == old(pr).self_closing,
        final(pr).children == old(pr).children,
{
    let kl: [u8; 4] = /* marL */ [109u8, 97u8, 114u8, 76u8];
    let kt: [u8; 4] = /* marT */ [109u8, 97u8, 114u8, 84u8];
    let kr: [u8; 4] = /* marR */ [109u8, 97u8, 114u8, 82u8];
    let kb: [u8; 4] = /* marB */ [109u8, 97u8, 114u8, 66u8];
    assert(kl@ =~= /* marL */ seq![109u8, 97u8, 114u8, 76u8]);
    assert(kt@ =~= /* marT */ seq![109u8, 97u8, 114u8, 84u8]);
    assert(kr@ =~= /* marR */ seq![109u8, 97u8, 114u8, 82u8]);
    assert(kb@ =~= /* marB */ seq![109u8, 97u8, 114u8, 66u8]);
    pr.set_attr(kl.as_slice(), l.as_str().as_bytes());
    pr.set_attr(kt.as_slice(), t.as_str().as_bytes());
    pr.set_attr(kr.as_slice(), r.as_str().as_bytes());
    pr.set_attr(kb.as_slice(), b.as_str().as_bytes());
}

/// Path to the cell at (`row`, `col`) of the table of drawable `idx`,
/// computed.
pub(crate) fn find_cell_path(d: &Document, idx: usize, row: usize, col: usize) -> (r: Result<Vec<usize>, OxmlError>)
    ensures
        match r {
            Ok(p) => cell_path(*d, idx as int, row as int, col as int) == Some(p@) && valid_path(doc_root(*d).unwrap(), p@),
            Err(_) => cell_path(*d, idx as int, row as int, col as int) is None,
        },
{
    let mut p = match find_table_path(d, idx) {
        Ok(p) => p,
        Err(e) => return Err(e),
    };
    let root = d.root().unwrap();
    assert(p@.skip(0) =~= p@);
    let t = element_at(root, &p, 0);
    let ri = match nth_position(&t.children, 4, row) {
        Some(i) => i,
        None => {
            let c = count_of_kind(&t.children, 4);
            return Err(OxmlError::Parse(message2("row index ", row, " out of range (have ", c, " rows)")));
        },
    };
    let tr = match &t.children[ri] {
        Node::Element(e) => e,
        Node::Raw(_) => return Err(OxmlError::Parse(string_of("row is not an element"))),
    };
    let ci = match nth_position(&tr.children, 5, col) {
        Some(i) => i,
        None => {
            let c = count_of_kind(&tr.children, 5);
            return Err(OxmlError::Parse(message2("tc index ", col, " out of range (have ", c, " elements)")));
        },
    };
    proof { lemma_path_push(*root, p@, ri); }
    let ghost p0 = p@;
    p.push(ri);
    proof { lemma_path_push(*root, p@, ci); }
    p.push(ci);
    assert(p@ == p0.push(ri).push(ci));
    Ok(p)
}

impl SlideDom {
    /// Replace the text of the cell at (`row_idx`, `col_idx`) of the table of
    /// drawable `shape_idx`: its text bodies are removed and one holding a
    /// single paragraph of `text` is appended. Fails, changing nothing, when
    /// there is no such cell.
    pub fn set_cell_text(&mut self, shape_idx: usize, row_idx: usize, col_idx: usize, text: &str) -> (r: Result<(), OxmlError>)
        ensures
            r is Ok <==> cell_path(old(self).document(), shape_idx as int, row_idx as int, col_idx as int) is Some,
            r is Err ==> final(self).document() == old(self).document(),
            r is Ok ==> {
                let q = cell_path(old(self).document(), shape_idx as int, row_idx as int, col_idx as int).unwrap();
                exists|new_c: Element| {
                    &&& doc_replaced(old(self).document(), final(self).document(), q, new_c)
                    &&& #[trigger] body_replaced(doc_at(old(self).document(), q), new_c, text_body_bytes(text@))
                }
            },
    {
        let p = match find_cell_path(&self.doc, shape_idx, row_idx, col_idx) {
            Ok(p) => p,
            Err(e) => return Err(e),
        };
        let para = make_paragraph(text, &None);
        let n: [u8; 8] = /* a:txBody */ [97u8, 58u8, 116u8, 120u8, 66u8, 111u8, 100u8, 121u8];
        assert(n@ =~= /* a:txBody */ seq![97u8, 58u8, 116u8, 120u8, 66u8, 111u8, 100u8, 121u8]);
        let body = txbody_of(n.as_slice(), para);
        assert(element_bytes(body) =~= text_body_bytes(text@));
        let ghost old_c = doc_at(self.doc, p@);
        let tc = self.doc.element_at_mut(&p).unwrap();
        let t: [u8; 6] = /* txBody */ [116u8, 120u8, 66u8, 111u8, 100u8, 121u8];
        assert(t@ =~= /* txBody */ seq![116u8, 120u8, 66u8, 111u8, 100u8, 121u8]);
        drop_children_named(tc, t.as_slice(), t.as_slice(), t.as_slice());
        let ghost before = tc.children@;
        tc.children.push(Node::Element(body));
        let ghost new_c = *tc;
        proof {
            assert(new_c.children@.drop_last() =~= before);
            assert(body_replaced(old_c, new_c, text_body_bytes(text@)));
            assert(self.document() == self.doc);
            assert(old(self).document() == old(self).doc);
            assert(old_c == doc_at(old(self).document(), cell_path(old(self).document(), shape_idx as int, row_idx as int, col_idx as int).unwrap()));
        }
        Ok(())
    }

    /// Set the alignment (`algn`) of the first paragraph of the text body of
    /// the cell at (`row_idx`, `col_idx`) of the table of drawable
    /// `shape_idx`, creating its `a:pPr` when absent. Fails, changing
    /// nothing, when there is no such cell, text body or paragraph.
    pub fn set_cell_alignment(&mut self, shape_idx: usize, row_idx: usize, col_idx: usize, algn: &str) -> (r: Result<(), OxmlError>)
        ensures
            r is Ok <==> cell_paragraph_path(old(self).document(), shape_idx as int, row_idx as int, col_idx as int) is Some,
            r is Err ==> final(self).document() == old(self).document(),
            r is Ok ==> {
                let q = cell_paragraph_path(old(self).document(), shape_idx as int, row_idx as int, col_idx as int).unwrap();
                exists|new_p: Element| {
                    &&& #[trigger] doc_replaced(old(self).document(), final(self).document(), q, new_p)
                    &&& ppr_attr_set(doc_at(old(self).document(), q), new_p, /* algn */ seq![97u8, 108u8, 103u8, 110u8], encode_utf8(algn@))
                }
            },
    {
        let mut p = match find_cell_path(&self.doc, shape_idx, row_idx, col_idx) {
            Ok(p) => p,
            Err(e) => return Err(e),
        };
        let root = self.doc.root().unwrap();
        assert(p@.skip(0) =~= p@);
        let tc = element_at(root, &p, 0);
        let tb: [u8; 6] = /* txBody */ [116u8, 120u8, 66u8, 111u8, 100u8, 121u8];
        assert(tb@ =~= /* txBody */ seq![116u8, 120u8, 66u8, 111u8, 100u8, 121u8]);
        let mut b = match tc.find_descendant_path(tb.as_slice()) {
            Some(b) => b,
            None => return Err(OxmlError::Parse(string_of("table cell has no txBody"))),
        };
        proof {
            lemma_desc_path(*tc, /* txBody */ seq![116u8, 120u8, 66u8, 111u8, 100u8, 121u8]);
            lemma_at_path_concat(*root, p@, b@);
        }
        let ghost q0 = p@;
        let ghost bv = b@;
        p.append(&mut b);
        assert(p@ =~= q0 + bv);
        assert(p@.skip(0) =~= p@);
        let tx = element_at(root, &p, 0);
        let pn: [u8; 1] = /* p */ [112u8];
        assert(pn@ =~= /* p */ seq![112u8]);
        proof { lemma_first_named_index(tx.children@, /* p */ seq![112u8]); }
        let i = match first_named_position(&tx.children, pn.as_slice()) {
            Some(i) => i,
            None => return Err(OxmlError::Parse(string_of("cell txBody has no paragraph"))),
        };
        proof { lemma_path_push(*root, p@, i); }
        let ghost q1 = p@;
        p.push(i);
        let ghost old_p = doc_at(self.doc, p@);
        let para = self.doc.element_at_mut(&p).unwrap();
        let ppr = ppr_mut(para);
        let key: [u8; 4] = /* algn */ [97u8, 108u8, 103u8, 110u8];
        assert(key@ =~= /* algn */ seq![97u8, 108u8, 103u8, 110u8]);
        ppr.set_attr(key.as_slice(), algn.as_bytes());
        let ghost new_p = *para;
        proof {
            assert(ppr_attr_set(old_p, new_p, /* algn */ seq![97u8, 108u8, 103u8, 110u8], encode_utf8(algn@)));
            assert(self.document() == self.doc);
            assert(old(self).document() == old(self).doc);
            assert(p@ == q1.push(i));
            assert(cell_paragraph_path(old(self).document(), shape_idx as int, row_idx as int, col_idx as int) == Some(p@));
            assert(old_p == doc_at(old(self).document(), p@));
            assert(doc_replaced(old(self).document(), self.document(), p@, new_p));
            let qq = cell_paragraph_path(old(self).document(), shape_idx as int, row_idx as int, col_idx as int).unwrap();
            assert(qq == p@);
            assert(ppr_attr_set(doc_at(old(self).document(), qq), new_p, /* algn */ seq![97u8, 108u8, 103u8, 110u8], encode_utf8(algn@)));

        }
        Ok(())
    }

    /// Set the margins (`marL`, `marT`, `marR`, `marB`, in EMU) of the cell at
    /// (`row_idx`, `col_idx`) of the table of drawable `shape_idx`, creating
    /// its `a:tcPr` first when absent. Fails, changing nothing, when there is
    /// no such cell.
    pub fn set_cell_margins(
        &mut self,
        shape_idx: usize,
        row_idx: usize,
        col_idx: usize,
        left: i64,
        top: i64,
        right: i64,
        bottom: i64,
    ) -> (r: Result<(), OxmlError>)
        ensures
            r is Ok <==> cell_path(old(self).document(), shape_idx as int, row_idx as int, col_idx as int) is Some,
            r is Err ==> final(self).document() == old(self).document(),
            r is Ok ==> {
                let q = cell_path(old(self).document(), shape_idx as int, row_idx as int, col_idx as int).unwrap();
                exists|new_c: Element| {
                    &&& doc_replaced(old(self).document(), final(self).document(), q, new_c)
                    &&& #[trigger] tcpr_attrs_set(doc_at(old(self).document(), q), new_c, margin_kvs(left, top, right, bottom))
                }
            },
    {
        let p = match find_cell_path(&self.doc, shape_idx, row_idx, col_idx) {
            Ok(p) => p,
            Err(e) => return Err(e),
        };
        let vl = dec_i64(left);
        let vt = dec_i64(top);
        let vr = dec_i64(right);
        let vb = dec_i64(bottom);
        let ghost kvs = margin_kvs(left, top, right, bottom);
        let ghost old_c = doc_at(self.doc, p@);
        let tc = self.doc.element_at_mut(&p).unwrap();
        set_margins(tcpr_mut(tc), &vl, &vt, &vr, &vb);
        let ghost new_c = *tc;
        proof {
            reveal_with_fuel(set_attrs_spec, 5);
            assert(kvs.drop_last().drop_last().drop_last().drop_last() =~= Seq::<(Seq<u8>, Seq<u8>)>::empty());
            assert(tcpr_attrs_set(old_c, new_c, kvs));
            assert(self.document() == self.doc);
            assert(old(self).document() == old(self).doc);
            assert(old_c == doc_at(old(self).document(), cell_path(old(self).document(), shape_idx as int, row_idx as int, col_idx as int).unwrap()));
        }
        Ok(())
    }
}

// ─── Merging then splitting ────────────────────────────────────────────────

/// The cell in child slot `i` of the row in child slot `j` of a table.
pub open spec fn slot_cell(t: Element, j: int, i: int) -> Element {
    t.children@[j]->Element_0.children@[i]->Element_0
}

/// Whether child slot `j` of a table is a row and child slot `i` of that row
/// a cell.
pub open spec fn is_cell_slot(t: Element, j: int, i: int) -> bool {
    &&& 0 <= j < t.children@.len()
    &&& is_named(t.children@[j], /* tr */ seq![116u8, 114u8])
    &&& 0 <= i < t.children@[j]->Element_0.children@.len()
    &&& is_named(t.children@[j]->Element_0.children@[i], /* tc */ seq![116u8, 99u8])
}

/// Whether no cell of a table carries a merge attribute.
pub open spec fn table_unmerged(t: Element) -> bool {
    forall|j: int, i: int| #[trigger] is_cell_slot(t, j, i) ==> no_merge_attrs(slot_cell(t, j, i).attrs_v())
}

proof fn lemma_count_same(a: Seq<Node>, b: Seq<Node>, k: u8)
    requires
        a.len() == b.len(),
        forall|j: int| 0 <= j < a.len() ==> node_is_kind(#[trigger] a[j], k) == node_is_kind(b[j], k),
    ensures
        count_kind(a, k) == count_kind(b, k),
    decreases a.len(),
{
    if a.len() > 0 {
        assert forall|j: int| 0 <= j < a.drop_last().len() implies node_is_kind(#[trigger] a.drop_last()[j], k)
            == node_is_kind(b.drop_last()[j], k) by {
            assert(a.drop_last()[j] == a[j]);
            assert(b.drop_last()[j] == b[j]);
        }
        lemma_count_same(a.drop_last(), b.drop_last(), k);
        assert(node_is_kind(a[a.len() - 1], k) == node_is_kind(b[a.len() - 1], k));
    }
}

proof fn lemma_row_kinds_kept(op: u8, o: Element, n: Element, sr: int, sc: int, er: int, ec: int)
    requires
        table_changed(op, o, n, sr, sc, er, ec),
    ensures
        forall|j: int| 0 <= j < o.children@.len() ==> node_is_kind(#[trigger] n.children@[j], kind_row())
            == node_is_kind(o.children@[j], kind_row()),
{
    assert forall|j: int| 0 <= j < o.children@.len() implies node_is_kind(#[trigger] n.children@[j], kind_row())
        == node_is_kind(o.children@[j], kind_row()) by {
        assert(table_slot_changed(op, o.children@, n.children@[j], j, sr, sc, er, ec));
    }
}

proof fn lemma_cell_kinds_kept(op: u8, o: Element, n: Element, r: int, sr: int, sc: int, er: int, ec: int)
    requires
        row_changed(op, o, n, r, sr, sc, er, ec),
    ensures
        forall|i: int| 0 <= i < o.children@.len() ==> node_is_kind(#[trigger] n.children@[i], kind_cell())
            == node_is_kind(o.children@[i], kind_cell()),
{
    assert forall|i: int| 0 <= i < o.children@.len() implies node_is_kind(#[trigger] n.children@[i], kind_cell())
        == node_is_kind(o.children@[i], kind_cell()) by {
        assert(row_slot_changed(op, o.children@, n.children@[i], i, r, sr, sc, er, ec));
    }
}

/// Merging a rectangle of a table and then splitting the merge at its
/// origin gives every cell back the attributes it had, and keeps every
/// cell's content as the merge left it (the origin's content, an empty text
/// body in each covered cell): the split reads the rectangle back from the
/// origin's spans. This holds of a table none of whose cells carries a merge
/// attribute before, whose rectangle's origin cell exists, and whose
/// rectangle ends within the machine's index range.
pub proof fn lemma_merge_then_split(t0: Element, t1: Element, t2: Element, sr: int, sc: int, er: int, ec: int)
    requires
        table_changed(op_merge(), t0, t1, sr, sc, er, ec),
        table_changed(op_split(), t1, t2, sr, sc, split_end_row(t1, sr, sc), split_end_col(t1, sr, sc)),
        table_unmerged(t0),
        0 <= sr <= er < usize::MAX,
        0 <= sc <= ec < usize::MAX,
        cell_at(t0, sr, sc) is Some,
    ensures
        split_end_row(t1, sr, sc) == er,
        split_end_col(t1, sr, sc) == ec,
        forall|j: int, i: int|
            #[trigger] is_cell_slot(t0, j, i) ==> {
                &&& is_cell_slot(t2, j, i)
                &&& slot_cell(t2, j, i).attrs_v() == slot_cell(t0, j, i).attrs_v()
                &&& slot_cell(t2, j, i).children == slot_cell(t1, j, i).children
            },
{
    let o = op_merge();
    let x = op_split();
    lemma_row_kinds_kept(o, t0, t1, sr, sc, er, ec);
    // the origin after the merge
    let ri = nth_kind(t0.children@, kind_row(), sr);
    lemma_nth_kind_from(t0.children@, kind_row(), sr, 0);
    lemma_nth_kind_same(t0.children@, t1.children@, kind_row(), sr, 0);
    lemma_nth_kind_count(t0.children@, kind_row(), sr);
    lemma_kind_children_len(t0.children@.take(ri), kind_row());
    assert(table_slot_changed(o, t0.children@, t1.children@[ri], ri, sr, sc, er, ec));
    let row0 = t0.children@[ri]->Element_0;
    let row1 = t1.children@[ri]->Element_0;
    assert(row_changed(o, row0, row1, sr, sr, sc, er, ec));
    lemma_cell_kinds_kept(o, row0, row1, sr, sr, sc, er, ec);
    let ci = nth_kind(row0.children@, kind_cell(), sc);
    lemma_nth_kind_from(row0.children@, kind_cell(), sc, 0);
    lemma_nth_kind_same(row0.children@, row1.children@, kind_cell(), sc, 0);
    lemma_nth_kind_count(row0.children@, kind_cell(), sc);
    lemma_kind_children_len(row0.children@.take(ci), kind_cell());
    assert(row_slot_changed(o, row0.children@, row1.children@[ci], ci, sr, sr, sc, er, ec));
    let c0 = row0.children@[ci]->Element_0;
    let c1 = row1.children@[ci]->Element_0;
    assert(cell_merged(c0, c1, sr, sc, sr, sc, er, ec));
    assert(is_cell_slot(t0, ri, ci));
    assert(slot_cell(t0, ri, ci) == c0);
    assert(no_merge_attrs(c0.attrs_v()));
    assert(cell_at(t1, sr, sc) == Some(c1));
    lemma_origin_span(c0.attrs_v(), sr, sc, er, ec, /* gridSpan */ seq![103u8, 114u8, 105u8, 100u8, 83u8, 112u8, 97u8, 110u8]);
    lemma_origin_span(c0.attrs_v(), sr, sc, er, ec, /* rowSpan */ seq![114u8, 111u8, 119u8, 83u8, 112u8, 97u8, 110u8]);
    assert(split_end_row(t1, sr, sc) == er);
    assert(split_end_col(t1, sr, sc) == ec);
    // every cell
    lemma_row_kinds_kept(x, t1, t2, sr, sc, er, ec);
    assert forall|j: int, i: int| #[trigger] is_cell_slot(t0, j, i) implies {
        &&& is_cell_slot(t2, j, i)
        &&& slot_cell(t2, j, i).attrs_v() == slot_cell(t0, j, i).attrs_v()
        &&& slot_cell(t2, j, i).children == slot_cell(t1, j, i).children
    } by {
        let r = count_kind(t0.children@.take(j), kind_row()) as int;
        assert forall|m: int| 0 <= m < t0.children@.take(j).len() implies node_is_kind(
            #[trigger] t0.children@.take(j)[m],
            kind_row(),
        ) == node_is_kind(t1.children@.take(j)[m], kind_row()) by {
            assert(t0.children@.take(j)[m] == t0.children@[m]);
            assert(t1.children@.take(j)[m] == t1.children@[m]);
        }
        lemma_count_same(t0.children@.take(j), t1.children@.take(j), kind_row());
        assert(table_slot_changed(o, t0.children@, t1.children@[j], j, sr, sc, er, ec));
        assert(table_slot_changed(x, t1.children@, t2.children@[j], j, sr, sc, er, ec));
        let w0 = t0.children@[j]->Element_0;
        if sr <= r <= er {
            let w1 = t1.children@[j]->Element_0;
            let w2 = t2.children@[j]->Element_0;
            assert(row_changed(o, w0, w1, r, sr, sc, er, ec));
            assert(row_changed(x, w1, w2, r, sr, sc, er, ec));
            lemma_cell_kinds_kept(o, w0, w1, r, sr, sc, er, ec);
            let c = count_kind(w0.children@.take(i), kind_cell()) as int;
            assert forall|m: int| 0 <= m < w0.children@.take(i).len() implies node_is_kind(
                #[trigger] w0.children@.take(i)[m],
                kind_cell(),
            ) == node_is_kind(w1.children@.take(i)[m], kind_cell()) by {
                assert(w0.children@.take(i)[m] == w0.children@[m]);
                assert(w1.children@.take(i)[m] == w1.children@[m]);
            }
            lemma_count_same(w0.children@.take(i), w1.children@.take(i), kind_cell());
            assert(row_slot_changed(o, w0.children@, w1.children@[i], i, r, sr, sc, er, ec));
            assert(row_slot_changed(x, w1.children@, w2.children@[i], i, r, sr, sc, er, ec));
            if sc <= c <= ec {
                let d0 = w0.children@[i]->Element_0;
                let d1 = w1.children@[i]->Element_0;
                let d2 = w2.children@[i]->Element_0;
                assert(cell_merged(d0, d1, r, c, sr, sc, er, ec));
                assert(cell_split(d1, d2, r, c, sr, sc));
                assert(slot_cell(t0, j, i) == d0);
                assert(no_merge_attrs(d0.attrs_v()));
                lemma_merge_then_split_attrs(d0.attrs_v(), r, c, sr, sc, er, ec);
            }
        }
    }
}

} // verus!
