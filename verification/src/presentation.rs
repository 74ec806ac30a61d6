//! Typed model of `ppt/presentation.xml`: the slide-id and master-id lists,
//! the slide and notes sizes, and every other top-level child kept verbatim.

use vstd::prelude::*;
use vstd::utf8::{decode_utf8, valid_utf8};
use crate::error::OxmlError;
use crate::numbers::{parse_i64, parse_signed, parse_u32, parse_unsigned};
use crate::text::{dec_i64, dec_int, dec_nat, dec_u64, string_of, text_of, utf8_string};
use crate::xml::{
    parsed_nodes, parses_to, attrs_view, local_of, node_bytes, Document, Element, Node};
use crate::xml_writer::{
    decl_text, empty_text, end_text, io_error_text, new_plain_writer, start_text, text_pairs, unindented, write_decl,
    write_empty, write_end, write_raw, write_start, writer_bytes, written,
};

verus! {

/// The namespace declarations of a fresh `<p:presentation>`, in order.
pub open spec fn default_root_attrs_spec() -> Seq<(Seq<char>, Seq<char>)> {
    seq![
        (/* xmlns:a */ seq!['x', 'm', 'l', 'n', 's', ':', 'a'], /* http://schemas.openxmlformats.org/drawingml/2006/main */ seq!['h', 't', 't', 'p', ':', '/', '/', 's', 'c', 'h', 'e', 'm', 'a', 's', '.', 'o', 'p', 'e', 'n', 'x', 'm', 'l', 'f', 'o', 'r', 'm', 'a', 't', 's', '.', 'o', 'r', 'g', '/', 'd', 'r', 'a', 'w', 'i', 'n', 'g', 'm', 'l', '/', '2', '0', '0', '6', '/', 'm', 'a', 'i', 'n']),
        (/* xmlns:r */ seq!['x', 'm', 'l', 'n', 's', ':', 'r'], /* http://schemas.openxmlformats.org/officeDocument/2006/relationships */ seq!['h', 't', 't', 'p', ':', '/', '/', 's', 'c', 'h', 'e', 'm', 'a', 's', '.', 'o', 'p', 'e', 'n', 'x', 'm', 'l', 'f', 'o', 'r', 'm', 'a', 't', 's', '.', 'o', 'r', 'g', '/', 'o', 'f', 'f', 'i', 'c', 'e', 'D', 'o', 'c', 'u', 'm', 'e', 'n', 't', '/', '2', '0', '0', '6', '/', 'r', 'e', 'l', 'a', 't', 'i', 'o', 'n', 's', 'h', 'i', 'p', 's']),
        (/* xmlns:p */ seq!['x', 'm', 'l', 'n', 's', ':', 'p'], /* http://schemas.openxmlformats.org/presentationml/2006/main */ seq!['h', 't', 't', 'p', ':', '/', '/', 's', 'c', 'h', 'e', 'm', 'a', 's', '.', 'o', 'p', 'e', 'n', 'x', 'm', 'l', 'f', 'o', 'r', 'm', 'a', 't', 's', '.', 'o', 'r', 'g', '/', 'p', 'r', 'e', 's', 'e', 'n', 't', 'a', 't', 'i', 'o', 'n', 'm', 'l', '/', '2', '0', '0', '6', '/', 'm', 'a', 'i', 'n']),
    ]
}

/// Views of a list of string pairs.
pub open spec fn pairs_view(v: Seq<(String, String)>) -> Seq<(Seq<char>, Seq<char>)> {
    v.map_values(|p: (String, String)| (p.0@, p.1@))
}

/// Default namespace declarations for `<p:presentation>`.
pub fn default_root_attrs() -> (r: Vec<(String, String)>)
    ensures
        pairs_view(r@) == default_root_attrs_spec(),
{
    proof {
        reveal_strlit("xmlns:a");
        reveal_strlit("xmlns:r");
        reveal_strlit("xmlns:p");
        reveal_strlit("http://schemas.openxmlformats.org/drawingml/2006/main");
        reveal_strlit("http://schemas.openxmlformats.org/officeDocument/2006/relationships");
        reveal_strlit("http://schemas.openxmlformats.org/presentationml/2006/main");
        assert("xmlns:a"@ == /* xmlns:a */ seq!['x', 'm', 'l', 'n', 's', ':', 'a']);
        assert("xmlns:r"@ == /* xmlns:r */ seq!['x', 'm', 'l', 'n', 's', ':', 'r']);
        assert("xmlns:p"@ == /* xmlns:p */ seq!['x', 'm', 'l', 'n', 's', ':', 'p']);
        assert("http://schemas.openxmlformats.org/drawingml/2006/main"@ == /* http://schemas.openxmlformats.org/drawingml/2006/main */ seq!['h', 't', 't', 'p', ':', '/', '/', 's', 'c', 'h', 'e', 'm', 'a', 's', '.', 'o', 'p', 'e', 'n', 'x', 'm', 'l', 'f', 'o', 'r', 'm', 'a', 't', 's', '.', 'o', 'r', 'g', '/', 'd', 'r', 'a', 'w', 'i', 'n', 'g', 'm', 'l', '/', '2', '0', '0', '6', '/', 'm', 'a', 'i', 'n']);
        assert("http://schemas.openxmlformats.org/officeDocument/2006/relationships"@ == /* http://schemas.openxmlformats.org/officeDocument/2006/relationships */ seq!['h', 't', 't', 'p', ':', '/', '/', 's', 'c', 'h', 'e', 'm', 'a', 's', '.', 'o', 'p', 'e', 'n', 'x', 'm', 'l', 'f', 'o', 'r', 'm', 'a', 't', 's', '.', 'o', 'r', 'g', '/', 'o', 'f', 'f', 'i', 'c', 'e', 'D', 'o', 'c', 'u', 'm', 'e', 'n', 't', '/', '2', '0', '0', '6', '/', 'r', 'e', 'l', 'a', 't', 'i', 'o', 'n', 's', 'h', 'i', 'p', 's']);
        assert("http://schemas.openxmlformats.org/presentationml/2006/main"@ == /* http://schemas.openxmlformats.org/presentationml/2006/main */ seq!['h', 't', 't', 'p', ':', '/', '/', 's', 'c', 'h', 'e', 'm', 'a', 's', '.', 'o', 'p', 'e', 'n', 'x', 'm', 'l', 'f', 'o', 'r', 'm', 'a', 't', 's', '.', 'o', 'r', 'g', '/', 'p', 'r', 'e', 's', 'e', 'n', 't', 'a', 't', 'i', 'o', 'n', 'm', 'l', '/', '2', '0', '0', '6', '/', 'm', 'a', 'i', 'n']);
    }
    let mut v: Vec<(String, String)> = Vec::new();
    v.push((string_of("xmlns:a"), string_of("http://schemas.openxmlformats.org/drawingml/2006/main")));
    v.push((
        string_of("xmlns:r"),
        string_of("http://schemas.openxmlformats.org/officeDocument/2006/relationships"),
    ));
    v.push((string_of("xmlns:p"), string_of("http://schemas.openxmlformats.org/presentationml/2006/main")));
    assert(pairs_view(v@)[0] == default_root_attrs_spec()[0]);
    assert(pairs_view(v@)[1] == default_root_attrs_spec()[1]);
    assert(pairs_view(v@)[2] == default_root_attrs_spec()[2]);
    assert(pairs_view(v@) =~= default_root_attrs_spec());
    v
}

/// An entry of `sldIdLst` or `sldMasterIdLst`: numeric id and relationship id.
#[derive(Debug, Clone, PartialEq)]
pub struct SlideIdEntry {
    pub id: u32,
    pub r_id: String,
}

/// `<p:sldSz>` / `<p:notesSz>`: dimensions in EMU and an optional type hint.
#[derive(Debug, Clone, PartialEq)]
pub struct SlideSize {
    pub cx: i64,
    pub cy: i64,
    pub ty: Option<String>,
}

impl SlideSize {
    /// 16:9 widescreen, the default of current PowerPoint.
    pub fn widescreen() -> (s: SlideSize)
        ensures
            s.cx == 12192000,
            s.cy == 6858000,
            s.ty matches Some(t) && t@ == /* screen16x9 */ seq!['s', 'c', 'r', 'e', 'e', 'n', '1', '6', 'x', '9'],
    {
        proof {
            reveal_strlit("screen16x9");
            assert("screen16x9"@ == /* screen16x9 */ seq!['s', 'c', 'r', 'e', 'e', 'n', '1', '6', 'x', '9']);
        }
        SlideSize { cx: 12192000, cy: 6858000, ty: Some(string_of("screen16x9")) }
    }

    /// The default notes page: 7.5" × 10" portrait.
    pub fn notes_default() -> (s: SlideSize)
        ensures
            s.cx == 6858000,
            s.cy == 9144000,
            s.ty is None,
    {
        SlideSize { cx: 6858000, cy: 9144000, ty: None }
    }
}

/// The typed part of `ppt/presentation.xml`.
#[derive(Debug, Clone)]
pub struct Presentation {
    pub root_attrs: Vec<(String, String)>,
    pub master_ids: Vec<SlideIdEntry>,
    pub slide_ids: Vec<SlideIdEntry>,
    pub slide_size: SlideSize,
    /// `<p:notesSz>`, required by the schema.
    pub notes_size: SlideSize,
    /// Top-level children that are not modelled, kept as their bytes.
    pub extra_children: Vec<Vec<u8>>,
}

/// A blank 16:9 presentation: default namespaces, no masters, no slides.
pub open spec fn is_blank_widescreen(p: Presentation) -> bool {
    &&& pairs_view(p.root_attrs@) == default_root_attrs_spec()
    &&& p.master_ids@.len() == 0
    &&& p.slide_ids@.len() == 0
    &&& p.slide_size.cx == 12192000
    &&& p.slide_size.cy == 6858000
    &&& p.slide_size.ty matches Some(t) && t@ == /* screen16x9 */ seq!['s', 'c', 'r', 'e', 'e', 'n', '1', '6', 'x', '9']
    &&& p.notes_size.cx == 6858000
    &&& p.notes_size.cy == 9144000
    &&& p.notes_size.ty is None
    &&& p.extra_children@.len() == 0
}

impl Presentation {
    /// A blank 16:9 presentation with default namespaces and no slides.
    pub fn new() -> (p: Presentation)
        ensures
            is_blank_widescreen(p),
    {
        Presentation {
            root_attrs: default_root_attrs(),
            master_ids: Vec::new(),
            slide_ids: Vec::new(),
            slide_size: SlideSize::widescreen(),
            notes_size: SlideSize::notes_default(),
            extra_children: Vec::new(),
        }
    }
}

impl Default for Presentation {
    fn default() -> (p: Presentation)
        ensures
            is_blank_widescreen(p),
    {
        Presentation::new()
    }
}

// ─── Reading ────────────────────────────────────────────────────────────────

/// A presentation as plain values: root attributes, master ids, slide ids
/// (each as id and relationship id), slide size and notes size (each as cx,
/// cy and type), and the unmodelled children's bytes.
pub type PresView = (
    Seq<(Seq<char>, Seq<char>)>,
    Seq<(u32, Seq<char>)>,
    Seq<(u32, Seq<char>)>,
    (i64, i64, Option<Seq<char>>),
    (i64, i64, Option<Seq<char>>),
    Seq<Seq<u8>>,
);

pub open spec fn entries_view(v: Seq<SlideIdEntry>) -> Seq<(u32, Seq<char>)> {
    v.map_values(|e: SlideIdEntry| (e.id, e.r_id@))
}

pub open spec fn size_view(s: SlideSize) -> (i64, i64, Option<Seq<char>>) {
    (
        s.cx,
        s.cy,
        match s.ty {
            Some(t) => Some(t@),
            None => None,
        },
    )
}

pub open spec fn bytes_list_view(v: Seq<Vec<u8>>) -> Seq<Seq<u8>> {
    v.map_values(|b: Vec<u8>| b@)
}

/// The plain values of a presentation.
pub open spec fn pres_view(p: Presentation) -> PresView {
    (
        pairs_view(p.root_attrs@),
        entries_view(p.master_ids@),
        entries_view(p.slide_ids@),
        size_view(p.slide_size),
        size_view(p.notes_size),
        bytes_list_view(p.extra_children@),
    )
}

/// Attributes as text, when every key and value is valid UTF-8.
pub open spec fn text_attrs(a: Seq<(Seq<u8>, Seq<u8>)>) -> Option<Seq<(Seq<char>, Seq<char>)>>
    decreases a.len(),
{
    if a.len() == 0 {
        Some(Seq::empty())
    } else {
        match (text_attrs(a.drop_last()), text_of(a.last().0), text_of(a.last().1)) {
            (Some(r), Some(k), Some(v)) => Some(r.push((k, v))),
            _ => None,
        }
    }
}

/// A `u32` numeral, or 0 when it is not one.
pub open spec fn u32_or_zero(b: Seq<u8>) -> u32 {
    match parse_unsigned(b, u32::MAX as nat) {
        Some(n) => n as u32,
        None => 0,
    }
}

/// An `i64` numeral, or 0 when it is not one.
pub open spec fn i64_or_zero(b: Seq<u8>) -> i64 {
    match parse_signed(b, i64::MIN as int, i64::MAX as int) {
        Some(n) => n as i64,
        None => 0,
    }
}

/// The entry an id-list element's attributes give, read in order (a later
/// attribute wins): `id` the numeric id (0 when not a `u32` numeral), any
/// other key with local name `id` (as `r:id`) the relationship id. `None`
/// when such a value is not UTF-8.
pub open spec fn id_entry(a: Seq<(Seq<u8>, Seq<u8>)>) -> Option<(u32, Seq<char>)>
    decreases a.len(),
{
    if a.len() == 0 {
        Some((0u32, Seq::empty()))
    } else {
        match id_entry(a.drop_last()) {
            Some(prev) => {
                let k = a.last().0;
                let v = a.last().1;
                if k == /* id */ seq![105u8, 100u8] {
                    match text_of(v) {
                        Some(_) => Some((u32_or_zero(v), prev.1)),
                        None => None,
                    }
                } else if local_of(k) == /* id */ seq![105u8, 100u8] {
                    match text_of(v) {
                        Some(t) => Some((prev.0, t)),
                        None => None,
                    }
                } else {
                    Some(prev)
                }
            },
            None => None,
        }
    }
}

/// The size a `sldSz`/`notesSz` element's attributes give, read in order:
/// `cx` and `cy` (0 when not an `i64` numeral) and `type`. `None` when such a
/// value is not UTF-8.
pub open spec fn size_of_attrs(a: Seq<(Seq<u8>, Seq<u8>)>) -> Option<(i64, i64, Option<Seq<char>>)>
    decreases a.len(),
{
    if a.len() == 0 {
        Some((0i64, 0i64, None))
    } else {
        match size_of_attrs(a.drop_last()) {
            Some(prev) => {
                let k = a.last().0;
                let v = a.last().1;
                if k == /* cx */ seq![99u8, 120u8] || k == /* cy */ seq![99u8, 121u8] || k == /* type */ seq![116u8, 121u8, 112u8, 101u8] {
                    match text_of(v) {
                        Some(t) => Some(
                            if k == /* cx */ seq![99u8, 120u8] {
                                (i64_or_zero(v), prev.1, prev.2)
                            } else if k == /* cy */ seq![99u8, 121u8] {
                                (prev.0, i64_or_zero(v), prev.2)
                            } else {
                                (prev.0, prev.1, Some(t))
                            },
                        ),
                        None => None,
                    }
                } else {
                    Some(prev)
                }
            },
            None => None,
        }
    }
}

/// The entries of an id list: each child element whose local name is
/// `entry`, in order.
pub open spec fn id_list(ns: Seq<Node>, entry: Seq<u8>) -> Option<Seq<(u32, Seq<char>)>>
    decreases ns.len(),
{
    if ns.len() == 0 {
        Some(Seq::empty())
    } else {
        match id_list(ns.drop_last(), entry) {
            Some(r) => match ns.last() {
                Node::Element(e) => if e.local() == entry {
                    match id_entry(e.attrs_v()) {
                        Some(x) => Some(r.push(x)),
                        None => None,
                    }
                } else {
                    Some(r)
                },
                Node::Raw(_) => Some(r),
            },
            None => None,
        }
    }
}

/// What reading node `n` does to the values read so far: a `presentation`
/// element gives the root attributes and has its children read in turn; an
/// id list replaces the master or slide ids; `sldSz` and `notesSz` set the
/// sizes; an empty id list is skipped; any other element is kept as its
/// bytes; text and other markup are skipped. `None` when a value that is
/// read is not UTF-8.
pub open spec fn pres_step(n: Node, s: PresView) -> Option<PresView>
    decreases n,
{
    match n {
        Node::Raw(_) => Some(s),
        Node::Element(e) => if !e.self_closing {
            if e.local() == /* presentation */ seq![112u8, 114u8, 101u8, 115u8, 101u8, 110u8, 116u8, 97u8, 116u8, 105u8, 111u8, 110u8] {
                match text_attrs(e.attrs_v()) {
                    Some(a) => pres_fold(e.children@, (a, s.1, s.2, s.3, s.4, s.5)),
                    None => None,
                }
            } else if e.local() == /* sldMasterIdLst */ seq![115u8, 108u8, 100u8, 77u8, 97u8, 115u8, 116u8, 101u8, 114u8, 73u8, 100u8, 76u8, 115u8, 116u8] {
                match id_list(e.children@, /* sldMasterId */ seq![115u8, 108u8, 100u8, 77u8, 97u8, 115u8, 116u8, 101u8, 114u8, 73u8, 100u8]) {
                    Some(l) => Some((s.0, l, s.2, s.3, s.4, s.5)),
                    None => None,
                }
            } else if e.local() == /* sldIdLst */ seq![115u8, 108u8, 100u8, 73u8, 100u8, 76u8, 115u8, 116u8] {
                match id_list(e.children@, /* sldId */ seq![115u8, 108u8, 100u8, 73u8, 100u8]) {
                    Some(l) => Some((s.0, s.1, l, s.3, s.4, s.5)),
                    None => None,
                }
            } else {
                Some((s.0, s.1, s.2, s.3, s.4, s.5.push(node_bytes(n))))
            }
        } else if e.local() == /* sldSz */ seq![115u8, 108u8, 100u8, 83u8, 122u8] {
            match size_of_attrs(e.attrs_v()) {
                Some(z) => Some((s.0, s.1, s.2, z, s.4, s.5)),
                None => None,
            }
        } else if e.local() == /* notesSz */ seq![110u8, 111u8, 116u8, 101u8, 115u8, 83u8, 122u8] {
            match size_of_attrs(e.attrs_v()) {
                Some(z) => Some((s.0, s.1, s.2, s.3, z, s.5)),
                None => None,
            }
        } else if e.local() == /* sldMasterIdLst */ seq![115u8, 108u8, 100u8, 77u8, 97u8, 115u8, 116u8, 101u8, 114u8, 73u8, 100u8, 76u8, 115u8, 116u8] || e.local() == /* sldIdLst */ seq![115u8, 108u8, 100u8, 73u8, 100u8, 76u8, 115u8, 116u8] {
            Some(s)
        } else {
            Some((s.0, s.1, s.2, s.3, s.4, s.5.push(node_bytes(n))))
        },
    }
}

/// Reading the nodes `ns` in order, from the values `s`.
pub open spec fn pres_fold(ns: Seq<Node>, s: PresView) -> Option<PresView>
    decreases ns,
{
    if ns.len() == 0 {
        Some(s)
    } else {
        match pres_fold(ns.drop_last(), s) {
            Some(t) => pres_step(ns.last(), t),
            None => None,
        }
    }
}

/// The values reading starts from: nothing read, a zero slide size and the
/// default notes size.
pub open spec fn pres_start() -> PresView {
    (Seq::empty(), Seq::empty(), Seq::empty(), (0i64, 0i64, None), (6858000i64, 9144000i64, None), Seq::empty())
}

/// The values read, with the default namespaces when no root attribute was.
pub open spec fn pres_finish(s: PresView) -> PresView {
    if s.0.len() == 0 {
        (default_root_attrs_spec(), s.1, s.2, s.3, s.4, s.5)
    } else {
        s
    }
}

/// The presentation the nodes of a document give, when every value read is
/// valid UTF-8.
pub open spec fn presentation_of(d: Document) -> Option<PresView> {
    match pres_fold(d.nodes@, pres_start()) {
        Some(s) => Some(pres_finish(s)),
        None => None,
    }
}

fn text_or_err(b: &Vec<u8>) -> (r: Result<String, OxmlError>)
    ensures
        match r {
            Ok(t) => text_of(b@) == Some(t@),
            Err(_) => text_of(b@) is None,
        },
{
    match utf8_string(b.as_slice()) {
        Ok(t) => Ok(t),
        Err(m) => Err(OxmlError::Utf8(m)),
    }
}

fn read_text_attrs(a: &Vec<(Vec<u8>, Vec<u8>)>) -> (r: Result<Vec<(String, String)>, OxmlError>)
    ensures
        match r {
            Ok(v) => text_attrs(attrs_view(a@)) == Some(pairs_view(v@)),
            Err(_) => text_attrs(attrs_view(a@)) is None,
        },
{
    let mut out: Vec<(String, String)> = Vec::new();
    let mut i: usize = 0;
    while i < a.len()
        invariant
            i <= a@.len(),
            text_attrs(attrs_view(a@).take(i as int)) == Some(pairs_view(out@)),
        decreases a@.len() - i,
    {
        proof {
            assert(attrs_view(a@).take(i + 1).drop_last() =~= attrs_view(a@).take(i as int));
            assert(attrs_view(a@).take(i + 1).last() == (a@[i as int].0@, a@[i as int].1@));
        }
        let k = text_or_err(&a[i].0);
        let k = match k {
            Ok(k) => k,
            Err(e) => {
                proof { lemma_text_attrs_none(attrs_view(a@), i as int + 1); }
                return Err(e);
            },
        };
        let v = match text_or_err(&a[i].1) {
            Ok(v) => v,
            Err(e) => {
                proof { lemma_text_attrs_none(attrs_view(a@), i as int + 1); }
                return Err(e);
            },
        };
        let ghost before = out@;
        out.push((k, v));
        proof { assert(pairs_view(out@) =~= pairs_view(before).push((k@, v@))); }
        i = i + 1;
    }
    assert(attrs_view(a@).take(a@.len() as int) =~= attrs_view(a@));
    Ok(out)
}

/// Once a prefix of attributes fails to read as text, the whole list does.
proof fn lemma_text_attrs_none(a: Seq<(Seq<u8>, Seq<u8>)>, k: int)
    requires
        0 <= k <= a.len(),
        text_attrs(a.take(k)) is None,
    ensures
        text_attrs(a) is None,
    decreases a.len() - k,
{
    if k < a.len() {
        assert(a.take(k + 1).drop_last() =~= a.take(k));
        lemma_text_attrs_none(a, k + 1);
    } else {
        assert(a.take(k) =~= a);
    }
}

proof fn lemma_id_entry_none(a: Seq<(Seq<u8>, Seq<u8>)>, k: int)
    requires
        0 <= k <= a.len(),
        id_entry(a.take(k)) is None,
    ensures
        id_entry(a) is None,
    decreases a.len() - k,
{
    if k < a.len() {
        assert(a.take(k + 1).drop_last() =~= a.take(k));
        lemma_id_entry_none(a, k + 1);
    } else {
        assert(a.take(k) =~= a);
    }
}

proof fn lemma_size_none(a: Seq<(Seq<u8>, Seq<u8>)>, k: int)
    requires
        0 <= k <= a.len(),
        size_of_attrs(a.take(k)) is None,
    ensures
        size_of_attrs(a) is None,
    decreases a.len() - k,
{
    if k < a.len() {
        assert(a.take(k + 1).drop_last() =~= a.take(k));
        lemma_size_none(a, k + 1);
    } else {
        assert(a.take(k) =~= a);
    }
}

proof fn lemma_id_list_none(ns: Seq<Node>, entry: Seq<u8>, k: int)
    requires
        0 <= k <= ns.len(),
        id_list(ns.take(k), entry) is None,
    ensures
        id_list(ns, entry) is None,
    decreases ns.len() - k,
{
    if k < ns.len() {
        assert(ns.take(k + 1).drop_last() =~= ns.take(k));
        lemma_id_list_none(ns, entry, k + 1);
    } else {
        assert(ns.take(k) =~= ns);
    }
}

proof fn lemma_fold_none(ns: Seq<Node>, s: PresView, k: int)
    requires
        0 <= k <= ns.len(),
        pres_fold(ns.take(k), s) is None,
    ensures
        pres_fold(ns, s) is None,
    decreases ns.len() - k,
{
    if k < ns.len() {
        assert(ns.take(k + 1).drop_last() =~= ns.take(k));
        lemma_fold_none(ns, s, k + 1);
    } else {
        assert(ns.take(k) =~= ns);
    }
}

fn read_id_entry(a: &Vec<(Vec<u8>, Vec<u8>)>) -> (r: Result<SlideIdEntry, OxmlError>)
    ensures
        match r {
            Ok(e) => id_entry(attrs_view(a@)) == Some((e.id, e.r_id@)),
            Err(_) => id_entry(attrs_view(a@)) is None,
        },
{
    let id_key: [u8; 2] = /* id */ [105u8, 100u8];
    assert(id_key@ =~= /* id */ seq![105u8, 100u8]);
    let mut id: u32 = 0;
    let mut r_id = String::new();
    let mut i: usize = 0;
    while i < a.len()
        invariant
            i <= a@.len(),
            id_key@ == /* id */ seq![105u8, 100u8],
            id_entry(attrs_view(a@).take(i as int)) == Some((id, r_id@)),
        decreases a@.len() - i,
    {
        proof {
            assert(attrs_view(a@).take(i + 1).drop_last() =~= attrs_view(a@).take(i as int));
            assert(attrs_view(a@).take(i + 1).last() == (a@[i as int].0@, a@[i as int].1@));
        }
        let k = &a[i].0;
        let v = &a[i].1;
        if crate::bytes::bytes_eq(k.as_slice(), id_key.as_slice()) {
            match text_or_err(v) {
                Ok(_) => {
                    id = match parse_u32(v.as_slice()) {
                        Some(n) => n,
                        None => 0,
                    };
                },
                Err(e) => {
                    proof { lemma_id_entry_none(attrs_view(a@), i as int + 1); }
                    return Err(e);
                },
            }
        } else if crate::bytes::bytes_eq(crate::xml::local_name_of(k.as_slice()), id_key.as_slice()) {
            match text_or_err(v) {
                Ok(t) => {
                    r_id = t;
                },
                Err(e) => {
                    proof { lemma_id_entry_none(attrs_view(a@), i as int + 1); }
                    return Err(e);
                },
            }
        }
        i = i + 1;
    }
    assert(attrs_view(a@).take(a@.len() as int) =~= attrs_view(a@));
    Ok(SlideIdEntry { id, r_id })
}

fn read_size(a: &Vec<(Vec<u8>, Vec<u8>)>) -> (r: Result<SlideSize, OxmlError>)
    ensures
        match r {
            Ok(z) => size_of_attrs(attrs_view(a@)) == Some(size_view(z)),
            Err(_) => size_of_attrs(attrs_view(a@)) is None,
        },
{
    let kcx: [u8; 2] = /* cx */ [99u8, 120u8];
    let kcy: [u8; 2] = /* cy */ [99u8, 121u8];
    let kty: [u8; 4] = /* type */ [116u8, 121u8, 112u8, 101u8];
    assert(kcx@ =~= /* cx */ seq![99u8, 120u8]);
    assert(kcy@ =~= /* cy */ seq![99u8, 121u8]);
    assert(kty@ =~= /* type */ seq![116u8, 121u8, 112u8, 101u8]);
    let mut z = SlideSize { cx: 0, cy: 0, ty: None };
    let mut i: usize = 0;
    while i < a.len()
        invariant
            i <= a@.len(),
            kcx@ == /* cx */ seq![99u8, 120u8],
            kcy@ == /* cy */ seq![99u8, 121u8],
            kty@ == /* type */ seq![116u8, 121u8, 112u8, 101u8],
            size_of_attrs(attrs_view(a@).take(i as int)) == Some(size_view(z)),
        decreases a@.len() - i,
    {
        proof {
            assert(attrs_view(a@).take(i + 1).drop_last() =~= attrs_view(a@).take(i as int));
            assert(attrs_view(a@).take(i + 1).last() == (a@[i as int].0@, a@[i as int].1@));
        }
        let k = &a[i].0;
        let v = &a[i].1;
        let is_cx = crate::bytes::bytes_eq(k.as_slice(), kcx.as_slice());
        let is_cy = crate::bytes::bytes_eq(k.as_slice(), kcy.as_slice());
        let is_ty = crate::bytes::bytes_eq(k.as_slice(), kty.as_slice());
        if is_cx || is_cy || is_ty {
            let t = match text_or_err(v) {
                Ok(t) => t,
                Err(e) => {
                    proof { lemma_size_none(attrs_view(a@), i as int + 1); }
                    return Err(e);
                },
            };
            let n = match parse_i64(v.as_slice()) {
                Some(n) => n,
                None => 0,
            };
            if is_cx {
                z.cx = n;
            } else if is_cy {
                z.cy = n;
            } else {
                z.ty = Some(t);
            }
        }
        i = i + 1;
    }
    assert(attrs_view(a@).take(a@.len() as int) =~= attrs_view(a@));
    Ok(z)
}

fn read_id_list(ns: &Vec<Node>, entry: &[u8]) -> (r: Result<Vec<SlideIdEntry>, OxmlError>)
    ensures
        match r {
            Ok(v) => id_list(ns@, entry@) == Some(entries_view(v@)),
            Err(_) => id_list(ns@, entry@) is None,
        },
{
    let mut out: Vec<SlideIdEntry> = Vec::new();
    let mut i: usize = 0;
    while i < ns.len()
        invariant
            i <= ns@.len(),
            id_list(ns@.take(i as int), entry@) == Some(entries_view(out@)),
        decreases ns@.len() - i,
    {
        proof {
            assert(ns@.take(i + 1).drop_last() =~= ns@.take(i as int));
            assert(ns@.take(i + 1).last() == ns@[i as int]);
        }
        match &ns[i] {
            Node::Element(e) => {
                if e.is_named(entry) {
                    match read_id_entry(&e.attrs) {
                        Ok(x) => {
                            let ghost before = out@;
                            out.push(x);
                            proof { assert(entries_view(out@) =~= entries_view(before).push((x.id, x.r_id@))); }
                        },
                        Err(err) => {
                            proof { lemma_id_list_none(ns@, entry@, i as int + 1); }
                            return Err(err);
                        },
                    }
                }
            },
            Node::Raw(_) => {},
        }
        i = i + 1;
    }
    assert(ns@.take(ns@.len() as int) =~= ns@);
    Ok(out)
}

fn element_bytes_of(e: &Element) -> (r: Vec<u8>)
    ensures
        r@ == node_bytes(Node::Element(*e)),
{
    let mut out: Vec<u8> = Vec::new();
    e.write(&mut out);
    assert(out@ =~= node_bytes(Node::Element(*e)));
    out
}

fn read_nodes(ns: &Vec<Node>, p: &mut Presentation) -> (r: Result<(), OxmlError>)
    ensures
        match r {
            Ok(_) => pres_fold(ns@, pres_view(*old(p))) == Some(pres_view(*final(p))),
            Err(_) => pres_fold(ns@, pres_view(*old(p))) is None,
        },
    decreases ns@,
{
    let ghost s0 = pres_view(*p);
    let mut i: usize = 0;
    while i < ns.len()
        invariant
            i <= ns@.len(),
            pres_fold(ns@.take(i as int), s0) == Some(pres_view(*p)),
            s0 == pres_view(*old(p)),
        decreases ns@.len() - i,
    {
        proof {
            assert(ns@.take(i + 1).drop_last() =~= ns@.take(i as int));
            assert(ns@.take(i + 1).last() == ns@[i as int]);
        }
        let ghost before = pres_view(*p);
        match read_node(&ns[i], p) {
            Ok(_) => {},
            Err(e) => {
                proof {
                    assert(pres_step(ns@[i as int], before) is None);
                    assert(pres_fold(ns@.take(i + 1), s0) is None);
                    lemma_fold_none(ns@, s0, i as int + 1);
                }
                return Err(e);
            },
        }
        i = i + 1;
    }
    assert(ns@.take(ns@.len() as int) =~= ns@);
    Ok(())
}

fn read_node(n: &Node, p: &mut Presentation) -> (r: Result<(), OxmlError>)
    ensures
        match r {
            Ok(_) => pres_step(*n, pres_view(*old(p))) == Some(pres_view(*final(p))),
            Err(_) => pres_step(*n, pres_view(*old(p))) is None,
        },
    decreases *n,
{
    let ghost s = pres_view(*p);
    let e = match n {
        Node::Raw(_) => return Ok(()),
        Node::Element(e) => e,
    };
    let pres: [u8; 12] = /* presentation */ [112u8, 114u8, 101u8, 115u8, 101u8, 110u8, 116u8, 97u8, 116u8, 105u8, 111u8, 110u8];
    let mlst: [u8; 14] = /* sldMasterIdLst */ [115u8, 108u8, 100u8, 77u8, 97u8, 115u8, 116u8, 101u8, 114u8, 73u8, 100u8, 76u8, 115u8, 116u8];
    let mid: [u8; 11] = /* sldMasterId */ [115u8, 108u8, 100u8, 77u8, 97u8, 115u8, 116u8, 101u8, 114u8, 73u8, 100u8];
    let slst: [u8; 8] = /* sldIdLst */ [115u8, 108u8, 100u8, 73u8, 100u8, 76u8, 115u8, 116u8];
    let sid: [u8; 5] = /* sldId */ [115u8, 108u8, 100u8, 73u8, 100u8];
    let ssz: [u8; 5] = /* sldSz */ [115u8, 108u8, 100u8, 83u8, 122u8];
    let nsz: [u8; 7] = /* notesSz */ [110u8, 111u8, 116u8, 101u8, 115u8, 83u8, 122u8];
    assert(pres@ =~= /* presentation */ seq![112u8, 114u8, 101u8, 115u8, 101u8, 110u8, 116u8, 97u8, 116u8, 105u8, 111u8, 110u8]);
    assert(mlst@ =~= /* sldMasterIdLst */ seq![115u8, 108u8, 100u8, 77u8, 97u8, 115u8, 116u8, 101u8, 114u8, 73u8, 100u8, 76u8, 115u8, 116u8]);
    assert(mid@ =~= /* sldMasterId */ seq![115u8, 108u8, 100u8, 77u8, 97u8, 115u8, 116u8, 101u8, 114u8, 73u8, 100u8]);
    assert(slst@ =~= /* sldIdLst */ seq![115u8, 108u8, 100u8, 73u8, 100u8, 76u8, 115u8, 116u8]);
    assert(sid@ =~= /* sldId */ seq![115u8, 108u8, 100u8, 73u8, 100u8]);
    assert(ssz@ =~= /* sldSz */ seq![115u8, 108u8, 100u8, 83u8, 122u8]);
    assert(nsz@ =~= /* notesSz */ seq![110u8, 111u8, 116u8, 101u8, 115u8, 83u8, 122u8]);
    if !e.self_closing {
        if e.is_named(pres.as_slice()) {
            let a = match read_text_attrs(&e.attrs) {
                Ok(a) => a,
                Err(err) => return Err(err),
            };
            p.root_attrs = a;
            return read_nodes(&e.children, p);
        } else if e.is_named(mlst.as_slice()) {
            match read_id_list(&e.children, mid.as_slice()) {
                Ok(l) => {
                    p.master_ids = l;
                },
                Err(err) => return Err(err),
            }
        } else if e.is_named(slst.as_slice()) {
            match read_id_list(&e.children, sid.as_slice()) {
                Ok(l) => {
                    p.slide_ids = l;
                },
                Err(err) => return Err(err),
            }
        } else {
            let b = element_bytes_of(e);
            let ghost before = p.extra_children@;
            p.extra_children.push(b);
            proof { assert(bytes_list_view(p.extra_children@) =~= bytes_list_view(before).push(b@)); }
        }
    } else if e.is_named(ssz.as_slice()) {
        match read_size(&e.attrs) {
            Ok(z) => {
                p.slide_size = z;
            },
            Err(err) => return Err(err),
        }
    } else if e.is_named(nsz.as_slice()) {
        match read_size(&e.attrs) {
            Ok(z) => {
                p.notes_size = z;
            },
            Err(err) => return Err(err),
        }
    } else if e.is_named(mlst.as_slice()) || e.is_named(slst.as_slice()) {
    } else {
        let b = element_bytes_of(e);
        let ghost before = p.extra_children@;
        p.extra_children.push(b);
        proof { assert(bytes_list_view(p.extra_children@) =~= bytes_list_view(before).push(b@)); }
    }
    Ok(())
}

impl Presentation {
    /// Read the presentation a parsed document holds: the root
    /// `presentation` element's attributes (the default namespaces when it
    /// has none), the master and slide id lists, the slide and notes sizes,
    /// and every other element among its children kept as its bytes. Fails
    /// when an attribute value read is not valid UTF-8.
    pub fn from_document(d: &Document) -> (r: Result<Presentation, OxmlError>)
        ensures
            match r {
                Ok(p) => presentation_of(*d) == Some(pres_view(p)),
                Err(_) => presentation_of(*d) is None,
            },
    {
        let mut p = Presentation {
            root_attrs: Vec::new(),
            master_ids: Vec::new(),
            slide_ids: Vec::new(),
            slide_size: SlideSize { cx: 0, cy: 0, ty: None },
            notes_size: SlideSize::notes_default(),
            extra_children: Vec::new(),
        };
        proof {
            assert(pairs_view(p.root_attrs@) =~= Seq::<(Seq<char>, Seq<char>)>::empty());
            assert(entries_view(p.master_ids@) =~= Seq::<(u32, Seq<char>)>::empty());
            assert(entries_view(p.slide_ids@) =~= Seq::<(u32, Seq<char>)>::empty());
            assert(bytes_list_view(p.extra_children@) =~= Seq::<Seq<u8>>::empty());
            assert(pres_view(p) == pres_start());
        }
        match read_nodes(&d.nodes, &mut p) {
            Ok(_) => {},
            Err(e) => return Err(e),
        }
        if p.root_attrs.len() == 0 {
            p.root_attrs = default_root_attrs();
        }
        Ok(p)
    }

    /// Parse `ppt/presentation.xml` (see [`Presentation::from_document`]).
    /// Fails when the XML reader rejects the bytes or a value read is not
    /// valid UTF-8.
    pub fn from_xml(xml: &[u8]) -> (r: Result<Presentation, OxmlError>)
        ensures
            parsed_nodes(xml@) is None ==> r is Err,
            r matches Ok(p) ==> exists|d: Document|
                #[trigger] parses_to(xml@, d) && presentation_of(d) == Some(pres_view(p)),
            (r is Err && parsed_nodes(xml@) is Some) ==> exists|d: Document| #[trigger] parses_to(xml@, d) && presentation_of(d) is None,
    {
        let d = match Document::parse(xml) {
            Ok(d) => d,
            Err(e) => return Err(e),
        };
        let r = Presentation::from_document(&d);
        assert(parses_to(xml@, d));
        r
    }
}

// ─── Writing ────────────────────────────────────────────────────────────────

/// The attributes of an id-list entry.
pub open spec fn entry_attrs(e: (u32, Seq<char>)) -> Seq<(Seq<char>, Seq<char>)> {
    seq![("id"@, dec_nat(e.0 as nat)), ("r:id"@, e.1)]
}

/// One self-closing `entry` tag per id, in order.
pub open spec fn entries_text(entry: Seq<char>, es: Seq<(u32, Seq<char>)>) -> Seq<u8>
    decreases es.len(),
{
    if es.len() == 0 {
        Seq::empty()
    } else {
        entries_text(entry, es.drop_last()) + empty_text(entry, entry_attrs(es.last()))
    }
}

/// An id list as written: nothing when there is no id, else the `list` tag
/// around the entries.
pub open spec fn id_list_text(list: Seq<char>, entry: Seq<char>, es: Seq<(u32, Seq<char>)>) -> Seq<u8> {
    if es.len() == 0 {
        Seq::empty()
    } else {
        start_text(list, Seq::empty()) + entries_text(entry, es) + end_text(list)
    }
}

/// The attributes of a size: `cx`, `cy`, and `type` when asked for and set.
pub open spec fn size_attrs(z: (i64, i64, Option<Seq<char>>), with_type: bool) -> Seq<(Seq<char>, Seq<char>)> {
    seq![("cx"@, dec_int(z.0 as int)), ("cy"@, dec_int(z.1 as int))] + if with_type && z.2 is Some {
        seq![("type"@, z.2->0)]
    } else {
        Seq::empty()
    }
}

/// Byte strings one after another.
pub open spec fn concat_bytes(v: Seq<Seq<u8>>) -> Seq<u8>
    decreases v.len(),
{
    if v.len() == 0 {
        Seq::empty()
    } else {
        concat_bytes(v.drop_last()) + v.last()
    }
}

/// `ppt/presentation.xml` as written: the declaration, the root tag with its
/// attributes, the master and slide id lists, the slide size (with its
/// type), the notes size, the unmodelled children as they were, and the end
/// tag.
pub open spec fn pres_xml(v: PresView) -> Seq<u8> {
    decl_text("1.0"@, "UTF-8"@, "yes"@) + start_text("p:presentation"@, v.0) + id_list_text(
        "p:sldMasterIdLst"@,
        "p:sldMasterId"@,
        v.1,
    ) + id_list_text("p:sldIdLst"@, "p:sldId"@, v.2) + empty_text("p:sldSz"@, size_attrs(v.3, true)) + empty_text(
        "p:notesSz"@,
        size_attrs(v.4, false),
    ) + concat_bytes(v.5) + end_text("p:presentation"@)
}

/// A writer's I/O error as the library's error: the `Io` variant, carrying
/// the error's text.
fn io_err(e: &std::io::Error) -> (r: OxmlError)
    ensures
        r is Io,
{
    OxmlError::Io(io_error_text(e))
}

fn write_id_list(w: &mut quick_xml::Writer<Vec<u8>>, list: &str, entry: &str, es: &Vec<SlideIdEntry>) -> (r: Result<(), OxmlError>)
    requires
        unindented(*old(w)),
    ensures
        unindented(*final(w)),
        r is Ok,
        es@.len() == 0 ==> *final(w) == *old(w),
        r is Ok ==> written(*final(w)) == written(*old(w)) + id_list_text(list@, entry@, entries_view(es@)),
{
    if es.len() == 0 {
        return Ok(());
    }
    let none: Vec<(String, String)> = Vec::new();
    proof { assert(text_pairs(none@) =~= Seq::<(Seq<char>, Seq<char>)>::empty()); }
    if let Err(e) = write_start(w, list, &none) {
        return Err(io_err(&e));
    }
    let ghost head = written(*w);
    let mut i: usize = 0;
    while i < es.len()
        invariant
            i <= es@.len(),
            unindented(*w),
            written(*w) == head + entries_text(entry@, entries_view(es@).take(i as int)),
        decreases es@.len() - i,
    {
        proof {
            assert(entries_view(es@).take(i + 1).drop_last() =~= entries_view(es@).take(i as int));
            assert(entries_view(es@).take(i + 1).last() == (es@[i as int].id, es@[i as int].r_id@));
        }
        let mut attrs: Vec<(String, String)> = Vec::new();
        attrs.push((string_of("id"), dec_u64(es[i].id as u64)));
        attrs.push((string_of("r:id"), es[i].r_id.clone()));
        proof { assert(text_pairs(attrs@) =~= entry_attrs((es@[i as int].id, es@[i as int].r_id@))); }
        if let Err(e) = write_empty(w, entry, &attrs) {
            return Err(io_err(&e));
        }
        i = i + 1;
    }
    assert(entries_view(es@).take(es@.len() as int) =~= entries_view(es@));
    if let Err(e) = write_end(w, list) {
        return Err(io_err(&e));
    }
    Ok(())
}

fn size_pairs(z: &SlideSize, with_type: bool) -> (r: Vec<(String, String)>)
    ensures
        text_pairs(r@) == size_attrs(size_view(*z), with_type),
{
    let mut out: Vec<(String, String)> = Vec::new();
    out.push((string_of("cx"), dec_i64(z.cx)));
    out.push((string_of("cy"), dec_i64(z.cy)));
    if with_type {
        match &z.ty {
            Some(t) => out.push((string_of("type"), t.clone())),
            None => {},
        }
    }
    assert(text_pairs(out@) =~= size_attrs(size_view(*z), with_type));
    out
}

impl Presentation {
    /// Serialize `ppt/presentation.xml` (see [`pres_xml`]).
    pub fn to_xml(&self) -> (r: Result<Vec<u8>, OxmlError>)
        ensures
            r matches Ok(b) && b@ == pres_xml(pres_view(*self)),
    {
        let mut w = new_plain_writer();
        if let Err(e) = write_decl(&mut w, "1.0", "UTF-8", "yes") {
            return Err(io_err(&e));
        }
        if let Err(e) = write_start(&mut w, "p:presentation", &self.root_attrs) {
            return Err(io_err(&e));
        }
        proof { assert(text_pairs(self.root_attrs@) =~= pairs_view(self.root_attrs@)); }
        if let Err(e) = write_id_list(&mut w, "p:sldMasterIdLst", "p:sldMasterId", &self.master_ids) {
            return Err(e);
        }
        if let Err(e) = write_id_list(&mut w, "p:sldIdLst", "p:sldId", &self.slide_ids) {
            return Err(e);
        }
        let sz = size_pairs(&self.slide_size, true);
        if let Err(e) = write_empty(&mut w, "p:sldSz", &sz) {
            return Err(io_err(&e));
        }
        let nz = size_pairs(&self.notes_size, false);
        if let Err(e) = write_empty(&mut w, "p:notesSz", &nz) {
            return Err(io_err(&e));
        }
        let ghost head = written(w);
        let mut i: usize = 0;
        while i < self.extra_children.len()
            invariant
                i <= self.extra_children@.len(),
                unindented(w),
                written(w) == head + concat_bytes(bytes_list_view(self.extra_children@).take(i as int)),
            decreases self.extra_children@.len() - i,
        {
            proof {
                assert(bytes_list_view(self.extra_children@).take(i + 1).drop_last() =~= bytes_list_view(
                    self.extra_children@,
                ).take(i as int));
            }
            write_raw(&mut w, self.extra_children[i].as_slice());
            i = i + 1;
        }
        assert(bytes_list_view(self.extra_children@).take(self.extra_children@.len() as int) =~= bytes_list_view(
            self.extra_children@,
        ));
        if let Err(e) = write_end(&mut w, "p:presentation") {
            return Err(io_err(&e));
        }
        let out = writer_bytes(w);
        assert(out@ =~= pres_xml(pres_view(*self)));
        Ok(out)
    }
}

} // verus!
