//! `[Content_Types].xml`: default content types by file extension and
//! overrides by part name.
//!
//! A parsed file is written back verbatim until a change is made to it.

use vstd::prelude::*;
use crate::bytes::{bytes_eq, to_vec};
use crate::error::OpcError;
use crate::sorted_map::{get_sorted, insert_sorted, keys_sorted, lookup};
use crate::text::{chars_eq_str, chars_of, string_of, utf8_string};
use crate::xml::attrs_view;
use crate::xml_reader::{
    open_reader, read_event, reader_input, reader_position, reader_reads, reader_trims, set_trim_text, step_empty,
    step_eof, step_error, xml_step, XmlEvent,
};
use crate::xml_writer::{
    indent_consistent, indented_output, io_error_text, new_indented_writer, unindented, TagKind, write_decl, write_empty2, write_end, write_start1, writer_bytes, writer_indent, writer_log,
};
use vstd::utf8::{decode_utf8, valid_utf8};

verus! {

/// One content type entry: a default (by extension) or an override (by part
/// name).
#[derive(Debug, Clone, PartialEq)]
pub enum ContentType {
    Default { extension: String, content_type: String },
    Override { part_name: String, content_type: String },
}

/// The parsed `[Content_Types].xml`: two maps kept sorted by key, and the
/// original bytes while the file is unchanged.
#[derive(Debug, Clone)]
pub struct ContentTypes {
    pub defaults: Vec<(String, String)>,
    pub overrides: Vec<(String, String)>,
    /// The bytes the file was parsed from, while it is unchanged.
    pub raw: Option<Vec<u8>>,
}

/// The index just after the last `.` of `s`, or `None` when there is none.
pub open spec fn after_last_dot(s: Seq<char>) -> Option<int>
    decreases s.len(),
{
    if s.len() == 0 {
        None
    } else if s.last() == '.' {
        Some(s.len() as int)
    } else {
        after_last_dot(s.drop_last())
    }
}

/// The content type of a part: its override, else the default for the
/// extension after its last `.`.
pub open spec fn content_type_spec(overrides: Seq<(String, String)>, defaults: Seq<(String, String)>, part: Seq<char>) -> Option<Seq<char>> {
    match lookup(overrides, part) {
        Some(ct) => Some(ct),
        None => match after_last_dot(part) {
            Some(i) => lookup(defaults, part.skip(i)),
            None => None,
        },
    }
}

/// A part's content type after an override is set for it: the override for
/// that part, and what it was for every other part (given that the defaults
/// and the other overrides stay, as `add_override` ensures).
pub proof fn lemma_override_reads_back(
    before: ContentTypes,
    after: ContentTypes,
    part: Seq<char>,
    ctype: Seq<char>,
    other: Seq<char>,
)
    requires
        after.defaults@ == before.defaults@,
        lookup(after.overrides@, part) == Some(ctype),
        forall|k: Seq<char>| k != part ==> lookup(after.overrides@, k) == lookup(before.overrides@, k),
    ensures
        content_type_spec(after.overrides@, after.defaults@, part) == Some(ctype),
        other != part ==> content_type_spec(after.overrides@, after.defaults@, other) == content_type_spec(
            before.overrides@,
            before.defaults@,
            other,
        ),
{
}

/// The events `to_xml` writes for a freshly built file: the declaration, the
/// `Types` root, each default then each override in key order, and the end
/// tag.
pub open spec fn types_log(defaults: Seq<(String, String)>, overrides: Seq<(String, String)>) -> Seq<(TagKind, Seq<char>, Seq<(Seq<char>, Seq<char>)>)> {
    seq![
        (TagKind::Decl, /* 1.0 */ seq!['1', '.', '0'], seq![(/* encoding */ seq!['e', 'n', 'c', 'o', 'd', 'i', 'n', 'g'], /* UTF-8 */ seq!['U', 'T', 'F', '-', '8']), (/* standalone */ seq!['s', 't', 'a', 'n', 'd', 'a', 'l', 'o', 'n', 'e'], /* yes */ seq!['y', 'e', 's'])]),
        (TagKind::Start, /* Types */ seq!['T', 'y', 'p', 'e', 's'], seq![(/* xmlns */ seq!['x', 'm', 'l', 'n', 's'], /* http://schemas.openxmlformats.org/package/2006/content-types */ seq!['h', 't', 't', 'p', ':', '/', '/', 's', 'c', 'h', 'e', 'm', 'a', 's', '.', 'o', 'p', 'e', 'n', 'x', 'm', 'l', 'f', 'o', 'r', 'm', 'a', 't', 's', '.', 'o', 'r', 'g', '/', 'p', 'a', 'c', 'k', 'a', 'g', 'e', '/', '2', '0', '0', '6', '/', 'c', 'o', 'n', 't', 'e', 'n', 't', '-', 't', 'y', 'p', 'e', 's'])]),
    ] + defaults.map_values(
        |e: (String, String)| (TagKind::Empty, /* Default */ seq!['D', 'e', 'f', 'a', 'u', 'l', 't'], seq![(/* Extension */ seq!['E', 'x', 't', 'e', 'n', 's', 'i', 'o', 'n'], e.0@), (/* ContentType */ seq!['C', 'o', 'n', 't', 'e', 'n', 't', 'T', 'y', 'p', 'e'], e.1@)]),
    ) + overrides.map_values(
        |e: (String, String)| (TagKind::Empty, /* Override */ seq!['O', 'v', 'e', 'r', 'r', 'i', 'd', 'e'], seq![(/* PartName */ seq!['P', 'a', 'r', 't', 'N', 'a', 'm', 'e'], e.0@), (/* ContentType */ seq!['C', 'o', 'n', 't', 'e', 'n', 't', 'T', 'y', 'p', 'e'], e.1@)]),
    ) + seq![(TagKind::End, /* Types */ seq!['T', 'y', 'p', 'e', 's'], Seq::<(Seq<char>, Seq<char>)>::empty())]
}

/// The value of the last attribute named `key`, as UTF-8 text.
pub open spec fn attr_text(attrs: Seq<(Vec<u8>, Vec<u8>)>, key: Seq<u8>) -> Option<Seq<u8>>
    decreases attrs.len(),
{
    if attrs.len() == 0 {
        None
    } else if attrs.last().0@ == key {
        Some(attrs.last().1@)
    } else {
        attr_text(attrs.drop_last(), key)
    }
}

/// Whether every attribute named one of `k1`, `k2` has a UTF-8 value.
pub open spec fn attrs_utf8(attrs: Seq<(Vec<u8>, Vec<u8>)>, k1: Seq<u8>, k2: Seq<u8>) -> bool {
    forall|i: int| 0 <= i < attrs.len() && (attrs[i].0@ == k1 || attrs[i].0@ == k2) ==> valid_utf8(#[trigger] attrs[i].1@)
}

/// The value of the last attribute named `key` among (key, value) pairs.
pub open spec fn attr_text_v(attrs: Seq<(Seq<u8>, Seq<u8>)>, key: Seq<u8>) -> Option<Seq<u8>>
    decreases attrs.len(),
{
    if attrs.len() == 0 {
        None
    } else if attrs.last().0 == key {
        Some(attrs.last().1)
    } else {
        attr_text_v(attrs.drop_last(), key)
    }
}

proof fn lemma_attr_text_view(attrs: Seq<(Vec<u8>, Vec<u8>)>, key: Seq<u8>)
    ensures
        attr_text(attrs, key) == attr_text_v(attrs_view(attrs), key),
    decreases attrs.len(),
{
    if attrs.len() > 0 {
        assert(attrs_view(attrs).drop_last() =~= attrs_view(attrs.drop_last()));
        lemma_attr_text_view(attrs.drop_last(), key);
    }
}

/// Whether every pair keyed `k1` or `k2` has a UTF-8 value.
pub open spec fn attrs_utf8_v(attrs: Seq<(Seq<u8>, Seq<u8>)>, k1: Seq<u8>, k2: Seq<u8>) -> bool {
    forall|i: int| 0 <= i < attrs.len() && (attrs[i].0 == k1 || attrs[i].0 == k2) ==> valid_utf8(#[trigger] attrs[i].1)
}

proof fn lemma_attrs_utf8_view(a: Seq<(Vec<u8>, Vec<u8>)>, k1: Seq<u8>, k2: Seq<u8>)
    ensures
        attrs_utf8(a, k1, k2) == attrs_utf8_v(attrs_view(a), k1, k2),
{
    let v = attrs_view(a);
    assert forall|i: int| 0 <= i < a.len() implies #[trigger] v[i] == (a[i].0@, a[i].1@) by {}
    if attrs_utf8(a, k1, k2) {
        assert forall|i: int| 0 <= i < v.len() && (v[i].0 == k1 || v[i].0 == k2) implies valid_utf8(#[trigger] v[i].1) by {
            assert(v[i] == (a[i].0@, a[i].1@));
        }
    }
    if attrs_utf8_v(v, k1, k2) {
        assert forall|i: int| 0 <= i < a.len() && (a[i].0@ == k1 || a[i].0@ == k2) implies valid_utf8(#[trigger] a[i].1@) by {
            assert(v[i] == (a[i].0@, a[i].1@));
            assert(v[i].0 == k1 || v[i].0 == k2);
            assert(valid_utf8(v[i].1));
        }
    }
}

/// What one self-closing tag does to the (default, override) tables: a
/// `Default` sets the content type of its `Extension`, an `Override` that of
/// its `PartName`; any other tag changes nothing. `None` when an entry lacks
/// one of its two attributes or one of them is not UTF-8.
pub open spec fn entry_effect(
    name: Seq<u8>,
    a: Seq<(Seq<u8>, Seq<u8>)>,
    d: Map<Seq<char>, Seq<char>>,
    o: Map<Seq<char>, Seq<char>>,
) -> Option<(Map<Seq<char>, Seq<char>>, Map<Seq<char>, Seq<char>>)> {
    if name == /* Default */ seq![68u8, 101u8, 102u8, 97u8, 117u8, 108u8, 116u8] {
        if !attrs_utf8_v(a, /* Extension */ seq![69u8, 120u8, 116u8, 101u8, 110u8, 115u8, 105u8, 111u8, 110u8], /* ContentType */ seq![67u8, 111u8, 110u8, 116u8, 101u8, 110u8, 116u8, 84u8, 121u8, 112u8, 101u8]) {
            None
        } else {
            match (attr_text_v(a, /* Extension */ seq![69u8, 120u8, 116u8, 101u8, 110u8, 115u8, 105u8, 111u8, 110u8]), attr_text_v(a, /* ContentType */ seq![67u8, 111u8, 110u8, 116u8, 101u8, 110u8, 116u8, 84u8, 121u8, 112u8, 101u8])) {
                (Some(e), Some(c)) => Some((d.insert(decode_utf8(e), decode_utf8(c)), o)),
                _ => None,
            }
        }
    } else if name == /* Override */ seq![79u8, 118u8, 101u8, 114u8, 114u8, 105u8, 100u8, 101u8] {
        if !attrs_utf8_v(a, /* PartName */ seq![80u8, 97u8, 114u8, 116u8, 78u8, 97u8, 109u8, 101u8], /* ContentType */ seq![67u8, 111u8, 110u8, 116u8, 101u8, 110u8, 116u8, 84u8, 121u8, 112u8, 101u8]) {
            None
        } else {
            match (attr_text_v(a, /* PartName */ seq![80u8, 97u8, 114u8, 116u8, 78u8, 97u8, 109u8, 101u8]), attr_text_v(a, /* ContentType */ seq![67u8, 111u8, 110u8, 116u8, 101u8, 110u8, 116u8, 84u8, 121u8, 112u8, 101u8])) {
                (Some(p), Some(c)) => Some((d, o.insert(decode_utf8(p), decode_utf8(c)))),
                _ => None,
            }
        }
    } else {
        Some((d, o))
    }
}

/// The tables the reader's reports on `src` (whitespace-only text trimmed)
/// give, from the `k`-th report at byte offset `pos` with tables `d` and `o`
/// so far: every self-closing tag has its [`entry_effect`] (a tag whose
/// attributes cannot be read counts only when it is an entry); the end of
/// input ends; `None` when the reader fails, a report other than the end
/// makes no progress or ends outside the input, or an entry is invalid.
pub open spec fn types_read(
    src: Seq<u8>,
    k: nat,
    pos: int,
    d: Map<Seq<char>, Seq<char>>,
    o: Map<Seq<char>, Seq<char>>,
) -> Option<(Map<Seq<char>, Seq<char>>, Map<Seq<char>, Seq<char>>)>
    decreases src.len() - pos,
{
    if pos < 0 || pos > src.len() {
        None
    } else {
        let s = xml_step(src, true, k);
        let end = s.1 as int;
        if (end > src.len() || end <= pos) && s.0 != step_eof() {
            None
        } else if s.0 == step_eof() {
            Some((d, o))
        } else if s.0 == step_error() {
            None
        } else if s.0 == step_empty() {
            match s.3 {
                Some(a) => match entry_effect(s.2, a, d, o) {
                    Some((d2, o2)) => types_read(src, k + 1, end, d2, o2),
                    None => None,
                },
                None => if s.2 == /* Default */ seq![68u8, 101u8, 102u8, 97u8, 117u8, 108u8, 116u8] || s.2 == /* Override */ seq![79u8, 118u8, 101u8, 114u8, 114u8, 105u8, 100u8, 101u8] {
                    None
                } else {
                    types_read(src, k + 1, end, d, o)
                },
            }
        } else {
            types_read(src, k + 1, end, d, o)
        }
    }
}

/// The tables `[Content_Types].xml` holds: (defaults by extension,
/// overrides by part name).
pub open spec fn types_of(src: Seq<u8>) -> Option<(Map<Seq<char>, Seq<char>>, Map<Seq<char>, Seq<char>>)> {
    types_read(src, 0, 0, Map::empty(), Map::empty())
}

/// A sorted table as a map from key to value.
pub open spec fn table_map(v: Seq<(String, String)>) -> Map<Seq<char>, Seq<char>> {
    Map::new(|k: Seq<char>| lookup(v, k) is Some, |k: Seq<char>| lookup(v, k).unwrap())
}

impl ContentTypes {
    /// The well-formedness of the maps: keys strictly increase.
    pub open spec fn wf(&self) -> bool {
        keys_sorted(self.defaults@) && keys_sorted(self.overrides@)
    }

    /// The original bytes, while unchanged.
    pub open spec fn raw_bytes(&self) -> Option<Seq<u8>> {
        match self.raw {
            Some(r) => Some(r@),
            None => None,
        }
    }

    /// The content type for a part name: its override if any, else the default
    /// for its extension (the text after the last `.`), else `None`.
    pub fn content_type_for(&self, part_name: &str) -> (r: Option<&str>)
        requires
            self.wf(),
        ensures
            match r {
                Some(s) => content_type_spec(self.overrides@, self.defaults@, part_name@) == Some(s@),
                None => content_type_spec(self.overrides@, self.defaults@, part_name@) is None,
            },
    {
        let cs = chars_of(part_name);
        if let Some(ct) = get_sorted(&self.overrides, &cs) {
            return Some(ct);
        }
        let mut i: usize = cs.len();
        assert(cs@.take(cs@.len() as int) =~= cs@);
        while i > 0 && cs[i - 1] != '.'
            invariant
                i <= cs@.len(),
                after_last_dot(cs@) == after_last_dot(cs@.take(i as int)),
            decreases i,
        {
            assert(cs@.take(i as int).drop_last() =~= cs@.take(i - 1));
            i = i - 1;
        }
        assert(cs@.take(cs@.len() as int) =~= cs@);
        if i == 0 {
            assert(cs@.take(0) =~= Seq::<char>::empty());
            return None;
        }
        let mut ext: Vec<char> = Vec::new();
        let mut j: usize = i;
        while j < cs.len()
            invariant
                i <= j <= cs@.len(),
                ext@ == cs@.subrange(i as int, j as int),
            decreases cs@.len() - j,
        {
            ext.push(cs[j]);
            j = j + 1;
        }
        assert(ext@ =~= cs@.skip(i as int));
        get_sorted(&self.defaults, &ext)
    }

    /// Add a default content type for an extension, unless the extension
    /// already has one; adding marks the file changed.
    pub fn add_default(&mut self, extension: &str, content_type: &str)
        requires
            old(self).wf(),
        ensures
            final(self).wf(),
            final(self).overrides@ == old(self).overrides@,
            lookup(old(self).defaults@, extension@) is Some ==> *final(self) == *old(self),
            lookup(old(self).defaults@, extension@) is None ==> {
                &&& lookup(final(self).defaults@, extension@) == Some(content_type@)
                &&& forall|k: Seq<char>| k != extension@ ==> lookup(final(self).defaults@, k) == lookup(old(self).defaults@, k)
                &&& final(self).raw_bytes() is None
            },
    {
        let e = chars_of(extension);
        if get_sorted(&self.defaults, &e).is_none() {
            let _ = insert_sorted(&mut self.defaults, extension, content_type);
            self.raw = None;
        }
    }

    /// Set the content type of a part name; the file is marked changed unless
    /// the part already had exactly that type.
    pub fn add_override(&mut self, part_name: &str, content_type: &str)
        requires
            old(self).wf(),
        ensures
            final(self).wf(),
            final(self).defaults@ == old(self).defaults@,
            lookup(final(self).overrides@, part_name@) == Some(content_type@),
            forall|k: Seq<char>| k != part_name@ ==> lookup(final(self).overrides@, k) == lookup(old(self).overrides@, k),
            lookup(old(self).overrides@, part_name@) == Some(content_type@) ==> final(self).raw_bytes() == old(self).raw_bytes(),
            lookup(old(self).overrides@, part_name@) != Some(content_type@) ==> final(self).raw_bytes() is None,
    {
        let prev = insert_sorted(&mut self.overrides, part_name, content_type);
        let same = match &prev {
            Some(p) => {
                let pc = chars_of(p.as_str());
                chars_eq_str(&pc, content_type)
            },
            None => false,
        };
        if !same {
            self.raw = None;
        }
    }

    /// A new file with the standard presentation entries: defaults for `rels`
    /// and `xml`, and the override for `/ppt/presentation.xml`.
    pub fn new_pptx() -> (ct: ContentTypes)
        ensures
            ct.wf(),
            ct.defaults@.len() == 2,
            lookup(ct.defaults@, /* rels */ seq!['r', 'e', 'l', 's']) == Some(/* application/vnd.openxmlformats-package.relationships+xml */ seq!['a', 'p', 'p', 'l', 'i', 'c', 'a', 't', 'i', 'o', 'n', '/', 'v', 'n', 'd', '.', 'o', 'p', 'e', 'n', 'x', 'm', 'l', 'f', 'o', 'r', 'm', 'a', 't', 's', '-', 'p', 'a', 'c', 'k', 'a', 'g', 'e', '.', 'r', 'e', 'l', 'a', 't', 'i', 'o', 'n', 's', 'h', 'i', 'p', 's', '+', 'x', 'm', 'l']),
            lookup(ct.defaults@, /* xml */ seq!['x', 'm', 'l']) == Some(/* application/xml */ seq!['a', 'p', 'p', 'l', 'i', 'c', 'a', 't', 'i', 'o', 'n', '/', 'x', 'm', 'l']),
            ct.overrides@.len() == 1,
            lookup(ct.overrides@, /* /ppt/presentation.xml */ seq!['/', 'p', 'p', 't', '/', 'p', 'r', 'e', 's', 'e', 'n', 't', 'a', 't', 'i', 'o', 'n', '.', 'x', 'm', 'l'])
                == Some(/* application/vnd.openxmlformats-officedocument.presentationml.presentation.main+xml */ seq!['a', 'p', 'p', 'l', 'i', 'c', 'a', 't', 'i', 'o', 'n', '/', 'v', 'n', 'd', '.', 'o', 'p', 'e', 'n', 'x', 'm', 'l', 'f', 'o', 'r', 'm', 'a', 't', 's', '-', 'o', 'f', 'f', 'i', 'c', 'e', 'd', 'o', 'c', 'u', 'm', 'e', 'n', 't', '.', 'p', 'r', 'e', 's', 'e', 'n', 't', 'a', 't', 'i', 'o', 'n', 'm', 'l', '.', 'p', 'r', 'e', 's', 'e', 'n', 't', 'a', 't', 'i', 'o', 'n', '.', 'm', 'a', 'i', 'n', '+', 'x', 'm', 'l']),
            ct.raw_bytes() is None,
    {
        proof {
            reveal_strlit("rels");
            reveal_strlit("xml");
            reveal_strlit("/ppt/presentation.xml");
            reveal_strlit("application/vnd.openxmlformats-package.relationships+xml");
            reveal_strlit("application/xml");
            reveal_strlit("application/vnd.openxmlformats-officedocument.presentationml.presentation.main+xml");
            assert("rels"@ == /* rels */ seq!['r', 'e', 'l', 's']);
            assert("xml"@ == /* xml */ seq!['x', 'm', 'l']);
            assert("/ppt/presentation.xml"@ == /* /ppt/presentation.xml */ seq!['/', 'p', 'p', 't', '/', 'p', 'r', 'e', 's', 'e', 'n', 't', 'a', 't', 'i', 'o', 'n', '.', 'x', 'm', 'l']);
            assert("application/vnd.openxmlformats-package.relationships+xml"@ == /* application/vnd.openxmlformats-package.relationships+xml */ seq!['a', 'p', 'p', 'l', 'i', 'c', 'a', 't', 'i', 'o', 'n', '/', 'v', 'n', 'd', '.', 'o', 'p', 'e', 'n', 'x', 'm', 'l', 'f', 'o', 'r', 'm', 'a', 't', 's', '-', 'p', 'a', 'c', 'k', 'a', 'g', 'e', '.', 'r', 'e', 'l', 'a', 't', 'i', 'o', 'n', 's', 'h', 'i', 'p', 's', '+', 'x', 'm', 'l']);
            assert("application/xml"@ == /* application/xml */ seq!['a', 'p', 'p', 'l', 'i', 'c', 'a', 't', 'i', 'o', 'n', '/', 'x', 'm', 'l']);
            assert("application/vnd.openxmlformats-officedocument.presentationml.presentation.main+xml"@
                == /* application/vnd.openxmlformats-officedocument.presentationml.presentation.main+xml */ seq!['a', 'p', 'p', 'l', 'i', 'c', 'a', 't', 'i', 'o', 'n', '/', 'v', 'n', 'd', '.', 'o', 'p', 'e', 'n', 'x', 'm', 'l', 'f', 'o', 'r', 'm', 'a', 't', 's', '-', 'o', 'f', 'f', 'i', 'c', 'e', 'd', 'o', 'c', 'u', 'm', 'e', 'n', 't', '.', 'p', 'r', 'e', 's', 'e', 'n', 't', 'a', 't', 'i', 'o', 'n', 'm', 'l', '.', 'p', 'r', 'e', 's', 'e', 'n', 't', 'a', 't', 'i', 'o', 'n', '.', 'm', 'a', 'i', 'n', '+', 'x', 'm', 'l']);
        }
        let mut defaults: Vec<(String, String)> = Vec::new();
        let _ = insert_sorted(&mut defaults, "rels", "application/vnd.openxmlformats-package.relationships+xml");
        let _ = insert_sorted(&mut defaults, "xml", "application/xml");
        let mut overrides: Vec<(String, String)> = Vec::new();
        let _ = insert_sorted(
            &mut overrides,
            "/ppt/presentation.xml",
            "application/vnd.openxmlformats-officedocument.presentationml.presentation.main+xml",
        );
        ContentTypes { defaults, overrides, raw: None }
    }

    /// Record one `Default` or `Override` tag of the file. A tag with another
    /// name is ignored. Each of the two needs both of its attributes (the last
    /// one of a name counts), as UTF-8 text; a later entry for the same key
    /// replaces an earlier one.
    pub fn add_entry(&mut self, name: &[u8], attrs: &Vec<(Vec<u8>, Vec<u8>)>) -> (r: Result<(), OpcError>)
        requires
            old(self).wf(),
        ensures
            final(self).wf(),
            final(self).raw == old(self).raw,
            name@ != /* Default */ seq![68u8, 101u8, 102u8, 97u8, 117u8, 108u8, 116u8] && name@ != /* Override */ seq![79u8, 118u8, 101u8, 114u8, 114u8, 105u8, 100u8, 101u8] ==> r is Ok && *final(self) == *old(self),
            name@ == /* Default */ seq![68u8, 101u8, 102u8, 97u8, 117u8, 108u8, 116u8] && attrs_utf8(attrs@, /* Extension */ seq![69u8, 120u8, 116u8, 101u8, 110u8, 115u8, 105u8, 111u8, 110u8], /* ContentType */ seq![67u8, 111u8, 110u8, 116u8, 101u8, 110u8, 116u8, 84u8, 121u8, 112u8, 101u8]) ==> match (attr_text(attrs@, /* Extension */ seq![69u8, 120u8, 116u8, 101u8, 110u8, 115u8, 105u8, 111u8, 110u8]), attr_text(attrs@, /* ContentType */ seq![67u8, 111u8, 110u8, 116u8, 101u8, 110u8, 116u8, 84u8, 121u8, 112u8, 101u8])) {
                (Some(e), Some(c)) => r is Ok && final(self).overrides@ == old(self).overrides@
                    && lookup(final(self).defaults@, decode_utf8(e)) == Some(decode_utf8(c))
                    && forall|k: Seq<char>| k != decode_utf8(e) ==> lookup(final(self).defaults@, k) == lookup(old(self).defaults@, k),
                _ => r matches Err(OpcError::InvalidContentTypes),
            },
            name@ == /* Override */ seq![79u8, 118u8, 101u8, 114u8, 114u8, 105u8, 100u8, 101u8] && attrs_utf8(attrs@, /* PartName */ seq![80u8, 97u8, 114u8, 116u8, 78u8, 97u8, 109u8, 101u8], /* ContentType */ seq![67u8, 111u8, 110u8, 116u8, 101u8, 110u8, 116u8, 84u8, 121u8, 112u8, 101u8]) ==> match (attr_text(attrs@, /* PartName */ seq![80u8, 97u8, 114u8, 116u8, 78u8, 97u8, 109u8, 101u8]), attr_text(attrs@, /* ContentType */ seq![67u8, 111u8, 110u8, 116u8, 101u8, 110u8, 116u8, 84u8, 121u8, 112u8, 101u8])) {
                (Some(p), Some(c)) => r is Ok && final(self).defaults@ == old(self).defaults@
                    && lookup(final(self).overrides@, decode_utf8(p)) == Some(decode_utf8(c))
                    && forall|k: Seq<char>| k != decode_utf8(p) ==> lookup(final(self).overrides@, k) == lookup(old(self).overrides@, k),
                _ => r matches Err(OpcError::InvalidContentTypes),
            },
            (name@ == /* Default */ seq![68u8, 101u8, 102u8, 97u8, 117u8, 108u8, 116u8] && !attrs_utf8(attrs@, /* Extension */ seq![69u8, 120u8, 116u8, 101u8, 110u8, 115u8, 105u8, 111u8, 110u8], /* ContentType */ seq![67u8, 111u8, 110u8, 116u8, 101u8, 110u8, 116u8, 84u8, 121u8, 112u8, 101u8]))
                || (name@ == /* Override */ seq![79u8, 118u8, 101u8, 114u8, 114u8, 105u8, 100u8, 101u8] && !attrs_utf8(attrs@, /* PartName */ seq![80u8, 97u8, 114u8, 116u8, 78u8, 97u8, 109u8, 101u8], /* ContentType */ seq![67u8, 111u8, 110u8, 116u8, 101u8, 110u8, 116u8, 84u8, 121u8, 112u8, 101u8])) ==> r matches Err(OpcError::Utf8(_)),
    {
        let is_default = bytes_eq(name, /* Default */ [68u8, 101u8, 102u8, 97u8, 117u8, 108u8, 116u8].as_slice());
        let is_override = bytes_eq(name, /* Override */ [79u8, 118u8, 101u8, 114u8, 114u8, 105u8, 100u8, 101u8].as_slice());
        if !is_default && !is_override {
            return Ok(());
        }
        let key_name: &[u8] = if is_default { /* Extension */ [69u8, 120u8, 116u8, 101u8, 110u8, 115u8, 105u8, 111u8, 110u8].as_slice() } else { /* PartName */ [80u8, 97u8, 114u8, 116u8, 78u8, 97u8, 109u8, 101u8].as_slice() };
        let mut key: Option<String> = None;
        let mut ct: Option<String> = None;
        let mut i: usize = 0;
        while i < attrs.len()
            invariant
                i <= attrs@.len(),
                *self == *old(self),
                old(self).wf(),
                is_default == (name@ == /* Default */ seq![68u8, 101u8, 102u8, 97u8, 117u8, 108u8, 116u8]),
                is_override == (name@ == /* Override */ seq![79u8, 118u8, 101u8, 114u8, 114u8, 105u8, 100u8, 101u8]),
                is_default || is_override,
                key_name@ == (if is_default { /* Extension */ seq![69u8, 120u8, 116u8, 101u8, 110u8, 115u8, 105u8, 111u8, 110u8] } else { /* PartName */ seq![80u8, 97u8, 114u8, 116u8, 78u8, 97u8, 109u8, 101u8] }),
                forall|j: int| 0 <= j < i && (attrs@[j].0@ == key_name@ || attrs@[j].0@ == /* ContentType */ seq![67u8, 111u8, 110u8, 116u8, 101u8, 110u8, 116u8, 84u8, 121u8, 112u8, 101u8])
                    ==> valid_utf8(#[trigger] attrs@[j].1@),
                match key {
                    Some(k) => attr_text(attrs@.take(i as int), key_name@) matches Some(t) && k@ == decode_utf8(t),
                    None => attr_text(attrs@.take(i as int), key_name@) is None,
                },
                match ct {
                    Some(c) => attr_text(attrs@.take(i as int), /* ContentType */ seq![67u8, 111u8, 110u8, 116u8, 101u8, 110u8, 116u8, 84u8, 121u8, 112u8, 101u8]) matches Some(t) && c@ == decode_utf8(t),
                    None => attr_text(attrs@.take(i as int), /* ContentType */ seq![67u8, 111u8, 110u8, 116u8, 101u8, 110u8, 116u8, 84u8, 121u8, 112u8, 101u8]) is None,
                },
            decreases attrs@.len() - i,
        {
            let (k, v) = &attrs[i];
            let is_key = bytes_eq(k.as_slice(), key_name);
            let is_ct = bytes_eq(k.as_slice(), /* ContentType */ [67u8, 111u8, 110u8, 116u8, 101u8, 110u8, 116u8, 84u8, 121u8, 112u8, 101u8].as_slice());
            assert(attrs@.take(i + 1).drop_last() =~= attrs@.take(i as int));
            if is_key || is_ct {
                match utf8_string(v.as_slice()) {
                    Ok(s) => {
                        if is_key {
                            key = Some(s);
                        } else {
                            ct = Some(s);
                        }
                    },
                    Err(msg) => {
                        return Err(OpcError::Utf8(msg));
                    },
                }
            }
            i = i + 1;
        }
        assert(attrs@.take(attrs@.len() as int) =~= attrs@);
        match (key, ct) {
            (Some(k), Some(c)) => {
                if is_default {
                    let _ = insert_sorted(&mut self.defaults, k.as_str(), c.as_str());
                } else {
                    let _ = insert_sorted(&mut self.overrides, k.as_str(), c.as_str());
                }
                Ok(())
            },
            _ => Err(OpcError::InvalidContentTypes),
        }
    }

    /// Parse `[Content_Types].xml`: every self-closing `Default` and
    /// `Override` tag is recorded as `add_entry` records it ([`types_of`]).
    /// The parsed file remembers its bytes.
    pub fn from_xml(xml: &[u8]) -> (r: Result<ContentTypes, OpcError>)
        ensures
            r is Ok <==> types_of(xml@) is Some,
            r matches Ok(ct) ==> ct.wf() && ct.raw_bytes() == Some(xml@) && (table_map(ct.defaults@), table_map(
                ct.overrides@,
            )) == types_of(xml@).unwrap(),
    {
        let mut reader = open_reader(xml);
        set_trim_text(&mut reader, true);
        let mut ct = ContentTypes { defaults: Vec::new(), overrides: Vec::new(), raw: None };
        let mut pos: u64 = 0;
        proof {
            assert(table_map(ct.defaults@) =~= Map::<Seq<char>, Seq<char>>::empty());
            assert(table_map(ct.overrides@) =~= Map::<Seq<char>, Seq<char>>::empty());
        }
        loop
            invariant_except_break
                ct.wf(),
                ct.raw is None,
                pos <= xml@.len(),
                reader_input(reader) == xml@,
                reader_trims(reader),
                types_of(xml@) == types_read(xml@, reader_reads(reader), pos as int, table_map(ct.defaults@), table_map(
                    ct.overrides@,
                )),
            ensures
                ct.wf(),
                ct.raw is None,
                types_of(xml@) == Some((table_map(ct.defaults@), table_map(ct.overrides@))),
            decreases xml@.len() - pos,
        {
            let ghost k = reader_reads(reader);
            let ghost st = xml_step(xml@, true, k);
            let ghost d0 = table_map(ct.defaults@);
            let ghost o0 = table_map(ct.overrides@);
            let ev = read_event(&mut reader);
            let end = reader_position(&reader);
            if end > xml.len() as u64 || end <= pos {
                if !(ev matches Ok(XmlEvent::Eof)) {
                    return Err(OpcError::Xml(string_of("reader made no progress")));
                }
            }
            match ev {
                Ok(XmlEvent::Tag(true, name, attrs)) => {
                    match attrs {
                        Ok(attrs) => {
                            proof {
                                lemma_attr_text_view(attrs@, /* Extension */ seq![69u8, 120u8, 116u8, 101u8, 110u8, 115u8, 105u8, 111u8, 110u8]);
                                lemma_attr_text_view(attrs@, /* PartName */ seq![80u8, 97u8, 114u8, 116u8, 78u8, 97u8, 109u8, 101u8]);
                                lemma_attr_text_view(attrs@, /* ContentType */ seq![67u8, 111u8, 110u8, 116u8, 101u8, 110u8, 116u8, 84u8, 121u8, 112u8, 101u8]);
                                lemma_attrs_utf8_view(attrs@, /* Extension */ seq![69u8, 120u8, 116u8, 101u8, 110u8, 115u8, 105u8, 111u8, 110u8], /* ContentType */ seq![67u8, 111u8, 110u8, 116u8, 101u8, 110u8, 116u8, 84u8, 121u8, 112u8, 101u8]);
                                lemma_attrs_utf8_view(attrs@, /* PartName */ seq![80u8, 97u8, 114u8, 116u8, 78u8, 97u8, 109u8, 101u8], /* ContentType */ seq![67u8, 111u8, 110u8, 116u8, 101u8, 110u8, 116u8, 84u8, 121u8, 112u8, 101u8]);
                            }
                            match ct.add_entry(name.as_slice(), &attrs) {
                                Ok(()) => {
                                    proof {
                                        let eff = entry_effect(name@, attrs_view(attrs@), d0, o0);
                                        assert(eff is Some);
                                        assert(table_map(ct.defaults@) =~= eff.unwrap().0);
                                        assert(table_map(ct.overrides@) =~= eff.unwrap().1);
                                    }
                                },
                                Err(err) => return Err(err),
                            }
                        },
                        Err(msg) => {
                            let is_entry = bytes_eq(name.as_slice(), /* Default */ [68u8, 101u8, 102u8, 97u8, 117u8, 108u8, 116u8].as_slice()) || bytes_eq(
                                name.as_slice(),
                                /* Override */ [79u8, 118u8, 101u8, 114u8, 114u8, 105u8, 100u8, 101u8].as_slice(),
                            );
                            if is_entry {
                                return Err(OpcError::XmlAttr(msg));
                            }
                        },
                    }
                },
                Ok(XmlEvent::Eof) => break,
                Ok(_) => {},
                Err(msg) => return Err(OpcError::Xml(msg)),
            }
            pos = end;
        }
        ct.raw = Some(to_vec(xml));
        Ok(ct)
    }

    /// Serialize: the original bytes while unchanged; otherwise a fresh file
    /// written with two-space indentation: the declaration, the `Types` root,
    /// every default and then every override in key order.
    pub fn to_xml(&self) -> (r: Result<Vec<u8>, OpcError>)
        ensures
            self.raw_bytes() matches Some(b) ==> (r matches Ok(out) && out@ == b),
            self.raw_bytes() is None ==> (r matches Ok(out) && out@ == indented_output(
                (32u8, 2usize),
                types_log(self.defaults@, self.overrides@),
            )),
    {
        if let Some(raw) = &self.raw {
            return Ok(to_vec(raw.as_slice()));
        }
        proof {
            reveal_strlit("1.0");
            reveal_strlit("UTF-8");
            reveal_strlit("yes");
            reveal_strlit("encoding");
            reveal_strlit("standalone");
            reveal_strlit("Types");
            reveal_strlit("xmlns");
            reveal_strlit("http://schemas.openxmlformats.org/package/2006/content-types");
            reveal_strlit("Default");
            reveal_strlit("Override");
            reveal_strlit("Extension");
            reveal_strlit("PartName");
            reveal_strlit("ContentType");
            assert("1.0"@ == /* 1.0 */ seq!['1', '.', '0']);
            assert("UTF-8"@ == /* UTF-8 */ seq!['U', 'T', 'F', '-', '8']);
            assert("yes"@ == /* yes */ seq!['y', 'e', 's']);
            assert("encoding"@ == /* encoding */ seq!['e', 'n', 'c', 'o', 'd', 'i', 'n', 'g']);
            assert("standalone"@ == /* standalone */ seq!['s', 't', 'a', 'n', 'd', 'a', 'l', 'o', 'n', 'e']);
            assert("Types"@ == /* Types */ seq!['T', 'y', 'p', 'e', 's']);
            assert("xmlns"@ == /* xmlns */ seq!['x', 'm', 'l', 'n', 's']);
            assert("http://schemas.openxmlformats.org/package/2006/content-types"@
                == /* http://schemas.openxmlformats.org/package/2006/content-types */ seq!['h', 't', 't', 'p', ':', '/', '/', 's', 'c', 'h', 'e', 'm', 'a', 's', '.', 'o', 'p', 'e', 'n', 'x', 'm', 'l', 'f', 'o', 'r', 'm', 'a', 't', 's', '.', 'o', 'r', 'g', '/', 'p', 'a', 'c', 'k', 'a', 'g', 'e', '/', '2', '0', '0', '6', '/', 'c', 'o', 'n', 't', 'e', 'n', 't', '-', 't', 'y', 'p', 'e', 's']);
            assert("Default"@ == /* Default */ seq!['D', 'e', 'f', 'a', 'u', 'l', 't']);
            assert("Override"@ == /* Override */ seq!['O', 'v', 'e', 'r', 'r', 'i', 'd', 'e']);
            assert("Extension"@ == /* Extension */ seq!['E', 'x', 't', 'e', 'n', 's', 'i', 'o', 'n']);
            assert("PartName"@ == /* PartName */ seq!['P', 'a', 'r', 't', 'N', 'a', 'm', 'e']);
            assert("ContentType"@ == /* ContentType */ seq!['C', 'o', 'n', 't', 'e', 'n', 't', 'T', 'y', 'p', 'e']);
        }
        let mut w = new_indented_writer(32u8, 2usize);
        if let Err(e) = write_decl(&mut w, "1.0", "UTF-8", "yes") {
            return Err(OpcError::Xml(io_error_text(&e)));
        }
        if let Err(e) = write_start1(&mut w, "Types", "xmlns", "http://schemas.openxmlformats.org/package/2006/content-types") {
            return Err(OpcError::Xml(io_error_text(&e)));
        }
        let ghost head = writer_log(w);
        let mut i: usize = 0;
        while i < self.defaults.len()
            invariant
                i <= self.defaults@.len(),
                self.raw is None,
                "Default"@ == /* Default */ seq!['D', 'e', 'f', 'a', 'u', 'l', 't'],
                "Extension"@ == /* Extension */ seq!['E', 'x', 't', 'e', 'n', 's', 'i', 'o', 'n'],
                "ContentType"@ == /* ContentType */ seq!['C', 'o', 'n', 't', 'e', 'n', 't', 'T', 'y', 'p', 'e'],
                writer_indent(w) == (32u8, 2usize),
                !unindented(w),
                indent_consistent(w),
                writer_log(w) == head + self.defaults@.take(i as int).map_values(
                    |e: (String, String)| (TagKind::Empty, /* Default */ seq!['D', 'e', 'f', 'a', 'u', 'l', 't'], seq![(/* Extension */ seq!['E', 'x', 't', 'e', 'n', 's', 'i', 'o', 'n'], e.0@), (/* ContentType */ seq!['C', 'o', 'n', 't', 'e', 'n', 't', 'T', 'y', 'p', 'e'], e.1@)]),
                ),
            decreases self.defaults@.len() - i,
        {
            let (k, v) = &self.defaults[i];
            if let Err(e) = write_empty2(&mut w, "Default", "Extension", k.as_str(), "ContentType", v.as_str()) {
                return Err(OpcError::Xml(io_error_text(&e)));
            }
            assert(self.defaults@.take(i + 1) =~= self.defaults@.take(i as int).push(self.defaults@[i as int]));
            i = i + 1;
        }
        assert(self.defaults@.take(self.defaults@.len() as int) =~= self.defaults@);
        let ghost mid = writer_log(w);
        let mut j: usize = 0;
        while j < self.overrides.len()
            invariant
                j <= self.overrides@.len(),
                self.raw is None,
                "Override"@ == /* Override */ seq!['O', 'v', 'e', 'r', 'r', 'i', 'd', 'e'],
                "PartName"@ == /* PartName */ seq!['P', 'a', 'r', 't', 'N', 'a', 'm', 'e'],
                "ContentType"@ == /* ContentType */ seq!['C', 'o', 'n', 't', 'e', 'n', 't', 'T', 'y', 'p', 'e'],
                writer_indent(w) == (32u8, 2usize),
                !unindented(w),
                indent_consistent(w),
                writer_log(w) == mid + self.overrides@.take(j as int).map_values(
                    |e: (String, String)| (TagKind::Empty, /* Override */ seq!['O', 'v', 'e', 'r', 'r', 'i', 'd', 'e'], seq![(/* PartName */ seq!['P', 'a', 'r', 't', 'N', 'a', 'm', 'e'], e.0@), (/* ContentType */ seq!['C', 'o', 'n', 't', 'e', 'n', 't', 'T', 'y', 'p', 'e'], e.1@)]),
                ),
            decreases self.overrides@.len() - j,
        {
            let (k, v) = &self.overrides[j];
            if let Err(e) = write_empty2(&mut w, "Override", "PartName", k.as_str(), "ContentType", v.as_str()) {
                return Err(OpcError::Xml(io_error_text(&e)));
            }
            assert(self.overrides@.take(j + 1) =~= self.overrides@.take(j as int).push(self.overrides@[j as int]));
            j = j + 1;
        }
        assert(self.overrides@.take(self.overrides@.len() as int) =~= self.overrides@);
        if let Err(e) = write_end(&mut w, "Types") {
            return Err(OpcError::Xml(io_error_text(&e)));
        }
        assert(writer_log(w) =~= types_log(self.defaults@, self.overrides@));
        Ok(writer_bytes(w))
    }
}

} // verus!
