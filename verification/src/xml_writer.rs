//! The XML writer this crate serializes with (`quick_xml::Writer` over a byte
//! vector), behind trusted calls. The writer is modelled by the log of events
//! written to it; the bytes it finally holds are named, as a function of its
//! indentation settings and that log.

use vstd::prelude::*;
use vstd::utf8::encode_utf8;
use quick_xml::Writer;
use quick_xml::events::{BytesDecl, BytesEnd, BytesStart, Event};

verus! {

#[verifier::external_type_specification]
#[verifier::external_body]
#[verifier::reject_recursive_types(W)]
pub struct ExWriter<W>(Writer<W>);

#[verifier::external_type_specification]
#[verifier::external_body]
pub struct ExIoError(std::io::Error);

/// The kinds of tag the writer writes.
#[derive(Clone, Copy, Debug, PartialEq, Eq)]
pub enum TagKind {
    /// An XML declaration.
    Decl,
    /// A start tag.
    Start,
    /// A self-closing tag.
    Empty,
    /// An end tag.
    End,
}

/// The events written so far to a writer, each as (kind, name, attributes);
/// a declaration records its version as the name and its encoding and
/// standalone values as attributes.
pub uninterp spec fn writer_log(w: Writer<Vec<u8>>) -> Seq<(TagKind, Seq<char>, Seq<(Seq<char>, Seq<char>)>)>;

/// The indentation a writer was made with: (indent byte, indent width).
pub uninterp spec fn writer_indent(w: Writer<Vec<u8>>) -> (u8, usize);

/// The bytes an indenting writer made with `indent`, fresh over an empty
/// vector, holds after writing the events of `log`.
pub uninterp spec fn indented_output(indent: (u8, usize), log: Seq<(TagKind, Seq<char>, Seq<(Seq<char>, Seq<char>)>)>) -> Seq<u8>;

// ─── Writing without indentation ────────────────────────────────────────────

/// Whether a writer was made without indentation: each event it writes is
/// then appended to its vector as it is, with nothing between events.
pub uninterp spec fn unindented(w: Writer<Vec<u8>>) -> bool;

/// The bytes a writer's vector holds.
pub uninterp spec fn written(w: Writer<Vec<u8>>) -> Seq<u8>;

/// Attributes as a tag written by the writer carries them: each as
/// ` key="value"`, the value with the five predefined entities escaped.
pub open spec fn attrs_text(a: Seq<(Seq<char>, Seq<char>)>) -> Seq<u8>
    decreases a.len(),
{
    if a.len() == 0 {
        Seq::empty()
    } else {
        attrs_text(a.drop_last()) + /*   */ seq![32u8] + encode_utf8(a.last().0) + /* =\" */ seq![61u8, 34u8] + encode_utf8(
            crate::xml::escape_chars(a.last().1),
        ) + /* \" */ seq![34u8]
    }
}

/// A start tag as the writer writes it.
pub open spec fn start_text(name: Seq<char>, a: Seq<(Seq<char>, Seq<char>)>) -> Seq<u8> {
    /* < */ seq![60u8] + encode_utf8(name) + attrs_text(a) + /* > */ seq![62u8]
}

/// A self-closing tag as the writer writes it.
pub open spec fn empty_text(name: Seq<char>, a: Seq<(Seq<char>, Seq<char>)>) -> Seq<u8> {
    /* < */ seq![60u8] + encode_utf8(name) + attrs_text(a) + /* /> */ seq![47u8, 62u8]
}

/// An end tag as the writer writes it.
pub open spec fn end_text(name: Seq<char>) -> Seq<u8> {
    /* </ */ seq![60u8, 47u8] + encode_utf8(name) + /* > */ seq![62u8]
}

/// An XML declaration as the writer writes it.
pub open spec fn decl_text(version: Seq<char>, encoding: Seq<char>, standalone: Seq<char>) -> Seq<u8> {
    /* <?xml version=\" */ seq![60u8, 63u8, 120u8, 109u8, 108u8, 32u8, 118u8, 101u8, 114u8, 115u8, 105u8, 111u8, 110u8, 61u8, 34u8] + encode_utf8(version) + /* \" encoding=\" */ seq![34u8, 32u8, 101u8, 110u8, 99u8, 111u8, 100u8, 105u8, 110u8, 103u8, 61u8, 34u8] + encode_utf8(encoding) + /* \" standalone=\" */ seq![34u8, 32u8, 115u8, 116u8, 97u8, 110u8, 100u8, 97u8, 108u8, 111u8, 110u8, 101u8, 61u8, 34u8]
        + encode_utf8(standalone) + /* \"?> */ seq![34u8, 63u8, 62u8]
}

/// Views of a list of string pairs.
pub open spec fn text_pairs(v: Seq<(String, String)>) -> Seq<(Seq<char>, Seq<char>)> {
    v.map_values(|p: (String, String)| (p.0@, p.1@))
}

/// A tag as the writer writes it: a declaration (its version as the name,
/// its encoding and standalone values as the attributes' values), a start
/// tag, a self-closing tag or an end tag.
pub open spec fn tag_text(kind: TagKind, name: Seq<char>, a: Seq<(Seq<char>, Seq<char>)>) -> Seq<u8> {
    match kind {
        TagKind::Decl => decl_text(name, a[0].1, a[1].1),
        TagKind::Start => start_text(name, a),
        TagKind::Empty => empty_text(name, a),
        TagKind::End => end_text(name),
    }
}

/// What an indenting writer holds is what its indentation makes of the
/// events written to it.
pub open spec fn indent_consistent(w: Writer<Vec<u8>>) -> bool {
    !unindented(w) ==> written(w) == indented_output(writer_indent(w), writer_log(w))
}

/// `quick_xml::Writer::new_with_indent` over an empty vector: a writer that
/// has written nothing yet.
#[verifier::external_body]
pub(crate) fn new_indented_writer(indent_char: u8, indent_size: usize) -> (w: Writer<Vec<u8>>)
    ensures
        writer_log(w) == Seq::<(TagKind, Seq<char>, Seq<(Seq<char>, Seq<char>)>)>::empty(),
        writer_indent(w) == (indent_char, indent_size),
        !unindented(w),
        written(w) == indented_output((indent_char, indent_size), writer_log(w)),
{
    Writer::new_with_indent(Vec::new(), indent_char, indent_size)
}

/// `quick_xml::Writer::new` over an empty vector: no indentation, nothing
/// written.
#[verifier::external_body]
pub(crate) fn new_plain_writer() -> (w: Writer<Vec<u8>>)
    ensures
        unindented(w),
        written(w) == Seq::<u8>::empty(),
        writer_log(w) == Seq::<(TagKind, Seq<char>, Seq<(Seq<char>, Seq<char>)>)>::empty(),
{
    Writer::new(Vec::new())
}

/// `quick_xml::Writer::write_event` with one tag: for `Decl`,
/// `BytesDecl::new(name, Some(encoding), Some(standalone))` with the values
/// of the two attributes; for `Start` or `Empty`, `BytesStart::new(name)`
/// `.with_attributes` of the pairs (which escapes each value); for `End`,
/// `BytesEnd::new(name)`. It succeeds: `write_event` fails only when the
/// writer it wraps does, and this one appends to a `Vec<u8>`. The tag is
/// appended to the log; a writer without indentation then holds the tag's
/// text after what it held, and an indenting writer holds what its
/// indentation makes of its log.
#[verifier::external_body]
pub(crate) fn write_tag(w: &mut Writer<Vec<u8>>, kind: TagKind, name: &str, attrs: &Vec<(String, String)>) -> (r: Result<(), std::io::Error>)
    requires
        kind is Decl ==> attrs@.len() == 2,
        indent_consistent(*old(w)),
    ensures
        writer_indent(*final(w)) == writer_indent(*old(w)),
        unindented(*final(w)) == unindented(*old(w)),
        r is Ok,
        r is Ok ==> writer_log(*final(w)) == writer_log(*old(w)).push((kind, name@, text_pairs(attrs@))),
        r is Ok ==> indent_consistent(*final(w)),
        r is Ok ==> (unindented(*old(w)) ==> written(*final(w)) == written(*old(w)) + tag_text(
            kind,
            name@,
            text_pairs(attrs@),
        )),
{
    let pairs = attrs.iter().map(|(k, v)| (k.as_str(), v.as_str()));
    w.write_event(match kind {
        TagKind::Decl => Event::Decl(BytesDecl::new(name, Some(attrs[0].1.as_str()), Some(attrs[1].1.as_str()))),
        TagKind::Start => Event::Start(BytesStart::new(name).with_attributes(pairs)),
        TagKind::Empty => Event::Empty(BytesStart::new(name).with_attributes(pairs)),
        TagKind::End => Event::End(BytesEnd::new(name)),
    })
}

/// `quick_xml::Writer::get_mut` on a writer without indentation, then
/// extending the vector by `bytes`.
#[verifier::external_body]
pub(crate) fn write_raw(w: &mut Writer<Vec<u8>>, bytes: &[u8])
    requires
        unindented(*old(w)),
    ensures
        unindented(*final(w)),
        written(*final(w)) == written(*old(w)) + bytes@,
{
    w.get_mut().extend_from_slice(bytes);
}

/// `quick_xml::Writer::into_inner`: the bytes written.
#[verifier::external_body]
pub(crate) fn writer_bytes(w: Writer<Vec<u8>>) -> (r: Vec<u8>)
    ensures
        r@ == written(w),
{
    w.into_inner()
}

/// The `Display` text of an I/O error.
#[verifier::external_body]
pub(crate) fn io_error_text(e: &std::io::Error) -> String {
    format!("{}", e)
}

// ─── Tags ───────────────────────────────────────────────────────────────────

fn pair(k: &str, v: &str) -> (r: (String, String))
    ensures
        r.0@ == k@,
        r.1@ == v@,
{
    (crate::text::string_of(k), crate::text::string_of(v))
}

/// Write an XML declaration.
pub(crate) fn write_decl(w: &mut Writer<Vec<u8>>, version: &str, encoding: &str, standalone: &str) -> (r: Result<(), std::io::Error>)
    requires
        indent_consistent(*old(w)),
    ensures
        r is Ok,
        writer_indent(*final(w)) == writer_indent(*old(w)),
        unindented(*final(w)) == unindented(*old(w)),
        r is Ok ==> writer_log(*final(w)) == writer_log(*old(w)).push(
            (TagKind::Decl, version@, seq![("encoding"@, encoding@), ("standalone"@, standalone@)]),
        ),
        r is Ok ==> indent_consistent(*final(w)),
        r is Ok ==> (unindented(*old(w)) ==> written(*final(w)) == written(*old(w)) + decl_text(
            version@,
            encoding@,
            standalone@,
        )),
{
    let mut a: Vec<(String, String)> = Vec::new();
    a.push(pair("encoding", encoding));
    a.push(pair("standalone", standalone));
    assert(text_pairs(a@) =~= seq![("encoding"@, encoding@), ("standalone"@, standalone@)]);
    write_tag(w, TagKind::Decl, version, &a)
}

/// Write a start tag with one attribute.
pub(crate) fn write_start1(w: &mut Writer<Vec<u8>>, name: &str, key: &str, value: &str) -> (r: Result<(), std::io::Error>)
    requires
        indent_consistent(*old(w)),
    ensures
        r is Ok,
        writer_indent(*final(w)) == writer_indent(*old(w)),
        unindented(*final(w)) == unindented(*old(w)),
        r is Ok ==> writer_log(*final(w)) == writer_log(*old(w)).push((TagKind::Start, name@, seq![(key@, value@)])),
        r is Ok ==> indent_consistent(*final(w)),
{
    let mut a: Vec<(String, String)> = Vec::new();
    a.push(pair(key, value));
    assert(text_pairs(a@) =~= seq![(key@, value@)]);
    write_tag(w, TagKind::Start, name, &a)
}

/// Write a self-closing tag with two attributes.
pub(crate) fn write_empty2(w: &mut Writer<Vec<u8>>, name: &str, k1: &str, v1: &str, k2: &str, v2: &str) -> (r: Result<(), std::io::Error>)
    requires
        indent_consistent(*old(w)),
    ensures
        r is Ok,
        writer_indent(*final(w)) == writer_indent(*old(w)),
        unindented(*final(w)) == unindented(*old(w)),
        r is Ok ==> writer_log(*final(w)) == writer_log(*old(w)).push(
            (TagKind::Empty, name@, seq![(k1@, v1@), (k2@, v2@)]),
        ),
        r is Ok ==> indent_consistent(*final(w)),
{
    let mut a: Vec<(String, String)> = Vec::new();
    a.push(pair(k1, v1));
    a.push(pair(k2, v2));
    assert(text_pairs(a@) =~= seq![(k1@, v1@), (k2@, v2@)]);
    write_tag(w, TagKind::Empty, name, &a)
}

/// Write an end tag.
pub(crate) fn write_end(w: &mut Writer<Vec<u8>>, name: &str) -> (r: Result<(), std::io::Error>)
    requires
        indent_consistent(*old(w)),
    ensures
        r is Ok,
        writer_indent(*final(w)) == writer_indent(*old(w)),
        unindented(*final(w)) == unindented(*old(w)),
        r is Ok ==> writer_log(*final(w)) == writer_log(*old(w)).push(
            (TagKind::End, name@, Seq::<(Seq<char>, Seq<char>)>::empty()),
        ),
        r is Ok ==> indent_consistent(*final(w)),
        r is Ok ==> (unindented(*old(w)) ==> written(*final(w)) == written(*old(w)) + end_text(name@)),
{
    let a: Vec<(String, String)> = Vec::new();
    assert(text_pairs(a@) =~= Seq::<(Seq<char>, Seq<char>)>::empty());
    write_tag(w, TagKind::End, name, &a)
}

/// Write a start tag with the attributes `attrs`.
pub(crate) fn write_start(w: &mut Writer<Vec<u8>>, name: &str, attrs: &Vec<(String, String)>) -> (r: Result<(), std::io::Error>)
    requires
        unindented(*old(w)),
    ensures
        r is Ok,
        unindented(*final(w)),
        r is Ok ==> written(*final(w)) == written(*old(w)) + start_text(name@, text_pairs(attrs@)),
{
    write_tag(w, TagKind::Start, name, attrs)
}

/// Write a self-closing tag with the attributes `attrs`.
pub(crate) fn write_empty(w: &mut Writer<Vec<u8>>, name: &str, attrs: &Vec<(String, String)>) -> (r: Result<(), std::io::Error>)
    requires
        unindented(*old(w)),
    ensures
        r is Ok,
        unindented(*final(w)),
        r is Ok ==> written(*final(w)) == written(*old(w)) + empty_text(name@, text_pairs(attrs@)),
{
    write_tag(w, TagKind::Empty, name, attrs)
}

} // verus!
