//! The XML reader this crate tokenizes with (`quick_xml`'s slice reader),
//! behind a narrow set of trusted calls. What the reader reports depends on
//! its input bytes and its trimming setting alone, so it is named: the
//! `k`-th report on a given input is `xml_step(input, trim, k)`.

use vstd::prelude::*;
use quick_xml::Reader;
use quick_xml::events::Event;

verus! {

#[verifier::external_type_specification]
#[verifier::external_body]
#[verifier::reject_recursive_types(R)]
pub struct ExReader<R>(Reader<R>);

/// What the tree builder reads of one reader event: a start or self-closing
/// tag with its qualified name and its (key, raw value) attributes in source
/// order (or the text of the first attribute error), an end tag, the end of
/// input, or anything else (text, CDATA, a comment, a declaration, a
/// processing instruction, a doctype).
pub enum XmlEvent {
    /// `Tag(self_closing, name, attributes)`.
    Tag(bool, Vec<u8>, Result<Vec<(Vec<u8>, Vec<u8>)>, String>),
    /// An end tag with its qualified name.
    End(Vec<u8>),
    Eof,
    Other,
}

/// Kinds of reader reports.
pub open spec fn step_start() -> u8 { 0 }

pub open spec fn step_end_tag() -> u8 { 1 }

pub open spec fn step_empty() -> u8 { 2 }

pub open spec fn step_eof() -> u8 { 3 }

pub open spec fn step_other() -> u8 { 4 }

pub open spec fn step_error() -> u8 { 5 }

/// What quick_xml's slice reader over `src`, with `trim_text(trim)`, reports
/// at its `k`-th `read_event` (from 0): the kind of report (one of the kinds
/// above), the reader's `buffer_position` after it, and for a start or
/// self-closing tag its name and its attributes (`None` on an attribute
/// error), and for an end tag its name.
pub uninterp spec fn xml_step(src: Seq<u8>, trim: bool, k: nat) -> (u8, u64, Seq<u8>, Option<Seq<(Seq<u8>, Seq<u8>)>>);

/// The input a reader reads.
pub uninterp spec fn reader_input(r: Reader<&[u8]>) -> Seq<u8>;

/// Whether a reader trims whitespace-only text.
pub uninterp spec fn reader_trims(r: Reader<&[u8]>) -> bool;

/// How many events a reader has read.
pub uninterp spec fn reader_reads(r: Reader<&[u8]>) -> nat;

/// Whether an event is what the report `s` describes.
pub open spec fn event_is(ev: Result<XmlEvent, String>, s: (u8, u64, Seq<u8>, Option<Seq<(Seq<u8>, Seq<u8>)>>)) -> bool {
    match ev {
        Err(_) => s.0 == step_error(),
        Ok(XmlEvent::Tag(empty, name, attrs)) => {
            &&& s.0 == (if empty { step_empty() } else { step_start() })
            &&& name@ == s.2
            &&& match attrs {
                Ok(a) => s.3 == Some(crate::xml::attrs_view(a@)),
                Err(_) => s.3 is None,
            }
        },
        Ok(XmlEvent::End(name)) => s.0 == step_end_tag() && name@ == s.2,
        Ok(XmlEvent::Eof) => s.0 == step_eof(),
        Ok(XmlEvent::Other) => s.0 == step_other(),
    }
}

/// `quick_xml::Reader::from_reader` over a byte slice: a reader of `src`
/// that has read nothing and, as configured by default, trims nothing.
#[verifier::external_body]
pub(crate) fn open_reader<'a>(src: &'a [u8]) -> (r: Reader<&'a [u8]>)
    ensures
        reader_input(r) == src@,
        !reader_trims(r),
        reader_reads(r) == 0,
{
    Reader::from_reader(src)
}

/// `quick_xml::reader::Config::trim_text` on the reader's configuration,
/// before anything is read.
#[verifier::external_body]
pub(crate) fn set_trim_text(reader: &mut Reader<&[u8]>, trim: bool)
    requires
        reader_reads(*old(reader)) == 0,
    ensures
        reader_input(*final(reader)) == reader_input(*old(reader)),
        reader_trims(*final(reader)) == trim,
        reader_reads(*final(reader)) == 0,
{
    reader.config_mut().trim_text(trim);
}

/// `quick_xml::Reader::buffer_position`: the reader's byte offset in its
/// input after its last read.
#[verifier::external_body]
pub(crate) fn reader_position(reader: &Reader<&[u8]>) -> (r: u64)
    requires
        reader_reads(*reader) > 0,
    ensures
        r == xml_step(reader_input(*reader), reader_trims(*reader), (reader_reads(*reader) - 1) as nat).1,
{
    reader.buffer_position()
}

/// `quick_xml::Reader::read_event` on a slice reader, the event told apart
/// by kind; of a start or self-closing tag, `BytesStart::name` and
/// `BytesStart::attributes` (keys and raw values); of an end tag,
/// `BytesEnd::name`; an error as its `Display` text.
#[verifier::external_body]
pub(crate) fn read_event(reader: &mut Reader<&[u8]>) -> (r: Result<XmlEvent, String>)
    ensures
        reader_input(*final(reader)) == reader_input(*old(reader)),
        reader_trims(*final(reader)) == reader_trims(*old(reader)),
        reader_reads(*final(reader)) == reader_reads(*old(reader)) + 1,
        event_is(r, xml_step(reader_input(*old(reader)), reader_trims(*old(reader)), reader_reads(*old(reader)))),
{
    let (empty, e) = match reader.read_event() {
        Ok(Event::Start(e)) => (false, e),
        Ok(Event::Empty(e)) => (true, e),
        Ok(Event::End(e)) => return Ok(XmlEvent::End(e.name().0.to_vec())),
        Ok(Event::Eof) => return Ok(XmlEvent::Eof),
        Ok(_) => return Ok(XmlEvent::Other),
        Err(x) => return Err(x.to_string()),
    };
    Ok(XmlEvent::Tag(
        empty,
        e.name().0.to_vec(),
        e.attributes().map(|a| a.map(|a| (a.key.0.to_vec(), a.value.to_vec())).map_err(|x| x.to_string())).collect(),
    ))
}

/// What `quick_xml::escape::unescape` makes of a text: the predefined
/// entities and numeric character references resolved; `None` when it
/// rejects the text (an unknown entity, a malformed reference, or an `&`
/// without its `;`).
pub uninterp spec fn unescaped(s: Seq<char>) -> Option<Seq<char>>;

/// `quick_xml::escape::unescape`, owned; an error as the `Display` text of
/// the `quick_xml::Error` it converts to. Its source returns a text holding
/// no `&` unchanged.
#[verifier::external_body]
pub(crate) fn unescape_text(s: &str) -> (r: Result<String, String>)
    ensures
        r matches Ok(t) ==> unescaped(s@) == Some(t@),
        r is Err ==> unescaped(s@) is None,
        r is Err ==> s@.contains('&'),
        r matches Ok(t) ==> (s@.contains('&') || t@ == s@),
{
    match quick_xml::escape::unescape(s) {
        Ok(t) => Ok(t.into_owned()),
        Err(e) => Err(format!("{}", quick_xml::Error::from(e))),
    }
}

} // verus!
