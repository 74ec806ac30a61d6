//! Error type for the document model.

use vstd::prelude::*;
use crate::text::{push_str, string_of};

verus! {

/// Whether `e` is a structural error carrying the message `m`.
pub open spec fn parse_error_is(e: OxmlError, m: Seq<char>) -> bool {
    e matches OxmlError::Parse(x) && x@ == m
}

/// Why a part could not be read or an edit could not be made.
#[derive(Debug)]
pub enum OxmlError {
    /// The XML reader rejected the input; the text is its message.
    Xml(String),
    /// An attribute of a start tag could not be read; the text is the reason.
    XmlAttr(String),
    /// A byte string was not valid UTF-8 where text was required.
    Utf8(String),
    /// Writing the serialized part failed; the text is the reason.
    Io(String),
    /// The document did not have the structure an operation needs.
    Parse(String),
}

impl OxmlError {
    /// The error's message, as it is displayed.
    pub fn to_string(&self) -> (r: String)
        ensures
            r@ == match self {
                OxmlError::Xml(m) => /* XML error:  */ seq!['X', 'M', 'L', ' ', 'e', 'r', 'r', 'o', 'r', ':', ' '] + m@,
                OxmlError::XmlAttr(m) => /* XML attribute error:  */ seq!['X', 'M', 'L', ' ', 'a', 't', 't', 'r', 'i', 'b', 'u', 't', 'e', ' ', 'e', 'r', 'r', 'o', 'r', ':', ' '] + m@,
                OxmlError::Utf8(m) => /* UTF-8 error:  */ seq!['U', 'T', 'F', '-', '8', ' ', 'e', 'r', 'r', 'o', 'r', ':', ' '] + m@,
                OxmlError::Io(m) => /* I/O error:  */ seq!['I', '/', 'O', ' ', 'e', 'r', 'r', 'o', 'r', ':', ' '] + m@,
                OxmlError::Parse(m) => /* parse error:  */ seq!['p', 'a', 'r', 's', 'e', ' ', 'e', 'r', 'r', 'o', 'r', ':', ' '] + m@,
            },
    {
        let mut out = String::new();
        match self {
            OxmlError::Xml(m) => {
                proof { reveal_strlit("XML error: "); assert("XML error: "@ == /* XML error:  */ seq!['X', 'M', 'L', ' ', 'e', 'r', 'r', 'o', 'r', ':', ' ']); } push_str(&mut out, "XML error: ");
                push_str(&mut out, m.as_str());
            },
            OxmlError::XmlAttr(m) => {
                proof { reveal_strlit("XML attribute error: "); assert("XML attribute error: "@ == /* XML attribute error:  */ seq!['X', 'M', 'L', ' ', 'a', 't', 't', 'r', 'i', 'b', 'u', 't', 'e', ' ', 'e', 'r', 'r', 'o', 'r', ':', ' ']); } push_str(&mut out, "XML attribute error: ");
                push_str(&mut out, m.as_str());
            },
            OxmlError::Utf8(m) => {
                proof { reveal_strlit("UTF-8 error: "); assert("UTF-8 error: "@ == /* UTF-8 error:  */ seq!['U', 'T', 'F', '-', '8', ' ', 'e', 'r', 'r', 'o', 'r', ':', ' ']); } push_str(&mut out, "UTF-8 error: ");
                push_str(&mut out, m.as_str());
            },
            OxmlError::Io(m) => {
                proof { reveal_strlit("I/O error: "); assert("I/O error: "@ == /* I/O error:  */ seq!['I', '/', 'O', ' ', 'e', 'r', 'r', 'o', 'r', ':', ' ']); } push_str(&mut out, "I/O error: ");
                push_str(&mut out, m.as_str());
            },
            OxmlError::Parse(m) => {
                proof { reveal_strlit("parse error: "); assert("parse error: "@ == /* parse error:  */ seq!['p', 'a', 'r', 's', 'e', ' ', 'e', 'r', 'r', 'o', 'r', ':', ' ']); } push_str(&mut out, "parse error: ");
                push_str(&mut out, m.as_str());
            },
        }
        out
    }
}

/// Why a package part could not be read or written.
#[derive(Debug)]
pub enum OpcError {
    /// The XML reader or writer failed; the text is its message.
    Xml(String),
    /// An attribute of a start tag could not be read; the text is the reason.
    XmlAttr(String),
    /// A `Default` or `Override` entry lacked one of its two attributes.
    InvalidContentTypes,
    /// An attribute value was not valid UTF-8; the text is the reason.
    Utf8(String),
}

/// Why a scene could not be rasterized.
#[derive(Debug)]
pub enum RenderError {
    Raster,
    Svg(String),
}

/// Why scenes could not be turned into a PDF.
#[derive(Debug)]
pub enum PdfError {
    Svg(String),
    Convert,
}

} // verus!
