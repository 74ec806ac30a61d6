//! The slide part (`ppt/slides/slideN.xml`) as an editable tree.
//!
//! Shapes, text bodies, paragraphs and runs are located as paths into the
//! tree, so each edit changes exactly the element it addresses and every
//! other byte of the slide is kept.

pub mod authoring;
pub mod fills;
pub mod placeholders;
pub mod run_format;
pub mod shape_props;
pub mod shapes;
pub mod table;

use vstd::prelude::*;
use crate::error::{parse_error_is, OxmlError};
use crate::scheme_color::SchemeColor;
use crate::text::{dec_i64, dec_int, dec_nat, dec_u64, push_str, string_of};
use vstd::utf8::encode_utf8;
use crate::paragraph::{make_paragraph, make_run, para_bytes, paragraph_text_spec, run_bytes};
use crate::xml::{
    nodes_v, parsed_nodes,
    at_path, desc_path, doc_replaced, doc_root, element_at, element_bytes, escape_chars, first_named_index,
    first_named_position, is_named, lemma_at_path_concat, lemma_desc_path, lemma_desc_path_stable,
    lemma_doc_replaced_root, lemma_first_named_index, lemma_local_of_prefixed, lemma_replaced_below,
    lemma_replaced_valid, lemma_search_before_prefix, local_of, named_children, new_element, node_bytes,
    node_element_mut, ordered_position, replaced_at, same_tags, set_attr_spec, valid_path, Document, Element, Node,
};

verus! {

// ─── Paragraph and shape property values ────────────────────────────────────

/// Spacing: absolute in hundredths of a point, or relative in thousandths of
/// a percent.
#[derive(Debug, Clone, Copy, PartialEq, Eq, Structural)]
pub enum SpacingValue {
    Points(u32),
    Percent(u32),
}

/// A paragraph's bullet.
#[derive(Debug, Clone, PartialEq)]
pub enum BulletKind {
    /// No bullet (`<a:buNone/>`).
    NoBullet,
    /// A character bullet (`<a:buChar char="…"/>`).
    Char(String),
    /// An auto-numbered bullet (`<a:buAutoNum type="…"/>`).
    AutoNum(String),
}

/// Auto-fit of a text body (`a:bodyPr`).
#[derive(Debug, Clone, PartialEq, Eq, Structural)]
pub enum AutoFit {
    /// No auto-fit.
    Off,
    /// Shrink text to fit (`<a:normAutofit fontScale="…"/>`), the scale in
    /// thousandths of a percent.
    ShrinkToFit { font_scale: Option<u32> },
    /// Resize the shape to fit the text (`<a:spAutoFit/>`).
    ResizeShape,
}

/// A color: RGB hex digits, or a theme color reference.
#[derive(Debug, Clone, PartialEq)]
pub enum ColorSpec {
    Rgb(String),
    Theme(SchemeColor),
}

/// A shape outline (`a:ln`).
#[derive(Debug, Clone, PartialEq)]
pub enum LineSpec {
    /// A colored outline of a width in EMU, with an optional preset dash.
    Styled { color: ColorSpec, width_emu: i64, dash: Option<String> },
    /// No outline.
    NoLine,
}

/// A fill of shape properties or of a table cell.
#[derive(Debug, Clone, PartialEq)]
pub enum FillSpec {
    /// A solid color (`a:solidFill`).
    Solid { color: ColorSpec },
    /// A linear gradient (`a:gradFill`): color stops at positions in
    /// thousandths of a percent (0 to 100000), along a direction `angle` in
    /// 60000ths of a degree (0 runs left to right).
    Gradient { stops: Vec<(u64, ColorSpec)>, angle: i64 },
    /// A preset pattern (`a:pattFill`) of a foreground and a background color.
    Pattern { preset: String, fg: ColorSpec, bg: ColorSpec },
    /// A picture (`a:blipFill`) of the image of relationship `r_id`, stretched.
    Picture { r_id: String },
    /// No fill (`a:noFill`).
    NoFill,
}

/// Character formatting for runs; a field left `None` is not changed.
#[derive(Debug, Clone)]
pub struct RunFormat {
    pub bold: Option<bool>,
    pub italic: Option<bool>,
    pub underline: Option<bool>,
    /// Font size in hundredths of a point (as written in `sz`).
    pub size: Option<i64>,
    /// Solid text color as RGB hex digits (a leading `#` is dropped).
    pub color: Option<String>,
    /// Latin typeface name.
    pub font: Option<String>,
    /// Strikethrough style: `sngStrike`, `dblStrike` or `noStrike`.
    pub strikethrough: Option<String>,
    /// Baseline offset in thousandths of a percent: positive raises
    /// (superscript), negative lowers (subscript).
    pub baseline: Option<i32>,
    /// Language tag, such as `en-US`.
    pub lang: Option<String>,
    /// Underline style (`sng`, `dbl`, `heavy`, ...); takes precedence over
    /// `underline`.
    pub underline_style: Option<String>,
    /// Theme color; takes precedence over `color`.
    pub theme_color: Option<SchemeColor>,
}

impl Default for RunFormat {
    fn default() -> (r: RunFormat)
        ensures
            r.bold is None && r.italic is None && r.underline is None && r.size is None,
            r.color is None && r.font is None && r.strikethrough is None && r.baseline is None,
            r.lang is None && r.underline_style is None && r.theme_color is None,
    {
        RunFormat {
            bold: None,
            italic: None,
            underline: None,
            size: None,
            color: None,
            font: None,
            strikethrough: None,
            baseline: None,
            lang: None,
            underline_style: None,
            theme_color: None,
        }
    }
}

/// What clicking a shape does: open an external link, or jump to a slide.
#[derive(Debug, Clone, PartialEq)]
pub enum ClickAction {
    ExternalUrl { r_id: String },
    JumpToSlide { r_id: String, action: String },
}

/// The kind of a connector shape.
#[derive(Debug, Clone, Copy, PartialEq, Eq, Structural)]
pub enum ConnectorType {
    Straight,
    Elbow,
    Curved,
}

/// The preset geometry of each connector kind.
pub open spec fn connector_prst(c: ConnectorType) -> Seq<char> {
    match c {
        ConnectorType::Straight => /* straightConnector1 */ seq!['s', 't', 'r', 'a', 'i', 'g', 'h', 't', 'C', 'o', 'n', 'n', 'e', 'c', 't', 'o', 'r', '1'],
        ConnectorType::Elbow => /* bentConnector3 */ seq!['b', 'e', 'n', 't', 'C', 'o', 'n', 'n', 'e', 'c', 't', 'o', 'r', '3'],
        ConnectorType::Curved => /* curvedConnector3 */ seq!['c', 'u', 'r', 'v', 'e', 'd', 'C', 'o', 'n', 'n', 'e', 'c', 't', 'o', 'r', '3'],
    }
}

impl ConnectorType {
    /// The preset geometry name of this connector kind.
    pub fn prst(&self) -> (r: &'static str)
        ensures
            r@ == connector_prst(*self),
    {
        match self {
            ConnectorType::Straight => {
                proof { reveal_strlit("straightConnector1"); }
                "straightConnector1"
            },
            ConnectorType::Elbow => {
                proof { reveal_strlit("bentConnector3"); }
                "bentConnector3"
            },
            ConnectorType::Curved => {
                proof { reveal_strlit("curvedConnector3"); }
                "curvedConnector3"
            },
        }
    }
}

/// One end of a connector: the shape id and its connection site index.
#[derive(Debug, Clone, Copy, PartialEq, Eq, Structural)]
pub struct ConnectorAnchor {
    pub shape_id: u32,
    pub connection_idx: u32,
}

// ─── Freeform paths ─────────────────────────────────────────────────────────

/// A segment of a freeform path.
#[derive(Debug, Clone, Copy, PartialEq, Eq, Structural)]
pub enum PathSegment {
    MoveTo { x: i64, y: i64 },
    LineTo { x: i64, y: i64 },
    CubicTo { x1: i64, y1: i64, x2: i64, y2: i64, x: i64, y: i64 },
    Close,
}

/// A builder of freeform geometry (`<a:custGeom>`): a coordinate space and
/// the path segments added so far.
#[derive(Debug, Clone, PartialEq)]
pub struct FreeformPath {
    width: i64,
    height: i64,
    segments: Vec<PathSegment>,
}

/// `<a:pt x="…" y="…"/>`.
pub open spec fn pt_text(x: i64, y: i64) -> Seq<char> {
    /* <a:pt x=\" */ seq!['<', 'a', ':', 'p', 't', ' ', 'x', '=', '"'] + dec_int(x as int) + /* \" y=\" */ seq!['"', ' ', 'y', '=', '"'] + dec_int(y as int) + /* \"/> */ seq!['"', '/', '>']
}

/// The XML text of one path segment.
pub open spec fn segment_text(s: PathSegment) -> Seq<char> {
    match s {
        PathSegment::MoveTo { x, y } => /* <a:moveTo> */ seq!['<', 'a', ':', 'm', 'o', 'v', 'e', 'T', 'o', '>'] + pt_text(x, y) + /* </a:moveTo> */ seq!['<', '/', 'a', ':', 'm', 'o', 'v', 'e', 'T', 'o', '>'],
        PathSegment::LineTo { x, y } => /* <a:lnTo> */ seq!['<', 'a', ':', 'l', 'n', 'T', 'o', '>'] + pt_text(x, y) + /* </a:lnTo> */ seq!['<', '/', 'a', ':', 'l', 'n', 'T', 'o', '>'],
        PathSegment::CubicTo { x1, y1, x2, y2, x, y } => /* <a:cubicBezTo> */ seq!['<', 'a', ':', 'c', 'u', 'b', 'i', 'c', 'B', 'e', 'z', 'T', 'o', '>'] + pt_text(x1, y1) + pt_text(x2, y2)
            + pt_text(x, y) + /* </a:cubicBezTo> */ seq!['<', '/', 'a', ':', 'c', 'u', 'b', 'i', 'c', 'B', 'e', 'z', 'T', 'o', '>'],
        PathSegment::Close => /* <a:close/> */ seq!['<', 'a', ':', 'c', 'l', 'o', 's', 'e', '/', '>'],
    }
}

/// The XML text of a sequence of path segments.
pub open spec fn segments_text(ss: Seq<PathSegment>) -> Seq<char>
    decreases ss.len(),
{
    if ss.len() == 0 {
        Seq::empty()
    } else {
        segments_text(ss.drop_last()) + segment_text(ss.last())
    }
}

/// The `<a:custGeom>` fragment of a path.
pub open spec fn custgeom_text(w: i64, h: i64, ss: Seq<PathSegment>) -> Seq<char> {
    /* <a:custGeom><a:avLst/><a:gdLst/><a:ahLst/><a:cxnLst/><a:rect l=\"0\" t=\"0\" r=\"0\" b=\"0\"/><a:pathLst><a:path w=\" */ seq!['<', 'a', ':', 'c', 'u', 's', 't', 'G', 'e', 'o', 'm', '>', '<', 'a', ':', 'a', 'v', 'L', 's', 't', '/', '>', '<', 'a', ':', 'g', 'd', 'L', 's', 't', '/', '>', '<', 'a', ':', 'a', 'h', 'L', 's', 't', '/', '>', '<', 'a', ':', 'c', 'x', 'n', 'L', 's', 't', '/', '>', '<', 'a', ':', 'r', 'e', 'c', 't', ' ', 'l', '=', '"', '0', '"', ' ', 't', '=', '"', '0', '"', ' ', 'r', '=', '"', '0', '"', ' ', 'b', '=', '"', '0', '"', '/', '>', '<', 'a', ':', 'p', 'a', 't', 'h', 'L', 's', 't', '>', '<', 'a', ':', 'p', 'a', 't', 'h', ' ', 'w', '=', '"']
        + dec_int(w as int) + /* \" h=\" */ seq!['"', ' ', 'h', '=', '"'] + dec_int(h as int) + /* \"> */ seq!['"', '>'] + segments_text(ss)
        + /* </a:path></a:pathLst></a:custGeom> */ seq!['<', '/', 'a', ':', 'p', 'a', 't', 'h', '>', '<', '/', 'a', ':', 'p', 'a', 't', 'h', 'L', 's', 't', '>', '<', '/', 'a', ':', 'c', 'u', 's', 't', 'G', 'e', 'o', 'm', '>']
}

fn push_pt(out: &mut String, x: i64, y: i64)
    ensures
        final(out)@ == old(out)@ + pt_text(x, y),
{
    proof { reveal_strlit("<a:pt x=\""); assert("<a:pt x=\""@ == /* <a:pt x=\" */ seq!['<', 'a', ':', 'p', 't', ' ', 'x', '=', '"']); } push_str(out, "<a:pt x=\"");
    let xs = dec_i64(x);
    push_str(out, xs.as_str());
    proof { reveal_strlit("\" y=\""); assert("\" y=\""@ == /* \" y=\" */ seq!['"', ' ', 'y', '=', '"']); } push_str(out, "\" y=\"");
    let ys = dec_i64(y);
    push_str(out, ys.as_str());
    proof { reveal_strlit("\"/>"); assert("\"/>"@ == /* \"/> */ seq!['"', '/', '>']); } push_str(out, "\"/>");
    assert(out@ =~= old(out)@ + pt_text(x, y));
}

impl FreeformPath {
    /// The width of the path's coordinate space.
    pub closed spec fn width_v(&self) -> i64 {
        self.width
    }

    /// The height of the path's coordinate space.
    pub closed spec fn height_v(&self) -> i64 {
        self.height
    }

    /// The segments added so far, in order.
    pub closed spec fn segments_v(&self) -> Seq<PathSegment> {
        self.segments@
    }

    /// A new path over a `width` × `height` coordinate space, with no
    /// segments.
    pub fn new(width: i64, height: i64) -> (p: FreeformPath)
        ensures
            p.width_v() == width,
            p.height_v() == height,
            p.segments_v() == Seq::<PathSegment>::empty(),
    {
        FreeformPath { width, height, segments: Vec::new() }
    }

    /// Move the current point without drawing.
    pub fn move_to(&mut self, x: i64, y: i64) -> (r: &mut FreeformPath)
        ensures
            r.width_v() == old(self).width_v(),
            r.height_v() == old(self).height_v(),
            r.segments_v() == old(self).segments_v().push(PathSegment::MoveTo { x, y }),
            *final(self) == *final(r),
    {
        self.segments.push(PathSegment::MoveTo { x, y });
        self
    }

    /// Draw a straight line to a point.
    pub fn line_to(&mut self, x: i64, y: i64) -> (r: &mut FreeformPath)
        ensures
            r.width_v() == old(self).width_v(),
            r.height_v() == old(self).height_v(),
            r.segments_v() == old(self).segments_v().push(PathSegment::LineTo { x, y }),
            *final(self) == *final(r),
    {
        self.segments.push(PathSegment::LineTo { x, y });
        self
    }

    /// Draw a cubic Bézier curve with control points (x1, y1), (x2, y2) to
    /// (x, y).
    pub fn cubic_to(&mut self, x1: i64, y1: i64, x2: i64, y2: i64, x: i64, y: i64) -> (r: &mut FreeformPath)
        ensures
            r.width_v() == old(self).width_v(),
            r.height_v() == old(self).height_v(),
            r.segments_v() == old(self).segments_v().push(PathSegment::CubicTo { x1, y1, x2, y2, x, y }),
            *final(self) == *final(r),
    {
        self.segments.push(PathSegment::CubicTo { x1, y1, x2, y2, x, y });
        self
    }

    /// Close the current sub-path.
    pub fn close(&mut self) -> (r: &mut FreeformPath)
        ensures
            r.width_v() == old(self).width_v(),
            r.height_v() == old(self).height_v(),
            r.segments_v() == old(self).segments_v().push(PathSegment::Close),
            *final(self) == *final(r),
    {
        self.segments.push(PathSegment::Close);
        self
    }

    /// The `<a:custGeom>` fragment holding the path's segments.
    pub fn build_xml(&self) -> (r: String)
        ensures
            r@ == custgeom_text(self.width_v(), self.height_v(), self.segments_v()),
    {
        let mut body = String::new();
        let mut i: usize = 0;
        while i < self.segments.len()
            invariant
                i <= self.segments@.len(),
                body@ == segments_text(self.segments@.take(i as int)),
            decreases self.segments@.len() - i,
        {
            let ghost before = body@;
            match self.segments[i] {
                PathSegment::MoveTo { x, y } => {
                    proof { reveal_strlit("<a:moveTo>"); assert("<a:moveTo>"@ == /* <a:moveTo> */ seq!['<', 'a', ':', 'm', 'o', 'v', 'e', 'T', 'o', '>']); } push_str(&mut body, "<a:moveTo>");
                    push_pt(&mut body, x, y);
                    proof { reveal_strlit("</a:moveTo>"); assert("</a:moveTo>"@ == /* </a:moveTo> */ seq!['<', '/', 'a', ':', 'm', 'o', 'v', 'e', 'T', 'o', '>']); } push_str(&mut body, "</a:moveTo>");
                },
                PathSegment::LineTo { x, y } => {
                    proof { reveal_strlit("<a:lnTo>"); assert("<a:lnTo>"@ == /* <a:lnTo> */ seq!['<', 'a', ':', 'l', 'n', 'T', 'o', '>']); } push_str(&mut body, "<a:lnTo>");
                    push_pt(&mut body, x, y);
                    proof { reveal_strlit("</a:lnTo>"); assert("</a:lnTo>"@ == /* </a:lnTo> */ seq!['<', '/', 'a', ':', 'l', 'n', 'T', 'o', '>']); } push_str(&mut body, "</a:lnTo>");
                },
                PathSegment::CubicTo { x1, y1, x2, y2, x, y } => {
                    proof { reveal_strlit("<a:cubicBezTo>"); assert("<a:cubicBezTo>"@ == /* <a:cubicBezTo> */ seq!['<', 'a', ':', 'c', 'u', 'b', 'i', 'c', 'B', 'e', 'z', 'T', 'o', '>']); } push_str(&mut body, "<a:cubicBezTo>");
                    push_pt(&mut body, x1, y1);
                    push_pt(&mut body, x2, y2);
                    push_pt(&mut body, x, y);
                    proof { reveal_strlit("</a:cubicBezTo>"); assert("</a:cubicBezTo>"@ == /* </a:cubicBezTo> */ seq!['<', '/', 'a', ':', 'c', 'u', 'b', 'i', 'c', 'B', 'e', 'z', 'T', 'o', '>']); } push_str(&mut body, "</a:cubicBezTo>");
                },
                PathSegment::Close => {
                    proof { reveal_strlit("<a:close/>"); assert("<a:close/>"@ == /* <a:close/> */ seq!['<', 'a', ':', 'c', 'l', 'o', 's', 'e', '/', '>']); } push_str(&mut body, "<a:close/>");
                },
            }
            proof {
                assert(self.segments@.take(i + 1).drop_last() =~= self.segments@.take(i as int));
                assert(body@ =~= before + segment_text(self.segments@[i as int]));
            }
            i = i + 1;
        }
        assert(self.segments@.take(self.segments@.len() as int) =~= self.segments@);
        let mut out = String::new();
        proof { reveal_strlit("<a:custGeom><a:avLst/><a:gdLst/><a:ahLst/><a:cxnLst/><a:rect l=\"0\" t=\"0\" r=\"0\" b=\"0\"/><a:pathLst><a:path w=\""); assert("<a:custGeom><a:avLst/><a:gdLst/><a:ahLst/><a:cxnLst/><a:rect l=\"0\" t=\"0\" r=\"0\" b=\"0\"/><a:pathLst><a:path w=\""@ == /* <a:custGeom><a:avLst/><a:gdLst/><a:ahLst/><a:cxnLst/><a:rect l=\"0\" t=\"0\" r=\"0\" b=\"0\"/><a:pathLst><a:path w=\" */ seq!['<', 'a', ':', 'c', 'u', 's', 't', 'G', 'e', 'o', 'm', '>', '<', 'a', ':', 'a', 'v', 'L', 's', 't', '/', '>', '<', 'a', ':', 'g', 'd', 'L', 's', 't', '/', '>', '<', 'a', ':', 'a', 'h', 'L', 's', 't', '/', '>', '<', 'a', ':', 'c', 'x', 'n', 'L', 's', 't', '/', '>', '<', 'a', ':', 'r', 'e', 'c', 't', ' ', 'l', '=', '"', '0', '"', ' ', 't', '=', '"', '0', '"', ' ', 'r', '=', '"', '0', '"', ' ', 'b', '=', '"', '0', '"', '/', '>', '<', 'a', ':', 'p', 'a', 't', 'h', 'L', 's', 't', '>', '<', 'a', ':', 'p', 'a', 't', 'h', ' ', 'w', '=', '"']); } push_str(&mut out, "<a:custGeom><a:avLst/><a:gdLst/><a:ahLst/><a:cxnLst/><a:rect l=\"0\" t=\"0\" r=\"0\" b=\"0\"/><a:pathLst><a:path w=\"");
        let ws = dec_i64(self.width);
        push_str(&mut out, ws.as_str());
        proof { reveal_strlit("\" h=\""); assert("\" h=\""@ == /* \" h=\" */ seq!['"', ' ', 'h', '=', '"']); } push_str(&mut out, "\" h=\"");
        let hs = dec_i64(self.height);
        push_str(&mut out, hs.as_str());
        proof { reveal_strlit("\">"); assert("\">"@ == /* \"> */ seq!['"', '>']); } push_str(&mut out, "\">");
        push_str(&mut out, body.as_str());
        proof { reveal_strlit("</a:path></a:pathLst></a:custGeom>"); assert("</a:path></a:pathLst></a:custGeom>"@ == /* </a:path></a:pathLst></a:custGeom> */ seq!['<', '/', 'a', ':', 'p', 'a', 't', 'h', '>', '<', '/', 'a', ':', 'p', 'a', 't', 'h', 'L', 's', 't', '>', '<', '/', 'a', ':', 'c', 'u', 's', 't', 'G', 'e', 'o', 'm', '>']); } push_str(&mut out, "</a:path></a:pathLst></a:custGeom>");
        assert(out@ =~= custgeom_text(self.width, self.height, self.segments@));
        out
    }
}

/// What the inventory reports of a shape.
#[derive(Debug, Clone, PartialEq)]
pub struct ShapeInfo {
    /// `p:cNvPr@id`.
    pub id: u32,
    /// `p:cNvPr@name`.
    pub name: String,
    /// The shape's tag: `sp`, `pic`, `graphicFrame`, `cxnSp` or `grpSp`.
    pub shape_type: String,
    /// `a:xfrm` geometry (x, y, cx, cy) in EMU, when present.
    pub geometry: Option<(i64, i64, i64, i64)>,
    /// The text of its text body, when it has one.
    pub text: Option<String>,
}

/// A slide part as an editable tree.
#[derive(Debug, PartialEq)]
pub struct SlideDom {
    doc: Document,
}

impl SlideDom {
    /// The tree the slide is held as.
    pub closed spec fn document(&self) -> Document {
        self.doc
    }

    /// Parse a slide part.
    pub fn parse(src: &[u8]) -> (r: Result<SlideDom, OxmlError>)
        ensures
            r is Ok <==> parsed_nodes(src@) is Some,
            r matches Ok(s) ==> s.document().bytes() == src@ && Some(nodes_v(s.document().nodes@)) == parsed_nodes(
                src@,
            ),
    {
        match Document::parse(src) {
            Ok(doc) => Ok(SlideDom { doc }),
            Err(e) => Err(e),
        }
    }

    /// Serialize (byte-identical to the source while unedited).
    pub fn to_bytes(&self) -> (r: Vec<u8>)
        ensures
            r@ == self.document().bytes(),
    {
        self.doc.to_bytes()
    }
}


// ─── Locating shapes, text bodies, paragraphs and runs ──────────────────────

/// Kinds of children counted when addressing by index.
pub open spec fn kind_paragraph() -> u8 { 0 }

pub open spec fn kind_run() -> u8 { 1 }

pub open spec fn kind_sp() -> u8 { 2 }

pub open spec fn kind_drawable() -> u8 { 3 }

pub open spec fn kind_row() -> u8 { 4 }

pub open spec fn kind_cell() -> u8 { 5 }

pub open spec fn kind_grid_col() -> u8 { 6 }

/// Whether node `n` is of kind `k`: a paragraph (`p`); a run or line break
/// (`r`, `br`); an autoshape (`sp`); anything drawn (`sp`, `pic`,
/// `graphicFrame`, `cxnSp`, `grpSp`); a table row (`tr`), cell (`tc`) or
/// grid column (`gridCol`).
pub open spec fn node_is_kind(n: Node, k: u8) -> bool {
    if k == kind_paragraph() {
        is_named(n, /* p */ seq![112u8])
    } else if k == kind_run() {
        is_named(n, /* r */ seq![114u8]) || is_named(n, /* br */ seq![98u8, 114u8])
    } else if k == kind_sp() {
        is_named(n, /* sp */ seq![115u8, 112u8])
    } else if k == kind_drawable() {
        is_named(n, /* sp */ seq![115u8, 112u8]) || is_named(n, /* pic */ seq![112u8, 105u8, 99u8]) || is_named(n, /* graphicFrame */ seq![103u8, 114u8, 97u8, 112u8, 104u8, 105u8, 99u8, 70u8, 114u8, 97u8, 109u8, 101u8]) || is_named(n, /* cxnSp */ seq![99u8, 120u8, 110u8, 83u8, 112u8])
            || is_named(n, /* grpSp */ seq![103u8, 114u8, 112u8, 83u8, 112u8])
    } else if k == kind_row() {
        is_named(n, /* tr */ seq![116u8, 114u8])
    } else if k == kind_cell() {
        is_named(n, /* tc */ seq![116u8, 99u8])
    } else {
        is_named(n, /* gridCol */ seq![103u8, 114u8, 105u8, 100u8, 67u8, 111u8, 108u8])
    }
}

/// Child index of the `n`-th node of kind `k` among `ns` from `i` on, or -1.
pub open spec fn nth_kind_from(ns: Seq<Node>, k: u8, n: int, i: int) -> int
    decreases ns.len() - i,
{
    if i < 0 || i >= ns.len() || n < 0 {
        -1
    } else if node_is_kind(ns[i], k) {
        if n == 0 {
            i
        } else {
            nth_kind_from(ns, k, n - 1, i + 1)
        }
    } else {
        nth_kind_from(ns, k, n, i + 1)
    }
}

/// Child index of the `n`-th node of kind `k` among `ns`, or -1.
pub open spec fn nth_kind(ns: Seq<Node>, k: u8, n: int) -> int {
    nth_kind_from(ns, k, n, 0)
}

/// The number of nodes of kind `k` among `ns`.
pub open spec fn count_kind(ns: Seq<Node>, k: u8) -> nat
    decreases ns.len(),
{
    if ns.len() == 0 {
        0
    } else {
        count_kind(ns.drop_last(), k) + if node_is_kind(ns.last(), k) { 1nat } else { 0nat }
    }
}

pub proof fn lemma_nth_kind_from(ns: Seq<Node>, k: u8, n: int, i: int)
    ensures
        nth_kind_from(ns, k, n, i) >= 0 ==> i <= nth_kind_from(ns, k, n, i) < ns.len()
            && node_is_kind(ns[nth_kind_from(ns, k, n, i)], k),
    decreases ns.len() - i,
{
    if 0 <= i < ns.len() && n >= 0 {
        if node_is_kind(ns[i], k) {
            if n > 0 {
                lemma_nth_kind_from(ns, k, n - 1, i + 1);
            }
        } else {
            lemma_nth_kind_from(ns, k, n, i + 1);
        }
    }
}

fn named_any(e: &Element, k: u8) -> (r: bool)
    ensures
        r == node_is_kind(Node::Element(*e), k),
{
    let p: [u8; 1] = /* p */ [112u8];
    let r: [u8; 1] = /* r */ [114u8];
    let br: [u8; 2] = /* br */ [98u8, 114u8];
    let sp: [u8; 2] = /* sp */ [115u8, 112u8];
    let pic: [u8; 3] = /* pic */ [112u8, 105u8, 99u8];
    let gf: [u8; 12] = /* graphicFrame */ [103u8, 114u8, 97u8, 112u8, 104u8, 105u8, 99u8, 70u8, 114u8, 97u8, 109u8, 101u8];
    let cxn: [u8; 5] = /* cxnSp */ [99u8, 120u8, 110u8, 83u8, 112u8];
    let grp: [u8; 5] = /* grpSp */ [103u8, 114u8, 112u8, 83u8, 112u8];
    let tr: [u8; 2] = /* tr */ [116u8, 114u8];
    let tc: [u8; 2] = /* tc */ [116u8, 99u8];
    let gc: [u8; 7] = /* gridCol */ [103u8, 114u8, 105u8, 100u8, 67u8, 111u8, 108u8];
    assert(tr@ =~= /* tr */ seq![116u8, 114u8]);
    assert(tc@ =~= /* tc */ seq![116u8, 99u8]);
    assert(gc@ =~= /* gridCol */ seq![103u8, 114u8, 105u8, 100u8, 67u8, 111u8, 108u8]);
    assert(p@ =~= /* p */ seq![112u8]);
    assert(r@ =~= /* r */ seq![114u8]);
    assert(br@ =~= /* br */ seq![98u8, 114u8]);
    assert(sp@ =~= /* sp */ seq![115u8, 112u8]);
    assert(pic@ =~= /* pic */ seq![112u8, 105u8, 99u8]);
    assert(gf@ =~= /* graphicFrame */ seq![103u8, 114u8, 97u8, 112u8, 104u8, 105u8, 99u8, 70u8, 114u8, 97u8, 109u8, 101u8]);
    assert(cxn@ =~= /* cxnSp */ seq![99u8, 120u8, 110u8, 83u8, 112u8]);
    assert(grp@ =~= /* grpSp */ seq![103u8, 114u8, 112u8, 83u8, 112u8]);
    if k == 0 {
        e.is_named(p.as_slice())
    } else if k == 1 {
        e.is_named(r.as_slice()) || e.is_named(br.as_slice())
    } else if k == 2 {
        e.is_named(sp.as_slice())
    } else if k == 3 {
        e.is_named(sp.as_slice()) || e.is_named(pic.as_slice()) || e.is_named(gf.as_slice())
            || e.is_named(cxn.as_slice()) || e.is_named(grp.as_slice())
    } else if k == 4 {
        e.is_named(tr.as_slice())
    } else if k == 5 {
        e.is_named(tc.as_slice())
    } else {
        e.is_named(gc.as_slice())
    }
}

/// Whether a node is of kind `k`.
pub fn is_kind(n: &Node, k: u8) -> (r: bool)
    ensures
        r == node_is_kind(*n, k),
{
    match n {
        Node::Element(e) => named_any(e, k),
        Node::Raw(_) => false,
    }
}

/// Child index of the `n`-th node of kind `k`.
pub fn nth_position(ns: &Vec<Node>, k: u8, n: usize) -> (r: Option<usize>)
    ensures
        match r {
            Some(i) => nth_kind(ns@, k, n as int) == i && i < ns@.len() && node_is_kind(ns@[i as int], k),
            None => nth_kind(ns@, k, n as int) < 0,
        },
{
    let mut i: usize = 0;
    let mut left: usize = n;
    proof { lemma_nth_kind_from(ns@, k, n as int, 0); }
    while i < ns.len()
        invariant
            i <= ns@.len(),
            left <= n,
            nth_kind(ns@, k, n as int) == nth_kind_from(ns@, k, left as int, i as int),
        decreases ns@.len() - i,
    {
        if is_kind(&ns[i], k) {
            if left == 0 {
                proof { lemma_nth_kind_from(ns@, k, 0, i as int); }
                return Some(i);
            }
            left = left - 1;
        }
        i = i + 1;
    }
    None
}

/// The number of nodes of kind `k`.
pub fn count_of_kind(ns: &Vec<Node>, k: u8) -> (r: usize)
    ensures
        r == count_kind(ns@, k),
{
    let mut c: usize = 0;
    let mut i: usize = 0;
    while i < ns.len()
        invariant
            i <= ns@.len(),
            c == count_kind(ns@.take(i as int), k),
            c <= i,
        decreases ns@.len() - i,
    {
        assert(ns@.take(i + 1).drop_last() =~= ns@.take(i as int));
        if is_kind(&ns[i], k) {
            c = c + 1;
        }
        i = i + 1;
    }
    assert(ns@.take(ns@.len() as int) =~= ns@);
    c
}

/// Path from the root to the shape tree (`p:spTree`).
pub open spec fn tree_path(d: Document) -> Option<Seq<usize>> {
    match doc_root(d) {
        Some(root) => desc_path(root, /* spTree */ seq![115u8, 112u8, 84u8, 114u8, 101u8, 101u8]),
        None => None,
    }
}

/// The element at path `p` below the root.
pub open spec fn doc_at(d: Document, p: Seq<usize>) -> Element {
    at_path(doc_root(d).unwrap(), p)
}

/// Path to the `idx`-th child of kind `k` of the shape tree.
pub open spec fn tree_child_path(d: Document, k: u8, idx: int) -> Option<Seq<usize>> {
    match tree_path(d) {
        Some(tp) => {
            let i = nth_kind(doc_at(d, tp).children@, k, idx);
            if i >= 0 {
                Some(tp.push(i as usize))
            } else {
                None
            }
        },
        None => None,
    }
}

/// Path to the text body of the `idx`-th autoshape (`p:sp`).
pub open spec fn text_body_path(d: Document, idx: int) -> Option<Seq<usize>> {
    match tree_child_path(d, kind_sp(), idx) {
        Some(sp) => match desc_path(doc_at(d, sp), /* txBody */ seq![116u8, 120u8, 66u8, 111u8, 100u8, 121u8]) {
            Some(q) => Some(sp + q),
            None => None,
        },
        None => None,
    }
}

/// The message a failed text-body lookup of autoshape `idx` carries: there
/// is no such autoshape, or it has no text body.
pub open spec fn text_body_error(d: Document, idx: int) -> Seq<char> {
    match tree_child_path(d, kind_sp(), idx) {
        Some(_) => "shape at index "@ + dec_nat(idx as nat) + " has no text body"@,
        None => "no shape at index "@ + dec_nat(idx as nat) + ""@,
    }
}

/// Path to paragraph `para` of the text body of autoshape `idx`.
pub open spec fn paragraph_path(d: Document, idx: int, para: int) -> Option<Seq<usize>> {
    match text_body_path(d, idx) {
        Some(tp) => {
            let i = nth_kind(doc_at(d, tp).children@, kind_paragraph(), para);
            if i >= 0 {
                Some(tp.push(i as usize))
            } else {
                None
            }
        },
        None => None,
    }
}

/// A path extended by one child index leads to that child.
proof fn lemma_path_push(root: Element, p: Seq<usize>, i: usize)
    requires
        valid_path(root, p),
        i < at_path(root, p).children@.len(),
        at_path(root, p).children@[i as int] is Element,
    ensures
        valid_path(root, p.push(i)),
        at_path(root, p.push(i)) == at_path(root, p).children@[i as int]->Element_0,
{
    let c = at_path(root, p).children@[i as int]->Element_0;
    lemma_at_path_concat(root, p, seq![i]);
    assert(p + seq![i] =~= p.push(i));
    assert(seq![i].drop_first() =~= Seq::<usize>::empty());
    assert(at_path(c, Seq::<usize>::empty()) == c);
    assert(valid_path(c, Seq::<usize>::empty()));
}

/// A message of the form `before` + decimal `n` + `after`.
fn message(before: &str, n: usize, after: &str) -> (r: String)
    ensures
        r@ == before@ + dec_nat(n as nat) + after@,
{
    let mut s = string_of(before);
    let d = dec_u64(n as u64);
    push_str(&mut s, d.as_str());
    push_str(&mut s, after);
    s
}

/// Path to the shape tree, computed.
fn find_tree_path(d: &Document) -> (r: Option<Vec<usize>>)
    ensures
        match r {
            Some(p) => tree_path(*d) == Some(p@) && valid_path(doc_root(*d).unwrap(), p@),
            None => tree_path(*d) is None,
        },
{
    let root = match d.root() {
        Some(r) => r,
        None => return None,
    };
    let name: [u8; 6] = /* spTree */ [115u8, 112u8, 84u8, 114u8, 101u8, 101u8];
    assert(name@ =~= /* spTree */ seq![115u8, 112u8, 84u8, 114u8, 101u8, 101u8]);
    let p = root.find_descendant_path(name.as_slice());
    proof { lemma_desc_path(*root, /* spTree */ seq![115u8, 112u8, 84u8, 114u8, 101u8, 101u8]); }
    p
}

/// Path to the `idx`-th child of kind `k` of the shape tree, computed.
fn find_tree_child_path(d: &Document, k: u8, idx: usize) -> (r: Option<Vec<usize>>)
    ensures
        match r {
            Some(p) => tree_child_path(*d, k, idx as int) == Some(p@) && valid_path(doc_root(*d).unwrap(), p@)
                && node_is_kind(Node::Element(doc_at(*d, p@)), k),
            None => tree_child_path(*d, k, idx as int) is None,
        },
{
    let mut p = match find_tree_path(d) {
        Some(p) => p,
        None => return None,
    };
    let root = d.root().unwrap();
    assert(p@.skip(0) =~= p@);
    let tree = element_at(root, &p, 0);
    let i = match nth_position(&tree.children, k, idx) {
        Some(i) => i,
        None => return None,
    };
    proof { lemma_path_push(*root, p@, i); }
    p.push(i);
    Some(p)
}

/// Path to the text body of autoshape `idx`, computed; the error says which
/// step failed.
fn find_text_body_path(d: &Document, idx: usize) -> (r: Result<Vec<usize>, OxmlError>)
    ensures
        match r {
            Ok(p) => text_body_path(*d, idx as int) == Some(p@) && valid_path(doc_root(*d).unwrap(), p@),
            Err(e) => text_body_path(*d, idx as int) is None && parse_error_is(e, text_body_error(*d, idx as int)),
        },
{
    let mut p = match find_tree_child_path(d, 2, idx) {
        Some(p) => p,
        None => return Err(OxmlError::Parse(message("no shape at index ", idx, ""))),
    };
    let root = d.root().unwrap();
    assert(p@.skip(0) =~= p@);
    let sp = element_at(root, &p, 0);
    let name: [u8; 6] = /* txBody */ [116u8, 120u8, 66u8, 111u8, 100u8, 121u8];
    assert(name@ =~= /* txBody */ seq![116u8, 120u8, 66u8, 111u8, 100u8, 121u8]);
    let mut q = match sp.find_descendant_path(name.as_slice()) {
        Some(q) => q,
        None => return Err(OxmlError::Parse(message("shape at index ", idx, " has no text body"))),
    };
    proof {
        lemma_desc_path(*sp, /* txBody */ seq![116u8, 120u8, 66u8, 111u8, 100u8, 121u8]);
        lemma_at_path_concat(*root, p@, q@);
    }
    let ghost sp_path = p@;
    let ghost qv = q@;
    p.append(&mut q);
    assert(p@ =~= sp_path + qv);
    Ok(p)
}

/// Path to paragraph `para` of autoshape `idx`, computed.
fn find_paragraph_path(d: &Document, idx: usize, para: usize) -> (r: Result<Vec<usize>, OxmlError>)
    ensures
        match r {
            Ok(p) => paragraph_path(*d, idx as int, para as int) == Some(p@) && valid_path(doc_root(*d).unwrap(), p@)
                && doc_at(*d, p@).local() == /* p */ seq![112u8],
            Err(_) => paragraph_path(*d, idx as int, para as int) is None,
        },
{
    let mut p = match find_text_body_path(d, idx) {
        Ok(p) => p,
        Err(e) => return Err(e),
    };
    let root = d.root().unwrap();
    assert(p@.skip(0) =~= p@);
    let tx = element_at(root, &p, 0);
    let i = match nth_position(&tx.children, 0, para) {
        Some(i) => i,
        None => return Err(OxmlError::Parse(string_of("paragraph index out of range"))),
    };
    proof { lemma_path_push(*root, p@, i); }
    p.push(i);
    Ok(p)
}


// ─── Edits of child lists ───────────────────────────────────────────────────

/// `new` is `old` with one child appended, written as `bytes`.
pub open spec fn child_appended(old: Element, new: Element, bytes: Seq<u8>) -> bool {
    &&& same_tags(old, new)
    &&& new.children@.len() == old.children@.len() + 1
    &&& new.children@.drop_last() == old.children@
    &&& new.children@.last() is Element
    &&& node_bytes(new.children@.last()) == bytes
}

/// `new` is `old` with one child, written as `bytes`, inserted at `pos`; a
/// self-closing element becomes an open/close pair.
pub open spec fn child_inserted(old: Element, new: Element, pos: int, bytes: Seq<u8>) -> bool {
    &&& 0 <= pos <= old.children@.len()
    &&& new.name == old.name
    &&& new.raw_start == old.raw_start
    &&& new.raw_end == old.raw_end
    &&& new.attrs == old.attrs
    &&& !new.self_closing
    &&& new.dirty == (old.dirty || old.self_closing)
    &&& new.children@.len() == old.children@.len() + 1
    &&& new.children@.take(pos) == old.children@.take(pos)
    &&& new.children@.skip(pos + 1) == old.children@.skip(pos)
    &&& new.children@[pos] is Element
    &&& node_bytes(new.children@[pos]) == bytes
}

/// `new` is `old` with the child at `pos` removed.
pub open spec fn child_removed(old: Element, new: Element, pos: int) -> bool {
    &&& 0 <= pos < old.children@.len()
    &&& same_tags(old, new)
    &&& new.children@ == old.children@.remove(pos)
}

/// Whether a node is written with the children a paragraph of `text` has:
/// one run holding the text.
pub open spec fn holds_text(n: Node, text: Seq<char>) -> bool {
    n matches Node::Element(e) && paragraph_text_spec(e) == text
}

/// What a successful `add_paragraph(idx, text)` makes of a slide part: the
/// text body of autoshape `idx`, and nothing else, gets one more child, a
/// paragraph holding `text`.
pub open spec fn paragraph_added(old: Document, new: Document, idx: int, text: Seq<char>) -> bool {
    &&& text_body_path(old, idx) is Some
    &&& exists|new_tx: Element| {
        &&& doc_replaced(old, new, text_body_path(old, idx).unwrap(), new_tx)
        &&& #[trigger] child_appended(doc_at(old, text_body_path(old, idx).unwrap()), new_tx, para_bytes(text, None))
        &&& holds_text(new_tx.children@.last(), text)
        &&& is_named(new_tx.children@.last(), /* p */ seq![112u8])
    }
}

proof fn lemma_nth_kind_same(a: Seq<Node>, b: Seq<Node>, k: u8, n: int, i: int)
    requires
        a.len() == b.len(),
        forall|j: int| 0 <= j < a.len() ==> node_is_kind(#[trigger] a[j], k) == node_is_kind(b[j], k),
    ensures
        nth_kind_from(a, k, n, i) == nth_kind_from(b, k, n, i),
    decreases a.len() - i,
{
    if 0 <= i < a.len() && n >= 0 {
        if node_is_kind(a[i], k) {
            if n > 0 {
                lemma_nth_kind_same(a, b, k, n - 1, i + 1);
            }
        } else {
            lemma_nth_kind_same(a, b, k, n, i + 1);
        }
    }
}

/// An edit inside the text body of autoshape `idx` that keeps the text
/// body's own tags leaves that text body where it was.
proof fn lemma_text_body_stays(d0: Document, d1: Document, idx: int, new_tx: Element)
    requires
        text_body_path(d0, idx) is Some,
        doc_replaced(d0, d1, text_body_path(d0, idx).unwrap(), new_tx),
        same_tags(doc_at(d0, text_body_path(d0, idx).unwrap()), new_tx),
    ensures
        text_body_path(d1, idx) == text_body_path(d0, idx),
        doc_at(d1, text_body_path(d0, idx).unwrap()) == new_tx,
{
    let p = text_body_path(d0, idx).unwrap();
    lemma_doc_replaced_root(d0, d1, p, new_tx);
    let root0 = doc_root(d0).unwrap();
    let root1 = doc_root(d1).unwrap();
    let tp = desc_path(root0, /* spTree */ seq![115u8, 112u8, 84u8, 114u8, 101u8, 101u8]).unwrap();
    lemma_desc_path(root0, /* spTree */ seq![115u8, 112u8, 84u8, 114u8, 101u8, 101u8]);
    let tree0 = at_path(root0, tp);
    let i = nth_kind(tree0.children@, kind_sp(), idx);
    lemma_nth_kind_from(tree0.children@, kind_sp(), idx, 0);
    assert(0 <= i < tree0.children@.len());
    assert(tree0.children.len() == tree0.children@.len());
    let bs = seq![i as usize];
    assert(bs[0] as int == i);
    assert(bs.drop_first() =~= Seq::<usize>::empty());
    let spp = tp.push(i as usize);
    assert(spp =~= tp + bs);
    assert(node_is_kind(tree0.children@[i], kind_sp()));
    assert(is_named(tree0.children@[i], /* sp */ seq![115u8, 112u8]));
    let sp0 = tree0.children@[i]->Element_0;
    assert(at_path(sp0, bs.drop_first()) == sp0);
    assert(valid_path(sp0, bs.drop_first()));
    assert(valid_path(tree0, bs));
    assert(at_path(tree0, bs) == sp0);
    lemma_at_path_concat(root0, tp, bs);
    let q = desc_path(sp0, /* txBody */ seq![116u8, 120u8, 66u8, 111u8, 100u8, 121u8]).unwrap();
    lemma_desc_path(sp0, /* txBody */ seq![116u8, 120u8, 66u8, 111u8, 100u8, 121u8]);
    assert(p == spp + q);
    lemma_at_path_concat(root0, spp, q);
    let rest = bs + q;
    assert(p =~= tp + rest);
    lemma_at_path_concat(root0, tp, rest);
    assert(rest.drop_first() =~= q);
    assert(rest[0] == i as usize);
    lemma_search_before_prefix(tp, rest);
    lemma_desc_path_stable(root0, root1, p, new_tx, /* spTree */ seq![115u8, 112u8, 84u8, 114u8, 101u8, 101u8]);
    lemma_replaced_below(root0, root1, tp, rest, new_tx);
    let tree1 = at_path(root1, tp);
    assert(replaced_at(tree0, tree1, rest, new_tx));
    let sp1 = tree1.children@[i]->Element_0;
    assert(replaced_at(sp0, sp1, q, new_tx));
    assert(same_tags(sp0, sp1));
    assert forall|j: int| 0 <= j < tree0.children@.len() implies node_is_kind(
        #[trigger] tree0.children@[j],
        kind_sp(),
    ) == node_is_kind(tree1.children@[j], kind_sp()) by {
        if j != i {
            assert(tree1.children@[j] == tree0.children@[j]);
        }
    }
    lemma_nth_kind_same(tree0.children@, tree1.children@, kind_sp(), idx, 0);
    assert(tree_child_path(d1, kind_sp(), idx) == Some(spp));
    assert(at_path(sp1, bs.drop_first()) == sp1);
    assert(valid_path(sp1, bs.drop_first()));
    assert(tree1.children@[i] is Element);
    assert(valid_path(tree1, bs));
    assert(at_path(tree1, bs) == sp1);
    lemma_at_path_concat(root1, tp, bs);
    assert(doc_at(d1, spp) == sp1);
    assert(q + Seq::<usize>::empty() =~= q);
    lemma_search_before_prefix(q, Seq::<usize>::empty());
    lemma_desc_path_stable(sp0, sp1, q, new_tx, /* txBody */ seq![116u8, 120u8, 66u8, 111u8, 100u8, 121u8]);
    lemma_replaced_valid(root0, root1, p, new_tx);
}

/// Adding a paragraph shows in the shape's paragraphs: once
/// `add_paragraph(idx, text)` has turned `before` into `after`, the text body
/// of autoshape `idx` is found where it was, and its paragraphs (what
/// `paragraphs(idx)` returns) are those it had, then one holding `text`.
pub proof fn lemma_add_paragraph_reads_back(before: SlideDom, after: SlideDom, idx: int, text: Seq<char>)
    requires
        paragraph_added(before.document(), after.document(), idx, text),
    ensures
        text_body_path(after.document(), idx) == text_body_path(before.document(), idx),
        named_children(doc_at(after.document(), text_body_path(before.document(), idx).unwrap()).children@, /* p */ seq![112u8]).len()
            == named_children(doc_at(before.document(), text_body_path(before.document(), idx).unwrap()).children@, /* p */ seq![112u8]).len() + 1,
        named_children(doc_at(after.document(), text_body_path(before.document(), idx).unwrap()).children@, /* p */ seq![112u8]).drop_last()
            == named_children(doc_at(before.document(), text_body_path(before.document(), idx).unwrap()).children@, /* p */ seq![112u8]),
        paragraph_text_spec(
            named_children(doc_at(after.document(), text_body_path(before.document(), idx).unwrap()).children@, /* p */ seq![112u8]).last(),
        ) == text,
{
    let d0 = before.document();
    let d1 = after.document();
    let p = text_body_path(d0, idx).unwrap();
    let old_tx = doc_at(d0, p);
    let new_tx = choose|t: Element| {
        &&& doc_replaced(d0, d1, p, t)
        &&& #[trigger] child_appended(old_tx, t, para_bytes(text, None))
        &&& holds_text(t.children@.last(), text)
        &&& is_named(t.children@.last(), /* p */ seq![112u8])
    };
    lemma_text_body_stays(d0, d1, idx, new_tx);
    let ns = new_tx.children@;
    assert(ns.drop_last() == old_tx.children@);
    assert(named_children(ns, /* p */ seq![112u8]) == named_children(old_tx.children@, /* p */ seq![112u8]).push(ns.last()->Element_0));
}

/// The bytes of a fresh `<a:br/>`.
pub open spec fn br_bytes() -> Seq<u8> {
    /* <a:br/> */ seq![60u8, 97u8, 58u8, 98u8, 114u8, 47u8, 62u8]
}

/// The elements of kind `k` among `ns`, in order.
pub open spec fn kind_children(ns: Seq<Node>, k: u8) -> Seq<Element>
    decreases ns.len(),
{
    if ns.len() == 0 {
        Seq::empty()
    } else {
        let rest = kind_children(ns.drop_last(), k);
        if node_is_kind(ns.last(), k) && ns.last() is Element {
            rest.push(ns.last()->Element_0)
        } else {
            rest
        }
    }
}

/// Where the `n`-th node of kind `k` goes when inserted among `ns`: the
/// position of the current `n`-th one, or just after the last one when `n`
/// is their count (the end when there is none); -1 beyond that.
pub open spec fn insert_pos_for(ns: Seq<Node>, k: u8, n: int) -> int {
    if nth_kind(ns, k, n) >= 0 {
        nth_kind(ns, k, n)
    } else if n == count_kind(ns, k) {
        if n == 0 {
            ns.len() as int
        } else {
            nth_kind(ns, k, n - 1) + 1
        }
    } else {
        -1
    }
}

fn kind_elements<'a>(ns: &'a Vec<Node>, k: u8) -> (r: Vec<&'a Element>)
    ensures
        r@.len() == kind_children(ns@, k).len(),
        forall|j: int| 0 <= j < r@.len() ==> *r@[j] == kind_children(ns@, k)[j],
{
    let mut out: Vec<&'a Element> = Vec::new();
    let mut i: usize = 0;
    while i < ns.len()
        invariant
            i <= ns@.len(),
            out@.len() == kind_children(ns@.take(i as int), k).len(),
            forall|j: int| 0 <= j < out@.len() ==> *out@[j] == kind_children(ns@.take(i as int), k)[j],
        decreases ns@.len() - i,
    {
        assert(ns@.take(i + 1).drop_last() =~= ns@.take(i as int));
        if let Node::Element(e) = &ns[i] {
            if named_any(e, k) {
                out.push(e);
            }
        }
        i = i + 1;
    }
    assert(ns@.take(ns@.len() as int) =~= ns@);
    out
}

fn insert_position(ns: &Vec<Node>, k: u8, n: usize) -> (r: Option<usize>)
    ensures
        match r {
            Some(i) => insert_pos_for(ns@, k, n as int) == i && i <= ns@.len(),
            None => insert_pos_for(ns@, k, n as int) < 0,
        },
{
    match nth_position(ns, k, n) {
        Some(i) => Some(i),
        None => {
            let c = count_of_kind(ns, k);
            if n != c {
                return None;
            }
            if n == 0 {
                return Some(ns.len());
            }
            let len = ns.len();
            match nth_position(ns, k, n - 1) {
                Some(j) => {
                    assert(j < len);
                    Some(j + 1)
                },
                None => {
                    proof { lemma_count_nth(ns@, k, (n - 1) as int); }
                    None
                },
            }
        },
    }
}

/// When there are more than `n` nodes of a kind, the `n`-th exists.
proof fn lemma_count_nth(ns: Seq<Node>, k: u8, n: int)
    requires
        0 <= n < count_kind(ns, k),
    ensures
        nth_kind(ns, k, n) >= 0,
{
    assert(ns.skip(0) =~= ns);
    lemma_count_nth_from(ns, k, n, 0);
}

proof fn lemma_count_nth_from(ns: Seq<Node>, k: u8, n: int, i: int)
    requires
        0 <= i <= ns.len(),
        0 <= n < count_kind(ns.skip(i), k),
    ensures
        nth_kind_from(ns, k, n, i) >= 0,
    decreases ns.len() - i,
{
    if i == ns.len() {
        assert(ns.skip(i) =~= Seq::<Node>::empty());
    } else {
        lemma_count_first(ns.skip(i), k);
        assert(ns.skip(i).drop_first() =~= ns.skip(i + 1));
        assert(ns.skip(i)[0] == ns[i]);
        if node_is_kind(ns[i], k) {
            if n > 0 {
                lemma_count_nth_from(ns, k, n - 1, i + 1);
            }
        } else {
            lemma_count_nth_from(ns, k, n, i + 1);
        }
    }
}

/// Counting from the front: the first node, then the rest.
proof fn lemma_count_first(ns: Seq<Node>, k: u8)
    requires
        ns.len() > 0,
    ensures
        count_kind(ns, k) == count_kind(ns.drop_first(), k) + if node_is_kind(ns[0], k) { 1nat } else { 0nat },
    decreases ns.len(),
{
    if ns.len() > 1 {
        lemma_count_first(ns.drop_last(), k);
        assert(ns.drop_last().drop_first() =~= ns.drop_first().drop_last());
        assert(ns.drop_first().last() == ns.last());
    } else {
        assert(ns.drop_last() =~= Seq::<Node>::empty());
        assert(ns.drop_first() =~= Seq::<Node>::empty());
    }
}

pub(crate) proof fn lemma_kind_children_concat(a: Seq<Node>, b: Seq<Node>, k: u8)
    ensures
        kind_children(a + b, k) == kind_children(a, k) + kind_children(b, k),
    decreases b.len(),
{
    if b.len() == 0 {
        assert(a + b =~= a);
        assert(kind_children(a, k) + kind_children(b, k) =~= kind_children(a, k));
    } else {
        lemma_kind_children_concat(a, b.drop_last(), k);
        assert((a + b).drop_last() =~= a + b.drop_last());
        assert((a + b).last() == b.last());
        assert(kind_children(a + b, k) =~= kind_children(a, k) + kind_children(b, k));
    }
}

proof fn lemma_kind_children_single(n: Node, k: u8)
    ensures
        node_is_kind(n, k) ==> n is Element && kind_children(seq![n], k) == seq![n->Element_0],
        !node_is_kind(n, k) ==> kind_children(seq![n], k) == Seq::<Element>::empty(),
{
    let e = seq![n];
    assert(e.drop_last() =~= Seq::<Node>::empty());
    assert(kind_children(e.drop_last(), k) == Seq::<Element>::empty());
    assert(e.last() == n);
    assert(Seq::<Element>::empty().push(n->Element_0) =~= seq![n->Element_0]);
    if node_is_kind(n, k) {
        assert(n is Element);
    }
}

pub(crate) proof fn lemma_kind_children_len(ns: Seq<Node>, k: u8)
    ensures
        kind_children(ns, k).len() == count_kind(ns, k),
    decreases ns.len(),
{
    if ns.len() > 0 {
        lemma_kind_children_len(ns.drop_last(), k);
        lemma_kind_children_single(ns.last(), k);
    }
}

/// Before the `n`-th node of kind `k` from `i` on lie exactly `n` of them.
proof fn lemma_nth_kind_prefix(s: Seq<Node>, k: u8, n: int, i: int)
    requires
        0 <= i,
        nth_kind_from(s, k, n, i) >= 0,
    ensures
        kind_children(s.subrange(i, nth_kind_from(s, k, n, i)), k).len() == n,
    decreases s.len() - i,
{
    let j = nth_kind_from(s, k, n, i);
    lemma_nth_kind_from(s, k, n, i);
    lemma_kind_children_single(s[i], k);
    if node_is_kind(s[i], k) && n == 0 {
        assert(s.subrange(i, j) =~= Seq::<Node>::empty());
    } else {
        if node_is_kind(s[i], k) {
            lemma_nth_kind_prefix(s, k, n - 1, i + 1);
        } else {
            lemma_nth_kind_prefix(s, k, n, i + 1);
        }
        lemma_nth_kind_from(s, k, if node_is_kind(s[i], k) { n - 1 } else { n }, i + 1);
        assert(s.subrange(i, j) =~= seq![s[i]] + s.subrange(i + 1, j));
        lemma_kind_children_concat(seq![s[i]], s.subrange(i + 1, j), k);
    }
}

/// A node of kind `k` inserted at `pos` lands among the nodes of kind `k`
/// after those before `pos`.
pub(crate) proof fn lemma_kind_children_insert(s: Seq<Node>, pos: int, x: Node, k: u8)
    requires
        0 <= pos <= s.len(),
        node_is_kind(x, k),
    ensures
        kind_children(s.insert(pos, x), k) == kind_children(s, k).insert(
            kind_children(s.take(pos), k).len() as int,
            x->Element_0,
        ),
{
    let a = s.take(pos);
    let b = s.skip(pos);
    assert(s.insert(pos, x) =~= a + seq![x] + b);
    assert(s =~= a + b);
    lemma_kind_children_concat(a + seq![x], b, k);
    lemma_kind_children_concat(a, seq![x], k);
    lemma_kind_children_concat(a, b, k);
    lemma_kind_children_single(x, k);
    let ka = kind_children(a, k);
    let kb = kind_children(b, k);
    assert(ka + seq![x->Element_0] + kb =~= (ka + kb).insert(ka.len() as int, x->Element_0));
}

/// Taking out a node of kind `k` takes it out of the nodes of kind `k`, at
/// the count of those before it.
pub(crate) proof fn lemma_kind_children_remove(s: Seq<Node>, j: int, k: u8)
    requires
        0 <= j < s.len(),
        node_is_kind(s[j], k),
    ensures
        kind_children(s, k)[kind_children(s.take(j), k).len() as int] == s[j]->Element_0,
        kind_children(s.remove(j), k) == kind_children(s, k).remove(kind_children(s.take(j), k).len() as int),
{
    let a = s.take(j);
    let b = s.skip(j + 1);
    assert(s =~= a + seq![s[j]] + b);
    assert(s.remove(j) =~= a + b);
    lemma_kind_children_concat(a + seq![s[j]], b, k);
    lemma_kind_children_concat(a, seq![s[j]], k);
    lemma_kind_children_concat(a, b, k);
    lemma_kind_children_single(s[j], k);
    let ka = kind_children(a, k);
    let kb = kind_children(b, k);
    assert((ka + seq![s[j]->Element_0] + kb).remove(ka.len() as int) =~= ka + kb);
}

/// Before the `n`-th node of kind `k` lie exactly `n` of them.
pub(crate) proof fn lemma_nth_kind_count(s: Seq<Node>, k: u8, n: int)
    requires
        nth_kind(s, k, n) >= 0,
    ensures
        kind_children(s.take(nth_kind(s, k, n)), k).len() == n,
{
    lemma_nth_kind_prefix(s, k, n, 0);
    assert(s.subrange(0, nth_kind(s, k, n)) =~= s.take(nth_kind(s, k, n)));
}

fn new_br() -> (e: Element)
    ensures
        element_bytes(e) == br_bytes(),
        e.local() == /* br */ seq![98u8, 114u8],
{
    let name: [u8; 4] = /* a:br */ [97u8, 58u8, 98u8, 114u8];
    assert(name@ =~= /* a:br */ seq![97u8, 58u8, 98u8, 114u8]);
    let mut e = new_element(name.as_slice());
    e.self_closing = true;
    proof {
        assert(/* a:br */ seq![97u8, 58u8, 98u8, 114u8] =~= seq![97u8, 58u8] + /* br */ seq![98u8, 114u8]);
        lemma_local_of_prefixed(97u8, /* br */ seq![98u8, 114u8]);
        assert(e.attrs_v() =~= Seq::<(Seq<u8>, Seq<u8>)>::empty());
        assert(element_bytes(e) =~= br_bytes());
    }
    e
}

impl SlideDom {
    /// The paragraphs of the text body of autoshape `shape_idx` (the
    /// `shape_idx`-th `p:sp` of the shape tree).
    pub fn paragraphs(&self, shape_idx: usize) -> (r: Result<Vec<&Element>, OxmlError>)
        ensures
            match r {
                Ok(v) => text_body_path(self.document(), shape_idx as int) matches Some(p) && {
                    let ps = named_children(doc_at(self.document(), p).children@, /* p */ seq![112u8]);
                    &&& v@.len() == ps.len()
                    &&& forall|j: int| 0 <= j < v@.len() ==> *v@[j] == ps[j]
                },
                Err(e) => text_body_path(self.document(), shape_idx as int) is None && parse_error_is(
                    e,
                    text_body_error(self.document(), shape_idx as int),
                ),
            },
    {
        let p = match find_text_body_path(&self.doc, shape_idx) {
            Ok(p) => p,
            Err(e) => return Err(e),
        };
        let root = self.doc.root().unwrap();
        assert(p@.skip(0) =~= p@);
        let tx = element_at(root, &p, 0);
        let name: [u8; 1] = /* p */ [112u8];
        assert(name@ =~= /* p */ seq![112u8]);
        Ok(tx.children_named(name.as_slice()))
    }

    /// The runs and line breaks (`a:r`, `a:br`) of paragraph `para_idx` of
    /// autoshape `shape_idx`.
    pub fn runs(&self, shape_idx: usize, para_idx: usize) -> (r: Result<Vec<&Element>, OxmlError>)
        ensures
            match r {
                Ok(v) => paragraph_path(self.document(), shape_idx as int, para_idx as int) matches Some(p) && {
                    let rs = kind_children(doc_at(self.document(), p).children@, kind_run());
                    &&& v@.len() == rs.len()
                    &&& forall|j: int| 0 <= j < v@.len() ==> *v@[j] == rs[j]
                },
                Err(_) => paragraph_path(self.document(), shape_idx as int, para_idx as int) is None,
            },
    {
        let p = match find_paragraph_path(&self.doc, shape_idx, para_idx) {
            Ok(p) => p,
            Err(e) => return Err(e),
        };
        let root = self.doc.root().unwrap();
        assert(p@.skip(0) =~= p@);
        let para = element_at(root, &p, 0);
        Ok(kind_elements(&para.children, 1))
    }

    /// Append a paragraph holding one run of `text` to the text body of
    /// autoshape `shape_idx`. Fails, changing nothing, when there is no such
    /// shape or it has no text body.
    pub fn add_paragraph(&mut self, shape_idx: usize, text: &str) -> (r: Result<(), OxmlError>)
        ensures
            r is Ok <==> text_body_path(old(self).document(), shape_idx as int) is Some,
            r is Err ==> final(self).document() == old(self).document(),
            r is Ok ==> paragraph_added(old(self).document(), final(self).document(), shape_idx as int, text@),
    {
        let p = match find_text_body_path(&self.doc, shape_idx) {
            Ok(p) => p,
            Err(e) => return Err(e),
        };
        let para = make_paragraph(text, &None);
        let ghost old_tx = doc_at(self.doc, p@);
        let tx = self.doc.element_at_mut(&p).unwrap();
        tx.children.push(Node::Element(para));
        let ghost new_tx = *tx;
        proof {
            assert(new_tx.children@.drop_last() =~= old_tx.children@);
            assert(child_appended(old_tx, new_tx, para_bytes(text@, None)));
            assert(self.document() == self.doc);
            assert(old(self).document() == old(self).doc);
            assert(old_tx == doc_at(old(self).document(), text_body_path(old(self).document(), shape_idx as int).unwrap()));
            assert(holds_text(new_tx.children@.last(), text@));
            assert(is_named(new_tx.children@.last(), /* p */ seq![112u8]));
        }
        Ok(())
    }

    /// Insert a paragraph holding one run of `text` before paragraph
    /// `para_idx` of autoshape `shape_idx`. Fails, changing nothing, when the
    /// shape, its text body or that paragraph is missing.
    pub fn insert_paragraph(&mut self, shape_idx: usize, para_idx: usize, text: &str) -> (r: Result<(), OxmlError>)
        ensures
            r is Ok <==> paragraph_path(old(self).document(), shape_idx as int, para_idx as int) is Some,
            r is Err ==> final(self).document() == old(self).document(),
            r is Ok ==> {
                let p = text_body_path(old(self).document(), shape_idx as int).unwrap();
                let old_tx = doc_at(old(self).document(), p);
                let pos = nth_kind(old_tx.children@, kind_paragraph(), para_idx as int);
                exists|new_tx: Element| {
                    &&& doc_replaced(old(self).document(), final(self).document(), p, new_tx)
                    &&& #[trigger] child_inserted(old_tx, new_tx, pos, para_bytes(text@, None))
                    &&& holds_text(new_tx.children@[pos], text@)
                }
            },
    {
        let p = match find_text_body_path(&self.doc, shape_idx) {
            Ok(p) => p,
            Err(e) => return Err(e),
        };
        let root = self.doc.root().unwrap();
        assert(p@.skip(0) =~= p@);
        let pos = match nth_position(&element_at(root, &p, 0).children, 0, para_idx) {
            Some(i) => i,
            None => return Err(OxmlError::Parse(string_of("paragraph index out of range"))),
        };
        let para = make_paragraph(text, &None);
        let ghost old_tx = doc_at(self.doc, p@);
        let ghost node = Node::Element(para);
        let tx = self.doc.element_at_mut(&p).unwrap();
        tx.insert_child_at(pos, Node::Element(para));
        let ghost new_tx = *tx;
        proof {
            assert(new_tx.children@ == old_tx.children@.insert(pos as int, node));
            assert(new_tx.children@.take(pos as int) =~= old_tx.children@.take(pos as int));
            assert(new_tx.children@.skip(pos + 1) =~= old_tx.children@.skip(pos as int));
            assert(child_inserted(old_tx, new_tx, pos as int, para_bytes(text@, None)));
            assert(self.document() == self.doc);
            assert(old(self).document() == old(self).doc);
            assert(old_tx == doc_at(old(self).document(), text_body_path(old(self).document(), shape_idx as int).unwrap()));
            assert(holds_text(new_tx.children@[pos as int], text@));
        }
        Ok(())
    }

    /// Delete paragraph `para_idx` of autoshape `shape_idx`. Fails, changing
    /// nothing, when the shape, its text body or that paragraph is missing.
    pub fn delete_paragraph(&mut self, shape_idx: usize, para_idx: usize) -> (r: Result<(), OxmlError>)
        ensures
            r is Ok <==> paragraph_path(old(self).document(), shape_idx as int, para_idx as int) is Some,
            r is Err ==> final(self).document() == old(self).document(),
            r is Ok ==> {
                let p = text_body_path(old(self).document(), shape_idx as int).unwrap();
                let old_tx = doc_at(old(self).document(), p);
                let pos = nth_kind(old_tx.children@, kind_paragraph(), para_idx as int);
                exists|new_tx: Element| {
                    &&& doc_replaced(old(self).document(), final(self).document(), p, new_tx)
                    &&& #[trigger] child_removed(old_tx, new_tx, pos)
                }
            },
    {
        let p = match find_text_body_path(&self.doc, shape_idx) {
            Ok(p) => p,
            Err(e) => return Err(e),
        };
        let root = self.doc.root().unwrap();
        assert(p@.skip(0) =~= p@);
        let pos = match nth_position(&element_at(root, &p, 0).children, 0, para_idx) {
            Some(i) => i,
            None => return Err(OxmlError::Parse(string_of("paragraph index out of range"))),
        };
        let ghost old_tx = doc_at(self.doc, p@);
        let tx = self.doc.element_at_mut(&p).unwrap();
        let _ = tx.children.remove(pos);
        let ghost new_tx = *tx;
        proof {
            assert(child_removed(old_tx, new_tx, pos as int));
            assert(self.document() == self.doc);
            assert(old(self).document() == old(self).doc);
            assert(old_tx == doc_at(old(self).document(), text_body_path(old(self).document(), shape_idx as int).unwrap()));
        }
        Ok(())
    }

    /// Move paragraph `from_idx` of autoshape `shape_idx` to position
    /// `to_idx` among the remaining paragraphs (`to_idx` equal to their
    /// count puts it after the last). Fails, changing nothing, when the
    /// shape, its text body or paragraph `from_idx` is missing; when `to_idx`
    /// is beyond the remaining paragraphs it fails after the paragraph has
    /// been taken out.
    pub fn reorder_paragraph(&mut self, shape_idx: usize, from_idx: usize, to_idx: usize) -> (r: Result<(), OxmlError>)
        ensures
            paragraph_path(old(self).document(), shape_idx as int, from_idx as int) is None ==> r is Err
                && final(self).document() == old(self).document(),
            paragraph_path(old(self).document(), shape_idx as int, from_idx as int) is Some ==> {
                let p = text_body_path(old(self).document(), shape_idx as int).unwrap();
                let old_tx = doc_at(old(self).document(), p);
                let from = nth_kind(old_tx.children@, kind_paragraph(), from_idx as int);
                let mid = old_tx.children@.remove(from);
                let to = insert_pos_for(mid, kind_paragraph(), to_idx as int);
                &&& (r is Ok <==> to >= 0)
                &&& exists|new_tx: Element| {
                    &&& doc_replaced(old(self).document(), final(self).document(), p, new_tx)
                    &&& #[trigger] same_tags(old_tx, new_tx)
                    &&& new_tx.children@ == if to >= 0 { mid.insert(to, old_tx.children@[from]) } else { mid }
                }
            },
    {
        let p = match find_text_body_path(&self.doc, shape_idx) {
            Ok(p) => p,
            Err(e) => return Err(e),
        };
        let root = self.doc.root().unwrap();
        assert(p@.skip(0) =~= p@);
        let from = match nth_position(&element_at(root, &p, 0).children, 0, from_idx) {
            Some(i) => i,
            None => return Err(OxmlError::Parse(string_of("paragraph index out of range"))),
        };
        let ghost old_tx = doc_at(self.doc, p@);
        let tx = self.doc.element_at_mut(&p).unwrap();
        let node = tx.children.remove(from);
        let ghost mid = tx.children@;
        let r = match insert_position(&tx.children, 0, to_idx) {
            Some(to) => {
                tx.children.insert(to, node);
                Ok(())
            },
            None => Err(OxmlError::Parse(string_of("paragraph insert index out of range"))),
        };
        let ghost new_tx = *tx;
        proof {
            assert(same_tags(old_tx, new_tx));
            assert(self.document() == self.doc);
            assert(old(self).document() == old(self).doc);
            assert(old_tx == doc_at(old(self).document(), text_body_path(old(self).document(), shape_idx as int).unwrap()));
        }
        r
    }
}


/// `new_t` is `old_t` holding only `text`, escaped; a self-closing element
/// becomes an open/close pair.
pub open spec fn text_set(old_t: Element, new_t: Element, text: Seq<char>) -> bool {
    &&& new_t.children@.len() == 1
    &&& new_t.children@[0] is Raw
    &&& new_t.children@[0]->Raw_0@ == encode_utf8(escape_chars(text))
    &&& new_t.name == old_t.name
    &&& new_t.raw_start == old_t.raw_start
    &&& new_t.raw_end == old_t.raw_end
    &&& new_t.attrs == old_t.attrs
    &&& !new_t.self_closing
    &&& new_t.dirty == (old_t.dirty || old_t.self_closing)
}

impl SlideDom {
    /// Append a run of `text` (no properties) to paragraph `para_idx` of
    /// autoshape `shape_idx`. Fails, changing nothing, when the paragraph is
    /// missing.
    pub fn add_run(&mut self, shape_idx: usize, para_idx: usize, text: &str) -> (r: Result<(), OxmlError>)
        ensures
            r is Ok <==> paragraph_path(old(self).document(), shape_idx as int, para_idx as int) is Some,
            r is Err ==> final(self).document() == old(self).document(),
            r is Ok ==> {
                let p = paragraph_path(old(self).document(), shape_idx as int, para_idx as int).unwrap();
                exists|new_p: Element| {
                    &&& doc_replaced(old(self).document(), final(self).document(), p, new_p)
                    &&& #[trigger] child_appended(doc_at(old(self).document(), p), new_p, run_bytes(text@, None))
                }
            },
    {
        let p = match find_paragraph_path(&self.doc, shape_idx, para_idx) {
            Ok(p) => p,
            Err(e) => return Err(e),
        };
        let run = make_run(text, &None);
        let ghost old_p = doc_at(self.doc, p@);
        let para = self.doc.element_at_mut(&p).unwrap();
        para.children.push(Node::Element(run));
        let ghost new_p = *para;
        proof {
            assert(new_p.children@.drop_last() =~= old_p.children@);
            assert(child_appended(old_p, new_p, run_bytes(text@, None)));
            assert(self.document() == self.doc);
            assert(old(self).document() == old(self).doc);
            assert(old_p == doc_at(old(self).document(), paragraph_path(old(self).document(), shape_idx as int, para_idx as int).unwrap()));
        }
        Ok(())
    }

    /// Insert a run of `text` (no properties) before run `run_idx` (counting
    /// runs and line breaks) of paragraph `para_idx` of autoshape
    /// `shape_idx`. Fails, changing nothing, when the paragraph or that run
    /// is missing.
    pub fn insert_run(&mut self, shape_idx: usize, para_idx: usize, run_idx: usize, text: &str) -> (r: Result<(), OxmlError>)
        ensures
            r is Ok <==> (paragraph_path(old(self).document(), shape_idx as int, para_idx as int) matches Some(p)
                && nth_kind(doc_at(old(self).document(), p).children@, kind_run(), run_idx as int) >= 0),
            r is Err ==> final(self).document() == old(self).document(),
            r is Ok ==> {
                let p = paragraph_path(old(self).document(), shape_idx as int, para_idx as int).unwrap();
                let old_p = doc_at(old(self).document(), p);
                let pos = nth_kind(old_p.children@, kind_run(), run_idx as int);
                exists|new_p: Element| {
                    &&& doc_replaced(old(self).document(), final(self).document(), p, new_p)
                    &&& #[trigger] child_inserted(old_p, new_p, pos, run_bytes(text@, None))
                }
            },
    {
        let p = match find_paragraph_path(&self.doc, shape_idx, para_idx) {
            Ok(p) => p,
            Err(e) => return Err(e),
        };
        let root = self.doc.root().unwrap();
        assert(p@.skip(0) =~= p@);
        let pos = match nth_position(&element_at(root, &p, 0).children, 1, run_idx) {
            Some(i) => i,
            None => return Err(OxmlError::Parse(string_of("run index out of range"))),
        };
        let run = make_run(text, &None);
        let ghost old_p = doc_at(self.doc, p@);
        let ghost node = Node::Element(run);
        let para = self.doc.element_at_mut(&p).unwrap();
        para.insert_child_at(pos, Node::Element(run));
        let ghost new_p = *para;
        proof {
            assert(new_p.children@ == old_p.children@.insert(pos as int, node));
            assert(new_p.children@.take(pos as int) =~= old_p.children@.take(pos as int));
            assert(new_p.children@.skip(pos + 1) =~= old_p.children@.skip(pos as int));
            assert(child_inserted(old_p, new_p, pos as int, run_bytes(text@, None)));
            assert(self.document() == self.doc);
            assert(old(self).document() == old(self).doc);
            assert(old_p == doc_at(old(self).document(), paragraph_path(old(self).document(), shape_idx as int, para_idx as int).unwrap()));
        }
        Ok(())
    }

    /// Delete run `run_idx` (counting runs and line breaks) of paragraph
    /// `para_idx` of autoshape `shape_idx`. Fails, changing nothing, when the
    /// paragraph or that run is missing.
    pub fn delete_run(&mut self, shape_idx: usize, para_idx: usize, run_idx: usize) -> (r: Result<(), OxmlError>)
        ensures
            r is Ok <==> (paragraph_path(old(self).document(), shape_idx as int, para_idx as int) matches Some(p)
                && nth_kind(doc_at(old(self).document(), p).children@, kind_run(), run_idx as int) >= 0),
            r is Err ==> final(self).document() == old(self).document(),
            r is Ok ==> {
                let p = paragraph_path(old(self).document(), shape_idx as int, para_idx as int).unwrap();
                let old_p = doc_at(old(self).document(), p);
                let pos = nth_kind(old_p.children@, kind_run(), run_idx as int);
                exists|new_p: Element| {
                    &&& doc_replaced(old(self).document(), final(self).document(), p, new_p)
                    &&& #[trigger] child_removed(old_p, new_p, pos)
                }
            },
    {
        let p = match find_paragraph_path(&self.doc, shape_idx, para_idx) {
            Ok(p) => p,
            Err(e) => return Err(e),
        };
        let root = self.doc.root().unwrap();
        assert(p@.skip(0) =~= p@);
        let pos = match nth_position(&element_at(root, &p, 0).children, 1, run_idx) {
            Some(i) => i,
            None => return Err(OxmlError::Parse(string_of("run index out of range"))),
        };
        let ghost old_p = doc_at(self.doc, p@);
        let para = self.doc.element_at_mut(&p).unwrap();
        let _ = para.children.remove(pos);
        let ghost new_p = *para;
        proof {
            assert(child_removed(old_p, new_p, pos as int));
            assert(self.document() == self.doc);
            assert(old(self).document() == old(self).doc);
            assert(old_p == doc_at(old(self).document(), paragraph_path(old(self).document(), shape_idx as int, para_idx as int).unwrap()));
        }
        Ok(())
    }

    /// Replace the text of run `run_idx` of paragraph `para_idx` of autoshape
    /// `shape_idx`: its first `a:t` then holds exactly `text`; the run's
    /// properties and every other node are kept. Fails, changing nothing,
    /// when the paragraph or run is missing, the run is a line break, or it
    /// has no `a:t`.
    pub fn edit_run_text(&mut self, shape_idx: usize, para_idx: usize, run_idx: usize, new_text: &str) -> (r: Result<(), OxmlError>)
        ensures
            r is Ok <==> (paragraph_path(old(self).document(), shape_idx as int, para_idx as int) matches Some(p) && {
                let ps = doc_at(old(self).document(), p).children@;
                let pos = nth_kind(ps, kind_run(), run_idx as int);
                pos >= 0 && is_named(ps[pos], /* r */ seq![114u8]) && first_named_index(ps[pos]->Element_0.children@, /* t */ seq![116u8]) >= 0
            }),
            r is Err ==> final(self).document() == old(self).document(),
            r is Ok ==> {
                let p = paragraph_path(old(self).document(), shape_idx as int, para_idx as int).unwrap();
                let ps = doc_at(old(self).document(), p).children@;
                let pos = nth_kind(ps, kind_run(), run_idx as int);
                let ti = first_named_index(ps[pos]->Element_0.children@, /* t */ seq![116u8]);
                let tp = p.push(pos as usize).push(ti as usize);
                exists|new_t: Element| {
                    &&& doc_replaced(old(self).document(), final(self).document(), tp, new_t)
                    &&& #[trigger] text_set(doc_at(old(self).document(), tp), new_t, new_text@)
                }
            },
    {
        let mut p = match find_paragraph_path(&self.doc, shape_idx, para_idx) {
            Ok(p) => p,
            Err(e) => return Err(e),
        };
        let root = self.doc.root().unwrap();
        assert(p@.skip(0) =~= p@);
        let para = element_at(root, &p, 0);
        let pos = match nth_position(&para.children, 1, run_idx) {
            Some(i) => i,
            None => return Err(OxmlError::Parse(string_of("run index out of range"))),
        };
        let r_name: [u8; 1] = /* r */ [114u8];
        assert(r_name@ =~= /* r */ seq![114u8]);
        let t_name: [u8; 1] = /* t */ [116u8];
        assert(t_name@ =~= /* t */ seq![116u8]);
        let run = match &para.children[pos] {
            Node::Element(e) => e,
            Node::Raw(_) => return Err(OxmlError::Parse(string_of("run index out of range"))),
        };
        if !run.is_named(r_name.as_slice()) {
            return Err(OxmlError::Parse(string_of("element at that run index is not a run")));
        }
        let ti = match first_named_position(&run.children, t_name.as_slice()) {
            Some(i) => i,
            None => return Err(OxmlError::Parse(string_of("run has no text element"))),
        };
        proof {
            lemma_path_push(*root, p@, pos);
            lemma_first_named_index(run.children@, /* t */ seq![116u8]);
            lemma_path_push(*root, p@.push(pos), ti);
        }
        let ghost pp = p@;
        p.push(pos);
        p.push(ti);
        assert(p@ == pp.push(pos).push(ti));
        let ghost old_t = doc_at(self.doc, p@);
        let t = self.doc.element_at_mut(&p).unwrap();
        t.set_text_content(new_text);
        let ghost new_t = *t;
        proof {
            assert(text_set(old_t, new_t, new_text@));
            assert(self.document() == self.doc);
            assert(old(self).document() == old(self).doc);
            let pth = paragraph_path(old(self).document(), shape_idx as int, para_idx as int).unwrap();
            assert(pth == pp);
            let ps = doc_at(old(self).document(), pth).children@;
            assert(ps == para.children@);
            assert(nth_kind(ps, kind_run(), run_idx as int) == pos);
            assert(first_named_index(ps[pos as int]->Element_0.children@, /* t */ seq![116u8]) == ti);
            let pos_s = nth_kind(ps, kind_run(), run_idx as int);
            let ti_s = first_named_index(ps[pos_s]->Element_0.children@, /* t */ seq![116u8]);
            assert(pos_s as usize == pos);
            assert(ti_s as usize == ti);
            let tp_s = pth.push(pos_s as usize).push(ti_s as usize);
            assert(tp_s == p@);
            assert(old_t == doc_at(old(self).document(), tp_s));
            assert(doc_replaced(old(self).document(), self.document(), tp_s, new_t));
        }
        Ok(())
    }

    /// Append a line break (`<a:br/>`) to paragraph `para_idx` of autoshape
    /// `shape_idx`. Fails, changing nothing, when the paragraph is missing.
    pub fn add_line_break(&mut self, shape_idx: usize, para_idx: usize) -> (r: Result<(), OxmlError>)
        ensures
            r is Ok <==> paragraph_path(old(self).document(), shape_idx as int, para_idx as int) is Some,
            r is Err ==> final(self).document() == old(self).document(),
            r is Ok ==> {
                let p = paragraph_path(old(self).document(), shape_idx as int, para_idx as int).unwrap();
                exists|new_p: Element| {
                    &&& doc_replaced(old(self).document(), final(self).document(), p, new_p)
                    &&& #[trigger] child_appended(doc_at(old(self).document(), p), new_p, br_bytes())
                }
            },
    {
        let p = match find_paragraph_path(&self.doc, shape_idx, para_idx) {
            Ok(p) => p,
            Err(e) => return Err(e),
        };
        let br = new_br();
        let ghost old_p = doc_at(self.doc, p@);
        let para = self.doc.element_at_mut(&p).unwrap();
        para.children.push(Node::Element(br));
        let ghost new_p = *para;
        proof {
            assert(new_p.children@.drop_last() =~= old_p.children@);
            assert(child_appended(old_p, new_p, br_bytes()));
            assert(self.document() == self.doc);
            assert(old(self).document() == old(self).doc);
            assert(old_p == doc_at(old(self).document(), paragraph_path(old(self).document(), shape_idx as int, para_idx as int).unwrap()));
        }
        Ok(())
    }

    /// Insert a line break (`<a:br/>`) before run `run_idx` (counting runs and
    /// line breaks) of paragraph `para_idx` of autoshape `shape_idx`. Fails,
    /// changing nothing, when the paragraph or that run is missing.
    pub fn insert_line_break(&mut self, shape_idx: usize, para_idx: usize, run_idx: usize) -> (r: Result<(), OxmlError>)
        ensures
            r is Ok <==> (paragraph_path(old(self).document(), shape_idx as int, para_idx as int) matches Some(p)
                && nth_kind(doc_at(old(self).document(), p).children@, kind_run(), run_idx as int) >= 0),
            r is Err ==> final(self).document() == old(self).document(),
            r is Ok ==> {
                let p = paragraph_path(old(self).document(), shape_idx as int, para_idx as int).unwrap();
                let old_p = doc_at(old(self).document(), p);
                let pos = nth_kind(old_p.children@, kind_run(), run_idx as int);
                exists|new_p: Element| {
                    &&& doc_replaced(old(self).document(), final(self).document(), p, new_p)
                    &&& #[trigger] child_inserted(old_p, new_p, pos, br_bytes())
                }
            },
    {
        let p = match find_paragraph_path(&self.doc, shape_idx, para_idx) {
            Ok(p) => p,
            Err(e) => return Err(e),
        };
        let root = self.doc.root().unwrap();
        assert(p@.skip(0) =~= p@);
        let pos = match nth_position(&element_at(root, &p, 0).children, 1, run_idx) {
            Some(i) => i,
            None => return Err(OxmlError::Parse(string_of("run index out of range"))),
        };
        let br = new_br();
        let ghost old_p = doc_at(self.doc, p@);
        let ghost node = Node::Element(br);
        let para = self.doc.element_at_mut(&p).unwrap();
        para.insert_child_at(pos, Node::Element(br));
        let ghost new_p = *para;
        proof {
            assert(new_p.children@ == old_p.children@.insert(pos as int, node));
            assert(new_p.children@.take(pos as int) =~= old_p.children@.take(pos as int));
            assert(new_p.children@.skip(pos + 1) =~= old_p.children@.skip(pos as int));
            assert(child_inserted(old_p, new_p, pos as int, br_bytes()));
            assert(self.document() == self.doc);
            assert(old(self).document() == old(self).doc);
            assert(old_p == doc_at(old(self).document(), paragraph_path(old(self).document(), shape_idx as int, para_idx as int).unwrap()));
        }
        Ok(())
    }
}


// ─── Paragraph properties ───────────────────────────────────────────────────

/// Index of a paragraph's properties element (its first `pPr`), or -1.
pub open spec fn ppr_index(p: Element) -> int {
    first_named_index(p.children@, /* pPr */ seq![112u8, 80u8, 114u8])
}

/// Index the properties element has after it is ensured: where it was, or
/// first when a fresh one is put in.
pub open spec fn ppr_slot(p: Element) -> int {
    if ppr_index(p) >= 0 {
        ppr_index(p)
    } else {
        0
    }
}

/// `new_p` is `old_p` whose properties element was replaced (or, when it had
/// none, one was put first); nothing else changed.
pub open spec fn ppr_replaced(old_p: Element, new_p: Element) -> bool {
    let i = ppr_slot(old_p);
    &&& same_tags(old_p, new_p)
    &&& new_p.children@.len() > i
    &&& new_p.children@[i] is Element
    &&& new_p.children@ == if ppr_index(old_p) >= 0 {
        old_p.children@.update(i, new_p.children@[i])
    } else {
        old_p.children@.insert(0, new_p.children@[0])
    }
}

/// The properties element of `new_p` after the edit.
pub open spec fn ppr_after(old_p: Element, new_p: Element) -> Element {
    new_p.children@[ppr_slot(old_p)]->Element_0
}

/// `new` is the properties element `old_p` had (or a fresh self-closing
/// `a:pPr`) with its attributes, flags and children changed as stated: the
/// attributes become `attrs` applied to the old ones, the children become
/// `children`, and the element is written from its name and attributes.
pub open spec fn ppr_base_attrs(old_p: Element) -> Seq<(Seq<u8>, Seq<u8>)> {
    if ppr_index(old_p) >= 0 {
        old_p.children@[ppr_index(old_p)]->Element_0.attrs_v()
    } else {
        Seq::empty()
    }
}

/// The children the properties element had (none for a fresh one).
pub open spec fn ppr_base_children(old_p: Element) -> Seq<Node> {
    if ppr_index(old_p) >= 0 {
        old_p.children@[ppr_index(old_p)]->Element_0.children@
    } else {
        Seq::empty()
    }
}

/// Whether the properties element was written self-closing (a fresh one is).
pub open spec fn ppr_base_self_closing(old_p: Element) -> bool {
    ppr_index(old_p) < 0 || old_p.children@[ppr_index(old_p)]->Element_0.self_closing
}

/// The name of the properties element (`a:pPr` for a fresh one).
pub open spec fn ppr_base_name(old_p: Element) -> Seq<u8> {
    if ppr_index(old_p) >= 0 {
        old_p.children@[ppr_index(old_p)]->Element_0.name@
    } else {
        /* a:pPr */ seq![97u8, 58u8, 112u8, 80u8, 114u8]
    }
}

/// The paragraph's properties with attribute `name` set to `value`.
pub open spec fn ppr_attr_set(old_p: Element, new_p: Element, name: Seq<u8>, value: Seq<u8>) -> bool {
    let q = ppr_after(old_p, new_p);
    &&& ppr_replaced(old_p, new_p)
    &&& q.attrs_v() == set_attr_spec(ppr_base_attrs(old_p), name, value)
    &&& q.children@ == ppr_base_children(old_p)
    &&& q.self_closing == ppr_base_self_closing(old_p)
    &&& q.name@ == ppr_base_name(old_p)
    &&& q.dirty
}

/// The children of `ns` other than elements named `a`, `b` or `c`, in order.
pub open spec fn without_names(ns: Seq<Node>, a: Seq<u8>, b: Seq<u8>, c: Seq<u8>) -> Seq<Node>
    decreases ns.len(),
{
    if ns.len() == 0 {
        Seq::empty()
    } else {
        let r = without_names(ns.drop_last(), a, b, c);
        if is_named(ns.last(), a) || is_named(ns.last(), b) || is_named(ns.last(), c) {
            r
        } else {
            r.push(ns.last())
        }
    }
}

/// Whether the properties element was marked for regeneration (a fresh one
/// is).
pub open spec fn ppr_base_dirty(old_p: Element) -> bool {
    ppr_index(old_p) < 0 || old_p.children@[ppr_index(old_p)]->Element_0.dirty
}

/// The original start and end tag bytes of the properties element (none for
/// a fresh one).
pub open spec fn ppr_base_raw(old_p: Element) -> (Seq<u8>, Seq<u8>) {
    if ppr_index(old_p) >= 0 {
        (old_p.children@[ppr_index(old_p)]->Element_0.raw_start@, old_p.children@[ppr_index(old_p)]->Element_0.raw_end@)
    } else {
        (Seq::empty(), Seq::empty())
    }
}

/// The paragraph's properties with the children named `a`, `b`, `c`
/// removed and then a child written as `child_bytes`, named `child_local`,
/// inserted in schema order; the properties element is then written with an
/// open and a close tag.
pub open spec fn ppr_child_set(old_p: Element, new_p: Element, a: Seq<u8>, b: Seq<u8>, c: Seq<u8>, child_bytes: Seq<u8>, child_local: Seq<u8>) -> bool {
    let q = ppr_after(old_p, new_p);
    let kept = without_names(ppr_base_children(old_p), a, b, c);
    &&& ppr_replaced(old_p, new_p)
    &&& q.attrs_v() == ppr_base_attrs(old_p)
    &&& q.name@ == ppr_base_name(old_p)
    &&& (q.raw_start@, q.raw_end@) == ppr_base_raw(old_p)
    &&& !q.self_closing
    &&& q.dirty == (ppr_base_dirty(old_p) || ppr_base_self_closing(old_p))
    &&& exists|n: Node| {
        &&& #[trigger] node_bytes(n) == child_bytes
        &&& n matches Node::Element(ne) && ne.local() == child_local
        &&& q.children@ == kept.insert(ordered_position(local_of(ppr_base_name(old_p)), kept, n), n)
    }
}

fn drop_children_named(e: &mut Element, a: &[u8], b: &[u8], c: &[u8])
    ensures
        same_tags(*old(e), *final(e)),
        final(e).children@ == without_names(old(e).children@, a@, b@, c@),
{
    let mut all: Vec<Node> = Vec::new();
    std::mem::swap(&mut all, &mut e.children);
    let ghost orig = all@;
    let mut kept: Vec<Node> = Vec::new();
    let ghost mut k: int = 0;
    assert(orig.skip(0) =~= orig);
    while all.len() > 0
        invariant
            0 <= k <= orig.len(),
            k + all@.len() == orig.len(),
            all@ == orig.skip(k),
            kept@ == without_names(orig.take(k), a@, b@, c@),
        decreases all@.len(),
    {
        let n = all.remove(0);
        proof {
            assert(n == orig[k]);
            assert(orig.take(k + 1).drop_last() =~= orig.take(k));
            assert(orig.take(k + 1).last() == n);
            assert(orig.skip(k + 1) =~= all@);
        }
        let drop = match &n {
            Node::Element(x) => x.is_named(a) || x.is_named(b) || x.is_named(c),
            Node::Raw(_) => false,
        };
        if !drop {
            kept.push(n);
        }
        proof { k = k + 1; }
    }
    assert(orig.take(orig.len() as int) =~= orig);
    e.children = kept;
}

/// A fresh self-closing element with one attribute.
fn fresh_leaf(name: &[u8], key: &[u8], value: &[u8]) -> (e: Element)
    ensures
        e.name@ == name@,
        e.self_closing,
        e.dirty,
        e.attrs_v() == seq![(key@, value@)],
        e.children@.len() == 0,
        element_bytes(e) == /* < */ seq![60u8] + name@ + /*   */ seq![32u8] + key@ + /* =\" */ seq![61u8, 34u8] + value@ + /* \"/> */ seq![34u8, 47u8, 62u8],
{
    let mut e = new_element(name);
    e.self_closing = true;
    e.set_attr(key, value);
    proof {
        assert(set_attr_spec(Seq::<(Seq<u8>, Seq<u8>)>::empty(), key@, value@) =~= seq![(key@, value@)]);
        reveal_with_fuel(crate::xml::attrs_bytes, 2);
        assert(seq![(key@, value@)].drop_last() =~= Seq::<(Seq<u8>, Seq<u8>)>::empty());
        assert(element_bytes(e) =~= /* < */ seq![60u8] + name@ + /*   */ seq![32u8] + key@ + /* =\" */ seq![61u8, 34u8] + value@ + /* \"/> */ seq![34u8, 47u8, 62u8]);
    }
    e
}

proof fn lemma_insert_update(s: Seq<Node>)
    ensures
        forall|a: Node, b: Node| #[trigger] s.insert(0, a).update(0, b) == s.insert(0, b),
{
    assert forall|a: Node, b: Node| #[trigger] s.insert(0, a).update(0, b) == s.insert(0, b) by {
        assert(s.insert(0, a).update(0, b) =~= s.insert(0, b));
    }
}

/// Mutable access to a paragraph's properties element, putting a fresh
/// self-closing `a:pPr` first when it has none.
fn ppr_mut(para: &mut Element) -> (r: &mut Element)
    ensures
        ppr_replaced(*old(para), *final(para)),
        ppr_after(*old(para), *final(para)) == *final(r),
        r.attrs_v() == ppr_base_attrs(*old(para)),
        r.children@ == ppr_base_children(*old(para)),
        r.self_closing == ppr_base_self_closing(*old(para)),
        r.name@ == ppr_base_name(*old(para)),
        r.local() == /* pPr */ seq![112u8, 80u8, 114u8],
        r.dirty == ppr_base_dirty(*old(para)),
        (r.raw_start@, r.raw_end@) == ppr_base_raw(*old(para)),
{
    let name: [u8; 3] = /* pPr */ [112u8, 80u8, 114u8];
    assert(name@ =~= /* pPr */ seq![112u8, 80u8, 114u8]);
    proof { lemma_first_named_index(para.children@, /* pPr */ seq![112u8, 80u8, 114u8]); }
    match first_named_position(&para.children, name.as_slice()) {
        Some(i) => node_element_mut(&mut para.children, i).unwrap(),
        None => {
            let q: [u8; 5] = /* a:pPr */ [97u8, 58u8, 112u8, 80u8, 114u8];
            assert(q@ =~= /* a:pPr */ seq![97u8, 58u8, 112u8, 80u8, 114u8]);
            let mut e = new_element(q.as_slice());
            e.self_closing = true;
            proof {
                assert(/* a:pPr */ seq![97u8, 58u8, 112u8, 80u8, 114u8] =~= seq![97u8, 58u8] + /* pPr */ seq![112u8, 80u8, 114u8]);
                lemma_local_of_prefixed(97u8, /* pPr */ seq![112u8, 80u8, 114u8]);
                assert(e.attrs_v() =~= Seq::<(Seq<u8>, Seq<u8>)>::empty());
                assert(e.children@ =~= Seq::<Node>::empty());
                assert(e.raw_start@ =~= Seq::<u8>::empty());
                assert(e.raw_end@ =~= Seq::<u8>::empty());
            }
            proof { lemma_insert_update(para.children@); }
            para.children.insert(0, Node::Element(e));
            node_element_mut(&mut para.children, 0).unwrap()
        },
    }
}


/// The bytes of a spacing element `q` holding one `a:spcPts` or `a:spcPct`.
pub open spec fn spacing_bytes(q: Seq<u8>, v: SpacingValue) -> Seq<u8> {
    let (kind, n) = match v {
        SpacingValue::Points(n) => (/* a:spcPts */ seq![97u8, 58u8, 115u8, 112u8, 99u8, 80u8, 116u8, 115u8], n),
        SpacingValue::Percent(n) => (/* a:spcPct */ seq![97u8, 58u8, 115u8, 112u8, 99u8, 80u8, 99u8, 116u8], n),
    };
    /* < */ seq![60u8] + q + /* >< */ seq![62u8, 60u8] + kind + /*  val=\" */ seq![32u8, 118u8, 97u8, 108u8, 61u8, 34u8] + encode_utf8(dec_nat(n as nat)) + /* \"/></ */ seq![34u8, 47u8, 62u8, 60u8, 47u8] + q + /* > */ seq![62u8]
}

/// The bytes of a bullet element.
pub open spec fn bullet_bytes(b: BulletKind) -> Seq<u8> {
    match b {
        BulletKind::NoBullet => /* <a:buNone/> */ seq![60u8, 97u8, 58u8, 98u8, 117u8, 78u8, 111u8, 110u8, 101u8, 47u8, 62u8],
        BulletKind::Char(c) => /* <a:buChar char=\" */ seq![60u8, 97u8, 58u8, 98u8, 117u8, 67u8, 104u8, 97u8, 114u8, 32u8, 99u8, 104u8, 97u8, 114u8, 61u8, 34u8] + encode_utf8(c@) + /* \"/> */ seq![34u8, 47u8, 62u8],
        BulletKind::AutoNum(t) => /* <a:buAutoNum type=\" */ seq![60u8, 97u8, 58u8, 98u8, 117u8, 65u8, 117u8, 116u8, 111u8, 78u8, 117u8, 109u8, 32u8, 116u8, 121u8, 112u8, 101u8, 61u8, 34u8] + encode_utf8(t@) + /* \"/> */ seq![34u8, 47u8, 62u8],
    }
}

/// The local name of a bullet element.
pub open spec fn bullet_local(b: BulletKind) -> Seq<u8> {
    match b {
        BulletKind::NoBullet => /* buNone */ seq![98u8, 117u8, 78u8, 111u8, 110u8, 101u8],
        BulletKind::Char(_) => /* buChar */ seq![98u8, 117u8, 67u8, 104u8, 97u8, 114u8],
        BulletKind::AutoNum(_) => /* buAutoNum */ seq![98u8, 117u8, 65u8, 117u8, 116u8, 111u8, 78u8, 117u8, 109u8],
    }
}

fn spacing_element(q: &[u8], value: SpacingValue) -> (e: Element)
    requires
        q@.len() >= 2,
        q@[0] == 97u8,
        q@[1] == 58u8,
    ensures
        element_bytes(e) == spacing_bytes(q@, value),
        e.local() == q@.skip(2),
{
    let mut w = new_element(q);
    let (pts, n) = match value {
        SpacingValue::Points(n) => (true, n),
        SpacingValue::Percent(n) => (false, n),
    };
    let kind_pts: [u8; 8] = /* a:spcPts */ [97u8, 58u8, 115u8, 112u8, 99u8, 80u8, 116u8, 115u8];
    let kind_pct: [u8; 8] = /* a:spcPct */ [97u8, 58u8, 115u8, 112u8, 99u8, 80u8, 99u8, 116u8];
    let val: [u8; 3] = /* val */ [118u8, 97u8, 108u8];
    assert(kind_pts@ =~= /* a:spcPts */ seq![97u8, 58u8, 115u8, 112u8, 99u8, 80u8, 116u8, 115u8]);
    assert(kind_pct@ =~= /* a:spcPct */ seq![97u8, 58u8, 115u8, 112u8, 99u8, 80u8, 99u8, 116u8]);
    assert(val@ =~= /* val */ seq![118u8, 97u8, 108u8]);
    let digits = dec_u64(n as u64);
    let child = if pts {
        fresh_leaf(kind_pts.as_slice(), val.as_slice(), digits.as_str().as_bytes())
    } else {
        fresh_leaf(kind_pct.as_slice(), val.as_slice(), digits.as_str().as_bytes())
    };
    let ghost empty = w.children@;
    w.children.push(Node::Element(child));
    proof {
        assert(empty =~= Seq::<Node>::empty());
        crate::xml::lemma_nodes_bytes_push(empty, Node::Element(child));
        assert(w.attrs_v() =~= Seq::<(Seq<u8>, Seq<u8>)>::empty());
        assert(element_bytes(w) =~= spacing_bytes(q@, value));
        assert(q@ =~= seq![97u8, 58u8] + q@.skip(2));
        lemma_local_of_prefixed(97u8, q@.skip(2));
    }
    w
}

fn bullet_element(b: &BulletKind) -> (e: Element)
    ensures
        element_bytes(e) == bullet_bytes(*b),
        e.local() == bullet_local(*b),
{
    match b {
        BulletKind::NoBullet => {
            let name: [u8; 8] = /* a:buNone */ [97u8, 58u8, 98u8, 117u8, 78u8, 111u8, 110u8, 101u8];
            assert(name@ =~= /* a:buNone */ seq![97u8, 58u8, 98u8, 117u8, 78u8, 111u8, 110u8, 101u8]);
            let mut e = new_element(name.as_slice());
            e.self_closing = true;
            proof {
                assert(/* a:buNone */ seq![97u8, 58u8, 98u8, 117u8, 78u8, 111u8, 110u8, 101u8] =~= seq![97u8, 58u8] + /* buNone */ seq![98u8, 117u8, 78u8, 111u8, 110u8, 101u8]);
                lemma_local_of_prefixed(97u8, /* buNone */ seq![98u8, 117u8, 78u8, 111u8, 110u8, 101u8]);
                assert(e.attrs_v() =~= Seq::<(Seq<u8>, Seq<u8>)>::empty());
                assert(element_bytes(e) =~= bullet_bytes(*b));
            }
            e
        },
        BulletKind::Char(c) => {
            let name: [u8; 8] = /* a:buChar */ [97u8, 58u8, 98u8, 117u8, 67u8, 104u8, 97u8, 114u8];
            let key: [u8; 4] = /* char */ [99u8, 104u8, 97u8, 114u8];
            assert(name@ =~= /* a:buChar */ seq![97u8, 58u8, 98u8, 117u8, 67u8, 104u8, 97u8, 114u8]);
            assert(key@ =~= /* char */ seq![99u8, 104u8, 97u8, 114u8]);
            let e = fresh_leaf(name.as_slice(), key.as_slice(), c.as_str().as_bytes());
            proof {
                assert(/* a:buChar */ seq![97u8, 58u8, 98u8, 117u8, 67u8, 104u8, 97u8, 114u8] =~= seq![97u8, 58u8] + /* buChar */ seq![98u8, 117u8, 67u8, 104u8, 97u8, 114u8]);
                lemma_local_of_prefixed(97u8, /* buChar */ seq![98u8, 117u8, 67u8, 104u8, 97u8, 114u8]);
                assert(element_bytes(e) =~= bullet_bytes(*b));
            }
            e
        },
        BulletKind::AutoNum(t) => {
            let name: [u8; 11] = /* a:buAutoNum */ [97u8, 58u8, 98u8, 117u8, 65u8, 117u8, 116u8, 111u8, 78u8, 117u8, 109u8];
            let key: [u8; 4] = /* type */ [116u8, 121u8, 112u8, 101u8];
            assert(name@ =~= /* a:buAutoNum */ seq![97u8, 58u8, 98u8, 117u8, 65u8, 117u8, 116u8, 111u8, 78u8, 117u8, 109u8]);
            assert(key@ =~= /* type */ seq![116u8, 121u8, 112u8, 101u8]);
            let e = fresh_leaf(name.as_slice(), key.as_slice(), t.as_str().as_bytes());
            proof {
                assert(/* a:buAutoNum */ seq![97u8, 58u8, 98u8, 117u8, 65u8, 117u8, 116u8, 111u8, 78u8, 117u8, 109u8] =~= seq![97u8, 58u8] + /* buAutoNum */ seq![98u8, 117u8, 65u8, 117u8, 116u8, 111u8, 78u8, 117u8, 109u8]);
                lemma_local_of_prefixed(97u8, /* buAutoNum */ seq![98u8, 117u8, 65u8, 117u8, 116u8, 111u8, 78u8, 117u8, 109u8]);
                assert(element_bytes(e) =~= bullet_bytes(*b));
            }
            e
        },
    }
}

impl SlideDom {
    /// Set attribute `name` of the properties of paragraph `para_idx` of
    /// autoshape `shape_idx` (creating a self-closing `a:pPr` first when
    /// absent).
    fn edit_ppr_attr(&mut self, shape_idx: usize, para_idx: usize, name: &[u8], value: &[u8]) -> (r: Result<(), OxmlError>)
        ensures
            r is Ok <==> paragraph_path(old(self).document(), shape_idx as int, para_idx as int) is Some,
            r is Err ==> final(self).document() == old(self).document(),
            r is Ok ==> {
                let p = paragraph_path(old(self).document(), shape_idx as int, para_idx as int).unwrap();
                exists|new_p: Element| {
                    &&& #[trigger] doc_replaced(old(self).document(), final(self).document(), p, new_p)
                    &&& ppr_attr_set(doc_at(old(self).document(), p), new_p, name@, value@)
                }
            },
    {
        let p = match find_paragraph_path(&self.doc, shape_idx, para_idx) {
            Ok(p) => p,
            Err(e) => return Err(e),
        };
        let ghost old_p = doc_at(self.doc, p@);
        let para = self.doc.element_at_mut(&p).unwrap();
        let ppr = ppr_mut(para);
        ppr.set_attr(name, value);
        let ghost new_p = *para;
        proof {
            assert(ppr_attr_set(old_p, new_p, name@, value@));
            assert(self.document() == self.doc);
            assert(old(self).document() == old(self).doc);
            assert(doc_replaced(old(self).document(), self.document(), p@, new_p));
            assert(old_p == doc_at(old(self).document(), paragraph_path(old(self).document(), shape_idx as int, para_idx as int).unwrap()));
        }
        Ok(())
    }

    /// Remove the children named `a`, `b`, `c` of the properties of paragraph
    /// `para_idx` of autoshape `shape_idx`, then insert `child` in schema
    /// order.
    fn edit_ppr_child(&mut self, shape_idx: usize, para_idx: usize, a: &[u8], b: &[u8], c: &[u8], child: Element) -> (r: Result<(), OxmlError>)
        ensures
            r is Ok <==> paragraph_path(old(self).document(), shape_idx as int, para_idx as int) is Some,
            r is Err ==> final(self).document() == old(self).document(),
            r is Ok ==> {
                let p = paragraph_path(old(self).document(), shape_idx as int, para_idx as int).unwrap();
                exists|new_p: Element| {
                    &&& #[trigger] doc_replaced(old(self).document(), final(self).document(), p, new_p)
                    &&& ppr_child_set(doc_at(old(self).document(), p), new_p, a@, b@, c@, element_bytes(child), child.local())
                }
            },
    {
        let p = match find_paragraph_path(&self.doc, shape_idx, para_idx) {
            Ok(p) => p,
            Err(e) => return Err(e),
        };
        let ghost old_p = doc_at(self.doc, p@);
        let ghost n = Node::Element(child);
        let para = self.doc.element_at_mut(&p).unwrap();
        let ppr = ppr_mut(para);
        drop_children_named(ppr, a, b, c);
        proof {
            assert(ppr.local() == /* pPr */ seq![112u8, 80u8, 114u8]);
            assert(local_of(ppr.name@) == ppr.local());
        }
        ppr.insert_child_ordered(Node::Element(child));
        let ghost new_p = *para;
        proof {
            assert(node_bytes(n) == element_bytes(child));
            assert(ppr_child_set(old_p, new_p, a@, b@, c@, element_bytes(child), child.local()));
            assert(self.document() == self.doc);
            assert(old(self).document() == old(self).doc);
            assert(doc_replaced(old(self).document(), self.document(), p@, new_p));
            assert(old_p == doc_at(old(self).document(), paragraph_path(old(self).document(), shape_idx as int, para_idx as int).unwrap()));
        }
        Ok(())
    }

    /// Set the alignment (`algn`) of paragraph `para_idx` of autoshape
    /// `shape_idx`, creating its `a:pPr` when absent; other properties are
    /// kept. Fails, changing nothing, when the paragraph is missing.
    pub fn set_paragraph_alignment(&mut self, shape_idx: usize, para_idx: usize, algn: &str) -> (r: Result<(), OxmlError>)
        ensures
            r is Ok <==> paragraph_path(old(self).document(), shape_idx as int, para_idx as int) is Some,
            r is Err ==> final(self).document() == old(self).document(),
            r is Ok ==> {
                let p = paragraph_path(old(self).document(), shape_idx as int, para_idx as int).unwrap();
                exists|new_p: Element| {
                    &&& #[trigger] doc_replaced(old(self).document(), final(self).document(), p, new_p)
                    &&& ppr_attr_set(doc_at(old(self).document(), p), new_p, /* algn */ seq![97u8, 108u8, 103u8, 110u8], encode_utf8(algn@))
                }
            },
    {
        let name: [u8; 4] = /* algn */ [97u8, 108u8, 103u8, 110u8];
        assert(name@ =~= /* algn */ seq![97u8, 108u8, 103u8, 110u8]);
        self.edit_ppr_attr(shape_idx, para_idx, name.as_slice(), algn.as_bytes())
    }

    /// Set the indent level (`lvl`) of paragraph `para_idx` of autoshape
    /// `shape_idx`, creating its `a:pPr` when absent.
    pub fn set_paragraph_indent_level(&mut self, shape_idx: usize, para_idx: usize, lvl: u8) -> (r: Result<(), OxmlError>)
        ensures
            r is Ok <==> paragraph_path(old(self).document(), shape_idx as int, para_idx as int) is Some,
            r is Err ==> final(self).document() == old(self).document(),
            r is Ok ==> {
                let p = paragraph_path(old(self).document(), shape_idx as int, para_idx as int).unwrap();
                exists|new_p: Element| {
                    &&& #[trigger] doc_replaced(old(self).document(), final(self).document(), p, new_p)
                    &&& ppr_attr_set(doc_at(old(self).document(), p), new_p, /* lvl */ seq![108u8, 118u8, 108u8], encode_utf8(dec_nat(lvl as nat)))
                }
            },
    {
        let name: [u8; 3] = /* lvl */ [108u8, 118u8, 108u8];
        assert(name@ =~= /* lvl */ seq![108u8, 118u8, 108u8]);
        let digits = dec_u64(lvl as u64);
        self.edit_ppr_attr(shape_idx, para_idx, name.as_slice(), digits.as_str().as_bytes())
    }

    /// Set the space before paragraph `para_idx` of autoshape `shape_idx`: any
    /// `a:spcBef` is replaced by one holding `value`, in schema order.
    pub fn set_paragraph_space_before(&mut self, shape_idx: usize, para_idx: usize, value: SpacingValue) -> (r: Result<(), OxmlError>)
        ensures
            r is Ok <==> paragraph_path(old(self).document(), shape_idx as int, para_idx as int) is Some,
            r is Err ==> final(self).document() == old(self).document(),
            r is Ok ==> {
                let p = paragraph_path(old(self).document(), shape_idx as int, para_idx as int).unwrap();
                exists|new_p: Element| {
                    &&& #[trigger] doc_replaced(old(self).document(), final(self).document(), p, new_p)
                    &&& ppr_child_set(doc_at(old(self).document(), p), new_p, /* spcBef */ seq![115u8, 112u8, 99u8, 66u8, 101u8, 102u8], /* spcBef */ seq![115u8, 112u8, 99u8, 66u8, 101u8, 102u8], /* spcBef */ seq![115u8, 112u8, 99u8, 66u8, 101u8, 102u8],
                        spacing_bytes(/* a:spcBef */ seq![97u8, 58u8, 115u8, 112u8, 99u8, 66u8, 101u8, 102u8], value), /* spcBef */ seq![115u8, 112u8, 99u8, 66u8, 101u8, 102u8])
                }
            },
    {
        let local: [u8; 6] = /* spcBef */ [115u8, 112u8, 99u8, 66u8, 101u8, 102u8];
        let q: [u8; 8] = /* a:spcBef */ [97u8, 58u8, 115u8, 112u8, 99u8, 66u8, 101u8, 102u8];
        assert(local@ =~= /* spcBef */ seq![115u8, 112u8, 99u8, 66u8, 101u8, 102u8]);
        assert(q@ =~= /* a:spcBef */ seq![97u8, 58u8, 115u8, 112u8, 99u8, 66u8, 101u8, 102u8]);
        assert(q@.skip(2) =~= /* spcBef */ seq![115u8, 112u8, 99u8, 66u8, 101u8, 102u8]);
        let w = spacing_element(q.as_slice(), value);
        self.edit_ppr_child(shape_idx, para_idx, local.as_slice(), local.as_slice(), local.as_slice(), w)
    }

    /// Set the space after paragraph `para_idx` of autoshape `shape_idx`: any
    /// `a:spcAft` is replaced by one holding `value`, in schema order.
    pub fn set_paragraph_space_after(&mut self, shape_idx: usize, para_idx: usize, value: SpacingValue) -> (r: Result<(), OxmlError>)
        ensures
            r is Ok <==> paragraph_path(old(self).document(), shape_idx as int, para_idx as int) is Some,
            r is Err ==> final(self).document() == old(self).document(),
            r is Ok ==> {
                let p = paragraph_path(old(self).document(), shape_idx as int, para_idx as int).unwrap();
                exists|new_p: Element| {
                    &&& #[trigger] doc_replaced(old(self).document(), final(self).document(), p, new_p)
                    &&& ppr_child_set(doc_at(old(self).document(), p), new_p, /* spcAft */ seq![115u8, 112u8, 99u8, 65u8, 102u8, 116u8], /* spcAft */ seq![115u8, 112u8, 99u8, 65u8, 102u8, 116u8], /* spcAft */ seq![115u8, 112u8, 99u8, 65u8, 102u8, 116u8],
                        spacing_bytes(/* a:spcAft */ seq![97u8, 58u8, 115u8, 112u8, 99u8, 65u8, 102u8, 116u8], value), /* spcAft */ seq![115u8, 112u8, 99u8, 65u8, 102u8, 116u8])
                }
            },
    {
        let local: [u8; 6] = /* spcAft */ [115u8, 112u8, 99u8, 65u8, 102u8, 116u8];
        let q: [u8; 8] = /* a:spcAft */ [97u8, 58u8, 115u8, 112u8, 99u8, 65u8, 102u8, 116u8];
        assert(local@ =~= /* spcAft */ seq![115u8, 112u8, 99u8, 65u8, 102u8, 116u8]);
        assert(q@ =~= /* a:spcAft */ seq![97u8, 58u8, 115u8, 112u8, 99u8, 65u8, 102u8, 116u8]);
        assert(q@.skip(2) =~= /* spcAft */ seq![115u8, 112u8, 99u8, 65u8, 102u8, 116u8]);
        let w = spacing_element(q.as_slice(), value);
        self.edit_ppr_child(shape_idx, para_idx, local.as_slice(), local.as_slice(), local.as_slice(), w)
    }

    /// Set the line spacing of paragraph `para_idx` of autoshape `shape_idx`:
    /// any `a:lnSpc` is replaced by one holding `value`, in schema order.
    pub fn set_paragraph_line_spacing(&mut self, shape_idx: usize, para_idx: usize, value: SpacingValue) -> (r: Result<(), OxmlError>)
        ensures
            r is Ok <==> paragraph_path(old(self).document(), shape_idx as int, para_idx as int) is Some,
            r is Err ==> final(self).document() == old(self).document(),
            r is Ok ==> {
                let p = paragraph_path(old(self).document(), shape_idx as int, para_idx as int).unwrap();
                exists|new_p: Element| {
                    &&& #[trigger] doc_replaced(old(self).document(), final(self).document(), p, new_p)
                    &&& ppr_child_set(doc_at(old(self).document(), p), new_p, /* lnSpc */ seq![108u8, 110u8, 83u8, 112u8, 99u8], /* lnSpc */ seq![108u8, 110u8, 83u8, 112u8, 99u8], /* lnSpc */ seq![108u8, 110u8, 83u8, 112u8, 99u8],
                        spacing_bytes(/* a:lnSpc */ seq![97u8, 58u8, 108u8, 110u8, 83u8, 112u8, 99u8], value), /* lnSpc */ seq![108u8, 110u8, 83u8, 112u8, 99u8])
                }
            },
    {
        let local: [u8; 5] = /* lnSpc */ [108u8, 110u8, 83u8, 112u8, 99u8];
        let q: [u8; 7] = /* a:lnSpc */ [97u8, 58u8, 108u8, 110u8, 83u8, 112u8, 99u8];
        assert(local@ =~= /* lnSpc */ seq![108u8, 110u8, 83u8, 112u8, 99u8]);
        assert(q@ =~= /* a:lnSpc */ seq![97u8, 58u8, 108u8, 110u8, 83u8, 112u8, 99u8]);
        assert(q@.skip(2) =~= /* lnSpc */ seq![108u8, 110u8, 83u8, 112u8, 99u8]);
        let w = spacing_element(q.as_slice(), value);
        self.edit_ppr_child(shape_idx, para_idx, local.as_slice(), local.as_slice(), local.as_slice(), w)
    }

    /// Set the bullet of paragraph `para_idx` of autoshape `shape_idx`: any
    /// `a:buNone`, `a:buChar` or `a:buAutoNum` is replaced by the one for
    /// `bullet`, in schema order.
    pub fn set_paragraph_bullet(&mut self, shape_idx: usize, para_idx: usize, bullet: &BulletKind) -> (r: Result<(), OxmlError>)
        ensures
            r is Ok <==> paragraph_path(old(self).document(), shape_idx as int, para_idx as int) is Some,
            r is Err ==> final(self).document() == old(self).document(),
            r is Ok ==> {
                let p = paragraph_path(old(self).document(), shape_idx as int, para_idx as int).unwrap();
                exists|new_p: Element| {
                    &&& #[trigger] doc_replaced(old(self).document(), final(self).document(), p, new_p)
                    &&& ppr_child_set(doc_at(old(self).document(), p), new_p, /* buNone */ seq![98u8, 117u8, 78u8, 111u8, 110u8, 101u8], /* buChar */ seq![98u8, 117u8, 67u8, 104u8, 97u8, 114u8], /* buAutoNum */ seq![98u8, 117u8, 65u8, 117u8, 116u8, 111u8, 78u8, 117u8, 109u8],
                        bullet_bytes(*bullet), bullet_local(*bullet))
                }
            },
    {
        let a: [u8; 6] = /* buNone */ [98u8, 117u8, 78u8, 111u8, 110u8, 101u8];
        let b: [u8; 6] = /* buChar */ [98u8, 117u8, 67u8, 104u8, 97u8, 114u8];
        let c: [u8; 9] = /* buAutoNum */ [98u8, 117u8, 65u8, 117u8, 116u8, 111u8, 78u8, 117u8, 109u8];
        assert(a@ =~= /* buNone */ seq![98u8, 117u8, 78u8, 111u8, 110u8, 101u8]);
        assert(b@ =~= /* buChar */ seq![98u8, 117u8, 67u8, 104u8, 97u8, 114u8]);
        assert(c@ =~= /* buAutoNum */ seq![98u8, 117u8, 65u8, 117u8, 116u8, 111u8, 78u8, 117u8, 109u8]);
        let e = bullet_element(bullet);
        self.edit_ppr_child(shape_idx, para_idx, a.as_slice(), b.as_slice(), c.as_slice(), e)
    }
}

} // verus!
