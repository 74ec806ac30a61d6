//! DrawingML text bodies, runs and shapes as built for a slide's shape
//! tree: their markup, and text bodies read back from markup.

use vstd::prelude::*;
use crate::error::OxmlError;
use crate::numbers::{parse_i64, parse_signed, parse_u32, parse_unsigned};
use crate::xml::{
    local_name_of, local_of, attrs_view, Document, Element, Node};
use crate::xml_reader::{
    open_reader, read_event, reader_input, reader_position, reader_reads, reader_trims, step_empty, step_end_tag,
    step_eof, step_error, step_start, unescape_text, unescaped, xml_step, XmlEvent,
};
use crate::bytes::{bytes_eq, slice_of, to_vec};
use crate::text::{text_of, utf8_string, chars_eq_str, chars_of, dec_i64, dec_int, dec_nat, dec_u64, push_str, string_of, to_uppercase, trim_hashes, trim_leading_hashes, uppercase_of};

verus! {

/// Paragraph alignment (`a:pPr@algn`).
#[derive(Debug, Clone, Copy, PartialEq, Eq, Structural)]
pub enum Align {
    Left,
    Center,
    Right,
    Justify,
}

/// The `algn` attribute text of an alignment.
pub open spec fn align_val(a: Align) -> Seq<char> {
    match a {
        Align::Left => /* l */ seq!['l'],
        Align::Center => /* ctr */ seq!['c', 't', 'r'],
        Align::Right => /* r */ seq!['r'],
        Align::Justify => /* just */ seq!['j', 'u', 's', 't'],
    }
}

/// The alignment an `algn` text names, if any.
pub open spec fn align_from(v: Seq<char>) -> Option<Align> {
    if v == /* l */ seq!['l'] {
        Some(Align::Left)
    } else if v == /* ctr */ seq!['c', 't', 'r'] {
        Some(Align::Center)
    } else if v == /* r */ seq!['r'] {
        Some(Align::Right)
    } else if v == /* just */ seq!['j', 'u', 's', 't'] {
        Some(Align::Justify)
    } else {
        None
    }
}

impl Align {
    /// The `algn` attribute text.
    pub fn attr(self) -> (r: &'static str)
        ensures
            r@ == align_val(self),
    {
        match self {
            Align::Left => { proof { reveal_strlit("l"); } "l" },
            Align::Center => { proof { reveal_strlit("ctr"); } "ctr" },
            Align::Right => { proof { reveal_strlit("r"); } "r" },
            Align::Justify => { proof { reveal_strlit("just"); } "just" },
        }
    }

    /// The alignment named by an `algn` text; `None` when unknown.
    pub fn parse(s: &str) -> (r: Option<Align>)
        ensures
            r == align_from(s@),
    {
        proof {
            reveal_strlit("l");
            reveal_strlit("ctr");
            reveal_strlit("r");
            reveal_strlit("just");
            assert("l"@ == /* l */ seq!['l']);
            assert("ctr"@ == /* ctr */ seq!['c', 't', 'r']);
            assert("r"@ == /* r */ seq!['r']);
            assert("just"@ == /* just */ seq!['j', 'u', 's', 't']);
        }
        let cs = chars_of(s);
        if chars_eq_str(&cs, "l") {
            Some(Align::Left)
        } else if chars_eq_str(&cs, "ctr") {
            Some(Align::Center)
        } else if chars_eq_str(&cs, "r") {
            Some(Align::Right)
        } else if chars_eq_str(&cs, "just") {
            Some(Align::Justify)
        } else {
            None
        }
    }
}

/// Parsing the `algn` text of an alignment gives back that alignment.
pub proof fn lemma_align_round_trip(a: Align)
    ensures
        align_from(align_val(a)) == Some(a),
{
    assert(/* l */ seq!['l'].len() != /* ctr */ seq!['c', 't', 'r'].len());
    assert(/* l */ seq!['l'][0] != /* r */ seq!['r'][0]);
    assert(/* l */ seq!['l'].len() != /* just */ seq!['j', 'u', 's', 't'].len());
    assert(/* ctr */ seq!['c', 't', 'r'].len() != /* r */ seq!['r'].len());
    assert(/* ctr */ seq!['c', 't', 'r'].len() != /* just */ seq!['j', 'u', 's', 't'].len());
    assert(/* r */ seq!['r'].len() != /* just */ seq!['j', 'u', 's', 't'].len());
}

/// A placeholder reference (`p:ph`): its type and optional index.
#[derive(Debug, Clone, PartialEq)]
pub struct Placeholder {
    pub ph_type: String,
    pub idx: Option<u32>,
}

// ─── Building ───────────────────────────────────────────────────────────────

/// How the builders write a character: `&`, `<`, `>` and `"` as entities.
pub open spec fn esc_char(c: char) -> Seq<char> {
    if c == '&' {
        /* &amp; */ seq!['&', 'a', 'm', 'p', ';']
    } else if c == '<' {
        /* &lt; */ seq!['&', 'l', 't', ';']
    } else if c == '>' {
        /* &gt; */ seq!['&', 'g', 't', ';']
    } else if c == '"' {
        /* &quot; */ seq!['&', 'q', 'u', 'o', 't', ';']
    } else {
        seq![c]
    }
}

/// Text with `&`, `<`, `>` and `"` escaped.
pub open spec fn esc_chars(s: Seq<char>) -> Seq<char>
    decreases s.len(),
{
    if s.len() == 0 {
        s
    } else {
        esc_chars(s.drop_last()) + esc_char(s.last())
    }
}

fn esc(s: &str) -> (r: String)
    ensures
        r@ == esc_chars(s@),
{
    let cs = chars_of(s);
    let mut out = String::new();
    let mut i: usize = 0;
    while i < cs.len()
        invariant
            i <= cs@.len(),
            cs@ == s@,
            out@ == esc_chars(cs@.take(i as int)),
        decreases cs@.len() - i,
    {
        proof {
            assert(cs@.take(i + 1).drop_last() =~= cs@.take(i as int));
        }
        let c = cs[i];
        let ghost start = out@;
        if c == '&' {
            proof { reveal_strlit("&amp;"); assert("&amp;"@ == /* &amp; */ seq!['&', 'a', 'm', 'p', ';']); } push_str(&mut out, "&amp;");
        } else if c == '<' {
            proof { reveal_strlit("&lt;"); assert("&lt;"@ == /* &lt; */ seq!['&', 'l', 't', ';']); } push_str(&mut out, "&lt;");
        } else if c == '>' {
            proof { reveal_strlit("&gt;"); assert("&gt;"@ == /* &gt; */ seq!['&', 'g', 't', ';']); } push_str(&mut out, "&gt;");
        } else if c == '"' {
            proof { reveal_strlit("&quot;"); assert("&quot;"@ == /* &quot; */ seq!['&', 'q', 'u', 'o', 't', ';']); } push_str(&mut out, "&quot;");
        } else {
            out.push(c);
        }
        assert(out@ =~= start + esc_char(c));
        i = i + 1;
    }
    assert(cs@.take(cs@.len() as int) =~= cs@);
    out
}

/// Character formatting of a run (`a:rPr`); `None` leaves a property to the
/// layout.
#[derive(Debug, Clone, PartialEq)]
pub struct RunProps {
    pub bold: Option<bool>,
    pub italic: Option<bool>,
    pub underline: Option<bool>,
    /// Font size in hundredths of a point (as written in `sz`).
    pub size: Option<i64>,
    /// Solid text color as RGB hex digits.
    pub color: Option<String>,
    /// Latin typeface name.
    pub font: Option<String>,
}

impl Default for RunProps {
    fn default() -> (r: RunProps)
        ensures
            r.bold is None && r.italic is None && r.underline is None,
            r.size is None && r.color is None && r.font is None,
    {
        RunProps { bold: None, italic: None, underline: None, size: None, color: None, font: None }
    }
}

/// `text` when the flag is set to true.
pub open spec fn flag_text(on: Option<bool>, text: Seq<char>) -> Seq<char> {
    if on == Some(true) {
        text
    } else {
        Seq::empty()
    }
}

/// The attributes of run properties: the language, then bold, italic,
/// underline when on, and the size when set.
pub open spec fn rpr_attrs(p: RunProps) -> Seq<char> {
    /*  lang=\"en-US\" */ seq![' ', 'l', 'a', 'n', 'g', '=', '"', 'e', 'n', '-', 'U', 'S', '"'] + flag_text(p.bold, /*  b=\"1\" */ seq![' ', 'b', '=', '"', '1', '"']) + flag_text(p.italic, /*  i=\"1\" */ seq![' ', 'i', '=', '"', '1', '"']) + flag_text(
        p.underline,
        /*  u=\"sng\" */ seq![' ', 'u', '=', '"', 's', 'n', 'g', '"'],
    ) + match p.size {
        Some(sz) => /*  sz=\" */ seq![' ', 's', 'z', '=', '"'] + dec_int(sz as int) + /* \" */ seq!['"'],
        None => Seq::empty(),
    }
}

/// The children of run properties: the color's solid fill, then the
/// typeface.
pub open spec fn rpr_children(p: RunProps) -> Seq<char> {
    (match p.color {
        Some(c) => /* <a:solidFill><a:srgbClr val=\" */ seq!['<', 'a', ':', 's', 'o', 'l', 'i', 'd', 'F', 'i', 'l', 'l', '>', '<', 'a', ':', 's', 'r', 'g', 'b', 'C', 'l', 'r', ' ', 'v', 'a', 'l', '=', '"'] + esc_chars(c@) + /* \"/></a:solidFill> */ seq!['"', '/', '>', '<', '/', 'a', ':', 's', 'o', 'l', 'i', 'd', 'F', 'i', 'l', 'l', '>'],
        None => Seq::empty(),
    }) + match p.font {
        Some(f) => /* <a:latin typeface=\" */ seq!['<', 'a', ':', 'l', 'a', 't', 'i', 'n', ' ', 't', 'y', 'p', 'e', 'f', 'a', 'c', 'e', '=', '"'] + esc_chars(f@) + /* \"/> */ seq!['"', '/', '>'],
        None => Seq::empty(),
    }
}

/// The markup of run properties: self-closing when there is no child.
pub open spec fn rpr_xml(p: RunProps) -> Seq<char> {
    if p.color is None && p.font is None {
        /* <a:rPr */ seq!['<', 'a', ':', 'r', 'P', 'r'] + rpr_attrs(p) + /* /> */ seq!['/', '>']
    } else {
        /* <a:rPr */ seq!['<', 'a', ':', 'r', 'P', 'r'] + rpr_attrs(p) + /* > */ seq!['>'] + rpr_children(p) + /* </a:rPr> */ seq!['<', '/', 'a', ':', 'r', 'P', 'r', '>']
    }
}

impl RunProps {
    /// The `a:rPr` markup (see [`rpr_xml`]).
    pub fn to_xml(&self) -> (r: String)
        ensures
            r@ == rpr_xml(*self),
    {
        let mut a = String::new();
        proof { reveal_strlit(" lang=\"en-US\""); assert(" lang=\"en-US\""@ == /*  lang=\"en-US\" */ seq![' ', 'l', 'a', 'n', 'g', '=', '"', 'e', 'n', '-', 'U', 'S', '"']); } push_str(&mut a, " lang=\"en-US\"");
        if self.bold == Some(true) {
            proof { reveal_strlit(" b=\"1\""); assert(" b=\"1\""@ == /*  b=\"1\" */ seq![' ', 'b', '=', '"', '1', '"']); } push_str(&mut a, " b=\"1\"");
        }
        if self.italic == Some(true) {
            proof { reveal_strlit(" i=\"1\""); assert(" i=\"1\""@ == /*  i=\"1\" */ seq![' ', 'i', '=', '"', '1', '"']); } push_str(&mut a, " i=\"1\"");
        }
        if self.underline == Some(true) {
            proof { reveal_strlit(" u=\"sng\""); assert(" u=\"sng\""@ == /*  u=\"sng\" */ seq![' ', 'u', '=', '"', 's', 'n', 'g', '"']); } push_str(&mut a, " u=\"sng\"");
        }
        if let Some(sz) = self.size {
            proof { reveal_strlit(" sz=\""); assert(" sz=\""@ == /*  sz=\" */ seq![' ', 's', 'z', '=', '"']); } push_str(&mut a, " sz=\"");
            let d = dec_i64(sz);
            push_str(&mut a, d.as_str());
            proof { reveal_strlit("\""); assert("\""@ == /* \" */ seq!['"']); } push_str(&mut a, "\"");
        }
        assert(a@ =~= rpr_attrs(*self));
        let mut ch = String::new();
        if let Some(c) = &self.color {
            proof { reveal_strlit("<a:solidFill><a:srgbClr val=\""); assert("<a:solidFill><a:srgbClr val=\""@ == /* <a:solidFill><a:srgbClr val=\" */ seq!['<', 'a', ':', 's', 'o', 'l', 'i', 'd', 'F', 'i', 'l', 'l', '>', '<', 'a', ':', 's', 'r', 'g', 'b', 'C', 'l', 'r', ' ', 'v', 'a', 'l', '=', '"']); } push_str(&mut ch, "<a:solidFill><a:srgbClr val=\"");
            let e = esc(c.as_str());
            push_str(&mut ch, e.as_str());
            proof { reveal_strlit("\"/></a:solidFill>"); assert("\"/></a:solidFill>"@ == /* \"/></a:solidFill> */ seq!['"', '/', '>', '<', '/', 'a', ':', 's', 'o', 'l', 'i', 'd', 'F', 'i', 'l', 'l', '>']); } push_str(&mut ch, "\"/></a:solidFill>");
        }
        if let Some(f) = &self.font {
            proof { reveal_strlit("<a:latin typeface=\""); assert("<a:latin typeface=\""@ == /* <a:latin typeface=\" */ seq!['<', 'a', ':', 'l', 'a', 't', 'i', 'n', ' ', 't', 'y', 'p', 'e', 'f', 'a', 'c', 'e', '=', '"']); } push_str(&mut ch, "<a:latin typeface=\"");
            let e = esc(f.as_str());
            push_str(&mut ch, e.as_str());
            proof { reveal_strlit("\"/>"); assert("\"/>"@ == /* \"/> */ seq!['"', '/', '>']); } push_str(&mut ch, "\"/>");
        }
        assert(ch@ =~= rpr_children(*self));
        let mut out = String::new();
        proof { reveal_strlit("<a:rPr"); assert("<a:rPr"@ == /* <a:rPr */ seq!['<', 'a', ':', 'r', 'P', 'r']); } push_str(&mut out, "<a:rPr");
        push_str(&mut out, a.as_str());
        if self.color.is_none() && self.font.is_none() {
            proof { reveal_strlit("/>"); assert("/>"@ == /* /> */ seq!['/', '>']); } push_str(&mut out, "/>");
        } else {
            proof { reveal_strlit(">"); assert(">"@ == /* > */ seq!['>']); } push_str(&mut out, ">");
            push_str(&mut out, ch.as_str());
            proof { reveal_strlit("</a:rPr>"); assert("</a:rPr>"@ == /* </a:rPr> */ seq!['<', '/', 'a', ':', 'r', 'P', 'r', '>']); } push_str(&mut out, "</a:rPr>");
        }
        assert(out@ =~= rpr_xml(*self));
        out
    }
}

/// A run of text with its formatting (`a:r`).
#[derive(Debug, Clone, PartialEq)]
pub struct Run {
    pub text: String,
    pub props: RunProps,
}

/// The markup of a run.
pub open spec fn run_xml(r: Run) -> Seq<char> {
    /* <a:r> */ seq!['<', 'a', ':', 'r', '>'] + rpr_xml(r.props) + /* <a:t> */ seq!['<', 'a', ':', 't', '>'] + esc_chars(r.text@) + /* </a:t></a:r> */ seq!['<', '/', 'a', ':', 't', '>', '<', '/', 'a', ':', 'r', '>']
}

impl Run {
    /// A run of `text` with no formatting set.
    pub fn new(text: &str) -> (r: Run)
        ensures
            r.text@ == text@,
            r.props.bold is None && r.props.italic is None && r.props.underline is None,
            r.props.size is None && r.props.color is None && r.props.font is None,
    {
        Run { text: string_of(text), props: RunProps::default() }
    }

    /// The `a:r` markup (see [`run_xml`]).
    pub fn to_xml(&self) -> (r: String)
        ensures
            r@ == run_xml(*self),
    {
        let mut out = String::new();
        proof { reveal_strlit("<a:r>"); assert("<a:r>"@ == /* <a:r> */ seq!['<', 'a', ':', 'r', '>']); } push_str(&mut out, "<a:r>");
        let p = self.props.to_xml();
        push_str(&mut out, p.as_str());
        proof { reveal_strlit("<a:t>"); assert("<a:t>"@ == /* <a:t> */ seq!['<', 'a', ':', 't', '>']); } push_str(&mut out, "<a:t>");
        let t = esc(self.text.as_str());
        push_str(&mut out, t.as_str());
        proof { reveal_strlit("</a:t></a:r>"); assert("</a:t></a:r>"@ == /* </a:t></a:r> */ seq!['<', '/', 'a', ':', 't', '>', '<', '/', 'a', ':', 'r', '>']); } push_str(&mut out, "</a:t></a:r>");
        assert(out@ =~= run_xml(*self));
        out
    }
}

impl Default for Run {
    fn default() -> (r: Run)
        ensures
            r.text@.len() == 0,
            r.props.bold is None && r.props.italic is None && r.props.underline is None,
            r.props.size is None && r.props.color is None && r.props.font is None,
    {
        Run { text: String::new(), props: RunProps::default() }
    }
}

/// A paragraph (`a:p`): runs, outline level, alignment, and whether a
/// bullet is suppressed (`Some(false)`).
#[derive(Debug, Clone, PartialEq)]
pub struct Paragraph {
    pub runs: Vec<Run>,
    /// Outline level; `None` or `Some(0)` is the top level.
    pub level: Option<u8>,
    pub align: Option<Align>,
    /// `Some(false)` writes `<a:buNone/>`; `None` inherits the layout's bullet.
    pub bullet: Option<bool>,
}

impl Default for Paragraph {
    fn default() -> (r: Paragraph)
        ensures
            r.runs@.len() == 0 && r.level is None && r.align is None && r.bullet is None,
    {
        Paragraph { runs: Vec::new(), level: None, align: None, bullet: None }
    }
}

/// The texts of runs, one after another.
pub open spec fn runs_text(rs: Seq<Run>) -> Seq<char>
    decreases rs.len(),
{
    if rs.len() == 0 {
        Seq::empty()
    } else {
        runs_text(rs.drop_last()) + rs.last().text@
    }
}

/// The attributes of paragraph properties: the level when above 0, then the
/// alignment.
pub open spec fn ppr_attrs(p: Paragraph) -> Seq<char> {
    (match p.level {
        Some(l) => if l > 0 {
            /*  lvl=\" */ seq![' ', 'l', 'v', 'l', '=', '"'] + dec_nat(l as nat) + /* \" */ seq!['"']
        } else {
            Seq::empty()
        },
        None => Seq::empty(),
    }) + match p.align {
        Some(a) => /*  algn=\" */ seq![' ', 'a', 'l', 'g', 'n', '=', '"'] + align_val(a) + /* \" */ seq!['"'],
        None => Seq::empty(),
    }
}

/// Whether a paragraph writes properties at all.
pub open spec fn has_ppr(p: Paragraph) -> bool {
    (p.level matches Some(l) && l > 0) || p.align is Some || p.bullet == Some(false)
}

/// The markup of paragraph properties: none when nothing is set.
pub open spec fn ppr_xml(p: Paragraph) -> Seq<char> {
    if !has_ppr(p) {
        Seq::empty()
    } else if p.bullet != Some(false) {
        /* <a:pPr */ seq!['<', 'a', ':', 'p', 'P', 'r'] + ppr_attrs(p) + /* /> */ seq!['/', '>']
    } else {
        /* <a:pPr */ seq!['<', 'a', ':', 'p', 'P', 'r'] + ppr_attrs(p) + /* ><a:buNone/></a:pPr> */ seq!['>', '<', 'a', ':', 'b', 'u', 'N', 'o', 'n', 'e', '/', '>', '<', '/', 'a', ':', 'p', 'P', 'r', '>']
    }
}

/// The markup of runs, one after another.
pub open spec fn runs_xml(rs: Seq<Run>) -> Seq<char>
    decreases rs.len(),
{
    if rs.len() == 0 {
        Seq::empty()
    } else {
        runs_xml(rs.drop_last()) + run_xml(rs.last())
    }
}

/// The markup of a paragraph.
pub open spec fn para_xml(p: Paragraph) -> Seq<char> {
    /* <a:p> */ seq!['<', 'a', ':', 'p', '>'] + ppr_xml(p) + runs_xml(p.runs@) + /* </a:p> */ seq!['<', '/', 'a', ':', 'p', '>']
}

impl Paragraph {
    /// The text of the paragraph: its runs' texts, one after another.
    pub fn text(&self) -> (r: String)
        ensures
            r@ == runs_text(self.runs@),
    {
        let mut out = String::new();
        let mut i: usize = 0;
        while i < self.runs.len()
            invariant
                i <= self.runs@.len(),
                out@ == runs_text(self.runs@.take(i as int)),
            decreases self.runs@.len() - i,
        {
            proof { assert(self.runs@.take(i + 1).drop_last() =~= self.runs@.take(i as int)); }
            push_str(&mut out, self.runs[i].text.as_str());
            i = i + 1;
        }
        assert(self.runs@.take(self.runs@.len() as int) =~= self.runs@);
        out
    }

    /// The `a:p` markup (see [`para_xml`]).
    pub fn to_xml(&self) -> (r: String)
        ensures
            r@ == para_xml(*self),
    {
        let mut attrs = String::new();
        let mut any = false;
        if let Some(l) = self.level {
            if l > 0 {
                proof { reveal_strlit(" lvl=\""); assert(" lvl=\""@ == /*  lvl=\" */ seq![' ', 'l', 'v', 'l', '=', '"']); } push_str(&mut attrs, " lvl=\"");
                let d = dec_u64(l as u64);
                push_str(&mut attrs, d.as_str());
                proof { reveal_strlit("\""); assert("\""@ == /* \" */ seq!['"']); } push_str(&mut attrs, "\"");
                any = true;
            }
        }
        if let Some(al) = self.align {
            proof { reveal_strlit(" algn=\""); assert(" algn=\""@ == /*  algn=\" */ seq![' ', 'a', 'l', 'g', 'n', '=', '"']); } push_str(&mut attrs, " algn=\"");
            push_str(&mut attrs, al.attr());
            proof { reveal_strlit("\""); assert("\""@ == /* \" */ seq!['"']); } push_str(&mut attrs, "\"");
            any = true;
        }
        assert(attrs@ =~= ppr_attrs(*self));
        let no_bullet = self.bullet == Some(false);
        let mut out = String::new();
        proof { reveal_strlit("<a:p>"); assert("<a:p>"@ == /* <a:p> */ seq!['<', 'a', ':', 'p', '>']); } push_str(&mut out, "<a:p>");
        if any || no_bullet {
            proof { reveal_strlit("<a:pPr"); assert("<a:pPr"@ == /* <a:pPr */ seq!['<', 'a', ':', 'p', 'P', 'r']); } push_str(&mut out, "<a:pPr");
            push_str(&mut out, attrs.as_str());
            if no_bullet {
                proof { reveal_strlit("><a:buNone/></a:pPr>"); assert("><a:buNone/></a:pPr>"@ == /* ><a:buNone/></a:pPr> */ seq!['>', '<', 'a', ':', 'b', 'u', 'N', 'o', 'n', 'e', '/', '>', '<', '/', 'a', ':', 'p', 'P', 'r', '>']); } push_str(&mut out, "><a:buNone/></a:pPr>");
            } else {
                proof { reveal_strlit("/>"); assert("/>"@ == /* /> */ seq!['/', '>']); } push_str(&mut out, "/>");
            }
        }
        let ghost head = out@;
        assert(head =~= /* <a:p> */ seq!['<', 'a', ':', 'p', '>'] + ppr_xml(*self));
        let mut i: usize = 0;
        while i < self.runs.len()
            invariant
                i <= self.runs@.len(),
                out@ == head + runs_xml(self.runs@.take(i as int)),
            decreases self.runs@.len() - i,
        {
            proof { assert(self.runs@.take(i + 1).drop_last() =~= self.runs@.take(i as int)); }
            let r = self.runs[i].to_xml();
            push_str(&mut out, r.as_str());
            i = i + 1;
        }
        assert(self.runs@.take(self.runs@.len() as int) =~= self.runs@);
        proof { reveal_strlit("</a:p>"); assert("</a:p>"@ == /* </a:p> */ seq!['<', '/', 'a', ':', 'p', '>']); } push_str(&mut out, "</a:p>");
        assert(out@ =~= para_xml(*self));
        out
    }
}

/// A shape's text body (`p:txBody`).
#[derive(Debug, Clone, PartialEq)]
pub struct TextBody {
    pub paragraphs: Vec<Paragraph>,
}

impl Default for TextBody {
    fn default() -> (r: TextBody)
        ensures
            r.paragraphs@.len() == 0,
    {
        TextBody { paragraphs: Vec::new() }
    }
}

/// The markup of paragraphs, one after another.
pub open spec fn paras_xml(ps: Seq<Paragraph>) -> Seq<char>
    decreases ps.len(),
{
    if ps.len() == 0 {
        Seq::empty()
    } else {
        paras_xml(ps.drop_last()) + para_xml(ps.last())
    }
}

/// The markup of a text body; an empty paragraph stands in when it has none
/// (the schema asks for one).
pub open spec fn body_xml(b: TextBody) -> Seq<char> {
    /* <p:txBody><a:bodyPr/><a:lstStyle/> */ seq!['<', 'p', ':', 't', 'x', 'B', 'o', 'd', 'y', '>', '<', 'a', ':', 'b', 'o', 'd', 'y', 'P', 'r', '/', '>', '<', 'a', ':', 'l', 's', 't', 'S', 't', 'y', 'l', 'e', '/', '>'] + (if b.paragraphs@.len() == 0 {
        /* <a:p/> */ seq!['<', 'a', ':', 'p', '/', '>']
    } else {
        paras_xml(b.paragraphs@)
    }) + /* </p:txBody> */ seq!['<', '/', 'p', ':', 't', 'x', 'B', 'o', 'd', 'y', '>']
}

impl TextBody {
    /// The `p:txBody` markup (see [`body_xml`]).
    pub fn to_xml(&self) -> (r: String)
        ensures
            r@ == body_xml(*self),
    {
        let mut out = String::new();
        proof { reveal_strlit("<p:txBody><a:bodyPr/><a:lstStyle/>"); assert("<p:txBody><a:bodyPr/><a:lstStyle/>"@ == /* <p:txBody><a:bodyPr/><a:lstStyle/> */ seq!['<', 'p', ':', 't', 'x', 'B', 'o', 'd', 'y', '>', '<', 'a', ':', 'b', 'o', 'd', 'y', 'P', 'r', '/', '>', '<', 'a', ':', 'l', 's', 't', 'S', 't', 'y', 'l', 'e', '/', '>']); } push_str(&mut out, "<p:txBody><a:bodyPr/><a:lstStyle/>");
        if self.paragraphs.len() == 0 {
            proof { reveal_strlit("<a:p/>"); assert("<a:p/>"@ == /* <a:p/> */ seq!['<', 'a', ':', 'p', '/', '>']); } push_str(&mut out, "<a:p/>");
        } else {
            let ghost head = out@;
            let mut i: usize = 0;
            while i < self.paragraphs.len()
                invariant
                    i <= self.paragraphs@.len(),
                    out@ == head + paras_xml(self.paragraphs@.take(i as int)),
                decreases self.paragraphs@.len() - i,
            {
                proof { assert(self.paragraphs@.take(i + 1).drop_last() =~= self.paragraphs@.take(i as int)); }
                let p = self.paragraphs[i].to_xml();
                push_str(&mut out, p.as_str());
                i = i + 1;
            }
            assert(self.paragraphs@.take(self.paragraphs@.len() as int) =~= self.paragraphs@);
        }
        proof { reveal_strlit("</p:txBody>"); assert("</p:txBody>"@ == /* </p:txBody> */ seq!['<', '/', 'p', ':', 't', 'x', 'B', 'o', 'd', 'y', '>']); } push_str(&mut out, "</p:txBody>");
        assert(out@ =~= body_xml(*self));
        out
    }
}

/// A shape (`p:sp`): a placeholder, a text box or a preset shape.
#[derive(Debug, Clone)]
pub struct Shape {
    pub id: u32,
    pub name: String,
    pub placeholder: Option<Placeholder>,
    /// Position and size (x, y, cx, cy) in EMU, for text boxes and preset
    /// shapes.
    pub xfrm: Option<(i64, i64, i64, i64)>,
    pub text_box: bool,
    /// Preset geometry name (`a:prstGeom@prst`).
    pub geom: String,
    /// Solid fill color, hex digits.
    pub fill: Option<String>,
    /// Outline: hex color and width in EMU.
    pub line: Option<(String, i64)>,
    pub body: TextBody,
}

/// The `p:nvPr` of a shape: the placeholder reference, when it has one.
pub open spec fn nvpr_xml(s: Shape) -> Seq<char> {
    match s.placeholder {
        Some(ph) => /* <p:nvPr><p:ph type=\" */ seq!['<', 'p', ':', 'n', 'v', 'P', 'r', '>', '<', 'p', ':', 'p', 'h', ' ', 't', 'y', 'p', 'e', '=', '"'] + esc_chars(ph.ph_type@) + /* \" */ seq!['"'] + match ph.idx {
            Some(i) => /*  idx=\" */ seq![' ', 'i', 'd', 'x', '=', '"'] + dec_nat(i as nat) + /* \" */ seq!['"'],
            None => Seq::empty(),
        } + /* /></p:nvPr> */ seq!['/', '>', '<', '/', 'p', ':', 'n', 'v', 'P', 'r', '>'],
        None => /* <p:nvPr/> */ seq!['<', 'p', ':', 'n', 'v', 'P', 'r', '/', '>'],
    }
}

/// The `p:cNvSpPr` of a shape: a text-box flag, a grouping lock for a
/// placeholder, or nothing.
pub open spec fn cnvsppr_xml(s: Shape) -> Seq<char> {
    if s.text_box {
        /* <p:cNvSpPr txBox=\"1\"/> */ seq!['<', 'p', ':', 'c', 'N', 'v', 'S', 'p', 'P', 'r', ' ', 't', 'x', 'B', 'o', 'x', '=', '"', '1', '"', '/', '>']
    } else if s.placeholder is Some {
        /* <p:cNvSpPr><a:spLocks noGrp=\"1\"/></p:cNvSpPr> */ seq!['<', 'p', ':', 'c', 'N', 'v', 'S', 'p', 'P', 'r', '>', '<', 'a', ':', 's', 'p', 'L', 'o', 'c', 'k', 's', ' ', 'n', 'o', 'G', 'r', 'p', '=', '"', '1', '"', '/', '>', '<', '/', 'p', ':', 'c', 'N', 'v', 'S', 'p', 'P', 'r', '>']
    } else {
        /* <p:cNvSpPr/> */ seq!['<', 'p', ':', 'c', 'N', 'v', 'S', 'p', 'P', 'r', '/', '>']
    }
}

/// The `p:spPr` of a shape: transform, preset geometry, fill and outline
/// when it is positioned, else empty.
pub open spec fn sppr_xml(s: Shape) -> Seq<char> {
    match s.xfrm {
        Some((x, y, cx, cy)) => /* <p:spPr><a:xfrm><a:off x=\" */ seq!['<', 'p', ':', 's', 'p', 'P', 'r', '>', '<', 'a', ':', 'x', 'f', 'r', 'm', '>', '<', 'a', ':', 'o', 'f', 'f', ' ', 'x', '=', '"'] + dec_int(x as int) + /* \" y=\" */ seq!['"', ' ', 'y', '=', '"'] + dec_int(y as int)
            + /* \"/><a:ext cx=\" */ seq!['"', '/', '>', '<', 'a', ':', 'e', 'x', 't', ' ', 'c', 'x', '=', '"'] + dec_int(cx as int) + /* \" cy=\" */ seq!['"', ' ', 'c', 'y', '=', '"'] + dec_int(cy as int)
            + /* \"/></a:xfrm><a:prstGeom prst=\" */ seq!['"', '/', '>', '<', '/', 'a', ':', 'x', 'f', 'r', 'm', '>', '<', 'a', ':', 'p', 'r', 's', 't', 'G', 'e', 'o', 'm', ' ', 'p', 'r', 's', 't', '=', '"'] + esc_chars(s.geom@) + /* \"><a:avLst/></a:prstGeom> */ seq!['"', '>', '<', 'a', ':', 'a', 'v', 'L', 's', 't', '/', '>', '<', '/', 'a', ':', 'p', 'r', 's', 't', 'G', 'e', 'o', 'm', '>'] + (match s.fill {
            Some(h) => /* <a:solidFill><a:srgbClr val=\" */ seq!['<', 'a', ':', 's', 'o', 'l', 'i', 'd', 'F', 'i', 'l', 'l', '>', '<', 'a', ':', 's', 'r', 'g', 'b', 'C', 'l', 'r', ' ', 'v', 'a', 'l', '=', '"'] + h@ + /* \"/></a:solidFill> */ seq!['"', '/', '>', '<', '/', 'a', ':', 's', 'o', 'l', 'i', 'd', 'F', 'i', 'l', 'l', '>'],
            None => Seq::empty(),
        }) + (match s.line {
            Some((h, w)) => /* <a:ln w=\" */ seq!['<', 'a', ':', 'l', 'n', ' ', 'w', '=', '"'] + dec_int(w as int) + /* \"><a:solidFill><a:srgbClr val=\" */ seq!['"', '>', '<', 'a', ':', 's', 'o', 'l', 'i', 'd', 'F', 'i', 'l', 'l', '>', '<', 'a', ':', 's', 'r', 'g', 'b', 'C', 'l', 'r', ' ', 'v', 'a', 'l', '=', '"'] + h@
                + /* \"/></a:solidFill></a:ln> */ seq!['"', '/', '>', '<', '/', 'a', ':', 's', 'o', 'l', 'i', 'd', 'F', 'i', 'l', 'l', '>', '<', '/', 'a', ':', 'l', 'n', '>'],
            None => Seq::empty(),
        }) + /* </p:spPr> */ seq!['<', '/', 'p', ':', 's', 'p', 'P', 'r', '>'],
        None => /* <p:spPr/> */ seq!['<', 'p', ':', 's', 'p', 'P', 'r', '/', '>'],
    }
}

/// The markup of a shape.
pub open spec fn shape_xml(s: Shape) -> Seq<char> {
    /* <p:sp><p:nvSpPr><p:cNvPr id=\" */ seq!['<', 'p', ':', 's', 'p', '>', '<', 'p', ':', 'n', 'v', 'S', 'p', 'P', 'r', '>', '<', 'p', ':', 'c', 'N', 'v', 'P', 'r', ' ', 'i', 'd', '=', '"'] + dec_nat(s.id as nat) + /* \" name=\" */ seq!['"', ' ', 'n', 'a', 'm', 'e', '=', '"'] + esc_chars(s.name@) + /* \"/> */ seq!['"', '/', '>']
        + cnvsppr_xml(s) + nvpr_xml(s) + /* </p:nvSpPr> */ seq!['<', '/', 'p', ':', 'n', 'v', 'S', 'p', 'P', 'r', '>'] + sppr_xml(s) + body_xml(s.body) + /* </p:sp> */ seq!['<', '/', 'p', ':', 's', 'p', '>']
}

/// `{prefix} {id}`.
fn numbered_name(prefix: &str, id: u32) -> (r: String)
    ensures
        r@ == prefix@ + /*   */ seq![' '] + dec_nat(id as nat),
{
    let mut out = string_of(prefix);
    proof { reveal_strlit(" "); assert(" "@ == /*   */ seq![' ']); } push_str(&mut out, " ");
    let d = dec_u64(id as u64);
    push_str(&mut out, d.as_str());
    out
}

impl Shape {
    /// A placeholder shape of type `ph_type` (with optional index) holding
    /// `body`; it takes its position from the layout.
    pub fn placeholder(id: u32, name: &str, ph_type: &str, idx: Option<u32>, body: TextBody) -> (s: Shape)
        ensures
            s.id == id,
            s.name@ == name@,
            s.placeholder matches Some(ph) && ph.ph_type@ == ph_type@ && ph.idx == idx,
            s.xfrm is None,
            !s.text_box,
            s.geom@ == /* rect */ seq!['r', 'e', 'c', 't'],
            s.fill is None,
            s.line is None,
            s.body == body,
    {
        proof { reveal_strlit("rect"); }
        Shape {
            id,
            name: string_of(name),
            placeholder: Some(Placeholder { ph_type: string_of(ph_type), idx }),
            xfrm: None,
            text_box: false,
            geom: string_of("rect"),
            fill: None,
            line: None,
            body,
        }
    }

    /// A text box named `TextBox {id}` at (`x`, `y`) of size `cx` × `cy`.
    pub fn text_box(id: u32, x: i64, y: i64, cx: i64, cy: i64, body: TextBody) -> (s: Shape)
        ensures
            s.id == id,
            s.name@ == /* TextBox  */ seq!['T', 'e', 'x', 't', 'B', 'o', 'x', ' '] + dec_nat(id as nat),
            s.placeholder is None,
            s.xfrm == Some((x, y, cx, cy)),
            s.text_box,
            s.geom@ == /* rect */ seq!['r', 'e', 'c', 't'],
            s.fill is None,
            s.line is None,
            s.body == body,
    {
        proof {
            reveal_strlit("rect");
            reveal_strlit("TextBox");
        }
        Shape {
            id,
            name: numbered_name("TextBox", id),
            placeholder: None,
            xfrm: Some((x, y, cx, cy)),
            text_box: true,
            geom: string_of("rect"),
            fill: None,
            line: None,
            body,
        }
    }

    /// A preset shape named `Shape {id}` with geometry `geom` at (`x`, `y`)
    /// of size `cx` × `cy`, with an empty text body.
    pub fn auto_shape(id: u32, geom: &str, x: i64, y: i64, cx: i64, cy: i64) -> (s: Shape)
        ensures
            s.id == id,
            s.name@ == /* Shape  */ seq!['S', 'h', 'a', 'p', 'e', ' '] + dec_nat(id as nat),
            s.placeholder is None,
            s.xfrm == Some((x, y, cx, cy)),
            !s.text_box,
            s.geom@ == geom@,
            s.fill is None,
            s.line is None,
            s.body.paragraphs@.len() == 0,
    {
        proof { reveal_strlit("Shape"); }
        Shape {
            id,
            name: numbered_name("Shape", id),
            placeholder: None,
            xfrm: Some((x, y, cx, cy)),
            text_box: false,
            geom: string_of(geom),
            fill: None,
            line: None,
            body: TextBody::default(),
        }
    }

    /// Set a solid fill color: `hex` without leading `#`, uppercased.
    pub fn set_fill(&mut self, hex: &str) -> (r: &mut Shape)
        ensures
            r.fill matches Some(h) && h@ == uppercase_of(trim_hashes(hex@)),
            r.id == old(self).id && r.name == old(self).name && r.placeholder == old(self).placeholder,
            r.xfrm == old(self).xfrm && r.text_box == old(self).text_box && r.geom == old(self).geom,
            r.line == old(self).line && r.body == old(self).body,
            *final(self) == *final(r),
    {
        let t = trim_leading_hashes(hex);
        self.fill = Some(to_uppercase(t.as_str()));
        self
    }

    /// Set an outline: color `hex` (without leading `#`, uppercased) and
    /// width in EMU.
    pub fn set_outline(&mut self, hex: &str, width_emu: i64) -> (r: &mut Shape)
        ensures
            r.line matches Some((h, w)) && h@ == uppercase_of(trim_hashes(hex@)) && w == width_emu,
            r.id == old(self).id && r.name == old(self).name && r.placeholder == old(self).placeholder,
            r.xfrm == old(self).xfrm && r.text_box == old(self).text_box && r.geom == old(self).geom,
            r.fill == old(self).fill && r.body == old(self).body,
            *final(self) == *final(r),
    {
        let t = trim_leading_hashes(hex);
        self.line = Some((to_uppercase(t.as_str()), width_emu));
        self
    }

    /// The `p:sp` markup (see [`shape_xml`]).
    pub fn to_xml(&self) -> (r: String)
        ensures
            r@ == shape_xml(*self),
    {
        let mut out = String::new();
        proof { reveal_strlit("<p:sp><p:nvSpPr><p:cNvPr id=\""); assert("<p:sp><p:nvSpPr><p:cNvPr id=\""@ == /* <p:sp><p:nvSpPr><p:cNvPr id=\" */ seq!['<', 'p', ':', 's', 'p', '>', '<', 'p', ':', 'n', 'v', 'S', 'p', 'P', 'r', '>', '<', 'p', ':', 'c', 'N', 'v', 'P', 'r', ' ', 'i', 'd', '=', '"']); } push_str(&mut out, "<p:sp><p:nvSpPr><p:cNvPr id=\"");
        let d = dec_u64(self.id as u64);
        push_str(&mut out, d.as_str());
        proof { reveal_strlit("\" name=\""); assert("\" name=\""@ == /* \" name=\" */ seq!['"', ' ', 'n', 'a', 'm', 'e', '=', '"']); } push_str(&mut out, "\" name=\"");
        let n = esc(self.name.as_str());
        push_str(&mut out, n.as_str());
        proof { reveal_strlit("\"/>"); assert("\"/>"@ == /* \"/> */ seq!['"', '/', '>']); } push_str(&mut out, "\"/>");
        if self.text_box {
            proof { reveal_strlit("<p:cNvSpPr txBox=\"1\"/>"); assert("<p:cNvSpPr txBox=\"1\"/>"@ == /* <p:cNvSpPr txBox=\"1\"/> */ seq!['<', 'p', ':', 'c', 'N', 'v', 'S', 'p', 'P', 'r', ' ', 't', 'x', 'B', 'o', 'x', '=', '"', '1', '"', '/', '>']); } push_str(&mut out, "<p:cNvSpPr txBox=\"1\"/>");
        } else if self.placeholder.is_some() {
            proof { reveal_strlit("<p:cNvSpPr><a:spLocks noGrp=\"1\"/></p:cNvSpPr>"); assert("<p:cNvSpPr><a:spLocks noGrp=\"1\"/></p:cNvSpPr>"@ == /* <p:cNvSpPr><a:spLocks noGrp=\"1\"/></p:cNvSpPr> */ seq!['<', 'p', ':', 'c', 'N', 'v', 'S', 'p', 'P', 'r', '>', '<', 'a', ':', 's', 'p', 'L', 'o', 'c', 'k', 's', ' ', 'n', 'o', 'G', 'r', 'p', '=', '"', '1', '"', '/', '>', '<', '/', 'p', ':', 'c', 'N', 'v', 'S', 'p', 'P', 'r', '>']); } push_str(&mut out, "<p:cNvSpPr><a:spLocks noGrp=\"1\"/></p:cNvSpPr>");
        } else {
            proof { reveal_strlit("<p:cNvSpPr/>"); assert("<p:cNvSpPr/>"@ == /* <p:cNvSpPr/> */ seq!['<', 'p', ':', 'c', 'N', 'v', 'S', 'p', 'P', 'r', '/', '>']); } push_str(&mut out, "<p:cNvSpPr/>");
        }
        let ghost a = out@;
        match &self.placeholder {
            Some(ph) => {
                proof { reveal_strlit("<p:nvPr><p:ph type=\""); assert("<p:nvPr><p:ph type=\""@ == /* <p:nvPr><p:ph type=\" */ seq!['<', 'p', ':', 'n', 'v', 'P', 'r', '>', '<', 'p', ':', 'p', 'h', ' ', 't', 'y', 'p', 'e', '=', '"']); } push_str(&mut out, "<p:nvPr><p:ph type=\"");
                let t = esc(ph.ph_type.as_str());
                push_str(&mut out, t.as_str());
                proof { reveal_strlit("\""); assert("\""@ == /* \" */ seq!['"']); } push_str(&mut out, "\"");
                if let Some(i) = ph.idx {
                    proof { reveal_strlit(" idx=\""); assert(" idx=\""@ == /*  idx=\" */ seq![' ', 'i', 'd', 'x', '=', '"']); } push_str(&mut out, " idx=\"");
                    let di = dec_u64(i as u64);
                    push_str(&mut out, di.as_str());
                    proof { reveal_strlit("\""); assert("\""@ == /* \" */ seq!['"']); } push_str(&mut out, "\"");
                }
                proof { reveal_strlit("/></p:nvPr>"); assert("/></p:nvPr>"@ == /* /></p:nvPr> */ seq!['/', '>', '<', '/', 'p', ':', 'n', 'v', 'P', 'r', '>']); } push_str(&mut out, "/></p:nvPr>");
            },
            None => {
                proof { reveal_strlit("<p:nvPr/>"); assert("<p:nvPr/>"@ == /* <p:nvPr/> */ seq!['<', 'p', ':', 'n', 'v', 'P', 'r', '/', '>']); } push_str(&mut out, "<p:nvPr/>");
            },
        }
        assert(out@ =~= a + nvpr_xml(*self));
        proof { reveal_strlit("</p:nvSpPr>"); assert("</p:nvSpPr>"@ == /* </p:nvSpPr> */ seq!['<', '/', 'p', ':', 'n', 'v', 'S', 'p', 'P', 'r', '>']); } push_str(&mut out, "</p:nvSpPr>");
        let sp = self.sppr_text();
        push_str(&mut out, sp.as_str());
        let b = self.body.to_xml();
        push_str(&mut out, b.as_str());
        proof { reveal_strlit("</p:sp>"); assert("</p:sp>"@ == /* </p:sp> */ seq!['<', '/', 'p', ':', 's', 'p', '>']); } push_str(&mut out, "</p:sp>");
        assert(out@ =~= shape_xml(*self));
        out
    }

    fn sppr_text(&self) -> (r: String)
        ensures
            r@ == sppr_xml(*self),
    {
        let mut out = String::new();
        match self.xfrm {
            Some((x, y, cx, cy)) => {
                proof { reveal_strlit("<p:spPr><a:xfrm><a:off x=\""); assert("<p:spPr><a:xfrm><a:off x=\""@ == /* <p:spPr><a:xfrm><a:off x=\" */ seq!['<', 'p', ':', 's', 'p', 'P', 'r', '>', '<', 'a', ':', 'x', 'f', 'r', 'm', '>', '<', 'a', ':', 'o', 'f', 'f', ' ', 'x', '=', '"']); } push_str(&mut out, "<p:spPr><a:xfrm><a:off x=\"");
                push_str(&mut out, dec_i64(x).as_str());
                proof { reveal_strlit("\" y=\""); assert("\" y=\""@ == /* \" y=\" */ seq!['"', ' ', 'y', '=', '"']); } push_str(&mut out, "\" y=\"");
                push_str(&mut out, dec_i64(y).as_str());
                proof { reveal_strlit("\"/><a:ext cx=\""); assert("\"/><a:ext cx=\""@ == /* \"/><a:ext cx=\" */ seq!['"', '/', '>', '<', 'a', ':', 'e', 'x', 't', ' ', 'c', 'x', '=', '"']); } push_str(&mut out, "\"/><a:ext cx=\"");
                push_str(&mut out, dec_i64(cx).as_str());
                proof { reveal_strlit("\" cy=\""); assert("\" cy=\""@ == /* \" cy=\" */ seq!['"', ' ', 'c', 'y', '=', '"']); } push_str(&mut out, "\" cy=\"");
                push_str(&mut out, dec_i64(cy).as_str());
                proof { reveal_strlit("\"/></a:xfrm><a:prstGeom prst=\""); assert("\"/></a:xfrm><a:prstGeom prst=\""@ == /* \"/></a:xfrm><a:prstGeom prst=\" */ seq!['"', '/', '>', '<', '/', 'a', ':', 'x', 'f', 'r', 'm', '>', '<', 'a', ':', 'p', 'r', 's', 't', 'G', 'e', 'o', 'm', ' ', 'p', 'r', 's', 't', '=', '"']); } push_str(&mut out, "\"/></a:xfrm><a:prstGeom prst=\"");
                push_str(&mut out, esc(self.geom.as_str()).as_str());
                proof { reveal_strlit("\"><a:avLst/></a:prstGeom>"); assert("\"><a:avLst/></a:prstGeom>"@ == /* \"><a:avLst/></a:prstGeom> */ seq!['"', '>', '<', 'a', ':', 'a', 'v', 'L', 's', 't', '/', '>', '<', '/', 'a', ':', 'p', 'r', 's', 't', 'G', 'e', 'o', 'm', '>']); } push_str(&mut out, "\"><a:avLst/></a:prstGeom>");
                if let Some(h) = &self.fill {
                    proof { reveal_strlit("<a:solidFill><a:srgbClr val=\""); assert("<a:solidFill><a:srgbClr val=\""@ == /* <a:solidFill><a:srgbClr val=\" */ seq!['<', 'a', ':', 's', 'o', 'l', 'i', 'd', 'F', 'i', 'l', 'l', '>', '<', 'a', ':', 's', 'r', 'g', 'b', 'C', 'l', 'r', ' ', 'v', 'a', 'l', '=', '"']); } push_str(&mut out, "<a:solidFill><a:srgbClr val=\"");
                    push_str(&mut out, h.as_str());
                    proof { reveal_strlit("\"/></a:solidFill>"); assert("\"/></a:solidFill>"@ == /* \"/></a:solidFill> */ seq!['"', '/', '>', '<', '/', 'a', ':', 's', 'o', 'l', 'i', 'd', 'F', 'i', 'l', 'l', '>']); } push_str(&mut out, "\"/></a:solidFill>");
                }
                if let Some((h, w)) = &self.line {
                    proof { reveal_strlit("<a:ln w=\""); assert("<a:ln w=\""@ == /* <a:ln w=\" */ seq!['<', 'a', ':', 'l', 'n', ' ', 'w', '=', '"']); } push_str(&mut out, "<a:ln w=\"");
                    push_str(&mut out, dec_i64(*w).as_str());
                    proof { reveal_strlit("\"><a:solidFill><a:srgbClr val=\""); assert("\"><a:solidFill><a:srgbClr val=\""@ == /* \"><a:solidFill><a:srgbClr val=\" */ seq!['"', '>', '<', 'a', ':', 's', 'o', 'l', 'i', 'd', 'F', 'i', 'l', 'l', '>', '<', 'a', ':', 's', 'r', 'g', 'b', 'C', 'l', 'r', ' ', 'v', 'a', 'l', '=', '"']); } push_str(&mut out, "\"><a:solidFill><a:srgbClr val=\"");
                    push_str(&mut out, h.as_str());
                    proof { reveal_strlit("\"/></a:solidFill></a:ln>"); assert("\"/></a:solidFill></a:ln>"@ == /* \"/></a:solidFill></a:ln> */ seq!['"', '/', '>', '<', '/', 'a', ':', 's', 'o', 'l', 'i', 'd', 'F', 'i', 'l', 'l', '>', '<', '/', 'a', ':', 'l', 'n', '>']); } push_str(&mut out, "\"/></a:solidFill></a:ln>");
                }
                proof { reveal_strlit("</p:spPr>"); assert("</p:spPr>"@ == /* </p:spPr> */ seq!['<', '/', 'p', ':', 's', 'p', 'P', 'r', '>']); } push_str(&mut out, "</p:spPr>");
            },
            None => {
                proof { reveal_strlit("<p:spPr/>"); assert("<p:spPr/>"@ == /* <p:spPr/> */ seq!['<', 'p', ':', 's', 'p', 'P', 'r', '/', '>']); } push_str(&mut out, "<p:spPr/>");
            },
        }
        assert(out@ =~= sppr_xml(*self));
        out
    }
}

/// A change made to the formatting of every run of a shape.
#[derive(Debug, Clone)]
pub enum RunEdit {
    Bold(bool),
    Italic(bool),
    Underline(bool),
    /// Font size in hundredths of a point.
    Size(i64),
    /// Text color, hex digits.
    Color(String),
    /// Latin typeface name.
    Font(String),
}

/// Run properties after an edit.
pub open spec fn edited(p: RunProps, e: RunEdit) -> RunProps {
    match e {
        RunEdit::Bold(on) => RunProps { bold: Some(on), ..p },
        RunEdit::Italic(on) => RunProps { italic: Some(on), ..p },
        RunEdit::Underline(on) => RunProps { underline: Some(on), ..p },
        RunEdit::Size(sz) => RunProps { size: Some(sz), ..p },
        RunEdit::Color(c) => RunProps { color: Some(c), ..p },
        RunEdit::Font(f) => RunProps { font: Some(f), ..p },
    }
}

/// Runs `new` are runs `old` with `e` applied to each one's properties.
pub open spec fn runs_edited(old: Seq<Run>, new: Seq<Run>, e: RunEdit) -> bool {
    &&& new.len() == old.len()
    &&& forall|j: int| 0 <= j < old.len() ==> (#[trigger] new[j]).text == old[j].text && new[j].props == edited(old[j].props, e)
}

/// Paragraphs `new` are paragraphs `old` with `e` applied to every run.
pub open spec fn paras_edited(old: Seq<Paragraph>, new: Seq<Paragraph>, e: RunEdit) -> bool {
    &&& new.len() == old.len()
    &&& forall|i: int| 0 <= i < old.len() ==> {
        &&& runs_edited(old[i].runs@, (#[trigger] new[i]).runs@, e)
        &&& new[i].level == old[i].level
        &&& new[i].align == old[i].align
        &&& new[i].bullet == old[i].bullet
    }
}

/// Shape `new` is `old` with only its paragraphs changed.
pub open spec fn same_but_body(old: Shape, new: Shape) -> bool {
    &&& new.id == old.id
    &&& new.name == old.name
    &&& new.placeholder == old.placeholder
    &&& new.xfrm == old.xfrm
    &&& new.text_box == old.text_box
    &&& new.geom == old.geom
    &&& new.fill == old.fill
    &&& new.line == old.line
}

fn edit_props(p: RunProps, e: &RunEdit) -> (r: RunProps)
    ensures
        r == edited(p, *e),
{
    let mut q = p;
    match e {
        RunEdit::Bold(on) => q.bold = Some(*on),
        RunEdit::Italic(on) => q.italic = Some(*on),
        RunEdit::Underline(on) => q.underline = Some(*on),
        RunEdit::Size(sz) => q.size = Some(*sz),
        RunEdit::Color(c) => q.color = Some(c.clone()),
        RunEdit::Font(f) => q.font = Some(f.clone()),
    }
    q
}

fn edit_runs(runs: Vec<Run>, e: &RunEdit) -> (r: Vec<Run>)
    ensures
        runs_edited(runs@, r@, *e),
{
    let mut all = runs;
    let ghost orig = all@;
    let mut out: Vec<Run> = Vec::new();
    let ghost mut k: int = 0;
    assert(orig.skip(0) =~= orig);
    while all.len() > 0
        invariant
            0 <= k <= orig.len(),
            k + all@.len() == orig.len(),
            all@ == orig.skip(k),
            out@.len() == k,
            forall|j: int| 0 <= j < k ==> (#[trigger] out@[j]).text == orig[j].text && out@[j].props == edited(orig[j].props, *e),
        decreases all@.len(),
    {
        let r = all.remove(0);
        proof {
            assert(r == orig[k]);
            assert(orig.skip(k + 1) =~= all@);
        }
        let props = edit_props(r.props, e);
        let ghost before = out@;
        out.push(Run { text: r.text, props });
        proof {
            assert forall|j: int| 0 <= j < k + 1 implies (#[trigger] out@[j]).text == orig[j].text && out@[j].props == edited(orig[j].props, *e) by {
                if j < k {
                    assert(out@[j] == before[j]);
                }
            }
            k = k + 1;
        }
    }
    out
}

fn edit_paragraphs(ps: Vec<Paragraph>, e: &RunEdit) -> (r: Vec<Paragraph>)
    ensures
        paras_edited(ps@, r@, *e),
{
    let mut all = ps;
    let ghost orig = all@;
    let mut out: Vec<Paragraph> = Vec::new();
    let ghost mut k: int = 0;
    assert(orig.skip(0) =~= orig);
    while all.len() > 0
        invariant
            0 <= k <= orig.len(),
            k + all@.len() == orig.len(),
            all@ == orig.skip(k),
            out@.len() == k,
            forall|i: int| 0 <= i < k ==> {
                &&& runs_edited(orig[i].runs@, (#[trigger] out@[i]).runs@, *e)
                &&& out@[i].level == orig[i].level
                &&& out@[i].align == orig[i].align
                &&& out@[i].bullet == orig[i].bullet
            },
        decreases all@.len(),
    {
        let p = all.remove(0);
        proof {
            assert(p == orig[k]);
            assert(orig.skip(k + 1) =~= all@);
        }
        let runs = edit_runs(p.runs, e);
        let ghost before = out@;
        out.push(Paragraph { runs, level: p.level, align: p.align, bullet: p.bullet });
        proof {
            assert forall|i: int| 0 <= i < k + 1 implies {
                &&& runs_edited(orig[i].runs@, (#[trigger] out@[i]).runs@, *e)
                &&& out@[i].level == orig[i].level
                &&& out@[i].align == orig[i].align
                &&& out@[i].bullet == orig[i].bullet
            } by {
                if i < k {
                    assert(out@[i] == before[i]);
                }
            }
            k = k + 1;
        }
    }
    out
}

impl Shape {
    /// Apply `e` to the formatting of every run.
    pub fn edit_runs(&mut self, e: RunEdit) -> (r: &mut Shape)
        ensures
            same_but_body(*old(self), *r),
            paras_edited(old(self).body.paragraphs@, r.body.paragraphs@, e),
            *final(self) == *final(r),
    {
        let mut ps: Vec<Paragraph> = Vec::new();
        std::mem::swap(&mut ps, &mut self.body.paragraphs);
        self.body.paragraphs = edit_paragraphs(ps, &e);
        self
    }

    /// Set bold on every run.
    pub fn bold(&mut self, on: bool) -> (r: &mut Shape)
        ensures
            same_but_body(*old(self), *r),
            paras_edited(old(self).body.paragraphs@, r.body.paragraphs@, RunEdit::Bold(on)),
            *final(self) == *final(r),
    {
        self.edit_runs(RunEdit::Bold(on))
    }

    /// Set italic on every run.
    pub fn italic(&mut self, on: bool) -> (r: &mut Shape)
        ensures
            same_but_body(*old(self), *r),
            paras_edited(old(self).body.paragraphs@, r.body.paragraphs@, RunEdit::Italic(on)),
            *final(self) == *final(r),
    {
        self.edit_runs(RunEdit::Italic(on))
    }

    /// Set underline on every run.
    pub fn underline(&mut self, on: bool) -> (r: &mut Shape)
        ensures
            same_but_body(*old(self), *r),
            paras_edited(old(self).body.paragraphs@, r.body.paragraphs@, RunEdit::Underline(on)),
            *final(self) == *final(r),
    {
        self.edit_runs(RunEdit::Underline(on))
    }

    /// Set the font size, in hundredths of a point, on every run.
    pub fn size(&mut self, hundredths: i64) -> (r: &mut Shape)
        ensures
            same_but_body(*old(self), *r),
            paras_edited(old(self).body.paragraphs@, r.body.paragraphs@, RunEdit::Size(hundredths)),
            *final(self) == *final(r),
    {
        self.edit_runs(RunEdit::Size(hundredths))
    }

    /// Set the text color on every run: `hex` without leading `#`.
    pub fn color(&mut self, hex: &str) -> (r: &mut Shape)
        ensures
            same_but_body(*old(self), *r),
            r.body.paragraphs@.len() == old(self).body.paragraphs@.len(),
            exists|c: String| c@ == trim_hashes(hex@) && #[trigger] paras_edited(
                old(self).body.paragraphs@,
                r.body.paragraphs@,
                RunEdit::Color(c),
            ),
            *final(self) == *final(r),
    {
        let c = trim_leading_hashes(hex);
        let ghost cv = c;
        let r = self.edit_runs(RunEdit::Color(c));
        assert(paras_edited(old(self).body.paragraphs@, r.body.paragraphs@, RunEdit::Color(cv)));
        r
    }

    /// Set the Latin typeface on every run.
    pub fn font(&mut self, family: &str) -> (r: &mut Shape)
        ensures
            same_but_body(*old(self), *r),
            r.body.paragraphs@.len() == old(self).body.paragraphs@.len(),
            exists|f: String| f@ == family@ && #[trigger] paras_edited(
                old(self).body.paragraphs@,
                r.body.paragraphs@,
                RunEdit::Font(f),
            ),
            *final(self) == *final(r),
    {
        let f = string_of(family);
        let ghost fv = f;
        let r = self.edit_runs(RunEdit::Font(f));
        assert(paras_edited(old(self).body.paragraphs@, r.body.paragraphs@, RunEdit::Font(fv)));
        r
    }

    /// Set the alignment of every paragraph.
    pub fn align(&mut self, align: Align) -> (r: &mut Shape)
        ensures
            same_but_body(*old(self), *r),
            r.body.paragraphs@.len() == old(self).body.paragraphs@.len(),
            forall|i: int| 0 <= i < old(self).body.paragraphs@.len() ==> {
                let o = old(self).body.paragraphs@[i];
                let n = (#[trigger] r.body.paragraphs@[i]);
                n.runs == o.runs && n.level == o.level && n.bullet == o.bullet && n.align == Some(align)
            },
            *final(self) == *final(r),
    {
        let mut all: Vec<Paragraph> = Vec::new();
        std::mem::swap(&mut all, &mut self.body.paragraphs);
        let ghost orig = all@;
        let mut out: Vec<Paragraph> = Vec::new();
        let ghost mut k: int = 0;
        assert(orig.skip(0) =~= orig);
        while all.len() > 0
            invariant
                0 <= k <= orig.len(),
                k + all@.len() == orig.len(),
                all@ == orig.skip(k),
                out@.len() == k,
                forall|i: int| 0 <= i < k ==> {
                    let o = orig[i];
                    let n = (#[trigger] out@[i]);
                    n.runs == o.runs && n.level == o.level && n.bullet == o.bullet && n.align == Some(align)
                },
            decreases all@.len(),
        {
            let p = all.remove(0);
            proof {
                assert(p == orig[k]);
                assert(orig.skip(k + 1) =~= all@);
            }
            let ghost before = out@;
            out.push(Paragraph { runs: p.runs, level: p.level, align: Some(align), bullet: p.bullet });
            proof {
                assert forall|i: int| 0 <= i < k + 1 implies {
                    let o = orig[i];
                    let n = (#[trigger] out@[i]);
                    n.runs == o.runs && n.level == o.level && n.bullet == o.bullet && n.align == Some(align)
                } by {
                    if i < k {
                        assert(out@[i] == before[i]);
                    }
                }
                k = k + 1;
            }
        }
        self.body.paragraphs = out;
        self
    }
}

// ─── Reading ────────────────────────────────────────────────────────────────

/// Run properties as plain values: bold, italic, underline, size, color,
/// typeface.
pub type RpView = (Option<bool>, Option<bool>, Option<bool>, Option<i64>, Option<Seq<char>>, Option<Seq<char>>);

/// A run as plain values: its text and properties.
pub type RunView = (Seq<char>, RpView);

/// A paragraph as plain values: runs, level, alignment, bullet.
pub type ParaView = (Seq<RunView>, Option<u8>, Option<Align>, Option<bool>);

/// What reading has gathered: finished paragraphs, the open paragraph, the
/// properties and text of the open run, and whether text is being read.
pub type ReadState = (Seq<ParaView>, Option<ParaView>, RpView, Seq<char>, bool);

pub open spec fn opt_text(o: Option<String>) -> Option<Seq<char>> {
    match o {
        Some(t) => Some(t@),
        None => None,
    }
}

pub open spec fn rp_view(p: RunProps) -> RpView {
    (p.bold, p.italic, p.underline, p.size, opt_text(p.color), opt_text(p.font))
}

pub open spec fn run_view(r: Run) -> RunView {
    (r.text@, rp_view(r.props))
}

pub open spec fn para_view(p: Paragraph) -> ParaView {
    (p.runs@.map_values(|r: Run| run_view(r)), p.level, p.align, p.bullet)
}

/// The paragraphs of a text body as plain values.
pub open spec fn body_view(b: TextBody) -> Seq<ParaView> {
    b.paragraphs@.map_values(|p: Paragraph| para_view(p))
}

pub open spec fn empty_rp() -> RpView {
    (None, None, None, None, None, None)
}

pub open spec fn empty_para() -> ParaView {
    (Seq::empty(), None, None, None)
}

/// The run properties an `rPr` tag's attributes give, read in order: `b`
/// and `i` on when `1`, `u` on unless `none`, `sz` the size when an `i64`
/// numeral. `None` when the size is not UTF-8.
pub open spec fn rpr_read(a: Seq<(Seq<u8>, Seq<u8>)>) -> Option<RpView>
    decreases a.len(),
{
    if a.len() == 0 {
        Some(empty_rp())
    } else {
        match rpr_read(a.drop_last()) {
            Some(p) => {
                let k = a.last().0;
                let v = a.last().1;
                if k == /* b */ seq![98u8] {
                    Some((Some(v == /* 1 */ seq![49u8]), p.1, p.2, p.3, p.4, p.5))
                } else if k == /* i */ seq![105u8] {
                    Some((p.0, Some(v == /* 1 */ seq![49u8]), p.2, p.3, p.4, p.5))
                } else if k == /* u */ seq![117u8] {
                    Some((p.0, p.1, Some(v != /* none */ seq![110u8, 111u8, 110u8, 101u8]), p.3, p.4, p.5))
                } else if k == /* sz */ seq![115u8, 122u8] {
                    match text_of(v) {
                        Some(_) => Some(
                            (
                                p.0,
                                p.1,
                                p.2,
                                match parse_signed(v, i64::MIN as int, i64::MAX as int) {
                                    Some(n) => Some(n as i64),
                                    None => None,
                                },
                                p.4,
                                p.5,
                            ),
                        ),
                        None => None,
                    }
                } else {
                    Some(p)
                }
            },
            None => None,
        }
    }
}

/// A paragraph after reading a `pPr` tag's attributes in order: `lvl` the
/// level when a `u8` numeral, `algn` the alignment it names. `None` when
/// such a value is not UTF-8.
pub open spec fn ppr_read(a: Seq<(Seq<u8>, Seq<u8>)>, p0: ParaView) -> Option<ParaView>
    decreases a.len(),
{
    if a.len() == 0 {
        Some(p0)
    } else {
        match ppr_read(a.drop_last(), p0) {
            Some(p) => {
                let k = a.last().0;
                let v = a.last().1;
                if k == /* lvl */ seq![108u8, 118u8, 108u8] {
                    match text_of(v) {
                        Some(_) => Some(
                            (
                                p.0,
                                match parse_unsigned(v, 255) {
                                    Some(n) => Some(n as u8),
                                    None => None,
                                },
                                p.2,
                                p.3,
                            ),
                        ),
                        None => None,
                    }
                } else if k == /* algn */ seq![97u8, 108u8, 103u8, 110u8] {
                    match text_of(v) {
                        Some(t) => Some((p.0, p.1, align_from(t), p.3)),
                        None => None,
                    }
                } else {
                    Some(p)
                }
            },
            None => None,
        }
    }
}

/// Reading a raw node: inside `a:t`, text (a raw node not starting with
/// `<`) is decoded, unescaped and appended; anything else is skipped.
pub open spec fn tb_raw(b: Seq<u8>, s: ReadState) -> Option<ReadState> {
    if s.4 && b.len() > 0 && b[0] != 60u8 {
        match text_of(b) {
            Some(t) => match unescaped(t) {
                Some(u) => Some((s.0, s.1, s.2, s.3 + u, s.4)),
                None => None,
            },
            None => None,
        }
    } else {
        Some(s)
    }
}

/// Reading a start tag (or, when `self_closing`, a self-closing tag) with
/// local name `l` and attributes `a`: `p` opens a paragraph, `pPr` sets the
/// open paragraph's level and alignment, `rPr` sets the run properties, `t`
/// starts text. Self-closing `p` and `t` do nothing.
pub open spec fn tb_start_v(l: Seq<u8>, a: Seq<(Seq<u8>, Seq<u8>)>, self_closing: bool, s: ReadState) -> Option<ReadState> {
    if l == /* p */ seq![112u8] && !self_closing {
        Some((s.0, Some(empty_para()), s.2, s.3, s.4))
    } else if l == /* pPr */ seq![112u8, 80u8, 114u8] {
        match s.1 {
            Some(p) => match ppr_read(a, p) {
                Some(q) => Some((s.0, Some(q), s.2, s.3, s.4)),
                None => None,
            },
            None => Some(s),
        }
    } else if l == /* rPr */ seq![114u8, 80u8, 114u8] {
        match rpr_read(a) {
            Some(rp) => Some((s.0, s.1, rp, s.3, s.4)),
            None => None,
        }
    } else if l == /* t */ seq![116u8] && !self_closing {
        Some((s.0, s.1, s.2, Seq::empty(), true))
    } else {
        Some(s)
    }
}

/// Reading an element's start tag.
pub open spec fn tb_start(e: Element, s: ReadState) -> Option<ReadState> {
    tb_start_v(e.local(), e.attrs_v(), e.self_closing, s)
}

/// Reading an end tag with local name `l`: `t` ends text, `r` adds the
/// run to the open paragraph (taking its text and properties), `p` closes
/// the open paragraph.
pub open spec fn tb_end_v(l: Seq<u8>, s: ReadState) -> ReadState {
    if l == /* t */ seq![116u8] {
        (s.0, s.1, s.2, s.3, false)
    } else if l == /* r */ seq![114u8] {
        match s.1 {
            Some(p) => (s.0, Some((p.0.push((s.3, s.2)), p.1, p.2, p.3)), empty_rp(), Seq::empty(), s.4),
            None => s,
        }
    } else if l == /* p */ seq![112u8] {
        match s.1 {
            Some(p) => (s.0.push(p), None, s.2, s.3, s.4),
            None => s,
        }
    } else {
        s
    }
}

/// Reading an element's end tag.
pub open spec fn tb_end(e: Element, s: ReadState) -> ReadState {
    tb_end_v(e.local(), s)
}

/// Reading one node, in document order.
pub open spec fn tb_step(n: Node, s: ReadState) -> Option<ReadState>
    decreases n,
{
    match n {
        Node::Raw(b) => tb_raw(b@, s),
        Node::Element(e) => match tb_start(e, s) {
            Some(s1) => if e.self_closing {
                Some(s1)
            } else {
                match tb_fold(e.children@, s1) {
                    Some(s2) => Some(tb_end(e, s2)),
                    None => None,
                }
            },
            None => None,
        },
    }
}

/// Reading nodes in order.
pub open spec fn tb_fold(ns: Seq<Node>, s: ReadState) -> Option<ReadState>
    decreases ns,
{
    if ns.len() == 0 {
        Some(s)
    } else {
        match tb_fold(ns.drop_last(), s) {
            Some(t) => tb_step(ns.last(), t),
            None => None,
        }
    }
}

/// What reading markup `src` report by report gives, from the reader's
/// `k`-th report at byte offset `pos` in reading state `s`: start and
/// self-closing tags as [`tb_start_v`], end tags as [`tb_end_v`], text as
/// [`tb_raw`] (the bytes from the previous offset to the reader's new one),
/// everything else skipped, until the end of input. `None` when the reader
/// fails, a report makes no progress or ends outside the input, a value
/// read is not well formed, or the attributes of an `rPr`, or of a `pPr`
/// inside a paragraph, cannot be read.
pub open spec fn tb_read(src: Seq<u8>, k: nat, pos: int, s: ReadState) -> Option<ReadState>
    decreases src.len() - pos,
{
    if pos < 0 || pos > src.len() {
        None
    } else {
        let st = xml_step(src, false, k);
        let end = st.1 as int;
        if st.0 == step_error() || end > src.len() || end < pos {
            None
        } else if st.0 == step_eof() {
            Some(s)
        } else if end == pos {
            None
        } else if st.0 == step_start() || st.0 == step_empty() {
            let l = local_of(st.2);
            match st.3 {
                Some(a) => match tb_start_v(l, a, st.0 == step_empty(), s) {
                    Some(s2) => tb_read(src, k + 1, end, s2),
                    None => None,
                },
                None => if l == /* rPr */ seq![114u8, 80u8, 114u8] || (l == /* pPr */ seq![112u8, 80u8, 114u8] && s.1 is Some) {
                    None
                } else {
                    tb_read(src, k + 1, end, s)
                },
            }
        } else if st.0 == step_end_tag() {
            tb_read(src, k + 1, end, tb_end_v(local_of(st.2), s))
        } else {
            match tb_raw(src.subrange(pos, end), s) {
                Some(s2) => tb_read(src, k + 1, end, s2),
                None => None,
            }
        }
    }
}

/// The paragraphs text-body markup gives, read report by report.
pub open spec fn text_body_read(src: Seq<u8>) -> Option<Seq<ParaView>> {
    match tb_read(src, 0, 0, reading_start()) {
        Some(s) => Some(s.0),
        None => None,
    }
}

pub open spec fn reading_start() -> ReadState {
    (Seq::empty(), None, empty_rp(), Seq::empty(), false)
}

/// The paragraphs a parsed document's markup gives, when the text and
/// values read are well formed.
pub open spec fn text_body_of(d: Document) -> Option<Seq<ParaView>> {
    match tb_fold(d.nodes@, reading_start()) {
        Some(s) => Some(s.0),
        None => None,
    }
}

struct Reading {
    paras: Vec<Paragraph>,
    cur: Option<Paragraph>,
    rprops: RunProps,
    text: String,
    in_t: bool,
}

spec fn reading_view(r: Reading) -> ReadState {
    (
        r.paras@.map_values(|p: Paragraph| para_view(p)),
        match r.cur {
            Some(p) => Some(para_view(p)),
            None => None,
        },
        rp_view(r.rprops),
        r.text@,
        r.in_t,
    )
}

proof fn lemma_rpr_none(a: Seq<(Seq<u8>, Seq<u8>)>, k: int)
    requires
        0 <= k <= a.len(),
        rpr_read(a.take(k)) is None,
    ensures
        rpr_read(a) is None,
    decreases a.len() - k,
{
    if k < a.len() {
        assert(a.take(k + 1).drop_last() =~= a.take(k));
        lemma_rpr_none(a, k + 1);
    } else {
        assert(a.take(k) =~= a);
    }
}

proof fn lemma_ppr_none(a: Seq<(Seq<u8>, Seq<u8>)>, p0: ParaView, k: int)
    requires
        0 <= k <= a.len(),
        ppr_read(a.take(k), p0) is None,
    ensures
        ppr_read(a, p0) is None,
    decreases a.len() - k,
{
    if k < a.len() {
        assert(a.take(k + 1).drop_last() =~= a.take(k));
        lemma_ppr_none(a, p0, k + 1);
    } else {
        assert(a.take(k) =~= a);
    }
}

proof fn lemma_fold_none(ns: Seq<Node>, s: ReadState, k: int)
    requires
        0 <= k <= ns.len(),
        tb_fold(ns.take(k), s) is None,
    ensures
        tb_fold(ns, s) is None,
    decreases ns.len() - k,
{
    if k < ns.len() {
        assert(ns.take(k + 1).drop_last() =~= ns.take(k));
        lemma_fold_none(ns, s, k + 1);
    } else {
        assert(ns.take(k) =~= ns);
    }
}

fn read_rpr(a: &Vec<(Vec<u8>, Vec<u8>)>) -> (r: Result<RunProps, OxmlError>)
    ensures
        match r {
            Ok(p) => rpr_read(attrs_view(a@)) == Some(rp_view(p)),
            Err(_) => rpr_read(attrs_view(a@)) is None,
        },
{
    let kb: [u8; 1] = /* b */ [98u8];
    let ki: [u8; 1] = /* i */ [105u8];
    let ku: [u8; 1] = /* u */ [117u8];
    let ksz: [u8; 2] = /* sz */ [115u8, 122u8];
    let one: [u8; 1] = /* 1 */ [49u8];
    let none: [u8; 4] = /* none */ [110u8, 111u8, 110u8, 101u8];
    assert(kb@ =~= /* b */ seq![98u8]);
    assert(ki@ =~= /* i */ seq![105u8]);
    assert(ku@ =~= /* u */ seq![117u8]);
    assert(ksz@ =~= /* sz */ seq![115u8, 122u8]);
    assert(one@ =~= /* 1 */ seq![49u8]);
    assert(none@ =~= /* none */ seq![110u8, 111u8, 110u8, 101u8]);
    let mut p = RunProps::default();
    let mut i: usize = 0;
    while i < a.len()
        invariant
            i <= a@.len(),
            kb@ == /* b */ seq![98u8],
            ki@ == /* i */ seq![105u8],
            ku@ == /* u */ seq![117u8],
            ksz@ == /* sz */ seq![115u8, 122u8],
            one@ == /* 1 */ seq![49u8],
            none@ == /* none */ seq![110u8, 111u8, 110u8, 101u8],
            rpr_read(attrs_view(a@).take(i as int)) == Some(rp_view(p)),
        decreases a@.len() - i,
    {
        proof {
            assert(attrs_view(a@).take(i + 1).drop_last() =~= attrs_view(a@).take(i as int));
            assert(attrs_view(a@).take(i + 1).last() == (a@[i as int].0@, a@[i as int].1@));
        }
        let k = a[i].0.as_slice();
        let v = a[i].1.as_slice();
        if crate::bytes::bytes_eq(k, kb.as_slice()) {
            p.bold = Some(crate::bytes::bytes_eq(v, one.as_slice()));
        } else if crate::bytes::bytes_eq(k, ki.as_slice()) {
            p.italic = Some(crate::bytes::bytes_eq(v, one.as_slice()));
        } else if crate::bytes::bytes_eq(k, ku.as_slice()) {
            p.underline = Some(!crate::bytes::bytes_eq(v, none.as_slice()));
        } else if crate::bytes::bytes_eq(k, ksz.as_slice()) {
            match utf8_string(v) {
                Ok(_) => {
                    p.size = parse_i64(v);
                },
                Err(m) => {
                    proof { lemma_rpr_none(attrs_view(a@), i as int + 1); }
                    return Err(OxmlError::Utf8(m));
                },
            }
        }
        i = i + 1;
    }
    assert(attrs_view(a@).take(a@.len() as int) =~= attrs_view(a@));
    Ok(p)
}

fn read_ppr(a: &Vec<(Vec<u8>, Vec<u8>)>, p: &mut Paragraph) -> (r: Result<(), OxmlError>)
    ensures
        match r {
            Ok(_) => ppr_read(attrs_view(a@), para_view(*old(p))) == Some(para_view(*final(p))),
            Err(_) => ppr_read(attrs_view(a@), para_view(*old(p))) is None,
        },
{
    let kl: [u8; 3] = /* lvl */ [108u8, 118u8, 108u8];
    let ka: [u8; 4] = /* algn */ [97u8, 108u8, 103u8, 110u8];
    assert(kl@ =~= /* lvl */ seq![108u8, 118u8, 108u8]);
    assert(ka@ =~= /* algn */ seq![97u8, 108u8, 103u8, 110u8]);
    let ghost p0 = para_view(*p);
    let mut i: usize = 0;
    while i < a.len()
        invariant
            i <= a@.len(),
            kl@ == /* lvl */ seq![108u8, 118u8, 108u8],
            ka@ == /* algn */ seq![97u8, 108u8, 103u8, 110u8],
            p0 == para_view(*old(p)),
            ppr_read(attrs_view(a@).take(i as int), p0) == Some(para_view(*p)),
        decreases a@.len() - i,
    {
        proof {
            assert(attrs_view(a@).take(i + 1).drop_last() =~= attrs_view(a@).take(i as int));
            assert(attrs_view(a@).take(i + 1).last() == (a@[i as int].0@, a@[i as int].1@));
        }
        let k = a[i].0.as_slice();
        let v = a[i].1.as_slice();
        if crate::bytes::bytes_eq(k, kl.as_slice()) {
            match utf8_string(v) {
                Ok(_) => {
                    p.level = match parse_u32(v) {
                        Some(n) => if n <= 255 {
                            Some(n as u8)
                        } else {
                            None
                        },
                        None => None,
                    };
                },
                Err(m) => {
                    proof { lemma_ppr_none(attrs_view(a@), p0, i as int + 1); }
                    return Err(OxmlError::Utf8(m));
                },
            }
        } else if crate::bytes::bytes_eq(k, ka.as_slice()) {
            match utf8_string(v) {
                Ok(t) => {
                    p.align = Align::parse(t.as_str());
                },
                Err(m) => {
                    proof { lemma_ppr_none(attrs_view(a@), p0, i as int + 1); }
                    return Err(OxmlError::Utf8(m));
                },
            }
        }
        i = i + 1;
    }
    assert(attrs_view(a@).take(a@.len() as int) =~= attrs_view(a@));
    Ok(())
}

fn read_raw(b: &Vec<u8>, st: &mut Reading) -> (r: Result<(), OxmlError>)
    ensures
        match r {
            Ok(_) => tb_raw(b@, reading_view(*old(st))) == Some(reading_view(*final(st))),
            Err(_) => tb_raw(b@, reading_view(*old(st))) is None,
        },
{
    if st.in_t && b.len() > 0 && b[0] != 60u8 {
        let t = match utf8_string(b.as_slice()) {
            Ok(t) => t,
            Err(m) => return Err(OxmlError::Xml(m)),
        };
        let u = match unescape_text(t.as_str()) {
            Ok(u) => u,
            Err(m) => return Err(OxmlError::Xml(m)),
        };
        push_str(&mut st.text, u.as_str());
    }
    Ok(())
}

fn read_start(e: &Element, st: &mut Reading) -> (r: Result<(), OxmlError>)
    ensures
        match r {
            Ok(_) => tb_start(*e, reading_view(*old(st))) == Some(reading_view(*final(st))),
            Err(_) => tb_start(*e, reading_view(*old(st))) is None,
        },
{
    let pn: [u8; 1] = /* p */ [112u8];
    let ppn: [u8; 3] = /* pPr */ [112u8, 80u8, 114u8];
    let rpn: [u8; 3] = /* rPr */ [114u8, 80u8, 114u8];
    let tn: [u8; 1] = /* t */ [116u8];
    assert(pn@ =~= /* p */ seq![112u8]);
    assert(ppn@ =~= /* pPr */ seq![112u8, 80u8, 114u8]);
    assert(rpn@ =~= /* rPr */ seq![114u8, 80u8, 114u8]);
    assert(tn@ =~= /* t */ seq![116u8]);
    if e.is_named(pn.as_slice()) && !e.self_closing {
        st.cur = Some(Paragraph::default());
        proof {
            let p = st.cur->0;
            assert(p.runs@.map_values(|r: Run| run_view(r)) =~= Seq::<RunView>::empty());
        }
    } else if e.is_named(ppn.as_slice()) {
        let mut c: Option<Paragraph> = None;
        std::mem::swap(&mut c, &mut st.cur);
        match c {
            Some(mut p) => {
                let res = read_ppr(&e.attrs, &mut p);
                st.cur = Some(p);
                if let Err(x) = res {
                    return Err(x);
                }
            },
            None => {},
        }
    } else if e.is_named(rpn.as_slice()) {
        match read_rpr(&e.attrs) {
            Ok(p) => {
                st.rprops = p;
            },
            Err(x) => return Err(x),
        }
    } else if e.is_named(tn.as_slice()) && !e.self_closing {
        st.text = String::new();
        st.in_t = true;
    }
    Ok(())
}

fn read_end(e: &Element, st: &mut Reading)
    ensures
        tb_end(*e, reading_view(*old(st))) == reading_view(*final(st)),
{
    let pn: [u8; 1] = /* p */ [112u8];
    let rn: [u8; 1] = /* r */ [114u8];
    let tn: [u8; 1] = /* t */ [116u8];
    assert(pn@ =~= /* p */ seq![112u8]);
    assert(rn@ =~= /* r */ seq![114u8]);
    assert(tn@ =~= /* t */ seq![116u8]);
    if e.is_named(tn.as_slice()) {
        st.in_t = false;
    } else if e.is_named(rn.as_slice()) {
        let mut c: Option<Paragraph> = None;
        std::mem::swap(&mut c, &mut st.cur);
        match c {
            Some(mut p) => {
                let mut text = String::new();
                std::mem::swap(&mut text, &mut st.text);
                let mut props = RunProps::default();
                std::mem::swap(&mut props, &mut st.rprops);
                let ghost before = p.runs@;
                let run = Run { text, props };
                p.runs.push(run);
                proof {
                    assert(p.runs@.map_values(|r: Run| run_view(r)) =~= before.map_values(|r: Run| run_view(r)).push(
                        run_view(run),
                    ));
                }
                st.cur = Some(p);
            },
            None => {},
        }
    } else if e.is_named(pn.as_slice()) {
        let mut c: Option<Paragraph> = None;
        std::mem::swap(&mut c, &mut st.cur);
        match c {
            Some(p) => {
                let ghost before = st.paras@;
                let ghost pv = para_view(p);
                st.paras.push(p);
                proof {
                    assert(st.paras@.map_values(|q: Paragraph| para_view(q)) =~= before.map_values(
                        |q: Paragraph| para_view(q),
                    ).push(pv));
                }
            },
            None => {},
        }
    }
}

fn read_nodes(ns: &Vec<Node>, st: &mut Reading) -> (r: Result<(), OxmlError>)
    ensures
        match r {
            Ok(_) => tb_fold(ns@, reading_view(*old(st))) == Some(reading_view(*final(st))),
            Err(_) => tb_fold(ns@, reading_view(*old(st))) is None,
        },
    decreases ns@,
{
    let ghost s0 = reading_view(*st);
    let mut i: usize = 0;
    while i < ns.len()
        invariant
            i <= ns@.len(),
            s0 == reading_view(*old(st)),
            tb_fold(ns@.take(i as int), s0) == Some(reading_view(*st)),
        decreases ns@.len() - i,
    {
        proof {
            assert(ns@.take(i + 1).drop_last() =~= ns@.take(i as int));
            assert(ns@.take(i + 1).last() == ns@[i as int]);
        }
        let ghost before = reading_view(*st);
        match read_node(&ns[i], st) {
            Ok(_) => {},
            Err(e) => {
                proof {
                    assert(tb_step(ns@[i as int], before) is None);
                    assert(tb_fold(ns@.take(i + 1), s0) is None);
                    lemma_fold_none(ns@, s0, i as int + 1);
                }
                return Err(e);
            },
        }
        i = i + 1;
    }
    assert(ns@.take(ns@.len() as int) =~= ns@);
    Ok(())
}

fn read_node(n: &Node, st: &mut Reading) -> (r: Result<(), OxmlError>)
    ensures
        match r {
            Ok(_) => tb_step(*n, reading_view(*old(st))) == Some(reading_view(*final(st))),
            Err(_) => tb_step(*n, reading_view(*old(st))) is None,
        },
    decreases *n,
{
    match n {
        Node::Raw(b) => read_raw(b, st),
        Node::Element(e) => {
            if let Err(x) = read_start(e, st) {
                return Err(x);
            }
            if e.self_closing {
                return Ok(());
            }
            if let Err(x) = read_nodes(&e.children, st) {
                return Err(x);
            }
            read_end(e, st);
            Ok(())
        },
    }
}

impl TextBody {
    /// Read the paragraphs of parsed markup (see [`tb_step`]): their runs'
    /// text, bold, italic, underline and size, and their level and
    /// alignment; colors and typefaces are not read back. Fails when text
    /// inside `a:t` is not UTF-8 or not well escaped, or a value read is not
    /// UTF-8.
    pub fn from_document(d: &Document) -> (r: Result<TextBody, OxmlError>)
        ensures
            match r {
                Ok(b) => text_body_of(*d) == Some(body_view(b)),
                Err(_) => text_body_of(*d) is None,
            },
    {
        let mut st = Reading {
            paras: Vec::new(),
            cur: None,
            rprops: RunProps::default(),
            text: String::new(),
            in_t: false,
        };
        proof {
            assert(st.paras@.map_values(|p: Paragraph| para_view(p)) =~= Seq::<ParaView>::empty());
            assert(reading_view(st) == reading_start());
        }
        match read_nodes(&d.nodes, &mut st) {
            Ok(_) => {},
            Err(e) => return Err(e),
        }
        Ok(TextBody { paragraphs: st.paras })
    }

    /// Parse text-body markup, reading the XML reader's reports in turn (see
    /// [`tb_read`]): elements left open at the end are closed by the end of
    /// input, and only the attributes of `rPr`, and of `pPr` inside a
    /// paragraph, must be readable.
    pub fn from_xml(xml: &[u8]) -> (r: Result<TextBody, OxmlError>)
        ensures
            match r {
                Ok(b) => text_body_read(xml@) == Some(body_view(b)),
                Err(_) => text_body_read(xml@) is None,
            },
    {
        let mut reader = open_reader(xml);
        let mut st = Reading {
            paras: Vec::new(),
            cur: None,
            rprops: RunProps::default(),
            text: String::new(),
            in_t: false,
        };
        proof {
            assert(st.paras@.map_values(|p: Paragraph| para_view(p)) =~= Seq::<ParaView>::empty());
            assert(reading_view(st) == reading_start());
        }
        let mut pos: usize = 0;
        loop
            invariant_except_break
                pos <= xml@.len(),
                reader_input(reader) == xml@,
                !reader_trims(reader),
                tb_read(xml@, 0, 0, reading_start()) == tb_read(xml@, reader_reads(reader), pos as int, reading_view(st)),
            ensures
                tb_read(xml@, 0, 0, reading_start()) == Some(reading_view(st)),
            decreases xml@.len() - pos,
        {
            let ghost k = reader_reads(reader);
            let ghost stp = xml_step(xml@, false, k);
            let ev = match read_event(&mut reader) {
                Ok(ev) => ev,
                Err(m) => return Err(OxmlError::Xml(m)),
            };
            let end64 = reader_position(&reader);
            if end64 > xml.len() as u64 || (end64 as usize) < pos {
                return Err(OxmlError::Parse(string_of("reader position out of range")));
            }
            let end = end64 as usize;
            if let XmlEvent::Eof = ev {
                break;
            }
            if end == pos {
                return Err(OxmlError::Parse(string_of("reader made no progress")));
            }
            match ev {
                XmlEvent::Tag(empty, name, attrs) => match attrs {
                    Ok(a) => {
                        let el = Element {
                            name,
                            raw_start: Vec::new(),
                            raw_end: Vec::new(),
                            self_closing: empty,
                            dirty: false,
                            attrs: a,
                            children: Vec::new(),
                        };
                        if let Err(x) = read_start(&el, &mut st) {
                            return Err(x);
                        }
                    },
                    Err(msg) => {
                        let l = local_name_of(name.as_slice());
                        let must = bytes_eq(l, /* rPr */ [114u8, 80u8, 114u8].as_slice()) || (bytes_eq(l, /* pPr */ [112u8, 80u8, 114u8].as_slice()) && st.cur.is_some());
                        if must {
                            return Err(OxmlError::XmlAttr(msg));
                        }
                    },
                },
                XmlEvent::End(name) => {
                    let el = Element {
                        name,
                        raw_start: Vec::new(),
                        raw_end: Vec::new(),
                        self_closing: false,
                        dirty: false,
                        attrs: Vec::new(),
                        children: Vec::new(),
                    };
                    read_end(&el, &mut st);
                },
                _ => {
                    let raw = to_vec(slice_of(xml, pos, end));
                    if let Err(x) = read_raw(&raw, &mut st) {
                        return Err(x);
                    }
                },
            }
            pos = end;
        }
        Ok(TextBody { paragraphs: st.paras })
    }
}

} // verus!
