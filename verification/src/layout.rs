//! The neutral scene vocabulary shared by layout and rendering: colors,
//! rectangles in EMU, alignment, dash styles and backgrounds.

use vstd::prelude::*;
use crate::text::{chars_eq_str, chars_of};
use vstd::utf8::encode_utf8;

verus! {

/// English Metric Units per inch.
pub const EMU_PER_INCH: i64 = 914400;

/// An sRGB color.
#[derive(Debug, Clone, Copy, PartialEq, Eq, Structural)]
pub struct Color {
    pub r: u8,
    pub g: u8,
    pub b: u8,
}

/// The value of a hexadecimal digit byte (`0-9`, `a-f`, `A-F`).
pub open spec fn hex_digit(b: u8) -> Option<u8> {
    if 48 <= b <= 57 {
        Some((b - 48) as u8)
    } else if 97 <= b <= 102 {
        Some((b - 87) as u8)
    } else if 65 <= b <= 70 {
        Some((b - 55) as u8)
    } else {
        None
    }
}

/// A two-byte field read as a base-16 `u8`: both bytes must be hex digits.
pub open spec fn hex_pair(x: u8, y: u8) -> Option<u8> {
    match (hex_digit(x), hex_digit(y)) {
        (Some(a), Some(b)) => Some((a * 16 + b) as u8),
        _ => None,
    }
}

/// The bytes after all leading `#` bytes.
pub open spec fn strip_hash(b: Seq<u8>) -> Seq<u8>
    decreases b.len(),
{
    if b.len() > 0 && b[0] == 35 {
        strip_hash(b.drop_first())
    } else {
        b
    }
}

/// The color spelled by six hex bytes `RRGGBB`, if they spell one.
pub open spec fn hex_color(h: Seq<u8>) -> Option<Color> {
    if h.len() != 6 {
        None
    } else {
        match (hex_pair(h[0], h[1]), hex_pair(h[2], h[3]), hex_pair(h[4], h[5])) {
            (Some(r), Some(g), Some(b)) => Some(Color { r, g, b }),
            _ => None,
        }
    }
}

proof fn lemma_strip_hash_suffix(b: Seq<u8>)
    ensures
        strip_hash(b).len() <= b.len(),
        strip_hash(b) == b.skip(b.len() - strip_hash(b).len()),
        strip_hash(b).len() > 0 ==> strip_hash(b)[0] != 35,
        forall|k: int| 0 <= k < b.len() - strip_hash(b).len() ==> b[k] == 35,
    decreases b.len(),
{
    if b.len() > 0 && b[0] == 35 {
        lemma_strip_hash_suffix(b.drop_first());
        assert(b.drop_first().skip(b.drop_first().len() - strip_hash(b).len()) =~= b.skip(
            b.len() - strip_hash(b).len(),
        ));
        assert forall|k: int| 0 <= k < b.len() - strip_hash(b).len() implies b[k] == 35 by {
            if k > 0 {
                assert(b[k] == b.drop_first()[k - 1]);
            }
        }
    } else {
        assert(b.skip(0) =~= b);
    }
}

fn hex_digit_of(b: u8) -> (r: Option<u8>)
    ensures
        r == hex_digit(b),
{
    if 48 <= b && b <= 57 {
        Some(b - 48)
    } else if 97 <= b && b <= 102 {
        Some(b - 87)
    } else if 65 <= b && b <= 70 {
        Some(b - 55)
    } else {
        None
    }
}

fn hex_pair_of(x: u8, y: u8) -> (r: Option<u8>)
    ensures
        r == hex_pair(x, y),
{
    match (hex_digit_of(x), hex_digit_of(y)) {
        (Some(a), Some(b)) => Some(a * 16 + b),
        _ => None,
    }
}

impl Color {
    /// Pure black.
    pub fn black() -> (c: Color)
        ensures
            c == (Color { r: 0, g: 0, b: 0 }),
    {
        Color { r: 0, g: 0, b: 0 }
    }

    /// Pure white.
    pub fn white() -> (c: Color)
        ensures
            c == (Color { r: 255, g: 255, b: 255 }),
    {
        Color { r: 255, g: 255, b: 255 }
    }

    /// Parse `#RRGGBB` or `RRGGBB` (leading `#` characters are skipped): six
    /// hex digits, read in pairs; `None` when malformed.
    pub fn from_hex(s: &str) -> (r: Option<Color>)
        ensures
            r == hex_color(strip_hash(encode_utf8(s@))),
    {
        let b = s.as_bytes();
        let n = b.len();
        proof { lemma_strip_hash_suffix(b@); }
        let mut i: usize = 0;
        assert(b@.skip(0) =~= b@);
        while i < n && b[i] == 35
            invariant
                n == b@.len(),
                i <= n,
                strip_hash(b@.skip(i as int)) == strip_hash(b@),
            decreases n - i,
        {
            assert(b@.skip(i as int).drop_first() =~= b@.skip(i + 1));
            i = i + 1;
        }
        let ghost h = b@.skip(i as int);
        assert(strip_hash(h) == h) by {
            if h.len() > 0 {
                assert(h[0] == b@[i as int]);
            }
        }
        if n - i != 6 {
            return None;
        }
        let r = match hex_pair_of(b[i], b[i + 1]) {
            Some(v) => v,
            None => return None,
        };
        let g = match hex_pair_of(b[i + 2], b[i + 3]) {
            Some(v) => v,
            None => return None,
        };
        let bl = match hex_pair_of(b[i + 4], b[i + 5]) {
            Some(v) => v,
            None => return None,
        };
        Some(Color { r, g, b: bl })
    }
}

/// A rectangle in EMU.
#[derive(Debug, Clone, Copy, PartialEq, Eq, Structural)]
pub struct Rect {
    pub x: i64,
    pub y: i64,
    pub w: i64,
    pub h: i64,
}

/// Paragraph alignment.
#[derive(Debug, Clone, Copy, PartialEq, Eq, Structural)]
pub enum Alignment {
    Left,
    Center,
    Right,
    Justify,
}

impl Default for Alignment {
    fn default() -> (r: Alignment)
        ensures
            r == Alignment::Left,
    {
        Alignment::Left
    }
}

/// Vertical anchoring of text within its frame.
#[derive(Debug, Clone, Copy, PartialEq, Eq, Structural)]
pub enum VerticalAnchor {
    Top,
    Middle,
    Bottom,
}

impl Default for VerticalAnchor {
    fn default() -> (r: VerticalAnchor)
        ensures
            r == VerticalAnchor::Top,
    {
        VerticalAnchor::Top
    }
}

/// A picture fill: the shape is filled with an image (encoded bytes).
#[derive(Debug, Clone)]
pub struct PictureFill {
    pub data: Vec<u8>,
}

/// Outline dash styles of PresentationML (`a:prstDash@val`).
#[derive(Debug, Clone, Copy, PartialEq, Eq, Structural)]
pub enum DashStyle {
    Solid,
    Dot,
    Dash,
    LgDash,
    DashDot,
    LgDashDot,
    LgDashDotDot,
    SysDot,
    SysDash,
    SysDashDot,
    SysDashDotDot,
}

/// The `prstDash@val` text of each dash style.
pub open spec fn dash_val(d: DashStyle) -> Seq<char> {
    match d {
        DashStyle::Solid => /* solid */ seq!['s', 'o', 'l', 'i', 'd'],
        DashStyle::Dot => /* dot */ seq!['d', 'o', 't'],
        DashStyle::Dash => /* dash */ seq!['d', 'a', 's', 'h'],
        DashStyle::LgDash => /* lgDash */ seq!['l', 'g', 'D', 'a', 's', 'h'],
        DashStyle::DashDot => /* dashDot */ seq!['d', 'a', 's', 'h', 'D', 'o', 't'],
        DashStyle::LgDashDot => /* lgDashDot */ seq!['l', 'g', 'D', 'a', 's', 'h', 'D', 'o', 't'],
        DashStyle::LgDashDotDot => /* lgDashDotDot */ seq!['l', 'g', 'D', 'a', 's', 'h', 'D', 'o', 't', 'D', 'o', 't'],
        DashStyle::SysDot => /* sysDot */ seq!['s', 'y', 's', 'D', 'o', 't'],
        DashStyle::SysDash => /* sysDash */ seq!['s', 'y', 's', 'D', 'a', 's', 'h'],
        DashStyle::SysDashDot => /* sysDashDot */ seq!['s', 'y', 's', 'D', 'a', 's', 'h', 'D', 'o', 't'],
        DashStyle::SysDashDotDot => /* sysDashDotDot */ seq!['s', 'y', 's', 'D', 'a', 's', 'h', 'D', 'o', 't', 'D', 'o', 't'],
    }
}

/// The dash style named by `v`; unknown names read as solid.
pub open spec fn dash_from(v: Seq<char>) -> DashStyle {
    if v == /* dot */ seq!['d', 'o', 't'] {
        DashStyle::Dot
    } else if v == /* dash */ seq!['d', 'a', 's', 'h'] {
        DashStyle::Dash
    } else if v == /* lgDash */ seq!['l', 'g', 'D', 'a', 's', 'h'] {
        DashStyle::LgDash
    } else if v == /* dashDot */ seq!['d', 'a', 's', 'h', 'D', 'o', 't'] {
        DashStyle::DashDot
    } else if v == /* lgDashDot */ seq!['l', 'g', 'D', 'a', 's', 'h', 'D', 'o', 't'] {
        DashStyle::LgDashDot
    } else if v == /* lgDashDotDot */ seq!['l', 'g', 'D', 'a', 's', 'h', 'D', 'o', 't', 'D', 'o', 't'] {
        DashStyle::LgDashDotDot
    } else if v == /* sysDot */ seq!['s', 'y', 's', 'D', 'o', 't'] {
        DashStyle::SysDot
    } else if v == /* sysDash */ seq!['s', 'y', 's', 'D', 'a', 's', 'h'] {
        DashStyle::SysDash
    } else if v == /* sysDashDot */ seq!['s', 'y', 's', 'D', 'a', 's', 'h', 'D', 'o', 't'] {
        DashStyle::SysDashDot
    } else if v == /* sysDashDotDot */ seq!['s', 'y', 's', 'D', 'a', 's', 'h', 'D', 'o', 't', 'D', 'o', 't'] {
        DashStyle::SysDashDotDot
    } else {
        DashStyle::Solid
    }
}

/// SVG `stroke-dasharray` of each dash style, in multiples of the stroke
/// width; solid needs none.
pub open spec fn dash_array(d: DashStyle) -> Option<Seq<char>> {
    match d {
        DashStyle::Solid => None,
        DashStyle::Dot => Some(/* 1 1 */ seq!['1', ' ', '1']),
        DashStyle::Dash => Some(/* 4 3 */ seq!['4', ' ', '3']),
        DashStyle::LgDash => Some(/* 8 3 */ seq!['8', ' ', '3']),
        DashStyle::DashDot => Some(/* 4 3 1 3 */ seq!['4', ' ', '3', ' ', '1', ' ', '3']),
        DashStyle::LgDashDot => Some(/* 8 3 1 3 */ seq!['8', ' ', '3', ' ', '1', ' ', '3']),
        DashStyle::LgDashDotDot => Some(/* 8 3 1 3 1 3 */ seq!['8', ' ', '3', ' ', '1', ' ', '3', ' ', '1', ' ', '3']),
        DashStyle::SysDot => Some(/* 1 1 */ seq!['1', ' ', '1']),
        DashStyle::SysDash => Some(/* 3 1 */ seq!['3', ' ', '1']),
        DashStyle::SysDashDot => Some(/* 3 1 1 1 */ seq!['3', ' ', '1', ' ', '1', ' ', '1']),
        DashStyle::SysDashDotDot => Some(/* 3 1 1 1 1 1 */ seq!['3', ' ', '1', ' ', '1', ' ', '1', ' ', '1', ' ', '1']),
    }
}

impl DashStyle {
    /// Parse a `prstDash@val` value; unrecognized values give `Solid`.
    pub fn from_prstml(val: &str) -> (r: DashStyle)
        ensures
            r == dash_from(val@),
    {
        proof {
            reveal_strlit("dot");
            reveal_strlit("dash");
            reveal_strlit("lgDash");
            reveal_strlit("dashDot");
            reveal_strlit("lgDashDot");
            reveal_strlit("lgDashDotDot");
            reveal_strlit("sysDot");
            reveal_strlit("sysDash");
            reveal_strlit("sysDashDot");
            reveal_strlit("sysDashDotDot");
            assert("dot"@ == /* dot */ seq!['d', 'o', 't']);
            assert("dash"@ == /* dash */ seq!['d', 'a', 's', 'h']);
            assert("lgDash"@ == /* lgDash */ seq!['l', 'g', 'D', 'a', 's', 'h']);
            assert("dashDot"@ == /* dashDot */ seq!['d', 'a', 's', 'h', 'D', 'o', 't']);
            assert("lgDashDot"@ == /* lgDashDot */ seq!['l', 'g', 'D', 'a', 's', 'h', 'D', 'o', 't']);
            assert("lgDashDotDot"@ == /* lgDashDotDot */ seq!['l', 'g', 'D', 'a', 's', 'h', 'D', 'o', 't', 'D', 'o', 't']);
            assert("sysDot"@ == /* sysDot */ seq!['s', 'y', 's', 'D', 'o', 't']);
            assert("sysDash"@ == /* sysDash */ seq!['s', 'y', 's', 'D', 'a', 's', 'h']);
            assert("sysDashDot"@ == /* sysDashDot */ seq!['s', 'y', 's', 'D', 'a', 's', 'h', 'D', 'o', 't']);
            assert("sysDashDotDot"@ == /* sysDashDotDot */ seq!['s', 'y', 's', 'D', 'a', 's', 'h', 'D', 'o', 't', 'D', 'o', 't']);
        }
        let cs = chars_of(val);
        if chars_eq_str(&cs, "dot") {
            DashStyle::Dot
        } else if chars_eq_str(&cs, "dash") {
            DashStyle::Dash
        } else if chars_eq_str(&cs, "lgDash") {
            DashStyle::LgDash
        } else if chars_eq_str(&cs, "dashDot") {
            DashStyle::DashDot
        } else if chars_eq_str(&cs, "lgDashDot") {
            DashStyle::LgDashDot
        } else if chars_eq_str(&cs, "lgDashDotDot") {
            DashStyle::LgDashDotDot
        } else if chars_eq_str(&cs, "sysDot") {
            DashStyle::SysDot
        } else if chars_eq_str(&cs, "sysDash") {
            DashStyle::SysDash
        } else if chars_eq_str(&cs, "sysDashDot") {
            DashStyle::SysDashDot
        } else if chars_eq_str(&cs, "sysDashDotDot") {
            DashStyle::SysDashDotDot
        } else {
            DashStyle::Solid
        }
    }

    /// The SVG `stroke-dasharray` value; `None` for solid.
    pub fn to_svg_dasharray(&self) -> (r: Option<&'static str>)
        ensures
            match r {
                Some(s) => dash_array(*self) == Some(s@),
                None => dash_array(*self) is None,
            },
    {
        match self {
            DashStyle::Solid => None,
            DashStyle::Dot => { proof { reveal_strlit("1 1"); } Some("1 1") },
            DashStyle::Dash => { proof { reveal_strlit("4 3"); } Some("4 3") },
            DashStyle::LgDash => { proof { reveal_strlit("8 3"); } Some("8 3") },
            DashStyle::DashDot => { proof { reveal_strlit("4 3 1 3"); } Some("4 3 1 3") },
            DashStyle::LgDashDot => { proof { reveal_strlit("8 3 1 3"); } Some("8 3 1 3") },
            DashStyle::LgDashDotDot => {
                proof { reveal_strlit("8 3 1 3 1 3"); }
                Some("8 3 1 3 1 3")
            },
            DashStyle::SysDot => { proof { reveal_strlit("1 1"); } Some("1 1") },
            DashStyle::SysDash => { proof { reveal_strlit("3 1"); } Some("3 1") },
            DashStyle::SysDashDot => { proof { reveal_strlit("3 1 1 1"); } Some("3 1 1 1") },
            DashStyle::SysDashDotDot => {
                proof { reveal_strlit("3 1 1 1 1 1"); }
                Some("3 1 1 1 1 1")
            },
        }
    }
}

/// Parsing the `prstDash@val` of a dash style gives back that style.
pub proof fn lemma_dash_val_round_trip(d: DashStyle)
    ensures
        dash_from(dash_val(d)) == d,
{
    assert(/* dot */ seq!['d', 'o', 't'].len() != /* dash */ seq!['d', 'a', 's', 'h'].len());
    assert(/* dash */ seq!['d', 'a', 's', 'h'][1] != /* dot */ seq!['d', 'o', 't'][1]);
    assert(/* lgDash */ seq!['l', 'g', 'D', 'a', 's', 'h'][2] != /* dashDot */ seq!['d', 'a', 's', 'h', 'D', 'o', 't'][2]);
    assert(/* sysDot */ seq!['s', 'y', 's', 'D', 'o', 't'][4] != /* sysDash */ seq!['s', 'y', 's', 'D', 'a', 's', 'h'][4]);
    assert(/* dashDot */ seq!['d', 'a', 's', 'h', 'D', 'o', 't'][0] != /* lgDashDot */ seq!['l', 'g', 'D', 'a', 's', 'h', 'D', 'o', 't'][0]);
    assert(/* lgDashDot */ seq!['l', 'g', 'D', 'a', 's', 'h', 'D', 'o', 't'].len() != /* lgDashDotDot */ seq!['l', 'g', 'D', 'a', 's', 'h', 'D', 'o', 't', 'D', 'o', 't'].len());
    assert(/* lgDash */ seq!['l', 'g', 'D', 'a', 's', 'h'].len() != /* lgDashDot */ seq!['l', 'g', 'D', 'a', 's', 'h', 'D', 'o', 't'].len());
    assert(/* sysDash */ seq!['s', 'y', 's', 'D', 'a', 's', 'h'].len() != /* sysDashDot */ seq!['s', 'y', 's', 'D', 'a', 's', 'h', 'D', 'o', 't'].len());
    assert(/* sysDashDot */ seq!['s', 'y', 's', 'D', 'a', 's', 'h', 'D', 'o', 't'].len() != /* sysDashDotDot */ seq!['s', 'y', 's', 'D', 'a', 's', 'h', 'D', 'o', 't', 'D', 'o', 't'].len());
    assert(/* dot */ seq!['d', 'o', 't'][0] != /* solid */ seq!['s', 'o', 'l', 'i', 'd'][0]);
    assert(/* dash */ seq!['d', 'a', 's', 'h'][0] != /* solid */ seq!['s', 'o', 'l', 'i', 'd'][0]);
    assert(/* lgDash */ seq!['l', 'g', 'D', 'a', 's', 'h'][0] != /* solid */ seq!['s', 'o', 'l', 'i', 'd'][0]);
    assert(/* dashDot */ seq!['d', 'a', 's', 'h', 'D', 'o', 't'][0] != /* solid */ seq!['s', 'o', 'l', 'i', 'd'][0]);
    assert(/* lgDashDot */ seq!['l', 'g', 'D', 'a', 's', 'h', 'D', 'o', 't'][0] != /* solid */ seq!['s', 'o', 'l', 'i', 'd'][0]);
    assert(/* lgDashDotDot */ seq!['l', 'g', 'D', 'a', 's', 'h', 'D', 'o', 't', 'D', 'o', 't'][0] != /* solid */ seq!['s', 'o', 'l', 'i', 'd'][0]);
    assert(/* sysDot */ seq!['s', 'y', 's', 'D', 'o', 't'][1] != /* solid */ seq!['s', 'o', 'l', 'i', 'd'][1]);
    assert(/* sysDash */ seq!['s', 'y', 's', 'D', 'a', 's', 'h'][1] != /* solid */ seq!['s', 'o', 'l', 'i', 'd'][1]);
    assert(/* sysDashDot */ seq!['s', 'y', 's', 'D', 'a', 's', 'h', 'D', 'o', 't'][1] != /* solid */ seq!['s', 'o', 'l', 'i', 'd'][1]);
    assert(/* sysDashDotDot */ seq!['s', 'y', 's', 'D', 'a', 's', 'h', 'D', 'o', 't', 'D', 'o', 't'][1] != /* solid */ seq!['s', 'o', 'l', 'i', 'd'][1]);
    assert(/* dashDot */ seq!['d', 'a', 's', 'h', 'D', 'o', 't'][0] != /* sysDot */ seq!['s', 'y', 's', 'D', 'o', 't'][0]);
    assert(/* lgDash */ seq!['l', 'g', 'D', 'a', 's', 'h'][0] != /* sysDot */ seq!['s', 'y', 's', 'D', 'o', 't'][0]);
    assert(/* dash */ seq!['d', 'a', 's', 'h'][0] != /* sysDash */ seq!['s', 'y', 's', 'D', 'a', 's', 'h'][0]);
}

/// A slide or shape background.
#[derive(Debug, Clone)]
pub enum Background {
    Solid(Color),
    Picture(Vec<u8>),
}

} // verus!
