//! Render-side theme resolution: a deck's color scheme maps each
//! [`SchemeColor`] to an RGB [`Color`], its font scheme resolves `+mj-lt` and
//! `+mn-lt`, and a color map remaps logical color names to scheme slots.

use vstd::prelude::*;
use crate::layout::{hex_color, strip_hash, Color};
use crate::scheme_color::{scheme_from, scheme_val, SchemeColor};
use crate::text::{chars_eq_str, chars_of, string_of};
use vstd::utf8::encode_utf8;

verus! {

/// A color modifier child of a color element (`<a:tint val="50000"/>`, ...).
/// Values are in thousandths of a percent.
#[derive(Debug, Clone, Copy, PartialEq, Eq, Structural)]
pub enum ColorModifier {
    Tint(u32),
    Shade(u32),
    LumMod(u32),
    LumOff(i32),
}

/// The twelve concrete colors of a theme's color scheme.
#[derive(Debug, Clone, Copy, PartialEq, Eq, Structural)]
pub struct ThemeColorScheme {
    pub dk1: Color,
    pub dk2: Color,
    pub lt1: Color,
    pub lt2: Color,
    pub accent1: Color,
    pub accent2: Color,
    pub accent3: Color,
    pub accent4: Color,
    pub accent5: Color,
    pub accent6: Color,
    pub hlink: Color,
    pub fol_hlink: Color,
}

/// The slot of `s` that holds scheme color `c`.
pub open spec fn scheme_slot(s: ThemeColorScheme, c: SchemeColor) -> Color {
    match c {
        SchemeColor::Dk1 => s.dk1,
        SchemeColor::Dk2 => s.dk2,
        SchemeColor::Lt1 => s.lt1,
        SchemeColor::Lt2 => s.lt2,
        SchemeColor::Accent1 => s.accent1,
        SchemeColor::Accent2 => s.accent2,
        SchemeColor::Accent3 => s.accent3,
        SchemeColor::Accent4 => s.accent4,
        SchemeColor::Accent5 => s.accent5,
        SchemeColor::Accent6 => s.accent6,
        SchemeColor::Hlink => s.hlink,
        SchemeColor::FolHlink => s.fol_hlink,
    }
}

/// The color a hex string parses to.
pub open spec fn hex_of(s: &str) -> Option<Color> {
    hex_color(strip_hash(encode_utf8(s@)))
}

fn rgb(r: u8, g: u8, b: u8) -> (c: Color)
    ensures
        c == (Color { r, g, b }),
{
    Color { r, g, b }
}

impl ThemeColorScheme {
    /// The default Office theme color scheme.
    pub fn office_default() -> (s: ThemeColorScheme)
        ensures
            s.dk1 == (Color { r: 0, g: 0, b: 0 }),
            s.dk2 == (Color { r: 0x1F, g: 0x49, b: 0x7D }),
            s.lt1 == (Color { r: 255, g: 255, b: 255 }),
            s.lt2 == (Color { r: 0xEE, g: 0xEC, b: 0xE1 }),
            s.accent1 == (Color { r: 0x4F, g: 0x81, b: 0xBD }),
            s.accent2 == (Color { r: 0xC0, g: 0x50, b: 0x4D }),
            s.accent3 == (Color { r: 0x9B, g: 0xBB, b: 0x59 }),
            s.accent4 == (Color { r: 0x80, g: 0x64, b: 0xA2 }),
            s.accent5 == (Color { r: 0x4B, g: 0xAC, b: 0xC6 }),
            s.accent6 == (Color { r: 0xF7, g: 0x96, b: 0x46 }),
            s.hlink == (Color { r: 0x00, g: 0x00, b: 0xFF }),
            s.fol_hlink == (Color { r: 0x80, g: 0x00, b: 0x80 }),
    {
        ThemeColorScheme {
            dk1: Color::black(),
            dk2: rgb(0x1F, 0x49, 0x7D),
            lt1: Color::white(),
            lt2: rgb(0xEE, 0xEC, 0xE1),
            accent1: rgb(0x4F, 0x81, 0xBD),
            accent2: rgb(0xC0, 0x50, 0x4D),
            accent3: rgb(0x9B, 0xBB, 0x59),
            accent4: rgb(0x80, 0x64, 0xA2),
            accent5: rgb(0x4B, 0xAC, 0xC6),
            accent6: rgb(0xF7, 0x96, 0x46),
            hlink: rgb(0x00, 0x00, 0xFF),
            fol_hlink: rgb(0x80, 0x00, 0x80),
        }
    }

    /// A scheme from twelve hex strings (with or without `#`); `None` when any
    /// of them is malformed.
    pub fn from_hex(
        dk1: &str,
        dk2: &str,
        lt1: &str,
        lt2: &str,
        accent1: &str,
        accent2: &str,
        accent3: &str,
        accent4: &str,
        accent5: &str,
        accent6: &str,
        hlink: &str,
        fol_hlink: &str,
    ) -> (r: Option<ThemeColorScheme>)
        ensures
            match r {
                Some(s) => {
                    &&& hex_of(dk1) == Some(s.dk1)
                    &&& hex_of(dk2) == Some(s.dk2)
                    &&& hex_of(lt1) == Some(s.lt1)
                    &&& hex_of(lt2) == Some(s.lt2)
                    &&& hex_of(accent1) == Some(s.accent1)
                    &&& hex_of(accent2) == Some(s.accent2)
                    &&& hex_of(accent3) == Some(s.accent3)
                    &&& hex_of(accent4) == Some(s.accent4)
                    &&& hex_of(accent5) == Some(s.accent5)
                    &&& hex_of(accent6) == Some(s.accent6)
                    &&& hex_of(hlink) == Some(s.hlink)
                    &&& hex_of(fol_hlink) == Some(s.fol_hlink)
                },
                None => {
                    ||| hex_of(dk1) is None
                    ||| hex_of(dk2) is None
                    ||| hex_of(lt1) is None
                    ||| hex_of(lt2) is None
                    ||| hex_of(accent1) is None
                    ||| hex_of(accent2) is None
                    ||| hex_of(accent3) is None
                    ||| hex_of(accent4) is None
                    ||| hex_of(accent5) is None
                    ||| hex_of(accent6) is None
                    ||| hex_of(hlink) is None
                    ||| hex_of(fol_hlink) is None
                },
            },
    {
        let dk1 = Color::from_hex(dk1)?;
        let dk2 = Color::from_hex(dk2)?;
        let lt1 = Color::from_hex(lt1)?;
        let lt2 = Color::from_hex(lt2)?;
        let accent1 = Color::from_hex(accent1)?;
        let accent2 = Color::from_hex(accent2)?;
        let accent3 = Color::from_hex(accent3)?;
        let accent4 = Color::from_hex(accent4)?;
        let accent5 = Color::from_hex(accent5)?;
        let accent6 = Color::from_hex(accent6)?;
        let hlink = Color::from_hex(hlink)?;
        let fol_hlink = Color::from_hex(fol_hlink)?;
        Some(ThemeColorScheme {
            dk1,
            dk2,
            lt1,
            lt2,
            accent1,
            accent2,
            accent3,
            accent4,
            accent5,
            accent6,
            hlink,
            fol_hlink,
        })
    }

    /// The concrete color of a scheme color in this scheme.
    pub fn resolve(&self, scheme_color: SchemeColor) -> (c: Color)
        ensures
            c == scheme_slot(*self, scheme_color),
            scheme_color == SchemeColor::Dk1 ==> c == self.dk1,
            scheme_color == SchemeColor::Dk2 ==> c == self.dk2,
            scheme_color == SchemeColor::Lt1 ==> c == self.lt1,
            scheme_color == SchemeColor::Lt2 ==> c == self.lt2,
            scheme_color == SchemeColor::Accent1 ==> c == self.accent1,
            scheme_color == SchemeColor::Accent2 ==> c == self.accent2,
            scheme_color == SchemeColor::Accent3 ==> c == self.accent3,
            scheme_color == SchemeColor::Accent4 ==> c == self.accent4,
            scheme_color == SchemeColor::Accent5 ==> c == self.accent5,
            scheme_color == SchemeColor::Accent6 ==> c == self.accent6,
            scheme_color == SchemeColor::Hlink ==> c == self.hlink,
            scheme_color == SchemeColor::FolHlink ==> c == self.fol_hlink,
    {
        match scheme_color {
            SchemeColor::Dk1 => self.dk1,
            SchemeColor::Dk2 => self.dk2,
            SchemeColor::Lt1 => self.lt1,
            SchemeColor::Lt2 => self.lt2,
            SchemeColor::Accent1 => self.accent1,
            SchemeColor::Accent2 => self.accent2,
            SchemeColor::Accent3 => self.accent3,
            SchemeColor::Accent4 => self.accent4,
            SchemeColor::Accent5 => self.accent5,
            SchemeColor::Accent6 => self.accent6,
            SchemeColor::Hlink => self.hlink,
            SchemeColor::FolHlink => self.fol_hlink,
        }
    }

    /// The color of a scheme color given by its `val` name; `None` for an
    /// unknown name.
    pub fn resolve_by_name(&self, name: &str) -> (r: Option<Color>)
        ensures
            r == (match scheme_from(name@) {
                Some(sc) => Some(scheme_slot(*self, sc)),
                None => None,
            }),
    {
        match SchemeColor::from_val(name) {
            Some(sc) => Some(self.resolve(sc)),
            None => None,
        }
    }
}

/// The major (heading) and minor (body) Latin typefaces of a theme.
#[derive(Debug, Clone, PartialEq, Eq)]
pub struct ThemeFontScheme {
    pub major_latin: String,
    pub minor_latin: String,
}

impl ThemeFontScheme {
    /// The default Office font scheme: Calibri for both.
    pub fn office_default() -> (s: ThemeFontScheme)
        ensures
            s.major_latin@ == /* Calibri */ seq!['C', 'a', 'l', 'i', 'b', 'r', 'i'],
            s.minor_latin@ == /* Calibri */ seq!['C', 'a', 'l', 'i', 'b', 'r', 'i'],
    {
        proof { reveal_strlit("Calibri"); }
        ThemeFontScheme { major_latin: string_of("Calibri"), minor_latin: string_of("Calibri") }
    }

    /// A font scheme from explicit typeface names.
    pub fn new(major_latin: &str, minor_latin: &str) -> (s: ThemeFontScheme)
        ensures
            s.major_latin@ == major_latin@,
            s.minor_latin@ == minor_latin@,
    {
        ThemeFontScheme { major_latin: string_of(major_latin), minor_latin: string_of(minor_latin) }
    }

    /// The typeface a theme font reference names: `+mj-lt` the major Latin
    /// face, `+mn-lt` the minor one; `None` for anything else.
    pub fn resolve_font_ref(&self, ref_str: &str) -> (r: Option<&str>)
        ensures
            ref_str@ == /* +mj-lt */ seq!['+', 'm', 'j', '-', 'l', 't'] ==> (r matches Some(f) && f@ == self.major_latin@),
            ref_str@ == /* +mn-lt */ seq!['+', 'm', 'n', '-', 'l', 't'] ==> (r matches Some(f) && f@ == self.minor_latin@),
            ref_str@ != /* +mj-lt */ seq!['+', 'm', 'j', '-', 'l', 't'] && ref_str@ != /* +mn-lt */ seq!['+', 'm', 'n', '-', 'l', 't'] ==> r is None,
    {
        proof {
            reveal_strlit("+mj-lt");
            reveal_strlit("+mn-lt");
            assert("+mj-lt"@ == /* +mj-lt */ seq!['+', 'm', 'j', '-', 'l', 't']);
            assert("+mn-lt"@ == /* +mn-lt */ seq!['+', 'm', 'n', '-', 'l', 't']);
        }
        let cs = chars_of(ref_str);
        if chars_eq_str(&cs, "+mj-lt") {
            Some(self.major_latin.as_str())
        } else if chars_eq_str(&cs, "+mn-lt") {
            Some(self.minor_latin.as_str())
        } else {
            None
        }
    }
}

/// A color map: where each logical color name points among the scheme slots
/// (`p:clrMap`, overridden by `p:clrMapOvr`).
#[derive(Debug, Clone, Copy, PartialEq, Eq, Structural)]
pub struct ColorMap {
    pub dk1: SchemeColor,
    pub dk2: SchemeColor,
    pub lt1: SchemeColor,
    pub lt2: SchemeColor,
    pub accent1: SchemeColor,
    pub accent2: SchemeColor,
    pub accent3: SchemeColor,
    pub accent4: SchemeColor,
    pub accent5: SchemeColor,
    pub accent6: SchemeColor,
    pub hlink: SchemeColor,
    pub fol_hlink: SchemeColor,
}

/// The target of logical color `c` in map `m`.
pub open spec fn map_slot(m: ColorMap, c: SchemeColor) -> SchemeColor {
    match c {
        SchemeColor::Dk1 => m.dk1,
        SchemeColor::Dk2 => m.dk2,
        SchemeColor::Lt1 => m.lt1,
        SchemeColor::Lt2 => m.lt2,
        SchemeColor::Accent1 => m.accent1,
        SchemeColor::Accent2 => m.accent2,
        SchemeColor::Accent3 => m.accent3,
        SchemeColor::Accent4 => m.accent4,
        SchemeColor::Accent5 => m.accent5,
        SchemeColor::Accent6 => m.accent6,
        SchemeColor::Hlink => m.hlink,
        SchemeColor::FolHlink => m.fol_hlink,
    }
}

impl ColorMap {
    /// The identity map: every logical name maps to itself.
    pub fn identity() -> (m: ColorMap)
        ensures
            forall|c: SchemeColor| #[trigger] map_slot(m, c) == c,
    {
        ColorMap {
            dk1: SchemeColor::Dk1,
            dk2: SchemeColor::Dk2,
            lt1: SchemeColor::Lt1,
            lt2: SchemeColor::Lt2,
            accent1: SchemeColor::Accent1,
            accent2: SchemeColor::Accent2,
            accent3: SchemeColor::Accent3,
            accent4: SchemeColor::Accent4,
            accent5: SchemeColor::Accent5,
            accent6: SchemeColor::Accent6,
            hlink: SchemeColor::Hlink,
            fol_hlink: SchemeColor::FolHlink,
        }
    }

    /// Where logical color `logical` points in this map.
    pub fn remap(&self, logical: SchemeColor) -> (r: SchemeColor)
        ensures
            r == map_slot(*self, logical),
            logical == SchemeColor::Dk1 ==> r == self.dk1,
            logical == SchemeColor::Dk2 ==> r == self.dk2,
            logical == SchemeColor::Lt1 ==> r == self.lt1,
            logical == SchemeColor::Lt2 ==> r == self.lt2,
            logical == SchemeColor::Accent1 ==> r == self.accent1,
            logical == SchemeColor::Accent2 ==> r == self.accent2,
            logical == SchemeColor::Accent3 ==> r == self.accent3,
            logical == SchemeColor::Accent4 ==> r == self.accent4,
            logical == SchemeColor::Accent5 ==> r == self.accent5,
            logical == SchemeColor::Accent6 ==> r == self.accent6,
            logical == SchemeColor::Hlink ==> r == self.hlink,
            logical == SchemeColor::FolHlink ==> r == self.fol_hlink,
    {
        match logical {
            SchemeColor::Dk1 => self.dk1,
            SchemeColor::Dk2 => self.dk2,
            SchemeColor::Lt1 => self.lt1,
            SchemeColor::Lt2 => self.lt2,
            SchemeColor::Accent1 => self.accent1,
            SchemeColor::Accent2 => self.accent2,
            SchemeColor::Accent3 => self.accent3,
            SchemeColor::Accent4 => self.accent4,
            SchemeColor::Accent5 => self.accent5,
            SchemeColor::Accent6 => self.accent6,
            SchemeColor::Hlink => self.hlink,
            SchemeColor::FolHlink => self.fol_hlink,
        }
    }

    /// Point the logical name `logical_name` (a scheme `val`, e.g. `dk1`) at
    /// `target`. Returns `false`, changing nothing, when the name is unknown.
    pub fn set(&mut self, logical_name: &str, target: SchemeColor) -> (ok: bool)
        ensures
            ok == (scheme_from(logical_name@) is Some),
            match scheme_from(logical_name@) {
                Some(l) => forall|c: SchemeColor|
                    #[trigger] map_slot(*final(self), c) == if c == l { target } else { map_slot(*old(self), c) },
                None => *final(self) == *old(self),
            },
    {
        match SchemeColor::from_val(logical_name) {
            Some(l) => {
                match l {
                    SchemeColor::Dk1 => self.dk1 = target,
                    SchemeColor::Dk2 => self.dk2 = target,
                    SchemeColor::Lt1 => self.lt1 = target,
                    SchemeColor::Lt2 => self.lt2 = target,
                    SchemeColor::Accent1 => self.accent1 = target,
                    SchemeColor::Accent2 => self.accent2 = target,
                    SchemeColor::Accent3 => self.accent3 = target,
                    SchemeColor::Accent4 => self.accent4 = target,
                    SchemeColor::Accent5 => self.accent5 = target,
                    SchemeColor::Accent6 => self.accent6 = target,
                    SchemeColor::Hlink => self.hlink = target,
                    SchemeColor::FolHlink => self.fol_hlink = target,
                }
                true
            },
            None => false,
        }
    }
}

/// Each scheme color names its own slot of the scheme: `dk1` the dark 1
/// color, `lt2` the light 2 color, and so on for all twelve.
pub proof fn lemma_scheme_slot_is_own_field(s: ThemeColorScheme)
    ensures
        scheme_slot(s, SchemeColor::Dk1) == s.dk1,
        scheme_slot(s, SchemeColor::Dk2) == s.dk2,
        scheme_slot(s, SchemeColor::Lt1) == s.lt1,
        scheme_slot(s, SchemeColor::Lt2) == s.lt2,
        scheme_slot(s, SchemeColor::Accent1) == s.accent1,
        scheme_slot(s, SchemeColor::Accent2) == s.accent2,
        scheme_slot(s, SchemeColor::Accent3) == s.accent3,
        scheme_slot(s, SchemeColor::Accent4) == s.accent4,
        scheme_slot(s, SchemeColor::Accent5) == s.accent5,
        scheme_slot(s, SchemeColor::Accent6) == s.accent6,
        scheme_slot(s, SchemeColor::Hlink) == s.hlink,
        scheme_slot(s, SchemeColor::FolHlink) == s.fol_hlink,
{
}

/// Each logical name of a color map points where the map's own field for
/// that name says.
pub proof fn lemma_map_slot_is_own_field(m: ColorMap)
    ensures
        map_slot(m, SchemeColor::Dk1) == m.dk1,
        map_slot(m, SchemeColor::Dk2) == m.dk2,
        map_slot(m, SchemeColor::Lt1) == m.lt1,
        map_slot(m, SchemeColor::Lt2) == m.lt2,
        map_slot(m, SchemeColor::Accent1) == m.accent1,
        map_slot(m, SchemeColor::Accent2) == m.accent2,
        map_slot(m, SchemeColor::Accent3) == m.accent3,
        map_slot(m, SchemeColor::Accent4) == m.accent4,
        map_slot(m, SchemeColor::Accent5) == m.accent5,
        map_slot(m, SchemeColor::Accent6) == m.accent6,
        map_slot(m, SchemeColor::Hlink) == m.hlink,
        map_slot(m, SchemeColor::FolHlink) == m.fol_hlink,
{
}

/// In a scheme whose twelve colors differ, different scheme colors resolve
/// to different colors: no slot is read in place of another.
pub proof fn lemma_distinct_slots_resolve_apart(s: ThemeColorScheme, a: SchemeColor, b: SchemeColor)
    requires
        s.dk1 != s.dk2 && s.dk1 != s.lt1 && s.dk1 != s.lt2 && s.dk1 != s.accent1 && s.dk1 != s.accent2
            && s.dk1 != s.accent3 && s.dk1 != s.accent4 && s.dk1 != s.accent5 && s.dk1 != s.accent6
            && s.dk1 != s.hlink && s.dk1 != s.fol_hlink,
        s.dk2 != s.lt1 && s.dk2 != s.lt2 && s.dk2 != s.accent1 && s.dk2 != s.accent2 && s.dk2 != s.accent3
            && s.dk2 != s.accent4 && s.dk2 != s.accent5 && s.dk2 != s.accent6 && s.dk2 != s.hlink
            && s.dk2 != s.fol_hlink,
        s.lt1 != s.lt2 && s.lt1 != s.accent1 && s.lt1 != s.accent2 && s.lt1 != s.accent3 && s.lt1 != s.accent4
            && s.lt1 != s.accent5 && s.lt1 != s.accent6 && s.lt1 != s.hlink && s.lt1 != s.fol_hlink,
        s.lt2 != s.accent1 && s.lt2 != s.accent2 && s.lt2 != s.accent3 && s.lt2 != s.accent4 && s.lt2 != s.accent5
            && s.lt2 != s.accent6 && s.lt2 != s.hlink && s.lt2 != s.fol_hlink,
        s.accent1 != s.accent2 && s.accent1 != s.accent3 && s.accent1 != s.accent4 && s.accent1 != s.accent5
            && s.accent1 != s.accent6 && s.accent1 != s.hlink && s.accent1 != s.fol_hlink,
        s.accent2 != s.accent3 && s.accent2 != s.accent4 && s.accent2 != s.accent5 && s.accent2 != s.accent6
            && s.accent2 != s.hlink && s.accent2 != s.fol_hlink,
        s.accent3 != s.accent4 && s.accent3 != s.accent5 && s.accent3 != s.accent6 && s.accent3 != s.hlink
            && s.accent3 != s.fol_hlink,
        s.accent4 != s.accent5 && s.accent4 != s.accent6 && s.accent4 != s.hlink && s.accent4 != s.fol_hlink,
        s.accent5 != s.accent6 && s.accent5 != s.hlink && s.accent5 != s.fol_hlink,
        s.accent6 != s.hlink && s.accent6 != s.fol_hlink,
        s.hlink != s.fol_hlink,
        a != b,
    ensures
        scheme_slot(s, a) != scheme_slot(s, b),
{
}

/// Remapping then resolving: the color a logical name shows under a map and
/// scheme is the scheme's slot for the map's target.
pub proof fn lemma_identity_map_resolves_directly(m: ColorMap, s: ThemeColorScheme, c: SchemeColor)
    requires
        forall|x: SchemeColor| #[trigger] map_slot(m, x) == x,
    ensures
        scheme_slot(s, map_slot(m, c)) == scheme_slot(s, c),
{
    assert(map_slot(m, c) == c);
}

/// Setting a logical name and then remapping it gives the target; other
/// names are unaffected.
pub proof fn lemma_set_then_remap(old_map: ColorMap, new_map: ColorMap, l: SchemeColor, target: SchemeColor, c: SchemeColor)
    requires
        forall|x: SchemeColor| #[trigger] map_slot(new_map, x) == if x == l { target } else { map_slot(old_map, x) },
    ensures
        map_slot(new_map, l) == target,
        c != l ==> map_slot(new_map, c) == map_slot(old_map, c),
{
    assert(map_slot(new_map, l) == target);
    assert(map_slot(new_map, c) == if c == l { target } else { map_slot(old_map, c) });
}

} // verus!
