//! Theme color references: the `val` of `<a:schemeClr>`.
//!
//! A `SchemeColor` names a slot of the theme's color scheme instead of baking
//! an RGB value, so text and shapes follow theme changes.

use vstd::prelude::*;
use crate::text::{chars_eq_str, chars_of, push_str, string_of};

verus! {

/// The twelve slots of a DrawingML color scheme, in declaration order.
#[derive(Debug, Clone, Copy, PartialEq, Eq, Hash, Structural)]
pub enum SchemeColor {
    Dk1,
    Dk2,
    Lt1,
    Lt2,
    Accent1,
    Accent2,
    Accent3,
    Accent4,
    Accent5,
    Accent6,
    Hlink,
    FolHlink,
}

/// The `val` attribute text of a scheme color.
pub open spec fn scheme_val(c: SchemeColor) -> Seq<char> {
    match c {
        SchemeColor::Dk1 => /* dk1 */ seq!['d', 'k', '1'],
        SchemeColor::Dk2 => /* dk2 */ seq!['d', 'k', '2'],
        SchemeColor::Lt1 => /* lt1 */ seq!['l', 't', '1'],
        SchemeColor::Lt2 => /* lt2 */ seq!['l', 't', '2'],
        SchemeColor::Accent1 => /* accent1 */ seq!['a', 'c', 'c', 'e', 'n', 't', '1'],
        SchemeColor::Accent2 => /* accent2 */ seq!['a', 'c', 'c', 'e', 'n', 't', '2'],
        SchemeColor::Accent3 => /* accent3 */ seq!['a', 'c', 'c', 'e', 'n', 't', '3'],
        SchemeColor::Accent4 => /* accent4 */ seq!['a', 'c', 'c', 'e', 'n', 't', '4'],
        SchemeColor::Accent5 => /* accent5 */ seq!['a', 'c', 'c', 'e', 'n', 't', '5'],
        SchemeColor::Accent6 => /* accent6 */ seq!['a', 'c', 'c', 'e', 'n', 't', '6'],
        SchemeColor::Hlink => /* hlink */ seq!['h', 'l', 'i', 'n', 'k'],
        SchemeColor::FolHlink => /* folHlink */ seq!['f', 'o', 'l', 'H', 'l', 'i', 'n', 'k'],
    }
}

/// The scheme color whose `val` text is `v`, if any (case-sensitive).
pub open spec fn scheme_from(v: Seq<char>) -> Option<SchemeColor> {
    if v == /* dk1 */ seq!['d', 'k', '1'] {
        Some(SchemeColor::Dk1)
    } else if v == /* dk2 */ seq!['d', 'k', '2'] {
        Some(SchemeColor::Dk2)
    } else if v == /* lt1 */ seq!['l', 't', '1'] {
        Some(SchemeColor::Lt1)
    } else if v == /* lt2 */ seq!['l', 't', '2'] {
        Some(SchemeColor::Lt2)
    } else if v == /* accent1 */ seq!['a', 'c', 'c', 'e', 'n', 't', '1'] {
        Some(SchemeColor::Accent1)
    } else if v == /* accent2 */ seq!['a', 'c', 'c', 'e', 'n', 't', '2'] {
        Some(SchemeColor::Accent2)
    } else if v == /* accent3 */ seq!['a', 'c', 'c', 'e', 'n', 't', '3'] {
        Some(SchemeColor::Accent3)
    } else if v == /* accent4 */ seq!['a', 'c', 'c', 'e', 'n', 't', '4'] {
        Some(SchemeColor::Accent4)
    } else if v == /* accent5 */ seq!['a', 'c', 'c', 'e', 'n', 't', '5'] {
        Some(SchemeColor::Accent5)
    } else if v == /* accent6 */ seq!['a', 'c', 'c', 'e', 'n', 't', '6'] {
        Some(SchemeColor::Accent6)
    } else if v == /* hlink */ seq!['h', 'l', 'i', 'n', 'k'] {
        Some(SchemeColor::Hlink)
    } else if v == /* folHlink */ seq!['f', 'o', 'l', 'H', 'l', 'i', 'n', 'k'] {
        Some(SchemeColor::FolHlink)
    } else {
        None
    }
}

/// Parsing the `val` of a scheme color gives back that color.
pub proof fn lemma_scheme_val_round_trip(c: SchemeColor)
    ensures
        scheme_from(scheme_val(c)) == Some(c),
{
    let v = scheme_val(c);
    assert(/* dk1 */ seq!['d', 'k', '1'][1] != /* lt1 */ seq!['l', 't', '1'][1]);
    assert(/* dk1 */ seq!['d', 'k', '1'][2] != /* dk2 */ seq!['d', 'k', '2'][2]);
    assert(/* lt1 */ seq!['l', 't', '1'][2] != /* lt2 */ seq!['l', 't', '2'][2]);
    assert(/* accent1 */ seq!['a', 'c', 'c', 'e', 'n', 't', '1'][6] != /* accent2 */ seq!['a', 'c', 'c', 'e', 'n', 't', '2'][6]);
    assert(/* accent1 */ seq!['a', 'c', 'c', 'e', 'n', 't', '1'][6] != /* accent3 */ seq!['a', 'c', 'c', 'e', 'n', 't', '3'][6]);
    assert(/* accent1 */ seq!['a', 'c', 'c', 'e', 'n', 't', '1'][6] != /* accent4 */ seq!['a', 'c', 'c', 'e', 'n', 't', '4'][6]);
    assert(/* accent1 */ seq!['a', 'c', 'c', 'e', 'n', 't', '1'][6] != /* accent5 */ seq!['a', 'c', 'c', 'e', 'n', 't', '5'][6]);
    assert(/* accent1 */ seq!['a', 'c', 'c', 'e', 'n', 't', '1'][6] != /* accent6 */ seq!['a', 'c', 'c', 'e', 'n', 't', '6'][6]);
    assert(/* accent2 */ seq!['a', 'c', 'c', 'e', 'n', 't', '2'][6] != /* accent3 */ seq!['a', 'c', 'c', 'e', 'n', 't', '3'][6]);
    assert(/* accent2 */ seq!['a', 'c', 'c', 'e', 'n', 't', '2'][6] != /* accent4 */ seq!['a', 'c', 'c', 'e', 'n', 't', '4'][6]);
    assert(/* accent2 */ seq!['a', 'c', 'c', 'e', 'n', 't', '2'][6] != /* accent5 */ seq!['a', 'c', 'c', 'e', 'n', 't', '5'][6]);
    assert(/* accent2 */ seq!['a', 'c', 'c', 'e', 'n', 't', '2'][6] != /* accent6 */ seq!['a', 'c', 'c', 'e', 'n', 't', '6'][6]);
    assert(/* accent3 */ seq!['a', 'c', 'c', 'e', 'n', 't', '3'][6] != /* accent4 */ seq!['a', 'c', 'c', 'e', 'n', 't', '4'][6]);
    assert(/* accent3 */ seq!['a', 'c', 'c', 'e', 'n', 't', '3'][6] != /* accent5 */ seq!['a', 'c', 'c', 'e', 'n', 't', '5'][6]);
    assert(/* accent3 */ seq!['a', 'c', 'c', 'e', 'n', 't', '3'][6] != /* accent6 */ seq!['a', 'c', 'c', 'e', 'n', 't', '6'][6]);
    assert(/* accent4 */ seq!['a', 'c', 'c', 'e', 'n', 't', '4'][6] != /* accent5 */ seq!['a', 'c', 'c', 'e', 'n', 't', '5'][6]);
    assert(/* accent4 */ seq!['a', 'c', 'c', 'e', 'n', 't', '4'][6] != /* accent6 */ seq!['a', 'c', 'c', 'e', 'n', 't', '6'][6]);
    assert(/* accent5 */ seq!['a', 'c', 'c', 'e', 'n', 't', '5'][6] != /* accent6 */ seq!['a', 'c', 'c', 'e', 'n', 't', '6'][6]);
}

/// Distinct scheme colors have distinct `val` texts.
pub proof fn lemma_scheme_val_injective(a: SchemeColor, b: SchemeColor)
    ensures
        scheme_val(a) == scheme_val(b) ==> a == b,
{
    lemma_scheme_val_round_trip(a);
    lemma_scheme_val_round_trip(b);
}

impl SchemeColor {
    /// All scheme colors in declaration order.
    pub const ALL: [SchemeColor; 12] = [
        SchemeColor::Dk1,
        SchemeColor::Dk2,
        SchemeColor::Lt1,
        SchemeColor::Lt2,
        SchemeColor::Accent1,
        SchemeColor::Accent2,
        SchemeColor::Accent3,
        SchemeColor::Accent4,
        SchemeColor::Accent5,
        SchemeColor::Accent6,
        SchemeColor::Hlink,
        SchemeColor::FolHlink,
    ];

    /// The `val` attribute text for `<a:schemeClr>`.
    pub fn val(self) -> (r: &'static str)
        ensures
            r@ == scheme_val(self),
    {
        match self {
            SchemeColor::Dk1 => { proof { reveal_strlit("dk1"); } "dk1" },
            SchemeColor::Dk2 => { proof { reveal_strlit("dk2"); } "dk2" },
            SchemeColor::Lt1 => { proof { reveal_strlit("lt1"); } "lt1" },
            SchemeColor::Lt2 => { proof { reveal_strlit("lt2"); } "lt2" },
            SchemeColor::Accent1 => { proof { reveal_strlit("accent1"); } "accent1" },
            SchemeColor::Accent2 => { proof { reveal_strlit("accent2"); } "accent2" },
            SchemeColor::Accent3 => { proof { reveal_strlit("accent3"); } "accent3" },
            SchemeColor::Accent4 => { proof { reveal_strlit("accent4"); } "accent4" },
            SchemeColor::Accent5 => { proof { reveal_strlit("accent5"); } "accent5" },
            SchemeColor::Accent6 => { proof { reveal_strlit("accent6"); } "accent6" },
            SchemeColor::Hlink => { proof { reveal_strlit("hlink"); } "hlink" },
            SchemeColor::FolHlink => { proof { reveal_strlit("folHlink"); } "folHlink" },
        }
    }

    /// Parse a scheme color from its `val` text; `None` when unrecognized.
    pub fn from_val(s: &str) -> (r: Option<SchemeColor>)
        ensures
            r == scheme_from(s@),
    {
        let cs = chars_of(s);
        let mut i: usize = 0;
        while i < 12
            invariant
                i <= 12,
                cs@ == s@,
                forall|k: int| 0 <= k < i ==> scheme_val(#[trigger] Self::ALL@[k]) != s@,
            decreases 12 - i,
        {
            let c = Self::ALL[i];
            if chars_eq_str(&cs, c.val()) {
                proof { lemma_scheme_val_round_trip(c); }
                return Some(c);
            }
            i = i + 1;
        }
        proof {
            assert(scheme_val(Self::ALL@[0]) != s@);
            assert(scheme_val(Self::ALL@[1]) != s@);
            assert(scheme_val(Self::ALL@[2]) != s@);
            assert(scheme_val(Self::ALL@[3]) != s@);
            assert(scheme_val(Self::ALL@[4]) != s@);
            assert(scheme_val(Self::ALL@[5]) != s@);
            assert(scheme_val(Self::ALL@[6]) != s@);
            assert(scheme_val(Self::ALL@[7]) != s@);
            assert(scheme_val(Self::ALL@[8]) != s@);
            assert(scheme_val(Self::ALL@[9]) != s@);
            assert(scheme_val(Self::ALL@[10]) != s@);
            assert(scheme_val(Self::ALL@[11]) != s@);
        }
        None
    }

    /// The self-closing fragment `<a:schemeClr val="..."/>`.
    pub fn to_xml(self) -> (r: String)
        ensures
            r@ == /* <a:schemeClr val=\" */ seq!['<', 'a', ':', 's', 'c', 'h', 'e', 'm', 'e', 'C', 'l', 'r', ' ', 'v', 'a', 'l', '=', '"'] + scheme_val(self) + /* \"/> */ seq!['"', '/', '>'],
    {
        proof {
            reveal_strlit("<a:schemeClr val=\"");
            reveal_strlit("\"/>");
        }
        let mut out = string_of("<a:schemeClr val=\"");
        push_str(&mut out, self.val());
        push_str(&mut out, "\"/>");
        out
    }

    /// The opening tag `<a:schemeClr val="...">`, for when modifier children
    /// follow.
    pub fn to_xml_open(self) -> (r: String)
        ensures
            r@ == /* <a:schemeClr val=\" */ seq!['<', 'a', ':', 's', 'c', 'h', 'e', 'm', 'e', 'C', 'l', 'r', ' ', 'v', 'a', 'l', '=', '"'] + scheme_val(self) + /* \"> */ seq!['"', '>'],
    {
        proof {
            reveal_strlit("<a:schemeClr val=\"");
            reveal_strlit("\">");
        }
        let mut out = string_of("<a:schemeClr val=\"");
        push_str(&mut out, self.val());
        push_str(&mut out, "\">");
        out
    }

    /// The `val` text as an owned string (what the color displays as).
    pub fn to_string(self) -> (r: String)
        ensures
            r@ == scheme_val(self),
    {
        string_of(self.val())
    }
}

} // verus!
