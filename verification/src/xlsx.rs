//! Spreadsheet cell addressing and text for workbook parts.

use vstd::prelude::*;
use crate::xml::{escape_chars, escape_public};

verus! {

/// The column letters of a zero-based column index: `A`..`Z`, then `AA`,
/// `AB`, ... (bijective base 26).
pub open spec fn col_letters(n: nat) -> Seq<char>
    decreases n,
{
    if n < 26 {
        seq![(65 + n) as char]
    } else {
        col_letters((n / 26 - 1) as nat) + seq![(65 + n % 26) as char]
    }
}

fn letter(d: usize) -> (c: char)
    requires
        d < 26,
    ensures
        c == (65 + d) as char,
{
    let b: u8 = 65u8 + d as u8;
    b as char
}

fn push_col_letters(out: &mut String, n: usize)
    ensures
        final(out)@ == old(out)@ + col_letters(n as nat),
    decreases n,
{
    if n >= 26 {
        push_col_letters(out, n / 26 - 1);
    }
    out.push(letter(n % 26));
}

/// Column letters of a zero-based column index (0 → `A`, 25 → `Z`, 26 →
/// `AA`).
pub fn col_index_to_letter(idx: usize) -> (r: String)
    ensures
        r@ == col_letters(idx as nat),
{
    let mut s = String::new();
    push_col_letters(&mut s, idx);
    s
}

/// Text for a workbook part's markup: `&`, `<`, `>`, `"` and `'` written as
/// their predefined entities, everything else kept.
pub fn xml_escape(s: &str) -> (r: String)
    ensures
        r@ == escape_chars(s@),
{
    escape_public(s)
}

} // verus!
