//! Decimal integers in attribute values, read the way `str::parse` reads
//! them: an optional sign, then one or more ASCII digits, in range.

use vstd::prelude::*;

verus! {

pub open spec fn is_digit(b: u8) -> bool {
    48 <= b <= 57
}

pub open spec fn all_digits(s: Seq<u8>) -> bool {
    forall|i: int| 0 <= i < s.len() ==> is_digit(#[trigger] s[i])
}

/// The value of a string of decimal digits.
pub open spec fn digits_value(s: Seq<u8>) -> nat
    decreases s.len(),
{
    if s.len() == 0 {
        0
    } else {
        digits_value(s.drop_last()) * 10 + (s.last() - 48) as nat
    }
}

/// The digits after an optional leading `+`.
pub open spec fn unsigned_digits(s: Seq<u8>) -> Seq<u8> {
    if s.len() > 0 && s[0] == 43u8 {
        s.drop_first()
    } else {
        s
    }
}

/// An unsigned integer no greater than `max`: an optional `+`, then one or
/// more digits.
pub open spec fn parse_unsigned(s: Seq<u8>, max: nat) -> Option<nat> {
    let d = unsigned_digits(s);
    if d.len() > 0 && all_digits(d) && digits_value(d) <= max {
        Some(digits_value(d))
    } else {
        None
    }
}

/// A signed integer in `[min, max]`: an optional `+` or `-`, then one or
/// more digits.
pub open spec fn parse_signed(s: Seq<u8>, min: int, max: int) -> Option<int> {
    if s.len() > 0 && s[0] == 45u8 {
        let d = s.drop_first();
        if d.len() > 0 && all_digits(d) && -digits_value(d) >= min {
            Some(-digits_value(d))
        } else {
            None
        }
    } else {
        match parse_unsigned(s, max as nat) {
            Some(v) => if max >= 0 { Some(v as int) } else { None },
            None => None,
        }
    }
}

proof fn lemma_digits_push(s: Seq<u8>, b: u8)
    ensures
        digits_value(s.push(b)) == digits_value(s) * 10 + (b - 48) as nat,
{
    assert(s.push(b).drop_last() =~= s);
}

/// The value of the digits `s[start..]` when they are all digits, there is
/// at least one, and it is at most `max`.
fn digits_at(s: &[u8], start: usize, max: u64) -> (r: Option<u64>)
    requires
        start <= s@.len(),
    ensures
        match r {
            Some(v) => s@.skip(start as int).len() > 0 && all_digits(s@.skip(start as int)) && digits_value(
                s@.skip(start as int),
            ) == v && v <= max,
            None => !(s@.skip(start as int).len() > 0 && all_digits(s@.skip(start as int)) && digits_value(
                s@.skip(start as int),
            ) <= max),
        },
{
    let ghost d = s@.skip(start as int);
    if start == s.len() {
        return None;
    }
    let mut acc: u64 = 0;
    let mut over = false;
    let mut i: usize = start;
    assert(d.take(0) =~= Seq::<u8>::empty());
    while i < s.len()
        invariant
            start <= i <= s@.len(),
            d == s@.skip(start as int),
            all_digits(d.take(i - start)),
            !over ==> acc == digits_value(d.take(i - start)) && acc <= max,
            over ==> digits_value(d.take(i - start)) > max,
        decreases s@.len() - i,
    {
        let b = s[i];
        if b < 48 || b > 57 {
            assert(d[i - start] == b);
            return None;
        }
        proof {
            assert(d.take(i - start + 1) =~= d.take(i - start).push(b));
            lemma_digits_push(d.take(i - start), b);
        }
        if !over {
            let next: u128 = (acc as u128) * 10 + ((b - 48) as u128);
            if next > max as u128 {
                over = true;
            } else {
                acc = next as u64;
            }
        }
        i = i + 1;
    }
    assert(d.take(d.len() as int) =~= d);
    if over {
        None
    } else {
        Some(acc)
    }
}

/// `str::parse::<usize>` of the bytes, when they are UTF-8.
pub fn parse_usize(s: &[u8]) -> (r: Option<usize>)
    ensures
        match r {
            Some(v) => parse_unsigned(s@, usize::MAX as nat) == Some(v as nat),
            None => parse_unsigned(s@, usize::MAX as nat) is None,
        },
{
    let start: usize = if s.len() > 0 && s[0] == 43u8 { 1 } else { 0 };
    assert(unsigned_digits(s@) =~= s@.skip(start as int));
    match digits_at(s, start, usize::MAX as u64) {
        Some(v) => Some(v as usize),
        None => None,
    }
}

/// `str::parse::<u32>` of the bytes, when they are UTF-8.
pub fn parse_u32(s: &[u8]) -> (r: Option<u32>)
    ensures
        match r {
            Some(v) => parse_unsigned(s@, u32::MAX as nat) == Some(v as nat),
            None => parse_unsigned(s@, u32::MAX as nat) is None,
        },
{
    let start: usize = if s.len() > 0 && s[0] == 43u8 { 1 } else { 0 };
    assert(unsigned_digits(s@) =~= s@.skip(start as int));
    match digits_at(s, start, u32::MAX as u64) {
        Some(v) => Some(v as u32),
        None => None,
    }
}

/// `str::parse::<i64>` of the bytes, when they are UTF-8.
pub fn parse_i64(s: &[u8]) -> (r: Option<i64>)
    ensures
        match r {
            Some(v) => parse_signed(s@, i64::MIN as int, i64::MAX as int) == Some(v as int),
            None => parse_signed(s@, i64::MIN as int, i64::MAX as int) is None,
        },
{
    if s.len() > 0 && s[0] == 45u8 {
        assert(s@.drop_first() =~= s@.skip(1));
        match digits_at(s, 1, 0x8000_0000_0000_0000u64) {
            Some(v) => Some((0i128 - (v as i128)) as i64),
            None => None,
        }
    } else {
        let start: usize = if s.len() > 0 && s[0] == 43u8 { 1 } else { 0 };
        assert(unsigned_digits(s@) =~= s@.skip(start as int));
        match digits_at(s, start, i64::MAX as u64) {
            Some(v) => Some(v as i64),
            None => None,
        }
    }
}

proof fn lemma_dec_nat_chars(n: nat)
    ensures
        crate::text::dec_nat(n).len() > 0,
        forall|i: int| 0 <= i < crate::text::dec_nat(n).len() ==> 48 <= (#[trigger] crate::text::dec_nat(n)[i]) as u32 <= 57,
        forall|i: int| 0 <= i < crate::text::dec_nat(n).len() ==> '\0' <= #[trigger] crate::text::dec_nat(n)[i] <= '\u{7f}',
    decreases n,
{
    if n >= 10 {
        lemma_dec_nat_chars(n / 10);
        let a = crate::text::dec_nat(n / 10);
        assert forall|i: int| 0 <= i < crate::text::dec_nat(n).len() implies 48 <= (#[trigger] crate::text::dec_nat(n)[i]) as u32 <= 57 by {
            if i < a.len() {
                assert(crate::text::dec_nat(n)[i] == a[i]);
            }
        }
        assert forall|i: int| 0 <= i < crate::text::dec_nat(n).len() implies '\0' <= #[trigger] crate::text::dec_nat(n)[i] <= '\u{7f}' by {
            if i < a.len() {
                assert(crate::text::dec_nat(n)[i] == a[i]);
            }
        }
    }
}

/// A decimal numeral written as UTF-8 reads back as its number.
pub proof fn lemma_dec_reads_back(n: nat, max: nat)
    requires
        n <= max,
    ensures
        parse_unsigned(vstd::utf8::encode_utf8(crate::text::dec_nat(n)), max) == Some(n),
    decreases n,
{
    let cs = crate::text::dec_nat(n);
    let b = vstd::utf8::encode_utf8(cs);
    lemma_dec_nat_chars(n);
    assert(vstd::utf8::is_ascii_chars(cs));
    vstd::utf8::is_ascii_chars_encode_utf8(cs);
    assert(all_digits(b)) by {
        assert forall|i: int| 0 <= i < b.len() implies is_digit(#[trigger] b[i]) by {
            assert(cs[i] as u8 == b[i]);
        }
    }
    assert(b[0] != 43u8) by {
        assert(cs[0] as u8 == b[0]);
    }
    assert(unsigned_digits(b) == b);
    if n < 10 {
        assert(b.len() == 1);
        assert(b.drop_last() =~= Seq::<u8>::empty());
        assert(cs[0] as u8 == b[0]);
        assert(b[0] == 48 + n);
        assert(digits_value(b.drop_last()) == 0);
        assert(b.last() == b[0]);
        assert(digits_value(b) == n);
    } else {
        lemma_dec_reads_back(n / 10, max);
        let a = crate::text::dec_nat(n / 10);
        let ab = vstd::utf8::encode_utf8(a);
        lemma_dec_nat_chars(n / 10);
        assert(vstd::utf8::is_ascii_chars(a));
        vstd::utf8::is_ascii_chars_encode_utf8(a);
        assert(cs == a + seq![crate::text::digit_char((n % 10) as int)]);
        assert(b.drop_last() =~= ab) by {
            assert forall|i: int| 0 <= i < ab.len() implies b.drop_last()[i] == ab[i] by {
                assert(cs[i] == a[i]);
                assert(cs[i] as u8 == b[i]);
                assert(a[i] as u8 == ab[i]);
            }
        }
        assert(cs[cs.len() - 1] as u8 == b[b.len() - 1]);
        assert(b.last() == 48 + n % 10);
        assert(unsigned_digits(ab) == ab) by {
            assert(a[0] as u8 == ab[0]);
        }
        assert(digits_value(ab) == n / 10);
        assert(digits_value(b) == (n / 10) * 10 + n % 10);
    }
}

} // verus!
