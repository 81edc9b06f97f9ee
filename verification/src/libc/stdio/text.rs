//! How numbers, pointers and characters are written out by the formatted
//! output functions.

use crate::ascii::{
    LOWER_A, LOWER_L, LOWER_N, LOWER_U, LOWER_X, MINUS, PAREN_CLOSE, PAREN_OPEN, UPPER_A, ZERO,
};
use crate::bytes::push_bytes;
use vstd::prelude::*;

verus! {

/// The decimal digits of a number, most significant first, without leading
/// zeros.
pub open spec fn decimal(n: nat) -> Seq<u8>
    decreases n,
{
    if n < 10 {
        seq![(ZERO + n) as u8]
    } else {
        decimal(n / 10).push((ZERO + n % 10) as u8)
    }
}

/// A signed number in decimal: a minus sign before the digits of a negative
/// number, no sign otherwise.
pub open spec fn signed_decimal(v: int) -> Seq<u8> {
    if v < 0 {
        seq![MINUS] + decimal((-v) as nat)
    } else {
        decimal(v as nat)
    }
}

/// `count` copies of a byte.
pub open spec fn repeated(fill: u8, count: int) -> Seq<u8> {
    Seq::new(
        if count < 0 {
            0
        } else {
            count as nat
        },
        |i: int| fill,
    )
}

/// A text filled up on the left to a width. A text that is already as wide is
/// left as it is.
pub open spec fn pad_left(text: Seq<u8>, width: int, fill: u8) -> Seq<u8> {
    repeated(fill, width - text.len()) + text
}

/// A signed number in decimal, filled up with zeros to a width. The zeros
/// stand between the sign and the digits, and the sign counts for the width.
pub open spec fn zero_filled(v: int, width: int) -> Seq<u8> {
    if v < 0 {
        seq![MINUS] + pad_left(decimal((-v) as nat), width - 1, ZERO)
    } else {
        pad_left(decimal(v as nat), width, ZERO)
    }
}

/// One hexadecimal digit.
pub open spec fn hex_digit(d: nat, upper: bool) -> u8 {
    if d < 10 {
        (ZERO + d) as u8
    } else if upper {
        (UPPER_A + d - 10) as u8
    } else {
        (LOWER_A + d - 10) as u8
    }
}

/// The hexadecimal digits of a number, most significant first, without
/// leading zeros.
pub open spec fn hex(n: nat, upper: bool) -> Seq<u8>
    decreases n,
{
    if n < 16 {
        seq![hex_digit(n, upper)]
    } else {
        hex(n / 16, upper).push(hex_digit(n % 16, upper))
    }
}

/// The text `(null)`.
pub open spec fn null_text() -> Seq<u8> {
    seq![PAREN_OPEN, LOWER_N, LOWER_U, LOWER_L, LOWER_L, PAREN_CLOSE]
}

/// A pointer: `(null)` for the null pointer, else `0x` and the address in
/// lower-case hexadecimal.
pub open spec fn pointer(addr: nat) -> Seq<u8> {
    if addr == 0 {
        null_text()
    } else {
        seq![ZERO, LOWER_X] + hex(addr, false)
    }
}

/// Whether a UTF-16 code unit is one half of a surrogate pair.
pub open spec fn is_surrogate(unit: u16) -> bool {
    0xd800 <= unit <= 0xdfff
}

/// The UTF-8 encoding of the character that a UTF-16 code unit denotes by
/// itself.
pub open spec fn utf8(unit: u16) -> Seq<u8> {
    if unit < 0x80 {
        seq![unit as u8]
    } else if unit < 0x800 {
        seq![(0xc0 + unit / 0x40) as u8, (0x80 + unit % 0x40) as u8]
    } else {
        seq![
            (0xe0 + unit / 0x1000) as u8,
            (0x80 + unit / 0x40 % 0x40) as u8,
            (0x80 + unit % 0x40) as u8,
        ]
    }
}

/// Appends the decimal digits of a number.
pub fn push_decimal(out: &mut Vec<u8>, n: u64)
    ensures
        final(out)@ == old(out)@ + decimal(n as nat),
    decreases n,
{
    if n < 10 {
        out.push(ZERO + n as u8);
        assert(out@ =~= old(out)@ + decimal(n as nat));
    } else {
        push_decimal(out, n / 10);
        out.push(ZERO + (n % 10) as u8);
        assert(out@ =~= old(out)@ + decimal(n as nat));
    }
}

/// The size of a signed number without its sign.
pub fn magnitude(v: i64) -> (m: u64)
    ensures
        m == if v < 0 {
            -v
        } else {
            v as int
        },
{
    if v < 0 {
        (-(v + 1)) as u64 + 1
    } else {
        v as u64
    }
}

/// A signed number in decimal.
pub fn signed_decimal_text(v: i64) -> (text: Vec<u8>)
    ensures
        text@ == signed_decimal(v as int),
{
    let mut out: Vec<u8> = Vec::new();
    if v < 0 {
        out.push(MINUS);
    }
    push_decimal(&mut out, magnitude(v));
    assert(out@ =~= signed_decimal(v as int));
    out
}

/// Appends `count` copies of a byte.
pub fn push_repeated(out: &mut Vec<u8>, fill: u8, count: usize)
    ensures
        final(out)@ == old(out)@ + repeated(fill, count as int),
{
    let mut i: usize = 0;
    while i < count
        invariant
            i <= count,
            out@ == old(out)@ + repeated(fill, i as int),
        decreases count - i,
    {
        out.push(fill);
        assert(out@ =~= old(out)@ + repeated(fill, i + 1));
        i += 1;
    }
}

/// A text filled up on the left to a width.
pub fn pad_left_text(text: &[u8], width: usize, fill: u8) -> (padded: Vec<u8>)
    ensures
        padded@ == pad_left(text@, width as int, fill),
{
    let mut out: Vec<u8> = Vec::new();
    if width > text.len() {
        push_repeated(&mut out, fill, width - text.len());
    }
    push_bytes(&mut out, text);
    assert(out@ =~= pad_left(text@, width as int, fill));
    out
}

/// A signed number in decimal, filled up with zeros to a width.
pub fn zero_filled_text(v: i64, width: usize) -> (text: Vec<u8>)
    ensures
        text@ == zero_filled(v as int, width as int),
{
    let mut digits: Vec<u8> = Vec::new();
    let size = magnitude(v);
    push_decimal(&mut digits, size);
    assert(digits@ =~= decimal(size as nat));
    let mut out: Vec<u8> = Vec::new();
    if v < 0 {
        out.push(MINUS);
        let inner: usize = if width > 0 {
            width - 1
        } else {
            0
        };
        let padded = pad_left_text(digits.as_slice(), inner, ZERO);
        assert(padded@ =~= pad_left(digits@, width - 1, ZERO));
        push_bytes(&mut out, padded.as_slice());
    } else {
        let padded = pad_left_text(digits.as_slice(), width, ZERO);
        push_bytes(&mut out, padded.as_slice());
    }
    assert(out@ =~= zero_filled(v as int, width as int));
    out
}

/// Appends the hexadecimal digits of a number.
pub fn push_hex(out: &mut Vec<u8>, n: u32, upper: bool)
    ensures
        final(out)@ == old(out)@ + hex(n as nat, upper),
    decreases n,
{
    if n >= 16 {
        push_hex(out, n / 16, upper);
    }
    let d: u8 = (n % 16) as u8;
    let digit: u8 = if d < 10 {
        ZERO + d
    } else if upper {
        UPPER_A + (d - 10)
    } else {
        LOWER_A + (d - 10)
    };
    out.push(digit);
    assert(out@ =~= old(out)@ + hex(n as nat, upper));
}

/// A number in hexadecimal.
pub fn hex_text(n: u32, upper: bool) -> (text: Vec<u8>)
    ensures
        text@ == hex(n as nat, upper),
{
    let mut out: Vec<u8> = Vec::new();
    push_hex(&mut out, n, upper);
    assert(out@ =~= hex(n as nat, upper));
    out
}

/// A pointer, written as the address it holds.
pub fn pointer_text(addr: u32) -> (text: Vec<u8>)
    ensures
        text@ == pointer(addr as nat),
{
    let mut out: Vec<u8> = Vec::new();
    if addr == 0 {
        out.push(PAREN_OPEN);
        out.push(LOWER_N);
        out.push(LOWER_U);
        out.push(LOWER_L);
        out.push(LOWER_L);
        out.push(PAREN_CLOSE);
        assert(out@ =~= null_text());
    } else {
        out.push(ZERO);
        out.push(LOWER_X);
        push_hex(&mut out, addr, false);
        assert(out@ =~= pointer(addr as nat));
    }
    out
}

/// The UTF-8 encoding of a UTF-16 code unit, or `None` for one half of a
/// surrogate pair, which denotes no character by itself.
pub fn utf8_text(unit: u16) -> (res: Option<Vec<u8>>)
    ensures
        match res {
            Some(text) => !is_surrogate(unit) && text@ == utf8(unit),
            None => is_surrogate(unit),
        },
{
    if 0xd800 <= unit && unit <= 0xdfff {
        return None;
    }
    let mut out: Vec<u8> = Vec::new();
    if unit < 0x80 {
        out.push(unit as u8);
    } else if unit < 0x800 {
        out.push((0xc0 + unit / 0x40) as u8);
        out.push((0x80 + unit % 0x40) as u8);
    } else {
        out.push((0xe0 + unit / 0x1000) as u8);
        out.push((0x80 + unit / 0x40 % 0x40) as u8);
        out.push((0x80 + unit % 0x40) as u8);
    }
    assert(out@ =~= utf8(unit));
    Some(out)
}

} // verus!
