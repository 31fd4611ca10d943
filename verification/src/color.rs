//! RGB color values and the hexadecimal digit alphabet that color literals
//! are written in.

use vstd::prelude::*;

verus! {

/// A 24-bit color value, one byte per channel.
#[derive(Clone, Copy, PartialEq, Eq, Structural, Debug)]
pub struct Rgb {
    pub r: u8,
    pub g: u8,
    pub b: u8,
}

/// A character that can stand in a hexadecimal color literal.
pub open spec fn is_hex_digit(c: char) -> bool {
    (48 <= c as u32 && c as u32 <= 57)  // '0' ..= '9'
    || (97 <= c as u32 && c as u32 <= 102)  // 'a' ..= 'f'
    || (65 <= c as u32 && c as u32 <= 70)  // 'A' ..= 'F'
}

/// A hexadecimal digit as the serializer writes it: decimal or lower case.
pub open spec fn is_lower_hex_digit(c: char) -> bool {
    is_hex_digit(c) && !(65 <= c as u32 && c as u32 <= 70)
}

/// The numeric value of a hexadecimal digit character.
pub open spec fn hex_val(c: char) -> int {
    if c as u32 <= 57 {
        c as u32 - 48
    } else if c as u32 >= 97 {
        c as u32 - 87
    } else {
        c as u32 - 55
    }
}

/// The lower-case character for a digit value below 16.
pub open spec fn hex_char(v: int) -> char {
    if v == 0 { '0' } else if v == 1 { '1' } else if v == 2 { '2' } else if v == 3 { '3' }
    else if v == 4 { '4' } else if v == 5 { '5' } else if v == 6 { '6' } else if v == 7 { '7' }
    else if v == 8 { '8' } else if v == 9 { '9' } else if v == 10 { 'a' } else if v == 11 { 'b' }
    else if v == 12 { 'c' } else if v == 13 { 'd' } else if v == 14 { 'e' } else { 'f' }
}

pub proof fn lemma_hex_char_of_val(c: char)
    requires
        is_lower_hex_digit(c),
    ensures
        hex_char(hex_val(c)) == c,
{
    let u = c as u32;
    assert((u as char) == c) by {
        vstd::utf8::char_u32_cast(c, u);
    }
}

pub proof fn lemma_hex_val_of_char(v: int)
    requires
        0 <= v < 16,
    ensures
        is_lower_hex_digit(hex_char(v)),
        hex_val(hex_char(v)) == v,
{
}

/// The channel value written as two hexadecimal digits, high digit first.
pub open spec fn hex6_channel(hi: char, lo: char) -> u8 {
    (hex_val(hi) * 16 + hex_val(lo)) as u8
}

/// The channel value written as one hexadecimal digit: `digit * 17`, so the
/// 4-bit value spans the whole 0..=255 range (0x0 maps to 0, 0xf to 255).
pub open spec fn hex3_channel(d: char) -> u8 {
    (17 * hex_val(d)) as u8
}

/// The high digit of a channel value in two-digit form.
pub open spec fn hex6_encode_hi(v: u8) -> char {
    hex_char(v as int / 16)
}

/// The low digit of a channel value in two-digit form.
pub open spec fn hex6_encode_lo(v: u8) -> char {
    hex_char(v as int % 16)
}

/// The single digit of a channel value in one-digit form: truncating division
/// by 16, deliberately lossy for values that are not multiples of 17.
pub open spec fn hex3_encode(v: u8) -> char {
    hex_char(v as int / 16)
}

proof fn lemma_digit_pair_split(q: int, r: int)
    requires
        0 <= q < 16,
        0 <= r < 16,
    ensures
        (q * 16 + r) / 16 == q,
        (q * 16 + r) % 16 == r,
{
    assert((q * 16 + r) / 16 == q && (q * 16 + r) % 16 == r) by (nonlinear_arith)
        requires 0 <= q < 16 && 0 <= r < 16;
}

/// A channel decoded from two lower-case digits re-encodes to the same digits.
pub proof fn lemma_hex6_channel_roundtrip(hi: char, lo: char)
    requires
        is_lower_hex_digit(hi),
        is_lower_hex_digit(lo),
    ensures
        hex6_encode_hi(hex6_channel(hi, lo)) == hi,
        hex6_encode_lo(hex6_channel(hi, lo)) == lo,
{
    lemma_digit_pair_split(hex_val(hi), hex_val(lo));
    lemma_hex_char_of_val(hi);
    lemma_hex_char_of_val(lo);
}

/// A channel decoded from one lower-case digit re-encodes to the same digit.
pub proof fn lemma_hex3_channel_roundtrip(d: char)
    requires
        is_lower_hex_digit(d),
    ensures
        hex3_encode(hex3_channel(d)) == d,
{
    let q = hex_val(d);
    assert((17 * q) / 16 == q) by (nonlinear_arith)
        requires 0 <= q < 16;
    lemma_hex_char_of_val(d);
}

/// One-digit encoding is stable after a decode: re-encoding the decoded value
/// gives the digit back, even though decoding does not invert encoding on
/// values that are not multiples of 17.
pub proof fn lemma_hex3_encode_stable(v: u8)
    ensures
        hex3_encode(hex3_channel(hex3_encode(v))) == hex3_encode(v),
{
    let q = v as int / 16;
    assert(0 <= q < 16);
    lemma_hex_val_of_char(q);
    assert((17 * q) / 16 == q) by (nonlinear_arith)
        requires 0 <= q < 16;
}

pub fn is_hex_digit_exec(c: char) -> (b: bool)
    ensures
        b == is_hex_digit(c),
{
    let x = c as u32;
    (48 <= x && x <= 57) || (97 <= x && x <= 102) || (65 <= x && x <= 70)
}

pub fn hex_val_exec(c: char) -> (v: u8)
    requires
        is_hex_digit(c),
    ensures
        v as int == hex_val(c),
        v < 16,
{
    let x = c as u32;
    if x <= 57 {
        (x - 48) as u8
    } else if x >= 97 {
        (x - 87) as u8
    } else {
        (x - 55) as u8
    }
}

/// The one-character string for a digit value below 16, for building rendered
/// color text.
pub fn hex_char_str(v: u8) -> (s: &'static str)
    requires
        v < 16,
    ensures
        s@ =~= seq![hex_char(v as int)],
{
    proof {
        reveal_strlit("0");
        reveal_strlit("1");
        reveal_strlit("2");
        reveal_strlit("3");
        reveal_strlit("4");
        reveal_strlit("5");
        reveal_strlit("6");
        reveal_strlit("7");
        reveal_strlit("8");
        reveal_strlit("9");
        reveal_strlit("a");
        reveal_strlit("b");
        reveal_strlit("c");
        reveal_strlit("d");
        reveal_strlit("e");
        reveal_strlit("f");
    }
    match v {
        0 => "0",
        1 => "1",
        2 => "2",
        3 => "3",
        4 => "4",
        5 => "5",
        6 => "6",
        7 => "7",
        8 => "8",
        9 => "9",
        10 => "a",
        11 => "b",
        12 => "c",
        13 => "d",
        14 => "e",
        _ => "f",
    }
}

} // verus!
