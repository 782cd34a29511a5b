//! The Braille cell: a character of the Braille Patterns block, seen as the
//! blank pattern U+2800 plus one byte of dots.

use vstd::prelude::*;

verus! {

/// Code point of the blank Braille pattern, the first of the block.
pub const BLANK: u32 = 0x2800;

/// Whether `code` is a Unicode scalar value, that is, the code point of a `char`.
pub open spec fn is_scalar(code: int) -> bool {
    0 <= code <= 0xD7FF || 0xE000 <= code <= 0x10FFFF
}

/// Whether `c` lies in the Braille Patterns block.
pub open spec fn is_cell(c: char) -> bool {
    0x2800 <= c as u32 <= 0x28FF
}

/// The character `dots` code points after the blank pattern.
pub open spec fn cell_of(dots: int) -> char {
    (BLANK + dots) as char
}

/// The dot byte of a character: its distance from the blank pattern, reduced
/// modulo 256. For a character of the Braille block this is the distance itself.
pub open spec fn dots_in(c: char) -> u8 {
    ((c as u32 - BLANK) % 256) as u8
}

/// What is taken on trust of `char::from_u32`: it returns a character exactly
/// for the Unicode scalar values (everything up to U+10FFFF but the surrogates
/// U+D800 to U+DFFF), and that character has the code point asked for.
pub assume_specification[ char::from_u32 ](i: u32) -> (r: Option<char>)
    ensures
        r == if is_scalar(i as int) { Some(i as char) } else { None },
;

/// The character `dots` code points after the blank Braille pattern.
pub fn to_cell(dots: u32) -> (c: char)
    requires
        is_scalar(BLANK + dots),
    ensures
        c == cell_of(dots as int),
        c as u32 == BLANK + dots,
{
    char::from_u32(BLANK + dots).unwrap()
}

/// The dot byte of `c`. Nothing is checked: a character outside the Braille
/// block yields the low eight bits of its wrapped distance from the blank
/// pattern.
pub fn to_dots(c: char) -> (d: u8)
    ensures
        d == dots_in(c),
        is_cell(c) ==> d == c as u32 - BLANK,
{
    let code: u32 = c as u32;
    let d: u8 = code.wrapping_sub(BLANK) as u8;
    assert(d == ((code - 0x2800) % 256) as u8) by (bit_vector)
        requires
            d == code.wrapping_sub(0x2800u32) as u8,
    ;
    d
}

} // verus!
