//! The `bcd` style: a byte from 0 to 99 is written as two decimal digits, the
//! tens in the left column of the cell and the ones in the right column, each
//! by the dot pattern of its own table.

use vstd::prelude::*;
use crate::cell::{cell_of, dots_in, is_cell, to_cell, to_dots};

verus! {

/// Dot pattern of each tens digit: the left column, its rows weighing 8, 4, 2
/// and 1 from the top.
pub const TENS: [u8; 10] = [0x00, 0x40, 0x04, 0x44, 0x02, 0x42, 0x06, 0x46, 0x01, 0x41];

/// Dot pattern of each ones digit: the right column, its rows weighing 8, 4, 2
/// and 1 from the top.
pub const ONES: [u8; 10] = [0x00, 0x80, 0x20, 0xA0, 0x10, 0x90, 0x30, 0xB0, 0x08, 0x88];

/// Whether every dot of `pattern` is raised in `d`.
pub open spec fn shows(d: u8, pattern: u8) -> bool {
    d & pattern == pattern
}

/// The highest digit below `n` whose pattern shows in `d`, and 0 where none
/// above 0 does.
pub open spec fn top_digit(d: u8, patterns: Seq<u8>, n: int) -> int
    decreases n,
{
    if n <= 1 {
        0
    } else if shows(d, patterns[n - 1]) {
        n - 1
    } else {
        top_digit(d, patterns, n - 1)
    }
}

/// The cell that the `bcd` style writes for `decimal`, a byte from 0 to 99.
pub open spec fn bcd_char(decimal: u8) -> char {
    cell_of(TENS@[decimal as int / 10] + ONES@[decimal as int % 10])
}

/// The byte that the `bcd` style reads from `c`: ten times the highest tens
/// digit that shows in the cell, plus the highest ones digit that does.
pub open spec fn bcd_byte(c: char) -> u8 {
    (10 * top_digit(dots_in(c), TENS@, 10) + top_digit(dots_in(c), ONES@, 10)) as u8
}

/// A top digit is a digit below `n`, its pattern shows unless it is 0, and no
/// higher digit's pattern does.
pub proof fn lemma_top_digit(d: u8, patterns: Seq<u8>, n: int)
    requires
        1 <= n <= patterns.len(),
    ensures
        0 <= top_digit(d, patterns, n) < n,
        top_digit(d, patterns, n) > 0 ==> shows(d, patterns[top_digit(d, patterns, n)]),
        forall|j: int| top_digit(d, patterns, n) < j < n ==> !shows(d, #[trigger] patterns[j]),
    decreases n,
{
    if n > 1 && !shows(d, patterns[n - 1]) {
        lemma_top_digit(d, patterns, n - 1);
    }
}

/// The pattern of a tens digit, spelled out for the bit-vector solver.
spec fn tens_pattern(t: u8) -> u8 {
    if t == 0 {
        0x00
    } else if t == 1 {
        0x40
    } else if t == 2 {
        0x04
    } else if t == 3 {
        0x44
    } else if t == 4 {
        0x02
    } else if t == 5 {
        0x42
    } else if t == 6 {
        0x06
    } else if t == 7 {
        0x46
    } else if t == 8 {
        0x01
    } else {
        0x41
    }
}

/// The pattern of a ones digit, spelled out for the bit-vector solver.
spec fn ones_pattern(o: u8) -> u8 {
    if o == 0 {
        0x00
    } else if o == 1 {
        0x80
    } else if o == 2 {
        0x20
    } else if o == 3 {
        0xA0
    } else if o == 4 {
        0x10
    } else if o == 5 {
        0x90
    } else if o == 6 {
        0x30
    } else if o == 7 {
        0xB0
    } else if o == 8 {
        0x08
    } else {
        0x88
    }
}

/// The highest digit whose pattern, of nine given for the digits 1 to 9, shows
/// in `d`.
spec fn first_shown(
    d: u8,
    n1: u8,
    n2: u8,
    n3: u8,
    n4: u8,
    n5: u8,
    n6: u8,
    n7: u8,
    n8: u8,
    n9: u8,
) -> u8 {
    if d & n9 == n9 {
        9
    } else if d & n8 == n8 {
        8
    } else if d & n7 == n7 {
        7
    } else if d & n6 == n6 {
        6
    } else if d & n5 == n5 {
        5
    } else if d & n4 == n4 {
        4
    } else if d & n3 == n3 {
        3
    } else if d & n2 == n2 {
        2
    } else if d & n1 == n1 {
        1
    } else {
        0
    }
}

/// The patterns of a tens digit and a ones digit add up to a byte in which
/// each of the two is the highest digit of its table that shows.
proof fn lemma_digits_shown(t: u8, o: u8)
    by (bit_vector)
    requires
        t < 10,
        o < 10,
    ensures
        tens_pattern(t) + ones_pattern(o) <= 255,
        first_shown(
            (tens_pattern(t) + ones_pattern(o)) as u8,
            0x40,
            0x04,
            0x44,
            0x02,
            0x42,
            0x06,
            0x46,
            0x01,
            0x41,
        ) == t,
        first_shown(
            (tens_pattern(t) + ones_pattern(o)) as u8,
            0x80,
            0x20,
            0xA0,
            0x10,
            0x90,
            0x30,
            0xB0,
            0x08,
            0x88,
        ) == o,
{
}

/// The top digit of a table of ten patterns, written out.
proof fn lemma_top_digit_ten(d: u8, patterns: Seq<u8>)
    requires
        patterns.len() == 10,
    ensures
        top_digit(d, patterns, 10) == first_shown(
            d,
            patterns[1],
            patterns[2],
            patterns[3],
            patterns[4],
            patterns[5],
            patterns[6],
            patterns[7],
            patterns[8],
            patterns[9],
        ),
{
    reveal_with_fuel(top_digit, 11);
}

/// Every byte from 0 to 99 is written as a cell of the Braille block, and
/// reading that cell gives the byte back.
pub proof fn lemma_bcd_round_trip(decimal: u8)
    requires
        decimal <= 99,
    ensures
        is_cell(bcd_char(decimal)),
        bcd_byte(bcd_char(decimal)) == decimal,
{
    let t: u8 = decimal / 10;
    let o: u8 = decimal % 10;
    let c = bcd_char(decimal);
    assert(TENS@[t as int] == tens_pattern(t));
    assert(ONES@[o as int] == ones_pattern(o));
    lemma_digits_shown(t, o);
    let v = tens_pattern(t) + ones_pattern(o);
    assert(c as u32 == 0x2800 + v);
    assert(dots_in(c) == v as u8);
    lemma_top_digit_ten(dots_in(c), TENS@);
    lemma_top_digit_ten(dots_in(c), ONES@);
}

/// Two different bytes from 0 to 99 are written as two different cells.
pub proof fn lemma_bcd_chars_distinct(a: u8, b: u8)
    requires
        a <= 99,
        b <= 99,
        a != b,
    ensures
        bcd_char(a) != bcd_char(b),
{
    lemma_bcd_round_trip(a);
    lemma_bcd_round_trip(b);
}

/// Scans `patterns` from digit 9 down for the first one that shows in `d`.
fn highest_digit(d: u8, patterns: &[u8; 10]) -> (digit: u8)
    ensures
        digit == top_digit(d, patterns@, 10),
        digit <= 9,
{
    let mut i: usize = 9;
    while i > 0
        invariant
            i <= 9,
            top_digit(d, patterns@, 10) == top_digit(d, patterns@, i + 1),
        decreases i,
    {
        if d & patterns[i] == patterns[i] {
            return i as u8;
        }
        i -= 1;
    }
    0
}

/// Translates a byte from 0 to 99 to its cell in the `bcd` style. No other
/// byte has a cell in this style.
pub fn encode_bcd(decimal: u8) -> (c: char)
    requires
        decimal <= 99,
    ensures
        c == bcd_char(decimal),
        is_cell(c),
{
    proof {
        lemma_bcd_round_trip(decimal);
    }
    let d: usize = decimal as usize;
    let tens: usize = d / 10;
    let ones: usize = d - tens * 10;
    to_cell((TENS[tens] as u32) + (ONES[ones] as u32))
}

/// Translates a cell to its byte in the `bcd` style. The result is at most 99
/// whatever the cell.
pub fn decode_bcd(c: char) -> (decimal: u8)
    ensures
        decimal == bcd_byte(c),
        decimal <= 99,
{
    let d: u8 = to_dots(c);
    let tens: u8 = highest_digit(d, &TENS);
    let ones: u8 = highest_digit(d, &ONES);
    tens * 10 + ones
}

} // verus!
