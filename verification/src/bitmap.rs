//! The byte codec of the bit-mapped styles: a byte and a cell are translated
//! into each other entry by entry of a style table.

use vstd::prelude::*;
use crate::cell::{cell_of, dots_in, is_cell, is_scalar, to_cell, to_dots, BLANK};
use crate::table::{
    bit, decode_table, encode_table, is_dot, is_dot_order, lemma_bits, lemma_named_tables,
    DECODE_NLBB, DECODE_NLBT, DECODE_NRBB, DECODE_NRBT, DIRECT, ENCODE_NLBB, ENCODE_NLBT,
    ENCODE_NRBB, ENCODE_NRBT, NLBB, NLBT, NRBB, NRBT,
};

verus! {

/// `weight` if every bit of `mask` is set in `b`, else nothing.
pub open spec fn pick(b: u8, mask: u8, weight: u32) -> u32 {
    if b & mask == mask {
        weight
    } else {
        0
    }
}

/// `mask` if every dot of `dot` is raised in `d`, else nothing.
pub open spec fn unpick(d: u8, dot: u8, mask: u8) -> u8 {
    if d & dot == dot {
        mask
    } else {
        0
    }
}

/// The sum of the weights of those entries of an encode table whose mask is
/// set in `b`.
pub open spec fn dot_sum(b: u8, table: Seq<(u8, u32)>) -> int
    decreases table.len(),
{
    if table.len() == 0 {
        0
    } else {
        dot_sum(b, table.drop_last()) + pick(b, table.last().0, table.last().1)
    }
}

/// The union of the masks of those entries of a decode table whose dot is
/// raised in `d`.
pub open spec fn bit_union(d: u8, table: Seq<(u8, u8)>) -> u8
    decreases table.len(),
{
    if table.len() == 0 {
        0
    } else {
        bit_union(d, table.drop_last()) | unpick(d, table.last().0, table.last().1)
    }
}

/// The cell that the style with the given weight list writes for `b`.
pub open spec fn dot_char(b: u8, weights: Seq<u32>) -> char {
    cell_of(dot_sum(b, encode_table(weights)))
}

/// The byte that the style with the given weight list reads from `c`.
pub open spec fn dot_byte(c: char, weights: Seq<u32>) -> u8 {
    bit_union(dots_in(c), decode_table(weights))
}

/// One more entry adds its pick to the sum of a prefix.
pub proof fn lemma_dot_sum_step(b: u8, table: Seq<(u8, u32)>, n: int)
    requires
        0 < n <= table.len(),
    ensures
        dot_sum(b, table.take(n)) == dot_sum(b, table.take(n - 1)) + pick(
            b,
            table[n - 1].0,
            table[n - 1].1,
        ),
{
    assert(table.take(n).drop_last() =~= table.take(n - 1));
}

/// One more entry joins its mask to the union of a prefix.
pub proof fn lemma_bit_union_step(d: u8, table: Seq<(u8, u8)>, n: int)
    requires
        0 < n <= table.len(),
    ensures
        bit_union(d, table.take(n)) == bit_union(d, table.take(n - 1)) | unpick(
            d,
            table[n - 1].0,
            table[n - 1].1,
        ),
{
    assert(table.take(n).drop_last() =~= table.take(n - 1));
}

/// The sum over a prefix of a table is at least zero and at most the sum over
/// the whole table.
pub proof fn lemma_dot_sum_prefix(b: u8, table: Seq<(u8, u32)>, n: int)
    requires
        0 <= n <= table.len(),
    ensures
        0 <= dot_sum(b, table.take(n)) <= dot_sum(b, table),
    decreases table.len() - n,
{
    if n == table.len() {
        assert(table.take(n) =~= table);
        lemma_dot_sum_nonnegative(b, table);
    } else {
        lemma_dot_sum_prefix(b, table, n + 1);
        lemma_dot_sum_step(b, table, n + 1);
        lemma_dot_sum_nonnegative(b, table.take(n));
    }
}

/// A sum of weights is never negative.
pub proof fn lemma_dot_sum_nonnegative(b: u8, table: Seq<(u8, u32)>)
    ensures
        0 <= dot_sum(b, table),
    decreases table.len(),
{
    if table.len() > 0 {
        lemma_dot_sum_nonnegative(b, table.drop_last());
    }
}

/// The sum over the encode table of eight weights, written out.
pub proof fn lemma_dot_sum_eight(b: u8, w: Seq<u32>)
    requires
        w.len() == 8,
    ensures
        dot_sum(b, encode_table(w)) == pick(b, 1, w[0]) + pick(b, 2, w[1]) + pick(b, 4, w[2])
            + pick(b, 8, w[3]) + pick(b, 16, w[4]) + pick(b, 32, w[5]) + pick(b, 64, w[6]) + pick(
            b,
            128,
            w[7],
        ),
{
    let t = encode_table(w);
    lemma_bits();
    assert(dot_sum(b, t.take(0)) == 0);
    lemma_dot_sum_step(b, t, 1);
    lemma_dot_sum_step(b, t, 2);
    lemma_dot_sum_step(b, t, 3);
    lemma_dot_sum_step(b, t, 4);
    lemma_dot_sum_step(b, t, 5);
    lemma_dot_sum_step(b, t, 6);
    lemma_dot_sum_step(b, t, 7);
    lemma_dot_sum_step(b, t, 8);
    assert(t.take(8) =~= t);
}

/// The union over the decode table of eight weights, written out.
pub proof fn lemma_bit_union_eight(d: u8, w: Seq<u32>)
    requires
        w.len() == 8,
    ensures
        bit_union(d, decode_table(w)) == unpick(d, w[0] as u8, 1) | unpick(d, w[1] as u8, 2)
            | unpick(d, w[2] as u8, 4) | unpick(d, w[3] as u8, 8) | unpick(d, w[4] as u8, 16)
            | unpick(d, w[5] as u8, 32) | unpick(d, w[6] as u8, 64) | unpick(d, w[7] as u8, 128),
{
    let t = decode_table(w);
    lemma_bits();
    assert(bit_union(d, t.take(0)) == 0);
    lemma_bit_union_step(d, t, 1);
    lemma_bit_union_step(d, t, 2);
    lemma_bit_union_step(d, t, 3);
    lemma_bit_union_step(d, t, 4);
    lemma_bit_union_step(d, t, 5);
    lemma_bit_union_step(d, t, 6);
    lemma_bit_union_step(d, t, 7);
    lemma_bit_union_step(d, t, 8);
    assert(t.take(8) =~= t);
    let u0 = unpick(d, w[0] as u8, 1);
    assert(0u8 | u0 == u0) by (bit_vector);
}

/// No dot is raised in the byte 0, and a dot is raised in a byte wholly or not
/// at all.
proof fn lemma_dot_alone(x: u8, y: u32)
    by (bit_vector)
    requires
        is_dot(y),
    ensures
        0u8 & (y as u8) != y as u8,
        x & (y as u8) != y as u8 ==> x & (y as u8) == 0,
{
}

/// Adding a dot that is not raised yet raises it, and leaves every other dot
/// as it was.
proof fn lemma_dot_added(x: u8, y: u32, z: u32)
    by (bit_vector)
    requires
        is_dot(y),
        is_dot(z),
        x & (y as u8) == 0,
    ensures
        x + y <= 255,
        ((x + y) as u8) & (y as u8) == y as u8,
        z != y ==> (((x + y) as u8) & (z as u8) == z as u8) == (x & (z as u8) == z as u8),
{
}

/// A byte is the union of the masks of its set bits.
proof fn lemma_byte_of_bits(b: u8)
    by (bit_vector)
    ensures
        unpick(b, 1, 1) | unpick(b, 2, 2) | unpick(b, 4, 4) | unpick(b, 8, 8) | unpick(b, 16, 16)
            | unpick(b, 32, 32) | unpick(b, 64, 64) | unpick(b, 128, 128) == b,
{
}

/// After the first `n` entries of the encode table of an order of the dots,
/// the sum is a byte in which dot `weights[k]` is raised exactly if `k < n`
/// and bit `k` of `b` is set.
proof fn lemma_dot_sum_raises(b: u8, weights: Seq<u32>, n: int)
    requires
        is_dot_order(weights),
        0 <= n <= 8,
    ensures
        0 <= dot_sum(b, encode_table(weights).take(n)) <= 255,
        forall|k: int|
            0 <= k < 8 ==> (((dot_sum(b, encode_table(weights).take(n)) as u8) & (
            #[trigger] weights[k] as u8) == weights[k] as u8) <==> (k < n && b & bit(k) == bit(k))),
    decreases n,
{
    let table = encode_table(weights);
    let s = dot_sum(b, table.take(n));
    if n == 0 {
        assert forall|k: int| 0 <= k < 8 implies (s as u8) & (#[trigger] weights[k] as u8)
            != weights[k] as u8 by {
            lemma_dot_alone(0, weights[k]);
        }
    } else {
        let m = n - 1;
        let r = dot_sum(b, table.take(m));
        lemma_dot_sum_raises(b, weights, m);
        lemma_dot_sum_step(b, table, n);
        if b & bit(m) == bit(m) {
            lemma_dot_alone(r as u8, weights[m]);
            assert forall|k: int| 0 <= k < 8 implies (((s as u8) & (#[trigger] weights[k] as u8)
                == weights[k] as u8) <==> (k < n && b & bit(k) == bit(k))) by {
                lemma_dot_added(r as u8, weights[m], weights[k]);
            }
            lemma_dot_added(r as u8, weights[m], weights[m]);
        }
    }
}

/// In every order of the eight dots, what is written for a byte is a cell of
/// the Braille block in which dot `weights[k]` is raised exactly if bit `k` of
/// the byte is set.
pub proof fn lemma_dot_raised(b: u8, weights: Seq<u32>)
    requires
        is_dot_order(weights),
    ensures
        0 <= dot_sum(b, encode_table(weights)) <= 255,
        is_cell(dot_char(b, weights)),
        dots_in(dot_char(b, weights)) == dot_sum(b, encode_table(weights)),
        forall|k: int|
            0 <= k < 8 ==> ((dots_in(dot_char(b, weights)) & (#[trigger] weights[k] as u8)
                == weights[k] as u8) <==> b & bit(k) == bit(k)),
{
    let table = encode_table(weights);
    assert(table.take(8) =~= table);
    lemma_dot_sum_raises(b, weights, 8);
    assert(dot_char(b, weights) as u32 == BLANK + dot_sum(b, table));
}

/// Every order of the eight dots is a style: reading the cell that it writes
/// for a byte gives the byte back.
pub proof fn lemma_dot_round_trip(b: u8, weights: Seq<u32>)
    requires
        is_dot_order(weights),
    ensures
        dot_byte(dot_char(b, weights), weights) == b,
{
    let w = weights;
    let d = dots_in(dot_char(b, w));
    lemma_dot_raised(b, w);
    lemma_bit_union_eight(d, w);
    lemma_bits();
    assert(unpick(d, w[0] as u8, 1) == unpick(b, 1, 1));
    assert(unpick(d, w[1] as u8, 2) == unpick(b, 2, 2));
    assert(unpick(d, w[2] as u8, 4) == unpick(b, 4, 4));
    assert(unpick(d, w[3] as u8, 8) == unpick(b, 8, 8));
    assert(unpick(d, w[4] as u8, 16) == unpick(b, 16, 16));
    assert(unpick(d, w[5] as u8, 32) == unpick(b, 32, 32));
    assert(unpick(d, w[6] as u8, 64) == unpick(b, 64, 64));
    assert(unpick(d, w[7] as u8, 128) == unpick(b, 128, 128));
    lemma_byte_of_bits(b);
}

/// In every order of the eight dots, two different bytes are written as two
/// different cells.
pub proof fn lemma_dot_chars_distinct(a: u8, b: u8, weights: Seq<u32>)
    requires
        is_dot_order(weights),
        a != b,
    ensures
        dot_char(a, weights) != dot_char(b, weights),
{
    lemma_dot_round_trip(a, weights);
    lemma_dot_round_trip(b, weights);
}

/// The weight lists of the four named styles, and the standard numbering, are
/// orders of the eight dots.
pub proof fn lemma_named_orders()
    ensures
        is_dot_order(NLBB@),
        is_dot_order(NLBT@),
        is_dot_order(NRBB@),
        is_dot_order(NRBT@),
        is_dot_order(DIRECT@),
{
}

/// In the standard numbering the dots of a cell are the byte itself.
pub proof fn lemma_direct_order(b: u8, c: char)
    ensures
        dot_char(b, DIRECT@) == cell_of(b as int),
        dot_byte(c, DIRECT@) == dots_in(c),
{
    let d = dots_in(c);
    lemma_dot_sum_eight(b, DIRECT@);
    lemma_bit_union_eight(d, DIRECT@);
    assert(pick(b, 1, 1) + pick(b, 2, 2) + pick(b, 4, 4) + pick(b, 8, 8) + pick(b, 16, 16) + pick(
        b,
        32,
        32,
    ) + pick(b, 64, 64) + pick(b, 128, 128) == b) by (bit_vector);
    assert(unpick(d, 1, 1) | unpick(d, 2, 2) | unpick(d, 4, 4) | unpick(d, 8, 8) | unpick(d, 16, 16)
        | unpick(d, 32, 32) | unpick(d, 64, 64) | unpick(d, 128, 128) == d) by (bit_vector);
}

/// Core of the encoders of the bit-mapped styles: the cell whose dots are the
/// weights of those entries of `values` whose mask is set in `b`.
pub fn encode_nb(b: u8, values: &[(u8, u32)]) -> (c: char)
    requires
        is_scalar(BLANK + dot_sum(b, values@)),
    ensures
        c == cell_of(dot_sum(b, values@)),
{
    let mut acc: u32 = BLANK;
    let mut i: usize = 0;
    while i < values.len()
        invariant
            i <= values.len(),
            acc == BLANK + dot_sum(b, values@.take(i as int)),
            is_scalar(BLANK + dot_sum(b, values@)),
        decreases values.len() - i,
    {
        let (mask, weight) = values[i];
        proof {
            lemma_dot_sum_step(b, values@, i + 1);
            lemma_dot_sum_prefix(b, values@, i + 1);
        }
        if b & mask == mask {
            acc = acc + weight;
        }
        i += 1;
    }
    proof {
        assert(values@.take(values.len() as int) =~= values@);
        lemma_dot_sum_nonnegative(b, values@);
    }
    to_cell(acc - BLANK)
}

/// Core of the decoders of the bit-mapped styles: the byte whose bits are the
/// masks of those entries of `values` whose dot is raised in `c`.
pub fn decode_nb(c: char, values: &[(u8, u8)]) -> (b: u8)
    ensures
        b == bit_union(dots_in(c), values@),
{
    let d: u8 = to_dots(c);
    let mut acc: u8 = 0;
    let mut i: usize = 0;
    while i < values.len()
        invariant
            i <= values.len(),
            acc == bit_union(d, values@.take(i as int)),
        decreases values.len() - i,
    {
        let (dot, mask) = values[i];
        proof {
            lemma_bit_union_step(d, values@, i + 1);
            assert(acc | 0u8 == acc) by (bit_vector);
        }
        if d & dot == dot {
            acc = acc | mask;
        }
        i += 1;
    }
    assert(values@.take(values.len() as int) =~= values@);
    acc
}

/// Translates a byte to its cell in the `direct` style: bit `i` of the byte
/// is dot `1 << i`, so that the byte is the cell's distance from the blank
/// pattern.
pub fn encode_direct(b: u8) -> (c: char)
    ensures
        c == cell_of(b as int),
        is_cell(c),
{
    to_cell(b as u32)
}

/// Translates a cell to its byte in the `direct` style.
pub fn decode_direct(c: char) -> (b: u8)
    ensures
        b == dots_in(c),
{
    to_dots(c)
}

/// Translates a byte to its cell in the `nlbb` style: most significant nibble
/// in the left column, most significant bit in the bottom row.
pub fn encode_nlbb(b: u8) -> (c: char)
    ensures
        c == dot_char(b, NLBB@),
        is_cell(c),
{
    proof {
        lemma_named_tables();
        lemma_named_orders();
        lemma_dot_raised(b, NLBB@);
    }
    encode_nb(b, ENCODE_NLBB.as_slice())
}

/// Translates a cell to its byte in the `nlbb` style.
pub fn decode_nlbb(c: char) -> (b: u8)
    ensures
        b == dot_byte(c, NLBB@),
{
    proof {
        lemma_named_tables();
    }
    decode_nb(c, DECODE_NLBB.as_slice())
}

/// Translates a byte to its cell in the `nlbt` style: most significant nibble
/// in the left column, most significant bit in the top row.
pub fn encode_nlbt(b: u8) -> (c: char)
    ensures
        c == dot_char(b, NLBT@),
        is_cell(c),
{
    proof {
        lemma_named_tables();
        lemma_named_orders();
        lemma_dot_raised(b, NLBT@);
    }
    encode_nb(b, ENCODE_NLBT.as_slice())
}

/// Translates a cell to its byte in the `nlbt` style.
pub fn decode_nlbt(c: char) -> (b: u8)
    ensures
        b == dot_byte(c, NLBT@),
{
    proof {
        lemma_named_tables();
    }
    decode_nb(c, DECODE_NLBT.as_slice())
}

/// Translates a byte to its cell in the `nrbb` style: most significant nibble
/// in the right column, most significant bit in the bottom row.
pub fn encode_nrbb(b: u8) -> (c: char)
    ensures
        c == dot_char(b, NRBB@),
        is_cell(c),
{
    proof {
        lemma_named_tables();
        lemma_named_orders();
        lemma_dot_raised(b, NRBB@);
    }
    encode_nb(b, ENCODE_NRBB.as_slice())
}

/// Translates a cell to its byte in the `nrbb` style.
pub fn decode_nrbb(c: char) -> (b: u8)
    ensures
        b == dot_byte(c, NRBB@),
{
    proof {
        lemma_named_tables();
    }
    decode_nb(c, DECODE_NRBB.as_slice())
}

/// Translates a byte to its cell in the `nrbt` style: most significant nibble
/// in the right column, most significant bit in the top row.
pub fn encode_nrbt(b: u8) -> (c: char)
    ensures
        c == dot_char(b, NRBT@),
        is_cell(c),
{
    proof {
        lemma_named_tables();
        lemma_named_orders();
        lemma_dot_raised(b, NRBT@);
    }
    encode_nb(b, ENCODE_NRBT.as_slice())
}

/// Translates a cell to its byte in the `nrbt` style.
pub fn decode_nrbt(c: char) -> (b: u8)
    ensures
        b == dot_byte(c, NRBT@),
{
    proof {
        lemma_named_tables();
    }
    decode_nb(c, DECODE_NRBT.as_slice())
}

} // verus!
