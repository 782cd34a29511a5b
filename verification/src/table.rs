//! Style tables: a bit-mapped style is an order of the eight dot weights, read
//! from the least significant bit of the byte to the most significant one.

use vstd::prelude::*;

verus! {

/// Most significant nibble in the left column, most significant bit of each
/// nibble in the bottom row.
pub const NLBB: [u32; 8] = [8, 16, 32, 128, 1, 2, 4, 64];

/// Most significant nibble in the left column, most significant bit of each
/// nibble in the top row.
pub const NLBT: [u32; 8] = [128, 32, 16, 8, 64, 4, 2, 1];

/// Most significant nibble in the right column, most significant bit of each
/// nibble in the bottom row.
pub const NRBB: [u32; 8] = [1, 2, 4, 64, 8, 16, 32, 128];

/// Most significant nibble in the right column, most significant bit of each
/// nibble in the top row.
pub const NRBT: [u32; 8] = [64, 4, 2, 1, 128, 32, 16, 8];

/// The standard numbering of the dots: bit `i` of the byte is dot `1 << i`.
pub const DIRECT: [u32; 8] = [1, 2, 4, 8, 16, 32, 64, 128];

/// The encode table of `nlbb`.
pub const ENCODE_NLBB: [(u8, u32); 8] = [
    (1, 8), (2, 16), (4, 32), (8, 128),
    (16, 1), (32, 2), (64, 4), (128, 64),
];

/// The decode table of `nlbb`.
pub const DECODE_NLBB: [(u8, u8); 8] = [
    (8, 1), (16, 2), (32, 4), (128, 8),
    (1, 16), (2, 32), (4, 64), (64, 128),
];

/// The encode table of `nlbt`.
pub const ENCODE_NLBT: [(u8, u32); 8] = [
    (1, 128), (2, 32), (4, 16), (8, 8),
    (16, 64), (32, 4), (64, 2), (128, 1),
];

/// The decode table of `nlbt`.
pub const DECODE_NLBT: [(u8, u8); 8] = [
    (128, 1), (32, 2), (16, 4), (8, 8),
    (64, 16), (4, 32), (2, 64), (1, 128),
];

/// The encode table of `nrbb`.
pub const ENCODE_NRBB: [(u8, u32); 8] = [
    (1, 1), (2, 2), (4, 4), (8, 64),
    (16, 8), (32, 16), (64, 32), (128, 128),
];

/// The decode table of `nrbb`.
pub const DECODE_NRBB: [(u8, u8); 8] = [
    (1, 1), (2, 2), (4, 4), (64, 8),
    (8, 16), (16, 32), (32, 64), (128, 128),
];

/// The encode table of `nrbt`.
pub const ENCODE_NRBT: [(u8, u32); 8] = [
    (1, 64), (2, 4), (4, 2), (8, 1),
    (16, 128), (32, 32), (64, 16), (128, 8),
];

/// The decode table of `nrbt`.
pub const DECODE_NRBT: [(u8, u8); 8] = [
    (64, 1), (4, 2), (2, 4), (1, 8),
    (128, 16), (32, 32), (16, 64), (8, 128),
];

/// The mask of bit `i` of a byte.
pub open spec fn bit(i: int) -> u8 {
    1u8 << (i as u8)
}

/// Whether `w` is the weight of one dot of the cell.
pub open spec fn is_dot(w: u32) -> bool {
    w == 1 || w == 2 || w == 4 || w == 8 || w == 16 || w == 32 || w == 64 || w == 128
}

/// Whether `weights` is an order of the eight dots: eight dot weights, no two
/// of them the same.
pub open spec fn is_dot_order(weights: Seq<u32>) -> bool {
    &&& weights.len() == 8
    &&& forall|i: int| 0 <= i < 8 ==> is_dot(#[trigger] weights[i])
    &&& forall|i: int, j: int| 0 <= i < j < 8 ==> #[trigger] weights[i] != #[trigger] weights[j]
}

/// The encode table of a weight list: entry `i` pairs the mask of bit `i` with
/// the weight of the dot that the bit raises.
pub open spec fn encode_table(weights: Seq<u32>) -> Seq<(u8, u32)> {
    Seq::new(weights.len(), |i: int| (bit(i), weights[i]))
}

/// The decode table of a weight list: entry `i` pairs the dot, as a byte, with
/// the mask of the bit that it stands for.
pub open spec fn decode_table(weights: Seq<u32>) -> Seq<(u8, u8)> {
    Seq::new(weights.len(), |i: int| (weights[i] as u8, bit(i)))
}

/// The masks of the eight bits of a byte.
pub proof fn lemma_bits()
    ensures
        bit(0) == 1,
        bit(1) == 2,
        bit(2) == 4,
        bit(3) == 8,
        bit(4) == 16,
        bit(5) == 32,
        bit(6) == 64,
        bit(7) == 128,
{
    assert(1u8 << 0u8 == 1 && 1u8 << 1u8 == 2 && 1u8 << 2u8 == 4 && 1u8 << 3u8 == 8 && 1u8 << 4u8
        == 16 && 1u8 << 5u8 == 32 && 1u8 << 6u8 == 64 && 1u8 << 7u8 == 128) by (bit_vector);
}

/// The constant tables of the four named styles are the tables of their
/// weight lists: what `style_encode` and `style_decode` build from them.
pub proof fn lemma_named_tables()
    ensures
        ENCODE_NLBB@ == encode_table(NLBB@),
        DECODE_NLBB@ == decode_table(NLBB@),
        ENCODE_NLBT@ == encode_table(NLBT@),
        DECODE_NLBT@ == decode_table(NLBT@),
        ENCODE_NRBB@ == encode_table(NRBB@),
        DECODE_NRBB@ == decode_table(NRBB@),
        ENCODE_NRBT@ == encode_table(NRBT@),
        DECODE_NRBT@ == decode_table(NRBT@),
{
    lemma_bits();
}

/// Builds the encode table of a style from its weight list.
pub fn style_encode(values: [u32; 8]) -> (table: Vec<(u8, u32)>)
    ensures
        table@ == encode_table(values@),
{
    let mut table: Vec<(u8, u32)> = Vec::with_capacity(8);
    let mut i: usize = 0;
    while i < 8
        invariant
            i <= 8,
            table@ == encode_table(values@.take(i as int)),
        decreases 8 - i,
    {
        let mask: u8 = 1u8 << (i as u8);
        table.push((mask, values[i]));
        i += 1;
    }
    assert(values@.take(8) =~= values@);
    table
}

/// Builds the decode table of a style from its weight list.
pub fn style_decode(values: [u32; 8]) -> (table: Vec<(u8, u8)>)
    ensures
        table@ == decode_table(values@),
{
    let mut table: Vec<(u8, u8)> = Vec::with_capacity(8);
    let mut i: usize = 0;
    while i < 8
        invariant
            i <= 8,
            table@ == decode_table(values@.take(i as int)),
        decreases 8 - i,
    {
        let mask: u8 = 1u8 << (i as u8);
        table.push((values[i] as u8, mask));
        i += 1;
    }
    assert(values@.take(8) =~= values@);
    table
}

} // verus!
