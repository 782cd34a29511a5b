use bbd_lib::bcd::{ONES, TENS};
use bbd_lib::cell::{to_cell, to_dots, BLANK};
use bbd_lib::table::{
    DECODE_NLBB, DECODE_NLBT, DECODE_NRBB, DECODE_NRBT, DIRECT, ENCODE_NLBB, ENCODE_NLBT,
    ENCODE_NRBB, ENCODE_NRBT, NLBB, NLBT, NRBB, NRBT,
};
use bbd_lib::{
    decode_bcd, decode_direct, decode_nb, decode_nlbb, decode_nlbt, decode_nrbb, decode_nrbt,
    encode_bcd, encode_direct, encode_nb, encode_nlbb, encode_nlbt, encode_nrbb, encode_nrbt,
    style_decode, style_encode, Style,
};

const STYLES: [Style; 6] =
    [Style::Bcd, Style::Direct, Style::Nlbb, Style::Nlbt, Style::Nrbb, Style::Nrbt];

#[test]
fn direct_writes_the_first_and_the_last_cell_of_the_block() {
    assert_eq!(encode_direct(0), '\u{2800}');
    assert_eq!(encode_direct(255), '\u{28FF}');
}

#[test]
fn direct_adds_the_byte_to_the_blank_pattern() {
    assert_eq!(encode_direct(1), '\u{2801}');
    assert_eq!(encode_direct(0x5A), '\u{285A}');
    assert_eq!(decode_direct('\u{285A}'), 0x5A);
}

#[test]
fn bcd_writes_99_as_both_nines() {
    let nines = char::from_u32(0x2800 + u32::from(ONES[9] | TENS[9])).unwrap();
    assert_eq!(encode_bcd(99), nines);
    assert_eq!(encode_bcd(99), '\u{28C9}');
    assert_eq!(decode_bcd(nines), 99);
}

#[test]
fn bcd_adds_the_pattern_of_each_digit() {
    assert_eq!(encode_bcd(0), '\u{2800}');
    assert_eq!(encode_bcd(7), '\u{28B0}');
    assert_eq!(encode_bcd(40), '\u{2802}');
    assert_eq!(encode_bcd(47), '\u{28B2}');
    for decimal in 0..=99u8 {
        let tens = u32::from(TENS[usize::from(decimal / 10)]);
        let ones = u32::from(ONES[usize::from(decimal % 10)]);
        assert_eq!(u32::from(encode_bcd(decimal)), 0x2800 + tens + ones);
    }
}

#[test]
fn bcd_reads_the_highest_digit_that_shows() {
    // Every dot raised: both nines show, and they come first in the scan.
    assert_eq!(decode_bcd('\u{28FF}'), 99);
    // 0x46 shows the tens digits 1 to 7, and no ones digit above 0.
    assert_eq!(decode_bcd('\u{2846}'), 70);
    // With the 8's dot as well, 0x47 shows the 9.
    assert_eq!(decode_bcd('\u{2847}'), 90);
    // 0x03 shows the tens digits 8 (0x01) and 4 (0x02): the 8 wins.
    assert_eq!(decode_bcd('\u{2803}'), 80);
    // 0x18 shows the ones digits 8 (0x08) and 4 (0x10): the 8 wins.
    assert_eq!(decode_bcd('\u{2818}'), 8);
}

#[test]
fn bcd_reads_at_most_99_from_any_cell() {
    for dots in 0..=255u32 {
        let cell = char::from_u32(0x2800 + dots).unwrap();
        assert!(decode_bcd(cell) <= 99);
    }
}

#[test]
fn nlbb_maps_bit_0_to_dot_8() {
    assert_eq!(encode_nlbb(1), '\u{2808}');
    assert_eq!(encode_nlbb(8), '\u{2880}');
    assert_eq!(decode_nlbb('\u{2880}'), 8);
    assert_eq!(decode_nlbb('\u{2800}'), 0);
}

#[test]
fn each_named_style_raises_the_dot_of_its_weight_list() {
    for i in 0..8 {
        let b = 1u8 << i;
        assert_eq!(u32::from(encode_nlbb(b)), 0x2800 + NLBB[i]);
        assert_eq!(u32::from(encode_nlbt(b)), 0x2800 + NLBT[i]);
        assert_eq!(u32::from(encode_nrbb(b)), 0x2800 + NRBB[i]);
        assert_eq!(u32::from(encode_nrbt(b)), 0x2800 + NRBT[i]);
        assert_eq!(u32::from(encode_direct(b)), 0x2800 + DIRECT[i]);
    }
}

#[test]
fn style_encode_pairs_each_bit_with_its_weight() {
    assert_eq!(
        style_encode(NLBB),
        vec![(1, 8), (2, 16), (4, 32), (8, 128), (16, 1), (32, 2), (64, 4), (128, 64)]
    );
    assert_eq!(
        style_encode(NRBT),
        vec![(1, 64), (2, 4), (4, 2), (8, 1), (16, 128), (32, 32), (64, 16), (128, 8)]
    );
}

#[test]
fn style_decode_pairs_each_dot_with_its_bit() {
    assert_eq!(
        style_decode(NLBB),
        vec![(8, 1), (16, 2), (32, 4), (128, 8), (1, 16), (2, 32), (4, 64), (64, 128)]
    );
    assert_eq!(
        style_decode(NLBT),
        vec![(128, 1), (32, 2), (16, 4), (8, 8), (64, 16), (4, 32), (2, 64), (1, 128)]
    );
}

#[test]
fn style_decode_keeps_the_low_byte_of_a_weight() {
    let table = style_decode([0x101, 0x1FF, 0, 256, 255, 1, 2, 3]);
    assert_eq!(
        table,
        vec![(1, 1), (255, 2), (0, 4), (0, 8), (255, 16), (1, 32), (2, 64), (3, 128)]
    );
}

#[test]
fn encode_nb_adds_the_weights_of_the_set_masks() {
    let table: [(u8, u32); 3] = [(1, 0x10), (2, 0x01), (0x0C, 0x100)];
    assert_eq!(encode_nb(0, &table), '\u{2800}');
    assert_eq!(encode_nb(1, &table), '\u{2810}');
    assert_eq!(encode_nb(3, &table), '\u{2811}');
    // A mask of two bits counts only where both are set.
    assert_eq!(encode_nb(0x04, &table), '\u{2800}');
    assert_eq!(encode_nb(0x0F, &table), '\u{2911}');
    assert_eq!(encode_nb(0xFF, &[]), '\u{2800}');
}

#[test]
fn decode_nb_joins_the_masks_of_the_raised_dots() {
    let table: [(u8, u8); 3] = [(0x10, 1), (0x01, 2), (0x11, 2)];
    assert_eq!(decode_nb('\u{2800}', &table), 0);
    assert_eq!(decode_nb('\u{2810}', &table), 1);
    // Two entries with the same mask join to that mask once.
    assert_eq!(decode_nb('\u{2811}', &table), 3);
    assert_eq!(decode_nb('\u{28FF}', &[]), 0);
}

#[test]
fn decoding_undoes_encoding_for_every_byte() {
    for b in 0..=255u8 {
        assert_eq!(decode_direct(encode_direct(b)), b);
        assert_eq!(decode_nlbb(encode_nlbb(b)), b);
        assert_eq!(decode_nlbt(encode_nlbt(b)), b);
        assert_eq!(decode_nrbb(encode_nrbb(b)), b);
        assert_eq!(decode_nrbt(encode_nrbt(b)), b);
    }
}

#[test]
fn bcd_decoding_undoes_encoding_up_to_99() {
    for b in 0..=99u8 {
        assert_eq!(decode_bcd(encode_bcd(b)), b);
    }
}

#[test]
fn every_style_writes_distinct_cells_of_the_block() {
    for style in STYLES {
        let mut seen = [false; 256];
        for b in 0..=255u8 {
            if !style.accepts_byte(b) {
                continue;
            }
            let code = u32::from(style.encode_byte(b));
            assert!((0x2800..=0x28FF).contains(&code));
            let dots = (code - 0x2800) as usize;
            assert!(!seen[dots]);
            seen[dots] = true;
        }
    }
}

#[test]
fn every_style_but_bcd_fills_the_block() {
    for style in STYLES {
        let written = (0..=255u8).filter(|b| style.accepts_byte(*b)).count();
        assert_eq!(written, if style == Style::Bcd { 100 } else { 256 });
    }
}

#[test]
fn a_style_agrees_with_its_pair_of_functions() {
    for b in 0..=255u8 {
        assert_eq!(Style::Direct.encode_byte(b), encode_direct(b));
        assert_eq!(Style::Nlbb.encode_byte(b), encode_nlbb(b));
        assert_eq!(Style::Nlbt.encode_byte(b), encode_nlbt(b));
        assert_eq!(Style::Nrbb.encode_byte(b), encode_nrbb(b));
        assert_eq!(Style::Nrbt.encode_byte(b), encode_nrbt(b));
        if b <= 99 {
            assert_eq!(Style::Bcd.encode_byte(b), encode_bcd(b));
        }
        let cell = encode_direct(b);
        assert_eq!(Style::Bcd.decode_char(cell), decode_bcd(cell));
        assert_eq!(Style::Direct.decode_char(cell), decode_direct(cell));
        assert_eq!(Style::Nlbb.decode_char(cell), decode_nlbb(cell));
        assert_eq!(Style::Nlbt.decode_char(cell), decode_nlbt(cell));
        assert_eq!(Style::Nrbb.decode_char(cell), decode_nrbb(cell));
        assert_eq!(Style::Nrbt.decode_char(cell), decode_nrbt(cell));
    }
}

#[test]
fn a_character_outside_the_block_is_read_by_its_low_byte() {
    // U+0061 is 0x2800 short of the block; the wrapped distance ends in 0x61.
    assert_eq!(decode_direct('a'), 0x61);
    assert_eq!(decode_direct('\u{2900}'), 0);
    assert_eq!(decode_direct('\u{1F600}'), 0);
    assert_eq!(decode_direct('\u{10FFFF}'), 0xFF);
    assert_eq!(decode_nlbb('a'), decode_nlbb('\u{2861}'));
    assert_eq!(decode_bcd('a'), decode_bcd('\u{2861}'));
}

#[test]
fn bcd_accepts_the_bytes_up_to_99_alone() {
    for b in 0..=255u8 {
        assert_eq!(Style::Bcd.accepts_byte(b), b <= 99);
        assert!(Style::Direct.accepts_byte(b));
        assert!(Style::Nlbb.accepts_byte(b));
        assert!(Style::Nlbt.accepts_byte(b));
        assert!(Style::Nrbb.accepts_byte(b));
        assert!(Style::Nrbt.accepts_byte(b));
    }
}

#[test]
fn the_constant_tables_are_what_the_weight_lists_build() {
    assert_eq!(style_encode(NLBB), ENCODE_NLBB);
    assert_eq!(style_encode(NLBT), ENCODE_NLBT);
    assert_eq!(style_encode(NRBB), ENCODE_NRBB);
    assert_eq!(style_encode(NRBT), ENCODE_NRBT);
    assert_eq!(style_decode(NLBB), DECODE_NLBB);
    assert_eq!(style_decode(NLBT), DECODE_NLBT);
    assert_eq!(style_decode(NRBB), DECODE_NRBB);
    assert_eq!(style_decode(NRBT), DECODE_NRBT);
}

#[test]
fn a_table_built_from_the_standard_numbering_encodes_as_direct_does() {
    let write = style_encode(DIRECT);
    let read = style_decode(DIRECT);
    for b in 0..=255u8 {
        assert_eq!(encode_nb(b, &write), encode_direct(b));
        assert_eq!(decode_nb(encode_direct(b), &read), b);
    }
}

#[test]
fn a_cell_is_the_blank_pattern_plus_its_dots() {
    assert_eq!(BLANK, 0x2800);
    assert_eq!(to_cell(0), '\u{2800}');
    assert_eq!(to_cell(0xC9), '\u{28C9}');
    assert_eq!(to_cell(0x100), '\u{2900}');
    assert_eq!(to_dots('\u{2800}'), 0);
    assert_eq!(to_dots('\u{28C9}'), 0xC9);
    assert_eq!(to_dots('\u{27FF}'), 0xFF);
    assert_eq!(to_dots('\0'), 0);
}
