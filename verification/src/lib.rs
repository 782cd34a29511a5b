//! Binary data as Braille text: every byte becomes one character of the
//! Braille Patterns block (U+2800 to U+28FF), its eight dots standing for the
//! byte's eight bits in the order that a style fixes, and the text becomes
//! the bytes again.
//!
//! [`encode`] and [`decode`] translate whole buffers through a function for
//! one byte or one character; there is one such pair of functions for each
//! of the six styles, and [`Style`] holds the six as one type.

pub mod bcd;
pub mod bitmap;
pub mod cell;
pub mod stream;
pub mod style;
pub mod table;

pub use bcd::{decode_bcd, encode_bcd};
pub use bitmap::{
    decode_direct, decode_nb, decode_nlbb, decode_nlbt, decode_nrbb, decode_nrbt, encode_direct,
    encode_nb, encode_nlbb, encode_nlbt, encode_nrbb, encode_nrbt,
};
pub use stream::{decode, encode, DecodeFn, EncodeFn};
pub use style::Style;
pub use table::{style_decode, style_encode};
