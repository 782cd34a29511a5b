//! The six styles as one type: which bytes a style accepts, what it writes
//! and reads, that the two undo each other, and whole buffers through one
//! chosen style.

use vstd::prelude::*;
use vstd::string::StrSliceExecFns;
use crate::bcd::{
    bcd_byte, bcd_char, decode_bcd, encode_bcd, lemma_bcd_chars_distinct, lemma_bcd_round_trip,
};
use crate::bitmap::{
    decode_direct, decode_nlbb, decode_nlbt, decode_nrbb, decode_nrbt, dot_byte, dot_char,
    encode_direct, encode_nlbb, encode_nlbt, encode_nrbb, encode_nrbt, lemma_direct_order,
    lemma_dot_chars_distinct, lemma_dot_raised, lemma_dot_round_trip, lemma_named_orders,
};
use crate::cell::{cell_of, dots_in, is_cell};
use crate::stream::{
    decode, encode, is_marker, lemma_strip_wrap, lemma_wrap_concat, lemma_wrap_no_columns, strip,
    wrap, written_by,
};
use crate::table::{DIRECT, NLBB, NLBT, NRBB, NRBT};

verus! {

/// A style: one of the six fixed ways to lay the bits of a byte out on the
/// dots of a cell.
#[derive(Clone, Copy, Debug, PartialEq, Eq, Structural)]
pub enum Style {
    /// Binary coded decimal, for the bytes 0 to 99 only.
    Bcd,
    /// The standard numbering of the dots.
    Direct,
    /// Most significant nibble left, most significant bit at the bottom.
    Nlbb,
    /// Most significant nibble left, most significant bit at the top.
    Nlbt,
    /// Most significant nibble right, most significant bit at the bottom.
    Nrbb,
    /// Most significant nibble right, most significant bit at the top.
    Nrbt,
}

impl Style {
    /// The name of the style.
    pub open spec fn name(self) -> Seq<char> {
        match self {
            Style::Bcd => seq!['b', 'c', 'd'],
            Style::Direct => seq!['d', 'i', 'r', 'e', 'c', 't'],
            Style::Nlbb => seq!['n', 'l', 'b', 'b'],
            Style::Nlbt => seq!['n', 'l', 'b', 't'],
            Style::Nrbb => seq!['n', 'r', 'b', 'b'],
            Style::Nrbt => seq!['n', 'r', 'b', 't'],
        }
    }

    /// The style called `name`, if there is one.
    pub open spec fn named(name: Seq<char>) -> Option<Style> {
        if name == Style::Bcd.name() {
            Some(Style::Bcd)
        } else if name == Style::Direct.name() {
            Some(Style::Direct)
        } else if name == Style::Nlbb.name() {
            Some(Style::Nlbb)
        } else if name == Style::Nlbt.name() {
            Some(Style::Nlbt)
        } else if name == Style::Nrbb.name() {
            Some(Style::Nrbb)
        } else if name == Style::Nrbt.name() {
            Some(Style::Nrbt)
        } else {
            None
        }
    }

    /// Whether the style can write `b`: `bcd` takes the bytes 0 to 99, every
    /// other style takes every byte.
    pub open spec fn accepts(self, b: u8) -> bool {
        self is Bcd ==> b <= 99
    }

    /// Whether the style can write every byte of `bytes`.
    pub open spec fn accepts_all(self, bytes: Seq<u8>) -> bool {
        forall|i: int| 0 <= i < bytes.len() ==> self.accepts(#[trigger] bytes[i])
    }

    /// The cell that the style writes for `b`.
    pub open spec fn char_of(self, b: u8) -> char {
        match self {
            Style::Bcd => bcd_char(b),
            Style::Direct => cell_of(b as int),
            Style::Nlbb => dot_char(b, NLBB@),
            Style::Nlbt => dot_char(b, NLBT@),
            Style::Nrbb => dot_char(b, NRBB@),
            Style::Nrbt => dot_char(b, NRBT@),
        }
    }

    /// The byte that the style reads from `c`.
    pub open spec fn byte_of(self, c: char) -> u8 {
        match self {
            Style::Bcd => bcd_byte(c),
            Style::Direct => dots_in(c),
            Style::Nlbb => dot_byte(c, NLBB@),
            Style::Nlbt => dot_byte(c, NLBT@),
            Style::Nrbb => dot_byte(c, NRBB@),
            Style::Nrbt => dot_byte(c, NRBT@),
        }
    }

    /// The cells that the style writes for `bytes`.
    pub open spec fn chars_of(self, bytes: Seq<u8>) -> Seq<char> {
        bytes.map_values(|b: u8| self.char_of(b))
    }

    /// The text of a segment of the stream in this style: the cells of
    /// `bytes`, wrapped to `columns` with the first cell at position `start`.
    pub open spec fn text_of(self, bytes: Seq<u8>, columns: nat, start: nat) -> Seq<char> {
        wrap(self.chars_of(bytes), columns, start)
    }

    /// The bytes that the style reads from `text`, wrap markers passed over.
    pub open spec fn bytes_of(self, text: Seq<char>) -> Seq<u8> {
        strip(text).map_values(|c: char| self.byte_of(c))
    }

    /// What a style writes for a byte that it accepts is a cell of the
    /// Braille block, and what it reads from that cell is the byte.
    pub proof fn lemma_byte_round_trip(self, b: u8)
        requires
            self.accepts(b),
        ensures
            is_cell(self.char_of(b)),
            self.byte_of(self.char_of(b)) == b,
    {
        lemma_named_orders();
        match self {
            Style::Bcd => lemma_bcd_round_trip(b),
            Style::Direct => {
                lemma_direct_order(b, cell_of(b as int));
                lemma_dot_raised(b, DIRECT@);
                lemma_dot_round_trip(b, DIRECT@);
            },
            Style::Nlbb => {
                lemma_dot_raised(b, NLBB@);
                lemma_dot_round_trip(b, NLBB@);
            },
            Style::Nlbt => {
                lemma_dot_raised(b, NLBT@);
                lemma_dot_round_trip(b, NLBT@);
            },
            Style::Nrbb => {
                lemma_dot_raised(b, NRBB@);
                lemma_dot_round_trip(b, NRBB@);
            },
            Style::Nrbt => {
                lemma_dot_raised(b, NRBT@);
                lemma_dot_round_trip(b, NRBT@);
            },
        }
    }

    /// A style writes two different bytes that it accepts as two different
    /// cells.
    pub proof fn lemma_chars_distinct(self, a: u8, b: u8)
        requires
            self.accepts(a),
            self.accepts(b),
            a != b,
        ensures
            self.char_of(a) != self.char_of(b),
    {
        lemma_named_orders();
        match self {
            Style::Bcd => lemma_bcd_chars_distinct(a, b),
            Style::Direct => {
                lemma_direct_order(a, cell_of(a as int));
                lemma_direct_order(b, cell_of(b as int));
                lemma_dot_chars_distinct(a, b, DIRECT@);
            },
            Style::Nlbb => lemma_dot_chars_distinct(a, b, NLBB@),
            Style::Nlbt => lemma_dot_chars_distinct(a, b, NLBT@),
            Style::Nrbb => lemma_dot_chars_distinct(a, b, NRBB@),
            Style::Nrbt => lemma_dot_chars_distinct(a, b, NRBT@),
        }
    }

    /// None of the cells that a style writes for bytes that it accepts is a
    /// backslash or a newline.
    pub proof fn lemma_chars_are_cells(self, bytes: Seq<u8>)
        requires
            self.accepts_all(bytes),
        ensures
            forall|i: int|
                0 <= i < bytes.len() ==> is_cell(#[trigger] self.chars_of(bytes)[i]) && !is_marker(
                    self.chars_of(bytes)[i],
                ),
    {
        assert forall|i: int| 0 <= i < bytes.len() implies is_cell(
            #[trigger] self.chars_of(bytes)[i],
        ) && !is_marker(self.chars_of(bytes)[i]) by {
            self.lemma_byte_round_trip(bytes[i]);
        }
    }

    /// Decoding undoes encoding: the bytes read from the text of `bytes` are
    /// `bytes`, whatever the number of columns and the start.
    pub proof fn lemma_text_round_trip(self, bytes: Seq<u8>, columns: nat, start: nat)
        requires
            self.accepts_all(bytes),
        ensures
            self.bytes_of(self.text_of(bytes, columns, start)) == bytes,
    {
        let chars = self.chars_of(bytes);
        self.lemma_chars_are_cells(bytes);
        lemma_strip_wrap(chars, columns, start);
        assert forall|i: int| 0 <= i < bytes.len() implies self.byte_of(#[trigger] chars[i])
            == bytes[i] by {
            self.lemma_byte_round_trip(bytes[i]);
        }
        assert(chars.map_values(|c: char| self.byte_of(c)) =~= bytes);
    }

    /// Without wrapping the text is the cells alone: with 0 columns it holds
    /// one cell for each byte and neither a backslash nor a newline, whatever
    /// the start.
    pub proof fn lemma_text_unwrapped(self, bytes: Seq<u8>, start: nat)
        requires
            self.accepts_all(bytes),
        ensures
            self.text_of(bytes, 0, start) == self.chars_of(bytes),
            forall|i: int|
                0 <= i < self.text_of(bytes, 0, start).len() ==> !is_marker(
                    #[trigger] self.text_of(bytes, 0, start)[i],
                ),
    {
        lemma_wrap_no_columns(self.chars_of(bytes), start);
        self.lemma_chars_are_cells(bytes);
    }

    /// A stream may be encoded in segments: the text of `first` followed by
    /// the text of `second`, written with the length of `first` added to the
    /// start, is the text of the two in one. So the wrap markers of the
    /// second call stand where a single call on the whole would put them.
    pub proof fn lemma_text_continues(
        self,
        first: Seq<u8>,
        second: Seq<u8>,
        columns: nat,
        start: nat,
    )
        ensures
            self.text_of(first + second, columns, start) == self.text_of(first, columns, start)
                + self.text_of(second, columns, start + first.len()),
    {
        assert(self.chars_of(first + second) =~= self.chars_of(first) + self.chars_of(second));
        lemma_wrap_concat(self.chars_of(first), self.chars_of(second), columns, start);
    }
}

/// Whether `a` and `b` hold the same characters.
fn same_text(a: &str, b: &str) -> (same: bool)
    ensures
        same == (a@ == b@),
{
    let n: usize = a.unicode_len();
    if n != b.unicode_len() {
        return false;
    }
    let mut i: usize = 0;
    while i < n
        invariant
            i <= n,
            n == a@.len(),
            n == b@.len(),
            forall|j: int| 0 <= j < i ==> a@[j] == b@[j],
        decreases n - i,
    {
        if a.get_char(i) != b.get_char(i) {
            return false;
        }
        i += 1;
    }
    assert(a@ =~= b@);
    true
}

impl Style {
    /// The style called `name`: one of `bcd`, `direct`, `nlbb`, `nlbt`,
    /// `nrbb`, `nrbt`. Any other name has no style.
    pub fn from_name(name: &str) -> (style: Option<Style>)
        ensures
            style == Style::named(name@),
    {
        proof {
            reveal_strlit("bcd");
            reveal_strlit("direct");
            reveal_strlit("nlbb");
            reveal_strlit("nlbt");
            reveal_strlit("nrbb");
            reveal_strlit("nrbt");
            assert("bcd"@ =~= Style::Bcd.name());
            assert("direct"@ =~= Style::Direct.name());
            assert("nlbb"@ =~= Style::Nlbb.name());
            assert("nlbt"@ =~= Style::Nlbt.name());
            assert("nrbb"@ =~= Style::Nrbb.name());
            assert("nrbt"@ =~= Style::Nrbt.name());
        }
        if same_text(name, "bcd") {
            Some(Style::Bcd)
        } else if same_text(name, "direct") {
            Some(Style::Direct)
        } else if same_text(name, "nlbb") {
            Some(Style::Nlbb)
        } else if same_text(name, "nlbt") {
            Some(Style::Nlbt)
        } else if same_text(name, "nrbb") {
            Some(Style::Nrbb)
        } else if same_text(name, "nrbt") {
            Some(Style::Nrbt)
        } else {
            None
        }
    }

    /// Whether the style can write `b`.
    pub fn accepts_byte(self, b: u8) -> (ok: bool)
        ensures
            ok == self.accepts(b),
    {
        match self {
            Style::Bcd => b <= 99,
            _ => true,
        }
    }

    /// Translates a byte to its cell in this style.
    pub fn encode_byte(self, b: u8) -> (c: char)
        requires
            self.accepts(b),
        ensures
            c == self.char_of(b),
            is_cell(c),
    {
        match self {
            Style::Bcd => encode_bcd(b),
            Style::Direct => encode_direct(b),
            Style::Nlbb => encode_nlbb(b),
            Style::Nlbt => encode_nlbt(b),
            Style::Nrbb => encode_nrbb(b),
            Style::Nrbt => encode_nrbt(b),
        }
    }

    /// Translates a cell to its byte in this style.
    pub fn decode_char(self, c: char) -> (b: u8)
        ensures
            b == self.byte_of(c),
    {
        match self {
            Style::Bcd => decode_bcd(c),
            Style::Direct => decode_direct(c),
            Style::Nlbb => decode_nlbb(c),
            Style::Nlbt => decode_nlbt(c),
            Style::Nrbb => decode_nrbb(c),
            Style::Nrbt => decode_nrbt(c),
        }
    }

    /// Encodes `content` in this style, wrapped to `columns` as a segment of
    /// a stream of which `prev_content_length` characters were written
    /// before. Where the style does not accept every byte, nothing is
    /// encoded and the first byte that it refuses is returned.
    pub fn encode_bytes(self, content: &[u8], columns: usize, prev_content_length: usize) -> (r:
        Result<String, u8>)
        ensures
            match r {
                Ok(text) => self.accepts_all(content@) && text@ == self.text_of(
                    content@,
                    columns as nat,
                    prev_content_length as nat,
                ),
                Err(b) => exists|i: int|
                    0 <= i < content@.len() && #[trigger] content@[i] == b && !self.accepts(b)
                        && self.accepts_all(content@.take(i)),
            },
    {
        let mut i: usize = 0;
        while i < content.len()
            invariant
                i <= content.len(),
                self.accepts_all(content@.take(i as int)),
            decreases content.len() - i,
        {
            if !self.accepts_byte(content[i]) {
                return Err(content[i]);
            }
            assert forall|j: int| 0 <= j < i + 1 implies self.accepts(
                #[trigger] content@.take(i + 1)[j],
            ) by {
                if j < i {
                    assert(content@.take(i as int)[j] == content@[j]);
                }
            }
            i += 1;
        }
        assert(content@.take(content.len() as int) =~= content@);
        let write = |b: u8| -> (c: char)
            requires
                self.accepts(b),
            ensures
                c == self.char_of(b),
            { self.encode_byte(b) };
        let text = encode(content, write, columns, prev_content_length);
        proof {
            let chars = choose|chars: Seq<char>| #[trigger]
                written_by(write, content@, chars) && text@ == wrap(
                    chars,
                    columns as nat,
                    prev_content_length as nat,
                );
            assert(chars =~= self.chars_of(content@));
        }
        Ok(text)
    }

    /// Decodes `content` in this style, passing over every backslash and
    /// newline.
    pub fn decode_text(self, content: &str) -> (bytes: Vec<u8>)
        ensures
            bytes@ == self.bytes_of(content@),
    {
        let read = |c: char| -> (b: u8)
            ensures
                b == self.byte_of(c),
            { self.decode_char(c) };
        let bytes = decode(content, read);
        assert(bytes@ =~= self.bytes_of(content@));
        bytes
    }
}

} // verus!
