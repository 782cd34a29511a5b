//! The stream transcoder: a buffer of bytes becomes a text of cells, with a
//! wrap marker after every so many of them, and such a text becomes the
//! buffer again.

use vstd::prelude::*;
use vstd::arithmetic::div_mod::{lemma_fundamental_div_mod, lemma_fundamental_div_mod_converse};
use vstd::string::StringExecFns;

verus! {

/// A function that translates one byte to its character.
pub type EncodeFn = fn(u8) -> char;

/// A function that translates one character to its byte.
pub type DecodeFn = fn(char) -> u8;

/// What is taken on trust of `String::push`: it appends the character to the
/// end of the string and changes nothing else.
pub assume_specification[ String::push ](s: &mut String, ch: char)
    ensures
        final(s)@ == old(s)@.push(ch),
;

/// Whether `c` is one of the two characters of a wrap marker, a backslash or
/// a newline.
pub open spec fn is_marker(c: char) -> bool {
    c == '\\' || c == '\n'
}

/// `text` without the characters of wrap markers.
pub open spec fn strip(text: Seq<char>) -> Seq<char> {
    text.filter(|c: char| !is_marker(c))
}

/// What the character at `position` of the stream contributes to the text:
/// itself, followed by a wrap marker where it ends a line of `columns`
/// characters. Positions count from 0 over the whole stream; with 0 columns
/// no line ends.
pub open spec fn piece(c: char, columns: nat, position: nat) -> Seq<char> {
    if columns > 0 && (position + 1) % columns == 0 {
        seq![c, '\\', '\n']
    } else {
        seq![c]
    }
}

/// The text of a segment of the stream: the pieces of its characters, the
/// first of which stands at position `start`.
pub open spec fn wrap(chars: Seq<char>, columns: nat, start: nat) -> Seq<char> {
    Seq::new(chars.len(), |i: int| piece(chars[i], columns, (start + i) as nat)).flatten()
}

/// Whether `chars` holds, byte for byte, a character that `f` may return for
/// the byte.
pub open spec fn written_by<F: Fn(u8) -> char>(f: F, bytes: Seq<u8>, chars: Seq<char>) -> bool {
    &&& chars.len() == bytes.len()
    &&& forall|i: int| 0 <= i < bytes.len() ==> call_ensures(f, (bytes[i],), #[trigger] chars[i])
}

/// Whether `bytes` holds, character for character, a byte that `f` may return
/// for the character.
pub open spec fn read_by<F: Fn(char) -> u8>(f: F, chars: Seq<char>, bytes: Seq<u8>) -> bool {
    &&& bytes.len() == chars.len()
    &&& forall|i: int| 0 <= i < chars.len() ==> call_ensures(f, (chars[i],), #[trigger] bytes[i])
}

/// One more character adds its piece to the text.
pub proof fn lemma_wrap_push(chars: Seq<char>, c: char, columns: nat, start: nat)
    ensures
        wrap(chars.push(c), columns, start) == wrap(chars, columns, start) + piece(
            c,
            columns,
            start + chars.len(),
        ),
{
    let longer = chars.push(c);
    let pieces = Seq::new(chars.len(), |i: int| piece(chars[i], columns, (start + i) as nat));
    let more = Seq::new(longer.len(), |i: int| piece(longer[i], columns, (start + i) as nat));
    assert(more =~= pieces.push(piece(c, columns, start + chars.len())));
    pieces.lemma_flatten_push(piece(c, columns, start + chars.len()));
}

/// The text of no characters is empty.
pub proof fn lemma_wrap_empty(columns: nat, start: nat)
    ensures
        wrap(Seq::<char>::empty(), columns, start) == Seq::<char>::empty(),
{
}

/// A stream may be written in segments: the text of two segments in a row is
/// the text of the first, followed by the text of the second written with the
/// length of the first added to the start. So the wrap markers stand where
/// one call on the whole would put them.
pub proof fn lemma_wrap_concat(a: Seq<char>, b: Seq<char>, columns: nat, start: nat)
    ensures
        wrap(a + b, columns, start) == wrap(a, columns, start) + wrap(
            b,
            columns,
            start + a.len(),
        ),
    decreases b.len(),
{
    if b.len() == 0 {
        assert(a + b =~= a);
        lemma_wrap_empty(columns, start + a.len());
    } else {
        let front = b.drop_last();
        let c = b.last();
        assert(b =~= front.push(c));
        assert(a + b =~= (a + front).push(c));
        lemma_wrap_concat(a, front, columns, start);
        lemma_wrap_push(a + front, c, columns, start);
        lemma_wrap_push(front, c, columns, start + a.len());
    }
}

/// Stripping the piece of a character that is no marker leaves the character.
pub proof fn lemma_strip_piece(c: char, columns: nat, position: nat)
    requires
        !is_marker(c),
    ensures
        strip(piece(c, columns, position)) == seq![c],
{
    let keep = |c: char| !is_marker(c);
    let none = Seq::<char>::empty();
    assert(none.filter(keep) =~= none) by {
        none.lemma_filter_len(keep);
    }
    none.lemma_filter_push(c, keep);
    none.push(c).lemma_filter_push('\\', keep);
    none.push(c).push('\\').lemma_filter_push('\n', keep);
    assert(seq![c] =~= none.push(c));
    assert(seq![c, '\\', '\n'] =~= none.push(c).push('\\').push('\n'));
}

/// Wrapping is undone by stripping: the text of characters of which none is a
/// marker, stripped of its markers, is those characters, whatever the number
/// of columns and the start.
pub proof fn lemma_strip_wrap(chars: Seq<char>, columns: nat, start: nat)
    requires
        forall|i: int| 0 <= i < chars.len() ==> !is_marker(#[trigger] chars[i]),
    ensures
        strip(wrap(chars, columns, start)) == chars,
    decreases chars.len(),
{
    let keep = |c: char| !is_marker(c);
    if chars.len() == 0 {
        lemma_wrap_empty(columns, start);
        Seq::<char>::empty().lemma_filter_len(keep);
        assert(strip(Seq::<char>::empty()) =~= chars);
    } else {
        let front = chars.drop_last();
        let c = chars.last();
        assert(chars =~= front.push(c));
        lemma_strip_wrap(front, columns, start);
        lemma_wrap_push(front, c, columns, start);
        lemma_strip_piece(c, columns, start + front.len());
        Seq::filter_distributes_over_add(
            wrap(front, columns, start),
            piece(c, columns, start + front.len()),
            keep,
        );
        assert(front + seq![c] =~= chars);
    }
}

/// With 0 columns nothing is inserted: the text is the characters themselves.
pub proof fn lemma_wrap_no_columns(chars: Seq<char>, start: nat)
    ensures
        wrap(chars, 0, start) == chars,
    decreases chars.len(),
{
    if chars.len() == 0 {
        lemma_wrap_empty(0, start);
        assert(chars =~= Seq::<char>::empty());
    } else {
        let front = chars.drop_last();
        let c = chars.last();
        assert(chars =~= front.push(c));
        lemma_wrap_no_columns(front, start);
        lemma_wrap_push(front, c, 0, start);
        assert(front + seq![c] =~= chars);
    }
}

/// Whether `read` undoes `write` on `b`: whatever `write` may return for `b`
/// is no marker, and from it `read` can only return `b`.
pub open spec fn undoes<F: Fn(u8) -> char, G: Fn(char) -> u8>(read: G, write: F, b: u8) -> bool {
    &&& forall|c: char| #[trigger] call_ensures(write, (b,), c) ==> !is_marker(c)
    &&& forall|c: char, r: u8|
        #![trigger call_ensures(write, (b,), c), call_ensures(read, (c,), r)]
        call_ensures(write, (b,), c) && call_ensures(read, (c,), r) ==> r == b
}

/// Two segments written one after the other are written as one.
pub proof fn lemma_written_by_concat<F: Fn(u8) -> char>(
    f: F,
    first: Seq<u8>,
    first_chars: Seq<char>,
    second: Seq<u8>,
    second_chars: Seq<char>,
)
    requires
        written_by(f, first, first_chars),
        written_by(f, second, second_chars),
    ensures
        written_by(f, first + second, first_chars + second_chars),
{
    let bytes = first + second;
    let chars = first_chars + second_chars;
    assert forall|i: int| 0 <= i < bytes.len() implies call_ensures(
        f,
        (bytes[i],),
        #[trigger] chars[i],
    ) by {
        if i < first.len() {
            assert(chars[i] == first_chars[i]);
        } else {
            assert(chars[i] == second_chars[i - first.len()]);
        }
    }
}

/// Decoding undoes encoding: where `read` undoes `write` on every byte of
/// `bytes`, the bytes read from a text written for `bytes` are `bytes`,
/// whatever the number of columns and the start.
pub proof fn lemma_decode_undoes_encode<F: Fn(u8) -> char, G: Fn(char) -> u8>(
    write: F,
    read: G,
    bytes: Seq<u8>,
    chars: Seq<char>,
    columns: nat,
    start: nat,
    decoded: Seq<u8>,
)
    requires
        forall|i: int| 0 <= i < bytes.len() ==> undoes(read, write, #[trigger] bytes[i]),
        written_by(write, bytes, chars),
        read_by(read, strip(wrap(chars, columns, start)), decoded),
    ensures
        decoded == bytes,
{
    assert forall|i: int| 0 <= i < chars.len() implies !is_marker(#[trigger] chars[i]) by {
        assert(undoes(read, write, bytes[i]));
    }
    lemma_strip_wrap(chars, columns, start);
    assert forall|i: int| 0 <= i < bytes.len() implies decoded[i] == bytes[i] by {
        assert(undoes(read, write, bytes[i]));
        assert(call_ensures(write, (bytes[i],), chars[i]));
        assert(call_ensures(read, (chars[i],), decoded[i]));
    }
    assert(decoded =~= bytes);
}

/// Encodes `content`, character by character through `convert_byte`, and with
/// `columns > 0` ends a line with a wrap marker after every `columns`
/// characters of the stream, of which `prev_content_length` were written
/// before this segment. With 0 columns the text is the characters alone and
/// `prev_content_length` plays no part.
pub fn encode<F: Fn(u8) -> char>(
    content: &[u8],
    convert_byte: F,
    columns: usize,
    prev_content_length: usize,
) -> (text: String)
    requires
        forall|i: int|
            0 <= i < content@.len() ==> call_requires(convert_byte, (#[trigger] content@[i],)),
    ensures
        exists|chars: Seq<char>| #[trigger]
            written_by(convert_byte, content@, chars) && text@ == wrap(
                chars,
                columns as nat,
                prev_content_length as nat,
            ),
        columns == 0 ==> written_by(convert_byte, content@, text@),
{
    let wrapping: bool = columns > 0;
    let mut column: usize = if wrapping {
        prev_content_length % columns
    } else {
        0
    };
    let ghost mut lines: int = if wrapping {
        prev_content_length as int / columns as int
    } else {
        0
    };
    proof {
        if wrapping {
            lemma_fundamental_div_mod(prev_content_length as int, columns as int);
        }
    }
    let mut text = String::new();
    let ghost mut chars: Seq<char> = Seq::empty();
    let mut i: usize = 0;
    while i < content.len()
        invariant
            i <= content.len(),
            wrapping == (columns > 0),
            wrapping ==> column < columns && prev_content_length + i == columns * lines + column,
            written_by(convert_byte, content@.take(i as int), chars),
            text@ == wrap(chars, columns as nat, prev_content_length as nat),
            forall|i: int|
                0 <= i < content@.len() ==> call_requires(convert_byte, (#[trigger] content@[i],)),
        decreases content.len() - i,
    {
        let c: char = convert_byte(content[i]);
        text.push(c);
        proof {
            lemma_wrap_push(chars, c, columns as nat, prev_content_length as nat);
            chars = chars.push(c);
        }
        if wrapping {
            column += 1;
            if column >= columns {
                text.append("\\\n");
                column = 0;
                proof {
                    reveal_strlit("\\\n");
                    assert("\\\n"@ =~= seq!['\\', '\n']);
                    assert(columns * (lines + 1) == columns * lines + columns) by (nonlinear_arith);
                    lines = lines + 1;
                }
            }
            proof {
                lemma_fundamental_div_mod_converse(
                    prev_content_length + i + 1,
                    columns as int,
                    lines,
                    column as int,
                );
            }
        }
        i += 1;
    }
    proof {
        assert(content@.take(content.len() as int) =~= content@);
        lemma_wrap_no_columns(chars, prev_content_length as nat);
    }
    text
}

/// Decodes `content`, character by character through `convert_char`, passing
/// over every backslash and newline wherever it stands.
pub fn decode<F: Fn(char) -> u8>(content: &str, convert_char: F) -> (bytes: Vec<u8>)
    requires
        forall|i: int|
            0 <= i < content@.len() && !is_marker(content@[i]) ==> call_requires(
                convert_char,
                (#[trigger] content@[i],),
            ),
    ensures
        read_by(convert_char, strip(content@), bytes@),
{
    let mut bytes: Vec<u8> = Vec::with_capacity(content.len() / 4);
    for c in it: content.chars()
        invariant
            it.seq() == content@,
            read_by(convert_char, strip(content@.take(it.index())), bytes@),
            forall|i: int|
                0 <= i < content@.len() && !is_marker(content@[i]) ==> call_requires(
                    convert_char,
                    (#[trigger] content@[i],),
                ),
    {
        proof {
            let seen = content@.take(it.index());
            assert(content@.take(it.index() + 1) =~= seen.push(c));
            seen.lemma_filter_push(c, |c: char| !is_marker(c));
        }
        if c != '\\' && c != '\n' {
            let b: u8 = convert_char(c);
            bytes.push(b);
        }
    }
    assert(content@.take(content@.len() as int) =~= content@);
    bytes
}

} // verus!
