//! Bytes that spell text.
use vstd::prelude::*;

verus! {

/// The number of bytes up to the end of the first line, or all of them.
pub open spec fn line_size(bytes: Seq<u8>) -> nat
    decreases bytes.len(),
{
    if bytes.len() == 0 {
        0
    } else if bytes[0] == 10 {
        1
    } else {
        1 + line_size(bytes.skip(1))
    }
}

pub proof fn lemma_line_size(bytes: Seq<u8>, n: int)
    requires
        0 <= n <= bytes.len(),
        forall|j: int| 0 <= j < n ==> bytes[j] != 10,
    ensures
        n < bytes.len() && bytes[n] == 10 ==> line_size(bytes) == n + 1,
        n == bytes.len() ==> line_size(bytes) == n,
    decreases n,
{
    if n > 0 {
        let rest = bytes.skip(1);
        assert forall|j: int| 0 <= j < n - 1 implies rest[j] != 10 by {
            assert(rest[j] == bytes[j + 1]);
        }
        lemma_line_size(rest, n - 1);
    }
}

/// A line is never longer than what it is cut from.
pub proof fn line_size_bounded(bytes: Seq<u8>)
    ensures
        line_size(bytes) <= bytes.len(),
        bytes.len() > 0 ==> line_size(bytes) > 0,
    decreases bytes.len(),
{
    if bytes.len() > 0 {
        line_size_bounded(bytes.skip(1));
    }
}

/// The size of the first line, with the line break that ends it.
pub fn first_line(bytes: &[u8]) -> (size: usize)
    ensures
        size == line_size(bytes@),
        size <= bytes@.len(),
{
    let count: usize = bytes.len();
    let mut end: usize = 0;
    while end < count && bytes[end] != 10
        invariant
            count == bytes@.len(),
            end <= count,
            forall|j: int| 0 <= j < end ==> bytes@[j] != 10,
        decreases count - end,
    {
        end = end + 1;
    }
    proof {
        lemma_line_size(bytes@, end as int);
    }
    if end < count {
        end + 1
    } else {
        count
    }
}

/// The text that bytes spell in UTF-8, by [`std::str::from_utf8`]: it is there if and only if the
/// bytes are valid, and its encoding is the bytes.
#[verifier::external_body]
pub(crate) fn utf8_text(bytes: &[u8]) -> (text: Option<&str>)
    ensures
        match text {
            Some(text) => vstd::utf8::valid_utf8(bytes@) && text@ == vstd::utf8::decode_utf8(bytes@),
            None => !vstd::utf8::valid_utf8(bytes@),
        },
{
    match std::str::from_utf8(bytes) {
        Ok(text) => Some(text),
        Err(_) => None,
    }
}

/// What [`String::from_utf8_lossy`] makes of bytes.
pub uninterp spec fn lossy(bytes: Seq<u8>) -> Seq<char>;

/// The text that bytes spell in UTF-8, with a replacement for what is not valid, by
/// [`String::from_utf8_lossy`]. Of valid bytes it is the text; what the replacements are is left to
/// std.
#[verifier::external_body]
pub(crate) fn lossy_text(bytes: &[u8]) -> (text: String)
    ensures
        text@ == lossy(bytes@),
        vstd::utf8::valid_utf8(bytes@) ==> text@ == vstd::utf8::decode_utf8(bytes@),
{
    String::from_utf8_lossy(bytes).into_owned()
}

/// The bytes that spell a text.
pub open spec fn utf8(text: Seq<char>) -> Seq<u8> {
    vstd::utf8::encode_utf8(text)
}

/// Bytes as text: the text that they spell, or with replacements where they spell none.
pub open spec fn shown(bytes: Seq<u8>) -> Seq<char> {
    if vstd::utf8::valid_utf8(bytes) {
        vstd::utf8::decode_utf8(bytes)
    } else {
        lossy(bytes)
    }
}

/// A text is shown as it is.
pub proof fn text_is_shown(text: Seq<char>)
    ensures
        shown(utf8(text)) == text,
{
    vstd::utf8::encode_utf8_valid_utf8(text);
    vstd::utf8::encode_utf8_decode_utf8(text);
}

/// Different texts are spelled by different bytes.
pub proof fn texts_are_told_apart(left: Seq<char>, right: Seq<char>)
    ensures
        utf8(left) == utf8(right) <==> left == right,
{
    text_is_shown(left);
    text_is_shown(right);
}

proof fn lemma_scalar_keeps_slashes(scalar: u32)
    requires
        scalar != 47,
    ensures
        vstd::utf8::encode_scalar(scalar).len() > 0,
        !vstd::utf8::encode_scalar(scalar).contains(47),
{
    assert(scalar <= 0x7F && scalar != 47 ==> (scalar & 0x7F) as u8 != 47) by (bit_vector);
    assert((0xC0u8 | ((scalar >> 6) & 0x1F) as u8) != 47) by (bit_vector);
    assert((0xE0u8 | ((scalar >> 12) & 0x0F) as u8) != 47) by (bit_vector);
    assert((0xF0u8 | ((scalar >> 18) & 0x7) as u8) != 47) by (bit_vector);
    assert((0x80u8 | (scalar & 0x3F) as u8) != 47) by (bit_vector);
    assert((0x80u8 | ((scalar >> 6) & 0x3F) as u8) != 47) by (bit_vector);
    assert((0x80u8 | ((scalar >> 12) & 0x3F) as u8) != 47) by (bit_vector);
}

/// A text without slashes is spelled without slashes, and by at least as many bytes as it has
/// characters.
pub proof fn utf8_keeps_slashes(text: Seq<char>)
    requires
        !text.contains('/'),
    ensures
        !utf8(text).contains(47),
        utf8(text).len() >= text.len(),
    decreases text.len(),
{
    if text.len() > 0 {
        let rest = text.drop_first();
        assert forall|i: int| 0 <= i < rest.len() implies rest[i] != '/' by {
            assert(text[i + 1] != '/');
        }
        utf8_keeps_slashes(rest);
        assert(text[0] != '/');
        let first = text[0] as u32;
        vstd::utf8::char_is_scalar(text[0]);
        vstd::utf8::char_u32_cast(text[0], first);
        assert(first != 47);
        lemma_scalar_keeps_slashes(first);
        let front = vstd::utf8::encode_scalar(first);
        assert forall|i: int| 0 <= i < utf8(text).len() implies utf8(text)[i] != 47 by {
            if i < front.len() {
                assert(front[i] == utf8(text)[i]);
                assert(front.contains(front[i]));
            } else {
                assert(utf8(rest)[i - front.len()] == utf8(text)[i]);
                assert(utf8(rest).contains(utf8(rest)[i - front.len()]));
            }
        }
    }
}

/// The same bytes again.
pub(crate) fn copy_bytes(bytes: &[u8]) -> (copy: Vec<u8>)
    ensures
        copy@ == bytes@,
{
    vstd::slice::slice_to_vec(bytes)
}

/// Whether bytes are the same.
pub(crate) fn same_bytes(left: &[u8], right: &[u8]) -> (same: bool)
    ensures
        same == (left@ == right@),
{
    if left.len() != right.len() {
        return false;
    }
    for i in 0..left.len()
        invariant
            left@.len() == right@.len(),
            forall|j: int| 0 <= j < i ==> left@[j] == right@[j],
    {
        if left[i] != right[i] {
            return false;
        }
    }
    assert(left@ =~= right@);
    true
}

/// Whether bytes spell a text.
pub(crate) fn spell_text(bytes: &[u8], text: &str) -> (yes: bool)
    ensures
        yes == (bytes@ == utf8(text@)),
{
    same_bytes(bytes, text.as_bytes())
}

/// The pieces between the zero bytes.
pub open spec fn zero_pieces(bytes: Seq<u8>) -> Seq<Seq<u8>>
    decreases bytes.len(),
{
    if bytes.len() == 0 {
        seq![Seq::<u8>::empty()]
    } else {
        let before = zero_pieces(bytes.drop_last());
        if bytes.last() == 0 {
            before.push(Seq::empty())
        } else {
            before.drop_last().push(before.last().push(bytes.last()))
        }
    }
}

/// Splits bytes at the zero bytes.
pub fn split_zero(bytes: &Vec<u8>) -> (pieces: Vec<Vec<u8>>)
    ensures
        pieces.deep_view() == zero_pieces(bytes@),
{
    let mut pieces: Vec<Vec<u8>> = Vec::new();
    let mut piece: Vec<u8> = Vec::new();
    proof {
        assert(bytes@.take(0) =~= Seq::<u8>::empty());
        assert(pieces.deep_view().push(piece@) =~= seq![Seq::<u8>::empty()]);
    }
    for i in 0..bytes.len()
        invariant
            zero_pieces(bytes@.take(i as int)) == pieces.deep_view().push(piece@),
    {
        let byte: u8 = bytes[i];
        let ghost before = pieces.deep_view();
        let ghost done = piece@;
        proof {
            assert(bytes@.take(i + 1).drop_last() =~= bytes@.take(i as int));
            assert(bytes@.take(i + 1).last() == byte);
            assert(before.push(done).drop_last() =~= before);
        }
        if byte == 0 {
            assert(piece.deep_view() =~= done);
            pieces.push(piece);
            piece = Vec::new();
            assert(pieces.deep_view() =~= before.push(done));
            assert(piece@ =~= Seq::<u8>::empty());
        } else {
            piece.push(byte);
        }
    }
    let ghost before = pieces.deep_view();
    let ghost done = piece@;
    assert(piece.deep_view() =~= done);
    pieces.push(piece);
    proof {
        assert(bytes@.take(bytes@.len() as int) =~= bytes@);
        assert(pieces.deep_view() =~= before.push(done));
    }
    pieces
}

/// A zero byte ends a piece and begins the next; bytes without one are a single piece.
pub proof fn zero_bytes_part_pieces(piece: Seq<u8>, rest: Seq<u8>)
    requires
        !piece.contains(0),
    ensures
        zero_pieces(piece) == seq![piece],
        zero_pieces(piece.push(0) + rest) == seq![piece] + zero_pieces(rest),
    decreases piece.len() + rest.len(),
{
    if rest.len() > 0 {
        let shorter = rest.drop_last();
        zero_bytes_part_pieces(piece, shorter);
        let all = piece.push(0) + rest;
        assert(all.drop_last() =~= piece.push(0) + shorter);
        assert(all.last() == rest.last());
        let before = zero_pieces(all.drop_last());
        lemma_some_piece(shorter);
        let tail = zero_pieces(shorter);
        assert(before =~= seq![piece] + tail);
        assert(before.drop_last() =~= seq![piece] + tail.drop_last());
        assert(before.last() == tail.last());
        assert(zero_pieces(all) =~= seq![piece] + zero_pieces(rest));
    } else {
        assert(piece.push(0) + rest =~= piece.push(0));
        assert(piece.push(0).drop_last() =~= piece);
        if piece.len() > 0 {
            let front = piece.drop_last();
            assert(!front.contains(0)) by {
                if front.contains(0) {
                    let i = choose|i: int| 0 <= i < front.len() && front[i] == 0;
                    assert(piece[i] == 0);
                }
            }
            assert(piece.contains(piece.last()));
            zero_bytes_part_pieces(front, rest);
            assert(front.push(piece.last()) =~= piece);
            assert(zero_pieces(piece) =~= seq![piece]);
        } else {
            assert(piece =~= Seq::<u8>::empty());
            assert(zero_pieces(piece) =~= seq![piece]);
        }
        assert(zero_pieces(rest) =~= seq![Seq::<u8>::empty()]);
        assert(zero_pieces(piece.push(0)) =~= seq![piece] + zero_pieces(rest));
    }
}

proof fn lemma_some_piece(bytes: Seq<u8>)
    ensures
        zero_pieces(bytes).len() > 0,
    decreases bytes.len(),
{
    if bytes.len() > 0 {
        lemma_some_piece(bytes.drop_last());
    }
}

/// The first line ends with the first line break; without one it is all there is.
pub proof fn lines_end_at_breaks(line: Seq<u8>, rest: Seq<u8>)
    requires
        !line.contains(10),
    ensures
        line_size(line.push(10) + rest) == line.len() + 1,
        line_size(line) == line.len(),
{
    let all = line.push(10) + rest;
    assert forall|j: int| 0 <= j < line.len() implies all[j] != 10 && line[j] != 10 by {
        assert(line.contains(line[j]));
    }
    assert(all[line.len() as int] == 10);
    lemma_line_size(all, line.len() as int);
    lemma_line_size(line, line.len() as int);
}

} // verus!
