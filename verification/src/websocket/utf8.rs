//! UTF-8 text whose scalars may be split across the boundaries of frames.

use vstd::prelude::*;
use vstd::utf8::*;

use crate::boundary;

verus! {

/// Why no partial code point was split off.
#[derive(Debug, Clone, Copy, PartialEq, Eq, Structural)]
pub enum SplitOffPartialError {
    /// The last code point is complete, or there is none.
    NoPartialCodePoint,
    /// The last bytes belong to no code point.
    InvalidUtf8,
}

/// How many continuation bytes stand at the end.
pub open spec fn trailing(bytes: Seq<u8>) -> nat
    decreases bytes.len(),
{
    if bytes.len() == 0 || !is_continuation_byte(bytes.last()) {
        0
    } else {
        1 + trailing(bytes.drop_last())
    }
}

/// The length of the code point that a byte starts. Only code points of more than one byte are
/// told apart from bytes that start nothing.
pub open spec fn started_len(byte: u8) -> nat {
    if is_leading_byte_width_2(byte) {
        2
    } else if is_leading_byte_width_3(byte) {
        3
    } else if is_leading_byte_width_4(byte) {
        4
    } else {
        0
    }
}

/// How many bytes at the end belong to a code point of which more bytes are still to come. Such a
/// code point is a starting byte, and after it fewer continuation bytes than it announces.
pub open spec fn partial_len(bytes: Seq<u8>) -> Result<nat, SplitOffPartialError> {
    let count = trailing(bytes);
    if count == bytes.len() {
        if count <= 1 {
            Err(SplitOffPartialError::NoPartialCodePoint)
        } else {
            Err(SplitOffPartialError::InvalidUtf8)
        }
    } else {
        let width = started_len(bytes[bytes.len() - count - 1]);
        if width == 0 {
            if count == 0 {
                Err(SplitOffPartialError::NoPartialCodePoint)
            } else {
                Err(SplitOffPartialError::InvalidUtf8)
            }
        } else if width < count + 1 {
            Err(SplitOffPartialError::InvalidUtf8)
        } else if width == count + 1 {
            Err(SplitOffPartialError::NoPartialCodePoint)
        } else {
            Ok(count + 1)
        }
    }
}

/// Splits off any partial UTF-8 character from the end of a string buffer.
pub fn split_off_partial_utf8(vec: &mut Vec<u8>) -> (r: Result<Vec<u8>, SplitOffPartialError>)
    ensures
        match partial_len(old(vec)@) {
            Ok(count) => {
                &&& count <= old(vec)@.len()
                &&& r matches Ok(tail) && tail@ == old(vec)@.skip(old(vec)@.len() - count)
                &&& final(vec)@ == old(vec)@.take(old(vec)@.len() - count)
            },
            Err(error) => {
                &&& r == Err::<Vec<u8>, SplitOffPartialError>(error)
                &&& final(vec)@ == old(vec)@
            },
        },
        final(vec)@ == handed_out(old(vec)@),
        r matches Ok(tail) ==> tail@ == held_back(old(vec)@) && final(vec)@ + tail@ == old(vec)@,
{
    let len: usize = vec.len();
    let mut count: usize = 0;
    proof {
        assert(vec@.take(len as int) =~= vec@);
        lemma_trailing_bound(vec@);
    }
    while count < len && is_continuation(vec[len - count - 1])
        invariant
            len == vec@.len(),
            vec@ == old(vec)@,
            count <= len,
            trailing(vec@) == count + trailing(vec@.take(len - count)),
        decreases len - count,
    {
        let ghost shorter = vec@.take(len - count);
        assert(shorter.drop_last() =~= vec@.take(len - count - 1));
        count = count + 1;
    }
    proof {
        if count < len {
            assert(vec@.take(len - count).last() == vec@[len - count - 1]);
        }
    }
    if count == len {
        return if count <= 1 {
            Err(SplitOffPartialError::NoPartialCodePoint)
        } else {
            Err(SplitOffPartialError::InvalidUtf8)
        };
    }
    let width: usize = code_point_len(vec[len - count - 1]);
    if width == 0 {
        if count == 0 {
            Err(SplitOffPartialError::NoPartialCodePoint)
        } else {
            Err(SplitOffPartialError::InvalidUtf8)
        }
    } else if width < count + 1 {
        Err(SplitOffPartialError::InvalidUtf8)
    } else if width == count + 1 {
        Err(SplitOffPartialError::NoPartialCodePoint)
    } else {
        let tail: Vec<u8> = vec.split_off(len - (count + 1));
        assert(tail@ =~= old(vec)@.skip(len - (count + 1)));
        assert(vec@ =~= old(vec)@.take(len - (count + 1)));
        Ok(tail)
    }
}

/// Whether a byte continues a code point.
fn is_continuation(byte: u8) -> (r: bool)
    ensures
        r == is_continuation_byte(byte),
{
    proof {
        utf8_byte_ranges_bitwise(byte);
    }
    byte & 0b11000000 == 0b10000000
}

/// The length of the code point that a byte starts, or zero if it starts none of two bytes or more.
fn code_point_len(byte: u8) -> (r: usize)
    ensures
        r == started_len(byte),
{
    proof {
        utf8_byte_ranges_bitwise(byte);
    }
    if byte & 0b11111000 == 0b11110000 {
        4
    } else if byte & 0b11110000 == 0b11100000 {
        3
    } else if byte & 0b11100000 == 0b11000000 {
        2
    } else {
        0
    }
}

/// The bytes that are held back for the next frame, given all bytes at hand.
pub open spec fn held_back(bytes: Seq<u8>) -> Seq<u8> {
    match partial_len(bytes) {
        Ok(count) => bytes.skip(bytes.len() - count),
        Err(_) => Seq::empty(),
    }
}

/// The bytes that are handed out as text, given all bytes at hand.
pub open spec fn handed_out(bytes: Seq<u8>) -> Seq<u8> {
    match partial_len(bytes) {
        Ok(count) => bytes.take(bytes.len() - count),
        Err(_) => bytes,
    }
}

/// Whether the bytes at hand end in what belongs to no code point.
pub open spec fn ends_badly(bytes: Seq<u8>) -> bool {
    partial_len(bytes) == Err::<nat, SplitOffPartialError>(SplitOffPartialError::InvalidUtf8)
}

/// The outcome of reading bytes as text of which more is to come.
#[derive(Debug)]
pub enum StaggeredText {
    /// The bytes end in what belongs to no code point.
    BadEnd,
    /// The text, unless the bytes before the part held back are not UTF-8; and that part.
    Read { text: Option<String>, held_back: Option<Vec<u8>> },
}

/// The bytes of an optional buffer; none where there is no buffer.
pub open spec fn bytes_or_empty(bytes: Option<Vec<u8>>) -> Seq<u8> {
    match bytes {
        Some(bytes) => bytes@,
        None => Seq::empty(),
    }
}

/// Reads bytes as text, holding back a partial code point at their end.
pub fn stagger(bytes: Vec<u8>) -> (r: StaggeredText)
    ensures
        r is BadEnd <==> ends_badly(bytes@),
        r matches StaggeredText::Read { text, held_back: kept } ==> {
            &&& bytes_or_empty(kept) == held_back(bytes@)
            &&& kept is Some <==> partial_len(bytes@) is Ok
            &&& text is Some <==> valid_utf8(handed_out(bytes@))
            &&& text matches Some(s) ==> s@ == decode_utf8(handed_out(bytes@))
            &&& kept matches Some(tail) ==> tail@ == held_back(bytes@)
        },
{
    let mut bytes: Vec<u8> = bytes;
    match split_off_partial_utf8(&mut bytes) {
        Ok(tail) => StaggeredText::Read {
            text: boundary::string_from_utf8(bytes),
            held_back: Some(tail),
        },
        Err(SplitOffPartialError::NoPartialCodePoint) => StaggeredText::Read {
            text: boundary::string_from_utf8(bytes),
            held_back: None,
        },
        Err(SplitOffPartialError::InvalidUtf8) => StaggeredText::BadEnd,
    }
}

proof fn lemma_trailing_bound(bytes: Seq<u8>)
    ensures
        trailing(bytes) <= bytes.len(),
    decreases bytes.len(),
{
    if bytes.len() > 0 {
        lemma_trailing_bound(bytes.drop_last());
    }
}

/// All of the last bytes continue a code point, and the byte before them does not.
proof fn lemma_trailing_is(bytes: Seq<u8>, count: nat)
    requires
        count < bytes.len(),
        forall|i: int| bytes.len() - count <= i < bytes.len() ==> is_continuation_byte(bytes[i]),
        !is_continuation_byte(bytes[bytes.len() - count - 1]),
    ensures
        trailing(bytes) == count,
    decreases count,
{
    if count > 0 {
        let shorter = bytes.drop_last();
        assert(shorter[shorter.len() - (count - 1) - 1] == bytes[bytes.len() - count - 1]);
        assert(is_continuation_byte(bytes.last()));
        lemma_trailing_is(shorter, (count - 1) as nat);
    }
}

/// The last continuation bytes are continuation bytes, and the byte before them is none.
proof fn lemma_trailing_bytes(bytes: Seq<u8>)
    ensures
        trailing(bytes) <= bytes.len(),
        forall|i: int|
            bytes.len() - trailing(bytes) <= i < bytes.len() ==> is_continuation_byte(bytes[i]),
        trailing(bytes) < bytes.len() ==> !is_continuation_byte(
            bytes[bytes.len() - trailing(bytes) - 1],
        ),
    decreases bytes.len(),
{
    if bytes.len() > 0 && is_continuation_byte(bytes.last()) {
        let shorter = bytes.drop_last();
        lemma_trailing_bytes(shorter);
        assert forall|i: int| bytes.len() - trailing(bytes) <= i < bytes.len() implies
            is_continuation_byte(bytes[i]) by {
            if i < shorter.len() {
                assert(bytes[i] == shorter[i]);
            }
        }
        if trailing(bytes) < bytes.len() {
            assert(shorter[shorter.len() - trailing(shorter) - 1] == bytes[bytes.len() - trailing(
                bytes,
            ) - 1]);
        }
    }
}

/// What stands in front of a code point's start does not matter to how the bytes end.
proof fn lemma_partial_len_ignores_head(head: Seq<u8>, rest: Seq<u8>)
    requires
        rest.len() > 0,
        !is_continuation_byte(rest[0]),
    ensures
        partial_len(head + rest) == partial_len(rest),
        trailing(rest) < rest.len(),
{
    lemma_trailing_bytes(rest);
    let all = head + rest;
    let count = trailing(rest);
    if count == rest.len() {
        assert(is_continuation_byte(rest[0]));
    }
    assert(all[all.len() - count - 1] == rest[rest.len() - count - 1]);
    assert forall|i: int| all.len() - count <= i < all.len() implies is_continuation_byte(
        all[i],
    ) by {
        assert(all[i] == rest[i - head.len()]);
    }
    lemma_trailing_is(all, count);
}

/// Well-formed text starts with a whole code point, and what follows it is well-formed.
proof fn lemma_first_scalar(text: Seq<u8>)
    requires
        valid_utf8(text),
        text.len() > 0,
    ensures
        1 <= length_of_first_scalar(text) <= 4,
        length_of_first_scalar(text) <= text.len(),
        take_first_scalar(text) + pop_first_scalar(text) == text,
        valid_utf8(take_first_scalar(text)),
        valid_utf8(pop_first_scalar(text)),
        !is_continuation_byte(text[0]),
        forall|i: int| 1 <= i < length_of_first_scalar(text) ==> is_continuation_byte(text[i]),
        started_len(text[0]) == if length_of_first_scalar(text) == 1 {
            0
        } else {
            length_of_first_scalar(text)
        },
{
    let first = take_first_scalar(text);
    reveal_with_fuel(valid_utf8, 2);
    assert(pop_first_scalar(first) =~= Seq::empty());
    assert(first + pop_first_scalar(text) =~= text);
}

/// A code point that is cut off is recognised as partial, as a whole.
proof fn lemma_cut_code_point(bytes: Seq<u8>)
    requires
        0 < bytes.len() < started_len(bytes[0]),
        forall|i: int| 1 <= i < bytes.len() ==> is_continuation_byte(bytes[i]),
    ensures
        partial_len(bytes) == Ok::<nat, SplitOffPartialError>(bytes.len()),
        handed_out(bytes).len() == 0,
        held_back(bytes) == bytes,
{
    lemma_trailing_is(bytes, (bytes.len() - 1) as nat);
    assert(bytes.skip(0) =~= bytes);
}

/// What holds of how bytes end holds of them with text in front, too.
proof fn lemma_text_in_front(first: Seq<u8>, rest: Seq<u8>)
    requires
        valid_utf8(first),
        rest.len() > 0,
        !is_continuation_byte(rest[0]),
        valid_utf8(handed_out(rest)),
        handed_out(rest) + held_back(rest) == rest,
    ensures
        partial_len(first + rest) == partial_len(rest),
        valid_utf8(handed_out(first + rest)),
        handed_out(first + rest) + held_back(first + rest) == first + rest,
        held_back(first + rest) == held_back(rest),
{
    lemma_partial_len_ignores_head(first, rest);
    let all = first + rest;
    assert(handed_out(all) =~= first + handed_out(rest));
    assert(held_back(all) =~= held_back(rest));
    valid_utf8_concat(first, handed_out(rest));
    assert(handed_out(all) + held_back(all) =~= first + (handed_out(rest) + held_back(rest)));
}

/// However well-formed text is cut off, what remains ends in a complete code point or in one that
/// is recognised as partial; and without the partial one it is well-formed.
pub proof fn law_prefix_of_text(text: Seq<u8>, cut: int)
    requires
        valid_utf8(text),
        0 <= cut <= text.len(),
    ensures
        !ends_badly(text.take(cut)),
        valid_utf8(handed_out(text.take(cut))),
        handed_out(text.take(cut)) + held_back(text.take(cut)) == text.take(cut),
        held_back(text.take(cut)).len() < 4,
    decreases text.len(),
{
    let cut_text = text.take(cut);
    if cut == 0 {
        assert(cut_text =~= Seq::empty());
        assert(handed_out(cut_text) + held_back(cut_text) =~= cut_text);
    } else {
        lemma_first_scalar(text);
        let width = length_of_first_scalar(text);
        let first = take_first_scalar(text);
        let tail = pop_first_scalar(text);
        if cut < width {
            lemma_cut_code_point(cut_text);
            assert(handed_out(cut_text) =~= Seq::empty());
            assert(handed_out(cut_text) + held_back(cut_text) =~= cut_text);
        } else {
            let rest = tail.take(cut - width);
            law_prefix_of_text(tail, cut - width);
            assert(cut_text =~= first + rest);
            if rest.len() == 0 {
                assert(cut_text =~= first);
                law_whole_text_is_handed_out(first);
                assert(handed_out(first) + held_back(first) =~= first);
            } else {
                lemma_first_scalar(tail);
                lemma_text_in_front(first, rest);
            }
        }
    }
}

/// Well-formed text ends in no partial code point: all of it is handed out.
pub proof fn law_whole_text_is_handed_out(text: Seq<u8>)
    requires
        valid_utf8(text),
    ensures
        partial_len(text) == Err::<nat, SplitOffPartialError>(
            SplitOffPartialError::NoPartialCodePoint,
        ),
        handed_out(text) == text,
        held_back(text).len() == 0,
    decreases text.len(),
{
    if text.len() > 0 {
        lemma_first_scalar(text);
        let width = length_of_first_scalar(text);
        let first = take_first_scalar(text);
        let tail = pop_first_scalar(text);
        law_whole_text_is_handed_out(tail);
        if tail.len() == 0 {
            lemma_trailing_is(text, (width - 1) as nat);
        } else {
            lemma_first_scalar(tail);
            lemma_partial_len_ignores_head(first, tail);
        }
    }
}

/// Text followed by a code point that is cut off is handed out without it, and is not well-formed.
pub proof fn lemma_cut_code_point_after_text(text: Seq<u8>, cut: Seq<u8>)
    requires
        valid_utf8(text),
        0 < cut.len() < started_len(cut[0]),
        forall|i: int| 1 <= i < cut.len() ==> is_continuation_byte(cut[i]),
    ensures
        !ends_badly(text + cut),
        handed_out(text + cut) == text,
        held_back(text + cut) == cut,
        !valid_utf8(text + cut),
{
    lemma_cut_code_point(cut);
    lemma_partial_len_ignores_head(text, cut);
    let all = text + cut;
    assert(handed_out(all) =~= text);
    assert(held_back(all) =~= cut);
    if valid_utf8(all) {
        law_whole_text_is_handed_out(all);
    }
}

/// The text of two well-formed runs of bytes, one after the other, is the text of the first
/// followed by that of the second.
pub proof fn lemma_decode_concat(a: Seq<u8>, b: Seq<u8>)
    requires
        valid_utf8(a),
        valid_utf8(b),
    ensures
        valid_utf8(a + b),
        decode_utf8(a + b) == decode_utf8(a) + decode_utf8(b),
{
    let all = a + b;
    valid_utf8_concat(a, b);
    if b.len() == 0 {
        is_char_boundary_start_end_of_seq(all);
    } else {
        lemma_first_scalar(b);
        is_char_boundary_iff_not_is_continuation_byte(all, a.len() as int);
        assert(all[a.len() as int] == b[0]);
    }
    decode_utf8_split(all, a.len() as int);
    assert(all.subrange(0, a.len() as int) =~= a);
    assert(all.subrange(a.len() as int, all.len() as int) =~= b);
}

/// How bytes end, by the last of them that is no continuation byte, `count` bytes from the end. If it
/// starts a code point of two, three or four bytes the code point is partial, complete or
/// overlong, as there are fewer, as many or more bytes; if it starts none it has to stand alone.
pub proof fn law_last_start_decides(bytes: Seq<u8>, count: nat)
    requires
        0 < count <= bytes.len(),
        !(0x80 <= bytes[bytes.len() - count] <= 0xbf),
        forall|i: int| bytes.len() - count < i < bytes.len() ==> 0x80 <= #[trigger] bytes[i] <= 0xbf,
    ensures
        ({
            let start = bytes[bytes.len() - count];
            let width: nat = if 0xc0 <= start <= 0xdf {
                2
            } else if 0xe0 <= start <= 0xef {
                3
            } else if 0xf0 <= start <= 0xf7 {
                4
            } else {
                1
            };
            &&& count < width ==> partial_len(bytes) == Ok::<nat, SplitOffPartialError>(count)
            &&& count == width ==> partial_len(bytes) == Err::<nat, SplitOffPartialError>(
                SplitOffPartialError::NoPartialCodePoint,
            )
            &&& count > width ==> partial_len(bytes) == Err::<nat, SplitOffPartialError>(
                SplitOffPartialError::InvalidUtf8,
            )
        }),
{
    lemma_trailing_is(bytes, (count - 1) as nat);
}

/// Bytes that are all continuation bytes end in no code point that could be completed: one of them
/// is let pass, and more are invalid.
pub proof fn law_nothing_starts(bytes: Seq<u8>)
    requires
        forall|i: int| 0 <= i < bytes.len() ==> 0x80 <= #[trigger] bytes[i] <= 0xbf,
    ensures
        partial_len(bytes) == Err::<nat, SplitOffPartialError>(
            if bytes.len() <= 1 {
                SplitOffPartialError::NoPartialCodePoint
            } else {
                SplitOffPartialError::InvalidUtf8
            },
        ),
{
    lemma_trailing_bytes(bytes);
    let count = trailing(bytes);
    if count < bytes.len() {
        assert(0x80 <= bytes[bytes.len() - count - 1] <= 0xbf);
    }
}

/// No byte is lost or added where text is held back: what is handed out followed by what is held
/// back is what was there. At most three bytes are held back, and none but a partial code point.
pub proof fn law_held_back_bytes_are_not_lost(bytes: Seq<u8>)
    ensures
        handed_out(bytes) + held_back(bytes) == bytes,
        held_back(bytes).len() <= 3,
        held_back(bytes).len() > 0 <==> partial_len(bytes) is Ok,
        ends_badly(bytes) <==> partial_len(bytes) == Err::<nat, SplitOffPartialError>(
            SplitOffPartialError::InvalidUtf8,
        ),
{
    lemma_trailing_bound(bytes);
    assert(handed_out(bytes) + held_back(bytes) =~= bytes);
}

} // verus!
