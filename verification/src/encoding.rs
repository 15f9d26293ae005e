//! How the UTF-8 bytes of a text relate to its characters.
//!
//! The executable code scans the bytes of a `str`; the contracts speak of characters.
//! The lemmas here carry facts from one side to the other. They rest on one trait of
//! UTF-8: a byte below `0x80` is always the whole encoding of an ASCII character.

use vstd::prelude::*;
use vstd::utf8::*;

verus! {

/// True when `c` is an ASCII character, which UTF-8 writes as the single byte `c as u8`.
pub open spec fn is_ascii_char(c: char) -> bool {
    c as u32 <= 0x7f
}

/// Two ASCII characters with the same byte are the same character.
pub proof fn lemma_ascii_byte(a: char, b: char)
    requires
        is_ascii_char(a),
        is_ascii_char(b),
        a as u8 == b as u8,
    ensures
        a == b,
{
}

/// The encoding of an ASCII character is the one byte of its code. Every byte in the
/// encoding of any other character is `0x80` or above.
pub proof fn lemma_encode_scalar(c: char)
    ensures
        encode_scalar(c as u32).len() >= 1,
        is_ascii_char(c) ==> encode_scalar(c as u32) == seq![c as u8],
        !is_ascii_char(c) ==> forall|i: int|
            0 <= i < encode_scalar(c as u32).len() ==> #[trigger] encode_scalar(c as u32)[i]
                >= 0x80,
{
    let v = c as u32;
    if has_width_1_encoding(v) {
        assert(v as u8 == leading_byte_width_1(v)) by (bit_vector)
            requires
                has_width_1_encoding(v),
        ;
    } else if has_width_2_encoding(v) {
        assert(leading_byte_width_2(v) >= 0x80 && last_continuation_byte(v) >= 0x80)
            by (bit_vector);
    } else if has_width_3_encoding(v) {
        assert(leading_byte_width_3(v) >= 0x80 && second_last_continuation_byte(v) >= 0x80
            && last_continuation_byte(v) >= 0x80) by (bit_vector);
    } else {
        assert(leading_byte_width_4(v) >= 0x80 && third_last_continuation_byte(v) >= 0x80
            && second_last_continuation_byte(v) >= 0x80 && last_continuation_byte(v) >= 0x80)
            by (bit_vector);
    }
}

/// The encoding of a text of one character is the encoding of that character.
pub proof fn lemma_encode_one(c: char)
    ensures
        encode_utf8(seq![c]) == encode_scalar(c as u32),
{
    let one = seq![c];
    assert(encode_utf8(one.drop_first()) =~= Seq::<u8>::empty()) by {
        reveal_with_fuel(encode_utf8, 1);
    }
    assert(encode_utf8(one) =~= encode_scalar(c as u32));
}

/// Encoding goes through concatenation.
pub proof fn lemma_encode_concat(a: Seq<char>, b: Seq<char>)
    ensures
        encode_utf8(a + b) == encode_utf8(a) + encode_utf8(b),
    decreases a.len(),
{
    if a.len() > 0 {
        assert((a + b).drop_first() =~= a.drop_first() + b);
        lemma_encode_concat(a.drop_first(), b);
    }
}

/// Two texts with the same bytes are the same text.
pub proof fn lemma_encode_injective(a: Seq<char>, b: Seq<char>)
    requires
        encode_utf8(a) == encode_utf8(b),
    ensures
        a == b,
{
    encode_utf8_decode_utf8(a);
    encode_utf8_decode_utf8(b);
}

/// The first byte of a text is the byte of the ASCII character `c` exactly when the
/// text starts with `c`.
pub proof fn lemma_first_byte(s: Seq<char>, c: char)
    requires
        s.len() > 0,
        is_ascii_char(c),
    ensures
        encode_utf8(s).len() > 0,
        encode_utf8(s).first() == c as u8 <==> s.first() == c,
{
    lemma_encode_scalar(s[0]);
    if is_ascii_char(s[0]) && s[0] as u8 == c as u8 {
        lemma_ascii_byte(s[0], c);
    }
}

/// The last byte of a text is the byte of the ASCII character `c` exactly when the
/// text ends with `c`.
pub proof fn lemma_last_byte(s: Seq<char>, c: char)
    requires
        s.len() > 0,
        is_ascii_char(c),
    ensures
        encode_utf8(s).len() > 0,
        encode_utf8(s).last() == c as u8 <==> s.last() == c,
{
    let front = s.drop_last();
    assert(front + seq![s.last()] =~= s);
    lemma_encode_concat(front, seq![s.last()]);
    lemma_encode_one(s.last());
    lemma_encode_scalar(s.last());
    if is_ascii_char(s.last()) && s.last() as u8 == c as u8 {
        lemma_ascii_byte(s.last(), c);
    }
}

/// An ASCII character that occurs in a text occurs as a byte in its encoding.
pub proof fn lemma_char_shows_as_byte(s: Seq<char>, c: char)
    requires
        is_ascii_char(c),
        s.contains(c),
    ensures
        encode_utf8(s).contains(c as u8),
{
    let i = choose|i: int| 0 <= i < s.len() && s[i] == c;
    let before = s.take(i);
    let after = s.skip(i + 1);
    assert(before + seq![c] + after =~= s);
    lemma_encode_concat(before + seq![c], after);
    lemma_encode_concat(before, seq![c]);
    lemma_encode_scalar(c);
    assert(encode_utf8(s)[encode_utf8(before).len() as int] == c as u8);
}

} // verus!
