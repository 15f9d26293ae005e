//! Splitting on a separator: the mathematical function, the facts that pin it down,
//! and the executable step that cuts the first segment off a text.

use crate::encoding::lemma_char_shows_as_byte;
use crate::encoding::lemma_encode_concat;
use crate::encoding::lemma_encode_injective;
use crate::encoding::lemma_encode_one;
use crate::encoding::lemma_encode_scalar;
use vstd::prelude::*;
use vstd::seq_lib::to_multiset_build;
use vstd::string::StringSliceAdditionalSpecFns;
use vstd::utf8::encode_utf8;
use vstd::utf8::is_char_boundary;
use vstd::utf8::encode_utf8_valid_utf8;
use vstd::utf8::is_char_boundary_iff_not_is_continuation_byte;

verus! {

/// The character that separates the segments of a template or of a candidate.
pub const SEPARATOR: char = '/';

/// The byte that UTF-8 writes for `SEPARATOR`.
const SEPARATOR_BYTE: u8 = 0x2f;

/// The segments of `s`: the runs of elements that lie between occurrences of `sep`.
///
/// Reading `s` from left to right, a separator closes the current segment and opens a
/// new, empty one; any other element extends the current segment. There is always at
/// least one segment, and empty segments are kept, so `n` separators give `n + 1`
/// segments.
pub open spec fn split<T>(s: Seq<T>, sep: T) -> Seq<Seq<T>>
    decreases s.len(),
{
    if s.len() == 0 {
        seq![Seq::empty()]
    } else if s.last() == sep {
        split(s.drop_last(), sep).push(Seq::empty())
    } else {
        let before = split(s.drop_last(), sep);
        before.drop_last().push(before.last().push(s.last()))
    }
}

/// The segments written one after the other, with one `sep` between neighbours.
pub open spec fn join<T>(segments: Seq<Seq<T>>, sep: T) -> Seq<T>
    decreases segments.len(),
{
    if segments.len() == 0 {
        Seq::empty()
    } else if segments.len() == 1 {
        segments[0]
    } else {
        join(segments.drop_last(), sep).push(sep) + segments.last()
    }
}

/// True when no segment holds the separator.
pub open spec fn separator_free<T>(segments: Seq<Seq<T>>, sep: T) -> bool {
    forall|i: int| 0 <= i < segments.len() ==> !(#[trigger] segments[i]).contains(sep)
}

/// Splitting always yields at least one segment, and no segment holds the separator.
pub proof fn lemma_split_segments<T>(s: Seq<T>, sep: T)
    ensures
        split(s, sep).len() >= 1,
        separator_free(split(s, sep), sep),
    decreases s.len(),
{
    if s.len() > 0 {
        lemma_split_segments(s.drop_last(), sep);
    }
}

/// There is one segment more than there are separators.
pub proof fn lemma_split_len<T>(s: Seq<T>, sep: T)
    ensures
        split(s, sep).len() == s.to_multiset().count(sep) + 1,
    decreases s.len(),
{
    if s.len() == 0 {
        assert(s.to_multiset().count(sep) == 0) by {
            s.to_multiset_ensures();
        }
    } else {
        let front = s.drop_last();
        lemma_split_len(front, sep);
        lemma_split_segments(front, sep);
        assert(front.push(s.last()) =~= s);
        to_multiset_build(front, s.last());
    }
}

/// A sequence without separator is its own single segment.
pub proof fn lemma_split_single<T>(s: Seq<T>, sep: T)
    requires
        !s.contains(sep),
    ensures
        split(s, sep) == seq![s],
    decreases s.len(),
{
    if s.len() == 0 {
        assert(s =~= Seq::empty());
    } else {
        let front = s.drop_last();
        assert forall|i: int| 0 <= i < front.len() implies front[i] != sep by {
            assert(front[i] == s[i]);
        }
        lemma_split_single(front, sep);
        assert(front.push(s.last()) =~= s);
    }
}

/// Splitting distributes over a separator: the segments of `a`, `sep`, `b` in a row are
/// the segments of `a` followed by the segments of `b`.
pub proof fn lemma_split_concat<T>(a: Seq<T>, b: Seq<T>, sep: T)
    ensures
        split(a.push(sep) + b, sep) == split(a, sep) + split(b, sep),
    decreases b.len(),
{
    let whole = a.push(sep) + b;
    if b.len() == 0 {
        assert(whole.drop_last() =~= a);
    } else {
        let front = b.drop_last();
        assert(whole.drop_last() =~= a.push(sep) + front);
        lemma_split_concat(a, front, sep);
    }
}

/// The first segment ends at the first separator: if `head` holds no separator, the
/// segments of `head`, `sep`, `rest` in a row are `head` followed by the segments of
/// `rest`.
pub proof fn lemma_split_first<T>(head: Seq<T>, rest: Seq<T>, sep: T)
    requires
        !head.contains(sep),
    ensures
        split(head.push(sep) + rest, sep) == seq![head] + split(rest, sep),
{
    lemma_split_concat(head, rest, sep);
    lemma_split_single(head, sep);
}

/// Joining the segments of `s` gives `s` back: splitting loses nothing.
pub proof fn lemma_join_split<T>(s: Seq<T>, sep: T)
    ensures
        join(split(s, sep), sep) == s,
    decreases s.len(),
{
    if s.len() > 0 {
        let front = s.drop_last();
        let before = split(front, sep);
        lemma_join_split(front, sep);
        if s.last() == sep {
            let after = before.push(Seq::empty());
            assert(after.drop_last() =~= before);
        } else {
            let after = before.drop_last().push(before.last().push(s.last()));
            assert(after.drop_last() =~= before.drop_last());
            if before.len() > 1 {
                assert(join(after, sep) =~= join(before, sep).push(s.last()));
            }
        }
    }
}

/// Splitting undoes joining: a non-empty list of separator-free segments is exactly what
/// splitting their join yields. With `lemma_join_split` and `lemma_split_segments` this
/// makes `split` the only function of its kind.
pub proof fn lemma_split_join<T>(segments: Seq<Seq<T>>, sep: T)
    requires
        segments.len() >= 1,
        separator_free(segments, sep),
    ensures
        split(join(segments, sep), sep) == segments,
    decreases segments.len(),
{
    if segments.len() == 1 {
        lemma_split_single(segments[0], sep);
    } else {
        let front = segments.drop_last();
        assert(separator_free(front, sep)) by {
            assert forall|i: int| 0 <= i < front.len() implies front[i] == segments[i] by {}
        }
        lemma_split_join(front, sep);
        lemma_split_concat(join(front, sep), segments.last(), sep);
        lemma_split_single(segments.last(), sep);
    }
}

/// Cuts `text` at its first separator.
///
/// The first component is the text before that separator: the first segment. The
/// second is the text after it, or `None` when `text` holds no separator and so is a
/// single segment.
pub(crate) fn split_first<'a>(text: &'a str) -> (cut: (&'a str, Option<&'a str>))
    ensures
        !cut.0@.contains(SEPARATOR),
        cut.1 is None ==> text@ == cut.0@,
        cut.1 matches Some(rest) ==> text@ == cut.0@.push(SEPARATOR) + rest@,
{
    let bytes = text.as_bytes();
    let mut at: usize = 0;
    while at < bytes.len() && bytes[at] != SEPARATOR_BYTE
        invariant
            at <= bytes@.len(),
            forall|i: int| 0 <= i < at ==> bytes@[i] != SEPARATOR_BYTE,
        decreases bytes@.len() - at,
    {
        at = at + 1;
    }
    if at == bytes.len() {
        proof {
            if text@.contains(SEPARATOR) {
                lemma_char_shows_as_byte(text@, SEPARATOR);
            }
        }
        (text, None)
    } else {
        proof {
            // The separator byte begins a character, so the text can be cut before it,
            encode_utf8_valid_utf8(text@);
            is_char_boundary_iff_not_is_continuation_byte(bytes@, at as int);
        }
        let (head, tail) = text.split_at(at);
        proof {
            // and it is a whole character, so the text can be cut after it.
            encode_utf8_valid_utf8(tail@);
            reveal_with_fuel(is_char_boundary, 2);
        }
        let (slash, rest) = tail.split_at(1);
        proof {
            // The middle piece is the separator,
            lemma_encode_one(SEPARATOR);
            lemma_encode_scalar(SEPARATOR);
            assert(slash.spec_bytes() =~= encode_utf8(seq![SEPARATOR]));
            lemma_encode_injective(slash@, seq![SEPARATOR]);
            // the three pieces in a row have the bytes of the text, so they are the text,
            lemma_encode_concat(head@, slash@);
            lemma_encode_concat(head@ + slash@, rest@);
            assert(encode_utf8(head@ + slash@ + rest@) =~= bytes@);
            lemma_encode_injective(head@ + slash@ + rest@, text@);
            // and no separator byte was passed on the way, so none is in the first piece.
            if head@.contains(SEPARATOR) {
                lemma_char_shows_as_byte(head@, SEPARATOR);
            }
        }
        (head, Some(rest))
    }
}

} // verus!
