//! One segment of a template: either a literal text or a placeholder.

use crate::encoding::lemma_encode_injective;
use crate::encoding::lemma_first_byte;
use crate::encoding::lemma_last_byte;
use vstd::prelude::*;
use vstd::std_specs::convert::FromSpecImpl;
use vstd::string::StringSliceAdditionalSpecFns;

verus! {

/// The character that opens a placeholder.
pub const OPENING: char = '{';

/// The character that closes a placeholder.
pub const CLOSING: char = '}';

/// The byte that UTF-8 writes for `OPENING`.
const OPENING_BYTE: u8 = 0x7b;

/// The byte that UTF-8 writes for `CLOSING`.
const CLOSING_BYTE: u8 = 0x7d;

/// A segment of a template, as the contracts see it.
pub enum Segment {
    /// Accepts the candidate segment that is this very text, and no other.
    Literal(Seq<char>),
    /// Accepts every candidate segment, the empty one too.
    Placeholder,
}

impl Segment {
    /// True when this segment accepts `text` as the candidate segment in its position.
    pub open spec fn accepts(self, text: Seq<char>) -> bool {
        match self {
            Segment::Literal(own) => own == text,
            Segment::Placeholder => true,
        }
    }
}

/// True when `text` is written as a placeholder: it starts with `{`, ends with `}`, and
/// these are two different characters of it. What stands between them does not matter.
pub open spec fn is_placeholder(text: Seq<char>) -> bool {
    text.len() >= 2 && text.first() == OPENING && text.last() == CLOSING
}

/// The segment that the text of one template segment stands for. Only the text itself
/// decides: anything not written as a placeholder is a literal, unbalanced braces and
/// the empty text included.
pub open spec fn classify(text: Seq<char>) -> Segment {
    if is_placeholder(text) {
        Segment::Placeholder
    } else {
        Segment::Literal(text)
    }
}

/// Tells whether `text` is written as a placeholder.
pub(crate) fn has_placeholder_shape(text: &str) -> (shaped: bool)
    ensures
        shaped == is_placeholder(text@),
{
    let bytes = text.as_bytes();
    let n = bytes.len();
    proof {
        if text@.len() > 0 {
            lemma_first_byte(text@, OPENING);
            lemma_last_byte(text@, CLOSING);
        }
    }
    n >= 2 && bytes[0] == OPENING_BYTE && bytes[n - 1] == CLOSING_BYTE
}

/// Tells whether two texts are the same, byte for byte.
pub(crate) fn same_text(a: &str, b: &str) -> (same: bool)
    ensures
        same == (a@ == b@),
{
    let left = a.as_bytes();
    let right = b.as_bytes();
    if left.len() != right.len() {
        return false;
    }
    let mut at: usize = 0;
    while at < left.len()
        invariant
            at <= left@.len(),
            left@.len() == right@.len(),
            left@ == a.spec_bytes(),
            right@ == b.spec_bytes(),
            forall|i: int| 0 <= i < at ==> left@[i] == right@[i],
        decreases left@.len() - at,
    {
        if left[at] != right[at] {
            return false;
        }
        at = at + 1;
    }
    proof {
        assert(left@ =~= right@);
        lemma_encode_injective(a@, b@);
    }
    true
}

/// A segment of a parsed template. A literal borrows its text from the template.
#[derive(Debug, Clone, Copy)]
pub(crate) enum PatternPart<'a> {
    /// A placeholder: matches any one segment.
    Joker,
    /// A literal: matches the segment that equals this text.
    Value(&'a str),
}

impl<'a> View for PatternPart<'a> {
    type V = Segment;

    open(crate) spec fn view(&self) -> Segment {
        match self {
            PatternPart::Joker => Segment::Placeholder,
            PatternPart::Value(text) => Segment::Literal(text@),
        }
    }
}

impl<'a> PatternPart<'a> {
    /// Tells whether this part is a literal.
    pub(crate) fn is_literal(&self) -> (literal: bool)
        ensures
            literal == (self@ is Literal),
    {
        match self {
            PatternPart::Joker => false,
            PatternPart::Value(_) => true,
        }
    }

    /// Tells whether this part matches `text`, taken as one candidate segment.
    pub(crate) fn accepts(&self, text: &str) -> (accepted: bool)
        ensures
            accepted == self@.accepts(text@),
    {
        match self {
            PatternPart::Joker => true,
            PatternPart::Value(own) => same_text(own, text),
        }
    }
}

impl<'a> FromSpecImpl<&'a str> for PatternPart<'a> {
    open(crate) spec fn obeys_from_spec() -> bool {
        true
    }

    open(crate) spec fn from_spec(part: &'a str) -> Self {
        if is_placeholder(part@) {
            PatternPart::Joker
        } else {
            PatternPart::Value(part)
        }
    }
}

impl<'a> From<&'a str> for PatternPart<'a> {
    /// Reads the text of one template segment.
    fn from(part: &'a str) -> (parsed: Self)
        ensures
            parsed@ == classify(part@),
    {
        if has_placeholder_shape(part) {
            PatternPart::Joker
        } else {
            PatternPart::Value(part)
        }
    }
}

} // verus!
