//! What it means for a template to match a candidate, over sequences of characters.

use crate::pattern_part::classify;
use crate::pattern_part::is_placeholder;
use crate::pattern_part::Segment;
use crate::segments::lemma_join_split;
use crate::segments::split;
use crate::segments::SEPARATOR;
use vstd::prelude::*;

verus! {

/// The segments that a template text stands for: the text is split at every
/// separator, and each piece is read on its own.
pub open spec fn parse_template(template: Seq<char>) -> Seq<Segment> {
    split(template, SEPARATOR).map_values(|text: Seq<char>| classify(text))
}

/// True when there are as many texts as segments and each segment accepts the text in
/// its position.
pub open spec fn segments_accept(pattern: Seq<Segment>, texts: Seq<Seq<char>>) -> bool {
    &&& pattern.len() == texts.len()
    &&& forall|i: int| 0 <= i < pattern.len() ==> (#[trigger] pattern[i]).accepts(texts[i])
}

/// True when `pattern` matches `candidate`: the candidate, split at every separator,
/// has exactly one segment for each segment of the pattern, and each is accepted.
pub open spec fn accepts(pattern: Seq<Segment>, candidate: Seq<char>) -> bool {
    segments_accept(pattern, split(candidate, SEPARATOR))
}

/// Matching can be decided front to back: the first segment must accept the first
/// text, and the remaining segments the remaining texts.
pub proof fn lemma_accept_first(pattern: Seq<Segment>, texts: Seq<Seq<char>>)
    requires
        pattern.len() >= 1,
        texts.len() >= 1,
    ensures
        segments_accept(pattern, texts) == (pattern[0].accepts(texts[0]) && segments_accept(
            pattern.drop_first(),
            texts.drop_first(),
        )),
{
    let rest_pattern = pattern.drop_first();
    let rest_texts = texts.drop_first();
    if pattern[0].accepts(texts[0]) && segments_accept(rest_pattern, rest_texts) {
        assert forall|i: int| 0 <= i < pattern.len() implies (#[trigger] pattern[i]).accepts(
            texts[i],
        ) by {
            if i > 0 {
                assert(rest_pattern[i - 1].accepts(rest_texts[i - 1]));
            }
        }
    }
}

/// What a template matches, said over the two texts: the candidate has as many
/// segments as the template, and wherever the template does not hold a placeholder the
/// two segments are the same text. What the candidate holds in the position of a
/// placeholder does not matter.
pub proof fn lemma_match_by_segments(template: Seq<char>, candidate: Seq<char>)
    ensures
        accepts(parse_template(template), candidate) <==> (split(candidate, SEPARATOR).len()
            == split(template, SEPARATOR).len() && forall|i: int|
            0 <= i < split(template, SEPARATOR).len() ==> is_placeholder(
                #[trigger] split(template, SEPARATOR)[i],
            ) || split(template, SEPARATOR)[i] == split(candidate, SEPARATOR)[i]),
{
    let pattern = parse_template(template);
    let own = split(template, SEPARATOR);
    let other = split(candidate, SEPARATOR);
    if accepts(pattern, candidate) {
        assert forall|i: int| 0 <= i < own.len() implies is_placeholder(#[trigger] own[i])
            || own[i] == other[i] by {
            assert(pattern[i].accepts(other[i]));
        }
    }
}

/// A candidate with another number of segments than the template is not matched.
pub proof fn lemma_segment_count_must_agree(template: Seq<char>, candidate: Seq<char>)
    requires
        split(candidate, SEPARATOR).len() != split(template, SEPARATOR).len(),
    ensures
        !accepts(parse_template(template), candidate),
{
}

/// Every template matches its own text.
pub proof fn lemma_template_matches_itself(template: Seq<char>)
    ensures
        accepts(parse_template(template), template),
{
}

/// A template without placeholders matches its own text and no other.
pub proof fn lemma_literal_template_matches_only_itself(
    template: Seq<char>,
    candidate: Seq<char>,
)
    requires
        forall|i: int|
            0 <= i < split(template, SEPARATOR).len() ==> !is_placeholder(
                #[trigger] split(template, SEPARATOR)[i],
            ),
    ensures
        accepts(parse_template(template), candidate) <==> candidate == template,
{
    lemma_match_by_segments(template, candidate);
    if accepts(parse_template(template), candidate) {
        assert(split(candidate, SEPARATOR) =~= split(template, SEPARATOR));
        lemma_join_split(candidate, SEPARATOR);
        lemma_join_split(template, SEPARATOR);
    }
}

} // verus!
