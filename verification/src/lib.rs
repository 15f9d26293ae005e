//! Path templates such as `/api/{resource}/{id}`: parsing them, matching concrete
//! paths against them, and ranking them by how specific they are.
//!
//! A template is a text of segments separated by `/`. A segment written between `{` and
//! `}` is a placeholder and matches any one segment of a path; every other segment is a
//! literal and matches only itself. Nothing is normalized: empty segments count, and so
//! does a trailing `/`.
//!
//! ```
//! use uri_pattern_matcher::UriPattern;
//!
//! let pattern = UriPattern::from("/users/{id}/posts");
//! assert!(pattern.is_match("/users/42/posts"));
//! assert!(!pattern.is_match("/users/42/posts/"));
//! ```
//!
//! Patterns are compared by shape alone, that is by which of their positions hold a
//! literal: the first position on which two shapes differ decides, and the literal
//! wins. The names of placeholders and the texts of literals play no part, so `==`
//! holds between any two patterns of one shape.
//!
//! ```
//! use uri_pattern_matcher::{best_match, UriPattern};
//!
//! let patterns = [UriPattern::from("/{kind}/{id}"), UriPattern::from("/users/{id}")];
//! assert!(patterns[0] < patterns[1]);
//! assert_eq!(best_match(&patterns, "/users/42").unwrap().value, "/users/{id}");
//! assert_eq!(best_match(&patterns, "/teams/42").unwrap().value, "/{kind}/{id}");
//! ```
//!
//! Every executable function states in its contract what it returns, over the
//! mathematical model of the modules [`segments`], [`pattern_part`], [`matching`] and
//! [`uri_pattern_score`], and Verus proves that it does.

mod encoding;
pub mod matching;
pub mod pattern_part;
pub mod segments;
pub mod uri_pattern_score;

use crate::matching::accepts;
use crate::matching::lemma_accept_first;
use crate::matching::parse_template;
use crate::matching::segments_accept;
use crate::pattern_part::PatternPart;
use crate::pattern_part::Segment;
use crate::segments::lemma_split_first;
use crate::segments::lemma_split_single;
use crate::segments::split;
use crate::segments::split_first;
use crate::segments::SEPARATOR;
use crate::uri_pattern_score::lemma_at_least_transitive;
use crate::uri_pattern_score::lemma_order_irreflexive;
use crate::uri_pattern_score::lemma_order_total;
use crate::uri_pattern_score::less_specific;
use crate::uri_pattern_score::shape;
use crate::uri_pattern_score::specificity_order;
use crate::uri_pattern_score::UriPatternScore;
use std::cmp::Ordering;
use vstd::prelude::*;
use vstd::std_specs::cmp::PartialEqSpec;
use vstd::std_specs::cmp::PartialOrdSpec;
use vstd::std_specs::convert::FromSpecImpl;

verus! {

/// The segments that a list of parts stands for.
spec fn views<'a>(parts: Seq<PatternPart<'a>>) -> Seq<Segment> {
    parts.map_values(|part: PatternPart<'a>| part@)
}

/// A parsed template. It keeps the text it was parsed from and borrows from it.
#[derive(Debug)]
pub struct UriPattern<'a> {
    /// The template text, as given.
    pub value: &'a str,
    pub(crate) parts: Vec<PatternPart<'a>>,
}

impl<'a> View for UriPattern<'a> {
    type V = Seq<Segment>;

    closed spec fn view(&self) -> Seq<Segment> {
        views(self.parts@)
    }
}

impl<'a> UriPattern<'a> {
    /// The text that this pattern holds in `value`.
    pub closed spec fn template(&self) -> Seq<char> {
        self.value@
    }

    /// True when the segments of this pattern are those that its text stands for.
    /// Every pattern that `from` returns is of this kind.
    pub open spec fn wf(&self) -> bool {
        self@ == parse_template(self.template())
    }

    /// The template text.
    pub fn as_str(&self) -> (text: &'a str)
        ensures
            text@ == self.template(),
    {
        self.value
    }

    /// Compares two patterns by specificity. Any two patterns are comparable; those of
    /// the same shape are equal, whatever their texts.
    pub fn cmp(&self, other: &Self) -> (order: Ordering)
        ensures
            order == specificity_order(shape(self@), shape(other@)),
    {
        let score = UriPatternScore::of(self);
        let other_score = UriPatternScore::of(other);
        score.compare(&other_score)
    }

    /// Checks a candidate path against the pattern.
    ///
    /// The candidate matches when it has as many segments as the pattern and every
    /// literal segment of the pattern meets its own text in the same position. The
    /// answer depends on nothing but the segments of the pattern and the characters of
    /// the candidate: asking again gives the same answer.
    pub fn is_match(&self, candidate: &str) -> (matched: bool)
        ensures
            matched == accepts(self@, candidate@),
            split(candidate@, SEPARATOR).len() != self@.len() ==> !matched,
    {
        let mut rest = candidate;
        let mut k: usize = 0;
        assert(self@.skip(0) =~= self@);
        loop
            invariant
                k <= self.parts@.len(),
                accepts(self@, candidate@) == segments_accept(
                    self@.skip(k as int),
                    split(rest@, SEPARATOR),
                ),
            decreases rest@.len(),
        {
            let (head, tail) = split_first(rest);
            if k >= self.parts.len() {
                return false;
            }
            proof {
                // `head` is the first segment of `rest`, and `parts[k]` is the one to
                // accept it.
                match tail {
                    None => lemma_split_single(rest@, SEPARATOR),
                    Some(next) => lemma_split_first(head@, next@, SEPARATOR),
                }
                assert(self@.skip(k as int).drop_first() =~= self@.skip(k + 1));
                lemma_accept_first(self@.skip(k as int), split(rest@, SEPARATOR));
            }
            if !self.parts[k].accepts(head) {
                return false;
            }
            match tail {
                None => {
                    return k + 1 == self.parts.len();
                },
                Some(next) => {
                    rest = next;
                    k = k + 1;
                },
            }
        }
    }
}

impl<'a> Clone for UriPattern<'a> {
    /// Copies the pattern. The copy borrows from the same text.
    fn clone(&self) -> (copy: Self)
        ensures
            copy.template() == self.template(),
            copy@ == self@,
    {
        let mut parts: Vec<PatternPart<'a>> = Vec::new();
        let mut at: usize = 0;
        while at < self.parts.len()
            invariant
                at <= self.parts@.len(),
                parts@ == self.parts@.take(at as int),
            decreases self.parts@.len() - at,
        {
            parts.push(self.parts[at]);
            at = at + 1;
        }
        assert(parts@ == self.parts@);
        UriPattern { value: self.value, parts }
    }
}

/// `from` is specified by its own `ensures`: a pattern borrows its parts from the text,
/// and no spec function can build such a value.
impl<'a> FromSpecImpl<&'a str> for UriPattern<'a> {
    open spec fn obeys_from_spec() -> bool {
        false
    }

    open spec fn from_spec(pattern: &'a str) -> Self {
        arbitrary()
    }
}

impl<'a> From<&'a str> for UriPattern<'a> {
    /// Parses a template. Every text is a template: this never fails.
    fn from(pattern: &'a str) -> (parsed: Self)
        ensures
            parsed.template() == pattern@,
            parsed@ == parse_template(pattern@),
            parsed.wf(),
    {
        let mut parts: Vec<PatternPart<'a>> = Vec::new();
        let mut rest = pattern;
        loop
            invariant_except_break
                parse_template(pattern@) == views(parts@) + parse_template(rest@),
            ensures
                parse_template(pattern@) == views(parts@),
            decreases rest@.len(),
        {
            let (head, tail) = split_first(rest);
            parts.push(PatternPart::from(head));
            match tail {
                None => {
                    proof {
                        lemma_split_single(rest@, SEPARATOR);
                    }
                    break ;
                },
                Some(next) => {
                    proof {
                        lemma_split_first(head@, next@, SEPARATOR);
                    }
                    rest = next;
                },
            }
        }
        UriPattern { value: pattern, parts }
    }
}

impl<'a> vstd::std_specs::cmp::PartialEqSpecImpl for UriPattern<'a> {
    open spec fn obeys_eq_spec() -> bool {
        true
    }

    open spec fn eq_spec(&self, other: &Self) -> bool {
        shape(self@) == shape(other@)
    }
}

impl<'a> PartialEq for UriPattern<'a> {
    /// Two patterns are equal when they have the same shape: the same number of
    /// segments, with literals in the same positions. Their texts are not compared.
    fn eq(&self, other: &Self) -> (equal: bool)
        ensures
            equal == (shape(self@) == shape(other@)),
    {
        let score = UriPatternScore::of(self);
        let other_score = UriPatternScore::of(other);
        score.same_as(&other_score)
    }
}

impl<'a> Eq for UriPattern<'a> {}

impl<'a> vstd::std_specs::cmp::PartialOrdSpecImpl for UriPattern<'a> {
    open spec fn obeys_partial_cmp_spec() -> bool {
        true
    }

    open spec fn partial_cmp_spec(&self, other: &Self) -> Option<Ordering> {
        Some(specificity_order(shape(self@), shape(other@)))
    }
}

impl<'a> PartialOrd for UriPattern<'a> {
    /// Compares two patterns by specificity; the answer is never `None`.
    fn partial_cmp(&self, other: &Self) -> (order: Option<Ordering>)
        ensures
            order == Some(specificity_order(shape(self@), shape(other@))),
    {
        Some(self.cmp(other))
    }
}

/// `==` and the order agree: two patterns are equal exactly when neither ranks below
/// the other.
pub proof fn lemma_equal_when_neither_below<'a>(p: UriPattern<'a>, q: UriPattern<'a>)
    ensures
        p.eq_spec(&q) <==> p.partial_cmp_spec(&q) == Some(Ordering::Equal),
        p.eq_spec(&q) <==> !less_specific(shape(p@), shape(q@)) && !less_specific(
            shape(q@),
            shape(p@),
        ),
{
    lemma_order_total(shape(p@), shape(q@));
}

/// A pattern matches the text it was parsed from.
pub proof fn lemma_matches_own_text<'a>(pattern: UriPattern<'a>)
    requires
        pattern.wf(),
    ensures
        accepts(pattern@, pattern.template()),
{
}

/// True when `patterns[i]` is one of the first `n` patterns, matches `candidate`, and
/// none of the first `n` patterns that match it is more specific.
pub open spec fn leads<'a>(
    patterns: Seq<UriPattern<'a>>,
    candidate: Seq<char>,
    i: int,
    n: int,
) -> bool {
    &&& 0 <= i < n <= patterns.len()
    &&& accepts(patterns[i]@, candidate)
    &&& forall|j: int|
        0 <= j < n && accepts((#[trigger] patterns[j])@, candidate) ==> !less_specific(
            shape(patterns[i]@),
            shape(patterns[j]@),
        )
}

/// True when `patterns[i]` matches `candidate` and no pattern of the list that matches
/// it is more specific.
pub open spec fn is_best_match<'a>(
    patterns: Seq<UriPattern<'a>>,
    candidate: Seq<char>,
    i: int,
) -> bool {
    leads(patterns, candidate, i, patterns.len() as int)
}

/// Picks, among the patterns that match `candidate`, one that no other exceeds in
/// specificity. The answer is `None` exactly when no pattern matches. Where several
/// matching patterns share the highest rank, any of them may be the answer.
pub fn best_match<'p, 'a>(patterns: &'p [UriPattern<'a>], candidate: &str) -> (best: Option<
    &'p UriPattern<'a>,
>)
    ensures
        best is None <==> forall|j: int|
            0 <= j < patterns@.len() ==> !accepts((#[trigger] patterns@[j])@, candidate@),
        best matches Some(pattern) ==> exists|i: int|
            #[trigger] is_best_match(patterns@, candidate@, i) && *pattern == patterns@[i],
{
    let mut best: Option<usize> = None;
    let mut at: usize = 0;
    while at < patterns.len()
        invariant
            at <= patterns@.len(),
            best is None ==> forall|j: int|
                0 <= j < at ==> !accepts((#[trigger] patterns@[j])@, candidate@),
            best matches Some(b) ==> leads(patterns@, candidate@, b as int, at as int),
        decreases patterns@.len() - at,
    {
        if patterns[at].is_match(candidate) {
            let ghost current = shape(patterns@[at as int]@);
            proof {
                lemma_order_irreflexive(current);
            }
            match best {
                None => {
                    best = Some(at);
                },
                Some(b) => {
                    let ghost held = shape(patterns@[b as int]@);
                    if !(patterns[at] < patterns[b]) {
                        proof {
                            assert forall|j: int|
                                0 <= j < at && accepts(
                                    (#[trigger] patterns@[j])@,
                                    candidate@,
                                ) implies !less_specific(current, shape(patterns@[j]@)) by {
                                lemma_at_least_transitive(shape(patterns@[j]@), held, current);
                            }
                        }
                        best = Some(at);
                    } else {
                        proof {
                            lemma_order_total(current, held);
                        }
                    }
                },
            }
        }
        at = at + 1;
    }
    match best {
        None => None,
        Some(b) => {
            assert(is_best_match(patterns@, candidate@, b as int));
            Some(&patterns[b])
        },
    }
}

} // verus!
