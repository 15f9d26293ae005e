//! The specificity score of a pattern and the order it induces.
//!
//! The score of a pattern is its shape: one flag per segment, in order, that tells
//! whether the segment is a literal. Shapes are ordered like words in a dictionary,
//! with a literal above a placeholder: the first position on which two shapes differ
//! decides, and a shape that is the beginning of a longer one lies below it.

use crate::pattern_part::Segment;
use crate::UriPattern;
use std::cmp::Ordering;
use vstd::prelude::*;

verus! {

/// The shape of a pattern: for each segment, in order, whether it is a literal. The
/// text of a literal plays no part.
pub open spec fn shape(pattern: Seq<Segment>) -> Seq<bool> {
    pattern.map_values(|segment: Segment| segment is Literal)
}

/// The number of leading positions on which `a` and `b` hold the same flag.
pub open spec fn common_prefix(a: Seq<bool>, b: Seq<bool>) -> nat
    decreases a.len(),
{
    if a.len() == 0 || b.len() == 0 || a.first() != b.first() {
        0
    } else {
        1 + common_prefix(a.drop_first(), b.drop_first())
    }
}

/// True when shape `a` ranks strictly below shape `b`.
///
/// If the shapes differ on some position that both have, the first such position
/// decides: `b` holds the literal there. Otherwise one shape is the beginning of the
/// other, and the shorter one ranks below.
pub open spec fn less_specific(a: Seq<bool>, b: Seq<bool>) -> bool {
    let k = common_prefix(a, b) as int;
    if k < a.len() && k < b.len() {
        b[k]
    } else {
        a.len() < b.len()
    }
}

/// How shape `a` compares to shape `b`.
pub open spec fn specificity_order(a: Seq<bool>, b: Seq<bool>) -> Ordering {
    if less_specific(a, b) {
        Ordering::Less
    } else if less_specific(b, a) {
        Ordering::Greater
    } else {
        Ordering::Equal
    }
}

/// What `common_prefix` counts: the shapes agree on every position before it, and it
/// stops at the end of one of them or on a position where they differ.
pub proof fn lemma_common_prefix(a: Seq<bool>, b: Seq<bool>)
    ensures
        common_prefix(a, b) <= a.len(),
        common_prefix(a, b) <= b.len(),
        forall|i: int| 0 <= i < common_prefix(a, b) ==> a[i] == b[i],
        common_prefix(a, b) < a.len() && common_prefix(a, b) < b.len() ==> a[common_prefix(
            a,
            b,
        ) as int] != b[common_prefix(a, b) as int],
    decreases a.len(),
{
    if a.len() > 0 && b.len() > 0 && a.first() == b.first() {
        let k = common_prefix(a.drop_first(), b.drop_first()) as int;
        lemma_common_prefix(a.drop_first(), b.drop_first());
        assert forall|i: int| 0 <= i < k + 1 implies a[i] == b[i] by {
            if i > 0 {
                assert(a.drop_first()[i - 1] == b.drop_first()[i - 1]);
            }
        }
    }
}

/// The only number of which both facts of `lemma_common_prefix` hold is
/// `common_prefix` itself.
pub proof fn lemma_common_prefix_is(a: Seq<bool>, b: Seq<bool>, k: int)
    requires
        0 <= k <= a.len(),
        k <= b.len(),
        forall|i: int| 0 <= i < k ==> a[i] == b[i],
        k == a.len() || k == b.len() || a[k] != b[k],
    ensures
        common_prefix(a, b) == k,
    decreases k,
{
    if k > 0 {
        assert(a[0] == b[0]);
        lemma_common_prefix_is(a.drop_first(), b.drop_first(), k - 1);
    }
}

/// True when `a` and `b` agree before position `k`, and there either `a` ends while
/// `b` goes on, or `a` holds a placeholder and `b` a literal.
pub open spec fn falls_behind_at(a: Seq<bool>, b: Seq<bool>, k: int) -> bool {
    &&& 0 <= k <= a.len()
    &&& k <= b.len()
    &&& a.take(k) == b.take(k)
    &&& (k == a.len() && k < b.len()) || (k < a.len() && k < b.len() && !a[k] && b[k])
}

/// The order is that of the words in a dictionary, with a placeholder before a
/// literal: `a` ranks below `b` exactly when `a` falls behind `b` at some position.
pub proof fn lemma_less_specific_iff(a: Seq<bool>, b: Seq<bool>)
    ensures
        less_specific(a, b) <==> exists|k: int| falls_behind_at(a, b, k),
{
    lemma_common_prefix(a, b);
    let c = common_prefix(a, b) as int;
    if less_specific(a, b) {
        assert(a.take(c) =~= b.take(c));
        assert(falls_behind_at(a, b, c));
    }
    if exists|k: int| falls_behind_at(a, b, k) {
        let k = choose|k: int| falls_behind_at(a, b, k);
        assert forall|i: int| 0 <= i < k implies a[i] == b[i] by {
            assert(a.take(k)[i] == b.take(k)[i]);
        }
        lemma_common_prefix_is(a, b, k);
    }
}

/// The count does not depend on which shape is named first.
pub proof fn lemma_common_prefix_symmetric(a: Seq<bool>, b: Seq<bool>)
    ensures
        common_prefix(a, b) == common_prefix(b, a),
{
    lemma_common_prefix(a, b);
    lemma_common_prefix_is(b, a, common_prefix(a, b) as int);
}

/// No shape ranks below itself.
pub proof fn lemma_order_irreflexive(a: Seq<bool>)
    ensures
        !less_specific(a, a),
{
    lemma_common_prefix(a, a);
}

/// Any two shapes are comparable: of two different shapes one ranks below the other,
/// and never both ways.
pub proof fn lemma_order_total(a: Seq<bool>, b: Seq<bool>)
    ensures
        a != b ==> less_specific(a, b) || less_specific(b, a),
        !(less_specific(a, b) && less_specific(b, a)),
        a == b ==> !less_specific(a, b) && !less_specific(b, a),
{
    lemma_common_prefix(a, b);
    lemma_common_prefix_symmetric(a, b);
    if !less_specific(a, b) && !less_specific(b, a) {
        assert(a =~= b);
    }
}

/// Ranking below is transitive.
pub proof fn lemma_order_transitive(a: Seq<bool>, b: Seq<bool>, c: Seq<bool>)
    requires
        less_specific(a, b),
        less_specific(b, c),
    ensures
        less_specific(a, c),
{
    lemma_common_prefix(a, b);
    lemma_common_prefix(b, c);
    let ab = common_prefix(a, b) as int;
    let bc = common_prefix(b, c) as int;
    // `a` and `c` part ways where the first of the two pairs does.
    let k = if ab <= bc {
        ab
    } else {
        bc
    };
    lemma_common_prefix_is(a, c, k);
}

/// Ranking at least as high is transitive too: if `a` does not exceed `b`, and `b`
/// does not exceed `c`, then `a` does not exceed `c`.
pub proof fn lemma_at_least_transitive(a: Seq<bool>, b: Seq<bool>, c: Seq<bool>)
    requires
        !less_specific(b, a),
        !less_specific(c, b),
    ensures
        !less_specific(c, a),
{
    lemma_order_total(a, b);
    if less_specific(c, a) && a != b && b != c {
        lemma_order_transitive(c, a, b);
    }
}

/// A literal outranks a placeholder, whatever follows: if two shapes agree before
/// position `i`, and there `a` holds a placeholder and `b` a literal, then `a` ranks
/// below `b`. Neither the later positions nor the lengths can change that.
pub proof fn lemma_literal_outranks_placeholder(a: Seq<bool>, b: Seq<bool>, i: int)
    requires
        0 <= i < a.len(),
        i < b.len(),
        a.take(i) == b.take(i),
        !a[i],
        b[i],
    ensures
        less_specific(a, b),
        !less_specific(b, a),
{
    assert forall|j: int| 0 <= j < i implies a[j] == b[j] by {
        assert(b.take(i)[j] == b[j]);
    }
    lemma_common_prefix_is(a, b, i);
    lemma_order_total(a, b);
}

/// Turning one placeholder into a literal, all else unchanged, makes a shape rank
/// strictly higher.
pub proof fn lemma_literal_raises_rank(a: Seq<bool>, i: int)
    requires
        0 <= i < a.len(),
        !a[i],
    ensures
        less_specific(a, a.update(i, true)),
{
    assert(a.take(i) =~= a.update(i, true).take(i));
    lemma_literal_outranks_placeholder(a, a.update(i, true), i);
}

/// A shape ranks below every longer shape that begins with it.
pub proof fn lemma_longer_outranks_beginning(a: Seq<bool>, b: Seq<bool>)
    requires
        a.len() < b.len(),
        a == b.take(a.len() as int),
    ensures
        less_specific(a, b),
{
    lemma_common_prefix_is(a, b, a.len() as int);
}

/// Two patterns have the same shape exactly when they have the same number of
/// segments and hold their literals in the same positions.
pub proof fn lemma_same_shape(p: Seq<Segment>, q: Seq<Segment>)
    ensures
        shape(p) == shape(q) <==> (p.len() == q.len() && forall|i: int|
            0 <= i < p.len() ==> (p[i] is Literal) == (q[i] is Literal)),
{
    if shape(p) == shape(q) {
        assert(p.len() == shape(p).len());
        assert forall|i: int| 0 <= i < p.len() implies (p[i] is Literal) == (q[i] is Literal) by {
            assert(shape(p)[i] == shape(q)[i]);
        }
    }
    if p.len() == q.len() && forall|i: int|
        0 <= i < p.len() ==> (p[i] is Literal) == (q[i] is Literal) {
        assert(shape(p) =~= shape(q));
    }
}

/// A pattern in which one placeholder has been replaced by a literal, all else
/// unchanged, ranks strictly above the pattern it came from.
pub proof fn lemma_literal_segment_raises_rank(p: Seq<Segment>, i: int, text: Seq<char>)
    requires
        0 <= i < p.len(),
        p[i] is Placeholder,
    ensures
        less_specific(shape(p), shape(p.update(i, Segment::Literal(text)))),
{
    assert(shape(p.update(i, Segment::Literal(text))) =~= shape(p).update(i, true));
    lemma_literal_raises_rank(shape(p), i);
}

/// The first position on which two patterns differ in kind decides their order: the
/// pattern with the literal there ranks above, whatever the later segments are and
/// however many there are.
pub proof fn lemma_first_difference_decides(p: Seq<Segment>, q: Seq<Segment>, i: int)
    requires
        0 <= i < p.len(),
        i < q.len(),
        forall|j: int| 0 <= j < i ==> (p[j] is Literal) == (q[j] is Literal),
        p[i] is Placeholder,
        q[i] is Literal,
    ensures
        less_specific(shape(p), shape(q)),
{
    assert(shape(p).take(i) =~= shape(q).take(i));
    lemma_literal_outranks_placeholder(shape(p), shape(q), i);
}

/// Two shapes compare equal exactly when they are the same shape, and swapping the
/// two sides swaps below and above.
pub proof fn lemma_order_consistent(a: Seq<bool>, b: Seq<bool>)
    ensures
        specificity_order(a, b) == Ordering::Equal <==> a == b,
        specificity_order(a, b) == Ordering::Less <==> specificity_order(b, a)
            == Ordering::Greater,
        specificity_order(a, b) == Ordering::Equal <==> specificity_order(b, a)
            == Ordering::Equal,
{
    lemma_order_total(a, b);
}

/// The score of a pattern, computed when patterns are compared.
pub(crate) struct UriPatternScore {
    flags: Vec<bool>,
}

impl View for UriPatternScore {
    type V = Seq<bool>;

    closed spec fn view(&self) -> Seq<bool> {
        self.flags@
    }
}

impl UriPatternScore {
    /// Computes the score of `pattern`.
    pub(crate) fn of<'a>(pattern: &UriPattern<'a>) -> (score: Self)
        ensures
            score@ == shape(pattern@),
    {
        let mut flags: Vec<bool> = Vec::new();
        let mut at: usize = 0;
        while at < pattern.parts.len()
            invariant
                at <= pattern.parts@.len(),
                flags@ == shape(pattern@).take(at as int),
            decreases pattern.parts@.len() - at,
        {
            flags.push(pattern.parts[at].is_literal());
            at = at + 1;
        }
        UriPatternScore { flags }
    }

    /// The number of leading positions on which the two scores agree.
    fn agreement(&self, other: &Self) -> (k: usize)
        ensures
            k == common_prefix(self@, other@),
    {
        let mut k: usize = 0;
        while k < self.flags.len() && k < other.flags.len() && self.flags[k] == other.flags[k]
            invariant
                k <= self.flags@.len(),
                k <= other.flags@.len(),
                forall|i: int| 0 <= i < k ==> self.flags@[i] == other.flags@[i],
            decreases self.flags@.len() - k,
        {
            k = k + 1;
        }
        proof {
            lemma_common_prefix_is(self@, other@, k as int);
        }
        k
    }

    /// Tells whether two scores are the same.
    pub(crate) fn same_as(&self, other: &Self) -> (same: bool)
        ensures
            same == (self@ == other@),
    {
        let k = self.agreement(other);
        proof {
            lemma_common_prefix(self@, other@);
            if k == self.flags@.len() && k == other.flags@.len() {
                assert(self@ =~= other@);
            }
        }
        k == self.flags.len() && k == other.flags.len()
    }

    /// Compares two scores.
    pub(crate) fn compare(&self, other: &Self) -> (order: Ordering)
        ensures
            order == specificity_order(self@, other@),
    {
        let k = self.agreement(other);
        proof {
            lemma_common_prefix(self@, other@);
            lemma_common_prefix_symmetric(self@, other@);
        }
        if k < self.flags.len() && k < other.flags.len() {
            if self.flags[k] {
                Ordering::Greater
            } else {
                Ordering::Less
            }
        } else if self.flags.len() < other.flags.len() {
            Ordering::Less
        } else if self.flags.len() > other.flags.len() {
            Ordering::Greater
        } else {
            Ordering::Equal
        }
    }
}

} // verus!
