//! The estimator: which distances count as inside the quarter disc, and the
//! ratio that the estimate of pi is read from.
//!
//! A distance is held as the bit pattern of an IEEE 754 binary64 number, an
//! unsigned 64-bit integer. Among patterns with the sign bit clear, numbers and
//! patterns are ordered alike, so "at most one" is a comparison of integers.
//! The estimate is kept exact, as the pair it is the quotient of: four times
//! the number of distances inside, over the number of distances.

use vstd::prelude::*;
use crate::rearrange::{lemma_both_empty, lemma_take_out_last};

verus! {

/// The bit pattern of the distance one.
pub const UNIT_BITS: u64 = 0x3FF0_0000_0000_0000;

/// The smallest bit pattern with the sign bit set: negative zero.
pub const NEGATIVE_ZERO_BITS: u64 = 0x8000_0000_0000_0000;

/// The bit pattern of negative infinity. Larger patterns are not numbers.
pub const NEGATIVE_INFINITY_BITS: u64 = 0xFFF0_0000_0000_0000;

/// Whether the number with this bit pattern is at most one.
///
/// With the sign bit clear that holds up to and including the pattern of one;
/// patterns above it are larger numbers, infinity, or not numbers. With the
/// sign bit set it holds of every number, negative zero and negative infinity
/// included, and of nothing that is not a number.
pub open spec fn is_inside(bits: u64) -> bool {
    bits <= UNIT_BITS || NEGATIVE_ZERO_BITS <= bits <= NEGATIVE_INFINITY_BITS
}

/// How many of `distances` are inside.
pub open spec fn inside_count(distances: Seq<u64>) -> nat {
    distances.filter(|bits: u64| is_inside(bits)).len()
}

/// A quotient of two natural numbers, kept as the two numbers.
pub ghost struct Ratio {
    pub numerator: nat,
    pub denominator: nat,
}

/// An estimate of pi, kept as the counts it is made of. Its value is
/// `4 * inside / total`.
#[derive(Clone, Copy, Debug, PartialEq, Eq, Structural)]
pub struct Estimate {
    /// How many distances were inside.
    pub inside: usize,
    /// How many distances were counted.
    pub total: usize,
}

impl View for Estimate {
    type V = Ratio;

    /// The value of the estimate: four times the count inside, over the count
    /// of all.
    open spec fn view(&self) -> Ratio {
        Ratio { numerator: 4 * (self.inside as nat), denominator: self.total as nat }
    }
}

impl Estimate {
    /// An estimate has counted something, and no more inside than in all. Its
    /// value then lies between zero and four.
    pub open spec fn is_valid(self) -> bool {
        0 < self.total && self.inside <= self.total
    }

    /// Four times the number of distances inside.
    pub fn numerator(&self) -> (n: u128)
        ensures
            n == self@.numerator,
    {
        4 * (self.inside as u128)
    }

    /// The number of distances counted.
    pub fn denominator(&self) -> (n: usize)
        ensures
            n == self@.denominator,
    {
        self.total
    }
}

/// The estimate that a sequence of distances gives: four times the number of
/// distances inside, over the number of distances.
pub open spec fn estimate_of(distances: Seq<u64>) -> Ratio {
    Ratio { numerator: 4 * inside_count(distances), denominator: distances.len() }
}

/// A single distance counts once if it is inside and not at all otherwise.
proof fn lemma_inside_count_one(bits: u64)
    ensures
        inside_count(seq![bits]) == if is_inside(bits) {
            1nat
        } else {
            0nat
        },
{
    let keep = |bits: u64| is_inside(bits);
    let none = Seq::<u64>::empty();
    reveal(Seq::filter);
    none.lemma_filter_len_push(keep, bits);
}

/// Counting is additive: the distances inside among two batches laid end to
/// end are those of the first and those of the second.
pub proof fn lemma_inside_count_concat(a: Seq<u64>, b: Seq<u64>)
    ensures
        inside_count(a + b) == inside_count(a) + inside_count(b),
        inside_count(a + b) == inside_count(b + a),
{
    let keep = |bits: u64| is_inside(bits);
    Seq::filter_distributes_over_add(a, b, keep);
    Seq::filter_distributes_over_add(b, a, keep);
}

/// No more distances are inside than there are distances.
pub proof fn lemma_inside_count_bound(distances: Seq<u64>)
    ensures
        inside_count(distances) <= distances.len(),
{
    distances.lemma_filter_len(|bits: u64| is_inside(bits));
}

/// Taking one distance out lowers the count by one if it was inside and
/// leaves it otherwise.
proof fn lemma_inside_count_remove(distances: Seq<u64>, i: int)
    requires
        0 <= i < distances.len(),
    ensures
        inside_count(distances) == inside_count(distances.remove(i)) + if is_inside(
            distances[i],
        ) {
            1nat
        } else {
            0nat
        },
{
    let head = distances.subrange(0, i);
    let tail = distances.subrange(i + 1, distances.len() as int);
    let one = seq![distances[i]];
    assert(distances =~= (head + one) + tail);
    lemma_inside_count_concat(head + one, tail);
    lemma_inside_count_concat(head, one);
    lemma_inside_count_concat(head, tail);
    lemma_inside_count_one(distances[i]);
}

/// The estimate does not depend on the order of the distances: two sequences
/// that hold the same distances, each as often in one as in the other, have
/// the same count inside, the same length and so the same estimate.
pub proof fn lemma_estimate_ignores_order(a: Seq<u64>, b: Seq<u64>)
    requires
        a.to_multiset() == b.to_multiset(),
    ensures
        inside_count(a) == inside_count(b),
        a.len() == b.len(),
        estimate_of(a) == estimate_of(b),
    decreases a.len(),
{
    if a.len() == 0 {
        lemma_both_empty(a, b);
    } else {
        let i = lemma_take_out_last(a, b);
        lemma_estimate_ignores_order(a.drop_last(), b.remove(i));
        a.drop_last().lemma_filter_len_push(|bits: u64| is_inside(bits), a.last());
        assert(a.drop_last().push(a.last()) =~= a);
        lemma_inside_count_remove(b, i);
    }
}

/// Tells whether the distance with this bit pattern is inside the quarter
/// disc: whether it is at most one, the boundary included.
pub fn inside(bits: u64) -> (within: bool)
    ensures
        within == is_inside(bits),
{
    bits <= UNIT_BITS || (NEGATIVE_ZERO_BITS <= bits && bits <= NEGATIVE_INFINITY_BITS)
}

/// Estimates pi from the distances of the samples drawn: counts those that
/// are inside and returns the count with the number of distances.
///
/// The list must not be empty: no estimate can be made from nothing.
pub fn calculate_pi(distance_list: &[u64]) -> (estimate: Estimate)
    requires
        distance_list@.len() > 0,
    ensures
        estimate@ == estimate_of(distance_list@),
        estimate.inside == inside_count(distance_list@),
        estimate.total == distance_list@.len(),
        estimate.is_valid(),
{
    let total: usize = distance_list.len();
    let mut valid: usize = 0;
    let mut i: usize = 0;
    proof {
        lemma_inside_count_bound(distance_list@.take(0));
    }
    while i < total
        invariant
            i <= total,
            total == distance_list@.len(),
            valid == inside_count(distance_list@.take(i as int)),
            valid <= i,
        decreases total - i,
    {
        proof {
            let seen = distance_list@.take(i as int);
            assert(distance_list@.take(i + 1) =~= seen.push(distance_list@[i as int]));
            seen.lemma_filter_len_push(|bits: u64| is_inside(bits), distance_list@[i as int]);
        }
        if inside(distance_list[i]) {
            valid += 1;
        }
        i += 1;
    }
    proof {
        assert(distance_list@.take(total as int) =~= distance_list@);
    }
    Estimate { inside: valid, total }
}

} // verus!
