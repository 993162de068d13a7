//! Balanced partition of a sample budget over buckets.
//!
//! A budget of `total` samples is dealt over `buckets` buckets: every bucket
//! gets the quotient `total / buckets`, the first `total % buckets` buckets get
//! one more, and buckets that end up empty are dropped. What is left is the
//! plan: one entry per worker.

use vstd::prelude::*;
use vstd::arithmetic::div_mod::{lemma_basic_div, lemma_fundamental_div_mod, lemma_small_mod};
use vstd::arithmetic::mul::lemma_mul_is_commutative;

verus! {

/// What bucket `i` holds once `total` samples are dealt over `buckets` buckets,
/// before empty buckets are dropped.
pub open spec fn share(total: nat, buckets: nat, i: int) -> nat
    recommends
        buckets > 0,
        0 <= i < buckets,
{
    if i < total % buckets {
        total / buckets + 1
    } else {
        total / buckets
    }
}

/// The number of buckets that are not empty: the smaller of the two arguments.
pub open spec fn plan_len(total: nat, buckets: nat) -> nat {
    if total < buckets {
        total
    } else {
        buckets
    }
}

/// The plan for `total` samples and `buckets` buckets: the shares of the
/// non-empty buckets, in bucket order.
pub open spec fn balanced_plan(total: nat, buckets: nat) -> Seq<nat>
    recommends
        buckets > 0,
{
    Seq::new(plan_len(total, buckets), |i: int| share(total, buckets, i))
}

/// The sum of a plan's entries.
pub open spec fn plan_total(plan: Seq<nat>) -> nat
    decreases plan.len(),
{
    if plan.len() == 0 {
        0
    } else {
        plan_total(plan.drop_last()) + plan.last()
    }
}

/// A plan held in machine integers, read as a sequence of naturals.
pub open spec fn widths(plan: Seq<usize>) -> Seq<nat> {
    plan.map_values(|w: usize| w as nat)
}

/// `plan` is, entry for entry, the plan for `total` samples and `buckets`
/// buckets.
pub open spec fn is_plan_for(plan: Seq<usize>, total: nat, buckets: nat) -> bool {
    &&& plan.len() == plan_len(total, buckets)
    &&& forall|i: int| 0 <= i < plan.len() ==> plan[i] == share(total, buckets, i)
}

/// No two entries differ by more than one.
pub open spec fn is_balanced(plan: Seq<nat>) -> bool {
    forall|i: int, j: int| 0 <= i < plan.len() && 0 <= j < plan.len() ==> plan[i] <= plan[j] + 1
}

/// No entry is zero.
pub open spec fn is_positive(plan: Seq<nat>) -> bool {
    forall|i: int| 0 <= i < plan.len() ==> plan[i] >= 1
}

/// Later entries are never larger than earlier ones.
pub open spec fn is_non_increasing(plan: Seq<nat>) -> bool {
    forall|i: int, j: int| 0 <= i <= j < plan.len() ==> plan[i] >= plan[j]
}

/// The first `count` shares, empty buckets included. With `count == buckets`
/// this is the whole deal.
pub open spec fn dealt(total: nat, buckets: nat, count: nat) -> Seq<nat> {
    Seq::new(count, |i: int| share(total, buckets, i))
}

spec fn at_most(a: nat, b: nat) -> nat {
    if a < b {
        a
    } else {
        b
    }
}

/// The first `count` shares add up to `count` quotients plus one for each
/// bucket among them that took part of the remainder.
proof fn lemma_dealt_total(total: nat, buckets: nat, count: nat)
    requires
        buckets > 0,
    ensures
        plan_total(dealt(total, buckets, count)) == count * (total / buckets) + at_most(
            count,
            total % buckets,
        ),
    decreases count,
{
    let q = total / buckets;
    if count == 0 {
        assert(0 * q == 0) by (nonlinear_arith);
    } else {
        let before = (count - 1) as nat;
        lemma_dealt_total(total, buckets, before);
        assert(dealt(total, buckets, count).drop_last() =~= dealt(total, buckets, before));
        assert(count * q == before * q + q) by (nonlinear_arith)
            requires
                count == before + 1,
        ;
    }
}

/// No sample is lost or invented: the entries of a plan add up to the budget.
pub proof fn lemma_plan_total(total: nat, buckets: nat)
    requires
        buckets > 0,
    ensures
        plan_total(balanced_plan(total, buckets)) == total,
{
    let q = total / buckets;
    let len = plan_len(total, buckets);
    lemma_dealt_total(total, buckets, len);
    if total < buckets {
        lemma_basic_div(total as int, buckets as int);
        lemma_small_mod(total, buckets);
        assert(total * 0 == 0) by (nonlinear_arith);
    } else {
        lemma_fundamental_div_mod(total as int, buckets as int);
        lemma_mul_is_commutative(buckets as int, q as int);
    }
}

/// The shape of a plan: as many entries as the smaller of budget and bucket
/// count, none of them zero, no two more than one apart, the larger ones first.
pub proof fn lemma_plan_shape(total: nat, buckets: nat)
    requires
        buckets > 0,
    ensures
        balanced_plan(total, buckets).len() == plan_len(total, buckets),
        is_positive(balanced_plan(total, buckets)),
        is_balanced(balanced_plan(total, buckets)),
        is_non_increasing(balanced_plan(total, buckets)),
{
    if total < buckets {
        lemma_small_mod(total, buckets);
    } else {
        lemma_fundamental_div_mod(total as int, buckets as int);
        let q = total / buckets;
        assert(q >= 1) by (nonlinear_arith)
            requires
                total == buckets * q + total % buckets,
                total % buckets < buckets,
                total >= buckets,
                buckets > 0,
        ;
    }
}

/// The plans at the edges: one bucket takes the whole budget, more buckets
/// than samples make one bucket of one sample for each sample, and a bucket
/// count that divides the budget makes equal buckets.
pub proof fn lemma_plan_edges(total: nat, buckets: nat)
    requires
        buckets > 0,
    ensures
        buckets == 1 && total > 0 ==> balanced_plan(total, buckets) == seq![total],
        total < buckets ==> balanced_plan(total, buckets) == Seq::new(total, |i: int| 1nat),
        total % buckets == 0 ==> balanced_plan(total, buckets) == Seq::new(
            plan_len(total, buckets),
            |i: int| total / buckets,
        ),
{
    if total < buckets {
        lemma_basic_div(total as int, buckets as int);
        lemma_small_mod(total, buckets);
    }
    if total % buckets == 0 {
        assert(balanced_plan(total, buckets) =~= Seq::new(
            plan_len(total, buckets),
            |i: int| total / buckets,
        ));
    }
}

/// Dropping the empty buckets from the full deal leaves exactly the plan.
pub proof fn lemma_plan_drops_empty_buckets(total: nat, buckets: nat)
    requires
        buckets > 0,
    ensures
        dealt(total, buckets, buckets).filter(|w: nat| w > 0) == balanced_plan(total, buckets),
{
    lemma_filter_dealt(total, buckets, buckets);
}

/// Filtering the first `count` shares keeps the first `min(count, total)`
/// of them when the budget is short of the bucket count, and all of them
/// otherwise.
proof fn lemma_filter_dealt(total: nat, buckets: nat, count: nat)
    requires
        buckets > 0,
        count <= buckets,
    ensures
        dealt(total, buckets, count).filter(|w: nat| w > 0) == dealt(
            total,
            buckets,
            if total < buckets {
                at_most(count, total)
            } else {
                count
            },
        ),
    decreases count,
{
    reveal(Seq::filter);
    if count > 0 {
        let before = (count - 1) as nat;
        lemma_filter_dealt(total, buckets, before);
        lemma_plan_shape(total, buckets);
        assert(dealt(total, buckets, count).drop_last() =~= dealt(total, buckets, before));
        if total < buckets {
            // The quotient is zero: a share is one below `total` and zero from there on.
            lemma_basic_div(total as int, buckets as int);
            lemma_small_mod(total, buckets);
        } else {
            // Every share is at least the quotient, which is at least one.
            assert(balanced_plan(total, buckets)[count - 1] >= 1);
        }
    }
}

/// Deals `num` samples over `thread` buckets and returns the plan: the share
/// of each bucket that is not empty, larger shares first.
///
/// Every bucket gets `num / thread`, the first `num % thread` buckets get one
/// more, and the buckets left with nothing are dropped. The plan is empty
/// exactly when `num` is zero.
pub fn calc_window_size(num: usize, thread: usize) -> (plan: Vec<usize>)
    requires
        thread >= 1,
    ensures
        is_plan_for(plan@, num as nat, thread as nat),
        widths(plan@) == balanced_plan(num as nat, thread as nat),
        widths(plan@) == dealt(num as nat, thread as nat, thread as nat).filter(|w: nat| w > 0),
        plan@.len() == plan_len(num as nat, thread as nat),
        plan_total(widths(plan@)) == num,
        is_positive(widths(plan@)),
        is_balanced(widths(plan@)),
        is_non_increasing(widths(plan@)),
{
    let base: usize = num / thread;
    let extra: usize = num % thread;
    let len: usize = if num < thread {
        num
    } else {
        thread
    };
    proof {
        lemma_fundamental_div_mod(num as int, thread as int);
        lemma_mul_is_commutative(thread as int, base as int);
        assert(base <= base * thread) by (nonlinear_arith)
            requires
                thread >= 1,
        ;
    }
    let mut plan: Vec<usize> = Vec::new();
    let mut i: usize = 0;
    while i < len
        invariant
            i <= len,
            base == num / thread,
            extra == num % thread,
            thread >= 1,
            extra > 0 ==> base < usize::MAX,
            plan@.len() == i,
            forall|j: int| 0 <= j < i ==> plan@[j] == share(num as nat, thread as nat, j),
        decreases len - i,
    {
        let width: usize = if i < extra {
            base + 1
        } else {
            base
        };
        plan.push(width);
        i += 1;
    }
    proof {
        lemma_plan_total(num as nat, thread as nat);
        lemma_plan_shape(num as nat, thread as nat);
        lemma_plan_drops_empty_buckets(num as nat, thread as nat);
    }
    plan
}

} // verus!
