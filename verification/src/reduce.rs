//! The reduction of a parallel run: the batches of distances that the workers
//! hand back are laid end to end, in the order in which the workers finish,
//! and the estimate is made from all of them at once.
//!
//! A worker that is lost fails the whole run: no estimate is made from part
//! of the budget.

use vstd::prelude::*;
use vstd::seq_lib::{lemma_flatten_concat, lemma_multiset_commutative};
use crate::estimate::{calculate_pi, estimate_of, lemma_estimate_ignores_order, Estimate};
use crate::partition::{balanced_plan, lemma_plan_total, plan_total};
use crate::rearrange::{lemma_both_empty, lemma_take_out_last};

verus! {

/// Why a reduction ends without an estimate.
#[derive(Clone, Copy, Debug, PartialEq, Eq, Structural)]
pub enum ReduceError {
    /// A worker did not hand back its batch.
    WorkerLost,
    /// Every worker handed back its batch, and there is no distance in any.
    NoSamples,
}

/// The lengths of the batches, batch by batch.
pub open spec fn batch_lengths(batches: Seq<Seq<u64>>) -> Seq<nat> {
    batches.map_values(|batch: Seq<u64>| batch.len())
}

/// Taking one batch out takes its distances out of the whole.
proof fn lemma_flatten_remove(batches: Seq<Seq<u64>>, i: int)
    requires
        0 <= i < batches.len(),
    ensures
        batches.flatten().to_multiset() == batches.remove(i).flatten().to_multiset().add(
            batches[i].to_multiset(),
        ),
{
    let head = batches.subrange(0, i);
    let tail = batches.subrange(i + 1, batches.len() as int);
    let one = seq![batches[i]];
    assert(batches =~= (head + one) + tail);
    lemma_flatten_concat(head + one, tail);
    lemma_flatten_concat(head, one);
    lemma_flatten_concat(head, tail);
    one.lemma_flatten_one_element();
    lemma_multiset_commutative(head.flatten() + batches[i], tail.flatten());
    lemma_multiset_commutative(head.flatten(), batches[i]);
    lemma_multiset_commutative(head.flatten(), tail.flatten());
    assert(batches.flatten().to_multiset() =~= batches.remove(i).flatten().to_multiset().add(
        batches[i].to_multiset(),
    ));
}

/// The order in which the workers finish does not matter: the same batches,
/// joined in another order, hold the same distances and give the same
/// estimate.
pub proof fn lemma_join_ignores_order(x: Seq<Seq<u64>>, y: Seq<Seq<u64>>)
    requires
        x.to_multiset() == y.to_multiset(),
    ensures
        x.flatten().to_multiset() == y.flatten().to_multiset(),
        estimate_of(x.flatten()) == estimate_of(y.flatten()),
    decreases x.len(),
{
    if x.len() == 0 {
        lemma_both_empty(x, y);
    } else {
        let i = lemma_take_out_last(x, y);
        lemma_join_ignores_order(x.drop_last(), y.remove(i));
        x.drop_last().lemma_flatten_push(x.last());
        assert(x.drop_last().push(x.last()) =~= x);
        lemma_multiset_commutative(x.drop_last().flatten(), x.last());
        lemma_flatten_remove(y, i);
    }
    lemma_estimate_ignores_order(x.flatten(), y.flatten());
}

/// The batches joined are as long as the batches together.
pub proof fn lemma_join_length(batches: Seq<Seq<u64>>)
    ensures
        batches.flatten().len() == plan_total(batch_lengths(batches)),
    decreases batches.len(),
{
    if batches.len() > 0 {
        let init = batches.drop_last();
        lemma_join_length(init);
        assert(batches =~= init.push(batches.last()));
        init.lemma_flatten_push(batches.last());
        assert(batch_lengths(batches).drop_last() =~= batch_lengths(init));
    }
}

/// Taking one entry out of a plan lowers its total by that entry.
proof fn lemma_plan_total_remove(plan: Seq<nat>, i: int)
    requires
        0 <= i < plan.len(),
    ensures
        plan_total(plan) == plan_total(plan.remove(i)) + plan[i],
    decreases plan.len(),
{
    if i < plan.len() - 1 {
        lemma_plan_total_remove(plan.drop_last(), i);
        assert(plan.remove(i).drop_last() =~= plan.drop_last().remove(i));
    }
}

/// A plan's total does not depend on the order of its entries.
pub proof fn lemma_plan_total_ignores_order(p: Seq<nat>, q: Seq<nat>)
    requires
        p.to_multiset() == q.to_multiset(),
    ensures
        plan_total(p) == plan_total(q),
    decreases p.len(),
{
    if p.len() == 0 {
        lemma_both_empty(p, q);
    } else {
        let i = lemma_take_out_last(p, q);
        lemma_plan_total_ignores_order(p.drop_last(), q.remove(i));
        lemma_plan_total_remove(q, i);
    }
}

/// Where every worker hands back a batch as long as its plan entry, in
/// whatever order the workers finish, the batches joined hold as many
/// distances as the plan has samples.
pub proof fn lemma_join_covers_plan(batches: Seq<Seq<u64>>, plan: Seq<nat>)
    requires
        batch_lengths(batches).to_multiset() == plan.to_multiset(),
    ensures
        batches.flatten().len() == plan_total(plan),
{
    lemma_join_length(batches);
    lemma_plan_total_ignores_order(batch_lengths(batches), plan);
}

/// A parallel run counts its whole budget: where the batches are as long as
/// the entries of the balanced plan, in whatever order the workers finish,
/// the batches joined hold exactly `num` distances, as a serial run of `num`
/// samples does.
pub proof fn lemma_join_covers_budget(batches: Seq<Seq<u64>>, num: nat, buckets: nat)
    requires
        buckets > 0,
        batch_lengths(batches).to_multiset() == balanced_plan(num, buckets).to_multiset(),
    ensures
        batches.flatten().len() == num,
        estimate_of(batches.flatten()).denominator == num,
{
    lemma_join_covers_plan(batches, balanced_plan(num, buckets));
    lemma_plan_total(num, buckets);
}

/// The state of a reduction: what the workers that have finished handed back.
pub struct Reduction {
    distances: Vec<u64>,
    lost: bool,
    batches: Ghost<Seq<Seq<u64>>>,
}

impl Reduction {
    #[verifier::type_invariant]
    spec fn joined(self) -> bool {
        self.distances@ == self.batches@.flatten()
    }

    /// The batches absorbed so far, in the order in which they came.
    pub closed spec fn batches(self) -> Seq<Seq<u64>> {
        self.batches@
    }

    /// Whether a worker was lost.
    pub closed spec fn worker_lost(self) -> bool {
        self.lost
    }

    /// The distances absorbed so far: the batches laid end to end.
    pub open spec fn distances(self) -> Seq<u64> {
        self.batches().flatten()
    }

    /// Starts a reduction: nothing absorbed, no worker lost.
    pub fn new() -> (reduction: Reduction)
        ensures
            reduction.batches() == Seq::<Seq<u64>>::empty(),
            !reduction.worker_lost(),
    {
        Reduction { distances: Vec::new(), lost: false, batches: Ghost(Seq::empty()) }
    }

    /// Takes in what one worker handed back: its batch, or `None` where the
    /// worker was lost. A batch is added behind those that came before; a
    /// loss is remembered and never forgotten.
    pub fn absorb(self, outcome: Option<Vec<u64>>) -> (next: Reduction)
        ensures
            match outcome {
                Some(batch) => next.batches() == self.batches().push(batch@) && next.worker_lost()
                    == self.worker_lost(),
                None => next.batches() == self.batches() && next.worker_lost(),
            },
    {
        proof {
            use_type_invariant(&self);
        }
        let Reduction { mut distances, lost, batches } = self;
        match outcome {
            Some(mut batch) => {
                proof {
                    batches@.lemma_flatten_push(batch@);
                }
                let ghost joined = batches@.push(batch@);
                distances.append(&mut batch);
                Reduction { distances, lost, batches: Ghost(joined) }
            },
            None => Reduction { distances, lost: true, batches },
        }
    }

    /// Ends the reduction. The estimate is made from all distances absorbed,
    /// unless a worker was lost or no distance came at all.
    pub fn finish(self) -> (outcome: Result<Estimate, ReduceError>)
        ensures
            match outcome {
                Ok(estimate) => !self.worker_lost() && self.distances().len() > 0 && estimate@
                    == estimate_of(self.distances()) && estimate.is_valid(),
                Err(ReduceError::WorkerLost) => self.worker_lost(),
                Err(ReduceError::NoSamples) => !self.worker_lost() && self.distances().len() == 0,
            },
    {
        proof {
            use_type_invariant(&self);
        }
        if self.lost {
            Err(ReduceError::WorkerLost)
        } else if self.distances.len() == 0 {
            Err(ReduceError::NoSamples)
        } else {
            Ok(calculate_pi(self.distances.as_slice()))
        }
    }
}

} // verus!
