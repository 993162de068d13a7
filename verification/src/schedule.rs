//! How a parallel run is laid out: how many buckets the budget is dealt over,
//! how many threads the worker pool gets, and which arguments are turned away.
//!
//! A window size, where one is given, is the wanted size of a bucket and alone
//! decides the number of buckets; the job count then only sizes the pool.
//! Without a window size the run takes one bucket per logical CPU of the host.

use vstd::prelude::*;
use vstd::arithmetic::div_mod::{lemma_basic_div, lemma_fundamental_div_mod, lemma_small_mod};
use crate::partition::{
    balanced_plan, calc_window_size, is_balanced, is_non_increasing, is_plan_for, is_positive,
    plan_total, share, widths,
};

verus! {

/// Why a run is turned away before any sample is drawn.
#[derive(Clone, Copy, Debug, PartialEq, Eq, Structural)]
pub enum ArgumentError {
    /// The sample budget is zero.
    NoSamples,
    /// The job count is zero.
    NoJobs,
}

/// The quotient of `a` by `b`, rounded up.
pub open spec fn ceil_div(a: nat, b: nat) -> nat
    recommends
        b > 0,
{
    if a % b == 0 {
        a / b
    } else {
        a / b + 1
    }
}

/// The number of buckets a parallel run deals `num` samples over.
///
/// With a window size it is the number of windows needed to cover the budget,
/// and one where the budget is zero; `cpus` is not looked at. With `window`
/// zero it is `cpus`, and one where `cpus` is zero.
pub open spec fn bucket_count(num: nat, window: nat, cpus: nat) -> nat {
    let wanted = if window > 0 {
        ceil_div(num, window)
    } else {
        cpus
    };
    if wanted == 0 {
        1
    } else {
        wanted
    }
}

/// The plan of a parallel run.
pub open spec fn parallel_plan(num: nat, window: nat, cpus: nat) -> Seq<nat> {
    balanced_plan(num, bucket_count(num, window, cpus))
}

/// The size of the worker pool: the job count where one is given, else the
/// host's CPU count, and one where that is zero.
pub open spec fn pool_size(jobs: Option<u16>, cpus: nat) -> nat {
    match jobs {
        Some(j) => j as nat,
        None => if cpus == 0 {
            1
        } else {
            cpus
        },
    }
}

/// Enough windows cover the budget: `ceil_div(num, window)` windows of size
/// `window` hold at least `num` samples, and one window fewer would not.
pub proof fn lemma_ceil_div_covers(num: nat, window: nat)
    requires
        window > 0,
    ensures
        num <= ceil_div(num, window) * window,
        num > 0 ==> (ceil_div(num, window) - 1) * window < num,
{
    let q = num / window;
    lemma_fundamental_div_mod(num as int, window as int);
    assert(window * q == q * window) by (nonlinear_arith);
    assert((q + 1) * window == q * window + window) by (nonlinear_arith);
    assert((q - 1) * window == q * window - window) by (nonlinear_arith);
}

/// With a window size no bucket is larger than the window, and a budget that
/// fits in one window makes one bucket.
pub proof fn lemma_windows_fit(num: nat, window: nat, cpus: nat)
    requires
        window > 0,
    ensures
        forall|i: int|
            0 <= i < parallel_plan(num, window, cpus).len() ==> #[trigger] parallel_plan(
                num,
                window,
                cpus,
            )[i] <= window,
        0 < num <= window ==> parallel_plan(num, window, cpus) == seq![num],
{
    let k = bucket_count(num, window, cpus);
    let q = num / k;
    let r = num % k;
    lemma_ceil_div_covers(num, window);
    lemma_fundamental_div_mod(num as int, k as int);
    assert(num <= k * window) by (nonlinear_arith)
        requires
            num <= ceil_div(num, window) * window,
            k >= ceil_div(num, window),
            window > 0,
    ;
    // The quotient by `k` is at most the window, and below it where a
    // remainder is left: no share is larger than the window.
    assert(q <= window && (r > 0 ==> q < window)) by (nonlinear_arith)
        requires
            num == k * q + r,
            num <= k * window,
            0 <= r,
            k >= 1,
    ;
    if 0 < num <= window {
        if num == window {
            assert(num % window == 0 && num / window == 1) by (nonlinear_arith)
                requires
                    num == window,
                    window > 0,
            ;
        } else {
            lemma_basic_div(num as int, window as int);
            lemma_small_mod(num, window);
        }
    }
}

/// Computes the number of buckets of a parallel run.
pub fn window_count(num: usize, window: usize, cpus: usize) -> (count: usize)
    ensures
        count == bucket_count(num as nat, window as nat, cpus as nat),
        count >= 1,
{
    let wanted: usize = if window > 0 {
        let whole: usize = num / window;
        if num % window == 0 {
            whole
        } else {
            proof {
                lemma_fundamental_div_mod(num as int, window as int);
                assert(whole < num) by (nonlinear_arith)
                    requires
                        num == window * whole + num % window,
                        num % window > 0,
                        window > 0,
                ;
            }
            whole + 1
        }
    } else {
        cpus
    };
    if wanted == 0 {
        1
    } else {
        wanted
    }
}

/// Lays out a parallel run of `num` samples: one entry per worker, saying how
/// many samples that worker draws.
///
/// `window` is the wanted bucket size, zero for none; `cpus` is the host's CPU
/// count and only matters where `window` is zero.
pub fn parallel_windows(num: usize, window: usize, cpus: usize) -> (plan: Vec<usize>)
    ensures
        is_plan_for(plan@, num as nat, bucket_count(num as nat, window as nat, cpus as nat)),
        widths(plan@) == parallel_plan(num as nat, window as nat, cpus as nat),
        plan_total(widths(plan@)) == num,
        is_positive(widths(plan@)),
        is_balanced(widths(plan@)),
        is_non_increasing(widths(plan@)),
        window > 0 ==> forall|i: int| 0 <= i < plan@.len() ==> plan@[i] <= window,
        window > 0 && 0 < num <= window ==> plan@ == seq![num],
{
    let count = window_count(num, window, cpus);
    let plan = calc_window_size(num, count);
    proof {
        if window > 0 {
            lemma_windows_fit(num as nat, window as nat, cpus as nat);
            assert forall|i: int| 0 <= i < plan@.len() implies plan@[i] <= window by {
                assert(parallel_plan(num as nat, window as nat, cpus as nat)[i] <= window);
            }
        }
    }
    plan
}

/// Tells whether a run may start with this sample budget: it may unless the
/// budget is zero.
pub fn check_samples(num: usize) -> (checked: Result<(), ArgumentError>)
    ensures
        match checked {
            Ok(_) => num > 0,
            Err(e) => num == 0 && e == ArgumentError::NoSamples,
        },
{
    if num == 0 {
        Err(ArgumentError::NoSamples)
    } else {
        Ok(())
    }
}

/// Sizes the worker pool from the job count asked for and the host's CPU
/// count. A job count of zero is turned away; no other input is.
pub fn worker_threads(jobs: Option<u16>, cpus: usize) -> (threads: Result<usize, ArgumentError>)
    ensures
        match threads {
            Ok(t) => jobs != Some(0u16) && t == pool_size(jobs, cpus as nat) && t >= 1,
            Err(e) => jobs == Some(0u16) && e == ArgumentError::NoJobs,
        },
{
    match jobs {
        Some(j) => {
            if j == 0 {
                Err(ArgumentError::NoJobs)
            } else {
                Ok(j as usize)
            }
        },
        None => {
            if cpus == 0 {
                Ok(1)
            } else {
                Ok(cpus)
            }
        },
    }
}

/// The number of logical CPUs that `num_cpus::get` reports for this host.
///
/// Not proved: the contract repeats what that function documents, that it
/// always returns at least one. Which number comes back depends on the
/// machine, its scheduler affinity and its control groups, so nothing more is
/// said of it.
#[verifier::external_body]
fn host_cpus() -> (cpus: usize)
    ensures
        cpus >= 1,
{
    num_cpus::get()
}

/// Lays out a parallel run on this host: as [`parallel_windows`], with the
/// host's CPU count looked up where `window` is zero.
///
/// With a window size the plan is fixed by the arguments. Without one it is
/// the balanced plan for some positive CPU count, whichever the host reports.
pub fn host_windows(num: usize, window: usize) -> (plan: Vec<usize>)
    ensures
        window > 0 ==> is_plan_for(plan@, num as nat, bucket_count(num as nat, window as nat, 0)),
        window == 0 ==> exists|cpus: nat| cpus >= 1 && #[trigger] is_plan_for(plan@, num as nat, cpus),
        plan_total(widths(plan@)) == num,
        is_positive(widths(plan@)),
        is_balanced(widths(plan@)),
        is_non_increasing(widths(plan@)),
        plan@.len() <= num,
        window > 0 ==> forall|i: int| 0 <= i < plan@.len() ==> plan@[i] <= window,
        window > 0 && 0 < num <= window ==> plan@ == seq![num],
{
    if window == 0 {
        let cpus = host_cpus();
        parallel_windows(num, 0, cpus)
    } else {
        parallel_windows(num, window, 0)
    }
}

/// Sizes the worker pool on this host: as [`worker_threads`], with the host's
/// CPU count looked up where no job count is given.
pub fn host_worker_threads(jobs: Option<u16>) -> (threads: Result<usize, ArgumentError>)
    ensures
        match threads {
            Ok(t) => match jobs {
                Some(j) => j > 0 && t == j,
                None => t >= 1,
            },
            Err(e) => jobs == Some(0u16) && e == ArgumentError::NoJobs,
        },
{
    match jobs {
        Some(_) => worker_threads(jobs, 0),
        None => worker_threads(jobs, host_cpus()),
    }
}

} // verus!
