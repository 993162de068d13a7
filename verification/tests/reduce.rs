use montecarlo_pi::estimate::{calculate_pi, Estimate};
use montecarlo_pi::partition::calc_window_size;
use montecarlo_pi::reduce::{ReduceError, Reduction};

fn batch(distances: &[f64]) -> Vec<u64> {
    distances.iter().map(|d| d.to_bits()).collect()
}

#[test]
fn batches_are_joined_into_one_estimate() {
    let reduction = Reduction::new()
        .absorb(Some(batch(&[0.5, 1.2])))
        .absorb(Some(batch(&[0.7])))
        .absorb(Some(batch(&[1.0])));
    assert_eq!(reduction.finish(), Ok(Estimate { inside: 3, total: 4 }));
}

#[test]
fn joined_estimate_equals_the_estimate_of_all_distances() {
    let all = [0.3, 1.1, 0.9, 1.4, 1.0, 0.2, 1.3, 0.5, 1.01];
    let reduction = Reduction::new()
        .absorb(Some(batch(&all[0..4])))
        .absorb(Some(batch(&all[4..5])))
        .absorb(Some(batch(&all[5..9])));
    assert_eq!(reduction.finish(), Ok(calculate_pi(&batch(&all))));
}

#[test]
fn completion_order_does_not_change_the_estimate() {
    let batches = [batch(&[0.5, 1.2, 0.1]), batch(&[0.7, 1.3]), batch(&[1.0]), batch(&[1.4, 1.4])];
    let orders: [[usize; 4]; 5] =
        [[0, 1, 2, 3], [3, 2, 1, 0], [1, 0, 3, 2], [2, 3, 0, 1], [1, 3, 0, 2]];
    for order in orders {
        let mut reduction = Reduction::new();
        for index in order {
            reduction = reduction.absorb(Some(batches[index].clone()));
        }
        assert_eq!(reduction.finish(), Ok(Estimate { inside: 4, total: 8 }), "{:?}", order);
    }
}

#[test]
fn lost_worker_fails_the_run() {
    let reduction = Reduction::new().absorb(Some(batch(&[0.5]))).absorb(None);
    assert_eq!(reduction.finish(), Err(ReduceError::WorkerLost));
}

#[test]
fn loss_is_not_forgotten() {
    let reduction = Reduction::new()
        .absorb(None)
        .absorb(Some(batch(&[0.5, 0.6])))
        .absorb(Some(batch(&[0.7])));
    assert_eq!(reduction.finish(), Err(ReduceError::WorkerLost));
}

#[test]
fn nothing_absorbed_gives_no_estimate() {
    assert_eq!(Reduction::new().finish(), Err(ReduceError::NoSamples));
}

#[test]
fn empty_batches_give_no_estimate() {
    let reduction = Reduction::new().absorb(Some(Vec::new())).absorb(Some(Vec::new()));
    assert_eq!(reduction.finish(), Err(ReduceError::NoSamples));
}

#[test]
fn batches_sized_by_the_plan_cover_the_budget() {
    for (num, workers) in [(10usize, 3usize), (7, 7), (3, 10), (1000, 16)] {
        let plan = calc_window_size(num, workers);
        let mut reduction = Reduction::new();
        for size in plan.iter().rev() {
            reduction = reduction.absorb(Some(vec![0.5f64.to_bits(); *size]));
        }
        assert_eq!(reduction.finish(), Ok(Estimate { inside: num, total: num }));
    }
}
