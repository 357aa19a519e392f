use monte_pi::pool::max_elapsed_nanos;
use monte_pi::pool::report_order;
use monte_pi::pool::worker_name;
use monte_pi::pool::WorkerResult;

fn result_with_elapsed(i: usize, elapsed_nanos: u64) -> WorkerResult {
    WorkerResult { name: worker_name(i), inside: 1, iterations: 2, elapsed_nanos }
}

#[test]
fn worker_names_follow_index() {
    assert_eq!(worker_name(0), "worker0");
    assert_eq!(worker_name(7), "worker7");
    assert_eq!(worker_name(10), "worker10");
    assert_eq!(worker_name(42), "worker42");
    assert_eq!(worker_name(100), "worker100");
}

#[test]
fn report_order_is_start_order() {
    let started = vec![true, true, true, true, true];
    assert_eq!(report_order(&started), vec![0, 1, 2, 3, 4]);
}

#[test]
fn report_order_skips_failed_spawn() {
    let started = vec![true, true, false, true, true];
    assert_eq!(report_order(&started), vec![0, 1, 3, 4]);
}

#[test]
fn report_order_of_empty_pool() {
    let started: Vec<bool> = vec![];
    assert_eq!(report_order(&started), Vec::<usize>::new());
}

#[test]
fn report_order_with_nothing_started() {
    let started = vec![false, false, false];
    assert_eq!(report_order(&started), Vec::<usize>::new());
}

#[test]
fn max_elapsed_picks_slowest_worker() {
    let results = vec![
        result_with_elapsed(0, 5_000),
        result_with_elapsed(1, 9_000),
        result_with_elapsed(2, 3_000),
    ];
    assert_eq!(max_elapsed_nanos(&results), 9_000);
}

#[test]
fn max_elapsed_of_no_results_is_zero() {
    assert_eq!(max_elapsed_nanos(&Vec::new()), 0);
}

#[test]
fn total_no_less_than_slowest_worker() {
    // A concurrent run's wall clock covers each worker's own loop, so a
    // reported total below the slowest worker would be a bookkeeping bug.
    let results = vec![
        result_with_elapsed(0, 4_000),
        result_with_elapsed(1, 11_000),
        result_with_elapsed(2, 8_500),
    ];
    let total_nanos: u64 = 11_750;
    assert!(total_nanos >= max_elapsed_nanos(&results));
}
