use neuronav::data::retrieve::batch::{
    scrape_layer_to_files, BatchSchedule, BatchTally, ItemOutcome, PermitPool, Progress, Step,
    DEFAULT_PERMITS,
};
use neuronav::failure::Failure;

fn failed(neuron_index: u32) -> ItemOutcome {
    ItemOutcome::Failed {
        neuron_index,
        failure: Failure::IOError { path: format!("p{}", neuron_index) },
    }
}

fn most_in_flight(capacity: u32, tasks: u32) -> u32 {
    let mut pool = PermitPool::new(capacity);
    let mut started = 0;
    let mut ended = 0;
    let mut most = 0;
    let mut step = 0u32;
    while ended < tasks {
        step += 1;
        let may_start = started < tasks && (pool.tasks_in_flight() == 0 || step % 3 != 0);
        if may_start && pool.try_acquire() {
            started += 1;
        } else {
            assert!(pool.release());
            ended += 1;
        }
        assert_eq!(pool.tasks_in_flight(), started - ended);
        most = most.max(pool.tasks_in_flight());
    }
    assert_eq!(pool.tasks_in_flight(), 0);
    most
}

#[test]
fn the_default_pool_has_twenty_permits() {
    assert_eq!(DEFAULT_PERMITS, 20);
}

#[test]
fn no_more_tasks_are_in_flight_than_there_are_permits() {
    for capacity in [1u32, 5, 20] {
        let most = most_in_flight(capacity, 200);
        assert!(most <= capacity);
        assert_eq!(most, capacity);
    }
}

#[test]
fn a_full_pool_grants_nothing() {
    let mut pool = PermitPool::new(2);
    assert!(pool.try_acquire());
    assert!(pool.try_acquire());
    assert!(!pool.try_acquire());
    assert_eq!(pool.tasks_in_flight(), 2);
    assert!(pool.release());
    assert!(pool.try_acquire());
}

#[test]
fn an_idle_pool_has_nothing_to_take_back() {
    let mut pool = PermitPool::new(3);
    assert!(!pool.release());
    assert_eq!(pool.tasks_in_flight(), 0);
}

#[test]
fn a_pool_without_permits_never_grants() {
    let mut pool = PermitPool::new(0);
    assert!(!pool.try_acquire());
}

#[test]
fn the_tally_reports_progress() {
    let mut tally = BatchTally::new(3);
    assert_eq!(tally.record(ItemOutcome::Completed), Some(Progress { completed: 1, total: 3 }));
    assert_eq!(tally.record(ItemOutcome::Completed), Some(Progress { completed: 2, total: 3 }));
    assert_eq!(tally.record(ItemOutcome::Completed), Some(Progress { completed: 3, total: 3 }));
    assert_eq!(tally.finish(), Ok(()));
}

#[test]
fn the_tally_stops_at_the_first_failure() {
    let mut tally = BatchTally::new(3);
    assert!(tally.record(ItemOutcome::Completed).is_some());
    assert_eq!(tally.record(failed(1)), None);
    assert_eq!(tally.record(ItemOutcome::Completed), None);
    assert_eq!(tally.record(failed(2)), None);
    assert_eq!(tally.finish(), Err(Failure::IOError { path: "p1".to_string() }));
}

#[test]
fn a_complete_batch_succeeds() {
    let outcomes: Vec<ItemOutcome> = (0..20).map(|_| ItemOutcome::Completed).collect();
    assert_eq!(scrape_layer_to_files(20, outcomes), Ok(()));
    assert_eq!(scrape_layer_to_files(0, Vec::new()), Ok(()));
}

#[test]
fn a_shortfall_is_a_fatal_fault() {
    let outcomes: Vec<ItemOutcome> = (0..19).map(|_| ItemOutcome::Completed).collect();
    assert_eq!(scrape_layer_to_files(20, outcomes), Err(Failure::FatalInternalFault));
}

#[test]
fn an_excess_is_a_fatal_fault() {
    let outcomes: Vec<ItemOutcome> = (0..3).map(|_| ItemOutcome::Completed).collect();
    assert_eq!(scrape_layer_to_files(2, outcomes), Err(Failure::FatalInternalFault));
}

#[test]
fn a_reported_failure_ends_the_batch() {
    let outcomes = vec![ItemOutcome::Completed, failed(7), ItemOutcome::Panicked];
    assert_eq!(scrape_layer_to_files(3, outcomes), Err(Failure::IOError { path: "p7".to_string() }));
}

#[test]
fn a_crash_in_a_batch_is_a_fatal_fault() {
    let outcomes = vec![ItemOutcome::Completed, ItemOutcome::Panicked, failed(7)];
    assert_eq!(scrape_layer_to_files(3, outcomes), Err(Failure::FatalInternalFault));
    assert_eq!(
        scrape_layer_to_files(1, vec![ItemOutcome::Cancelled]),
        Err(Failure::FatalInternalFault)
    );
}

fn run_schedule(total: u32, permits: u32, fail_at: Option<u32>) -> (Result<(), Failure>, u32, Vec<u32>) {
    let mut schedule = BatchSchedule::new(total, permits);
    let mut running: Vec<u32> = Vec::new();
    let mut started: Vec<u32> = Vec::new();
    let mut most = 0u32;
    let mut seed = 7u32;
    loop {
        match schedule.next() {
            Step::Start { neuron_index } => {
                running.push(neuron_index);
                started.push(neuron_index);
                most = most.max(running.len() as u32);
            }
            Step::Wait => {
                assert!(!running.is_empty());
                seed = seed.wrapping_mul(1103515245).wrapping_add(12345);
                let ended = running.remove((seed >> 16) as usize % running.len());
                let outcome = if fail_at == Some(ended) { failed(ended) } else { ItemOutcome::Completed };
                let progress = schedule.task_ended(outcome);
                assert_eq!(progress.is_none(), fail_at == Some(ended));
            }
            Step::Stop => break,
        }
    }
    (schedule.finish(), most, started)
}

#[test]
fn a_schedule_starts_every_task_once_and_in_order() {
    for permits in [1u32, 5, 20] {
        let (result, _, started) = run_schedule(57, permits, None);
        assert_eq!(result, Ok(()));
        assert_eq!(started, (0..57).collect::<Vec<u32>>());
    }
}

#[test]
fn a_schedule_keeps_the_tasks_in_flight_within_its_permits() {
    for permits in [1u32, 5, 20] {
        let (_, most, _) = run_schedule(200, permits, None);
        assert_eq!(most, permits);
    }
    let (result, most, _) = run_schedule(3, 20, None);
    assert_eq!(result, Ok(()));
    assert_eq!(most, 3);
}

#[test]
fn a_schedule_stops_at_the_first_failure() {
    let (result, _, started) = run_schedule(100, 5, Some(10));
    assert_eq!(result, Err(Failure::IOError { path: "p10".to_string() }));
    assert!(started.len() < 100);
    assert!(started.contains(&10));
}

#[test]
fn an_empty_schedule_stops_at_once() {
    let mut schedule = BatchSchedule::new(0, 20);
    assert_eq!(schedule.next(), Step::Stop);
    assert_eq!(schedule.finish(), Ok(()));
}

#[test]
fn a_schedule_without_permits_is_a_fatal_fault() {
    let mut schedule = BatchSchedule::new(3, 0);
    assert_eq!(schedule.next(), Step::Stop);
    assert_eq!(schedule.finish(), Err(Failure::FatalInternalFault));
}

#[test]
fn the_tally_knows_its_total_and_its_failures() {
    let mut tally = BatchTally::new(4);
    assert_eq!(tally.total(), 4);
    assert!(!tally.failed());
    tally.record(ItemOutcome::Panicked);
    assert!(tally.failed());
}
