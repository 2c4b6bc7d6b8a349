use neuronav::data::neuron_index::NeuronIndex;
use neuronav::data::neuroscope_model_page::NeuroscopeModelPage;
use neuronav::data::retrieve::collect::{is_run_from_zero, scrape_layer, LayerCollector, TaskOutcome};
use neuronav::data::score::Score;
use neuronav::failure::Failure;

fn page(neuron: u32) -> NeuroscopeModelPage {
    NeuroscopeModelPage::new(vec![(
        NeuronIndex { layer: 0, neuron },
        Score::from_bits((neuron as f32).to_bits()),
    )])
}

fn finished(neuron_index: u32) -> TaskOutcome {
    TaskOutcome::Finished { neuron_index, page: page(neuron_index) }
}

fn failed(neuron_index: u32) -> TaskOutcome {
    TaskOutcome::Failed {
        neuron_index,
        failure: Failure::TransportError { locator: format!("u{}", neuron_index) },
    }
}

#[test]
fn a_layer_of_no_neurons_gives_no_pages() {
    assert_eq!(scrape_layer(0, Vec::new()), Ok(Vec::new()));
}

#[test]
fn pages_come_back_in_index_order() {
    let outcomes = vec![finished(2), finished(0), finished(3), finished(1)];
    assert_eq!(scrape_layer(4, outcomes), Ok(vec![page(0), page(1), page(2), page(3)]));
}

#[test]
fn every_count_gives_that_many_pages() {
    for count in 0..40u32 {
        let outcomes: Vec<TaskOutcome> = (0..count).map(|i| finished((i * 7 + 3) % count)).collect();
        let mut seen: Vec<u32> = (0..count).map(|i| (i * 7 + 3) % count).collect();
        seen.sort();
        seen.dedup();
        let result = scrape_layer(count, outcomes);
        if seen.len() == count as usize {
            let expected: Vec<NeuroscopeModelPage> = (0..count).map(page).collect();
            assert_eq!(result, Ok(expected));
        } else {
            assert_eq!(result, Err(Failure::FatalInternalFault));
        }
    }
}

#[test]
fn the_first_failure_is_the_result() {
    let outcomes = vec![finished(1), failed(2), finished(0), failed(3)];
    assert_eq!(
        scrape_layer(4, outcomes),
        Err(Failure::TransportError { locator: "u2".to_string() })
    );
}

#[test]
fn a_crashed_task_is_a_fatal_fault() {
    let outcomes = vec![finished(0), TaskOutcome::Panicked, failed(1)];
    assert_eq!(scrape_layer(3, outcomes), Err(Failure::FatalInternalFault));
}

#[test]
fn an_unasked_cancellation_is_a_fatal_fault() {
    let outcomes = vec![finished(0), TaskOutcome::Cancelled];
    assert_eq!(scrape_layer(2, outcomes), Err(Failure::FatalInternalFault));
}

#[test]
fn a_cancellation_after_a_failure_is_not_a_fault() {
    let outcomes = vec![failed(1), TaskOutcome::Cancelled, TaskOutcome::Cancelled];
    assert_eq!(
        scrape_layer(3, outcomes),
        Err(Failure::TransportError { locator: "u1".to_string() })
    );
}

#[test]
fn a_gap_is_a_fatal_fault() {
    assert_eq!(scrape_layer(3, vec![finished(0), finished(2)]), Err(Failure::FatalInternalFault));
    assert_eq!(
        scrape_layer(3, vec![finished(0), finished(1), finished(3)]),
        Err(Failure::FatalInternalFault)
    );
    assert_eq!(
        scrape_layer(3, vec![finished(1), finished(2), finished(3)]),
        Err(Failure::FatalInternalFault)
    );
}

#[test]
fn a_duplicate_is_a_fatal_fault() {
    assert_eq!(
        scrape_layer(3, vec![finished(0), finished(1), finished(1)]),
        Err(Failure::FatalInternalFault)
    );
}

#[test]
fn too_many_pages_are_a_fatal_fault() {
    assert_eq!(
        scrape_layer(2, vec![finished(0), finished(1), finished(2)]),
        Err(Failure::FatalInternalFault)
    );
}

#[test]
fn a_failure_behind_a_duplicate_is_still_the_result() {
    let outcomes = vec![finished(0), finished(0), failed(1)];
    assert_eq!(
        scrape_layer(2, outcomes),
        Err(Failure::TransportError { locator: "u1".to_string() })
    );
}

#[test]
fn the_collector_says_when_to_stop() {
    let mut collector = LayerCollector::new(3);
    assert!(collector.record(finished(2)));
    assert!(collector.record(finished(0)));
    assert!(!collector.record(failed(1)));
    assert!(!collector.record(finished(1)));
    assert!(!collector.record(TaskOutcome::Cancelled));
    assert_eq!(collector.finish(), Err(Failure::TransportError { locator: "u1".to_string() }));
}

#[test]
fn the_collector_gives_the_pages_when_all_came_in() {
    let mut collector = LayerCollector::new(2);
    assert!(collector.record(finished(1)));
    assert!(collector.record(finished(0)));
    assert_eq!(collector.finish(), Ok(vec![page(0), page(1)]));
}

#[test]
fn a_run_from_zero_is_recognised() {
    assert!(is_run_from_zero(&vec![], 0));
    assert!(is_run_from_zero(&vec![0], 1));
    assert!(is_run_from_zero(&vec![0, 1, 2, 3], 4));
    assert!(!is_run_from_zero(&vec![0, 1, 2, 3], 5));
    assert!(!is_run_from_zero(&vec![1, 2, 3], 3));
    assert!(!is_run_from_zero(&vec![0, 2, 3], 3));
    assert!(!is_run_from_zero(&vec![0, 1, 1], 3));
    assert!(!is_run_from_zero(&vec![0, 1, 3], 3));
    assert!(!is_run_from_zero(&vec![0, u32::MAX, 0], 3));
    assert!(!is_run_from_zero(&vec![], 1));
}
