use neuronav::data::neuron_index::NeuronIndex;
use neuronav::data::neuroscope_model_page::{FileRead, NeuroscopeModelPage};
use neuronav::data::ordering::{sort_by_score, Importance};
use neuronav::data::score::Score;
use neuronav::failure::Failure;
use std::io::Read;

fn entry(layer: u32, neuron: u32, score: f32) -> Importance {
    (NeuronIndex { layer, neuron }, Score::from_bits(score.to_bits()))
}

fn scores(page: &NeuroscopeModelPage) -> Vec<f32> {
    page.important_neurons().iter().map(|e| f32::from_bits(e.1.to_bits())).collect()
}

fn inflate(bytes: &[u8]) -> Vec<u8> {
    let mut decoder = flate2::bufread::DeflateDecoder::new(bytes);
    let mut data = Vec::new();
    decoder.read_to_end(&mut data).unwrap();
    data
}

#[test]
fn new_sorts_ascending_by_score() {
    let page = NeuroscopeModelPage::new(vec![entry(1, 2, 0.3), entry(3, 4, -0.1)]);
    assert_eq!(page.important_neurons(), &[entry(3, 4, -0.1), entry(1, 2, 0.3)]);
}

#[test]
fn new_keeps_an_empty_list() {
    let page = NeuroscopeModelPage::new(Vec::new());
    assert!(page.important_neurons().is_empty());
}

#[test]
fn new_orders_non_finite_scores_without_failing() {
    let page = NeuroscopeModelPage::new(vec![
        entry(0, 0, f32::NAN),
        entry(0, 1, f32::INFINITY),
        entry(0, 2, 1.0),
        entry(0, 3, f32::NEG_INFINITY),
        entry(0, 4, -f32::NAN),
        entry(0, 5, 0.0),
        entry(0, 6, -0.0),
    ]);
    let neurons: Vec<u32> = page.important_neurons().iter().map(|e| e.0.neuron).collect();
    assert_eq!(neurons, vec![4, 3, 6, 5, 2, 1, 0]);
}

#[test]
fn new_is_stable_and_keeps_duplicates() {
    let given = vec![
        entry(0, 9, 1.0),
        entry(0, 1, 0.5),
        entry(0, 9, 1.0),
        entry(0, 2, 0.5),
        entry(0, 3, 1.0),
        entry(0, 1, 0.5),
    ];
    let page = NeuroscopeModelPage::new(given);
    assert_eq!(
        page.important_neurons(),
        &[
            entry(0, 1, 0.5),
            entry(0, 2, 0.5),
            entry(0, 1, 0.5),
            entry(0, 9, 1.0),
            entry(0, 9, 1.0),
            entry(0, 3, 1.0),
        ]
    );
}

#[test]
fn sort_agrees_with_a_stable_sort_by_total_order() {
    let mut seed: u32 = 12345;
    let mut given: Vec<Importance> = Vec::new();
    for i in 0..200u32 {
        seed = seed.wrapping_mul(1664525).wrapping_add(1013904223);
        let bits = if i % 3 == 0 { seed & 0xC000_0003 } else { seed };
        given.push((NeuronIndex { layer: i, neuron: seed % 7 }, Score::from_bits(bits)));
    }
    let sorted = sort_by_score(&given);
    let mut expected = given.clone();
    expected.sort_by(|a, b| f32::from_bits(a.1.to_bits()).total_cmp(&f32::from_bits(b.1.to_bits())));
    assert_eq!(sorted, expected);
}

#[test]
fn sorting_a_sorted_list_changes_nothing() {
    let page = NeuroscopeModelPage::new(vec![entry(0, 1, 2.0), entry(0, 2, -2.0), entry(0, 3, 2.0)]);
    let again = NeuroscopeModelPage::new(page.important_neurons().to_vec());
    assert_eq!(again, page);
}

#[test]
fn clone_gives_an_equal_page() {
    let page = NeuroscopeModelPage::new(vec![entry(1, 2, 0.3), entry(3, 4, -0.1)]);
    assert_eq!(page.clone(), page);
}

#[test]
fn encode_writes_the_compact_layout_into_a_deflate_stream() {
    let page = NeuroscopeModelPage::new(vec![entry(300, 5, 1.0), entry(0, 128, -2.0)]);
    let bytes = page.encode().unwrap();
    let raw = inflate(&bytes);
    assert_eq!(
        raw,
        vec![
            0x02, // two entries
            0x00, 0x80, 0x01, 0x00, 0x00, 0x00, 0xC0, // layer 0, neuron 128, -2.0
            0xAC, 0x02, 0x05, 0x00, 0x00, 0x80, 0x3F, // layer 300, neuron 5, 1.0
        ]
    );
    assert_ne!(bytes, raw);
}

#[test]
fn encode_lays_records_out_as_postcard_lays_out_floats() {
    let given = vec![entry(7, 70000, 0.3), entry(u32::MAX, 0, f32::NAN), entry(1, 1, -0.1)];
    let page = NeuroscopeModelPage::new(given);
    let plain: Vec<((u32, u32), f32)> = page
        .important_neurons()
        .iter()
        .map(|e| ((e.0.layer, e.0.neuron), f32::from_bits(e.1.to_bits())))
        .collect();
    let expected = postcard::to_allocvec(&plain).unwrap();
    assert_eq!(inflate(&page.encode().unwrap()), expected);
}

#[test]
fn decode_inverts_encode() {
    let page = NeuroscopeModelPage::new(vec![
        entry(2, 1, 0.5),
        entry(0, 0, f32::NAN),
        entry(2, 1, 0.5),
        entry(9, 4_000_000_000, -7.25),
        entry(1, 1, f32::NEG_INFINITY),
    ]);
    let bytes = page.encode().unwrap();
    assert_eq!(NeuroscopeModelPage::decode(&bytes), Some(page));
}

#[test]
fn decode_inverts_encode_for_the_empty_page() {
    let page = NeuroscopeModelPage::new(Vec::new());
    let bytes = page.encode().unwrap();
    assert_eq!(NeuroscopeModelPage::decode(&bytes), Some(page));
}

#[test]
fn decode_puts_stored_entries_in_canonical_order() {
    let plain: Vec<((u32, u32), f32)> = vec![((0, 1), 0.3), ((0, 2), -0.1)];
    let raw = postcard::to_allocvec(&plain).unwrap();
    let mut encoder = flate2::write::DeflateEncoder::new(Vec::new(), flate2::Compression::default());
    std::io::Write::write_all(&mut encoder, &raw).unwrap();
    let bytes = encoder.finish().unwrap();
    let page = NeuroscopeModelPage::decode(&bytes).unwrap();
    assert_eq!(scores(&page), vec![-0.1, 0.3]);
}

#[test]
fn decode_rejects_bytes_that_are_no_stream() {
    assert_eq!(NeuroscopeModelPage::decode(&vec![0xFF, 0xFF, 0xFF, 0xFF]), None);
}

#[test]
fn decode_rejects_a_stream_that_holds_no_page() {
    let mut encoder = flate2::write::DeflateEncoder::new(Vec::new(), flate2::Compression::default());
    std::io::Write::write_all(&mut encoder, &[0x03, 0x01]).unwrap();
    let bytes = encoder.finish().unwrap();
    assert_eq!(NeuroscopeModelPage::decode(&bytes), None);
}

#[test]
fn decode_rejects_a_truncated_stream() {
    let page = NeuroscopeModelPage::new(vec![entry(1, 2, 0.3), entry(3, 4, -0.1)]);
    let mut bytes = page.encode().unwrap();
    bytes.truncate(bytes.len() / 2);
    assert_eq!(NeuroscopeModelPage::decode(&bytes), None);
}

#[test]
fn to_file_gives_the_encoding() {
    let page = NeuroscopeModelPage::new(vec![entry(1, 2, 0.3)]);
    assert_eq!(page.to_file("data/m/neuroscope/l1n2.postcard"), Ok(page.encode().unwrap()));
}

#[test]
fn from_file_reads_what_to_file_wrote() {
    let page = NeuroscopeModelPage::new(vec![entry(1, 2, 0.3), entry(3, 4, -0.1)]);
    let bytes = page.to_file("p").unwrap();
    assert_eq!(NeuroscopeModelPage::from_file("p", &FileRead::Bytes(bytes)), Ok(page));
}

#[test]
fn from_file_reports_a_missing_file_as_not_found() {
    assert_eq!(
        NeuroscopeModelPage::from_file("a/b", &FileRead::Missing),
        Err(Failure::NotFound { path: "a/b".to_string() })
    );
}

#[test]
fn from_file_reports_a_failed_read_as_io_error() {
    assert_eq!(
        NeuroscopeModelPage::from_file("a/b", &FileRead::Unreadable),
        Err(Failure::IOError { path: "a/b".to_string() })
    );
}

#[test]
fn from_file_reports_bad_bytes_as_corrupt_data() {
    assert_eq!(
        NeuroscopeModelPage::from_file("a/b", &FileRead::Bytes(vec![1, 2, 3])),
        Err(Failure::CorruptData { path: "a/b".to_string() })
    );
}
