use neuronav::data::score::Score;

#[test]
fn rank_follows_the_total_order_of_floats() {
    let samples: Vec<f32> = vec![
        f32::NEG_INFINITY,
        -1.5,
        -0.1,
        -0.0,
        0.0,
        0.3,
        1.0,
        f32::INFINITY,
        f32::NAN,
        -f32::NAN,
        f32::MIN_POSITIVE,
        f32::MAX,
        f32::MIN,
    ];
    for a in samples.iter() {
        for b in samples.iter() {
            let x = Score::from_bits(a.to_bits());
            let y = Score::from_bits(b.to_bits());
            assert_eq!(x.ordinal().cmp(&y.ordinal()), a.total_cmp(b));
            assert_eq!(x.at_most(y), a.total_cmp(b) != std::cmp::Ordering::Greater);
        }
    }
}
