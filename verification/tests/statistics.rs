use mvcc_txn::coprocessor::statistics::analyze::{SampleCollector, NIL_FLAG};
use rand::rngs::StdRng;
use rand::SeedableRng;

// A whole number as the query layer encodes it: a flag, then the number with
// its sign folded into the lowest bit, seven bits to a byte.
fn encode_i64(v: i64) -> Vec<u8> {
    let mut out = vec![8u8];
    let mut z = ((v << 1) ^ (v >> 63)) as u64;
    while z >= 0x80 {
        out.push((z as u8) | 0x80);
        z >>= 7;
    }
    out.push(z as u8);
    out
}

fn encode_null() -> Vec<u8> {
    vec![NIL_FLAG]
}

#[test]
fn test_sample_collector() {
    let max_sample_size = 3;
    let mut sample = SampleCollector::new(max_sample_size, StdRng::seed_from_u64(7));
    let cases = vec![encode_i64(1), encode_null(), encode_i64(2), encode_i64(5)];

    for data in cases {
        sample.collect(data);
    }
    let (samples, null_count, count, total_size) = sample.into_parts();
    assert_eq!(samples.len(), max_sample_size);
    assert_eq!(null_count, 1);
    assert_eq!(count, 3);
    assert_eq!(total_size, 6);
    assert_eq!(samples, vec![encode_i64(1), encode_i64(2), encode_i64(5)]);
}

#[test]
fn test_sample_stays_bounded() {
    for seed in 0..20u64 {
        let mut sample = SampleCollector::new(4, StdRng::seed_from_u64(seed));
        let mut shown = Vec::new();
        for i in 0..200i64 {
            let data = encode_i64(i * 37);
            shown.push(data.clone());
            sample.collect(data);
        }
        let (samples, null_count, count, total_size) = sample.into_parts();
        assert_eq!(samples.len(), 4);
        assert_eq!(null_count, 0);
        assert_eq!(count, 200);
        assert_eq!(total_size, shown.iter().map(|d| d.len() as u64).sum::<u64>());
        // Every value of the sample was shown, in the order of the showing.
        let places: Vec<usize> = samples.iter().map(|s| shown.iter().position(|d| d == s).unwrap()).collect();
        assert!(places.windows(2).all(|w| w[0] < w[1]));
    }
}

#[test]
fn test_sample_of_size_zero() {
    let mut sample = SampleCollector::new(0, StdRng::seed_from_u64(1));
    sample.collect(encode_i64(1));
    sample.collect(encode_null());
    sample.collect(encode_i64(300));
    let (samples, null_count, count, total_size) = sample.into_parts();
    assert!(samples.is_empty());
    assert_eq!((null_count, count, total_size), (1, 2, 5));
}

#[test]
fn test_sample_changes_with_draws() {
    // Among many sources of draws, some replace a value of the full sample
    // and some leave it.
    let mut replaced = 0;
    let mut kept = 0;
    for seed in 0..64u64 {
        let mut sample = SampleCollector::new(2, StdRng::seed_from_u64(seed));
        sample.collect(vec![1, 1]);
        sample.collect(vec![1, 2]);
        sample.collect(vec![1, 3]);
        let (samples, _, _, _) = sample.into_parts();
        if samples == vec![vec![1, 1], vec![1, 2]] {
            kept += 1;
        } else {
            assert_eq!(samples[1], vec![1, 3]);
            assert!(samples[0] == vec![1, 1] || samples[0] == vec![1, 2]);
            replaced += 1;
        }
    }
    assert!(replaced > 0 && kept > 0);
}

#[test]
fn test_place_by_draws() {
    let mut sample = SampleCollector::new(2, StdRng::seed_from_u64(1));
    sample.collect(vec![1, 1]);
    sample.collect(vec![1, 2]);
    // A draw at or above the size of the sample leaves it.
    sample.place(vec![1, 3], 2, 0);
    sample.place(vec![1, 4], 9, 1);
    // A draw below it puts the value in place of the one drawn.
    sample.place(vec![1, 5], 1, 0);
    sample.place(vec![1, 6], 0, 1);
    let (samples, null_count, count, total_size) = sample.into_parts();
    assert_eq!(samples, vec![vec![1, 2], vec![1, 6]]);
    assert_eq!((null_count, count, total_size), (0, 2, 4));
}
