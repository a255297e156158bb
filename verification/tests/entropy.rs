use nullmagnet::binary64::Binary64;
use nullmagnet::entropy::bits::{BitBalance, BitRuns};
use nullmagnet::entropy::estimate::byte_counts;
use nullmagnet::entropy::{
    collision_entropy, conservative_min_entropy, frequency_block_test, min_entropy, monobit_test,
    run_statistical_tests, runs_test, tuple_entropy, EntropyEstimate, EntropyExtractionPool,
    HealthState, NistHealthTester, RunningEntropyAccumulator, EXTRACTION_POOL_SIZE,
    MAX_HEALTH_RETRIES, NIST_APT_CUTOFF, NIST_APT_WINDOW, NIST_CONDITIONING_FACTOR,
    NIST_RCT_CUTOFF, RECOVERY_COOLDOWN_SAMPLES, STARTUP_DISCARD_SAMPLES,
};
use nullmagnet::entropy::pool::TEST_FLOOR;
use nullmagnet::clock::ClockReading;
use sha2::Digest;

fn bits(x: f64) -> Binary64 {
    Binary64::from_bits(x.to_bits())
}

fn value(estimate: EntropyEstimate) -> f64 {
    match estimate {
        EntropyEstimate::Zero => 0.0,
        EntropyEstimate::Full => 8.0,
        EntropyEstimate::Surprisal { part, whole } => {
            (-(part as f64 / whole as f64).log2()).max(0.0).min(8.0)
        }
        EntropyEstimate::HalfSurprisal { part, whole } => {
            (-(part as f64 / whole as f64).log2() / 2.0).max(0.0).min(8.0)
        }
        EntropyEstimate::MeanGap { sum, count } => {
            let mean = sum as f64 / count as f64;
            (-(1.0 / mean).log2()).max(0.0).min(8.0)
        }
    }
}

fn shannon(counts: &[u64; 256], total: u64) -> f64 {
    let mut h = 0.0;
    for &count in counts.iter() {
        if count > 0 {
            let p = count as f64 / total as f64;
            h -= p * p.log2();
        }
    }
    h
}

fn cycle(count: usize) -> Vec<u8> {
    (0..=255).cycle().take(count).collect()
}

#[test]
fn test_rct_pass_normal_data() {
    let mut ht = NistHealthTester::new();
    ht.start();
    let data: Vec<u8> = (0..=255).cycle().take(5000).collect();
    let passed = ht.process_batch(&data);
    assert!(passed.len() > 0);
    assert_eq!(ht.state, HealthState::Steady);
}

#[test]
fn test_rct_fail_stuck_source() {
    let mut ht = NistHealthTester::new();
    ht.start();
    let data = vec![42u8; 50];
    let passed = ht.process_batch(&data);
    assert!(passed.is_empty());
    assert_eq!(ht.state, HealthState::Failed);
    assert_eq!(ht.failure_count(), 1);
}

#[test]
fn test_health_recovery_after_failure() {
    let mut ht = NistHealthTester::new();
    ht.start();
    let stuck = vec![42u8; 50];
    let _ = ht.process_batch(&stuck);
    assert_eq!(ht.state, HealthState::Failed);
    let cooldown: Vec<u8> = (0..=255).cycle().take(RECOVERY_COOLDOWN_SAMPLES as usize).collect();
    let _passed = ht.process_batch(&cooldown);
    assert!(ht.state == HealthState::Startup || ht.state == HealthState::Steady);
}

#[test]
fn test_health_dead_after_max_retries() {
    let mut ht = NistHealthTester::new();
    ht.start();
    for _ in 0..MAX_HEALTH_RETRIES {
        let stuck = vec![42u8; 50];
        let _ = ht.process_batch(&stuck);
        assert_eq!(ht.state, HealthState::Failed);
        let cooldown: Vec<u8> =
            (0..=255).cycle().take(RECOVERY_COOLDOWN_SAMPLES as usize).collect();
        let _ = ht.process_batch(&cooldown);
    }
    let stuck = vec![42u8; 50];
    let _ = ht.process_batch(&stuck);
    let cooldown: Vec<u8> = (0..=255).cycle().take(RECOVERY_COOLDOWN_SAMPLES as usize).collect();
    let passed = ht.process_batch(&cooldown);
    assert!(passed.is_empty());
    assert_eq!(ht.state, HealthState::Dead);
}

#[test]
fn test_min_entropy_uniform() {
    let data: Vec<u8> = (0..=255).collect();
    let h = value(min_entropy(&data));
    assert!((h - 8.0).abs() < 0.01);
}

#[test]
fn test_min_entropy_biased() {
    let mut data = vec![0u8; 900];
    data.extend(vec![1u8; 100]);
    let h = value(min_entropy(&data));
    assert!(h < 1.0);
    assert!(h > 0.0);
}

#[test]
fn test_collision_entropy_uniform() {
    let data: Vec<u8> = (0..=255).cycle().take(2000).collect();
    let h = value(collision_entropy(&data));
    assert!(h > 5.0, "Uniform collision entropy should be high, got {}", h);
}

#[test]
fn test_tuple_entropy_uniform() {
    let data: Vec<u8> = (0..=255).cycle().take(2000).collect();
    let h = value(tuple_entropy(&data));
    assert!(h > 5.0, "Uniform tuple entropy should be high, got {}", h);
}

#[test]
fn test_extraction_pool_cycle() {
    let mut pool = EntropyExtractionPool::new();
    let data = vec![0xAB; EXTRACTION_POOL_SIZE];
    let result = pool.add_raw_bytes(&data, bits(217.6), bits(217.6)).unwrap();
    assert!(result.is_some());
    assert_eq!(result.unwrap().output.len(), 32);
    assert_eq!(pool.extractions_count, 1);
}

#[test]
fn test_running_accumulator() {
    let mut acc = RunningEntropyAccumulator::new();
    let data: Vec<u8> = (0..=255).cycle().take(10000).collect();
    acc.update(&data);
    assert!(shannon(&acc.counts, acc.total_bytes) > 7.9);
    assert!(value(acc.min_entropy()) > 7.9);
    assert_eq!(acc.unique_values(), 256);
}

#[test]
fn test_nist_constants() {
    assert_eq!(NIST_RCT_CUTOFF, 31);
    assert_eq!(NIST_APT_WINDOW, 512);
    assert_eq!(NIST_APT_CUTOFF, 325);
    assert_eq!(STARTUP_DISCARD_SAMPLES, 4096);
    assert!((f64::from_bits(NIST_CONDITIONING_FACTOR) - 0.85).abs() < f64::EPSILON);
}

#[test]
fn test_output_quality_tracking() {
    let mut pool = EntropyExtractionPool::new();
    for k in 1..=50 {
        let data: Vec<u8> = (0..=255).collect();
        let credit = 217.6;
        let _ = pool.add_raw_bytes(&data, bits(credit), bits(credit * f64::from(k)));
    }
    assert!(pool.output_accumulator.total_bytes > 0);
    let h = shannon(&pool.output_accumulator.counts, pool.output_accumulator.total_bytes);
    assert!(h > 6.0, "SHA-256 output should have high entropy");
}

fn erfc(x: f64) -> f64 {
    let t = 1.0 / (1.0 + 0.3275911 * x.abs());
    let poly = t
        * (0.254829592
            + t * (-0.284496736 + t * (1.421413741 + t * (-1.453152027 + t * 1.061405429))));
    let result = poly * (-x * x).exp();
    if x < 0.0 {
        2.0 - result
    } else {
        result
    }
}

fn monobit_p(counts: BitBalance) -> f64 {
    let n = counts.total_bits as f64;
    let s = (2.0 * counts.ones as f64 - n).abs();
    erfc(s / n.sqrt() / std::f64::consts::SQRT_2)
}

#[test]
fn test_monobit_random() {
    let data: Vec<u8> = (0..=255).cycle().take(1000).collect();
    let p = monobit_p(monobit_test(&data).unwrap());
    let passed = run_statistical_tests(&data, bits(p), bits(0.0), bits(0.0)).monobit_pass;
    assert!(passed, "Monobit should pass for uniform data, p={}", p);
}

#[test]
fn test_monobit_biased() {
    let data = vec![0u8; 1000];
    let p = monobit_p(monobit_test(&data).unwrap());
    let passed = run_statistical_tests(&data, bits(p), bits(0.0), bits(0.0)).monobit_pass;
    assert!(!passed, "Monobit should fail for all-zero data");
}

#[test]
fn estimates_of_small_and_constant_input() {
    assert_eq!(min_entropy(&[]), EntropyEstimate::Zero);
    assert_eq!(min_entropy(&[7, 7, 7]), EntropyEstimate::Zero);
    assert_eq!(min_entropy(&[7, 7, 8]), EntropyEstimate::Surprisal { part: 2, whole: 3 });
    assert_eq!(collision_entropy(&[1, 1, 2]), min_entropy(&[1, 1, 2]));
    assert_eq!(collision_entropy(&[5u8; 40]), EntropyEstimate::Zero);
    assert_eq!(tuple_entropy(&[5u8; 200]), EntropyEstimate::Zero);
    assert_eq!(tuple_entropy(&[5u8; 99]), EntropyEstimate::Zero);
}

#[test]
fn collision_gaps_are_summed() {
    let distinct: Vec<u8> = (0..30).collect();
    assert_eq!(collision_entropy(&distinct), EntropyEstimate::Full);
    let mut paired = distinct.clone();
    paired[10] = 3;
    assert_eq!(collision_entropy(&paired), EntropyEstimate::MeanGap { sum: 7, count: 1 });
    let h = value(EntropyEstimate::MeanGap { sum: 8, count: 1 });
    assert_eq!(h, 3.0);
}

#[test]
fn pairs_are_counted() {
    let data: Vec<u8> = [1u8, 2].iter().cycle().take(101).copied().collect();
    assert_eq!(tuple_entropy(&data), EntropyEstimate::Surprisal { part: 50, whole: 100 });
    let counts = byte_counts(&data);
    assert_eq!(counts[1], 51);
    assert_eq!(counts[2], 50);
    assert_eq!(counts[3], 0);
}

#[test]
fn combined_estimate_takes_the_least() {
    let all = |len: usize| {
        f64::from_bits(
            conservative_min_entropy(len, bits(5.0), bits(4.0), bits(3.0)).bits,
        )
    };
    assert_eq!(all(19), 5.0);
    assert_eq!(all(20), 4.0);
    assert_eq!(all(99), 4.0);
    assert_eq!(all(100), 3.0);
    assert_eq!(
        conservative_min_entropy(5, bits(9.5), bits(9.5), bits(9.5)),
        bits(8.0)
    );
    assert_eq!(
        conservative_min_entropy(500, bits(1.0), bits(-2.0), bits(1.0)),
        bits(0.0)
    );
}

#[test]
fn running_counts_do_not_depend_on_batches() {
    let data: Vec<u8> = (0..1000u32).map(|i| (i * i % 251) as u8).collect();
    let mut whole = RunningEntropyAccumulator::new();
    whole.update(&data);
    let mut parts = RunningEntropyAccumulator::new();
    parts.update(&data[..333]);
    parts.update(&[]);
    parts.update(&data[333..]);
    assert_eq!(whole.counts, parts.counts);
    assert_eq!(whole.bigram_counts, parts.bigram_counts);
    assert_eq!(whole.bigram_total, 999);
    assert_eq!(parts.bigram_total, 999);
    assert_eq!(whole.last_byte, parts.last_byte);
    assert_eq!(whole.total_bytes, 1000);
}

#[test]
fn running_pair_estimate() {
    let mut acc = RunningEntropyAccumulator::new();
    assert_eq!(acc.min_entropy(), EntropyEstimate::Zero);
    acc.update(&[9u8; 100]);
    assert_eq!(acc.tuple_entropy(), EntropyEstimate::Full);
    assert_eq!(acc.min_entropy(), EntropyEstimate::Zero);
    acc.update(&[9u8; 1]);
    assert_eq!(acc.tuple_entropy(), EntropyEstimate::Zero);
    acc.update(&[8u8]);
    assert_eq!(acc.tuple_entropy(), EntropyEstimate::HalfSurprisal { part: 100, whole: 101 });
    assert!(acc.has_headroom(1_000_000));
    assert!(!acc.has_headroom(u32::MAX as usize));
}

#[test]
fn bits_are_counted_lowest_first() {
    assert_eq!(monobit_test(&[]), None);
    assert_eq!(monobit_test(&[0x0f, 0x80]), Some(BitBalance { ones: 5, total_bits: 16 }));
    assert_eq!(runs_test(&[1u8; 7]), None);
    assert_eq!(
        runs_test(&[0xaau8; 8]),
        Some(BitRuns { ones: 32, total_bits: 64, runs: 64 })
    );
    assert_eq!(
        runs_test(&[0u8; 8]),
        Some(BitRuns { ones: 0, total_bits: 64, runs: 1 })
    );
    let mut low_first = [0u8; 8];
    low_first[0] = 0x01;
    assert_eq!(
        runs_test(&low_first),
        Some(BitRuns { ones: 1, total_bits: 64, runs: 2 })
    );
}

#[test]
fn blocks_are_counted() {
    assert_eq!(frequency_block_test(&[], 8), None);
    assert_eq!(frequency_block_test(&[1, 2], 0), None);
    assert_eq!(frequency_block_test(&[1], 8), None);
    assert_eq!(frequency_block_test(&[0xff, 0x01, 0x03], 8), Some(vec![8, 1, 2]));
    assert_eq!(frequency_block_test(&[0xff, 0x01, 0x03], 12), Some(vec![9, 2]));
}

#[test]
fn p_values_are_judged_at_one_in_a_hundred() {
    let good = run_statistical_tests(&[0; 32], bits(0.01), bits(0.5), bits(1.0));
    assert!(good.monobit_pass && good.runs_pass && good.freq_block_pass && good.all_passed);
    assert_eq!(good.sample_size, 32);
    let bad = run_statistical_tests(&[0; 32], bits(0.5), bits(0.0099999), bits(0.5));
    assert!(bad.monobit_pass && !bad.runs_pass && bad.freq_block_pass && !bad.all_passed);
}

#[test]
fn short_samples_never_pass() {
    let judge = |len: usize| run_statistical_tests(&vec![0; len], bits(0.5), bits(0.5), bits(0.5));
    let near = judge(31);
    assert!(near.monobit_pass && near.runs_pass && !near.freq_block_pass && !near.all_passed);
    assert_eq!(near.freq_block_p, bits(0.0));
    let few = judge(7);
    assert!(few.monobit_pass && !few.runs_pass && !few.all_passed);
    assert_eq!((judge(0).monobit_pass, judge(0).monobit_p), (false, bits(0.0)));
    assert!(judge(32).all_passed);
}

#[test]
fn the_order_of_bytes_does_not_matter_to_min_entropy() {
    let data: Vec<u8> = (0..1000u32).map(|k| (k * k % 253) as u8).collect();
    let mut sorted = data.clone();
    sorted.sort();
    assert_eq!(min_entropy(&data), min_entropy(&sorted));
    match min_entropy(&data) {
        EntropyEstimate::Surprisal { part, whole } => {
            assert_eq!(whole, 1000);
            assert!(part < whole && whole <= 256 * part);
        }
        _ => panic!("no surprisal"),
    }
}

#[test]
fn batches_may_be_cut_anywhere() {
    let data: Vec<u8> = (0..6000u32).map(|k| (k * 7 % 251) as u8).collect();
    for cut in [0, 1, 511, 4096, 4097, 5999, 6000] {
        let mut whole = NistHealthTester::new();
        let mut parts = NistHealthTester::new();
        whole.start();
        parts.start();
        let all = whole.process_batch(&data);
        let mut joined = parts.process_batch(&data[..cut]);
        joined.extend(parts.process_batch(&data[cut..]));
        assert_eq!(all, joined);
        assert_eq!(whole.state, parts.state);
        assert_eq!(whole.samples_passed, parts.samples_passed);
    }
}

#[test]
fn extraction_hashes_block_count_and_time() {
    let mut pool = EntropyExtractionPool::new();
    let reading = ClockReading { seconds: 77, nanos: 0 };
    let raw = [0u8; 300];
    let brought = pool.add_raw_bytes_at(&raw, bits(1.5), bits(2.5), &[reading]).unwrap();
    let expected = sha2::Sha256::digest([0u8; 272]).to_vec();
    assert_eq!(brought.output, expected);
    assert!(brought.sample.is_none());
    assert_eq!(pool.accumulated_bytes(), 44);
    assert_eq!(pool.last_extraction, 77);
    assert_eq!(pool.total_raw_consumed, 256);
    assert_eq!(pool.total_extracted_bytes, 32);
    assert_eq!(pool.credited_entropy_bits, bits(0.0));
    assert_eq!(pool.aggregate_credited_bits, bits(2.5));
    assert!(pool.add_raw_bytes_at(&[1, 2], bits(3.0), bits(4.0), &[]).is_none());
    assert_eq!(pool.credited_entropy_bits, bits(3.0));
    pool.reset_aggregate_credits();
    assert_eq!(pool.aggregate_credited_bits, bits(0.0));
}

#[test]
fn conditioned_output_is_tested_and_trimmed() {
    let mut pool = EntropyExtractionPool::new();
    let reading = ClockReading { seconds: 1, nanos: 2 };
    let mut largest = 0;
    for round in 1..=300usize {
        let brought = pool.add_raw_bytes_at(&cycle(256), bits(0.0), bits(0.0), &[reading]);
        let sample = brought.unwrap().sample;
        if let Some(sample) = sample {
            largest = largest.max(sample.len());
            assert!(sample.len() >= TEST_FLOOR);
        } else {
            assert!(round * 32 < TEST_FLOOR);
        }
        assert!(pool.conditioned_buffer.len() <= 8192);
    }
    assert_eq!(largest, 8192 + 32);
    assert_eq!(pool.total_raw_consumed, 300 * 256);
    assert_eq!(pool.output_accumulator.total_bytes, 300 * 32);
    assert!(pool.has_headroom(1 << 20));
}

#[test]
fn startup_samples_are_dropped_and_the_rest_passes() {
    let mut ht = NistHealthTester::new();
    assert_eq!(ht.state_name(), "INIT");
    ht.start();
    assert_eq!(ht.process_batch(&cycle(4096)).len(), 0);
    assert!(ht.is_healthy());
    assert_eq!(ht.process_batch(&cycle(100)), cycle(100));
    assert!(!ht.is_dead());
}

#[test]
fn health_batches_compose() {
    let data: Vec<u8> = (0..6000u32).map(|i| (i * 7 % 256) as u8).collect();
    let mut whole = NistHealthTester::new();
    whole.start();
    let all = whole.process_batch(&data);
    let mut parts = NistHealthTester::new();
    parts.start();
    let mut joined = parts.process_batch(&data[..4100]);
    joined.extend(parts.process_batch(&data[4100..]));
    assert_eq!(all, joined);
    assert_eq!(whole.state, parts.state);
}
