//! Noise samples: health tests, entropy estimates and conditioning.

pub mod accumulator;
pub mod bits;
pub mod estimate;
pub mod health;
pub mod pool;
pub mod tally;

pub use crate::clock::{get_timestamp, get_timestamp_nanos};
pub use accumulator::RunningEntropyAccumulator;
pub use bits::{
    frequency_block_test, monobit_test, run_statistical_tests, runs_test, StatTestResults,
};
pub use estimate::{
    collision_entropy, conservative_min_entropy, min_entropy, tuple_entropy, EntropyEstimate,
};
pub use health::{
    HealthState, NistHealthTester, MAX_HEALTH_RETRIES, NIST_APT_CUTOFF, NIST_APT_WINDOW,
    NIST_RCT_CUTOFF, RECOVERY_COOLDOWN_SAMPLES, STARTUP_DISCARD_SAMPLES,
};
pub use pool::{EntropyExtractionPool, Extraction, EXTRACTION_POOL_SIZE};
use vstd::prelude::*;

verus! {

/// Bytes in the pool that is shown.
pub const POOL_SIZE: usize = 1024;

/// Values in each history that is shown.
pub const HISTORY_LEN: usize = 300;

/// The bit pattern of 0.85, the share of its input's entropy that conditioned output is credited
/// with (NIST SP 800-90B section 3.1.5.1.1).
pub const NIST_CONDITIONING_FACTOR: u64 = 0x3feb_3333_3333_3333;

/// The bit pattern of 256.0, the credited bits from which on a key may be minted unless the settings
/// say otherwise.
pub const MIN_ENTROPY_FOR_MINT: u64 = 0x4070_0000_0000_0000;

/// The bit pattern of 1.0, the bits for each byte above which a key is minted unasked.
pub const AUTO_MINT_THRESHOLD: u64 = 0x3ff0_0000_0000_0000;

} // verus!
