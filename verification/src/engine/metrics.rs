//! A snapshot of the engine for the window.

use super::ring::queue_items;
use super::sources::SourceEntry;
use super::state::{ChaosEngine, HeadscaleState};
use crate::binary64::Binary64;
use crate::config::{GuitarState, HarvesterStates};
use crate::entropy::bits::StatTestResults;
use crate::entropy::estimate::EntropyEstimate;
use crate::hexcode::{digit_value, hex_bytes, hex_digit, hex_encode, hex_text};
use crate::text::{capital, capitals, texts, to_upper, uppercase};
use vstd::prelude::*;

verus! {

/// All that the window shows of the engine, as it was at one moment.
pub struct MetricsSnapshot {
    pub pool_hex: String,
    pub total_bytes: usize,
    pub current_shannon: Binary64,
    /// The newest estimate.
    pub current_raw_entropy: Binary64,
    /// The Shannon entropy of the newest conditioned bytes.
    pub current_whitened_entropy: Binary64,
    pub estimated_true_bits: Binary64,
    pub credited_entropy_bits: Binary64,
    pub aggregate_credited_bits: Binary64,
    /// The raw bytes that wait for an extraction.
    pub accumulated_bytes: usize,
    pub extractions_count: u64,
    pub source_metrics: Vec<SourceEntry>,
    pub history_raw: Vec<Binary64>,
    pub history_whitened: Vec<Binary64>,
    pub logs: Vec<String>,
    pub harvester_states: HarvesterStates,
    pub guitar_states: Vec<GuitarState>,
    pub headscale_targets: Vec<HeadscaleState>,
    pub gpu_cuda_available: bool,
    pub gpu_cuda_backend: String,
    pub gpu_ocl_available: bool,
    pub gpu_ocl_backend: String,
    pub p2p_active: bool,
    pub p2p_received: u64,
    pub p2p_hmac_enabled: bool,
    pub wifi_active: bool,
    pub wifi_samples: u64,
    pub usb_serial_active: bool,
    pub usb_serial_bytes: u64,
    pub live_mode: bool,
    pub pqc_active: bool,
    pub auto_mint_enabled: bool,
    pub mint_threshold: Binary64,
    pub net_mode: bool,
    pub audio_gain: Binary64,
    /// How often each byte occurred among the raw bytes.
    pub running_counts: [u64; 256],
    pub running_min_entropy: EntropyEstimate,
    pub running_total_bytes: u64,
    pub running_unique_values: usize,
    /// How often each byte occurred among the conditioned bytes.
    pub output_counts: [u64; 256],
    pub output_min_entropy: EntropyEstimate,
    pub output_total_bytes: u64,
    pub stat_tests: Option<StatTestResults>,
}

/// The newest value of a history, zero where there is none.
pub open spec fn newest(history: Seq<Binary64>) -> Binary64 {
    if history.len() == 0 {
        Binary64 { bits: 0 }
    } else {
        history.last()
    }
}

fn newest_of(history: &Vec<Binary64>) -> (value: Binary64)
    ensures
        value == newest(history@),
{
    if history.len() == 0 {
        Binary64::from_bits(0)
    } else {
        history[history.len() - 1]
    }
}

impl ChaosEngine {
    /// Whether a snapshot shows this engine as it is, apart from what is estimated.
    pub open spec fn shown_by(&self, m: &MetricsSnapshot) -> bool {
        let s = self.state;
        &&& m.pool_hex@ == uppercase(hex_text(s.pool@))
        &&& m.total_bytes == s.total_bytes
        &&& m.current_shannon == s.last_shannon
        &&& m.current_raw_entropy == newest(s.history_raw_entropy@)
        &&& m.current_whitened_entropy == newest(s.history_whitened_entropy@)
        &&& m.estimated_true_bits == s.estimated_true_entropy_bits
        &&& m.credited_entropy_bits == s.credited_entropy_bits
        &&& m.aggregate_credited_bits == s.extraction_pool.aggregate_credited_bits
        &&& m.accumulated_bytes == s.extraction_pool.buffer@.len()
        &&& m.extractions_count == s.extraction_pool.extractions_count
        &&& m.source_metrics@ == s.source_metrics.entries@
        &&& m.history_raw@ == s.history_raw_entropy@
        &&& m.history_whitened@ == s.history_whitened_entropy@
        &&& texts(m.logs@) == s.logs@.lines
        &&& m.harvester_states == s.harvester_states
        &&& m.guitar_states@ == s.guitar_states@
        &&& m.headscale_targets@ == s.headscale_targets@
        &&& m.gpu_cuda_available == s.gpu_cuda_available
        &&& m.gpu_cuda_backend == s.gpu_cuda_backend
        &&& m.gpu_ocl_available == s.gpu_ocl_available
        &&& m.gpu_ocl_backend == s.gpu_ocl_backend
        &&& m.p2p_active == s.p2p_config.active
        &&& m.p2p_received == s.p2p_config.received_count
        &&& m.p2p_hmac_enabled == s.p2p_config.hmac_key is Some
        &&& m.wifi_active == s.wifi_active
        &&& m.wifi_samples == s.wifi_samples
        &&& m.usb_serial_active == s.usb_serial_active
        &&& m.usb_serial_bytes == s.usb_serial_bytes
        &&& m.live_mode == s.live_mode
        &&& m.pqc_active == s.pqc_active
        &&& m.auto_mint_enabled == s.auto_mint_enabled
        &&& m.mint_threshold == s.mint_threshold
        &&& m.net_mode == s.net_mode
        &&& m.audio_gain == s.audio_gain
        &&& m.running_counts == s.extraction_pool.accumulator.counts
        &&& m.running_total_bytes == s.extraction_pool.accumulator.total_bytes
        &&& m.output_counts == s.extraction_pool.output_accumulator.counts
        &&& m.output_total_bytes == s.extraction_pool.output_accumulator.total_bytes
        &&& m.stat_tests == s.extraction_pool.last_stat_tests
    }

    /// Takes a snapshot.
    pub fn get_metrics(&self) -> (snapshot: MetricsSnapshot)
        ensures
            self.shown_by(&snapshot),
            self.state.extraction_pool.accumulator.is_min_entropy(snapshot.running_min_entropy),
            snapshot.running_unique_values == crate::entropy::accumulator::nonzero(
                self.state.extraction_pool.accumulator.counts@,
            ),
            self.state.extraction_pool.output_accumulator.is_min_entropy(
                snapshot.output_min_entropy,
            ),
    {
        let s = &self.state;
        let history_raw: Vec<Binary64> = queue_items(&s.history_raw_entropy);
        let history_whitened: Vec<Binary64> = queue_items(&s.history_whitened_entropy);
        let hex: String = hex_encode(s.pool.as_slice());
        let source_metrics: Vec<SourceEntry> = s.source_metrics.entries.clone();
        let guitar_states: Vec<GuitarState> = s.guitar_states.clone();
        let headscale_targets: Vec<HeadscaleState> = s.headscale_targets.clone();
        proof {
            assert(source_metrics@ =~= s.source_metrics.entries@);
            assert(guitar_states@ =~= s.guitar_states@);
            assert(headscale_targets@ =~= s.headscale_targets@);
        }
        MetricsSnapshot {
            pool_hex: to_upper(hex.as_str()),
            total_bytes: s.total_bytes,
            current_shannon: s.last_shannon,
            current_raw_entropy: newest_of(&history_raw),
            current_whitened_entropy: newest_of(&history_whitened),
            estimated_true_bits: s.estimated_true_entropy_bits,
            credited_entropy_bits: s.credited_entropy_bits,
            aggregate_credited_bits: s.extraction_pool.aggregate_credited_bits,
            accumulated_bytes: s.extraction_pool.accumulated_bytes(),
            extractions_count: s.extraction_pool.extractions_count,
            source_metrics,
            history_raw,
            history_whitened,
            logs: s.logs.copy(),
            harvester_states: s.harvester_states,
            guitar_states,
            headscale_targets,
            gpu_cuda_available: s.gpu_cuda_available,
            gpu_cuda_backend: s.gpu_cuda_backend.clone(),
            gpu_ocl_available: s.gpu_ocl_available,
            gpu_ocl_backend: s.gpu_ocl_backend.clone(),
            p2p_active: s.p2p_config.active,
            p2p_received: s.p2p_config.received_count,
            p2p_hmac_enabled: match &s.p2p_config.hmac_key {
                Some(_) => true,
                None => false,
            },
            wifi_active: s.wifi_active,
            wifi_samples: s.wifi_samples,
            usb_serial_active: s.usb_serial_active,
            usb_serial_bytes: s.usb_serial_bytes,
            live_mode: s.live_mode,
            pqc_active: s.pqc_active,
            auto_mint_enabled: s.auto_mint_enabled,
            mint_threshold: s.mint_threshold,
            net_mode: s.net_mode,
            audio_gain: s.audio_gain,
            running_counts: s.extraction_pool.accumulator.counts,
            running_min_entropy: s.extraction_pool.running_min_entropy(),
            running_total_bytes: s.extraction_pool.accumulator.total_bytes,
            running_unique_values: s.extraction_pool.accumulator.unique_values(),
            output_counts: s.extraction_pool.output_accumulator.counts,
            output_min_entropy: s.extraction_pool.output_min_entropy(),
            output_total_bytes: s.extraction_pool.output_accumulator.total_bytes,
            stat_tests: s.extraction_pool.last_stat_tests,
        }
    }
}

/// A snapshot shows the whole pool: all 32 bytes are read back from its text, in capitals as it is.
pub proof fn law_snapshot_shows_the_pool(engine: ChaosEngine, m: MetricsSnapshot)
    requires
        engine.shown_by(&m),
    ensures
        hex_bytes(m.pool_hex@) == Some(engine.state.pool@),
        m.pool_hex@.len() == 64,
{
    let pool = engine.state.pool@;
    let small = hex_text(pool);
    let text = m.pool_hex@;
    assert forall|i: int| 0 <= i < small.len() implies (#[trigger] small[i]) as u32 <= 127 by {
        assert(pool[i / 2] / 16 < 16 && pool[i / 2] % 16 < 16);
    }
    assert(text == capitals(small));
    assert forall|v: nat| v < 16 implies digit_value(capital(#[trigger] hex_digit(v))) == Some(v) by {
    }
    assert forall|i: int| 0 <= i < text.len() implies digit_value(#[trigger] text[i]) is Some by {
        assert(pool[i / 2] / 16 < 16);
        assert(pool[i / 2] % 16 < 16);
    }
    assert(hex_bytes(text)->0 =~= pool) by {
        assert forall|i: int| 0 <= i < pool.len() implies (16 * digit_value(text[2 * i])->0
            + digit_value(text[2 * i + 1])->0) as u8 == pool[i] by {
            assert((2 * i) % 2 == 0 && (2 * i) / 2 == i);
            assert((2 * i + 1) % 2 == 1 && (2 * i + 1) / 2 == i);
        }
    }
}

/// The newest value of a history is the one that was put in last.
pub proof fn law_last_value_is_newest(history: Seq<Binary64>, value: Binary64)
    ensures
        newest(history.push(value)) == value,
        history.len() > 1 ==> newest(history.skip(1)) == newest(history),
        newest(Seq::empty()).bits == 0,
{
}

} // verus!
