//! The mixer: batches of samples go into the extraction pool, and what comes out of it is mixed into
//! the engine's pool and handed on.

use super::identity::SigningKey;
use super::logbook::{law_log_bounded, noted, LogView};
use super::ring::{
    capped, capped_all, law_queue_keeps_newest, push_all_capped, push_capped,
};
use super::sources::{metrics_of, recorded};
use super::state::{HeadscaleState, SharedState};
use crate::binary64::Binary64;
use crate::bytes::{append_bytes, append_number, copy_bytes, law_number_bytes, le_bytes};
use crate::clock::{
    all_read, clock_before_epoch, clock_nanos, clock_second, get_timestamp, get_timestamp_nanos,
    ClockReading,
};
use crate::crypto::{sha3_256, sha3_digest, wipe_vec};
use crate::entropy::pool::{
    extractions_due, ClockBeforeEpoch, Extraction, EXTRACTION_OUTPUT, EXTRACTION_POOL_SIZE,
};
use crate::entropy::{AUTO_MINT_THRESHOLD, HISTORY_LEN, POOL_SIZE};
use crate::text::{append_decimal, numeral};
use std::collections::HashMap;
use vstd::prelude::*;
use vstd::utf8::encode_utf8;

verus! {

broadcast use vstd::std_specs::hash::group_hash_axioms;

/// Seconds that must lie between two keys that are minted unasked.
pub const MINT_PAUSE: u64 = 10;

/// Seconds after which a vault node is sent to again.
pub const FORWARD_PAUSE: u64 = 5;

/// The numbers of a batch that floating-point formulas give.
#[derive(Clone, Copy, PartialEq, Eq, Structural, Debug)]
pub struct BatchNumbers {
    /// The Shannon entropy of the batch.
    pub raw_shannon: Binary64,
    /// The cautious estimate of the batch.
    pub raw_min: Binary64,
    /// The source's mean of Shannon entropies with this batch blended in.
    pub source_blend: Binary64,
    /// The source's credit with this batch's added.
    pub source_total: Binary64,
    /// The engine's estimate of all bits so far with this batch's credit added.
    pub estimated_total: Binary64,
    /// The engine's credit with this batch's added.
    pub credited_total: Binary64,
    /// The pool's credit since its last extraction with this batch's added.
    pub pool_credited: Binary64,
    /// The pool's credit since the last key with this batch's added.
    pub pool_aggregate: Binary64,
}

/// How numbers are shown in the log.
pub struct ShownNumbers<'a> {
    /// The estimate of the batch, with two decimals.
    pub raw_min: &'a str,
    /// The credit of the batch, without decimals.
    pub credited: &'a str,
    /// The credit since the last key, without decimals.
    pub aggregate: &'a str,
}

/// What the mixer remembers between batches: when the uplink and each vault node was last sent to.
pub struct MixerMemory {
    pub last_net_time: u64,
    pub last_headscale_times: HashMap<usize, u64>,
}

impl MixerMemory {
    /// Nothing was sent yet.
    pub fn new() -> (memory: MixerMemory)
        ensures
            memory.last_net_time == 0,
            memory.last_headscale_times@ == Map::<usize, u64>::empty(),
    {
        MixerMemory { last_net_time: 0, last_headscale_times: HashMap::new() }
    }
}

/// A key that is to be minted unasked.
pub struct MintPlan {
    pub pool: [u8; 32],
    pub falcon_sk: SigningKey,
    pub falcon_pk: Vec<u8>,
    pub aggregate: Binary64,
    pub decided_at: u64,
}

/// Peers that are to be sent to, and the key to authenticate with.
pub struct PeerPlan {
    pub peers: Vec<String>,
    pub hmac_key: Option<Vec<u8>>,
}

/// What is to be done with conditioned bytes.
pub struct MixerPlan {
    pub seq_id: u64,
    pub mint: Option<MintPlan>,
    /// Where the uplink sends to.
    pub net_target: Option<String>,
    /// The vault nodes to send to: index and address.
    pub hs_targets: Vec<(usize, String)>,
    pub p2p: Option<PeerPlan>,
}

/// The pool after conditioned bytes of a source were mixed into it.
pub open spec fn pool_mixed(
    pool: Seq<u8>,
    source: Seq<char>,
    extracted: Seq<u8>,
    nanos: u64,
) -> Seq<u8> {
    sha3_256(pool + encode_utf8(source) + extracted + le_bytes(nanos))
}

/// The message about an extraction.
pub open spec fn extract_message(
    count: u64,
    raw_min: Seq<char>,
    credited: Seq<char>,
    source: Seq<char>,
) -> Seq<char> {
    "EXTRACT #"@ + numeral(count as nat) + " | "@ + numeral(EXTRACTION_POOL_SIZE as nat)
        + "->32 bytes | H_min:"@ + raw_min + " | Credited:"@ + credited + " bits | Src:"@ + source
}

/// The message about a key that is to be minted unasked.
pub open spec fn auto_mint_message(aggregate: Seq<char>, raw_min: Seq<char>) -> Seq<char> {
    "AUTO-MINT: Aggregate="@ + aggregate + " bits, H_min="@ + raw_min
}

/// Whether a key may be minted unasked: enough bits were credited, the batch is good enough, and
/// minting unasked is switched on.
pub open spec fn mint_wanted(state: SharedState, raw_min: Binary64) -> bool {
    &&& state.extraction_pool.aggregate_credited_bits.greater_or_equal(state.mint_threshold)
    &&& raw_min.greater(Binary64 { bits: AUTO_MINT_THRESHOLD })
    &&& state.pqc_active
    &&& state.auto_mint_enabled
}

/// Whether enough time has gone by since the last key that was minted unasked. A clock that was set
/// back counts as time enough.
pub open spec fn mint_rested(last: u64, now: u64) -> bool {
    last == 0 || now < last || now - last >= MINT_PAUSE
}

/// When a vault node was last sent to, zero where it never was.
pub open spec fn last_sent(times: Map<usize, u64>, index: usize) -> u64 {
    if times.contains_key(index) {
        times[index]
    } else {
        0
    }
}

/// Whether a vault node is to be sent to now.
pub open spec fn forward_due(
    targets: Seq<HeadscaleState>,
    times: Map<usize, u64>,
    now: u64,
    index: int,
) -> bool {
    &&& targets[index].target.enabled
    &&& now > last_sent(times, index as usize) + FORWARD_PAUSE
}

/// The address at which a vault node takes entropy.
pub open spec fn entropy_address(target: HeadscaleState) -> Seq<char> {
    "http://"@ + target.target.ip@ + ":"@ + numeral(target.target.port as nat) + "/entropy"@
}

/// The indices of the first `count` vault nodes that are to be sent to now.
pub open spec fn due_indices(
    targets: Seq<HeadscaleState>,
    times: Map<usize, u64>,
    now: u64,
    count: nat,
) -> Seq<int>
    decreases count,
{
    if count == 0 {
        Seq::empty()
    } else {
        let before = due_indices(targets, times, now, (count - 1) as nat);
        if forward_due(targets, times, now, count - 1) {
            before.push(count - 1)
        } else {
            before
        }
    }
}

/// A vault node after it was sent to.
pub open spec fn forwarded(target: HeadscaleState, now: u64) -> HeadscaleState {
    HeadscaleState {
        forwarded_count: (target.forwarded_count + 1) as u64,
        last_forward_ts: now,
        ..target
    }
}

/// The vault nodes after those that were due were sent to.
pub open spec fn targets_after(
    targets: Seq<HeadscaleState>,
    times: Map<usize, u64>,
    now: u64,
) -> Seq<HeadscaleState> {
    Seq::new(
        targets.len(),
        |i: int|
            if forward_due(targets, times, now, i) {
                forwarded(targets[i], now)
            } else {
                targets[i]
            },
    )
}

/// Whether a plan lists exactly the vault nodes that are due, in their order, with their addresses.
pub open spec fn plans_forwarding(
    plan: Seq<(usize, String)>,
    targets: Seq<HeadscaleState>,
    times: Map<usize, u64>,
    now: u64,
) -> bool {
    let due = due_indices(targets, times, now, targets.len());
    &&& plan.len() == due.len()
    &&& forall|k: int|
        0 <= k < plan.len() ==> (#[trigger] plan[k]).0 == due[k] && plan[k].1@ == entropy_address(
            targets[due[k]],
        )
}

/// Whether the memory of the vault nodes' times is an earlier one with those that were due brought
/// up to date.
pub open spec fn times_updated(
    targets: Seq<HeadscaleState>,
    before: Map<usize, u64>,
    now: u64,
    after: Map<usize, u64>,
) -> bool {
    forall|i: usize|
        #![trigger after.contains_key(i)]
        #![trigger last_sent(after, i)]
        if i < targets.len() && forward_due(targets, before, now, i as int) {
            after.contains_key(i) && after[i] == now
        } else {
            after.contains_key(i) == before.contains_key(i) && last_sent(after, i) == last_sent(
                before,
                i,
            )
        }
}

fn forward_to_due(
    targets: &mut Vec<HeadscaleState>,
    times: &mut HashMap<usize, u64>,
    now: u64,
) -> (plan: Vec<(usize, String)>)
    requires
        forall|i: int|
            0 <= i < old(targets)@.len() ==> (#[trigger] old(targets)@[i]).forwarded_count
                < u64::MAX,
    ensures
        final(targets)@ == targets_after(old(targets)@, old(times)@, now),
        plans_forwarding(plan@, old(targets)@, old(times)@, now),
        times_updated(old(targets)@, old(times)@, now, final(times)@),
{
    let ghost all = targets@;
    let ghost start = times@;
    let mut plan: Vec<(usize, String)> = Vec::new();
    let mut i: usize = 0;
    while i < targets.len()
        invariant
            i <= targets@.len(),
            all == old(targets)@,
            start == old(times)@,
            targets@.len() == all.len(),
            forall|j: int| 0 <= j < all.len() ==> (#[trigger] all[j]).forwarded_count < u64::MAX,
            forall|j: int|
                0 <= j < i ==> #[trigger] targets@[j] == targets_after(all, start, now)[j],
            forall|j: int| i <= j < all.len() ==> #[trigger] targets@[j] == all[j],
            forall|j: usize|
                #![trigger times@.contains_key(j)]
                #![trigger last_sent(times@, j)]
                if j < i && forward_due(all, start, now, j as int) {
                    times@.contains_key(j) && times@[j] == now
                } else {
                    times@.contains_key(j) == start.contains_key(j) && last_sent(times@, j)
                        == last_sent(start, j)
                },
            plan@.len() == due_indices(all, start, now, i as nat).len(),
            forall|k: int|
                0 <= k < plan@.len() ==> (#[trigger] plan@[k]).0 == due_indices(
                    all,
                    start,
                    now,
                    i as nat,
                )[k] && 0 <= plan@[k].0 < i && plan@[k].1@ == entropy_address(
                    all[plan@[k].0 as int],
                ),
        decreases targets@.len() - i,
    {
        assert(targets@[i as int] == all[i as int]);
        if targets[i].target.enabled {
            let last: u64 = match times.get(&i) {
                Some(time) => *time,
                None => 0,
            };
            assert(last == last_sent(times@, i));
            assert(last == last_sent(start, i));
            if now > last && now - last > FORWARD_PAUSE {
                assert(forward_due(all, start, now, i as int));
                let mut changed: HeadscaleState = targets[i].clone();
                changed.forwarded_count = changed.forwarded_count + 1;
                changed.last_forward_ts = now;
                let mut url: String = "http://".to_owned();
                url.append(changed.target.ip.as_str());
                url.append(":");
                append_decimal(&mut url, changed.target.port as u64);
                url.append("/entropy");
                assert(changed == forwarded(all[i as int], now));
                assert(url@ == entropy_address(all[i as int]));
                times.insert(i, now);
                targets.set(i, changed);
                plan.push((i, url));
            } else {
                assert(!forward_due(all, start, now, i as int));
            }
        }
        i += 1;
    }
    assert(targets@ =~= targets_after(all, start, now));
    plan
}

impl SharedState {
    /// Whether the counters can take a batch of this source.
    pub open spec fn has_room(&self, source: Seq<char>, data: Seq<u8>) -> bool {
        let due = extractions_due(self.extraction_pool@, data.len());
        &&& self.extraction_pool.has_room(data)
        &&& metrics_of(self.source_metrics@, source).samples < u64::MAX
        &&& self.sequence_id < u64::MAX
        &&& self.total_bytes + EXTRACTION_OUTPUT * due <= usize::MAX
        &&& forall|i: int|
            0 <= i < self.headscale_targets@.len() ==> (
            #[trigger] self.headscale_targets@[i]).forwarded_count < u64::MAX
    }

    /// Whether every counter is far enough from its limit for any batch of this length.
    pub open spec fn headroom(&self, source: Seq<char>, len: nat) -> bool {
        &&& self.extraction_pool.headroom(len)
        &&& metrics_of(self.source_metrics@, source).samples < u64::MAX
        &&& self.sequence_id < u64::MAX
        &&& self.total_bytes + EXTRACTION_OUTPUT * extractions_due(self.extraction_pool@, len)
            <= usize::MAX
        &&& forall|i: int|
            0 <= i < self.headscale_targets@.len() ==> (
            #[trigger] self.headscale_targets@[i]).forwarded_count < u64::MAX
    }

    /// Tests whether every counter is far enough from its limit for any batch of this length.
    pub fn has_headroom(&self, source: &str, len: usize) -> (room: bool)
        requires
            self.wf(),
        ensures
            room == self.headroom(source@, len as nat),
            room ==> forall|data: Seq<u8>|
                data.len() == len ==> #[trigger] self.has_room(source@, data),
    {
        if !self.extraction_pool.has_headroom(len) || self.sequence_id == u64::MAX {
            return false;
        }
        let due: usize = (self.extraction_pool.buffer.len() + len) / EXTRACTION_POOL_SIZE;
        if self.total_bytes > usize::MAX - EXTRACTION_OUTPUT * due {
            return false;
        }
        if let Some(metrics) = self.source_metrics.get(source) {
            if metrics.samples == u64::MAX {
                return false;
            }
        }
        let mut i: usize = 0;
        while i < self.headscale_targets.len()
            invariant
                i <= self.headscale_targets.len(),
                forall|j: int|
                    0 <= j < i ==> (#[trigger] self.headscale_targets@[j]).forwarded_count
                        < u64::MAX,
            decreases self.headscale_targets.len() - i,
        {
            if self.headscale_targets[i].forwarded_count == u64::MAX {
                return false;
            }
            i += 1;
        }
        proof {
            assert forall|data: Seq<u8>| data.len() == len implies #[trigger] self.has_room(
                source@,
                data,
            ) by {
                assert(self.extraction_pool.has_room(data));
            }
        }
        true
    }
}

/// Whether one state is another after a batch was taken in, up to what comes out of the extraction
/// pool: the source's metrics, the totals and the history of estimates.
pub open spec fn batch_noted(
    before: SharedState,
    source: Seq<char>,
    numbers: BatchNumbers,
    after: SharedState,
) -> bool {
    &&& after == (SharedState {
        extraction_pool: after.extraction_pool,
        source_metrics: after.source_metrics,
        estimated_true_entropy_bits: numbers.estimated_total,
        credited_entropy_bits: numbers.credited_total,
        last_shannon: numbers.raw_shannon,
        history_raw_entropy: after.history_raw_entropy,
        ..before
    })
    &&& after.source_metrics.wf()
    &&& after.source_metrics@ == before.source_metrics@.insert(
        source,
        recorded(
            metrics_of(before.source_metrics@, source),
            numbers.raw_shannon,
            numbers.raw_min,
            numbers.source_blend,
            numbers.source_total,
        ),
    )
    &&& after.history_raw_entropy@ == capped(
        before.history_raw_entropy@,
        numbers.raw_min,
        HISTORY_LEN as nat,
    )
}

impl SharedState {
    fn note_batch(&mut self, source: &str, numbers: BatchNumbers)
        requires
            old(self).source_metrics.wf(),
            metrics_of(old(self).source_metrics@, source@).samples < u64::MAX,
        ensures
            batch_noted(*old(self), source@, numbers, *final(self)),
            final(self).extraction_pool == old(self).extraction_pool,
    {
        self.source_metrics.record(
            source,
            numbers.raw_shannon,
            numbers.raw_min,
            numbers.source_blend,
            numbers.source_total,
        );
        self.estimated_true_entropy_bits = numbers.estimated_total;
        self.credited_entropy_bits = numbers.credited_total;
        self.last_shannon = numbers.raw_shannon;
        push_capped(&mut self.history_raw_entropy, numbers.raw_min, HISTORY_LEN);
    }

    /// Takes in a batch at given readings of the clock, one for each extraction that is due.
    pub fn absorb_at(
        &mut self,
        source: &str,
        data: &[u8],
        numbers: BatchNumbers,
        readings: &[ClockReading],
    ) -> (extraction: Option<Extraction>)
        requires
            old(self).wf(),
            old(self).has_room(source@, data@),
            readings@.len() == extractions_due(old(self).extraction_pool@, data@.len()),
        ensures
            final(self).wf(),
            batch_noted(*old(self), source@, numbers, *final(self)),
            final(self).extraction_pool@ == old(self).extraction_pool@.filled(
                data@,
                numbers.pool_credited,
                numbers.pool_aggregate,
            ).after(readings@),
            old(self).extraction_pool.accumulator.fed(
                data@,
                &final(self).extraction_pool.accumulator,
            ),
            old(self).extraction_pool.output_accumulator.fed(
                old(self).extraction_pool@.filled(
                    data@,
                    numbers.pool_credited,
                    numbers.pool_aggregate,
                ).output(readings@),
                &final(self).extraction_pool.output_accumulator,
            ),
            extraction is Some <==> readings@.len() > 0,
            extraction matches Some(e) ==> {
                let filled = old(self).extraction_pool@.filled(
                    data@,
                    numbers.pool_credited,
                    numbers.pool_aggregate,
                );
                &&& e.output@ == filled.output(readings@)
                &&& e.output@.len() == EXTRACTION_OUTPUT * readings@.len()
                &&& match e.sample {
                    Some(bytes) => filled.sample(readings@) == Some(bytes@),
                    None => filled.sample(readings@) is None,
                }
            },
    {
        let extraction: Option<Extraction> = self.extraction_pool.add_raw_bytes_at(
            data,
            numbers.pool_credited,
            numbers.pool_aggregate,
            readings,
        );
        self.note_batch(source, numbers);
        extraction
    }

    /// Takes in a batch, reading the clock for each extraction that is due. While the clock stands
    /// before 1970 nothing is done where one is due.
    pub fn absorb(&mut self, source: &str, data: &[u8], numbers: BatchNumbers) -> (extraction: Result<
        Option<Extraction>,
        ClockBeforeEpoch,
    >)
        requires
            old(self).wf(),
            old(self).has_room(source@, data@),
        ensures
            final(self).wf(),
            match extraction {
                Err(_) => *final(self) == *old(self) && extractions_due(
                    old(self).extraction_pool@,
                    data@.len(),
                ) > 0 && clock_before_epoch(),
                Ok(brought) => {
                    let filled = old(self).extraction_pool@.filled(
                        data@,
                        numbers.pool_credited,
                        numbers.pool_aggregate,
                    );
                    let due = extractions_due(old(self).extraction_pool@, data@.len());
                    &&& batch_noted(*old(self), source@, numbers, *final(self))
                    &&& old(self).extraction_pool.accumulator.fed(
                        data@,
                        &final(self).extraction_pool.accumulator,
                    )
                    &&& brought is Some <==> due > 0
                    &&& exists|readings: Seq<ClockReading>| #[trigger]
                        filled.after(readings) == final(self).extraction_pool@ && all_read(readings)
                            && readings.len() == due && old(self).extraction_pool.output_accumulator.fed(
                            filled.output(readings),
                            &final(self).extraction_pool.output_accumulator,
                        ) && (brought matches Some(e) ==> e.output@ == filled.output(
                            readings,
                        ) && e.output@.len() == EXTRACTION_OUTPUT * readings.len()
                            && match e.sample {
                            Some(bytes) => filled.sample(readings) == Some(bytes@),
                            None => filled.sample(readings) is None,
                        })
                },
            },
    {
        match self.extraction_pool.add_raw_bytes(
            data,
            numbers.pool_credited,
            numbers.pool_aggregate,
        ) {
            Err(e) => Err(e),
            Ok(extraction) => {
                self.note_batch(source, numbers);
                Ok(extraction)
            },
        }
    }

    fn write_extract_message(&self, shown: &ShownNumbers, source: &str) -> (message: String)
        ensures
            message@ == extract_message(
                self.extraction_pool.extractions_count,
                shown.raw_min@,
                shown.credited@,
                source@,
            ),
    {
        let mut message: String = "EXTRACT #".to_owned();
        append_decimal(&mut message, self.extraction_pool.extractions_count);
        message.append(" | ");
        append_decimal(&mut message, EXTRACTION_POOL_SIZE as u64);
        message.append("->32 bytes | H_min:");
        message.append(shown.raw_min);
        message.append(" | Credited:");
        message.append(shown.credited);
        message.append(" bits | Src:");
        message.append(source);
        message
    }

    fn wants_mint(&self, raw_min: Binary64) -> (wanted: bool)
        ensures
            wanted == mint_wanted(*self, raw_min),
    {
        self.extraction_pool.aggregate_credited_bits.at_least(self.mint_threshold) && raw_min.exceeds(Binary64::from_bits(AUTO_MINT_THRESHOLD)) && self.pqc_active
            && self.auto_mint_enabled
    }

    fn plan_mint(&self, decided_at: u64) -> (plan: MintPlan)
        ensures
            plan.pool == self.pool,
            plan.falcon_sk@ == self.falcon_sk@,
            plan.falcon_pk@ == self.falcon_pk@,
            plan.aggregate == self.extraction_pool.aggregate_credited_bits,
            plan.decided_at == decided_at,
    {
        MintPlan {
            pool: self.pool,
            falcon_sk: self.falcon_sk.copy(),
            falcon_pk: copy_bytes(self.falcon_pk.as_slice()),
            aggregate: self.extraction_pool.aggregate_credited_bits,
            decided_at,
        }
    }

    fn plan_peers(&self) -> (plan: Option<PeerPlan>)
        ensures
            plan is Some <==> self.p2p_config.active && self.p2p_config.peers@.len() > 0,
            plan matches Some(p) ==> p.peers@ == self.p2p_config.peers@ && match p.hmac_key {
                Some(key) => self.p2p_config.hmac_key matches Some(own) && own@ == key@,
                None => self.p2p_config.hmac_key is None,
            },
    {
        if self.p2p_config.active && self.p2p_config.peers.len() > 0 {
            let peers: Vec<String> = self.p2p_config.peers.clone();
            assert(peers@ =~= self.p2p_config.peers@);
            let hmac_key: Option<Vec<u8>> = match &self.p2p_config.hmac_key {
                Some(key) => Some(copy_bytes(key.as_slice())),
                None => None,
            };
            Some(PeerPlan { peers, hmac_key })
        } else {
            None
        }
    }
}

/// The times at which conditioned bytes are handed on.
#[derive(Clone, Copy, PartialEq, Eq, Structural, Debug)]
pub struct HandoverTimes {
    /// The nanoseconds that are mixed into the pool.
    pub nanos: u64,
    /// The second at which minting unasked is decided.
    pub mint: u64,
    /// The second at which sending is decided.
    pub send: u64,
}

impl HandoverTimes {
    /// The times that readings of the clock make up, where there are all three.
    pub fn at(nanos: Option<u64>, mint: Option<u64>, send: Option<u64>) -> (times: Option<
        HandoverTimes,
    >)
        ensures
            times == match (nanos, mint, send) {
                (Some(n), Some(m), Some(s)) => Some(HandoverTimes { nanos: n, mint: m, send: s }),
                _ => None,
            },
    {
        match (nanos, mint, send) {
            (Some(nanos), Some(mint), Some(send)) => Some(HandoverTimes { nanos, mint, send }),
            _ => None,
        }
    }
}

impl HandoverTimes {
    /// Whether the times are what they stand for, each of some point in time.
    pub open spec fn are_read(self) -> bool {
        clock_nanos(self.nanos) && clock_second(self.mint) && clock_second(self.send)
    }
}

/// Whether one state is another after conditioned bytes were mixed in and handed on.
pub open spec fn handed_on(
    before: SharedState,
    memory: MixerMemory,
    source: Seq<char>,
    extracted: Seq<u8>,
    extracted_shannon: Binary64,
    times: HandoverTimes,
    after: SharedState,
) -> bool {
    &&& after == (SharedState {
        history_whitened_entropy: after.history_whitened_entropy,
        pool: after.pool,
        display_pool: after.display_pool,
        total_bytes: (before.total_bytes + extracted.len()) as usize,
        sequence_id: (before.sequence_id + 1) as u64,
        logs: after.logs,
        headscale_targets: after.headscale_targets,
        ..before
    })
    &&& after.history_whitened_entropy@ == capped(
        before.history_whitened_entropy@,
        extracted_shannon,
        HISTORY_LEN as nat,
    )
    &&& after.pool@ == pool_mixed(before.pool@, source, extracted, times.nanos)
    &&& after.display_pool@ == capped_all(before.display_pool@, extracted, POOL_SIZE as nat)
    &&& after.headscale_targets@ == targets_after(
        before.headscale_targets@,
        memory.last_headscale_times@,
        times.send,
    )
}

/// Whether a plan is what follows from a state before and after conditioned bytes were mixed in.
pub open spec fn plan_follows(
    before: SharedState,
    memory: MixerMemory,
    raw_min: Binary64,
    times: HandoverTimes,
    after: SharedState,
    plan: MixerPlan,
) -> bool {
    &&& plan.seq_id == after.sequence_id
    &&& plan.mint is Some <==> mint_wanted(before, raw_min) && mint_rested(
        before.last_auto_mint_ts,
        times.mint,
    )
    &&& plan.mint matches Some(m) ==> {
        &&& m.pool@ == after.pool@
        &&& m.falcon_sk@ == before.falcon_sk@
        &&& m.falcon_pk@ == before.falcon_pk@
        &&& m.aggregate == before.extraction_pool.aggregate_credited_bits
        &&& m.decided_at == times.mint
    }
    &&& plan.net_target is Some <==> before.net_mode && times.send > memory.last_net_time
    &&& plan.net_target matches Some(url) ==> url == before.uplink_url
    &&& plans_forwarding(
        plan.hs_targets@,
        before.headscale_targets@,
        memory.last_headscale_times@,
        times.send,
    )
    &&& plan.p2p is Some <==> before.p2p_config.active && before.p2p_config.peers@.len() > 0
    &&& plan.p2p matches Some(p) ==> p.peers@ == before.p2p_config.peers@ && match p.hmac_key {
        Some(key) => before.p2p_config.hmac_key matches Some(own) && own@ == key@,
        None => before.p2p_config.hmac_key is None,
    }
}

/// Whether a log is a state's after an extraction, and after the decision to mint where that was
/// taken.
pub open spec fn extraction_logged(
    before: SharedState,
    source: Seq<char>,
    shown: ShownNumbers,
    minting: bool,
    after: LogView,
) -> bool {
    let first = extract_message(
        before.extraction_pool.extractions_count,
        shown.raw_min@,
        shown.credited@,
        source,
    );
    if minting {
        exists|between: LogView| #[trigger]
            noted(before.logs@, first, between) && noted(
                between,
                auto_mint_message(shown.aggregate@, shown.raw_min@),
                after,
            )
    } else {
        noted(before.logs@, first, after)
    }
}

/// Whether one memory is another with what a plan sends remembered.
pub open spec fn sending_remembered(
    state: SharedState,
    before: MixerMemory,
    times: HandoverTimes,
    plan: MixerPlan,
    after: MixerMemory,
) -> bool {
    &&& after.last_net_time == if plan.net_target is Some {
        times.send
    } else {
        before.last_net_time
    }
    &&& times_updated(
        state.headscale_targets@,
        before.last_headscale_times@,
        times.send,
        after.last_headscale_times@,
    )
}

/// Whether a plan, and the memory after it, are those of conditioned bytes that were handed on at
/// these readings of the clock.
pub open spec fn plans_at(
    state: SharedState,
    memory: MixerMemory,
    raw_min: Binary64,
    times: HandoverTimes,
    after: SharedState,
    plan: MixerPlan,
    remembered: MixerMemory,
) -> bool {
    &&& times.are_read()
    &&& plan_follows(state, memory, raw_min, times, after, plan)
    &&& sending_remembered(state, memory, times, plan, remembered)
}

impl SharedState {
    fn mix_in(
        &mut self,
        source: &str,
        extracted: &[u8],
        extracted_shannon: Binary64,
        nanos: u64,
    )
        requires
            old(self).wf(),
            old(self).sequence_id < u64::MAX,
            old(self).total_bytes + extracted@.len() <= usize::MAX,
        ensures
            final(self).wf(),
            *final(self) == (SharedState {
                history_whitened_entropy: final(self).history_whitened_entropy,
                pool: final(self).pool,
                display_pool: final(self).display_pool,
                total_bytes: (old(self).total_bytes + extracted@.len()) as usize,
                sequence_id: (old(self).sequence_id + 1) as u64,
                ..*old(self)
            }),
            final(self).history_whitened_entropy@ == capped(
                old(self).history_whitened_entropy@,
                extracted_shannon,
                HISTORY_LEN as nat,
            ),
            final(self).pool@ == pool_mixed(old(self).pool@, source@, extracted@, nanos),
            final(self).display_pool@ == capped_all(
                old(self).display_pool@,
                extracted@,
                POOL_SIZE as nat,
            ),
    {
        push_capped(&mut self.history_whitened_entropy, extracted_shannon, HISTORY_LEN);
        let mut input: Vec<u8> = copy_bytes(self.pool.as_slice());
        append_bytes(&mut input, source.as_bytes());
        append_bytes(&mut input, extracted);
        append_number(&mut input, nanos);
        self.pool = sha3_digest(input.as_slice());
        wipe_vec(&mut input);
        push_all_capped(&mut self.display_pool, extracted, POOL_SIZE);
        proof {
            super::ring::law_queue_bounded(old(self).display_pool@, extracted@, POOL_SIZE as nat);
        }
        self.total_bytes = self.total_bytes + extracted.len();
        self.sequence_id = self.sequence_id + 1;
    }

    fn note_extraction(
        &mut self,
        source: &str,
        raw_min: Binary64,
        shown: &ShownNumbers,
        now: u64,
    ) -> (mint: Option<MintPlan>)
        ensures
            *final(self) == (SharedState { logs: final(self).logs, ..*old(self) }),
            mint is Some <==> mint_wanted(*old(self), raw_min) && mint_rested(
                old(self).last_auto_mint_ts,
                now,
            ),
            mint matches Some(m) ==> {
                &&& m.pool == old(self).pool
                &&& m.falcon_sk@ == old(self).falcon_sk@
                &&& m.falcon_pk@ == old(self).falcon_pk@
                &&& m.aggregate == old(self).extraction_pool.aggregate_credited_bits
                &&& m.decided_at == now
            },
            extraction_logged(*old(self), source@, *shown, mint is Some, final(self).logs@),
            final(self).logs.wf(),
    {
        let message: String = self.write_extract_message(shown, source);
        self.logs.note(message.as_str());
        let ghost between = self.logs@;
        let last: u64 = self.last_auto_mint_ts;
        if self.wants_mint(raw_min) && (last == 0 || now < last || now - last >= MINT_PAUSE) {
            let mut wanted: String = "AUTO-MINT: Aggregate=".to_owned();
            wanted.append(shown.aggregate);
            wanted.append(" bits, H_min=");
            wanted.append(shown.raw_min);
            self.logs.note(wanted.as_str());
            assert(noted(old(self).logs@, message@, between));
            Some(self.plan_mint(now))
        } else {
            None
        }
    }

    /// Mixes conditioned bytes of a source into the pool at given times, and plans what is done with
    /// them.
    pub fn hand_on_at(
        &mut self,
        memory: &mut MixerMemory,
        source: &str,
        extracted: &[u8],
        extracted_shannon: Binary64,
        raw_min: Binary64,
        shown: &ShownNumbers,
        times: HandoverTimes,
    ) -> (plan: MixerPlan)
        requires
            old(self).wf(),
            old(self).sequence_id < u64::MAX,
            old(self).total_bytes + extracted@.len() <= usize::MAX,
            forall|i: int|
                0 <= i < old(self).headscale_targets@.len() ==> (#[trigger] old(
                    self,
                ).headscale_targets@[i]).forwarded_count < u64::MAX,
        ensures
            final(self).wf(),
            handed_on(
                *old(self),
                *old(memory),
                source@,
                extracted@,
                extracted_shannon,
                times,
                *final(self),
            ),
            plan_follows(*old(self), *old(memory), raw_min, times, *final(self), plan),
            sending_remembered(*old(self), *old(memory), times, plan, *final(memory)),
            extraction_logged(*old(self), source@, *shown, plan.mint is Some, final(self).logs@),
    {
        self.mix_in(source, extracted, extracted_shannon, times.nanos);
        let mint: Option<MintPlan> = self.note_extraction(source, raw_min, shown, times.mint);
        let mut net_target: Option<String> = None;
        if self.net_mode && times.send > memory.last_net_time {
            memory.last_net_time = times.send;
            net_target = Some(self.uplink_url.clone());
        }
        let hs_targets: Vec<(usize, String)> = forward_to_due(
            &mut self.headscale_targets,
            &mut memory.last_headscale_times,
            times.send,
        );
        let p2p: Option<PeerPlan> = self.plan_peers();
        MixerPlan { seq_id: self.sequence_id, mint, net_target, hs_targets, p2p }
    }

    /// Mixes conditioned bytes of a source into the pool now, and plans what is done with them.
    /// While the clock stands before 1970 nothing is done.
    pub fn hand_on(
        &mut self,
        memory: &mut MixerMemory,
        source: &str,
        extracted: &[u8],
        extracted_shannon: Binary64,
        raw_min: Binary64,
        shown: &ShownNumbers,
    ) -> (plan: Option<MixerPlan>)
        requires
            old(self).wf(),
            old(self).sequence_id < u64::MAX,
            old(self).total_bytes + extracted@.len() <= usize::MAX,
            forall|i: int|
                0 <= i < old(self).headscale_targets@.len() ==> (#[trigger] old(
                    self,
                ).headscale_targets@[i]).forwarded_count < u64::MAX,
        ensures
            final(self).wf(),
            match plan {
                None => *final(self) == *old(self) && *final(memory) == *old(memory)
                    && clock_before_epoch(),
                Some(p) => exists|times: HandoverTimes| #[trigger]
                    handed_on(
                        *old(self),
                        *old(memory),
                        source@,
                        extracted@,
                        extracted_shannon,
                        times,
                        *final(self),
                    ) && plans_at(
                        *old(self),
                        *old(memory),
                        raw_min,
                        times,
                        *final(self),
                        p,
                        *final(memory),
                    ) && extraction_logged(
                        *old(self),
                        source@,
                        *shown,
                        p.mint is Some,
                        final(self).logs@,
                    ),
            },
    {
        match HandoverTimes::at(get_timestamp_nanos(), get_timestamp(), get_timestamp()) {
            Some(times) => Some(
                self.hand_on_at(
                    memory,
                    source,
                    extracted,
                    extracted_shannon,
                    raw_min,
                    shown,
                    times,
                ),
            ),
            None => None,
        }
    }
}

/// No vault node is sent to twice within five seconds: right after it was sent to, it is not due
/// again before more than five seconds have gone by.
pub proof fn law_forwarding_is_paced(
    targets: Seq<HeadscaleState>,
    before: Map<usize, u64>,
    now: u64,
    after: Map<usize, u64>,
    later_targets: Seq<HeadscaleState>,
    later: u64,
    index: usize,
)
    requires
        times_updated(targets, before, now, after),
        index < targets.len(),
        forward_due(targets, before, now, index as int),
        later <= now + FORWARD_PAUSE,
    ensures
        !forward_due(later_targets, after, later, index as int),
{
    assert(after.contains_key(index));
    assert(last_sent(after, index) == now);
}

/// The uplink is sent to at most once a second: after it was sent to, it is not sent to again before
/// a later second.
pub proof fn law_uplink_is_paced(
    state: SharedState,
    memory: MixerMemory,
    raw_min: Binary64,
    times: HandoverTimes,
    after: SharedState,
    plan: MixerPlan,
    remembered: MixerMemory,
    next_state: SharedState,
    next_raw_min: Binary64,
    next_times: HandoverTimes,
    next_after: SharedState,
    next_plan: MixerPlan,
)
    requires
        plan_follows(state, memory, raw_min, times, after, plan),
        sending_remembered(state, memory, times, plan, remembered),
        plan.net_target is Some,
        plan_follows(next_state, remembered, next_raw_min, next_times, next_after, next_plan),
        next_times.send <= times.send,
    ensures
        next_plan.net_target is None,
{
}

/// Keys that are minted unasked lie at least ten seconds apart, as long as the clock is not set
/// back.
pub proof fn law_auto_mint_is_paced(
    state: SharedState,
    memory: MixerMemory,
    raw_min: Binary64,
    times: HandoverTimes,
    after: SharedState,
    plan: MixerPlan,
)
    requires
        plan_follows(state, memory, raw_min, times, after, plan),
        state.last_auto_mint_ts > 0,
        times.mint >= state.last_auto_mint_ts,
        times.mint < state.last_auto_mint_ts + MINT_PAUSE,
    ensures
        plan.mint is None,
{
}

proof fn lemma_due_indices(
    targets: Seq<HeadscaleState>,
    times: Map<usize, u64>,
    now: u64,
    count: nat,
    k: int,
)
    requires
        0 <= k < due_indices(targets, times, now, count).len(),
    ensures
        0 <= due_indices(targets, times, now, count)[k] < count,
        forward_due(targets, times, now, due_indices(targets, times, now, count)[k]),
    decreases count,
{
    let before = due_indices(targets, times, now, (count - 1) as nat);
    if k < before.len() {
        lemma_due_indices(targets, times, now, (count - 1) as nat, k);
    }
}

/// Whatever the clock shows, of two plans of which one is made with the memory that the other left,
/// the later one sends to the uplink only in a later second, and to no vault node of the earlier
/// plan before more than five seconds have gone by.
pub proof fn law_handovers_are_paced(
    state: SharedState,
    memory: MixerMemory,
    raw_min: Binary64,
    after: SharedState,
    plan: MixerPlan,
    remembered: MixerMemory,
    next_state: SharedState,
    next_raw_min: Binary64,
    next_after: SharedState,
    next_plan: MixerPlan,
    next_remembered: MixerMemory,
)
    requires
        exists|times: HandoverTimes| #[trigger]
            plans_at(state, memory, raw_min, times, after, plan, remembered),
        exists|times: HandoverTimes| #[trigger]
            plans_at(
                next_state,
                remembered,
                next_raw_min,
                times,
                next_after,
                next_plan,
                next_remembered,
            ),
    ensures
        exists|times: HandoverTimes, next_times: HandoverTimes|
            {
                &&& #[trigger] plans_at(state, memory, raw_min, times, after, plan, remembered)
                &&& #[trigger] plans_at(
                    next_state,
                    remembered,
                    next_raw_min,
                    next_times,
                    next_after,
                    next_plan,
                    next_remembered,
                )
                &&& plan.net_target is Some && next_plan.net_target is Some ==> next_times.send
                    > times.send
                &&& forall|k: int, l: int|
                    0 <= k < plan.hs_targets@.len() && 0 <= l < next_plan.hs_targets@.len()
                        && #[trigger] plan.hs_targets@[k].0 == #[trigger] next_plan.hs_targets@[l].0
                        ==> next_times.send > times.send + FORWARD_PAUSE
            },
{
    let times = choose|times: HandoverTimes| #[trigger]
        plans_at(state, memory, raw_min, times, after, plan, remembered);
    let next_times = choose|times: HandoverTimes| #[trigger]
        plans_at(
            next_state,
            remembered,
            next_raw_min,
            times,
            next_after,
            next_plan,
            next_remembered,
        );
    let targets = state.headscale_targets@;
    let next_targets = next_state.headscale_targets@;
    assert forall|k: int, l: int|
        0 <= k < plan.hs_targets@.len() && 0 <= l < next_plan.hs_targets@.len()
            && #[trigger] plan.hs_targets@[k].0
            == #[trigger] next_plan.hs_targets@[l].0 implies next_times.send > times.send
        + FORWARD_PAUSE by {
        let index = plan.hs_targets@[k].0;
        lemma_due_indices(
            targets,
            memory.last_headscale_times@,
            times.send,
            targets.len(),
            k,
        );
        lemma_due_indices(
            next_targets,
            remembered.last_headscale_times@,
            next_times.send,
            next_targets.len(),
            l,
        );
        assert(plan.hs_targets@[k].0 == index);
        assert(next_plan.hs_targets@[l].0 == index);
        assert(last_sent(remembered.last_headscale_times@, index) == times.send);
    }
}

/// What comes out of the extraction pool is hashed into the engine's pool together with all that was
/// in it: the SHA-3 input is the 32 bytes of the old pool, the name of the source, the conditioned
/// bytes and the time, one behind the other. The shown pool is the last 1024 bytes, and the counters
/// go on by what was mixed in.
pub proof fn law_pool_carries_on(
    before: SharedState,
    memory: MixerMemory,
    source: Seq<char>,
    extracted: Seq<u8>,
    extracted_shannon: Binary64,
    times: HandoverTimes,
    after: SharedState,
)
    requires
        before.wf(),
        handed_on(before, memory, source, extracted, extracted_shannon, times, after),
        before.total_bytes + extracted.len() <= usize::MAX,
        before.sequence_id < u64::MAX,
    ensures
        exists|input: Seq<u8>|
            {
                let name = encode_utf8(source).len() as int;
                let n = extracted.len() as int;
                &&& after.pool@ == #[trigger] sha3_256(input)
                &&& input.len() == 32 + name + n + 8
                &&& forall|i: int| 0 <= i < 32 ==> #[trigger] input[i] == before.pool@[i]
                &&& input.subrange(32, 32 + name) == encode_utf8(source)
                &&& input.subrange(32 + name, 32 + name + n) == extracted
                &&& input.skip(32 + name + n) == le_bytes(times.nanos)
            },
        after.total_bytes == before.total_bytes + extracted.len(),
        after.sequence_id == before.sequence_id + 1,
        after.display_pool@ == (before.display_pool@ + extracted).skip(extracted.len() as int),
        after.history_whitened_entropy@ == before.history_whitened_entropy@.skip(1).push(
            extracted_shannon,
        ),
        after.extraction_pool == before.extraction_pool,
{
    law_number_bytes(times.nanos, 0);
    let input = before.pool@ + encode_utf8(source) + extracted + le_bytes(times.nanos);
    let name = encode_utf8(source).len() as int;
    let n = extracted.len() as int;
    assert(after.pool@ == sha3_256(input));
    assert(input.subrange(32, 32 + name) =~= encode_utf8(source));
    assert(input.subrange(32 + name, 32 + name + n) =~= extracted);
    assert(input.skip(32 + name + n) =~= le_bytes(times.nanos));
    law_queue_keeps_newest(before.display_pool@, extracted, POOL_SIZE as nat);
    let all = before.display_pool@ + extracted;
    assert(all.skip(all.len() - POOL_SIZE) =~= all.skip(extracted.len() as int));
    if extracted.len() == 0 {
        assert(all.skip(0) =~= all);
    }
}

/// Nothing that was in the pool is thrown away: of two pools that differ, mixed with the same bytes
/// of the same source at the same time, or of one pool mixed with different bytes, different inputs
/// are hashed.
pub proof fn law_pools_stay_apart(
    pool: Seq<u8>,
    other_pool: Seq<u8>,
    source: Seq<char>,
    extracted: Seq<u8>,
    other_extracted: Seq<u8>,
    nanos: u64,
)
    requires
        pool.len() == 32,
        other_pool.len() == 32,
        pool != other_pool || extracted != other_extracted,
    ensures
        exists|input: Seq<u8>, other: Seq<u8>|
            {
                &&& pool_mixed(pool, source, extracted, nanos) == #[trigger] sha3_256(input)
                &&& pool_mixed(other_pool, source, other_extracted, nanos) == #[trigger] sha3_256(
                    other,
                )
                &&& input != other
                &&& input.take(32) == pool
                &&& other.take(32) == other_pool
            },
{
    law_number_bytes(nanos, 0);
    let name = encode_utf8(source);
    let input = pool + name + extracted + le_bytes(nanos);
    let other = other_pool + name + other_extracted + le_bytes(nanos);
    let at = 32 + name.len();
    assert(input.take(32) =~= pool);
    assert(other.take(32) =~= other_pool);
    assert(input.subrange(at as int, input.len() - 8) =~= extracted);
    assert(other.subrange(at as int, other.len() - 8) =~= other_extracted);
    assert(pool_mixed(pool, source, extracted, nanos) == sha3_256(input));
    assert(pool_mixed(other_pool, source, other_extracted, nanos) == sha3_256(other));
    assert(input != other);
}

proof fn lemma_due_complete(
    targets: Seq<HeadscaleState>,
    times: Map<usize, u64>,
    now: u64,
    count: nat,
)
    ensures
        forall|i: int|
            0 <= i < count && forward_due(targets, times, now, i) ==> #[trigger] due_indices(
                targets,
                times,
                now,
                count,
            ).contains(i),
        forall|k: int, l: int|
            0 <= k < l < due_indices(targets, times, now, count).len() ==> #[trigger] due_indices(
                targets,
                times,
                now,
                count,
            )[k] < #[trigger] due_indices(targets, times, now, count)[l],
    decreases count,
{
    if count > 0 {
        let less = (count - 1) as nat;
        let before = due_indices(targets, times, now, less);
        let all = due_indices(targets, times, now, count);
        lemma_due_complete(targets, times, now, less);
        assert forall|i: int| 0 <= i < count && forward_due(targets, times, now, i) implies
            #[trigger] all.contains(i) by {
            if i < less {
                assert(before.contains(i));
                let k = choose|k: int| 0 <= k < before.len() && before[k] == i;
                assert(all[k] == i);
            } else {
                assert(all.last() == i);
                assert(all[all.len() - 1] == i);
            }
        }
        assert forall|k: int, l: int| 0 <= k < l < all.len() implies #[trigger] all[k]
            < #[trigger] all[l] by {
            lemma_due_indices(targets, times, now, count, k);
            if l < before.len() {
                assert(before[k] < before[l]);
            } else {
                lemma_due_indices(targets, times, now, less, k);
            }
        }
    }
}

/// Every vault node that is switched on and was not sent to within the last five seconds is in the
/// plan, once, under its own address, and no other is. Those in the plan are counted and their time
/// is kept; nothing is changed of the others.
pub proof fn law_every_due_node_is_sent_to(
    before: SharedState,
    memory: MixerMemory,
    source: Seq<char>,
    extracted: Seq<u8>,
    extracted_shannon: Binary64,
    raw_min: Binary64,
    times: HandoverTimes,
    after: SharedState,
    plan: MixerPlan,
    remembered: MixerMemory,
)
    requires
        before.headscale_targets@.len() <= usize::MAX,
        forall|i: int|
            0 <= i < before.headscale_targets@.len() ==> (
            #[trigger] before.headscale_targets@[i]).forwarded_count < u64::MAX,
        handed_on(before, memory, source, extracted, extracted_shannon, times, after),
        plan_follows(before, memory, raw_min, times, after, plan),
        sending_remembered(before, memory, times, plan, remembered),
    ensures
        after.headscale_targets@.len() == before.headscale_targets@.len(),
        forall|i: int| #[trigger]
            plan_lists(plan.hs_targets@, i) <==> {
                &&& 0 <= i < before.headscale_targets@.len()
                &&& before.headscale_targets@[i].target.enabled
                &&& times.send > 5 + (if memory.last_headscale_times@.contains_key(i as usize) {
                    memory.last_headscale_times@[i as usize]
                } else {
                    0
                })
            },
        forall|k: int, l: int|
            0 <= k < l < plan.hs_targets@.len() ==> (#[trigger] plan.hs_targets@[k]).0 < (
            #[trigger] plan.hs_targets@[l]).0,
        forall|k: int|
            0 <= k < plan.hs_targets@.len() ==> {
                let node = before.headscale_targets@[(#[trigger] plan.hs_targets@[k]).0 as int];
                plan.hs_targets@[k].1@ == "http://"@ + node.target.ip@ + ":"@ + numeral(
                    node.target.port as nat,
                ) + "/entropy"@
            },
        forall|i: int|
            0 <= i < before.headscale_targets@.len() ==> {
                let old_node = before.headscale_targets@[i];
                let new_node = #[trigger] after.headscale_targets@[i];
                &&& new_node.target == old_node.target
                &&& new_node.reachable == old_node.reachable
                &&& plan_lists(plan.hs_targets@, i) ==> new_node.forwarded_count
                    == old_node.forwarded_count + 1 && new_node.last_forward_ts == times.send
                    && remembered.last_headscale_times@.contains_key(i as usize)
                    && remembered.last_headscale_times@[i as usize] == times.send
                &&& !plan_lists(plan.hs_targets@, i) ==> new_node == old_node
            },
{
    let targets = before.headscale_targets@;
    let sent = memory.last_headscale_times@;
    let due = due_indices(targets, sent, times.send, targets.len());
    let listed = plan.hs_targets@;
    lemma_due_complete(targets, sent, times.send, targets.len());
    assert forall|i: int| #[trigger] plan_lists(listed, i) <==> {
        &&& 0 <= i < targets.len()
        &&& targets[i].target.enabled
        &&& times.send > 5 + (if sent.contains_key(i as usize) {
            sent[i as usize]
        } else {
            0
        })
    } by {
        if plan_lists(listed, i) {
            let k = choose|k: int| 0 <= k < listed.len() && (#[trigger] listed[k]).0 == i;
            lemma_due_indices(targets, sent, times.send, targets.len(), k);
        } else if 0 <= i < targets.len() && forward_due(targets, sent, times.send, i) {
            assert(due.contains(i));
            let k = choose|k: int| 0 <= k < due.len() && due[k] == i;
            assert(listed[k].0 == i);
        }
    }
    assert forall|k: int, l: int| 0 <= k < l < listed.len() implies (#[trigger] listed[k]).0 < (
    #[trigger] listed[l]).0 by {
        assert(due[k] < due[l]);
    }
    assert forall|i: int| 0 <= i < targets.len() && plan_lists(listed, i) implies
        #[trigger] remembered.last_headscale_times@.contains_key(i as usize)
        && remembered.last_headscale_times@[i as usize] == times.send by {
        assert(forward_due(targets, sent, times.send, i));
    }
}

/// Whether a plan lists a vault node.
pub open spec fn plan_lists(plan: Seq<(usize, String)>, index: int) -> bool {
    exists|k: int| 0 <= k < plan.len() && (#[trigger] plan[k]).0 == index
}

/// The uplink is sent to exactly where it is switched on and this second has not been used; peers
/// exactly where the exchange is on and there are any, all of them and with the key that is set; and
/// a key is minted unasked exactly where that is switched on, enough bits are credited, the batch has
/// more than one bit for each byte, and ten seconds have gone by since the last one.
pub proof fn law_plan_is_complete(
    before: SharedState,
    memory: MixerMemory,
    raw_min: Binary64,
    times: HandoverTimes,
    after: SharedState,
    plan: MixerPlan,
)
    requires
        plan_follows(before, memory, raw_min, times, after, plan),
    ensures
        before.net_mode && times.send > memory.last_net_time ==> plan.net_target
            == Some(before.uplink_url),
        !before.net_mode || times.send <= memory.last_net_time ==> plan.net_target is None,
        !before.p2p_config.active || before.p2p_config.peers@.len() == 0 ==> plan.p2p is None,
        before.p2p_config.active && before.p2p_config.peers@.len() > 0 ==> (plan.p2p matches Some(p)
            && p.peers@ == before.p2p_config.peers@),
        plan.p2p matches Some(p) ==> (p.hmac_key is Some <==> before.p2p_config.hmac_key is Some),
        plan.p2p matches Some(p) ==> (p.hmac_key matches Some(key) ==> key@
            == before.p2p_config.hmac_key->0@),
        plan.seq_id == after.sequence_id,
        plan.mint is Some <==> {
            let credit = before.extraction_pool.aggregate_credited_bits;
            let one_bit = Binary64 { bits: 0x3ff0_0000_0000_0000 };
            &&& before.pqc_active
            &&& before.auto_mint_enabled
            &&& !credit.is_nan() && !before.mint_threshold.is_nan() && credit.units()
                >= before.mint_threshold.units()
            &&& !raw_min.is_nan() && raw_min.units() > one_bit.units()
            &&& before.last_auto_mint_ts == 0 || times.mint < before.last_auto_mint_ts
                || times.mint >= before.last_auto_mint_ts + 10
        },
        plan.mint matches Some(m) ==> m.pool@ == after.pool@ && m.falcon_sk@ == before.falcon_sk@
            && m.falcon_pk@ == before.falcon_pk@ && m.aggregate
            == before.extraction_pool.aggregate_credited_bits && m.decided_at == times.mint,
{
}

/// A batch leaves its mark on its own source and on the totals: one batch more is counted of the
/// source, its estimate is the newest of the 300 that are kept, and nothing is changed of any other
/// source, of the pool, of the log or of what is sent where.
pub proof fn law_batch_leaves_its_mark(
    before: SharedState,
    source: Seq<char>,
    other: Seq<char>,
    numbers: BatchNumbers,
    after: SharedState,
)
    requires
        before.wf(),
        other != source,
        batch_noted(before, source, numbers, after),
    ensures
        ({
            let old_metrics = metrics_of(before.source_metrics@, source);
            let new_metrics = metrics_of(after.source_metrics@, source);
            &&& new_metrics.samples == old_metrics.samples + 1
            &&& new_metrics.raw_shannon == numbers.raw_shannon
            &&& new_metrics.min_entropy == numbers.raw_min
            &&& new_metrics.total_bits_contributed == numbers.source_total
            &&& new_metrics.health_state == old_metrics.health_state
        }),
        metrics_of(after.source_metrics@, other) == metrics_of(before.source_metrics@, other),
        after.history_raw_entropy@ == before.history_raw_entropy@.skip(1).push(numbers.raw_min),
        after.history_raw_entropy@.len() == 300,
        after.estimated_true_entropy_bits == numbers.estimated_total,
        after.credited_entropy_bits == numbers.credited_total,
        after.last_shannon == numbers.raw_shannon,
        after.pool == before.pool,
        after.logs == before.logs,
        after.sequence_id == before.sequence_id,
        after.total_bytes == before.total_bytes,
        after.headscale_targets == before.headscale_targets,
        after.p2p_config == before.p2p_config,
{
}

/// An extraction is told in one line of the log, and in a second one where a key is to be minted. All
/// earlier lines stay where there is room for these.
pub proof fn law_extraction_is_told(
    before: SharedState,
    source: Seq<char>,
    shown: ShownNumbers,
    minting: bool,
    after: LogView,
)
    requires
        extraction_logged(before, source, shown, minting, after),
        before.logs@.lines.len() + 2 <= before.logs@.limit,
    ensures
        after.lines.len() == before.logs@.lines.len() + (if minting {
            2int
        } else {
            1
        }),
        after.lines.take(before.logs@.lines.len() as int) == before.logs@.lines,
        after.limit == before.logs@.limit,
{
    let first = extract_message(
        before.extraction_pool.extractions_count,
        shown.raw_min@,
        shown.credited@,
        source,
    );
    let n = before.logs@.lines.len() as int;
    if minting {
        let second = auto_mint_message(shown.aggregate@, shown.raw_min@);
        let between = choose|between: LogView| #[trigger]
            noted(before.logs@, first, between) && noted(between, second, after);
        law_log_bounded(before.logs@, first, between);
        law_log_bounded(between, second, after);
        assert(after.lines.take(n) =~= between.lines.take(n));
        assert(between.lines.take(n) =~= before.logs@.lines);
    } else {
        law_log_bounded(before.logs@, first, after);
        assert(after.lines.take(n) =~= before.logs@.lines);
    }
}

} // verus!
