//! The extraction pool: raw bytes are gathered and conditioned with SHA-256, 256 bytes in and 32
//! bytes out, after NIST SP 800-90B section 3.1.5.

use super::accumulator::RunningEntropyAccumulator;
use super::bits::StatTestResults;
use super::estimate::EntropyEstimate;
use crate::binary64::Binary64;
use crate::bytes::{append_bytes, append_number, copy_bytes, law_number_bytes, le_bytes};
use crate::clock::{all_read, clock_before_epoch, read_clock, ClockReading};
use crate::crypto::{sha256, sha256_digest};
use vstd::prelude::*;

verus! {

/// Raw bytes that go into one extraction.
pub const EXTRACTION_POOL_SIZE: usize = 256;

/// Bytes that come out of one extraction.
pub const EXTRACTION_OUTPUT: usize = 32;

/// Conditioned bytes from which on they are tested.
pub const TEST_FLOOR: usize = 1024;

/// Conditioned bytes above which the older ones are dropped.
pub const TEST_CEILING: usize = 8192;

/// Conditioned bytes that are kept when the older ones are dropped.
pub const TEST_KEPT: usize = 4096;

/// What an extraction hands to the hash: a block of raw bytes, the number of extractions before it
/// and a reading of the clock in nanoseconds.
pub open spec fn conditioning_input(block: Seq<u8>, count: u64, nanos: u64) -> Seq<u8> {
    block + le_bytes(count) + le_bytes(nanos)
}

/// The conditioned bytes that are kept for the next test.
pub open spec fn kept_for_tests(conditioned: Seq<u8>) -> Seq<u8> {
    if conditioned.len() > TEST_CEILING {
        conditioned.skip(conditioned.len() - TEST_KEPT)
    } else {
        conditioned
    }
}

/// The conditioned bytes that are to be tested, if there are enough of them.
pub open spec fn test_sample(conditioned: Seq<u8>) -> Option<Seq<u8>> {
    if conditioned.len() >= TEST_FLOOR {
        Some(conditioned)
    } else {
        None
    }
}

/// An extraction pool as its contracts see it.
#[verifier::ext_equal]
pub struct PoolView {
    /// Raw bytes that wait for an extraction.
    pub buffer: Seq<u8>,
    /// Extractions so far.
    pub extractions: nat,
    /// When the last extraction was, in seconds since 1970.
    pub last_extraction: u64,
    /// Raw bytes that went into extractions.
    pub raw_consumed: nat,
    /// Bytes that came out of extractions.
    pub extracted_bytes: nat,
    /// Bits credited since the last extraction.
    pub credited: Binary64,
    /// Bits credited since the last key was minted.
    pub aggregate: Binary64,
    /// The verdicts of the last statistical tests.
    pub stat_tests: Option<StatTestResults>,
    /// Conditioned bytes that are kept for the next test.
    pub conditioned: Seq<u8>,
}

impl PoolView {
    /// The conditioned output of one extraction.
    pub open spec fn conditioned_output(self, reading: ClockReading) -> Seq<u8> {
        sha256(
            conditioning_input(
                self.buffer.take(EXTRACTION_POOL_SIZE as int),
                self.extractions as u64,
                reading.nanos,
            ),
        )
    }

    /// The pool after one extraction.
    pub open spec fn extracted(self, reading: ClockReading) -> PoolView {
        PoolView {
            buffer: self.buffer.skip(EXTRACTION_POOL_SIZE as int),
            extractions: self.extractions + 1,
            last_extraction: reading.seconds,
            raw_consumed: self.raw_consumed + EXTRACTION_POOL_SIZE as nat,
            extracted_bytes: self.extracted_bytes + EXTRACTION_OUTPUT as nat,
            credited: Binary64 { bits: 0 },
            conditioned: kept_for_tests(self.conditioned + self.conditioned_output(reading)),
            ..self
        }
    }

    /// The pool after one extraction for each reading, in their order.
    pub open spec fn after(self, readings: Seq<ClockReading>) -> PoolView
        decreases readings.len(),
    {
        if readings.len() == 0 {
            self
        } else {
            self.after(readings.drop_last()).extracted(readings.last())
        }
    }

    /// All that comes out of one extraction for each reading, one output behind the other.
    pub open spec fn output(self, readings: Seq<ClockReading>) -> Seq<u8>
        decreases readings.len(),
    {
        if readings.len() == 0 {
            Seq::empty()
        } else {
            self.output(readings.drop_last()) + self.after(
                readings.drop_last(),
            ).conditioned_output(readings.last())
        }
    }

    /// The sample that the last of these extractions leaves to be tested, if it leaves one.
    pub open spec fn sample(self, readings: Seq<ClockReading>) -> Option<Seq<u8>> {
        if readings.len() == 0 {
            None
        } else {
            let last = self.after(readings.drop_last());
            test_sample(last.conditioned + last.conditioned_output(readings.last()))
        }
    }

    /// The pool with raw bytes and their credit added, before any extraction.
    pub open spec fn filled(
        self,
        raw: Seq<u8>,
        credited: Binary64,
        aggregate: Binary64,
    ) -> PoolView {
        PoolView { buffer: self.buffer + raw, credited, aggregate, ..self }
    }

    /// Every extraction took 256 raw bytes and gave 32, fewer than 256 wait, and no more than the
    /// ceiling are kept for tests.
    pub open spec fn balanced(self) -> bool {
        &&& self.raw_consumed == EXTRACTION_POOL_SIZE * self.extractions
        &&& self.extracted_bytes == EXTRACTION_OUTPUT * self.extractions
        &&& self.buffer.len() < EXTRACTION_POOL_SIZE
        &&& self.conditioned.len() <= TEST_CEILING
    }
}

/// A pool to which nothing was added yet.
pub open spec fn empty_pool() -> PoolView {
    PoolView {
        buffer: Seq::empty(),
        extractions: 0,
        last_extraction: 0,
        raw_consumed: 0,
        extracted_bytes: 0,
        credited: Binary64 { bits: 0 },
        aggregate: Binary64 { bits: 0 },
        stat_tests: None,
        conditioned: Seq::empty(),
    }
}

/// How many extractions are due once `count` more bytes are in a pool.
pub open spec fn extractions_due(pool: PoolView, count: nat) -> nat {
    (pool.buffer.len() + count) / (EXTRACTION_POOL_SIZE as nat)
}

/// What a call brought: the conditioned bytes, and the sample to be tested if one is due.
pub struct Extraction {
    /// The conditioned bytes, 32 for each extraction.
    pub output: Vec<u8>,
    /// The conditioned bytes on which the statistical tests are due.
    pub sample: Option<Vec<u8>>,
}

/// The clock stands before 1970, so that there is no time to stamp anything with.
#[derive(Clone, Copy, PartialEq, Eq, Structural, Debug)]
pub struct ClockBeforeEpoch;

/// Gathers raw bytes and conditions them.
#[derive(Clone)]
pub struct EntropyExtractionPool {
    pub buffer: Vec<u8>,
    pub extractions_count: u64,
    /// When the last extraction was, in seconds since 1970.
    pub last_extraction: u64,
    pub total_raw_consumed: usize,
    pub total_extracted_bytes: usize,
    pub credited_entropy_bits: Binary64,
    pub aggregate_credited_bits: Binary64,
    /// Counts over all raw bytes.
    pub accumulator: RunningEntropyAccumulator,
    /// Counts over all conditioned bytes.
    pub output_accumulator: RunningEntropyAccumulator,
    /// The verdicts of the last statistical tests on conditioned bytes.
    pub last_stat_tests: Option<StatTestResults>,
    /// Recent conditioned bytes, kept for the next test.
    pub conditioned_buffer: Vec<u8>,
}

impl View for EntropyExtractionPool {
    type V = PoolView;

    open spec fn view(&self) -> PoolView {
        PoolView {
            buffer: self.buffer@,
            extractions: self.extractions_count as nat,
            last_extraction: self.last_extraction,
            raw_consumed: self.total_raw_consumed as nat,
            extracted_bytes: self.total_extracted_bytes as nat,
            credited: self.credited_entropy_bits,
            aggregate: self.aggregate_credited_bits,
            stat_tests: self.last_stat_tests,
            conditioned: self.conditioned_buffer@,
        }
    }
}

impl EntropyExtractionPool {
    /// The books balance and there is a count for every pair.
    pub open spec fn wf(&self) -> bool {
        &&& self@.balanced()
        &&& self.accumulator.wf()
        &&& self.output_accumulator.wf()
    }

    /// Whether the counters can take `raw` as well.
    pub open spec fn has_room(&self, raw: Seq<u8>) -> bool {
        let due = extractions_due(self@, raw.len());
        &&& self.buffer@.len() + raw.len() <= usize::MAX
        &&& self.extractions_count + due <= u64::MAX
        &&& self.total_raw_consumed + EXTRACTION_POOL_SIZE * due <= usize::MAX
        &&& self.total_extracted_bytes + EXTRACTION_OUTPUT * due <= usize::MAX
        &&& self.accumulator.has_room(raw)
        &&& self.output_accumulator.headroom(EXTRACTION_OUTPUT as nat * due)
    }

    /// An empty pool.
    pub fn new() -> (pool: Self)
        ensures
            pool.wf(),
            pool@ == empty_pool(),
            pool.accumulator.is_fresh(),
            pool.output_accumulator.is_fresh(),
    {
        EntropyExtractionPool {
            buffer: Vec::new(),
            extractions_count: 0,
            last_extraction: 0,
            total_raw_consumed: 0,
            total_extracted_bytes: 0,
            credited_entropy_bits: Binary64::from_bits(0),
            aggregate_credited_bits: Binary64::from_bits(0),
            accumulator: RunningEntropyAccumulator::new(),
            output_accumulator: RunningEntropyAccumulator::new(),
            last_stat_tests: None,
            conditioned_buffer: Vec::new(),
        }
    }

    /// Whether every counter is far enough from its limit to take any `count` bytes.
    pub open spec fn headroom(&self, count: nat) -> bool {
        let due = extractions_due(self@, count);
        &&& self.buffer@.len() + count <= usize::MAX
        &&& self.extractions_count + due <= u64::MAX
        &&& self.total_raw_consumed + EXTRACTION_POOL_SIZE * due <= usize::MAX
        &&& self.total_extracted_bytes + EXTRACTION_OUTPUT * due <= usize::MAX
        &&& self.accumulator.headroom(count)
        &&& self.output_accumulator.headroom(EXTRACTION_OUTPUT as nat * due)
    }

    /// Tests whether every counter is far enough from its limit to take any `count` bytes.
    pub fn has_headroom(&self, count: usize) -> (room: bool)
        requires
            self.wf(),
        ensures
            room == self.headroom(count as nat),
            room ==> forall|raw: Seq<u8>| raw.len() == count ==> #[trigger] self.has_room(raw),
    {
        if self.buffer.len() > usize::MAX - count {
            return false;
        }
        let due: usize = (self.buffer.len() + count) / EXTRACTION_POOL_SIZE;
        if self.extractions_count > u64::MAX - due as u64 || self.total_raw_consumed > usize::MAX
            - EXTRACTION_POOL_SIZE * due || self.total_extracted_bytes > usize::MAX
            - EXTRACTION_OUTPUT * due {
            return false;
        }
        let room: bool = self.accumulator.has_headroom(count) && self.output_accumulator.has_headroom(
            EXTRACTION_OUTPUT * due,
        );
        proof {
            if room {
                assert forall|raw: Seq<u8>| raw.len() == count implies #[trigger] self.has_room(
                    raw,
                ) by {
                    super::accumulator::lemma_headroom(
                        &self.accumulator,
                        raw,
                        count as nat,
                        &self.accumulator,
                    );
                }
            }
        }
        room
    }

    /// One extraction: the oldest 256 raw bytes, with the number of extractions and the time, give 32
    /// conditioned bytes.
    fn extract(&mut self, reading: ClockReading) -> (extraction: Extraction)
        requires
            old(self).accumulator.wf(),
            old(self).output_accumulator.wf(),
            old(self).output_accumulator.headroom(EXTRACTION_OUTPUT as nat),
            old(self).buffer@.len() >= EXTRACTION_POOL_SIZE,
            old(self).conditioned_buffer@.len() <= TEST_CEILING,
            old(self).extractions_count < u64::MAX,
            old(self).total_raw_consumed + EXTRACTION_POOL_SIZE <= usize::MAX,
            old(self).total_extracted_bytes + EXTRACTION_OUTPUT <= usize::MAX,
        ensures
            final(self)@ == old(self)@.extracted(reading),
            final(self).accumulator == old(self).accumulator,
            final(self).conditioned_buffer@.len() <= TEST_CEILING,
            extraction.output@ == old(self)@.conditioned_output(reading),
            extraction.output@.len() == EXTRACTION_OUTPUT,
            old(self).output_accumulator.fed(
                extraction.output@,
                &final(self).output_accumulator,
            ),
            match extraction.sample {
                Some(bytes) => test_sample(
                    old(self).conditioned_buffer@ + extraction.output@,
                ) == Some(bytes@),
                None => test_sample(old(self).conditioned_buffer@ + extraction.output@) is None,
            },
    {
        let ghost start = *self;
        let mut block: Vec<u8> = self.buffer.split_off(EXTRACTION_POOL_SIZE);
        std::mem::swap(&mut self.buffer, &mut block);
        assert(self.buffer@ =~= start.buffer@.skip(EXTRACTION_POOL_SIZE as int));
        assert(block@ =~= start.buffer@.take(EXTRACTION_POOL_SIZE as int));
        append_number(&mut block, self.extractions_count);
        append_number(&mut block, reading.nanos);
        let digest: [u8; 32] = sha256_digest(block.as_slice());
        let output: Vec<u8> = copy_bytes(digest.as_slice());
        self.total_raw_consumed = self.total_raw_consumed + EXTRACTION_POOL_SIZE;
        self.total_extracted_bytes = self.total_extracted_bytes + EXTRACTION_OUTPUT;
        self.extractions_count = self.extractions_count + 1;
        self.last_extraction = reading.seconds;
        self.credited_entropy_bits = Binary64::from_bits(0);
        proof {
            super::accumulator::lemma_headroom(
                &start.output_accumulator,
                output@,
                EXTRACTION_OUTPUT as nat,
                &start.output_accumulator,
            );
        }
        self.output_accumulator.update(output.as_slice());
        append_bytes(&mut self.conditioned_buffer, output.as_slice());
        let mut sample: Option<Vec<u8>> = None;
        if self.conditioned_buffer.len() >= TEST_FLOOR {
            sample = Some(copy_bytes(self.conditioned_buffer.as_slice()));
            if self.conditioned_buffer.len() > TEST_CEILING {
                let cut: usize = self.conditioned_buffer.len() - TEST_KEPT;
                let ghost whole = self.conditioned_buffer@;
                let mut kept: Vec<u8> = self.conditioned_buffer.split_off(cut);
                std::mem::swap(&mut self.conditioned_buffer, &mut kept);
                assert(self.conditioned_buffer@ =~= whole.skip(cut as int));
            }
        }
        Extraction { output, sample }
    }

    /// Adds raw bytes and conditions every full block of them, one extraction for each reading of
    /// the clock. `credited` and `aggregate` are the credits with those of the raw bytes added.
    /// Nothing comes back where no block is full.
    pub fn add_raw_bytes_at(
        &mut self,
        raw_data: &[u8],
        credited: Binary64,
        aggregate: Binary64,
        readings: &[ClockReading],
    ) -> (extraction: Option<Extraction>)
        requires
            old(self).wf(),
            old(self).has_room(raw_data@),
            readings@.len() == extractions_due(old(self)@, raw_data@.len()),
        ensures
            final(self).wf(),
            final(self)@ == old(self)@.filled(raw_data@, credited, aggregate).after(readings@),
            final(self).buffer@ == (old(self).buffer@ + raw_data@).skip(
                EXTRACTION_POOL_SIZE * extractions_due(old(self)@, raw_data@.len()),
            ),
            old(self).accumulator.fed(raw_data@, &final(self).accumulator),
            old(self).output_accumulator.fed(
                old(self)@.filled(raw_data@, credited, aggregate).output(readings@),
                &final(self).output_accumulator,
            ),
            extraction is Some <==> readings@.len() > 0,
            extraction matches Some(e) ==> {
                let filled = old(self)@.filled(raw_data@, credited, aggregate);
                &&& e.output@ == filled.output(readings@)
                &&& e.output@.len() == EXTRACTION_OUTPUT * readings@.len()
                &&& e.sample is Some <==> filled.sample(readings@) is Some
                &&& e.sample matches Some(bytes) ==> filled.sample(readings@) == Some(bytes@)
            },
    {
        let ghost filled = self@.filled(raw_data@, credited, aggregate);
        let ghost due = readings@.len();
        append_bytes(&mut self.buffer, raw_data);
        self.accumulator.update(raw_data);
        self.credited_entropy_bits = credited;
        self.aggregate_credited_bits = aggregate;
        let mut output: Vec<u8> = Vec::new();
        let mut sample: Option<Vec<u8>> = None;
        let mut k: usize = 0;
        assert(self@ =~= filled.after(readings@.take(0)));
        assert(output@ =~= filled.output(readings@.take(0)));
        while k < readings.len()
            invariant
                k <= readings.len(),
                due == readings@.len(),
                filled.buffer.len() == EXTRACTION_POOL_SIZE * due + filled.buffer.len()
                    % EXTRACTION_POOL_SIZE as nat,
                self.buffer@.len() == filled.buffer.len() - EXTRACTION_POOL_SIZE * k,
                self.conditioned_buffer@.len() <= TEST_CEILING,
                self.accumulator.wf(),
                self.output_accumulator.wf(),
                old(self).accumulator.fed(raw_data@, &self.accumulator),
                self@ == filled.after(readings@.take(k as int)),
                output@ == filled.output(readings@.take(k as int)),
                output@.len() == EXTRACTION_OUTPUT * k,
                old(self).output_accumulator.fed(output@, &self.output_accumulator),
                self.output_accumulator.headroom(EXTRACTION_OUTPUT as nat * (due - k) as nat),
                self.extractions_count == old(self).extractions_count + k,
                self.total_raw_consumed == old(self).total_raw_consumed + EXTRACTION_POOL_SIZE * k,
                self.total_extracted_bytes == old(self).total_extracted_bytes + EXTRACTION_OUTPUT
                    * k,
                old(self).extractions_count + due <= u64::MAX,
                old(self).total_raw_consumed + EXTRACTION_POOL_SIZE * due <= usize::MAX,
                old(self).total_extracted_bytes + EXTRACTION_OUTPUT * due <= usize::MAX,
                sample is Some <==> filled.sample(readings@.take(k as int)) is Some,
                sample matches Some(bytes) ==> filled.sample(readings@.take(k as int)) == Some(
                    bytes@,
                ),
            decreases readings.len() - k,
        {
            let ghost before = *self;
            let ghost so_far = output@;
            proof {
                assert(readings@.take(k + 1).drop_last() =~= readings@.take(k as int));
                assert(self.output_accumulator.headroom(EXTRACTION_OUTPUT as nat)) by {
                    assert(EXTRACTION_OUTPUT <= EXTRACTION_OUTPUT * (due - k));
                }
            }
            let extraction: Extraction = self.extract(readings[k]);
            append_bytes(&mut output, extraction.output.as_slice());
            sample = extraction.sample;
            proof {
                super::accumulator::law_feeding_composes(
                    &old(self).output_accumulator,
                    so_far,
                    &before.output_accumulator,
                    extraction.output@,
                    &self.output_accumulator,
                );
                super::accumulator::lemma_headroom(
                    &before.output_accumulator,
                    extraction.output@,
                    EXTRACTION_OUTPUT as nat * (due - k) as nat,
                    &self.output_accumulator,
                );
            }
            k += 1;
        }
        assert(readings@.take(k as int) =~= readings@);
        proof {
            law_no_byte_lost(old(self)@, raw_data@, credited, aggregate, readings@);
        }
        if output.len() == 0 {
            None
        } else {
            Some(Extraction { output, sample })
        }
    }

    /// Adds raw bytes and conditions every full block of them, reading the clock for each
    /// extraction. While the clock stands before 1970 nothing is done.
    pub fn add_raw_bytes(
        &mut self,
        raw_data: &[u8],
        credited: Binary64,
        aggregate: Binary64,
    ) -> (extraction: Result<Option<Extraction>, ClockBeforeEpoch>)
        requires
            old(self).wf(),
            old(self).has_room(raw_data@),
        ensures
            final(self).wf(),
            match extraction {
                Err(_) => *final(self) == *old(self) && extractions_due(
                    old(self)@,
                    raw_data@.len(),
                ) > 0 && clock_before_epoch(),
                Ok(brought) => {
                    let filled = old(self)@.filled(raw_data@, credited, aggregate);
                    &&& old(self).accumulator.fed(raw_data@, &final(self).accumulator)
                    &&& final(self).buffer@ == (old(self).buffer@ + raw_data@).skip(
                        EXTRACTION_POOL_SIZE * extractions_due(old(self)@, raw_data@.len()),
                    )
                    &&& brought is Some <==> old(self).buffer@.len() + raw_data@.len()
                        >= EXTRACTION_POOL_SIZE
                    &&& brought matches Some(e) ==> e.output@.len() == EXTRACTION_OUTPUT
                        * extractions_due(old(self)@, raw_data@.len())
                    &&& exists|readings: Seq<ClockReading>| #[trigger]
                        filled.after(readings) == final(self)@ && all_read(readings) && readings.len()
                            == extractions_due(old(self)@, raw_data@.len()) && old(
                            self,
                        ).output_accumulator.fed(
                            filled.output(readings),
                            &final(self).output_accumulator,
                        ) && (brought matches Some(e) ==> e.output@ == filled.output(readings)
                            && e.output@.len() == EXTRACTION_OUTPUT * readings.len() && match e.sample {
                            Some(bytes) => filled.sample(readings) == Some(bytes@),
                            None => filled.sample(readings) is None,
                        })
                },
            },
    {
        let due: usize = (self.buffer.len() + raw_data.len()) / EXTRACTION_POOL_SIZE;
        let mut readings: Vec<ClockReading> = Vec::new();
        while readings.len() < due
            invariant
                readings@.len() <= due,
                all_read(readings@),
                due == extractions_due(old(self)@, raw_data@.len()),
                *self == *old(self),
                self.wf(),
            decreases due - readings.len(),
        {
            match read_clock() {
                Some(reading) => readings.push(reading),
                None => {
                    return Err(ClockBeforeEpoch);
                },
            }
        }
        Ok(self.add_raw_bytes_at(raw_data, credited, aggregate, readings.as_slice()))
    }

    /// The raw bytes that wait for an extraction.
    pub fn accumulated_bytes(&self) -> (count: usize)
        ensures
            count == self@.buffer.len(),
    {
        self.buffer.len()
    }

    /// Forgets the bits credited since the last key was minted.
    pub fn reset_aggregate_credits(&mut self)
        ensures
            *final(self) == (EntropyExtractionPool {
                aggregate_credited_bits: Binary64 { bits: 0 },
                ..*old(self)
            }),
    {
        self.aggregate_credited_bits = Binary64::from_bits(0);
    }

    /// Records the verdicts of the statistical tests on a sample.
    pub fn record_stat_tests(&mut self, results: StatTestResults)
        ensures
            *final(self) == (EntropyExtractionPool { last_stat_tests: Some(results), ..*old(self) }),
    {
        self.last_stat_tests = Some(results);
    }

    /// The most-common-value estimate over all raw bytes.
    pub fn running_min_entropy(&self) -> (estimate: EntropyEstimate)
        ensures
            self.accumulator.is_min_entropy(estimate),
    {
        self.accumulator.min_entropy()
    }

    /// The most-common-value estimate over all conditioned bytes.
    pub fn output_min_entropy(&self) -> (estimate: EntropyEstimate)
        ensures
            self.output_accumulator.is_min_entropy(estimate),
    {
        self.output_accumulator.min_entropy()
    }
}

/// No raw byte is lost or used twice: what went into extractions and what still waits is together
/// what was there before and what was added.
pub proof fn law_no_byte_lost(
    pool: PoolView,
    raw: Seq<u8>,
    credited: Binary64,
    aggregate: Binary64,
    readings: Seq<ClockReading>,
)
    requires
        readings.len() == extractions_due(pool, raw.len()),
    ensures
        ({
            let end = pool.filled(raw, credited, aggregate).after(readings);
            &&& end.raw_consumed + end.buffer.len() == pool.raw_consumed + pool.buffer.len()
                + raw.len()
            &&& end.buffer == (pool.buffer + raw).skip(
                EXTRACTION_POOL_SIZE * extractions_due(pool, raw.len()),
            )
            &&& end.buffer.len() < EXTRACTION_POOL_SIZE
        }),
{
    let filled = pool.filled(raw, credited, aggregate);
    lemma_after_buffer(filled, readings);
}

proof fn lemma_after_buffer(pool: PoolView, readings: Seq<ClockReading>)
    requires
        EXTRACTION_POOL_SIZE * readings.len() <= pool.buffer.len(),
    ensures
        pool.after(readings).buffer == pool.buffer.skip(EXTRACTION_POOL_SIZE * readings.len()),
        pool.after(readings).raw_consumed == pool.raw_consumed + EXTRACTION_POOL_SIZE
            * readings.len(),
    decreases readings.len(),
{
    if readings.len() == 0 {
        assert(pool.buffer.skip(0) =~= pool.buffer);
    } else {
        lemma_after_buffer(pool, readings.drop_last());
        assert(pool.buffer.skip(EXTRACTION_POOL_SIZE * (readings.len() - 1)).skip(
            EXTRACTION_POOL_SIZE as int,
        ) =~= pool.buffer.skip(EXTRACTION_POOL_SIZE * readings.len()));
    }
}

/// Whether two pools differ in nothing but their credit.
pub open spec fn same_but_credit(a: PoolView, b: PoolView) -> bool {
    a == (PoolView { credited: a.credited, aggregate: a.aggregate, ..b })
}

proof fn lemma_after_credit(a: PoolView, b: PoolView, readings: Seq<ClockReading>)
    requires
        same_but_credit(a, b),
    ensures
        same_but_credit(a.after(readings), b.after(readings)),
        a.output(readings) == b.output(readings),
    decreases readings.len(),
{
    if readings.len() > 0 {
        lemma_after_credit(a, b, readings.drop_last());
    }
}

proof fn lemma_after_suffix(pool: PoolView, suffix: Seq<u8>, readings: Seq<ClockReading>)
    requires
        EXTRACTION_POOL_SIZE * readings.len() <= pool.buffer.len(),
    ensures
        ({
            let longer = PoolView { buffer: pool.buffer + suffix, ..pool };
            let end = pool.after(readings);
            &&& longer.after(readings) == (PoolView { buffer: end.buffer + suffix, ..end })
            &&& longer.output(readings) == pool.output(readings)
        }),
    decreases readings.len(),
{
    if readings.len() > 0 {
        let head = readings.drop_last();
        lemma_after_suffix(pool, suffix, head);
        lemma_after_buffer(pool, head);
        let middle = pool.after(head);
        let longer = PoolView { buffer: middle.buffer + suffix, ..middle };
        assert(longer.buffer.take(EXTRACTION_POOL_SIZE as int) =~= middle.buffer.take(
            EXTRACTION_POOL_SIZE as int,
        ));
        assert(longer.buffer.skip(EXTRACTION_POOL_SIZE as int) =~= middle.buffer.skip(
            EXTRACTION_POOL_SIZE as int,
        ) + suffix);
    }
}

proof fn lemma_after_concat(pool: PoolView, front: Seq<ClockReading>, back: Seq<ClockReading>)
    ensures
        pool.after(front + back) == pool.after(front).after(back),
        pool.output(front + back) == pool.output(front) + pool.after(front).output(back),
    decreases back.len(),
{
    if back.len() == 0 {
        assert(front + back =~= front);
        assert(pool.output(front) + Seq::<u8>::empty() =~= pool.output(front));
    } else {
        lemma_after_concat(pool, front, back.drop_last());
        assert((front + back).drop_last() =~= front + back.drop_last());
        let last = pool.after(front).after(back.drop_last()).conditioned_output(back.last());
        assert(pool.output(front) + (pool.after(front).output(back.drop_last()) + last) =~= (
        pool.output(front) + pool.after(front).output(back.drop_last())) + last);
    }
}

/// How raw bytes are cut into batches makes no difference to what is extracted: adding one batch and
/// then another gives what adding both at once gives, at the same readings of the clock.
pub proof fn law_adding_composes(
    pool: PoolView,
    front: Seq<u8>,
    back: Seq<u8>,
    front_credit: (Binary64, Binary64),
    back_credit: (Binary64, Binary64),
    credit: (Binary64, Binary64),
    front_readings: Seq<ClockReading>,
    back_readings: Seq<ClockReading>,
)
    requires
        front_readings.len() == extractions_due(pool, front.len()),
        back_readings.len() == extractions_due(
            pool.filled(front, front_credit.0, front_credit.1).after(front_readings),
            back.len(),
        ),
    ensures
        ({
            let first = pool.filled(front, front_credit.0, front_credit.1);
            let middle = first.after(front_readings);
            let second = middle.filled(back, back_credit.0, back_credit.1);
            let whole = pool.filled(front + back, credit.0, credit.1);
            &&& extractions_due(pool, (front + back).len()) == front_readings.len()
                + back_readings.len()
            &&& same_but_credit(
                whole.after(front_readings + back_readings),
                second.after(back_readings),
            )
            &&& whole.output(front_readings + back_readings) == first.output(front_readings)
                + second.output(back_readings)
        }),
{
    let first = pool.filled(front, front_credit.0, front_credit.1);
    let middle = first.after(front_readings);
    let second = middle.filled(back, back_credit.0, back_credit.1);
    let whole = pool.filled(front + back, credit.0, credit.1);
    let longer = PoolView { buffer: first.buffer + back, ..first };
    assert(whole.buffer =~= longer.buffer);
    lemma_after_buffer(first, front_readings);
    lemma_after_suffix(first, back, front_readings);
    lemma_after_credit(whole, longer, front_readings);
    lemma_after_concat(whole, front_readings, back_readings);
    let joined = whole.after(front_readings);
    assert(same_but_credit(joined, second));
    lemma_after_credit(joined, second, back_readings);
}

/// What is hashed tells the raw bytes, the number of extractions and the time: where two inputs are
/// the same, all three are.
pub proof fn law_conditioning_input_is_injective(
    block: Seq<u8>,
    count: u64,
    nanos: u64,
    other_block: Seq<u8>,
    other_count: u64,
    other_nanos: u64,
)
    requires
        conditioning_input(block, count, nanos) == conditioning_input(
            other_block,
            other_count,
            other_nanos,
        ),
    ensures
        block == other_block,
        count == other_count,
        nanos == other_nanos,
{
    law_number_bytes(count, other_count);
    law_number_bytes(nanos, other_nanos);
    law_number_bytes(other_count, count);
    law_number_bytes(other_nanos, nanos);
    let one = conditioning_input(block, count, nanos);
    let other = conditioning_input(other_block, other_count, other_nanos);
    let n = one.len();
    assert(one.take(n - 16) =~= block);
    assert(other.take(n - 16) =~= other_block);
    assert(one.subrange(n - 16, n - 8) =~= le_bytes(count));
    assert(other.subrange(n - 16, n - 8) =~= le_bytes(other_count));
    assert(one.skip(n - 8) =~= le_bytes(nanos));
    assert(other.skip(n - 8) =~= le_bytes(other_nanos));
}

/// Each extraction adds the SHA-256 digest of its own 256 raw bytes, in the order in which they came
/// in, followed by the number of extractions before it and by its time in nanoseconds.
pub proof fn law_output_comes_from_raw_bytes(
    pool: PoolView,
    raw: Seq<u8>,
    credited: Binary64,
    aggregate: Binary64,
    readings: Seq<ClockReading>,
    k: int,
)
    requires
        0 <= k < readings.len(),
        256 * readings.len() <= pool.buffer.len() + raw.len(),
        pool.extractions + readings.len() <= u64::MAX,
    ensures
        ({
            let filled = pool.filled(raw, credited, aggregate);
            let whole = pool.buffer + raw;
            &&& filled.output(Seq::empty()) == Seq::<u8>::empty()
            &&& exists|input: Seq<u8>|
                {
                    &&& filled.output(readings.take(k + 1)) == filled.output(readings.take(k))
                        + #[trigger] sha256(input)
                    &&& input.len() == 272
                    &&& forall|i: int| 0 <= i < 256 ==> #[trigger] input[i] == whole[256 * k + i]
                    &&& input.subrange(256, 264) == le_bytes((pool.extractions + k) as u64)
                    &&& input.subrange(264, 272) == le_bytes(readings[k].nanos)
                }
        }),
{
    let filled = pool.filled(raw, credited, aggregate);
    let head = readings.take(k);
    let last = filled.after(head);
    assert(readings.take(k + 1).drop_last() =~= head);
    lemma_after_buffer(filled, head);
    law_books_are_kept(filled, head);
    law_number_bytes(last.extractions as u64, 0);
    law_number_bytes(readings[k].nanos, 0);
    let block = last.buffer.take(256);
    let input = conditioning_input(block, last.extractions as u64, readings[k].nanos);
    assert(filled.output(readings.take(k + 1)) == filled.output(head) + sha256(input));
    assert forall|i: int| 0 <= i < 256 implies #[trigger] input[i] == (pool.buffer + raw)[256 * k
        + i] by {
        assert(input[i] == block[i]);
    }
    assert(input.subrange(256, 264) =~= le_bytes((pool.extractions + k) as u64));
    assert(input.subrange(264, 272) =~= le_bytes(readings[k].nanos));
}

/// Every extraction takes 256 raw bytes and gives 32, starts the credit of the next one at zero and
/// tells its time; the credit since the last key, and the last verdicts, stay.
pub proof fn law_books_are_kept(pool: PoolView, readings: Seq<ClockReading>)
    ensures
        ({
            let end = pool.after(readings);
            let n = readings.len();
            &&& end.extractions == pool.extractions + n
            &&& end.raw_consumed == pool.raw_consumed + 256 * n
            &&& end.extracted_bytes == pool.extracted_bytes + 32 * n
            &&& end.credited == if n == 0 {
                pool.credited
            } else {
                Binary64 { bits: 0 }
            }
            &&& end.last_extraction == if n == 0 {
                pool.last_extraction
            } else {
                readings.last().seconds
            }
            &&& end.aggregate == pool.aggregate
            &&& end.stat_tests == pool.stat_tests
        }),
    decreases readings.len(),
{
    if readings.len() > 0 {
        law_books_are_kept(pool, readings.drop_last());
    }
}

/// The newest conditioned bytes are kept for tests: all of them up to 8192, the last 4096 beyond. A
/// test is due on them, the new ones among them, from 1024 on.
pub proof fn law_newest_output_is_tested(pool: PoolView, readings: Seq<ClockReading>)
    requires
        readings.len() > 0,
    ensures
        ({
            let before = readings.drop_last();
            let kept = pool.after(before).conditioned;
            let end = pool.after(readings).conditioned;
            exists|fresh: Seq<u8>|
                {
                    let all = #[trigger] (kept + fresh);
                    &&& pool.output(readings) == pool.output(before) + fresh
                    &&& all.len() <= 8192 ==> end == all
                    &&& all.len() > 8192 ==> end.len() == 4096 && forall|i: int|
                        0 <= i < 4096 ==> #[trigger] end[i] == all[all.len() - 4096 + i]
                    &&& all.len() >= 1024 ==> pool.sample(readings) == Some(all)
                    &&& all.len() < 1024 ==> pool.sample(readings) is None
                }
        }),
{
    let last = pool.after(readings.drop_last());
    let fresh = last.conditioned_output(readings.last());
    let all = last.conditioned + fresh;
    assert(pool.output(readings) == pool.output(readings.drop_last()) + fresh);
}

} // verus!
