//! Health tests on raw noise samples, after NIST SP 800-90B section 4.4.
//!
//! Every sample goes through the repetition count test and the adaptive proportion test. A source
//! that trips either one is set aside, may recover after a cooldown, and is given up for dead once
//! it has failed too often.

use super::tally::tally;
use std::collections::VecDeque;
use vstd::prelude::*;

verus! {

/// Repetition count test: this many equal samples in a row are a failure.
pub const NIST_RCT_CUTOFF: u32 = 31;

/// Adaptive proportion test: samples in one window.
pub const NIST_APT_WINDOW: usize = 512;

/// Adaptive proportion test: a window whose first sample occurs this often is a failure.
pub const NIST_APT_CUTOFF: u32 = 325;

/// Samples that a source gives up at its start before any sample of it is passed on.
pub const STARTUP_DISCARD_SAMPLES: usize = 4096;

/// A source that has failed this often does not recover.
pub const MAX_HEALTH_RETRIES: u32 = 5;

/// Samples that a failed source has to sit out.
pub const RECOVERY_COOLDOWN_SAMPLES: u64 = 10000;

/// Where a source stands.
#[derive(Clone, Copy, PartialEq, Eq, Structural, Debug)]
pub enum HealthState {
    /// Never started.
    Init,
    /// Its first samples are being tested and thrown away.
    Startup,
    /// Its samples are passed on.
    Steady,
    /// It tripped a test and is cooling down.
    Failed,
    /// It failed too often.
    Dead,
}

/// Whether the repetition count test trips on the last of the samples seen.
pub open spec fn rct_trips(seen: Seq<u8>) -> bool {
    &&& seen.len() >= NIST_RCT_CUTOFF
    &&& forall|i: int|
        seen.len() - NIST_RCT_CUTOFF <= i < seen.len() ==> #[trigger] seen[i] == seen.last()
}

/// The index of the first sample of the window that the last of the samples seen falls into.
pub open spec fn window_start(seen: Seq<u8>) -> int {
    (seen.len() - 1) / (NIST_APT_WINDOW as int) * (NIST_APT_WINDOW as int)
}

/// Whether the adaptive proportion test trips on the last of the samples seen.
pub open spec fn apt_trips(seen: Seq<u8>) -> bool {
    &&& seen.len() > 0
    &&& tally(seen.skip(window_start(seen)), seen[window_start(seen)]) >= NIST_APT_CUTOFF
}

/// How many of `data` pass both tests, in order, behind the samples seen before.
pub open spec fn clean_prefix(seen: Seq<u8>, data: Seq<u8>) -> nat
    decreases data.len(),
{
    if data.len() == 0 {
        0
    } else {
        let now = seen.push(data[0]);
        if rct_trips(now) || apt_trips(now) {
            0
        } else {
            1 + clean_prefix(now, data.drop_first())
        }
    }
}

/// What a health tester is, apart from how it counts.
pub struct HealthView {
    /// Where the source stands.
    pub state: HealthState,
    /// The samples tested since the tests were last reset.
    pub seen: Seq<u8>,
    /// The samples thrown away since the last start.
    pub startup: nat,
    /// The failures so far.
    pub failures: nat,
    /// The samples sat out since the last failure.
    pub cooled: nat,
    /// The samples tested so far.
    pub total: nat,
    /// The failures of the repetition count test so far.
    pub rct_failures: nat,
    /// The failures of the adaptive proportion test so far.
    pub apt_failures: nat,
    /// The samples found fit to be passed on so far.
    pub passed: nat,
}

impl HealthView {
    /// Whether the counters can take another batch of this many samples.
    pub open spec fn has_room(self, count: nat) -> bool {
        &&& self.total + count <= u64::MAX
        &&& self.passed + count <= u64::MAX
        &&& self.cooled + count <= u64::MAX
        &&& self.rct_failures < u64::MAX
        &&& self.apt_failures < u64::MAX
        &&& self.failures < u32::MAX
    }

    /// A source that is starting up still has samples to give up.
    pub open spec fn sound(self) -> bool {
        &&& self.startup <= STARTUP_DISCARD_SAMPLES
        &&& self.state == HealthState::Startup ==> self.startup < STARTUP_DISCARD_SAMPLES
    }

    /// Whether the source is being tested at all.
    pub open spec fn live(self) -> bool {
        self.state != HealthState::Failed && self.state != HealthState::Dead
    }

    /// The tester with its tests reset.
    pub open spec fn cleared(self) -> HealthView {
        HealthView { seen: Seq::empty(), startup: 0, ..self }
    }

    /// Out of `count` samples that pass both tests, the number that are also passed on.
    pub open spec fn fit(self, count: nat) -> nat {
        match self.state {
            HealthState::Steady => count,
            HealthState::Startup => if self.startup + count > STARTUP_DISCARD_SAMPLES {
                (self.startup + count - STARTUP_DISCARD_SAMPLES) as nat
            } else {
                0
            },
            _ => 0,
        }
    }

    /// The tester after `count` samples that pass both tests.
    pub open spec fn advanced(self, data: Seq<u8>) -> HealthView {
        let warm = self.state == HealthState::Startup;
        let startup = self.startup + data.len();
        HealthView {
            state: if warm && startup >= STARTUP_DISCARD_SAMPLES {
                HealthState::Steady
            } else {
                self.state
            },
            seen: self.seen + data,
            startup: if !warm {
                self.startup
            } else if startup >= STARTUP_DISCARD_SAMPLES {
                STARTUP_DISCARD_SAMPLES as nat
            } else {
                startup
            },
            total: self.total + data.len(),
            passed: self.passed + self.fit(data.len()),
            ..self
        }
    }

    /// The tester after one more sample, which trips a test.
    pub open spec fn tripped(self, sample: u8) -> HealthView {
        let seen = self.seen.push(sample);
        HealthView {
            state: HealthState::Failed,
            seen,
            failures: self.failures + 1,
            cooled: 0,
            total: self.total + 1,
            rct_failures: self.rct_failures + (if rct_trips(seen) {
                1nat
            } else {
                0
            }),
            apt_failures: self.apt_failures + (if rct_trips(seen) {
                0nat
            } else {
                1
            }),
            ..self
        }
    }

    /// A batch put through the tests: the tester after it and the samples passed on. A batch that
    /// trips a test ends there and passes nothing on.
    pub open spec fn tested(self, data: Seq<u8>) -> (HealthView, Seq<u8>) {
        let clean = clean_prefix(self.seen, data);
        if clean < data.len() {
            (self.advanced(data.take(clean as int)).tripped(data[clean as int]), Seq::empty())
        } else {
            (self.advanced(data), data.skip(data.len() - self.fit(data.len())))
        }
    }

    /// A batch handed to the tester: the tester after it and the samples passed on. A dead source
    /// stays dead. A failed one sits the batch out until its cooldown is over; then it is given up,
    /// if it has failed too often, or started again and tested.
    pub open spec fn processed(self, data: Seq<u8>) -> (HealthView, Seq<u8>) {
        match self.state {
            HealthState::Dead => (self, Seq::empty()),
            HealthState::Failed => {
                let cooled = self.cooled + data.len();
                if cooled < RECOVERY_COOLDOWN_SAMPLES {
                    (HealthView { cooled, ..self }, Seq::empty())
                } else if self.failures >= MAX_HEALTH_RETRIES {
                    (HealthView { state: HealthState::Dead, cooled, ..self }, Seq::empty())
                } else {
                    (HealthView { state: HealthState::Startup, cooled: 0, ..self }).cleared().tested(
                        data,
                    )
                }
            },
            _ => self.tested(data),
        }
    }
}

/// The length of the run of equal samples at the end.
spec fn last_run(seen: Seq<u8>) -> nat
    decreases seen.len(),
{
    if seen.len() == 0 {
        0
    } else if seen.len() > 1 && seen[seen.len() - 2] == seen.last() {
        last_run(seen.drop_last()) + 1
    } else {
        1
    }
}

proof fn lemma_last_run(seen: Seq<u8>)
    ensures
        last_run(seen) <= seen.len(),
        seen.len() > 0 ==> last_run(seen) > 0,
        forall|i: int|
            seen.len() - last_run(seen) <= i < seen.len() ==> #[trigger] seen[i] == seen.last(),
        last_run(seen) < seen.len() ==> seen[seen.len() - last_run(seen) - 1] != seen.last(),
    decreases seen.len(),
{
    if seen.len() > 1 && seen[seen.len() - 2] == seen.last() {
        let head = seen.drop_last();
        lemma_last_run(head);
        assert(head.last() == seen.last());
        assert forall|i: int| seen.len() - last_run(seen) <= i < seen.len() implies #[trigger] seen[i]
            == seen.last() by {
            if i < head.len() {
                assert(head[i] == head.last());
            }
        }
        if last_run(seen) < seen.len() {
            assert(head[head.len() - last_run(head) - 1] != head.last());
        }
    }
}

proof fn lemma_rct(seen: Seq<u8>)
    ensures
        rct_trips(seen) == (last_run(seen) >= NIST_RCT_CUTOFF),
{
    lemma_last_run(seen);
    if rct_trips(seen) && last_run(seen) < NIST_RCT_CUTOFF {
        let i = seen.len() - last_run(seen) - 1;
        assert(seen[i] == seen.last());
    }
}

/// A health tester for one noise source.
#[derive(Clone)]
pub struct NistHealthTester {
    pub state: HealthState,
    /// The last sample of the repetition count test, and how often it came in a row.
    pub rct_last_value: Option<u8>,
    pub rct_count: u32,
    /// The samples of the open window of the adaptive proportion test, the first of them, and how
    /// often it occurs there.
    pub apt_window: VecDeque<u8>,
    pub apt_first_value: Option<u8>,
    pub apt_count: u32,
    pub startup_samples: usize,
    pub failure_count: u32,
    pub samples_since_failure: u64,
    pub total_samples: u64,
    pub rct_failures: u64,
    pub apt_failures: u64,
    pub samples_passed: u64,
    /// The samples that were tested since the tests were last reset.
    pub seen: Ghost<Seq<u8>>,
}

impl View for NistHealthTester {
    type V = HealthView;

    open spec fn view(&self) -> HealthView {
        HealthView {
            state: self.state,
            seen: self.seen@,
            startup: self.startup_samples as nat,
            failures: self.failure_count as nat,
            cooled: self.samples_since_failure as nat,
            total: self.total_samples as nat,
            rct_failures: self.rct_failures as nat,
            apt_failures: self.apt_failures as nat,
            passed: self.samples_passed as nat,
        }
    }
}

impl NistHealthTester {
    /// The two tests have kept count of the samples seen.
    spec fn counts_kept(&self) -> bool {
        let seen = self.seen@;
        let open = seen.skip(seen.len() - seen.len() % (NIST_APT_WINDOW as nat));
        &&& self.rct_last_value == if seen.len() > 0 {
            Some(seen.last())
        } else {
            None
        }
        &&& self.rct_count == last_run(seen)
        &&& self.rct_count < NIST_RCT_CUTOFF
        &&& self.apt_window@ == open
        &&& self.apt_first_value == if open.len() > 0 {
            Some(open[0])
        } else {
            None
        }
        &&& self.apt_count == if open.len() > 0 {
            tally(open, open[0])
        } else {
            0
        }
        &&& self.apt_count < NIST_APT_CUTOFF
    }

    /// A tester as its own methods leave it. What the tests have counted matters no more once a
    /// source has failed: it is counted anew before the source is tested again.
    pub closed spec fn wf(&self) -> bool {
        &&& self.startup_samples <= STARTUP_DISCARD_SAMPLES
        &&& self.state == HealthState::Startup ==> self.startup_samples < STARTUP_DISCARD_SAMPLES
        &&& self.state == HealthState::Failed || self.state == HealthState::Dead
            || self.counts_kept()
    }

    /// Every tester is sound.
    pub proof fn lemma_sound(&self)
        requires
            self.wf(),
        ensures
            self@.sound(),
    {
    }

    /// A tester that was never started.
    pub fn new() -> (tester: Self)
        ensures
            tester.wf(),
            tester@ == (HealthView {
                state: HealthState::Init,
                seen: Seq::empty(),
                startup: 0,
                failures: 0,
                cooled: 0,
                total: 0,
                rct_failures: 0,
                apt_failures: 0,
                passed: 0,
            }),
    {
        let tester = NistHealthTester {
            state: HealthState::Init,
            rct_last_value: None,
            rct_count: 0,
            apt_window: VecDeque::with_capacity(NIST_APT_WINDOW),
            apt_first_value: None,
            apt_count: 0,
            startup_samples: 0,
            failure_count: 0,
            samples_since_failure: 0,
            total_samples: 0,
            rct_failures: 0,
            apt_failures: 0,
            samples_passed: 0,
            seen: Ghost(Seq::empty()),
        };
        assert(tester.apt_window@ =~= Seq::<u8>::empty().skip(0));
        tester
    }

    /// Starts the source, or starts it over: its next samples are thrown away.
    pub fn start(&mut self)
        ensures
            final(self).wf(),
            final(self)@ == (HealthView { state: HealthState::Startup, ..old(self)@.cleared() }),
    {
        self.clear_counts();
        self.state = HealthState::Startup;
    }

    /// Resets the two tests and the startup count.
    pub fn reset(&mut self)
        ensures
            final(self).wf(),
            final(self)@ == old(self)@.cleared(),
    {
        self.clear_counts();
    }

    fn clear_counts(&mut self)
        ensures
            final(self).counts_kept(),
            final(self)@ == old(self)@.cleared(),
    {
        self.rct_last_value = None;
        self.rct_count = 0;
        self.apt_window.clear();
        self.apt_first_value = None;
        self.apt_count = 0;
        self.startup_samples = 0;
        self.seen = Ghost(Seq::empty());
        assert(self.apt_window@ =~= Seq::<u8>::empty().skip(0));
    }

    /// Has the source tested from its start again.
    pub fn trigger_on_demand(&mut self)
        ensures
            final(self).wf(),
            final(self)@ == (HealthView { state: HealthState::Startup, ..old(self)@.cleared() }),
    {
        self.clear_counts();
        self.state = HealthState::Startup;
    }

    /// Whether the counters can take another batch of this many samples.
    pub fn has_room(&self, count: usize) -> (room: bool)
        ensures
            room == self@.has_room(count as nat),
    {
        let more: u64 = count as u64;
        self.total_samples <= u64::MAX - more && self.samples_passed <= u64::MAX - more
            && self.samples_since_failure <= u64::MAX - more && self.rct_failures < u64::MAX
            && self.apt_failures < u64::MAX && self.failure_count < u32::MAX
    }

    /// Puts a batch of samples through both tests and gives back those that may be used: none
    /// while the source starts up, has failed or is dead.
    pub fn process_batch(&mut self, data: &[u8]) -> (passed: Vec<u8>)
        requires
            old(self).wf(),
            old(self)@.has_room(data@.len()),
        ensures
            final(self).wf(),
            (final(self)@, passed@) == old(self)@.processed(data@),
    {
        if self.state == HealthState::Dead {
            return Vec::new();
        }
        if self.state == HealthState::Failed {
            self.samples_since_failure = self.samples_since_failure + data.len() as u64;
            if self.samples_since_failure >= RECOVERY_COOLDOWN_SAMPLES {
                if self.failure_count >= MAX_HEALTH_RETRIES {
                    self.state = HealthState::Dead;
                    return Vec::new();
                }
                self.clear_counts();
                self.state = HealthState::Startup;
                self.samples_since_failure = 0;
            } else {
                return Vec::new();
            }
        }
        self.test_batch(data)
    }

    /// Puts a batch through both tests, sample by sample.
    fn test_batch(&mut self, data: &[u8]) -> (passed: Vec<u8>)
        requires
            old(self).wf(),
            old(self)@.has_room(data@.len()),
            old(self).state != HealthState::Failed,
            old(self).state != HealthState::Dead,
        ensures
            final(self).wf(),
            (final(self)@, passed@) == old(self)@.tested(data@),
    {
        let ghost start = self@;
        let mut passed: Vec<u8> = Vec::with_capacity(data.len());
        let mut i: usize = 0;
        assert(data@.take(0) =~= Seq::<u8>::empty());
        assert(start.seen + data@.take(0) =~= start.seen);
        assert(data@.take(0).skip(0) =~= Seq::<u8>::empty());
        while i < data.len()
            invariant
                i <= data.len(),
                self.wf(),
                self.counts_kept(),
                start == old(self)@,
                start.has_room(data@.len()),
                start.state != HealthState::Failed,
                start.state != HealthState::Dead,
                start.state == HealthState::Startup ==> start.startup < STARTUP_DISCARD_SAMPLES,
                self@ == start.advanced(data@.take(i as int)),
                passed@ == data@.take(i as int).skip(i - start.fit(i as nat)),
                start.fit(i as nat) <= i,
                forall|j: int|
                    0 <= j < i ==> !rct_trips(start.seen + #[trigger] data@.take(j + 1))
                        && !apt_trips(start.seen + data@.take(j + 1)),
            decreases data.len() - i,
        {
            let sample: u8 = data[i];
            let ghost before = self@;
            let ghost now = before.seen.push(sample);
            proof {
                assert(data@.take(i + 1) =~= data@.take(i as int).push(sample));
                assert(start.seen + data@.take(i + 1) =~= now);
            }
            self.total_samples = self.total_samples + 1;
            if !self.run_rct(sample) {
                self.state = HealthState::Failed;
                self.rct_failures = self.rct_failures + 1;
                self.failure_count = self.failure_count + 1;
                self.samples_since_failure = 0;
                self.seen = Ghost(now);
                proof {
                    lemma_clean_prefix(start.seen, data@, i as int);
                    assert(self@ == before.tripped(sample));
                }
                return Vec::new();
            }
            if !self.run_apt(sample) {
                self.state = HealthState::Failed;
                self.apt_failures = self.apt_failures + 1;
                self.failure_count = self.failure_count + 1;
                self.samples_since_failure = 0;
                self.seen = Ghost(now);
                proof {
                    lemma_clean_prefix(start.seen, data@, i as int);
                    assert(self@ == before.tripped(sample));
                }
                return Vec::new();
            }
            self.seen = Ghost(now);
            match self.state {
                HealthState::Startup => {
                    self.startup_samples = self.startup_samples + 1;
                    if self.startup_samples >= STARTUP_DISCARD_SAMPLES {
                        self.state = HealthState::Steady;
                    }
                },
                HealthState::Steady => {
                    passed.push(sample);
                    self.samples_passed = self.samples_passed + 1;
                },
                _ => {},
            }
            proof {
                let fit = start.fit(i as nat);
                let next_fit = start.fit((i + 1) as nat);
                if next_fit == fit + 1 {
                    assert(data@.take(i + 1).skip(i + 1 - next_fit) =~= data@.take(i as int).skip(
                        i - fit,
                    ).push(sample));
                } else {
                    assert(next_fit == 0 && fit == 0);
                    assert(data@.take(i + 1).skip(i + 1) =~= Seq::<u8>::empty());
                    assert(data@.take(i as int).skip(i as int) =~= Seq::<u8>::empty());
                }
                assert(self@.seen =~= start.seen + data@.take(i + 1));
            }
            i += 1;
        }
        proof {
            assert(data@.take(i as int) =~= data@);
            lemma_clean_prefix(start.seen, data@, i as int);
        }
        passed
    }

    /// Repetition count test, on one sample.
    fn run_rct(&mut self, sample: u8) -> (ok: bool)
        requires
            old(self).counts_kept(),
        ensures
            ok == !rct_trips(old(self).seen@.push(sample)),
            final(self).rct_last_value == Some(sample),
            final(self).rct_count == last_run(old(self).seen@.push(sample)),
            ok ==> final(self).rct_count < NIST_RCT_CUTOFF,
            *final(self) == (NistHealthTester {
                rct_last_value: final(self).rct_last_value,
                rct_count: final(self).rct_count,
                ..*old(self)
            }),
    {
        proof {
            let now = self.seen@.push(sample);
            assert(now.drop_last() =~= self.seen@);
            lemma_rct(now);
        }
        match self.rct_last_value {
            Some(last) => {
                if last == sample {
                    self.rct_count = self.rct_count + 1;
                    if self.rct_count >= NIST_RCT_CUTOFF {
                        return false;
                    }
                } else {
                    self.rct_last_value = Some(sample);
                    self.rct_count = 1;
                }
            },
            None => {
                self.rct_last_value = Some(sample);
                self.rct_count = 1;
            },
        }
        true
    }

    /// Adaptive proportion test, on one sample.
    fn run_apt(&mut self, sample: u8) -> (ok: bool)
        requires
            old(self).apt_window@ == old(self).seen@.skip(
                old(self).seen@.len() - old(self).seen@.len() % (NIST_APT_WINDOW as nat),
            ),
            old(self).apt_first_value == if old(self).apt_window@.len() > 0 {
                Some(old(self).apt_window@[0])
            } else {
                None
            },
            old(self).apt_count == if old(self).apt_window@.len() > 0 {
                tally(old(self).apt_window@, old(self).apt_window@[0])
            } else {
                0
            },
            old(self).apt_count < NIST_APT_CUTOFF,
        ensures
            ok == !apt_trips(old(self).seen@.push(sample)),
            ok ==> ({
                let now = old(self).seen@.push(sample);
                let open = now.skip(now.len() - now.len() % (NIST_APT_WINDOW as nat));
                &&& final(self).apt_window@ == open
                &&& final(self).apt_first_value == if open.len() > 0 {
                    Some(open[0])
                } else {
                    None
                }
                &&& final(self).apt_count == if open.len() > 0 {
                    tally(open, open[0])
                } else {
                    0
                }
                &&& final(self).apt_count < NIST_APT_CUTOFF
            }),
            *final(self) == (NistHealthTester {
                apt_window: final(self).apt_window,
                apt_first_value: final(self).apt_first_value,
                apt_count: final(self).apt_count,
                ..*old(self)
            }),
    {
        let ghost seen = self.seen@;
        let ghost now = seen.push(sample);
        let ghost window = now.skip(window_start(now));
        proof {
            let n = seen.len() as int;
            let w = NIST_APT_WINDOW as int;
            assert(n - n % w == n / w * w) by (nonlinear_arith)
                requires
                    w > 0,
                    n >= 0,
            ;
            assert(window_start(now) == n - n % w);
            assert(window =~= self.apt_window@.push(sample));
            super::tally::lemma_tally_push(self.apt_window@, sample, window[0]);
        }
        self.apt_window.push_back(sample);
        if self.apt_first_value.is_none() {
            self.apt_first_value = Some(sample);
            self.apt_count = 1;
            proof {
                assert(tally(seq![sample].drop_last(), sample) == 0);
                assert(window =~= seq![sample]);
                assert(now.len() % (NIST_APT_WINDOW as nat) == 1);
            }
            return true;
        }
        if self.apt_first_value == Some(sample) {
            self.apt_count = self.apt_count + 1;
            if self.apt_count >= NIST_APT_CUTOFF {
                return false;
            }
        }
        if self.apt_window.len() >= NIST_APT_WINDOW {
            self.apt_window.clear();
            self.apt_first_value = None;
            self.apt_count = 0;
            proof {
                assert(now.len() % (NIST_APT_WINDOW as nat) == 0);
                assert(now.skip(now.len() as int) =~= Seq::<u8>::empty());
            }
        } else {
            proof {
                assert(now.len() % (NIST_APT_WINDOW as nat) == window.len());
            }
        }
        true
    }

    /// Whether samples of the source are passed on.
    pub fn is_healthy(&self) -> (answer: bool)
        ensures
            answer == (self@.state == HealthState::Steady),
    {
        self.state == HealthState::Steady
    }

    /// Whether the source has been given up.
    pub fn is_dead(&self) -> (answer: bool)
        ensures
            answer == (self@.state == HealthState::Dead),
    {
        self.state == HealthState::Dead
    }

    /// The failures so far.
    pub fn failure_count(&self) -> (count: u32)
        ensures
            count == self@.failures,
    {
        self.failure_count
    }

    /// Where the source stands, in capitals.
    pub fn state_name(&self) -> (name: &'static str)
        ensures
            name@ == state_text(self@.state),
    {
        match self.state {
            HealthState::Init => "INIT",
            HealthState::Startup => "STARTUP",
            HealthState::Steady => "STEADY",
            HealthState::Failed => "FAILED",
            HealthState::Dead => "DEAD",
        }
    }
}

/// The name of a state.
pub open spec fn state_text(state: HealthState) -> Seq<char> {
    match state {
        HealthState::Init => "INIT"@,
        HealthState::Startup => "STARTUP"@,
        HealthState::Steady => "STEADY"@,
        HealthState::Failed => "FAILED"@,
        HealthState::Dead => "DEAD"@,
    }
}

/// What `clean_prefix` counts: everything before it passes both tests, and the sample at it, if
/// there is one, does not.
proof fn lemma_clean_prefix(seen: Seq<u8>, data: Seq<u8>, clean: int)
    requires
        0 <= clean <= data.len(),
        forall|j: int|
            0 <= j < clean ==> !rct_trips(seen + #[trigger] data.take(j + 1)) && !apt_trips(
                seen + data.take(j + 1),
            ),
        clean < data.len() ==> rct_trips(seen + data.take(clean + 1)) || apt_trips(
            seen + data.take(clean + 1),
        ),
    ensures
        clean_prefix(seen, data) == clean,
    decreases data.len(),
{
    if data.len() > 0 {
        let now = seen.push(data[0]);
        assert(seen + data.take(1) =~= now);
        let rest = data.drop_first();
        if clean > 0 {
            assert(data.take(0int + 1) == data.take(1));
            assert forall|j: int| 0 <= j < clean - 1 implies !rct_trips(
                now + #[trigger] rest.take(j + 1),
            ) && !apt_trips(now + rest.take(j + 1)) by {
                assert(seen + data.take((j + 1) + 1) =~= now + rest.take(j + 1));
            }
            if clean < data.len() {
                assert(seen + data.take(clean + 1) =~= now + rest.take((clean - 1) + 1));
            }
            lemma_clean_prefix(now, rest, clean - 1);
        }
    }
}

proof fn lemma_clean_bound(seen: Seq<u8>, data: Seq<u8>)
    ensures
        clean_prefix(seen, data) <= data.len(),
    decreases data.len(),
{
    if data.len() > 0 {
        lemma_clean_bound(seen.push(data[0]), data.drop_first());
    }
}

proof fn lemma_clean_concat(seen: Seq<u8>, front: Seq<u8>, back: Seq<u8>)
    ensures
        clean_prefix(seen, front + back) == if clean_prefix(seen, front) < front.len() {
            clean_prefix(seen, front)
        } else {
            front.len() + clean_prefix(seen + front, back)
        },
    decreases front.len(),
{
    if front.len() == 0 {
        assert(front + back =~= back);
        assert(seen + front =~= seen);
    } else {
        let now = seen.push(front[0]);
        assert((front + back).drop_first() =~= front.drop_first() + back);
        assert(now + front.drop_first() =~= seen + front);
        lemma_clean_bound(now, front.drop_first());
        lemma_clean_concat(now, front.drop_first(), back);
    }
}

proof fn lemma_advanced_concat(tester: HealthView, front: Seq<u8>, back: Seq<u8>)
    requires
        tester.sound(),
    ensures
        tester.advanced(front).advanced(back) == tester.advanced(front + back),
        tester.advanced(front).sound(),
        tester.fit(front.len()) + tester.advanced(front).fit(back.len()) == tester.fit(
            (front + back).len(),
        ),
{
    assert(tester.seen + front + back =~= tester.seen + (front + back));
}

/// How the samples are cut into batches makes no difference to the tester: where a first batch
/// passes both tests, handing over a second batch leaves the tester as one batch of both would.
/// Where the second batch passes as well, the same samples are passed on.
pub proof fn law_batches_compose(tester: HealthView, front: Seq<u8>, back: Seq<u8>)
    requires
        tester.sound(),
        tester.live(),
        clean_prefix(tester.seen, front) == front.len(),
    ensures
        tester.processed(front).0.processed(back).0 == tester.processed(front + back).0,
        clean_prefix(tester.seen, front + back) == (front + back).len() ==> tester.processed(
            front,
        ).1 + tester.processed(front).0.processed(back).1 == tester.processed(front + back).1,
{
    let middle = tester.advanced(front);
    let whole = front + back;
    lemma_clean_concat(tester.seen, front, back);
    lemma_clean_bound(middle.seen, back);
    lemma_advanced_concat(tester, front, back);
    let clean = clean_prefix(middle.seen, back);
    if clean < back.len() {
        lemma_advanced_concat(tester, front, back.take(clean as int));
        assert(whole.take((front.len() + clean) as int) =~= front + back.take(clean as int));
        assert(whole[(front.len() + clean) as int] == back[clean as int]);
    } else {
        let f = tester.fit(front.len());
        let b = middle.fit(back.len());
        assert(front.skip(front.len() - f) + back.skip(back.len() - b) =~= whole.skip(
            whole.len() - (f + b),
        ));
    }
}

/// Where a batch passes, so do its two parts, one after the other: they leave the tester in the same
/// state, and together the same samples are passed on.
pub proof fn law_clean_batches_compose(tester: HealthView, front: Seq<u8>, back: Seq<u8>)
    requires
        tester.sound(),
        tester.live(),
        tester.processed(front + back).0.live(),
    ensures
        tester.processed(front).0.live(),
        tester.processed(front).0.processed(back).0 == tester.processed(front + back).0,
        tester.processed(front).1 + tester.processed(front).0.processed(back).1
            == tester.processed(front + back).1,
{
    lemma_clean_bound(tester.seen, front + back);
    lemma_clean_bound(tester.seen, front);
    lemma_clean_bound(tester.seen + front, back);
    lemma_clean_concat(tester.seen, front, back);
    law_batches_compose(tester, front, back);
}

/// A source that repeats one sample often enough in a row trips the repetition count test: it ends
/// up failed, and nothing of the batch is passed on.
pub proof fn law_stuck_source_fails(tester: HealthView, data: Seq<u8>, from: int)
    requires
        tester.live(),
        0 <= from,
        from + NIST_RCT_CUTOFF <= data.len(),
        forall|i: int| from <= i < from + NIST_RCT_CUTOFF ==> #[trigger] data[i] == data[from],
    ensures
        tester.processed(data).0.state == HealthState::Failed,
        tester.processed(data).0.failures == tester.failures + 1,
        tester.processed(data).1 == Seq::<u8>::empty(),
{
    let end = from + NIST_RCT_CUTOFF;
    let head = data.take(end);
    assert(data =~= head + data.skip(end));
    lemma_clean_concat(tester.seen, head, data.skip(end));
    assert(clean_prefix(tester.seen, head) < head.len()) by {
        let most = head.drop_last();
        let last = seq![head.last()];
        assert(head =~= most + last);
        lemma_clean_concat(tester.seen, most, last);
        lemma_clean_bound(tester.seen, most);
        let now = (tester.seen + most).push(last[0]);
        assert(now =~= tester.seen + head);
        assert(rct_trips(now)) by {
            assert forall|i: int| now.len() - NIST_RCT_CUTOFF <= i < now.len() implies #[trigger] now[i]
                == now.last() by {
                let k = i - tester.seen.len();
                assert(now[i] == data[k]);
                assert(data[k] == data[from]);
                assert(data[end - 1] == data[from]);
            }
        }
        assert(last.drop_first() =~= Seq::<u8>::empty());
    }
}

/// From a start, the first samples are given up and all that follow are passed on, as long as none
/// trips a test.
pub proof fn law_startup_samples_discarded(tester: HealthView, data: Seq<u8>)
    requires
        tester.state == HealthState::Startup,
        tester.startup == 0,
        clean_prefix(tester.seen, data) == data.len(),
    ensures
        data.len() <= STARTUP_DISCARD_SAMPLES ==> tester.processed(data).1 == Seq::<u8>::empty(),
        data.len() > STARTUP_DISCARD_SAMPLES ==> tester.processed(data).1 == data.skip(
            STARTUP_DISCARD_SAMPLES as int,
        ),
{
    assert(data.skip(data.len() as int) =~= Seq::<u8>::empty());
}

/// What is passed on is the end of the batch, and only of a source that stands steady afterwards.
pub proof fn law_only_steady_sources_pass(tester: HealthView, data: Seq<u8>)
    requires
        tester.sound(),
    ensures
        ({
            let (after, passed) = tester.processed(data);
            &&& passed.len() <= data.len()
            &&& passed == data.skip(data.len() - passed.len())
            &&& passed.len() > 0 ==> after.state == HealthState::Steady
            &&& after.sound()
        }),
{
    let begun = if tester.state == HealthState::Failed {
        (HealthView { state: HealthState::Startup, cooled: 0, ..tester }).cleared()
    } else {
        tester
    };
    lemma_clean_bound(begun.seen, data);
    assert(data.skip(data.len() as int) =~= Seq::<u8>::empty());
    let clean = clean_prefix(begun.seen, data);
    assert(begun.advanced(data.take(clean as int)).sound());
}

/// Failures are never forgotten: no batch lowers their number, and a source that has failed too
/// often is dead once its cooldown is over, and dead for good.
pub proof fn law_failures_are_final(tester: HealthView, data: Seq<u8>)
    ensures
        tester.processed(data).0.failures >= tester.failures,
        tester.state == HealthState::Failed && tester.failures >= MAX_HEALTH_RETRIES
            && tester.cooled + data.len() >= RECOVERY_COOLDOWN_SAMPLES ==> tester.processed(
            data,
        ).0.state == HealthState::Dead,
        tester.state == HealthState::Dead ==> tester.processed(data) == (
            tester,
            Seq::<u8>::empty(),
        ),
{
}

/// Whether 31 equal samples stand in a row from an index on.
pub open spec fn run_of_31(samples: Seq<u8>, at: int) -> bool {
    &&& 0 <= at
    &&& at + 31 <= samples.len()
    &&& forall|i: int| at <= i < at + 31 ==> #[trigger] samples[i] == samples[at]
}

/// The samples of a window of 512, as far as there are any.
pub open spec fn window_of(samples: Seq<u8>, window: int) -> Seq<u8> {
    samples.subrange(
        512 * window,
        if 512 * window + 512 <= samples.len() {
            512 * window + 512
        } else {
            samples.len() as int
        },
    )
}

/// Whether the first sample of a window of 512 occurs in it 325 times or more.
pub open spec fn window_overfull(samples: Seq<u8>, window: int) -> bool {
    &&& 0 <= window
    &&& 512 * window < samples.len()
    &&& window_of(samples, window).to_multiset().count(samples[512 * window]) >= 325
}

/// Whether there is cause to fail a source on samples that follow others: 31 equal ones in a row that
/// end among them, or a window that reaches into them and is overfull.
pub open spec fn cause_to_fail(seen: Seq<u8>, data: Seq<u8>) -> bool {
    let all = seen + data;
    ||| exists|at: int| #[trigger] run_of_31(all, at) && at + 31 > seen.len()
    ||| data.len() > 0 && exists|window: int| #[trigger]
        window_overfull(all, window) && 512 * window + 512 > seen.len()
}

proof fn lemma_no_trip_before(seen: Seq<u8>, data: Seq<u8>, j: int)
    requires
        0 <= j < clean_prefix(seen, data),
    ensures
        !rct_trips(seen + data.take(j + 1)),
        !apt_trips(seen + data.take(j + 1)),
    decreases data.len(),
{
    let now = seen.push(data[0]);
    lemma_clean_bound(seen, data);
    if j == 0 {
        assert(seen + data.take(1) =~= now);
    } else {
        lemma_no_trip_before(now, data.drop_first(), j - 1);
        assert(now + data.drop_first().take(j) =~= seen + data.take(j + 1));
    }
}

proof fn lemma_trip_behind(seen: Seq<u8>, data: Seq<u8>)
    requires
        clean_prefix(seen, data) < data.len(),
    ensures
        ({
            let now = seen + data.take(clean_prefix(seen, data) as int + 1);
            rct_trips(now) || apt_trips(now)
        }),
    decreases data.len(),
{
    let now = seen.push(data[0]);
    if clean_prefix(seen, data) == 0 {
        assert(seen + data.take(1) =~= now);
    } else {
        let rest = data.drop_first();
        lemma_trip_behind(now, rest);
        let clean = clean_prefix(now, rest) as int;
        assert(now + rest.take(clean + 1) =~= seen + data.take(clean + 2));
    }
}

proof fn lemma_cause(seen: Seq<u8>, data: Seq<u8>)
    ensures
        cause_to_fail(seen, data) <==> clean_prefix(seen, data) < data.len(),
{
    let all = seen + data;
    let clean = clean_prefix(seen, data) as int;
    lemma_clean_bound(seen, data);
    if clean < data.len() {
        lemma_trip_behind(seen, data);
        let now = seen + data.take(clean + 1);
        let n = now.len() as int;
        assert(now =~= all.take(n));
        if rct_trips(now) {
            let at = n - 31;
            assert(now.last() == now[at]);
            assert forall|i: int| at <= i < at + 31 implies #[trigger] all[i] == all[at] by {
                assert(now[i] == now.last());
                assert(now[at] == now.last());
            }
            assert(run_of_31(all, at));
        } else {
            let window = (n - 1) / 512;
            let start = 512 * window;
            let first = all[start];
            let part = now.skip(start);
            let rest = window_of(all, window).skip(part.len() as int);
            assert(window_of(all, window) =~= part + rest);
            super::tally::lemma_tally_concat(part, rest, first);
            super::tally::law_tally_counts(window_of(all, window), first);
            assert(window_overfull(all, window));
        }
    } else {
        assert forall|at: int| #[trigger] run_of_31(all, at) implies at + 31 <= seen.len() by {
            if at + 31 > seen.len() {
                let j = at + 31 - seen.len() - 1;
                lemma_no_trip_before(seen, data, j);
                let now = seen + data.take(j + 1);
                assert(now =~= all.take(at + 31));
                assert forall|i: int| now.len() - NIST_RCT_CUTOFF <= i
                    < now.len() implies #[trigger] now[i] == now.last() by {
                    assert(all[i] == all[at]);
                    assert(all[at + 30] == all[at]);
                }
                assert(rct_trips(now));
            }
        }
        assert forall|window: int| data.len() > 0 && #[trigger] window_overfull(
            all,
            window,
        ) implies 512 * window + 512 <= seen.len() by {
            if 512 * window + 512 > seen.len() {
                let part = window_of(all, window);
                let end = 512 * window + part.len();
                let j = end - seen.len() - 1;
                lemma_no_trip_before(seen, data, j);
                let now = seen + data.take(j + 1);
                assert(now =~= all.take(end));
                assert((end - 1) / 512 == window);
                assert(now.skip(512 * window) =~= part);
                super::tally::law_tally_counts(part, all[512 * window]);
                assert(apt_trips(now));
            }
        }
    }
}

/// A source is failed for cause and only for cause: where 31 equal samples stand in a row, or the
/// first sample of a window of 512 occurs in it 325 times. Otherwise it stays live, and of the batch
/// all is passed on but what is still to be given up of the first 4096 samples.
pub proof fn law_failed_exactly_for_cause(tester: HealthView, data: Seq<u8>)
    requires
        tester.live(),
        tester.sound(),
    ensures
        ({
            let (after, passed) = tester.processed(data);
            let given_up = match tester.state {
                HealthState::Steady => 0,
                HealthState::Startup => if data.len() <= 4096 - tester.startup {
                    data.len() as int
                } else {
                    4096 - tester.startup
                },
                _ => data.len() as int,
            };
            &&& after.state == HealthState::Failed <==> cause_to_fail(tester.seen, data)
            &&& cause_to_fail(tester.seen, data) ==> {
                &&& passed == Seq::<u8>::empty()
                &&& after.failures == tester.failures + 1
                &&& after.rct_failures + after.apt_failures == tester.rct_failures
                    + tester.apt_failures + 1
                &&& after.cooled == 0
                &&& after.total <= tester.total + data.len()
            }
            &&& !cause_to_fail(tester.seen, data) ==> {
                &&& passed == data.skip(given_up)
                &&& after.live()
                &&& after.state == (if tester.state == HealthState::Startup && tester.startup
                    + data.len() >= 4096 {
                    HealthState::Steady
                } else {
                    tester.state
                })
                &&& after.seen == tester.seen + data
                &&& after.total == tester.total + data.len()
                &&& after.passed == tester.passed + data.len() - given_up
                &&& after.failures == tester.failures
                &&& after.rct_failures == tester.rct_failures
                &&& after.apt_failures == tester.apt_failures
            }
        }),
{
    lemma_cause(tester.seen, data);
    lemma_clean_bound(tester.seen, data);
}

/// A failed source sits out at least 10000 samples. Then it is dead if it has failed five times or
/// more, and otherwise tested anew: as a source is that has just been started, with the failures so
/// far.
pub proof fn law_failed_sources_cool_down(tester: HealthView, data: Seq<u8>)
    requires
        tester.state == HealthState::Failed,
    ensures
        ({
            let (after, passed) = tester.processed(data);
            let fresh = HealthView {
                state: HealthState::Startup,
                seen: Seq::empty(),
                startup: 0,
                cooled: 0,
                ..tester
            };
            &&& tester.cooled + data.len() < 10000 ==> passed == Seq::<u8>::empty() && after == (
            HealthView { cooled: tester.cooled + data.len(), ..tester })
            &&& tester.cooled + data.len() >= 10000 && tester.failures >= 5 ==> passed
                == Seq::<u8>::empty() && after.state == HealthState::Dead && after.failures
                == tester.failures
            &&& tester.cooled + data.len() >= 10000 && tester.failures < 5 ==> (after, passed)
                == fresh.processed(data)
        }),
{
}

/// A source that is failed is failed on the first sample for which there is cause: up to it and no
/// further the batch is tested and counted. It counts as a failure of the repetition count test where
/// it ends 31 equal samples in a row, and of the adaptive proportion test otherwise.
pub proof fn law_failed_at_first_cause(tester: HealthView, data: Seq<u8>)
    requires
        tester.live(),
        tester.sound(),
        cause_to_fail(tester.seen, data),
    ensures
        ({
            let after = tester.processed(data).0;
            let tested = after.total - tester.total;
            let repeated = run_of_31(after.seen, after.seen.len() - 31);
            &&& 1 <= tested <= data.len()
            &&& after.seen == tester.seen + data.take(tested)
            &&& cause_to_fail(tester.seen, data.take(tested))
            &&& !cause_to_fail(tester.seen, data.take(tested - 1))
            &&& after.rct_failures == tester.rct_failures + (if repeated {
                1int
            } else {
                0
            })
            &&& after.apt_failures == tester.apt_failures + (if repeated {
                0int
            } else {
                1
            })
            &&& after.passed == tester.passed + (match tester.state {
                HealthState::Steady => tested - 1,
                HealthState::Startup => if tester.startup + tested - 1 > 4096 {
                    tester.startup + tested - 1 - 4096
                } else {
                    0
                },
                _ => 0,
            })
        }),
{
    lemma_cause(tester.seen, data);
    lemma_clean_bound(tester.seen, data);
    let clean = clean_prefix(tester.seen, data) as int;
    let front = data.take(clean);
    let longer = data.take(clean + 1);
    assert(front + data.skip(clean) =~= data);
    assert(longer + data.skip(clean + 1) =~= data);
    lemma_clean_bound(tester.seen, front);
    lemma_clean_bound(tester.seen, longer);
    lemma_clean_concat(tester.seen, front, data.skip(clean));
    lemma_clean_concat(tester.seen, longer, data.skip(clean + 1));
    lemma_cause(tester.seen, front);
    lemma_cause(tester.seen, longer);
    let after = tester.processed(data).0;
    assert(after.seen =~= tester.seen + longer);
    let at = after.seen.len() - 31;
    if rct_trips(after.seen) {
        assert forall|i: int| at <= i < at + 31 implies #[trigger] after.seen[i]
            == after.seen[at] by {
            assert(after.seen[i] == after.seen.last());
            assert(after.seen[at] == after.seen.last());
        }
        assert(run_of_31(after.seen, at));
    }
    if run_of_31(after.seen, at) {
        assert forall|i: int| after.seen.len() - NIST_RCT_CUTOFF <= i
            < after.seen.len() implies #[trigger] after.seen[i] == after.seen.last() by {
            assert(after.seen[i] == after.seen[at]);
            assert(after.seen[at + 30] == after.seen[at]);
        }
        assert(rct_trips(after.seen));
    }
}

} // verus!
