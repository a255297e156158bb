//! Byte and pair counts that run on from batch to batch.

use super::estimate::{is_min_entropy, is_most_common, EntropyEstimate};
use super::tally::{
    law_pair_tally_counts, law_tally_counts, lemma_tally_bound, neighbours, pair_count, pair_tally,
    tally,
};
use vstd::prelude::*;

verus! {

/// The number of different bytes.
pub const BYTE_VALUES: usize = 256;

/// The number of different pairs of bytes.
pub const PAIR_VALUES: usize = 65536;

/// A byte string with the byte before it, if there was one.
pub open spec fn read_on(last: Option<u8>, data: Seq<u8>) -> Seq<u8> {
    match last {
        Some(byte) => seq![byte] + data,
        None => data,
    }
}

/// Counts of every byte and of every pair of neighbouring bytes in all that was fed so far.
#[derive(Clone)]
pub struct RunningEntropyAccumulator {
    /// How often each byte occurred.
    pub counts: [u64; 256],
    /// How many bytes there were.
    pub total_bytes: u64,
    /// How often each pair occurred, at 256 times its first byte plus its second.
    pub bigram_counts: Vec<u32>,
    /// How many pairs there were.
    pub bigram_total: u64,
    /// The last byte fed.
    pub last_byte: Option<u8>,
}

impl RunningEntropyAccumulator {
    /// There is a count for every pair.
    pub open spec fn wf(&self) -> bool {
        self.bigram_counts@.len() == PAIR_VALUES
    }

    /// Whether the counts can take `data` as well.
    pub open spec fn has_room(&self, data: Seq<u8>) -> bool {
        let joined = read_on(self.last_byte, data);
        &&& self.total_bytes + data.len() <= u64::MAX
        &&& self.bigram_total + pair_count(joined) <= u64::MAX
        &&& forall|b: u8| self.counts@[b as int] + #[trigger] tally(data, b) <= u64::MAX
        &&& forall|a: u8, b: u8|
            self.bigram_counts@[256 * a + b] + #[trigger] pair_tally(joined, a, b) <= u32::MAX
    }

    /// Whether every count can take `count` more.
    pub open spec fn headroom(&self, count: nat) -> bool {
        &&& self.total_bytes + count <= u64::MAX
        &&& self.bigram_total + count <= u64::MAX
        &&& forall|i: int| 0 <= i < BYTE_VALUES ==> #[trigger] self.counts@[i] + count <= u64::MAX
        &&& forall|i: int|
            0 <= i < PAIR_VALUES ==> #[trigger] self.bigram_counts@[i] + count <= u32::MAX
    }

    /// Whether `after` is this accumulator with `data` fed to it.
    pub open spec fn fed(&self, data: Seq<u8>, after: &RunningEntropyAccumulator) -> bool {
        let joined = read_on(self.last_byte, data);
        &&& after.wf()
        &&& after.total_bytes == self.total_bytes + data.len()
        &&& after.bigram_total == self.bigram_total + pair_count(joined)
        &&& after.last_byte == if data.len() > 0 {
            Some(data.last())
        } else {
            self.last_byte
        }
        &&& forall|b: u8| #[trigger]
            after.counts@[b as int] == self.counts@[b as int] + tally(data, b)
        &&& forall|a: u8, b: u8| #[trigger]
            after.bigram_counts@[256 * a + b] == self.bigram_counts@[256 * a + b] + pair_tally(
                joined,
                a,
                b,
            )
    }

    /// Whether nothing was fed yet.
    pub open spec fn is_fresh(&self) -> bool {
        &&& self.wf()
        &&& self.total_bytes == 0
        &&& self.bigram_total == 0
        &&& self.last_byte is None
        &&& forall|i: int| 0 <= i < BYTE_VALUES ==> #[trigger] self.counts@[i] == 0
        &&& forall|i: int| 0 <= i < PAIR_VALUES ==> #[trigger] self.bigram_counts@[i] == 0
    }

    /// An accumulator to which nothing was fed.
    pub fn new() -> (accumulator: Self)
        ensures
            accumulator.is_fresh(),
    {
        RunningEntropyAccumulator {
            counts: [0u64; 256],
            total_bytes: 0,
            bigram_counts: vec![0u32; 65536],
            bigram_total: 0,
            last_byte: None,
        }
    }

    /// Whether every count can take that many more.
    pub fn has_headroom(&self, count: usize) -> (room: bool)
        requires
            self.wf(),
        ensures
            room == self.headroom(count as nat),
    {
        let more: u64 = count as u64;
        if self.total_bytes > u64::MAX - more || self.bigram_total > u64::MAX - more {
            return false;
        }
        let most_bytes: u64 = largest_count(&self.counts);
        let most_pairs: u32 = largest_pair_count(&self.bigram_counts);
        proof {
            let i = choose|i: int| 0 <= i < BYTE_VALUES && self.counts@[i] == most_bytes;
            assert(self.counts@[i] == most_bytes);
            let k = choose|k: int| 0 <= k < PAIR_VALUES && self.bigram_counts@[k] == most_pairs;
            assert(self.bigram_counts@[k] == most_pairs);
        }
        most_bytes <= u64::MAX - more && more <= u32::MAX as u64 && most_pairs as u64 <= u32::MAX
            as u64 - more
    }

    /// Feeds bytes to the counts.
    pub fn update(&mut self, data: &[u8])
        requires
            old(self).wf(),
            old(self).has_room(data@),
        ensures
            old(self).fed(data@, final(self)),
    {
        let ghost start = *self;
        let mut i: usize = 0;
        proof {
            let none = data@.take(0);
            assert(none =~= Seq::<u8>::empty());
            assert(read_on(start.last_byte, none).len() <= 1);
            assert(start.fed(none, self));
        }
        while i < data.len()
            invariant
                i <= data.len(),
                start == *old(self),
                start.wf(),
                start.has_room(data@),
                start.fed(data@.take(i as int), self),
            decreases data.len() - i,
        {
            let b: u8 = data[i];
            let ghost before = *self;
            let ghost head = data@.take(i as int);
            let ghost joined = read_on(start.last_byte, head);
            let ghost next = data@.take(i + 1);
            proof {
                assert(next =~= head.push(b));
                assert(read_on(start.last_byte, next) =~= joined.push(b));
                assert(data@ =~= next + data@.skip(i + 1));
                assert forall|c: u8| tally(next, c) == tally(head, c) + (if b == c {
                    1nat
                } else {
                    0
                }) by {
                    super::tally::lemma_tally_push(head, b, c);
                }
                super::tally::lemma_tally_concat(next, data@.skip(i + 1), b);
                assert(tally(data@, b) >= tally(next, b));
                assert(joined.len() > 0 ==> Some(joined.last()) == before.last_byte);
                assert forall|x: u8, y: u8| pair_tally(joined.push(b), x, y) == pair_tally(
                    joined,
                    x,
                    y,
                ) + (if before.last_byte == Some(x) && b == y {
                    1nat
                } else {
                    0
                }) by {
                    super::tally::lemma_pair_tally_push(joined, b, x, y);
                }
            }
            self.counts[b as usize] = self.counts[b as usize] + 1;
            self.total_bytes = self.total_bytes + 1;
            if let Some(prev) = self.last_byte {
                let idx: usize = (prev as usize) * 256 + b as usize;
                proof {
                    let whole = read_on(start.last_byte, data@);
                    assert(whole =~= joined.push(b) + data@.skip(i + 1));
                    super::tally::lemma_pair_tally_concat(
                        joined.push(b),
                        data@.skip(i + 1),
                        prev,
                        b,
                    );
                    assert(start.bigram_counts@[256 * prev + b] + pair_tally(whole, prev, b)
                        <= u32::MAX);
                }
                self.bigram_counts[idx] = self.bigram_counts[idx] + 1;
                self.bigram_total = self.bigram_total + 1;
            }
            self.last_byte = Some(b);
            i += 1;
        }
        assert(data@.take(i as int) =~= data@);
    }

    /// Whether an estimate is the most-common-value estimate over all that was fed.
    pub open spec fn is_min_entropy(&self, estimate: EntropyEstimate) -> bool {
        exists|most: u64| #[trigger]
            is_largest(self.counts@, most) && estimate == (if self.total_bytes == 0 || most == 0
                || most >= self.total_bytes {
                EntropyEstimate::Zero
            } else {
                EntropyEstimate::Surprisal { part: most, whole: self.total_bytes }
            })
    }

    /// The most-common-value estimate over all that was fed.
    pub fn min_entropy(&self) -> (estimate: EntropyEstimate)
        ensures
            self.is_min_entropy(estimate),
    {
        let most: u64 = largest_count(&self.counts);
        assert(is_largest(self.counts@, most));
        if self.total_bytes == 0 || most == 0 || most >= self.total_bytes {
            EntropyEstimate::Zero
        } else {
            EntropyEstimate::Surprisal { part: most, whole: self.total_bytes }
        }
    }

    /// Whether an estimate is the pair estimate over all that was fed.
    pub open spec fn is_tuple_entropy(&self, estimate: EntropyEstimate) -> bool {
        exists|most: u32| #[trigger]
            is_largest_pair(self.bigram_counts@, most) && estimate == (if self.bigram_total < 100
                || most == 0 {
                EntropyEstimate::Full
            } else if most >= self.bigram_total {
                EntropyEstimate::Zero
            } else {
                EntropyEstimate::HalfSurprisal { part: most as u64, whole: self.bigram_total }
            })
    }

    /// The pair estimate, for each byte, over all that was fed. Below a hundred pairs it is not
    /// drawn.
    pub fn tuple_entropy(&self) -> (estimate: EntropyEstimate)
        requires
            self.wf(),
        ensures
            self.is_tuple_entropy(estimate),
    {
        let most: u32 = largest_pair_count(&self.bigram_counts);
        assert(is_largest_pair(self.bigram_counts@, most));
        if self.bigram_total < 100 || most == 0 {
            EntropyEstimate::Full
        } else if most as u64 >= self.bigram_total {
            EntropyEstimate::Zero
        } else {
            EntropyEstimate::HalfSurprisal { part: most as u64, whole: self.bigram_total }
        }
    }

    /// The number of different bytes that occurred.
    pub fn unique_values(&self) -> (unique: usize)
        ensures
            unique == nonzero(self.counts@),
    {
        let mut unique: usize = 0;
        let mut i: usize = 0;
        while i < 256
            invariant
                i <= 256,
                unique <= i,
                unique == nonzero(self.counts@.take(i as int)),
            decreases 256 - i,
        {
            assert(self.counts@.take(i + 1).drop_last() =~= self.counts@.take(i as int));
            if self.counts[i] > 0 {
                unique += 1;
            }
            i += 1;
        }
        assert(self.counts@.take(256) =~= self.counts@);
        unique
    }
}

/// How many of the counts are not zero.
pub open spec fn nonzero(counts: Seq<u64>) -> nat
    decreases counts.len(),
{
    if counts.len() == 0 {
        0
    } else {
        nonzero(counts.drop_last()) + (if counts.last() > 0 {
            1nat
        } else {
            0
        })
    }
}

/// Whether `most` is the largest of the counts.
pub open spec fn is_largest(counts: Seq<u64>, most: u64) -> bool {
    &&& counts.contains(most)
    &&& forall|i: int| 0 <= i < counts.len() ==> #[trigger] counts[i] <= most
}

/// Whether `most` is the largest of the pair counts.
pub open spec fn is_largest_pair(counts: Seq<u32>, most: u32) -> bool {
    &&& counts.contains(most)
    &&& forall|i: int| 0 <= i < counts.len() ==> #[trigger] counts[i] <= most
}

fn largest_count(counts: &[u64; 256]) -> (most: u64)
    ensures
        is_largest(counts@, most),
{
    let mut most: u64 = counts[0];
    let mut i: usize = 1;
    assert(counts@[0] == most);
    while i < 256
        invariant
            1 <= i <= 256,
            counts@.contains(most),
            forall|j: int| 0 <= j < i ==> #[trigger] counts@[j] <= most,
        decreases 256 - i,
    {
        if counts[i] > most {
            most = counts[i];
            assert(counts@[i as int] == most);
        }
        i += 1;
    }
    most
}

fn largest_pair_count(counts: &Vec<u32>) -> (most: u32)
    requires
        counts@.len() == PAIR_VALUES,
    ensures
        is_largest_pair(counts@, most),
{
    let mut most: u32 = counts[0];
    let mut i: usize = 1;
    assert(counts@[0] == most);
    while i < counts.len()
        invariant
            1 <= i <= counts.len(),
            counts@.contains(most),
            forall|j: int| 0 <= j < i ==> #[trigger] counts@[j] <= most,
        decreases counts.len() - i,
    {
        if counts[i] > most {
            most = counts[i];
            assert(counts@[i as int] == most);
        }
        i += 1;
    }
    most
}

/// Counts that can each take so many more can take any so many bytes, and can then each take the
/// rest.
pub proof fn lemma_headroom(
    start: &RunningEntropyAccumulator,
    data: Seq<u8>,
    count: nat,
    end: &RunningEntropyAccumulator,
)
    requires
        start.wf(),
        start.headroom(count),
        data.len() <= count,
    ensures
        start.has_room(data),
        start.fed(data, end) ==> end.headroom((count - data.len()) as nat),
{
    let joined = read_on(start.last_byte, data);
    assert(pair_count(joined) <= data.len());
    assert forall|b: u8| start.counts@[b as int] + #[trigger] tally(data, b) <= u64::MAX by {
        super::tally::lemma_tally_bound(data, b);
    }
    assert forall|a: u8, b: u8|
        start.bigram_counts@[256 * a + b] + #[trigger] pair_tally(joined, a, b) <= u32::MAX by {
        super::tally::lemma_pair_tally_bound(joined, a, b);
    }
    if start.fed(data, end) {
        let rest = (count - data.len()) as nat;
        assert forall|i: int| 0 <= i < BYTE_VALUES implies #[trigger] end.counts@[i] + rest
            <= u64::MAX by {
            let b = i as u8;
            super::tally::lemma_tally_bound(data, b);
            assert(end.counts@[b as int] == start.counts@[b as int] + tally(data, b));
        }
        assert forall|i: int| 0 <= i < PAIR_VALUES implies #[trigger] end.bigram_counts@[i] + rest
            <= u32::MAX by {
            let (a, b) = ((i / 256) as u8, (i % 256) as u8);
            super::tally::lemma_pair_tally_bound(joined, a, b);
            assert(256 * a + b == i);
            assert(end.bigram_counts@[256 * a + b] == start.bigram_counts@[256 * a + b]
                + pair_tally(joined, a, b));
        }
    }
}

/// How the bytes are cut into batches makes no difference to the counts: feeding one batch and then
/// another leaves them as feeding both at once would.
pub proof fn law_feeding_composes(
    start: &RunningEntropyAccumulator,
    front: Seq<u8>,
    middle: &RunningEntropyAccumulator,
    back: Seq<u8>,
    end: &RunningEntropyAccumulator,
)
    requires
        start.fed(front, middle),
        middle.fed(back, end),
    ensures
        start.fed(front + back, end),
{
    let whole = front + back;
    let joined = read_on(start.last_byte, front);
    let all = read_on(start.last_byte, whole);
    assert(all =~= joined + back);
    assert forall|b: u8| #[trigger]
        end.counts@[b as int] == start.counts@[b as int] + tally(whole, b) by {
        assert(middle.counts@[b as int] == start.counts@[b as int] + tally(front, b));
        super::tally::lemma_tally_concat(front, back, b);
    }
    if joined.len() == 0 {
        assert(joined + back =~= back);
        assert(whole =~= back);
        assert forall|a: u8, b: u8| pair_tally(joined, a, b) == 0 by {}
        assert forall|a: u8, b: u8| #[trigger]
            end.bigram_counts@[256 * a + b] == start.bigram_counts@[256 * a + b] + pair_tally(
                all,
                a,
                b,
            ) by {
            assert(middle.bigram_counts@[256 * a + b] == start.bigram_counts@[256 * a + b]
                + pair_tally(joined, a, b));
        }
    } else {
        assert(middle.last_byte == Some(joined.last()));
        assert forall|a: u8, b: u8| #[trigger]
            end.bigram_counts@[256 * a + b] == start.bigram_counts@[256 * a + b] + pair_tally(
                all,
                a,
                b,
            ) by {
            assert(middle.bigram_counts@[256 * a + b] == start.bigram_counts@[256 * a + b]
                + pair_tally(joined, a, b));
            super::tally::lemma_pair_tally_concat(joined, back, a, b);
        }
    }
    if back.len() > 0 {
        assert(whole.last() == back.last());
    } else {
        assert(whole =~= front);
    }
}

/// Feeding bytes adds to the count of each byte how often it is among them, and to the count of each
/// pair how often it is among the neighbours, the last byte fed before being the first neighbour.
pub proof fn law_feeding_counts(
    start: &RunningEntropyAccumulator,
    data: Seq<u8>,
    end: &RunningEntropyAccumulator,
    first: u8,
    second: u8,
)
    requires
        start.fed(data, end),
        data.len() > 0,
    ensures
        end.total_bytes == start.total_bytes + data.len(),
        end.counts@[first as int] == start.counts@[first as int] + data.to_multiset().count(first),
        end.last_byte == Some(data[data.len() - 1]),
        ({
            let joined = match start.last_byte {
                Some(last) => seq![last] + data,
                None => data,
            };
            &&& end.bigram_total == start.bigram_total + joined.len() - 1
            &&& end.bigram_counts@[256 * first + second] == start.bigram_counts@[256 * first
                + second] + neighbours(joined).to_multiset().count((first, second))
        }),
{
    law_tally_counts(data, first);
    law_pair_tally_counts(read_on(start.last_byte, data), first, second);
    assert(end.bigram_counts@[256 * first + second] == start.bigram_counts@[256 * first + second]
        + pair_tally(read_on(start.last_byte, data), first, second));
}

/// The most-common-value estimate tells the largest count out of all bytes fed, and no entropy where
/// that is all of them.
pub proof fn law_running_estimate_tells_largest_count(
    accumulator: &RunningEntropyAccumulator,
    estimate: EntropyEstimate,
)
    requires
        accumulator.is_min_entropy(estimate),
    ensures
        estimate is Zero || estimate is Surprisal,
        estimate matches EntropyEstimate::Surprisal { part, whole } ==> {
            &&& whole == accumulator.total_bytes
            &&& 0 < part < whole
            &&& forall|i: int| 0 <= i < 256 ==> #[trigger] accumulator.counts@[i] <= part
            &&& exists|i: int| 0 <= i < 256 && #[trigger] accumulator.counts@[i] == part
        },
        (exists|i: int|
            0 <= i < 256 && 0 < #[trigger] accumulator.counts@[i] < accumulator.total_bytes) && (
        forall|i: int|
            0 <= i < 256 ==> #[trigger] accumulator.counts@[i] < accumulator.total_bytes)
            ==> estimate is Surprisal,
{
    let most = choose|most: u64| #[trigger]
        is_largest(accumulator.counts@, most) && estimate == (if accumulator.total_bytes == 0 || most
            == 0 || most >= accumulator.total_bytes {
            EntropyEstimate::Zero
        } else {
            EntropyEstimate::Surprisal { part: most, whole: accumulator.total_bytes }
        });
    let at = choose|i: int| 0 <= i < accumulator.counts@.len() && accumulator.counts@[i] == most;
    assert(accumulator.counts@[at] == most);
}

/// The bytes that occurred are those whose count is not zero.
pub proof fn law_unique_values_are_counted(counts: Seq<u64>)
    ensures
        nonzero(counts) == counts.filter(|count: u64| count > 0).len(),
    decreases counts.len(),
{
    reveal(Seq::filter);
    if counts.len() > 0 {
        law_unique_values_are_counted(counts.drop_last());
    }
}

/// The pair estimate tells the largest count of a pair out of all pairs, from a hundred pairs on, and
/// no entropy where that is all of them.
pub proof fn law_running_pair_estimate_tells_largest_count(
    accumulator: &RunningEntropyAccumulator,
    estimate: EntropyEstimate,
)
    requires
        accumulator.wf(),
        accumulator.is_tuple_entropy(estimate),
    ensures
        accumulator.bigram_total < 100 ==> estimate is Full,
        estimate matches EntropyEstimate::HalfSurprisal { part, whole } ==> {
            &&& whole == accumulator.bigram_total
            &&& 0 < part < whole
            &&& forall|i: int| 0 <= i < 65536 ==> #[trigger] accumulator.bigram_counts@[i] <= part
            &&& exists|i: int| 0 <= i < 65536 && #[trigger] accumulator.bigram_counts@[i] == part
        },
        estimate is Zero ==> exists|i: int|
            0 <= i < 65536 && #[trigger] accumulator.bigram_counts@[i] >= accumulator.bigram_total,
        accumulator.bigram_total >= 100 && (exists|i: int|
            0 <= i < 65536 && #[trigger] accumulator.bigram_counts@[i]
                >= accumulator.bigram_total) ==> estimate is Zero,
        accumulator.bigram_total >= 100 && (exists|i: int|
            0 <= i < 65536 && #[trigger] accumulator.bigram_counts@[i] > 0) ==> estimate is Zero
            || estimate is HalfSurprisal,
{
    let counts = accumulator.bigram_counts@;
    let most = choose|most: u32| #[trigger]
        is_largest_pair(counts, most) && estimate == (if accumulator.bigram_total < 100 || most
            == 0 {
            EntropyEstimate::Full
        } else if most >= accumulator.bigram_total {
            EntropyEstimate::Zero
        } else {
            EntropyEstimate::HalfSurprisal { part: most as u64, whole: accumulator.bigram_total }
        });
    assert(counts.contains(most));
    let at = choose|i: int| 0 <= i < counts.len() && counts[i] == most;
    assert(counts[at] == most);
}

/// The estimate that runs on agrees with the estimate of one batch: over what was fed to an empty
/// accumulator it is the estimate of those bytes.
pub proof fn law_running_agrees_with_batch(
    start: &RunningEntropyAccumulator,
    data: Seq<u8>,
    end: &RunningEntropyAccumulator,
    running: EntropyEstimate,
    batch: EntropyEstimate,
)
    requires
        start.is_fresh(),
        start.fed(data, end),
        end.is_min_entropy(running),
        is_min_entropy(data, batch),
    ensures
        running == batch,
{
    let counts = end.counts@;
    assert forall|b: u8| #[trigger] counts[b as int] == tally(data, b) by {
        assert(start.counts@[b as int] == 0);
    }
    let one = choose|most: u64| #[trigger]
        is_largest(counts, most) && running == (if end.total_bytes == 0 || most == 0 || most
            >= end.total_bytes {
            EntropyEstimate::Zero
        } else {
            EntropyEstimate::Surprisal { part: most, whole: end.total_bytes }
        });
    let other = choose|most: u64| #[trigger]
        is_most_common(data, most as nat) && batch == (if data.len() == 0 || most == data.len() {
            EntropyEstimate::Zero
        } else {
            EntropyEstimate::Surprisal { part: most, whole: data.len() as u64 }
        });
    assert(counts.contains(one));
    let i = choose|i: int| 0 <= i < counts.len() && counts[i] == one;
    assert(tally(data, i as u8) == counts[i]);
    lemma_tally_bound(data, i as u8);
    let b = choose|b: u8| #[trigger] tally(data, b) == other;
    assert(counts[b as int] == other);
    if data.len() > 0 {
        assert(data =~= data.drop_last().push(data.last()));
        assert(tally(data, data.last()) > 0);
    }
}

} // verus!
