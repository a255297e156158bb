//! Entropy estimates, after NIST SP 800-90B section 6.
//!
//! An estimate is a logarithm of a ratio of counts. What is counted, and which formula applies, is
//! settled here; the logarithm itself is floating-point work and is left to the caller.

use super::tally::{
    law_pair_tally_counts, law_tally_counts, neighbours, pair_tally, tally,
};
use crate::binary64::Binary64;
use vstd::prelude::*;

verus! {

/// The most starting points that the collision estimate looks at.
pub const COLLISION_STARTS: usize = 5000;

/// The fewest bytes from which the collision estimate is drawn.
pub const COLLISION_FLOOR: usize = 20;

/// The fewest bytes from which the pair estimate is drawn.
pub const TUPLE_FLOOR: usize = 100;

/// The bit pattern of 8.0, the most bits of entropy that a byte can have.
pub const EIGHT_BITS: u64 = 0x4020_0000_0000_0000;

/// An estimate in bits for each byte, as the formula that gives it.
#[derive(Clone, Copy, PartialEq, Eq, Structural, Debug)]
pub enum EntropyEstimate {
    /// No entropy.
    Zero,
    /// Eight bits.
    Full,
    /// The negative binary logarithm of `part / whole`, no less than zero and no more than eight.
    Surprisal { part: u64, whole: u64 },
    /// Half the negative binary logarithm of `part / whole`, no less than zero and no more than
    /// eight.
    HalfSurprisal { part: u64, whole: u64 },
    /// The binary logarithm of the mean `sum / count`, no less than zero and no more than eight.
    MeanGap { sum: u64, count: u64 },
}

/// How often the most common byte occurs.
pub open spec fn is_most_common(data: Seq<u8>, most: nat) -> bool {
    &&& exists|b: u8| #[trigger] tally(data, b) == most
    &&& forall|b: u8| #[trigger] tally(data, b) <= most
}

/// How often the most common pair of neighbours occurs.
pub open spec fn is_most_common_pair(data: Seq<u8>, most: nat) -> bool {
    &&& exists|a: u8, b: u8| #[trigger] pair_tally(data, a, b) == most
    &&& forall|a: u8, b: u8| #[trigger] pair_tally(data, a, b) <= most
}

/// The distance from index `i` to the first index from `j` on that holds the same byte, zero where
/// there is none.
pub open spec fn gap_from(data: Seq<u8>, i: int, j: int) -> nat
    decreases data.len() - j,
{
    if j >= data.len() {
        0
    } else if data[j] == data[i] {
        (j - i) as nat
    } else {
        gap_from(data, i, j + 1)
    }
}

/// The distance from index `i` to the next index that holds the same byte, zero where there is
/// none.
pub open spec fn gap(data: Seq<u8>, i: int) -> nat {
    gap_from(data, i, i + 1)
}

/// The sum of the gaps behind the first `starts` indices.
pub open spec fn gap_sum(data: Seq<u8>, starts: nat) -> nat
    decreases starts,
{
    if starts == 0 {
        0
    } else {
        gap_sum(data, (starts - 1) as nat) + gap(data, starts - 1)
    }
}

/// How many of the first `starts` indices have a gap behind them.
pub open spec fn gap_count(data: Seq<u8>, starts: nat) -> nat
    decreases starts,
{
    if starts == 0 {
        0
    } else {
        gap_count(data, (starts - 1) as nat) + (if gap(data, starts - 1) > 0 {
            1nat
        } else {
            0
        })
    }
}

/// How many starting points the collision estimate looks at.
pub open spec fn collision_starts(len: nat) -> nat {
    if len < 2 {
        0
    } else if len - 2 < COLLISION_STARTS {
        (len - 2) as nat
    } else {
        COLLISION_STARTS as nat
    }
}

/// Whether an estimate is the most-common-value estimate of a byte string.
pub open spec fn is_min_entropy(data: Seq<u8>, estimate: EntropyEstimate) -> bool {
    exists|most: u64| #[trigger]
        is_most_common(data, most as nat) && estimate == (if data.len() == 0 || most == data.len() {
            EntropyEstimate::Zero
        } else {
            EntropyEstimate::Surprisal { part: most, whole: data.len() as u64 }
        })
}

/// Whether an estimate is the collision estimate of a byte string.
pub open spec fn is_collision_entropy(data: Seq<u8>, estimate: EntropyEstimate) -> bool {
    let starts = collision_starts(data.len());
    let sum = gap_sum(data, starts);
    let count = gap_count(data, starts);
    if data.len() < COLLISION_FLOOR {
        is_min_entropy(data, estimate)
    } else if count == 0 {
        estimate == EntropyEstimate::Full
    } else if sum == count {
        estimate == EntropyEstimate::Zero
    } else {
        estimate == (EntropyEstimate::MeanGap { sum: sum as u64, count: count as u64 })
    }
}

/// Whether an estimate is the pair estimate of a byte string.
pub open spec fn is_tuple_entropy(data: Seq<u8>, estimate: EntropyEstimate) -> bool {
    if data.len() < TUPLE_FLOOR {
        is_min_entropy(data, estimate)
    } else {
        exists|most: u64| #[trigger]
            is_most_common_pair(data, most as nat) && estimate == (if most == data.len() - 1 {
                EntropyEstimate::Zero
            } else {
                EntropyEstimate::Surprisal { part: most, whole: (data.len() - 1) as u64 }
            })
    }
}

/// Counts how often each byte occurs.
pub fn byte_counts(data: &[u8]) -> (counts: [u64; 256])
    ensures
        forall|b: u8| #[trigger] counts@[b as int] == tally(data@, b),
{
    let mut counts: [u64; 256] = [0u64; 256];
    let mut i: usize = 0;
    while i < data.len()
        invariant
            i <= data.len(),
            forall|b: u8| #[trigger] counts@[b as int] == tally(data@.take(i as int), b),
        decreases data.len() - i,
    {
        let byte: u8 = data[i];
        proof {
            let head = data@.take(i as int);
            assert(data@.take(i + 1) =~= head.push(byte));
            super::tally::lemma_tally_bound(head, byte);
            assert(counts@[byte as int] == tally(head, byte));
            assert forall|b: u8| tally(data@.take(i + 1), b) == tally(head, b) + (if byte == b {
                1nat
            } else {
                0
            }) by {
                super::tally::lemma_tally_push(head, byte, b);
            }
        }
        counts[byte as usize] = counts[byte as usize] + 1;
        i += 1;
    }
    assert(data@.take(i as int) =~= data@);
    counts
}

/// The most-common-value estimate: the surprisal of the byte that occurs most often.
pub fn min_entropy(data: &[u8]) -> (estimate: EntropyEstimate)
    ensures
        is_min_entropy(data@, estimate),
{
    let counts: [u64; 256] = byte_counts(data);
    let mut most: u64 = counts[0];
    let mut i: usize = 1;
    assert(counts@[0u8 as int] == most);
    while i < 256
        invariant
            1 <= i <= 256,
            forall|b: u8| #[trigger] counts@[b as int] == tally(data@, b),
            exists|b: u8| #[trigger] counts@[b as int] == most,
            forall|b: u8| b < i ==> #[trigger] counts@[b as int] <= most,
        decreases 256 - i,
    {
        if counts[i] > most {
            most = counts[i];
            assert(counts@[(i as u8) as int] == most);
        }
        i += 1;
    }
    proof {
        let b = choose|b: u8| #[trigger] counts@[b as int] == most;
        assert(tally(data@, b) == most);
        assert forall|c: u8| #[trigger] tally(data@, c) <= most by {
            assert(counts@[c as int] <= most);
        }
        assert(is_most_common(data@, most as nat));
    }
    if data.len() == 0 || most == data.len() as u64 {
        EntropyEstimate::Zero
    } else {
        EntropyEstimate::Surprisal { part: most, whole: data.len() as u64 }
    }
}

fn next_gap(data: &[u8], i: usize) -> (distance: usize)
    requires
        i < data@.len(),
    ensures
        distance == gap(data@, i as int),
        distance <= data@.len(),
{
    let target: u8 = data[i];
    let mut j: usize = i + 1;
    while j < data.len()
        invariant
            i < j <= data.len(),
            target == data@[i as int],
            gap_from(data@, i as int, j as int) == gap(data@, i as int),
        decreases data.len() - j,
    {
        if data[j] == target {
            return j - i;
        }
        j += 1;
    }
    0
}

/// The collision estimate: the logarithm of the mean distance from a byte to its next occurrence.
pub fn collision_entropy(data: &[u8]) -> (estimate: EntropyEstimate)
    requires
        data@.len() * COLLISION_STARTS <= u64::MAX,
    ensures
        is_collision_entropy(data@, estimate),
{
    if data.len() < COLLISION_FLOOR {
        return min_entropy(data);
    }
    let starts: usize = if data.len() - 2 < COLLISION_STARTS {
        data.len() - 2
    } else {
        COLLISION_STARTS
    };
    let mut sum: u64 = 0;
    let mut count: u64 = 0;
    let mut i: usize = 0;
    while i < starts
        invariant
            i <= starts,
            starts <= COLLISION_STARTS,
            starts + 2 <= data@.len(),
            data@.len() * COLLISION_STARTS <= u64::MAX,
            sum == gap_sum(data@, i as nat),
            count == gap_count(data@, i as nat),
            count <= i,
            sum <= i * data@.len(),
        decreases starts - i,
    {
        let distance: usize = next_gap(data, i);
        assert(i * data@.len() + data@.len() <= data@.len() * COLLISION_STARTS && i * data@.len()
            + data@.len() == (i + 1) * data@.len()) by (nonlinear_arith)
            requires
                i + 1 <= COLLISION_STARTS,
                data@.len() >= 0,
        ;
        sum = sum + distance as u64;
        if distance > 0 {
            count = count + 1;
        }
        i += 1;
    }
    if count == 0 {
        EntropyEstimate::Full
    } else if sum == count {
        EntropyEstimate::Zero
    } else {
        EntropyEstimate::MeanGap { sum, count }
    }
}

/// The pair estimate: the surprisal of the pair of neighbours that occurs most often.
pub fn tuple_entropy(data: &[u8]) -> (estimate: EntropyEstimate)
    ensures
        is_tuple_entropy(data@, estimate),
{
    if data.len() < TUPLE_FLOOR {
        return min_entropy(data);
    }
    let mut counts: Vec<u64> = vec![0u64; 65536];
    let mut i: usize = 1;
    proof {
        assert forall|a: u8, b: u8| #[trigger]
            counts@[256 * a + b] == pair_tally(data@.take(1), a, b) by {}
    }
    while i < data.len()
        invariant
            1 <= i <= data.len(),
            counts@.len() == 65536,
            forall|a: u8, b: u8| #[trigger]
                counts@[256 * a + b] == pair_tally(data@.take(i as int), a, b),
        decreases data.len() - i,
    {
        let prev: u8 = data[i - 1];
        let byte: u8 = data[i];
        let idx: usize = (prev as usize) * 256 + byte as usize;
        proof {
            let head = data@.take(i as int);
            assert(data@.take(i + 1) =~= head.push(byte));
            super::tally::lemma_pair_tally_bound(head, prev, byte);
            assert(counts@[256 * prev + byte] == pair_tally(head, prev, byte));
            assert forall|a: u8, b: u8| pair_tally(data@.take(i + 1), a, b) == pair_tally(
                head,
                a,
                b,
            ) + (if prev == a && byte == b {
                1nat
            } else {
                0
            }) by {
                super::tally::lemma_pair_tally_push(head, byte, a, b);
            }
        }
        counts[idx] = counts[idx] + 1;
        i += 1;
    }
    assert(data@.take(i as int) =~= data@);
    let mut most: u64 = counts[0];
    let mut k: usize = 1;
    assert(counts@[256 * 0u8 + 0u8] == most);
    while k < 65536
        invariant
            1 <= k <= 65536,
            counts@.len() == 65536,
            forall|a: u8, b: u8| #[trigger] counts@[256 * a + b] == pair_tally(data@, a, b),
            exists|a: u8, b: u8| #[trigger] counts@[256 * a + b] == most,
            forall|a: u8, b: u8| 256 * a + b < k ==> #[trigger] counts@[256 * a + b] <= most,
        decreases 65536 - k,
    {
        if counts[k] > most {
            most = counts[k];
            proof {
                let (a, b) = ((k / 256) as u8, (k % 256) as u8);
                assert(256 * a + b == k);
                assert(counts@[256 * a + b] == most);
            }
        }
        k += 1;
    }
    proof {
        let (a, b) = choose|a: u8, b: u8| #[trigger] counts@[256 * a + b] == most;
        assert(pair_tally(data@, a, b) == most);
        assert forall|c: u8, d: u8| #[trigger] pair_tally(data@, c, d) <= most by {
            assert(256 * c + d < 65536);
            assert(counts@[256 * c + d] <= most);
        }
        assert(is_most_common_pair(data@, most as nat));
    }
    let total: u64 = (data.len() - 1) as u64;
    if most == total {
        EntropyEstimate::Zero
    } else {
        EntropyEstimate::Surprisal { part: most, whole: total }
    }
}

/// The smaller of two numbers of which neither is a not-a-number.
pub open spec fn least(a: Binary64, b: Binary64) -> Binary64 {
    if a.units() <= b.units() {
        a
    } else {
        b
    }
}

/// A number, no less than zero and no more than eight.
pub open spec fn within_byte(a: Binary64) -> Binary64 {
    let floor = Binary64 { bits: 0 };
    let raised = if a.units() >= floor.units() {
        a
    } else {
        floor
    };
    least(raised, Binary64 { bits: EIGHT_BITS })
}

fn clamp_to_byte(a: Binary64) -> (clamped: Binary64)
    requires
        !a.is_nan(),
    ensures
        clamped == within_byte(a),
        !clamped.is_nan(),
{
    a.larger(Binary64::from_bits(0)).smaller(Binary64::from_bits(EIGHT_BITS))
}

/// The most cautious of the estimates of a batch of this length.
pub open spec fn most_cautious(
    len: nat,
    mcv: Binary64,
    collision: Binary64,
    tuple: Binary64,
) -> Binary64 {
    if len < COLLISION_FLOOR {
        within_byte(mcv)
    } else if len < TUPLE_FLOOR {
        within_byte(least(least(mcv, collision), Binary64 { bits: EIGHT_BITS }))
    } else {
        within_byte(least(least(mcv, collision), tuple))
    }
}

/// The most cautious of the estimates of one batch: the least of those that its length allows, no
/// less than zero and no more than eight. `mcv`, `collision` and `tuple` are the values of the three
/// estimates of the batch.
pub fn conservative_min_entropy(
    len: usize,
    mcv: Binary64,
    collision: Binary64,
    tuple: Binary64,
) -> (estimate: Binary64)
    requires
        !mcv.is_nan(),
        !collision.is_nan(),
        !tuple.is_nan(),
    ensures
        estimate == most_cautious(len as nat, mcv, collision, tuple),
{
    if len < COLLISION_FLOOR {
        return clamp_to_byte(mcv);
    }
    let tup: Binary64 = if len >= TUPLE_FLOOR {
        tuple
    } else {
        Binary64::from_bits(EIGHT_BITS)
    };
    clamp_to_byte(mcv.smaller(collision).smaller(tup))
}

/// The most cautious of the two running estimates, no less than zero and no more than eight.
pub fn conservative_running(mcv: Binary64, tuple: Binary64) -> (estimate: Binary64)
    requires
        !mcv.is_nan(),
        !tuple.is_nan(),
    ensures
        estimate == within_byte(least(mcv, tuple)),
{
    clamp_to_byte(mcv.smaller(tuple))
}

/// The combined estimate is cautious: of estimates that are not negative it is never above any one
/// that the length of the batch allows, never below zero and never above eight. Of estimates between
/// zero and eight it is always one of those.
pub proof fn law_combined_estimate_is_cautious(
    len: nat,
    mcv: Binary64,
    collision: Binary64,
    tuple: Binary64,
)
    requires
        !mcv.is_nan(),
        !collision.is_nan(),
        !tuple.is_nan(),
        mcv.units() >= 0,
        collision.units() >= 0,
        tuple.units() >= 0,
    ensures
        ({
            let combined = most_cautious(len, mcv, collision, tuple);
            let eight = (Binary64 { bits: EIGHT_BITS }).units();
            &&& combined.units() <= mcv.units()
            &&& len >= COLLISION_FLOOR ==> combined.units() <= collision.units()
            &&& len >= TUPLE_FLOOR ==> combined.units() <= tuple.units()
            &&& 0 <= combined.units() <= eight
            &&& mcv.units() <= eight && collision.units() <= eight && tuple.units() <= eight ==> {
                ||| combined == mcv
                ||| len >= COLLISION_FLOOR && combined == collision
                ||| len >= TUPLE_FLOOR && combined == tuple
            }
        }),
{
    crate::binary64::lemma_sizes_ordered(0, EIGHT_BITS as nat);
}

/// The most-common-value estimate lies between zero and eight bits: the most common byte makes up a
/// part of the whole that is no less than one in 256, and less than all of it unless there is no
/// entropy.
pub proof fn law_min_entropy_is_bounded(data: Seq<u8>, estimate: EntropyEstimate)
    requires
        data.len() <= u64::MAX,
        is_min_entropy(data, estimate),
    ensures
        match estimate {
            EntropyEstimate::Zero => data.len() == 0 || exists|b: u8|
                #[trigger] tally(data, b) == data.len(),
            EntropyEstimate::Surprisal { part, whole } => {
                &&& whole == data.len()
                &&& 0 < part < whole
                &&& whole <= 256 * part
            },
            _ => false,
        },
{
    let most = choose|most: u64| #[trigger]
        is_most_common(data, most as nat) && estimate == (if data.len() == 0 || most == data.len() {
            EntropyEstimate::Zero
        } else {
            EntropyEstimate::Surprisal { part: most, whole: data.len() as u64 }
        });
    let b = choose|b: u8| #[trigger] tally(data, b) == most as nat;
    super::tally::lemma_tally_bound(data, b);
    super::tally::lemma_tally_all(data);
    super::tally::lemma_tally_below_bound(data, 256, most as nat);
}

/// The most-common-value estimate rests on how often each byte occurs and on nothing else: byte
/// strings in which every byte occurs equally often, in whatever order, have the same estimate.
pub proof fn law_min_entropy_ignores_order(
    one: Seq<u8>,
    other: Seq<u8>,
    estimate: EntropyEstimate,
    other_estimate: EntropyEstimate,
)
    requires
        forall|b: u8| #[trigger] tally(one, b) == tally(other, b),
        is_min_entropy(one, estimate),
        is_min_entropy(other, other_estimate),
    ensures
        estimate == other_estimate,
{
    super::tally::lemma_same_tallies_same_length(one, other, 256);
    let most = choose|most: u64| #[trigger]
        is_most_common(one, most as nat) && estimate == (if one.len() == 0 || most == one.len() {
            EntropyEstimate::Zero
        } else {
            EntropyEstimate::Surprisal { part: most, whole: one.len() as u64 }
        });
    let other_most = choose|most: u64| #[trigger]
        is_most_common(other, most as nat) && other_estimate == (if other.len() == 0 || most
            == other.len() {
            EntropyEstimate::Zero
        } else {
            EntropyEstimate::Surprisal { part: most, whole: other.len() as u64 }
        });
    let b = choose|b: u8| #[trigger] tally(one, b) == most as nat;
    let c = choose|b: u8| #[trigger] tally(other, b) == other_most as nat;
    assert(tally(other, b) <= other_most);
    assert(tally(one, c) <= most);
}

/// Whether a distance leads from a byte to the next place where it occurs; zero where it does not
/// occur again.
pub open spec fn is_distance(data: Seq<u8>, i: int, distance: nat) -> bool {
    if distance == 0 {
        forall|j: int| i < j < data.len() ==> data[j] != data[i]
    } else {
        &&& i + distance < data.len()
        &&& data[i + distance] == data[i]
        &&& forall|j: int| i < j < i + distance ==> data[j] != data[i]
    }
}

proof fn lemma_gap_from(data: Seq<u8>, i: int, j: int)
    requires
        0 <= i < j <= data.len(),
        forall|k: int| i < k < j ==> data[k] != data[i],
    ensures
        is_distance(data, i, gap_from(data, i, j)),
    decreases data.len() - j,
{
    if j < data.len() && data[j] != data[i] {
        lemma_gap_from(data, i, j + 1);
    }
}

/// A gap is the distance to the next place where the byte occurs, anywhere behind it.
pub proof fn law_gap_is_distance(data: Seq<u8>, i: int, distance: nat)
    requires
        0 <= i < data.len(),
    ensures
        gap(data, i) == distance <==> is_distance(data, i, distance),
{
    lemma_gap_from(data, i, i + 1);
    let g = gap(data, i);
    if is_distance(data, i, distance) && g != distance {
        assert(g != 0 ==> data[i + g] == data[i]);
        assert(distance != 0 ==> data[i + distance] == data[i]);
        assert(false);
    }
}

/// The sum of numbers.
pub open spec fn total(numbers: Seq<nat>) -> nat {
    numbers.fold_left(0nat, |sum: nat, next: nat| sum + next)
}

/// How many of some numbers are not zero.
pub open spec fn positives(numbers: Seq<nat>) -> nat {
    numbers.filter(|number: nat| number > 0).len()
}

proof fn lemma_gap_totals(data: Seq<u8>, starts: nat)
    ensures
        ({
            let gaps = Seq::new(starts, |i: int| gap(data, i));
            &&& gap_sum(data, starts) == total(gaps)
            &&& gap_count(data, starts) == positives(gaps)
        }),
        gap_sum(data, starts) >= gap_count(data, starts),
        gap_count(data, starts) == 0 <==> forall|i: int| 0 <= i < starts ==> #[trigger] gap(data, i)
            == 0,
        gap_sum(data, starts) == gap_count(data, starts) <==> forall|i: int|
            0 <= i < starts ==> #[trigger] gap(data, i) <= 1,
    decreases starts,
{
    let gaps = Seq::new(starts, |i: int| gap(data, i));
    if starts > 0 {
        let less = (starts - 1) as nat;
        let before = Seq::new(less, |i: int| gap(data, i));
        lemma_gap_totals(data, less);
        assert(gaps.drop_last() =~= before);
        assert(gaps =~= before.push(gap(data, starts - 1)));
        reveal(Seq::filter);
        assert(gap(data, starts - 1) == gaps.last());
        if gap_count(data, starts) == 0 {
            assert forall|i: int| 0 <= i < starts implies #[trigger] gap(data, i) == 0 by {
                if i < less {
                    assert(gap(data, i) == 0);
                }
            }
        }
        if gap_sum(data, starts) == gap_count(data, starts) {
            assert forall|i: int| 0 <= i < starts implies #[trigger] gap(data, i) <= 1 by {
                if i < less {
                    assert(gap(data, i) <= 1);
                }
            }
        }
    } else {
        reveal(Seq::filter);
    }
}

/// The collision estimate of 20 bytes or more looks at the first 5000 of them, but not at the last
/// two. It is full exactly where none of them occurs again anywhere behind it, nothing where those
/// that do are next to each other, and otherwise tells the sum and the number of all distances.
pub proof fn law_collision_sees_every_recurrence(data: Seq<u8>, estimate: EntropyEstimate)
    requires
        20 <= data.len(),
        data.len() * 5000 <= u64::MAX,
        is_collision_entropy(data, estimate),
    ensures
        ({
            let starts = if data.len() - 2 < 5000 {
                data.len() - 2
            } else {
                5000
            };
            &&& estimate == EntropyEstimate::Full <==> forall|i: int, j: int|
                #![trigger data[i], data[j]]
                0 <= i < starts && i < j < data.len() ==> data[j] != data[i]
            &&& estimate == EntropyEstimate::Full || estimate == EntropyEstimate::Zero
                || estimate is MeanGap
            &&& exists|distances: Seq<nat>|
                {
                    &&& distances.len() == starts
                    &&& forall|i: int|
                        0 <= i < starts ==> is_distance(data, i, #[trigger] distances[i])
                    &&& estimate matches EntropyEstimate::MeanGap { sum, count } ==> sum
                        == #[trigger] total(distances) && count == positives(distances) && 0 < count
                        < sum
                    &&& estimate == EntropyEstimate::Zero <==> (exists|i: int|
                        0 <= i < starts && #[trigger] distances[i] > 0) && forall|i: int|
                        0 <= i < starts ==> #[trigger] distances[i] <= 1
                }
        }),
{
    let starts = collision_starts(data.len());
    let distances = Seq::new(starts, |i: int| gap(data, i));
    lemma_gap_totals(data, starts);
    lemma_gap_bound(data, starts);
    assert(starts * data.len() <= u64::MAX) by (nonlinear_arith)
        requires
            starts <= 5000,
            data.len() * 5000 <= u64::MAX,
    ;
    assert forall|i: int| 0 <= i < starts implies is_distance(data, i, #[trigger] distances[i]) by {
        law_gap_is_distance(data, i, gap(data, i));
    }
    if estimate == EntropyEstimate::Full {
        assert forall|i: int, j: int|
            #![trigger data[i], data[j]]
            0 <= i < starts && i < j < data.len() implies data[j] != data[i] by {
            assert(gap(data, i) == 0);
            assert(is_distance(data, i, distances[i]));
        }
    } else {
        let i = choose|i: int| 0 <= i < starts && #[trigger] gap(data, i) != 0;
        assert(is_distance(data, i, distances[i]));
        let j = i + distances[i];
        assert(data[j] == data[i]);
    }
    assert(positives(distances) == gap_count(data, starts));
    assert(forall|i: int| 0 <= i < starts ==> #[trigger] distances[i] == gap(data, i));
    assert(estimate == EntropyEstimate::Zero <==> (exists|i: int|
        0 <= i < starts && #[trigger] distances[i] > 0) && forall|i: int|
        0 <= i < starts ==> #[trigger] distances[i] <= 1) by {
        if forall|i: int| 0 <= i < starts ==> #[trigger] distances[i] <= 1 {
            assert forall|i: int| 0 <= i < starts implies #[trigger] gap(data, i) <= 1 by {
                assert(distances[i] <= 1);
            }
        }
        if gap_count(data, starts) > 0 {
            let i = choose|i: int| 0 <= i < starts && #[trigger] gap(data, i) != 0;
            assert(distances[i] > 0);
        }
        if exists|i: int| 0 <= i < starts && #[trigger] distances[i] > 0 {
            let i = choose|i: int| 0 <= i < starts && #[trigger] distances[i] > 0;
            assert(gap(data, i) != 0);
        }
    }
    assert(total(distances) == gap_sum(data, starts));
}

proof fn lemma_gap_bound(data: Seq<u8>, starts: nat)
    requires
        starts < data.len(),
    ensures
        gap_sum(data, starts) <= starts * data.len(),
        gap_count(data, starts) <= starts,
    decreases starts,
{
    if starts > 0 {
        lemma_gap_bound(data, (starts - 1) as nat);
        law_gap_is_distance(data, starts - 1, gap(data, starts - 1));
        assert(starts * data.len() == (starts - 1) * data.len() + data.len()) by (nonlinear_arith);
    }
}

/// The most-common-value estimate tells how often the most common byte occurs: no byte occurs more
/// often, and one does as often. There is no entropy exactly where all bytes are the same.
pub proof fn law_min_entropy_tells_most_common(data: Seq<u8>, estimate: EntropyEstimate)
    requires
        data.len() <= u64::MAX,
        is_min_entropy(data, estimate),
    ensures
        estimate == EntropyEstimate::Zero <==> forall|i: int, j: int|
            #![trigger data[i], data[j]]
            0 <= i < j < data.len() ==> data[i] == data[j],
        estimate matches EntropyEstimate::Surprisal { part, whole } ==> {
            &&& whole == data.len()
            &&& forall|b: u8| #[trigger] data.to_multiset().count(b) <= part
            &&& exists|b: u8| #[trigger] data.to_multiset().count(b) == part
        },
        estimate is Zero || estimate is Surprisal,
{
    let most = choose|most: u64| #[trigger]
        is_most_common(data, most as nat) && estimate == (if data.len() == 0 || most == data.len() {
            EntropyEstimate::Zero
        } else {
            EntropyEstimate::Surprisal { part: most, whole: data.len() as u64 }
        });
    let top = choose|b: u8| #[trigger] tally(data, b) == most as nat;
    law_tally_counts(data, top);
    assert forall|b: u8| #[trigger] data.to_multiset().count(b) <= most by {
        law_tally_counts(data, b);
        assert(tally(data, b) <= most);
    }
    lemma_tally_all_same(data, top);
    if data.len() > 0 {
        lemma_tally_all_same(data, data[0]);
        if forall|i: int, j: int|
            #![trigger data[i], data[j]]
            0 <= i < j < data.len() ==> data[i] == data[j] {
            assert forall|i: int| 0 <= i < data.len() implies #[trigger] data[i] == data[0] by {}
            assert(tally(data, data[0]) == data.len());
            assert(tally(data, data[0]) <= most);
            super::tally::lemma_tally_bound(data, top);
        }
    }
}

proof fn lemma_tally_all_same(data: Seq<u8>, byte: u8)
    ensures
        tally(data, byte) == data.len() <==> forall|i: int|
            0 <= i < data.len() ==> #[trigger] data[i] == byte,
    decreases data.len(),
{
    if data.len() > 0 {
        lemma_tally_all_same(data.drop_last(), byte);
        super::tally::lemma_tally_bound(data.drop_last(), byte);
        if tally(data, byte) == data.len() {
            assert forall|i: int| 0 <= i < data.len() implies #[trigger] data[i] == byte by {
                if i < data.len() - 1 {
                    assert(data.drop_last()[i] == byte);
                }
            }
        } else if forall|i: int| 0 <= i < data.len() ==> #[trigger] data[i] == byte {
            assert forall|i: int| 0 <= i < data.drop_last().len() implies
                #[trigger] data.drop_last()[i] == byte by {
                assert(data[i] == byte);
            }
            assert(data.last() == data[data.len() - 1]);
        }
    }
}

/// The pair estimate of 100 bytes or more tells how often the most common pair of neighbours occurs,
/// out of all pairs.
pub proof fn law_tuple_entropy_tells_most_common_pair(data: Seq<u8>, estimate: EntropyEstimate)
    requires
        100 <= data.len() <= u64::MAX,
        is_tuple_entropy(data, estimate),
    ensures
        estimate matches EntropyEstimate::Surprisal { part, whole } ==> {
            &&& whole == data.len() - 1
            &&& part < whole
            &&& forall|a: u8, b: u8| #[trigger] neighbours(data).to_multiset().count((a, b)) <= part
            &&& exists|a: u8, b: u8| #[trigger] neighbours(data).to_multiset().count((a, b)) == part
        },
        estimate == EntropyEstimate::Zero ==> exists|a: u8, b: u8| #[trigger]
            neighbours(data).to_multiset().count((a, b)) == data.len() - 1,
        estimate is Zero || estimate is Surprisal,
{
    let most = choose|most: u64| #[trigger]
        is_most_common_pair(data, most as nat) && estimate == (if most == data.len() - 1 {
            EntropyEstimate::Zero
        } else {
            EntropyEstimate::Surprisal { part: most, whole: (data.len() - 1) as u64 }
        });
    let (x, y) = choose|a: u8, b: u8| #[trigger] pair_tally(data, a, b) == most as nat;
    law_pair_tally_counts(data, x, y);
    super::tally::lemma_pair_tally_bound(data, x, y);
    assert forall|a: u8, b: u8| #[trigger] neighbours(data).to_multiset().count((a, b)) <= most by {
        law_pair_tally_counts(data, a, b);
        assert(pair_tally(data, a, b) <= most);
    }
}

/// A batch of fewer than 20 bytes is estimated by its most common byte alone, one of fewer than 100
/// by collisions as well, a longer one by its most common pair too; the least of them counts.
pub proof fn law_longer_batches_are_estimated_thrice(
    len: nat,
    mcv: Binary64,
    collision: Binary64,
    tuple: Binary64,
)
    requires
        !mcv.is_nan() && !collision.is_nan() && !tuple.is_nan(),
        0 <= mcv.units() <= (Binary64 { bits: 0x4020_0000_0000_0000 }).units(),
        0 <= collision.units() <= (Binary64 { bits: 0x4020_0000_0000_0000 }).units(),
        0 <= tuple.units() <= (Binary64 { bits: 0x4020_0000_0000_0000 }).units(),
    ensures
        ({
            let combined = most_cautious(len, mcv, collision, tuple);
            &&& combined.units() <= mcv.units()
            &&& combined.units() >= 0
            &&& len < 20 ==> combined == mcv
            &&& 20 <= len < 100 ==> combined.units() <= collision.units() && (combined == mcv
                || combined == collision || combined.units() == (Binary64 {
                bits: 0x4020_0000_0000_0000,
            }).units())
            &&& len >= 100 ==> combined.units() <= collision.units() && combined.units()
                <= tuple.units() && (combined == mcv || combined == collision || combined == tuple)
        }),
{
    crate::binary64::lemma_sizes_ordered(0, 0x4020_0000_0000_0000);
}

/// An estimate lies between zero and eight bits, whatever was computed for it.
pub proof fn law_estimate_stays_within_a_byte(
    len: nat,
    mcv: Binary64,
    collision: Binary64,
    tuple: Binary64,
)
    requires
        !mcv.is_nan() && !collision.is_nan() && !tuple.is_nan(),
    ensures
        ({
            let combined = most_cautious(len, mcv, collision, tuple);
            let eight = Binary64 { bits: 0x4020_0000_0000_0000 };
            &&& 0 <= combined.units() <= eight.units()
            &&& mcv.units() < 0 ==> combined.units() == 0
            &&& len < 20 && mcv.units() > eight.units() ==> combined == eight
        }),
{
    crate::binary64::lemma_sizes_ordered(0, 0x4020_0000_0000_0000);
}

} // verus!
