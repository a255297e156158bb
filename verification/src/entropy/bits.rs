//! Counts of single bits, for the statistical tests after NIST SP 800-22.
//!
//! The bits of a byte string are numbered through its bytes, the lowest bit of each byte first.
//! What the tests count is counted here; turning the counts into p-values is floating-point work
//! and is left to the caller, who hands the p-values back to be judged.

use crate::binary64::Binary64;
use vstd::prelude::*;

verus! {

/// The bit pattern of 0.01, the p-value from which a test is passed.
pub const PASS_LEVEL: u64 = 0x3f84_7ae1_47ae_147b;

/// The block length of the block frequency test, in bits.
pub const FREQUENCY_BLOCK_BITS: usize = 128;

/// The fewest bytes on which the runs test is run.
pub const RUNS_FLOOR: usize = 8;

/// The fewest bytes on which the block frequency test is run: those of two blocks.
pub const FREQUENCY_FLOOR: usize = 32;

/// Whether the bit with this number is set.
pub open spec fn bit_at(data: Seq<u8>, k: int) -> bool {
    (data[k / 8] >> ((k % 8) as u8)) & 1u8 == 1u8
}

/// How many bits are set from number `from` up to, but not including, number `to`.
pub open spec fn ones(data: Seq<u8>, from: int, to: int) -> nat
    decreases to - from,
{
    if to <= from {
        0
    } else {
        ones(data, from, to - 1) + (if bit_at(data, to - 1) {
            1nat
        } else {
            0
        })
    }
}

/// How many of the first `count` bits differ from the bit before them.
pub open spec fn changes(data: Seq<u8>, count: int) -> nat
    decreases count,
{
    if count <= 1 {
        0
    } else {
        changes(data, count - 1) + (if bit_at(data, count - 1) != bit_at(data, count - 2) {
            1nat
        } else {
            0
        })
    }
}

/// What the monobit test counts.
#[derive(Clone, Copy, PartialEq, Eq, Structural, Debug)]
pub struct BitBalance {
    /// Bits that are set.
    pub ones: u64,
    /// All bits.
    pub total_bits: u64,
}

/// What the runs test counts.
#[derive(Clone, Copy, PartialEq, Eq, Structural, Debug)]
pub struct BitRuns {
    /// Bits that are set.
    pub ones: u64,
    /// All bits.
    pub total_bits: u64,
    /// Longest stretches of equal bits.
    pub runs: u64,
}

fn bit_set(data: &[u8], k: usize) -> (set: bool)
    requires
        k < data@.len() * 8,
    ensures
        set == bit_at(data@, k as int),
{
    let byte: u8 = data[k / 8];
    let place: u8 = (k % 8) as u8;
    (byte >> place) & 1u8 == 1u8
}

fn count_ones(data: &[u8], from: usize, to: usize) -> (count: u64)
    requires
        from <= to <= data@.len() * 8,
    ensures
        count == ones(data@, from as int, to as int),
        count <= to - from,
{
    let mut count: u64 = 0;
    let mut k: usize = from;
    while k < to
        invariant
            from <= k <= to,
            to <= data@.len() * 8,
            count == ones(data@, from as int, k as int),
            count <= k - from,
        decreases to - k,
    {
        if bit_set(data, k) {
            count = count + 1;
        }
        k += 1;
    }
    count
}

/// The balance of the bits of a byte string; nothing of an empty one.
pub open spec fn balance_of(data: Seq<u8>) -> Option<BitBalance> {
    if data.len() == 0 {
        None
    } else {
        Some(
            BitBalance {
                ones: ones(data, 0, (data.len() * 8) as int) as u64,
                total_bits: (data.len() * 8) as u64,
            },
        )
    }
}

/// What the monobit test counts in a byte string; nothing in an empty one, whose p-value is zero.
pub fn monobit_test(data: &[u8]) -> (counts: Option<BitBalance>)
    requires
        data@.len() * 8 <= usize::MAX,
    ensures
        counts == balance_of(data@),
{
    if data.len() == 0 {
        return None;
    }
    let total: usize = data.len() * 8;
    Some(BitBalance { ones: count_ones(data, 0, total), total_bits: total as u64 })
}

/// The runs of the bits of a byte string; nothing of one of fewer than eight bytes.
pub open spec fn runs_of(data: Seq<u8>) -> Option<BitRuns> {
    if data.len() < RUNS_FLOOR {
        None
    } else {
        Some(
            BitRuns {
                ones: ones(data, 0, (data.len() * 8) as int) as u64,
                total_bits: (data.len() * 8) as u64,
                runs: (1 + changes(data, (data.len() * 8) as int)) as u64,
            },
        )
    }
}

/// What the runs test counts in a byte string; nothing in one of fewer than eight bytes, whose
/// p-value is zero.
pub fn runs_test(data: &[u8]) -> (counts: Option<BitRuns>)
    requires
        data@.len() * 8 <= usize::MAX,
    ensures
        counts == runs_of(data@),
{
    if data.len() < RUNS_FLOOR {
        return None;
    }
    let total: usize = data.len() * 8;
    let mut runs: u64 = 1;
    let mut previous: bool = bit_set(data, 0);
    let mut k: usize = 1;
    while k < total
        invariant
            1 <= k <= total,
            total == data@.len() * 8,
            runs == 1 + changes(data@, k as int),
            runs <= k,
            previous == bit_at(data@, k - 1),
        decreases total - k,
    {
        let current: bool = bit_set(data, k);
        if current != previous {
            runs = runs + 1;
            previous = current;
        }
        k += 1;
    }
    Some(BitRuns { ones: count_ones(data, 0, total), total_bits: total as u64, runs })
}

/// Whether these are the set bits in each full block of a byte string; nothing where there are fewer
/// than two blocks or a block has no length.
pub open spec fn counts_blocks(data: Seq<u8>, block_bits: nat, counts: Option<Seq<u64>>) -> bool {
    &&& counts is Some <==> block_bits > 0 && (data.len() * 8) / block_bits >= 2
    &&& counts matches Some(blocks) ==> {
        &&& blocks.len() == (data.len() * 8) / block_bits
        &&& forall|i: int|
            0 <= i < blocks.len() ==> #[trigger] blocks[i] == ones(
                data,
                i * block_bits,
                (i + 1) * block_bits,
            )
    }
}

/// The set bits in each full block of a byte string; nothing where there are fewer than two blocks
/// or a block has no length: the p-value is then zero.
pub fn frequency_block_test(data: &[u8], block_bits: usize) -> (counts: Option<Vec<u64>>)
    requires
        data@.len() * 8 <= usize::MAX,
    ensures
        counts_blocks(
            data@,
            block_bits as nat,
            match counts {
                Some(blocks) => Some(blocks@),
                None => None,
            },
        ),
{
    if data.len() == 0 || block_bits == 0 {
        proof {
            if block_bits > 0 {
                assert(0nat / (block_bits as nat) == 0) by (nonlinear_arith)
                    requires
                        block_bits > 0,
                ;
            }
        }
        return None;
    }
    let total: usize = data.len() * 8;
    let blocks: usize = total / block_bits;
    if blocks < 2 {
        return None;
    }
    let mut counts: Vec<u64> = Vec::new();
    let mut i: usize = 0;
    while i < blocks
        invariant
            i <= blocks,
            total == data@.len() * 8,
            block_bits > 0,
            blocks == total / block_bits,
            counts@.len() == i,
            forall|j: int|
                0 <= j < i ==> #[trigger] counts@[j] == ones(
                    data@,
                    j * block_bits,
                    (j + 1) * block_bits,
                ),
        decreases blocks - i,
    {
        assert(0 <= i * block_bits <= (i + 1) * block_bits <= total && (i + 1) * block_bits == i
            * block_bits + block_bits) by (nonlinear_arith)
            requires
                0 <= i < blocks,
                block_bits > 0,
                blocks == total / block_bits,
        ;
        let from: usize = i * block_bits;
        let to: usize = from + block_bits;
        counts.push(count_ones(data, from, to));
        i += 1;
    }
    Some(counts)
}

/// The p-values of the three statistical tests on one sample, each with its verdict.
#[derive(Clone, Copy, PartialEq, Eq, Structural, Debug)]
pub struct StatTestResults {
    pub monobit_pass: bool,
    pub monobit_p: Binary64,
    pub runs_pass: bool,
    pub runs_p: Binary64,
    pub freq_block_pass: bool,
    pub freq_block_p: Binary64,
    pub all_passed: bool,
    pub sample_size: usize,
}

/// Whether a p-value passes its test.
pub open spec fn passes(p: Binary64) -> bool {
    p.greater_or_equal(Binary64 { bits: PASS_LEVEL })
}

/// The verdicts on a sample: a test is passed from a p-value of 0.01 on, and the sample passes where
/// all three tests are passed.
pub open spec fn verdicts(
    monobit_p: Binary64,
    runs_p: Binary64,
    freq_block_p: Binary64,
    sample_size: usize,
) -> StatTestResults {
    StatTestResults {
        monobit_pass: passes(monobit_p),
        monobit_p,
        runs_pass: passes(runs_p),
        runs_p,
        freq_block_pass: passes(freq_block_p),
        freq_block_p,
        all_passed: passes(monobit_p) && passes(runs_p) && passes(freq_block_p),
        sample_size,
    }
}

/// A p-value of a test on a sample; zero where the sample is too short for the test.
pub open spec fn p_value(p: Binary64, len: nat, floor: nat) -> Binary64 {
    if len < floor {
        Binary64 { bits: 0 }
    } else {
        p
    }
}

/// The verdicts on a sample of this length: a test for which the sample is too short is not passed,
/// whatever was handed in for it.
pub open spec fn judged(
    len: nat,
    monobit_p: Binary64,
    runs_p: Binary64,
    freq_block_p: Binary64,
) -> StatTestResults {
    verdicts(
        p_value(monobit_p, len, 1),
        p_value(runs_p, len, RUNS_FLOOR as nat),
        p_value(freq_block_p, len, FREQUENCY_FLOOR as nat),
        len as usize,
    )
}

fn p_on_sample(p: Binary64, len: usize, floor: usize) -> (value: Binary64)
    ensures
        value == p_value(p, len as nat, floor as nat),
{
    if len < floor {
        Binary64::from_bits(0)
    } else {
        p
    }
}

/// Judges the p-values of the three tests on a sample.
pub fn run_statistical_tests(
    data: &[u8],
    monobit_p: Binary64,
    runs_p: Binary64,
    freq_block_p: Binary64,
) -> (results: StatTestResults)
    ensures
        results == judged(data@.len(), monobit_p, runs_p, freq_block_p),
{
    let level: Binary64 = Binary64::from_bits(PASS_LEVEL);
    let monobit_p: Binary64 = p_on_sample(monobit_p, data.len(), 1);
    let runs_p: Binary64 = p_on_sample(runs_p, data.len(), RUNS_FLOOR);
    let freq_block_p: Binary64 = p_on_sample(freq_block_p, data.len(), FREQUENCY_FLOOR);
    let monobit_pass: bool = monobit_p.at_least(level);
    let runs_pass: bool = runs_p.at_least(level);
    let freq_block_pass: bool = freq_block_p.at_least(level);
    StatTestResults {
        monobit_pass,
        monobit_p,
        runs_pass,
        runs_p,
        freq_block_pass,
        freq_block_p,
        all_passed: monobit_pass && runs_pass && freq_block_pass,
        sample_size: data.len(),
    }
}

/// A sample that is too short for a test does not pass it, so that a sample of fewer than two blocks
/// never passes as a whole. Otherwise the sample passes exactly where each p-value is at least 0.01.
pub proof fn law_short_samples_fail(
    len: nat,
    monobit_p: Binary64,
    runs_p: Binary64,
    freq_block_p: Binary64,
)
    ensures
        ({
            let results = judged(len, monobit_p, runs_p, freq_block_p);
            &&& len == 0 ==> !results.monobit_pass
            &&& len < RUNS_FLOOR ==> !results.runs_pass
            &&& (len * 8) / (FREQUENCY_BLOCK_BITS as nat) < 2 ==> !results.freq_block_pass
            &&& len < FREQUENCY_FLOOR ==> !results.all_passed
            &&& len >= FREQUENCY_FLOOR ==> results.all_passed == (passes(monobit_p) && passes(
                runs_p,
            ) && passes(freq_block_p))
        }),
{
    crate::binary64::lemma_sizes_ordered(0, PASS_LEVEL as nat);
    assert(!passes(Binary64 { bits: 0 }));
}

/// There is at least one run, and no more runs than bits.
pub proof fn law_runs_bounded(data: Seq<u8>, count: int)
    requires
        count >= 1,
    ensures
        1 <= 1 + changes(data, count) <= count,
    decreases count,
{
    if count > 1 {
        law_runs_bounded(data, count - 1);
    }
}

/// The bits of a byte are its binary digits, the lowest first.
pub proof fn law_bits_are_binary_digits(data: Seq<u8>, k: int)
    requires
        0 <= k < 8 * data.len(),
    ensures
        bit_at(data, k) <==> (data[k / 8] as nat / vstd::arithmetic::power2::pow2((k % 8) as nat))
            % 2 == 1,
{
    let byte = data[k / 8];
    let place = (k % 8) as u8;
    vstd::bits::lemma_u8_shr_is_div(byte, place);
    let shifted = byte >> place;
    assert(shifted & 1u8 == shifted % 2) by (bit_vector);
}

/// The bits of a stretch, in their order.
pub open spec fn stretch(data: Seq<u8>, from: int, to: int) -> Seq<bool> {
    Seq::new((to - from) as nat, |i: int| bit_at(data, from + i))
}

/// The ones of a stretch are as many as there are set bits in it, and those of two stretches that
/// follow each other add up.
pub proof fn law_ones_are_counted(data: Seq<u8>, from: int, to: int)
    requires
        from <= to,
    ensures
        ones(data, from, to) == stretch(data, from, to).to_multiset().count(true),
        ones(data, from, to) <= to - from,
    decreases to - from,
{
    broadcast use vstd::seq_lib::group_to_multiset_ensures;

    let bits = stretch(data, from, to);
    if from == to {
        assert(!bits.contains(true));
    } else {
        law_ones_are_counted(data, from, to - 1);
        assert(bits =~= stretch(data, from, to - 1).push(bit_at(data, to - 1)));
    }
}

/// Whether each bit but the first differs from the one before it.
pub open spec fn turns(data: Seq<u8>, count: int) -> Seq<bool> {
    Seq::new((count - 1) as nat, |i: int| bit_at(data, i + 1) != bit_at(data, i))
}

/// The changes are as many as there are bits that differ from the one before them.
pub proof fn law_changes_are_counted(data: Seq<u8>, count: int)
    requires
        count >= 1,
    ensures
        changes(data, count) == turns(data, count).to_multiset().count(true),
    decreases count,
{
    broadcast use vstd::seq_lib::group_to_multiset_ensures;

    let all = turns(data, count);
    if count == 1 {
        assert(!all.contains(true));
    } else {
        law_changes_are_counted(data, count - 1);
        assert(all =~= turns(data, count - 1).push(
            bit_at(data, count - 1) != bit_at(data, count - 2),
        ));
    }
}

/// A test is passed exactly from a p-value of 0.01 on and on a sample that is long enough for it: one
/// byte for the monobit test, eight for the runs test, 32 for the block test. The sample passes where
/// all three are passed.
pub proof fn law_tests_pass_at_one_percent(
    len: nat,
    monobit_p: Binary64,
    runs_p: Binary64,
    freq_block_p: Binary64,
)
    requires
        len <= usize::MAX,
    ensures
        ({
            let results = judged(len, monobit_p, runs_p, freq_block_p);
            let level = Binary64 { bits: 0x3f84_7ae1_47ae_147b };
            &&& results.monobit_pass <==> len >= 1 && monobit_p.greater_or_equal(level)
            &&& results.runs_pass <==> len >= 8 && runs_p.greater_or_equal(level)
            &&& results.freq_block_pass <==> len >= 32 && freq_block_p.greater_or_equal(level)
            &&& results.all_passed <==> results.monobit_pass && results.runs_pass
                && results.freq_block_pass
            &&& results.sample_size == len
            &&& len >= 1 ==> results.monobit_p == monobit_p
            &&& len >= 8 ==> results.runs_p == runs_p
            &&& len >= 32 ==> results.freq_block_p == freq_block_p
        }),
{
    crate::binary64::lemma_sizes_ordered(0, 0x3f84_7ae1_47ae_147b);
}

proof fn lemma_ones_split(data: Seq<u8>, from: int, middle: int, to: int)
    requires
        from <= middle <= to,
    ensures
        ones(data, from, to) == ones(data, from, middle) + ones(data, middle, to),
    decreases to - middle,
{
    if middle < to {
        lemma_ones_split(data, from, middle, to - 1);
    }
}

/// The monobit test counts the set bits among all bits, eight for each byte; the runs test counts
/// them alike and, besides, one run more than there are changes from one bit to the next.
pub proof fn law_bits_are_counted(data: Seq<u8>)
    requires
        data.len() * 8 <= u64::MAX,
    ensures
        balance_of(data) is None <==> data.len() == 0,
        balance_of(data) matches Some(balance) ==> {
            &&& balance.total_bits == 8 * data.len()
            &&& balance.ones == stretch(data, 0, 8 * data.len() as int).to_multiset().count(true)
            &&& balance.ones <= balance.total_bits
        },
        runs_of(data) is None <==> data.len() < 8,
        runs_of(data) matches Some(runs) ==> {
            &&& balance_of(data) == Some(BitBalance { ones: runs.ones, total_bits: runs.total_bits })
            &&& runs.runs == 1 + turns(data, 8 * data.len() as int).to_multiset().count(true)
            &&& 1 <= runs.runs <= runs.total_bits
        },
{
    if data.len() > 0 {
        law_ones_are_counted(data, 0, 8 * data.len() as int);
        law_changes_are_counted(data, 8 * data.len() as int);
        law_runs_bounded(data, 8 * data.len() as int);
    }
}

/// The blocks cover the bits from the first on without a gap: each has the set bits of its own
/// stretch, their counts add up to the set bits of all blocks, and fewer bits than a block has are
/// left over.
pub proof fn law_blocks_cover_the_bits(
    data: Seq<u8>,
    block_bits: nat,
    counts: Option<Seq<u64>>,
    k: int,
)
    requires
        counts_blocks(data, block_bits, counts),
    ensures
        counts is Some <==> block_bits > 0 && 2 * block_bits <= 8 * data.len(),
        counts matches Some(blocks) ==> {
            &&& blocks.len() * block_bits <= 8 * data.len()
            &&& 8 * data.len() < (blocks.len() + 1) * block_bits
            &&& 0 <= k < blocks.len() ==> blocks[k] == stretch(
                data,
                k * block_bits,
                (k + 1) * block_bits,
            ).to_multiset().count(true)
            &&& 0 <= k <= blocks.len() ==> blocks.take(k).fold_left(0int, |sum: int, c: u64| sum + c)
                == ones(data, 0, k * block_bits)
        },
    decreases k,
{
    let all = data.len() * 8;
    if block_bits > 0 {
        let n = all / block_bits;
        vstd::arithmetic::div_mod::lemma_fundamental_div_mod(all as int, block_bits as int);
        assert(n * block_bits <= all && all < (n + 1) * block_bits) by (nonlinear_arith)
            requires
                all == block_bits * n + all % block_bits,
                0 <= all % block_bits < block_bits,
        ;
        assert(n >= 2 <==> 2 * block_bits <= all) by (nonlinear_arith)
            requires
                n * block_bits <= all,
                all < (n + 1) * block_bits,
                block_bits > 0,
        ;
    }
    if let Some(blocks) = counts {
        let sum = |sum: int, c: u64| sum + c;
        assert(k * block_bits + block_bits == (k + 1) * block_bits) by (nonlinear_arith);
        if 0 <= k < blocks.len() {
            law_ones_are_counted(data, k * block_bits, (k + 1) * block_bits);
        }
        if k == 0 {
            assert(blocks.take(0) =~= Seq::<u64>::empty());
            assert(0 * block_bits == 0);
            reveal_with_fuel(Seq::fold_left, 2);
        } else if 0 < k <= blocks.len() {
            law_blocks_cover_the_bits(data, block_bits, counts, k - 1);
            assert(blocks.take(k).drop_last() =~= blocks.take(k - 1));
            assert(blocks[k - 1] == ones(data, (k - 1) * block_bits, ((k - 1) + 1) * block_bits));
            assert(0 <= (k - 1) * block_bits <= k * block_bits) by (nonlinear_arith)
                requires
                    k > 0,
            ;
            lemma_ones_split(data, 0, (k - 1) * block_bits, k * block_bits);
            reveal_with_fuel(Seq::fold_left, 2);
        }
    }
}

} // verus!
