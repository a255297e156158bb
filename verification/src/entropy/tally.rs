//! Counting in byte strings.

use vstd::prelude::*;

verus! {

/// How often a byte occurs in a byte string.
pub open spec fn tally(data: Seq<u8>, byte: u8) -> nat
    decreases data.len(),
{
    if data.len() == 0 {
        0
    } else {
        tally(data.drop_last(), byte) + (if data.last() == byte {
            1nat
        } else {
            0
        })
    }
}

/// A byte occurs no more often than there are bytes.
pub proof fn lemma_tally_bound(data: Seq<u8>, byte: u8)
    ensures
        tally(data, byte) <= data.len(),
    decreases data.len(),
{
    if data.len() > 0 {
        lemma_tally_bound(data.drop_last(), byte);
    }
}

/// One more byte at the end.
pub proof fn lemma_tally_push(data: Seq<u8>, next: u8, byte: u8)
    ensures
        tally(data.push(next), byte) == tally(data, byte) + (if next == byte {
            1nat
        } else {
            0
        }),
{
    assert(data.push(next).drop_last() =~= data);
}

/// Two byte strings, one behind the other.
pub proof fn lemma_tally_concat(front: Seq<u8>, back: Seq<u8>, byte: u8)
    ensures
        tally(front + back, byte) == tally(front, byte) + tally(back, byte),
    decreases back.len(),
{
    if back.len() == 0 {
        assert(front + back =~= front);
    } else {
        lemma_tally_concat(front, back.drop_last(), byte);
        assert((front + back).drop_last() =~= front + back.drop_last());
    }
}

/// How often the bytes below a limit occur, all together.
pub open spec fn tally_below(data: Seq<u8>, limit: nat) -> nat
    decreases limit,
{
    if limit == 0 {
        0
    } else {
        tally_below(data, (limit - 1) as nat) + tally(data, (limit - 1) as u8)
    }
}

proof fn lemma_tally_below_push(data: Seq<u8>, next: u8, limit: nat)
    requires
        limit <= 256,
    ensures
        tally_below(data.push(next), limit) == tally_below(data, limit) + (if next < limit {
            1nat
        } else {
            0
        }),
    decreases limit,
{
    if limit > 0 {
        lemma_tally_below_push(data, next, (limit - 1) as nat);
        lemma_tally_push(data, next, (limit - 1) as u8);
    }
}

/// All bytes together occur as often as there are bytes.
pub proof fn lemma_tally_all(data: Seq<u8>)
    ensures
        tally_below(data, 256) == data.len(),
    decreases data.len(),
{
    if data.len() == 0 {
        lemma_tally_below_bound(data, 256, 0);
    } else {
        lemma_tally_all(data.drop_last());
        lemma_tally_below_push(data.drop_last(), data.last(), 256);
        assert(data.drop_last().push(data.last()) =~= data);
    }
}

/// Where no byte occurs more often than `most`, so many bytes together occur at most that many times
/// as often.
pub proof fn lemma_tally_below_bound(data: Seq<u8>, limit: nat, most: nat)
    requires
        limit <= 256,
        forall|b: u8| #[trigger] tally(data, b) <= most,
    ensures
        tally_below(data, limit) <= limit * most,
    decreases limit,
{
    if limit > 0 {
        lemma_tally_below_bound(data, (limit - 1) as nat, most);
        assert(tally(data, (limit - 1) as u8) <= most);
        assert(limit * most == (limit - 1) * most + most) by (nonlinear_arith);
    }
}

/// Byte strings in which every byte occurs equally often are equally long.
pub proof fn lemma_same_tallies_same_length(one: Seq<u8>, other: Seq<u8>, limit: nat)
    requires
        limit <= 256,
        forall|b: u8| #[trigger] tally(one, b) == tally(other, b),
    ensures
        tally_below(one, limit) == tally_below(other, limit),
        limit == 256 ==> one.len() == other.len(),
    decreases limit,
{
    if limit > 0 {
        lemma_same_tallies_same_length(one, other, (limit - 1) as nat);
        assert(tally(one, (limit - 1) as u8) == tally(other, (limit - 1) as u8));
    }
    lemma_tally_all(one);
    lemma_tally_all(other);
}

/// How often one byte stands directly behind another in a byte string.
pub open spec fn pair_tally(data: Seq<u8>, first: u8, second: u8) -> nat
    decreases data.len(),
{
    if data.len() < 2 {
        0
    } else {
        pair_tally(data.drop_last(), first, second) + (if data[data.len() - 2] == first
            && data.last() == second {
            1nat
        } else {
            0
        })
    }
}

/// The number of neighbouring pairs in a byte string.
pub open spec fn pair_count(data: Seq<u8>) -> nat {
    if data.len() == 0 {
        0
    } else {
        (data.len() - 1) as nat
    }
}

/// A pair occurs no more often than there are pairs.
pub proof fn lemma_pair_tally_bound(data: Seq<u8>, first: u8, second: u8)
    ensures
        pair_tally(data, first, second) <= pair_count(data),
    decreases data.len(),
{
    if data.len() >= 2 {
        lemma_pair_tally_bound(data.drop_last(), first, second);
    }
}

/// One more byte at the end.
pub proof fn lemma_pair_tally_push(data: Seq<u8>, next: u8, first: u8, second: u8)
    ensures
        pair_tally(data.push(next), first, second) == pair_tally(data, first, second) + (if data.len()
            > 0 && data.last() == first && next == second {
            1nat
        } else {
            0
        }),
{
    assert(data.push(next).drop_last() =~= data);
}

/// A byte string read on behind its last byte: the pairs of the whole are those of the front and
/// those that end in the back.
pub proof fn lemma_pair_tally_concat(front: Seq<u8>, back: Seq<u8>, first: u8, second: u8)
    requires
        front.len() > 0,
    ensures
        pair_tally(front + back, first, second) == pair_tally(front, first, second) + pair_tally(
            seq![front.last()] + back,
            first,
            second,
        ),
    decreases back.len(),
{
    let joined = seq![front.last()] + back;
    if back.len() == 0 {
        assert(front + back =~= front);
        assert(joined.len() == 1);
    } else {
        let less = back.drop_last();
        lemma_pair_tally_concat(front, less, first, second);
        assert((front + back).drop_last() =~= front + less);
        assert(joined.drop_last() =~= seq![front.last()] + less);
        assert((front + back)[(front + back).len() - 2] == joined[joined.len() - 2]);
    }
}

/// A tally is the number of times that the byte is in the byte string, in whatever order.
pub proof fn law_tally_counts(data: Seq<u8>, byte: u8)
    ensures
        tally(data, byte) == data.to_multiset().count(byte),
    decreases data.len(),
{
    broadcast use vstd::seq_lib::group_to_multiset_ensures;

    if data.len() == 0 {
        assert(!data.contains(byte));
    } else {
        law_tally_counts(data.drop_last(), byte);
        assert(data =~= data.drop_last().push(data.last()));
    }
}

/// The neighbouring pairs of a byte string, in their order.
pub open spec fn neighbours(data: Seq<u8>) -> Seq<(u8, u8)> {
    Seq::new((data.len() - 1) as nat, |i: int| (data[i], data[i + 1]))
}

/// A tally of pairs is the number of times that the pair is among the neighbours.
pub proof fn law_pair_tally_counts(data: Seq<u8>, first: u8, second: u8)
    requires
        data.len() > 0,
    ensures
        pair_tally(data, first, second) == neighbours(data).to_multiset().count((first, second)),
    decreases data.len(),
{
    broadcast use vstd::seq_lib::group_to_multiset_ensures;

    let pairs = neighbours(data);
    if data.len() < 2 {
        assert(!pairs.contains((first, second)));
    } else {
        let less = data.drop_last();
        law_pair_tally_counts(less, first, second);
        assert(pairs =~= neighbours(less).push((data[data.len() - 2], data.last())));
    }
}

} // verus!
