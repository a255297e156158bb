//! Byte strings put together from parts.

use vstd::bytes::{spec_u64_from_le_bytes, spec_u64_to_le_bytes, u64_to_le_bytes};
use vstd::prelude::*;

verus! {

/// The eight bytes of a number, the lowest first.
pub open spec fn le_bytes(number: u64) -> Seq<u8> {
    spec_u64_to_le_bytes(number)
}

/// Appends bytes to a byte string.
pub fn append_bytes(whole: &mut Vec<u8>, part: &[u8])
    ensures
        final(whole)@ == old(whole)@ + part@,
{
    whole.extend_from_slice(part);
    assert(whole@ =~= old(whole)@ + part@);
}

/// Appends the eight bytes of a number to a byte string, the lowest first.
pub fn append_number(whole: &mut Vec<u8>, number: u64)
    ensures
        final(whole)@ == old(whole)@ + le_bytes(number),
{
    let part: Vec<u8> = u64_to_le_bytes(number);
    append_bytes(whole, part.as_slice());
}

/// A copy of a byte string.
pub fn copy_bytes(bytes: &[u8]) -> (copy: Vec<u8>)
    ensures
        copy@ == bytes@,
{
    let mut copy: Vec<u8> = Vec::new();
    append_bytes(&mut copy, bytes);
    assert(copy@ =~= bytes@);
    copy
}

/// Whether `part` stands in `whole` at index `at`.
pub open spec fn stands_at(whole: Seq<u8>, part: Seq<u8>, at: int) -> bool {
    &&& 0 <= at
    &&& at + part.len() <= whole.len()
    &&& whole.subrange(at, at + part.len()) == part
}

fn part_at(whole: &[u8], part: &[u8], at: usize) -> (found: bool)
    requires
        at <= whole@.len(),
    ensures
        found == stands_at(whole@, part@, at as int),
{
    if part.len() > whole.len() - at {
        return false;
    }
    let mut i: usize = 0;
    while i < part.len()
        invariant
            i <= part.len(),
            at + part.len() <= whole.len(),
            forall|j: int| 0 <= j < i ==> whole@[at + j] == #[trigger] part@[j],
        decreases part.len() - i,
    {
        if whole[at + i] != part[i] {
            assert(whole@.subrange(at as int, at + part@.len())[i as int] != part@[i as int]);
            return false;
        }
        i += 1;
    }
    assert(whole@.subrange(at as int, at + part@.len()) =~= part@);
    true
}

/// Finds the first index at which `part` stands in `whole`.
pub fn find_bytes(whole: &[u8], part: &[u8]) -> (at: Option<usize>)
    ensures
        match at {
            Some(i) => stands_at(whole@, part@, i as int) && forall|j: int|
                0 <= j < i ==> !#[trigger] stands_at(whole@, part@, j),
            None => forall|j: int| !#[trigger] stands_at(whole@, part@, j),
        },
{
    let mut i: usize = 0;
    while i < whole.len()
        invariant
            i <= whole.len(),
            forall|j: int| 0 <= j < i ==> !#[trigger] stands_at(whole@, part@, j),
        decreases whole.len() - i,
    {
        if part_at(whole, part, i) {
            return Some(i);
        }
        i += 1;
    }
    if part_at(whole, part, i) {
        return Some(i);
    }
    None
}

/// A number has eight bytes, and no two numbers have the same eight.
pub proof fn lemma_le_bytes(a: u64, b: u64)
    ensures
        le_bytes(a).len() == 8,
        le_bytes(a) == le_bytes(b) ==> a == b,
{
    vstd::bytes::lemma_auto_spec_u64_to_from_le_bytes();
}

/// A number is read back from its eight bytes, the lowest of which comes first, so that different
/// numbers have different bytes.
pub proof fn law_number_bytes(number: u64, other: u64)
    ensures
        le_bytes(number).len() == 8,
        spec_u64_from_le_bytes(le_bytes(number)) == number,
        le_bytes(number)[0] == number % 256,
        le_bytes(number) == le_bytes(other) ==> number == other,
{
    vstd::bytes::lemma_auto_spec_u64_to_from_le_bytes();
    vstd::bytes::spec_u64_to_le_bytes_to_open(number);
    assert((number & 0xff) as u8 == number % 256) by (bit_vector);
}

} // verus!
