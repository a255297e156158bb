//! Random bytes for key generation, from the operating system and the entropy pool together.
//!
//! A snapshot of the pool is hashed into a seed, the seed and a counter are hashed into a stream of
//! bytes, and the stream is combined with bytes of the operating system by exclusive or. Either one
//! alone, if it cannot be predicted, is enough to make the result unpredictable.

use crate::bytes::{append_bytes, append_number, copy_bytes, law_number_bytes, le_bytes};
use crate::clock::{clock_before_epoch, clock_nanos, get_timestamp_nanos};
use crate::crypto::{os_random, sha3_256, sha3_digest, wipe_block, wipe_vec};
use vstd::bytes::{
    spec_u32_from_le_bytes, spec_u64_from_le_bytes, u32_from_le_bytes, u64_from_le_bytes,
};
use vstd::prelude::*;
use vstd::utf8::encode_utf8;

verus! {

/// Bytes in a block of the stream.
pub const BLOCK: usize = 32;

/// The seed that a snapshot of the pool and a reading of the clock give.
pub open spec fn pool_seed_of(pool: Seq<u8>, nanos: u64) -> Seq<u8> {
    sha3_256(encode_utf8("NullMagnet_HarvestedRng_v2"@) + pool + le_bytes(nanos))
}

/// A block of the stream behind a seed.
pub open spec fn stream_block(seed: Seq<u8>, number: u64) -> Seq<u8> {
    sha3_256(seed + le_bytes(number))
}

/// A byte of the stream behind a seed.
pub open spec fn stream_byte(seed: Seq<u8>, position: nat) -> u8 {
    stream_block(seed, (position / (BLOCK as nat)) as u64)[(position % (BLOCK as nat)) as int]
}

/// Bytes of the operating system combined with the stream from a position on.
pub open spec fn mixed(seed: Seq<u8>, position: nat, os_bytes: Seq<u8>) -> Seq<u8> {
    Seq::new(os_bytes.len(), |i: int| os_bytes[i] ^ stream_byte(seed, position + i as nat))
}

/// A generator for one key.
pub struct HarvestedRng {
    pub pool_seed: [u8; 32],
    /// The number of the block behind the current one.
    pub counter: u64,
    /// Bytes of the current block that are used up.
    pub pos: usize,
    /// The current block.
    pub block: [u8; 32],
}

impl HarvestedRng {
    /// The current block is the one before the counter.
    pub open spec fn wf(&self) -> bool {
        &&& self.counter >= 1
        &&& self.pos <= BLOCK
        &&& self.block@ == stream_block(self.pool_seed@, (self.counter - 1) as u64)
    }

    /// How many bytes of the stream are used up.
    pub open spec fn position(&self) -> nat {
        (BLOCK * (self.counter - 1) + self.pos) as nat
    }

    /// Whether the counter can take so many more bytes.
    pub open spec fn has_room(&self, count: nat) -> bool {
        self.position() + count <= BLOCK * (u64::MAX - 1)
    }

    /// A generator for a snapshot of the pool and a reading of the clock.
    pub fn seeded(pool: &[u8; 32], nanos: u64) -> (rng: HarvestedRng)
        ensures
            rng.wf(),
            rng.pool_seed@ == pool_seed_of(pool@, nanos),
            rng.position() == 0,
    {
        let mut input: Vec<u8> = copy_bytes("NullMagnet_HarvestedRng_v2".as_bytes());
        append_bytes(&mut input, pool.as_slice());
        append_number(&mut input, nanos);
        let seed: [u8; 32] = sha3_digest(input.as_slice());
        wipe_vec(&mut input);
        let mut rng = HarvestedRng { pool_seed: seed, counter: 0, pos: 32, block: [0u8; 32] };
        rng.regenerate_block();
        rng
    }

    /// A generator for a snapshot of the pool and a reading of the clock, where there is one.
    pub fn seeded_at(pool: &[u8; 32], nanos: Option<u64>) -> (rng: Option<HarvestedRng>)
        ensures
            rng is Some <==> nanos is Some,
            rng matches Some(r) ==> {
                &&& r.wf()
                &&& r.pool_seed@ == pool_seed_of(pool@, nanos->0)
                &&& r.position() == 0
            },
    {
        match nanos {
            Some(nanos) => Some(HarvestedRng::seeded(pool, nanos)),
            None => None,
        }
    }

    /// A generator for a snapshot of the pool at this time, `None` while the clock stands before
    /// 1970: `seeded_at` the present.
    pub fn from_pool(pool: &[u8; 32]) -> (rng: Option<HarvestedRng>)
        ensures
            match rng {
                Some(r) => r.wf() && r.position() == 0 && exists|nanos: u64|
                    r.pool_seed@ == #[trigger] pool_seed_of(pool@, nanos) && clock_nanos(nanos),
                None => clock_before_epoch(),
            },
    {
        HarvestedRng::seeded_at(pool, get_timestamp_nanos())
    }

    /// Goes on to the next block of the stream.
    fn regenerate_block(&mut self)
        requires
            old(self).counter < u64::MAX,
        ensures
            final(self).pool_seed == old(self).pool_seed,
            final(self).counter == old(self).counter + 1,
            final(self).pos == 0,
            final(self).block@ == stream_block(old(self).pool_seed@, old(self).counter),
    {
        let mut input: Vec<u8> = copy_bytes(self.pool_seed.as_slice());
        append_number(&mut input, self.counter);
        self.block = sha3_digest(input.as_slice());
        wipe_vec(&mut input);
        self.counter = self.counter + 1;
        self.pos = 0;
    }

    /// Combines given bytes of the operating system with the next bytes of the stream.
    pub fn mix(&mut self, os_bytes: &[u8]) -> (bytes: Vec<u8>)
        requires
            old(self).wf(),
            old(self).has_room(os_bytes@.len()),
        ensures
            final(self).wf(),
            final(self).pool_seed == old(self).pool_seed,
            final(self).position() == old(self).position() + os_bytes@.len(),
            bytes@ == mixed(old(self).pool_seed@, old(self).position(), os_bytes@),
    {
        let ghost seed = self.pool_seed@;
        let ghost start = self.position();
        let mut bytes: Vec<u8> = Vec::new();
        while bytes.len() < os_bytes.len()
            invariant
                self.wf(),
                self.pool_seed@ == seed,
                self.pool_seed == old(self).pool_seed,
                start == old(self).position(),
                bytes@.len() <= os_bytes@.len(),
                self.position() == start + bytes@.len(),
                start + os_bytes@.len() <= BLOCK * (u64::MAX - 1),
                forall|i: int|
                    0 <= i < bytes@.len() ==> #[trigger] bytes@[i] == os_bytes@[i] ^ stream_byte(
                        seed,
                        start + i as nat,
                    ),
            decreases os_bytes.len() - bytes.len(),
        {
            if self.pos >= BLOCK {
                self.regenerate_block();
            }
            let at: usize = bytes.len();
            proof {
                let position = self.position();
                assert(position / (BLOCK as nat) == self.counter - 1);
                assert(position % (BLOCK as nat) == self.pos);
                assert(stream_byte(seed, start + at as nat) == self.block@[self.pos as int]);
            }
            bytes.push(os_bytes[at] ^ self.block[self.pos]);
            self.pos = self.pos + 1;
        }
        assert(bytes@ =~= mixed(seed, start, os_bytes@));
        bytes
    }

    /// Draws random bytes: bytes of the operating system, whatever they are, combined with the next
    /// bytes of the stream.
    pub fn fill_bytes(&mut self, count: usize) -> (bytes: Vec<u8>)
        requires
            old(self).wf(),
            old(self).has_room(count as nat),
        ensures
            final(self).wf(),
            final(self).pool_seed == old(self).pool_seed,
            final(self).position() == old(self).position() + count,
            bytes@.len() == count,
            exists|os_bytes: Seq<u8>|
                os_bytes.len() == count && bytes@ == #[trigger] mixed(
                    old(self).pool_seed@,
                    old(self).position(),
                    os_bytes,
                ),
    {
        let os_bytes: Vec<u8> = os_random(count);
        self.mix(os_bytes.as_slice())
    }

    /// Draws a random number of 32 bits.
    pub fn next_u32(&mut self) -> (number: u32)
        requires
            old(self).wf(),
            old(self).has_room(4),
        ensures
            final(self).wf(),
            final(self).pool_seed == old(self).pool_seed,
            final(self).position() == old(self).position() + 4,
            exists|os_bytes: Seq<u8>|
                os_bytes.len() == 4 && number == spec_u32_from_le_bytes(
                    #[trigger] mixed(old(self).pool_seed@, old(self).position(), os_bytes),
                ),
    {
        let bytes: Vec<u8> = self.fill_bytes(4);
        u32_from_le_bytes(bytes.as_slice())
    }

    /// Draws a random number of 64 bits.
    pub fn next_u64(&mut self) -> (number: u64)
        requires
            old(self).wf(),
            old(self).has_room(8),
        ensures
            final(self).wf(),
            final(self).pool_seed == old(self).pool_seed,
            final(self).position() == old(self).position() + 8,
            exists|os_bytes: Seq<u8>|
                os_bytes.len() == 8 && number == spec_u64_from_le_bytes(
                    #[trigger] mixed(old(self).pool_seed@, old(self).position(), os_bytes),
                ),
    {
        let bytes: Vec<u8> = self.fill_bytes(8);
        u64_from_le_bytes(bytes.as_slice())
    }

    /// Overwrites the seed and the current block.
    pub fn wipe(&mut self)
        ensures
            forall|i: int| 0 <= i < BLOCK ==> #[trigger] final(self).pool_seed@[i] == 0,
            forall|i: int| 0 <= i < BLOCK ==> #[trigger] final(self).block@[i] == 0,
            final(self).counter == 0,
            final(self).pos == 0,
    {
        wipe_block(&mut self.pool_seed);
        wipe_block(&mut self.block);
        self.counter = 0;
        self.pos = 0;
    }
}

/// It makes no difference whether bytes are drawn at once or one part after the other: the stream
/// runs on.
pub proof fn law_drawing_runs_on(seed: Seq<u8>, position: nat, front: Seq<u8>, back: Seq<u8>)
    ensures
        mixed(seed, position, front + back) == mixed(seed, position, front) + mixed(
            seed,
            position + front.len(),
            back,
        ),
{
    let whole = mixed(seed, position, front + back);
    let parts = mixed(seed, position, front) + mixed(seed, position + front.len(), back);
    assert forall|i: int| 0 <= i < whole.len() implies whole[i] == parts[i] by {
        if i >= front.len() {
            assert(position + front.len() + (i - front.len()) as nat == position + i as nat);
        }
    }
    assert(whole =~= parts);
}

/// Combining loses nothing: whoever knows the stream gets the operating system's bytes back, so
/// different bytes of the operating system give different results.
pub proof fn law_mixing_is_reversible(seed: Seq<u8>, position: nat, os_bytes: Seq<u8>)
    ensures
        mixed(seed, position, mixed(seed, position, os_bytes)) == os_bytes,
{
    assert forall|a: u8, b: u8| #[trigger] (a ^ b) ^ b == a by {
        assert((a ^ b) ^ b == a) by (bit_vector);
    }
    assert(mixed(seed, position, mixed(seed, position, os_bytes)) =~= os_bytes);
}

/// Where the bytes of a generator come from: each byte of the operating system is combined by
/// exclusive or with the byte of the stream at its place. The stream is the SHA-3 digests of the
/// seed and of a number that counts the blocks of 32 bytes, and the seed is the digest of a label,
/// the pool and the time.
pub proof fn law_drawn_bytes_come_from_pool(
    pool: Seq<u8>,
    nanos: u64,
    position: nat,
    os_bytes: Seq<u8>,
    i: int,
)
    requires
        pool.len() == 32,
        0 <= i < os_bytes.len(),
        (position + i) / 32 <= u64::MAX,
    ensures
        exists|origin: Seq<u8>, block: Seq<u8>|
            {
                let label = encode_utf8("NullMagnet_HarvestedRng_v2"@);
                let seed = #[trigger] sha3_256(origin);
                &&& pool_seed_of(pool, nanos) == seed
                &&& origin.take(label.len() as int) == label
                &&& origin.subrange(label.len() as int, label.len() as int + 32) == pool
                &&& origin.skip(label.len() as int + 32) == le_bytes(nanos)
                &&& block.take(seed.len() as int) == seed
                &&& block.skip(seed.len() as int) == le_bytes(((position + i) / 32) as u64)
                &&& mixed(seed, position, os_bytes)[i] == os_bytes[i] ^ #[trigger] sha3_256(
                    block,
                )[(position + i) % 32]
            },
        mixed(pool_seed_of(pool, nanos), position, os_bytes).len() == os_bytes.len(),
{
    let label = encode_utf8("NullMagnet_HarvestedRng_v2"@);
    let origin = label + pool + le_bytes(nanos);
    let seed = sha3_256(origin);
    let number = ((position + i) / 32) as u64;
    let block = seed + le_bytes(number);
    law_number_bytes(nanos, 0);
    law_number_bytes(number, 0);
    assert(origin.take(label.len() as int) =~= label);
    assert(origin.subrange(label.len() as int, label.len() as int + 32) =~= pool);
    assert(origin.skip(label.len() as int + 32) =~= le_bytes(nanos));
    assert(block.take(seed.len() as int) =~= seed);
    assert(block.skip(seed.len() as int) =~= le_bytes(number));
    assert(pool_seed_of(pool, nanos) == seed);
    assert(position + i as nat == position + i);
    assert(stream_byte(seed, (position + i) as nat) == sha3_256(block)[(position + i) % 32]);
}

} // verus!
