//! What is made of the readings of each device before it is screened.

use crate::bytes::{append_bytes, append_number, copy_bytes, law_number_bytes, le_bytes};
use crate::crypto::{sha3_256, sha3_digest};
use crate::text::{trim_space, trimmed};
use vstd::bytes::{spec_u16_to_le_bytes, spec_u32_to_le_bytes, u16_to_le_bytes, u32_to_le_bytes};
use vstd::prelude::*;
use vstd::utf8::encode_utf8;

verus! {

/// Audio samples that are looked at.
pub const AUDIO_SAMPLES: usize = 256;

/// The distance between the bytes of a frame that are used.
pub const FRAME_STEP: usize = 7;

/// The most bytes of a frame that are used.
pub const FRAME_BYTES: usize = 512;

/// Bluetooth devices that are looked at.
pub const RADIO_DEVICES: usize = 20;

/// A reading with the time in nanoseconds behind it.
pub fn with_time(reading: &[u8], nanos: u64) -> (data: Vec<u8>)
    ensures
        data@ == reading@ + le_bytes(nanos),
{
    let mut data: Vec<u8> = copy_bytes(reading);
    append_number(&mut data, nanos);
    data
}

/// The low bytes of every second of the first 256 samples.
pub open spec fn audio_bytes(samples: Seq<u32>) -> Seq<u8> {
    let seen = if samples.len() < AUDIO_SAMPLES {
        samples.len()
    } else {
        AUDIO_SAMPLES as nat
    };
    Seq::new((seen + 1) / 2, |i: int| (samples[2 * i] % 256) as u8)
}

/// Takes the low bytes of every second of the first 256 samples. A sample is given as its bits.
pub fn audio_noise(samples: &[u32]) -> (bytes: Vec<u8>)
    ensures
        bytes@ == audio_bytes(samples@),
{
    let seen: usize = if samples.len() < AUDIO_SAMPLES {
        samples.len()
    } else {
        AUDIO_SAMPLES
    };
    let count: usize = (seen + 1) / 2;
    let mut bytes: Vec<u8> = Vec::new();
    let mut i: usize = 0;
    while i < count
        invariant
            i <= count,
            count == (seen + 1) / 2,
            seen <= samples@.len(),
            seen <= AUDIO_SAMPLES,
            bytes@.len() == i,
            forall|j: int| 0 <= j < i ==> #[trigger] bytes@[j] == (samples@[2 * j] % 256) as u8,
        decreases count - i,
    {
        bytes.push((samples[2 * i] % 256) as u8);
        i += 1;
    }
    assert(bytes@ =~= audio_bytes(samples@));
    bytes
}

/// Whether audio samples are used now: the engine runs, the harvester is on and at least 200
/// milliseconds have gone by.
pub fn audio_due(running: bool, enabled: bool, elapsed_ms: u64) -> (due: bool)
    ensures
        due == (running && enabled && elapsed_ms >= 200),
{
    running && enabled && elapsed_ms >= 200
}

/// A processor's load, as its bits, and its frequency.
#[derive(Clone, Copy, PartialEq, Eq, Structural, Debug)]
pub struct CpuReading {
    pub usage_bits: u32,
    pub frequency: u64,
}

/// The bytes of the processors' readings, one behind the other.
pub open spec fn cpu_bytes(cpus: Seq<CpuReading>) -> Seq<u8>
    decreases cpus.len(),
{
    if cpus.len() == 0 {
        Seq::empty()
    } else {
        cpu_bytes(cpus.drop_last()) + spec_u32_to_le_bytes(cpus.last().usage_bits) + le_bytes(
            cpus.last().frequency,
        )
    }
}

/// Puts the readings of processors, clock and memory one behind the other.
pub fn system_noise(cpus: &[CpuReading], nanos: u64, used_memory: u64, available_memory: u64) -> (data:
    Vec<u8>)
    ensures
        data@ == cpu_bytes(cpus@) + le_bytes(nanos) + le_bytes(used_memory) + le_bytes(
            available_memory,
        ),
{
    let mut data: Vec<u8> = Vec::new();
    let mut i: usize = 0;
    while i < cpus.len()
        invariant
            i <= cpus.len(),
            data@ == cpu_bytes(cpus@.take(i as int)),
        decreases cpus.len() - i,
    {
        assert(cpus@.take(i + 1).drop_last() =~= cpus@.take(i as int));
        let usage: Vec<u8> = u32_to_le_bytes(cpus[i].usage_bits);
        append_bytes(&mut data, usage.as_slice());
        append_number(&mut data, cpus[i].frequency);
        i += 1;
    }
    assert(cpus@.take(i as int) =~= cpus@);
    append_number(&mut data, nanos);
    append_number(&mut data, used_memory);
    append_number(&mut data, available_memory);
    data
}

/// The low halves of every seventh byte of a frame, 512 of them at most.
pub open spec fn frame_bytes(frame: Seq<u8>) -> Seq<u8> {
    let all = (frame.len() + FRAME_STEP as nat - 1) as nat / (FRAME_STEP as nat);
    Seq::new(
        if all < FRAME_BYTES {
            all
        } else {
            FRAME_BYTES as nat
        },
        |i: int| (frame[FRAME_STEP * i] % 16) as u8,
    )
}

/// A byte string whose first 32 bytes are combined with a digest by exclusive or.
pub open spec fn masked(noise: Seq<u8>, mask: Option<Seq<u8>>) -> Seq<u8> {
    match mask {
        Some(m) => Seq::new(
            noise.len(),
            |i: int|
                if i < 32 {
                    noise[i] ^ m[i]
                } else {
                    noise[i]
                },
        ),
        None => noise,
    }
}

/// What is made of a frame: its noise and the time, masked with the digest of what was made of the
/// frame before.
pub open spec fn video_bytes(frame: Seq<u8>, nanos: u64, previous: Option<Seq<u8>>) -> Seq<u8> {
    masked(frame_bytes(frame) + le_bytes(nanos), previous)
}

/// What the video harvester remembers: the digest of what was made of the last frame.
pub struct VideoMemory {
    pub last_frame_hash: Option<[u8; 32]>,
}

impl VideoMemory {
    /// The digest of what was made of the last frame.
    pub open spec fn previous(&self) -> Option<Seq<u8>> {
        match self.last_frame_hash {
            Some(hash) => Some(hash@),
            None => None,
        }
    }

    /// No frame was seen yet.
    pub fn new() -> (memory: VideoMemory)
        ensures
            memory.previous() is None,
    {
        VideoMemory { last_frame_hash: None }
    }

    /// Makes a reading of a frame and remembers its digest.
    pub fn reading(&mut self, frame: &[u8], nanos: u64) -> (noise: Vec<u8>)
        ensures
            noise@ == video_bytes(frame@, nanos, old(self).previous()),
            final(self).previous() == Some(sha3_256(noise@)),
    {
        let mut noise: Vec<u8> = Vec::new();
        let mut at: usize = 0;
        while at < frame.len() && noise.len() < FRAME_BYTES
            invariant
                noise@.len() <= FRAME_BYTES,
                at == FRAME_STEP * noise@.len() || (at == usize::MAX && frame@.len() <= usize::MAX
                    && frame@.len() <= FRAME_STEP * noise@.len()),
                noise@.len() <= frame_bytes(frame@).len(),
                at >= frame@.len() ==> noise@.len() == frame_bytes(frame@).len(),
                *self == *old(self),
                forall|j: int|
                    0 <= j < noise@.len() ==> #[trigger] noise@[j] == frame_bytes(frame@)[j],
            decreases FRAME_BYTES - noise@.len(),
        {
            noise.push(frame[at] % 16);
            at = at.saturating_add(FRAME_STEP);
        }
        assert(noise@ =~= frame_bytes(frame@));
        append_number(&mut noise, nanos);
        let ghost plain = noise@;
        if let Some(mask) = self.last_frame_hash {
            let mut i: usize = 0;
            while i < 32 && i < noise.len()
                invariant
                    i <= 32,
                    i <= noise@.len(),
                    noise@.len() == plain.len(),
                    forall|j: int| 0 <= j < i ==> #[trigger] noise@[j] == plain[j] ^ mask@[j],
                    forall|j: int| i <= j < noise@.len() ==> #[trigger] noise@[j] == plain[j],
                decreases 32 - i,
            {
                let mixed: u8 = noise[i] ^ mask[i];
                noise.set(i, mixed);
                i += 1;
            }
        }
        assert(noise@ =~= masked(plain, old(self).previous()));
        self.last_frame_hash = Some(sha3_digest(noise.as_slice()));
        noise
    }
}

/// The texts without white space around them, as bytes, one behind the other.
pub open spec fn trimmed_bytes(values: Seq<String>) -> Seq<u8>
    decreases values.len(),
{
    if values.len() == 0 {
        Seq::empty()
    } else {
        trimmed_bytes(values.drop_last()) + encode_utf8(trimmed(values.last()@))
    }
}

fn append_trimmed(data: &mut Vec<u8>, values: &Vec<String>)
    ensures
        final(data)@ == old(data)@ + trimmed_bytes(values@),
{
    let mut i: usize = 0;
    assert(data@ + trimmed_bytes(values@.take(0)) =~= data@);
    while i < values.len()
        invariant
            i <= values.len(),
            data@ == old(data)@ + trimmed_bytes(values@.take(i as int)),
        decreases values.len() - i,
    {
        assert(values@.take(i + 1).drop_last() =~= values@.take(i as int));
        append_bytes(data, trim_space(values[i].as_str()).as_bytes());
        assert(data@ =~= old(data)@ + trimmed_bytes(values@.take(i + 1)));
        i += 1;
    }
    assert(values@.take(i as int) =~= values@);
}

/// What is made of a wireless reading: the statistics as they are, the values without white space
/// around them, and the time. Nothing where there is nothing but the time.
pub fn wifi_noise(statistics: &[u8], values: &Vec<String>, nanos: u64) -> (data: Option<Vec<u8>>)
    ensures
        ({
            let noise = statistics@ + trimmed_bytes(values@);
            &&& data is Some <==> noise.len() > 0
            &&& data matches Some(bytes) ==> bytes@ == noise + le_bytes(nanos)
        }),
{
    let mut noise: Vec<u8> = copy_bytes(statistics);
    append_trimmed(&mut noise, values);
    append_number(&mut noise, nanos);
    proof {
        crate::bytes::lemma_le_bytes(nanos, nanos);
    }
    if noise.len() > 8 {
        Some(noise)
    } else {
        None
    }
}

/// What is made of a passive Bluetooth reading: the values without white space around them, the
/// feature texts as they are, how long the scheduler took between two readings of the clock, and
/// the first of them.
pub fn bt_passive_noise(values: &Vec<String>, features: &[u8], first: u64, second: u64) -> (data:
    Vec<u8>)
    ensures
        data@ == trimmed_bytes(values@) + features@ + le_bytes(
            ((second - first) % 0x1_0000_0000_0000_0000) as u64,
        ) + le_bytes(first),
{
    let mut data: Vec<u8> = Vec::new();
    append_trimmed(&mut data, values);
    assert(data@ =~= trimmed_bytes(values@));
    append_bytes(&mut data, features);
    let jitter: u64 = second.wrapping_sub(first);
    assert(jitter == ((second - first) % 0x1_0000_0000_0000_0000) as u64);
    append_number(&mut data, jitter);
    append_number(&mut data, first);
    data
}

/// The signal strength and the transmission power that a Bluetooth device tells.
#[derive(Clone, Copy, PartialEq, Eq, Structural, Debug)]
pub struct RadioReading {
    pub rssi: Option<i16>,
    pub tx_power: Option<i16>,
}

/// The two bytes of a reading, the lower first; none where there is no reading.
pub open spec fn reading_bytes(reading: Option<i16>) -> Seq<u8> {
    match reading {
        Some(value) => spec_u16_to_le_bytes(value as u16),
        None => Seq::empty(),
    }
}

/// The bytes of the readings of Bluetooth devices, one behind the other.
pub open spec fn radio_bytes(devices: Seq<RadioReading>) -> Seq<u8>
    decreases devices.len(),
{
    if devices.len() == 0 {
        Seq::empty()
    } else {
        radio_bytes(devices.drop_last()) + reading_bytes(devices.last().rssi) + reading_bytes(
            devices.last().tx_power,
        )
    }
}

fn append_reading(data: &mut Vec<u8>, reading: Option<i16>)
    ensures
        final(data)@ == old(data)@ + reading_bytes(reading),
{
    match reading {
        Some(value) => {
            let bytes: Vec<u8> = u16_to_le_bytes(value as u16);
            append_bytes(data, bytes.as_slice());
        },
        None => {
            assert(data@ + reading_bytes(reading) =~= data@);
        },
    }
}

/// The devices of a Bluetooth scan whose readings are used: the first 20.
pub open spec fn devices_seen(devices: Seq<RadioReading>) -> Seq<RadioReading> {
    if devices.len() < RADIO_DEVICES {
        devices
    } else {
        devices.take(RADIO_DEVICES as int)
    }
}

/// What is made of a Bluetooth scan: the readings of the first 20 devices and the time. Nothing
/// where no device tells anything.
pub fn bt_active_noise(devices: &Vec<RadioReading>, nanos: u64) -> (data: Option<Vec<u8>>)
    ensures
        ({
            let seen = devices_seen(devices@);
            &&& data is Some <==> radio_bytes(seen).len() > 0
            &&& data matches Some(bytes) ==> bytes@ == radio_bytes(seen) + le_bytes(nanos)
        }),
{
    let mut data: Vec<u8> = Vec::new();
    let mut i: usize = 0;
    while i < devices.len() && i < RADIO_DEVICES
        invariant
            i <= devices.len(),
            i <= RADIO_DEVICES,
            data@ == radio_bytes(devices@.take(i as int)),
        decreases devices.len() - i,
    {
        assert(devices@.take(i + 1).drop_last() =~= devices@.take(i as int));
        append_reading(&mut data, devices[i].rssi);
        append_reading(&mut data, devices[i].tx_power);
        i += 1;
    }
    assert(devices@.take(devices@.len() as int) =~= devices@);
    append_number(&mut data, nanos);
    proof {
        crate::bytes::lemma_le_bytes(nanos, nanos);
    }
    if data.len() > 8 {
        Some(data)
    } else {
        None
    }
}

/// Masking loses nothing: masked twice with the same digest, a byte string is as it was. Only the
/// first 32 bytes are masked, each with its own byte of the digest.
pub proof fn law_masking_is_reversible(noise: Seq<u8>, digest: Seq<u8>)
    ensures
        masked(masked(noise, Some(digest)), Some(digest)) == noise,
        masked(noise, Some(digest)).len() == noise.len(),
        forall|i: int|
            0 <= i < noise.len() && i < 32 ==> #[trigger] masked(noise, Some(digest))[i] == noise[i]
                ^ digest[i],
        forall|i: int|
            32 <= i < noise.len() ==> #[trigger] masked(noise, Some(digest))[i] == noise[i],
        masked(noise, None) == noise,
{
    assert forall|a: u8, b: u8| #[trigger] (a ^ b) ^ b == a by {
        assert((a ^ b) ^ b == a) by (bit_vector);
    }
    assert(masked(masked(noise, Some(digest)), Some(digest)) =~= noise);
}

/// Every seventh byte of a frame gives its low half, until 512 are taken or the frame is at its end,
/// and the time stands behind them. Where a digest masks them, taking it away gives them back.
pub proof fn law_frame_is_sampled(frame: Seq<u8>, nanos: u64, previous: Option<Seq<u8>>)
    ensures
        ({
            let made = masked(video_bytes(frame, nanos, previous), previous);
            let n = made.len() - 8;
            &&& made.skip(n) == le_bytes(nanos)
            &&& n <= 512
            &&& n < 512 ==> 7 * n >= frame.len()
            &&& n > 0 ==> 7 * (n - 1) < frame.len()
            &&& forall|i: int| 0 <= i < n ==> #[trigger] made[i] == frame[7 * i] % 16
        }),
{
    law_number_bytes(nanos, 0);
    if let Some(digest) = previous {
        law_masking_is_reversible(frame_bytes(frame) + le_bytes(nanos), digest);
    }
    let made = masked(video_bytes(frame, nanos, previous), previous);
    let n = made.len() - 8;
    assert(made == frame_bytes(frame) + le_bytes(nanos));
    assert(made.skip(n) =~= le_bytes(nanos));
}

/// Of the first 256 audio samples every second one gives its lowest byte, and none is left out.
pub proof fn law_audio_is_sampled(samples: Seq<u32>)
    ensures
        ({
            let bytes = audio_bytes(samples);
            &&& samples.len() >= 256 ==> bytes.len() == 128
            &&& samples.len() < 256 ==> samples.len() <= 2 * bytes.len() <= samples.len() + 1
            &&& forall|i: int| 0 <= i < bytes.len() ==> #[trigger] bytes[i] == samples[2 * i] % 256
        }),
{
}

/// The readings of the processors stand one behind the other, twelve bytes each: four of the load and
/// eight of the frequency.
pub proof fn law_cpu_readings_are_laid_out(cpus: Seq<CpuReading>, k: int)
    requires
        0 <= k < cpus.len(),
    ensures
        cpu_bytes(cpus).len() == 12 * cpus.len(),
        cpu_bytes(cpus).subrange(12 * k, 12 * k + 4) == spec_u32_to_le_bytes(cpus[k].usage_bits),
        cpu_bytes(cpus).subrange(12 * k + 4, 12 * k + 12) == le_bytes(cpus[k].frequency),
    decreases cpus.len(),
{
    let less = cpus.drop_last();
    let before = cpu_bytes(less);
    let all = cpu_bytes(cpus);
    lemma_cpu_length(less);
    law_number_bytes(cpus.last().frequency, 0);
    vstd::bytes::lemma_auto_spec_u32_to_from_le_bytes();
    assert(spec_u32_to_le_bytes(cpus.last().usage_bits).len() == 4);
    if k < less.len() {
        law_cpu_readings_are_laid_out(less, k);
        assert(all.subrange(12 * k, 12 * k + 4) =~= before.subrange(12 * k, 12 * k + 4));
        assert(all.subrange(12 * k + 4, 12 * k + 12) =~= before.subrange(12 * k + 4, 12 * k + 12));
    } else {
        assert(all.subrange(12 * k, 12 * k + 4) =~= spec_u32_to_le_bytes(cpus.last().usage_bits));
        assert(all.subrange(12 * k + 4, 12 * k + 12) =~= le_bytes(cpus.last().frequency));
    }
}

proof fn lemma_cpu_length(cpus: Seq<CpuReading>)
    ensures
        cpu_bytes(cpus).len() == 12 * cpus.len(),
    decreases cpus.len(),
{
    if cpus.len() > 0 {
        lemma_cpu_length(cpus.drop_last());
        law_number_bytes(cpus.last().frequency, 0);
        vstd::bytes::lemma_auto_spec_u32_to_from_le_bytes();
        assert(spec_u32_to_le_bytes(cpus.last().usage_bits).len() == 4);
    }
}

/// The values of a radio go in one behind the other, each without the white space around it and none
/// left out.
pub proof fn law_every_value_goes_in(values: Seq<String>)
    ensures
        trimmed_bytes(values) == values.map_values(
            |value: String| encode_utf8(trimmed(value@)),
        ).flatten_alt(),
    decreases values.len(),
{
    let parts = values.map_values(|value: String| encode_utf8(trimmed(value@)));
    if values.len() > 0 {
        law_every_value_goes_in(values.drop_last());
        assert(parts.drop_last() =~= values.drop_last().map_values(
            |value: String| encode_utf8(trimmed(value@)),
        ));
    }
}

/// The readings of Bluetooth devices go in one behind the other, the signal strength before the
/// transmission power and none left out; each reading is read back from its two bytes.
pub proof fn law_every_device_goes_in(devices: Seq<RadioReading>, value: i16)
    ensures
        radio_bytes(devices) == devices.map_values(
            |device: RadioReading| reading_bytes(device.rssi) + reading_bytes(device.tx_power),
        ).flatten_alt(),
        reading_bytes(None) == Seq::<u8>::empty(),
        reading_bytes(Some(value)).len() == 2,
        vstd::bytes::spec_u16_from_le_bytes(reading_bytes(Some(value))) == value as u16,
    decreases devices.len(),
{
    vstd::bytes::lemma_auto_spec_u16_to_from_le_bytes();
    assert(spec_u16_to_le_bytes(value as u16).len() == 2);
    let parts = devices.map_values(
        |device: RadioReading| reading_bytes(device.rssi) + reading_bytes(device.tx_power),
    );
    if devices.len() > 0 {
        law_every_device_goes_in(devices.drop_last(), value);
        assert(parts.drop_last() =~= devices.drop_last().map_values(
            |device: RadioReading| reading_bytes(device.rssi) + reading_bytes(device.tx_power),
        ));
        let last = devices.last();
        assert(radio_bytes(devices) =~= radio_bytes(devices.drop_last()) + (reading_bytes(last.rssi)
            + reading_bytes(last.tx_power)));
    }
}

/// The first 20 devices of a scan are used, all of them where there are fewer.
pub proof fn law_first_devices_are_used(devices: Seq<RadioReading>)
    ensures
        devices_seen(devices).is_prefix_of(devices),
        devices.len() <= 20 ==> devices_seen(devices) == devices,
        devices.len() > 20 ==> devices_seen(devices).len() == 20,
{
    let seen = devices_seen(devices);
    assert(devices.subrange(0, seen.len() as int) =~= seen);
    if devices.len() == 20 {
        assert(devices.take(20) =~= devices);
    }
}

} // verus!
