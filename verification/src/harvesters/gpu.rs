//! Graphics processors: which one is used, how its work is cut up, and what is made of its answer.

use crate::text::{append_decimal, numeral};
use vstd::prelude::*;

verus! {

/// The largest work group that is asked for.
pub const WORK_GROUP: usize = 256;

/// The work group of a device that does not tell its largest.
pub const FALLBACK_WORK_GROUP: usize = 64;

/// A device, as far as it tells.
pub struct OclDevice {
    pub name: Option<String>,
    pub kind: Option<String>,
    pub max_work_group: Option<usize>,
    pub compute_units: Option<String>,
}

/// A platform: its graphics processors and all its devices, each where the listing succeeded.
pub struct OclPlatform {
    pub gpus: Option<Vec<OclDevice>>,
    pub all: Option<Vec<OclDevice>>,
}

impl OclPlatform {
    /// The devices that are listed: the graphics processors, or else all, or else none.
    pub open spec fn listed(&self) -> Seq<OclDevice> {
        match self.gpus {
            Some(devices) => devices@,
            None => match self.all {
                Some(devices) => devices@,
                None => Seq::empty(),
            },
        }
    }

    fn listed_count(&self) -> (count: usize)
        ensures
            count == self.listed().len(),
    {
        match &self.gpus {
            Some(devices) => devices.len(),
            None => match &self.all {
                Some(devices) => devices.len(),
                None => 0,
            },
        }
    }

    fn listed_at(&self, index: usize) -> (device: &OclDevice)
        requires
            index < self.listed().len(),
        ensures
            *device == self.listed()[index as int],
    {
        let devices: &Vec<OclDevice> = match (&self.gpus, &self.all) {
            (Some(devices), _) => devices,
            (None, Some(devices)) => devices,
            (None, None) => vstd::pervasive::unreached(),
        };
        &devices[index]
    }
}

/// The place of a device among the devices of its platform.
#[derive(Clone, Copy, PartialEq, Eq, Structural, Debug)]
pub enum DevicePlace {
    /// Among the devices that are listed.
    Listed { platform: usize, device: usize },
    /// The first graphics processor of a platform.
    FirstGpu { platform: usize },
    /// The first device of any kind of a platform.
    FirstAny { platform: usize },
}

/// Whether a platform has a graphics processor.
pub open spec fn has_gpu(platform: OclPlatform) -> bool {
    platform.gpus matches Some(devices) && devices@.len() > 0
}

/// Whether a platform has any device.
pub open spec fn has_any(platform: OclPlatform) -> bool {
    platform.all matches Some(devices) && devices@.len() > 0
}

/// Whether this is the device that is used: the one asked for, or else the first graphics processor
/// of the first platform that has one, or else the first device of the first platform that has one.
pub open spec fn is_chosen(
    platforms: Seq<OclPlatform>,
    platform_idx: usize,
    device_idx: usize,
    place: Option<DevicePlace>,
) -> bool {
    if platform_idx < platforms.len() && device_idx < platforms[platform_idx as int].listed().len() {
        place == Some(DevicePlace::Listed { platform: platform_idx, device: device_idx })
    } else {
        match place {
            Some(DevicePlace::Listed { .. }) => false,
            Some(DevicePlace::FirstGpu { platform }) => {
                &&& platform < platforms.len()
                &&& has_gpu(platforms[platform as int])
                &&& forall|i: int| 0 <= i < platform ==> !has_gpu(#[trigger] platforms[i])
            },
            Some(DevicePlace::FirstAny { platform }) => {
                &&& forall|i: int| 0 <= i < platforms.len() ==> !has_gpu(#[trigger] platforms[i])
                &&& platform < platforms.len()
                &&& has_any(platforms[platform as int])
                &&& forall|i: int| 0 <= i < platform ==> !has_any(#[trigger] platforms[i])
            },
            None => forall|i: int|
                0 <= i < platforms.len() ==> !has_gpu(#[trigger] platforms[i]) && !has_any(
                    platforms[i],
                ),
        }
    }
}

/// Chooses the device that is used.
pub fn get_device(platforms: &Vec<OclPlatform>, platform_idx: usize, device_idx: usize) -> (place:
    Option<DevicePlace>)
    ensures
        is_chosen(platforms@, platform_idx, device_idx, place),
{
    if platform_idx < platforms.len() && device_idx < platforms[platform_idx].listed_count() {
        return Some(DevicePlace::Listed { platform: platform_idx, device: device_idx });
    }
    let mut i: usize = 0;
    while i < platforms.len()
        invariant
            i <= platforms.len(),
            !(platform_idx < platforms@.len() && device_idx
                < platforms@[platform_idx as int].listed().len()),
            forall|j: int| 0 <= j < i ==> !has_gpu(#[trigger] platforms@[j]),
        decreases platforms.len() - i,
    {
        if let Some(devices) = &platforms[i].gpus {
            if devices.len() > 0 {
                return Some(DevicePlace::FirstGpu { platform: i });
            }
        }
        i += 1;
    }
    let mut k: usize = 0;
    while k < platforms.len()
        invariant
            k <= platforms.len(),
            !(platform_idx < platforms@.len() && device_idx
                < platforms@[platform_idx as int].listed().len()),
            forall|j: int| 0 <= j < platforms@.len() ==> !has_gpu(#[trigger] platforms@[j]),
            forall|j: int| 0 <= j < k ==> !has_any(#[trigger] platforms@[j]),
        decreases platforms.len() - k,
    {
        if let Some(devices) = &platforms[k].all {
            if devices.len() > 0 {
                return Some(DevicePlace::FirstAny { platform: k });
            }
        }
        k += 1;
    }
    None
}

/// Whether there is a device at all.
pub fn is_available(platforms: &Vec<OclPlatform>) -> (available: bool)
    ensures
        available == exists|i: int|
            0 <= i < platforms@.len() && (has_gpu(#[trigger] platforms@[i]) || has_any(
                platforms@[i],
            )),
{
    match get_device(platforms, 0, 0) {
        Some(place) => {
            proof {
                match place {
                    DevicePlace::Listed { platform, device } => {
                        assert(platforms@[0].listed().len() > 0);
                        assert(has_gpu(platforms@[0]) || has_any(platforms@[0]));
                    },
                    DevicePlace::FirstGpu { platform } => {
                        assert(has_gpu(platforms@[platform as int]));
                    },
                    DevicePlace::FirstAny { platform } => {
                        assert(has_any(platforms@[platform as int]));
                    },
                }
            }
            true
        },
        None => {
            proof {
                if platforms@.len() > 0 && platforms@[0].listed().len() > 0 {
                    assert(is_chosen(platforms@, 0, 0, None));
                }
            }
            false
        },
    }
}

/// What CUDA is called, where there is a device for it.
pub fn detect_gpu_cuda(available: bool) -> (found: (bool, String))
    ensures
        found.0 == available,
        found.1@ == if available {
            "CUDA (NVIDIA)"@
        } else {
            "None"@
        },
{
    if available {
        (true, "CUDA (NVIDIA)".to_owned())
    } else {
        (false, "None".to_owned())
    }
}

/// A text, or another where there is none.
pub open spec fn told(text: Option<String>, otherwise: Seq<char>) -> Seq<char> {
    match text {
        Some(t) => t@,
        None => otherwise,
    }
}

fn append_told(line: &mut String, text: &Option<String>, otherwise: &str)
    ensures
        final(line)@ == old(line)@ + told(*text, otherwise@),
{
    match text {
        Some(t) => line.append(t.as_str()),
        None => line.append(otherwise),
    }
}

/// The description of a device: its name, its compute units and its largest work group.
pub open spec fn device_text(device: OclDevice) -> Seq<char> {
    told(device.name, "Unknown"@) + " (CUs:"@ + told(device.compute_units, "?"@) + ", MaxWG:"@
        + numeral(
        match device.max_work_group {
            Some(n) => n as nat,
            None => 0,
        },
    ) + ")"@
}

/// Describes a device; a fixed text where there is none.
pub fn device_info(device: Option<&OclDevice>) -> (text: String)
    ensures
        text@ == match device {
            Some(d) => device_text(*d),
            None => "No OpenCL device"@,
        },
{
    match device {
        Some(device) => {
            let mut text: String = String::new();
            append_told(&mut text, &device.name, "Unknown");
            assert(text@ =~= told(device.name, "Unknown"@));
            text.append(" (CUs:");
            append_told(&mut text, &device.compute_units, "?");
            text.append(", MaxWG:");
            let largest: usize = match device.max_work_group {
                Some(n) => n,
                None => 0,
            };
            append_decimal(&mut text, largest as u64);
            text.append(")");
            text
        },
        None => "No OpenCL device".to_owned(),
    }
}

/// What OpenCL is called, where there is a device for it with this description.
pub fn detect_gpu_opencl(info: Option<String>) -> (found: (bool, String))
    ensures
        found.0 == (info is Some),
        found.1@ == match info {
            Some(text) => "OpenCL: "@ + text@,
            None => "None"@,
        },
{
    match info {
        Some(text) => {
            let mut line: String = "OpenCL: ".to_owned();
            line.append(text.as_str());
            (true, line)
        },
        None => (false, "None".to_owned()),
    }
}

/// An entry of the listing as its contract sees it: platform, device, name and type.
pub type EntryView = (int, int, Seq<char>, Seq<char>);

/// The entries as their contract sees them.
pub open spec fn entry_views(entries: Seq<(usize, usize, String, String)>) -> Seq<EntryView> {
    entries.map_values(|e: (usize, usize, String, String)| (e.0 as int, e.1 as int, e.2@, e.3@))
}

/// The entries of the devices of one platform.
pub open spec fn platform_entries(platform: int, devices: Seq<OclDevice>) -> Seq<EntryView> {
    Seq::new(
        devices.len(),
        |d: int|
            (platform, d, told(devices[d].name, "Unknown"@), told(devices[d].kind, "Unknown"@)),
    )
}

/// The entries of the first platforms, platform by platform.
pub open spec fn all_entries(platforms: Seq<OclPlatform>, count: int) -> Seq<EntryView>
    decreases count,
{
    if count <= 0 {
        Seq::empty()
    } else {
        all_entries(platforms, count - 1) + platform_entries(
            count - 1,
            platforms[count - 1].listed(),
        )
    }
}

/// Lists every device of every platform, platform by platform.
pub fn enumerate_opencl_devices(platforms: &Vec<OclPlatform>) -> (entries: Vec<
    (usize, usize, String, String),
>)
    ensures
        entry_views(entries@) == all_entries(platforms@, platforms@.len() as int),
{
    let mut entries: Vec<(usize, usize, String, String)> = Vec::new();
    let mut p: usize = 0;
    assert(entry_views(entries@) =~= all_entries(platforms@, 0));
    while p < platforms.len()
        invariant
            p <= platforms.len(),
            entry_views(entries@) == all_entries(platforms@, p as int),
        decreases platforms.len() - p,
    {
        let ghost before = all_entries(platforms@, p as int);
        let ghost own = platform_entries(p as int, platforms@[p as int].listed());
        let mut d: usize = 0;
        assert(before + own.take(0) =~= before);
        let count: usize = platforms[p].listed_count();
        while d < count
            invariant
                p < platforms.len(),
                d <= count,
                count == platforms@[p as int].listed().len(),
                own == platform_entries(p as int, platforms@[p as int].listed()),
                entry_views(entries@) == before + own.take(d as int),
            decreases count - d,
        {
            let device: &OclDevice = platforms[p].listed_at(d);
            let mut name: String = String::new();
            append_told(&mut name, &device.name, "Unknown");
            let mut kind: String = String::new();
            append_told(&mut kind, &device.kind, "Unknown");
            assert(name@ =~= told(device.name, "Unknown"@));
            assert(kind@ =~= told(device.kind, "Unknown"@));
            let ghost so_far = entry_views(entries@);
            entries.push((p, d, name, kind));
            assert(entry_views(entries@) =~= so_far.push(own[d as int]));
            assert(before + own.take(d + 1) =~= (before + own.take(d as int)).push(own[d as int]));
            d += 1;
        }
        assert(own.take(count as int) =~= own);
        p += 1;
    }
    entries
}

/// The work group that a device is given: its largest, but no more than 256.
pub fn safe_local_work_size(max_work_group: Option<usize>) -> (size: usize)
    ensures
        size == {
            let largest = match max_work_group {
                Some(n) => n,
                None => FALLBACK_WORK_GROUP,
            };
            if largest < WORK_GROUP {
                largest
            } else {
                WORK_GROUP
            }
        },
{
    let largest: usize = match max_work_group {
        Some(n) => n,
        None => FALLBACK_WORK_GROUP,
    };
    if largest < WORK_GROUP {
        largest
    } else {
        WORK_GROUP
    }
}

/// The size of the whole work: the least multiple of the work group that is no less than `size`.
pub fn global_work_size(size: usize, local: usize) -> (global: usize)
    requires
        local > 0,
        size + local <= usize::MAX,
    ensures
        global % local == 0,
        size <= global < size + local,
{
    let groups: usize = (size + local - 1) / local;
    let ghost total = size + local - 1;
    proof {
        let q = total / (local as int);
        let r = total % (local as int);
        assert(total == local * q + r && 0 <= r < local) by (nonlinear_arith)
            requires
                local > 0,
                total >= 0,
                q == total / (local as int),
                r == total % (local as int),
        ;
        assert(q * local == local * q) by (nonlinear_arith);
        assert((q * local) % (local as int) == 0) by (nonlinear_arith)
            requires
                local > 0,
        ;
    }
    groups * local
}

/// How many blocks of 256 threads cover `size` threads.
pub fn grid_size(size: u32) -> (blocks: u32)
    requires
        size <= u32::MAX - 255,
    ensures
        blocks == (size + 255) / 256,
{
    (size + 255) / 256
}

/// The bytes that are made of a kernel's words: the two low bytes of each, the lower first.
pub open spec fn word_bytes(words: Seq<u32>) -> Seq<u8> {
    Seq::new(
        2 * words.len(),
        |i: int|
            if i % 2 == 0 {
                (words[i / 2] % 256) as u8
            } else {
                ((words[i / 2] / 256) % 256) as u8
            },
    )
}

/// Makes bytes of a kernel's words, `size` of them at most.
pub fn kernel_bytes(words: &[u32], size: usize) -> (bytes: Vec<u8>)
    ensures
        bytes@ == if size < 2 * words@.len() {
            word_bytes(words@).take(size as int)
        } else {
            word_bytes(words@)
        },
{
    let mut bytes: Vec<u8> = Vec::new();
    let mut word: usize = 0;
    while word < words.len() && bytes.len() < size
        invariant
            word <= words.len(),
            bytes@.len() <= size,
            bytes@.len() == 2 * word || (bytes@.len() == size && bytes@.len() == 2 * word - 1),
            forall|k: int|
                0 <= k < bytes@.len() ==> #[trigger] bytes@[k] == word_bytes(words@)[k],
        decreases words.len() - word,
    {
        let w: u32 = words[word];
        assert(word_bytes(words@)[2 * word as int] == (w % 256) as u8);
        bytes.push((w % 256) as u8);
        if bytes.len() < size {
            assert(word_bytes(words@)[2 * word as int + 1] == ((w / 256) % 256) as u8);
            bytes.push(((w / 256) % 256) as u8);
        }
        word += 1;
    }
    assert(bytes@ =~= if size < 2 * words@.len() {
        word_bytes(words@).take(size as int)
    } else {
        word_bytes(words@)
    });
    bytes
}

/// A kernel's words give their low sixteen bits each: two bytes, the lower first.
pub proof fn law_words_give_sixteen_bits(words: Seq<u32>, k: int)
    requires
        0 <= k < words.len(),
    ensures
        word_bytes(words).len() == 2 * words.len(),
        word_bytes(words)[2 * k] + 256 * word_bytes(words)[2 * k + 1] == words[k] % 65536,
{
    let word = words[k];
    assert((2 * k) / 2 == k && (2 * k) % 2 == 0);
    assert((2 * k + 1) / 2 == k && (2 * k + 1) % 2 == 1);
    assert(word % 65536 == word % 256 + 256 * ((word / 256) % 256));
}

/// The listing names every device that each platform lists, under the platform's and the device's
/// number, and nothing else.
pub proof fn law_every_device_is_listed(platforms: Seq<OclPlatform>, count: int, entry: EntryView)
    requires
        0 <= count <= platforms.len(),
    ensures
        all_entries(platforms, count).contains(entry) <==> {
            &&& 0 <= entry.0 < count
            &&& 0 <= entry.1 < platforms[entry.0].listed().len()
            &&& entry.2 == told(platforms[entry.0].listed()[entry.1].name, "Unknown"@)
            &&& entry.3 == told(platforms[entry.0].listed()[entry.1].kind, "Unknown"@)
        },
    decreases count,
{
    let all = all_entries(platforms, count);
    if count > 0 {
        law_every_device_is_listed(platforms, count - 1, entry);
        let before = all_entries(platforms, count - 1);
        let own = platform_entries(count - 1, platforms[count - 1].listed());
        if all.contains(entry) {
            let k = choose|k: int| 0 <= k < all.len() && all[k] == entry;
            if k < before.len() {
                assert(before[k] == entry);
            } else {
                assert(own[k - before.len()] == entry);
            }
        }
        if before.contains(entry) {
            let k = choose|k: int| 0 <= k < before.len() && before[k] == entry;
            assert(all[k] == entry);
        }
        if entry.0 == count - 1 && 0 <= entry.1 < own.len() && entry == own[entry.1] {
            assert(all[before.len() + entry.1] == entry);
        }
    }
}

/// A device that is asked for and listed is used. Otherwise a graphics processor is used wherever
/// there is one, of the first platform that has one, and nothing only where no platform has any
/// device.
pub proof fn law_a_device_is_found(
    platforms: Seq<OclPlatform>,
    platform_idx: usize,
    device_idx: usize,
    place: Option<DevicePlace>,
)
    requires
        is_chosen(platforms, platform_idx, device_idx, place),
    ensures
        platform_idx < platforms.len() && device_idx < platforms[platform_idx as int].listed().len()
            ==> place == Some(
            DevicePlace::Listed { platform: platform_idx, device: device_idx },
        ),
        (exists|i: int|
            0 <= i < platforms.len() && ((#[trigger] platforms[i]).gpus matches Some(gpus)
                && gpus@.len() > 0)) ==> (place matches Some(p) && !(p is FirstAny)),
        (exists|i: int|
            0 <= i < platforms.len() && ((#[trigger] platforms[i]).all matches Some(all)
                && all@.len() > 0)) ==> place is Some,
        place matches Some(DevicePlace::FirstGpu { platform }) ==> {
            &&& platform < platforms.len()
            &&& platforms[platform as int].gpus matches Some(gpus) && gpus@.len() > 0
            &&& forall|i: int|
                0 <= i < platform ==> ((#[trigger] platforms[i]).gpus matches Some(gpus)
                    ==> gpus@.len() == 0)
        },
        place matches Some(DevicePlace::FirstAny { platform }) ==> {
            &&& platform < platforms.len()
            &&& platforms[platform as int].all matches Some(all) && all@.len() > 0
            &&& forall|i: int|
                0 <= i < platform ==> ((#[trigger] platforms[i]).all matches Some(all) ==> all@.len()
                    == 0)
        },
        place matches Some(DevicePlace::Listed { platform, device }) ==> platform == platform_idx
            && device == device_idx,
{
    if exists|i: int|
        0 <= i < platforms.len() && ((#[trigger] platforms[i]).gpus matches Some(gpus) && gpus@.len()
            > 0) {
        let i = choose|i: int|
            0 <= i < platforms.len() && ((#[trigger] platforms[i]).gpus matches Some(gpus)
                && gpus@.len() > 0);
        assert(has_gpu(platforms[i]));
    }
    if exists|i: int|
        0 <= i < platforms.len() && ((#[trigger] platforms[i]).all matches Some(all) && all@.len()
            > 0) {
        let i = choose|i: int|
            0 <= i < platforms.len() && ((#[trigger] platforms[i]).all matches Some(all)
                && all@.len() > 0);
        assert(has_any(platforms[i]));
    }
}

} // verus!
