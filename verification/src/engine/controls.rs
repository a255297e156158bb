//! The controls of the engine.

use super::logbook::noted;
use super::state::{fresh_target, ChaosEngine, HeadscaleState, P2PConfig, SharedState};
use crate::binary64::{lemma_sizes_ordered, size_in_units, Binary64};
use crate::config::{
    live_harvesters, sources_of, switch_safe, DetectedDevices, DevicesConfig, GuitarState,
    HarvesterStates, HeadscaleTarget, NetworkConfig, NullMagnetConfig, PqcConfig,
};
use crate::crypto::{wipe_block, wipe_vec};
use crate::hexcode::{hex_bytes, hex_decode};
use crate::text::{
    append_decimal, capitals, is_plain, law_case_makes_no_difference, numeral, occurs_at, same_text,
    text_at, to_upper, trim_leading, trim_space, trimmed, uppercase, without_leading,
};
use vstd::prelude::*;

verus! {

/// The port of an uplink target for which none is given.
pub const DEFAULT_UPLINK_PORT: u16 = 8000;

/// Bytes in the key that peers authenticate with.
pub const HMAC_KEY_LEN: usize = 32;

/// The bit pattern of 0.1, the least audio gain.
pub const LEAST_GAIN: u64 = 0x3fb9_9999_9999_999a;

/// The bit pattern of 10.0, the greatest audio gain.
pub const GREATEST_GAIN: u64 = 0x4024_0000_0000_0000;

/// The harvesters that can be switched by name.
#[derive(Clone, Copy, PartialEq, Eq, Structural, Debug)]
pub enum Harvester {
    Trng,
    Audio,
    System,
    Mouse,
    Video,
    GpuCuda,
    GpuOcl,
    Wifi,
    UsbSerial,
    BtPassive,
    BtActive,
}

/// The harvester that goes by a name in capitals.
#[verifier::opaque]
pub open spec fn harvester_named(name: Seq<char>) -> Option<Harvester> {
    if name == "TRNG"@ || name == "HARDWARE/TRNG"@ {
        Some(Harvester::Trng)
    } else if name == "AUDIO"@ || name == "AUDIO (MIC)"@ {
        Some(Harvester::Audio)
    } else if name == "SYS"@ || name == "SYSTEM"@ || name == "SYSTEM/CPU"@ {
        Some(Harvester::System)
    } else if name == "MOUSE"@ || name == "HID (MOUSE)"@ {
        Some(Harvester::Mouse)
    } else if name == "VIDEO"@ || name == "VIDEO (CAM)"@ {
        Some(Harvester::Video)
    } else if name == "GPU_CUDA"@ || name == "GPU (CUDA)"@ {
        Some(Harvester::GpuCuda)
    } else if name == "GPU_OCL"@ || name == "GPU (OPENCL)"@ {
        Some(Harvester::GpuOcl)
    } else if name == "WIFI"@ || name == "WIFI NOISE"@ {
        Some(Harvester::Wifi)
    } else if name == "USB_SERIAL"@ || name == "USB SERIAL"@ {
        Some(Harvester::UsbSerial)
    } else if name == "BT_PASSIVE"@ || name == "BT PASSIVE"@ {
        Some(Harvester::BtPassive)
    } else if name == "BT_ACTIVE"@ || name == "BT ACTIVE"@ {
        Some(Harvester::BtActive)
    } else {
        None
    }
}

/// Finds the harvester that goes by a name in capitals.
pub fn find_harvester(name: &str) -> (harvester: Option<Harvester>)
    ensures
        harvester == harvester_named(name@),
{
    reveal(harvester_named);
    if same_text(name, "TRNG") || same_text(name, "HARDWARE/TRNG") {
        Some(Harvester::Trng)
    } else if same_text(name, "AUDIO") || same_text(name, "AUDIO (MIC)") {
        Some(Harvester::Audio)
    } else if same_text(name, "SYS") || same_text(name, "SYSTEM") || same_text(name, "SYSTEM/CPU") {
        Some(Harvester::System)
    } else if same_text(name, "MOUSE") || same_text(name, "HID (MOUSE)") {
        Some(Harvester::Mouse)
    } else if same_text(name, "VIDEO") || same_text(name, "VIDEO (CAM)") {
        Some(Harvester::Video)
    } else if same_text(name, "GPU_CUDA") || same_text(name, "GPU (CUDA)") {
        Some(Harvester::GpuCuda)
    } else if same_text(name, "GPU_OCL") || same_text(name, "GPU (OPENCL)") {
        Some(Harvester::GpuOcl)
    } else if same_text(name, "WIFI") || same_text(name, "WIFI NOISE") {
        Some(Harvester::Wifi)
    } else if same_text(name, "USB_SERIAL") || same_text(name, "USB SERIAL") {
        Some(Harvester::UsbSerial)
    } else if same_text(name, "BT_PASSIVE") || same_text(name, "BT PASSIVE") {
        Some(Harvester::BtPassive)
    } else if same_text(name, "BT_ACTIVE") || same_text(name, "BT ACTIVE") {
        Some(Harvester::BtActive)
    } else {
        None
    }
}

/// The harvesters with one of them switched.
#[verifier::opaque]
pub open spec fn switched(
    states: HarvesterStates,
    harvester: Harvester,
    active: bool,
) -> HarvesterStates {
    match harvester {
        Harvester::Trng => HarvesterStates { trng: active, ..states },
        Harvester::Audio => HarvesterStates { audio: active, ..states },
        Harvester::System => HarvesterStates { system: active, ..states },
        Harvester::Mouse => HarvesterStates { mouse: active, ..states },
        Harvester::Video => HarvesterStates { video: active, ..states },
        Harvester::GpuCuda => HarvesterStates { gpu_cuda: active, ..states },
        Harvester::GpuOcl => HarvesterStates { gpu_ocl: active, ..states },
        Harvester::Wifi => HarvesterStates { wifi: active, ..states },
        Harvester::UsbSerial => HarvesterStates { usb_serial: active, ..states },
        Harvester::BtPassive => HarvesterStates { bt_passive: active, ..states },
        Harvester::BtActive => HarvesterStates { bt_active: active, ..states },
    }
}

/// The harvesters after a switch by name, in any case of letters. A name that is no harvester's
/// changes none.
pub open spec fn switched_by_name(
    states: HarvesterStates,
    name: Seq<char>,
    active: bool,
) -> HarvesterStates {
    match harvester_named(uppercase(name)) {
        Some(harvester) => switched(states, harvester, active),
        None => states,
    }
}

/// Whether the guitar at an index is the first whose name in capitals is `name`.
pub open spec fn first_guitar(guitars: Seq<GuitarState>, name: Seq<char>, at: int) -> bool {
    &&& 0 <= at < guitars.len()
    &&& uppercase(guitars[at].name@) == name
    &&& forall|i: int| 0 <= i < at ==> uppercase(#[trigger] guitars[i].name@) != name
}

/// The guitars with the first of that name in capitals switched, all as they were where there is
/// none.
pub open spec fn guitars_switched(
    before: Seq<GuitarState>,
    name: Seq<char>,
    active: bool,
    after: Seq<GuitarState>,
) -> bool {
    ||| exists|at: int| #[trigger]
        first_guitar(before, name, at) && after == before.update(
            at,
            GuitarState { enabled: active, ..before[at] },
        )
    ||| after == before && forall|i: int|
        0 <= i < before.len() ==> uppercase(#[trigger] before[i].name@) != name
}

/// Whether switching by name starts the mouse hook: the mouse is switched on for the first time.
pub open spec fn starts_mouse_hook(state: SharedState, name: Seq<char>, active: bool) -> bool {
    &&& harvester_named(uppercase(name)) == Some(Harvester::Mouse)
    &&& active
    &&& !state.mouse_harvester_started
}

/// The message about a switch.
pub open spec fn toggle_message(name: Seq<char>, active: bool, hook_starts: bool) -> Seq<char> {
    "Toggle: "@ + name + " -> "@ + (if active {
        "Active"@
    } else {
        "Inactive"@
    }) + (if hook_starts {
        " (hook starting)"@
    } else {
        ""@
    })
}

/// A label that tells on from off.
pub open spec fn on_off(active: bool, on: Seq<char>, off: Seq<char>) -> Seq<char> {
    if active {
        on
    } else {
        off
    }
}

/// The message about the switching of a vault node.
pub open spec fn target_switch_message(target: HeadscaleTarget, active: bool) -> Seq<char> {
    "HEADSCALE: "@ + target.name@ + " -> "@ + on_off(active, "ENABLED"@, "DISABLED"@) + " ("@
        + target.ip@ + ":"@ + numeral(target.port as nat) + ")"@
}

/// Whether one state is another after the vault node at an index was switched. Nothing happens where
/// there is none.
pub open spec fn target_switched(
    before: SharedState,
    index: usize,
    active: bool,
    after: SharedState,
) -> bool {
    if index < before.headscale_targets@.len() {
        let node = before.headscale_targets@[index as int];
        &&& after == (SharedState {
            headscale_targets: after.headscale_targets,
            logs: after.logs,
            ..before
        })
        &&& after.headscale_targets@ == before.headscale_targets@.update(
            index as int,
            HeadscaleState {
                target: HeadscaleTarget { enabled: active, ..node.target },
                ..node
            },
        )
        &&& noted(before.logs@, target_switch_message(node.target, active), after.logs@)
    } else {
        after == before
    }
}

/// Whether one state is another after a vault node was added.
pub open spec fn target_added(
    before: SharedState,
    target: HeadscaleTarget,
    after: SharedState,
) -> bool {
    &&& after == (SharedState {
        headscale_targets: after.headscale_targets,
        logs: after.logs,
        ..before
    })
    &&& after.headscale_targets@ == before.headscale_targets@.push(fresh_target(target))
    &&& noted(
        before.logs@,
        "HEADSCALE: Added target "@ + target.name@ + " @ "@ + target.ip@ + ":"@ + numeral(
            target.port as nat,
        ),
        after.logs@,
    )
}

/// Whether one state is another after the vault node at an index was removed. Nothing happens where
/// there is none.
pub open spec fn target_removed(before: SharedState, index: usize, after: SharedState) -> bool {
    if index < before.headscale_targets@.len() {
        &&& after == (SharedState {
            headscale_targets: after.headscale_targets,
            logs: after.logs,
            ..before
        })
        &&& after.headscale_targets@ == before.headscale_targets@.remove(index as int)
        &&& noted(
            before.logs@,
            "HEADSCALE: Removed target "@ + before.headscale_targets@[index as int].target.name@,
            after.logs@,
        )
    } else {
        after == before
    }
}

/// Whether one state is another after a text was given as the key that peers authenticate with, and
/// this is the outcome.
pub open spec fn peers_key_set(
    before: SharedState,
    key_hex: Seq<char>,
    outcome: Result<(), KeyRefusal>,
    after: SharedState,
) -> bool {
    match hex_bytes(trimmed(key_hex)) {
        None => outcome == Err::<(), _>(KeyRefusal::NotHex) && after == before,
        Some(key) => if key.len() != HMAC_KEY_LEN {
            outcome == Err::<(), _>(KeyRefusal::WrongLength) && after == before
        } else {
            &&& outcome == Ok::<_, KeyRefusal>(())
            &&& after == (SharedState {
                p2p_config: P2PConfig {
                    hmac_key: after.p2p_config.hmac_key,
                    ..before.p2p_config
                },
                logs: after.logs,
                ..before
            })
            &&& after.p2p_config.hmac_key matches Some(kept) && kept@ == key
            &&& noted(before.logs@, "P2P: HMAC authentication ENABLED"@, after.logs@)
        },
    }
}

/// Whether one state is another after a peer was added. One that is already listed changes nothing.
pub open spec fn peer_added(before: SharedState, peer: String, after: SharedState) -> bool {
    if lists_peer(before.p2p_config.peers@, peer@) {
        after == before
    } else {
        &&& after == (SharedState {
            p2p_config: P2PConfig { peers: after.p2p_config.peers, ..before.p2p_config },
            logs: after.logs,
            ..before
        })
        &&& after.p2p_config.peers@ == before.p2p_config.peers@.push(peer)
        &&& noted(before.logs@, "P2P: Added peer "@ + peer@, after.logs@)
    }
}

/// Whether one state is another after all safe harvesters and all guitars were switched.
pub open spec fn live_mode_set(before: SharedState, active: bool, after: SharedState) -> bool {
    &&& after == (SharedState {
        live_mode: active,
        harvester_states: live_harvesters(
            before.harvester_states,
            before.gpu_cuda_available,
            before.gpu_ocl_available,
            active,
        ),
        guitar_states: after.guitar_states,
        logs: after.logs,
        ..before
    })
    &&& after.guitar_states@ == before.guitar_states@.map_values(
        |g: GuitarState| GuitarState { enabled: active, ..g },
    )
    &&& noted(
        before.logs@,
        "LIVE MODE -> "@ + on_off(active, "ON — all harvesters enabled"@, "OFF"@),
        after.logs@,
    )
}

/// Why a key that peers should authenticate with is refused.
#[derive(Clone, Copy, PartialEq, Eq, Structural, Debug)]
pub enum KeyRefusal {
    /// It is not hexadecimal.
    NotHex,
    /// It does not have 32 bytes.
    WrongLength,
}

impl KeyRefusal {
    /// The refusal as a line of text.
    pub fn message(&self) -> (line: &'static str)
        ensures
            line@ == match self {
                KeyRefusal::NotHex => "Invalid hex key"@,
                KeyRefusal::WrongLength => "HMAC key must be 32 bytes"@,
            },
    {
        match self {
            KeyRefusal::NotHex => "Invalid hex key",
            KeyRefusal::WrongLength => "HMAC key must be 32 bytes",
        }
    }
}

impl ChaosEngine {
    /// Switches a harvester or a guitar by its name, in any case of letters. A guitar goes by
    /// `GUITAR_` and its name. Tells whether the mouse hook has to be started.
    pub fn toggle_harvester(&mut self, name: &str, active: bool) -> (start_mouse: bool)
        ensures
            old(self).state.wf() ==> final(self).state.wf(),
            start_mouse == starts_mouse_hook(old(self).state, name@, active),
            *final(self) == (ChaosEngine { state: final(self).state, ..*old(self) }),
            final(self).state == (SharedState {
                harvester_states: switched_by_name(
                    old(self).state.harvester_states,
                    name@,
                    active,
                ),
                mouse_harvester_started: old(self).state.mouse_harvester_started || start_mouse,
                guitar_states: final(self).state.guitar_states,
                logs: final(self).state.logs,
                ..old(self).state
            }),
            if harvester_named(uppercase(name@)) is None && occurs_at(
                uppercase(name@),
                "GUITAR_"@,
                0,
            ) {
                guitars_switched(
                    old(self).state.guitar_states@,
                    without_leading(uppercase(name@), "GUITAR_"@),
                    active,
                    final(self).state.guitar_states@,
                )
            } else {
                final(self).state.guitar_states == old(self).state.guitar_states
            },
            noted(
                old(self).state.logs@,
                toggle_message(name@, active, start_mouse),
                final(self).state.logs@,
            ),
    {
        let upper: String = to_upper(name);
        let mut start_mouse: bool = false;
        match find_harvester(upper.as_str()) {
            Some(harvester) => {
                self.state.harvester_states = switch_harvester(
                    self.state.harvester_states,
                    harvester,
                    active,
                );
                if harvester == Harvester::Mouse && active && !self.state.mouse_harvester_started {
                    self.state.mouse_harvester_started = true;
                    start_mouse = true;
                }
            },
            None => {
                if text_at(upper.as_str(), "GUITAR_", 0) {
                    let guitar: &str = trim_leading(upper.as_str(), "GUITAR_");
                    switch_guitar(&mut self.state.guitar_states, guitar, active);
                }
            },
        }
        let message: String = write_toggle_message(name, active, start_mouse);
        self.state.logs.note(message.as_str());
        start_mouse
    }

    /// Switches the uplink.
    pub fn toggle_uplink(&mut self, active: bool)
        ensures
            old(self).state.wf() ==> final(self).state.wf(),
            *final(self) == (ChaosEngine { state: final(self).state, ..*old(self) }),
            final(self).state == (SharedState {
                net_mode: active,
                logs: final(self).state.logs,
                ..old(self).state
            }),
            noted(
                old(self).state.logs@,
                "Network Uplink -> "@ + on_off(active, "ENABLED"@, "PAUSED"@),
                final(self).state.logs@,
            ),
    {
        self.state.net_mode = active;
        let message: String = switch_message("Network Uplink -> ", active, "ENABLED", "PAUSED");
        self.state.logs.note(message.as_str());
    }

    /// Sets where the uplink sends to. A port of zero stands for 8000.
    pub fn set_uplink_target(&mut self, ip: String, port: u16)
        ensures
            old(self).state.wf() ==> final(self).state.wf(),
            *final(self) == (ChaosEngine { state: final(self).state, ..*old(self) }),
            final(self).state == (SharedState {
                uplink_url: final(self).state.uplink_url,
                logs: final(self).state.logs,
                ..old(self).state
            }),
            ({
                let chosen = if port == 0 {
                    DEFAULT_UPLINK_PORT
                } else {
                    port
                };
                &&& final(self).state.uplink_url@ == "http://"@ + ip@ + ":"@ + numeral(chosen as nat)
                    + "/entropy"@
                &&& noted(
                    old(self).state.logs@,
                    "NET: Uplink target set to "@ + ip@ + ":"@ + numeral(chosen as nat),
                    final(self).state.logs@,
                )
            }),
    {
        let chosen: u16 = if port == 0 {
            DEFAULT_UPLINK_PORT
        } else {
            port
        };
        let mut url: String = "http://".to_owned();
        url.append(ip.as_str());
        url.append(":");
        append_decimal(&mut url, chosen as u64);
        url.append("/entropy");
        self.state.uplink_url = url;
        let mut message: String = "NET: Uplink target set to ".to_owned();
        message.append(ip.as_str());
        message.append(":");
        append_decimal(&mut message, chosen as u64);
        self.state.logs.note(message.as_str());
    }

    /// Switches a vault node. Nothing happens where there is none at that index.
    pub fn toggle_headscale(&mut self, index: usize, active: bool)
        ensures
            old(self).state.wf() ==> final(self).state.wf(),
            *final(self) == (ChaosEngine { state: final(self).state, ..*old(self) }),
            target_switched(old(self).state, index, active, final(self).state),
    {
        if index < self.state.headscale_targets.len() {
            let mut changed: HeadscaleState = self.state.headscale_targets[index].clone();
            changed.target.enabled = active;
            let mut message: String = "HEADSCALE: ".to_owned();
            message.append(changed.target.name.as_str());
            message.append(" -> ");
            message.append(
                if active {
                    "ENABLED"
                } else {
                    "DISABLED"
                },
            );
            message.append(" (");
            message.append(changed.target.ip.as_str());
            message.append(":");
            append_decimal(&mut message, changed.target.port as u64);
            message.append(")");
            self.state.headscale_targets.set(index, changed);
            self.state.logs.note(message.as_str());
        }
    }

    /// Adds a vault node, switched on.
    pub fn add_headscale_target(&mut self, name: String, ip: String, port: u16)
        ensures
            old(self).state.wf() ==> final(self).state.wf(),
            *final(self) == (ChaosEngine { state: final(self).state, ..*old(self) }),
            target_added(
                old(self).state,
                (HeadscaleTarget { name, ip, port, enabled: true }),
                final(self).state,
            ),
    {
        let mut message: String = "HEADSCALE: Added target ".to_owned();
        message.append(name.as_str());
        message.append(" @ ");
        message.append(ip.as_str());
        message.append(":");
        append_decimal(&mut message, port as u64);
        let target = HeadscaleTarget { name, ip, port, enabled: true };
        self.state.headscale_targets.push(HeadscaleState::from_target(&target));
        self.state.logs.note(message.as_str());
    }

    /// Removes a vault node. Nothing happens where there is none at that index.
    pub fn remove_headscale_target(&mut self, index: usize)
        ensures
            old(self).state.wf() ==> final(self).state.wf(),
            *final(self) == (ChaosEngine { state: final(self).state, ..*old(self) }),
            target_removed(old(self).state, index, final(self).state),
    {
        if index < self.state.headscale_targets.len() {
            let removed: HeadscaleState = self.state.headscale_targets.remove(index);
            let mut message: String = "HEADSCALE: Removed target ".to_owned();
            message.append(removed.target.name.as_str());
            self.state.logs.note(message.as_str());
        }
    }

    /// Switches the exchange with peers.
    pub fn toggle_p2p(&mut self, active: bool)
        ensures
            old(self).state.wf() ==> final(self).state.wf(),
            *final(self) == (ChaosEngine { state: final(self).state, ..*old(self) }),
            final(self).state == (SharedState {
                p2p_config: P2PConfig { active, ..old(self).state.p2p_config },
                logs: final(self).state.logs,
                ..old(self).state
            }),
            noted(
                old(self).state.logs@,
                "P2P Mode -> "@ + on_off(active, "ENABLED"@, "PAUSED"@),
                final(self).state.logs@,
            ),
    {
        self.state.p2p_config.active = active;
        let message: String = switch_message("P2P Mode -> ", active, "ENABLED", "PAUSED");
        self.state.logs.note(message.as_str());
    }

    /// Sets the key that peers authenticate with: 32 bytes in hexadecimal. White space around the
    /// text does not count.
    pub fn set_p2p_hmac_key(&mut self, key_hex: String) -> (outcome: Result<(), KeyRefusal>)
        ensures
            old(self).state.wf() ==> final(self).state.wf(),
            *final(self) == (ChaosEngine { state: final(self).state, ..*old(self) }),
            peers_key_set(old(self).state, key_hex@, outcome, final(self).state),
    {
        match hex_decode(trim_space(key_hex.as_str())) {
            None => Err(KeyRefusal::NotHex),
            Some(key) => {
                if key.len() != HMAC_KEY_LEN {
                    return Err(KeyRefusal::WrongLength);
                }
                self.state.p2p_config.hmac_key = Some(key);
                self.state.logs.note("P2P: HMAC authentication ENABLED");
                Ok(())
            },
        }
    }

    /// Adds a peer, unless it is already there.
    pub fn add_peer(&mut self, peer_addr: String)
        ensures
            old(self).state.wf() ==> final(self).state.wf(),
            *final(self) == (ChaosEngine { state: final(self).state, ..*old(self) }),
            peer_added(old(self).state, peer_addr, final(self).state),
    {
        let mut i: usize = 0;
        while i < self.state.p2p_config.peers.len()
            invariant
                i <= self.state.p2p_config.peers.len(),
                *self == *old(self),
                forall|j: int|
                    0 <= j < i ==> #[trigger] self.state.p2p_config.peers@[j]@ != peer_addr@,
            decreases self.state.p2p_config.peers.len() - i,
        {
            if same_text(self.state.p2p_config.peers[i].as_str(), peer_addr.as_str()) {
                assert(self.state.p2p_config.peers@[i as int]@ == peer_addr@);
                return;
            }
            i += 1;
        }
        let mut message: String = "P2P: Added peer ".to_owned();
        message.append(peer_addr.as_str());
        self.state.p2p_config.peers.push(peer_addr);
        self.state.logs.note(message.as_str());
    }

    /// Switches minting unasked.
    pub fn set_auto_mint(&mut self, enabled: bool)
        ensures
            old(self).state.wf() ==> final(self).state.wf(),
            *final(self) == (ChaosEngine { state: final(self).state, ..*old(self) }),
            final(self).state == (SharedState {
                auto_mint_enabled: enabled,
                logs: final(self).state.logs,
                ..old(self).state
            }),
            noted(
                old(self).state.logs@,
                "AUTO-MINT -> "@ + on_off(enabled, "ENABLED"@, "DISABLED"@) + " (threshold: "@
                    + numeral(old(self).state.mint_threshold.whole() as nat) + " credited bits)"@,
                final(self).state.logs@,
            ),
    {
        self.state.auto_mint_enabled = enabled;
        let mut message: String = switch_message("AUTO-MINT -> ", enabled, "ENABLED", "DISABLED");
        message.append(" (threshold: ");
        append_decimal(&mut message, self.state.mint_threshold.whole_part() as u64);
        message.append(" credited bits)");
        self.state.logs.note(message.as_str());
    }

    /// Picks the audio input.
    pub fn set_audio_device(&mut self, index: usize)
        ensures
            old(self).state.wf() ==> final(self).state.wf(),
            *final(self) == (ChaosEngine {
                state: SharedState { audio_device_index: Some(index), ..old(self).state },
                ..*old(self)
            }),
    {
        self.state.audio_device_index = Some(index);
    }

    /// Sets the factor on audio samples, no less than 0.1 and no more than 10.
    pub fn set_audio_gain(&mut self, gain: Binary64)
        ensures
            old(self).state.wf() ==> final(self).state.wf(),
            *final(self) == (ChaosEngine {
                state: SharedState { audio_gain: gain_within(gain), ..old(self).state },
                ..*old(self)
            }),
    {
        self.state.audio_gain = gain.larger(Binary64::from_bits(LEAST_GAIN)).smaller(
            Binary64::from_bits(GREATEST_GAIN),
        );
    }

    /// Picks the camera.
    pub fn set_camera_device(&mut self, index: usize)
        ensures
            old(self).state.wf() ==> final(self).state.wf(),
            *final(self) == (ChaosEngine {
                state: SharedState { camera_device_index: index, ..old(self).state },
                ..*old(self)
            }),
    {
        self.state.camera_device_index = index;
    }

    /// Picks the serial port and its speed.
    pub fn set_usb_serial_port(&mut self, port: String, baud: u32)
        ensures
            old(self).state.wf() ==> final(self).state.wf(),
            *final(self) == (ChaosEngine {
                state: SharedState {
                    usb_serial_port: port,
                    usb_serial_baud: baud,
                    ..old(self).state
                },
                ..*old(self)
            }),
    {
        self.state.usb_serial_port = port;
        self.state.usb_serial_baud = baud;
    }

    /// Picks the wireless interface.
    pub fn set_wifi_interface(&mut self, iface: String)
        ensures
            old(self).state.wf() ==> final(self).state.wf(),
            *final(self) == (ChaosEngine {
                state: SharedState { wifi_interface: iface, ..old(self).state },
                ..*old(self)
            }),
    {
        self.state.wifi_interface = iface;
    }

    /// Switches all safe harvesters at once: every one but the mouse and active Bluetooth, and a
    /// graphics processor only where there is one.
    pub fn set_live_mode(&mut self, active: bool)
        ensures
            old(self).state.wf() ==> final(self).state.wf(),
            *final(self) == (ChaosEngine { state: final(self).state, ..*old(self) }),
            live_mode_set(old(self).state, active, final(self).state),
    {
        self.state.live_mode = active;
        self.state.harvester_states = switch_safe(
            self.state.harvester_states,
            self.state.gpu_cuda_available,
            self.state.gpu_ocl_available,
            active,
        );
        switch_all_guitars(&mut self.state.guitar_states, active);
        let message: String = switch_message(
            "LIVE MODE -> ",
            active,
            "ON — all harvesters enabled",
            "OFF",
        );
        self.state.logs.note(message.as_str());
    }

    /// Brings the settings up to date with the state.
    pub fn save_config(&mut self)
        ensures
            old(self).state.wf() ==> final(self).state.wf(),
            *final(self) == (ChaosEngine { config: final(self).config, ..*old(self) }),
            config_saved(old(self).config, old(self).state, final(self).config),
    {
        self.config.sources = self.state.harvester_states.to_config();
        self.config.network.uplink_enabled = self.state.net_mode;
        self.config.network.uplink_url = self.state.uplink_url.clone();
        self.config.network.p2p_enabled = self.state.p2p_config.active;
        self.config.network.headscale_targets = targets_in(&self.state.headscale_targets);
        self.config.pqc.auto_mint = self.state.auto_mint_enabled;
        self.config.devices.audio_gain = self.state.audio_gain;
        self.config.devices.wifi_interface = self.state.wifi_interface.clone();
        self.config.devices.usb_serial_port = self.state.usb_serial_port.clone();
        self.config.devices.usb_serial_baud = self.state.usb_serial_baud;
    }

    /// Stops the engine: the settings are brought up to date and every secret is overwritten.
    pub fn shutdown(&mut self)
        ensures
            old(self).state.wf() ==> final(self).state.wf(),
            *final(self) == (ChaosEngine {
                state: final(self).state,
                running: false,
                config: final(self).config,
            }),
            config_saved(old(self).config, old(self).state, final(self).config),
            final(self).state == (SharedState {
                falcon_sk: final(self).state.falcon_sk,
                pool: final(self).state.pool,
                p2p_config: P2PConfig {
                    hmac_key: final(self).state.p2p_config.hmac_key,
                    ..old(self).state.p2p_config
                },
                logs: final(self).state.logs,
                ..old(self).state
            }),
            secrets_wiped(final(self).state),
            final(self).state.p2p_config.hmac_key is Some <==> old(
                self,
            ).state.p2p_config.hmac_key is Some,
            noted(
                old(self).state.logs@,
                "ENGINE: Shutdown + key zeroization complete"@,
                final(self).state.logs@,
            ),
    {
        self.save_config();
        self.running = false;
        self.state.wipe_secrets();
        self.state.logs.note("ENGINE: Shutdown + key zeroization complete");
    }
}

impl SharedState {
    /// Overwrites the signing key, the pool and the key that peers authenticate with.
    pub fn wipe_secrets(&mut self)
        ensures
            *final(self) == (SharedState {
                falcon_sk: final(self).falcon_sk,
                pool: final(self).pool,
                p2p_config: P2PConfig {
                    hmac_key: final(self).p2p_config.hmac_key,
                    ..old(self).p2p_config
                },
                ..*old(self)
            }),
            secrets_wiped(*final(self)),
            final(self).p2p_config.hmac_key is Some <==> old(self).p2p_config.hmac_key is Some,
    {
        self.falcon_sk.wipe();
        wipe_block(&mut self.pool);
        match self.p2p_config.hmac_key.take() {
            Some(mut key) => {
                wipe_vec(&mut key);
                self.p2p_config.hmac_key = Some(key);
            },
            None => {
                self.p2p_config.hmac_key = None;
            },
        }
    }
}

/// Whether no secret is left: the signing key and the peers' key are empty, the pool is zero.
pub open spec fn secrets_wiped(state: SharedState) -> bool {
    &&& state.falcon_sk@.len() == 0
    &&& forall|i: int| 0 <= i < 32 ==> #[trigger] state.pool@[i] == 0
    &&& state.p2p_config.hmac_key matches Some(key) ==> key@.len() == 0
}

/// Whether settings are earlier ones brought up to date with a state: what can be changed while the
/// engine runs is taken from the state, all else is as it was.
pub open spec fn config_saved(
    before: NullMagnetConfig,
    state: SharedState,
    after: NullMagnetConfig,
) -> bool {
    &&& after == (NullMagnetConfig {
        sources: sources_of(state.harvester_states),
        network: NetworkConfig {
            uplink_enabled: state.net_mode,
            uplink_url: state.uplink_url,
            p2p_enabled: state.p2p_config.active,
            headscale_targets: after.network.headscale_targets,
            ..before.network
        },
        pqc: PqcConfig { auto_mint: state.auto_mint_enabled, ..before.pqc },
        devices: DevicesConfig {
            audio_gain: state.audio_gain,
            wifi_interface: state.wifi_interface,
            usb_serial_port: state.usb_serial_port,
            usb_serial_baud: state.usb_serial_baud,
            ..before.devices
        },
        ..before
    })
    &&& after.network.headscale_targets@ == state.headscale_targets@.map_values(
        |t: HeadscaleState| t.target,
    )
}

/// Whether a peer is already listed.
pub open spec fn lists_peer(peers: Seq<String>, peer: Seq<char>) -> bool {
    exists|i: int| 0 <= i < peers.len() && #[trigger] peers[i]@ == peer
}

/// An audio gain, no less than 0.1 and no more than 10. What is no number counts as 0.1.
pub open spec fn gain_within(gain: Binary64) -> Binary64 {
    let least = Binary64 { bits: LEAST_GAIN };
    let greatest = Binary64 { bits: GREATEST_GAIN };
    let raised = if gain.is_nan() || gain.units() < least.units() {
        least
    } else {
        gain
    };
    if raised.units() > greatest.units() {
        greatest
    } else {
        raised
    }
}

fn switch_harvester(before: HarvesterStates, harvester: Harvester, active: bool) -> (after:
    HarvesterStates)
    ensures
        after == switched(before, harvester, active),
{
    reveal(switched);
    let mut after: HarvesterStates = before;
    match harvester {
        Harvester::Trng => after.trng = active,
        Harvester::Audio => after.audio = active,
        Harvester::System => after.system = active,
        Harvester::Mouse => after.mouse = active,
        Harvester::Video => after.video = active,
        Harvester::GpuCuda => after.gpu_cuda = active,
        Harvester::GpuOcl => after.gpu_ocl = active,
        Harvester::Wifi => after.wifi = active,
        Harvester::UsbSerial => after.usb_serial = active,
        Harvester::BtPassive => after.bt_passive = active,
        Harvester::BtActive => after.bt_active = active,
    }
    after
}

fn write_toggle_message(name: &str, active: bool, hook_starts: bool) -> (message: String)
    ensures
        message@ == toggle_message(name@, active, hook_starts),
{
    let mut message: String = "Toggle: ".to_owned();
    message.append(name);
    message.append(" -> ");
    message.append(
        if active {
            "Active"
        } else {
            "Inactive"
        },
    );
    message.append(
        if hook_starts {
            " (hook starting)"
        } else {
            ""
        },
    );
    message
}

fn switch_message(label: &str, active: bool, on: &str, off: &str) -> (message: String)
    ensures
        message@ == label@ + on_off(active, on@, off@),
{
    let mut message: String = label.to_owned();
    message.append(
        if active {
            on
        } else {
            off
        },
    );
    message
}

fn switch_guitar(guitars: &mut Vec<GuitarState>, name: &str, active: bool)
    ensures
        guitars_switched(old(guitars)@, name@, active, final(guitars)@),
{
    let mut i: usize = 0;
    while i < guitars.len()
        invariant
            i <= guitars.len(),
            *guitars == *old(guitars),
            forall|j: int| 0 <= j < i ==> uppercase(#[trigger] guitars@[j].name@) != name@,
        decreases guitars.len() - i,
    {
        let upper: String = to_upper(guitars[i].name.as_str());
        if same_text(upper.as_str(), name) {
            let mut changed: GuitarState = guitars[i].clone();
            changed.enabled = active;
            assert(first_guitar(old(guitars)@, name@, i as int));
            guitars.set(i, changed);
            return;
        }
        i += 1;
    }
}

fn switch_all_guitars(guitars: &mut Vec<GuitarState>, active: bool)
    ensures
        final(guitars)@ == old(guitars)@.map_values(
            |g: GuitarState| GuitarState { enabled: active, ..g },
        ),
{
    let mut i: usize = 0;
    while i < guitars.len()
        invariant
            i <= guitars@.len(),
            guitars@.len() == old(guitars)@.len(),
            forall|j: int|
                0 <= j < i ==> #[trigger] guitars@[j] == (GuitarState {
                    enabled: active,
                    ..old(guitars)@[j]
                }),
            forall|j: int| i <= j < guitars@.len() ==> #[trigger] guitars@[j] == old(guitars)@[j],
        decreases guitars.len() - i,
    {
        let mut changed: GuitarState = guitars[i].clone();
        changed.enabled = active;
        guitars.set(i, changed);
        i += 1;
    }
    assert(guitars@ =~= old(guitars)@.map_values(
        |g: GuitarState| GuitarState { enabled: active, ..g },
    ));
}

fn targets_in(states: &Vec<HeadscaleState>) -> (targets: Vec<HeadscaleTarget>)
    ensures
        targets@ == states@.map_values(|t: HeadscaleState| t.target),
{
    let mut targets: Vec<HeadscaleTarget> = Vec::new();
    let mut i: usize = 0;
    while i < states.len()
        invariant
            i <= states.len(),
            targets@.len() == i,
            forall|j: int| 0 <= j < i ==> #[trigger] targets@[j] == states@[j].target,
        decreases states.len() - i,
    {
        targets.push(states[i].target.clone());
        i += 1;
    }
    assert(targets@ =~= states@.map_values(|t: HeadscaleState| t.target));
    targets
}

/// Whether a harvester is switched on.
pub open spec fn is_on(states: HarvesterStates, harvester: Harvester) -> bool {
    match harvester {
        Harvester::Trng => states.trng,
        Harvester::Audio => states.audio,
        Harvester::System => states.system,
        Harvester::Mouse => states.mouse,
        Harvester::Video => states.video,
        Harvester::GpuCuda => states.gpu_cuda,
        Harvester::GpuOcl => states.gpu_ocl,
        Harvester::Wifi => states.wifi,
        Harvester::UsbSerial => states.usb_serial,
        Harvester::BtPassive => states.bt_passive,
        Harvester::BtActive => states.bt_active,
    }
}

/// Switching a harvester sets that one and leaves every other as it was.
pub proof fn law_switches_are_independent(
    states: HarvesterStates,
    harvester: Harvester,
    other: Harvester,
    active: bool,
)
    ensures
        is_on(switched(states, harvester, active), other) == if other == harvester {
            active
        } else {
            is_on(states, other)
        },
{
    reveal(switched);
}

/// Switching by name sets the harvester that goes by the name and leaves every other as it was.
pub proof fn law_name_switches_one(
    states: HarvesterStates,
    name: Seq<char>,
    other: Harvester,
    active: bool,
)
    ensures
        is_on(switched_by_name(states, name, active), other) == if harvester_named(uppercase(name))
            == Some(other) {
            active
        } else {
            is_on(states, other)
        },
{
    if let Some(harvester) = harvester_named(uppercase(name)) {
        law_switches_are_independent(states, harvester, other, active);
    }
}

/// Names that differ in nothing but the case of plain letters switch the same harvester or guitar,
/// and start the mouse hook alike.
pub proof fn law_case_of_names_is_ignored(
    state: SharedState,
    one: Seq<char>,
    other: Seq<char>,
    active: bool,
)
    requires
        is_plain(one),
        is_plain(other),
        capitals(one) == capitals(other),
    ensures
        switched_by_name(state.harvester_states, one, active) == switched_by_name(
            state.harvester_states,
            other,
            active,
        ),
        starts_mouse_hook(state, one, active) == starts_mouse_hook(state, other, active),
        harvester_named(uppercase(one)) == harvester_named(uppercase(other)),
        occurs_at(uppercase(one), "GUITAR_"@, 0) == occurs_at(uppercase(other), "GUITAR_"@, 0),
        without_leading(uppercase(one), "GUITAR_"@) == without_leading(
            uppercase(other),
            "GUITAR_"@,
        ),
{
    law_case_makes_no_difference(one, other);
}

/// The settings that a state is saved to start an engine that has the state's switches, targets and
/// devices again. Settings that switch all safe harvesters on at the start do so whatever was saved,
/// and are left out.
pub proof fn law_saved_settings_restore(
    before: NullMagnetConfig,
    state: SharedState,
    saved: NullMagnetConfig,
    engine: ChaosEngine,
    devices: DetectedDevices,
    identity: (Seq<u8>, Seq<u8>),
    time: Seq<char>,
)
    requires
        config_saved(before, state, saved),
        !saved.general.auto_start,
        engine.started(saved, devices, identity, time),
    ensures
        engine.state.harvester_states == state.harvester_states,
        engine.state.net_mode == state.net_mode,
        engine.state.uplink_url == state.uplink_url,
        engine.state.p2p_config.active == state.p2p_config.active,
        engine.state.auto_mint_enabled == state.auto_mint_enabled,
        engine.state.audio_gain == state.audio_gain,
        engine.state.wifi_interface == state.wifi_interface,
        engine.state.usb_serial_port == state.usb_serial_port,
        engine.state.usb_serial_baud == state.usb_serial_baud,
        engine.state.headscale_targets@.len() == state.headscale_targets@.len(),
        forall|i: int|
            0 <= i < state.headscale_targets@.len() ==> (
            #[trigger] engine.state.headscale_targets@[i]).target
                == state.headscale_targets@[i].target,
{
    crate::config::law_sources_round_trip(saved.sources, state.harvester_states);
}

/// Switching all safe harvesters switches each of them and leaves those that need a decision of their
/// own, the mouse and active Bluetooth, as they were. A graphics processor is switched only where
/// there is one.
pub proof fn law_safe_harvesters_are_switched(
    before: HarvesterStates,
    cuda: bool,
    ocl: bool,
    active: bool,
    harvester: Harvester,
)
    ensures
        is_on(live_harvesters(before, cuda, ocl, active), harvester) == if harvester
            == Harvester::Mouse || harvester == Harvester::BtActive || (harvester
            == Harvester::GpuCuda && !cuda) || (harvester == Harvester::GpuOcl && !ocl) {
            is_on(before, harvester)
        } else {
            active
        },
{
}

/// A gain that is set lies between 0.1 and 10, and one that does so already is set as it is.
pub proof fn law_gain_is_kept_within(gain: Binary64)
    ensures
        ({
            let least = Binary64 { bits: 0x3fb9_9999_9999_999a };
            let greatest = Binary64 { bits: 0x4024_0000_0000_0000 };
            let set = gain_within(gain);
            &&& set.greater_or_equal(least)
            &&& greatest.greater_or_equal(set)
            &&& gain.greater_or_equal(least) && greatest.greater_or_equal(gain) ==> set == gain
            &&& gain.is_nan() ==> set == least
            &&& least.greater(gain) ==> set == least
            &&& gain.greater(greatest) ==> set == greatest
            &&& gain_within(set) == set
        }),
{
    assert(size_in_units(0x3fb9_9999_9999_999a) <= size_in_units(0x4024_0000_0000_0000)) by {
        lemma_sizes_ordered(0x3fb9_9999_9999_999a, 0x4024_0000_0000_0000);
    }
}

/// Switching a guitar changes the switch of the first with that name and nothing else: not its name,
/// its ports or its counts, and no other guitar.
pub proof fn law_one_guitar_is_switched(
    before: Seq<GuitarState>,
    name: Seq<char>,
    active: bool,
    after: Seq<GuitarState>,
    at: int,
)
    requires
        guitars_switched(before, name, active, after),
        0 <= at < before.len(),
    ensures
        after.len() == before.len(),
        after[at].name == before[at].name,
        after[at].data_port == before[at].data_port,
        after[at].ctrl_port == before[at].ctrl_port,
        after[at].packets_received == before[at].packets_received,
        after[at].bytes_received == before[at].bytes_received,
        after[at].enabled == if uppercase(before[at].name@) == name && forall|i: int|
            0 <= i < at ==> uppercase(#[trigger] before[i].name@) != name {
            active
        } else {
            before[at].enabled
        },
{
    if exists|k: int| #[trigger] first_guitar(before, name, k) && after == before.update(
        k,
        GuitarState { enabled: active, ..before[k] },
    ) {
        let k = choose|k: int| #[trigger]
            first_guitar(before, name, k) && after == before.update(
                k,
                GuitarState { enabled: active, ..before[k] },
            );
        assert(uppercase(before[k].name@) == name);
    }
}

/// Of secrets that were wiped nothing is left: no byte of the signing key, none of the peers' key,
/// and a pool of 32 zeros, the same whatever was in it.
pub proof fn law_no_secret_is_left(one: SharedState, other: SharedState)
    requires
        secrets_wiped(one),
        secrets_wiped(other),
    ensures
        one.falcon_sk@ == Seq::<u8>::empty(),
        one.pool@ == Seq::new(32, |i: int| 0u8),
        one.pool@ == other.pool@,
        one.p2p_config.hmac_key matches Some(key) ==> key@ == Seq::<u8>::empty(),
{
    assert(one.falcon_sk@ =~= Seq::<u8>::empty());
    assert(one.pool@ =~= Seq::new(32, |i: int| 0u8));
    assert(one.pool@ =~= other.pool@);
    if let Some(key) = one.p2p_config.hmac_key {
        assert(key@ =~= Seq::<u8>::empty());
    }
}

/// A peer is listed exactly where its address is among those of the peers.
pub proof fn law_peer_is_listed_by_address(peers: Seq<String>, peer: Seq<char>)
    ensures
        lists_peer(peers, peer) <==> peers.map_values(|p: String| p@).contains(peer),
{
    let addresses = peers.map_values(|p: String| p@);
    if lists_peer(peers, peer) {
        let i = choose|i: int| 0 <= i < peers.len() && #[trigger] peers[i]@ == peer;
        assert(addresses[i] == peer);
    }
    if addresses.contains(peer) {
        let i = choose|i: int| 0 <= i < addresses.len() && addresses[i] == peer;
        assert(peers[i]@ == peer);
    }
}

/// The mouse hook is started by switching the mouse on, whatever the case of its name, and only the
/// first time: not once it was started, not by switching off, and not by any other harvester.
pub proof fn law_mouse_hook_starts_once(state: SharedState, name: Seq<char>, active: bool)
    ensures
        state.mouse_harvester_started || !active ==> !starts_mouse_hook(state, name, active),
        harvester_named(uppercase(name)) != Some(Harvester::Mouse) ==> !starts_mouse_hook(
            state,
            name,
            active,
        ),
        uppercase(name) == "MOUSE"@ || uppercase(name) == "HID (MOUSE)"@ ==> starts_mouse_hook(
            state,
            name,
            active,
        ) == (active && !state.mouse_harvester_started),
{
    reveal(harvester_named);
    reveal_strlit("MOUSE");
    reveal_strlit("HID (MOUSE)");
    reveal_strlit("TRNG");
    reveal_strlit("HARDWARE/TRNG");
    reveal_strlit("AUDIO");
    reveal_strlit("AUDIO (MIC)");
    reveal_strlit("SYS");
    reveal_strlit("SYSTEM");
    reveal_strlit("SYSTEM/CPU");
    assert("MOUSE"@[0] == 'M' && "HID (MOUSE)"@[1] == 'I' && "HARDWARE/TRNG"@[1] == 'A');
    assert("TRNG"@[0] == 'T' && "AUDIO"@[0] == 'A' && "AUDIO (MIC)"@[0] == 'A');
    assert("SYS"@[0] == 'S' && "SYSTEM"@[0] == 'S' && "SYSTEM/CPU"@[0] == 'S');
}

/// Switching a vault node sets its switch and leaves all else: its address, its counts, and every
/// other node.
pub proof fn law_one_target_is_switched(
    before: SharedState,
    index: usize,
    active: bool,
    after: SharedState,
    i: int,
)
    requires
        target_switched(before, index, active, after),
        0 <= i < before.headscale_targets@.len(),
    ensures
        after.headscale_targets@.len() == before.headscale_targets@.len(),
        after.headscale_targets@[i].target.enabled == if i == index {
            active
        } else {
            before.headscale_targets@[i].target.enabled
        },
        after.headscale_targets@[i].target.name == before.headscale_targets@[i].target.name,
        after.headscale_targets@[i].target.ip == before.headscale_targets@[i].target.ip,
        after.headscale_targets@[i].target.port == before.headscale_targets@[i].target.port,
        after.headscale_targets@[i].forwarded_count == before.headscale_targets@[i].forwarded_count,
        after.headscale_targets@[i].last_forward_ts == before.headscale_targets@[i].last_forward_ts,
        after.headscale_targets@[i].reachable == before.headscale_targets@[i].reachable,
        index >= before.headscale_targets@.len() ==> after == before,
{
}

/// Removing the vault node that was added last brings the earlier list back. Of any list, removing a
/// node takes that one out and keeps all others in their order.
pub proof fn law_added_target_can_be_removed(
    before: SharedState,
    target: HeadscaleTarget,
    added: SharedState,
    index: usize,
    after: SharedState,
)
    requires
        target_added(before, target, added),
        target_removed(added, index, after),
    ensures
        added.headscale_targets@.len() == before.headscale_targets@.len() + 1,
        added.headscale_targets@.last().target == target,
        added.headscale_targets@.last().forwarded_count == 0,
        index == before.headscale_targets@.len() ==> after.headscale_targets@
            == before.headscale_targets@,
        index < added.headscale_targets@.len() ==> after.headscale_targets@
            == added.headscale_targets@.take(index as int) + added.headscale_targets@.skip(
            index + 1,
        ),
        index >= added.headscale_targets@.len() ==> after == added,
{
    if index < added.headscale_targets@.len() {
        assert(after.headscale_targets@ =~= added.headscale_targets@.take(index as int)
            + added.headscale_targets@.skip(index + 1));
    }
    if index == before.headscale_targets@.len() {
        assert(after.headscale_targets@ =~= before.headscale_targets@);
    }
}

/// A key is taken exactly where its text, white space around it aside, is the hexadecimal text of 32
/// bytes, and those are kept. Otherwise nothing is changed and the refusal tells why.
pub proof fn law_peers_key_has_32_bytes(
    before: SharedState,
    key_hex: Seq<char>,
    outcome: Result<(), KeyRefusal>,
    after: SharedState,
)
    requires
        peers_key_set(before, key_hex, outcome, after),
    ensures
        outcome is Ok <==> (hex_bytes(trimmed(key_hex)) matches Some(key) && key.len() == 32),
        outcome is Ok ==> (after.p2p_config.hmac_key matches Some(kept) && kept@.len() == 32
            && hex_bytes(trimmed(key_hex)) == Some(kept@)),
        outcome is Ok ==> after.p2p_config.peers == before.p2p_config.peers
            && after.p2p_config.active == before.p2p_config.active && after.pool == before.pool,
        outcome is Err ==> after == before,
        outcome == Err::<(), KeyRefusal>(KeyRefusal::NotHex) <==> hex_bytes(trimmed(key_hex)) is None,
{
}

/// No peer is listed twice, and none is lost: adding one keeps all that are there, and adding it once
/// more changes nothing.
pub proof fn law_peers_are_listed_once(
    before: SharedState,
    peer: String,
    after: SharedState,
    again: SharedState,
)
    requires
        peer_added(before, peer, after),
        peer_added(after, peer, again),
        forall|i: int, j: int|
            0 <= i < j < before.p2p_config.peers@.len() ==> (
            #[trigger] before.p2p_config.peers@[i])@ != (#[trigger] before.p2p_config.peers@[j])@,
    ensures
        again == after,
        lists_peer(after.p2p_config.peers@, peer@),
        before.p2p_config.peers@.is_prefix_of(after.p2p_config.peers@),
        forall|i: int, j: int|
            0 <= i < j < after.p2p_config.peers@.len() ==> (
            #[trigger] after.p2p_config.peers@[i])@ != (#[trigger] after.p2p_config.peers@[j])@,
        after.p2p_config.hmac_key == before.p2p_config.hmac_key,
{
    let old_peers = before.p2p_config.peers@;
    let new_peers = after.p2p_config.peers@;
    if !lists_peer(old_peers, peer@) {
        assert(new_peers[old_peers.len() as int]@ == peer@);
        assert(new_peers.subrange(0, old_peers.len() as int) =~= old_peers);
        assert forall|i: int, j: int| 0 <= i < j < new_peers.len() implies (
        #[trigger] new_peers[i])@ != (#[trigger] new_peers[j])@ by {
            assert(new_peers[i] == old_peers[i]);
            if j < old_peers.len() {
                assert(new_peers[j] == old_peers[j]);
            }
        }
    } else {
        assert(old_peers.subrange(0, old_peers.len() as int) =~= old_peers);
    }
}

/// Live mode switches every guitar and every safe harvester alike, and keeps the names, the ports and
/// the counts of the guitars. Switched on and then off, the guitars are all off.
pub proof fn law_live_mode_switches_all(
    before: SharedState,
    active: bool,
    after: SharedState,
    i: int,
)
    requires
        live_mode_set(before, active, after),
        0 <= i < before.guitar_states@.len(),
    ensures
        after.live_mode == active,
        after.guitar_states@.len() == before.guitar_states@.len(),
        after.guitar_states@[i].enabled == active,
        after.guitar_states@[i].name == before.guitar_states@[i].name,
        after.guitar_states@[i].data_port == before.guitar_states@[i].data_port,
        after.guitar_states@[i].ctrl_port == before.guitar_states@[i].ctrl_port,
        after.guitar_states@[i].packets_received == before.guitar_states@[i].packets_received,
        after.guitar_states@[i].bytes_received == before.guitar_states@[i].bytes_received,
        is_on(after.harvester_states, Harvester::Trng) == active,
        is_on(after.harvester_states, Harvester::Mouse) == is_on(
            before.harvester_states,
            Harvester::Mouse,
        ),
        after.pool == before.pool,
        after.headscale_targets == before.headscale_targets,
{
}

} // verus!
