//! What the harvesters report to the engine, and what they ask of it.

use crate::config::GuitarState;
use crate::engine::logbook::noted;
use crate::engine::sources::{metrics_of, MetricsView};
use crate::engine::state::{
    find_guitar, guitar_named, ChaosEngine, HeadscaleState, SharedState,
};
use crate::text::{append_decimal, numeral, to_upper, uppercase};
use vstd::prelude::*;

verus! {

/// Packets of a guitar of which one is logged.
pub const PACKETS_PER_LINE: u64 = 10;

/// Seconds between two rounds of pings.
pub const PING_PAUSE: u64 = 30;

/// A vault node that is to be pinged.
pub struct PingTarget {
    pub index: usize,
    pub name: String,
    pub ip: String,
    pub port: u16,
    pub url: String,
}

/// Whether this is the ping of a vault node.
pub open spec fn pings(ping: PingTarget, index: int, state: HeadscaleState) -> bool {
    &&& ping.index == index
    &&& ping.name == state.target.name
    &&& ping.ip == state.target.ip
    &&& ping.port == state.target.port
    &&& ping.url@ == "http://"@ + state.target.ip@ + ":"@ + numeral(state.target.port as nat)
        + "/ping"@
}

/// The indices of the vault nodes among the first `count` that are switched on.
pub open spec fn enabled_indices(targets: Seq<HeadscaleState>, count: int) -> Seq<int>
    decreases count,
{
    if count <= 0 {
        Seq::empty()
    } else {
        let before = enabled_indices(targets, count - 1);
        if targets[count - 1].target.enabled {
            before.push(count - 1)
        } else {
            before
        }
    }
}

/// The state after the health of a source was reported.
pub open spec fn health_reported(
    before: SharedState,
    source: Seq<char>,
    health: Seq<char>,
    after: SharedState,
) -> bool {
    &&& after == (SharedState { source_metrics: after.source_metrics, ..before })
    &&& after.source_metrics.wf()
    &&& after.source_metrics@ == before.source_metrics@.insert(
        source,
        MetricsView { health_state: health, ..metrics_of(before.source_metrics@, source) },
    )
}

/// The name under which a guitar's samples are mixed in.
pub open spec fn guitar_source_text(name: Seq<char>) -> Seq<char> {
    "GUITAR_"@ + uppercase(name) + "_CTRL"@
}

/// Writes the name under which a guitar's samples are mixed in.
pub fn guitar_source(name: &str) -> (source: String)
    ensures
        source@ == guitar_source_text(name@),
{
    let upper: String = to_upper(name);
    let mut source: String = "GUITAR_".to_owned();
    source.append(upper.as_str());
    source.append("_CTRL");
    source
}

/// A guitar after one more packet.
pub open spec fn packet_counted(guitar: GuitarState, len: usize) -> GuitarState {
    GuitarState {
        packets_received: (guitar.packets_received + 1) as u64,
        bytes_received: (guitar.bytes_received + len) as u64,
        ..guitar
    }
}

/// The message about a guitar's packet.
pub open spec fn packet_message(name: Seq<char>, len: usize, guitar: GuitarState) -> Seq<char> {
    "GUITAR "@ + name + ": "@ + numeral(len as nat) + " bytes (pkt #"@ + numeral(
        guitar.packets_received as nat,
    ) + ", "@ + numeral(guitar.bytes_received as nat) + " total bytes)"@
}

/// Whether one state is another after a packet of a guitar: it is counted, and every tenth is logged,
/// starting with the first. A packet of a guitar that is not known counts nowhere.
pub open spec fn packet_noted(
    before: SharedState,
    name: Seq<char>,
    len: usize,
    after: SharedState,
) -> bool {
    &&& after == (SharedState {
        guitar_states: after.guitar_states,
        logs: after.logs,
        ..before
    })
    &&& (forall|i: int| !#[trigger] guitar_named(before.guitar_states@, name, i)) ==> after == before
    &&& forall|i: int| #[trigger]
        guitar_named(before.guitar_states@, name, i) ==> {
            let counted = packet_counted(before.guitar_states@[i], len);
            &&& after.guitar_states@ == before.guitar_states@.update(i, counted)
            &&& if counted.packets_received % PACKETS_PER_LINE == 1 {
                noted(before.logs@, packet_message(name, len, counted), after.logs@)
            } else {
                after.logs == before.logs
            }
        }
}

/// The address on which all interfaces listen at a port.
pub fn listen_address(port: u16) -> (address: String)
    ensures
        address@ == "0.0.0.0:"@ + numeral(port as nat),
{
    let mut address: String = "0.0.0.0:".to_owned();
    append_decimal(&mut address, port as u64);
    address
}

/// Whether the vault nodes are to be pinged again.
pub fn ping_due(elapsed_secs: u64) -> (due: bool)
    ensures
        due == (elapsed_secs >= PING_PAUSE),
{
    elapsed_secs >= PING_PAUSE
}

impl ChaosEngine {
    /// Logs a message of a harvester.
    pub fn log(&mut self, message: &str)
        ensures
            old(self).state.wf() ==> final(self).state.wf(),
            *final(self) == (ChaosEngine {
                state: SharedState { logs: final(self).state.logs, ..old(self).state },
                ..*old(self)
            }),
            noted(old(self).state.logs@, message@, final(self).state.logs@),
    {
        self.state.logs.note(message);
    }

    /// Reports the state of a source's health tests.
    pub fn report_health(&mut self, source: &str, health: &str)
        requires
            old(self).state.source_metrics.wf(),
        ensures
            old(self).state.wf() ==> final(self).state.wf(),
            *final(self) == (ChaosEngine { state: final(self).state, ..*old(self) }),
            health_reported(old(self).state, source@, health@, final(self).state),
    {
        self.state.source_metrics.set_health(source, health);
    }

    /// The guitars' names and the ports on which they send samples.
    pub fn guitar_ports(&self) -> (ports: Vec<(String, u16)>)
        ensures
            ports@ == self.state.guitar_states@.map_values(
                |g: GuitarState| (g.name, g.ctrl_port),
            ),
    {
        let mut ports: Vec<(String, u16)> = Vec::new();
        let mut i: usize = 0;
        while i < self.state.guitar_states.len()
            invariant
                i <= self.state.guitar_states.len(),
                ports@.len() == i,
                forall|j: int|
                    0 <= j < i ==> #[trigger] ports@[j] == (
                        self.state.guitar_states@[j].name,
                        self.state.guitar_states@[j].ctrl_port,
                    ),
            decreases self.state.guitar_states.len() - i,
        {
            ports.push(
                (
                    self.state.guitar_states[i].name.clone(),
                    self.state.guitar_states[i].ctrl_port,
                ),
            );
            i += 1;
        }
        assert(ports@ =~= self.state.guitar_states@.map_values(
            |g: GuitarState| (g.name, g.ctrl_port),
        ));
        ports
    }

    /// Whether a guitar is switched on; one that is not known is not.
    pub fn guitar_enabled(&self, name: &str) -> (enabled: bool)
        requires
            self.state.wf(),
        ensures
            enabled == exists|i: int| #[trigger]
                guitar_named(self.state.guitar_states@, name@, i)
                    && self.state.guitar_states@[i].enabled,
    {
        match find_guitar(&self.state.guitar_states, name) {
            Some(i) => {
                proof {
                    assert forall|j: int| #[trigger]
                        guitar_named(self.state.guitar_states@, name@, j) implies j == i by {}
                }
                self.state.guitar_states[i].enabled
            },
            None => false,
        }
    }

    /// Logs that a guitar is listened to.
    pub fn note_guitar_listening(&mut self, name: &str, port: u16)
        ensures
            old(self).state.wf() ==> final(self).state.wf(),
            *final(self) == (ChaosEngine {
                state: SharedState { logs: final(self).state.logs, ..old(self).state },
                ..*old(self)
            }),
            noted(
                old(self).state.logs@,
                "GUITAR "@ + name@ + ": Listening on UDP:"@ + numeral(port as nat) + " (ctrl)"@,
                final(self).state.logs@,
            ),
    {
        let mut message: String = "GUITAR ".to_owned();
        message.append(name);
        message.append(": Listening on UDP:");
        append_decimal(&mut message, port as u64);
        message.append(" (ctrl)");
        self.state.logs.note(message.as_str());
    }

    /// Counts a packet of a guitar and logs every tenth, starting with the first. A packet of a
    /// guitar that is not known counts nowhere.
    pub fn note_guitar_packet(&mut self, name: &str, len: usize)
        requires
            old(self).state.wf(),
            old(self).packet_fits(name@, len),
        ensures
            final(self).state.wf(),
            *final(self) == (ChaosEngine { state: final(self).state, ..*old(self) }),
            packet_noted(old(self).state, name@, len, final(self).state),
    {
        self.count_packet(name, len);
    }

    fn count_packet(&mut self, name: &str, len: usize)
        requires
            old(self).state.wf(),
            old(self).packet_fits(name@, len),
        ensures
            final(self).state.wf(),
            *final(self) == (ChaosEngine {
                state: SharedState {
                    guitar_states: final(self).state.guitar_states,
                    logs: final(self).state.logs,
                    ..old(self).state
                },
                ..*old(self)
            }),
            (forall|i: int| !#[trigger] guitar_named(old(self).state.guitar_states@, name@, i))
                ==> *final(self) == *old(self),
            forall|i: int| #[trigger]
                guitar_named(old(self).state.guitar_states@, name@, i) ==> {
                    let counted = packet_counted(old(self).state.guitar_states@[i], len);
                    &&& final(self).state.guitar_states@ == old(self).state.guitar_states@.update(
                        i,
                        counted,
                    )
                    &&& if counted.packets_received % PACKETS_PER_LINE == 1 {
                        noted(
                            old(self).state.logs@,
                            packet_message(name@, len, counted),
                            final(self).state.logs@,
                        )
                    } else {
                        final(self).state.logs == old(self).state.logs
                    }
                },
    {
        match find_guitar(&self.state.guitar_states, name) {
            Some(i) => {
                let mut guitar: GuitarState = self.state.guitar_states[i].clone();
                guitar.packets_received = guitar.packets_received + 1;
                guitar.bytes_received = guitar.bytes_received + len as u64;
                let ghost counted = guitar;
                proof {
                    assert(counted == packet_counted(old(self).state.guitar_states@[i as int], len));
                    assert forall|j: int| #[trigger]
                        guitar_named(old(self).state.guitar_states@, name@, j) implies j == i by {}
                }
                if guitar.packets_received % PACKETS_PER_LINE == 1 {
                    let mut message: String = "GUITAR ".to_owned();
                    message.append(name);
                    message.append(": ");
                    append_decimal(&mut message, len as u64);
                    message.append(" bytes (pkt #");
                    append_decimal(&mut message, guitar.packets_received);
                    message.append(", ");
                    append_decimal(&mut message, guitar.bytes_received);
                    message.append(" total bytes)");
                    self.state.logs.note(message.as_str());
                }
                self.state.guitar_states.set(i, guitar);
                assert(forall|j: int|
                    0 <= j < self.state.guitar_states@.len() ==> (
                    #[trigger] self.state.guitar_states@[j]).name@ == old(
                        self,
                    ).state.guitar_states@[j].name@);
            },
            None => {
                assert forall|i: int| #[trigger]
                    guitar_named(old(self).state.guitar_states@, name@, i) implies false by {}
            },
        }
    }

    /// Whether the counters of a guitar can take one more packet of this length.
    pub open spec fn packet_fits(&self, name: Seq<char>, len: usize) -> bool {
        forall|i: int| #[trigger]
            guitar_named(self.state.guitar_states@, name, i) ==> {
                &&& self.state.guitar_states@[i].packets_received < u64::MAX
                &&& self.state.guitar_states@[i].bytes_received + len <= u64::MAX
            }
    }

    /// Tests whether the counters of a guitar can take one more packet of this length.
    pub fn guitar_has_room(&self, name: &str, len: usize) -> (room: bool)
        requires
            self.state.wf(),
        ensures
            room == self.packet_fits(name@, len),
    {
        match find_guitar(&self.state.guitar_states, name) {
            Some(i) => {
                proof {
                    assert forall|j: int| #[trigger]
                        guitar_named(self.state.guitar_states@, name@, j) implies j == i by {}
                }
                self.state.guitar_states[i].packets_received < u64::MAX
                    && self.state.guitar_states[i].bytes_received <= u64::MAX - len as u64
            },
            None => true,
        }
    }

    /// Reports a wireless reading of which something passed.
    pub fn note_wifi_passed(&mut self, health: &str)
        requires
            old(self).state.source_metrics.wf(),
            old(self).state.wifi_samples < u64::MAX,
        ensures
            old(self).state.wf() ==> final(self).state.wf(),
            *final(self) == (ChaosEngine { state: final(self).state, ..*old(self) }),
            health_reported(
                (SharedState {
                    wifi_active: true,
                    wifi_samples: (old(self).state.wifi_samples + 1) as u64,
                    ..old(self).state
                }),
                "WIFI"@,
                health@,
                final(self).state,
            ),
    {
        self.state.wifi_active = true;
        self.state.wifi_samples = self.state.wifi_samples + 1;
        self.state.source_metrics.set_health("WIFI", health);
    }

    /// Reports that the wireless harvester is switched off.
    pub fn note_wifi_idle(&mut self)
        ensures
            old(self).state.wf() ==> final(self).state.wf(),
            *final(self) == (ChaosEngine {
                state: SharedState { wifi_active: false, ..old(self).state },
                ..*old(self)
            }),
    {
        self.state.wifi_active = false;
    }

    /// Reports that no serial port is open.
    pub fn note_serial_closed(&mut self)
        ensures
            old(self).state.wf() ==> final(self).state.wf(),
            *final(self) == (ChaosEngine {
                state: SharedState { usb_serial_active: false, ..old(self).state },
                ..*old(self)
            }),
    {
        self.state.usb_serial_active = false;
    }

    /// Reports that a serial port was opened.
    pub fn note_serial_opened(&mut self, port: &str, baud: u32)
        ensures
            old(self).state.wf() ==> final(self).state.wf(),
            *final(self) == (ChaosEngine {
                state: SharedState {
                    usb_serial_active: true,
                    logs: final(self).state.logs,
                    ..old(self).state
                },
                ..*old(self)
            }),
            noted(
                old(self).state.logs@,
                "USB: Opened "@ + port@ + " @ "@ + numeral(baud as nat),
                final(self).state.logs@,
            ),
    {
        self.state.usb_serial_active = true;
        let mut message: String = "USB: Opened ".to_owned();
        message.append(port);
        message.append(" @ ");
        append_decimal(&mut message, baud as u64);
        self.state.logs.note(message.as_str());
    }

    /// Reports a serial reading of `len` bytes of which something passed.
    pub fn note_serial_passed(&mut self, len: usize, health: &str)
        requires
            old(self).state.source_metrics.wf(),
            old(self).state.usb_serial_bytes + len <= u64::MAX,
        ensures
            old(self).state.wf() ==> final(self).state.wf(),
            *final(self) == (ChaosEngine { state: final(self).state, ..*old(self) }),
            health_reported(
                (SharedState {
                    usb_serial_bytes: (old(self).state.usb_serial_bytes + len) as u64,
                    ..old(self).state
                }),
                "USB_SERIAL"@,
                health@,
                final(self).state,
            ),
    {
        self.state.usb_serial_bytes = self.state.usb_serial_bytes + len as u64;
        self.state.source_metrics.set_health("USB_SERIAL", health);
    }

    /// Logs that peers are listened to.
    pub fn note_p2p_listening(&mut self, port: u16)
        ensures
            old(self).state.wf() ==> final(self).state.wf(),
            *final(self) == (ChaosEngine {
                state: SharedState { logs: final(self).state.logs, ..old(self).state },
                ..*old(self)
            }),
            noted(
                old(self).state.logs@,
                "P2P: Listening on port "@ + numeral(port as nat) + " (HMAC: "@ + (if old(
                    self,
                ).state.p2p_config.hmac_key is Some {
                    "ENABLED"@
                } else {
                    "DISABLED"@
                }) + ")"@,
                final(self).state.logs@,
            ),
    {
        let mut message: String = "P2P: Listening on port ".to_owned();
        append_decimal(&mut message, port as u64);
        message.append(" (HMAC: ");
        match &self.state.p2p_config.hmac_key {
            Some(_) => message.append("ENABLED"),
            None => message.append("DISABLED"),
        }
        message.append(")");
        self.state.logs.note(message.as_str());
    }

    /// The vault nodes that are to be pinged: those that are switched on, in their order.
    pub fn ping_targets(&self) -> (targets: Vec<PingTarget>)
        ensures
            ({
                let states = self.state.headscale_targets@;
                let enabled = enabled_indices(states, states.len() as int);
                &&& targets@.len() == enabled.len()
                &&& forall|k: int|
                    0 <= k < targets@.len() ==> pings(
                        #[trigger] targets@[k],
                        enabled[k],
                        states[enabled[k]],
                    )
            }),
    {
        let mut targets: Vec<PingTarget> = Vec::new();
        let mut i: usize = 0;
        while i < self.state.headscale_targets.len()
            invariant
                i <= self.state.headscale_targets.len(),
                targets@.len() == enabled_indices(self.state.headscale_targets@, i as int).len(),
                forall|k: int|
                    0 <= k < targets@.len() ==> pings(
                        #[trigger] targets@[k],
                        enabled_indices(self.state.headscale_targets@, i as int)[k],
                        self.state.headscale_targets@[enabled_indices(
                            self.state.headscale_targets@,
                            i as int,
                        )[k]],
                    ),
            decreases self.state.headscale_targets.len() - i,
        {
            let state: &HeadscaleState = &self.state.headscale_targets[i];
            if state.target.enabled {
                let mut url: String = "http://".to_owned();
                url.append(state.target.ip.as_str());
                url.append(":");
                append_decimal(&mut url, state.target.port as u64);
                url.append("/ping");
                targets.push(
                    PingTarget {
                        index: i,
                        name: state.target.name.clone(),
                        ip: state.target.ip.clone(),
                        port: state.target.port,
                        url,
                    },
                );
            }
            i += 1;
        }
        targets
    }

    /// Takes note of whether a vault node answered. One that is no longer listed is only logged.
    pub fn note_ping(&mut self, target: &PingTarget, reachable: bool)
        ensures
            old(self).state.wf() ==> final(self).state.wf(),
            *final(self) == (ChaosEngine {
                state: SharedState {
                    headscale_targets: final(self).state.headscale_targets,
                    logs: final(self).state.logs,
                    ..old(self).state
                },
                ..*old(self)
            }),
            final(self).state.headscale_targets@ == if target.index < old(
                self,
            ).state.headscale_targets@.len() {
                old(self).state.headscale_targets@.update(
                    target.index as int,
                    (HeadscaleState {
                        reachable,
                        ..old(self).state.headscale_targets@[target.index as int]
                    }),
                )
            } else {
                old(self).state.headscale_targets@
            },
            if reachable {
                noted(
                    old(self).state.logs@,
                    "HEADSCALE: "@ + target.name@ + " reachable ("@ + target.ip@ + ":"@ + numeral(
                        target.port as nat,
                    ) + ")"@,
                    final(self).state.logs@,
                )
            } else {
                final(self).state.logs == old(self).state.logs
            },
    {
        if target.index < self.state.headscale_targets.len() {
            let mut state: HeadscaleState = self.state.headscale_targets[target.index].clone();
            state.reachable = reachable;
            self.state.headscale_targets.set(target.index, state);
        }
        if reachable {
            let mut message: String = "HEADSCALE: ".to_owned();
            message.append(target.name.as_str());
            message.append(" reachable (");
            message.append(target.ip.as_str());
            message.append(":");
            append_decimal(&mut message, target.port as u64);
            message.append(")");
            self.state.logs.note(message.as_str());
        }
    }
}

/// Exactly the vault nodes that are switched on are pinged, each once and in their order.
pub proof fn law_every_enabled_node_is_pinged(targets: Seq<HeadscaleState>, count: int)
    requires
        0 <= count <= targets.len(),
    ensures
        forall|i: int| #[trigger]
            enabled_indices(targets, count).contains(i) <==> 0 <= i < count
                && targets[i].target.enabled,
        forall|k: int, l: int|
            0 <= k < l < enabled_indices(targets, count).len() ==> #[trigger] enabled_indices(
                targets,
                count,
            )[k] < #[trigger] enabled_indices(targets, count)[l],
    decreases count,
{
    let all = enabled_indices(targets, count);
    if count > 0 {
        let before = enabled_indices(targets, count - 1);
        law_every_enabled_node_is_pinged(targets, count - 1);
        assert forall|i: int| #[trigger] all.contains(i) <==> 0 <= i < count
            && targets[i].target.enabled by {
            assert(before.contains(i) <==> 0 <= i < count - 1 && targets[i].target.enabled);
            if all.contains(i) {
                let k = choose|k: int| 0 <= k < all.len() && all[k] == i;
                if k < before.len() {
                    assert(before[k] == i);
                }
            }
            if before.contains(i) {
                let k = choose|k: int| 0 <= k < before.len() && before[k] == i;
                assert(all[k] == i);
            }
            if i == count - 1 && targets[i].target.enabled {
                assert(all[all.len() - 1] == i);
            }
        }
        assert forall|k: int, l: int| 0 <= k < l < all.len() implies #[trigger] all[k]
            < #[trigger] all[l] by {
            if l < before.len() {
                assert(before[k] < before[l]);
            } else {
                assert(before.contains(before[k]));
            }
        }
    }
}

/// A packet counts once, with all its bytes, and changes nothing else of its guitar.
pub proof fn law_packet_counts_once(guitar: GuitarState, len: usize)
    requires
        guitar.packets_received < u64::MAX,
        guitar.bytes_received + len <= u64::MAX,
    ensures
        packet_counted(guitar, len).packets_received == guitar.packets_received + 1,
        packet_counted(guitar, len).bytes_received == guitar.bytes_received + len,
        packet_counted(guitar, len).name == guitar.name,
        packet_counted(guitar, len).enabled == guitar.enabled,
        packet_counted(guitar, len).ctrl_port == guitar.ctrl_port,
        packet_counted(guitar, len).data_port == guitar.data_port,
{
}

/// A report of health changes the health of its own source and nothing else of it, and nothing of any
/// other source.
pub proof fn law_health_report_concerns_one_source(
    before: SharedState,
    source: Seq<char>,
    other: Seq<char>,
    health: Seq<char>,
    after: SharedState,
)
    requires
        other != source,
        health_reported(before, source, health, after),
    ensures
        ({
            let old_metrics = metrics_of(before.source_metrics@, source);
            let new_metrics = metrics_of(after.source_metrics@, source);
            &&& new_metrics.health_state == health
            &&& new_metrics.samples == old_metrics.samples
            &&& new_metrics.raw_shannon == old_metrics.raw_shannon
            &&& new_metrics.min_entropy == old_metrics.min_entropy
            &&& new_metrics.avg_raw_entropy == old_metrics.avg_raw_entropy
            &&& new_metrics.total_bits_contributed == old_metrics.total_bits_contributed
        }),
        metrics_of(after.source_metrics@, other) == metrics_of(before.source_metrics@, other),
        after.pool == before.pool,
        after.extraction_pool == before.extraction_pool,
        after.logs == before.logs,
{
}

/// Guitars whose names differ, whatever the case of their letters, are different sources.
pub proof fn law_guitars_are_different_sources(one: Seq<char>, other: Seq<char>)
    requires
        uppercase(one) != uppercase(other),
    ensures
        guitar_source_text(one) != guitar_source_text(other),
{
    let front = "GUITAR_"@.len() as int;
    let back = "_CTRL"@.len() as int;
    let a = guitar_source_text(one);
    let b = guitar_source_text(other);
    assert(a.subrange(front, a.len() - back) =~= uppercase(one));
    assert(b.subrange(front, b.len() - back) =~= uppercase(other));
}

/// A packet counts for the guitar that sent it and for no other, with all its bytes, and one packet in
/// ten is told in the log.
pub proof fn law_packet_counts_for_its_guitar(
    before: SharedState,
    name: Seq<char>,
    len: usize,
    after: SharedState,
    at: int,
    other: int,
)
    requires
        packet_noted(before, name, len, after),
        guitar_named(before.guitar_states@, name, at),
        before.guitar_states@[at].packets_received < u64::MAX,
        before.guitar_states@[at].bytes_received + len <= u64::MAX,
        0 <= other < before.guitar_states@.len(),
        other != at,
    ensures
        after.guitar_states@.len() == before.guitar_states@.len(),
        after.guitar_states@[at].packets_received == before.guitar_states@[at].packets_received + 1,
        after.guitar_states@[at].bytes_received == before.guitar_states@[at].bytes_received + len,
        after.guitar_states@[at].name == before.guitar_states@[at].name,
        after.guitar_states@[at].enabled == before.guitar_states@[at].enabled,
        after.guitar_states@[other] == before.guitar_states@[other],
        before.guitar_states@[at].packets_received % 10 != 0 ==> after.logs == before.logs,
        before.guitar_states@[at].packets_received % 10 == 0 ==> noted(
            before.logs@,
            packet_message(name, len, after.guitar_states@[at]),
            after.logs@,
        ),
        after.pool == before.pool,
{
}

} // verus!
