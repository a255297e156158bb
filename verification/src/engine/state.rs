//! The state of the engine, and how it starts out.

use super::identity::SigningKey;
use super::logbook::{newest_lines, stamp, stamped, LogBook, LogView};
use super::ring::filled_queue;
use super::sources::{MetricsView, SourceTable};
use crate::binary64::Binary64;
use crate::clock::{is_stamp, time_of_day};
use crate::config::{
    device_named, find_device, harvesters_of, live_harvesters, switch_safe, DetectedDevices,
    GuitarEntry, GuitarState, HarvesterStates, HeadscaleTarget, NullMagnetConfig,
};
use crate::crypto::{falcon_pair, FALCON_PUBLIC_LEN, FALCON_SECRET_LEN};
use crate::entropy::health::{NIST_APT_CUTOFF, NIST_APT_WINDOW, NIST_RCT_CUTOFF};
use crate::entropy::pool::{empty_pool, EntropyExtractionPool, EXTRACTION_POOL_SIZE};
use crate::entropy::{HISTORY_LEN, POOL_SIZE};
use crate::hexcode::{hex_bytes, hex_decode, hex_text, law_hex_round_trip};
use crate::text::{append_decimal, joined, numeral, same_text, texts};
use std::collections::VecDeque;
use vstd::prelude::*;

verus! {

/// What is known of the exchange with peers while the engine runs.
#[derive(Clone)]
pub struct P2PConfig {
    pub active: bool,
    pub listen_port: u16,
    pub peers: Vec<String>,
    pub received_count: u64,
    pub hmac_key: Option<Vec<u8>>,
}

impl Default for P2PConfig {
    fn default() -> (config: Self)
        ensures
            !config.active,
            config.listen_port == 9000,
            config.peers@.len() == 0,
            config.received_count == 0,
            config.hmac_key is None,
    {
        P2PConfig {
            active: false,
            listen_port: 9000,
            peers: Vec::new(),
            received_count: 0,
            hmac_key: None,
        }
    }
}

/// What is known of a vault node while the engine runs.
pub struct HeadscaleState {
    pub target: HeadscaleTarget,
    pub forwarded_count: u64,
    pub last_forward_ts: u64,
    pub reachable: bool,
}

impl Clone for HeadscaleState {
    fn clone(&self) -> (copy: Self)
        ensures
            copy == *self,
    {
        HeadscaleState {
            target: self.target.clone(),
            forwarded_count: self.forwarded_count,
            last_forward_ts: self.last_forward_ts,
            reachable: self.reachable,
        }
    }
}

/// A vault node to which nothing was forwarded yet.
pub open spec fn fresh_target(target: HeadscaleTarget) -> HeadscaleState {
    HeadscaleState { target, forwarded_count: 0, last_forward_ts: 0, reachable: false }
}

impl HeadscaleState {
    /// Starts to keep track of a vault node.
    pub fn from_target(t: &HeadscaleTarget) -> (state: Self)
        ensures
            state == fresh_target(*t),
    {
        HeadscaleState {
            target: t.clone(),
            forwarded_count: 0,
            last_forward_ts: 0,
            reachable: false,
        }
    }
}

/// All that the engine keeps while it runs.
pub struct SharedState {
    pub extraction_pool: EntropyExtractionPool,
    pub pool: [u8; 32],
    pub display_pool: VecDeque<u8>,
    pub history_raw_entropy: VecDeque<Binary64>,
    pub history_whitened_entropy: VecDeque<Binary64>,
    pub source_metrics: SourceTable,
    pub estimated_true_entropy_bits: Binary64,
    pub credited_entropy_bits: Binary64,
    pub logs: LogBook,
    pub total_bytes: usize,
    pub sequence_id: u64,
    pub net_mode: bool,
    pub uplink_url: String,
    pub falcon_pk: Vec<u8>,
    pub falcon_sk: SigningKey,
    /// The credited bits from which on a key may be minted.
    pub mint_threshold: Binary64,
    pub pqc_active: bool,
    pub harvester_states: HarvesterStates,
    pub p2p_config: P2PConfig,
    pub auto_mint_enabled: bool,
    pub last_auto_mint_ts: u64,
    pub gpu_cuda_available: bool,
    pub gpu_cuda_backend: String,
    pub gpu_ocl_available: bool,
    pub gpu_ocl_backend: String,
    pub gpu_ocl_platform_id: usize,
    pub gpu_ocl_device_id: usize,
    /// The guitars, each name once.
    pub guitar_states: Vec<GuitarState>,
    pub headscale_targets: Vec<HeadscaleState>,
    pub audio_device_index: Option<usize>,
    pub audio_gain: Binary64,
    pub camera_device_index: usize,
    pub usb_serial_port: String,
    pub usb_serial_baud: u32,
    pub wifi_interface: String,
    pub wifi_active: bool,
    pub wifi_samples: u64,
    pub usb_serial_active: bool,
    pub usb_serial_bytes: u64,
    pub live_mode: bool,
    /// Whether the mouse hook was ever started.
    pub mouse_harvester_started: bool,
    pub last_shannon: Binary64,
}

/// Whether no two guitars have the same name.
pub open spec fn distinct_guitars(guitars: Seq<GuitarState>) -> bool {
    forall|i: int, j: int|
        0 <= i < j < guitars.len() ==> #[trigger] guitars[i].name@ != #[trigger] guitars[j].name@
}

impl SharedState {
    /// The pool's books balance, the histories and the shown pool are full, the log holds no more
    /// than it keeps, and no source and no guitar is listed twice.
    pub open spec fn wf(&self) -> bool {
        &&& self.extraction_pool.wf()
        &&& self.display_pool@.len() == POOL_SIZE
        &&& self.history_raw_entropy@.len() == HISTORY_LEN
        &&& self.history_whitened_entropy@.len() == HISTORY_LEN
        &&& self.source_metrics.wf()
        &&& self.logs.wf()
        &&& distinct_guitars(self.guitar_states@)
    }
}

/// The engine: its state, whether it runs, and its settings.
pub struct ChaosEngine {
    pub state: SharedState,
    pub running: bool,
    pub config: NullMagnetConfig,
}

/// A guitar from which nothing was received yet.
pub open spec fn fresh_guitar(entry: GuitarEntry) -> GuitarState {
    GuitarState {
        name: entry.name,
        data_port: entry.data_port,
        ctrl_port: entry.ctrl_port,
        enabled: entry.enabled,
        packets_received: 0,
        bytes_received: 0,
    }
}

/// The index of the guitar with this name, if there is one.
pub open spec fn guitar_named(guitars: Seq<GuitarState>, name: Seq<char>, at: int) -> bool {
    0 <= at < guitars.len() && guitars[at].name@ == name
}

/// The guitars with one more, which takes the place of one with the same name.
pub open spec fn with_guitar(guitars: Seq<GuitarState>, guitar: GuitarState) -> Seq<GuitarState> {
    if exists|i: int| #[trigger] guitar_named(guitars, guitar.name@, i) {
        guitars.update(choose|i: int| #[trigger] guitar_named(guitars, guitar.name@, i), guitar)
    } else {
        guitars.push(guitar)
    }
}

/// The guitars that the settings list; of two with the same name the later counts.
pub open spec fn guitars_of(entries: Seq<GuitarEntry>) -> Seq<GuitarState>
    decreases entries.len(),
{
    if entries.len() == 0 {
        Seq::empty()
    } else {
        with_guitar(guitars_of(entries.drop_last()), fresh_guitar(entries.last()))
    }
}

/// Finds the guitar with a name.
pub fn find_guitar(guitars: &Vec<GuitarState>, name: &str) -> (at: Option<usize>)
    ensures
        match at {
            Some(i) => guitar_named(guitars@, name@, i as int),
            None => forall|i: int| !#[trigger] guitar_named(guitars@, name@, i),
        },
{
    let mut i: usize = 0;
    while i < guitars.len()
        invariant
            i <= guitars.len(),
            forall|j: int| 0 <= j < i ==> !#[trigger] guitar_named(guitars@, name@, j),
        decreases guitars.len() - i,
    {
        if same_text(guitars[i].name.as_str(), name) {
            assert(guitar_named(guitars@, name@, i as int));
            return Some(i);
        }
        i += 1;
    }
    None
}

fn collect_guitars(entries: &Vec<GuitarEntry>) -> (guitars: Vec<GuitarState>)
    ensures
        guitars@ == guitars_of(entries@),
        distinct_guitars(guitars@),
{
    let mut guitars: Vec<GuitarState> = Vec::new();
    let mut k: usize = 0;
    assert(guitars@ =~= guitars_of(entries@.take(0)));
    while k < entries.len()
        invariant
            k <= entries.len(),
            guitars@ == guitars_of(entries@.take(k as int)),
            distinct_guitars(guitars@),
        decreases entries.len() - k,
    {
        let entry: &GuitarEntry = &entries[k];
        let ghost before = guitars@;
        assert(entries@.take(k + 1).drop_last() =~= entries@.take(k as int));
        let guitar = GuitarState {
            name: entry.name.clone(),
            data_port: entry.data_port,
            ctrl_port: entry.ctrl_port,
            enabled: entry.enabled,
            packets_received: 0,
            bytes_received: 0,
        };
        assert(guitar == fresh_guitar(entries@[k as int]));
        match find_guitar(&guitars, entry.name.as_str()) {
            Some(i) => {
                proof {
                    let chosen = choose|j: int| #[trigger] guitar_named(before, guitar.name@, j);
                    assert(guitar_named(before, guitar.name@, i as int));
                    assert(guitar_named(before, guitar.name@, chosen));
                    assert(chosen == i);
                }
                guitars.set(i, guitar);
                assert(forall|j: int|
                    0 <= j < guitars@.len() ==> #[trigger] guitars@[j].name@ == before[j].name@);
            },
            None => {
                assert forall|j: int| 0 <= j < before.len() implies #[trigger] before[j].name@
                    != guitar.name@ by {
                    assert(!guitar_named(before, guitar.name@, j));
                }
                guitars.push(guitar);
            },
        }
        k += 1;
    }
    assert(entries@.take(k as int) =~= entries@);
    guitars
}

/// The vault nodes that the settings list.
pub open spec fn targets_of(targets: Seq<HeadscaleTarget>) -> Seq<HeadscaleState> {
    targets.map_values(|t: HeadscaleTarget| fresh_target(t))
}

fn collect_targets(targets: &Vec<HeadscaleTarget>) -> (states: Vec<HeadscaleState>)
    ensures
        states@ == targets_of(targets@),
{
    let mut states: Vec<HeadscaleState> = Vec::new();
    let mut k: usize = 0;
    while k < targets.len()
        invariant
            k <= targets.len(),
            states@.len() == k,
            forall|j: int| 0 <= j < k ==> #[trigger] states@[j] == fresh_target(targets@[j]),
        decreases targets.len() - k,
    {
        states.push(HeadscaleState::from_target(&targets[k]));
        k += 1;
    }
    assert(states@ =~= targets_of(targets@));
    states
}

/// The key that peers authenticate with, as the settings give it: none for an empty text or one that
/// is not hexadecimal.
pub open spec fn hmac_key_of(key_hex: Seq<char>) -> Option<Seq<u8>> {
    if key_hex.len() == 0 {
        None
    } else {
        hex_bytes(key_hex)
    }
}

/// The first line about a graphics processor.
pub open spec fn gpu_line(label: Seq<char>, available: bool, backend: Seq<char>) -> Seq<char> {
    label + (if available {
        "Available"@
    } else {
        "N/A"@
    }) + " ("@ + backend + ")"@
}

fn write_gpu_line(label: &str, available: bool, backend: &str) -> (line: String)
    ensures
        line@ == gpu_line(label@, available, backend@),
{
    let mut line: String = label.to_owned();
    line.append(
        if available {
            "Available"
        } else {
            "N/A"
        },
    );
    line.append(" (");
    line.append(backend);
    line.append(")");
    line
}

/// The guitars of the log's line about them, with a space between two.
pub open spec fn guitar_list(guitars: Seq<GuitarState>) -> Seq<char>
    decreases guitars.len(),
{
    if guitars.len() == 0 {
        Seq::empty()
    } else {
        let before = guitar_list(guitars.drop_last());
        let this = guitars.last();
        (if guitars.len() == 1 {
            before
        } else {
            before + " "@
        }) + this.name@ + ":"@ + numeral(this.data_port as nat)
    }
}

fn write_guitar_list(guitars: &Vec<GuitarState>) -> (text: String)
    ensures
        text@ == guitar_list(guitars@),
{
    let mut text: String = String::new();
    let mut k: usize = 0;
    while k < guitars.len()
        invariant
            k <= guitars.len(),
            text@ == guitar_list(guitars@.take(k as int)),
        decreases guitars.len() - k,
    {
        assert(guitars@.take(k + 1).drop_last() =~= guitars@.take(k as int));
        if k > 0 {
            text.append(" ");
        }
        text.append(guitars[k].name.as_str());
        text.append(":");
        append_decimal(&mut text, guitars[k].data_port as u64);
        k += 1;
    }
    assert(guitars@.take(k as int) =~= guitars@);
    text
}

/// The log's line about a vault node.
pub open spec fn target_line(target: HeadscaleTarget) -> Seq<char> {
    "HEADSCALE: "@ + target.name@ + " @ "@ + target.ip@ + ":"@ + numeral(target.port as nat) + " ("@
        + (if target.enabled {
        "enabled"@
    } else {
        "disabled"@
    }) + ")"@
}

fn write_target_line(target: &HeadscaleTarget) -> (line: String)
    ensures
        line@ == target_line(*target),
{
    let mut line: String = "HEADSCALE: ".to_owned();
    line.append(target.name.as_str());
    line.append(" @ ");
    line.append(target.ip.as_str());
    line.append(":");
    append_decimal(&mut line, target.port as u64);
    line.append(" (");
    line.append(
        if target.enabled {
            "enabled"
        } else {
            "disabled"
        },
    );
    line.append(")");
    line
}

/// The log's line about the cutoffs of the health tests.
pub open spec fn cutoff_line() -> Seq<char> {
    "CONFIG: RCT="@ + numeral(NIST_RCT_CUTOFF as nat) + ", APT_W="@ + numeral(NIST_APT_WINDOW as nat)
        + ", APT_C="@ + numeral(NIST_APT_CUTOFF as nat)
}

/// The log's line about conditioning.
pub open spec fn extraction_line() -> Seq<char> {
    "EXTRACTION: "@ + numeral(EXTRACTION_POOL_SIZE as nat) + "->32 byte conditioning (SHA-256)"@
}

/// The lines with which the log starts out.
pub open spec fn opening_lines(
    time: Seq<char>,
    cuda: (bool, Seq<char>),
    ocl: (bool, Seq<char>),
    guitars: Seq<GuitarState>,
    targets: Seq<HeadscaleState>,
) -> Seq<Seq<char>> {
    let first = seq![
        "ENGINE: NullMagnet Live v2.0 (NIST SP 800-90B)"@,
        "PQC: ML-KEM-1024 (FIPS 203) + Falcon-512"@,
        cutoff_line(),
        gpu_line("GPU-CUDA: "@, cuda.0, cuda.1),
        gpu_line("GPU-OCL:  "@, ocl.0, ocl.1),
        stamped(time, "IDENTITY: Falcon-512 Session Key Generated"@),
        stamped(time, extraction_line()),
    ];
    (if guitars.len() > 0 {
        first.push(stamped(time, "GUITARS: "@ + guitar_list(guitars) + " (UDP)"@))
    } else {
        first
    }) + targets.map_values(|t: HeadscaleState| stamped(time, target_line(t.target)))
}

fn write_opening_lines(
    time: &str,
    cuda: (bool, &str),
    ocl: (bool, &str),
    guitars: &Vec<GuitarState>,
    targets: &Vec<HeadscaleState>,
) -> (book: Vec<String>)
    ensures
        texts(book@) == opening_lines(
            time@,
            (cuda.0, cuda.1@),
            (ocl.0, ocl.1@),
            guitars@,
            targets@,
        ),
{
    let mut book: Vec<String> = Vec::new();
    book.push("ENGINE: NullMagnet Live v2.0 (NIST SP 800-90B)".to_owned());
    book.push("PQC: ML-KEM-1024 (FIPS 203) + Falcon-512".to_owned());
    let mut cutoffs: String = "CONFIG: RCT=".to_owned();
    append_decimal(&mut cutoffs, NIST_RCT_CUTOFF as u64);
    cutoffs.append(", APT_W=");
    append_decimal(&mut cutoffs, NIST_APT_WINDOW as u64);
    cutoffs.append(", APT_C=");
    append_decimal(&mut cutoffs, NIST_APT_CUTOFF as u64);
    book.push(cutoffs);
    book.push(write_gpu_line("GPU-CUDA: ", cuda.0, cuda.1));
    book.push(write_gpu_line("GPU-OCL:  ", ocl.0, ocl.1));
    book.push(stamp(time, "IDENTITY: Falcon-512 Session Key Generated"));
    let mut extraction: String = "EXTRACTION: ".to_owned();
    append_decimal(&mut extraction, EXTRACTION_POOL_SIZE as u64);
    extraction.append("->32 byte conditioning (SHA-256)");
    book.push(stamp(time, extraction.as_str()));
    if guitars.len() > 0 {
        let mut line: String = "GUITARS: ".to_owned();
        let list: String = write_guitar_list(guitars);
        line.append(list.as_str());
        line.append(" (UDP)");
        book.push(stamp(time, line.as_str()));
    }
    let ghost first = texts(book@);
    assert(first =~= opening_lines(
        time@,
        (cuda.0, cuda.1@),
        (ocl.0, ocl.1@),
        guitars@,
        Seq::empty(),
    ));
    let mut k: usize = 0;
    while k < targets.len()
        invariant
            k <= targets.len(),
            texts(book@) =~= first + targets@.take(k as int).map_values(
                |t: HeadscaleState| stamped(time@, target_line(t.target)),
            ),
        decreases targets.len() - k,
    {
        let line: String = write_target_line(&targets[k].target);
        let ghost before = texts(book@);
        book.push(stamp(time, line.as_str()));
        assert(texts(book@) =~= before.push(stamped(time@, line@)));
        assert(targets@.take(k + 1) =~= targets@.take(k as int).push(targets@[k as int]));
        assert(first + targets@.take(k + 1).map_values(
            |t: HeadscaleState| stamped(time@, target_line(t.target)),
        ) =~= before.push(stamped(time@, line@)));
        k += 1;
    }
    assert(targets@.take(k as int) =~= targets@);
    assert(texts(book@) =~= opening_lines(
        time@,
        (cuda.0, cuda.1@),
        (ocl.0, ocl.1@),
        guitars@,
        targets@,
    ));
    book
}

impl ChaosEngine {
    /// Whether this is an engine that has just been started with these settings, these devices and
    /// this identity, at this time of day.
    pub open spec fn started(
        &self,
        config: NullMagnetConfig,
        devices: DetectedDevices,
        identity: (Seq<u8>, Seq<u8>),
        time: Seq<char>,
    ) -> bool {
        let s = self.state;
        let zero = Binary64 { bits: 0 };
        &&& self.running
        &&& self.config == config
        &&& s.wf()
        &&& s.extraction_pool@ == empty_pool()
        &&& s.extraction_pool.accumulator.is_fresh()
        &&& s.extraction_pool.output_accumulator.is_fresh()
        &&& forall|i: int| 0 <= i < 32 ==> #[trigger] s.pool@[i] == 0
        &&& s.display_pool@ == Seq::new(POOL_SIZE as nat, |i: int| 0u8)
        &&& s.history_raw_entropy@ == Seq::new(HISTORY_LEN as nat, |i: int| zero)
        &&& s.history_whitened_entropy@ == Seq::new(HISTORY_LEN as nat, |i: int| zero)
        &&& s.source_metrics@ == Map::<Seq<char>, MetricsView>::empty()
        &&& s.estimated_true_entropy_bits == zero
        &&& s.credited_entropy_bits == zero
        &&& s.logs@ == (LogView {
            lines: newest_lines(
                opening_lines(
                    time,
                    (devices.cuda_available, devices.cuda_backend@),
                    (devices.opencl_available, devices.opencl_backend@),
                    guitars_of(config.guitars.guitars@),
                    targets_of(config.network.headscale_targets@),
                ),
                config.general.max_log_lines as nat,
            ),
            limit: config.general.max_log_lines as nat,
        })
        &&& s.total_bytes == 0
        &&& s.sequence_id == 0
        &&& s.net_mode == config.network.uplink_enabled
        &&& s.uplink_url == config.network.uplink_url
        &&& (s.falcon_pk@, s.falcon_sk@) == identity
        &&& s.pqc_active
        &&& s.mint_threshold == config.pqc.min_entropy_bits
        &&& s.harvester_states == if config.general.auto_start {
            live_harvesters(
                harvesters_of(config.sources),
                devices.cuda_available,
                devices.opencl_available,
                true,
            )
        } else {
            harvesters_of(config.sources)
        }
        &&& s.p2p_config.active == config.network.p2p_enabled
        &&& s.p2p_config.listen_port == config.network.p2p_port
        &&& texts(s.p2p_config.peers@) == texts(config.network.p2p_peers@)
        &&& s.p2p_config.received_count == 0
        &&& match s.p2p_config.hmac_key {
            Some(key) => hmac_key_of(config.network.p2p_hmac_key_hex@) == Some(key@),
            None => hmac_key_of(config.network.p2p_hmac_key_hex@) is None,
        }
        &&& s.auto_mint_enabled == config.pqc.auto_mint
        &&& s.last_auto_mint_ts == 0
        &&& s.gpu_cuda_available == devices.cuda_available
        &&& s.gpu_cuda_backend == devices.cuda_backend
        &&& s.gpu_ocl_available == devices.opencl_available
        &&& s.gpu_ocl_backend == devices.opencl_backend
        &&& s.gpu_ocl_platform_id == config.devices.opencl_platform
        &&& s.gpu_ocl_device_id == config.devices.opencl_device
        &&& s.guitar_states@ == guitars_of(config.guitars.guitars@)
        &&& s.headscale_targets@ == targets_of(config.network.headscale_targets@)
        &&& s.audio_device_index == device_named(
            devices.audio_inputs@,
            config.devices.audio_device@,
        )
        &&& s.audio_gain == config.devices.audio_gain
        &&& s.camera_device_index == match device_named(
            devices.cameras@,
            config.devices.camera_device@,
        ) {
            Some(index) => index,
            None => 0,
        }
        &&& s.usb_serial_port == config.devices.usb_serial_port
        &&& s.usb_serial_baud == config.devices.usb_serial_baud
        &&& s.wifi_interface == config.devices.wifi_interface
        &&& !s.wifi_active
        &&& s.wifi_samples == 0
        &&& !s.usb_serial_active
        &&& s.usb_serial_bytes == 0
        &&& !s.live_mode
        &&& !s.mouse_harvester_started
        &&& s.last_shannon == zero
    }

    /// Starts an engine with a given identity, at a given time of day.
    pub fn start_with(
        config: NullMagnetConfig,
        devices: &DetectedDevices,
        falcon_pk: Vec<u8>,
        falcon_sk: SigningKey,
        time: &str,
    ) -> (engine: ChaosEngine)
        ensures
            engine.started(config, *devices, (falcon_pk@, falcon_sk@), time@),
    {
        let guitar_states: Vec<GuitarState> = collect_guitars(&config.guitars.guitars);
        let headscale_targets: Vec<HeadscaleState> = collect_targets(
            &config.network.headscale_targets,
        );
        let hmac_key: Option<Vec<u8>> = if config.network.p2p_hmac_key_hex.as_str().is_empty() {
            None
        } else {
            hex_decode(config.network.p2p_hmac_key_hex.as_str())
        };
        let peers: Vec<String> = config.network.p2p_peers.clone();
        assert(peers@ =~= config.network.p2p_peers@);
        let lines: Vec<String> = write_opening_lines(
            time,
            (devices.cuda_available, devices.cuda_backend.as_str()),
            (devices.opencl_available, devices.opencl_backend.as_str()),
            &guitar_states,
            &headscale_targets,
        );
        let logs: LogBook = LogBook::of(lines, config.general.max_log_lines);
        let chosen: HarvesterStates = HarvesterStates::from_config(&config.sources);
        let harvester_states: HarvesterStates = if config.general.auto_start {
            switch_safe(chosen, devices.cuda_available, devices.opencl_available, true)
        } else {
            chosen
        };
        let state = SharedState {
            extraction_pool: EntropyExtractionPool::new(),
            pool: [0u8; 32],
            display_pool: filled_queue(0u8, POOL_SIZE),
            history_raw_entropy: filled_queue(Binary64::from_bits(0), HISTORY_LEN),
            history_whitened_entropy: filled_queue(Binary64::from_bits(0), HISTORY_LEN),
            source_metrics: SourceTable::new(),
            estimated_true_entropy_bits: Binary64::from_bits(0),
            credited_entropy_bits: Binary64::from_bits(0),
            logs,
            total_bytes: 0,
            sequence_id: 0,
            net_mode: config.network.uplink_enabled,
            uplink_url: config.network.uplink_url.clone(),
            falcon_pk,
            falcon_sk,
            pqc_active: true,
            mint_threshold: config.pqc.min_entropy_bits,
            harvester_states,
            p2p_config: P2PConfig {
                active: config.network.p2p_enabled,
                listen_port: config.network.p2p_port,
                peers,
                received_count: 0,
                hmac_key,
            },
            auto_mint_enabled: config.pqc.auto_mint,
            last_auto_mint_ts: 0,
            gpu_cuda_available: devices.cuda_available,
            gpu_cuda_backend: devices.cuda_backend.clone(),
            gpu_ocl_available: devices.opencl_available,
            gpu_ocl_backend: devices.opencl_backend.clone(),
            gpu_ocl_platform_id: config.devices.opencl_platform,
            gpu_ocl_device_id: config.devices.opencl_device,
            guitar_states,
            headscale_targets,
            audio_device_index: find_device(
                &devices.audio_inputs,
                config.devices.audio_device.as_str(),
            ),
            audio_gain: config.devices.audio_gain,
            camera_device_index: match find_device(
                &devices.cameras,
                config.devices.camera_device.as_str(),
            ) {
                Some(index) => index,
                None => 0,
            },
            usb_serial_port: config.devices.usb_serial_port.clone(),
            usb_serial_baud: config.devices.usb_serial_baud,
            wifi_interface: config.devices.wifi_interface.clone(),
            wifi_active: false,
            wifi_samples: 0,
            usb_serial_active: false,
            usb_serial_bytes: 0,
            live_mode: false,
            mouse_harvester_started: false,
            last_shannon: Binary64::from_bits(0),
        };
        ChaosEngine { state, running: true, config }
    }

    /// Starts an engine with a fresh Falcon-512 identity.
    pub fn new(config: NullMagnetConfig, devices: &DetectedDevices) -> (engine: ChaosEngine)
        ensures
            exists|identity: (Seq<u8>, Seq<u8>), time: Seq<char>| #[trigger]
                engine.started(config, *devices, identity, time) && falcon_pair(
                    identity.0,
                    identity.1,
                ) && identity.0.len() == FALCON_PUBLIC_LEN && identity.1.len()
                    == FALCON_SECRET_LEN && is_stamp(time),
    {
        let identity: (Vec<u8>, SigningKey) = SigningKey::draw();
        let time: String = time_of_day();
        ChaosEngine::start_with(config, devices, identity.0, identity.1, time.as_str())
    }
}

/// The guitars that the settings list have different names. Each name that is listed has its guitar,
/// set up as the last entry with that name says and with nothing received, and there is no other.
pub proof fn law_last_entry_of_a_name_counts(entries: Seq<GuitarEntry>, k: int)
    requires
        0 <= k < entries.len(),
        forall|l: int| k < l < entries.len() ==> (#[trigger] entries[l]).name@ != entries[k].name@,
    ensures
        distinct_guitars(guitars_of(entries)),
        exists|g: int|
            {
                &&& 0 <= g < guitars_of(entries).len()
                &&& (#[trigger] guitars_of(entries)[g]).name == entries[k].name
                &&& guitars_of(entries)[g].data_port == entries[k].data_port
                &&& guitars_of(entries)[g].ctrl_port == entries[k].ctrl_port
                &&& guitars_of(entries)[g].enabled == entries[k].enabled
                &&& guitars_of(entries)[g].packets_received == 0
                &&& guitars_of(entries)[g].bytes_received == 0
            },
    decreases entries.len(),
{
    let less = entries.drop_last();
    let before = guitars_of(less);
    let guitar = fresh_guitar(entries.last());
    let all = guitars_of(entries);
    lemma_guitars_distinct(less);
    lemma_guitars_distinct(entries);
    if k < less.len() {
        assert forall|l: int| k < l < less.len() implies (#[trigger] less[l]).name@
            != less[k].name@ by {
            assert(less[l] == entries[l]);
        }
        law_last_entry_of_a_name_counts(less, k);
        let g = choose|g: int|
            {
                &&& 0 <= g < before.len()
                &&& (#[trigger] before[g]).name == less[k].name
                &&& before[g].data_port == less[k].data_port
                &&& before[g].ctrl_port == less[k].ctrl_port
                &&& before[g].enabled == less[k].enabled
                &&& before[g].packets_received == 0
                &&& before[g].bytes_received == 0
            };
        assert(entries[entries.len() - 1].name@ != entries[k].name@);
        if exists|i: int| #[trigger] guitar_named(before, guitar.name@, i) {
            let at = choose|i: int| #[trigger] guitar_named(before, guitar.name@, i);
            assert(at != g);
        }
        assert(all[g] == before[g]);
    } else {
        if exists|i: int| #[trigger] guitar_named(before, guitar.name@, i) {
            let at = choose|i: int| #[trigger] guitar_named(before, guitar.name@, i);
            assert(all[at] == guitar);
        } else {
            assert(all[before.len() as int] == guitar);
        }
    }
}

/// Every guitar stands for an entry of its name.
pub proof fn law_every_guitar_has_its_entry(entries: Seq<GuitarEntry>, g: int)
    requires
        0 <= g < guitars_of(entries).len(),
    ensures
        exists|k: int| 0 <= k < entries.len() && (#[trigger] entries[k]).name
            == guitars_of(entries)[g].name,
    decreases entries.len(),
{
    if entries.len() > 0 {
        let less = entries.drop_last();
        let before = guitars_of(less);
        let guitar = fresh_guitar(entries.last());
        let all = guitars_of(entries);
        if exists|i: int| #[trigger] guitar_named(before, guitar.name@, i) {
            let at = choose|i: int| #[trigger] guitar_named(before, guitar.name@, i);
            assert(guitar_named(before, guitar.name@, at));
            assert(all =~= before.update(at, guitar));
        }
        if g < before.len() && all[g] == before[g] {
            law_every_guitar_has_its_entry(less, g);
            let k = choose|k: int|
                0 <= k < less.len() && (#[trigger] less[k]).name == before[g].name;
            assert(entries[k] == less[k]);
        } else {
            assert(entries[entries.len() - 1].name == all[g].name);
        }
    }
}

proof fn lemma_guitars_distinct(entries: Seq<GuitarEntry>)
    ensures
        distinct_guitars(guitars_of(entries)),
    decreases entries.len(),
{
    if entries.len() > 0 {
        let before = guitars_of(entries.drop_last());
        let guitar = fresh_guitar(entries.last());
        let all = guitars_of(entries);
        lemma_guitars_distinct(entries.drop_last());
        if exists|i: int| #[trigger] guitar_named(before, guitar.name@, i) {
            let at = choose|i: int| #[trigger] guitar_named(before, guitar.name@, i);
            assert(guitar_named(before, guitar.name@, at));
            assert forall|i: int, j: int| 0 <= i < j < all.len() implies #[trigger] all[i].name@
                != #[trigger] all[j].name@ by {
                assert(before[i].name@ != before[j].name@);
            }
        } else {
            assert forall|i: int, j: int| 0 <= i < j < all.len() implies #[trigger] all[i].name@
                != #[trigger] all[j].name@ by {
                if j < before.len() {
                    assert(before[i].name@ != before[j].name@);
                } else {
                    assert(!guitar_named(before, guitar.name@, i));
                }
            }
        }
    }
}

/// Every node that the settings list is kept track of, in its place, with nothing sent yet.
pub proof fn law_every_target_is_taken(targets: Seq<HeadscaleTarget>, k: int)
    requires
        0 <= k < targets.len(),
    ensures
        targets_of(targets).len() == targets.len(),
        targets_of(targets)[k].target == targets[k],
        targets_of(targets)[k].forwarded_count == 0,
        targets_of(targets)[k].last_forward_ts == 0,
        !targets_of(targets)[k].reachable,
{
}

/// An engine starts with nothing in it: no raw byte waits, nothing is credited, nothing was sent or
/// minted, the pool is 32 zeros, the shown pool 1024 and each history 300 of them, and no source is
/// known.
pub proof fn law_engine_starts_empty(
    engine: ChaosEngine,
    config: NullMagnetConfig,
    devices: DetectedDevices,
    identity: (Seq<u8>, Seq<u8>),
    time: Seq<char>,
)
    requires
        engine.started(config, devices, identity, time),
    ensures
        engine.state.wf(),
        engine.state.extraction_pool@.buffer.len() == 0,
        engine.state.extraction_pool@.extractions == 0,
        engine.state.extraction_pool@.raw_consumed == 0,
        engine.state.extraction_pool@.extracted_bytes == 0,
        engine.state.extraction_pool@.conditioned.len() == 0,
        engine.state.extraction_pool@.aggregate.bits == 0,
        engine.state.extraction_pool@.credited.bits == 0,
        engine.state.extraction_pool@.stat_tests is None,
        engine.state.pool@ == Seq::new(32, |i: int| 0u8),
        engine.state.display_pool@ == Seq::new(1024, |i: int| 0u8),
        engine.state.history_raw_entropy@ == Seq::new(300, |i: int| Binary64 { bits: 0 }),
        engine.state.history_whitened_entropy@ == Seq::new(300, |i: int| Binary64 { bits: 0 }),
        engine.state.credited_entropy_bits.bits == 0,
        engine.state.estimated_true_entropy_bits.bits == 0,
        engine.state.total_bytes == 0,
        engine.state.sequence_id == 0,
        engine.state.last_auto_mint_ts == 0,
        engine.state.p2p_config.received_count == 0,
        forall|name: Seq<char>| !#[trigger] engine.state.source_metrics@.contains_key(name),
{
    assert(engine.state.pool@ =~= Seq::new(32, |i: int| 0u8));
    assert(engine.state.display_pool@ =~= Seq::new(1024, |i: int| 0u8));
    assert(engine.state.history_raw_entropy@ =~= Seq::new(300, |i: int| Binary64 { bits: 0 }));
    assert(engine.state.history_whitened_entropy@ =~= Seq::new(300, |i: int| Binary64 { bits: 0 }));
}

/// The key that peers authenticate with is read from its hexadecimal text. Without a text there is
/// none.
pub proof fn law_peers_key_is_read(key: Seq<u8>)
    requires
        key.len() > 0,
    ensures
        hmac_key_of(hex_text(key)) == Some(key),
        hmac_key_of(Seq::empty()) is None,
{
    law_hex_round_trip(key);
}

/// The log's list of guitars names every guitar with its port, with a space between two.
pub proof fn law_every_guitar_is_named(guitars: Seq<GuitarState>)
    ensures
        guitar_list(guitars) == joined(
            guitars.map_values(|g: GuitarState| g.name@ + ":"@ + numeral(g.data_port as nat)),
            ' ',
        ),
    decreases guitars.len(),
{
    reveal_strlit(" ");
    let named = |g: GuitarState| g.name@ + ":"@ + numeral(g.data_port as nat);
    let parts = guitars.map_values(named);
    if guitars.len() > 0 {
        let less = guitars.drop_last();
        law_every_guitar_is_named(less);
        assert(parts.drop_last() =~= less.map_values(named));
        let this = guitars.last();
        assert(" "@ =~= seq![' ']);
        if guitars.len() == 1 {
            assert(guitar_list(less) =~= Seq::<char>::empty());
            assert(guitar_list(guitars) =~= named(this));
        } else {
            assert(guitar_list(guitars) =~= guitar_list(less).push(' ') + named(this));
        }
    }
}

/// The log starts out with seven lines, one about the guitars where there are any, and one for each
/// vault node, in their order.
pub proof fn law_log_starts_out_complete(
    time: Seq<char>,
    cuda: (bool, Seq<char>),
    ocl: (bool, Seq<char>),
    guitars: Seq<GuitarState>,
    targets: Seq<HeadscaleState>,
    k: int,
)
    ensures
        ({
            let lines = opening_lines(time, cuda, ocl, guitars, targets);
            let first = if guitars.len() > 0 {
                8int
            } else {
                7
            };
            &&& lines.len() == first + targets.len()
            &&& guitars.len() > 0 ==> lines[7] == "["@ + time + "] "@ + ("GUITARS: "@ + guitar_list(
                guitars,
            ) + " (UDP)"@)
            &&& 0 <= k < targets.len() ==> lines[first + k] == "["@ + time + "] "@ + target_line(
                targets[k].target,
            )
            &&& opening_lines(time, cuda, ocl, guitars, Seq::empty()).is_prefix_of(lines)
        }),
{
    let lines = opening_lines(time, cuda, ocl, guitars, targets);
    let none = opening_lines(time, cuda, ocl, guitars, Seq::empty());
    assert(lines.subrange(0, none.len() as int) =~= none);
}

/// An engine follows its settings: two engines that were started with the same settings, devices and
/// identity have the same switches, peers, thresholds and devices, and what the settings say is what
/// they have.
pub proof fn law_settings_are_followed(
    engine: ChaosEngine,
    other: ChaosEngine,
    config: NullMagnetConfig,
    devices: DetectedDevices,
    identity: (Seq<u8>, Seq<u8>),
    time: Seq<char>,
)
    requires
        engine.started(config, devices, identity, time),
        other.started(config, devices, identity, time),
    ensures
        engine.running && engine.config == config,
        engine.state.harvester_states == other.state.harvester_states,
        engine.state.guitar_states@ == other.state.guitar_states@,
        engine.state.headscale_targets@ == other.state.headscale_targets@,
        engine.state.logs@.lines == other.state.logs@.lines,
        engine.state.logs@.limit == config.general.max_log_lines,
        engine.state.audio_device_index == other.state.audio_device_index,
        engine.state.camera_device_index == other.state.camera_device_index,
        engine.state.mint_threshold == config.pqc.min_entropy_bits,
        engine.state.auto_mint_enabled == config.pqc.auto_mint,
        engine.state.pqc_active,
        engine.state.net_mode == config.network.uplink_enabled,
        engine.state.uplink_url == config.network.uplink_url,
        engine.state.p2p_config.active == config.network.p2p_enabled,
        engine.state.p2p_config.listen_port == config.network.p2p_port,
        engine.state.p2p_config.peers@.len() == config.network.p2p_peers@.len(),
        forall|i: int|
            0 <= i < config.network.p2p_peers@.len() ==> (
            #[trigger] engine.state.p2p_config.peers@[i])@ == config.network.p2p_peers@[i]@,
        engine.state.p2p_config.hmac_key is Some ==> hex_bytes(config.network.p2p_hmac_key_hex@)
            == Some(engine.state.p2p_config.hmac_key->0@),
        engine.state.p2p_config.hmac_key is None <==> config.network.p2p_hmac_key_hex@.len() == 0
            || hex_bytes(config.network.p2p_hmac_key_hex@) is None,
        engine.state.falcon_pk@ == identity.0,
        engine.state.falcon_sk@ == identity.1,
{
    let own = texts(engine.state.p2p_config.peers@);
    let listed = texts(config.network.p2p_peers@);
    assert(own.len() == listed.len());
    assert forall|i: int| 0 <= i < config.network.p2p_peers@.len() implies (
    #[trigger] engine.state.p2p_config.peers@[i])@ == config.network.p2p_peers@[i]@ by {
        assert(own[i] == listed[i]);
    }
}

} // verus!
