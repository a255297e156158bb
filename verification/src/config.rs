//! Settings that are kept between runs, and the states that mirror them while the engine runs.

use crate::binary64::Binary64;
use crate::entropy::MIN_ENTROPY_FOR_MINT;
use crate::text::{
    append_decimal, law_pieces_compose, law_pieces_rejoin, numeral, occurs_at, pieces, same_text,
    split_text, text_at, texts, trim_space, trimmed,
};
use vstd::prelude::*;

verus! {

/// The bit pattern of 1.0.
pub const UNIT_GAIN: u64 = 0x3ff0_0000_0000_0000;

/// All settings.
#[derive(Clone, Debug)]
pub struct NullMagnetConfig {
    pub general: GeneralConfig,
    pub sources: SourcesConfig,
    pub devices: DevicesConfig,
    pub pqc: PqcConfig,
    pub vault: VaultConfig,
    pub network: NetworkConfig,
    pub guitars: GuitarsConfig,
}

impl NullMagnetConfig {
    /// Whether these are the settings of a first run.
    pub open spec fn is_default(&self) -> bool {
        &&& self.general.is_default()
        &&& self.sources == all_sources(false)
        &&& self.devices.is_default()
        &&& self.pqc == default_pqc()
        &&& self.vault.is_default()
        &&& self.network.is_default()
        &&& self.guitars.is_default()
    }
}

impl Default for NullMagnetConfig {
    fn default() -> (config: Self)
        ensures
            config.is_default(),
    {
        NullMagnetConfig {
            general: GeneralConfig::default(),
            sources: SourcesConfig::default(),
            devices: DevicesConfig::default(),
            pqc: PqcConfig::default(),
            vault: VaultConfig::default(),
            network: NetworkConfig::default(),
            guitars: GuitarsConfig::default(),
        }
    }
}

/// General settings.
#[derive(Clone, Debug)]
pub struct GeneralConfig {
    /// Start all safe harvesters on launch.
    pub auto_start: bool,
    /// Milliseconds between two refreshes of the shown metrics.
    pub gui_refresh_ms: u64,
    /// Graph updates a second, from 1 to 60.
    pub graph_fps: u32,
    /// The most log lines kept in memory.
    pub max_log_lines: usize,
    /// The directory that keys are written to.
    pub keys_dir: String,
}

impl GeneralConfig {
    /// Whether these are the settings of a first run.
    pub open spec fn is_default(&self) -> bool {
        &&& !self.auto_start
        &&& self.gui_refresh_ms == 250
        &&& self.graph_fps == 4
        &&& self.max_log_lines == 500
        &&& self.keys_dir@ == "keys"@
    }
}

impl Default for GeneralConfig {
    fn default() -> (config: Self)
        ensures
            config.is_default(),
    {
        GeneralConfig {
            auto_start: false,
            gui_refresh_ms: 250,
            graph_fps: 4,
            max_log_lines: 500,
            keys_dir: "keys".to_owned(),
        }
    }
}

/// Which sources are switched on.
#[derive(Clone, Copy, PartialEq, Eq, Structural, Debug)]
pub struct SourcesConfig {
    pub trng: bool,
    pub audio: bool,
    pub system: bool,
    pub mouse: bool,
    pub video: bool,
    pub gpu_cuda: bool,
    pub gpu_opencl: bool,
    pub wifi: bool,
    pub usb_serial: bool,
    pub bt_passive: bool,
    pub bt_active: bool,
}

/// Every source switched the same way.
pub open spec fn all_sources(on: bool) -> SourcesConfig {
    SourcesConfig {
        trng: on,
        audio: on,
        system: on,
        mouse: on,
        video: on,
        gpu_cuda: on,
        gpu_opencl: on,
        wifi: on,
        usb_serial: on,
        bt_passive: on,
        bt_active: on,
    }
}

impl Default for SourcesConfig {
    fn default() -> (config: Self)
        ensures
            config == all_sources(false),
    {
        SourcesConfig {
            trng: false,
            audio: false,
            system: false,
            mouse: false,
            video: false,
            gpu_cuda: false,
            gpu_opencl: false,
            wifi: false,
            usb_serial: false,
            bt_passive: false,
            bt_active: false,
        }
    }
}

/// Which devices are used.
#[derive(Clone, Debug)]
pub struct DevicesConfig {
    /// The audio input, by name; empty for the system's own choice.
    pub audio_device: String,
    /// The factor on audio samples.
    pub audio_gain: Binary64,
    /// The camera, by name; empty for the system's own choice.
    pub camera_device: String,
    /// Further cameras.
    pub extra_cameras: Vec<String>,
    /// The serial port; empty for the first that is found.
    pub usb_serial_port: String,
    pub usb_serial_baud: u32,
    /// Further serial ports.
    pub extra_serial_ports: Vec<String>,
    /// The wireless interface; empty for the first that is found.
    pub wifi_interface: String,
    pub opencl_platform: usize,
    pub opencl_device: usize,
}

impl DevicesConfig {
    /// Whether these are the settings of a first run.
    pub open spec fn is_default(&self) -> bool {
        &&& self.audio_device@.len() == 0
        &&& self.audio_gain.bits == UNIT_GAIN
        &&& self.camera_device@.len() == 0
        &&& self.extra_cameras@.len() == 0
        &&& self.usb_serial_port@.len() == 0
        &&& self.usb_serial_baud == 115200
        &&& self.extra_serial_ports@.len() == 0
        &&& self.wifi_interface@.len() == 0
        &&& self.opencl_platform == 0
        &&& self.opencl_device == 0
    }
}

impl Default for DevicesConfig {
    fn default() -> (config: Self)
        ensures
            config.is_default(),
    {
        DevicesConfig {
            audio_device: String::new(),
            audio_gain: Binary64::from_bits(UNIT_GAIN),
            camera_device: String::new(),
            extra_cameras: Vec::new(),
            usb_serial_port: String::new(),
            usb_serial_baud: 115200,
            extra_serial_ports: Vec::new(),
            wifi_interface: String::new(),
            opencl_platform: 0,
            opencl_device: 0,
        }
    }
}

/// How keys are minted.
#[derive(Clone, Copy, PartialEq, Eq, Structural, Debug)]
pub struct PqcConfig {
    /// Mint a key whenever enough entropy was credited.
    pub auto_mint: bool,
    /// The credited bits from which on a key may be minted.
    pub min_entropy_bits: Binary64,
    /// The ML-KEM parameter set: 512, 768 or 1024.
    pub mlkem_parameter: u16,
}

/// The settings of a first run.
pub open spec fn default_pqc() -> PqcConfig {
    PqcConfig {
        auto_mint: false,
        min_entropy_bits: Binary64 { bits: MIN_ENTROPY_FOR_MINT },
        mlkem_parameter: 1024,
    }
}

impl Default for PqcConfig {
    fn default() -> (config: Self)
        ensures
            config == default_pqc(),
    {
        PqcConfig {
            auto_mint: false,
            min_entropy_bits: Binary64::from_bits(MIN_ENTROPY_FOR_MINT),
            mlkem_parameter: 1024,
        }
    }
}

/// Where bundles are kept.
#[derive(Clone, Debug)]
pub struct VaultConfig {
    pub vault_dir: String,
    /// A reminder of the password, not the password itself.
    pub password_hint: String,
}

impl VaultConfig {
    /// Whether these are the settings of a first run.
    pub open spec fn is_default(&self) -> bool {
        &&& self.vault_dir@ == "keys"@
        &&& self.password_hint@.len() == 0
    }
}

impl Default for VaultConfig {
    fn default() -> (config: Self)
        ensures
            config.is_default(),
    {
        VaultConfig { vault_dir: "keys".to_owned(), password_hint: String::new() }
    }
}

/// A vault node that entropy is forwarded to.
#[derive(Debug)]
pub struct HeadscaleTarget {
    pub name: String,
    pub ip: String,
    pub port: u16,
    pub enabled: bool,
}

impl HeadscaleTarget {
    /// Whether this is the target of a first run.
    pub open spec fn is_default(&self) -> bool {
        &&& self.name@ == "Vault Node"@
        &&& self.ip@ == "127.0.0.1"@
        &&& self.port == 8100
        &&& !self.enabled
    }
}

impl Clone for HeadscaleTarget {
    fn clone(&self) -> (copy: Self)
        ensures
            copy == *self,
    {
        HeadscaleTarget {
            name: self.name.clone(),
            ip: self.ip.clone(),
            port: self.port,
            enabled: self.enabled,
        }
    }
}

impl Default for HeadscaleTarget {
    fn default() -> (target: Self)
        ensures
            target.is_default(),
    {
        HeadscaleTarget {
            name: "Vault Node".to_owned(),
            ip: "127.0.0.1".to_owned(),
            port: 8100,
            enabled: false,
        }
    }
}

/// Who entropy is exchanged with.
#[derive(Clone, Debug)]
pub struct NetworkConfig {
    pub headscale_targets: Vec<HeadscaleTarget>,
    pub p2p_enabled: bool,
    pub p2p_port: u16,
    pub p2p_peers: Vec<String>,
    /// The key that peers authenticate with, in hexadecimal; empty for none.
    pub p2p_hmac_key_hex: String,
    pub uplink_enabled: bool,
    pub uplink_url: String,
}

impl NetworkConfig {
    /// Whether these are the settings of a first run.
    pub open spec fn is_default(&self) -> bool {
        &&& self.headscale_targets@.len() == 1
        &&& self.headscale_targets@[0].is_default()
        &&& !self.p2p_enabled
        &&& self.p2p_port == 9000
        &&& self.p2p_peers@.len() == 0
        &&& self.p2p_hmac_key_hex@.len() == 0
        &&& !self.uplink_enabled
        &&& self.uplink_url@ == "http://127.0.0.1:8000/ingest"@
    }
}

impl Default for NetworkConfig {
    fn default() -> (config: Self)
        ensures
            config.is_default(),
    {
        let mut targets: Vec<HeadscaleTarget> = Vec::new();
        targets.push(HeadscaleTarget::default());
        NetworkConfig {
            headscale_targets: targets,
            p2p_enabled: false,
            p2p_port: 9000,
            p2p_peers: Vec::new(),
            p2p_hmac_key_hex: String::new(),
            uplink_enabled: false,
            uplink_url: "http://127.0.0.1:8000/ingest".to_owned(),
        }
    }
}

/// A guitar that sends samples over UDP.
#[derive(Debug)]
pub struct GuitarEntry {
    pub name: String,
    pub data_port: u16,
    pub ctrl_port: u16,
    pub enabled: bool,
}

impl Clone for GuitarEntry {
    fn clone(&self) -> (copy: Self)
        ensures
            copy == *self,
    {
        GuitarEntry {
            name: self.name.clone(),
            data_port: self.data_port,
            ctrl_port: self.ctrl_port,
            enabled: self.enabled,
        }
    }
}

/// The guitars.
#[derive(Clone, Debug)]
pub struct GuitarsConfig {
    pub guitars: Vec<GuitarEntry>,
}

/// Whether an entry is switched on and has this name and these ports.
pub open spec fn is_guitar(entry: GuitarEntry, name: Seq<char>, data_port: u16, ctrl_port: u16) -> bool {
    &&& entry.name@ == name
    &&& entry.data_port == data_port
    &&& entry.ctrl_port == ctrl_port
    &&& entry.enabled
}

impl GuitarsConfig {
    /// Whether these are the guitars of a first run.
    pub open spec fn is_default(&self) -> bool {
        &&& self.guitars@.len() == 4
        &&& is_guitar(self.guitars@[0], "Spectra"@, 5005, 5056)
        &&& is_guitar(self.guitars@[1], "Neptonius"@, 5006, 5057)
        &&& is_guitar(self.guitars@[2], "Thalyn"@, 5007, 5058)
        &&& is_guitar(self.guitars@[3], "Sylvia"@, 5009, 5060)
    }
}

fn guitar(name: &str, data_port: u16, ctrl_port: u16) -> (entry: GuitarEntry)
    ensures
        is_guitar(entry, name@, data_port, ctrl_port),
{
    GuitarEntry { name: name.to_owned(), data_port, ctrl_port, enabled: true }
}

impl Default for GuitarsConfig {
    fn default() -> (config: Self)
        ensures
            config.is_default(),
    {
        let mut guitars: Vec<GuitarEntry> = Vec::new();
        guitars.push(guitar("Spectra", 5005, 5056));
        guitars.push(guitar("Neptonius", 5006, 5057));
        guitars.push(guitar("Thalyn", 5007, 5058));
        guitars.push(guitar("Sylvia", 5009, 5060));
        GuitarsConfig { guitars }
    }
}

/// What is known of a source while the engine runs.
#[derive(Debug)]
pub struct SourceMetrics {
    pub raw_shannon: Binary64,
    pub min_entropy: Binary64,
    pub samples: u64,
    pub avg_raw_entropy: Binary64,
    pub total_bits_contributed: Binary64,
    pub health_state: String,
}

impl SourceMetrics {
    /// Whether nothing is known yet.
    pub open spec fn is_blank(&self) -> bool {
        &&& self.raw_shannon.bits == 0
        &&& self.min_entropy.bits == 0
        &&& self.samples == 0
        &&& self.avg_raw_entropy.bits == 0
        &&& self.total_bits_contributed.bits == 0
        &&& self.health_state@.len() == 0
    }
}

impl Clone for SourceMetrics {
    fn clone(&self) -> (copy: Self)
        ensures
            copy == *self,
    {
        SourceMetrics {
            raw_shannon: self.raw_shannon,
            min_entropy: self.min_entropy,
            samples: self.samples,
            avg_raw_entropy: self.avg_raw_entropy,
            total_bits_contributed: self.total_bits_contributed,
            health_state: self.health_state.clone(),
        }
    }
}

impl Default for SourceMetrics {
    fn default() -> (metrics: Self)
        ensures
            metrics.is_blank(),
    {
        SourceMetrics {
            raw_shannon: Binary64::from_bits(0),
            min_entropy: Binary64::from_bits(0),
            samples: 0,
            avg_raw_entropy: Binary64::from_bits(0),
            total_bits_contributed: Binary64::from_bits(0),
            health_state: String::new(),
        }
    }
}

/// What is known of a guitar while the engine runs.
#[derive(Debug)]
pub struct GuitarState {
    pub name: String,
    pub data_port: u16,
    pub ctrl_port: u16,
    pub enabled: bool,
    pub packets_received: u64,
    pub bytes_received: u64,
}

impl Clone for GuitarState {
    fn clone(&self) -> (copy: Self)
        ensures
            copy == *self,
    {
        GuitarState {
            name: self.name.clone(),
            data_port: self.data_port,
            ctrl_port: self.ctrl_port,
            enabled: self.enabled,
            packets_received: self.packets_received,
            bytes_received: self.bytes_received,
        }
    }
}

/// Which harvesters are switched on while the engine runs.
#[derive(Clone, Copy, PartialEq, Eq, Structural, Debug)]
pub struct HarvesterStates {
    pub trng: bool,
    pub audio: bool,
    pub system: bool,
    pub mouse: bool,
    pub video: bool,
    pub gpu_cuda: bool,
    pub gpu_ocl: bool,
    pub wifi: bool,
    pub usb_serial: bool,
    pub bt_passive: bool,
    pub bt_active: bool,
}

/// The harvesters that a setting switches on.
pub open spec fn harvesters_of(sources: SourcesConfig) -> HarvesterStates {
    HarvesterStates {
        trng: sources.trng,
        audio: sources.audio,
        system: sources.system,
        mouse: sources.mouse,
        video: sources.video,
        gpu_cuda: sources.gpu_cuda,
        gpu_ocl: sources.gpu_opencl,
        wifi: sources.wifi,
        usb_serial: sources.usb_serial,
        bt_passive: sources.bt_passive,
        bt_active: sources.bt_active,
    }
}

/// The setting that keeps which harvesters are switched on.
pub open spec fn sources_of(harvesters: HarvesterStates) -> SourcesConfig {
    SourcesConfig {
        trng: harvesters.trng,
        audio: harvesters.audio,
        system: harvesters.system,
        mouse: harvesters.mouse,
        video: harvesters.video,
        gpu_cuda: harvesters.gpu_cuda,
        gpu_opencl: harvesters.gpu_ocl,
        wifi: harvesters.wifi,
        usb_serial: harvesters.usb_serial,
        bt_passive: harvesters.bt_passive,
        bt_active: harvesters.bt_active,
    }
}

/// The harvesters after all safe ones were switched, a graphics processor only where there is one.
pub open spec fn live_harvesters(
    before: HarvesterStates,
    cuda: bool,
    ocl: bool,
    active: bool,
) -> HarvesterStates {
    HarvesterStates {
        trng: active,
        audio: active,
        system: active,
        video: active,
        wifi: active,
        usb_serial: active,
        bt_passive: active,
        gpu_cuda: if cuda {
            active
        } else {
            before.gpu_cuda
        },
        gpu_ocl: if ocl {
            active
        } else {
            before.gpu_ocl
        },
        mouse: before.mouse,
        bt_active: before.bt_active,
    }
}

/// Switches all safe harvesters, a graphics processor only where there is one.
pub fn switch_safe(before: HarvesterStates, cuda: bool, ocl: bool, active: bool) -> (after:
    HarvesterStates)
    ensures
        after == live_harvesters(before, cuda, ocl, active),
{
    HarvesterStates {
        trng: active,
        audio: active,
        system: active,
        video: active,
        wifi: active,
        usb_serial: active,
        bt_passive: active,
        gpu_cuda: if cuda {
            active
        } else {
            before.gpu_cuda
        },
        gpu_ocl: if ocl {
            active
        } else {
            before.gpu_ocl
        },
        mouse: before.mouse,
        bt_active: before.bt_active,
    }
}

impl Default for HarvesterStates {
    fn default() -> (states: Self)
        ensures
            states == harvesters_of(all_sources(false)),
    {
        HarvesterStates {
            trng: false,
            audio: false,
            system: false,
            mouse: false,
            video: false,
            gpu_cuda: false,
            gpu_ocl: false,
            wifi: false,
            usb_serial: false,
            bt_passive: false,
            bt_active: false,
        }
    }
}

impl HarvesterStates {
    /// Switches the harvesters as a setting says.
    pub fn from_config(cfg: &SourcesConfig) -> (states: Self)
        ensures
            states == harvesters_of(*cfg),
    {
        HarvesterStates {
            trng: cfg.trng,
            audio: cfg.audio,
            system: cfg.system,
            mouse: cfg.mouse,
            video: cfg.video,
            gpu_cuda: cfg.gpu_cuda,
            gpu_ocl: cfg.gpu_opencl,
            wifi: cfg.wifi,
            usb_serial: cfg.usb_serial,
            bt_passive: cfg.bt_passive,
            bt_active: cfg.bt_active,
        }
    }

    /// The setting that keeps how the harvesters are switched.
    pub fn to_config(&self) -> (cfg: SourcesConfig)
        ensures
            cfg == sources_of(*self),
    {
        SourcesConfig {
            trng: self.trng,
            audio: self.audio,
            system: self.system,
            mouse: self.mouse,
            video: self.video,
            gpu_cuda: self.gpu_cuda,
            gpu_opencl: self.gpu_ocl,
            wifi: self.wifi,
            usb_serial: self.usb_serial,
            bt_passive: self.bt_passive,
            bt_active: self.bt_active,
        }
    }
}

/// Saving which harvesters are switched on and reading it back changes nothing, and neither does
/// reading and saving.
pub proof fn law_sources_round_trip(sources: SourcesConfig, harvesters: HarvesterStates)
    ensures
        sources_of(harvesters_of(sources)) == sources,
        harvesters_of(sources_of(harvesters)) == harvesters,
{
}

/// Whether the settings are kept beside the program rather than in the current directory: beside it
/// they are, if they already lie there or lie in neither place.
pub fn settings_beside_program(beside_exists: bool, here_exists: bool) -> (beside: bool)
    ensures
        beside == (beside_exists || !here_exists),
{
    beside_exists || !here_exists
}

/// The devices that were found at startup.
#[derive(Clone, Debug)]
pub struct DetectedDevices {
    /// Audio inputs: index and name.
    pub audio_inputs: Vec<(usize, String)>,
    /// Cameras: index and name.
    pub cameras: Vec<(usize, String)>,
    /// Serial ports: path and description.
    pub serial_ports: Vec<(String, String)>,
    pub wifi_interfaces: Vec<String>,
    /// OpenCL devices: platform, device, name and type.
    pub opencl_devices: Vec<(usize, usize, String, String)>,
    /// Bluetooth adapters: name and address.
    pub bt_adapters: Vec<(String, String)>,
    pub cuda_available: bool,
    pub cuda_backend: String,
    pub opencl_available: bool,
    pub opencl_backend: String,
}

impl Default for DetectedDevices {
    fn default() -> (devices: Self)
        ensures
            devices.audio_inputs@.len() == 0,
            devices.cameras@.len() == 0,
            devices.serial_ports@.len() == 0,
            devices.wifi_interfaces@.len() == 0,
            devices.opencl_devices@.len() == 0,
            devices.bt_adapters@.len() == 0,
            !devices.cuda_available,
            devices.cuda_backend@.len() == 0,
            !devices.opencl_available,
            devices.opencl_backend@.len() == 0,
    {
        DetectedDevices {
            audio_inputs: Vec::new(),
            cameras: Vec::new(),
            serial_ports: Vec::new(),
            wifi_interfaces: Vec::new(),
            opencl_devices: Vec::new(),
            bt_adapters: Vec::new(),
            cuda_available: false,
            cuda_backend: String::new(),
            opencl_available: false,
            opencl_backend: String::new(),
        }
    }
}

/// The index of the first device that goes by a name. Without a name there is none.
pub open spec fn device_named(devices: Seq<(usize, String)>, name: Seq<char>) -> Option<usize>
    decreases devices.len(),
{
    if name.len() == 0 || devices.len() == 0 {
        None
    } else if devices[0].1@ == name {
        Some(devices[0].0)
    } else {
        device_named(devices.skip(1), name)
    }
}

/// Finds the first device that goes by a name.
pub fn find_device(devices: &Vec<(usize, String)>, name: &str) -> (index: Option<usize>)
    ensures
        index == device_named(devices@, name@),
{
    if name.is_empty() {
        return None;
    }
    let mut i: usize = 0;
    assert(devices@.skip(0) =~= devices@);
    while i < devices.len()
        invariant
            i <= devices.len(),
            name@.len() > 0,
            device_named(devices@.skip(i as int), name@) == device_named(devices@, name@),
        decreases devices.len() - i,
    {
        assert(devices@.skip(i as int).skip(1) =~= devices@.skip(i + 1));
        if same_text(devices[i].1.as_str(), name) {
            return Some(devices[i].0);
        }
        i += 1;
    }
    None
}

fn numbered(label: &str, index: usize) -> (text: String)
    ensures
        text@ == label@ + numeral(index as nat),
{
    let mut text: String = label.to_owned();
    append_decimal(&mut text, index as u64);
    text
}

/// The name of an audio input; one without a name is called by its number.
pub fn audio_input_name(index: usize, name: Option<String>) -> (text: String)
    ensures
        text@ == match name {
            Some(own) => own@,
            None => "Audio Input "@ + numeral(index as nat),
        },
{
    match name {
        Some(own) => own,
        None => numbered("Audio Input ", index),
    }
}

/// The name of a camera; one without a name is called by its number.
pub fn camera_name(index: usize, name: String) -> (text: String)
    ensures
        text@ == if name@.len() > 0 {
            name@
        } else {
            "Camera "@ + numeral(index as nat)
        },
{
    if name.as_str().is_empty() {
        numbered("Camera ", index)
    } else {
        name
    }
}

/// The number of a camera that is known by a text: the length of that text in bytes, modulo 256.
pub fn camera_index_of_id(id: &str) -> (index: usize)
    ensures
        index == vstd::utf8::encode_utf8(id@).len() % 256,
{
    let bytes = id.as_bytes();
    bytes.len() % 256
}

/// The text, or a substitute where there is none.
pub open spec fn text_or(text: Option<String>, substitute: Seq<char>) -> Seq<char> {
    match text {
        Some(own) => own@,
        None => substitute,
    }
}

/// The description of a serial port: product and manufacturer of one on USB, a fixed text
/// otherwise.
pub fn serial_port_description(
    on_usb: bool,
    product: Option<String>,
    manufacturer: Option<String>,
) -> (text: String)
    ensures
        text@ == if on_usb {
            text_or(product, "USB Serial"@) + " ("@ + text_or(manufacturer, "Unknown"@) + ")"@
        } else {
            "Serial Port"@
        },
{
    if !on_usb {
        return "Serial Port".to_owned();
    }
    let mut text: String = match product {
        Some(own) => own,
        None => "USB Serial".to_owned(),
    };
    text.append(" (");
    match manufacturer {
        Some(own) => text.append(own.as_str()),
        None => text.append("Unknown"),
    }
    text.append(")");
    text
}

/// The interface name that a line of a wireless listing gives: what stands behind the first colon of
/// a line that starts with `Name`, up to the next colon.
pub open spec fn interface_in_line(line: Seq<char>) -> Option<Seq<char>> {
    let bare = trimmed(line);
    let parts = pieces(bare, ':');
    if occurs_at(bare, "Name"@, 0) && parts.len() >= 2 {
        Some(trimmed(parts[1]))
    } else {
        None
    }
}

/// The interface names that the lines of a wireless listing give, in their order.
pub open spec fn interfaces_in_lines(lines: Seq<Seq<char>>) -> Seq<Seq<char>>
    decreases lines.len(),
{
    if lines.len() == 0 {
        Seq::empty()
    } else {
        let before = interfaces_in_lines(lines.drop_last());
        match interface_in_line(lines.last()) {
            Some(name) => before.push(name),
            None => before,
        }
    }
}

/// The interface names in the listing that `netsh wlan show interfaces` prints; a generic name where
/// it gives none.
pub fn wifi_interfaces_listed(listing: &str) -> (names: Vec<String>)
    ensures
        ({
            let listed = interfaces_in_lines(pieces(listing@, '\n'));
            texts(names@) == if listed.len() == 0 {
                seq!["Wi-Fi"@]
            } else {
                listed
            }
        }),
{
    let lines: Vec<String> = split_text(listing, '\n');
    let mut names: Vec<String> = Vec::new();
    let mut i: usize = 0;
    assert(texts(names@) =~= interfaces_in_lines(texts(lines@).take(0)));
    while i < lines.len()
        invariant
            i <= lines.len(),
            texts(names@) == interfaces_in_lines(texts(lines@).take(i as int)),
        decreases lines.len() - i,
    {
        let ghost all = texts(lines@);
        let ghost before = texts(names@);
        assert(all.take(i + 1).drop_last() =~= all.take(i as int));
        let bare: &str = trim_space(lines[i].as_str());
        if text_at(bare, "Name", 0) {
            let parts: Vec<String> = split_text(bare, ':');
            if parts.len() >= 2 {
                names.push(trim_space(parts[1].as_str()).to_owned());
                assert(texts(parts@)[1] == parts@[1]@);
                assert(texts(names@) =~= before.push(names@.last()@));
            }
        }
        i += 1;
    }
    assert(texts(lines@).take(i as int) =~= texts(lines@));
    if names.len() == 0 {
        names.push("Wi-Fi".to_owned());
        assert(texts(names@) =~= seq!["Wi-Fi"@]);
    }
    names
}

/// The lines that are not blank, without the white space around them, in their order.
pub open spec fn filled_lines(lines: Seq<Seq<char>>) -> Seq<Seq<char>>
    decreases lines.len(),
{
    if lines.len() == 0 {
        Seq::empty()
    } else {
        let before = filled_lines(lines.drop_last());
        let bare = trimmed(lines.last());
        if bare.len() > 0 {
            before.push(bare)
        } else {
            before
        }
    }
}

/// The Bluetooth radios in a listing of one name a line. Their addresses are not listed.
pub fn bluetooth_radios_listed(listing: &str) -> (radios: Vec<(String, String)>)
    ensures
        radios@.map_values(|r: (String, String)| r.0@) == filled_lines(pieces(listing@, '\n')),
        forall|i: int| 0 <= i < radios@.len() ==> #[trigger] radios@[i].1@.len() == 0,
{
    let lines: Vec<String> = split_text(listing, '\n');
    let mut radios: Vec<(String, String)> = Vec::new();
    let mut i: usize = 0;
    assert(radios@.map_values(|r: (String, String)| r.0@) =~= filled_lines(texts(lines@).take(0)));
    while i < lines.len()
        invariant
            i <= lines.len(),
            radios@.map_values(|r: (String, String)| r.0@) == filled_lines(
                texts(lines@).take(i as int),
            ),
            forall|j: int| 0 <= j < radios@.len() ==> #[trigger] radios@[j].1@.len() == 0,
        decreases lines.len() - i,
    {
        let ghost all = texts(lines@);
        let ghost before = radios@.map_values(|r: (String, String)| r.0@);
        assert(all.take(i + 1).drop_last() =~= all.take(i as int));
        let bare: &str = trim_space(lines[i].as_str());
        if !bare.is_empty() {
            radios.push((bare.to_owned(), String::new()));
            assert(radios@.map_values(|r: (String, String)| r.0@) =~= before.push(
                radios@.last().0@,
            ));
        }
        i += 1;
    }
    assert(texts(lines@).take(i as int) =~= texts(lines@));
    radios
}

/// The device that goes by a name is the first in the list with that name, and is missed only where
/// no device has it or where the name is empty.
pub proof fn law_first_device_is_taken(devices: Seq<(usize, String)>, name: Seq<char>)
    ensures
        device_named(devices, name) is None <==> name.len() == 0 || forall|i: int|
            0 <= i < devices.len() ==> (#[trigger] devices[i]).1@ != name,
        device_named(devices, name) matches Some(index) ==> exists|i: int|
            {
                &&& 0 <= i < devices.len()
                &&& (#[trigger] devices[i]).0 == index
                &&& devices[i].1@ == name
                &&& forall|j: int| 0 <= j < i ==> (#[trigger] devices[j]).1@ != name
            },
    decreases devices.len(),
{
    if name.len() > 0 && devices.len() > 0 && devices[0].1@ != name {
        let rest = devices.skip(1);
        law_first_device_is_taken(rest, name);
        assert(forall|i: int| 0 <= i < rest.len() ==> #[trigger] rest[i] == devices[i + 1]);
        if let Some(index) = device_named(rest, name) {
            let i = choose|i: int|
                {
                    &&& 0 <= i < rest.len()
                    &&& (#[trigger] rest[i]).0 == index
                    &&& rest[i].1@ == name
                    &&& forall|j: int| 0 <= j < i ==> (#[trigger] rest[j]).1@ != name
                };
            assert(devices[i + 1].0 == index);
            assert forall|j: int| 0 <= j < i + 1 implies (#[trigger] devices[j]).1@ != name by {
                if j > 0 {
                    assert(rest[j - 1] == devices[j]);
                }
            }
        } else {
            assert forall|i: int| 0 <= i < devices.len() implies (#[trigger] devices[i]).1@
                != name by {
                if i > 0 {
                    assert(rest[i - 1] == devices[i]);
                }
            }
        }
    } else if name.len() > 0 && devices.len() > 0 {
        assert(devices[0].1@ == name);
    }
}

/// Every line that gives an interface is used, in the order of the lines, and no other.
pub proof fn law_every_interface_is_listed(lines: Seq<Seq<char>>)
    ensures
        interfaces_in_lines(lines) == lines.filter(
            |line: Seq<char>| interface_in_line(line) is Some,
        ).map_values(|line: Seq<char>| interface_in_line(line)->0),
    decreases lines.len(),
{
    reveal(Seq::filter);
    let gives = |line: Seq<char>| interface_in_line(line) is Some;
    let name = |line: Seq<char>| interface_in_line(line)->0;
    if lines.len() > 0 {
        let less = lines.drop_last();
        law_every_interface_is_listed(less);
        if gives(lines.last()) {
            assert(less.filter(gives).push(lines.last()).map_values(name) =~= less.filter(
                gives,
            ).map_values(name).push(name(lines.last())));
        }
    } else {
        assert(lines.filter(gives).map_values(name) =~= Seq::<Seq<char>>::empty());
    }
}

/// A line that starts with `Name` gives what stands between its first colon and the next, or the end
/// where there is no other, without the white space around it.
pub proof fn law_interface_stands_behind_the_colon(
    front: Seq<char>,
    value: Seq<char>,
    rest: Seq<char>,
)
    requires
        !front.contains(':'),
        !value.contains(':'),
        occurs_at(front, "Name"@, 0),
    ensures
        ({
            let line = front.push(':') + value;
            trimmed(line) == line ==> interface_in_line(line) == Some(trimmed(value))
        }),
        ({
            let line = front.push(':') + (value.push(':') + rest);
            trimmed(line) == line ==> interface_in_line(line) == Some(trimmed(value))
        }),
        trimmed(front) == front ==> interface_in_line(front) is None,
{
    let short = front.push(':') + value;
    let long = front.push(':') + (value.push(':') + rest);
    let name = "Name"@.len() as int;
    law_pieces_compose(front, value, ':');
    law_pieces_compose(front, value.push(':') + rest, ':');
    law_pieces_compose(value, rest, ':');
    law_pieces_rejoin(rest, ':');
    assert(occurs_at(short, "Name"@, 0)) by {
        assert(short.subrange(0, name) =~= front.subrange(0, name));
    }
    assert(occurs_at(long, "Name"@, 0)) by {
        assert(long.subrange(0, name) =~= front.subrange(0, name));
    }
    assert(pieces(short, ':')[1] == value);
    assert(pieces(long, ':')[1] == value);
}

/// The radios that are listed are the lines without the white space around them, in their order, but
/// for those that are blank.
pub proof fn law_every_filled_line_is_listed(lines: Seq<Seq<char>>)
    ensures
        filled_lines(lines) == lines.map_values(|line: Seq<char>| trimmed(line)).filter(
            |line: Seq<char>| line.len() > 0,
        ),
    decreases lines.len(),
{
    reveal(Seq::filter);
    let bare = |line: Seq<char>| trimmed(line);
    let filled = |line: Seq<char>| line.len() > 0;
    if lines.len() > 0 {
        let less = lines.drop_last();
        law_every_filled_line_is_listed(less);
        assert(lines.map_values(bare).drop_last() =~= less.map_values(bare));
        assert(lines.map_values(bare).last() == trimmed(lines.last()));
    } else {
        assert(lines.map_values(bare).filter(filled) =~= Seq::<Seq<char>>::empty());
    }
}

} // verus!
