use nullmagnet::binary64::Binary64;
use nullmagnet::clock::ClockReading;
use nullmagnet::config::{DetectedDevices, GuitarEntry, NullMagnetConfig};
use nullmagnet::engine::controls::{find_harvester, Harvester, KeyRefusal};
use ml_kem::{EncodedSizeUser, KemCore};
use nullmagnet::engine::mint::{
    assemble_bundle, make_keys, mint_with, KeyMaterial, MintDraw, MintError,
};
use nullmagnet::engine::mixer::{BatchNumbers, HandoverTimes, MixerMemory, ShownNumbers};
use nullmagnet::engine::peer::{
    answer_fields, answer_request, headscale_post, pass_on, peer_post, read_request, uplink_post,
    validate_hmac, Gate, PeerFields, PeerReply,
};
use nullmagnet::engine::ring::{filled_queue, push_all_capped, push_capped, queue_items};
use nullmagnet::engine::{
    ChaosEngine, HarvestedRng, HeadscaleState, LogBook, P2PConfig, SigningKey,
};
use nullmagnet::entropy::{get_timestamp, NistHealthTester};
use sha3::Digest;
use std::collections::VecDeque;

fn bits(x: f64) -> Binary64 {
    Binary64::from_bits(x.to_bits())
}

fn devices() -> DetectedDevices {
    DetectedDevices {
        cuda_backend: "None".into(),
        opencl_backend: "None".into(),
        ..DetectedDevices::default()
    }
}

fn started(config: NullMagnetConfig) -> ChaosEngine {
    ChaosEngine::start_with(config, &devices(), vec![1], SigningKey::of(vec![2]), "01:02:03")
}

fn engine() -> ChaosEngine {
    ChaosEngine::start_with(
        NullMagnetConfig::default(),
        &devices(),
        vec![1, 2, 3],
        SigningKey::of(vec![4, 5]),
        "12:00:00",
    )
}

fn last_line(engine: &ChaosEngine) -> String {
    let line = engine.state.logs.lines.back().unwrap();
    String::from(&line[11..])
}

fn numbers(raw_min: f64, aggregate: f64) -> BatchNumbers {
    BatchNumbers {
        raw_shannon: bits(7.5),
        raw_min: bits(raw_min),
        source_blend: bits(7.25),
        source_total: bits(40.0),
        estimated_total: bits(50.0),
        credited_total: bits(60.0),
        pool_credited: bits(70.0),
        pool_aggregate: bits(aggregate),
    }
}

fn shown() -> ShownNumbers<'static> {
    ShownNumbers { raw_min: "3.50", credited: "218", aggregate: "300" }
}

#[test]
fn a_fresh_engine() {
    let mut config = NullMagnetConfig::default();
    config.network.p2p_hmac_key_hex = "00ff".into();
    config.guitars.guitars.push(GuitarEntry {
        name: "Spectra".into(),
        data_port: 6000,
        ctrl_port: 6001,
        enabled: false,
    });
    let found = DetectedDevices {
        cuda_available: true,
        cuda_backend: "CUDA (NVIDIA)".into(),
        ..devices()
    };
    let e = ChaosEngine::start_with(config, &found, vec![1], SigningKey::of(vec![2]), "01:02:03");
    let lines: Vec<String> = e.state.logs.copy();
    assert_eq!(
        lines,
        vec![
            "ENGINE: NullMagnet Live v2.0 (NIST SP 800-90B)",
            "PQC: ML-KEM-1024 (FIPS 203) + Falcon-512",
            "CONFIG: RCT=31, APT_W=512, APT_C=325",
            "GPU-CUDA: Available (CUDA (NVIDIA))",
            "GPU-OCL:  N/A (None)",
            "[01:02:03] IDENTITY: Falcon-512 Session Key Generated",
            "[01:02:03] EXTRACTION: 256->32 byte conditioning (SHA-256)",
            "[01:02:03] GUITARS: Spectra:6000 Neptonius:5006 Thalyn:5007 Sylvia:5009 (UDP)",
            "[01:02:03] HEADSCALE: Vault Node @ 127.0.0.1:8100 (disabled)",
        ]
    );
    assert_eq!(e.state.guitar_states.len(), 4);
    assert!(!e.state.guitar_states[0].enabled);
    assert_eq!(e.state.p2p_config.hmac_key, Some(vec![0, 255]));
    assert_eq!(e.state.display_pool.len(), 1024);
    assert_eq!(e.state.history_raw_entropy.len(), 300);
    assert!(e.running && e.state.pqc_active);
    assert_eq!(P2PConfig::default().listen_port, 9000);
}

#[test]
fn a_new_engine_has_an_identity() {
    let e = ChaosEngine::new(NullMagnetConfig::default(), &devices());
    assert_eq!(e.state.falcon_pk.len(), 897);
    assert_eq!(e.state.falcon_sk.len(), 1281);
}

#[test]
fn harvesters_are_switched_by_name() {
    let mut e = engine();
    for name in [
        "trng", "Audio (Mic)", "SYS", "video", "gpu_cuda", "GPU (OpenCL)", "wifi noise",
        "usb serial", "BT_PASSIVE", "bt active",
    ] {
        assert!(!e.toggle_harvester(name, true));
    }
    let h = e.state.harvester_states;
    assert!(h.trng && h.audio && h.system && h.video && h.gpu_cuda && h.gpu_ocl);
    assert!(h.wifi && h.usb_serial && h.bt_passive && h.bt_active && !h.mouse);
    assert_eq!(last_line(&e), "Toggle: bt active -> Active");
    assert!(e.toggle_harvester("mouse", true));
    assert_eq!(last_line(&e), "Toggle: mouse -> Active (hook starting)");
    assert!(!e.toggle_harvester("mouse", false));
    assert!(!e.toggle_harvester("MOUSE", true));
    assert_eq!(last_line(&e), "Toggle: MOUSE -> Active");
    e.toggle_harvester("nothing", false);
    assert_eq!(last_line(&e), "Toggle: nothing -> Inactive");
}

#[test]
fn guitars_are_switched_by_name() {
    let mut e = engine();
    e.toggle_harvester("guitar_thalyn", false);
    assert!(!e.state.guitar_states[2].enabled);
    assert!(e.state.guitar_states[0].enabled && e.state.guitar_states[3].enabled);
    e.toggle_harvester("GUITAR_GUITAR_THALYN", true);
    assert!(e.state.guitar_states[2].enabled);
    e.toggle_harvester("GUITAR_UNKNOWN", false);
    assert!(e.state.guitar_states.iter().all(|g| g.enabled));
}

#[test]
fn network_controls() {
    let mut e = engine();
    e.toggle_uplink(true);
    assert!(e.state.net_mode);
    assert_eq!(last_line(&e), "Network Uplink -> ENABLED");
    e.toggle_uplink(false);
    assert_eq!(last_line(&e), "Network Uplink -> PAUSED");
    e.set_uplink_target("1.2.3.4".into(), 0);
    assert_eq!(e.state.uplink_url, "http://1.2.3.4:8000/entropy");
    assert_eq!(last_line(&e), "NET: Uplink target set to 1.2.3.4:8000");
    e.set_uplink_target("h".into(), 81);
    assert_eq!(e.state.uplink_url, "http://h:81/entropy");

    e.add_headscale_target("N".into(), "9.9.9.9".into(), 7);
    assert_eq!(last_line(&e), "HEADSCALE: Added target N @ 9.9.9.9:7");
    assert!(e.state.headscale_targets[1].target.enabled);
    e.toggle_headscale(1, false);
    assert_eq!(last_line(&e), "HEADSCALE: N -> DISABLED (9.9.9.9:7)");
    let before = e.state.logs.lines.len();
    e.toggle_headscale(2, true);
    e.remove_headscale_target(2);
    assert_eq!(e.state.logs.lines.len(), before);
    e.remove_headscale_target(0);
    assert_eq!(last_line(&e), "HEADSCALE: Removed target Vault Node");
    assert_eq!(e.state.headscale_targets.len(), 1);
    assert_eq!(e.state.headscale_targets[0].target.name, "N");
}

#[test]
fn peer_controls() {
    let mut e = engine();
    e.toggle_p2p(true);
    assert_eq!(last_line(&e), "P2P Mode -> ENABLED");
    assert_eq!(e.set_p2p_hmac_key("xyz".into()), Err(KeyRefusal::NotHex));
    assert_eq!(e.set_p2p_hmac_key("00".into()), Err(KeyRefusal::WrongLength));
    assert_eq!(KeyRefusal::NotHex.message(), "Invalid hex key");
    assert_eq!(KeyRefusal::WrongLength.message(), "HMAC key must be 32 bytes");
    assert_eq!(e.state.p2p_config.hmac_key, None);
    let key = format!("  {}\n", "aB".repeat(32));
    assert_eq!(e.set_p2p_hmac_key(key), Ok(()));
    assert_eq!(e.state.p2p_config.hmac_key, Some(vec![0xab; 32]));
    assert_eq!(last_line(&e), "P2P: HMAC authentication ENABLED");
    e.add_peer("p:1".into());
    assert_eq!(last_line(&e), "P2P: Added peer p:1");
    let before = e.state.logs.lines.len();
    e.add_peer("p:1".into());
    assert_eq!(e.state.p2p_config.peers, vec!["p:1"]);
    assert_eq!(e.state.logs.lines.len(), before);
    e.count_received();
    assert_eq!(e.state.p2p_config.received_count, 1);
}

#[test]
fn device_controls() {
    let mut e = engine();
    e.set_audio_device(3);
    e.set_camera_device(2);
    e.set_usb_serial_port("/dev/ttyUSB0".into(), 9600);
    e.set_wifi_interface("wlan0".into());
    assert_eq!(e.state.audio_device_index, Some(3));
    assert_eq!(e.state.camera_device_index, 2);
    assert_eq!(e.state.usb_serial_baud, 9600);
    assert_eq!(e.state.wifi_interface, "wlan0");
    for (given, kept) in [(0.05, 0.1), (5.0, 5.0), (11.0, 10.0), (f64::NAN, 0.1)] {
        e.set_audio_gain(bits(given));
        assert_eq!(e.state.audio_gain, bits(kept));
    }
    e.set_auto_mint(true);
    assert_eq!(last_line(&e), "AUTO-MINT -> ENABLED (threshold: 256 credited bits)");
}

#[test]
fn live_mode_switches_the_safe_harvesters() {
    let mut e = engine();
    e.state.gpu_ocl_available = true;
    e.set_live_mode(true);
    let h = e.state.harvester_states;
    assert!(h.trng && h.audio && h.system && h.video && h.wifi && h.usb_serial && h.bt_passive);
    assert!(h.gpu_ocl && !h.gpu_cuda && !h.mouse && !h.bt_active);
    assert_eq!(last_line(&e), "LIVE MODE -> ON — all harvesters enabled");
    e.set_live_mode(false);
    assert!(e.state.guitar_states.iter().all(|g| !g.enabled));
    assert_eq!(last_line(&e), "LIVE MODE -> OFF");
}

#[test]
fn saved_settings_restore_the_switches() {
    let mut e = engine();
    e.toggle_harvester("wifi", true);
    e.toggle_uplink(true);
    e.set_uplink_target("u".into(), 5);
    e.add_headscale_target("N".into(), "i".into(), 1);
    e.set_audio_gain(bits(2.0));
    e.save_config();
    let again = started(e.config.clone());
    assert_eq!(again.state.harvester_states, e.state.harvester_states);
    assert_eq!(again.state.uplink_url, "http://u:5/entropy");
    assert!(again.state.net_mode);
    assert_eq!(again.state.headscale_targets.len(), 2);
    assert_eq!(again.state.audio_gain, bits(2.0));
}

#[test]
fn shutdown_wipes_secrets() {
    let mut e = engine();
    e.state.pool = [7; 32];
    e.state.p2p_config.hmac_key = Some(vec![1; 32]);
    e.shutdown();
    assert!(!e.running);
    assert_eq!(e.state.falcon_sk.len(), 0);
    assert!(e.state.falcon_sk.sign(&[1]).is_none());
    assert_eq!(e.state.pool, [0; 32]);
    assert_eq!(e.state.p2p_config.hmac_key, Some(vec![]));
    assert_eq!(last_line(&e), "ENGINE: Shutdown + key zeroization complete");
}

#[test]
fn settings_start_all_safe_harvesters() {
    let mut config = NullMagnetConfig::default();
    config.sources = nullmagnet::config::HarvesterStates::default().to_config();
    let quiet = started(config.clone()).state.harvester_states;
    assert_eq!(quiet, nullmagnet::config::HarvesterStates::default());
    config.general.auto_start = true;
    let h = started(config.clone()).state.harvester_states;
    assert!(h.trng && h.audio && h.system && h.video && h.wifi && h.usb_serial && h.bt_passive);
    assert!(!h.mouse && !h.bt_active && !h.gpu_cuda && !h.gpu_ocl);
    let found = DetectedDevices { opencl_available: true, ..devices() };
    let e = ChaosEngine::start_with(config, &found, vec![], SigningKey::of(vec![]), "01:02:03");
    assert!(e.state.harvester_states.gpu_ocl && !e.state.harvester_states.gpu_cuda);
}

#[test]
fn devices_are_chosen_by_name() {
    let found = DetectedDevices {
        audio_inputs: vec![(0, "Built-in".into()), (3, "USB".into()), (4, "USB".into())],
        cameras: vec![(0, "Front".into()), (2, "Rear".into())],
        ..devices()
    };
    let start = |audio: &str, camera: &str| {
        let mut config = NullMagnetConfig::default();
        config.devices.audio_device = audio.into();
        config.devices.camera_device = camera.into();
        let e = ChaosEngine::start_with(config, &found, vec![], SigningKey::of(vec![]), "01:02:03");
        (e.state.audio_device_index, e.state.camera_device_index)
    };
    assert_eq!(start("", ""), (None, 0));
    assert_eq!(start("USB", "Rear"), (Some(3), 2));
    assert_eq!(start("usb", "Side"), (None, 0));
}

#[test]
fn settings_limit_the_log() {
    let mut config = NullMagnetConfig::default();
    config.general.max_log_lines = 3;
    let mut e = started(config.clone());
    assert_eq!(e.state.logs.lines.len(), 3);
    assert_eq!(e.state.logs.lines[2], "[01:02:03] HEADSCALE: Vault Node @ 127.0.0.1:8100 (disabled)");
    e.state.logs.note_at("t", "a");
    e.state.logs.note_at("t", "b");
    assert_eq!(e.state.logs.lines.len(), 3);
    assert_eq!((e.state.logs.lines[1].as_str(), e.state.logs.lines[2].as_str()), ("[t] a", "[t] b"));
    config.general.max_log_lines = 0;
    let mut none = started(config);
    none.log("x");
    assert!(none.state.logs.lines.is_empty());
    assert_eq!(LogBook::of(vec!["1".into(), "2".into()], 5).copy(), vec!["1", "2"]);
}

#[test]
fn settings_say_where_keys_go_and_what_they_need() {
    let mut config = NullMagnetConfig::default();
    config.general.keys_dir = "vault/out".into();
    config.pqc.min_entropy_bits = bits(512.75);
    let mut e = ChaosEngine::new(config, &devices());
    e.set_auto_mint(true);
    assert_eq!(last_line(&e), "AUTO-MINT -> ENABLED (threshold: 512 credited bits)");
    e.state.extraction_pool.aggregate_credited_bits = bits(512.5);
    let refused = e.mint_pqc_bundle("", "512").err().unwrap();
    assert_eq!(refused, MintError::Insufficient { needed: 512 });
    assert_eq!(refused.message("512"), "Insufficient entropy (512/512 aggregate credited bits)");
    e.state.extraction_pool.aggregate_credited_bits = bits(512.75);
    let bundle = e.mint_pqc_bundle("", "513").ok().unwrap();
    assert_eq!(
        last_line(&e),
        format!("VAULT: Saved vault/out/{}.json (aggregate: 513 bits)", bundle.name)
    );
    assert_eq!(e.get_metrics().mint_threshold, bits(512.75));
}

#[test]
fn names_of_harvesters_are_found() {
    assert_eq!(find_harvester("SYSTEM/CPU"), Some(Harvester::System));
    assert_eq!(find_harvester("HID (MOUSE)"), Some(Harvester::Mouse));
    assert_eq!(find_harvester("mouse"), None);
    let mut one = engine();
    let mut other = engine();
    assert_eq!(one.toggle_harvester("Hid (Mouse)", true), other.toggle_harvester("hID (mOUSE)", true));
    assert_eq!(one.state.harvester_states, other.state.harvester_states);
    one.toggle_harvester("guitar_spectra", false);
    other.toggle_harvester("GUITAR_Spectra", false);
    assert!(!one.state.guitar_states[0].enabled && !other.state.guitar_states[0].enabled);
}

#[test]
fn what_peers_send_is_tested() {
    let mut tester = NistHealthTester::new();
    tester.start();
    let accepted =
        |payload: Vec<u8>| PeerReply::Accepted { source: "P2P_1.2.3.4".into(), payload };
    let good: Vec<u8> = (0..4100u32).map(|k| (k * 7 % 251) as u8).collect();
    assert!(pass_on(&accepted(good[..4000].to_vec()), &mut tester).is_none());
    let (source, passed) = pass_on(&accepted(good[4000..].to_vec()), &mut tester).unwrap();
    assert_eq!(source, "P2P_1.2.3.4");
    assert_eq!(passed, good[4096..].to_vec());
    assert!(pass_on(&PeerReply::Busy, &mut tester).is_none());
    assert!(tester.is_healthy());
    assert!(pass_on(&accepted(vec![9; 40]), &mut tester).is_none());
    assert!(!tester.is_healthy());
}

#[test]
fn the_log_keeps_five_hundred_lines() {
    let mut e = engine();
    for k in 0..600 {
        e.state.logs.note_at("t", &format!("line {}", k));
    }
    assert_eq!(e.state.logs.lines.len(), 500);
    assert_eq!(e.state.logs.lines.front().unwrap(), "[t] line 100");
    assert_eq!(e.state.logs.lines.back().unwrap(), "[t] line 599");
}

#[test]
fn queues_drop_the_oldest() {
    let mut queue: VecDeque<u8> = filled_queue(9, 3);
    push_capped(&mut queue, 1, 3);
    assert_eq!(queue_items(&queue), vec![9, 9, 1]);
    push_all_capped(&mut queue, &[2, 3, 4, 5], 3);
    assert_eq!(queue_items(&queue), vec![3, 4, 5]);
    push_capped(&mut queue, 6, 10);
    assert_eq!(queue_items(&queue), vec![3, 4, 5, 6]);
}

#[test]
fn random_stream_is_seeded_by_the_pool() {
    let pool = [3u8; 32];
    let mut rng = HarvestedRng::seeded(&pool, 0x0102);
    let mut input = b"NullMagnet_HarvestedRng_v2".to_vec();
    input.extend_from_slice(&pool);
    input.extend_from_slice(&0x0102u64.to_le_bytes());
    let seed = sha3::Sha3_256::digest(&input);
    let block = |k: u64| {
        let mut data = seed.to_vec();
        data.extend_from_slice(&k.to_le_bytes());
        sha3::Sha3_256::digest(&data).to_vec()
    };
    let mut stream = block(0);
    stream.extend(block(1));
    assert_eq!(rng.mix(&[0u8; 40]), stream[..40].to_vec());
    assert_eq!(rng.mix(&[0u8; 24]), stream[40..].to_vec());

    let mut whole = HarvestedRng::seeded(&pool, 0x0102);
    let os: Vec<u8> = (0..40).collect();
    let mixed = whole.mix(&os);
    let mut undo = HarvestedRng::seeded(&pool, 0x0102);
    assert_eq!(undo.mix(&mixed), os);
    let drawn = undo.fill_bytes(16);
    assert_eq!(drawn.len(), 16);
    assert_ne!(undo.next_u64(), undo.next_u64());
    let _ = undo.next_u32();
    undo.wipe();
    assert_eq!((undo.pool_seed, undo.block, undo.counter, undo.pos), ([0; 32], [0; 32], 0, 0));
    assert!(HarvestedRng::from_pool(&pool).is_some());
    assert!(HarvestedRng::seeded_at(&pool, None).is_none());
    let again = HarvestedRng::seeded_at(&pool, Some(0x0102)).unwrap();
    assert_eq!(again.pool_seed.to_vec(), seed.to_vec());
}

#[test]
fn batches_are_absorbed() {
    let mut e = engine();
    assert!(e.state.has_headroom("TRNG", 300));
    let brought = e.state.absorb_at(
        "TRNG",
        &[5; 300],
        numbers(3.5, 300.0),
        &[ClockReading { seconds: 9, nanos: 8 }],
    );
    let brought = brought.unwrap();
    assert_eq!(brought.output.len(), 32);
    assert_eq!(e.state.extraction_pool.accumulated_bytes(), 44);
    assert_eq!(e.state.estimated_true_entropy_bits, bits(50.0));
    assert_eq!(e.state.credited_entropy_bits, bits(60.0));
    assert_eq!(e.state.last_shannon, bits(7.5));
    assert_eq!(e.state.history_raw_entropy.len(), 300);
    assert_eq!(*e.state.history_raw_entropy.back().unwrap(), bits(3.5));
    let first = e.state.source_metrics.get("TRNG").unwrap();
    assert_eq!((first.samples, first.avg_raw_entropy), (1, bits(7.5)));
    assert!(e.state.absorb("TRNG", &[1, 2], numbers(2.0, 300.0)).unwrap().is_none());
    let second = e.state.source_metrics.get("TRNG").unwrap();
    assert_eq!((second.samples, second.avg_raw_entropy), (2, bits(7.25)));
    assert_eq!(second.min_entropy, bits(2.0));
    assert!(e.state.source_metrics.get("AUDIO").is_none());
}

fn primed() -> ChaosEngine {
    let mut e = engine();
    e.state.extraction_pool.aggregate_credited_bits = bits(300.0);
    e.state.extraction_pool.extractions_count = 4;
    e.state.auto_mint_enabled = true;
    e.state.net_mode = true;
    e.state.headscale_targets[0].target.enabled = true;
    e.state.p2p_config.active = true;
    e.state.p2p_config.peers.push("p:1".into());
    e.state.p2p_config.hmac_key = Some(vec![1; 32]);
    e
}

#[test]
fn conditioned_bytes_are_handed_on() {
    let mut e = primed();
    let mut memory = MixerMemory::new();
    let times = HandoverTimes { nanos: 77, mint: 1000, send: 1000 };
    let extracted = [6u8; 32];
    let plan =
        e.state.hand_on_at(&mut memory, "TRNG", &extracted, bits(4.5), bits(3.5), &shown(), times);
    let mut input = [0u8; 32].to_vec();
    input.extend_from_slice(b"TRNG");
    input.extend_from_slice(&extracted);
    input.extend_from_slice(&77u64.to_le_bytes());
    let pool: [u8; 32] = sha3::Sha3_256::digest(&input).into();
    assert_eq!(e.state.pool, pool);
    assert_eq!(e.state.total_bytes, 32);
    assert_eq!(plan.seq_id, 1);
    assert_eq!(*e.state.history_whitened_entropy.back().unwrap(), bits(4.5));
    assert_eq!(e.state.display_pool.len(), 1024);
    assert_eq!(*e.state.display_pool.back().unwrap(), 6);
    let mint = plan.mint.unwrap();
    assert_eq!(mint.pool, pool);
    assert_eq!((mint.aggregate, mint.decided_at), (bits(300.0), 1000));
    assert_eq!((mint.falcon_pk, mint.falcon_sk.len()), (vec![1, 2, 3], 2));
    assert_eq!(plan.net_target, Some(String::from("http://127.0.0.1:8000/ingest")));
    assert_eq!(plan.hs_targets, vec![(0, String::from("http://127.0.0.1:8100/entropy"))]);
    let p2p = plan.p2p.unwrap();
    assert_eq!((p2p.peers, p2p.hmac_key), (vec![String::from("p:1")], Some(vec![1; 32])));
    assert_eq!(e.state.headscale_targets[0].forwarded_count, 1);
    assert_eq!(e.state.headscale_targets[0].last_forward_ts, 1000);
    let lines = e.state.logs.copy();
    let n = lines.len();
    assert_eq!(
        &lines[n - 2][11..],
        "EXTRACT #4 | 256->32 bytes | H_min:3.50 | Credited:218 bits | Src:TRNG"
    );
    assert_eq!(&lines[n - 1][11..], "AUTO-MINT: Aggregate=300 bits, H_min=3.50");
}

#[test]
fn sending_and_minting_are_paced() {
    let mut e = primed();
    let mut memory = MixerMemory::new();
    let mut at = |e: &mut ChaosEngine, second: u64| {
        let times = HandoverTimes { nanos: 1, mint: second, send: second };
        let plan =
            e.state.hand_on_at(&mut memory, "X", &[1; 32], bits(4.0), bits(3.5), &shown(), times);
        (plan.mint.is_some(), plan.net_target.is_some(), plan.hs_targets.len())
    };
    assert_eq!(at(&mut e, 1000), (true, true, 1));
    e.state.last_auto_mint_ts = 1000;
    assert_eq!(at(&mut e, 1000), (false, false, 0));
    assert_eq!(at(&mut e, 1005), (false, true, 0));
    assert_eq!(at(&mut e, 1006), (false, true, 1));
    assert_eq!(at(&mut e, 1009), (false, true, 0));
    assert_eq!(at(&mut e, 1010), (true, true, 0));
    assert_eq!(at(&mut e, 900), (true, false, 0));
}

#[test]
fn minting_unasked_needs_credit_and_a_good_batch() {
    let times = HandoverTimes { nanos: 1, mint: 50, send: 50 };
    let wants = |change: fn(&mut ChaosEngine), raw_min: f64| {
        let mut e = primed();
        change(&mut e);
        let mut memory = MixerMemory::new();
        let plan =
            e.state.hand_on_at(&mut memory, "X", &[], bits(0.0), bits(raw_min), &shown(), times);
        plan.mint.is_some()
    };
    assert!(wants(|_| {}, 1.5));
    assert!(!wants(|_| {}, 1.0));
    assert!(wants(|e| e.state.extraction_pool.aggregate_credited_bits = bits(256.0), 1.5));
    assert!(!wants(|e| e.state.extraction_pool.aggregate_credited_bits = bits(255.9), 1.5));
    assert!(!wants(|e| e.state.auto_mint_enabled = false, 1.5));
    assert!(!wants(|e| e.state.pqc_active = false, 1.5));
}

#[test]
fn handing_on_now_reads_the_clock() {
    let mut e = primed();
    let mut memory = MixerMemory::new();
    let plan = e.state.hand_on(&mut memory, "X", &[1; 32], bits(4.0), bits(3.5), &shown());
    assert_eq!(plan.unwrap().seq_id, 1);
    assert!(memory.last_net_time > 1_500_000_000);
}

#[test]
fn minting_is_refused_without_credit() {
    let mut e = engine();
    let refused = e.mint_pqc_bundle("", "0").err().unwrap();
    assert_eq!(refused, MintError::Insufficient { needed: 256 });
    assert_eq!(refused.message("0"), "Insufficient entropy (0/256 aggregate credited bits)");
    e.state.pqc_active = false;
    assert_eq!(e.mint_pqc_bundle("", "0").err(), Some(MintError::Offline));
    assert_eq!(MintError::Offline.message(""), "PQC Engine Offline");
    assert_eq!(e.mint_pqc_bundle_encrypted("").err(), Some(MintError::PasswordRequired));
    assert_eq!(MintError::PasswordRequired.message(""), "Vault password required");
    e.state.pqc_active = true;
    e.state.extraction_pool.aggregate_credited_bits = bits(256.0);
    let bad = e.mint_pqc_bundle("", "256").err().unwrap();
    assert_eq!(bad, MintError::FalconKey { actual: 2 });
    assert_eq!(
        bad.message(""),
        "Falcon key error: error: SecretKey expected 1281 bytes, got 2"
    );
    assert_eq!(e.state.extraction_pool.aggregate_credited_bits, bits(256.0));
}

#[test]
fn a_bundle_is_minted_and_the_credit_spent() {
    let mut e = ChaosEngine::new(NullMagnetConfig::default(), &devices());
    e.state.extraction_pool.aggregate_credited_bits = bits(256.0);
    e.state.credited_entropy_bits = bits(256.0);
    let sealed = e.mint_pqc_bundle_encrypted("pw").ok().unwrap();
    assert_eq!(sealed.requester, "VAULT_ENCRYPTED");
    let bundle = e.mint_pqc_bundle("", "256").ok().unwrap();
    assert_ne!(sealed.mlkem_ek, bundle.mlkem_ek);
    assert_eq!(bundle.requester, "MANUAL");
    assert_eq!(bundle.mlkem_ek.len(), 2 * 1568);
    assert_eq!(bundle.mlkem_dk.len(), 2 * 3168);
    assert!(bundle.mlkem_dk.contains(&bundle.mlkem_ek));
    assert_eq!(bundle.falcon_signer_pk, hex::encode(&e.state.falcon_pk));
    assert!(bundle.falcon_sig.len() <= 2 * 666 && bundle.falcon_sig.len() > 1000);
    assert_eq!(
        bundle.path("keys"),
        format!("keys/key_{}_{}.json", bundle.timestamp, &bundle.mlkem_ek[..8])
    );
    assert_eq!(last_line(&e), format!("VAULT: Saved {} (aggregate: 256 bits)", bundle.path("keys")));
    assert_eq!(e.state.credited_entropy_bits, bits(0.0));
    assert_eq!(e.mint_pqc_bundle("", "0").err(), Some(MintError::Insufficient { needed: 256 }));

    e.finish_encrypted_mint("keys/a.vault", "300");
    assert_eq!(last_line(&e), "VAULT: Encrypted keys/a.vault (AES-256-GCM, 300 bits)");
    e.finish_auto_mint("keys/b.json", 42);
    assert_eq!(last_line(&e), "VAULT: Saved keys/b.json");
    assert_eq!(e.state.last_auto_mint_ts, 42);
}

#[test]
fn signatures_are_over_the_pool_and_the_key() {
    let e = ChaosEngine::new(NullMagnetConfig::default(), &devices());
    let pool = [9u8; 32];
    let draw = MintDraw::take().unwrap();
    let made = make_keys(&pool, &e.state.falcon_sk, &draw).ok().unwrap();
    let mut context = pool.to_vec();
    context.extend_from_slice(&made.ek);
    let digest = sha3::Sha3_256::digest(&context);
    let signature =
        <pqcrypto_falcon::falcon512::DetachedSignature as pqcrypto_traits::sign::DetachedSignature>::from_bytes(
            &made.signature,
        )
        .unwrap();
    let public =
        <pqcrypto_falcon::falcon512::PublicKey as pqcrypto_traits::sign::PublicKey>::from_bytes(
            &e.state.falcon_pk,
        )
        .unwrap();
    assert!(pqcrypto_falcon::falcon512::verify_detached_signature(&signature, &digest, &public)
        .is_ok());
}

fn draw() -> MintDraw {
    MintDraw { nanos: 5, os_d: vec![1; 32], os_z: vec![2; 32], timestamp: 77 }
}

#[test]
fn keys_come_from_the_pool_and_the_operating_system() {
    let pool = [3u8; 32];
    let mut input = b"NullMagnet_HarvestedRng_v2".to_vec();
    input.extend_from_slice(&pool);
    input.extend_from_slice(&5u64.to_le_bytes());
    let seed = sha3::Sha3_256::digest(&input);
    let seed_with = |number: u64, os: u8| {
        let mut data = seed.to_vec();
        data.extend_from_slice(&number.to_le_bytes());
        let block: [u8; 32] = sha3::Sha3_256::digest(&data).into();
        block.map(|b| b ^ os)
    };
    let (dk, ek) = ml_kem::MlKem1024::generate_deterministic(
        &seed_with(0, 1).into(),
        &seed_with(1, 2).into(),
    );
    let secret = ChaosEngine::new(NullMagnetConfig::default(), &devices()).state.falcon_sk;
    let made = make_keys(&pool, &secret, &draw()).ok().unwrap();
    assert_eq!(made.dk, dk.as_bytes().to_vec());
    assert_eq!(made.ek, ek.as_bytes().to_vec());

    let bundle = mint_with(&pool, &secret, &vec![8], "AUTO", Some(bits(2.5)), bits(300.0), Some(draw()));
    let bundle = bundle.ok().unwrap();
    assert_eq!(bundle.timestamp, 77);
    assert_eq!(bundle.mlkem_ek, hex::encode(ek.as_bytes()));
    assert_eq!(bundle.falcon_signer_pk, "08");
    assert_eq!(bundle.name, format!("key_77_{}", &bundle.mlkem_ek[..8]));
}

#[test]
fn draws_and_times_need_every_reading() {
    let reading = ClockReading { seconds: 77, nanos: 5 };
    let drawn = MintDraw::at(Some(reading), vec![1; 32], vec![2; 32]).unwrap();
    assert_eq!((drawn.nanos, drawn.timestamp), (5, 77));
    assert_eq!((drawn.os_d, drawn.os_z), (vec![1; 32], vec![2; 32]));
    assert!(MintDraw::at(None, vec![1; 32], vec![2; 32]).is_none());
    let times = HandoverTimes { nanos: 1, mint: 2, send: 3 };
    assert_eq!(HandoverTimes::at(Some(1), Some(2), Some(3)), Some(times));
    assert_eq!(HandoverTimes::at(None, Some(2), Some(3)), None);
    assert_eq!(HandoverTimes::at(Some(1), None, Some(3)), None);
    assert_eq!(HandoverTimes::at(Some(1), Some(2), None), None);
}

#[test]
fn minting_says_why_it_fails() {
    let pool = [3u8; 32];
    let short = SigningKey::of(vec![0u8; 1280]);
    let attempt = |draw: Option<MintDraw>| {
        mint_with(&pool, &short, &vec![], "AUTO", None, bits(0.0), draw).err().unwrap()
    };
    assert_eq!(attempt(Some(draw())), MintError::FalconKey { actual: 1280 });
    assert_eq!(attempt(None), MintError::Clock);
    assert_eq!(MintError::Clock.message(""), "The clock stands before 1970");

    let mut e = ChaosEngine::new(NullMagnetConfig::default(), &devices());
    e.state.extraction_pool.aggregate_credited_bits = bits(256.0);
    assert_eq!(e.mint_pqc_bundle_with("", "256", None).err(), Some(MintError::Clock));
    assert_eq!(e.state.extraction_pool.aggregate_credited_bits, bits(256.0));
    assert_eq!(e.mint_pqc_bundle_encrypted_with("", Some(draw())).err(), Some(MintError::PasswordRequired));
    assert_eq!(e.mint_pqc_bundle_with("me", "256", Some(draw())).ok().unwrap().requester, "me");
    assert_eq!(
        e.mint_pqc_bundle_encrypted_with("pw", Some(draw())).err(),
        Some(MintError::Insufficient { needed: 256 })
    );
}

#[test]
fn bundles_are_written_in_hexadecimal() {
    let mut material =
        KeyMaterial { dk: vec![1, 2], ek: vec![0xaa, 0xbb, 0xcc, 0xdd, 0xee], signature: vec![5] };
    let bundle =
        assemble_bundle(&mut material, &vec![6], "AUTO", 12, Some(bits(2.5)), bits(300.0));
    assert_eq!(bundle.name, "key_12_aabbccdd");
    assert_eq!(bundle.mlkem_ek, "aabbccddee");
    assert_eq!(bundle.mlkem_dk, "0102");
    assert_eq!(bundle.falcon_sig, "05");
    assert_eq!(bundle.falcon_signer_pk, "06");
    assert_eq!(bundle.raw_min_entropy, Some(bits(2.5)));
    assert_eq!((bundle.kind, bundle.version), ("NULLMAGNET_PQC_BUNDLE", "2.0"));
    assert!(bundle.nist_compliant);
    assert_eq!((bundle.kem_algorithm, bundle.sig_algorithm), ("ML-KEM-1024", "Falcon-512"));
    assert_eq!(bundle.kem_seed, "OsRng_XOR_HarvestedPool");
    assert!(material.dk.is_empty() && material.ek.is_empty());
}

fn fields_of(post: &nullmagnet::engine::peer::PeerPost) -> PeerFields {
    PeerFields {
        node_id: post.node_id.into(),
        seq: post.seq,
        timestamp: post.timestamp,
        payload_hex: post.payload_hex.clone(),
        sources: post.sources.into(),
        mac_hex: post.mac_hex.clone().unwrap_or_default(),
    }
}

#[test]
fn a_sent_message_is_taken() {
    let key = Some(vec![4u8; 32]);
    let post = peer_post("1.2.3.4:9000", 7, 1000, &[1, 2, 3], &key);
    assert_eq!(post.url, "http://1.2.3.4:9000");
    assert_eq!(post.payload_hex, "010203");
    let gate = Gate::Open { hmac_key: key.clone() };
    match answer_fields(Some(fields_of(&post)), "5.6.7.8", &gate, 1300) {
        PeerReply::Accepted { source, payload } => {
            assert_eq!(source, "P2P_5.6.7.8");
            assert_eq!(payload, vec![1, 2, 3]);
        }
        _ => panic!("refused"),
    }
    let late = answer_fields(Some(fields_of(&post)), "x", &gate, 1301);
    assert!(matches!(late, PeerReply::TimeMismatch));
    let early = answer_fields(Some(fields_of(&post)), "x", &gate, 699);
    assert!(matches!(early, PeerReply::TimeMismatch));
    let mut forged = fields_of(&post);
    forged.seq = 8;
    assert!(matches!(answer_fields(Some(forged), "x", &gate, 1000), PeerReply::HmacInvalid));
    let open = Gate::Open { hmac_key: None };
    let mut bare = fields_of(&post);
    bare.mac_hex = String::new();
    assert!(matches!(answer_fields(Some(bare), "x", &open, 9), PeerReply::Accepted { .. }));
    let plain = peer_post("p", 1, -5, &[], &None);
    assert!(plain.mac_hex.is_none());
}

#[test]
fn tags_are_checked() {
    let key = [9u8; 32];
    let mut message = b"node|".to_vec();
    message.extend_from_slice(&3u64.to_le_bytes());
    message.extend_from_slice(b"|");
    message.extend_from_slice(&(-4i64).to_le_bytes());
    message.extend_from_slice(b"|mixed|pay");
    let mut mac = <hmac::Hmac<sha2::Sha256> as hmac::Mac>::new_from_slice(&key).unwrap();
    hmac::Mac::update(&mut mac, &message);
    let tag = hex::encode(hmac::Mac::finalize(mac).into_bytes());
    assert!(validate_hmac(&key, "node", 3, -4, b"pay", "mixed", &tag));
    assert!(!validate_hmac(&key, "node", 3, -4, b"pax", "mixed", &tag));
    assert!(!validate_hmac(&key, "node", 3, -4, b"pay", "mixed", &tag[..62]));
    assert!(!validate_hmac(&key, "node", 3, -4, b"pay", "mixed", "zz"));
    assert!(!validate_hmac(&[8; 32], "node", 3, -4, b"pay", "mixed", &tag));
}

#[test]
fn requests_are_read() {
    let body = r#"{"node_id":"n","seq":5,"timestamp":-6,"payload_hex":"0a","sources":"s","mac_hex":"ff"}"#;
    let request = format!("POST / HTTP/1.1\r\nHost: x\r\n\r\n{}", body);
    let f = read_request(&request).unwrap();
    assert_eq!((f.node_id.as_str(), f.seq, f.timestamp), ("n", 5, -6));
    assert_eq!((f.payload_hex.as_str(), f.sources.as_str(), f.mac_hex.as_str()), ("0a", "s", "ff"));
    let empty = read_request("\r\n\r\n[1]").unwrap();
    assert_eq!((empty.node_id.as_str(), empty.seq, empty.timestamp), ("", 0, 0));
    assert!(read_request("no end of headers").is_none());
    assert!(read_request("x\r\n\r\n{").is_none());
    let odd = read_request("x\r\n\r\n{\"seq\":\"5\",\"payload_hex\":7}").unwrap();
    assert_eq!((odd.seq, odd.payload_hex.as_str()), (0, ""));
}

#[test]
fn requests_are_answered() {
    let open = Gate::Open { hmac_key: None };
    let ask = |request: &str, gate: &Gate| {
        answer_request(request, "9.9.9.9", gate).unwrap().response()
    };
    assert_eq!(
        ask("x", &open),
        "HTTP/1.1 400 Bad Request\r\nContent-Length: 5\r\n\r\nERROR"
    );
    assert_eq!(
        ask("x\r\n\r\n{\"payload_hex\":\"0\"}", &open),
        "HTTP/1.1 400 Bad Request\r\nContent-Length: 11\r\n\r\nINVALID_HEX"
    );
    assert_eq!(
        ask("x\r\n\r\n{\"payload_hex\":\"00\"}", &Gate::Busy),
        "HTTP/1.1 503 Service Unavailable\r\nContent-Length: 4\r\n\r\nBUSY"
    );
    assert_eq!(
        ask("x\r\n\r\n{\"payload_hex\":\"00\"}", &open),
        "HTTP/1.1 200 OK\r\nContent-Length: 2\r\n\r\nOK"
    );
    let keyed = Gate::Open { hmac_key: Some(vec![1; 32]) };
    assert_eq!(
        ask("x\r\n\r\n{\"payload_hex\":\"00\"}", &keyed),
        "HTTP/1.1 403 Forbidden\r\nContent-Length: 12\r\n\r\nHMAC_INVALID"
    );
    let post = peer_post("p", 1, 1000, &[0], &Some(vec![1; 32]));
    let stale = format!(
        "x\r\n\r\n{{\"node_id\":\"{}\",\"seq\":1,\"timestamp\":1000,\"payload_hex\":\"00\",\"sources\":\"mixed\",\"mac_hex\":\"{}\"}}",
        post.node_id,
        post.mac_hex.unwrap()
    );
    assert_eq!(
        ask(&stale, &keyed),
        "HTTP/1.1 403 Forbidden\r\nContent-Length: 13\r\n\r\nTIME_MISMATCH"
    );
    let mut e = engine();
    e.state.p2p_config.hmac_key = Some(vec![1; 32]);
    assert!(matches!(e.state.gate(), Gate::Open { hmac_key: Some(_) }));
}

#[test]
fn requests_are_held_to_the_clock() {
    let key = Some(vec![1; 32]);
    let keyed = Gate::Open { hmac_key: key.clone() };
    let now = get_timestamp().unwrap() as i64;
    let ask = |apart: i64| {
        let post = peer_post("p", 1, now + apart, &[7], &key);
        let request = format!(
            "x\r\n\r\n{{\"node_id\":\"{}\",\"seq\":1,\"timestamp\":{},\"payload_hex\":\"07\",\"sources\":\"mixed\",\"mac_hex\":\"{}\"}}",
            post.node_id,
            post.timestamp,
            post.mac_hex.unwrap()
        );
        answer_request(&request, "9.9.9.9", &keyed).unwrap()
    };
    assert!(matches!(ask(0), PeerReply::Accepted { .. }));
    assert!(matches!(ask(-250), PeerReply::Accepted { .. }));
    assert!(matches!(ask(250), PeerReply::Accepted { .. }));
    assert!(matches!(ask(-301), PeerReply::TimeMismatch));
    assert!(matches!(ask(400), PeerReply::TimeMismatch));
}

#[test]
fn drawn_times_are_seconds_and_nanoseconds() {
    let draw = MintDraw::take().unwrap();
    assert!(draw.timestamp.abs_diff(get_timestamp().unwrap()) <= 1);
    assert!((draw.nanos / 1_000_000_000).abs_diff(draw.timestamp) <= 1);
    assert_eq!((draw.os_d.len(), draw.os_z.len()), (32, 32));
}

#[test]
fn posts_are_put_together() {
    let up = uplink_post("u", 3, 4, "TRNG", &[0xff], b"abc");
    assert_eq!((up.url.as_str(), up.node, up.version, up.nist_compliant), ("u", "nullmagnet_live", "2.0", true));
    assert_eq!((up.seq, up.timestamp, up.source.as_str(), up.payload_hex.as_str()), (3, 4, "TRNG", "ff"));
    assert_eq!(
        up.digest,
        "3a985da74fe225b2045c172d6bd390bd855f086e3e9d525b46bfe24511431532"
    );
    let hs = headscale_post("h", 3, 4, &[0x10]);
    assert_eq!((hs.url.as_str(), hs.node, hs.version, hs.payload_hex.as_str()), ("h", "nullmagnet_live", "2.0", "10"));
}

#[test]
fn a_snapshot_shows_the_engine() {
    let mut e = engine();
    e.state.pool = [0xab; 32];
    e.state.absorb_at("TRNG", &[1, 2, 2], numbers(3.5, 10.0), &[]);
    let m = e.get_metrics();
    assert_eq!(m.pool_hex, "AB".repeat(32));
    assert_eq!(m.accumulated_bytes, 3);
    assert_eq!(m.current_raw_entropy, bits(3.5));
    assert_eq!(m.current_whitened_entropy, bits(0.0));
    assert_eq!(m.source_metrics.len(), 1);
    assert_eq!(m.source_metrics[0].name, "TRNG");
    assert_eq!(m.running_total_bytes, 3);
    assert_eq!(m.running_unique_values, 2);
    assert_eq!(m.running_counts[2], 2);
    assert_eq!(m.logs.len(), e.state.logs.lines.len());
    assert_eq!(m.guitar_states.len(), 4);
    assert!(!m.p2p_hmac_enabled && m.stat_tests.is_none());
    let kept: Vec<HeadscaleState> = m.headscale_targets;
    assert_eq!(kept.len(), 1);
}
