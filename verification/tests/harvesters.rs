use nullmagnet::config::{DetectedDevices, NullMagnetConfig};
use nullmagnet::engine::{ChaosEngine, SigningKey};
use nullmagnet::entropy::NistHealthTester;
use nullmagnet::harvesters::gpu::{
    device_info, get_device, global_work_size, grid_size, kernel_bytes, safe_local_work_size,
    DevicePlace, OclDevice, OclPlatform,
};
use nullmagnet::harvesters::machines::{
    cameras_to_try, MouseMachine, SerialMachine, SerialOutcome, SerialStep,
};
use nullmagnet::harvesters::payload::{
    audio_due, audio_noise, bt_active_noise, bt_passive_noise, system_noise, wifi_noise,
    with_time, CpuReading, RadioReading, VideoMemory,
};
use nullmagnet::harvesters::paths::{
    adapter_paths, bluetooth_path, features_paths, wifi_sources, wireless_path,
};
use nullmagnet::harvesters::reports::{guitar_source, listen_address, ping_due};
use nullmagnet::harvesters::screen::{screen, trng_reading, Reporting};
use nullmagnet::harvesters::{
    detect_gpu_cuda, detect_gpu_opencl, enumerate_opencl_devices, is_available,
};
use sha3::Digest;

fn device(name: &str) -> OclDevice {
    OclDevice {
        name: Some(String::from(name)),
        kind: None,
        max_work_group: Some(1024),
        compute_units: Some(String::from("8")),
    }
}

fn engine() -> ChaosEngine {
    ChaosEngine::start_with(
        NullMagnetConfig::default(),
        &DetectedDevices::default(),
        vec![],
        SigningKey::of(vec![]),
        "00:00:00",
    )
}

fn last_line(engine: &ChaosEngine) -> String {
    let line = engine.state.logs.lines.back().unwrap();
    String::from(&line[11..])
}

#[test]
fn readings_are_screened() {
    let good: Vec<u8> = (0..=255).cycle().take(4096).collect();
    let mut tester = NistHealthTester::new();
    tester.start();
    let first = screen(&mut tester, &good, Reporting::WhenPassed);
    assert!(first.passed.is_none() && first.report.is_none());
    let second = screen(&mut tester, &good, Reporting::WhenPassed);
    assert_eq!(second.passed, Some(good.clone()));
    assert_eq!(second.report, Some("STEADY"));
    let silent = screen(&mut tester, &good, Reporting::Never);
    assert!(silent.passed.is_some() && silent.report.is_none());
    let stuck = screen(&mut tester, &[1; 100], Reporting::Always);
    assert_eq!(stuck.report, Some("FAILED"));
    assert_ne!(trng_reading(), vec![0u8; 1024]);
    assert_eq!(trng_reading().len(), 1024);
}

#[test]
fn graphics_processors_are_chosen() {
    let none = OclPlatform { gpus: None, all: None };
    let empty = OclPlatform { gpus: Some(vec![]), all: Some(vec![device("cpu")]) };
    let fallback = OclPlatform { gpus: None, all: Some(vec![device("any")]) };
    let real = OclPlatform { gpus: Some(vec![device("a"), device("b")]), all: None };
    let platforms = vec![none, empty, fallback, real];
    assert_eq!(
        get_device(&platforms, 3, 1),
        Some(DevicePlace::Listed { platform: 3, device: 1 })
    );
    assert_eq!(
        get_device(&platforms, 2, 0),
        Some(DevicePlace::Listed { platform: 2, device: 0 })
    );
    assert_eq!(get_device(&platforms, 1, 0), Some(DevicePlace::FirstGpu { platform: 3 }));
    assert_eq!(get_device(&platforms, 9, 0), Some(DevicePlace::FirstGpu { platform: 3 }));
    assert_eq!(
        get_device(&platforms[..2].iter().map(copy).collect(), 0, 0),
        Some(DevicePlace::FirstAny { platform: 1 })
    );
    assert_eq!(get_device(&vec![], 0, 0), None);
    assert!(is_available(&platforms) && !is_available(&vec![]));
    let listed = enumerate_opencl_devices(&platforms);
    let shown: Vec<(usize, usize, &str, &str)> =
        listed.iter().map(|e| (e.0, e.1, e.2.as_str(), e.3.as_str())).collect();
    assert_eq!(
        shown,
        vec![(2, 0, "any", "Unknown"), (3, 0, "a", "Unknown"), (3, 1, "b", "Unknown")]
    );
}

fn copy(platform: &OclPlatform) -> OclPlatform {
    let list = |devices: &Option<Vec<OclDevice>>| {
        devices.as_ref().map(|d| d.iter().map(|x| device(x.name.as_ref().unwrap())).collect())
    };
    OclPlatform { gpus: list(&platform.gpus), all: list(&platform.all) }
}

#[test]
fn graphics_processors_are_described() {
    assert_eq!(detect_gpu_cuda(true), (true, String::from("CUDA (NVIDIA)")));
    assert_eq!(detect_gpu_cuda(false), (false, String::from("None")));
    assert_eq!(device_info(Some(&device("X"))), "X (CUs:8, MaxWG:1024)");
    assert_eq!(device_info(None), "No OpenCL device");
    assert_eq!(detect_gpu_opencl(None), (false, String::from("None")));
    assert_eq!(
        detect_gpu_opencl(Some(device_info(Some(&device("X"))))),
        (true, String::from("OpenCL: X (CUs:8, MaxWG:1024)"))
    );
}

#[test]
fn work_is_cut_up() {
    assert_eq!(safe_local_work_size(None), 64);
    assert_eq!(safe_local_work_size(Some(1024)), 256);
    assert_eq!(safe_local_work_size(Some(32)), 32);
    assert_eq!(global_work_size(512, 256), 512);
    assert_eq!(global_work_size(513, 256), 768);
    assert_eq!(grid_size(512), 2);
    assert_eq!(grid_size(513), 3);
    assert_eq!(kernel_bytes(&[0x04030201, 0x08070605], 3), vec![1, 2, 5]);
    assert_eq!(kernel_bytes(&[0x04030201], 512), vec![1, 2]);
}

#[test]
fn audio_readings() {
    let samples: Vec<u32> = (0..300).map(|i| 0x100 + i).collect();
    let bytes = audio_noise(&samples);
    assert_eq!(bytes.len(), 128);
    assert_eq!((bytes[0], bytes[1], bytes[127]), (0, 2, 254));
    assert_eq!(audio_noise(&[7, 8, 9]), vec![7, 9]);
    assert_eq!(audio_noise(&[]), Vec::<u8>::new());
    assert!(audio_due(true, true, 200));
    assert!(!audio_due(true, true, 199) && !audio_due(false, true, 999) && !audio_due(true, false, 999));
    assert_eq!(with_time(&[5], 1), vec![5, 1, 0, 0, 0, 0, 0, 0, 0]);
}

#[test]
fn system_readings() {
    let cpus = [CpuReading { usage_bits: 1, frequency: 2 }];
    let data = system_noise(&cpus, 3, 4, 5);
    let mut expected = 1u32.to_le_bytes().to_vec();
    for n in [2u64, 3, 4, 5] {
        expected.extend_from_slice(&n.to_le_bytes());
    }
    assert_eq!(data, expected);
    assert_eq!(system_noise(&[], 3, 4, 5).len(), 24);
}

#[test]
fn mouse_readings() {
    let mut mouse = MouseMachine::new();
    let first = mouse.moved(1, 2, 100).unwrap();
    let mut expected = Vec::new();
    for n in [1u64, 2, 100] {
        expected.extend_from_slice(&n.to_le_bytes());
    }
    assert_eq!(first, expected);
    for k in 0..49u64 {
        assert!(mouse.moved(1, 2, 200 + k).is_none());
    }
    assert_eq!(&mouse.moved(1, 2, 350).unwrap()[16..], &250u64.to_le_bytes());
    let press = mouse.pressed(340);
    assert_eq!(&press[..8], &10u64.wrapping_neg().to_le_bytes());
    assert_eq!(&press[8..], &340u64.to_le_bytes());
}

#[test]
fn video_readings() {
    let frame: Vec<u8> = (0..=255).cycle().take(4000).collect();
    let mut memory = VideoMemory::new();
    let first = memory.reading(&frame, 9);
    assert_eq!(first.len(), 512 + 8);
    assert_eq!((first[0], first[1], first[3]), (0, 7, 5));
    let digest = sha3::Sha3_256::digest(&first);
    let second = memory.reading(&frame, 9);
    assert_eq!(second[0], first[0] ^ digest[0]);
    assert_eq!(second[31], first[31] ^ digest[31]);
    assert_eq!(second[32], first[32]);
    let mut small = VideoMemory::new();
    assert_eq!(small.reading(&[0x1f; 8], 0).len(), 2 + 8);
    assert_eq!(cameras_to_try(0), vec![0, 1, 2, 3]);
    assert_eq!(cameras_to_try(5), vec![5, 0, 1, 2]);
}

#[test]
fn radio_readings() {
    assert_eq!(wifi_noise(&[], &vec![String::from("  ")], 1), None);
    let wifi = wifi_noise(b"ab", &vec![String::from(" 12\n"), String::from("3")], 1).unwrap();
    assert_eq!(&wifi[..5], b"ab123");
    assert_eq!(wifi.len(), 13);
    let passive = bt_passive_noise(&vec![String::from("aa\n")], b"f\n", 10, 7);
    assert_eq!(&passive[..4], b"aaf\n");
    assert_eq!(&passive[4..12], &3u64.wrapping_neg().to_le_bytes());
    assert_eq!(&passive[12..], &10u64.to_le_bytes());
    let quiet = RadioReading { rssi: None, tx_power: None };
    let loud = RadioReading { rssi: Some(-2), tx_power: Some(5) };
    assert_eq!(bt_active_noise(&vec![quiet], 1), None);
    let active = bt_active_noise(&vec![quiet, loud], 1).unwrap();
    assert_eq!(&active[..4], &[0xfe, 0xff, 5, 0]);
    assert_eq!(active.len(), 12);
    assert_eq!(bt_active_noise(&vec![loud; 30], 1).unwrap().len(), 20 * 4 + 8);
}

#[test]
fn serial_ports_are_opened_and_read() {
    let mut serial = SerialMachine::new();
    assert!(matches!(serial.next(false, "/dev/a", None), SerialStep::SwitchedOff));
    assert!(matches!(serial.next(true, "", None), SerialStep::NoPort));
    match serial.next(true, "", Some(String::from("/dev/b"))) {
        SerialStep::Open { port } => {
            assert_eq!(port, "/dev/b");
            serial.opened(port, true);
        }
        _ => panic!("not opened"),
    }
    assert!(matches!(serial.next(true, "/dev/b", None), SerialStep::Read));
    assert!(serial.read(SerialOutcome::Bytes));
    assert!(serial.read(SerialOutcome::Nothing));
    assert!(matches!(serial.next(true, "/dev/c", None), SerialStep::Open { .. }));
    serial.opened(String::from("/dev/c"), false);
    assert_eq!(serial.last_port, "/dev/b");
    serial.opened(String::from("/dev/c"), true);
    assert!(!serial.read(SerialOutcome::Failed));
    assert!(matches!(serial.next(true, "/dev/c", None), SerialStep::Open { .. }));
}

#[test]
fn reports_reach_the_engine() {
    let mut e = engine();
    e.log("hello");
    assert_eq!(last_line(&e), "hello");
    e.report_health("TRNG", "STEADY");
    assert_eq!(e.state.source_metrics.get("TRNG").unwrap().health_state, "STEADY");
    e.note_wifi_passed("STARTUP");
    assert!(e.state.wifi_active);
    assert_eq!(e.state.wifi_samples, 1);
    e.note_wifi_idle();
    assert!(!e.state.wifi_active);
    e.note_serial_opened("/dev/x", 9600);
    assert!(e.state.usb_serial_active);
    assert_eq!(last_line(&e), "USB: Opened /dev/x @ 9600");
    e.note_serial_passed(12, "STEADY");
    assert_eq!(e.state.usb_serial_bytes, 12);
    e.note_serial_closed();
    assert!(!e.state.usb_serial_active);
    e.note_p2p_listening(9000);
    assert_eq!(last_line(&e), "P2P: Listening on port 9000 (HMAC: DISABLED)");
}

#[test]
fn guitar_packets_are_counted() {
    let mut e = engine();
    assert_eq!(e.guitar_ports()[1], (String::from("Neptonius"), 5057));
    assert!(e.guitar_enabled("Sylvia") && !e.guitar_enabled("Nocturnus"));
    e.note_guitar_listening("Sylvia", 5060);
    assert_eq!(last_line(&e), "GUITAR Sylvia: Listening on UDP:5060 (ctrl)");
    assert!(e.guitar_has_room("Sylvia", 100));
    for k in 1..=11u64 {
        e.note_guitar_packet("Sylvia", 100);
        let expected = if k == 11 { 11 } else { 1 };
        assert_eq!(
            last_line(&e),
            format!("GUITAR Sylvia: 100 bytes (pkt #{}, {} total bytes)", expected, expected * 100)
        );
    }
    let before = e.state.logs.lines.len();
    e.note_guitar_packet("Nocturnus", 1);
    assert_eq!(e.state.logs.lines.len(), before);
    assert_eq!(guitar_source("Sylvia"), "GUITAR_SYLVIA_CTRL");
}

#[test]
fn vault_nodes_are_pinged() {
    let mut e = engine();
    assert!(e.ping_targets().is_empty());
    e.add_headscale_target(String::from("N"), String::from("h"), 5);
    let targets = e.ping_targets();
    assert_eq!(targets.len(), 1);
    assert_eq!((targets[0].index, targets[0].url.as_str()), (1, "http://h:5/ping"));
    e.note_ping(&targets[0], true);
    assert!(e.state.headscale_targets[1].reachable);
    assert_eq!(last_line(&e), "HEADSCALE: N reachable (h:5)");
    let before = e.state.logs.lines.len();
    e.note_ping(&targets[0], false);
    assert!(!e.state.headscale_targets[1].reachable);
    assert_eq!(e.state.logs.lines.len(), before);
    assert!(ping_due(30) && !ping_due(29));
}

#[test]
fn paths_and_addresses() {
    assert_eq!(wireless_path("wlan0"), "/sys/class/net/wlan0/wireless");
    assert_eq!(bluetooth_path("hci0", "address"), "/sys/class/bluetooth/hci0/address");
    assert_eq!(
        adapter_paths("hci0"),
        vec!["/sys/class/bluetooth/hci0/address", "/sys/class/bluetooth/hci0/type"]
    );
    let features = features_paths();
    assert_eq!(features.len(), 4);
    assert_eq!(features[3], "/sys/kernel/debug/bluetooth/hci3/features");
    assert_eq!(listen_address(9000), "0.0.0.0:9000");
}

#[test]
fn wireless_statistics_are_chosen() {
    let path = |interface: &str, statistic: &str| {
        format!("/sys/class/net/{}/statistics/{}", interface, statistic)
    };
    let chosen = wifi_sources("a", Some("b"));
    let wanted = ["rx_bytes", "tx_bytes", "rx_dropped", "collisions"];
    assert_eq!(chosen.paths, wanted.map(|s| path("a", s)).to_vec());
    assert!(!chosen.first_only);
    let found = wifi_sources("", Some("b"));
    assert_eq!(found.paths, ["rx_bytes", "tx_bytes", "collisions"].map(|s| path("b", s)).to_vec());
    assert!(!found.first_only);
    let guessed = wifi_sources("", None);
    let names = ["wlan0", "wlp2s0", "wlp3s0", "wifi0"];
    assert_eq!(guessed.paths, names.map(|n| path(n, "rx_bytes")).to_vec());
    assert!(guessed.first_only);
}
