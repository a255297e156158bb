use nullmagnet::binary64::Binary64;
use nullmagnet::config::{
    audio_input_name, bluetooth_radios_listed, camera_index_of_id, camera_name,
    serial_port_description, settings_beside_program, wifi_interfaces_listed, DetectedDevices,
    HarvesterStates, NullMagnetConfig, SourcesConfig,
};

#[test]
fn first_run_settings() {
    let config = NullMagnetConfig::default();
    assert_eq!(config.general.gui_refresh_ms, 250);
    assert_eq!(config.general.graph_fps, 4);
    assert_eq!(config.general.max_log_lines, 500);
    assert_eq!(config.general.keys_dir, "keys");
    assert_eq!(config.sources, SourcesConfig::default());
    assert_eq!(config.devices.audio_gain, Binary64::from_bits(1.0f64.to_bits()));
    assert_eq!(config.devices.usb_serial_baud, 115200);
    assert_eq!(config.pqc.min_entropy_bits, Binary64::from_bits(256.0f64.to_bits()));
    assert_eq!(config.pqc.mlkem_parameter, 1024);
    assert_eq!(config.vault.vault_dir, "keys");
    assert_eq!(config.network.headscale_targets.len(), 1);
    assert_eq!(config.network.headscale_targets[0].name, "Vault Node");
    assert_eq!(config.network.headscale_targets[0].port, 8100);
    assert_eq!(config.network.p2p_port, 9000);
    assert_eq!(config.network.uplink_url, "http://127.0.0.1:8000/ingest");
    let guitars: Vec<(&str, u16, u16)> = config
        .guitars
        .guitars
        .iter()
        .map(|g| (g.name.as_str(), g.data_port, g.ctrl_port))
        .collect();
    assert_eq!(
        guitars,
        vec![
            ("Spectra", 5005, 5056),
            ("Neptonius", 5006, 5057),
            ("Thalyn", 5007, 5058),
            ("Sylvia", 5009, 5060),
        ]
    );
}

#[test]
fn sources_round_trip() {
    for bit in 0..11u32 {
        let on = |k: u32| k == bit;
        let sources = SourcesConfig {
            trng: on(0),
            audio: on(1),
            system: on(2),
            mouse: on(3),
            video: on(4),
            gpu_cuda: on(5),
            gpu_opencl: on(6),
            wifi: on(7),
            usb_serial: on(8),
            bt_passive: on(9),
            bt_active: on(10),
        };
        let states = HarvesterStates::from_config(&sources);
        assert_ne!(states, HarvesterStates::default());
        assert_eq!(states.gpu_ocl, on(6));
        assert_eq!(states.to_config(), sources);
    }
}

#[test]
fn settings_lie_beside_the_program_unless_only_here() {
    assert!(settings_beside_program(true, true));
    assert!(settings_beside_program(true, false));
    assert!(settings_beside_program(false, false));
    assert!(!settings_beside_program(false, true));
}

#[test]
fn devices_get_names() {
    assert_eq!(audio_input_name(3, None), "Audio Input 3");
    assert_eq!(audio_input_name(3, Some(String::from("Mic"))), "Mic");
    assert_eq!(camera_name(12, String::new()), "Camera 12");
    assert_eq!(camera_name(12, String::from("Cam")), "Cam");
    assert_eq!(camera_index_of_id("/dev/video0"), 11);
    assert_eq!(camera_index_of_id(&"x".repeat(260)), 4);
    assert_eq!(serial_port_description(false, None, None), "Serial Port");
    assert_eq!(serial_port_description(true, None, None), "USB Serial (Unknown)");
    assert_eq!(
        serial_port_description(true, Some(String::from("CP2102")), Some(String::from("SiLabs"))),
        "CP2102 (SiLabs)"
    );
    let none = DetectedDevices::default();
    assert!(none.audio_inputs.is_empty() && none.cameras.is_empty() && !none.cuda_available);
}

#[test]
fn wireless_listings_are_read() {
    let listing = "There is 1 interface:\r\n\r\n    Name                   : Wi-Fi 2\r\n    Description : Name: x\r\n    Name : a : b\r\n    Name";
    assert_eq!(wifi_interfaces_listed(listing), vec!["Wi-Fi 2", "a"]);
    assert_eq!(wifi_interfaces_listed(""), vec!["Wi-Fi"]);
}

#[test]
fn radio_listings_are_read() {
    let radios = bluetooth_radios_listed("Intel(R) Bluetooth\r\n\r\n  Dongle  \n");
    let names: Vec<&str> = radios.iter().map(|r| r.0.as_str()).collect();
    assert_eq!(names, vec!["Intel(R) Bluetooth", "Dongle"]);
    assert!(radios.iter().all(|r| r.1.is_empty()));
    assert!(bluetooth_radios_listed(" \n").is_empty());
}
