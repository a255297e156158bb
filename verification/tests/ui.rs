use nullmagnet::binary64::Binary64;
use nullmagnet::config::{GuitarState, HarvesterStates, SourceMetrics};
use nullmagnet::engine::sources::SourceEntry;
use nullmagnet::ui::{
    adapter_label, bundle_preview, count_active_sources, entered_target, guitar_key,
    guitars_shown, health_dot_color, log_line_color, mint_offered, output_min_entropy_color,
    output_shannon_color, parse_port, poll_interval, shown_fps, sources_shown, target_dot_color,
    text_mentions, truncate_name, unique_values_color, Tint,
};

fn bits(x: f64) -> Binary64 {
    Binary64::from_bits(x.to_bits())
}

fn source(name: &str, shannon: f64) -> SourceEntry {
    let mut metrics = SourceMetrics::default();
    metrics.raw_shannon = bits(shannon);
    SourceEntry { name: String::from(name), metrics }
}

fn guitar(name: &str, enabled: bool) -> GuitarState {
    GuitarState {
        name: String::from(name),
        data_port: 1,
        ctrl_port: 2,
        enabled,
        packets_received: 0,
        bytes_received: 0,
    }
}

#[test]
fn updates_are_timed() {
    assert_eq!((shown_fps(0), shown_fps(60), shown_fps(99)), (1, 60, 60));
    assert_eq!((poll_interval(4), poll_interval(30), poll_interval(0)), (250, 33, 250));
}

#[test]
fn dots_are_tinted() {
    assert_eq!(health_dot_color(true, "STEADY"), Tint::Green);
    assert_eq!(health_dot_color(true, "STARTUP"), Tint::Amber);
    assert_eq!(health_dot_color(true, "FAILED"), Tint::Red);
    assert_eq!(health_dot_color(true, "DEAD"), Tint::Amber);
    assert_eq!(health_dot_color(false, "STEADY"), Tint::Off);
    assert_eq!(target_dot_color(true, true), Tint::Green);
    assert_eq!(target_dot_color(true, false), Tint::Amber);
    assert_eq!(target_dot_color(false, true), Tint::Off);
}

#[test]
fn values_are_tinted() {
    assert_eq!(
        (unique_values_color(250), unique_values_color(200), unique_values_color(199)),
        (Tint::Green, Tint::Amber, Tint::Red)
    );
    assert_eq!(output_shannon_color(bits(7.95)), Tint::Green);
    assert_eq!(output_shannon_color(bits(7.9)), Tint::Amber);
    assert_eq!(output_shannon_color(bits(7.0)), Tint::Red);
    assert_eq!(output_min_entropy_color(bits(7.6)), Tint::Green);
    assert_eq!(output_min_entropy_color(bits(7.5)), Tint::Amber);
    assert_eq!(output_min_entropy_color(bits(6.0)), Tint::Red);
    assert!(mint_offered(bits(256.0), bits(256.0)) && !mint_offered(bits(255.99), bits(256.0)));
    assert!(!mint_offered(bits(256.0), bits(300.0)));
}

#[test]
fn log_lines_are_tinted() {
    let expected = [
        ("[t] GUITAR x VAULT", Tint::Amber),
        ("[t] EXTRACT #1", Tint::Cyan),
        ("[t] VAULT: Saved", Tint::Green),
        ("[t] AUTO-MINT -> x", Tint::Green),
        ("[t] FAILED", Tint::Red),
        ("[t] ERROR", Tint::Red),
        ("[t] WARNING", Tint::Red),
        ("[t] HEADSCALE: x", Tint::Magenta),
        ("[t] P2P Mode", Tint::Sky),
        ("[t] other", Tint::Dim),
    ];
    for (line, tint) in expected.iter() {
        assert_eq!(log_line_color(line), *tint, "{}", line);
    }
    assert!(text_mentions("a (unencrypted)", "unencrypted"));
}

#[test]
fn active_sources_are_counted() {
    let mut h = HarvesterStates::default();
    assert_eq!(count_active_sources(&h, &vec![]), 0);
    h.trng = true;
    h.bt_active = true;
    let guitars = vec![guitar("a", true), guitar("b", false), guitar("c", true)];
    assert_eq!(count_active_sources(&h, &guitars), 4);
}

#[test]
fn names_are_shortened() {
    assert_eq!(truncate_name("USB_SERIAL", 12), "USB_SERIAL");
    assert_eq!(truncate_name("GUITAR_SPECTRA_CTRL", 12), "GUITAR_SPEC…");
    assert_eq!(truncate_name("exactlytwelv", 12), "exactlytwelv");
    assert_eq!(bundle_preview("{}"), "{}");
    let long = "x".repeat(501);
    assert_eq!(bundle_preview(&long), format!("{}...", "x".repeat(500)));
    assert_eq!(bundle_preview(&long[..500]), "x".repeat(500));
}

#[test]
fn targets_are_entered() {
    for text in ["0", "+80", "65535", "00080", "8100"] {
        assert_eq!(parse_port(text), text.parse::<u16>().ok());
    }
    for text in ["", "+", "-1", "65536", "80 ", "8x", "++1", "999999999999999"] {
        assert_eq!(parse_port(text), None);
        assert!(text.parse::<u16>().is_err());
    }
    assert!(entered_target("n", "", "1").is_none());
    let t = entered_target("", "1.2.3.4", "x").unwrap();
    assert_eq!((t.name.as_str(), t.ip.as_str(), t.port), ("Node 1.2.3.4", "1.2.3.4", 8100));
    let t = entered_target("n", "h", "77").unwrap();
    assert_eq!((t.name.as_str(), t.port), ("n", 77));
}

#[test]
fn labels_are_written() {
    assert_eq!(guitar_key("Spectra"), "GUITAR_SPECTRA");
    assert_eq!(adapter_label("hci0", ""), "hci0");
    assert_eq!(adapter_label("hci0", "00:11"), "hci0 (00:11)");
}

#[test]
fn sources_are_ranked() {
    let entries = vec![
        source("low", 1.0),
        source("same1", 5.0),
        source("high", 7.5),
        source("same2", 5.0),
    ];
    let names: Vec<String> = sources_shown(&entries).into_iter().map(|e| e.name).collect();
    assert_eq!(names, vec!["high", "same1", "same2", "low"]);
    let many: Vec<SourceEntry> = (0..20).map(|k| source("s", k as f64)).collect();
    assert_eq!(sources_shown(&many).len(), 14);
}

#[test]
fn guitars_are_ranked() {
    let guitars = vec![guitar("b", true), guitar("a", true), guitar("B", true), guitar("ab", true)];
    let names: Vec<String> = guitars_shown(&guitars).into_iter().map(|g| g.name).collect();
    assert_eq!(names, vec!["B", "a", "ab", "b"]);
}
