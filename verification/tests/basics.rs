use nullmagnet::binary64::Binary64;
use nullmagnet::bytes::{append_bytes, append_number, find_bytes};
use nullmagnet::clock::{
    get_timestamp, get_timestamp_nanos, low_word, nanos_of, read_clock, reading_of, seconds_of,
    time_of_day, time_of_day_at, ClockReading, CALENDAR_END,
};
use nullmagnet::text::{decimal, same_text, split_text, text_at, trim_leading};

fn bits(x: f64) -> Binary64 {
    Binary64::from_bits(x.to_bits())
}

#[test]
fn numbers_compare_as_floating_point_does() {
    let values = [
        f64::NEG_INFINITY,
        -1.0e300,
        -1.0,
        -f64::MIN_POSITIVE,
        -0.0,
        0.0,
        5e-324,
        0.01,
        0.1,
        1.0,
        1.0000000000000002,
        256.0,
        1.0e300,
        f64::INFINITY,
        f64::NAN,
    ];
    for &a in values.iter() {
        for &b in values.iter() {
            assert_eq!(bits(a).exceeds(bits(b)), a > b, "{} > {}", a, b);
            assert_eq!(bits(a).at_least(bits(b)), a >= b, "{} >= {}", a, b);
            let least = f64::from_bits(bits(a).smaller(bits(b)).bits);
            let most = f64::from_bits(bits(a).larger(bits(b)).bits);
            assert!(least == a.min(b) || (a.is_nan() && b.is_nan()));
            assert!(most == a.max(b) || (a.is_nan() && b.is_nan()));
        }
    }
}

#[test]
fn numerals_are_decimal() {
    for n in [0u64, 7, 10, 99, 100, 1234567890, u64::MAX] {
        assert_eq!(decimal(n), n.to_string());
    }
}

#[test]
fn texts_are_cut_and_compared() {
    assert!(same_text("häß", "häß"));
    assert!(!same_text("häß", "hass"));
    assert!(text_at("GUITAR_X", "GUITAR_", 0));
    assert!(!text_at("GUITA", "GUITAR_", 0));
    assert_eq!(trim_leading("GUITAR_GUITAR_X", "GUITAR_"), "X");
    assert_eq!(trim_leading("X", "GUITAR_"), "X");
    assert_eq!(split_text("a::b", ':'), vec!["a", "", "b"]);
    assert_eq!(split_text("", ':'), vec![""]);
}

#[test]
fn bytes_are_joined_and_found() {
    let mut whole = vec![1u8];
    append_bytes(&mut whole, &[2, 3]);
    append_number(&mut whole, 0x0807060504030201);
    assert_eq!(whole, vec![1, 2, 3, 1, 2, 3, 4, 5, 6, 7, 8]);
    assert_eq!(find_bytes(&whole, &[2, 3]), Some(1));
    assert_eq!(find_bytes(&whole, &[8]), Some(10));
    assert_eq!(find_bytes(&whole, &[9]), None);
    assert_eq!(find_bytes(&whole, &[]), Some(0));
    assert_eq!(find_bytes(&[], &[]), Some(0));
}

#[test]
fn the_clock_is_read() {
    let seconds = get_timestamp().unwrap();
    assert!(seconds > 1_500_000_000);
    let nanos = get_timestamp_nanos().unwrap();
    assert!(nanos / 1_000_000_000 >= seconds);
    let reading = read_clock().unwrap();
    assert!(reading.nanos >= nanos);
    assert_eq!(low_word(u128::from(u64::MAX) + 5), 4);
    let time = time_of_day();
    assert_eq!(time.len(), 8);
    assert_eq!((&time[2..3], &time[5..6]), (":", ":"));
    assert!(time[0..2].parse::<u8>().unwrap() < 24);
    assert!(time[3..5].parse::<u8>().unwrap() < 60);
    assert!(time[6..8].parse::<u8>().unwrap() < 60);
}

#[test]
fn times_of_day_need_a_calendar() {
    assert_eq!(time_of_day_at(None), "--:--:--");
    assert_eq!(time_of_day_at(Some(CALENDAR_END + 1)), "--:--:--");
    let last = time_of_day_at(Some(CALENDAR_END));
    assert_eq!((last.len(), &last[6..8]), (8, "59"));
    assert_eq!(&time_of_day_at(Some(5))[6..8], "05");
}

#[test]
fn whole_parts_are_taken() {
    let whole = |x: f64| Binary64::from_bits(x.to_bits()).whole_part();
    for x in [
        0.0, -0.0, 0.5, 0.999, 1.0, 1.5, 2.0, 255.99, 256.0, 65535.5, 4294967294.5, 4294967295.0,
        4294967296.0, 1e300, f64::INFINITY, -1.0, -1e300, f64::NAN, f64::MIN_POSITIVE, 5e-324,
    ] {
        assert_eq!(whole(x), x as u32);
    }
}

#[test]
fn spans_are_read_off() {
    let epoch = std::time::UNIX_EPOCH;
    let later = epoch + std::time::Duration::new(7, 5);
    assert_eq!(seconds_of(later.duration_since(epoch)), Some(7));
    assert_eq!(nanos_of(later.duration_since(epoch)), Some(7_000_000_005));
    assert_eq!(seconds_of(epoch.duration_since(later)), None);
    assert_eq!(nanos_of(epoch.duration_since(later)), None);
    assert_eq!(reading_of(Some(1), Some(2)), Some(ClockReading { seconds: 2, nanos: 1 }));
    assert_eq!(reading_of(None, Some(2)), None);
    assert_eq!(reading_of(Some(1), None), None);
}
