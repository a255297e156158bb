//! What the window shows: which entries, in which order, in which tint and under which name.

use crate::binary64::{lemma_sizes_ordered, size_in_units, Binary64};
use crate::bytes::{find_bytes, stands_at};
use crate::config::{GuitarState, HarvesterStates};
use crate::engine::controls::{switched, Harvester};
use crate::engine::sources::SourceEntry;
use crate::order::{all_rankable, in_order, law_ranking_sorts, ranked, sorted, Ranked};
use crate::text::{same_text, to_upper, uppercase};
use crate::vault::listing::bytes_before;
use vstd::prelude::*;
use vstd::utf8::{decode_utf8, encode_utf8, is_char_boundary};

verus! {

/// The most pictures a second.
pub const MAX_RENDER_FPS: u64 = 15;

/// The port of a vault node for which none is given.
pub const DEFAULT_TARGET_PORT: u16 = 8100;

/// Bytes of an opened bundle that are shown.
pub const PREVIEW_BYTES: usize = 500;

/// Sources of which bars are shown.
pub const SOURCE_BARS: usize = 14;

/// The bit pattern of 7.9.
pub const SHANNON_GOOD: u64 = 0x401f_9999_9999_999a;

/// The bit pattern of 7.0.
pub const SHANNON_FAIR: u64 = 0x401c_0000_0000_0000;

/// The bit pattern of 7.5.
pub const MIN_ENTROPY_GOOD: u64 = 0x401e_0000_0000_0000;

/// The bit pattern of 6.0.
pub const MIN_ENTROPY_FAIR: u64 = 0x4018_0000_0000_0000;

/// The tints of the window.
#[derive(Clone, Copy, PartialEq, Eq, Structural, Debug)]
pub enum Tint {
    Cyan,
    Magenta,
    Green,
    Amber,
    Red,
    Dim,
    Off,
    Sky,
}

/// Updates a second, no fewer than one and no more than sixty.
pub fn shown_fps(configured: u32) -> (fps: u32)
    ensures
        fps == if configured < 1 {
            1
        } else if configured > 60 {
            60
        } else {
            configured
        },
{
    if configured < 1 {
        1
    } else if configured > 60 {
        60
    } else {
        configured
    }
}

/// Milliseconds between two updates.
pub fn poll_interval(fps: u32) -> (millis: u64)
    ensures
        millis == if fps > 0 {
            1000u64 / (fps as u64)
        } else {
            250
        },
{
    if fps > 0 {
        1000 / (fps as u64)
    } else {
        250
    }
}

/// The tint of a source's dot.
pub fn health_dot_color(enabled: bool, health: &str) -> (tint: Tint)
    ensures
        tint == if !enabled {
            Tint::Off
        } else if health@ == "STEADY"@ {
            Tint::Green
        } else if health@ == "STARTUP"@ {
            Tint::Amber
        } else if health@ == "FAILED"@ {
            Tint::Red
        } else {
            Tint::Amber
        },
{
    if !enabled {
        Tint::Off
    } else if same_text(health, "STEADY") {
        Tint::Green
    } else if same_text(health, "STARTUP") {
        Tint::Amber
    } else if same_text(health, "FAILED") {
        Tint::Red
    } else {
        Tint::Amber
    }
}

/// The tint of a vault node's dot.
pub fn target_dot_color(enabled: bool, reachable: bool) -> (tint: Tint)
    ensures
        tint == if !enabled {
            Tint::Off
        } else if reachable {
            Tint::Green
        } else {
            Tint::Amber
        },
{
    if !enabled {
        Tint::Off
    } else if reachable {
        Tint::Green
    } else {
        Tint::Amber
    }
}

/// The tint of the number of different bytes that occurred.
pub fn unique_values_color(unique: usize) -> (tint: Tint)
    ensures
        tint == if unique >= 250 {
            Tint::Green
        } else if unique >= 200 {
            Tint::Amber
        } else {
            Tint::Red
        },
{
    if unique >= 250 {
        Tint::Green
    } else if unique >= 200 {
        Tint::Amber
    } else {
        Tint::Red
    }
}

/// The tint of a value: green above one level, amber above another, red otherwise.
pub open spec fn level_tint(value: Binary64, good: u64, fair: u64) -> Tint {
    if value.greater(Binary64 { bits: good }) {
        Tint::Green
    } else if value.greater(Binary64 { bits: fair }) {
        Tint::Amber
    } else {
        Tint::Red
    }
}

fn level_color(value: Binary64, good: u64, fair: u64) -> (tint: Tint)
    ensures
        tint == level_tint(value, good, fair),
{
    if value.exceeds(Binary64::from_bits(good)) {
        Tint::Green
    } else if value.exceeds(Binary64::from_bits(fair)) {
        Tint::Amber
    } else {
        Tint::Red
    }
}

/// The tint of the Shannon entropy of conditioned bytes.
pub fn output_shannon_color(value: Binary64) -> (tint: Tint)
    ensures
        tint == level_tint(value, SHANNON_GOOD, SHANNON_FAIR),
{
    level_color(value, SHANNON_GOOD, SHANNON_FAIR)
}

/// The tint of the estimate of conditioned bytes.
pub fn output_min_entropy_color(value: Binary64) -> (tint: Tint)
    ensures
        tint == level_tint(value, MIN_ENTROPY_GOOD, MIN_ENTROPY_FAIR),
{
    level_color(value, MIN_ENTROPY_GOOD, MIN_ENTROPY_FAIR)
}

/// Whether enough bits are credited for a key to be minted by hand.
pub fn mint_offered(aggregate: Binary64, threshold: Binary64) -> (offered: bool)
    ensures
        offered == aggregate.greater_or_equal(threshold),
{
    aggregate.at_least(threshold)
}

/// Whether a word stands in a text.
pub open spec fn mentions(text: Seq<char>, word: Seq<char>) -> bool {
    exists|i: int| #[trigger] stands_at(encode_utf8(text), encode_utf8(word), i)
}

/// Tests whether a word stands in a text.
pub fn text_mentions(text: &str, word: &str) -> (found: bool)
    ensures
        found == mentions(text@, word@),
{
    match find_bytes(text.as_bytes(), word.as_bytes()) {
        Some(i) => {
            assert(stands_at(encode_utf8(text@), encode_utf8(word@), i as int));
            true
        },
        None => false,
    }
}

/// The tint of a log line, by the first of these words that stands in it.
pub fn log_line_color(line: &str) -> (tint: Tint)
    ensures
        tint == if mentions(line@, "GUITAR"@) {
            Tint::Amber
        } else if mentions(line@, "EXTRACT"@) {
            Tint::Cyan
        } else if mentions(line@, "VAULT"@) || mentions(line@, "AUTO-MINT"@) {
            Tint::Green
        } else if mentions(line@, "FAIL"@) || mentions(line@, "ERROR"@) || mentions(
            line@,
            "WARNING"@,
        ) {
            Tint::Red
        } else if mentions(line@, "HEADSCALE"@) {
            Tint::Magenta
        } else if mentions(line@, "P2P"@) {
            Tint::Sky
        } else {
            Tint::Dim
        },
{
    if text_mentions(line, "GUITAR") {
        Tint::Amber
    } else if text_mentions(line, "EXTRACT") {
        Tint::Cyan
    } else if text_mentions(line, "VAULT") || text_mentions(line, "AUTO-MINT") {
        Tint::Green
    } else if text_mentions(line, "FAIL") || text_mentions(line, "ERROR") || text_mentions(
        line,
        "WARNING",
    ) {
        Tint::Red
    } else if text_mentions(line, "HEADSCALE") {
        Tint::Magenta
    } else if text_mentions(line, "P2P") {
        Tint::Sky
    } else {
        Tint::Dim
    }
}

/// How many switches are on.
pub open spec fn count_on(switches: Seq<bool>) -> nat
    decreases switches.len(),
{
    if switches.len() == 0 {
        0
    } else {
        count_on(switches.drop_last()) + (if switches.last() {
            1nat
        } else {
            0
        })
    }
}

/// The switches of the harvesters and then those of the guitars.
pub open spec fn source_switches(h: HarvesterStates, guitars: Seq<GuitarState>) -> Seq<bool> {
    seq![
        h.trng,
        h.audio,
        h.system,
        h.mouse,
        h.video,
        h.gpu_cuda,
        h.gpu_ocl,
        h.wifi,
        h.usb_serial,
        h.bt_passive,
        h.bt_active,
    ] + guitars.map_values(|g: GuitarState| g.enabled)
}

/// Counts the harvesters and guitars that are switched on.
pub fn count_active_sources(h: &HarvesterStates, guitars: &Vec<GuitarState>) -> (count: usize)
    ensures
        count == count_on(source_switches(*h, guitars@)),
{
    let mut switches: Vec<bool> = vec![
        h.trng,
        h.audio,
        h.system,
        h.mouse,
        h.video,
        h.gpu_cuda,
        h.gpu_ocl,
        h.wifi,
        h.usb_serial,
        h.bt_passive,
        h.bt_active,
    ];
    let ghost own = switches@;
    let mut k: usize = 0;
    assert(own + guitars@.take(0).map_values(|g: GuitarState| g.enabled) =~= own);
    while k < guitars.len()
        invariant
            k <= guitars.len(),
            switches@ == own + guitars@.take(k as int).map_values(|g: GuitarState| g.enabled),
        decreases guitars.len() - k,
    {
        switches.push(guitars[k].enabled);
        assert(own + guitars@.take(k + 1).map_values(|g: GuitarState| g.enabled) =~= (own
            + guitars@.take(k as int).map_values(|g: GuitarState| g.enabled)).push(
            guitars@[k as int].enabled,
        ));
        k += 1;
    }
    assert(guitars@.take(k as int) =~= guitars@);
    assert(switches@ =~= source_switches(*h, guitars@));
    let mut count: usize = 0;
    let mut i: usize = 0;
    while i < switches.len()
        invariant
            i <= switches.len(),
            count <= i,
            count == count_on(switches@.take(i as int)),
        decreases switches.len() - i,
    {
        assert(switches@.take(i + 1).drop_last() =~= switches@.take(i as int));
        if switches[i] {
            count += 1;
        }
        i += 1;
    }
    assert(switches@.take(i as int) =~= switches@);
    count
}

/// The front of a text, so many bytes of it, with a mark behind.
pub open spec fn front_of(text: Seq<char>, keep: int, mark: Seq<char>) -> Seq<char> {
    decode_utf8(encode_utf8(text).take(keep)) + mark
}

fn cut(text: &str, keep: usize, mark: &str) -> (front: String)
    requires
        is_char_boundary(encode_utf8(text@), keep as int),
        keep <= encode_utf8(text@).len(),
    ensures
        front@ == front_of(text@, keep as int, mark@),
{
    broadcast use vstd::utf8::encode_utf8_decode_utf8;

    let parts = text.split_at(keep);
    assert(encode_utf8(parts.0@) =~= encode_utf8(text@).take(keep as int));
    assert(decode_utf8(encode_utf8(parts.0@)) == parts.0@);
    let mut front: String = parts.0.to_owned();
    front.append(mark);
    front
}

/// A name of no more than `max` bytes as it is, the front of a longer one with an ellipsis.
pub fn truncate_name(name: &str, max: usize) -> (text: String)
    requires
        encode_utf8(name@).len() <= max || (max > 0 && is_char_boundary(
            encode_utf8(name@),
            max - 1,
        )),
    ensures
        text@ == if encode_utf8(name@).len() <= max {
            name@
        } else {
            front_of(name@, max - 1, "…"@)
        },
{
    if name.as_bytes().len() <= max {
        name.to_owned()
    } else {
        cut(name, max - 1, "…")
    }
}

/// An opened bundle of no more than 500 bytes as it is, the front of a longer one with dots.
pub fn bundle_preview(bundle: &str) -> (text: String)
    requires
        encode_utf8(bundle@).len() <= PREVIEW_BYTES || is_char_boundary(
            encode_utf8(bundle@),
            PREVIEW_BYTES as int,
        ),
    ensures
        text@ == if encode_utf8(bundle@).len() <= PREVIEW_BYTES {
            bundle@
        } else {
            front_of(bundle@, PREVIEW_BYTES as int, "..."@)
        },
{
    if bundle.as_bytes().len() <= PREVIEW_BYTES {
        bundle.to_owned()
    } else {
        cut(bundle, PREVIEW_BYTES, "...")
    }
}

/// The number that decimal digits stand for.
pub open spec fn digits_value(digits: Seq<u8>) -> nat
    decreases digits.len(),
{
    if digits.len() == 0 {
        0
    } else {
        10 * digits_value(digits.drop_last()) + (digits.last() - 48) as nat
    }
}

/// Whether all bytes are decimal digits.
pub open spec fn all_digits(digits: Seq<u8>) -> bool {
    forall|i: int| 0 <= i < digits.len() ==> 48 <= #[trigger] digits[i] <= 57
}

/// The port that a text gives: decimal digits, with or without a plus before them, for a number of no
/// more than sixteen bits.
pub open spec fn port_in(text: Seq<u8>) -> Option<u16> {
    let digits = if text.len() > 0 && text[0] == 43 {
        text.skip(1)
    } else {
        text
    };
    if digits.len() > 0 && all_digits(digits) && digits_value(digits) <= u16::MAX {
        Some(digits_value(digits) as u16)
    } else {
        None
    }
}

proof fn lemma_digits_grow(digits: Seq<u8>, shorter: int)
    requires
        0 <= shorter <= digits.len(),
        all_digits(digits),
    ensures
        digits_value(digits.take(shorter)) <= digits_value(digits),
    decreases digits.len() - shorter,
{
    if shorter < digits.len() {
        lemma_digits_grow(digits, shorter + 1);
        assert(digits.take(shorter + 1).drop_last() =~= digits.take(shorter));
    } else {
        assert(digits.take(shorter) =~= digits);
    }
}

/// Reads a port.
pub fn parse_port(text: &str) -> (port: Option<u16>)
    ensures
        port == port_in(encode_utf8(text@)),
{
    let bytes = text.as_bytes();
    let start: usize = if bytes.len() > 0 && bytes[0] == 43 {
        1
    } else {
        0
    };
    let ghost digits = bytes@.skip(start as int);
    assert(start == 0 ==> digits =~= bytes@);
    if start == bytes.len() {
        return None;
    }
    let mut value: u32 = 0;
    let mut i: usize = start;
    assert(digits.take(0) =~= Seq::<u8>::empty());
    while i < bytes.len()
        invariant
            start <= i <= bytes.len(),
            bytes@ == encode_utf8(text@),
            digits == bytes@.skip(start as int),
            start == (if bytes@.len() > 0 && bytes@[0] == 43 {
                1int
            } else {
                0int
            }),
            digits.len() > 0,
            start == 0 ==> digits == bytes@,
            value == digits_value(digits.take(i - start)),
            value <= u16::MAX,
            forall|j: int| 0 <= j < i - start ==> 48 <= #[trigger] digits[j] <= 57,
        decreases bytes.len() - i,
    {
        let byte: u8 = bytes[i];
        assert(byte == digits[i - start]);
        if byte < 48 || byte > 57 {
            return None;
        }
        assert(digits.take(i - start + 1).drop_last() =~= digits.take(i - start));
        value = value * 10 + (byte - 48) as u32;
        if value > u16::MAX as u32 {
            proof {
                if all_digits(digits) {
                    lemma_digits_grow(digits, i - start + 1);
                }
            }
            return None;
        }
        i += 1;
    }
    assert(digits.take(i - start) =~= digits);
    Some(value as u16)
}

/// A vault node as it is entered: its name, its address and its port.
pub struct EnteredTarget {
    pub name: String,
    pub ip: String,
    pub port: u16,
}

/// Takes a vault node that was entered, `None` without an address. Without a name it is called after
/// its address; a port that cannot be read stands for 8100.
pub fn entered_target(name: &str, ip: &str, port: &str) -> (target: Option<EnteredTarget>)
    ensures
        target is Some <==> ip@.len() > 0,
        target matches Some(t) ==> {
            &&& t.name@ == if name@.len() == 0 {
                "Node "@ + ip@
            } else {
                name@
            }
            &&& t.ip@ == ip@
            &&& t.port == match port_in(encode_utf8(port@)) {
                Some(p) => p,
                None => DEFAULT_TARGET_PORT,
            }
        },
{
    if ip.is_empty() {
        return None;
    }
    let port: u16 = match parse_port(port) {
        Some(p) => p,
        None => DEFAULT_TARGET_PORT,
    };
    let name: String = if name.is_empty() {
        let mut own: String = "Node ".to_owned();
        own.append(ip);
        own
    } else {
        name.to_owned()
    };
    Some(EnteredTarget { name, ip: ip.to_owned(), port })
}

/// The name by which a guitar is switched and its health is known.
pub fn guitar_key(name: &str) -> (key: String)
    ensures
        key@ == "GUITAR_"@ + uppercase(name@),
{
    let upper: String = to_upper(name);
    let mut key: String = "GUITAR_".to_owned();
    key.append(upper.as_str());
    key
}

/// How a Bluetooth adapter is shown: its name, and its address where it is known.
pub fn adapter_label(name: &str, address: &str) -> (label: String)
    ensures
        label@ == if address@.len() == 0 {
            name@
        } else {
            name@ + " ("@ + address@ + ")"@
        },
{
    let mut label: String = name.to_owned();
    if !address.is_empty() {
        label.append(" (");
        label.append(address);
        label.append(")");
    }
    label
}

impl Ranked for SourceEntry {
    open spec fn rankable(&self) -> bool {
        !self.metrics.raw_shannon.is_nan()
    }

    open spec fn behind(&self, other: &Self) -> bool {
        other.metrics.raw_shannon.greater(self.metrics.raw_shannon)
    }

    proof fn behind_is_order(a: &Self, b: &Self, c: &Self) {
    }

    fn is_behind(&self, other: &Self) -> (answer: bool) {
        other.metrics.raw_shannon.exceeds(self.metrics.raw_shannon)
    }
}

impl Ranked for GuitarState {
    open spec fn rankable(&self) -> bool {
        true
    }

    open spec fn behind(&self, other: &Self) -> bool {
        bytes_before(encode_utf8(other.name@), encode_utf8(self.name@))
    }

    proof fn behind_is_order(a: &Self, b: &Self, c: &Self) {
        crate::vault::listing::lemma_bytes_before(
            encode_utf8(c.name@),
            encode_utf8(b.name@),
            encode_utf8(a.name@),
        );
        crate::vault::listing::lemma_bytes_before(
            encode_utf8(a.name@),
            encode_utf8(b.name@),
            encode_utf8(c.name@),
        );
    }

    fn is_behind(&self, other: &Self) -> (answer: bool) {
        crate::vault::listing::text_before(other.name.as_str(), self.name.as_str())
    }
}

/// The sources with the highest Shannon entropy, the highest first and no more than fourteen.
pub open spec fn bars_of(entries: Seq<SourceEntry>) -> Seq<SourceEntry> {
    let order = ranked(entries);
    if order.len() <= SOURCE_BARS {
        order
    } else {
        order.take(SOURCE_BARS as int)
    }
}

/// The sources of which bars are shown: those with the highest Shannon entropy first, no more than
/// fourteen.
pub fn sources_shown(entries: &Vec<SourceEntry>) -> (shown: Vec<SourceEntry>)
    ensures
        shown@ == bars_of(entries@),
{
    let mut shown: Vec<SourceEntry> = sorted(entries);
    shown.truncate(SOURCE_BARS);
    shown
}

/// The guitars in the order of their names.
pub fn guitars_shown(guitars: &Vec<GuitarState>) -> (shown: Vec<GuitarState>)
    ensures
        shown@ == ranked(guitars@),
{
    sorted(guitars)
}

/// The count of active sources is the number of switches that are on, in whatever order they stand.
pub proof fn law_active_sources_are_counted(switches: Seq<bool>)
    ensures
        count_on(switches) == switches.to_multiset().count(true),
    decreases switches.len(),
{
    broadcast use vstd::seq_lib::group_to_multiset_ensures;

    if switches.len() == 0 {
        assert(!switches.contains(true));
    } else {
        law_active_sources_are_counted(switches.drop_last());
        assert(switches =~= switches.drop_last().push(switches.last()));
    }
}

proof fn lemma_count_of_one(switches: Seq<bool>, at: int)
    requires
        0 <= at < switches.len(),
    ensures
        count_on(switches.update(at, true)) == count_on(switches.update(at, false)) + 1,
    decreases switches.len(),
{
    let on = switches.update(at, true);
    let off = switches.update(at, false);
    if at == switches.len() - 1 {
        assert(on.drop_last() =~= off.drop_last());
    } else {
        lemma_count_of_one(switches.drop_last(), at);
        assert(on.drop_last() =~= switches.drop_last().update(at, true));
        assert(off.drop_last() =~= switches.drop_last().update(at, false));
    }
}

spec fn place_of(harvester: Harvester) -> int {
    match harvester {
        Harvester::Trng => 0,
        Harvester::Audio => 1,
        Harvester::System => 2,
        Harvester::Mouse => 3,
        Harvester::Video => 4,
        Harvester::GpuCuda => 5,
        Harvester::GpuOcl => 6,
        Harvester::Wifi => 7,
        Harvester::UsbSerial => 8,
        Harvester::BtPassive => 9,
        Harvester::BtActive => 10,
    }
}

#[verifier::rlimit(60)]
proof fn lemma_switch_place(
    h: HarvesterStates,
    guitars: Seq<GuitarState>,
    harvester: Harvester,
    on: bool,
)
    ensures
        source_switches(switched(h, harvester, on), guitars) == source_switches(h, guitars).update(
            place_of(harvester),
            on,
        ),
        place_of(harvester) < source_switches(h, guitars).len(),
{
    reveal(switched);
    let made = source_switches(switched(h, harvester, on), guitars);
    let all = source_switches(h, guitars).update(place_of(harvester), on);
    assert(made.len() == all.len());
    assert forall|i: int| 0 <= i < made.len() implies made[i] == all[i] by {
        match harvester {
            Harvester::Trng => {},
            Harvester::Audio => {},
            Harvester::System => {},
            Harvester::Mouse => {},
            Harvester::Video => {},
            Harvester::GpuCuda => {},
            Harvester::GpuOcl => {},
            Harvester::Wifi => {},
            Harvester::UsbSerial => {},
            Harvester::BtPassive => {},
            Harvester::BtActive => {},
        }
    }
    assert(made =~= all);
}

proof fn lemma_guitar_place(h: HarvesterStates, guitars: Seq<GuitarState>, at: int, on: bool)
    requires
        0 <= at < guitars.len(),
    ensures
        source_switches(h, guitars.update(at, (GuitarState { enabled: on, ..guitars[at] })))
            == source_switches(h, guitars).update(11 + at, on),
        11 + at < source_switches(h, guitars).len(),
{
    assert(source_switches(h, guitars.update(at, (GuitarState { enabled: on, ..guitars[at] })))
        =~= source_switches(h, guitars).update(11 + at, on));
}

/// Every harvester and every guitar counts once: with one more of them switched on, whichever it is,
/// one more is counted.
pub proof fn law_every_source_counts_once(
    h: HarvesterStates,
    guitars: Seq<GuitarState>,
    harvester: Harvester,
    at: int,
)
    ensures
        count_on(source_switches(switched(h, harvester, true), guitars)) == count_on(
            source_switches(switched(h, harvester, false), guitars),
        ) + 1,
        0 <= at < guitars.len() ==> count_on(
            source_switches(
                h,
                guitars.update(at, (GuitarState { enabled: true, ..guitars[at] })),
            ),
        ) == count_on(
            source_switches(
                h,
                guitars.update(at, (GuitarState { enabled: false, ..guitars[at] })),
            ),
        ) + 1,
{
    let place = place_of(harvester);
    let all = source_switches(h, guitars);
    lemma_switch_place(h, guitars, harvester, true);
    lemma_switch_place(h, guitars, harvester, false);
    lemma_count_of_one(all, place);
    if 0 <= at < guitars.len() {
        lemma_guitar_place(h, guitars, at, true);
        lemma_guitar_place(h, guitars, at, false);
        lemma_count_of_one(all, 11 + at);
    }
}

/// A port is read digit by digit: a digit alone is its number, one more digit makes ten times the
/// number and the digit, which must not pass 65535, and a plus in front changes nothing. What holds
/// anything else than digits is no port.
pub proof fn law_ports_are_decimal(text: Seq<u8>, digit: u8)
    requires
        48 <= digit <= 57,
    ensures
        port_in(seq![digit]) == Some((digit - 48) as u16),
        text.len() > 0 && text[0] != 43 ==> port_in(seq![43u8] + text) == port_in(text),
        port_in(text) matches Some(port) ==> port_in(text.push(digit)) == if 10 * port + (digit - 48)
            <= 65535 {
            Some((10 * port + (digit - 48)) as u16)
        } else {
            None
        },
        (exists|i: int| 1 <= i < text.len() && !(48 <= #[trigger] text[i] <= 57)) ==> port_in(text)
            is None,
        text.len() == 0 ==> port_in(text) is None,
        text.len() > 0 && text[0] != 43 && !(48 <= text[0] <= 57) ==> port_in(text) is None,
        text.len() > 0 && text[0] == 43 && port_in(text) is Some ==> port_in(text.skip(1))
            == port_in(text),
{
    let one = seq![digit];
    assert(one.drop_last() =~= Seq::<u8>::empty());
    assert(digits_value(Seq::<u8>::empty()) == 0);
    assert((seq![43u8] + text).skip(1) =~= text);
    let more = text.push(digit);
    let rest = text.skip(1);
    assert(more.drop_last() =~= text);
    if text.len() > 0 {
        assert(more.skip(1).drop_last() =~= rest);
    }
    if let Some(port) = port_in(text) {
        let signed = text[0] == 43;
        let digits = if signed {
            rest
        } else {
            text
        };
        let longer = if signed {
            more.skip(1)
        } else {
            more
        };
        assert(longer =~= digits.push(digit));
        assert forall|i: int| 0 <= i < longer.len() implies 48 <= #[trigger] longer[i] <= 57 by {
            if i < digits.len() {
                assert(longer[i] == digits[i]);
            }
        }
        assert(digits_value(longer) == 10 * digits_value(digits) + (digit - 48) as nat);
        if signed {
            assert(rest[0] == digits[0] && 48 <= digits[0]);
        }
    }
    if exists|i: int| 1 <= i < text.len() && !(48 <= #[trigger] text[i] <= 57) {
        let i = choose|i: int| 1 <= i < text.len() && !(48 <= #[trigger] text[i] <= 57);
        assert(rest[i - 1] == text[i]);
        assert(!all_digits(text));
        assert(!all_digits(rest));
    }
}

/// The tints of a value are those of its levels: 7.9 and 7.0 bits for the Shannon entropy, 7.5 and
/// 6.0 for the estimate. A higher value is never shown in a worse tint.
pub proof fn law_levels_are_ordered(value: Binary64, higher: Binary64)
    requires
        higher.greater(value),
    ensures
        level_tint(value, SHANNON_GOOD, SHANNON_FAIR) == Tint::Green <==> value.greater(
            Binary64 { bits: 0x401f_9999_9999_999a },
        ),
        level_tint(value, SHANNON_GOOD, SHANNON_FAIR) == Tint::Red <==> !value.greater(
            Binary64 { bits: 0x401c_0000_0000_0000 },
        ),
        level_tint(value, MIN_ENTROPY_GOOD, MIN_ENTROPY_FAIR) == Tint::Green <==> value.greater(
            Binary64 { bits: 0x401e_0000_0000_0000 },
        ),
        level_tint(value, MIN_ENTROPY_GOOD, MIN_ENTROPY_FAIR) == Tint::Red <==> !value.greater(
            Binary64 { bits: 0x4018_0000_0000_0000 },
        ),
        level_tint(value, SHANNON_GOOD, SHANNON_FAIR) == Tint::Green ==> level_tint(
            higher,
            SHANNON_GOOD,
            SHANNON_FAIR,
        ) == Tint::Green,
        level_tint(higher, SHANNON_GOOD, SHANNON_FAIR) == Tint::Red ==> level_tint(
            value,
            SHANNON_GOOD,
            SHANNON_FAIR,
        ) == Tint::Red,
{
    assert(size_in_units(0x401f_9999_9999_999a) >= size_in_units(0x401c_0000_0000_0000)) by {
        lemma_sizes_ordered(0x401c_0000_0000_0000, 0x401f_9999_9999_999a);
    }
    assert(size_in_units(0x401e_0000_0000_0000) >= size_in_units(0x4018_0000_0000_0000)) by {
        lemma_sizes_ordered(0x4018_0000_0000_0000, 0x401e_0000_0000_0000);
    }
}

/// A text that is cut short keeps its front: the first characters, as many as the kept bytes encode,
/// and the mark behind them.
pub proof fn law_cut_text_keeps_its_front(text: Seq<char>, keep: int, mark: Seq<char>)
    requires
        is_char_boundary(encode_utf8(text), keep),
        0 <= keep <= encode_utf8(text).len(),
    ensures
        exists|front: Seq<char>|
            {
                &&& #[trigger] front.is_prefix_of(text)
                &&& encode_utf8(front).len() == keep
                &&& front_of(text, keep, mark) == front + mark
            },
{
    let bytes = encode_utf8(text);
    vstd::utf8::encode_utf8_valid_utf8(text);
    vstd::utf8::encode_utf8_decode_utf8(text);
    vstd::utf8::decode_utf8_split(bytes, keep);
    vstd::utf8::valid_utf8_split(bytes, keep);
    vstd::utf8::decode_utf8_encode_utf8(bytes.subrange(0, keep));
    assert(bytes.take(keep) =~= bytes.subrange(0, keep));
    let front = decode_utf8(bytes.take(keep));
    assert(front.is_prefix_of(text));
}

proof fn lemma_encode_concat(front: Seq<char>, back: Seq<char>)
    ensures
        encode_utf8(front + back) == encode_utf8(front) + encode_utf8(back),
    decreases front.len(),
{
    if front.len() == 0 {
        assert(front + back =~= back);
        assert(encode_utf8(front) + encode_utf8(back) =~= encode_utf8(back));
    } else {
        lemma_encode_concat(front.drop_first(), back);
        assert((front + back).drop_first() =~= front.drop_first() + back);
        assert(encode_utf8(front + back) =~= encode_utf8(front) + encode_utf8(back));
    }
}

/// A word is found wherever it stands, at the start of a text, in its middle or at its end.
pub proof fn law_word_is_found_anywhere(front: Seq<char>, word: Seq<char>, back: Seq<char>)
    ensures
        mentions(front + word + back, word),
        encode_utf8(front).len() < encode_utf8(word).len() ==> !mentions(front, word),
{
    lemma_encode_concat(front + word, back);
    lemma_encode_concat(front, word);
    let bytes = encode_utf8(front + word + back);
    let at = encode_utf8(front).len() as int;
    assert(bytes.subrange(at, at + encode_utf8(word).len()) =~= encode_utf8(word));
    assert(stands_at(bytes, encode_utf8(word), at));
}

/// The sources that are shown are the highest: up to fourteen are shown, in falling order, and none
/// that is left out is higher than any that is shown.
pub proof fn law_highest_sources_are_shown(entries: Seq<SourceEntry>, i: int, k: int)
    requires
        forall|j: int| 0 <= j < entries.len() ==> !(#[trigger] entries[j]).metrics.raw_shannon.is_nan(),
        0 <= i < bars_of(entries).len(),
        0 <= k < entries.len(),
    ensures
        bars_of(entries).len() == if entries.len() <= 14 {
            entries.len()
        } else {
            14
        },
        entries.contains(bars_of(entries)[i]),
        bars_of(entries).contains(entries[k]) || !entries[k].metrics.raw_shannon.greater(
            bars_of(entries)[i].metrics.raw_shannon,
        ),
        forall|j: int|
            i < j < bars_of(entries).len() ==> !(
            #[trigger] bars_of(entries)[j]).metrics.raw_shannon.greater(
                bars_of(entries)[i].metrics.raw_shannon,
            ),
{
    broadcast use vstd::seq_lib::group_to_multiset_ensures;

    let order = ranked(entries);
    let bars = bars_of(entries);
    assert(all_rankable(entries));
    law_ranking_sorts(entries, entries[k]);
    assert(order.to_multiset().len() == order.len());
    assert(entries.to_multiset().len() == entries.len());
    assert(order.contains(order[i]));
    assert(entries.to_multiset().count(order[i]) > 0);
    assert(entries.contains(entries[k]));
    assert(order.to_multiset().count(entries[k]) > 0);
    let p = choose|p: int| 0 <= p < order.len() && order[p] == entries[k];
    assert(in_order(order));
    if p < bars.len() {
        assert(bars[p] == entries[k]);
    } else {
        assert(!order[i].behind(&order[p]));
    }
    assert forall|j: int| i < j < bars.len() implies !(
    #[trigger] bars[j]).metrics.raw_shannon.greater(bars[i].metrics.raw_shannon) by {
        assert(!order[i].behind(&order[j]));
    }
}

/// The guitars that are shown are all the guitars, each as often as before, in the order of their
/// names.
pub proof fn law_guitars_are_shown_by_name(guitars: Seq<GuitarState>)
    ensures
        ranked(guitars).to_multiset() == guitars.to_multiset(),
        forall|i: int, j: int|
            0 <= i < j < ranked(guitars).len() ==> !bytes_before(
                encode_utf8((#[trigger] ranked(guitars)[j]).name@),
                encode_utf8((#[trigger] ranked(guitars)[i]).name@),
            ),
{
    let order = ranked(guitars);
    let model = arbitrary::<GuitarState>();
    law_ranking_sorts(guitars, model);
    assert forall|i: int, j: int| 0 <= i < j < order.len() implies !bytes_before(
        encode_utf8((#[trigger] order[j]).name@),
        encode_utf8((#[trigger] order[i]).name@),
    ) by {
        assert(!order[i].behind(&order[j]));
    }
}

} // verus!
