//! The exchange with peers, and what is sent to the uplink and to vault nodes.

use super::state::{ChaosEngine, P2PConfig, SharedState};
use crate::bytes::{
    append_bytes, append_number, copy_bytes, find_bytes, law_number_bytes, le_bytes, stands_at,
};
use crate::clock::{clock_before_epoch, clock_second, get_timestamp};
use crate::crypto::{hmac_accepts, hmac_sha256, hmac_tag, sha3_256, sha3_digest};
use crate::entropy::health::NistHealthTester;
use crate::harvesters::screen::{screen, Reporting};
use crate::hexcode::{hex_bytes, hex_decode, hex_encode, hex_text};
use vstd::prelude::*;
use vstd::utf8::{decode_utf8, encode_utf8};

verus! {

/// Seconds by which a message's time may differ from the present.
pub const TIME_WINDOW: i64 = 300;

/// The name under which this node sends.
pub open spec fn node_name() -> Seq<char> {
    "nullmagnet_live"@
}

/// The byte string that a message's tag is over.
pub open spec fn authenticated(
    node_id: Seq<char>,
    seq: u64,
    timestamp: i64,
    sources: Seq<char>,
    payload: Seq<u8>,
) -> Seq<u8> {
    encode_utf8(node_id) + encode_utf8("|"@) + le_bytes(seq) + encode_utf8("|"@) + le_bytes(
        timestamp as u64,
    ) + encode_utf8("|"@) + encode_utf8(sources) + encode_utf8("|"@) + payload
}

fn write_authenticated(
    node_id: &str,
    seq: u64,
    timestamp: i64,
    sources: &str,
    payload: &[u8],
) -> (message: Vec<u8>)
    ensures
        message@ == authenticated(node_id@, seq, timestamp, sources@, payload@),
{
    let mut message: Vec<u8> = copy_bytes(node_id.as_bytes());
    append_bytes(&mut message, "|".as_bytes());
    append_number(&mut message, seq);
    append_bytes(&mut message, "|".as_bytes());
    append_number(&mut message, timestamp as u64);
    append_bytes(&mut message, "|".as_bytes());
    append_bytes(&mut message, sources.as_bytes());
    append_bytes(&mut message, "|".as_bytes());
    append_bytes(&mut message, payload);
    message
}

/// Whether a claimed tag, in hexadecimal, is the tag of a message under a key.
pub open spec fn tag_valid(
    key: Seq<u8>,
    node_id: Seq<char>,
    seq: u64,
    timestamp: i64,
    payload: Seq<u8>,
    sources: Seq<char>,
    claimed: Seq<char>,
) -> bool {
    hex_bytes(claimed) == Some(
        hmac_sha256(key, authenticated(node_id, seq, timestamp, sources, payload)),
    )
}

/// Tests whether a claimed tag is the tag of a message under a key.
pub fn validate_hmac(
    key: &[u8],
    node_id: &str,
    seq: u64,
    timestamp: i64,
    payload: &[u8],
    sources: &str,
    claimed_mac: &str,
) -> (valid: bool)
    ensures
        valid == tag_valid(key@, node_id@, seq, timestamp, payload@, sources@, claimed_mac@),
{
    let message: Vec<u8> = write_authenticated(node_id, seq, timestamp, sources, payload);
    match hex_decode(claimed_mac) {
        Some(claimed) => hmac_accepts(key, message.as_slice(), claimed.as_slice()),
        None => false,
    }
}

/// A message to a peer.
pub struct PeerPost {
    pub url: String,
    pub node_id: &'static str,
    pub seq: u64,
    pub timestamp: i64,
    pub payload_hex: String,
    pub sources: &'static str,
    pub mac_hex: Option<String>,
}

/// Whether this is the message to a peer, with its tag where there is a key.
pub open spec fn is_peer_post(
    post: PeerPost,
    peer: Seq<char>,
    seq: u64,
    timestamp: i64,
    payload: Seq<u8>,
    hmac_key: Option<Vec<u8>>,
) -> bool {
    &&& post.url@ == "http://"@ + peer
    &&& post.node_id@ == node_name()
    &&& post.seq == seq
    &&& post.timestamp == timestamp
    &&& post.payload_hex@ == hex_text(payload)
    &&& post.sources@ == "mixed"@
    &&& match hmac_key {
        Some(key) => post.mac_hex matches Some(mac) && mac@ == hex_text(
            hmac_sha256(key@, authenticated(node_name(), seq, timestamp, "mixed"@, payload)),
        ),
        None => post.mac_hex is None,
    }
}

/// Puts a message to a peer together, with its tag where there is a key.
pub fn peer_post(
    peer: &str,
    seq: u64,
    timestamp: i64,
    payload: &[u8],
    hmac_key: &Option<Vec<u8>>,
) -> (post: PeerPost)
    ensures
        is_peer_post(post, peer@, seq, timestamp, payload@, *hmac_key),
{
    let mac_hex: Option<String> = match hmac_key {
        Some(key) => {
            let message: Vec<u8> = write_authenticated(
                "nullmagnet_live",
                seq,
                timestamp,
                "mixed",
                payload,
            );
            let tag: [u8; 32] = hmac_tag(key.as_slice(), message.as_slice());
            Some(hex_encode(tag.as_slice()))
        },
        None => None,
    };
    let mut url: String = "http://".to_owned();
    url.append(peer);
    PeerPost {
        url,
        node_id: "nullmagnet_live",
        seq,
        timestamp,
        payload_hex: hex_encode(payload),
        sources: "mixed",
        mac_hex,
    }
}

/// A message to the uplink.
pub struct UplinkPost {
    pub url: String,
    pub node: &'static str,
    pub version: &'static str,
    pub nist_compliant: bool,
    pub seq: u64,
    pub timestamp: u64,
    pub source: String,
    pub payload_hex: String,
    /// The digest of the raw batch, in hexadecimal.
    pub digest: String,
}

/// Puts a message to the uplink together.
pub fn uplink_post(
    url: &str,
    seq: u64,
    timestamp: u64,
    source: &str,
    extracted: &[u8],
    raw: &[u8],
) -> (post: UplinkPost)
    ensures
        post.url@ == url@,
        post.node@ == node_name(),
        post.version@ == "2.0"@,
        post.nist_compliant,
        post.seq == seq,
        post.timestamp == timestamp,
        post.source@ == source@,
        post.payload_hex@ == hex_text(extracted@),
        post.digest@ == hex_text(sha3_256(raw@)),
{
    let digest: [u8; 32] = sha3_digest(raw);
    UplinkPost {
        url: url.to_owned(),
        node: "nullmagnet_live",
        version: "2.0",
        nist_compliant: true,
        seq,
        timestamp,
        source: source.to_owned(),
        payload_hex: hex_encode(extracted),
        digest: hex_encode(digest.as_slice()),
    }
}

/// A message to a vault node.
pub struct HeadscalePost {
    pub url: String,
    pub node: &'static str,
    pub version: &'static str,
    pub seq: u64,
    pub timestamp: u64,
    pub payload_hex: String,
}

/// Puts a message to a vault node together.
pub fn headscale_post(url: &str, seq: u64, timestamp: u64, extracted: &[u8]) -> (post:
    HeadscalePost)
    ensures
        post.url@ == url@,
        post.node@ == node_name(),
        post.version@ == "2.0"@,
        post.seq == seq,
        post.timestamp == timestamp,
        post.payload_hex@ == hex_text(extracted@),
{
    HeadscalePost {
        url: url.to_owned(),
        node: "nullmagnet_live",
        version: "2.0",
        seq,
        timestamp,
        payload_hex: hex_encode(extracted),
    }
}

/// Whether `serde_json` takes bytes as a JSON document.
pub uninterp spec fn is_json(body: Seq<u8>) -> bool;

/// The text that `serde_json` finds under a key of a JSON document, `None` where there is no text.
pub uninterp spec fn json_text(body: Seq<u8>, key: Seq<char>) -> Option<Seq<char>>;

/// The natural number of 64 bits that `serde_json` finds under a key of a JSON document, `None` where
/// there is none.
pub uninterp spec fn json_u64(body: Seq<u8>, key: Seq<char>) -> Option<u64>;

/// The whole number of 64 bits that `serde_json` finds under a key of a JSON document, `None` where
/// there is none.
pub uninterp spec fn json_i64(body: Seq<u8>, key: Seq<char>) -> Option<i64>;

/// Calls `serde_json::from_slice` and tells whether it succeeds, which depends on the bytes alone.
#[verifier::external_body]
fn parses_as_json(body: &[u8]) -> (parses: bool)
    ensures
        parses == is_json(body@),
{
    serde_json::from_slice::<serde_json::Value>(body).is_ok()
}

/// Calls `serde_json::Value::as_str` on what stands under a key of the document. The result depends
/// on the bytes and the key alone; the grammar behind it is left unsaid.
#[verifier::external_body]
fn text_under(body: &[u8], key: &str) -> (text: Option<String>)
    ensures
        text is Some <==> json_text(body@, key@) is Some,
        text matches Some(t) ==> json_text(body@, key@) == Some(t@),
{
    let document: serde_json::Value = serde_json::from_slice(body).ok()?;
    document[key].as_str().map(String::from)
}

/// Calls `serde_json::Value::as_u64` on what stands under a key of the document. The result depends
/// on the bytes and the key alone; the grammar behind it is left unsaid.
#[verifier::external_body]
fn u64_under(body: &[u8], key: &str) -> (number: Option<u64>)
    ensures
        number == json_u64(body@, key@),
{
    let document: serde_json::Value = serde_json::from_slice(body).ok()?;
    document[key].as_u64()
}

/// Calls `serde_json::Value::as_i64` on what stands under a key of the document. The result depends
/// on the bytes and the key alone; the grammar behind it is left unsaid.
#[verifier::external_body]
fn i64_under(body: &[u8], key: &str) -> (number: Option<i64>)
    ensures
        number == json_i64(body@, key@),
{
    let document: serde_json::Value = serde_json::from_slice(body).ok()?;
    document[key].as_i64()
}

/// The fields of a peer's message.
pub struct PeerFields {
    pub node_id: String,
    pub seq: u64,
    pub timestamp: i64,
    pub payload_hex: String,
    pub sources: String,
    pub mac_hex: String,
}

/// A text, empty where there is none.
pub open spec fn text_or_empty(text: Option<Seq<char>>) -> Seq<char> {
    match text {
        Some(t) => t,
        None => Seq::empty(),
    }
}

/// Whether these are the fields that a JSON document gives; one that is missing or of another kind
/// counts as empty or zero.
pub open spec fn fields_of(body: Seq<u8>, fields: PeerFields) -> bool {
    &&& fields.node_id@ == text_or_empty(json_text(body, "node_id"@))
    &&& fields.seq == match json_u64(body, "seq"@) {
        Some(n) => n,
        None => 0,
    }
    &&& fields.timestamp == match json_i64(body, "timestamp"@) {
        Some(n) => n,
        None => 0,
    }
    &&& fields.payload_hex@ == text_or_empty(json_text(body, "payload_hex"@))
    &&& fields.sources@ == text_or_empty(json_text(body, "sources"@))
    &&& fields.mac_hex@ == text_or_empty(json_text(body, "mac_hex"@))
}

fn text_field(body: &[u8], key: &str) -> (text: String)
    ensures
        text@ == text_or_empty(json_text(body@, key@)),
{
    match text_under(body, key) {
        Some(text) => text,
        None => String::new(),
    }
}

/// The body of a request: what stands behind the first empty line, `None` where there is none.
pub open spec fn is_body(request: Seq<u8>, body: Option<Seq<u8>>) -> bool {
    let mark = encode_utf8("\r\n\r\n"@);
    match body {
        Some(b) => exists|at: int| #[trigger]
            stands_at(request, mark, at) && (forall|j: int|
                0 <= j < at ==> !#[trigger] stands_at(request, mark, j)) && b == request.skip(
                at + mark.len(),
            ),
        None => forall|j: int| !#[trigger] stands_at(request, mark, j),
    }
}

fn body_of(request: &str) -> (body: Option<Vec<u8>>)
    ensures
        is_body(
            encode_utf8(request@),
            match body {
                Some(b) => Some(b@),
                None => None,
            },
        ),
{
    let bytes = request.as_bytes();
    let mark = "\r\n\r\n".as_bytes();
    match find_bytes(bytes, mark) {
        Some(at) => {
            assert(stands_at(bytes@, mark@, at as int));
            assert(at + mark.len() <= bytes.len());
            let rest = vstd::slice::slice_subrange(bytes, at + mark.len(), bytes.len());
            assert(rest@ =~= bytes@.skip(at + mark@.len()));
            Some(copy_bytes(rest))
        },
        None => None,
    }
}

/// Whether a request reads as these fields.
pub open spec fn request_reads(request: Seq<char>, fields: Option<PeerFields>) -> bool {
    exists|body: Option<Seq<u8>>| #[trigger]
        is_body(encode_utf8(request), body) && match fields {
            Some(f) => body matches Some(b) && is_json(b) && fields_of(b, f),
            None => body matches Some(b) ==> !is_json(b),
        }
}

/// Reads the fields of a request, `None` where it has no body or the body is no JSON.
pub fn read_request(request: &str) -> (fields: Option<PeerFields>)
    ensures
        request_reads(request@, fields),
{
    let body: Vec<u8> = match body_of(request) {
        Some(body) => body,
        None => {
            assert(is_body(encode_utf8(request@), None));
            return None;
        },
    };
    assert(is_body(encode_utf8(request@), Some(body@)));
    let bytes = body.as_slice();
    if !parses_as_json(bytes) {
        return None;
    }
    Some(
        PeerFields {
            node_id: text_field(bytes, "node_id"),
            seq: match u64_under(bytes, "seq") {
                Some(n) => n,
                None => 0,
            },
            timestamp: match i64_under(bytes, "timestamp") {
                Some(n) => n,
                None => 0,
            },
            payload_hex: text_field(bytes, "payload_hex"),
            sources: text_field(bytes, "sources"),
            mac_hex: text_field(bytes, "mac_hex"),
        },
    )
}

/// What a peer is answered.
pub enum PeerReply {
    /// The request has no body, or the body is no JSON.
    Malformed,
    /// The payload is not hexadecimal.
    InvalidHex,
    /// The engine is busy.
    Busy,
    /// The tag is not the message's.
    HmacInvalid,
    /// The message's time is too far from the present.
    TimeMismatch,
    /// The payload is taken, under the name of its source.
    Accepted { source: String, payload: Vec<u8> },
}

impl PeerReply {
    /// The answer as it is sent.
    pub open spec fn text(&self) -> Seq<char> {
        match self {
            PeerReply::Malformed => "HTTP/1.1 400 Bad Request\r\nContent-Length: 5\r\n\r\nERROR"@,
            PeerReply::InvalidHex => "HTTP/1.1 400 Bad Request\r\nContent-Length: 11\r\n\r\nINVALID_HEX"@,
            PeerReply::Busy => "HTTP/1.1 503 Service Unavailable\r\nContent-Length: 4\r\n\r\nBUSY"@,
            PeerReply::HmacInvalid => "HTTP/1.1 403 Forbidden\r\nContent-Length: 12\r\n\r\nHMAC_INVALID"@,
            PeerReply::TimeMismatch => "HTTP/1.1 403 Forbidden\r\nContent-Length: 13\r\n\r\nTIME_MISMATCH"@,
            PeerReply::Accepted { .. } => "HTTP/1.1 200 OK\r\nContent-Length: 2\r\n\r\nOK"@,
        }
    }

    /// Writes the answer as it is sent.
    pub fn response(&self) -> (text: &'static str)
        ensures
            text@ == self.text(),
    {
        match self {
            PeerReply::Malformed => "HTTP/1.1 400 Bad Request\r\nContent-Length: 5\r\n\r\nERROR",
            PeerReply::InvalidHex => "HTTP/1.1 400 Bad Request\r\nContent-Length: 11\r\n\r\nINVALID_HEX",
            PeerReply::Busy => "HTTP/1.1 503 Service Unavailable\r\nContent-Length: 4\r\n\r\nBUSY",
            PeerReply::HmacInvalid => "HTTP/1.1 403 Forbidden\r\nContent-Length: 12\r\n\r\nHMAC_INVALID",
            PeerReply::TimeMismatch => "HTTP/1.1 403 Forbidden\r\nContent-Length: 13\r\n\r\nTIME_MISMATCH",
            PeerReply::Accepted { .. } => "HTTP/1.1 200 OK\r\nContent-Length: 2\r\n\r\nOK",
        }
    }
}

/// What the engine lets a request through with.
pub enum Gate {
    /// The engine cannot be asked.
    Busy,
    /// The engine takes messages; with a key, only those that carry its tag.
    Open { hmac_key: Option<Vec<u8>> },
}

/// Whether a message's time is close enough to the present.
pub open spec fn timely(timestamp: i64, now: i64) -> bool {
    -TIME_WINDOW <= now - timestamp <= TIME_WINDOW
}

/// Whether a message carries the tag of a key.
pub open spec fn tagged(key: Seq<u8>, fields: PeerFields, payload: Seq<u8>) -> bool {
    tag_valid(
        key,
        fields.node_id@,
        fields.seq,
        fields.timestamp,
        payload,
        fields.sources@,
        fields.mac_hex@,
    )
}

/// Whether this is what a request with these fields is answered, from this address and at this time.
pub open spec fn answers(
    fields: Option<PeerFields>,
    ip: Seq<char>,
    gate: Gate,
    now: i64,
    reply: PeerReply,
) -> bool {
    match fields {
        None => reply is Malformed,
        Some(f) => match hex_bytes(f.payload_hex@) {
            None => reply is InvalidHex,
            Some(payload) => match gate {
                Gate::Busy => reply is Busy,
                Gate::Open { hmac_key } => {
                    let tag_fails = hmac_key matches Some(key) && !tagged(key@, f, payload);
                    let time_fails = hmac_key is Some && !timely(f.timestamp, now);
                    if tag_fails {
                        reply is HmacInvalid
                    } else if time_fails {
                        reply is TimeMismatch
                    } else {
                        reply matches PeerReply::Accepted { source, payload: taken } && source@
                            == "P2P_"@ + ip && taken@ == payload
                    }
                },
            },
        },
    }
}

/// Answers a request with given fields, at a given time.
pub fn answer_fields(fields: Option<PeerFields>, ip: &str, gate: &Gate, now: i64) -> (reply:
    PeerReply)
    ensures
        answers(fields, ip@, *gate, now, reply),
{
    let f: PeerFields = match fields {
        Some(f) => f,
        None => {
            return PeerReply::Malformed;
        },
    };
    let payload: Vec<u8> = match hex_decode(f.payload_hex.as_str()) {
        Some(payload) => payload,
        None => {
            return PeerReply::InvalidHex;
        },
    };
    match gate {
        Gate::Busy => {
            return PeerReply::Busy;
        },
        Gate::Open { hmac_key } => {
            if let Some(key) = hmac_key {
                if !validate_hmac(
                    key.as_slice(),
                    f.node_id.as_str(),
                    f.seq,
                    f.timestamp,
                    payload.as_slice(),
                    f.sources.as_str(),
                    f.mac_hex.as_str(),
                ) {
                    return PeerReply::HmacInvalid;
                }
                let apart: i128 = now as i128 - f.timestamp as i128;
                if apart > TIME_WINDOW as i128 || apart < -(TIME_WINDOW as i128) {
                    return PeerReply::TimeMismatch;
                }
            }
        },
    }
    let mut source: String = "P2P_".to_owned();
    source.append(ip);
    PeerReply::Accepted { source, payload }
}

/// Whether the time decides what a request with these fields is answered: it must carry the tag of a
/// key.
pub open spec fn time_decides(fields: Option<PeerFields>, gate: Gate) -> bool {
    &&& fields matches Some(f)
    &&& hex_bytes(f.payload_hex@) matches Some(payload)
    &&& gate matches Gate::Open { hmac_key }
    &&& hmac_key matches Some(key)
    &&& tagged(key@, f, payload)
}

fn asks_the_time(fields: &Option<PeerFields>, gate: &Gate) -> (asks: bool)
    ensures
        asks == time_decides(*fields, *gate),
{
    match (fields, gate) {
        (Some(f), Gate::Open { hmac_key: Some(key) }) => match hex_decode(f.payload_hex.as_str()) {
            Some(payload) => validate_hmac(
                key.as_slice(),
                f.node_id.as_str(),
                f.seq,
                f.timestamp,
                payload.as_slice(),
                f.sources.as_str(),
                f.mac_hex.as_str(),
            ),
            None => false,
        },
        _ => false,
    }
}

/// Whether this is what a request is answered from this address: where the time decides it, by the
/// second that the clock shows, and not at all while the clock stands before 1970.
pub open spec fn answered(
    request: Seq<char>,
    ip: Seq<char>,
    gate: Gate,
    reply: Option<PeerReply>,
) -> bool {
    match reply {
        Some(r) => exists|fields: Option<PeerFields>, now: i64| #[trigger]
            answers(fields, ip, gate, now, r) && request_reads(request, fields) && (time_decides(
                fields,
                gate,
            ) ==> exists|second: u64| #[trigger] clock_second(second) && now == second as i64),
        None => clock_before_epoch() && exists|fields: Option<PeerFields>| #[trigger]
            request_reads(request, fields) && time_decides(fields, gate),
    }
}

/// Answers a request. There is no answer only where the time decides it and the clock stands before
/// 1970.
pub fn answer_request(request: &str, ip: &str, gate: &Gate) -> (reply: Option<PeerReply>)
    ensures
        answered(request@, ip@, *gate, reply),
{
    let fields: Option<PeerFields> = read_request(request);
    let now: i64 = if asks_the_time(&fields, gate) {
        match get_timestamp() {
            Some(seconds) => {
                assert(clock_second(seconds));
                seconds as i64
            },
            None => {
                return None;
            },
        }
    } else {
        0
    };
    Some(answer_fields(fields, ip, gate, now))
}

/// Puts the payload of a message that was taken through the health tests of its source. Only what
/// passes goes on, under the name of the source; of a message that was not taken nothing does.
pub fn pass_on(reply: &PeerReply, tester: &mut NistHealthTester) -> (batch: Option<
    (String, Vec<u8>),
>)
    requires
        old(tester).wf(),
        reply matches PeerReply::Accepted { payload, .. } ==> old(tester)@.has_room(payload@.len()),
    ensures
        final(tester).wf(),
        match reply {
            PeerReply::Accepted { source, payload } => {
                let (after, passed) = old(tester)@.processed(payload@);
                &&& final(tester)@ == after
                &&& batch is Some <==> passed.len() > 0
                &&& batch matches Some(b) ==> b.0@ == source@ && b.1@ == passed
            },
            _ => batch is None && *final(tester) == *old(tester),
        },
{
    match reply {
        PeerReply::Accepted { source, payload } => {
            match screen(tester, payload.as_slice(), Reporting::Never).passed {
                Some(passed) => Some((source.clone(), passed)),
                None => None,
            }
        },
        _ => None,
    }
}

impl SharedState {
    /// What the engine lets a request through with.
    pub fn gate(&self) -> (gate: Gate)
        ensures
            gate matches Gate::Open { hmac_key } && match hmac_key {
                Some(key) => self.p2p_config.hmac_key matches Some(own) && own@ == key@,
                None => self.p2p_config.hmac_key is None,
            },
    {
        Gate::Open {
            hmac_key: match &self.p2p_config.hmac_key {
                Some(key) => Some(copy_bytes(key.as_slice())),
                None => None,
            },
        }
    }
}

impl ChaosEngine {
    /// Counts a message that was taken.
    pub fn count_received(&mut self)
        requires
            old(self).state.p2p_config.received_count < u64::MAX,
        ensures
            old(self).state.wf() ==> final(self).state.wf(),
            *final(self) == (ChaosEngine {
                state: SharedState {
                    p2p_config: P2PConfig {
                        received_count: (old(self).state.p2p_config.received_count + 1) as u64,
                        ..old(self).state.p2p_config
                    },
                    ..old(self).state
                },
                ..*old(self)
            }),
    {
        self.state.p2p_config.received_count = self.state.p2p_config.received_count + 1;
    }
}

/// Whether these are the fields of a message as its receiver reads them; a tag that is missing reads
/// as empty.
pub open spec fn carries(fields: PeerFields, post: PeerPost) -> bool {
    &&& fields.node_id@ == post.node_id@
    &&& fields.seq == post.seq
    &&& fields.timestamp == post.timestamp
    &&& fields.payload_hex@ == post.payload_hex@
    &&& fields.sources@ == post.sources@
    &&& fields.mac_hex@ == match post.mac_hex {
        Some(mac) => mac@,
        None => Seq::empty(),
    }
}

/// What this node sends, a node takes that asks for no tag or has the same key, as long as the
/// message is in time: the payload that is taken is the one that was sent.
pub proof fn law_sent_message_is_taken(
    post: PeerPost,
    peer: Seq<char>,
    seq: u64,
    timestamp: i64,
    payload: Seq<u8>,
    hmac_key: Option<Vec<u8>>,
    fields: PeerFields,
    ip: Seq<char>,
    gate: Gate,
    now: i64,
    reply: PeerReply,
)
    requires
        is_peer_post(post, peer, seq, timestamp, payload, hmac_key),
        carries(fields, post),
        gate matches Gate::Open { hmac_key: asked } && (asked matches Some(own) ==> (
        hmac_key matches Some(key) && own@ == key@ && timely(timestamp, now))),
        answers(Some(fields), ip, gate, now, reply),
    ensures
        reply matches PeerReply::Accepted { source, payload: taken } && source@ == "P2P_"@ + ip
            && taken@ == payload,
{
    crate::hexcode::law_hex_round_trip(payload);
    if let Some(key) = hmac_key {
        crate::hexcode::law_hex_round_trip(
            hmac_sha256(key@, authenticated(node_name(), seq, timestamp, "mixed"@, payload)),
        );
    }
}

/// With a key set, nothing is taken that does not carry the key's tag and a time close to the
/// present.
pub proof fn law_only_tagged_messages_are_taken(
    fields: Option<PeerFields>,
    ip: Seq<char>,
    key: Vec<u8>,
    gate: Gate,
    now: i64,
    reply: PeerReply,
)
    requires
        gate == (Gate::Open { hmac_key: Some(key) }),
        answers(fields, ip, gate, now, reply),
        reply is Accepted,
    ensures
        fields matches Some(f) && tagged(key@, f, reply->payload@) && timely(f.timestamp, now),
{
}

/// With a key set, a request is taken only where it carries the key's tag and a time that lies no
/// more than five minutes from the second that the clock shows.
pub proof fn law_stale_requests_are_refused(
    request: Seq<char>,
    ip: Seq<char>,
    key: Vec<u8>,
    gate: Gate,
    reply: PeerReply,
)
    requires
        gate == (Gate::Open { hmac_key: Some(key) }),
        answered(request, ip, gate, Some(reply)),
        reply is Accepted,
    ensures
        exists|fields: PeerFields, second: u64|
            request_reads(request, Some(fields)) && tagged(key@, fields, reply->payload@)
                && #[trigger] clock_second(second) && #[trigger] timely(
                fields.timestamp,
                second as i64,
            ),
{
    let (fields, now) = choose|fields: Option<PeerFields>, now: i64| #[trigger]
        answers(fields, ip, gate, now, reply) && request_reads(request, fields) && (time_decides(
            fields,
            gate,
        ) ==> exists|second: u64| #[trigger] clock_second(second) && now == second as i64);
    let f = fields->0;
    assert(time_decides(fields, gate));
    let second = choose|second: u64| #[trigger] clock_second(second) && now == second as i64;
    assert(timely(f.timestamp, second as i64));
}

/// A tag covers the whole message: with any one field changed, the name of the node, the number, the
/// time, the sources or the payload, another byte string is tagged.
pub proof fn law_tag_covers_every_field(
    node_id: Seq<char>,
    other_node_id: Seq<char>,
    seq: u64,
    other_seq: u64,
    timestamp: i64,
    other_timestamp: i64,
    sources: Seq<char>,
    other_sources: Seq<char>,
    payload: Seq<u8>,
    other_payload: Seq<u8>,
)
    ensures
        ({
            let message = authenticated(node_id, seq, timestamp, sources, payload);
            &&& message == authenticated(other_node_id, seq, timestamp, sources, payload) ==> node_id
                == other_node_id
            &&& message == authenticated(node_id, other_seq, timestamp, sources, payload) ==> seq
                == other_seq
            &&& message == authenticated(node_id, seq, other_timestamp, sources, payload)
                ==> timestamp == other_timestamp
            &&& message == authenticated(node_id, seq, timestamp, other_sources, payload) ==> sources
                == other_sources
            &&& message == authenticated(node_id, seq, timestamp, sources, other_payload) ==> payload
                == other_payload
        }),
{
    let message = authenticated(node_id, seq, timestamp, sources, payload);
    if message == authenticated(other_node_id, seq, timestamp, sources, payload) {
        lemma_authenticated_parts(node_id, seq, timestamp, sources, payload);
        lemma_authenticated_parts(other_node_id, seq, timestamp, sources, payload);
    }
    if message == authenticated(node_id, other_seq, timestamp, sources, payload) {
        lemma_authenticated_parts(node_id, seq, timestamp, sources, payload);
        lemma_authenticated_parts(node_id, other_seq, timestamp, sources, payload);
        law_number_bytes(seq, other_seq);
    }
    if message == authenticated(node_id, seq, other_timestamp, sources, payload) {
        lemma_authenticated_parts(node_id, seq, timestamp, sources, payload);
        lemma_authenticated_parts(node_id, seq, other_timestamp, sources, payload);
        law_number_bytes(timestamp as u64, other_timestamp as u64);
        assert(timestamp as u64 == other_timestamp as u64 ==> timestamp == other_timestamp)
            by (bit_vector);
    }
    if message == authenticated(node_id, seq, timestamp, other_sources, payload) {
        lemma_authenticated_parts(node_id, seq, timestamp, sources, payload);
        lemma_authenticated_parts(node_id, seq, timestamp, other_sources, payload);
    }
    if message == authenticated(node_id, seq, timestamp, sources, other_payload) {
        lemma_authenticated_parts(node_id, seq, timestamp, sources, payload);
        lemma_authenticated_parts(node_id, seq, timestamp, sources, other_payload);
    }
}

proof fn lemma_authenticated_parts(
    node_id: Seq<char>,
    seq: u64,
    timestamp: i64,
    sources: Seq<char>,
    payload: Seq<u8>,
)
    ensures
        ({
            let message = authenticated(node_id, seq, timestamp, sources, payload);
            let bar = encode_utf8("|"@).len() as int;
            let node = encode_utf8(node_id).len() as int;
            let named = encode_utf8(sources).len() as int;
            let a = node + bar;
            let b = a + 8 + bar;
            let c = b + 8 + bar;
            let d = c + named + bar;
            &&& message.len() == d + payload.len()
            &&& decode_utf8(message.take(node)) == node_id
            &&& message.subrange(a, a + 8) == le_bytes(seq)
            &&& message.subrange(b, b + 8) == le_bytes(timestamp as u64)
            &&& decode_utf8(message.subrange(c, c + named)) == sources
            &&& message.skip(d) == payload
        }),
{
    broadcast use vstd::utf8::encode_utf8_decode_utf8;

    let message = authenticated(node_id, seq, timestamp, sources, payload);
    let bar = encode_utf8("|"@).len() as int;
    let node = encode_utf8(node_id).len() as int;
    let named = encode_utf8(sources).len() as int;
    let a = node + bar;
    let b = a + 8 + bar;
    let c = b + 8 + bar;
    let d = c + named + bar;
    law_number_bytes(seq, 0);
    law_number_bytes(timestamp as u64, 0);
    assert(message.take(node) =~= encode_utf8(node_id));
    assert(message.subrange(a, a + 8) =~= le_bytes(seq));
    assert(message.subrange(b, b + 8) =~= le_bytes(timestamp as u64));
    assert(message.subrange(c, c + named) =~= encode_utf8(sources));
    assert(message.skip(d) =~= payload);
}

/// A message is taken exactly where the engine can be asked, its payload is hexadecimal and, with a
/// key set, its tag is the key's on all of its fields and its time lies no more than 300 seconds from
/// the present. What is taken is its payload, whole, under the sender's address.
pub proof fn law_taken_exactly_when_valid(
    fields: PeerFields,
    ip: Seq<char>,
    gate: Gate,
    now: i64,
    reply: PeerReply,
)
    requires
        answers(Some(fields), ip, gate, now, reply),
    ensures
        reply is Accepted <==> {
            &&& gate is Open
            &&& hex_bytes(fields.payload_hex@) is Some
            &&& gate->hmac_key matches Some(key) ==> {
                &&& hex_bytes(fields.mac_hex@) == Some(
                    hmac_sha256(
                        key@,
                        authenticated(
                            fields.node_id@,
                            fields.seq,
                            fields.timestamp,
                            fields.sources@,
                            hex_bytes(fields.payload_hex@)->0,
                        ),
                    ),
                )
                &&& now - fields.timestamp <= 300
                &&& fields.timestamp - now <= 300
            }
        },
        reply matches PeerReply::Accepted { source, payload } ==> {
            &&& source@ == "P2P_"@ + ip
            &&& hex_bytes(fields.payload_hex@) == Some(payload@)
        },
        reply is TimeMismatch ==> now - fields.timestamp > 300 || fields.timestamp - now > 300,
        reply is InvalidHex <==> hex_bytes(fields.payload_hex@) is None,
        !(reply is Malformed),
{
}

/// What a tag is over is laid out byte by byte: the name of the node, the number, the time, the
/// sources and the payload, with a bar between two.
pub proof fn law_tagged_bytes_are_laid_out(
    node_id: Seq<char>,
    seq: u64,
    timestamp: i64,
    sources: Seq<char>,
    payload: Seq<u8>,
)
    ensures
        ({
            let message = authenticated(node_id, seq, timestamp, sources, payload);
            let n = encode_utf8(node_id).len() as int;
            let s = encode_utf8(sources).len() as int;
            &&& message.len() == n + s + payload.len() + 20
            &&& message.take(n) == encode_utf8(node_id)
            &&& message[n] == 124
            &&& message.subrange(n + 1, n + 9) == le_bytes(seq)
            &&& message[n + 9] == 124
            &&& message.subrange(n + 10, n + 18) == le_bytes(timestamp as u64)
            &&& message[n + 18] == 124
            &&& message.subrange(n + 19, n + 19 + s) == encode_utf8(sources)
            &&& message[n + 19 + s] == 124
            &&& message.skip(n + 20 + s) == payload
        }),
{
    reveal_strlit("|");
    vstd::utf8::is_ascii_chars_encode_utf8("|"@);
    law_number_bytes(seq, 0);
    law_number_bytes(timestamp as u64, 0);
    let message = authenticated(node_id, seq, timestamp, sources, payload);
    let n = encode_utf8(node_id).len() as int;
    let s = encode_utf8(sources).len() as int;
    assert(encode_utf8("|"@) =~= seq![124u8]);
    assert(message.take(n) =~= encode_utf8(node_id));
    assert(message.subrange(n + 1, n + 9) =~= le_bytes(seq));
    assert(message.subrange(n + 10, n + 18) =~= le_bytes(timestamp as u64));
    assert(message.subrange(n + 19, n + 19 + s) =~= encode_utf8(sources));
    assert(message.skip(n + 20 + s) =~= payload);
}

/// Whether an empty line stands in a request at an index: two ends of a line, one behind the other.
pub open spec fn empty_line_at(request: Seq<u8>, at: int) -> bool {
    &&& 0 <= at
    &&& at + 4 <= request.len()
    &&& request[at] == 13
    &&& request[at + 1] == 10
    &&& request[at + 2] == 13
    &&& request[at + 3] == 10
}

/// The body of a request is all that stands behind its first empty line. There is none exactly where
/// there is no empty line.
pub proof fn law_body_stands_behind_empty_line(request: Seq<u8>, body: Option<Seq<u8>>)
    requires
        is_body(request, body),
    ensures
        body is None <==> forall|at: int| !#[trigger] empty_line_at(request, at),
        body matches Some(b) ==> exists|at: int| #[trigger]
            empty_line_at(request, at) && b == request.skip(at + 4) && forall|j: int|
                0 <= j < at ==> !#[trigger] empty_line_at(request, j),
{
    reveal_strlit("\r\n\r\n");
    vstd::utf8::is_ascii_chars_encode_utf8("\r\n\r\n"@);
    let mark = encode_utf8("\r\n\r\n"@);
    assert(mark =~= seq![13u8, 10u8, 13u8, 10u8]);
    assert forall|at: int| #[trigger] stands_at(request, mark, at) <==> empty_line_at(
        request,
        at,
    ) by {
        if stands_at(request, mark, at) {
            let part = request.subrange(at, at + mark.len());
            assert(part[0] == request[at] && part[1] == request[at + 1]);
            assert(part[2] == request[at + 2] && part[3] == request[at + 3]);
        }
        if empty_line_at(request, at) {
            assert(request.subrange(at, at + mark.len()) =~= mark);
        }
    }
    match body {
        Some(b) => {
            let at = choose|at: int| #[trigger]
                stands_at(request, mark, at) && (forall|j: int|
                    0 <= j < at ==> !#[trigger] stands_at(request, mark, j)) && b == request.skip(
                    at + mark.len(),
                );
            assert(empty_line_at(request, at));
            assert forall|j: int| 0 <= j < at implies !#[trigger] empty_line_at(request, j) by {
                assert(!stands_at(request, mark, j));
            }
        },
        None => {
            assert forall|at: int| !#[trigger] empty_line_at(request, at) by {
                assert(!stands_at(request, mark, at));
            }
        },
    }
}

/// Where the time does not decide, a request is answered the same at any time. Where it decides, the
/// request is taken at the message's own time and refused more than 300 seconds after it.
pub proof fn law_time_decides_only_for_tagged_messages(
    fields: Option<PeerFields>,
    ip: Seq<char>,
    gate: Gate,
    now: i64,
    then: i64,
    reply: PeerReply,
)
    requires
        answers(fields, ip, gate, now, reply),
    ensures
        !time_decides(fields, gate) ==> answers(fields, ip, gate, then, reply),
        time_decides(fields, gate) && now == fields->0.timestamp ==> reply is Accepted,
        time_decides(fields, gate) && now > fields->0.timestamp + 300 ==> reply is TimeMismatch,
        time_decides(fields, gate) && now < fields->0.timestamp - 300 ==> reply is TimeMismatch,
{
}

} // verus!
