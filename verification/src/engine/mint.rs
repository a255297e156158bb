//! Minting: an ML-KEM-1024 key pair from the pool, signed with the session's Falcon-512 identity.

use super::identity::SigningKey;
use super::logbook::noted;
use super::rng::{mixed, pool_seed_of, HarvestedRng};
use super::state::{ChaosEngine, SharedState};
use crate::binary64::Binary64;
use crate::bytes::{append_bytes, copy_bytes, le_bytes};
use crate::clock::{clock_before_epoch, clock_nanos, clock_second, read_clock, ClockReading};
use crate::crypto::{
    falcon_signature, mlkem1024_keys, mlkem_generate, os_random, sha3_256, sha3_digest, wipe_block,
    wipe_vec, FALCON_SECRET_LEN, MLKEM_DK_LEN, MLKEM_EK_LEN,
};
use crate::entropy::pool::EntropyExtractionPool;
use crate::hexcode::{hex_bytes, hex_encode, hex_text, law_hex_round_trip};
use crate::text::{append_decimal, numeral};
use vstd::prelude::*;
use vstd::utf8::encode_utf8;

verus! {

/// Bytes of the encapsulation key that go into a bundle's name.
pub const NAME_BYTES: usize = 4;

/// Bytes in each of the two seeds of a key pair.
pub const SEED_LEN: usize = 32;

/// Why no bundle was minted.
#[derive(Clone, Copy, PartialEq, Eq, Structural, Debug)]
pub enum MintError {
    /// No password was given for the vault.
    PasswordRequired,
    /// Minting is switched off.
    Offline,
    /// Fewer bits were credited than are needed.
    Insufficient { needed: u32 },
    /// The signing key does not have a signing key's length.
    FalconKey { actual: usize },
    /// The clock stands before 1970.
    Clock,
}

impl MintError {
    /// The error as a line of text. `bits` is how the credited bits are shown.
    pub open spec fn text(self, bits: Seq<char>) -> Seq<char> {
        match self {
            MintError::PasswordRequired => "Vault password required"@,
            MintError::Offline => "PQC Engine Offline"@,
            MintError::Insufficient { needed } => "Insufficient entropy ("@ + bits + "/"@ + numeral(
                needed as nat,
            ) + " aggregate credited bits)"@,
            MintError::FalconKey { actual } => "Falcon key error: error: SecretKey expected 1281 bytes, got "@
                + numeral(actual as nat),
            MintError::Clock => "The clock stands before 1970"@,
        }
    }

    /// Writes the error as a line of text.
    pub fn message(&self, bits: &str) -> (line: String)
        ensures
            line@ == self.text(bits@),
    {
        match self {
            MintError::PasswordRequired => "Vault password required".to_owned(),
            MintError::Offline => "PQC Engine Offline".to_owned(),
            MintError::Insufficient { needed } => {
                let mut line: String = "Insufficient entropy (".to_owned();
                line.append(bits);
                line.append("/");
                append_decimal(&mut line, *needed as u64);
                line.append(" aggregate credited bits)");
                line
            },
            MintError::FalconKey { actual } => {
                let mut line: String =
                    "Falcon key error: error: SecretKey expected 1281 bytes, got ".to_owned();
                append_decimal(&mut line, *actual as u64);
                line
            },
            MintError::Clock => "The clock stands before 1970".to_owned(),
        }
    }
}

/// The key pair that the pool, a reading of the clock and bytes of the operating system give.
pub open spec fn keys_from(
    pool: Seq<u8>,
    nanos: u64,
    os_d: Seq<u8>,
    os_z: Seq<u8>,
) -> (Seq<u8>, Seq<u8>) {
    let seed = pool_seed_of(pool, nanos);
    mlkem1024_keys(mixed(seed, 0, os_d), mixed(seed, 32, os_z))
}

/// What time and chance bring into minting: readings of the clock, and bytes of the operating system
/// for the two seeds of a key pair.
pub struct MintDraw {
    pub nanos: u64,
    pub os_d: Vec<u8>,
    pub os_z: Vec<u8>,
    pub timestamp: u64,
}

impl MintDraw {
    /// There are as many bytes as the seeds take.
    pub open spec fn wf(&self) -> bool {
        self.os_d@.len() == SEED_LEN && self.os_z@.len() == SEED_LEN
    }

    /// Whether this can have been drawn: there are as many bytes as the seeds take, and the times are
    /// what they stand for.
    pub open spec fn is_drawn(&self) -> bool {
        self.wf() && clock_nanos(self.nanos) && clock_second(self.timestamp)
    }

    /// What a reading of the clock and bytes of the operating system make up, where there is a
    /// reading.
    pub fn at(reading: Option<ClockReading>, os_d: Vec<u8>, os_z: Vec<u8>) -> (draw: Option<MintDraw>)
        ensures
            draw == match reading {
                Some(r) => Some(
                    MintDraw { nanos: r.nanos, os_d, os_z, timestamp: r.seconds },
                ),
                None => None,
            },
    {
        match reading {
            Some(reading) => Some(
                MintDraw { nanos: reading.nanos, os_d, os_z, timestamp: reading.seconds },
            ),
            None => None,
        }
    }

    /// Reads the clock and asks the operating system, `None` while the clock stands before 1970: the
    /// draw `at` what they give.
    pub fn take() -> (draw: Option<MintDraw>)
        ensures
            drawn(draw),
    {
        MintDraw::at(read_clock(), os_random(SEED_LEN), os_random(SEED_LEN))
    }
}

/// Whether this can come of reading the clock and asking the operating system.
pub open spec fn drawn(draw: Option<MintDraw>) -> bool {
    match draw {
        Some(d) => d.is_drawn(),
        None => clock_before_epoch(),
    }
}

/// What is signed: the digest of the pool and the encapsulation key.
pub open spec fn signed_context(pool: Seq<u8>, ek: Seq<u8>) -> Seq<u8> {
    sha3_256(pool + ek)
}

/// A key pair and the signature on it.
pub struct KeyMaterial {
    pub dk: Vec<u8>,
    pub ek: Vec<u8>,
    pub signature: Vec<u8>,
}

impl KeyMaterial {
    /// Whether this was drawn from a pool and signed with a key.
    pub open spec fn minted_from(&self, pool: Seq<u8>, secret: Seq<u8>, draw: MintDraw) -> bool {
        &&& (self.dk@, self.ek@) == keys_from(pool, draw.nanos, draw.os_d@, draw.os_z@)
        &&& self.dk@.len() == MLKEM_DK_LEN
        &&& self.ek@.len() == MLKEM_EK_LEN
        &&& falcon_signature(signed_context(pool, self.ek@), secret, self.signature@)
    }
}

fn seed_array(bytes: &[u8]) -> (seed: [u8; 32])
    requires
        bytes@.len() == 32,
    ensures
        seed@ == bytes@,
{
    let mut seed: [u8; 32] = [0u8; 32];
    let mut i: usize = 0;
    while i < 32
        invariant
            i <= 32,
            bytes@.len() == 32,
            forall|j: int| 0 <= j < i ==> seed@[j] == bytes@[j],
        decreases 32 - i,
    {
        seed[i] = bytes[i];
        i += 1;
    }
    assert(seed@ =~= bytes@);
    seed
}

/// Draws a key pair from a snapshot of the pool and signs it, and overwrites all that it was drawn
/// from. It fails exactly on a signing key of the wrong length.
pub fn make_keys(pool: &[u8; 32], falcon_sk: &SigningKey, draw: &MintDraw) -> (material: Result<
    KeyMaterial,
    MintError,
>)
    requires
        draw.wf(),
    ensures
        material is Ok <==> falcon_sk@.len() == FALCON_SECRET_LEN,
        match material {
            Ok(m) => m.minted_from(pool@, falcon_sk@, *draw),
            Err(e) => e == (MintError::FalconKey { actual: falcon_sk@.len() as usize }),
        },
{
    let mut rng: HarvestedRng = HarvestedRng::seeded(pool, draw.nanos);
    let mut d: Vec<u8> = rng.mix(draw.os_d.as_slice());
    let mut z: Vec<u8> = rng.mix(draw.os_z.as_slice());
    let mut d_seed: [u8; 32] = seed_array(d.as_slice());
    let mut z_seed: [u8; 32] = seed_array(z.as_slice());
    let keys: (Vec<u8>, Vec<u8>) = mlkem_generate(&d_seed, &z_seed);
    wipe_block(&mut d_seed);
    wipe_block(&mut z_seed);
    wipe_vec(&mut d);
    wipe_vec(&mut z);
    rng.wipe();
    let mut dk: Vec<u8> = keys.0;
    let ek: Vec<u8> = keys.1;
    let mut context: Vec<u8> = copy_bytes(pool.as_slice());
    append_bytes(&mut context, ek.as_slice());
    let digest: [u8; 32] = sha3_digest(context.as_slice());
    wipe_vec(&mut context);
    match falcon_sk.sign(digest.as_slice()) {
        Some(signature) => Ok(KeyMaterial { dk, ek, signature }),
        None => {
            wipe_vec(&mut dk);
            Err(MintError::FalconKey { actual: falcon_sk.len() })
        },
    }
}

/// A bundle, ready to be written down.
pub struct PqcBundle {
    /// What the bundle is, and the version of its layout.
    pub kind: &'static str,
    pub version: &'static str,
    pub nist_compliant: bool,
    /// How the key pair was made, and what its seeds came from.
    pub kem_algorithm: &'static str,
    pub kem_seed: &'static str,
    /// How it was signed.
    pub sig_algorithm: &'static str,
    pub requester: String,
    pub timestamp: u64,
    /// The estimate of the batch that set off minting, where a batch did.
    pub raw_min_entropy: Option<Binary64>,
    pub aggregate_credited_bits: Binary64,
    pub mlkem_ek: String,
    pub mlkem_dk: String,
    pub falcon_sig: String,
    pub falcon_signer_pk: String,
    /// The bundle's name, without directory and extension.
    pub name: String,
}

/// The name of a bundle: the time and the first bytes of its encapsulation key.
pub open spec fn bundle_name(timestamp: u64, ek: Seq<u8>) -> Seq<char> {
    "key_"@ + numeral(timestamp as nat) + "_"@ + hex_text(ek.take(NAME_BYTES as int))
}

/// The path of the file in a directory that a plain bundle is written to.
pub open spec fn bundle_path(dir: Seq<char>, name: Seq<char>) -> Seq<char> {
    dir + "/"@ + name + ".json"@
}

impl PqcBundle {
    /// Whether this is the bundle of a key pair.
    pub open spec fn holds(
        &self,
        dk: Seq<u8>,
        ek: Seq<u8>,
        signature: Seq<u8>,
        signer: Seq<u8>,
        timestamp: u64,
    ) -> bool {
        &&& self.kind@ == "NULLMAGNET_PQC_BUNDLE"@
        &&& self.version@ == "2.0"@
        &&& self.nist_compliant
        &&& self.kem_algorithm@ == "ML-KEM-1024"@
        &&& self.kem_seed@ == "OsRng_XOR_HarvestedPool"@
        &&& self.sig_algorithm@ == "Falcon-512"@
        &&& self.timestamp == timestamp
        &&& self.mlkem_ek@ == hex_text(ek)
        &&& self.mlkem_dk@ == hex_text(dk)
        &&& self.falcon_sig@ == hex_text(signature)
        &&& self.falcon_signer_pk@ == hex_text(signer)
        &&& self.name@ == bundle_name(timestamp, ek)
    }

    /// Whether this is the bundle of a key pair that was drawn from a pool and signed.
    pub open spec fn minted_from(
        &self,
        pool: Seq<u8>,
        secret: Seq<u8>,
        signer: Seq<u8>,
        draw: MintDraw,
    ) -> bool {
        exists|m: KeyMaterial| #[trigger]
            m.minted_from(pool, secret, draw) && self.holds(
                m.dk@,
                m.ek@,
                m.signature@,
                signer,
                draw.timestamp,
            )
    }

    /// The path of the file in a directory that this bundle is written to.
    pub fn path(&self, dir: &str) -> (path: String)
        ensures
            path@ == bundle_path(dir@, self.name@),
    {
        let mut path: String = dir.to_owned();
        path.append("/");
        path.append(self.name.as_str());
        path.append(".json");
        path
    }
}

/// Puts a bundle together and overwrites the key pair.
pub fn assemble_bundle(
    material: &mut KeyMaterial,
    signer: &Vec<u8>,
    requester: &str,
    timestamp: u64,
    raw_min_entropy: Option<Binary64>,
    aggregate: Binary64,
) -> (bundle: PqcBundle)
    requires
        old(material).ek@.len() >= NAME_BYTES,
    ensures
        bundle.holds(
            old(material).dk@,
            old(material).ek@,
            old(material).signature@,
            signer@,
            timestamp,
        ),
        bundle.requester@ == requester@,
        bundle.raw_min_entropy == raw_min_entropy,
        bundle.aggregate_credited_bits == aggregate,
        final(material).dk@.len() == 0,
        final(material).ek@.len() == 0,
        final(material).signature == old(material).signature,
{
    let mut name: String = "key_".to_owned();
    append_decimal(&mut name, timestamp);
    name.append("_");
    let front = vstd::slice::slice_subrange(material.ek.as_slice(), 0, NAME_BYTES);
    assert(front@ =~= material.ek@.take(NAME_BYTES as int));
    let tag: String = hex_encode(front);
    name.append(tag.as_str());
    let bundle = PqcBundle {
        kind: "NULLMAGNET_PQC_BUNDLE",
        version: "2.0",
        nist_compliant: true,
        kem_algorithm: "ML-KEM-1024",
        kem_seed: "OsRng_XOR_HarvestedPool",
        sig_algorithm: "Falcon-512",
        requester: requester.to_owned(),
        timestamp,
        raw_min_entropy,
        aggregate_credited_bits: aggregate,
        mlkem_ek: hex_encode(material.ek.as_slice()),
        mlkem_dk: hex_encode(material.dk.as_slice()),
        falcon_sig: hex_encode(material.signature.as_slice()),
        falcon_signer_pk: hex_encode(signer.as_slice()),
        name,
    };
    wipe_vec(&mut material.ek);
    wipe_vec(&mut material.dk);
    bundle
}

/// What a bundle is minted from, beside time and chance: snapshots of the pool and of the identity,
/// and what the bundle tells of its making.
pub struct MintOrder {
    pub pool: Seq<u8>,
    pub secret: Seq<u8>,
    pub signer: Seq<u8>,
    pub requester: Seq<char>,
    pub raw_min_entropy: Option<Binary64>,
    pub aggregate: Binary64,
}

/// Whether this is what minting gives: a bundle, or an error on a signing key of the wrong length, or
/// an error where the clock could not be read.
pub open spec fn mints(
    order: MintOrder,
    draw: Option<MintDraw>,
    result: Result<PqcBundle, MintError>,
) -> bool {
    match draw {
        None => result matches Err(e) && e == MintError::Clock,
        Some(d) => if order.secret.len() == FALCON_SECRET_LEN {
            &&& result matches Ok(b)
            &&& b.minted_from(order.pool, order.secret, order.signer, d)
            &&& b.requester@ == order.requester
            &&& b.raw_min_entropy == order.raw_min_entropy
            &&& b.aggregate_credited_bits == order.aggregate
        } else {
            result matches Err(e) && e == (MintError::FalconKey {
                actual: order.secret.len() as usize,
            })
        },
    }
}

/// Draws, signs and puts together a bundle from snapshots of the pool and of the identity, with
/// given bytes and times.
pub fn mint_with(
    pool: &[u8; 32],
    falcon_sk: &SigningKey,
    falcon_pk: &Vec<u8>,
    requester: &str,
    raw_min_entropy: Option<Binary64>,
    aggregate: Binary64,
    draw: Option<MintDraw>,
) -> (bundle: Result<PqcBundle, MintError>)
    requires
        draw matches Some(d) ==> d.wf(),
    ensures
        mints(
            (MintOrder {
                pool: pool@,
                secret: falcon_sk@,
                signer: falcon_pk@,
                requester: requester@,
                raw_min_entropy,
                aggregate,
            }),
            draw,
            bundle,
        ),
{
    let mut draw: MintDraw = match draw {
        Some(draw) => draw,
        None => {
            return Err(MintError::Clock);
        },
    };
    let ghost drawn = draw;
    let made: Result<KeyMaterial, MintError> = make_keys(pool, falcon_sk, &draw);
    wipe_vec(&mut draw.os_d);
    wipe_vec(&mut draw.os_z);
    match made {
        Ok(mut material) => {
            let ghost kept = material;
            let bundle: PqcBundle = assemble_bundle(
                &mut material,
                falcon_pk,
                requester,
                draw.timestamp,
                raw_min_entropy,
                aggregate,
            );
            assert(kept.minted_from(pool@, falcon_sk@, drawn));
            Ok(bundle)
        },
        Err(e) => Err(e),
    }
}

/// Draws, signs and puts together a bundle from snapshots of the pool and of the identity now.
pub fn mint_from(
    pool: &[u8; 32],
    falcon_sk: &SigningKey,
    falcon_pk: &Vec<u8>,
    requester: &str,
    raw_min_entropy: Option<Binary64>,
    aggregate: Binary64,
) -> (bundle: Result<PqcBundle, MintError>)
    ensures
        exists|draw: Option<MintDraw>| #[trigger]
            mints(
                (MintOrder {
                    pool: pool@,
                    secret: falcon_sk@,
                    signer: falcon_pk@,
                    requester: requester@,
                    raw_min_entropy,
                    aggregate,
                }),
                draw,
                bundle,
            ) && drawn(draw),
{
    mint_with(
        pool,
        falcon_sk,
        falcon_pk,
        requester,
        raw_min_entropy,
        aggregate,
        MintDraw::take(),
    )
}

/// Why a state does not allow minting, if it does not.
pub open spec fn mint_refused(state: SharedState) -> Option<MintError> {
    if !state.pqc_active {
        Some(MintError::Offline)
    } else if !state.extraction_pool.aggregate_credited_bits.greater_or_equal(
        state.mint_threshold,
    ) {
        Some(MintError::Insufficient { needed: state.mint_threshold.whole() })
    } else {
        None
    }
}

/// The state after a bundle was minted: the credit is used up and a message was logged.
pub open spec fn credit_spent(before: SharedState, message: Seq<char>, after: SharedState) -> bool {
    &&& after == (SharedState {
        extraction_pool: EntropyExtractionPool {
            aggregate_credited_bits: Binary64 { bits: 0 },
            ..before.extraction_pool
        },
        credited_entropy_bits: Binary64 { bits: 0 },
        logs: after.logs,
        ..before
    })
    &&& noted(before.logs@, message, after.logs@)
}

/// The message about a bundle that was written down plainly.
pub open spec fn saved_message(path: Seq<char>, bits: Seq<char>) -> Seq<char> {
    "VAULT: Saved "@ + path + " (aggregate: "@ + bits + " bits)"@
}

/// The message about a bundle that was sealed.
pub open spec fn sealed_message(path: Seq<char>, bits: Seq<char>) -> Seq<char> {
    "VAULT: Encrypted "@ + path + " (AES-256-GCM, "@ + bits + " bits)"@
}

impl SharedState {
    fn refusal(&self) -> (refused: Option<MintError>)
        ensures
            refused == mint_refused(*self),
    {
        if !self.pqc_active {
            Some(MintError::Offline)
        } else if !self.extraction_pool.aggregate_credited_bits.at_least(self.mint_threshold) {
            Some(MintError::Insufficient { needed: self.mint_threshold.whole_part() })
        } else {
            None
        }
    }

    fn spend_credit(&mut self, message: &str)
        ensures
            credit_spent(*old(self), message@, *final(self)),
            final(self).logs.wf(),
    {
        self.logs.note(message);
        self.extraction_pool.reset_aggregate_credits();
        self.credited_entropy_bits = Binary64::from_bits(0);
    }
}

/// What an engine mints from for a requester.
pub open spec fn order_of(state: SharedState, requester: Seq<char>) -> MintOrder {
    MintOrder {
        pool: state.pool@,
        secret: state.falcon_sk@,
        signer: state.falcon_pk@,
        requester,
        raw_min_entropy: None,
        aggregate: state.extraction_pool.aggregate_credited_bits,
    }
}

/// Whether an engine mints a plain bundle like this: refused, it does not change; minting, it uses
/// its credit up and says so in the log; failing, it does not change.
pub open spec fn minted_plainly(
    before: ChaosEngine,
    requester: Seq<char>,
    bits: Seq<char>,
    draw: Option<MintDraw>,
    after: ChaosEngine,
    result: Result<PqcBundle, MintError>,
) -> bool {
    match mint_refused(before.state) {
        Some(refusal) => after == before && (result matches Err(e) && e == refusal),
        None => {
            &&& mints(
                order_of(
                    before.state,
                    if requester.len() == 0 {
                        "MANUAL"@
                    } else {
                        requester
                    },
                ),
                draw,
                result,
            )
            &&& match result {
                Ok(b) => {
                    &&& after == (ChaosEngine { state: after.state, ..before })
                    &&& credit_spent(
                        before.state,
                        saved_message(bundle_path(before.config.general.keys_dir@, b.name@), bits),
                        after.state,
                    )
                },
                Err(_) => after == before,
            }
        },
    }
}

/// Whether an engine mints a bundle that is to be sealed like this: only with a password, and only
/// where it does not refuse.
pub open spec fn minted_for_sealing(
    state: SharedState,
    password: Seq<char>,
    draw: Option<MintDraw>,
    result: Result<PqcBundle, MintError>,
) -> bool {
    if password.len() == 0 {
        result matches Err(e) && e == MintError::PasswordRequired
    } else {
        match mint_refused(state) {
            Some(refusal) => result matches Err(e) && e == refusal,
            None => mints(order_of(state, "VAULT_ENCRYPTED"@), draw, result),
        }
    }
}

impl ChaosEngine {
    /// Mints a bundle that is to be written down plainly, with given bytes and times. `bits` is how
    /// the credited bits are shown.
    pub fn mint_pqc_bundle_with(
        &mut self,
        requester: &str,
        bits: &str,
        draw: Option<MintDraw>,
    ) -> (bundle: Result<PqcBundle, MintError>)
        requires
            draw matches Some(d) ==> d.wf(),
        ensures
            old(self).state.wf() ==> final(self).state.wf(),
            minted_plainly(*old(self), requester@, bits@, draw, *final(self), bundle),
    {
        if let Some(e) = self.state.refusal() {
            return Err(e);
        }
        let requester: &str = if requester.is_empty() {
            "MANUAL"
        } else {
            requester
        };
        let bundle: PqcBundle = match mint_with(
            &self.state.pool,
            &self.state.falcon_sk,
            &self.state.falcon_pk,
            requester,
            None,
            self.state.extraction_pool.aggregate_credited_bits,
            draw,
        ) {
            Ok(bundle) => bundle,
            Err(e) => {
                return Err(e);
            },
        };
        let path: String = bundle.path(self.config.general.keys_dir.as_str());
        let mut message: String = "VAULT: Saved ".to_owned();
        message.append(path.as_str());
        message.append(" (aggregate: ");
        message.append(bits);
        message.append(" bits)");
        self.state.spend_credit(message.as_str());
        Ok(bundle)
    }

    /// Mints a bundle that is to be written down plainly. `bits` is how the credited bits are shown.
    pub fn mint_pqc_bundle(&mut self, requester: &str, bits: &str) -> (bundle: Result<
        PqcBundle,
        MintError,
    >)
        ensures
            old(self).state.wf() ==> final(self).state.wf(),
            exists|draw: Option<MintDraw>| #[trigger]
                minted_plainly(*old(self), requester@, bits@, draw, *final(self), bundle) && drawn(
                    draw,
                ),
    {
        let draw: Option<MintDraw> = MintDraw::take();
        self.mint_pqc_bundle_with(requester, bits, draw)
    }

    /// Mints a bundle that is to be sealed with a password, with given bytes and times.
    pub fn mint_pqc_bundle_encrypted_with(&self, password: &str, draw: Option<MintDraw>) -> (bundle:
        Result<PqcBundle, MintError>)
        requires
            draw matches Some(d) ==> d.wf(),
        ensures
            minted_for_sealing(self.state, password@, draw, bundle),
    {
        if password.is_empty() {
            return Err(MintError::PasswordRequired);
        }
        if let Some(e) = self.state.refusal() {
            return Err(e);
        }
        mint_with(
            &self.state.pool,
            &self.state.falcon_sk,
            &self.state.falcon_pk,
            "VAULT_ENCRYPTED",
            None,
            self.state.extraction_pool.aggregate_credited_bits,
            draw,
        )
    }

    /// Mints a bundle that is to be sealed with a password. The credit is used up only once the
    /// sealed bundle is written: see `finish_encrypted_mint`.
    pub fn mint_pqc_bundle_encrypted(&self, password: &str) -> (bundle: Result<PqcBundle, MintError>)
        ensures
            exists|draw: Option<MintDraw>| #[trigger]
                minted_for_sealing(self.state, password@, draw, bundle) && drawn(draw),
    {
        self.mint_pqc_bundle_encrypted_with(password, MintDraw::take())
    }

    /// Uses up the credit after a sealed bundle was written to `path`.
    pub fn finish_encrypted_mint(&mut self, path: &str, bits: &str)
        ensures
            old(self).state.wf() ==> final(self).state.wf(),
            *final(self) == (ChaosEngine { state: final(self).state, ..*old(self) }),
            credit_spent(old(self).state, sealed_message(path@, bits@), final(self).state),
    {
        let mut message: String = "VAULT: Encrypted ".to_owned();
        message.append(path);
        message.append(" (AES-256-GCM, ");
        message.append(bits);
        message.append(" bits)");
        self.state.spend_credit(message.as_str());
    }

    /// Uses up the credit after a bundle was minted unasked, and remembers when that was decided.
    pub fn finish_auto_mint(&mut self, path: &str, decided_at: u64)
        ensures
            old(self).state.wf() ==> final(self).state.wf(),
            *final(self) == (ChaosEngine { state: final(self).state, ..*old(self) }),
            credit_spent(
                (SharedState { last_auto_mint_ts: decided_at, ..old(self).state }),
                "VAULT: Saved "@ + path@,
                final(self).state,
            ),
    {
        self.state.last_auto_mint_ts = decided_at;
        let mut message: String = "VAULT: Saved ".to_owned();
        message.append(path);
        self.state.spend_credit(message.as_str());
    }
}

/// Credit is never spent twice: right after a bundle was minted, minting is refused. Settings that
/// ask for no credit at all never refuse for want of it, and are left out.
pub proof fn law_credit_is_spent_once(before: SharedState, message: Seq<char>, after: SharedState)
    requires
        credit_spent(before, message, after),
        !(Binary64 { bits: 0 }).greater_or_equal(before.mint_threshold),
    ensures
        mint_refused(after) is Some,
{
}

/// A key pair is made of two seeds of 32 bytes each, and both come from the pool and from the
/// operating system: the bytes of the operating system, combined by exclusive or with the first and
/// the second block of the stream behind the digest of a label, the pool and the time.
pub proof fn law_keys_come_from_pool_and_system(
    pool: Seq<u8>,
    nanos: u64,
    os_d: Seq<u8>,
    os_z: Seq<u8>,
)
    requires
        pool.len() == 32,
        os_d.len() == 32,
        os_z.len() == 32,
    ensures
        exists|d: Seq<u8>, z: Seq<u8>|
            {
                let seed = sha3_256(
                    encode_utf8("NullMagnet_HarvestedRng_v2"@) + pool + le_bytes(nanos),
                );
                &&& keys_from(pool, nanos, os_d, os_z) == #[trigger] mlkem1024_keys(d, z)
                &&& d.len() == 32
                &&& z.len() == 32
                &&& forall|i: int|
                    0 <= i < 32 ==> #[trigger] d[i] == os_d[i] ^ sha3_256(seed + le_bytes(0))[i]
                &&& forall|i: int|
                    0 <= i < 32 ==> #[trigger] z[i] == os_z[i] ^ sha3_256(seed + le_bytes(1))[i]
            },
{
    let seed = pool_seed_of(pool, nanos);
    let d = mixed(seed, 0, os_d);
    let z = mixed(seed, 32, os_z);
    assert forall|i: int| 0 <= i < 32 implies #[trigger] d[i] == os_d[i] ^ sha3_256(
        seed + le_bytes(0),
    )[i] by {
        assert(i as nat / 32 == 0 && i as nat % 32 == i);
    }
    assert forall|i: int| 0 <= i < 32 implies #[trigger] z[i] == os_z[i] ^ sha3_256(
        seed + le_bytes(1),
    )[i] by {
        assert((32 + i as nat) / 32 == 1 && (32 + i as nat) % 32 == i);
    }
    assert(keys_from(pool, nanos, os_d, os_z) == mlkem1024_keys(d, z));
}

/// What is signed is the digest of the whole pool and the whole encapsulation key, and it is signed
/// with the session's key.
pub proof fn law_signature_covers_pool_and_key(
    material: KeyMaterial,
    pool: Seq<u8>,
    secret: Seq<u8>,
    draw: MintDraw,
)
    requires
        pool.len() == 32,
        material.minted_from(pool, secret, draw),
    ensures
        exists|signed: Seq<u8>|
            {
                &&& falcon_signature(#[trigger] sha3_256(signed), secret, material.signature@)
                &&& signed.len() == 32 + 1568
                &&& signed.take(32) == pool
                &&& signed.skip(32) == material.ek@
            },
        (material.dk@, material.ek@) == keys_from(pool, draw.nanos, draw.os_d@, draw.os_z@),
        material.dk@.len() == 3168,
{
    let signed = pool + material.ek@;
    assert(signed.take(32) =~= pool);
    assert(signed.skip(32) =~= material.ek@);
    assert(falcon_signature(sha3_256(signed), secret, material.signature@));
}

/// A bundle gives back what it was made of: both keys, the signature and the signer are read from it
/// again, and its name tells its time and the first four bytes of the encapsulation key.
pub proof fn law_bundle_is_read_back(
    bundle: PqcBundle,
    dk: Seq<u8>,
    ek: Seq<u8>,
    signature: Seq<u8>,
    signer: Seq<u8>,
    timestamp: u64,
)
    requires
        ek.len() >= 4,
        bundle.holds(dk, ek, signature, signer, timestamp),
    ensures
        hex_bytes(bundle.mlkem_dk@) == Some(dk),
        hex_bytes(bundle.mlkem_ek@) == Some(ek),
        hex_bytes(bundle.falcon_sig@) == Some(signature),
        hex_bytes(bundle.falcon_signer_pk@) == Some(signer),
        bundle.timestamp == timestamp,
        bundle.name@ == "key_"@ + numeral(timestamp as nat) + "_"@ + bundle.mlkem_ek@.take(8),
        bundle.kem_algorithm@ == "ML-KEM-1024"@,
        bundle.sig_algorithm@ == "Falcon-512"@,
{
    law_hex_round_trip(dk);
    law_hex_round_trip(ek);
    law_hex_round_trip(signature);
    law_hex_round_trip(signer);
    assert(hex_text(ek.take(4)) =~= hex_text(ek).take(8));
}

/// Minting is refused exactly where it is switched off or fewer bits are credited than the settings
/// ask for. Where it is not, and the clock can be read and the signing key is whole, a bundle is
/// minted, all credit is used up, and nothing else but the log changes.
pub proof fn law_minting_takes_credit(
    before: ChaosEngine,
    requester: Seq<char>,
    bits: Seq<char>,
    draw: Option<MintDraw>,
    after: ChaosEngine,
    result: Result<PqcBundle, MintError>,
)
    requires
        minted_plainly(before, requester, bits, draw, after, result),
    ensures
        ({
            let credit = before.state.extraction_pool.aggregate_credited_bits;
            let threshold = before.state.mint_threshold;
            &&& result is Ok <==> {
                &&& before.state.pqc_active
                &&& !credit.is_nan() && !threshold.is_nan() && credit.units() >= threshold.units()
                &&& draw is Some
                &&& before.state.falcon_sk@.len() == 1281
            }
            &&& result is Err ==> after == before
            &&& result matches Ok(b) ==> {
                &&& after.state.extraction_pool.aggregate_credited_bits.bits == 0
                &&& after.state.credited_entropy_bits.bits == 0
                &&& after.state.pool == before.state.pool
                &&& after.state.extraction_pool@.buffer == before.state.extraction_pool@.buffer
                &&& after.config == before.config
                &&& b.aggregate_credited_bits == credit
                &&& b.timestamp == draw->0.timestamp
                &&& b.requester@ == if requester.len() == 0 {
                    "MANUAL"@
                } else {
                    requester
                }
                &&& exists|m: KeyMaterial| #[trigger]
                    m.minted_from(before.state.pool@, before.state.falcon_sk@, draw->0)
                        && hex_bytes(b.mlkem_ek@) == Some(m.ek@) && hex_bytes(b.mlkem_dk@) == Some(
                        m.dk@,
                    ) && hex_bytes(b.falcon_sig@) == Some(m.signature@)
                &&& hex_bytes(b.falcon_signer_pk@) == Some(before.state.falcon_pk@)
            }
        }),
{
    if let Ok(b) = result {
        let d = draw->0;
        let m = choose|m: KeyMaterial| #[trigger]
            m.minted_from(before.state.pool@, before.state.falcon_sk@, d) && b.holds(
                m.dk@,
                m.ek@,
                m.signature@,
                before.state.falcon_pk@,
                d.timestamp,
            );
        law_bundle_is_read_back(
            b,
            m.dk@,
            m.ek@,
            m.signature@,
            before.state.falcon_pk@,
            d.timestamp,
        );
    }
}

/// A bundle that is to be sealed is minted exactly with a password and where minting is not refused,
/// the clock can be read and the signing key is whole. It tells that it is to be sealed.
pub proof fn law_sealing_needs_a_password(
    state: SharedState,
    password: Seq<char>,
    draw: Option<MintDraw>,
    result: Result<PqcBundle, MintError>,
)
    requires
        minted_for_sealing(state, password, draw, result),
    ensures
        ({
            let credit = state.extraction_pool.aggregate_credited_bits;
            let threshold = state.mint_threshold;
            &&& password.len() == 0 ==> (result matches Err(e) && e == MintError::PasswordRequired)
            &&& password.len() > 0 && !state.pqc_active ==> (result matches Err(e) && e
                == MintError::Offline)
            &&& result is Ok <==> {
                &&& password.len() > 0
                &&& state.pqc_active
                &&& !credit.is_nan() && !threshold.is_nan() && credit.units() >= threshold.units()
                &&& draw is Some
                &&& state.falcon_sk@.len() == 1281
            }
            &&& result matches Ok(b) ==> {
                &&& b.requester@ == "VAULT_ENCRYPTED"@
                &&& b.aggregate_credited_bits == credit
                &&& b.timestamp == draw->0.timestamp
                &&& hex_bytes(b.falcon_signer_pk@) == Some(state.falcon_pk@)
                &&& exists|m: KeyMaterial| #[trigger]
                    m.minted_from(state.pool@, state.falcon_sk@, draw->0) && hex_bytes(b.mlkem_ek@)
                        == Some(m.ek@) && hex_bytes(b.mlkem_dk@) == Some(m.dk@) && hex_bytes(
                        b.falcon_sig@,
                    ) == Some(m.signature@)
            }
        }),
{
    if let Ok(b) = result {
        let d = draw->0;
        let m = choose|m: KeyMaterial| #[trigger]
            m.minted_from(state.pool@, state.falcon_sk@, d) && b.holds(
                m.dk@,
                m.ek@,
                m.signature@,
                state.falcon_pk@,
                d.timestamp,
            );
        law_bundle_is_read_back(
            b,
            m.dk@,
            m.ek@,
            m.signature@,
            state.falcon_pk@,
            d.timestamp,
        );
    }
}

/// Minting gives what was ordered: a bundle exactly where the clock could be read and the signing key
/// is whole, and in it the requester, the estimate and the credit of the order, the time of the draw
/// and the signer.
pub proof fn law_bundle_is_what_was_ordered(
    order: MintOrder,
    draw: Option<MintDraw>,
    result: Result<PqcBundle, MintError>,
)
    requires
        mints(order, draw, result),
        order.secret.len() <= usize::MAX,
    ensures
        result is Ok <==> draw is Some && order.secret.len() == 1281,
        draw is None ==> (result matches Err(e) && e == MintError::Clock),
        draw is Some && order.secret.len() != 1281 ==> (result matches Err(
            MintError::FalconKey { actual },
        ) && actual == order.secret.len()),
        result matches Ok(b) ==> {
            &&& b.requester@ == order.requester
            &&& b.raw_min_entropy == order.raw_min_entropy
            &&& b.aggregate_credited_bits == order.aggregate
            &&& b.timestamp == draw->0.timestamp
            &&& hex_bytes(b.falcon_signer_pk@) == Some(order.signer)
        },
{
    if let Ok(b) = result {
        law_hex_round_trip(order.signer);
    }
}

} // verus!
