//! The cryptographic primitives that the library takes from other crates.
//!
//! Every function here is believed, not proved: each one hands plain bytes to one primitive and
//! states what that primitive gives back. A result that is a function of its arguments carries a
//! name, so that the rest of the library can speak of it exactly.

use aes_gcm::aead::Aead;
use aes_gcm::KeyInit;
use hmac::Mac;
use ml_kem::{EncodedSizeUser, KemCore};
use pqcrypto_traits::sign::{DetachedSignature, PublicKey, SecretKey};
use rand_core::RngCore;
use sha2::Digest;
use vstd::prelude::*;
use zeroize::Zeroize;

verus! {

/// Bytes in a Falcon-512 secret key.
pub const FALCON_SECRET_LEN: usize = 1281;

/// Bytes in a Falcon-512 public key.
pub const FALCON_PUBLIC_LEN: usize = 897;

/// The most bytes that a Falcon-512 signature takes.
pub const FALCON_SIGNATURE_MAX: usize = 666;

/// Bytes in an encoded ML-KEM-1024 encapsulation key.
pub const MLKEM_EK_LEN: usize = 1568;

/// Bytes in an encoded ML-KEM-1024 decapsulation key.
pub const MLKEM_DK_LEN: usize = 3168;

/// Bytes that the AES-GCM tag adds to a plaintext.
pub const GCM_TAG_LEN: usize = 16;

/// The longest plaintext that AES-GCM takes, in bytes.
pub const GCM_PLAIN_MAX: u64 = 0x10_0000_0000;

/// The SHA-256 digest of a byte string.
pub uninterp spec fn sha256(data: Seq<u8>) -> Seq<u8>;

/// Calls `sha2::Sha256::digest`, which gives the 32-byte SHA-256 digest of its argument. Feeding a
/// hasher piece by piece gives the digest of the pieces joined together.
#[verifier::external_body]
pub(crate) fn sha256_digest(data: &[u8]) -> (digest: [u8; 32])
    ensures
        digest@ == sha256(data@),
{
    sha2::Sha256::digest(data).into()
}

/// The SHA3-256 digest of a byte string.
pub uninterp spec fn sha3_256(data: Seq<u8>) -> Seq<u8>;

/// Calls `sha3::Sha3_256::digest`, which gives the 32-byte SHA3-256 digest of its argument. Feeding
/// a hasher piece by piece gives the digest of the pieces joined together.
#[verifier::external_body]
pub(crate) fn sha3_digest(data: &[u8]) -> (digest: [u8; 32])
    ensures
        digest@ == sha3_256(data@),
{
    sha3::Sha3_256::digest(data).into()
}

/// The HMAC-SHA-256 tag of a message under a key.
pub uninterp spec fn hmac_sha256(key: Seq<u8>, message: Seq<u8>) -> Seq<u8>;

/// Calls `Hmac::<Sha256>::finalize` after one `update` with the whole message. A key of any length
/// is taken, so the construction before it never fails.
#[verifier::external_body]
pub(crate) fn hmac_tag(key: &[u8], message: &[u8]) -> (tag: [u8; 32])
    ensures
        tag@ == hmac_sha256(key@, message@),
{
    let mut mac: hmac::Hmac<sha2::Sha256> = Mac::new_from_slice(key).unwrap();
    mac.update(message);
    mac.finalize().into_bytes().into()
}

/// Calls `Hmac::<Sha256>::verify_slice` after one `update` with the whole message: it accepts a
/// claimed tag exactly when that tag is the whole 32-byte tag of the message.
#[verifier::external_body]
pub(crate) fn hmac_accepts(key: &[u8], message: &[u8], claimed: &[u8]) -> (accepted: bool)
    ensures
        accepted == (claimed@ == hmac_sha256(key@, message@)),
{
    let mut mac: hmac::Hmac<sha2::Sha256> = Mac::new_from_slice(key).unwrap();
    mac.update(message);
    mac.verify_slice(claimed).is_ok()
}

/// What AES-256-GCM makes of a plaintext: the ciphertext with its tag behind it.
pub uninterp spec fn gcm_sealed(key: Seq<u8>, nonce: Seq<u8>, plain: Seq<u8>) -> Seq<u8>;

/// What AES-256-GCM gives back for a sealed message, `None` where it refuses it.
pub uninterp spec fn gcm_opened(key: Seq<u8>, nonce: Seq<u8>, sealed: Seq<u8>) -> Option<Seq<u8>>;

/// Calls `Aes256Gcm::encrypt` without associated data. It fails exactly on a plaintext longer than
/// the cipher's limit; what it makes is longer than the plaintext by the tag, and the cipher opens
/// it, under the same key and nonce, to the plaintext again.
#[verifier::external_body]
pub(crate) fn gcm_encrypt(key: &[u8; 32], nonce: &[u8; 12], plain: &[u8]) -> (sealed: Option<
    Vec<u8>,
>)
    ensures
        sealed is Some <==> plain@.len() <= GCM_PLAIN_MAX,
        sealed matches Some(bytes) ==> bytes@ == gcm_sealed(key@, nonce@, plain@),
        sealed matches Some(bytes) ==> bytes@.len() == plain@.len() + GCM_TAG_LEN,
        sealed matches Some(bytes) ==> gcm_opened(key@, nonce@, bytes@) == Some(plain@),
{
    let cipher = aes_gcm::Aes256Gcm::new(key.into());
    cipher.encrypt(nonce.into(), plain).ok()
}

/// Calls `Aes256Gcm::decrypt` without associated data. It gives a plaintext, shorter than the
/// sealed message by the tag, or nothing. That it refuses a message sealed under another key, or
/// changed since, is no certainty but a matter of odds, and is left unsaid.
#[verifier::external_body]
pub(crate) fn gcm_decrypt(key: &[u8; 32], nonce: &[u8; 12], sealed: &[u8]) -> (plain: Option<
    Vec<u8>,
>)
    ensures
        plain is Some <==> gcm_opened(key@, nonce@, sealed@) is Some,
        plain matches Some(bytes) ==> gcm_opened(key@, nonce@, sealed@) == Some(bytes@),
        plain matches Some(bytes) ==> bytes@.len() + GCM_TAG_LEN == sealed@.len(),
{
    let cipher = aes_gcm::Aes256Gcm::new(key.into());
    cipher.decrypt(nonce.into(), sealed).ok()
}

/// The encoded ML-KEM-1024 decapsulation key and encapsulation key that two seeds give.
pub uninterp spec fn mlkem1024_keys(d: Seq<u8>, z: Seq<u8>) -> (Seq<u8>, Seq<u8>);

/// Calls `MlKem1024::generate_deterministic` and encodes both keys. The random `generate` of the
/// same type draws the two 32-byte seeds from its generator, `d` first, and does the same.
#[verifier::external_body]
pub(crate) fn mlkem_generate(d: &[u8; 32], z: &[u8; 32]) -> (keys: (Vec<u8>, Vec<u8>))
    ensures
        (keys.0@, keys.1@) == mlkem1024_keys(d@, z@),
        keys.0@.len() == MLKEM_DK_LEN,
        keys.1@.len() == MLKEM_EK_LEN,
{
    let (dk, ek) = ml_kem::MlKem1024::generate_deterministic(&(*d).into(), &(*z).into());
    (dk.as_bytes().to_vec(), ek.as_bytes().to_vec())
}

/// Whether a public key and a secret key are a pair that `falcon512::keypair` can give.
pub uninterp spec fn falcon_pair(public: Seq<u8>, secret: Seq<u8>) -> bool;

/// Calls `falcon512::keypair`, which draws a fresh key pair: public key first, then secret key.
/// Which pair comes back is left to chance; the two lengths are the same at every call.
#[verifier::external_body]
pub(crate) fn falcon_keypair() -> (keys: (Vec<u8>, Vec<u8>))
    ensures
        falcon_pair(keys.0@, keys.1@),
        keys.0@.len() == FALCON_PUBLIC_LEN,
        keys.1@.len() == FALCON_SECRET_LEN,
{
    let (public, secret) = pqcrypto_falcon::falcon512::keypair();
    (public.as_bytes().to_vec(), secret.as_bytes().to_vec())
}

/// Whether a signature is one that `falcon512::detached_sign` can give for a message under a secret
/// key. Signing is randomised, so there are many.
pub uninterp spec fn falcon_signature(message: Seq<u8>, secret: Seq<u8>, signature: Seq<u8>) -> bool;

/// Calls `falcon512::SecretKey::from_bytes` and `falcon512::detached_sign`. The bytes are taken as a
/// key exactly when they have a secret key's length, and signing comes to an end under a key of a
/// pair that `falcon512::keypair` gave; under other bytes it may not. Which of the possible
/// signatures comes back is left to chance; none is longer than the greatest length.
#[verifier::external_body]
pub(crate) fn falcon_sign(message: &[u8], secret: &[u8]) -> (signature: Vec<u8>)
    requires
        secret@.len() == FALCON_SECRET_LEN,
        exists|public: Seq<u8>| falcon_pair(public, secret@),
    ensures
        falcon_signature(message@, secret@, signature@),
        signature@.len() <= FALCON_SIGNATURE_MAX,
{
    let key = pqcrypto_falcon::falcon512::SecretKey::from_bytes(secret).unwrap();
    pqcrypto_falcon::falcon512::detached_sign(message, &key).as_bytes().to_vec()
}

/// Calls `OsRng::fill_bytes` on a fresh buffer: as many bytes as were asked for, from the random
/// number generator of the operating system.
#[verifier::external_body]
pub(crate) fn os_random(count: usize) -> (bytes: Vec<u8>)
    ensures
        bytes@.len() == count,
{
    let mut bytes: Vec<u8> = vec![0u8; count];
    rand::rngs::OsRng.fill_bytes(&mut bytes);
    bytes
}

/// Calls `Zeroize::zeroize` on a vector of bytes: its memory is overwritten and it ends up empty.
#[verifier::external_body]
pub(crate) fn wipe_vec(bytes: &mut Vec<u8>)
    ensures
        final(bytes)@ == Seq::<u8>::empty(),
{
    bytes.zeroize();
}

/// Calls `Zeroize::zeroize` on an array of 32 bytes: every byte ends up zero.
#[verifier::external_body]
pub(crate) fn wipe_block(bytes: &mut [u8; 32])
    ensures
        forall|i: int| 0 <= i < 32 ==> #[trigger] final(bytes)@[i] == 0,
{
    bytes.zeroize();
}

} // verus!
