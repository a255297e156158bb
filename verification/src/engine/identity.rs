//! The session's Falcon-512 identity.

use crate::bytes::copy_bytes;
use crate::crypto::{
    falcon_keypair, falcon_pair, falcon_sign, falcon_signature, wipe_vec, FALCON_PUBLIC_LEN,
    FALCON_SECRET_LEN, FALCON_SIGNATURE_MAX,
};
use vstd::prelude::*;

verus! {

/// A secret signing key. Bytes of a signing key's length always belong to a key pair that was drawn;
/// a key that was overwritten has none left.
pub struct SigningKey {
    bytes: Vec<u8>,
}

impl View for SigningKey {
    type V = Seq<u8>;

    closed spec fn view(&self) -> Seq<u8> {
        self.bytes@
    }
}

impl SigningKey {
    #[verifier::type_invariant]
    spec fn drawn(&self) -> bool {
        self.bytes@.len() == FALCON_SECRET_LEN ==> exists|public: Seq<u8>| #[trigger]
            falcon_pair(public, self.bytes@)
    }

    /// Takes bytes as a signing key. Where they have a signing key's length they have to belong to a
    /// key pair.
    pub fn of(bytes: Vec<u8>) -> (key: SigningKey)
        requires
            bytes@.len() == FALCON_SECRET_LEN ==> exists|public: Seq<u8>| #[trigger]
                falcon_pair(public, bytes@),
        ensures
            key@ == bytes@,
    {
        SigningKey { bytes }
    }

    /// Draws a fresh identity: the public key and the signing key that belongs to it.
    pub fn draw() -> (identity: (Vec<u8>, SigningKey))
        ensures
            falcon_pair(identity.0@, identity.1@),
            identity.0@.len() == FALCON_PUBLIC_LEN,
            identity.1@.len() == FALCON_SECRET_LEN,
    {
        let keys: (Vec<u8>, Vec<u8>) = falcon_keypair();
        (keys.0, SigningKey::of(keys.1))
    }

    /// How many bytes the key has.
    pub fn len(&self) -> (len: usize)
        ensures
            len == self@.len(),
    {
        self.bytes.len()
    }

    /// A copy of the key.
    pub fn copy(&self) -> (key: SigningKey)
        ensures
            key@ == self@,
    {
        proof {
            use_type_invariant(self);
        }
        SigningKey { bytes: copy_bytes(self.bytes.as_slice()) }
    }

    /// Signs a message. It fails exactly where the key does not have a signing key's length.
    pub fn sign(&self, message: &[u8]) -> (signature: Option<Vec<u8>>)
        ensures
            signature is Some <==> self@.len() == FALCON_SECRET_LEN,
            signature matches Some(s) ==> falcon_signature(message@, self@, s@),
            signature matches Some(s) ==> s@.len() <= FALCON_SIGNATURE_MAX,
    {
        proof {
            use_type_invariant(self);
        }
        if self.bytes.len() == FALCON_SECRET_LEN {
            Some(falcon_sign(message, self.bytes.as_slice()))
        } else {
            None
        }
    }

    /// Overwrites the key.
    pub fn wipe(&mut self)
        ensures
            final(self)@.len() == 0,
    {
        let mut bytes: Vec<u8> = Vec::new();
        std::mem::swap(&mut bytes, &mut self.bytes);
        wipe_vec(&mut bytes);
    }
}

} // verus!
