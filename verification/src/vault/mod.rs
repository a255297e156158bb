//! The vault: bundles sealed under a password, listed, and pushed to vault nodes.
//!
//! A vault file is a 16-byte salt, a 12-byte nonce and the AES-256-GCM ciphertext with its tag. The
//! key is the SHA-256 digest of the password and the salt.

pub mod listing;

pub use listing::{list_vault_files, VaultEntry};

use crate::bytes::{append_bytes, copy_bytes};
use crate::crypto::{
    gcm_decrypt, gcm_encrypt, gcm_opened, gcm_sealed, os_random, sha256, sha256_digest, wipe_block,
    wipe_vec, GCM_PLAIN_MAX, GCM_TAG_LEN,
};
use crate::hexcode::{hex_encode, hex_text};
use crate::text::{append_decimal, numeral};
use vstd::prelude::*;
use vstd::utf8::{decode_utf8, encode_utf8, valid_utf8};

verus! {

/// Bytes in a salt.
pub const SALT_LEN: usize = 16;

/// Bytes in a nonce.
pub const NONCE_LEN: usize = 12;

/// What went wrong with the vault.
#[derive(Debug)]
pub enum VaultError {
    Io(String),
    Crypto(String),
    Json(String),
    Network(String),
}

impl VaultError {
    /// The error as a line of text.
    pub open spec fn text(&self) -> Seq<char> {
        match self {
            VaultError::Io(e) => "IO: "@ + e@,
            VaultError::Crypto(e) => "Crypto: "@ + e@,
            VaultError::Json(e) => "JSON: "@ + e@,
            VaultError::Network(e) => "Network: "@ + e@,
        }
    }

    /// Writes the error as a line of text.
    pub fn message(&self) -> (line: String)
        ensures
            line@ == self.text(),
    {
        match self {
            VaultError::Io(e) => labelled("IO: ", e.as_str()),
            VaultError::Crypto(e) => labelled("Crypto: ", e.as_str()),
            VaultError::Json(e) => labelled("JSON: ", e.as_str()),
            VaultError::Network(e) => labelled("Network: ", e.as_str()),
        }
    }
}

fn labelled(label: &str, text: &str) -> (line: String)
    ensures
        line@ == label@ + text@,
{
    let mut line: String = label.to_owned();
    line.append(text);
    line
}

/// The key that a password and a salt give.
pub open spec fn vault_key(password: Seq<char>, salt: Seq<u8>) -> Seq<u8> {
    sha256(encode_utf8(password) + salt)
}

/// Derives the key from a password and a salt.
pub fn derive_key(password: &str, salt: &[u8]) -> (key: [u8; 32])
    ensures
        key@ == vault_key(password@, salt@),
{
    let mut input: Vec<u8> = copy_bytes(password.as_bytes());
    append_bytes(&mut input, salt);
    let key: [u8; 32] = sha256_digest(input.as_slice());
    wipe_vec(&mut input);
    key
}

/// What a vault file opens to.
#[verifier::ext_equal]
pub enum Opened {
    /// The bundle.
    Bundle(Seq<char>),
    /// There are too few bytes for a vault file.
    TooSmall,
    /// The cipher refuses the file under this password.
    Refused,
    /// What the cipher gives back is not UTF-8.
    NotText(Seq<u8>),
}

/// What a vault file opens to under a password.
pub open spec fn opened(file: Seq<u8>, password: Seq<char>) -> Opened {
    if file.len() < SALT_LEN + NONCE_LEN + GCM_TAG_LEN {
        Opened::TooSmall
    } else {
        let key = vault_key(password, file.take(SALT_LEN as int));
        let nonce = file.subrange(SALT_LEN as int, SALT_LEN + NONCE_LEN);
        match gcm_opened(key, nonce, file.skip(SALT_LEN + NONCE_LEN)) {
            None => Opened::Refused,
            Some(plain) => if valid_utf8(plain) {
                Opened::Bundle(decode_utf8(plain))
            } else {
                Opened::NotText(plain)
            },
        }
    }
}

/// The text of the error that `String::from_utf8` gives for bytes that are not UTF-8.
pub uninterp spec fn utf8_fault(bytes: Seq<u8>) -> Seq<char>;

/// Calls `String::from_utf8`: bytes that are UTF-8 become the text that they encode, others give an
/// error. The words of the error, which depend on the bytes alone, are named and left unsaid.
#[verifier::external_body]
fn text_of_bytes(bytes: Vec<u8>) -> (text: Result<String, String>)
    ensures
        text is Ok <==> valid_utf8(bytes@),
        text matches Ok(t) ==> t@ == decode_utf8(bytes@),
        text matches Err(e) ==> e@ == utf8_fault(bytes@),
{
    String::from_utf8(bytes).map_err(|e| e.to_string())
}

/// A bundle after sealing.
pub struct SealedBundle {
    pub salt: Vec<u8>,
    pub nonce: Vec<u8>,
    pub ciphertext: Vec<u8>,
}

impl SealedBundle {
    /// The bytes of the vault file.
    pub open spec fn file(&self) -> Seq<u8> {
        self.salt@ + self.nonce@ + self.ciphertext@
    }

    /// Lays the parts out as a vault file.
    pub fn file_bytes(&self) -> (data: Vec<u8>)
        ensures
            data@ == self.file(),
    {
        let mut data: Vec<u8> = copy_bytes(self.salt.as_slice());
        append_bytes(&mut data, self.nonce.as_slice());
        append_bytes(&mut data, self.ciphertext.as_slice());
        data
    }
}

fn nonce_array(bytes: &[u8]) -> (nonce: [u8; 12])
    requires
        bytes@.len() == NONCE_LEN,
    ensures
        nonce@ == bytes@,
{
    let mut nonce: [u8; 12] = [0u8; 12];
    let mut i: usize = 0;
    while i < 12
        invariant
            i <= 12,
            bytes@.len() == NONCE_LEN,
            forall|j: int| 0 <= j < i ==> nonce@[j] == bytes@[j],
        decreases 12 - i,
    {
        nonce[i] = bytes[i];
        i += 1;
    }
    assert(nonce@ =~= bytes@);
    nonce
}

/// Seals a bundle under a password, with a given salt and nonce. It fails exactly on a bundle that
/// is longer than the cipher takes. What it makes opens, under the same password, to the bundle.
pub fn seal_with(
    bundle_json: &str,
    password: &str,
    salt: Vec<u8>,
    nonce: Vec<u8>,
) -> (sealed: Result<SealedBundle, VaultError>)
    requires
        salt@.len() == SALT_LEN,
        nonce@.len() == NONCE_LEN,
    ensures
        sealed is Ok <==> encode_utf8(bundle_json@).len() <= GCM_PLAIN_MAX,
        match sealed {
            Ok(s) => {
                &&& s.salt == salt
                &&& s.nonce == nonce
                &&& s.ciphertext@ == gcm_sealed(
                    vault_key(password@, salt@),
                    nonce@,
                    encode_utf8(bundle_json@),
                )
                &&& s.ciphertext@.len() == encode_utf8(bundle_json@).len() + GCM_TAG_LEN
                &&& opened(s.file(), password@) == Opened::Bundle(bundle_json@)
            },
            Err(e) => e.text() == "Crypto: "@ + "Encrypt: aead::Error"@,
        },
{
    broadcast use vstd::utf8::encode_utf8_decode_utf8, vstd::utf8::encode_utf8_valid_utf8;

    let mut key: [u8; 32] = derive_key(password, salt.as_slice());
    let nonce_bytes: [u8; 12] = nonce_array(nonce.as_slice());
    let ciphertext: Option<Vec<u8>> = gcm_encrypt(&key, &nonce_bytes, bundle_json.as_bytes());
    wipe_block(&mut key);
    match ciphertext {
        Some(ciphertext) => {
            let sealed = SealedBundle { salt, nonce, ciphertext };
            proof {
                let file = sealed.file();
                assert(file.take(SALT_LEN as int) =~= salt@);
                assert(file.subrange(SALT_LEN as int, SALT_LEN + NONCE_LEN) =~= nonce@);
                assert(file.skip(SALT_LEN + NONCE_LEN) =~= ciphertext@);
            }
            Ok(sealed)
        },
        None => Err(VaultError::Crypto("Encrypt: aead::Error".to_owned())),
    }
}

/// Seals a bundle under a password, with a fresh salt and nonce from the operating system.
pub fn seal_bundle(bundle_json: &str, password: &str) -> (sealed: Result<SealedBundle, VaultError>)
    ensures
        sealed is Ok <==> encode_utf8(bundle_json@).len() <= GCM_PLAIN_MAX,
        match sealed {
            Ok(s) => {
                &&& s.salt@.len() == SALT_LEN
                &&& s.nonce@.len() == NONCE_LEN
                &&& s.ciphertext@ == gcm_sealed(
                    vault_key(password@, s.salt@),
                    s.nonce@,
                    encode_utf8(bundle_json@),
                )
                &&& s.ciphertext@.len() == encode_utf8(bundle_json@).len() + GCM_TAG_LEN
                &&& opened(s.file(), password@) == Opened::Bundle(bundle_json@)
            },
            Err(e) => e.text() == "Crypto: "@ + "Encrypt: aead::Error"@,
        },
{
    let salt: Vec<u8> = os_random(SALT_LEN);
    let nonce: Vec<u8> = os_random(NONCE_LEN);
    seal_with(bundle_json, password, salt, nonce)
}

/// A file that is to be written to the vault.
pub struct VaultFile {
    /// The name of the file within the vault.
    pub name: String,
    pub data: Vec<u8>,
}

/// Makes the vault file of a bundle. Opened under the same password, it gives the bundle back.
pub fn save_encrypted_bundle(
    bundle_json: &str,
    password: &str,
    filename_hint: &str,
) -> (file: Result<VaultFile, VaultError>)
    ensures
        file is Ok <==> encode_utf8(bundle_json@).len() <= GCM_PLAIN_MAX,
        match file {
            Ok(f) => {
                &&& f.name@ == filename_hint@ + ".vault"@
                &&& opened(f.data@, password@) == Opened::Bundle(bundle_json@)
                &&& f.data@.len() == SALT_LEN + NONCE_LEN + encode_utf8(bundle_json@).len()
                    + GCM_TAG_LEN
                &&& f.data@.skip(SALT_LEN + NONCE_LEN) == gcm_sealed(
                    vault_key(password@, f.data@.take(SALT_LEN as int)),
                    f.data@.subrange(SALT_LEN as int, SALT_LEN + NONCE_LEN),
                    encode_utf8(bundle_json@),
                )
            },
            Err(e) => e.text() == "Crypto: "@ + "Encrypt: aead::Error"@,
        },
{
    match seal_bundle(bundle_json, password) {
        Ok(sealed) => {
            let data: Vec<u8> = sealed.file_bytes();
            proof {
                assert(data@.take(SALT_LEN as int) =~= sealed.salt@);
                assert(data@.subrange(SALT_LEN as int, SALT_LEN + NONCE_LEN) =~= sealed.nonce@);
                assert(data@.skip(SALT_LEN + NONCE_LEN) =~= sealed.ciphertext@);
            }
            Ok(VaultFile { name: labelled(filename_hint, ".vault"), data })
        },
        Err(e) => Err(e),
    }
}

/// Opens the bytes of a vault file and gives the bundle.
pub fn read_encrypted_bundle(file_data: &[u8], password: &str) -> (bundle: Result<
    String,
    VaultError,
>)
    ensures
        match opened(file_data@, password@) {
            Opened::Bundle(text) => bundle matches Ok(b) && b@ == text,
            Opened::TooSmall => bundle matches Err(e) && e.text() == "Crypto: "@
                + "File too small to be a valid vault file"@,
            Opened::Refused => bundle matches Err(e) && e.text() == "Crypto: "@
                + "Decryption failed — wrong password or corrupted file"@,
            Opened::NotText(plain) => bundle matches Err(e) && e.text() == "Crypto: "@ + (
            "UTF-8 decode: "@ + utf8_fault(plain)),
        },
{
    if file_data.len() < SALT_LEN + NONCE_LEN + GCM_TAG_LEN {
        return Err(VaultError::Crypto("File too small to be a valid vault file".to_owned()));
    }
    let salt = vstd::slice::slice_subrange(file_data, 0, SALT_LEN);
    let nonce = vstd::slice::slice_subrange(file_data, SALT_LEN, SALT_LEN + NONCE_LEN);
    let ciphertext = vstd::slice::slice_subrange(
        file_data,
        SALT_LEN + NONCE_LEN,
        file_data.len(),
    );
    proof {
        assert(salt@ =~= file_data@.take(SALT_LEN as int));
        assert(ciphertext@ =~= file_data@.skip(SALT_LEN + NONCE_LEN));
    }
    let mut key: [u8; 32] = derive_key(password, salt);
    let nonce_bytes: [u8; 12] = nonce_array(nonce);
    let plain: Option<Vec<u8>> = gcm_decrypt(&key, &nonce_bytes, ciphertext);
    match plain {
        Some(plain) => {
            wipe_block(&mut key);
            match text_of_bytes(plain) {
                Ok(text) => Ok(text),
                Err(fault) => Err(
                    VaultError::Crypto(labelled("UTF-8 decode: ", fault.as_str())),
                ),
            }
        },
        None => Err(
            VaultError::Crypto("Decryption failed — wrong password or corrupted file".to_owned()),
        ),
    }
}

/// The address of a vault node's intake.
pub open spec fn push_address(ip: Seq<char>, port: u16) -> Seq<char> {
    "http://"@ + ip + ":"@ + numeral(port as nat) + "/vault/push"@
}

fn push_url(ip: &str, port: u16) -> (url: String)
    ensures
        url@ == push_address(ip@, port),
{
    let mut url: String = "http://".to_owned();
    url.append(ip);
    url.append(":");
    append_decimal(&mut url, port as u64);
    url.append("/vault/push");
    url
}

/// A sealed bundle on its way to a vault node.
pub struct BundlePush {
    pub url: String,
    pub node: &'static str,
    pub version: &'static str,
    pub kind: &'static str,
    pub timestamp: u64,
    pub salt: String,
    pub nonce: String,
    pub ciphertext: String,
}

/// Seals a bundle and puts it together for a vault node.
pub fn push_to_headscale(
    ip: &str,
    port: u16,
    bundle_json: &str,
    vault_password: &str,
    timestamp: u64,
) -> (push: Result<BundlePush, VaultError>)
    ensures
        push is Ok <==> encode_utf8(bundle_json@).len() <= GCM_PLAIN_MAX,
        match push {
            Ok(p) => {
                &&& p.url@ == push_address(ip@, port)
                &&& p.node@ == "nullmagnet_live"@
                &&& p.version@ == "2.0"@
                &&& p.kind@ == "encrypted_vault_push"@
                &&& p.timestamp == timestamp
                &&& exists|s: SealedBundle| #[trigger]
                    opened(s.file(), vault_password@) == Opened::Bundle(bundle_json@)
                        && s.ciphertext@ == gcm_sealed(
                        vault_key(vault_password@, s.salt@),
                        s.nonce@,
                        encode_utf8(bundle_json@),
                    ) && s.salt@.len() == SALT_LEN && s.nonce@.len() == NONCE_LEN && p.salt@
                        == hex_text(s.salt@) && p.nonce@ == hex_text(s.nonce@) && p.ciphertext@
                        == hex_text(s.ciphertext@)
            },
            Err(e) => e.text() == "Crypto: "@ + "Encrypt: aead::Error"@,
        },
{
    match seal_bundle(bundle_json, vault_password) {
        Ok(sealed) => Ok(
            BundlePush {
                url: push_url(ip, port),
                node: "nullmagnet_live",
                version: "2.0",
                kind: "encrypted_vault_push",
                timestamp,
                salt: hex_encode(sealed.salt.as_slice()),
                nonce: hex_encode(sealed.nonce.as_slice()),
                ciphertext: hex_encode(sealed.ciphertext.as_slice()),
            },
        ),
        Err(e) => Err(e),
    }
}

/// A vault file on its way to a vault node.
pub struct FilePush {
    pub url: String,
    pub node: &'static str,
    pub version: &'static str,
    pub kind: &'static str,
    pub timestamp: u64,
    pub filename: String,
    pub data: String,
}

/// Puts a vault file together for a vault node, sealed as it lies on disk.
pub fn push_vault_file_to_headscale(
    ip: &str,
    port: u16,
    filename: &str,
    file_data: &[u8],
    timestamp: u64,
) -> (push: FilePush)
    ensures
        push.url@ == push_address(ip@, port),
        push.node@ == "nullmagnet_live"@,
        push.version@ == "2.0"@,
        push.kind@ == "vault_file_push"@,
        push.timestamp == timestamp,
        push.filename@ == filename@,
        push.data@ == hex_text(file_data@),
{
    FilePush {
        url: push_url(ip, port),
        node: "nullmagnet_live",
        version: "2.0",
        kind: "vault_file_push",
        timestamp,
        filename: filename.to_owned(),
        data: hex_encode(file_data),
    }
}

/// What a vault node's reply to a push means: done where it is a success, a network error with its
/// status otherwise. `what` is the file that was pushed, empty for a bundle.
pub fn push_outcome(what: &str, ip: &str, port: u16, success: bool, status: &str) -> (outcome: Result<
    String,
    VaultError,
>)
    ensures
        success ==> (outcome matches Ok(line) && line@ == (if what@.len() == 0 {
            "Pushed to "@
        } else {
            "Pushed "@ + what@ + " to "@
        }) + ip@ + ":"@ + numeral(port as nat)),
        !success ==> (outcome matches Err(e) && e.text() == "Network: "@ + ("HTTP "@ + status@)),
{
    if !success {
        return Err(VaultError::Network(labelled("HTTP ", status)));
    }
    let mut line: String = if what.is_empty() {
        "Pushed to ".to_owned()
    } else {
        let mut named: String = "Pushed ".to_owned();
        named.append(what);
        named.append(" to ");
        named
    };
    line.append(ip);
    line.append(":");
    append_decimal(&mut line, port as u64);
    Ok(line)
}

/// The key of a vault file is the SHA-256 digest of the whole password and the whole salt behind it.
/// Different passwords, and different salts of one length, are hashed from different inputs.
pub proof fn law_vault_key_covers_password_and_salt(
    password: Seq<char>,
    salt: Seq<u8>,
    other_password: Seq<char>,
    other_salt: Seq<u8>,
)
    requires
        salt.len() == other_salt.len(),
        password != other_password || salt != other_salt,
    ensures
        exists|input: Seq<u8>, other: Seq<u8>|
            {
                let n = encode_utf8(password).len() as int;
                &&& vault_key(password, salt) == #[trigger] sha256(input)
                &&& vault_key(other_password, other_salt) == #[trigger] sha256(other)
                &&& input.take(n) == encode_utf8(password)
                &&& input.skip(n) == salt
                &&& input != other
            },
{
    broadcast use vstd::utf8::encode_utf8_decode_utf8;

    let front = encode_utf8(password);
    let other_front = encode_utf8(other_password);
    let input = front + salt;
    let other = other_front + other_salt;
    assert(input.take(front.len() as int) =~= front);
    assert(input.skip(front.len() as int) =~= salt);
    assert(other.take(other_front.len() as int) =~= other_front);
    assert(other.skip(other_front.len() as int) =~= other_salt);
    assert(decode_utf8(front) == password);
    assert(decode_utf8(other_front) == other_password);
    assert(vault_key(password, salt) == sha256(input));
    assert(vault_key(other_password, other_salt) == sha256(other));
    assert(input != other);
}

/// What a vault file opens to is settled by all of it: 16 bytes of salt, 12 of nonce, and the sealed
/// bundle behind them. Fewer than 44 bytes are no vault file.
pub proof fn law_vault_file_layout(
    file: Seq<u8>,
    password: Seq<char>,
    salt: Seq<u8>,
    nonce: Seq<u8>,
    sealed: Seq<u8>,
)
    requires
        file == salt + nonce + sealed,
        salt.len() == 16,
        nonce.len() == 12,
    ensures
        opened(file, password) == Opened::TooSmall <==> sealed.len() < 16,
        sealed.len() >= 16 ==> match gcm_opened(
            sha256(encode_utf8(password) + salt),
            nonce,
            sealed,
        ) {
            None => opened(file, password) == Opened::Refused,
            Some(plain) => if valid_utf8(plain) {
                opened(file, password) == Opened::Bundle(decode_utf8(plain))
            } else {
                opened(file, password) == Opened::NotText(plain)
            },
        },
{
    assert(file.take(16) =~= salt);
    assert(file.subrange(16, 28) =~= nonce);
    assert(file.skip(28) =~= sealed);
}

/// A vault file holds its parts one behind the other, and each can be taken from it again.
pub proof fn law_vault_file_holds_its_parts(sealed: SealedBundle)
    requires
        sealed.salt@.len() == 16,
        sealed.nonce@.len() == 12,
    ensures
        sealed.file().len() == 28 + sealed.ciphertext@.len(),
        sealed.file().take(16) == sealed.salt@,
        sealed.file().subrange(16, 28) == sealed.nonce@,
        sealed.file().skip(28) == sealed.ciphertext@,
{
    assert(sealed.file().take(16) =~= sealed.salt@);
    assert(sealed.file().subrange(16, 28) =~= sealed.nonce@);
    assert(sealed.file().skip(28) =~= sealed.ciphertext@);
}

} // verus!
