use nullmagnet::vault::listing::DirectoryFile;
use nullmagnet::vault::{
    derive_key, list_vault_files, push_outcome, push_to_headscale, push_vault_file_to_headscale,
    read_encrypted_bundle, save_encrypted_bundle, seal_with, VaultError, NONCE_LEN, SALT_LEN,
};

fn message<T>(outcome: Result<T, VaultError>) -> String {
    match outcome {
        Ok(_) => String::from("none"),
        Err(e) => e.message(),
    }
}

#[test]
fn test_encrypt_decrypt_roundtrip() {
    let bundle = r#"{"type":"test","key":"abc123"}"#;
    let password = "testpassword123";

    let file =
        save_encrypted_bundle(bundle, password, "test_key").expect("encrypt should succeed");

    assert_eq!(file.name, "test_key.vault");
    assert_eq!(file.data.len(), SALT_LEN + NONCE_LEN + bundle.len() + 16);

    let decrypted =
        read_encrypted_bundle(&file.data, password).expect("decrypt should succeed");

    assert_eq!(decrypted, bundle);

    let result = read_encrypted_bundle(&file.data, "wrongpassword");
    assert!(result.is_err());
}

#[test]
fn test_list_vault_files() {
    let mut files = Vec::new();
    for stem in ["bundle_001", "bundle_002"] {
        let saved = save_encrypted_bundle("{}", "pass", stem).unwrap();
        files.push(DirectoryFile {
            stem: String::from(saved.name.trim_end_matches(".vault")),
            extension: String::from("vault"),
            size: saved.data.len() as u64,
            modified: Some(0),
        });
    }

    let listing = list_vault_files(&files);
    assert!(listing.len() >= 2);
    assert_eq!(listing[0].name, "bundle_001");
    assert_eq!(listing[0].size, 46);
}

#[test]
fn test_key_derivation_deterministic() {
    let key1 = derive_key("password", b"salt1234salt1234");
    let key2 = derive_key("password", b"salt1234salt1234");
    assert_eq!(key1, key2);

    let key3 = derive_key("password", b"differentsalt!!!");
    assert_ne!(key1, key3);
}

#[test]
fn key_is_the_digest_of_password_and_salt() {
    let key = derive_key("abc", b"");
    assert_eq!(
        hex::encode(key),
        "ba7816bf8f01cfea414140de5dae2223b00361a396177a9cb410ff61f20015ad"
    );
    assert_eq!(derive_key("a", b"bc"), key);
}

#[test]
fn sealing_with_given_salt_and_nonce_is_deterministic() {
    let seal = || seal_with("bundle", "pw", vec![7; 16], vec![9; 12]).ok().unwrap().file_bytes();
    assert_eq!(seal(), seal());
    assert_eq!(&seal()[..16], &[7u8; 16]);
    assert_eq!(&seal()[16..28], &[9u8; 12]);
    assert_eq!(read_encrypted_bundle(&seal(), "pw").unwrap(), "bundle");
}

#[test]
fn two_files_of_one_bundle_differ() {
    let a = save_encrypted_bundle("{}", "pass", "a").unwrap();
    let b = save_encrypted_bundle("{}", "pass", "b").unwrap();
    assert_ne!(a.data, b.data);
}

#[test]
fn bad_files_are_refused() {
    assert_eq!(
        message(read_encrypted_bundle(&[0; 43], "pw")),
        "Crypto: File too small to be a valid vault file"
    );
    assert_eq!(
        message(read_encrypted_bundle(&[0; 44], "pw")),
        "Crypto: Decryption failed — wrong password or corrupted file"
    );
    let mut file = save_encrypted_bundle("{}", "pw", "x").unwrap().data;
    let last = file.len() - 1;
    file[last] ^= 1;
    assert_eq!(
        message(read_encrypted_bundle(&file, "pw")),
        "Crypto: Decryption failed — wrong password or corrupted file"
    );
}

#[test]
fn bytes_that_are_not_text_are_reported() {
    let salt = [1u8; 16];
    let nonce = [2u8; 12];
    let key = derive_key("pw", &salt);
    let cipher = <aes_gcm::Aes256Gcm as aes_gcm::KeyInit>::new(&key.into());
    let sealed =
        aes_gcm::aead::Aead::encrypt(&cipher, &nonce.into(), &[0xffu8, 0xfe][..]).unwrap();
    let mut file = salt.to_vec();
    file.extend_from_slice(&nonce);
    file.extend_from_slice(&sealed);
    let said = message(read_encrypted_bundle(&file, "pw"));
    assert_eq!(said, "Crypto: UTF-8 decode: invalid utf-8 sequence of 1 bytes from index 0");
}

#[test]
fn listing_puts_the_newest_first() {
    let file = |stem: &str, extension: &str, modified: Option<u64>| DirectoryFile {
        stem: String::from(stem),
        extension: String::from(extension),
        size: 5,
        modified,
    };
    let files = vec![
        file("old", "json", Some(1431648000)),
        file("notes", "txt", Some(1431648002)),
        file("first", "vault", Some(1431648001)),
        file("second", "vault", Some(1431648001)),
        file("lost", "vault", None),
        file("far", "vault", Some(u64::MAX / 4)),
    ];
    let listing = list_vault_files(&files);
    let shown: Vec<(String, String)> =
        listing.into_iter().map(|e| (e.name, e.modified)).collect();
    let expected: Vec<(String, String)> = [
        ("lost", "Unknown"),
        ("far", "Unknown"),
        ("first", "2015-05-15 00:00:01"),
        ("second", "2015-05-15 00:00:01"),
        ("old (unencrypted)", "2015-05-15 00:00:00"),
    ]
    .iter()
    .map(|(a, b)| (String::from(*a), String::from(*b)))
    .collect();
    assert_eq!(shown, expected);
}

#[test]
fn pushes_are_put_together() {
    let push = push_to_headscale("10.0.0.1", 8100, "bundle", "pw", 77).unwrap();
    assert_eq!(push.url, "http://10.0.0.1:8100/vault/push");
    assert_eq!((push.node, push.version, push.kind), ("nullmagnet_live", "2.0", "encrypted_vault_push"));
    assert_eq!(push.timestamp, 77);
    let mut file = hex::decode(&push.salt).unwrap();
    file.extend(hex::decode(&push.nonce).unwrap());
    file.extend(hex::decode(&push.ciphertext).unwrap());
    assert_eq!(read_encrypted_bundle(&file, "pw").unwrap(), "bundle");

    let raw = push_vault_file_to_headscale("h", 1, "k.vault", &[0xab, 0x01], 5);
    assert_eq!(raw.url, "http://h:1/vault/push");
    assert_eq!(raw.kind, "vault_file_push");
    assert_eq!(raw.data, "ab01");
    assert_eq!(raw.filename, "k.vault");
}

#[test]
fn push_outcomes_are_told() {
    assert_eq!(push_outcome("", "h", 9, true, "200 OK").unwrap(), "Pushed to h:9");
    assert_eq!(
        push_outcome("keys/a.vault", "h", 9, true, "200 OK").unwrap(),
        "Pushed keys/a.vault to h:9"
    );
    assert_eq!(
        message(push_outcome("", "h", 9, false, "404 Not Found")),
        "Network: HTTP 404 Not Found"
    );
}

#[test]
fn errors_are_labelled() {
    assert_eq!(VaultError::Io(String::from("x")).message(), "IO: x");
    assert_eq!(VaultError::Crypto(String::from("x")).message(), "Crypto: x");
    assert_eq!(VaultError::Json(String::from("x")).message(), "JSON: x");
    assert_eq!(VaultError::Network(String::from("x")).message(), "Network: x");
}
