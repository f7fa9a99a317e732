use base64::Engine;
use grimoire::crypto::{decrypt, derive_key, encrypt, generate_salt, make_sentinel, verify_sentinel};
use grimoire::session::{
    clear_folder_key, clear_vault_key, folder_is_locked, resolve_key, store_folder_key,
    store_vault_key, vault_is_locked, KeyStore,
};
use grimoire::vault::{
    check_folder_password_allowed, decode_salt, held_vault_key, key_for_password_change,
    new_credentials, recover_plaintext, reencrypt_field, require_password, try_password,
};

#[test]
fn encrypt_then_decrypt_gives_plaintext_back() {
    let key = [7u8; 32];
    let blob = encrypt(&key, b"hello world");
    assert_eq!(decrypt(&key, &blob).unwrap(), b"hello world".to_vec());
}

#[test]
fn blob_holds_nonce_ciphertext_and_tag() {
    let key = [3u8; 32];
    for n in [0usize, 1, 15, 100] {
        let p = vec![9u8; n];
        let blob = encrypt(&key, &p);
        let bytes = base64::engine::general_purpose::STANDARD.decode(&blob).unwrap();
        assert_eq!(bytes.len(), 12 + n + 16);
    }
}

#[test]
fn encrypt_empty_plaintext_round_trips() {
    let key = [1u8; 32];
    let blob = encrypt(&key, b"");
    assert_eq!(decrypt(&key, &blob).unwrap(), Vec::<u8>::new());
}

#[test]
fn encryption_uses_a_fresh_nonce_each_time() {
    let key = [3u8; 32];
    let a = encrypt(&key, b"same");
    let b = encrypt(&key, b"same");
    assert_ne!(a, b);
    // 12-byte nonce + 4 bytes + 16-byte tag = 32 bytes, 44 base64 characters.
    assert_eq!(a.len(), 44);
}

#[test]
fn decrypt_with_wrong_key_is_refused() {
    let blob = encrypt(&[1u8; 32], b"secret");
    assert_eq!(
        decrypt(&[2u8; 32], &blob),
        Err("decryption failed — wrong key or corrupted data".to_string())
    );
}

#[test]
fn decrypt_of_short_blob_is_refused() {
    // Five bytes decode fine but are shorter than a nonce.
    assert_eq!(decrypt(&[0u8; 32], "AAAAAAA="), Err("ciphertext blob too short".to_string()));
}

#[test]
fn decrypt_of_invalid_base64_is_refused() {
    let e = decrypt(&[0u8; 32], "not base64!").unwrap_err();
    assert!(e.starts_with("base64 decode failed: "));
}

#[test]
fn sentinel_verifies_only_under_its_key() {
    let key = [9u8; 32];
    let s = make_sentinel(&key);
    assert!(verify_sentinel(&key, &s));
    assert!(!verify_sentinel(&[8u8; 32], &s));
    assert!(!verify_sentinel(&key, "garbage"));
}

#[test]
fn derived_keys_depend_on_password_and_salt() {
    let salt = [5u8; 32];
    let a = derive_key("hunter2", &salt);
    let b = derive_key("hunter2", &salt);
    let c = derive_key("hunter3", &salt);
    let d = derive_key("hunter2", &[6u8; 32]);
    assert_eq!(a, b);
    assert_ne!(a, c);
    assert_ne!(a, d);
}

#[test]
fn salts_are_random() {
    assert_ne!(generate_salt(), generate_salt());
}

#[test]
fn new_credentials_accept_their_password() {
    let creds = new_credentials("correct horse");
    let salt = decode_salt(&creds.salt_b64).unwrap();
    assert_eq!(salt.len(), 32);
    assert_eq!(try_password("correct horse", &salt, &creds.sentinel), Some(creds.key));
    assert_eq!(try_password("wrong horse", &salt, &creds.sentinel), None);
    assert_eq!(require_password("correct horse", &salt, &creds.sentinel), Ok(creds.key));
    assert_eq!(
        require_password("battery", &salt, &creds.sentinel),
        Err("wrong_password".to_string())
    );
}

#[test]
fn corrupt_salt_is_reported() {
    let e = decode_salt("%%%").unwrap_err();
    assert!(e.starts_with("corrupt salt: "));
}

#[test]
fn password_change_needs_the_held_key() {
    let mut keys = KeyStore::new();
    assert_eq!(key_for_password_change(false, &keys), Ok(None));
    assert_eq!(key_for_password_change(true, &keys), Err("vault_locked".to_string()));
    assert_eq!(held_vault_key(&keys), Err("vault_locked".to_string()));
    store_vault_key(&mut keys, [4u8; 32]);
    assert_eq!(key_for_password_change(true, &keys), Ok(Some([4u8; 32])));
    assert_eq!(held_vault_key(&keys), Ok([4u8; 32]));
}

#[test]
fn folder_password_refused_under_vault_password() {
    assert_eq!(check_folder_password_allowed(true), Err("vault_already_protected".to_string()));
    assert_eq!(check_folder_password_allowed(false), Ok(()));
}

#[test]
fn reencryption_preserves_text() {
    let old = [1u8; 32];
    let new = [2u8; 32];
    let stored = encrypt(&old, "Groceries".as_bytes());
    let fresh = reencrypt_field(Some(old), &new, stored).unwrap();
    assert_eq!(decrypt(&new, &fresh).unwrap(), b"Groceries".to_vec());
    // Plaintext rows (no old key, or not decryptable) are taken as they are.
    let fresh2 = reencrypt_field(None, &new, "plain".to_string()).unwrap();
    assert_eq!(decrypt(&new, &fresh2).unwrap(), b"plain".to_vec());
    let fresh3 = reencrypt_field(Some(old), &new, "not a blob".to_string()).unwrap();
    assert_eq!(decrypt(&new, &fresh3).unwrap(), b"not a blob".to_vec());
}

#[test]
fn vault_password_set_then_removed_restores_fields() {
    let fields = vec!["Groceries".to_string(), "milk, eggs".to_string(), String::new()];
    let creds = new_credentials("hunter2");
    let blobs: Vec<String> = fields
        .iter()
        .map(|f| reencrypt_field(None, &creds.key, f.clone()).unwrap())
        .collect();
    let salt = decode_salt(&creds.salt_b64).unwrap();
    let key = try_password("hunter2", &salt, &creds.sentinel).unwrap();
    assert_eq!(key, creds.key);
    for (blob, field) in blobs.iter().zip(&fields) {
        assert_ne!(blob, field);
        assert_eq!(recover_plaintext(Some(key), blob.clone()).unwrap(), *field);
    }
}

#[test]
fn folder_password_set_then_removed_restores_notes() {
    let texts = vec!["Diary".to_string(), "dear diary".to_string()];
    let creds = new_credentials("s3cret");
    let blobs: Vec<String> = texts
        .iter()
        .map(|t| grimoire::notes::stored_text(Some(creds.key), t.clone()))
        .collect();
    let salt = decode_salt(&creds.salt_b64).unwrap();
    assert_eq!(require_password("wrong", &salt, &creds.sentinel), Err("wrong_password".to_string()));
    let key = require_password("s3cret", &salt, &creds.sentinel).unwrap();
    for (blob, text) in blobs.iter().zip(&texts) {
        assert_eq!(recover_plaintext(Some(key), blob.clone()).unwrap(), *text);
    }
}

#[test]
fn recover_plaintext_falls_back_to_stored_text() {
    let key = [1u8; 32];
    assert_eq!(recover_plaintext(None, "abc".to_string()), Ok("abc".to_string()));
    assert_eq!(recover_plaintext(Some(key), "abc".to_string()), Ok("abc".to_string()));
    let blob = encrypt(&key, "x y".as_bytes());
    assert_eq!(recover_plaintext(Some(key), blob), Ok("x y".to_string()));
    let bad = encrypt(&key, &[0xff, 0xfe]);
    assert!(recover_plaintext(Some(key), bad).is_err());
}

#[test]
fn key_store_resolves_folder_then_vault_key() {
    let mut keys = KeyStore::new();
    assert_eq!(resolve_key(None, &keys), None);
    assert_eq!(resolve_key(Some(3), &keys), None);
    store_vault_key(&mut keys, [1u8; 32]);
    assert_eq!(resolve_key(None, &keys), Some([1u8; 32]));
    assert_eq!(resolve_key(Some(3), &keys), Some([1u8; 32]));
    store_folder_key(&mut keys, 3, [2u8; 32]);
    assert_eq!(resolve_key(Some(3), &keys), Some([2u8; 32]));
    assert_eq!(resolve_key(Some(4), &keys), Some([1u8; 32]));
    clear_folder_key(&mut keys, 3);
    assert_eq!(resolve_key(Some(3), &keys), Some([1u8; 32]));
    clear_vault_key(&mut keys);
    assert_eq!(resolve_key(None, &keys), None);
}

#[test]
fn folder_lock_follows_held_keys() {
    let mut keys = KeyStore::new();
    assert!(folder_is_locked(5, true, &keys));
    assert!(!folder_is_locked(5, false, &keys));
    store_folder_key(&mut keys, 5, [9u8; 32]);
    assert!(!folder_is_locked(5, true, &keys));
    assert!(folder_is_locked(6, true, &keys));
    assert!(vault_is_locked(true, &keys));
    assert!(!vault_is_locked(false, &keys));
    store_vault_key(&mut keys, [1u8; 32]);
    assert!(!vault_is_locked(true, &keys));
}
