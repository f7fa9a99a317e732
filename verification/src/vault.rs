//! Vault and folder password protection: credentials, password checks and
//! the re-encryption of stored fields when a password is set, changed or
//! removed.
//!
//! The password itself is never stored: only a salt and an encrypted
//! sentinel. Vault and folder passwords are mutually exclusive.

use vstd::prelude::*;
use vstd::utf8::*;
use vstd::string::StringExecFns;
use vstd::string::StringSliceAdditionalSpecFns;
use std::string::ToString;

use crate::crypto::{
    argon2id_output, base64_decoding, decrypt, derive_key, encrypt, generate_salt, make_sentinel,
    opened_blob, sealed_blob, sentinel_plaintext, verify_sentinel, zeroize_key, ARGON2_M_COST,
    ARGON2_P_COST, ARGON2_T_COST, NONCE_LEN,
};
use crate::notes::{decrypted_text, lemma_utf8_len_at_least_chars, readable_text, shown_text, storable, stored_text};
use crate::session::KeyStore;

verus! {

broadcast use {encode_utf8_decode_utf8, encode_utf8_valid_utf8, decode_utf8_encode_utf8};

/// The key that `password` derives with `salt`.
pub open spec fn password_key(password: Seq<u8>, salt: Seq<u8>) -> Seq<u8> {
    argon2id_output(ARGON2_M_COST, ARGON2_T_COST, ARGON2_P_COST, password, salt)
}

/// Whether `password` opens the sentinel stored with `salt`.
pub open spec fn password_accepted(password: Seq<u8>, salt: Seq<u8>, sentinel: Seq<char>) -> bool {
    opened_blob(password_key(password, salt), sentinel) == Some(sentinel_plaintext())
}

/// A salt length that Argon2 accepts.
pub open spec fn salt_len_ok(n: nat) -> bool {
    8 <= n <= 0xFFFF_FFFF
}

/// Fresh credentials for a password: the derived key, the base64 text of a
/// new random salt, and a sentinel encrypted under the key.
pub struct Credentials {
    pub key: [u8; 32],
    pub salt_b64: String,
    pub sentinel: String,
}

/// Derive fresh credentials for `password` (a new salt, the Argon2id key and
/// a sentinel). The same password later unlocks them.
pub fn new_credentials(password: &str) -> (creds: Credentials)
    requires
        password.spec_bytes().len() <= 0xFFFF_FFFF,
    ensures
        exists|salt: Seq<u8>|
            #![trigger password_key(password.spec_bytes(), salt)]
            salt.len() == 32 && base64_decoding(creds.salt_b64@) == Some(salt) && creds.key@
                == password_key(password.spec_bytes(), salt) && password_accepted(
                password.spec_bytes(),
                salt,
                creds.sentinel@,
            ),
{
    let salt = generate_salt();
    let key = derive_key(password, vstd::array::array_as_slice(&salt));
    let sentinel = make_sentinel(&key);
    let salt_b64 = crate::crypto::base64_encode(vstd::array::array_as_slice(&salt));
    assert(key@ == password_key(password.spec_bytes(), salt@));
    assert(password_accepted(password.spec_bytes(), salt@, sentinel@));
    Credentials { key, salt_b64, sentinel }
}

/// Decode a stored base64 salt; the error reads `corrupt salt: ` followed by
/// the decoder's message.
pub fn decode_salt(salt_b64: &str) -> (salt: Result<Vec<u8>, String>)
    ensures
        match salt {
            Ok(s) => base64_decoding(salt_b64@) == Some(s@),
            Err(e) => base64_decoding(salt_b64@) is None && e@.len() >= 14 && e@.take(14)
                == "corrupt salt: "@,
        },
{
    match crate::crypto::base64_decode(salt_b64) {
        Ok(s) => Ok(s),
        Err(e) => {
            proof { reveal_strlit("corrupt salt: "); }
            let mut msg = String::from_str("corrupt salt: ");
            let ghost prefix = msg@;
            msg.append(e.as_str());
            assert(msg@.take(14) =~= prefix);
            Err(msg)
        },
    }
}

/// Check `password` against a stored salt and sentinel: the derived key when
/// it opens the sentinel, `None` (with the key zeroed) otherwise.
pub fn try_password(password: &str, salt: &[u8], sentinel_b64: &str) -> (key: Option<[u8; 32]>)
    requires
        password.spec_bytes().len() <= 0xFFFF_FFFF,
        salt_len_ok(salt@.len()),
    ensures
        password_accepted(password.spec_bytes(), salt@, sentinel_b64@) <==> key is Some,
        key matches Some(k) ==> k@ == password_key(password.spec_bytes(), salt@),
{
    let mut key = derive_key(password, salt);
    if verify_sentinel(&key, sentinel_b64) {
        Some(key)
    } else {
        zeroize_key(&mut key);
        None
    }
}

/// A password set with `new_credentials` is accepted when checked against
/// the stored salt and sentinel.
pub proof fn law_credentials_accept_their_password(
    password: Seq<u8>,
    salt: Seq<u8>,
    key: Seq<u8>,
    sentinel: Seq<char>,
)
    requires
        key == password_key(password, salt),
        password_accepted(password, salt, sentinel),
    ensures
        opened_blob(key, sentinel) == Some(sentinel_plaintext()),
{
}

// ---------------------------------------------------------------------------
// Rules of the password commands
// ---------------------------------------------------------------------------

/// The key to re-encrypt from when the vault password is set or changed:
/// none when no password is set yet; the held vault key when one is set;
/// refused with `vault_locked` when a password is set but not entered.
pub fn key_for_password_change(has_password: bool, keys: &KeyStore) -> (old: Result<Option<[u8; 32]>, String>)
    ensures
        !has_password ==> old == Ok::<Option<[u8; 32]>, String>(None),
        has_password && keys.vault_key is Some ==> old == Ok::<Option<[u8; 32]>, String>(keys.vault_key),
        has_password && keys.vault_key is None ==> (old matches Err(e) && e@ == "vault_locked"@),
{
    if !has_password {
        return Ok(None);
    }
    match keys.vault_key {
        Some(k) => Ok(Some(k)),
        None => {
            proof { reveal_strlit("vault_locked"); }
            Err(String::from_str("vault_locked"))
        },
    }
}

/// The held vault key, needed to remove the vault password; refused with
/// `vault_locked` when it is not held.
pub fn held_vault_key(keys: &KeyStore) -> (key: Result<[u8; 32], String>)
    ensures
        keys.vault_key matches Some(k) ==> key == Ok::<[u8; 32], String>(k),
        keys.vault_key is None ==> (key matches Err(e) && e@ == "vault_locked"@),
{
    match keys.vault_key {
        Some(k) => Ok(k),
        None => {
            proof { reveal_strlit("vault_locked"); }
            Err(String::from_str("vault_locked"))
        },
    }
}

/// A folder password may only be set while the vault has none (vault and
/// folder locks are mutually exclusive); refused with
/// `vault_already_protected` otherwise.
pub fn check_folder_password_allowed(vault_protected: bool) -> (ok: Result<(), String>)
    ensures
        !vault_protected <==> ok is Ok,
        ok matches Err(e) ==> e@ == "vault_already_protected"@,
{
    if vault_protected {
        proof { reveal_strlit("vault_already_protected"); }
        return Err(String::from_str("vault_already_protected"));
    }
    Ok(())
}

/// The outcome of a password check that must succeed: refused with
/// `wrong_password` when the password does not open the sentinel.
pub fn require_password(password: &str, salt: &[u8], sentinel_b64: &str) -> (key: Result<[u8; 32], String>)
    requires
        password.spec_bytes().len() <= 0xFFFF_FFFF,
        salt_len_ok(salt@.len()),
    ensures
        password_accepted(password.spec_bytes(), salt@, sentinel_b64@) <==> key is Ok,
        key matches Ok(k) ==> k@ == password_key(password.spec_bytes(), salt@),
        key matches Err(e) ==> e@ == "wrong_password"@,
{
    match try_password(password, salt, sentinel_b64) {
        Some(k) => Ok(k),
        None => {
            proof { reveal_strlit("wrong_password"); }
            Err(String::from_str("wrong_password"))
        },
    }
}

// ---------------------------------------------------------------------------
// Re-encryption
// ---------------------------------------------------------------------------

/// The plaintext behind a stored field: without a key the field itself;
/// with a key its decryption, or the field itself when it does not decrypt
/// (it was never encrypted). Decrypted bytes that are not UTF-8 are an error.
pub open spec fn recovered_text(key: Option<[u8; 32]>, stored: Seq<char>) -> Option<Seq<char>> {
    match key {
        None => Some(stored),
        Some(k) => match opened_blob(k@, stored) {
            None => Some(stored),
            Some(bytes) => if valid_utf8(bytes) {
                Some(decode_utf8(bytes))
            } else {
                None
            },
        },
    }
}

/// Recover the plaintext of a stored field before it is re-encrypted or
/// written back in plaintext (password change or removal).
pub fn recover_plaintext(key: Option<[u8; 32]>, stored: String) -> (plain: Result<String, String>)
    ensures
        match plain {
            Ok(p) => recovered_text(key, stored@) == Some(p@) && encode_utf8(p@).len() <= encode_utf8(
                stored@,
            ).len(),
            Err(_) => recovered_text(key, stored@) is None,
        },
{
    proof { lemma_utf8_len_at_least_chars(stored@); }
    match key {
        None => Ok(stored),
        Some(k) => match decrypt(&k, stored.as_str()) {
            Ok(bytes) => {
                let ghost b = bytes@;
                match String::from_utf8(bytes) {
                    Ok(text) => {
                        assert(encode_utf8(decode_utf8(b)) == b);
                        Ok(text)
                    },
                    Err(e) => Err(e.to_string()),
                }
            },
            Err(_) => Ok(stored),
        },
    }
}

/// Re-encrypt a stored field under `new_key` (vault password set or
/// changed): recover its plaintext with `old_key`, then encrypt it.
pub fn reencrypt_field(old_key: Option<[u8; 32]>, new_key: &[u8; 32], stored: String) -> (fresh: Result<
    String,
    String,
>)
    requires
        storable(stored@),
    ensures
        recovered_text(old_key, stored@) is None <==> fresh is Err,
        fresh matches Ok(blob) ==> decrypted_text(new_key@, blob@) == recovered_text(old_key, stored@),
{
    let plain = recover_plaintext(old_key, stored)?;
    Ok(stored_text(Some(*new_key), plain))
}

/// After re-encryption, reading a field under the new key gives the same
/// text that reading it under the old key gave, for every field that
/// decrypted under the old key (or that was plaintext when no key was set).
pub proof fn law_reencryption_preserves_text(
    old_key: Option<[u8; 32]>,
    new_key: [u8; 32],
    stored: Seq<char>,
    blob: Seq<char>,
)
    requires
        recovered_text(old_key, stored) is Some,
        decrypted_text(new_key@, blob) == recovered_text(old_key, stored),
    ensures
        readable_text(new_key@, blob) == shown_text(old_key, stored),
{
}

/// Setting a vault password and then removing it with the same password
/// gives every field back. Setting it re-encrypts each stored field under
/// the key of fresh credentials (the password opens their sentinel, so
/// unlocking derives that same key); removing it recovers each field with
/// that key. What comes back is what each field read as before the password
/// was set, and, when no password was set before, the field exactly as it
/// was stored.
pub proof fn law_vault_password_round_trip(
    password: Seq<u8>,
    salt: Seq<u8>,
    sentinel: Seq<char>,
    key: [u8; 32],
    old_key: Option<[u8; 32]>,
    fields: Seq<Seq<char>>,
    blobs: Seq<Seq<char>>,
)
    requires
        key@ == password_key(password, salt),
        password_accepted(password, salt, sentinel),
        blobs.len() == fields.len(),
        forall|i: int|
            0 <= i < fields.len() ==> #[trigger] recovered_text(old_key, fields[i]) is Some,
        forall|i: int|
            0 <= i < fields.len() ==> decrypted_text(key@, #[trigger] blobs[i]) == recovered_text(
                old_key,
                fields[i],
            ),
    ensures
        opened_blob(password_key(password, salt), sentinel) == Some(sentinel_plaintext()),
        forall|i: int|
            0 <= i < fields.len() ==> #[trigger] recovered_text(Some(key), blobs[i])
                == recovered_text(old_key, fields[i]),
        old_key is None ==> forall|i: int|
            0 <= i < fields.len() ==> #[trigger] recovered_text(Some(key), blobs[i]) == Some(
                fields[i],
            ),
{
    assert forall|i: int| 0 <= i < fields.len() implies #[trigger] recovered_text(Some(key), blobs[i])
        == recovered_text(old_key, fields[i]) by {
        assert(decrypted_text(key@, blobs[i]) == recovered_text(old_key, fields[i]));
    }
}

/// Setting a folder password and then removing it with the same password
/// gives the folder's notes back. Setting it stores each title and content
/// with `stored_text` under the key of fresh credentials; the password opens
/// their sentinel, so `require_password` with the stored salt gives that key
/// back; recovering each stored field with it gives the text it held.
pub proof fn law_folder_password_round_trip(
    password: Seq<u8>,
    salt: Seq<u8>,
    sentinel: Seq<char>,
    key: [u8; 32],
    texts: Seq<Seq<char>>,
    blobs: Seq<Seq<char>>,
)
    requires
        key@ == password_key(password, salt),
        password_accepted(password, salt, sentinel),
        blobs.len() == texts.len(),
        forall|i: int| 0 <= i < texts.len() ==> decrypted_text(key@, #[trigger] blobs[i]) == Some(texts[i]),
    ensures
        forall|i: int|
            0 <= i < texts.len() ==> #[trigger] recovered_text(Some(key), blobs[i]) == Some(texts[i]),
{
    assert forall|i: int| 0 <= i < texts.len() implies #[trigger] recovered_text(Some(key), blobs[i])
        == Some(texts[i]) by {
        assert(decrypted_text(key@, blobs[i]) == Some(texts[i]));
    }
}

} // verus!
