//! Cryptographic primitives of the vault.
//!
//! Note titles, note bodies and folder names are encrypted with AES-256-GCM.
//! Keys are derived from passwords with Argon2id (m = 65536 KiB, t = 2, p = 1).
//!
//! A stored ciphertext blob is the standard-alphabet base64 text of
//! `nonce (12 bytes) || ciphertext || GCM tag (16 bytes)`.
//!
//! The salt is stored next to the blob in plaintext; a known plaintext
//! (the sentinel) is encrypted with the derived key so that a later password
//! guess can be checked without storing the password.
use vstd::prelude::*;

use aes_gcm::aead::{Aead, KeyInit};
use aes_gcm::{Aes256Gcm, Key, Nonce};
use argon2::{Algorithm, Argon2, Params, Version};
use base64::Engine;
use rand::RngCore;
use zeroize::Zeroize;
use vstd::string::StringSliceAdditionalSpecFns;
use vstd::string::StringExecFns;

verus! {

/// Length in bytes of a derived key.
pub const KEY_LEN: usize = 32;

/// Length in bytes of the random nonce that prefixes every blob.
pub const NONCE_LEN: usize = 12;

/// Length in bytes of the GCM authentication tag.
pub const TAG_LEN: usize = 16;

/// Largest plaintext that AES-GCM accepts (2^36 bytes).
pub const AES_GCM_P_MAX: u64 = 0x10_0000_0000;

/// Argon2 memory cost in KiB.
pub const ARGON2_M_COST: u32 = 65536;

/// Argon2 number of passes.
pub const ARGON2_T_COST: u32 = 2;

/// Argon2 degree of parallelism.
pub const ARGON2_P_COST: u32 = 1;

// ---------------------------------------------------------------------------
// What the outside functions compute
// ---------------------------------------------------------------------------

/// The AES-256-GCM ciphertext-with-tag that `Aead::encrypt` produces for
/// `key`, `nonce` and `plaintext` (no associated data).
pub uninterp spec fn aes256gcm_seal(key: Seq<u8>, nonce: Seq<u8>, plaintext: Seq<u8>) -> Seq<u8>;

/// What `Aead::decrypt` gives back for `key`, `nonce` and a ciphertext with
/// its tag appended: the plaintext when the tag authenticates, `None` otherwise.
pub uninterp spec fn aes256gcm_open(key: Seq<u8>, nonce: Seq<u8>, ciphertext: Seq<u8>) -> Option<Seq<u8>>;

/// The character of the standard base64 alphabet for a six-bit value:
/// `A`-`Z`, `a`-`z`, `0`-`9`, `+`, `/`.
pub open spec fn base64_char(v: int) -> char {
    if v < 26 {
        (65 + v) as char
    } else if v < 52 {
        (97 + (v - 26)) as char
    } else if v < 62 {
        (48 + (v - 52)) as char
    } else if v == 62 {
        '+'
    } else {
        '/'
    }
}

/// The padded standard-alphabet base64 text of `bytes` (RFC 4648): each
/// group of three bytes gives four characters of six bits each; a last
/// group of one or two bytes is padded with zero bits and `=`.
pub open spec fn base64_encoding(bytes: Seq<u8>) -> Seq<char>
    decreases bytes.len(),
{
    if bytes.len() == 0 {
        Seq::empty()
    } else if bytes.len() == 1 {
        let b0 = bytes[0] as int;
        seq![base64_char(b0 / 4), base64_char((b0 % 4) * 16), '=', '=']
    } else if bytes.len() == 2 {
        let (b0, b1) = (bytes[0] as int, bytes[1] as int);
        seq![base64_char(b0 / 4), base64_char((b0 % 4) * 16 + b1 / 16), base64_char((b1 % 16) * 4), '=']
    } else {
        let (b0, b1, b2) = (bytes[0] as int, bytes[1] as int, bytes[2] as int);
        seq![
            base64_char(b0 / 4),
            base64_char((b0 % 4) * 16 + b1 / 16),
            base64_char((b1 % 16) * 4 + b2 / 64),
            base64_char(b2 % 64),
        ] + base64_encoding(bytes.skip(3))
    }
}

/// The bytes that padded standard-alphabet base64 decoding gives for `text`,
/// `None` when `text` is not valid base64.
pub uninterp spec fn base64_decoding(text: Seq<char>) -> Option<Seq<u8>>;

/// The 32-byte Argon2id (version 0x13) output for the given costs,
/// password bytes and salt.
pub uninterp spec fn argon2id_output(
    m_cost: u32,
    t_cost: u32,
    p_cost: u32,
    password: Seq<u8>,
    salt: Seq<u8>,
) -> Seq<u8>;

// ---------------------------------------------------------------------------
// Trusted calls into the outside crates
// ---------------------------------------------------------------------------

/// Calls `aes_gcm::Aes256Gcm::encrypt` (through `aead::Aead`) with a key and a
/// 12-byte nonce. Claimed: the result is the named seal of the arguments, it is
/// 16 bytes longer than the plaintext (the appended tag), and `Aead::decrypt`
/// with the same key and nonce gives the plaintext back. The crate returns an
/// error only for plaintexts longer than 2^36 bytes, which `requires` excludes.
#[verifier::external_body]
fn aes256gcm_encrypt(key: &[u8; 32], nonce: &[u8; 12], plaintext: &[u8]) -> (sealed: Vec<u8>)
    requires
        plaintext@.len() <= AES_GCM_P_MAX,
    ensures
        sealed@ == aes256gcm_seal(key@, nonce@, plaintext@),
        sealed@.len() == plaintext@.len() + TAG_LEN,
        aes256gcm_open(key@, nonce@, sealed@) == Some(plaintext@),
{
    let cipher = Aes256Gcm::new(Key::<Aes256Gcm>::from_slice(key));
    cipher.encrypt(Nonce::from_slice(nonce), plaintext).expect("plaintext within AES-GCM limit")
}

/// Calls `aes_gcm::Aes256Gcm::decrypt` (through `aead::Aead`) with a key and a
/// 12-byte nonce. Claimed: `Ok` exactly when the named opening is `Some`, with
/// that plaintext, which is 16 bytes shorter than the ciphertext.
#[verifier::external_body]
fn aes256gcm_decrypt(key: &[u8; 32], nonce: &[u8], ciphertext: &[u8]) -> (opened: Result<Vec<u8>, ()>)
    requires
        nonce@.len() == NONCE_LEN,
    ensures
        match opened {
            Ok(p) => aes256gcm_open(key@, nonce@, ciphertext@) == Some(p@)
                && p@.len() + TAG_LEN == ciphertext@.len(),
            Err(_) => aes256gcm_open(key@, nonce@, ciphertext@) is None,
        },
{
    let cipher = Aes256Gcm::new(Key::<Aes256Gcm>::from_slice(key));
    cipher.decrypt(Nonce::from_slice(nonce), ciphertext).map_err(|_| ())
}

/// The length of the padded base64 text of `n` bytes.
pub open spec fn base64_encoded_len(n: nat) -> nat {
    (n / 3) * 4 + if n % 3 > 0 { 4nat } else { 0nat }
}

/// Calls `base64::engine::general_purpose::STANDARD.encode`. Claimed: the
/// result is the padded standard base64 text of the bytes
/// (`base64_encoding`), and decoding it gives the bytes back. The
/// crate panics when the encoded length overflows `usize`, which `requires`
/// excludes.
#[verifier::external_body]
pub(crate) fn base64_encode(bytes: &[u8]) -> (text: String)
    requires
        base64_encoded_len(bytes@.len()) <= usize::MAX,
    ensures
        text@ == base64_encoding(bytes@),
        base64_decoding(text@) == Some(bytes@),
{
    base64::engine::general_purpose::STANDARD.encode(bytes)
}

/// Calls `base64::engine::general_purpose::STANDARD.decode` on the bytes of
/// `text`. Claimed: `Ok` exactly when the named decoding is `Some`, with those
/// bytes, which are never more than the characters of `text`. The error
/// carries the crate's message for its `DecodeError`.
#[verifier::external_body]
pub(crate) fn base64_decode(text: &str) -> (decoded: Result<Vec<u8>, String>)
    ensures
        match decoded {
            Ok(b) => base64_decoding(text@) == Some(b@) && b@.len() <= text@.len(),
            Err(_) => base64_decoding(text@) is None,
        },
{
    base64::engine::general_purpose::STANDARD.decode(text).map_err(|e| e.to_string())
}

/// Calls `argon2::Argon2::hash_password_into` on an Argon2id, version 0x13
/// hasher built with `Params::new(m_cost, t_cost, p_cost, Some(32))`.
/// Claimed: the 32 bytes written are the named output of the costs, the
/// password bytes and the salt. The crate fails (and this panics) only on
/// costs that `Params::new` rejects, salts shorter than 8 or longer than
/// 2^32 - 1 bytes and passwords longer than 2^32 - 1 bytes; `requires`
/// excludes all of them.
#[verifier::external_body]
fn argon2id_hash(m_cost: u32, t_cost: u32, p_cost: u32, password: &[u8], salt: &[u8]) -> (key: [u8; 32])
    requires
        8 <= m_cost,
        p_cost * 8 <= m_cost,
        1 <= t_cost,
        1 <= p_cost <= 0xFF_FFFF,
        password@.len() <= 0xFFFF_FFFF,
        8 <= salt@.len() <= 0xFFFF_FFFF,
    ensures
        key@ == argon2id_output(m_cost, t_cost, p_cost, password@, salt@),
{
    let params = Params::new(m_cost, t_cost, p_cost, Some(32)).expect("valid argon2 params");
    let mut key = [0u8; 32];
    Argon2::new(Algorithm::Argon2id, Version::V0x13, params)
        .hash_password_into(password, salt, &mut key)
        .expect("argon2 key derivation failed");
    key
}

/// Calls `rand::rngs::OsRng.fill_bytes`, which overwrites `buf` with bytes
/// from the operating system's generator. Claimed: the length is kept.
/// Nothing is claimed of the bytes (they are random); the crate panics if the
/// operating system has no randomness to give.
#[verifier::external_body]
fn os_random_fill(buf: &mut [u8])
    ensures
        final(buf)@.len() == old(buf)@.len(),
{
    rand::rngs::OsRng.fill_bytes(buf)
}

/// Calls `zeroize::Zeroize::zeroize` on a key array, which overwrites every
/// byte with zero.
#[verifier::external_body]
pub fn zeroize_key(key: &mut [u8; 32])
    ensures
        final(key)@ == Seq::new(32, |i: int| 0u8),
{
    key.zeroize()
}

// ---------------------------------------------------------------------------
// The blob format
// ---------------------------------------------------------------------------

/// A plaintext length that `encrypt` accepts: within the AES-GCM limit, and
/// small enough that the base64 text of the whole blob fits in memory.
pub open spec fn encryptable_len(n: nat) -> bool {
    &&& n <= AES_GCM_P_MAX
    &&& base64_encoded_len((n + NONCE_LEN + TAG_LEN) as nat) <= usize::MAX
}

/// The stored text of the blob for `plaintext` sealed under `key` with `nonce`.
pub open spec fn sealed_blob(key: Seq<u8>, nonce: Seq<u8>, plaintext: Seq<u8>) -> Seq<char> {
    base64_encoding(nonce + aes256gcm_seal(key, nonce, plaintext))
}

/// What `decrypt` gives back for a stored text: the base64 bytes split into
/// a 12-byte nonce and the sealed rest, opened under `key`.
pub open spec fn opened_blob(key: Seq<u8>, text: Seq<char>) -> Option<Seq<u8>> {
    match base64_decoding(text) {
        None => None,
        Some(blob) => if blob.len() < NONCE_LEN {
            None
        } else {
            aes256gcm_open(key, blob.take(NONCE_LEN as int), blob.skip(NONCE_LEN as int))
        },
    }
}

/// Generate a 32-byte salt from the operating system's random generator.
pub fn generate_salt() -> (salt: [u8; 32])
    ensures
        salt@.len() == 32,
{
    let mut salt = [0u8; 32];
    os_random_fill(vstd::array::ref_mut_array_unsizing_coercion(&mut salt));
    salt
}

/// Derive a 256-bit key from `password` and `salt` with Argon2id
/// (m = 65536 KiB, t = 2, p = 1).
pub fn derive_key(password: &str, salt: &[u8]) -> (key: [u8; 32])
    requires
        password.spec_bytes().len() <= 0xFFFF_FFFF,
        8 <= salt@.len() <= 0xFFFF_FFFF,
    ensures
        key@ == argon2id_output(
            ARGON2_M_COST,
            ARGON2_T_COST,
            ARGON2_P_COST,
            password.spec_bytes(),
            salt@,
        ),
{
    argon2id_hash(ARGON2_M_COST, ARGON2_T_COST, ARGON2_P_COST, password.as_bytes(), salt)
}

/// Encrypt `plaintext` under `key` with a fresh random nonce and return the
/// base64 text of `nonce || ciphertext || tag`. Encrypting the same plaintext
/// twice gives different blobs; each of them decrypts back to the plaintext.
pub fn encrypt(key: &[u8; 32], plaintext: &[u8]) -> (blob: String)
    requires
        encryptable_len(plaintext@.len()),
    ensures
        exists|nonce: Seq<u8>|
            nonce.len() == NONCE_LEN && blob@ == #[trigger] sealed_blob(key@, nonce, plaintext@),
        opened_blob(key@, blob@) == Some(plaintext@),
        match base64_decoding(blob@) {
            Some(bytes) => bytes.len() == NONCE_LEN + plaintext@.len() + TAG_LEN,
            None => false,
        },
{
    let mut nonce = [0u8; 12];
    os_random_fill(vstd::array::ref_mut_array_unsizing_coercion(&mut nonce));
    let sealed = aes256gcm_encrypt(key, &nonce, plaintext);
    let mut bytes: Vec<u8> = Vec::new();
    let mut i: usize = 0;
    while i < NONCE_LEN
        invariant
            i <= NONCE_LEN,
            nonce@.len() == NONCE_LEN,
            bytes@ == nonce@.take(i as int),
        decreases NONCE_LEN - i,
    {
        bytes.push(nonce[i]);
        i = i + 1;
        assert(bytes@ =~= nonce@.take(i as int));
    }
    let mut j: usize = 0;
    while j < sealed.len()
        invariant
            j <= sealed@.len(),
            nonce@.len() == NONCE_LEN,
            bytes@ == nonce@ + sealed@.take(j as int),
        decreases sealed@.len() - j,
    {
        bytes.push(sealed[j]);
        j = j + 1;
        assert(bytes@ =~= nonce@ + sealed@.take(j as int));
    }
    assert(nonce@.take(NONCE_LEN as int) =~= nonce@);
    assert(sealed@.take(sealed@.len() as int) =~= sealed@);
    assert(bytes@.take(NONCE_LEN as int) =~= nonce@);
    assert(bytes@.skip(NONCE_LEN as int) =~= sealed@);
    let blob = base64_encode(bytes.as_slice());
    assert(blob@ == sealed_blob(key@, nonce@, plaintext@));
    blob
}

/// Decrypt a base64 blob produced by `encrypt`.
///
/// Fails when the text is not base64, when it decodes to fewer than 12
/// bytes, or when the GCM tag does not authenticate (wrong key or tampered
/// data).
pub fn decrypt(key: &[u8; 32], blob_b64: &str) -> (result: Result<Vec<u8>, String>)
    ensures
        match result {
            Ok(p) => opened_blob(key@, blob_b64@) == Some(p@) && p@.len() <= blob_b64@.len(),
            Err(e) => opened_blob(key@, blob_b64@) is None && match base64_decoding(blob_b64@) {
                None => e@.len() >= 22 && e@.take(22) == "base64 decode failed: "@,
                Some(blob) => if blob.len() < NONCE_LEN {
                    e@ == "ciphertext blob too short"@
                } else {
                    e@ == "decryption failed — wrong key or corrupted data"@
                },
            },
        },
{
    let blob = match base64_decode(blob_b64) {
        Ok(b) => b,
        Err(e) => {
            let mut msg = String::from_str("base64 decode failed: ");
            proof { reveal_strlit("base64 decode failed: "); }
            let ghost prefix = msg@;
            msg.append(e.as_str());
            assert(msg@.take(22) =~= prefix);
            return Err(msg);
        },
    };
    if blob.len() < NONCE_LEN {
        return Err(String::from_str("ciphertext blob too short"));
    }
    let mut nonce: Vec<u8> = Vec::new();
    let mut rest: Vec<u8> = Vec::new();
    let mut i: usize = 0;
    while i < blob.len()
        invariant
            NONCE_LEN <= blob@.len(),
            i <= blob@.len(),
            i <= NONCE_LEN ==> nonce@ == blob@.take(i as int) && rest@.len() == 0,
            i > NONCE_LEN ==> nonce@ == blob@.take(NONCE_LEN as int)
                && rest@ == blob@.subrange(NONCE_LEN as int, i as int),
        decreases blob@.len() - i,
    {
        if i < NONCE_LEN {
            nonce.push(blob[i]);
            assert(nonce@ =~= blob@.take(i + 1));
        } else {
            rest.push(blob[i]);
            assert(rest@ =~= blob@.subrange(NONCE_LEN as int, i + 1));
        }
        i = i + 1;
    }
    if blob.len() == NONCE_LEN {
        assert(rest@ =~= blob@.skip(NONCE_LEN as int));
    }
    assert(rest@ =~= blob@.skip(NONCE_LEN as int));
    match aes256gcm_decrypt(key, nonce.as_slice(), rest.as_slice()) {
        Ok(p) => Ok(p),
        Err(_) => Err(String::from_str("decryption failed — wrong key or corrupted data")),
    }
}

/// The known plaintext encrypted into the sentinel: the bytes of "grimoire_ok".
pub open spec fn sentinel_plaintext() -> Seq<u8> {
    seq![103u8, 114u8, 105u8, 109u8, 111u8, 105u8, 114u8, 101u8, 95u8, 111u8, 107u8]
}

fn sentinel_bytes() -> (b: Vec<u8>)
    ensures
        b@ == sentinel_plaintext(),
{
    let b: Vec<u8> = vec![103u8, 114u8, 105u8, 109u8, 111u8, 105u8, 114u8, 101u8, 95u8, 111u8, 107u8];
    assert(b@ =~= sentinel_plaintext());
    b
}

/// Whether two byte sequences are equal.
pub fn bytes_equal(a: &[u8], b: &[u8]) -> (eq: bool)
    ensures
        eq == (a@ == b@),
{
    if a.len() != b.len() {
        return false;
    }
    let mut i: usize = 0;
    while i < a.len()
        invariant
            a@.len() == b@.len(),
            i <= a@.len(),
            a@.take(i as int) == b@.take(i as int),
        decreases a@.len() - i,
    {
        if a[i] != b[i] {
            assert(a@[i as int] != b@[i as int]);
            return false;
        }
        i = i + 1;
        assert(a@.take(i as int) =~= a@.take((i - 1) as int).push(a@[i - 1]));
        assert(b@.take(i as int) =~= b@.take((i - 1) as int).push(b@[i - 1]));
    }
    assert(a@ =~= a@.take(i as int));
    assert(b@ =~= b@.take(i as int));
    true
}

/// Produce a sentinel blob: the known plaintext encrypted under `key`.
/// Stored beside the salt so that a later password attempt can be checked.
pub fn make_sentinel(key: &[u8; 32]) -> (sentinel: String)
    ensures
        exists|nonce: Seq<u8>|
            nonce.len() == NONCE_LEN
                && sentinel@ == #[trigger] sealed_blob(key@, nonce, sentinel_plaintext()),
        opened_blob(key@, sentinel@) == Some(sentinel_plaintext()),
{
    let plain = sentinel_bytes();
    encrypt(key, plain.as_slice())
}

/// True exactly when `key` decrypts `sentinel_b64` back to the known plaintext.
pub fn verify_sentinel(key: &[u8; 32], sentinel_b64: &str) -> (ok: bool)
    ensures
        ok == (opened_blob(key@, sentinel_b64@) == Some(sentinel_plaintext())),
{
    match decrypt(key, sentinel_b64) {
        Ok(plaintext) => {
            let expected = sentinel_bytes();
            bytes_equal(plaintext.as_slice(), expected.as_slice())
        },
        Err(_) => false,
    }
}

} // verus!
