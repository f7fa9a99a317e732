//! The session key store: keys derived from passwords live here for the
//! duration of a session only and are never persisted.
//!
//! `vault_key` is present once the vault password has been entered;
//! `folder_keys` maps a folder id to the key of each unlocked folder.
//! A folder key takes priority over the vault key.

use vstd::prelude::*;
use std::collections::HashMap;

use crate::crypto::zeroize_key;

verus! {

broadcast use vstd::std_specs::hash::group_hash_axioms;

/// In-memory store for derived encryption keys.
pub struct KeyStore {
    pub vault_key: Option<[u8; 32]>,
    pub folder_keys: HashMap<i64, [u8; 32]>,
}

/// The key that protects a note in folder `folder_id`: the folder's session
/// key when there is one, otherwise the vault key, otherwise none.
pub open spec fn key_for(
    folder_id: Option<i64>,
    vault_key: Option<[u8; 32]>,
    folder_keys: Map<i64, [u8; 32]>,
) -> Option<[u8; 32]> {
    match folder_id {
        Some(fid) => if folder_keys.contains_key(fid) {
            Some(folder_keys[fid])
        } else {
            vault_key
        },
        None => vault_key,
    }
}

/// A folder is locked when it has a password (`locked_col`) and no session
/// key is held for it.
pub open spec fn folder_locked(
    folder_id: i64,
    locked_col: bool,
    folder_keys: Map<i64, [u8; 32]>,
) -> bool {
    locked_col && !folder_keys.contains_key(folder_id)
}

impl KeyStore {
    /// The key for notes in `folder_id`, per `key_for`.
    pub open spec fn spec_key_for(&self, folder_id: Option<i64>) -> Option<[u8; 32]> {
        key_for(folder_id, self.vault_key, self.folder_keys@)
    }

    /// An empty store: no vault key, no folder keys.
    pub fn new() -> (keys: KeyStore)
        ensures
            keys.vault_key is None,
            keys.folder_keys@ == Map::<i64, [u8; 32]>::empty(),
    {
        KeyStore { vault_key: None, folder_keys: HashMap::new() }
    }
}

/// Resolve the active encryption key for a note given its folder id.
/// Priority: folder key, then vault key, then none (plaintext).
pub fn resolve_key(folder_id: Option<i64>, keys: &KeyStore) -> (key: Option<[u8; 32]>)
    ensures
        key == keys.spec_key_for(folder_id),
{
    if let Some(fid) = folder_id {
        if let Some(k) = keys.folder_keys.get(&fid) {
            return Some(*k);
        }
    }
    keys.vault_key
}

/// True when the folder has a password and no session key is held for it.
pub fn folder_is_locked(folder_id: i64, folder_locked_col: bool, keys: &KeyStore) -> (locked: bool)
    ensures
        locked == folder_locked(folder_id, folder_locked_col, keys.folder_keys@),
{
    if !folder_locked_col {
        return false;
    }
    !keys.folder_keys.contains_key(&folder_id)
}

/// Whether the vault is locked: it has a password and its key is not held.
pub fn vault_is_locked(has_password: bool, keys: &KeyStore) -> (locked: bool)
    ensures
        locked == (has_password && keys.vault_key is None),
{
    has_password && keys.vault_key.is_none()
}

/// Hold `key` as the vault key for this session (a successful unlock, or a
/// new vault password). A key held before is zeroed first.
pub fn store_vault_key(keys: &mut KeyStore, key: [u8; 32])
    ensures
        final(keys).vault_key == Some(key),
        final(keys).folder_keys@ == old(keys).folder_keys@,
{
    if let Some(old_key) = &mut keys.vault_key {
        zeroize_key(old_key);
    }
    keys.vault_key = Some(key);
}

/// Lock the vault: zero the held vault key and drop it.
pub fn clear_vault_key(keys: &mut KeyStore)
    ensures
        final(keys).vault_key is None,
        final(keys).folder_keys@ == old(keys).folder_keys@,
{
    if let Some(old_key) = &mut keys.vault_key {
        zeroize_key(old_key);
    }
    keys.vault_key = None;
}

/// Hold `key` as the session key of folder `folder_id` (a successful unlock).
pub fn store_folder_key(keys: &mut KeyStore, folder_id: i64, key: [u8; 32])
    ensures
        final(keys).folder_keys@ == old(keys).folder_keys@.insert(folder_id, key),
        final(keys).vault_key == old(keys).vault_key,
{
    keys.folder_keys.insert(folder_id, key);
}

/// Lock folder `folder_id` for this session: its key is overwritten with
/// zeros and removed.
pub fn clear_folder_key(keys: &mut KeyStore, folder_id: i64)
    ensures
        final(keys).folder_keys@ == old(keys).folder_keys@.remove(folder_id),
        final(keys).vault_key == old(keys).vault_key,
{
    if keys.folder_keys.contains_key(&folder_id) {
        keys.folder_keys.insert(folder_id, [0u8; 32]);
        keys.folder_keys.remove(&folder_id);
        assert(keys.folder_keys@ =~= old(keys).folder_keys@.remove(folder_id));
    } else {
        assert(keys.folder_keys@ =~= old(keys).folder_keys@.remove(folder_id));
    }
}

/// Once a folder key is held, notes in that folder resolve to it, whatever
/// the vault key, and the folder no longer counts as locked.
pub proof fn law_unlocked_folder_uses_its_key(
    vault_key: Option<[u8; 32]>,
    folder_keys: Map<i64, [u8; 32]>,
    folder_id: i64,
    key: [u8; 32],
    locked_col: bool,
)
    ensures
        key_for(Some(folder_id), vault_key, folder_keys.insert(folder_id, key)) == Some(key),
        !folder_locked(folder_id, locked_col, folder_keys.insert(folder_id, key)),
{
}

/// Once a folder key is dropped, a folder with a password is locked again
/// and its notes fall back to the vault key.
pub proof fn law_locked_folder_falls_back(
    vault_key: Option<[u8; 32]>,
    folder_keys: Map<i64, [u8; 32]>,
    folder_id: i64,
)
    ensures
        folder_locked(folder_id, true, folder_keys.remove(folder_id)),
        key_for(Some(folder_id), vault_key, folder_keys.remove(folder_id)) == vault_key,
{
}

/// A folder without a password is never locked.
pub proof fn law_unprotected_folder_never_locked(folder_id: i64, folder_keys: Map<i64, [u8; 32]>)
    ensures
        !folder_locked(folder_id, false, folder_keys),
{
}

/// Locking or unlocking one folder leaves the key of every other folder as it was.
pub proof fn law_folder_keys_independent(
    vault_key: Option<[u8; 32]>,
    folder_keys: Map<i64, [u8; 32]>,
    folder_id: i64,
    other: i64,
    key: [u8; 32],
)
    requires
        other != folder_id,
    ensures
        key_for(Some(other), vault_key, folder_keys.insert(folder_id, key))
            == key_for(Some(other), vault_key, folder_keys),
        key_for(Some(other), vault_key, folder_keys.remove(folder_id))
            == key_for(Some(other), vault_key, folder_keys),
{
}

} // verus!
