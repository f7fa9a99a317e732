//! Notes and folders as stored and as shown, and the encryption of their
//! text fields under the session keys.
//!
//! Stored rows hold either plaintext or encrypted blobs; a row maps to what
//! the frontend sees by decrypting with the key that `resolve_key` picks,
//! falling back to the raw text when decryption fails (rows written before
//! a password was set).

use vstd::prelude::*;
use vstd::utf8::*;
use vstd::string::StringSliceAdditionalSpecFns;
use vstd::string::StringExecFns;
use std::string::FromUtf8Error;

use crate::crypto::{decrypt, encrypt, encryptable_len, opened_blob};
use crate::session::{folder_is_locked, folder_locked, resolve_key, KeyStore};

verus! {

broadcast use {encode_utf8_decode_utf8, encode_utf8_valid_utf8, decode_utf8_encode_utf8};

#[verifier::external_type_specification]
#[verifier::external_body]
pub struct ExFromUtf8Error(FromUtf8Error);

/// `String::from_utf8` succeeds exactly on valid UTF-8 and then holds the
/// decoded characters.
pub assume_specification[ String::from_utf8 ](vec: Vec<u8>) -> (r: Result<String, FromUtf8Error>)
    ensures
        r is Ok <==> valid_utf8(vec@),
        r matches Ok(s) ==> s@ == decode_utf8(vec@),
;

/// Raw note row as stored. When encryption is active, `title` and `content`
/// are base64 ciphertext blobs.
pub struct NoteRow {
    pub id: i64,
    pub title: String,
    pub content: String,
    pub folder_id: Option<i64>,
    pub created_at: i64,
    pub updated_at: i64,
}

/// A note as returned to the frontend. `locked` is true when the note's
/// folder is locked and no session key is available; `title` and `content`
/// are then empty.
pub struct Note {
    pub id: i64,
    pub title: String,
    pub content: String,
    pub folder_id: Option<i64>,
    pub created_at: i64,
    pub updated_at: i64,
    pub locked: bool,
}

/// Raw folder row as stored (`locked` is the stored 0/1 column).
pub struct FolderRow {
    pub id: i64,
    pub name: String,
    pub parent_id: Option<i64>,
    pub created_at: i64,
    pub locked: i64,
}

/// A folder as returned to the frontend. `locked` is true when the folder
/// has a password and no session key is held for it.
pub struct Folder {
    pub id: i64,
    pub name: String,
    pub parent_id: Option<i64>,
    pub created_at: i64,
    pub locked: bool,
}

/// A bookmarked note: its id and (stored) title.
pub struct BookmarkEntry {
    pub note_id: i64,
    pub title: String,
}

// ---------------------------------------------------------------------------
// Specifications
// ---------------------------------------------------------------------------

/// The text that a stored field decrypts to under `key`: the blob must open
/// and its bytes must be UTF-8.
pub open spec fn decrypted_text(key: Seq<u8>, stored: Seq<char>) -> Option<Seq<char>> {
    match opened_blob(key, stored) {
        Some(bytes) => if valid_utf8(bytes) {
            Some(decode_utf8(bytes))
        } else {
            None
        },
        None => None,
    }
}

/// What a stored field shows under `key`: its decryption, or the raw text
/// when it does not decrypt.
pub open spec fn readable_text(key: Seq<u8>, stored: Seq<char>) -> Seq<char> {
    match decrypted_text(key, stored) {
        Some(t) => t,
        None => stored,
    }
}

/// What a stored field shows under an optional key.
pub open spec fn shown_text(key: Option<[u8; 32]>, stored: Seq<char>) -> Seq<char> {
    match key {
        Some(k) => readable_text(k@, stored),
        None => stored,
    }
}

/// Whether a note in `folder_id` is hidden: its folder is locked.
pub open spec fn note_hidden(folder_id: Option<i64>, folder_locked_col: bool, keys: KeyStore) -> bool {
    match folder_id {
        Some(fid) => folder_locked(fid, folder_locked_col, keys.folder_keys@),
        None => false,
    }
}

/// `row` mapped for display under `keys`, given its folder's stored lock flag.
pub open spec fn note_shown(note: Note, row: NoteRow, folder_locked_col: bool, keys: KeyStore) -> bool {
    let hidden = note_hidden(row.folder_id, folder_locked_col, keys);
    let key = keys.spec_key_for(row.folder_id);
    &&& note.id == row.id
    &&& note.folder_id == row.folder_id
    &&& note.created_at == row.created_at
    &&& note.updated_at == row.updated_at
    &&& note.locked == hidden
    &&& note.title@ == if hidden { Seq::empty() } else { shown_text(key, row.title@) }
    &&& note.content@ == if hidden { Seq::empty() } else { shown_text(key, row.content@) }
}

/// The display name of a folder: `<locked>` when locked, otherwise the
/// stored name read under the vault key.
pub open spec fn folder_name_shown(row: FolderRow, keys: KeyStore) -> Seq<char> {
    if folder_locked(row.id, row.locked != 0, keys.folder_keys@) {
        "<locked>"@
    } else {
        shown_text(keys.vault_key, row.name@)
    }
}

/// The number of UTF-8 bytes of a character sequence is at least its
/// number of characters.
pub proof fn lemma_utf8_len_at_least_chars(chars: Seq<char>)
    ensures
        chars.len() <= encode_utf8(chars).len(),
    decreases chars.len(),
{
    if chars.len() > 0 {
        lemma_utf8_len_at_least_chars(chars.drop_first());
        assert(encode_scalar(chars[0] as u32).len() >= 1);
    }
}

/// UTF-8 encoding distributes over concatenation.
pub proof fn lemma_encode_utf8_concat(a: Seq<char>, b: Seq<char>)
    ensures
        encode_utf8(a + b) == encode_utf8(a) + encode_utf8(b),
    decreases a.len(),
{
    if a.len() > 0 {
        lemma_encode_utf8_concat(a.drop_first(), b);
        assert((a + b).drop_first() =~= a.drop_first() + b);
        assert(encode_utf8(a + b) =~= encode_scalar(a[0] as u32) + encode_utf8(a.drop_first() + b));
    } else {
        assert(a + b =~= b);
    }
}

// ---------------------------------------------------------------------------
// Reading stored fields
// ---------------------------------------------------------------------------

/// Decrypt a stored field with `key`, falling back to the raw value when it
/// does not decrypt to UTF-8 text (unencrypted rows).
pub fn decrypt_folder_name(key: &[u8; 32], enc_name: String) -> (name: String)
    ensures
        name@ == readable_text(key@, enc_name@),
        encode_utf8(name@).len() <= encode_utf8(enc_name@).len(),
{
    proof { lemma_utf8_len_at_least_chars(enc_name@); }
    match decrypt(key, enc_name.as_str()) {
        Ok(bytes) => {
            let ghost b = bytes@;
            match String::from_utf8(bytes) {
                Ok(text) => {
                    assert(encode_utf8(decode_utf8(b)) == b);
                    text
                },
                Err(_) => enc_name,
            }
        },
        Err(_) => enc_name,
    }
}

/// Decrypt a note's title and content with `key`, each falling back to its
/// raw value when it does not decrypt.
pub fn decrypt_note_fields(key: &[u8; 32], enc_title: String, enc_content: String) -> (fields: (
    String,
    String,
))
    ensures
        fields.0@ == readable_text(key@, enc_title@),
        fields.1@ == readable_text(key@, enc_content@),
        encode_utf8(fields.0@).len() <= encode_utf8(enc_title@).len(),
        encode_utf8(fields.1@).len() <= encode_utf8(enc_content@).len(),
{
    let title = decrypt_folder_name(key, enc_title);
    let content = decrypt_folder_name(key, enc_content);
    (title, content)
}

/// Map a stored folder row to what the frontend sees.
pub fn map_folder_row(row: FolderRow, keys: &KeyStore) -> (folder: Folder)
    ensures
        folder.id == row.id,
        folder.parent_id == row.parent_id,
        folder.created_at == row.created_at,
        folder.locked == folder_locked(row.id, row.locked != 0, keys.folder_keys@),
        folder.name@ == folder_name_shown(row, *keys),
{
    let is_locked = folder_is_locked(row.id, row.locked != 0, keys);
    let ghost row0 = row;
    let name = if is_locked {
        proof { reveal_strlit("<locked>"); }
        String::from_str("<locked>")
    } else if let Some(key) = resolve_key(None, keys) {
        decrypt_folder_name(&key, row.name)
    } else {
        row.name
    };
    Folder {
        id: row.id,
        name,
        parent_id: row.parent_id,
        created_at: row.created_at,
        locked: is_locked,
    }
}

/// Map a stored note row to what the frontend sees, decrypting with the key
/// that `resolve_key` picks; a note in a locked folder comes back empty and
/// marked locked.
pub fn map_note_row(row: NoteRow, folder_locked_col: bool, keys: &KeyStore) -> (note: Note)
    ensures
        note_shown(note, row, folder_locked_col, *keys),
        encode_utf8(note.title@).len() <= encode_utf8(row.title@).len(),
        encode_utf8(note.content@).len() <= encode_utf8(row.content@).len(),
{
    let is_locked = match row.folder_id {
        Some(fid) => folder_is_locked(fid, folder_locked_col, keys),
        None => false,
    };
    if is_locked {
        return Note {
            id: row.id,
            title: String::new(),
            content: String::new(),
            folder_id: row.folder_id,
            created_at: row.created_at,
            updated_at: row.updated_at,
            locked: true,
        };
    }
    let (title, content) = if let Some(key) = resolve_key(row.folder_id, keys) {
        decrypt_note_fields(&key, row.title, row.content)
    } else {
        (row.title, row.content)
    };
    Note {
        id: row.id,
        title,
        content,
        folder_id: row.folder_id,
        created_at: row.created_at,
        updated_at: row.updated_at,
        locked: false,
    }
}

/// The stored lock flag of folder `fid` in a list of (id, locked) pairs:
/// the last pair for that id wins, and a missing folder counts as unlocked.
pub open spec fn folder_flag(states: Seq<(i64, bool)>, fid: i64) -> bool
    decreases states.len(),
{
    if states.len() == 0 {
        false
    } else if states.last().0 == fid {
        states.last().1
    } else {
        folder_flag(states.drop_last(), fid)
    }
}

/// The stored lock flag of folder `fid` in (id, locked) pairs.
pub fn lookup_folder_flag(states: &[(i64, bool)], fid: i64) -> (flag: bool)
    ensures
        flag == folder_flag(states@, fid),
{
    let mut j: usize = states.len();
    assert(states@.take(j as int) =~= states@);
    while j > 0
        invariant
            j <= states@.len(),
            folder_flag(states@, fid) == folder_flag(states@.take(j as int), fid),
        decreases j,
    {
        assert(states@.take(j as int).drop_last() =~= states@.take(j - 1));
        let (id, flag) = states[j - 1];
        if id == fid {
            return flag;
        }
        j = j - 1;
    }
    false
}

/// The stored lock flag of a note's folder (false for a note without folder).
pub open spec fn row_folder_flag(states: Seq<(i64, bool)>, folder_id: Option<i64>) -> bool {
    match folder_id {
        Some(fid) => folder_flag(states, fid),
        None => false,
    }
}

/// Map each stored row, looking its folder's lock flag up in `lock_states`
/// (id, locked) pairs; a folder missing from the list counts as unlocked.
pub fn map_note_rows(rows: Vec<NoteRow>, lock_states: &[(i64, bool)], keys: &KeyStore) -> (notes: Vec<Note>)
    ensures
        notes@.len() == rows@.len(),
        forall|i: int|
            0 <= i < rows@.len() ==> note_shown(
                #[trigger] notes@[i],
                rows@[i],
                row_folder_flag(lock_states@, rows@[i].folder_id),
                *keys,
            ),
{
    let ghost all = rows@;
    let mut notes: Vec<Note> = Vec::new();
    for row in it: rows
        invariant
            it.seq() == all,
            notes@.len() == it.index(),
            forall|i: int|
                0 <= i < it.index() ==> note_shown(
                    #[trigger] notes@[i],
                    all[i],
                    row_folder_flag(lock_states@, all[i].folder_id),
                    *keys,
                ),
    {
        let flag = match row.folder_id {
            Some(fid) => lookup_folder_flag(lock_states, fid),
            None => false,
        };
        notes.push(map_note_row(row, flag, keys));
    }
    notes
}

// ---------------------------------------------------------------------------
// Writing fields
// ---------------------------------------------------------------------------

/// A text whose UTF-8 bytes `encrypt` accepts.
pub open spec fn storable(text: Seq<char>) -> bool {
    encryptable_len(encode_utf8(text).len())
}

/// The stored form of `text` under an optional key: the text itself without
/// a key, an encrypted blob of its UTF-8 bytes with one. Reading the stored
/// form back under the same key gives the text.
pub fn stored_text(key: Option<[u8; 32]>, text: String) -> (stored: String)
    requires
        storable(text@),
    ensures
        key is None ==> stored@ == text@,
        key matches Some(k) ==> decrypted_text(k@, stored@) == Some(text@),
        shown_text(key, stored@) == text@,
{
    match key {
        Some(k) => {
            let bytes = text.as_str().as_bytes();
            let blob = encrypt(&k, bytes);
            assert(decode_utf8(encode_utf8(text@)) == text@);
            blob
        },
        None => text,
    }
}

/// The stored title and content of an edited note. Refused with
/// `folder_locked` while the note's folder is locked; otherwise both fields
/// are stored under the key that `resolve_key` picks for the folder.
pub fn prepare_note_update(
    folder_id: Option<i64>,
    folder_locked_col: bool,
    keys: &KeyStore,
    title: String,
    content: String,
) -> (stored: Result<(String, String), String>)
    requires
        storable(title@),
        storable(content@),
    ensures
        note_hidden(folder_id, folder_locked_col, *keys) <==> stored is Err,
        stored matches Err(e) ==> e@ == "folder_locked"@,
        stored matches Ok(fields) ==> {
            &&& shown_text(keys.spec_key_for(folder_id), fields.0@) == title@
            &&& shown_text(keys.spec_key_for(folder_id), fields.1@) == content@
            &&& keys.spec_key_for(folder_id) is None ==> fields.0@ == title@ && fields.1@ == content@
        },
{
    let locked = match folder_id {
        Some(fid) => folder_is_locked(fid, folder_locked_col, keys),
        None => false,
    };
    if locked {
        proof { reveal_strlit("folder_locked"); }
        return Err(String::from_str("folder_locked"));
    }
    let key = resolve_key(folder_id, keys);
    Ok((stored_text(key, title), stored_text(key, content)))
}

/// The stored title and content of a copy of a note: the source row read
/// under the session keys, " (copy)" appended to the title, both fields
/// stored again under the same folder's key. Refused with `note_locked`
/// while the source's folder is locked.
pub fn prepare_duplicate(src: NoteRow, folder_locked_col: bool, keys: &KeyStore) -> (stored: Result<
    (String, String),
    String,
>)
    requires
        encryptable_len(encode_utf8(src.title@).len() + 7),
        storable(src.content@),
    ensures
        note_hidden(src.folder_id, folder_locked_col, *keys) <==> stored is Err,
        stored matches Err(e) ==> e@ == "note_locked"@,
        stored matches Ok(fields) ==> {
            let key = keys.spec_key_for(src.folder_id);
            &&& shown_text(key, fields.0@) == shown_text(key, src.title@) + " (copy)"@
            &&& shown_text(key, fields.1@) == shown_text(key, src.content@)
        },
{
    let locked = match src.folder_id {
        Some(fid) => folder_is_locked(fid, folder_locked_col, keys),
        None => false,
    };
    if locked {
        proof { reveal_strlit("note_locked"); }
        return Err(String::from_str("note_locked"));
    }
    let folder_id = src.folder_id;
    let source = map_note_row(src, folder_locked_col, keys);
    let mut new_title = source.title;
    let ghost shown_title = new_title@;
    proof { reveal_strlit(" (copy)"); }
    new_title.append(" (copy)");
    proof {
        lemma_encode_utf8_concat(shown_title, " (copy)"@);
        assert(is_ascii_chars(" (copy)"@));
        is_ascii_chars_encode_utf8(" (copy)"@);
    }
    let key = resolve_key(folder_id, keys);
    Ok((stored_text(key, new_title), stored_text(key, source.content)))
}

/// The stored form of `text` for a note in `folder_id`: stored under the
/// key that `resolve_key` picks for that folder.
pub fn store_for_folder(folder_id: Option<i64>, keys: &KeyStore, text: String) -> (stored: String)
    requires
        storable(text@),
    ensures
        shown_text(keys.spec_key_for(folder_id), stored@) == text@,
        keys.spec_key_for(folder_id) is None ==> stored@ == text@,
{
    let key = resolve_key(folder_id, keys);
    stored_text(key, text)
}

/// Map note rows that carry their folder's stored lock column.
pub fn map_rows_with_lock(rows: Vec<(NoteRow, i64)>, keys: &KeyStore) -> (notes: Vec<Note>)
    ensures
        notes@.len() == rows@.len(),
        forall|i: int|
            0 <= i < rows@.len() ==> note_shown(#[trigger] notes@[i], rows@[i].0, rows@[i].1 != 0, *keys),
{
    let ghost all = rows@;
    let mut notes: Vec<Note> = Vec::new();
    for pair in it: rows
        invariant
            it.seq() == all,
            notes@.len() == it.index(),
            forall|i: int|
                0 <= i < it.index() ==> note_shown(#[trigger] notes@[i], all[i].0, all[i].1 != 0, *keys),
    {
        let (row, locked) = pair;
        notes.push(map_note_row(row, locked != 0, keys));
    }
    notes
}

/// Refuse to make a folder its own parent.
pub fn check_own_parent(id: i64, new_parent: i64) -> (checked: Result<(), String>)
    ensures
        checked is Err <==> new_parent == id,
        checked matches Err(e) ==> e@ == "A folder cannot be its own parent"@,
{
    if new_parent == id {
        Err(String::from_str("A folder cannot be its own parent"))
    } else {
        Ok(())
    }
}

/// Refuse to move a folder into one of its descendants (the ids of its
/// subtree other than itself).
pub fn check_not_descendant(new_parent: i64, descendants: &[i64]) -> (checked: Result<(), String>)
    ensures
        checked is Err <==> descendants@.contains(new_parent),
        checked matches Err(e) ==> e@ == "Cannot move a folder into one of its own descendants"@,
{
    let mut i: usize = 0;
    while i < descendants.len()
        invariant
            i <= descendants@.len(),
            forall|j: int| 0 <= j < i ==> descendants@[j] != new_parent,
        decreases descendants@.len() - i,
    {
        if descendants[i] == new_parent {
            assert(descendants@[i as int] == new_parent);
            return Err(String::from_str("Cannot move a folder into one of its own descendants"));
        }
        i = i + 1;
    }
    Ok(())
}

// ---------------------------------------------------------------------------
// The folder tree
// ---------------------------------------------------------------------------

/// The `n`-th ancestor of folder `x` by the parent links `parent` (folder
/// id to parent id): `x` itself for 0, `None` once a link runs out.
pub open spec fn ancestor_at(parent: Map<i64, Option<i64>>, x: i64, n: nat) -> Option<i64>
    decreases n,
{
    if n == 0 {
        Some(x)
    } else {
        match ancestor_at(parent, x, (n - 1) as nat) {
            Some(a) => if parent.contains_key(a) {
                parent[a]
            } else {
                None
            },
            None => None,
        }
    }
}

/// Whether folder `d` lies in the subtree of folder `a`, below `a` itself.
pub open spec fn is_descendant(parent: Map<i64, Option<i64>>, d: i64, a: i64) -> bool {
    exists|n: nat| n >= 1 && #[trigger] ancestor_at(parent, d, n) == Some(a)
}

/// Whether the parent links form no cycle: no folder is its own ancestor.
pub open spec fn acyclic(parent: Map<i64, Option<i64>>) -> bool {
    forall|x: i64, n: nat| n >= 1 ==> #[trigger] ancestor_at(parent, x, n) != Some(x)
}

/// Walking on from the `k`-th ancestor is walking from the start.
proof fn lemma_ancestor_shift(parent: Map<i64, Option<i64>>, x: i64, k: nat, a: i64, m: nat)
    requires
        ancestor_at(parent, x, k) == Some(a),
    ensures
        ancestor_at(parent, x, k + m) == ancestor_at(parent, a, m),
    decreases m,
{
    if m > 0 {
        lemma_ancestor_shift(parent, x, k, a, (m - 1) as nat);
        assert(ancestor_at(parent, x, k + m) == match ancestor_at(parent, x, (k + m - 1) as nat) {
            Some(b) => if parent.contains_key(b) { parent[b] } else { None },
            None => None,
        });
    }
}

/// A walk that has run out stays out.
proof fn lemma_ancestor_none(parent: Map<i64, Option<i64>>, x: i64, k: nat, m: nat)
    requires
        ancestor_at(parent, x, k) is None,
    ensures
        ancestor_at(parent, x, k + m) is None,
    decreases m,
{
    if m > 0 {
        lemma_ancestor_none(parent, x, k, (m - 1) as nat);
        assert(ancestor_at(parent, x, k + m) == match ancestor_at(parent, x, (k + m - 1) as nat) {
            Some(b) => if parent.contains_key(b) { parent[b] } else { None },
            None => None,
        });
    }
}

/// A walk that does not pass through `id` is the same after `id`'s link
/// changes.
proof fn lemma_ancestor_avoids(parent: Map<i64, Option<i64>>, id: i64, np: Option<i64>, x: i64, k: nat)
    requires
        forall|i: nat| i < k ==> ancestor_at(parent.insert(id, np), x, i) != Some(id),
    ensures
        ancestor_at(parent.insert(id, np), x, k) == ancestor_at(parent, x, k),
    decreases k,
{
    if k > 0 {
        lemma_ancestor_avoids(parent, id, np, x, (k - 1) as nat);
        assert(ancestor_at(parent.insert(id, np), x, (k - 1) as nat) != Some(id));
    }
}

/// The first step at which a walk reaches `id`, given that it does by `m`.
proof fn lemma_first_hit(parent: Map<i64, Option<i64>>, y: i64, id: i64, m: nat) -> (j: nat)
    requires
        ancestor_at(parent, y, m) == Some(id),
    ensures
        j <= m,
        ancestor_at(parent, y, j) == Some(id),
        forall|i: nat| i < j ==> ancestor_at(parent, y, i) != Some(id),
    decreases m,
{
    if exists|i: nat| i < m && ancestor_at(parent, y, i) == Some(id) {
        let i = choose|i: nat| i < m && ancestor_at(parent, y, i) == Some(id);
        lemma_first_hit(parent, y, id, i)
    } else {
        m
    }
}

/// Moving a folder under a new parent keeps the folder tree free of
/// cycles, provided the move passes the checks of `move_folder`: the new
/// parent is not the folder itself (`check_own_parent`) and not one of the
/// folder's descendants (`check_not_descendant`, given the ids of its
/// subtree below it). Only the moved folder's link changes.
pub proof fn law_move_keeps_tree_acyclic(
    parent: Map<i64, Option<i64>>,
    id: i64,
    new_parent: Option<i64>,
    descendants: Seq<i64>,
)
    requires
        acyclic(parent),
        parent.contains_key(id),
        forall|d: i64| #[trigger] descendants.contains(d) <==> is_descendant(parent, d, id),
        new_parent matches Some(t) ==> t != id && !descendants.contains(t),
    ensures
        acyclic(parent.insert(id, new_parent)),
{
    let q = parent.insert(id, new_parent);
    assert forall|x: i64, n: nat| n >= 1 implies #[trigger] ancestor_at(q, x, n) != Some(x) by {
        if ancestor_at(q, x, n) == Some(x) {
            if exists|k: nat| k < n && ancestor_at(q, x, k) == Some(id) {
                let k = choose|k: nat| k < n && ancestor_at(q, x, k) == Some(id);
                // The cycle through x passes through id: id is its own ancestor in q.
                lemma_ancestor_shift(q, x, n, x, k);
                lemma_ancestor_shift(q, x, k, id, n);
                assert(ancestor_at(q, id, n) == Some(id));
                assert(ancestor_at(q, id, 1) == new_parent) by {
                    assert(ancestor_at(q, id, 0) == Some(id));
                }
                match new_parent {
                    None => {
                        lemma_ancestor_none(q, id, 1, (n - 1) as nat);
                    },
                    Some(t) => {
                        lemma_ancestor_shift(q, id, 1, t, (n - 1) as nat);
                        assert(ancestor_at(q, t, (n - 1) as nat) == Some(id));
                        let j = lemma_first_hit(q, t, id, (n - 1) as nat);
                        lemma_ancestor_avoids(parent, id, new_parent, t, j);
                        assert(ancestor_at(parent, t, j) == Some(id));
                        assert(j >= 1);
                        assert(is_descendant(parent, t, id));
                        assert(descendants.contains(t));
                    },
                }
            } else {
                lemma_ancestor_avoids(parent, id, new_parent, x, n);
                assert(ancestor_at(parent, x, n) == Some(x));
            }
        }
    }
}

} // verus!
