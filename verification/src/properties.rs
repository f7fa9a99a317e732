//! Folder property schemas: the property types a column can have, where a
//! new column goes, and the notes of a folder's table view.

use vstd::prelude::*;
use vstd::string::StringExecFns;

use crate::notes::{map_note_row, note_shown, Note, NoteRow};
use crate::session::KeyStore;
use crate::text::str_eq;

verus! {

/// A property column of a folder.
pub struct PropertyDef {
    pub id: i64,
    pub folder_id: i64,
    pub name: String,
    /// One of `text`, `number`, `date`, `boolean`, `select`.
    pub prop_type: String,
    /// The choices of a `select` column, as a JSON array.
    pub options: Option<String>,
    pub position: i64,
}

/// A property value of a note, with its column's name, type and options.
/// `value` is `None` when the note has no value for the column.
pub struct NoteProperty {
    pub def_id: i64,
    pub name: String,
    pub prop_type: String,
    pub options: Option<String>,
    pub value: Option<String>,
}

/// A note of a folder's table view with its property values.
pub struct NoteWithProperties {
    pub id: i64,
    pub title: String,
    pub folder_id: Option<i64>,
    pub created_at: i64,
    pub updated_at: i64,
    pub properties: Vec<NoteProperty>,
}

/// The property types a column can have.
pub open spec fn is_property_type(t: Seq<char>) -> bool {
    t == "text"@ || t == "number"@ || t == "date"@ || t == "boolean"@ || t == "select"@
}

/// Whether `t` is a property type.
pub fn is_valid_property_type(t: &str) -> (valid: bool)
    ensures
        valid == is_property_type(t@),
{
    str_eq(t, "text") || str_eq(t, "number") || str_eq(t, "date") || str_eq(t, "boolean") || str_eq(
        t,
        "select",
    )
}

/// Accept a property type, or refuse it with `Invalid property type: <t>`.
pub fn check_property_type(t: &str) -> (checked: Result<(), String>)
    ensures
        checked is Ok <==> is_property_type(t@),
        checked matches Err(e) ==> e@ == "Invalid property type: "@ + t@,
{
    if is_valid_property_type(t) {
        Ok(())
    } else {
        let mut msg = String::from_str("Invalid property type: ");
        proof {
            reveal_strlit("Invalid property type: ");
        }
        msg.append(t);
        Err(msg)
    }
}

/// The position of a new column: one past the largest position in the
/// folder, 0 for the first column.
pub fn next_position(max_position: Option<i64>) -> (position: i64)
    requires
        max_position != Some(i64::MAX),
    ensures
        position == match max_position {
            Some(m) => m + 1,
            None => 0,
        },
{
    match max_position {
        Some(m) => m + 1,
        None => 0,
    }
}

/// Whether a folder's stored lock column (missing folder: 0) marks it as
/// password-protected.
pub fn stored_flag(locked: Option<i64>) -> (flag: bool)
    ensures
        flag == (locked matches Some(v) && v != 0),
{
    match locked {
        Some(v) => v != 0,
        None => false,
    }
}

/// The rows of a folder whose notes are not hidden by a lock.
pub open spec fn unhidden_rows(rows: Seq<NoteRow>, folder_locked_col: bool, keys: KeyStore) -> Seq<NoteRow> {
    rows.filter(|r: NoteRow| !crate::notes::note_hidden(r.folder_id, folder_locked_col, keys))
}

/// The notes of a folder for its table view: each row mapped under the
/// session keys with the folder's stored lock flag, the locked ones left out.
pub fn table_notes(rows: Vec<NoteRow>, folder_locked_col: bool, keys: &KeyStore) -> (notes: Vec<Note>)
    ensures
        notes@.len() == unhidden_rows(rows@, folder_locked_col, *keys).len(),
        forall|i: int|
            0 <= i < notes@.len() ==> note_shown(
                #[trigger] notes@[i],
                unhidden_rows(rows@, folder_locked_col, *keys)[i],
                folder_locked_col,
                *keys,
            ),
{
    let ghost all = rows@;
    let mut notes: Vec<Note> = Vec::new();
    for row in it: rows
        invariant
            it.seq() == all,
            notes@.len() == unhidden_rows(all.take(it.index() as int), folder_locked_col, *keys).len(),
            forall|i: int|
                0 <= i < notes@.len() ==> note_shown(
                    #[trigger] notes@[i],
                    unhidden_rows(all.take(it.index() as int), folder_locked_col, *keys)[i],
                    folder_locked_col,
                    *keys,
                ),
    {
        let ghost k = it.index();
        let ghost before = unhidden_rows(all.take(k as int), folder_locked_col, *keys);
        assert(all.take(k + 1).drop_last() =~= all.take(k as int));
        reveal_with_fuel(Seq::filter, 1);
        let ghost r = row;
        assert(r == all[k as int]);
        let note = map_note_row(row, folder_locked_col, keys);
        if !note.locked {
            assert(unhidden_rows(all.take(k + 1), folder_locked_col, *keys) == before.push(r));
            notes.push(note);
        } else {
            assert(unhidden_rows(all.take(k + 1), folder_locked_col, *keys) == before);
        }
    }
    assert(all.take(all.len() as int) =~= all);
    notes
}

/// A note of the table view with its property values.
pub fn with_properties(note: Note, properties: Vec<NoteProperty>) -> (row: NoteWithProperties)
    ensures
        row.id == note.id,
        row.title == note.title,
        row.folder_id == note.folder_id,
        row.created_at == note.created_at,
        row.updated_at == note.updated_at,
        row.properties == properties,
{
    NoteWithProperties {
        id: note.id,
        title: note.title,
        folder_id: note.folder_id,
        created_at: note.created_at,
        updated_at: note.updated_at,
        properties,
    }
}

} // verus!
