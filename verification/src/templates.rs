//! Note templates: the built-in ones (negative ids, never edited, deleted
//! or synced), the property specs a template seeds into a folder, and the
//! summaries of template syncs.

use vstd::prelude::*;
use vstd::string::StringExecFns;

use crate::numbers::{push_signed_decimal, signed_decimal};
use crate::properties::{is_property_type, is_valid_property_type};
use crate::text::string_from_chars;

verus! {

/// A property a template seeds into the folders it is applied to.
pub struct TemplatePropertySpec {
    pub name: String,
    /// One of the property types; other specs are skipped when applied.
    pub prop_type: String,
    /// The choices of a `select` property, as a JSON array.
    pub options: Option<String>,
}

/// A note template. Built-in templates have negative ids and are read-only.
pub struct Template {
    pub id: i64,
    pub name: String,
    pub title: String,
    pub content: String,
    pub builtin: bool,
    /// Property specs seeded by the template (none for built-ins).
    pub properties: Vec<TemplatePropertySpec>,
}

/// The text of the built-in meeting template.
pub open spec fn meeting_notes_text() -> Seq<char> {
    "# Meeting Notes\n\n**Date:** \n**Attendees:** \n\n## Agenda\n\n- \n\n## Notes\n\n## Action Items\n\n- [ ] "@
}

/// The text of the built-in journal template.
pub open spec fn journal_text() -> Seq<char> {
    "# \n\n**Mood:** \n**Energy:** \n\n## Today\n\n## Goals\n\n- "@
}

/// The text of the built-in book template.
pub open spec fn book_notes_text() -> Seq<char> {
    "# \n\n**Author:** \n\n## Key Ideas\n\n## Quotes\n\n## Takeaways\n\n"@
}

/// Whether `t` is built-in template `id` with the given name, title and text.
pub open spec fn is_builtin(t: Template, id: int, name: Seq<char>, title: Seq<char>, content: Seq<char>) -> bool {
    &&& t.id == id
    &&& t.name@ == name
    &&& t.title@ == title
    &&& t.content@ == content
    &&& t.builtin
    &&& t.properties@.len() == 0
}

/// A built-in template.
fn builtin(id: i64, name: &str, title: &str, content: &str) -> (t: Template)
    ensures
        is_builtin(t, id as int, name@, title@, content@),
{
    Template {
        id,
        name: String::from_str(name),
        title: String::from_str(title),
        content: String::from_str(content),
        builtin: true,
        properties: Vec::new(),
    }
}

/// The built-in templates: Blank, Meeting Notes, Daily Journal and Book
/// Notes, with ids -1 to -4.
pub fn builtin_templates() -> (ts: Vec<Template>)
    ensures
        ts@.len() == 4,
        is_builtin(ts@[0], -1, "Blank"@, ""@, ""@),
        is_builtin(ts@[1], -2, "Meeting Notes"@, "Meeting Notes"@, meeting_notes_text()),
        is_builtin(ts@[2], -3, "Daily Journal"@, "Journal"@, journal_text()),
        is_builtin(ts@[3], -4, "Book Notes"@, "Book Notes"@, book_notes_text()),
{
    let mut ts: Vec<Template> = Vec::new();
    ts.push(builtin(-1, "Blank", "", ""));
    ts.push(
        builtin(
            -2,
            "Meeting Notes",
            "Meeting Notes",
            "# Meeting Notes\n\n**Date:** \n**Attendees:** \n\n## Agenda\n\n- \n\n## Notes\n\n## Action Items\n\n- [ ] ",
        ),
    );
    ts.push(
        builtin(
            -3,
            "Daily Journal",
            "Journal",
            "# \n\n**Mood:** \n**Energy:** \n\n## Today\n\n## Goals\n\n- ",
        ),
    );
    ts.push(
        builtin(
            -4,
            "Book Notes",
            "Book Notes",
            "# \n\n**Author:** \n\n## Key Ideas\n\n## Quotes\n\n## Takeaways\n\n",
        ),
    );
    ts
}

/// A user template read from storage (never built-in).
pub fn user_template(
    id: i64,
    name: String,
    title: String,
    content: String,
    properties: Vec<TemplatePropertySpec>,
) -> (t: Template)
    ensures
        t.id == id,
        t.name == name,
        t.title == title,
        t.content == content,
        !t.builtin,
        t.properties == properties,
{
    Template { id, name, title, content, builtin: false, properties }
}

/// All templates: the built-ins first, then the user templates in order.
pub fn all_templates(user: Vec<Template>) -> (ts: Vec<Template>)
    ensures
        ts@.len() == 4 + user@.len(),
        is_builtin(ts@[0], -1, "Blank"@, ""@, ""@),
        is_builtin(ts@[1], -2, "Meeting Notes"@, "Meeting Notes"@, meeting_notes_text()),
        is_builtin(ts@[2], -3, "Daily Journal"@, "Journal"@, journal_text()),
        is_builtin(ts@[3], -4, "Book Notes"@, "Book Notes"@, book_notes_text()),
        ts@.skip(4) == user@,
{
    let mut ts = builtin_templates();
    let ghost b = ts@;
    let mut user = user;
    ts.append(&mut user);
    assert(ts@.skip(4) =~= ts@.subrange(4, ts@.len() as int));
    ts
}

/// Whether a template id names a built-in template.
pub open spec fn builtin_id(id: i64) -> bool {
    id <= 0
}

/// Refuse to edit a built-in template.
pub fn check_template_editable(id: i64) -> (checked: Result<(), String>)
    ensures
        checked is Err <==> builtin_id(id),
        checked matches Err(e) ==> e@ == "Built-in templates cannot be edited."@,
{
    if id <= 0 {
        Err(String::from_str("Built-in templates cannot be edited."))
    } else {
        Ok(())
    }
}

/// Refuse to delete a built-in template.
pub fn check_template_deletable(id: i64) -> (checked: Result<(), String>)
    ensures
        checked is Err <==> builtin_id(id),
        checked matches Err(e) ==> e@ == "Built-in templates cannot be deleted."@,
{
    if id <= 0 {
        Err(String::from_str("Built-in templates cannot be deleted."))
    } else {
        Ok(())
    }
}

/// Refuse to apply a built-in template to a folder.
pub fn check_folder_sync(id: i64) -> (checked: Result<(), String>)
    ensures
        checked is Err <==> builtin_id(id),
        checked matches Err(e) ==> e@ == "Built-in templates cannot be synced to a folder."@,
{
    if id <= 0 {
        Err(String::from_str("Built-in templates cannot be synced to a folder."))
    } else {
        Ok(())
    }
}

/// The answer a sync of a built-in template gets at once, before anything
/// is read; `None` for a user template.
pub fn builtin_sync_notice(id: i64) -> (notice: Option<String>)
    ensures
        notice is Some <==> builtin_id(id),
        notice matches Some(n) ==> n@ == "Built-in templates cannot be synced."@,
{
    if id <= 0 {
        Some(String::from_str("Built-in templates cannot be synced."))
    } else {
        None
    }
}

/// The property specs of a template that was looked up, or the
/// `Template not found.` message.
pub fn found_specs(specs: Option<Vec<TemplatePropertySpec>>) -> (found: Result<Vec<TemplatePropertySpec>, String>)
    ensures
        match specs {
            Some(v) => found == Ok::<Vec<TemplatePropertySpec>, String>(v),
            None => found matches Err(e) && e@ == "Template not found."@,
        },
{
    match specs {
        Some(v) => Ok(v),
        None => Err(String::from_str("Template not found.")),
    }
}

/// The positions of the specs with a valid property type, in order:
/// the others are skipped when a template is applied.
pub open spec fn applicable_positions(specs: Seq<TemplatePropertySpec>) -> Seq<int>
    decreases specs.len(),
{
    if specs.len() == 0 {
        Seq::empty()
    } else {
        let prev = applicable_positions(specs.drop_last());
        if is_property_type(specs.last().prop_type@) {
            prev.push(specs.len() - 1)
        } else {
            prev
        }
    }
}

/// The positions of the specs that are applied.
pub fn applicable_specs(specs: &Vec<TemplatePropertySpec>) -> (positions: Vec<usize>)
    ensures
        positions@.len() == applicable_positions(specs@).len(),
        forall|k: int|
            0 <= k < positions@.len() ==> #[trigger] positions@[k] as int == applicable_positions(
                specs@,
            )[k],
{
    let mut positions: Vec<usize> = Vec::new();
    let mut i: usize = 0;
    while i < specs.len()
        invariant
            i <= specs@.len(),
            positions@.len() == applicable_positions(specs@.take(i as int)).len(),
            forall|k: int|
                0 <= k < positions@.len() ==> #[trigger] positions@[k] as int
                    == applicable_positions(specs@.take(i as int))[k],
        decreases specs@.len() - i,
    {
        assert(specs@.take(i + 1).drop_last() =~= specs@.take(i as int));
        if is_valid_property_type(specs[i].prop_type.as_str()) {
            positions.push(i);
        }
        i = i + 1;
    }
    assert(specs@.take(i as int) =~= specs@);
    positions
}

/// The seeded-row total after one more property: the rows a statement added.
pub fn add_seeded(total: i64, rows_affected: u64) -> (sum: i64)
    requires
        total + rows_affected <= i64::MAX,
        rows_affected <= i64::MAX,
    ensures
        sum == total + rows_affected,
{
    total + rows_affected as i64
}

/// The summary of a template sync over its folders.
pub open spec fn sync_summary_of(folders: i64, notes: i64) -> Seq<char> {
    "Synced "@ + signed_decimal(folders as int) + " folder(s), "@ + signed_decimal(notes as int)
        + " note(s) updated."@
}

/// Summarise a template sync: the folders synced and the note values seeded.
pub fn sync_summary(folders: i64, notes: i64) -> (summary: String)
    ensures
        summary@ == sync_summary_of(folders, notes),
{
    let mut out: Vec<char> = crate::text::chars_of("Synced ");
    push_signed_decimal(&mut out, folders);
    let mid = crate::text::chars_of(" folder(s), ");
    crate::text::extend_chars(&mut out, mid.as_slice());
    push_signed_decimal(&mut out, notes);
    let tail = crate::text::chars_of(" note(s) updated.");
    crate::text::extend_chars(&mut out, tail.as_slice());
    assert(out@ =~= sync_summary_of(folders, notes));
    string_from_chars(out.as_slice())
}

/// The summary of a template applied to one folder.
pub open spec fn apply_summary_of(seeded: i64) -> Seq<char> {
    "Applied template to folder. "@ + signed_decimal(seeded as int) + " note(s) updated."@
}

/// Summarise a template applied to a folder: the note values seeded.
pub fn apply_summary(seeded: i64) -> (summary: String)
    ensures
        summary@ == apply_summary_of(seeded),
{
    let mut out: Vec<char> = crate::text::chars_of("Applied template to folder. ");
    push_signed_decimal(&mut out, seeded);
    let tail = crate::text::chars_of(" note(s) updated.");
    crate::text::extend_chars(&mut out, tail.as_slice());
    assert(out@ =~= apply_summary_of(seeded));
    string_from_chars(out.as_slice())
}

} // verus!
