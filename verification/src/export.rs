//! Markdown export: safe file and directory names, the dated export folder,
//! and where each exported note goes.

use vstd::prelude::*;

use crate::notes::{folder_name_shown, map_folder_row, FolderRow};
use crate::numbers::{decimal, push_decimal, push_padded_decimal, push_signed_decimal, signed_decimal, zero_padded};
use crate::session::{folder_locked, KeyStore};
use crate::text::{chars_of, extend_chars, string_from_chars, trim, trim_chars};

verus! {

/// Characters that no file system accepts in a name become `-`.
pub open spec fn path_char(c: char) -> char {
    if c == '/' || c == '\\' || c == ':' || c == '*' || c == '?' || c == '"' || c == '<' || c == '>'
        || c == '|' || c == '\0' {
        '-'
    } else {
        c
    }
}

/// `s` with each run of spaces, and each run of dashes, cut to one.
pub open spec fn collapse_runs(s: Seq<char>) -> Seq<char>
    decreases s.len(),
{
    if s.len() == 0 {
        Seq::empty()
    } else {
        let prev = collapse_runs(s.drop_last());
        let c = s.last();
        if (c == ' ' || c == '-') && prev.len() > 0 && prev.last() == c {
            prev
        } else {
            prev.push(c)
        }
    }
}

/// `s` as a safe path component: illegal characters replaced by `-`, runs
/// of spaces and of dashes collapsed to one, white space trimmed.
pub open spec fn safe_component(s: Seq<char>) -> Seq<char> {
    trim(collapse_runs(s.map_values(|c: char| path_char(c))))
}

/// Make `s` safe as a file or directory name on Windows, macOS and Linux.
pub fn sanitise_path_component(s: &str) -> (safe: String)
    ensures
        safe@ == safe_component(s@),
{
    let cs = chars_of(s);
    let ghost mapped = s@.map_values(|c: char| path_char(c));
    let mut out: Vec<char> = Vec::new();
    let mut i: usize = 0;
    while i < cs.len()
        invariant
            i <= cs@.len(),
            cs@ == s@,
            mapped == s@.map_values(|c: char| path_char(c)),
            out@ == collapse_runs(mapped.take(i as int)),
        decreases cs@.len() - i,
    {
        let c = cs[i];
        let m = if c == '/' || c == '\\' || c == ':' || c == '*' || c == '?' || c == '"' || c == '<'
            || c == '>' || c == '|' || c == '\0' {
            '-'
        } else {
            c
        };
        assert(mapped.take(i + 1).drop_last() =~= mapped.take(i as int));
        assert(mapped.take(i + 1).last() == m);
        let n = out.len();
        if (m == ' ' || m == '-') && n > 0 && out[n - 1] == m {
        } else {
            out.push(m);
        }
        i = i + 1;
    }
    assert(mapped.take(i as int) =~= mapped);
    let t = trim_chars(out.as_slice());
    string_from_chars(t.as_slice())
}

/// The date in an export folder's name, `DD-MM-YYYY` by a rough count:
/// 365-day years from 1970 and 30-day months, month at most 12, day at
/// most 31, the year cut to 32 bits.
pub open spec fn export_date_of(secs: nat) -> Seq<char> {
    let days = secs / 86400;
    let y = ((days / 365 + 1970) as u64) as u32;
    let month_day = days % 365;
    let m = if month_day / 30 + 1 <= 12 { month_day / 30 + 1 } else { 12 };
    let d = if month_day % 30 + 1 <= 31 { month_day % 30 + 1 } else { 31 };
    zero_padded(decimal(d), 2) + seq!['-'] + zero_padded(decimal(m), 2) + seq!['-'] + zero_padded(
        decimal(y as nat),
        4,
    )
}

/// The name of the folder an export made at `secs` (seconds since the Unix
/// epoch) goes into.
pub open spec fn export_folder_of(secs: nat) -> Seq<char> {
    "Grimoire - export "@ + export_date_of(secs)
}

/// Name the folder of an export made at `secs`.
pub fn export_folder_name(secs: u64) -> (name: String)
    ensures
        name@ == export_folder_of(secs as nat),
{
    let days = secs / 86400;
    let y: u32 = (days / 365 + 1970) as u32;
    let month_day = days % 365;
    let m: u64 = if month_day / 30 + 1 <= 12 { month_day / 30 + 1 } else { 12 };
    let d: u64 = if month_day % 30 + 1 <= 31 { month_day % 30 + 1 } else { 31 };
    let mut out = chars_of("Grimoire - export ");
    push_padded_decimal(&mut out, d, 2);
    out.push('-');
    push_padded_decimal(&mut out, m, 2);
    out.push('-');
    push_padded_decimal(&mut out, y as u64, 4);
    assert(out@ =~= export_folder_of(secs as nat));
    string_from_chars(out.as_slice())
}

/// The (folder id, name) pairs used to name export directories: a locked
/// folder's name is empty.
pub fn export_folder_names(rows: Vec<FolderRow>, keys: &KeyStore) -> (names: Vec<(i64, String)>)
    ensures
        names@.len() == rows@.len(),
        forall|i: int|
            0 <= i < rows@.len() ==> (#[trigger] names@[i]).0 == rows@[i].id && names@[i].1@ == if folder_locked(
                rows@[i].id,
                rows@[i].locked != 0,
                keys.folder_keys@,
            ) {
                Seq::<char>::empty()
            } else {
                folder_name_shown(rows@[i], *keys)
            },
{
    let ghost all = rows@;
    let mut names: Vec<(i64, String)> = Vec::new();
    for row in it: rows
        invariant
            it.seq() == all,
            names@.len() == it.index(),
            forall|i: int|
                0 <= i < it.index() ==> (#[trigger] names@[i]).0 == all[i].id && names@[i].1@ == if folder_locked(
                    all[i].id,
                    all[i].locked != 0,
                    keys.folder_keys@,
                ) {
                    Seq::<char>::empty()
                } else {
                    folder_name_shown(all[i], *keys)
                },
    {
        let f = map_folder_row(row, keys);
        let name = if f.locked {
            String::new()
        } else {
            f.name
        };
        names.push((f.id, name));
    }
    names
}

/// The name of folder `fid` in (id, name) pairs (the last pair for it wins).
pub open spec fn folder_name_in(names: Seq<(i64, Seq<char>)>, fid: i64) -> Option<Seq<char>>
    decreases names.len(),
{
    if names.len() == 0 {
        None
    } else if names.last().0 == fid {
        Some(names.last().1)
    } else {
        folder_name_in(names.drop_last(), fid)
    }
}

/// The contents of (id, text) pairs.
pub open spec fn name_views(v: Seq<(i64, String)>) -> Seq<(i64, Seq<char>)> {
    Seq::new(v.len(), |i: int| (v[i].0, v[i].1@))
}

/// The directory an exported note of folder `fid` goes into: the folder's
/// name, or `folder_<fid>` when it is unknown or empty, made safe.
pub open spec fn export_dir_of(names: Seq<(i64, Seq<char>)>, fid: i64) -> Seq<char> {
    let label = match folder_name_in(names, fid) {
        Some(n) => if n.len() > 0 {
            n
        } else {
            "folder_"@ + signed_decimal(fid as int)
        },
        None => "folder_"@ + signed_decimal(fid as int),
    };
    safe_component(label)
}

/// Name the export directory of folder `fid`.
pub fn export_dir_name(names: &Vec<(i64, String)>, fid: i64) -> (dir: String)
    ensures
        dir@ == export_dir_of(name_views(names@), fid),
{
    let ghost nv = name_views(names@);
    let mut j: usize = names.len();
    let mut found: Option<usize> = None;
    assert(nv.take(j as int) =~= nv);
    while j > 0 && found.is_none()
        invariant
            j <= names@.len(),
            nv == name_views(names@),
            found is None ==> folder_name_in(nv, fid) == folder_name_in(nv.take(j as int), fid),
            found matches Some(k) ==> k < names@.len() && folder_name_in(nv, fid) == Some(names@[k as int].1@),
        decreases j,
    {
        assert(nv.take(j as int).drop_last() =~= nv.take(j - 1));
        if names[j - 1].0 == fid {
            found = Some(j - 1);
        }
        j = j - 1;
    }
    let label: String = match found {
        Some(k) if !names[k].1.as_str().is_empty() => names[k].1.clone(),
        _ => {
            if found.is_none() {
                assert(nv.take(j as int) =~= Seq::<(i64, Seq<char>)>::empty());
            }
            let mut out = chars_of("folder_");
            push_signed_decimal(&mut out, fid);
            string_from_chars(out.as_slice())
        },
    };
    assert(label@ == match folder_name_in(nv, fid) {
        Some(n) => if n.len() > 0 {
            n
        } else {
            "folder_"@ + signed_decimal(fid as int)
        },
        None => "folder_"@ + signed_decimal(fid as int),
    });
    sanitise_path_component(label.as_str())
}

/// The file name (without extension) of an exported note: its safe title,
/// or `note_<id>` when that is empty.
pub open spec fn note_file_stem_of(title: Seq<char>, id: i64) -> Seq<char> {
    if safe_component(title).len() > 0 {
        safe_component(title)
    } else {
        "note_"@ + signed_decimal(id as int)
    }
}

/// Name the file of an exported note.
pub fn note_file_stem(title: &str, id: i64) -> (stem: String)
    ensures
        stem@ == note_file_stem_of(title@, id),
{
    let safe = sanitise_path_component(title);
    if !safe.as_str().is_empty() {
        safe
    } else {
        let mut out = chars_of("note_");
        push_signed_decimal(&mut out, id);
        string_from_chars(out.as_slice())
    }
}

/// The file name used instead when a file of the same name exists:
/// `<stem>_<id>`.
pub fn collision_stem(stem: &str, id: i64) -> (alt: String)
    ensures
        alt@ == stem@ + seq!['_'] + signed_decimal(id as int),
{
    let mut out = chars_of(stem);
    out.push('_');
    push_signed_decimal(&mut out, id);
    string_from_chars(out.as_slice())
}

} // verus!
