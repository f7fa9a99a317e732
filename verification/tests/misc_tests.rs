use grimoire::calendar::{find_daily_folder, find_daily_note, lock_states_from, merge_activity};
use grimoire::chat::{inference_threads, keep_alive_secs, stream_step, LineBuffer, StreamStep};
use grimoire::crypto::encrypt;
use grimoire::export::{
    collision_stem, export_dir_name, export_folder_name, export_folder_names, note_file_stem,
    sanitise_path_component,
};
use grimoire::indexing::{
    failure_line, models_to_evict, note_filter, reindex_blocked, reindex_summary, seed_summary,
    setting_is_true, setting_or_empty, upsert_failure_line, NoteOutcome, ReindexTally,
};
use grimoire::notes::{stored_text, FolderRow, NoteRow};
use grimoire::numbers::{parse_i64, parse_u64};
use grimoire::properties::{check_property_type, next_position, stored_flag, table_notes, with_properties};
use grimoire::session::KeyStore;
use grimoire::templates::{
    add_seeded, all_templates, applicable_specs, apply_summary, builtin_sync_notice,
    builtin_templates, check_folder_sync, check_template_deletable, check_template_editable,
    found_specs, sync_summary, user_template, TemplatePropertySpec,
};

#[test]
fn unsigned_parsing_follows_from_str() {
    assert_eq!(parse_u64("42"), Some(42));
    assert_eq!(parse_u64("+7"), Some(7));
    assert_eq!(parse_u64("18446744073709551615"), Some(u64::MAX));
    assert_eq!(parse_u64("18446744073709551616"), None);
    assert_eq!(parse_u64(""), None);
    assert_eq!(parse_u64("+"), None);
    assert_eq!(parse_u64("-1"), None);
    assert_eq!(parse_u64(" 1"), None);
    for s in ["0", "+12", "007", "99999999999999999999", "1x"] {
        assert_eq!(parse_u64(s), s.parse::<u64>().ok());
    }
}

#[test]
fn signed_parsing_follows_from_str() {
    assert_eq!(parse_i64("-9223372036854775808"), Some(i64::MIN));
    assert_eq!(parse_i64("9223372036854775807"), Some(i64::MAX));
    assert_eq!(parse_i64("9223372036854775808"), None);
    assert_eq!(parse_i64("-"), None);
    for s in ["-0", "+5", "-17", "12a", "", "--1"] {
        assert_eq!(parse_i64(s), s.parse::<i64>().ok());
    }
}

#[test]
fn builtin_templates_are_fixed() {
    let t = builtin_templates();
    assert_eq!(t.iter().map(|x| x.id).collect::<Vec<_>>(), vec![-1, -2, -3, -4]);
    assert_eq!(t[1].name, "Meeting Notes".to_string());
    assert_eq!(t[2].title, "Journal".to_string());
    assert!(t[3].content.starts_with("# \n\n**Author:** "));
    assert!(t.iter().all(|x| x.builtin && x.properties.is_empty()));
    assert_eq!(t[0].title, String::new());
}

#[test]
fn user_templates_follow_builtins() {
    let u = user_template(5, "Mine".to_string(), "T".to_string(), "C".to_string(), Vec::new());
    assert!(!u.builtin);
    let all = all_templates(vec![u]);
    assert_eq!(all.len(), 5);
    assert_eq!(all[4].id, 5);
}

#[test]
fn builtin_templates_are_read_only() {
    assert_eq!(check_template_editable(-2), Err("Built-in templates cannot be edited.".to_string()));
    assert_eq!(check_template_editable(0), Err("Built-in templates cannot be edited.".to_string()));
    assert_eq!(check_template_editable(3), Ok(()));
    assert_eq!(check_template_deletable(-1), Err("Built-in templates cannot be deleted.".to_string()));
    assert_eq!(check_folder_sync(-1), Err("Built-in templates cannot be synced to a folder.".to_string()));
    assert_eq!(builtin_sync_notice(-3), Some("Built-in templates cannot be synced.".to_string()));
    assert_eq!(builtin_sync_notice(8), None);
    assert_eq!(found_specs(None).err(), Some("Template not found.".to_string()));
}

fn spec(name: &str, t: &str) -> TemplatePropertySpec {
    TemplatePropertySpec { name: name.to_string(), prop_type: t.to_string(), options: None }
}

#[test]
fn malformed_specs_are_skipped() {
    let specs = vec![spec("A", "text"), spec("B", "colour"), spec("C", "select"), spec("D", "Date")];
    assert_eq!(applicable_specs(&specs), vec![0, 2]);
}

#[test]
fn template_summaries() {
    assert_eq!(sync_summary(2, 15), "Synced 2 folder(s), 15 note(s) updated.".to_string());
    assert_eq!(apply_summary(0), "Applied template to folder. 0 note(s) updated.".to_string());
    assert_eq!(add_seeded(4, 3), 7);
}

#[test]
fn property_types_and_positions() {
    assert_eq!(check_property_type("boolean"), Ok(()));
    assert_eq!(check_property_type("float"), Err("Invalid property type: float".to_string()));
    assert_eq!(next_position(None), 0);
    assert_eq!(next_position(Some(4)), 5);
    assert_eq!(next_position(Some(-1)), 0);
    assert!(stored_flag(Some(1)));
    assert!(!stored_flag(Some(0)));
    assert!(!stored_flag(None));
}

#[test]
fn table_view_leaves_out_locked_notes() {
    let keys = KeyStore::new();
    let rows = vec![
        NoteRow { id: 1, title: "a".to_string(), content: String::new(), folder_id: Some(3), created_at: 1, updated_at: 2 },
        NoteRow { id: 2, title: "b".to_string(), content: String::new(), folder_id: Some(3), created_at: 1, updated_at: 2 },
    ];
    assert_eq!(table_notes(rows, true, &keys).len(), 0);
    let rows2 = vec![NoteRow { id: 9, title: "c".to_string(), content: String::new(), folder_id: Some(3), created_at: 1, updated_at: 2 }];
    let notes = table_notes(rows2, false, &keys);
    assert_eq!(notes.len(), 1);
    let w = with_properties(notes.into_iter().next().unwrap(), Vec::new());
    assert_eq!((w.id, w.title.as_str(), w.folder_id), (9, "c", Some(3)));
}

#[test]
fn heatmap_merges_and_sorts_days() {
    let created = vec![("2024-03-02".to_string(), 2), ("2024-01-15".to_string(), 1), ("2024-03-02".to_string(), 1)];
    let modified = vec![("2024-02-01".to_string(), 4), ("2024-03-02".to_string(), 5)];
    let days = merge_activity(&created, &modified);
    let got: Vec<(String, i64, i64)> = days.into_iter().map(|d| (d.date, d.created, d.modified)).collect();
    assert_eq!(
        got,
        vec![
            ("2024-01-15".to_string(), 1, 0),
            ("2024-02-01".to_string(), 0, 4),
            ("2024-03-02".to_string(), 3, 5),
        ]
    );
    assert!(merge_activity(&Vec::new(), &Vec::new()).is_empty());
}

#[test]
fn daily_folder_and_note_are_found_by_readable_name() {
    let key = [4u8; 32];
    let folders = vec![
        (1, "Projects".to_string()),
        (2, encrypt(&key, b"Daily Notes")),
        (3, "Daily Notes".to_string()),
    ];
    assert_eq!(find_daily_folder(&folders, Some(key)), Some(2));
    assert_eq!(find_daily_folder(&folders, None), Some(3));
    assert_eq!(find_daily_folder(&vec![(1, "x".to_string())], None), None);
    let rows = vec![
        NoteRow { id: 10, title: "2024-05-01".to_string(), content: String::new(), folder_id: Some(2), created_at: 0, updated_at: 0 },
        NoteRow { id: 11, title: encrypt(&key, b"2024-05-02"), content: String::new(), folder_id: Some(2), created_at: 0, updated_at: 0 },
    ];
    assert_eq!(find_daily_note(&rows, Some(key), "2024-05-02"), Some(1));
    assert_eq!(find_daily_note(&rows, Some(key), "2024-05-01"), Some(0));
    assert_eq!(find_daily_note(&rows, None, "2024-05-03"), None);
    assert_eq!(lock_states_from(&[(1, 0), (2, 3)]), vec![(1, false), (2, true)]);
}

#[test]
fn daily_folder_is_created_once() {
    let key = [6u8; 32];
    let mut folders = vec![(1, "Projects".to_string()), (2, stored_text(Some(key), "Work".to_string()))];
    assert_eq!(find_daily_folder(&folders, Some(key)), None);
    folders.push((9, stored_text(Some(key), "Daily Notes".to_string())));
    assert_eq!(find_daily_folder(&folders, Some(key)), Some(9));
    folders.reverse();
    assert_eq!(find_daily_folder(&folders, Some(key)), Some(9));
    let mut rows = vec![NoteRow { id: 20, title: "2024-05-03".to_string(), content: String::new(), folder_id: Some(9), created_at: 0, updated_at: 0 }];
    assert_eq!(find_daily_note(&rows, Some(key), "2024-05-04"), None);
    rows.insert(0, NoteRow { id: 21, title: stored_text(Some(key), "2024-05-04".to_string()), content: String::new(), folder_id: Some(9), created_at: 0, updated_at: 0 });
    assert_eq!(rows[find_daily_note(&rows, Some(key), "2024-05-04").unwrap()].id, 21);
}

#[test]
fn path_components_are_made_safe() {
    assert_eq!(sanitise_path_component("  a/b\\c:d*e?f\"g<h>i|j\0k  "), "a-b-c-d-e-f-g-h-i-j-k".to_string());
    assert_eq!(sanitise_path_component("   "), String::new());
    assert_eq!(sanitise_path_component("a  b"), "a b".to_string());
    assert_eq!(sanitise_path_component("x--y//z"), "x-y-z".to_string());
    assert_eq!(sanitise_path_component("Notes -  draft\t\tone"), "Notes - draft\t\tone".to_string());
}

#[test]
fn export_folder_is_dated() {
    assert_eq!(export_folder_name(0), "Grimoire - export 01-01-1970".to_string());
    // 1_700_000_000 s is day 19675: 53 rough years, day 330 of the year.
    assert_eq!(export_folder_name(1_700_000_000), "Grimoire - export 01-12-2023".to_string());
}

#[test]
fn export_directories_and_files_are_named() {
    let keys = KeyStore::new();
    let names = export_folder_names(
        vec![
            FolderRow { id: 1, name: "Work: 2024".to_string(), parent_id: None, created_at: 0, locked: 0 },
            FolderRow { id: 2, name: "Secret".to_string(), parent_id: None, created_at: 0, locked: 1 },
        ],
        &keys,
    );
    assert_eq!(names, vec![(1, "Work: 2024".to_string()), (2, String::new())]);
    assert_eq!(export_dir_name(&names, 1), "Work- 2024".to_string());
    assert_eq!(export_dir_name(&names, 2), "folder_2".to_string());
    assert_eq!(export_dir_name(&names, 7), "folder_7".to_string());
    assert_eq!(note_file_stem("What? Now", 3), "What- Now".to_string());
    assert_eq!(note_file_stem("  ", 3), "note_3".to_string());
    assert_eq!(collision_stem("Plan", 12), "Plan_12".to_string());
}

#[test]
fn stream_lines_are_buffered_across_chunks() {
    let mut buf = LineBuffer::new();
    assert_eq!(buf.push_text("{\"a\":1}\n{\"b\""), vec!["{\"a\":1}".to_string()]);
    assert_eq!(buf.push_text(":2}\n\n  \n"), vec!["{\"b\":2}".to_string()]);
    assert_eq!(buf.pending, String::new());
    let mut whole = LineBuffer::new();
    assert_eq!(whole.push_text("{\"a\":1}\n{\"b\":2}\n\n  \n"), vec!["{\"a\":1}".to_string(), "{\"b\":2}".to_string()]);
}

#[test]
fn stream_steps_and_request_settings() {
    assert!(matches!(stream_step(true, "x"), StreamStep::Finish));
    assert!(matches!(stream_step(false, "tok"), StreamStep::Emit));
    assert!(matches!(stream_step(false, ""), StreamStep::Skip));
    assert_eq!(keep_alive_secs(true), -1);
    assert_eq!(keep_alive_secs(false), 300);
    assert_eq!(inference_threads(8), 4);
    assert_eq!(inference_threads(1), 1);
    assert_eq!(inference_threads(0), 1);
}

#[test]
fn reindex_tally_counts_indexed_notes_and_reports_failures() {
    let mut tally = ReindexTally::new();
    tally.record("Locked", NoteOutcome::Locked);
    tally.record("Empty", NoteOutcome::Blank);
    tally.record("A", NoteOutcome::Indexed);
    tally.record("B", NoteOutcome::EmbedFailed("timeout".to_string()));
    tally.record("C", NoteOutcome::UpsertFailed("disk".to_string()));
    tally.record("D", NoteOutcome::Indexed);
    assert_eq!(tally.count, 2);
    assert_eq!(
        tally.summary(),
        "2 notes indexed, 2 failed:\n\"B\" — timeout\n\"C\" (upsert) — disk".to_string()
    );
    assert_eq!(ReindexTally::new().summary(), "0 notes indexed".to_string());
}

#[test]
fn index_reports() {
    assert_eq!(reindex_blocked(true, true), Some("0 notes indexed (vault is locked)".to_string()));
    assert_eq!(reindex_blocked(true, false), None);
    assert_eq!(reindex_blocked(false, true), None);
    assert_eq!(failure_line("Plan", "timeout"), "\"Plan\" — timeout".to_string());
    assert_eq!(upsert_failure_line("Plan", "disk"), "\"Plan\" (upsert) — disk".to_string());
    assert_eq!(reindex_summary(3, &Vec::new()), "3 notes indexed".to_string());
    assert_eq!(
        reindex_summary(1, &vec!["a".to_string(), "b".to_string()]),
        "1 notes indexed, 2 failed:\na\nb".to_string()
    );
    assert_eq!(seed_summary(8, 8), "8".to_string());
    assert_eq!(seed_summary(8, 5), "8:5".to_string());
    assert_eq!(note_filter(-4), "note_id = -4".to_string());
    assert_eq!(
        models_to_evict(&vec!["a".to_string(), "keep".to_string(), "b".to_string()], "keep"),
        vec!["a".to_string(), "b".to_string()]
    );
    assert_eq!(setting_or_empty(None), String::new());
    assert_eq!(setting_or_empty(Some("v".to_string())), "v".to_string());
    assert!(setting_is_true("true"));
    assert!(!setting_is_true("yes"));
}
