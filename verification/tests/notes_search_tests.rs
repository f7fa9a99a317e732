use grimoire::crypto::encrypt;
use grimoire::notes::{
    check_not_descendant, check_own_parent, decrypt_folder_name, map_folder_row, map_note_row,
    map_note_rows, map_rows_with_lock, prepare_duplicate, prepare_note_update, store_for_folder,
    stored_text, FolderRow, NoteRow,
};
use grimoire::search::{
    assemble_note_matches, backfill_folders, excerpt, filter_accessible_matches,
    filter_fts_results, locked_folder_ids, matched_by, merge_hits, semantic_only_ids, ChunkRow,
    FtsResult, MatchNoteRow, NoteMatch,
};
use grimoire::session::{store_folder_key, store_vault_key, KeyStore};

fn row(id: i64, title: &str, content: &str, folder_id: Option<i64>) -> NoteRow {
    NoteRow {
        id,
        title: title.to_string(),
        content: content.to_string(),
        folder_id,
        created_at: 10,
        updated_at: 20,
    }
}

#[test]
fn plain_rows_map_unchanged_without_keys() {
    let keys = KeyStore::new();
    let n = map_note_row(row(1, "T", "C", None), false, &keys);
    assert_eq!((n.id, n.title.as_str(), n.content.as_str(), n.locked), (1, "T", "C", false));
    assert_eq!((n.created_at, n.updated_at), (10, 20));
}

#[test]
fn encrypted_rows_decrypt_under_the_vault_key() {
    let mut keys = KeyStore::new();
    store_vault_key(&mut keys, [1u8; 32]);
    let t = encrypt(&[1u8; 32], b"Title");
    let c = encrypt(&[1u8; 32], b"Body");
    let n = map_note_row(row(2, &t, &c, None), false, &keys);
    assert_eq!((n.title.as_str(), n.content.as_str()), ("Title", "Body"));
    // Rows written before the password stay readable.
    let n2 = map_note_row(row(3, "old", "text", None), false, &keys);
    assert_eq!((n2.title.as_str(), n2.content.as_str()), ("old", "text"));
}

#[test]
fn notes_in_locked_folders_come_back_empty() {
    let mut keys = KeyStore::new();
    let n = map_note_row(row(4, "secret", "stuff", Some(9)), true, &keys);
    assert!(n.locked);
    assert_eq!((n.title.as_str(), n.content.as_str()), ("", ""));
    store_folder_key(&mut keys, 9, [2u8; 32]);
    let t = encrypt(&[2u8; 32], b"open");
    let n2 = map_note_row(row(4, &t, "x", Some(9)), true, &keys);
    assert!(!n2.locked);
    assert_eq!(n2.title, "open".to_string());
}

#[test]
fn rows_look_up_their_folder_lock_flag() {
    let keys = KeyStore::new();
    let rows = vec![row(1, "a", "", Some(1)), row(2, "b", "", Some(2)), row(3, "c", "", None)];
    let notes = map_note_rows(rows, &[(1, true), (2, true), (2, false)], &keys);
    assert_eq!(notes.iter().map(|n| n.locked).collect::<Vec<_>>(), vec![true, false, false]);
    let tagged = map_rows_with_lock(vec![(row(5, "d", "", Some(1)), 1), (row(6, "e", "", Some(1)), 0)], &keys);
    assert_eq!(tagged.iter().map(|n| n.locked).collect::<Vec<_>>(), vec![true, false]);
}

#[test]
fn folder_rows_show_locked_or_decrypted_names() {
    let mut keys = KeyStore::new();
    let f = map_folder_row(FolderRow { id: 1, name: "Work".to_string(), parent_id: None, created_at: 0, locked: 1 }, &keys);
    assert!(f.locked);
    assert_eq!(f.name, "<locked>".to_string());
    store_vault_key(&mut keys, [3u8; 32]);
    let enc = encrypt(&[3u8; 32], b"Home");
    let g = map_folder_row(FolderRow { id: 2, name: enc, parent_id: Some(1), created_at: 5, locked: 0 }, &keys);
    assert!(!g.locked);
    assert_eq!((g.name.as_str(), g.parent_id, g.created_at), ("Home", Some(1), 5));
    assert_eq!(decrypt_folder_name(&[3u8; 32], "raw".to_string()), "raw".to_string());
}

#[test]
fn stored_text_reads_back_under_the_same_key() {
    let key = [5u8; 32];
    let s = stored_text(Some(key), "hello".to_string());
    assert_ne!(s, "hello".to_string());
    assert_eq!(decrypt_folder_name(&key, s), "hello".to_string());
    assert_eq!(stored_text(None, "hello".to_string()), "hello".to_string());
    let mut keys = KeyStore::new();
    store_folder_key(&mut keys, 4, key);
    let t = store_for_folder(Some(4), &keys, "named".to_string());
    assert_eq!(decrypt_folder_name(&key, t), "named".to_string());
    assert_eq!(store_for_folder(None, &keys, "x".to_string()), "x".to_string());
}

#[test]
fn note_update_refused_in_locked_folder() {
    let keys = KeyStore::new();
    assert_eq!(
        prepare_note_update(Some(3), true, &keys, "t".to_string(), "c".to_string()),
        Err("folder_locked".to_string())
    );
    assert_eq!(
        prepare_note_update(None, false, &keys, "t".to_string(), "c".to_string()),
        Ok(("t".to_string(), "c".to_string()))
    );
}

#[test]
fn duplicate_appends_copy_to_the_title() {
    let keys = KeyStore::new();
    assert_eq!(
        prepare_duplicate(row(1, "Plan", "Body", None), false, &keys),
        Ok(("Plan (copy)".to_string(), "Body".to_string()))
    );
    assert_eq!(
        prepare_duplicate(row(1, "Plan", "Body", Some(2)), true, &keys),
        Err("note_locked".to_string())
    );
    let mut vk = KeyStore::new();
    store_vault_key(&mut vk, [6u8; 32]);
    let t = encrypt(&[6u8; 32], b"Enc");
    let (title, _) = prepare_duplicate(row(1, &t, "", None), false, &vk).unwrap();
    assert_eq!(decrypt_folder_name(&[6u8; 32], title), "Enc (copy)".to_string());
}

#[test]
fn folder_moves_are_checked() {
    assert_eq!(check_own_parent(3, 3), Err("A folder cannot be its own parent".to_string()));
    assert_eq!(check_own_parent(3, 4), Ok(()));
    assert_eq!(
        check_not_descendant(8, &[5, 8, 9]),
        Err("Cannot move a folder into one of its own descendants".to_string())
    );
    assert_eq!(check_not_descendant(7, &[5, 8, 9]), Ok(()));
}

fn subtree_below(parents: &[(i64, Option<i64>)], id: i64) -> Vec<i64> {
    let mut out = Vec::new();
    let mut frontier = vec![id];
    while let Some(f) = frontier.pop() {
        for (c, p) in parents {
            if *p == Some(f) && !out.contains(c) {
                out.push(*c);
                frontier.push(*c);
            }
        }
    }
    out
}

fn has_cycle(parents: &[(i64, Option<i64>)]) -> bool {
    parents.iter().any(|(x, _)| {
        let mut cur = *x;
        for _ in 0..parents.len() {
            match parents.iter().find(|(c, _)| *c == cur).and_then(|(_, p)| *p) {
                Some(p) if p == *x => return true,
                Some(p) => cur = p,
                None => return false,
            }
        }
        false
    })
}

#[test]
fn checked_folder_moves_keep_the_tree_acyclic() {
    // 1 <- 2 <- 3, and 4 at the root.
    let tree = vec![(1, None), (2, Some(1)), (3, Some(2)), (4, None)];
    for id in 1..=4i64 {
        for target in 1..=4i64 {
            let allowed = check_own_parent(id, target).is_ok()
                && check_not_descendant(target, &subtree_below(&tree, id)).is_ok();
            let moved: Vec<(i64, Option<i64>)> =
                tree.iter().map(|(c, p)| if *c == id { (*c, Some(target)) } else { (*c, *p) }).collect();
            if allowed {
                assert!(!has_cycle(&moved), "move {id} under {target}");
            } else {
                assert!(has_cycle(&moved) || id == target, "refused {id} under {target}");
            }
        }
    }
}

fn fts(id: i64, folder: Option<i64>, snippet: &str) -> FtsResult {
    FtsResult { note_id: id, title: format!("n{id}"), folder_id: folder, snippet: snippet.to_string() }
}

#[test]
fn locked_folders_without_keys_are_listed() {
    let mut keys = KeyStore::new();
    store_folder_key(&mut keys, 2, [1u8; 32]);
    assert_eq!(locked_folder_ids(&[1, 2, 3], &keys), vec![1, 3]);
}

#[test]
fn fts_results_skip_locked_folders_and_respect_limit() {
    let raw = vec![fts(1, Some(5), "a"), fts(2, None, "b"), fts(3, Some(6), "c"), fts(4, Some(5), "d"), fts(5, None, "e")];
    let out = filter_fts_results(raw, &[5], 2);
    assert_eq!(out.iter().map(|r| r.note_id).collect::<Vec<_>>(), vec![2, 3]);
}

#[test]
fn excerpts_are_cut_with_an_ellipsis() {
    assert_eq!(excerpt("abcdef", 3), "abc\u{2026}".to_string());
    assert_eq!(excerpt("abc", 3), "abc".to_string());
}

#[test]
fn note_matches_keep_first_row_per_chunk_in_chunk_order() {
    let rows = vec![
        ChunkRow { note_id: 1, chunk_index: 2, content: "two".to_string() },
        ChunkRow { note_id: 2, chunk_index: 0, content: "other".to_string() },
        ChunkRow { note_id: 1, chunk_index: 0, content: "zero".to_string() },
        ChunkRow { note_id: 1, chunk_index: 2, content: "dup".to_string() },
    ];
    let m = assemble_note_matches(vec![(1, "One".to_string()), (3, "Three".to_string())], &rows);
    assert_eq!(m.len(), 2);
    assert_eq!((m[0].note_id, m[0].title.as_str()), (1, "One"));
    assert_eq!(m[0].excerpts, vec!["zero".to_string(), "two".to_string()]);
    assert_eq!(m[1].excerpts, Vec::<String>::new());
}

#[test]
fn semantic_matches_drop_locked_notes_and_refresh_titles() {
    let keys = KeyStore::new();
    let matches = vec![
        NoteMatch { note_id: 1, title: "old".to_string(), excerpts: vec!["e1".to_string()] },
        NoteMatch { note_id: 2, title: "x".to_string(), excerpts: vec![] },
        NoteMatch { note_id: 3, title: "gone".to_string(), excerpts: vec![] },
    ];
    let rows = vec![
        MatchNoteRow { id: 1, title: "New title".to_string(), folder_id: None, folder_locked: 0 },
        MatchNoteRow { id: 2, title: "Hidden".to_string(), folder_id: Some(4), folder_locked: 1 },
    ];
    let kept = filter_accessible_matches(matches, &rows, &keys);
    assert_eq!(kept.len(), 1);
    assert_eq!((kept[0].note_id, kept[0].title.as_str()), (1, "New title"));
    assert_eq!(kept[0].excerpts, vec!["e1".to_string()]);
}

#[test]
fn hits_merge_per_note_with_their_ranks() {
    let rows = vec![fts(10, Some(1), "s10"), fts(20, None, "s20")];
    let sem = vec![
        NoteMatch { note_id: 20, title: "t20".to_string(), excerpts: vec!["x20".to_string()] },
        NoteMatch { note_id: 30, title: "t30".to_string(), excerpts: vec!["x30".to_string(), "y".to_string()] },
    ];
    let mut hits = merge_hits(&rows, &sem);
    assert_eq!(hits.iter().map(|h| h.note_id).collect::<Vec<_>>(), vec![10, 20, 30]);
    assert_eq!(hits[0].ranks, vec![1]);
    assert_eq!(hits[1].ranks, vec![2, 1]);
    assert_eq!(hits[2].ranks, vec![2]);
    assert!(hits[1].fts && hits[1].semantic);
    assert_eq!(hits[1].snippet, Some("s20".to_string()));
    assert_eq!(hits[1].excerpt, Some("x20".to_string()));
    assert_eq!(hits[2].excerpt, Some("x30".to_string()));
    assert_eq!(matched_by(true, true), "both".to_string());
    assert_eq!(matched_by(true, false), "fts".to_string());
    assert_eq!(matched_by(false, true), "semantic".to_string());
    assert_eq!(semantic_only_ids(&hits), vec![30]);
    backfill_folders(&mut hits, &[(30, Some(7)), (99, None)]);
    assert_eq!(hits[2].folder_id, Some(7));
    assert_eq!(hits[0].folder_id, Some(1));
}
