//! Search: the full-text query syntax, the filtering of results from locked
//! folders, the assembly of semantic matches from indexed chunks, and the
//! merging of full-text and semantic hits for the combined search.

use vstd::prelude::*;
use vstd::string::StringExecFns;

use crate::notes::shown_text;
use crate::session::{folder_is_locked, folder_locked, resolve_key, KeyStore};
use crate::text::{
    chars_of, extend_chars, join, join_chars, lemma_seqs_of_push, seqs_of, string_from_chars,
    strs_of, words, words_of,
};

verus! {

broadcast use vstd::std_specs::hash::group_hash_axioms;

/// A full-text hit: the note, its indexed title, its folder and a snippet
/// with the matched terms marked.
pub struct FtsResult {
    pub note_id: i64,
    pub title: String,
    pub folder_id: Option<i64>,
    pub snippet: String,
}

/// A semantic match: the note, its title and the excerpts of its matching
/// chunks in chunk order.
pub struct NoteMatch {
    pub note_id: i64,
    pub title: String,
    pub excerpts: Vec<String>,
}

// ---------------------------------------------------------------------------
// Full-text query syntax
// ---------------------------------------------------------------------------

/// The full-text terms of a list of words: each word without its `"`
/// characters, quoted and marked as a prefix (`"word"*`); words that are
/// only quotes are dropped.
pub open spec fn fts_terms(ws: Seq<Seq<char>>) -> Seq<Seq<char>>
    decreases ws.len(),
{
    if ws.len() == 0 {
        Seq::empty()
    } else {
        let prev = fts_terms(ws.drop_last());
        let clean = ws.last().filter(|c: char| c != '"');
        if clean.len() > 0 {
            prev.push(seq!['"'] + clean + seq!['"', '*'])
        } else {
            prev
        }
    }
}

/// The full-text query for raw user input: its prefix terms joined with spaces.
pub open spec fn fts_query_of(raw: Seq<char>) -> Seq<char> {
    join(fts_terms(words(raw)), seq![' '])
}

/// Build a safe full-text query from raw user input: every word becomes a
/// quoted prefix term (`"word"*`), with any `"` in it removed.
pub fn build_fts_query(raw: &str) -> (query: String)
    ensures
        query@ == fts_query_of(raw@),
{
    let cs = chars_of(raw);
    let ws = words_of(cs.as_slice());
    let mut terms: Vec<Vec<char>> = Vec::new();
    let mut i: usize = 0;
    while i < ws.len()
        invariant
            i <= ws@.len(),
            seqs_of(ws@) == words(cs@),
            seqs_of(terms@) == fts_terms(seqs_of(ws@).take(i as int)),
        decreases ws@.len() - i,
    {
        assert(seqs_of(ws@).take(i + 1).drop_last() =~= seqs_of(ws@).take(i as int));
        let w = &ws[i];
        let mut clean: Vec<char> = Vec::new();
        let mut j: usize = 0;
        while j < w.len()
            invariant
                j <= w@.len(),
                clean@ == w@.take(j as int).filter(|c: char| c != '"'),
            decreases w@.len() - j,
        {
            assert(w@.take(j + 1).drop_last() =~= w@.take(j as int));
            reveal_with_fuel(Seq::filter, 1);
            if w[j] != '"' {
                clean.push(w[j]);
            }
            j = j + 1;
        }
        assert(w@.take(j as int) =~= w@);
        if clean.len() > 0 {
            let mut term: Vec<char> = vec!['"'];
            extend_chars(&mut term, clean.as_slice());
            term.push('"');
            term.push('*');
            assert(term@ =~= seq!['"'] + clean@ + seq!['"', '*']);
            let ghost prev = terms@;
            let ghost t = term;
            terms.push(term);
            proof { lemma_seqs_of_push(prev, t); }
        }
        i = i + 1;
    }
    assert(seqs_of(ws@).take(i as int) =~= seqs_of(ws@));
    let space: Vec<char> = vec![' '];
    assert(space@ =~= seq![' ']);
    let joined = join_chars(&terms, space.as_slice());
    string_from_chars(joined.as_slice())
}

// ---------------------------------------------------------------------------
// Locked folders
// ---------------------------------------------------------------------------

/// The folders with a password for which no session key is held.
pub fn locked_folder_ids(all_locked: &[i64], keys: &KeyStore) -> (ids: Vec<i64>)
    ensures
        ids@ == all_locked@.filter(|id: i64| !keys.folder_keys@.contains_key(id)),
{
    let mut ids: Vec<i64> = Vec::new();
    let mut i: usize = 0;
    while i < all_locked.len()
        invariant
            i <= all_locked@.len(),
            ids@ == all_locked@.take(i as int).filter(|id: i64| !keys.folder_keys@.contains_key(id)),
        decreases all_locked@.len() - i,
    {
        assert(all_locked@.take(i + 1).drop_last() =~= all_locked@.take(i as int));
        reveal_with_fuel(Seq::filter, 1);
        let id = all_locked[i];
        if !keys.folder_keys.contains_key(&id) {
            ids.push(id);
        }
        i = i + 1;
    }
    assert(all_locked@.take(i as int) =~= all_locked@);
    ids
}

/// Whether `id` is in `ids`.
pub fn contains_id(ids: &[i64], id: i64) -> (found: bool)
    ensures
        found == ids@.contains(id),
{
    let mut i: usize = 0;
    while i < ids.len()
        invariant
            i <= ids@.len(),
            forall|j: int| 0 <= j < i ==> ids@[j] != id,
        decreases ids@.len() - i,
    {
        if ids[i] == id {
            assert(ids@[i as int] == id);
            return true;
        }
        i = i + 1;
    }
    false
}

/// A full-text hit outside the locked folders.
pub open spec fn fts_visible(r: FtsResult, locked: Seq<i64>) -> bool {
    match r.folder_id {
        Some(fid) => !locked.contains(fid),
        None => true,
    }
}

/// The first `limit` elements of `s` (all of them when there are fewer).
pub open spec fn first_n<T>(s: Seq<T>, limit: nat) -> Seq<T> {
    if s.len() <= limit {
        s
    } else {
        s.take(limit as int)
    }
}

/// Drop full-text hits from locked folders and keep the first `limit`.
pub fn filter_fts_results(raw: Vec<FtsResult>, locked: &[i64], limit: usize) -> (results: Vec<FtsResult>)
    ensures
        results@ == first_n(raw@.filter(|r: FtsResult| fts_visible(r, locked@)), limit as nat),
{
    let ghost all = raw@;
    let mut results: Vec<FtsResult> = Vec::new();
    for r in it: raw
        invariant
            it.seq() == all,
            results@ == first_n(
                all.take(it.index() as int).filter(|r: FtsResult| fts_visible(r, locked@)),
                limit as nat,
            ),
    {
        let ghost k = it.index();
        assert(all.take(k + 1).drop_last() =~= all.take(k as int));
        reveal_with_fuel(Seq::filter, 1);
        let visible = match r.folder_id {
            Some(fid) => !contains_id(locked, fid),
            None => true,
        };
        let ghost before = all.take(k as int).filter(|r: FtsResult| fts_visible(r, locked@));
        if visible && results.len() < limit {
            results.push(r);
            assert(results@ =~= first_n(before.push(all[k as int]), limit as nat));
        } else if visible {
            assert(first_n(before.push(all[k as int]), limit as nat) =~= first_n(before, limit as nat));
        }
    }
    assert(all.take(all.len() as int) =~= all);
    results
}

// ---------------------------------------------------------------------------
// Semantic matches
// ---------------------------------------------------------------------------

/// Excerpts longer than this many characters are cut.
pub const EXCERPT_CHARS: usize = 500;

/// Excerpts of the raw debug search are cut at this many characters.
pub const RAW_EXCERPT_CHARS: usize = 200;

/// At most this many notes are returned by a semantic search.
pub const MAX_SOURCE_NOTES: usize = 5;

/// The number of chunks fetched from the vector index by default.
pub const CHUNK_FETCH_LIMIT: usize = 100;

/// `text` cut to its first `max` characters followed by `…` when it is
/// longer than `max` characters; otherwise unchanged.
pub open spec fn excerpt_of(text: Seq<char>, max: nat) -> Seq<char> {
    if text.len() > max {
        text.take(max as int).push('\u{2026}')
    } else {
        text
    }
}

/// Cut `text` to an excerpt of at most `max` characters plus an ellipsis.
pub fn excerpt(text: &str, max: usize) -> (out: String)
    ensures
        out@ == excerpt_of(text@, max as nat),
{
    let cs = chars_of(text);
    if cs.len() > max {
        let mut cut = crate::text::copy_range(cs.as_slice(), 0, max);
        cut.push('\u{2026}');
        assert(cut@ =~= excerpt_of(text@, max as nat));
        string_from_chars(cut.as_slice())
    } else {
        string_from_chars(cs.as_slice())
    }
}

/// One indexed chunk returned by a vector search.
pub struct ChunkRow {
    pub note_id: i64,
    pub chunk_index: i32,
    pub content: String,
}

/// The (chunk index, excerpt) pairs of a note, first row per chunk index
/// wins, in the order the rows come.
pub open spec fn note_chunks(rows: Seq<ChunkRow>, id: i64) -> Seq<(i32, Seq<char>)>
    decreases rows.len(),
{
    if rows.len() == 0 {
        Seq::empty()
    } else {
        let prev = note_chunks(rows.drop_last(), id);
        let r = rows.last();
        if r.note_id == id && !(exists|k: int| 0 <= k < prev.len() && prev[k].0 == r.chunk_index) {
            prev.push((r.chunk_index, excerpt_of(r.content@, EXCERPT_CHARS as nat)))
        } else {
            prev
        }
    }
}

/// Where `ci` goes in a list sorted by chunk index: before the first entry
/// with a larger index.
pub open spec fn insert_pos(s: Seq<(i32, Seq<char>)>, ci: i32) -> nat
    decreases s.len(),
{
    if s.len() == 0 {
        0
    } else if s[0].0 > ci {
        0
    } else {
        insert_pos(s.drop_first(), ci) + 1
    }
}

/// `s` sorted by chunk index (insertion order kept among equal indices).
pub open spec fn sorted_chunks(s: Seq<(i32, Seq<char>)>) -> Seq<(i32, Seq<char>)>
    decreases s.len(),
{
    if s.len() == 0 {
        Seq::empty()
    } else {
        let prev = sorted_chunks(s.drop_last());
        prev.insert(insert_pos(prev, s.last().0) as int, s.last())
    }
}

/// The semantic match of a ranked note: its excerpts in chunk order.
pub open spec fn note_match_excerpts(rows: Seq<ChunkRow>, id: i64) -> Seq<Seq<char>> {
    sorted_chunks(note_chunks(rows, id)).map_values(|p: (i32, Seq<char>)| p.1)
}

proof fn lemma_insert_pos_bound(s: Seq<(i32, Seq<char>)>, ci: i32)
    ensures
        insert_pos(s, ci) <= s.len(),
    decreases s.len(),
{
    if s.len() > 0 && !(s[0].0 > ci) {
        lemma_insert_pos_bound(s.drop_first(), ci);
    }
}

/// Where `ci` goes in `v`, sorted by chunk index.
fn find_insert_pos(v: &Vec<(i32, String)>, ci: i32) -> (pos: usize)
    ensures
        pos as nat == insert_pos(pair_views(v@), ci),
        pos <= v@.len(),
{
    let mut i: usize = 0;
    assert(pair_views(v@).skip(0) =~= pair_views(v@));
    while i < v.len()
        invariant
            i <= v@.len(),
            insert_pos(pair_views(v@), ci) == i + insert_pos(pair_views(v@).skip(i as int), ci),
        decreases v@.len() - i,
    {
        assert(pair_views(v@).skip(i as int).drop_first() =~= pair_views(v@).skip(i + 1));
        if v[i].0 > ci {
            return i;
        }
        i = i + 1;
    }
    assert(pair_views(v@).skip(i as int) =~= Seq::<(i32, Seq<char>)>::empty());
    i
}

/// The (index, text) views of (index, string) pairs.
pub open spec fn pair_views(v: Seq<(i32, String)>) -> Seq<(i32, Seq<char>)> {
    Seq::new(v.len(), |i: int| (v[i].0, v[i].1@))
}

/// Assemble the semantic matches of the ranked notes from the chunk rows of
/// a vector search: for each note, in rank order, the excerpts of its
/// chunks, one per chunk index (the first row wins), in chunk order.
pub fn assemble_note_matches(ranked: Vec<(i64, String)>, rows: &Vec<ChunkRow>) -> (matches: Vec<NoteMatch>)
    ensures
        matches@.len() == ranked@.len(),
        forall|i: int|
            0 <= i < ranked@.len() ==> {
                &&& #[trigger] matches@[i].note_id == ranked@[i].0
                &&& matches@[i].title@ == ranked@[i].1@
                &&& strs_of(matches@[i].excerpts@) == note_match_excerpts(rows@, ranked@[i].0)
            },
{
    let ghost all = ranked@;
    let mut matches: Vec<NoteMatch> = Vec::new();
    for entry in it: ranked
        invariant
            it.seq() == all,
            matches@.len() == it.index(),
            forall|i: int|
                0 <= i < it.index() ==> {
                    &&& #[trigger] matches@[i].note_id == all[i].0
                    &&& matches@[i].title@ == all[i].1@
                    &&& strs_of(matches@[i].excerpts@) == note_match_excerpts(rows@, all[i].0)
                },
    {
        let (id, title) = entry;
        // Collect the first row of each chunk index, in row order.
        let mut firsts: Vec<(i32, String)> = Vec::new();
        let mut r: usize = 0;
        while r < rows.len()
            invariant
                r <= rows@.len(),
                pair_views(firsts@) == note_chunks(rows@.take(r as int), id),
            decreases rows@.len() - r,
        {
            assert(rows@.take(r + 1).drop_last() =~= rows@.take(r as int));
            let row = &rows[r];
            if row.note_id == id {
                let mut seen = false;
                let mut k: usize = 0;
                while k < firsts.len()
                    invariant
                        k <= firsts@.len(),
                        seen == exists|j: int| 0 <= j < k && firsts@[j].0 == row.chunk_index,
                    decreases firsts@.len() - k,
                {
                    if firsts[k].0 == row.chunk_index {
                        seen = true;
                    }
                    k = k + 1;
                }
                if !seen {
                    let ex = excerpt(row.content.as_str(), EXCERPT_CHARS);
                    let ghost prev = firsts@;
                    firsts.push((row.chunk_index, ex));
                    assert(pair_views(firsts@) =~= pair_views(prev).push((row.chunk_index, ex@)));
                } else {
                    let ghost j = choose|j: int| 0 <= j < firsts@.len() && firsts@[j].0 == row.chunk_index;
                    assert(pair_views(firsts@)[j].0 == row.chunk_index);
                }
            }
            r = r + 1;
        }
        assert(rows@.take(r as int) =~= rows@);
        // Sort them by chunk index.
        let mut sorted: Vec<(i32, String)> = Vec::new();
        let mut f: usize = 0;
        let ghost fv = pair_views(firsts@);
        while f < firsts.len()
            invariant
                f <= firsts@.len(),
                fv == pair_views(firsts@),
                pair_views(sorted@) == sorted_chunks(fv.take(f as int)),
            decreases firsts@.len() - f,
        {
            assert(fv.take(f + 1).drop_last() =~= fv.take(f as int));
            let ci = firsts[f].0;
            let text = firsts[f].1.clone();
            let pos = find_insert_pos(&sorted, ci);
            let ghost prev = sorted@;
            sorted.insert(pos, (ci, text));
            assert(pair_views(sorted@) =~= pair_views(prev).insert(pos as int, (ci, text@)));
            f = f + 1;
        }
        assert(fv.take(f as int) =~= fv);
        let mut excerpts: Vec<String> = Vec::new();
        let mut s: usize = 0;
        while s < sorted.len()
            invariant
                s <= sorted@.len(),
                excerpts@.len() == s,
                forall|k: int| 0 <= k < s ==> #[trigger] excerpts@[k]@ == sorted@[k].1@,
            decreases sorted@.len() - s,
        {
            excerpts.push(sorted[s].1.clone());
            s = s + 1;
        }
        assert(strs_of(excerpts@) =~= pair_views(sorted@).map_values(|p: (i32, Seq<char>)| p.1));
        assert(fv == note_chunks(rows@, id));
        assert(strs_of(excerpts@) == note_match_excerpts(rows@, id));
        let ghost prev_matches = matches@;
        matches.push(NoteMatch { note_id: id, title, excerpts });
        assert(matches@[matches@.len() - 1].note_id == id);
        assert(forall|i: int| 0 <= i < prev_matches.len() ==> matches@[i] == prev_matches[i]);
    }
    matches
}

// ---------------------------------------------------------------------------
// Access to semantic matches
// ---------------------------------------------------------------------------

/// A note row looked up for a semantic match: id, stored title, folder and
/// the folder's stored lock flag.
pub struct MatchNoteRow {
    pub id: i64,
    pub title: String,
    pub folder_id: Option<i64>,
    pub folder_locked: i64,
}

/// What a kept semantic match carries over unchanged: its note and excerpts.
pub open spec fn match_key(m: NoteMatch) -> (i64, Seq<Seq<char>>) {
    (m.note_id, strs_of(m.excerpts@))
}

/// Whether a looked-up note is in a currently locked folder.
pub open spec fn match_row_locked(row: MatchNoteRow, keys: KeyStore) -> bool {
    row.folder_locked != 0 && match row.folder_id {
        Some(fid) => folder_locked(fid, true, keys.folder_keys@),
        None => false,
    }
}

/// The current display title of note `id` per the looked-up rows (the last
/// accessible row for that id wins), `None` when it is locked or missing.
pub open spec fn accessible_title(rows: Seq<MatchNoteRow>, keys: KeyStore, id: i64) -> Option<Seq<char>>
    decreases rows.len(),
{
    if rows.len() == 0 {
        None
    } else {
        let r = rows.last();
        if r.id == id && !match_row_locked(r, keys) {
            Some(shown_text(keys.spec_key_for(r.folder_id), r.title@))
        } else {
            accessible_title(rows.drop_last(), keys, id)
        }
    }
}

/// Drop semantic matches of notes that are locked or gone, and refresh the
/// titles of the others with their current decrypted titles.
pub fn filter_accessible_matches(matches: Vec<NoteMatch>, rows: &Vec<MatchNoteRow>, keys: &KeyStore) -> (kept: Vec<NoteMatch>)
    ensures
        kept@.len() <= matches@.len(),
        forall|i: int|
            0 <= i < kept@.len() ==> #[trigger] accessible_title(rows@, *keys, kept@[i].note_id)
                == Some(kept@[i].title@),
        kept@.map_values(|m: NoteMatch| match_key(m)) == matches@.filter(
            |m: NoteMatch| accessible_title(rows@, *keys, m.note_id) is Some,
        ).map_values(|m: NoteMatch| match_key(m)),
{
    // The display title of every accessible row, in row order.
    let mut titles: Vec<(i64, String)> = Vec::new();
    let mut r: usize = 0;
    while r < rows.len()
        invariant
            r <= rows@.len(),
            titles@.len() == r,
            forall|k: int|
                0 <= k < r ==> (#[trigger] titles@[k]).0 == rows@[k].id && (!match_row_locked(
                    rows@[k],
                    *keys,
                ) ==> titles@[k].1@ == shown_text(keys.spec_key_for(rows@[k].folder_id), rows@[k].title@)),
        decreases rows@.len() - r,
    {
        let row = &rows[r];
        let locked = row.folder_locked != 0 && match row.folder_id {
            Some(fid) => folder_is_locked(fid, true, keys),
            None => false,
        };
        let title = if locked {
            String::new()
        } else {
            match resolve_key(row.folder_id, keys) {
                Some(k) => crate::notes::decrypt_folder_name(&k, row.title.clone()),
                None => row.title.clone(),
            }
        };
        titles.push((row.id, title));
        r = r + 1;
    }
    let ghost all = matches@;
    let mut kept: Vec<NoteMatch> = Vec::new();
    for m in it: matches
        invariant
            it.seq() == all,
            titles@.len() == rows@.len(),
            forall|k: int|
                0 <= k < rows@.len() ==> (#[trigger] titles@[k]).0 == rows@[k].id && (!match_row_locked(
                    rows@[k],
                    *keys,
                ) ==> titles@[k].1@ == shown_text(keys.spec_key_for(rows@[k].folder_id), rows@[k].title@)),
            kept@.len() <= it.index(),
            forall|i: int|
                0 <= i < kept@.len() ==> #[trigger] accessible_title(rows@, *keys, kept@[i].note_id)
                    == Some(kept@[i].title@),
            kept@.map_values(|m: NoteMatch| match_key(m)) == all.take(it.index() as int).filter(
                |m: NoteMatch| accessible_title(rows@, *keys, m.note_id) is Some,
            ).map_values(|m: NoteMatch| match_key(m)),
    {
        let ghost idx = it.index();
        assert(all.take(idx + 1).drop_last() =~= all.take(idx as int));
        reveal_with_fuel(Seq::filter, 1);
        // Search the accessible rows from the last one back.
        let mut found: Option<String> = None;
        let mut j: usize = rows.len();
        assert(rows@.take(j as int) =~= rows@);
        while j > 0 && found.is_none()
            invariant
                j <= rows@.len(),
                titles@.len() == rows@.len(),
                forall|k: int|
                    0 <= k < rows@.len() ==> (#[trigger] titles@[k]).0 == rows@[k].id && (!match_row_locked(
                        rows@[k],
                        *keys,
                    ) ==> titles@[k].1@ == shown_text(keys.spec_key_for(rows@[k].folder_id), rows@[k].title@)),
                found is None ==> accessible_title(rows@, *keys, m.note_id) == accessible_title(
                    rows@.take(j as int),
                    *keys,
                    m.note_id,
                ),
                found matches Some(t) ==> accessible_title(rows@, *keys, m.note_id) == Some(t@),
            decreases j,
        {
            assert(rows@.take(j as int).drop_last() =~= rows@.take(j - 1));
            let row = &rows[j - 1];
            let locked = row.folder_locked != 0 && match row.folder_id {
                Some(fid) => folder_is_locked(fid, true, keys),
                None => false,
            };
            if row.id == m.note_id && !locked {
                found = Some(titles[j - 1].1.clone());
            }
            j = j - 1;
        }
        if found.is_none() {
            assert(rows@.take(j as int) =~= Seq::<MatchNoteRow>::empty());
        }
        match found {
            Some(t) => {
                let ghost prev = kept@;
                assert(all[idx as int] == m);
                let ghost key = match_key(m);
                kept.push(NoteMatch { note_id: m.note_id, title: t, excerpts: m.excerpts });
                assert(kept@.map_values(|m: NoteMatch| match_key(m)) =~= prev.map_values(
                    |m: NoteMatch| match_key(m),
                ).push(key));
            },
            None => {},
        }
    }
    assert(all.take(all.len() as int) =~= all);
    kept
}

// ---------------------------------------------------------------------------
// Combined search
// ---------------------------------------------------------------------------

/// A note hit of the combined search before scoring: where it came from,
/// and the 1-based ranks at which each result list returned it (each rank
/// `r` contributes `1 / (60 + r)` to the reciprocal-rank-fusion score).
pub struct MergedHit {
    pub note_id: i64,
    pub title: String,
    pub folder_id: Option<i64>,
    pub snippet: Option<String>,
    pub excerpt: Option<String>,
    pub fts: bool,
    pub semantic: bool,
    pub ranks: Vec<usize>,
}

/// The abstract content of a merged hit.
pub struct HitModel {
    pub note_id: i64,
    pub title: Seq<char>,
    pub folder_id: Option<i64>,
    pub snippet: Option<Seq<char>>,
    pub excerpt: Option<Seq<char>>,
    pub fts: bool,
    pub semantic: bool,
    pub ranks: Seq<usize>,
}

/// The view of an optional string.
pub open spec fn opt_view(s: Option<String>) -> Option<Seq<char>> {
    match s {
        Some(t) => Some(t@),
        None => None,
    }
}

/// The abstract content of a merged hit.
pub open spec fn hit_model(h: MergedHit) -> HitModel {
    HitModel {
        note_id: h.note_id,
        title: h.title@,
        folder_id: h.folder_id,
        snippet: opt_view(h.snippet),
        excerpt: opt_view(h.excerpt),
        fts: h.fts,
        semantic: h.semantic,
        ranks: h.ranks@,
    }
}

/// The abstract contents of a list of merged hits.
pub open spec fn hit_models(v: Seq<MergedHit>) -> Seq<HitModel> {
    Seq::new(v.len(), |i: int| hit_model(v[i]))
}

/// The position of note `id` among the hits, if it is there.
pub open spec fn hit_index(hits: Seq<HitModel>, id: i64) -> Option<int>
    decreases hits.len(),
{
    if hits.len() == 0 {
        None
    } else if hits.last().note_id == id {
        Some(hits.len() - 1)
    } else {
        hit_index(hits.drop_last(), id)
    }
}

/// Add a full-text row returned at `rank`.
pub open spec fn add_fts_hit(hits: Seq<HitModel>, row: FtsResult, rank: usize) -> Seq<HitModel> {
    match hit_index(hits, row.note_id) {
        Some(k) => hits.update(
            k,
            HitModel { ranks: hits[k].ranks.push(rank), fts: true, snippet: Some(row.snippet@), ..hits[k] },
        ),
        None => hits.push(
            HitModel {
                note_id: row.note_id,
                title: row.title@,
                folder_id: row.folder_id,
                snippet: Some(row.snippet@),
                excerpt: None,
                fts: true,
                semantic: false,
                ranks: seq![rank],
            },
        ),
    }
}

/// The first excerpt of a semantic match, if any.
pub open spec fn first_excerpt(m: NoteMatch) -> Option<Seq<char>> {
    if m.excerpts@.len() > 0 {
        Some(m.excerpts@[0]@)
    } else {
        None
    }
}

/// Add a semantic match returned at `rank`.
pub open spec fn add_semantic_hit(hits: Seq<HitModel>, m: NoteMatch, rank: usize) -> Seq<HitModel> {
    match hit_index(hits, m.note_id) {
        Some(k) => hits.update(
            k,
            HitModel {
                ranks: hits[k].ranks.push(rank),
                semantic: true,
                excerpt: if hits[k].excerpt is None {
                    first_excerpt(m)
                } else {
                    hits[k].excerpt
                },
                ..hits[k]
            },
        ),
        None => hits.push(
            HitModel {
                note_id: m.note_id,
                title: m.title@,
                folder_id: None,
                snippet: None,
                excerpt: first_excerpt(m),
                fts: false,
                semantic: true,
                ranks: seq![rank],
            },
        ),
    }
}

/// The hits after the full-text rows (ranks 1, 2, ... in order).
pub open spec fn merged_fts(rows: Seq<FtsResult>) -> Seq<HitModel>
    decreases rows.len(),
{
    if rows.len() == 0 {
        Seq::empty()
    } else {
        add_fts_hit(merged_fts(rows.drop_last()), rows.last(), rows.len() as usize)
    }
}

/// The hits after the semantic matches too (ranks 1, 2, ... in order).
pub open spec fn merged_all(rows: Seq<FtsResult>, sem: Seq<NoteMatch>) -> Seq<HitModel>
    decreases sem.len(),
{
    if sem.len() == 0 {
        merged_fts(rows)
    } else {
        add_semantic_hit(merged_all(rows, sem.drop_last()), sem.last(), sem.len() as usize)
    }
}

/// Whether row `i` is the first full-text row that returned note `id`.
pub open spec fn first_fts_row(rows: Seq<FtsResult>, id: i64, i: int) -> bool {
    0 <= i < rows.len() && rows[i].note_id == id && forall|j: int| 0 <= j < i ==> #[trigger] rows[j].note_id != id
}

/// Whether match `i` is the first semantic match that returned note `id`.
pub open spec fn first_semantic_match(sem: Seq<NoteMatch>, id: i64, i: int) -> bool {
    0 <= i < sem.len() && sem[i].note_id == id && forall|j: int| 0 <= j < i ==> #[trigger] sem[j].note_id != id
}

/// Whether some full-text row returned note `id`.
pub open spec fn in_fts(rows: Seq<FtsResult>, id: i64) -> bool {
    exists|i: int| 0 <= i < rows.len() && #[trigger] rows[i].note_id == id
}

/// Whether hit `h` carries the title of the first full-text row that
/// returned its note.
pub open spec fn titled_by_fts(rows: Seq<FtsResult>, h: HitModel) -> bool {
    exists|i: int| first_fts_row(rows, h.note_id, i) && h.title == rows[i].title@
}

/// Whether hit `h` is for a note that no full-text row returned and carries
/// the title of the first semantic match that returned it.
pub open spec fn titled_by_semantic(rows: Seq<FtsResult>, sem: Seq<NoteMatch>, h: HitModel) -> bool {
    &&& !in_fts(rows, h.note_id)
    &&& exists|i: int| first_semantic_match(sem, h.note_id, i) && h.title == sem[i].title@
}

/// Whether some hit is for note `id`.
pub open spec fn has_hit(hits: Seq<HitModel>, id: i64) -> bool {
    exists|k: int| 0 <= k < hits.len() && #[trigger] hits[k].note_id == id
}

/// What `hit_index` finds.
proof fn lemma_hit_index(hits: Seq<HitModel>, id: i64)
    ensures
        hit_index(hits, id) matches Some(k) ==> 0 <= k < hits.len() && hits[k].note_id == id,
        hit_index(hits, id) is None ==> forall|k: int| 0 <= k < hits.len() ==> #[trigger] hits[k].note_id != id,
    decreases hits.len(),
{
    if hits.len() > 0 {
        lemma_hit_index(hits.drop_last(), id);
        if hit_index(hits, id) is None {
            assert forall|k: int| 0 <= k < hits.len() implies #[trigger] hits[k].note_id != id by {
                if k < hits.len() - 1 {
                    assert(hits.drop_last()[k] == hits[k]);
                }
            }
        }
    }
}

/// After the full-text rows: every hit carries the title of the first row
/// that returned its note, and every row's note has a hit.
proof fn lemma_fts_titles(rows: Seq<FtsResult>)
    ensures
        forall|k: int| 0 <= k < merged_fts(rows).len() ==> titled_by_fts(rows, #[trigger] merged_fts(rows)[k]),
        forall|i: int| 0 <= i < rows.len() ==> has_hit(merged_fts(rows), #[trigger] rows[i].note_id),
    decreases rows.len(),
{
    if rows.len() > 0 {
        let prev_rows = rows.drop_last();
        lemma_fts_titles(prev_rows);
        let hits = merged_fts(prev_rows);
        let r = rows.last();
        let n = rows.len() - 1;
        lemma_hit_index(hits, r.note_id);
        let out = merged_fts(rows);
        assert(out == add_fts_hit(hits, r, rows.len() as usize));
        assert forall|k: int| 0 <= k < out.len() implies titled_by_fts(rows, #[trigger] out[k]) by {
            if k < hits.len() {
                assert(titled_by_fts(prev_rows, hits[k]));
                assert(out[k].note_id == hits[k].note_id && out[k].title == hits[k].title);
                let i = choose|i: int| first_fts_row(prev_rows, hits[k].note_id, i) && hits[k].title == prev_rows[i].title@;
                assert(prev_rows[i] == rows[i]);
                assert forall|j: int| 0 <= j < i implies #[trigger] rows[j].note_id != out[k].note_id by {
                    assert(prev_rows[j] == rows[j]);
                }
                assert(first_fts_row(rows, out[k].note_id, i));
            } else {
                assert(hit_index(hits, r.note_id) is None);
                assert(k == hits.len());
                assert(out[k].note_id == r.note_id && out[k].title == r.title@);
                assert(rows[n] == r);
                assert forall|j: int| 0 <= j < n implies #[trigger] rows[j].note_id != r.note_id by {
                    assert(prev_rows[j] == rows[j]);
                    if rows[j].note_id == r.note_id {
                        assert(has_hit(hits, prev_rows[j].note_id));
                        let kk = choose|kk: int| 0 <= kk < hits.len() && #[trigger] hits[kk].note_id == prev_rows[j].note_id;
                    }
                }
                assert(first_fts_row(rows, out[k].note_id, n));
            }
        }
        assert forall|i: int| 0 <= i < rows.len() implies has_hit(out, #[trigger] rows[i].note_id) by {
            if i < n {
                assert(prev_rows[i] == rows[i]);
                assert(has_hit(hits, prev_rows[i].note_id));
                let kk = choose|kk: int| 0 <= kk < hits.len() && #[trigger] hits[kk].note_id == prev_rows[i].note_id;
                assert(out[kk].note_id == hits[kk].note_id);
            } else {
                match hit_index(hits, r.note_id) {
                    Some(kk) => {
                        assert(out[kk].note_id == r.note_id);
                    },
                    None => {
                        assert(out[hits.len() as int].note_id == r.note_id);
                    },
                }
            }
        }
    } else {
        assert(merged_fts(rows) =~= Seq::<HitModel>::empty());
    }
}

/// Merged hits keep titles: a hit for a note that some full-text row
/// returned carries the title of the first such row; a hit for a note that
/// only the semantic list returned carries the title of the first match
/// that returned it. Every note that either list returned has a hit.
pub proof fn law_merged_hit_titles(rows: Seq<FtsResult>, sem: Seq<NoteMatch>)
    ensures
        forall|k: int|
            0 <= k < merged_all(rows, sem).len() ==> titled_by_fts(rows, #[trigger] merged_all(rows, sem)[k])
                || titled_by_semantic(rows, sem, merged_all(rows, sem)[k]),
        forall|i: int| 0 <= i < rows.len() ==> has_hit(merged_all(rows, sem), #[trigger] rows[i].note_id),
        forall|i: int| 0 <= i < sem.len() ==> has_hit(merged_all(rows, sem), #[trigger] sem[i].note_id),
    decreases sem.len(),
{
    if sem.len() == 0 {
        lemma_fts_titles(rows);
        assert(merged_all(rows, sem) == merged_fts(rows));
    } else {
        let prev_sem = sem.drop_last();
        law_merged_hit_titles(rows, prev_sem);
        let hits = merged_all(rows, prev_sem);
        let m = sem.last();
        let n = sem.len() - 1;
        lemma_hit_index(hits, m.note_id);
        let out = merged_all(rows, sem);
        assert(out == add_semantic_hit(hits, m, sem.len() as usize));
        assert forall|k: int| 0 <= k < out.len() implies titled_by_fts(rows, #[trigger] out[k])
            || titled_by_semantic(rows, sem, out[k]) by {
            if k < hits.len() {
                let h0 = hits[k];
                assert(titled_by_fts(rows, h0) || titled_by_semantic(rows, prev_sem, h0));
                assert(out[k].note_id == h0.note_id && out[k].title == h0.title);
                if !titled_by_fts(rows, h0) {
                    let i = choose|i: int| first_semantic_match(prev_sem, h0.note_id, i) && h0.title == prev_sem[i].title@;
                    assert(prev_sem[i] == sem[i]);
                    assert forall|j: int| 0 <= j < i implies #[trigger] sem[j].note_id != h0.note_id by {
                        assert(prev_sem[j] == sem[j]);
                    }
                    assert(first_semantic_match(sem, h0.note_id, i));
                } else {
                    let i = choose|i: int| first_fts_row(rows, h0.note_id, i) && h0.title == rows[i].title@;
                    assert(first_fts_row(rows, out[k].note_id, i));
                }
            } else {
                assert(hit_index(hits, m.note_id) is None);
                assert(k == hits.len());
                assert(out[k].note_id == m.note_id && out[k].title == m.title@);
                assert(sem[n] == m);
                if in_fts(rows, m.note_id) {
                    let i = choose|i: int| 0 <= i < rows.len() && #[trigger] rows[i].note_id == m.note_id;
                    assert(has_hit(hits, rows[i].note_id));
                    let kk = choose|kk: int| 0 <= kk < hits.len() && #[trigger] hits[kk].note_id == rows[i].note_id;
                }
                assert forall|j: int| 0 <= j < n implies #[trigger] sem[j].note_id != m.note_id by {
                    assert(prev_sem[j] == sem[j]);
                    if sem[j].note_id == m.note_id {
                        assert(has_hit(hits, prev_sem[j].note_id));
                        let kk = choose|kk: int| 0 <= kk < hits.len() && #[trigger] hits[kk].note_id == prev_sem[j].note_id;
                    }
                }
                assert(first_semantic_match(sem, m.note_id, n));
            }
        }
        assert forall|i: int| 0 <= i < rows.len() implies has_hit(out, #[trigger] rows[i].note_id) by {
            assert(has_hit(hits, rows[i].note_id));
            let kk = choose|kk: int| 0 <= kk < hits.len() && #[trigger] hits[kk].note_id == rows[i].note_id;
            assert(out[kk].note_id == hits[kk].note_id);
        }
        assert forall|i: int| 0 <= i < sem.len() implies has_hit(out, #[trigger] sem[i].note_id) by {
            if i < n {
                assert(prev_sem[i] == sem[i]);
                assert(has_hit(hits, prev_sem[i].note_id));
                let kk = choose|kk: int| 0 <= kk < hits.len() && #[trigger] hits[kk].note_id == prev_sem[i].note_id;
                assert(out[kk].note_id == hits[kk].note_id);
            } else {
                match hit_index(hits, m.note_id) {
                    Some(kk) => {
                        assert(out[kk].note_id == m.note_id);
                    },
                    None => {
                        assert(out[hits.len() as int].note_id == m.note_id);
                    },
                }
            }
        }
    }
}

/// The position of note `id` among the merged hits.
fn find_hit(hits: &Vec<MergedHit>, id: i64) -> (k: Option<usize>)
    ensures
        match k {
            Some(i) => hit_index(hit_models(hits@), id) == Some(i as int) && i < hits@.len(),
            None => hit_index(hit_models(hits@), id) is None,
        },
{
    let mut j: usize = hits.len();
    assert(hit_models(hits@).take(j as int) =~= hit_models(hits@));
    while j > 0
        invariant
            j <= hits@.len(),
            hit_index(hit_models(hits@), id) == hit_index(hit_models(hits@).take(j as int), id),
        decreases j,
    {
        assert(hit_models(hits@).take(j as int).drop_last() =~= hit_models(hits@).take(j - 1));
        if hits[j - 1].note_id == id {
            return Some(j - 1);
        }
        j = j - 1;
    }
    None
}

/// Clone an optional string.
fn clone_opt(s: &Option<String>) -> (out: Option<String>)
    ensures
        opt_view(out) == opt_view(*s),
{
    match s {
        Some(t) => Some(t.clone()),
        None => None,
    }
}

/// Merge full-text rows and semantic matches into one hit per note, in
/// order of first appearance: full-text rows first, then semantic matches.
/// A note's ranks record where each list returned it; a full-text hit
/// carries its snippet, a semantic hit the first excerpt of its match.
pub fn merge_hits(fts_rows: &Vec<FtsResult>, semantic: &Vec<NoteMatch>) -> (hits: Vec<MergedHit>)
    ensures
        hit_models(hits@) == merged_all(fts_rows@, semantic@),
{
    let mut hits: Vec<MergedHit> = Vec::new();
    let mut i: usize = 0;
    assert(hit_models(hits@) =~= Seq::<HitModel>::empty());
    while i < fts_rows.len()
        invariant
            i <= fts_rows@.len(),
            hit_models(hits@) == merged_fts(fts_rows@.take(i as int)),
        decreases fts_rows@.len() - i,
    {
        assert(fts_rows@.take(i + 1).drop_last() =~= fts_rows@.take(i as int));
        let row = &fts_rows[i];
        let rank = i + 1;
        let ghost before = hit_models(hits@);
        match find_hit(&hits, row.note_id) {
            Some(k) => {
                let ghost old_hits = hits@;
                let mut h = hits.remove(k);
                h.ranks.push(rank);
                h.fts = true;
                h.snippet = Some(row.snippet.clone());
                let ghost nh = h;
                hits.insert(k, h);
                assert(hits@ =~= old_hits.update(k as int, nh));
                assert(hit_model(nh) == (HitModel {
                    ranks: before[k as int].ranks.push(rank),
                    fts: true,
                    snippet: Some(row.snippet@),
                    ..before[k as int]
                }));
                assert(hit_models(hits@) =~= before.update(k as int, hit_model(nh)));
                assert(hit_models(hits@) =~= add_fts_hit(before, *row, rank));
            },
            None => {
                let mut ranks: Vec<usize> = Vec::new();
                ranks.push(rank);
                let nh = MergedHit {
                    note_id: row.note_id,
                    title: row.title.clone(),
                    folder_id: row.folder_id,
                    snippet: Some(row.snippet.clone()),
                    excerpt: None,
                    fts: true,
                    semantic: false,
                    ranks,
                };
                let ghost old_hits = hits@;
                assert(nh.ranks@ =~= seq![rank]);
                hits.push(nh);
                assert(hit_models(hits@) =~= hit_models(old_hits).push(hit_model(nh)));
                assert(hit_models(hits@) =~= add_fts_hit(before, *row, rank));
            },
        }
        i = i + 1;
    }
    assert(fts_rows@.take(i as int) =~= fts_rows@);
    let mut j: usize = 0;
    while j < semantic.len()
        invariant
            j <= semantic@.len(),
            hit_models(hits@) == merged_all(fts_rows@, semantic@.take(j as int)),
        decreases semantic@.len() - j,
    {
        assert(semantic@.take(j + 1).drop_last() =~= semantic@.take(j as int));
        let m = &semantic[j];
        let rank = j + 1;
        let first = if m.excerpts.len() > 0 {
            Some(m.excerpts[0].clone())
        } else {
            None
        };
        let ghost before = hit_models(hits@);
        match find_hit(&hits, m.note_id) {
            Some(k) => {
                let ghost old_hits = hits@;
                let mut h = hits.remove(k);
                h.ranks.push(rank);
                h.semantic = true;
                if h.excerpt.is_none() {
                    h.excerpt = first;
                }
                let ghost nh = h;
                hits.insert(k, h);
                assert(hits@ =~= old_hits.update(k as int, nh));
                assert(hit_models(hits@) =~= before.update(k as int, hit_model(nh)));
                assert(hit_model(nh) == (HitModel {
                    ranks: before[k as int].ranks.push(rank),
                    semantic: true,
                    excerpt: if before[k as int].excerpt is None {
                        first_excerpt(*m)
                    } else {
                        before[k as int].excerpt
                    },
                    ..before[k as int]
                }));
                assert(hit_models(hits@) =~= add_semantic_hit(before, *m, rank));
            },
            None => {
                let mut ranks: Vec<usize> = Vec::new();
                ranks.push(rank);
                let nh = MergedHit {
                    note_id: m.note_id,
                    title: m.title.clone(),
                    folder_id: None,
                    snippet: None,
                    excerpt: first,
                    fts: false,
                    semantic: true,
                    ranks,
                };
                let ghost old_hits = hits@;
                assert(nh.ranks@ =~= seq![rank]);
                hits.push(nh);
                assert(hit_models(hits@) =~= hit_models(old_hits).push(hit_model(nh)));
                assert(hit_models(hits@) =~= add_semantic_hit(before, *m, rank));
            },
        }
        j = j + 1;
    }
    assert(semantic@.take(j as int) =~= semantic@);
    hits
}

/// Which lists matched a hit: `both`, `fts` or `semantic`.
pub fn matched_by(fts: bool, semantic: bool) -> (label: String)
    ensures
        label@ == if fts && semantic {
            "both"@
        } else if fts {
            "fts"@
        } else {
            "semantic"@
        },
{
    if fts && semantic {
        String::from_str("both")
    } else if fts {
        String::from_str("fts")
    } else {
        String::from_str("semantic")
    }
}

/// The hits found only by semantic search whose folder is not yet known.
pub fn semantic_only_ids(hits: &Vec<MergedHit>) -> (ids: Vec<i64>)
    ensures
        ids@ == hits@.filter(|h: MergedHit| h.semantic && h.folder_id is None && !h.fts).map_values(
            |h: MergedHit| h.note_id,
        ),
{
    let mut ids: Vec<i64> = Vec::new();
    let mut i: usize = 0;
    while i < hits.len()
        invariant
            i <= hits@.len(),
            ids@ == hits@.take(i as int).filter(
                |h: MergedHit| h.semantic && h.folder_id is None && !h.fts,
            ).map_values(|h: MergedHit| h.note_id),
        decreases hits@.len() - i,
    {
        assert(hits@.take(i + 1).drop_last() =~= hits@.take(i as int));
        reveal_with_fuel(Seq::filter, 1);
        if hits[i].semantic && hits[i].folder_id.is_none() && !hits[i].fts {
            ids.push(hits[i].note_id);
        }
        i = i + 1;
        assert(ids@ =~= hits@.take(i as int).filter(
            |h: MergedHit| h.semantic && h.folder_id is None && !h.fts,
        ).map_values(|h: MergedHit| h.note_id));
    }
    assert(hits@.take(i as int) =~= hits@);
    ids
}

/// The folder of note `id` per (id, folder) pairs (the last pair wins),
/// `None` when no pair names it.
pub open spec fn folder_from_pairs(pairs: Seq<(i64, Option<i64>)>, id: i64) -> Option<Option<i64>>
    decreases pairs.len(),
{
    if pairs.len() == 0 {
        None
    } else if pairs.last().0 == id {
        Some(pairs.last().1)
    } else {
        folder_from_pairs(pairs.drop_last(), id)
    }
}

/// Fill in the folder of hits from looked-up (id, folder) pairs; hits that
/// no pair names keep their folder.
pub fn backfill_folders(hits: &mut Vec<MergedHit>, pairs: &[(i64, Option<i64>)])
    ensures
        final(hits)@.len() == old(hits)@.len(),
        forall|i: int|
            0 <= i < old(hits)@.len() ==> {
                let h = #[trigger] final(hits)@[i];
                let o = old(hits)@[i];
                &&& hit_model(h) == (HitModel {
                    folder_id: match folder_from_pairs(pairs@, o.note_id) {
                        Some(f) => f,
                        None => o.folder_id,
                    },
                    ..hit_model(o)
                })
            },
{
    let ghost orig = hits@;
    let mut i: usize = 0;
    while i < hits.len()
        invariant
            hits@.len() == orig.len(),
            i <= hits@.len(),
            forall|k: int| i <= k < hits@.len() ==> #[trigger] hits@[k] == orig[k],
            forall|k: int|
                0 <= k < i ==> {
                    let h = #[trigger] hits@[k];
                    let o = orig[k];
                    &&& hit_model(h) == (HitModel {
                        folder_id: match folder_from_pairs(pairs@, o.note_id) {
                            Some(f) => f,
                            None => o.folder_id,
                        },
                        ..hit_model(o)
                    })
                },
        decreases orig.len() - i,
    {
        let id = hits[i].note_id;
        let mut j: usize = pairs.len();
        let mut found: Option<Option<i64>> = None;
        assert(pairs@.take(j as int) =~= pairs@);
        while j > 0 && found.is_none()
            invariant
                j <= pairs@.len(),
                found is None ==> folder_from_pairs(pairs@, id) == folder_from_pairs(pairs@.take(j as int), id),
                found is Some ==> folder_from_pairs(pairs@, id) == found,
            decreases j,
        {
            assert(pairs@.take(j as int).drop_last() =~= pairs@.take(j - 1));
            if pairs[j - 1].0 == id {
                found = Some(pairs[j - 1].1);
            }
            j = j - 1;
        }
        if found.is_none() {
            assert(pairs@.take(j as int) =~= Seq::<(i64, Option<i64>)>::empty());
        }
        if let Some(f) = found {
            let mut h = hits.remove(i);
            h.folder_id = f;
            hits.insert(i, h);
        }
        i = i + 1;
    }
}

/// The query of a search with its surrounding white space trimmed; `None`
/// when nothing is left, which answers with no results.
pub fn search_query(query: &str) -> (trimmed: Option<String>)
    ensures
        match trimmed {
            Some(t) => t@ == crate::text::trim(query@) && t@.len() > 0,
            None => crate::text::trim(query@).len() == 0,
        },
{
    let cs = chars_of(query);
    let t = crate::text::trim_chars(cs.as_slice());
    if t.len() == 0 {
        None
    } else {
        Some(string_from_chars(t.as_slice()))
    }
}

/// Full-text rows fetched for a search that returns at most `limit`: three
/// times as many, to leave room for the rows of locked folders.
pub fn fts_fetch_limit(limit: usize) -> (rows: i64)
    requires
        limit * 3 <= i64::MAX,
        limit * 3 <= usize::MAX,
    ensures
        rows == limit * 3,
{
    (limit * 3) as i64
}

/// Whether the full-text index is filled at start-up: only when it is
/// empty and the vault has no password (notes are then stored as plaintext).
pub fn fts_sync_needed(fts_rows: i64, vault_passwords: i64) -> (needed: bool)
    ensures
        needed == (fts_rows <= 0 && vault_passwords <= 0),
{
    fts_rows <= 0 && vault_passwords <= 0
}

} // verus!
