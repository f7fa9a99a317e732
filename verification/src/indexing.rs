//! Bookkeeping of the semantic index: when a full re-index is refused, the
//! lines that report failed notes, the summaries of a re-index and of the
//! sample notes, the filter that selects a note's rows, and the models
//! unloaded before embedding.

use vstd::prelude::*;
use vstd::string::StringExecFns;

use crate::numbers::{decimal, push_decimal, push_signed_decimal, signed_decimal};
use crate::text::{chars_of, extend_chars, join, str_eq, string_from_chars, strs_of};

verus! {

/// The answer of a re-index while the vault has a password and its key is
/// not held; `None` when the re-index may go ahead.
pub fn reindex_blocked(vault_key_absent: bool, has_password: bool) -> (notice: Option<String>)
    ensures
        notice is Some <==> vault_key_absent && has_password,
        notice matches Some(n) ==> n@ == "0 notes indexed (vault is locked)"@,
{
    if vault_key_absent && has_password {
        Some(String::from_str("0 notes indexed (vault is locked)"))
    } else {
        None
    }
}

/// The report line of a note whose chunk could not be embedded.
pub fn failure_line(title: &str, error: &str) -> (line: String)
    ensures
        line@ == seq!['"'] + title@ + "\" — "@ + error@,
{
    let mut out: Vec<char> = Vec::new();
    out.push('"');
    let t = chars_of(title);
    extend_chars(&mut out, t.as_slice());
    let mid = chars_of("\" — ");
    extend_chars(&mut out, mid.as_slice());
    let e = chars_of(error);
    extend_chars(&mut out, e.as_slice());
    assert(out@ =~= seq!['"'] + title@ + "\" — "@ + error@);
    string_from_chars(out.as_slice())
}

/// The report line of a note whose chunks could not be stored.
pub fn upsert_failure_line(title: &str, error: &str) -> (line: String)
    ensures
        line@ == seq!['"'] + title@ + "\" (upsert) — "@ + error@,
{
    let mut out: Vec<char> = Vec::new();
    out.push('"');
    let t = chars_of(title);
    extend_chars(&mut out, t.as_slice());
    let mid = chars_of("\" (upsert) — ");
    extend_chars(&mut out, mid.as_slice());
    let e = chars_of(error);
    extend_chars(&mut out, e.as_slice());
    assert(out@ =~= seq!['"'] + title@ + "\" (upsert) — "@ + error@);
    string_from_chars(out.as_slice())
}

/// The summary of a re-index: the notes indexed, then the failures, if
/// any, one per line.
pub open spec fn reindex_summary_of(count: nat, failed: Seq<Seq<char>>) -> Seq<char> {
    if failed.len() == 0 {
        decimal(count) + " notes indexed"@
    } else {
        decimal(count) + " notes indexed, "@ + decimal(failed.len()) + " failed:\n"@ + join(
            failed,
            seq!['\n'],
        )
    }
}

/// Summarise a re-index.
pub fn reindex_summary(count: usize, failed: &Vec<String>) -> (summary: String)
    ensures
        summary@ == reindex_summary_of(count as nat, strs_of(failed@)),
{
    let mut out: Vec<char> = Vec::new();
    push_decimal(&mut out, count as u64);
    if failed.len() == 0 {
        let tail = chars_of(" notes indexed");
        extend_chars(&mut out, tail.as_slice());
        assert(out@ =~= reindex_summary_of(count as nat, strs_of(failed@)));
        return string_from_chars(out.as_slice());
    }
    let mid = chars_of(" notes indexed, ");
    extend_chars(&mut out, mid.as_slice());
    push_decimal(&mut out, failed.len() as u64);
    let head = chars_of(" failed:\n");
    extend_chars(&mut out, head.as_slice());
    let mut parts: Vec<Vec<char>> = Vec::new();
    let mut i: usize = 0;
    while i < failed.len()
        invariant
            i <= failed@.len(),
            crate::text::seqs_of(parts@) == strs_of(failed@).take(i as int),
        decreases failed@.len() - i,
    {
        let ghost prev = parts@;
        let p = chars_of(failed[i].as_str());
        parts.push(p);
        proof {
            crate::text::lemma_seqs_of_push(prev, p);
        }
        i = i + 1;
        assert(crate::text::seqs_of(parts@) =~= strs_of(failed@).take(i as int));
    }
    assert(strs_of(failed@).take(i as int) =~= strs_of(failed@));
    let nl: Vec<char> = vec!['\n'];
    assert(nl@ =~= seq!['\n']);
    let joined = crate::text::join_chars(&parts, nl.as_slice());
    extend_chars(&mut out, joined.as_slice());
    assert(out@ =~= reindex_summary_of(count as nat, strs_of(failed@)));
    string_from_chars(out.as_slice())
}

/// What became of one note in a full re-index.
pub enum NoteOutcome {
    /// Its folder is locked: left out of the index.
    Locked,
    /// It has no text to embed.
    Blank,
    /// A chunk could not be embedded (the note stops at that chunk).
    EmbedFailed(String),
    /// Its chunks were embedded but could not be written to the index.
    UpsertFailed(String),
    /// Its chunks are in the index.
    Indexed,
}

/// The running tally of a full re-index: the notes indexed and the report
/// lines of the notes that failed.
pub struct ReindexTally {
    pub count: usize,
    pub failed: Vec<String>,
}

impl ReindexTally {
    /// An empty tally.
    pub fn new() -> (tally: Self)
        ensures
            tally.count == 0,
            tally.failed@.len() == 0,
    {
        ReindexTally { count: 0, failed: Vec::new() }
    }

    /// Record what became of the note titled `title`: only a note whose
    /// chunks reached the index is counted; an embedding or index failure
    /// adds its report line; a locked or blank note changes nothing.
    pub fn record(&mut self, title: &str, outcome: NoteOutcome)
        requires
            old(self).count < usize::MAX,
        ensures
            final(self).count == old(self).count + if outcome is Indexed { 1int } else { 0int },
            strs_of(final(self).failed@) == match outcome {
                NoteOutcome::EmbedFailed(e) => strs_of(old(self).failed@).push(
                    seq!['"'] + title@ + "\" — "@ + e@,
                ),
                NoteOutcome::UpsertFailed(e) => strs_of(old(self).failed@).push(
                    seq!['"'] + title@ + "\" (upsert) — "@ + e@,
                ),
                _ => strs_of(old(self).failed@),
            },
    {
        match outcome {
            NoteOutcome::Indexed => {
                self.count = self.count + 1;
            },
            NoteOutcome::EmbedFailed(e) => {
                let line = failure_line(title, e.as_str());
                let ghost prev = self.failed@;
                proof { crate::text::lemma_strs_of_push(prev, line); }
                self.failed.push(line);
            },
            NoteOutcome::UpsertFailed(e) => {
                let line = upsert_failure_line(title, e.as_str());
                let ghost prev = self.failed@;
                proof { crate::text::lemma_strs_of_push(prev, line); }
                self.failed.push(line);
            },
            _ => {},
        }
    }

    /// The report of the re-index so far.
    pub fn summary(&self) -> (text: String)
        ensures
            text@ == reindex_summary_of(self.count as nat, strs_of(self.failed@)),
    {
        reindex_summary(self.count, &self.failed)
    }
}

/// The summary of seeding the sample notes: their number, followed by
/// `:<indexed>` when not all of them could be indexed.
pub open spec fn seed_summary_of(count: nat, indexed: nat) -> Seq<char> {
    if indexed == count {
        decimal(count)
    } else {
        decimal(count) + seq![':'] + decimal(indexed)
    }
}

/// Summarise the seeding of the sample notes.
pub fn seed_summary(count: usize, indexed: usize) -> (summary: String)
    ensures
        summary@ == seed_summary_of(count as nat, indexed as nat),
{
    let mut out: Vec<char> = Vec::new();
    push_decimal(&mut out, count as u64);
    if indexed != count {
        out.push(':');
        push_decimal(&mut out, indexed as u64);
    }
    assert(out@ =~= seed_summary_of(count as nat, indexed as nat));
    string_from_chars(out.as_slice())
}

/// The filter that selects a note's rows in the vector index.
pub fn note_filter(note_id: i64) -> (filter: String)
    ensures
        filter@ == "note_id = "@ + signed_decimal(note_id as int),
{
    let mut out = chars_of("note_id = ");
    push_signed_decimal(&mut out, note_id);
    string_from_chars(out.as_slice())
}

/// The loaded models to unload before embedding with `keep`: all others,
/// in order.
pub open spec fn models_to_unload(loaded: Seq<Seq<char>>, keep: Seq<char>) -> Seq<Seq<char>> {
    loaded.filter(|m: Seq<char>| m != keep)
}

/// Pick the loaded models to unload before embedding with `keep`.
pub fn models_to_evict(loaded: &Vec<String>, keep: &str) -> (evict: Vec<String>)
    ensures
        strs_of(evict@) == models_to_unload(strs_of(loaded@), keep@),
{
    let ghost lv = strs_of(loaded@);
    let mut out: Vec<String> = Vec::new();
    let mut i: usize = 0;
    while i < loaded.len()
        invariant
            i <= loaded@.len(),
            lv == strs_of(loaded@),
            strs_of(out@) == models_to_unload(lv.take(i as int), keep@),
        decreases loaded@.len() - i,
    {
        assert(lv.take(i + 1).drop_last() =~= lv.take(i as int));
        reveal_with_fuel(Seq::filter, 1);
        if !str_eq(loaded[i].as_str(), keep) {
            let ghost prev = out@;
            let m = loaded[i].clone();
            out.push(m);
            proof {
                crate::text::lemma_strs_of_push(prev, m);
            }
        }
        i = i + 1;
    }
    assert(lv.take(i as int) =~= lv);
    out
}

/// A stored setting's value, empty when it is not set.
pub fn setting_or_empty(value: Option<String>) -> (text: String)
    ensures
        text@ == match value {
            Some(v) => v@,
            None => Seq::<char>::empty(),
        },
{
    match value {
        Some(v) => v,
        None => String::new(),
    }
}

/// Whether a stored setting's text turns a feature on (`true`).
pub fn setting_is_true(value: &str) -> (on: bool)
    ensures
        on == (value@ == "true"@),
{
    str_eq(value, "true")
}

/// The text embedded for a note chunk: the document prefix the embedding
/// model expects, then the chunk.
pub fn document_prompt(text: &str) -> (prompt: String)
    ensures
        prompt@ == "search_document: "@ + text@,
{
    let mut out = String::from_str("search_document: ");
    out.append(text);
    out
}

/// The text embedded for a search: the query prefix the embedding model
/// expects, then the query.
pub fn query_prompt(text: &str) -> (prompt: String)
    ensures
        prompt@ == "search_query: "@ + text@,
{
    let mut out = String::from_str("search_query: ");
    out.append(text);
    out
}

} // verus!
