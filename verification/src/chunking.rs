//! Splitting note text into sentences and grouping sentences into the chunks
//! that are embedded for semantic search.
//!
//! Lines are split first (one idea per line is common in notes); lines of
//! more than 30 words are further split where `. `, `! ` or `? ` (or a tab)
//! is followed by an uppercase letter, which avoids false splits on
//! abbreviations such as "e.g. " or "TLS 1.3 ".

use vstd::prelude::*;
use vstd::string::StringExecFns;

use crate::text::{
    chars_of, clone_chars, extend_chars, lemma_seqs_of_push, join, join_chars, lines, lines_of, seqs_of, string_from_chars, strings_from,
    strs_of, trim, trim_chars, unicode_uppercase, word_count, words,
};

verus! {

/// Lines of more than this many words are split at punctuation.
pub const LONG_LINE_WORDS: usize = 30;

// ---------------------------------------------------------------------------
// Specifications
// ---------------------------------------------------------------------------

/// Sentence-ending punctuation.
pub open spec fn is_sentence_end(c: char) -> bool {
    c == '.' || c == '!' || c == '?'
}

/// A sentence boundary right after position `i` of `t`: sentence-ending
/// punctuation, then a space or tab, then an uppercase letter.
pub open spec fn boundary_at(t: Seq<char>, i: int) -> bool {
    &&& is_sentence_end(t[i])
    &&& i + 2 < t.len()
    &&& (t[i + 1] == ' ' || t[i + 1] == '\t')
    &&& unicode_uppercase(t[i + 2])
}

/// After reading the first `n` characters of `t`: the sentences cut so far
/// and the text not yet cut.
pub open spec fn punct_state(t: Seq<char>, n: nat) -> (Seq<Seq<char>>, Seq<char>)
    decreases n,
{
    if n == 0 {
        (Seq::empty(), Seq::empty())
    } else {
        let (parts, buf) = punct_state(t, (n - 1) as nat);
        let buf2 = buf.push(t[n - 1]);
        if boundary_at(t, n - 1) {
            let s = trim(buf2);
            (if s.len() > 0 {
                parts.push(s)
            } else {
                parts
            }, Seq::empty())
        } else {
            (parts, buf2)
        }
    }
}

/// The pieces of `t` cut at sentence boundaries, each trimmed, empty pieces
/// dropped; the trimmed text itself when nothing remains.
pub open spec fn punctuation_pieces(t: Seq<char>) -> Seq<Seq<char>> {
    let (parts, buf) = punct_state(t, t.len());
    let tail = trim(buf);
    let all = if tail.len() > 0 {
        parts.push(tail)
    } else {
        parts
    };
    if all.len() == 0 {
        seq![trim(t)]
    } else {
        all
    }
}

/// The sentences of a list of lines: each line trimmed, blank lines
/// skipped, long lines cut at punctuation.
pub open spec fn sentences_of_lines(ls: Seq<Seq<char>>) -> Seq<Seq<char>>
    decreases ls.len(),
{
    if ls.len() == 0 {
        Seq::empty()
    } else {
        let prev = sentences_of_lines(ls.drop_last());
        let line = trim(ls.last());
        if line.len() == 0 {
            prev
        } else if words(line).len() > LONG_LINE_WORDS {
            prev + punctuation_pieces(line)
        } else {
            prev.push(line)
        }
    }
}

/// The sentences of `t`; when there are none, the trimmed text itself if
/// it is not empty.
pub open spec fn sentences(t: Seq<char>) -> Seq<Seq<char>> {
    let s = sentences_of_lines(lines(t));
    if s.len() > 0 {
        s
    } else if trim(t).len() > 0 {
        seq![trim(t)]
    } else {
        Seq::empty()
    }
}

/// How far consecutive chunks start apart: `per_chunk - overlap`, at least 1.
pub open spec fn chunk_step(per_chunk: nat, overlap: nat) -> nat {
    if per_chunk > overlap {
        (per_chunk - overlap) as nat
    } else {
        1
    }
}

/// The chunks from sentence `start` on: each joins up to `per_chunk`
/// sentences with a space; the last one reaches the end.
pub open spec fn chunks_from(s: Seq<Seq<char>>, start: nat, per_chunk: nat, overlap: nat) -> Seq<
    Seq<char>,
>
    decreases s.len() - start,
{
    if start > s.len() {
        Seq::empty()
    } else {
        let end = if start + per_chunk < s.len() {
            start + per_chunk
        } else {
            s.len()
        };
        let chunk = join(s.subrange(start as int, end as int), seq![' ']);
        if end >= s.len() {
            seq![chunk]
        } else {
            seq![chunk] + chunks_from(s, start + chunk_step(per_chunk, overlap), per_chunk, overlap)
        }
    }
}

/// Sentences grouped into overlapping chunks of `per_chunk`, the next chunk
/// re-using `overlap` sentences of the previous one; one empty chunk for no
/// sentences, one chunk when they all fit.
pub open spec fn chunks(s: Seq<Seq<char>>, per_chunk: nat, overlap: nat) -> Seq<Seq<char>> {
    if s.len() == 0 {
        seq![Seq::empty()]
    } else if s.len() <= per_chunk {
        seq![join(s, seq![' '])]
    } else {
        chunks_from(s, 0, per_chunk, overlap)
    }
}

/// A text that holds a character other than white space trims to a
/// non-empty text.
proof fn lemma_trim_keeps_text(s: Seq<char>, i: int)
    requires
        0 <= i < s.len(),
        !crate::text::is_white_space(s[i]),
    ensures
        trim(s).len() > 0,
{
    lemma_trim_start_keeps(s, i);
    lemma_trim_end_keeps(crate::text::trim_start(s));
}

proof fn lemma_trim_start_keeps(s: Seq<char>, i: int)
    requires
        0 <= i < s.len(),
        !crate::text::is_white_space(s[i]),
    ensures
        crate::text::trim_start(s).len() > 0,
        !crate::text::is_white_space(crate::text::trim_start(s)[0]),
    decreases s.len(),
{
    if crate::text::is_white_space(s[0]) {
        assert(s.drop_first()[i - 1] == s[i]);
        lemma_trim_start_keeps(s.drop_first(), i - 1);
    }
}

proof fn lemma_trim_end_keeps(u: Seq<char>)
    requires
        u.len() > 0,
        !crate::text::is_white_space(u[0]),
    ensures
        crate::text::trim_end(u).len() > 0,
    decreases u.len(),
{
    if crate::text::is_white_space(u.last()) {
        assert(u.len() > 1);
        assert(u.drop_last()[0] == u[0]);
        lemma_trim_end_keeps(u.drop_last());
    }
}

/// Before any sentence-ending character, nothing is cut: the buffer holds
/// everything read.
proof fn lemma_punct_before_end(t: Seq<char>, n: nat)
    requires
        n <= t.len(),
        forall|i: int| 0 <= i < n ==> t[i] != '.' && t[i] != '!' && t[i] != '?',
    ensures
        punct_state(t, n) == (Seq::<Seq<char>>::empty(), t.take(n as int)),
    decreases n,
{
    if n > 0 {
        lemma_punct_before_end(t, (n - 1) as nat);
        assert(t.take(n - 1).push(t[n - 1]) =~= t.take(n as int));
    }
}

/// Pieces once cut stay cut as more text is read.
proof fn lemma_punct_parts_grow(t: Seq<char>, k: nat, m: nat)
    requires
        k <= m <= t.len(),
    ensures
        punct_state(t, k).0.len() <= punct_state(t, m).0.len(),
        forall|j: int| 0 <= j < punct_state(t, k).0.len() ==> #[trigger] punct_state(t, m).0[j] == punct_state(t, k).0[j],
    decreases m - k,
{
    if m > k {
        lemma_punct_parts_grow(t, k, (m - 1) as nat);
    }
}

/// A `.`, `!` or `?` followed by a space or tab and an uppercase letter ends
/// a sentence: in a text `a` + that mark + the space + `b`, where `a` holds
/// no sentence-ending mark and `b` starts with an uppercase letter, the
/// first piece is `a` with the mark, trimmed.
pub proof fn law_sentence_end_cuts(a: Seq<char>, mark: char, space: char, b: Seq<char>)
    requires
        mark == '.' || mark == '!' || mark == '?',
        space == ' ' || space == '\t',
        forall|i: int| 0 <= i < a.len() ==> a[i] != '.' && a[i] != '!' && a[i] != '?',
        b.len() > 0,
        unicode_uppercase(b[0]),
    ensures
        punctuation_pieces(a.push(mark).push(space) + b).len() >= 1,
        punctuation_pieces(a.push(mark).push(space) + b)[0] == trim(a.push(mark)),
{
    let t = a.push(mark).push(space) + b;
    let n = a.len();
    assert forall|i: int| 0 <= i < n implies t[i] != '.' && t[i] != '!' && t[i] != '?' by {
        assert(t[i] == a[i]);
    }
    lemma_punct_before_end(t, n as nat);
    assert(t.take(n as int) =~= a);
    assert(t[n as int] == mark);
    assert(t[n as int + 1] == space);
    assert(t[n as int + 2] == b[0]);
    assert(boundary_at(t, n as int));
    assert(a.push(mark)[n as int] == mark);
    assert(!crate::text::is_white_space(mark));
    lemma_trim_keeps_text(a.push(mark), n as int);
    assert(punct_state(t, (n + 1) as nat).0 == seq![trim(a.push(mark))]);
    lemma_punct_parts_grow(t, (n + 1) as nat, t.len());
    assert(punct_state(t, t.len()).0[0] == trim(a.push(mark)));
}

/// A text without `.`, `!` or `?` is never cut: it is one piece, trimmed.
pub proof fn law_no_sentence_end_no_cut(t: Seq<char>)
    requires
        forall|i: int| 0 <= i < t.len() ==> t[i] != '.' && t[i] != '!' && t[i] != '?',
    ensures
        punctuation_pieces(t) == seq![trim(t)],
{
    lemma_punct_before_end(t, t.len());
    assert(t.take(t.len() as int) =~= t);
    if trim(t).len() > 0 {
        assert(Seq::<Seq<char>>::empty().push(trim(t)) =~= seq![trim(t)]);
    }
}

// ---------------------------------------------------------------------------
// Implementation
// ---------------------------------------------------------------------------

/// The pieces of `cs` cut at sentence boundaries.
pub fn punctuation_pieces_of(cs: &[char]) -> (parts: Vec<Vec<char>>)
    ensures
        seqs_of(parts@) == punctuation_pieces(cs@),
{
    let n = cs.len();
    let mut parts: Vec<Vec<char>> = Vec::new();
    let mut buf: Vec<char> = Vec::new();
    let mut i: usize = 0;
    while i < n
        invariant
            i <= n,
            n == cs@.len(),
            (seqs_of(parts@), buf@) == punct_state(cs@, i as nat),
        decreases n - i,
    {
        let ch = cs[i];
        buf.push(ch);
        let boundary = (ch == '.' || ch == '!' || ch == '?') && n - i > 2 && (cs[i + 1] == ' '
            || cs[i + 1] == '\t') && cs[i + 2].is_uppercase();
        if boundary {
            let s = trim_chars(buf.as_slice());
            if s.len() > 0 {
                parts.push(s);
                assert(seqs_of(parts@) =~= punct_state(cs@, (i + 1) as nat).0);
            }
            buf = Vec::new();
        }
        i = i + 1;
    }
    let tail = trim_chars(buf.as_slice());
    if tail.len() > 0 {
        parts.push(tail);
    }
    assert(seqs_of(parts@) =~= (if trim(buf@).len() > 0 {
        punct_state(cs@, n as nat).0.push(trim(buf@))
    } else {
        punct_state(cs@, n as nat).0
    }));
    if parts.len() == 0 {
        let whole = trim_chars(cs);
        parts.push(whole);
        assert(seqs_of(parts@) =~= seq![trim(cs@)]);
    }
    parts
}

/// Split a long line into smaller pieces at sentence-ending punctuation.
/// Only splits where `. `, `! ` or `? ` (or a tab) is followed by an
/// uppercase letter.
pub fn split_at_punctuation(text: &str) -> (parts: Vec<String>)
    ensures
        strs_of(parts@) == punctuation_pieces(text@),
{
    let cs = chars_of(text);
    let pieces = punctuation_pieces_of(cs.as_slice());
    strings_from(&pieces)
}

/// The sentences of `cs`.
pub fn sentences_of(cs: &[char]) -> (out: Vec<Vec<char>>)
    ensures
        seqs_of(out@) == sentences(cs@),
{
    let ls = lines_of(cs);
    let mut out: Vec<Vec<char>> = Vec::new();
    let mut k: usize = 0;
    while k < ls.len()
        invariant
            k <= ls@.len(),
            seqs_of(ls@) == lines(cs@),
            seqs_of(out@) == sentences_of_lines(seqs_of(ls@).take(k as int)),
        decreases ls@.len() - k,
    {
        assert(seqs_of(ls@).take(k + 1).drop_last() =~= seqs_of(ls@).take(k as int));
        let line = trim_chars(ls[k].as_slice());
        if line.len() > 0 {
            if word_count(line.as_slice()) > LONG_LINE_WORDS {
                let pieces = punctuation_pieces_of(line.as_slice());
                let ghost before = seqs_of(out@);
                let mut j: usize = 0;
                while j < pieces.len()
                    invariant
                        j <= pieces@.len(),
                        seqs_of(out@) == before + seqs_of(pieces@).take(j as int),
                    decreases pieces@.len() - j,
                {
                    let ghost prev = out@;
                    let piece = clone_chars(&pieces[j]);
                    out.push(piece);
                    proof {
                        lemma_seqs_of_push(prev, piece);
                        assert(seqs_of(pieces@).take(j + 1) =~= seqs_of(pieces@).take(j as int).push(
                            pieces@[j as int]@,
                        ));
                    }
                    j = j + 1;
                    assert(seqs_of(out@) =~= before + seqs_of(pieces@).take(j as int));
                }
                assert(seqs_of(pieces@).take(j as int) =~= seqs_of(pieces@));
            } else {
                out.push(line);
                assert(seqs_of(out@) =~= sentences_of_lines(seqs_of(ls@).take(k + 1)));
            }
        }
        k = k + 1;
    }
    assert(seqs_of(ls@).take(k as int) =~= seqs_of(ls@));
    if out.len() == 0 {
        let whole = trim_chars(cs);
        if whole.len() > 0 {
            out.push(whole);
            assert(seqs_of(out@) =~= seq![trim(cs@)]);
        }
    }
    out
}

/// Split `text` into sentences: non-blank lines, trimmed, with lines of more
/// than 30 words cut further at punctuation; the whole trimmed text when
/// that leaves nothing.
pub fn split_sentences(text: &str) -> (out: Vec<String>)
    ensures
        strs_of(out@) == sentences(text@),
{
    let cs = chars_of(text);
    let s = sentences_of(cs.as_slice());
    strings_from(&s)
}

/// The character vectors of a list of strings.
pub fn chars_of_all(v: &Vec<String>) -> (out: Vec<Vec<char>>)
    ensures
        seqs_of(out@) == strs_of(v@),
{
    let mut out: Vec<Vec<char>> = Vec::new();
    let mut i: usize = 0;
    while i < v.len()
        invariant
            i <= v@.len(),
            out@.len() == i,
            forall|k: int| 0 <= k < i ==> #[trigger] out@[k]@ == v@[k]@,
        decreases v@.len() - i,
    {
        out.push(chars_of(v[i].as_str()));
        i = i + 1;
    }
    assert(seqs_of(out@) =~= strs_of(v@));
    out
}

/// Group sentences into overlapping chunks: `per_chunk` sentences each,
/// consecutive chunks sharing `overlap` sentences, joined with a space.
/// No sentences give one empty chunk; sentences that all fit give one chunk.
pub fn chunk_sentences(sentences: Vec<String>, per_chunk: usize, overlap: usize) -> (out: Vec<String>)
    ensures
        strs_of(out@) == chunks(strs_of(sentences@), per_chunk as nat, overlap as nat),
{
    let s = chars_of_all(&sentences);
    let n = s.len();
    let space: Vec<char> = vec![' '];
    assert(space@ =~= seq![' ']);
    if n == 0 {
        let out = vec![String::new()];
        assert(strs_of(out@) =~= seq![Seq::<char>::empty()]);
        return out;
    }
    if n <= per_chunk {
        let joined = join_chars(&s, space.as_slice());
        let out = vec![string_from_chars(joined.as_slice())];
        assert(strs_of(out@) =~= seq![join(seqs_of(s@), seq![' '])]);
        return out;
    }
    let step: usize = if per_chunk > overlap {
        per_chunk - overlap
    } else {
        1
    };
    let ghost all = seqs_of(s@);
    let mut out: Vec<String> = Vec::new();
    let mut start: usize = 0;
    loop
        invariant_except_break
            n == s@.len(),
            all == seqs_of(s@),
            per_chunk < n,
            start <= n,
            space@ == seq![' '],
            step == chunk_step(per_chunk as nat, overlap as nat),
            strs_of(out@) + chunks_from(all, start as nat, per_chunk as nat, overlap as nat)
                == chunks_from(all, 0, per_chunk as nat, overlap as nat),
        ensures
            strs_of(out@) == chunks_from(all, 0, per_chunk as nat, overlap as nat),
        decreases n - start,
    {
        let end = if per_chunk < n - start {
            start + per_chunk
        } else {
            n
        };
        let mut piece: Vec<Vec<char>> = Vec::new();
        let mut k: usize = start;
        while k < end
            invariant
                start <= k <= end,
                end <= n,
                n == s@.len(),
                seqs_of(piece@) == seqs_of(s@).subrange(start as int, k as int),
            decreases end - k,
        {
            let ghost prev = piece@;
            let item = clone_chars(&s[k]);
            piece.push(item);
            proof {
                lemma_seqs_of_push(prev, item);
                assert(seqs_of(s@).subrange(start as int, k + 1) =~= seqs_of(s@).subrange(
                    start as int,
                    k as int,
                ).push(s@[k as int]@));
            }
            k = k + 1;
        }
        let joined = join_chars(&piece, space.as_slice());
        let ghost before = strs_of(out@);
        out.push(string_from_chars(joined.as_slice()));
        assert(strs_of(out@) =~= before.push(joined@));
        if end == n {
            assert(chunks_from(all, start as nat, per_chunk as nat, overlap as nat) == seq![joined@]);
            assert(before.push(joined@) =~= before + seq![joined@]);
            break;
        }
        assert(chunks_from(all, start as nat, per_chunk as nat, overlap as nat) == seq![joined@]
            + chunks_from(all, (start + step) as nat, per_chunk as nat, overlap as nat));
        assert(strs_of(out@) + chunks_from(all, (start + step) as nat, per_chunk as nat, overlap as nat)
            =~= before + (seq![joined@] + chunks_from(all, (start + step) as nat, per_chunk as nat, overlap as nat)));
        start = start + step;
    }
    out
}

/// Whether every chunk is blank once trimmed (nothing worth indexing).
pub fn all_blank(chunks: &Vec<String>) -> (blank: bool)
    ensures
        blank == (forall|i: int| 0 <= i < chunks@.len() ==> trim(#[trigger] chunks@[i]@).len() == 0),
{
    let mut i: usize = 0;
    while i < chunks.len()
        invariant
            i <= chunks@.len(),
            forall|j: int| 0 <= j < i ==> trim(#[trigger] chunks@[j]@).len() == 0,
        decreases chunks@.len() - i,
    {
        let cs = chars_of(chunks[i].as_str());
        let t = trim_chars(cs.as_slice());
        if t.len() > 0 {
            return false;
        }
        i = i + 1;
    }
    true
}

/// The `name=value` entries of the property pairs whose value is not empty.
pub open spec fn filled_properties(pairs: Seq<(String, String)>) -> Seq<Seq<char>>
    decreases pairs.len(),
{
    if pairs.len() == 0 {
        Seq::empty()
    } else {
        let prev = filled_properties(pairs.drop_last());
        let (name, value) = pairs.last();
        if value@.len() > 0 {
            prev.push(name@ + "="@ + value@)
        } else {
            prev
        }
    }
}

/// The line appended to a note's text before indexing: empty when no
/// property has a value, otherwise `\nProperties: ` and the filled
/// `name=value` entries joined with `, `.
pub open spec fn properties_suffix_of(pairs: Seq<(String, String)>) -> Seq<char> {
    let filled = filled_properties(pairs);
    if filled.len() == 0 {
        Seq::empty()
    } else {
        "\nProperties: "@ + join(filled, ", "@)
    }
}

/// Build the properties line for a note from its (name, value) pairs in
/// column order.
pub fn properties_suffix(pairs: &Vec<(String, String)>) -> (suffix: String)
    ensures
        suffix@ == properties_suffix_of(pairs@),
{
    proof {
        reveal_strlit("=");
        reveal_strlit(", ");
        reveal_strlit("\nProperties: ");
    }
    let mut filled: Vec<Vec<char>> = Vec::new();
    let mut i: usize = 0;
    while i < pairs.len()
        invariant
            i <= pairs@.len(),
            seqs_of(filled@) == filled_properties(pairs@.take(i as int)),
        decreases pairs@.len() - i,
    {
        assert(pairs@.take(i + 1).drop_last() =~= pairs@.take(i as int));
        let value = &pairs[i].1;
        if value.as_str().is_empty() == false {
            let mut entry = chars_of(pairs[i].0.as_str());
            entry.push('=');
            let v = chars_of(value.as_str());
            let ghost before = entry@;
            proof { reveal_strlit("="); }
            assert(before =~= pairs@[i as int].0@ + "="@);
            extend_chars(&mut entry, v.as_slice());
            assert(entry@ =~= pairs@[i as int].0@ + "="@ + pairs@[i as int].1@);
            let ghost prev = filled@;
            let ghost e = entry;
            filled.push(entry);
            proof {
                lemma_seqs_of_push(prev, e);
            }
        }
        i = i + 1;
    }
    assert(pairs@.take(i as int) =~= pairs@);
    if filled.len() == 0 {
        return String::new();
    }
    let sep: Vec<char> = vec![',', ' '];
    assert(sep@ =~= ", "@);
    let joined = join_chars(&filled, sep.as_slice());
    let mut out = String::from_str("\nProperties: ");
    let tail = string_from_chars(joined.as_slice());
    out.append(tail.as_str());
    out
}

/// The text indexed for a note: its content with the properties line
/// appended when there is one.
pub fn index_text(content: String, suffix: String) -> (text: String)
    ensures
        text@ == content@ + suffix@,
{
    if suffix.as_str().is_empty() {
        assert(content@ + suffix@ =~= content@);
        content
    } else {
        let mut text = content;
        text.append(suffix.as_str());
        text
    }
}

/// The chunks embedded for a note's indexed text: one sentence per chunk.
pub fn index_chunks(text: &str) -> (out: Vec<String>)
    ensures
        strs_of(out@) == chunks(sentences(text@), 1, 0),
{
    let s = split_sentences(text);
    chunk_sentences(s, 1, 0)
}

} // verus!
