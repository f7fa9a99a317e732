//! Tags (`#tag`) and wiki-links (`[[note title]]`) found in note content,
//! and the records of the tag browser and the knowledge graph.

use vstd::prelude::*;

use crate::text::{
    chars_of, contains_chars, copy_range, is_white_space, lemma_seqs_of_push, seqs_of,
    string_from_chars, strings_from, strs_of, trim, trim_chars, unicode_alphanumeric,
    unicode_lowercase,
};

verus! {

/// A minimal note reference for tag and link results.
pub struct LinkedNote {
    pub id: i64,
    pub title: String,
}

/// A node of the knowledge graph: a note's id and display title.
pub struct GraphNode {
    pub id: i64,
    pub title: String,
}

/// A directed edge between two notes of the knowledge graph.
pub struct GraphEdge {
    pub source: i64,
    pub target: i64,
}

/// A tag with the number of notes that carry it.
pub struct TagCount {
    pub name: String,
    pub count: i64,
}

// ---------------------------------------------------------------------------
// Tags
// ---------------------------------------------------------------------------

/// A character that may appear in a tag: alphanumeric, `_` or `-`.
pub open spec fn is_tag_char(c: char) -> bool {
    unicode_alphanumeric(c) || c == '_' || c == '-'
}

/// The end of the run of tag characters starting at `j`.
pub open spec fn tag_end(cs: Seq<char>, j: nat) -> nat
    decreases cs.len() - j,
{
    if j < cs.len() && is_tag_char(cs[j as int]) {
        tag_end(cs, j + 1)
    } else {
        j
    }
}

/// A tag starts at `i`: `#` at the start of the text or after white space,
/// followed by a tag character.
pub open spec fn tag_starts_at(cs: Seq<char>, i: nat) -> bool {
    &&& i + 1 < cs.len()
    &&& cs[i as int] == '#'
    &&& (i == 0 || is_white_space(cs[i - 1]))
    &&& is_tag_char(cs[i + 1 as int])
}

/// The tags found from position `i` on, added to `acc`: each lowercased,
/// each kept once, in order of first appearance.
pub open spec fn tags_from(cs: Seq<char>, i: nat, acc: Seq<Seq<char>>) -> Seq<Seq<char>>
    decreases cs.len() - i,
{
    if i >= cs.len() {
        acc
    } else if tag_starts_at(cs, i) {
        let end = tag_end(cs, i + 1);
        let tag = unicode_lowercase(cs.subrange(i + 1 as int, end as int));
        let acc2 = if acc.contains(tag) {
            acc
        } else {
            acc.push(tag)
        };
        if i < end <= cs.len() {
            tags_from(cs, end, acc2)
        } else {
            acc2
        }
    } else {
        tags_from(cs, i + 1, acc)
    }
}

/// The `#tag` mentions of a text.
pub open spec fn tags_of(content: Seq<char>) -> Seq<Seq<char>> {
    tags_from(content, 0, Seq::empty())
}

proof fn lemma_tag_end_bounds(cs: Seq<char>, j: nat)
    requires
        j <= cs.len(),
    ensures
        j <= tag_end(cs, j) <= cs.len(),
    decreases cs.len() - j,
{
    if j < cs.len() && is_tag_char(cs[j as int]) {
        lemma_tag_end_bounds(cs, j + 1);
    }
}

/// Extract `#tag` mentions from note content. A tag is `#` immediately
/// followed by letters, digits, `-` or `_`, preceded by white space or the
/// start of the text (so that `https://example.com/#section` is no tag).
/// Tags are lowercased and returned once each, in order of first appearance.
pub fn parse_tags(content: &str) -> (tags: Vec<String>)
    ensures
        strs_of(tags@) == tags_of(content@),
{
    let cs = chars_of(content);
    let n = cs.len();
    let mut tags: Vec<Vec<char>> = Vec::new();
    let mut i: usize = 0;
    assert(seqs_of(tags@) =~= Seq::<Seq<char>>::empty());
    while i < n
        invariant
            i <= n,
            n == cs@.len(),
            tags_of(cs@) == tags_from(cs@, i as nat, seqs_of(tags@)),
        decreases n - i,
    {
        if cs[i] == '#' && (i == 0 || cs[i - 1].is_whitespace()) && n - i > 1 && (cs[i
            + 1].is_alphanumeric() || cs[i + 1] == '_' || cs[i + 1] == '-') {
            let start = i + 1;
            let mut end = start;
            proof { lemma_tag_end_bounds(cs@, start as nat); }
            while end < n && (cs[end].is_alphanumeric() || cs[end] == '_' || cs[end] == '-')
                invariant
                    start <= end <= n,
                    n == cs@.len(),
                    tag_end(cs@, start as nat) == tag_end(cs@, end as nat),
                decreases n - end,
            {
                end = end + 1;
            }
            let raw = string_from_chars(copy_range(cs.as_slice(), start, end).as_slice());
            let lower = raw.as_str().to_lowercase();
            let tag = chars_of(lower.as_str());
            let ghost acc = seqs_of(tags@);
            if !contains_chars(&tags, tag.as_slice()) {
                let ghost prev = tags@;
                let ghost t = tag;
                tags.push(tag);
                proof { lemma_seqs_of_push(prev, t); }
            }
            assert(start < end);
            i = end;
        } else {
            i = i + 1;
        }
    }
    strings_from(&tags)
}

// ---------------------------------------------------------------------------
// Wiki-links
// ---------------------------------------------------------------------------

/// The first position at or after `i` where `c` appears twice in a row.
pub open spec fn find_pair(cs: Seq<char>, i: nat, c: char) -> Option<nat>
    decreases cs.len() - i,
{
    if i + 1 >= cs.len() {
        None
    } else if cs[i as int] == c && cs[i + 1 as int] == c {
        Some(i)
    } else {
        find_pair(cs, i + 1, c)
    }
}

/// The wiki-link titles found from position `i` on, added to `acc`: the
/// trimmed text between `[[` and the next `]]`, non-empty, each kept once.
pub open spec fn links_from(cs: Seq<char>, i: nat, acc: Seq<Seq<char>>) -> Seq<Seq<char>>
    decreases cs.len() - i,
{
    match find_pair(cs, i, '[') {
        None => acc,
        Some(open) => match find_pair(cs, open + 2, ']') {
            None => acc,
            Some(close) => {
                let title = trim(cs.subrange(open + 2 as int, close as int));
                let acc2 = if title.len() > 0 && !acc.contains(title) {
                    acc.push(title)
                } else {
                    acc
                };
                if i < close + 2 <= cs.len() {
                    links_from(cs, close + 2, acc2)
                } else {
                    acc2
                }
            },
        },
    }
}

/// The `[[note title]]` link targets of a text.
pub open spec fn links_of(content: Seq<char>) -> Seq<Seq<char>> {
    links_from(content, 0, Seq::empty())
}

proof fn lemma_find_pair_bounds(cs: Seq<char>, i: nat, c: char)
    ensures
        find_pair(cs, i, c) matches Some(k) ==> i <= k && k + 1 < cs.len() && cs[k as int] == c
            && cs[k + 1 as int] == c,
    decreases cs.len() - i,
{
    if i + 1 < cs.len() && !(cs[i as int] == c && cs[i + 1 as int] == c) {
        lemma_find_pair_bounds(cs, i + 1, c);
    }
}

/// The first position at or after `from` where `c` appears twice in a row.
fn find_pair_in(cs: &[char], from: usize, c: char) -> (found: Option<usize>)
    ensures
        match found {
            Some(k) => find_pair(cs@, from as nat, c) == Some(k as nat),
            None => find_pair(cs@, from as nat, c) is None,
        },
{
    let n = cs.len();
    let mut i = from;
    while i < n && n - i > 1
        invariant
            from <= i,
            n == cs@.len(),
            find_pair(cs@, from as nat, c) == find_pair(cs@, i as nat, c),
        decreases n - i,
    {
        if cs[i] == c && cs[i + 1] == c {
            return Some(i);
        }
        i = i + 1;
    }
    None
}

/// Extract `[[note title]]` wiki-link targets from note content: trimmed,
/// non-empty, each once, in order of first appearance.
pub fn parse_wiki_links(content: &str) -> (links: Vec<String>)
    ensures
        strs_of(links@) == links_of(content@),
{
    let cs = chars_of(content);
    let n = cs.len();
    let mut links: Vec<Vec<char>> = Vec::new();
    let mut i: usize = 0;
    assert(seqs_of(links@) =~= Seq::<Seq<char>>::empty());
    loop
        invariant_except_break
            i <= n,
            n == cs@.len(),
            links_of(cs@) == links_from(cs@, i as nat, seqs_of(links@)),
        ensures
            links_of(cs@) == seqs_of(links@),
        decreases n - i,
    {
        let open = match find_pair_in(cs.as_slice(), i, '[') {
            Some(o) => o,
            None => break,
        };
        proof { lemma_find_pair_bounds(cs@, i as nat, '['); }
        let close = match find_pair_in(cs.as_slice(), open + 2, ']') {
            Some(c) => c,
            None => break,
        };
        proof { lemma_find_pair_bounds(cs@, (open + 2) as nat, ']'); }
        let title = trim_chars(copy_range(cs.as_slice(), open + 2, close).as_slice());
        if title.len() > 0 && !contains_chars(&links, title.as_slice()) {
            let ghost prev = links@;
            let ghost t = title;
            links.push(title);
            proof { lemma_seqs_of_push(prev, t); }
        }
        i = close + 2;
    }
    strings_from(&links)
}

/// The notes a note links to, given the note found for each link title
/// (`None` when no note has that title): links to the note itself are
/// dropped.
pub fn link_targets(note_id: i64, found: &[Option<i64>]) -> (targets: Vec<i64>)
    ensures
        targets@ == found@.filter(|t: Option<i64>| t is Some && t->0 != note_id).map_values(
            |t: Option<i64>| t->0,
        ),
{
    let mut targets: Vec<i64> = Vec::new();
    let mut i: usize = 0;
    while i < found.len()
        invariant
            i <= found@.len(),
            targets@ == found@.take(i as int).filter(
                |t: Option<i64>| t is Some && t->0 != note_id,
            ).map_values(|t: Option<i64>| t->0),
        decreases found@.len() - i,
    {
        assert(found@.take(i + 1).drop_last() =~= found@.take(i as int));
        reveal_with_fuel(Seq::filter, 1);
        if let Some(t) = found[i] {
            if t != note_id {
                targets.push(t);
            }
        }
        i = i + 1;
        assert(targets@ =~= found@.take(i as int).filter(
            |t: Option<i64>| t is Some && t->0 != note_id,
        ).map_values(|t: Option<i64>| t->0));
    }
    assert(found@.take(i as int) =~= found@);
    targets
}

/// The stored form of a tag searched for: tags are stored lower-cased.
pub fn tag_key(tag: &str) -> (key: String)
    ensures
        key@ == unicode_lowercase(tag@),
{
    tag.to_lowercase()
}

} // verus!
