//! Wikipedia bundles: calendar timestamps, the checks on bundle states and
//! download file names, the bookkeeping of downloads and indexing, the
//! choice of the articles that are indexed, the plain text of article HTML
//! and the reading of the bundle catalogue.

use vstd::prelude::*;
use vstd::string::StringExecFns;
use ego_tree::iter::Edge;
use scraper::{ElementRef, Html, Node, Selector};

use crate::numbers::{decimal, push_padded_decimal, zero_padded};
use crate::text::{
    chars_of, has_infix, has_prefix, last_segment, last_segment_of, str_contains,
    str_eq, str_starts_with, string_from_chars, unicode_lowercase,
};

verus! {

/// A locally tracked bundle.
pub struct WikiBundle {
    pub id: String,
    pub name: String,
    pub flavour: String,
    pub title: Option<String>,
    pub article_count: Option<i64>,
    pub size_bytes: Option<i64>,
    pub zim_path: Option<String>,
    pub installed_at: Option<String>,
    pub last_synced: Option<String>,
    pub indexing_state: String,
}

// ---------------------------------------------------------------------------
// Calendar
// ---------------------------------------------------------------------------

/// The number of days from 1970-01-01 to the proleptic Gregorian date
/// `y-m-d` (years counted from March, in eras of 400 years).
pub open spec fn days_from_civil(y: int, m: int, d: int) -> int {
    let yy = if m <= 2 { y - 1 } else { y };
    let era = yy / 400;
    let yoe = yy - era * 400;
    let mp = if m > 2 { m - 3 } else { m + 9 };
    let doy = (153 * mp + 2) / 5 + d - 1;
    let doe = yoe * 365 + yoe / 4 - yoe / 100 + doy;
    era * 146097 + doe - 719468
}

/// The proleptic Gregorian date `days` days after 1970-01-01, as
/// (year, month, day): the day of its 400-year era, the year of the era,
/// the day of the year counted from March, then month and day.
pub open spec fn civil_from_days(days: int) -> (int, int, int) {
    let z = days + 719468;
    let era = z / 146097;
    let doe = z % 146097;
    let yoe = (doe - doe / 1460 + doe / 36524 - doe / 146096) / 365;
    let doy = doe - (365 * yoe + yoe / 4 - yoe / 100);
    let mp = (5 * doy + 2) / 153;
    let d = doy - (153 * mp + 2) / 5 + 1;
    let m = if mp < 10 { mp + 3 } else { mp - 9 };
    let y = yoe + era * 400 + if m <= 2 { 1int } else { 0int };
    (y, m, d)
}

/// Within an era, the year of the era and the day of that year stay in range.
#[verifier::rlimit(50)]
proof fn lemma_era_day(doe: int)
    requires
        0 <= doe < 146097,
    ensures
        0 <= (doe - doe / 1460 + doe / 36524 - doe / 146096) / 365 <= 399,
        0 <= doe - (365 * ((doe - doe / 1460 + doe / 36524 - doe / 146096) / 365) + ((doe - doe
            / 1460 + doe / 36524 - doe / 146096) / 365) / 4 - ((doe - doe / 1460 + doe / 36524 - doe
            / 146096) / 365) / 100) <= 365,
{
}

/// The day of the year counted from March gives a month index and a day of
/// that month in range.
proof fn lemma_month_day(doy: int)
    requires
        0 <= doy <= 365,
    ensures
        0 <= (5 * doy + 2) / 153 <= 11,
        0 <= doy - (153 * ((5 * doy + 2) / 153) + 2) / 5 <= 30,
{
}

/// Every day count names a date with a month in 1..=12 and a day in
/// 1..=31, and counting the days back from that date gives the same count:
/// the conversion to a calendar date loses nothing.
pub proof fn law_civil_date_round_trip(days: int)
    ensures
        1 <= civil_from_days(days).1 <= 12,
        1 <= civil_from_days(days).2 <= 31,
        days_from_civil(civil_from_days(days).0, civil_from_days(days).1, civil_from_days(days).2)
            == days,
{
    let z = days + 719468;
    let era = z / 146097;
    let doe = z % 146097;
    assert(z == era * 146097 + doe);
    lemma_era_day(doe);
    let yoe = (doe - doe / 1460 + doe / 36524 - doe / 146096) / 365;
    let doy = doe - (365 * yoe + yoe / 4 - yoe / 100);
    lemma_month_day(doy);
    let mp = (5 * doy + 2) / 153;
    let d = doy - (153 * mp + 2) / 5 + 1;
    let m = if mp < 10 { mp + 3 } else { mp - 9 };
    let y = yoe + era * 400 + if m <= 2 { 1int } else { 0int };
    assert(civil_from_days(days) == (y, m, d));
    lemma_civil_parts(era, yoe, doy, mp, d, m, y);
}

/// Counting the days back from the parts of a date computed in an era.
proof fn lemma_civil_parts(era: int, yoe: int, doy: int, mp: int, d: int, m: int, y: int)
    requires
        0 <= yoe <= 399,
        0 <= mp <= 11,
        d == doy - (153 * mp + 2) / 5 + 1,
        m == if mp < 10 { mp + 3 } else { mp - 9 },
        y == yoe + era * 400 + if m <= 2 { 1int } else { 0int },
    ensures
        days_from_civil(y, m, d) == era * 146097 + (yoe * 365 + yoe / 4 - yoe / 100 + doy) - 719468,
{
    let yy = if m <= 2 { y - 1 } else { y };
    assert(yy == yoe + era * 400);
    assert(yy / 400 == era);
    let mp2 = if m > 2 { m - 3 } else { m + 9 };
    assert(mp2 == mp);
}

/// The calendar date (year, month, day) `days` days after 1970-01-01.
pub fn days_to_ymd(days: u64) -> (ymd: (u64, u64, u64))
    requires
        days <= u64::MAX - 719468,
    ensures
        (ymd.0 as int, ymd.1 as int, ymd.2 as int) == civil_from_days(days as int),
{
    let z = days + 719468;
    let era = z / 146097;
    let doe = z % 146097;
    proof {
        lemma_era_day(doe as int);
    }
    let yoe = (doe - doe / 1460 + doe / 36524 - doe / 146096) / 365;
    let doy = doe - (365 * yoe + yoe / 4 - yoe / 100);
    proof {
        lemma_month_day(doy as int);
    }
    let mp = (5 * doy + 2) / 153;
    let d = doy - (153 * mp + 2) / 5 + 1;
    let m = if mp < 10 { mp + 3 } else { mp - 9 };
    let y = yoe + era * 400;
    let y = if m <= 2 { y + 1 } else { y };
    (y, m, d)
}

/// `n` in decimal with at least `width` digits.
pub open spec fn padded(n: int, width: nat) -> Seq<char> {
    zero_padded(decimal(n as nat), width)
}

/// The UTC timestamp of `secs` seconds after the Unix epoch, as
/// `YYYY-MM-DDTHH:MM:SSZ`.
pub open spec fn timestamp_of(secs: nat) -> Seq<char> {
    let date = civil_from_days((secs / 86400) as int);
    let t = (secs % 86400) as int;
    padded(date.0, 4) + seq!['-'] + padded(date.1, 2) + seq!['-'] + padded(date.2, 2) + seq!['T']
        + padded(t / 3600, 2) + seq![':'] + padded((t % 3600) / 60, 2) + seq![':'] + padded(t % 60, 2)
        + seq!['Z']
}

/// Format `secs` seconds after the Unix epoch as a UTC timestamp.
#[verifier::rlimit(40)]
pub fn timestamp_text(secs: u64) -> (stamp: String)
    ensures
        stamp@ == timestamp_of(secs as nat),
{
    let secs_in_day = secs % 86400;
    let days = secs / 86400;
    let (year, month, day) = days_to_ymd(days);
    let ghost date = civil_from_days(days as int);
    let ghost t = secs_in_day as int;
    let mut out: Vec<char> = Vec::new();
    push_padded_decimal(&mut out, year, 4);
    out.push('-');
    push_padded_decimal(&mut out, month, 2);
    out.push('-');
    push_padded_decimal(&mut out, day, 2);
    out.push('T');
    let ghost date_part = out@;
    assert(date_part =~= padded(date.0, 4) + seq!['-'] + padded(date.1, 2) + seq!['-'] + padded(date.2, 2) + seq!['T']);
    push_padded_decimal(&mut out, secs_in_day / 3600, 2);
    out.push(':');
    push_padded_decimal(&mut out, (secs_in_day % 3600) / 60, 2);
    out.push(':');
    push_padded_decimal(&mut out, secs_in_day % 60, 2);
    out.push('Z');
    assert(out@ =~= date_part + padded(t / 3600, 2) + seq![':'] + padded((t % 3600) / 60, 2) + seq![':'] + padded(t % 60, 2) + seq!['Z']);
    assert(out@ =~= timestamp_of(secs as nat));
    string_from_chars(out.as_slice())
}

// ---------------------------------------------------------------------------
// Bundle states and downloads
// ---------------------------------------------------------------------------

/// The indexing states that may be set from outside an indexing run.
pub open spec fn settable_state(state: Seq<char>) -> bool {
    state == "none"@ || state == "queued"@ || state == "done"@ || state == "error"@
}

/// Accept an indexing state that may be set from outside an indexing run.
pub fn check_indexing_state(state: &str) -> (checked: Result<(), String>)
    ensures
        checked is Ok <==> settable_state(state@),
        checked matches Err(e) ==> e@ == "Invalid state: "@ + state@,
{
    if str_eq(state, "none") || str_eq(state, "queued") || str_eq(state, "done") || str_eq(
        state,
        "error",
    ) {
        Ok(())
    } else {
        let mut msg = String::from_str("Invalid state: ");
        proof {
            reveal_strlit("Invalid state: ");
        }
        msg.append(state);
        Err(msg)
    }
}

/// The file name a bundle is downloaded to: the last `/`-separated part of
/// its URL, which must end in `.zim`.
pub fn zim_file_name(download_url: &str) -> (name: Result<String, String>)
    ensures
        name matches Ok(n) ==> n@ == last_segment(download_url@, '/') && has_suffix_zim(n@),
        name is Err <==> !has_suffix_zim(last_segment(download_url@, '/')),
        name matches Err(e) ==> e@ == "Download URL does not end with a .zim filename"@,
{
    let cs = chars_of(download_url);
    let seg = last_segment_of(cs.as_slice(), '/');
    let ext: Vec<char> = vec!['.', 'z', 'i', 'm'];
    assert(ext@ =~= ".zim"@) by {
        reveal_strlit(".zim");
    }
    if crate::text::ends_with_chars(seg.as_slice(), ext.as_slice()) {
        Ok(string_from_chars(seg.as_slice()))
    } else {
        Err(String::from_str("Download URL does not end with a .zim filename"))
    }
}

/// Whether a file name ends in `.zim`.
pub open spec fn has_suffix_zim(name: Seq<char>) -> bool {
    ".zim"@.len() <= name.len() && name.skip(name.len() - ".zim"@.len()) == ".zim"@
}

/// Progress events are sent after at least this many new bytes.
pub const PROGRESS_STEP_BYTES: i64 = 524288;

/// How much of a download has arrived and how much had arrived when the
/// last progress event went out.
pub struct DownloadProgress {
    pub downloaded: i64,
    pub last_emit: i64,
}

impl DownloadProgress {
    /// Nothing arrived, no event sent.
    pub fn new() -> (p: DownloadProgress)
        ensures
            p.downloaded == 0,
            p.last_emit == 0,
    {
        DownloadProgress { downloaded: 0, last_emit: 0 }
    }

    /// Count a chunk of `len` bytes; return whether a progress event is due,
    /// which it is once the bytes since the last event reach the step.
    pub fn record_chunk(&mut self, len: usize) -> (emit: bool)
        requires
            0 <= old(self).last_emit <= old(self).downloaded,
            old(self).downloaded + len <= i64::MAX,
        ensures
            final(self).downloaded == old(self).downloaded + len,
            emit == (final(self).downloaded - old(self).last_emit >= PROGRESS_STEP_BYTES),
            final(self).last_emit == if emit {
                final(self).downloaded
            } else {
                old(self).last_emit
            },
    {
        self.downloaded = self.downloaded + len as i64;
        if self.downloaded - self.last_emit >= PROGRESS_STEP_BYTES {
            self.last_emit = self.downloaded;
            true
        } else {
            false
        }
    }
}

// ---------------------------------------------------------------------------
// Indexing
// ---------------------------------------------------------------------------

/// Bundle entries read per indexing window.
pub const SCAN_WINDOW: u32 = 1024;

/// Articles embedded per embedding request.
pub const BATCH_SIZE: usize = 64;

/// Articles shorter than this many characters (after HTML stripping) are skipped.
pub const MIN_ARTICLE_CHARS: usize = 500;

/// At most this many characters of an article are indexed.
pub const MAX_ARTICLE_CHARS: usize = 1500;

/// The entry an indexing run starts from: the stored checkpoint, or 0, cut
/// to 32 bits.
pub fn start_entry(checkpoint: Option<i64>) -> (entry: u32)
    ensures
        entry == match checkpoint {
            Some(v) => v as u32,
            None => 0u32,
        },
{
    match checkpoint {
        Some(v) => v as u32,
        None => 0,
    }
}

/// The end of the indexing window that starts at `scan_pos`.
pub fn window_end(scan_pos: u32, total: u32) -> (end: u32)
    requires
        scan_pos + SCAN_WINDOW <= u32::MAX,
    ensures
        end == if scan_pos + SCAN_WINDOW < total {
            (scan_pos + SCAN_WINDOW) as u32
        } else {
            total
        },
{
    let e = scan_pos + SCAN_WINDOW;
    if e < total {
        e
    } else {
        total
    }
}

/// The last entry stored after a batch and the number of articles stored:
/// an article is stored when its embedding came back non-empty.
pub open spec fn batch_outcome(last: u32, entries: Seq<u32>, embedded: Seq<bool>) -> (u32, nat)
    decreases entries.len(),
{
    if entries.len() == 0 {
        (last, 0)
    } else {
        let prev = batch_outcome(last, entries.drop_last(), embedded);
        if embedded[entries.len() - 1] {
            (entries.last(), prev.1 + 1)
        } else {
            prev
        }
    }
}

/// Fold a batch into the checkpoint: the entry of the last article whose
/// embedding came back, and how many did.
pub fn record_batch(last: u32, entries: &[u32], embedded: &[bool]) -> (outcome: (u32, usize))
    requires
        entries@.len() == embedded@.len(),
    ensures
        (outcome.0, outcome.1 as nat) == batch_outcome(last, entries@, embedded@),
{
    let mut cur = last;
    let mut count: usize = 0;
    let mut i: usize = 0;
    while i < entries.len()
        invariant
            entries@.len() == embedded@.len(),
            i <= entries@.len(),
            count <= i,
            (cur, count as nat) == batch_outcome(last, entries@.take(i as int), embedded@),
        decreases entries@.len() - i,
    {
        assert(entries@.take(i + 1).drop_last() =~= entries@.take(i as int));
        if embedded[i] {
            cur = entries[i];
            count = count + 1;
        }
        i = i + 1;
    }
    assert(entries@.take(i as int) =~= entries@);
    (cur, count)
}

/// The checkpoint value stored after entry `last`: the entry to resume from.
pub fn next_checkpoint(last: u32) -> (entry: i64)
    ensures
        entry == last + 1,
{
    last as i64 + 1
}

/// An article chosen for indexing.
pub struct IndexedArticle {
    pub entry: u32,
    pub article_id: String,
    pub title: String,
    pub content: String,
    pub doc_text: String,
}

/// Entry paths of style sheets, templates, modules and other non-articles.
pub open spec fn skipped_path(path: Seq<char>) -> bool {
    let lower = unicode_lowercase(path);
    ||| has_prefix(path, "."@)
    ||| has_prefix(path, "-/"@)
    ||| has_infix(lower, "mediawiki:"@)
    ||| has_infix(lower, "module:"@)
    ||| has_infix(lower, "template:"@)
    ||| has_infix(lower, "wikipedia:"@)
    ||| has_infix(lower, "file:"@)
}

/// Article texts that are stubs, style sheets or disambiguation pages.
pub open spec fn skipped_text(text: Seq<char>) -> bool {
    ||| text.len() < MIN_ARTICLE_CHARS
    ||| has_infix(text, ".mw-parser-output"@)
    ||| has_prefix(text, ".mw-"@)
    ||| has_infix(text, "/* start https://"@)
    ||| has_infix(text, "may refer to:"@)
    ||| has_infix(text, "disambiguation"@)
}

/// The indexed part of an article text.
pub open spec fn article_content(text: Seq<char>) -> Seq<char> {
    if text.len() > MAX_ARTICLE_CHARS {
        text.take(MAX_ARTICLE_CHARS as int)
    } else {
        text
    }
}

/// Whether an article was chosen with the given fields.
pub open spec fn chosen_article(
    a: IndexedArticle,
    bundle_id: Seq<char>,
    entry: u32,
    path: Seq<char>,
    title: Seq<char>,
    text: Seq<char>,
) -> bool {
    &&& a.entry == entry
    &&& a.article_id@ == bundle_id + seq!['/'] + path
    &&& a.title@ == title
    &&& a.content@ == article_content(text)
    &&& a.doc_text@ == "search_document: "@ + title + seq!['\n'] + article_content(text)
}

/// Choose an article for indexing from its entry path, title and plain
/// text: none when the path or the text marks it as a non-article.
pub fn choose_article(bundle_id: &str, entry: u32, path: &str, title: &str, text: &str) -> (article: Option<IndexedArticle>)
    ensures
        article is None <==> skipped_path(path@) || skipped_text(text@),
        article matches Some(a) ==> chosen_article(a, bundle_id@, entry, path@, title@, text@),
{
    if path_is_skipped(path) {
        return None;
    }
    let cs = chars_of(text);
    if cs.len() < MIN_ARTICLE_CHARS || str_contains(text, ".mw-parser-output") || str_starts_with(
        text,
        ".mw-",
    ) || str_contains(text, "/* start https://") || str_contains(text, "may refer to:")
        || str_contains(text, "disambiguation") {
        return None;
    }
    let content_chars = if cs.len() > MAX_ARTICLE_CHARS {
        crate::text::copy_range(cs.as_slice(), 0, MAX_ARTICLE_CHARS)
    } else {
        crate::text::copy_range(cs.as_slice(), 0, cs.len())
    };
    assert(content_chars@ =~= article_content(text@));
    let content = string_from_chars(content_chars.as_slice());
    let mut doc_text = String::from_str("search_document: ");
    doc_text.append(title);
    let mut nl = String::new();
    nl.push('\n');
    doc_text.append(nl.as_str());
    doc_text.append(content.as_str());
    let mut article_id = String::new();
    article_id.append(bundle_id);
    article_id.push('/');
    article_id.append(path);
    assert(article_id@ =~= bundle_id@ + seq!['/'] + path@);
    assert(doc_text@ =~= "search_document: "@ + title@ + seq!['\n'] + article_content(text@));
    let mut t = String::new();
    t.append(title);
    Some(IndexedArticle { entry, article_id, title: t, content, doc_text })
}

/// Whether an entry path marks a non-article.
fn path_is_skipped(path: &str) -> (skipped: bool)
    ensures
        skipped == skipped_path(path@),
{
    let lower = path.to_lowercase();
    let l = lower.as_str();
    str_starts_with(path, ".") || str_starts_with(path, "-/") || str_contains(l, "mediawiki:")
        || str_contains(l, "module:") || str_contains(l, "template:") || str_contains(
        l,
        "wikipedia:",
    ) || str_contains(l, "file:")
}

// ---------------------------------------------------------------------------
// Plain text of article HTML
// ---------------------------------------------------------------------------

/// The walk of an HTML document parsed by `scraper`, from the first
/// element matching the selector list `body_sel`, in the order of
/// `ego_tree`'s `traverse`: each node is opened, then its children are
/// walked, then it is closed. Each step is (kind, name or text, matched):
/// kind 0 when an element opens, with its local name and whether it
/// matches the selector list `skip_sel` with the walk's first element as
/// scope; kind 1 when a text node opens, with its text; kind 2 when any
/// other node opens; kind 3 when any node closes. `None` when either
/// selector list does not parse or no element matches `body_sel`.
pub uninterp spec fn html_body_nodes(html: Seq<char>, body_sel: Seq<char>, skip_sel: Seq<char>) -> Option<Seq<(u8, Seq<char>, bool)>>;

/// The views of parsed HTML nodes.
pub open spec fn node_views(v: Seq<(u8, String, bool)>) -> Seq<(u8, Seq<char>, bool)> {
    Seq::new(v.len(), |i: int| (v[i].0, v[i].1@, v[i].2))
}

/// Parses both selector lists with `scraper::Selector::parse`, parses
/// `html` with `scraper::Html::parse_document`, takes the first element
/// matching `body_sel` and converts each edge of its `traverse()` walk,
/// one arm per variant. Claimed: the result is the named walk of the
/// arguments. Nothing else is claimed of the parse.
#[verifier::external_body]
fn parse_html_body(html: &str, body_sel: &str, skip_sel: &str) -> (nodes: Option<Vec<(u8, String, bool)>>)
    ensures
        html_body_nodes(html@, body_sel@, skip_sel@) == match nodes {
            Some(v) => Some(node_views(v@)),
            None => None::<Seq<(u8, Seq<char>, bool)>>,
        },
{
    let body_selector = Selector::parse(body_sel).ok()?;
    let skip = Selector::parse(skip_sel).ok()?;
    let doc = Html::parse_document(html);
    let body = doc.select(&body_selector).next()?;
    Some(body.traverse().map(|edge| match edge {
        Edge::Open(n) => match n.value() {
            Node::Element(e) => (0u8, e.name().to_string(),
                ElementRef::wrap(n).is_some_and(|r| skip.matches_with_scope(&r, Some(body)))),
            Node::Text(t) => (1u8, t.to_string(), false),
            _ => (2u8, String::new(), false),
        },
        Edge::Close(_) => (3u8, String::new(), false),
    }).collect())
}

/// Elements after which a line break separates paragraphs.
pub open spec fn is_block_name(name: Seq<char>) -> bool {
    ||| name == "p"@
    ||| name == "h1"@
    ||| name == "h2"@
    ||| name == "h3"@
    ||| name == "h4"@
    ||| name == "h5"@
    ||| name == "h6"@
    ||| name == "li"@
    ||| name == "dt"@
    ||| name == "dd"@
    ||| name == "br"@
}

/// The text gathered from a walk, with how many nodes deep the walk is
/// inside a skipped element (0 when it is not): text nodes laid end to
/// end and a line break when a block element opens, except inside an
/// element that matched the skip list, which is passed over with all that
/// it holds. The walk's first element is never skipped.
pub open spec fn walk_text(nodes: Seq<(u8, Seq<char>, bool)>) -> (Seq<char>, nat)
    decreases nodes.len(),
{
    if nodes.len() == 0 {
        (Seq::empty(), 0)
    } else {
        let (text, depth) = walk_text(nodes.drop_last());
        let n = nodes.last();
        if n.0 == 3 {
            (text, if depth > 0 { (depth - 1) as nat } else { 0 })
        } else if depth > 0 {
            (text, depth + 1)
        } else if n.0 == 0 && n.2 && nodes.len() > 1 {
            (text, 1)
        } else if n.0 == 0 && is_block_name(n.1) {
            (text.push('\n'), 0)
        } else if n.0 == 1 {
            (text + n.1, 0)
        } else {
            (text, 0)
        }
    }
}

/// The text of a walk, before white space is tidied.
pub open spec fn raw_node_text(nodes: Seq<(u8, Seq<char>, bool)>) -> Seq<char> {
    walk_text(nodes).0
}

/// Outside skipped elements, a paragraph, heading (`h1` to `h6`), list
/// item, definition term or description, or line break element that opens
/// starts a new line: the text gathered so far gets a line break and the
/// element's own text follows on the next line.
pub proof fn law_block_elements_start_a_line(nodes: Seq<(u8, Seq<char>, bool)>, name: Seq<char>, skip: bool)
    requires
        nodes.len() > 0,
        walk_text(nodes).1 == 0,
        !skip,
        name == "p"@ || name == "h1"@ || name == "h2"@ || name == "h3"@ || name == "h4"@ || name
            == "h5"@ || name == "h6"@ || name == "li"@ || name == "dt"@ || name == "dd"@ || name
            == "br"@,
    ensures
        raw_node_text(nodes.push((0u8, name, skip))) == raw_node_text(nodes).push('\n'),
        walk_text(nodes.push((0u8, name, skip))).1 == 0,
{
    assert(nodes.push((0u8, name, skip)).drop_last() =~= nodes);
}

/// What each step of a walk adds outside skipped elements: a text node
/// its text, any other element than the block elements nothing; and
/// inside a skipped element (or when one opens) nothing at all.
pub proof fn law_walk_steps_add_text(nodes: Seq<(u8, Seq<char>, bool)>, step: (u8, Seq<char>, bool))
    requires
        nodes.len() > 0,
    ensures
        walk_text(nodes).1 == 0 && step.0 == 1 ==> raw_node_text(nodes.push(step)) == raw_node_text(nodes) + step.1,
        walk_text(nodes).1 == 0 && step.0 == 0 && !step.2 && !(step.1 == "p"@ || step.1 == "h1"@ || step.1
            == "h2"@ || step.1 == "h3"@ || step.1 == "h4"@ || step.1 == "h5"@ || step.1 == "h6"@
            || step.1 == "li"@ || step.1 == "dt"@ || step.1 == "dd"@ || step.1 == "br"@)
            ==> raw_node_text(nodes.push(step)) == raw_node_text(nodes),
        walk_text(nodes).1 > 0 || (step.0 == 0 && step.2) ==> raw_node_text(nodes.push(step)) == raw_node_text(
            nodes,
        ),
{
    assert(nodes.push(step).drop_last() =~= nodes);
}

/// Each line with its white-space runs collapsed to one space, blank lines
/// dropped, each kept line ended by a line break.
pub open spec fn squeezed_lines(ls: Seq<Seq<char>>) -> Seq<char>
    decreases ls.len(),
{
    if ls.len() == 0 {
        Seq::empty()
    } else {
        let prev = squeezed_lines(ls.drop_last());
        let w = crate::text::join(crate::text::words(ls.last()), seq![' ']);
        if w.len() > 0 {
            prev + w + seq!['\n']
        } else {
            prev
        }
    }
}

/// The plain text of parsed HTML nodes.
pub open spec fn plain_text_of(nodes: Seq<(u8, Seq<char>, bool)>) -> Seq<char> {
    crate::text::trim(squeezed_lines(crate::text::lines(raw_node_text(nodes))))
}

/// Whether an element name is one of the block elements.
fn block_name(name: &str) -> (b: bool)
    ensures
        b == is_block_name(name@),
{
    str_eq(name, "p") || str_eq(name, "h1") || str_eq(name, "h2") || str_eq(name, "h3") || str_eq(
        name,
        "h4",
    ) || str_eq(name, "h5") || str_eq(name, "h6") || str_eq(name, "li") || str_eq(name, "dt")
        || str_eq(name, "dd") || str_eq(name, "br")
}

/// The plain text of an HTML walk: texts laid end to end, a line break
/// where a block element opens, skipped elements passed over with all that
/// they hold, white space collapsed within lines, blank lines dropped, the
/// whole trimmed.
pub fn text_of_nodes(nodes: &Vec<(u8, String, bool)>) -> (text: String)
    ensures
        text@ == plain_text_of(node_views(nodes@)),
{
    let ghost views = node_views(nodes@);
    let mut out: Vec<char> = Vec::new();
    let mut depth: usize = 0;
    let mut i: usize = 0;
    while i < nodes.len()
        invariant
            i <= nodes@.len(),
            depth <= i,
            views == node_views(nodes@),
            out@ == walk_text(views.take(i as int)).0,
            depth as nat == walk_text(views.take(i as int)).1,
        decreases nodes@.len() - i,
    {
        assert(views.take(i + 1).drop_last() =~= views.take(i as int));
        let n = &nodes[i];
        if n.0 == 3 {
            if depth > 0 {
                depth = depth - 1;
            }
        } else if depth > 0 {
            depth = depth + 1;
        } else if n.0 == 0 && n.2 && i > 0 {
            depth = 1;
        } else if n.0 == 0 {
            if block_name(n.1.as_str()) {
                out.push('\n');
            }
        } else if n.0 == 1 {
            let cs = chars_of(n.1.as_str());
            crate::text::extend_chars(&mut out, cs.as_slice());
        }
        i = i + 1;
    }
    assert(views.take(i as int) =~= views);
    let ls = crate::text::lines_of(out.as_slice());
    let mut result: Vec<char> = Vec::new();
    let space: Vec<char> = vec![' '];
    assert(space@ =~= seq![' ']);
    let mut k: usize = 0;
    while k < ls.len()
        invariant
            k <= ls@.len(),
            space@ == seq![' '],
            crate::text::seqs_of(ls@) == crate::text::lines(raw_node_text(views)),
            result@ == squeezed_lines(crate::text::seqs_of(ls@).take(k as int)),
        decreases ls@.len() - k,
    {
        assert(crate::text::seqs_of(ls@).take(k + 1).drop_last() =~= crate::text::seqs_of(ls@).take(
            k as int,
        ));
        let ws = crate::text::words_of(ls[k].as_slice());
        let joined = crate::text::join_chars(&ws, space.as_slice());
        if joined.len() > 0 {
            crate::text::extend_chars(&mut result, joined.as_slice());
            result.push('\n');
        }
        k = k + 1;
    }
    assert(crate::text::seqs_of(ls@).take(k as int) =~= crate::text::seqs_of(ls@));
    let trimmed = crate::text::trim_chars(result.as_slice());
    string_from_chars(trimmed.as_slice())
}

/// The elements whose content adds nothing to an article's text.
pub open spec fn skipped_elements() -> Seq<char> {
    "script, style, nav, .toc, #toc"@
}

/// The plain text of an article's HTML: the text of its body, block
/// elements on lines of their own, scripts, styles, navigation and tables
/// of contents left out with all that they hold, white space collapsed,
/// blank lines dropped; empty when there is no body.
pub fn html_to_text(html: &str) -> (text: String)
    ensures
        text@ == match html_body_nodes(html@, "body"@, skipped_elements()) {
            Some(ns) => plain_text_of(ns),
            None => Seq::<char>::empty(),
        },
{
    match parse_html_body(html, "body", "script, style, nav, .toc, #toc") {
        Some(nodes) => text_of_nodes(&nodes),
        None => String::new(),
    }
}

// ---------------------------------------------------------------------------
// The bundle catalogue
// ---------------------------------------------------------------------------

/// A catalogue entry offered for download.
pub struct CatalogueEntry {
    pub id: String,
    pub name: String,
    pub title: String,
    pub flavour: String,
    pub article_count: Option<i64>,
    pub size_bytes: Option<i64>,
    pub download_url: Option<String>,
    pub sha256_url: Option<String>,
}

/// The content of a catalogue entry.
pub struct CatalogueEntryView {
    pub id: Seq<char>,
    pub name: Seq<char>,
    pub title: Seq<char>,
    pub flavour: Seq<char>,
    pub article_count: Option<i64>,
    pub size_bytes: Option<i64>,
    pub download_url: Option<Seq<char>>,
    pub sha256_url: Option<Seq<char>>,
}

/// The view of an optional string.
pub open spec fn opt_str(s: Option<String>) -> Option<Seq<char>> {
    match s {
        Some(t) => Some(t@),
        None => None,
    }
}

impl View for CatalogueEntry {
    type V = CatalogueEntryView;

    open spec fn view(&self) -> CatalogueEntryView {
        CatalogueEntryView {
            id: self.id@,
            name: self.name@,
            title: self.title@,
            flavour: self.flavour@,
            article_count: self.article_count,
            size_bytes: self.size_bytes,
            download_url: opt_str(self.download_url),
            sha256_url: opt_str(self.sha256_url),
        }
    }
}

/// One node of a parsed XML document, with what the catalogue reads of it:
/// whether it is an element, its namespace and local name, its text (that
/// of its first child when that is a text node) and three attributes.
pub struct XmlChild {
    pub is_element: bool,
    pub namespace: Option<String>,
    pub name: String,
    pub text: Option<String>,
    pub rel: Option<String>,
    pub href: Option<String>,
    pub length: Option<String>,
}

/// The content of an XML node.
pub struct XmlNodeView {
    pub is_element: bool,
    pub namespace: Option<Seq<char>>,
    pub name: Seq<char>,
    pub text: Option<Seq<char>>,
    pub rel: Option<Seq<char>>,
    pub href: Option<Seq<char>>,
    pub length: Option<Seq<char>>,
}

impl View for XmlChild {
    type V = XmlNodeView;

    open spec fn view(&self) -> XmlNodeView {
        XmlNodeView {
            is_element: self.is_element,
            namespace: opt_str(self.namespace),
            name: self.name@,
            text: opt_str(self.text),
            rel: opt_str(self.rel),
            href: opt_str(self.href),
            length: opt_str(self.length),
        }
    }
}

/// What `roxmltree::Document::parse` makes of `xml`: the children of the
/// root element, each with its own children, or the parser's error message.
pub uninterp spec fn xml_root_children(xml: Seq<char>) -> Result<Seq<(XmlNodeView, Seq<XmlNodeView>)>, Seq<char>>;

/// The views of XML nodes.
pub open spec fn xml_views(v: Seq<XmlChild>) -> Seq<XmlNodeView> {
    Seq::new(v.len(), |i: int| v[i]@)
}

/// The views of XML nodes with their children.
pub open spec fn xml_tree_views(v: Seq<(XmlChild, Vec<XmlChild>)>) -> Seq<(XmlNodeView, Seq<XmlNodeView>)> {
    Seq::new(v.len(), |i: int| (v[i].0@, xml_views(v[i].1@)))
}

/// Calls `roxmltree::Document::parse` and reads the children of the root
/// element and their children: element test, tag name, `text()` and the
/// `rel`, `href` and `length` attributes. Claimed: the result is the named
/// structure of the document, or its error's message.
#[verifier::external_body]
fn read_xml_root_children(xml: &str) -> (nodes: Result<Vec<(XmlChild, Vec<XmlChild>)>, String>)
    ensures
        xml_root_children(xml@) == match nodes {
            Ok(v) => Ok(xml_tree_views(v@)),
            Err(e) => Err(e@),
        },
{
    let doc = roxmltree::Document::parse(xml).map_err(|e| e.to_string())?;
    let conv = |c: roxmltree::Node| XmlChild {
        is_element: c.is_element(), namespace: c.tag_name().namespace().map(String::from),
        name: c.tag_name().name().to_string(), text: c.text().map(String::from),
        rel: c.attribute("rel").map(String::from), href: c.attribute("href").map(String::from),
        length: c.attribute("length").map(String::from),
    };
    Ok(doc.root_element().children().map(|n| (conv(n), n.children().map(conv).collect())).collect())
}

/// Whether a node is an Atom element with local name `tag`.
pub open spec fn is_atom(n: XmlNodeView, tag: Seq<char>) -> bool {
    n.is_element && n.namespace == Some("http://www.w3.org/2005/Atom"@) && n.name == tag
}

/// The text of the first Atom child named `tag`; empty when there is none
/// or it has no text.
pub open spec fn child_text(children: Seq<XmlNodeView>, tag: Seq<char>) -> Seq<char>
    decreases children.len(),
{
    if children.len() == 0 {
        Seq::empty()
    } else if is_atom(children[0], tag) {
        match children[0].text {
            Some(t) => t,
            None => Seq::empty(),
        }
    } else {
        child_text(children.drop_first(), tag)
    }
}

/// The first Atom `link` child with the open-access acquisition relation.
pub open spec fn acquisition_link(children: Seq<XmlNodeView>) -> Option<XmlNodeView>
    decreases children.len(),
{
    if children.len() == 0 {
        None
    } else if is_atom(children[0], "link"@) && children[0].rel == Some(
        "http://opds-spec.org/acquisition/open-access"@,
    ) {
        Some(children[0])
    } else {
        acquisition_link(children.drop_first())
    }
}

/// The catalogue entry an Atom `entry` element describes, if it is a
/// no-picture bundle with an id.
pub open spec fn entry_of(children: Seq<XmlNodeView>) -> Option<CatalogueEntryView> {
    let flavour = child_text(children, "flavour"@);
    let id = crate::text::strip_leading(child_text(children, "id"@), "urn:uuid:"@);
    if flavour != "nopic"@ || id.len() == 0 {
        None
    } else {
        let link = acquisition_link(children);
        Some(
            CatalogueEntryView {
                id,
                name: child_text(children, "name"@),
                title: child_text(children, "title"@),
                flavour,
                article_count: crate::numbers::parsed_i64(child_text(children, "articleCount"@)),
                size_bytes: match link {
                    Some(l) => match l.length {
                        Some(len) => crate::numbers::parsed_i64(len),
                        None => None,
                    },
                    None => None,
                },
                download_url: match link {
                    Some(l) => match l.href {
                        Some(h) => Some(crate::text::strip_trailing(h, ".meta4"@)),
                        None => None,
                    },
                    None => None,
                },
                sha256_url: None,
            },
        )
    }
}

/// The catalogue entries of the children of the root element, in order.
pub open spec fn catalogue_of(nodes: Seq<(XmlNodeView, Seq<XmlNodeView>)>) -> Seq<CatalogueEntryView>
    decreases nodes.len(),
{
    if nodes.len() == 0 {
        Seq::empty()
    } else {
        let prev = catalogue_of(nodes.drop_last());
        if is_atom(nodes.last().0, "entry"@) {
            match entry_of(nodes.last().1) {
                Some(e) => prev.push(e),
                None => prev,
            }
        } else {
            prev
        }
    }
}

/// Whether a child of the catalogue's root is a downloadable no-picture
/// bundle: an Atom `entry` whose `flavour` text is `nopic` and whose `id`
/// text, without a leading `urn:uuid:`, is not empty.
pub open spec fn is_nopic_entry(n: (XmlNodeView, Seq<XmlNodeView>)) -> bool {
    &&& is_atom(n.0, "entry"@)
    &&& child_text(n.1, "flavour"@) == "nopic"@
    &&& crate::text::strip_leading(child_text(n.1, "id"@), "urn:uuid:"@).len() > 0
}

/// The root's children that are downloadable no-picture bundles, in order.
pub open spec fn nopic_entries(nodes: Seq<(XmlNodeView, Seq<XmlNodeView>)>) -> Seq<(XmlNodeView, Seq<XmlNodeView>)> {
    nodes.filter(|n: (XmlNodeView, Seq<XmlNodeView>)| is_nopic_entry(n))
}

/// The catalogue has one entry for each root child that is a no-picture
/// Atom entry with an id, in document order: as many entries as such
/// children, each with that child's id (without `urn:uuid:`), name and
/// title, and the flavour `nopic`.
pub proof fn law_catalogue_lists_every_nopic_entry(nodes: Seq<(XmlNodeView, Seq<XmlNodeView>)>)
    ensures
        catalogue_of(nodes).len() == nopic_entries(nodes).len(),
        forall|i: int|
            0 <= i < catalogue_of(nodes).len() ==> {
                let c = #[trigger] nopic_entries(nodes)[i].1;
                &&& catalogue_of(nodes)[i].id == crate::text::strip_leading(
                    child_text(c, "id"@),
                    "urn:uuid:"@,
                )
                &&& catalogue_of(nodes)[i].name == child_text(c, "name"@)
                &&& catalogue_of(nodes)[i].title == child_text(c, "title"@)
                &&& catalogue_of(nodes)[i].flavour == "nopic"@
            },
    decreases nodes.len(),
{
    reveal_with_fuel(Seq::filter, 1);
    if nodes.len() > 0 {
        law_catalogue_lists_every_nopic_entry(nodes.drop_last());
        assert(nopic_entries(nodes) == if is_nopic_entry(nodes.last()) {
            nopic_entries(nodes.drop_last()).push(nodes.last())
        } else {
            nopic_entries(nodes.drop_last())
        });
    } else {
        assert(nopic_entries(nodes) =~= nodes);
    }
}

/// The views of catalogue entries.
pub open spec fn catalogue_views(v: Seq<CatalogueEntry>) -> Seq<CatalogueEntryView> {
    Seq::new(v.len(), |i: int| v[i]@)
}

/// Clone an optional string.
fn clone_opt_str(s: &Option<String>) -> (out: Option<String>)
    ensures
        opt_str(out) == opt_str(*s),
{
    match s {
        Some(t) => Some(t.clone()),
        None => None,
    }
}

/// Whether a node is an Atom element with local name `tag`.
fn atom_tag(n: &XmlChild, tag: &str) -> (b: bool)
    ensures
        b == is_atom(n@, tag@),
{
    if !n.is_element {
        return false;
    }
    match &n.namespace {
        Some(ns) => str_eq(ns.as_str(), "http://www.w3.org/2005/Atom") && str_eq(n.name.as_str(), tag),
        None => false,
    }
}

/// The text of the first Atom child named `tag`.
fn child_text_of(children: &Vec<XmlChild>, tag: &str) -> (text: String)
    ensures
        text@ == child_text(xml_views(children@), tag@),
{
    let ghost vs = xml_views(children@);
    let mut i: usize = 0;
    assert(vs.skip(0) =~= vs);
    while i < children.len()
        invariant
            i <= children@.len(),
            vs == xml_views(children@),
            child_text(vs, tag@) == child_text(vs.skip(i as int), tag@),
        decreases children@.len() - i,
    {
        assert(vs.skip(i as int).drop_first() =~= vs.skip(i + 1));
        assert(vs.skip(i as int)[0] == children@[i as int]@);
        if atom_tag(&children[i], tag) {
            return match &children[i].text {
                Some(t) => t.clone(),
                None => String::new(),
            };
        }
        i = i + 1;
    }
    String::new()
}

/// The first Atom `link` child with the open-access acquisition relation.
fn acquisition_link_of(children: &Vec<XmlChild>) -> (link: Option<usize>)
    ensures
        match link {
            Some(k) => k < children@.len() && acquisition_link(xml_views(children@)) == Some(
                children@[k as int]@,
            ),
            None => acquisition_link(xml_views(children@)) is None,
        },
{
    let ghost vs = xml_views(children@);
    let mut i: usize = 0;
    assert(vs.skip(0) =~= vs);
    while i < children.len()
        invariant
            i <= children@.len(),
            vs == xml_views(children@),
            acquisition_link(vs) == acquisition_link(vs.skip(i as int)),
        decreases children@.len() - i,
    {
        assert(vs.skip(i as int).drop_first() =~= vs.skip(i + 1));
        assert(vs.skip(i as int)[0] == children@[i as int]@);
        let c = &children[i];
        if atom_tag(c, "link") {
            let is_acq = match &c.rel {
                Some(r) => str_eq(r.as_str(), "http://opds-spec.org/acquisition/open-access"),
                None => false,
            };
            if is_acq {
                return Some(i);
            }
        }
        i = i + 1;
    }
    None
}

/// The catalogue entry of an Atom `entry` element's children, if any.
pub fn entry_from_children(children: &Vec<XmlChild>) -> (entry: Option<CatalogueEntry>)
    ensures
        match entry {
            Some(e) => entry_of(xml_views(children@)) == Some(e@),
            None => entry_of(xml_views(children@)) is None,
        },
{
    let flavour = child_text_of(children, "flavour");
    let raw_id = child_text_of(children, "id");
    let raw_cs = chars_of(raw_id.as_str());
    let prefix = chars_of("urn:uuid:");
    let id_cs = crate::text::strip_leading_of(raw_cs.as_slice(), prefix.as_slice());
    if !str_eq(flavour.as_str(), "nopic") || id_cs.len() == 0 {
        return None;
    }
    let id = string_from_chars(id_cs.as_slice());
    let name = child_text_of(children, "name");
    let title = child_text_of(children, "title");
    let count_text = child_text_of(children, "articleCount");
    let article_count = crate::numbers::parse_i64(count_text.as_str());
    let mut size_bytes: Option<i64> = None;
    let mut download_url: Option<String> = None;
    match acquisition_link_of(children) {
        Some(k) => {
            let link = &children[k];
            match &link.href {
                Some(h) => {
                    let hc = chars_of(h.as_str());
                    let suffix = chars_of(".meta4");
                    let direct = crate::text::strip_trailing_of(hc.as_slice(), suffix.as_slice());
                    download_url = Some(string_from_chars(direct.as_slice()));
                },
                None => {},
            }
            match &link.length {
                Some(len) => {
                    size_bytes = crate::numbers::parse_i64(len.as_str());
                },
                None => {},
            }
        },
        None => {},
    }
    let e = CatalogueEntry {
        id,
        name,
        title,
        flavour,
        article_count,
        size_bytes,
        download_url,
        sha256_url: None,
    };
    assert(e@ == entry_of(xml_views(children@))->Some_0);
    Some(e)
}

/// The no-picture catalogue entries among the children of the root element.
pub fn catalogue_from_nodes(nodes: &Vec<(XmlChild, Vec<XmlChild>)>) -> (entries: Vec<CatalogueEntry>)
    ensures
        catalogue_views(entries@) == catalogue_of(xml_tree_views(nodes@)),
{
    let ghost tv = xml_tree_views(nodes@);
    let mut entries: Vec<CatalogueEntry> = Vec::new();
    let mut i: usize = 0;
    while i < nodes.len()
        invariant
            i <= nodes@.len(),
            tv == xml_tree_views(nodes@),
            catalogue_views(entries@) == catalogue_of(tv.take(i as int)),
        decreases nodes@.len() - i,
    {
        assert(tv.take(i + 1).drop_last() =~= tv.take(i as int));
        let node = &nodes[i];
        if atom_tag(&node.0, "entry") {
            match entry_from_children(&node.1) {
                Some(e) => {
                    let ghost prev = entries@;
                    entries.push(e);
                    assert(catalogue_views(entries@) =~= catalogue_views(prev).push(e@));
                },
                None => {},
            }
        }
        i = i + 1;
    }
    assert(tv.take(i as int) =~= tv);
    entries
}

/// Parse the bundle catalogue (an Atom feed) and return its no-picture
/// entries; an unparsable document gives the parser's message.
pub fn parse_catalogue(xml: &str) -> (entries: Result<Vec<CatalogueEntry>, String>)
    ensures
        match xml_root_children(xml@) {
            Ok(nodes) => entries matches Ok(v) && catalogue_views(v@) == catalogue_of(nodes),
            Err(msg) => entries matches Err(e) && e@ == "Failed to parse catalogue XML: "@ + msg,
        },
{
    match read_xml_root_children(xml) {
        Ok(nodes) => Ok(catalogue_from_nodes(&nodes)),
        Err(msg) => {
            let mut e = String::from_str("Failed to parse catalogue XML: ");
            proof {
                reveal_strlit("Failed to parse catalogue XML: ");
            }
            e.append(msg.as_str());
            Err(e)
        },
    }
}

} // verus!
