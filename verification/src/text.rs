//! Character-level text utilities over `Seq<char>` models of strings:
//! white space, trimming, line splitting, word splitting and joining, with
//! the meaning that `str::trim`, `str::lines`, `str::split_whitespace` and
//! `[String]::join` have in std.

use vstd::prelude::*;

verus! {

/// The Unicode `White_Space` property (PropList.txt), which is what
/// `char::is_whitespace` tests.
pub open spec fn is_white_space(c: char) -> bool {
    let u = c as u32;
    ||| 0x9 <= u <= 0xd
    ||| u == 0x20
    ||| u == 0x85
    ||| u == 0xa0
    ||| u == 0x1680
    ||| 0x2000 <= u <= 0x200a
    ||| u == 0x2028
    ||| u == 0x2029
    ||| u == 0x202f
    ||| u == 0x205f
    ||| u == 0x3000
}

/// Whether `char::is_alphanumeric` holds of `c` (Unicode `Alphabetic` or `Numeric`).
pub uninterp spec fn unicode_alphanumeric(c: char) -> bool;

/// Whether `char::is_uppercase` holds of `c` (Unicode `Uppercase`).
pub uninterp spec fn unicode_uppercase(c: char) -> bool;

/// The characters of `str::to_lowercase` applied to `s`.
pub uninterp spec fn unicode_lowercase(s: Seq<char>) -> Seq<char>;

/// `char::is_whitespace` tests the Unicode `White_Space` property.
pub assume_specification[ char::is_whitespace ](c: char) -> (b: bool)
    ensures
        b == is_white_space(c),
;

/// `char::is_alphanumeric` tests the Unicode `Alphabetic` or `Numeric`
/// property; the result is named, not spelled out.
pub assume_specification[ char::is_alphanumeric ](c: char) -> (b: bool)
    ensures
        b == unicode_alphanumeric(c),
;

/// `char::is_uppercase` tests the Unicode `Uppercase` property; the result
/// is named, not spelled out.
pub assume_specification[ char::is_uppercase ](c: char) -> (b: bool)
    ensures
        b == unicode_uppercase(c),
;

/// `str::to_lowercase` gives the Unicode lowercase form of the whole
/// string (one character's form may depend on its neighbours, as the Greek
/// final sigma does); the result is named, not spelled out.
pub assume_specification[ str::to_lowercase ](s: &str) -> (lower: String)
    ensures
        lower@ == unicode_lowercase(s@),
;

/// `String::push` appends one character to the end of the string.
pub assume_specification[ String::push ](string: &mut String, ch: char)
    ensures
        final(string)@ == old(string)@.push(ch),
;

// ---------------------------------------------------------------------------
// Specifications
// ---------------------------------------------------------------------------

/// `s` without its leading white space.
pub open spec fn trim_start(s: Seq<char>) -> Seq<char>
    decreases s.len(),
{
    if s.len() > 0 && is_white_space(s[0]) {
        trim_start(s.drop_first())
    } else {
        s
    }
}

/// `s` without its trailing white space.
pub open spec fn trim_end(s: Seq<char>) -> Seq<char>
    decreases s.len(),
{
    if s.len() > 0 && is_white_space(s.last()) {
        trim_end(s.drop_last())
    } else {
        s
    }
}

/// `s` without leading and trailing white space (`str::trim`).
pub open spec fn trim(s: Seq<char>) -> Seq<char> {
    trim_end(trim_start(s))
}

/// A line without the carriage return that ended it, if any.
pub open spec fn strip_cr(line: Seq<char>) -> Seq<char> {
    if line.len() > 0 && line.last() == '\r' {
        line.drop_last()
    } else {
        line
    }
}

/// After reading `p`: the lines finished so far and the unfinished line.
pub open spec fn line_state(p: Seq<char>) -> (Seq<Seq<char>>, Seq<char>)
    decreases p.len(),
{
    if p.len() == 0 {
        (Seq::empty(), Seq::empty())
    } else {
        let (done, cur) = line_state(p.drop_last());
        if p.last() == '\n' {
            (done.push(strip_cr(cur)), Seq::empty())
        } else {
            (done, cur.push(p.last()))
        }
    }
}

/// The lines of `s` (`str::lines`): split at `\n`, a `\r` just before the
/// `\n` dropped, and no empty line after a final `\n`.
pub open spec fn lines(s: Seq<char>) -> Seq<Seq<char>> {
    let (done, cur) = line_state(s);
    if cur.len() > 0 {
        done.push(cur)
    } else {
        done
    }
}

/// After reading `p`: the words finished so far and the unfinished word.
pub open spec fn word_state(p: Seq<char>) -> (Seq<Seq<char>>, Seq<char>)
    decreases p.len(),
{
    if p.len() == 0 {
        (Seq::empty(), Seq::empty())
    } else {
        let (done, cur) = word_state(p.drop_last());
        if is_white_space(p.last()) {
            if cur.len() > 0 {
                (done.push(cur), Seq::empty())
            } else {
                (done, Seq::empty())
            }
        } else {
            (done, cur.push(p.last()))
        }
    }
}

/// The maximal runs of non-white-space characters of `s`
/// (`str::split_whitespace`).
pub open spec fn words(s: Seq<char>) -> Seq<Seq<char>> {
    let (done, cur) = word_state(s);
    if cur.len() > 0 {
        done.push(cur)
    } else {
        done
    }
}

/// The parts laid end to end with `sep` between neighbours (`join`).
pub open spec fn join(parts: Seq<Seq<char>>, sep: Seq<char>) -> Seq<char>
    decreases parts.len(),
{
    if parts.len() == 0 {
        Seq::empty()
    } else if parts.len() == 1 {
        parts[0]
    } else {
        join(parts.drop_last(), sep) + sep + parts.last()
    }
}

/// The character sequences of a list of character vectors.
pub open spec fn seqs_of(v: Seq<Vec<char>>) -> Seq<Seq<char>> {
    Seq::new(v.len(), |i: int| v[i]@)
}

/// The character sequences of a list of strings.
pub open spec fn strs_of(v: Seq<String>) -> Seq<Seq<char>> {
    Seq::new(v.len(), |i: int| v[i]@)
}

/// `seqs_of` after a push.
pub proof fn lemma_seqs_of_push(v: Seq<Vec<char>>, x: Vec<char>)
    ensures
        seqs_of(v.push(x)) == seqs_of(v).push(x@),
{
    assert(seqs_of(v.push(x)) =~= seqs_of(v).push(x@));
}

/// `strs_of` after a push.
pub proof fn lemma_strs_of_push(v: Seq<String>, x: String)
    ensures
        strs_of(v.push(x)) == strs_of(v).push(x@),
{
    assert(strs_of(v.push(x)) =~= strs_of(v).push(x@));
}

// ---------------------------------------------------------------------------
// Executable helpers
// ---------------------------------------------------------------------------

/// The characters of `s`, in order.
pub fn chars_of(s: &str) -> (out: Vec<char>)
    ensures
        out@ == s@,
{
    let mut out: Vec<char> = Vec::new();
    for c in it: s.chars()
        invariant
            out@ == it.seq().take(it.index() as int),
    {
        out.push(c);
    }
    out
}

/// A `String` holding exactly the characters of `cs`.
pub fn string_from_chars(cs: &[char]) -> (out: String)
    ensures
        out@ == cs@,
{
    let mut out = String::new();
    let mut i: usize = 0;
    while i < cs.len()
        invariant
            i <= cs@.len(),
            out@ == cs@.take(i as int),
        decreases cs@.len() - i,
    {
        out.push(cs[i]);
        i = i + 1;
        assert(cs@.take(i as int) =~= cs@.take((i - 1) as int).push(cs@[i - 1]));
    }
    assert(cs@.take(i as int) =~= cs@);
    out
}

/// Append the characters of `src` to `out`.
pub fn extend_chars(out: &mut Vec<char>, src: &[char])
    ensures
        final(out)@ == old(out)@ + src@,
{
    let mut i: usize = 0;
    while i < src.len()
        invariant
            i <= src@.len(),
            out@ == old(out)@ + src@.take(i as int),
        decreases src@.len() - i,
    {
        out.push(src[i]);
        i = i + 1;
        assert(out@ =~= old(out)@ + src@.take(i as int));
    }
    assert(src@.take(i as int) =~= src@);
}

/// A copy of `cs[from..to]`.
pub fn copy_range(cs: &[char], from: usize, to: usize) -> (out: Vec<char>)
    requires
        from <= to <= cs@.len(),
    ensures
        out@ == cs@.subrange(from as int, to as int),
{
    let mut out: Vec<char> = Vec::new();
    let mut i: usize = from;
    while i < to
        invariant
            from <= i <= to,
            to <= cs@.len(),
            out@ == cs@.subrange(from as int, i as int),
        decreases to - i,
    {
        out.push(cs[i]);
        i = i + 1;
        assert(out@ =~= cs@.subrange(from as int, i as int));
    }
    out
}

/// A copy of `v`.
pub fn clone_chars(v: &Vec<char>) -> (out: Vec<char>)
    ensures
        out@ == v@,
{
    let out = copy_range(v.as_slice(), 0, v.len());
    assert(out@ =~= v@);
    out
}

/// Whether two character sequences are equal.
pub fn chars_equal(a: &[char], b: &[char]) -> (eq: bool)
    ensures
        eq == (a@ == b@),
{
    if a.len() != b.len() {
        return false;
    }
    let mut i: usize = 0;
    while i < a.len()
        invariant
            a@.len() == b@.len(),
            i <= a@.len(),
            a@.take(i as int) == b@.take(i as int),
        decreases a@.len() - i,
    {
        if a[i] != b[i] {
            assert(a@[i as int] != b@[i as int]);
            return false;
        }
        i = i + 1;
        assert(a@.take(i as int) =~= a@.take((i - 1) as int).push(a@[i - 1]));
        assert(b@.take(i as int) =~= b@.take((i - 1) as int).push(b@[i - 1]));
    }
    assert(a@ =~= a@.take(i as int));
    assert(b@ =~= b@.take(i as int));
    true
}

/// Whether `list` holds a sequence equal to `item`.
pub fn contains_chars(list: &Vec<Vec<char>>, item: &[char]) -> (found: bool)
    ensures
        found == seqs_of(list@).contains(item@),
{
    let mut i: usize = 0;
    while i < list.len()
        invariant
            i <= list@.len(),
            forall|j: int| 0 <= j < i ==> seqs_of(list@)[j] != item@,
        decreases list@.len() - i,
    {
        if chars_equal(list[i].as_slice(), item) {
            assert(seqs_of(list@)[i as int] == item@);
            return true;
        }
        i = i + 1;
    }
    false
}

/// Whether `cs` starts with `prefix`.
pub fn starts_with_chars(cs: &[char], prefix: &[char]) -> (b: bool)
    ensures
        b == (prefix@.len() <= cs@.len() && cs@.take(prefix@.len() as int) == prefix@),
{
    if prefix.len() > cs.len() {
        return false;
    }
    let mut i: usize = 0;
    while i < prefix.len()
        invariant
            prefix@.len() <= cs@.len(),
            i <= prefix@.len(),
            cs@.take(i as int) == prefix@.take(i as int),
        decreases prefix@.len() - i,
    {
        if cs[i] != prefix[i] {
            assert(cs@.take(prefix@.len() as int)[i as int] != prefix@[i as int]);
            return false;
        }
        i = i + 1;
        assert(cs@.take(i as int) =~= cs@.take((i - 1) as int).push(cs@[i - 1]));
        assert(prefix@.take(i as int) =~= prefix@.take((i - 1) as int).push(prefix@[i - 1]));
    }
    assert(prefix@.take(i as int) =~= prefix@);
    true
}

/// Whether `cs` ends with `suffix`.
pub fn ends_with_chars(cs: &[char], suffix: &[char]) -> (b: bool)
    ensures
        b == (suffix@.len() <= cs@.len() && cs@.skip(cs@.len() - suffix@.len()) == suffix@),
{
    if suffix.len() > cs.len() {
        return false;
    }
    let off = cs.len() - suffix.len();
    let mut i: usize = 0;
    while i < suffix.len()
        invariant
            off + suffix@.len() == cs@.len(),
            cs@.len() == cs.len(),
            i <= suffix@.len(),
            forall|j: int| 0 <= j < i ==> cs@[off + j] == suffix@[j],
        decreases suffix@.len() - i,
    {
        if cs[off + i] != suffix[i] {
            assert(cs@.skip(off as int)[i as int] != suffix@[i as int]);
            return false;
        }
        i = i + 1;
    }
    assert(cs@.skip(off as int) =~= suffix@);
    true
}

/// `cs` without leading and trailing white space (`str::trim`).
pub fn trim_chars(cs: &[char]) -> (out: Vec<char>)
    ensures
        out@ == trim(cs@),
{
    let n = cs.len();
    let mut i: usize = 0;
    assert(cs@.subrange(0, n as int) =~= cs@);
    while i < n && cs[i].is_whitespace()
        invariant
            i <= n,
            n == cs@.len(),
            trim_start(cs@) == trim_start(cs@.subrange(i as int, n as int)),
        decreases n - i,
    {
        assert(cs@.subrange(i as int, n as int).drop_first() =~= cs@.subrange(i + 1, n as int));
        i = i + 1;
    }
    assert(trim_start(cs@.subrange(i as int, n as int)) == cs@.subrange(i as int, n as int));
    let mut j: usize = n;
    while j > i && cs[j - 1].is_whitespace()
        invariant
            i <= j <= n,
            n == cs@.len(),
            trim_start(cs@) == cs@.subrange(i as int, n as int),
            trim(cs@) == trim_end(cs@.subrange(i as int, j as int)),
        decreases j - i,
    {
        assert(cs@.subrange(i as int, j as int).drop_last() =~= cs@.subrange(i as int, j - 1));
        j = j - 1;
    }
    copy_range(cs, i, j)
}

/// The lines of `cs` (`str::lines`).
pub fn lines_of(cs: &[char]) -> (out: Vec<Vec<char>>)
    ensures
        seqs_of(out@) == lines(cs@),
{
    let mut done: Vec<Vec<char>> = Vec::new();
    let mut cur: Vec<char> = Vec::new();
    let mut i: usize = 0;
    while i < cs.len()
        invariant
            i <= cs@.len(),
            (seqs_of(done@), cur@) == line_state(cs@.take(i as int)),
        decreases cs@.len() - i,
    {
        let c = cs[i];
        assert(cs@.take(i + 1).drop_last() =~= cs@.take(i as int));
        if c == '\n' {
            if cur.len() > 0 && cur[cur.len() - 1] == '\r' {
                cur.pop();
            }
            let line = cur;
            done.push(line);
            cur = Vec::new();
            assert(seqs_of(done@) =~= line_state(cs@.take(i + 1)).0);
        } else {
            cur.push(c);
        }
        i = i + 1;
    }
    assert(cs@.take(i as int) =~= cs@);
    if cur.len() > 0 {
        done.push(cur);
        assert(seqs_of(done@) =~= lines(cs@));
    }
    done
}

/// The words of `cs` (`str::split_whitespace`).
pub fn words_of(cs: &[char]) -> (out: Vec<Vec<char>>)
    ensures
        seqs_of(out@) == words(cs@),
{
    let mut done: Vec<Vec<char>> = Vec::new();
    let mut cur: Vec<char> = Vec::new();
    let mut i: usize = 0;
    while i < cs.len()
        invariant
            i <= cs@.len(),
            (seqs_of(done@), cur@) == word_state(cs@.take(i as int)),
        decreases cs@.len() - i,
    {
        let c = cs[i];
        assert(cs@.take(i + 1).drop_last() =~= cs@.take(i as int));
        if c.is_whitespace() {
            if cur.len() > 0 {
                let word = cur;
                done.push(word);
                cur = Vec::new();
                assert(seqs_of(done@) =~= word_state(cs@.take(i + 1)).0);
            }
        } else {
            cur.push(c);
        }
        i = i + 1;
    }
    assert(cs@.take(i as int) =~= cs@);
    if cur.len() > 0 {
        done.push(cur);
        assert(seqs_of(done@) =~= words(cs@));
    }
    done
}

/// The number of words of `cs` (`split_whitespace().count()`).
pub fn word_count(cs: &[char]) -> (n: usize)
    ensures
        n == words(cs@).len(),
{
    let ws = words_of(cs);
    ws.len()
}

/// `parts` laid end to end with `sep` between neighbours.
pub fn join_chars(parts: &Vec<Vec<char>>, sep: &[char]) -> (out: Vec<char>)
    ensures
        out@ == join(seqs_of(parts@), sep@),
{
    let mut out: Vec<char> = Vec::new();
    let mut i: usize = 0;
    while i < parts.len()
        invariant
            i <= parts@.len(),
            out@ == join(seqs_of(parts@).take(i as int), sep@),
        decreases parts@.len() - i,
    {
        assert(seqs_of(parts@).take(i + 1).drop_last() =~= seqs_of(parts@).take(i as int));
        if i > 0 {
            extend_chars(&mut out, sep);
        }
        extend_chars(&mut out, parts[i].as_slice());
        i = i + 1;
        if i == 1 {
            assert(out@ =~= join(seqs_of(parts@).take(i as int), sep@));
        }
    }
    assert(seqs_of(parts@).take(i as int) =~= seqs_of(parts@));
    out
}

/// Strings of the given character sequences.
pub fn strings_from(parts: &Vec<Vec<char>>) -> (out: Vec<String>)
    ensures
        strs_of(out@) == seqs_of(parts@),
{
    let mut out: Vec<String> = Vec::new();
    let mut i: usize = 0;
    while i < parts.len()
        invariant
            i <= parts@.len(),
            out@.len() == i,
            forall|k: int| 0 <= k < i ==> #[trigger] out@[k]@ == parts@[k]@,
        decreases parts@.len() - i,
    {
        out.push(string_from_chars(parts[i].as_slice()));
        i = i + 1;
    }
    assert(strs_of(out@) =~= seqs_of(parts@));
    out
}

/// Whether `pat` occurs in `s` (`str::contains` with a string pattern).
pub open spec fn has_infix(s: Seq<char>, pat: Seq<char>) -> bool {
    exists|i: int| 0 <= i && i + pat.len() <= s.len() && #[trigger] s.subrange(i, i + pat.len()) == pat
}

/// The part of `s` after its last `c` (all of `s` when there is none), as
/// the last item of `str::split(c)`.
pub open spec fn last_segment(s: Seq<char>, c: char) -> Seq<char>
    decreases s.len(),
{
    if s.len() == 0 {
        s
    } else if s.last() == c {
        Seq::empty()
    } else {
        last_segment(s.drop_last(), c).push(s.last())
    }
}

/// `s` with every leading repetition of `p` removed (`str::trim_start_matches`).
pub open spec fn strip_leading(s: Seq<char>, p: Seq<char>) -> Seq<char>
    decreases s.len(),
{
    if p.len() > 0 && p.len() <= s.len() && s.take(p.len() as int) == p {
        strip_leading(s.skip(p.len() as int), p)
    } else {
        s
    }
}

/// `s` with every trailing repetition of `p` removed (`str::trim_end_matches`).
pub open spec fn strip_trailing(s: Seq<char>, p: Seq<char>) -> Seq<char>
    decreases s.len(),
{
    if p.len() > 0 && p.len() <= s.len() && s.skip(s.len() - p.len()) == p {
        strip_trailing(s.take(s.len() - p.len()), p)
    } else {
        s
    }
}

/// Whether `pat` occurs in `s` at position `at`.
fn occurs_at(s: &[char], pat: &[char], at: usize) -> (b: bool)
    requires
        at + pat@.len() <= s@.len(),
    ensures
        b == (s@.subrange(at as int, at + pat@.len()) == pat@),
{
    let mut k: usize = 0;
    while k < pat.len()
        invariant
            at + pat@.len() <= s@.len(),
            s@.len() == s.len(),
            k <= pat@.len(),
            forall|j: int| 0 <= j < k ==> s@[at + j] == pat@[j],
        decreases pat@.len() - k,
    {
        if s[at + k] != pat[k] {
            assert(s@.subrange(at as int, at + pat@.len())[k as int] != pat@[k as int]);
            return false;
        }
        k = k + 1;
    }
    assert(s@.subrange(at as int, at + pat@.len()) =~= pat@);
    true
}

/// Whether `pat` occurs in `s`.
pub fn infix_of(s: &[char], pat: &[char]) -> (found: bool)
    ensures
        found == has_infix(s@, pat@),
{
    if pat.len() > s.len() {
        return false;
    }
    if pat.len() == 0 {
        assert(s@.subrange(0int, 0int + pat@.len()) =~= pat@);
        return true;
    }
    let last = s.len() - pat.len();
    let mut i: usize = 0;
    while i <= last
        invariant
            last + pat@.len() == s@.len(),
            s@.len() == s.len(),
            pat@.len() > 0,
            i <= last + 1,
            forall|j: int| 0 <= j < i ==> #[trigger] s@.subrange(j, j + pat@.len()) != pat@,
        decreases last + 1 - i,
    {
        if occurs_at(s, pat, i) {
            return true;
        }
        i = i + 1;
    }
    false
}

/// Whether the string `s` contains `pat`.
pub fn str_contains(s: &str, pat: &str) -> (found: bool)
    ensures
        found == has_infix(s@, pat@),
{
    let a = chars_of(s);
    let b = chars_of(pat);
    infix_of(a.as_slice(), b.as_slice())
}

/// The part of `cs` after its last `c`.
pub fn last_segment_of(cs: &[char], c: char) -> (out: Vec<char>)
    ensures
        out@ == last_segment(cs@, c),
{
    let mut i: usize = cs.len();
    assert(cs@.take(i as int) =~= cs@);
    assert(cs@.skip(i as int) =~= Seq::<char>::empty());
    while i > 0 && cs[i - 1] != c
        invariant
            i <= cs@.len(),
            last_segment(cs@, c) == last_segment(cs@.take(i as int), c) + cs@.skip(i as int),
        decreases i,
    {
        assert(cs@.take(i as int).drop_last() =~= cs@.take(i - 1));
        assert(cs@.skip(i - 1) =~= seq![cs@[i - 1]] + cs@.skip(i as int));
        assert(last_segment(cs@.take(i as int), c) =~= last_segment(cs@.take(i - 1), c).push(cs@[i - 1]));
        i = i - 1;
    }
    assert(last_segment(cs@.take(i as int), c) =~= Seq::<char>::empty());
    copy_range(cs, i, cs.len())
}

/// `cs` with every leading repetition of `p` removed.
pub fn strip_leading_of(cs: &[char], p: &[char]) -> (out: Vec<char>)
    ensures
        out@ == strip_leading(cs@, p@),
{
    let mut i: usize = 0;
    assert(cs@.skip(0) =~= cs@);
    if p.len() == 0 {
        return copy_range(cs, 0, cs.len());
    }
    while p.len() <= cs.len() - i && occurs_at(cs, p, i)
        invariant
            i <= cs@.len(),
            p@.len() > 0,
            strip_leading(cs@, p@) == strip_leading(cs@.skip(i as int), p@),
        decreases cs@.len() - i,
    {
        assert(cs@.skip(i as int).take(p@.len() as int) =~= cs@.subrange(i as int, i + p@.len()));
        assert(cs@.skip(i as int).skip(p@.len() as int) =~= cs@.skip(i + p@.len()));
        i = i + p.len();
    }
    assert(p@.len() <= cs@.skip(i as int).len() ==> cs@.skip(i as int).take(p@.len() as int) =~= cs@.subrange(i as int, i + p@.len()));
    let out = copy_range(cs, i, cs.len());
    assert(out@ =~= cs@.skip(i as int));
    out
}

/// `cs` with every trailing repetition of `p` removed.
pub fn strip_trailing_of(cs: &[char], p: &[char]) -> (out: Vec<char>)
    ensures
        out@ == strip_trailing(cs@, p@),
{
    let mut j: usize = cs.len();
    assert(cs@.take(j as int) =~= cs@);
    if p.len() == 0 {
        return copy_range(cs, 0, cs.len());
    }
    while p.len() <= j && occurs_at(cs, p, j - p.len())
        invariant
            j <= cs@.len(),
            p@.len() > 0,
            strip_trailing(cs@, p@) == strip_trailing(cs@.take(j as int), p@),
        decreases j,
    {
        assert(cs@.take(j as int).skip(j - p@.len()) =~= cs@.subrange(j - p@.len(), j as int));
        assert(cs@.take(j as int).take(j - p@.len()) =~= cs@.take(j - p@.len()));
        j = j - p.len();
    }
    assert(p@.len() <= j ==> cs@.take(j as int).skip(j - p@.len()) =~= cs@.subrange(j - p@.len(), j as int));
    copy_range(cs, 0, j)
}

/// Whether `s` starts with `p` (`str::starts_with`).
pub open spec fn has_prefix(s: Seq<char>, p: Seq<char>) -> bool {
    p.len() <= s.len() && s.take(p.len() as int) == p
}

/// Whether two strings are equal.
pub fn str_eq(a: &str, b: &str) -> (eq: bool)
    ensures
        eq == (a@ == b@),
{
    let x = chars_of(a);
    let y = chars_of(b);
    chars_equal(x.as_slice(), y.as_slice())
}

/// Whether the string `s` starts with `p`.
pub fn str_starts_with(s: &str, p: &str) -> (b: bool)
    ensures
        b == has_prefix(s@, p@),
{
    let x = chars_of(s);
    let y = chars_of(p);
    starts_with_chars(x.as_slice(), y.as_slice())
}

} // verus!
