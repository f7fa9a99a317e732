//! The calendar: the activity heatmap (notes created and modified per day)
//! and the daily notes kept in the `Daily Notes` folder.

use vstd::prelude::*;

use crate::notes::{shown_text, NoteRow};
use crate::text::{chars_of, chars_equal};

verus! {

/// Notes created and modified on one day (`YYYY-MM-DD`, UTC). A note saved
/// on the day it was created counts as created only.
pub struct ActivityDay {
    pub date: String,
    pub created: i64,
    pub modified: i64,
}

// ---------------------------------------------------------------------------
// Ordering of dates
// ---------------------------------------------------------------------------

/// Lexicographic order of character sequences (the order of `str`).
pub open spec fn lex_less(a: Seq<char>, b: Seq<char>) -> bool
    decreases a.len(),
{
    if a.len() == 0 {
        b.len() > 0
    } else if b.len() == 0 {
        false
    } else if a[0] != b[0] {
        a[0] < b[0]
    } else {
        lex_less(a.drop_first(), b.drop_first())
    }
}

/// No sequence comes before itself.
pub proof fn lemma_lex_irreflexive(a: Seq<char>)
    ensures
        !lex_less(a, a),
    decreases a.len(),
{
    if a.len() > 0 {
        lemma_lex_irreflexive(a.drop_first());
    }
}

/// Of two different sequences one comes first.
pub proof fn lemma_lex_total(a: Seq<char>, b: Seq<char>)
    ensures
        a == b || lex_less(a, b) || lex_less(b, a),
    decreases a.len(),
{
    if a.len() > 0 && b.len() > 0 && a[0] == b[0] {
        lemma_lex_total(a.drop_first(), b.drop_first());
        if a.drop_first() == b.drop_first() {
            assert(a =~= seq![a[0]] + a.drop_first());
            assert(b =~= seq![b[0]] + b.drop_first());
        }
    } else if a.len() == 0 && b.len() == 0 {
        assert(a =~= b);
    }
}

/// The order is transitive.
pub proof fn lemma_lex_transitive(a: Seq<char>, b: Seq<char>, c: Seq<char>)
    requires
        lex_less(a, b),
        lex_less(b, c),
    ensures
        lex_less(a, c),
    decreases a.len(),
{
    if a.len() > 0 && b.len() > 0 && c.len() > 0 && a[0] == b[0] && b[0] == c[0] {
        lemma_lex_transitive(a.drop_first(), b.drop_first(), c.drop_first());
    }
}

/// Whether `a` comes before `b`.
pub fn date_less(a: &[char], b: &[char]) -> (less: bool)
    ensures
        less == lex_less(a@, b@),
{
    let mut i: usize = 0;
    assert(a@.skip(0) =~= a@);
    assert(b@.skip(0) =~= b@);
    loop
        invariant
            i <= a@.len(),
            i <= b@.len(),
            lex_less(a@, b@) == lex_less(a@.skip(i as int), b@.skip(i as int)),
        decreases a@.len() - i,
    {
        if i == a.len() {
            return i < b.len();
        }
        if i == b.len() {
            return false;
        }
        if a[i] != b[i] {
            return a[i] < b[i];
        }
        assert(a@.skip(i as int).drop_first() =~= a@.skip(i + 1));
        assert(b@.skip(i as int).drop_first() =~= b@.skip(i + 1));
        i = i + 1;
    }
}

// ---------------------------------------------------------------------------
// The heatmap
// ---------------------------------------------------------------------------

/// The content of a heatmap day.
pub open spec fn day_view(d: ActivityDay) -> (Seq<char>, i64, i64) {
    (d.date@, d.created, d.modified)
}

/// The contents of heatmap days.
pub open spec fn day_views(v: Seq<ActivityDay>) -> Seq<(Seq<char>, i64, i64)> {
    Seq::new(v.len(), |i: int| day_view(v[i]))
}

/// The contents of (date, count) rows.
pub open spec fn count_views(v: Seq<(String, i64)>) -> Seq<(Seq<char>, i64)> {
    Seq::new(v.len(), |i: int| (v[i].0@, v[i].1))
}

/// The sum of the counts of the rows for `date`.
pub open spec fn count_on(rows: Seq<(Seq<char>, i64)>, date: Seq<char>) -> int
    decreases rows.len(),
{
    if rows.len() == 0 {
        0
    } else {
        count_on(rows.drop_last(), date) + if rows.last().0 == date {
            rows.last().1 as int
        } else {
            0int
        }
    }
}

/// The sum of the magnitudes of the counts.
pub open spec fn abs_total(rows: Seq<(Seq<char>, i64)>) -> nat
    decreases rows.len(),
{
    if rows.len() == 0 {
        0
    } else {
        abs_total(rows.drop_last()) + if rows.last().1 < 0 {
            (-rows.last().1) as nat
        } else {
            rows.last().1 as nat
        }
    }
}

/// Whether some row is for `date`.
pub open spec fn has_date(rows: Seq<(Seq<char>, i64)>, date: Seq<char>) -> bool {
    exists|i: int| #![trigger rows[i]] 0 <= i < rows.len() && rows[i].0 == date
}

/// Whether some day of the heatmap is `date`.
pub open spec fn listed(days: Seq<(Seq<char>, i64, i64)>, date: Seq<char>) -> bool {
    exists|j: int| #![trigger days[j]] 0 <= j < days.len() && days[j].0 == date
}

/// The heatmap days in strictly increasing date order.
pub open spec fn sorted_days(days: Seq<(Seq<char>, i64, i64)>) -> bool {
    forall|i: int, j: int| 0 <= i < j < days.len() ==> #[trigger] lex_less(days[i].0, days[j].0)
}

/// The heatmap of `created` and `modified` (date, count) rows: one day per
/// date that occurs in either, in date order, with the summed counts.
pub open spec fn heatmap_of(
    days: Seq<(Seq<char>, i64, i64)>,
    created: Seq<(Seq<char>, i64)>,
    modified: Seq<(Seq<char>, i64)>,
) -> bool {
    &&& sorted_days(days)
    &&& forall|i: int|
        #![trigger days[i]]
        0 <= i < days.len() ==> has_date(created, days[i].0) || has_date(modified, days[i].0)
    &&& forall|i: int| #![trigger created[i]] 0 <= i < created.len() ==> listed(days, created[i].0)
    &&& forall|i: int| #![trigger modified[i]] 0 <= i < modified.len() ==> listed(days, modified[i].0)
    &&& forall|i: int|
        #![trigger days[i]]
        0 <= i < days.len() ==> days[i].1 == count_on(created, days[i].0) && days[i].2 == count_on(
            modified,
            days[i].0,
        )
}

proof fn lemma_count_absent(rows: Seq<(Seq<char>, i64)>, date: Seq<char>)
    requires
        !has_date(rows, date),
    ensures
        count_on(rows, date) == 0,
    decreases rows.len(),
{
    if rows.len() > 0 {
        assert(!has_date(rows.drop_last(), date)) by {
            if has_date(rows.drop_last(), date) {
                let i = choose|i: int| #![trigger rows.drop_last()[i]] 0 <= i < rows.drop_last().len() && rows.drop_last()[i].0 == date;
                assert(rows[i] == rows.drop_last()[i]);
            }
        }
        assert(rows[rows.len() - 1] == rows.last());
        lemma_count_absent(rows.drop_last(), date);
    }
}

proof fn lemma_count_bound(rows: Seq<(Seq<char>, i64)>, date: Seq<char>)
    ensures
        -abs_total(rows) <= count_on(rows, date) <= abs_total(rows),
    decreases rows.len(),
{
    if rows.len() > 0 {
        lemma_count_bound(rows.drop_last(), date);
    }
}

proof fn lemma_abs_total_prefix(rows: Seq<(Seq<char>, i64)>, k: int)
    requires
        0 <= k <= rows.len(),
    ensures
        abs_total(rows.take(k)) <= abs_total(rows),
    decreases rows.len() - k,
{
    if k < rows.len() {
        lemma_abs_total_prefix(rows, k + 1);
        assert(rows.take(k + 1).drop_last() =~= rows.take(k));
    } else {
        assert(rows.take(k) =~= rows);
    }
}

/// A new row keeps every date that some row had.
proof fn lemma_has_date_push(rows: Seq<(Seq<char>, i64)>, r: (Seq<char>, i64), date: Seq<char>)
    ensures
        has_date(rows.push(r), date) == (has_date(rows, date) || r.0 == date),
{
    if has_date(rows, date) {
        let i = choose|i: int| #![trigger rows[i]] 0 <= i < rows.len() && rows[i].0 == date;
        assert(rows.push(r)[i] == rows[i]);
    }
    if r.0 == date {
        assert(rows.push(r)[rows.len() as int] == r);
    }
    if has_date(rows.push(r), date) {
        let i = choose|i: int| #![trigger rows.push(r)[i]] 0 <= i < rows.push(r).len() && rows.push(r)[i].0 == date;
        if i < rows.len() {
            assert(rows[i] == rows.push(r)[i]);
        }
    }
}

/// Whether heatmap day `p` comes before the date `dc`.
fn day_before(days: &Vec<ActivityDay>, p: usize, dc: &Vec<char>) -> (before: bool)
    requires
        p < days@.len(),
    ensures
        before == lex_less(days@[p as int].date@, dc@),
{
    let pc = chars_of(days[p].date.as_str());
    date_less(pc.as_slice(), dc.as_slice())
}

/// Add one (date, count) row to the heatmap, into the created counts or
/// the modified counts.
fn add_day_count(
    days: &mut Vec<ActivityDay>,
    date: &String,
    cnt: i64,
    to_modified: bool,
    Ghost(c): Ghost<Seq<(Seq<char>, i64)>>,
    Ghost(m): Ghost<Seq<(Seq<char>, i64)>>,
)
    requires
        heatmap_of(day_views(old(days)@), c, m),
        !to_modified ==> abs_total(c.push((date@, cnt))) <= i64::MAX,
        to_modified ==> abs_total(m.push((date@, cnt))) <= i64::MAX,
    ensures
        !to_modified ==> heatmap_of(day_views(final(days)@), c.push((date@, cnt)), m),
        to_modified ==> heatmap_of(day_views(final(days)@), c, m.push((date@, cnt))),
{
    let ghost r = (date@, cnt);
    let ghost c2 = if to_modified { c } else { c.push(r) };
    let ghost m2 = if to_modified { m.push(r) } else { m };
    let ghost old_v = day_views(days@);
    let dc = chars_of(date.as_str());
    let mut p: usize = 0;
    while p < days.len() && day_before(days, p, &dc)
        invariant
            p <= days@.len(),
            old_v == day_views(days@),
            dc@ == date@,
            forall|k: int| 0 <= k < p ==> #[trigger] lex_less(old_v[k].0, date@),
        decreases days@.len() - p,
    {
        p = p + 1;
    }
    proof {
        lemma_has_date_push(c, r, date@);
        lemma_has_date_push(m, r, date@);
        assert forall|d: Seq<char>| d != date@ implies count_on(c2, d) == count_on(c, d) && count_on(m2, d) == count_on(m, d) by {
            assert(c.push(r).drop_last() =~= c);
            assert(m.push(r).drop_last() =~= m);
        }
        assert(c.push(r).drop_last() =~= c);
        assert(m.push(r).drop_last() =~= m);
        lemma_count_bound(c2, date@);
        lemma_count_bound(m2, date@);
    }
    let equal = p < days.len() && {
        let pc = chars_of(days[p].date.as_str());
        chars_equal(pc.as_slice(), dc.as_slice())
    };
    if equal {
        let ghost q = p as int;
        let mut d = days.remove(p);
        if to_modified {
            d.modified = d.modified + cnt;
        } else {
            d.created = d.created + cnt;
        }
        days.insert(p, d);
        proof {
            let nv = day_views(days@);
            assert(nv =~= old_v.update(q, (date@, if to_modified { old_v[q].1 } else { (old_v[q].1 + cnt) as i64 }, if to_modified { (old_v[q].2 + cnt) as i64 } else { old_v[q].2 })));
            assert forall|i: int| #![trigger nv[i]] 0 <= i < nv.len() implies has_date(c2, nv[i].0) || has_date(m2, nv[i].0) by {
                assert(has_date(c, old_v[i].0) || has_date(m, old_v[i].0));
                lemma_has_date_push(c, r, nv[i].0);
                lemma_has_date_push(m, r, nv[i].0);
            }
            assert forall|i: int| #![trigger c2[i]] 0 <= i < c2.len() implies listed(nv, c2[i].0) by {
                if i < c.len() {
                    assert(c2[i] == c[i]);
                    assert(listed(old_v, c[i].0));
                    let j = choose|j: int| #![trigger old_v[j]] 0 <= j < old_v.len() && old_v[j].0 == c[i].0;
                    assert(nv[j].0 == old_v[j].0);
                } else {
                    assert(nv[q].0 == date@);
                }
            }
            assert forall|i: int| #![trigger m2[i]] 0 <= i < m2.len() implies listed(nv, m2[i].0) by {
                if i < m.len() {
                    assert(m2[i] == m[i]);
                    assert(listed(old_v, m[i].0));
                    let j = choose|j: int| #![trigger old_v[j]] 0 <= j < old_v.len() && old_v[j].0 == m[i].0;
                    assert(nv[j].0 == old_v[j].0);
                } else {
                    assert(nv[q].0 == date@);
                }
            }
            assert forall|i: int| #![trigger nv[i]] 0 <= i < nv.len() implies nv[i].1 == count_on(c2, nv[i].0) && nv[i].2 == count_on(m2, nv[i].0) by {
                assert(old_v[i].1 == count_on(c, old_v[i].0) && old_v[i].2 == count_on(m, old_v[i].0));
                if i != q {
                    assert(lex_less(old_v[i].0, old_v[q].0) || lex_less(old_v[q].0, old_v[i].0));
                    if old_v[i].0 == date@ {
                        lemma_lex_irreflexive(date@);
                    }
                }
            }
            assert(sorted_days(nv)) by {
                assert forall|i: int, j: int| 0 <= i < j < nv.len() implies #[trigger] lex_less(nv[i].0, nv[j].0) by {
                    assert(lex_less(old_v[i].0, old_v[j].0));
                }
            }
        }
    } else {
        let ghost q = p as int;
        let nd = ActivityDay {
            date: date.clone(),
            created: if to_modified { 0 } else { cnt },
            modified: if to_modified { cnt } else { 0 },
        };
        proof {
            // The date is not listed yet, so no row has it.
            assert(!listed(old_v, date@)) by {
                if listed(old_v, date@) {
                    let j = choose|j: int| #![trigger old_v[j]] 0 <= j < old_v.len() && old_v[j].0 == date@;
                    if j < q {
                        lemma_lex_irreflexive(date@);
                    } else if j > q {
                        assert(lex_less(old_v[q].0, old_v[j].0));
                        assert(!lex_less(old_v[q].0, date@));
                    }
                }
            }
            assert(!has_date(c, date@)) by {
                if has_date(c, date@) {
                    let i = choose|i: int| #![trigger c[i]] 0 <= i < c.len() && c[i].0 == date@;
                    assert(listed(old_v, c[i].0));
                }
            }
            assert(!has_date(m, date@)) by {
                if has_date(m, date@) {
                    let i = choose|i: int| #![trigger m[i]] 0 <= i < m.len() && m[i].0 == date@;
                    assert(listed(old_v, m[i].0));
                }
            }
            lemma_count_absent(c, date@);
            lemma_count_absent(m, date@);
            if q < old_v.len() {
                lemma_lex_total(old_v[q].0, date@);
            }
        }
        days.insert(p, nd);
        proof {
            let nv = day_views(days@);
            assert(nv =~= old_v.insert(q, (date@, nd.created, nd.modified)));
            assert forall|i: int| #![trigger nv[i]] 0 <= i < nv.len() implies has_date(c2, nv[i].0) || has_date(m2, nv[i].0) by {
                if i < q {
                    assert(nv[i] == old_v[i]);
                    assert(has_date(c, old_v[i].0) || has_date(m, old_v[i].0));
                    lemma_has_date_push(c, r, nv[i].0);
                    lemma_has_date_push(m, r, nv[i].0);
                } else if i > q {
                    assert(nv[i] == old_v[i - 1]);
                    assert(has_date(c, old_v[i - 1].0) || has_date(m, old_v[i - 1].0));
                    lemma_has_date_push(c, r, nv[i].0);
                    lemma_has_date_push(m, r, nv[i].0);
                }
            }
            assert forall|i: int| #![trigger c2[i]] 0 <= i < c2.len() implies listed(nv, c2[i].0) by {
                if i < c.len() {
                    assert(c2[i] == c[i]);
                    assert(listed(old_v, c[i].0));
                    let j = choose|j: int| #![trigger old_v[j]] 0 <= j < old_v.len() && old_v[j].0 == c[i].0;
                    if j < q {
                        assert(nv[j] == old_v[j]);
                    } else {
                        assert(nv[j + 1] == old_v[j]);
                    }
                } else {
                    assert(nv[q].0 == date@);
                }
            }
            assert forall|i: int| #![trigger m2[i]] 0 <= i < m2.len() implies listed(nv, m2[i].0) by {
                if i < m.len() {
                    assert(m2[i] == m[i]);
                    assert(listed(old_v, m[i].0));
                    let j = choose|j: int| #![trigger old_v[j]] 0 <= j < old_v.len() && old_v[j].0 == m[i].0;
                    if j < q {
                        assert(nv[j] == old_v[j]);
                    } else {
                        assert(nv[j + 1] == old_v[j]);
                    }
                } else {
                    assert(nv[q].0 == date@);
                }
            }
            assert forall|i: int| #![trigger nv[i]] 0 <= i < nv.len() implies nv[i].1 == count_on(c2, nv[i].0) && nv[i].2 == count_on(m2, nv[i].0) by {
                if i != q {
                    let o = if i < q { i } else { i - 1 };
                    assert(nv[i] == old_v[o]);
                    assert(old_v[o].1 == count_on(c, old_v[o].0) && old_v[o].2 == count_on(m, old_v[o].0));
                    if old_v[o].0 == date@ {
                        assert(listed(old_v, date@));
                    }
                }
            }
            assert(sorted_days(nv)) by {
                assert forall|i: int, j: int| 0 <= i < j < nv.len() implies #[trigger] lex_less(nv[i].0, nv[j].0) by {
                    if j < q {
                        assert(lex_less(old_v[i].0, old_v[j].0));
                    } else if j == q {
                        assert(lex_less(old_v[i].0, date@));
                    } else if i == q {
                        assert(lex_less(date@, old_v[q].0));
                        if j - 1 > q {
                            assert(lex_less(old_v[q].0, old_v[j - 1].0));
                            lemma_lex_transitive(date@, old_v[q].0, old_v[j - 1].0);
                        }
                    } else if i < q {
                        assert(lex_less(old_v[i].0, date@));
                        assert(lex_less(date@, old_v[q].0));
                        if j - 1 > q {
                            assert(lex_less(old_v[q].0, old_v[j - 1].0));
                            lemma_lex_transitive(date@, old_v[q].0, old_v[j - 1].0);
                        }
                        lemma_lex_transitive(old_v[i].0, date@, old_v[j - 1].0);
                    } else {
                        assert(lex_less(old_v[i - 1].0, old_v[j - 1].0));
                    }
                }
            }
        }
    }
}

/// Merge the per-day counts of created notes and of modified notes into one
/// list of days, oldest first.
pub fn merge_activity(created: &Vec<(String, i64)>, modified: &Vec<(String, i64)>) -> (days: Vec<ActivityDay>)
    requires
        abs_total(count_views(created@)) <= i64::MAX,
        abs_total(count_views(modified@)) <= i64::MAX,
    ensures
        heatmap_of(day_views(days@), count_views(created@), count_views(modified@)),
{
    let ghost cv = count_views(created@);
    let ghost mv = count_views(modified@);
    let mut days: Vec<ActivityDay> = Vec::new();
    assert(day_views(days@) =~= Seq::<(Seq<char>, i64, i64)>::empty());
    assert(cv.take(0) =~= Seq::<(Seq<char>, i64)>::empty());
    let mut i: usize = 0;
    while i < created.len()
        invariant
            i <= created@.len(),
            cv == count_views(created@),
            abs_total(cv) <= i64::MAX,
            heatmap_of(day_views(days@), cv.take(i as int), Seq::<(Seq<char>, i64)>::empty()),
        decreases created@.len() - i,
    {
        assert(cv.take(i + 1) =~= cv.take(i as int).push((created@[i as int].0@, created@[i as int].1)));
        proof {
            lemma_abs_total_prefix(cv, i + 1);
        }
        add_day_count(&mut days, &created[i].0, created[i].1, false, Ghost(cv.take(i as int)), Ghost(Seq::empty()));
        i = i + 1;
    }
    assert(cv.take(i as int) =~= cv);
    assert(mv.take(0) =~= Seq::<(Seq<char>, i64)>::empty());
    let mut j: usize = 0;
    while j < modified.len()
        invariant
            j <= modified@.len(),
            cv == count_views(created@),
            mv == count_views(modified@),
            abs_total(mv) <= i64::MAX,
            heatmap_of(day_views(days@), cv, mv.take(j as int)),
        decreases modified@.len() - j,
    {
        assert(mv.take(j + 1) =~= mv.take(j as int).push((modified@[j as int].0@, modified@[j as int].1)));
        proof {
            lemma_abs_total_prefix(mv, j + 1);
        }
        add_day_count(&mut days, &modified[j].0, modified[j].1, true, Ghost(cv), Ghost(mv.take(j as int)));
        j = j + 1;
    }
    assert(mv.take(j as int) =~= mv);
    days
}

// ---------------------------------------------------------------------------
// Daily notes
// ---------------------------------------------------------------------------

/// The name of the folder that holds the daily notes.
pub open spec fn daily_folder_name() -> Seq<char> {
    "Daily Notes"@
}

/// The position of the first (id, stored name) folder whose name reads as
/// `target` under `key`.
pub open spec fn first_named(folders: Seq<(i64, Seq<char>)>, key: Option<[u8; 32]>, target: Seq<char>) -> Option<int>
    decreases folders.len(),
{
    if folders.len() == 0 {
        None
    } else if shown_text(key, folders[0].1) == target {
        Some(0)
    } else {
        match first_named(folders.drop_first(), key, target) {
            Some(k) => Some(k + 1),
            None => None,
        }
    }
}

/// The contents of (id, text) pairs.
pub open spec fn named_views(v: Seq<(i64, String)>) -> Seq<(i64, Seq<char>)> {
    Seq::new(v.len(), |i: int| (v[i].0, v[i].1@))
}

/// The position of the first pair whose stored text reads as `target`.
fn find_named(items: &Vec<(i64, String)>, key: Option<[u8; 32]>, target: &str) -> (pos: Option<usize>)
    ensures
        match pos {
            Some(k) => k < items@.len() && first_named(named_views(items@), key, target@) == Some(k as int),
            None => first_named(named_views(items@), key, target@) is None,
        },
{
    let ghost nv = named_views(items@);
    let t = chars_of(target);
    let mut i: usize = 0;
    assert(nv.skip(0) =~= nv);
    while i < items.len()
        invariant
            i <= items@.len(),
            nv == named_views(items@),
            t@ == target@,
            first_named(nv, key, target@) == match first_named(nv.skip(i as int), key, target@) {
                Some(k) => Some(k + i),
                None => None,
            },
        decreases items@.len() - i,
    {
        assert(nv.skip(i as int).drop_first() =~= nv.skip(i + 1));
        assert(nv.skip(i as int)[0] == (items@[i as int].0, items@[i as int].1@));
        let shown = match key {
            Some(k) => crate::notes::decrypt_folder_name(&k, items[i].1.clone()),
            None => items[i].1.clone(),
        };
        let sc = chars_of(shown.as_str());
        if chars_equal(sc.as_slice(), t.as_slice()) {
            return Some(i);
        }
        i = i + 1;
    }
    assert(nv.skip(i as int) =~= Seq::<(i64, Seq<char>)>::empty());
    None
}

/// The id of the `Daily Notes` folder among the top-level (id, stored name)
/// folders, names read under the vault key: the first match.
pub fn find_daily_folder(folders: &Vec<(i64, String)>, vault_key: Option<[u8; 32]>) -> (id: Option<i64>)
    ensures
        match first_named(named_views(folders@), vault_key, daily_folder_name()) {
            Some(k) => id == Some(folders@[k].0),
            None => id is None,
        },
{
    match find_named(folders, vault_key, "Daily Notes") {
        Some(k) => Some(folders[k].0),
        None => None,
    }
}

/// The (id, stored title) pairs of note rows.
pub open spec fn title_views(rows: Seq<NoteRow>) -> Seq<(i64, Seq<char>)> {
    Seq::new(rows.len(), |i: int| (rows[i].id, rows[i].title@))
}

/// The position of the daily note for `date` among the rows of the
/// `Daily Notes` folder: the first whose title reads as the date under the
/// vault key.
pub fn find_daily_note(rows: &Vec<NoteRow>, vault_key: Option<[u8; 32]>, date: &str) -> (pos: Option<usize>)
    ensures
        match pos {
            Some(k) => k < rows@.len() && first_named(title_views(rows@), vault_key, date@) == Some(k as int),
            None => first_named(title_views(rows@), vault_key, date@) is None,
        },
{
    let mut pairs: Vec<(i64, String)> = Vec::new();
    let mut i: usize = 0;
    while i < rows.len()
        invariant
            i <= rows@.len(),
            named_views(pairs@) == title_views(rows@).take(i as int),
        decreases rows@.len() - i,
    {
        let ghost prev = pairs@;
        pairs.push((rows[i].id, rows[i].title.clone()));
        assert(named_views(pairs@) =~= named_views(prev).push((rows@[i as int].id, rows@[i as int].title@)));
        i = i + 1;
        assert(named_views(pairs@) =~= title_views(rows@).take(i as int));
    }
    assert(title_views(rows@).take(i as int) =~= title_views(rows@));
    find_named(&pairs, vault_key, date)
}

/// The ids of the (id, stored text) items whose text reads as `target`
/// under `key`.
pub open spec fn ids_named(items: Seq<(i64, Seq<char>)>, key: Option<[u8; 32]>, target: Seq<char>) -> Set<i64> {
    Set::new(
        |id: i64|
            exists|i: int|
                0 <= i < items.len() && #[trigger] items[i].0 == id && shown_text(key, items[i].1) == target,
    )
}

/// `first_named` finds the first item that reads as `target`, and finds
/// none exactly when no item does.
pub proof fn lemma_first_named(items: Seq<(i64, Seq<char>)>, key: Option<[u8; 32]>, target: Seq<char>)
    ensures
        first_named(items, key, target) matches Some(k) ==> 0 <= k < items.len() && shown_text(
            key,
            items[k].1,
        ) == target,
        first_named(items, key, target) is None <==> forall|i: int|
            0 <= i < items.len() ==> shown_text(key, #[trigger] items[i].1) != target,
    decreases items.len(),
{
    if items.len() > 0 {
        lemma_first_named(items.drop_first(), key, target);
        if first_named(items, key, target) is None {
            assert forall|i: int| 0 <= i < items.len() implies shown_text(key, #[trigger] items[i].1)
                != target by {
                if i > 0 {
                    assert(items[i] == items.drop_first()[i - 1]);
                }
            }
        }
    }
}

/// A daily note (or the daily folder) is created at most once: when a
/// lookup found nothing that reads as `target` and the item created
/// reads as `target` (it is stored with `stored_text`), the listing
/// afterwards holds exactly one id that reads as `target`, the created
/// one, and the next lookup finds it.
pub proof fn law_daily_lookup_finds_created(
    before: Seq<(i64, Seq<char>)>,
    after: Seq<(i64, Seq<char>)>,
    key: Option<[u8; 32]>,
    target: Seq<char>,
    created: (i64, Seq<char>),
)
    requires
        first_named(before, key, target) is None,
        shown_text(key, created.1) == target,
        forall|x: (i64, Seq<char>)| #[trigger] after.contains(x) <==> (before.contains(x) || x == created),
    ensures
        ids_named(after, key, target) == set![created.0],
        first_named(after, key, target) matches Some(k) && after[k].0 == created.0,
{
    lemma_first_named(before, key, target);
    lemma_first_named(after, key, target);
    assert(after.contains(created));
    let c = choose|i: int| 0 <= i < after.len() && after[i] == created;
    assert(shown_text(key, after[c].1) == target);
    assert forall|i: int| 0 <= i < after.len() && shown_text(key, after[i].1) == target implies after[i]
        == created by {
        assert(after.contains(after[i]));
        if before.contains(after[i]) {
            let j = choose|j: int| 0 <= j < before.len() && before[j] == after[i];
            assert(shown_text(key, before[j].1) != target);
        }
    }
    assert(ids_named(after, key, target) =~= set![created.0]) by {
        assert(after[c].0 == created.0);
    }
}

/// (folder id, stored lock column) rows as (folder id, password set) pairs.
pub fn lock_states_from(rows: &[(i64, i64)]) -> (states: Vec<(i64, bool)>)
    ensures
        states@.len() == rows@.len(),
        forall|i: int| 0 <= i < rows@.len() ==> #[trigger] states@[i] == (rows@[i].0, rows@[i].1 != 0),
{
    let mut states: Vec<(i64, bool)> = Vec::new();
    let mut i: usize = 0;
    while i < rows.len()
        invariant
            i <= rows@.len(),
            states@.len() == i,
            forall|k: int| 0 <= k < i ==> #[trigger] states@[k] == (rows@[k].0, rows@[k].1 != 0),
        decreases rows@.len() - i,
    {
        let (id, lk) = rows[i];
        states.push((id, lk != 0));
        i = i + 1;
    }
    states
}

/// Whether the counts of (date, count) rows are small enough to be summed
/// per day without overflow: the sum of their magnitudes fits in `i64`.
pub fn counts_fit(rows: &Vec<(String, i64)>) -> (fits: bool)
    ensures
        fits == (abs_total(count_views(rows@)) <= i64::MAX),
{
    let ghost cv = count_views(rows@);
    let mut total: u128 = 0;
    let mut i: usize = 0;
    while i < rows.len()
        invariant
            i <= rows@.len(),
            cv == count_views(rows@),
            total == abs_total(cv.take(i as int)),
            total <= i64::MAX,
        decreases rows@.len() - i,
    {
        assert(cv.take(i + 1).drop_last() =~= cv.take(i as int));
        let c = rows[i].1;
        let mag: u128 = if c < 0 { (-(c as i128)) as u128 } else { c as u128 };
        total = total + mag;
        i = i + 1;
        if total > i64::MAX as u128 {
            proof {
                lemma_abs_total_prefix(cv, i as int);
            }
            return false;
        }
    }
    assert(cv.take(i as int) =~= cv);
    true
}

} // verus!
