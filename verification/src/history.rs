//! Order and retention of a stock's daily history.
//!
//! A history is kept most recent day first. The functions here put one in
//! that order, look a day up, and cut one down to the newest records.
use crate::models::stock::DailyData;
use vstd::prelude::*;

verus! {

/// No record is followed by one of a later day.
pub open spec fn sorted_desc(h: Seq<DailyData>) -> bool {
    forall|i: int, j: int| 0 <= i < j < h.len() ==> h[i].date >= h[j].date
}

/// No two records are of the same day.
pub open spec fn distinct_dates(h: Seq<DailyData>) -> bool {
    forall|i: int, j: int| 0 <= i < j < h.len() ==> h[i].date != h[j].date
}

/// Every record is of a later day than all that follow it.
pub open spec fn strictly_desc(h: Seq<DailyData>) -> bool {
    forall|i: int, j: int| 0 <= i < j < h.len() ==> h[i].date > h[j].date
}

/// The history holds a record of the given day.
pub open spec fn has_date(h: Seq<DailyData>, date: i32) -> bool {
    exists|i: int| 0 <= i < h.len() && h[i].date == date
}

/// Where a record of the given day goes into a history: in front of the first
/// record that is not of a later day.
pub open spec fn insert_pos(h: Seq<DailyData>, date: i32) -> int
    decreases h.len(),
{
    if h.len() == 0 || h[0].date <= date {
        0
    } else {
        1 + insert_pos(h.drop_first(), date)
    }
}

/// The history with one more record, put in at `insert_pos`.
pub open spec fn insert_desc(h: Seq<DailyData>, record: DailyData) -> Seq<DailyData> {
    h.insert(insert_pos(h, record.date), record)
}

/// The records of `h`, most recent day first; records of one day stay in the
/// order they had in `h`.
pub open spec fn sort_desc(h: Seq<DailyData>) -> Seq<DailyData>
    decreases h.len(),
{
    if h.len() == 0 {
        h
    } else {
        insert_desc(sort_desc(h.drop_first()), h[0])
    }
}

/// The first `max` records of `h`, or all of them where there are fewer.
pub open spec fn keep_newest(h: Seq<DailyData>, max: nat) -> Seq<DailyData> {
    if h.len() > max {
        h.take(max as int)
    } else {
        h
    }
}

/// `insert_pos` is the one place that has only later days in front of it and
/// no later day at or behind it.
pub proof fn lemma_insert_pos(h: Seq<DailyData>, date: i32)
    ensures
        0 <= insert_pos(h, date) <= h.len(),
        forall|k: int| 0 <= k < insert_pos(h, date) ==> h[k].date > date,
        insert_pos(h, date) < h.len() ==> h[insert_pos(h, date)].date <= date,
    decreases h.len(),
{
    if h.len() == 0 || h[0].date <= date {
    } else {
        let t = h.drop_first();
        lemma_insert_pos(t, date);
        assert forall|k: int| 0 <= k < insert_pos(h, date) implies h[k].date > date by {
            if k > 0 {
                assert(h[k] == t[k - 1]);
            }
        }
        if insert_pos(h, date) < h.len() {
            assert(h[insert_pos(h, date)] == t[insert_pos(t, date)]);
        }
    }
}

/// A place with only later days in front of it and no later day at it is
/// `insert_pos`.
pub proof fn lemma_insert_pos_is(h: Seq<DailyData>, date: i32, p: int)
    requires
        0 <= p <= h.len(),
        forall|k: int| 0 <= k < p ==> h[k].date > date,
        p < h.len() ==> h[p].date <= date,
    ensures
        insert_pos(h, date) == p,
{
    lemma_insert_pos(h, date);
    let q = insert_pos(h, date);
    if q < p {
        assert(h[q].date > date);
    } else if q > p {
        assert(h[p].date > date);
    }
}

/// A day is in the history after an insertion exactly if it was there before
/// or is the day of the new record.
pub proof fn lemma_insert_dates(h: Seq<DailyData>, record: DailyData, date: i32)
    ensures
        has_date(insert_desc(h, record), date) <==> (has_date(h, date) || date == record.date),
{
    lemma_insert_pos(h, record.date);
    let p = insert_pos(h, record.date);
    let r = insert_desc(h, record);
    if has_date(r, date) {
        let i = choose|i: int| 0 <= i < r.len() && r[i].date == date;
        if i < p {
            assert(h[i].date == date);
        } else if i > p {
            assert(h[i - 1].date == date);
        }
    }
    if has_date(h, date) {
        let i = choose|i: int| 0 <= i < h.len() && h[i].date == date;
        if i < p {
            assert(r[i].date == date);
        } else {
            assert(r[i + 1].date == date);
        }
    }
    if date == record.date {
        assert(r[p].date == date);
    }
}

/// Insertion keeps a history in order.
pub proof fn lemma_insert_sorted(h: Seq<DailyData>, record: DailyData)
    requires
        sorted_desc(h),
    ensures
        sorted_desc(insert_desc(h, record)),
{
    lemma_insert_pos(h, record.date);
    let p = insert_pos(h, record.date);
    let r = insert_desc(h, record);
    assert forall|i: int, j: int| 0 <= i < j < r.len() implies r[i].date >= r[j].date by {
        if j < p {
        } else if j == p {
            assert(r[i] == h[i]);
        } else if i < p {
            assert(r[j] == h[j - 1]);
            assert(r[i] == h[i]);
            assert(h[p].date <= record.date);
        } else if i == p {
            assert(r[j] == h[j - 1]);
            assert(h[p].date <= record.date);
        } else {
            assert(r[j] == h[j - 1]);
            assert(r[i] == h[i - 1]);
        }
    }
}

/// Inserting a record of a day that the history lacks keeps its days apart
/// and in strict order.
pub proof fn lemma_insert_strict(h: Seq<DailyData>, record: DailyData)
    requires
        strictly_desc(h),
        !has_date(h, record.date),
    ensures
        strictly_desc(insert_desc(h, record)),
{
    lemma_insert_pos(h, record.date);
    let p = insert_pos(h, record.date);
    let r = insert_desc(h, record);
    assert forall|i: int, j: int| 0 <= i < j < r.len() implies r[i].date > r[j].date by {
        if j < p {
        } else if j == p {
            assert(r[i] == h[i]);
        } else if i < p {
            assert(r[j] == h[j - 1]);
            assert(r[i] == h[i]);
        } else if i == p {
            assert(r[j] == h[j - 1]);
            assert(h[p].date <= record.date);
            assert(h[j - 1].date != record.date);
        } else {
            assert(r[j] == h[j - 1]);
            assert(r[i] == h[i - 1]);
        }
    }
}

/// Sorting yields an ordered history of the same length.
pub proof fn lemma_sort_sorted(h: Seq<DailyData>)
    ensures
        sorted_desc(sort_desc(h)),
        sort_desc(h).len() == h.len(),
    decreases h.len(),
{
    if h.len() > 0 {
        lemma_sort_sorted(h.drop_first());
        lemma_insert_pos(sort_desc(h.drop_first()), h[0].date);
        lemma_insert_sorted(sort_desc(h.drop_first()), h[0]);
    }
}

/// Sorting neither adds nor loses a day.
pub proof fn lemma_sort_dates(h: Seq<DailyData>, date: i32)
    ensures
        has_date(sort_desc(h), date) <==> has_date(h, date),
    decreases h.len(),
{
    if h.len() > 0 {
        let t = h.drop_first();
        lemma_sort_dates(t, date);
        lemma_insert_dates(sort_desc(t), h[0], date);
        if has_date(t, date) {
            let i = choose|i: int| 0 <= i < t.len() && t[i].date == date;
            assert(h[i + 1].date == date);
        }
        if has_date(h, date) {
            let i = choose|i: int| 0 <= i < h.len() && h[i].date == date;
            if i > 0 {
                assert(t[i - 1].date == date);
            }
        }
    }
}

/// Sorting rearranges: every record comes out as often as it went in.
pub proof fn lemma_sort_permutes(h: Seq<DailyData>)
    ensures
        sort_desc(h).to_multiset() == h.to_multiset(),
    decreases h.len(),
{
    broadcast use vstd::seq_lib::group_to_multiset_ensures;

    if h.len() > 0 {
        let t = h.drop_first();
        let s = sort_desc(t);
        lemma_sort_permutes(t);
        lemma_insert_pos(s, h[0].date);
        let p = insert_pos(s, h[0].date);
        let r = s.insert(p, h[0]);
        assert(r.remove(p) =~= s);
        assert(h.remove(0) =~= t);
        assert(r.to_multiset() =~= s.to_multiset().insert(h[0]));
        assert(h.to_multiset() =~= t.to_multiset().insert(h[0]));
    }
}

/// Sorting a history whose days are all different puts them in strict order.
pub proof fn lemma_sort_strict(h: Seq<DailyData>)
    requires
        distinct_dates(h),
    ensures
        strictly_desc(sort_desc(h)),
    decreases h.len(),
{
    if h.len() > 0 {
        let t = h.drop_first();
        assert forall|i: int, j: int| 0 <= i < j < t.len() implies t[i].date != t[j].date by {
            assert(t[i] == h[i + 1]);
            assert(t[j] == h[j + 1]);
        }
        lemma_sort_strict(t);
        lemma_sort_dates(t, h[0].date);
        if has_date(t, h[0].date) {
            let i = choose|i: int| 0 <= i < t.len() && t[i].date == h[0].date;
            assert(t[i] == h[i + 1]);
        }
        lemma_insert_strict(sort_desc(t), h[0]);
    }
}

/// Sorting leaves an ordered history as it is.
pub proof fn lemma_sort_of_sorted(h: Seq<DailyData>)
    requires
        sorted_desc(h),
    ensures
        sort_desc(h) == h,
    decreases h.len(),
{
    if h.len() > 0 {
        let t = h.drop_first();
        assert forall|i: int, j: int| 0 <= i < j < t.len() implies t[i].date >= t[j].date by {
            assert(t[i] == h[i + 1]);
            assert(t[j] == h[j + 1]);
        }
        lemma_sort_of_sorted(t);
        if t.len() > 0 {
            assert(t[0] == h[1]);
        }
        lemma_insert_pos_is(t, h[0].date, 0);
        assert(t.insert(0, h[0]) =~= h);
    }
}

/// Cutting an ordered history drops only records that are no newer than
/// every one that stays.
pub proof fn lemma_keep_newest_drops_oldest(h: Seq<DailyData>, max: nat)
    requires
        sorted_desc(h),
    ensures
        keep_newest(h, max).len() <= max,
        keep_newest(h, max).len() <= h.len(),
        keep_newest(h, max) == h.take(keep_newest(h, max).len() as int),
        forall|k: int, d: int|
            0 <= k < keep_newest(h, max).len() <= d < h.len() ==> h[k].date >= h[d].date,
{
}

/// Whether the history holds a record of the given day.
pub fn contains_date(daily: &Vec<DailyData>, date: i32) -> (found: bool)
    ensures
        found == has_date(daily@, date),
{
    let mut i: usize = 0;
    while i < daily.len()
        invariant
            i <= daily.len(),
            forall|k: int| 0 <= k < i ==> daily@[k].date != date,
        decreases daily.len() - i,
    {
        if daily[i].date == date {
            return true;
        }
        i += 1;
    }
    false
}

/// Puts one record into the history, in front of the first record that is not
/// of a later day.
pub fn insert_by_date(daily: &mut Vec<DailyData>, record: DailyData)
    ensures
        final(daily)@ == insert_desc(old(daily)@, record),
{
    let mut p: usize = 0;
    while p < daily.len() && daily[p].date > record.date
        invariant
            p <= daily.len(),
            forall|k: int| 0 <= k < p ==> daily@[k].date > record.date,
        decreases daily.len() - p,
    {
        p += 1;
    }
    proof {
        lemma_insert_pos_is(daily@, record.date, p as int);
    }
    daily.insert(p, record);
}

/// Sorts the history, most recent day first. Records of one day keep their
/// order.
pub fn sort_by_date_desc(daily: &mut Vec<DailyData>)
    ensures
        final(daily)@ == sort_desc(old(daily)@),
{
    let mut out: Vec<DailyData> = Vec::new();
    let mut i: usize = daily.len();
    assert(daily@.subrange(i as int, daily@.len() as int) =~= Seq::<DailyData>::empty());
    while i > 0
        invariant
            i <= daily.len(),
            out@ == sort_desc(daily@.subrange(i as int, daily@.len() as int)),
        decreases i,
    {
        i -= 1;
        proof {
            let rest = daily@.subrange(i as int, daily@.len() as int);
            assert(rest.drop_first() =~= daily@.subrange(i + 1, daily@.len() as int));
            assert(rest[0] == daily@[i as int]);
        }
        insert_by_date(&mut out, daily[i]);
    }
    assert(daily@.subrange(0, daily@.len() as int) =~= daily@);
    *daily = out;
}

} // verus!
