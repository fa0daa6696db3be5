//! What every merge keeps true of the data set.
use crate::history::{
    distinct_dates, has_date, insert_desc, keep_newest, lemma_keep_newest_drops_oldest,
    lemma_sort_of_sorted, lemma_sort_permutes, lemma_sort_sorted, lemma_sort_strict, sort_desc,
    sorted_desc,
};
use crate::models::stock::{DailyData, StockView};
use crate::services::merge::{
    counts, lemma_slot_is, lemma_slot_of, merge_batch_spec, merge_entity_spec,
    needs_full_history_spec, slot_of, stock_at, FetchView,
};
use vstd::prelude::*;

verus! {

/// The outcome puts a fetched history in the place of the one at hand.
pub open spec fn replaces_history(outcome: FetchView) -> bool {
    outcome matches FetchView::Fetched(h) && h.len() > 0
}

/// No stock of the data set has more than `max` records.
pub open spec fn histories_bounded(data: Seq<StockView>, max: nat) -> bool {
    forall|i: int| 0 <= i < data.len() ==> (#[trigger] data[i]).daily.len() <= max
}

/// No stock of the data set has two records of one day.
pub open spec fn histories_distinct(data: Seq<StockView>) -> bool {
    forall|i: int| 0 <= i < data.len() ==> distinct_dates((#[trigger] data[i]).daily)
}

/// Every stock of the data set has its records most recent day first.
pub open spec fn histories_sorted(data: Seq<StockView>) -> bool {
    forall|i: int| 0 <= i < data.len() ==> sorted_desc((#[trigger] data[i]).daily)
}

/// The stock that the data set holds under the exchange and symbol of an
/// observation.
pub open spec fn known(existing: Seq<StockView>, observed: StockView) -> Option<StockView> {
    stock_at(existing, slot_of(existing, observed.exchange, observed.symbol))
}

/// A stock that is new, or known without history, has its full history
/// fetched whether or not the caller insists: an answer of the source then
/// replaces whatever was observed.
pub proof fn lemma_full_history_for_new_or_empty(
    existing: Option<StockView>,
    observed: StockView,
    fetched: Seq<DailyData>,
    max: nat,
)
    requires
        existing matches Some(e) ==> e.daily.len() == 0,
        fetched.len() > 0,
    ensures
        needs_full_history_spec(existing, false),
        merge_entity_spec(existing, observed, FetchView::Fetched(fetched), max, false) matches Some(
            m,
        ) && m.daily == keep_newest(sort_desc(fetched), max),
{
}

/// Splicing a record of a new day into a history that is in order puts it
/// in front of the first record that is not of a later day: sorting moves
/// nothing else.
pub proof fn lemma_splice_into_ordered(
    existing: StockView,
    observed: StockView,
    outcome: FetchView,
    max: nat,
)
    requires
        existing.daily.len() > 0,
        sorted_desc(existing.daily),
        observed.daily.len() > 0,
        !has_date(existing.daily, observed.daily[0].date),
    ensures
        merge_entity_spec(Some(existing), observed, outcome, max, false) == Some(
            StockView {
                name: observed.name,
                daily: keep_newest(insert_desc(existing.daily, observed.daily[0]), max),
                ..existing
            },
        ),
{
    let candidate = seq![observed.daily[0]] + existing.daily;
    assert(candidate.drop_first() =~= existing.daily);
    lemma_sort_of_sorted(existing.daily);
}

/// Cutting to the retention bound keeps the newest records: what stays is
/// the front of the sorted history, at most `max` long, and nothing that is
/// dropped is newer than anything that stays. Sorting itself loses nothing.
pub proof fn lemma_retention_drops_oldest(candidate: Seq<DailyData>, max: nat)
    ensures
        sort_desc(candidate).to_multiset() == candidate.to_multiset(),
        keep_newest(sort_desc(candidate), max).len() == if candidate.len() > max {
            max
        } else {
            candidate.len()
        },
        keep_newest(sort_desc(candidate), max) == sort_desc(candidate).take(
            keep_newest(sort_desc(candidate), max).len() as int,
        ),
        forall|k: int, d: int|
            0 <= k < keep_newest(sort_desc(candidate), max).len() <= d < candidate.len()
                ==> sort_desc(candidate)[k].date >= sort_desc(candidate)[d].date,
{
    lemma_sort_sorted(candidate);
    lemma_sort_permutes(candidate);
    lemma_keep_newest_drops_oldest(sort_desc(candidate), max);
}

/// A merged stock has no more than `max` records, provided the history that
/// the merge starts from has no more: that of the known stock, or the
/// observed one where the stock is new and no fetched history replaces it.
pub proof fn lemma_merged_history_bounded(
    existing: Option<StockView>,
    observed: StockView,
    outcome: FetchView,
    max: nat,
    force: bool,
)
    requires
        existing matches Some(e) ==> e.daily.len() <= max,
        existing is None && !replaces_history(outcome) ==> observed.daily.len() <= max,
    ensures
        merge_entity_spec(existing, observed, outcome, max, force) matches Some(m)
            ==> m.daily.len() <= max,
{
}

/// A merged stock has no two records of one day, provided that holds of the
/// history that the merge starts from and of the history that was fetched.
pub proof fn lemma_merged_history_distinct(
    existing: Option<StockView>,
    observed: StockView,
    outcome: FetchView,
    max: nat,
    force: bool,
)
    requires
        existing matches Some(e) ==> distinct_dates(e.daily),
        outcome matches FetchView::Fetched(h) ==> distinct_dates(h),
        existing is None && !replaces_history(outcome) ==> distinct_dates(observed.daily),
    ensures
        merge_entity_spec(existing, observed, outcome, max, force) matches Some(m)
            ==> distinct_dates(m.daily),
{
    if needs_full_history_spec(existing, force) {
        if let FetchView::Fetched(h) = outcome {
            if h.len() > 0 {
                lemma_sort_strict(h);
            }
        }
    } else {
        let base = existing->0.daily;
        if observed.daily.len() > 0 && !has_date(base, observed.daily[0].date) {
            let c = seq![observed.daily[0]] + base;
            assert forall|i: int, j: int| 0 <= i < j < c.len() implies c[i].date != c[j].date by {
                if i == 0 {
                    assert(c[j] == base[j - 1]);
                } else {
                    assert(c[i] == base[i - 1]);
                    assert(c[j] == base[j - 1]);
                }
            }
            lemma_sort_strict(c);
        }
    }
}

/// A merged stock has its records most recent day first, provided the
/// history that the merge starts from has.
pub proof fn lemma_merged_history_sorted(
    existing: Option<StockView>,
    observed: StockView,
    outcome: FetchView,
    max: nat,
    force: bool,
)
    requires
        existing matches Some(e) ==> sorted_desc(e.daily),
        existing is None && !replaces_history(outcome) ==> sorted_desc(observed.daily),
    ensures
        merge_entity_spec(existing, observed, outcome, max, force) matches Some(m) ==> sorted_desc(
            m.daily,
        ),
{
    if needs_full_history_spec(existing, force) {
        if let FetchView::Fetched(h) = outcome {
            lemma_sort_sorted(h);
        }
    } else {
        if observed.daily.len() > 0 {
            lemma_sort_sorted(seq![observed.daily[0]] + existing->0.daily);
        }
    }
}

/// The stock is what merging one of the first `n` observations, one that
/// counts, gave.
pub open spec fn merged_from(
    existing: Seq<StockView>,
    observed: Seq<StockView>,
    outcomes: Seq<FetchView>,
    n: int,
    max: nat,
    force: bool,
    stock: StockView,
) -> bool {
    exists|k: int|
        0 <= k < n && #[trigger] counts(observed, k) && merge_entity_spec(
            known(existing, observed[k]),
            observed[k],
            outcomes[k],
            max,
            force,
        ) == Some(stock)
}

/// Every stock of a merged data set is the stock that stood at its place
/// before, or the outcome of merging one observation that counts.
pub proof fn lemma_merge_batch_stocks(
    existing: Seq<StockView>,
    observed: Seq<StockView>,
    outcomes: Seq<FetchView>,
    n: int,
    max: nat,
    force: bool,
)
    requires
        0 <= n <= observed.len(),
        outcomes.len() == observed.len(),
    ensures
        merge_batch_spec(existing, observed, outcomes, n, max, force).len() >= existing.len(),
        forall|i: int|
            0 <= i < merge_batch_spec(existing, observed, outcomes, n, max, force).len() ==> (i
                < existing.len() && merge_batch_spec(existing, observed, outcomes, n, max, force)[i]
                == existing[i]) || merged_from(
                existing,
                observed,
                outcomes,
                n,
                max,
                force,
                #[trigger] merge_batch_spec(existing, observed, outcomes, n, max, force)[i],
            ),
    decreases n,
{
    if n == 0 {
        assert(merge_batch_spec(existing, observed, outcomes, n, max, force) == existing);
    } else {
        lemma_merge_batch_stocks(existing, observed, outcomes, n - 1, max, force);
        let before = merge_batch_spec(existing, observed, outcomes, n - 1, max, force);
        let after = merge_batch_spec(existing, observed, outcomes, n, max, force);
        let o = observed[n - 1];
        lemma_slot_of(existing, o.exchange, o.symbol);
        assert forall|i: int| 0 <= i < after.len() implies (i < existing.len() && after[i]
            == existing[i]) || merged_from(
            existing,
            observed,
            outcomes,
            n,
            max,
            force,
            #[trigger] after[i],
        ) by {
            if i < before.len() && after[i] == before[i] {
                if !(i < existing.len() && before[i] == existing[i]) {
                    assert(merged_from(existing, observed, outcomes, n - 1, max, force, before[i]));
                    let k = choose|k: int|
                        0 <= k < n - 1 && #[trigger] counts(observed, k) && merge_entity_spec(
                            known(existing, observed[k]),
                            observed[k],
                            outcomes[k],
                            max,
                            force,
                        ) == Some(before[i]);
                    assert(0 <= k < n && counts(observed, k));
                }
            } else {
                assert(counts(observed, n - 1));
            }
        }
    }
}

/// Retention bound: where no stock had more than `max` records before a
/// merge, none has after it. A new stock whose observed history is kept for
/// want of a fetched one must itself come within the bound.
pub proof fn lemma_merge_keeps_retention_bound(
    existing: Seq<StockView>,
    observed: Seq<StockView>,
    outcomes: Seq<FetchView>,
    max: nat,
    force: bool,
)
    requires
        outcomes.len() == observed.len(),
        histories_bounded(existing, max),
        forall|k: int|
            0 <= k < observed.len() && known(existing, #[trigger] observed[k]) is None
                && !replaces_history(outcomes[k]) ==> observed[k].daily.len() <= max,
    ensures
        histories_bounded(
            merge_batch_spec(existing, observed, outcomes, observed.len() as int, max, force),
            max,
        ),
{
    let n = observed.len() as int;
    let after = merge_batch_spec(existing, observed, outcomes, n, max, force);
    lemma_merge_batch_stocks(existing, observed, outcomes, n, max, force);
    assert forall|i: int| 0 <= i < after.len() implies (#[trigger] after[i]).daily.len() <= max by {
        let s = after[i];
        if !(i < existing.len() && s == existing[i]) {
            assert(merged_from(existing, observed, outcomes, n, max, force, s));
            let k = choose|k: int|
                0 <= k < n && #[trigger] counts(observed, k) && merge_entity_spec(
                    known(existing, observed[k]),
                    observed[k],
                    outcomes[k],
                    max,
                    force,
                ) == Some(s);
            lemma_slot_of(existing, observed[k].exchange, observed[k].symbol);
            lemma_merged_history_bounded(
                known(existing, observed[k]),
                observed[k],
                outcomes[k],
                max,
                force,
            );
        }
    }
}

/// Date uniqueness: where no stock had two records of one day before a
/// merge, none has after it, provided no fetched history has, nor the
/// observed history of a new stock that is kept for want of a fetched one.
pub proof fn lemma_merge_keeps_dates_distinct(
    existing: Seq<StockView>,
    observed: Seq<StockView>,
    outcomes: Seq<FetchView>,
    max: nat,
    force: bool,
)
    requires
        outcomes.len() == observed.len(),
        histories_distinct(existing),
        forall|k: int|
            0 <= k < outcomes.len() ==> ((#[trigger] outcomes[k]) matches FetchView::Fetched(h)
                ==> distinct_dates(h)),
        forall|k: int|
            0 <= k < observed.len() && known(existing, #[trigger] observed[k]) is None
                && !replaces_history(outcomes[k]) ==> distinct_dates(observed[k].daily),
    ensures
        histories_distinct(
            merge_batch_spec(existing, observed, outcomes, observed.len() as int, max, force),
        ),
{
    let n = observed.len() as int;
    let after = merge_batch_spec(existing, observed, outcomes, n, max, force);
    lemma_merge_batch_stocks(existing, observed, outcomes, n, max, force);
    assert forall|i: int| 0 <= i < after.len() implies distinct_dates(
        (#[trigger] after[i]).daily,
    ) by {
        let s = after[i];
        if !(i < existing.len() && s == existing[i]) {
            assert(merged_from(existing, observed, outcomes, n, max, force, s));
            let k = choose|k: int|
                0 <= k < n && #[trigger] counts(observed, k) && merge_entity_spec(
                    known(existing, observed[k]),
                    observed[k],
                    outcomes[k],
                    max,
                    force,
                ) == Some(s);
            lemma_slot_of(existing, observed[k].exchange, observed[k].symbol);
            assert(outcomes[k] matches FetchView::Fetched(h) ==> distinct_dates(h));
            lemma_merged_history_distinct(
                known(existing, observed[k]),
                observed[k],
                outcomes[k],
                max,
                force,
            );
        }
    }
}

/// Order: where every stock had its records most recent day first before a
/// merge, every stock has after it, provided the observed history of a new
/// stock that is kept for want of a fetched one is in that order.
pub proof fn lemma_merge_keeps_order(
    existing: Seq<StockView>,
    observed: Seq<StockView>,
    outcomes: Seq<FetchView>,
    max: nat,
    force: bool,
)
    requires
        outcomes.len() == observed.len(),
        histories_sorted(existing),
        forall|k: int|
            0 <= k < observed.len() && known(existing, #[trigger] observed[k]) is None
                && !replaces_history(outcomes[k]) ==> sorted_desc(observed[k].daily),
    ensures
        histories_sorted(
            merge_batch_spec(existing, observed, outcomes, observed.len() as int, max, force),
        ),
{
    let n = observed.len() as int;
    let after = merge_batch_spec(existing, observed, outcomes, n, max, force);
    lemma_merge_batch_stocks(existing, observed, outcomes, n, max, force);
    assert forall|i: int| 0 <= i < after.len() implies sorted_desc((#[trigger] after[i]).daily) by {
        let s = after[i];
        if !(i < existing.len() && s == existing[i]) {
            assert(merged_from(existing, observed, outcomes, n, max, force, s));
            let k = choose|k: int|
                0 <= k < n && #[trigger] counts(observed, k) && merge_entity_spec(
                    known(existing, observed[k]),
                    observed[k],
                    outcomes[k],
                    max,
                    force,
                ) == Some(s);
            lemma_slot_of(existing, observed[k].exchange, observed[k].symbol);
            lemma_merged_history_sorted(
                known(existing, observed[k]),
                observed[k],
                outcomes[k],
                max,
                force,
            );
        }
    }
}

/// Data sets with the same exchanges and symbols at the same places give
/// the same position for every exchange and symbol.
pub proof fn lemma_slot_by_keys(
    a: Seq<StockView>,
    b: Seq<StockView>,
    exchange: Seq<char>,
    symbol: Seq<char>,
)
    requires
        a.len() == b.len(),
        forall|i: int|
            0 <= i < a.len() ==> a[i].exchange == b[i].exchange && a[i].symbol == b[i].symbol,
    ensures
        slot_of(a, exchange, symbol) == slot_of(b, exchange, symbol),
    decreases a.len(),
{
    if a.len() > 0 {
        assert forall|i: int| 0 <= i < a.drop_last().len() implies a.drop_last()[i].exchange
            == b.drop_last()[i].exchange && a.drop_last()[i].symbol == b.drop_last()[i].symbol by {
            assert(a.drop_last()[i] == a[i]);
            assert(b.drop_last()[i] == b[i]);
        }
        lemma_slot_by_keys(a.drop_last(), b.drop_last(), exchange, symbol);
    }
}

/// Idempotence: observing a day that a known stock already has changes
/// nothing but the stock's name, and observing it once more changes nothing
/// at all, whatever the history requests would have answered.
pub proof fn lemma_reobserving_changes_nothing(
    existing: Seq<StockView>,
    observed: StockView,
    first: FetchView,
    second: FetchView,
    max: nat,
)
    requires
        observed.daily.len() > 0,
        known(existing, observed) matches Some(e) && has_date(e.daily, observed.daily[0].date),
    ensures
        ({
            let slot = slot_of(existing, observed.exchange, observed.symbol)->0;
            let once = merge_batch_spec(existing, seq![observed], seq![first], 1, max, false);
            let twice = merge_batch_spec(once, seq![observed], seq![second], 1, max, false);
            &&& once == existing.update(
                slot,
                StockView { name: observed.name, ..existing[slot] },
            )
            &&& twice == once
        }),
{
    let batch = seq![observed];
    lemma_slot_of(existing, observed.exchange, observed.symbol);
    lemma_slot_is(batch, observed.exchange, observed.symbol, Some(0));
    let slot = slot_of(existing, observed.exchange, observed.symbol)->0;
    let e = existing[slot];
    assert(has_date(e.daily, observed.daily[0].date));
    let renamed = StockView { name: observed.name, ..e };
    assert(merge_batch_spec(existing, batch, seq![first], 0, max, false) == existing);
    let once = merge_batch_spec(existing, batch, seq![first], 1, max, false);
    assert(merge_entity_spec(Some(e), observed, first, max, false) == Some(renamed));
    assert(once == existing.update(slot, renamed));
    lemma_slot_by_keys(existing, once, observed.exchange, observed.symbol);
    assert(merge_batch_spec(once, batch, seq![second], 0, max, false) == once);
    assert(merge_entity_spec(Some(renamed), observed, second, max, false) == Some(renamed));
    assert(once.update(slot, renamed) =~= once);
}

/// No two stocks of the data set have the same exchange and symbol.
pub open spec fn keys_distinct(data: Seq<StockView>) -> bool {
    forall|i: int, j: int|
        0 <= i < j < data.len() ==> !(data[i].exchange == data[j].exchange && data[i].symbol
            == data[j].symbol)
}

/// A merged stock has the exchange and symbol of the observation it came
/// from.
pub proof fn lemma_merged_keeps_key(
    existing: Seq<StockView>,
    observed: StockView,
    outcome: FetchView,
    max: nat,
    force: bool,
)
    ensures
        merge_entity_spec(known(existing, observed), observed, outcome, max, force) matches Some(
            m,
        ) ==> m.exchange == observed.exchange && m.symbol == observed.symbol,
{
    lemma_slot_of(existing, observed.exchange, observed.symbol);
}

/// The stock has the exchange and symbol of one of the first `n`
/// observations, one that counts and whose stock was not known before.
pub open spec fn appended_from(
    existing: Seq<StockView>,
    observed: Seq<StockView>,
    n: int,
    stock: StockView,
) -> bool {
    exists|k: int|
        0 <= k < n && #[trigger] counts(observed, k) && known(existing, observed[k]) is None
            && stock.exchange == observed[k].exchange && stock.symbol == observed[k].symbol
}

/// What a merge does to the places of the data set: a stock that was there
/// keeps its place, exchange and symbol, and every stock behind those has
/// the exchange and symbol of an observation that counts and was not known
/// before.
pub proof fn lemma_merge_batch_places(
    existing: Seq<StockView>,
    observed: Seq<StockView>,
    outcomes: Seq<FetchView>,
    n: int,
    max: nat,
    force: bool,
)
    requires
        0 <= n <= observed.len(),
        outcomes.len() == observed.len(),
        keys_distinct(existing),
    ensures
        merge_batch_spec(existing, observed, outcomes, n, max, force).len() >= existing.len(),
        keys_distinct(merge_batch_spec(existing, observed, outcomes, n, max, force)),
        forall|i: int|
            0 <= i < existing.len() ==> (#[trigger] merge_batch_spec(
                existing,
                observed,
                outcomes,
                n,
                max,
                force,
            )[i]).exchange == existing[i].exchange && merge_batch_spec(
                existing,
                observed,
                outcomes,
                n,
                max,
                force,
            )[i].symbol == existing[i].symbol,
        forall|i: int|
            existing.len() <= i < merge_batch_spec(existing, observed, outcomes, n, max, force).len()
                ==> appended_from(
                existing,
                observed,
                n,
                #[trigger] merge_batch_spec(existing, observed, outcomes, n, max, force)[i],
            ),
    decreases n,
{
    let after = merge_batch_spec(existing, observed, outcomes, n, max, force);
    if n == 0 {
        assert(after == existing);
    } else {
        lemma_merge_batch_places(existing, observed, outcomes, n - 1, max, force);
        let before = merge_batch_spec(existing, observed, outcomes, n - 1, max, force);
        let o = observed[n - 1];
        lemma_slot_of(existing, o.exchange, o.symbol);
        lemma_slot_of(observed, o.exchange, o.symbol);
        lemma_merged_keeps_key(existing, o, outcomes[n - 1], max, force);
        let merged = merge_entity_spec(known(existing, o), o, outcomes[n - 1], max, force);
        assert forall|s: StockView| appended_from(existing, observed, n - 1, s) implies appended_from(
            existing,
            observed,
            n,
            s,
        ) by {
            let k = choose|k: int|
                0 <= k < n - 1 && #[trigger] counts(observed, k) && known(existing, observed[k])
                    is None && s.exchange == observed[k].exchange && s.symbol
                    == observed[k].symbol;
            assert(0 <= k < n && counts(observed, k));
        }
        if counts(observed, n - 1) && merged is Some {
            let m = merged->0;
            match slot_of(existing, o.exchange, o.symbol) {
                Some(p) => {
                    assert(after == before.update(p, m));
                    assert(before[p].exchange == existing[p].exchange && before[p].symbol
                        == existing[p].symbol);
                    assert forall|i: int| 0 <= i < after.len() implies (#[trigger] after[i]).exchange
                        == before[i].exchange && after[i].symbol == before[i].symbol by {}
                    assert forall|i: int, j: int| 0 <= i < j < after.len() implies !(
                    after[i].exchange == after[j].exchange && after[i].symbol
                        == after[j].symbol) by {
                        assert(after[i].exchange == before[i].exchange && after[i].symbol
                            == before[i].symbol);
                        assert(after[j].exchange == before[j].exchange && after[j].symbol
                            == before[j].symbol);
                    }
                    assert forall|i: int| existing.len() <= i < after.len() implies appended_from(
                        existing,
                        observed,
                        n,
                        #[trigger] after[i],
                    ) by {
                        assert(after[i] == before[i]);
                        assert(appended_from(existing, observed, n - 1, before[i]));
                    }
                },
                None => {
                    assert(after == before.push(m));
                    assert(counts(observed, n - 1));
                    assert(appended_from(existing, observed, n, m));
                    assert forall|i: int| existing.len() <= i < after.len() implies appended_from(
                        existing,
                        observed,
                        n,
                        #[trigger] after[i],
                    ) by {
                        if i < before.len() {
                            assert(after[i] == before[i]);
                            assert(appended_from(existing, observed, n - 1, before[i]));
                        }
                    }
                    assert forall|i: int, j: int| 0 <= i < j < after.len() implies !(
                    after[i].exchange == after[j].exchange && after[i].symbol
                        == after[j].symbol) by {
                        assert(after[i] == before[i]);
                        if j == before.len() {
                            if i < existing.len() {
                                assert(before[i].exchange == existing[i].exchange
                                    && before[i].symbol == existing[i].symbol);
                            } else {
                                assert(appended_from(existing, observed, n - 1, before[i]));
                                let k = choose|k: int|
                                    0 <= k < n - 1 && #[trigger] counts(observed, k) && known(
                                        existing,
                                        observed[k],
                                    ) is None && before[i].exchange == observed[k].exchange
                                        && before[i].symbol == observed[k].symbol;
                                lemma_slot_of(observed, observed[k].exchange, observed[k].symbol);
                            }
                        } else {
                            assert(after[j] == before[j]);
                        }
                    }
                },
            }
        } else {
            assert(after == before);
        }
    }
}

/// Key uniqueness: where no two stocks had the same exchange and symbol
/// before a merge, no two have after it.
pub proof fn lemma_merge_keeps_keys_distinct(
    existing: Seq<StockView>,
    observed: Seq<StockView>,
    outcomes: Seq<FetchView>,
    max: nat,
    force: bool,
)
    requires
        outcomes.len() == observed.len(),
        keys_distinct(existing),
    ensures
        keys_distinct(
            merge_batch_spec(existing, observed, outcomes, observed.len() as int, max, force),
        ),
{
    lemma_merge_batch_places(existing, observed, outcomes, observed.len() as int, max, force);
}

/// A stock that no observation of the batch names is left as it was.
pub proof fn lemma_merge_leaves_absent(
    existing: Seq<StockView>,
    observed: Seq<StockView>,
    outcomes: Seq<FetchView>,
    n: int,
    max: nat,
    force: bool,
    i: int,
)
    requires
        0 <= n <= observed.len(),
        0 <= i < existing.len(),
        forall|k: int|
            0 <= k < n ==> slot_of(
                existing,
                (#[trigger] observed[k]).exchange,
                observed[k].symbol,
            ) != Some(i),
    ensures
        merge_batch_spec(existing, observed, outcomes, n, max, force).len() >= existing.len(),
        merge_batch_spec(existing, observed, outcomes, n, max, force)[i] == existing[i],
    decreases n,
{
    if n > 0 {
        lemma_merge_leaves_absent(existing, observed, outcomes, n - 1, max, force, i);
        let o = observed[n - 1];
        lemma_slot_of(existing, o.exchange, o.symbol);
    }
}

} // verus!
