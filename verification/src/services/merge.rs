//! How observed stocks are folded into the data set: one observation into
//! the stock it names, and a batch of observations into the whole.
use crate::errors::{DataHubError, ErrorView};
use crate::history::{
    contains_date, has_date, keep_newest, sort_by_date_desc, sort_desc,
};
use crate::index::{as_ints, build_positions, is_positions, lemma_positions, positions};
use crate::models::stock::{
    copy_history, stock_views, symbols, symbols_of, DailyData, StockData, StockView,
};
use crate::util::limit_kline_records;
use vstd::hash_map::StringHashMap;
use vstd::prelude::*;

verus! {

/// How the request for a stock's full history ended.
#[derive(Clone, Debug, PartialEq, Eq)]
pub enum FetchOutcome {
    /// No request was made.
    NotFetched,
    /// The source failed.
    Failed(DataHubError),
    /// The source answered with these records.
    Fetched(Vec<DailyData>),
}

/// A `FetchOutcome` as mathematical values.
pub enum FetchView {
    NotFetched,
    Failed(ErrorView),
    Fetched(Seq<DailyData>),
}

impl View for FetchOutcome {
    type V = FetchView;

    open spec fn view(&self) -> FetchView {
        match self {
            FetchOutcome::NotFetched => FetchView::NotFetched,
            FetchOutcome::Failed(e) => FetchView::Failed(e@),
            FetchOutcome::Fetched(h) => FetchView::Fetched(h@),
        }
    }
}

/// A stock whose full history was asked for and could not be fetched.
#[derive(Clone, Debug, PartialEq, Eq)]
pub struct FetchFailure {
    pub exchange: String,
    pub symbol: String,
    pub error: DataHubError,
}

/// A `FetchFailure` as mathematical values.
pub struct FailedFetchView {
    pub exchange: Seq<char>,
    pub symbol: Seq<char>,
    pub error: ErrorView,
}

impl View for FetchFailure {
    type V = FailedFetchView;

    open spec fn view(&self) -> FailedFetchView {
        FailedFetchView { exchange: self.exchange@, symbol: self.symbol@, error: self.error@ }
    }
}

/// The views of a run of failures.
pub open spec fn failure_views(failures: Seq<FetchFailure>) -> Seq<FailedFetchView> {
    Seq::new(failures.len(), |i: int| failures[i]@)
}

/// What a merge of a batch gives: the data set to store, and the stocks
/// that were left as they were because their history could not be fetched,
/// in the order of the batch.
#[derive(Clone, Debug, PartialEq, Eq)]
pub struct MergeReport {
    pub stocks: Vec<StockData>,
    pub failures: Vec<FetchFailure>,
}

/// The failures among the first `n` observations of a batch: each
/// observation whose request for a history failed, with the error.
pub open spec fn failures_of(observed: Seq<StockView>, outcomes: Seq<FetchView>, n: int) -> Seq<
    FailedFetchView,
>
    decreases n,
{
    if n <= 0 {
        Seq::empty()
    } else {
        let before = failures_of(observed, outcomes, n - 1);
        match outcomes[n - 1] {
            FetchView::Failed(e) => before.push(
                FailedFetchView {
                    exchange: observed[n - 1].exchange,
                    symbol: observed[n - 1].symbol,
                    error: e,
                },
            ),
            _ => before,
        }
    }
}

/// Two runs of outcomes that agree on the first `n` give the same failures
/// among the first `n` observations.
pub proof fn lemma_failures_prefix(
    observed: Seq<StockView>,
    a: Seq<FetchView>,
    b: Seq<FetchView>,
    n: int,
)
    requires
        0 <= n <= a.len(),
        n <= b.len(),
        forall|i: int| 0 <= i < n ==> a[i] == b[i],
    ensures
        failures_of(observed, a, n) == failures_of(observed, b, n),
    decreases n,
{
    if n > 0 {
        lemma_failures_prefix(observed, a, b, n - 1);
    }
}

/// The view of an optional stock.
pub open spec fn optional_view(stock: Option<&StockData>) -> Option<StockView> {
    match stock {
        Some(s) => Some(s@),
        None => None,
    }
}

/// A stock's history is fetched in full when the stock is new, when the
/// stock is known without any history, or when the caller insists.
pub open spec fn needs_full_history_spec(existing: Option<StockView>, force: bool) -> bool {
    match existing {
        None => true,
        Some(e) => force || e.daily.len() == 0,
    }
}

/// What the merge starts from: the known stock under its newly observed
/// name, or the observed stock itself where none is known.
pub open spec fn merge_base(existing: Option<StockView>, observed: StockView) -> StockView {
    match existing {
        Some(e) => StockView { name: observed.name, ..e },
        None => observed,
    }
}

/// The stock with its history replaced by what was fetched, sorted and cut
/// to `max` records. An empty answer replaces nothing.
pub open spec fn full_replace(base: StockView, fetched: Seq<DailyData>, max: nat) -> StockView {
    if fetched.len() > 0 {
        StockView { daily: keep_newest(sort_desc(fetched), max), ..base }
    } else {
        base
    }
}

/// The stock with the first observed record spliced into its history, which
/// is then sorted and cut to `max` records. Nothing changes where nothing
/// was observed or the day is already there.
pub open spec fn splice(base: StockView, observed: Seq<DailyData>, max: nat) -> StockView {
    if observed.len() == 0 || has_date(base.daily, observed[0].date) {
        base
    } else {
        StockView { daily: keep_newest(sort_desc(seq![observed[0]] + base.daily), max), ..base }
    }
}

/// The stock that takes the place of `existing` once `observed` has been
/// seen, or `None` where the stock is to be left as it was because its
/// history could not be fetched.
pub open spec fn merge_entity_spec(
    existing: Option<StockView>,
    observed: StockView,
    outcome: FetchView,
    max: nat,
    force: bool,
) -> Option<StockView> {
    let base = merge_base(existing, observed);
    if needs_full_history_spec(existing, force) {
        match outcome {
            FetchView::NotFetched => Some(base),
            FetchView::Failed(_) => None,
            FetchView::Fetched(h) => Some(full_replace(base, h, max)),
        }
    } else {
        Some(splice(base, observed.daily, max))
    }
}

/// Whether the full history of a stock has to be fetched.
pub fn needs_full_history(existing: Option<&StockData>, force: bool) -> (full: bool)
    ensures
        full == needs_full_history_spec(optional_view(existing), force),
        existing is None ==> full,
        existing matches Some(e) && e.daily@.len() == 0 ==> full,
{
    match existing {
        None => true,
        Some(e) => force || e.daily.len() == 0,
    }
}

/// Folds one observed stock into the known one.
///
/// Returns the stock to store, or `None` where the history was needed and
/// could not be fetched: the stock is then left as it was.
pub fn merge_entity(
    existing: Option<&StockData>,
    observed: &StockData,
    outcome: FetchOutcome,
    max_records: usize,
    force: bool,
) -> (merged: Option<StockData>)
    ensures
        match merge_entity_spec(
            optional_view(existing),
            observed@,
            outcome@,
            max_records as nat,
            force,
        ) {
            Some(v) => merged matches Some(m) && m@ == v,
            None => merged is None,
        },
{
    let full = needs_full_history(existing, force);
    let mut base = match existing {
        Some(e) => StockData {
            exchange: e.exchange.clone(),
            symbol: e.symbol.clone(),
            name: observed.name.clone(),
            daily: copy_history(&e.daily),
        },
        None => observed.duplicate(),
    };
    if full {
        match outcome {
            FetchOutcome::NotFetched => Some(base),
            FetchOutcome::Failed(_) => None,
            FetchOutcome::Fetched(history) => {
                if history.len() > 0 {
                    let mut daily = history;
                    sort_by_date_desc(&mut daily);
                    limit_kline_records(&mut daily, max_records, observed.symbol.as_str());
                    base.daily = daily;
                }
                Some(base)
            },
        }
    } else {
        if observed.daily.len() > 0 && !contains_date(&base.daily, observed.daily[0].date) {
            let mut daily = copy_history(&base.daily);
            daily.insert(0, observed.daily[0]);
            assert(daily@ =~= seq![observed.daily@[0]] + base.daily@);
            sort_by_date_desc(&mut daily);
            limit_kline_records(&mut daily, max_records, observed.symbol.as_str());
            base.daily = daily;
        }
        Some(base)
    }
}

/// The position of the last stock of the data set that has the given
/// exchange and symbol, if any has.
pub open spec fn slot_of(data: Seq<StockView>, exchange: Seq<char>, symbol: Seq<char>) -> Option<
    int,
>
    decreases data.len(),
{
    if data.len() == 0 {
        None
    } else if data.last().exchange == exchange && data.last().symbol == symbol {
        Some(data.len() - 1)
    } else {
        slot_of(data.drop_last(), exchange, symbol)
    }
}

/// The stock at a position, if there is a position.
pub open spec fn stock_at(data: Seq<StockView>, slot: Option<int>) -> Option<StockView> {
    match slot {
        Some(i) => Some(data[i]),
        None => None,
    }
}

/// The data set with a merged stock stored: in place of the known stock, or
/// at the end where the stock is new. Nothing is stored for `None`.
pub open spec fn store(all: Seq<StockView>, slot: Option<int>, merged: Option<StockView>) -> Seq<
    StockView,
> {
    match merged {
        None => all,
        Some(m) => match slot {
            Some(i) => all.update(i, m),
            None => all.push(m),
        },
    }
}

/// Whether the observation at `i` counts: it is the last of the batch with
/// its exchange and symbol.
pub open spec fn counts(observed: Seq<StockView>, i: int) -> bool {
    slot_of(observed, observed[i].exchange, observed[i].symbol) == Some(i)
}

/// The data set after the first `n` observations of a batch have been
/// merged into `existing`, given how each request for a history ended.
///
/// An observation is held against the last stock of `existing` that has
/// its exchange and symbol. Of several observations with one exchange and
/// symbol only the last counts.
pub open spec fn merge_batch_spec(
    existing: Seq<StockView>,
    observed: Seq<StockView>,
    outcomes: Seq<FetchView>,
    n: int,
    max: nat,
    force: bool,
) -> Seq<StockView>
    decreases n,
{
    if n <= 0 {
        existing
    } else {
        let before = merge_batch_spec(existing, observed, outcomes, n - 1, max, force);
        let o = observed[n - 1];
        if counts(observed, n - 1) {
            let slot = slot_of(existing, o.exchange, o.symbol);
            store(
                before,
                slot,
                merge_entity_spec(stock_at(existing, slot), o, outcomes[n - 1], max, force),
            )
        } else {
            before
        }
    }
}

/// What `slot_of` gives: the position holds the exchange and symbol and
/// no later one does; without a position, none does.
pub proof fn lemma_slot_of(data: Seq<StockView>, exchange: Seq<char>, symbol: Seq<char>)
    ensures
        match slot_of(data, exchange, symbol) {
            Some(i) => 0 <= i < data.len() && data[i].exchange == exchange && data[i].symbol
                == symbol && forall|j: int|
                i < j < data.len() ==> !(data[j].exchange == exchange && data[j].symbol
                    == symbol),
            None => forall|j: int|
                0 <= j < data.len() ==> !(data[j].exchange == exchange && data[j].symbol
                    == symbol),
        },
    decreases data.len(),
{
    if data.len() > 0 {
        let front = data.drop_last();
        lemma_slot_of(front, exchange, symbol);
        assert forall|j: int| 0 <= j < front.len() implies front[j] == data[j] by {}
    }
}

/// A position that holds the exchange and symbol, with no later one that
/// does, is what `slot_of` gives; and so is none, where no position does.
pub proof fn lemma_slot_is(
    data: Seq<StockView>,
    exchange: Seq<char>,
    symbol: Seq<char>,
    slot: Option<int>,
)
    requires
        match slot {
            Some(i) => 0 <= i < data.len() && data[i].exchange == exchange && data[i].symbol
                == symbol && forall|j: int|
                i < j < data.len() ==> !(data[j].exchange == exchange && data[j].symbol
                    == symbol),
            None => forall|j: int|
                0 <= j < data.len() ==> !(data[j].exchange == exchange && data[j].symbol
                    == symbol),
        },
    ensures
        slot_of(data, exchange, symbol) == slot,
{
    lemma_slot_of(data, exchange, symbol);
}

/// For each symbol, the positions of the stocks that have it.
pub fn symbol_table(data: &[StockData]) -> (table: StringHashMap<Vec<usize>>)
    ensures
        is_positions(table@, symbols(stock_views(data@))),
{
    let names = symbols_of(data);
    build_positions(&names)
}

/// Looks up the last stock that has the given exchange and symbol, with the
/// help of the table of the data set's symbols.
pub fn find_slot(
    data: &[StockData],
    table: &StringHashMap<Vec<usize>>,
    exchange: &String,
    symbol: &String,
) -> (out: Option<usize>)
    requires
        is_positions(table@, symbols(stock_views(data@))),
    ensures
        match slot_of(stock_views(data@), exchange@, symbol@) {
            Some(i) => out matches Some(p) && p as int == i && 0 <= i < data@.len(),
            None => out is None,
        },
{
    let ghost views = stock_views(data@);
    let ghost at = positions(symbols(views), symbol@);
    proof {
        lemma_positions(symbols(views), symbol@);
    }
    match table.get(symbol.as_str()) {
        Some(list) => {
            assert(table@.contains_key(symbol@));
            assert(as_ints(list@) == at);
            let mut k: usize = list.len();
            while k > 0
                invariant
                    k <= list.len(),
                    views == stock_views(data@),
                    as_ints(list@) == at,
                    at == positions(symbols(views), symbol@),
                    forall|j: int|
                        0 <= j < at.len() ==> 0 <= #[trigger] at[j] < views.len() && symbols(
                            views,
                        )[at[j]] == symbol@,
                    forall|a: int, b: int| 0 <= a < b < at.len() ==> at[a] < at[b],
                    forall|i: int|
                        0 <= i < views.len() && symbols(views)[i] == symbol@ ==> at.contains(i),
                    forall|j: int| k <= j < at.len() ==> views[#[trigger] at[j]].exchange
                        != exchange@,
                decreases k,
            {
                k -= 1;
                assert(as_ints(list@)[k as int] == list@[k as int] as int);
                let p = list[k];
                assert(p as int == at[k as int]);
                if data[p].exchange == *exchange {
                    proof {
                        assert(views[p as int].symbol == symbols(views)[p as int]);
                        assert forall|j: int| p < j < views.len() implies !(views[j].exchange
                            == exchange@ && views[j].symbol == symbol@) by {
                            if views[j].exchange == exchange@ && views[j].symbol == symbol@ {
                                assert(symbols(views)[j] == symbol@);
                                assert(at.contains(j));
                                let t = choose|t: int| 0 <= t < at.len() && at[t] == j;
                                if t <= k {
                                    if t < k {
                                        assert(at[t] < at[k as int]);
                                    }
                                }
                            }
                        }
                        lemma_slot_is(views, exchange@, symbol@, Some(p as int));
                    }
                    return Some(p);
                }
            }
            proof {
                assert forall|j: int| 0 <= j < views.len() implies !(views[j].exchange
                    == exchange@ && views[j].symbol == symbol@) by {
                    if views[j].exchange == exchange@ && views[j].symbol == symbol@ {
                        assert(symbols(views)[j] == symbol@);
                        assert(at.contains(j));
                        let t = choose|t: int| 0 <= t < at.len() && at[t] == j;
                        assert(views[at[t]].exchange != exchange@);
                    }
                }
                lemma_slot_is(views, exchange@, symbol@, None);
            }
            None
        },
        None => {
            proof {
                assert(at.len() == 0);
                assert forall|j: int| 0 <= j < views.len() implies !(views[j].exchange
                    == exchange@ && views[j].symbol == symbol@) by {
                    if views[j].symbol == symbol@ {
                        assert(symbols(views)[j] == symbol@);
                        assert(at.contains(j));
                    }
                }
                lemma_slot_is(views, exchange@, symbol@, None);
            }
            None
        },
    }
}

/// Two runs of outcomes that agree on the first `n` give the same merge of
/// the first `n` observations.
pub proof fn lemma_merge_batch_prefix(
    existing: Seq<StockView>,
    observed: Seq<StockView>,
    a: Seq<FetchView>,
    b: Seq<FetchView>,
    n: int,
    max: nat,
    force: bool,
)
    requires
        0 <= n <= a.len(),
        n <= b.len(),
        forall|i: int| 0 <= i < n ==> a[i] == b[i],
    ensures
        merge_batch_spec(existing, observed, a, n, max, force) == merge_batch_spec(
            existing,
            observed,
            b,
            n,
            max,
            force,
        ),
    decreases n,
{
    if n > 0 {
        lemma_merge_batch_prefix(existing, observed, a, b, n - 1, max, force);
    }
}

/// A merge never makes the data set shorter.
pub proof fn lemma_merge_batch_len(
    existing: Seq<StockView>,
    observed: Seq<StockView>,
    outcomes: Seq<FetchView>,
    n: int,
    max: nat,
    force: bool,
)
    ensures
        merge_batch_spec(existing, observed, outcomes, n, max, force).len() >= existing.len(),
    decreases n,
{
    if n > 0 {
        lemma_merge_batch_len(existing, observed, outcomes, n - 1, max, force);
        lemma_slot_of(existing, observed[n - 1].exchange, observed[n - 1].symbol);
    }
}

} // verus!
