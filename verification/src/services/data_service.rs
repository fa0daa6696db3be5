//! The service that gathers a day's observations from the sources and
//! merges them into the data set.
use crate::config::Config;
use crate::data_provider::StockDataProvider;
use crate::errors::{DataHubError, ErrorView};
use crate::index::last_position;
use crate::models::stock::{
    copy_stocks, stock_views, symbols, DailyData, StockData, StockView,
};
use crate::scrapers::base::StockScraper;
use crate::index::is_positions;
use crate::services::merge::{
    counts, find_slot, lemma_merge_batch_len, lemma_merge_batch_prefix, lemma_slot_of,
    merge_batch_spec, merge_entity, merge_entity_spec, needs_full_history,
    failure_views, failures_of, lemma_failures_prefix, needs_full_history_spec, optional_view,
    slot_of, stock_at, symbol_table, FailedFetchView, FetchFailure, FetchOutcome, FetchView,
    MergeReport,
};
use crate::util::arrow_utils::{decode_file, encode_file, save_stock_data_to_arrow};
use crate::util::{date_text, naive_date_text};
use chrono::NaiveDate;
use vstd::prelude::*;
use vstd::string::StringExecFns;

verus! {

/// A source's list as it is taken in: cut to the debug limit in debug mode.
pub open spec fn debug_cut(list: Seq<StockView>, debug: bool, limit: nat) -> Seq<StockView> {
    if debug && list.len() > limit {
        list.take(limit as int)
    } else {
        list
    }
}

/// The lists of the first `n` sources, each cut as `debug_cut` says, one
/// after the other.
pub open spec fn gathered(lists: Seq<Seq<StockView>>, n: int, debug: bool, limit: nat) -> Seq<
    StockView,
>
    decreases n,
{
    if n <= 0 {
        Seq::empty()
    } else {
        gathered(lists, n - 1, debug, limit) + debug_cut(lists[n - 1], debug, limit)
    }
}

/// The first position whose stock has the given exchange and symbol.
pub open spec fn first_position(data: Seq<StockView>, exchange: Seq<char>, symbol: Seq<char>)
    -> Option<int>
    decreases data.len(),
{
    if data.len() == 0 {
        None
    } else {
        match first_position(data.drop_last(), exchange, symbol) {
            Some(i) => Some(i),
            None => if data.last().exchange == exchange && data.last().symbol == symbol {
                Some(data.len() - 1)
            } else {
                None
            },
        }
    }
}

/// The data set after one observed stock has been merged into it. The
/// stock is held against the one that the data set has under its symbol,
/// and stored at the first place that has its exchange and symbol.
pub open spec fn single_merge_spec(
    existing: Seq<StockView>,
    observed: StockView,
    outcome: FetchView,
    max: nat,
    force: bool,
) -> Seq<StockView> {
    let known = stock_at(existing, last_position(symbols(existing), observed.symbol));
    match merge_entity_spec(known, observed, outcome, max, force) {
        Some(m) => match first_position(existing, m.exchange, m.symbol) {
            Some(i) => existing.update(i, m),
            None => existing.push(m),
        },
        None => existing,
    }
}

/// The text of the error for a symbol that no source lists.
pub open spec fn not_found_message(symbol: Seq<char>, date: NaiveDate) -> Seq<char> {
    "Stock "@ + symbol + " not found in any exchange for date "@ + naive_date_text(date)
}

/// What `first_position` gives holds the exchange and symbol, and no
/// earlier place does; without a position, none does.
pub proof fn lemma_first_position(data: Seq<StockView>, exchange: Seq<char>, symbol: Seq<char>)
    ensures
        match first_position(data, exchange, symbol) {
            Some(i) => 0 <= i < data.len() && data[i].exchange == exchange && data[i].symbol
                == symbol && forall|j: int|
                0 <= j < i ==> !(data[j].exchange == exchange && data[j].symbol == symbol),
            None => forall|j: int|
                0 <= j < data.len() ==> !(data[j].exchange == exchange && data[j].symbol
                    == symbol),
        },
    decreases data.len(),
{
    if data.len() > 0 {
        let front = data.drop_last();
        lemma_first_position(front, exchange, symbol);
        assert forall|j: int| 0 <= j < front.len() implies front[j] == data[j] by {}
    }
}

/// A place that holds the exchange and symbol, with no earlier one that
/// does, is what `first_position` gives.
pub proof fn lemma_first_position_is(
    data: Seq<StockView>,
    exchange: Seq<char>,
    symbol: Seq<char>,
    p: Option<int>,
)
    requires
        match p {
            Some(i) => 0 <= i < data.len() && data[i].exchange == exchange && data[i].symbol
                == symbol && forall|j: int|
                0 <= j < i ==> !(data[j].exchange == exchange && data[j].symbol == symbol),
            None => forall|j: int|
                0 <= j < data.len() ==> !(data[j].exchange == exchange && data[j].symbol
                    == symbol),
        },
    ensures
        first_position(data, exchange, symbol) == p,
{
    lemma_first_position(data, exchange, symbol);
}

/// The source, asked for its exchange, names the given one.
pub open spec fn names<S: StockScraper>(source: S, exchange: Seq<char>) -> bool {
    exists|code: &'static str|
        code@ == exchange && #[trigger] call_ensures(S::exchange_code, (&source,), code)
}

/// The source, asked for its exchange, names one other than the given one.
pub open spec fn names_another<S: StockScraper>(source: S, exchange: Seq<char>) -> bool {
    exists|code: &'static str|
        code@ != exchange && #[trigger] call_ensures(S::exchange_code, (&source,), code)
}

/// The source, asked for the history of the symbol, gives the answer.
pub open spec fn answers<S: StockScraper>(
    source: S,
    symbol: Seq<char>,
    answer: Result<Vec<DailyData>, DataHubError>,
) -> bool {
    exists|text: &str|
        text@ == symbol && #[trigger] call_ensures(
            S::fetch_stock_history,
            (&source, text),
            answer,
        )
}

/// The outcome that a source's answer to a request for a history stands
/// for.
pub open spec fn history_outcome_spec(answer: Result<Vec<DailyData>, DataHubError>)
    -> FetchOutcome {
    match answer {
        Ok(history) => FetchOutcome::Fetched(history),
        Err(e) => FetchOutcome::Failed(e),
    }
}

/// The outcome that a source's answer to a request for a history stands
/// for: the records it gave, or its failure.
pub fn history_outcome(answer: Result<Vec<DailyData>, DataHubError>) -> (out: FetchOutcome)
    ensures
        out == history_outcome_spec(answer),
{
    match answer {
        Ok(history) => FetchOutcome::Fetched(history),
        Err(e) => FetchOutcome::Failed(e),
    }
}

/// The source, asked for the stocks of the day, gives the answer.
pub open spec fn lists_for<S: StockScraper>(
    source: S,
    date: NaiveDate,
    answer: Result<Vec<StockData>, DataHubError>,
) -> bool {
    call_ensures(S::fetch_stock_list, (&source, &date), answer)
}

/// The views of the lists that sources answered with.
pub open spec fn list_views(answers: Seq<Vec<StockData>>) -> Seq<Seq<StockView>> {
    Seq::new(answers.len(), |k: int| stock_views(answers[k]@))
}

/// The first sources, as many as there are lists, answered with these
/// lists when asked for the stocks of the day.
pub open spec fn lists_answered<S: StockScraper>(
    sources: Seq<S>,
    date: NaiveDate,
    answers: Seq<Vec<StockData>>,
) -> bool {
    &&& answers.len() <= sources.len()
    &&& forall|k: int|
        0 <= k < answers.len() ==> #[trigger] lists_for(
            sources[k],
            date,
            Ok::<Vec<StockData>, DataHubError>(answers[k]),
        )
}

/// A source failed with the error when asked for the stocks of the day,
/// and every source before it had answered with a list.
pub open spec fn list_failed<S: StockScraper>(sources: Seq<S>, date: NaiveDate, e: DataHubError)
    -> bool {
    exists|answers: Seq<Vec<StockData>>|
        #[trigger] lists_answered(sources, date, answers) && answers.len() < sources.len()
            && lists_for(
            sources[answers.len() as int],
            date,
            Err::<Vec<StockData>, DataHubError>(e),
        )
}

/// The outcome is what asking the sources for a stock's history gives.
/// Nothing is fetched where every source names another exchange than the
/// stock's. Otherwise the outcome is the answer of the first source that
/// names the stock's exchange, asked for the stock's symbol.
pub open spec fn history_from<S: StockScraper>(
    sources: Seq<S>,
    exchange: Seq<char>,
    symbol: Seq<char>,
    outcome: FetchOutcome,
) -> bool {
    match outcome {
        FetchOutcome::NotFetched => forall|j: int|
            0 <= j < sources.len() ==> #[trigger] names_another(sources[j], exchange),
        _ => exists|k: int, answer: Result<Vec<DailyData>, DataHubError>|
            0 <= k < sources.len() && (forall|j: int|
                0 <= j < k ==> #[trigger] names_another(sources[j], exchange)) && names(
                sources[k],
                exchange,
            ) && #[trigger] answers(sources[k], symbol, answer) && outcome
                == history_outcome_spec(answer),
    }
}

/// The outcome is the one owed to observation `i` of a batch: what asking
/// the sources gives, where the observation counts and its stock needs a
/// full history; no request otherwise.
pub open spec fn outcome_owed<S: StockScraper>(
    sources: Seq<S>,
    existing: Seq<StockView>,
    observed: Seq<StockView>,
    i: int,
    force: bool,
    outcome: FetchOutcome,
) -> bool {
    let o = observed[i];
    if counts(observed, i) && needs_full_history_spec(
        stock_at(existing, slot_of(existing, o.exchange, o.symbol)),
        force,
    ) {
        history_from(sources, o.exchange, o.symbol, outcome)
    } else {
        outcome == FetchOutcome::NotFetched
    }
}

/// The views of a run of outcomes.
pub open spec fn outcome_views(outcomes: Seq<FetchOutcome>) -> Seq<FetchView> {
    Seq::new(outcomes.len(), |i: int| outcomes[i]@)
}

/// The result is the merge of the batch into the existing data for these
/// outcomes, each the one owed to its observation, and the failures are
/// those among the outcomes.
pub open spec fn merged_with<S: StockScraper>(
    sources: Seq<S>,
    existing: Seq<StockView>,
    observed: Seq<StockView>,
    max: nat,
    force: bool,
    outcomes: Seq<FetchOutcome>,
    result: Seq<StockView>,
    failures: Seq<FailedFetchView>,
) -> bool {
    &&& failures == failures_of(observed, outcome_views(outcomes), observed.len() as int)
    &&& outcomes.len() == observed.len()
    &&& forall|i: int|
        0 <= i < observed.len() ==> #[trigger] outcome_owed(
            sources,
            existing,
            observed,
            i,
            force,
            outcomes[i],
        )
    &&& result == merge_batch_spec(
        existing,
        observed,
        outcome_views(outcomes),
        observed.len() as int,
        max,
        force,
    )
}

/// No stock of the list has the symbol.
pub open spec fn lacks(list: Seq<StockView>, symbol: Seq<char>) -> bool {
    forall|i: int| 0 <= i < list.len() ==> (#[trigger] list[i]).symbol != symbol
}

/// The stock at `j` is the first of the list that has the symbol.
pub open spec fn first_with(list: Seq<StockView>, symbol: Seq<char>, j: int) -> bool {
    &&& 0 <= j < list.len()
    &&& list[j].symbol == symbol
    &&& forall|i: int| 0 <= i < j ==> (#[trigger] list[i]).symbol != symbol
}

/// The first sources, as many as there are lists, answered with these
/// lists, and none of the lists has the symbol.
pub open spec fn searched<S: StockScraper>(
    sources: Seq<S>,
    date: NaiveDate,
    symbol: Seq<char>,
    answers: Seq<Vec<StockData>>,
) -> bool {
    &&& lists_answered(sources, date, answers)
    &&& forall|k: int|
        0 <= k < answers.len() ==> lacks(stock_views((#[trigger] answers[k])@), symbol)
}

/// The symbol was found: the sources before the finding one answered with
/// lists that lack it, and the stock at `j` is the first with the symbol
/// in the list of the next source.
pub open spec fn found<S: StockScraper>(
    sources: Seq<S>,
    date: NaiveDate,
    symbol: Seq<char>,
    answers: Seq<Vec<StockData>>,
    list: Vec<StockData>,
    j: int,
) -> bool {
    &&& searched(sources, date, symbol, answers)
    &&& answers.len() < sources.len()
    &&& lists_for(sources[answers.len() as int], date, Ok::<Vec<StockData>, DataHubError>(list))
    &&& first_with(stock_views(list@), symbol, j)
}

/// The outcome is the one owed to the single stock: the answer of the
/// source that listed it, where the stock needs a full history; no request
/// otherwise.
pub open spec fn single_outcome_owed<S: StockScraper>(
    source: S,
    known: Option<StockView>,
    symbol: Seq<char>,
    force: bool,
    outcome: FetchOutcome,
) -> bool {
    if needs_full_history_spec(known, force) {
        exists|history: Vec<DailyData>|
            #[trigger] answers(source, symbol, Ok::<Vec<DailyData>, DataHubError>(history))
                && outcome == FetchOutcome::Fetched(history)
    } else {
        outcome == FetchOutcome::NotFetched
    }
}

/// The stock that the data set knows under a symbol: the last that has it.
pub open spec fn known_by_symbol(existing: Seq<StockView>, symbol: Seq<char>) -> Option<
    StockView,
> {
    stock_at(existing, last_position(symbols(existing), symbol))
}

/// The text of the path that the standard library makes of a directory and
/// a file in it, with the separator of the platform that the library is
/// built for.
pub uninterp spec fn joined_path(dir: Seq<char>, file: Seq<char>) -> Seq<char>;

/// `Path::join`: the path of a file in a directory, as text.
#[verifier::external_body]
fn join_path(dir: &str, file: &str) -> (path: String)
    ensures
        path@ == joined_path(dir@, file@),
{
    std::path::Path::new(dir).join(file).to_string_lossy().into_owned()
}

/// Gathers observations from the sources of market data and merges them
/// into the data set.
pub struct DataService<S: StockScraper> {
    config: Config,
    scrapers: Vec<S>,
    data_path: String,
}

impl<S: StockScraper> DataService<S> {
    /// The settings that the service was made with.
    pub closed spec fn settings(&self) -> Config {
        self.config
    }

    /// The sources that the service was made with.
    pub closed spec fn sources(&self) -> Seq<S> {
        self.scrapers@
    }

    /// The batch that the service observes where its sources answer with
    /// the given lists.
    pub open spec fn observed(&self, lists: Seq<Seq<StockView>>) -> Seq<StockView> {
        gathered(
            lists,
            lists.len() as int,
            self.settings().debug_mode,
            self.settings().debug_stock_limit as nat,
        )
    }

    /// The report is that of merging the batch into the existing data for
    /// what the service's sources answered when asked for histories.
    pub open spec fn merged_from(
        &self,
        existing: Seq<StockView>,
        observed: Seq<StockView>,
        report: MergeReport,
    ) -> bool {
        exists|outcomes: Seq<FetchOutcome>| #[trigger]
            merged_with(
                self.sources(),
                existing,
                observed,
                self.settings().max_kline_records as nat,
                self.settings().force_full_history,
                outcomes,
                stock_views(report.stocks@),
                failure_views(report.failures@),
            )
    }

    /// The result is the data set after the single stock has been merged:
    /// the stock at `j` of the list that the finding source answered with,
    /// with the outcome owed to it.
    pub open spec fn single_merged(
        &self,
        existing: Seq<StockView>,
        date: NaiveDate,
        symbol: Seq<char>,
        answers: Seq<Vec<StockData>>,
        list: Vec<StockData>,
        j: int,
        outcome: FetchOutcome,
        result: Seq<StockView>,
    ) -> bool {
        &&& found(self.sources(), date, symbol, answers, list, j)
        &&& single_outcome_owed(
            self.sources()[answers.len() as int],
            known_by_symbol(existing, symbol),
            symbol,
            self.settings().force_full_history,
            outcome,
        )
        &&& result == single_merge_spec(
            existing,
            list@[j]@,
            outcome@,
            self.settings().max_kline_records as nat,
            self.settings().force_full_history,
        )
    }

    /// The result is the data set after the first stock with the symbol in
    /// the first list that has it has been merged, with the outcome owed to
    /// it.
    pub open spec fn single_done(
        &self,
        existing: Seq<StockView>,
        date: NaiveDate,
        symbol: Seq<char>,
        result: Seq<StockView>,
    ) -> bool {
        exists|answers: Seq<Vec<StockData>>, list: Vec<StockData>, j: int, outcome: FetchOutcome|
         #[trigger]
            self.single_merged(existing, date, symbol, answers, list, j, outcome, result)
    }

    /// The error is the one that the single-stock update ends with: the
    /// not-found error, where every source answered and no list has the
    /// symbol; the error of the first source that failed to list its
    /// stocks, where none before it had the symbol; or the error of the
    /// source that listed the stock and failed to give the history that
    /// the stock needs.
    pub open spec fn single_failed(
        &self,
        existing: Seq<StockView>,
        date: NaiveDate,
        symbol: Seq<char>,
        e: DataHubError,
    ) -> bool {
        ||| exists|answers: Seq<Vec<StockData>>|
            #[trigger] searched(self.sources(), date, symbol, answers) && answers.len()
                == self.sources().len() && e@ == ErrorView::DataError(
                not_found_message(symbol, date),
            )
        ||| exists|answers: Seq<Vec<StockData>>|
            #[trigger] searched(self.sources(), date, symbol, answers) && answers.len()
                < self.sources().len() && lists_for(
                self.sources()[answers.len() as int],
                date,
                Err::<Vec<StockData>, DataHubError>(e),
            )
        ||| exists|answers: Seq<Vec<StockData>>, list: Vec<StockData>, j: int|
            #[trigger] found(self.sources(), date, symbol, answers, list, j)
                && needs_full_history_spec(
                known_by_symbol(existing, symbol),
                self.settings().force_full_history,
            ) && self::answers(
                self.sources()[answers.len() as int],
                symbol,
                Err::<Vec<DailyData>, DataHubError>(e),
            )
    }

    /// A service over the given sources. Its data file is `stock.arrow` in
    /// the data directory of the settings.
    pub fn new(config: Config, scrapers: Vec<S>) -> (out: Self)
        ensures
            out.settings() == config,
            out.sources() == scrapers@,
            out.path_text() == joined_path(config.data_dir@, "stock.arrow"@),
    {
        let data_path = join_path(config.data_dir.as_str(), "stock.arrow");
        Self { config, scrapers, data_path }
    }

    /// The text of the path of the data file that the service was made
    /// with.
    pub closed spec fn path_text(&self) -> Seq<char> {
        self.data_path@
    }

    /// The path of the data file.
    pub fn data_path(&self) -> (out: &str)
        ensures
            out@ == self.path_text(),
    {
        self.data_path.as_str()
    }

    /// A provider of the stored data set: that of the data file where it
    /// exists, that of the packaged file where it does not.
    pub fn load_provider(&self, data_file: Option<&[u8]>, packaged_file: &[u8]) -> (out: Result<
        StockDataProvider,
        DataHubError,
    >)
        ensures
            match decode_file(
                match data_file {
                    Some(bytes) => bytes@,
                    None => packaged_file@,
                },
            ) {
                Ok(v) => out matches Ok(p) && p@ == v,
                Err(e) => out matches Err(x) && x@ == e,
            },
            out matches Err(e) ==> e@ is ArrowError,
    {
        match data_file {
            Some(bytes) => StockDataProvider::load_from_file(Some(bytes)),
            None => StockDataProvider::new(packaged_file),
        }
    }

    /// Asks the source that serves the stock's exchange for the stock's
    /// full history. Without such a source nothing is fetched.
    ///
    /// The sources are asked for their exchange codes in order. The first
    /// that names the stock's exchange is asked for the history of the
    /// stock's symbol, and its answer is the outcome. Where every source
    /// names another exchange, and so where there is no source, nothing is
    /// fetched.
    fn fetch_history(&self, stock: &StockData) -> (out: FetchOutcome)
        ensures
            self.sources().len() == 0 ==> out == FetchOutcome::NotFetched,
            history_from(self.sources(), stock.exchange@, stock.symbol@, out),
    {
        let mut k: usize = 0;
        while k < self.scrapers.len()
            invariant
                k <= self.scrapers.len(),
                forall|j: int|
                    0 <= j < k ==> #[trigger] names_another(self.sources()[j], stock.exchange@),
            decreases self.scrapers.len() - k,
        {
            let named = self.scrapers[k].exchange_code();
            let code = String::from_str(named);
            if code == stock.exchange {
                let symbol = stock.symbol.as_str();
                let answer = self.scrapers[k].fetch_stock_history(symbol);
                assert(names(self.sources()[k as int], stock.exchange@));
                assert(answers(self.sources()[k as int], stock.symbol@, answer));
                return history_outcome(answer);
            }
            assert(names_another(self.sources()[k as int], stock.exchange@));
            k += 1;
        }
        FetchOutcome::NotFetched
    }

    /// The stocks that the sources list for the day, source after source.
    /// In debug mode only the first few of each source are taken. The
    /// first source that fails ends the call with its error.
    pub fn fetch_daily_data(&self, date: &NaiveDate) -> (out: Result<Vec<StockData>, DataHubError>)
        ensures
            self.sources().len() == 0 ==> (out matches Ok(v) && v@.len() == 0),
            match out {
                Ok(v) => exists|answers: Seq<Vec<StockData>>|
                    #[trigger] lists_answered(self.sources(), *date, answers) && answers.len()
                        == self.sources().len() && stock_views(v@) == self.observed(
                        list_views(answers),
                    ),
                Err(e) => list_failed(self.sources(), *date, e),
            },
    {
        let debug = self.config.debug_mode;
        let limit = self.config.debug_stock_limit;
        let mut all: Vec<StockData> = Vec::new();
        let ghost mut answers: Seq<Vec<StockData>> = Seq::empty();
        let mut k: usize = 0;
        assert(stock_views(all@) =~= Seq::<StockView>::empty());
        while k < self.scrapers.len()
            invariant
                k <= self.scrapers.len(),
                debug == self.settings().debug_mode,
                limit == self.settings().debug_stock_limit,
                answers.len() == k,
                lists_answered(self.sources(), *date, answers),
                stock_views(all@) == gathered(list_views(answers), k as int, debug, limit as nat),
            decreases self.scrapers.len() - k,
        {
            let answer = self.scrapers[k].fetch_stock_list(date);
            assert(lists_for(self.sources()[k as int], *date, answer));
            let stocks = match answer {
                Ok(s) => s,
                Err(e) => return Err(e),
            };
            proof {
                let next = answers.push(stocks);
                assert forall|j: int| 0 <= j < next.len() implies #[trigger] lists_for(
                    self.sources()[j],
                    *date,
                    Ok::<Vec<StockData>, DataHubError>(next[j]),
                ) by {
                    if j < k {
                        assert(next[j] == answers[j]);
                        assert(lists_for(
                            self.sources()[j],
                            *date,
                            Ok::<Vec<StockData>, DataHubError>(answers[j]),
                        ));
                    }
                }
                lemma_gathered_prefix(
                    list_views(answers),
                    list_views(next),
                    k as int,
                    debug,
                    limit as nat,
                );
                assert(list_views(next)[k as int] == stock_views(stocks@));
                answers = next;
            }
            take_in(&mut all, stocks, debug, limit);
            k += 1;
        }
        Ok(all)
    }

    /// Merges a batch of observed stocks into the existing data set.
    ///
    /// Each observation is held against the last stock of the existing
    /// data that has its exchange and symbol; of several observations with
    /// one exchange and symbol only the last counts. Where a full history
    /// is needed, the sources are asked for it as `history_from` says. The
    /// report holds the merge of the batch for the answers that came back,
    /// and the stocks whose history could not be fetched.
    pub fn merge_daily_stocks(&self, existing: &[StockData], observed: &[StockData]) -> (out:
        MergeReport)
        ensures
            self.merged_from(stock_views(existing@), stock_views(observed@), out),
    {
        let max = self.config.max_kline_records;
        let force = self.config.force_full_history;
        let existing_table = symbol_table(existing);
        let observed_table = symbol_table(observed);
        let mut all = copy_stocks(existing);
        let mut failures: Vec<FetchFailure> = Vec::new();
        let ghost d = stock_views(existing@);
        let ghost b = stock_views(observed@);
        let ghost mut outcomes: Seq<FetchOutcome> = Seq::empty();
        let mut i: usize = 0;
        assert(failure_views(failures@) =~= Seq::<FailedFetchView>::empty());
        while i < observed.len()
            invariant
                i <= observed.len(),
                failure_views(failures@) == failures_of(b, outcome_views(outcomes), i as int),
                d == stock_views(existing@),
                b == stock_views(observed@),
                max == self.settings().max_kline_records,
                force == self.settings().force_full_history,
                is_positions(existing_table@, symbols(d)),
                is_positions(observed_table@, symbols(b)),
                outcomes.len() == i,
                forall|k: int|
                    0 <= k < i ==> #[trigger] outcome_owed(
                        self.sources(),
                        d,
                        b,
                        k,
                        force,
                        outcomes[k],
                    ),
                stock_views(all@) == merge_batch_spec(
                    d,
                    b,
                    outcome_views(outcomes),
                    i as int,
                    max as nat,
                    force,
                ),
            decreases observed.len() - i,
        {
            let stock = &observed[i];
            proof {
                assert(b[i as int] == stock@);
                lemma_slot_of(b, stock@.exchange, stock@.symbol);
                lemma_slot_of(d, stock@.exchange, stock@.symbol);
                lemma_merge_batch_len(
                    d,
                    b,
                    outcome_views(outcomes),
                    i as int,
                    max as nat,
                    force,
                );
            }
            let counted = match find_slot(observed, &observed_table, &stock.exchange, &stock.symbol) {
                Some(p) => p == i,
                None => false,
            };
            assert(counted == counts(b, i as int));
            let ghost mut outcome_used = FetchOutcome::NotFetched;
            let ghost before = stock_views(all@);
            if counted {
                let slot = find_slot(existing, &existing_table, &stock.exchange, &stock.symbol);
                let known: Option<&StockData> = match slot {
                    Some(p) => Some(&existing[p]),
                    None => None,
                };
                assert(optional_view(known) == stock_at(
                    d,
                    slot_of(d, stock@.exchange, stock@.symbol),
                ));
                let outcome = if needs_full_history(known, force) {
                    self.fetch_history(stock)
                } else {
                    FetchOutcome::NotFetched
                };
                proof {
                    outcome_used = outcome;
                }
                let ghost failed_before = failures@;
                match &outcome {
                    FetchOutcome::Failed(e) => {
                        failures.push(
                            FetchFailure {
                                exchange: stock.exchange.clone(),
                                symbol: stock.symbol.clone(),
                                error: e.duplicate(),
                            },
                        );
                        assert(failure_views(failures@) =~= failure_views(failed_before).push(
                            FailedFetchView {
                                exchange: stock@.exchange,
                                symbol: stock@.symbol,
                                error: e@,
                            },
                        ));
                    },
                    _ => {},
                }
                let merged = merge_entity(known, stock, outcome, max, force);
                match merged {
                    None => {},
                    Some(m) => {
                        let ghost mv = m@;
                        match slot {
                            Some(p) => {
                                all[p] = m;
                                assert(stock_views(all@) =~= before.update(p as int, mv));
                            },
                            None => {
                                all.push(m);
                                assert(stock_views(all@) =~= before.push(mv));
                            },
                        }
                    },
                }
            }
            proof {
                let next = outcomes.push(outcome_used);
                lemma_merge_batch_prefix(
                    d,
                    b,
                    outcome_views(outcomes),
                    outcome_views(next),
                    i as int,
                    max as nat,
                    force,
                );
                lemma_failures_prefix(b, outcome_views(outcomes), outcome_views(next), i as int);
                assert(outcome_views(next)[i as int] == outcome_used@);
                assert(outcome_owed(self.sources(), d, b, i as int, force, next[i as int]));
                assert forall|k: int| 0 <= k < i + 1 implies #[trigger] outcome_owed(
                    self.sources(),
                    d,
                    b,
                    k,
                    force,
                    next[k],
                ) by {
                    if k < i {
                        assert(next[k] == outcomes[k]);
                    }
                }
                outcomes = next;
            }
            i += 1;
        }
        let report = MergeReport { stocks: all, failures };
        assert(merged_with(
            self.sources(),
            d,
            b,
            max as nat,
            force,
            outcomes,
            stock_views(report.stocks@),
            failure_views(report.failures@),
        ));
        report
    }

    /// Gathers the day's observations from the sources and merges them
    /// into the provider's data set.
    ///
    /// Returns the merged data set, or `None` where the sources list no
    /// stock for the day: then nothing is to be stored. The first source
    /// whose list cannot be fetched ends the call with its error; a
    /// history that cannot be fetched only leaves its stock as it was and
    /// is named in the report.
    pub fn process_daily_stocks(&self, provider: &StockDataProvider, date: &NaiveDate) -> (out:
        Result<Option<MergeReport>, DataHubError>)
        ensures
            self.sources().len() == 0 ==> out matches Ok(None),
            match out {
                Ok(None) => exists|answers: Seq<Vec<StockData>>|
                    #[trigger] lists_answered(self.sources(), *date, answers) && answers.len()
                        == self.sources().len() && self.observed(list_views(answers)).len() == 0,
                Ok(Some(v)) => exists|answers: Seq<Vec<StockData>>|
                    #[trigger] lists_answered(self.sources(), *date, answers) && answers.len()
                        == self.sources().len() && self.observed(list_views(answers)).len() > 0
                        && self.merged_from(provider@, self.observed(list_views(answers)), v),
                Err(e) => list_failed(self.sources(), *date, e),
            },
    {
        let observed = match self.fetch_daily_data(date) {
            Ok(o) => o,
            Err(e) => return Err(e),
        };
        if observed.len() == 0 {
            return Ok(None);
        }
        let merged = self.merge_daily_stocks(provider.get_all_stocks(), observed.as_slice());
        Ok(Some(merged))
    }

    /// Looks one symbol up among the stocks that the sources list for the
    /// day and merges what the first source that has it observed.
    ///
    /// The sources are asked for their lists in order, up to the first
    /// whose list has the symbol. The first stock of that list with the
    /// symbol is held against the one that the provider knows under the
    /// symbol. Where that stock is new, has no history or the caller
    /// insists, the same source is asked for the full history. Any failure
    /// of a source ends the call with its error, and so does a symbol that
    /// no list has.
    pub fn process_single_stock(
        &self,
        provider: &StockDataProvider,
        symbol: &str,
        date: &NaiveDate,
    ) -> (out: Result<Vec<StockData>, DataHubError>)
        ensures
            self.sources().len() == 0 ==> (out matches Err(e) && e@ == ErrorView::DataError(
                not_found_message(symbol@, *date),
            )),
            match out {
                Ok(v) => self.single_done(provider@, *date, symbol@, stock_views(v@)),
                Err(e) => self.single_failed(provider@, *date, symbol@, e),
            },
    {
        let max = self.config.max_kline_records;
        let force = self.config.force_full_history;
        let wanted = String::from_str(symbol);
        let ghost mut answers: Seq<Vec<StockData>> = Seq::empty();
        let mut k: usize = 0;
        while k < self.scrapers.len()
            invariant
                k <= self.scrapers.len(),
                wanted@ == symbol@,
                max == self.settings().max_kline_records,
                force == self.settings().force_full_history,
                answers.len() == k,
                searched(self.sources(), *date, symbol@, answers),
            decreases self.scrapers.len() - k,
        {
            let answer = self.scrapers[k].fetch_stock_list(date);
            assert(lists_for(self.sources()[k as int], *date, answer));
            let list = match answer {
                Ok(l) => l,
                Err(e) => {
                    return Err(e);
                },
            };
            match find_symbol(list.as_slice(), &wanted) {
                Some(j) => {
                    let stock = &list[j];
                    assert(found(self.sources(), *date, symbol@, answers, list, j as int));
                    let known = provider.get_stock_by_symbol(symbol);
                    assert(optional_view(known) == known_by_symbol(provider@, symbol@));
                    let outcome = if needs_full_history(known, force) {
                        let history = self.scrapers[k].fetch_stock_history(symbol);
                        assert(self::answers(self.sources()[k as int], symbol@, history));
                        match history {
                            Ok(h) => FetchOutcome::Fetched(h),
                            Err(e) => {
                                return Err(e);
                            },
                        }
                    } else {
                        FetchOutcome::NotFetched
                    };
                    let ghost outcome_used = outcome;
                    assert(single_outcome_owed(
                        self.sources()[k as int],
                        known_by_symbol(provider@, symbol@),
                        symbol@,
                        force,
                        outcome_used,
                    ));
                    let merged = merge_entity(known, stock, outcome, max, force);
                    let mut all = copy_stocks(provider.get_all_stocks());
                    match merged {
                        Some(m) => {
                            let place = find_first(&all, &m);
                            let ghost before = stock_views(all@);
                            let ghost mv = m@;
                            match place {
                                Some(p) => {
                                    all[p] = m;
                                    assert(stock_views(all@) =~= before.update(p as int, mv));
                                },
                                None => {
                                    all.push(m);
                                    assert(stock_views(all@) =~= before.push(mv));
                                },
                            }
                        },
                        None => {},
                    }
                    assert(stock_views(all@) == single_merge_spec(
                        provider@,
                        list@[j as int]@,
                        outcome_used@,
                        max as nat,
                        force,
                    ));
                    assert(self.single_merged(
                        provider@,
                        *date,
                        symbol@,
                        answers,
                        list,
                        j as int,
                        outcome_used,
                        stock_views(all@),
                    ));
                    assert(self.single_done(provider@, *date, symbol@, stock_views(all@)));
                    return Ok(all);
                },
                None => {},
            }
            proof {
                let next = answers.push(list);
                assert forall|i: int| 0 <= i < next.len() implies #[trigger] lists_for(
                    self.sources()[i],
                    *date,
                    Ok::<Vec<StockData>, DataHubError>(next[i]),
                ) by {
                    if i < k {
                        assert(next[i] == answers[i]);
                        assert(lists_for(
                            self.sources()[i],
                            *date,
                            Ok::<Vec<StockData>, DataHubError>(answers[i]),
                        ));
                    }
                }
                assert forall|i: int| 0 <= i < next.len() implies lacks(
                    stock_views((#[trigger] next[i])@),
                    symbol@,
                ) by {
                    if i < k {
                        assert(next[i] == answers[i]);
                    }
                }
                answers = next;
            }
            k += 1;
        }
        let mut message = String::from_str("Stock ");
        message.append(symbol);
        message.append(" not found in any exchange for date ");
        message.append(date_text(date).as_str());
        Err(DataHubError::DataError(message))
    }

    /// The bytes of the file that holds the data set.
    pub fn save_data(&self, data: &[StockData]) -> (out: Result<Vec<u8>, DataHubError>)
        ensures
            match encode_file(stock_views(data@)) {
                Ok(bytes) => out matches Ok(v) && v@ == bytes,
                Err(e) => out matches Err(x) && x@ == e,
            },
    {
        save_stock_data_to_arrow(data)
    }
}

/// Takes a source's list in: in debug mode only its first `limit` stocks,
/// else all of them, behind the stocks gathered so far.
pub fn take_in(all: &mut Vec<StockData>, list: Vec<StockData>, debug: bool, limit: usize)
    ensures
        stock_views(final(all)@) == stock_views(old(all)@) + debug_cut(
            stock_views(list@),
            debug,
            limit as nat,
        ),
{
    let mut stocks = list;
    if debug {
        stocks.truncate(limit);
    }
    assert(stock_views(stocks@) =~= debug_cut(stock_views(list@), debug, limit as nat));
    let ghost before = all@;
    let ghost added = stocks@;
    all.append(&mut stocks);
    assert(stock_views(all@) =~= stock_views(before) + stock_views(added));
}

/// The place of the first stock of the list that has the symbol.
pub fn find_symbol(list: &[StockData], symbol: &String) -> (out: Option<usize>)
    ensures
        match out {
            Some(j) => first_with(stock_views(list@), symbol@, j as int),
            None => lacks(stock_views(list@), symbol@),
        },
{
    let mut j: usize = 0;
    while j < list.len()
        invariant
            j <= list.len(),
            forall|i: int| 0 <= i < j ==> (#[trigger] stock_views(list@)[i]).symbol != symbol@,
        decreases list.len() - j,
    {
        if list[j].symbol == *symbol {
            return Some(j);
        }
        j += 1;
    }
    None
}

/// Two runs of lists that agree on the first `n` gather the same stocks
/// from the first `n`.
proof fn lemma_gathered_prefix(
    a: Seq<Seq<StockView>>,
    b: Seq<Seq<StockView>>,
    n: int,
    debug: bool,
    limit: nat,
)
    requires
        0 <= n <= a.len(),
        n <= b.len(),
        forall|i: int| 0 <= i < n ==> a[i] == b[i],
    ensures
        gathered(a, n, debug, limit) == gathered(b, n, debug, limit),
    decreases n,
{
    if n > 0 {
        lemma_gathered_prefix(a, b, n - 1, debug, limit);
    }
}

/// The first place in the data set that has the stock's exchange and
/// symbol.
fn find_first(all: &Vec<StockData>, stock: &StockData) -> (out: Option<usize>)
    ensures
        match first_position(stock_views(all@), stock@.exchange, stock@.symbol) {
            Some(i) => out matches Some(p) && p as int == i && 0 <= i < all@.len(),
            None => out is None,
        },
{
    let mut i: usize = 0;
    while i < all.len()
        invariant
            i <= all.len(),
            forall|j: int|
                0 <= j < i ==> !(stock_views(all@)[j].exchange == stock@.exchange && stock_views(
                    all@,
                )[j].symbol == stock@.symbol),
        decreases all.len() - i,
    {
        if all[i].exchange == stock.exchange && all[i].symbol == stock.symbol {
            proof {
                lemma_first_position_is(
                    stock_views(all@),
                    stock@.exchange,
                    stock@.symbol,
                    Some(i as int),
                );
            }
            return Some(i);
        }
        i += 1;
    }
    proof {
        lemma_first_position_is(stock_views(all@), stock@.exchange, stock@.symbol, None);
    }
    None
}

} // verus!
