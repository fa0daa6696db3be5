use chrono::NaiveDate;
use egostrategy_datahub::config::Config;
use egostrategy_datahub::data_provider::StockDataProvider;
use egostrategy_datahub::errors::DataHubError;
use egostrategy_datahub::models::stock::{DailyData, StockData};
use egostrategy_datahub::scrapers::base::StockScraper;
use egostrategy_datahub::services::data_service::{
    find_symbol, history_outcome, take_in, DataService,
};
use egostrategy_datahub::services::merge::{
    find_slot, merge_entity, needs_full_history, symbol_table, FetchFailure, FetchOutcome,
};
use std::cell::RefCell;

fn day(date: i32) -> DailyData {
    DailyData {
        date,
        open: (date as f32).to_bits(),
        high: 2.0f32.to_bits(),
        low: 1.0f32.to_bits(),
        close: 1.5f32.to_bits(),
        volume: date as i64,
        amount: 7,
    }
}

fn tagged(date: i32, amount: i64) -> DailyData {
    DailyData { amount, ..day(date) }
}

fn days(dates: &[i32]) -> Vec<DailyData> {
    dates.iter().map(|d| day(*d)).collect()
}

fn dates(history: &[DailyData]) -> Vec<i32> {
    history.iter().map(|r| r.date).collect()
}

fn stock(exchange: &str, symbol: &str, name: &str, history: &[i32]) -> StockData {
    StockData {
        exchange: exchange.to_string(),
        symbol: symbol.to_string(),
        name: name.to_string(),
        daily: days(history),
    }
}

/// A source that answers from what it was given and notes what it was
/// asked.
struct Source {
    code: &'static str,
    list: Result<Vec<StockData>, DataHubError>,
    history: Result<Vec<DailyData>, DataHubError>,
    asked: RefCell<Vec<String>>,
}

impl Source {
    fn new(code: &'static str, list: Vec<StockData>, history: Vec<DailyData>) -> Self {
        Source { code, list: Ok(list), history: Ok(history), asked: RefCell::new(Vec::new()) }
    }
}

impl StockScraper for Source {
    fn exchange_code(&self) -> &'static str {
        self.code
    }

    fn fetch_stock_list(&self, _date: &NaiveDate) -> Result<Vec<StockData>, DataHubError> {
        self.list.clone()
    }

    fn fetch_stock_history(&self, symbol: &str) -> Result<Vec<DailyData>, DataHubError> {
        self.asked.borrow_mut().push(symbol.to_string());
        self.history.clone()
    }
}

fn today() -> NaiveDate {
    NaiveDate::from_ymd_opt(2024, 1, 5).unwrap()
}

fn service(config: Config, sources: Vec<Source>) -> DataService<Source> {
    DataService::new(config, sources)
}

fn provider(data: Vec<StockData>) -> StockDataProvider {
    StockDataProvider::new_with_data(data).unwrap()
}

#[test]
fn new_stock_takes_the_fetched_history_sorted() {
    let observed = vec![stock("SSE", "600000", "X", &[20240102])];
    let source = Source::new("SSE", observed, days(&[20240101, 20240103, 20240102]));
    let svc = service(Config::new(), vec![source]);
    let out = svc.process_daily_stocks(&provider(vec![]), &today()).unwrap().unwrap().stocks;
    assert_eq!(out, vec![stock("SSE", "600000", "X", &[20240103, 20240102, 20240101])]);
}

#[test]
fn new_record_is_spliced_in_front_and_reobserving_changes_nothing() {
    let existing = vec![stock("SSE", "600000", "old", &[20240103, 20240102])];
    let observed = vec![stock("SSE", "600000", "new", &[20240104])];
    let svc = service(Config::new(), vec![Source::new("SSE", observed, days(&[1, 2, 3]))]);
    let once = svc.process_daily_stocks(&provider(existing), &today()).unwrap().unwrap().stocks;
    assert_eq!(once, vec![stock("SSE", "600000", "new", &[20240104, 20240103, 20240102])]);
    let twice = svc.process_daily_stocks(&provider(once.clone()), &today()).unwrap().unwrap().stocks;
    assert_eq!(twice, once);
}

#[test]
fn splice_cuts_an_overlong_history_to_the_newest() {
    let existing = vec![stock("SSE", "600000", "n", &[20240104, 20240103, 20240102])];
    let observed = vec![stock("SSE", "600000", "n", &[20240105])];
    let config = Config::new().with_max_kline_records(2);
    let svc = service(config, vec![Source::new("SSE", observed, vec![])]);
    let out = svc.process_daily_stocks(&provider(existing), &today()).unwrap().unwrap().stocks;
    assert_eq!(dates(&out[0].daily), vec![20240105, 20240104]);
}

#[test]
fn forced_full_history_replaces_instead_of_splicing() {
    let existing = vec![stock("SSE", "600000", "n", &[20240103, 20240102])];
    let observed = vec![stock("SSE", "600000", "n", &[20240104])];
    let config = Config::new().with_force_full_history(true);
    let source = Source::new("SSE", observed, days(&[20231229, 20231228]));
    let svc = service(config, vec![source]);
    let out = svc.process_daily_stocks(&provider(existing), &today()).unwrap().unwrap().stocks;
    assert_eq!(dates(&out[0].daily), vec![20231229, 20231228]);
}

#[test]
fn reobserving_a_known_day_only_renames() {
    let existing = vec![
        stock("SZSE", "000001", "other", &[20240104]),
        stock("SSE", "600000", "old", &[20240104, 20240103]),
    ];
    let mut seen = tagged(20240104, 999);
    seen.volume = 1;
    let observed = vec![StockData {
        exchange: "SSE".to_string(),
        symbol: "600000".to_string(),
        name: "new".to_string(),
        daily: vec![seen],
    }];
    let source = Source::new("SSE", observed, days(&[1]));
    let svc = service(Config::new(), vec![source]);
    let once = svc.process_daily_stocks(&provider(existing.clone()), &today()).unwrap().unwrap().stocks;
    assert_eq!(once[0], existing[0]);
    assert_eq!(once[1], stock("SSE", "600000", "new", &[20240104, 20240103]));
    let twice = svc.process_daily_stocks(&provider(once.clone()), &today()).unwrap().unwrap().stocks;
    assert_eq!(twice, once);
}

#[test]
fn known_stock_without_history_is_fetched_in_full() {
    let existing = vec![stock("SSE", "600000", "n", &[])];
    let observed = vec![stock("SSE", "600000", "n", &[20240104])];
    let source = Source::new("SSE", observed, days(&[20240104, 20240103]));
    let svc = service(Config::new(), vec![source]);
    let out = svc.process_daily_stocks(&provider(existing), &today()).unwrap().unwrap().stocks;
    assert_eq!(dates(&out[0].daily), vec![20240104, 20240103]);
}

#[test]
fn history_is_asked_only_where_it_is_needed() {
    let existing = vec![stock("SSE", "600000", "a", &[20240103]), stock("SSE", "600001", "b", &[])];
    let observed = vec![
        stock("SSE", "600000", "a", &[20240104]),
        stock("SSE", "600001", "b", &[20240104]),
        stock("SSE", "600002", "c", &[20240104]),
    ];
    let svc = service(Config::new(), vec![Source::new("SSE", observed.clone(), days(&[5]))]);
    let out = svc.merge_daily_stocks(&existing, &observed).stocks;
    assert_eq!(out.len(), 3);
    assert_eq!(dates(&out[0].daily), vec![20240104, 20240103]);
    assert_eq!(dates(&out[1].daily), vec![5]);
    assert_eq!(dates(&out[2].daily), vec![5]);
}

#[test]
fn full_history_is_sorted_then_cut_to_the_bound() {
    let observed = vec![stock("SSE", "600000", "n", &[20240104])];
    let config = Config::new().with_max_kline_records(3);
    let source = Source::new("SSE", observed, days(&[20240101, 20240105, 20240103, 20240104, 20240102]));
    let svc = service(config, vec![source]);
    let out = svc.process_daily_stocks(&provider(vec![]), &today()).unwrap().unwrap().stocks;
    assert_eq!(dates(&out[0].daily), vec![20240105, 20240104, 20240103]);
}

#[test]
fn failed_history_leaves_the_stock_as_it_was() {
    let existing = vec![stock("SSE", "600000", "old", &[])];
    let observed = vec![
        stock("SSE", "600000", "new", &[20240104]),
        stock("SSE", "600009", "fresh", &[20240104]),
    ];
    let mut source = Source::new("SSE", observed, vec![]);
    source.history = Err(DataHubError::RequestError("down".to_string()));
    let svc = service(Config::new(), vec![source]);
    let report = svc.process_daily_stocks(&provider(existing.clone()), &today()).unwrap().unwrap();
    assert_eq!(report.stocks, existing);
    assert_eq!(
        report.failures,
        vec![
            FetchFailure {
                exchange: "SSE".to_string(),
                symbol: "600000".to_string(),
                error: DataHubError::RequestError("down".to_string()),
            },
            FetchFailure {
                exchange: "SSE".to_string(),
                symbol: "600009".to_string(),
                error: DataHubError::RequestError("down".to_string()),
            },
        ]
    );
}

#[test]
fn empty_fetched_history_replaces_nothing() {
    let existing = vec![stock("SSE", "600000", "old", &[20240103])];
    let observed = vec![
        stock("SSE", "600000", "new", &[20240104]),
        stock("SSE", "600009", "fresh", &[20240104]),
    ];
    let config = Config::new().with_force_full_history(true);
    let svc = service(config, vec![Source::new("SSE", observed, vec![])]);
    let out = svc.process_daily_stocks(&provider(existing), &today()).unwrap().unwrap().stocks;
    assert_eq!(
        out,
        vec![stock("SSE", "600000", "new", &[20240103]), stock("SSE", "600009", "fresh", &[20240104])]
    );
}

#[test]
fn stock_of_an_exchange_without_source_is_stored_as_observed() {
    let observed = vec![stock("BSE", "830000", "n", &[20240104])];
    let svc = service(Config::new(), vec![Source::new("SSE", vec![], days(&[1]))]);
    let out = svc.merge_daily_stocks(&[], &observed).stocks;
    assert_eq!(out, observed);
}

#[test]
fn last_observation_of_a_key_counts() {
    let existing = vec![stock("SSE", "600000", "old", &[20240102])];
    let observed = vec![
        stock("SSE", "600000", "first", &[20240103]),
        stock("SSE", "600001", "b", &[20240104]),
        stock("SSE", "600000", "last", &[20240104]),
    ];
    let svc = service(Config::new(), vec![Source::new("SSE", vec![], days(&[9]))]);
    let out = svc.merge_daily_stocks(&existing, &observed).stocks;
    assert_eq!(
        out,
        vec![stock("SSE", "600000", "last", &[20240104, 20240102]), stock("SSE", "600001", "b", &[9])]
    );
}

#[test]
fn absent_stocks_are_left_untouched() {
    let existing = vec![stock("SSE", "600000", "a", &[20240103]), stock("SZSE", "000001", "b", &[20240103])];
    let observed = vec![stock("SZSE", "000001", "b2", &[20240104])];
    let svc = service(Config::new(), vec![Source::new("SZSE", observed, vec![])]);
    let out = svc.process_daily_stocks(&provider(existing.clone()), &today()).unwrap().unwrap().stocks;
    assert_eq!(out[0], existing[0]);
    assert_eq!(out[1], stock("SZSE", "000001", "b2", &[20240104, 20240103]));
}

#[test]
fn merged_histories_stay_bounded_and_free_of_repeated_days() {
    let existing = vec![
        stock("SSE", "600000", "a", &[20240103, 20240102, 20240101]),
        stock("SSE", "600001", "b", &[]),
        stock("SSE", "600002", "c", &[20240104, 20240102]),
    ];
    let observed = vec![
        stock("SSE", "600000", "a", &[20240104]),
        stock("SSE", "600001", "b", &[20240104]),
        stock("SSE", "600002", "c", &[20240103]),
        stock("SSE", "600003", "d", &[20240104]),
    ];
    let config = Config::new().with_max_kline_records(3);
    let source = Source::new("SSE", observed, days(&[20240104, 20240103, 20240102, 20240101]));
    let svc = service(config, vec![source]);
    let out = svc.process_daily_stocks(&provider(existing), &today()).unwrap().unwrap().stocks;
    assert_eq!(out.len(), 4);
    for s in &out {
        assert!(s.daily.len() <= 3);
        for w in s.daily.windows(2) {
            assert!(w[0].date > w[1].date);
        }
    }
    assert_eq!(dates(&out[0].daily), vec![20240104, 20240103, 20240102]);
    assert_eq!(dates(&out[1].daily), vec![20240104, 20240103, 20240102]);
    assert_eq!(dates(&out[2].daily), vec![20240104, 20240103, 20240102]);
    assert_eq!(dates(&out[3].daily), vec![20240104, 20240103, 20240102]);
}

#[test]
fn no_observation_means_nothing_to_store() {
    let svc = service(Config::new(), vec![Source::new("SSE", vec![], vec![])]);
    let existing = vec![stock("SSE", "600000", "a", &[20240103])];
    assert_eq!(svc.process_daily_stocks(&provider(existing), &today()), Ok(None));
    let none: DataService<Source> = service(Config::new(), vec![]);
    assert_eq!(none.process_daily_stocks(&provider(vec![]), &today()), Ok(None));
}

#[test]
fn failing_list_ends_the_batch() {
    let mut source = Source::new("SSE", vec![], vec![]);
    source.list = Err(DataHubError::RequestError("timeout".to_string()));
    let good = Source::new("SZSE", vec![stock("SZSE", "000001", "b", &[20240104])], vec![]);
    let svc = service(Config::new(), vec![good, source]);
    assert_eq!(
        svc.process_daily_stocks(&provider(vec![]), &today()),
        Err(DataHubError::RequestError("timeout".to_string()))
    );
    assert_eq!(
        svc.fetch_daily_data(&today()),
        Err(DataHubError::RequestError("timeout".to_string()))
    );
}

#[test]
fn daily_data_is_gathered_source_after_source() {
    let a = vec![stock("SSE", "1", "a", &[1]), stock("SSE", "2", "b", &[1]), stock("SSE", "3", "c", &[1])];
    let b = vec![stock("SZSE", "4", "d", &[1])];
    let svc = service(
        Config::new(),
        vec![Source::new("SSE", a.clone(), vec![]), Source::new("SZSE", b.clone(), vec![])],
    );
    let mut all = a.clone();
    all.extend(b.clone());
    assert_eq!(svc.fetch_daily_data(&today()), Ok(all));
    let debug = Config::new().with_debug_mode(true).with_debug_stock_limit(2);
    let svc = service(debug, vec![Source::new("SSE", a.clone(), vec![]), Source::new("SZSE", b.clone(), vec![])]);
    assert_eq!(
        svc.fetch_daily_data(&today()),
        Ok(vec![a[0].clone(), a[1].clone(), b[0].clone()])
    );
    let quiet = Config::new().with_debug_stock_limit(1);
    let svc = service(quiet, vec![Source::new("SSE", a.clone(), vec![])]);
    assert_eq!(svc.fetch_daily_data(&today()), Ok(a));
}

#[test]
fn single_stock_is_spliced_into_the_known_one() {
    let existing = vec![stock("SZSE", "000001", "b", &[20240103]), stock("SSE", "600000", "old", &[20240103])];
    let list = vec![stock("SSE", "600001", "x", &[20240104]), stock("SSE", "600000", "new", &[20240104])];
    let svc = service(Config::new(), vec![Source::new("SSE", list, days(&[1]))]);
    let out = svc.process_single_stock(&provider(existing.clone()), "600000", &today()).unwrap();
    assert_eq!(out, vec![existing[0].clone(), stock("SSE", "600000", "new", &[20240104, 20240103])]);
}

#[test]
fn single_new_stock_takes_the_fetched_history() {
    let list = vec![stock("SSE", "600000", "X", &[20240102])];
    let source = Source::new("SSE", list, days(&[20240101, 20240103, 20240102]));
    let svc = service(Config::new().with_max_kline_records(2), vec![source]);
    let out = svc.process_single_stock(&provider(vec![]), "600000", &today()).unwrap();
    assert_eq!(out, vec![stock("SSE", "600000", "X", &[20240103, 20240102])]);
}

#[test]
fn single_new_stock_with_an_empty_fetched_history_is_stored_as_observed() {
    let list = vec![stock("SSE", "600000", "X", &[20240102])];
    let svc = service(Config::new(), vec![Source::new("SSE", list.clone(), vec![])]);
    let out = svc.process_single_stock(&provider(vec![]), "600000", &today()).unwrap();
    assert_eq!(out, list);
}

#[test]
fn single_stock_is_taken_from_the_first_list_that_has_it() {
    let first = vec![stock("SSE", "600001", "other", &[20240104])];
    let second = vec![
        stock("SZSE", "600000", "first", &[20240104]),
        stock("SZSE", "600000", "second", &[20240105]),
    ];
    let third = vec![stock("BSE", "600000", "late", &[20240106])];
    let existing = vec![stock("SZSE", "600000", "old", &[20240103])];
    let svc = service(
        Config::new(),
        vec![
            Source::new("SSE", first, vec![]),
            Source::new("SZSE", second, vec![]),
            Source::new("BSE", third, vec![]),
        ],
    );
    let out = svc.process_single_stock(&provider(existing), "600000", &today()).unwrap();
    assert_eq!(out, vec![stock("SZSE", "600000", "first", &[20240104, 20240103])]);
}

#[test]
fn single_stock_fails_with_the_error_of_the_list_that_fails_first() {
    let mut failing = Source::new("SSE", vec![], vec![]);
    failing.list = Err(DataHubError::RequestError("list down".to_string()));
    let late = Source::new("SZSE", vec![stock("SZSE", "600000", "n", &[20240104])], vec![]);
    let svc = service(Config::new(), vec![failing, late]);
    assert_eq!(
        svc.process_single_stock(&provider(vec![]), "600000", &today()),
        Err(DataHubError::RequestError("list down".to_string()))
    );
}

#[test]
fn single_new_stock_without_history_is_fetched() {
    let list = vec![stock("SSE", "600000", "new", &[])];
    let source = Source::new("SSE", list, days(&[20240102, 20240104]));
    let svc = service(Config::new().with_max_kline_records(1), vec![source]);
    let out = svc.process_single_stock(&provider(vec![]), "600000", &today()).unwrap();
    assert_eq!(out, vec![stock("SSE", "600000", "new", &[20240104])]);
}

#[test]
fn single_stock_fails_with_the_sources_error() {
    let list = vec![stock("SSE", "600000", "new", &[])];
    let mut source = Source::new("SSE", list, vec![]);
    source.history = Err(DataHubError::JsonError("bad".to_string()));
    let svc = service(Config::new(), vec![source]);
    assert_eq!(
        svc.process_single_stock(&provider(vec![]), "600000", &today()),
        Err(DataHubError::JsonError("bad".to_string()))
    );
}

#[test]
fn unknown_symbol_is_reported_with_the_day() {
    let list = vec![stock("SSE", "600000", "new", &[20240104])];
    let svc = service(Config::new(), vec![Source::new("SSE", list, vec![])]);
    assert_eq!(
        svc.process_single_stock(&provider(vec![]), "999999", &today()),
        Err(DataHubError::DataError(
            "Stock 999999 not found in any exchange for date 2024-01-05".to_string()
        ))
    );
}

#[test]
fn data_file_lies_in_the_data_directory() {
    let svc: DataService<Source> = service(Config::new(), vec![]);
    assert_eq!(svc.data_path(), "data/stock.arrow");
    let svc: DataService<Source> = service(Config::new().with_data_dir("/var/hub"), vec![]);
    assert_eq!(svc.data_path(), "/var/hub/stock.arrow");
}

#[test]
fn provider_is_loaded_from_the_data_file_or_the_packaged_one() {
    let svc: DataService<Source> = service(Config::new(), vec![]);
    let main = svc.save_data(&[stock("SSE", "600000", "main", &[20240104])]).unwrap();
    let packaged = svc.save_data(&[stock("SSE", "600001", "packaged", &[])]).unwrap();
    let p = svc.load_provider(Some(&main), &packaged).unwrap();
    assert_eq!(p.get_all_stocks(), &[stock("SSE", "600000", "main", &[20240104])]);
    let p = svc.load_provider(None, &packaged).unwrap();
    assert_eq!(p.get_all_stocks(), &[stock("SSE", "600001", "packaged", &[])]);
    assert!(matches!(
        svc.load_provider(Some(b"junk"), &packaged),
        Err(DataHubError::ArrowError(_))
    ));
}

#[test]
fn full_history_is_needed_for_new_and_empty_stocks() {
    let empty = stock("SSE", "600000", "n", &[]);
    let full = stock("SSE", "600000", "n", &[20240104]);
    assert!(needs_full_history(None, false));
    assert!(needs_full_history(Some(&empty), false));
    assert!(!needs_full_history(Some(&full), false));
    assert!(needs_full_history(Some(&full), true));
}

#[test]
fn merge_entity_follows_each_outcome() {
    let known = stock("SSE", "600000", "old", &[20240103, 20240102]);
    let seen = stock("SSE", "600000", "new", &[20240104]);
    assert_eq!(
        merge_entity(Some(&known), &seen, FetchOutcome::NotFetched, 200, false),
        Some(stock("SSE", "600000", "new", &[20240104, 20240103, 20240102]))
    );
    assert_eq!(
        merge_entity(Some(&known), &seen, FetchOutcome::NotFetched, 200, true),
        Some(stock("SSE", "600000", "new", &[20240103, 20240102]))
    );
    assert_eq!(
        merge_entity(Some(&known), &seen, FetchOutcome::Fetched(days(&[5, 7, 6])), 2, true),
        Some(stock("SSE", "600000", "new", &[7, 6]))
    );
    assert_eq!(
        merge_entity(
            Some(&known),
            &seen,
            FetchOutcome::Failed(DataHubError::Unknown("x".to_string())),
            200,
            true
        ),
        None
    );
    assert_eq!(
        merge_entity(None, &seen, FetchOutcome::Fetched(vec![]), 200, false),
        Some(seen.clone())
    );
    assert_eq!(merge_entity(None, &seen, FetchOutcome::NotFetched, 0, false), Some(seen.clone()));
    let nothing = stock("SSE", "600000", "new", &[]);
    assert_eq!(
        merge_entity(Some(&known), &nothing, FetchOutcome::NotFetched, 200, false),
        Some(stock("SSE", "600000", "new", &[20240103, 20240102]))
    );
}

#[test]
fn spliced_record_goes_to_its_place_in_an_ordered_history() {
    let known = stock("SSE", "600000", "n", &[20240105, 20240103]);
    let seen = stock("SSE", "600000", "n", &[20240104, 20240101]);
    assert_eq!(
        merge_entity(Some(&known), &seen, FetchOutcome::NotFetched, 200, false),
        Some(stock("SSE", "600000", "n", &[20240105, 20240104, 20240103]))
    );
    assert_eq!(
        merge_entity(Some(&known), &seen, FetchOutcome::NotFetched, 0, false),
        Some(stock("SSE", "600000", "n", &[]))
    );
}

#[test]
fn stock_is_looked_up_by_exchange_and_symbol() {
    let data = vec![
        stock("SSE", "600000", "a", &[]),
        stock("SZSE", "600000", "b", &[]),
        stock("SSE", "600000", "c", &[]),
        stock("SSE", "600001", "d", &[]),
    ];
    let table = symbol_table(&data);
    let find = |e: &str, s: &str| find_slot(&data, &table, &e.to_string(), &s.to_string());
    assert_eq!(find("SSE", "600000"), Some(2));
    assert_eq!(find("SZSE", "600000"), Some(1));
    assert_eq!(find("SSE", "600001"), Some(3));
    assert_eq!(find("BSE", "600000"), None);
    assert_eq!(find("SSE", "600002"), None);
    assert_eq!(find_slot(&[], &symbol_table(&[]), &"SSE".to_string(), &"1".to_string()), None);
}

#[test]
fn exchange_and_symbol_are_not_run_together() {
    let existing = vec![stock("A:B", "C", "first", &[20240103])];
    let observed = vec![stock("A", "B:C", "second", &[20240104])];
    let svc = service(Config::new(), vec![Source::new("X", vec![], vec![])]);
    let out = svc.merge_daily_stocks(&existing, &observed).stocks;
    assert_eq!(out, vec![existing[0].clone(), observed[0].clone()]);
}

#[test]
fn merged_data_set_names_no_stock_twice() {
    let existing = vec![stock("SSE", "600000", "a", &[20240103]), stock("SZSE", "600000", "b", &[20240103])];
    let observed = vec![
        stock("SSE", "600001", "c", &[20240104]),
        stock("SSE", "600000", "a2", &[20240104]),
        stock("SSE", "600001", "c2", &[20240104]),
        stock("BSE", "600000", "d", &[20240104]),
    ];
    let svc = service(Config::new(), vec![Source::new("SSE", vec![], days(&[20240104]))]);
    let out = svc.merge_daily_stocks(&existing, &observed).stocks;
    assert_eq!(
        out,
        vec![
            stock("SSE", "600000", "a2", &[20240104, 20240103]),
            stock("SZSE", "600000", "b", &[20240103]),
            stock("SSE", "600001", "c2", &[20240104]),
            stock("BSE", "600000", "d", &[20240104]),
        ]
    );
    for i in 0..out.len() {
        for j in (i + 1)..out.len() {
            assert!(out[i].exchange != out[j].exchange || out[i].symbol != out[j].symbol);
        }
    }
}

#[test]
fn answer_of_a_source_becomes_the_outcome() {
    assert_eq!(history_outcome(Ok(days(&[3, 2]))), FetchOutcome::Fetched(days(&[3, 2])));
    assert_eq!(history_outcome(Ok(vec![])), FetchOutcome::Fetched(vec![]));
    assert_eq!(
        history_outcome(Err(DataHubError::RequestError("down".to_string()))),
        FetchOutcome::Failed(DataHubError::RequestError("down".to_string()))
    );
}

#[test]
fn first_source_that_names_the_exchange_is_asked() {
    let observed = vec![stock("SZSE", "000001", "n", &[20240104])];
    let other = Source::new("SSE", vec![], days(&[1]));
    let first = Source::new("SZSE", vec![], days(&[20240103, 20240102]));
    let second = Source::new("SZSE", vec![], days(&[9]));
    let svc = service(Config::new(), vec![other, first, second]);
    let out = svc.merge_daily_stocks(&[], &observed).stocks;
    assert_eq!(out, vec![stock("SZSE", "000001", "n", &[20240103, 20240102])]);
}

#[test]
fn merge_without_failed_requests_reports_none() {
    let observed = vec![stock("SSE", "600000", "X", &[20240102])];
    let svc = service(Config::new(), vec![Source::new("SSE", vec![], days(&[20240102]))]);
    let report = svc.merge_daily_stocks(&[], &observed);
    assert!(report.failures.is_empty());
    assert_eq!(report.stocks, observed);
}

#[test]
fn list_is_taken_in_whole_or_cut_to_the_debug_limit() {
    let list = vec![stock("SSE", "1", "a", &[1]), stock("SSE", "2", "b", &[1]), stock("SSE", "3", "c", &[1])];
    let mut all = vec![stock("SZSE", "0", "z", &[])];
    take_in(&mut all, list.clone(), false, 1);
    assert_eq!(all.len(), 4);
    assert_eq!(all[1..], list[..]);
    take_in(&mut all, list.clone(), true, 2);
    assert_eq!(all.len(), 6);
    assert_eq!(all[4..], list[..2]);
    take_in(&mut all, list.clone(), true, 0);
    assert_eq!(all.len(), 6);
    take_in(&mut all, list.clone(), true, 7);
    assert_eq!(all.len(), 9);
}

#[test]
fn first_stock_with_a_symbol_is_found_in_a_list() {
    let list = vec![stock("SSE", "1", "a", &[]), stock("SZSE", "2", "b", &[]), stock("BSE", "2", "c", &[])];
    assert_eq!(find_symbol(&list, &"2".to_string()), Some(1));
    assert_eq!(find_symbol(&list, &"1".to_string()), Some(0));
    assert_eq!(find_symbol(&list, &"3".to_string()), None);
    assert_eq!(find_symbol(&[], &"1".to_string()), None);
}

#[test]
fn copy_of_an_error_is_the_error() {
    let e = DataHubError::ExcelError("sheet".to_string());
    assert_eq!(e.duplicate(), e);
    let e = DataHubError::Unknown(String::new());
    assert_eq!(e.duplicate(), e);
}
