use chrono::NaiveDate;
use egostrategy_datahub::config::Config;
use egostrategy_datahub::errors::DataHubError;
use egostrategy_datahub::history::{contains_date, insert_by_date, sort_by_date_desc};
use egostrategy_datahub::models::stock::DailyData;
use egostrategy_datahub::util::{
    date_string_to_int, date_version, int_to_naive_date, limit_kline_records,
};

fn tagged(date: i32, amount: i64) -> DailyData {
    DailyData {
        date,
        open: 0,
        high: 0,
        low: 0,
        close: 0,
        volume: 0,
        amount,
    }
}

fn day(date: i32) -> DailyData {
    tagged(date, 0)
}

fn dates(history: &[DailyData]) -> Vec<i32> {
    history.iter().map(|r| r.date).collect()
}

fn data_error(message: &str) -> DataHubError {
    DataHubError::DataError(message.to_string())
}

#[test]
fn default_config_has_the_documented_values() {
    let c = Config::new();
    assert!(!c.debug_mode);
    assert_eq!(c.debug_stock_limit, 10);
    assert_eq!(c.data_dir, "data");
    assert_eq!(c.max_kline_records, 200);
    assert!(!c.force_full_history);
}

#[test]
fn config_builders_change_one_field_each() {
    let base = Config::new();
    let c = Config::new().with_debug_mode(true);
    assert_eq!(c, Config { debug_mode: true, ..base.clone() });
    let c = Config::new().with_debug_stock_limit(2);
    assert_eq!(c, Config { debug_stock_limit: 2, ..base.clone() });
    let c = Config::new().with_data_dir("elsewhere");
    assert_eq!(c, Config { data_dir: "elsewhere".to_string(), ..base.clone() });
    let c = Config::new().with_max_kline_records(5);
    assert_eq!(c, Config { max_kline_records: 5, ..base.clone() });
    let c = Config::new().with_force_full_history(true);
    assert_eq!(c, Config { force_full_history: true, ..base.clone() });
    let c = Config::new()
        .with_debug_mode(true)
        .with_debug_stock_limit(3)
        .with_data_dir("d")
        .with_max_kline_records(9)
        .with_force_full_history(true);
    assert_eq!(
        c,
        Config {
            debug_mode: true,
            debug_stock_limit: 3,
            data_dir: "d".to_string(),
            max_kline_records: 9,
            force_full_history: true,
        }
    );
}

#[test]
fn date_strings_are_read_as_integers() {
    assert_eq!(date_string_to_int("20240102"), Ok(20240102));
    assert_eq!(date_string_to_int("0"), Ok(0));
    assert_eq!(date_string_to_int("-5"), Ok(-5));
    assert_eq!(date_string_to_int("+7"), Ok(7));
    assert_eq!(date_string_to_int("007"), Ok(7));
    assert_eq!(date_string_to_int("2147483647"), Ok(i32::MAX));
    assert_eq!(date_string_to_int("-2147483648"), Ok(i32::MIN));
}

#[test]
fn texts_that_write_no_integer_are_data_errors() {
    for text in ["", "-", "+", "2024-01-02", "12a", " 12", "12 ", "2147483648", "-2147483649", "１２"] {
        let expected = text.parse::<i32>().unwrap_err().to_string();
        assert_eq!(date_string_to_int(text), Err(DataHubError::DataError(expected)));
    }
}

#[test]
fn integers_are_read_as_days() {
    assert_eq!(int_to_naive_date(20240102), Ok(NaiveDate::from_ymd_opt(2024, 1, 2).unwrap()));
    assert_eq!(int_to_naive_date(20240229), Ok(NaiveDate::from_ymd_opt(2024, 2, 29).unwrap()));
    assert_eq!(int_to_naive_date(10000101), Ok(NaiveDate::from_ymd_opt(1000, 1, 1).unwrap()));
    assert_eq!(int_to_naive_date(99991231), Ok(NaiveDate::from_ymd_opt(9999, 12, 31).unwrap()));
    assert_eq!(int_to_naive_date(-1230101), Ok(NaiveDate::from_ymd_opt(-123, 1, 1).unwrap()));
    assert_eq!(int_to_naive_date(-9991231), Ok(NaiveDate::from_ymd_opt(-999, 12, 31).unwrap()));
}

#[test]
fn integers_of_another_length_are_refused() {
    assert_eq!(int_to_naive_date(2024010), Err(data_error("Invalid date format: 2024010")));
    assert_eq!(int_to_naive_date(0), Err(data_error("Invalid date format: 0")));
    assert_eq!(int_to_naive_date(9999999), Err(data_error("Invalid date format: 9999999")));
    assert_eq!(int_to_naive_date(100000000), Err(data_error("Invalid date format: 100000000")));
    assert_eq!(int_to_naive_date(-999999), Err(data_error("Invalid date format: -999999")));
    assert_eq!(int_to_naive_date(-10000000), Err(data_error("Invalid date format: -10000000")));
    assert_eq!(
        int_to_naive_date(i32::MIN),
        Err(data_error("Invalid date format: -2147483648"))
    );
    assert_eq!(
        int_to_naive_date(i32::MAX),
        Err(data_error("Invalid date format: 2147483647"))
    );
}

#[test]
fn integers_that_write_no_day_are_refused() {
    assert_eq!(int_to_naive_date(20230229), Err(data_error("Invalid date: 2023-2-29")));
    assert_eq!(int_to_naive_date(20241301), Err(data_error("Invalid date: 2024-13-1")));
    assert_eq!(int_to_naive_date(20240100), Err(data_error("Invalid date: 2024-1-0")));
    assert_eq!(int_to_naive_date(20240431), Err(data_error("Invalid date: 2024-4-31")));
    assert_eq!(int_to_naive_date(19000229), Err(data_error("Invalid date: 1900-2-29")));
    assert_eq!(int_to_naive_date(-1234567), Err(data_error("Invalid date: -123-45-67")));
    assert_eq!(int_to_naive_date(20000229), Ok(NaiveDate::from_ymd_opt(2000, 2, 29).unwrap()));
}

#[test]
fn limit_keeps_the_first_records() {
    let mut h = vec![day(5), day(4), day(3)];
    limit_kline_records(&mut h, 2, "600000");
    assert_eq!(dates(&h), vec![5, 4]);
    limit_kline_records(&mut h, 2, "600000");
    assert_eq!(dates(&h), vec![5, 4]);
    limit_kline_records(&mut h, 7, "600000");
    assert_eq!(dates(&h), vec![5, 4]);
    limit_kline_records(&mut h, 0, "600000");
    assert!(h.is_empty());
}

#[test]
fn sort_puts_the_latest_day_first_and_keeps_equal_days_in_order() {
    let mut h = vec![tagged(3, 1), tagged(5, 2), tagged(3, 3), tagged(4, 4), tagged(5, 5), tagged(3, 6)];
    let mut expected = h.clone();
    expected.sort_by(|a, b| b.date.cmp(&a.date));
    sort_by_date_desc(&mut h);
    assert_eq!(h, expected);
    assert_eq!(
        h,
        vec![tagged(5, 2), tagged(5, 5), tagged(4, 4), tagged(3, 1), tagged(3, 3), tagged(3, 6)]
    );
    let mut empty: Vec<DailyData> = Vec::new();
    sort_by_date_desc(&mut empty);
    assert!(empty.is_empty());
    let mut sorted = vec![day(9), day(8), day(7)];
    sort_by_date_desc(&mut sorted);
    assert_eq!(dates(&sorted), vec![9, 8, 7]);
    let mut rising = vec![day(i32::MIN), day(0), day(i32::MAX)];
    sort_by_date_desc(&mut rising);
    assert_eq!(dates(&rising), vec![i32::MAX, 0, i32::MIN]);
}

#[test]
fn insert_goes_in_front_of_the_first_day_that_is_not_later() {
    let mut h = vec![day(9), day(7), day(5)];
    insert_by_date(&mut h, day(8));
    assert_eq!(dates(&h), vec![9, 8, 7, 5]);
    insert_by_date(&mut h, day(10));
    assert_eq!(dates(&h), vec![10, 9, 8, 7, 5]);
    insert_by_date(&mut h, day(1));
    assert_eq!(dates(&h), vec![10, 9, 8, 7, 5, 1]);
    insert_by_date(&mut h, tagged(7, 42));
    assert_eq!(h[3], tagged(7, 42));
    assert_eq!(h[4], day(7));
    let mut empty: Vec<DailyData> = Vec::new();
    insert_by_date(&mut empty, day(3));
    assert_eq!(dates(&empty), vec![3]);
}

#[test]
fn day_is_looked_up_in_a_history() {
    let h = vec![day(9), day(7), day(5)];
    assert!(contains_date(&h, 9));
    assert!(contains_date(&h, 5));
    assert!(!contains_date(&h, 8));
    assert!(!contains_date(&Vec::new(), 8));
}

#[test]
fn errors_carry_their_messages() {
    let all = vec![
        DataHubError::IoError("io".to_string()),
        DataHubError::RequestError("request".to_string()),
        DataHubError::JsonError("json".to_string()),
        DataHubError::ArrowError("arrow".to_string()),
        DataHubError::DateError("date".to_string()),
        DataHubError::ExcelError("excel".to_string()),
        DataHubError::ExchangeError("exchange".to_string()),
        DataHubError::DataError("data".to_string()),
        DataHubError::ParseIntError("int".to_string()),
        DataHubError::Unknown("unknown".to_string()),
    ];
    let messages: Vec<&str> = all.iter().map(|e| e.message()).collect();
    assert_eq!(
        messages,
        vec!["io", "request", "json", "arrow", "date", "excel", "exchange", "data", "int", "unknown"]
    );
    assert_eq!(DataHubError::from("text"), DataHubError::Unknown("text".to_string()));
    assert_eq!(
        DataHubError::from("owned".to_string()),
        DataHubError::Unknown("owned".to_string())
    );
}

#[test]
fn version_is_the_day_without_leading_zeros() {
    assert_eq!(date_version(20240102), Ok("2024.1.2".to_string()));
    assert_eq!(date_version(20241231), Ok("2024.12.31".to_string()));
    assert_eq!(date_version(10000000), Ok("1000.0.0".to_string()));
    assert_eq!(date_version(-1234567), Ok("-123.45.67".to_string()));
    assert_eq!(date_version(2024), Err(data_error("Invalid date format: 2024")));
    assert_eq!(date_version(0), Err(data_error("Invalid date format: 0")));
}
