use crate::errors::DataHubError;
use crate::models::stock::{DailyData, StockData};
use chrono::NaiveDate;
use vstd::prelude::*;

verus! {

#[verifier::external_type_specification]
#[verifier::external_body]
pub struct ExNaiveDate(NaiveDate);

/// A source of market data for one exchange.
///
/// What a source hands back is outside this library's control, so the
/// methods promise nothing about it.
pub trait StockScraper {
    /// The code of the exchange that this source serves.
    fn exchange_code(&self) -> &'static str;

    /// The stocks traded on the given day, each with that day's record.
    fn fetch_stock_list(&self, date: &NaiveDate) -> Result<Vec<StockData>, DataHubError>;

    /// The full history of one stock, most recent day first.
    fn fetch_stock_history(&self, symbol: &str) -> Result<Vec<DailyData>, DataHubError>;
}

} // verus!
