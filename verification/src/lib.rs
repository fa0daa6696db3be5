//! Store of daily stock histories: a columnar file codec, a lookup index over
//! the loaded data set, and the engine that folds fresh observations into it.
pub mod config;
pub mod data_provider;
pub mod errors;
pub mod history;
pub mod index;
pub mod models;
pub mod scrapers;
pub mod services;
pub mod util;

pub use data_provider::StockDataProvider;
pub use errors::{DataHubError, Result};
pub use models::stock::{DailyData, StockData};
