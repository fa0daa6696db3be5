use vstd::prelude::*;
use vstd::string::StringExecFns;

verus! {

/// Settings that steer one run of the data service.
#[derive(Clone, Debug, PartialEq, Eq)]
pub struct Config {
    /// Whether only the first few stocks of each exchange are processed.
    pub debug_mode: bool,
    /// How many stocks of each exchange are processed in debug mode.
    pub debug_stock_limit: usize,
    /// The directory that holds the data file.
    pub data_dir: String,
    /// The most records that a stock's history keeps.
    pub max_kline_records: usize,
    /// Whether every history is fetched in full, whatever is stored.
    pub force_full_history: bool,
}

impl Config {
    /// The default settings: no debug mode, a debug limit of 10 stocks, the
    /// directory `data`, 200 records per history, no forced full history.
    pub fn new() -> (out: Self)
        ensures
            !out.debug_mode,
            out.debug_stock_limit == 10,
            out.data_dir@ == "data"@,
            out.max_kline_records == 200,
            !out.force_full_history,
    {
        Self {
            debug_mode: false,
            debug_stock_limit: 10,
            data_dir: String::from_str("data"),
            max_kline_records: 200,
            force_full_history: false,
        }
    }

    /// These settings with debug mode switched on or off.
    pub fn with_debug_mode(self, debug_mode: bool) -> (out: Self)
        ensures
            out.debug_mode == debug_mode,
            out.debug_stock_limit == self.debug_stock_limit,
            out.data_dir == self.data_dir,
            out.max_kline_records == self.max_kline_records,
            out.force_full_history == self.force_full_history,
    {
        let mut out = self;
        out.debug_mode = debug_mode;
        out
    }

    /// These settings with another limit for debug mode.
    pub fn with_debug_stock_limit(self, limit: usize) -> (out: Self)
        ensures
            out.debug_mode == self.debug_mode,
            out.debug_stock_limit == limit,
            out.data_dir == self.data_dir,
            out.max_kline_records == self.max_kline_records,
            out.force_full_history == self.force_full_history,
    {
        let mut out = self;
        out.debug_stock_limit = limit;
        out
    }

    /// These settings with another data directory.
    pub fn with_data_dir(self, dir: &str) -> (out: Self)
        ensures
            out.debug_mode == self.debug_mode,
            out.debug_stock_limit == self.debug_stock_limit,
            out.data_dir@ == dir@,
            out.max_kline_records == self.max_kline_records,
            out.force_full_history == self.force_full_history,
    {
        let mut out = self;
        out.data_dir = String::from_str(dir);
        out
    }

    /// These settings with another bound on the length of a history.
    pub fn with_max_kline_records(self, max: usize) -> (out: Self)
        ensures
            out.debug_mode == self.debug_mode,
            out.debug_stock_limit == self.debug_stock_limit,
            out.data_dir == self.data_dir,
            out.max_kline_records == max,
            out.force_full_history == self.force_full_history,
    {
        let mut out = self;
        out.max_kline_records = max;
        out
    }

    /// These settings with forced full history switched on or off.
    pub fn with_force_full_history(self, force_full: bool) -> (out: Self)
        ensures
            out.debug_mode == self.debug_mode,
            out.debug_stock_limit == self.debug_stock_limit,
            out.data_dir == self.data_dir,
            out.max_kline_records == self.max_kline_records,
            out.force_full_history == force_full,
    {
        let mut out = self;
        out.force_full_history = force_full;
        out
    }
}

} // verus!
