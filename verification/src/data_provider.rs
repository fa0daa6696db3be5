//! The loaded data set with its lookup tables.
use crate::errors::DataHubError;
use crate::index::{
    as_ints, build_last_positions, build_positions, is_last_positions, is_positions,
    last_position, lemma_last_position, lemma_positions, positions,
};
use crate::models::stock::{
    exchanges, exchanges_of, stock_views, symbols, symbols_of, StockData, StockView,
};
use crate::util::arrow_utils::{
    decode_file, encode_file, read_stock_data_from_arrow, save_stock_data_to_arrow,
};
use crate::util::{digits_value, is_digit};
use vstd::hash_map::StringHashMap;
use vstd::prelude::*;

verus! {

/// The stocks at the given positions, in the order of the positions.
pub open spec fn select(data: Seq<StockView>, at: Seq<int>) -> Seq<StockView> {
    Seq::new(at.len(), |k: int| data[at[k]])
}

/// The views of the stocks that a list of references points to.
pub open spec fn ref_views(stocks: Seq<&StockData>) -> Seq<StockView> {
    Seq::new(stocks.len(), |k: int| stocks[k]@)
}

/// The latest first day among the stocks that have a history: each stock
/// counts with the day of its first record.
pub open spec fn latest_date(data: Seq<StockView>) -> Option<i32>
    decreases data.len(),
{
    if data.len() == 0 {
        None
    } else {
        let before = latest_date(data.drop_last());
        let stock = data.last();
        if stock.daily.len() == 0 {
            before
        } else {
            match before {
                Some(d) => if stock.daily[0].date > d {
                    Some(stock.daily[0].date)
                } else {
                    before
                },
                None => Some(stock.daily[0].date),
            }
        }
    }
}

/// `latest_date` is the first day of some stock and no stock's first day is
/// later; there is none exactly where no stock has a history.
pub proof fn lemma_latest_date(data: Seq<StockView>)
    ensures
        match latest_date(data) {
            Some(d) => (exists|i: int|
                0 <= i < data.len() && data[i].daily.len() > 0 && data[i].daily[0].date == d)
                && forall|i: int|
                0 <= i < data.len() && data[i].daily.len() > 0 ==> data[i].daily[0].date <= d,
            None => forall|i: int| 0 <= i < data.len() ==> data[i].daily.len() == 0,
        },
    decreases data.len(),
{
    if data.len() > 0 {
        let front = data.drop_last();
        lemma_latest_date(front);
        assert forall|i: int| 0 <= i < front.len() implies front[i] == data[i] by {}
        match latest_date(data) {
            Some(d) => {
                let last = data.len() - 1;
                if data[last].daily.len() > 0 && data[last].daily[0].date == d {
                } else {
                    let i = choose|i: int|
                        0 <= i < front.len() && front[i].daily.len() > 0 && front[i].daily[0].date
                            == d;
                    assert(data[i].daily.len() > 0 && data[i].daily[0].date == d);
                }
                assert forall|i: int|
                    0 <= i < data.len() && data[i].daily.len() > 0 implies data[i].daily[0].date
                    <= d by {
                    if i < front.len() {
                        assert(front[i] == data[i]);
                    }
                }
            },
            None => {
                assert forall|i: int| 0 <= i < data.len() implies data[i].daily.len() == 0 by {
                    if i < front.len() {
                        assert(front[i] == data[i]);
                    }
                }
            },
        }
    }
}

/// The stocks at the positions of an exchange are the stocks of that
/// exchange, in the order of the data set.
pub proof fn lemma_select_is_filter(data: Seq<StockView>, exchange: Seq<char>)
    ensures
        select(data, positions(exchanges(data), exchange)) == data.filter(
            |s: StockView| s.exchange == exchange,
        ),
    decreases data.len(),
{
    reveal(Seq::filter);
    let pred = |s: StockView| s.exchange == exchange;
    if data.len() == 0 {
        assert(select(data, positions(exchanges(data), exchange)) =~= data.filter(pred));
    } else {
        let front = data.drop_last();
        lemma_select_is_filter(front, exchange);
        assert(exchanges(data).drop_last() =~= exchanges(front));
        lemma_positions(exchanges(front), exchange);
        let p = positions(exchanges(front), exchange);
        assert forall|k: int| 0 <= k < p.len() implies data[p[k]] == front[p[k]] by {}
        assert(select(data, positions(exchanges(data), exchange)) =~= data.filter(pred));
    }
}

/// A data set held in memory, with a table from symbol to stock and a table
/// from exchange to stocks. The tables always agree with the data.
pub struct StockDataProvider {
    data: Vec<StockData>,
    symbol_index: StringHashMap<usize>,
    exchange_index: StringHashMap<Vec<usize>>,
}

impl View for StockDataProvider {
    type V = Seq<StockView>;

    closed spec fn view(&self) -> Seq<StockView> {
        stock_views(self.data@)
    }
}

impl StockDataProvider {
    #[verifier::type_invariant]
    spec fn tables_agree(&self) -> bool {
        &&& is_last_positions(self.symbol_index@, symbols(stock_views(self.data@)))
        &&& is_positions(self.exchange_index@, exchanges(stock_views(self.data@)))
    }

    /// A provider of the data set that the packaged file holds.
    pub fn new(packaged: &[u8]) -> (out: Result<Self, DataHubError>)
        ensures
            match decode_file(packaged@) {
                Ok(v) => out matches Ok(p) && p@ == v,
                Err(e) => out matches Err(x) && x@ == e,
            },
            out matches Err(e) ==> e@ is ArrowError,
    {
        match read_stock_data_from_arrow(packaged) {
            Ok(data) => Self::new_with_data(data),
            Err(e) => Err(e),
        }
    }

    /// A provider of the given data set.
    pub fn new_with_data(data: Vec<StockData>) -> (out: Result<Self, DataHubError>)
        ensures
            out matches Ok(p) && p@ == stock_views(data@),
    {
        let symbols = symbols_of(data.as_slice());
        let exchanges = exchanges_of(data.as_slice());
        let symbol_index = build_last_positions(&symbols);
        let exchange_index = build_positions(&exchanges);
        Ok(Self { data, symbol_index, exchange_index })
    }

    /// A provider of the data set in a file: the empty data set where the
    /// file does not exist, the decoded one where it does. A file that
    /// cannot be decoded is an error.
    pub fn load_from_file(contents: Option<&[u8]>) -> (out: Result<Self, DataHubError>)
        ensures
            match contents {
                None => out matches Ok(p) && p@ == Seq::<StockView>::empty(),
                Some(bytes) => match decode_file(bytes@) {
                    Ok(v) => out matches Ok(p) && p@ == v,
                    Err(e) => out matches Err(x) && x@ == e,
                },
            },
            out matches Err(e) ==> e@ is ArrowError,
    {
        let data = match contents {
            Some(bytes) => match read_stock_data_from_arrow(bytes) {
                Ok(data) => data,
                Err(e) => return Err(e),
            },
            None => {
                let empty: Vec<StockData> = Vec::new();
                assert(stock_views(empty@) =~= Seq::<StockView>::empty());
                empty
            },
        };
        Self::new_with_data(data)
    }

    /// The bytes of the file that holds the data set.
    pub fn save_to_file(&self) -> (out: Result<Vec<u8>, DataHubError>)
        ensures
            match encode_file(self@) {
                Ok(bytes) => out matches Ok(v) && v@ == bytes,
                Err(e) => out matches Err(x) && x@ == e,
            },
    {
        save_stock_data_to_arrow(self.data.as_slice())
    }

    /// All stocks, in the order of the data set.
    pub fn get_all_stocks(&self) -> (out: &[StockData])
        ensures
            stock_views(out@) == self@,
    {
        self.data.as_slice()
    }

    /// The stock with the given symbol: the last one in the data set, where
    /// several have it.
    pub fn get_stock_by_symbol(&self, symbol: &str) -> (out: Option<&StockData>)
        ensures
            match last_position(symbols(self@), symbol@) {
                Some(i) => out matches Some(s) && 0 <= i < self@.len() && s@ == self@[i],
                None => out is None,
            },
            out is None <==> forall|i: int| 0 <= i < self@.len() ==> self@[i].symbol != symbol@,
    {
        proof {
            use_type_invariant(self);
            lemma_last_position(symbols(self@), symbol@);
            match last_position(symbols(self@), symbol@) {
                Some(i) => {
                    assert(self@[i].symbol == symbols(self@)[i]);
                },
                None => {
                    assert forall|i: int| 0 <= i < self@.len() implies self@[i].symbol
                        != symbol@ by {
                        assert(self@[i].symbol == symbols(self@)[i]);
                    }
                },
            }
        }
        match self.symbol_index.get(symbol) {
            Some(position) => {
                assert(self.symbol_index@.contains_key(symbol@));
                let stock = &self.data[*position];
                assert(symbols(self@)[*position as int] == symbol@);
                Some(stock)
            },
            None => None,
        }
    }

    /// The stocks of the given exchange, in the order of the data set.
    pub fn get_stocks_by_exchange(&self, exchange: &str) -> (out: Vec<&StockData>)
        ensures
            ref_views(out@) == self@.filter(|s: StockView| s.exchange == exchange@),
            ref_views(out@) == select(self@, positions(exchanges(self@), exchange@)),
    {
        proof {
            use_type_invariant(self);
            lemma_positions(exchanges(self@), exchange@);
            lemma_select_is_filter(self@, exchange@);
        }
        let mut out: Vec<&StockData> = Vec::new();
        let ghost at = positions(exchanges(self@), exchange@);
        match self.exchange_index.get(exchange) {
            Some(list) => {
                assert(self.exchange_index@.contains_key(exchange@));
                assert(as_ints(list@) == at);
                let mut k: usize = 0;
                while k < list.len()
                    invariant
                        k <= list.len(),
                        as_ints(list@) == at,
                        at == positions(exchanges(self@), exchange@),
                        forall|j: int|
                            0 <= j < at.len() ==> 0 <= #[trigger] at[j] < exchanges(self@).len(),
                        out@.len() == k,
                        forall|j: int| 0 <= j < k ==> (#[trigger] out@[j])@ == self@[at[j]],
                    decreases list.len() - k,
                {
                    assert(as_ints(list@)[k as int] == list@[k as int] as int);
                    assert(0 <= at[k as int] < exchanges(self@).len());
                    out.push(&self.data[list[k]]);
                    k += 1;
                }
                assert(as_ints(list@).len() == list@.len());
            },
            None => {
                assert(!self.exchange_index@.contains_key(exchange@));
                assert(at.len() == 0);
            },
        }
        assert(ref_views(out@) =~= select(self@, at));
        out
    }

    /// The latest trading day that the data set knows: the latest first
    /// day among the stocks that have a history.
    pub fn get_latest_trading_date(&self) -> (out: Option<i32>)
        ensures
            out == latest_date(self@),
    {
        get_latest_date_from_data(self.data.as_slice())
    }
}

/// The latest first day among the stocks that have a history: the first
/// day of one of them, with no first day later than it. There is none
/// exactly where no stock has a history.
pub fn get_latest_date_from_data(data: &[StockData]) -> (out: Option<i32>)
    ensures
        out == latest_date(stock_views(data@)),
        match out {
            Some(d) => (exists|i: int|
                0 <= i < data@.len() && data@[i].daily@.len() > 0 && data@[i].daily@[0].date
                    == d) && forall|i: int|
                0 <= i < data@.len() && data@[i].daily@.len() > 0 ==> data@[i].daily@[0].date
                    <= d,
            None => forall|i: int| 0 <= i < data@.len() ==> data@[i].daily@.len() == 0,
        },
{
    let ghost views = stock_views(data@);
    let mut latest: Option<i32> = None;
    let mut i: usize = 0;
    assert(views.take(0) =~= Seq::<StockView>::empty());
    while i < data.len()
        invariant
            i <= data.len(),
            views == stock_views(data@),
            latest == latest_date(views.take(i as int)),
        decreases data.len() - i,
    {
        proof {
            assert(views.take(i + 1).drop_last() =~= views.take(i as int));
            assert(views.take(i + 1).last() == data@[i as int]@);
        }
        let stock = &data[i];
        if stock.daily.len() > 0 {
            let first = stock.daily[0].date;
            match latest {
                Some(d) => {
                    if first > d {
                        latest = Some(first);
                    }
                },
                None => {
                    latest = Some(first);
                },
            }
        }
        i += 1;
    }
    proof {
        assert(views.take(i as int) =~= views);
        lemma_latest_date(views);
        match latest {
            Some(d) => {
                let k = choose|k: int|
                    0 <= k < views.len() && views[k].daily.len() > 0 && views[k].daily[0].date
                        == d;
                assert(data@[k].daily@.len() > 0 && data@[k].daily@[0].date == d);
                assert forall|i: int|
                    0 <= i < data@.len() && data@[i].daily@.len() > 0 implies data@[i].daily@[0].date
                    <= d by {
                    assert(views[i].daily == data@[i].daily@);
                }
            },
            None => {
                assert forall|i: int| 0 <= i < data@.len() implies data@[i].daily@.len()
                    == 0 by {
                    assert(views[i].daily == data@[i].daily@);
                }
            },
        }
    }
    latest
}

/// Whether to look for a newer file: only where the data set knows a
/// trading day and that day is before today.
pub fn needs_update_check(latest: Option<i32>, today: i32) -> (check: bool)
    ensures
        check == (latest matches Some(d) && d < today),
{
    match latest {
        Some(d) => d < today,
        None => false,
    }
}

/// Whether the remote file is to replace the local one: where it states a
/// size other than the local one, or a later time of modification.
pub fn remote_is_newer(
    local_size: u64,
    local_modified: u64,
    remote_size: u64,
    remote_modified: Option<u64>,
) -> (newer: bool)
    ensures
        newer == ((remote_size != local_size && remote_size > 0) || (remote_modified matches Some(
            t,
        ) && t > local_modified)),
{
    if remote_size != local_size && remote_size > 0 {
        return true;
    }
    match remote_modified {
        Some(t) => t > local_modified,
        None => false,
    }
}

/// The number that a text writes in decimal without a minus sign: an
/// optional `+`, then one or more digits and nothing else, the number
/// within 64 bits.
pub open spec fn decimal_u64(text: Seq<char>) -> Option<u64> {
    let digits = if text.len() > 0 && text[0] == '+' {
        text.drop_first()
    } else {
        text
    };
    if digits.len() > 0 && (forall|i: int| 0 <= i < digits.len() ==> is_digit(digits[i]))
        && digits_value(digits) <= u64::MAX {
        Some(digits_value(digits) as u64)
    } else {
        None
    }
}

/// The seconds since 1970 of the time that a text writes as an HTTP date.
pub uninterp spec fn http_date_seconds(text: Seq<char>) -> Option<u64>;

/// `str::parse::<u64>`: the number that the text writes in decimal.
#[verifier::external_body]
fn parse_u64(text: &str) -> (r: Option<u64>)
    ensures
        r == decimal_u64(text@),
{
    text.parse::<u64>().ok()
}

/// `httpdate::parse_http_date`: the time that the text writes, in whole
/// seconds since 1970; `None` where the text is no HTTP date.
#[verifier::external_body]
fn parse_http_date(text: &str) -> (r: Option<u64>)
    ensures
        r == http_date_seconds(text@),
{
    let time = httpdate::parse_http_date(text).ok()?;
    Some(time.duration_since(std::time::UNIX_EPOCH).unwrap_or_default().as_secs())
}

/// The size that the remote file states in its `content-length` header;
/// zero where there is none or it is no number.
pub fn remote_size_of(content_length: Option<&str>) -> (size: u64)
    ensures
        size == match content_length {
            Some(text) => match decimal_u64(text@) {
                Some(v) => v,
                None => 0,
            },
            None => 0,
        },
{
    match content_length {
        Some(text) => match parse_u64(text) {
            Some(v) => v,
            None => 0,
        },
        None => 0,
    }
}

/// The time that the remote file states in its `last-modified` header, in
/// seconds since 1970, where it states one.
pub fn remote_modified_of(last_modified: Option<&str>) -> (time: Option<u64>)
    ensures
        time == match last_modified {
            Some(text) => http_date_seconds(text@),
            None => None,
        },
{
    match last_modified {
        Some(text) => parse_http_date(text),
        None => None,
    }
}

/// Whether the file is to be fetched, given size and time of modification
/// of the local file, where there is one, and the two headers of the
/// remote file: always without a local file, else where the remote file is
/// newer.
pub fn should_download(
    local: Option<(u64, u64)>,
    content_length: Option<&str>,
    last_modified: Option<&str>,
) -> (download: bool)
    ensures
        download == match local {
            None => true,
            Some((size, modified)) => {
                let remote_size = match content_length {
                    Some(text) => match decimal_u64(text@) {
                        Some(v) => v,
                        None => 0,
                    },
                    None => 0,
                };
                let remote_modified = match last_modified {
                    Some(text) => http_date_seconds(text@),
                    None => None,
                };
                (remote_size != size && remote_size > 0) || (remote_modified matches Some(t) && t
                    > modified)
            },
        },
{
    match local {
        None => true,
        Some((size, modified)) => remote_is_newer(
            size,
            modified,
            remote_size_of(content_length),
            remote_modified_of(last_modified),
        ),
    }
}

} // verus!
