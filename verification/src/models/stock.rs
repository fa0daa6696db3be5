use vstd::prelude::*;

verus! {

/// One trading day of one stock.
///
/// The four prices are single-precision numbers, held here by their bit
/// patterns so that a record read from a file is the record that was written,
/// bit for bit.
#[derive(Clone, Copy, Debug, PartialEq, Eq, Structural)]
pub struct DailyData {
    /// Trading day as `YYYYMMDD`.
    pub date: i32,
    pub open: u32,
    pub high: u32,
    pub low: u32,
    pub close: u32,
    pub volume: i64,
    pub amount: i64,
}

/// A stock with its daily history, most recent day first.
#[derive(Clone, Debug, PartialEq, Eq)]
pub struct StockData {
    pub exchange: String,
    pub symbol: String,
    pub name: String,
    pub daily: Vec<DailyData>,
}

/// What a `StockData` holds, as mathematical values.
pub struct StockView {
    pub exchange: Seq<char>,
    pub symbol: Seq<char>,
    pub name: Seq<char>,
    pub daily: Seq<DailyData>,
}

impl View for StockData {
    type V = StockView;

    open spec fn view(&self) -> StockView {
        StockView {
            exchange: self.exchange@,
            symbol: self.symbol@,
            name: self.name@,
            daily: self.daily@,
        }
    }
}

/// The views of a sequence of stocks, in the same order.
pub open spec fn stock_views(stocks: Seq<StockData>) -> Seq<StockView> {
    stocks.map_values(|s: StockData| s@)
}

/// The symbols of a data set, stock by stock.
pub open spec fn symbols(data: Seq<StockView>) -> Seq<Seq<char>> {
    Seq::new(data.len(), |i: int| data[i].symbol)
}

/// The exchanges of a data set, stock by stock.
pub open spec fn exchanges(data: Seq<StockView>) -> Seq<Seq<char>> {
    Seq::new(data.len(), |i: int| data[i].exchange)
}

/// The texts of a sequence of strings.
pub open spec fn string_views(v: Seq<String>) -> Seq<Seq<char>> {
    v.map_values(|s: String| s@)
}

/// The symbols of the stocks, in order.
pub fn symbols_of(data: &[StockData]) -> (out: Vec<String>)
    ensures
        string_views(out@) == symbols(stock_views(data@)),
{
    let mut out: Vec<String> = Vec::new();
    let mut i: usize = 0;
    while i < data.len()
        invariant
            i <= data.len(),
            out@.len() == i,
            forall|k: int| 0 <= k < i ==> (#[trigger] out@[k])@ == data@[k].symbol@,
        decreases data.len() - i,
    {
        out.push(data[i].symbol.clone());
        i += 1;
    }
    assert(string_views(out@) =~= symbols(stock_views(data@)));
    out
}

/// The exchanges of the stocks, in order.
pub fn exchanges_of(data: &[StockData]) -> (out: Vec<String>)
    ensures
        string_views(out@) == exchanges(stock_views(data@)),
{
    let mut out: Vec<String> = Vec::new();
    let mut i: usize = 0;
    while i < data.len()
        invariant
            i <= data.len(),
            out@.len() == i,
            forall|k: int| 0 <= k < i ==> (#[trigger] out@[k])@ == data@[k].exchange@,
        decreases data.len() - i,
    {
        out.push(data[i].exchange.clone());
        i += 1;
    }
    assert(string_views(out@) =~= exchanges(stock_views(data@)));
    out
}

/// A copy of a history.
pub fn copy_history(daily: &Vec<DailyData>) -> (out: Vec<DailyData>)
    ensures
        out@ == daily@,
{
    let mut out: Vec<DailyData> = Vec::new();
    let mut i: usize = 0;
    while i < daily.len()
        invariant
            i <= daily.len(),
            out@ == daily@.take(i as int),
        decreases daily.len() - i,
    {
        out.push(daily[i]);
        i += 1;
    }
    out
}

impl StockData {
    /// A copy of this stock, field for field.
    pub fn duplicate(&self) -> (out: StockData)
        ensures
            out@ == self@,
    {
        StockData {
            exchange: self.exchange.clone(),
            symbol: self.symbol.clone(),
            name: self.name.clone(),
            daily: copy_history(&self.daily),
        }
    }
}

/// A copy of a list of stocks, in the same order.
pub fn copy_stocks(stocks: &[StockData]) -> (out: Vec<StockData>)
    ensures
        stock_views(out@) == stock_views(stocks@),
{
    let mut out: Vec<StockData> = Vec::new();
    let mut i: usize = 0;
    while i < stocks.len()
        invariant
            i <= stocks.len(),
            out@.len() == i,
            forall|k: int| 0 <= k < i ==> out@[k]@ == stocks@[k]@,
        decreases stocks.len() - i,
    {
        out.push(stocks[i].duplicate());
        i += 1;
    }
    assert(stock_views(out@) =~= stock_views(stocks@));
    out
}

} // verus!
