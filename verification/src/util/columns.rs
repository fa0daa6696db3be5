//! The columnar layout of a data set.
//!
//! A data set of `n` stocks is laid out as three string columns of `n`
//! values, one flat run of all records in stock order, `n + 1` offsets that
//! say which stretch of the run belongs to which stock, and `n` validity
//! flags. The seven fields of the records are columns of their own.
use crate::errors::{DataHubError, ErrorView};
use crate::models::stock::{stock_views, string_views, DailyData, StockData, StockView};
use vstd::prelude::*;
use vstd::string::StringExecFns;

verus! {

/// A data set in columns.
#[derive(Clone, Debug, PartialEq, Eq)]
pub struct StockColumns {
    pub exchange: Vec<String>,
    pub symbol: Vec<String>,
    pub name: Vec<String>,
    /// Where each stock's records start in the record columns; one more
    /// entry than there are stocks.
    pub offsets: Vec<i32>,
    /// Whether each stock has a list of records at all.
    pub validity: Vec<bool>,
    pub date: Vec<i32>,
    pub open: Vec<u32>,
    pub high: Vec<u32>,
    pub low: Vec<u32>,
    pub close: Vec<u32>,
    pub volume: Vec<i64>,
    pub amount: Vec<i64>,
}

/// `StockColumns` as mathematical values.
#[verifier::ext_equal]
pub struct ColumnsView {
    pub exchange: Seq<Seq<char>>,
    pub symbol: Seq<Seq<char>>,
    pub name: Seq<Seq<char>>,
    pub offsets: Seq<i32>,
    pub validity: Seq<bool>,
    pub date: Seq<i32>,
    pub open: Seq<u32>,
    pub high: Seq<u32>,
    pub low: Seq<u32>,
    pub close: Seq<u32>,
    pub volume: Seq<i64>,
    pub amount: Seq<i64>,
}

impl View for StockColumns {
    type V = ColumnsView;

    open spec fn view(&self) -> ColumnsView {
        ColumnsView {
            exchange: string_views(self.exchange@),
            symbol: string_views(self.symbol@),
            name: string_views(self.name@),
            offsets: self.offsets@,
            validity: self.validity@,
            date: self.date@,
            open: self.open@,
            high: self.high@,
            low: self.low@,
            close: self.close@,
            volume: self.volume@,
            amount: self.amount@,
        }
    }
}

/// How many records the stocks have together.
pub open spec fn total_records(data: Seq<StockView>) -> int
    decreases data.len(),
{
    if data.len() == 0 {
        0
    } else {
        total_records(data.drop_last()) + data.last().daily.len()
    }
}

/// All records of the stocks in one run, stock after stock.
pub open spec fn flat_records(data: Seq<StockView>) -> Seq<DailyData>
    decreases data.len(),
{
    if data.len() == 0 {
        Seq::empty()
    } else {
        flat_records(data.drop_last()) + data.last().daily
    }
}

/// A data set can be laid out when its offsets fit the 32-bit column.
pub open spec fn encodable(data: Seq<StockView>) -> bool {
    total_records(data) <= i32::MAX
}

/// The columns of a data set: offset `i` is the number of records of the
/// stocks before stock `i`, and every stock is flagged as having a list.
pub open spec fn encode_columns(data: Seq<StockView>) -> ColumnsView {
    let flat = flat_records(data);
    ColumnsView {
        exchange: Seq::new(data.len(), |i: int| data[i].exchange),
        symbol: Seq::new(data.len(), |i: int| data[i].symbol),
        name: Seq::new(data.len(), |i: int| data[i].name),
        offsets: Seq::new(data.len() + 1, |i: int| total_records(data.take(i)) as i32),
        validity: Seq::new(data.len(), |i: int| true),
        date: Seq::new(flat.len(), |j: int| flat[j].date),
        open: Seq::new(flat.len(), |j: int| flat[j].open),
        high: Seq::new(flat.len(), |j: int| flat[j].high),
        low: Seq::new(flat.len(), |j: int| flat[j].low),
        close: Seq::new(flat.len(), |j: int| flat[j].close),
        volume: Seq::new(flat.len(), |j: int| flat[j].volume),
        amount: Seq::new(flat.len(), |j: int| flat[j].amount),
    }
}

/// The columns agree on the number of stocks and on the number of records.
pub open spec fn same_lengths(c: ColumnsView) -> bool {
    &&& c.symbol.len() == c.exchange.len()
    &&& c.name.len() == c.exchange.len()
    &&& c.validity.len() == c.exchange.len()
    &&& c.offsets.len() == c.exchange.len() + 1
    &&& c.open.len() == c.date.len()
    &&& c.high.len() == c.date.len()
    &&& c.low.len() == c.date.len()
    &&& c.close.len() == c.date.len()
    &&& c.volume.len() == c.date.len()
    &&& c.amount.len() == c.date.len()
}

/// The offsets of stock `i` are in order and within the record columns.
pub open spec fn offsets_ok_at(c: ColumnsView, i: int) -> bool {
    0 <= c.offsets[i] <= c.offsets[i + 1] <= c.date.len()
}

/// The offsets never decrease and never run past the record columns.
pub open spec fn offsets_in_order(c: ColumnsView) -> bool {
    forall|i: int| 0 <= i < c.exchange.len() ==> offsets_ok_at(c, i)
}

/// The columns can be read back as a data set.
pub open spec fn well_formed(c: ColumnsView) -> bool {
    same_lengths(c) && offsets_in_order(c)
}

/// The record made of row `j` of seven field columns.
pub open spec fn row(
    date: Seq<i32>,
    open: Seq<u32>,
    high: Seq<u32>,
    low: Seq<u32>,
    close: Seq<u32>,
    volume: Seq<i64>,
    amount: Seq<i64>,
    j: int,
) -> DailyData {
    DailyData {
        date: date[j],
        open: open[j],
        high: high[j],
        low: low[j],
        close: close[j],
        volume: volume[j],
        amount: amount[j],
    }
}

/// The record in row `j` of the record columns.
pub open spec fn record_at(c: ColumnsView, j: int) -> DailyData {
    row(c.date, c.open, c.high, c.low, c.close, c.volume, c.amount, j)
}

/// The history of stock `i`: the records between its two offsets, or none
/// where the stock is flagged as having no list.
pub open spec fn history_at(c: ColumnsView, i: int) -> Seq<DailyData> {
    if c.validity[i] {
        Seq::new(
            (c.offsets[i + 1] - c.offsets[i]) as nat,
            |k: int| record_at(c, c.offsets[i] + k),
        )
    } else {
        Seq::empty()
    }
}

/// The data set that well-formed columns hold.
pub open spec fn decode_columns(c: ColumnsView) -> Seq<StockView> {
    Seq::new(
        c.exchange.len(),
        |i: int|
            StockView {
                exchange: c.exchange[i],
                symbol: c.symbol[i],
                name: c.name[i],
                daily: history_at(c, i),
            },
    )
}

/// The error that columns which are not well formed are refused with.
pub open spec fn decode_error(c: ColumnsView) -> ErrorView {
    if !same_lengths(c) {
        ErrorView::ArrowError("Column lengths differ"@)
    } else {
        ErrorView::ArrowError("Invalid list offsets"@)
    }
}

/// One more stock adds its records to the count.
pub proof fn lemma_total_step(data: Seq<StockView>, i: int)
    requires
        0 <= i < data.len(),
    ensures
        total_records(data.take(i + 1)) == total_records(data.take(i)) + data[i].daily.len(),
        flat_records(data.take(i + 1)) == flat_records(data.take(i)) + data[i].daily,
{
    assert(data.take(i + 1).drop_last() =~= data.take(i));
    assert(data.take(i + 1).last() == data[i]);
}

/// The records of the first `i` stocks are never more than those of all.
pub proof fn lemma_total_monotone(data: Seq<StockView>, i: int)
    requires
        0 <= i <= data.len(),
    ensures
        0 <= total_records(data.take(i)) <= total_records(data),
    decreases data.len() - i,
{
    if i == data.len() {
        assert(data.take(i) =~= data);
        lemma_total_nonnegative(data);
    } else {
        lemma_total_step(data, i);
        lemma_total_monotone(data, i + 1);
        lemma_total_nonnegative(data.take(i));
    }
}

/// The records of the first `i` stocks are never more than those of the
/// first `j`, where `i` is not more than `j`.
pub proof fn lemma_total_between(data: Seq<StockView>, i: int, j: int)
    requires
        0 <= i <= j <= data.len(),
    ensures
        total_records(data.take(i)) <= total_records(data.take(j)),
    decreases j - i,
{
    if i < j {
        lemma_total_step(data, j - 1);
        lemma_total_between(data, i, j - 1);
    }
}

/// A count of records is never negative.
pub proof fn lemma_total_nonnegative(data: Seq<StockView>)
    ensures
        total_records(data) >= 0,
    decreases data.len(),
{
    if data.len() > 0 {
        lemma_total_nonnegative(data.drop_last());
    }
}

/// The flat run is as long as the count of records.
pub proof fn lemma_flat_len(data: Seq<StockView>)
    ensures
        flat_records(data).len() == total_records(data),
    decreases data.len(),
{
    if data.len() > 0 {
        lemma_flat_len(data.drop_last());
    }
}

/// Record `k` of stock `i` stands in the flat run at the stock's offset
/// plus `k`.
pub proof fn lemma_flat_index(data: Seq<StockView>, i: int, k: int)
    requires
        0 <= i < data.len(),
        0 <= k < data[i].daily.len(),
    ensures
        0 <= total_records(data.take(i)) + k < flat_records(data).len(),
        flat_records(data)[total_records(data.take(i)) + k] == data[i].daily[k],
    decreases data.len(),
{
    let front = data.drop_last();
    lemma_flat_len(front);
    lemma_flat_len(data);
    if i == data.len() - 1 {
        assert(data.take(i) =~= front);
        lemma_total_nonnegative(front);
    } else {
        assert(data.take(i) =~= front.take(i));
        assert(front[i] == data[i]);
        lemma_flat_index(front, i, k);
    }
}

/// Offset monotonicity: the offsets of an encoded data set start at zero,
/// never decrease, and end at the total number of records, which is the
/// length of every record column.
pub proof fn lemma_encoded_offsets(data: Seq<StockView>)
    requires
        encodable(data),
    ensures
        encode_columns(data).offsets.len() == data.len() + 1,
        encode_columns(data).offsets[0] == 0,
        forall|i: int, j: int|
            0 <= i <= j <= data.len() ==> encode_columns(data).offsets[i] <= encode_columns(
                data,
            ).offsets[j],
        encode_columns(data).offsets[data.len() as int] == total_records(data),
        encode_columns(data).date.len() == total_records(data),
        forall|i: int|
            0 <= i <= data.len() ==> #[trigger] encode_columns(data).offsets[i] == total_records(
                data.take(i),
            ),
{
    let c = encode_columns(data);
    lemma_flat_len(data);
    assert(data.take(0) =~= Seq::<StockView>::empty());
    assert(data.take(data.len() as int) =~= data);
    assert forall|i: int| 0 <= i <= data.len() implies #[trigger] c.offsets[i] == total_records(
        data.take(i),
    ) by {
        lemma_total_monotone(data, i);
    }
    assert forall|i: int, j: int| 0 <= i <= j <= data.len() implies c.offsets[i]
        <= c.offsets[j] by {
        lemma_total_between(data, i, j);
        assert(c.offsets[i] == total_records(data.take(i)));
        assert(c.offsets[j] == total_records(data.take(j)));
    }
}

/// Round trip: the columns of a data set are well formed and hold that data
/// set, stock for stock and record for record.
pub proof fn lemma_round_trip(data: Seq<StockView>)
    requires
        encodable(data),
    ensures
        well_formed(encode_columns(data)),
        decode_columns(encode_columns(data)) == data,
{
    let c = encode_columns(data);
    lemma_encoded_offsets(data);
    lemma_flat_len(data);
    assert forall|i: int| 0 <= i < c.exchange.len() implies offsets_ok_at(c, i) by {
        lemma_total_step(data, i);
        lemma_total_monotone(data, i);
        lemma_total_monotone(data, i + 1);
        assert(c.offsets[i] == total_records(data.take(i)));
        assert(c.offsets[i + 1] == total_records(data.take(i + 1)));
    }
    let back = decode_columns(c);
    assert forall|i: int| 0 <= i < data.len() implies back[i] == data[i] by {
        lemma_total_step(data, i);
        assert(c.offsets[i] == total_records(data.take(i)));
        assert(c.offsets[i + 1] == total_records(data.take(i + 1)));
        let h = history_at(c, i);
        assert(h.len() == data[i].daily.len());
        assert forall|k: int| 0 <= k < h.len() implies h[k] == data[i].daily[k] by {
            lemma_flat_index(data, i, k);
        }
        assert(h =~= data[i].daily);
    }
    assert(back =~= data);
}

impl StockColumns {
    /// Lays a data set out in columns.
    ///
    /// Fails where the stocks have more records together than a 32-bit
    /// offset can count.
    pub fn from_stocks(data: &[StockData]) -> (out: Result<StockColumns, DataHubError>)
        ensures
            match out {
                Ok(c) => encodable(stock_views(data@)) && c@ == encode_columns(
                    stock_views(data@),
                ),
                Err(e) => !encodable(stock_views(data@)) && e@ == ErrorView::ArrowError(
                    "Too many records for 32-bit offsets"@,
                ),
            },
    {
        let ghost views = stock_views(data@);
        let mut c = StockColumns {
            exchange: Vec::new(),
            symbol: Vec::new(),
            name: Vec::new(),
            offsets: Vec::new(),
            validity: Vec::new(),
            date: Vec::new(),
            open: Vec::new(),
            high: Vec::new(),
            low: Vec::new(),
            close: Vec::new(),
            volume: Vec::new(),
            amount: Vec::new(),
        };
        c.offsets.push(0i32);
        let mut total: usize = 0;
        let mut i: usize = 0;
        assert(views.take(0) =~= Seq::<StockView>::empty());
        while i < data.len()
            invariant
                i <= data.len(),
                views == stock_views(data@),
                total == total_records(views.take(i as int)),
                total <= i32::MAX,
                c.exchange@.len() == i,
                c.symbol@.len() == i,
                c.name@.len() == i,
                c.validity@.len() == i,
                c.offsets@.len() == i + 1,
                forall|k: int| 0 <= k < i ==> (#[trigger] c.exchange@[k])@ == views[k].exchange,
                forall|k: int| 0 <= k < i ==> (#[trigger] c.symbol@[k])@ == views[k].symbol,
                forall|k: int| 0 <= k < i ==> (#[trigger] c.name@[k])@ == views[k].name,
                forall|k: int| 0 <= k < i ==> #[trigger] c.validity@[k],
                forall|k: int|
                    0 <= k <= i ==> #[trigger] c.offsets@[k] == total_records(views.take(k)),
                c.date@.len() == total,
                c.open@.len() == total,
                c.high@.len() == total,
                c.low@.len() == total,
                c.close@.len() == total,
                c.volume@.len() == total,
                c.amount@.len() == total,
                flat_records(views.take(i as int)).len() == total,
                forall|j: int|
                    0 <= j < total ==> #[trigger] row(
                        c.date@,
                        c.open@,
                        c.high@,
                        c.low@,
                        c.close@,
                        c.volume@,
                        c.amount@,
                        j,
                    ) == flat_records(views.take(i as int))[j],
            decreases data.len() - i,
        {
            let stock = &data[i];
            let count = stock.daily.len();
            proof {
                lemma_total_step(views, i as int);
                lemma_total_monotone(views, i + 1);
                lemma_flat_len(views.take(i as int));
                assert(views[i as int] == stock@);
            }
            if count > 0x7fff_ffff - total {
                return Err(
                    DataHubError::ArrowError(String::from_str("Too many records for 32-bit offsets")),
                );
            }
            let ghost flat_before = flat_records(views.take(i as int));
            let ghost start = c;
            let mut j: usize = 0;
            while j < count
                invariant
                    j <= count,
                    count == stock.daily@.len(),
                    total + count <= i32::MAX,
                    flat_before.len() == total,
                    c.date@.len() == total + j,
                    c.open@.len() == total + j,
                    c.high@.len() == total + j,
                    c.low@.len() == total + j,
                    c.close@.len() == total + j,
                    c.volume@.len() == total + j,
                    c.amount@.len() == total + j,
                    c.exchange == start.exchange,
                    c.symbol == start.symbol,
                    c.name == start.name,
                    c.offsets == start.offsets,
                    c.validity == start.validity,
                    forall|r: int|
                        0 <= r < total + j ==> #[trigger] row(
                            c.date@,
                            c.open@,
                            c.high@,
                            c.low@,
                            c.close@,
                            c.volume@,
                            c.amount@,
                            r,
                        ) == (flat_before + stock.daily@)[r],
                decreases count - j,
            {
                let record = stock.daily[j];
                let ghost before = c;
                c.date.push(record.date);
                c.open.push(record.open);
                c.high.push(record.high);
                c.low.push(record.low);
                c.close.push(record.close);
                c.volume.push(record.volume);
                c.amount.push(record.amount);
                proof {
                    assert forall|r: int| 0 <= r < total + j + 1 implies #[trigger] row(
                        c.date@,
                        c.open@,
                        c.high@,
                        c.low@,
                        c.close@,
                        c.volume@,
                        c.amount@,
                        r,
                    ) == (flat_before + stock.daily@)[r] by {
                        if r < total + j {
                            assert(row(
                                c.date@,
                                c.open@,
                                c.high@,
                                c.low@,
                                c.close@,
                                c.volume@,
                                c.amount@,
                                r,
                            ) == row(
                                before.date@,
                                before.open@,
                                before.high@,
                                before.low@,
                                before.close@,
                                before.volume@,
                                before.amount@,
                                r,
                            ));
                        }
                    }
                }
                j += 1;
            }
            c.exchange.push(stock.exchange.clone());
            c.symbol.push(stock.symbol.clone());
            c.name.push(stock.name.clone());
            total += count;
            c.offsets.push(total as i32);
            c.validity.push(true);
            i += 1;
        }
        proof {
            assert(views.take(i as int) =~= views);
            lemma_flat_len(views);
            let e = encode_columns(views);
            assert(c@.exchange =~= e.exchange);
            assert(c@.symbol =~= e.symbol);
            assert(c@.name =~= e.name);
            assert(c@.offsets =~= e.offsets);
            assert(c@.validity =~= e.validity);
            assert forall|j: int| 0 <= j < total implies c@.date[j] == e.date[j] && c@.open[j]
                == e.open[j] && c@.high[j] == e.high[j] && c@.low[j] == e.low[j] && c@.close[j]
                == e.close[j] && c@.volume[j] == e.volume[j] && c@.amount[j] == e.amount[j] by {
                assert(row(
                    c.date@,
                    c.open@,
                    c.high@,
                    c.low@,
                    c.close@,
                    c.volume@,
                    c.amount@,
                    j,
                ) == flat_records(views)[j]);
            }
            assert(c@.date =~= e.date);
            assert(c@.open =~= e.open);
            assert(c@.high =~= e.high);
            assert(c@.low =~= e.low);
            assert(c@.close =~= e.close);
            assert(c@.volume =~= e.volume);
            assert(c@.amount =~= e.amount);
            assert(c@ =~= e);
        }
        Ok(c)
    }

    /// Whether the columns agree on the number of stocks and of records.
    fn lengths_agree(&self) -> (ok: bool)
        ensures
            ok == same_lengths(self@),
    {
        let n = self.exchange.len();
        let m = self.date.len();
        self.symbol.len() == n && self.name.len() == n && self.validity.len() == n
            && self.offsets.len() > 0 && self.offsets.len() - 1 == n && self.open.len() == m
            && self.high.len() == m && self.low.len() == m && self.close.len() == m
            && self.volume.len() == m && self.amount.len() == m
    }

    /// Reads the columns back as a data set.
    ///
    /// Fails where the columns differ in length, or where an offset is
    /// negative, smaller than the one before it, or past the end of the
    /// record columns.
    pub fn to_stocks(&self) -> (out: Result<Vec<StockData>, DataHubError>)
        ensures
            match out {
                Ok(v) => well_formed(self@) && stock_views(v@) == decode_columns(self@),
                Err(e) => !well_formed(self@) && e@ == decode_error(self@),
            },
    {
        if !self.lengths_agree() {
            return Err(DataHubError::ArrowError(String::from_str("Column lengths differ")));
        }
        let n = self.exchange.len();
        let m = self.date.len();
        let mut out: Vec<StockData> = Vec::new();
        let mut i: usize = 0;
        while i < n
            invariant
                i <= n,
                n == self.exchange@.len(),
                m == self.date@.len(),
                same_lengths(self@),
                out@.len() == i,
                forall|k: int| 0 <= k < i ==> offsets_ok_at(self@, k),
                forall|k: int| 0 <= k < i ==> (#[trigger] out@[k])@ == decode_columns(self@)[k],
            decreases n - i,
        {
            let start = self.offsets[i];
            let end = self.offsets[i + 1];
            if start < 0 || end < start || end as usize > m {
                assert(!offsets_ok_at(self@, i as int));
                return Err(DataHubError::ArrowError(String::from_str("Invalid list offsets")));
            }
            let mut daily: Vec<DailyData> = Vec::new();
            if self.validity[i] {
                let mut j: usize = start as usize;
                while j < end as usize
                    invariant
                        0 <= start <= j <= end <= m,
                        m == self.date@.len(),
                        same_lengths(self@),
                        daily@.len() == j - start,
                        forall|k: int|
                            0 <= k < j - start ==> #[trigger] daily@[k] == record_at(
                                self@,
                                start + k,
                            ),
                    decreases end - j,
                {
                    daily.push(
                        DailyData {
                            date: self.date[j],
                            open: self.open[j],
                            high: self.high[j],
                            low: self.low[j],
                            close: self.close[j],
                            volume: self.volume[j],
                            amount: self.amount[j],
                        },
                    );
                    j += 1;
                }
            }
            assert(daily@ =~= history_at(self@, i as int));
            out.push(
                StockData {
                    exchange: self.exchange[i].clone(),
                    symbol: self.symbol[i].clone(),
                    name: self.name[i].clone(),
                    daily,
                },
            );
            i += 1;
        }
        assert(stock_views(out@) =~= decode_columns(self@));
        Ok(out)
    }
}

} // verus!
