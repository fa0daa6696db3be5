//! Data sets as Arrow record batches and Arrow IPC files.
//!
//! A record batch of a data set has the string columns `exchange`, `symbol`
//! and `name` and the list column `daily`, whose items are structs of the
//! fields `date`, `open`, `high`, `low`, `close`, `volume` and `amount`.
use crate::errors::{DataHubError, ErrorView};
use crate::models::stock::{stock_views, string_views, StockData, StockView};
use crate::util::arrow_bridge::{
    footer_record_blocks,
    column_len, column_null_count, column_nullable, block_sound, blocks_sound, file_blocks, arrow_error_message, arrow_error_text, batch_column, batch_column_by_name, column_as_i32s,
    column_as_i64s, column_as_price_bits, column_as_strings, column_child, column_i32s,
    column_i64s, column_list, column_price_bits, column_strings, first_named, i32_column,
    i32_array_of, i64_array_of, i64_column, ipc_batches_of, ipc_file_of, list_array_of,
    list_column, list_parts, price_array_of, price_column, read_ipc_file, record_batch,
    record_batch_of, struct_array_of, struct_child, struct_column, total_utf8_len,
    utf8_array_of, utf8_column, write_ipc_file, Column, StockBatch,
};
use crate::util::columns::{
    decode_columns, decode_error, encodable, encode_columns, lemma_encoded_offsets,
    total_records,
    lemma_round_trip, well_formed, ColumnsView, StockColumns,
};
use arrow::error::ArrowError;
use vstd::prelude::*;
use crate::util::ipc_check::{block_is_sound, file_fault, find_fault, find_footer};
use vstd::string::StringExecFns;

verus! {

/// The strings of the named column of a batch, if it is a string column.
pub open spec fn batch_strings(b: StockBatch, name: Seq<char>) -> Option<Seq<Seq<char>>> {
    match batch_column(b, name) {
        Some(c) => column_strings(c),
        None => None,
    }
}

/// Offsets, validity flags and child array of the `daily` column of a
/// batch, if it is a list column.
pub open spec fn batch_daily(b: StockBatch) -> Option<(Seq<i32>, Seq<bool>, Column)> {
    match batch_column(b, "daily"@) {
        Some(c) => column_list(c),
        None => None,
    }
}

/// The named 32-bit integer field of a struct array.
pub open spec fn child_i32s(records: Column, name: Seq<char>) -> Option<Seq<i32>> {
    match column_child(records, name) {
        Some(c) => column_i32s(c),
        None => None,
    }
}

/// The named single-precision field of a struct array, as bit patterns.
pub open spec fn child_price_bits(records: Column, name: Seq<char>) -> Option<Seq<u32>> {
    match column_child(records, name) {
        Some(c) => column_price_bits(c),
        None => None,
    }
}

/// The named 64-bit integer field of a struct array.
pub open spec fn child_i64s(records: Column, name: Seq<char>) -> Option<Seq<i64>> {
    match column_child(records, name) {
        Some(c) => column_i64s(c),
        None => None,
    }
}

/// A struct array has the seven record fields, each of its type.
pub open spec fn has_record_fields(records: Column) -> bool {
    &&& child_i32s(records, "date"@) is Some
    &&& child_price_bits(records, "open"@) is Some
    &&& child_price_bits(records, "high"@) is Some
    &&& child_price_bits(records, "low"@) is Some
    &&& child_price_bits(records, "close"@) is Some
    &&& child_i64s(records, "volume"@) is Some
    &&& child_i64s(records, "amount"@) is Some
}

/// The columns made of three string columns, the parts of the list column
/// and the fields of its struct array, where those are all there.
pub open spec fn columns_of(
    exchange: Seq<Seq<char>>,
    symbol: Seq<Seq<char>>,
    name: Seq<Seq<char>>,
    offsets: Seq<i32>,
    validity: Seq<bool>,
    records: Column,
) -> ColumnsView {
    ColumnsView {
        exchange,
        symbol,
        name,
        offsets,
        validity,
        date: child_i32s(records, "date"@)->0,
        open: child_price_bits(records, "open"@)->0,
        high: child_price_bits(records, "high"@)->0,
        low: child_price_bits(records, "low"@)->0,
        close: child_price_bits(records, "close"@)->0,
        volume: child_i64s(records, "volume"@)->0,
        amount: child_i64s(records, "amount"@)->0,
    }
}

/// The columns that a batch holds, or the message of the first thing it
/// lacks: one of the three string columns, the list column, or one of the
/// seven record fields.
pub open spec fn batch_view(b: StockBatch) -> Result<ColumnsView, Seq<char>> {
    match batch_strings(b, "exchange"@) {
        None => Err("Failed to downcast exchange column"@),
        Some(exchange) => match batch_strings(b, "symbol"@) {
            None => Err("Failed to downcast symbol column"@),
            Some(symbol) => match batch_strings(b, "name"@) {
                None => Err("Failed to downcast name column"@),
                Some(name) => match batch_daily(b) {
                    None => Err("Failed to downcast daily column"@),
                    Some((offsets, validity, records)) => if has_record_fields(records) {
                        Ok(columns_of(exchange, symbol, name, offsets, validity, records))
                    } else {
                        Err("Missing required columns in daily data"@)
                    },
                },
            },
        },
    }
}

/// The data set that a batch holds, or the error it is refused with.
pub open spec fn decode_batch(b: StockBatch) -> Result<Seq<StockView>, ErrorView> {
    match batch_view(b) {
        Err(m) => Err(ErrorView::ArrowError(m)),
        Ok(c) => if well_formed(c) {
            Ok(decode_columns(c))
        } else {
            Err(decode_error(c))
        },
    }
}

/// The stocks of the first `n` batches, one batch after the other, or the
/// error of the first batch that is refused.
pub open spec fn decode_batches(batches: Seq<StockBatch>, n: int) -> Result<
    Seq<StockView>,
    ErrorView,
>
    decreases n,
{
    if n <= 0 {
        Ok(Seq::empty())
    } else {
        match decode_batches(batches, n - 1) {
            Err(e) => Err(e),
            Ok(front) => match decode_batch(batches[n - 1]) {
                Err(e) => Err(e),
                Ok(stocks) => Ok(front + stocks),
            },
        }
    }
}

/// The data set that the bytes of an IPC file hold, or the error they are
/// refused with.
///
/// A file is refused where it has one of the faults that keep it from
/// being handed to Arrow; with Arrow's error, where Arrow cannot read it; where its schema lacks
/// one of the four columns or one of the seven record fields, whether or
/// not the file holds a batch; and with the error of the first batch that
/// is refused.
pub open spec fn decode_file(bytes: Seq<u8>) -> Result<Seq<StockView>, ErrorView> {
    match file_fault(bytes) {
        Some(m) => Err(ErrorView::ArrowError(m)),
        None => match ipc_batches_of(bytes) {
            Err(e) => Err(ErrorView::ArrowError(arrow_error_message(e))),
            Ok((schema, batches)) => match batch_view(schema) {
                Err(m) => Err(ErrorView::ArrowError(m)),
                Ok(_) => decode_batches(batches, batches.len() as int),
            },
        },
    }
}

/// The three string columns of a data set fit Arrow's 32-bit string offsets.
pub open spec fn texts_fit(c: ColumnsView) -> bool {
    &&& total_utf8_len(c.exchange) <= i32::MAX
    &&& total_utf8_len(c.symbol) <= i32::MAX
    &&& total_utf8_len(c.name) <= i32::MAX
}

/// The names of the seven record fields, in the order of the struct.
pub open spec fn record_names() -> Seq<Seq<char>> {
    seq!["date"@, "open"@, "high"@, "low"@, "close"@, "volume"@, "amount"@]
}

/// The names of the four columns of a batch, in the order of the batch.
pub open spec fn column_names() -> Seq<Seq<char>> {
    seq!["exchange"@, "symbol"@, "name"@, "daily"@]
}

/// What Arrow makes of the seven record columns: a struct array of fields
/// that take no nulls, or its error.
pub open spec fn records_array(c: ColumnsView) -> Result<Column, ArrowError> {
    struct_array_of(
        record_names(),
        seq![
            i32_array_of(c.date),
            price_array_of(c.open),
            price_array_of(c.high),
            price_array_of(c.low),
            price_array_of(c.close),
            i64_array_of(c.volume),
            i64_array_of(c.amount),
        ],
    )
}

/// What Arrow makes of columns: the batch of three string columns that
/// take no nulls and the list column `daily`, which may, over items named
/// `item` that take no nulls; or the error of the first step that fails.
pub open spec fn columns_batch(c: ColumnsView) -> Result<StockBatch, ArrowError> {
    match records_array(c) {
        Err(e) => Err(e),
        Ok(records) => match list_array_of("item"@, false, c.offsets, records, c.validity) {
            Err(e) => Err(e),
            Ok(daily) => record_batch_of(
                column_names(),
                seq![false, false, false, true],
                seq![
                    utf8_array_of(c.exchange),
                    utf8_array_of(c.symbol),
                    utf8_array_of(c.name),
                    daily,
                ],
            ),
        },
    }
}

/// The batch of a data set, or the error it is refused with: the
/// library's, where the data set has more records or more bytes of text
/// than 32-bit offsets can count; else Arrow's, where Arrow fails.
pub open spec fn encode_batch(data: Seq<StockView>) -> Result<StockBatch, ErrorView> {
    if !encodable(data) {
        Err(ErrorView::ArrowError("Too many records for 32-bit offsets"@))
    } else if !texts_fit(encode_columns(data)) {
        Err(ErrorView::ArrowError("Too many bytes for 32-bit string offsets"@))
    } else {
        match columns_batch(encode_columns(data)) {
            Ok(b) => Ok(b),
            Err(e) => Err(ErrorView::ArrowError(arrow_error_message(e))),
        }
    }
}

/// The bytes of the file of a data set, or the error it is refused with.
pub open spec fn encode_file(data: Seq<StockView>) -> Result<Seq<u8>, ErrorView> {
    match encode_batch(data) {
        Err(e) => Err(e),
        Ok(b) => match ipc_file_of(b) {
            Ok(bytes) => Ok(bytes),
            Err(e) => Err(ErrorView::ArrowError(arrow_error_message(e))),
        },
    }
}

/// Round trip through a batch: a batch that holds the columns of a data set
/// decodes to that data set.
pub proof fn lemma_batch_round_trip(b: StockBatch, data: Seq<StockView>)
    requires
        encodable(data),
        batch_view(b) == Ok::<ColumnsView, Seq<char>>(encode_columns(data)),
    ensures
        decode_batch(b) == Ok::<Seq<StockView>, ErrorView>(data),
{
    lemma_round_trip(data);
}

/// Round trip through a file, as far as it is this library's: where Arrow
/// reads the bytes it wrote for a data set back as one batch that holds
/// the columns it was given, the file decodes to that data set.
pub proof fn lemma_file_round_trip(
    data: Seq<StockView>,
    bytes: Seq<u8>,
    schema: StockBatch,
    batches: Seq<StockBatch>,
)
    requires
        encode_file(data) == Ok::<Seq<u8>, ErrorView>(bytes),
        file_fault(bytes) is None,
        ipc_batches_of(bytes) == Ok::<(StockBatch, Seq<StockBatch>), ArrowError>(
            (schema, batches),
        ),
        batch_view(schema) is Ok,
        batches.len() == 1,
        batch_view(batches[0]) == Ok::<ColumnsView, Seq<char>>(encode_columns(data)),
    ensures
        decode_file(bytes) == Ok::<Seq<StockView>, ErrorView>(data),
{
    lemma_round_trip(data);
    assert(decode_batches(batches, 0) == Ok::<Seq<StockView>, ErrorView>(Seq::empty()));
    assert(Seq::<StockView>::empty() + data =~= data);
}

/// Whether the strings fit Arrow's 32-bit string offsets.
fn strings_fit(values: &Vec<String>) -> (fit: bool)
    ensures
        fit == (total_utf8_len(string_views(values@)) <= i32::MAX),
{
    let ghost texts = string_views(values@);
    let mut total: usize = 0;
    let mut i: usize = 0;
    assert(texts.take(0) =~= Seq::<Seq<char>>::empty());
    while i < values.len()
        invariant
            i <= values.len(),
            texts == string_views(values@),
            total == total_utf8_len(texts.take(i as int)),
            total <= i32::MAX,
        decreases values.len() - i,
    {
        let len = values[i].as_str().as_bytes().len();
        proof {
            assert(texts.take(i + 1).drop_last() =~= texts.take(i as int));
            assert(texts.take(i + 1).last() == values@[i as int]@);
            lemma_utf8_len_between(texts, i + 1, texts.len() as int);
            assert(texts.take(texts.len() as int) =~= texts);
        }
        if len > 0x7fff_ffff - total {
            return false;
        }
        total += len;
        i += 1;
    }
    assert(texts.take(i as int) =~= texts);
    true
}

/// The first `i` texts never take more bytes than the first `j`, where `i`
/// is not more than `j`.
proof fn lemma_utf8_len_between(texts: Seq<Seq<char>>, i: int, j: int)
    requires
        0 <= i <= j <= texts.len(),
    ensures
        0 <= total_utf8_len(texts.take(i)) <= total_utf8_len(texts.take(j)),
    decreases j,
{
    if j == 0 {
        assert(texts.take(0) =~= Seq::<Seq<char>>::empty());
    } else if i < j {
        assert(texts.take(j).drop_last() =~= texts.take(j - 1));
        lemma_utf8_len_between(texts, i, j - 1);
    } else {
        assert(texts.take(j).drop_last() =~= texts.take(j - 1));
        lemma_utf8_len_between(texts, j - 1, j - 1);
    }
}

/// The library's error for an error of Arrow's: an `ArrowError` with the
/// text that Arrow prints for it.
pub fn arrow_failure(e: &ArrowError) -> (out: DataHubError)
    ensures
        out@ == ErrorView::ArrowError(arrow_error_message(*e)),
{
    DataHubError::ArrowError(arrow_error_text(e))
}

/// The error that a refused file is reported with.
fn format_error(message: &str) -> (out: DataHubError)
    ensures
        out@ == ErrorView::ArrowError(message@),
{
    DataHubError::ArrowError(String::from_str(message))
}

/// The strings of the named column of a batch.
fn read_strings(b: &StockBatch, name: &str) -> (out: Option<Vec<String>>)
    ensures
        match batch_strings(*b, name@) {
            Some(s) => out matches Some(v) && string_views(v@) == s,
            None => out is None,
        },
{
    match batch_column_by_name(b, name) {
        Some(c) => column_as_strings(&c),
        None => None,
    }
}

/// The named 32-bit integer field of a struct array.
fn read_i32s(records: &Column, name: &str) -> (out: Option<Vec<i32>>)
    ensures
        match child_i32s(*records, name@) {
            Some(s) => out matches Some(v) && v@ == s,
            None => out is None,
        },
{
    match struct_child(records, name) {
        Some(c) => column_as_i32s(&c),
        None => None,
    }
}

/// The named single-precision field of a struct array, as bit patterns.
fn read_price_bits(records: &Column, name: &str) -> (out: Option<Vec<u32>>)
    ensures
        match child_price_bits(*records, name@) {
            Some(s) => out matches Some(v) && v@ == s,
            None => out is None,
        },
{
    match struct_child(records, name) {
        Some(c) => column_as_price_bits(&c),
        None => None,
    }
}

/// The named 64-bit integer field of a struct array.
fn read_i64s(records: &Column, name: &str) -> (out: Option<Vec<i64>>)
    ensures
        match child_i64s(*records, name@) {
            Some(s) => out matches Some(v) && v@ == s,
            None => out is None,
        },
{
    match struct_child(records, name) {
        Some(c) => column_as_i64s(&c),
        None => None,
    }
}

/// Takes the columns out of a batch: the three string columns and the list
/// column by their names, then the seven record fields by theirs.
pub fn batch_to_columns(b: &StockBatch) -> (out: Result<StockColumns, DataHubError>)
    ensures
        match batch_view(*b) {
            Ok(v) => out matches Ok(c) && c@ == v,
            Err(m) => out matches Err(e) && e@ == ErrorView::ArrowError(m),
        },
{
    let exchange = match read_strings(b, "exchange") {
        Some(v) => v,
        None => return Err(format_error("Failed to downcast exchange column")),
    };
    let symbol = match read_strings(b, "symbol") {
        Some(v) => v,
        None => return Err(format_error("Failed to downcast symbol column")),
    };
    let name = match read_strings(b, "name") {
        Some(v) => v,
        None => return Err(format_error("Failed to downcast name column")),
    };
    let daily = match batch_column_by_name(b, "daily") {
        Some(c) => list_parts(&c),
        None => None,
    };
    let (offsets, validity, records) = match daily {
        Some(parts) => parts,
        None => return Err(format_error("Failed to downcast daily column")),
    };
    let date = read_i32s(&records, "date");
    let open = read_price_bits(&records, "open");
    let high = read_price_bits(&records, "high");
    let low = read_price_bits(&records, "low");
    let close = read_price_bits(&records, "close");
    let volume = read_i64s(&records, "volume");
    let amount = read_i64s(&records, "amount");
    match (date, open, high, low, close, volume, amount) {
        (Some(date), Some(open), Some(high), Some(low), Some(close), Some(volume), Some(amount)) => {
            let c = StockColumns {
                exchange,
                symbol,
                name,
                offsets,
                validity,
                date,
                open,
                high,
                low,
                close,
                volume,
                amount,
            };
            assert(c@ =~= batch_view(*b)->Ok_0);
            Ok(c)
        },
        _ => Err(format_error("Missing required columns in daily data")),
    }
}

/// Reads the data set that a batch holds.
pub fn batch_to_stocks(b: &StockBatch) -> (out: Result<Vec<StockData>, DataHubError>)
    ensures
        match decode_batch(*b) {
            Ok(v) => out matches Ok(s) && stock_views(s@) == v,
            Err(e) => out matches Err(x) && x@ == e,
        },
{
    match batch_to_columns(b) {
        Ok(c) => c.to_stocks(),
        Err(e) => Err(e),
    }
}

/// Builds the struct array of the seven record columns.
fn record_fields(
    date: Vec<i32>,
    open: Vec<u32>,
    high: Vec<u32>,
    low: Vec<u32>,
    close: Vec<u32>,
    volume: Vec<i64>,
    amount: Vec<i64>,
) -> (out: Result<Column, ArrowError>)
    ensures
        date@.len() == open@.len() == high@.len() == low@.len() == close@.len() == volume@.len()
            == amount@.len() ==> out is Ok,
        out matches Ok(records) ==> column_len(records) == date@.len() && !column_nullable(
            records,
        ),
        out == struct_array_of(
            record_names(),
            seq![
                i32_array_of(date@),
                price_array_of(open@),
                price_array_of(high@),
                price_array_of(low@),
                price_array_of(close@),
                i64_array_of(volume@),
                i64_array_of(amount@),
            ],
        ),
        out matches Ok(records) ==> {
            &&& child_i32s(records, "date"@) == Some(date@)
            &&& child_price_bits(records, "open"@) == Some(open@)
            &&& child_price_bits(records, "high"@) == Some(high@)
            &&& child_price_bits(records, "low"@) == Some(low@)
            &&& child_price_bits(records, "close"@) == Some(close@)
            &&& child_i64s(records, "volume"@) == Some(volume@)
            &&& child_i64s(records, "amount"@) == Some(amount@)
        },
{
    let names: Vec<String> = vec![
        String::from_str("date"),
        String::from_str("open"),
        String::from_str("high"),
        String::from_str("low"),
        String::from_str("close"),
        String::from_str("volume"),
        String::from_str("amount"),
    ];
    let columns: Vec<Column> = vec![
        i32_column(date),
        price_column(open),
        price_column(high),
        price_column(low),
        price_column(close),
        i64_column(volume),
        i64_column(amount),
    ];
    proof {
        reveal_strlit("date");
        reveal_strlit("open");
        reveal_strlit("high");
        reveal_strlit("low");
        reveal_strlit("close");
        reveal_strlit("volume");
        reveal_strlit("amount");
        let texts = string_views(names@);
        assert(texts[0] == "date"@ && texts[1] == "open"@ && texts[2] == "high"@ && texts[3]
            == "low"@ && texts[4] == "close"@ && texts[5] == "volume"@ && texts[6] == "amount"@);
        assert(texts =~= record_names());
        assert(columns@ =~= seq![
            i32_array_of(date@),
            price_array_of(open@),
            price_array_of(high@),
            price_array_of(low@),
            price_array_of(close@),
            i64_array_of(volume@),
            i64_array_of(amount@),
        ]);
        assert(texts[0][0] == 'd' && texts[1][0] == 'o' && texts[2][0] == 'h' && texts[3][0] == 'l'
            && texts[4][0] == 'c' && texts[5][0] == 'v' && texts[6][0] == 'a');
        assert(first_named(texts, 0) && first_named(texts, 1) && first_named(texts, 2)
            && first_named(texts, 3) && first_named(texts, 4) && first_named(texts, 5)
            && first_named(texts, 6));
    }
    let out = struct_column(&names, columns);
    proof {
        if out is Ok {
            let records = out->Ok_0;
            assert(column_child(records, names@[0]@) == Some(columns@[0]));
            assert(column_child(records, names@[1]@) == Some(columns@[1]));
            assert(column_child(records, names@[2]@) == Some(columns@[2]));
            assert(column_child(records, names@[3]@) == Some(columns@[3]));
            assert(column_child(records, names@[4]@) == Some(columns@[4]));
            assert(column_child(records, names@[5]@) == Some(columns@[5]));
            assert(column_child(records, names@[6]@) == Some(columns@[6]));
        }
    }
    out
}

/// Builds the batch of three string columns and the list column.
fn assemble_batch(exchange: Column, symbol: Column, name: Column, daily: Column) -> (out: Result<
    StockBatch,
    ArrowError,
>)
    ensures
        column_len(symbol) == column_len(exchange) && column_len(name) == column_len(exchange)
            && column_len(daily) == column_len(exchange) && column_null_count(exchange) == 0
            && column_null_count(symbol) == 0 && column_null_count(name) == 0 ==> out is Ok,
        out == record_batch_of(
            column_names(),
            seq![false, false, false, true],
            seq![exchange, symbol, name, daily],
        ),
        out matches Ok(b) ==> {
            &&& batch_column(b, "exchange"@) == Some(exchange)
            &&& batch_column(b, "symbol"@) == Some(symbol)
            &&& batch_column(b, "name"@) == Some(name)
            &&& batch_column(b, "daily"@) == Some(daily)
        },
{
    let names: Vec<String> = vec![
        String::from_str("exchange"),
        String::from_str("symbol"),
        String::from_str("name"),
        String::from_str("daily"),
    ];
    let nullable: Vec<bool> = vec![false, false, false, true];
    let columns: Vec<Column> = vec![exchange, symbol, name, daily];
    proof {
        reveal_strlit("exchange");
        reveal_strlit("symbol");
        reveal_strlit("name");
        reveal_strlit("daily");
        let texts = string_views(names@);
        assert(texts[0] == "exchange"@ && texts[1] == "symbol"@ && texts[2] == "name"@ && texts[3]
            == "daily"@);
        assert(texts =~= column_names());
        assert(nullable@ =~= seq![false, false, false, true]);
        assert(columns@ =~= seq![exchange, symbol, name, daily]);
        assert(texts[0][0] == 'e' && texts[1][0] == 's' && texts[2][0] == 'n' && texts[3][0]
            == 'd');
        assert(first_named(texts, 0) && first_named(texts, 1) && first_named(texts, 2)
            && first_named(texts, 3));
    }
    let out = record_batch(&names, &nullable, columns);
    proof {
        if out is Ok {
            let b = out->Ok_0;
            assert(batch_column(b, names@[0]@) == Some(columns@[0]));
            assert(batch_column(b, names@[1]@) == Some(columns@[1]));
            assert(batch_column(b, names@[2]@) == Some(columns@[2]));
            assert(batch_column(b, names@[3]@) == Some(columns@[3]));
        }
    }
    out
}

/// Turns a data set into an Arrow record batch.
///
/// The data set is refused where it has more records than a 32-bit offset
/// can count, or where one of its string columns takes more bytes than
/// that. Every other data set gives a batch, which holds the columns of the
/// data set.
pub fn stock_data_to_record_batch(data: &[StockData]) -> (out: Result<StockBatch, DataHubError>)
    ensures
        match encode_batch(stock_views(data@)) {
            Ok(b) => out == Ok::<StockBatch, DataHubError>(b),
            Err(e) => out matches Err(x) && x@ == e,
        },
        encodable(stock_views(data@)) && texts_fit(encode_columns(stock_views(data@)))
            ==> out is Ok,
        out matches Ok(b) ==> (batch_view(b) == Ok::<ColumnsView, Seq<char>>(
            encode_columns(stock_views(data@)),
        ) && decode_batch(b) == Ok::<Seq<StockView>, ErrorView>(stock_views(data@))),
        out matches Ok(b) ==> (batch_view(b) matches Ok(c) && c.offsets.len() == data@.len() + 1
            && c.offsets[0] == 0 && (forall|i: int, j: int|
            0 <= i <= j <= data@.len() ==> c.offsets[i] <= c.offsets[j]) && c.offsets[data@.len() as int]
            == total_records(stock_views(data@)) && c.date.len() == total_records(
            stock_views(data@),
        )),
        out matches Err(e) ==> e@ is ArrowError,
{
    let ghost views = stock_views(data@);
    let c = match StockColumns::from_stocks(data) {
        Ok(c) => c,
        Err(e) => return Err(e),
    };
    if !strings_fit(&c.exchange) || !strings_fit(&c.symbol) || !strings_fit(&c.name) {
        return Err(format_error("Too many bytes for 32-bit string offsets"));
    }
    let ghost cv = c@;
    proof {
        lemma_encoded_offsets(views);
    }
    let exchange = utf8_column(c.exchange);
    let symbol = utf8_column(c.symbol);
    let name = utf8_column(c.name);
    let records = match record_fields(c.date, c.open, c.high, c.low, c.close, c.volume, c.amount) {
        Ok(r) => r,
        Err(e) => return Err(arrow_failure(&e)),
    };
    let daily = match list_column("item", false, c.offsets, records, c.validity) {
        Ok(l) => l,
        Err(e) => return Err(arrow_failure(&e)),
    };
    let batch = match assemble_batch(exchange, symbol, name, daily) {
        Ok(b) => b,
        Err(e) => return Err(arrow_failure(&e)),
    };
    proof {
        assert(batch_strings(batch, "exchange"@) == Some(cv.exchange));
        assert(batch_strings(batch, "symbol"@) == Some(cv.symbol));
        assert(batch_strings(batch, "name"@) == Some(cv.name));
        assert(batch_daily(batch) == Some((cv.offsets, cv.validity, records)));
        assert(has_record_fields(records));
        assert(columns_of(cv.exchange, cv.symbol, cv.name, cv.offsets, cv.validity, records)
            =~= cv);
        lemma_round_trip(views);
    }
    Ok(batch)
}

/// Turns a data set into the bytes of an Arrow IPC file.
///
/// The data set is refused as `stock_data_to_record_batch` refuses it.
/// Bytes that come back are Arrow's file of a batch that holds the columns
/// of the data set.
pub fn save_stock_data_to_arrow(data: &[StockData]) -> (out: Result<Vec<u8>, DataHubError>)
    ensures
        match encode_file(stock_views(data@)) {
            Ok(bytes) => out matches Ok(v) && v@ == bytes,
            Err(e) => out matches Err(x) && x@ == e,
        },
        out matches Ok(bytes) ==> (exists|b: StockBatch|
            batch_view(b) == Ok::<ColumnsView, Seq<char>>(encode_columns(stock_views(data@)))
                && #[trigger] ipc_file_of(b) == Ok::<Seq<u8>, ArrowError>(bytes@)),
        out matches Err(e) ==> e@ is ArrowError,
{
    let batch = match stock_data_to_record_batch(data) {
        Ok(b) => b,
        Err(e) => return Err(e),
    };
    match write_ipc_file(&batch) {
        Ok(bytes) => Ok(bytes),
        Err(e) => Err(arrow_failure(&e)),
    }
}

/// Whether every block that the file's footer lists is sound. The footer
/// is looked for as Arrow looks for it: its length and the text `ARROW1`
/// in the last ten bytes, the footer itself in front of them.
pub fn blocks_are_sound(data: &[u8]) -> (sound: bool)
    ensures
        sound == blocks_sound(data@),
{
    let footer = match find_footer(data) {
        Some(f) => f,
        None => return true,
    };
    let blocks = match footer_record_blocks(footer) {
        Some(b) => b,
        None => return true,
    };
    assert(file_blocks(data@) == Some(blocks@));
    let mut i: usize = 0;
    while i < blocks.len()
        invariant
            i <= blocks.len(),
            file_blocks(data@) == Some(blocks@),
            forall|k: int| 0 <= k < i ==> block_sound(#[trigger] blocks@[k], data@.len() as int),
        decreases blocks.len() - i,
    {
        if !block_is_sound(&blocks[i], data.len()) {
            proof {
                let listed = file_blocks(data@)->0;
                assert(!block_sound(listed[i as int], data@.len() as int));
            }
            return false;
        }
        i += 1;
    }
    true
}

/// Reads a data set from the bytes of an Arrow IPC file.
///
/// Fails where the file has one of the faults that keep it from being
/// handed to Arrow; with Arrow's error where Arrow cannot read the file; where the file's schema lacks a
/// column or a record field; and with the error of the first batch whose
/// columns differ in length, or whose offsets decrease or run past the
/// records.
pub fn read_stock_data_from_memory(data: &[u8]) -> (out: Result<Vec<StockData>, DataHubError>)
    ensures
        match decode_file(data@) {
            Ok(v) => out matches Ok(s) && stock_views(s@) == v,
            Err(e) => out matches Err(x) && x@ == e,
        },
        out matches Err(e) ==> e@ is ArrowError,
{
    proof {
        lemma_decode_errors(data@);
    }
    match find_fault(data) {
        Some(message) => return Err(DataHubError::ArrowError(message)),
        None => {},
    }
    let (schema, batches) = match read_ipc_file(data) {
        Ok(read) => read,
        Err(e) => return Err(arrow_failure(&e)),
    };
    match batch_to_columns(&schema) {
        Ok(_) => {},
        Err(e) => return Err(e),
    }
    let mut result: Vec<StockData> = Vec::new();
    let mut k: usize = 0;
    assert(stock_views(result@) =~= Seq::<StockView>::empty());
    while k < batches.len()
        invariant
            k <= batches.len(),
            file_fault(data@) is None,
            ipc_batches_of(data@) == Ok::<(StockBatch, Seq<StockBatch>), ArrowError>(
                (schema, batches@),
            ),
            batch_view(schema) is Ok,
            decode_batches(batches@, k as int) == Ok::<Seq<StockView>, ErrorView>(
                stock_views(result@),
            ),
        decreases batches.len() - k,
    {
        let mut stocks = match batch_to_stocks(&batches[k]) {
            Ok(s) => s,
            Err(e) => {
                proof {
                    assert(decode_batches(batches@, k + 1) == Err::<Seq<StockView>, ErrorView>(
                        e@,
                    ));
                    lemma_decode_batches_fails(batches@, k + 1, batches@.len() as int);
                }
                return Err(e);
            },
        };
        let ghost before = result@;
        let ghost added = stocks@;
        result.append(&mut stocks);
        assert(stock_views(result@) =~= stock_views(before) + stock_views(added));
        k += 1;
    }
    Ok(result)
}

/// Reads a data set from the contents of an Arrow IPC file.
pub fn read_stock_data_from_arrow(contents: &[u8]) -> (out: Result<Vec<StockData>, DataHubError>)
    ensures
        match decode_file(contents@) {
            Ok(v) => out matches Ok(s) && stock_views(s@) == v,
            Err(e) => out matches Err(x) && x@ == e,
        },
        out matches Err(e) ==> e@ is ArrowError,
{
    read_stock_data_from_memory(contents)
}

/// Every error that a file is refused with is an `ArrowError`.
pub proof fn lemma_decode_errors(bytes: Seq<u8>)
    ensures
        decode_file(bytes) matches Err(e) ==> e is ArrowError,
{
    if file_fault(bytes) is None {
        if let Ok((schema, batches)) = ipc_batches_of(bytes) {
            lemma_decode_batches_errors(batches, batches.len() as int);
        }
    }
}

/// Every error that a run of batches is refused with is an `ArrowError`.
pub proof fn lemma_decode_batches_errors(batches: Seq<StockBatch>, n: int)
    ensures
        decode_batches(batches, n) matches Err(e) ==> e is ArrowError,
    decreases n,
{
    if n > 0 {
        lemma_decode_batches_errors(batches, n - 1);
    }
}

/// Once a batch is refused, so is every run of batches that includes it.
proof fn lemma_decode_batches_fails(batches: Seq<StockBatch>, n: int, m: int)
    requires
        0 <= n <= m,
        decode_batches(batches, n) is Err,
    ensures
        decode_batches(batches, m) == decode_batches(batches, n),
    decreases m - n,
{
    if n < m {
        lemma_decode_batches_fails(batches, n, m - 1);
    }
}

} // verus!
