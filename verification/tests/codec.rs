use arrow::array::{Array, ArrayRef, Float32Array, Int32Array, Int64Array, ListArray, StringArray, StructArray};
use arrow::buffer::{NullBuffer, OffsetBuffer, ScalarBuffer};
use arrow::datatypes::{DataType, Field, Fields, Schema};
use arrow::ipc::reader::FileReader;
use arrow::ipc::writer::FileWriter;
use arrow::record_batch::RecordBatch;
use egostrategy_datahub::errors::DataHubError;
use egostrategy_datahub::models::stock::{DailyData, StockData};
use egostrategy_datahub::util::arrow_utils::{
    batch_to_columns, batch_to_stocks, blocks_are_sound, read_stock_data_from_arrow,
    read_stock_data_from_memory, save_stock_data_to_arrow, stock_data_to_record_batch,
};
use egostrategy_datahub::util::columns::StockColumns;
use egostrategy_datahub::util::ipc_check::{find_fault, find_footer, footer_length};
use std::io::Cursor;
use std::sync::Arc;

fn record(date: i32, price: f32, volume: i64) -> DailyData {
    DailyData {
        date,
        open: price.to_bits(),
        high: (price + 1.0).to_bits(),
        low: (price - 1.0).to_bits(),
        close: (price + 0.5).to_bits(),
        volume,
        amount: volume * 10,
    }
}

fn stock(exchange: &str, symbol: &str, name: &str, daily: Vec<DailyData>) -> StockData {
    StockData {
        exchange: exchange.to_string(),
        symbol: symbol.to_string(),
        name: name.to_string(),
        daily,
    }
}

fn sample() -> Vec<StockData> {
    vec![
        stock(
            "SSE",
            "600000",
            "浦发银行",
            vec![record(20240103, 10.25, 100), record(20240102, 10.0, 90)],
        ),
        stock("SZSE", "000001", "平安银行", vec![]),
        stock("SSE", "600001", "X", vec![record(20240103, 3.5, 7)]),
    ]
}

fn record_fields(with_amount: bool) -> Fields {
    let mut fields = vec![
        Field::new("date", DataType::Int32, false),
        Field::new("open", DataType::Float32, false),
        Field::new("high", DataType::Float32, false),
        Field::new("low", DataType::Float32, false),
        Field::new("close", DataType::Float32, false),
        Field::new("volume", DataType::Int64, false),
    ];
    if with_amount {
        fields.push(Field::new("amount", DataType::Int64, false));
    }
    Fields::from(fields)
}

fn file_schema(with_amount: bool) -> Schema {
    Schema::new(vec![
        Field::new("exchange", DataType::Utf8, false),
        Field::new("symbol", DataType::Utf8, false),
        Field::new("name", DataType::Utf8, false),
        Field::new(
            "daily",
            DataType::List(Arc::new(Field::new(
                "item",
                DataType::Struct(record_fields(with_amount)),
                false,
            ))),
            true,
        ),
    ])
}

/// A file of two stocks, written with Arrow alone in the layout that files
/// of this kind have.
fn arrow_file(with_amount: bool, offsets: Vec<i32>, validity: Vec<bool>) -> Vec<u8> {
    let mut children: Vec<ArrayRef> = vec![
        Arc::new(Int32Array::from(vec![20240103, 20240102, 20240103])),
        Arc::new(Float32Array::from(vec![1.5f32, 2.5, 3.5])),
        Arc::new(Float32Array::from(vec![1.75f32, 2.75, 3.75])),
        Arc::new(Float32Array::from(vec![1.25f32, 2.25, 3.25])),
        Arc::new(Float32Array::from(vec![1.6f32, 2.6, 3.6])),
        Arc::new(Int64Array::from(vec![11i64, 12, 13])),
    ];
    if with_amount {
        children.push(Arc::new(Int64Array::from(vec![21i64, 22, 23])));
    }
    let records = StructArray::try_new(record_fields(with_amount), children, None).unwrap();
    let list = ListArray::try_new(
        Arc::new(Field::new(
            "item",
            DataType::Struct(record_fields(with_amount)),
            false,
        )),
        OffsetBuffer::new(ScalarBuffer::from(offsets)),
        Arc::new(records),
        Some(NullBuffer::from(validity)),
    )
    .unwrap();
    let columns: Vec<ArrayRef> = vec![
        Arc::new(StringArray::from(vec!["SSE", "SZSE"])),
        Arc::new(StringArray::from(vec!["600000", "000001"])),
        Arc::new(StringArray::from(vec!["A", "B"])),
        Arc::new(list),
    ];
    let schema = file_schema(with_amount);
    let batch = RecordBatch::try_new(Arc::new(schema.clone()), columns).unwrap();
    let mut writer = FileWriter::try_new(Vec::new(), &schema).unwrap();
    writer.write(&batch).unwrap();
    writer.finish().unwrap();
    writer.into_inner().unwrap()
}

fn plain_record(date: i32, open: f32, high: f32, low: f32, close: f32, volume: i64, amount: i64) -> DailyData {
    DailyData {
        date,
        open: open.to_bits(),
        high: high.to_bits(),
        low: low.to_bits(),
        close: close.to_bits(),
        volume,
        amount,
    }
}

#[test]
fn file_round_trip_keeps_every_field() {
    let data = sample();
    let bytes = save_stock_data_to_arrow(&data).unwrap();
    let back = read_stock_data_from_memory(&bytes).unwrap();
    assert_eq!(back, data);
}

#[test]
fn empty_data_set_round_trips() {
    let data: Vec<StockData> = Vec::new();
    let bytes = save_stock_data_to_arrow(&data).unwrap();
    let back = read_stock_data_from_memory(&bytes).unwrap();
    assert_eq!(back, data);
}

#[test]
fn round_trip_keeps_a_history_at_the_retention_bound() {
    let mut daily = Vec::new();
    for k in 0..200 {
        daily.push(record(20240000 - k, 1.0 + k as f32, k as i64));
    }
    let data = vec![stock("SSE", "600000", "full", daily), stock("SSE", "600001", "none", vec![])];
    let bytes = save_stock_data_to_arrow(&data).unwrap();
    let back = read_stock_data_from_arrow(&bytes).unwrap();
    assert_eq!(back.len(), 2);
    assert_eq!(back[0].daily.len(), 200);
    assert_eq!(back, data);
}

#[test]
fn round_trip_keeps_price_bit_patterns() {
    let odd = DailyData {
        date: -1,
        open: 0x7fc0_0001,
        high: 0x8000_0000,
        low: 0xffff_ffff,
        close: 0x0000_0001,
        volume: i64::MIN,
        amount: i64::MAX,
    };
    let data = vec![stock("", "", "", vec![odd])];
    let bytes = save_stock_data_to_arrow(&data).unwrap();
    let back = read_stock_data_from_memory(&bytes).unwrap();
    assert_eq!(back, data);
    assert_eq!(back[0].daily[0].open, 0x7fc0_0001);
    assert_eq!(back[0].daily[0].low, 0xffff_ffff);
}

#[test]
fn batch_round_trip_gives_the_data_back() {
    let data = sample();
    let batch = stock_data_to_record_batch(&data).unwrap();
    assert_eq!(batch_to_stocks(&batch).unwrap(), data);
    let columns = batch_to_columns(&batch).unwrap();
    assert_eq!(columns, StockColumns::from_stocks(&data).unwrap());
}

#[test]
fn columns_hold_offsets_that_never_decrease() {
    let data = sample();
    let columns = StockColumns::from_stocks(&data).unwrap();
    assert_eq!(columns.offsets, vec![0, 2, 2, 3]);
    assert_eq!(columns.validity, vec![true, true, true]);
    assert_eq!(columns.exchange, vec!["SSE", "SZSE", "SSE"]);
    assert_eq!(columns.symbol, vec!["600000", "000001", "600001"]);
    assert_eq!(columns.name, vec!["浦发银行", "平安银行", "X"]);
    assert_eq!(columns.date, vec![20240103, 20240102, 20240103]);
    assert_eq!(columns.open, vec![10.25f32.to_bits(), 10.0f32.to_bits(), 3.5f32.to_bits()]);
    assert_eq!(columns.high, vec![11.25f32.to_bits(), 11.0f32.to_bits(), 4.5f32.to_bits()]);
    assert_eq!(columns.low, vec![9.25f32.to_bits(), 9.0f32.to_bits(), 2.5f32.to_bits()]);
    assert_eq!(columns.close, vec![10.75f32.to_bits(), 10.5f32.to_bits(), 4.0f32.to_bits()]);
    assert_eq!(columns.volume, vec![100, 90, 7]);
    assert_eq!(columns.amount, vec![1000, 900, 70]);
    for w in columns.offsets.windows(2) {
        assert!(w[0] <= w[1]);
    }
    assert_eq!(*columns.offsets.last().unwrap() as usize, columns.date.len());
}

#[test]
fn columns_of_no_stock_hold_one_offset() {
    let columns = StockColumns::from_stocks(&[]).unwrap();
    assert_eq!(columns.offsets, vec![0]);
    assert!(columns.validity.is_empty());
    assert!(columns.date.is_empty());
    assert_eq!(columns.to_stocks().unwrap(), Vec::<StockData>::new());
}

#[test]
fn columns_decode_to_the_stocks_they_encode() {
    let data = sample();
    let columns = StockColumns::from_stocks(&data).unwrap();
    assert_eq!(columns.to_stocks().unwrap(), data);
}

#[test]
fn columns_without_a_list_decode_to_an_empty_history() {
    let mut columns = StockColumns::from_stocks(&sample()).unwrap();
    columns.validity[0] = false;
    let back = columns.to_stocks().unwrap();
    assert!(back[0].daily.is_empty());
    assert_eq!(back[2].daily, sample()[2].daily);
}

#[test]
fn columns_of_different_lengths_are_refused() {
    let mut columns = StockColumns::from_stocks(&sample()).unwrap();
    columns.amount.pop();
    assert_eq!(
        columns.to_stocks(),
        Err(DataHubError::ArrowError("Column lengths differ".to_string()))
    );
    let mut columns = StockColumns::from_stocks(&sample()).unwrap();
    columns.offsets.pop();
    assert_eq!(
        columns.to_stocks(),
        Err(DataHubError::ArrowError("Column lengths differ".to_string()))
    );
    let mut columns = StockColumns::from_stocks(&sample()).unwrap();
    columns.name.push("extra".to_string());
    assert_eq!(
        columns.to_stocks(),
        Err(DataHubError::ArrowError("Column lengths differ".to_string()))
    );
}

#[test]
fn offsets_that_decrease_or_overrun_are_refused() {
    let bad = DataHubError::ArrowError("Invalid list offsets".to_string());
    let mut columns = StockColumns::from_stocks(&sample()).unwrap();
    columns.offsets = vec![0, 2, 1, 3];
    assert_eq!(columns.to_stocks(), Err(bad.clone()));
    columns.offsets = vec![0, 2, 2, 4];
    assert_eq!(columns.to_stocks(), Err(bad.clone()));
    columns.offsets = vec![-1, 2, 2, 3];
    assert_eq!(columns.to_stocks(), Err(bad.clone()));
    columns.offsets = vec![1, 2, 2, 3];
    let back = columns.to_stocks().unwrap();
    assert_eq!(back[0].daily.len(), 1);
    assert_eq!(back[0].daily[0].date, 20240102);
}

#[test]
fn written_file_has_the_documented_schema() {
    let bytes = save_stock_data_to_arrow(&sample()).unwrap();
    let reader = FileReader::try_new(Cursor::new(bytes), None).unwrap();
    assert_eq!(reader.schema().as_ref(), &file_schema(true));
    let batches: Vec<RecordBatch> = reader.map(|b| b.unwrap()).collect();
    assert_eq!(batches.len(), 1);
    let batch = &batches[0];
    assert_eq!(batch.num_rows(), 3);
    let symbols = batch.column(1).as_any().downcast_ref::<StringArray>().unwrap();
    assert_eq!(symbols.value(0), "600000");
    assert_eq!(symbols.value(2), "600001");
    let daily = batch.column(3).as_any().downcast_ref::<ListArray>().unwrap();
    assert_eq!(daily.value_offsets(), &[0, 2, 2, 3]);
    assert_eq!(daily.null_count(), 0);
    let records = daily.values().as_any().downcast_ref::<StructArray>().unwrap();
    let open = records.column_by_name("open").unwrap();
    let open = open.as_any().downcast_ref::<Float32Array>().unwrap();
    assert_eq!(open.value(0), 10.25);
    assert_eq!(open.value(2), 3.5);
    let amount = records.column_by_name("amount").unwrap();
    let amount = amount.as_any().downcast_ref::<Int64Array>().unwrap();
    assert_eq!(amount.value(1), 900);
}

#[test]
fn foreign_file_is_read() {
    let bytes = arrow_file(true, vec![0, 2, 3], vec![true, true]);
    let back = read_stock_data_from_memory(&bytes).unwrap();
    assert_eq!(
        back,
        vec![
            stock(
                "SSE",
                "600000",
                "A",
                vec![
                    plain_record(20240103, 1.5, 1.75, 1.25, 1.6, 11, 21),
                    plain_record(20240102, 2.5, 2.75, 2.25, 2.6, 12, 22),
                ],
            ),
            stock("SZSE", "000001", "B", vec![plain_record(20240103, 3.5, 3.75, 3.25, 3.6, 13, 23)]),
        ]
    );
}

#[test]
fn null_list_entry_reads_as_empty_history() {
    let bytes = arrow_file(true, vec![0, 2, 3], vec![false, true]);
    let back = read_stock_data_from_memory(&bytes).unwrap();
    assert!(back[0].daily.is_empty());
    assert_eq!(back[1].daily.len(), 1);
}

#[test]
fn file_without_the_amount_field_is_refused() {
    let bytes = arrow_file(false, vec![0, 2, 3], vec![true, true]);
    assert_eq!(
        read_stock_data_from_memory(&bytes),
        Err(DataHubError::ArrowError(
            "Missing required columns in daily data".to_string()
        ))
    );
    assert_eq!(
        read_stock_data_from_arrow(&bytes),
        Err(DataHubError::ArrowError(
            "Missing required columns in daily data".to_string()
        ))
    );
}

#[test]
fn file_without_a_top_level_column_is_refused() {
    let schema = Schema::new(vec![
        Field::new("exchange", DataType::Utf8, false),
        Field::new("symbol", DataType::Int32, false),
    ]);
    let columns: Vec<ArrayRef> = vec![
        Arc::new(StringArray::from(vec!["SSE"])),
        Arc::new(Int32Array::from(vec![1])),
    ];
    let batch = RecordBatch::try_new(Arc::new(schema.clone()), columns).unwrap();
    let mut writer = FileWriter::try_new(Vec::new(), &schema).unwrap();
    writer.write(&batch).unwrap();
    writer.finish().unwrap();
    let bytes = writer.into_inner().unwrap();
    assert_eq!(
        read_stock_data_from_memory(&bytes),
        Err(DataHubError::ArrowError(
            "Failed to downcast symbol column".to_string()
        ))
    );
}

#[test]
fn bytes_that_are_no_file_are_refused_with_arrows_message() {
    let junk = b"not an arrow file".to_vec();
    let expected = FileReader::try_new(Cursor::new(junk.clone()), None)
        .unwrap_err()
        .to_string();
    assert!(!expected.is_empty());
    assert_eq!(
        read_stock_data_from_memory(&junk),
        Err(DataHubError::ArrowError(expected))
    );
}

#[test]
fn file_of_several_batches_is_read_in_order() {
    let one = stock_data_to_record_batch_bytes(&sample()[0..1]);
    let two = stock_data_to_record_batch_bytes(&sample()[1..3]);
    let first = FileReader::try_new(Cursor::new(one), None).unwrap().next().unwrap().unwrap();
    let second = FileReader::try_new(Cursor::new(two), None).unwrap().next().unwrap().unwrap();
    let mut writer = FileWriter::try_new(Vec::new(), &file_schema(true)).unwrap();
    writer.write(&first).unwrap();
    writer.write(&second).unwrap();
    writer.finish().unwrap();
    let bytes = writer.into_inner().unwrap();
    assert_eq!(read_stock_data_from_memory(&bytes).unwrap(), sample());
}

fn stock_data_to_record_batch_bytes(data: &[StockData]) -> Vec<u8> {
    save_stock_data_to_arrow(data).unwrap()
}

/// A file of the given schema that holds no batch.
fn file_without_batches(schema: &Schema) -> Vec<u8> {
    let mut writer = FileWriter::try_new(Vec::new(), schema).unwrap();
    writer.finish().unwrap();
    writer.into_inner().unwrap()
}

/// The file with the first block of its footer given other lengths.
fn with_block_lengths(mut bytes: Vec<u8>, meta_len: i32, body_len: i64) -> Vec<u8> {
    let len = bytes.len();
    let footer_len = i32::from_le_bytes([
        bytes[len - 10],
        bytes[len - 9],
        bytes[len - 8],
        bytes[len - 7],
    ]) as usize;
    let start = len - 10 - footer_len;
    let (offset, meta, body) = {
        let footer = arrow::ipc::root_as_footer(&bytes[start..len - 10]).unwrap();
        let block = footer.recordBatches().unwrap().get(0);
        (block.offset(), block.metaDataLength(), block.bodyLength())
    };
    let mut pattern = Vec::new();
    pattern.extend_from_slice(&offset.to_le_bytes());
    pattern.extend_from_slice(&meta.to_le_bytes());
    let at = (start..len - 10 - 24)
        .find(|i| {
            bytes[*i..*i + 12] == pattern[..] && bytes[*i + 16..*i + 24] == body.to_le_bytes()
        })
        .unwrap();
    bytes[at + 8..at + 12].copy_from_slice(&meta_len.to_le_bytes());
    bytes[at + 16..at + 24].copy_from_slice(&body_len.to_le_bytes());
    bytes
}

#[test]
fn file_without_batches_is_the_empty_data_set() {
    let bytes = file_without_batches(&file_schema(true));
    assert_eq!(read_stock_data_from_memory(&bytes), Ok(Vec::new()));
}

#[test]
fn file_without_batches_is_still_held_to_the_schema() {
    let bytes = file_without_batches(&file_schema(false));
    assert_eq!(
        read_stock_data_from_memory(&bytes),
        Err(DataHubError::ArrowError(
            "Missing required columns in daily data".to_string()
        ))
    );
    let schema = Schema::new(vec![
        Field::new("exchange", DataType::Utf8, false),
        Field::new("symbol", DataType::Utf8, false),
        Field::new("name", DataType::Int64, false),
    ]);
    assert_eq!(
        read_stock_data_from_memory(&file_without_batches(&schema)),
        Err(DataHubError::ArrowError(
            "Failed to downcast name column".to_string()
        ))
    );
    let schema = Schema::new(vec![
        Field::new("exchange", DataType::Utf8, false),
        Field::new("symbol", DataType::Utf8, false),
        Field::new("name", DataType::Utf8, false),
        Field::new("daily", DataType::Utf8, true),
    ]);
    assert_eq!(
        read_stock_data_from_memory(&file_without_batches(&schema)),
        Err(DataHubError::ArrowError(
            "Failed to downcast daily column".to_string()
        ))
    );
}

#[test]
fn file_with_an_unsound_block_is_refused() {
    let refused = Err(DataHubError::ArrowError(
        "Invalid block in file footer".to_string(),
    ));
    let good = save_stock_data_to_arrow(&sample()).unwrap();
    assert!(blocks_are_sound(&good));
    let negative_body = with_block_lengths(good.clone(), 8, -1);
    assert!(!blocks_are_sound(&negative_body));
    assert_eq!(read_stock_data_from_memory(&negative_body), refused);
    let negative_meta = with_block_lengths(good.clone(), -8, 64);
    assert_eq!(read_stock_data_from_memory(&negative_meta), refused);
    let too_short = with_block_lengths(good.clone(), 3, 0);
    assert_eq!(read_stock_data_from_memory(&too_short), refused);
    let too_long = with_block_lengths(good.clone(), 8, good.len() as i64);
    assert_eq!(read_stock_data_from_memory(&too_long), refused);
}

#[test]
fn bytes_without_a_footer_have_no_unsound_block() {
    assert!(blocks_are_sound(b""));
    assert!(blocks_are_sound(b"123456789"));
    assert!(blocks_are_sound(b"not an arrow file"));
    assert!(blocks_are_sound(b"\xff\xff\xff\xffARROW1"));
    assert!(blocks_are_sound(b"\x40\x00\x00\x00ARROW1"));
    assert!(blocks_are_sound(b"junk\x04\x00\x00\x00ARROW1"));
    assert_eq!(
        read_stock_data_from_memory(b"\x40\x00\x00\x00ARROW1"),
        Err(DataHubError::ArrowError("Invalid footer length".to_string()))
    );
    assert_eq!(
        read_stock_data_from_memory(b"junk\xff\xff\xff\x7fARROW1"),
        Err(DataHubError::ArrowError("Invalid footer length".to_string()))
    );
    for junk in [&b""[..], b"123456789", b"\xff\xff\xff\xffARROW1", b"\x40\x00\x00\x00ARROW1", b"junk\x04\x00\x00\x00ARROW1"] {
        assert!(matches!(
            read_stock_data_from_memory(junk),
            Err(DataHubError::ArrowError(_))
        ));
    }
}

/// Where the first block of the file lies, and the lengths of its message
/// and body.
fn first_block(bytes: &[u8]) -> (usize, usize, usize) {
    let footer = find_footer(bytes).unwrap();
    let parsed = arrow::ipc::root_as_footer(footer).unwrap();
    let block = parsed.recordBatches().unwrap().get(0);
    (block.offset() as usize, block.metaDataLength() as usize, block.bodyLength() as usize)
}

/// The file with one pair of 64-bit numbers in the message of its first
/// block replaced by another.
fn with_pair_replaced(mut bytes: Vec<u8>, old: (i64, i64), new: (i64, i64)) -> Vec<u8> {
    let (offset, meta, _) = first_block(&bytes);
    let mut pattern = Vec::new();
    pattern.extend_from_slice(&old.0.to_le_bytes());
    pattern.extend_from_slice(&old.1.to_le_bytes());
    let at = (offset..=offset + meta - 16)
        .rev()
        .find(|i| bytes[*i..*i + 16] == pattern[..])
        .unwrap();
    bytes[at..at + 8].copy_from_slice(&new.0.to_le_bytes());
    bytes[at + 8..at + 16].copy_from_slice(&new.1.to_le_bytes());
    bytes
}

/// Buffers and nodes of the record batch in the first block of the file.
fn first_layout(bytes: &[u8]) -> (Vec<(i64, i64)>, Vec<(i64, i64)>) {
    let (offset, meta, body) = first_block(bytes);
    let block = &bytes[offset..offset + meta + body];
    let message = arrow::ipc::root_as_message(&block[8..]).unwrap();
    let batch = message.header_as_record_batch().unwrap();
    let buffers = batch.buffers().unwrap().iter().map(|b| (b.offset(), b.length())).collect();
    let nodes = batch.nodes().unwrap().iter().map(|n| (n.length(), n.null_count())).collect();
    (buffers, nodes)
}

fn file_of(schema: Schema, columns: Vec<ArrayRef>) -> Vec<u8> {
    let batch = RecordBatch::try_new(Arc::new(schema.clone()), columns).unwrap();
    let mut writer = FileWriter::try_new(Vec::new(), &schema).unwrap();
    writer.write(&batch).unwrap();
    writer.finish().unwrap();
    writer.into_inner().unwrap()
}

#[test]
fn written_file_has_no_fault() {
    assert_eq!(find_fault(&save_stock_data_to_arrow(&sample()).unwrap()), None);
    assert_eq!(find_fault(&save_stock_data_to_arrow(&[]).unwrap()), None);
    assert_eq!(find_fault(&arrow_file(true, vec![0, 2, 3], vec![false, true])), None);
    assert_eq!(find_fault(&arrow_file(false, vec![0, 2, 3], vec![true, true])), None);
    assert_eq!(find_fault(b"not an arrow file"), None);
    assert_eq!(find_fault(b""), None);
}

#[test]
fn footer_length_is_read_from_the_last_ten_bytes() {
    assert_eq!(footer_length(b"\x40\x00\x00\x00ARROW1"), Some(64));
    assert_eq!(footer_length(b"\x01\x02\x03\x04ARROW1"), Some(0x04030201));
    assert_eq!(footer_length(b"\xff\xff\xff\x7fARROW1"), Some(0x7fffffff));
    assert_eq!(footer_length(b"\x00\x00\x00\x80ARROW1"), None);
    assert_eq!(footer_length(b"\xff\xff\xff\xffARROW1"), None);
    assert_eq!(footer_length(b"\x40\x00\x00\x00ARROW2"), None);
    assert_eq!(footer_length(b"\x40\x00\x00\x00arrow1"), None);
    let good = save_stock_data_to_arrow(&sample()).unwrap();
    let expected = arrow::ipc::reader::read_footer_length(
        good[good.len() - 10..].try_into().unwrap(),
    )
    .unwrap();
    assert_eq!(footer_length(&good[good.len() - 10..]), Some(expected));
    assert_eq!(find_footer(&good).unwrap().len(), expected);
    assert_eq!(find_footer(b"short"), None);
    assert_eq!(find_footer(b"\x40\x00\x00\x00ARROW1"), None);
}

#[test]
fn batch_with_a_buffer_past_its_body_is_refused() {
    let refused = Err(DataHubError::ArrowError(
        "Invalid record batch in file".to_string(),
    ));
    let good = save_stock_data_to_arrow(&sample()).unwrap();
    let (_, _, body) = first_block(&good);
    let (buffers, _) = first_layout(&good);
    let last = *buffers.iter().filter(|b| b.1 > 0).last().unwrap();
    let too_long = with_pair_replaced(good.clone(), last, (last.0, body as i64 + 1));
    assert_eq!(read_stock_data_from_memory(&too_long), refused);
    let past_end = with_pair_replaced(good.clone(), last, (body as i64, last.1));
    assert_eq!(read_stock_data_from_memory(&past_end), refused);
    let negative = with_pair_replaced(good.clone(), last, (-8, last.1));
    assert_eq!(read_stock_data_from_memory(&negative), refused);
    let negative_length = with_pair_replaced(good.clone(), last, (last.0, -1));
    assert_eq!(read_stock_data_from_memory(&negative_length), refused);
    let huge = with_pair_replaced(good.clone(), last, (i64::MAX, i64::MAX));
    assert_eq!(read_stock_data_from_memory(&huge), refused);
}

#[test]
fn node_with_nulls_and_a_short_validity_buffer_is_refused() {
    let refused = Err(DataHubError::ArrowError(
        "Invalid record batch in file".to_string(),
    ));
    let good = save_stock_data_to_arrow(&sample()).unwrap();
    let (_, nodes) = first_layout(&good);
    assert_eq!(nodes[0], (3, 0));
    let stated_nulls = with_pair_replaced(good.clone(), (3, 0), (3, 1));
    assert!(matches!(
        read_stock_data_from_memory(&stated_nulls),
        Err(DataHubError::ArrowError(_))
    ));
    let long = with_pair_replaced(good.clone(), (3, 0), (i64::MAX, 1));
    assert_eq!(read_stock_data_from_memory(&long), refused);
    let negative = with_pair_replaced(good.clone(), (3, 0), (-1, -1));
    assert_eq!(read_stock_data_from_memory(&negative), refused);
    let only_length = with_pair_replaced(good, (3, 0), (4, 0));
    assert!(matches!(
        read_stock_data_from_memory(&only_length),
        Err(DataHubError::ArrowError(_))
    ));
}

#[test]
fn file_with_a_column_type_outside_the_layout_is_refused() {
    let refused = Err(DataHubError::ArrowError(
        "Unsupported column type in file schema".to_string(),
    ));
    let schema = Schema::new(vec![
        Field::new("exchange", DataType::Utf8, false),
        Field::new("flag", DataType::Boolean, false),
    ]);
    let columns: Vec<ArrayRef> = vec![
        Arc::new(StringArray::from(vec!["SSE"])),
        Arc::new(arrow::array::BooleanArray::from(vec![true])),
    ];
    assert_eq!(read_stock_data_from_memory(&file_of(schema, columns)), refused);
    let schema = Schema::new(vec![Field::new("exchange", DataType::LargeUtf8, false)]);
    assert_eq!(read_stock_data_from_memory(&file_without_batches(&schema)), refused);
    let schema = Schema::new(vec![Field::new("n", DataType::UInt32, false)]);
    assert_eq!(read_stock_data_from_memory(&file_without_batches(&schema)), refused);
    let schema = Schema::new(vec![Field::new("n", DataType::Float64, false)]);
    assert_eq!(read_stock_data_from_memory(&file_without_batches(&schema)), refused);
    let schema = Schema::new(vec![Field::new(
        "daily",
        DataType::List(Arc::new(Field::new("item", DataType::Int32, false))),
        true,
    )]);
    assert_eq!(read_stock_data_from_memory(&file_without_batches(&schema)), refused);
    let schema = Schema::new(vec![Field::new(
        "pair",
        DataType::Struct(record_fields(true)),
        true,
    )]);
    assert_eq!(read_stock_data_from_memory(&file_without_batches(&schema)), refused);
}

#[test]
fn file_with_a_dictionary_is_refused() {
    let keys = Int32Array::from(vec![0, 0]);
    let values = StringArray::from(vec!["SSE"]);
    let column = arrow::array::DictionaryArray::try_new(keys, Arc::new(values)).unwrap();
    let schema = Schema::new(vec![Field::new(
        "exchange",
        DataType::Dictionary(Box::new(DataType::Int32), Box::new(DataType::Utf8)),
        false,
    )]);
    let bytes = file_of(schema, vec![Arc::new(column)]);
    assert_eq!(
        read_stock_data_from_memory(&bytes),
        Err(DataHubError::ArrowError(
            "Unsupported dictionary in file".to_string()
        ))
    );
}

#[test]
fn file_with_more_columns_of_the_layouts_types_is_read() {
    let mut fields: Vec<Field> = file_schema(true).fields().iter().map(|f| f.as_ref().clone()).collect();
    fields.insert(0, Field::new("note", DataType::Utf8, true));
    fields.push(Field::new("rank", DataType::Int64, false));
    let schema = Schema::new(fields);
    let good = arrow_file(true, vec![0, 2, 3], vec![true, true]);
    let batch = FileReader::try_new(Cursor::new(good.clone()), None).unwrap().next().unwrap().unwrap();
    let mut columns: Vec<ArrayRef> = batch.columns().to_vec();
    columns.insert(0, Arc::new(StringArray::from(vec![Some("x"), None])));
    columns.push(Arc::new(Int64Array::from(vec![1i64, 2])));
    let bytes = file_of(schema, columns);
    assert_eq!(
        read_stock_data_from_memory(&bytes),
        read_stock_data_from_memory(&good)
    );
    assert_eq!(read_stock_data_from_memory(&bytes).unwrap().len(), 2);
}
