//! The calls into the Arrow libraries.
//!
//! Arrow's arrays and record batches are opaque here. What one holds is
//! named by the spec functions below, and each function states over those
//! names what the Arrow call in its body does. None of these statements is
//! proved: they are read off Arrow's source.
use crate::models::stock::string_views;
use arrow::array::{Array, ArrayRef};
use arrow::buffer::{Buffer, NullBuffer, OffsetBuffer, ScalarBuffer};
use arrow::datatypes::Field;
use arrow::error::ArrowError;
use arrow::ipc::reader::FileReader;
use arrow::ipc::{root_as_footer, root_as_message, Block, Buffer as IpcBuffer, FieldNode};
use crate::util::ipc_check::file_fault;
use arrow::ipc::writer::FileWriter;
use arrow::record_batch::RecordBatch;
use arrow_array::{Float32Array, Int32Array, Int64Array, ListArray, StringArray, StructArray};
use std::io::Cursor;
use std::sync::Arc;
use vstd::prelude::*;
use vstd::utf8::encode_utf8;

verus! {

#[verifier::external_type_specification]
#[verifier::external_body]
pub struct ExArrowError(ArrowError);

/// One Arrow array of any type, behind `arrow::array::ArrayRef`.
#[verifier::external_body]
pub struct Column {
    inner: ArrayRef,
}

/// One `arrow::record_batch::RecordBatch`.
#[verifier::external_body]
pub struct StockBatch {
    inner: RecordBatch,
}

/// The values of a `StringArray`, slot by slot; `None` for any other array.
pub uninterp spec fn column_strings(c: Column) -> Option<Seq<Seq<char>>>;

/// The values of an `Int32Array`; `None` for any other array.
pub uninterp spec fn column_i32s(c: Column) -> Option<Seq<i32>>;

/// The bit patterns of the values of a `Float32Array`; `None` for any other
/// array.
pub uninterp spec fn column_price_bits(c: Column) -> Option<Seq<u32>>;

/// The values of an `Int64Array`; `None` for any other array.
pub uninterp spec fn column_i64s(c: Column) -> Option<Seq<i64>>;

/// The first child of a `StructArray` whose field has the given name;
/// `None` where there is none or the array is no `StructArray`.
pub uninterp spec fn column_child(c: Column, name: Seq<char>) -> Option<Column>;

/// The offsets, the validity flags and the child array of a `ListArray`;
/// `None` for any other array.
pub uninterp spec fn column_list(c: Column) -> Option<(Seq<i32>, Seq<bool>, Column)>;

/// The number of slots of an array (`Array::len`).
pub uninterp spec fn column_len(c: Column) -> nat;

/// The number of slots that the array's null buffer marks as null
/// (`Array::null_count`).
pub uninterp spec fn column_null_count(c: Column) -> nat;

/// Whether the array may hold a null (`Array::is_nullable`).
pub uninterp spec fn column_nullable(c: Column) -> bool;

/// The arrays all have as many slots as the first.
pub open spec fn same_lengths(columns: Seq<Column>) -> bool {
    forall|i: int| 0 <= i < columns.len() ==> column_len(#[trigger] columns[i]) == column_len(
        columns[0],
    )
}

/// The first column of a record batch whose field has the given name.
pub uninterp spec fn batch_column(b: StockBatch, name: Seq<char>) -> Option<Column>;

/// The Arrow IPC file that holds one record batch.
pub uninterp spec fn ipc_file_of(b: StockBatch) -> Result<Seq<u8>, ArrowError>;

/// What Arrow reads from an IPC file: an empty batch of the file's schema
/// and the record batches of the file in file order, or its first error.
pub uninterp spec fn ipc_batches_of(bytes: Seq<u8>) -> Result<
    (StockBatch, Seq<StockBatch>),
    ArrowError,
>;

/// Where a block of an IPC file lies, as the file's footer says: the offset
/// of the block, the length of its message and the length of its body.
#[derive(Clone, Copy, Debug, PartialEq, Eq, Structural)]
pub struct BlockSpan {
    pub offset: i64,
    pub meta_len: i32,
    pub body_len: i64,
}

/// The record-batch blocks that a footer lists; `None` where the bytes are
/// no footer or list no record batches.
pub uninterp spec fn footer_record_blocks_of(footer: Seq<u8>) -> Option<Seq<BlockSpan>>;

/// The dictionary blocks that a footer lists, none where it has no such
/// list; `None` where the bytes are no footer.
pub uninterp spec fn footer_dictionary_blocks_of(footer: Seq<u8>) -> Option<Seq<BlockSpan>>;

/// A field of a file's schema as the footer writes it: the code of its
/// type, width and signedness where the type is an integer, the precision
/// where it is a floating-point number, whether it is dictionary encoded,
/// and the number of its children.
#[derive(Clone, Copy, Debug, PartialEq, Eq, Structural)]
pub struct FieldShape {
    pub type_code: u8,
    pub bit_width: i32,
    pub signed: bool,
    pub precision: i16,
    pub encoded: bool,
    pub children: usize,
}

/// The fields that a footer's schema has at a path: the top-level fields
/// for the empty path, else the children of the field that the path leads
/// to, one index per level. `None` where the bytes are no footer, have no
/// schema, or the path leads nowhere.
pub uninterp spec fn footer_fields_of(footer: Seq<u8>, path: Seq<usize>) -> Option<
    Seq<FieldShape>,
>;

/// Length and null count of one field node of a record batch message.
#[derive(Clone, Copy, Debug, PartialEq, Eq, Structural)]
pub struct NodeSpan {
    pub length: i64,
    pub null_count: i64,
}

/// Offset and length of one buffer of a record batch message, within the
/// body of its block.
#[derive(Clone, Copy, Debug, PartialEq, Eq, Structural)]
pub struct BufferSpan {
    pub offset: i64,
    pub length: i64,
}

/// What a record batch message lists: whether its body is compressed, its
/// field nodes and its buffers.
#[derive(Clone, Debug, PartialEq, Eq)]
pub struct BatchLayout {
    pub compressed: bool,
    pub nodes: Vec<NodeSpan>,
    pub buffers: Vec<BufferSpan>,
}

/// The layout that a message states; `None` where the bytes are no message,
/// the message is no record batch, or it lists no nodes or no buffers.
pub uninterp spec fn message_layout_of(message: Seq<u8>) -> Option<BatchLayout>;

/// The number that four bytes write as a signed 32-bit integer, lowest
/// byte first.
pub open spec fn le_i32(b: Seq<u8>) -> int {
    let u = b[0] as int + 256 * (b[1] as int) + 65536 * (b[2] as int) + 16777216 * (b[3] as int);
    if u >= 0x8000_0000 {
        u - 0x1_0000_0000
    } else {
        u
    }
}

/// The length of the footer that the last ten bytes of an IPC file state:
/// four bytes of length, then the text `ARROW1`. `None` where the text is
/// another or the length is negative.
pub open spec fn footer_length_of(tail: Seq<u8>) -> Option<usize> {
    if tail.len() == 10 && tail.subrange(4, 10) == seq![65u8, 82u8, 82u8, 79u8, 87u8, 49u8]
        && le_i32(tail) >= 0 {
        Some(le_i32(tail) as usize)
    } else {
        None
    }
}

/// The footer of an IPC file, found as Arrow finds it: its length and the
/// text `ARROW1` in the last ten bytes, the footer in front of them.
pub open spec fn file_footer(bytes: Seq<u8>) -> Option<Seq<u8>> {
    if bytes.len() < 10 {
        None
    } else {
        match footer_length_of(bytes.subrange(bytes.len() - 10, bytes.len() as int)) {
            None => None,
            Some(n) => if n > bytes.len() - 10 {
                None
            } else {
                Some(bytes.subrange(bytes.len() - 10 - n, bytes.len() - 10))
            },
        }
    }
}

/// The record-batch blocks that the footer of an IPC file lists; `None`
/// where Arrow finds no footer in the file.
pub open spec fn file_blocks(bytes: Seq<u8>) -> Option<Seq<BlockSpan>> {
    if bytes.len() < 10 {
        None
    } else {
        match footer_length_of(bytes.subrange(bytes.len() - 10, bytes.len() as int)) {
            None => None,
            Some(n) => if n > bytes.len() - 10 {
                None
            } else {
                footer_record_blocks_of(bytes.subrange(bytes.len() - 10 - n, bytes.len() - 10))
            },
        }
    }
}

/// The block lies within a file of `len` bytes and holds at least the
/// eight bytes that every message starts with.
pub open spec fn block_sound(b: BlockSpan, len: int) -> bool {
    &&& b.offset >= 0
    &&& b.meta_len >= 0
    &&& b.body_len >= 0
    &&& b.meta_len + b.body_len >= 8
    &&& b.offset + b.meta_len + b.body_len <= len
}

/// Every block that the file's footer lists is sound.
pub open spec fn blocks_sound(bytes: Seq<u8>) -> bool {
    match file_blocks(bytes) {
        Some(blocks) => forall|i: int|
            0 <= i < blocks.len() ==> block_sound(#[trigger] blocks[i], bytes.len() as int),
        None => true,
    }
}

/// The text that Arrow prints for an error.
pub uninterp spec fn arrow_error_message(e: ArrowError) -> Seq<char>;

/// The `StringArray` that Arrow makes of these strings.
pub uninterp spec fn utf8_array_of(values: Seq<Seq<char>>) -> Column;

/// The `Int32Array` that Arrow makes of these values.
pub uninterp spec fn i32_array_of(values: Seq<i32>) -> Column;

/// The `Float32Array` that Arrow makes of the numbers with these bits.
pub uninterp spec fn price_array_of(bits: Seq<u32>) -> Column;

/// The `Int64Array` that Arrow makes of these values.
pub uninterp spec fn i64_array_of(values: Seq<i64>) -> Column;

/// The `StructArray` that Arrow makes of named arrays, or its error.
pub uninterp spec fn struct_array_of(names: Seq<Seq<char>>, columns: Seq<Column>) -> Result<
    Column,
    ArrowError,
>;

/// The `ListArray` that Arrow makes of an item field, offsets, a child
/// array and validity flags, or its error.
pub uninterp spec fn list_array_of(
    item_name: Seq<char>,
    item_nullable: bool,
    offsets: Seq<i32>,
    values: Column,
    validity: Seq<bool>,
) -> Result<Column, ArrowError>;

/// The `RecordBatch` that Arrow makes of named arrays and their
/// nullability, or its error.
pub uninterp spec fn record_batch_of(
    names: Seq<Seq<char>>,
    nullable: Seq<bool>,
    columns: Seq<Column>,
) -> Result<StockBatch, ArrowError>;

/// How many bytes the texts take together in UTF-8.
pub open spec fn total_utf8_len(values: Seq<Seq<char>>) -> int
    decreases values.len(),
{
    if values.len() == 0 {
        0
    } else {
        total_utf8_len(values.drop_last()) + encode_utf8(values.last()).len()
    }
}

/// No earlier name in the list is the name at `i`.
pub open spec fn first_named(names: Seq<Seq<char>>, i: int) -> bool {
    forall|j: int| 0 <= j < i ==> names[j] != names[i]
}

/// `StringArray::from(Vec<String>)`: an array of these strings, without a
/// null buffer.
/// Arrow panics where the strings take more bytes than a 32-bit offset can
/// count.
#[verifier::external_body]
pub(crate) fn utf8_column(values: Vec<String>) -> (c: Column)
    requires
        total_utf8_len(string_views(values@)) <= i32::MAX,
    ensures
        c == utf8_array_of(string_views(values@)),
        column_len(c) == string_views(values@).len(),
        column_null_count(c) == 0,
        !column_nullable(c),
        column_strings(c) == Some(string_views(values@)),
{
    Column { inner: Arc::new(StringArray::from(values)) }
}

/// `Int32Array::from(Vec<i32>)`: an array of these values, without a null
/// buffer.
#[verifier::external_body]
pub(crate) fn i32_column(values: Vec<i32>) -> (c: Column)
    ensures
        c == i32_array_of(values@),
        column_len(c) == values@.len(),
        column_null_count(c) == 0,
        !column_nullable(c),
        column_i32s(c) == Some(values@),
{
    Column { inner: Arc::new(Int32Array::from(values)) }
}

/// `Float32Array::new` over a buffer of these bit patterns: an array of the
/// single-precision numbers with these bits, none null.
#[verifier::external_body]
pub(crate) fn price_column(bits: Vec<u32>) -> (c: Column)
    ensures
        c == price_array_of(bits@),
        column_len(c) == bits@.len(),
        column_null_count(c) == 0,
        !column_nullable(c),
        column_price_bits(c) == Some(bits@),
{
    Column { inner: Arc::new(Float32Array::new(ScalarBuffer::from(Buffer::from_vec(bits)), None)) }
}

/// `Int64Array::from(Vec<i64>)`: an array of these values, without a null
/// buffer.
#[verifier::external_body]
pub(crate) fn i64_column(values: Vec<i64>) -> (c: Column)
    ensures
        c == i64_array_of(values@),
        column_len(c) == values@.len(),
        column_null_count(c) == 0,
        !column_nullable(c),
        column_i64s(c) == Some(values@),
{
    Column { inner: Arc::new(Int64Array::from(values)) }
}

/// `StructArray::try_from(Vec<(&str, ArrayRef)>)`: a struct array with one
/// field per name, typed after its array and nullable as its array is.
/// Arrow accepts at least one array where all are of one length and none
/// may hold a null. The struct array then has that length and no null
/// buffer, and looking a name up gives the array that came with its first
/// occurrence.
#[verifier::external_body]
pub(crate) fn struct_column(names: &Vec<String>, columns: Vec<Column>) -> (r: Result<
    Column,
    ArrowError,
>)
    requires
        names@.len() == columns@.len(),
    ensures
        r == struct_array_of(string_views(names@), columns@),
        columns@.len() > 0 && same_lengths(columns@) && (forall|i: int|
            0 <= i < columns@.len() ==> !column_nullable(#[trigger] columns@[i])) ==> r is Ok,
        r matches Ok(c) ==> columns@.len() > 0 && column_len(c) == column_len(columns@[0])
            && column_null_count(c) == 0 && !column_nullable(c),
        r matches Ok(c) ==> forall|i: int|
            0 <= i < names@.len() && first_named(string_views(names@), i) ==> column_child(
                c,
                #[trigger] names@[i]@,
            ) == Some(columns@[i]),
{
    let parts: Vec<(&str, ArrayRef)> =
        names.iter().map(|n| n.as_str()).zip(columns.into_iter().map(|c| c.inner)).collect();
    StructArray::try_from(parts).map(|a| Column { inner: Arc::new(a) })
}

/// `ListArray::try_new`: a list array over the child array, with an item
/// field typed after it. Arrow accepts the parts where the last offset is
/// within the child, there is a flag for every list, and the item field is
/// nullable or the child may hold no null. The array then has these
/// offsets, flags and child, one slot for each flag, and no null where
/// every flag is set. `OffsetBuffer::new` panics on offsets that are empty,
/// start below zero or decrease.
#[verifier::external_body]
pub(crate) fn list_column(
    item_name: &str,
    item_nullable: bool,
    offsets: Vec<i32>,
    values: Column,
    validity: Vec<bool>,
) -> (r: Result<Column, ArrowError>)
    requires
        offsets@.len() > 0,
        offsets@[0] >= 0,
        forall|i: int, j: int| 0 <= i <= j < offsets@.len() ==> offsets@[i] <= offsets@[j],
    ensures
        r == list_array_of(item_name@, item_nullable, offsets@, values, validity@),
        offsets@.last() <= column_len(values) && validity@.len() == offsets@.len() - 1 && (
        item_nullable || !column_nullable(values)) ==> r is Ok,
        r matches Ok(c) ==> column_list(c) == Some((offsets@, validity@, values)),
        r matches Ok(c) ==> column_len(c) == validity@.len() && ((forall|i: int|
            0 <= i < validity@.len() ==> validity@[i]) ==> column_null_count(c) == 0),
{
    let field = Arc::new(Field::new(item_name, values.inner.data_type().clone(), item_nullable));
    let offsets = OffsetBuffer::new(ScalarBuffer::from(offsets));
    let nulls = Some(NullBuffer::from(validity));
    ListArray::try_new(field, offsets, values.inner, nulls).map(|a| Column { inner: Arc::new(a) })
}

/// `RecordBatch::try_from_iter_with_nullable`: a record batch with one
/// field per name, typed after its array. Arrow accepts at least one array
/// where all are of one length and every array of a field that is not
/// nullable has no null. Looking a name up then gives the array that came
/// with its first occurrence.
#[verifier::external_body]
pub(crate) fn record_batch(names: &Vec<String>, nullable: &Vec<bool>, columns: Vec<Column>) -> (r:
    Result<StockBatch, ArrowError>)
    requires
        names@.len() == columns@.len(),
        nullable@.len() == columns@.len(),
    ensures
        r == record_batch_of(string_views(names@), nullable@, columns@),
        columns@.len() > 0 && same_lengths(columns@) && (forall|i: int|
            0 <= i < columns@.len() ==> nullable@[i] || column_null_count(#[trigger] columns@[i])
                == 0) ==> r is Ok,
        r matches Ok(b) ==> forall|i: int|
            0 <= i < names@.len() && first_named(string_views(names@), i) ==> batch_column(
                b,
                #[trigger] names@[i]@,
            ) == Some(columns@[i]),
{
    let parts = names.iter().zip(columns).zip(nullable.iter()).map(
        |((n, c), x)| (n.as_str(), c.inner, *x),
    );
    RecordBatch::try_from_iter_with_nullable(parts).map(|inner| StockBatch { inner })
}

/// `FileWriter` over a byte vector: `try_new` with the batch's schema,
/// `write`, `finish`, `into_inner`. The bytes are the IPC file of the batch.
#[verifier::external_body]
pub(crate) fn write_ipc_file(batch: &StockBatch) -> (r: Result<Vec<u8>, ArrowError>)
    ensures
        match (r, ipc_file_of(*batch)) {
            (Ok(v), Ok(s)) => v@ == s,
            (Err(e), Err(f)) => e == f,
            _ => false,
        },
{
    let mut writer = FileWriter::try_new(Vec::new(), &batch.inner.schema())?;
    writer.write(&batch.inner)?;
    writer.finish()?;
    writer.into_inner()
}

/// `arrow::ipc::root_as_footer`, then `Footer::recordBatches`, each block
/// by `offset`, `metaDataLength` and `bodyLength`.
#[verifier::external_body]
pub(crate) fn footer_record_blocks(footer: &[u8]) -> (r: Option<Vec<BlockSpan>>)
    ensures
        match (r, footer_record_blocks_of(footer@)) {
            (Some(v), Some(s)) => v@ == s,
            (None, None) => true,
            _ => false,
        },
{
    let parsed = root_as_footer(footer).ok()?;
    let span = |b: &Block| BlockSpan {
        offset: b.offset(),
        meta_len: b.metaDataLength(),
        body_len: b.bodyLength(),
    };
    Some(parsed.recordBatches()?.iter().map(span).collect())
}

/// `arrow::ipc::root_as_footer`, then `Footer::dictionaries`, each block by
/// `offset`, `metaDataLength` and `bodyLength`.
#[verifier::external_body]
pub(crate) fn footer_dictionary_blocks(footer: &[u8]) -> (r: Option<Vec<BlockSpan>>)
    ensures
        match (r, footer_dictionary_blocks_of(footer@)) {
            (Some(v), Some(s)) => v@ == s,
            (None, None) => true,
            _ => false,
        },
{
    let parsed = root_as_footer(footer).ok()?;
    let span = |b: &Block| BlockSpan {
        offset: b.offset(),
        meta_len: b.metaDataLength(),
        body_len: b.bodyLength(),
    };
    Some(parsed.dictionaries().into_iter().flatten().map(span).collect())
}

/// `arrow::ipc::root_as_footer`, then `Footer::schema`, `Schema::fields`
/// and `Field::children` along the path, each field by `type_type`,
/// `type_as_int`, `type_as_floating_point`, `dictionary` and `children`.
#[verifier::external_body]
pub(crate) fn footer_fields(footer: &[u8], path: &Vec<usize>) -> (r: Option<Vec<FieldShape>>)
    ensures
        match (r, footer_fields_of(footer@, path@)) {
            (Some(v), Some(s)) => v@ == s,
            (None, None) => true,
            _ => false,
        },
{
    let parsed = root_as_footer(footer).ok()?;
    let mut fields = parsed.schema()?.fields()?;
    for i in path {
        fields = fields.iter().nth(*i)?.children()?;
    }
    Some(fields.iter().map(|f| FieldShape {
        type_code: f.type_type().0,
        bit_width: f.type_as_int().map_or(0, |t| t.bitWidth()),
        signed: f.type_as_int().is_some_and(|t| t.is_signed()),
        precision: f.type_as_floating_point().map_or(0, |t| t.precision().0),
        encoded: f.dictionary().is_some(),
        children: f.children().map_or(0, |c| c.len()),
    }).collect())
}

/// `arrow::ipc::root_as_message`, then `Message::header_as_record_batch`
/// with `compression`, `nodes` and `buffers`, each node by `length` and
/// `null_count`, each buffer by `offset` and `length`.
#[verifier::external_body]
pub(crate) fn message_layout(message: &[u8]) -> (r: Option<BatchLayout>)
    ensures
        r == message_layout_of(message@),
{
    let batch = root_as_message(message).ok()?.header_as_record_batch()?;
    let node = |n: &FieldNode| NodeSpan { length: n.length(), null_count: n.null_count() };
    let buffer = |b: &IpcBuffer| BufferSpan { offset: b.offset(), length: b.length() };
    Some(BatchLayout {
        compressed: batch.compression().is_some(),
        nodes: batch.nodes()?.iter().map(node).collect(),
        buffers: batch.buffers()?.iter().map(buffer).collect(),
    })
}

/// `FileReader::try_new` over the bytes, `RecordBatch::new_empty` of its
/// schema, and the reader read to its end: an empty batch of the file's
/// schema and the batches of the file in file order, or the first error.
///
/// Arrow panics on a block of negative length or too short for a message,
/// on a buffer that does not lie within the body of its block, and on a
/// validity buffer that is shorter than its node's length asks, and it sets
/// aside as much memory as the footer length says before it looks for the
/// footer; what it does with dictionaries, compressed bodies and the column
/// types that the stock layout never uses was not followed. So the file has
/// to be free of all of these faults.
#[verifier::external_body]
pub(crate) fn read_ipc_file(data: &[u8]) -> (r: Result<(StockBatch, Vec<StockBatch>), ArrowError>)
    requires
        file_fault(data@) is None,
    ensures
        match (r, ipc_batches_of(data@)) {
            (Ok(v), Ok(s)) => v.0 == s.0 && v.1@ == s.1,
            (Err(e), Err(f)) => e == f,
            _ => false,
        },
{
    let reader = FileReader::try_new(Cursor::new(data), None)?;
    let empty = StockBatch { inner: RecordBatch::new_empty(reader.schema()) };
    let batches: Result<Vec<StockBatch>, ArrowError> =
        reader.map(|b| b.map(|inner| StockBatch { inner })).collect();
    Ok((empty, batches?))
}

/// `RecordBatch::column_by_name`.
#[verifier::external_body]
pub(crate) fn batch_column_by_name(b: &StockBatch, name: &str) -> (r: Option<Column>)
    ensures
        r == batch_column(*b, name@),
{
    b.inner.column_by_name(name).map(|a| Column { inner: a.clone() })
}

/// `StructArray::column_by_name`, after a downcast to `StructArray`.
#[verifier::external_body]
pub(crate) fn struct_child(c: &Column, name: &str) -> (r: Option<Column>)
    ensures
        r == column_child(*c, name@),
{
    let s = c.inner.as_any().downcast_ref::<StructArray>()?;
    s.column_by_name(name).map(|a| Column { inner: a.clone() })
}

/// `ListArray::value_offsets`, `is_valid` for each slot and `values`, after
/// a downcast to `ListArray`.
#[verifier::external_body]
pub(crate) fn list_parts(c: &Column) -> (r: Option<(Vec<i32>, Vec<bool>, Column)>)
    ensures
        match (r, column_list(*c)) {
            (Some(p), Some(q)) => p.0@ == q.0 && p.1@ == q.1 && p.2 == q.2,
            (None, None) => true,
            _ => false,
        },
{
    let l = c.inner.as_any().downcast_ref::<ListArray>()?;
    let valid = (0..l.len()).map(|i| l.is_valid(i)).collect();
    Some((l.value_offsets().to_vec(), valid, Column { inner: l.values().clone() }))
}

/// `StringArray::value` for each slot, after a downcast to `StringArray`.
#[verifier::external_body]
pub(crate) fn column_as_strings(c: &Column) -> (r: Option<Vec<String>>)
    ensures
        match (r, column_strings(*c)) {
            (Some(v), Some(s)) => string_views(v@) == s,
            (None, None) => true,
            _ => false,
        },
{
    let a = c.inner.as_any().downcast_ref::<StringArray>()?;
    Some((0..a.len()).map(|i| a.value(i).to_string()).collect())
}

/// `Int32Array::values`, after a downcast to `Int32Array`.
#[verifier::external_body]
pub(crate) fn column_as_i32s(c: &Column) -> (r: Option<Vec<i32>>)
    ensures
        match (r, column_i32s(*c)) {
            (Some(v), Some(s)) => v@ == s,
            (None, None) => true,
            _ => false,
        },
{
    c.inner.as_any().downcast_ref::<Int32Array>().map(|a| a.values().to_vec())
}

/// `Float32Array::values`, read as bit patterns, after a downcast to
/// `Float32Array`.
#[verifier::external_body]
pub(crate) fn column_as_price_bits(c: &Column) -> (r: Option<Vec<u32>>)
    ensures
        match (r, column_price_bits(*c)) {
            (Some(v), Some(s)) => v@ == s,
            (None, None) => true,
            _ => false,
        },
{
    let a = c.inner.as_any().downcast_ref::<Float32Array>()?;
    Some(a.values().iter().map(|x| x.to_bits()).collect())
}

/// `Int64Array::values`, after a downcast to `Int64Array`.
#[verifier::external_body]
pub(crate) fn column_as_i64s(c: &Column) -> (r: Option<Vec<i64>>)
    ensures
        match (r, column_i64s(*c)) {
            (Some(v), Some(s)) => v@ == s,
            (None, None) => true,
            _ => false,
        },
{
    c.inner.as_any().downcast_ref::<Int64Array>().map(|a| a.values().to_vec())
}

/// `ArrowError`'s `to_string`.
#[verifier::external_body]
pub(crate) fn arrow_error_text(e: &ArrowError) -> (r: String)
    ensures
        r@ == arrow_error_message(*e),
{
    e.to_string()
}

} // verus!
