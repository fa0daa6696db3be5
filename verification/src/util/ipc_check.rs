//! What is checked of the bytes of an IPC file before Arrow reads them.
//!
//! Arrow's reader trusts some numbers that a file states about itself. A
//! file is therefore held to the following before it is handed on: the
//! blocks that its footer lists lie within the file and hold a message; it
//! has no dictionaries; its schema uses only the column types of the stock
//! layout; and each record batch states buffers that lie within the body of
//! its block, and validity buffers that are long enough for their nodes.
use crate::util::arrow_bridge::{
    block_sound, file_blocks, file_footer, footer_dictionary_blocks,
    footer_dictionary_blocks_of, footer_fields, footer_fields_of, footer_length_of,
    footer_record_blocks, footer_record_blocks_of, message_layout, message_layout_of,
    BatchLayout, BlockSpan, BufferSpan, FieldShape,
};
use vstd::prelude::*;
use vstd::slice::slice_subrange;
use vstd::string::StringExecFns;

verus! {

/// The field is a column of text, of 32-bit or 64-bit signed integers, or
/// of single-precision numbers, without dictionary and without children.
pub open spec fn is_leaf(f: FieldShape) -> bool {
    &&& !f.encoded
    &&& f.children == 0
    &&& (f.type_code == 5 || (f.type_code == 2 && f.signed && (f.bit_width == 32 || f.bit_width
        == 64)) || (f.type_code == 3 && f.precision == 1))
}

/// The number of buffers that a record batch holds for a leaf: validity,
/// offsets and bytes for text, validity and values for numbers.
pub open spec fn leaf_buffers(f: FieldShape) -> u8 {
    if f.type_code == 5 {
        3u8
    } else {
        2u8
    }
}

/// The numbers of buffers of the first `n` fields, where all are leaves.
pub open spec fn leaves_plan(fields: Seq<FieldShape>, n: int) -> Option<Seq<u8>>
    decreases n,
{
    if n <= 0 {
        Some(Seq::empty())
    } else {
        match leaves_plan(fields, n - 1) {
            Some(p) => if is_leaf(fields[n - 1]) {
                Some(p.push(leaf_buffers(fields[n - 1])))
            } else {
                None
            },
            None => None,
        }
    }
}

/// The field is a list, without dictionary, with one child.
pub open spec fn is_list(f: FieldShape) -> bool {
    f.type_code == 12 && !f.encoded && f.children == 1
}

/// The field is a struct without dictionary.
pub open spec fn is_struct(f: FieldShape) -> bool {
    f.type_code == 13 && !f.encoded
}

/// The numbers of buffers of the nodes of top-level field `i`, in the
/// order of the nodes: one number for a leaf; for a list of structs of
/// leaves two for the list, one for the struct, then those of the leaves.
/// `None` for every other field.
pub open spec fn field_plan(footer: Seq<u8>, i: int, f: FieldShape) -> Option<Seq<u8>> {
    if is_leaf(f) {
        Some(seq![leaf_buffers(f)])
    } else if is_list(f) {
        match footer_fields_of(footer, seq![i as usize]) {
            Some(items) => if items.len() == 1 && is_struct(items[0]) {
                match footer_fields_of(footer, seq![i as usize, 0usize]) {
                    Some(inner) => match leaves_plan(inner, inner.len() as int) {
                        Some(p) => Some(seq![2u8, 1u8] + p),
                        None => None,
                    },
                    None => None,
                }
            } else {
                None
            },
            None => None,
        }
    } else {
        None
    }
}

/// The numbers of buffers of the nodes of the first `n` top-level fields;
/// `None` where one of them is of a type that the stock layout never uses.
pub open spec fn schema_plan(footer: Seq<u8>, fields: Seq<FieldShape>, n: int) -> Option<
    Seq<u8>,
>
    decreases n,
{
    if n <= 0 {
        Some(Seq::empty())
    } else {
        match schema_plan(footer, fields, n - 1) {
            Some(p) => match field_plan(footer, n - 1, fields[n - 1]) {
                Some(q) => Some(p + q),
                None => None,
            },
            None => None,
        }
    }
}

/// The place of the first buffer of node `t`.
pub open spec fn first_buffer(plan: Seq<u8>, t: int) -> int
    decreases t,
{
    if t <= 0 {
        0
    } else {
        first_buffer(plan, t - 1) + plan[t - 1]
    }
}

/// The buffer lies within a body of `body_len` bytes.
pub open spec fn buffer_within(b: BufferSpan, body_len: int) -> bool {
    b.offset >= 0 && b.length >= 0 && b.offset + b.length <= body_len
}

/// Node `t`, where the batch lists all its buffers and states nulls, has a
/// length that is not negative and a validity buffer with a bit for every
/// slot.
pub open spec fn node_fits(plan: Seq<u8>, layout: BatchLayout, t: int) -> bool {
    let first = first_buffer(plan, t);
    plan[t] > 0 && first + plan[t] <= layout.buffers@.len() && layout.nodes@[t].null_count != 0
        ==> 0 <= layout.nodes@[t].length <= 8 * layout.buffers@[first].length
}

/// The record batch can be handed to Arrow: it is not compressed, its
/// buffers lie within the body, and its nodes fit.
pub open spec fn layout_ok(plan: Seq<u8>, layout: BatchLayout, body_len: int) -> bool {
    &&& !layout.compressed
    &&& forall|i: int|
        0 <= i < layout.buffers@.len() ==> buffer_within(#[trigger] layout.buffers@[i], body_len)
    &&& forall|t: int|
        0 <= t < plan.len() && t < layout.nodes@.len() ==> #[trigger] node_fits(plan, layout, t)
}

/// Where the message of a block starts: behind four bytes of length, or
/// behind eight where the first four are the continuation marker.
pub open spec fn message_start(block: Seq<u8>) -> int {
    if block[0] == 255 && block[1] == 255 && block[2] == 255 && block[3] == 255 {
        8
    } else {
        4
    }
}

/// The bytes of a sound block from the start of its message on.
pub open spec fn block_message(bytes: Seq<u8>, b: BlockSpan) -> Seq<u8> {
    let block = bytes.subrange(b.offset as int, b.offset + b.meta_len + b.body_len);
    block.subrange(message_start(block), block.len() as int)
}

/// The block holds no record batch, or one that can be handed to Arrow.
pub open spec fn block_ok(bytes: Seq<u8>, plan: Seq<u8>, b: BlockSpan) -> bool {
    match message_layout_of(block_message(bytes, b)) {
        None => true,
        Some(layout) => layout_ok(plan, layout, b.body_len as int),
    }
}

/// Every block lies within a file of `len` bytes and holds a message.
pub open spec fn all_sound(blocks: Seq<BlockSpan>, len: int) -> bool {
    forall|i: int| 0 <= i < blocks.len() ==> block_sound(#[trigger] blocks[i], len)
}

/// Every block holds no record batch, or one that can be handed to Arrow.
pub open spec fn all_ok(bytes: Seq<u8>, plan: Seq<u8>, blocks: Seq<BlockSpan>) -> bool {
    forall|i: int| 0 <= i < blocks.len() ==> block_ok(bytes, plan, #[trigger] blocks[i])
}

/// The fault of a file's schema or of one of its record batches.
pub open spec fn schema_fault(bytes: Seq<u8>, footer: Seq<u8>, blocks: Seq<BlockSpan>) -> Option<
    Seq<char>,
> {
    match footer_fields_of(footer, Seq::empty()) {
        None => None,
        Some(fields) => match schema_plan(footer, fields, fields.len() as int) {
            None => Some("Unsupported column type in file schema"@),
            Some(plan) => if all_ok(bytes, plan, blocks) {
                None
            } else {
                Some("Invalid record batch in file"@)
            },
        },
    }
}

/// The fault of a file whose footer lists these record-batch blocks.
pub open spec fn blocks_fault(bytes: Seq<u8>, footer: Seq<u8>, blocks: Seq<BlockSpan>) -> Option<
    Seq<char>,
> {
    if !all_sound(blocks, bytes.len() as int) {
        Some("Invalid block in file footer"@)
    } else if footer_dictionary_blocks_of(footer) matches Some(d) && d.len() > 0 {
        Some("Unsupported dictionary in file"@)
    } else {
        schema_fault(bytes, footer, blocks)
    }
}

/// The last ten bytes state a footer that is longer than the rest of the
/// file. Arrow would set that much memory aside before it finds out.
pub open spec fn footer_overruns(bytes: Seq<u8>) -> bool {
    bytes.len() >= 10 && (footer_length_of(
        bytes.subrange(bytes.len() - 10, bytes.len() as int),
    ) matches Some(n) && n > bytes.len() - 10)
}

/// The message of the first fault that keeps a file from being handed to
/// Arrow; `None` where there is none. A file in which Arrow finds no
/// footer, no list of record batches or no schema has no fault: Arrow
/// refuses it before it reads further.
pub open spec fn file_fault(bytes: Seq<u8>) -> Option<Seq<char>> {
    match file_footer(bytes) {
        None => if footer_overruns(bytes) {
            Some("Invalid footer length"@)
        } else {
            None
        },
        Some(footer) => match footer_record_blocks_of(footer) {
            None => None,
            Some(blocks) => blocks_fault(bytes, footer, blocks),
        },
    }
}

/// The footer length that the last ten bytes of a file state.
pub fn footer_length(tail: &[u8]) -> (r: Option<usize>)
    requires
        tail@.len() == 10,
    ensures
        r == footer_length_of(tail@),
{
    let ghost magic = seq![65u8, 82u8, 82u8, 79u8, 87u8, 49u8];
    if tail[4] != 65 || tail[5] != 82 || tail[6] != 82 || tail[7] != 79 || tail[8] != 87
        || tail[9] != 49 {
        proof {
            let end = tail@.subrange(4, 10);
            assert(end[0] == tail@[4] && end[1] == tail@[5] && end[2] == tail@[6] && end[3]
                == tail@[7] && end[4] == tail@[8] && end[5] == tail@[9]);
            assert(magic[0] == 65 && magic[1] == 82 && magic[2] == 82 && magic[3] == 79
                && magic[4] == 87 && magic[5] == 49);
        }
        return None;
    }
    assert(tail@.subrange(4, 10) =~= magic);
    let u: u64 = tail[0] as u64 + 256 * (tail[1] as u64) + 65536 * (tail[2] as u64) + 16777216
        * (tail[3] as u64);
    if u >= 0x8000_0000 {
        None
    } else {
        Some(u as usize)
    }
}

/// The footer of the file, found as Arrow finds it.
pub fn find_footer(data: &[u8]) -> (r: Option<&[u8]>)
    ensures
        match file_footer(data@) {
            Some(f) => r matches Some(x) && x@ == f,
            None => r is None,
        },
{
    let len = data.len();
    if len < 10 {
        return None;
    }
    let tail = slice_subrange(data, len - 10, len);
    match footer_length(tail) {
        Some(n) => {
            if n > len - 10 {
                None
            } else {
                Some(slice_subrange(data, len - 10 - n, len - 10))
            }
        },
        None => None,
    }
}

/// Whether the block lies within a file of `len` bytes and holds at least
/// the eight bytes that every message starts with.
pub fn block_is_sound(b: &BlockSpan, len: usize) -> (sound: bool)
    ensures
        sound == block_sound(*b, len as int),
{
    let message: i128 = b.meta_len as i128 + b.body_len as i128;
    b.offset >= 0 && b.meta_len >= 0 && b.body_len >= 0 && message >= 8 && b.offset as i128
        + message <= len as i128
}

/// Whether all fields are leaves, with their numbers of buffers.
fn plan_leaves(fields: &Vec<FieldShape>) -> (r: Option<Vec<u8>>)
    ensures
        match leaves_plan(fields@, fields@.len() as int) {
            Some(p) => r matches Some(v) && v@ == p,
            None => r is None,
        },
{
    let mut plan: Vec<u8> = Vec::new();
    let mut i: usize = 0;
    while i < fields.len()
        invariant
            i <= fields.len(),
            leaves_plan(fields@, i as int) == Some(plan@),
        decreases fields.len() - i,
    {
        let f = &fields[i];
        let leaf = !f.encoded && f.children == 0 && (f.type_code == 5 || (f.type_code == 2
            && f.signed && (f.bit_width == 32 || f.bit_width == 64)) || (f.type_code == 3
            && f.precision == 1));
        if !leaf {
            proof {
                lemma_leaves_plan_fails(fields@, i + 1, fields@.len() as int);
            }
            return None;
        }
        plan.push(if f.type_code == 5 {
            3
        } else {
            2
        });
        i += 1;
    }
    Some(plan)
}

/// Once a field is no leaf, no longer run of fields has a plan.
proof fn lemma_leaves_plan_fails(fields: Seq<FieldShape>, n: int, m: int)
    requires
        0 <= n <= m,
        leaves_plan(fields, n) is None,
    ensures
        leaves_plan(fields, m) is None,
    decreases m - n,
{
    if n < m {
        lemma_leaves_plan_fails(fields, n, m - 1);
    }
}

/// Once a field has no plan, no longer run of fields has one.
proof fn lemma_schema_plan_fails(footer: Seq<u8>, fields: Seq<FieldShape>, n: int, m: int)
    requires
        0 <= n <= m,
        schema_plan(footer, fields, n) is None,
    ensures
        schema_plan(footer, fields, m) is None,
    decreases m - n,
{
    if n < m {
        lemma_schema_plan_fails(footer, fields, n, m - 1);
    }
}

/// The numbers of buffers of the nodes of top-level field `i`.
fn plan_field(footer: &[u8], i: usize, f: &FieldShape) -> (r: Option<Vec<u8>>)
    ensures
        match field_plan(footer@, i as int, *f) {
            Some(p) => r matches Some(v) && v@ == p,
            None => r is None,
        },
{
    let leaf = !f.encoded && f.children == 0 && (f.type_code == 5 || (f.type_code == 2 && f.signed
        && (f.bit_width == 32 || f.bit_width == 64)) || (f.type_code == 3 && f.precision == 1));
    if leaf {
        let mut plan: Vec<u8> = Vec::new();
        plan.push(if f.type_code == 5 {
            3
        } else {
            2
        });
        assert(plan@ =~= seq![leaf_buffers(*f)]);
        return Some(plan);
    }
    if !(f.type_code == 12 && !f.encoded && f.children == 1) {
        return None;
    }
    let mut path: Vec<usize> = Vec::new();
    path.push(i);
    assert(path@ =~= seq![i]);
    let items = match footer_fields(footer, &path) {
        Some(items) => items,
        None => return None,
    };
    if items.len() != 1 || items[0].type_code != 13 || items[0].encoded {
        return None;
    }
    path.push(0);
    assert(path@ =~= seq![i, 0usize]);
    let inner = match footer_fields(footer, &path) {
        Some(inner) => inner,
        None => return None,
    };
    match plan_leaves(&inner) {
        Some(mut leaves) => {
            let mut plan: Vec<u8> = Vec::new();
            plan.push(2);
            plan.push(1);
            let ghost tail = leaves@;
            plan.append(&mut leaves);
            assert(plan@ =~= seq![2u8, 1u8] + tail);
            Some(plan)
        },
        None => None,
    }
}

/// The numbers of buffers of the nodes of a schema, field after field.
fn plan_schema(footer: &[u8], fields: &Vec<FieldShape>) -> (r: Option<Vec<u8>>)
    ensures
        match schema_plan(footer@, fields@, fields@.len() as int) {
            Some(p) => r matches Some(v) && v@ == p,
            None => r is None,
        },
{
    let mut plan: Vec<u8> = Vec::new();
    let mut i: usize = 0;
    while i < fields.len()
        invariant
            i <= fields.len(),
            schema_plan(footer@, fields@, i as int) == Some(plan@),
        decreases fields.len() - i,
    {
        match plan_field(footer, i, &fields[i]) {
            Some(mut part) => {
                let ghost before = plan@;
                let ghost added = part@;
                plan.append(&mut part);
                assert(plan@ =~= before + added);
            },
            None => {
                proof {
                    lemma_schema_plan_fails(footer@, fields@, i + 1, fields@.len() as int);
                }
                return None;
            },
        }
        i += 1;
    }
    Some(plan)
}

/// Whether the record batch can be handed to Arrow.
pub fn layout_is_ok(plan: &Vec<u8>, layout: &BatchLayout, body_len: i64) -> (ok: bool)
    requires
        body_len >= 0,
    ensures
        ok == layout_ok(plan@, *layout, body_len as int),
{
    if layout.compressed {
        return false;
    }
    let mut i: usize = 0;
    while i < layout.buffers.len()
        invariant
            i <= layout.buffers.len(),
            forall|k: int| 0 <= k < i ==> buffer_within(#[trigger] layout.buffers@[k], body_len as int),
        decreases layout.buffers.len() - i,
    {
        let b = layout.buffers[i];
        if !(b.offset >= 0 && b.length >= 0 && b.offset as i128 + b.length as i128
            <= body_len as i128) {
            assert(!buffer_within(layout.buffers@[i as int], body_len as int));
            return false;
        }
        i += 1;
    }
    let total = layout.buffers.len();
    let mut t: usize = 0;
    let mut first: usize = 0;
    while t < plan.len() && t < layout.nodes.len()
        invariant
            t <= plan.len(),
            t <= layout.nodes.len(),
            total == layout.buffers@.len(),
            first <= total,
            first == first_buffer(plan@, t as int),
            !layout.compressed,
            forall|k: int|
                0 <= k < layout.buffers@.len() ==> buffer_within(
                    #[trigger] layout.buffers@[k],
                    body_len as int,
                ),
            forall|k: int| 0 <= k < t ==> #[trigger] node_fits(plan@, *layout, k),
        decreases plan.len() - t,
    {
        let count = plan[t] as usize;
        let node = layout.nodes[t];
        if count > total - first {
            proof {
                assert forall|k: int|
                    0 <= k < plan@.len() && k < layout.nodes@.len() implies #[trigger] node_fits(
                    plan@,
                    *layout,
                    k,
                ) by {
                    if k > t {
                        lemma_first_buffer_grows(plan@, t + 1, k);
                    }
                }
            }
            return true;
        }
        if count > 0 && node.null_count != 0 {
            let validity = layout.buffers[first];
            if !(node.length >= 0 && node.length as i128 <= 8 * (validity.length as i128)) {
                assert(!node_fits(plan@, *layout, t as int));
                return false;
            }
        }
        assert(node_fits(plan@, *layout, t as int));
        first = first + count;
        t += 1;
    }
    true
}

/// The first buffer of a later node does not come before that of an
/// earlier one.
proof fn lemma_first_buffer_grows(plan: Seq<u8>, a: int, b: int)
    requires
        0 <= a <= b,
    ensures
        first_buffer(plan, a) <= first_buffer(plan, b),
    decreases b - a,
{
    if a < b {
        lemma_first_buffer_grows(plan, a, b - 1);
    }
}

/// Whether the block holds no record batch, or one that can be handed to
/// Arrow.
fn block_is_ok(data: &[u8], plan: &Vec<u8>, b: &BlockSpan) -> (ok: bool)
    requires
        block_sound(*b, data@.len() as int),
    ensures
        ok == block_ok(data@, plan@, *b),
{
    assert(0 <= b.offset && 0 <= b.meta_len && 0 <= b.body_len && b.meta_len + b.body_len >= 8
        && b.offset + b.meta_len + b.body_len <= data@.len());
    let len = data.len();
    let start = b.offset as usize;
    assert(start as int == b.offset as int);
    let end = (b.offset as i128 + b.meta_len as i128 + b.body_len as i128) as usize;
    assert(end as int == b.offset + b.meta_len + b.body_len);
    assert(start <= end <= len);
    let block = slice_subrange(data, start, end);
    assert(block@.len() >= 8);
    let skip: usize = if block[0] == 255 && block[1] == 255 && block[2] == 255 && block[3] == 255 {
        8
    } else {
        4
    };
    let message = slice_subrange(block, skip, block.len());
    assert(message@ == block_message(data@, *b));
    match message_layout(message) {
        Some(layout) => layout_is_ok(plan, &layout, b.body_len),
        None => true,
    }
}

/// The message of the first fault that keeps the file from being handed to
/// Arrow, if there is one.
pub fn find_fault(data: &[u8]) -> (out: Option<String>)
    ensures
        match file_fault(data@) {
            Some(m) => out matches Some(text) && text@ == m,
            None => out is None,
        },
{
    let footer = match find_footer(data) {
        Some(f) => f,
        None => {
            let len = data.len();
            if len >= 10 {
                match footer_length(slice_subrange(data, len - 10, len)) {
                    Some(n) => {
                        if n > len - 10 {
                            return Some(String::from_str("Invalid footer length"));
                        }
                    },
                    None => {},
                }
            }
            return None;
        },
    };
    assert(file_footer(data@) == Some(footer@));
    let blocks = match footer_record_blocks(footer) {
        Some(b) => b,
        None => return None,
    };
    let ghost listed = footer_record_blocks_of(footer@)->0;
    assert(listed == blocks@);
    let mut i: usize = 0;
    while i < blocks.len()
        invariant
            i <= blocks.len(),
            listed == blocks@,
            file_footer(data@) == Some(footer@),
            footer_record_blocks_of(footer@) == Some(listed),
            forall|k: int| 0 <= k < i ==> block_sound(#[trigger] listed[k], data@.len() as int),
        decreases blocks.len() - i,
    {
        if !block_is_sound(&blocks[i], data.len()) {
            assert(!block_sound(listed[i as int], data@.len() as int));
            assert(!all_sound(listed, data@.len() as int));
            return Some(String::from_str("Invalid block in file footer"));
        }
        i += 1;
    }
    match footer_dictionary_blocks(footer) {
        Some(d) => {
            if d.len() > 0 {
                return Some(String::from_str("Unsupported dictionary in file"));
            }
        },
        None => {},
    }
    let path: Vec<usize> = Vec::new();
    assert(path@ =~= Seq::<usize>::empty());
    let fields = match footer_fields(footer, &path) {
        Some(f) => f,
        None => return None,
    };
    let plan = match plan_schema(footer, &fields) {
        Some(p) => p,
        None => return Some(String::from_str("Unsupported column type in file schema")),
    };
    let ghost empty = Seq::<usize>::empty();
    assert(all_sound(listed, data@.len() as int));
    assert(schema_fault(data@, footer@, listed) == blocks_fault(data@, footer@, listed));
    let mut j: usize = 0;
    while j < blocks.len()
        invariant
            j <= blocks.len(),
            listed == blocks@,
            file_footer(data@) == Some(footer@),
            footer_record_blocks_of(footer@) == Some(listed),
            schema_fault(data@, footer@, listed) == blocks_fault(data@, footer@, listed),
            footer_fields_of(footer@, Seq::<usize>::empty()) == Some(fields@),
            schema_plan(footer@, fields@, fields@.len() as int) == Some(plan@),
            forall|k: int|
                0 <= k < listed.len() ==> block_sound(#[trigger] listed[k], data@.len() as int),
            forall|k: int| 0 <= k < j ==> block_ok(data@, plan@, #[trigger] listed[k]),
        decreases blocks.len() - j,
    {
        if !block_is_ok(data, &plan, &blocks[j]) {
            assert(!block_ok(data@, plan@, listed[j as int]));
            assert(!all_ok(data@, plan@, listed));
            return Some(String::from_str("Invalid record batch in file"));
        }
        j += 1;
    }
    None
}

} // verus!
