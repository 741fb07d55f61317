//! Tables of fixed-size records, each of which names a library and its path
//! by two offsets into a string area.

use vstd::prelude::*;

use crate::errors::{Error, ErrorKind, ErrorView, ParseError};
use crate::reader::{failure, in_bounds, read_u32, skip, u32_of, ByteOrder};
use crate::utils::{entry_of, has_no_nul, lemma_entry_has_no_nul, read_entry};
use crate::{item_view, Entry, EntryView, Item};

verus! {

/// How the records of a table are laid out.
#[derive(Debug, Clone, Copy)]
pub struct Layout {
    /// Size of a record.
    pub record_size: usize,
    /// Offset, in a record, of the 32-bit offset of the name. The 32-bit
    /// offset of the path follows it.
    pub key_offset: usize,
}

impl Layout {
    /// Name and path offsets lie inside of a record.
    pub open spec fn wf(self) -> bool {
        self.key_offset + 8 <= self.record_size
    }
}

/// Number of whole records in `records`.
pub open spec fn record_count(records: Seq<u8>, layout: Layout) -> nat {
    (records.len() / (layout.record_size as nat)) as nat
}

/// What the record of index `index` of the table `records` gives, its
/// offsets resolved in `strings`.
pub open spec fn record_item(
    records: Seq<u8>,
    layout: Layout,
    index: int,
    strings: Seq<u8>,
    byte_order: ByteOrder,
    path: Seq<char>,
) -> Item {
    let key_start = index * layout.record_size + layout.key_offset;
    let key = u32_of(records.subrange(key_start, key_start + 4), byte_order);
    let value = u32_of(records.subrange(key_start + 4, key_start + 8), byte_order);
    entry_of(strings, key, value, path)
}

/// What the whole records of the table `records` give, in their order.
pub open spec fn table_items(
    records: Seq<u8>,
    layout: Layout,
    strings: Seq<u8>,
    byte_order: ByteOrder,
    path: Seq<char>,
) -> Seq<Item> {
    Seq::new(
        record_count(records, layout),
        |index: int| record_item(records, layout, index, strings, byte_order, path),
    )
}

/// A table of exactly `count` records gives `count` items.
pub proof fn lemma_record_count_exact(records: Seq<u8>, layout: Layout, count: nat)
    requires
        layout.wf(),
        records.len() == count * layout.record_size,
    ensures
        record_count(records, layout) == count,
{
    vstd::arithmetic::div_mod::lemma_div_by_multiple(count as int, layout.record_size as int);
}

/// A table that is shorter than one record gives nothing.
pub proof fn lemma_short_table_is_empty(records: Seq<u8>, layout: Layout)
    requires
        layout.wf(),
        records.len() < layout.record_size,
    ensures
        record_count(records, layout) == 0,
{
    vstd::arithmetic::div_mod::lemma_basic_div(records.len() as int, layout.record_size as int);
}

/// Behind its first record, a table gives what it gave as a whole, but for
/// the first item.
pub proof fn lemma_table_items_skip(
    records: Seq<u8>,
    layout: Layout,
    strings: Seq<u8>,
    byte_order: ByteOrder,
    path: Seq<char>,
)
    requires
        layout.wf(),
        records.len() >= layout.record_size,
    ensures
        record_count(records, layout) >= 1,
        table_items(records.skip(layout.record_size as int), layout, strings, byte_order, path)
            == table_items(records, layout, strings, byte_order, path).skip(1),
{
    let size = layout.record_size as int;
    let rest = records.skip(size);
    vstd::arithmetic::div_mod::lemma_div_plus_one(rest.len() as int, size);
    vstd::arithmetic::div_mod::lemma_div_pos_is_pos(rest.len() as int, size);
    assert(size + rest.len() == records.len());
    assert(record_count(records, layout) == record_count(rest, layout) + 1);
    let left = table_items(rest, layout, strings, byte_order, path);
    let right = table_items(records, layout, strings, byte_order, path).skip(1);
    assert(left.len() == right.len());
    assert forall|index: int| 0 <= index < left.len() implies left[index] == right[index] by {
        let start = index * size + layout.key_offset;
        let shifted = (index + 1) * size + layout.key_offset;
        assert(shifted == start + size) by (nonlinear_arith)
            requires
                start == index * size + layout.key_offset,
                shifted == (index + 1) * size + layout.key_offset,
        ;
        assert((index + 1) * size + size <= record_count(records, layout) * size)
            by (nonlinear_arith)
            requires
                index + 2 <= record_count(records, layout),
                size > 0,
        ;
        vstd::arithmetic::div_mod::lemma_fundamental_div_mod(records.len() as int, size);
        assert(size * (records.len() as int / size) == (records.len() as int / size) * size)
            by (nonlinear_arith);
        assert(shifted + 8 <= records.len());
        assert(0 <= start) by (nonlinear_arith)
            requires
                start == index * size + layout.key_offset,
                index >= 0,
                size > 0,
        ;
        assert(rest.subrange(start, start + 4) == records.subrange(shifted, shifted + 4));
        assert(rest.subrange(start + 4, start + 8) == records.subrange(shifted + 4, shifted + 8));
    }
    assert(left =~= right);
}

/// No entry that a table gives holds a NUL byte, in its name or in its path.
pub proof fn lemma_table_entries_have_no_nul(
    records: Seq<u8>,
    layout: Layout,
    strings: Seq<u8>,
    byte_order: ByteOrder,
    path: Seq<char>,
    index: int,
)
    requires
        0 <= index < table_items(records, layout, strings, byte_order, path).len(),
    ensures
        table_items(records, layout, strings, byte_order, path)[index] matches Ok(entry)
            ==> has_no_nul(entry.file_name) && has_no_nul(entry.full_path),
{
    let key_start = index * layout.record_size + layout.key_offset;
    lemma_entry_has_no_nul(
        strings,
        u32_of(records.subrange(key_start, key_start + 4), byte_order),
        u32_of(records.subrange(key_start + 4, key_start + 8), byte_order),
        path,
    );
}

/// Number of whole records in `records`.
pub fn count_records(records: &[u8], layout: Layout) -> (r: usize)
    requires
        layout.wf(),
    ensures
        r == record_count(records@, layout),
{
    records.len() / layout.record_size
}

/// Where a record of the table `records` fails to parse, if `records` is
/// shorter than one record: at the first part of the record that is not all
/// there, in the order of what stands before the offsets, the two offsets,
/// and what stands behind them.
pub open spec fn record_failure(records: Seq<u8>, layout: Layout) -> Option<ParseError> {
    let key_offset = layout.key_offset as int;
    if !in_bounds(records, 0, key_offset) {
        Some(failure(0, ErrorKind::Eof))
    } else if !in_bounds(records, key_offset, 4) {
        Some(failure(key_offset, ErrorKind::Eof))
    } else if !in_bounds(records, key_offset + 4, 4) {
        Some(failure(key_offset + 4, ErrorKind::Eof))
    } else if !in_bounds(records, key_offset + 8, layout.record_size - key_offset - 8) {
        Some(failure(key_offset + 8, ErrorKind::Eof))
    } else {
        None
    }
}

/// What decoding the first record of the table `records` gives: the offsets
/// of name and path, or the failure to parse a record.
pub open spec fn first_record(records: Seq<u8>, layout: Layout, byte_order: ByteOrder) -> Result<
    (u32, u32),
    ParseError,
> {
    let key_offset = layout.key_offset as int;
    match record_failure(records, layout) {
        Some(error) => Err(error),
        None => Ok(
            (
                u32_of(records.subrange(key_offset, key_offset + 4), byte_order),
                u32_of(records.subrange(key_offset + 4, key_offset + 8), byte_order),
            ),
        ),
    }
}

/// Decodes the offsets of name and path of the first record of the table
/// `records`.
pub fn parse_record(records: &[u8], layout: Layout, byte_order: ByteOrder) -> (r: Result<
    (u32, u32),
    ParseError,
>)
    requires
        layout.wf(),
    ensures
        r == first_record(records@, layout, byte_order),
        r is Ok <==> records@.len() >= layout.record_size,
{
    let key_offset = skip(records, 0, layout.key_offset)?;
    let key = read_u32(records, key_offset, byte_order)?;
    let value = read_u32(records, key_offset + 4, byte_order)?;
    skip(records, key_offset + 8, layout.record_size - key_offset - 8)?;
    Ok((key, value))
}

/// Decodes the first record of the table `records`, and returns what it
/// gives together with the rest of the table.
///
/// A table that is shorter than one record gives the failure to parse it,
/// and is returned as it is.
pub fn next_record<'cache>(
    records: &'cache [u8],
    layout: Layout,
    strings: &'cache [u8],
    byte_order: ByteOrder,
    path: &str,
) -> (r: (Result<Entry<'cache>, Error>, &'cache [u8]))
    requires
        layout.wf(),
    ensures
        records@.len() >= layout.record_size ==> {
            &&& item_view(r.0) == table_items(records@, layout, strings@, byte_order, path@)[0]
            &&& r.1@ == records@.skip(layout.record_size as int)
            &&& table_items(r.1@, layout, strings@, byte_order, path@) == table_items(
                records@,
                layout,
                strings@,
                byte_order,
                path@,
            ).skip(1)
        },
        records@.len() < layout.record_size ==> {
            &&& record_failure(records@, layout) matches Some(source) && item_view(r.0)
                == Err::<EntryView, ErrorView>(ErrorView::Parse { path: path@, source })
            &&& r.1@ == records@
        },
        r.0 is Ok ==> r.0->Ok_0.file_name is Borrowed && r.0->Ok_0.full_path is Borrowed,
{
    let (key, value) = match parse_record(records, layout, byte_order) {
        Ok(offsets) => offsets,
        Err(error) => return (Err(Error::from_parse(error, path)), records),
    };
    proof {
        lemma_table_items_skip(records@, layout, strings@, byte_order, path@);
    }
    let rest = vstd::slice::slice_subrange(records, layout.record_size, records.len());
    (read_entry(strings, key, value, path), rest)
}

} // verus!
