//! Cache of the GNU/Linux old dynamic loader, in the format `ld.so-1.7.0`.
//!
//! The file starts with a header of 16 bytes:
//!
//! | offset | field                                    |
//! |--------|------------------------------------------|
//! | 0      | magic, 11 bytes                          |
//! | 11     | padding, 1 byte                          |
//! | 12     | record count, `u32` in the host's order  |
//!
//! A table of records of 12 bytes follows, and the string table follows the
//! records. A record holds, at its offsets 4 and 8, the offsets in the string
//! table of the NUL-terminated name and path of one library.
//!
//! The format does not say in which byte order it was written: a file is read
//! in the byte order of the host, and a file of another byte order is not
//! recognised as such.

use vstd::prelude::*;

use crate::errors::{Error, ErrorKind, ErrorView, ParseError};
use crate::host::native_byte_order;
use crate::reader::{
    expect_tag, failure, has_tag, in_bounds, lemma_u32_bytes_of_value, read_u32, skip, u32_bytes,
    u32_of, ByteOrder,
};
use crate::table::{
    count_records, lemma_record_count_exact, lemma_short_table_is_empty, lemma_table_items_skip,
    next_record, record_failure, record_item, table_items, Layout,
};
use crate::{item_view, Entry, EntryView, Item};

verus! {

/// Where the cache file usually is.
pub const CACHE_FILE_PATH: &'static str = "/etc/ld.so.cache";

/// The text `ld.so-1.7.0`, with which the file starts.
pub const MAGIC: [u8; 11] = [0x6c, 0x64, 0x2e, 0x73, 0x6f, 0x2d, 0x31, 0x2e, 0x37, 0x2e, 0x30];

/// Size of the header.
pub const HEADER_SIZE: usize = 16;

/// Offset of the record count in the header.
pub const LIB_COUNT_OFFSET: usize = 12;

/// Size of a record.
pub const ENTRY_SIZE: usize = 12;

/// Offset, in a record, of the offset of the name.
pub const ENTRY_KEY_OFFSET: usize = 4;

/// The greatest record count for which header and records end below
/// `u32::MAX`.
pub const MAX_LIB_COUNT: u32 = (u32::MAX - 16) / 12;

/// The least size of a file with `lib_count` records.
pub open spec fn min_size(lib_count: u32) -> int {
    HEADER_SIZE + ENTRY_SIZE * lib_count
}

/// What [`Cache::parse_header_as`] returns on `bytes`: the record count of a
/// header that is all there and declares no more records than the file holds,
/// or the first failure in the order magic, padding, record count, bound of
/// the record count, room for the records.
pub open spec fn header_of(bytes: Seq<u8>, byte_order: ByteOrder) -> Result<u32, ParseError> {
    if !has_tag(bytes, 0, MAGIC@) {
        Err(failure(0, ErrorKind::Tag))
    } else if !in_bounds(bytes, MAGIC@.len() as int, LIB_COUNT_OFFSET - MAGIC@.len()) {
        Err(failure(MAGIC@.len() as int, ErrorKind::Eof))
    } else if !in_bounds(bytes, LIB_COUNT_OFFSET as int, 4) {
        Err(failure(LIB_COUNT_OFFSET as int, ErrorKind::Eof))
    } else {
        let lib_count = u32_of(bytes.subrange(12, 16), byte_order);
        if lib_count > MAX_LIB_COUNT {
            Err(failure(0, ErrorKind::TooLarge))
        } else if bytes.len() < min_size(lib_count) {
            Err(failure(0, ErrorKind::Eof))
        } else {
            Ok(lib_count)
        }
    }
}

/// Layout of the record table.
pub open spec fn layout() -> Layout {
    Layout { record_size: ENTRY_SIZE, key_offset: ENTRY_KEY_OFFSET }
}

/// What a loaded [`Cache`] holds.
pub struct CacheView {
    /// Path of the cache file.
    pub path: Seq<char>,
    /// Content of the cache file.
    pub bytes: Seq<u8>,
    /// Byte order in which the file is read.
    pub byte_order: ByteOrder,
    /// Number of records.
    pub lib_count: u32,
}

impl CacheView {
    /// The record table lies inside of the file.
    pub open spec fn wf(self) -> bool {
        min_size(self.lib_count) <= self.bytes.len()
    }

    /// The bytes of the record table.
    pub open spec fn records(self) -> Seq<u8> {
        self.bytes.subrange(HEADER_SIZE as int, min_size(self.lib_count))
    }

    /// The bytes of the string table: all that follows the records.
    pub open spec fn string_table(self) -> Seq<u8> {
        self.bytes.skip(min_size(self.lib_count))
    }

    /// What the record of index `index` gives. Its offsets are offsets into
    /// the string table.
    pub open spec fn entry_at(self, index: int) -> Item {
        record_item(
            self.records(),
            layout(),
            index,
            self.string_table(),
            self.byte_order,
            self.path,
        )
    }

    /// What a walk over the cache gives: one item for each record, in the
    /// order of the table.
    pub open spec fn entries(self) -> Seq<Item> {
        Seq::new(self.lib_count as nat, |index: int| self.entry_at(index))
    }
}

/// What [`Cache::load_as`] returns for the file at `path` whose content is
/// `bytes`, read in the byte order `native`.
pub open spec fn loaded(path: Seq<char>, bytes: Seq<u8>, native: ByteOrder) -> Result<
    CacheView,
    ErrorView,
> {
    if bytes.len() == 0 {
        Err(ErrorView::FileIsEmpty { path })
    } else {
        match header_of(bytes, native) {
            Err(source) => Err(ErrorView::Parse { path, source }),
            Ok(lib_count) => Ok(CacheView { path, bytes, byte_order: native, lib_count }),
        }
    }
}

/// True if `r` is what [`loaded`] says of `path`, `bytes` and `native`.
pub open spec fn is_loaded(
    r: Result<Cache, Error>,
    path: Seq<char>,
    bytes: Seq<u8>,
    native: ByteOrder,
) -> bool {
    match r {
        Ok(cache) => loaded(path, bytes, native) == Ok::<CacheView, ErrorView>(cache@),
        Err(error) => loaded(path, bytes, native) == Err::<CacheView, ErrorView>(error@),
    }
}

/// Cache of the GNU/Linux old dynamic loader.
///
/// This holds the content of a dynamic loader cache file (*e.g.*,
/// `/etc/ld.so.cache`), in the old `ld.so-1.7.0` format, as written by a
/// machine of the byte order of the host.
#[derive(Debug)]
pub struct Cache {
    path: String,
    map: Vec<u8>,
    byte_order: ByteOrder,
    lib_count: u32,
}

impl View for Cache {
    type V = CacheView;

    closed spec fn view(&self) -> CacheView {
        CacheView {
            path: self.path@,
            bytes: self.map@,
            byte_order: self.byte_order,
            lib_count: self.lib_count,
        }
    }
}

impl Cache {
    #[verifier::type_invariant]
    spec fn well_formed(&self) -> bool {
        self@.wf()
    }

    /// Loads the content `bytes` of the file `/etc/ld.so.cache`.
    pub fn load_default(bytes: Vec<u8>) -> (r: Result<Cache, Error>)
        ensures
            is_loaded(r, CACHE_FILE_PATH@, bytes@, ByteOrder::Little) || is_loaded(
                r,
                CACHE_FILE_PATH@,
                bytes@,
                ByteOrder::Big,
            ),
    {
        Self::load(CACHE_FILE_PATH, bytes)
    }

    /// Loads the content `bytes` of the file `/etc/ld.so.cache`, as a host
    /// whose byte order is `native` does.
    pub fn load_default_as(bytes: Vec<u8>, native: ByteOrder) -> (r: Result<Cache, Error>)
        ensures
            is_loaded(r, CACHE_FILE_PATH@, bytes@, native),
    {
        Self::load_as(CACHE_FILE_PATH, bytes, native)
    }

    /// Loads the content `bytes` of the cache file at `path`, read in the
    /// byte order of this host.
    pub fn load(path: &str, bytes: Vec<u8>) -> (r: Result<Cache, Error>)
        ensures
            is_loaded(r, path@, bytes@, ByteOrder::Little) || is_loaded(
                r,
                path@,
                bytes@,
                ByteOrder::Big,
            ),
    {
        Self::load_as(path, bytes, native_byte_order())
    }

    /// Loads the content `bytes` of the cache file at `path`, as a host whose
    /// byte order is `native` does.
    pub fn load_as(path: &str, bytes: Vec<u8>, native: ByteOrder) -> (r: Result<Cache, Error>)
        ensures
            is_loaded(r, path@, bytes@, native),
    {
        if bytes.len() == 0 {
            return Err(Error::FileIsEmpty { path: path.to_owned() });
        }
        let lib_count = match Self::parse_header_as(bytes.as_slice(), native) {
            Ok(lib_count) => lib_count,
            Err(source) => return Err(Error::from_parse(source, path)),
        };
        Ok(Cache { path: path.to_owned(), map: bytes, byte_order: native, lib_count })
    }

    /// Validates the header and returns the record count that it declares,
    /// read in the byte order of this host.
    pub fn parse_header(bytes: &[u8]) -> (r: Result<u32, ParseError>)
        ensures
            r == header_of(bytes@, ByteOrder::Little) || r == header_of(bytes@, ByteOrder::Big),
    {
        Self::parse_header_as(bytes, native_byte_order())
    }

    /// Validates the header and returns the record count that it declares,
    /// read in the given byte order.
    pub fn parse_header_as(bytes: &[u8], byte_order: ByteOrder) -> (r: Result<u32, ParseError>)
        ensures
            r == header_of(bytes@, byte_order),
    {
        let magic: [u8; 11] = MAGIC;
        expect_tag(bytes, 0, magic.as_slice())?;
        skip(bytes, magic.len(), LIB_COUNT_OFFSET - magic.len())?;
        let lib_count = read_u32(bytes, LIB_COUNT_OFFSET, byte_order)?;
        if lib_count > MAX_LIB_COUNT {
            return Err(ParseError { offset: 0, code: ErrorKind::TooLarge });
        }
        let min_size = HEADER_SIZE.saturating_add(ENTRY_SIZE * (lib_count as usize));
        if bytes.len() < min_size {
            return Err(ParseError { offset: 0, code: ErrorKind::Eof });
        }
        Ok(lib_count)
    }

    /// Returns an iterator that returns cache entries.
    pub fn iter(&self) -> (r: Result<Iter<'_>, Error>)
        ensures
            r is Ok,
            r->Ok_0@ == self@.entries(),
            r->Ok_0.records() == self@.records(),
            r->Ok_0.strings() == self@.string_table(),
            r->Ok_0.byte_order() == self@.byte_order,
            r->Ok_0.path() == self@.path,
    {
        proof {
            use_type_invariant(self);
        }
        let map = self.map.as_slice();
        assert(map@.len() <= usize::MAX) by {
            vstd::slice::axiom_spec_len(map);
        }
        let entries_end = HEADER_SIZE + ENTRY_SIZE * (self.lib_count as usize);
        let entries_bytes = vstd::slice::slice_subrange(map, HEADER_SIZE, entries_end);
        let string_table = vstd::slice::slice_subrange(map, entries_end, map.len());
        let iter = Iter {
            path: self.path.as_str(),
            entries_bytes,
            string_table,
            byte_order: self.byte_order,
        };
        proof {
            lemma_record_count_exact(entries_bytes@, layout(), self.lib_count as nat);
            assert(iter@ =~= self@.entries());
        }
        Ok(iter)
    }

    /// Returns the walk over the entries, as [`Cache::iter`] does.
    pub fn entries_iter(&self) -> (r: Result<Iter<'_>, Error>)
        ensures
            r is Ok,
            r->Ok_0@ == self@.entries(),
            r->Ok_0.records() == self@.records(),
            r->Ok_0.strings() == self@.string_table(),
            r->Ok_0.byte_order() == self@.byte_order,
            r->Ok_0.path() == self@.path,
    {
        self.iter()
    }
}

/// Walk over the entries of a [`Cache`].
#[derive(Debug)]
pub struct Iter<'cache> {
    path: &'cache str,
    entries_bytes: &'cache [u8],
    string_table: &'cache [u8],
    byte_order: ByteOrder,
}

impl<'cache> View for Iter<'cache> {
    type V = Seq<Item>;

    /// The items that the walk has yet to give: one for each whole record
    /// that is left of the table.
    open spec fn view(&self) -> Seq<Item> {
        table_items(self.records(), layout(), self.strings(), self.byte_order(), self.path())
    }
}

impl<'cache> Iter<'cache> {
    /// The bytes of the table that the walk has yet to decode.
    pub closed spec fn records(&self) -> Seq<u8> {
        self.entries_bytes@
    }

    /// The bytes in which the offsets of a record are resolved.
    pub closed spec fn strings(&self) -> Seq<u8> {
        self.string_table@
    }

    /// The byte order in which the offsets of a record are read.
    pub closed spec fn byte_order(&self) -> ByteOrder {
        self.byte_order
    }

    /// The path of the cache file, which the failures name.
    pub closed spec fn path(&self) -> Seq<char> {
        self.path@
    }

    /// True if `later` is this walk at a later time: over the same strings,
    /// in the same byte order, for the same file.
    pub open spec fn goes_on_as(&self, later: &Self) -> bool {
        &&& later.strings() == self.strings()
        &&& later.byte_order() == self.byte_order()
        &&& later.path() == self.path()
    }

    /// Decodes the next record and steps over it.
    ///
    /// Where less than one record is left, this is the failure to parse one,
    /// and the walk stays where it is.
    pub fn next_fallible(&mut self) -> (r: Result<Entry<'cache>, Error>)
        ensures
            old(self).goes_on_as(final(self)),
            old(self).records().len() >= ENTRY_SIZE ==> {
                &&& item_view(r) == old(self)@[0]
                &&& final(self).records() == old(self).records().skip(ENTRY_SIZE as int)
                &&& final(self)@ == old(self)@.skip(1)
            },
            old(self).records().len() < ENTRY_SIZE ==> {
                &&& record_failure(old(self).records(), layout()) matches Some(source)
                    && item_view(r) == Err::<EntryView, ErrorView>(
                    ErrorView::Parse { path: old(self).path(), source },
                )
                &&& final(self).records() == old(self).records()
                &&& final(self)@ == old(self)@
            },
            old(self)@.len() > 0 <==> old(self).records().len() >= ENTRY_SIZE,
            r is Ok ==> r->Ok_0.file_name is Borrowed && r->Ok_0.full_path is Borrowed,
    {
        proof {
            if self.entries_bytes@.len() < ENTRY_SIZE {
                lemma_short_table_is_empty(self.entries_bytes@, layout());
            } else {
                lemma_table_items_skip(
                    self.entries_bytes@,
                    layout(),
                    self.string_table@,
                    self.byte_order,
                    self.path@,
                );
            }
        }
        let layout = Layout { record_size: ENTRY_SIZE, key_offset: ENTRY_KEY_OFFSET };
        let (item, rest) = next_record(
            self.entries_bytes,
            layout,
            self.string_table,
            self.byte_order,
            self.path,
        );
        self.entries_bytes = rest;
        item
    }

    /// Returns the next item, or `None` once fewer bytes than one record are
    /// left of the table. After the first `None`, every call returns `None`.
    pub fn next(&mut self) -> (r: Option<Result<Entry<'cache>, Error>>)
        ensures
            old(self).goes_on_as(final(self)),
            old(self).records().len() < ENTRY_SIZE ==> {
                &&& r is None
                &&& final(self).records() == old(self).records()
                &&& final(self)@ == old(self)@
            },
            old(self).records().len() >= ENTRY_SIZE ==> {
                &&& r is Some
                &&& item_view(r->0) == old(self)@[0]
                &&& final(self).records() == old(self).records().skip(ENTRY_SIZE as int)
                &&& final(self)@ == old(self)@.skip(1)
            },
            old(self)@.len() == 0 <==> old(self).records().len() < ENTRY_SIZE,
            r matches Some(Ok(entry)) ==> entry.file_name is Borrowed && entry.full_path
                is Borrowed,
    {
        if self.entries_bytes.len() < ENTRY_SIZE {
            proof {
                lemma_short_table_is_empty(self.entries_bytes@, layout());
            }
            None
        } else {
            proof {
                lemma_table_items_skip(
                    self.entries_bytes@,
                    layout(),
                    self.string_table@,
                    self.byte_order,
                    self.path@,
                );
            }
            Some(self.next_fallible())
        }
    }

    /// Bounds of the number of items that the walk has yet to give: both are
    /// that number.
    pub fn size_hint(&self) -> (r: (usize, Option<usize>))
        ensures
            r.0 == self@.len(),
            r.0 == self.records().len() / (ENTRY_SIZE as nat),
            r.1 == Some(r.0),
    {
        let layout = Layout { record_size: ENTRY_SIZE, key_offset: ENTRY_KEY_OFFSET };
        let remaining = count_records(self.entries_bytes, layout);
        (remaining, Some(remaining))
    }
}

/// True if `bytes` starts with a whole header that has the magic, and is long
/// enough for the records that the header declares, read in the byte order
/// `native`.
pub open spec fn is_valid(bytes: Seq<u8>, native: ByteOrder) -> bool {
    &&& bytes.len() >= HEADER_SIZE
    &&& bytes.subrange(0, 11) == MAGIC@
    &&& u32_of(bytes.subrange(12, 16), native) <= MAX_LIB_COUNT
    &&& min_size(u32_of(bytes.subrange(12, 16), native)) <= bytes.len()
}

/// A file loads if and only if it is valid. A walk over a loaded file gives
/// exactly as many items as the header declares records.
pub proof fn lemma_valid_file_loads(path: Seq<char>, bytes: Seq<u8>, native: ByteOrder)
    ensures
        loaded(path, bytes, native) is Ok <==> is_valid(bytes, native),
        loaded(path, bytes, native) matches Ok(cache) ==> {
            &&& cache.wf()
            &&& cache.lib_count == u32_of(bytes.subrange(12, 16), native)
            &&& cache.entries().len() == cache.lib_count
        },
{
}

/// A buffer that is shorter than the header is rejected by the parser, and
/// loading it fails: with a parse error, unless the buffer is empty.
pub proof fn lemma_short_buffer_is_rejected(path: Seq<char>, bytes: Seq<u8>, native: ByteOrder)
    requires
        bytes.len() < HEADER_SIZE,
    ensures
        header_of(bytes, native) is Err,
        loaded(path, bytes, native) is Err,
        bytes.len() > 0 ==> loaded(path, bytes, native)->Err_0 is Parse,
        bytes.len() == 0 ==> loaded(path, bytes, native)->Err_0 is FileIsEmpty,
{
}

/// The record count that the header parser returns is the one whose
/// encoding stands in the four bytes at the offset of the record count.
pub proof fn lemma_lib_count_round_trips(bytes: Seq<u8>, byte_order: ByteOrder)
    requires
        header_of(bytes, byte_order) is Ok,
    ensures
        bytes.subrange(LIB_COUNT_OFFSET as int, LIB_COUNT_OFFSET + 4) == u32_bytes(
            header_of(bytes, byte_order)->Ok_0,
            byte_order,
        ),
{
    lemma_u32_bytes_of_value(bytes.subrange(12, 16), byte_order);
}

/// A walk has as many items to give as whole records are left of its table:
/// none once fewer bytes than one record are left.
pub proof fn lemma_items_left(iter: Iter<'_>)
    ensures
        iter@.len() == iter.records().len() / (ENTRY_SIZE as nat),
        iter@.len() == 0 <==> iter.records().len() < ENTRY_SIZE,
{
    if iter.records().len() < ENTRY_SIZE {
        lemma_short_table_is_empty(iter.records(), layout());
    } else {
        lemma_table_items_skip(
            iter.records(),
            layout(),
            iter.strings(),
            iter.byte_order(),
            iter.path(),
        );
    }
}

/// Two walks that start from the same cache give the same items in the same
/// order.
pub proof fn lemma_iter_is_repeatable(cache: CacheView, first: Iter<'_>, second: Iter<'_>)
    requires
        first@ == cache.entries(),
        second@ == cache.entries(),
    ensures
        first@ == second@,
        first@.len() == cache.lib_count,
{
}

} // verus!
