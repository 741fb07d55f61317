//! Cache of the GNU/Linux dynamic loader, in the format `glibc-ld.so.cache1.1`.
//!
//! The file starts with a header of 48 bytes:
//!
//! | offset | field               |
//! |--------|---------------------|
//! | 0      | magic, 20 bytes     |
//! | 20     | record count, `u32` |
//! | 24     | size of the string table, `u32` |
//! | 28     | flags, 1 byte       |
//! | 29     | padding and reserved fields, 19 bytes |
//!
//! A table of records of 24 bytes follows. A record holds, at its offsets 4
//! and 8, the offsets in the file of the NUL-terminated name and path of one
//! library.

use vstd::prelude::*;

use crate::errors::{Error, ErrorKind, ErrorView, ParseError};
use crate::host::{native_byte_order, Endianness};
use crate::reader::{
    expect_tag, failure, has_tag, in_bounds, lemma_u32_bytes_of_value, read_u32, read_u8, skip,
    u32_bytes, u32_of, u8_at, ByteOrder,
};
use crate::table::{
    count_records, lemma_record_count_exact, lemma_short_table_is_empty, lemma_table_items_skip,
    next_record, record_failure, record_item, table_items, Layout,
};
use crate::{item_view, Entry, EntryView, Item};

verus! {

/// Where the cache file usually is.
pub const CACHE_FILE_PATH: &'static str = "/etc/ld.so.cache";

/// The text `glibc-ld.so.cache1.1`, with which the file starts.
pub const MAGIC: [u8; 20] = [
    0x67, 0x6c, 0x69, 0x62, 0x63, 0x2d, 0x6c, 0x64, 0x2e, 0x73,
    0x6f, 0x2e, 0x63, 0x61, 0x63, 0x68, 0x65, 0x31, 0x2e, 0x31,
];

/// Size of the header.
pub const HEADER_SIZE: usize = 48;

/// Offset of the record count in the header.
pub const LIB_COUNT_OFFSET: usize = 20;

/// Offset of the size of the string table in the header.
pub const STRING_TABLE_SIZE_OFFSET: usize = 24;

/// Offset of the flags byte in the header.
pub const FLAGS_OFFSET: usize = 28;

/// Size of a record.
pub const ENTRY_SIZE: usize = 24;

/// Offset, in a record, of the offset of the name.
pub const ENTRY_KEY_OFFSET: usize = 4;

/// Offset, in a record, of the offset of the path.
pub const ENTRY_VALUE_OFFSET: usize = 8;

/// The byte order that the flags byte `flags` declares, if its code is valid.
///
/// The code is the value of the two low bits: 0 leaves the order to the host,
/// 2 is little-endian, 3 is big-endian, and 1 is no code.
pub open spec fn byte_order_of_flags(flags: u8) -> Option<Endianness> {
    if flags % 4 == 0 {
        Some(Endianness::Native)
    } else if flags % 4 == 2 {
        Some(Endianness::Little)
    } else if flags % 4 == 3 {
        Some(Endianness::Big)
    } else {
        None
    }
}

/// What [`Cache::parse_byte_order`] returns on `bytes`.
pub open spec fn byte_order_of(bytes: Seq<u8>) -> Result<Endianness, ParseError> {
    if !in_bounds(bytes, 0, FLAGS_OFFSET as int) {
        Err(failure(0, ErrorKind::Eof))
    } else {
        match u8_at(bytes, FLAGS_OFFSET as int) {
            Err(error) => Err(error),
            Ok(flags) => match byte_order_of_flags(flags) {
                Some(byte_order) => Ok(byte_order),
                None => Err(failure(0, ErrorKind::IsA)),
            },
        }
    }
}

/// The greatest record count that a file of `len` bytes has room for.
pub open spec fn max_lib_count(len: nat) -> int {
    if len <= HEADER_SIZE {
        0
    } else {
        (len - HEADER_SIZE) / (ENTRY_SIZE as int)
    }
}

/// The greatest string table that a file of `len` bytes has room for behind
/// `lib_count` records.
pub open spec fn max_string_table_size(len: nat, lib_count: u32) -> int {
    if len <= HEADER_SIZE + ENTRY_SIZE * lib_count {
        0
    } else {
        len - HEADER_SIZE - ENTRY_SIZE * lib_count
    }
}

/// The least size of a file with `lib_count` records and a string table of
/// `string_table_size` bytes.
pub open spec fn min_size(lib_count: u32, string_table_size: u32) -> int {
    HEADER_SIZE + ENTRY_SIZE * lib_count + string_table_size
}

/// What [`Cache::parse_header_as`] returns on `bytes`: the record count of a
/// header that is all there and declares no more than the file holds, or the
/// first failure in the order magic, record count, size of the string table,
/// rest of the header, room for the records, room for the strings, size of
/// the file.
///
/// The last of these cannot fail where the two before it have not: see
/// [`lemma_room_for_all`].
pub open spec fn header_of(bytes: Seq<u8>, byte_order: ByteOrder) -> Result<u32, ParseError> {
    if !has_tag(bytes, 0, MAGIC@) {
        Err(failure(0, ErrorKind::Tag))
    } else if !in_bounds(bytes, LIB_COUNT_OFFSET as int, 4) {
        Err(failure(LIB_COUNT_OFFSET as int, ErrorKind::Eof))
    } else if !in_bounds(bytes, STRING_TABLE_SIZE_OFFSET as int, 4) {
        Err(failure(STRING_TABLE_SIZE_OFFSET as int, ErrorKind::Eof))
    } else if !in_bounds(bytes, FLAGS_OFFSET as int, HEADER_SIZE - FLAGS_OFFSET) {
        Err(failure(FLAGS_OFFSET as int, ErrorKind::Eof))
    } else {
        let lib_count = u32_of(bytes.subrange(20, 24), byte_order);
        let string_table_size = u32_of(bytes.subrange(24, 28), byte_order);
        if lib_count > max_lib_count(bytes.len()) {
            Err(failure(0, ErrorKind::TooLarge))
        } else if string_table_size > max_string_table_size(bytes.len(), lib_count) {
            Err(failure(0, ErrorKind::TooLarge))
        } else if bytes.len() < min_size(lib_count, string_table_size) {
            Err(failure(0, ErrorKind::Eof))
        } else {
            Ok(lib_count)
        }
    }
}

/// Layout of the record table.
pub open spec fn layout() -> Layout {
    Layout { record_size: ENTRY_SIZE, key_offset: ENTRY_KEY_OFFSET }
}

/// What a loaded [`Cache`] holds.
pub struct CacheView {
    /// Path of the cache file.
    pub path: Seq<char>,
    /// Content of the cache file.
    pub bytes: Seq<u8>,
    /// Byte order of the integers of the file.
    pub byte_order: ByteOrder,
    /// Number of records.
    pub lib_count: u32,
}

impl CacheView {
    /// The record table lies inside of the file.
    pub open spec fn wf(self) -> bool {
        HEADER_SIZE + ENTRY_SIZE * self.lib_count <= self.bytes.len()
    }

    /// The bytes of the record table.
    pub open spec fn records(self) -> Seq<u8> {
        self.bytes.subrange(HEADER_SIZE as int, HEADER_SIZE + ENTRY_SIZE * self.lib_count)
    }

    /// What the record of index `index` gives. Its offsets are offsets into
    /// the whole file.
    pub open spec fn entry_at(self, index: int) -> Item {
        record_item(self.records(), layout(), index, self.bytes, self.byte_order, self.path)
    }

    /// What a walk over the cache gives: one item for each record, in the
    /// order of the table.
    pub open spec fn entries(self) -> Seq<Item> {
        Seq::new(self.lib_count as nat, |index: int| self.entry_at(index))
    }
}

/// What [`Cache::load_as`] returns for the file at `path` whose content is
/// `bytes`, on a host whose byte order is `native`.
pub open spec fn loaded(path: Seq<char>, bytes: Seq<u8>, native: ByteOrder) -> Result<
    CacheView,
    ErrorView,
> {
    if bytes.len() == 0 {
        Err(ErrorView::FileIsEmpty { path })
    } else {
        match byte_order_of(bytes) {
            Err(source) => Err(ErrorView::Parse { path, source }),
            Ok(endianness) => match header_of(bytes, endianness.on(native)) {
                Err(source) => Err(ErrorView::Parse { path, source }),
                Ok(lib_count) => Ok(
                    CacheView { path, bytes, byte_order: endianness.on(native), lib_count },
                ),
            },
        }
    }
}

/// True if `r` is what [`loaded`] says of `path`, `bytes` and `native`.
pub open spec fn is_loaded(
    r: Result<Cache, Error>,
    path: Seq<char>,
    bytes: Seq<u8>,
    native: ByteOrder,
) -> bool {
    match r {
        Ok(cache) => loaded(path, bytes, native) == Ok::<CacheView, ErrorView>(cache@),
        Err(error) => loaded(path, bytes, native) == Err::<CacheView, ErrorView>(error@),
    }
}

/// Cache of the GNU/Linux dynamic loader.
///
/// This holds the content of a dynamic loader cache file (*e.g.*,
/// `/etc/ld.so.cache`), in the `glibc-ld.so.cache1.1` format, for either
/// 32-bits or 64-bits architectures, in either little-endian or big-endian
/// byte order.
#[derive(Debug)]
pub struct Cache {
    path: String,
    map: Vec<u8>,
    byte_order: ByteOrder,
    lib_count: u32,
}

impl View for Cache {
    type V = CacheView;

    closed spec fn view(&self) -> CacheView {
        CacheView {
            path: self.path@,
            bytes: self.map@,
            byte_order: self.byte_order,
            lib_count: self.lib_count,
        }
    }
}

impl Cache {
    #[verifier::type_invariant]
    spec fn well_formed(&self) -> bool {
        self@.wf()
    }

    /// Loads the content `bytes` of the file `/etc/ld.so.cache`.
    pub fn load_default(bytes: Vec<u8>) -> (r: Result<Cache, Error>)
        ensures
            is_loaded(r, CACHE_FILE_PATH@, bytes@, ByteOrder::Little) || is_loaded(
                r,
                CACHE_FILE_PATH@,
                bytes@,
                ByteOrder::Big,
            ),
    {
        Self::load(CACHE_FILE_PATH, bytes)
    }

    /// Loads the content `bytes` of the file `/etc/ld.so.cache`, as a host
    /// whose byte order is `native` does.
    pub fn load_default_as(bytes: Vec<u8>, native: ByteOrder) -> (r: Result<Cache, Error>)
        ensures
            is_loaded(r, CACHE_FILE_PATH@, bytes@, native),
    {
        Self::load_as(CACHE_FILE_PATH, bytes, native)
    }

    /// Loads the content `bytes` of the cache file at `path`.
    ///
    /// A header that leaves its byte order to the host is read in the byte
    /// order of this host.
    pub fn load(path: &str, bytes: Vec<u8>) -> (r: Result<Cache, Error>)
        ensures
            is_loaded(r, path@, bytes@, ByteOrder::Little) || is_loaded(
                r,
                path@,
                bytes@,
                ByteOrder::Big,
            ),
    {
        Self::load_as(path, bytes, native_byte_order())
    }

    /// Loads the content `bytes` of the cache file at `path`, as a host whose
    /// byte order is `native` does.
    pub fn load_as(path: &str, bytes: Vec<u8>, native: ByteOrder) -> (r: Result<Cache, Error>)
        ensures
            is_loaded(r, path@, bytes@, native),
    {
        if bytes.len() == 0 {
            return Err(Error::FileIsEmpty { path: path.to_owned() });
        }
        let endianness = match Self::parse_byte_order(bytes.as_slice()) {
            Ok(endianness) => endianness,
            Err(source) => return Err(Error::from_parse(source, path)),
        };
        let byte_order = endianness.resolve_on(native);
        let lib_count = match Self::parse_header_as(bytes.as_slice(), byte_order) {
            Ok(lib_count) => lib_count,
            Err(source) => return Err(Error::from_parse(source, path)),
        };
        Ok(Cache { path: path.to_owned(), map: bytes, byte_order, lib_count })
    }

    /// Finds the byte order that the flags byte of the header declares.
    pub fn parse_byte_order(bytes: &[u8]) -> (r: Result<Endianness, ParseError>)
        ensures
            r == byte_order_of(bytes@),
    {
        let flags_offset = skip(bytes, 0, FLAGS_OFFSET)?;
        let flags = read_u8(bytes, flags_offset)?;
        let code: u8 = flags % 4;
        if code == 0 {
            Ok(Endianness::Native)
        } else if code == 1 {
            Err(ParseError { offset: 0, code: ErrorKind::IsA })
        } else if code == 2 {
            Ok(Endianness::Little)
        } else {
            Ok(Endianness::Big)
        }
    }

    /// Validates the header and returns the record count that it declares,
    /// reading its integers in the byte order `byte_order`, where `Native`
    /// is the byte order of this host.
    pub fn parse_header(bytes: &[u8], byte_order: Endianness) -> (r: Result<u32, ParseError>)
        ensures
            r == header_of(bytes@, byte_order.on(ByteOrder::Little)) || r == header_of(
                bytes@,
                byte_order.on(ByteOrder::Big),
            ),
    {
        Self::parse_header_as(bytes, byte_order.resolve())
    }

    /// Validates the header and returns the record count that it declares,
    /// reading its integers in the given concrete byte order.
    pub fn parse_header_as(bytes: &[u8], byte_order: ByteOrder) -> (r: Result<u32, ParseError>)
        ensures
            r == header_of(bytes@, byte_order),
    {
        let magic: [u8; 20] = MAGIC;
        expect_tag(bytes, 0, magic.as_slice())?;
        let lib_count = read_u32(bytes, LIB_COUNT_OFFSET, byte_order)?;
        let string_table_size = read_u32(bytes, STRING_TABLE_SIZE_OFFSET, byte_order)?;
        skip(bytes, FLAGS_OFFSET, HEADER_SIZE - FLAGS_OFFSET)?;

        let max_lib_count = bytes.len().saturating_sub(HEADER_SIZE) / ENTRY_SIZE;
        if lib_count as usize > max_lib_count {
            return Err(ParseError { offset: 0, code: ErrorKind::TooLarge });
        }
        let entries_size = ENTRY_SIZE * (lib_count as usize);
        let max_string_table_size = bytes.len().saturating_sub(HEADER_SIZE).saturating_sub(
            entries_size,
        );
        if string_table_size as usize > max_string_table_size {
            return Err(ParseError { offset: 0, code: ErrorKind::TooLarge });
        }
        let min_size = HEADER_SIZE.saturating_add(entries_size).saturating_add(
            string_table_size as usize,
        );
        if bytes.len() < min_size {
            return Err(ParseError { offset: 0, code: ErrorKind::Eof });
        }
        Ok(lib_count)
    }

    /// Returns an iterator that returns cache entries.
    pub fn iter(&self) -> (r: Result<Iter<'_>, Error>)
        ensures
            r is Ok,
            r->Ok_0@ == self@.entries(),
            r->Ok_0.records() == self@.records(),
            r->Ok_0.strings() == self@.bytes,
            r->Ok_0.byte_order() == self@.byte_order,
            r->Ok_0.path() == self@.path,
    {
        proof {
            use_type_invariant(self);
        }
        let map = self.map.as_slice();
        assert(map@.len() <= usize::MAX) by {
            vstd::slice::axiom_spec_len(map);
        }
        let entries_end = HEADER_SIZE + ENTRY_SIZE * (self.lib_count as usize);
        let entries_bytes = vstd::slice::slice_subrange(map, HEADER_SIZE, entries_end);
        let iter = Iter {
            path: self.path.as_str(),
            entries_bytes,
            bytes: map,
            byte_order: self.byte_order,
        };
        proof {
            lemma_record_count_exact(entries_bytes@, layout(), self.lib_count as nat);
            assert(iter@ =~= self@.entries());
        }
        Ok(iter)
    }

    /// Returns the walk over the entries, as [`Cache::iter`] does.
    pub fn entries_iter(&self) -> (r: Result<Iter<'_>, Error>)
        ensures
            r is Ok,
            r->Ok_0@ == self@.entries(),
            r->Ok_0.records() == self@.records(),
            r->Ok_0.strings() == self@.bytes,
            r->Ok_0.byte_order() == self@.byte_order,
            r->Ok_0.path() == self@.path,
    {
        self.iter()
    }
}

/// Walk over the entries of a [`Cache`].
#[derive(Debug)]
pub struct Iter<'cache> {
    path: &'cache str,
    entries_bytes: &'cache [u8],
    bytes: &'cache [u8],
    byte_order: ByteOrder,
}

impl<'cache> View for Iter<'cache> {
    type V = Seq<Item>;

    /// The items that the walk has yet to give: one for each whole record
    /// that is left of the table.
    open spec fn view(&self) -> Seq<Item> {
        table_items(self.records(), layout(), self.strings(), self.byte_order(), self.path())
    }
}

impl<'cache> Iter<'cache> {
    /// The bytes of the table that the walk has yet to decode.
    pub closed spec fn records(&self) -> Seq<u8> {
        self.entries_bytes@
    }

    /// The bytes in which the offsets of a record are resolved.
    pub closed spec fn strings(&self) -> Seq<u8> {
        self.bytes@
    }

    /// The byte order in which the offsets of a record are read.
    pub closed spec fn byte_order(&self) -> ByteOrder {
        self.byte_order
    }

    /// The path of the cache file, which the failures name.
    pub closed spec fn path(&self) -> Seq<char> {
        self.path@
    }

    /// True if `later` is this walk at a later time: over the same strings,
    /// in the same byte order, for the same file.
    pub open spec fn goes_on_as(&self, later: &Self) -> bool {
        &&& later.strings() == self.strings()
        &&& later.byte_order() == self.byte_order()
        &&& later.path() == self.path()
    }

    /// Decodes the next record and steps over it.
    ///
    /// Where less than one record is left, this is the failure to parse one,
    /// and the walk stays where it is.
    pub fn next_fallible(&mut self) -> (r: Result<Entry<'cache>, Error>)
        ensures
            old(self).goes_on_as(final(self)),
            old(self).records().len() >= ENTRY_SIZE ==> {
                &&& item_view(r) == old(self)@[0]
                &&& final(self).records() == old(self).records().skip(ENTRY_SIZE as int)
                &&& final(self)@ == old(self)@.skip(1)
            },
            old(self).records().len() < ENTRY_SIZE ==> {
                &&& record_failure(old(self).records(), layout()) matches Some(source)
                    && item_view(r) == Err::<EntryView, ErrorView>(
                    ErrorView::Parse { path: old(self).path(), source },
                )
                &&& final(self).records() == old(self).records()
                &&& final(self)@ == old(self)@
            },
            old(self)@.len() > 0 <==> old(self).records().len() >= ENTRY_SIZE,
            r is Ok ==> r->Ok_0.file_name is Borrowed && r->Ok_0.full_path is Borrowed,
    {
        proof {
            if self.entries_bytes@.len() < ENTRY_SIZE {
                lemma_short_table_is_empty(self.entries_bytes@, layout());
            } else {
                lemma_table_items_skip(
                    self.entries_bytes@,
                    layout(),
                    self.bytes@,
                    self.byte_order,
                    self.path@,
                );
            }
        }
        let layout = Layout { record_size: ENTRY_SIZE, key_offset: ENTRY_KEY_OFFSET };
        let (item, rest) = next_record(
            self.entries_bytes,
            layout,
            self.bytes,
            self.byte_order,
            self.path,
        );
        self.entries_bytes = rest;
        item
    }

    /// Returns the next item, or `None` once fewer bytes than one record are
    /// left of the table. After the first `None`, every call returns `None`.
    pub fn next(&mut self) -> (r: Option<Result<Entry<'cache>, Error>>)
        ensures
            old(self).goes_on_as(final(self)),
            old(self).records().len() < ENTRY_SIZE ==> {
                &&& r is None
                &&& final(self).records() == old(self).records()
                &&& final(self)@ == old(self)@
            },
            old(self).records().len() >= ENTRY_SIZE ==> {
                &&& r is Some
                &&& item_view(r->0) == old(self)@[0]
                &&& final(self).records() == old(self).records().skip(ENTRY_SIZE as int)
                &&& final(self)@ == old(self)@.skip(1)
            },
            old(self)@.len() == 0 <==> old(self).records().len() < ENTRY_SIZE,
            r matches Some(Ok(entry)) ==> entry.file_name is Borrowed && entry.full_path
                is Borrowed,
    {
        if self.entries_bytes.len() < ENTRY_SIZE {
            proof {
                lemma_short_table_is_empty(self.entries_bytes@, layout());
            }
            None
        } else {
            proof {
                lemma_table_items_skip(
                    self.entries_bytes@,
                    layout(),
                    self.bytes@,
                    self.byte_order,
                    self.path@,
                );
            }
            Some(self.next_fallible())
        }
    }

    /// Bounds of the number of items that the walk has yet to give: both are
    /// that number.
    pub fn size_hint(&self) -> (r: (usize, Option<usize>))
        ensures
            r.0 == self@.len(),
            r.0 == self.records().len() / (ENTRY_SIZE as nat),
            r.1 == Some(r.0),
    {
        let layout = Layout { record_size: ENTRY_SIZE, key_offset: ENTRY_KEY_OFFSET };
        let remaining = count_records(self.entries_bytes, layout);
        (remaining, Some(remaining))
    }
}

/// True if `bytes` starts with a whole header that has the magic and a valid
/// byte-order code, and is long enough for the records and the string table
/// that the header declares, read on a host whose byte order is `native`.
pub open spec fn is_valid(bytes: Seq<u8>, native: ByteOrder) -> bool {
    &&& bytes.len() >= HEADER_SIZE
    &&& bytes.subrange(0, 20) == MAGIC@
    &&& byte_order_of_flags(bytes[FLAGS_OFFSET as int]) matches Some(endianness) && min_size(
        u32_of(bytes.subrange(20, 24), endianness.on(native)),
        u32_of(bytes.subrange(24, 28), endianness.on(native)),
    ) <= bytes.len()
}

/// A file loads if and only if it is valid. A walk over a loaded file gives
/// exactly as many items as the header declares records.
pub proof fn lemma_valid_file_loads(path: Seq<char>, bytes: Seq<u8>, native: ByteOrder)
    ensures
        loaded(path, bytes, native) is Ok <==> is_valid(bytes, native),
        loaded(path, bytes, native) matches Ok(cache) ==> {
            &&& cache.wf()
            &&& cache.lib_count == u32_of(bytes.subrange(20, 24), cache.byte_order)
            &&& cache.entries().len() == cache.lib_count
        },
{
}

/// A buffer that is shorter than the header is rejected by both parsers, and
/// loading it fails: with a parse error, unless the buffer is empty.
pub proof fn lemma_short_buffer_is_rejected(path: Seq<char>, bytes: Seq<u8>, native: ByteOrder)
    requires
        bytes.len() < HEADER_SIZE,
    ensures
        header_of(bytes, native) is Err,
        bytes.len() <= FLAGS_OFFSET ==> byte_order_of(bytes) is Err,
        loaded(path, bytes, native) is Err,
        bytes.len() > 0 ==> loaded(path, bytes, native)->Err_0 is Parse,
        bytes.len() == 0 ==> loaded(path, bytes, native)->Err_0 is FileIsEmpty,
{
}

/// The record count that the header parser returns is the one whose
/// encoding stands in the four bytes at the offset of the record count.
pub proof fn lemma_lib_count_round_trips(bytes: Seq<u8>, byte_order: ByteOrder)
    requires
        header_of(bytes, byte_order) is Ok,
    ensures
        bytes.subrange(LIB_COUNT_OFFSET as int, LIB_COUNT_OFFSET + 4) == u32_bytes(
            header_of(bytes, byte_order)->Ok_0,
            byte_order,
        ),
{
    lemma_u32_bytes_of_value(bytes.subrange(20, 24), byte_order);
}

/// A flags byte with the byte-order code 1 is rejected, whatever the other
/// bytes are.
pub proof fn lemma_byte_order_code_1_is_rejected(path: Seq<char>, bytes: Seq<u8>, native: ByteOrder)
    requires
        bytes.len() > FLAGS_OFFSET,
        bytes[FLAGS_OFFSET as int] % 4 == 1,
    ensures
        byte_order_of(bytes) == Err::<Endianness, ParseError>(failure(0, ErrorKind::IsA)),
        loaded(path, bytes, native) is Err,
{
}

/// A file that has room for the records, and behind them for the strings, is
/// as large as header, records and strings together.
pub proof fn lemma_room_for_all(len: nat, lib_count: u32, string_table_size: u32)
    requires
        len >= HEADER_SIZE,
        lib_count <= max_lib_count(len),
        string_table_size <= max_string_table_size(len, lib_count),
    ensures
        min_size(lib_count, string_table_size) <= len,
{
}

/// The size check does not wrap: a header that is accepted declares records
/// and strings that, counted without any bound on the integers, end inside
/// of the file.
pub proof fn lemma_accepted_sizes_fit(bytes: Seq<u8>, byte_order: ByteOrder)
    requires
        header_of(bytes, byte_order) is Ok,
    ensures
        HEADER_SIZE as int + (ENTRY_SIZE as int) * (u32_of(
            bytes.subrange(20, 24),
            byte_order,
        ) as int) + (u32_of(bytes.subrange(24, 28), byte_order) as int) <= bytes.len(),
{
}

/// A walk has as many items to give as whole records are left of its table:
/// none once fewer bytes than one record are left.
pub proof fn lemma_items_left(iter: Iter<'_>)
    ensures
        iter@.len() == iter.records().len() / (ENTRY_SIZE as nat),
        iter@.len() == 0 <==> iter.records().len() < ENTRY_SIZE,
{
    if iter.records().len() < ENTRY_SIZE {
        lemma_short_table_is_empty(iter.records(), layout());
    } else {
        lemma_table_items_skip(
            iter.records(),
            layout(),
            iter.strings(),
            iter.byte_order(),
            iter.path(),
        );
    }
}

/// Two walks that start from the same cache give the same items in the same
/// order.
pub proof fn lemma_iter_is_repeatable(cache: CacheView, first: Iter<'_>, second: Iter<'_>)
    requires
        first@ == cache.entries(),
        second@ == cache.entries(),
    ensures
        first@ == second@,
        first@.len() == cache.lib_count,
{
}

} // verus!
