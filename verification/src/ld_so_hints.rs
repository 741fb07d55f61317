//! Cache of the OpenBSD or NetBSD dynamic loader.
//!
//! The file starts with a header of eight `long` fields, which are 32 or 64
//! bits wide:
//!
//! | field | content                                   |
//! |-------|-------------------------------------------|
//! | 0     | magic                                     |
//! | 1     | version                                   |
//! | 2     | offset of the hash table                  |
//! | 3     | number of buckets of the hash table       |
//! | 4     | offset of the string table                |
//! | 5     | size of the string table                  |
//! | 6     | end of the hints, the greatest offset     |
//! | 7     | offset of the list of search directories  |
//!
//! Width and byte order are those under which the first two fields read as
//! the magic and as the version 2. A bucket of the hash table is made of
//! twelve 32-bit integers. Its first two are the offsets in the string table
//! of the NUL-terminated name and path of one library.

use vstd::prelude::*;

use crate::errors::{Error, ErrorKind, ErrorView, ParseError};
use crate::reader::{
    failure, in_bounds, read_word, saturated, saturating_mul, width_of, word_at, word_size,
    ByteOrder,
};
use crate::table::{
    count_records, lemma_record_count_exact, lemma_short_table_is_empty, lemma_table_items_skip,
    next_record, record_failure, table_items, Layout,
};
use crate::{item_view, DataModel, Entry, EntryView, Item};

verus! {

/// Where the cache file usually is.
pub const CACHE_FILE_PATH: &'static str = "/var/run/ld.so.hints";

/// Value of the first field of the header.
pub const MAGIC: u64 = 0x4c44_4869;

/// Value of the second field of the header. The older version 1 is not
/// supported.
pub const VERSION_2: u64 = 2;

/// Maximum number of recognized shared object version numbers.
pub const MAX_DEWEY: usize = 8;

/// Size of a bucket: name index, path index, the version numbers, their
/// count, and the index of the next bucket.
pub const BUCKET_SIZE: usize = 48;

/// Number of fields of the header.
pub const HEADER_FIELDS: usize = 8;

/// Size of the header under the data model `model`.
pub open spec fn header_size(model: DataModel) -> int {
    HEADER_FIELDS * word_size(model)
}

/// True if `bytes` starts with the magic and the version 2, as `long` fields
/// of the data model `model` in the byte order `byte_order`.
pub open spec fn is_variant(bytes: Seq<u8>, model: DataModel, byte_order: ByteOrder) -> bool {
    &&& word_at(bytes, 0, model, byte_order) == Ok::<u64, ParseError>(MAGIC)
    &&& word_at(bytes, word_size(model), model, byte_order) == Ok::<u64, ParseError>(VERSION_2)
}

/// What [`Cache::parse_byte_order`] returns on `bytes`: the first variant, in
/// the order 64-bit little-endian, 64-bit big-endian, 32-bit little-endian,
/// 32-bit big-endian, that `bytes` starts with. Where there is none, the
/// failure is that of the last one tried: at its version if its magic is
/// there, at its magic otherwise.
pub open spec fn byte_order_of(bytes: Seq<u8>) -> Result<(DataModel, ByteOrder), ParseError> {
    if is_variant(bytes, DataModel::LP64, ByteOrder::Little) {
        Ok((DataModel::LP64, ByteOrder::Little))
    } else if is_variant(bytes, DataModel::LP64, ByteOrder::Big) {
        Ok((DataModel::LP64, ByteOrder::Big))
    } else if is_variant(bytes, DataModel::ILP32, ByteOrder::Little) {
        Ok((DataModel::ILP32, ByteOrder::Little))
    } else if is_variant(bytes, DataModel::ILP32, ByteOrder::Big) {
        Ok((DataModel::ILP32, ByteOrder::Big))
    } else if word_at(bytes, 0, DataModel::ILP32, ByteOrder::Big) == Ok::<u64, ParseError>(
        MAGIC,
    ) {
        Err(failure(4, ErrorKind::Tag))
    } else {
        Err(failure(0, ErrorKind::Tag))
    }
}

/// The six fields that follow magic and version, as they are stored.
pub struct RawHeader {
    /// Offset of the hash table.
    pub hash_table: u64,
    /// Number of buckets of the hash table.
    pub bucket_count: u64,
    /// Offset of the string table.
    pub string_table: u64,
    /// Size of the string table.
    pub string_table_size: u64,
    /// End of the hints.
    pub end_of_hints: u64,
    /// Offset of the list of search directories.
    pub dir_list: u64,
}

impl RawHeader {
    /// Every field is an offset or a size that this machine can express.
    pub open spec fn fits(self) -> bool {
        &&& self.hash_table <= usize::MAX
        &&& self.bucket_count <= usize::MAX
        &&& self.string_table <= usize::MAX
        &&& self.string_table_size <= usize::MAX
        &&& self.end_of_hints <= usize::MAX
        &&& self.dir_list <= usize::MAX
    }

    /// Where the hash table ends, saturated.
    pub open spec fn hash_table_end(self) -> usize {
        saturated(self.hash_table + self.bucket_count * BUCKET_SIZE)
    }

    /// Where the string table ends, saturated.
    pub open spec fn string_table_end(self) -> usize {
        saturated(self.string_table + self.string_table_size)
    }

    /// The least size of a file with this header: the greatest of the end of
    /// the hash table, the end of the string table and the end of the hints.
    pub open spec fn min_size(self) -> int {
        let tables = if self.hash_table_end() >= self.string_table_end() {
            self.hash_table_end()
        } else {
            self.string_table_end()
        };
        if tables >= self.end_of_hints {
            tables as int
        } else {
            self.end_of_hints as int
        }
    }
}

/// What reading the field of index `index` of the header gives.
pub open spec fn field_at(bytes: Seq<u8>, model: DataModel, byte_order: ByteOrder, index: int)
    -> Result<u64, ParseError> {
    word_at(bytes, index * word_size(model), model, byte_order)
}

/// What reading the six fields that follow magic and version gives: the
/// fields, or the failure at the first of them that is not all there.
pub open spec fn raw_header_of(bytes: Seq<u8>, model: DataModel, byte_order: ByteOrder) -> Result<
    RawHeader,
    ParseError,
> {
    if !in_bounds(bytes, 0, 2 * word_size(model)) {
        Err(failure(0, ErrorKind::Eof))
    } else {
        match field_at(bytes, model, byte_order, 2) {
            Err(error) => Err(error),
            Ok(hash_table) => match field_at(bytes, model, byte_order, 3) {
                Err(error) => Err(error),
                Ok(bucket_count) => match field_at(bytes, model, byte_order, 4) {
                    Err(error) => Err(error),
                    Ok(string_table) => match field_at(bytes, model, byte_order, 5) {
                        Err(error) => Err(error),
                        Ok(string_table_size) => match field_at(bytes, model, byte_order, 6) {
                            Err(error) => Err(error),
                            Ok(end_of_hints) => match field_at(bytes, model, byte_order, 7) {
                                Err(error) => Err(error),
                                Ok(dir_list) => Ok(
                                    RawHeader {
                                        hash_table,
                                        bucket_count,
                                        string_table,
                                        string_table_size,
                                        end_of_hints,
                                        dir_list,
                                    },
                                ),
                            },
                        },
                    },
                },
            },
        }
    }
}

/// What [`Cache::parse_header`] returns on `bytes`: offset and bucket count
/// of the hash table, offset and size of the string table, of a header that
/// is all there, that this machine can express, and that declares no more
/// than the file holds.
pub open spec fn header_of(bytes: Seq<u8>, model: DataModel, byte_order: ByteOrder) -> Result<
    (usize, usize, usize, usize),
    ParseError,
> {
    match raw_header_of(bytes, model, byte_order) {
        Err(error) => Err(error),
        Ok(raw) => if !raw.fits() {
            Err(failure(0, ErrorKind::TooLarge))
        } else if bytes.len() < raw.min_size() {
            Err(failure(0, ErrorKind::Eof))
        } else {
            Ok(
                (
                    raw.hash_table as usize,
                    raw.bucket_count as usize,
                    raw.string_table as usize,
                    raw.string_table_size as usize,
                ),
            )
        },
    }
}

/// Layout of the buckets of the hash table.
pub open spec fn layout() -> Layout {
    Layout { record_size: BUCKET_SIZE, key_offset: 0 }
}

/// What a loaded [`Cache`] holds.
pub struct CacheView {
    /// Path of the cache file.
    pub path: Seq<char>,
    /// Content of the cache file.
    pub bytes: Seq<u8>,
    /// Byte order of the integers of the file.
    pub byte_order: ByteOrder,
    /// Offset of the hash table.
    pub hash_table: usize,
    /// Number of buckets of the hash table.
    pub bucket_count: usize,
    /// Offset of the string table.
    pub string_table: usize,
    /// Size of the string table.
    pub string_table_size: usize,
}

impl CacheView {
    /// Where the hash table ends, saturated.
    pub open spec fn hash_table_end(self) -> usize {
        saturated(self.hash_table + self.bucket_count * BUCKET_SIZE)
    }

    /// Where the string table ends, saturated.
    pub open spec fn string_table_end(self) -> usize {
        saturated(self.string_table + self.string_table_size)
    }

    /// Hash table and string table lie inside of the file.
    pub open spec fn wf(self) -> bool {
        &&& self.hash_table_end() <= self.bytes.len()
        &&& self.string_table_end() <= self.bytes.len()
    }

    /// The bytes of the hash table.
    pub open spec fn buckets(self) -> Seq<u8> {
        self.bytes.subrange(self.hash_table as int, self.hash_table_end() as int)
    }

    /// The bytes of the string table.
    pub open spec fn strings(self) -> Seq<u8> {
        self.bytes.subrange(self.string_table as int, self.string_table_end() as int)
    }

    /// What a walk over the cache gives: one item for each bucket, in the
    /// order of the hash table. The offsets of a bucket are offsets into the
    /// string table.
    pub open spec fn entries(self) -> Seq<Item> {
        table_items(self.buckets(), layout(), self.strings(), self.byte_order, self.path)
    }
}

/// What [`Cache::load`] returns for the file at `path` whose content is
/// `bytes`.
pub open spec fn loaded(path: Seq<char>, bytes: Seq<u8>) -> Result<CacheView, ErrorView> {
    if bytes.len() == 0 {
        Err(ErrorView::FileIsEmpty { path })
    } else {
        match byte_order_of(bytes) {
            Err(source) => Err(ErrorView::Parse { path, source }),
            Ok((model, byte_order)) => match header_of(bytes, model, byte_order) {
                Err(source) => Err(ErrorView::Parse { path, source }),
                Ok((hash_table, bucket_count, string_table, string_table_size)) => Ok(
                    CacheView {
                        path,
                        bytes,
                        byte_order,
                        hash_table,
                        bucket_count,
                        string_table,
                        string_table_size,
                    },
                ),
            },
        }
    }
}

/// True if `r` is what [`loaded`] says of `path` and `bytes`.
pub open spec fn is_loaded(r: Result<Cache, Error>, path: Seq<char>, bytes: Seq<u8>) -> bool {
    match r {
        Ok(cache) => loaded(path, bytes) == Ok::<CacheView, ErrorView>(cache@),
        Err(error) => loaded(path, bytes) == Err::<CacheView, ErrorView>(error@),
    }
}

/// Cache of the OpenBSD or NetBSD dynamic loader.
///
/// This holds the content of a dynamic loader cache file (*e.g.*,
/// `/var/run/ld.so.hints`), for either 32-bits or 64-bits architectures, in
/// either little-endian or big-endian byte order.
#[derive(Debug)]
pub struct Cache {
    path: String,
    map: Vec<u8>,
    byte_order: ByteOrder,
    hash_table: usize,
    bucket_count: usize,
    string_table: usize,
    string_table_size: usize,
}

impl View for Cache {
    type V = CacheView;

    closed spec fn view(&self) -> CacheView {
        CacheView {
            path: self.path@,
            bytes: self.map@,
            byte_order: self.byte_order,
            hash_table: self.hash_table,
            bucket_count: self.bucket_count,
            string_table: self.string_table,
            string_table_size: self.string_table_size,
        }
    }
}

impl Cache {
    #[verifier::type_invariant]
    spec fn well_formed(&self) -> bool {
        self@.wf()
    }

    /// Loads the content `bytes` of the file `/var/run/ld.so.hints`.
    pub fn load_default(bytes: Vec<u8>) -> (r: Result<Cache, Error>)
        ensures
            is_loaded(r, CACHE_FILE_PATH@, bytes@),
    {
        Self::load(CACHE_FILE_PATH, bytes)
    }

    /// Loads the content `bytes` of the cache file at `path`.
    pub fn load(path: &str, bytes: Vec<u8>) -> (r: Result<Cache, Error>)
        ensures
            is_loaded(r, path@, bytes@),
    {
        if bytes.len() == 0 {
            return Err(Error::FileIsEmpty { path: path.to_owned() });
        }
        let (model, byte_order) = match Self::parse_byte_order(bytes.as_slice()) {
            Ok(variant) => variant,
            Err(source) => return Err(Error::from_parse(source, path)),
        };
        let (hash_table, bucket_count, string_table, string_table_size) = match Self::parse_header(
            bytes.as_slice(),
            model,
            byte_order,
        ) {
            Ok(header) => header,
            Err(source) => return Err(Error::from_parse(source, path)),
        };
        Ok(
            Cache {
                path: path.to_owned(),
                map: bytes,
                byte_order,
                hash_table,
                bucket_count,
                string_table,
                string_table_size,
            },
        )
    }

    /// Returns true if `bytes` starts with the magic and the version 2 in the
    /// given width and byte order. Where it does not, the second part of the
    /// result tells whether the magic is there.
    fn starts_as(bytes: &[u8], model: DataModel, byte_order: ByteOrder) -> (r: (bool, bool))
        ensures
            r.0 == is_variant(bytes@, model, byte_order),
            r.1 == (word_at(bytes@, 0, model, byte_order) == Ok::<u64, ParseError>(MAGIC)),
    {
        match read_word(bytes, 0, model, byte_order) {
            Ok(magic) => if magic == MAGIC {
                match read_word(bytes, width_of(model), model, byte_order) {
                    Ok(version) => (version == VERSION_2, true),
                    Err(_) => (false, true),
                }
            } else {
                (false, false)
            },
            Err(_) => (false, false),
        }
    }

    /// Finds the width and the byte order of the fields of the header.
    pub fn parse_byte_order(bytes: &[u8]) -> (r: Result<(DataModel, ByteOrder), ParseError>)
        ensures
            r == byte_order_of(bytes@),
    {
        if Self::starts_as(bytes, DataModel::LP64, ByteOrder::Little).0 {
            return Ok((DataModel::LP64, ByteOrder::Little));
        }
        if Self::starts_as(bytes, DataModel::LP64, ByteOrder::Big).0 {
            return Ok((DataModel::LP64, ByteOrder::Big));
        }
        if Self::starts_as(bytes, DataModel::ILP32, ByteOrder::Little).0 {
            return Ok((DataModel::ILP32, ByteOrder::Little));
        }
        let (found, magic_found) = Self::starts_as(bytes, DataModel::ILP32, ByteOrder::Big);
        if found {
            Ok((DataModel::ILP32, ByteOrder::Big))
        } else if magic_found {
            Err(ParseError { offset: 4, code: ErrorKind::Tag })
        } else {
            Err(ParseError { offset: 0, code: ErrorKind::Tag })
        }
    }

    /// Validates the header and returns offset and bucket count of the hash
    /// table, and offset and size of the string table.
    pub fn parse_header(bytes: &[u8], data_model: DataModel, byte_order: ByteOrder) -> (r: Result<
        (usize, usize, usize, usize),
        ParseError,
    >)
        ensures
            r == header_of(bytes@, data_model, byte_order),
    {
        let (hash_table, bucket_count, string_table, string_table_size, end_of_hints, _dir_list) =
            match Self::parse_header_impl(bytes, data_model, byte_order) {
            Ok(fields) => fields,
            Err(error) => return Err(error),
        };
        let hash_table_end = hash_table.saturating_add(saturating_mul(bucket_count, BUCKET_SIZE));
        let string_table_end = string_table.saturating_add(string_table_size);
        let tables_end = if hash_table_end >= string_table_end {
            hash_table_end
        } else {
            string_table_end
        };
        let min_size = if tables_end >= end_of_hints {
            tables_end
        } else {
            end_of_hints
        };
        if bytes.len() < min_size {
            return Err(ParseError { offset: 0, code: ErrorKind::Eof });
        }
        Ok((hash_table, bucket_count, string_table, string_table_size))
    }

    /// Converts a field of the header to a size of this machine.
    fn into_usize(value: u64) -> (r: Result<usize, ParseError>)
        ensures
            r == (if value <= usize::MAX {
                Ok::<usize, ParseError>(value as usize)
            } else {
                Err(failure(0, ErrorKind::TooLarge))
            }),
    {
        if value <= usize::MAX as u64 {
            Ok(value as usize)
        } else {
            Err(ParseError { offset: 0, code: ErrorKind::TooLarge })
        }
    }

    /// Reads the six fields that follow magic and version, at the width of
    /// the data model, and converts them to sizes of this machine.
    pub fn parse_header_impl(bytes: &[u8], data_model: DataModel, byte_order: ByteOrder) -> (r:
        Result<(usize, usize, usize, usize, usize, usize), ParseError>)
        ensures
            match raw_header_of(bytes@, data_model, byte_order) {
                Err(error) => r == Err::<(usize, usize, usize, usize, usize, usize), ParseError>(
                    error,
                ),
                Ok(raw) => if raw.fits() {
                    r == Ok::<(usize, usize, usize, usize, usize, usize), ParseError>(
                        (
                            raw.hash_table as usize,
                            raw.bucket_count as usize,
                            raw.string_table as usize,
                            raw.string_table_size as usize,
                            raw.end_of_hints as usize,
                            raw.dir_list as usize,
                        ),
                    )
                } else {
                    r == Err::<(usize, usize, usize, usize, usize, usize), ParseError>(
                        failure(0, ErrorKind::TooLarge),
                    )
                },
            },
    {
        let width = width_of(data_model);
        if bytes.len() < 2 * width {
            return Err(ParseError { offset: 0, code: ErrorKind::Eof });
        }
        let hash_table = read_word(bytes, 2 * width, data_model, byte_order)?;
        let bucket_count = read_word(bytes, 3 * width, data_model, byte_order)?;
        let string_table = read_word(bytes, 4 * width, data_model, byte_order)?;
        let string_table_size = read_word(bytes, 5 * width, data_model, byte_order)?;
        let end_of_hints = read_word(bytes, 6 * width, data_model, byte_order)?;
        let dir_list = read_word(bytes, 7 * width, data_model, byte_order)?;
        Ok(
            (
                Self::into_usize(hash_table)?,
                Self::into_usize(bucket_count)?,
                Self::into_usize(string_table)?,
                Self::into_usize(string_table_size)?,
                Self::into_usize(end_of_hints)?,
                Self::into_usize(dir_list)?,
            ),
        )
    }

    /// Returns an iterator that returns cache entries.
    pub fn iter(&self) -> (r: Result<Iter<'_>, Error>)
        ensures
            r is Ok,
            r->Ok_0@ == self@.entries(),
            r->Ok_0.records() == self@.buckets(),
            r->Ok_0.strings() == self@.strings(),
            r->Ok_0.byte_order() == self@.byte_order,
            r->Ok_0.path() == self@.path,
    {
        proof {
            use_type_invariant(self);
        }
        let map = self.map.as_slice();
        let hash_table_end = self.hash_table.saturating_add(
            saturating_mul(self.bucket_count, BUCKET_SIZE),
        );
        let hash_table = vstd::slice::slice_subrange(map, self.hash_table, hash_table_end);
        let string_table_end = self.string_table.saturating_add(self.string_table_size);
        let string_table = vstd::slice::slice_subrange(map, self.string_table, string_table_end);
        Ok(Iter { path: self.path.as_str(), hash_table, string_table, byte_order: self.byte_order })
    }

    /// Returns the walk over the entries, as [`Cache::iter`] does.
    pub fn entries_iter(&self) -> (r: Result<Iter<'_>, Error>)
        ensures
            r is Ok,
            r->Ok_0@ == self@.entries(),
            r->Ok_0.records() == self@.buckets(),
            r->Ok_0.strings() == self@.strings(),
            r->Ok_0.byte_order() == self@.byte_order,
            r->Ok_0.path() == self@.path,
    {
        self.iter()
    }
}

/// Walk over the entries of a [`Cache`].
#[derive(Debug)]
pub struct Iter<'cache> {
    path: &'cache str,
    hash_table: &'cache [u8],
    string_table: &'cache [u8],
    byte_order: ByteOrder,
}

impl<'cache> View for Iter<'cache> {
    type V = Seq<Item>;

    /// The items that the walk has yet to give: one for each whole bucket
    /// that is left of the table.
    open spec fn view(&self) -> Seq<Item> {
        table_items(self.records(), layout(), self.strings(), self.byte_order(), self.path())
    }
}

impl<'cache> Iter<'cache> {
    /// The bytes of the table that the walk has yet to decode.
    pub closed spec fn records(&self) -> Seq<u8> {
        self.hash_table@
    }

    /// The bytes in which the offsets of a bucket are resolved.
    pub closed spec fn strings(&self) -> Seq<u8> {
        self.string_table@
    }

    /// The byte order in which the offsets of a bucket are read.
    pub closed spec fn byte_order(&self) -> ByteOrder {
        self.byte_order
    }

    /// The path of the cache file, which the failures name.
    pub closed spec fn path(&self) -> Seq<char> {
        self.path@
    }

    /// True if `later` is this walk at a later time: over the same strings,
    /// in the same byte order, for the same file.
    pub open spec fn goes_on_as(&self, later: &Self) -> bool {
        &&& later.strings() == self.strings()
        &&& later.byte_order() == self.byte_order()
        &&& later.path() == self.path()
    }

    /// Decodes the next bucket and steps over it.
    ///
    /// Where less than one bucket is left, this is the failure to parse one,
    /// and the walk stays where it is.
    pub fn next_fallible(&mut self) -> (r: Result<Entry<'cache>, Error>)
        ensures
            old(self).goes_on_as(final(self)),
            old(self).records().len() >= BUCKET_SIZE ==> {
                &&& item_view(r) == old(self)@[0]
                &&& final(self).records() == old(self).records().skip(BUCKET_SIZE as int)
                &&& final(self)@ == old(self)@.skip(1)
            },
            old(self).records().len() < BUCKET_SIZE ==> {
                &&& record_failure(old(self).records(), layout()) matches Some(source)
                    && item_view(r) == Err::<EntryView, ErrorView>(
                    ErrorView::Parse { path: old(self).path(), source },
                )
                &&& final(self).records() == old(self).records()
                &&& final(self)@ == old(self)@
            },
            old(self)@.len() > 0 <==> old(self).records().len() >= BUCKET_SIZE,
            r is Ok ==> r->Ok_0.file_name is Borrowed && r->Ok_0.full_path is Borrowed,
    {
        proof {
            if self.hash_table@.len() < BUCKET_SIZE {
                lemma_short_table_is_empty(self.hash_table@, layout());
            } else {
                lemma_table_items_skip(
                    self.hash_table@,
                    layout(),
                    self.string_table@,
                    self.byte_order,
                    self.path@,
                );
            }
        }
        let layout = Layout { record_size: BUCKET_SIZE, key_offset: 0 };
        let (item, rest) = next_record(
            self.hash_table,
            layout,
            self.string_table,
            self.byte_order,
            self.path,
        );
        self.hash_table = rest;
        item
    }

    /// Returns the next item, or `None` once fewer bytes than one bucket are
    /// left of the table. After the first `None`, every call returns `None`.
    pub fn next(&mut self) -> (r: Option<Result<Entry<'cache>, Error>>)
        ensures
            old(self).goes_on_as(final(self)),
            old(self).records().len() < BUCKET_SIZE ==> {
                &&& r is None
                &&& final(self).records() == old(self).records()
                &&& final(self)@ == old(self)@
            },
            old(self).records().len() >= BUCKET_SIZE ==> {
                &&& r is Some
                &&& item_view(r->0) == old(self)@[0]
                &&& final(self).records() == old(self).records().skip(BUCKET_SIZE as int)
                &&& final(self)@ == old(self)@.skip(1)
            },
            old(self)@.len() == 0 <==> old(self).records().len() < BUCKET_SIZE,
            r matches Some(Ok(entry)) ==> entry.file_name is Borrowed && entry.full_path
                is Borrowed,
    {
        if self.hash_table.len() < BUCKET_SIZE {
            proof {
                lemma_short_table_is_empty(self.hash_table@, layout());
            }
            None
        } else {
            proof {
                lemma_table_items_skip(
                    self.hash_table@,
                    layout(),
                    self.string_table@,
                    self.byte_order,
                    self.path@,
                );
            }
            Some(self.next_fallible())
        }
    }

    /// Bounds of the number of items that the walk has yet to give: both are
    /// that number.
    pub fn size_hint(&self) -> (r: (usize, Option<usize>))
        ensures
            r.0 == self@.len(),
            r.0 == self.records().len() / (BUCKET_SIZE as nat),
            r.1 == Some(r.0),
    {
        let layout = Layout { record_size: BUCKET_SIZE, key_offset: 0 };
        let remaining = count_records(self.hash_table, layout);
        (remaining, Some(remaining))
    }
}

/// True if `bytes` starts with a whole header of the data model `model` in
/// the byte order `byte_order`, with magic and version 2, whose fields this
/// machine can express, and is as long as the header asks.
pub open spec fn is_valid(bytes: Seq<u8>, model: DataModel, byte_order: ByteOrder) -> bool {
    &&& bytes.len() >= header_size(model)
    &&& is_variant(bytes, model, byte_order)
    &&& raw_header_of(bytes, model, byte_order) matches Ok(raw) && raw.fits() && raw.min_size()
        <= bytes.len()
}

/// A file loads if and only if it is valid in the first width and byte order
/// that its magic and version match. Loading keeps the fields of the header,
/// and both tables of a loaded file lie inside of it.
pub proof fn lemma_valid_file_loads(path: Seq<char>, bytes: Seq<u8>)
    ensures
        loaded(path, bytes) is Ok <==> (byte_order_of(bytes) matches Ok((model, byte_order))
            && is_valid(bytes, model, byte_order)),
        loaded(path, bytes) matches Ok(cache) ==> cache.wf(),
{
}

/// Where the end of the hash table does not saturate, and so for every file
/// that is shorter than the greatest `usize`, a walk over a loaded file
/// gives exactly as many items as the header declares buckets.
pub proof fn lemma_walk_gives_bucket_count(cache: CacheView)
    requires
        cache.wf(),
        cache.bytes.len() < usize::MAX || cache.hash_table + cache.bucket_count * BUCKET_SIZE
            <= usize::MAX,
    ensures
        cache.hash_table + cache.bucket_count * BUCKET_SIZE <= cache.bytes.len(),
        cache.entries().len() == cache.bucket_count,
{
    lemma_record_count_exact(cache.buckets(), layout(), cache.bucket_count as nat);
}

/// A buffer that is shorter than the header of a data model is rejected by
/// the header parser of that data model. A buffer that is shorter than the
/// smaller of the two headers fails to load: with a parse error, unless the
/// buffer is empty.
pub proof fn lemma_short_buffer_is_rejected(
    path: Seq<char>,
    bytes: Seq<u8>,
    model: DataModel,
    byte_order: ByteOrder,
)
    ensures
        bytes.len() < header_size(model) ==> header_of(bytes, model, byte_order) is Err,
        bytes.len() < 2 * word_size(DataModel::ILP32) ==> byte_order_of(bytes) is Err,
        bytes.len() < header_size(DataModel::ILP32) ==> loaded(path, bytes) is Err,
        0 < bytes.len() < header_size(DataModel::ILP32) ==> loaded(path, bytes)->Err_0 is Parse,
{
}

/// Only version 2 is accepted: the width and byte order that are found are
/// such that the version field reads as 2, and a buffer whose version field
/// reads as 2 in no width and byte order is rejected, whatever its magic:
/// where magic or version was looked for. Such a file fails to load: with
/// that parse failure, unless the file is empty.
pub proof fn lemma_other_versions_are_rejected(path: Seq<char>, bytes: Seq<u8>)
    ensures
        byte_order_of(bytes) matches Ok((model, byte_order)) ==> word_at(
            bytes,
            word_size(model),
            model,
            byte_order,
        ) == Ok::<u64, ParseError>(VERSION_2),
        (forall|model: DataModel, byte_order: ByteOrder|
            word_at(bytes, word_size(model), model, byte_order) != Ok::<u64, ParseError>(
                VERSION_2,
            )) ==> {
            &&& byte_order_of(bytes) matches Err(source) && source.code == ErrorKind::Tag
            &&& loaded(path, bytes) is Err
            &&& bytes.len() > 0 ==> loaded(path, bytes) == Err::<CacheView, ErrorView>(
                ErrorView::Parse { path, source: byte_order_of(bytes)->Err_0 },
            )
        },
{
    if forall|model: DataModel, byte_order: ByteOrder|
        word_at(bytes, word_size(model), model, byte_order) != Ok::<u64, ParseError>(VERSION_2) {
        assert(!is_variant(bytes, DataModel::LP64, ByteOrder::Little));
        assert(!is_variant(bytes, DataModel::LP64, ByteOrder::Big));
        assert(!is_variant(bytes, DataModel::ILP32, ByteOrder::Little));
        assert(!is_variant(bytes, DataModel::ILP32, ByteOrder::Big));
    }
}

/// The size check does not wrap: the least size that a header asks for is
/// no less than the true end of each table, unless it is the greatest
/// `usize`. So a header that a file shorter than that accepts has both
/// tables, counted without any bound on the integers, end inside of the file.
pub proof fn lemma_accepted_sizes_fit(bytes: Seq<u8>, model: DataModel, byte_order: ByteOrder)
    requires
        header_of(bytes, model, byte_order) is Ok,
    ensures
        ({
            let (hash_table, bucket_count, string_table, string_table_size) = header_of(
                bytes,
                model,
                byte_order,
            )->Ok_0;
            bytes.len() < usize::MAX ==> {
                &&& hash_table + bucket_count * BUCKET_SIZE <= bytes.len()
                &&& string_table + string_table_size <= bytes.len()
            }
        }),
{
}

/// A walk has as many items to give as whole buckets are left of its table:
/// none once fewer bytes than one bucket are left.
pub proof fn lemma_items_left(iter: Iter<'_>)
    ensures
        iter@.len() == iter.records().len() / (BUCKET_SIZE as nat),
        iter@.len() == 0 <==> iter.records().len() < BUCKET_SIZE,
{
    if iter.records().len() < BUCKET_SIZE {
        lemma_short_table_is_empty(iter.records(), layout());
    } else {
        lemma_table_items_skip(
            iter.records(),
            layout(),
            iter.strings(),
            iter.byte_order(),
            iter.path(),
        );
    }
}

/// Two walks that start from the same cache give the same items in the same
/// order.
pub proof fn lemma_iter_is_repeatable(cache: CacheView, first: Iter<'_>, second: Iter<'_>)
    requires
        first@ == cache.entries(),
        second@ == cache.entries(),
    ensures
        first@ == second@,
{
}

} // verus!
