//! Cache of the FreeBSD dynamic loader.
//!
//! The file starts with a header of 128 bytes, made of 32-bit integers:
//!
//! | offset | field                                               |
//! |--------|-----------------------------------------------------|
//! | 0      | magic                                               |
//! | 4      | version, 1                                          |
//! | 8      | offset of the string table in the file              |
//! | 12     | size of the string table                            |
//! | 16     | offset of the directory list in the string table    |
//! | 20     | length of the directory list                        |
//! | 24     | room for expansion, 104 bytes                       |
//!
//! The magic is the number `0x45686e74`: a little-endian file starts with the
//! bytes `74 6e 68 45`, a big-endian file with the same bytes in reverse. The
//! directory list is one string, terminated by a NUL byte, in which colons
//! separate the directories that the loader searches. The libraries are the
//! members of these directories: the file itself names none.

use vstd::prelude::*;

use crate::errors::{Error, ErrorKind, ErrorView, ParseError};
use crate::reader::{failure, in_bounds, read_u32, skip, u32_at, u32_of, ByteOrder};
use crate::utils::{find, position};
use crate::{Entry, EntryView, Item};

verus! {

/// Where the cache file of the native architecture usually is.
pub const CACHE_FILE_PATH: &'static str = "/var/run/ld-elf.so.hints";

/// Where the cache file of the 32-bit compatibility architecture usually is.
pub const CACHE_FILE_PATH_32: &'static str = "/var/run/ld-elf32.so.hints";

/// Value of the first field of the header.
pub const MAGIC: u32 = 0x4568_6e74;

/// Value of the second field of the header.
pub const VERSION: u32 = 1;

/// Size of the header.
pub const HEADER_SIZE: usize = 128;

/// Offset of the version in the header.
pub const VERSION_OFFSET: usize = 4;

/// Offset, in the header, of the offset of the string table.
pub const STRING_TABLE_OFFSET_OFFSET: usize = 8;

/// Offset, in the header, of the size of the string table.
pub const STRING_TABLE_SIZE_OFFSET: usize = 12;

/// Offset, in the header, of the offset of the directory list.
pub const DIR_LIST_OFFSET_OFFSET: usize = 16;

/// Offset, in the header, of the length of the directory list.
pub const DIR_LIST_SIZE_OFFSET: usize = 20;

/// Offset of the room for expansion in the header.
pub const SPARE_OFFSET: usize = 24;

/// The byte that separates the directories of the directory list.
pub const SEPARATOR: u8 = 0x3a;

/// What [`Cache::parse_byte_order`] returns on `bytes`: the byte order in
/// which the first four bytes read as the magic.
pub open spec fn byte_order_of(bytes: Seq<u8>) -> Result<ByteOrder, ParseError> {
    if u32_at(bytes, 0, ByteOrder::Little) == Ok::<u32, ParseError>(MAGIC) {
        Ok(ByteOrder::Little)
    } else if u32_at(bytes, 0, ByteOrder::Big) == Ok::<u32, ParseError>(MAGIC) {
        Ok(ByteOrder::Big)
    } else {
        Err(failure(0, ErrorKind::Tag))
    }
}

/// The least size of a file whose string table is at `string_table_offset`
/// and has `string_table_size` bytes, and whose directory list is at
/// `dir_list_offset` of the string table and has `dir_list_size` bytes
/// before its NUL byte.
pub open spec fn min_size(
    string_table_offset: u32,
    string_table_size: u32,
    dir_list_offset: u32,
    dir_list_size: u32,
) -> int {
    let string_table_end = string_table_offset + string_table_size;
    let dir_list_end = string_table_offset + dir_list_offset + dir_list_size + 1;
    if string_table_end >= dir_list_end {
        string_table_end
    } else {
        dir_list_end
    }
}

/// What [`Cache::parse_header`] returns on `bytes`: offset of the string
/// table, offset of the directory list in it, and length of the directory
/// list, of a header that is all there, has the version 1, declares ends
/// that are no greater than `u32::MAX`, and no more than the file holds.
pub open spec fn header_of(bytes: Seq<u8>, byte_order: ByteOrder) -> Result<
    (u32, u32, u32),
    ParseError,
> {
    if !in_bounds(bytes, 0, VERSION_OFFSET as int) {
        Err(failure(0, ErrorKind::Eof))
    } else if u32_at(bytes, VERSION_OFFSET as int, byte_order) != Ok::<u32, ParseError>(VERSION) {
        Err(failure(VERSION_OFFSET as int, ErrorKind::Tag))
    } else if !in_bounds(bytes, STRING_TABLE_OFFSET_OFFSET as int, 4) {
        Err(failure(STRING_TABLE_OFFSET_OFFSET as int, ErrorKind::Eof))
    } else if !in_bounds(bytes, STRING_TABLE_SIZE_OFFSET as int, 4) {
        Err(failure(STRING_TABLE_SIZE_OFFSET as int, ErrorKind::Eof))
    } else if !in_bounds(bytes, DIR_LIST_OFFSET_OFFSET as int, 4) {
        Err(failure(DIR_LIST_OFFSET_OFFSET as int, ErrorKind::Eof))
    } else if !in_bounds(bytes, DIR_LIST_SIZE_OFFSET as int, 4) {
        Err(failure(DIR_LIST_SIZE_OFFSET as int, ErrorKind::Eof))
    } else if !in_bounds(bytes, SPARE_OFFSET as int, HEADER_SIZE - SPARE_OFFSET) {
        Err(failure(SPARE_OFFSET as int, ErrorKind::Eof))
    } else {
        let string_table_offset = u32_of(bytes.subrange(8, 12), byte_order);
        let string_table_size = u32_of(bytes.subrange(12, 16), byte_order);
        let dir_list_offset = u32_of(bytes.subrange(16, 20), byte_order);
        let dir_list_size = u32_of(bytes.subrange(20, 24), byte_order);
        if string_table_offset + string_table_size > u32::MAX {
            Err(failure(0, ErrorKind::TooLarge))
        } else if string_table_offset + dir_list_offset > u32::MAX {
            Err(failure(0, ErrorKind::TooLarge))
        } else if string_table_offset + dir_list_offset + dir_list_size + 1 > u32::MAX {
            Err(failure(0, ErrorKind::TooLarge))
        } else if bytes.len() < min_size(
            string_table_offset,
            string_table_size,
            dir_list_offset,
            dir_list_size,
        ) {
            Err(failure(0, ErrorKind::Eof))
        } else {
            Ok((string_table_offset, dir_list_offset, dir_list_size))
        }
    }
}

/// The parts of `s` that the bytes `separator` of `s` separate, in their
/// order: one more than there are separators, and empty where two
/// separators meet, or where `s` starts or ends with one.
pub open spec fn split(s: Seq<u8>, separator: u8) -> Seq<Seq<u8>>
    decreases s.len(),
{
    match position(s, separator) {
        Some(n) => if 0 <= n < s.len() {
            seq![s.take(n)] + split(s.skip(n + 1), separator)
        } else {
            seq![s]
        },
        None => seq![s],
    }
}

/// What a member of the directory `directory` gives to a walk over the
/// entries: its name and path if it could be had, a failure to read the
/// directory otherwise.
pub open spec fn member_item(directory: Seq<char>, member: Option<(Vec<u8>, Vec<u8>)>) -> Item {
    match member {
        Some((file_name, full_path)) => Ok(
            EntryView { file_name: file_name@, full_path: full_path@ },
        ),
        None => Err(ErrorView::ReadDir { path: directory }),
    }
}

/// What a loaded [`Cache`] holds.
pub struct CacheView {
    /// Content of the cache file.
    pub bytes: Seq<u8>,
    /// Offset of the directory list in the file.
    pub dir_list_offset: u32,
    /// Length of the directory list.
    pub dir_list_size: u32,
}

impl CacheView {
    /// The directory list and its NUL byte lie inside of the file.
    pub open spec fn wf(self) -> bool {
        self.dir_list_offset + self.dir_list_size + 1 <= self.bytes.len()
    }

    /// The bytes of the directory list.
    pub open spec fn dir_list(self) -> Seq<u8> {
        self.bytes.subrange(
            self.dir_list_offset as int,
            self.dir_list_offset + self.dir_list_size,
        )
    }

    /// The directories that the cache names, in the order of the list.
    pub open spec fn directories(self) -> Seq<Seq<u8>> {
        split(self.dir_list(), SEPARATOR)
    }
}

/// What [`Cache::load`] returns for the file at `path` whose content is
/// `bytes`.
pub open spec fn loaded(path: Seq<char>, bytes: Seq<u8>) -> Result<CacheView, ErrorView> {
    if bytes.len() == 0 {
        Err(ErrorView::FileIsEmpty { path })
    } else {
        match byte_order_of(bytes) {
            Err(source) => Err(ErrorView::Parse { path, source }),
            Ok(byte_order) => match header_of(bytes, byte_order) {
                Err(source) => Err(ErrorView::Parse { path, source }),
                Ok((string_table_offset, dir_list_offset, dir_list_size)) => Ok(
                    CacheView {
                        bytes,
                        dir_list_offset: (string_table_offset + dir_list_offset) as u32,
                        dir_list_size,
                    },
                ),
            },
        }
    }
}

/// True if `r` is what [`loaded`] says of `path` and `bytes`.
pub open spec fn is_loaded(r: Result<Cache, Error>, path: Seq<char>, bytes: Seq<u8>) -> bool {
    match r {
        Ok(cache) => loaded(path, bytes) == Ok::<CacheView, ErrorView>(cache@),
        Err(error) => loaded(path, bytes) == Err::<CacheView, ErrorView>(error@),
    }
}

/// Cache of the FreeBSD dynamic loader.
///
/// This holds the content of a dynamic loader cache file (*e.g.*,
/// `/var/run/ld-elf.so.hints`, `/var/run/ld-elf32.so.hints`), for either
/// 32-bits or 64-bits architectures, in either little-endian or big-endian
/// byte order.
#[derive(Debug)]
pub struct Cache {
    map: Vec<u8>,
    dir_list_offset: u32,
    dir_list_size: u32,
}

impl View for Cache {
    type V = CacheView;

    closed spec fn view(&self) -> CacheView {
        CacheView {
            bytes: self.map@,
            dir_list_offset: self.dir_list_offset,
            dir_list_size: self.dir_list_size,
        }
    }
}

impl Cache {
    #[verifier::type_invariant]
    spec fn well_formed(&self) -> bool {
        self@.wf()
    }

    /// Loads the content `bytes` of the cache file at `path`.
    pub fn load(path: &str, bytes: Vec<u8>) -> (r: Result<Cache, Error>)
        ensures
            is_loaded(r, path@, bytes@),
    {
        if bytes.len() == 0 {
            return Err(Error::FileIsEmpty { path: path.to_owned() });
        }
        let byte_order = match Self::parse_byte_order(bytes.as_slice()) {
            Ok(byte_order) => byte_order,
            Err(source) => return Err(Error::from_parse(source, path)),
        };
        let (string_table_offset, dir_list_offset, dir_list_size) = match Self::parse_header(
            bytes.as_slice(),
            byte_order,
        ) {
            Ok(header) => header,
            Err(source) => return Err(Error::from_parse(source, path)),
        };
        Ok(
            Cache {
                map: bytes,
                dir_list_offset: string_table_offset.saturating_add(dir_list_offset),
                dir_list_size,
            },
        )
    }

    /// Finds the byte order of the file from its magic.
    pub fn parse_byte_order(bytes: &[u8]) -> (r: Result<ByteOrder, ParseError>)
        ensures
            r == byte_order_of(bytes@),
    {
        match read_u32(bytes, 0, ByteOrder::Little) {
            Ok(magic) => if magic == MAGIC {
                return Ok(ByteOrder::Little);
            },
            Err(_) => {},
        }
        match read_u32(bytes, 0, ByteOrder::Big) {
            Ok(magic) => if magic == MAGIC {
                return Ok(ByteOrder::Big);
            },
            Err(_) => {},
        }
        Err(ParseError { offset: 0, code: ErrorKind::Tag })
    }

    /// Validates the header and returns the offset of the string table, the
    /// offset of the directory list in the string table, and the length of
    /// the directory list.
    pub fn parse_header(bytes: &[u8], byte_order: ByteOrder) -> (r: Result<
        (u32, u32, u32),
        ParseError,
    >)
        ensures
            r == header_of(bytes@, byte_order),
    {
        let version_offset = skip(bytes, 0, VERSION_OFFSET)?;
        match read_u32(bytes, version_offset, byte_order) {
            Ok(version) => if version != VERSION {
                return Err(ParseError { offset: VERSION_OFFSET, code: ErrorKind::Tag });
            },
            Err(_) => return Err(ParseError { offset: VERSION_OFFSET, code: ErrorKind::Tag }),
        }
        let string_table_offset = read_u32(bytes, STRING_TABLE_OFFSET_OFFSET, byte_order)?;
        let string_table_size = read_u32(bytes, STRING_TABLE_SIZE_OFFSET, byte_order)?;
        let dir_list_offset = read_u32(bytes, DIR_LIST_OFFSET_OFFSET, byte_order)?;
        let dir_list_size = read_u32(bytes, DIR_LIST_SIZE_OFFSET, byte_order)?;
        skip(bytes, SPARE_OFFSET, HEADER_SIZE - SPARE_OFFSET)?;

        if string_table_size > u32::MAX.saturating_sub(string_table_offset) {
            return Err(ParseError { offset: 0, code: ErrorKind::TooLarge });
        }
        if dir_list_offset > u32::MAX.saturating_sub(string_table_offset) {
            return Err(ParseError { offset: 0, code: ErrorKind::TooLarge });
        }
        let room = u32::MAX.saturating_sub(string_table_offset).saturating_sub(dir_list_offset);
        if room == 0 || dir_list_size > room - 1 {
            return Err(ParseError { offset: 0, code: ErrorKind::TooLarge });
        }
        let string_table_end = string_table_offset.saturating_add(string_table_size);
        let dir_list_end = string_table_offset.saturating_add(dir_list_offset).saturating_add(
            dir_list_size,
        ).saturating_add(1);
        let min_size = if string_table_end >= dir_list_end {
            string_table_end
        } else {
            dir_list_end
        };
        if bytes.len() < min_size as usize {
            return Err(ParseError { offset: 0, code: ErrorKind::Eof });
        }
        Ok((string_table_offset, dir_list_offset, dir_list_size))
    }

    /// Returns an iterator that returns the directories whose members are
    /// the entries of the cache.
    pub fn iter(&self) -> (r: Result<Iter<'_>, Error>)
        ensures
            r is Ok,
            r->Ok_0@ == self@.directories(),
            r->Ok_0.remainder() == self@.dir_list(),
            !r->Ok_0.is_finished(),
    {
        proof {
            use_type_invariant(self);
        }
        let map = self.map.as_slice();
        assert(map@.len() <= usize::MAX) by {
            vstd::slice::axiom_spec_len(map);
        }
        let start = self.dir_list_offset as usize;
        let end = start.saturating_add(self.dir_list_size as usize);
        let bytes = vstd::slice::slice_subrange(map, start, end);
        Ok(Iter { remainder: bytes, finished: false })
    }

    /// Returns the walk over the directories, as [`Cache::iter`] does.
    pub fn entries_iter(&self) -> (r: Result<Iter<'_>, Error>)
        ensures
            r is Ok,
            r->Ok_0@ == self@.directories(),
            r->Ok_0.remainder() == self@.dir_list(),
            !r->Ok_0.is_finished(),
    {
        self.iter()
    }

    /// The item that a member of the directory `directory` gives to a walk
    /// over the entries: the entry made of the name and path of the member,
    /// which owns both, or a failure to read the directory where the member
    /// could not be had.
    pub fn item_of_member(directory: &str, member: Option<(Vec<u8>, Vec<u8>)>) -> (r: Result<
        Entry<'static>,
        Error,
    >)
        ensures
            crate::item_view(r) == member_item(directory@, member),
            r is Ok ==> r->Ok_0.file_name is Owned && r->Ok_0.full_path is Owned,
    {
        match member {
            Some((file_name, full_path)) => Ok(Entry::owned(file_name, full_path)),
            None => Err(Error::ReadDir { path: directory.to_owned() }),
        }
    }

    /// The items that the directory `directory` gives to a walk over the
    /// entries: nothing where the directory could not be opened, which
    /// `None` stands for, and else one item for each member of `listing`, in
    /// its order.
    pub fn items_of_directory(
        directory: &str,
        listing: Option<Vec<Option<(Vec<u8>, Vec<u8>)>>>,
    ) -> (r: Vec<Result<Entry<'static>, Error>>)
        ensures
            match listing {
                None => r@.len() == 0,
                Some(members) => {
                    &&& r@.len() == members@.len()
                    &&& forall|i: int|
                        0 <= i < r@.len() ==> crate::item_view(#[trigger] r@[i]) == member_item(
                            directory@,
                            members@[i],
                        )
                    &&& forall|i: int|
                        0 <= i < r@.len() && (#[trigger] r@[i]) is Ok ==> r@[i]->Ok_0.file_name
                            is Owned && r@[i]->Ok_0.full_path is Owned
                },
            },
    {
        let mut items: Vec<Result<Entry<'static>, Error>> = Vec::new();
        if let Some(members) = listing {
            for member in iter: members
                invariant
                    items@.len() == iter.index(),
                    forall|i: int|
                        0 <= i < items@.len() ==> crate::item_view(#[trigger] items@[i])
                            == member_item(directory@, iter.seq()[i]),
                    forall|i: int|
                        0 <= i < items@.len() && (#[trigger] items@[i]) is Ok
                            ==> items@[i]->Ok_0.file_name is Owned && items@[i]->Ok_0.full_path
                            is Owned,
            {
                items.push(Self::item_of_member(directory, member));
            }
        }
        items
    }
}

/// Walk over the directories that a [`Cache`] names.
#[derive(Debug)]
pub struct Iter<'cache> {
    remainder: &'cache [u8],
    finished: bool,
}

impl<'cache> View for Iter<'cache> {
    type V = Seq<Seq<u8>>;

    /// The directories that the walk has yet to give: none once the last
    /// part of the list was given, and else the parts of what is left of the
    /// list.
    open spec fn view(&self) -> Seq<Seq<u8>> {
        if self.is_finished() {
            Seq::empty()
        } else {
            split(self.remainder(), SEPARATOR)
        }
    }
}

impl<'cache> Iter<'cache> {
    /// The bytes of the list that the walk has yet to split.
    pub closed spec fn remainder(&self) -> Seq<u8> {
        self.remainder@
    }

    /// True once the walk has given the last part of the list.
    pub closed spec fn is_finished(&self) -> bool {
        self.finished
    }

    /// Returns the next directory, or `None` once the list is exhausted.
    /// After the first `None`, every call returns `None`.
    ///
    /// The next directory is what stands before the first separator that is
    /// left, and the walk goes on behind that separator. Where no separator
    /// is left, it is all that is left, and the walk is finished.
    pub fn next(&mut self) -> (r: Option<&'cache [u8]>)
        ensures
            old(self)@.len() == 0 ==> r is None && final(self)@ == old(self)@,
            old(self)@.len() > 0 ==> r is Some && r->0@ == old(self)@[0] && final(self)@ == old(
                self,
            )@.skip(1),
            old(self).is_finished() ==> r is None && final(self).is_finished(),
            !old(self).is_finished() ==> r is Some && match position(
                old(self).remainder(),
                SEPARATOR,
            ) {
                Some(n) => {
                    &&& r->0@ == old(self).remainder().take(n)
                    &&& final(self).remainder() == old(self).remainder().skip(n + 1)
                    &&& !final(self).is_finished()
                },
                None => r->0@ == old(self).remainder() && final(self).is_finished(),
            },
    {
        if self.finished {
            return None;
        }
        let remainder = self.remainder;
        match find(remainder, SEPARATOR) {
            Some(n) => {
                assert(remainder@.len() <= usize::MAX) by {
                    vstd::slice::axiom_spec_len(remainder);
                }
                let directory = vstd::slice::slice_subrange(remainder, 0, n);
                self.remainder = vstd::slice::slice_subrange(remainder, n + 1, remainder.len());
                assert(self@ =~= old(self)@.skip(1));
                Some(directory)
            },
            None => {
                self.finished = true;
                assert(self@ =~= old(self)@.skip(1));
                Some(remainder)
            },
        }
    }
}

/// True if `bytes` starts with a whole header in the byte order
/// `byte_order`, with the magic and the version 1, whose string table and
/// directory list end at no more than `u32::MAX` and inside of the file.
pub open spec fn is_valid(bytes: Seq<u8>, byte_order: ByteOrder) -> bool {
    &&& bytes.len() >= HEADER_SIZE
    &&& u32_of(bytes.subrange(0, 4), byte_order) == MAGIC
    &&& u32_of(bytes.subrange(4, 8), byte_order) == VERSION
    &&& ({
        let string_table_offset = u32_of(bytes.subrange(8, 12), byte_order);
        let string_table_size = u32_of(bytes.subrange(12, 16), byte_order);
        let dir_list_offset = u32_of(bytes.subrange(16, 20), byte_order);
        let dir_list_size = u32_of(bytes.subrange(20, 24), byte_order);
        &&& string_table_offset + string_table_size <= u32::MAX
        &&& string_table_offset + dir_list_offset + dir_list_size + 1 <= u32::MAX
        &&& string_table_offset + string_table_size <= bytes.len()
        &&& string_table_offset + dir_list_offset + dir_list_size + 1 <= bytes.len()
    })
}

/// A file loads if and only if it is valid in the byte order of its magic.
/// The directory list of a loaded file lies inside of it.
pub proof fn lemma_valid_file_loads(path: Seq<char>, bytes: Seq<u8>)
    ensures
        loaded(path, bytes) is Ok <==> (is_valid(bytes, ByteOrder::Little) || is_valid(
            bytes,
            ByteOrder::Big,
        )),
        loaded(path, bytes) matches Ok(cache) ==> cache.wf(),
{
}

/// A buffer that is shorter than the header is rejected by the header
/// parser, and loading it fails: with a parse error, unless the buffer is
/// empty.
pub proof fn lemma_short_buffer_is_rejected(path: Seq<char>, bytes: Seq<u8>, byte_order: ByteOrder)
    requires
        bytes.len() < HEADER_SIZE,
    ensures
        header_of(bytes, byte_order) is Err,
        bytes.len() < 4 ==> byte_order_of(bytes) is Err,
        loaded(path, bytes) is Err,
        bytes.len() > 0 ==> loaded(path, bytes)->Err_0 is Parse,
        bytes.len() == 0 ==> loaded(path, bytes)->Err_0 is FileIsEmpty,
{
}

/// Only version 1 is accepted, whatever the magic is. A header whose version
/// field does not read as 1 in the byte order in which it is parsed is
/// rejected, at the version field where the buffer reaches as far. A file
/// whose version field does not read as 1 in the byte order of its magic
/// fails to load with that parse failure, and a file whose version field
/// reads as 1 in no byte order fails to load: with a parse failure, unless
/// the file is empty.
pub proof fn lemma_other_versions_are_rejected(
    path: Seq<char>,
    bytes: Seq<u8>,
    byte_order: ByteOrder,
)
    ensures
        u32_at(bytes, VERSION_OFFSET as int, byte_order) != Ok::<u32, ParseError>(VERSION)
            ==> header_of(bytes, byte_order) is Err,
        bytes.len() >= VERSION_OFFSET && u32_at(bytes, VERSION_OFFSET as int, byte_order) != Ok::<
            u32,
            ParseError,
        >(VERSION) ==> header_of(bytes, byte_order) == Err::<(u32, u32, u32), ParseError>(
            failure(VERSION_OFFSET as int, ErrorKind::Tag),
        ),
        byte_order_of(bytes) matches Ok(found) && u32_at(bytes, VERSION_OFFSET as int, found)
            != Ok::<u32, ParseError>(VERSION) ==> loaded(path, bytes) == Err::<
            CacheView,
            ErrorView,
        >(ErrorView::Parse { path, source: failure(VERSION_OFFSET as int, ErrorKind::Tag) }),
        (u32_at(bytes, VERSION_OFFSET as int, ByteOrder::Little) != Ok::<u32, ParseError>(VERSION)
            && u32_at(bytes, VERSION_OFFSET as int, ByteOrder::Big) != Ok::<u32, ParseError>(
            VERSION,
        )) ==> loaded(path, bytes) is Err && (bytes.len() > 0 ==> loaded(path, bytes)->Err_0
            is Parse),
{
}

/// The size check does not wrap: a header that is accepted declares a string
/// table and a directory list that, counted without any bound on the
/// integers, end inside of the file.
pub proof fn lemma_accepted_sizes_fit(bytes: Seq<u8>, byte_order: ByteOrder)
    requires
        header_of(bytes, byte_order) is Ok,
    ensures
        ({
            let (string_table_offset, dir_list_offset, dir_list_size) = header_of(
                bytes,
                byte_order,
            )->Ok_0;
            &&& string_table_offset + u32_of(bytes.subrange(12, 16), byte_order) <= bytes.len()
            &&& string_table_offset + dir_list_offset + dir_list_size + 1 <= bytes.len()
        }),
{
}

/// Two walks that start from the same cache give the same directories in the
/// same order.
pub proof fn lemma_iter_is_repeatable(cache: CacheView, first: Iter<'_>, second: Iter<'_>)
    requires
        first@ == cache.directories(),
        second@ == cache.directories(),
    ensures
        first@ == second@,
{
}

/// Number of bytes of `s` that are `byte`.
pub open spec fn occurrences(s: Seq<u8>, byte: u8) -> nat
    decreases s.len(),
{
    if s.len() == 0 {
        0
    } else if s[0] == byte {
        1 + occurrences(s.skip(1), byte)
    } else {
        occurrences(s.skip(1), byte)
    }
}

/// Behind the first occurrence of `byte`, `s` holds one occurrence less.
proof fn lemma_occurrences_behind_first(s: Seq<u8>, byte: u8, n: int)
    requires
        crate::utils::is_first(s, byte, n),
    ensures
        occurrences(s, byte) == 1 + occurrences(s.skip(n + 1), byte),
    decreases n,
{
    if n > 0 {
        assert(crate::utils::is_first(s.skip(1), byte, n - 1));
        lemma_occurrences_behind_first(s.skip(1), byte, n - 1);
        assert(s.skip(1).skip(n) =~= s.skip(n + 1));
    }
}

/// Where `byte` has no first position in `s`, it does not occur in `s`.
proof fn lemma_occurrences_of_absent(s: Seq<u8>, byte: u8)
    requires
        position(s, byte) is None,
    ensures
        occurrences(s, byte) == 0,
    decreases s.len(),
{
    if s.len() > 0 {
        if s[0] == byte {
            crate::utils::lemma_position_is_first(s, byte, 0);
        }
        let rest = s.skip(1);
        if position(rest, byte) is Some {
            let n = position(rest, byte)->0;
            assert(crate::utils::is_first(rest, byte, n));
            assert forall|j: int| 0 <= j < n + 1 implies s[j] != byte by {
                if j > 0 {
                    assert(rest[j - 1] != byte);
                }
            }
            assert(s[n + 1] == rest[n]);
            crate::utils::lemma_position_is_first(s, byte, n + 1);
        }
        lemma_occurrences_of_absent(rest, byte);
    }
}

/// A list gives exactly one directory more than it holds separators.
pub proof fn lemma_split_len(s: Seq<u8>, separator: u8)
    ensures
        split(s, separator).len() == occurrences(s, separator) + 1,
    decreases s.len(),
{
    match position(s, separator) {
        Some(n) => {
            assert(crate::utils::is_first(s, separator, n));
            lemma_occurrences_behind_first(s, separator, n);
            lemma_split_len(s.skip(n + 1), separator);
        },
        None => {
            lemma_occurrences_of_absent(s, separator);
        },
    }
}

/// A list always gives at least one directory, and no directory that it
/// gives holds a separator.
pub proof fn lemma_split_parts(s: Seq<u8>, separator: u8)
    ensures
        split(s, separator).len() >= 1,
        forall|i: int, j: int|
            0 <= i < split(s, separator).len() && 0 <= j < split(s, separator)[i].len() ==> #[trigger] split(
                s,
                separator,
            )[i][j] != separator,
    decreases s.len(),
{
    match position(s, separator) {
        Some(n) => {
            assert(crate::utils::is_first(s, separator, n));
            lemma_split_parts(s.skip(n + 1), separator);
            let rest = split(s.skip(n + 1), separator);
            assert forall|i: int, j: int|
                0 <= i < split(s, separator).len() && 0 <= j < split(s, separator)[i].len() implies #[trigger] split(
                s,
                separator,
            )[i][j] != separator by {
                if i > 0 {
                    assert(split(s, separator)[i] == rest[i - 1]);
                }
            }
        },
        None => {
            assert forall|j: int| 0 <= j < s.len() implies s[j] != separator by {
                if s[j] == separator {
                    lemma_has_first(s, separator, j);
                }
            }
        },
    }
}

/// A sequence that holds `byte` at `at` has a first position of `byte`.
proof fn lemma_has_first(s: Seq<u8>, byte: u8, at: int)
    requires
        0 <= at < s.len(),
        s[at] == byte,
    ensures
        exists|n: int| crate::utils::is_first(s, byte, n),
    decreases at,
{
    if exists|j: int| 0 <= j < at && s[j] == byte {
        let j = choose|j: int| 0 <= j < at && s[j] == byte;
        lemma_has_first(s, byte, j);
    } else {
        assert(crate::utils::is_first(s, byte, at));
    }
}

} // verus!
