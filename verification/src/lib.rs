//! Readers for the shared-library caches that Unix dynamic loaders maintain.
//!
//! Four formats are read, each in a module of its own:
//!
//! - [`glibc_ld_so_cache_1dot1`]: the cache of the GNU/Linux dynamic loader;
//! - [`ld_so_1dot7`]: the cache of the old GNU/Linux dynamic loader;
//! - [`ld_elf_so_hints`]: the hints of the FreeBSD dynamic loader;
//! - [`ld_so_hints`]: the hints of the OpenBSD and NetBSD dynamic loaders.
//!
//! A cache is loaded from the bytes of its file, which the caller has read.
//! Loading validates the header: whatever the bytes are, a cache that has
//! loaded holds only offsets that lie inside of its buffer. A walk over a
//! loaded cache decodes one record at a time, and gives for each record an
//! [`Entry`], or the reason for which this one record gives none. [`Cache`]
//! gathers the caches of all formats that are found on a system.
//!
//! All reads go through the bounded readers of [`reader`], so that no offset
//! taken from a buffer is ever followed outside of it. Every function states
//! what it returns over the bytes of the buffer, and is proved to return it.

pub mod errors;
pub mod glibc_ld_so_cache_1dot1;
pub mod host;
pub mod ld_elf_so_hints;
pub mod ld_so_1dot7;
pub mod ld_so_hints;
pub mod reader;
pub mod table;
pub mod utils;

use arrayvec::ArrayVec;
use vstd::prelude::*;

pub use crate::errors::{Error, ErrorView};
use crate::host::native_byte_order;
use crate::reader::ByteOrder;

verus! {

/// Supported data models, that is, widths of the `long` fields of a cache.
#[derive(Debug, Clone, Copy, PartialEq, Eq, Structural)]
pub enum DataModel {
    /// `int` and `long` are 32 bits wide.
    ILP32,
    /// `int` is 32 bits wide, `long` is 64 bits wide.
    LP64,
}

/// Text of an entry: either bytes of the cache buffer that the entry came
/// from, or bytes that the entry owns.
#[derive(Debug)]
pub enum Text<'cache> {
    /// Bytes that lie in the buffer of the cache.
    Borrowed(&'cache [u8]),
    /// Bytes that were allocated for this entry.
    Owned(Vec<u8>),
}

impl<'cache> View for Text<'cache> {
    type V = Seq<u8>;

    open spec fn view(&self) -> Seq<u8> {
        match self {
            Text::Borrowed(bytes) => bytes@,
            Text::Owned(bytes) => bytes@,
        }
    }
}

impl<'cache> Text<'cache> {
    /// The bytes of the text.
    pub fn as_bytes(&self) -> (r: &[u8])
        ensures
            r@ == self@,
    {
        match self {
            Text::Borrowed(bytes) => bytes,
            Text::Owned(bytes) => bytes.as_slice(),
        }
    }

    /// Returns true if the text owns its bytes.
    pub fn is_owned(&self) -> (r: bool)
        ensures
            r == (self is Owned),
    {
        match self {
            Text::Borrowed(_) => false,
            Text::Owned(_) => true,
        }
    }
}

/// Cache entry.
#[derive(Debug)]
#[non_exhaustive]
pub struct Entry<'cache> {
    /// File name of the shared library.
    pub file_name: Text<'cache>,
    /// Absolute path of the shared library.
    pub full_path: Text<'cache>,
}

/// What an [`Entry`] says, whoever owns its bytes.
pub struct EntryView {
    /// File name of the shared library.
    pub file_name: Seq<u8>,
    /// Absolute path of the shared library.
    pub full_path: Seq<u8>,
}

impl<'cache> View for Entry<'cache> {
    type V = EntryView;

    open spec fn view(&self) -> EntryView {
        EntryView { file_name: self.file_name@, full_path: self.full_path@ }
    }
}

impl<'cache> Entry<'cache> {
    /// An entry that owns its text, as one made from a directory listing does.
    pub fn owned(file_name: Vec<u8>, full_path: Vec<u8>) -> (r: Entry<'static>)
        ensures
            r@ == (EntryView { file_name: file_name@, full_path: full_path@ }),
            r.file_name is Owned,
            r.full_path is Owned,
    {
        Entry { file_name: Text::Owned(file_name), full_path: Text::Owned(full_path) }
    }
}

/// One step of a walk over the entries of a cache: the entry, or the reason
/// for which this one entry could not be had.
pub type Item = Result<EntryView, ErrorView>;

/// What `item` says, whoever owns its bytes.
pub open spec fn item_view(item: Result<Entry<'_>, Error>) -> Item {
    match item {
        Ok(entry) => Ok(entry@),
        Err(error) => Err(error@),
    }
}

/// Number of cache files that are known, and so the greatest number of
/// caches that an aggregate holds.
pub const CACHE_IMPL_COUNT: usize = 5;

/// Operating system of the host, as far as it decides which cache files are
/// tried first.
#[derive(Debug, Clone, Copy, PartialEq, Eq, Structural)]
pub enum HostOs {
    /// FreeBSD.
    FreeBsd,
    /// OpenBSD or NetBSD.
    OpenBsdOrNetBsd,
    /// Any other system, GNU/Linux among them.
    Other,
}

/// A loaded cache of one of the supported formats.
#[derive(Debug)]
pub enum CacheImpl {
    /// Cache of the GNU/Linux old dynamic loader.
    LdSO1dot7(ld_so_1dot7::Cache),
    /// Cache of the GNU/Linux dynamic loader.
    GLibCLdSOCache1dot1(glibc_ld_so_cache_1dot1::Cache),
    /// Cache of the FreeBSD dynamic loader.
    LdELFSOHints(ld_elf_so_hints::Cache),
    /// Cache of the OpenBSD or NetBSD dynamic loader.
    LdSOHints(ld_so_hints::Cache),
}

/// What a [`CacheImpl`] holds.
pub enum CacheImplView {
    /// Cache of the GNU/Linux old dynamic loader.
    LdSO1dot7(ld_so_1dot7::CacheView),
    /// Cache of the GNU/Linux dynamic loader.
    GLibCLdSOCache1dot1(glibc_ld_so_cache_1dot1::CacheView),
    /// Cache of the FreeBSD dynamic loader.
    LdELFSOHints(ld_elf_so_hints::CacheView),
    /// Cache of the OpenBSD or NetBSD dynamic loader.
    LdSOHints(ld_so_hints::CacheView),
}

impl View for CacheImpl {
    type V = CacheImplView;

    open spec fn view(&self) -> CacheImplView {
        match self {
            CacheImpl::LdSO1dot7(cache) => CacheImplView::LdSO1dot7(cache@),
            CacheImpl::GLibCLdSOCache1dot1(cache) => CacheImplView::GLibCLdSOCache1dot1(cache@),
            CacheImpl::LdELFSOHints(cache) => CacheImplView::LdELFSOHints(cache@),
            CacheImpl::LdSOHints(cache) => CacheImplView::LdSOHints(cache@),
        }
    }
}

/// The type `arrayvec::ArrayVec`: a vector of at most `CAP` elements that
/// are stored inline.
#[verifier::external_type_specification]
#[verifier::external_body]
#[verifier::reject_recursive_types(T)]
pub struct ExArrayVec<T, const CAP: usize>(ArrayVec<T, CAP>);

/// The caches that `caches` holds, from the first that was pushed to the
/// last.
pub uninterp spec fn held(caches: ArrayVec<CacheImpl, CACHE_IMPL_COUNT>) -> Seq<CacheImpl>;

/// An empty collection, made by `ArrayVec::new`.
///
/// Not proved: the new collection holds nothing.
#[verifier::external_body]
fn no_caches() -> (r: ArrayVec<CacheImpl, CACHE_IMPL_COUNT>)
    ensures
        held(r) == Seq::<CacheImpl>::empty(),
{
    ArrayVec::new()
}

/// Appends `cache` with `ArrayVec::push`, which panics on a full collection.
///
/// Not proved: where fewer caches are held than the capacity, the call
/// returns, and the collection then holds what it held, followed by `cache`.
#[verifier::external_body]
fn push_cache(caches: &mut ArrayVec<CacheImpl, CACHE_IMPL_COUNT>, cache: CacheImpl)
    requires
        held(*old(caches)).len() < CACHE_IMPL_COUNT,
    ensures
        held(*final(caches)) == held(*old(caches)).push(cache),
{
    caches.push(cache)
}

/// The content of the collection as a slice, by `ArrayVec::as_slice`.
///
/// Not proved: the slice holds the caches that the collection holds, in the
/// same order.
#[verifier::external_body]
fn caches_of(caches: &ArrayVec<CacheImpl, CACHE_IMPL_COUNT>) -> (r: &[CacheImpl])
    ensures
        r@ == held(*caches),
{
    caches.as_slice()
}

/// What each of `caches` holds.
pub open spec fn views_of(caches: Seq<CacheImpl>) -> Seq<CacheImplView> {
    caches.map_values(|cache: CacheImpl| cache@)
}

/// Content of the known cache files, each as far as it could be read: `None`
/// stands for a file that is absent or unreadable.
#[derive(Debug)]
pub struct CacheFiles {
    /// Content of `/etc/ld.so.cache`, to be read as a glibc 1.1 cache.
    pub glibc_ld_so_cache_1dot1: Option<Vec<u8>>,
    /// Content of `/var/run/ld-elf.so.hints`.
    pub ld_elf_so_hints: Option<Vec<u8>>,
    /// Content of `/var/run/ld-elf32.so.hints`.
    pub ld_elf32_so_hints: Option<Vec<u8>>,
    /// Content of `/var/run/ld.so.hints`.
    pub ld_so_hints: Option<Vec<u8>>,
    /// Content of `/etc/ld.so.cache`, to be read as a cache of the old
    /// format.
    pub ld_so_1dot7: Option<Vec<u8>>,
}

/// The bytes of a file that was read.
pub open spec fn content_of(file: Option<Vec<u8>>) -> Option<Seq<u8>> {
    match file {
        Some(bytes) => Some(bytes@),
        None => None,
    }
}

/// What probing `/etc/ld.so.cache` for the glibc 1.1 format retains: the
/// cache if the file was read and loads, nothing otherwise.
pub open spec fn glibc_ld_so_cache_1dot1_found(file: Option<Seq<u8>>, native: ByteOrder) -> Seq<
    CacheImplView,
> {
    match file {
        Some(bytes) => match glibc_ld_so_cache_1dot1::loaded(
            glibc_ld_so_cache_1dot1::CACHE_FILE_PATH@,
            bytes,
            native,
        ) {
            Ok(cache) => seq![CacheImplView::GLibCLdSOCache1dot1(cache)],
            Err(_) => Seq::empty(),
        },
        None => Seq::empty(),
    }
}

/// What probing `/etc/ld.so.cache` for the old format retains.
pub open spec fn ld_so_1dot7_found(file: Option<Seq<u8>>, native: ByteOrder) -> Seq<
    CacheImplView,
> {
    match file {
        Some(bytes) => match ld_so_1dot7::loaded(ld_so_1dot7::CACHE_FILE_PATH@, bytes, native) {
            Ok(cache) => seq![CacheImplView::LdSO1dot7(cache)],
            Err(_) => Seq::empty(),
        },
        None => Seq::empty(),
    }
}

/// What probing `/var/run/ld.so.hints` retains.
pub open spec fn ld_so_hints_found(file: Option<Seq<u8>>) -> Seq<CacheImplView> {
    match file {
        Some(bytes) => match ld_so_hints::loaded(ld_so_hints::CACHE_FILE_PATH@, bytes) {
            Ok(cache) => seq![CacheImplView::LdSOHints(cache)],
            Err(_) => Seq::empty(),
        },
        None => Seq::empty(),
    }
}

/// What probing one of the two FreeBSD hints files retains.
pub open spec fn ld_elf_so_hints_file_found(path: Seq<char>, file: Option<Seq<u8>>) -> Seq<
    CacheImplView,
> {
    match file {
        Some(bytes) => match ld_elf_so_hints::loaded(path, bytes) {
            Ok(cache) => seq![CacheImplView::LdELFSOHints(cache)],
            Err(_) => Seq::empty(),
        },
        None => Seq::empty(),
    }
}

/// What probing both FreeBSD hints files retains: what the file of the
/// native architecture gives, then what the file of the 32-bit
/// compatibility architecture gives.
pub open spec fn ld_elf_so_hints_found(file: Option<Seq<u8>>, file_32: Option<Seq<u8>>) -> Seq<
    CacheImplView,
> {
    ld_elf_so_hints_file_found(ld_elf_so_hints::CACHE_FILE_PATH@, file)
        + ld_elf_so_hints_file_found(ld_elf_so_hints::CACHE_FILE_PATH_32@, file_32)
}

/// The caches that a discovery pass over `files` retains on a host of the
/// system `os` and of the byte order `native`: every file that loads, in the
/// order in which that system tries the formats.
pub open spec fn discovered(os: HostOs, files: CacheFiles, native: ByteOrder) -> Seq<
    CacheImplView,
> {
    let glibc = glibc_ld_so_cache_1dot1_found(content_of(files.glibc_ld_so_cache_1dot1), native);
    let elf = ld_elf_so_hints_found(
        content_of(files.ld_elf_so_hints),
        content_of(files.ld_elf32_so_hints),
    );
    let hints = ld_so_hints_found(content_of(files.ld_so_hints));
    let legacy = ld_so_1dot7_found(content_of(files.ld_so_1dot7), native);
    match os {
        HostOs::FreeBsd => elf + hints + legacy + glibc,
        HostOs::OpenBsdOrNetBsd => hints + elf + legacy + glibc,
        HostOs::Other => glibc + elf + hints + legacy,
    }
}

/// Reader of the dynamic loader shared libraries cache.
///
/// It holds the caches of all the formats that were found on the system, in
/// the order in which they were tried.
#[derive(Debug)]
pub struct Cache {
    caches: ArrayVec<CacheImpl, CACHE_IMPL_COUNT>,
}

impl View for Cache {
    type V = Seq<CacheImplView>;

    closed spec fn view(&self) -> Seq<CacheImplView> {
        views_of(held(self.caches))
    }
}

impl Cache {
    #[verifier::type_invariant]
    spec fn well_formed(&self) -> bool {
        held(self.caches).len() <= CACHE_IMPL_COUNT
    }

    /// Loads all the dynamic loader caches that are supported and present
    /// among `files`, in the order in which a host of the system `os` tries
    /// them. A file that does not load is passed over.
    ///
    /// A file that leaves its byte order to the host is read in the byte
    /// order of this host.
    pub fn load(os: HostOs, files: CacheFiles) -> (r: Result<Cache, Error>)
        ensures
            r is Ok,
            r->Ok_0@ == discovered(os, files, ByteOrder::Little) || r->Ok_0@ == discovered(
                os,
                files,
                ByteOrder::Big,
            ),
    {
        Self::load_as(os, files, native_byte_order())
    }

    /// Loads all the dynamic loader caches that are supported and present
    /// among `files`, as a host of the system `os` and of the byte order
    /// `native` does.
    pub fn load_as(os: HostOs, files: CacheFiles, native: ByteOrder) -> (r: Result<Cache, Error>)
        ensures
            r is Ok,
            r->Ok_0@ == discovered(os, files, native),
    {
        let mut caches = no_caches();
        let CacheFiles {
            glibc_ld_so_cache_1dot1,
            ld_elf_so_hints,
            ld_elf32_so_hints,
            ld_so_hints,
            ld_so_1dot7,
        } = files;
        let ghost glibc = glibc_ld_so_cache_1dot1_found(content_of(glibc_ld_so_cache_1dot1), native);
        let ghost elf = ld_elf_so_hints_found(
            content_of(ld_elf_so_hints),
            content_of(ld_elf32_so_hints),
        );
        let ghost hints = ld_so_hints_found(content_of(ld_so_hints));
        let ghost legacy = ld_so_1dot7_found(content_of(ld_so_1dot7), native);
        assert(views_of(held(caches)) =~= Seq::<CacheImplView>::empty());
        match os {
            HostOs::FreeBsd => {
                Self::try_loading_ld_elf_so_hints(&mut caches, ld_elf_so_hints, ld_elf32_so_hints)?;
                assert(views_of(held(caches)) =~= elf);
                Self::try_loading_ld_so_hints(&mut caches, ld_so_hints)?;
                assert(views_of(held(caches)) =~= elf + hints);
                Self::try_loading_ld_so_1dot7(&mut caches, ld_so_1dot7, native)?;
                assert(views_of(held(caches)) =~= elf + hints + legacy);
                Self::try_loading_glibc_ld_so_cache_1dot1(
                    &mut caches,
                    glibc_ld_so_cache_1dot1,
                    native,
                )?;
                assert(views_of(held(caches)) =~= elf + hints + legacy + glibc);
            },
            HostOs::OpenBsdOrNetBsd => {
                Self::try_loading_ld_so_hints(&mut caches, ld_so_hints)?;
                assert(views_of(held(caches)) =~= hints);
                Self::try_loading_ld_elf_so_hints(&mut caches, ld_elf_so_hints, ld_elf32_so_hints)?;
                assert(views_of(held(caches)) =~= hints + elf);
                Self::try_loading_ld_so_1dot7(&mut caches, ld_so_1dot7, native)?;
                assert(views_of(held(caches)) =~= hints + elf + legacy);
                Self::try_loading_glibc_ld_so_cache_1dot1(
                    &mut caches,
                    glibc_ld_so_cache_1dot1,
                    native,
                )?;
                assert(views_of(held(caches)) =~= hints + elf + legacy + glibc);
            },
            HostOs::Other => {
                Self::try_loading_glibc_ld_so_cache_1dot1(
                    &mut caches,
                    glibc_ld_so_cache_1dot1,
                    native,
                )?;
                assert(views_of(held(caches)) =~= glibc);
                Self::try_loading_ld_elf_so_hints(&mut caches, ld_elf_so_hints, ld_elf32_so_hints)?;
                assert(views_of(held(caches)) =~= glibc + elf);
                Self::try_loading_ld_so_hints(&mut caches, ld_so_hints)?;
                assert(views_of(held(caches)) =~= glibc + elf + hints);
                Self::try_loading_ld_so_1dot7(&mut caches, ld_so_1dot7, native)?;
                assert(views_of(held(caches)) =~= glibc + elf + hints + legacy);
            },
        }
        Ok(Cache { caches })
    }

    /// Retains the glibc 1.1 cache that `file` holds, if it holds one.
    fn try_loading_glibc_ld_so_cache_1dot1(
        caches: &mut ArrayVec<CacheImpl, CACHE_IMPL_COUNT>,
        file: Option<Vec<u8>>,
        native: ByteOrder,
    ) -> (r: Result<(), Error>)
        requires
            held(*old(caches)).len() < CACHE_IMPL_COUNT,
        ensures
            r is Ok,
            views_of(held(*final(caches))) == views_of(held(*old(caches)))
                + glibc_ld_so_cache_1dot1_found(content_of(file), native),
            held(*final(caches)).len() <= held(*old(caches)).len() + 1,
    {
        if let Some(bytes) = file {
            if let Ok(cache) = glibc_ld_so_cache_1dot1::Cache::load_default_as(bytes, native) {
                push_cache(caches, CacheImpl::GLibCLdSOCache1dot1(cache));
                assert(views_of(held(*caches)) =~= views_of(held(*old(caches)))
                    + glibc_ld_so_cache_1dot1_found(content_of(file), native));
                return Ok(());
            }
        }
        assert(views_of(held(*caches)) =~= views_of(held(*old(caches)))
            + glibc_ld_so_cache_1dot1_found(content_of(file), native));
        Ok(())
    }

    /// Retains the cache that one of the FreeBSD hints files holds, if it
    /// holds one.
    fn try_loading_ld_elf_so_hints_file(
        caches: &mut ArrayVec<CacheImpl, CACHE_IMPL_COUNT>,
        path: &str,
        file: Option<Vec<u8>>,
    )
        requires
            held(*old(caches)).len() < CACHE_IMPL_COUNT,
        ensures
            views_of(held(*final(caches))) == views_of(held(*old(caches)))
                + ld_elf_so_hints_file_found(path@, content_of(file)),
            held(*final(caches)).len() <= held(*old(caches)).len() + 1,
    {
        if let Some(bytes) = file {
            if let Ok(cache) = ld_elf_so_hints::Cache::load(path, bytes) {
                push_cache(caches, CacheImpl::LdELFSOHints(cache));
                assert(views_of(held(*caches)) =~= views_of(held(*old(caches)))
                    + ld_elf_so_hints_file_found(path@, content_of(file)));
                return ;
            }
        }
        assert(views_of(held(*caches)) =~= views_of(held(*old(caches)))
            + ld_elf_so_hints_file_found(path@, content_of(file)));
    }

    /// Retains the caches that the two FreeBSD hints files hold.
    fn try_loading_ld_elf_so_hints(
        caches: &mut ArrayVec<CacheImpl, CACHE_IMPL_COUNT>,
        file: Option<Vec<u8>>,
        file_32: Option<Vec<u8>>,
    ) -> (r: Result<(), Error>)
        requires
            held(*old(caches)).len() + 2 <= CACHE_IMPL_COUNT,
        ensures
            r is Ok,
            views_of(held(*final(caches))) == views_of(held(*old(caches))) + ld_elf_so_hints_found(
                content_of(file),
                content_of(file_32),
            ),
            held(*final(caches)).len() <= held(*old(caches)).len() + 2,
    {
        Self::try_loading_ld_elf_so_hints_file(caches, ld_elf_so_hints::CACHE_FILE_PATH, file);
        Self::try_loading_ld_elf_so_hints_file(caches, ld_elf_so_hints::CACHE_FILE_PATH_32, file_32);
        assert(views_of(held(*caches)) =~= views_of(held(*old(caches))) + ld_elf_so_hints_found(
            content_of(file),
            content_of(file_32),
        ));
        Ok(())
    }

    /// Retains the OpenBSD or NetBSD cache that `file` holds, if it holds
    /// one.
    fn try_loading_ld_so_hints(
        caches: &mut ArrayVec<CacheImpl, CACHE_IMPL_COUNT>,
        file: Option<Vec<u8>>,
    ) -> (r: Result<(), Error>)
        requires
            held(*old(caches)).len() < CACHE_IMPL_COUNT,
        ensures
            r is Ok,
            views_of(held(*final(caches))) == views_of(held(*old(caches))) + ld_so_hints_found(
                content_of(file),
            ),
            held(*final(caches)).len() <= held(*old(caches)).len() + 1,
    {
        if let Some(bytes) = file {
            if let Ok(cache) = ld_so_hints::Cache::load_default(bytes) {
                push_cache(caches, CacheImpl::LdSOHints(cache));
                assert(views_of(held(*caches)) =~= views_of(held(*old(caches)))
                    + ld_so_hints_found(content_of(file)));
                return Ok(());
            }
        }
        assert(views_of(held(*caches)) =~= views_of(held(*old(caches))) + ld_so_hints_found(
            content_of(file),
        ));
        Ok(())
    }

    /// Retains the cache of the old format that `file` holds, if it holds
    /// one.
    fn try_loading_ld_so_1dot7(
        caches: &mut ArrayVec<CacheImpl, CACHE_IMPL_COUNT>,
        file: Option<Vec<u8>>,
        native: ByteOrder,
    ) -> (r: Result<(), Error>)
        requires
            held(*old(caches)).len() < CACHE_IMPL_COUNT,
        ensures
            r is Ok,
            views_of(held(*final(caches))) == views_of(held(*old(caches))) + ld_so_1dot7_found(
                content_of(file),
                native,
            ),
            held(*final(caches)).len() <= held(*old(caches)).len() + 1,
    {
        if let Some(bytes) = file {
            if let Ok(cache) = ld_so_1dot7::Cache::load_default_as(bytes, native) {
                push_cache(caches, CacheImpl::LdSO1dot7(cache));
                assert(views_of(held(*caches)) =~= views_of(held(*old(caches)))
                    + ld_so_1dot7_found(content_of(file), native));
                return Ok(());
            }
        }
        assert(views_of(held(*caches)) =~= views_of(held(*old(caches))) + ld_so_1dot7_found(
            content_of(file),
            native,
        ));
        Ok(())
    }
}

/// One step of a walk over the caches of an aggregate.
#[derive(Debug)]
pub enum Step<'cache> {
    /// An entry of a cache that names its libraries one by one, or the
    /// reason for which this one entry could not be had.
    Entry(Result<Entry<'cache>, Error>),
    /// A directory that a cache names: the entries are its members.
    Directory(&'cache [u8]),
}

/// What a [`Step`] says.
pub enum StepView {
    /// An entry, or the reason for which it could not be had.
    Entry(Item),
    /// The path of a directory whose members are entries.
    Directory(Seq<u8>),
}

impl<'cache> View for Step<'cache> {
    type V = StepView;

    open spec fn view(&self) -> StepView {
        match self {
            Step::Entry(item) => StepView::Entry(item_view(*item)),
            Step::Directory(directory) => StepView::Directory(directory@),
        }
    }
}

/// The steps that give the items `items`, one for each.
pub open spec fn entry_steps(items: Seq<Item>) -> Seq<StepView> {
    items.map_values(|item: Item| StepView::Entry(item))
}

/// The steps that give the directories `directories`, one for each.
pub open spec fn directory_steps(directories: Seq<Seq<u8>>) -> Seq<StepView> {
    directories.map_values(|directory: Seq<u8>| StepView::Directory(directory))
}

impl CacheImplView {
    /// What a walk over the cache gives.
    pub open spec fn steps(self) -> Seq<StepView> {
        match self {
            CacheImplView::LdSO1dot7(cache) => entry_steps(cache.entries()),
            CacheImplView::GLibCLdSOCache1dot1(cache) => entry_steps(cache.entries()),
            CacheImplView::LdELFSOHints(cache) => directory_steps(cache.directories()),
            CacheImplView::LdSOHints(cache) => entry_steps(cache.entries()),
        }
    }
}

/// Walk over one of the caches of an aggregate.
#[derive(Debug)]
pub enum CacheIter<'cache> {
    /// Walk over a cache of the GNU/Linux old dynamic loader.
    LdSO1dot7(ld_so_1dot7::Iter<'cache>),
    /// Walk over a cache of the GNU/Linux dynamic loader.
    GLibCLdSOCache1dot1(glibc_ld_so_cache_1dot1::Iter<'cache>),
    /// Walk over a cache of the FreeBSD dynamic loader.
    LdELFSOHints(ld_elf_so_hints::Iter<'cache>),
    /// Walk over a cache of the OpenBSD or NetBSD dynamic loader.
    LdSOHints(ld_so_hints::Iter<'cache>),
}

impl<'cache> View for CacheIter<'cache> {
    type V = Seq<StepView>;

    /// The steps that the walk has yet to give.
    open spec fn view(&self) -> Seq<StepView> {
        match self {
            CacheIter::LdSO1dot7(iter) => entry_steps(iter@),
            CacheIter::GLibCLdSOCache1dot1(iter) => entry_steps(iter@),
            CacheIter::LdELFSOHints(iter) => directory_steps(iter@),
            CacheIter::LdSOHints(iter) => entry_steps(iter@),
        }
    }
}

impl<'cache> CacheIter<'cache> {
    /// Returns the next step, or `None` once the cache is exhausted.
    pub fn next(&mut self) -> (r: Option<Step<'cache>>)
        ensures
            old(self)@.len() == 0 ==> r is None && final(self)@ == old(self)@,
            old(self)@.len() > 0 ==> r is Some && r->0@ == old(self)@[0] && final(self)@ == old(
                self,
            )@.skip(1),
    {
        match self {
            CacheIter::LdSO1dot7(iter) => {
                let ghost before = iter@;
                match iter.next() {
                    Some(item) => {
                        assert(entry_steps(iter@) =~= entry_steps(before).skip(1));
                        Some(Step::Entry(item))
                    },
                    None => None,
                }
            },
            CacheIter::GLibCLdSOCache1dot1(iter) => {
                let ghost before = iter@;
                match iter.next() {
                    Some(item) => {
                        assert(entry_steps(iter@) =~= entry_steps(before).skip(1));
                        Some(Step::Entry(item))
                    },
                    None => None,
                }
            },
            CacheIter::LdELFSOHints(iter) => {
                let ghost before = iter@;
                match iter.next() {
                    Some(directory) => {
                        assert(directory_steps(iter@) =~= directory_steps(before).skip(1));
                        Some(Step::Directory(directory))
                    },
                    None => None,
                }
            },
            CacheIter::LdSOHints(iter) => {
                let ghost before = iter@;
                match iter.next() {
                    Some(item) => {
                        assert(entry_steps(iter@) =~= entry_steps(before).skip(1));
                        Some(Step::Entry(item))
                    },
                    None => None,
                }
            },
        }
    }
}

impl CacheImpl {
    /// Returns the walk over the cache, whatever its format.
    pub fn entries_iter(&self) -> (r: Result<CacheIter<'_>, Error>)
        ensures
            r is Ok,
            r->Ok_0@ == self@.steps(),
    {
        match self {
            CacheImpl::LdSO1dot7(cache) => Ok(CacheIter::LdSO1dot7(cache.entries_iter()?)),
            CacheImpl::GLibCLdSOCache1dot1(cache) => Ok(
                CacheIter::GLibCLdSOCache1dot1(cache.entries_iter()?),
            ),
            CacheImpl::LdELFSOHints(cache) => Ok(CacheIter::LdELFSOHints(cache.entries_iter()?)),
            CacheImpl::LdSOHints(cache) => Ok(CacheIter::LdSOHints(cache.entries_iter()?)),
        }
    }
}

/// All of `parts`, one after the other.
pub open spec fn concat(parts: Seq<Seq<StepView>>) -> Seq<StepView>
    decreases parts.len(),
{
    if parts.len() == 0 {
        Seq::empty()
    } else {
        parts[0] + concat(parts.skip(1))
    }
}

/// What a walk over the aggregate of `caches` gives: what a walk over each
/// cache gives, in the order of the caches.
pub open spec fn all_steps(caches: Seq<CacheImplView>) -> Seq<StepView> {
    concat(caches.map_values(|cache: CacheImplView| cache.steps()))
}

/// What the walks `iters` have yet to give, each of them.
pub open spec fn remainders(iters: Seq<CacheIter<'_>>) -> Seq<Seq<StepView>> {
    iters.map_values(|iter: CacheIter<'_>| iter@)
}

/// The walks that `iters` holds, from the first that was pushed to the last.
pub uninterp spec fn walks(iters: ArrayVec<CacheIter<'_>, CACHE_IMPL_COUNT>) -> Seq<CacheIter<'_>>;

/// An empty collection of walks, made by `ArrayVec::new`.
///
/// Not proved: the new collection holds nothing.
#[verifier::external_body]
fn no_walks<'cache>() -> (r: ArrayVec<CacheIter<'cache>, CACHE_IMPL_COUNT>)
    ensures
        walks(r) == Seq::<CacheIter<'cache>>::empty(),
{
    ArrayVec::new()
}

/// Appends `iter` with `ArrayVec::push`, which panics on a full collection.
///
/// Not proved: where fewer walks are held than the capacity, the call
/// returns, and the collection then holds what it held, followed by `iter`.
#[verifier::external_body]
fn push_walk<'cache>(
    iters: &mut ArrayVec<CacheIter<'cache>, CACHE_IMPL_COUNT>,
    iter: CacheIter<'cache>,
)
    requires
        walks(*old(iters)).len() < CACHE_IMPL_COUNT,
    ensures
        walks(*final(iters)) == walks(*old(iters)).push(iter),
{
    iters.push(iter)
}

/// The content of the collection as a slice through which the walks can be
/// advanced, by `ArrayVec::as_mut_slice`.
///
/// Not proved: the slice holds the walks that the collection holds, in the
/// same order, and what the slice holds once it is let go is what the
/// collection then holds.
#[verifier::external_body]
fn walks_of<'a, 'cache>(iters: &'a mut ArrayVec<CacheIter<'cache>, CACHE_IMPL_COUNT>) -> (r:
    &'a mut [CacheIter<'cache>])
    ensures
        r@ == walks(*old(iters)),
        final(r)@ == walks(*final(iters)),
        walks(*final(iters)).len() == walks(*old(iters)).len(),
    no_unwind
{
    iters.as_mut_slice()
}

impl Cache {
    /// Returns an iterator over all the dynamic loader caches that have been
    /// loaded, in their order.
    ///
    /// A cache that names its libraries one by one gives its entries. A
    /// cache that names directories gives the directories: the entries are
    /// their members, which are for the caller to list.
    pub fn iter(&self) -> (r: Result<Iter<'_>, Error>)
        ensures
            r is Ok,
            r->Ok_0@ == all_steps(self@),
    {
        proof {
            use_type_invariant(self);
        }
        let caches = caches_of(&self.caches);
        let mut iters = no_walks();
        let mut index: usize = 0;
        while index < caches.len()
            invariant
                index <= caches@.len(),
                caches@.len() <= CACHE_IMPL_COUNT,
                walks(iters).len() == index,
                forall|k: int|
                    0 <= k < index ==> (#[trigger] walks(iters)[k])@ == caches@[k]@.steps(),
            decreases caches.len() - index,
        {
            let iter = caches[index].entries_iter()?;
            push_walk(&mut iters, iter);
            index += 1;
        }
        let walk = Iter { iters, position: 0 };
        assert(remainders(walks(walk.iters).skip(0)) =~= self@.map_values(
            |cache: CacheImplView| cache.steps(),
        ));
        Ok(walk)
    }
}

/// Walk over the caches of an aggregate, one cache after the other.
#[derive(Debug)]
pub struct Iter<'cache> {
    iters: ArrayVec<CacheIter<'cache>, CACHE_IMPL_COUNT>,
    position: usize,
}

impl<'cache> View for Iter<'cache> {
    type V = Seq<StepView>;

    /// The steps that the walk has yet to give.
    closed spec fn view(&self) -> Seq<StepView> {
        concat(remainders(walks(self.iters).skip(self.position as int)))
    }
}

/// Advances the first of the walks `iters`, from the one of index `start`
/// on, that has a step to give. Returns the step and the index of the walk
/// that gave it, or nothing and the number of walks.
fn next_of<'cache>(iters: &mut [CacheIter<'cache>], start: usize) -> (r: (
    Option<Step<'cache>>,
    usize,
))
    requires
        start <= old(iters)@.len(),
    ensures
        final(iters)@.len() == old(iters)@.len(),
        start <= r.1 <= old(iters)@.len(),
        concat(remainders(old(iters)@.skip(start as int))).len() == 0 ==> r.0 is None && concat(
            remainders(final(iters)@.skip(r.1 as int)),
        ) == concat(remainders(old(iters)@.skip(start as int))),
        concat(remainders(old(iters)@.skip(start as int))).len() > 0 ==> r.0 is Some && r.0->0@
            == concat(remainders(old(iters)@.skip(start as int)))[0] && concat(
            remainders(final(iters)@.skip(r.1 as int)),
        ) == concat(remainders(old(iters)@.skip(start as int))).skip(1),
{
    let mut position = start;
    while position < iters.len()
        invariant
            start <= position <= iters@.len(),
            iters@.len() == old(iters)@.len(),
            concat(remainders(iters@.skip(position as int))) == concat(
                remainders(old(iters)@.skip(start as int)),
            ),
        decreases iters@.len() - position,
    {
        let ghost before = iters@;
        let ghost rest = remainders(before.skip(position as int));
        assert(rest[0] == before[position as int]@);
        assert(rest.skip(1) =~= remainders(before.skip(position + 1)));
        let step = iters[position].next();
        match step {
            Some(step) => {
                proof {
                    let after = remainders(iters@.skip(position as int));
                    assert(after[0] == rest[0].skip(1));
                    assert(after.skip(1) =~= rest.skip(1));
                    assert(concat(after) =~= concat(rest).skip(1));
                }
                return (Some(step), position);
            },
            None => {
                proof {
                    let after = remainders(iters@.skip(position as int));
                    assert(after =~= rest);
                    assert(concat(rest) =~= concat(rest.skip(1)));
                    assert(rest.skip(1) =~= remainders(iters@.skip(position + 1)));
                }
                position += 1;
            },
        }
    }
    assert(remainders(iters@.skip(position as int)).len() == 0);
    (None, position)
}

impl<'cache> Iter<'cache> {
    #[verifier::type_invariant]
    spec fn well_formed(&self) -> bool {
        self.position <= walks(self.iters).len()
    }

    /// Returns the next step, or `None` once every cache is exhausted. After
    /// the first `None`, every call returns `None`.
    pub fn next(&mut self) -> (r: Option<Step<'cache>>)
        ensures
            old(self)@.len() == 0 ==> r is None && final(self)@ == old(self)@,
            old(self)@.len() > 0 ==> r is Some && r->0@ == old(self)@[0] && final(self)@ == old(
                self,
            )@.skip(1),
    {
        proof {
            use_type_invariant(&*self);
        }
        let (step, position) = next_of(walks_of(&mut self.iters), self.position);
        self.position = position;
        step
    }
}

/// A discovery pass retains at most one cache for each known file, and so no
/// more caches than an aggregate has room for. Where no file could be read,
/// it retains nothing.
pub proof fn lemma_discovered_fits(os: HostOs, files: CacheFiles, native: ByteOrder)
    ensures
        discovered(os, files, native).len() <= CACHE_IMPL_COUNT,
        (files.glibc_ld_so_cache_1dot1 is None && files.ld_elf_so_hints is None
            && files.ld_elf32_so_hints is None && files.ld_so_hints is None && files.ld_so_1dot7
            is None) ==> discovered(os, files, native).len() == 0,
{
    let glibc = glibc_ld_so_cache_1dot1_found(content_of(files.glibc_ld_so_cache_1dot1), native);
    let elf = ld_elf_so_hints_file_found(
        ld_elf_so_hints::CACHE_FILE_PATH@,
        content_of(files.ld_elf_so_hints),
    );
    let elf_32 = ld_elf_so_hints_file_found(
        ld_elf_so_hints::CACHE_FILE_PATH_32@,
        content_of(files.ld_elf32_so_hints),
    );
    let hints = ld_so_hints_found(content_of(files.ld_so_hints));
    let legacy = ld_so_1dot7_found(content_of(files.ld_so_1dot7), native);
    assert(glibc.len() <= 1 && (files.glibc_ld_so_cache_1dot1 is None ==> glibc.len() == 0));
    assert(elf.len() <= 1 && (files.ld_elf_so_hints is None ==> elf.len() == 0));
    assert(elf_32.len() <= 1 && (files.ld_elf32_so_hints is None ==> elf_32.len() == 0));
    assert(hints.len() <= 1 && (files.ld_so_hints is None ==> hints.len() == 0));
    assert(legacy.len() <= 1 && (files.ld_so_1dot7 is None ==> legacy.len() == 0));
    assert(discovered(os, files, native).len() == glibc.len() + elf.len() + elf_32.len()
        + hints.len() + legacy.len());
}

/// The system of the host decides in which order the caches are retained,
/// not which caches are retained.
pub proof fn lemma_discovered_whatever_the_order(
    os: HostOs,
    other: HostOs,
    files: CacheFiles,
    native: ByteOrder,
)
    ensures
        discovered(os, files, native).to_multiset() == discovered(other, files, native).to_multiset(),
{
    let glibc = glibc_ld_so_cache_1dot1_found(content_of(files.glibc_ld_so_cache_1dot1), native);
    let elf = ld_elf_so_hints_found(
        content_of(files.ld_elf_so_hints),
        content_of(files.ld_elf32_so_hints),
    );
    let hints = ld_so_hints_found(content_of(files.ld_so_hints));
    let legacy = ld_so_1dot7_found(content_of(files.ld_so_1dot7), native);
    let all = glibc.to_multiset().add(elf.to_multiset()).add(hints.to_multiset()).add(
        legacy.to_multiset(),
    );
    vstd::seq_lib::lemma_multiset_commutative(elf, hints);
    vstd::seq_lib::lemma_multiset_commutative(elf + hints, legacy);
    vstd::seq_lib::lemma_multiset_commutative(elf + hints + legacy, glibc);
    vstd::seq_lib::lemma_multiset_commutative(hints, elf);
    vstd::seq_lib::lemma_multiset_commutative(hints + elf, legacy);
    vstd::seq_lib::lemma_multiset_commutative(hints + elf + legacy, glibc);
    vstd::seq_lib::lemma_multiset_commutative(glibc, elf);
    vstd::seq_lib::lemma_multiset_commutative(glibc + elf, hints);
    vstd::seq_lib::lemma_multiset_commutative(glibc + elf + hints, legacy);
    assert(discovered(HostOs::FreeBsd, files, native).to_multiset() =~= all);
    assert(discovered(HostOs::OpenBsdOrNetBsd, files, native).to_multiset() =~= all);
    assert(discovered(HostOs::Other, files, native).to_multiset() =~= all);
}

/// A walk over an aggregate gives what a walk over its first caches gives,
/// and then what a walk over the caches behind them gives.
pub proof fn lemma_all_steps_in_order(first: Seq<CacheImplView>, second: Seq<CacheImplView>)
    ensures
        all_steps(first + second) == all_steps(first) + all_steps(second),
    decreases first.len(),
{
    let steps = |cache: CacheImplView| cache.steps();
    if first.len() == 0 {
        assert(first + second =~= second);
        assert(all_steps(first) =~= Seq::<StepView>::empty());
        assert(all_steps(first) + all_steps(second) =~= all_steps(second));
    } else {
        lemma_all_steps_in_order(first.skip(1), second);
        assert((first + second).map_values(steps).skip(1) =~= (first.skip(1) + second).map_values(
            steps,
        ));
        assert(first.map_values(steps).skip(1) =~= first.skip(1).map_values(steps));
        assert(all_steps(first + second) =~= all_steps(first) + all_steps(second));
    }
}

/// Two walks that start from the same aggregate give the same steps in the
/// same order.
pub proof fn lemma_iter_is_repeatable(cache: Seq<CacheImplView>, first: Iter<'_>, second: Iter<'_>)
    requires
        first@ == all_steps(cache),
        second@ == all_steps(cache),
    ensures
        first@ == second@,
{
}

} // verus!
