//! NUL-terminated strings inside a string area, and the entries made of them.

use vstd::prelude::*;

use crate::errors::{Error, ErrorView};
use crate::{Entry, EntryView, Item, Text};

verus! {

/// True if `n` is the position of the first byte of `s` that is `byte`.
pub open spec fn is_first(s: Seq<u8>, byte: u8, n: int) -> bool {
    &&& 0 <= n < s.len()
    &&& s[n] == byte
    &&& forall|j: int| 0 <= j < n ==> s[j] != byte
}

/// The position of the first byte of `s` that is `byte`, if there is one.
pub open spec fn position(s: Seq<u8>, byte: u8) -> Option<int> {
    if exists|n: int| is_first(s, byte, n) {
        Some(choose|n: int| is_first(s, byte, n))
    } else {
        None
    }
}

/// The bytes of `s` that stand before its first NUL byte, if it has one.
pub open spec fn until_nul(s: Seq<u8>) -> Option<Seq<u8>> {
    match position(s, 0) {
        Some(n) => Some(s.take(n)),
        None => None,
    }
}

/// A sequence has at most one first occurrence of a byte: [`position`] is
/// the first occurrence, wherever there is one.
pub proof fn lemma_position_is_first(s: Seq<u8>, byte: u8, n: int)
    requires
        is_first(s, byte, n),
    ensures
        position(s, byte) == Some(n),
{
    let m = choose|m: int| is_first(s, byte, m);
    if n < m {
        assert(s[n] != byte);
    }
    if m < n {
        assert(s[m] != byte);
    }
}

/// Where no byte of `s` is `byte`, [`position`] gives nothing.
pub proof fn lemma_position_of_absent(s: Seq<u8>, byte: u8)
    requires
        forall|j: int| 0 <= j < s.len() ==> s[j] != byte,
    ensures
        position(s, byte) == None::<int>,
{
    if exists|n: int| is_first(s, byte, n) {
        let n = choose|n: int| is_first(s, byte, n);
        assert(s[n] == byte);
    }
}

/// The text that [`until_nul`] cuts out holds no NUL byte.
pub proof fn lemma_until_nul_has_no_nul(s: Seq<u8>)
    requires
        until_nul(s) is Some,
    ensures
        forall|j: int| 0 <= j < until_nul(s)->0.len() ==> until_nul(s)->0[j] != 0,
{
    let n = choose|n: int| is_first(s, 0, n);
    assert(until_nul(s)->0 == s.take(n));
}

/// The position of the first byte of `bytes` that is `byte`, if there is
/// one.
pub fn find(bytes: &[u8], byte: u8) -> (r: Option<usize>)
    ensures
        match r {
            Some(n) => position(bytes@, byte) == Some(n as int) && is_first(bytes@, byte, n as int),
            None => position(bytes@, byte) == None::<int>,
        },
{
    let mut i: usize = 0;
    while i < bytes.len()
        invariant
            i <= bytes.len(),
            forall|j: int| 0 <= j < i ==> bytes@[j] != byte,
        decreases bytes.len() - i,
    {
        if bytes[i] == byte {
            proof {
                lemma_position_is_first(bytes@, byte, i as int);
            }
            return Some(i);
        }
        i += 1;
    }
    proof {
        lemma_position_of_absent(bytes@, byte);
    }
    None
}

/// The bytes of `bytes` that stand before its first NUL byte, or `None` if
/// there is no NUL byte in `bytes`.
pub fn bytes_until_nul(bytes: &[u8]) -> (r: Option<&[u8]>)
    ensures
        match r {
            Some(text) => until_nul(bytes@) == Some(text@),
            None => until_nul(bytes@) == None::<Seq<u8>>,
        },
{
    match find(bytes, 0) {
        Some(n) => Some(vstd::slice::slice_subrange(bytes, 0, n)),
        None => None,
    }
}

/// What the NUL-terminated string that starts at `offset` of `strings` is.
///
/// An offset behind the end of `strings` is invalid; an offset at which no
/// NUL byte follows gives no string.
pub open spec fn text_at(strings: Seq<u8>, offset: u32, path: Seq<char>) -> Result<
    Seq<u8>,
    ErrorView,
> {
    if offset > strings.len() {
        Err(ErrorView::OffsetIsInvalid { path })
    } else {
        match until_nul(strings.skip(offset as int)) {
            Some(text) => Ok(text),
            None => Err(ErrorView::FromBytesUntilNul),
        }
    }
}

/// Reads the NUL-terminated string that starts at `offset` of `strings`.
pub fn read_text<'cache>(strings: &'cache [u8], offset: u32, path: &str) -> (r: Result<
    &'cache [u8],
    Error,
>)
    ensures
        match r {
            Ok(text) => text_at(strings@, offset, path@) == Ok::<Seq<u8>, ErrorView>(text@),
            Err(error) => text_at(strings@, offset, path@) == Err::<Seq<u8>, ErrorView>(error@),
        },
{
    if offset as usize > strings.len() {
        return Err(Error::OffsetIsInvalid { path: path.to_owned() });
    }
    let tail = vstd::slice::slice_subrange(strings, offset as usize, strings.len());
    assert(tail@ == strings@.skip(offset as int));
    match bytes_until_nul(tail) {
        Some(text) => Ok(text),
        None => Err(Error::FromBytesUntilNul),
    }
}

/// The entry whose file name is `key` and whose full path is `value`.
pub fn cstr_entry_to_crate_entry<'cache>(key: &'cache [u8], value: &'cache [u8]) -> (r: Entry<
    'cache,
>)
    ensures
        r@ == (EntryView { file_name: key@, full_path: value@ }),
        r.file_name is Borrowed,
        r.full_path is Borrowed,
{
    Entry { file_name: Text::Borrowed(key), full_path: Text::Borrowed(value) }
}

/// What the record that names its strings by the offsets `key` and `value`
/// into `strings` gives: the first failure among key offset, key string,
/// value offset and value string, or the entry.
pub open spec fn entry_of(strings: Seq<u8>, key: u32, value: u32, path: Seq<char>) -> Item {
    match text_at(strings, key, path) {
        Err(error) => Err(error),
        Ok(file_name) => match text_at(strings, value, path) {
            Err(error) => Err(error),
            Ok(full_path) => Ok(EntryView { file_name, full_path }),
        },
    }
}

/// Resolves the offsets `key` and `value` of a record into `strings`.
pub fn read_entry<'cache>(strings: &'cache [u8], key: u32, value: u32, path: &str) -> (r:
    Result<Entry<'cache>, Error>)
    ensures
        crate::item_view(r) == entry_of(strings@, key, value, path@),
        r is Ok ==> r->Ok_0.file_name is Borrowed && r->Ok_0.full_path is Borrowed,
{
    let file_name = read_text(strings, key, path)?;
    let full_path = read_text(strings, value, path)?;
    Ok(cstr_entry_to_crate_entry(file_name, full_path))
}

/// True if no byte of `text` is NUL.
pub open spec fn has_no_nul(text: Seq<u8>) -> bool {
    forall|j: int| 0 <= j < text.len() ==> text[j] != 0
}

/// Neither the name nor the path of an entry that a record gives holds a NUL
/// byte.
pub proof fn lemma_entry_has_no_nul(strings: Seq<u8>, key: u32, value: u32, path: Seq<char>)
    ensures
        entry_of(strings, key, value, path) matches Ok(entry) ==> has_no_nul(entry.file_name)
            && has_no_nul(entry.full_path),
{
    if entry_of(strings, key, value, path) is Ok {
        lemma_until_nul_has_no_nul(strings.skip(key as int));
        lemma_until_nul_has_no_nul(strings.skip(value as int));
    }
}

} // verus!
