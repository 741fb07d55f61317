//! Bounded readers: every access to the bytes of a cache file goes through here.
//!
//! A reader takes the whole buffer and an offset into it. It either returns the
//! value found there or a [`ParseError`] that names the offset at which the
//! buffer fell short.

use vstd::prelude::*;

use crate::errors::{ErrorKind, ParseError};
use crate::DataModel;

verus! {

/// Concrete order of the bytes of a multi-byte integer.
#[derive(Debug, Clone, Copy, PartialEq, Eq, Structural)]
pub enum ByteOrder {
    /// Least significant byte first.
    Little,
    /// Most significant byte first.
    Big,
}

/// The failure `code` at `offset`.
pub open spec fn failure(offset: int, code: ErrorKind) -> ParseError {
    ParseError { offset: offset as usize, code }
}

/// True if `width` bytes can be read from `bytes` starting at `offset`.
pub open spec fn in_bounds(bytes: Seq<u8>, offset: int, width: int) -> bool {
    0 <= offset && 0 <= width && offset + width <= bytes.len()
}

/// Value of the four bytes `b` in little-endian order.
pub open spec fn u32_le(b: Seq<u8>) -> u32
    recommends
        b.len() == 4,
{
    (b[0] as int + 0x100 * (b[1] as int) + 0x1_0000 * (b[2] as int) + 0x100_0000 * (b[3] as int)) as u32
}

/// Value of the four bytes `b` in big-endian order.
pub open spec fn u32_be(b: Seq<u8>) -> u32
    recommends
        b.len() == 4,
{
    (b[3] as int + 0x100 * (b[2] as int) + 0x1_0000 * (b[1] as int) + 0x100_0000 * (b[0] as int)) as u32
}

/// Value of the four bytes `b` in the given order.
pub open spec fn u32_of(b: Seq<u8>, order: ByteOrder) -> u32
    recommends
        b.len() == 4,
{
    match order {
        ByteOrder::Little => u32_le(b),
        ByteOrder::Big => u32_be(b),
    }
}

/// The four bytes that encode `value` in the given order.
pub open spec fn u32_bytes(value: u32, order: ByteOrder) -> Seq<u8> {
    let b0 = (value % 0x100) as u8;
    let b1 = ((value / 0x100) % 0x100) as u8;
    let b2 = ((value / 0x1_0000) % 0x100) as u8;
    let b3 = (value / 0x100_0000) as u8;
    match order {
        ByteOrder::Little => seq![b0, b1, b2, b3],
        ByteOrder::Big => seq![b3, b2, b1, b0],
    }
}

/// Value of the eight bytes `b` in the given order.
pub open spec fn u64_of(b: Seq<u8>, order: ByteOrder) -> u64
    recommends
        b.len() == 8,
{
    match order {
        ByteOrder::Little => (u32_le(b.subrange(0, 4)) as int + 0x1_0000_0000 * (u32_le(
            b.subrange(4, 8),
        ) as int)) as u64,
        ByteOrder::Big => (u32_be(b.subrange(4, 8)) as int + 0x1_0000_0000 * (u32_be(
            b.subrange(0, 4),
        ) as int)) as u64,
    }
}

/// What reading one byte of `bytes` at `offset` gives.
pub open spec fn u8_at(bytes: Seq<u8>, offset: int) -> Result<u8, ParseError> {
    if in_bounds(bytes, offset, 1) {
        Ok(bytes[offset])
    } else {
        Err(failure(offset, ErrorKind::Eof))
    }
}

/// What reading a 32-bit integer of `bytes` at `offset` gives.
pub open spec fn u32_at(bytes: Seq<u8>, offset: int, order: ByteOrder) -> Result<u32, ParseError> {
    if in_bounds(bytes, offset, 4) {
        Ok(u32_of(bytes.subrange(offset, offset + 4), order))
    } else {
        Err(failure(offset, ErrorKind::Eof))
    }
}

/// What reading a 64-bit integer of `bytes` at `offset` gives.
pub open spec fn u64_at(bytes: Seq<u8>, offset: int, order: ByteOrder) -> Result<u64, ParseError> {
    if in_bounds(bytes, offset, 8) {
        Ok(u64_of(bytes.subrange(offset, offset + 8), order))
    } else {
        Err(failure(offset, ErrorKind::Eof))
    }
}

/// True if `bytes` holds `tag` at `offset`.
pub open spec fn has_tag(bytes: Seq<u8>, offset: int, tag: Seq<u8>) -> bool {
    in_bounds(bytes, offset, tag.len() as int) && bytes.subrange(offset, offset + tag.len()) == tag
}

/// The base-256 digits of `a + 256 b + 256^2 c + 256^3 d` are `a`, `b`, `c`
/// and `d`.
proof fn lemma_base_256_digits(a: int, b: int, c: int, d: int)
    requires
        0 <= a < 0x100,
        0 <= b < 0x100,
        0 <= c < 0x100,
        0 <= d < 0x100,
    ensures
        ({
            let value = a + 0x100 * b + 0x1_0000 * c + 0x100_0000 * d;
            &&& 0 <= value <= u32::MAX
            &&& value % 0x100 == a
            &&& (value / 0x100) % 0x100 == b
            &&& (value / 0x1_0000) % 0x100 == c
            &&& value / 0x100_0000 == d
        }),
{
    let value = a + 0x100 * b + 0x1_0000 * c + 0x100_0000 * d;
    let upper_3 = b + 0x100 * c + 0x1_0000 * d;
    let upper_2 = c + 0x100 * d;
    assert(value == a + 0x100 * upper_3);
    assert(value / 0x100 == upper_3 && value % 0x100 == a);
    assert(upper_3 == b + 0x100 * upper_2);
    assert(upper_3 / 0x100 == upper_2 && upper_3 % 0x100 == b);
    assert(value == (a + 0x100 * b) + 0x1_0000 * upper_2);
    assert(value / 0x1_0000 == upper_2);
    assert(upper_2 / 0x100 == d && upper_2 % 0x100 == c);
    assert(value == (a + 0x100 * b + 0x1_0000 * c) + 0x100_0000 * d);
    assert(value / 0x100_0000 == d);
}

/// The bytes of a 32-bit integer are the encoding of its value: decoding
/// loses nothing.
pub proof fn lemma_u32_bytes_of_value(b: Seq<u8>, order: ByteOrder)
    requires
        b.len() == 4,
    ensures
        u32_bytes(u32_of(b, order), order) == b,
{
    match order {
        ByteOrder::Little => {
            lemma_base_256_digits(b[0] as int, b[1] as int, b[2] as int, b[3] as int);
            assert(u32_bytes(u32_of(b, order), order) =~= b);
        },
        ByteOrder::Big => {
            lemma_base_256_digits(b[3] as int, b[2] as int, b[1] as int, b[0] as int);
            assert(u32_bytes(u32_of(b, order), order) =~= b);
        },
    }
}

/// A 32-bit integer is the sum of its base-256 digits, each at its place.
proof fn lemma_sum_of_base_256_digits(value: int)
    requires
        0 <= value <= u32::MAX,
    ensures
        value == value % 0x100 + 0x100 * ((value / 0x100) % 0x100) + 0x1_0000 * ((value
            / 0x1_0000) % 0x100) + 0x100_0000 * (value / 0x100_0000),
        0 <= value / 0x100_0000 < 0x100,
{
    let q1 = value / 0x100;
    let q2 = q1 / 0x100;
    let q3 = q2 / 0x100;
    assert(value == 0x100 * q1 + value % 0x100);
    assert(q1 == 0x100 * q2 + q1 % 0x100);
    assert(q2 == 0x100 * q3 + q2 % 0x100);
    assert(value / 0x1_0000 == q2);
    assert(value / 0x100_0000 == q3);
}

/// Encoding a value and decoding the bytes gives the value back.
pub proof fn lemma_u32_value_of_bytes(value: u32, order: ByteOrder)
    ensures
        u32_bytes(value, order).len() == 4,
        u32_of(u32_bytes(value, order), order) == value,
{
    lemma_sum_of_base_256_digits(value as int);
    let b0 = (value % 0x100) as u8;
    let b1 = ((value / 0x100) % 0x100) as u8;
    let b2 = ((value / 0x1_0000) % 0x100) as u8;
    let b3 = (value / 0x100_0000) as u8;
    match order {
        ByteOrder::Little => {
            assert(u32_bytes(value, order) =~= seq![b0, b1, b2, b3]);
        },
        ByteOrder::Big => {
            assert(u32_bytes(value, order) =~= seq![b3, b2, b1, b0]);
        },
    }
}

/// Returns true if `width` bytes can be read from `bytes` starting at `offset`.
pub fn has_room(bytes: &[u8], offset: usize, width: usize) -> (r: bool)
    ensures
        r == in_bounds(bytes@, offset as int, width as int),
        bytes@.len() <= usize::MAX,
{
    offset <= bytes.len() && width <= bytes.len() - offset
}

/// Reads the byte at `offset`.
pub fn read_u8(bytes: &[u8], offset: usize) -> (r: Result<u8, ParseError>)
    ensures
        r == u8_at(bytes@, offset as int),
{
    if has_room(bytes, offset, 1) {
        Ok(bytes[offset])
    } else {
        Err(ParseError { offset, code: ErrorKind::Eof })
    }
}

/// Reads the 32-bit integer stored at `offset` in the given byte order.
pub fn read_u32(bytes: &[u8], offset: usize, order: ByteOrder) -> (r: Result<u32, ParseError>)
    ensures
        r == u32_at(bytes@, offset as int, order),
{
    if !has_room(bytes, offset, 4) {
        return Err(ParseError { offset, code: ErrorKind::Eof });
    }
    let b0: u32 = bytes[offset] as u32;
    let b1: u32 = bytes[offset + 1] as u32;
    let b2: u32 = bytes[offset + 2] as u32;
    let b3: u32 = bytes[offset + 3] as u32;
    let value: u32 = match order {
        ByteOrder::Little => b0 + 0x100 * b1 + 0x1_0000 * b2 + 0x100_0000 * b3,
        ByteOrder::Big => b3 + 0x100 * b2 + 0x1_0000 * b1 + 0x100_0000 * b0,
    };
    Ok(value)
}

/// Reads the 64-bit integer stored at `offset` in the given byte order.
pub fn read_u64(bytes: &[u8], offset: usize, order: ByteOrder) -> (r: Result<u64, ParseError>)
    ensures
        r == u64_at(bytes@, offset as int, order),
{
    if !has_room(bytes, offset, 8) {
        return Err(ParseError { offset, code: ErrorKind::Eof });
    }
    let ghost word = bytes@.subrange(offset as int, offset + 8);
    assert(word.subrange(0, 4) == bytes@.subrange(offset as int, offset + 4));
    assert(word.subrange(4, 8) == bytes@.subrange(offset + 4, offset + 8));
    let first: u64 = match read_u32(bytes, offset, order) {
        Ok(v) => v as u64,
        Err(e) => return Err(e),
    };
    let second: u64 = match read_u32(bytes, offset + 4, order) {
        Ok(v) => v as u64,
        Err(e) => return Err(e),
    };
    let value: u64 = match order {
        ByteOrder::Little => first + 0x1_0000_0000 * second,
        ByteOrder::Big => second + 0x1_0000_0000 * first,
    };
    Ok(value)
}

/// Checks that `bytes` holds `tag` at `offset`, and fails there if it does not.
pub fn expect_tag(bytes: &[u8], offset: usize, tag: &[u8]) -> (r: Result<(), ParseError>)
    ensures
        r == (if has_tag(bytes@, offset as int, tag@) {
            Ok::<(), ParseError>(())
        } else {
            Err(failure(offset as int, ErrorKind::Tag))
        }),
{
    if !has_room(bytes, offset, tag.len()) {
        return Err(ParseError { offset, code: ErrorKind::Tag });
    }
    let ghost found = bytes@.subrange(offset as int, offset + tag.len());
    let mut i: usize = 0;
    while i < tag.len()
        invariant
            i <= tag.len(),
            in_bounds(bytes@, offset as int, tag@.len() as int),
            bytes@.len() <= usize::MAX,
            found == bytes@.subrange(offset as int, offset + tag.len()),
            forall|k: int| 0 <= k < i ==> found[k] == tag@[k],
        decreases tag.len() - i,
    {
        if bytes[offset + i] != tag[i] {
            assert(found[i as int] != tag@[i as int]);
            return Err(ParseError { offset, code: ErrorKind::Tag });
        }
        i += 1;
    }
    assert(found =~= tag@);
    Ok(())
}

/// Steps over `width` bytes at `offset`: returns the offset behind them, or
/// fails at `offset` if the buffer is shorter.
pub fn skip(bytes: &[u8], offset: usize, width: usize) -> (r: Result<usize, ParseError>)
    ensures
        r == (if in_bounds(bytes@, offset as int, width as int) {
            Ok::<usize, ParseError>((offset + width) as usize)
        } else {
            Err(failure(offset as int, ErrorKind::Eof))
        }),
{
    if has_room(bytes, offset, width) {
        Ok(offset + width)
    } else {
        Err(ParseError { offset, code: ErrorKind::Eof })
    }
}

/// Width in bytes of a `long` field under the data model `model`.
pub open spec fn word_size(model: DataModel) -> int {
    match model {
        DataModel::ILP32 => 4,
        DataModel::LP64 => 8,
    }
}

/// What reading a `long` field of `bytes` at `offset` gives, under the data
/// model `model`.
pub open spec fn word_at(bytes: Seq<u8>, offset: int, model: DataModel, order: ByteOrder) -> Result<
    u64,
    ParseError,
> {
    match model {
        DataModel::ILP32 => match u32_at(bytes, offset, order) {
            Ok(value) => Ok(value as u64),
            Err(error) => Err(error),
        },
        DataModel::LP64 => u64_at(bytes, offset, order),
    }
}

/// Width in bytes of a `long` field under the data model `model`.
pub fn width_of(model: DataModel) -> (r: usize)
    ensures
        r == word_size(model),
{
    match model {
        DataModel::ILP32 => 4,
        DataModel::LP64 => 8,
    }
}

/// Reads the `long` field stored at `offset`, of the width that `model`
/// gives it, in the given byte order.
pub fn read_word(bytes: &[u8], offset: usize, model: DataModel, order: ByteOrder) -> (r: Result<
    u64,
    ParseError,
>)
    ensures
        r == word_at(bytes@, offset as int, model, order),
{
    match model {
        DataModel::ILP32 => match read_u32(bytes, offset, order) {
            Ok(value) => Ok(value as u64),
            Err(error) => Err(error),
        },
        DataModel::LP64 => read_u64(bytes, offset, order),
    }
}

/// `value`, or the greatest `usize` if `value` is greater than that: what
/// saturating arithmetic makes of a result that is `value` among the integers.
pub open spec fn saturated(value: int) -> usize
    recommends
        0 <= value,
{
    if value > usize::MAX {
        usize::MAX
    } else {
        value as usize
    }
}

/// Product of `a` and `b`, or the greatest `usize` if the product is greater
/// than that.
pub fn saturating_mul(a: usize, b: usize) -> (r: usize)
    ensures
        r == saturated(a * b),
{
    match a.checked_mul(b) {
        Some(product) => product,
        None => usize::MAX,
    }
}

/// A saturating sum of saturated terms is the true sum, saturated: it never
/// comes out below the true sum, unless as the greatest `usize`.
pub proof fn lemma_saturated_sum(a: int, b: int)
    requires
        0 <= a,
        0 <= b,
    ensures
        saturated(saturated(a) + saturated(b)) == saturated(a + b),
        saturated(a + b) >= a + b || saturated(a + b) == usize::MAX,
{
}

} // verus!
