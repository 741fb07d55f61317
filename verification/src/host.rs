//! The byte order of the machine that runs the library.
//!
//! The glibc formats may leave their byte order to the host. The host's order
//! is asked once, and every read after that names a concrete [`ByteOrder`].

use vstd::prelude::*;

use crate::reader::{u32_be, u32_le, ByteOrder};

verus! {

/// Declared byte order of a cache file.
#[derive(Debug, Clone, Copy, PartialEq, Eq, Structural)]
pub enum Endianness {
    /// Most significant byte first.
    Big,
    /// Least significant byte first.
    Little,
    /// The order of the host that reads the file.
    Native,
}

impl Endianness {
    /// The concrete byte order that `self` stands for on a host whose own
    /// order is `native`.
    pub open spec fn on(self, native: ByteOrder) -> ByteOrder {
        match self {
            Endianness::Big => ByteOrder::Big,
            Endianness::Little => ByteOrder::Little,
            Endianness::Native => native,
        }
    }

    /// Exec form of [`Endianness::on`].
    pub fn resolve_on(self, native: ByteOrder) -> (r: ByteOrder)
        ensures
            r == self.on(native),
    {
        match self {
            Endianness::Big => ByteOrder::Big,
            Endianness::Little => ByteOrder::Little,
            Endianness::Native => native,
        }
    }

    /// The concrete byte order that `self` stands for on this host.
    ///
    /// An explicit order is returned as it is; only `Native` depends on the
    /// host.
    pub fn resolve(self) -> (r: ByteOrder)
        ensures
            r == self.on(ByteOrder::Little) || r == self.on(ByteOrder::Big),
    {
        match self {
            Endianness::Big => ByteOrder::Big,
            Endianness::Little => ByteOrder::Little,
            Endianness::Native => native_byte_order(),
        }
    }
}

/// Reads a `u32` in the host's byte order, with
/// `nom::number::complete::u32(Endianness::Native)`.
///
/// Not proved: nom fails on fewer than four bytes, and else returns the value
/// of the first four bytes as `le_u32` or as `be_u32` reads them, whichever the
/// target's endianness selects.
#[verifier::external_body]
fn native_u32(input: &[u8]) -> (r: Option<u32>)
    ensures
        input@.len() < 4 ==> r is None,
        input@.len() >= 4 ==> r is Some && (r->0 == u32_le(input@.subrange(0, 4)) || r->0
            == u32_be(input@.subrange(0, 4))),
{
    let parser = nom::number::complete::u32::<&[u8], nom::error::Error<&[u8]>>(
        nom::number::Endianness::Native,
    );
    match parser(input) {
        Ok((_, value)) => Some(value),
        Err(_) => None,
    }
}

/// The byte order under which the bytes `1, 0, 0, 0` read as `value`:
/// little-endian if they give 1, big-endian otherwise.
pub fn byte_order_of_probe(value: u32) -> (r: ByteOrder)
    ensures
        r == (if value == 1 {
            ByteOrder::Little
        } else {
            ByteOrder::Big
        }),
{
    if value == 1 {
        ByteOrder::Little
    } else {
        ByteOrder::Big
    }
}

/// The byte order of this host, found by reading the bytes `1, 0, 0, 0` in
/// native order.
pub fn native_byte_order() -> ByteOrder {
    let probe: [u8; 4] = [1, 0, 0, 0];
    match native_u32(&probe) {
        Some(value) => byte_order_of_probe(value),
        None => {
            assert(false);
            ByteOrder::Big
        },
    }
}

} // verus!
