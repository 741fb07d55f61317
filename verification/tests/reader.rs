use dynamic_loader_cache::errors::{ErrorKind, ParseError};
use dynamic_loader_cache::reader::{expect_tag, read_u32, read_u64, read_u8, skip, ByteOrder};

#[test]
fn read_u32_little_endian_value() {
    let bytes = [0x78_u8, 0x56, 0x34, 0x12, 0xff];
    assert_eq!(read_u32(&bytes, 0, ByteOrder::Little), Ok(0x1234_5678));
    assert_eq!(read_u32(&bytes, 1, ByteOrder::Little), Ok(0xff12_3456));
}

#[test]
fn read_u32_big_endian_value() {
    let bytes = [0x12_u8, 0x34, 0x56, 0x78];
    assert_eq!(read_u32(&bytes, 0, ByteOrder::Big), Ok(0x1234_5678));
}

#[test]
fn read_u32_short_buffer_fails_at_offset() {
    let bytes = [1_u8, 2, 3, 4, 5];
    assert_eq!(
        read_u32(&bytes, 2, ByteOrder::Little),
        Err(ParseError { offset: 2, code: ErrorKind::Eof })
    );
    assert_eq!(
        read_u32(&bytes, usize::MAX, ByteOrder::Big),
        Err(ParseError { offset: usize::MAX, code: ErrorKind::Eof })
    );
}

#[test]
fn read_u64_both_orders() {
    let bytes = [1_u8, 2, 3, 4, 5, 6, 7, 8];
    assert_eq!(read_u64(&bytes, 0, ByteOrder::Little), Ok(0x0807_0605_0403_0201));
    assert_eq!(read_u64(&bytes, 0, ByteOrder::Big), Ok(0x0102_0304_0506_0708));
    assert_eq!(
        read_u64(&bytes, 1, ByteOrder::Big),
        Err(ParseError { offset: 1, code: ErrorKind::Eof })
    );
}

#[test]
fn read_u8_inside_and_outside() {
    let bytes = [9_u8, 8];
    assert_eq!(read_u8(&bytes, 1), Ok(8));
    assert_eq!(read_u8(&bytes, 2), Err(ParseError { offset: 2, code: ErrorKind::Eof }));
}

#[test]
fn expect_tag_matches_only_the_exact_bytes() {
    let bytes = [0_u8, b'a', b'b', b'c'];
    assert_eq!(expect_tag(&bytes, 1, b"abc"), Ok(()));
    assert_eq!(
        expect_tag(&bytes, 1, b"abd"),
        Err(ParseError { offset: 1, code: ErrorKind::Tag })
    );
    assert_eq!(
        expect_tag(&bytes, 2, b"bcd"),
        Err(ParseError { offset: 2, code: ErrorKind::Tag })
    );
}

#[test]
fn skip_steps_over_bytes_that_are_there() {
    let bytes = [0_u8; 10];
    assert_eq!(skip(&bytes, 2, 8), Ok(10));
    assert_eq!(skip(&bytes, 2, 9), Err(ParseError { offset: 2, code: ErrorKind::Eof }));
}
