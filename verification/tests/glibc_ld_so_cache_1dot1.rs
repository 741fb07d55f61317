use dynamic_loader_cache::errors::{ErrorKind, ParseError};
use dynamic_loader_cache::glibc_ld_so_cache_1dot1::{
    Cache, CACHE_FILE_PATH, ENTRY_SIZE, HEADER_SIZE, LIB_COUNT_OFFSET, MAGIC,
};
use dynamic_loader_cache::host::{native_byte_order, Endianness};
use dynamic_loader_cache::reader::ByteOrder;
use dynamic_loader_cache::Error;

fn u32_bytes(value: u32, byte_order: ByteOrder) -> [u8; 4] {
    match byte_order {
        ByteOrder::Little => value.to_le_bytes(),
        ByteOrder::Big => value.to_be_bytes(),
    }
}

fn native() -> ByteOrder {
    if u32::from_ne_bytes([1, 0, 0, 0]) == 1 {
        ByteOrder::Little
    } else {
        ByteOrder::Big
    }
}

fn order_of_flags(flags: u8) -> ByteOrder {
    match flags & 0b11 {
        2 => ByteOrder::Little,
        3 => ByteOrder::Big,
        _ => native(),
    }
}

/// A header with the given fields, followed by `rest`.
fn file(flags: u8, lib_count: u32, string_table_size: u32, rest: &[u8]) -> Vec<u8> {
    let byte_order = order_of_flags(flags);
    let mut bytes = Vec::new();
    bytes.extend_from_slice(&MAGIC);
    bytes.extend_from_slice(&u32_bytes(lib_count, byte_order));
    bytes.extend_from_slice(&u32_bytes(string_table_size, byte_order));
    bytes.push(flags);
    bytes.extend_from_slice(&[0_u8; 19]);
    bytes.extend_from_slice(rest);
    bytes
}

/// A whole cache that holds the given libraries.
fn cache_of(flags: u8, libraries: &[(&str, &str)]) -> Vec<u8> {
    let byte_order = order_of_flags(flags);
    let strings_start = HEADER_SIZE + ENTRY_SIZE * libraries.len();
    let mut records = Vec::new();
    let mut strings = Vec::new();
    for (name, path) in libraries {
        let key = (strings_start + strings.len()) as u32;
        strings.extend_from_slice(name.as_bytes());
        strings.push(0);
        let value = (strings_start + strings.len()) as u32;
        strings.extend_from_slice(path.as_bytes());
        strings.push(0);
        records.extend_from_slice(&u32_bytes(1, byte_order));
        records.extend_from_slice(&u32_bytes(key, byte_order));
        records.extend_from_slice(&u32_bytes(value, byte_order));
        records.extend_from_slice(&[0_u8; 12]);
    }
    let mut rest = records;
    rest.extend_from_slice(&strings);
    file(flags, libraries.len() as u32, strings.len() as u32, &rest)
}

fn collect(cache: &Cache) -> Vec<Result<(Vec<u8>, Vec<u8>), Error>> {
    let mut iter = cache.iter().unwrap();
    let mut items = Vec::new();
    while let Some(item) = iter.next() {
        items.push(item.map(|e| (e.file_name.as_bytes().to_vec(), e.full_path.as_bytes().to_vec())));
    }
    items
}

fn print_cache(cache: &Cache) {
    let mut iter = cache.iter().unwrap();
    while let Some(e) = iter.next() {
        let e = e.unwrap();
        println!(
            "{} => {}",
            String::from_utf8_lossy(e.file_name.as_bytes()),
            String::from_utf8_lossy(e.full_path.as_bytes())
        );
    }
}

const LIBRARIES: [(&str, &str); 3] = [
    ("libc.so.6", "/lib/x86_64-linux-gnu/libc.so.6"),
    ("libm.so.6", "/lib/x86_64-linux-gnu/libm.so.6"),
    ("libz.so.1", "/usr/lib/libz.so.1"),
];

#[test]
fn load() {
    let cache = Cache::load("tests/glibc-ld.so.cache1.1/ld.so.cache", cache_of(2, &LIBRARIES)).unwrap();
    print_cache(&cache);
}

#[test]
fn parse_byte_order_empty() {
    Cache::parse_byte_order(&[]).unwrap_err();
}

#[test]
fn parse_byte_order_reports_where_the_buffer_ends() {
    assert_eq!(
        Cache::parse_byte_order(&[0_u8; 27]),
        Err(ParseError { offset: 0, code: ErrorKind::Eof })
    );
    assert_eq!(
        Cache::parse_byte_order(&[0_u8; 28]),
        Err(ParseError { offset: 28, code: ErrorKind::Eof })
    );
    assert_eq!(Cache::parse_byte_order(&[0_u8; 29]), Ok(Endianness::Native));
}

#[test]
fn parse_byte_order_reads_the_two_low_bits() {
    for high in 0_u8..64 {
        let flags = high << 2;
        assert_eq!(Cache::parse_byte_order(&file(flags, 0, 0, &[])), Ok(Endianness::Native));
        assert_eq!(
            Cache::parse_byte_order(&file(flags | 1, 0, 0, &[])),
            Err(ParseError { offset: 0, code: ErrorKind::IsA })
        );
        assert_eq!(Cache::parse_byte_order(&file(flags | 2, 0, 0, &[])), Ok(Endianness::Little));
        assert_eq!(Cache::parse_byte_order(&file(flags | 3, 0, 0, &[])), Ok(Endianness::Big));
    }
}

#[test]
fn byte_order_code_1_is_rejected_whatever_surrounds_it() {
    let mut seed = 0x2545_f491_u32;
    for _ in 0..200 {
        let mut bytes = vec![0_u8; 29 + (seed % 64) as usize];
        for b in bytes.iter_mut() {
            seed = seed.wrapping_mul(1_664_525).wrapping_add(1_013_904_223);
            *b = (seed >> 24) as u8;
        }
        bytes[28] = (bytes[28] & 0b1111_1100) | 1;
        assert_eq!(
            Cache::parse_byte_order(&bytes),
            Err(ParseError { offset: 0, code: ErrorKind::IsA })
        );
        assert!(matches!(Cache::load("x", bytes), Err(Error::Parse { .. })));
    }
}

#[test]
fn parse_header_failures_name_offset_and_kind() {
    let whole = file(2, 0, 0, &[]);
    assert_eq!(whole.len(), 48);
    let mut bad_magic = whole.clone();
    bad_magic[19] = b'2';
    assert_eq!(
        Cache::parse_header(&bad_magic, Endianness::Little),
        Err(ParseError { offset: 0, code: ErrorKind::Tag })
    );
    assert_eq!(
        Cache::parse_header(&whole[..19], Endianness::Little),
        Err(ParseError { offset: 0, code: ErrorKind::Tag })
    );
    assert_eq!(
        Cache::parse_header(&whole[..23], Endianness::Little),
        Err(ParseError { offset: 20, code: ErrorKind::Eof })
    );
    assert_eq!(
        Cache::parse_header(&whole[..27], Endianness::Little),
        Err(ParseError { offset: 24, code: ErrorKind::Eof })
    );
    assert_eq!(
        Cache::parse_header(&whole[..47], Endianness::Little),
        Err(ParseError { offset: 28, code: ErrorKind::Eof })
    );
    assert_eq!(Cache::parse_header(&whole, Endianness::Little), Ok(0));
}

#[test]
fn parse_header_rejects_declared_sizes_that_do_not_fit() {
    // Room for exactly two records and five bytes of strings.
    let rest = [0_u8; 2 * 24 + 5];
    assert_eq!(Cache::parse_header(&file(2, 2, 5, &rest), Endianness::Little), Ok(2));
    assert_eq!(
        Cache::parse_header(&file(2, 3, 0, &rest), Endianness::Little),
        Err(ParseError { offset: 0, code: ErrorKind::TooLarge })
    );
    assert_eq!(
        Cache::parse_header(&file(2, 2, 6, &rest), Endianness::Little),
        Err(ParseError { offset: 0, code: ErrorKind::TooLarge })
    );
    assert_eq!(Cache::parse_header(&file(2, 1, 29, &rest), Endianness::Little), Ok(1));
    assert_eq!(
        Cache::parse_header(&file(2, 1, 30, &rest), Endianness::Little),
        Err(ParseError { offset: 0, code: ErrorKind::TooLarge })
    );
}

#[test]
fn sizes_near_the_greatest_u32_do_not_wrap() {
    let rest = [0_u8; 100];
    for (lib_count, string_table_size) in [
        (u32::MAX, 0),
        (0, u32::MAX),
        (u32::MAX, u32::MAX),
        (u32::MAX / 24, u32::MAX),
        (u32::MAX / 24 + 1, 0),
        (178_956_971, 0),
        (1, u32::MAX - 71),
        (4, u32::MAX - 99),
    ] {
        for flags in [2_u8, 3] {
            assert_eq!(
                Cache::parse_header_as(
                    &file(flags, lib_count, string_table_size, &rest),
                    order_of_flags(flags)
                ),
                Err(ParseError { offset: 0, code: ErrorKind::TooLarge })
            );
        }
    }
}

#[test]
fn parse_header_reads_in_the_given_byte_order() {
    let rest = [0_u8; 24 * 3];
    let little = file(2, 3, 0, &rest);
    let big = file(3, 3, 0, &rest);
    assert_eq!(Cache::parse_header_as(&little, ByteOrder::Little), Ok(3));
    assert_eq!(Cache::parse_header_as(&big, ByteOrder::Big), Ok(3));
    // Read in the other order, the count is 3 << 24, which does not fit.
    assert_eq!(
        Cache::parse_header_as(&little, ByteOrder::Big),
        Err(ParseError { offset: 0, code: ErrorKind::TooLarge })
    );
    let native_file = file(0, 3, 0, &rest);
    assert_eq!(Cache::parse_header(&native_file, Endianness::Native), Ok(3));
    assert_eq!(Endianness::Native.resolve(), native());
    assert_eq!(native_byte_order(), native());
    assert_eq!(Endianness::Big.resolve(), ByteOrder::Big);
    assert_eq!(Endianness::Little.resolve(), ByteOrder::Little);
}

fn load_random0(flags: u8, lib_count: u32, string_table_size: u32, bytes: &[u8], unused: [u8; 19]) {
    let (byte_order, u32_bytes): (Endianness, fn(u32) -> [u8; 4]) = match flags & 0b11 {
        0 => (Endianness::Native, u32::to_ne_bytes),
        2 => (Endianness::Little, u32::to_le_bytes),
        3 => (Endianness::Big, u32::to_be_bytes),
        _ => (Endianness::Native, u32::to_ne_bytes),
    };

    let mut buffer = Vec::<u8>::with_capacity(HEADER_SIZE + bytes.len());
    buffer.extend_from_slice(&MAGIC);
    buffer.extend_from_slice(&u32_bytes(lib_count));
    buffer.extend_from_slice(&u32_bytes(string_table_size));
    buffer.push(flags);
    buffer.extend_from_slice(&unused);
    buffer.extend_from_slice(bytes);
    let bytes = buffer;

    let r = Cache::parse_byte_order(&bytes);
    if (flags & 0b11) == 1 {
        assert!(matches!(r, Err(_)));
        return;
    }

    assert!(matches!(r, Ok(bo) if bo == byte_order));

    let Ok(lib_count) = Cache::parse_header(&bytes, byte_order) else {
        return;
    };

    let lib_count_bytes = bytes.get(LIB_COUNT_OFFSET..(LIB_COUNT_OFFSET + 4)).unwrap_or(&[]);
    assert_eq!(lib_count_bytes, u32_bytes(lib_count));
}

#[test]
fn load_random() {
    let mut seed = 0x9e37_79b9_u32;
    let mut next = move || {
        seed = seed.wrapping_mul(1_664_525).wrapping_add(1_013_904_223);
        seed >> 8
    };
    for _ in 0..256 {
        let size = next() % 65_536;
        let byte_order = (next() % 3) as u8;
        let flags = (((next() % 64) as u8) << 2) | if byte_order == 0 { 0 } else { 1 + byte_order };
        let lib_count = next() % (size / ENTRY_SIZE as u32 + 1);
        let string_table_size = next() % (size - lib_count * ENTRY_SIZE as u32 + 1);
        let len = (next() % (2 * size + 1)) as usize;
        let bytes: Vec<u8> = (0..len).map(|_| next() as u8).collect();
        let random_u8 = next() as u8;
        let random_u32 = next().wrapping_mul(0x0101_0101) ^ next();
        let mut unused = [0_u8; 19];
        for b in unused.iter_mut() {
            *b = next() as u8;
        }
        load_random0(flags, lib_count, string_table_size, &bytes, unused);
        load_random0(flags, lib_count, random_u32, &bytes, unused);
        load_random0(flags, random_u32, string_table_size, &bytes, unused);
        load_random0(random_u8, lib_count, string_table_size, &bytes, unused);
    }
}

#[test]
fn load_rejects_an_empty_file() {
    assert_eq!(
        Cache::load("/etc/ld.so.cache", Vec::new()).unwrap_err(),
        Error::FileIsEmpty { path: "/etc/ld.so.cache".to_string() }
    );
}

#[test]
fn load_reports_parse_failures_with_the_path() {
    assert_eq!(
        Cache::load("some/path", vec![0_u8; 10]).unwrap_err(),
        Error::Parse {
            path: "some/path".to_string(),
            source: ParseError { offset: 0, code: ErrorKind::Eof }
        }
    );
    let mut bytes = file(2, 0, 0, &[]);
    bytes[0] = b'x';
    assert_eq!(
        Cache::load("some/path", bytes).unwrap_err(),
        Error::Parse {
            path: "some/path".to_string(),
            source: ParseError { offset: 0, code: ErrorKind::Tag }
        }
    );
    assert_eq!(
        Cache::load_default(file(1, 0, 0, &[])).unwrap_err(),
        Error::Parse {
            path: CACHE_FILE_PATH.to_string(),
            source: ParseError { offset: 0, code: ErrorKind::IsA }
        }
    );
}

#[test]
fn buffers_shorter_than_the_header_fail_to_load() {
    let whole = cache_of(2, &LIBRARIES);
    for len in 1..HEADER_SIZE {
        assert!(matches!(
            Cache::load("short", whole[..len].to_vec()),
            Err(Error::Parse { .. })
        ));
        assert!(Cache::parse_header(&whole[..len], Endianness::Little).is_err());
    }
}

#[test]
fn iter_gives_the_declared_number_of_entries() {
    for flags in [0_u8, 2, 3, 0b1010_1010] {
        let cache = Cache::load("cache", cache_of(flags, &LIBRARIES)).unwrap();
        let iter = cache.iter().unwrap();
        assert_eq!(iter.size_hint(), (3, Some(3)));
        let items = collect(&cache);
        assert_eq!(items.len(), 3);
        for (item, (name, path)) in items.iter().zip(LIBRARIES.iter()) {
            assert_eq!(
                item.as_ref().unwrap(),
                &(name.as_bytes().to_vec(), path.as_bytes().to_vec())
            );
        }
    }
}

#[test]
fn iter_of_an_empty_table_gives_nothing() {
    let cache = Cache::load_default(file(2, 0, 0, &[])).unwrap();
    let mut iter = cache.iter().unwrap();
    assert_eq!(iter.size_hint(), (0, Some(0)));
    assert!(iter.next().is_none());
}

#[test]
fn iter_is_fused_and_counts_down() {
    let cache = Cache::load("cache", cache_of(2, &LIBRARIES)).unwrap();
    let mut iter = cache.entries_iter().unwrap();
    for remaining in (1..=3).rev() {
        assert_eq!(iter.size_hint(), (remaining, Some(remaining)));
        assert!(iter.next().is_some());
    }
    for _ in 0..3 {
        assert_eq!(iter.size_hint(), (0, Some(0)));
        assert!(iter.next().is_none());
    }
}

#[test]
fn iter_twice_gives_the_same_entries() {
    let cache = Cache::load("cache", cache_of(3, &LIBRARIES)).unwrap();
    assert_eq!(collect(&cache), collect(&cache));
}

#[test]
fn entries_borrow_from_the_cache() {
    let cache = Cache::load("cache", cache_of(2, &LIBRARIES)).unwrap();
    let mut iter = cache.iter().unwrap();
    let entry = iter.next().unwrap().unwrap();
    assert!(!entry.file_name.is_owned());
    assert!(!entry.full_path.is_owned());
}

#[test]
fn file_names_have_no_separator_and_end_their_paths() {
    let cache = Cache::load("cache", cache_of(2, &LIBRARIES)).unwrap();
    let items = collect(&cache);
    assert!(!items.is_empty());
    for item in items {
        let (file_name, full_path) = item.unwrap();
        assert!(!file_name.contains(&b'/'));
        assert!(full_path.ends_with(&file_name));
    }
}

#[test]
fn a_corrupt_record_does_not_hide_the_others() {
    let mut bytes = cache_of(2, &LIBRARIES);
    let len = bytes.len() as u32;
    // Key of the second record: one byte behind the end of the file.
    bytes[48 + 24 + 4..48 + 24 + 8].copy_from_slice(&(len + 1).to_le_bytes());
    let cache = Cache::load("corrupt", bytes).unwrap();
    let items = collect(&cache);
    assert_eq!(items.len(), 3);
    assert!(items[0].is_ok());
    assert_eq!(items[1], Err(Error::OffsetIsInvalid { path: "corrupt".to_string() }));
    assert!(items[2].is_ok());
}

#[test]
fn offsets_at_the_end_or_without_terminator_give_no_string() {
    let mut bytes = cache_of(2, &LIBRARIES[..1]);
    let len = bytes.len() as u32;
    // Value at the end of the file: a valid offset, with no NUL behind it.
    bytes[48 + 8..48 + 12].copy_from_slice(&len.to_le_bytes());
    let cache = Cache::load("cache", bytes.clone()).unwrap();
    assert_eq!(collect(&cache), vec![Err(Error::FromBytesUntilNul)]);
    // The last NUL removed: the path has no terminator.
    let last = bytes.len() - 1;
    bytes[last] = b'x';
    bytes[48 + 8..48 + 12].copy_from_slice(&(len - 3).to_le_bytes());
    let cache = Cache::load("cache", bytes.clone()).unwrap();
    assert_eq!(collect(&cache), vec![Err(Error::FromBytesUntilNul)]);
    // The key is checked before the value.
    bytes[48 + 4..48 + 8].copy_from_slice(&(len + 7).to_le_bytes());
    let cache = Cache::load("cache", bytes).unwrap();
    assert_eq!(collect(&cache), vec![Err(Error::OffsetIsInvalid { path: "cache".to_string() })]);
}

#[test]
fn offsets_are_offsets_into_the_whole_file() {
    let mut bytes = cache_of(2, &LIBRARIES[..1]);
    // Key 0 is the magic itself, up to the first NUL byte of the header.
    bytes[48 + 4..48 + 8].copy_from_slice(&0_u32.to_le_bytes());
    let cache = Cache::load("cache", bytes).unwrap();
    let items = collect(&cache);
    let (file_name, _) = items[0].as_ref().unwrap();
    assert_eq!(file_name.as_slice(), b"glibc-ld.so.cache1.1\x01");
}

#[test]
fn next_fallible_behind_the_last_record_is_a_parse_failure() {
    let cache = Cache::load("cache", cache_of(2, &LIBRARIES[..1])).unwrap();
    let mut iter = cache.iter().unwrap();
    assert!(iter.next_fallible().is_ok());
    for _ in 0..2 {
        assert_eq!(
            iter.next_fallible().unwrap_err(),
            Error::Parse {
                path: "cache".to_string(),
                source: ParseError { offset: 0, code: ErrorKind::Eof }
            }
        );
        assert!(iter.next().is_none());
    }
}
