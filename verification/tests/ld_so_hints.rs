use dynamic_loader_cache::errors::{ErrorKind, ParseError};
use dynamic_loader_cache::ld_so_hints::{Cache, BUCKET_SIZE, CACHE_FILE_PATH, MAGIC, VERSION_2};
use dynamic_loader_cache::reader::ByteOrder;
use dynamic_loader_cache::{DataModel, Error};

fn word(value: u64, model: DataModel, byte_order: ByteOrder) -> Vec<u8> {
    match (model, byte_order) {
        (DataModel::ILP32, ByteOrder::Little) => (value as u32).to_le_bytes().to_vec(),
        (DataModel::ILP32, ByteOrder::Big) => (value as u32).to_be_bytes().to_vec(),
        (DataModel::LP64, ByteOrder::Little) => value.to_le_bytes().to_vec(),
        (DataModel::LP64, ByteOrder::Big) => value.to_be_bytes().to_vec(),
    }
}

fn int32(value: u32, byte_order: ByteOrder) -> [u8; 4] {
    match byte_order {
        ByteOrder::Little => value.to_le_bytes(),
        ByteOrder::Big => value.to_be_bytes(),
    }
}

fn width(model: DataModel) -> usize {
    match model {
        DataModel::ILP32 => 4,
        DataModel::LP64 => 8,
    }
}

/// The eight fields of a header.
fn header(model: DataModel, byte_order: ByteOrder, fields: [u64; 8]) -> Vec<u8> {
    let mut bytes = Vec::new();
    for field in fields {
        bytes.extend_from_slice(&word(field, model, byte_order));
    }
    bytes
}

/// A whole cache that holds the given libraries: header, buckets, strings.
fn cache_of(model: DataModel, byte_order: ByteOrder, libraries: &[(&str, &str)]) -> Vec<u8> {
    let hash_table = 8 * width(model);
    let string_table = hash_table + BUCKET_SIZE * libraries.len();
    let mut buckets = Vec::new();
    let mut strings = Vec::new();
    for (name, path) in libraries {
        buckets.extend_from_slice(&int32(strings.len() as u32, byte_order));
        strings.extend_from_slice(name.as_bytes());
        strings.push(0);
        buckets.extend_from_slice(&int32(strings.len() as u32, byte_order));
        strings.extend_from_slice(path.as_bytes());
        strings.push(0);
        // Version numbers, their count, and the next bucket.
        for filler in 0..10_u32 {
            buckets.extend_from_slice(&int32(0xffff_fff0 + filler, byte_order));
        }
    }
    let end = string_table + strings.len();
    let mut bytes = header(
        model,
        byte_order,
        [
            MAGIC,
            VERSION_2,
            hash_table as u64,
            libraries.len() as u64,
            string_table as u64,
            strings.len() as u64,
            end as u64,
            0,
        ],
    );
    bytes.extend_from_slice(&buckets);
    bytes.extend_from_slice(&strings);
    bytes
}

fn collect(cache: &Cache) -> Vec<Result<(Vec<u8>, Vec<u8>), Error>> {
    let mut iter = cache.iter().unwrap();
    let mut items = Vec::new();
    while let Some(item) = iter.next() {
        items.push(item.map(|e| (e.file_name.as_bytes().to_vec(), e.full_path.as_bytes().to_vec())));
    }
    items
}

fn print_cache(cache: &Cache) {
    let mut iter = cache.iter().unwrap();
    while let Some(e) = iter.next() {
        let e = e.unwrap();
        println!(
            "{} => {}",
            String::from_utf8_lossy(e.file_name.as_bytes()),
            String::from_utf8_lossy(e.full_path.as_bytes())
        );
    }
}

const LIBRARIES: [(&str, &str); 3] = [
    ("c", "/usr/lib/libc.so.96.1"),
    ("m", "/usr/lib/libm.so.10.1"),
    ("pthread", "/usr/lib/libpthread.so.26.1"),
];

const VARIANTS: [(DataModel, ByteOrder); 4] = [
    (DataModel::LP64, ByteOrder::Little),
    (DataModel::LP64, ByteOrder::Big),
    (DataModel::ILP32, ByteOrder::Little),
    (DataModel::ILP32, ByteOrder::Big),
];

#[test]
fn ld_so_hints_load() {
    let cache = Cache::load(
        "tests/ld.so.hints/ld.so.hints",
        cache_of(DataModel::LP64, ByteOrder::Little, &LIBRARIES),
    )
    .unwrap();
    print_cache(&cache);
}

#[test]
fn ld_so_hints_parse_byte_order_empty() {
    Cache::parse_byte_order(&[]).unwrap_err();
}

#[test]
fn ld_so_hints_variants_are_told_apart() {
    for (model, byte_order) in VARIANTS {
        let bytes = cache_of(model, byte_order, &LIBRARIES);
        assert_eq!(Cache::parse_byte_order(&bytes), Ok((model, byte_order)));
        assert_eq!(
            Cache::parse_byte_order(&bytes[..2 * width(model)]),
            Ok((model, byte_order))
        );
    }
    assert_eq!(
        Cache::parse_byte_order(&[0, 0, 0, 0, 0x4c, 0x44, 0x48, 0x69, 0, 0, 0, 0, 0, 0, 0, 2]),
        Ok((DataModel::LP64, ByteOrder::Big))
    );
}

#[test]
fn ld_so_hints_failure_is_that_of_the_last_variant() {
    assert_eq!(
        Cache::parse_byte_order(&[1, 2, 3, 4, 5, 6, 7, 8, 9, 10, 11, 12, 13, 14, 15, 16]),
        Err(ParseError { offset: 0, code: ErrorKind::Tag })
    );
    // Magic of the 32-bit big-endian variant, followed by another version.
    assert_eq!(
        Cache::parse_byte_order(&[0x4c, 0x44, 0x48, 0x69, 0, 0, 0, 1]),
        Err(ParseError { offset: 4, code: ErrorKind::Tag })
    );
    assert_eq!(
        Cache::parse_byte_order(&[0x4c, 0x44, 0x48, 0x69, 0, 0]),
        Err(ParseError { offset: 4, code: ErrorKind::Tag })
    );
    // Magic of the 32-bit little-endian variant: the last variant fails at its magic.
    assert_eq!(
        Cache::parse_byte_order(&[0x69, 0x48, 0x44, 0x4c, 1, 0, 0, 0]),
        Err(ParseError { offset: 0, code: ErrorKind::Tag })
    );
}

#[test]
fn ld_so_hints_other_versions_are_rejected() {
    for (model, byte_order) in VARIANTS {
        for version in [0_u64, 1, 3, 0x0200_0000, u32::MAX as u64] {
            let mut bytes = cache_of(model, byte_order, &LIBRARIES);
            let w = width(model);
            bytes[w..2 * w].copy_from_slice(&word(version, model, byte_order));
            assert!(Cache::parse_byte_order(&bytes).is_err());
            assert!(matches!(Cache::load("hints", bytes), Err(Error::Parse { .. })));
        }
    }
}

#[test]
fn ld_so_hints_parse_header_reports_the_first_missing_field() {
    for (model, byte_order) in VARIANTS {
        let w = width(model);
        let bytes = header(model, byte_order, [MAGIC, VERSION_2, 8 * w as u64, 0, 8 * w as u64, 0, 0, 0]);
        assert_eq!(
            Cache::parse_header(&bytes, model, byte_order),
            Ok((8 * w, 0, 8 * w, 0))
        );
        assert_eq!(
            Cache::parse_header(&bytes[..2 * w - 1], model, byte_order),
            Err(ParseError { offset: 0, code: ErrorKind::Eof })
        );
        for field in 2..8 {
            for len in field * w..(field + 1) * w {
                assert_eq!(
                    Cache::parse_header(&bytes[..len], model, byte_order),
                    Err(ParseError { offset: field * w, code: ErrorKind::Eof })
                );
            }
        }
    }
}

#[test]
fn ld_so_hints_parse_header_asks_for_the_greatest_end() {
    let model = DataModel::ILP32;
    let byte_order = ByteOrder::Little;
    let file = |fields: [u64; 6], len: usize| {
        let mut bytes = header(
            model,
            byte_order,
            [MAGIC, VERSION_2, fields[0], fields[1], fields[2], fields[3], fields[4], fields[5]],
        );
        bytes.resize(len, 0);
        bytes
    };
    // Hash table of 2 buckets at 32: ends at 128.
    assert_eq!(
        Cache::parse_header(&file([32, 2, 0, 0, 0, 0], 128), model, byte_order),
        Ok((32, 2, 0, 0))
    );
    assert_eq!(
        Cache::parse_header(&file([32, 2, 0, 0, 0, 0], 127), model, byte_order),
        Err(ParseError { offset: 0, code: ErrorKind::Eof })
    );
    // String table of 100 bytes at 40: ends at 140.
    assert_eq!(
        Cache::parse_header(&file([32, 2, 40, 100, 0, 0], 140), model, byte_order),
        Ok((32, 2, 40, 100))
    );
    assert_eq!(
        Cache::parse_header(&file([32, 2, 40, 100, 0, 0], 139), model, byte_order),
        Err(ParseError { offset: 0, code: ErrorKind::Eof })
    );
    // End of hints at 150.
    assert_eq!(
        Cache::parse_header(&file([32, 2, 40, 100, 150, 0], 150), model, byte_order),
        Ok((32, 2, 40, 100))
    );
    assert_eq!(
        Cache::parse_header(&file([32, 2, 40, 100, 150, 0], 149), model, byte_order),
        Err(ParseError { offset: 0, code: ErrorKind::Eof })
    );
    // The directory list is not looked at.
    assert_eq!(
        Cache::parse_header(&file([32, 0, 32, 0, 0, 0xffff_ffff], 32), model, byte_order),
        Ok((32, 0, 32, 0))
    );
}

#[test]
fn ld_so_hints_huge_fields_do_not_wrap() {
    let model = DataModel::LP64;
    let byte_order = ByteOrder::Big;
    let file = |fields: [u64; 6]| {
        let mut bytes = header(
            model,
            byte_order,
            [MAGIC, VERSION_2, fields[0], fields[1], fields[2], fields[3], fields[4], fields[5]],
        );
        bytes.resize(4096, 0);
        bytes
    };
    let max = usize::MAX as u64;
    for fields in [
        [64, max, 0, 0, 0, 0],
        [64, max / 48 + 1, 0, 0, 0, 0],
        [max, 1, 0, 0, 0, 0],
        [max - 47, 1, 0, 0, 0, 0],
        [0, 0, max, 1, 0, 0],
        [0, 0, max, max, 0, 0],
        [0, 0, 1, max, 0, 0],
        [0, 0, 0, 0, max, 0],
        [0, 0, 0, 0, 4097, 0],
        [4096, 1, 0, 0, 0, 0],
    ] {
        assert_eq!(
            Cache::parse_header(&file(fields), model, byte_order),
            Err(ParseError { offset: 0, code: ErrorKind::Eof })
        );
    }
    assert_eq!(
        Cache::parse_header(&file([4048, 1, 4000, 96, 4096, max]), model, byte_order),
        Ok((4048, 1, 4000, 96))
    );
}

#[test]
fn ld_so_hints_load_failures() {
    assert_eq!(
        Cache::load_default(Vec::new()).unwrap_err(),
        Error::FileIsEmpty { path: CACHE_FILE_PATH.to_string() }
    );
    assert_eq!(
        Cache::load_default(vec![0_u8; 64]).unwrap_err(),
        Error::Parse {
            path: "/var/run/ld.so.hints".to_string(),
            source: ParseError { offset: 0, code: ErrorKind::Tag }
        }
    );
    for (model, byte_order) in VARIANTS {
        let whole = cache_of(model, byte_order, &LIBRARIES);
        for len in 1..8 * width(model) {
            assert!(matches!(Cache::load("short", whole[..len].to_vec()), Err(Error::Parse { .. })));
        }
    }
}

#[test]
fn ld_so_hints_iter_gives_one_entry_for_each_bucket() {
    for (model, byte_order) in VARIANTS {
        let cache = Cache::load("hints", cache_of(model, byte_order, &LIBRARIES)).unwrap();
        assert_eq!(cache.iter().unwrap().size_hint(), (3, Some(3)));
        let items = collect(&cache);
        assert_eq!(items.len(), 3);
        for (item, (name, path)) in items.iter().zip(LIBRARIES.iter()) {
            assert_eq!(
                item.as_ref().unwrap(),
                &(name.as_bytes().to_vec(), path.as_bytes().to_vec())
            );
        }
        assert_eq!(collect(&cache), items);
    }
}

#[test]
fn ld_so_hints_offsets_are_bounded_by_the_string_table() {
    let model = DataModel::ILP32;
    let byte_order = ByteOrder::Little;
    let mut bytes = cache_of(model, byte_order, &LIBRARIES[..2]);
    let strings_len = (bytes.len() - 32 - 2 * 48) as u32;
    // The file goes on behind the string table.
    bytes.extend_from_slice(b"tail\0");
    // Path of the first bucket: one byte behind the end of the string table.
    bytes[32 + 4..32 + 8].copy_from_slice(&(strings_len + 1).to_le_bytes());
    // Name of the second bucket: at the end of the string table.
    bytes[32 + 48..32 + 48 + 4].copy_from_slice(&strings_len.to_le_bytes());
    let cache = Cache::load("hints", bytes).unwrap();
    assert_eq!(
        collect(&cache),
        vec![
            Err(Error::OffsetIsInvalid { path: "hints".to_string() }),
            Err(Error::FromBytesUntilNul),
        ]
    );
}

#[test]
fn ld_so_hints_iter_stops_for_good() {
    let cache = Cache::load("hints", cache_of(DataModel::ILP32, ByteOrder::Big, &LIBRARIES[..1])).unwrap();
    let mut iter = cache.entries_iter().unwrap();
    let entry = iter.next().unwrap().unwrap();
    assert!(!entry.file_name.is_owned());
    assert_eq!(entry.full_path.as_bytes(), b"/usr/lib/libc.so.96.1");
    assert!(iter.next().is_none());
    assert!(iter.next().is_none());
    assert_eq!(iter.size_hint(), (0, Some(0)));
}

#[test]
fn ld_so_hints_next_fallible_behind_the_last_bucket_is_a_parse_failure() {
    let cache = Cache::load("hints", cache_of(DataModel::LP64, ByteOrder::Big, &LIBRARIES[..1])).unwrap();
    let mut iter = cache.iter().unwrap();
    assert!(iter.next_fallible().is_ok());
    assert_eq!(
        iter.next_fallible().unwrap_err(),
        Error::Parse {
            path: "hints".to_string(),
            source: ParseError { offset: 0, code: ErrorKind::Eof }
        }
    );
    assert!(iter.next().is_none());
}
