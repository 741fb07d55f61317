use dynamic_loader_cache::errors::{ErrorKind, ParseError};
use dynamic_loader_cache::reader::ByteOrder;
use dynamic_loader_cache::{
    glibc_ld_so_cache_1dot1, ld_elf_so_hints, ld_so_1dot7, ld_so_hints, Cache, CacheFiles,
    CacheImpl, Entry, Error, HostOs, Step, CACHE_IMPL_COUNT,
};

fn native() -> ByteOrder {
    if u32::from_ne_bytes([1, 0, 0, 0]) == 1 {
        ByteOrder::Little
    } else {
        ByteOrder::Big
    }
}

/// A glibc 1.1 cache, little-endian, with one library.
fn glibc_file(name: &str, path: &str) -> Vec<u8> {
    let mut bytes = Vec::new();
    bytes.extend_from_slice(&glibc_ld_so_cache_1dot1::MAGIC);
    bytes.extend_from_slice(&1_u32.to_le_bytes());
    bytes.extend_from_slice(&((name.len() + path.len() + 2) as u32).to_le_bytes());
    bytes.push(2);
    bytes.extend_from_slice(&[0_u8; 19]);
    bytes.extend_from_slice(&0_u32.to_le_bytes());
    bytes.extend_from_slice(&72_u32.to_le_bytes());
    bytes.extend_from_slice(&((72 + name.len() + 1) as u32).to_le_bytes());
    bytes.extend_from_slice(&[0_u8; 12]);
    bytes.extend_from_slice(name.as_bytes());
    bytes.push(0);
    bytes.extend_from_slice(path.as_bytes());
    bytes.push(0);
    bytes
}

/// A cache of the old format, in the byte order of the host, with one library.
fn old_file(name: &str, path: &str) -> Vec<u8> {
    let mut bytes = Vec::new();
    bytes.extend_from_slice(&ld_so_1dot7::MAGIC);
    bytes.push(0);
    bytes.extend_from_slice(&1_u32.to_ne_bytes());
    bytes.extend_from_slice(&0_u32.to_ne_bytes());
    bytes.extend_from_slice(&0_u32.to_ne_bytes());
    bytes.extend_from_slice(&((name.len() + 1) as u32).to_ne_bytes());
    bytes.extend_from_slice(name.as_bytes());
    bytes.push(0);
    bytes.extend_from_slice(path.as_bytes());
    bytes.push(0);
    bytes
}

/// A FreeBSD hints file, little-endian, with the given directory list.
fn elf_hints_file(dir_list: &str) -> Vec<u8> {
    let mut bytes = Vec::new();
    bytes.extend_from_slice(&ld_elf_so_hints::MAGIC.to_le_bytes());
    bytes.extend_from_slice(&1_u32.to_le_bytes());
    bytes.extend_from_slice(&128_u32.to_le_bytes());
    bytes.extend_from_slice(&((dir_list.len() + 1) as u32).to_le_bytes());
    bytes.extend_from_slice(&0_u32.to_le_bytes());
    bytes.extend_from_slice(&(dir_list.len() as u32).to_le_bytes());
    bytes.extend_from_slice(&[0_u8; 104]);
    bytes.extend_from_slice(dir_list.as_bytes());
    bytes.push(0);
    bytes
}

/// An OpenBSD hints file, 32 bits, big-endian, with one library.
fn hints_file(name: &str, path: &str) -> Vec<u8> {
    let strings_len = name.len() + path.len() + 2;
    let mut bytes = Vec::new();
    for field in [
        ld_so_hints::MAGIC as u32,
        2,
        32,
        1,
        80,
        strings_len as u32,
        (80 + strings_len) as u32,
        0,
    ] {
        bytes.extend_from_slice(&field.to_be_bytes());
    }
    bytes.extend_from_slice(&0_u32.to_be_bytes());
    bytes.extend_from_slice(&((name.len() + 1) as u32).to_be_bytes());
    bytes.extend_from_slice(&[0_u8; 40]);
    bytes.extend_from_slice(name.as_bytes());
    bytes.push(0);
    bytes.extend_from_slice(path.as_bytes());
    bytes.push(0);
    bytes
}

fn all_files() -> CacheFiles {
    CacheFiles {
        glibc_ld_so_cache_1dot1: Some(glibc_file("libglibc.so", "/lib/libglibc.so")),
        ld_elf_so_hints: Some(elf_hints_file("/lib:/usr/lib")),
        ld_elf32_so_hints: Some(elf_hints_file("/usr/lib32")),
        ld_so_hints: Some(hints_file("hints", "/usr/lib/libhints.so.1.0")),
        ld_so_1dot7: Some(old_file("libold.so", "/lib/libold.so")),
    }
}

fn no_files() -> CacheFiles {
    CacheFiles {
        glibc_ld_so_cache_1dot1: None,
        ld_elf_so_hints: None,
        ld_elf32_so_hints: None,
        ld_so_hints: None,
        ld_so_1dot7: None,
    }
}

/// Each step as text: the name of the library, or the directory between brackets.
fn steps(cache: &Cache) -> Vec<String> {
    let mut iter = cache.iter().unwrap();
    let mut found = Vec::new();
    while let Some(step) = iter.next() {
        found.push(match step {
            Step::Entry(Ok(entry)) => String::from_utf8_lossy(entry.file_name.as_bytes()).into_owned(),
            Step::Entry(Err(error)) => format!("{:?}", error),
            Step::Directory(directory) => format!("[{}]", String::from_utf8_lossy(directory)),
        });
    }
    found
}

fn print_cache(cache: &Cache) {
    for step in steps(cache) {
        println!("{}", step);
    }
}

#[test]
fn lib_test1() {
    let cache = Cache::load(HostOs::Other, all_files()).unwrap();
    print_cache(&cache);
}

#[test]
fn aggregate_holds_at_most_five_caches() {
    assert_eq!(CACHE_IMPL_COUNT, 5);
    let cache = Cache::load(HostOs::Other, all_files()).unwrap();
    assert_eq!(steps(&cache).len(), 6);
}

#[test]
fn aggregate_tries_formats_in_the_order_of_the_system() {
    let cache = Cache::load(HostOs::Other, all_files()).unwrap();
    assert_eq!(
        steps(&cache),
        vec!["libglibc.so", "[/lib]", "[/usr/lib]", "[/usr/lib32]", "hints", "libold.so"]
    );
    let cache = Cache::load(HostOs::FreeBsd, all_files()).unwrap();
    assert_eq!(
        steps(&cache),
        vec!["[/lib]", "[/usr/lib]", "[/usr/lib32]", "hints", "libold.so", "libglibc.so"]
    );
    let cache = Cache::load(HostOs::OpenBsdOrNetBsd, all_files()).unwrap();
    assert_eq!(
        steps(&cache),
        vec!["hints", "[/lib]", "[/usr/lib]", "[/usr/lib32]", "libold.so", "libglibc.so"]
    );
}

#[test]
fn aggregate_passes_over_files_that_are_absent_or_do_not_load() {
    let cache = Cache::load(HostOs::Other, no_files()).unwrap();
    assert!(steps(&cache).is_empty());
    assert!(cache.iter().unwrap().next().is_none());

    let mut files = all_files();
    files.glibc_ld_so_cache_1dot1 = Some(old_file("libold.so", "/lib/libold.so"));
    files.ld_elf_so_hints = Some(Vec::new());
    files.ld_so_hints = None;
    files.ld_so_1dot7 = Some(glibc_file("libglibc.so", "/lib/libglibc.so"));
    let cache = Cache::load(HostOs::Other, files).unwrap();
    assert_eq!(steps(&cache), vec!["[/usr/lib32]"]);
}

#[test]
fn aggregate_reads_one_file_as_both_glibc_formats() {
    let mut files = no_files();
    files.glibc_ld_so_cache_1dot1 = Some(glibc_file("libc.so.6", "/lib/libc.so.6"));
    files.ld_so_1dot7 = Some(glibc_file("libc.so.6", "/lib/libc.so.6"));
    let cache = Cache::load(HostOs::Other, files).unwrap();
    assert_eq!(steps(&cache), vec!["libc.so.6"]);
}

#[test]
fn aggregate_reads_host_order_files_as_this_host() {
    let mut files = no_files();
    files.ld_so_1dot7 = Some(old_file("libold.so", "/lib/libold.so"));
    let cache = Cache::load(HostOs::FreeBsd, files).unwrap();
    assert_eq!(steps(&cache), vec!["libold.so"]);

    let mut files = no_files();
    files.ld_so_1dot7 = Some(old_file("libold.so", "/lib/libold.so"));
    let cache = Cache::load_as(HostOs::FreeBsd, files, native()).unwrap();
    assert_eq!(steps(&cache), vec!["libold.so"]);
}

#[test]
fn aggregate_iter_twice_gives_the_same_steps() {
    let cache = Cache::load(HostOs::OpenBsdOrNetBsd, all_files()).unwrap();
    assert_eq!(steps(&cache), steps(&cache));
}

#[test]
fn aggregate_iter_stops_for_good() {
    let mut files = no_files();
    files.ld_elf32_so_hints = Some(elf_hints_file("/a"));
    let cache = Cache::load(HostOs::Other, files).unwrap();
    let mut iter = cache.iter().unwrap();
    assert!(matches!(iter.next(), Some(Step::Directory(b"/a"))));
    assert!(iter.next().is_none());
    assert!(iter.next().is_none());
}

#[test]
fn aggregate_gives_failures_of_entries_as_steps() {
    let mut bytes = glibc_file("libc.so.6", "/lib/libc.so.6");
    bytes[52..56].copy_from_slice(&10_000_u32.to_le_bytes());
    let mut files = no_files();
    files.glibc_ld_so_cache_1dot1 = Some(bytes);
    files.ld_so_1dot7 = Some(old_file("libold.so", "/lib/libold.so"));
    let cache = Cache::load(HostOs::Other, files).unwrap();
    let mut iter = cache.iter().unwrap();
    match iter.next() {
        Some(Step::Entry(Err(error))) => {
            assert_eq!(error, Error::OffsetIsInvalid { path: "/etc/ld.so.cache".to_string() })
        }
        _ => panic!("the first step is the failure of the corrupt record"),
    }
    match iter.next() {
        Some(Step::Entry(Ok(entry))) => assert_eq!(entry.full_path.as_bytes(), b"/lib/libold.so"),
        _ => panic!("the second step is the entry of the second cache"),
    }
    assert!(iter.next().is_none());
}

#[test]
fn cache_impl_walks_whatever_its_format() {
    let cache = CacheImpl::LdSOHints(
        ld_so_hints::Cache::load("hints", hints_file("c", "/usr/lib/libc.so.96.1")).unwrap(),
    );
    let mut iter = cache.entries_iter().unwrap();
    match iter.next() {
        Some(Step::Entry(Ok(entry))) => assert_eq!(entry.file_name.as_bytes(), b"c"),
        _ => panic!("the only bucket gives an entry"),
    }
    assert!(iter.next().is_none());

    let cache =
        CacheImpl::LdELFSOHints(ld_elf_so_hints::Cache::load("hints", elf_hints_file("/x:/y")).unwrap());
    let mut iter = cache.entries_iter().unwrap();
    assert!(matches!(iter.next(), Some(Step::Directory(b"/x"))));
    assert!(matches!(iter.next(), Some(Step::Directory(b"/y"))));
    assert!(iter.next().is_none());
}

#[test]
fn owned_entries_own_their_text() {
    let entry = Entry::owned(b"libz.so".to_vec(), b"/usr/lib/libz.so".to_vec());
    assert!(entry.file_name.is_owned());
    assert!(entry.full_path.is_owned());
    assert_eq!(entry.file_name.as_bytes(), b"libz.so");
    assert_eq!(entry.full_path.as_bytes(), b"/usr/lib/libz.so");
}

#[test]
fn parse_failures_compare_by_offset_and_kind() {
    let failure = Error::from_parse(ParseError { offset: 7, code: ErrorKind::TooLarge }, "p");
    assert_eq!(
        failure,
        Error::Parse { path: "p".to_string(), source: ParseError { offset: 7, code: ErrorKind::TooLarge } }
    );
    assert_ne!(
        failure,
        Error::Parse { path: "p".to_string(), source: ParseError { offset: 7, code: ErrorKind::Eof } }
    );
}
