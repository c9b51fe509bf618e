use adb_hooks::symbols::{contains, find_mapped_library, named_func, Lib, MappedRegion, Strategy};

fn sample(x: u32) -> u32 {
    x + 1
}

fn put(out: &mut Vec<u8>, bytes: &[u8]) {
    out.extend_from_slice(bytes);
}

/// A minimal 64-bit little-endian shared object whose dynamic symbol table holds
/// `opendir` at 0x1100 and `close` at 0x2200.
fn tiny_elf() -> Vec<u8> {
    let total: u64 = 383;
    let mut b = Vec::new();
    put(&mut b, &[0x7f, b'E', b'L', b'F', 2, 1, 1, 0, 0, 0, 0, 0, 0, 0, 0, 0]);
    put(&mut b, &3u16.to_le_bytes());
    put(&mut b, &62u16.to_le_bytes());
    put(&mut b, &1u32.to_le_bytes());
    put(&mut b, &0u64.to_le_bytes());
    put(&mut b, &64u64.to_le_bytes());
    put(&mut b, &0u64.to_le_bytes());
    put(&mut b, &0u32.to_le_bytes());
    for v in [64u16, 56, 2, 64, 0, 0] {
        put(&mut b, &v.to_le_bytes());
    }
    assert_eq!(b.len(), 64);
    // PT_LOAD over the whole file, then PT_DYNAMIC
    for (kind, off, size) in [(1u32, 0u64, total), (2u32, 176u64, 96u64)] {
        put(&mut b, &kind.to_le_bytes());
        put(&mut b, &6u32.to_le_bytes());
        for v in [off, off, off, size, size, 8] {
            put(&mut b, &v.to_le_bytes());
        }
    }
    assert_eq!(b.len(), 176);
    // DT_HASH, DT_STRTAB, DT_SYMTAB, DT_STRSZ, DT_SYMENT, DT_NULL
    for (tag, val) in [(4u64, 272u64), (5, 368), (6, 296), (10, 15), (11, 24), (0, 0)] {
        put(&mut b, &tag.to_le_bytes());
        put(&mut b, &val.to_le_bytes());
    }
    assert_eq!(b.len(), 272);
    for v in [1u32, 3, 0, 0, 0, 0] {
        put(&mut b, &v.to_le_bytes());
    }
    assert_eq!(b.len(), 296);
    for (name, value) in [(0u32, 0u64), (1, 0x1100), (9, 0x2200)] {
        put(&mut b, &name.to_le_bytes());
        put(&mut b, &[0x12, 0]);
        put(&mut b, &1u16.to_le_bytes());
        put(&mut b, &value.to_le_bytes());
        put(&mut b, &0u64.to_le_bytes());
    }
    assert_eq!(b.len(), 368);
    put(&mut b, b"\0opendir\0close\0");
    assert_eq!(b.len() as u64, total);
    b
}

#[test]
fn table_lookup_in_parsed_library() {
    let lib = Lib::new("libc.so", 0x7000_0000, tiny_elf());
    let mut h = lib.handle();
    assert!(h.is_parsed());
    assert_eq!(h.table_symbol_address(b"opendir"), 0x7000_1100);
    assert_eq!(h.table_symbol_address(b"close"), 0x7000_2200);
    assert_eq!(h.table_symbol_address(b"open"), 0);
    let nf = named_func(sample as fn(u32) -> u32, "close");
    assert_eq!(h.sym_addr(&nf, 0x5555, 0x5555), Some(0x7000_2200));
    assert_eq!(h.strategy("close"), Strategy::StaticTableLookup);
    assert_eq!(h.sym_addr(&nf, 0x1234, 0x5555), Some(0x7000_2200));
}

#[test]
fn table_address_that_overflows_is_unusable() {
    let lib = Lib::new("libc.so", u64::MAX - 0x1000, tiny_elf());
    let h = lib.handle();
    assert_eq!(h.table_symbol_address(b"opendir"), 0);
}

fn garbage_lib() -> Lib {
    Lib::new("libc.so", 0x7000_0000, b"not an elf file".to_vec())
}

#[test]
fn named_func_keeps_name() {
    let nf = named_func(sample as fn(u32) -> u32, "opendir");
    assert_eq!(nf.name(), "opendir");
    assert_eq!(sample(1), 2);
}

#[test]
fn dynamic_lookup_that_differs_is_kept() {
    let lib = garbage_lib();
    let mut h = lib.handle();
    let nf = named_func(sample as fn(u32) -> u32, "opendir");
    assert_eq!(h.strategy("opendir"), Strategy::Undetermined);
    assert_eq!(h.sym_addr(&nf, 0x1234, 0x9999), Some(0x1234));
    assert_eq!(h.strategy("opendir"), Strategy::DynamicLookup);
    assert_eq!(h.sym_addr(&nf, 0x9999, 0x9999), Some(0x9999));
    assert_eq!(h.strategy("opendir"), Strategy::DynamicLookup);
}

#[test]
fn lookup_back_to_hook_switches_to_table_for_good() {
    let lib = garbage_lib();
    let mut h = lib.handle();
    let nf = named_func(sample as fn(u32) -> u32, "opendir");
    assert_eq!(h.sym_addr(&nf, 0x9999, 0x9999), None);
    assert_eq!(h.strategy("opendir"), Strategy::StaticTableLookup);
    assert!(!h.needs_dynamic_lookup("opendir"));
    for d in [0x1234u64, 0, 0x9999] {
        assert_eq!(h.sym_addr(&nf, d, 0x9999), None);
        assert_eq!(h.strategy("opendir"), Strategy::StaticTableLookup);
    }
}

#[test]
fn unparsable_file_has_no_symbols() {
    let lib = garbage_lib();
    assert_eq!(lib.size(), 15);
    assert_eq!(lib.filename(), "libc.so");
    let h = lib.handle();
    assert!(!h.is_parsed());
    assert_eq!(h.table_symbol_address(b"opendir"), 0);
}

#[test]
fn substring_search() {
    assert!(contains(b"/system/lib64/libc.so", b"/libc.so"));
    assert!(!contains(b"/system/lib64/libcx.s", b"/libc.so"));
    assert!(contains(b"abc", b""));
    assert!(!contains(b"ab", b"abc"));
    assert!(contains(b"aab", b"ab"));
}

#[test]
fn mapped_library_is_first_matching_region() {
    let maps = vec![
        MappedRegion { start: 0x1000, end: 0x2000, path: None },
        MappedRegion { start: 0x3000, end: 0x5000, path: Some(b"/system/lib64/libdl.so".to_vec()) },
        MappedRegion { start: 0x6000, end: 0x9000, path: Some(b"/apex/com.android.runtime/lib64/bionic/libc.so".to_vec()) },
        MappedRegion { start: 0xa000, end: 0xb000, path: Some(b"/apex/com.android.runtime/lib64/bionic/libc.so".to_vec()) },
    ];
    let lib = find_mapped_library(&maps, b"libc.so").unwrap();
    assert_eq!(lib.base, 0x6000);
    assert_eq!(lib.size, 0x3000);
    assert_eq!(lib.path, b"/apex/com.android.runtime/lib64/bionic/libc.so".to_vec());
    assert!(find_mapped_library(&maps, b"libm.so").is_none());
    assert!(find_mapped_library(&maps, b"bc.so").is_none());
}

#[test]
fn strategies_are_kept_per_symbol() {
    let lib = Lib::new("libc.so", 0x7000_0000, tiny_elf());
    let mut h = lib.handle();
    let close = named_func(sample as fn(u32) -> u32, "close");
    let opendir = named_func(sample as fn(u32) -> u32, "opendir");
    // dynamic lookup works for close
    assert_eq!(h.sym_addr(&close, 0x4444, 0x5555), Some(0x4444));
    assert_eq!(h.strategy("close"), Strategy::DynamicLookup);
    assert_eq!(h.strategy("opendir"), Strategy::Undetermined);
    // for opendir it leads back to the hook: opendir alone switches to the table
    assert_eq!(h.sym_addr(&opendir, 0x6666, 0x6666), Some(0x7000_1100));
    assert_eq!(h.strategy("opendir"), Strategy::StaticTableLookup);
    assert_eq!(h.strategy("close"), Strategy::DynamicLookup);
    assert!(h.needs_dynamic_lookup("close"));
    assert!(!h.needs_dynamic_lookup("opendir"));
    assert!(h.needs_dynamic_lookup("readdir"));
    assert_eq!(h.sym_addr(&close, 0x4445, 0x5555), Some(0x4445));
    assert_eq!(h.sym_addr(&opendir, 0x1, 0x6666), Some(0x7000_1100));
}
