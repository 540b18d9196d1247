use minidump_modules::bytes::read_bytes_at;
use minidump_modules::task_dumper::{
    decode_remote_string, dedup_images, parse_all_images_info, parse_image_info_array,
    read_window_bounds, string_read_bound, truncate_at_nul, ImageInfo, TaskDumpError,
    VMRegionInfo,
};

fn push_u32(v: &mut Vec<u8>, x: u32) {
    for b in x.to_le_bytes() {
        v.push(b);
    }
}

fn push_u64(v: &mut Vec<u8>, x: u64) {
    for b in x.to_le_bytes() {
        v.push(b);
    }
}

#[test]
fn window_bounds_aligned() {
    let (page, win) = read_window_bounds(0x2000, 0x1000, 0x1000);
    assert_eq!(page, 0x2000);
    assert_eq!(win, 0x1000);
}

#[test]
fn window_bounds_unaligned() {
    let (page, win) = read_window_bounds(5000, 100, 4096);
    assert_eq!(page, 4096);
    assert_eq!(win, 4096);
}

#[test]
fn window_bounds_straddling() {
    // A few bytes before a page boundary, spilling into the next page.
    let (page, win) = read_window_bounds(4094, 10, 4096);
    assert_eq!(page, 0);
    assert_eq!(win, 8192);
}

#[test]
fn page_straddling_read_matches_direct_read() {
    // Simulated task memory: two pages of a varying pattern.
    let page_size: u64 = 4096;
    let mem: Vec<u8> = (0..8192u64).map(|i| (i * 7 + 3) as u8).collect();
    let address: u64 = 4090;
    let length: u64 = 20;
    let (page, win) = read_window_bounds(address, length, page_size);
    assert_eq!(page, 0);
    assert_eq!(win, 8192);
    // The kernel hands back the whole page-aligned window; the copy out
    // of it must equal a direct unaligned read of the same bytes.
    let window = read_bytes_at(&mem, page as usize, win as usize);
    let copied = read_bytes_at(&window, (address - page) as usize, length as usize);
    let direct = &mem[address as usize..(address + length) as usize];
    assert_eq!(copied.as_slice(), direct);
}

#[test]
fn string_bound_contiguous_region_extends() {
    let region = VMRegionInfo { range_start: 0, range_end: 0x1000, protection: 3 };
    let next = VMRegionInfo { range_start: 0x1000, range_end: 0x2000, protection: 3 };
    let bound = string_read_bound(0xff0, &region, Some(next));
    assert_eq!(bound, 0x10 + 0x1000);
}

#[test]
fn string_bound_gap_confines_to_region() {
    let region = VMRegionInfo { range_start: 0, range_end: 0x1000, protection: 3 };
    let next = VMRegionInfo { range_start: 0x1800, range_end: 0x2000, protection: 3 };
    let bound = string_read_bound(0xff0, &region, Some(next));
    assert_eq!(bound, 0x10);
}

#[test]
fn string_bound_large_remainder_skips_probe() {
    let region = VMRegionInfo { range_start: 0, range_end: 0x3000, protection: 3 };
    let next = VMRegionInfo { range_start: 0x3000, range_end: 0x4000, protection: 3 };
    let bound = string_read_bound(0x1000, &region, Some(next));
    assert_eq!(bound, 0x2000);
}

#[test]
fn string_crossing_region_boundary() {
    // A string whose bytes span the region boundary at 0x1000: with a
    // contiguous next region the budget covers all of it.
    let region = VMRegionInfo { range_start: 0, range_end: 0x1000, protection: 3 };
    let next = VMRegionInfo { range_start: 0x1000, range_end: 0x2000, protection: 3 };
    let addr: u64 = 0xffc;
    let bound = string_read_bound(addr, &region, Some(next)) as usize;
    let mut mem = vec![0x41u8; 0x2000];
    let s = b"alpha/beta.dylib";
    for (i, &c) in s.iter().enumerate() {
        mem[addr as usize + i] = c;
    }
    mem[addr as usize + s.len()] = 0;
    let raw = read_bytes_at(&mem, addr as usize, bound);
    let decoded = decode_remote_string(&raw).unwrap();
    assert_eq!(decoded.as_slice(), s);
}

#[test]
fn string_at_gap_truncates_at_window_boundary() {
    // The string runs past the region's end, but the next region is
    // not contiguous: the budget stops at the boundary, and the read
    // yields only the in-region bytes, never foreign ones.
    let region = VMRegionInfo { range_start: 0, range_end: 0x1000, protection: 3 };
    let next = VMRegionInfo { range_start: 0x1800, range_end: 0x2000, protection: 3 };
    let addr: u64 = 0xffc;
    let bound = string_read_bound(addr, &region, Some(next)) as usize;
    assert_eq!(bound, 4);
    let mem: Vec<u8> = vec![0x42u8; 0x1000];
    let raw = read_bytes_at(&mem, addr as usize, bound);
    let decoded = decode_remote_string(&raw).unwrap();
    assert_eq!(decoded, vec![0x42u8; 4]);
}

#[test]
fn truncate_at_nul_cases() {
    assert_eq!(truncate_at_nul(&vec![]).len(), 0);
    assert_eq!(truncate_at_nul(&vec![0, 1, 2]).len(), 0);
    assert_eq!(truncate_at_nul(&vec![1, 2, 3]), vec![1, 2, 3]);
    assert_eq!(truncate_at_nul(&vec![7, 8, 0, 9]), vec![7, 8]);
}

#[test]
fn decode_remote_string_utf8() {
    let ok = decode_remote_string(&b"abc\0def".to_vec()).unwrap();
    assert_eq!(ok.as_slice(), b"abc");
    let bad = decode_remote_string(&vec![0xff, 0xfe, 0x41, 0]);
    assert!(matches!(bad, Err(TaskDumpError::TextDecodeFailure)));
}

#[test]
fn image_equality_is_by_load_address_alone() {
    let a = ImageInfo { load_address: 5, file_path: 1, file_mod_date: 10 };
    let b = ImageInfo { load_address: 5, file_path: 2, file_mod_date: 20 };
    let c = ImageInfo { load_address: 6, file_path: 1, file_mod_date: 10 };
    assert!(a == b);
    assert!(a != c);
    assert!(a.partial_cmp(&c) == Some(std::cmp::Ordering::Less));
    assert!(c.partial_cmp(&a) == Some(std::cmp::Ordering::Greater));
    assert!(a.partial_cmp(&b) == Some(std::cmp::Ordering::Equal));
}

#[test]
fn dedup_collapses_equal_addresses() {
    // Two descriptors with one load address and differing paths
    // collapse to one entry; the first listed survives.
    let images = vec![
        ImageInfo { load_address: 0x3000, file_path: 111, file_mod_date: 0 },
        ImageInfo { load_address: 0x1000, file_path: 222, file_mod_date: 0 },
        ImageInfo { load_address: 0x3000, file_path: 333, file_mod_date: 0 },
        ImageInfo { load_address: 0x2000, file_path: 444, file_mod_date: 0 },
    ];
    let r = dedup_images(&images);
    assert_eq!(r.len(), 3);
    assert_eq!(r[0].load_address, 0x1000);
    assert_eq!(r[1].load_address, 0x2000);
    assert_eq!(r[2].load_address, 0x3000);
    assert_eq!(r[2].file_path, 111);
}

#[test]
fn all_images_info_parses() {
    let mut b = Vec::new();
    push_u32(&mut b, 15);
    push_u32(&mut b, 3);
    push_u64(&mut b, 0x7fff_0000_1234);
    let info = parse_all_images_info(&b);
    assert_eq!(info.version, 15);
    assert_eq!(info.info_array_count, 3);
    assert_eq!(info.info_array_addr, 0x7fff_0000_1234);
}

#[test]
fn image_info_array_parses() {
    let mut b = Vec::new();
    push_u64(&mut b, 0x1000);
    push_u64(&mut b, 0x2000);
    push_u64(&mut b, 7);
    push_u64(&mut b, 0x9000);
    push_u64(&mut b, 0);
    push_u64(&mut b, 8);
    let imgs = parse_image_info_array(&b, 2);
    assert_eq!(imgs.len(), 2);
    assert_eq!(imgs[0].load_address, 0x1000);
    assert_eq!(imgs[0].file_path, 0x2000);
    assert_eq!(imgs[0].file_mod_date, 7);
    assert_eq!(imgs[1].load_address, 0x9000);
    assert_eq!(imgs[1].file_path, 0);
    assert_eq!(imgs[1].file_mod_date, 8);
}
