use famfs_rs::bitmap::Bitmap;
use famfs_rs::meta::{
    famfs_interleaved_ext, famfs_log, famfs_log_entry, famfs_log_file_meta, famfs_log_fmap,
    famfs_log_mkdir, famfs_simple_extent, Extent, LogEntry,
};
use famfs_rs::FamfsError;

const MIB: u64 = 1024 * 1024;
const GIB: u64 = 1024 * MIB;

fn file_entry(seq: u64, ext: Extent) -> famfs_log_entry {
    let fm = famfs_log_file_meta {
        fm_size: 0,
        fm_flags: 2,
        fm_uid: 0,
        fm_gid: 0,
        fm_mode: 0,
        fm_relpath: vec![0u8; 80],
        fm_fmap: famfs_log_fmap { ext },
    };
    let mut e = famfs_log_entry {
        famfs_log_entry_seqnum: seq,
        famfs_log_entry_log: LogEntry::File { file_meta: fm },
        famfs_log_entry_crc: 0,
    };
    e.regenerate_crc();
    e
}

fn simple(off: u64, len: u64) -> Extent {
    Extent::Simple {
        extents: vec![famfs_simple_extent {
            se_devindex: 0,
            se_offset: off,
            se_len: len,
        }],
    }
}

fn log_with(entries: Vec<famfs_log_entry>) -> famfs_log {
    let n = entries.len() as u64;
    famfs_log {
        famfs_log_magic: 0xbadcafef00d,
        famfs_log_len: 8 * MIB,
        famfs_log_last_index: 1000,
        famfs_log_crc: 0,
        famfs_log_next_seqnum: n,
        famfs_log_next_index: n,
        entries,
    }
}

fn bits(bm: &Bitmap) -> Vec<bool> {
    let mut v = Vec::new();
    for i in 0..bm.len() {
        v.push(bm.test(i));
    }
    v
}

#[test]
fn point_operations() {
    let mut bm = Bitmap::new(10, 1);
    assert_eq!(bm.len(), 10);
    assert_eq!(bm.alloc_unit(), 1);
    assert!(!bm.test(3));
    bm.set(3);
    assert!(bm.test(3));
    assert!(!bm.test_and_set(3));
    assert!(bm.test_and_set(4));
    assert!(bm.test(4));
    assert!(bm.test_and_clear(4));
    assert!(!bm.test(4));
    assert!(!bm.test_and_clear(4));
}

#[test]
fn set_extent_counts_overlaps_and_bytes() {
    let mut bm = Bitmap::new(100, 2 * MIB);
    let mut sum: u64 = 0;
    // 5 MiB from offset 4 MiB: bits [2, 5).
    let errs = bm.set_extent(4 * MIB, 5 * MIB, &mut sum);
    assert_eq!(errs, 0);
    assert_eq!(sum, 6 * MIB);
    assert!(!bm.test(1) && bm.test(2) && bm.test(3) && bm.test(4) && !bm.test(5));
    // Overlapping range [3, 7): bits 3 and 4 are already set.
    let errs2 = bm.set_extent(6 * MIB, 8 * MIB, &mut sum);
    assert_eq!(errs2, 2);
    assert_eq!(sum, 6 * MIB + 4 * MIB);
    assert!(bm.test(5) && bm.test(6) && !bm.test(7));
}

#[test]
fn insert_meta_files_reserves_prefix() {
    let mut bm = Bitmap::new(2048, 2 * MIB);
    let mut sum: u64 = 0;
    // Superblock (2 MiB) + log (8 MiB) = 10 MiB = 5 bits.
    let errs = bm.insert_meta_files(8 * MIB, &mut sum);
    assert_eq!(errs, 0);
    assert_eq!(sum, 10 * MIB);
    for i in 0..5 {
        assert!(bm.test(i));
    }
    assert!(!bm.test(5));
}

#[test]
fn build_bitmap_empty_log() {
    let log = famfs_log::new(8 * MIB, 1000);
    let (bm, errs) = Bitmap::build_bitmap(&log, 2 * MIB, 4 * GIB).unwrap();
    assert_eq!(bm.len(), 2048);
    assert_eq!(bm.alloc_unit(), 2 * MIB);
    assert_eq!(errs, 0);
    for i in 0..5 {
        assert!(bm.test(i));
    }
    for i in 5..2048 {
        assert!(!bm.test(i));
    }
}

#[test]
fn build_bitmap_replays_extents() {
    // Entry extents: bits [5, 8) and, interleaved, bits [10, 11) and [12, 14).
    let e1 = file_entry(0, simple(10 * MIB, 6 * MIB));
    let e2 = file_entry(
        1,
        Extent::Interleaved {
            groups: vec![famfs_interleaved_ext {
                ie_chunk_size: 2 * MIB,
                ie_strips: vec![
                    famfs_simple_extent {
                        se_devindex: 0,
                        se_offset: 20 * MIB,
                        se_len: 2 * MIB,
                    },
                    famfs_simple_extent {
                        se_devindex: 0,
                        se_offset: 24 * MIB,
                        se_len: 4 * MIB,
                    },
                ],
            }],
        },
    );
    let mut md = famfs_log_entry {
        famfs_log_entry_seqnum: 2,
        famfs_log_entry_log: LogEntry::MakeDir {
            dir_meta: famfs_log_mkdir {
                md_uid: 0,
                md_gid: 0,
                md_mode: 0,
                md_relpath: vec![0u8; 80],
            },
        },
        famfs_log_entry_crc: 0,
    };
    md.regenerate_crc();
    let log = log_with(vec![e1, e2, md]);
    let (bm, errs) = Bitmap::build_bitmap(&log, 2 * MIB, 64 * MIB).unwrap();
    assert_eq!(bm.len(), 32);
    assert_eq!(errs, 0);
    let expected: Vec<u64> = vec![0, 1, 2, 3, 4, 5, 6, 7, 10, 12, 13];
    for i in 0..32 {
        assert_eq!(bm.test(i), expected.contains(&i), "bit {}", i);
    }
}

#[test]
fn build_bitmap_counts_overlaps() {
    // Both entries cover bits [5, 8): the second marks three set bits again.
    let e1 = file_entry(0, simple(10 * MIB, 6 * MIB));
    let e2 = file_entry(1, simple(10 * MIB, 6 * MIB));
    let log = log_with(vec![e1, e2]);
    let (bm, errs) = Bitmap::build_bitmap(&log, 2 * MIB, 64 * MIB).unwrap();
    assert_eq!(errs, 3);
    assert!(bm.test(5) && bm.test(6) && bm.test(7) && !bm.test(8));
}

#[test]
fn build_bitmap_rejects_corrupt_entry() {
    let mut e1 = file_entry(0, simple(10 * MIB, 2 * MIB));
    e1.famfs_log_entry_crc ^= 1;
    let log = log_with(vec![e1]);
    assert!(matches!(
        Bitmap::build_bitmap(&log, 2 * MIB, 64 * MIB),
        Err(FamfsError::CorruptionDetected)
    ));
}

#[test]
fn build_bitmap_rejects_unsupported_entry() {
    let mut del = famfs_log_entry {
        famfs_log_entry_seqnum: 0,
        famfs_log_entry_log: LogEntry::Delete,
        famfs_log_entry_crc: 0,
    };
    del.regenerate_crc();
    let log = log_with(vec![del]);
    assert!(matches!(
        Bitmap::build_bitmap(&log, 2 * MIB, 64 * MIB),
        Err(FamfsError::UnsupportedEntry)
    ));
}

#[test]
fn build_bitmap_rejects_out_of_range_extent() {
    // Extent past a 64 MiB device.
    let e1 = file_entry(0, simple(62 * MIB, 6 * MIB));
    let log = log_with(vec![e1]);
    assert!(matches!(
        Bitmap::build_bitmap(&log, 2 * MIB, 64 * MIB),
        Err(FamfsError::FormatError)
    ));
}

#[test]
fn alloc_then_free_restores_bitmap() {
    let log = famfs_log::new(8 * MIB, 1000);
    let (mut bm, _) = Bitmap::build_bitmap(&log, 2 * MIB, 64 * MIB).unwrap();
    let before = bits(&bm);
    let mut cur: u64 = 0;
    let off = bm.alloc_contiguous(5 * MIB, &mut cur, 0).unwrap();
    assert_eq!(off, 10 * MIB);
    assert_eq!(cur, 16 * MIB);
    assert_ne!(bits(&bm), before);
    bm.free_contiguous(off, 5 * MIB);
    assert_eq!(bits(&bm), before);
}

#[test]
fn alloc_never_overlaps_and_exhausts() {
    // 64 MiB device, 2 MiB units: 32 bits, 5 reserved.
    let log = famfs_log::new(8 * MIB, 1000);
    let (mut bm, _) = Bitmap::build_bitmap(&log, 2 * MIB, 64 * MIB).unwrap();
    let mut cur: u64 = 0;
    let mut ranges: Vec<(u64, u64)> = Vec::new();
    loop {
        match bm.alloc_contiguous(6 * MIB, &mut cur, 0) {
            Some(off) => {
                for &(o, l) in &ranges {
                    assert!(off + 6 * MIB <= o || o + l <= off);
                }
                ranges.push((off, 6 * MIB));
            }
            None => break,
        }
    }
    // 27 free bits fit nine 3-unit allocations.
    assert_eq!(ranges.len(), 9);
    // Once exhausted, every further request of that size fails.
    assert_eq!(bm.alloc_contiguous(6 * MIB, &mut cur, 0), None);
    assert_eq!(bm.alloc_contiguous(6 * MIB, &mut cur, 0), None);
}

#[test]
fn alloc_skips_used_bits_first_fit() {
    let mut bm = Bitmap::new(16, 1);
    bm.set(0);
    bm.set(2);
    bm.set(3);
    let mut cur: u64 = 0;
    // First fit for 2 free bits: bit 1 is free but followed by 2 (set), so
    // the run starts at 4.
    let off = bm.alloc_contiguous(2, &mut cur, 0).unwrap();
    assert_eq!(off, 4);
    assert_eq!(cur, 6);
    // A single bit still fits at 1.
    let mut cur2: u64 = 0;
    assert_eq!(bm.alloc_contiguous(1, &mut cur2, 0), Some(1));
}

#[test]
fn alloc_respects_range_bound_without_wraparound() {
    let mut bm = Bitmap::new(16, 1);
    bm.set(0);
    let mut cur: u64 = 0;
    // Bound of 3 bytes from the cursor: bits [0, 3); first free bit is 1,
    // but a 4-bit run cannot fit before the bound.
    assert_eq!(bm.alloc_contiguous(4, &mut cur, 3), None);
    assert_eq!(cur, 0);
    // The same request against the whole bitmap succeeds.
    assert_eq!(bm.alloc_contiguous(4, &mut cur, 0), Some(1));
}

#[test]
fn free_contiguous_clears_range() {
    let mut bm = Bitmap::new(8, 4096);
    let mut sum: u64 = 0;
    bm.set_extent(0, 8 * 4096, &mut sum);
    bm.free_contiguous(2 * 4096, 3 * 4096);
    for i in 0..8 {
        assert_eq!(bm.test(i), !(2..5).contains(&i));
    }
}
