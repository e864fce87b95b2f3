use famfs_rs::meta::{
    famfs_daxdev, famfs_log, famfs_log_file_meta, famfs_log_fmap, famfs_simple_extent,
    famfs_superblock, famfs_system_role, Extent, LogEntry,
};
use famfs_rs::session::{famfs_locked_log, FamfsFile};
use famfs_rs::FamfsError;

const MIB: u64 = 1024 * 1024;
const GIB: u64 = 1024 * MIB;

fn superblock(dev_size: u64) -> famfs_superblock {
    let mut sb = famfs_superblock {
        ts_magic: 0x87b282ff,
        ts_version: 47,
        ts_log_offset: 2 * MIB,
        ts_log_len: 8 * MIB,
        ts_alloc_unit: 2 * MIB,
        ts_omf_ver_major: 2,
        ts_omf_ver_minor: 1,
        ts_uuid: vec![1u8; 16],
        ts_dev_uuid: vec![2u8; 16],
        ts_system_uuid: vec![3u8; 16],
        ts_crc: 0,
        ts_pad: 0,
        ts_sb_flags: 0,
        ts_daxdev: famfs_daxdev {
            dd_size: dev_size,
            dd_uuid: vec![2u8; 16],
            daxdev: vec![0u8; 64],
        },
    };
    sb.regenerate_crc();
    sb
}

fn open_session(dev_size: u64, log_len: u64) -> famfs_locked_log {
    let log = famfs_log::new(log_len, 1000);
    famfs_locked_log::from_log(log, &superblock(dev_size))
}

#[test]
fn from_log_initial_state() {
    let ll = open_session(4 * GIB, 8 * MIB);
    assert_eq!(ll.devsize, 4 * GIB);
    assert_eq!(ll.alloc_unit, 2 * MIB);
    assert_eq!(ll.cur_pos, 0);
    assert!(!ll.bitmap_loaded);
    assert!(matches!(ll.famfs_type, famfs_system_role::FAMFS_MASTER));
}

#[test]
fn scenario_four_gib_device() {
    // Device 4 GiB, allocation unit 2 MiB: 2048 bits; superblock (2 MiB)
    // plus log (8 MiB) reserve the first 5 bits.  Allocating 5 MiB rounds
    // up to 3 units (6 MiB): bits [5, 8), byte offset 10 MiB, cursor at
    // 8 * 2 MiB.
    let mut ll = open_session(4 * GIB, 8 * MIB);
    let path: Vec<u8> = b"b.c".to_vec();
    ll.make_file(&path, 0o644, 0, 0, 5 * MIB).unwrap();
    assert_eq!(ll.cur_pos, 16 * MIB);
    assert_eq!(ll.nbits, 2048);
    let f = ll.get_file(&path).unwrap();
    assert_eq!(f.offset, 10 * MIB);
    assert_eq!(f.len, 5 * MIB);
    assert_eq!(f.cur, 0);
    // The appended entry records the rounded extent.
    let e = ll.log.get_entry_ref(0);
    match e.get_entry_type() {
        LogEntry::File { file_meta } => match file_meta.get_extent() {
            Extent::Simple { extents } => {
                assert_eq!(extents[0].se_offset, 10 * MIB);
                assert_eq!(extents[0].se_len, 6 * MIB);
            }
            _ => panic!("expected a simple extent"),
        },
        _ => panic!("expected a File entry"),
    }
    let s = ll.print_bitmap().unwrap();
    assert_eq!(s.len(), 2048);
    assert!(s[..8].chars().all(|c| c == '1'));
    assert!(s[8..].chars().all(|c| c == '0'));
}

#[test]
fn get_file_never_created_is_not_found() {
    let mut ll = open_session(4 * GIB, 8 * MIB);
    let path: Vec<u8> = b"exists".to_vec();
    ll.make_file(&path, 0o644, 0, 0, 2 * MIB).unwrap();
    let other: Vec<u8> = b"missing".to_vec();
    assert!(ll.get_file(&other).is_none());
}

#[test]
fn make_then_get_matches_allocation() {
    // An exact multiple of the allocation unit: the view's length equals
    // the requested size and its base is the allocated offset.
    let mut ll = open_session(64 * MIB, 8 * MIB);
    let path: Vec<u8> = b"data".to_vec();
    ll.make_file(&path, 0o600, 1, 2, 4 * MIB).unwrap();
    let f = ll.get_file(&path).unwrap();
    assert_eq!(f.len, 4 * MIB);
    assert_eq!(f.offset, 10 * MIB);
}

#[test]
fn first_matching_entry_wins() {
    let mut ll = open_session(64 * MIB, 8 * MIB);
    let path: Vec<u8> = b"same".to_vec();
    ll.make_file(&path, 0o644, 0, 0, 2 * MIB).unwrap();
    ll.make_file(&path, 0o644, 0, 0, 2 * MIB).unwrap();
    // Two entries exist; the earlier allocation resolves.
    assert_eq!(ll.log.len(), 2);
    let f = ll.get_file(&path).unwrap();
    assert_eq!(f.offset, 10 * MIB);
}

#[test]
fn path_comparison_is_length_bounded_prefix() {
    let mut ll = open_session(64 * MIB, 8 * MIB);
    let stored: Vec<u8> = b"b.cd".to_vec();
    ll.make_file(&stored, 0o644, 0, 0, 2 * MIB).unwrap();
    // A query that is a prefix of the stored path matches.
    let query: Vec<u8> = b"b.c".to_vec();
    assert!(ll.get_file(&query).is_some());
    // A longer query does not match the stored path.
    let longer: Vec<u8> = b"b.cde".to_vec();
    assert!(ll.get_file(&longer).is_none());
}

#[test]
fn make_file_path_too_long() {
    let mut ll = open_session(64 * MIB, 8 * MIB);
    let path: Vec<u8> = vec![b'p'; 81];
    assert_eq!(
        ll.make_file(&path, 0, 0, 0, 2 * MIB),
        Err(FamfsError::PathTooLong)
    );
    assert_eq!(ll.log.len(), 0);
    // 80 bytes still fit.
    let ok: Vec<u8> = vec![b'p'; 80];
    assert!(ll.make_file(&ok, 0, 0, 0, 2 * MIB).is_ok());
}

#[test]
fn make_file_log_full() {
    let log = famfs_log::new(8 * MIB, 0);
    let mut ll = famfs_locked_log::from_log(log, &superblock(64 * MIB));
    let p1: Vec<u8> = b"one".to_vec();
    ll.make_file(&p1, 0, 0, 0, 2 * MIB).unwrap();
    let p2: Vec<u8> = b"two".to_vec();
    assert_eq!(ll.make_file(&p2, 0, 0, 0, 2 * MIB), Err(FamfsError::LogFull));
    assert_eq!(ll.log.len(), 1);
    // The failed call must not leak its allocation: the next success uses
    // the bits right after the first file.
    assert_eq!(ll.cur_pos, 12 * MIB);
}

#[test]
fn make_file_allocation_exhausted() {
    // 16 MiB device: 8 bits, 5 reserved, 3 free.
    let mut ll = open_session(16 * MIB, 8 * MIB);
    let p1: Vec<u8> = b"fits".to_vec();
    ll.make_file(&p1, 0, 0, 0, 4 * MIB).unwrap();
    // One free bit remains; two units cannot fit, now or later.
    let p2: Vec<u8> = b"big".to_vec();
    assert_eq!(
        ll.make_file(&p2, 0, 0, 0, 4 * MIB),
        Err(FamfsError::AllocationExhausted)
    );
    assert_eq!(
        ll.make_file(&p2, 0, 0, 0, 4 * MIB),
        Err(FamfsError::AllocationExhausted)
    );
    assert_eq!(ll.log.len(), 1);
}

#[test]
fn make_file_surfaces_corrupt_log() {
    let mut ll = open_session(64 * MIB, 8 * MIB);
    let p: Vec<u8> = b"x".to_vec();
    ll.make_file(&p, 0, 0, 0, 2 * MIB).unwrap();
    // Corrupt the stored entry, then force a fresh session so the replay
    // sees it.
    let mut log2 = ll.log;
    log2.entries[0].famfs_log_entry_crc ^= 1;
    let mut ll2 = famfs_locked_log::from_log(log2, &superblock(64 * MIB));
    let q: Vec<u8> = b"y".to_vec();
    assert_eq!(
        ll2.make_file(&q, 0, 0, 0, 2 * MIB),
        Err(FamfsError::CorruptionDetected)
    );
}

#[test]
fn load_bitmap_reports_overlap_errors() {
    let mut ll = open_session(64 * MIB, 8 * MIB);
    let p: Vec<u8> = b"x".to_vec();
    ll.make_file(&p, 0, 0, 0, 4 * MIB).unwrap();
    // Duplicate the entry so its extent replays twice: 2 overlap errors.
    let mut log2 = ll.log;
    let mut dup = famfs_log_entry_clone(&log2.entries[0]);
    dup.regenerate_crc();
    log2.entries.push(dup);
    log2.famfs_log_next_index += 1;
    log2.famfs_log_next_seqnum += 1;
    let mut ll2 = famfs_locked_log::from_log(log2, &superblock(64 * MIB));
    ll2.load_bitmap().unwrap();
    assert_eq!(ll2.overlap_errors, 2);
}

// Rebuild a File entry with the same contents (the library's types carry
// no Clone; tests reassemble by hand).
fn famfs_log_entry_clone(e: &famfs_rs::meta::famfs_log_entry) -> famfs_rs::meta::famfs_log_entry {
    match e.get_entry_type() {
        LogEntry::File { file_meta } => {
            let ext = match file_meta.get_extent() {
                Extent::Simple { extents } => Extent::Simple {
                    extents: extents
                        .iter()
                        .map(|x| famfs_simple_extent {
                            se_devindex: x.se_devindex,
                            se_offset: x.se_offset,
                            se_len: x.se_len,
                        })
                        .collect(),
                },
                _ => panic!("only simple extents are rebuilt here"),
            };
            famfs_rs::meta::famfs_log_entry {
                famfs_log_entry_seqnum: e.seqnum() + 1,
                famfs_log_entry_log: LogEntry::File {
                    file_meta: famfs_log_file_meta {
                        fm_size: file_meta.fm_size,
                        fm_flags: file_meta.fm_flags,
                        fm_uid: file_meta.fm_uid,
                        fm_gid: file_meta.fm_gid,
                        fm_mode: file_meta.fm_mode,
                        fm_relpath: file_meta.relpath().clone(),
                        fm_fmap: famfs_log_fmap { ext },
                    },
                },
                famfs_log_entry_crc: e.famfs_log_entry_crc,
            }
        }
        _ => panic!("expected a File entry"),
    }
}

#[test]
fn duplicated_entry_needs_fresh_crc() {
    let mut ll = open_session(64 * MIB, 8 * MIB);
    let p: Vec<u8> = b"x".to_vec();
    ll.make_file(&p, 0, 0, 0, 4 * MIB).unwrap();
    let mut dup = famfs_log_entry_clone(&ll.log.entries[0]);
    // The rebuilt entry carries a different sequence number, so the copied
    // CRC cannot hold.
    assert!(!dup.check_crc());
    dup.regenerate_crc();
    assert!(dup.check_crc());
}

#[test]
fn interleaved_entry_resolves_as_not_found() {
    let mut ll = open_session(64 * MIB, 8 * MIB);
    let mut e = famfs_rs::meta::famfs_log_entry {
        famfs_log_entry_seqnum: 0,
        famfs_log_entry_log: LogEntry::File {
            file_meta: famfs_log_file_meta {
                fm_size: 2 * MIB,
                fm_flags: 2,
                fm_uid: 0,
                fm_gid: 0,
                fm_mode: 0,
                fm_relpath: {
                    let mut v = b"striped".to_vec();
                    v.resize(80, 0);
                    v
                },
                fm_fmap: famfs_log_fmap {
                    ext: Extent::Interleaved { groups: vec![] },
                },
            },
        },
        famfs_log_entry_crc: 0,
    };
    e.regenerate_crc();
    ll.log.entries.push(e);
    ll.log.famfs_log_next_index += 1;
    ll.log.famfs_log_next_seqnum += 1;
    let q: Vec<u8> = b"striped".to_vec();
    assert!(ll.get_file(&q).is_none());
}

#[test]
fn famfs_file_sequential_read() {
    let mut f = FamfsFile {
        offset: 100,
        len: 10,
        cur: 0,
    };
    assert_eq!(f.read(4), Some((100, 4)));
    assert_eq!(f.cur, 4);
    assert_eq!(f.read(100), Some((104, 6)));
    assert_eq!(f.cur, 10);
    // At the end: reads return empty ranges rather than growing the view.
    assert_eq!(f.read(1), Some((110, 0)));
    // A cursor pushed past the view fails.
    f.cur = 11;
    assert_eq!(f.read(1), None);
}

#[test]
fn famfs_file_write_advances_cursor() {
    let mut f = FamfsFile {
        offset: 50,
        len: 8,
        cur: 3,
    };
    assert_eq!(f.write(100), Some((53, 5)));
    assert_eq!(f.cur, 8);
    // At the end: writes return empty ranges rather than growing the view.
    assert_eq!(f.write(2), Some((58, 0)));
    assert_eq!(f.cur, 8);
    // A cursor pushed past the view fails.
    f.cur = 9;
    assert_eq!(f.write(1), None);
    assert_eq!(f.cur, 9);
}

#[test]
fn zero_byte_file_has_empty_view() {
    let mut ll = open_session(64 * MIB, 8 * MIB);
    let p: Vec<u8> = b"empty".to_vec();
    ll.make_file(&p, 0, 0, 0, 0).unwrap();
    let mut f = ll.get_file(&p).unwrap();
    assert_eq!(f.len, 0);
    assert_eq!(f.read(10), Some((f.offset, 0)));
}
