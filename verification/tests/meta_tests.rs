use famfs_rs::meta::{
    famfs_daxdev, famfs_log, famfs_log_entry, famfs_log_entry_type, famfs_log_file_meta,
    famfs_log_fmap, famfs_log_mkdir, famfs_simple_extent, famfs_superblock, famfs_system_role,
    Extent, LogEntry,
};
use famfs_rs::FamfsError;

fn valid_superblock(dev_size: u64) -> famfs_superblock {
    let mut sb = famfs_superblock {
        ts_magic: 0x87b282ff,
        ts_version: 47,
        ts_log_offset: 0x200000,
        ts_log_len: 0x800000,
        ts_alloc_unit: 0x200000,
        ts_omf_ver_major: 2,
        ts_omf_ver_minor: 1,
        ts_uuid: vec![1u8; 16],
        ts_dev_uuid: vec![2u8; 16],
        ts_system_uuid: vec![3u8; 16],
        ts_crc: 0,
        ts_pad: 0,
        ts_sb_flags: 0,
        ts_daxdev: famfs_daxdev {
            dd_size: dev_size,
            dd_uuid: vec![2u8; 16],
            daxdev: vec![0u8; 64],
        },
    };
    sb.regenerate_crc();
    sb
}

#[test]
fn superblock_valid_passes() {
    let sb = valid_superblock(4 * 1024 * 1024 * 1024);
    assert!(sb.check_superblock());
    assert_eq!(sb.daxdev_size(), 4 * 1024 * 1024 * 1024);
}

#[test]
fn superblock_bad_magic_fails() {
    let mut sb = valid_superblock(1 << 32);
    sb.ts_magic = 0x87b282fe;
    sb.regenerate_crc();
    assert!(!sb.check_superblock());
}

#[test]
fn superblock_bad_version_fails() {
    let mut sb = valid_superblock(1 << 32);
    sb.ts_version = 46;
    sb.regenerate_crc();
    assert!(!sb.check_superblock());
}

#[test]
fn superblock_bad_alloc_unit_fails() {
    let mut sb = valid_superblock(1 << 32);
    sb.ts_alloc_unit = 8192;
    sb.regenerate_crc();
    assert!(!sb.check_superblock());
}

#[test]
fn superblock_stale_crc_fails() {
    let mut sb = valid_superblock(1 << 32);
    sb.ts_log_len = 0x400000;
    // CRC not regenerated: stored CRC no longer matches the span.
    assert!(!sb.check_superblock());
}

#[test]
fn superblock_single_bit_flips_fail() {
    let mut sb = valid_superblock(1 << 32);
    assert!(sb.check_superblock());
    for bit in 0..64 {
        sb.ts_log_offset ^= 1u64 << bit;
        assert!(!sb.check_superblock());
        sb.ts_log_offset ^= 1u64 << bit;
        sb.ts_log_len ^= 1u64 << bit;
        assert!(!sb.check_superblock());
        sb.ts_log_len ^= 1u64 << bit;
        sb.ts_magic ^= 1u64 << bit;
        assert!(!sb.check_superblock());
        sb.ts_magic ^= 1u64 << bit;
        sb.ts_version ^= 1u64 << bit;
        assert!(!sb.check_superblock());
        sb.ts_version ^= 1u64 << bit;
        sb.ts_alloc_unit ^= 1u64 << bit;
        assert!(!sb.check_superblock());
        sb.ts_alloc_unit ^= 1u64 << bit;
    }
    for bit in 0..32 {
        sb.ts_omf_ver_major ^= 1u32 << bit;
        assert!(!sb.check_superblock());
        sb.ts_omf_ver_major ^= 1u32 << bit;
        sb.ts_omf_ver_minor ^= 1u32 << bit;
        assert!(!sb.check_superblock());
        sb.ts_omf_ver_minor ^= 1u32 << bit;
    }
    for byte in 0..16 {
        for bit in 0..8 {
            sb.ts_uuid[byte] ^= 1u8 << bit;
            assert!(!sb.check_superblock());
            sb.ts_uuid[byte] ^= 1u8 << bit;
            sb.ts_dev_uuid[byte] ^= 1u8 << bit;
            assert!(!sb.check_superblock());
            sb.ts_dev_uuid[byte] ^= 1u8 << bit;
            sb.ts_system_uuid[byte] ^= 1u8 << bit;
            assert!(!sb.check_superblock());
            sb.ts_system_uuid[byte] ^= 1u8 << bit;
        }
    }
    assert!(sb.check_superblock());
}

#[test]
fn get_role_is_master() {
    assert!(matches!(
        famfs_superblock::get_role(),
        famfs_system_role::FAMFS_MASTER
    ));
}

#[test]
fn delete_entry_crc_matches_crc32fast() {
    let mut e = famfs_log_entry {
        famfs_log_entry_seqnum: 7,
        famfs_log_entry_log: LogEntry::Delete,
        famfs_log_entry_crc: 0,
    };
    e.regenerate_crc();
    // Span: seqnum (8 bytes LE) then the type code 2 (4 bytes LE).
    let mut bytes: Vec<u8> = Vec::new();
    bytes.extend_from_slice(&7u64.to_le_bytes());
    bytes.extend_from_slice(&2u32.to_le_bytes());
    assert_eq!(e.generate_crc(), crc32fast::hash(&bytes));
    assert!(e.check_crc());
}

#[test]
fn mkdir_entry_crc_matches_crc32fast() {
    let md = famfs_log_mkdir {
        md_uid: 1000,
        md_gid: 100,
        md_mode: 0o755,
        md_relpath: vec![0u8; 80],
    };
    let mut e = famfs_log_entry {
        famfs_log_entry_seqnum: 3,
        famfs_log_entry_log: LogEntry::MakeDir { dir_meta: md },
        famfs_log_entry_crc: 0,
    };
    e.regenerate_crc();
    let mut bytes: Vec<u8> = Vec::new();
    bytes.extend_from_slice(&3u64.to_le_bytes());
    bytes.extend_from_slice(&1u32.to_le_bytes());
    bytes.extend_from_slice(&1000u32.to_le_bytes());
    bytes.extend_from_slice(&100u32.to_le_bytes());
    bytes.extend_from_slice(&0o755u32.to_le_bytes());
    bytes.extend_from_slice(&[0u8; 80]);
    assert_eq!(e.famfs_log_entry_crc, crc32fast::hash(&bytes));
}

#[test]
fn entry_crc_detects_mutation() {
    let mut e = famfs_log_entry {
        famfs_log_entry_seqnum: 9,
        famfs_log_entry_log: LogEntry::Delete,
        famfs_log_entry_crc: 0,
    };
    e.regenerate_crc();
    assert!(e.check_crc());
    e.famfs_log_entry_seqnum = 10;
    assert!(!e.check_crc());
    e.regenerate_crc();
    assert!(e.check_crc());
}

#[test]
fn entry_type_reports_kind() {
    let e = famfs_log_entry {
        famfs_log_entry_seqnum: 0,
        famfs_log_entry_log: LogEntry::Invalid,
        famfs_log_entry_crc: 0,
    };
    assert_eq!(e.entry_type(), famfs_log_entry_type::FAMFS_LOG_INVALID);
    assert_eq!(e.seqnum(), 0);
    assert!(matches!(e.get_entry_type(), LogEntry::Invalid));
}

#[test]
fn generate_simple_fmap_rounds_up() {
    let f = famfs_log_fmap::generate_simple_fmap(5 * 1024 * 1024, 0xA00000);
    match &f.ext {
        Extent::Simple { extents } => {
            assert_eq!(extents.len(), 1);
            assert_eq!(extents[0].se_devindex, 0);
            assert_eq!(extents[0].se_offset, 0xA00000);
            assert_eq!(extents[0].se_len, 6 * 1024 * 1024);
        }
        _ => panic!("expected a simple map"),
    }
}

#[test]
fn log_new_and_checks() {
    let log = famfs_log::new(0x800000, 100);
    assert!(log.check_log());
    assert_eq!(log.byte_len(), 0x800000);
    assert_eq!(log.len(), 0);
    assert_eq!(log.max_size(), 100);
    assert!(!log.log_full());
    let bad = famfs_log {
        famfs_log_magic: 0,
        ..famfs_log::new(0x800000, 100)
    };
    assert!(!bad.check_log());
}

#[test]
fn log_file_create_appends_entry() {
    let mut log = famfs_log::new(0x800000, 100);
    let fmap = famfs_log_fmap::generate_simple_fmap(0x200000, 0x1400000);
    let path: Vec<u8> = b"dir/file".to_vec();
    let r = log.log_file_create(fmap, &path, 0o644, 42, 43, 0x200000);
    assert!(r.is_ok());
    assert_eq!(log.len(), 1);
    assert_eq!(log.famfs_log_next_seqnum, 1);
    let e = log.get_entry_ref(0);
    assert_eq!(e.seqnum(), 0);
    assert!(e.check_crc());
    assert_eq!(e.entry_type(), famfs_log_entry_type::FAMFS_LOG_FILE);
    match e.get_entry_type() {
        LogEntry::File { file_meta } => {
            assert_eq!(file_meta.fm_size, 0x200000);
            assert_eq!(file_meta.fm_uid, 42);
            assert_eq!(file_meta.fm_gid, 43);
            assert_eq!(file_meta.fm_mode, 0o644);
            assert_eq!(file_meta.fm_flags, famfs_rs::FAMFS_FM_ALL_HOSTS_RW);
            let rp = file_meta.relpath();
            assert_eq!(rp.len(), 80);
            assert_eq!(&rp[..8], b"dir/file");
            assert!(rp[8..].iter().all(|&b| b == 0));
            match file_meta.get_extent() {
                Extent::Simple { extents } => {
                    assert_eq!(extents[0].se_offset, 0x1400000);
                    assert_eq!(extents[0].se_len, 0x200000);
                }
                _ => panic!("expected a simple extent"),
            }
        }
        _ => panic!("expected a File entry"),
    }
}

#[test]
fn log_file_create_full_log() {
    // last_index 0: one slot; the second create must report a full log.
    let mut log = famfs_log::new(0x800000, 0);
    let path: Vec<u8> = b"a".to_vec();
    let f1 = famfs_log_fmap::generate_simple_fmap(1, 0);
    assert!(log.log_file_create(f1, &path, 0, 0, 0, 1).is_ok());
    assert!(log.log_full());
    let f2 = famfs_log_fmap::generate_simple_fmap(1, 0x200000);
    assert_eq!(
        log.log_file_create(f2, &path, 0, 0, 0, 1),
        Err(FamfsError::LogFull)
    );
    assert_eq!(log.len(), 1);
}

#[test]
fn log_file_create_path_too_long() {
    let mut log = famfs_log::new(0x800000, 100);
    let path: Vec<u8> = vec![b'x'; 81];
    let f = famfs_log_fmap::generate_simple_fmap(1, 0);
    assert_eq!(
        log.log_file_create(f, &path, 0, 0, 0, 1),
        Err(FamfsError::PathTooLong)
    );
    assert_eq!(log.len(), 0);
}

#[test]
fn mkdir_relpath_returns_buffer() {
    let md = famfs_log_mkdir {
        md_uid: 0,
        md_gid: 0,
        md_mode: 0,
        md_relpath: vec![7u8; 80],
    };
    assert_eq!(md.relpath().len(), 80);
    assert_eq!(md.relpath()[0], 7);
}

#[test]
fn file_entry_crc_covers_extents() {
    // Two entries that differ only in an extent offset must carry
    // different CRCs: the span covers the embedded extent map.
    let mk = |off: u64| {
        let fm = famfs_log_file_meta {
            fm_size: 4096,
            fm_flags: 2,
            fm_uid: 0,
            fm_gid: 0,
            fm_mode: 0,
            fm_relpath: vec![0u8; 80],
            fm_fmap: famfs_log_fmap {
                ext: Extent::Simple {
                    extents: vec![famfs_simple_extent {
                        se_devindex: 0,
                        se_offset: off,
                        se_len: 4096,
                    }],
                },
            },
        };
        let mut e = famfs_log_entry {
            famfs_log_entry_seqnum: 1,
            famfs_log_entry_log: LogEntry::File { file_meta: fm },
            famfs_log_entry_crc: 0,
        };
        e.regenerate_crc();
        e
    };
    let a = mk(0x200000);
    let b = mk(0x400000);
    assert_ne!(a.famfs_log_entry_crc, b.famfs_log_entry_crc);
    assert!(a.check_crc() && b.check_crc());
}
