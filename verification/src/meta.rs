//! On-media metadata model: superblock, log header, log entries and extent
//! maps, with an explicit, bounds-checked little-endian encoding for every
//! CRC-covered span.  The mapped device is treated as untrusted binary data;
//! nothing here reinterprets raw bytes in place.
use crate::crc::{crc32, crc32_of};
use crate::FamfsError;
use vstd::bytes::{spec_u32_to_le_bytes, spec_u64_to_le_bytes, u32_to_le_bytes, u64_to_le_bytes};
use vstd::prelude::*;

verus! {

/// Append the little-endian encoding of `x` to `out`.
fn push_u64_le(out: &mut Vec<u8>, x: u64)
    ensures
        final(out)@ == old(out)@ + spec_u64_to_le_bytes(x),
{
    let mut b = u64_to_le_bytes(x);
    out.append(&mut b);
}

/// Append the little-endian encoding of `x` to `out`.
fn push_u32_le(out: &mut Vec<u8>, x: u32)
    ensures
        final(out)@ == old(out)@ + spec_u32_to_le_bytes(x),
{
    let mut b = u32_to_le_bytes(x);
    out.append(&mut b);
}

/// Append a copy of `src` to `out`.
#[verifier::loop_isolation(false)]
fn push_bytes(out: &mut Vec<u8>, src: &Vec<u8>)
    ensures
        final(out)@ == old(out)@ + src@,
{
    let n: usize = src.len();
    let mut i: usize = 0;
    while i < n
        invariant
            i <= n,
            out@ == old(out)@ + src@.subrange(0, i as int),
        decreases n - i,
    {
        out.push(src[i]);
        proof {
            assert(out@ =~= old(out)@ + src@.subrange(0, i + 1));
        }
        i = i + 1;
    }
    proof {
        assert(out@ =~= old(out)@ + src@);
    }
}

/// A sequence of `n` zero bytes.
pub open spec fn zero_bytes(n: int) -> Seq<u8> {
    Seq::new(n as nat, |i: int| 0u8)
}

/// Device descriptor stored in the superblock: byte size, identifier and
/// name of the backing memory device.
pub struct famfs_daxdev {
    pub dd_size: u64,
    pub dd_uuid: Vec<u8>,
    pub daxdev: Vec<u8>,
}

impl famfs_daxdev {
    /// Well-formed: identifier and name buffers have their fixed sizes.
    pub open spec fn wf(&self) -> bool {
        &&& self.dd_uuid@.len() == 16
        &&& self.daxdev@.len() == crate::FAMFS_DEVNAME_LEN
    }
}

/// Host roles; the master formats the device, clients only read metadata.
/// No cross-host exclusion is implemented here: any coordination must be
/// supplied externally.
pub enum famfs_system_role {
    FAMFS_MASTER,
    FAMFS_CLIENT,
    FAMFS_NOSUPER,
}

/// Fixed-size device header at device offset 0.  Written once at format
/// time by an external tool; validated on every open; never mutated here.
pub struct famfs_superblock {
    pub ts_magic: u64,
    pub ts_version: u64,
    pub ts_log_offset: u64,
    pub ts_log_len: u64,
    pub ts_alloc_unit: u64,
    pub ts_omf_ver_major: u32,
    pub ts_omf_ver_minor: u32,
    pub ts_uuid: Vec<u8>,
    pub ts_dev_uuid: Vec<u8>,
    pub ts_system_uuid: Vec<u8>,
    pub ts_crc: u32,
    pub ts_pad: u32,
    pub ts_sb_flags: u32,
    pub ts_daxdev: famfs_daxdev,
}

/// The CRC-covered span of a superblock: every field from the magic through
/// the three identifiers, in media order, excluding the CRC itself and the
/// trailing padding, flags and device descriptor.
pub open spec fn sb_crc_span(sb: famfs_superblock) -> Seq<u8> {
    spec_u64_to_le_bytes(sb.ts_magic) + spec_u64_to_le_bytes(sb.ts_version)
        + spec_u64_to_le_bytes(sb.ts_log_offset) + spec_u64_to_le_bytes(sb.ts_log_len)
        + spec_u64_to_le_bytes(sb.ts_alloc_unit) + spec_u32_to_le_bytes(sb.ts_omf_ver_major)
        + spec_u32_to_le_bytes(sb.ts_omf_ver_minor) + sb.ts_uuid@ + sb.ts_dev_uuid@
        + sb.ts_system_uuid@
}

/// A superblock is valid when the magic and version are the expected
/// constants, the stored CRC matches the CRC-covered span, and the
/// allocation unit is one of the two supported sizes.
pub open spec fn sb_valid(sb: famfs_superblock) -> bool {
    &&& sb.ts_magic == crate::FAMFS_SUPER_MAGIC
    &&& sb.ts_version == crate::FAMFS_CURRENT_VERSION
    &&& sb.ts_crc == crc32_of(sb_crc_span(sb))
    &&& (sb.ts_alloc_unit == 4096 || sb.ts_alloc_unit == 0x200000)
}

impl famfs_superblock {
    /// Well-formed: the identifier buffers have their fixed sizes.
    pub open spec fn wf(&self) -> bool {
        &&& self.ts_uuid@.len() == 16
        &&& self.ts_dev_uuid@.len() == 16
        &&& self.ts_system_uuid@.len() == 16
        &&& self.ts_daxdev.wf()
    }

    /// This core always acts as the master host; role detection against the
    /// system identifier is left to the surrounding program.
    pub fn get_role() -> (r: famfs_system_role)
        ensures
            r is FAMFS_MASTER,
    {
        famfs_system_role::FAMFS_MASTER
    }

    /// The encoded CRC-covered span of this superblock.
    fn crc_span_bytes(&self) -> (out: Vec<u8>)
        requires
            self.wf(),
        ensures
            out@ == sb_crc_span(*self),
    {
        let mut out: Vec<u8> = Vec::new();
        push_u64_le(&mut out, self.ts_magic);
        push_u64_le(&mut out, self.ts_version);
        push_u64_le(&mut out, self.ts_log_offset);
        push_u64_le(&mut out, self.ts_log_len);
        push_u64_le(&mut out, self.ts_alloc_unit);
        push_u32_le(&mut out, self.ts_omf_ver_major);
        push_u32_le(&mut out, self.ts_omf_ver_minor);
        push_bytes(&mut out, &self.ts_uuid);
        push_bytes(&mut out, &self.ts_dev_uuid);
        push_bytes(&mut out, &self.ts_system_uuid);
        proof {
            assert(out@ =~= sb_crc_span(*self));
        }
        out
    }

    /// CRC32 over the CRC-covered span.
    pub fn generate_crc(&self) -> (r: u32)
        requires
            self.wf(),
        ensures
            r == crc32_of(sb_crc_span(*self)),
    {
        let span = self.crc_span_bytes();
        crc32(span.as_slice())
    }

    /// Recompute and store the CRC; every other field is unchanged.
    pub fn regenerate_crc(&mut self)
        requires
            old(self).wf(),
        ensures
            final(self).ts_crc == crc32_of(sb_crc_span(*old(self))),
            *final(self) == (famfs_superblock { ts_crc: final(self).ts_crc, ..*old(self) }),
            sb_crc_span(*final(self)) == sb_crc_span(*old(self)),
    {
        self.ts_crc = self.generate_crc();
    }

    /// Validate the superblock: magic, version, CRC and allocation unit, in
    /// that order, short-circuiting on the first failure.
    pub fn check_superblock(&self) -> (r: bool)
        requires
            self.wf(),
        ensures
            r == sb_valid(*self),
    {
        if self.ts_magic != crate::FAMFS_SUPER_MAGIC {
            return false;
        }
        if self.ts_version != crate::FAMFS_CURRENT_VERSION {
            return false;
        }
        if self.ts_crc != self.generate_crc() {
            return false;
        }
        if self.ts_alloc_unit != 4096 && self.ts_alloc_unit != 0x200000 {
            return false;
        }
        true
    }

    /// Byte size of the backing device.
    pub fn daxdev_size(&self) -> (r: u64)
        ensures
            r == self.ts_daxdev.dd_size,
    {
        self.ts_daxdev.dd_size
    }
}

/// One contiguous byte range on the device.  The device index must be 0
/// until multi-device support exists.
#[derive(Clone, Copy, PartialEq, Eq, Structural, Debug)]
pub struct famfs_simple_extent {
    pub se_devindex: u64,
    pub se_offset: u64,
    pub se_len: u64,
}

/// One stripe group of an interleaved map: up to 16 strips plus the chunk
/// size used to interleave data across them.
pub struct famfs_interleaved_ext {
    pub ie_chunk_size: u64,
    pub ie_strips: Vec<famfs_simple_extent>,
}

/// Owned extent map: either a flat list of simple extents or a striped,
/// interleaved group of strips.
pub enum Extent {
    Simple { extents: Vec<famfs_simple_extent> },
    Interleaved { groups: Vec<famfs_interleaved_ext> },
}

/// Extent map embedded in a File entry.
pub struct famfs_log_fmap {
    pub ext: Extent,
}

/// Media encoding of one simple extent.
pub open spec fn simple_extent_bytes(e: famfs_simple_extent) -> Seq<u8> {
    spec_u64_to_le_bytes(e.se_devindex) + spec_u64_to_le_bytes(e.se_offset) + spec_u64_to_le_bytes(
        e.se_len,
    )
}

/// Media encoding of a list of simple extents, in order.
pub open spec fn simple_extents_bytes(s: Seq<famfs_simple_extent>) -> Seq<u8>
    decreases s.len(),
{
    if s.len() == 0 {
        Seq::empty()
    } else {
        simple_extents_bytes(s.drop_last()) + simple_extent_bytes(s.last())
    }
}

/// Media encoding of one stripe group: strip count, chunk size, strips.
pub open spec fn interleaved_ext_bytes(g: famfs_interleaved_ext) -> Seq<u8> {
    spec_u64_to_le_bytes(g.ie_strips@.len() as u64) + spec_u64_to_le_bytes(g.ie_chunk_size)
        + simple_extents_bytes(g.ie_strips@)
}

/// Media encoding of a list of stripe groups, in order.
pub open spec fn interleaved_exts_bytes(s: Seq<famfs_interleaved_ext>) -> Seq<u8>
    decreases s.len(),
{
    if s.len() == 0 {
        Seq::empty()
    } else {
        interleaved_exts_bytes(s.drop_last()) + interleaved_ext_bytes(s.last())
    }
}

/// Media encoding of an extent map: a type tag, the element count, then the
/// elements.
pub open spec fn fmap_bytes(f: famfs_log_fmap) -> Seq<u8> {
    match f.ext {
        Extent::Simple { extents } => spec_u32_to_le_bytes(0) + spec_u32_to_le_bytes(
            extents@.len() as u32,
        ) + simple_extents_bytes(extents@),
        Extent::Interleaved { groups } => spec_u32_to_le_bytes(1) + spec_u32_to_le_bytes(
            groups@.len() as u32,
        ) + interleaved_exts_bytes(groups@),
    }
}

impl famfs_log_fmap {
    /// Well-formed: within the fixed per-map extent counts.
    pub open spec fn wf(&self) -> bool {
        match self.ext {
            Extent::Simple { extents } => extents@.len() <= crate::FAMFS_MAX_SIMPLE_EXTENTS,
            Extent::Interleaved { groups } => {
                &&& groups@.len() <= crate::FAMFS_MAX_INTERLEAVED_EXTENTS
                &&& (forall|i: int|
                    0 <= i < groups@.len() ==> (#[trigger] groups@[i]).ie_strips@.len()
                        <= crate::FAMFS_MAX_SIMPLE_EXTENTS)
            },
        }
    }

    /// A one-extent simple map for `size` bytes at byte `offset`, with the
    /// length rounded up to the allocation unit.
    pub fn generate_simple_fmap(size: u64, offset: u64) -> (r: famfs_log_fmap)
        requires
            crate::bitmap::units_for(size, crate::FAMFS_ALLOC_UNIT) * crate::FAMFS_ALLOC_UNIT
                <= u64::MAX,
        ensures
            r.wf(),
            r.ext matches Extent::Simple { extents } && extents@.len() == 1 && extents@[0] == (
            famfs_simple_extent {
                se_devindex: 0,
                se_offset: offset,
                se_len: (crate::bitmap::units_for(size, crate::FAMFS_ALLOC_UNIT)
                    * crate::FAMFS_ALLOC_UNIT) as u64,
            }),
    {
        let au: u64 = crate::FAMFS_ALLOC_UNIT;
        let units: u64 = if size == 0 {
            0
        } else {
            (size - 1) / au + 1
        };
        let rounded: u64 = units * au;
        let mut extents: Vec<famfs_simple_extent> = Vec::new();
        extents.push(famfs_simple_extent { se_devindex: 0, se_offset: offset, se_len: rounded });
        famfs_log_fmap { ext: Extent::Simple { extents } }
    }
}

/// Append the media encoding of each extent of `xs` to `out`.
#[verifier::loop_isolation(false)]
fn push_simple_extents(out: &mut Vec<u8>, xs: &Vec<famfs_simple_extent>)
    ensures
        final(out)@ == old(out)@ + simple_extents_bytes(xs@),
{
    let n: usize = xs.len();
    let mut i: usize = 0;
    while i < n
        invariant
            i <= n,
            out@ == old(out)@ + simple_extents_bytes(xs@.subrange(0, i as int)),
        decreases n - i,
    {
        let e = xs[i];
        push_u64_le(out, e.se_devindex);
        push_u64_le(out, e.se_offset);
        push_u64_le(out, e.se_len);
        proof {
            assert(xs@.subrange(0, i + 1).drop_last() =~= xs@.subrange(0, i as int));
            assert(xs@.subrange(0, i + 1).last() == xs@[i as int]);
            assert(out@ =~= old(out)@ + simple_extents_bytes(xs@.subrange(0, i + 1)));
        }
        i = i + 1;
    }
    proof {
        assert(xs@.subrange(0, n as int) =~= xs@);
    }
}

/// Append the media encoding of each stripe group of `gs` to `out`.
#[verifier::loop_isolation(false)]
fn push_interleaved_exts(out: &mut Vec<u8>, gs: &Vec<famfs_interleaved_ext>)
    ensures
        final(out)@ == old(out)@ + interleaved_exts_bytes(gs@),
{
    let n: usize = gs.len();
    let mut i: usize = 0;
    while i < n
        invariant
            i <= n,
            out@ == old(out)@ + interleaved_exts_bytes(gs@.subrange(0, i as int)),
        decreases n - i,
    {
        let g: &famfs_interleaved_ext = &gs[i];
        push_u64_le(out, g.ie_strips.len() as u64);
        push_u64_le(out, g.ie_chunk_size);
        push_simple_extents(out, &g.ie_strips);
        proof {
            assert(gs@.subrange(0, i + 1).drop_last() =~= gs@.subrange(0, i as int));
            assert(gs@.subrange(0, i + 1).last() == gs@[i as int]);
            assert(out@ =~= old(out)@ + interleaved_exts_bytes(gs@.subrange(0, i + 1)));
        }
        i = i + 1;
    }
    proof {
        assert(gs@.subrange(0, n as int) =~= gs@);
    }
}

/// Append the media encoding of `f` to `out`.
fn push_fmap(out: &mut Vec<u8>, f: &famfs_log_fmap)
    requires
        f.wf(),
    ensures
        final(out)@ == old(out)@ + fmap_bytes(*f),
{
    match &f.ext {
        Extent::Simple { extents } => {
            push_u32_le(out, 0);
            push_u32_le(out, extents.len() as u32);
            push_simple_extents(out, extents);
        },
        Extent::Interleaved { groups } => {
            push_u32_le(out, 1);
            push_u32_le(out, groups.len() as u32);
            push_interleaved_exts(out, groups);
        },
    }
    proof {
        assert(out@ =~= old(out)@ + fmap_bytes(*f));
    }
}

/// Kind of a log entry.
#[derive(Clone, Copy, PartialEq, Eq, Structural, Debug)]
pub enum famfs_log_entry_type {
    FAMFS_LOG_FILE,
    FAMFS_LOG_MKDIR,
    FAMFS_LOG_DELETE,
    FAMFS_LOG_INVALID,
}

/// Media type code of an entry kind.
pub open spec fn entry_type_code(t: famfs_log_entry_type) -> u32 {
    match t {
        famfs_log_entry_type::FAMFS_LOG_FILE => 0,
        famfs_log_entry_type::FAMFS_LOG_MKDIR => 1,
        famfs_log_entry_type::FAMFS_LOG_DELETE => 2,
        famfs_log_entry_type::FAMFS_LOG_INVALID => 3,
    }
}

/// Payload of a MakeDir entry.
pub struct famfs_log_mkdir {
    pub md_uid: u32,
    pub md_gid: u32,
    pub md_mode: u32,
    pub md_relpath: Vec<u8>,
}

impl famfs_log_mkdir {
    /// Well-formed: the path buffer has its fixed size.
    pub open spec fn wf(&self) -> bool {
        self.md_relpath@.len() == crate::FAMFS_MAX_PATHLEN
    }

    /// The stored, null-padded relative path buffer.
    pub fn relpath(&self) -> (r: &Vec<u8>)
        ensures
            r@ == self.md_relpath@,
    {
        &self.md_relpath
    }
}

/// Payload of a File entry: ownership, mode, the fixed null-padded relative
/// path, and the embedded extent map.
pub struct famfs_log_file_meta {
    pub fm_size: u64,
    pub fm_flags: u32,
    pub fm_uid: u32,
    pub fm_gid: u32,
    pub fm_mode: u32,
    pub fm_relpath: Vec<u8>,
    pub fm_fmap: famfs_log_fmap,
}

impl famfs_log_file_meta {
    /// Well-formed: fixed path buffer and a well-formed extent map.
    pub open spec fn wf(&self) -> bool {
        &&& self.fm_relpath@.len() == crate::FAMFS_MAX_PATHLEN
        &&& self.fm_fmap.wf()
    }

    /// The stored, null-padded relative path buffer.
    pub fn relpath(&self) -> (r: &Vec<u8>)
        ensures
            r@ == self.fm_relpath@,
    {
        &self.fm_relpath
    }

    /// The extent map of this file.
    pub fn get_extent(&self) -> (r: &Extent)
        ensures
            *r == self.fm_fmap.ext,
    {
        &self.fm_fmap.ext
    }
}

/// Owned payload of a log entry, decoded once at parse time.
pub enum LogEntry {
    File { file_meta: famfs_log_file_meta },
    MakeDir { dir_meta: famfs_log_mkdir },
    Delete,
    Invalid,
}

/// Media encoding of an entry payload.
pub open spec fn payload_bytes(p: LogEntry) -> Seq<u8> {
    match p {
        LogEntry::File { file_meta } => spec_u64_to_le_bytes(file_meta.fm_size)
            + spec_u32_to_le_bytes(file_meta.fm_flags) + spec_u32_to_le_bytes(file_meta.fm_uid)
            + spec_u32_to_le_bytes(file_meta.fm_gid) + spec_u32_to_le_bytes(file_meta.fm_mode)
            + file_meta.fm_relpath@ + fmap_bytes(file_meta.fm_fmap),
        LogEntry::MakeDir { dir_meta } => spec_u32_to_le_bytes(dir_meta.md_uid)
            + spec_u32_to_le_bytes(dir_meta.md_gid) + spec_u32_to_le_bytes(dir_meta.md_mode)
            + dir_meta.md_relpath@,
        LogEntry::Delete => Seq::empty(),
        LogEntry::Invalid => Seq::empty(),
    }
}

/// One durable log record, self-validating through its own CRC.
pub struct famfs_log_entry {
    pub famfs_log_entry_seqnum: u64,
    pub famfs_log_entry_log: LogEntry,
    pub famfs_log_entry_crc: u32,
}

/// Kind of an entry payload.
pub open spec fn spec_entry_type(e: famfs_log_entry) -> famfs_log_entry_type {
    match e.famfs_log_entry_log {
        LogEntry::File { .. } => famfs_log_entry_type::FAMFS_LOG_FILE,
        LogEntry::MakeDir { .. } => famfs_log_entry_type::FAMFS_LOG_MKDIR,
        LogEntry::Delete => famfs_log_entry_type::FAMFS_LOG_DELETE,
        LogEntry::Invalid => famfs_log_entry_type::FAMFS_LOG_INVALID,
    }
}

/// The CRC-covered span of an entry: the whole encoded entry minus the CRC
/// field itself, so each entry self-validates independent of its neighbours.
pub open spec fn entry_crc_span(e: famfs_log_entry) -> Seq<u8> {
    spec_u64_to_le_bytes(e.famfs_log_entry_seqnum) + spec_u32_to_le_bytes(
        entry_type_code(spec_entry_type(e)),
    ) + payload_bytes(e.famfs_log_entry_log)
}

/// An entry's stored CRC matches its CRC-covered span.
pub open spec fn entry_crc_ok(e: famfs_log_entry) -> bool {
    e.famfs_log_entry_crc == crc32_of(entry_crc_span(e))
}

impl famfs_log_entry {
    /// Well-formed: the payload's buffers have their fixed sizes.
    pub open spec fn wf(&self) -> bool {
        match self.famfs_log_entry_log {
            LogEntry::File { file_meta } => file_meta.wf(),
            LogEntry::MakeDir { dir_meta } => dir_meta.wf(),
            LogEntry::Delete => true,
            LogEntry::Invalid => true,
        }
    }

    /// Sequence number stamped at append time.
    pub fn seqnum(&self) -> (r: u64)
        ensures
            r == self.famfs_log_entry_seqnum,
    {
        self.famfs_log_entry_seqnum
    }

    /// Kind of this entry.
    pub fn entry_type(&self) -> (r: famfs_log_entry_type)
        ensures
            r == spec_entry_type(*self),
    {
        match &self.famfs_log_entry_log {
            LogEntry::File { .. } => famfs_log_entry_type::FAMFS_LOG_FILE,
            LogEntry::MakeDir { .. } => famfs_log_entry_type::FAMFS_LOG_MKDIR,
            LogEntry::Delete => famfs_log_entry_type::FAMFS_LOG_DELETE,
            LogEntry::Invalid => famfs_log_entry_type::FAMFS_LOG_INVALID,
        }
    }

    /// The decoded payload of this entry.
    pub fn get_entry_type(&self) -> (r: &LogEntry)
        ensures
            *r == self.famfs_log_entry_log,
    {
        &self.famfs_log_entry_log
    }

    /// The encoded CRC-covered span of this entry.
    fn crc_span_bytes(&self) -> (out: Vec<u8>)
        requires
            self.wf(),
        ensures
            out@ == entry_crc_span(*self),
    {
        let mut out: Vec<u8> = Vec::new();
        push_u64_le(&mut out, self.famfs_log_entry_seqnum);
        match &self.famfs_log_entry_log {
            LogEntry::File { file_meta } => {
                push_u32_le(&mut out, 0);
                push_u64_le(&mut out, file_meta.fm_size);
                push_u32_le(&mut out, file_meta.fm_flags);
                push_u32_le(&mut out, file_meta.fm_uid);
                push_u32_le(&mut out, file_meta.fm_gid);
                push_u32_le(&mut out, file_meta.fm_mode);
                push_bytes(&mut out, &file_meta.fm_relpath);
                push_fmap(&mut out, &file_meta.fm_fmap);
            },
            LogEntry::MakeDir { dir_meta } => {
                push_u32_le(&mut out, 1);
                push_u32_le(&mut out, dir_meta.md_uid);
                push_u32_le(&mut out, dir_meta.md_gid);
                push_u32_le(&mut out, dir_meta.md_mode);
                push_bytes(&mut out, &dir_meta.md_relpath);
            },
            LogEntry::Delete => {
                push_u32_le(&mut out, 2);
            },
            LogEntry::Invalid => {
                push_u32_le(&mut out, 3);
            },
        }
        proof {
            assert(out@ =~= entry_crc_span(*self));
        }
        out
    }

    /// CRC32 over this entry's CRC-covered span.
    pub fn generate_crc(&self) -> (r: u32)
        requires
            self.wf(),
        ensures
            r == crc32_of(entry_crc_span(*self)),
    {
        let span = self.crc_span_bytes();
        crc32(span.as_slice())
    }

    /// Recompute and store this entry's CRC; everything else is unchanged.
    pub fn regenerate_crc(&mut self)
        requires
            old(self).wf(),
        ensures
            final(self).famfs_log_entry_seqnum == old(self).famfs_log_entry_seqnum,
            final(self).famfs_log_entry_log == old(self).famfs_log_entry_log,
            entry_crc_ok(*final(self)),
    {
        self.famfs_log_entry_crc = self.generate_crc();
    }

    /// Whether the stored CRC matches the entry's CRC-covered span.
    pub fn check_crc(&self) -> (r: bool)
        requires
            self.wf(),
        ensures
            r == entry_crc_ok(*self),
    {
        let c = self.generate_crc();
        self.famfs_log_entry_crc == c
    }
}

/// Log header followed by its dense, append-only array of entries.
/// Entries are immutable once appended; there is no compaction and no
/// truncation.
pub struct famfs_log {
    pub famfs_log_magic: u64,
    pub famfs_log_len: u64,
    pub famfs_log_last_index: u64,
    pub famfs_log_crc: u32,
    pub famfs_log_next_seqnum: u64,
    pub famfs_log_next_index: u64,
    pub entries: Vec<famfs_log_entry>,
}

impl famfs_log {
    /// Well-formed: entries `[0, next_index)` exist and carry strictly
    /// increasing sequence numbers below the next one to be issued.
    pub open spec fn wf(&self) -> bool {
        &&& self.entries@.len() == self.famfs_log_next_index
        &&& self.famfs_log_next_index <= self.famfs_log_last_index + 1
        &&& self.famfs_log_last_index < u64::MAX
        &&& (forall|i: int| 0 <= i < self.entries@.len() ==> (#[trigger] self.entries@[i]).wf())
        &&& (forall|i: int|
            0 <= i < self.entries@.len() ==> (#[trigger] self.entries@[i]).famfs_log_entry_seqnum
                < self.famfs_log_next_seqnum)
        &&& (forall|i: int|
            0 <= i && i + 1 < self.entries@.len() ==> (
            #[trigger] self.entries@[i]).famfs_log_entry_seqnum
                < self.entries@[i + 1].famfs_log_entry_seqnum)
    }

    /// The log is full: no free entry slot remains.
    pub open spec fn spec_log_full(&self) -> bool {
        self.famfs_log_next_index > self.famfs_log_last_index
    }

    /// An empty log with the given byte length and last usable entry index,
    /// as the external format tool would initialize it.
    pub fn new(log_len: u64, last_index: u64) -> (r: famfs_log)
        requires
            last_index < u64::MAX,
        ensures
            r.wf(),
            r.famfs_log_magic == crate::FAMFS_LOG_MAGIC,
            r.famfs_log_len == log_len,
            r.famfs_log_last_index == last_index,
            r.famfs_log_next_seqnum == 0,
            r.famfs_log_next_index == 0,
            r.entries@.len() == 0,
    {
        famfs_log {
            famfs_log_magic: crate::FAMFS_LOG_MAGIC,
            famfs_log_len: log_len,
            famfs_log_last_index: last_index,
            famfs_log_crc: 0,
            famfs_log_next_seqnum: 0,
            famfs_log_next_index: 0,
            entries: Vec::new(),
        }
    }

    /// Magic-only validity check of the log header.
    pub fn check_log(&self) -> (r: bool)
        ensures
            r == (self.famfs_log_magic == crate::FAMFS_LOG_MAGIC),
    {
        self.famfs_log_magic == crate::FAMFS_LOG_MAGIC
    }

    /// Entry at index `i`.
    pub fn get_entry_ref(&self, i: usize) -> (r: &famfs_log_entry)
        requires
            i < self.entries@.len(),
        ensures
            *r == self.entries@[i as int],
    {
        &self.entries[i]
    }

    /// Byte length of the log region.
    pub fn byte_len(&self) -> (r: u64)
        ensures
            r == self.famfs_log_len,
    {
        self.famfs_log_len
    }

    /// Number of valid entries.
    pub fn len(&self) -> (r: u64)
        ensures
            r == self.famfs_log_next_index,
    {
        self.famfs_log_next_index
    }

    /// Last usable entry index.
    pub fn max_size(&self) -> (r: u64)
        ensures
            r == self.famfs_log_last_index,
    {
        self.famfs_log_last_index
    }

    /// Whether the log is full.
    pub fn log_full(&self) -> (r: bool)
        ensures
            r == self.spec_log_full(),
    {
        self.famfs_log_next_index > self.famfs_log_last_index
    }

    /// Append `entry`, stamped with the next sequence number, at the next
    /// free index.  The caller must hold whatever external exclusion the
    /// deployment requires: this assumes a single writer.
    pub fn append_entry(&mut self, entry: famfs_log_entry)
        requires
            old(self).wf(),
            entry.wf(),
            !old(self).spec_log_full(),
            old(self).famfs_log_next_seqnum < u64::MAX,
        ensures
            final(self).wf(),
            final(self).entries@.len() == old(self).entries@.len() + 1,
            final(self).entries@.drop_last() == old(self).entries@,
            ({
                let e = final(self).entries@.last();
                &&& e.famfs_log_entry_seqnum == old(self).famfs_log_next_seqnum
                &&& e.famfs_log_entry_log == entry.famfs_log_entry_log
                &&& e.famfs_log_entry_crc == entry.famfs_log_entry_crc
            }),
            final(self).famfs_log_next_index == old(self).famfs_log_next_index + 1,
            final(self).famfs_log_next_seqnum == old(self).famfs_log_next_seqnum + 1,
            final(self).famfs_log_magic == old(self).famfs_log_magic,
            final(self).famfs_log_len == old(self).famfs_log_len,
            final(self).famfs_log_last_index == old(self).famfs_log_last_index,
            final(self).famfs_log_crc == old(self).famfs_log_crc,
    {
        let mut e = entry;
        e.famfs_log_entry_seqnum = self.famfs_log_next_seqnum;
        self.entries.push(e);
        self.famfs_log_next_index = self.famfs_log_next_index + 1;
        self.famfs_log_next_seqnum = self.famfs_log_next_seqnum + 1;
        proof {
            assert(self.entries@.drop_last() =~= old(self).entries@);
        }
    }

    /// Build a File entry for `path` with the given attributes and extent
    /// map, stamp its CRC, and append it; the log must not be full and the
    /// path must fit the fixed path buffer.
    pub fn log_file_create(
        &mut self,
        fmap: famfs_log_fmap,
        path: &Vec<u8>,
        mode_t: u32,
        uid_t: u32,
        gid_t: u32,
        size: u64,
    ) -> (r: Result<(), FamfsError>)
        requires
            old(self).wf(),
            fmap.wf(),
            old(self).famfs_log_next_seqnum < u64::MAX,
        ensures
            match r {
                Ok(_) => {
                    &&& path@.len() <= crate::FAMFS_MAX_PATHLEN
                    &&& !old(self).spec_log_full()
                    &&& final(self).wf()
                    &&& final(self).entries@.len() == old(self).entries@.len() + 1
                    &&& final(self).entries@.drop_last() == old(self).entries@
                    &&& is_file_entry(
                        final(self).entries@.last(),
                        old(self).famfs_log_next_seqnum,
                        fmap,
                        path@,
                        mode_t,
                        uid_t,
                        gid_t,
                        size,
                    )
                    &&& final(self).famfs_log_next_index == old(self).famfs_log_next_index + 1
                    &&& final(self).famfs_log_next_seqnum == old(self).famfs_log_next_seqnum + 1
                    &&& final(self).famfs_log_magic == old(self).famfs_log_magic
                    &&& final(self).famfs_log_len == old(self).famfs_log_len
                    &&& final(self).famfs_log_last_index == old(self).famfs_log_last_index
                },
                Err(e) => {
                    &&& *final(self) == *old(self)
                    &&& (e == FamfsError::PathTooLong <==> path@.len()
                        > crate::FAMFS_MAX_PATHLEN)
                    &&& (e == FamfsError::LogFull <==> (path@.len() <= crate::FAMFS_MAX_PATHLEN
                        && old(self).spec_log_full()))
                    &&& (e == FamfsError::PathTooLong || e == FamfsError::LogFull)
                },
            },
            r is Err <==> (path@.len() > crate::FAMFS_MAX_PATHLEN || old(self).spec_log_full()),
    {
        if path.len() > crate::FAMFS_MAX_PATHLEN {
            return Err(FamfsError::PathTooLong);
        }
        if self.log_full() {
            return Err(FamfsError::LogFull);
        }
        let mut relpath: Vec<u8> = Vec::new();
        let plen: usize = path.len();
        let mut i: usize = 0;
        while i < plen
            invariant
                i <= plen,
                plen == path@.len(),
                relpath@ == path@.subrange(0, i as int),
            decreases plen - i,
        {
            relpath.push(path[i]);
            proof {
                assert(relpath@ =~= path@.subrange(0, i + 1));
            }
            i = i + 1;
        }
        proof {
            assert(relpath@ =~= path@);
        }
        while relpath.len() < crate::FAMFS_MAX_PATHLEN
            invariant
                path@.len() <= relpath@.len() <= crate::FAMFS_MAX_PATHLEN,
                relpath@ == path@ + zero_bytes(relpath@.len() - path@.len()),
            decreases crate::FAMFS_MAX_PATHLEN - relpath@.len(),
        {
            relpath.push(0u8);
            proof {
                assert(relpath@ =~= path@ + zero_bytes(relpath@.len() - path@.len()));
            }
        }
        let fm = famfs_log_file_meta {
            fm_size: size,
            fm_flags: crate::FAMFS_FM_ALL_HOSTS_RW,
            fm_uid: uid_t,
            fm_gid: gid_t,
            fm_mode: mode_t,
            fm_relpath: relpath,
            fm_fmap: fmap,
        };
        let mut le = famfs_log_entry {
            famfs_log_entry_seqnum: self.famfs_log_next_seqnum,
            famfs_log_entry_log: LogEntry::File { file_meta: fm },
            famfs_log_entry_crc: 0,
        };
        le.regenerate_crc();
        self.append_entry(le);
        Ok(())
    }
}

/// The File entry that `log_file_create` appends: stamped with `seq`, CRC
/// consistent, carrying the given attributes, the null-padded `path` and
/// exactly the extent map `fmap`.
pub open spec fn is_file_entry(
    e: famfs_log_entry,
    seq: u64,
    fmap: famfs_log_fmap,
    path: Seq<u8>,
    mode_t: u32,
    uid_t: u32,
    gid_t: u32,
    size: u64,
) -> bool {
    &&& e.famfs_log_entry_seqnum == seq
    &&& entry_crc_ok(e)
    &&& e.famfs_log_entry_log matches LogEntry::File { file_meta } && {
        &&& file_meta.fm_size == size
        &&& file_meta.fm_flags == crate::FAMFS_FM_ALL_HOSTS_RW
        &&& file_meta.fm_uid == uid_t
        &&& file_meta.fm_gid == gid_t
        &&& file_meta.fm_mode == mode_t
        &&& file_meta.fm_relpath@ == path + zero_bytes(
            crate::FAMFS_MAX_PATHLEN - path.len(),
        )
        &&& file_meta.fm_fmap == fmap
    }
}

/// Parameters for striped allocation across buckets.  The current core
/// reads interleaved maps during replay but never produces one: the striped
/// write path is an explicit non-goal.
#[derive(Clone, Copy)]
pub struct famfs_interleave_param {
    pub nbuckets: u64,
    pub nstrips: u64,
    pub chunk_size: u64,
}

impl Default for famfs_interleave_param {
    /// No interleaving: zero buckets, strips and chunk size.
    fn default() -> (r: famfs_interleave_param)
        ensures
            r.nbuckets == 0 && r.nstrips == 0 && r.chunk_size == 0,
    {
        famfs_interleave_param { nbuckets: 0, nstrips: 0, chunk_size: 0 }
    }
}

/// Little-endian value of 8 bytes at `off`.
#[verifier::loop_isolation(false)]
fn read_u64_le(b: &Vec<u8>, off: usize) -> (x: u64)
    requires
        off + 8 <= b@.len(),
    ensures
        x == vstd::bytes::spec_u64_from_le_bytes(b@.subrange(off as int, off as int + 8)),
{
    let nb: usize = b.len();
    let mut tmp: Vec<u8> = Vec::new();
    let mut i: usize = 0;
    while i < 8
        invariant
            i <= 8,
            tmp@ == b@.subrange(off as int, off as int + i),
        decreases 8 - i,
    {
        tmp.push(b[off + i]);
        proof {
            assert(tmp@ =~= b@.subrange(off as int, off as int + i + 1));
        }
        i = i + 1;
    }
    vstd::bytes::u64_from_le_bytes(tmp.as_slice())
}

/// Little-endian value of 4 bytes at `off`.
#[verifier::loop_isolation(false)]
fn read_u32_le(b: &Vec<u8>, off: usize) -> (x: u32)
    requires
        off + 4 <= b@.len(),
    ensures
        x == vstd::bytes::spec_u32_from_le_bytes(b@.subrange(off as int, off as int + 4)),
{
    let nb: usize = b.len();
    let mut tmp: Vec<u8> = Vec::new();
    let mut i: usize = 0;
    while i < 4
        invariant
            i <= 4,
            tmp@ == b@.subrange(off as int, off as int + i),
        decreases 4 - i,
    {
        tmp.push(b[off + i]);
        proof {
            assert(tmp@ =~= b@.subrange(off as int, off as int + i + 1));
        }
        i = i + 1;
    }
    vstd::bytes::u32_from_le_bytes(tmp.as_slice())
}

/// Copy of the `n` bytes at `off`.
#[verifier::loop_isolation(false)]
fn read_bytes(b: &Vec<u8>, off: usize, n: usize) -> (out: Vec<u8>)
    requires
        off + n <= b@.len(),
    ensures
        out@ == b@.subrange(off as int, off as int + n),
{
    let nb: usize = b.len();
    let mut out: Vec<u8> = Vec::new();
    let mut i: usize = 0;
    while i < n
        invariant
            i <= n,
            out@ == b@.subrange(off as int, off as int + i),
        decreases n - i,
    {
        out.push(b[off + i]);
        proof {
            assert(out@ =~= b@.subrange(off as int, off as int + i + 1));
        }
        i = i + 1;
    }
    out
}

/// Byte size of an encoded superblock.
pub const FAMFS_SUPERBLOCK_BYTES: usize = 196;

/// The full media encoding of a superblock: the CRC-covered span, then the
/// CRC, padding, flags, and the device descriptor.
pub open spec fn sb_bytes(sb: famfs_superblock) -> Seq<u8> {
    sb_crc_span(sb) + spec_u32_to_le_bytes(sb.ts_crc) + spec_u32_to_le_bytes(sb.ts_pad)
        + spec_u32_to_le_bytes(sb.ts_sb_flags) + spec_u64_to_le_bytes(sb.ts_daxdev.dd_size)
        + sb.ts_daxdev.dd_uuid@ + sb.ts_daxdev.daxdev@
}

/// Byte size of an encoded log header.
pub const FAMFS_LOG_HEADER_BYTES: usize = 44;

/// The media encoding of the log header, in field order.
pub open spec fn log_header_bytes(l: famfs_log) -> Seq<u8> {
    spec_u64_to_le_bytes(l.famfs_log_magic) + spec_u64_to_le_bytes(l.famfs_log_len)
        + spec_u64_to_le_bytes(l.famfs_log_last_index) + spec_u32_to_le_bytes(l.famfs_log_crc)
        + spec_u64_to_le_bytes(l.famfs_log_next_seqnum) + spec_u64_to_le_bytes(
        l.famfs_log_next_index,
    )
}

/// The media encoding of one log entry: its CRC-covered span, then the CRC
/// and the zero pad word.
pub open spec fn entry_bytes(e: famfs_log_entry) -> Seq<u8> {
    entry_crc_span(e) + spec_u32_to_le_bytes(e.famfs_log_entry_crc) + spec_u32_to_le_bytes(0)
}

impl famfs_superblock {
    /// Encode this superblock in its documented fixed layout.
    pub fn to_bytes(&self) -> (out: Vec<u8>)
        requires
            self.wf(),
        ensures
            out@ == sb_bytes(*self),
            out@.len() == FAMFS_SUPERBLOCK_BYTES,
    {
        let mut out = self.crc_span_bytes();
        push_u32_le(&mut out, self.ts_crc);
        push_u32_le(&mut out, self.ts_pad);
        push_u32_le(&mut out, self.ts_sb_flags);
        push_u64_le(&mut out, self.ts_daxdev.dd_size);
        push_bytes(&mut out, &self.ts_daxdev.dd_uuid);
        push_bytes(&mut out, &self.ts_daxdev.daxdev);
        proof {
            vstd::bytes::lemma_auto_spec_u64_to_from_le_bytes();
            vstd::bytes::lemma_auto_spec_u32_to_from_le_bytes();
            assert(out@ =~= sb_bytes(*self));
        }
        out
    }

    /// Decode a superblock from its documented fixed layout; anything but
    /// exactly one encoded superblock is rejected.  Decoding trusts nothing:
    /// `check_superblock` still judges the result.
    pub fn from_bytes(b: &Vec<u8>) -> (r: Option<famfs_superblock>)
        ensures
            match r {
                Some(sb) => {
                    &&& b@.len() == FAMFS_SUPERBLOCK_BYTES
                    &&& sb.wf()
                    &&& sb_bytes(sb) == b@
                },
                None => b@.len() != FAMFS_SUPERBLOCK_BYTES,
            },
    {
        if b.len() != FAMFS_SUPERBLOCK_BYTES {
            return None;
        }
        let sb = famfs_superblock {
            ts_magic: read_u64_le(b, 0),
            ts_version: read_u64_le(b, 8),
            ts_log_offset: read_u64_le(b, 16),
            ts_log_len: read_u64_le(b, 24),
            ts_alloc_unit: read_u64_le(b, 32),
            ts_omf_ver_major: read_u32_le(b, 40),
            ts_omf_ver_minor: read_u32_le(b, 44),
            ts_uuid: read_bytes(b, 48, 16),
            ts_dev_uuid: read_bytes(b, 64, 16),
            ts_system_uuid: read_bytes(b, 80, 16),
            ts_crc: read_u32_le(b, 96),
            ts_pad: read_u32_le(b, 100),
            ts_sb_flags: read_u32_le(b, 104),
            ts_daxdev: famfs_daxdev {
                dd_size: read_u64_le(b, 108),
                dd_uuid: read_bytes(b, 116, 16),
                daxdev: read_bytes(b, 132, 64),
            },
        };
        proof {
            vstd::bytes::lemma_auto_spec_u64_to_from_le_bytes();
            vstd::bytes::lemma_auto_spec_u32_to_from_le_bytes();
            assert(sb_bytes(sb) =~= b@);
        }
        Some(sb)
    }
}

impl famfs_log {
    /// Encode this log's header in its documented fixed layout.
    pub fn header_to_bytes(&self) -> (out: Vec<u8>)
        ensures
            out@ == log_header_bytes(*self),
            out@.len() == FAMFS_LOG_HEADER_BYTES,
    {
        let mut out: Vec<u8> = Vec::new();
        push_u64_le(&mut out, self.famfs_log_magic);
        push_u64_le(&mut out, self.famfs_log_len);
        push_u64_le(&mut out, self.famfs_log_last_index);
        push_u32_le(&mut out, self.famfs_log_crc);
        push_u64_le(&mut out, self.famfs_log_next_seqnum);
        push_u64_le(&mut out, self.famfs_log_next_index);
        proof {
            vstd::bytes::lemma_auto_spec_u64_to_from_le_bytes();
            vstd::bytes::lemma_auto_spec_u32_to_from_le_bytes();
            assert(out@ =~= log_header_bytes(*self));
        }
        out
    }

    /// Decode an empty-bodied log from an encoded header; anything but
    /// exactly one encoded header is rejected.  `check_log` still judges
    /// the result, and replay validates each entry.
    pub fn header_from_bytes(b: &Vec<u8>) -> (r: Option<famfs_log>)
        ensures
            match r {
                Some(l) => {
                    &&& b@.len() == FAMFS_LOG_HEADER_BYTES
                    &&& log_header_bytes(l) == b@
                    &&& l.entries@.len() == 0
                },
                None => b@.len() != FAMFS_LOG_HEADER_BYTES,
            },
    {
        if b.len() != FAMFS_LOG_HEADER_BYTES {
            return None;
        }
        let l = famfs_log {
            famfs_log_magic: read_u64_le(b, 0),
            famfs_log_len: read_u64_le(b, 8),
            famfs_log_last_index: read_u64_le(b, 16),
            famfs_log_crc: read_u32_le(b, 24),
            famfs_log_next_seqnum: read_u64_le(b, 28),
            famfs_log_next_index: read_u64_le(b, 36),
            entries: Vec::new(),
        };
        proof {
            vstd::bytes::lemma_auto_spec_u64_to_from_le_bytes();
            vstd::bytes::lemma_auto_spec_u32_to_from_le_bytes();
            assert(log_header_bytes(l) =~= b@);
        }
        Some(l)
    }
}

impl famfs_log_entry {
    /// Encode this entry in its media layout: the CRC-covered span followed
    /// by the stored CRC and the pad word.
    pub fn to_bytes(&self) -> (out: Vec<u8>)
        requires
            self.wf(),
        ensures
            out@ == entry_bytes(*self),
    {
        let mut out = self.crc_span_bytes();
        push_u32_le(&mut out, self.famfs_log_entry_crc);
        push_u32_le(&mut out, 0);
        proof {
            assert(out@ =~= entry_bytes(*self));
        }
        out
    }
}

/// The encoding is injective: two well-formed superblocks with the same
/// encoding agree on every field (buffers compared by contents).
pub proof fn lemma_sb_bytes_parses_back(sb: famfs_superblock, sb2: famfs_superblock)
    requires
        sb.wf(),
        sb2.wf(),
        sb_bytes(sb2) == sb_bytes(sb),
    ensures
        sb2.ts_magic == sb.ts_magic,
        sb2.ts_version == sb.ts_version,
        sb2.ts_log_offset == sb.ts_log_offset,
        sb2.ts_log_len == sb.ts_log_len,
        sb2.ts_alloc_unit == sb.ts_alloc_unit,
        sb2.ts_omf_ver_major == sb.ts_omf_ver_major,
        sb2.ts_omf_ver_minor == sb.ts_omf_ver_minor,
        sb2.ts_uuid@ == sb.ts_uuid@,
        sb2.ts_dev_uuid@ == sb.ts_dev_uuid@,
        sb2.ts_system_uuid@ == sb.ts_system_uuid@,
        sb2.ts_crc == sb.ts_crc,
        sb2.ts_pad == sb.ts_pad,
        sb2.ts_sb_flags == sb.ts_sb_flags,
        sb2.ts_daxdev.dd_size == sb.ts_daxdev.dd_size,
        sb2.ts_daxdev.dd_uuid@ == sb.ts_daxdev.dd_uuid@,
        sb2.ts_daxdev.daxdev@ == sb.ts_daxdev.daxdev@,
{
    vstd::bytes::lemma_auto_spec_u64_to_from_le_bytes();
    vstd::bytes::lemma_auto_spec_u32_to_from_le_bytes();
    lemma_sb_field_bytes(sb);
    lemma_sb_field_bytes(sb2);
    assert(sb.ts_uuid@ =~= sb2.ts_uuid@);
    assert(sb.ts_dev_uuid@ =~= sb2.ts_dev_uuid@);
    assert(sb.ts_system_uuid@ =~= sb2.ts_system_uuid@);
    assert(sb.ts_daxdev.dd_uuid@ =~= sb2.ts_daxdev.dd_uuid@);
    assert(sb.ts_daxdev.daxdev@ =~= sb2.ts_daxdev.daxdev@);
}

/// Each field of a well-formed superblock is recoverable from a fixed
/// subrange of its encoding.
proof fn lemma_sb_field_bytes(sb: famfs_superblock)
    requires
        sb.wf(),
    ensures
        sb_bytes(sb).len() == FAMFS_SUPERBLOCK_BYTES,
        sb_bytes(sb).subrange(0, 8) == spec_u64_to_le_bytes(sb.ts_magic),
        sb_bytes(sb).subrange(8, 16) == spec_u64_to_le_bytes(sb.ts_version),
        sb_bytes(sb).subrange(16, 24) == spec_u64_to_le_bytes(sb.ts_log_offset),
        sb_bytes(sb).subrange(24, 32) == spec_u64_to_le_bytes(sb.ts_log_len),
        sb_bytes(sb).subrange(32, 40) == spec_u64_to_le_bytes(sb.ts_alloc_unit),
        sb_bytes(sb).subrange(40, 44) == spec_u32_to_le_bytes(sb.ts_omf_ver_major),
        sb_bytes(sb).subrange(44, 48) == spec_u32_to_le_bytes(sb.ts_omf_ver_minor),
        sb_bytes(sb).subrange(48, 64) == sb.ts_uuid@,
        sb_bytes(sb).subrange(64, 80) == sb.ts_dev_uuid@,
        sb_bytes(sb).subrange(80, 96) == sb.ts_system_uuid@,
        sb_bytes(sb).subrange(96, 100) == spec_u32_to_le_bytes(sb.ts_crc),
        sb_bytes(sb).subrange(100, 104) == spec_u32_to_le_bytes(sb.ts_pad),
        sb_bytes(sb).subrange(104, 108) == spec_u32_to_le_bytes(sb.ts_sb_flags),
        sb_bytes(sb).subrange(108, 116) == spec_u64_to_le_bytes(sb.ts_daxdev.dd_size),
        sb_bytes(sb).subrange(116, 132) == sb.ts_daxdev.dd_uuid@,
        sb_bytes(sb).subrange(132, 196) == sb.ts_daxdev.daxdev@,
{
    vstd::bytes::lemma_auto_spec_u64_to_from_le_bytes();
    vstd::bytes::lemma_auto_spec_u32_to_from_le_bytes();
    assert(sb_bytes(sb).subrange(0, 8) =~= spec_u64_to_le_bytes(sb.ts_magic));
    assert(sb_bytes(sb).subrange(8, 16) =~= spec_u64_to_le_bytes(sb.ts_version));
    assert(sb_bytes(sb).subrange(16, 24) =~= spec_u64_to_le_bytes(sb.ts_log_offset));
    assert(sb_bytes(sb).subrange(24, 32) =~= spec_u64_to_le_bytes(sb.ts_log_len));
    assert(sb_bytes(sb).subrange(32, 40) =~= spec_u64_to_le_bytes(sb.ts_alloc_unit));
    assert(sb_bytes(sb).subrange(40, 44) =~= spec_u32_to_le_bytes(sb.ts_omf_ver_major));
    assert(sb_bytes(sb).subrange(44, 48) =~= spec_u32_to_le_bytes(sb.ts_omf_ver_minor));
    assert(sb_bytes(sb).subrange(48, 64) =~= sb.ts_uuid@);
    assert(sb_bytes(sb).subrange(64, 80) =~= sb.ts_dev_uuid@);
    assert(sb_bytes(sb).subrange(80, 96) =~= sb.ts_system_uuid@);
    assert(sb_bytes(sb).subrange(96, 100) =~= spec_u32_to_le_bytes(sb.ts_crc));
    assert(sb_bytes(sb).subrange(100, 104) =~= spec_u32_to_le_bytes(sb.ts_pad));
    assert(sb_bytes(sb).subrange(104, 108) =~= spec_u32_to_le_bytes(sb.ts_sb_flags));
    assert(sb_bytes(sb).subrange(108, 116) =~= spec_u64_to_le_bytes(sb.ts_daxdev.dd_size));
    assert(sb_bytes(sb).subrange(116, 132) =~= sb.ts_daxdev.dd_uuid@);
    assert(sb_bytes(sb).subrange(132, 196) =~= sb.ts_daxdev.daxdev@);
}

} // verus!
