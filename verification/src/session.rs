//! Locked log session: the per-open context that binds a log, a superblock
//! and the lazily-built bitmap together, and turns file creation and lookup
//! into allocated byte ranges.  Whatever cross-host exclusion the deployment
//! requires must be acquired externally before any mutating call.
use crate::bitmap::{
    all_crc_ok, all_extents_in_range, all_supported, clamp_u64, extent_covers,
    extents_cover_upto, free_run, lemma_allocations_disjoint, lemma_log_covers_same_prefix, lemma_log_covers_step,
    lemma_units_for_rounded, log_covers, log_units, replayed_view, total_set, units_for, with_range_set,
    Bitmap,
};
use crate::meta::{
    entry_crc_ok, famfs_interleave_param, famfs_log, famfs_log_entry, famfs_log_fmap,
    famfs_superblock, famfs_system_role, zero_bytes, Extent, LogEntry,
};
use crate::FamfsError;
use vstd::prelude::*;

verus! {

/// The stored, null-padded path buffer begins with exactly the bytes of
/// `path`.
pub open spec fn path_matches(stored: Seq<u8>, path: Seq<u8>) -> bool {
    path.len() <= stored.len() && stored.subrange(0, path.len() as int) == path
}

/// Entry `e` is a File entry whose stored path matches `path`.
pub open spec fn entry_matches(e: famfs_log_entry, path: Seq<u8>) -> bool {
    e.famfs_log_entry_log matches LogEntry::File { file_meta } && path_matches(
        file_meta.fm_relpath@,
        path,
    )
}

/// Entry `i` is the first File entry whose stored path matches `path`.
pub open spec fn first_match_at(entries: Seq<famfs_log_entry>, path: Seq<u8>, i: int) -> bool {
    &&& 0 <= i < entries.len()
    &&& entry_matches(entries[i], path)
    &&& (forall|k: int| 0 <= k < i ==> !entry_matches(#[trigger] entries[k], path))
}

/// Entry `e` resolves to a byte view: a Simple extent map with at least one
/// extent.  Interleaved resolution is unsupported and reported as not-found.
pub open spec fn resolvable(e: famfs_log_entry) -> bool {
    e.famfs_log_entry_log matches LogEntry::File { file_meta }
        && file_meta.fm_fmap.ext matches Extent::Simple { extents } && extents@.len() >= 1
}

/// The view `f` is what entry `e` resolves to: based at the first extent's
/// device offset, clamped to the file's recorded size, cursor at the start.
pub open spec fn resolves_to(e: famfs_log_entry, f: FamfsFile) -> bool {
    e.famfs_log_entry_log matches LogEntry::File { file_meta }
        && file_meta.fm_fmap.ext matches Extent::Simple { extents } && {
        &&& extents@.len() >= 1
        &&& f.offset == extents@[0].se_offset
        &&& f.len == file_meta.fm_size
        &&& f.cur == 0
    }
}

/// A bounded view of one file's bytes on the device, with an internal
/// cursor for sequential access.  `offset` is the byte offset of the view's
/// base on the device; reads and writes past `len` fail rather than growing
/// the view.
pub struct FamfsFile {
    pub offset: u64,
    pub len: u64,
    pub cur: u64,
}

impl FamfsFile {
    /// Well-formed: the view lies within the addressable device and the
    /// cursor is inside the view.
    pub open spec fn wf(&self) -> bool {
        &&& self.offset + self.len <= u64::MAX
        &&& self.cur <= self.len
    }

    /// Bounded sequential read: returns the device byte range of the next
    /// `want` bytes, clamped to the recorded length, and advances the
    /// cursor.  Fails if the cursor has been pushed past the view.
    pub fn read(&mut self, want: u64) -> (r: Option<(u64, u64)>)
        requires
            old(self).offset + old(self).len <= u64::MAX,
        ensures
            final(self).offset == old(self).offset,
            final(self).len == old(self).len,
            match r {
                Some(p) => {
                    &&& old(self).cur <= old(self).len
                    &&& p.0 == old(self).offset + old(self).cur
                    &&& p.1 == if want < old(self).len - old(self).cur {
                        want as int
                    } else {
                        old(self).len - old(self).cur
                    }
                    &&& final(self).cur == old(self).cur + p.1
                },
                None => final(self).cur == old(self).cur && old(self).cur > old(self).len,
            },
    {
        if self.cur > self.len {
            return None;
        }
        let n: u64 = if want < self.len - self.cur {
            want
        } else {
            self.len - self.cur
        };
        let start: u64 = self.offset + self.cur;
        self.cur = self.cur + n;
        Some((start, n))
    }

    /// Bounded sequential write: returns the device byte range the next
    /// `want` bytes may be written to, clamped to the recorded length, and
    /// advances the cursor by that count.  Fails if the cursor has been
    /// pushed past the view.
    pub fn write(&mut self, want: u64) -> (r: Option<(u64, u64)>)
        requires
            old(self).offset + old(self).len <= u64::MAX,
        ensures
            final(self).offset == old(self).offset,
            final(self).len == old(self).len,
            match r {
                Some(p) => {
                    &&& old(self).cur <= old(self).len
                    &&& p.0 == old(self).offset + old(self).cur
                    &&& p.1 == if want < old(self).len - old(self).cur {
                        want as int
                    } else {
                        old(self).len - old(self).cur
                    }
                    &&& final(self).cur == old(self).cur + p.1
                },
                None => final(self).cur == old(self).cur && old(self).cur > old(self).len,
            },
    {
        if self.cur > self.len {
            return None;
        }
        let n: u64 = if want < self.len - self.cur {
            want
        } else {
            self.len - self.cur
        };
        let start: u64 = self.offset + self.cur;
        self.cur = self.cur + n;
        Some((start, n))
    }
}

/// Whether the stored path buffer begins with the queried path's bytes.
fn prefix_matches(stored: &Vec<u8>, path: &Vec<u8>) -> (r: bool)
    ensures
        r == path_matches(stored@, path@),
{
    let pn: usize = path.len();
    let sn: usize = stored.len();
    if pn > sn {
        return false;
    }
    let mut i: usize = 0;
    while i < pn
        invariant
            i <= pn <= sn,
            pn == path@.len(),
            sn == stored@.len(),
            forall|k: int| 0 <= k < i ==> stored@[k] == path@[k],
        decreases pn - i,
    {
        if stored[i] != path[i] {
            proof {
                assert(stored@.subrange(0, pn as int)[i as int] == stored@[i as int]);
            }
            return false;
        }
        i = i + 1;
    }
    proof {
        assert(stored@.subrange(0, pn as int) =~= path@);
    }
    true
}

/// Per-open mutable context: device size, the owned log, host role, the
/// lazily-built bitmap with its bit count, allocation unit, allocation
/// cursor, interleave parameters, and mount/shadow paths.  Exists only for
/// the lifetime of one process's open log; never persisted.
pub struct famfs_locked_log {
    pub devsize: u64,
    pub log: famfs_log,
    pub famfs_type: famfs_system_role,
    pub bitmap: Bitmap,
    pub bitmap_loaded: bool,
    pub nbits: u64,
    pub overlap_errors: u64,
    pub alloc_unit: u64,
    pub cur_pos: u64,
    pub interleave_param: famfs_interleave_param,
    pub mpt: Vec<u8>,
    pub shadow_root: Vec<u8>,
}

impl famfs_locked_log {
    /// Bits the whole device needs at this session's allocation unit.
    pub open spec fn spec_nbits(&self) -> int {
        units_for(self.devsize, self.alloc_unit)
    }

    /// Bits of the reserved metadata region (superblock plus log).
    pub open spec fn spec_rbits(&self) -> int {
        units_for(
            (crate::FAMFS_SUPERBLOCK_SIZE + self.log.famfs_log_len) as u64,
            self.alloc_unit,
        )
    }

    /// The bitmap every allocation state derives from: one bit per unit,
    /// set exactly where the reserved region or a replayed extent lies.
    pub open spec fn spec_replayed(&self) -> Seq<bool> {
        replayed_view(
            self.log.entries@,
            self.log.entries@.len() as int,
            self.spec_rbits(),
            self.spec_nbits(),
            self.alloc_unit,
        )
    }

    /// The bit view allocation works on: the loaded bitmap, or, before the
    /// first load, the replay of the log it would produce.
    pub open spec fn alloc_view(&self) -> Seq<bool> {
        if self.bitmap_loaded {
            self.bitmap@
        } else {
            self.spec_replayed()
        }
    }

    /// Well-formed: a valid owned log, the fixed allocation unit, machine
    /// bounds that keep every bit and byte computation in range, and a
    /// bitmap consistent with the device size once loaded.
    pub open spec fn wf(&self) -> bool {
        &&& self.log.wf()
        &&& self.alloc_unit == crate::FAMFS_ALLOC_UNIT
        &&& self.spec_nbits() <= usize::MAX
        &&& self.spec_nbits() * self.alloc_unit as int <= u64::MAX
        &&& crate::FAMFS_SUPERBLOCK_SIZE + self.log.famfs_log_len <= u64::MAX
        &&& self.bitmap.wf()
        &&& self.bitmap.spec_alloc_unit() == self.alloc_unit
        &&& (self.bitmap_loaded ==> self.bitmap@.len() == self.spec_nbits() && self.nbits
            == self.spec_nbits())
    }

    /// Allocation state is a pure function of the log: once loaded, the
    /// bitmap equals the replay of the log.  `make_file` preserves this;
    /// allocating without appending (the split `file_alloc` step) breaks it
    /// until the matching entry is appended.
    pub open spec fn synced(&self) -> bool {
        self.bitmap_loaded ==> self.bitmap@ == self.spec_replayed()
    }

    /// Open a session over an owned log, taking the device size from the
    /// superblock.  The bitmap is built lazily, on the first allocation.
    pub fn from_log(log: famfs_log, sb: &famfs_superblock) -> (r: famfs_locked_log)
        requires
            log.wf(),
            units_for(sb.ts_daxdev.dd_size, crate::FAMFS_ALLOC_UNIT) <= usize::MAX,
            units_for(sb.ts_daxdev.dd_size, crate::FAMFS_ALLOC_UNIT) * crate::FAMFS_ALLOC_UNIT
                <= u64::MAX,
            log.famfs_log_len + crate::FAMFS_SUPERBLOCK_SIZE <= u64::MAX,
        ensures
            r.wf(),
            r.synced(),
            r.devsize == sb.ts_daxdev.dd_size,
            r.log == log,
            r.alloc_unit == crate::FAMFS_ALLOC_UNIT,
            r.cur_pos == 0,
            !r.bitmap_loaded,
            r.famfs_type is FAMFS_MASTER,
    {
        famfs_locked_log {
            devsize: sb.ts_daxdev.dd_size,
            log,
            famfs_type: famfs_system_role::FAMFS_MASTER,
            bitmap: Bitmap::new(0, crate::FAMFS_ALLOC_UNIT),
            bitmap_loaded: false,
            nbits: 0,
            overlap_errors: 0,
            alloc_unit: crate::FAMFS_ALLOC_UNIT,
            cur_pos: 0,
            interleave_param: famfs_interleave_param::default(),
            mpt: Vec::new(),
            shadow_root: Vec::new(),
        }
    }

    /// Build the bitmap by one full replay of the log, if it has not been
    /// built yet.  Fails exactly when the replay does: on a corrupt entry,
    /// an unsupported entry, or an extent outside the device.
    pub fn load_bitmap(&mut self) -> (r: Result<(), FamfsError>)
        requires
            old(self).wf(),
        ensures
            final(self).log == old(self).log,
            final(self).devsize == old(self).devsize,
            final(self).alloc_unit == old(self).alloc_unit,
            final(self).cur_pos == old(self).cur_pos,
            final(self).wf(),
            old(self).synced() ==> final(self).synced(),
            old(self).bitmap_loaded ==> *final(self) == *old(self) && r is Ok,
            match r {
                Ok(_) => {
                    &&& final(self).bitmap_loaded
                    &&& (!old(self).bitmap_loaded ==> final(self).bitmap@ == final(self).spec_replayed())
                    &&& (!old(self).bitmap_loaded ==> final(self).overlap_errors as int
                        == clamp_u64(
                        final(self).spec_rbits() + log_units(
                            final(self).log.entries@,
                            final(self).log.entries@.len() as int,
                            final(self).alloc_unit,
                        ) - total_set(final(self).bitmap@),
                    ))
                },
                Err(e) => {
                    &&& *final(self) == *old(self)
                    &&& !old(self).bitmap_loaded
                    &&& (e is CorruptionDetected || e is UnsupportedEntry || e is FormatError)
                    &&& (e is CorruptionDetected ==> !all_crc_ok(
                        old(self).log.entries@,
                        old(self).log.entries@.len() as int,
                    ))
                    &&& (e is UnsupportedEntry ==> !all_supported(
                        old(self).log.entries@,
                        old(self).log.entries@.len() as int,
                    ))
                    &&& (e is FormatError ==> (old(self).spec_rbits() > old(self).spec_nbits()
                        || !all_extents_in_range(
                        old(self).log.entries@,
                        old(self).log.entries@.len() as int,
                        old(self).alloc_unit,
                        old(self).spec_nbits(),
                    )))
                },
            },
    {
        if self.bitmap_loaded {
            return Ok(());
        }
        match Bitmap::build_bitmap(&self.log, self.alloc_unit, self.devsize) {
            Ok(pair) => {
                let (bm, errs) = pair;
                self.nbits = bm.len();
                self.bitmap = bm;
                self.overlap_errors = errs;
                self.bitmap_loaded = true;
                Ok(())
            },
            Err(e) => Err(e),
        }
    }

    /// Render the bitmap as one character per bit, `1` for allocated.
    /// A diagnostic dump, not part of the durable contract.
    pub fn print_bitmap(&mut self) -> (r: Result<String, FamfsError>)
        requires
            old(self).wf(),
        ensures
            final(self).wf(),
            final(self).log == old(self).log,
            final(self).devsize == old(self).devsize,
            final(self).alloc_unit == old(self).alloc_unit,
            final(self).cur_pos == old(self).cur_pos,
            old(self).synced() ==> final(self).synced(),
            old(self).bitmap_loaded ==> *final(self) == *old(self),
            match r {
                Ok(s) => {
                    &&& final(self).bitmap_loaded
                    &&& (!old(self).bitmap_loaded ==> final(self).bitmap@ == final(self).spec_replayed())
                    &&& s@.len() == final(self).bitmap@.len()
                    &&& (forall|i: int|
                        0 <= i < s@.len() ==> s@[i] == (if final(self).bitmap@[i] {
                            '1'
                        } else {
                            '0'
                        }))
                },
                Err(e) => {
                    &&& *final(self) == *old(self)
                    &&& !old(self).bitmap_loaded
                    &&& (e is CorruptionDetected || e is UnsupportedEntry || e is FormatError)
                    &&& (e is CorruptionDetected ==> !all_crc_ok(
                        old(self).log.entries@,
                        old(self).log.entries@.len() as int,
                    ))
                    &&& (e is UnsupportedEntry ==> !all_supported(
                        old(self).log.entries@,
                        old(self).log.entries@.len() as int,
                    ))
                    &&& (e is FormatError ==> (old(self).spec_rbits() > old(self).spec_nbits()
                        || !all_extents_in_range(
                        old(self).log.entries@,
                        old(self).log.entries@.len() as int,
                        old(self).alloc_unit,
                        old(self).spec_nbits(),
                    )))
                },
            },
    {
        match self.load_bitmap() {
            Ok(_) => (),
            Err(e) => {
                return Err(e);
            },
        }
        let mut s = String::new();
        let n: u64 = self.bitmap.len();
        let mut i: u64 = 0;
        proof {
            reveal_strlit("1");
            reveal_strlit("0");
        }
        while i < n
            invariant
                i <= n,
                n == self.bitmap@.len(),
                s@.len() == i,
                forall|k: int|
                    0 <= k < i ==> s@[k] == (if self.bitmap@[k] {
                        '1'
                    } else {
                        '0'
                    }),
                "1"@ == seq!['1'],
                "0"@ == seq!['0'],
            decreases n - i,
        {
            if self.bitmap.test(i) {
                s.append("1");
            } else {
                s.append("0");
            }
            i = i + 1;
        }
        Ok(s)
    }

    /// First-fit contiguous allocation of `size` bytes, building the bitmap
    /// by replay first if this is the session's first allocation.  On
    /// success the result is a one-extent simple map whose length is `size`
    /// rounded up to the allocation unit, and the cursor advances past the
    /// claimed range.  Note the bitmap then holds the claimed range while
    /// the log does not yet: `make_file` appends the matching entry.
    pub fn file_alloc_contiguous(&mut self, size: u64) -> (r: Result<famfs_log_fmap, FamfsError>)
        requires
            old(self).wf(),
            units_for(size, crate::FAMFS_ALLOC_UNIT) * crate::FAMFS_ALLOC_UNIT <= u64::MAX,
        ensures
            final(self).wf(),
            (r is Err && old(self).synced()) ==> final(self).synced(),
            match r {
                Ok(fmap) => alloc_ok(*old(self), *final(self), size, fmap),
                Err(e) => alloc_err(*old(self), *final(self), size, e),
            },
    {
        match self.load_bitmap() {
            Ok(_) => (),
            Err(e) => {
                return Err(e);
            },
        }
        let mut cur: u64 = self.cur_pos;
        let r = self.bitmap.alloc_contiguous(size, &mut cur, 0);
        match r {
            Some(off) => {
                self.cur_pos = cur;
                Ok(famfs_log_fmap::generate_simple_fmap(size, off))
            },
            None => Err(FamfsError::AllocationExhausted),
        }
    }

    /// Allocate `size` bytes for a file.  Striped placement would branch
    /// here; only the contiguous path exists in this core.
    pub fn file_alloc(&mut self, size: u64) -> (r: Result<famfs_log_fmap, FamfsError>)
        requires
            old(self).wf(),
            units_for(size, crate::FAMFS_ALLOC_UNIT) * crate::FAMFS_ALLOC_UNIT <= u64::MAX,
        ensures
            final(self).wf(),
            (r is Err && old(self).synced()) ==> final(self).synced(),
            match r {
                Ok(fmap) => alloc_ok(*old(self), *final(self), size, fmap),
                Err(e) => alloc_err(*old(self), *final(self), size, e),
            },
    {
        self.file_alloc_contiguous(size)
    }

    /// Create a file: allocate `size` bytes first-fit from the bitmap, then
    /// append one CRC-stamped File entry whose single extent records the
    /// allocation.  The full-log and path-length checks come first, so a
    /// failed call changes nothing: allocation and append happen together
    /// or not at all.
    #[verifier::rlimit(100)]
    pub fn make_file(
        &mut self,
        path: &Vec<u8>,
        mode_t: u32,
        uid_t: u32,
        gid_t: u32,
        size: u64,
    ) -> (r: Result<(), FamfsError>)
        requires
            old(self).wf(),
            old(self).synced(),
            units_for(size, crate::FAMFS_ALLOC_UNIT) * crate::FAMFS_ALLOC_UNIT <= u64::MAX,
            old(self).log.famfs_log_next_seqnum < u64::MAX,
        ensures
            final(self).wf(),
            final(self).synced(),
            match r {
                Ok(_) => make_file_ok(
                    *old(self),
                    *final(self),
                    path@,
                    mode_t,
                    uid_t,
                    gid_t,
                    size,
                ),
                Err(e) => make_file_err(*old(self), *final(self), path@, size, e),
            },
    {
        if path.len() > crate::FAMFS_MAX_PATHLEN {
            return Err(FamfsError::PathTooLong);
        }
        if self.log.log_full() {
            return Err(FamfsError::LogFull);
        }
        let fmap = match self.file_alloc(size) {
            Ok(f) => f,
            Err(e) => {
                return Err(e);
            },
        };
        let ghost v0 = old(self).spec_replayed();
        let ghost unit = self.alloc_unit;
        match self.log.log_file_create(fmap, path, mode_t, uid_t, gid_t, size) {
            Ok(_) => {
                proof {
                    let old_entries = old(self).log.entries@;
                    let t = old_entries.len() as int;
                    let entries2 = self.log.entries@;
                    let e = entries2.last();
                    assert forall|i: int| 0 <= i < t implies entries2[i] == old_entries[i] by {
                        assert(entries2.drop_last()[i] == entries2[i]);
                    }
                    let fm = e.famfs_log_entry_log->File_file_meta;
                    let xs = fm.fm_fmap.ext->Simple_extents;
                    let x = xs@[0];
                    let s = x.se_offset as int / unit as int;
                    let n = units_for(size, unit);
                    lemma_units_for_rounded(size, unit);
                    assert(units_for(x.se_len, unit) == n);
                    let rb = old(self).spec_rbits();
                    let nb = old(self).spec_nbits();
                    let vnext = replayed_view(entries2, t + 1, rb, nb, unit);
                    assert forall|b: int| 0 <= b < nb implies self.bitmap@[b] == vnext[b] by {
                        lemma_log_covers_step(entries2, t, b, unit);
                        lemma_log_covers_same_prefix(entries2, old_entries, t, b, unit);
                        if extents_cover_upto(xs@, xs@.len() as int, b, unit) {
                            let l = choose|l: int|
                                0 <= l < xs@.len() && extent_covers(#[trigger] xs@[l], b, unit);
                            assert(l == 0);
                            assert(extent_covers(x, b, unit));
                        }
                        if extent_covers(x, b, unit) {
                            assert(extents_cover_upto(xs@, xs@.len() as int, b, unit));
                        }
                        assert(v0[b] == (b < rb || log_covers(old_entries, t, b, unit)));
                    }
                    assert(self.bitmap@ =~= vnext);
                }
                Ok(())
            },
            Err(e2) => {
                proof {
                    assert(false);
                }
                Err(e2)
            },
        }
    }

    /// Look up `path`: scan the log in index order and resolve the first
    /// File entry whose stored path matches (an exact, length-bounded
    /// prefix comparison) into a byte view.  Later entries are never
    /// consulted; an interleaved map, an extent-less map, or an over-long
    /// path is reported as not-found.
    pub fn get_file(&self, path: &Vec<u8>) -> (r: Option<FamfsFile>)
        ensures
            match r {
                Some(f) => path@.len() <= crate::FAMFS_MAX_PATHLEN && (exists|i: int|
                    #[trigger] first_match_at(self.log.entries@, path@, i) && resolves_to(
                        self.log.entries@[i],
                        f,
                    )),
                None => {
                    ||| path@.len() > crate::FAMFS_MAX_PATHLEN
                    ||| (forall|i: int|
                        0 <= i < self.log.entries@.len() ==> !entry_matches(
                            #[trigger] self.log.entries@[i],
                            path@,
                        ))
                    ||| (exists|i: int|
                        #[trigger] first_match_at(self.log.entries@, path@, i) && !resolvable(
                            self.log.entries@[i],
                        ))
                },
            },
    {
        if path.len() > crate::FAMFS_MAX_PATHLEN {
            return None;
        }
        let n: usize = self.log.entries.len();
        let mut i: usize = 0;
        while i < n
            invariant
                i <= n,
                n == self.log.entries@.len(),
                path@.len() <= crate::FAMFS_MAX_PATHLEN,
                forall|k: int|
                    0 <= k < i ==> !entry_matches(#[trigger] self.log.entries@[k], path@),
            decreases n - i,
        {
            let e = self.log.get_entry_ref(i);
            match e.get_entry_type() {
                LogEntry::File { file_meta } => {
                    if prefix_matches(&file_meta.fm_relpath, path) {
                        assert(entry_matches(self.log.entries@[i as int], path@));
                        assert(first_match_at(self.log.entries@, path@, i as int));
                        match file_meta.get_extent() {
                            Extent::Simple { extents } => {
                                if extents.len() >= 1 {
                                    let x = extents[0];
                                    return Some(
                                        FamfsFile {
                                            offset: x.se_offset,
                                            len: file_meta.fm_size,
                                            cur: 0,
                                        },
                                    );
                                }
                                assert(!resolvable(self.log.entries@[i as int]));
                                return None;
                            },
                            Extent::Interleaved { .. } => {
                                assert(!resolvable(self.log.entries@[i as int]));
                                return None;
                            },
                        }
                    }
                },
                _ => (),
            }
            assert(!entry_matches(self.log.entries@[i as int], path@));
            i = i + 1;
        }
        None
    }
}

/// What a successful contiguous allocation of `size` bytes did to a
/// session: a one-extent simple map over a previously free, first-fit bit
/// range of the allocation view, now marked allocated, with the cursor
/// advanced just past it.
pub open spec fn alloc_ok(
    pre: famfs_locked_log,
    post: famfs_locked_log,
    size: u64,
    fmap: famfs_log_fmap,
) -> bool {
    let unit = pre.alloc_unit;
    let v0 = pre.alloc_view();
    let n = units_for(size, unit);
    let start = pre.cur_pos as int / unit as int;
    &&& post.log == pre.log
    &&& post.devsize == pre.devsize
    &&& post.alloc_unit == unit
    &&& post.bitmap_loaded
    &&& fmap.wf()
    &&& fmap.ext matches Extent::Simple { extents } && extents@.len() == 1 && ({
        let x = extents@[0];
        let s = x.se_offset as int / unit as int;
        &&& x.se_devindex == 0
        &&& x.se_offset as int % unit as int == 0
        &&& x.se_len as int == n * unit as int
        &&& start <= s
        &&& s + n <= v0.len()
        &&& free_run(v0, s, n)
        &&& (forall|s2: int| start <= s2 < s ==> (v0[s2] || !free_run(v0, s2, n)))
        &&& post.bitmap@ == with_range_set(v0, s, n)
        &&& post.cur_pos == (s + n) * unit as int
    })
}

/// What a failed allocation means: on exhaustion nothing changed and no
/// sufficient free run exists; a failed replay leaves the session untouched
/// and names its cause.
pub open spec fn alloc_err(
    pre: famfs_locked_log,
    post: famfs_locked_log,
    size: u64,
    e: FamfsError,
) -> bool {
    let unit = pre.alloc_unit;
    let v0 = pre.alloc_view();
    let n = units_for(size, unit);
    let start = pre.cur_pos as int / unit as int;
    &&& post.log == pre.log
    &&& post.devsize == pre.devsize
    &&& post.alloc_unit == unit
    &&& post.cur_pos == pre.cur_pos
    &&& (e is AllocationExhausted ==> post.bitmap_loaded && post.bitmap@ == v0 && (forall|s: int|
        (start <= s && s + n <= v0.len() && n >= 1) ==> !free_run(v0, s, n)))
    &&& ((e is CorruptionDetected || e is UnsupportedEntry || e is FormatError) ==> post == pre
        && !pre.bitmap_loaded)
    &&& (e is CorruptionDetected ==> !all_crc_ok(pre.log.entries@, pre.log.entries@.len() as int))
    &&& (e is UnsupportedEntry ==> !all_supported(pre.log.entries@, pre.log.entries@.len() as int))
    &&& (e is FormatError ==> (pre.spec_rbits() > pre.spec_nbits() || !all_extents_in_range(
        pre.log.entries@,
        pre.log.entries@.len() as int,
        unit,
        pre.spec_nbits(),
    )))
    &&& (e is AllocationExhausted || e is CorruptionDetected || e is UnsupportedEntry
        || e is FormatError)
}

/// What a successful `make_file` did: one new File entry, CRC-stamped and
/// sequence-stamped, whose single extent is a first-fit free range of the
/// pre-call replay view, now marked allocated, with the cursor advanced.
pub open spec fn make_file_ok(
    pre: famfs_locked_log,
    post: famfs_locked_log,
    path: Seq<u8>,
    mode_t: u32,
    uid_t: u32,
    gid_t: u32,
    size: u64,
) -> bool {
    let unit = pre.alloc_unit;
    let v0 = pre.spec_replayed();
    let n = units_for(size, unit);
    let start = pre.cur_pos as int / unit as int;
    let t = pre.log.entries@.len() as int;
    &&& path.len() <= crate::FAMFS_MAX_PATHLEN
    &&& !pre.log.spec_log_full()
    &&& post.devsize == pre.devsize
    &&& post.alloc_unit == unit
    &&& post.bitmap_loaded
    &&& post.log.entries@.len() == t + 1
    &&& post.log.entries@.drop_last() == pre.log.entries@
    &&& post.log.famfs_log_next_index == pre.log.famfs_log_next_index + 1
    &&& post.log.famfs_log_next_seqnum == pre.log.famfs_log_next_seqnum + 1
    &&& post.log.famfs_log_len == pre.log.famfs_log_len
    &&& post.log.famfs_log_last_index == pre.log.famfs_log_last_index
    &&& post.log.famfs_log_magic == pre.log.famfs_log_magic
    &&& ({
        let e = post.log.entries@.last();
        &&& e.famfs_log_entry_seqnum == pre.log.famfs_log_next_seqnum
        &&& entry_crc_ok(e)
        &&& e.famfs_log_entry_log matches LogEntry::File { file_meta } && {
            &&& file_meta.fm_size == size
            &&& file_meta.fm_flags == crate::FAMFS_FM_ALL_HOSTS_RW
            &&& file_meta.fm_uid == uid_t
            &&& file_meta.fm_gid == gid_t
            &&& file_meta.fm_mode == mode_t
            &&& file_meta.fm_relpath@ == path + zero_bytes(crate::FAMFS_MAX_PATHLEN - path.len())
            &&& file_meta.fm_fmap.ext matches Extent::Simple { extents } && extents@.len() == 1
                && ({
                let x = extents@[0];
                let s = x.se_offset as int / unit as int;
                &&& x.se_devindex == 0
                &&& x.se_offset as int % unit as int == 0
                &&& x.se_len as int == n * unit as int
                &&& start <= s
                &&& s + n <= v0.len()
                &&& free_run(v0, s, n)
                &&& (forall|s2: int| start <= s2 < s ==> (v0[s2] || !free_run(v0, s2, n)))
                &&& post.bitmap@ == with_range_set(v0, s, n)
                &&& post.cur_pos == (s + n) * unit as int
            })
        }
    })
}

/// What a failed `make_file` means: the log and cursor are untouched, and
/// the error names exactly why: an over-long path, a full log, exhausted
/// space, or a replay failure.
pub open spec fn make_file_err(
    pre: famfs_locked_log,
    post: famfs_locked_log,
    path: Seq<u8>,
    size: u64,
    e: FamfsError,
) -> bool {
    let unit = pre.alloc_unit;
    let v0 = pre.spec_replayed();
    let n = units_for(size, unit);
    let start = pre.cur_pos as int / unit as int;
    &&& post.log == pre.log
    &&& post.cur_pos == pre.cur_pos
    &&& post.devsize == pre.devsize
    &&& post.alloc_unit == unit
    &&& (e is PathTooLong <==> path.len() > crate::FAMFS_MAX_PATHLEN)
    &&& (e is LogFull <==> (path.len() <= crate::FAMFS_MAX_PATHLEN && pre.log.spec_log_full()))
    &&& (e is AllocationExhausted ==> (forall|s: int|
        (start <= s && s + n <= v0.len() && n >= 1) ==> !free_run(v0, s, n)))
    &&& (e is CorruptionDetected ==> !all_crc_ok(pre.log.entries@, pre.log.entries@.len() as int))
    &&& (e is UnsupportedEntry ==> !all_supported(pre.log.entries@, pre.log.entries@.len() as int))
    &&& (e is FormatError ==> (pre.spec_rbits() > pre.spec_nbits() || !all_extents_in_range(
        pre.log.entries@,
        pre.log.entries@.len() as int,
        unit,
        pre.spec_nbits(),
    )))
}

/// Repeated allocations never return overlapping byte ranges absent an
/// intervening free: the ranges of two successive successful allocations
/// are disjoint.
pub proof fn lemma_successive_allocs_disjoint(
    pre: famfs_locked_log,
    mid: famfs_locked_log,
    post: famfs_locked_log,
    size1: u64,
    size2: u64,
    f1: famfs_log_fmap,
    f2: famfs_log_fmap,
)
    requires
        pre.alloc_unit >= 1,
        size1 >= 1,
        size2 >= 1,
        alloc_ok(pre, mid, size1, f1),
        alloc_ok(mid, post, size2, f2),
    ensures
        f1.ext matches Extent::Simple { extents } && (f2.ext matches Extent::Simple {
            extents: extents2,
        } && ({
            let x1 = extents@[0];
            let x2 = extents2@[0];
            x1.se_offset + x1.se_len <= x2.se_offset || x2.se_offset + x2.se_len <= x1.se_offset
        })),
{
    let unit = pre.alloc_unit;
    let v0 = pre.alloc_view();
    let x1 = f1.ext->Simple_extents@[0];
    let x2 = f2.ext->Simple_extents@[0];
    let s1 = x1.se_offset as int / unit as int;
    let n1 = units_for(size1, unit);
    let s2 = x2.se_offset as int / unit as int;
    let n2 = units_for(size2, unit);
    assert(n1 >= 1 && n2 >= 1) by (nonlinear_arith)
        requires
            unit >= 1,
            size1 >= 1,
            size2 >= 1,
            n1 == (size1 - 1) as int / unit as int + 1,
            n2 == (size2 - 1) as int / unit as int + 1,
    ;
    assert(mid.alloc_view() == mid.bitmap@);
    lemma_allocations_disjoint(v0, mid.bitmap@, s1, n1, s2, n2);
    assert(x1.se_offset == s1 * unit && x2.se_offset == s2 * unit) by (nonlinear_arith)
        requires
            unit >= 1,
            x1.se_offset as int % unit as int == 0,
            x2.se_offset as int % unit as int == 0,
            s1 == x1.se_offset as int / unit as int,
            s2 == x2.se_offset as int / unit as int,
    ;
    if s1 + n1 <= s2 {
        assert((s1 + n1) * unit <= s2 * unit) by (nonlinear_arith)
            requires
                s1 + n1 <= s2,
                unit >= 1,
        ;
        assert((s1 + n1) * unit == s1 * unit + n1 * unit) by (nonlinear_arith);
    } else {
        assert((s2 + n2) * unit <= s1 * unit) by (nonlinear_arith)
            requires
                s2 + n2 <= s1,
                unit >= 1,
        ;
        assert((s2 + n2) * unit == s2 * unit + n2 * unit) by (nonlinear_arith);
    }
}

/// A file just created under a path no earlier entry matches is exactly
/// what `get_file` finds: the new entry is the first match, it resolves,
/// and any view it resolves to has the requested size as its length, a
/// cursor at the start, and the allocated extent's offset as its base.
pub proof fn lemma_make_then_get(
    pre: famfs_locked_log,
    post: famfs_locked_log,
    path: Seq<u8>,
    mode_t: u32,
    uid_t: u32,
    gid_t: u32,
    size: u64,
)
    requires
        make_file_ok(pre, post, path, mode_t, uid_t, gid_t, size),
        forall|k: int|
            0 <= k < pre.log.entries@.len() ==> !entry_matches(
                #[trigger] pre.log.entries@[k],
                path,
            ),
    ensures
        ({
            let t = pre.log.entries@.len() as int;
            let e = post.log.entries@[t];
            &&& first_match_at(post.log.entries@, path, t)
            &&& resolvable(e)
            &&& (forall|f: FamfsFile|
                #[trigger] resolves_to(e, f) ==> f.len == size && f.cur == 0 && (
                e.famfs_log_entry_log matches LogEntry::File { file_meta }
                    && (file_meta.fm_fmap.ext matches Extent::Simple { extents } && f.offset
                    == extents@[0].se_offset)))
        }),
{
    let t = pre.log.entries@.len() as int;
    let entries2 = post.log.entries@;
    let e = entries2[t];
    assert(e == entries2.last());
    let fm = e.famfs_log_entry_log->File_file_meta;
    assert(fm.fm_relpath@ == path + zero_bytes(crate::FAMFS_MAX_PATHLEN - path.len()));
    assert(fm.fm_relpath@.subrange(0, path.len() as int) =~= path);
    assert(entry_matches(e, path));
    assert forall|k: int| 0 <= k < t implies !entry_matches(#[trigger] entries2[k], path) by {
        assert(entries2.drop_last()[k] == entries2[k]);
        assert(entries2[k] == pre.log.entries@[k]);
    }
    assert(first_match_at(entries2, path, t));
}

} // verus!
