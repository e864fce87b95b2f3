//! Free/used bitmap over allocation units, with a first-fit contiguous
//! allocator.  The bitmap is derived state: it is rebuilt from the log on
//! every open and never persisted, so allocation state is always a pure
//! function of the durable log.
use crate::meta::{
    entry_crc_ok, famfs_interleaved_ext, famfs_log, famfs_log_entry, famfs_simple_extent, Extent,
    LogEntry,
};
use crate::FamfsError;
use vstd::prelude::*;

verus! {

/// Number of allocation units needed to cover `len` bytes when each unit is
/// `unit` bytes: the ceiling of `len / unit`.
pub open spec fn units_for(len: u64, unit: u64) -> int
    recommends
        unit >= 1,
{
    if len == 0 {
        0
    } else {
        (len - 1) as int / unit as int + 1
    }
}

/// Count of set bits of `v` in `[lo, hi)`.
pub open spec fn count_set(v: Seq<bool>, lo: int, hi: int) -> int
    decreases hi - lo,
{
    if lo >= hi {
        0
    } else {
        count_set(v, lo, hi - 1) + if v[hi - 1] {
            1int
        } else {
            0int
        }
    }
}

pub proof fn lemma_count_set_bounds(v: Seq<bool>, lo: int, hi: int)
    ensures
        0 <= count_set(v, lo, hi),
        lo <= hi ==> count_set(v, lo, hi) <= hi - lo,
    decreases hi - lo,
{
    if lo < hi {
        lemma_count_set_bounds(v, lo, hi - 1);
    }
}

pub proof fn lemma_count_set_split(v: Seq<bool>, lo: int, mid: int, hi: int)
    requires
        lo <= mid <= hi,
    ensures
        count_set(v, lo, hi) == count_set(v, lo, mid) + count_set(v, mid, hi),
    decreases hi - mid,
{
    if mid < hi {
        lemma_count_set_split(v, lo, mid, hi - 1);
    }
}

pub proof fn lemma_count_set_agree(v1: Seq<bool>, v2: Seq<bool>, lo: int, hi: int)
    requires
        forall|b: int| lo <= b < hi ==> v1[b] == v2[b],
    ensures
        count_set(v1, lo, hi) == count_set(v2, lo, hi),
    decreases hi - lo,
{
    if lo < hi {
        lemma_count_set_agree(v1, v2, lo, hi - 1);
    }
}

pub proof fn lemma_count_set_all_set(v: Seq<bool>, lo: int, hi: int)
    requires
        lo <= hi,
        forall|b: int| lo <= b < hi ==> v[b],
    ensures
        count_set(v, lo, hi) == hi - lo,
    decreases hi - lo,
{
    if lo < hi {
        lemma_count_set_all_set(v, lo, hi - 1);
    }
}

pub proof fn lemma_count_set_all_clear(v: Seq<bool>, lo: int, hi: int)
    requires
        forall|b: int| lo <= b < hi ==> !v[b],
    ensures
        count_set(v, lo, hi) == 0,
    decreases hi - lo,
{
    if lo < hi {
        lemma_count_set_all_clear(v, lo, hi - 1);
    }
}

/// Marking `[lo, lo + n)` raises the total count by the number of bits of
/// the range that were still clear.
pub proof fn lemma_count_with_range_set(v: Seq<bool>, lo: int, n: int, len: int)
    requires
        0 <= lo,
        0 <= n,
        lo + n <= len,
        len == v.len(),
    ensures
        count_set(with_range_set(v, lo, n), 0, len) == count_set(v, 0, len) + n - count_set(
            v,
            lo,
            lo + n,
        ),
{
    let w = with_range_set(v, lo, n);
    lemma_count_set_split(v, 0, lo, len);
    lemma_count_set_split(v, lo, lo + n, len);
    lemma_count_set_split(w, 0, lo, len);
    lemma_count_set_split(w, lo, lo + n, len);
    lemma_count_set_agree(w, v, 0, lo);
    lemma_count_set_agree(w, v, lo + n, len);
    lemma_count_set_all_set(w, lo, lo + n);
}

/// `v` with bits `[lo, lo + n)` set and every other bit unchanged.
pub open spec fn with_range_set(v: Seq<bool>, lo: int, n: int) -> Seq<bool> {
    Seq::new(v.len(), |b: int| lo <= b < lo + n || v[b])
}

/// `v` with bits `[lo, lo + n)` cleared and every other bit unchanged.
pub open spec fn with_range_clear(v: Seq<bool>, lo: int, n: int) -> Seq<bool> {
    Seq::new(v.len(), |b: int| !(lo <= b < lo + n) && v[b])
}

/// Bits `[s, s + n)` of `v` are all free.
pub open spec fn free_run(v: Seq<bool>, s: int, n: int) -> bool {
    forall|j: int| s <= j < s + n ==> !v[j]
}

/// End (exclusive, in bits) of the region an allocation may come from:
/// the whole bitmap when `range_size` is zero, otherwise `range_size` bytes
/// worth of bits starting at `start`, clamped to the bitmap.
pub open spec fn alloc_bound_end(v_len: int, start: int, range_size: u64, unit: u64) -> int {
    if range_size == 0 {
        v_len
    } else if start + units_for(range_size, unit) >= v_len {
        v_len
    } else {
        start + units_for(range_size, unit)
    }
}

/// Count of set bits over the whole sequence.
pub open spec fn total_set(v: Seq<bool>) -> int {
    count_set(v, 0, v.len() as int)
}

/// Clamp an integer into `u64` from above, as saturating accumulation does.
pub open spec fn clamp_u64(x: int) -> int {
    if x > u64::MAX {
        u64::MAX as int
    } else {
        x
    }
}

/// Bit `b` lies in the bit range covered by extent `e`.
pub open spec fn extent_covers(e: famfs_simple_extent, b: int, unit: u64) -> bool {
    e.se_offset as int / unit as int <= b < e.se_offset as int / unit as int + units_for(
        e.se_len,
        unit,
    )
}

/// Bit `b` is covered by one of the first `j` extents of `xs`.
pub open spec fn extents_cover_upto(
    xs: Seq<famfs_simple_extent>,
    j: int,
    b: int,
    unit: u64,
) -> bool {
    exists|l: int| 0 <= l < j && extent_covers(#[trigger] xs[l], b, unit)
}

/// Bit `b` is covered by a strip of one of the first `j` stripe groups.
pub open spec fn groups_cover_upto(
    gs: Seq<famfs_interleaved_ext>,
    j: int,
    b: int,
    unit: u64,
) -> bool {
    exists|l: int|
        0 <= l < j && extents_cover_upto(
            (#[trigger] gs[l]).ie_strips@,
            gs[l].ie_strips@.len() as int,
            b,
            unit,
        )
}

/// Bit `b` is covered by some extent of entry `e` (only File entries cover
/// bits).
pub open spec fn entry_covers(e: famfs_log_entry, b: int, unit: u64) -> bool {
    e.famfs_log_entry_log matches LogEntry::File { file_meta } && match file_meta.fm_fmap.ext {
        Extent::Simple { extents } => extents_cover_upto(extents@, extents@.len() as int, b, unit),
        Extent::Interleaved { groups } => groups_cover_upto(groups@, groups@.len() as int, b, unit),
    }
}

/// Bit `b` is covered by one of the first `t` log entries.
pub open spec fn log_covers(entries: Seq<famfs_log_entry>, t: int, b: int, unit: u64) -> bool {
    exists|i: int| 0 <= i < t && entry_covers(#[trigger] entries[i], b, unit)
}

/// `v` with every bit covered by the first `j` extents of `xs` also set.
pub open spec fn with_extents_marked(
    v: Seq<bool>,
    xs: Seq<famfs_simple_extent>,
    j: int,
    unit: u64,
) -> Seq<bool> {
    Seq::new(v.len(), |b: int| v[b] || extents_cover_upto(xs, j, b, unit))
}

/// `v` with every bit covered by the first `j` stripe groups also set.
pub open spec fn with_groups_marked(
    v: Seq<bool>,
    gs: Seq<famfs_interleaved_ext>,
    j: int,
    unit: u64,
) -> Seq<bool> {
    Seq::new(v.len(), |b: int| v[b] || groups_cover_upto(gs, j, b, unit))
}

/// The bitmap state after replaying the first `t` entries over `nbits` bits
/// with `rbits` reserved: a bit is set exactly when it is reserved or some
/// replayed extent covers it.
pub open spec fn replayed_view(
    entries: Seq<famfs_log_entry>,
    t: int,
    rbits: int,
    nbits: int,
    unit: u64,
) -> Seq<bool> {
    Seq::new(nbits as nat, |b: int| b < rbits || log_covers(entries, t, b, unit))
}

pub proof fn lemma_extents_cover_step(xs: Seq<famfs_simple_extent>, j: int, b: int, unit: u64)
    requires
        0 <= j < xs.len(),
    ensures
        extents_cover_upto(xs, j + 1, b, unit) <==> (extents_cover_upto(xs, j, b, unit)
            || extent_covers(xs[j], b, unit)),
{
    if extents_cover_upto(xs, j + 1, b, unit) {
        let l = choose|l: int| 0 <= l < j + 1 && extent_covers(#[trigger] xs[l], b, unit);
        if l < j {
            assert(extents_cover_upto(xs, j, b, unit));
        }
    }
    if extents_cover_upto(xs, j, b, unit) {
        let l = choose|l: int| 0 <= l < j && extent_covers(#[trigger] xs[l], b, unit);
        assert(extent_covers(xs[l], b, unit));
        assert(extents_cover_upto(xs, j + 1, b, unit));
    }
}

pub proof fn lemma_groups_cover_step(gs: Seq<famfs_interleaved_ext>, j: int, b: int, unit: u64)
    requires
        0 <= j < gs.len(),
    ensures
        groups_cover_upto(gs, j + 1, b, unit) <==> (groups_cover_upto(gs, j, b, unit)
            || extents_cover_upto(gs[j].ie_strips@, gs[j].ie_strips@.len() as int, b, unit)),
{
    if groups_cover_upto(gs, j + 1, b, unit) {
        let l = choose|l: int|
            0 <= l < j + 1 && extents_cover_upto(
                (#[trigger] gs[l]).ie_strips@,
                gs[l].ie_strips@.len() as int,
                b,
                unit,
            );
        if l < j {
            assert(groups_cover_upto(gs, j, b, unit));
        }
    }
    if groups_cover_upto(gs, j, b, unit) {
        let l = choose|l: int|
            0 <= l < j && extents_cover_upto(
                (#[trigger] gs[l]).ie_strips@,
                gs[l].ie_strips@.len() as int,
                b,
                unit,
            );
        assert(extents_cover_upto(gs[l].ie_strips@, gs[l].ie_strips@.len() as int, b, unit));
        assert(groups_cover_upto(gs, j + 1, b, unit));
    }
}

/// Rounding a byte count up to whole units does not change how many units
/// it needs.
pub proof fn lemma_units_for_rounded(size: u64, unit: u64)
    requires
        unit >= 1,
        units_for(size, unit) * unit <= u64::MAX,
    ensures
        units_for((units_for(size, unit) * unit) as u64, unit) == units_for(size, unit),
{
    let n = units_for(size, unit);
    if size != 0 {
        assert(n >= 1) by (nonlinear_arith)
            requires
                n == (size - 1) as int / unit as int + 1,
                size >= 1,
                unit >= 1,
        ;
        assert(n * unit >= 1) by (nonlinear_arith)
            requires
                n >= 1,
                unit >= 1,
        ;
        assert((n * unit - 1) as int / unit as int == n - 1) by (nonlinear_arith)
            requires
                n >= 1,
                unit >= 1,
        ;
    }
}

/// Two entry sequences equal on their first `t` entries cover the same bits
/// there.
pub proof fn lemma_log_covers_same_prefix(
    a: Seq<famfs_log_entry>,
    c: Seq<famfs_log_entry>,
    t: int,
    bit: int,
    unit: u64,
)
    requires
        forall|i: int| 0 <= i < t ==> a[i] == c[i],
    ensures
        log_covers(a, t, bit, unit) == log_covers(c, t, bit, unit),
{
    if log_covers(a, t, bit, unit) {
        let i = choose|i: int| 0 <= i < t && entry_covers(#[trigger] a[i], bit, unit);
        assert(entry_covers(c[i], bit, unit));
        assert(log_covers(c, t, bit, unit));
    }
    if log_covers(c, t, bit, unit) {
        let i = choose|i: int| 0 <= i < t && entry_covers(#[trigger] c[i], bit, unit);
        assert(entry_covers(a[i], bit, unit));
        assert(log_covers(a, t, bit, unit));
    }
}

pub proof fn lemma_log_covers_step(entries: Seq<famfs_log_entry>, t: int, b: int, unit: u64)
    requires
        0 <= t < entries.len(),
    ensures
        log_covers(entries, t + 1, b, unit) <==> (log_covers(entries, t, b, unit) || entry_covers(
            entries[t],
            b,
            unit,
        )),
{
    if log_covers(entries, t + 1, b, unit) {
        let i = choose|i: int| 0 <= i < t + 1 && entry_covers(#[trigger] entries[i], b, unit);
        if i < t {
            assert(log_covers(entries, t, b, unit));
        }
    }
    if log_covers(entries, t, b, unit) {
        let i = choose|i: int| 0 <= i < t && entry_covers(#[trigger] entries[i], b, unit);
        assert(entry_covers(entries[i], b, unit));
        assert(log_covers(entries, t + 1, b, unit));
    }
    if entry_covers(entries[t], b, unit) {
        assert(log_covers(entries, t + 1, b, unit));
    }
}

/// Total allocation units spanned by the extents of `xs`, in order.
pub open spec fn sum_extent_units(s: Seq<famfs_simple_extent>, unit: u64) -> int
    decreases s.len(),
{
    if s.len() == 0 {
        0
    } else {
        sum_extent_units(s.drop_last(), unit) + units_for(s.last().se_len, unit)
    }
}

/// Total allocation units spanned by the strips of the groups of `s`.
pub open spec fn sum_group_units(s: Seq<famfs_interleaved_ext>, unit: u64) -> int
    decreases s.len(),
{
    if s.len() == 0 {
        0
    } else {
        sum_group_units(s.drop_last(), unit) + sum_extent_units(s.last().ie_strips@, unit)
    }
}

/// Total allocation units that replaying entry `e` attempts to mark.
pub open spec fn entry_units(e: famfs_log_entry, unit: u64) -> int {
    match e.famfs_log_entry_log {
        LogEntry::File { file_meta } => match file_meta.fm_fmap.ext {
            Extent::Simple { extents } => sum_extent_units(extents@, unit),
            Extent::Interleaved { groups } => sum_group_units(groups@, unit),
        },
        _ => 0,
    }
}

/// Total allocation units that replaying the first `t` entries attempts to
/// mark.
pub open spec fn log_units(entries: Seq<famfs_log_entry>, t: int, unit: u64) -> int
    decreases t,
{
    if t <= 0 {
        0
    } else {
        log_units(entries, t - 1, unit) + entry_units(entries[t - 1], unit)
    }
}

pub proof fn lemma_sum_extent_units_prefix(s: Seq<famfs_simple_extent>, j: int, unit: u64)
    requires
        0 <= j < s.len(),
    ensures
        sum_extent_units(s.subrange(0, j + 1), unit) == sum_extent_units(s.subrange(0, j), unit)
            + units_for(s[j].se_len, unit),
{
    assert(s.subrange(0, j + 1).drop_last() =~= s.subrange(0, j));
    assert(s.subrange(0, j + 1).last() == s[j]);
}

pub proof fn lemma_sum_group_units_prefix(s: Seq<famfs_interleaved_ext>, j: int, unit: u64)
    requires
        0 <= j < s.len(),
    ensures
        sum_group_units(s.subrange(0, j + 1), unit) == sum_group_units(s.subrange(0, j), unit)
            + sum_extent_units(s[j].ie_strips@, unit),
{
    assert(s.subrange(0, j + 1).drop_last() =~= s.subrange(0, j));
    assert(s.subrange(0, j + 1).last() == s[j]);
}

/// Extent `e`'s bit range lies within a bitmap of `nbits` bits.
pub open spec fn extent_in_range(e: famfs_simple_extent, unit: u64, nbits: int) -> bool {
    e.se_offset as int / unit as int + units_for(e.se_len, unit) <= nbits
}

/// Every extent of `xs` lies within a bitmap of `nbits` bits.
pub open spec fn list_extents_in_range(
    xs: Seq<famfs_simple_extent>,
    unit: u64,
    nbits: int,
) -> bool {
    forall|l: int| 0 <= l < xs.len() ==> extent_in_range(#[trigger] xs[l], unit, nbits)
}

/// Every extent of entry `e` lies within a bitmap of `nbits` bits.
pub open spec fn entry_extents_in_range(e: famfs_log_entry, unit: u64, nbits: int) -> bool {
    match e.famfs_log_entry_log {
        LogEntry::File { file_meta } => match file_meta.fm_fmap.ext {
            Extent::Simple { extents } => list_extents_in_range(extents@, unit, nbits),
            Extent::Interleaved { groups } => forall|g: int|
                0 <= g < groups@.len() ==> list_extents_in_range(
                    (#[trigger] groups@[g]).ie_strips@,
                    unit,
                    nbits,
                ),
        },
        _ => true,
    }
}

/// Every extent of the first `t` entries lies within `nbits` bits.
pub open spec fn all_extents_in_range(
    entries: Seq<famfs_log_entry>,
    t: int,
    unit: u64,
    nbits: int,
) -> bool {
    forall|i: int| 0 <= i < t ==> entry_extents_in_range(#[trigger] entries[i], unit, nbits)
}

/// Every one of the first `t` entries' stored CRCs matches its span.
pub open spec fn all_crc_ok(entries: Seq<famfs_log_entry>, t: int) -> bool {
    forall|i: int| 0 <= i < t ==> entry_crc_ok(#[trigger] entries[i])
}

/// Entry `e` is of a kind the replay supports: File or MakeDir.
pub open spec fn entry_supported(e: famfs_log_entry) -> bool {
    match e.famfs_log_entry_log {
        LogEntry::File { .. } => true,
        LogEntry::MakeDir { .. } => true,
        LogEntry::Delete => false,
        LogEntry::Invalid => false,
    }
}

/// Every one of the first `t` entries is of a supported kind.
pub open spec fn all_supported(entries: Seq<famfs_log_entry>, t: int) -> bool {
    forall|i: int| 0 <= i < t ==> entry_supported(#[trigger] entries[i])
}

/// Ceiling division of `len` by `unit`, in executable form.
fn units_of(len: u64, unit: u64) -> (r: u64)
    requires
        unit >= 1,
    ensures
        r as int == units_for(len, unit),
{
    if len == 0 {
        0
    } else {
        proof {
            assert((len - 1) as u64 / unit <= (len - 1) as u64) by (nonlinear_arith)
                requires
                    unit >= 1,
            ;
        }
        (len - 1) / unit + 1
    }
}

/// Whether extent `e`'s bit range fits a bitmap of `nbits` bits.
fn extent_fits(e: famfs_simple_extent, unit: u64, nbits: u64) -> (r: bool)
    requires
        unit >= 1,
    ensures
        r == extent_in_range(e, unit, nbits as int),
{
    let page: u64 = e.se_offset / unit;
    let np: u64 = units_of(e.se_len, unit);
    np <= nbits && page <= nbits - np
}

/// Whether every extent of `xs` fits a bitmap of `nbits` bits.
#[verifier::loop_isolation(false)]
fn check_extents_fit(xs: &Vec<famfs_simple_extent>, unit: u64, nbits: u64) -> (r: bool)
    requires
        unit >= 1,
    ensures
        r == list_extents_in_range(xs@, unit, nbits as int),
{
    let m: usize = xs.len();
    let mut j: usize = 0;
    while j < m
        invariant
            j <= m,
            forall|l: int| 0 <= l < j ==> extent_in_range(#[trigger] xs@[l], unit, nbits as int),
        decreases m - j,
    {
        if !extent_fits(xs[j], unit, nbits) {
            assert(!list_extents_in_range(xs@, unit, nbits as int));
            return false;
        }
        j = j + 1;
    }
    true
}

/// One bit per allocation unit across the device; a set bit means the unit
/// is allocated.
pub struct Bitmap {
    backing: Vec<bool>,
    alloc_unit: u64,
}

impl View for Bitmap {
    type V = Seq<bool>;

    closed spec fn view(&self) -> Seq<bool> {
        self.backing@
    }
}

impl Bitmap {
    /// The allocation unit in bytes; one bit covers this many bytes.
    pub closed spec fn spec_alloc_unit(&self) -> u64 {
        self.alloc_unit
    }

    /// Well-formed: the allocation unit is positive.
    pub open spec fn wf(&self) -> bool {
        self.spec_alloc_unit() >= 1
    }

    /// An all-free bitmap of `nbits` bits.
    pub fn new(nbits: usize, alloc_unit: u64) -> (bm: Bitmap)
        requires
            alloc_unit >= 1,
        ensures
            bm.wf(),
            bm.spec_alloc_unit() == alloc_unit,
            bm@.len() == nbits,
            forall|b: int| 0 <= b < nbits ==> !bm@[b],
    {
        let mut backing: Vec<bool> = Vec::new();
        let mut k: usize = 0;
        while k < nbits
            invariant
                k <= nbits,
                backing@.len() == k,
                forall|b: int| 0 <= b < k ==> !backing@[b],
            decreases nbits - k,
        {
            backing.push(false);
            k = k + 1;
        }
        Bitmap { backing, alloc_unit }
    }

    /// Number of bits in the bitmap.
    pub fn len(&self) -> (n: u64)
        ensures
            n == self@.len(),
    {
        self.backing.len() as u64
    }

    /// The allocation unit in bytes.
    pub fn alloc_unit(&self) -> (u: u64)
        ensures
            u == self.spec_alloc_unit(),
    {
        self.alloc_unit
    }

    /// Mark bit `index` allocated.
    pub fn set(&mut self, index: u64)
        requires
            index < old(self)@.len(),
        ensures
            final(self)@ == old(self)@.update(index as int, true),
            final(self).spec_alloc_unit() == old(self).spec_alloc_unit(),
    {
        let n: usize = self.backing.len();
        let i: usize = index as usize;
        self.backing.set(i, true);
    }

    /// Whether bit `index` is allocated.
    pub fn test(&self, index: u64) -> (r: bool)
        requires
            index < self@.len(),
        ensures
            r == self@[index as int],
    {
        let n: usize = self.backing.len();
        let i: usize = index as usize;
        self.backing[i]
    }

    /// Set bit `index`; return true if it was newly claimed, false if it was
    /// already allocated.
    pub fn test_and_set(&mut self, index: u64) -> (newly: bool)
        requires
            index < old(self)@.len(),
        ensures
            final(self)@ == old(self)@.update(index as int, true),
            newly == !old(self)@[index as int],
            final(self).spec_alloc_unit() == old(self).spec_alloc_unit(),
    {
        let n: usize = self.backing.len();
        let i: usize = index as usize;
        if self.backing[i] {
            proof {
                assert(self@ =~= old(self)@.update(index as int, true));
            }
            return false;
        }
        self.backing.set(i, true);
        true
    }

    /// Clear bit `index`; return true if it was set, false if it was already
    /// clear.
    pub fn test_and_clear(&mut self, index: u64) -> (was_set: bool)
        requires
            index < old(self)@.len(),
        ensures
            final(self)@ == old(self)@.update(index as int, false),
            was_set == old(self)@[index as int],
            final(self).spec_alloc_unit() == old(self).spec_alloc_unit(),
    {
        let n: usize = self.backing.len();
        let i: usize = index as usize;
        if !self.backing[i] {
            proof {
                assert(self@ =~= old(self)@.update(index as int, false));
            }
            return false;
        }
        self.backing.set(i, false);
        true
    }

    /// Mark the bit range covering the byte range `[offset, offset + len)`
    /// allocated.  Marking an already-set bit counts as one overlap error;
    /// `alloc_sum` accumulates the bytes newly claimed.  Returns the number
    /// of overlap errors.
    #[verifier::loop_isolation(false)]
    pub fn set_extent(&mut self, offset: u64, len: u64, alloc_sum: &mut u64) -> (errors: u64)
        requires
            old(self).wf(),
            offset as int / old(self).spec_alloc_unit() as int + units_for(
                len,
                old(self).spec_alloc_unit(),
            ) <= old(self)@.len(),
            ({
                let unit = old(self).spec_alloc_unit();
                let lo = offset as int / unit as int;
                let n = units_for(len, unit);
                *old(alloc_sum) + (n - count_set(old(self)@, lo, lo + n)) * unit as int
                    <= u64::MAX
            }),
        ensures
            ({
                let unit = old(self).spec_alloc_unit();
                let lo = offset as int / unit as int;
                let n = units_for(len, unit);
                &&& final(self)@ == with_range_set(old(self)@, lo, n)
                &&& final(self).spec_alloc_unit() == unit
                &&& errors == count_set(old(self)@, lo, lo + n)
                &&& *final(alloc_sum) == *old(alloc_sum) + (n - count_set(old(self)@, lo, lo + n))
                    * unit as int
            }),
    {
        let unit: u64 = self.alloc_unit;
        let nb: u64 = self.backing.len() as u64;
        let page_num: u64 = offset / unit;
        let np: u64 = if len == 0 {
            0
        } else {
            (len - 1) / unit + 1
        };
        let end: u64 = page_num + np;
        let ghost v0 = self@;
        let ghost sum0 = *alloc_sum;
        let ghost ctotal = count_set(v0, page_num as int, end as int);
        proof {
            lemma_count_set_bounds(v0, page_num as int, end as int);
        }
        let mut errors: u64 = 0;
        let mut k: u64 = page_num;
        while k < end
            invariant
                page_num <= k <= end,
                self@.len() == v0.len(),
                self.spec_alloc_unit() == unit,
                self@ == with_range_set(v0, page_num as int, k - page_num),
                errors == count_set(v0, page_num as int, k as int),
                *alloc_sum == sum0 + ((k - page_num) - count_set(v0, page_num as int, k as int))
                    * unit as int,
            decreases end - k,
        {
            proof {
                lemma_count_set_bounds(v0, page_num as int, k as int);
                assert(self@[k as int] == v0[k as int]);
            }
            let ghost c = count_set(v0, page_num as int, k as int);
            let newly = self.test_and_set(k);
            proof {
                assert(self@ =~= with_range_set(v0, page_num as int, k + 1 - page_num));
                assert(count_set(v0, page_num as int, k as int + 1) == c + if v0[k as int] {
                    1int
                } else {
                    0int
                });
                assert(((k - page_num) - c) * unit as int + unit as int == ((k + 1 - page_num) - c)
                    * unit as int) by (nonlinear_arith);
                if !v0[k as int] {
                    lemma_count_set_split(v0, page_num as int, k as int + 1, end as int);
                    lemma_count_set_bounds(v0, k as int + 1, end as int);
                    assert(sum0 + ((k + 1 - page_num) - (c + 0)) * unit as int <= sum0 + (np
                        - ctotal) * unit as int) by (nonlinear_arith)
                        requires
                            (k + 1 - page_num) - c <= np - ctotal,
                            unit >= 1,
                    ;
                }
            }
            if newly {
                *alloc_sum = *alloc_sum + unit;
            } else {
                errors = errors + 1;
            }
            k = k + 1;
        }
        errors
    }

    /// Pre-mark the reserved metadata region (superblock plus log) at the
    /// start of the device.
    pub fn insert_meta_files(&mut self, log_len: u64, alloc_sum: &mut u64) -> (errors: u64)
        requires
            old(self).wf(),
            log_len + crate::FAMFS_SUPERBLOCK_SIZE <= u64::MAX,
            units_for((crate::FAMFS_SUPERBLOCK_SIZE + log_len) as u64, old(self).spec_alloc_unit())
                <= old(self)@.len(),
            ({
                let unit = old(self).spec_alloc_unit();
                let n = units_for((crate::FAMFS_SUPERBLOCK_SIZE + log_len) as u64, unit);
                *old(alloc_sum) + (n - count_set(old(self)@, 0, n)) * unit as int <= u64::MAX
            }),
        ensures
            ({
                let unit = old(self).spec_alloc_unit();
                let n = units_for((crate::FAMFS_SUPERBLOCK_SIZE + log_len) as u64, unit);
                &&& final(self)@ == with_range_set(old(self)@, 0, n)
                &&& final(self).spec_alloc_unit() == unit
                &&& errors == count_set(old(self)@, 0, n)
                &&& *final(alloc_sum) == *old(alloc_sum) + (n - count_set(old(self)@, 0, n))
                    * unit as int
            }),
    {
        self.set_extent(0, crate::FAMFS_SUPERBLOCK_SIZE + log_len, alloc_sum)
    }

    /// Whether bits `[lo, lo + n)` are all free.
    #[verifier::loop_isolation(false)]
    fn run_is_free(&self, lo: u64, n: u64) -> (r: bool)
        requires
            lo + n <= self@.len(),
        ensures
            r == free_run(self@, lo as int, n as int),
    {
        let nb: u64 = self.backing.len() as u64;
        let end: u64 = lo + n;
        let mut j: u64 = lo;
        while j < end
            invariant
                lo <= j <= end,
                forall|k: int| lo <= k < j ==> !self@[k],
            decreases end - j,
        {
            if self.test(j) {
                assert(!free_run(self@, lo as int, n as int));
                return false;
            }
            j = j + 1;
        }
        true
    }

    /// Set bits `[lo, lo + n)`.
    #[verifier::loop_isolation(false)]
    fn set_range(&mut self, lo: u64, n: u64)
        requires
            lo + n <= old(self)@.len(),
        ensures
            final(self)@ == with_range_set(old(self)@, lo as int, n as int),
            final(self).spec_alloc_unit() == old(self).spec_alloc_unit(),
    {
        let nb: u64 = self.backing.len() as u64;
        let end: u64 = lo + n;
        let ghost v0 = self@;
        let mut j: u64 = lo;
        while j < end
            invariant
                lo <= j <= end,
                self.spec_alloc_unit() == old(self).spec_alloc_unit(),
                self@ == with_range_set(v0, lo as int, j - lo),
            decreases end - j,
        {
            self.set(j);
            proof {
                assert(self@ =~= with_range_set(v0, lo as int, j + 1 - lo));
            }
            j = j + 1;
        }
    }

    /// First-fit contiguous allocation of `alloc_size` bytes.
    ///
    /// The search starts at the bit covering `*cur_pos` and is bounded by
    /// `range_size` bytes from there (`range_size == 0` means the whole
    /// bitmap).  On success the chosen bit range is marked allocated, the
    /// cursor advances just past it, and the byte offset of the range's
    /// start is returned.  There is no wraparound: if the first free bit
    /// leaves too little room before the bound, allocation fails.
    #[verifier::loop_isolation(false)]
    pub fn alloc_contiguous(&mut self, alloc_size: u64, cur_pos: &mut u64, range_size: u64) -> (r:
        Option<u64>)
        requires
            old(self).wf(),
            old(self)@.len() * old(self).spec_alloc_unit() as int <= u64::MAX,
        ensures
            final(self).spec_alloc_unit() == old(self).spec_alloc_unit(),
            final(self).wf(),
            final(self)@.len() == old(self)@.len(),
            ({
                let unit = old(self).spec_alloc_unit();
                let v0 = old(self)@;
                let start = *old(cur_pos) as int / unit as int;
                let n = units_for(alloc_size, unit);
                let bound_end = alloc_bound_end(v0.len() as int, start, range_size, unit);
                match r {
                    Some(off) => {
                        let s = off as int / unit as int;
                        &&& off as int % unit as int == 0
                        &&& start <= s
                        &&& s + n <= bound_end
                        &&& free_run(v0, s, n)
                        &&& (forall|s2: int| start <= s2 < s ==> (v0[s2] || !free_run(v0, s2, n)))
                        &&& final(self)@ == with_range_set(v0, s, n)
                        &&& *final(cur_pos) == (s + n) * unit as int
                    },
                    None => {
                        &&& final(self)@ == v0
                        &&& *final(cur_pos) == *old(cur_pos)
                        &&& (forall|s: int|
                            (start <= s && s + n <= bound_end && n >= 1) ==> !free_run(v0, s, n))
                    },
                }
            }),
    {
        let unit: u64 = self.alloc_unit;
        let nbits: u64 = self.backing.len() as u64;
        let alloc_bits: u64 = if alloc_size == 0 {
            0
        } else {
            (alloc_size - 1) / unit + 1
        };
        let start_index: u64 = *cur_pos / unit;
        let bound_end: u64 = if range_size == 0 {
            nbits
        } else {
            let rb: u64 = (range_size - 1) / unit + 1;
            if start_index >= nbits || rb >= nbits - start_index {
                nbits
            } else {
                start_index + rb
            }
        };
        let ghost v0 = self@;
        let mut i: u64 = start_index;
        while i < nbits
            invariant
                self@ == v0,
                self.spec_alloc_unit() == unit,
                *cur_pos == *old(cur_pos),
                start_index <= i,
                forall|s2: int|
                    start_index <= s2 < i ==> (v0[s2] || !free_run(v0, s2, alloc_bits as int)),
            decreases nbits - i,
        {
            if !self.test(i) {
                if i > bound_end || alloc_bits > bound_end - i {
                    proof {
                        assert forall|s: int|
                            start_index <= s && s + alloc_bits <= bound_end && alloc_bits
                                >= 1 implies !free_run(v0, s, alloc_bits as int) by {
                            if s < i {
                                if v0[s] && free_run(v0, s, alloc_bits as int) {
                                    assert(!v0[s]);
                                }
                            }
                        }
                    }
                    return None;
                }
                if self.run_is_free(i, alloc_bits) {
                    proof {
                        assert(i * unit <= nbits * unit && (i + alloc_bits) * unit <= nbits * unit)
                            by (nonlinear_arith)
                            requires
                                i + alloc_bits <= nbits,
                                unit >= 1,
                        ;
                        assert((i * unit) as int % unit as int == 0 && (i * unit) as int
                            / unit as int == i as int) by (nonlinear_arith)
                            requires
                                unit >= 1,
                        ;
                    }
                    self.set_range(i, alloc_bits);
                    *cur_pos = (i + alloc_bits) * unit;
                    return Some(i * unit);
                }
                assert(!free_run(v0, i as int, alloc_bits as int));
            }
            i = i + 1;
        }
        proof {
            assert forall|s: int|
                start_index <= s && s + alloc_bits <= bound_end && alloc_bits >= 1 implies
                !free_run(v0, s, alloc_bits as int) by {
                if v0[s] && free_run(v0, s, alloc_bits as int) {
                    assert(!v0[s]);
                }
            }
        }
        None
    }

    /// Free the bit range covering the byte range `[offset, offset + len)`.
    /// Every bit in the range must currently be allocated.
    #[verifier::loop_isolation(false)]
    pub fn free_contiguous(&mut self, offset: u64, len: u64)
        requires
            old(self).wf(),
            ({
                let unit = old(self).spec_alloc_unit();
                let lo = offset as int / unit as int;
                let n = units_for(len, unit);
                &&& lo + n <= old(self)@.len()
                &&& (forall|b: int| lo <= b < lo + n ==> old(self)@[b])
            }),
        ensures
            ({
                let unit = old(self).spec_alloc_unit();
                let lo = offset as int / unit as int;
                let n = units_for(len, unit);
                &&& final(self)@ == with_range_clear(old(self)@, lo, n)
                &&& final(self).spec_alloc_unit() == unit
            }),
    {
        let unit: u64 = self.alloc_unit;
        let nb: u64 = self.backing.len() as u64;
        let start_bit: u64 = offset / unit;
        let nbits_free: u64 = if len == 0 {
            0
        } else {
            (len - 1) / unit + 1
        };
        let end: u64 = start_bit + nbits_free;
        let ghost v0 = self@;
        let mut i: u64 = start_bit;
        while i < end
            invariant
                start_bit <= i <= end,
                self.spec_alloc_unit() == unit,
                self@ == with_range_clear(v0, start_bit as int, i - start_bit),
            decreases end - i,
        {
            let was_set = self.test_and_clear(i);
            proof {
                assert(self@ =~= with_range_clear(v0, start_bit as int, i + 1 - start_bit));
            }
            i = i + 1;
        }
    }

    /// Mark every extent of `xs`, accumulating newly claimed bytes into
    /// `alloc_sum` (which must equal the bytes the set bits stand for) and
    /// returning the overlap-error count, saturated at `u64::MAX`.
    #[verifier::loop_isolation(false)]
    fn mark_extents(&mut self, xs: &Vec<famfs_simple_extent>, alloc_sum: &mut u64) -> (rc: u64)
        requires
            old(self).wf(),
            old(self)@.len() * old(self).spec_alloc_unit() as int <= u64::MAX,
            list_extents_in_range(xs@, old(self).spec_alloc_unit(), old(self)@.len() as int),
            *old(alloc_sum) == total_set(old(self)@) * old(self).spec_alloc_unit() as int,
        ensures
            final(self).wf(),
            final(self).spec_alloc_unit() == old(self).spec_alloc_unit(),
            final(self)@ == with_extents_marked(
                old(self)@,
                xs@,
                xs@.len() as int,
                old(self).spec_alloc_unit(),
            ),
            *final(alloc_sum) == total_set(final(self)@) * old(self).spec_alloc_unit() as int,
            rc as int == clamp_u64(
                sum_extent_units(xs@, old(self).spec_alloc_unit()) - (total_set(final(self)@)
                    - total_set(old(self)@)),
            ),
    {
        let unit: u64 = self.alloc_unit;
        let ghost v0 = self@;
        let m: usize = xs.len();
        let mut rc: u64 = 0;
        let mut j: usize = 0;
        while j < m
            invariant
                j <= m,
                self.wf(),
                self.spec_alloc_unit() == unit,
                self@.len() == v0.len(),
                self@ == with_extents_marked(v0, xs@, j as int, unit),
                *alloc_sum == total_set(self@) * unit as int,
                rc as int == clamp_u64(
                    sum_extent_units(xs@.subrange(0, j as int), unit) - (total_set(self@)
                        - total_set(v0)),
                ),
            decreases m - j,
        {
            let x = xs[j];
            let ghost vpre = self@;
            let ghost lo = x.se_offset as int / unit as int;
            let ghost n = units_for(x.se_len, unit);
            proof {
                assert(extent_in_range(xs@[j as int], unit, v0.len() as int));
                lemma_count_with_range_set(vpre, lo, n, vpre.len() as int);
                lemma_count_set_bounds(vpre, lo, lo + n);
                lemma_count_set_bounds(with_range_set(vpre, lo, n), 0, vpre.len() as int);
                lemma_count_set_bounds(vpre, 0, vpre.len() as int);
                assert(total_set(vpre) * unit as int + (n - count_set(vpre, lo, lo + n))
                    * unit as int == (total_set(vpre) + n - count_set(vpre, lo, lo + n))
                    * unit as int) by (nonlinear_arith);
                assert((total_set(vpre) + n - count_set(vpre, lo, lo + n)) * unit as int <= v0.len()
                    * unit as int) by (nonlinear_arith)
                    requires
                        total_set(vpre) + n - count_set(vpre, lo, lo + n) <= v0.len() as int,
                        unit >= 1,
                ;
            }
            let erc = self.set_extent(x.se_offset, x.se_len, alloc_sum);
            proof {
                lemma_sum_extent_units_prefix(xs@, j as int, unit);
                assert(total_set(self@) * unit as int == (total_set(vpre) + n - count_set(
                    vpre,
                    lo,
                    lo + n,
                )) * unit as int) by (nonlinear_arith)
                    requires
                        total_set(self@) == total_set(vpre) + n - count_set(vpre, lo, lo + n),
                ;
            }
            if erc > u64::MAX - rc {
                rc = u64::MAX;
            } else {
                rc = rc + erc;
            }
            proof {
                let vnext = with_extents_marked(v0, xs@, j + 1, unit);
                assert forall|b: int| 0 <= b < v0.len() implies self@[b] == vnext[b] by {
                    lemma_extents_cover_step(xs@, j as int, b, unit);
                    assert(extent_covers(xs@[j as int], b, unit) == (lo <= b < lo + n));
                }
                assert(self@ =~= vnext);
            }
            j = j + 1;
        }
        proof {
            assert(xs@.subrange(0, m as int) =~= xs@);
        }
        rc
    }
    /// Build the bitmap for a device of `dev_size_in` bytes by replaying
    /// `log`: pre-mark the reserved metadata region (superblock plus log),
    /// then mark every File entry's extents in log order.  Returns the
    /// bitmap together with the overlap-error count: the number of
    /// allocation units marked more than once, saturated at `u64::MAX`,
    /// which equals the units attempted minus the bits set.  Fails on a
    /// CRC-corrupt entry, on a Delete or Invalid entry, and on an extent
    /// that lies outside the device.
    #[verifier::rlimit(100)]
    #[verifier::loop_isolation(false)]
    pub fn build_bitmap(log: &famfs_log, alloc_unit: u64, dev_size_in: u64) -> (r: Result<
        (Bitmap, u64),
        FamfsError,
    >)
        requires
            log.wf(),
            alloc_unit >= 1,
            units_for(dev_size_in, alloc_unit) <= usize::MAX,
            units_for(dev_size_in, alloc_unit) * alloc_unit as int <= u64::MAX,
            crate::FAMFS_SUPERBLOCK_SIZE + log.famfs_log_len <= u64::MAX,
        ensures
            ({
                let entries = log.entries@;
                let t = entries.len() as int;
                let nbits = units_for(dev_size_in, alloc_unit);
                let reserved = units_for(
                    (crate::FAMFS_SUPERBLOCK_SIZE + log.famfs_log_len) as u64,
                    alloc_unit,
                );
                let ok_cond = reserved <= nbits && all_crc_ok(entries, t) && all_supported(
                    entries,
                    t,
                ) && all_extents_in_range(entries, t, alloc_unit, nbits);
                match r {
                    Ok(pair) => {
                        &&& ok_cond
                        &&& pair.0.wf()
                        &&& pair.0.spec_alloc_unit() == alloc_unit
                        &&& pair.0@ == replayed_view(entries, t, reserved, nbits, alloc_unit)
                        &&& pair.1 as int == clamp_u64(
                            reserved + log_units(entries, t, alloc_unit) - total_set(pair.0@),
                        )
                    },
                    Err(e) => {
                        &&& !ok_cond
                        &&& (e is CorruptionDetected ==> !all_crc_ok(entries, t))
                        &&& (e is UnsupportedEntry ==> !all_supported(entries, t))
                        &&& (e is FormatError ==> (reserved > nbits || !all_extents_in_range(
                            entries,
                            t,
                            alloc_unit,
                            nbits,
                        )))
                        &&& (e is CorruptionDetected || e is UnsupportedEntry || e is FormatError)
                    },
                }
            }),
    {
        let unit: u64 = alloc_unit;
        let nbits64: u64 = units_of(dev_size_in, unit);
        let nbits: usize = nbits64 as usize;
        let reserved_bytes: u64 = crate::FAMFS_SUPERBLOCK_SIZE + log.byte_len();
        let rbits: u64 = units_of(reserved_bytes, unit);
        let ghost entries = log.entries@;
        if rbits > nbits64 {
            return Err(FamfsError::FormatError);
        }
        let n_entries: usize = log.entries.len();

        // Every entry must self-validate before its contents are trusted.
        let mut t: usize = 0;
        while t < n_entries
            invariant
                t <= n_entries,
                all_crc_ok(entries, t as int),
            decreases n_entries - t,
        {
            let e = log.get_entry_ref(t);
            if !e.check_crc() {
                assert(!entry_crc_ok(entries[t as int]));
                return Err(FamfsError::CorruptionDetected);
            }
            t = t + 1;
        }

        // Delete and Invalid entries are format violations for this replay.
        let mut t: usize = 0;
        while t < n_entries
            invariant
                t <= n_entries,
                all_supported(entries, t as int),
            decreases n_entries - t,
        {
            let e = log.get_entry_ref(t);
            match e.get_entry_type() {
                LogEntry::File { .. } => (),
                LogEntry::MakeDir { .. } => (),
                LogEntry::Delete => {
                    assert(!entry_supported(entries[t as int]));
                    return Err(FamfsError::UnsupportedEntry);
                },
                LogEntry::Invalid => {
                    assert(!entry_supported(entries[t as int]));
                    return Err(FamfsError::UnsupportedEntry);
                },
            }
            t = t + 1;
        }

        // Every extent must lie within the device.
        let mut t: usize = 0;
        while t < n_entries
            invariant
                t <= n_entries,
                all_extents_in_range(entries, t as int, unit, nbits64 as int),
            decreases n_entries - t,
        {
            let e = log.get_entry_ref(t);
            match e.get_entry_type() {
                LogEntry::File { file_meta } => {
                    match file_meta.get_extent() {
                        Extent::Simple { extents } => {
                            if !check_extents_fit(extents, unit, nbits64) {
                                assert(!entry_extents_in_range(
                                    entries[t as int],
                                    unit,
                                    nbits64 as int,
                                ));
                                return Err(FamfsError::FormatError);
                            }
                        },
                        Extent::Interleaved { groups } => {
                            let ng: usize = groups.len();
                            let mut g: usize = 0;
                            while g < ng
                                invariant
                                    g <= ng,
                                    forall|l: int|
                                        0 <= l < g ==> list_extents_in_range(
                                            (#[trigger] groups@[l]).ie_strips@,
                                            unit,
                                            nbits64 as int,
                                        ),
                                decreases ng - g,
                            {
                                if !check_extents_fit(&groups[g].ie_strips, unit, nbits64) {
                                    assert(!entry_extents_in_range(
                                        entries[t as int],
                                        unit,
                                        nbits64 as int,
                                    ));
                                    return Err(FamfsError::FormatError);
                                }
                                g = g + 1;
                            }
                        },
                    }
                    assert(entry_extents_in_range(entries[t as int], unit, nbits64 as int));
                },
                _ => (),
            }
            t = t + 1;
        }

        // Replay: reserved region first, then each File entry's extents in
        // log order.
        let mut bm = Bitmap::new(nbits, unit);
        let mut alloc_sum: u64 = 0;
        let mut errs: u64 = 0;
        proof {
            lemma_count_set_all_clear(bm@, 0, nbits64 as int);
            lemma_count_with_range_set(bm@, 0, rbits as int, nbits64 as int);
            lemma_count_set_all_clear(bm@, 0, rbits as int);
            assert(rbits * unit <= nbits64 * unit) by (nonlinear_arith)
                requires
                    rbits <= nbits64,
                    unit >= 1,
            ;
        }
        let rc0 = bm.insert_meta_files(log.byte_len(), &mut alloc_sum);
        proof {
            lemma_count_set_bounds(bm@, 0, nbits64 as int);
            assert(bm@ =~= replayed_view(entries, 0, rbits as int, nbits64 as int, unit));
        }
        let mut t: usize = 0;
        while t < n_entries
            invariant
                t <= n_entries,
                bm.wf(),
                bm.spec_alloc_unit() == unit,
                bm@.len() == nbits64,
                bm@ == replayed_view(entries, t as int, rbits as int, nbits64 as int, unit),
                alloc_sum as int == total_set(bm@) * unit as int,
                errs as int == clamp_u64(
                    rbits + log_units(entries, t as int, unit) - total_set(bm@),
                ),
                rbits + log_units(entries, t as int, unit) - total_set(bm@) >= 0,
            decreases n_entries - t,
        {
            let e = log.get_entry_ref(t);
            let ghost vpre = bm@;
            let ghost true_pre = rbits + log_units(entries, t as int, unit) - total_set(vpre);
            match e.get_entry_type() {
                LogEntry::File { file_meta } => {
                    match file_meta.get_extent() {
                        Extent::Simple { extents } => {
                            let erc = bm.mark_extents(extents, &mut alloc_sum);
                            if erc > u64::MAX - errs {
                                errs = u64::MAX;
                            } else {
                                errs = errs + erc;
                            }
                            proof {
                                let xs = extents@;
                                assert(entry_units(entries[t as int], unit) == sum_extent_units(
                                    xs,
                                    unit,
                                ));
                                let vnext = replayed_view(
                                    entries,
                                    t + 1,
                                    rbits as int,
                                    nbits64 as int,
                                    unit,
                                );
                                assert forall|b: int| 0 <= b < nbits64 implies bm@[b] == vnext[b] by {
                                    lemma_log_covers_step(entries, t as int, b, unit);
                                    assert(entry_covers(entries[t as int], b, unit)
                                        == extents_cover_upto(xs, xs.len() as int, b, unit));
                                }
                                assert(bm@ =~= vnext);
                            }
                        },
                        Extent::Interleaved { groups } => {
                            let ng: usize = groups.len();
                            let ghost ts0 = total_set(vpre);
                            let mut g: usize = 0;
                            while g < ng
                                invariant
                                    g <= ng,
                                    bm.wf(),
                                    bm.spec_alloc_unit() == unit,
                                    bm@.len() == nbits64,
                                    bm@ == with_groups_marked(vpre, groups@, g as int, unit),
                                    alloc_sum as int == total_set(bm@) * unit as int,
                                    errs as int == clamp_u64(
                                        true_pre + sum_group_units(
                                            groups@.subrange(0, g as int),
                                            unit,
                                        ) - (total_set(bm@) - ts0),
                                    ),
                                    true_pre + sum_group_units(groups@.subrange(0, g as int), unit)
                                        - (total_set(bm@) - ts0) >= 0,
                                decreases ng - g,
                            {
                                let ghost vg = bm@;
                                let erc = bm.mark_extents(&groups[g].ie_strips, &mut alloc_sum);
                                if erc > u64::MAX - errs {
                                    errs = u64::MAX;
                                } else {
                                    errs = errs + erc;
                                }
                                proof {
                                    lemma_sum_group_units_prefix(groups@, g as int, unit);
                                    let strips = groups@[g as int].ie_strips@;
                                    let vnext = with_groups_marked(vpre, groups@, g + 1, unit);
                                    assert forall|b: int|
                                        0 <= b < nbits64 implies bm@[b] == vnext[b] by {
                                        lemma_groups_cover_step(groups@, g as int, b, unit);
                                    }
                                    assert(bm@ =~= vnext);
                                }
                                g = g + 1;
                            }
                            proof {
                                assert(groups@.subrange(0, ng as int) =~= groups@);
                                assert(entry_units(entries[t as int], unit) == sum_group_units(
                                    groups@,
                                    unit,
                                ));
                                let vnext = replayed_view(
                                    entries,
                                    t + 1,
                                    rbits as int,
                                    nbits64 as int,
                                    unit,
                                );
                                assert forall|b: int| 0 <= b < nbits64 implies bm@[b] == vnext[b] by {
                                    lemma_log_covers_step(entries, t as int, b, unit);
                                    assert(entry_covers(entries[t as int], b, unit)
                                        == groups_cover_upto(
                                        groups@,
                                        groups@.len() as int,
                                        b,
                                        unit,
                                    ));
                                }
                                assert(bm@ =~= vnext);
                            }
                        },
                    }
                },
                LogEntry::MakeDir { .. } => {
                    proof {
                        assert(entry_units(entries[t as int], unit) == 0);
                        let vnext = replayed_view(
                            entries,
                            t + 1,
                            rbits as int,
                            nbits64 as int,
                            unit,
                        );
                        assert forall|b: int| 0 <= b < nbits64 implies bm@[b] == vnext[b] by {
                            lemma_log_covers_step(entries, t as int, b, unit);
                            assert(!entry_covers(entries[t as int], b, unit));
                        }
                        assert(bm@ =~= vnext);
                    }
                },
                LogEntry::Delete => {
                    proof {
                        assert(entry_supported(entries[t as int]));
                        assert(false);
                    }
                    return Err(FamfsError::UnsupportedEntry);
                },
                LogEntry::Invalid => {
                    proof {
                        assert(entry_supported(entries[t as int]));
                        assert(false);
                    }
                    return Err(FamfsError::UnsupportedEntry);
                },
            }
            t = t + 1;
        }
        Ok((bm, errs))
    }
}

/// The bitmap after replay has one bit per allocation unit of the device,
/// and every bit of the reserved metadata region is set, whatever the log
/// holds.
pub proof fn lemma_reserved_bits_set(
    entries: Seq<famfs_log_entry>,
    t: int,
    rbits: int,
    nbits: int,
    unit: u64,
)
    requires
        0 <= nbits,
    ensures
        replayed_view(entries, t, rbits, nbits, unit).len() == nbits,
        forall|b: int| 0 <= b < rbits && b < nbits ==> replayed_view(entries, t, rbits, nbits, unit)[b],
{
}

/// After replay a bit is set exactly when it lies in the reserved region or
/// under some replayed File entry's extent: the set bits are the reserved
/// region united with the union of all entries' extent bit ranges.
pub proof fn lemma_replayed_bits_exact(
    entries: Seq<famfs_log_entry>,
    t: int,
    rbits: int,
    nbits: int,
    unit: u64,
    b: int,
)
    requires
        0 <= b < nbits,
    ensures
        replayed_view(entries, t, rbits, nbits, unit)[b] <==> (b < rbits || log_covers(
            entries,
            t,
            b,
            unit,
        )),
{
}

/// `units_for` is the ceiling of `len / unit`.
pub proof fn lemma_units_for_is_ceil(len: u64, unit: u64)
    requires
        unit >= 1,
    ensures
        units_for(len, unit) == (len as int + unit - 1) / unit as int,
{
    if len == 0 {
        assert((unit - 1) as int / unit as int == 0) by (nonlinear_arith)
            requires
                unit >= 1,
        ;
    } else {
        assert(((len - 1) as int + unit) / unit as int == (len - 1) as int / unit as int + 1)
            by (nonlinear_arith)
            requires
                unit >= 1,
                len >= 1,
        ;
    }
}

/// Freeing exactly the bit range a contiguous allocation claimed restores
/// the bitmap to its pre-allocation state bit-for-bit.
pub proof fn lemma_alloc_free_round_trip(
    v0: Seq<bool>,
    v1: Seq<bool>,
    v2: Seq<bool>,
    s: int,
    n: int,
)
    requires
        0 <= s,
        0 <= n,
        s + n <= v0.len(),
        free_run(v0, s, n),
        v1 == with_range_set(v0, s, n),
        v2 == with_range_clear(v1, s, n),
    ensures
        v2 == v0,
{
    assert(v2 =~= v0);
}

/// Contiguous allocations never overlap absent an intervening free: a range
/// the first allocation set cannot lie in a run the bitmap it left behind
/// shows as free, so the second allocation's range is disjoint from it.
pub proof fn lemma_allocations_disjoint(
    v0: Seq<bool>,
    v1: Seq<bool>,
    s1: int,
    n1: int,
    s2: int,
    n2: int,
)
    requires
        0 <= s1,
        0 <= n1,
        s1 + n1 <= v0.len(),
        v1 == with_range_set(v0, s1, n1),
        free_run(v1, s2, n2),
    ensures
        n1 >= 1 && n2 >= 1 ==> (s1 + n1 <= s2 || s2 + n2 <= s1),
{
    if n1 >= 1 && n2 >= 1 && s1 + n1 > s2 && s2 + n2 > s1 {
        let b = if s1 >= s2 {
            s1
        } else {
            s2
        };
        assert(!v1[b]);
        assert(v1[b]);
    }
}

/// Allocation only sets bits, and setting bits never creates a free run:
/// once no free run of `n` bits exists below the bound, none exists in any
/// later bitmap state either, so all further requests of that size fail.
pub proof fn lemma_exhaustion_persists(v1: Seq<bool>, v2: Seq<bool>, s_lo: int, bound: int, n: int)
    requires
        v1.len() == v2.len(),
        forall|b: int| 0 <= b < v1.len() ==> (v1[b] ==> v2[b]),
        forall|s: int| (s_lo <= s && s + n <= bound && n >= 1) ==> !free_run(v1, s, n),
        0 <= s_lo,
        bound <= v1.len(),
    ensures
        forall|s: int| (s_lo <= s && s + n <= bound && n >= 1) ==> !free_run(v2, s, n),
{
    assert forall|s: int| (s_lo <= s && s + n <= bound && n >= 1) implies !free_run(v2, s, n) by {
        assert(!free_run(v1, s, n));
        let j = choose|j: int| s <= j < s + n && v1[j];
        assert(v2[j]);
        assert(!free_run(v2, s, n));
    }
}

} // verus!

