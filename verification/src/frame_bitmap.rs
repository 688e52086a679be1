//! The first frame allocator: one flag per 4 KiB frame of the lowest 64 GiB
//! of physical memory, and a search that walks the usable addresses of the
//! memory map in steps of 4 KiB.

use vstd::prelude::*;

use crate::memmap::{usable_ranges, MemmapEntryType, SoosMemmap};

verus! {

/// The number of frames that the allocator has a flag for.
pub const MAX_USABLE_FRAMES: usize = 16777216;

/// The number of addresses in the first `e` ranges of `r`.
pub open spec fn prefix_len(r: Seq<(u64, u64)>, e: int) -> int
    decreases e,
{
    if e <= 0 {
        0
    } else {
        prefix_len(r, e - 1) + (r[e - 1].1 - r[e - 1].0)
    }
}

/// The address at position `p` of the addresses of the ranges of `r` from
/// range `e` on, the positions counted from the start of the first range.
pub open spec fn address_from(r: Seq<(u64, u64)>, e: int, p: int) -> int
    decreases r.len() - e,
{
    if e < 0 || e >= r.len() {
        0
    } else if p < prefix_len(r, e + 1) {
        r[e].0 + (p - prefix_len(r, e))
    } else {
        address_from(r, e + 1, p)
    }
}

/// The address at position `p` of the addresses of the ranges of `r`, one
/// range after the other.
pub open spec fn address_at(r: Seq<(u64, u64)>, p: int) -> int {
    address_from(r, 0, p)
}

/// Whether each range of `r` starts at or before its end.
pub open spec fn ranges_ordered(r: Seq<(u64, u64)>) -> bool {
    forall|i: int| 0 <= i < r.len() ==> (#[trigger] r[i]).0 <= r[i].1
}

/// Ranges that start before they end give positions that grow with the
/// number of ranges.
proof fn lemma_prefix_monotone(r: Seq<(u64, u64)>, a: int, b: int)
    requires
        ranges_ordered(r),
        0 <= a <= b <= r.len(),
    ensures
        prefix_len(r, a) <= prefix_len(r, b),
    decreases b - a,
{
    if a < b {
        lemma_prefix_monotone(r, a, b - 1);
        assert(r[b - 1].0 <= r[b - 1].1);
    }
}

/// The positions of `e` ranges of at most `u64::MAX` addresses each.
proof fn lemma_prefix_bound(r: Seq<(u64, u64)>, e: int)
    requires
        ranges_ordered(r),
        0 <= e <= r.len(),
    ensures
        0 <= prefix_len(r, e) <= e * 0xFFFF_FFFF_FFFF_FFFF,
    decreases e,
{
    if e > 0 {
        lemma_prefix_bound(r, e - 1);
        assert(r[e - 1].0 <= r[e - 1].1);
    }
}

/// A position inside range `e` gives the address that far into the range.
proof fn lemma_address_in_range(r: Seq<(u64, u64)>, e0: int, e: int, p: int)
    requires
        ranges_ordered(r),
        0 <= e0 <= e < r.len(),
        prefix_len(r, e) <= p < prefix_len(r, e + 1),
    ensures
        address_from(r, e0, p) == r[e].0 + (p - prefix_len(r, e)),
    decreases e - e0,
{
    if e0 < e {
        lemma_prefix_monotone(r, e0 + 1, e);
        lemma_address_in_range(r, e0 + 1, e, p);
    }
}

/// A number between 0 and a candidate numbers a candidate too.
proof fn lemma_prefix_candidates(total: int, j: int, k: int)
    requires
        0 <= j <= k,
        4096 * k < total,
    ensures
        4096 * j < total,
{
}

/// The usable ranges of entries that stay below the top of the address
/// space start before they end.
proof fn lemma_usable_ranges_ordered(entries: Seq<crate::memmap::MemmapEntry>)
    requires
        forall|k: int|
            0 <= k < entries.len() && (#[trigger] entries[k]).type_ == MemmapEntryType::Usable ==> entries[k].base
                + entries[k].len <= u64::MAX,
    ensures
        ranges_ordered(usable_ranges(entries)),
        usable_ranges(entries).len() <= entries.len(),
    decreases entries.len(),
{
    if entries.len() > 0 {
        let init = entries.drop_last();
        assert forall|k: int|
            0 <= k < init.len() && (#[trigger] init[k]).type_ == MemmapEntryType::Usable implies init[k].base
                + init[k].len <= u64::MAX by {
            assert(init[k] == entries[k]);
        }
        lemma_usable_ranges_ordered(init);
        let r = usable_ranges(entries);
        let e = entries.last();
        assert forall|i: int| 0 <= i < r.len() implies (#[trigger] r[i]).0 <= r[i].1 by {
            if i < usable_ranges(init).len() {
                assert(r[i] == usable_ranges(init)[i]);
            } else {
                assert(entries[entries.len() - 1] == e);
            }
        }
    }
}

/// The slots of a memory map hold at least as many entries as are present.
proof fn lemma_present_len(slots: Seq<Option<crate::memmap::MemmapEntry>>)
    ensures
        crate::memmap::present_entries(slots).len() <= slots.len(),
    decreases slots.len(),
{
    if slots.len() > 0 {
        lemma_present_len(slots.drop_last());
    }
}

/// Marking a free frame as used and then as free again gives back the
/// flags it started from: taking back a frame that was handed out restores
/// the allocator's flags.
pub proof fn lemma_allocate_then_free_restores(used: Seq<bool>, frame: int)
    requires
        0 <= frame < used.len(),
        !used[frame],
    ensures
        used.update(frame, true).update(frame, false) == used,
{
    assert(used.update(frame, true).update(frame, false) =~= used);
}

/// The frame allocator: the used-flags, the memory map whose usable
/// addresses it hands out, and how many candidates the next search skips.
pub struct SoosFrameAllocator {
    bitmap: Vec<bool>,
    memmap: SoosMemmap,
    skip: usize,
}

impl SoosFrameAllocator {
    /// The used-flag of each frame, by frame number.
    pub closed spec fn used(&self) -> Seq<bool> {
        self.bitmap@
    }

    /// The memory map.
    pub closed spec fn memory_map(&self) -> SoosMemmap {
        self.memmap
    }

    /// How many candidates the next search passes over before it starts.
    pub closed spec fn skip_count(&self) -> nat {
        self.skip as nat
    }

    /// There is a flag for each frame the allocator covers.
    pub closed spec fn wf(&self) -> bool {
        self.bitmap@.len() == MAX_USABLE_FRAMES
    }

    /// The usable address ranges of the memory map, in order.
    pub open spec fn ranges(&self) -> Seq<(u64, u64)> {
        usable_ranges(self.memory_map().entries())
    }

    /// The number of usable addresses.
    pub open spec fn total(&self) -> int {
        prefix_len(self.ranges(), self.ranges().len() as int)
    }

    /// Whether `k` numbers a candidate: every 4096th usable address is one,
    /// from the first on.
    pub open spec fn is_candidate(&self, k: int) -> bool {
        0 <= k && 4096 * k < self.total()
    }

    /// The frame number of candidate `k`: that of the frame holding it.
    pub open spec fn frame_of(&self, k: int) -> int {
        address_at(self.ranges(), 4096 * k) / 4096
    }

    /// Whether candidate `k` lies in a frame the allocator covers, marked used.
    pub open spec fn taken(&self, k: int) -> bool {
        self.frame_of(k) < MAX_USABLE_FRAMES && self.used()[self.frame_of(k)]
    }

    /// Whether the candidates from `from` up to `k` are all taken.
    pub open spec fn taken_between(&self, from: int, k: int) -> bool {
        forall|j: int| from <= j < k ==> #[trigger] self.taken(j)
    }

    /// Whether a search from candidate `from` ends with a find at `k`.
    pub open spec fn is_first_free(&self, from: int, k: int) -> bool {
        &&& from <= k
        &&& self.is_candidate(k)
        &&& self.frame_of(k) < MAX_USABLE_FRAMES
        &&& !self.used()[self.frame_of(k)]
        &&& self.taken_between(from, k)
    }

    /// Whether a search from candidate `from` ends with a find.
    pub open spec fn finds_free(&self, from: int) -> bool {
        exists|k: int| self.is_first_free(from, k)
    }

    /// Whether every candidate that a search from `from` reaches lies in a
    /// frame the allocator covers; a search that reaches another one stops
    /// the kernel.
    pub open spec fn search_in_bounds(&self, from: int) -> bool {
        forall|k: int| from <= k && #[trigger] self.is_candidate(k) && self.taken_between(from, k) ==> self.frame_of(k)
            < MAX_USABLE_FRAMES
    }

    /// An allocator for `memmap` with the frames `used_frames` marked as
    /// used: the frames that the page table in use maps.
    pub fn init_with_current_pagetable(memmap: SoosMemmap, used_frames: &[u64]) -> (r: Self)
        requires
            forall|i: int| 0 <= i < used_frames@.len() ==> #[trigger] used_frames@[i] / 4096 < MAX_USABLE_FRAMES,
        ensures
            r.wf(),
            r.memory_map() == memmap,
            r.skip_count() == 0,
            forall|f: int|
                0 <= f < MAX_USABLE_FRAMES ==> #[trigger] r.used()[f] == exists|i: int|
                    0 <= i < used_frames@.len() && used_frames@[i] / 4096 == f,
    {
        let mut bitmap: Vec<bool> = Vec::new();
        let mut n: usize = 0;
        while n < MAX_USABLE_FRAMES
            invariant
                n <= MAX_USABLE_FRAMES,
                bitmap@.len() == n,
                forall|f: int| 0 <= f < n ==> !#[trigger] bitmap@[f],
            decreases MAX_USABLE_FRAMES - n,
        {
            bitmap.push(false);
            n = n + 1;
        }
        let mut i: usize = 0;
        while i < used_frames.len()
            invariant
                i <= used_frames@.len(),
                bitmap@.len() == MAX_USABLE_FRAMES,
                forall|j: int| 0 <= j < used_frames@.len() ==> #[trigger] used_frames@[j] / 4096 < MAX_USABLE_FRAMES,
                forall|f: int|
                    0 <= f < MAX_USABLE_FRAMES ==> #[trigger] bitmap@[f] == exists|j: int|
                        0 <= j < i && used_frames@[j] / 4096 == f,
            decreases used_frames@.len() - i,
        {
            let index = (used_frames[i] / 4096) as usize;
            bitmap.set(index, true);
            proof {
                assert forall|f: int| 0 <= f < MAX_USABLE_FRAMES implies #[trigger] bitmap@[f] == exists|j: int|
                    0 <= j < i + 1 && used_frames@[j] / 4096 == f by {
                    if f == index {
                        assert(used_frames@[i as int] / 4096 == f);
                    } else {
                        if exists|j: int| 0 <= j < i + 1 && used_frames@[j] / 4096 == f {
                            let j = choose|j: int| 0 <= j < i + 1 && used_frames@[j] / 4096 == f;
                            assert(j != i);
                        }
                    }
                }
            }
            i = i + 1;
        }
        SoosFrameAllocator { bitmap, memmap, skip: 0 }
    }

    /// The usable ranges start before they end, and there are at most as
    /// many as the map has slots.
    proof fn lemma_ranges(&self)
        requires
            forall|k: int|
                0 <= k < self.memory_map().entries().len() && (#[trigger] self.memory_map().entries()[k]).type_
                    == MemmapEntryType::Usable ==> self.memory_map().entries()[k].base + self.memory_map().entries()[k].len
                    <= u64::MAX,
        ensures
            ranges_ordered(self.ranges()),
            self.ranges().len() <= 128,
    {
        lemma_usable_ranges_ordered(self.memory_map().entries());
        lemma_present_len(self.memory_map().0@);
    }

    /// A search from `from` passes only taken candidates before an untaken
    /// one, so with a candidate at `k` that is not taken it ends with a find.
    proof fn lemma_untaken_is_found(&self, from: int, k: int)
        requires
            0 <= from <= k,
            self.is_candidate(k),
            !self.taken(k),
            self.search_in_bounds(from),
        ensures
            self.finds_free(from),
        decreases k - from,
    {
        if exists|jj: int| from <= jj < k && !#[trigger] self.taken(jj) {
            let jj = choose|jj: int| from <= jj < k && !#[trigger] self.taken(jj);
            lemma_prefix_candidates(self.total(), jj, k);
            self.lemma_untaken_is_found(from, jj);
        } else {
            assert(self.taken_between(from, k));
            assert(self.is_first_free(from, k));
        }
    }

    /// Searches the candidates from `from` on for one in a free frame, and
    /// gives back the number of that frame.
    fn find_free(&self, from: usize) -> (r: Option<usize>)
        requires
            self.wf(),
            forall|k: int|
                0 <= k < self.memory_map().entries().len() && (#[trigger] self.memory_map().entries()[k]).type_
                    == MemmapEntryType::Usable ==> self.memory_map().entries()[k].base + self.memory_map().entries()[k].len
                    <= u64::MAX,
            self.search_in_bounds(from as int),
        ensures
            match r {
                Some(index) => exists|k: int| self.is_first_free(from as int, k) && self.frame_of(k) == index,
                None => !self.finds_free(from as int),
            },
    {
        let ranges = self.memmap.iter_usable_addresses();
        let ghost rs = self.ranges();
        proof {
            self.lemma_ranges();
            lemma_prefix_bound(rs, rs.len() as int);
        }
        let mut e: usize = 0;
        let mut before: u128 = 0;
        while e < ranges.len()
            invariant
                self.wf(),
                rs == self.ranges(),
                ranges@.len() == rs.len(),
                forall|i: int| 0 <= i < ranges@.len() ==> (#[trigger] ranges@[i]).start == rs[i].0 && ranges@[i].end == rs[i].1,
                ranges_ordered(rs),
                rs.len() <= 128,
                self.search_in_bounds(from as int),
                e <= rs.len(),
                before == prefix_len(rs, e as int),
                forall|j: int| from <= j && 4096 * j < before ==> #[trigger] self.taken(j),
            decreases rs.len() - e,
        {
            let start = ranges[e].start;
            let end = ranges[e].end;
            proof {
                assert(rs[e as int].0 <= rs[e as int].1);
                lemma_prefix_bound(rs, e as int + 1);
                lemma_prefix_monotone(rs, e as int + 1, rs.len() as int);
            }
            let next: u128 = before + (end - start) as u128;
            let mut k: u128 = (before + 4095) / 4096;
            if k < from as u128 {
                k = from as u128;
            }
            proof {
                assert forall|j: int| from <= j < k && 4096 * j < next implies #[trigger] self.taken(j) by {
                    if j < (before + 4095) / 4096 {
                        assert(4096 * j < before) by (nonlinear_arith)
                            requires
                                0 <= j < (before + 4095) / 4096,
                                0 <= before,
                        ;
                    }
                }
                assert(4096 * k >= before) by (nonlinear_arith)
                    requires
                        k >= (before + 4095) / 4096,
                        0 <= before,
                ;
            }
            while k * 4096 < next
                invariant
                    self.wf(),
                    rs == self.ranges(),
                    ranges_ordered(rs),
                    self.search_in_bounds(from as int),
                    e < rs.len(),
                    start == rs[e as int].0,
                    end == rs[e as int].1,
                    before == prefix_len(rs, e as int),
                    next == prefix_len(rs, e as int + 1),
                    next <= prefix_len(rs, rs.len() as int),
                    next <= 128 * 0xFFFF_FFFF_FFFF_FFFFu128,
                    4096 * k >= before,
                    k >= from,
                    k <= 0x2_0000_0000_0000_0000u128,
                    forall|j: int| from <= j < k && 4096 * j < next ==> #[trigger] self.taken(j),
                decreases next + 4096 - k * 4096,
            {
                proof {
                    lemma_address_in_range(rs, 0, e as int, 4096 * k);
                    assert(self.taken_between(from as int, k as int));
                    assert(self.is_candidate(k as int));
                }
                let address: u128 = start as u128 + (k * 4096 - before);
                let index = (address / 4096) as usize;
                if !self.bitmap[index] {
                    proof {
                        assert(self.is_first_free(from as int, k as int));
                    }
                    return Some(index);
                }
                k = k + 1;
            }
            before = next;
            e = e + 1;
        }
        proof {
            if self.finds_free(from as int) {
                let k = choose|k: int| self.is_first_free(from as int, k);
                assert(self.taken(k));
            }
        }
        None
    }

    /// Hands out a free frame and marks it as used.  The search passes over
    /// the first `skip` candidates; if it finds nothing it starts over from
    /// the first candidate.  The next search skips as many candidates as the
    /// number of the frame it handed out.
    pub fn allocate_frame(&mut self) -> (r: Option<u64>)
        requires
            old(self).wf(),
            forall|k: int|
                0 <= k < old(self).memory_map().entries().len() && (#[trigger] old(self).memory_map().entries()[k]).type_
                    == MemmapEntryType::Usable ==> old(self).memory_map().entries()[k].base + old(self).memory_map().entries()[k].len
                    <= u64::MAX,
            old(self).search_in_bounds(old(self).skip_count() as int),
            old(self).search_in_bounds(0),
            exists|k: int| #[trigger] old(self).is_candidate(k) && !old(self).taken(k),
        ensures
            final(self).wf(),
            final(self).memory_map() == old(self).memory_map(),
            ({
                let from = if old(self).finds_free(old(self).skip_count() as int) {
                    old(self).skip_count() as int
                } else {
                    0
                };
                exists|k: int|
                    old(self).is_first_free(from, k) && r == Some((old(self).frame_of(k) * 4096) as u64)
                        && final(self).skip_count() == old(self).frame_of(k) && final(self).used() == old(
                        self,
                    ).used().update(old(self).frame_of(k), true)
            }),
    {
        let index = match self.find_free(self.skip) {
            Some(index) => index,
            None => {
                proof {
                    let k = choose|k: int| #[trigger] self.is_candidate(k) && !self.taken(k);
                    self.lemma_untaken_is_found(0, k);
                }
                match self.find_free(0) {
                    Some(index) => index,
                    None => {
                        unreached()
                    },
                }
            },
        };
        self.bitmap.set(index, true);
        self.skip = index;
        Some(index as u64 * 4096)
    }

    /// Marks the frame that holds `frame` as free.
    pub fn deallocate_frame(&mut self, frame: u64)
        requires
            old(self).wf(),
            frame / 4096 < MAX_USABLE_FRAMES,
        ensures
            final(self).wf(),
            final(self).used() == old(self).used().update((frame / 4096) as int, false),
            final(self).memory_map() == old(self).memory_map(),
            final(self).skip_count() == old(self).skip_count(),
    {
        let index = (frame / 4096) as usize;
        self.bitmap.set(index, false);
    }
}

} // verus!
