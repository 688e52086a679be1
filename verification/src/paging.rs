//! Physical frame bookkeeping of the kernel: which 4 KiB frames are in use,
//! which frame to hand out next, and how a memory map entry is covered by
//! pages when all of physical memory is mapped into the kernel's address space.

use vstd::prelude::*;

use crate::memmap::{MemmapEntry, MemmapEntryType, SoosMemmap};

verus! {

/// The size of a frame in bytes.
pub const FRAME_SIZE: u64 = 4096;

/// The number of frames that one region of the frame map tracks.
pub const FRAMES_PER_REGION: usize = 1048576;

/// The number of bytes that one region of the frame map spans.
pub const REGION_SPAN: u64 = 4294967296;

/// The number of regions in the frame map.
pub const REGION_COUNT: usize = 8;

/// The highest start address of a region for which the end of its span is
/// still a `u64`.
pub const MAX_REGION_START: u64 = 0xFFFF_FFFE_FFFF_FFFF;

/// Frames at or above this address are never handed out.
pub const ALLOCATION_LIMIT: u64 = 0x4_0000_0000;

/// The address where the kernel frame mapping starts.
/// All frames are mapped there, each at this address plus its physical address.
pub const KERNEL_FRAME_MAPPING_ADDRESS: u64 = 0x7776_0000_0000;

/// Whether a region starting at `start` spans `addr`.
pub open spec fn region_spans(start: Option<u64>, addr: u64) -> bool {
    match start {
        Some(s) => s <= addr && addr < s + REGION_SPAN,
        None => false,
    }
}

/// The first region at or after `i` that spans `addr`, or -1 if there is none.
pub open spec fn first_region_from(starts: Seq<Option<u64>>, addr: u64, i: nat) -> int
    decreases starts.len() - i,
{
    if i >= starts.len() {
        -1
    } else if region_spans(starts[i as int], addr) {
        i as int
    } else {
        first_region_from(starts, addr, i + 1)
    }
}

/// The first region that spans `addr`, or -1 if there is none.
pub open spec fn first_region(starts: Seq<Option<u64>>, addr: u64) -> int {
    first_region_from(starts, addr, 0)
}

/// The position of the frame at `addr` in the bitmap of a region starting at `start`.
pub open spec fn frame_index(start: u64, addr: u64) -> int {
    (addr - start) / (FRAME_SIZE as int)
}

/// The number of `true` entries of `s`.
pub open spec fn count_true(s: Seq<bool>) -> nat
    decreases s.len(),
{
    if s.len() == 0 {
        0
    } else {
        count_true(s.drop_last()) + if s.last() { 1nat } else { 0nat }
    }
}

/// The number of `true` entries of all bitmaps of `maps`.
pub open spec fn count_true_all(maps: Seq<Seq<bool>>) -> nat
    decreases maps.len(),
{
    if maps.len() == 0 {
        0
    } else {
        count_true_all(maps.drop_last()) + count_true(maps.last())
    }
}

/// The 4 KiB frames of a memory map entry: one frame for each whole 4 KiB of
/// its length, from its base up.
pub open spec fn entry_frames(e: MemmapEntry) -> Seq<u64> {
    Seq::new((e.len / FRAME_SIZE) as nat, |k: int| (e.base + k * FRAME_SIZE) as u64)
}

/// The frames of the usable entries of `entries`, in order.
pub open spec fn usable_frames(entries: Seq<MemmapEntry>) -> Seq<u64>
    decreases entries.len(),
{
    if entries.len() == 0 {
        Seq::empty()
    } else {
        let rest = usable_frames(entries.drop_last());
        if entries.last().type_ == MemmapEntryType::Usable {
            rest + entry_frames(entries.last())
        } else {
            rest
        }
    }
}

/// Whether the frame map gives entries of this type a region.
pub open spec fn tracked_entry(e: MemmapEntry) -> bool {
    e.type_ == MemmapEntryType::Usable || e.type_ == MemmapEntryType::KernelAndModules
}

/// The number of entries of `entries` that start a region of the frame map.
pub open spec fn region_entry_count(entries: Seq<MemmapEntry>) -> nat
    decreases entries.len(),
{
    if entries.len() == 0 {
        0
    } else {
        let e = entries.last();
        region_entry_count(entries.drop_last()) + if tracked_entry(e) && e.len / FRAME_SIZE > 0 {
            1nat
        } else {
            0nat
        }
    }
}

/// The region starts that the frame map gets from `entries`: the bases of the
/// usable and kernel entries with at least one whole frame, in order.
pub open spec fn region_starts(entries: Seq<MemmapEntry>) -> Seq<u64>
    decreases entries.len(),
{
    if entries.len() == 0 {
        Seq::empty()
    } else {
        let e = entries.last();
        let rest = region_starts(entries.drop_last());
        if tracked_entry(e) && e.len / FRAME_SIZE > 0 {
            rest.push(e.base)
        } else {
            rest
        }
    }
}

/// One region of the frame map: the first address it tracks, if it is in use,
/// and one flag per frame that says whether the frame is used.
pub struct FrameRegion {
    start: Option<u64>,
    used: Vec<bool>,
}

/// Keeps track of the used frames of physical memory and hands out free ones.
pub struct KernelFrameAllocator {
    frame_map: Vec<FrameRegion>,
    pub memmap: SoosMemmap,
    skip: usize,
    allocated: usize,
}

impl KernelFrameAllocator {
    /// The first address of each region, `None` for a region not in use.
    pub closed spec fn starts(&self) -> Seq<Option<u64>> {
        self.frame_map@.map_values(|r: FrameRegion| r.start)
    }

    /// The used-flags of each region.
    pub closed spec fn bitmaps(&self) -> Seq<Seq<bool>> {
        self.frame_map@.map_values(|r: FrameRegion| r.used@)
    }

    /// The memory map whose usable frames the allocator hands out.
    pub closed spec fn memory_map(&self) -> SoosMemmap {
        self.memmap
    }

    /// How many frames the allocator has handed out and not taken back.
    pub closed spec fn allocated_count(&self) -> nat {
        self.allocated as nat
    }

    /// How many usable frames the next search passes over before it starts.
    pub closed spec fn skip_count(&self) -> nat {
        self.skip as nat
    }

    /// The shape of the frame map: a fixed number of regions of a fixed size,
    /// each starting where its whole span is addressable.
    pub closed spec fn wf(&self) -> bool {
        &&& self.frame_map@.len() == REGION_COUNT
        &&& forall|i: int|
            0 <= i < REGION_COUNT ==> (#[trigger] self.frame_map@[i]).used@.len()
                == FRAMES_PER_REGION
        &&& forall|i: int|
            0 <= i < REGION_COUNT ==> match (#[trigger] self.frame_map@[i]).start {
                Some(s) => s <= MAX_REGION_START,
                None => true,
            }
    }

    /// Whether some region spans the frame at `addr`.
    pub open spec fn spans(&self, addr: u64) -> bool {
        first_region(self.starts(), addr) >= 0
    }

    /// Whether the frame at `addr` is marked as used, in the first region that spans it.
    pub open spec fn frame_used(&self, addr: u64) -> bool {
        let i = first_region(self.starts(), addr);
        self.bitmaps()[i][frame_index(self.starts()[i].unwrap(), addr)]
    }

    proof fn lemma_shape(&self)
        requires
            self.wf(),
        ensures
            self.starts().len() == REGION_COUNT,
            self.bitmaps().len() == REGION_COUNT,
            forall|i: int| 0 <= i < REGION_COUNT ==> (#[trigger] self.bitmaps()[i]).len() == FRAMES_PER_REGION,
            forall|i: int|
                0 <= i < REGION_COUNT ==> ((#[trigger] self.starts()[i]) matches Some(s) ==> s
                    <= MAX_REGION_START),
    {
        assert forall|i: int| 0 <= i < REGION_COUNT implies (#[trigger] self.bitmaps()[i]).len()
            == FRAMES_PER_REGION by {
            assert(self.frame_map@[i].used@.len() == FRAMES_PER_REGION);
        }
        assert forall|i: int|
            0 <= i < REGION_COUNT implies ((#[trigger] self.starts()[i]) matches Some(s) ==> s
                <= MAX_REGION_START) by {
            assert(self.frame_map@[i].start == self.starts()[i]);
        }
    }
}

/// The sizes of the pages that map physical memory into the kernel.
#[derive(Debug, Clone, Copy, PartialEq, Eq, Structural)]
pub enum PageSize {
    Size4KiB,
    Size2MiB,
    Size1GiB,
}

impl PageSize {
    /// The number of bytes of a page of this size.
    pub open spec fn bytes(self) -> u64 {
        match self {
            PageSize::Size4KiB => 0x1000,
            PageSize::Size2MiB => 0x20_0000,
            PageSize::Size1GiB => 0x4000_0000,
        }
    }

    /// The number of bytes of a page of this size.
    pub fn size(&self) -> (r: u64)
        ensures
            r == self.bytes(),
    {
        match self {
            PageSize::Size4KiB => 0x1000,
            PageSize::Size2MiB => 0x20_0000,
            PageSize::Size1GiB => 0x4000_0000,
        }
    }
}

/// What the page table in use gives for a page of the kernel that is to be
/// kept in a new page table.
#[derive(Debug, Clone, Copy, PartialEq, Eq, Structural)]
pub enum Translation {
    /// The page is not mapped.
    NotMapped,
    /// The page is mapped by a page of `size`, `offset` bytes into its frame.
    Mapped { size: PageSize, offset: u64 },
    /// The page is mapped to a frame whose address is not valid.
    InvalidFrameAddress,
}

/// Whether a page of the kernel that the page table in use translates as
/// `translation` keeps its mapping in the kernel's new page table, and with
/// which page size: a page mapped at the very start of a 4 KiB or 2 MiB
/// frame is mapped to that frame again by a page of that size; a page
/// mapped into the middle of a frame, or not mapped, is left out.  The
/// kernel stops on a page at the start of a 1 GiB frame and on an invalid
/// frame address.
pub fn keep_mapping(translation: Translation) -> (r: Option<PageSize>)
    requires
        !(translation is InvalidFrameAddress),
        !(translation == (Translation::Mapped { size: PageSize::Size1GiB, offset: 0 })),
    ensures
        r == match translation {
            Translation::Mapped { size, offset } => if offset == 0 {
                Some(size)
            } else {
                None
            },
            _ => None,
        },
{
    match translation {
        Translation::Mapped { size, offset } => {
            if offset == 0 {
                Some(size)
            } else {
                None
            }
        },
        _ => None,
    }
}

/// One page of the kernel's mapping of physical memory: the frame at `phys`
/// is mapped at `virt`, with a page of `size`.
#[derive(Debug, Clone, Copy, PartialEq, Eq, Structural)]
pub struct PageMapping {
    pub phys: u64,
    pub virt: u64,
    pub size: PageSize,
}

/// The page size used at `addr` when `remaining` bytes are left to map: the
/// largest of 1 GiB, 2 MiB and 4 KiB that `addr` is aligned to and that fits.
pub open spec fn chunk_size(addr: int, remaining: int) -> PageSize {
    if addr % 0x4000_0000 == 0 && remaining >= 0x4000_0000 {
        PageSize::Size1GiB
    } else if addr % 0x20_0000 == 0 && remaining >= 0x20_0000 {
        PageSize::Size2MiB
    } else {
        PageSize::Size4KiB
    }
}

/// The number of bytes of [`chunk_size`].
pub open spec fn chunk_bytes(addr: int, remaining: int) -> int {
    if addr % 0x4000_0000 == 0 && remaining >= 0x4000_0000 {
        0x4000_0000
    } else if addr % 0x20_0000 == 0 && remaining >= 0x20_0000 {
        0x20_0000
    } else {
        0x1000
    }
}

/// The pages that map the physical range `addr..end` into the kernel, from
/// the bottom up, each as large as [`chunk_size`] allows, until less than a
/// page is left.
pub open spec fn mapping_plan(addr: int, end: int) -> Seq<PageMapping>
    decreases end - addr,
{
    if end - addr < 0x1000 {
        Seq::empty()
    } else {
        let size = chunk_size(addr, end - addr);
        seq![
            PageMapping {
                phys: addr as u64,
                virt: (KERNEL_FRAME_MAPPING_ADDRESS + addr) as u64,
                size,
            },
        ] + mapping_plan(addr + chunk_bytes(addr, end - addr), end)
    }
}

/// The plan for a 4 KiB aligned range tiles it: the pages follow each other
/// without gap or overlap from `addr` to `end`, and each page is aligned to its size.
pub proof fn lemma_mapping_plan_tiles(addr: int, end: int)
    requires
        0 <= addr <= end <= u64::MAX,
        addr % 4096 == 0,
        end % 4096 == 0,
    ensures
        ({
            let p = mapping_plan(addr, end);
            &&& p.len() == 0 <==> addr == end
            &&& p.len() > 0 ==> p[0].phys == addr && p.last().phys + p.last().size.bytes() == end
            &&& forall|i: int|
                0 <= i < p.len() - 1 ==> #[trigger] p[i].phys + p[i].size.bytes() == p[i + 1].phys
            &&& forall|i: int|
                0 <= i < p.len() ==> (#[trigger] p[i]).phys % p[i].size.bytes() == 0
        }),
    decreases end - addr,
{
    if addr < end {
        let size = chunk_size(addr, end - addr);
        let next = addr + size.bytes();
        assert(next % 4096 == 0 && next <= end) by {
            assert(0x4000_0000int % 4096 == 0);
            assert(0x20_0000int % 4096 == 0);
            if size == PageSize::Size1GiB {
                assert(addr % 0x4000_0000 == 0 ==> addr % 4096 == 0) by (nonlinear_arith);
            } else if size == PageSize::Size2MiB {
                assert(addr % 0x20_0000 == 0 ==> addr % 4096 == 0) by (nonlinear_arith);
            }
            assert((addr + size.bytes()) % 4096 == 0) by (nonlinear_arith)
                requires
                    addr % 4096 == 0,
                    size.bytes() % 4096 == 0,
            ;
            assert(end - addr >= 4096) by (nonlinear_arith)
                requires
                    addr % 4096 == 0,
                    end % 4096 == 0,
                    addr < end,
            ;
        }
        lemma_mapping_plan_tiles(next, end);
        let p = mapping_plan(addr, end);
        let rest = mapping_plan(next, end);
        assert(p == seq![
            PageMapping {
                phys: addr as u64,
                virt: (KERNEL_FRAME_MAPPING_ADDRESS + addr) as u64,
                size,
            },
        ] + rest);
        assert forall|i: int| 0 <= i < p.len() - 1 implies #[trigger] p[i].phys + p[i].size.bytes()
            == p[i + 1].phys by {
            if i > 0 {
                assert(p[i] == rest[i - 1]);
                assert(p[i + 1] == rest[i]);
            }
        }
        assert forall|i: int| 0 <= i < p.len() implies (#[trigger] p[i]).phys % p[i].size.bytes() == 0 by {
            if i > 0 {
                assert(p[i] == rest[i - 1]);
            }
        }
    }
}

/// The lowest virtual address that is not canonical in the lower half.
pub const LOWER_HALF_END: u64 = 0x8000_0000_0000;

/// Whether an entry can be mapped into the kernel: 4 KiB aligned in base
/// and length, and with its mapping inside the lower half of the address space.
pub open spec fn mappable_entry(e: MemmapEntry) -> bool {
    &&& e.base % 4096 == 0
    &&& e.len % 4096 == 0
    &&& KERNEL_FRAME_MAPPING_ADDRESS + e.base + e.len <= LOWER_HALF_END
}

/// The pages that map the usable and kernel entries of `entries` into the
/// kernel, entry after entry.
pub open spec fn kernel_plan(entries: Seq<MemmapEntry>) -> Seq<PageMapping>
    decreases entries.len(),
{
    if entries.len() == 0 {
        Seq::empty()
    } else {
        let e = entries.last();
        let rest = kernel_plan(entries.drop_last());
        if tracked_entry(e) {
            rest + mapping_plan(e.base as int, e.base + e.len)
        } else {
            rest
        }
    }
}

/// The pages that map one memory map entry into the kernel, each frame at
/// [`KERNEL_FRAME_MAPPING_ADDRESS`] plus its physical address.
pub fn entry_mapping_plan(entry: &MemmapEntry) -> (r: Vec<PageMapping>)
    requires
        mappable_entry(*entry),
    ensures
        r@ == mapping_plan(entry.base as int, entry.base + entry.len),
{
    let end = entry.base + entry.len;
    let mut plan: Vec<PageMapping> = Vec::new();
    let mut address = entry.base;
    while address != end
        invariant
            entry.base <= address <= end,
            end == entry.base + entry.len,
            KERNEL_FRAME_MAPPING_ADDRESS + end <= LOWER_HALF_END,
            address % 4096 == 0,
            end % 4096 == 0,
            plan@ + mapping_plan(address as int, end as int) == mapping_plan(
                entry.base as int,
                end as int,
            ),
        decreases end - address,
    {
        let remaining_len = end - address;
        assert(remaining_len >= 4096) by (nonlinear_arith)
            requires
                address % 4096 == 0,
                end % 4096 == 0,
                address < end,
                remaining_len == end - address,
        ;
        let size = if address % 0x4000_0000 == 0 && remaining_len >= 0x4000_0000 {
            PageSize::Size1GiB
        } else if address % 0x20_0000 == 0 && remaining_len >= 0x20_0000 {
            PageSize::Size2MiB
        } else {
            PageSize::Size4KiB
        };
        let mapping = PageMapping {
            phys: address,
            virt: KERNEL_FRAME_MAPPING_ADDRESS + address,
            size,
        };
        proof {
            let rest = mapping_plan(address + size.bytes(), end as int);
            assert(mapping_plan(address as int, end as int) == seq![mapping] + rest);
            assert((plan@.push(mapping)) + rest =~= plan@ + (seq![mapping] + rest));
            assert((address + size.bytes()) % 4096 == 0) by (nonlinear_arith)
                requires
                    address % 4096 == 0,
                    size.bytes() == 0x1000 || size.bytes() == 0x20_0000 || size.bytes() == 0x4000_0000,
            ;
        }
        plan.push(mapping);
        address = address + size.size();
    }
    proof {
        assert(mapping_plan(end as int, end as int) == Seq::<PageMapping>::empty());
        assert(plan@ + Seq::<PageMapping>::empty() =~= plan@);
    }
    plan
}

/// The pages that map all usable and kernel entries of `memmap` into the kernel.
pub fn kernel_mapping_plan(memmap: &SoosMemmap) -> (r: Vec<PageMapping>)
    requires
        forall|k: int|
            0 <= k < memmap.entries().len() && tracked_entry(#[trigger] memmap.entries()[k])
                ==> mappable_entry(memmap.entries()[k]),
    ensures
        r@ == kernel_plan(memmap.entries()),
{
    let entries = memmap.iter();
    let mut plan: Vec<PageMapping> = Vec::new();
    let mut e: usize = 0;
    while e < entries.len()
        invariant
            e <= entries@.len(),
            entries@ == memmap.entries(),
            forall|k: int|
                0 <= k < entries@.len() && tracked_entry(#[trigger] entries@[k]) ==> mappable_entry(
                    entries@[k],
                ),
            plan@ == kernel_plan(entries@.take(e as int)),
        decreases entries@.len() - e,
    {
        proof {
            assert(entries@.take(e as int + 1).drop_last() =~= entries@.take(e as int));
        }
        let entry = entries[e];
        if entry.type_ == MemmapEntryType::Usable || entry.type_ == MemmapEntryType::KernelAndModules {
            let mut pages = entry_mapping_plan(&entry);
            plan.append(&mut pages);
        }
        e = e + 1;
    }
    proof {
        assert(entries@.take(entries@.len() as int) =~= entries@);
    }
    plan
}

/// `maps` with the flag of the frame at `frame` set to `v`, in the first
/// region of `starts` that spans it.
pub open spec fn set_frame(maps: Seq<Seq<bool>>, starts: Seq<Option<u64>>, frame: u64, v: bool) -> Seq<
    Seq<bool>,
> {
    let i = first_region(starts, frame);
    maps.update(i, maps[i].update(frame_index(starts[i].unwrap(), frame), v))
}

/// A frame that is free, marked as used and then as free again, leaves the
/// flags as they were: handing out a frame and taking it back restores the frame map.
pub proof fn lemma_allocate_then_free_restores(
    maps: Seq<Seq<bool>>,
    starts: Seq<Option<u64>>,
    frame: u64,
)
    requires
        maps.len() == starts.len(),
        first_region(starts, frame) >= 0,
        frame_index(starts[first_region(starts, frame)].unwrap(), frame) < maps[first_region(
            starts,
            frame,
        )].len(),
        !maps[first_region(starts, frame)][frame_index(
            starts[first_region(starts, frame)].unwrap(),
            frame,
        )],
    ensures
        set_frame(set_frame(maps, starts, frame, true), starts, frame, false) == maps,
{
    let i = first_region(starts, frame);
    let idx = frame_index(starts[i].unwrap(), frame);
    lemma_first_region_bounds(starts, frame, 0);
    let once = set_frame(maps, starts, frame, true);
    let twice = set_frame(once, starts, frame, false);
    assert(twice[i] =~= maps[i]);
    assert(twice =~= maps);
}

/// `map` with the `n` flags from position `from` set to `v`.
pub open spec fn mark_range(map: Seq<bool>, from: int, n: int, v: bool) -> Seq<bool> {
    Seq::new(map.len(), |k: int| if from <= k < from + n { v } else { map[k] })
}

impl KernelFrameAllocator {
    /// A frame map whose regions start at the bases of the usable and kernel
    /// entries of `memmap` that hold at least one whole frame, in order, with
    /// no frame marked as used.
    pub fn init(memmap: &SoosMemmap) -> (r: Self)
        requires
            region_entry_count(memmap.entries()) <= REGION_COUNT,
            forall|k: int|
                0 <= k < memmap.entries().len() && tracked_entry(#[trigger] memmap.entries()[k])
                    ==> memmap.entries()[k].base + memmap.entries()[k].len <= u64::MAX
                    && memmap.entries()[k].base <= MAX_REGION_START,
        ensures
            r.wf(),
            r.memory_map() == *memmap,
            r.allocated_count() == 0,
            r.skip_count() == 0,
            forall|j: int|
                0 <= j < REGION_COUNT ==> #[trigger] r.starts()[j] == if j < region_starts(
                    memmap.entries(),
                ).len() {
                    Some(region_starts(memmap.entries())[j])
                } else {
                    None::<u64>
                },
            forall|j: int, k: int|
                0 <= j < REGION_COUNT && 0 <= k < FRAMES_PER_REGION ==> !#[trigger] r.bitmaps()[j][k],
    {
        let mut frame_map: Vec<FrameRegion> = Vec::new();
        let mut n: usize = 0;
        while n < REGION_COUNT
            invariant
                n <= REGION_COUNT,
                frame_map@.len() == n,
                forall|j: int|
                    0 <= j < n ==> (#[trigger] frame_map@[j]).start is None
                        && frame_map@[j].used@.len() == FRAMES_PER_REGION
                        && forall|k: int| 0 <= k < FRAMES_PER_REGION ==> !frame_map@[j].used@[k],
            decreases REGION_COUNT - n,
        {
            let used: Vec<bool> = vec![false; FRAMES_PER_REGION];
            frame_map.push(FrameRegion { start: None, used });
            n = n + 1;
        }
        let entries = memmap.iter();
        let mut i: usize = 0;
        let mut e: usize = 0;
        while e < entries.len()
            invariant
                e <= entries@.len(),
                entries@ == memmap.entries(),
                region_entry_count(entries@) <= REGION_COUNT,
                forall|k: int|
                    0 <= k < entries@.len() && tracked_entry(#[trigger] entries@[k])
                        ==> entries@[k].base + entries@[k].len <= u64::MAX
                        && entries@[k].base <= MAX_REGION_START,
                i == region_starts(entries@.take(e as int)).len(),
                i == region_entry_count(entries@.take(e as int)),
                frame_map@.len() == REGION_COUNT,
                forall|j: int|
                    0 <= j < REGION_COUNT ==> (#[trigger] frame_map@[j]).start == if j < i {
                        Some(region_starts(entries@.take(e as int))[j])
                    } else {
                        None::<u64>
                    },
                forall|j: int|
                    0 <= j < REGION_COUNT ==> (#[trigger] frame_map@[j]).used@.len()
                        == FRAMES_PER_REGION && forall|k: int|
                        0 <= k < FRAMES_PER_REGION ==> !frame_map@[j].used@[k],
                forall|j: int|
                    0 <= j < REGION_COUNT ==> ((#[trigger] frame_map@[j]).start matches Some(s)
                        ==> s <= MAX_REGION_START),
            decreases entries@.len() - e,
        {
            proof {
                assert(entries@.take(e as int + 1).drop_last() =~= entries@.take(e as int));
                lemma_region_count_prefix(entries@, e as int + 1);
            }
            let entry = entries[e];
            if entry.type_ == MemmapEntryType::Usable || entry.type_ == MemmapEntryType::KernelAndModules {
                let start_address = entry.base;
                let end_address = entry.base + entry.len;
                let num_frames = (end_address - start_address) / FRAME_SIZE;
                if num_frames != 0 {
                    frame_map[i].start = Some(start_address);
                    i = i + 1;
                }
            }
            e = e + 1;
        }
        proof {
            assert(entries@.take(entries@.len() as int) =~= entries@);
        }
        let r = KernelFrameAllocator { frame_map, memmap: *memmap, skip: 0, allocated: 0 };
        proof {
            assert forall|j: int| 0 <= j < REGION_COUNT implies #[trigger] r.starts()[j] == if j
                < region_starts(memmap.entries()).len() {
                Some(region_starts(memmap.entries())[j])
            } else {
                None::<u64>
            } by {
                assert(r.frame_map@[j].start == r.starts()[j]);
            }
            assert forall|j: int, k: int|
                0 <= j < REGION_COUNT && 0 <= k < FRAMES_PER_REGION implies !#[trigger] r.bitmaps()[j][k] by {
                assert(r.frame_map@[j].used@ == r.bitmaps()[j]);
            }
        }
        r
    }

    /// Marks the `size / 4096` frames of the frame of `size` bytes at `frame`
    /// as used or free, in the first region that spans `frame`; a frame that no
    /// region spans is left alone.
    pub fn mark_frame(&mut self, frame: u64, size: u64, used: bool)
        requires
            old(self).wf(),
            size == 4096 || size == 0x20_0000 || size == 0x4000_0000,
            old(self).spans(frame) ==> frame_index(
                old(self).starts()[first_region(old(self).starts(), frame)].unwrap(),
                frame,
            ) + size / FRAME_SIZE <= FRAMES_PER_REGION,
        ensures
            final(self).wf(),
            final(self).starts() == old(self).starts(),
            final(self).memory_map() == old(self).memory_map(),
            final(self).allocated_count() == old(self).allocated_count(),
            final(self).skip_count() == old(self).skip_count(),
            !old(self).spans(frame) ==> final(self).bitmaps() == old(self).bitmaps(),
            old(self).spans(frame) ==> ({
                let r = first_region(old(self).starts(), frame);
                final(self).bitmaps() == old(self).bitmaps().update(
                    r,
                    mark_range(
                        old(self).bitmaps()[r],
                        frame_index(old(self).starts()[r].unwrap(), frame),
                        (size / FRAME_SIZE) as int,
                        used,
                    ),
                )
            }),
    {
        proof {
            self.lemma_shape();
            lemma_first_region_bounds(self.starts(), frame, 0);
        }
        let ghost old_map = self.frame_map@;
        let mut i: usize = 0;
        while i < self.frame_map.len()
            invariant
                self.wf(),
                self.frame_map@ == old_map,
                self.starts() == old(self).starts(),
                self.bitmaps() == old(self).bitmaps(),
                self.memmap == old(self).memmap,
                self.allocated == old(self).allocated,
                self.skip == old(self).skip,
                old(self).spans(frame) ==> frame_index(
                    old(self).starts()[first_region(old(self).starts(), frame)].unwrap(),
                    frame,
                ) + size / FRAME_SIZE <= FRAMES_PER_REGION,
                size == 4096 || size == 0x20_0000 || size == 0x4000_0000,
                i <= REGION_COUNT,
                forall|j: int| 0 <= j < i ==> !region_spans(#[trigger] self.starts()[j], frame),
            decreases REGION_COUNT - i,
        {
            proof {
                self.lemma_shape();
                assert(self.frame_map@[i as int].start == self.starts()[i as int]);
                assert(self.frame_map@[i as int].used@ == self.bitmaps()[i as int]);
            }
            if let Some(start_address) = self.frame_map[i].start {
                if frame >= start_address && frame < start_address + REGION_SPAN {
                    proof {
                        lemma_first_region_skip(self.starts(), frame, i as nat);
                    }
                    let base_index = (frame - start_address) / FRAME_SIZE;
                    let count = size / FRAME_SIZE;
                    let ghost old_used = self.frame_map@[i as int].used@;
                    let mut k: u64 = 0;
                    while k < count
                        invariant
                            i < REGION_COUNT,
                            self.frame_map@.len() == REGION_COUNT,
                            forall|j: int|
                                0 <= j < REGION_COUNT && j != i ==> #[trigger] self.frame_map@[j]
                                    == old_map[j],
                            self.frame_map@[i as int].start == old_map[i as int].start,
                            old_used == old_map[i as int].used@,
                            old_used.len() == FRAMES_PER_REGION,
                            self.frame_map@[i as int].used@ == mark_range(
                                old_used,
                                base_index as int,
                                k as int,
                                used,
                            ),
                            base_index + count <= FRAMES_PER_REGION,
                            k <= count,
                            self.memmap == old(self).memmap,
                            self.allocated == old(self).allocated,
                            self.skip == old(self).skip,
                        decreases count - k,
                    {
                        let index = (base_index + k) as usize;
                        self.frame_map[i].used.set(index, used);
                        proof {
                            assert(self.frame_map@[i as int].used@ =~= mark_range(
                                old_used,
                                base_index as int,
                                k + 1,
                                used,
                            ));
                        }
                        k = k + 1;
                    }
                    proof {
                        let r = i as int;
                        let target = old(self).bitmaps().update(
                            r,
                            mark_range(old_used, base_index as int, count as int, used),
                        );
                        assert forall|j: int| 0 <= j < REGION_COUNT implies (#[trigger] self.bitmaps()[j]) == target[j] by {
                            assert(self.frame_map@[j].used@ == self.bitmaps()[j]);
                        }
                        assert(self.bitmaps() =~= target);
                        assert forall|j: int| 0 <= j < REGION_COUNT implies (#[trigger] self.starts()[j]) == old(self).starts()[j] by {
                            assert(self.frame_map@[j].start == self.starts()[j]);
                        }
                        assert(self.starts() =~= old(self).starts());
                        assert forall|j: int|
                            0 <= j < REGION_COUNT implies (#[trigger] self.frame_map@[j]).used@.len()
                            == FRAMES_PER_REGION by {}
                        assert forall|j: int|
                            0 <= j < REGION_COUNT implies match (#[trigger] self.frame_map@[j]).start {
                                Some(s) => s <= MAX_REGION_START,
                                None => true,
                            } by {
                            assert(self.frame_map@[j].start == old_map[j].start);
                        }
                    }
                    return;
                }
            }
            i = i + 1;
        }
        proof {
            lemma_first_region_skip(self.starts(), frame, REGION_COUNT as nat);
        }
    }

    /// How many frames were handed out and not taken back, how many frames
    /// the frame map marks as used, and how many frames it tracks in all.
    pub fn stats(&self) -> (r: (usize, usize, usize))
        requires
            self.wf(),
        ensures
            r.0 == self.allocated_count(),
            r.1 == count_true_all(self.bitmaps()),
            r.2 == REGION_COUNT * FRAMES_PER_REGION,
    {
        proof {
            self.lemma_shape();
        }
        let mut used: usize = 0;
        let mut total: usize = 0;
        let mut i: usize = 0;
        while i < self.frame_map.len()
            invariant
                self.wf(),
                i <= REGION_COUNT,
                used == count_true_all(self.bitmaps().take(i as int)),
                used <= i * FRAMES_PER_REGION,
                total == i * FRAMES_PER_REGION,
            decreases REGION_COUNT - i,
        {
            proof {
                self.lemma_shape();
                assert(self.frame_map@[i as int].used@ == self.bitmaps()[i as int]);
                assert(self.bitmaps().take(i as int + 1).drop_last() =~= self.bitmaps().take(
                    i as int,
                ));
            }
            let bitmap = &self.frame_map[i].used;
            let mut k: usize = 0;
            let mut in_region: usize = 0;
            while k < bitmap.len()
                invariant
                    bitmap@.len() == FRAMES_PER_REGION,
                    k <= FRAMES_PER_REGION,
                    in_region == count_true(bitmap@.take(k as int)),
                    in_region <= k,
                decreases FRAMES_PER_REGION - k,
            {
                proof {
                    assert(bitmap@.take(k as int + 1).drop_last() =~= bitmap@.take(k as int));
                }
                if bitmap[k] {
                    in_region = in_region + 1;
                }
                k = k + 1;
            }
            proof {
                assert(bitmap@.take(k as int) =~= bitmap@);
            }
            used = used + in_region;
            total = total + bitmap.len();
            i = i + 1;
        }
        proof {
            assert(self.bitmaps().take(REGION_COUNT as int) =~= self.bitmaps());
        }
        (self.allocated, used, total)
    }

    /// Takes back a frame that was handed out: marks it as free and counts one
    /// frame less as handed out.
    pub fn deallocate_frame(&mut self, frame: u64)
        requires
            old(self).wf(),
            old(self).allocated_count() > 0,
        ensures
            final(self).wf(),
            final(self).starts() == old(self).starts(),
            final(self).memory_map() == old(self).memory_map(),
            final(self).skip_count() == old(self).skip_count(),
            final(self).allocated_count() == old(self).allocated_count() - 1,
            !old(self).spans(frame) ==> final(self).bitmaps() == old(self).bitmaps(),
            old(self).spans(frame) ==> final(self).bitmaps() == set_frame(
                old(self).bitmaps(),
                old(self).starts(),
                frame,
                false,
            ),
    {
        proof {
            self.lemma_shape();
            lemma_first_region_bounds(self.starts(), frame, 0);
        }
        self.mark_frame(frame, FRAME_SIZE, false);
        proof {
            if old(self).spans(frame) {
                let r = first_region(old(self).starts(), frame);
                let idx = frame_index(old(self).starts()[r].unwrap(), frame);
                assert(mark_range(old(self).bitmaps()[r], idx, 1, false) =~= old(
                    self,
                ).bitmaps()[r].update(idx, false));
            }
        }
        self.allocated = self.allocated - 1;
    }

    /// The usable frames of the memory map, in the order the allocator searches them.
    pub open spec fn frames(&self) -> Seq<u64> {
        usable_frames(self.memory_map().entries())
    }

    /// The usable frames that a search resumes with: those after the first `skip`.
    pub open spec fn resumed(&self) -> Seq<u64> {
        seq_tail(self.frames(), self.skip_count() as int)
    }

    /// Whether position `j` of `v` is where a search for a free frame in `v`
    /// ends with a find: it and all frames before it lie below
    /// [`ALLOCATION_LIMIT`], the frames before it are used and it is free.
    pub open spec fn is_first_free(&self, v: Seq<u64>, j: int) -> bool {
        &&& 0 <= j < v.len()
        &&& v[j] < ALLOCATION_LIMIT
        &&& !self.frame_used(v[j])
        &&& forall|jj: int| 0 <= jj < j ==> #[trigger] v[jj] < ALLOCATION_LIMIT && self.frame_used(v[jj])
    }

    /// Whether a search for a free frame in `v` ends with a find.
    pub open spec fn finds_free(&self, v: Seq<u64>) -> bool {
        exists|j: int| self.is_first_free(v, j)
    }

    /// Searches the usable frames after the first `skip` for a free one, up to
    /// the first frame at or above [`ALLOCATION_LIMIT`]: the position after
    /// the skipped frames where it was found, and the frame.
    fn find_free(&self, skip: usize) -> (r: Option<(usize, u64)>)
        requires
            self.wf(),
            forall|j: int|
                0 <= j < self.frames().len() && #[trigger] self.frames()[j] < ALLOCATION_LIMIT
                    ==> self.spans(self.frames()[j]),
            forall|k: int|
                0 <= k < self.memory_map().entries().len()
                    && (#[trigger] self.memory_map().entries()[k]).type_ == MemmapEntryType::Usable
                    ==> self.memory_map().entries()[k].base + self.memory_map().entries()[k].len
                    <= u64::MAX,
            self.frames().len() < usize::MAX,
        ensures
            ({
                let v = seq_tail(self.frames(), skip as int);
                match r {
                    Some((j, f)) => self.is_first_free(v, j as int) && f == v[j as int],
                    None => !self.finds_free(v),
                }
            }),
    {
        let ghost frames = self.frames();
        let ghost v = seq_tail(frames, skip as int);
        let entries = self.memmap.iter();
        let mut pos: u64 = 0;
        let mut e: usize = 0;
        while e < entries.len()
            invariant
                self.wf(),
                entries@ == self.memory_map().entries(),
                frames == usable_frames(entries@),
                frames == self.frames(),
                v == seq_tail(frames, skip as int),
                frames.len() < usize::MAX,
                forall|j: int|
                    0 <= j < frames.len() && #[trigger] frames[j] < ALLOCATION_LIMIT
                        ==> self.spans(frames[j]),
                forall|k: int|
                    0 <= k < entries@.len() && (#[trigger] entries@[k]).type_
                        == MemmapEntryType::Usable ==> entries@[k].base + entries@[k].len <= u64::MAX,
                e <= entries@.len(),
                pos == usable_frames(entries@.take(e as int)).len(),
                pos <= frames.len(),
                forall|p: int|
                    skip <= p < pos ==> #[trigger] frames[p] < ALLOCATION_LIMIT && self.frame_used(
                        frames[p],
                    ),
            decreases entries@.len() - e,
        {
            proof {
                lemma_usable_frames_prefix(entries@, e as int + 1);
                assert(entries@.take(e as int + 1).drop_last() =~= entries@.take(e as int));
            }
            let entry = entries[e];
            if entry.type_ == MemmapEntryType::Usable {
                let n = entry.len / FRAME_SIZE;
                proof {
                    let before = usable_frames(entries@.take(e as int));
                    let after = usable_frames(entries@.take(e as int + 1));
                    assert(after == before + entry_frames(entry));
                    assert forall|kk: int| 0 <= kk < n implies #[trigger] frames[pos + kk]
                        == entry.base + kk * FRAME_SIZE by {
                        assert(after[pos + kk] == entry_frames(entry)[kk]);
                        assert(kk * FRAME_SIZE <= entry.len) by (nonlinear_arith)
                            requires
                                0 <= kk < n,
                                n == entry.len / FRAME_SIZE,
                                FRAME_SIZE == 4096,
                        ;
                    }
                }
                if pos + n > skip as u64 {
                    let mut k: u64 = if skip as u64 > pos { skip as u64 - pos } else { 0 };
                    while k < n
                        invariant
                            self.wf(),
                            frames == usable_frames(entries@),
                            frames == self.frames(),
                            v == seq_tail(frames, skip as int),
                            frames.len() < usize::MAX,
                            forall|j: int|
                                0 <= j < frames.len() && #[trigger] frames[j] < ALLOCATION_LIMIT
                                    ==> self.spans(frames[j]),
                            entry.base + entry.len <= u64::MAX,
                            n == entry.len / FRAME_SIZE,
                            pos + n <= frames.len(),
                            forall|kk: int|
                                0 <= kk < n ==> #[trigger] frames[pos + kk] == entry.base + kk
                                    * FRAME_SIZE,
                            skip <= pos + k,
                            k <= n,
                            forall|p: int|
                                skip <= p < pos + k ==> #[trigger] frames[p] < ALLOCATION_LIMIT
                                    && self.frame_used(frames[p]),
                        decreases n - k,
                    {
                        let frame = entry.base + k * FRAME_SIZE;
                        assert(frames[pos + k] == frame);
                        if frame >= ALLOCATION_LIMIT {
                            proof {
                                self.lemma_search_stops(frames, skip as int, (pos + k) as int);
                            }
                            return None;
                        }
                        if !self.is_used(frame) {
                            let j = (pos + k - skip as u64) as usize;
                            proof {
                                assert forall|jj: int| 0 <= jj < j implies #[trigger] v[jj]
                                    < ALLOCATION_LIMIT && self.frame_used(v[jj]) by {
                                    assert(v[jj] == frames[skip + jj]);
                                }
                            }
                            return Some((j, frame));
                        }
                        k = k + 1;
                    }
                }
                pos = pos + n;
            }
            e = e + 1;
        }
        proof {
            assert(entries@.take(entries@.len() as int) =~= entries@);
            self.lemma_search_stops(frames, skip as int, frames.len() as int);
        }
        None
    }

    /// A search that passed over the frames from `skip` up to `stop` without a
    /// find, and stops at `stop` because the frames end there or the frame there
    /// is not below the limit, finds nothing.
    proof fn lemma_search_stops(&self, frames: Seq<u64>, skip: int, stop: int)
        requires
            0 <= skip,
            skip <= stop <= frames.len() || (stop == frames.len() && skip > stop),
            stop < frames.len() ==> frames[stop] >= ALLOCATION_LIMIT,
            forall|p: int|
                skip <= p < stop ==> #[trigger] frames[p] < ALLOCATION_LIMIT && self.frame_used(
                    frames[p],
                ),
        ensures
            !self.finds_free(seq_tail(frames, skip)),
    {
        let v = seq_tail(frames, skip);
        if self.finds_free(v) {
            let j = choose|j: int| self.is_first_free(v, j);
            assert(v[j] == frames[skip + j]);
            if skip + j < stop {
                assert(self.frame_used(frames[skip + j]));
            } else if skip + j > stop {
                assert(v[stop - skip] == frames[stop]);
            }
        }
    }

    /// If some frame of `v` is free and it and all frames before it lie below
    /// the limit, a search in `v` ends with a find.
    proof fn lemma_free_frame_is_found(&self, v: Seq<u64>, j: int)
        requires
            0 <= j < v.len(),
            !self.frame_used(v[j]),
            forall|jj: int| 0 <= jj <= j ==> #[trigger] v[jj] < ALLOCATION_LIMIT,
        ensures
            self.finds_free(v),
        decreases j,
    {
        if exists|jj: int| 0 <= jj < j && !self.frame_used(#[trigger] v[jj]) {
            let jj = choose|jj: int| 0 <= jj < j && !self.frame_used(#[trigger] v[jj]);
            self.lemma_free_frame_is_found(v, jj);
        } else {
            assert(self.is_first_free(v, j));
        }
    }

    /// Whether some usable frame is free with it and every usable frame
    /// before it below [`ALLOCATION_LIMIT`]: what [`KernelFrameAllocator::allocate_frame`]
    /// needs to find one.
    pub fn has_free_frame(&self) -> (r: bool)
        requires
            self.wf(),
            forall|j: int|
                0 <= j < self.frames().len() && #[trigger] self.frames()[j] < ALLOCATION_LIMIT
                    ==> self.spans(self.frames()[j]),
            forall|k: int|
                0 <= k < self.memory_map().entries().len()
                    && (#[trigger] self.memory_map().entries()[k]).type_ == MemmapEntryType::Usable
                    ==> self.memory_map().entries()[k].base + self.memory_map().entries()[k].len
                    <= u64::MAX,
            self.frames().len() < usize::MAX,
        ensures
            r == exists|j: int|
                0 <= j < self.frames().len() && !self.frame_used(self.frames()[j])
                    && forall|jj: int| 0 <= jj <= j ==> #[trigger] self.frames()[jj] < ALLOCATION_LIMIT,
    {
        let found = self.find_free(0);
        proof {
            let v = self.frames();
            assert(seq_tail(v, 0) =~= v);
            if found is Some {
                let j = found.unwrap().0 as int;
                assert(self.is_first_free(v, j));
                assert forall|jj: int| 0 <= jj <= j implies #[trigger] v[jj] < ALLOCATION_LIMIT by {
                    if jj < j {
                        assert(v[jj] < ALLOCATION_LIMIT && self.frame_used(v[jj]));
                    }
                }
            } else {
                if exists|j: int|
                    0 <= j < v.len() && !self.frame_used(v[j]) && forall|jj: int|
                        0 <= jj <= j ==> #[trigger] v[jj] < ALLOCATION_LIMIT {
                    let j = choose|j: int|
                        0 <= j < v.len() && !self.frame_used(v[j]) && forall|jj: int|
                            0 <= jj <= j ==> #[trigger] v[jj] < ALLOCATION_LIMIT;
                    self.lemma_free_frame_is_found(v, j);
                }
            }
        }
        found.is_some()
    }

    /// Hands out a free frame and marks it as used.
    ///
    /// The search starts after the first `skip` usable frames and gives up at
    /// the first frame at or above [`ALLOCATION_LIMIT`]; if it finds nothing
    /// it starts over from the first usable frame.  The next search skips one
    /// frame more than the position, counted from where the search started,
    /// at which the frame was found.
    pub fn allocate_frame(&mut self) -> (r: Option<u64>)
        requires
            old(self).wf(),
            forall|j: int|
                0 <= j < old(self).frames().len() && #[trigger] old(self).frames()[j]
                    < ALLOCATION_LIMIT ==> old(self).spans(old(self).frames()[j]),
            forall|k: int|
                0 <= k < old(self).memory_map().entries().len() && (#[trigger] old(
                    self,
                ).memory_map().entries()[k]).type_ == MemmapEntryType::Usable ==> old(
                    self,
                ).memory_map().entries()[k].base + old(self).memory_map().entries()[k].len
                    <= u64::MAX,
            old(self).frames().len() < usize::MAX,
            old(self).allocated_count() < usize::MAX,
            exists|j: int|
                0 <= j < old(self).frames().len() && !old(self).frame_used(old(self).frames()[j])
                    && forall|jj: int|
                    0 <= jj <= j ==> #[trigger] old(self).frames()[jj] < ALLOCATION_LIMIT,
        ensures
            final(self).wf(),
            final(self).starts() == old(self).starts(),
            final(self).memory_map() == old(self).memory_map(),
            final(self).allocated_count() == old(self).allocated_count() + 1,
            old(self).finds_free(old(self).resumed()) ==> exists|j: int|
                old(self).is_first_free(old(self).resumed(), j) && r == Some(
                    old(self).resumed()[j],
                ) && final(self).skip_count() == j + 1,
            !old(self).finds_free(old(self).resumed()) ==> exists|j: int|
                old(self).is_first_free(old(self).frames(), j) && r == Some(old(self).frames()[j])
                    && final(self).skip_count() == j + 1,
            r matches Some(f) && old(self).spans(f) && final(self).bitmaps() == set_frame(
                old(self).bitmaps(),
                old(self).starts(),
                f,
                true,
            ),
    {
        let ghost v0 = self.frames();
        let ghost resumed = seq_tail(v0, self.skip as int);
        let ghost mut searched = resumed;
        let found = match self.find_free(self.skip) {
            Some(found) => {
                proof {
                    assert(old(self).finds_free(resumed));
                }
                found
            },
            None => {
                self.skip = 0;
                proof {
                    assert(!old(self).finds_free(resumed));
                    searched = v0;
                }
                proof {
                    assert(seq_tail(v0, 0) =~= v0);
                    let j = choose|j: int|
                        0 <= j < v0.len() && !self.frame_used(v0[j]) && forall|jj: int|
                            0 <= jj <= j ==> #[trigger] v0[jj] < ALLOCATION_LIMIT;
                    self.lemma_free_frame_is_found(v0, j);
                }
                match self.find_free(0) {
                    Some(found) => found,
                    None => {
                        unreached()
                    },
                }
            },
        };
        let (j, frame) = found;
        proof {
            assert(seq_tail(v0, 0) =~= v0);
            assert(old(self).is_first_free(searched, j as int));
            self.lemma_shape();
            lemma_first_region_bounds(self.starts(), frame, 0);
        }
        self.mark_frame(frame, FRAME_SIZE, true);
        proof {
            let i = first_region(old(self).starts(), frame);
            let idx = frame_index(old(self).starts()[i].unwrap(), frame);
            assert(mark_range(old(self).bitmaps()[i], idx, 1, true) =~= old(
                self,
            ).bitmaps()[i].update(idx, true));
        }
        self.skip = j + 1;
        self.allocated = self.allocated + 1;
        proof {
            assert(old(self).is_first_free(searched, j as int));
        }
        Some(frame)
    }

    /// Whether the 4 KiB frame at `frame` is marked as used.
    pub fn is_used(&self, frame: u64) -> (r: bool)
        requires
            self.wf(),
            self.spans(frame),
        ensures
            r == self.frame_used(frame),
    {
        proof {
            self.lemma_shape();
        }
        let mut i: usize = 0;
        while i < self.frame_map.len()
            invariant
                self.wf(),
                self.spans(frame),
                i <= REGION_COUNT,
                forall|j: int| 0 <= j < i ==> !region_spans(#[trigger] self.starts()[j], frame),
            decreases REGION_COUNT - i,
        {
            proof {
                self.lemma_shape();
                assert(self.frame_map@[i as int].start == self.starts()[i as int]);
                assert(self.frame_map@[i as int].used@ == self.bitmaps()[i as int]);
            }
            if let Some(start_address) = self.frame_map[i].start {
                if frame >= start_address && frame < start_address + REGION_SPAN {
                    proof {
                        lemma_first_region_skip(self.starts(), frame, i as nat);
                    }
                    let index = ((frame - start_address) / FRAME_SIZE) as usize;
                    return self.frame_map[i].used[index];
                }
            }
            i = i + 1;
        }
        proof {
            lemma_first_region_skip(self.starts(), frame, REGION_COUNT as nat);
        }
        // every region has been passed over, which `spans(frame)` rules out
        unreached()
    }
}

/// `v` without its first `n` elements; empty when `v` has fewer.
pub open spec fn seq_tail(v: Seq<u64>, n: int) -> Seq<u64> {
    if n <= v.len() {
        v.subrange(n, v.len() as int)
    } else {
        Seq::empty()
    }
}

/// The usable frames of a prefix of `entries` are a prefix of the usable frames
/// of `entries`, and one more entry adds its frames if it is usable.
proof fn lemma_usable_frames_prefix(entries: Seq<MemmapEntry>, m: int)
    requires
        0 <= m <= entries.len(),
    ensures
        usable_frames(entries.take(m)).len() <= usable_frames(entries).len(),
        forall|p: int|
            0 <= p < usable_frames(entries.take(m)).len() ==> #[trigger] usable_frames(
                entries.take(m),
            )[p] == usable_frames(entries)[p],
    decreases entries.len() - m,
{
    if m < entries.len() {
        lemma_usable_frames_prefix(entries, m + 1);
        assert(entries.take(m + 1).drop_last() =~= entries.take(m));
        let a = usable_frames(entries.take(m));
        let b = usable_frames(entries.take(m + 1));
        assert forall|p: int| 0 <= p < a.len() implies #[trigger] a[p] == b[p] by {}
    } else {
        assert(entries.take(m) =~= entries);
    }
}

/// The counts of regions of the prefixes of `entries` agree with the regions they start.
proof fn lemma_region_count_prefix(entries: Seq<MemmapEntry>, m: int)
    requires
        0 <= m <= entries.len(),
    ensures
        region_entry_count(entries.take(m)) == region_starts(entries.take(m)).len(),
        region_entry_count(entries.take(m)) <= region_entry_count(entries),
    decreases entries.len() - m,
{
    if m < entries.len() {
        lemma_region_count_prefix(entries, m + 1);
        assert(entries.take(m + 1).drop_last() =~= entries.take(m));
    } else {
        assert(entries.take(m) =~= entries);
        lemma_region_count_starts(entries);
    }
}

proof fn lemma_region_count_starts(entries: Seq<MemmapEntry>)
    ensures
        region_entry_count(entries) == region_starts(entries).len(),
    decreases entries.len(),
{
    if entries.len() > 0 {
        lemma_region_count_starts(entries.drop_last());
    }
}

/// If no region before `i` spans `addr`, the first region from 0 is the first from `i`.
proof fn lemma_first_region_skip(starts: Seq<Option<u64>>, addr: u64, i: nat)
    requires
        i <= starts.len(),
        forall|j: int| 0 <= j < i ==> !region_spans(#[trigger] starts[j], addr),
    ensures
        first_region(starts, addr) == first_region_from(starts, addr, i),
    decreases i,
{
    if i > 0 {
        lemma_first_region_skip(starts, addr, (i - 1) as nat);
    }
}

/// The first region from `i` is -1 or a region at or after `i` that spans `addr`.
proof fn lemma_first_region_bounds(starts: Seq<Option<u64>>, addr: u64, i: nat)
    ensures
        first_region_from(starts, addr, i) == -1 || (i <= first_region_from(starts, addr, i)
            < starts.len() && region_spans(starts[first_region_from(starts, addr, i)], addr)),
    decreases starts.len() - i,
{
    if i < starts.len() && !region_spans(starts[i as int], addr) {
        lemma_first_region_bounds(starts, addr, i + 1);
    }
}

} // verus!
