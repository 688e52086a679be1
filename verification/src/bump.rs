//! The early heap: a bump allocator that hands out memory from the start of
//! the longest usable range of a memory map of 64 slots and never takes any
//! back.

use vstd::prelude::*;

use crate::memmap::{MemmapEntry, MemmapEntryType};

verus! {

/// The number of slots in the allocator's memory map.
pub const BUMP_MEMMAP_SLOTS: usize = 64;

/// The entry that fills every slot before a memory map is loaded: 64 KiB of
/// usable memory at 0x1000.
pub open spec fn default_entry() -> MemmapEntry {
    MemmapEntry { base: 0x1000, len: 0x10000, type_: MemmapEntryType::Usable }
}

/// The entry that the allocator takes memory from among `slots`: of the
/// usable entries, the one with the greatest length, and of several such
/// the last one.
pub open spec fn longest_usable(slots: Seq<Option<MemmapEntry>>) -> Option<MemmapEntry>
    decreases slots.len(),
{
    if slots.len() == 0 {
        None
    } else {
        let best = longest_usable(slots.drop_last());
        match slots.last() {
            Some(e) => if e.type_ == MemmapEntryType::Usable {
                match best {
                    Some(a) => if a.len > e.len {
                        Some(a)
                    } else {
                        Some(e)
                    },
                    None => Some(e),
                }
            } else {
                best
            },
            None => best,
        }
    }
}

/// The bump allocator: the memory map it takes memory from, and the next
/// address it hands out once it has handed out anything.
pub struct SoosAllocator {
    memmap: Vec<Option<MemmapEntry>>,
    allocated: Option<u64>,
}

impl SoosAllocator {
    /// The slots of the memory map.
    pub closed spec fn slots(&self) -> Seq<Option<MemmapEntry>> {
        self.memmap@
    }

    /// Where the next allocation ends the last one, once there was one.
    pub closed spec fn next_address(&self) -> Option<u64> {
        self.allocated
    }

    /// The allocator's invariant: the map has its 64 slots.
    pub closed spec fn wf(&self) -> bool {
        self.memmap@.len() == BUMP_MEMMAP_SLOTS
    }

    /// Where the next allocation starts: after the last one, or at the base
    /// of the longest usable entry.
    pub open spec fn next_block(&self) -> Option<u64> {
        match self.next_address() {
            Some(a) => Some(a),
            None => match longest_usable(self.slots()) {
                Some(e) => Some(e.base),
                None => None,
            },
        }
    }

    /// An allocator whose 64 slots all hold the default entry and that has
    /// handed out nothing.
    pub fn new() -> (r: Self)
        ensures
            r.wf(),
            r.slots() == Seq::new(64, |i: int| Some(default_entry())),
            r.next_address() is None,
    {
        let mut memmap: Vec<Option<MemmapEntry>> = Vec::new();
        let mut i: usize = 0;
        while i < BUMP_MEMMAP_SLOTS
            invariant
                i <= BUMP_MEMMAP_SLOTS,
                memmap@ == Seq::new(i as nat, |k: int| Some(default_entry())),
            decreases BUMP_MEMMAP_SLOTS - i,
        {
            memmap.push(Some(MemmapEntry { base: 0x1000, len: 0x10000, type_: MemmapEntryType::Usable }));
            i = i + 1;
            assert(memmap@ =~= Seq::new(i as nat, |k: int| Some(default_entry())));
        }
        SoosAllocator { memmap, allocated: None }
    }

    /// Puts the entries of the bootloader's memory map in the first slots, as
    /// many as there are slots; the other slots keep what they held.
    pub fn load_limine_memmap(&mut self, entries: &[MemmapEntry])
        requires
            old(self).wf(),
        ensures
            final(self).wf(),
            final(self).next_address() == old(self).next_address(),
            final(self).slots() == Seq::new(
                64,
                |i: int| if i < entries@.len() { Some(entries@[i]) } else { old(self).slots()[i] },
            ),
    {
        let mut i: usize = 0;
        while i < BUMP_MEMMAP_SLOTS && i < entries.len()
            invariant
                i <= BUMP_MEMMAP_SLOTS,
                i <= entries@.len(),
                self.memmap@.len() == BUMP_MEMMAP_SLOTS,
                self.allocated == old(self).allocated,
                forall|k: int|
                    0 <= k < 64 ==> #[trigger] self.memmap@[k] == if k < i {
                        Some(entries@[k])
                    } else {
                        old(self).memmap@[k]
                    },
            decreases BUMP_MEMMAP_SLOTS - i,
        {
            self.memmap.set(i, Some(entries[i]));
            i = i + 1;
        }
        assert(self.memmap@ =~= Seq::new(
            64,
            |k: int| if k < entries@.len() { Some(entries@[k]) } else { old(self).memmap@[k] },
        ));
    }

    /// The base of the longest usable entry of the map (the last one of
    /// several of the same length), if there is a usable entry.
    pub fn longest_usable_base(&self) -> (r: Option<u64>)
        ensures
            r == (match longest_usable(self.slots()) {
                Some(e) => Some(e.base),
                None => None::<u64>,
            }),
    {
        let mut best: Option<MemmapEntry> = None;
        let mut i: usize = 0;
        while i < self.memmap.len()
            invariant
                i <= self.memmap@.len(),
                best == longest_usable(self.memmap@.take(i as int)),
            decreases self.memmap@.len() - i,
        {
            assert(self.memmap@.take(i + 1).drop_last() =~= self.memmap@.take(i as int));
            if let Some(e) = self.memmap[i] {
                if e.type_ == MemmapEntryType::Usable {
                    best = match best {
                        Some(a) => if a.len > e.len {
                            Some(a)
                        } else {
                            Some(e)
                        },
                        None => Some(e),
                    };
                }
            }
            i = i + 1;
        }
        assert(self.memmap@.take(self.memmap@.len() as int) =~= self.memmap@);
        match best {
            Some(e) => Some(e.base),
            None => None,
        }
    }

    /// Hands out `size` bytes: the block starts where the last one ended, or
    /// for the first block at the base of the longest usable entry, and the
    /// next block starts where this one ends.  Without a usable entry the
    /// first allocation stops the kernel.
    pub fn allocate(&mut self, size: u64) -> (r: u64)
        requires
            old(self).wf(),
            old(self).next_block() is Some,
            old(self).next_block().unwrap() + size <= u64::MAX,
        ensures
            final(self).wf(),
            final(self).slots() == old(self).slots(),
            r == old(self).next_block().unwrap(),
            final(self).next_address() == Some((r + size) as u64),
            final(self).next_block() == Some((r + size) as u64),
    {
        let start = match self.allocated {
            Some(a) => a,
            None => match self.longest_usable_base() {
                Some(b) => b,
                None => {
                    unreached()
                },
            },
        };
        self.allocated = Some(start + size);
        start
    }
}

/// Whether the slot holds a usable entry.
pub open spec fn usable_slot(o: Option<MemmapEntry>) -> bool {
    o matches Some(e) && e.type_ == MemmapEntryType::Usable
}

/// The entry that the allocator takes memory from is usable and is one of
/// the slots; no usable slot is longer, and every usable slot after it is
/// shorter.
pub proof fn lemma_longest_usable_is_longest(slots: Seq<Option<MemmapEntry>>)
    requires
        exists|i: int| 0 <= i < slots.len() && usable_slot(#[trigger] slots[i]),
    ensures
        longest_usable(slots) matches Some(best) && best.type_ == MemmapEntryType::Usable
            && exists|i: int|
            0 <= i < slots.len() && slots[i] == Some(best) && (forall|j: int|
                0 <= j < slots.len() && usable_slot(#[trigger] slots[j]) ==> slots[j].unwrap().len
                    <= best.len && (j > i ==> slots[j].unwrap().len < best.len)),
    decreases slots.len(),
{
    let n = slots.len();
    let init = slots.drop_last();
    if exists|i: int| 0 <= i < init.len() && usable_slot(#[trigger] init[i]) {
        lemma_longest_usable_is_longest(init);
        let a = longest_usable(init).unwrap();
        let ia = choose|i: int|
            0 <= i < init.len() && init[i] == Some(a) && (forall|j: int|
                0 <= j < init.len() && usable_slot(#[trigger] init[j]) ==> init[j].unwrap().len
                    <= a.len && (j > i ==> init[j].unwrap().len < a.len));
        if usable_slot(slots[n - 1]) && !(a.len > slots[n - 1].unwrap().len) {
            let e = slots[n - 1].unwrap();
            assert forall|j: int| 0 <= j < n && usable_slot(#[trigger] slots[j]) implies slots[j].unwrap().len
                <= e.len && (j > n - 1 ==> slots[j].unwrap().len < e.len) by {
                if j < n - 1 {
                    assert(init[j] == slots[j]);
                }
            }
        } else {
            assert(slots[ia] == init[ia]);
            assert forall|j: int| 0 <= j < n && usable_slot(#[trigger] slots[j]) implies slots[j].unwrap().len
                <= a.len && (j > ia ==> slots[j].unwrap().len < a.len) by {
                if j < n - 1 {
                    assert(init[j] == slots[j]);
                }
            }
        }
    } else {
        lemma_no_usable_none(init);
        let i0 = choose|i: int| 0 <= i < slots.len() && usable_slot(#[trigger] slots[i]);
        if i0 < n - 1 {
            assert(init[i0] == slots[i0]);
        }
        let e = slots[n - 1].unwrap();
        assert forall|j: int| 0 <= j < n && usable_slot(#[trigger] slots[j]) implies slots[j].unwrap().len
            <= e.len && (j > n - 1 ==> slots[j].unwrap().len < e.len) by {
            if j < n - 1 {
                assert(init[j] == slots[j]);
            }
        }
    }
}

/// Without a usable slot there is no entry to take memory from.
proof fn lemma_no_usable_none(slots: Seq<Option<MemmapEntry>>)
    requires
        !exists|i: int| 0 <= i < slots.len() && usable_slot(#[trigger] slots[i]),
    ensures
        longest_usable(slots) is None,
    decreases slots.len(),
{
    if slots.len() > 0 {
        let init = slots.drop_last();
        assert forall|i: int| 0 <= i < init.len() implies !usable_slot(#[trigger] init[i]) by {
            assert(init[i] == slots[i]);
        }
        lemma_no_usable_none(init);
        assert(!usable_slot(slots[slots.len() - 1]));
    }
}

} // verus!
