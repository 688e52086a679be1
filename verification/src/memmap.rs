//! The physical memory map handed over by the bootloader.

use vstd::prelude::*;

verus! {

/// How a range of physical memory may be used.
#[derive(Debug, Copy, Clone, PartialEq, Eq, Structural)]
pub enum MemmapEntryType {
    Usable,
    Reserved,
    AcpiReclaimable,
    AcpiNvs,
    BadMemory,
    BootloaderReclaimable,
    KernelAndModules,
    Framebuffer,
}

impl MemmapEntryType {
    /// The number that the bootloader protocol gives this type.
    pub open spec fn code(self) -> u64 {
        match self {
            MemmapEntryType::Usable => 0,
            MemmapEntryType::Reserved => 1,
            MemmapEntryType::AcpiReclaimable => 2,
            MemmapEntryType::AcpiNvs => 3,
            MemmapEntryType::BadMemory => 4,
            MemmapEntryType::BootloaderReclaimable => 5,
            MemmapEntryType::KernelAndModules => 6,
            MemmapEntryType::Framebuffer => 7,
        }
    }

    /// The type with the bootloader's number `code`, if there is one.
    pub fn from_u64(code: u64) -> (r: Option<Self>)
        ensures
            r matches Some(t) ==> t.code() == code,
            r is None <==> code > 7,
    {
        match code {
            0 => Some(MemmapEntryType::Usable),
            1 => Some(MemmapEntryType::Reserved),
            2 => Some(MemmapEntryType::AcpiReclaimable),
            3 => Some(MemmapEntryType::AcpiNvs),
            4 => Some(MemmapEntryType::BadMemory),
            5 => Some(MemmapEntryType::BootloaderReclaimable),
            6 => Some(MemmapEntryType::KernelAndModules),
            7 => Some(MemmapEntryType::Framebuffer),
            _ => None,
        }
    }
}

/// One range of physical memory: `len` bytes from `base`.
#[derive(Debug, Copy, Clone, PartialEq, Eq, Structural)]
pub struct MemmapEntry {
    pub base: u64,
    pub len: u64,
    pub type_: MemmapEntryType,
}

/// The number of slots in a memory map.
pub const MEMMAP_SLOTS: usize = 128;

/// A memory map of at most [`MEMMAP_SLOTS`] entries; empty slots are `None`.
#[derive(Debug, Copy, Clone)]
pub struct SoosMemmap(pub [Option<MemmapEntry>; 128]);

/// The entries among `slots`, in order, without the empty slots.
pub open spec fn present_entries(slots: Seq<Option<MemmapEntry>>) -> Seq<MemmapEntry>
    decreases slots.len(),
{
    if slots.len() == 0 {
        Seq::empty()
    } else {
        let rest = present_entries(slots.drop_last());
        match slots.last() {
            Some(e) => rest.push(e),
            None => rest,
        }
    }
}

/// The address ranges of the usable entries among `entries`, in order.
pub open spec fn usable_ranges(entries: Seq<MemmapEntry>) -> Seq<(u64, u64)>
    decreases entries.len(),
{
    if entries.len() == 0 {
        Seq::empty()
    } else {
        let rest = usable_ranges(entries.drop_last());
        let e = entries.last();
        if e.type_ == MemmapEntryType::Usable {
            rest.push((e.base, (e.base + e.len) as u64))
        } else {
            rest
        }
    }
}

impl SoosMemmap {
    /// The entries of the map, in order, without the empty slots.
    pub open spec fn entries(&self) -> Seq<MemmapEntry> {
        present_entries(self.0@)
    }

    /// A map that holds `entries` in its first slots.
    pub fn from_entries(entries: &[MemmapEntry]) -> (r: Self)
        requires
            entries@.len() <= MEMMAP_SLOTS,
        ensures
            r.0@ == Seq::new(
                MEMMAP_SLOTS as nat,
                |i: int| if i < entries@.len() { Some(entries@[i]) } else { None::<MemmapEntry> },
            ),
    {
        let mut slots: [Option<MemmapEntry>; 128] = [None; 128];
        let mut i: usize = 0;
        while i < entries.len()
            invariant
                i <= entries@.len() <= MEMMAP_SLOTS,
                slots@.len() == MEMMAP_SLOTS,
                forall|k: int|
                    0 <= k < MEMMAP_SLOTS ==> #[trigger] slots@[k] == if k < i {
                        Some(entries@[k])
                    } else {
                        None::<MemmapEntry>
                    },
            decreases entries@.len() - i,
        {
            slots[i] = Some(entries[i]);
            i = i + 1;
        }
        let r = SoosMemmap(slots);
        assert(r.0@ =~= Seq::new(
            MEMMAP_SLOTS as nat,
            |i: int| if i < entries@.len() { Some(entries@[i]) } else { None::<MemmapEntry> },
        ));
        r
    }

    /// The entries of the map, in order, without the empty slots.
    pub fn iter(&self) -> (r: Vec<MemmapEntry>)
        ensures
            r@ == self.entries(),
    {
        let mut r: Vec<MemmapEntry> = Vec::new();
        let mut i: usize = 0;
        while i < 128
            invariant
                i <= 128,
                self.0@.len() == 128,
                r@ == present_entries(self.0@.take(i as int)),
            decreases 128 - i,
        {
            assert(self.0@.take(i as int + 1).drop_last() =~= self.0@.take(i as int));
            if let Some(e) = self.0[i] {
                r.push(e);
            }
            i = i + 1;
        }
        assert(self.0@.take(128) =~= self.0@);
        r
    }

    /// The address ranges `base..base + len` of the usable entries, in order:
    /// the addresses that the map offers for use are those of these ranges.
    pub fn iter_usable_addresses(&self) -> (r: Vec<core::ops::Range<u64>>)
        requires
            forall|i: int|
                0 <= i < self.entries().len() && self.entries()[i].type_ == MemmapEntryType::Usable
                    ==> self.entries()[i].base + self.entries()[i].len <= u64::MAX,
        ensures
            r@.len() == usable_ranges(self.entries()).len(),
            forall|i: int|
                0 <= i < r@.len() ==> (#[trigger] r@[i]).start == usable_ranges(self.entries())[i].0
                    && r@[i].end == usable_ranges(self.entries())[i].1,
    {
        let entries = self.iter();
        let mut r: Vec<core::ops::Range<u64>> = Vec::new();
        let mut i: usize = 0;
        while i < entries.len()
            invariant
                i <= entries@.len(),
                entries@ == self.entries(),
                forall|k: int|
                    0 <= k < entries@.len() && entries@[k].type_ == MemmapEntryType::Usable
                        ==> entries@[k].base + entries@[k].len <= u64::MAX,
                r@.len() == usable_ranges(entries@.take(i as int)).len(),
                forall|k: int|
                    0 <= k < r@.len() ==> (#[trigger] r@[k]).start == usable_ranges(
                        entries@.take(i as int),
                    )[k].0 && r@[k].end == usable_ranges(entries@.take(i as int))[k].1,
            decreases entries@.len() - i,
        {
            assert(entries@.take(i as int + 1).drop_last() =~= entries@.take(i as int));
            let e = entries[i];
            if e.type_ == MemmapEntryType::Usable {
                r.push(e.base..e.base + e.len);
            }
            i = i + 1;
        }
        assert(entries@.take(entries@.len() as int) =~= entries@);
        r
    }
}

} // verus!
