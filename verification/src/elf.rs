//! Loading a program: what an ELF executable asks to have mapped, copied and
//! zeroed, the stack of the new process and where its arguments go on it.
//! The page tables and the copying are the caller's.

use vstd::prelude::*;

use elf_rs::ElfFile;

use vstd::string::StringSliceAdditionalSpecFns;

use crate::process::MappedPage;

verus! {

/// A program header of an ELF file, as the loader reads it.
pub struct ProgramHeader {
    /// Whether it is a loadable segment.
    pub loadable: bool,
    /// Its permission bits: 1 execute, 2 write, 4 read.
    pub flags: u32,
    /// Where its bytes start in the file.
    pub offset: u64,
    /// Where it starts in memory.
    pub vaddr: u64,
    /// How many of its bytes the file holds.
    pub filesz: u64,
    /// How many bytes it takes in memory.
    pub memsz: u64,
}

impl ProgramHeader {
    /// The header as a tuple of its fields, in order.
    pub open spec fn fields(&self) -> (bool, u32, u64, u64, u64, u64) {
        (self.loadable, self.flags, self.offset, self.vaddr, self.filesz, self.memsz)
    }
}

/// An ELF file as the loader reads it.
pub struct ElfImage {
    /// Whether it is an executable.
    pub executable: bool,
    /// Where execution starts.
    pub entry_point: u64,
    /// Its program headers, in order.
    pub program_headers: Vec<ProgramHeader>,
}

impl ElfImage {
    /// The image as a tuple of its fields, the headers as tuples.
    pub open spec fn fields(&self) -> (bool, u64, Seq<(bool, u32, u64, u64, u64, u64)>) {
        (self.executable, self.entry_point, self.program_headers@.map_values(|h: ProgramHeader| h.fields()))
    }
}


/// The little-endian 16-bit number at `at` in `bytes`.
pub open spec fn le_u16(bytes: Seq<u8>, at: int) -> int {
    bytes[at] + 256 * bytes[at + 1]
}

/// The little-endian 32-bit number at `at` in `bytes`.
pub open spec fn le_u32(bytes: Seq<u8>, at: int) -> int {
    le_u16(bytes, at) + 0x1_0000 * le_u16(bytes, at + 2)
}

/// The little-endian 64-bit number at `at` in `bytes`.
pub open spec fn le_u64(bytes: Seq<u8>, at: int) -> int {
    le_u32(bytes, at) + 0x1_0000_0000 * le_u32(bytes, at + 4)
}

/// Whether `bytes` start with the ELF magic number.
pub open spec fn has_elf_magic(bytes: Seq<u8>) -> bool {
    bytes.len() >= 4 && bytes[0] == 0x7f && bytes[1] == 0x45 && bytes[2] == 0x4c && bytes[3] == 0x46
}

/// The program header of a 64-bit file at `at` in `bytes`, as the loader
/// reads it: whether its type is `LOAD` (1), its flag bits, offset, virtual
/// address, file size and memory size.
pub open spec fn program_header64(bytes: Seq<u8>, at: int) -> (bool, u32, u64, u64, u64, u64) {
    (
        le_u32(bytes, at) == 1,
        le_u32(bytes, at + 4) as u32,
        le_u64(bytes, at + 8) as u64,
        le_u64(bytes, at + 16) as u64,
        le_u64(bytes, at + 32) as u64,
        le_u64(bytes, at + 40) as u64,
    )
}

/// The program header of a 32-bit file at `at` in `bytes`, as the loader reads it.
pub open spec fn program_header32(bytes: Seq<u8>, at: int) -> (bool, u32, u64, u64, u64, u64) {
    (
        le_u32(bytes, at) == 1,
        le_u32(bytes, at + 24) as u32,
        le_u32(bytes, at + 4) as u64,
        le_u32(bytes, at + 8) as u64,
        le_u32(bytes, at + 16) as u64,
        le_u32(bytes, at + 20) as u64,
    )
}

/// The `count` program headers of `size` bytes each that start at `offset`
/// in `bytes`, read with `header`, when they all lie within the bytes; none
/// when they do not.
pub open spec fn program_headers(
    bytes: Seq<u8>,
    offset: int,
    count: int,
    size: int,
    header: spec_fn(Seq<u8>, int) -> (bool, u32, u64, u64, u64, u64),
) -> Seq<(bool, u32, u64, u64, u64, u64)> {
    if offset + count * size <= bytes.len() {
        Seq::new(count as nat, |i: int| header(bytes, offset + i * size))
    } else {
        Seq::empty()
    }
}

/// What reading `bytes` as an ELF file gives, when they are one: whether
/// its type is `ET_EXEC` (2), its entry point, and its program headers.
/// The bytes are one when they hold at least a 32-bit header (52 bytes),
/// start with the magic number and are of class 2 (64-bit, with a header of
/// 64 bytes) or 1 (32-bit), and hold at least as many bytes as the header
/// says it has.  The header is read as a little-endian machine reads it.
pub open spec fn elf_image(bytes: Seq<u8>) -> Option<(bool, u64, Seq<(bool, u32, u64, u64, u64, u64)>)> {
    let len = bytes.len();
    if len < 52 || !has_elf_magic(bytes) {
        None
    } else if bytes[4] == 2 {
        if len < 64 || len < le_u16(bytes, 52) {
            None
        } else {
            Some(
                (
                    le_u16(bytes, 16) == 2,
                    le_u64(bytes, 24) as u64,
                    program_headers(
                        bytes,
                        le_u64(bytes, 32),
                        le_u16(bytes, 56),
                        56,
                        |b: Seq<u8>, at: int| program_header64(b, at),
                    ),
                ),
            )
        }
    } else if bytes[4] == 1 {
        if len < le_u16(bytes, 40) {
            None
        } else {
            Some(
                (
                    le_u16(bytes, 16) == 2,
                    le_u32(bytes, 24) as u64,
                    program_headers(
                        bytes,
                        le_u32(bytes, 28),
                        le_u16(bytes, 44),
                        32,
                        |b: Seq<u8>, at: int| program_header32(b, at),
                    ),
                ),
            )
        }
    } else {
        None
    }
}

/// Whether the program headers that the header of `bytes` points at start,
/// when they lie within the bytes, at an offset aligned for them: 8 bytes
/// in a 64-bit file (class 2), whose headers are 56 bytes long, and 4 in a
/// 32-bit one (class 1), whose headers are 32 bytes long.  The offset and
/// the number of headers are read as a little-endian machine reads them.
pub open spec fn program_headers_aligned(bytes: Seq<u8>) -> bool {
    has_elf_magic(bytes) ==> {
        if bytes.len() >= 64 && bytes[4] == 2 {
            le_u64(bytes, 32) + le_u16(bytes, 56) * 56 <= bytes.len() ==> le_u64(bytes, 32) % 8 == 0
        } else if bytes.len() >= 52 && bytes[4] == 1 {
            le_u32(bytes, 28) + le_u16(bytes, 44) * 32 <= bytes.len() ==> le_u32(bytes, 28) % 4 == 0
        } else {
            true
        }
    }
}

/// Reads `bytes` with `elf_rs::Elf::from_bytes`: whether the header's type
/// is `ET_EXEC`, its entry point, and for each program header whether its
/// type is `LOAD`, its flag bits, offset, virtual address, file size and
/// memory size: `elf_image`.  The bytes are first copied to a buffer that
/// starts on an 8-byte boundary, since the crate reads its headers in place.
/// The crate builds the slice of program headers in place at the offset
/// that the header gives, so that offset must be aligned for them whenever
/// the slice lies within the bytes.  The crate reads the header in the
/// machine's byte order, which `elf_image` and `program_headers_aligned`
/// take to be little-endian (x86_64).
#[verifier::external_body]
fn parse_elf(bytes: &[u8]) -> (r: Option<ElfImage>)
    requires
        program_headers_aligned(bytes@),
    ensures
        match r {
            Some(image) => elf_image(bytes@) == Some(image.fields()),
            None => elf_image(bytes@) is None,
        },
{
    let mut buf = vec![0u8; bytes.len() + 8];
    let start: usize = buf.as_ptr().align_offset(8);
    let aligned = &mut buf[start..start + bytes.len()];
    aligned.copy_from_slice(bytes);
    let elf = elf_rs::Elf::from_bytes(aligned).ok()?;
    let program_headers = elf.program_header_iter().map(|ph| ProgramHeader {
        loadable: matches!(ph.ph_type(), elf_rs::ProgramType::LOAD), flags: ph.flags().bits(),
        offset: ph.offset(), vaddr: ph.vaddr(), filesz: ph.filesz(), memsz: ph.memsz(),
    }).collect();
    Some(ElfImage {
        executable: matches!(elf.elf_header().elftype(), elf_rs::ElfType::ET_EXEC),
        entry_point: elf.entry_point(),
        program_headers,
    })
}

/// Whether the program headers of `bytes` are where they can be read in
/// place: `program_headers_aligned`.
pub fn check_program_headers_aligned(bytes: &[u8]) -> (r: bool)
    ensures
        r == program_headers_aligned(bytes@),
{
    let len = bytes.len();
    if len < 4 || bytes[0] != 0x7f || bytes[1] != 0x45 || bytes[2] != 0x4c || bytes[3] != 0x46 {
        return true;
    }
    if len >= 64 && bytes[4] == 2 {
        let offset = read_le(bytes, 32, 8);
        let count = read_le(bytes, 56, 2);
        offset + count * 56 > len as u128 || offset % 8 == 0
    } else if len >= 52 && bytes[4] == 1 {
        let offset = read_le(bytes, 28, 4);
        let count = read_le(bytes, 44, 2);
        offset + count * 32 > len as u128 || offset % 4 == 0
    } else {
        true
    }
}

/// The little-endian number of `width` (2, 4 or 8) bytes at `at` in `bytes`.
fn read_le(bytes: &[u8], at: usize, width: usize) -> (r: u128)
    requires
        width == 2 || width == 4 || width == 8,
        at + width <= bytes@.len(),
    ensures
        width == 2 ==> r == le_u16(bytes@, at as int),
        width == 4 ==> r == le_u32(bytes@, at as int),
        width == 8 ==> r == le_u64(bytes@, at as int),
        r < 0x1_0000_0000_0000_0000,
{
    let lo: u128 = bytes[at] as u128 + 256 * (bytes[at + 1] as u128);
    if width == 2 {
        return lo;
    }
    let mid: u128 = lo + 0x1_0000 * (bytes[at + 2] as u128 + 256 * (bytes[at + 3] as u128));
    if width == 4 {
        return mid;
    }
    let upper_lo: u128 = bytes[at + 4] as u128 + 256 * (bytes[at + 5] as u128);
    let upper_hi: u128 = bytes[at + 6] as u128 + 256 * (bytes[at + 7] as u128);
    mid + 0x1_0000_0000 * (upper_lo + 0x1_0000 * upper_hi)
}

/// Page table flag: the page is present.
pub const PRESENT: u64 = 0x1;
/// Page table flag: the page can be written.
pub const WRITABLE: u64 = 0x2;
/// Page table flag: user code can reach the page.
pub const USER_ACCESSIBLE: u64 = 0x4;
/// Page table flag: no code runs from the page.
pub const NO_EXECUTE: u64 = 0x8000_0000_0000_0000;

/// Program header flag: the segment holds code.
pub const SEGMENT_EXECUTE: u32 = 1;
/// Program header flag: the segment can be written.
pub const SEGMENT_WRITE: u32 = 2;

/// The size of a page.
pub const PAGE_SIZE: u64 = 0x1000;

/// Where the stack of a process starts.
pub const STACK_ADDRESS: u64 = 0x0000_1000_0000_0000;
/// How many pages the stack of a process has.
pub const STACK_PAGES: u64 = 100;

/// Whether `address` is a canonical virtual address: its bits from 47 up are
/// all equal.
pub open spec fn canonical(address: u64) -> bool {
    address < 0x0000_8000_0000_0000 || address >= 0xffff_8000_0000_0000
}

/// The start of the page that holds `address`.
pub open spec fn page_start(address: u64) -> u64 {
    (address - address % PAGE_SIZE) as u64
}

/// The page table flags of a segment with the permission bits `flags`:
/// present and reachable from user code, not executable unless it holds
/// code, writable when it is to be written.
pub open spec fn segment_flags(flags: u32) -> u64 {
    let base = PRESENT | USER_ACCESSIBLE;
    let base = if flags & SEGMENT_EXECUTE == 0 { base | NO_EXECUTE } else { base };
    if flags & SEGMENT_WRITE != 0 { base | WRITABLE } else { base }
}

/// What loading a segment takes: its pages, the first and how many, with
/// the flags they end up with; the bytes `offset..offset + filesz` of the
/// file copied to `vaddr`, and the `zero_len` bytes after them zeroed.
pub struct Segment {
    pub first_page: u64,
    pub page_count: u64,
    pub flags: u64,
    pub offset: u64,
    pub vaddr: u64,
    pub filesz: u64,
    pub zero_len: u64,
}

/// Whether a program header can be loaded: its addresses are canonical and
/// it takes at least as much memory as the file holds of it.
pub open spec fn loadable_header(h: (bool, u32, u64, u64, u64, u64)) -> bool {
    h.0 ==> {
        &&& h.3 + h.5 <= u64::MAX
        &&& canonical(h.3)
        &&& canonical((h.3 + h.5) as u64)
        &&& h.4 <= h.5
    }
}

/// The segment that the loadable program header `h` asks for: the pages
/// from the one that holds its start to the one that holds the address
/// just past its end, both included.
pub open spec fn segment_of(h: (bool, u32, u64, u64, u64, u64)) -> (u64, u64, u64, u64, u64, u64, u64) {
    let first = page_start(h.3);
    let last = page_start((h.3 + h.5) as u64);
    (first, (((last - first) as u64) / PAGE_SIZE + 1) as u64, segment_flags(h.1), h.2, h.3, h.4, (h.5 - h.4) as u64)
}

/// The page flags of the segment of a loadable program header follow its
/// permission bits: the page is present (bit 0) and open to user code
/// (bit 2); writable (bit 1) exactly when the header's write bit (2) is set;
/// closed to execution (bit 63) exactly when its execute bit (1) is clear;
/// and no other flag is set.
pub proof fn lemma_segment_flags_follow_permissions(h: (bool, u32, u64, u64, u64, u64))
    ensures
        segment_of(h).2 & 0x1 == 0x1,
        segment_of(h).2 & 0x4 == 0x4,
        (segment_of(h).2 & 0x2 == 0x2) <==> (h.1 & 2 == 2),
        (segment_of(h).2 & 0x8000_0000_0000_0000 == 0x8000_0000_0000_0000) <==> (h.1 & 1 == 0),
        segment_of(h).2 & !0x8000_0000_0000_0007u64 == 0,
{
    let f = segment_of(h).2;
    let x = h.1;
    let w = x & 2 == 2;
    let e = x & 1 == 1;
    assert((x & 2 == 2 || x & 2 == 0) && (x & 1 == 1 || x & 1 == 0)) by (bit_vector);
    assert((x & 2 != 0) == w && (x & 1 == 0) == !e) by (bit_vector)
        requires
            w == (x & 2 == 2),
            e == (x & 1 == 1),
    ;
    assert((0x1u64 | 0x4u64) == 0x5u64) by (bit_vector);
    assert((0x5u64 | 0x8000_0000_0000_0000u64) == 0x8000_0000_0000_0005u64) by (bit_vector);
    assert((0x5u64 | 0x2u64) == 0x7u64) by (bit_vector);
    assert((0x8000_0000_0000_0005u64 | 0x2u64) == 0x8000_0000_0000_0007u64) by (bit_vector);
    let c: u64 = if w {
        if e { 0x7u64 } else { 0x8000_0000_0000_0007u64 }
    } else {
        if e { 0x5u64 } else { 0x8000_0000_0000_0005u64 }
    };
    assert(f == c);
    assert(c & 0x1 == 0x1 && c & 0x4 == 0x4 && ((c & 0x2 == 0x2) == w) && ((c & 0x8000_0000_0000_0000
        == 0x8000_0000_0000_0000) == !e) && c & !0x8000_0000_0000_0007u64 == 0) by (bit_vector)
        requires
            c == if w {
                if e { 0x7u64 } else { 0x8000_0000_0000_0007u64 }
            } else {
                if e { 0x5u64 } else { 0x8000_0000_0000_0005u64 }
            },
    ;
}

impl Segment {
    /// The segment as a tuple of its fields, in order.
    pub open spec fn fields(&self) -> (u64, u64, u64, u64, u64, u64, u64) {
        (self.first_page, self.page_count, self.flags, self.offset, self.vaddr, self.filesz, self.zero_len)
    }
}

/// The loadable headers of `headers`, in order.
pub open spec fn loadable_headers(headers: Seq<(bool, u32, u64, u64, u64, u64)>) -> Seq<(bool, u32, u64, u64, u64, u64)> {
    headers.filter(|h: (bool, u32, u64, u64, u64, u64)| h.0)
}

/// The segment that a loadable program header asks for.
fn plan_segment(h: &ProgramHeader) -> (r: Segment)
    requires
        h.loadable,
        loadable_header(h.fields()),
    ensures
        r.fields() == segment_of(h.fields()),
{
    let end = h.vaddr + h.memsz;
    let first = h.vaddr - h.vaddr % PAGE_SIZE;
    let last = end - end % PAGE_SIZE;
    let mut flags = PRESENT | USER_ACCESSIBLE;
    if h.flags & SEGMENT_EXECUTE == 0 {
        flags = flags | NO_EXECUTE;
    }
    if h.flags & SEGMENT_WRITE != 0 {
        flags = flags | WRITABLE;
    }
    proof {
        assert(first <= last) by {
            assert(h.vaddr <= end);
        }
    }
    Segment {
        first_page: first,
        page_count: (last - first) / PAGE_SIZE + 1,
        flags,
        offset: h.offset,
        vaddr: h.vaddr,
        filesz: h.filesz,
        zero_len: h.memsz - h.filesz,
    }
}

/// The segments that the loadable program headers of `image` ask for, in order.
pub fn plan_segments(image: &ElfImage) -> (r: Vec<Segment>)
    requires
        forall|i: int| 0 <= i < image.program_headers@.len() ==> loadable_header(
            #[trigger] image.program_headers@[i].fields(),
        ),
    ensures
        r@.map_values(|s: Segment| s.fields()) == loadable_headers(image.fields().2).map_values(
            |h: (bool, u32, u64, u64, u64, u64)| segment_of(h),
        ),
{
    let ghost all = image.fields().2;
    let mut r: Vec<Segment> = Vec::new();
    let mut i: usize = 0;
    while i < image.program_headers.len()
        invariant
            all == image.fields().2,
            i <= image.program_headers@.len(),
            forall|j: int| 0 <= j < image.program_headers@.len() ==> loadable_header(
                #[trigger] image.program_headers@[j].fields(),
            ),
            r@.map_values(|s: Segment| s.fields()) == loadable_headers(all.take(i as int)).map_values(
                |h: (bool, u32, u64, u64, u64, u64)| segment_of(h),
            ),
        decreases image.program_headers@.len() - i,
    {
        let h = &image.program_headers[i];
        proof {
            assert(all.take(i + 1).drop_last() =~= all.take(i as int));
            assert(all.take(i + 1).last() == h.fields());
            reveal(Seq::filter);
            if h.loadable {
                assert(loadable_headers(all.take(i + 1)) == loadable_headers(all.take(i as int)).push(h.fields()));
            } else {
                assert(loadable_headers(all.take(i + 1)) == loadable_headers(all.take(i as int)));
            }
        }
        if h.loadable {
            let s = plan_segment(h);
            let ghost before = r@;
            r.push(s);
            assert(r@.map_values(|s: Segment| s.fields()) =~= before.map_values(|s: Segment| s.fields()).push(s.fields()));
        }
        i = i + 1;
    }
    assert(all.take(i as int) =~= all);
    r
}

/// The size of the record that describes an argument string: a pointer
/// and a length, 8-byte aligned.
pub const STRING_RECORD_SIZE: u64 = 16;
/// The size of the record that the entry point receives: the number of
/// arguments and a pointer to their records, 8-byte aligned.
pub const ENTRY_RECORD_SIZE: u64 = 16;
/// The alignment of both records.
pub const RECORD_ALIGN: u64 = 8;

/// The top of the stack of a new process.
pub open spec fn stack_top() -> u64 {
    (STACK_ADDRESS + STACK_PAGES * PAGE_SIZE) as u64
}

/// The flags of the stack pages: present, writable, reachable from user
/// code, not executable.
pub open spec fn stack_flags() -> u64 {
    PRESENT | WRITABLE | USER_ACCESSIBLE | NO_EXECUTE
}

/// The stack pages are present (bit 0), writable (bit 1), open to user code
/// (bit 2) and closed to execution (bit 63), and have no other flag.
pub proof fn lemma_stack_flags()
    ensures
        stack_flags() == 0x8000_0000_0000_0007u64,
{
    assert((0x1u64 | 0x2u64 | 0x4u64 | 0x8000_0000_0000_0000u64) == 0x8000_0000_0000_0007u64) by (bit_vector);
}

/// The sum of `lens`.
pub open spec fn total_len(lens: Seq<u64>) -> int
    decreases lens.len(),
{
    if lens.len() == 0 {
        0
    } else {
        total_len(lens.drop_last()) + lens.last()
    }
}

/// `address` rounded down to a multiple of `align`.
pub open spec fn align_down(address: int, align: int) -> int {
    address - address % align
}

/// Where the arguments of a new process go below the top of its stack: the
/// strings, one after the other, end at the top; below them the records of
/// the strings, aligned; below those the entry record, aligned; and just
/// below it a pointer to the entry record, which is where the stack pointer starts.
pub struct ArgLayout {
    /// Where the first string starts.
    pub strings: u64,
    /// Where each string starts, relative to the first.
    pub offsets: Vec<u64>,
    /// Where the records of the strings start.
    pub records: u64,
    /// Where the entry record is.
    pub entry: u64,
    /// Where the pointer to the entry record is.
    pub entry_pointer: u64,
}

/// Where the strings start, for strings of the lengths `lens`.
pub open spec fn strings_at(lens: Seq<u64>) -> int {
    stack_top() - total_len(lens)
}

/// Where the records of the strings start.
pub open spec fn records_at(lens: Seq<u64>) -> int {
    align_down(strings_at(lens) - lens.len() * STRING_RECORD_SIZE, RECORD_ALIGN as int)
}

/// Where the entry record is.
pub open spec fn entry_at(lens: Seq<u64>) -> int {
    align_down(records_at(lens) - ENTRY_RECORD_SIZE, RECORD_ALIGN as int)
}

/// Where the arguments of a new process go, for strings of the lengths
/// `lens`; they must fit in the top page of the stack.
pub fn arg_layout(lens: &[u64]) -> (r: ArgLayout)
    requires
        total_len(lens@) + lens@.len() * STRING_RECORD_SIZE + 40 <= PAGE_SIZE,
    ensures
        r.strings == strings_at(lens@),
        r.offsets@.len() == lens@.len(),
        forall|i: int| 0 <= i < lens@.len() ==> #[trigger] r.offsets@[i] == total_len(lens@.take(i)),
        r.records == records_at(lens@),
        r.entry == entry_at(lens@),
        r.entry_pointer == entry_at(lens@) - 8,
        stack_top() - PAGE_SIZE <= r.entry_pointer,
{
    let mut offsets: Vec<u64> = Vec::new();
    let mut total: u64 = 0;
    let mut i: usize = 0;
    while i < lens.len()
        invariant
            i <= lens@.len(),
            total == total_len(lens@.take(i as int)),
            total_len(lens@) + lens@.len() * STRING_RECORD_SIZE + 40 <= PAGE_SIZE,
            offsets@.len() == i,
            forall|j: int| 0 <= j < i ==> #[trigger] offsets@[j] == total_len(lens@.take(j)),
        decreases lens@.len() - i,
    {
        proof {
            lemma_total_len_prefix(lens@, i as int + 1);
            assert(lens@.take(i + 1).drop_last() =~= lens@.take(i as int));
        }
        offsets.push(total);
        total = total + lens[i];
        i = i + 1;
    }
    assert(lens@.take(i as int) =~= lens@);
    let top: u64 = STACK_ADDRESS + STACK_PAGES * PAGE_SIZE;
    let strings = top - total;
    let below = strings - (lens.len() as u64) * STRING_RECORD_SIZE;
    let records = below - below % RECORD_ALIGN;
    let entry_below = records - ENTRY_RECORD_SIZE;
    let entry = entry_below - entry_below % RECORD_ALIGN;
    ArgLayout { strings, offsets, records, entry, entry_pointer: entry - 8 }
}

/// A prefix of `lens` sums to at most what all of them do.
proof fn lemma_total_len_prefix(lens: Seq<u64>, n: int)
    requires
        0 <= n <= lens.len(),
    ensures
        0 <= total_len(lens.take(n)) <= total_len(lens),
    decreases lens.len() - n,
{
    if n < lens.len() {
        lemma_total_len_prefix(lens, n + 1);
        assert(lens.take(n + 1).drop_last() =~= lens.take(n));
        lemma_total_len_nonneg(lens.take(n));
    } else {
        assert(lens.take(n) =~= lens);
        lemma_total_len_nonneg(lens);
    }
}

proof fn lemma_total_len_nonneg(lens: Seq<u64>)
    ensures
        total_len(lens) >= 0,
    decreases lens.len(),
{
    if lens.len() > 0 {
        lemma_total_len_nonneg(lens.drop_last());
    }
}

/// What loading a program takes: where it starts, its segments, and where
/// its arguments go on its stack.
pub struct LoadPlan {
    pub entry_point: u64,
    pub segments: Vec<Segment>,
    pub args: ArgLayout,
}

/// The lengths of the strings `args`.
pub open spec fn arg_lens(args: Seq<&str>) -> Seq<u64> {
    Seq::new(args.len(), |i: int| (args[i].spec_bytes().len() as usize) as u64)
}

/// Whether a program with the headers `headers` and the arguments `args`
/// can be loaded: each loadable header can, and the arguments fit in the
/// top page of the stack.
pub open spec fn can_load(image: (bool, u64, Seq<(bool, u32, u64, u64, u64, u64)>), args: Seq<&str>) -> bool {
    &&& image.0
    &&& forall|i: int| 0 <= i < image.2.len() ==> loadable_header(#[trigger] image.2[i])
    &&& total_len(arg_lens(args)) + args.len() * STRING_RECORD_SIZE + 40 <= PAGE_SIZE
}

/// What loading the executable `bytes` with the arguments `args` takes,
/// or nothing when the bytes are not an ELF executable that can be loaded
/// or the arguments do not fit.
pub fn load(bytes: &[u8], args: &[&str]) -> (r: Option<LoadPlan>)
    requires
        program_headers_aligned(bytes@),
    ensures
        r is Some <==> (elf_image(bytes@) matches Some(image) && can_load(image, args@)),
        r matches Some(plan) ==> {
            let image = elf_image(bytes@).unwrap();
            &&& plan.entry_point == image.1
            &&& plan.segments@.map_values(|s: Segment| s.fields()) == loadable_headers(image.2).map_values(
                |h: (bool, u32, u64, u64, u64, u64)| segment_of(h),
            )
            &&& plan.args.strings == strings_at(arg_lens(args@))
            &&& plan.args.offsets@.len() == args@.len()
            &&& forall|i: int| 0 <= i < args@.len() ==> #[trigger] plan.args.offsets@[i] == total_len(
                arg_lens(args@).take(i),
            )
            &&& plan.args.records == records_at(arg_lens(args@))
            &&& plan.args.entry == entry_at(arg_lens(args@))
            &&& plan.args.entry_pointer == entry_at(arg_lens(args@)) - 8
        },
        r matches Some(plan) ==> forall|i: int|
            0 <= i < plan.segments@.len() ==> {
                let h = loadable_headers(elf_image(bytes@).unwrap().2)[i];
                let f = #[trigger] plan.segments@[i].flags;
                &&& f & 0x1 == 0x1 && f & 0x4 == 0x4
                &&& (f & 0x2 == 0x2) <==> (h.1 & 2 == 2)
                &&& (f & 0x8000_0000_0000_0000 == 0x8000_0000_0000_0000) <==> (h.1 & 1 == 0)
            },
{
    let image = match parse_elf(bytes) {
        Some(image) => image,
        None => {
            return None;
        },
    };
    if !image.executable {
        return None;
    }
    let mut i: usize = 0;
    while i < image.program_headers.len()
        invariant
            elf_image(bytes@) == Some(image.fields()),
            image.executable,
            i <= image.program_headers@.len(),
            forall|j: int| 0 <= j < i ==> loadable_header(#[trigger] image.program_headers@[j].fields()),
        decreases image.program_headers@.len() - i,
    {
        let h = &image.program_headers[i];
        if h.loadable {
            if h.vaddr > u64::MAX - h.memsz {
                proof {
                    assert(!loadable_header(image.fields().2[i as int]));
                }
                return None;
            }
            let end = h.vaddr + h.memsz;
            let canonical_start = h.vaddr < 0x0000_8000_0000_0000 || h.vaddr >= 0xffff_8000_0000_0000;
            let canonical_end = end < 0x0000_8000_0000_0000 || end >= 0xffff_8000_0000_0000;
            if !canonical_start || !canonical_end || h.filesz > h.memsz {
                proof {
                    assert(!loadable_header(image.fields().2[i as int]));
                }
                return None;
            }
        }
        i = i + 1;
    }
    proof {
        assert forall|j: int| 0 <= j < image.fields().2.len() implies loadable_header(#[trigger] image.fields().2[j]) by {
            assert(image.fields().2[j] == image.program_headers@[j].fields());
        }
    }
    let mut lens: Vec<u64> = Vec::new();
    let mut total: u64 = 0;
    let mut k: usize = 0;
    while k < args.len()
        invariant
            k <= args@.len(),
            lens@ == arg_lens(args@).take(k as int),
            total == total_len(lens@),
            total <= PAGE_SIZE,
        decreases args@.len() - k,
    {
        let n = args[k].len() as u64;
        proof {
            assert(lens@.push(n) =~= arg_lens(args@).take(k + 1));
            assert(lens@.push(n).drop_last() =~= lens@);
        }
        if n > PAGE_SIZE - total {
            proof {
                lemma_total_len_prefix(arg_lens(args@), k + 1);
                lemma_total_len_nonneg(arg_lens(args@));
            }
            return None;
        }
        lens.push(n);
        total = total + n;
        k = k + 1;
    }
    assert(lens@ =~= arg_lens(args@));
    let count = args.len() as u64;
    if count > PAGE_SIZE || total + count * STRING_RECORD_SIZE + 40 > PAGE_SIZE {
        return None;
    }
    let segments = plan_segments(&image);
    let layout = arg_layout(lens.as_slice());
    proof {
        let hs = loadable_headers(image.fields().2);
        assert forall|i: int| 0 <= i < segments@.len() implies ({
            let h = hs[i];
            let f = #[trigger] segments@[i].flags;
            &&& f & 0x1 == 0x1 && f & 0x4 == 0x4
            &&& (f & 0x2 == 0x2) <==> (h.1 & 2 == 2)
            &&& (f & 0x8000_0000_0000_0000 == 0x8000_0000_0000_0000) <==> (h.1 & 1 == 0)
        }) by {
            assert(segments@.map_values(|s: Segment| s.fields())[i] == segments@[i].fields());
            assert(segments@.map_values(|s: Segment| s.fields()).len() == hs.map_values(
                |h: (bool, u32, u64, u64, u64, u64)| segment_of(h),
            ).len());
            assert(hs.map_values(|h: (bool, u32, u64, u64, u64, u64)| segment_of(h))[i] == segment_of(hs[i]));
            assert(segments@[i].flags == segment_of(hs[i]).2);
            lemma_segment_flags_follow_permissions(hs[i]);
        }
    }
    Some(LoadPlan { entry_point: image.entry_point, segments, args: layout })
}

/// The pages of the segments `segments`, each with the flags of its
/// segment, segment after segment.
pub open spec fn segment_pages(segments: Seq<(u64, u64, u64, u64, u64, u64, u64)>) -> Seq<(u64, u64)>
    decreases segments.len(),
{
    if segments.len() == 0 {
        Seq::empty()
    } else {
        let s = segments.last();
        segment_pages(segments.drop_last()) + Seq::new(
            s.1 as nat,
            |k: int| ((s.0 + k * PAGE_SIZE) as u64, s.2),
        )
    }
}

/// The pages of the stack with their flags.
pub open spec fn stack_pages() -> Seq<(u64, u64)> {
    Seq::new(STACK_PAGES as nat, |k: int| ((STACK_ADDRESS + k * PAGE_SIZE) as u64, stack_flags()))
}

/// Whether the pages of `segment` lie within the address space: the last
/// of them may be its top page.
pub open spec fn pages_fit(segment: (u64, u64, u64, u64, u64, u64, u64)) -> bool {
    segment.0 + segment.1 * PAGE_SIZE <= u64::MAX + 1
}

/// The pages that a loaded program holds, as the process lists them: the
/// pages of its segments, named "elf", then those of its stack, named "stack".
pub fn mapped_pages(plan: &LoadPlan) -> (r: Vec<MappedPage>)
    requires
        forall|i: int| 0 <= i < plan.segments@.len() ==> pages_fit(#[trigger] plan.segments@[i].fields()),
    ensures
        r@.map_values(|m: MappedPage| (m.page, m.flags)) == segment_pages(
            plan.segments@.map_values(|s: Segment| s.fields()),
        ) + stack_pages(),
        forall|i: int| 0 <= i < r@.len() ==> (#[trigger] r@[i]).name@ == (if i < r@.len() - STACK_PAGES {
            "elf"@
        } else {
            "stack"@
        }),
{
    let ghost segs = plan.segments@.map_values(|s: Segment| s.fields());
    let mut r: Vec<MappedPage> = Vec::new();
    let mut i: usize = 0;
    while i < plan.segments.len()
        invariant
            segs == plan.segments@.map_values(|s: Segment| s.fields()),
            i <= plan.segments@.len(),
            forall|j: int| 0 <= j < plan.segments@.len() ==> pages_fit(#[trigger] plan.segments@[j].fields()),
            r@.map_values(|m: MappedPage| (m.page, m.flags)) == segment_pages(segs.take(i as int)),
            forall|j: int| 0 <= j < r@.len() ==> (#[trigger] r@[j]).name@ == "elf"@,
        decreases plan.segments@.len() - i,
    {
        let s = &plan.segments[i];
        let ghost before = r@.map_values(|m: MappedPage| (m.page, m.flags));
        proof {
            assert(segs.take(i + 1).drop_last() =~= segs.take(i as int));
            assert(segs.take(i + 1).last() == s.fields());
        }
        let mut k: u64 = 0;
        while k < s.page_count
            invariant
                k <= s.page_count,
                pages_fit(s.fields()),
                r@.map_values(|m: MappedPage| (m.page, m.flags)) == before + Seq::new(
                    k as nat,
                    |n: int| ((s.first_page + n * PAGE_SIZE) as u64, s.flags),
                ),
                forall|j: int| 0 <= j < r@.len() ==> (#[trigger] r@[j]).name@ == "elf"@,
            decreases s.page_count - k,
        {
            proof {
                assert(s.first_page + k * PAGE_SIZE <= u64::MAX) by (nonlinear_arith)
                    requires k < s.page_count, s.first_page + s.page_count * PAGE_SIZE <= u64::MAX + 1;
            }
            let ghost prev = r@;
            let ghost k0 = k;
            r.push(MappedPage { name: "elf", page: s.first_page + k * PAGE_SIZE, flags: s.flags });
            k = k + 1;
            proof {
                let f = |n: int| ((s.first_page + n * PAGE_SIZE) as u64, s.flags);
                assert(r@.map_values(|m: MappedPage| (m.page, m.flags)) =~= prev.map_values(
                    |m: MappedPage| (m.page, m.flags),
                ).push(f(k0 as int)));
                assert(Seq::new(k as nat, f) =~= Seq::new(k0 as nat, f).push(f(k0 as int)));
                assert(r@.map_values(|m: MappedPage| (m.page, m.flags)) =~= before + Seq::new(k as nat, f));
            }
        }
        i = i + 1;
    }
    assert(segs.take(i as int) =~= segs);
    let elf_count = r.len();
    let ghost before = r@.map_values(|m: MappedPage| (m.page, m.flags));
    let flags = PRESENT | WRITABLE | USER_ACCESSIBLE | NO_EXECUTE;
    let mut k: u64 = 0;
    while k < STACK_PAGES
        invariant
            k <= STACK_PAGES,
            flags == stack_flags(),
            r@.len() == elf_count + k,
            r@.map_values(|m: MappedPage| (m.page, m.flags)) == before + Seq::new(
                k as nat,
                |n: int| ((STACK_ADDRESS + n * PAGE_SIZE) as u64, stack_flags()),
            ),
            forall|j: int| 0 <= j < r@.len() ==> (#[trigger] r@[j]).name@ == (if j < elf_count {
                "elf"@
            } else {
                "stack"@
            }),
        decreases STACK_PAGES - k,
    {
        let ghost prev = r@;
        let ghost k0 = k;
        r.push(MappedPage { name: "stack", page: STACK_ADDRESS + k * PAGE_SIZE, flags });
        k = k + 1;
        proof {
            let f = |n: int| ((STACK_ADDRESS + n * PAGE_SIZE) as u64, stack_flags());
            assert(r@.map_values(|m: MappedPage| (m.page, m.flags)) =~= prev.map_values(
                |m: MappedPage| (m.page, m.flags),
            ).push(f(k0 as int)));
            assert(Seq::new(k as nat, f) =~= Seq::new(k0 as nat, f).push(f(k0 as int)));
            assert(r@.map_values(|m: MappedPage| (m.page, m.flags)) =~= before + Seq::new(k as nat, f));
        }
    }
    r
}

} // verus!
