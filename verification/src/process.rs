//! Processes as the scheduler and the system calls see them: their state,
//! saved registers, mapped pages and file descriptors.

use vstd::prelude::*;
use vstd::string::StringSliceAdditionalSpecFns;

use std::collections::VecDeque;
use std::string::String;
use std::vec::Vec;

verus! {

/// Hands out process ids, one after the other, starting at 1.
pub struct PidFactory {
    next_pid: u32,
}

impl PidFactory {
    /// The id that the factory hands out next.
    pub closed spec fn upcoming(&self) -> u32 {
        self.next_pid
    }

    /// A factory whose first id is 1.
    pub fn new() -> (r: Self)
        ensures
            r.upcoming() == 1,
    {
        PidFactory { next_pid: 1 }
    }

    /// Hands out the next id; after `u32::MAX` the ids start over at 0.
    pub fn next_pid(&mut self) -> (r: u32)
        ensures
            r == old(self).upcoming(),
            final(self).upcoming() == if r == u32::MAX {
                0
            } else {
                (r + 1) as u32
            },
    {
        let pid = self.next_pid;
        self.next_pid = self.next_pid.wrapping_add(1);
        pid
    }
}

/// The general purpose registers of a process, as the interrupt entry code saves them.
#[derive(Debug, Clone, Copy, PartialEq, Eq, Structural)]
pub struct GPRegisters {
    pub rax: u64,
    pub rbx: u64,
    pub rcx: u64,
    pub rdx: u64,
    pub rsi: u64,
    pub rdi: u64,
    pub rsp: u64,
    pub rbp: u64,
    pub r8: u64,
    pub r9: u64,
    pub r10: u64,
    pub r11: u64,
    pub r12: u64,
    pub r13: u64,
    pub r14: u64,
    pub r15: u64,
}

impl GPRegisters {
    /// All registers zero.
    pub open spec fn spec_zeroed() -> GPRegisters {
        GPRegisters {
            rax: 0,
            rbx: 0,
            rcx: 0,
            rdx: 0,
            rsi: 0,
            rdi: 0,
            rsp: 0,
            rbp: 0,
            r8: 0,
            r9: 0,
            r10: 0,
            r11: 0,
            r12: 0,
            r13: 0,
            r14: 0,
            r15: 0,
        }
    }

    /// All registers zero.
    pub fn zeroed() -> (r: GPRegisters)
        ensures
            r == GPRegisters::spec_zeroed(),
    {
        GPRegisters {
            rax: 0,
            rbx: 0,
            rcx: 0,
            rdx: 0,
            rsi: 0,
            rdi: 0,
            rsp: 0,
            rbp: 0,
            r8: 0,
            r9: 0,
            r10: 0,
            r11: 0,
            r12: 0,
            r13: 0,
            r14: 0,
            r15: 0,
        }
    }
}

/// What a process is doing.
#[derive(Debug, Clone, Copy, PartialEq, Eq, Structural)]
pub enum State {
    /// It can run.
    Ready,
    /// It sleeps until the timer has counted this many ticks.
    Sleeping(u64),
    /// It waits for input on this file descriptor.
    WaitingForStream(i32),
    /// It waits for the child `pid` to exit; `arg` is the user address of
    /// the system call's argument block, where the exit status goes.
    WaitingForChild { pid: u32, arg: u64 },
    /// It has exited with this code.
    Terminated(u64),
}

/// The kinds of byte streams that a process owns.
#[derive(Debug, Clone, Copy, PartialEq, Eq, Structural)]
pub enum OwnedStreamType {
    Stdin,
    Stdout,
    Keyboard,
    Mouse,
}

/// Streams that belong to another process.
#[derive(Debug, Clone, Copy, PartialEq, Eq, Structural)]
pub enum ForeignStreamType {
    /// The file descriptor `file_descriptor` of the process `pid`.
    Process { pid: u32, file_descriptor: i32 },
}

/// The stream behind a stream file of the file system.
#[derive(Debug, Clone, Copy, PartialEq, Eq, Structural)]
pub enum StreamType {
    /// Opening it gives the process a stream of its own of this kind.
    Owned(OwnedStreamType),
    /// Opening it gives access to a stream of another process.
    Foreign(ForeignStreamType),
}

/// The size of the buffer of the standard streams of a process.
pub const STREAM_BUFFER_SIZE: usize = 1024;

/// An open file of a process.
#[derive(Debug)]
#[allow(inconsistent_fields)]
pub enum FileDescriptor {
    /// A file of the file system, read from `offset` on.
    Regular { path: String, offset: usize },
    /// A stream that another process owns.
    ForeignStream { stream_type: ForeignStreamType },
    /// A stream of bytes the process owns, holding at most `max_size` bytes.
    OwnedStream { buffer: VecDeque<u8>, max_size: usize, stream_type: OwnedStreamType },
    /// The terminal.
    Terminal,
}

/// How many of `bytes` a stream that holds `buffer` and at most `max_size`
/// bytes takes: as many as there is room for.
pub open spec fn write_count(buffer: Seq<u8>, max_size: usize, bytes: Seq<u8>) -> int {
    let room = if buffer.len() >= max_size {
        0
    } else {
        max_size - buffer.len()
    };
    if bytes.len() < room {
        bytes.len() as int
    } else {
        room
    }
}

/// How many bytes a read of up to `len` bytes takes from a stream that
/// holds `buffer`.
pub open spec fn read_count(buffer: Seq<u8>, len: usize) -> int {
    if len < buffer.len() {
        len as int
    } else {
        buffer.len() as int
    }
}

/// A stream gives its bytes back in the order they were written: after a
/// write to a stream that holds `buffer`, a read of at least all it holds
/// gives `buffer` followed by the bytes the write took and leaves it empty;
/// into an empty stream with room for all of them, those are all the bytes
/// written.
pub proof fn lemma_stream_read_after_write(buffer: Seq<u8>, max_size: usize, bytes: Seq<u8>, len: usize)
    requires
        len >= buffer.len() + write_count(buffer, max_size, bytes),
    ensures
        ({
            let held = buffer + bytes.take(write_count(buffer, max_size, bytes));
            &&& held.take(read_count(held, len)) == held
            &&& held.skip(read_count(held, len)) == Seq::<u8>::empty()
            &&& buffer.len() == 0 && bytes.len() <= max_size ==> held.take(read_count(held, len)) == bytes
        }),
{
    let n = write_count(buffer, max_size, bytes);
    let held = buffer + bytes.take(n);
    assert(held.take(held.len() as int) =~= held);
    assert(held.skip(held.len() as int) =~= Seq::<u8>::empty());
    if buffer.len() == 0 && bytes.len() <= max_size {
        assert(held =~= bytes);
    }
}

impl FileDescriptor {
    /// An empty owned stream with room for [`STREAM_BUFFER_SIZE`] bytes.
    pub fn owned_stream(stream_type: OwnedStreamType) -> (r: FileDescriptor)
        ensures
            r matches FileDescriptor::OwnedStream { buffer, max_size, stream_type: t } && buffer@
                == Seq::<u8>::empty() && max_size == STREAM_BUFFER_SIZE && t == stream_type,
    {
        FileDescriptor::OwnedStream {
            buffer: VecDeque::new(),
            max_size: STREAM_BUFFER_SIZE,
            stream_type,
        }
    }

    /// Whether `other` describes the same open file: the same path and
    /// offset, the same foreign stream, or an owned stream with the same
    /// bytes, size and kind.
    pub open spec fn same_as(&self, other: FileDescriptor) -> bool {
        match (*self, other) {
            (FileDescriptor::Regular { path: p, offset: o }, FileDescriptor::Regular { path: q, offset: n }) => p@ == q@
                && o == n,
            (FileDescriptor::ForeignStream { stream_type: a }, FileDescriptor::ForeignStream { stream_type: b }) => a == b,
            (
                FileDescriptor::OwnedStream { buffer: a, max_size: m, stream_type: t },
                FileDescriptor::OwnedStream { buffer: b, max_size: n, stream_type: u },
            ) => a@ == b@ && m == n && t == u,
            (FileDescriptor::Terminal, FileDescriptor::Terminal) => true,
            _ => false,
        }
    }

    /// A copy of the descriptor.
    pub fn duplicate(&self) -> (r: FileDescriptor)
        ensures
            r.same_as(*self),
    {
        match self {
            FileDescriptor::Regular { path, offset } => FileDescriptor::Regular { path: path.clone(), offset: *offset },
            FileDescriptor::ForeignStream { stream_type } => FileDescriptor::ForeignStream { stream_type: *stream_type },
            FileDescriptor::OwnedStream { buffer, max_size, stream_type } => {
                let mut copy: VecDeque<u8> = VecDeque::new();
                let mut i: usize = 0;
                while i < buffer.len()
                    invariant
                        i <= buffer@.len(),
                        copy@ == buffer@.take(i as int),
                    decreases buffer@.len() - i,
                {
                    copy.push_back(buffer[i]);
                    i = i + 1;
                    assert(copy@ =~= buffer@.take(i as int));
                }
                assert(buffer@.take(i as int) =~= buffer@);
                FileDescriptor::OwnedStream { buffer: copy, max_size: *max_size, stream_type: *stream_type }
            },
            FileDescriptor::Terminal => FileDescriptor::Terminal,
        }
    }

    /// Whether the descriptor takes bytes delivered to streams of `kind`: it
    /// is an owned stream of that kind with room left.
    pub open spec fn receives(&self, kind: OwnedStreamType) -> bool {
        match *self {
            FileDescriptor::OwnedStream { buffer, max_size, stream_type } => stream_type == kind && buffer@.len()
                < max_size,
            _ => false,
        }
    }

    /// Whether `after` is the descriptor `self` after `bytes` were delivered
    /// to the streams of `kind`: a stream that takes them has them appended
    /// all, though they may fill it past its size; any other stays as it was.
    pub open spec fn delivered(&self, after: FileDescriptor, kind: OwnedStreamType, bytes: Seq<u8>) -> bool {
        if self.receives(kind) {
            after is OwnedStream && after.buffered() == self.buffered() + bytes && after->max_size == self->max_size
                && after->OwnedStream_stream_type == kind
        } else {
            after == *self
        }
    }

    /// Delivers `bytes` to the descriptor when it is a stream of `kind` with room left.
    pub fn deliver(&mut self, kind: OwnedStreamType, bytes: &[u8])
        ensures
            old(self).delivered(*final(self), kind, bytes@),
    {
        match self {
            FileDescriptor::OwnedStream { buffer, max_size, stream_type } => {
                if *stream_type == kind && buffer.len() < *max_size {
                    let ghost start = buffer@;
                    let mut i: usize = 0;
                    while i < bytes.len()
                        invariant
                            i <= bytes@.len(),
                            buffer@ == start + bytes@.take(i as int),
                        decreases bytes@.len() - i,
                    {
                        buffer.push_back(bytes[i]);
                        i = i + 1;
                        assert(buffer@ =~= start + bytes@.take(i as int));
                    }
                    assert(bytes@.take(i as int) =~= bytes@);
                }
            },
            _ => {},
        }
    }

    /// The bytes buffered in an owned stream; empty for other descriptors.
    pub open spec fn buffered(&self) -> Seq<u8> {
        match self {
            FileDescriptor::OwnedStream { buffer, .. } => buffer@,
            _ => Seq::empty(),
        }
    }

    /// Appends the first bytes of `bytes` to an owned stream, as many as its
    /// room allows: none when it is full, else up to `max_size` bytes in all.
    /// Gives back how many bytes it took; other descriptors take none.
    pub fn stream_write(&mut self, bytes: &[u8]) -> (n: usize)
        ensures
            match *old(self) {
                FileDescriptor::OwnedStream { buffer, max_size, stream_type } => {
                    &&& n == write_count(buffer@, max_size, bytes@)
                    &&& *final(self) is OwnedStream
                    &&& final(self).buffered() == buffer@ + bytes@.take(n as int)
                    &&& (*final(self))->max_size == max_size
                    &&& (*final(self))->OwnedStream_stream_type == stream_type
                },
                _ => n == 0 && *final(self) == *old(self),
            },
    {
        match self {
            FileDescriptor::OwnedStream { buffer, max_size, .. } => {
                if buffer.len() >= *max_size {
                    return 0;
                }
                let room = *max_size - buffer.len();
                let n = if bytes.len() < room {
                    bytes.len()
                } else {
                    room
                };
                let ghost start = buffer@;
                let mut i: usize = 0;
                while i < n
                    invariant
                        n <= bytes@.len(),
                        i <= n,
                        buffer@ == start + bytes@.take(i as int),
                    decreases n - i,
                {
                    buffer.push_back(bytes[i]);
                    i = i + 1;
                    assert(buffer@ =~= start + bytes@.take(i as int));
                }
                n
            },
            _ => 0,
        }
    }

    /// Takes up to `len` bytes from the front of an owned stream, in order;
    /// other descriptors give nothing.
    pub fn stream_read(&mut self, len: usize) -> (r: Vec<u8>)
        ensures
            match *old(self) {
                FileDescriptor::OwnedStream { buffer, max_size, stream_type } => {
                    let n = read_count(buffer@, len);
                    &&& r@ == buffer@.take(n)
                    &&& *final(self) is OwnedStream
                    &&& final(self).buffered() == buffer@.skip(n)
                    &&& (*final(self))->max_size == max_size
                    &&& (*final(self))->OwnedStream_stream_type == stream_type
                },
                _ => r@ == Seq::<u8>::empty() && *final(self) == *old(self),
            },
    {
        let mut r: Vec<u8> = Vec::new();
        match self {
            FileDescriptor::OwnedStream { buffer, .. } => {
                let ghost start = buffer@;
                let n = if len < buffer.len() {
                    len
                } else {
                    buffer.len()
                };
                let mut i: usize = 0;
                while i < n
                    invariant
                        n <= start.len(),
                        i <= n,
                        r@ == start.take(i as int),
                        buffer@ == start.skip(i as int),
                    decreases n - i,
                {
                    let b = buffer.pop_front().unwrap();
                    r.push(b);
                    i = i + 1;
                    assert(r@ =~= start.take(i as int));
                    assert(buffer@ =~= start.skip(i as int));
                }
            },
            _ => {},
        }
        r
    }
}

/// A page mapped into a process: its start address, the flags of its page
/// table entry and what it holds.
#[derive(Debug, Clone, Copy)]
pub struct MappedPage {
    pub name: &'static str,
    pub page: u64,
    pub flags: u64,
}

/// Whether the keys of `entries` increase strictly.
pub open spec fn keys_increase<V>(entries: Seq<(i32, V)>) -> bool {
    forall|i: int, j: int| 0 <= i < j < entries.len() ==> #[trigger] entries[i].0 < #[trigger] entries[j].0
}

/// The map from the keys of `entries` to their values.
pub open spec fn entries_map<V>(entries: Seq<(i32, V)>) -> Map<i32, V>
    decreases entries.len(),
{
    if entries.len() == 0 {
        Map::empty()
    } else {
        entries_map(entries.drop_last()).insert(entries.last().0, entries.last().1)
    }
}

/// With increasing keys, the map of `entries` holds exactly their keys, each
/// with the value next to it.
proof fn lemma_entries_map<V>(entries: Seq<(i32, V)>)
    requires
        keys_increase(entries),
    ensures
        forall|k: i32|
            entries_map(entries).contains_key(k) <==> exists|i: int|
                0 <= i < entries.len() && (#[trigger] entries[i]).0 == k,
        forall|i: int|
            0 <= i < entries.len() ==> #[trigger] entries_map(entries)[entries[i].0] == entries[i].1,
    decreases entries.len(),
{
    if entries.len() > 0 {
        let rest = entries.drop_last();
        let last = entries.last();
        assert(keys_increase(rest));
        lemma_entries_map(rest);
        assert(entries_map(entries) == entries_map(rest).insert(last.0, last.1));
        assert forall|k: i32|
            entries_map(entries).contains_key(k) implies exists|i: int|
                0 <= i < entries.len() && (#[trigger] entries[i]).0 == k by {
            if k == last.0 {
                assert(entries[entries.len() - 1].0 == k);
            } else {
                assert(entries_map(rest).contains_key(k));
                let i = choose|i: int| 0 <= i < rest.len() && (#[trigger] rest[i]).0 == k;
                assert(rest[i] == entries[i]);
            }
        }
        assert forall|k: i32|
            (exists|i: int| 0 <= i < entries.len() && (#[trigger] entries[i]).0 == k) implies entries_map(
            entries,
        ).contains_key(k) by {
            let i = choose|i: int| 0 <= i < entries.len() && (#[trigger] entries[i]).0 == k;
            if i < entries.len() - 1 {
                assert(rest[i] == entries[i]);
                assert(rest[i].0 == k);
            }
        }
        assert forall|i: int|
            0 <= i < entries.len() implies #[trigger] entries_map(entries)[entries[i].0]
            == entries[i].1 by {
            if i < entries.len() - 1 {
                assert(rest[i] == entries[i]);
                assert(entries[i].0 < last.0);
            }
        }
    }
}

/// Changing the value next to a key changes the map at that key alone.
proof fn lemma_entries_map_update<V>(entries: Seq<(i32, V)>, i: int, v: V)
    requires
        keys_increase(entries),
        0 <= i < entries.len(),
    ensures
        entries_map(entries.update(i, (entries[i].0, v))) == entries_map(entries).insert(
            entries[i].0,
            v,
        ),
    decreases entries.len(),
{
    let updated = entries.update(i, (entries[i].0, v));
    let k = entries[i].0;
    if i == entries.len() - 1 {
        assert(updated.drop_last() =~= entries.drop_last());
        assert(entries_map(entries).insert(k, v) =~= entries_map(entries.drop_last()).insert(k, v));
    } else {
        let rest = entries.drop_last();
        assert(keys_increase(rest));
        lemma_entries_map_update(rest, i, v);
        assert(updated.drop_last() =~= rest.update(i, (rest[i].0, v)));
        assert(rest[i] == entries[i]);
        assert(k < entries.last().0);
        assert(entries_map(updated) =~= entries_map(entries).insert(k, v));
    }
}

/// The open files of a process by number, in increasing order of their numbers.
pub struct FileDescriptorTable {
    entries: Vec<(i32, FileDescriptor)>,
}

impl FileDescriptorTable {
    /// The open files by number.
    pub closed spec fn view(&self) -> Map<i32, FileDescriptor> {
        entries_map(self.entries@)
    }

    /// The numbers of the open files in increasing order.
    pub closed spec fn numbers(&self) -> Seq<i32> {
        self.entries@.map_values(|e: (i32, FileDescriptor)| e.0)
    }

    /// The numbers increase strictly.
    pub closed spec fn wf(&self) -> bool {
        keys_increase(self.entries@)
    }

    /// A table without open files.
    pub fn new() -> (r: Self)
        ensures
            r.wf(),
            r@ == Map::<i32, FileDescriptor>::empty(),
            r.numbers() == Seq::<i32>::empty(),
    {
        let r = FileDescriptorTable { entries: Vec::new() };
        assert(r.numbers() =~= Seq::<i32>::empty());
        r
    }

    proof fn lemma_view(&self)
        requires
            self.wf(),
        ensures
            forall|k: i32|
                self@.contains_key(k) <==> exists|i: int|
                    0 <= i < self.entries@.len() && (#[trigger] self.entries@[i]).0 == k,
            forall|i: int|
                0 <= i < self.entries@.len() ==> #[trigger] self@[self.entries@[i].0]
                    == self.entries@[i].1,
            self.numbers().len() == self.entries@.len(),
            forall|i: int| 0 <= i < self.entries@.len() ==> #[trigger] self.numbers()[i] == self.entries@[i].0,
    {
        lemma_entries_map(self.entries@);
    }

    /// The position of the file `fd` in the table, if it is open.
    fn position(&self, fd: i32) -> (r: Option<usize>)
        requires
            self.wf(),
        ensures
            match r {
                Some(i) => i < self.entries@.len() && self.entries@[i as int].0 == fd,
                None => !self@.contains_key(fd),
            },
    {
        proof {
            self.lemma_view();
        }
        let mut i: usize = 0;
        while i < self.entries.len()
            invariant
                self.wf(),
                i <= self.entries@.len(),
                forall|j: int| 0 <= j < i ==> (#[trigger] self.entries@[j]).0 != fd,
            decreases self.entries@.len() - i,
        {
            if self.entries[i].0 == fd {
                return Some(i);
            }
            i = i + 1;
        }
        None
    }

    /// The highest number of an open file, if there is one.
    pub fn max_number(&self) -> (r: Option<i32>)
        requires
            self.wf(),
        ensures
            r is None <==> self@.dom().is_empty(),
            r matches Some(m) ==> self@.contains_key(m) && forall|k: i32| #[trigger] self@.contains_key(k) ==> k <= m,
    {
        proof {
            self.lemma_view();
        }
        if self.entries.len() == 0 {
            assert(self@.dom() =~= Set::<i32>::empty());
            None
        } else {
            let last = self.entries.len() - 1;
            let m = self.entries[last].0;
            proof {
                assert(self@.contains_key(m));
                assert forall|k: i32| #[trigger] self@.contains_key(k) implies k <= m by {
                    let i = choose|i: int| 0 <= i < self.entries@.len() && (#[trigger] self.entries@[i]).0 == k;
                    if i < last {
                        assert(self.entries@[i].0 < self.entries@[last as int].0);
                    }
                }
            }
            Some(m)
        }
    }

    /// The file `fd`, if it is open.
    pub fn get(&self, fd: i32) -> (r: Option<&FileDescriptor>)
        requires
            self.wf(),
        ensures
            match r {
                Some(f) => self@.contains_key(fd) && *f == self@[fd],
                None => !self@.contains_key(fd),
            },
    {
        proof {
            self.lemma_view();
        }
        match self.position(fd) {
            Some(i) => Some(&self.entries[i].1),
            None => None,
        }
    }

    /// Access to the file `fd`, if it is open; what is written through it
    /// becomes the file `fd` of the table.
    pub fn get_mut(&mut self, fd: i32) -> (r: Option<&mut FileDescriptor>)
        requires
            old(self).wf(),
        ensures
            final(self).wf(),
            final(self).numbers() == old(self).numbers(),
            match r {
                Some(f) => old(self)@.contains_key(fd) && *f == old(self)@[fd] && final(self)@ == old(
                    self,
                )@.insert(fd, *final(f)),
                None => !old(self)@.contains_key(fd) && final(self)@ == old(self)@,
            },
    {
        proof {
            self.lemma_view();
        }
        match self.position(fd) {
            Some(i) => {
                let ghost old_entries = self.entries@;
                let entry = &mut self.entries[i];
                let f = &mut entry.1;
                proof {
                    assert(keys_increase(old_entries.update(i as int, (fd, *final(f)))));
                    lemma_entries_map_update(old_entries, i as int, *final(f));
                    assert(old_entries.update(i as int, (fd, *final(f))).map_values(
                        |e: (i32, FileDescriptor)| e.0,
                    ) =~= old_entries.map_values(|e: (i32, FileDescriptor)| e.0));
                }
                Some(f)
            },
            None => None,
        }
    }

    /// Opens `file` as number `fd`, which must be higher than every open number.
    pub fn push(&mut self, fd: i32, file: FileDescriptor)
        requires
            old(self).wf(),
            forall|k: i32| #[trigger] old(self)@.contains_key(k) ==> k < fd,
        ensures
            final(self).wf(),
            final(self)@ == old(self)@.insert(fd, file),
            final(self).numbers() == old(self).numbers().push(fd),
    {
        proof {
            self.lemma_view();
            assert forall|i: int| 0 <= i < self.entries@.len() implies #[trigger] self.entries@[i].0 < fd by {
                assert(self@.contains_key(self.entries@[i].0));
            }
        }
        self.entries.push((fd, file));
        proof {
            assert(self.entries@.drop_last() =~= old(self).entries@);
            assert(self.numbers() =~= old(self).numbers().push(fd));
        }
    }

    /// Closes the file `fd` and gives it back, if it is open.
    pub fn remove(&mut self, fd: i32) -> (r: Option<FileDescriptor>)
        requires
            old(self).wf(),
        ensures
            final(self).wf(),
            match r {
                Some(f) => old(self)@.contains_key(fd) && f == old(self)@[fd],
                None => !old(self)@.contains_key(fd),
            },
            final(self)@ == old(self)@.remove(fd),
    {
        proof {
            self.lemma_view();
        }
        match self.position(fd) {
            Some(i) => {
                let ghost old_entries = self.entries@;
                let (_, f) = self.entries.remove(i);
                proof {
                    let new_entries = self.entries@;
                    assert(new_entries =~= old_entries.remove(i as int));
                    assert forall|a: int, b: int|
                        0 <= a < b < new_entries.len() implies #[trigger] new_entries[a].0
                        < #[trigger] new_entries[b].0 by {
                        let a0 = if a < i { a } else { a + 1 };
                        let b0 = if b < i { b } else { b + 1 };
                        assert(new_entries[a] == old_entries[a0]);
                        assert(new_entries[b] == old_entries[b0]);
                    }
                    self.lemma_view();
                    assert forall|k: i32| self@.contains_key(k) <==> old(self)@.remove(fd).contains_key(k) by {
                        if self@.contains_key(k) {
                            let j = choose|j: int| 0 <= j < new_entries.len() && (#[trigger] new_entries[j]).0 == k;
                            let j0 = if j < i { j } else { j + 1 };
                            assert(old_entries[j0].0 == k);
                            assert(k != fd);
                        }
                        if old(self)@.remove(fd).contains_key(k) {
                            let j0 = choose|j: int| 0 <= j < old_entries.len() && (#[trigger] old_entries[j]).0 == k;
                            assert(j0 != i);
                            let j = if j0 < i { j0 } else { j0 - 1 };
                            assert(new_entries[j].0 == k);
                        }
                    }
                    assert forall|k: i32| #[trigger] self@.contains_key(k) implies self@[k] == old(self)@.remove(fd)[k] by {
                        let j = choose|j: int| 0 <= j < new_entries.len() && (#[trigger] new_entries[j]).0 == k;
                        let j0 = if j < i { j } else { j + 1 };
                        assert(new_entries[j] == old_entries[j0]);
                    }
                    assert(self@ =~= old(self)@.remove(fd));
                }
                Some(f)
            },
            None => {
                assert(self@ =~= old(self)@.remove(fd));
                None
            },
        }
    }

    /// Delivers `bytes` to every open stream of `kind` with room left.
    pub fn deliver(&mut self, kind: OwnedStreamType, bytes: &[u8])
        requires
            old(self).wf(),
        ensures
            final(self).wf(),
            final(self).numbers() == old(self).numbers(),
            final(self)@.dom() == old(self)@.dom(),
            forall|k: i32| #[trigger] old(self)@.contains_key(k) ==> old(self)@[k].delivered(final(self)@[k], kind, bytes@),
    {
        let ghost start = self.entries@;
        let mut i: usize = 0;
        while i < self.entries.len()
            invariant
                i <= self.entries@.len(),
                self.entries@.len() == start.len(),
                keys_increase(start),
                forall|j: int| 0 <= j < start.len() ==> (#[trigger] self.entries@[j]).0 == start[j].0,
                forall|j: int| 0 <= j < i ==> start[j].1.delivered((#[trigger] self.entries@[j]).1, kind, bytes@),
                forall|j: int| i <= j < start.len() ==> #[trigger] self.entries@[j] == start[j],
            decreases start.len() - i,
        {
            let entry = &mut self.entries[i];
            entry.1.deliver(kind, bytes);
            i = i + 1;
        }
        proof {
            assert(keys_increase(self.entries@)) by {
                assert forall|a: int, b: int| 0 <= a < b < self.entries@.len() implies #[trigger] self.entries@[a].0
                    < #[trigger] self.entries@[b].0 by {
                    assert(start[a].0 < start[b].0);
                }
            }
            lemma_entries_map(start);
            lemma_entries_map(self.entries@);
            assert(self.numbers() =~= old(self).numbers());
            assert forall|k: i32| self@.contains_key(k) <==> old(self)@.contains_key(k) by {
                if self@.contains_key(k) {
                    let j = choose|j: int| 0 <= j < self.entries@.len() && (#[trigger] self.entries@[j]).0 == k;
                    assert(start[j].0 == k);
                }
                if old(self)@.contains_key(k) {
                    let j = choose|j: int| 0 <= j < start.len() && (#[trigger] start[j]).0 == k;
                    assert(self.entries@[j].0 == k);
                }
            }
            assert(self@.dom() =~= old(self)@.dom());
            assert forall|k: i32| #[trigger] old(self)@.contains_key(k) implies old(self)@[k].delivered(self@[k], kind, bytes@) by {
                let j = choose|j: int| 0 <= j < start.len() && (#[trigger] start[j]).0 == k;
                assert(old(self)@[start[j].0] == start[j].1);
                assert(self@[self.entries@[j].0] == self.entries@[j].1);
            }
        }
    }

    /// A copy of the table: the same numbers, each with a copy of its file.
    pub fn duplicate(&self) -> (r: Self)
        requires
            self.wf(),
        ensures
            r.wf(),
            r.numbers() == self.numbers(),
            r@.dom() == self@.dom(),
            forall|k: i32| #[trigger] r@.contains_key(k) ==> r@[k].same_as(self@[k]),
    {
        let mut entries: Vec<(i32, FileDescriptor)> = Vec::new();
        let mut i: usize = 0;
        while i < self.entries.len()
            invariant
                i <= self.entries@.len(),
                entries@.len() == i,
                forall|j: int| 0 <= j < i ==> (#[trigger] entries@[j]).0 == self.entries@[j].0 && entries@[j].1.same_as(
                    self.entries@[j].1,
                ),
            decreases self.entries@.len() - i,
        {
            let number = self.entries[i].0;
            let copy = self.entries[i].1.duplicate();
            entries.push((number, copy));
            i = i + 1;
        }
        let r = FileDescriptorTable { entries };
        proof {
            assert(keys_increase(r.entries@)) by {
                assert forall|a: int, b: int| 0 <= a < b < r.entries@.len() implies #[trigger] r.entries@[a].0
                    < #[trigger] r.entries@[b].0 by {
                    assert(self.entries@[a].0 < self.entries@[b].0);
                }
            }
            self.lemma_view();
            r.lemma_view();
            assert(r.numbers() =~= self.numbers());
            assert forall|k: i32| r@.contains_key(k) <==> self@.contains_key(k) by {
                if r@.contains_key(k) {
                    let j = choose|j: int| 0 <= j < r.entries@.len() && (#[trigger] r.entries@[j]).0 == k;
                    assert(self.entries@[j].0 == k);
                }
                if self@.contains_key(k) {
                    let j = choose|j: int| 0 <= j < self.entries@.len() && (#[trigger] self.entries@[j]).0 == k;
                    assert(r.entries@[j].0 == k);
                }
            }
            assert(r@.dom() =~= self@.dom());
            assert forall|k: i32| #[trigger] r@.contains_key(k) implies r@[k].same_as(self@[k]) by {
                let j = choose|j: int| 0 <= j < r.entries@.len() && (#[trigger] r.entries@[j]).0 == k;
                assert(r@[r.entries@[j].0] == r.entries@[j].1);
                assert(self@[self.entries@[j].0] == self.entries@[j].1);
            }
        }
        r
    }

    /// The numbers of the open files in increasing order.
    pub fn fd_numbers(&self) -> (r: Vec<i32>)
        ensures
            r@ == self.numbers(),
    {
        let mut r: Vec<i32> = Vec::new();
        let mut i: usize = 0;
        while i < self.entries.len()
            invariant
                i <= self.entries@.len(),
                r@ == self.entries@.take(i as int).map_values(|e: (i32, FileDescriptor)| e.0),
            decreases self.entries@.len() - i,
        {
            r.push(self.entries[i].0);
            i = i + 1;
            assert(r@ =~= self.entries@.take(i as int).map_values(|e: (i32, FileDescriptor)| e.0));
        }
        assert(self.entries@.take(i as int) =~= self.entries@);
        r
    }
}

/// A process: its id, what it is doing, the registers to resume it with, the
/// pages mapped for it and its open files.  Its page table is kept by the
/// code that switches address spaces.
pub struct Process {
    pid: u32,
    pub state: State,
    pub flags: u64,
    pub rip: u64,
    pub registers: GPRegisters,
    pub mapped_pages: Vec<MappedPage>,
    file_descriptors: FileDescriptorTable,
}

impl Process {
    /// The id of the process.
    pub closed spec fn spec_pid(&self) -> u32 {
        self.pid
    }

    /// What the process is doing.
    pub closed spec fn spec_state(&self) -> State {
        self.state
    }

    /// The saved flags register.
    pub closed spec fn spec_flags(&self) -> u64 {
        self.flags
    }

    /// The saved instruction pointer.
    pub closed spec fn spec_rip(&self) -> u64 {
        self.rip
    }

    /// The saved general purpose registers.
    pub closed spec fn spec_registers(&self) -> GPRegisters {
        self.registers
    }

    /// The pages mapped for the process.
    pub closed spec fn spec_mapped_pages(&self) -> Seq<MappedPage> {
        self.mapped_pages@
    }

    /// The open files of the process by number.
    pub closed spec fn files(&self) -> Map<i32, FileDescriptor> {
        self.file_descriptors@
    }

    /// The numbers of the open files of the process, in increasing order.
    pub closed spec fn file_numbers(&self) -> Seq<i32> {
        self.file_descriptors.numbers()
    }

    /// The table of open files is in order.
    pub closed spec fn wf(&self) -> bool {
        self.file_descriptors.wf()
    }

    /// The process with its state set to `state`.
    pub closed spec fn with_state(self, state: State) -> Process {
        Process { state, ..self }
    }

    /// Setting the state changes nothing else.
    pub proof fn lemma_with_state(self, state: State)
        ensures
            self.with_state(state).spec_state() == state,
            same_identity(self.with_state(state), self) || self.spec_state() != state,
            self.with_state(state).spec_pid() == self.spec_pid(),
            self.with_state(state).files() == self.files(),
            self.with_state(state).file_numbers() == self.file_numbers(),
            self.with_state(state).wf() == self.wf(),
            self.with_state(state).spec_mapped_pages() == self.spec_mapped_pages(),
            self.with_state(state).spec_registers() == self.spec_registers(),
            self.with_state(state).spec_rip() == self.spec_rip(),
            self.with_state(state).spec_flags() == self.spec_flags(),
    {
    }

    /// A new user process that starts at `entry` with its stack pointer at
    /// `stack`, with standard input as file 0 and standard output as file 1,
    /// both empty owned streams.  It takes two ids from `pids` and keeps the second.
    pub fn user(
        pids: &mut PidFactory,
        flags: u64,
        entry: u64,
        stack: u64,
        mapped_pages: Vec<MappedPage>,
    ) -> (r: Process)
        ensures
            r.wf(),
            r.spec_pid() == if old(pids).upcoming() == u32::MAX {
                0
            } else {
                (old(pids).upcoming() + 1) as u32
            },
            final(pids).upcoming() == if r.spec_pid() == u32::MAX {
                0
            } else {
                (r.spec_pid() + 1) as u32
            },
            r.spec_state() == State::Ready,
            r.spec_flags() == flags,
            r.spec_rip() == entry,
            r.spec_registers() == (GPRegisters { rsp: stack, ..GPRegisters::spec_zeroed() }),
            r.spec_mapped_pages() == mapped_pages@,
            r.file_numbers() == seq![0i32, 1i32],
            r.files()[0].buffered() == Seq::<u8>::empty(),
            r.files()[0] matches FileDescriptor::OwnedStream { max_size, stream_type, .. } && max_size
                == STREAM_BUFFER_SIZE && stream_type == OwnedStreamType::Stdin,
            r.files()[1].buffered() == Seq::<u8>::empty(),
            r.files()[1] matches FileDescriptor::OwnedStream { max_size, stream_type, .. } && max_size
                == STREAM_BUFFER_SIZE && stream_type == OwnedStreamType::Stdout,
    {
        let _announced = pids.next_pid();
        let mut file_descriptors = FileDescriptorTable::new();
        file_descriptors.push(0, FileDescriptor::owned_stream(OwnedStreamType::Stdin));
        file_descriptors.push(1, FileDescriptor::owned_stream(OwnedStreamType::Stdout));
        let mut registers = GPRegisters::zeroed();
        registers.rsp = stack;
        Process {
            pid: pids.next_pid(),
            state: State::Ready,
            flags,
            rip: entry,
            registers,
            mapped_pages,
            file_descriptors,
        }
    }

    /// What the process is doing.
    pub fn state(&self) -> (r: State)
        ensures
            r == self.spec_state(),
    {
        self.state
    }

    /// Sets what the process is doing.
    pub fn set_state(&mut self, state: State)
        ensures
            *final(self) == old(self).with_state(state),
    {
        self.state = state;
    }

    /// The saved general purpose registers.
    pub fn registers(&self) -> (r: GPRegisters)
        ensures
            r == self.spec_registers(),
    {
        self.registers
    }

    /// The pages mapped for the process.
    pub fn mapped_pages(&self) -> (r: &Vec<MappedPage>)
        ensures
            r@ == self.spec_mapped_pages(),
    {
        &self.mapped_pages
    }

    /// A copy of the process under the next id that `pids` hands out: the
    /// same state, registers, mapped pages and open files.
    pub fn fork(&self, pids: &mut PidFactory) -> (r: Process)
        requires
            self.wf(),
        ensures
            r.spec_pid() == old(pids).upcoming(),
            final(pids).upcoming() == if r.spec_pid() == u32::MAX { 0 } else { (r.spec_pid() + 1) as u32 },
            r.spec_state() == self.spec_state(),
            r.spec_flags() == self.spec_flags(),
            r.spec_rip() == self.spec_rip(),
            r.spec_registers() == self.spec_registers(),
            r.spec_mapped_pages() == self.spec_mapped_pages(),
            r.wf(),
            r.file_numbers() == self.file_numbers(),
            r.files().dom() == self.files().dom(),
            forall|k: i32| #[trigger] r.files().contains_key(k) ==> r.files()[k].same_as(self.files()[k]),
    {
        let mut mapped_pages: Vec<MappedPage> = Vec::new();
        let mut i: usize = 0;
        while i < self.mapped_pages.len()
            invariant
                i <= self.mapped_pages@.len(),
                mapped_pages@ == self.mapped_pages@.take(i as int),
            decreases self.mapped_pages@.len() - i,
        {
            mapped_pages.push(self.mapped_pages[i]);
            i = i + 1;
            assert(mapped_pages@ =~= self.mapped_pages@.take(i as int));
        }
        assert(self.mapped_pages@.take(i as int) =~= self.mapped_pages@);
        Process {
            pid: pids.next_pid(),
            state: self.state,
            flags: self.flags,
            rip: self.rip,
            registers: self.registers,
            mapped_pages,
            file_descriptors: self.file_descriptors.duplicate(),
        }
    }

    /// Delivers `bytes` to every open stream of `kind` of the process with room left.
    pub fn deliver(&mut self, kind: OwnedStreamType, bytes: &[u8])
        requires
            old(self).wf(),
        ensures
            final(self).wf(),
            final(self).spec_pid() == old(self).spec_pid(),
            final(self).spec_state() == old(self).spec_state(),
            final(self).spec_registers() == old(self).spec_registers(),
            final(self).spec_mapped_pages() == old(self).spec_mapped_pages(),
            final(self).file_numbers() == old(self).file_numbers(),
            final(self).files().dom() == old(self).files().dom(),
            forall|k: i32| #[trigger] old(self).files().contains_key(k) ==> old(self).files()[k].delivered(final(self).files()[k], kind, bytes@),
    {
        self.file_descriptors.deliver(kind, bytes);
    }

    /// Forgets the mapped pages that start at `page`; the others keep their order.
    pub fn forget_page(&mut self, page: u64)
        ensures
            final(self).spec_mapped_pages() == old(self).spec_mapped_pages().filter(|m: MappedPage| m.page != page),
            final(self).spec_pid() == old(self).spec_pid(),
            final(self).spec_state() == old(self).spec_state(),
            final(self).files() == old(self).files(),
            final(self).file_numbers() == old(self).file_numbers(),
            final(self).wf() == old(self).wf(),
            final(self).spec_registers() == old(self).spec_registers(),
    {
        let ghost all = self.mapped_pages@;
        let mut kept: Vec<MappedPage> = Vec::new();
        let mut i: usize = 0;
        while i < self.mapped_pages.len()
            invariant
                all == self.mapped_pages@,
                i <= all.len(),
                kept@ == all.take(i as int).filter(|m: MappedPage| m.page != page),
            decreases all.len() - i,
        {
            let m = self.mapped_pages[i];
            proof {
                assert(all.take(i + 1).drop_last() =~= all.take(i as int));
                reveal(Seq::filter);
            }
            if m.page != page {
                kept.push(m);
            }
            i = i + 1;
        }
        assert(all.take(i as int) =~= all);
        self.mapped_pages = kept;
    }

    /// The id of the process.
    pub fn pid(&self) -> (r: u32)
        ensures
            r == self.spec_pid(),
    {
        self.pid
    }

    /// Opens `fd` under the number after the highest open one, or 0 when no
    /// file is open, and gives back that number.
    pub fn new_file_descriptor(&mut self, fd: FileDescriptor) -> (r: i32)
        requires
            old(self).wf(),
            forall|k: i32| #[trigger] old(self).files().contains_key(k) ==> k < i32::MAX,
        ensures
            final(self).wf(),
            old(self).files().dom().is_empty() ==> r == 0,
            !old(self).files().dom().is_empty() ==> old(self).files().contains_key((r - 1) as i32)
                && forall|k: i32| #[trigger] old(self).files().contains_key(k) ==> k < r,
            final(self).files() == old(self).files().insert(r, fd),
            final(self).file_numbers() == old(self).file_numbers().push(r),
            final(self).spec_pid() == old(self).spec_pid(),
            final(self).spec_state() == old(self).spec_state(),
            final(self).spec_registers() == old(self).spec_registers(),
    {
        let number = match self.file_descriptors.max_number() {
            Some(max) => {
                assert(self.files().contains_key(max));
                max + 1
            },
            None => 0,
        };
        self.file_descriptors.push(number, fd);
        number
    }

    /// Closes the file `fd` and gives it back, if it is open.
    pub fn close_file_descriptor(&mut self, fd: i32) -> (r: Option<FileDescriptor>)
        requires
            old(self).wf(),
        ensures
            final(self).wf(),
            match r {
                Some(f) => old(self).files().contains_key(fd) && f == old(self).files()[fd],
                None => !old(self).files().contains_key(fd),
            },
            final(self).files() == old(self).files().remove(fd),
            final(self).spec_pid() == old(self).spec_pid(),
            final(self).spec_state() == old(self).spec_state(),
            final(self).spec_registers() == old(self).spec_registers(),
            same_context(*final(self), *old(self)),
    {
        self.file_descriptors.remove(fd)
    }

    /// The open file `fd`, if it is open.
    pub fn file_descriptor(&self, fd: i32) -> (r: Option<&FileDescriptor>)
        requires
            self.wf(),
        ensures
            match r {
                Some(f) => self.files().contains_key(fd) && *f == self.files()[fd],
                None => !self.files().contains_key(fd),
            },
    {
        self.file_descriptors.get(fd)
    }

    /// Access to the open file `fd`, if it is open.
    pub fn file_descriptor_mut(&mut self, fd: i32) -> (r: Option<&mut FileDescriptor>)
        requires
            old(self).wf(),
        ensures
            final(self).wf(),
            final(self).file_numbers() == old(self).file_numbers(),
            final(self).spec_pid() == old(self).spec_pid(),
            final(self).spec_state() == old(self).spec_state(),
            final(self).spec_registers() == old(self).spec_registers(),
            same_context(*final(self), *old(self)),
            match r {
                Some(f) => old(self).files().contains_key(fd) && *f == old(self).files()[fd]
                    && final(self).files() == old(self).files().insert(fd, *final(f)),
                None => !old(self).files().contains_key(fd) && final(self).files() == old(
                    self,
                ).files(),
            },
    {
        self.file_descriptors.get_mut(fd)
    }

    /// The numbers of the open files, in increasing order.
    pub fn file_descriptors(&self) -> (r: Vec<i32>)
        ensures
            r@ == self.file_numbers(),
    {
        self.file_descriptors.fd_numbers()
    }

    /// Makes file 1 the terminal.
    pub fn redirect_stdout_to_term(&mut self)
        requires
            old(self).wf(),
            old(self).files().contains_key(1),
        ensures
            final(self).wf(),
            final(self).files() == old(self).files().insert(1, FileDescriptor::Terminal),
            final(self).file_numbers() == old(self).file_numbers(),
    {
        match self.file_descriptor_mut(1) {
            Some(f) => {
                *f = FileDescriptor::Terminal;
            },
            None => {},
        }
    }

    /// Makes file 0 an empty keyboard stream of [`STREAM_BUFFER_SIZE`] bytes.
    pub fn redirect_keyboard_to_stdin(&mut self)
        requires
            old(self).wf(),
            old(self).files().contains_key(0),
        ensures
            final(self).wf(),
            final(self).file_numbers() == old(self).file_numbers(),
            final(self).files().dom() == old(self).files().dom(),
            forall|k: i32| k != 0 ==> #[trigger] final(self).files()[k] == old(self).files()[k],
            final(self).files()[0].buffered() == Seq::<u8>::empty(),
            final(self).files()[0] matches FileDescriptor::OwnedStream { max_size, stream_type, .. }
                && max_size == STREAM_BUFFER_SIZE && stream_type == OwnedStreamType::Keyboard,
    {
        match self.file_descriptor_mut(0) {
            Some(f) => {
                *f = FileDescriptor::owned_stream(OwnedStreamType::Keyboard);
            },
            None => {},
        }
    }
}

/// Whether `i` is the position of the first process with id `pid` in `procs`.
pub open spec fn is_first_with_pid(procs: Seq<Process>, pid: u32, i: int) -> bool {
    &&& 0 <= i < procs.len()
    &&& procs[i].spec_pid() == pid
    &&& forall|j: int| 0 <= j < i ==> (#[trigger] procs[j]).spec_pid() != pid
}

/// The position of the first process with id `pid`, or -1 when there is none.
pub open spec fn pid_index(procs: Seq<Process>, pid: u32) -> int {
    if exists|i: int| is_first_with_pid(procs, pid, i) {
        choose|i: int| is_first_with_pid(procs, pid, i)
    } else {
        -1
    }
}

proof fn lemma_first_pid_exists(procs: Seq<Process>, pid: u32, i: int)
    requires
        0 <= i < procs.len(),
        procs[i].spec_pid() == pid,
    ensures
        exists|k: int| is_first_with_pid(procs, pid, k),
    decreases i,
{
    if exists|j: int| 0 <= j < i && (#[trigger] procs[j]).spec_pid() == pid {
        let j = choose|j: int| 0 <= j < i && (#[trigger] procs[j]).spec_pid() == pid;
        lemma_first_pid_exists(procs, pid, j);
    } else {
        assert(is_first_with_pid(procs, pid, i));
    }
}

/// `pid_index` is the first position with the id, or -1 when there is none.
pub proof fn lemma_pid_index(procs: Seq<Process>, pid: u32)
    ensures
        -1 <= pid_index(procs, pid) < procs.len(),
        pid_index(procs, pid) >= 0 ==> is_first_with_pid(procs, pid, pid_index(procs, pid)),
        pid_index(procs, pid) < 0 ==> forall|j: int| 0 <= j < procs.len() ==> (#[trigger] procs[j]).spec_pid() != pid,
{
    if exists|j: int| 0 <= j < procs.len() && (#[trigger] procs[j]).spec_pid() == pid {
        let j = choose|j: int| 0 <= j < procs.len() && (#[trigger] procs[j]).spec_pid() == pid;
        lemma_first_pid_exists(procs, pid, j);
    }
}

pub proof fn lemma_pid_index_is(procs: Seq<Process>, pid: u32, i: int)
    requires
        is_first_with_pid(procs, pid, i),
    ensures
        pid_index(procs, pid) == i,
{
    lemma_pid_index(procs, pid);
    let k = pid_index(procs, pid);
    if k != i {
        if k < i {
            assert(procs[k].spec_pid() == pid);
        } else {
            assert(procs[i].spec_pid() == pid);
        }
    }
}

/// Whether `a` is `b` but for its saved registers, flags and instruction pointer.
pub open spec fn same_identity(a: Process, b: Process) -> bool {
    &&& a.spec_pid() == b.spec_pid()
    &&& a.spec_state() == b.spec_state()
    &&& a.spec_mapped_pages() == b.spec_mapped_pages()
    &&& a.files() == b.files()
    &&& a.file_numbers() == b.file_numbers()
    &&& a.wf() == b.wf()
}

/// Whether `a` and `b` agree on what the machine keeps for a process: its
/// saved registers, flags and instruction pointer, and its mapped pages.
pub open spec fn same_context(a: Process, b: Process) -> bool {
    &&& a.spec_registers() == b.spec_registers()
    &&& a.spec_flags() == b.spec_flags()
    &&& a.spec_rip() == b.spec_rip()
    &&& a.spec_mapped_pages() == b.spec_mapped_pages()
}

/// Whether a process in `state` wakes up when the timer has counted `ticks`.
pub open spec fn wakes(state: State, ticks: u64) -> bool {
    match state {
        State::Sleeping(target) => ticks >= target,
        _ => false,
    }
}

/// The position of the first process that is ready, or -1 when none is.
pub open spec fn first_ready(procs: Seq<Process>) -> int {
    if exists|k: int| 0 <= k < procs.len() && procs[k].spec_state() is Ready && forall|j: int|
        0 <= j < k ==> !((#[trigger] procs[j]).spec_state() is Ready) {
        choose|k: int|
            0 <= k < procs.len() && procs[k].spec_state() is Ready && forall|j: int|
                0 <= j < k ==> !((#[trigger] procs[j]).spec_state() is Ready)
    } else {
        -1
    }
}

proof fn lemma_first_ready_is(procs: Seq<Process>, k: int)
    requires
        0 <= k < procs.len(),
        procs[k].spec_state() is Ready,
        forall|j: int| 0 <= j < k ==> !((#[trigger] procs[j]).spec_state() is Ready),
    ensures
        first_ready(procs) == k,
{
    let c = first_ready(procs);
    if c != k {
        if c < k {
            assert(procs[c].spec_state() is Ready);
        } else {
            assert(!(procs[k].spec_state() is Ready));
        }
    }
}

proof fn lemma_first_ready_none(procs: Seq<Process>)
    requires
        forall|j: int| 0 <= j < procs.len() ==> !((#[trigger] procs[j]).spec_state() is Ready),
    ensures
        first_ready(procs) == -1,
{
}

/// The processes of the system in the order in which the scheduler visits
/// them, and the id of the process that runs, 0 when none does.
pub struct Processes {
    processes: Vec<Process>,
    current_pid: u32,
}

impl Processes {
    /// The processes in the order in which the scheduler visits them.
    pub closed spec fn procs(&self) -> Seq<Process> {
        self.processes@
    }

    /// The id of the process that runs, 0 when none does.
    pub closed spec fn current_id(&self) -> u32 {
        self.current_pid
    }

    /// Whether there is a process with id `pid`.
    pub open spec fn has(&self, pid: u32) -> bool {
        pid_index(self.procs(), pid) >= 0
    }

    /// The first process with id `pid`.
    pub open spec fn get(&self, pid: u32) -> Process {
        self.procs()[pid_index(self.procs(), pid)]
    }

    /// No process and none running.
    pub fn new() -> (r: Self)
        ensures
            r.procs() == Seq::<Process>::empty(),
            r.current_id() == 0,
    {
        Processes { processes: Vec::new(), current_pid: 0 }
    }

    /// The position of the first process with id `pid`.
    fn position(&self, pid: u32) -> (r: Option<usize>)
        ensures
            match r {
                Some(i) => i == pid_index(self.procs(), pid),
                None => pid_index(self.procs(), pid) == -1,
            },
    {
        let mut i: usize = 0;
        while i < self.processes.len()
            invariant
                i <= self.processes@.len(),
                forall|j: int| 0 <= j < i ==> (#[trigger] self.processes@[j]).spec_pid() != pid,
            decreases self.processes@.len() - i,
        {
            if self.processes[i].pid() == pid {
                proof {
                    lemma_pid_index_is(self.processes@, pid, i as int);
                }
                return Some(i);
            }
            i = i + 1;
        }
        proof {
            lemma_pid_index(self.processes@, pid);
            if pid_index(self.processes@, pid) >= 0 {
                let k = pid_index(self.processes@, pid);
                assert(self.processes@[k].spec_pid() == pid);
            }
        }
        None
    }

    /// The process with id `pid`, which must exist.
    pub fn process(&self, pid: u32) -> (r: &Process)
        requires
            self.has(pid),
        ensures
            *r == self.get(pid),
    {
        let i = self.position(pid).unwrap();
        &self.processes[i]
    }

    /// Access to the process with id `pid`, which must exist.
    pub fn process_mut(&mut self, pid: u32) -> (r: &mut Process)
        requires
            old(self).has(pid),
        ensures
            *r == old(self).get(pid),
            final(self).procs() == old(self).procs().update(pid_index(old(self).procs(), pid), *final(r)),
            final(self).current_id() == old(self).current_id(),
    {
        let i = self.position(pid).unwrap();
        &mut self.processes[i]
    }

    /// All processes.
    pub fn processes(&self) -> (r: &Vec<Process>)
        ensures
            r@ == self.procs(),
    {
        &self.processes
    }

    /// Access to all processes.
    pub fn processes_mut(&mut self) -> (r: &mut Vec<Process>)
        ensures
            r@ == old(self).procs(),
            final(self).procs() == final(r)@,
            final(self).current_id() == old(self).current_id(),
    {
        &mut self.processes
    }

    /// The process that runs, if there is one.
    pub fn current(&self) -> (r: Option<&Process>)
        ensures
            match r {
                Some(p) => self.has(self.current_id()) && *p == self.get(self.current_id()),
                None => !self.has(self.current_id()),
            },
    {
        match self.position(self.current_pid) {
            Some(i) => Some(&self.processes[i]),
            None => None,
        }
    }

    /// Access to the process that runs, if there is one.
    pub fn current_mut(&mut self) -> (r: Option<&mut Process>)
        ensures
            final(self).current_id() == old(self).current_id(),
            match r {
                Some(p) => old(self).has(old(self).current_id()) && *p == old(self).get(old(self).current_id())
                    && final(self).procs() == old(self).procs().update(
                    pid_index(old(self).procs(), old(self).current_id()),
                    *final(p),
                ),
                None => !old(self).has(old(self).current_id()) && final(self).procs() == old(self).procs(),
            },
    {
        match self.position(self.current_pid) {
            Some(i) => Some(&mut self.processes[i]),
            None => None,
        }
    }

    /// Adds `process` after all others.
    pub fn add_process(&mut self, process: Process)
        ensures
            final(self).procs() == old(self).procs().push(process),
            final(self).current_id() == old(self).current_id(),
    {
        self.processes.push(process);
    }

    /// Makes `pid` the process that runs.
    pub fn set_current(&mut self, pid: u32)
        ensures
            final(self).procs() == old(self).procs(),
            final(self).current_id() == pid,
    {
        self.current_pid = pid;
    }

    /// Saves what an interrupt of the process that runs left: `registers`
    /// with the stack pointer `rsp`, the flags and the instruction pointer.
    /// Then no process runs, and the id of the one that ran comes back; when
    /// no process with the id of the one that runs exists, nothing changes.
    pub fn store_state(&mut self, registers: GPRegisters, flags: u64, rip: u64, rsp: u64) -> (r: Option<u32>)
        ensures
            match r {
                Some(pid) => {
                    let i = pid_index(old(self).procs(), pid);
                    let p = final(self).procs()[i];
                    &&& pid == old(self).current_id()
                    &&& old(self).has(pid)
                    &&& final(self).current_id() == 0
                    &&& final(self).procs().len() == old(self).procs().len()
                    &&& forall|j: int| 0 <= j < old(self).procs().len() && j != i ==> #[trigger] final(self).procs()[j]
                        == old(self).procs()[j]
                    &&& same_identity(p, old(self).procs()[i])
                    &&& p.spec_flags() == flags
                    &&& p.spec_rip() == rip
                    &&& p.spec_registers() == (GPRegisters { rsp, ..registers })
                },
                None => !old(self).has(old(self).current_id()) && final(self).procs() == old(self).procs()
                    && final(self).current_id() == old(self).current_id(),
            },
    {
        let pid = self.current_pid;
        match self.position(pid) {
            Some(i) => {
                let p = &mut self.processes[i];
                p.flags = flags;
                p.rip = rip;
                p.registers = GPRegisters { rsp, ..registers };
                self.current_pid = 0;
                Some(pid)
            },
            None => None,
        }
    }

    /// Takes out the processes that have terminated and gives them back; the
    /// others keep their order.
    pub fn remove_terminated(&mut self) -> (removed: Vec<Process>)
        ensures
            final(self).procs() == old(self).procs().filter(|p: Process| !(p.spec_state() is Terminated)),
            removed@ == old(self).procs().filter(|p: Process| p.spec_state() is Terminated),
            final(self).current_id() == old(self).current_id(),
    {
        let ghost all = self.processes@;
        let mut kept: Vec<Process> = Vec::new();
        let mut removed: Vec<Process> = Vec::new();
        let mut i: usize = 0;
        let n = self.processes.len();
        while self.processes.len() > 0
            invariant
                n == all.len(),
                i <= n,
                self.processes@ == all.skip(i as int),
                kept@ == all.take(i as int).filter(|p: Process| !(p.spec_state() is Terminated)),
                removed@ == all.take(i as int).filter(|p: Process| p.spec_state() is Terminated),
                self.current_pid == old(self).current_pid,
            decreases self.processes@.len(),
        {
            let p = self.processes.remove(0);
            proof {
                assert(all.take(i + 1).drop_last() =~= all.take(i as int));
                assert(all.take(i + 1).last() == p);
                assert(self.processes@ =~= all.skip(i + 1));
                reveal(Seq::filter);
            }
            match p.state {
                State::Terminated(_) => removed.push(p),
                _ => kept.push(p),
            }
            i = i + 1;
        }
        proof {
            assert(all.take(i as int) =~= all);
        }
        self.processes = kept;
        removed
    }

    /// Visits the processes in turn, each moving to the back, until one is
    /// ready, and gives back its id; when none is ready, the order stays as
    /// it was and nothing comes back.
    pub fn pick_ready(&mut self) -> (r: Option<u32>)
        ensures
            final(self).current_id() == old(self).current_id(),
            match r {
                Some(pid) => {
                    let k = first_ready(old(self).procs());
                    &&& 0 <= k < old(self).procs().len()
                    &&& pid == old(self).procs()[k].spec_pid()
                    &&& final(self).procs() == old(self).procs().skip(k + 1) + old(self).procs().take(k + 1)
                },
                None => first_ready(old(self).procs()) == -1 && final(self).procs() == old(self).procs(),
            },
    {
        let ghost all = self.processes@;
        let n = self.processes.len();
        let mut step: usize = 0;
        while step < n
            invariant
                all == old(self).processes@,
                n == all.len(),
                step <= n,
                self.processes@ == all.skip(step as int) + all.take(step as int),
                forall|j: int| 0 <= j < step ==> !((#[trigger] all[j]).spec_state() is Ready),
                self.current_pid == old(self).current_pid,
            decreases n - step,
        {
            let front = self.processes.remove(0);
            let ready = front.state == State::Ready;
            let pid = front.pid;
            self.processes.push(front);
            proof {
                assert(all[step as int] == front);
                assert(self.processes@ =~= all.skip(step + 1) + all.take(step + 1));
            }
            if ready {
                proof {
                    lemma_first_ready_is(all, step as int);
                    assert(all == old(self).procs());
                    assert(pid == all[step as int].spec_pid());
                }
                return Some(pid);
            }
            step = step + 1;
        }
        proof {
            assert(self.processes@ =~= all);
            lemma_first_ready_none(all);
        }
        None
    }

    /// Wakes the process `pid` when it sleeps and the timer has reached its
    /// wake-up count.  When it waits for a stream, gives back whether the
    /// stream has bytes now: then its pending read can run again.
    pub fn update_state(&mut self, pid: u32, ticks: u64) -> (retry: bool)
        requires
            old(self).has(pid),
            old(self).wait_is_valid(old(self).get(pid)),
        ensures
            final(self).current_id() == old(self).current_id(),
            retry == match old(self).get(pid).spec_state() {
                State::WaitingForStream(fd) => old(self).waited_stream(old(self).get(pid), fd).len() > 0,
                _ => false,
            },
            final(self).procs() == if wakes(old(self).get(pid).spec_state(), ticks) {
                old(self).procs().update(
                    pid_index(old(self).procs(), pid),
                    old(self).get(pid).with_state(State::Ready),
                )
            } else {
                old(self).procs()
            },
    {
        let i = self.position(pid).unwrap();
        match self.processes[i].state {
            State::Sleeping(target) => {
                if ticks >= target {
                    let ghost before = self.processes@[i as int];
                    self.processes[i].state = State::Ready;
                    proof {
                        assert(self.processes@[i as int] == before.with_state(State::Ready));
                        assert(self.processes@ =~= old(self).processes@.update(i as int, before.with_state(State::Ready)));
                    }
                }
                false
            },
            State::WaitingForStream(fd) => {
                let p = &self.processes[i];
                match p.file_descriptor(fd) {
                    Some(FileDescriptor::OwnedStream { buffer, .. }) => buffer.len() > 0,
                    Some(FileDescriptor::ForeignStream { stream_type: ForeignStreamType::Process { pid: other, file_descriptor } }) => {
                        let q = self.process(*other);
                        match q.file_descriptor(*file_descriptor) {
                            Some(FileDescriptor::OwnedStream { buffer, .. }) => buffer.len() > 0,
                            _ => {
                                proof {
                                    assert(false);
                                }
                                false
                            },
                        }
                    },
                    _ => {
                        proof {
                            assert(false);
                        }
                        false
                    },
                }
            },
            _ => false,
        }
    }

    /// Whether a process that waits for a stream waits for one it can read:
    /// a stream of its own, or the stream of another process that exists.
    pub open spec fn wait_is_valid(&self, p: Process) -> bool {
        p.spec_state() matches State::WaitingForStream(fd) ==> {
            &&& p.wf()
            &&& p.files().contains_key(fd)
            &&& match p.files()[fd] {
                FileDescriptor::OwnedStream { .. } => true,
                FileDescriptor::ForeignStream { stream_type: ForeignStreamType::Process { pid, file_descriptor } } => {
                    &&& self.has(pid)
                    &&& self.get(pid).wf()
                    &&& self.get(pid).files().contains_key(file_descriptor)
                    &&& self.get(pid).files()[file_descriptor] is OwnedStream
                },
                _ => false,
            }
        }
    }

    /// The bytes buffered in the stream that the file `fd` of `p` reads.
    pub open spec fn waited_stream(&self, p: Process, fd: i32) -> Seq<u8> {
        match p.files()[fd] {
            FileDescriptor::ForeignStream { stream_type: ForeignStreamType::Process { pid, file_descriptor } } => self.get(
                pid,
            ).files()[file_descriptor].buffered(),
            other => other.buffered(),
        }
    }

    /// Delivers `bytes` to every open stream of `kind` with room left, of
    /// every process.
    pub fn deliver(&mut self, kind: OwnedStreamType, bytes: &[u8])
        requires
            forall|i: int| 0 <= i < old(self).procs().len() ==> (#[trigger] old(self).procs()[i]).wf(),
        ensures
            final(self).current_id() == old(self).current_id(),
            final(self).procs().len() == old(self).procs().len(),
            forall|i: int| 0 <= i < old(self).procs().len() ==> {
                let before = old(self).procs()[i];
                let after = #[trigger] final(self).procs()[i];
                &&& after.wf()
                &&& after.spec_pid() == before.spec_pid()
                &&& after.spec_state() == before.spec_state()
                &&& after.spec_registers() == before.spec_registers()
                &&& after.spec_mapped_pages() == before.spec_mapped_pages()
                &&& after.file_numbers() == before.file_numbers()
                &&& after.files().dom() == before.files().dom()
                &&& forall|k: i32| #[trigger] before.files().contains_key(k) ==> before.files()[k].delivered(
                    after.files()[k],
                    kind,
                    bytes@,
                )
            },
    {
        let ghost start = self.processes@;
        let mut i: usize = 0;
        while i < self.processes.len()
            invariant
                i <= self.processes@.len(),
                self.processes@.len() == start.len(),
                self.current_pid == old(self).current_pid,
                start == old(self).processes@,
                forall|j: int| 0 <= j < start.len() ==> (#[trigger] start[j]).wf(),
                forall|j: int| i <= j < start.len() ==> #[trigger] self.processes@[j] == start[j],
                forall|j: int| 0 <= j < i ==> {
                    let before = start[j];
                    let after = #[trigger] self.processes@[j];
                    &&& after.wf()
                    &&& after.spec_pid() == before.spec_pid()
                    &&& after.spec_state() == before.spec_state()
                    &&& after.spec_registers() == before.spec_registers()
                    &&& after.spec_mapped_pages() == before.spec_mapped_pages()
                    &&& after.file_numbers() == before.file_numbers()
                    &&& after.files().dom() == before.files().dom()
                    &&& forall|k: i32| #[trigger] before.files().contains_key(k) ==> before.files()[k].delivered(
                        after.files()[k],
                        kind,
                        bytes@,
                    )
                },
            decreases start.len() - i,
        {
            let p = &mut self.processes[i];
            p.deliver(kind, bytes);
            i = i + 1;
        }
    }

    /// Ends the process that runs with the exit code `code`; gives back
    /// whether there was one.
    pub fn terminate_current(&mut self, code: u64) -> (r: bool)
        ensures
            r == old(self).has(old(self).current_id()),
            final(self).current_id() == old(self).current_id(),
            r ==> final(self).procs() == old(self).procs().update(
                pid_index(old(self).procs(), old(self).current_id()),
                old(self).get(old(self).current_id()).with_state(State::Terminated(code)),
            ),
            !r ==> final(self).procs() == old(self).procs(),
    {
        match self.position(self.current_pid) {
            Some(i) => {
                self.processes[i].set_state(State::Terminated(code));
                true
            },
            None => false,
        }
    }
}

/// Whether the page `next` continues the region that starts with `first`
/// and is `size` bytes long: it starts where the region ends, with the same
/// flags and the same name.
pub open spec fn continues(first: MappedPage, size: u64, next: MappedPage) -> bool {
    &&& first.page + size == next.page
    &&& first.flags == next.flags
    &&& first.name.spec_bytes() == next.name.spec_bytes()
}

/// The regions that reading `pages` in order has closed, and the one it
/// has open: each region is its first page and its size in bytes.
pub open spec fn region_state(pages: Seq<MappedPage>) -> (Seq<(MappedPage, u64)>, Option<(MappedPage, u64)>)
    decreases pages.len(),
{
    if pages.len() == 0 {
        (Seq::empty(), None)
    } else {
        let (closed, open) = region_state(pages.drop_last());
        let next = pages.last();
        match open {
            None => (closed, Some((next, 0x1000u64))),
            Some((first, size)) => if continues(first, size, next) {
                (closed, Some((first, (size + 0x1000) as u64)))
            } else {
                (closed.push((first, size)), Some((next, 0x1000u64)))
            },
        }
    }
}

/// The regions of `pages`: runs of pages that follow each other with the
/// same flags and name, each its first page and its size.
pub open spec fn regions(pages: Seq<MappedPage>) -> Seq<(MappedPage, u64)> {
    let (closed, open) = region_state(pages);
    match open {
        Some(r) => closed.push(r),
        None => closed,
    }
}

/// An open region is at most as large as the pages read so far.
proof fn lemma_region_size(pages: Seq<MappedPage>)
    ensures
        region_state(pages).1 matches Some((first, size)) ==> size <= pages.len() * 0x1000 && 0 < pages.len(),
    decreases pages.len(),
{
    if pages.len() > 0 {
        lemma_region_size(pages.drop_last());
    }
}

/// Whether two names are the same.
fn same_name(a: &str, b: &str) -> (r: bool)
    ensures
        r == (a.spec_bytes() == b.spec_bytes()),
{
    let x = a.as_bytes();
    let y = b.as_bytes();
    if x.len() != y.len() {
        return false;
    }
    let mut i: usize = 0;
    while i < x.len()
        invariant
            x@ == a.spec_bytes(),
            y@ == b.spec_bytes(),
            x@.len() == y@.len(),
            i <= x@.len(),
            forall|j: int| 0 <= j < i ==> x@[j] == y@[j],
        decreases x@.len() - i,
    {
        if x[i] != y[i] {
            assert(x@[i as int] != y@[i as int]);
            return false;
        }
        i = i + 1;
    }
    assert(x@ =~= y@);
    true
}

/// The regions of the mapped pages `pages`, as the memory map of a process
/// lists them.
pub fn memory_regions(pages: &[MappedPage]) -> (r: Vec<(MappedPage, u64)>)
    requires
        forall|i: int| 0 <= i < pages@.len() ==> #[trigger] pages@[i].page + (pages@.len() + 1) * 0x1000 <= u64::MAX,
    ensures
        r@ == regions(pages@),
{
    let mut closed: Vec<(MappedPage, u64)> = Vec::new();
    let mut open: Option<(MappedPage, u64)> = None;
    let mut i: usize = 0;
    while i < pages.len()
        invariant
            i <= pages@.len(),
            forall|j: int| 0 <= j < pages@.len() ==> #[trigger] pages@[j].page + (pages@.len() + 1) * 0x1000 <= u64::MAX,
            (closed@, open) == region_state(pages@.take(i as int)),
            open matches Some((first, _)) ==> exists|j: int| 0 <= j < i && first == #[trigger] pages@[j],
        decreases pages@.len() - i,
    {
        let next = pages[i];
        proof {
            assert(pages@.take(i + 1).drop_last() =~= pages@.take(i as int));
            assert(pages@.take(i + 1).last() == next);
            lemma_region_size(pages@.take(i as int));
        }
        match open {
            None => {
                open = Some((next, 0x1000));
            },
            Some((first, size)) => {
                proof {
                    let j = choose|j: int| 0 <= j < i && first == #[trigger] pages@[j];
                    assert(first.page + (pages@.len() + 1) * 0x1000 <= u64::MAX);
                    assert(size <= i * 0x1000);
                }
                if first.page + size == next.page && first.flags == next.flags && same_name(first.name, next.name) {
                    open = Some((first, size + 0x1000));
                } else {
                    closed.push((first, size));
                    open = Some((next, 0x1000));
                }
            },
        }
        i = i + 1;
    }
    assert(pages@.take(i as int) =~= pages@);
    match open {
        Some(region) => {
            closed.push(region);
        },
        None => {},
    }
    closed
}

} // verus!
