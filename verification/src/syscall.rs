//! The decisions of the system calls: which call a process asked for, and
//! what each does to the processes, their open files and the file system.
//! Copying between the kernel and the memory of a process, the terminal and
//! the page tables are left to the caller.

use vstd::prelude::*;

use std::collections::VecDeque;
use std::string::String;

use vstd::string::StringSliceAdditionalSpecFns;

use crate::timer::Timer;
use crate::vfs::{path_components, Directory, File, Hooks};
use crate::process::{
    FileDescriptor, ForeignStreamType, OwnedStreamType, PidFactory, Process, Processes, State, StreamType,
    STREAM_BUFFER_SIZE, pid_index, same_context,
};

verus! {

/// The system calls, by the number that a process puts in `rax`.
#[derive(Debug, Clone, Copy, PartialEq, Eq, Structural)]
pub enum Syscall {
    Print,
    Sleep,
    Exit,
    ListDirectory,
    Read,
    Fork,
    Open,
    Close,
    Mmap,
    Munmap,
    Execve,
    MapFramebuffer,
    Write,
    Waitpid,
}

impl Syscall {
    /// The number of the call.
    pub open spec fn number(self) -> u64 {
        match self {
            Syscall::Print => 0,
            Syscall::Sleep => 1,
            Syscall::Exit => 2,
            Syscall::ListDirectory => 3,
            Syscall::Read => 4,
            Syscall::Fork => 5,
            Syscall::Open => 6,
            Syscall::Close => 7,
            Syscall::Mmap => 8,
            Syscall::Munmap => 9,
            Syscall::Execve => 10,
            Syscall::MapFramebuffer => 11,
            Syscall::Write => 12,
            Syscall::Waitpid => 13,
        }
    }
}

/// The numbers of the calls, as the system call table of the kernel gives
/// them (print 0, sleep 1, exit 2, list directory 3, read 4, fork 5, open 6,
/// close 7, mmap 8, munmap 9, execve 10, map framebuffer 11, write 12,
/// waitpid 13), and no two calls share a number: with `handle_syscall`'s
/// contract they fix the call that each number asks for.
pub proof fn lemma_syscall_numbers()
    ensures
        Syscall::Print.number() == 0,
        Syscall::Sleep.number() == 1,
        Syscall::Exit.number() == 2,
        Syscall::ListDirectory.number() == 3,
        Syscall::Read.number() == 4,
        Syscall::Fork.number() == 5,
        Syscall::Open.number() == 6,
        Syscall::Close.number() == 7,
        Syscall::Mmap.number() == 8,
        Syscall::Munmap.number() == 9,
        Syscall::Execve.number() == 10,
        Syscall::MapFramebuffer.number() == 11,
        Syscall::Write.number() == 12,
        Syscall::Waitpid.number() == 13,
        forall|a: Syscall, b: Syscall| a.number() == b.number() ==> a == b,
{
}

/// The call that the process `pid` asked for, by the number in its `rax`.
/// A number without a call is a fault of the process the kernel does not survive.
pub fn handle_syscall(processes: &Processes, pid: u32) -> (r: Syscall)
    requires
        processes.has(pid),
        processes.get(pid).spec_registers().rax <= 13,
    ensures
        r.number() == processes.get(pid).spec_registers().rax,
{
    let rax = processes.process(pid).registers().rax;
    if rax == 0 {
        Syscall::Print
    } else if rax == 1 {
        Syscall::Sleep
    } else if rax == 2 {
        Syscall::Exit
    } else if rax == 3 {
        Syscall::ListDirectory
    } else if rax == 4 {
        Syscall::Read
    } else if rax == 5 {
        Syscall::Fork
    } else if rax == 6 {
        Syscall::Open
    } else if rax == 7 {
        Syscall::Close
    } else if rax == 8 {
        Syscall::Mmap
    } else if rax == 9 {
        Syscall::Munmap
    } else if rax == 10 {
        Syscall::Execve
    } else if rax == 11 {
        Syscall::MapFramebuffer
    } else if rax == 12 {
        Syscall::Write
    } else {
        Syscall::Waitpid
    }
}

/// The processes with the state of `pid` set to `state`.
pub open spec fn with_state_of(processes: Seq<Process>, pid: u32, state: State) -> Seq<Process> {
    processes.update(pid_index(processes, pid), processes[pid_index(processes, pid)].with_state(state))
}

/// Puts the process `pid` to sleep for `milliseconds`: it sleeps until the
/// tick at which `timer`, counting at its programmed frequency, has let that
/// many milliseconds pass (`Timer::sleep_until`).
pub fn sleep(processes: &mut Processes, pid: u32, timer: &Timer, milliseconds: u64)
    requires
        old(processes).has(pid),
        timer.spec_ticks() + milliseconds * timer.spec_frequency() / 1000 <= u64::MAX,
    ensures
        final(processes).procs() == with_state_of(
            old(processes).procs(),
            pid,
            State::Sleeping((timer.spec_ticks() + milliseconds * timer.spec_frequency() / 1000) as u64),
        ),
        final(processes).current_id() == old(processes).current_id(),
{
    let wake = timer.sleep_until(milliseconds);
    let p = processes.process_mut(pid);
    p.set_state(State::Sleeping(wake));
}

/// Makes the process `pid` wait for its child `child` to exit; `arg` is the
/// address, in the memory of the process, where the exit status goes.
pub fn waitpid(processes: &mut Processes, pid: u32, child: u32, arg: u64)
    requires
        old(processes).has(pid),
    ensures
        final(processes).procs() == with_state_of(old(processes).procs(), pid, State::WaitingForChild { pid: child, arg }),
        final(processes).current_id() == old(processes).current_id(),
{
    let p = processes.process_mut(pid);
    p.set_state(State::WaitingForChild { pid: child, arg });
}

/// Whether `p` waits for the child `pid` to exit.
pub open spec fn waits_for(p: Process, pid: u32) -> bool {
    p.spec_state() matches State::WaitingForChild { pid: child, .. } && child == pid
}

/// The processes with those that wait for `pid` made ready.
pub open spec fn wake_waiters(processes: Seq<Process>, pid: u32) -> Seq<Process> {
    Seq::new(
        processes.len(),
        |i: int| if waits_for(processes[i], pid) {
            processes[i].with_state(State::Ready)
        } else {
            processes[i]
        },
    )
}

/// The ids of the processes that wait for `pid`, with the addresses where
/// they want the exit status, in order.
pub open spec fn waiters(processes: Seq<Process>, pid: u32) -> Seq<(u32, u64)>
    decreases processes.len(),
{
    if processes.len() == 0 {
        Seq::empty()
    } else {
        let rest = waiters(processes.drop_last(), pid);
        let p = processes.last();
        match p.spec_state() {
            State::WaitingForChild { pid: child, arg } => if child == pid {
                rest.push((p.spec_pid(), arg))
            } else {
                rest
            },
            _ => rest,
        }
    }
}

/// Ends the process `pid` with the exit code `status`, then makes ready
/// every process that waits for it, and gives back those processes with the
/// addresses where each wants the exit status written.
pub fn exit(processes: &mut Processes, pid: u32, status: u32) -> (woken: Vec<(u32, u64)>)
    requires
        old(processes).has(pid),
    ensures
        final(processes).procs() == wake_waiters(with_state_of(old(processes).procs(), pid, State::Terminated(status as u64)), pid),
        woken@ == waiters(with_state_of(old(processes).procs(), pid, State::Terminated(status as u64)), pid),
        final(processes).current_id() == old(processes).current_id(),
{
    let p = processes.process_mut(pid);
    p.set_state(State::Terminated(status as u64));
    let ghost start = processes.procs();
    let all = processes.processes_mut();
    let mut woken: Vec<(u32, u64)> = Vec::new();
    let mut i: usize = 0;
    while i < all.len()
        invariant
            i <= all@.len(),
            all@.len() == start.len(),
            forall|j: int| 0 <= j < i ==> #[trigger] all@[j] == wake_waiters(start, pid)[j],
            forall|j: int| i <= j < all@.len() ==> #[trigger] all@[j] == start[j],
            woken@ == waiters(start.take(i as int), pid),
        decreases all@.len() - i,
    {
        let state = all[i].state();
        proof {
            assert(start.take(i + 1).drop_last() =~= start.take(i as int));
            assert(start.take(i + 1).last() == start[i as int]);
            start[i as int].lemma_with_state(State::Ready);
        }
        match state {
            State::WaitingForChild { pid: child, arg } => {
                if child == pid {
                    let q = &mut all[i];
                    q.set_state(State::Ready);
                    woken.push((q.pid(), arg));
                }
            },
            _ => {},
        }
        i = i + 1;
    }
    proof {
        assert(all@ =~= wake_waiters(start, pid));
        assert(start.take(i as int) =~= start);
    }
    woken
}

/// Closes the file `fd` of the process `pid`; gives back whether it was open.
pub fn close(processes: &mut Processes, pid: u32, fd: i32) -> (closed: bool)
    requires
        old(processes).has(pid),
        old(processes).get(pid).wf(),
    ensures
        closed == old(processes).get(pid).files().contains_key(fd),
        final(processes).procs().len() == old(processes).procs().len(),
        forall|j: int| 0 <= j < old(processes).procs().len() && j != pid_index(old(processes).procs(), pid)
            ==> #[trigger] final(processes).procs()[j] == old(processes).procs()[j],
        final(processes).get(pid).files() == old(processes).get(pid).files().remove(fd),
        final(processes).get(pid).wf(),
        final(processes).get(pid).spec_pid() == pid,
        final(processes).get(pid).spec_state() == old(processes).get(pid).spec_state(),
        same_context(final(processes).get(pid), old(processes).get(pid)),
        final(processes).current_id() == old(processes).current_id(),
{
    let p = processes.process_mut(pid);
    let r = p.close_file_descriptor(fd);
    proof {
        lemma_same_position(old(processes).procs(), pid, *final(p));
    }
    r.is_some()
}

/// Replacing a process by one with the same id keeps the position of
/// the first process of every id.
pub proof fn lemma_update_keeps_positions(procs: Seq<Process>, i: int, p: Process, q: u32)
    requires
        0 <= i < procs.len(),
        p.spec_pid() == procs[i].spec_pid(),
    ensures
        pid_index(procs.update(i, p), q) == pid_index(procs, q),
{
    let n = procs.update(i, p);
    crate::process::lemma_pid_index(procs, q);
    crate::process::lemma_pid_index(n, q);
    let a = pid_index(procs, q);
    let b = pid_index(n, q);
    assert forall|j: int| 0 <= j < procs.len() implies (#[trigger] n[j]).spec_pid() == procs[j].spec_pid() by {}
    if a >= 0 {
        assert(n[a].spec_pid() == q);
        crate::process::lemma_pid_index_is(n, q, a);
    } else if b >= 0 {
        assert(procs[b].spec_pid() == q);
    }
}

/// Replacing the first process with id `pid` by one with the same id keeps
/// it the first.
pub proof fn lemma_same_position(procs: Seq<Process>, pid: u32, p: Process)
    requires
        pid_index(procs, pid) >= 0,
        p.spec_pid() == pid,
    ensures
        pid_index(procs.update(pid_index(procs, pid), p), pid) == pid_index(procs, pid),
{
    crate::process::lemma_pid_index(procs, pid);
    let i = pid_index(procs, pid);
    let n = procs.update(i, p);
    assert forall|j: int| 0 <= j < i implies (#[trigger] n[j]).spec_pid() != pid by {
        assert(n[j] == procs[j]);
    }
    crate::process::lemma_pid_index_is(n, pid, i);
}

/// Whether `fd` is what opening `file` at `path` gives: an empty owned
/// stream of [`STREAM_BUFFER_SIZE`] bytes for an owned stream file, access
/// to the other process's stream for a foreign one, and otherwise the file
/// at `path`, read from its start.
pub open spec fn opens_as<H>(file: File<H>, path: Seq<char>, fd: FileDescriptor) -> bool {
    match file {
        File::Stream { stream_type: StreamType::Owned(t) } => fd matches FileDescriptor::OwnedStream {
            buffer,
            max_size,
            stream_type,
        } && buffer@ == Seq::<u8>::empty() && max_size == STREAM_BUFFER_SIZE && stream_type == t,
        File::Stream { stream_type: StreamType::Foreign(t) } => fd == (FileDescriptor::ForeignStream {
            stream_type: t,
        }),
        _ => fd matches FileDescriptor::Regular { path: p, offset } && p@ == path && offset == 0,
    }
}

/// The file descriptor that opening `file` at `path` gives.
fn descriptor_for<H: Hooks>(file: &File<H>, path: String) -> (r: FileDescriptor)
    ensures
        opens_as(*file, path@, r),
{
    match file {
        File::Stream { stream_type: StreamType::Owned(t) } => FileDescriptor::OwnedStream {
            buffer: VecDeque::with_capacity(STREAM_BUFFER_SIZE),
            max_size: STREAM_BUFFER_SIZE,
            stream_type: *t,
        },
        File::Stream { stream_type: StreamType::Foreign(t) } => FileDescriptor::ForeignStream { stream_type: *t },
        _ => FileDescriptor::Regular { path, offset: 0 },
    }
}

/// Opens the file at `path` for the process `pid` and gives back the number
/// of the new file descriptor, or nothing when there is no file at `path`.
/// The number is one more than the highest open one, 0 when none is open.
pub fn open<H: Hooks>(processes: &mut Processes, fs: &mut Directory<H>, pid: u32, path: &str) -> (r: Option<i32>)
    requires
        old(processes).has(pid),
        old(processes).get(pid).wf(),
        forall|k: i32| #[trigger] old(processes).get(pid).files().contains_key(k) ==> k < i32::MAX,
    ensures
        final(processes).current_id() == old(processes).current_id(),
        final(processes).procs().len() == old(processes).procs().len(),
        forall|j: int| 0 <= j < old(processes).procs().len() && j != pid_index(old(processes).procs(), pid)
            ==> #[trigger] final(processes).procs()[j] == old(processes).procs()[j],
        final(processes).get(pid).wf(),
        final(processes).get(pid).spec_pid() == pid,
        final(processes).get(pid).spec_state() == old(processes).get(pid).spec_state(),
        r is None ==> final(processes).get(pid).files() == old(processes).get(pid).files(),
        r matches Some(n) ==> {
            &&& old(processes).get(pid).files().dom().is_empty() ==> n == 0
            &&& !old(processes).get(pid).files().dom().is_empty() ==> old(processes).get(pid).files().contains_key(
                (n - 1) as i32,
            ) && forall|k: i32| #[trigger] old(processes).get(pid).files().contains_key(k) ==> k < n
            &&& final(processes).get(pid).files().dom() == old(processes).get(pid).files().dom().insert(n)
            &&& forall|k: i32| k != n ==> #[trigger] final(processes).get(pid).files()[k] == old(
                processes,
            ).get(pid).files()[k]
        },
        old(fs).view().regular_file_walk(path_components(path.spec_bytes())) ==> {
            &&& final(fs).view() == old(fs).view()
            &&& r is Some <==> old(fs).view().lookup_file(path_components(path.spec_bytes())) is Some
            &&& r matches Some(n) ==> opens_as(
                old(fs).view().lookup_file(path_components(path.spec_bytes())).unwrap(),
                path@,
                final(processes).get(pid).files()[n],
            )
        },
{
    let found = fs.file_mut(path);
    match found {
        Some(file) => {
            let owned: String = path.to_owned();
            let fd = descriptor_for(file, owned);
            proof {
                if old(fs).view().regular_file_walk(path_components(path.spec_bytes())) {
                    crate::vfs::lemma_with_file_found(old(fs).view(), path_components(path.spec_bytes()));
                }
            }
            let p = processes.process_mut(pid);
            let n = p.new_file_descriptor(fd);
            proof {
                lemma_same_position(old(processes).procs(), pid, *final(p));
            }
            Some(n)
        },
        None => None,
    }
}

/// What an entry of a directory listing is.
#[derive(Debug, Clone, Copy, PartialEq, Eq, Structural)]
pub enum EntryType {
    File,
    Directory,
}

/// Why listing a directory failed.
#[derive(Debug, Clone, Copy, PartialEq, Eq, Structural)]
pub enum ListDirError {
    /// There is no directory at the path.
    NotFound,
    /// The directory has more entries than the caller has room for, or a
    /// name is longer than the room for it.
    BufferTooSmall,
}

/// The names of `entries` with the type `t`.
pub open spec fn typed_names<V>(entries: Seq<(Seq<u8>, V)>, t: EntryType) -> Seq<(Seq<u8>, EntryType)> {
    Seq::new(entries.len(), |i: int| (entries[i].0, t))
}

/// The listing of a directory: its files, then its subdirectories, each in
/// the order in which the directory keeps them.
pub open spec fn dir_listing<H>(d: crate::vfs::DirView<H>) -> Seq<(Seq<u8>, EntryType)> {
    typed_names(d.files, EntryType::File) + typed_names(d.dirs, EntryType::Directory)
}

/// Names and types of a listing as values.
pub open spec fn listing_view(s: Seq<(Vec<u8>, EntryType)>) -> Seq<(Seq<u8>, EntryType)> {
    Seq::new(s.len(), |i: int| (s[i].0@, s[i].1))
}

/// The names of `entries`, each with the type `t`, after `out`.
fn push_names<V>(entries: &Vec<(Vec<u8>, V)>, t: EntryType, out: &mut Vec<(Vec<u8>, EntryType)>)
    ensures
        listing_view(final(out)@) == listing_view(old(out)@) + Seq::new(entries@.len(), |i: int| (entries@[i].0@, t)),
{
    let ghost start = out@;
    let mut i: usize = 0;
    while i < entries.len()
        invariant
            i <= entries@.len(),
            out@.len() == start.len() + i,
            forall|k: int| 0 <= k < start.len() ==> #[trigger] out@[k] == start[k],
            forall|k: int| 0 <= k < i ==> (#[trigger] out@[start.len() + k]).0@ == entries@[k].0@ && out@[start.len() + k].1 == t,
        decreases entries@.len() - i,
    {
        let name = copy_bytes(&entries[i].0);
        out.push((name, t));
        i = i + 1;
    }
    assert(listing_view(out@) =~= listing_view(start) + Seq::new(entries@.len(), |k: int| (entries@[k].0@, t))) by {
        assert forall|k: int| 0 <= k < out@.len() implies #[trigger] listing_view(out@)[k]
            == (listing_view(start) + Seq::new(entries@.len(), |k: int| (entries@[k].0@, t)))[k] by {
            if k >= start.len() {
                assert(out@[start.len() + (k - start.len())] == out@[k]);
            }
        }
    }
}

/// A copy of `bytes`.
fn copy_bytes(bytes: &Vec<u8>) -> (r: Vec<u8>)
    ensures
        r@ == bytes@,
{
    let mut r: Vec<u8> = Vec::new();
    let mut i: usize = 0;
    while i < bytes.len()
        invariant
            i <= bytes@.len(),
            r@ == bytes@.take(i as int),
        decreases bytes@.len() - i,
    {
        r.push(bytes[i]);
        i = i + 1;
        assert(r@ =~= bytes@.take(i as int));
    }
    assert(bytes@.take(i as int) =~= bytes@);
    r
}

/// Lists the directory at `path`: the names of its files, then those of its
/// subdirectories, when they are at most `entries_len` in all.
pub fn list_directory<H: Hooks>(fs: &mut Directory<H>, path: &str, entries_len: u32) -> (r: Result<Vec<(Vec<u8>, EntryType)>, ListDirError>)
    ensures
        ({
            let p = path_components(path.spec_bytes());
            let d = old(fs).view().lookup_dir(p);
            old(fs).view().regular_walk(p) && (d matches Some(dir) ==> dir.is_regular()) ==> {
                &&& final(fs).view() == old(fs).view()
                &&& match r {
                    Ok(entries) => d is Some && dir_listing(d.unwrap()).len() <= entries_len
                        && listing_view(entries@) == dir_listing(d.unwrap())
                        && (crate::vfs::sorted_tree(old(fs).view()) ==> crate::vfs::sorted_tree(d.unwrap())),
                    Err(ListDirError::NotFound) => d is None,
                    Err(ListDirError::BufferTooSmall) => d is Some && dir_listing(d.unwrap()).len() > entries_len,
                }
            }
        }),
{
    let ghost p = path_components(path.spec_bytes());
    let dir = match fs.directory_mut(path) {
        Some(dir) => dir,
        None => {
            return Err(ListDirError::NotFound);
        },
    };
    let ghost before = *dir;
    let files_len = dir.files().len();
    let dirs_len = dir.directories().len();
    if files_len > entries_len as usize || dirs_len > entries_len as usize - files_len {
        proof {
            if before.view().is_regular() {
                crate::vfs::lemma_view_entries(before);
            }
            if old(fs).view().regular_walk(p) && before.view().is_regular() {
                crate::vfs::lemma_with_dir_found(old(fs).view(), p);
            }
        }
        return Err(ListDirError::BufferTooSmall);
    }
    let mut entries: Vec<(Vec<u8>, EntryType)> = Vec::new();
    push_names(dir.files(), EntryType::File, &mut entries);
    push_names(dir.directories(), EntryType::Directory, &mut entries);
    proof {
        if before.view().is_regular() {
            crate::vfs::lemma_view_entries(before);
            assert(listing_view(entries@) =~= dir_listing(before.view()));
        }
        if old(fs).view().regular_walk(p) && before.view().is_regular() {
            crate::vfs::lemma_with_dir_found(old(fs).view(), p);
        }
        if crate::vfs::sorted_tree(old(fs).view()) && old(fs).view().lookup_dir(p) is Some {
            crate::vfs::lemma_lookup_dir_sorted(old(fs).view(), p);
        }
    }
    Ok(entries)
}

/// How many of the names of `entries`, from the first on, fit in the room
/// given for each: the entries before the first name that is longer than
/// its room, or all of them.
pub fn names_that_fit(entries: &Vec<(Vec<u8>, EntryType)>, room: &[u32]) -> (r: usize)
    requires
        room@.len() >= entries@.len(),
    ensures
        r <= entries@.len(),
        forall|i: int| 0 <= i < r ==> #[trigger] entries@[i].0@.len() <= room@[i],
        r < entries@.len() ==> entries@[r as int].0@.len() > room@[r as int],
{
    let mut i: usize = 0;
    while i < entries.len()
        invariant
            i <= entries@.len(),
            room@.len() >= entries@.len(),
            forall|j: int| 0 <= j < i ==> #[trigger] entries@[j].0@.len() <= room@[j],
        decreases entries@.len() - i,
    {
        if entries[i].0.len() > room[i] as usize {
            return i;
        }
        i = i + 1;
    }
    i
}

/// Every process keeps its open files in order.
pub open spec fn all_wf(processes: Processes) -> bool {
    forall|i: int| 0 <= i < processes.procs().len() ==> (#[trigger] processes.procs()[i]).wf()
}

/// Where following the file `fd` of the process `pid` through foreign
/// streams leads within `fuel` steps: `Some(Some(owner and file))` at an
/// owned stream, `Some(None)` at a file that is not open or not a stream,
/// `None` when a process on the way does not exist or the steps run out.
pub open spec fn resolution(processes: Processes, pid: u32, fd: i32, fuel: nat) -> Option<Option<(u32, i32)>>
    decreases fuel,
{
    if !processes.has(pid) {
        None
    } else if !processes.get(pid).files().contains_key(fd) {
        Some(None)
    } else {
        match processes.get(pid).files()[fd] {
            FileDescriptor::OwnedStream { .. } => Some(Some((pid, fd))),
            FileDescriptor::ForeignStream { stream_type: ForeignStreamType::Process { pid: other, file_descriptor } } => {
                if fuel == 0 {
                    None
                } else {
                    resolution(processes, other, file_descriptor, (fuel - 1) as nat)
                }
            },
            _ => Some(None),
        }
    }
}

/// Following the stream ends: every process on the way exists and the
/// chain of foreign streams does not come back on itself.
pub open spec fn resolves(processes: Processes, pid: u32, fd: i32) -> bool {
    exists|fuel: nat| #[trigger] resolution(processes, pid, fd, fuel) is Some
}

/// Where following the stream leads.
pub open spec fn resolved(processes: Processes, pid: u32, fd: i32) -> Option<(u32, i32)> {
    resolution(processes, pid, fd, choose|fuel: nat| #[trigger] resolution(processes, pid, fd, fuel) is Some).unwrap()
}

/// More steps lead to the same place.
proof fn lemma_resolution_more_fuel(processes: Processes, pid: u32, fd: i32, fuel: nat, more: nat)
    requires
        resolution(processes, pid, fd, fuel) is Some,
        fuel <= more,
    ensures
        resolution(processes, pid, fd, more) == resolution(processes, pid, fd, fuel),
    decreases fuel,
{
    if processes.has(pid) && processes.get(pid).files().contains_key(fd) {
        match processes.get(pid).files()[fd] {
            FileDescriptor::ForeignStream { stream_type: ForeignStreamType::Process { pid: other, file_descriptor } } => {
                if fuel > 0 {
                    lemma_resolution_more_fuel(processes, other, file_descriptor, (fuel - 1) as nat, (more - 1) as nat);
                }
            },
            _ => {},
        }
    }
}

/// Any number of steps that suffices leads where following the stream leads.
proof fn lemma_resolved(processes: Processes, pid: u32, fd: i32, fuel: nat)
    requires
        resolution(processes, pid, fd, fuel) is Some,
    ensures
        resolved(processes, pid, fd) == resolution(processes, pid, fd, fuel).unwrap(),
{
    let c = choose|f: nat| #[trigger] resolution(processes, pid, fd, f) is Some;
    if c <= fuel {
        lemma_resolution_more_fuel(processes, pid, fd, c, fuel);
    } else {
        lemma_resolution_more_fuel(processes, pid, fd, fuel, c);
    }
}

/// Follows a foreign stream to the process and file that own the stream;
/// nothing comes back when a file on the way is not open or not a stream.
pub fn resolve_foreign_stream(processes: &Processes, stream: ForeignStreamType) -> (r: Option<(u32, i32)>)
    requires
        all_wf(*processes),
        stream matches ForeignStreamType::Process { pid, file_descriptor } && resolves(*processes, pid, file_descriptor),
    ensures
        stream matches ForeignStreamType::Process { pid, file_descriptor } && r == resolved(*processes, pid, file_descriptor),
{
    let ForeignStreamType::Process { pid: start_pid, file_descriptor: start_fd } = stream;
    let ghost fuel0 = choose|f: nat| #[trigger] resolution(*processes, start_pid, start_fd, f) is Some;
    let ghost mut fuel: nat = fuel0;
    let mut pid = start_pid;
    let mut fd = start_fd;
    proof {
        lemma_resolved(*processes, start_pid, start_fd, fuel0);
    }
    loop
        invariant
            stream == (ForeignStreamType::Process { pid: start_pid, file_descriptor: start_fd }),
            all_wf(*processes),
            resolution(*processes, pid, fd, fuel) is Some,
            resolution(*processes, pid, fd, fuel).unwrap() == resolved(*processes, start_pid, start_fd),
        decreases fuel,
    {
        proof {
            crate::process::lemma_pid_index(processes.procs(), pid);
        }
        let process = processes.process(pid);
        match process.file_descriptor(fd) {
            Some(FileDescriptor::OwnedStream { .. }) => {
                return Some((pid, fd));
            },
            Some(FileDescriptor::ForeignStream { stream_type: ForeignStreamType::Process { pid: other, file_descriptor } }) => {
                proof {
                    fuel = (fuel - 1) as nat;
                }
                pid = *other;
                fd = *file_descriptor;
            },
            _ => {
                return None;
            },
        }
    }
}

/// Whether the processes at positions other than `a` and `b` stayed as they were.
pub open spec fn others_unchanged(before: Seq<Process>, after: Seq<Process>, a: int, b: int) -> bool {
    &&& after.len() == before.len()
    &&& forall|j: int| 0 <= j < before.len() && j != a && j != b ==> #[trigger] after[j] == before[j]
}

/// What reading from a file descriptor comes down to.
pub enum ReadPlan {
    /// The process has no such file open.
    InvalidFd,
    /// Read the file at `path` from `offset` on.
    File { path: String, offset: usize },
    /// Read the stream that the file `fd` of the process `owner` holds.
    Stream { owner: u32, fd: i32 },
}

/// Whether reading the file `fd` of the process `pid` is something the
/// kernel does: not the terminal, and a foreign stream only when its owner
/// exists and holds an owned stream there.
pub open spec fn readable(processes: Processes, pid: u32, fd: i32) -> bool {
    processes.get(pid).files().contains_key(fd) ==> match processes.get(pid).files()[fd] {
        FileDescriptor::Terminal => false,
        FileDescriptor::ForeignStream { stream_type: ForeignStreamType::Process { pid: owner, file_descriptor } } => {
            &&& processes.has(owner)
            &&& processes.get(owner).wf()
            &&& processes.get(owner).files().contains_key(file_descriptor)
            &&& processes.get(owner).files()[file_descriptor] is OwnedStream
        },
        _ => true,
    }
}

/// What reading the file `fd` of the process `pid` comes down to.
pub fn read_plan(processes: &Processes, pid: u32, fd: i32) -> (r: ReadPlan)
    requires
        processes.has(pid),
        processes.get(pid).wf(),
        readable(*processes, pid, fd),
    ensures
        !processes.get(pid).files().contains_key(fd) ==> r is InvalidFd,
        processes.get(pid).files().contains_key(fd) ==> match processes.get(pid).files()[fd] {
            FileDescriptor::Regular { path, offset } => r matches ReadPlan::File { path: p, offset: o } && p@
                == path@ && o == offset,
            FileDescriptor::OwnedStream { .. } => r == (ReadPlan::Stream { owner: pid, fd }),
            FileDescriptor::ForeignStream { stream_type: ForeignStreamType::Process { pid: owner, file_descriptor } } => r
                == (ReadPlan::Stream { owner, fd: file_descriptor }),
            FileDescriptor::Terminal => false,
        },
{
    let process = processes.process(pid);
    match process.file_descriptor(fd) {
        None => ReadPlan::InvalidFd,
        Some(FileDescriptor::Regular { path, offset }) => ReadPlan::File { path: path.clone(), offset: *offset },
        Some(FileDescriptor::OwnedStream { .. }) => ReadPlan::Stream { owner: pid, fd },
        Some(FileDescriptor::ForeignStream { stream_type: ForeignStreamType::Process { pid: owner, file_descriptor } }) => {
            ReadPlan::Stream { owner: *owner, fd: *file_descriptor }
        },
        Some(FileDescriptor::Terminal) => {
            proof {
                assert(false);
            }
            ReadPlan::InvalidFd
        },
    }
}

/// What reading a stream gave.
pub enum ReadOutcome {
    /// These bytes, taken from the front of the stream.
    Bytes(Vec<u8>),
    /// Nothing: the stream is empty and the read was not to wait.
    Empty,
    /// Nothing yet: the process waits for the stream.
    Waiting,
}

/// Reads up to `len` bytes for the process `pid`, through its file `fd`,
/// from the stream that the file `owner_fd` of `owner` holds.  From an
/// empty stream a read that is not to block gives nothing and the process
/// stays ready; otherwise the process waits for the stream.  From a stream
/// with bytes, the read takes as many as it can and the process is ready.
pub fn read_stream(
    processes: &mut Processes,
    pid: u32,
    fd: i32,
    owner: u32,
    owner_fd: i32,
    len: u32,
    non_blocking: bool,
) -> (r: ReadOutcome)
    requires
        old(processes).has(pid),
        old(processes).has(owner),
        old(processes).get(owner).wf(),
        old(processes).get(owner).files().contains_key(owner_fd),
        old(processes).get(owner).files()[owner_fd] is OwnedStream,
    ensures
        final(processes).current_id() == old(processes).current_id(),
        ({
            let buffer = old(processes).get(owner).files()[owner_fd].buffered();
            let n = if len < buffer.len() { len as int } else { buffer.len() as int };
            if buffer.len() == 0 {
                if non_blocking {
                    r is Empty && final(processes).procs() == with_state_of(old(processes).procs(), pid, State::Ready)
                } else {
                    r is Waiting && final(processes).procs() == with_state_of(
                        old(processes).procs(),
                        pid,
                        State::WaitingForStream(fd),
                    )
                }
            } else {
                &&& r matches ReadOutcome::Bytes(bytes) && bytes@ == buffer.take(n)
                &&& others_unchanged(
                    old(processes).procs(),
                    final(processes).procs(),
                    pid_index(old(processes).procs(), pid),
                    pid_index(old(processes).procs(), owner),
                )
                &&& final(processes).has(owner) && final(processes).has(pid)
                &&& final(processes).get(pid).spec_state() == State::Ready
                &&& same_context(final(processes).get(pid), old(processes).get(pid))
                &&& same_context(final(processes).get(owner), old(processes).get(owner))
                &&& final(processes).get(owner).wf()
                &&& final(processes).get(owner).files().dom() == old(processes).get(owner).files().dom()
                &&& forall|k: i32| k != owner_fd ==> #[trigger] final(processes).get(owner).files()[k] == old(
                    processes,
                ).get(owner).files()[k]
                &&& final(processes).get(owner).files()[owner_fd].buffered() == buffer.skip(n)
                &&& final(processes).get(owner).files()[owner_fd] matches FileDescriptor::OwnedStream {
                    max_size,
                    stream_type,
                    ..
                } && old(processes).get(owner).files()[owner_fd] matches FileDescriptor::OwnedStream {
                    max_size: m,
                    stream_type: t,
                    ..
                } && max_size == m && stream_type == t
            }
        }),
{
    let ghost before = processes.procs();
    proof {
        crate::process::lemma_pid_index(before, owner);
        crate::process::lemma_pid_index(before, pid);
    }
    let empty = match processes.process(owner).file_descriptor(owner_fd) {
        Some(FileDescriptor::OwnedStream { buffer, .. }) => buffer.len() == 0,
        _ => true,
    };
    if empty {
        let p = processes.process_mut(pid);
        if non_blocking {
            p.set_state(State::Ready);
            ReadOutcome::Empty
        } else {
            p.set_state(State::WaitingForStream(fd));
            ReadOutcome::Waiting
        }
    } else {
        let o = processes.process_mut(owner);
        let bytes = match o.file_descriptor_mut(owner_fd) {
            Some(f) => f.stream_read(len as usize),
            None => Vec::new(),
        };
        proof {
            lemma_same_position(before, owner, *final(o));
        }
        let ghost middle = processes.procs();
        proof {
            lemma_update_keeps_positions(before, pid_index(before, owner), middle[pid_index(before, owner)], pid);
        }
        let p = processes.process_mut(pid);
        let ghost q = *p;
        p.set_state(State::Ready);
        proof {
            q.lemma_with_state(State::Ready);
            lemma_same_position(middle, pid, *final(p));
            lemma_update_keeps_positions(middle, pid_index(middle, pid), *final(p), owner);
        }
        ReadOutcome::Bytes(bytes)
    }
}

/// Moves the offset of the regular file `fd` of the process `pid` past the
/// `n` bytes that a read took from it.
pub fn finish_file_read(processes: &mut Processes, pid: u32, fd: i32, n: usize)
    requires
        old(processes).has(pid),
        old(processes).get(pid).wf(),
        old(processes).get(pid).files().contains_key(fd),
        old(processes).get(pid).files()[fd] matches FileDescriptor::Regular { offset, .. } && offset + n <= usize::MAX,
    ensures
        final(processes).current_id() == old(processes).current_id(),
        others_unchanged(
            old(processes).procs(),
            final(processes).procs(),
            pid_index(old(processes).procs(), pid),
            pid_index(old(processes).procs(), pid),
        ),
        final(processes).has(pid),
        final(processes).get(pid).wf(),
        final(processes).get(pid).spec_state() == old(processes).get(pid).spec_state(),
        same_context(final(processes).get(pid), old(processes).get(pid)),
        old(processes).get(pid).files()[fd] matches FileDescriptor::Regular { path, offset } && final(processes).get(
            pid,
        ).files() == old(processes).get(pid).files().insert(fd, FileDescriptor::Regular { path, offset: (offset + n) as usize }),
{
    let p = processes.process_mut(pid);
    match p.file_descriptor_mut(fd) {
        Some(FileDescriptor::Regular { offset, .. }) => {
            *offset = *offset + n;
        },
        _ => {},
    }
    proof {
        crate::process::lemma_pid_index(old(processes).procs(), pid);
        lemma_same_position(old(processes).procs(), pid, *final(p));
    }
}

/// What writing to a file descriptor did.
#[derive(Debug, Clone, Copy, PartialEq, Eq, Structural)]
pub enum WriteOutcome {
    /// The process has no such file open.
    InvalidFd,
    /// This many of the bytes went into a stream.
    Written(usize),
    /// The bytes are for the terminal.
    Terminal,
}

/// Whether writing to the file `fd` of the process `pid` is something the
/// kernel does: not to a regular file, and through a foreign stream only
/// when following it ends at an owned stream.
pub open spec fn writable(processes: Processes, pid: u32, fd: i32) -> bool {
    processes.get(pid).files().contains_key(fd) ==> match processes.get(pid).files()[fd] {
        FileDescriptor::Regular { .. } => false,
        FileDescriptor::ForeignStream { stream_type: ForeignStreamType::Process { pid: owner, file_descriptor } } => {
            resolves(processes, owner, file_descriptor) && resolved(processes, owner, file_descriptor) is Some
        },
        _ => true,
    }
}

/// The process and file that hold the stream that writing to the file `fd`
/// of `pid` goes to.
pub open spec fn write_target(processes: Processes, pid: u32, fd: i32) -> (u32, i32) {
    match processes.get(pid).files()[fd] {
        FileDescriptor::ForeignStream { stream_type: ForeignStreamType::Process { pid: owner, file_descriptor } } => resolved(
            processes,
            owner,
            file_descriptor,
        ).unwrap(),
        _ => (pid, fd),
    }
}

/// Writes `bytes` for the process `pid` to its file `fd`.  A stream, its
/// own or one that a foreign stream leads to, takes what fits: nothing when
/// it is full, else up to its size in all.  The terminal takes them all,
/// through the caller.
pub fn write(processes: &mut Processes, pid: u32, fd: i32, bytes: &[u8]) -> (r: WriteOutcome)
    requires
        old(processes).has(pid),
        all_wf(*old(processes)),
        writable(*old(processes), pid, fd),
    ensures
        final(processes).current_id() == old(processes).current_id(),
        !old(processes).get(pid).files().contains_key(fd) ==> r is InvalidFd && final(processes).procs() == old(
            processes,
        ).procs(),
        old(processes).get(pid).files().contains_key(fd) && old(processes).get(pid).files()[fd] is Terminal ==> r
            is Terminal && final(processes).procs() == old(processes).procs(),
        old(processes).get(pid).files().contains_key(fd) && !(old(processes).get(pid).files()[fd] is Terminal) ==> {
            let (owner, ofd) = write_target(*old(processes), pid, fd);
            let before = old(processes).get(owner).files()[ofd];
            let room = if before.buffered().len() >= before->max_size {
                0
            } else {
                before->max_size - before.buffered().len()
            };
            let n = if bytes@.len() < room { bytes@.len() as int } else { room };
            &&& r == WriteOutcome::Written(n as usize)
            &&& old(processes).has(owner)
            &&& before is OwnedStream
            &&& others_unchanged(
                old(processes).procs(),
                final(processes).procs(),
                pid_index(old(processes).procs(), owner),
                pid_index(old(processes).procs(), owner),
            )
            &&& final(processes).has(owner)
            &&& final(processes).get(owner).wf()
            &&& final(processes).get(owner).spec_state() == old(processes).get(owner).spec_state()
            &&& same_context(final(processes).get(owner), old(processes).get(owner))
            &&& final(processes).get(owner).files().dom() == old(processes).get(owner).files().dom()
            &&& forall|k: i32| k != ofd ==> #[trigger] final(processes).get(owner).files()[k] == old(
                processes,
            ).get(owner).files()[k]
            &&& final(processes).get(owner).files()[ofd].buffered() == before.buffered() + bytes@.take(n)
            &&& final(processes).get(owner).files()[ofd] matches FileDescriptor::OwnedStream {
                max_size,
                stream_type,
                ..
            } && before matches FileDescriptor::OwnedStream { max_size: m, stream_type: t, .. } && max_size == m
                && stream_type == t
        },
{
    let ghost before = processes.procs();
    proof {
        crate::process::lemma_pid_index(before, pid);
    }
    let (owner, ofd) = match processes.process(pid).file_descriptor(fd) {
        None => {
            return WriteOutcome::InvalidFd;
        },
        Some(FileDescriptor::Terminal) => {
            return WriteOutcome::Terminal;
        },
        Some(FileDescriptor::ForeignStream { stream_type }) => {
            match resolve_foreign_stream(processes, *stream_type) {
                Some(target) => target,
                None => {
                    proof {
                        assert(false);
                    }
                    return WriteOutcome::InvalidFd;
                },
            }
        },
        Some(_) => (pid, fd),
    };
    proof {
        let ForeignStreamType::Process { pid: o, file_descriptor: g } = match before[pid_index(before, pid)].files()[fd] {
            FileDescriptor::ForeignStream { stream_type } => stream_type,
            _ => ForeignStreamType::Process { pid: 0, file_descriptor: 0 },
        };
        if before[pid_index(before, pid)].files()[fd] is ForeignStream {
            let fuel = choose|f: nat| #[trigger] resolution(*old(processes), o, g, f) is Some;
            lemma_resolution_owned(*old(processes), o, g, fuel);
        }
        crate::process::lemma_pid_index(before, owner);
    }
    let p = processes.process_mut(owner);
    let n = match p.file_descriptor_mut(ofd) {
        Some(f) => f.stream_write(bytes),
        None => 0,
    };
    proof {
        lemma_same_position(before, owner, *final(p));
    }
    WriteOutcome::Written(n)
}

/// Where following a stream leads within `fuel` steps, when it leads to an
/// owned stream, is an owned stream of a process that exists.
proof fn lemma_resolution_owned(processes: Processes, pid: u32, fd: i32, fuel: nat)
    requires
        resolution(processes, pid, fd, fuel) matches Some(Some(_)),
    ensures
        ({
            let (o, g) = resolution(processes, pid, fd, fuel).unwrap().unwrap();
            processes.has(o) && processes.get(o).files().contains_key(g) && processes.get(o).files()[g] is OwnedStream
        }),
    decreases fuel,
{
    match processes.get(pid).files()[fd] {
        FileDescriptor::ForeignStream { stream_type: ForeignStreamType::Process { pid: other, file_descriptor } } => {
            if fuel > 0 {
                lemma_resolution_owned(processes, other, file_descriptor, (fuel - 1) as nat);
            }
        },
        _ => {},
    }
}

/// Where the heap of a process starts.
pub const MMAP_START_ADDRESS: u64 = 0x6942_0000_0000;

/// The highest page at or above the start of the heap among `pages`.
pub open spec fn heap_top(pages: Seq<crate::process::MappedPage>) -> Option<u64>
    decreases pages.len(),
{
    if pages.len() == 0 {
        None
    } else {
        let rest = heap_top(pages.drop_last());
        let page = pages.last().page;
        if page >= MMAP_START_ADDRESS {
            match rest {
                Some(top) => if page > top { Some(page) } else { Some(top) },
                None => Some(page),
            }
        } else {
            rest
        }
    }
}

/// Where the next heap page of a process goes: the page after the highest
/// one of its heap, or the start of the heap when it has none.
pub open spec fn next_heap_page(pages: Seq<crate::process::MappedPage>) -> u64 {
    match heap_top(pages) {
        Some(top) => (top + 0x1000) as u64,
        None => MMAP_START_ADDRESS,
    }
}

/// Where the next heap page of `process` goes.
pub fn mmap_address(process: &Process) -> (r: u64)
    requires
        forall|i: int| 0 <= i < process.spec_mapped_pages().len() ==> #[trigger] process.spec_mapped_pages()[i].page
            <= u64::MAX - 0x1000,
    ensures
        r == next_heap_page(process.spec_mapped_pages()),
{
    let pages = process.mapped_pages();
    let mut top: Option<u64> = None;
    let mut i: usize = 0;
    while i < pages.len()
        invariant
            i <= pages@.len(),
            top == heap_top(pages@.take(i as int)),
            forall|j: int| 0 <= j < pages@.len() ==> #[trigger] pages@[j].page <= u64::MAX - 0x1000,
            top matches Some(t) ==> t <= u64::MAX - 0x1000,
        decreases pages@.len() - i,
    {
        let page = pages[i].page;
        proof {
            assert(pages@.take(i + 1).drop_last() =~= pages@.take(i as int));
        }
        if page >= MMAP_START_ADDRESS {
            top = match top {
                Some(t) => if page > t { Some(page) } else { Some(t) },
                None => Some(page),
            };
        }
        i = i + 1;
    }
    assert(pages@.take(i as int) =~= pages@);
    match top {
        Some(t) => t + 0x1000,
        None => MMAP_START_ADDRESS,
    }
}

/// The start of the 4 KiB page that holds `address`.
pub open spec fn page_of(address: u64) -> u64 {
    (address - address % 0x1000) as u64
}

/// After the caller tried to unmap the page at `address` from the process
/// `pid`: the process forgets the page, and when the unmapping failed it
/// ends with the exit code 2.  Gives back whether the unmapping succeeded.
pub fn munmap(processes: &mut Processes, pid: u32, address: u64, unmapped: bool) -> (ok: bool)
    requires
        old(processes).has(pid),
    ensures
        ok == unmapped,
        final(processes).current_id() == old(processes).current_id(),
        others_unchanged(
            old(processes).procs(),
            final(processes).procs(),
            pid_index(old(processes).procs(), pid),
            pid_index(old(processes).procs(), pid),
        ),
        final(processes).has(pid),
        final(processes).get(pid).spec_mapped_pages() == old(processes).get(pid).spec_mapped_pages().filter(
            |m: crate::process::MappedPage| m.page != page_of(address),
        ),
        final(processes).get(pid).spec_state() == if unmapped {
            old(processes).get(pid).spec_state()
        } else {
            State::Terminated(2)
        },
        final(processes).get(pid).files() == old(processes).get(pid).files(),
        final(processes).get(pid).wf() == old(processes).get(pid).wf(),
{
    let page = address - address % 0x1000;
    assert(page == page_of(address));
    let p = processes.process_mut(pid);
    if !unmapped {
        let ghost q = *p;
        p.set_state(State::Terminated(2));
        proof {
            q.lemma_with_state(State::Terminated(2));
        }
    }
    p.forget_page(page);
    proof {
        crate::process::lemma_pid_index(old(processes).procs(), pid);
        lemma_same_position(old(processes).procs(), pid, *final(p));
    }
    unmapped
}

/// Where the framebuffer appears in the memory of a process.
pub const FRAMEBUFFER_ADDRESS: u64 = 0x3333_4444_0000;

/// The pages that map a framebuffer of `width` by `height` pixels of four
/// bytes at the physical address `start`: the page at each 4 KiB step from
/// [`FRAMEBUFFER_ADDRESS`] on maps the frame at the same step from the
/// frame that holds `start`, until the size of the framebuffer is covered.
/// Also gives back where the first pixel appears.
pub fn map_framebuffer(width: u64, height: u64, start: u64) -> (r: (Vec<(u64, u64)>, u64))
    requires
        height * width * 4 <= u64::MAX - 0x1000,
        page_of(start) + height * width * 4 + 0x1000 <= u64::MAX,
        FRAMEBUFFER_ADDRESS + height * width * 4 + 0x1000 <= u64::MAX,
    ensures
        r.0@.len() == (height * width * 4 + 0xfff) / 0x1000,
        forall|k: int| 0 <= k < r.0@.len() ==> #[trigger] r.0@[k] == ((FRAMEBUFFER_ADDRESS + k * 0x1000) as u64, (page_of(start) + k * 0x1000) as u64),
        r.1 == FRAMEBUFFER_ADDRESS + start % 0x1000,
{
    let size = height * width * 4;
    let frame = start - start % 0x1000;
    let mut pages: Vec<(u64, u64)> = Vec::new();
    let mut mapped: u64 = 0;
    while mapped < size
        invariant
            size == height * width * 4,
            frame == page_of(start),
            size <= u64::MAX - 0x1000,
            frame + size + 0x1000 <= u64::MAX,
            FRAMEBUFFER_ADDRESS + size + 0x1000 <= u64::MAX,
            mapped % 0x1000 == 0,
            mapped <= size + 0xfff,
            mapped == pages@.len() * 0x1000,
            mapped < size ==> pages@.len() < (size + 0xfff) / 0x1000,
            mapped >= size ==> pages@.len() == (size + 0xfff) / 0x1000,
            forall|k: int| 0 <= k < pages@.len() ==> #[trigger] pages@[k] == ((FRAMEBUFFER_ADDRESS + k * 0x1000) as u64, (frame + k * 0x1000) as u64),
        decreases size + 0x1000 - mapped,
    {
        pages.push((FRAMEBUFFER_ADDRESS + mapped, frame + mapped));
        mapped = mapped + 0x1000;
        proof {
            assert(mapped == pages@.len() * 0x1000);
            assert(mapped < size ==> pages@.len() < (size + 0xfff) / 0x1000) by (nonlinear_arith)
                requires mapped == pages@.len() * 0x1000, mapped % 0x1000 == 0, size >= 0;
            assert(mapped >= size ==> pages@.len() == (size + 0xfff) / 0x1000) by (nonlinear_arith)
                requires mapped == pages@.len() * 0x1000, mapped - 0x1000 < size;
        }
    }
    (pages, FRAMEBUFFER_ADDRESS + start % 0x1000)
}

/// Adds a copy of the process `pid` under the next id of `pids`, after all
/// others, and gives back that id.  The copy of the address space is the
/// caller's.
pub fn fork(processes: &mut Processes, pids: &mut PidFactory, pid: u32) -> (child: u32)
    requires
        old(processes).has(pid),
        old(processes).get(pid).wf(),
    ensures
        child == old(pids).upcoming(),
        final(pids).upcoming() == if child == u32::MAX { 0 } else { (child + 1) as u32 },
        final(processes).current_id() == old(processes).current_id(),
        final(processes).procs().drop_last() == old(processes).procs(),
        final(processes).procs().len() == old(processes).procs().len() + 1,
        ({
            let parent = old(processes).get(pid);
            let c = final(processes).procs().last();
            &&& c.spec_pid() == child
            &&& c.spec_state() == parent.spec_state()
            &&& c.spec_flags() == parent.spec_flags()
            &&& c.spec_rip() == parent.spec_rip()
            &&& c.spec_registers() == parent.spec_registers()
            &&& c.spec_mapped_pages() == parent.spec_mapped_pages()
            &&& c.wf()
            &&& c.file_numbers() == parent.file_numbers()
            &&& c.files().dom() == parent.files().dom()
            &&& forall|k: i32| #[trigger] c.files().contains_key(k) ==> c.files()[k].same_as(parent.files()[k])
        }),
{
    let copy = processes.process(pid).fork(pids);
    let child = copy.pid();
    processes.add_process(copy);
    proof {
        assert(processes.procs().drop_last() =~= old(processes).procs());
    }
    child
}

/// The program at `path` for `execve`: the contents of a regular file
/// there; nothing when there is no file or it is not regular.
pub fn execve<'a, H: Hooks>(fs: &'a mut Directory<H>, path: &str) -> (r: Option<&'a Vec<u8>>)
    ensures
        old(fs).view().regular_file_walk(path_components(path.spec_bytes())) ==> final(fs).view() == old(fs).view()
            && match old(fs).view().lookup_file(path_components(path.spec_bytes())) {
            Some(File::Regular { contents }) => r == Some(&contents),
            _ => r is None,
        },
{
    match fs.file(path) {
        Some(File::Regular { contents }) => Some(contents),
        _ => None,
    }
}

} // verus!
