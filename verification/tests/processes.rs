use soos::io::{Write, WriterError};
use soos::process::{
    memory_regions, FileDescriptor, ForeignStreamType, GPRegisters, MappedPage, OwnedStreamType, PidFactory, Process,
    Processes, State, StreamType, STREAM_BUFFER_SIZE,
};
use soos::syscall::{
    close, exit, execve, fork, handle_syscall, list_directory, map_framebuffer, mmap_address, munmap, names_that_fit, open, read_plan,
    read_stream, resolve_foreign_stream, sleep, waitpid, EntryType, ListDirError, ReadOutcome, ReadPlan, Syscall,
    WriteOutcome, FRAMEBUFFER_ADDRESS, MMAP_START_ADDRESS,
};
use soos::timer::{AccessMode, BCDMode, Channel, OperatingMode, Timer};
use soos::vfs::{Directory, File, Hooks};

#[derive(Clone, Copy)]
struct NoHooks;

impl Hooks for NoHooks {
    fn read<W: Write>(&self, _file: &File<Self>, _offset: usize, _writer: &mut W) -> Result<usize, WriterError> {
        Ok(0)
    }

    fn update(&self, _files: &mut Vec<(Vec<u8>, File<Self>)>, _directories: &mut Vec<(Vec<u8>, Directory<Self>)>) {}
}

fn user(pids: &mut PidFactory) -> Process {
    Process::user(pids, 0x202, 0x40_0000, 0x7000, vec![])
}

#[test]
fn pid_factory_counts_from_one() {
    let mut pids = PidFactory::new();
    assert_eq!(pids.next_pid(), 1);
    assert_eq!(pids.next_pid(), 2);
    assert_eq!(pids.next_pid(), 3);
}

#[test]
fn new_user_process() {
    let mut pids = PidFactory::new();
    let p = user(&mut pids);
    // the first id is announced, the second one kept
    assert_eq!(p.pid(), 2);
    assert_eq!(pids.next_pid(), 3);
    assert_eq!(p.state(), State::Ready);
    assert_eq!(p.registers(), GPRegisters { rsp: 0x7000, ..GPRegisters::zeroed() });
    assert_eq!(p.rip, 0x40_0000);
    assert_eq!(p.flags, 0x202);
    assert_eq!(p.file_descriptors(), vec![0, 1]);
    assert!(matches!(
        p.file_descriptor(0),
        Some(FileDescriptor::OwnedStream { max_size: STREAM_BUFFER_SIZE, stream_type: OwnedStreamType::Stdin, .. })
    ));
    assert!(matches!(
        p.file_descriptor(1),
        Some(FileDescriptor::OwnedStream { stream_type: OwnedStreamType::Stdout, .. })
    ));
    assert!(p.file_descriptor(2).is_none());
}

#[test]
fn file_descriptor_numbers() {
    let mut pids = PidFactory::new();
    let mut p = user(&mut pids);
    assert_eq!(p.new_file_descriptor(FileDescriptor::Terminal), 2);
    assert!(matches!(p.close_file_descriptor(1), Some(FileDescriptor::OwnedStream { .. })));
    assert!(p.close_file_descriptor(1).is_none());
    assert_eq!(p.file_descriptors(), vec![0, 2]);
    assert_eq!(p.new_file_descriptor(FileDescriptor::Terminal), 3);
    p.redirect_keyboard_to_stdin();
    assert!(matches!(
        p.file_descriptor(0),
        Some(FileDescriptor::OwnedStream { stream_type: OwnedStreamType::Keyboard, .. })
    ));
    p.close_file_descriptor(0);
    p.close_file_descriptor(2);
    p.close_file_descriptor(3);
    assert!(p.file_descriptors().is_empty());
    assert_eq!(p.new_file_descriptor(FileDescriptor::Terminal), 0);
}

#[test]
fn streams_take_what_fits_and_give_in_order() {
    let mut fd = FileDescriptor::owned_stream(OwnedStreamType::Stdin);
    assert_eq!(fd.stream_write(b"hello"), 5);
    assert_eq!(fd.stream_read(2), b"he".to_vec());
    assert_eq!(fd.stream_read(10), b"llo".to_vec());
    assert_eq!(fd.stream_read(10), Vec::<u8>::new());
    let big = vec![7u8; STREAM_BUFFER_SIZE + 10];
    assert_eq!(fd.stream_write(&big), STREAM_BUFFER_SIZE);
    assert_eq!(fd.stream_write(b"x"), 0);
    let mut terminal = FileDescriptor::Terminal;
    assert_eq!(terminal.stream_write(b"x"), 0);
    assert!(terminal.stream_read(1).is_empty());
}

#[test]
fn delivery_goes_to_streams_of_the_kind_with_room() {
    let mut pids = PidFactory::new();
    let mut p = user(&mut pids);
    p.redirect_keyboard_to_stdin();
    p.deliver(OwnedStreamType::Keyboard, b"ab");
    p.deliver(OwnedStreamType::Mouse, b"zz");
    let stdin = p.file_descriptor_mut(0).unwrap();
    assert_eq!(stdin.stream_read(10), b"ab".to_vec());
    let stdout = p.file_descriptor_mut(1).unwrap();
    assert!(stdout.stream_read(10).is_empty());
}

#[test]
fn duplicate_and_fork_copy_the_files() {
    let mut pids = PidFactory::new();
    let mut parent = user(&mut pids);
    parent.file_descriptor_mut(0).unwrap().stream_write(b"q");
    parent.set_state(State::Sleeping(9));
    let mut child = parent.fork(&mut pids);
    assert_eq!(child.pid(), 3);
    assert_eq!(child.state(), State::Sleeping(9));
    assert_eq!(child.file_descriptors(), vec![0, 1]);
    assert_eq!(child.file_descriptor_mut(0).unwrap().stream_read(5), b"q".to_vec());
    // the parent keeps its own copy
    assert_eq!(parent.file_descriptor_mut(0).unwrap().stream_read(5), b"q".to_vec());
    let regular = FileDescriptor::Regular { path: "/a".to_string(), offset: 3 };
    assert!(matches!(regular.duplicate(), FileDescriptor::Regular { ref path, offset: 3 } if path == "/a"));
}

#[test]
fn mapped_pages_and_regions() {
    let page = |name: &'static str, page: u64, flags: u64| MappedPage { name, page, flags };
    let pages = [page("elf", 0x1000, 5), page("elf", 0x2000, 5), page("elf", 0x3000, 7), page("stack", 0x4000, 7), page("stack", 0x6000, 7)];
    let regions = memory_regions(&pages);
    let summary: Vec<(&str, u64, u64)> = regions.iter().map(|(m, size)| (m.name, m.page, *size)).collect();
    assert_eq!(summary, vec![("elf", 0x1000, 0x2000), ("elf", 0x3000, 0x1000), ("stack", 0x4000, 0x1000), ("stack", 0x6000, 0x1000)]);
    let mut pids = PidFactory::new();
    let mut p = Process::user(&mut pids, 0, 0, 0, pages.to_vec());
    p.forget_page(0x2000);
    let left: Vec<u64> = p.mapped_pages().iter().map(|m| m.page).collect();
    assert_eq!(left, vec![0x1000, 0x3000, 0x4000, 0x6000]);
}

fn two_processes() -> (Processes, PidFactory, u32, u32) {
    let mut pids = PidFactory::new();
    let mut processes = Processes::new();
    let a = user(&mut pids);
    let b = user(&mut pids);
    let (pa, pb) = (a.pid(), b.pid());
    processes.add_process(a);
    processes.add_process(b);
    (processes, pids, pa, pb)
}

#[test]
fn scheduler_rotates_past_the_picked_process() {
    let (mut processes, _, a, b) = two_processes();
    assert_eq!((a, b), (2, 4));
    processes.process_mut(a).set_state(State::Sleeping(10));
    assert_eq!(processes.pick_ready(), Some(b));
    let order: Vec<u32> = processes.processes().iter().map(|p| p.pid()).collect();
    assert_eq!(order, vec![a, b]);
    assert!(!processes.update_state(a, 9));
    assert_eq!(processes.process(a).state(), State::Sleeping(10));
    assert!(!processes.update_state(a, 10));
    assert_eq!(processes.process(a).state(), State::Ready);
    assert_eq!(processes.pick_ready(), Some(a));
    let order: Vec<u32> = processes.processes().iter().map(|p| p.pid()).collect();
    assert_eq!(order, vec![b, a]);
}

#[test]
fn scheduler_with_nothing_ready() {
    let (mut processes, _, a, b) = two_processes();
    processes.process_mut(a).set_state(State::Terminated(0));
    processes.process_mut(b).set_state(State::Sleeping(5));
    assert_eq!(processes.pick_ready(), None);
    let removed = processes.remove_terminated();
    assert_eq!(removed.len(), 1);
    assert_eq!(removed[0].pid(), a);
    assert_eq!(processes.processes().len(), 1);
    assert_eq!(processes.processes()[0].pid(), b);
}

#[test]
fn current_process_state_is_stored() {
    let (mut processes, _, a, _) = two_processes();
    assert!(processes.current().is_none());
    processes.set_current(a);
    assert_eq!(processes.current().unwrap().pid(), a);
    let regs = GPRegisters { rax: 1, rbx: 2, ..GPRegisters::zeroed() };
    assert_eq!(processes.store_state(regs, 0x246, 0x40_1000, 0x6FF0), Some(a));
    let p = processes.process(a);
    assert_eq!(p.registers(), GPRegisters { rsp: 0x6FF0, ..regs });
    assert_eq!((p.flags, p.rip), (0x246, 0x40_1000));
    assert!(processes.current().is_none());
    assert_eq!(processes.store_state(regs, 0, 0, 0), None);
    processes.set_current(a);
    assert!(processes.terminate_current(3));
    assert_eq!(processes.process(a).state(), State::Terminated(3));
    processes.set_current(99);
    assert!(!processes.terminate_current(3));
}

#[test]
fn waiting_for_a_stream_retries_when_bytes_arrive() {
    let (mut processes, _, a, _) = two_processes();
    processes.process_mut(a).redirect_keyboard_to_stdin();
    processes.process_mut(a).set_state(State::WaitingForStream(0));
    assert!(!processes.update_state(a, 0));
    assert_eq!(processes.process(a).state(), State::WaitingForStream(0));
    processes.deliver(OwnedStreamType::Keyboard, b"k");
    // the read is to be retried; the retried read makes the process ready
    assert!(processes.update_state(a, 0));
    assert_eq!(processes.process(a).state(), State::WaitingForStream(0));
}

#[test]
fn syscall_numbers() {
    let (mut processes, _, a, _) = two_processes();
    let expected = [
        Syscall::Print, Syscall::Sleep, Syscall::Exit, Syscall::ListDirectory, Syscall::Read, Syscall::Fork,
        Syscall::Open, Syscall::Close, Syscall::Mmap, Syscall::Munmap, Syscall::Execve, Syscall::MapFramebuffer,
        Syscall::Write, Syscall::Waitpid,
    ];
    for (n, call) in expected.iter().enumerate() {
        processes.process_mut(a).registers.rax = n as u64;
        assert_eq!(handle_syscall(&processes, a), *call);
    }
}

#[test]
fn sleep_waitpid_and_exit() {
    let (mut processes, _, a, b) = two_processes();
    let mut timer = Timer::unprogrammed(Channel::CH0);
    timer.init(10, Channel::CH0, AccessMode::LoHiByte, OperatingMode::RateGenerator, BCDMode::Binary);
    for _ in 0..5 {
        timer.tick();
    }
    sleep(&mut processes, a, &timer, 1000);
    assert_eq!(processes.process(a).state(), State::Sleeping(15));
    sleep(&mut processes, a, &timer, 250);
    assert_eq!(processes.process(a).state(), State::Sleeping(7));
    waitpid(&mut processes, a, b, 0x8000);
    assert_eq!(processes.process(a).state(), State::WaitingForChild { pid: b, arg: 0x8000 });
    let woken = exit(&mut processes, b, 7);
    assert_eq!(woken, vec![(a, 0x8000)]);
    assert_eq!(processes.process(a).state(), State::Ready);
    assert_eq!(processes.process(b).state(), State::Terminated(7));
    assert!(exit(&mut processes, a, 0).is_empty());
}

#[test]
fn close_reports_whether_the_file_was_open() {
    let (mut processes, _, a, _) = two_processes();
    assert!(close(&mut processes, a, 1));
    assert!(!close(&mut processes, a, 1));
    assert_eq!(processes.process(a).file_descriptors(), vec![0]);
}

fn file_system() -> Directory<NoHooks> {
    let mut fs: Directory<NoHooks> = Directory::new(&["bin", "dev"]);
    fs.create_file("/bin/init", File::regular(vec![0x7F, b'E', b'L', b'F']));
    fs.create_file("/dev/keyboard", File::stream(StreamType::Owned(OwnedStreamType::Keyboard)));
    fs
}

#[test]
fn open_gives_the_next_number() {
    let (mut processes, _, a, _) = two_processes();
    let mut fs = file_system();
    assert_eq!(open(&mut processes, &mut fs, a, "/bin/init"), Some(2));
    assert_eq!(open(&mut processes, &mut fs, a, "/dev/keyboard"), Some(3));
    assert_eq!(open(&mut processes, &mut fs, a, "/bin/missing"), None);
    let p = processes.process(a);
    assert!(matches!(p.file_descriptor(2), Some(FileDescriptor::Regular { path, offset: 0 }) if path == "/bin/init"));
    assert!(matches!(
        p.file_descriptor(3),
        Some(FileDescriptor::OwnedStream { stream_type: OwnedStreamType::Keyboard, .. })
    ));
    assert!(matches!(read_plan(&processes, a, 2), ReadPlan::File { path, offset: 0 } if path == "/bin/init"));
    assert!(matches!(read_plan(&processes, a, 3), ReadPlan::Stream { owner, fd: 3 } if owner == a));
    assert!(matches!(read_plan(&processes, a, 9), ReadPlan::InvalidFd));
}

#[test]
fn directory_listing() {
    let mut fs = file_system();
    let listing = list_directory(&mut fs, "/", 8).unwrap();
    assert_eq!(listing, vec![(b"bin".to_vec(), EntryType::Directory), (b"dev".to_vec(), EntryType::Directory)]);
    let listing = list_directory(&mut fs, "/bin", 8).unwrap();
    assert_eq!(listing, vec![(b"init".to_vec(), EntryType::File)]);
    assert_eq!(list_directory(&mut fs, "/nope", 8), Err(ListDirError::NotFound));
    assert_eq!(list_directory(&mut fs, "/", 1), Err(ListDirError::BufferTooSmall));
}

#[test]
fn reading_and_writing_streams() {
    let (mut processes, _, a, b) = two_processes();
    // b writes to its own standard output, which a reads through a foreign stream
    assert_eq!(soos::syscall::write(&mut processes, b, 1, b"hi!"), WriteOutcome::Written(3));
    let n = processes
        .process_mut(a)
        .new_file_descriptor(FileDescriptor::ForeignStream { stream_type: ForeignStreamType::Process { pid: b, file_descriptor: 1 } });
    assert_eq!(n, 2);
    assert_eq!(resolve_foreign_stream(&processes, ForeignStreamType::Process { pid: a, file_descriptor: 2 }), Some((b, 1)));
    assert!(matches!(read_plan(&processes, a, 2), ReadPlan::Stream { owner, fd: 1 } if owner == b));
    match read_stream(&mut processes, a, 2, b, 1, 2, false) {
        ReadOutcome::Bytes(bytes) => assert_eq!(bytes, b"hi".to_vec()),
        _ => panic!("bytes are waiting"),
    }
    match read_stream(&mut processes, a, 2, b, 1, 8, false) {
        ReadOutcome::Bytes(bytes) => assert_eq!(bytes, b"!".to_vec()),
        _ => panic!("bytes are waiting"),
    }
    assert!(matches!(read_stream(&mut processes, a, 2, b, 1, 8, true), ReadOutcome::Empty));
    assert_eq!(processes.process(a).state(), State::Ready);
    assert!(matches!(read_stream(&mut processes, a, 2, b, 1, 8, false), ReadOutcome::Waiting));
    assert_eq!(processes.process(a).state(), State::WaitingForStream(2));
    // writing through the foreign stream lands in b's standard output
    assert_eq!(soos::syscall::write(&mut processes, a, 2, b"yo"), WriteOutcome::Written(2));
    assert_eq!(soos::syscall::write(&mut processes, a, 9, b"yo"), WriteOutcome::InvalidFd);
    processes.process_mut(a).redirect_stdout_to_term();
    assert_eq!(soos::syscall::write(&mut processes, a, 1, b"yo"), WriteOutcome::Terminal);
}

#[test]
fn heap_pages_and_unmapping() {
    let (mut processes, _, a, _) = two_processes();
    assert_eq!(mmap_address(processes.process(a)), MMAP_START_ADDRESS);
    let heap = MappedPage { name: "mmap", page: MMAP_START_ADDRESS + 0x3000, flags: 7 };
    processes.process_mut(a).mapped_pages.push(heap);
    processes.process_mut(a).mapped_pages.push(MappedPage { name: "mmap", page: MMAP_START_ADDRESS, flags: 7 });
    assert_eq!(mmap_address(processes.process(a)), MMAP_START_ADDRESS + 0x4000);
    assert!(munmap(&mut processes, a, MMAP_START_ADDRESS + 0x3123, true));
    assert_eq!(mmap_address(processes.process(a)), MMAP_START_ADDRESS + 0x1000);
    assert_eq!(processes.process(a).state(), State::Ready);
    assert!(!munmap(&mut processes, a, MMAP_START_ADDRESS, false));
    assert_eq!(processes.process(a).state(), State::Terminated(2));
}

#[test]
fn framebuffer_mapping() {
    let (pages, first_pixel) = map_framebuffer(2, 1024, 0xFD00_0010);
    // 2 * 1024 * 4 bytes: two pages
    assert_eq!(pages, vec![(FRAMEBUFFER_ADDRESS, 0xFD00_0000), (FRAMEBUFFER_ADDRESS + 0x1000, 0xFD00_1000)]);
    assert_eq!(first_pixel, FRAMEBUFFER_ADDRESS + 0x10);
    let (pages, _) = map_framebuffer(1, 1, 0);
    assert_eq!(pages.len(), 1);
}

#[test]
fn fork_and_execve() {
    let (mut processes, mut pids, a, _) = two_processes();
    let child = fork(&mut processes, &mut pids, a);
    assert_eq!(child, 5);
    assert_eq!(processes.processes().last().unwrap().pid(), 5);
    let mut fs = file_system();
    assert_eq!(execve(&mut fs, "/bin/init"), Some(&vec![0x7F, b'E', b'L', b'F']));
    assert_eq!(execve(&mut fs, "/dev/keyboard"), None);
    assert_eq!(execve(&mut fs, "/bin/none"), None);
}

#[test]
fn names_that_fit_stop_at_the_first_long_name() {
    let entries = vec![
        (b"bin".to_vec(), EntryType::Directory),
        (b"config".to_vec(), EntryType::File),
        (b"x".to_vec(), EntryType::File),
    ];
    assert_eq!(names_that_fit(&entries, &[3, 6, 1]), 3);
    assert_eq!(names_that_fit(&entries, &[8, 5, 8]), 1);
    assert_eq!(names_that_fit(&entries, &[2, 8, 8]), 0);
    assert_eq!(names_that_fit(&Vec::new(), &[]), 0);
}
