use soos::io::{Cursor, Write, WriterError};
use soos::process::{OwnedStreamType, StreamType};
use soos::simple_vfs::{Directory as SimpleDirectory, File as SimpleFile, FileHandlers, TreeLine};
use soos::vfs::{init_fs, insert_missing, split_path, Directory, File, Hooks};

#[derive(Clone, Copy)]
struct Greeting;

impl Hooks for Greeting {
    fn read<W: Write>(&self, _file: &File<Self>, _offset: usize, writer: &mut W) -> Result<usize, WriterError> {
        writer.write(b"hello")
    }

    fn update(&self, files: &mut Vec<(Vec<u8>, File<Self>)>, _directories: &mut Vec<(Vec<u8>, Directory<Self>)>) {
        if files.is_empty() {
            files.push((b"1".to_vec(), File::regular(b"pid: 1\n".to_vec())));
        }
    }
}

fn read_all(file: &File<Greeting>, offset: usize, len: usize) -> (Result<usize, WriterError>, Vec<u8>) {
    let (r, cursor) = file.read(offset, Cursor::new(vec![0; len]));
    let n = cursor.position();
    let mut bytes = cursor.into_inner();
    bytes.truncate(n);
    (r, bytes)
}

#[test]
fn create_file_then_read_it_back() {
    let mut fs: Directory<Greeting> = Directory::new(&["bin", "home"]);
    fs.create_file("/home/test", File::regular(b"Hello World!".to_vec()));
    let file = fs.file("/home/test").expect("file exists");
    let (r, bytes) = read_all(file, 0, 64);
    assert_eq!(r, Ok(12));
    assert_eq!(bytes, b"Hello World!".to_vec());
}

#[test]
fn special_file_reads_skip_the_offset() {
    let file = File::special(Greeting);
    let (r, bytes) = read_all(&file, 2, 64);
    assert_eq!(r, Ok(3));
    assert_eq!(bytes, b"llo".to_vec());
    let (r, bytes) = read_all(&file, 9, 64);
    assert_eq!(r, Ok(0));
    assert!(bytes.is_empty());
}

#[test]
fn regular_file_reads_from_the_offset_what_fits() {
    let file: File<Greeting> = File::regular(b"0123456789".to_vec());
    let (r, bytes) = read_all(&file, 4, 3);
    assert_eq!(r, Ok(3));
    assert_eq!(bytes, b"456".to_vec());
    let (r, bytes) = read_all(&file, 10, 3);
    assert_eq!(r, Ok(0));
    assert!(bytes.is_empty());
}

#[test]
fn paths_split_at_slashes() {
    assert_eq!(split_path(b"/a//bc/"), vec![b"a".to_vec(), b"bc".to_vec()]);
    assert!(split_path(b"/").is_empty());
    assert_eq!(split_path(b"x"), vec![b"x".to_vec()]);
}

#[test]
fn directories_keep_their_entries_in_name_order() {
    let mut fs: Directory<Greeting> = Directory::new(&["usr", "bin", "home"]);
    let names: Vec<Vec<u8>> = fs.directories().iter().map(|(n, _)| n.clone()).collect();
    assert_eq!(names, vec![b"bin".to_vec(), b"home".to_vec(), b"usr".to_vec()]);
    fs.create_file("/home/b", File::regular(b"2".to_vec()));
    fs.create_file("/home/a", File::regular(b"1".to_vec()));
    let home = fs.directory_mut("/home").expect("home exists");
    let names: Vec<Vec<u8>> = home.files().iter().map(|(n, _)| n.clone()).collect();
    assert_eq!(names, vec![b"a".to_vec(), b"b".to_vec()]);
}

#[test]
fn creating_a_file_again_keeps_the_first() {
    let mut fs: Directory<Greeting> = Directory::new(&[]);
    fs.create_file("/etc/motd", File::regular(b"old".to_vec()));
    fs.create_file("/etc/motd", File::regular(b"new".to_vec()));
    let (_, bytes) = read_all(fs.file("/etc/motd").unwrap(), 0, 16);
    assert_eq!(bytes, b"old".to_vec());
    assert!(fs.file("/etc").is_none());
    assert!(fs.directory("/etc/motd").is_none());
    assert!(fs.directory("/etc").is_some());
}

#[test]
fn replacing_a_file_through_file_mut_changes_only_that_file() {
    let mut fs: Directory<Greeting> = Directory::new(&["etc"]);
    fs.create_file("/etc/a", File::regular(b"one".to_vec()));
    fs.create_file("/etc/b", File::regular(b"two".to_vec()));
    fs.create_file("/c", File::regular(b"three".to_vec()));
    *fs.file_mut("/etc/a").expect("file exists") = File::regular(b"four".to_vec());
    assert_eq!(read_all(fs.file("/etc/a").unwrap(), 0, 8).1, b"four".to_vec());
    assert_eq!(read_all(fs.file("/etc/b").unwrap(), 0, 8).1, b"two".to_vec());
    assert_eq!(read_all(fs.file("/c").unwrap(), 0, 8).1, b"three".to_vec());
    assert!(fs.directory("/etc").is_some());
    assert!(fs.file_mut("/etc/d").is_none());
}

#[test]
fn create_directories_is_idempotent() {
    let mut fs: Directory<Greeting> = Directory::new(&[]);
    fs.create_directories(&["a", "b", "c"]);
    fs.create_file("/a/b/c/f", File::regular(b"x".to_vec()));
    fs.create_directories(&["a", "b", "c"]);
    assert!(fs.file("/a/b/c/f").is_some());
    assert!(fs.directory("/a/b").is_some());
    assert_eq!(fs.directory_mut("/a").unwrap().directories().len(), 1);
}

#[test]
fn special_directories_fill_themselves_when_looked_at() {
    let mut fs: Directory<Greeting> = Directory::new(&[]);
    fs.create_special_directory("/proc", Greeting);
    let proc_dir = fs.directory_mut("/proc").expect("proc exists");
    let names: Vec<Vec<u8>> = proc_dir.files().iter().map(|(n, _)| n.clone()).collect();
    assert_eq!(names, vec![b"1".to_vec()]);
    let (r, bytes) = read_all(fs.file("/proc/1").expect("the hook made the file"), 0, 64);
    assert_eq!(r, Ok(7));
    assert_eq!(bytes, b"pid: 1\n".to_vec());
}

#[test]
fn stream_files_are_found_by_path() {
    let mut fs: Directory<Greeting> = Directory::new(&["dev"]);
    fs.create_file("/dev/mouse", File::stream(StreamType::Owned(OwnedStreamType::Mouse)));
    assert!(matches!(
        fs.file("/dev/mouse"),
        Some(File::Stream { stream_type: StreamType::Owned(OwnedStreamType::Mouse) })
    ));
}

#[derive(Clone, Copy)]
struct Echo;

impl FileHandlers for Echo {
    fn read<W: Write>(&self, _file: &SimpleFile<Self>, offset: usize, writer: &mut W) -> Result<usize, WriterError> {
        let bytes = b"echo";
        writer.write(&bytes[offset.min(4)..])
    }

    fn write(&self, _file: &SimpleFile<Self>, _offset: usize, bytes: &[u8]) -> usize {
        bytes.len()
    }
}

#[test]
fn simple_file_system_lookups_and_listing() {
    let mut fs: SimpleDirectory<Echo> = SimpleDirectory::new(&["bin"]);
    fs.create_file("/bin/sh", SimpleFile::regular(b"#!".to_vec()));
    fs.create_file("/dev/echo", SimpleFile::special(Echo));
    assert!(fs.file("/bin/sh").is_some());
    assert!(fs.file("/bin/none").is_none());
    assert!(fs.directory("/dev").is_some());
    let (r, cursor) = fs.file("/dev/echo").unwrap().read(1, Cursor::new(vec![0; 8]));
    assert_eq!(r, Ok(3));
    assert_eq!(&cursor.into_inner()[..3], b"cho");
    let lines: Vec<String> = fs
        .print()
        .iter()
        .map(|line| match line {
            TreeLine::File { indent, name } => format!("{}f {}", indent, String::from_utf8_lossy(name)),
            TreeLine::ContentLength { indent, length } => format!("{}l {}", indent, length),
            TreeLine::SpecialFile { indent } => format!("{}s", indent),
            TreeLine::Directory { indent, name } => format!("{}d {}", indent, String::from_utf8_lossy(name)),
        })
        .collect();
    assert_eq!(lines, vec!["0d bin", "2f sh", "4l 2", "0d dev", "2f echo", "4s"]);
}

#[test]
fn insert_missing_keeps_names_in_order_and_the_first_entry() {
    let mut entries: Vec<(Vec<u8>, u32)> = Vec::new();
    insert_missing(&mut entries, b"12".to_vec(), 12);
    insert_missing(&mut entries, b"1".to_vec(), 1);
    insert_missing(&mut entries, b"3".to_vec(), 3);
    insert_missing(&mut entries, b"12".to_vec(), 99);
    insert_missing(&mut entries, b"2".to_vec(), 2);
    assert_eq!(
        entries,
        vec![(b"1".to_vec(), 1), (b"12".to_vec(), 12), (b"2".to_vec(), 2), (b"3".to_vec(), 3)]
    );
}

#[test]
fn init_fs_fills_a_new_tree() {
    let mut fs: Directory<Greeting> = Directory::new(&["home", "bin"]);
    init_fs(&mut fs, b"\x7fELF sosh".to_vec(), b"\x7fELF cat".to_vec(), Greeting, Greeting, Greeting, Greeting);
    assert_eq!(read_all(fs.file("/home/test").unwrap(), 0, 64).1, b"Hello World!".to_vec());
    assert_eq!(read_all(fs.file("/bin/sosh").unwrap(), 0, 64).1, b"\x7fELF sosh".to_vec());
    assert_eq!(read_all(fs.file("/bin/cat").unwrap(), 0, 64).1, b"\x7fELF cat".to_vec());
    assert_eq!(read_all(fs.file("/var/log").unwrap(), 0, 64).1, b"hello".to_vec());
    assert_eq!(read_all(fs.file("/sys/pci/devices").unwrap(), 0, 64).1, b"hello".to_vec());
    assert_eq!(read_all(fs.file("/sys/memory").unwrap(), 0, 64).1, b"hello".to_vec());
    assert!(matches!(fs.file("/dev/mouse"), Some(File::Stream { stream_type: StreamType::Owned(OwnedStreamType::Mouse) })));
    assert!(matches!(fs.file("/dev/keyboard"), Some(File::Stream { stream_type: StreamType::Owned(OwnedStreamType::Keyboard) })));
    assert!(matches!(fs.directory("/proc"), Some(Directory::Special { .. })));
    // a file that is there already keeps its place
    let mut fs: Directory<Greeting> = Directory::new(&["home"]);
    fs.create_file("/home/test", File::regular(b"mine".to_vec()));
    init_fs(&mut fs, Vec::new(), Vec::new(), Greeting, Greeting, Greeting, Greeting);
    assert_eq!(read_all(fs.file("/home/test").unwrap(), 0, 64).1, b"mine".to_vec());
}
