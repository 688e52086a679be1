//! A file system without special directories: regular files and special
//! files under directories whose entries change only through this module.
//! Lookups need no mutable access here.

use vstd::prelude::*;

use vstd::string::StringSliceAdditionalSpecFns;

use crate::io::{slice_skip, Write, WriterError};
use crate::vfs::{
    bytes_to_vec, empty_dir, entry_names, find, index_of, insert_entry, insert_pos, insert_position,
    lemma_name_index, lemma_name_index_insert, lemma_with_dir_found, lemma_with_file_found, name_index,
    names, path_components, split_path, str_names, vec_entry_names, TreeView,
};

verus! {

/// What the special files of this file system do when they are read and written.
pub trait FileHandlers: Sized {
    /// Whether reading the special file `file` from `offset` on into the
    /// writer `before` may leave the writer as `after` and give back `r`;
    /// an implementation that says nothing of it allows any outcome.
    closed spec fn reads<W: Write>(&self, file: File<Self>, offset: usize, before: W, after: W, r: Result<usize, WriterError>) -> bool {
        true
    }

    /// Writes the contents of the special file `file`, from `offset` on, to `writer`.
    fn read<W: Write>(&self, file: &File<Self>, offset: usize, writer: &mut W) -> (r: Result<usize, WriterError>)
        ensures
            self.reads(*file, offset, *old(writer), *final(writer), r),
    ;

    /// Writes `bytes` at `offset` to the special file `file`; gives back how many it took.
    fn write(&self, file: &File<Self>, offset: usize, bytes: &[u8]) -> usize;
}

/// A file.
pub enum File<R> {
    /// A file with fixed contents.
    Regular { contents: Vec<u8> },
    /// A file whose handlers compute what reading gives and take what is written.
    Special { handlers: R },
}

impl<R: FileHandlers> File<R> {
    /// A regular file with `contents`.
    pub fn regular(contents: Vec<u8>) -> (r: Self)
        ensures
            r matches File::Regular { contents: c } && c@ == contents@,
    {
        File::Regular { contents }
    }

    /// A special file with `handlers`.
    pub fn special(handlers: R) -> (r: Self)
        ensures
            r == (File::Special { handlers }),
    {
        File::Special { handlers }
    }

    /// Writes the contents of the file from `offset` on to `writer`, and
    /// gives back what the write gave back and the writer.  A regular file
    /// writes its contents after the first `offset` bytes in one write; a
    /// special file hands the offset and the writer to its read handler.
    pub fn read<W: Write>(&self, offset: usize, writer: W) -> (r: (Result<usize, WriterError>, W))
        requires
            self matches File::Regular { contents } ==> offset <= contents@.len(),
        ensures
            self matches File::Regular { contents } ==> W::writes(writer, contents@.skip(offset as int), r.1, r.0),
            self is Special ==> self->handlers.reads(*self, offset, writer, r.1, r.0),
    {
        match self {
            File::Regular { contents } => {
                let rest = slice_skip(contents.as_slice(), offset);
                let mut writer = writer;
                let result = writer.write(rest.as_slice());
                (result, writer)
            },
            File::Special { handlers } => {
                let ghost before = writer;
                let mut writer = writer;
                let result = handlers.read(self, offset, &mut writer);
                assert(*handlers == self->handlers);
                assert(handlers.reads(*self, offset, before, writer, result));
                (result, writer)
            },
        }
    }
}

/// A directory: its files and subdirectories, each named, in the order of names.
pub struct Directory<R> {
    pub files: Vec<(Vec<u8>, File<R>)>,
    pub directories: Vec<(Vec<u8>, Directory<R>)>,
}

/// A directory of this file system as a value.
pub type TreeOf<R> = TreeView<(), File<R>>;

impl<R> Directory<R> {
    /// The directory as a value.
    pub open spec fn view(&self) -> TreeOf<R>
        decreases self,
    {
        TreeView {
            hook: None,
            files: self.files@.map_values(|e: (Vec<u8>, File<R>)| (e.0@, e.1)),
            dirs: Seq::new(self.directories@.len(), |i: int| if 0 <= i < self.directories@.len() {
                (self.directories@[i].0@, self.directories@[i].1.view())
            } else {
                (Seq::empty(), TreeView { hook: None, files: Seq::empty(), dirs: Seq::empty() })
            }),
        }
    }
}

/// Subdirectories as named values.
pub open spec fn tree_entries<R>(dirs: Seq<(Vec<u8>, Directory<R>)>) -> Seq<(Seq<u8>, TreeOf<R>)> {
    Seq::new(dirs.len(), |i: int| (dirs[i].0@, dirs[i].1.view()))
}

/// Files as named values.
pub open spec fn named_files<R>(files: Seq<(Vec<u8>, File<R>)>) -> Seq<(Seq<u8>, File<R>)> {
    files.map_values(|e: (Vec<u8>, File<R>)| (e.0@, e.1))
}

/// The view of a directory, from its lists of entries.
pub broadcast proof fn lemma_tree_view<R>(d: Directory<R>)
    ensures
        #[trigger] d.view() == (TreeView { hook: None, files: named_files(d.files@), dirs: tree_entries(d.directories@) }),
{
    assert(d.view().dirs =~= tree_entries(d.directories@));
}

/// Replacing a subdirectory replaces its view.
pub broadcast proof fn lemma_tree_entries_update<R>(dirs: Seq<(Vec<u8>, Directory<R>)>, i: int, e: (Vec<u8>, Directory<R>))
    requires
        0 <= i < dirs.len(),
    ensures
        #[trigger] tree_entries(dirs.update(i, e)) == tree_entries(dirs).update(i, (e.0@, e.1.view())),
{
    assert(tree_entries(dirs.update(i, e)) =~= tree_entries(dirs).update(i, (e.0@, e.1.view())));
}

/// Inserting a subdirectory inserts its view.
pub broadcast proof fn lemma_tree_entries_insert<R>(dirs: Seq<(Vec<u8>, Directory<R>)>, i: int, e: (Vec<u8>, Directory<R>))
    requires
        0 <= i <= dirs.len(),
    ensures
        #[trigger] tree_entries(dirs.insert(i, e)) == tree_entries(dirs).insert(i, (e.0@, e.1.view())),
{
    assert(tree_entries(dirs.insert(i, e)) =~= tree_entries(dirs).insert(i, (e.0@, e.1.view())));
}

/// Replacing a file replaces its entry.
pub broadcast proof fn lemma_named_files_update<R>(files: Seq<(Vec<u8>, File<R>)>, i: int, e: (Vec<u8>, File<R>))
    requires
        0 <= i < files.len(),
    ensures
        #[trigger] named_files(files.update(i, e)) == named_files(files).update(i, (e.0@, e.1)),
{
    assert(named_files(files.update(i, e)) =~= named_files(files).update(i, (e.0@, e.1)));
}

/// Inserting a file inserts its entry.
pub broadcast proof fn lemma_named_files_insert<R>(files: Seq<(Vec<u8>, File<R>)>, i: int, e: (Vec<u8>, File<R>))
    requires
        0 <= i <= files.len(),
    ensures
        #[trigger] named_files(files.insert(i, e)) == named_files(files).insert(i, (e.0@, e.1)),
{
    assert(named_files(files.insert(i, e)) =~= named_files(files).insert(i, (e.0@, e.1)));
}

/// The names of the views are the names of the entries.
pub broadcast proof fn lemma_tree_names<R>(dirs: Seq<(Vec<u8>, Directory<R>)>, files: Seq<(Vec<u8>, File<R>)>)
    ensures
        #[trigger] entry_names(tree_entries(dirs)) == vec_entry_names(dirs),
        #[trigger] entry_names(named_files(files)) == vec_entry_names(files),
{
    assert(entry_names(tree_entries(dirs)) =~= vec_entry_names(dirs));
    assert(entry_names(named_files(files)) =~= vec_entry_names(files));
}

pub broadcast group group_tree_views {
    crate::vfs::lemma_update_update,
    crate::vfs::lemma_insert_update,
    lemma_tree_names,
    lemma_tree_view,
    lemma_tree_entries_update,
    lemma_named_files_update,
    lemma_tree_entries_insert,
    lemma_named_files_insert,
}

impl<R: FileHandlers> Directory<R> {
    /// An empty directory.
    pub fn empty() -> (r: Self)
        ensures
            r.view() == empty_dir::<(), File<R>>(),
    {
        let r = Directory { files: Vec::new(), directories: Vec::new() };
        assert(r.view().files =~= Seq::empty());
        assert(r.view().dirs =~= Seq::empty());
        r
    }

    /// The directory at the names of `path` from position `from` on.
    fn _directory(&self, path: &Vec<Vec<u8>>, from: usize) -> (r: Option<&Directory<R>>)
        requires
            from <= path@.len(),
        ensures
            match r {
                Some(d) => self.view().lookup_dir(names(path@).skip(from as int)) == Some(d.view()),
                None => self.view().lookup_dir(names(path@).skip(from as int)) is None,
            },
        decreases path@.len() - from,
    {
        broadcast use group_tree_views;

        if from == path.len() {
            return Some(self);
        }
        let ghost p = names(path@).skip(from as int);
        proof {
            assert(p[0] == path@[from as int]@);
            assert(names(path@).skip(from + 1) =~= p.skip(1));
        }
        proof {
            assert(entry_names(tree_entries(self.directories@)) == vec_entry_names(self.directories@));
            assert(self.view().dirs == tree_entries(self.directories@));
        }
        match find(&self.directories, path[from].as_slice()) {
            None => None,
            Some(i) => {
                proof {
                    assert(index_of(self.view().dirs, p[0]) == i);
                }
                self.directories[i].1._directory(path, from + 1)
            },
        }
    }

    /// The directory at the names of `path` from position `from` on, to change.
    fn _directory_mut(&mut self, path: &Vec<Vec<u8>>, from: usize) -> (r: Option<&mut Directory<R>>)
        requires
            from <= path@.len(),
        ensures
            match r {
                Some(d) => old(self).view().lookup_dir(names(path@).skip(from as int)) == Some((*d).view())
                    && final(self).view() == old(self).view().with_dir(
                    names(path@).skip(from as int),
                    (*final(d)).view(),
                ),
                None => old(self).view().lookup_dir(names(path@).skip(from as int)) is None
                    && final(self).view() == old(self).view(),
            },
        decreases path@.len() - from,
    {
        broadcast use group_tree_views;

        if from == path.len() {
            return Some(self);
        }
        let ghost p = names(path@).skip(from as int);
        let ghost before = self.view();
        proof {
            assert(p[0] == path@[from as int]@);
            assert(names(path@).skip(from + 1) =~= p.skip(1));
        }
        proof {
            assert(entry_names(tree_entries(self.directories@)) == vec_entry_names(self.directories@));
            assert(before.dirs == tree_entries(self.directories@));
        }
        match find(&self.directories, path[from].as_slice()) {
            None => None,
            Some(i) => {
                proof {
                    assert(index_of(before.dirs, p[0]) == i);
                    assert(before.dirs.update(i as int, before.dirs[i as int]) =~= before.dirs);
                }
                let entry = &mut self.directories[i];
                entry.1._directory_mut(path, from + 1)
            },
        }
    }

    /// The file at the names of `path` from position `from` on.
    fn _file(&self, path: &Vec<Vec<u8>>, from: usize) -> (r: Option<&File<R>>)
        requires
            from <= path@.len(),
        ensures
            match r {
                Some(f) => self.view().lookup_file(names(path@).skip(from as int)) == Some(*f),
                None => self.view().lookup_file(names(path@).skip(from as int)) is None,
            },
        decreases path@.len() - from,
    {
        broadcast use group_tree_views;

        if from == path.len() {
            return None;
        }
        let ghost p = names(path@).skip(from as int);
        proof {
            assert(p[0] == path@[from as int]@);
            assert(names(path@).skip(from + 1) =~= p.skip(1));
        }
        if path.len() - from == 1 {
            match find(&self.files, path[from].as_slice()) {
                None => None,
                Some(i) => Some(&self.files[i].1),
            }
        } else {
            match find(&self.directories, path[from].as_slice()) {
                None => None,
                Some(i) => self.directories[i].1._file(path, from + 1),
            }
        }
    }

    /// The file at the names of `path` from position `from` on, to change.
    fn _file_mut(&mut self, path: &Vec<Vec<u8>>, from: usize) -> (r: Option<&mut File<R>>)
        requires
            from <= path@.len(),
        ensures
            match r {
                Some(f) => old(self).view().lookup_file(names(path@).skip(from as int)) == Some(*f)
                    && final(self).view() == old(self).view().with_file(names(path@).skip(from as int), *final(f)),
                None => old(self).view().lookup_file(names(path@).skip(from as int)) is None
                    && final(self).view() == old(self).view(),
            },
        decreases path@.len() - from,
    {
        broadcast use group_tree_views;

        if from == path.len() {
            return None;
        }
        let ghost p = names(path@).skip(from as int);
        let ghost before = self.view();
        proof {
            assert(p[0] == path@[from as int]@);
            assert(names(path@).skip(from + 1) =~= p.skip(1));
        }
        if path.len() - from == 1 {
            match find(&self.files, path[from].as_slice()) {
                None => None,
                Some(i) => {
                    proof {
                        assert(before.files.update(i as int, before.files[i as int]) =~= before.files);
                    }
                    let entry = &mut self.files[i];
                    Some(&mut entry.1)
                },
            }
        } else {
            match find(&self.directories, path[from].as_slice()) {
                None => None,
                Some(i) => {
                    proof {
                        assert(before.dirs.update(i as int, before.dirs[i as int]) =~= before.dirs);
                    }
                    let entry = &mut self.directories[i];
                    entry.1._file_mut(path, from + 1)
                },
            }
        }
    }

    /// The directory at `path`; its components are separated by slashes.
    pub fn directory(&self, path: &str) -> (r: Option<&Directory<R>>)
        ensures
            match r {
                Some(d) => self.view().lookup_dir(path_components(path.spec_bytes())) == Some(d.view()),
                None => self.view().lookup_dir(path_components(path.spec_bytes())) is None,
            },
    {
        let components = split_path(path.as_bytes());
        assert(names(components@).skip(0) =~= names(components@));
        self._directory(&components, 0)
    }

    /// Access to the directory at `path`; what is done to it is done to the
    /// directory in the tree.
    pub fn directory_mut(&mut self, path: &str) -> (r: Option<&mut Directory<R>>)
        ensures
            match r {
                Some(d) => old(self).view().lookup_dir(path_components(path.spec_bytes())) == Some((*d).view())
                    && final(self).view() == old(self).view().with_dir(
                    path_components(path.spec_bytes()),
                    (*final(d)).view(),
                ),
                None => old(self).view().lookup_dir(path_components(path.spec_bytes())) is None
                    && final(self).view() == old(self).view(),
            },
    {
        let components = split_path(path.as_bytes());
        assert(names(components@).skip(0) =~= names(components@));
        self._directory_mut(&components, 0)
    }

    /// The file at `path`; the last component names the file.
    pub fn file(&self, path: &str) -> (r: Option<&File<R>>)
        ensures
            match r {
                Some(f) => self.view().lookup_file(path_components(path.spec_bytes())) == Some(*f),
                None => self.view().lookup_file(path_components(path.spec_bytes())) is None,
            },
    {
        let components = split_path(path.as_bytes());
        assert(names(components@).skip(0) =~= names(components@));
        self._file(&components, 0)
    }

    /// Access to the file at `path`; what is done to it is done to the file
    /// in the tree.
    pub fn file_mut(&mut self, path: &str) -> (r: Option<&mut File<R>>)
        ensures
            match r {
                Some(f) => old(self).view().lookup_file(path_components(path.spec_bytes())) == Some(*f)
                    && final(self).view() == old(self).view().with_file(path_components(path.spec_bytes()), *final(f)),
                None => old(self).view().lookup_file(path_components(path.spec_bytes())) is None
                    && final(self).view() == old(self).view(),
            },
    {
        let components = split_path(path.as_bytes());
        assert(names(components@).skip(0) =~= names(components@));
        self._file_mut(&components, 0)
    }

    /// Makes the directories along the names of `path` from position
    /// `from` on where they are missing, and gives access to the last one.
    fn create_directories_from(&mut self, path: &[&str], from: usize) -> (r: &mut Directory<R>)
        requires
            from <= path@.len(),
        ensures
            ({
                let p = str_names(path@).skip(from as int);
                let after = old(self).view().create_dirs(p);
                after.lookup_dir(p) == Some((*r).view()) && final(self).view() == after.with_dir(p, (*final(r)).view())
            }),
        decreases path@.len() - from,
    {
        broadcast use group_tree_views;

        if from == path.len() {
            return self;
        }
        let ghost p = str_names(path@).skip(from as int);
        let ghost before = self.view();
        proof {
            assert(p[0] == path@[from as int].spec_bytes());
            assert(str_names(path@).skip(from + 1) =~= p.skip(1));
            assert(entry_names(tree_entries(self.directories@)) == vec_entry_names(self.directories@));
            assert(before.dirs == tree_entries(self.directories@));
        }
        let name = path[from].as_bytes();
        let i = match find(&self.directories, name) {
            Some(i) => {
                proof {
                    let after = before.create_dirs(p);
                    assert(index_of(before.dirs, p[0]) == i);
                    assert(entry_names(after.dirs) =~= entry_names(before.dirs));
                    assert(index_of(after.dirs, p[0]) == i);
                    assert(after.dirs[i as int].1 == self.directories@[i as int].1.view().create_dirs(p.skip(1)));
                }
                i
            },
            None => {
                let j = insert_position(&self.directories, name);
                let ghost old_dirs = self.directories@;
                self.directories.insert(j, (bytes_to_vec(name), Directory::empty()));
                proof {
                    let after = before.create_dirs(p);
                    assert(entry_names(after.dirs) =~= entry_names(before.dirs).insert(j as int, p[0]));
                    lemma_name_index_insert(entry_names(before.dirs), p[0], j as int);
                    assert(index_of(after.dirs, p[0]) == j);
                    assert(after.dirs[j as int].1 == self.directories@[j as int].1.view().create_dirs(p.skip(1)));
                }
                j
            },
        };
        let entry = &mut self.directories[i];
        entry.1.create_directories_from(path, from + 1)
    }

    /// Makes the directories along the names of `path` where they are
    /// missing, and gives access to the last one.  Each directory it makes
    /// is empty and goes among its siblings in the order of names.
    pub fn create_directories(&mut self, path: &[&str]) -> (r: &mut Directory<R>)
        ensures
            ({
                let p = str_names(path@);
                let after = old(self).view().create_dirs(p);
                after.lookup_dir(p) == Some((*r).view()) && final(self).view() == after.with_dir(p, (*final(r)).view())
            }),
    {
        assert(str_names(path@).skip(0) =~= str_names(path@));
        self.create_directories_from(path, 0)
    }

    /// Puts `file` at the names of `path` from position `from` on, unless a
    /// file is there already, and gives access to the file there.
    fn _create_file(&mut self, path: &Vec<Vec<u8>>, from: usize, file: File<R>) -> (r: &mut File<R>)
        requires
            from < path@.len(),
        ensures
            ({
                let p = names(path@).skip(from as int);
                let after = old(self).view().create_file(p, file);
                after.lookup_file(p) == Some(*r) && final(self).view() == after.with_file(p, *final(r))
            }),
        decreases path@.len() - from,
    {
        broadcast use group_tree_views;

        let ghost p = names(path@).skip(from as int);
        let ghost before = self.view();
        proof {
            assert(p[0] == path@[from as int]@);
            assert(names(path@).skip(from + 1) =~= p.skip(1));
            assert(entry_names(tree_entries(self.directories@)) == vec_entry_names(self.directories@));
            assert(entry_names(named_files(self.files@)) == vec_entry_names(self.files@));
            assert(before.dirs == tree_entries(self.directories@));
            assert(before.files == named_files(self.files@));
        }
        let name = path[from].as_slice();
        if path.len() - from == 1 {
            let i = match find(&self.files, name) {
                Some(i) => i,
                None => {
                    let j = insert_position(&self.files, name);
                    self.files.insert(j, (bytes_to_vec(name), file));
                    proof {
                        let after = before.create_file(p, file);
                        assert(entry_names(after.files) =~= entry_names(before.files).insert(j as int, p[0]));
                        lemma_name_index_insert(entry_names(before.files), p[0], j as int);
                        assert(index_of(after.files, p[0]) == j);
                        assert(after.files == named_files(self.files@));
                    }
                    j
                },
            };
            let entry = &mut self.files[i];
            &mut entry.1
        } else {
            let i = match find(&self.directories, name) {
                Some(i) => {
                    proof {
                        let after = before.create_file(p, file);
                        assert(entry_names(after.dirs) =~= entry_names(before.dirs));
                        assert(index_of(after.dirs, p[0]) == i);
                        assert(after.dirs[i as int].1 == self.directories@[i as int].1.view().create_file(p.skip(1), file));
                    }
                    i
                },
                None => {
                    let j = insert_position(&self.directories, name);
                    self.directories.insert(j, (bytes_to_vec(name), Directory::empty()));
                    proof {
                        let after = before.create_file(p, file);
                        assert(entry_names(after.dirs) =~= entry_names(before.dirs).insert(j as int, p[0]));
                        lemma_name_index_insert(entry_names(before.dirs), p[0], j as int);
                        assert(index_of(after.dirs, p[0]) == j);
                    }
                    j
                },
            };
            let entry = &mut self.directories[i];
            entry.1._create_file(path, from + 1, file)
        }
    }

    /// Puts `file` at `path`, unless a file is there already, and gives
    /// access to the file there.  The directories along the way are made
    /// where they are missing, and a new entry goes among its siblings in
    /// the order of names.  A path without components names no file.
    pub fn create_file(&mut self, path: &str, file: File<R>) -> (r: &mut File<R>)
        requires
            path_components(path.spec_bytes()).len() > 0,
        ensures
            ({
                let p = path_components(path.spec_bytes());
                let after = old(self).view().create_file(p, file);
                after.lookup_file(p) == Some(*r) && final(self).view() == after.with_file(p, *final(r))
            }),
    {
        let components = split_path(path.as_bytes());
        assert(names(components@).skip(0) =~= names(components@));
        self._create_file(&components, 0, file)
    }

    /// A root directory with an empty directory for each of `directories`,
    /// in the order of names.
    pub fn new(directories: &[&str]) -> (r: Self)
        ensures
            r.view() == crate::vfs::new_tree::<(), File<R>>(str_names(directories@)),
            crate::vfs::sorted_tree(r.view()),
    {
        proof {
            crate::vfs::lemma_new_tree_sorted::<(), File<R>>(str_names(directories@));
        }
        let mut root = Directory::empty();
        let mut i: usize = 0;
        while i < directories.len()
            invariant
                i <= directories@.len(),
                root.view() == crate::vfs::new_tree::<(), File<R>>(str_names(directories@).take(i as int)),
            decreases directories@.len() - i,
        {
            let one = vec![directories[i]];
            proof {
                assert(str_names(one@) =~= seq![directories@[i as int].spec_bytes()]);
                assert(str_names(directories@).take(i + 1).drop_last() =~= str_names(directories@).take(i as int));
            }
            let ghost before = root.view();
            let _made = root.create_directories(one.as_slice());
            proof {
                crate::vfs::lemma_create_dirs_found(before, str_names(one@));
                lemma_with_dir_found(before.create_dirs(str_names(one@)), str_names(one@));
            }
            i = i + 1;
        }
        assert(str_names(directories@).take(i as int) =~= str_names(directories@));
        root
    }

    /// Appends the listing of the directory at `indent` to `out`.
    fn _print(&self, indent: usize, out: &mut Vec<TreeLine>)
        ensures
            line_views(final(out)@) == line_views(old(out)@) + tree_lines(self.view(), indent),
        decreases self,
    {
        broadcast use group_tree_views;

        let ghost start = line_views(out@);
        let ghost v = self.view();
        let mut i: usize = 0;
        while i < self.files.len()
            invariant
                v == self.view(),
                i <= self.files@.len(),
                line_views(out@) == start + file_lines(v.files.take(i as int), indent),
            decreases self.files@.len() - i,
        {
            let ghost before = line_views(out@);
            proof {
                assert(v.files.take(i + 1).drop_last() =~= v.files.take(i as int));
                assert(v.files.take(i + 1).last() == v.files[i as int]);
                assert(v.files[i as int] == (self.files@[i as int].0@, self.files@[i as int].1));
            }
            out.push(TreeLine::File { indent, name: bytes_to_vec(self.files[i].0.as_slice()) });
            match &self.files[i].1 {
                File::Regular { contents } => {
                    out.push(TreeLine::ContentLength { indent: indent.saturating_add(2), length: contents.len() });
                },
                File::Special { .. } => {
                    out.push(TreeLine::SpecialFile { indent: indent.saturating_add(2) });
                },
            }
            proof {
                let f = v.files[i as int];
                let e = file_lines(Seq::<(Seq<u8>, File<R>)>::empty(), indent);
                assert(e =~= Seq::empty());
                assert(seq![f].drop_last() =~= Seq::<(Seq<u8>, File<R>)>::empty());
                assert(file_lines(seq![f], indent) == e.push((indent, 0u8, f.0, 0usize)).push(match f.1 {
                    File::Regular { contents } => (deeper(indent), 1u8, Seq::empty(), contents@.len() as usize),
                    File::Special { .. } => (deeper(indent), 2u8, Seq::empty(), 0usize),
                }));
                assert(line_views(out@) =~= before + file_lines(seq![v.files[i as int]], indent));
                assert(file_lines(v.files.take(i + 1), indent) =~= file_lines(v.files.take(i as int), indent) + file_lines(
                    seq![v.files[i as int]],
                    indent,
                )) by {
                    lemma_file_lines_push(v.files.take(i as int), v.files[i as int], indent);
                    assert(v.files.take(i as int).push(v.files[i as int]) =~= v.files.take(i + 1));
                }
            }
            i = i + 1;
        }
        assert(v.files.take(i as int) =~= v.files);
        let mut k: usize = 0;
        while k < self.directories.len()
            invariant
                v == self.view(),
                k <= self.directories@.len(),
                line_views(out@) == start + file_lines(v.files, indent) + subdir_lines(v.dirs, k as nat, indent),
            decreases self.directories@.len() - k,
        {
            let ghost before = line_views(out@);
            proof {
                assert(v.dirs[k as int] == (self.directories@[k as int].0@, self.directories@[k as int].1.view()));
            }
            out.push(TreeLine::Directory { indent, name: bytes_to_vec(self.directories[k].0.as_slice()) });
            let ghost middle = line_views(out@);
            proof {
                assert(middle =~= before.push((indent, 3u8, v.dirs[k as int].0, 0usize)));
            }
            self.directories[k].1._print(indent.saturating_add(2), out);
            k = k + 1;
            proof {
                assert(line_views(out@) =~= start + file_lines(v.files, indent) + subdir_lines(v.dirs, k as nat, indent));
            }
        }
    }

    /// The listing of the tree: for each file a line with its name and a
    /// line with its length or that it is special, indented further; then
    /// for each directory a line with its name followed by its own listing,
    /// indented further.
    pub fn print(&self) -> (r: Vec<TreeLine>)
        ensures
            line_views(r@) == tree_lines(self.view(), 0),
    {
        let mut out: Vec<TreeLine> = Vec::new();
        self._print(0, &mut out);
        assert(line_views(Seq::<TreeLine>::empty()) =~= Seq::empty());
        assert(Seq::<(usize, u8, Seq<u8>, usize)>::empty() + tree_lines(self.view(), 0) =~= tree_lines(self.view(), 0));
        out
    }
}

/// A line of the listing of a tree.
pub enum TreeLine {
    /// The name of a file.
    File { indent: usize, name: Vec<u8> },
    /// The length of a regular file.
    ContentLength { indent: usize, length: usize },
    /// That a file is special.
    SpecialFile { indent: usize },
    /// The name of a directory; its listing follows.
    Directory { indent: usize, name: Vec<u8> },
}

impl TreeLine {
    /// The line as its indentation, its kind (0 file, 1 length, 2 special
    /// file, 3 directory), its name and its length, where it has them.
    pub open spec fn line_view(&self) -> (usize, u8, Seq<u8>, usize) {
        match self {
            TreeLine::File { indent, name } => (*indent, 0u8, name@, 0usize),
            TreeLine::ContentLength { indent, length } => (*indent, 1u8, Seq::empty(), *length),
            TreeLine::SpecialFile { indent } => (*indent, 2u8, Seq::empty(), 0usize),
            TreeLine::Directory { indent, name } => (*indent, 3u8, name@, 0usize),
        }
    }
}

/// The lines as values.
pub open spec fn line_views(lines: Seq<TreeLine>) -> Seq<(usize, u8, Seq<u8>, usize)> {
    Seq::new(lines.len(), |i: int| lines[i].line_view())
}

/// The indentation of what is below a line at `indent`.
pub open spec fn deeper(indent: usize) -> usize {
    if indent + 2 > usize::MAX {
        usize::MAX
    } else {
        (indent + 2) as usize
    }
}

/// The lines of the files `files` at `indent`.
pub open spec fn file_lines<R>(files: Seq<(Seq<u8>, File<R>)>, indent: usize) -> Seq<(usize, u8, Seq<u8>, usize)>
    decreases files.len(),
{
    if files.len() == 0 {
        Seq::empty()
    } else {
        let (name, file) = files.last();
        file_lines(files.drop_last(), indent).push((indent, 0u8, name, 0usize)).push(match file {
            File::Regular { contents } => (deeper(indent), 1u8, Seq::empty(), contents@.len() as usize),
            File::Special { .. } => (deeper(indent), 2u8, Seq::empty(), 0usize),
        })
    }
}

/// The lines of the files of `files` and one more file.
proof fn lemma_file_lines_push<R>(files: Seq<(Seq<u8>, File<R>)>, f: (Seq<u8>, File<R>), indent: usize)
    ensures
        file_lines(files.push(f), indent) == file_lines(files, indent) + file_lines(seq![f], indent),
{
    assert(files.push(f).drop_last() =~= files);
    assert(seq![f].drop_last() =~= Seq::<(Seq<u8>, File<R>)>::empty());
    let e = file_lines(Seq::<(Seq<u8>, File<R>)>::empty(), indent);
    assert(e =~= Seq::empty());
    let single = file_lines(seq![f], indent);
    assert(single == e.push((indent, 0u8, f.0, 0usize)).push(match f.1 {
        File::Regular { contents } => (deeper(indent), 1u8, Seq::empty(), contents@.len() as usize),
        File::Special { .. } => (deeper(indent), 2u8, Seq::empty(), 0usize),
    }));
    assert(file_lines(files.push(f), indent) =~= file_lines(files, indent) + single);
}

/// The listing of a directory at `indent`.
pub open spec fn tree_lines<R>(v: TreeOf<R>, indent: usize) -> Seq<(usize, u8, Seq<u8>, usize)>
    decreases v, 1nat,
{
    file_lines(v.files, indent) + subdir_lines(v.dirs, v.dirs.len(), indent)
}

/// The lines of the first `n` subdirectories of `dirs` at `indent`.
pub open spec fn subdir_lines<R>(dirs: Seq<(Seq<u8>, TreeOf<R>)>, n: nat, indent: usize) -> Seq<(usize, u8, Seq<u8>, usize)>
    decreases dirs, n,
{
    if n == 0 || n > dirs.len() {
        Seq::empty()
    } else {
        subdir_lines(dirs, (n - 1) as nat, indent).push((indent, 3u8, dirs[n - 1].0, 0usize)) + tree_lines(
            dirs[n - 1].1,
            deeper(indent),
        )
    }
}

} // verus!
