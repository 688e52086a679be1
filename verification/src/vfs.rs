//! The virtual file system: a tree of directories whose entries are named by
//! bytes, with regular files, special files whose contents are computed when
//! they are read, and stream files.

use vstd::prelude::*;

use vstd::string::StringSliceAdditionalSpecFns;

use crate::io::{slice_skip, Ignorer, Write, WriterError};
use crate::process::{OwnedStreamType, StreamType};

verus! {

/// What the special files and special directories of a file system do.
/// A special file computes its contents when it is read; a special
/// directory refreshes its entries each time they are looked at.
pub trait Hooks: Sized {
    /// Whether reading the special file `file` from `offset` on into the
    /// writer `before` may leave the writer as `after` and give back `r`;
    /// an implementation that says nothing of it allows any outcome.
    closed spec fn reads<W: Write>(&self, file: File<Self>, offset: usize, before: W, after: W, r: Result<usize, WriterError>) -> bool {
        true
    }

    /// Whether refreshing the entries `files` and `directories` of a special
    /// directory may leave them as `files_after` and `directories_after`; an
    /// implementation that says nothing of it allows any outcome.
    closed spec fn updates(
        &self,
        files: Vec<(Vec<u8>, File<Self>)>,
        directories: Vec<(Vec<u8>, Directory<Self>)>,
        files_after: Vec<(Vec<u8>, File<Self>)>,
        directories_after: Vec<(Vec<u8>, Directory<Self>)>,
    ) -> bool {
        true
    }

    /// Writes the contents of the special file `file`, from `offset` on, to `writer`.
    fn read<W: Write>(&self, file: &File<Self>, offset: usize, writer: &mut W) -> (r: Result<usize, WriterError>)
        ensures
            self.reads(*file, offset, *old(writer), *final(writer), r),
    ;

    /// Refreshes the entries of a special directory.
    fn update(&self, files: &mut Vec<(Vec<u8>, File<Self>)>, directories: &mut Vec<(Vec<u8>, Directory<Self>)>)
        ensures
            self.updates(*old(files), *old(directories), *final(files), *final(directories)),
    ;
}

/// A file of the file system.
pub enum File<H> {
    /// A file with fixed contents.
    Regular { contents: Vec<u8> },
    /// A file whose contents the hook `read` computes.
    Special { read: H },
    /// A stream; opening it gives a stream file descriptor.
    Stream { stream_type: StreamType },
}

/// A directory: its files and subdirectories by name.
pub enum Directory<H> {
    /// A directory whose entries change only through this module.
    Regular { files: Vec<(Vec<u8>, File<H>)>, directories: Vec<(Vec<u8>, Directory<H>)> },
    /// A directory whose entries the hook `update` refreshes before they are used.
    Special { files: Vec<(Vec<u8>, File<H>)>, directories: Vec<(Vec<u8>, Directory<H>)>, update: H },
}

/// A directory as a value: its hook if it is special, its files and its
/// subdirectories, each list in the order in which it is kept.
#[verifier::ext_equal]
pub struct TreeView<H, F> {
    pub hook: Option<H>,
    pub files: Seq<(Seq<u8>, F)>,
    pub dirs: Seq<(Seq<u8>, TreeView<H, F>)>,
}

/// A directory of this file system as a value.
pub type DirView<H> = TreeView<H, File<H>>;

impl<H> Directory<H> {
    pub open spec fn view(&self) -> DirView<H>
        decreases self,
    {
        match self {
            Directory::Regular { files, directories } => TreeView {
                hook: None,
                files: files@.map_values(|e: (Vec<u8>, File<H>)| (e.0@, e.1)),
                dirs: Seq::new(directories@.len(), |i: int| if 0 <= i < directories@.len() {
                    (directories@[i].0@, directories@[i].1.view())
                } else {
                    (Seq::empty(), TreeView { hook: None, files: Seq::empty(), dirs: Seq::empty() })
                }),
            },
            Directory::Special { files, directories, update } => TreeView {
                hook: Some(*update),
                files: files@.map_values(|e: (Vec<u8>, File<H>)| (e.0@, e.1)),
                dirs: Seq::new(directories@.len(), |i: int| if 0 <= i < directories@.len() {
                    (directories@[i].0@, directories@[i].1.view())
                } else {
                    (Seq::empty(), TreeView { hook: None, files: Seq::empty(), dirs: Seq::empty() })
                }),
            },
        }
    }
}

/// Whether `i` is the position of the first occurrence of `name` in `names`.
pub open spec fn is_first_named(names: Seq<Seq<u8>>, name: Seq<u8>, i: int) -> bool {
    &&& 0 <= i < names.len()
    &&& names[i] == name
    &&& forall|j: int| 0 <= j < i ==> #[trigger] names[j] != name
}

/// The position of the first occurrence of `name` in `names`, or -1 when it does not occur.
pub open spec fn name_index(names: Seq<Seq<u8>>, name: Seq<u8>) -> int {
    if exists|i: int| is_first_named(names, name, i) {
        choose|i: int| is_first_named(names, name, i)
    } else {
        -1
    }
}

/// The names of named entries.
pub open spec fn entry_names<V>(entries: Seq<(Seq<u8>, V)>) -> Seq<Seq<u8>> {
    Seq::new(entries.len(), |i: int| entries[i].0)
}

/// The names of entries named by byte vectors.
pub open spec fn vec_entry_names<V>(entries: Seq<(Vec<u8>, V)>) -> Seq<Seq<u8>> {
    Seq::new(entries.len(), |i: int| entries[i].0@)
}

/// The position of the first entry named `name`, or -1 when no entry has that name.
pub open spec fn index_of<V>(entries: Seq<(Seq<u8>, V)>, name: Seq<u8>) -> int {
    name_index(entry_names(entries), name)
}

proof fn lemma_first_named_exists(names: Seq<Seq<u8>>, name: Seq<u8>, i: int)
    requires
        0 <= i < names.len(),
        names[i] == name,
    ensures
        exists|k: int| is_first_named(names, name, k),
    decreases i,
{
    if exists|j: int| 0 <= j < i && #[trigger] names[j] == name {
        let j = choose|j: int| 0 <= j < i && #[trigger] names[j] == name;
        lemma_first_named_exists(names, name, j);
    } else {
        assert(is_first_named(names, name, i));
    }
}

/// `name_index` is the first position of the name, or -1 when it does not occur.
pub proof fn lemma_name_index(names: Seq<Seq<u8>>, name: Seq<u8>)
    ensures
        -1 <= name_index(names, name) < names.len(),
        name_index(names, name) >= 0 ==> is_first_named(names, name, name_index(names, name)),
        name_index(names, name) < 0 ==> forall|j: int| 0 <= j < names.len() ==> #[trigger] names[j] != name,
{
    if exists|j: int| 0 <= j < names.len() && #[trigger] names[j] == name {
        let j = choose|j: int| 0 <= j < names.len() && #[trigger] names[j] == name;
        lemma_first_named_exists(names, name, j);
    }
}

/// The first occurrence of `name` is at `i`.
proof fn lemma_name_index_is(names: Seq<Seq<u8>>, name: Seq<u8>, i: int)
    requires
        is_first_named(names, name, i),
    ensures
        name_index(names, name) == i,
{
    lemma_name_index(names, name);
    let k = name_index(names, name);
    if k != i {
        if k < i {
            assert(names[k] == name);
        } else {
            assert(names[i] == name);
        }
    }
}

/// Whether `a` comes before `b` in the order of byte strings: at the first
/// position where they differ `a` has the smaller byte, or `a` is a proper
/// prefix of `b`.  Directories keep their entries in this order.
pub open spec fn bytes_lt(a: Seq<u8>, b: Seq<u8>) -> bool {
    exists|k: int|
        0 <= k <= a.len() && k <= b.len() && #[trigger] a.take(k) == b.take(k) && ((k == a.len() && k
            < b.len()) || (k < a.len() && k < b.len() && a[k] < b[k]))
}

/// Whether `j` is the first position in `names` whose name comes after `name`.
pub open spec fn is_first_after(names: Seq<Seq<u8>>, name: Seq<u8>, j: int) -> bool {
    &&& 0 <= j < names.len()
    &&& bytes_lt(name, names[j])
    &&& forall|i: int| 0 <= i < j ==> !bytes_lt(name, #[trigger] names[i])
}

/// Where a new entry named `name` goes: before the first name that comes
/// after it, or at the end.
pub open spec fn insert_pos(names: Seq<Seq<u8>>, name: Seq<u8>) -> int {
    if exists|j: int| is_first_after(names, name, j) {
        choose|j: int| is_first_after(names, name, j)
    } else {
        names.len() as int
    }
}

/// `entries` with a new entry `(name, v)` at its place.
pub open spec fn insert_entry<V>(entries: Seq<(Seq<u8>, V)>, name: Seq<u8>, v: V) -> Seq<(Seq<u8>, V)> {
    entries.insert(insert_pos(entry_names(entries), name), (name, v))
}

/// An empty regular directory.
pub open spec fn empty_dir<H, F>() -> TreeView<H, F> {
    TreeView { hook: None, files: Seq::empty(), dirs: Seq::empty() }
}

/// A name that does not occur, inserted, occurs first where it was inserted.
pub(crate) proof fn lemma_name_index_insert(names: Seq<Seq<u8>>, name: Seq<u8>, j: int)
    requires
        name_index(names, name) == -1,
        0 <= j <= names.len(),
    ensures
        name_index(names.insert(j, name), name) == j,
{
    lemma_name_index(names, name);
    let n = names.insert(j, name);
    assert forall|i: int| 0 <= i < j implies #[trigger] n[i] != name by {
        assert(n[i] == names[i]);
    }
    lemma_name_index_is(n, name, j);
}

/// The names of a list of byte strings.
pub open spec fn names(path: Seq<Vec<u8>>) -> Seq<Seq<u8>> {
    path.map_values(|v: Vec<u8>| v@)
}

/// The bytes of a list of strings.
pub open spec fn str_names(path: Seq<&str>) -> Seq<Seq<u8>> {
    path.map_values(|s: &str| s.spec_bytes())
}

/// Files and subdirectories as named values.
pub open spec fn file_entries<H>(files: Seq<(Vec<u8>, File<H>)>) -> Seq<(Seq<u8>, File<H>)> {
    files.map_values(|e: (Vec<u8>, File<H>)| (e.0@, e.1))
}

impl<H, F> TreeView<H, F> {
    /// Whether the directory is regular: its entries change only through this module.
    pub open spec fn is_regular(self) -> bool {
        self.hook is None
    }

    /// The first subdirectory named `name`.
    pub open spec fn child(self, name: Seq<u8>) -> Option<TreeView<H, F>> {
        let i = index_of(self.dirs, name);
        if i >= 0 {
            Some(self.dirs[i].1)
        } else {
            None
        }
    }

    /// The first file named `name`.
    pub open spec fn file(self, name: Seq<u8>) -> Option<F> {
        let i = index_of(self.files, name);
        if i >= 0 {
            Some(self.files[i].1)
        } else {
            None
        }
    }

    /// The directory reached by following the names of `path` from this one.
    pub open spec fn lookup_dir(self, path: Seq<Seq<u8>>) -> Option<TreeView<H, F>>
        decreases path.len(),
    {
        if path.len() == 0 {
            Some(self)
        } else {
            match self.child(path[0]) {
                Some(c) => c.lookup_dir(path.skip(1)),
                None => None,
            }
        }
    }

    /// The file reached by following the names of `path`: the last one names the file.
    pub open spec fn lookup_file(self, path: Seq<Seq<u8>>) -> Option<F>
        decreases path.len(),
    {
        if path.len() == 0 {
            None
        } else if path.len() == 1 {
            self.file(path[0])
        } else {
            match self.child(path[0]) {
                Some(c) => c.lookup_file(path.skip(1)),
                None => None,
            }
        }
    }

    /// Whether every directory whose subdirectories a walk along `path`
    /// looks at is regular.
    pub open spec fn regular_walk(self, path: Seq<Seq<u8>>) -> bool
        decreases path.len(),
    {
        path.len() == 0 || (self.is_regular() && match self.child(path[0]) {
            Some(c) => c.regular_walk(path.skip(1)),
            None => true,
        })
    }

    /// Whether every directory whose entries a walk to the file at `path`
    /// looks at is regular.
    pub open spec fn regular_file_walk(self, path: Seq<Seq<u8>>) -> bool
        decreases path.len(),
    {
        path.len() == 0 || (self.is_regular() && (path.len() == 1 || match self.child(path[0]) {
            Some(c) => c.regular_file_walk(path.skip(1)),
            None => true,
        }))
    }

    /// This directory with the directory at `path` replaced by `new`; unchanged
    /// when there is no directory at `path`.
    pub open spec fn with_dir(self, path: Seq<Seq<u8>>, new: TreeView<H, F>) -> TreeView<H, F>
        decreases path.len(),
    {
        if path.len() == 0 {
            new
        } else {
            let i = index_of(self.dirs, path[0]);
            if i < 0 {
                self
            } else {
                TreeView {
                    dirs: self.dirs.update(i, (path[0], self.dirs[i].1.with_dir(path.skip(1), new))),
                    ..self
                }
            }
        }
    }

    /// This directory after the directories along `path` have been made
    /// where they are missing: each missing one an empty regular directory.
    pub open spec fn create_dirs(self, path: Seq<Seq<u8>>) -> TreeView<H, F>
        decreases path.len(),
    {
        if path.len() == 0 {
            self
        } else {
            let i = index_of(self.dirs, path[0]);
            if i >= 0 {
                TreeView {
                    dirs: self.dirs.update(i, (path[0], self.dirs[i].1.create_dirs(path.skip(1)))),
                    ..self
                }
            } else {
                TreeView {
                    dirs: insert_entry(self.dirs, path[0], empty_dir::<H, F>().create_dirs(path.skip(1))),
                    ..self
                }
            }
        }
    }

    /// This directory after `file` has been put at `path` where no file is
    /// there yet, with the directories along the way made where they are
    /// missing, each an empty regular one.
    pub open spec fn create_file(self, path: Seq<Seq<u8>>, file: F) -> TreeView<H, F>
        decreases path.len(),
    {
        if path.len() == 0 {
            self
        } else if path.len() == 1 {
            if index_of(self.files, path[0]) >= 0 {
                self
            } else {
                TreeView { files: insert_entry(self.files, path[0], file), ..self }
            }
        } else {
            let i = index_of(self.dirs, path[0]);
            if i >= 0 {
                TreeView {
                    dirs: self.dirs.update(i, (path[0], self.dirs[i].1.create_file(path.skip(1), file))),
                    ..self
                }
            } else {
                TreeView {
                    dirs: insert_entry(self.dirs, path[0], empty_dir::<H, F>().create_file(path.skip(1), file)),
                    ..self
                }
            }
        }
    }

    /// This directory after the directories along `path` have been made
    /// where they are missing, each an empty special directory with the hook `hook`.
    pub open spec fn create_special(self, path: Seq<Seq<u8>>, hook: H) -> TreeView<H, F>
        decreases path.len(),
    {
        if path.len() == 0 {
            self
        } else {
            let i = index_of(self.dirs, path[0]);
            if i >= 0 {
                TreeView {
                    dirs: self.dirs.update(i, (path[0], self.dirs[i].1.create_special(path.skip(1), hook))),
                    ..self
                }
            } else {
                TreeView {
                    dirs: insert_entry(
                        self.dirs,
                        path[0],
                        TreeView { hook: Some(hook), files: Seq::empty(), dirs: Seq::empty() }.create_special(
                            path.skip(1),
                            hook,
                        ),
                    ),
                    ..self
                }
            }
        }
    }

    /// This directory with the file at `path` replaced by `new`; unchanged when
    /// there is no file at `path`.
    pub open spec fn with_file(self, path: Seq<Seq<u8>>, new: F) -> TreeView<H, F>
        decreases path.len(),
    {
        if path.len() == 0 {
            self
        } else if path.len() == 1 {
            let i = index_of(self.files, path[0]);
            if i < 0 {
                self
            } else {
                TreeView { files: self.files.update(i, (path[0], new)), ..self }
            }
        } else {
            let i = index_of(self.dirs, path[0]);
            if i < 0 {
                self
            } else {
                TreeView {
                    dirs: self.dirs.update(i, (path[0], self.dirs[i].1.with_file(path.skip(1), new))),
                    ..self
                }
            }
        }
    }
}

/// Subdirectories as named values.
pub open spec fn dir_entries<H>(dirs: Seq<(Vec<u8>, Directory<H>)>) -> Seq<(Seq<u8>, DirView<H>)> {
    Seq::new(dirs.len(), |i: int| (dirs[i].0@, dirs[i].1.view()))
}

/// The view of a directory, from its lists of entries.
pub broadcast proof fn lemma_view_entries<H>(d: Directory<H>)
    ensures
        #[trigger] d.view() == (match d {
            Directory::Regular { files, directories } => TreeView {
                hook: None,
                files: file_entries(files@),
                dirs: dir_entries(directories@),
            },
            Directory::Special { files, directories, update } => TreeView {
                hook: Some(update),
                files: file_entries(files@),
                dirs: dir_entries(directories@),
            },
        }),
{
    match d {
        Directory::Regular { files, directories } => {
            assert(d.view().dirs =~= dir_entries(directories@));
        },
        Directory::Special { files, directories, update } => {
            assert(d.view().dirs =~= dir_entries(directories@));
        },
    }
}

/// Replacing a subdirectory replaces its view.
pub broadcast proof fn lemma_dir_entries_update<H>(dirs: Seq<(Vec<u8>, Directory<H>)>, i: int, e: (Vec<u8>, Directory<H>))
    requires
        0 <= i < dirs.len(),
    ensures
        #[trigger] dir_entries(dirs.update(i, e)) == dir_entries(dirs).update(i, (e.0@, e.1.view())),
{
    assert(dir_entries(dirs.update(i, e)) =~= dir_entries(dirs).update(i, (e.0@, e.1.view())));
}

/// Inserting a subdirectory inserts its view.
pub broadcast proof fn lemma_dir_entries_insert<H>(dirs: Seq<(Vec<u8>, Directory<H>)>, i: int, e: (Vec<u8>, Directory<H>))
    requires
        0 <= i <= dirs.len(),
    ensures
        #[trigger] dir_entries(dirs.insert(i, e)) == dir_entries(dirs).insert(i, (e.0@, e.1.view())),
{
    assert(dir_entries(dirs.insert(i, e)) =~= dir_entries(dirs).insert(i, (e.0@, e.1.view())));
}

/// Inserting a file inserts its entry.
pub broadcast proof fn lemma_file_entries_insert<H>(files: Seq<(Vec<u8>, File<H>)>, i: int, e: (Vec<u8>, File<H>))
    requires
        0 <= i <= files.len(),
    ensures
        #[trigger] file_entries(files.insert(i, e)) == file_entries(files).insert(i, (e.0@, e.1)),
{
    assert(file_entries(files.insert(i, e)) =~= file_entries(files).insert(i, (e.0@, e.1)));
}

/// Replacing a file replaces its entry.
pub broadcast proof fn lemma_file_entries_update<H>(files: Seq<(Vec<u8>, File<H>)>, i: int, e: (Vec<u8>, File<H>))
    requires
        0 <= i < files.len(),
    ensures
        #[trigger] file_entries(files.update(i, e)) == file_entries(files).update(i, (e.0@, e.1)),
{
    assert(file_entries(files.update(i, e)) =~= file_entries(files).update(i, (e.0@, e.1)));
}

/// The names of the views are the names of the entries.
pub broadcast proof fn lemma_entry_names<H>(dirs: Seq<(Vec<u8>, Directory<H>)>, files: Seq<(Vec<u8>, File<H>)>)
    ensures
        #[trigger] entry_names(dir_entries(dirs)) == vec_entry_names(dirs),
        #[trigger] entry_names(file_entries(files)) == vec_entry_names(files),
{
    assert(entry_names(dir_entries(dirs)) =~= vec_entry_names(dirs));
    assert(entry_names(file_entries(files)) =~= vec_entry_names(files));
}

/// Overwriting an entry just inserted is inserting the new one.
pub broadcast proof fn lemma_insert_update<A>(s: Seq<A>, j: int, a: A, b: A)
    requires
        0 <= j <= s.len(),
    ensures
        #[trigger] s.insert(j, a).update(j, b) == s.insert(j, b),
{
    assert(s.insert(j, a).update(j, b) =~= s.insert(j, b));
}

/// Overwriting an entry twice is overwriting it with the second value.
pub broadcast proof fn lemma_update_update<A>(s: Seq<A>, j: int, a: A, b: A)
    requires
        0 <= j < s.len(),
    ensures
        #[trigger] s.update(j, a).update(j, b) == s.update(j, b),
{
    assert(s.update(j, a).update(j, b) =~= s.update(j, b));
}

pub broadcast group group_vfs_views {
    lemma_update_update,
    lemma_insert_update,
    lemma_entry_names,
    lemma_view_entries,
    lemma_dir_entries_update,
    lemma_file_entries_update,
    lemma_dir_entries_insert,
    lemma_file_entries_insert,
}

/// Putting back the directory found at `path` changes nothing.
pub proof fn lemma_with_dir_found<H, F>(v: TreeView<H, F>, path: Seq<Seq<u8>>)
    requires
        v.lookup_dir(path) is Some,
    ensures
        v.with_dir(path, v.lookup_dir(path).unwrap()) == v,
    decreases path.len(),
{
    if path.len() > 0 {
        let i = index_of(v.dirs, path[0]);
        lemma_name_index(entry_names(v.dirs), path[0]);
        lemma_with_dir_found(v.dirs[i].1, path.skip(1));
        assert(v.dirs.update(i, (path[0], v.dirs[i].1)) =~= v.dirs);
    }
}

/// Putting back the file found at `path` changes nothing.
pub proof fn lemma_with_file_found<H, F>(v: TreeView<H, F>, path: Seq<Seq<u8>>)
    requires
        v.lookup_file(path) is Some,
    ensures
        v.with_file(path, v.lookup_file(path).unwrap()) == v,
    decreases path.len(),
{
    if path.len() == 1 {
        let i = index_of(v.files, path[0]);
        lemma_name_index(entry_names(v.files), path[0]);
        assert(v.files.update(i, (path[0], v.files[i].1)) =~= v.files);
    } else if path.len() > 1 {
        let i = index_of(v.dirs, path[0]);
        lemma_name_index(entry_names(v.dirs), path[0]);
        lemma_with_file_found(v.dirs[i].1, path.skip(1));
        assert(v.dirs.update(i, (path[0], v.dirs[i].1)) =~= v.dirs);
    }
}

/// Whether two byte strings are equal.
pub(crate) fn same_bytes(a: &[u8], b: &[u8]) -> (r: bool)
    ensures
        r == (a@ == b@),
{
    if a.len() != b.len() {
        return false;
    }
    let mut i: usize = 0;
    while i < a.len()
        invariant
            a@.len() == b@.len(),
            i <= a@.len(),
            forall|j: int| 0 <= j < i ==> a@[j] == b@[j],
        decreases a@.len() - i,
    {
        if a[i] != b[i] {
            return false;
        }
        i = i + 1;
    }
    assert(a@ =~= b@);
    true
}

/// The position of the first entry named `name`.
pub(crate) fn find<V>(entries: &Vec<(Vec<u8>, V)>, name: &[u8]) -> (r: Option<usize>)
    ensures
        match r {
            Some(i) => i == name_index(vec_entry_names(entries@), name@),
            None => name_index(vec_entry_names(entries@), name@) == -1,
        },
{
    let ghost named = vec_entry_names(entries@);
    let mut i: usize = 0;
    while i < entries.len()
        invariant
            named == vec_entry_names(entries@),
            i <= entries@.len(),
            forall|j: int| 0 <= j < i ==> #[trigger] named[j] != name@,
        decreases entries@.len() - i,
    {
        if same_bytes(entries[i].0.as_slice(), name) {
            proof {
                lemma_name_index_is(named, name@, i as int);
            }
            return Some(i);
        }
        i = i + 1;
    }
    proof {
        lemma_name_index(named, name@);
        if name_index(named, name@) >= 0 {
            let k = name_index(named, name@);
            assert(named[k] == name@);
        }
    }
    None
}

/// Whether `a` comes before `b` in the order of byte strings.
fn bytes_less(a: &[u8], b: &[u8]) -> (r: bool)
    ensures
        r == bytes_lt(a@, b@),
{
    let mut i: usize = 0;
    while i < a.len() && i < b.len()
        invariant
            i <= a@.len(),
            i <= b@.len(),
            a@.take(i as int) == b@.take(i as int),
        decreases a@.len() - i,
    {
        if a[i] != b[i] {
            proof {
                if a[i as int] < b[i as int] {
                    assert(a@.take(i as int) == b@.take(i as int));
                } else {
                    assert forall|k: int|
                        0 <= k <= a@.len() && k <= b@.len() && #[trigger] a@.take(k) == b@.take(k)
                            implies !((k == a@.len() && k < b@.len()) || (k < a@.len() && k < b@.len()
                        && a@[k] < b@[k])) by {
                        if k > i {
                            assert(a@.take(k)[i as int] == b@.take(k)[i as int]);
                        } else if k < i {
                            assert(a@.take(i as int)[k] == b@.take(i as int)[k]);
                        }
                    }
                }
            }
            return a[i] < b[i];
        }
        i = i + 1;
        assert(a@.take(i as int) =~= b@.take(i as int)) by {
            assert(a@.take(i - 1) == b@.take(i - 1));
            assert forall|k: int| 0 <= k < i implies a@.take(i as int)[k] == b@.take(i as int)[k] by {
                if k < i - 1 {
                    assert(a@.take(i - 1)[k] == b@.take(i - 1)[k]);
                }
            }
        }
    }
    proof {
        if !(a@.len() < b@.len()) {
            assert forall|k: int|
                0 <= k <= a@.len() && k <= b@.len() && #[trigger] a@.take(k) == b@.take(k) implies !((k
                == a@.len() && k < b@.len()) || (k < a@.len() && k < b@.len() && a@[k] < b@[k])) by {
                if k < a@.len() && k < b@.len() {
                    assert(k < i);
                    assert(a@.take(i as int)[k] == b@.take(i as int)[k]);
                }
            }
        } else {
            assert(a@.take(i as int) == b@.take(i as int));
        }
    }
    a.len() < b.len()
}

/// Entries named by byte vectors, as named values.
pub open spec fn named_entries<V>(entries: Seq<(Vec<u8>, V)>) -> Seq<(Seq<u8>, V)> {
    entries.map_values(|e: (Vec<u8>, V)| (e.0@, e.1))
}

/// Puts `entry` under `name` in `entries`, at its place in the order of
/// names, unless an entry of that name is there already; entries kept in
/// strictly increasing order of names stay so.
pub fn insert_missing<V>(entries: &mut Vec<(Vec<u8>, V)>, name: Vec<u8>, entry: V)
    ensures
        named_entries(final(entries)@) == if index_of(named_entries(old(entries)@), name@) >= 0 {
            named_entries(old(entries)@)
        } else {
            insert_entry(named_entries(old(entries)@), name@, entry)
        },
        sorted_names(entry_names(named_entries(old(entries)@))) ==> sorted_names(
            entry_names(named_entries(final(entries)@)),
        ),
{
    let ghost before = named_entries(entries@);
    proof {
        assert(entry_names(before) =~= vec_entry_names(entries@));
    }
    match find(entries, name.as_slice()) {
        Some(_) => {},
        None => {
            let j = insert_position(entries, name.as_slice());
            let ghost name_view = name@;
            entries.insert(j, (name, entry));
            proof {
                assert(named_entries(entries@) =~= before.insert(j as int, (name_view, entry)));
                lemma_name_index(entry_names(before), name_view);
                if sorted_names(entry_names(before)) {
                    lemma_insert_entry_sorted(before, name_view, entry);
                }
            }
        },
    }
}

/// Where a new entry named `name` goes in `entries`.
pub(crate) fn insert_position<V>(entries: &Vec<(Vec<u8>, V)>, name: &[u8]) -> (r: usize)
    ensures
        r == insert_pos(vec_entry_names(entries@), name@),
        r <= entries@.len(),
{
    let ghost named = vec_entry_names(entries@);
    let mut j: usize = 0;
    while j < entries.len()
        invariant
            named == vec_entry_names(entries@),
            j <= entries@.len(),
            forall|i: int| 0 <= i < j ==> !bytes_lt(name@, #[trigger] named[i]),
        decreases entries@.len() - j,
    {
        if bytes_less(name, entries[j].0.as_slice()) {
            proof {
                assert(is_first_after(named, name@, j as int));
                let k = choose|k: int| is_first_after(named, name@, k);
                if k < j {
                    assert(!bytes_lt(name@, named[k]));
                } else if k > j {
                    assert(!bytes_lt(name@, named[j as int]));
                }
            }
            return j;
        }
        j = j + 1;
    }
    proof {
        if exists|k: int| is_first_after(named, name@, k) {
            let k = choose|k: int| is_first_after(named, name@, k);
            assert(!bytes_lt(name@, named[k]));
        }
    }
    j
}

/// A copy of `bytes`.
pub(crate) fn bytes_to_vec(bytes: &[u8]) -> (r: Vec<u8>)
    ensures
        r@ == bytes@,
{
    let mut r: Vec<u8> = Vec::new();
    let mut i: usize = 0;
    while i < bytes.len()
        invariant
            i <= bytes@.len(),
            r@ == bytes@.take(i as int),
        decreases bytes@.len() - i,
    {
        r.push(bytes[i]);
        i = i + 1;
        assert(r@ =~= bytes@.take(i as int));
    }
    assert(bytes@.take(i as int) =~= bytes@);
    r
}

/// The components read so far when a path is read from left to right: the
/// finished ones, and the one still being read.
pub open spec fn split_state(path: Seq<u8>) -> (Seq<Seq<u8>>, Seq<u8>)
    decreases path.len(),
{
    if path.len() == 0 {
        (Seq::empty(), Seq::empty())
    } else {
        let (done, current) = split_state(path.drop_last());
        if path.last() == 47u8 {
            if current.len() == 0 {
                (done, Seq::empty())
            } else {
                (done.push(current), Seq::empty())
            }
        } else {
            (done, current.push(path.last()))
        }
    }
}

/// The components of a path: the parts between slashes, empty parts left out.
pub open spec fn path_components(path: Seq<u8>) -> Seq<Seq<u8>> {
    let (done, current) = split_state(path);
    if current.len() == 0 {
        done
    } else {
        done.push(current)
    }
}

/// Splits `path` at its slashes and leaves out the empty parts.
pub fn split_path(path: &[u8]) -> (r: Vec<Vec<u8>>)
    ensures
        names(r@) == path_components(path@),
{
    let mut done: Vec<Vec<u8>> = Vec::new();
    let mut current: Vec<u8> = Vec::new();
    let mut i: usize = 0;
    while i < path.len()
        invariant
            i <= path@.len(),
            (names(done@), current@) == split_state(path@.take(i as int)),
        decreases path@.len() - i,
    {
        let b = path[i];
        proof {
            assert(path@.take(i + 1).drop_last() =~= path@.take(i as int));
        }
        if b == 47u8 {
            if current.len() > 0 {
                let finished = current;
                done.push(finished);
                current = Vec::new();
                assert(names(done@) =~= split_state(path@.take(i as int)).0.push(finished@));
            }
        } else {
            current.push(b);
        }
        i = i + 1;
        proof {
            assert(current@ == split_state(path@.take(i as int)).1);
        }
    }
    assert(path@.take(i as int) =~= path@);
    if current.len() > 0 {
        let last = current;
        done.push(last);
        assert(names(done@) =~= path_components(path@));
    }
    done
}

impl<H: Hooks> Directory<H> {
    /// An empty regular directory.
    pub fn empty() -> (r: Self)
        ensures
            r.view() == (TreeView::<H, File<H>> { hook: None, files: Seq::empty(), dirs: Seq::empty() }),
            sorted_tree(r.view()),
    {
        let r = Directory::Regular { files: Vec::new(), directories: Vec::new() };
        assert(r.view().files =~= Seq::empty());
        assert(r.view().dirs =~= Seq::empty());
        proof {
            lemma_empty_sorted::<H, File<H>>();
        }
        r
    }

    /// Runs the hook of a special directory on its entries; a regular
    /// directory is left as it is.
    pub fn update(&mut self)
        ensures
            old(self).view().is_regular() ==> *final(self) == *old(self),
            final(self).view().hook == old(self).view().hook,
            *old(self) matches Directory::Special { files, directories, update } ==> *final(self) matches Directory::Special {
                files: f,
                directories: d,
                update: u,
            } && u == update && update.updates(files, directories, f, d),
    {
        match self {
            Directory::Special { files, directories, update } => update.update(files, directories),
            Directory::Regular { .. } => {},
        }
    }

    /// The files of the directory, after the hook of a special directory has
    /// refreshed its entries.
    pub fn files(&mut self) -> (r: &mut Vec<(Vec<u8>, File<H>)>)
        ensures
            match *old(self) {
                Directory::Regular { files, directories } => *r == files && *final(self) == (
                Directory::Regular { files: *final(r), directories }),
                Directory::Special { files, directories, update } => *final(self) matches Directory::Special {
                    files: f,
                    directories: d,
                    update: u,
                } && f == *final(r) && u == update && update.updates(files, directories, *r, d),
            },
    {
        match self {
            Directory::Regular { files, .. } => files,
            Directory::Special { files, directories, update } => {
                update.update(files, directories);
                files
            },
        }
    }

    /// The subdirectories of the directory, after the hook of a special
    /// directory has refreshed its entries.
    pub fn directories(&mut self) -> (r: &mut Vec<(Vec<u8>, Directory<H>)>)
        ensures
            match *old(self) {
                Directory::Regular { files, directories } => *r == directories && *final(self) == (
                Directory::Regular { files, directories: *final(r) }),
                Directory::Special { files, directories, update } => *final(self) matches Directory::Special {
                    files: f,
                    directories: d,
                    update: u,
                } && d == *final(r) && u == update && exists|f1: Vec<(Vec<u8>, File<H>)>, d1: Vec<(Vec<u8>, Directory<H>)>|
                    update.updates(files, directories, f1, d1) && #[trigger] update.updates(f1, d1, f, *r),
            },
    {
        self.update();
        match self {
            Directory::Regular { directories, .. } => directories,
            Directory::Special { files, directories, update } => {
                update.update(files, directories);
                directories
            },
        }
    }

    /// The directory at the names of `path` from position `from` on.
    fn directory_mut_impl(&mut self, path: &Vec<Vec<u8>>, from: usize) -> (r: Option<&mut Directory<H>>)
        requires
            from <= path@.len(),
        ensures
            old(self).view().regular_walk(names(path@).skip(from as int)) ==> match r {
                Some(d) => old(self).view().lookup_dir(names(path@).skip(from as int)) == Some(
                    (*d).view(),
                ) && final(self).view() == old(self).view().with_dir(
                    names(path@).skip(from as int),
                    (*final(d)).view(),
                ),
                None => old(self).view().lookup_dir(names(path@).skip(from as int)) is None
                    && final(self).view() == old(self).view(),
            },
        decreases path@.len() - from,
    {
        if from == path.len() {
            return Some(self);
        }
        broadcast use group_vfs_views;

        let ghost p = names(path@).skip(from as int);
        let ghost before = *self;
        let dirs = self.directories();
        proof {
            assert(p[0] == path@[from as int]@);
            assert(names(path@).skip(from + 1) =~= p.skip(1));
        }
        let name = path[from].as_slice();
        proof {
            assert(entry_names(dir_entries(dirs@)) == vec_entry_names(dirs@));
        }
        match find(dirs, name) {
            None => {
                proof {
                    if before.view().regular_walk(p) {
                        assert(before is Regular);
                        assert(before.view().dirs == dir_entries(dirs@));
                        assert(before.view().child(p[0]) is None);
                    }
                }
                None
            },
            Some(i) => {
                proof {
                    if before.view().regular_walk(p) {
                        assert(before is Regular);
                        assert(before.view().dirs == dir_entries(dirs@));
                        assert(index_of(before.view().dirs, p[0]) == i);
                        assert(before.view().child(p[0]) == Some(dirs@[i as int].1.view()));
                        assert(before.view().dirs.update(i as int, before.view().dirs[i as int])
                            =~= before.view().dirs);
                    }
                }
                let entry = &mut dirs[i];
                entry.1.directory_mut_impl(path, from + 1)
            },
        }
    }

    /// The file at the names of `path` from position `from` on.
    fn file_mut_impl(&mut self, path: &Vec<Vec<u8>>, from: usize) -> (r: Option<&mut File<H>>)
        requires
            from <= path@.len(),
        ensures
            old(self).view().regular_file_walk(names(path@).skip(from as int)) ==> match r {
                Some(f) => old(self).view().lookup_file(names(path@).skip(from as int)) == Some(*f)
                    && final(self).view() == old(self).view().with_file(
                    names(path@).skip(from as int),
                    *final(f),
                ),
                None => old(self).view().lookup_file(names(path@).skip(from as int)) is None
                    && final(self).view() == old(self).view(),
            },
        decreases path@.len() - from,
    {
        broadcast use group_vfs_views;

        if from == path.len() {
            return None;
        }
        let ghost p = names(path@).skip(from as int);
        let ghost before = *self;
        proof {
            assert(p[0] == path@[from as int]@);
            assert(names(path@).skip(from + 1) =~= p.skip(1));
        }
        let name = path[from].as_slice();
        if from + 1 == path.len() {
            let files = self.files();
            proof {
                assert(entry_names(file_entries(files@)) == vec_entry_names(files@));
            }
            match find(files, name) {
                None => None,
                Some(i) => {
                    proof {
                        if before.view().regular_file_walk(p) {
                            assert(before.view().files == file_entries(files@));
                            assert(before.view().files.update(i as int, before.view().files[i as int])
                                =~= before.view().files);
                        }
                    }
                    let entry = &mut files[i];
                    Some(&mut entry.1)
                },
            }
        } else {
            let dirs = self.directories();
            proof {
                assert(entry_names(dir_entries(dirs@)) == vec_entry_names(dirs@));
            }
            match find(dirs, name) {
                None => None,
                Some(i) => {
                    proof {
                        if before.view().regular_file_walk(p) {
                            assert(before.view().dirs == dir_entries(dirs@));
                            assert(before.view().dirs.update(i as int, before.view().dirs[i as int])
                                =~= before.view().dirs);
                        }
                    }
                    let entry = &mut dirs[i];
                    entry.1.file_mut_impl(path, from + 1)
                },
            }
        }
    }

    /// The directory at `path`, if there is one.
    fn directory_impl(&mut self, path: &Vec<Vec<u8>>) -> (r: Option<&Directory<H>>)
        ensures
            old(self).view().regular_walk(names(path@)) ==> final(self).view() == old(self).view()
                && match r {
                Some(d) => old(self).view().lookup_dir(names(path@)) == Some(d.view()),
                None => old(self).view().lookup_dir(names(path@)) is None,
            },
    {
        assert(names(path@).skip(0) =~= names(path@));
        match self.directory_mut_impl(path, 0) {
            Some(d) => {
                proof {
                    if old(self).view().regular_walk(names(path@)) {
                        lemma_with_dir_found(old(self).view(), names(path@));
                    }
                }
                Some(&*d)
            },
            None => None,
        }
    }

    /// The file at `path`, if there is one.
    fn file_impl(&mut self, path: &Vec<Vec<u8>>) -> (r: Option<&File<H>>)
        ensures
            old(self).view().regular_file_walk(names(path@)) ==> final(self).view() == old(self).view()
                && match r {
                Some(f) => old(self).view().lookup_file(names(path@)) == Some(*f),
                None => old(self).view().lookup_file(names(path@)) is None,
            },
    {
        assert(names(path@).skip(0) =~= names(path@));
        match self.file_mut_impl(path, 0) {
            Some(f) => {
                proof {
                    if old(self).view().regular_file_walk(names(path@)) {
                        lemma_with_file_found(old(self).view(), names(path@));
                    }
                }
                Some(&*f)
            },
            None => None,
        }
    }

    /// The directory at `path`; its components are separated by slashes.
    /// When every directory the walk looks into is regular, nothing changes.
    pub fn directory(&mut self, path: &str) -> (r: Option<&Directory<H>>)
        ensures
            old(self).view().regular_walk(path_components(path.spec_bytes())) ==> final(self).view()
                == old(self).view() && match r {
                Some(d) => old(self).view().lookup_dir(path_components(path.spec_bytes())) == Some(
                    d.view(),
                ),
                None => old(self).view().lookup_dir(path_components(path.spec_bytes())) is None,
            },
    {
        let components = split_path(path.as_bytes());
        self.directory_impl(&components)
    }

    /// Access to the directory at `path`; what is done to it is done to the
    /// directory in the tree.
    pub fn directory_mut(&mut self, path: &str) -> (r: Option<&mut Directory<H>>)
        ensures
            old(self).view().regular_walk(path_components(path.spec_bytes())) ==> match r {
                Some(d) => old(self).view().lookup_dir(path_components(path.spec_bytes())) == Some(
                    (*d).view(),
                ) && final(self).view() == old(self).view().with_dir(
                    path_components(path.spec_bytes()),
                    (*final(d)).view(),
                ),
                None => old(self).view().lookup_dir(path_components(path.spec_bytes())) is None
                    && final(self).view() == old(self).view(),
            },
    {
        let components = split_path(path.as_bytes());
        assert(names(components@).skip(0) =~= names(components@));
        self.directory_mut_impl(&components, 0)
    }

    /// The file at `path`; its components are separated by slashes, the last
    /// one names the file.  When every directory the walk looks into is
    /// regular, nothing changes.
    pub fn file(&mut self, path: &str) -> (r: Option<&File<H>>)
        ensures
            old(self).view().regular_file_walk(path_components(path.spec_bytes())) ==> final(self).view()
                == old(self).view() && match r {
                Some(f) => old(self).view().lookup_file(path_components(path.spec_bytes())) == Some(
                    *f,
                ),
                None => old(self).view().lookup_file(path_components(path.spec_bytes())) is None,
            },
    {
        let components = split_path(path.as_bytes());
        self.file_impl(&components)
    }

    /// Access to the file at `path`; what is done to it is done to the file
    /// in the tree.
    pub fn file_mut(&mut self, path: &str) -> (r: Option<&mut File<H>>)
        ensures
            old(self).view().regular_file_walk(path_components(path.spec_bytes())) ==> match r {
                Some(f) => old(self).view().lookup_file(path_components(path.spec_bytes())) == Some(
                    *f,
                ) && final(self).view() == old(self).view().with_file(
                    path_components(path.spec_bytes()),
                    *final(f),
                ),
                None => old(self).view().lookup_file(path_components(path.spec_bytes())) is None
                    && final(self).view() == old(self).view(),
            },
    {
        let components = split_path(path.as_bytes());
        assert(names(components@).skip(0) =~= names(components@));
        self.file_mut_impl(&components, 0)
    }

    /// Makes the directories along the names of `path` from position `from`
    /// on where they are missing, and gives access to the last one.
    fn create_directories_from(&mut self, path: &[&str], from: usize) -> (r: &mut Directory<H>)
        requires
            from <= path@.len(),
        ensures
            ({
                let p = str_names(path@).skip(from as int);
                let after = old(self).view().create_dirs(p);
                after.regular_walk(p) ==> after.lookup_dir(p) == Some((*r).view()) && final(self).view()
                    == after.with_dir(p, (*final(r)).view())
            }),
        decreases path@.len() - from,
    {
        broadcast use group_vfs_views;

        if from == path.len() {
            return self;
        }
        let ghost p = str_names(path@).skip(from as int);
        let ghost before = *self;
        proof {
            assert(p[0] == path@[from as int].spec_bytes());
            assert(str_names(path@).skip(from + 1) =~= p.skip(1));
        }
        let name = path[from].as_bytes();
        let dirs = self.directories();
        proof {
            assert(entry_names(dir_entries(dirs@)) == vec_entry_names(dirs@));
        }
        let i = match find(dirs, name) {
            Some(i) => {
                proof {
                    if before.view().create_dirs(p).regular_walk(p) {
                        assert(before.view().dirs == dir_entries(dirs@));
                        assert(index_of(before.view().dirs, p[0]) == i);
                        let after = before.view().create_dirs(p);
                        assert(entry_names(after.dirs) =~= entry_names(before.view().dirs));
                        assert(index_of(after.dirs, p[0]) == i);
                        assert(after.dirs[i as int].1 == dirs@[i as int].1.view().create_dirs(p.skip(1)));
                    }
                }
                i
            },
            None => {
                let j = insert_position(dirs, name);
                let ghost old_dirs = dirs@;
                dirs.insert(j, (bytes_to_vec(name), Directory::empty()));
                proof {
                    if before.view().create_dirs(p).regular_walk(p) {
                        assert(before.view().dirs == dir_entries(old_dirs));
                        let after = before.view().create_dirs(p);
                        assert(entry_names(after.dirs) =~= entry_names(before.view().dirs).insert(j as int, p[0]));
                        lemma_name_index_insert(entry_names(before.view().dirs), p[0], j as int);
                        assert(after.dirs == dir_entries(dirs@).update(j as int, (p[0], empty_dir::<H, File<H>>().create_dirs(p.skip(1)))));
                        assert(index_of(after.dirs, p[0]) == j);
                    }
                }
                j
            },
        };
        let entry = &mut dirs[i];
        entry.1.create_directories_from(path, from + 1)
    }

    /// Makes the directories along the names of `path` where they are
    /// missing, and gives access to the last one.  Each directory it makes is
    /// an empty regular one, put among its siblings in the order of names.
    pub fn create_directories(&mut self, path: &[&str]) -> (r: &mut Directory<H>)
        ensures
            ({
                let p = str_names(path@);
                let after = old(self).view().create_dirs(p);
                after.regular_walk(p) ==> after.lookup_dir(p) == Some((*r).view()) && final(self).view()
                    == after.with_dir(p, (*final(r)).view())
            }),
    {
        assert(str_names(path@).skip(0) =~= str_names(path@));
        self.create_directories_from(path, 0)
    }

    /// Puts `file` at the names of `path` from position `from` on, unless a
    /// file is there already, and gives access to the file there.
    fn create_file_(&mut self, path: &Vec<Vec<u8>>, from: usize, file: File<H>) -> (r: &mut File<H>)
        requires
            from < path@.len(),
        ensures
            ({
                let p = names(path@).skip(from as int);
                let after = old(self).view().create_file(p, file);
                after.regular_file_walk(p) ==> after.lookup_file(p) == Some(*r) && final(self).view()
                    == after.with_file(p, *final(r))
            }),
        decreases path@.len() - from,
    {
        broadcast use group_vfs_views;

        let ghost p = names(path@).skip(from as int);
        let ghost before = *self;
        proof {
            assert(p[0] == path@[from as int]@);
            assert(names(path@).skip(from + 1) =~= p.skip(1));
        }
        let name = path[from].as_slice();
        if path.len() - from == 1 {
            let files = self.files();
            proof {
                assert(entry_names(file_entries(files@)) == vec_entry_names(files@));
            }
            let i = match find(files, name) {
                Some(i) => {
                    proof {
                        if before.view().create_file(p, file).regular_file_walk(p) {
                            assert(before.view().files == file_entries(files@));
                        }
                    }
                    i
                },
                None => {
                    let j = insert_position(files, name);
                    let ghost old_files = files@;
                    files.insert(j, (bytes_to_vec(name), file));
                    proof {
                        if before.view().create_file(p, file).regular_file_walk(p) {
                            assert(before.view().files == file_entries(old_files));
                            let after = before.view().create_file(p, file);
                            assert(entry_names(after.files) =~= entry_names(before.view().files).insert(
                                j as int,
                                p[0],
                            ));
                            lemma_name_index_insert(entry_names(before.view().files), p[0], j as int);
                            assert(index_of(after.files, p[0]) == j);
                            assert(after.files == file_entries(files@));
                        }
                    }
                    j
                },
            };
            let entry = &mut files[i];
            &mut entry.1
        } else {
            let dirs = self.directories();
            proof {
                assert(entry_names(dir_entries(dirs@)) == vec_entry_names(dirs@));
            }
            let i = match find(dirs, name) {
                Some(i) => {
                    proof {
                        if before.view().create_file(p, file).regular_file_walk(p) {
                            assert(before.view().dirs == dir_entries(dirs@));
                            let after = before.view().create_file(p, file);
                            assert(entry_names(after.dirs) =~= entry_names(before.view().dirs));
                            assert(index_of(after.dirs, p[0]) == i);
                            assert(after.dirs[i as int].1 == dirs@[i as int].1.view().create_file(
                                p.skip(1),
                                file,
                            ));
                        }
                    }
                    i
                },
                None => {
                    let j = insert_position(dirs, name);
                    let ghost old_dirs = dirs@;
                    dirs.insert(j, (bytes_to_vec(name), Directory::empty()));
                    proof {
                        if before.view().create_file(p, file).regular_file_walk(p) {
                            assert(before.view().dirs == dir_entries(old_dirs));
                            let after = before.view().create_file(p, file);
                            assert(entry_names(after.dirs) =~= entry_names(before.view().dirs).insert(
                                j as int,
                                p[0],
                            ));
                            lemma_name_index_insert(entry_names(before.view().dirs), p[0], j as int);
                            assert(index_of(after.dirs, p[0]) == j);
                        }
                    }
                    j
                },
            };
            let entry = &mut dirs[i];
            entry.1.create_file_(path, from + 1, file)
        }
    }

    /// Puts `file` at `path`, unless a file is there already, and gives
    /// access to the file there.  The directories along the way are made
    /// where they are missing, each an empty regular one, and a new entry
    /// goes among its siblings in the order of names.  A path without
    /// components names no file.
    pub fn create_file(&mut self, path: &str, file: File<H>) -> (r: &mut File<H>)
        requires
            path_components(path.spec_bytes()).len() > 0,
        ensures
            ({
                let p = path_components(path.spec_bytes());
                let after = old(self).view().create_file(p, file);
                after.regular_file_walk(p) ==> after.lookup_file(p) == Some(*r) && final(self).view()
                    == after.with_file(p, *final(r))
            }),
    {
        let components = split_path(path.as_bytes());
        assert(names(components@).skip(0) =~= names(components@));
        self.create_file_(&components, 0, file)
    }
}

impl<H: Hooks + Copy> Directory<H> {
    /// Makes the directories along the names of `path` from position `from`
    /// on where they are missing, each an empty special directory with the
    /// hook `update`, and gives access to the last one.
    fn create_special_directory_(&mut self, path: &Vec<Vec<u8>>, from: usize, update: H) -> (r: &mut Directory<H>)
        requires
            from <= path@.len(),
        ensures
            ({
                let p = names(path@).skip(from as int);
                let after = old(self).view().create_special(p, update);
                after.regular_walk(p) ==> after.lookup_dir(p) == Some((*r).view()) && final(self).view()
                    == after.with_dir(p, (*final(r)).view())
            }),
        decreases path@.len() - from,
    {
        broadcast use group_vfs_views;

        if from == path.len() {
            return self;
        }
        let ghost p = names(path@).skip(from as int);
        let ghost before = *self;
        proof {
            assert(p[0] == path@[from as int]@);
            assert(names(path@).skip(from + 1) =~= p.skip(1));
        }
        let name = path[from].as_slice();
        let dirs = self.directories();
        proof {
            assert(entry_names(dir_entries(dirs@)) == vec_entry_names(dirs@));
        }
        let i = match find(dirs, name) {
            Some(i) => {
                proof {
                    if before.view().create_special(p, update).regular_walk(p) {
                        assert(before.view().dirs == dir_entries(dirs@));
                        let after = before.view().create_special(p, update);
                        assert(entry_names(after.dirs) =~= entry_names(before.view().dirs));
                        assert(index_of(after.dirs, p[0]) == i);
                        assert(after.dirs[i as int].1 == dirs@[i as int].1.view().create_special(
                            p.skip(1),
                            update,
                        ));
                    }
                }
                i
            },
            None => {
                let j = insert_position(dirs, name);
                let ghost old_dirs = dirs@;
                let fresh = Directory::Special { files: Vec::new(), directories: Vec::new(), update };
                proof {
                    assert(fresh.view().files =~= Seq::empty());
                    assert(fresh.view().dirs =~= Seq::empty());
                }
                dirs.insert(j, (bytes_to_vec(name), fresh));
                proof {
                    if before.view().create_special(p, update).regular_walk(p) {
                        assert(before.view().dirs == dir_entries(old_dirs));
                        let after = before.view().create_special(p, update);
                        assert(entry_names(after.dirs) =~= entry_names(before.view().dirs).insert(
                            j as int,
                            p[0],
                        ));
                        lemma_name_index_insert(entry_names(before.view().dirs), p[0], j as int);
                        assert(index_of(after.dirs, p[0]) == j);
                        assert(after.dirs[j as int].1 == dirs@[j as int].1.view().create_special(
                            p.skip(1),
                            update,
                        ));
                    }
                }
                j
            },
        };
        let entry = &mut dirs[i];
        entry.1.create_special_directory_(path, from + 1, update)
    }

    /// Makes the directories along `path` where they are missing, each an
    /// empty special directory with the hook `update`, and gives access to
    /// the last one.  A path without components names no directory to make.
    pub fn create_special_directory(&mut self, name: &str, update: H) -> (r: &mut Directory<H>)
        requires
            path_components(name.spec_bytes()).len() > 0,
        ensures
            ({
                let p = path_components(name.spec_bytes());
                let after = old(self).view().create_special(p, update);
                after.regular_walk(p) ==> after.lookup_dir(p) == Some((*r).view()) && final(self).view()
                    == after.with_dir(p, (*final(r)).view())
            }),
    {
        let components = split_path(name.as_bytes());
        assert(names(components@).skip(0) =~= names(components@));
        self.create_special_directory_(&components, 0, update)
    }
}

impl<H: Hooks> File<H> {
    /// A regular file with `contents`.
    pub fn regular(contents: Vec<u8>) -> (r: Self)
        ensures
            r matches File::Regular { contents: c } && c@ == contents@,
    {
        File::Regular { contents }
    }

    /// A special file whose contents the hook `read` computes.
    pub fn special(read: H) -> (r: Self)
        ensures
            r == (File::Special { read }),
    {
        File::Special { read }
    }

    /// A stream file for streams of `stream_type`.
    pub fn stream(stream_type: StreamType) -> (r: Self)
        ensures
            r == (File::<H>::Stream { stream_type }),
    {
        File::Stream { stream_type }
    }

    /// Writes the contents of the file from `offset` on to `writer`, and
    /// gives back what the write gave back and the writer.  A regular file
    /// writes its contents after the first `offset` bytes in one write.  A
    /// special file hands its hook the writer behind an [`Ignorer`] that
    /// drops the first `offset` bytes, and offset 0.  A stream cannot be read.
    pub fn read<W: Write>(&self, offset: usize, writer: W) -> (r: (Result<usize, WriterError>, W))
        requires
            !(self is Stream),
            self matches File::Regular { contents } ==> offset <= contents@.len(),
        ensures
            self matches File::Regular { contents } ==> W::writes(writer, contents@.skip(offset as int), r.1, r.0),
            self is Special ==> exists|after: Ignorer<W>|
                #[trigger] self->read.reads(*self, 0, Ignorer::of(offset, writer), after, r.0) && r.1 == after.inner(),
    {
        match self {
            File::Regular { contents } => {
                let rest = slice_skip(contents.as_slice(), offset);
                let mut writer = writer;
                let result = writer.write(rest.as_slice());
                (result, writer)
            },
            File::Special { read } => {
                let ghost start = Ignorer::of(offset, writer);
                let mut ignorer = Ignorer::ignoring(offset, writer);
                let result = read.read(self, 0, &mut ignorer);
                assert(read.reads(*self, 0, start, ignorer, result));
                let inner = ignorer.into_inner();
                let r = (result, inner);
                assert(*read == self->read);
                assert(r.0 == result && r.1 == inner);
                assert(exists|after: Ignorer<W>|
                    #[trigger] self->read.reads(*self, 0, Ignorer::of(offset, writer), after, r.0) && r.1 == after.inner());
                r
            },
            File::Stream { .. } => {
                proof {
                    assert(false);
                }
                (Ok(0), writer)
            },
        }
    }
}

impl<H: Hooks> Directory<H> {
    /// A regular root directory with an empty regular directory for each of
    /// `directories`, in the order of names.
    pub fn new(directories: &[&str]) -> (r: Self)
        ensures
            r.view() == new_tree::<H, File<H>>(str_names(directories@)),
            sorted_tree(r.view()),
    {
        proof {
            lemma_new_tree_sorted::<H, File<H>>(str_names(directories@));
        }
        let mut root = Directory::empty();
        let mut i: usize = 0;
        while i < directories.len()
            invariant
                i <= directories@.len(),
                root.view() == new_tree::<H, File<H>>(str_names(directories@).take(i as int)),
            decreases directories@.len() - i,
        {
            let one = vec![directories[i]];
            proof {
                lemma_new_tree_regular::<H, File<H>>(str_names(directories@).take(i as int));
                assert(str_names(one@) =~= seq![directories@[i as int].spec_bytes()]);
                assert(str_names(directories@).take(i + 1).drop_last() =~= str_names(directories@).take(i as int));
                lemma_create_dirs_walk(root.view(), str_names(one@));
            }
            let ghost before = root.view();
            let d = root.create_directories(one.as_slice());
            proof {
                lemma_with_dir_found(before.create_dirs(str_names(one@)), str_names(one@));
            }
            i = i + 1;
        }
        assert(str_names(directories@).take(i as int) =~= str_names(directories@));
        root
    }
}

/// The tree that `Directory::new` makes: a directory for each name, made in turn.
pub open spec fn new_tree<H, F>(names: Seq<Seq<u8>>) -> TreeView<H, F>
    decreases names.len(),
{
    if names.len() == 0 {
        empty_dir()
    } else {
        new_tree::<H, F>(names.drop_last()).create_dirs(seq![names.last()])
    }
}

/// The tree that `Directory::new` makes is regular.
proof fn lemma_new_tree_regular<H, F>(names: Seq<Seq<u8>>)
    ensures
        new_tree::<H, F>(names).is_regular(),
    decreases names.len(),
{
    if names.len() > 0 {
        lemma_new_tree_regular::<H, F>(names.drop_last());
    }
}

/// Making a single directory in a regular directory looks only at that directory.
proof fn lemma_create_dirs_walk<H, F>(v: TreeView<H, F>, p: Seq<Seq<u8>>)
    requires
        v.is_regular(),
        p.len() == 1,
    ensures
        v.create_dirs(p).regular_walk(p),
{
    assert(p.skip(1) =~= Seq::<Seq<u8>>::empty());
    let c = v.create_dirs(p).child(p[0]);
    if c is Some {
        assert(c.unwrap().regular_walk(p.skip(1)));
    }
}

/// An empty directory holds no file.
pub(crate) proof fn lemma_empty_has_no_file<H, F>(p: Seq<Seq<u8>>)
    ensures
        empty_dir::<H, F>().lookup_file(p) is None,
{
    lemma_name_index(entry_names(empty_dir::<H, F>().files), if p.len() > 0 { p[0] } else { Seq::empty() });
    lemma_name_index(entry_names(empty_dir::<H, F>().dirs), if p.len() > 0 { p[0] } else { Seq::empty() });
}

/// After a new entry is put at its place, its name is found there.
pub(crate) proof fn lemma_insert_entry_found<V>(entries: Seq<(Seq<u8>, V)>, name: Seq<u8>, v: V)
    requires
        index_of(entries, name) == -1,
    ensures
        index_of(insert_entry(entries, name, v), name) == insert_pos(entry_names(entries), name),
        0 <= insert_pos(entry_names(entries), name) <= entries.len(),
        insert_entry(entries, name, v)[insert_pos(entry_names(entries), name)] == (name, v),
{
    let names = entry_names(entries);
    let j = insert_pos(names, name);
    if exists|k: int| is_first_after(names, name, k) {
        let k = choose|k: int| is_first_after(names, name, k);
        assert(0 <= k < names.len());
    }
    assert(entry_names(insert_entry(entries, name, v)) =~= names.insert(j, name));
    lemma_name_index_insert(names, name, j);
}

/// Replacing entries keeps the positions of names.
proof fn lemma_index_of_update<V>(entries: Seq<(Seq<u8>, V)>, i: int, name: Seq<u8>, v: V, other: Seq<u8>)
    requires
        0 <= i < entries.len(),
        entries[i].0 == name,
    ensures
        index_of(entries.update(i, (name, v)), other) == index_of(entries, other),
{
    assert(entry_names(entries.update(i, (name, v))) =~= entry_names(entries));
}

/// What `create_file` puts at a path is found there: the file that was
/// there already, or else the new one.  A walk that looked only into
/// regular directories still does.
pub proof fn lemma_create_file_found<H, F>(v: TreeView<H, F>, p: Seq<Seq<u8>>, f: F)
    requires
        p.len() > 0,
    ensures
        v.create_file(p, f).lookup_file(p) == (match v.lookup_file(p) {
            Some(old) => Some(old),
            None => Some(f),
        }),
        v.regular_file_walk(p) ==> v.create_file(p, f).regular_file_walk(p),
    decreases p.len(),
{
    let after = v.create_file(p, f);
    if p.len() == 1 {
        let i = index_of(v.files, p[0]);
        lemma_name_index(entry_names(v.files), p[0]);
        if i < 0 {
            lemma_insert_entry_found(v.files, p[0], f);
        }
    } else {
        let i = index_of(v.dirs, p[0]);
        lemma_name_index(entry_names(v.dirs), p[0]);
        if i >= 0 {
            let c = v.dirs[i].1;
            lemma_create_file_found(c, p.skip(1), f);
            lemma_index_of_update(v.dirs, i, p[0], c.create_file(p.skip(1), f), p[0]);
            assert(after.child(p[0]) == Some(c.create_file(p.skip(1), f)));
        } else {
            lemma_create_file_found(empty_dir::<H, F>(), p.skip(1), f);
            lemma_empty_has_no_file::<H, F>(p.skip(1));
            lemma_insert_entry_found(v.dirs, p[0], empty_dir::<H, F>().create_file(p.skip(1), f));
            assert(after.child(p[0]) == Some(empty_dir::<H, F>().create_file(p.skip(1), f)));
            assert(empty_dir::<H, F>().regular_file_walk(p.skip(1)) ==> empty_dir::<H, F>().create_file(
                p.skip(1),
                f,
            ).regular_file_walk(p.skip(1)));
            lemma_empty_walks::<H, F>(p.skip(1));
        }
    }
}

/// Every walk in an empty regular directory looks only into regular ones.
pub(crate) proof fn lemma_empty_walks<H, F>(p: Seq<Seq<u8>>)
    ensures
        empty_dir::<H, F>().regular_file_walk(p),
        empty_dir::<H, F>().regular_walk(p),
{
    if p.len() > 0 {
        lemma_name_index(entry_names(empty_dir::<H, F>().dirs), p[0]);
    }
}

/// After `create_dirs`, there is a directory at the path; where there was
/// one already, nothing changed.  A walk that looked only into regular
/// directories still does.
pub proof fn lemma_create_dirs_found<H, F>(v: TreeView<H, F>, p: Seq<Seq<u8>>)
    ensures
        v.create_dirs(p).lookup_dir(p) is Some,
        v.lookup_dir(p) is Some ==> v.create_dirs(p) == v,
        v.regular_walk(p) ==> v.create_dirs(p).regular_walk(p),
    decreases p.len(),
{
    if p.len() > 0 {
        let after = v.create_dirs(p);
        let i = index_of(v.dirs, p[0]);
        lemma_name_index(entry_names(v.dirs), p[0]);
        if i >= 0 {
            let c = v.dirs[i].1;
            lemma_create_dirs_found(c, p.skip(1));
            lemma_index_of_update(v.dirs, i, p[0], c.create_dirs(p.skip(1)), p[0]);
            assert(after.child(p[0]) == Some(c.create_dirs(p.skip(1))));
            if v.lookup_dir(p) is Some {
                assert(v.dirs.update(i, (p[0], c)) =~= v.dirs);
            }
        } else {
            lemma_create_dirs_found(empty_dir::<H, F>(), p.skip(1));
            lemma_insert_entry_found(v.dirs, p[0], empty_dir::<H, F>().create_dirs(p.skip(1)));
            assert(after.child(p[0]) == Some(empty_dir::<H, F>().create_dirs(p.skip(1))));
            lemma_empty_walks::<H, F>(p.skip(1));
        }
    }
}

/// Replacing the entry of one name keeps where every other name is found
/// and what is found there.
proof fn lemma_update_other<V>(entries: Seq<(Seq<u8>, V)>, i: int, name: Seq<u8>, v: V, q: Seq<u8>)
    requires
        0 <= i < entries.len(),
        entries[i].0 == name,
        q != name,
    ensures
        index_of(entries.update(i, (name, v)), q) == index_of(entries, q),
        index_of(entries, q) >= 0 ==> entries.update(i, (name, v))[index_of(entries, q)] == entries[index_of(entries, q)],
{
    lemma_index_of_update(entries, i, name, v, q);
    lemma_name_index(entry_names(entries), q);
}

/// Putting a new entry at its place keeps what every other name finds.
proof fn lemma_insert_entry_other<V>(entries: Seq<(Seq<u8>, V)>, name: Seq<u8>, v: V, q: Seq<u8>)
    requires
        q != name,
    ensures
        (index_of(insert_entry(entries, name, v), q) >= 0) == (index_of(entries, q) >= 0),
        index_of(entries, q) >= 0 ==> insert_entry(entries, name, v)[index_of(insert_entry(entries, name, v), q)]
            == entries[index_of(entries, q)],
{
    let names = entry_names(entries);
    let j = insert_pos(names, name);
    if exists|k: int| is_first_after(names, name, k) {
        let k = choose|k: int| is_first_after(names, name, k);
        assert(0 <= k < names.len());
    }
    let new = insert_entry(entries, name, v);
    let new_names = entry_names(new);
    assert(new_names =~= names.insert(j, name));
    lemma_name_index(names, q);
    lemma_name_index(new_names, q);
    let k = name_index(names, q);
    if k >= 0 {
        let k2 = if k < j { k } else { k + 1 };
        assert forall|m: int| 0 <= m < k2 implies #[trigger] new_names[m] != q by {
            if m < j {
                assert(new_names[m] == names[m]);
            } else if m > j {
                assert(new_names[m] == names[m - 1]);
            }
        }
        assert(new_names[k2] == q);
        lemma_name_index_is(new_names, q, k2);
    } else {
        if name_index(new_names, q) >= 0 {
            let m = name_index(new_names, q);
            if m < j {
                assert(names[m] == q);
            } else if m > j {
                assert(names[m - 1] == q);
            }
        }
    }
}

/// Putting a file at `p` changes no file at any other path.
pub proof fn lemma_create_file_frame<H, F>(v: TreeView<H, F>, p: Seq<Seq<u8>>, f: F, q: Seq<Seq<u8>>)
    requires
        p.len() > 0,
        q != p,
    ensures
        v.create_file(p, f).lookup_file(q) == v.lookup_file(q),
    decreases p.len(),
{
    let after = v.create_file(p, f);
    if q.len() == 0 {
    } else if p.len() == 1 {
        if q.len() == 1 {
            assert(q[0] != p[0]) by {
                if q[0] == p[0] {
                    assert(q =~= p);
                }
            }
            let i = index_of(v.files, p[0]);
            lemma_name_index(entry_names(v.files), p[0]);
            if i < 0 {
                lemma_insert_entry_other(v.files, p[0], f, q[0]);
            }
        }
    } else {
        {
            let i = index_of(v.dirs, p[0]);
            lemma_name_index(entry_names(v.dirs), p[0]);
            if q.len() >= 2 {
                if q[0] != p[0] {
                    if i >= 0 {
                        lemma_update_other(v.dirs, i, p[0], v.dirs[i].1.create_file(p.skip(1), f), q[0]);
                    } else {
                        lemma_insert_entry_other(v.dirs, p[0], empty_dir::<H, F>().create_file(p.skip(1), f), q[0]);
                    }
                } else {
                    assert(q.skip(1) != p.skip(1)) by {
                        if q.skip(1) == p.skip(1) {
                            assert forall|k: int| 0 <= k < q.len() implies q[k] == p[k] by {
                                if k > 0 {
                                    assert(q.skip(1)[k - 1] == p.skip(1)[k - 1]);
                                }
                            }
                            assert(q =~= p);
                        }
                    }
                    if i >= 0 {
                        let c = v.dirs[i].1;
                        lemma_index_of_update(v.dirs, i, p[0], c.create_file(p.skip(1), f), p[0]);
                        lemma_create_file_frame(c, p.skip(1), f, q.skip(1));
                    } else {
                        lemma_insert_entry_found(v.dirs, p[0], empty_dir::<H, F>().create_file(p.skip(1), f));
                        lemma_create_file_frame(empty_dir::<H, F>(), p.skip(1), f, q.skip(1));
                        lemma_empty_has_no_file::<H, F>(q.skip(1));
                    }
                }
            }
        }
    }
}

/// After the file at `p` is replaced by `g`, looking up `p` finds `g`,
/// looking up any other path finds what it found before, and a directory
/// is found at every path where one was found before, and only there.
pub proof fn lemma_with_file_lookup<H, F>(v: TreeView<H, F>, p: Seq<Seq<u8>>, g: F, q: Seq<Seq<u8>>)
    requires
        v.lookup_file(p) is Some,
    ensures
        v.with_file(p, g).lookup_file(p) == Some(g),
        q != p ==> v.with_file(p, g).lookup_file(q) == v.lookup_file(q),
        (v.with_file(p, g).lookup_dir(q) is Some) == (v.lookup_dir(q) is Some),
    decreases p.len(),
{
    let after = v.with_file(p, g);
    if p.len() == 1 {
        let i = index_of(v.files, p[0]);
        lemma_name_index(entry_names(v.files), p[0]);
        lemma_index_of_update(v.files, i, p[0], g, p[0]);
        assert(after.dirs == v.dirs);
        if q.len() == 1 && q != p {
            assert(q[0] != p[0]) by {
                if q[0] == p[0] {
                    assert(q =~= p);
                }
            }
            lemma_update_other(v.files, i, p[0], g, q[0]);
        }
        if q.len() > 0 {
            assert(after.child(q[0]) == v.child(q[0]));
        }
    } else {
        let i = index_of(v.dirs, p[0]);
        lemma_name_index(entry_names(v.dirs), p[0]);
        let c = v.dirs[i].1;
        let c2 = c.with_file(p.skip(1), g);
        lemma_index_of_update(v.dirs, i, p[0], c2, p[0]);
        assert(after.child(p[0]) == Some(c2));
        lemma_with_file_lookup(c, p.skip(1), g, p.skip(1));
        if q.len() > 0 {
            if q[0] != p[0] {
                lemma_update_other(v.dirs, i, p[0], c2, q[0]);
                assert(after.child(q[0]) == v.child(q[0]));
            } else {
                assert(v.child(q[0]) == Some(c));
                assert(q != p ==> q.skip(1) != p.skip(1)) by {
                    if q != p && q.skip(1) == p.skip(1) {
                        assert forall|k: int| 0 <= k < q.len() implies q[k] == p[k] by {
                            if k > 0 {
                                assert(q.skip(1)[k - 1] == p.skip(1)[k - 1]);
                            }
                        }
                        assert(q =~= p);
                    }
                }
                lemma_with_file_lookup(c, p.skip(1), g, q.skip(1));
            }
        }
    }
}

/// Making the directories along `p` a second time changes nothing.
pub proof fn lemma_create_dirs_twice<H, F>(v: TreeView<H, F>, p: Seq<Seq<u8>>)
    ensures
        v.create_dirs(p).create_dirs(p) == v.create_dirs(p),
{
    lemma_create_dirs_found(v, p);
    lemma_create_dirs_found(v.create_dirs(p), p);
}

/// Making the directories along `p` touches no file: every path finds the
/// file it found before.
pub proof fn lemma_create_dirs_keeps_files<H, F>(v: TreeView<H, F>, p: Seq<Seq<u8>>, q: Seq<Seq<u8>>)
    ensures
        v.create_dirs(p).lookup_file(q) == v.lookup_file(q),
    decreases p.len(),
{
    let after = v.create_dirs(p);
    if p.len() > 0 && q.len() >= 2 {
        let i = index_of(v.dirs, p[0]);
        lemma_name_index(entry_names(v.dirs), p[0]);
        if q[0] != p[0] {
            if i >= 0 {
                lemma_update_other(v.dirs, i, p[0], v.dirs[i].1.create_dirs(p.skip(1)), q[0]);
            } else {
                lemma_insert_entry_other(v.dirs, p[0], empty_dir::<H, F>().create_dirs(p.skip(1)), q[0]);
            }
            assert(after.child(q[0]) == v.child(q[0]));
        } else if i >= 0 {
            let c = v.dirs[i].1;
            lemma_index_of_update(v.dirs, i, p[0], c.create_dirs(p.skip(1)), p[0]);
            lemma_create_dirs_keeps_files(c, p.skip(1), q.skip(1));
        } else {
            lemma_insert_entry_found(v.dirs, p[0], empty_dir::<H, F>().create_dirs(p.skip(1)));
            lemma_create_dirs_keeps_files(empty_dir::<H, F>(), p.skip(1), q.skip(1));
            lemma_empty_has_no_file::<H, F>(q.skip(1));
        }
    }
}

/// Whether the names `names` come in strictly increasing order, so that
/// none occurs twice.
pub open spec fn sorted_names(names: Seq<Seq<u8>>) -> bool {
    forall|i: int, j: int| 0 <= i < j < names.len() ==> bytes_lt(#[trigger] names[i], #[trigger] names[j])
}

/// Whether every directory of the tree `v` keeps the names of its files,
/// and those of its subdirectories, in strictly increasing order.
pub open spec fn sorted_tree<H, F>(v: TreeView<H, F>) -> bool
    decreases v,
{
    &&& sorted_names(entry_names(v.files))
    &&& sorted_names(entry_names(v.dirs))
    &&& forall|i: int| 0 <= i < v.dirs.len() ==> sorted_tree(#[trigger] v.dirs[i].1)
}

/// No byte string comes before itself.
pub proof fn lemma_bytes_lt_irreflexive(a: Seq<u8>)
    ensures
        !bytes_lt(a, a),
{
}

/// The order of byte strings is transitive.
pub proof fn lemma_bytes_lt_transitive(a: Seq<u8>, b: Seq<u8>, c: Seq<u8>)
    requires
        bytes_lt(a, b),
        bytes_lt(b, c),
    ensures
        bytes_lt(a, c),
{
    let k1 = choose|k: int|
        0 <= k <= a.len() && k <= b.len() && #[trigger] a.take(k) == b.take(k) && ((k == a.len() && k
            < b.len()) || (k < a.len() && k < b.len() && a[k] < b[k]));
    let k2 = choose|k: int|
        0 <= k <= b.len() && k <= c.len() && #[trigger] b.take(k) == c.take(k) && ((k == b.len() && k
            < c.len()) || (k < b.len() && k < c.len() && b[k] < c[k]));
    if k1 <= k2 {
        assert(a.take(k1) =~= c.take(k1)) by {
            assert forall|m: int| 0 <= m < k1 implies a.take(k1)[m] == c.take(k1)[m] by {
                assert(a.take(k1)[m] == b.take(k1)[m]);
                assert(b.take(k2)[m] == c.take(k2)[m]);
            }
        }
        if k1 < k2 {
            assert(b.take(k2)[k1] == c.take(k2)[k1]);
        }
        assert(bytes_lt(a, c));
    } else {
        assert(a.take(k2) =~= c.take(k2)) by {
            assert forall|m: int| 0 <= m < k2 implies a.take(k2)[m] == c.take(k2)[m] by {
                assert(a.take(k1)[m] == b.take(k1)[m]);
                assert(b.take(k2)[m] == c.take(k2)[m]);
            }
        }
        assert(a.take(k1)[k2] == b.take(k1)[k2]);
        assert(bytes_lt(a, c));
    }
}

/// Two byte strings that agree on their first `k` bytes are equal, or one
/// comes before the other.
proof fn lemma_bytes_lt_total_from(a: Seq<u8>, b: Seq<u8>, k: int)
    requires
        0 <= k <= a.len(),
        k <= b.len(),
        a.take(k) == b.take(k),
    ensures
        a == b || bytes_lt(a, b) || bytes_lt(b, a),
    decreases a.len() - k,
{
    if k == a.len() && k == b.len() {
        assert(a =~= a.take(k));
        assert(b =~= b.take(k));
    } else if k == a.len() {
        assert(bytes_lt(a, b));
    } else if k == b.len() {
        assert(b.take(k) == a.take(k));
        assert(bytes_lt(b, a));
    } else if a[k] < b[k] {
        assert(bytes_lt(a, b));
    } else if b[k] < a[k] {
        assert(b.take(k) == a.take(k));
        assert(bytes_lt(b, a));
    } else {
        assert(a.take(k + 1) =~= b.take(k + 1)) by {
            assert forall|m: int| 0 <= m < k + 1 implies #[trigger] a.take(k + 1)[m] == b.take(k + 1)[m] by {
                if m < k {
                    assert(a.take(k)[m] == b.take(k)[m]);
                }
            }
        }
        lemma_bytes_lt_total_from(a, b, k + 1);
    }
}

/// Of two different byte strings, one comes before the other.
pub proof fn lemma_bytes_lt_total(a: Seq<u8>, b: Seq<u8>)
    requires
        a != b,
    ensures
        bytes_lt(a, b) || bytes_lt(b, a),
{
    assert(a.take(0) =~= b.take(0));
    lemma_bytes_lt_total_from(a, b, 0);
}

/// A name that comes before some name of `names` comes before a first one.
proof fn lemma_first_after_exists(names: Seq<Seq<u8>>, name: Seq<u8>, a: int)
    requires
        0 <= a < names.len(),
        bytes_lt(name, names[a]),
    ensures
        exists|k: int| is_first_after(names, name, k),
    decreases a,
{
    if exists|b: int| 0 <= b < a && bytes_lt(name, #[trigger] names[b]) {
        let b = choose|b: int| 0 <= b < a && bytes_lt(name, #[trigger] names[b]);
        lemma_first_after_exists(names, name, b);
    } else {
        assert(is_first_after(names, name, a));
    }
}

/// Putting an entry whose name is new at its place keeps the names of
/// `entries` in strictly increasing order.
pub proof fn lemma_insert_entry_sorted<V>(entries: Seq<(Seq<u8>, V)>, name: Seq<u8>, v: V)
    requires
        sorted_names(entry_names(entries)),
        index_of(entries, name) == -1,
    ensures
        sorted_names(entry_names(insert_entry(entries, name, v))),
{
    let names = entry_names(entries);
    let j = insert_pos(names, name);
    lemma_name_index(names, name);
    if exists|k: int| is_first_after(names, name, k) {
        let k = choose|k: int| is_first_after(names, name, k);
        assert(0 <= k < names.len());
    }
    let new_names = entry_names(insert_entry(entries, name, v));
    assert(new_names =~= names.insert(j, name));
    assert forall|a: int| 0 <= a < j implies bytes_lt(#[trigger] names[a], name) by {
        assert(names[a] != name);
        if bytes_lt(name, names[a]) {
            lemma_first_after_exists(names, name, a);
            assert(is_first_after(names, name, j));
        }
        lemma_bytes_lt_total(names[a], name);
    }
    assert forall|a: int| j <= a < names.len() implies bytes_lt(name, #[trigger] names[a]) by {
        assert(is_first_after(names, name, j));
        if a > j {
            lemma_bytes_lt_transitive(name, names[j], names[a]);
        }
    }
    assert forall|a: int, b: int| 0 <= a < b < new_names.len() implies bytes_lt(
        #[trigger] new_names[a],
        #[trigger] new_names[b],
    ) by {
        if b < j {
            assert(bytes_lt(names[a], names[b]));
        } else if b == j {
            assert(bytes_lt(names[a], name));
        } else if a < j {
            lemma_bytes_lt_transitive(names[a], name, names[b - 1]);
        } else if a == j {
            assert(bytes_lt(name, names[b - 1]));
        } else {
            assert(bytes_lt(names[a - 1], names[b - 1]));
        }
    }
}

/// Replacing what an entry holds keeps the names.
proof fn lemma_update_entry_sorted<V>(entries: Seq<(Seq<u8>, V)>, i: int, v: V)
    requires
        0 <= i < entries.len(),
    ensures
        entry_names(entries.update(i, (entries[i].0, v))) == entry_names(entries),
{
    assert(entry_names(entries.update(i, (entries[i].0, v))) =~= entry_names(entries));
}

/// An empty directory is sorted.
pub proof fn lemma_empty_sorted<H, F>()
    ensures
        sorted_tree(empty_dir::<H, F>()),
{
    assert(entry_names(empty_dir::<H, F>().files) =~= Seq::<Seq<u8>>::empty());
    assert(entry_names(empty_dir::<H, F>().dirs) =~= Seq::<Seq<u8>>::empty());
}

/// Making the directories along `p` keeps a tree sorted.
pub proof fn lemma_create_dirs_sorted<H, F>(v: TreeView<H, F>, p: Seq<Seq<u8>>)
    requires
        sorted_tree(v),
    ensures
        sorted_tree(v.create_dirs(p)),
    decreases p.len(),
{
    if p.len() > 0 {
        let after = v.create_dirs(p);
        let i = index_of(v.dirs, p[0]);
        lemma_name_index(entry_names(v.dirs), p[0]);
        if i >= 0 {
            let c = v.dirs[i].1;
            lemma_create_dirs_sorted(c, p.skip(1));
            lemma_update_entry_sorted(v.dirs, i, c.create_dirs(p.skip(1)));
            assert forall|k: int| 0 <= k < after.dirs.len() implies sorted_tree(#[trigger] after.dirs[k].1) by {
                if k != i {
                    assert(after.dirs[k] == v.dirs[k]);
                }
            }
        } else {
            let n = empty_dir::<H, F>().create_dirs(p.skip(1));
            lemma_empty_sorted::<H, F>();
            lemma_create_dirs_sorted(empty_dir::<H, F>(), p.skip(1));
            lemma_insert_entry_sorted(v.dirs, p[0], n);
            let j = insert_pos(entry_names(v.dirs), p[0]);
            lemma_insert_entry_found(v.dirs, p[0], n);
            assert forall|k: int| 0 <= k < after.dirs.len() implies sorted_tree(#[trigger] after.dirs[k].1) by {
                if k < j {
                    assert(after.dirs[k] == v.dirs[k]);
                } else if k > j {
                    assert(after.dirs[k] == v.dirs[k - 1]);
                }
            }
        }
    }
}

/// A directory without entries is sorted.
proof fn lemma_bare_sorted<H, F>(v: TreeView<H, F>)
    requires
        v.files.len() == 0,
        v.dirs.len() == 0,
    ensures
        sorted_tree(v),
{
    assert(entry_names(v.files) =~= Seq::<Seq<u8>>::empty());
    assert(entry_names(v.dirs) =~= Seq::<Seq<u8>>::empty());
}

/// Putting a file at `p` keeps a tree sorted.
pub proof fn lemma_create_file_sorted<H, F>(v: TreeView<H, F>, p: Seq<Seq<u8>>, f: F)
    requires
        sorted_tree(v),
    ensures
        sorted_tree(v.create_file(p, f)),
    decreases p.len(),
{
    let after = v.create_file(p, f);
    if p.len() == 1 {
        lemma_name_index(entry_names(v.files), p[0]);
        if index_of(v.files, p[0]) < 0 {
            lemma_insert_entry_sorted(v.files, p[0], f);
        }
    } else if p.len() > 1 {
        let i = index_of(v.dirs, p[0]);
        lemma_name_index(entry_names(v.dirs), p[0]);
        if i >= 0 {
            let c = v.dirs[i].1;
            lemma_create_file_sorted(c, p.skip(1), f);
            lemma_update_entry_sorted(v.dirs, i, c.create_file(p.skip(1), f));
            assert forall|k: int| 0 <= k < after.dirs.len() implies sorted_tree(#[trigger] after.dirs[k].1) by {
                if k != i {
                    assert(after.dirs[k] == v.dirs[k]);
                }
            }
        } else {
            let n = empty_dir::<H, F>().create_file(p.skip(1), f);
            lemma_empty_sorted::<H, F>();
            lemma_create_file_sorted(empty_dir::<H, F>(), p.skip(1), f);
            lemma_insert_entry_sorted(v.dirs, p[0], n);
            let j = insert_pos(entry_names(v.dirs), p[0]);
            lemma_insert_entry_found(v.dirs, p[0], n);
            assert forall|k: int| 0 <= k < after.dirs.len() implies sorted_tree(#[trigger] after.dirs[k].1) by {
                if k < j {
                    assert(after.dirs[k] == v.dirs[k]);
                } else if k > j {
                    assert(after.dirs[k] == v.dirs[k - 1]);
                }
            }
        }
    }
}

/// Making special directories along `p` keeps a tree sorted.
pub proof fn lemma_create_special_sorted<H, F>(v: TreeView<H, F>, p: Seq<Seq<u8>>, hook: H)
    requires
        sorted_tree(v),
    ensures
        sorted_tree(v.create_special(p, hook)),
    decreases p.len(),
{
    if p.len() > 0 {
        let after = v.create_special(p, hook);
        let i = index_of(v.dirs, p[0]);
        lemma_name_index(entry_names(v.dirs), p[0]);
        if i >= 0 {
            let c = v.dirs[i].1;
            lemma_create_special_sorted(c, p.skip(1), hook);
            lemma_update_entry_sorted(v.dirs, i, c.create_special(p.skip(1), hook));
            assert forall|k: int| 0 <= k < after.dirs.len() implies sorted_tree(#[trigger] after.dirs[k].1) by {
                if k != i {
                    assert(after.dirs[k] == v.dirs[k]);
                }
            }
        } else {
            let bare = TreeView::<H, F> { hook: Some(hook), files: Seq::empty(), dirs: Seq::empty() };
            let n = bare.create_special(p.skip(1), hook);
            lemma_bare_sorted(bare);
            lemma_create_special_sorted(bare, p.skip(1), hook);
            lemma_insert_entry_sorted(v.dirs, p[0], n);
            let j = insert_pos(entry_names(v.dirs), p[0]);
            lemma_insert_entry_found(v.dirs, p[0], n);
            assert forall|k: int| 0 <= k < after.dirs.len() implies sorted_tree(#[trigger] after.dirs[k].1) by {
                if k < j {
                    assert(after.dirs[k] == v.dirs[k]);
                } else if k > j {
                    assert(after.dirs[k] == v.dirs[k - 1]);
                }
            }
        }
    }
}

/// Replacing the file at `p` keeps a tree sorted.
pub proof fn lemma_with_file_sorted<H, F>(v: TreeView<H, F>, p: Seq<Seq<u8>>, g: F)
    requires
        sorted_tree(v),
    ensures
        sorted_tree(v.with_file(p, g)),
    decreases p.len(),
{
    let after = v.with_file(p, g);
    if p.len() == 1 {
        let i = index_of(v.files, p[0]);
        lemma_name_index(entry_names(v.files), p[0]);
        if i >= 0 {
            lemma_update_entry_sorted(v.files, i, g);
        }
    } else if p.len() > 1 {
        let i = index_of(v.dirs, p[0]);
        lemma_name_index(entry_names(v.dirs), p[0]);
        if i >= 0 {
            let c = v.dirs[i].1;
            lemma_with_file_sorted(c, p.skip(1), g);
            lemma_update_entry_sorted(v.dirs, i, c.with_file(p.skip(1), g));
            assert forall|k: int| 0 <= k < after.dirs.len() implies sorted_tree(#[trigger] after.dirs[k].1) by {
                if k != i {
                    assert(after.dirs[k] == v.dirs[k]);
                }
            }
        }
    }
}

/// Replacing the directory at `p` by a sorted one keeps a tree sorted.
pub proof fn lemma_with_dir_sorted<H, F>(v: TreeView<H, F>, p: Seq<Seq<u8>>, new: TreeView<H, F>)
    requires
        sorted_tree(v),
        sorted_tree(new),
    ensures
        sorted_tree(v.with_dir(p, new)),
    decreases p.len(),
{
    if p.len() > 0 {
        let after = v.with_dir(p, new);
        let i = index_of(v.dirs, p[0]);
        lemma_name_index(entry_names(v.dirs), p[0]);
        if i >= 0 {
            let c = v.dirs[i].1;
            lemma_with_dir_sorted(c, p.skip(1), new);
            lemma_update_entry_sorted(v.dirs, i, c.with_dir(p.skip(1), new));
            assert forall|k: int| 0 <= k < after.dirs.len() implies sorted_tree(#[trigger] after.dirs[k].1) by {
                if k != i {
                    assert(after.dirs[k] == v.dirs[k]);
                }
            }
        }
    }
}

/// A tree made of empty directories named `names` under an empty root is sorted.
pub proof fn lemma_new_tree_sorted<H, F>(names: Seq<Seq<u8>>)
    ensures
        sorted_tree(new_tree::<H, F>(names)),
    decreases names.len(),
{
    if names.len() == 0 {
        lemma_empty_sorted::<H, F>();
    } else {
        lemma_new_tree_sorted::<H, F>(names.drop_last());
        lemma_create_dirs_sorted(new_tree::<H, F>(names.drop_last()), seq![names.last()]);
    }
}

/// Every directory of a sorted tree is sorted.
pub proof fn lemma_lookup_dir_sorted<H, F>(v: TreeView<H, F>, p: Seq<Seq<u8>>)
    requires
        sorted_tree(v),
        v.lookup_dir(p) is Some,
    ensures
        sorted_tree(v.lookup_dir(p).unwrap()),
    decreases p.len(),
{
    if p.len() > 0 {
        let i = index_of(v.dirs, p[0]);
        lemma_name_index(entry_names(v.dirs), p[0]);
        lemma_lookup_dir_sorted(v.dirs[i].1, p.skip(1));
    }
}

/// Whether every directory of the tree `v` is regular.
pub open spec fn regular_tree<H, F>(v: TreeView<H, F>) -> bool
    decreases v,
{
    &&& v.is_regular()
    &&& forall|i: int| 0 <= i < v.dirs.len() ==> regular_tree(#[trigger] v.dirs[i].1)
}

/// Whether `v` is regular, and so is every subdirectory of it but those
/// named `name`.
pub open spec fn regular_except<H, F>(v: TreeView<H, F>, name: Seq<u8>) -> bool {
    &&& v.is_regular()
    &&& forall|i: int| 0 <= i < v.dirs.len() && v.dirs[i].0 != name ==> regular_tree(#[trigger] v.dirs[i].1)
}

/// In a tree of regular directories every walk looks only into regular ones.
pub proof fn lemma_regular_tree_walks<H, F>(v: TreeView<H, F>, p: Seq<Seq<u8>>)
    requires
        regular_tree(v),
    ensures
        v.regular_walk(p),
        v.regular_file_walk(p),
    decreases p.len(),
{
    if p.len() > 0 {
        let i = index_of(v.dirs, p[0]);
        lemma_name_index(entry_names(v.dirs), p[0]);
        if i >= 0 {
            lemma_regular_tree_walks(v.dirs[i].1, p.skip(1));
        }
    }
}

/// Putting a file into a tree of regular directories keeps them all regular.
pub proof fn lemma_create_file_regular<H, F>(v: TreeView<H, F>, p: Seq<Seq<u8>>, f: F)
    requires
        regular_tree(v),
    ensures
        regular_tree(v.create_file(p, f)),
    decreases p.len(),
{
    let after = v.create_file(p, f);
    if p.len() > 1 {
        let i = index_of(v.dirs, p[0]);
        lemma_name_index(entry_names(v.dirs), p[0]);
        if i >= 0 {
            let c = v.dirs[i].1;
            lemma_create_file_regular(c, p.skip(1), f);
            assert forall|k: int| 0 <= k < after.dirs.len() implies regular_tree(#[trigger] after.dirs[k].1) by {
                if k != i {
                    assert(after.dirs[k] == v.dirs[k]);
                }
            }
        } else {
            let n = empty_dir::<H, F>().create_file(p.skip(1), f);
            lemma_create_file_regular(empty_dir::<H, F>(), p.skip(1), f);
            let j = insert_pos(entry_names(v.dirs), p[0]);
            lemma_insert_entry_found(v.dirs, p[0], n);
            assert forall|k: int| 0 <= k < after.dirs.len() implies regular_tree(#[trigger] after.dirs[k].1) by {
                if k < j {
                    assert(after.dirs[k] == v.dirs[k]);
                } else if k > j {
                    assert(after.dirs[k] == v.dirs[k - 1]);
                }
            }
        }
    }
}

/// Making the special directory `name` in a tree of regular directories
/// leaves every other directory regular, and the walk to it looks only at
/// the regular root.
pub proof fn lemma_create_special_regular_except<H, F>(v: TreeView<H, F>, name: Seq<u8>, hook: H)
    requires
        regular_tree(v),
    ensures
        regular_except(v.create_special(seq![name], hook), name),
        v.create_special(seq![name], hook).regular_walk(seq![name]),
{
    let p = seq![name];
    let after = v.create_special(p, hook);
    let i = index_of(v.dirs, name);
    lemma_name_index(entry_names(v.dirs), name);
    assert(p[0] == name);
    assert(p.skip(1).len() == 0);
    assert(after.is_regular());
    if after.child(name) is Some {
        assert(after.child(name).unwrap().regular_walk(p.skip(1)));
    }
    if i >= 0 {
        assert(after.dirs =~= v.dirs) by {
            assert(v.dirs[i].1.create_special(p.skip(1), hook) == v.dirs[i].1);
            assert(v.dirs.update(i, (name, v.dirs[i].1)) =~= v.dirs);
        }
    } else {
        let bare = TreeView::<H, F> { hook: Some(hook), files: Seq::empty(), dirs: Seq::empty() };
        let n = bare.create_special(p.skip(1), hook);
        let j = insert_pos(entry_names(v.dirs), name);
        lemma_insert_entry_found(v.dirs, name, n);
        assert forall|k: int| 0 <= k < after.dirs.len() && after.dirs[k].0 != name implies regular_tree(
            #[trigger] after.dirs[k].1,
        ) by {
            if k < j {
                assert(after.dirs[k] == v.dirs[k]);
            } else if k > j {
                assert(after.dirs[k] == v.dirs[k - 1]);
            }
        }
    }
}

/// In a tree whose directories are regular but those named `name` at its
/// root, a walk to a file that starts elsewhere looks only into regular
/// directories, and putting the file there keeps the tree so.
pub proof fn lemma_create_file_regular_except<H, F>(v: TreeView<H, F>, name: Seq<u8>, p: Seq<Seq<u8>>, f: F)
    requires
        regular_except(v, name),
        p.len() > 0,
        p[0] != name,
    ensures
        v.regular_file_walk(p),
        regular_except(v.create_file(p, f), name),
{
    let after = v.create_file(p, f);
    if p.len() > 1 {
        let i = index_of(v.dirs, p[0]);
        lemma_name_index(entry_names(v.dirs), p[0]);
        if i >= 0 {
            let c = v.dirs[i].1;
            lemma_regular_tree_walks(c, p.skip(1));
            lemma_create_file_regular(c, p.skip(1), f);
            assert forall|k: int| 0 <= k < after.dirs.len() && after.dirs[k].0 != name implies regular_tree(
                #[trigger] after.dirs[k].1,
            ) by {
                if k != i {
                    assert(after.dirs[k] == v.dirs[k]);
                }
            }
        } else {
            let n = empty_dir::<H, F>().create_file(p.skip(1), f);
            lemma_create_file_regular(empty_dir::<H, F>(), p.skip(1), f);
            let j = insert_pos(entry_names(v.dirs), p[0]);
            lemma_insert_entry_found(v.dirs, p[0], n);
            assert forall|k: int| 0 <= k < after.dirs.len() && after.dirs[k].0 != name implies regular_tree(
                #[trigger] after.dirs[k].1,
            ) by {
                if k < j {
                    assert(after.dirs[k] == v.dirs[k]);
                } else if k > j {
                    assert(after.dirs[k] == v.dirs[k - 1]);
                }
            }
        }
    }
}

/// The names `parts` as byte vectors.
fn str_components(parts: &[&str]) -> (r: Vec<Vec<u8>>)
    ensures
        names(r@) == str_names(parts@),
{
    let mut r: Vec<Vec<u8>> = Vec::new();
    let mut i: usize = 0;
    while i < parts.len()
        invariant
            i <= parts@.len(),
            names(r@) == str_names(parts@.take(i as int)),
        decreases parts@.len() - i,
    {
        let ghost before = r@;
        let bytes = bytes_to_vec(parts[i].as_bytes());
        assert(bytes@ == parts@[i as int].spec_bytes());
        r.push(bytes);
        assert(r@ == before.push(bytes));
        assert(names(r@) =~= names(before).push(bytes@));
        i = i + 1;
        assert(str_names(parts@.take(i as int)) =~= str_names(parts@.take(i - 1)).push(parts@[i - 1].spec_bytes()));
        assert(names(r@) =~= str_names(parts@.take(i as int)));
    }
    assert(parts@.take(i as int) =~= parts@);
    r
}

/// Puts `file` at the names `parts`, unless a file is there already, with
/// the directories along the way made where they are missing.
fn create_file_at<H: Hooks>(fs: &mut Directory<H>, parts: &[&str], file: File<H>)
    requires
        parts@.len() > 0,
    ensures
        old(fs).view().regular_file_walk(str_names(parts@)) ==> final(fs).view() == old(fs).view().create_file(
            str_names(parts@),
            file,
        ),
{
    let path = str_components(parts);
    let ghost p = str_names(parts@);
    let ghost after = fs.view().create_file(p, file);
    proof {
        assert(names(path@).skip(0) =~= p);
        lemma_create_file_found(fs.view(), p, file);
    }
    let r = fs.create_file_(&path, 0, file);
    proof {
        if old(fs).view().regular_file_walk(p) {
            lemma_with_file_found(after, p);
        }
    }
}

/// Makes the directories along the names `parts` where they are missing,
/// each an empty special directory with the hook `hook`.
fn create_special_at<H: Hooks + Copy>(fs: &mut Directory<H>, parts: &[&str], hook: H)
    ensures
        old(fs).view().create_special(str_names(parts@), hook).regular_walk(str_names(parts@))
            ==> final(fs).view() == old(fs).view().create_special(str_names(parts@), hook),
{
    let path = str_components(parts);
    let ghost p = str_names(parts@);
    let ghost after = fs.view().create_special(p, hook);
    proof {
        assert(names(path@).skip(0) =~= p);
    }
    let r = fs.create_special_directory_(&path, 0, hook);
    proof {
        if after.regular_walk(p) {
            lemma_with_dir_found(after, p);
        }
    }
}

/// The tree of a new kernel grown from `v`: `test` at /home/test, the
/// programs `sosh` and `cat` in /bin, the hooks of the kernel log at
/// /var/log, of the processes at /proc (a special directory), of the PCI
/// devices at /sys/pci/devices and of the memory at /sys/memory, and the
/// mouse and keyboard streams in /dev, put there in that order.
pub open spec fn kernel_tree<H>(
    v: DirView<H>,
    test: Vec<u8>,
    sosh: Vec<u8>,
    cat: Vec<u8>,
    log: H,
    processes: H,
    pci: H,
    memory: H,
) -> DirView<H> {
    v.create_file(str_names(seq!["home", "test"]), File::Regular { contents: test }).create_file(
        str_names(seq!["bin", "sosh"]),
        File::Regular { contents: sosh },
    ).create_file(str_names(seq!["bin", "cat"]), File::Regular { contents: cat }).create_file(
        str_names(seq!["var", "log"]),
        File::Special { read: log },
    ).create_special(str_names(seq!["proc"]), processes).create_file(
        str_names(seq!["sys", "pci", "devices"]),
        File::Special { read: pci },
    ).create_file(str_names(seq!["sys", "memory"]), File::Special { read: memory }).create_file(
        str_names(seq!["dev", "mouse"]),
        File::Stream { stream_type: StreamType::Owned(OwnedStreamType::Mouse) },
    ).create_file(
        str_names(seq!["dev", "keyboard"]),
        File::Stream { stream_type: StreamType::Owned(OwnedStreamType::Keyboard) },
    )
}

/// Puts the files of a new kernel into `fs`: a greeting at /home/test, the
/// programs `sosh` and `cat` in /bin, the special files and directories
/// whose hooks are `log`, `processes`, `pci` and `memory`, and the mouse and
/// keyboard streams.  Paths where a file is already kept theirs.
pub fn init_fs<H: Hooks + Copy>(
    fs: &mut Directory<H>,
    sosh: Vec<u8>,
    cat: Vec<u8>,
    log: H,
    processes: H,
    pci: H,
    memory: H,
)
    ensures
        regular_tree(old(fs).view()) ==> exists|test: Vec<u8>|
            test@ == "Hello World!".spec_bytes() && final(fs).view() == #[trigger] kernel_tree(
                old(fs).view(),
                test,
                sosh,
                cat,
                log,
                processes,
                pci,
                memory,
            ),
{
    let ghost v0 = fs.view();
    let test = bytes_to_vec("Hello World!".as_bytes());
    let ghost test_file = File::<H>::Regular { contents: test };
    let ghost sosh_file = File::<H>::Regular { contents: sosh };
    let ghost cat_file = File::<H>::Regular { contents: cat };
    let home_test = ["home", "test"];
    let bin_sosh = ["bin", "sosh"];
    let bin_cat = ["bin", "cat"];
    let var_log = ["var", "log"];
    let proc = ["proc"];
    let sys_pci = ["sys", "pci", "devices"];
    let sys_memory = ["sys", "memory"];
    let dev_mouse = ["dev", "mouse"];
    let dev_keyboard = ["dev", "keyboard"];
    proof {
        assert(home_test@ =~= seq!["home", "test"]);
        assert(bin_sosh@ =~= seq!["bin", "sosh"]);
        assert(bin_cat@ =~= seq!["bin", "cat"]);
        assert(var_log@ =~= seq!["var", "log"]);
        assert(proc@ =~= seq!["proc"]);
        assert(sys_pci@ =~= seq!["sys", "pci", "devices"]);
        assert(sys_memory@ =~= seq!["sys", "memory"]);
        assert(dev_mouse@ =~= seq!["dev", "mouse"]);
        assert(dev_keyboard@ =~= seq!["dev", "keyboard"]);
        if regular_tree(v0) {
            lemma_regular_tree_walks(v0, str_names(seq!["home", "test"]));
            lemma_create_file_regular(v0, str_names(seq!["home", "test"]), test_file);
        }
    }
    create_file_at(fs, &home_test, File::Regular { contents: test });
    let ghost v1 = fs.view();
    proof {
        if regular_tree(v0) {
            lemma_regular_tree_walks(v1, str_names(seq!["bin", "sosh"]));
            lemma_create_file_regular(v1, str_names(seq!["bin", "sosh"]), sosh_file);
        }
    }
    create_file_at(fs, &bin_sosh, File::Regular { contents: sosh });
    let ghost v2 = fs.view();
    proof {
        if regular_tree(v0) {
            lemma_regular_tree_walks(v2, str_names(seq!["bin", "cat"]));
            lemma_create_file_regular(v2, str_names(seq!["bin", "cat"]), cat_file);
        }
    }
    create_file_at(fs, &bin_cat, File::Regular { contents: cat });
    let ghost v3 = fs.view();
    proof {
        if regular_tree(v0) {
            lemma_regular_tree_walks(v3, str_names(seq!["var", "log"]));
            lemma_create_file_regular(v3, str_names(seq!["var", "log"]), File::Special { read: log });
        }
    }
    create_file_at(fs, &var_log, File::Special { read: log });
    let ghost v4 = fs.view();
    let ghost proc_name = "proc".spec_bytes();
    proof {
        assert(str_names(seq!["proc"]) =~= seq![proc_name]);
        if regular_tree(v0) {
            lemma_create_special_regular_except(v4, proc_name, processes);
        }
    }
    create_special_at(fs, &proc, processes);
    let ghost v5 = fs.view();
    proof {
        reveal_strlit("proc");
        reveal_strlit("sys");
        reveal_strlit("dev");
        vstd::string::is_ascii_spec_bytes("proc");
        vstd::string::is_ascii_spec_bytes("sys");
        vstd::string::is_ascii_spec_bytes("dev");
        assert(vstd::string::is_ascii("proc"));
        assert(vstd::string::is_ascii("sys"));
        assert(vstd::string::is_ascii("dev"));
        assert(str_names(seq!["sys", "pci", "devices"])[0] != proc_name);
        assert(str_names(seq!["sys", "memory"])[0] != proc_name);
        assert(str_names(seq!["dev", "mouse"])[0] != proc_name);
        assert(str_names(seq!["dev", "keyboard"])[0] != proc_name);
        if regular_tree(v0) {
            lemma_create_file_regular_except(v5, proc_name, str_names(seq!["sys", "pci", "devices"]), File::Special { read: pci });
        }
    }
    create_file_at(fs, &sys_pci, File::Special { read: pci });
    let ghost v6 = fs.view();
    proof {
        if regular_tree(v0) {
            lemma_create_file_regular_except(v6, proc_name, str_names(seq!["sys", "memory"]), File::Special { read: memory });
        }
    }
    create_file_at(fs, &sys_memory, File::Special { read: memory });
    let ghost v7 = fs.view();
    let ghost mouse = File::<H>::Stream { stream_type: StreamType::Owned(OwnedStreamType::Mouse) };
    proof {
        if regular_tree(v0) {
            lemma_create_file_regular_except(v7, proc_name, str_names(seq!["dev", "mouse"]), mouse);
        }
    }
    create_file_at(fs, &dev_mouse, File::Stream { stream_type: StreamType::Owned(OwnedStreamType::Mouse) });
    let ghost v8 = fs.view();
    let ghost keyboard = File::<H>::Stream { stream_type: StreamType::Owned(OwnedStreamType::Keyboard) };
    proof {
        if regular_tree(v0) {
            lemma_create_file_regular_except(v8, proc_name, str_names(seq!["dev", "keyboard"]), keyboard);
        }
    }
    create_file_at(fs, &dev_keyboard, File::Stream { stream_type: StreamType::Owned(OwnedStreamType::Keyboard) });
    proof {
        if regular_tree(v0) {
            assert(fs.view() == kernel_tree(v0, test, sosh, cat, log, processes, pci, memory));
        }
    }
}

} // verus!
