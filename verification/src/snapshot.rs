//! An in-memory snapshot of the directory tree a build runs against: every
//! file with its text and every directory, each under its full path. The
//! build walks this snapshot instead of a live filesystem, so the whole
//! pipeline is deterministic in its input.

use vstd::prelude::*;
use vstd::string::StrSliceExecFns;

use crate::paths::parent_of;
use crate::paths::parent_str;
use crate::text::str_eq;

verus! {

/// One file of the snapshot: its full path and its text.
#[derive(Debug, Clone)]
pub struct SnapshotFile {
    pub path: String,
    pub content: String,
}

/// The file and directory listing a build works on.
#[derive(Debug, Clone)]
pub struct Snapshot {
    pub files: Vec<SnapshotFile>,
    pub dirs: Vec<String>,
}

/// The mathematical value of one snapshot file.
#[verifier::ext_equal]
pub struct FileModel {
    pub path: Seq<char>,
    pub content: Seq<char>,
}

/// The mathematical value of a snapshot.
#[verifier::ext_equal]
pub struct SnapModel {
    pub files: Seq<FileModel>,
    pub dirs: Seq<Seq<char>>,
}

impl View for SnapshotFile {
    type V = FileModel;

    open spec fn view(&self) -> FileModel {
        FileModel { path: self.path@, content: self.content@ }
    }
}

impl DeepView for SnapshotFile {
    type V = FileModel;

    open spec fn deep_view(&self) -> FileModel {
        self.view()
    }
}

impl View for Snapshot {
    type V = SnapModel;

    open spec fn view(&self) -> SnapModel {
        SnapModel { files: self.files.deep_view(), dirs: self.dirs.deep_view() }
    }
}

/// The content of the file at `p`, if the listing holds one.
pub open spec fn lookup_file(files: Seq<FileModel>, p: Seq<char>) -> Option<Seq<char>>
    decreases files.len(),
{
    if files.len() == 0 {
        None
    } else if files[0].path == p {
        Some(files[0].content)
    } else {
        lookup_file(files.drop_first(), p)
    }
}

/// The files whose parent directory is `dir`, in listing order.
pub open spec fn files_in(files: Seq<FileModel>, dir: Seq<char>) -> Seq<FileModel>
    decreases files.len(),
{
    if files.len() == 0 {
        Seq::empty()
    } else {
        let rest = files_in(files.drop_last(), dir);
        if parent_of(files.last().path) == dir {
            rest.push(files.last())
        } else {
            rest
        }
    }
}

/// The directories whose parent directory is `dir`, in listing order.
pub open spec fn dirs_in(dirs: Seq<Seq<char>>, dir: Seq<char>) -> Seq<Seq<char>>
    decreases dirs.len(),
{
    if dirs.len() == 0 {
        Seq::empty()
    } else {
        let rest = dirs_in(dirs.drop_last(), dir);
        if parent_of(dirs.last()) == dir {
            rest.push(dirs.last())
        } else {
            rest
        }
    }
}

impl SnapModel {
    /// The content of the file at `p`, if the snapshot holds one.
    pub open spec fn file_content(self, p: Seq<char>) -> Option<Seq<char>> {
        lookup_file(self.files, p)
    }

    /// Whether the snapshot holds a directory at `p`.
    pub open spec fn is_dir(self, p: Seq<char>) -> bool {
        self.dirs.contains(p)
    }

    /// Whether any entry of the snapshot lies at `p`.
    pub open spec fn exists_path(self, p: Seq<char>) -> bool {
        self.file_content(p) is Some || self.is_dir(p)
    }
}

proof fn lemma_lookup_skip(files: Seq<FileModel>, p: Seq<char>, i: int)
    requires
        0 <= i <= files.len(),
        forall|k: int| 0 <= k < i ==> files[k].path != p,
    ensures
        lookup_file(files, p) == lookup_file(files.skip(i), p),
    decreases i,
{
    if i == 0 {
        assert(files.skip(0) =~= files);
    } else {
        lemma_lookup_skip(files.drop_first(), p, i - 1);
        assert(files.drop_first().skip(i - 1) =~= files.skip(i));
    }
}

impl Snapshot {
    /// Looks up the file stored at `path`.
    pub fn find_file<'a>(&'a self, path: &str) -> (r: Option<&'a SnapshotFile>)
        ensures
            match r {
                Some(f) => self@.file_content(path@) == Some(f@.content) && f@.path == path@,
                None => self@.file_content(path@) is None,
            },
    {
        let n = self.files.len();
        let mut i: usize = 0;
        while i < n
            invariant
                0 <= i <= n,
                n == self@.files.len(),
                self@.files.len() == self.files@.len(),
                forall|k: int| 0 <= k < i ==> self@.files[k].path != path@,
            decreases n - i,
        {
            if str_eq(self.files[i].path.as_str(), path) {
                proof {
                    lemma_lookup_skip(self@.files, path@, i as int);
                    assert(self@.files.skip(i as int)[0] == self@.files[i as int]);
                }
                return Some(&self.files[i]);
            }
            i = i + 1;
        }
        proof {
            lemma_lookup_skip(self@.files, path@, n as int);
            assert(self@.files.skip(n as int) =~= Seq::<FileModel>::empty());
        }
        None
    }

    /// Whether the snapshot holds a directory at `path`.
    pub fn contains_dir(&self, path: &str) -> (r: bool)
        ensures
            r == self@.is_dir(path@),
    {
        let n = self.dirs.len();
        let mut i: usize = 0;
        while i < n
            invariant
                0 <= i <= n,
                n == self@.dirs.len(),
                self@.dirs.len() == self.dirs@.len(),
                forall|k: int| 0 <= k < i ==> self@.dirs[k] != path@,
            decreases n - i,
        {
            if str_eq(self.dirs[i].as_str(), path) {
                proof {
                    assert(self@.dirs[i as int] == path@);
                }
                return true;
            }
            i = i + 1;
        }
        false
    }

    /// Collects the files lying directly in `dir`, in listing order.
    pub fn list_files(&self, dir: &str) -> (r: Vec<SnapshotFile>)
        ensures
            r.deep_view() == files_in(self@.files, dir@),
    {
        let n = self.files.len();
        let mut r: Vec<SnapshotFile> = Vec::new();
        proof {
            assert(r.deep_view() =~= files_in(self@.files.take(0), dir@));
        }
        let mut i: usize = 0;
        while i < n
            invariant
                0 <= i <= n,
                n == self@.files.len(),
                self@.files.len() == self.files@.len(),
                r.deep_view() == files_in(self@.files.take(i as int), dir@),
            decreases n - i,
        {
            let ghost pre = r.deep_view();
            if str_eq(parent_str(self.files[i].path.as_str()), dir) {
                r.push(self.files[i].duplicate());
                proof {
                    assert(r.deep_view() =~= pre.push(self@.files[i as int]));
                }
            }
            proof {
                assert(self@.files.take(i + 1).drop_last() =~= self@.files.take(i as int));
                assert(self@.files.take(i + 1).last() == self@.files[i as int]);
            }
            i = i + 1;
        }
        proof {
            assert(self@.files.take(n as int) =~= self@.files);
        }
        r
    }

    /// Collects the directories lying directly in `dir`, in listing order.
    pub fn list_dirs(&self, dir: &str) -> (r: Vec<String>)
        ensures
            r.deep_view() == dirs_in(self@.dirs, dir@),
    {
        let n = self.dirs.len();
        let mut r: Vec<String> = Vec::new();
        proof {
            assert(r.deep_view() =~= dirs_in(self@.dirs.take(0), dir@));
        }
        let mut i: usize = 0;
        while i < n
            invariant
                0 <= i <= n,
                n == self@.dirs.len(),
                self@.dirs.len() == self.dirs@.len(),
                r.deep_view() == dirs_in(self@.dirs.take(i as int), dir@),
            decreases n - i,
        {
            let ghost pre = r.deep_view();
            if str_eq(parent_str(self.dirs[i].as_str()), dir) {
                r.push(self.dirs[i].clone());
                proof {
                    assert(r.deep_view() =~= pre.push(self@.dirs[i as int]));
                }
            }
            proof {
                assert(self@.dirs.take(i + 1).drop_last() =~= self@.dirs.take(i as int));
                assert(self@.dirs.take(i + 1).last() == self@.dirs[i as int]);
            }
            i = i + 1;
        }
        proof {
            assert(self@.dirs.take(n as int) =~= self@.dirs);
        }
        r
    }
}

impl SnapshotFile {
    /// A field-for-field copy of the file.
    pub fn duplicate(&self) -> (r: SnapshotFile)
        ensures
            r@ == self@,
    {
        SnapshotFile { path: self.path.clone(), content: self.content.clone() }
    }
}

} // verus!
