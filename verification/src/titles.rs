//! Title inference against the snapshot: a file's title comes from its first
//! heading line or its stem, a directory's from its index-like file or its
//! own name.

use vstd::prelude::*;
use vstd::string::StrSliceExecFns;
use vstd::string::StringExecFns;

use crate::error::BuildError;
use crate::error::ErrorModel;
use crate::paths::stem_of;
use crate::paths::stem_str;
use crate::snapshot::FileModel;
use crate::snapshot::SnapModel;
use crate::snapshot::Snapshot;
use crate::snapshot::SnapshotFile;
use crate::snapshot::files_in;
use crate::text::eq_lower;
use crate::text::lower_seq;
use crate::text::text_title;
use crate::text::title_string;

verus! {

/// The stem a primary document goes by.
pub open spec fn index_name() -> Seq<char> {
    seq!['i', 'n', 'd', 'e', 'x']
}

/// The other stem a primary document goes by.
pub open spec fn readme_name() -> Seq<char> {
    seq!['r', 'e', 'a', 'd', 'm', 'e']
}

/// Whether a path names an index-like file: its stem, without regard to
/// ASCII case or extension, is an accepted primary-document name.
pub open spec fn is_index_stem(p: Seq<char>) -> bool {
    lower_seq(stem_of(p)) == index_name() || lower_seq(stem_of(p)) == readme_name()
}

/// The first index-like file of a listing, in listing order.
pub open spec fn first_index_file(files: Seq<FileModel>) -> Option<FileModel>
    decreases files.len(),
{
    if files.len() == 0 {
        None
    } else {
        let r = first_index_file(files.drop_last());
        if r is Some {
            r
        } else if is_index_stem(files.last().path) {
            Some(files.last())
        } else {
            None
        }
    }
}

pub proof fn lemma_first_index_at(files: Seq<FileModel>, i: int)
    requires
        0 <= i <= files.len(),
        forall|k: int| 0 <= k < i ==> !is_index_stem(files[k].path),
        i == files.len() || is_index_stem(files[i].path),
    ensures
        first_index_file(files) == if i == files.len() {
            None
        } else {
            Some(files[i])
        },
    decreases files.len(),
{
    if files.len() > 0 {
        if i < files.len() - 1 {
            lemma_first_index_at(files.drop_last(), i);
        } else {
            lemma_first_index_at(files.drop_last(), files.len() - 1);
        }
    }
}

/// What title inference yields for the file at `p`: the title of its text if
/// a heading gives one, else the file's stem when the fallback is asked for;
/// an error when the snapshot holds no file at `p`.
pub open spec fn title_from_file_spec(m: SnapModel, p: Seq<char>, use_file_name: bool) -> Result<
    Option<Seq<char>>,
    ErrorModel,
> {
    match m.file_content(p) {
        None => Err(ErrorModel::Io { path: p }),
        Some(content) => match text_title(content) {
            Some(t) => Ok(Some(t)),
            None => if use_file_name {
                Ok(Some(stem_of(p)))
            } else {
                Ok(None)
            },
        },
    }
}

/// The title of the directory `dir`: the title its first index-like file
/// yields when `check_index` is set and one is found with a heading, else
/// the directory's own name.
pub open spec fn dir_title_spec(m: SnapModel, dir: Seq<char>, check_index: bool) -> Seq<char> {
    if check_index {
        match first_index_file(files_in(m.files, dir)) {
            Some(f) => match text_title(f.content) {
                Some(t) => t,
                None => stem_of(dir),
            },
            None => stem_of(dir),
        }
    } else {
        stem_of(dir)
    }
}

/// A directory with no index-like file takes its title from its own name,
/// whether or not index files are consulted.
pub proof fn lemma_dir_title_default(m: SnapModel, dir: Seq<char>)
    requires
        first_index_file(files_in(m.files, dir)) is None,
    ensures
        forall|check: bool| dir_title_spec(m, dir, check) == stem_of(dir),
{
}

/// Whether a snapshot file is an index file, going by its stem alone.
pub fn is_index_file(f: &SnapshotFile) -> (r: bool)
    ensures
        r == is_index_stem(f@.path),
{
    let st = stem_str(f.path.as_str());
    let a = eq_lower(st, "index");
    let b = eq_lower(st, "readme");
    proof {
        reveal_strlit("index");
        reveal_strlit("readme");
        assert("index"@ =~= index_name());
        assert("readme"@ =~= readme_name());
        assert(lower_seq(index_name()) =~= index_name());
        assert(lower_seq(readme_name()) =~= readme_name());
    }
    a || b
}

/// Generates the title from a file of the snapshot: its first heading line,
/// or its stem when `use_file_name` is set; fails when no such file exists.
pub fn get_title_from_file(fs: &Snapshot, path: &str, use_file_name: bool) -> (r: Result<
    Option<String>,
    BuildError,
>)
    ensures
        title_from_file_spec(fs@, path@, use_file_name) matches Ok(o) ==> (r matches Ok(ro)
            && ro.deep_view() == o),
        title_from_file_spec(fs@, path@, use_file_name) matches Err(e) ==> (r matches Err(re)
            && re@ == e),
{
    match fs.find_file(path) {
        None => Err(BuildError::Io { path: path.to_owned() }),
        Some(f) => {
            match title_string(f.content.as_str()) {
                Some(t) => Ok(Some(t)),
                None => {
                    if use_file_name {
                        Ok(Some(stem_str(path).to_owned()))
                    } else {
                        Ok(None)
                    }
                },
            }
        },
    }
}

/// Generates the title for a directory of the snapshot.
pub fn build_title_for_dir(fs: &Snapshot, root: &str, check_index: bool) -> (r: String)
    ensures
        r@ == dir_title_spec(fs@, root@, check_index),
{
    if check_index {
        let files = fs.list_files(root);
        let n = files.len();
        let ghost listed = files_in(fs@.files, root@);
        let mut i: usize = 0;
        while i < n
            invariant
                0 <= i <= n,
                check_index,
                n == listed.len(),
                listed == files_in(fs@.files, root@),
                files.deep_view() == listed,
                n == files@.len(),
                forall|k: int| 0 <= k < i ==> !is_index_stem(listed[k].path),
            decreases n - i,
        {
            proof {
                assert(listed[i as int] == files@[i as int]@);
            }
            if is_index_file(&files[i]) {
                proof {
                    lemma_first_index_at(listed, i as int);
                    assert(first_index_file(files_in(fs@.files, root@)) == Some(
                        listed[i as int],
                    ));
                }
                let lt = title_string(files[i].content.as_str());
                proof {
                    assert(lt.deep_view() == text_title(listed[i as int].content));
                }
                match lt {
                    Some(t) => {
                        proof {
                            assert(text_title(listed[i as int].content) == Some(t@));
                            assert(dir_title_spec(fs@, root@, check_index) == t@);
                        }
                        return t;
                    },
                    None => {
                        proof {
                            assert(dir_title_spec(fs@, root@, check_index) == stem_of(root@));
                        }
                        return stem_str(root).to_owned();
                    },
                }
            }
            i = i + 1;
        }
        proof {
            lemma_first_index_at(listed, n as int);
        }
        stem_str(root).to_owned()
    } else {
        stem_str(root).to_owned()
    }
}

} // verus!
