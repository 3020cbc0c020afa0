//! Assembling a directory's group of the content tree: its entries sorted
//! by path, bracketed by a synthesized heading and separator, and the
//! concatenation of such groups over the sorted subdirectories.

use vstd::prelude::*;
use vstd::multiset::Multiset;
use vstd::string::StrSliceExecFns;

use crate::content::Content;
use crate::content::ContentModel;
use crate::content::break_model;
use crate::content::classify_spec;
use crate::content::heading_model;
use crate::content::init_entry_contents;
use crate::paths::stem_of;
use crate::snapshot::FileModel;
use crate::snapshot::SnapModel;
use crate::snapshot::Snapshot;
use crate::snapshot::dirs_in;
use crate::snapshot::files_in;
use crate::text::lex_le;
use crate::text::lex_le_str;
use crate::text::lemma_lex_le_total;
use crate::titles::build_title_for_dir;
use crate::titles::dir_title_spec;

verus! {

/// The order entry nodes are sorted in: by their backing file path, an
/// absent path first.
pub open spec fn file_le(a: ContentModel, b: ContentModel) -> bool {
    match a.file {
        None => true,
        Some(x) => match b.file {
            None => false,
            Some(y) => lex_le(x, y),
        },
    }
}

/// The node order is total.
pub proof fn lemma_file_le_total(a: ContentModel, b: ContentModel)
    ensures
        file_le(a, b) || file_le(b, a),
{
    match (a.file, b.file) {
        (Some(x), Some(y)) => {
            lemma_lex_le_total(x, y);
        },
        _ => {},
    }
}

/// A node inserted into a run of nodes before the first one it precedes.
pub open spec fn insert_by_file(c: ContentModel, s: Seq<ContentModel>) -> Seq<ContentModel>
    decreases s.len(),
{
    if s.len() == 0 {
        seq![c]
    } else if file_le(c, s[0]) {
        seq![c] + s
    } else {
        seq![s[0]] + insert_by_file(c, s.drop_first())
    }
}

/// A run of nodes sorted by insertion.
pub open spec fn sort_by_file(s: Seq<ContentModel>) -> Seq<ContentModel>
    decreases s.len(),
{
    if s.len() == 0 {
        s
    } else {
        insert_by_file(s.last(), sort_by_file(s.drop_last()))
    }
}

/// Whether each node of a run precedes the next.
pub open spec fn sorted_by_file(s: Seq<ContentModel>) -> bool {
    forall|i: int| 0 <= i < s.len() - 1 ==> file_le(#[trigger] s[i], s[i + 1])
}

proof fn lemma_insert_by_file_len(c: ContentModel, s: Seq<ContentModel>)
    ensures
        insert_by_file(c, s).len() == s.len() + 1,
    decreases s.len(),
{
    if s.len() > 0 && !file_le(c, s[0]) {
        lemma_insert_by_file_len(c, s.drop_first());
    }
}

proof fn lemma_insert_by_file_sorted(c: ContentModel, s: Seq<ContentModel>)
    requires
        sorted_by_file(s),
    ensures
        sorted_by_file(insert_by_file(c, s)),
    decreases s.len(),
{
    lemma_insert_by_file_len(c, s);
    if s.len() == 0 {
    } else if file_le(c, s[0]) {
        let r = seq![c] + s;
        assert forall|i: int| 0 <= i < r.len() - 1 implies file_le(#[trigger] r[i], r[i + 1]) by {
            if i > 0 {
                assert(r[i] == s[i - 1]);
                assert(r[i + 1] == s[i]);
            }
        }
    } else {
        assert(sorted_by_file(s.drop_first())) by {
            assert forall|i: int| 0 <= i < s.drop_first().len() - 1 implies file_le(
                #[trigger] s.drop_first()[i],
                s.drop_first()[i + 1],
            ) by {
                assert(s.drop_first()[i] == s[i + 1]);
                assert(s.drop_first()[i + 1] == s[i + 2]);
            }
        }
        lemma_insert_by_file_sorted(c, s.drop_first());
        lemma_insert_by_file_len(c, s.drop_first());
        let t = insert_by_file(c, s.drop_first());
        let r = seq![s[0]] + t;
        lemma_file_le_total(c, s[0]);
        assert(file_le(s[0], c));
        assert forall|i: int| 0 <= i < r.len() - 1 implies file_le(#[trigger] r[i], r[i + 1]) by {
            if i == 0 {
                assert(r[1] == t[0]);
                if s.drop_first().len() == 0 {
                    assert(t[0] == c);
                } else {
                    if file_le(c, s.drop_first()[0]) {
                        assert(t[0] == c);
                    } else {
                        assert(t[0] == s.drop_first()[0]);
                        assert(s.drop_first()[0] == s[1]);
                    }
                }
            } else {
                assert(r[i] == t[i - 1]);
                assert(r[i + 1] == t[i]);
            }
        }
    }
}

/// Sorting yields a run whose every node precedes the next.
pub proof fn lemma_sort_by_file_sorted(s: Seq<ContentModel>)
    ensures
        sorted_by_file(sort_by_file(s)),
    decreases s.len(),
{
    if s.len() > 0 {
        lemma_sort_by_file_sorted(s.drop_last());
        lemma_insert_by_file_sorted(s.last(), sort_by_file(s.drop_last()));
    }
}

proof fn lemma_insert_by_file_multiset(c: ContentModel, s: Seq<ContentModel>)
    ensures
        insert_by_file(c, s).to_multiset() == s.to_multiset().insert(c),
    decreases s.len(),
{
    broadcast use vstd::seq_lib::group_to_multiset_ensures;

    if s.len() == 0 {
        assert(seq![c] =~= Seq::<ContentModel>::empty().push(c));
        assert(seq![c].to_multiset() =~= s.to_multiset().insert(c));
    } else if file_le(c, s[0]) {
        vstd::seq_lib::lemma_multiset_commutative(seq![c], s);
        assert(seq![c].to_multiset() =~= Multiset::<ContentModel>::empty().insert(c));
        assert((seq![c] + s).to_multiset() =~= s.to_multiset().insert(c));
    } else {
        lemma_insert_by_file_multiset(c, s.drop_first());
        vstd::seq_lib::lemma_multiset_commutative(seq![s[0]], insert_by_file(c, s.drop_first()));
        vstd::seq_lib::lemma_multiset_commutative(seq![s[0]], s.drop_first());
        assert(seq![s[0]] + s.drop_first() =~= s);
        assert(seq![s[0]].to_multiset() =~= Multiset::<ContentModel>::empty().insert(s[0]));
        assert((seq![s[0]] + insert_by_file(c, s.drop_first())).to_multiset() =~= s.to_multiset().insert(c));
    }
}

/// Sorting keeps exactly the nodes it was given.
pub proof fn lemma_sort_by_file_multiset(s: Seq<ContentModel>)
    ensures
        sort_by_file(s).to_multiset() == s.to_multiset(),
    decreases s.len(),
{
    broadcast use vstd::seq_lib::group_to_multiset_ensures;

    if s.len() > 0 {
        lemma_sort_by_file_multiset(s.drop_last());
        lemma_insert_by_file_multiset(s.last(), sort_by_file(s.drop_last()));
        assert(s.drop_last().push(s.last()) =~= s);
    }
}

proof fn lemma_insert_by_file_at(c: ContentModel, s: Seq<ContentModel>, k: int)
    requires
        0 <= k <= s.len(),
        forall|j: int| 0 <= j < k ==> !file_le(c, s[j]),
        k == s.len() || file_le(c, s[k]),
    ensures
        insert_by_file(c, s) == s.take(k) + seq![c] + s.skip(k),
    decreases k,
{
    if k == 0 {
        if s.len() == 0 {
            assert(seq![c] =~= s.take(0) + seq![c] + s.skip(0));
        } else {
            assert(seq![c] + s =~= s.take(0) + seq![c] + s.skip(0));
        }
    } else {
        lemma_insert_by_file_at(c, s.drop_first(), k - 1);
        assert(s.drop_first().take(k - 1) =~= s.take(k).drop_first());
        assert(s.drop_first().skip(k - 1) =~= s.skip(k));
        assert(seq![s[0]] + (s.take(k).drop_first() + seq![c] + s.skip(k)) =~= s.take(k) + seq![c]
            + s.skip(k));
    }
}

/// Decides the node order on two nodes.
fn file_le_exec(a: &Content, b: &Content) -> (r: bool)
    ensures
        r == file_le(a@, b@),
{
    match (&a.file, &b.file) {
        (None, _) => true,
        (Some(_), None) => false,
        (Some(x), Some(y)) => lex_le_str(x.as_str(), y.as_str()),
    }
}

fn insert_content(r: &mut Vec<Content>, c: Content)
    ensures
        final(r).deep_view() == insert_by_file(c@, old(r).deep_view()),
{
    let n = r.len();
    let ghost s = r.deep_view();
    let mut k: usize = 0;
    while k < n && !file_le_exec(&c, &r[k])
        invariant
            0 <= k <= n,
            n == r@.len(),
            r.deep_view() == s,
            s.len() == n,
            forall|j: int| 0 <= j < k ==> !file_le(c@, s[j]),
        decreases n - k,
    {
        k = k + 1;
    }
    proof {
        lemma_insert_by_file_at(c@, s, k as int);
    }
    r.insert(k, c);
    proof {
        assert(final(r).deep_view() =~= s.take(k as int) + seq![c@] + s.skip(k as int));
    }
}

/// Sorts a run of nodes by their backing file path.
pub fn sort_contents(v: Vec<Content>) -> (r: Vec<Content>)
    ensures
        r.deep_view() == sort_by_file(v.deep_view()),
{
    let n = v.len();
    let mut r: Vec<Content> = Vec::new();
    proof {
        assert(r.deep_view() =~= sort_by_file(v.deep_view().take(0)));
    }
    let mut i: usize = 0;
    while i < n
        invariant
            0 <= i <= n,
            n == v@.len(),
            r.deep_view() == sort_by_file(v.deep_view().take(i as int)),
        decreases n - i,
    {
        insert_content(&mut r, v[i].duplicate());
        proof {
            assert(v.deep_view().take(i + 1).drop_last() =~= v.deep_view().take(i as int));
            assert(v.deep_view().take(i + 1).last() == v.deep_view()[i as int]);
        }
        i = i + 1;
    }
    proof {
        assert(v.deep_view().take(n as int) =~= v.deep_view());
    }
    r
}

/// A path inserted into a run of paths before the first one it precedes.
pub open spec fn insert_path(x: Seq<char>, s: Seq<Seq<char>>) -> Seq<Seq<char>>
    decreases s.len(),
{
    if s.len() == 0 {
        seq![x]
    } else if lex_le(x, s[0]) {
        seq![x] + s
    } else {
        seq![s[0]] + insert_path(x, s.drop_first())
    }
}

/// A run of paths sorted by insertion.
pub open spec fn sort_paths(s: Seq<Seq<char>>) -> Seq<Seq<char>>
    decreases s.len(),
{
    if s.len() == 0 {
        s
    } else {
        insert_path(s.last(), sort_paths(s.drop_last()))
    }
}

proof fn lemma_insert_path_at(x: Seq<char>, s: Seq<Seq<char>>, k: int)
    requires
        0 <= k <= s.len(),
        forall|j: int| 0 <= j < k ==> !lex_le(x, s[j]),
        k == s.len() || lex_le(x, s[k]),
    ensures
        insert_path(x, s) == s.take(k) + seq![x] + s.skip(k),
    decreases k,
{
    if k == 0 {
        if s.len() == 0 {
            assert(seq![x] =~= s.take(0) + seq![x] + s.skip(0));
        } else {
            assert(seq![x] + s =~= s.take(0) + seq![x] + s.skip(0));
        }
    } else {
        lemma_insert_path_at(x, s.drop_first(), k - 1);
        assert(s.drop_first().take(k - 1) =~= s.take(k).drop_first());
        assert(s.drop_first().skip(k - 1) =~= s.skip(k));
        assert(seq![s[0]] + (s.take(k).drop_first() + seq![x] + s.skip(k)) =~= s.take(k) + seq![x]
            + s.skip(k));
    }
}

fn insert_path_vec(r: &mut Vec<String>, x: String)
    ensures
        final(r).deep_view() == insert_path(x@, old(r).deep_view()),
{
    let n = r.len();
    let ghost s = r.deep_view();
    let mut k: usize = 0;
    while k < n && !lex_le_str(x.as_str(), r[k].as_str())
        invariant
            0 <= k <= n,
            n == r@.len(),
            r.deep_view() == s,
            s.len() == n,
            forall|j: int| 0 <= j < k ==> !lex_le(x@, s[j]),
        decreases n - k,
    {
        k = k + 1;
    }
    proof {
        lemma_insert_path_at(x@, s, k as int);
    }
    r.insert(k, x);
    proof {
        assert(final(r).deep_view() =~= s.take(k as int) + seq![x@] + s.skip(k as int));
    }
}

/// Sorts a run of paths lexicographically.
pub fn sort_path_vec(v: Vec<String>) -> (r: Vec<String>)
    ensures
        r.deep_view() == sort_paths(v.deep_view()),
{
    let n = v.len();
    let mut r: Vec<String> = Vec::new();
    proof {
        assert(r.deep_view() =~= sort_paths(v.deep_view().take(0)));
    }
    let mut i: usize = 0;
    while i < n
        invariant
            0 <= i <= n,
            n == v@.len(),
            r.deep_view() == sort_paths(v.deep_view().take(i as int)),
        decreases n - i,
    {
        insert_path_vec(&mut r, v[i].clone());
        proof {
            assert(v.deep_view().take(i + 1).drop_last() =~= v.deep_view().take(i as int));
            assert(v.deep_view().take(i + 1).last() == v.deep_view()[i as int]);
        }
        i = i + 1;
    }
    proof {
        assert(v.deep_view().take(n as int) =~= v.deep_view());
    }
    r
}

/// Whether each path of a run precedes the next.
pub open spec fn sorted_paths(s: Seq<Seq<char>>) -> bool {
    forall|i: int| 0 <= i < s.len() - 1 ==> lex_le(#[trigger] s[i], s[i + 1])
}

proof fn lemma_insert_path_len(x: Seq<char>, s: Seq<Seq<char>>)
    ensures
        insert_path(x, s).len() == s.len() + 1,
    decreases s.len(),
{
    if s.len() > 0 && !lex_le(x, s[0]) {
        lemma_insert_path_len(x, s.drop_first());
    }
}

proof fn lemma_insert_path_sorted(x: Seq<char>, s: Seq<Seq<char>>)
    requires
        sorted_paths(s),
    ensures
        sorted_paths(insert_path(x, s)),
    decreases s.len(),
{
    lemma_insert_path_len(x, s);
    if s.len() == 0 {
    } else if lex_le(x, s[0]) {
        let r = seq![x] + s;
        assert forall|i: int| 0 <= i < r.len() - 1 implies lex_le(#[trigger] r[i], r[i + 1]) by {
            if i > 0 {
                assert(r[i] == s[i - 1]);
                assert(r[i + 1] == s[i]);
            }
        }
    } else {
        assert(sorted_paths(s.drop_first())) by {
            assert forall|i: int| 0 <= i < s.drop_first().len() - 1 implies lex_le(
                #[trigger] s.drop_first()[i],
                s.drop_first()[i + 1],
            ) by {
                assert(s.drop_first()[i] == s[i + 1]);
                assert(s.drop_first()[i + 1] == s[i + 2]);
            }
        }
        lemma_insert_path_sorted(x, s.drop_first());
        lemma_insert_path_len(x, s.drop_first());
        let t = insert_path(x, s.drop_first());
        let r = seq![s[0]] + t;
        lemma_lex_le_total(x, s[0]);
        assert(lex_le(s[0], x));
        assert forall|i: int| 0 <= i < r.len() - 1 implies lex_le(#[trigger] r[i], r[i + 1]) by {
            if i == 0 {
                assert(r[1] == t[0]);
                if s.drop_first().len() == 0 {
                    assert(t[0] == x);
                } else {
                    if lex_le(x, s.drop_first()[0]) {
                        assert(t[0] == x);
                    } else {
                        assert(t[0] == s.drop_first()[0]);
                        assert(s.drop_first()[0] == s[1]);
                    }
                }
            } else {
                assert(r[i] == t[i - 1]);
                assert(r[i + 1] == t[i]);
            }
        }
    }
}

/// The subdirectory groups come in lexicographic directory order: sorting
/// the directory paths yields a run whose every path precedes the next.
pub proof fn lemma_sort_paths_sorted(s: Seq<Seq<char>>)
    ensures
        sorted_paths(sort_paths(s)),
    decreases s.len(),
{
    if s.len() > 0 {
        lemma_sort_paths_sorted(s.drop_last());
        lemma_insert_path_sorted(s.last(), sort_paths(s.drop_last()));
    }
}

/// The entry nodes a listing of files yields with role checking off, in
/// listing order.
pub open spec fn normal_entries(files: Seq<FileModel>) -> Seq<ContentModel>
    decreases files.len(),
{
    if files.len() == 0 {
        Seq::empty()
    } else {
        let rest = normal_entries(files.drop_last());
        match classify_spec(files.last(), false) {
            Some(p) => rest.push(p.0),
            None => rest,
        }
    }
}

/// The group one subdirectory contributes: nothing when it holds no
/// qualifying file, else a heading named after the directory, its entries
/// sorted by path, and a separator.
pub open spec fn dir_section_spec(m: SnapModel, dir: Seq<char>) -> Seq<ContentModel> {
    let es = normal_entries(files_in(m.files, dir));
    if es.len() == 0 {
        Seq::empty()
    } else {
        seq![heading_model(dir_title_spec(m, dir, false))] + sort_by_file(es) + seq![break_model()]
    }
}

/// The groups of a sorted run of directories, concatenated in order.
pub open spec fn sections_of(m: SnapModel, dirs: Seq<Seq<char>>) -> Seq<ContentModel>
    decreases dirs.len(),
{
    if dirs.len() == 0 {
        Seq::empty()
    } else {
        sections_of(m, dirs.drop_last()) + dir_section_spec(m, dirs.last())
    }
}

/// The groups of all subdirectories of `root`, in sorted order.
pub open spec fn dir_sections_spec(m: SnapModel, root: Seq<char>) -> Seq<ContentModel> {
    sections_of(m, sort_paths(dirs_in(m.dirs, root)))
}

/// Every directory group is either empty or a heading named after the
/// directory, its entries sorted by path, and a separator.
pub proof fn lemma_dir_section_shape(m: SnapModel, dir: Seq<char>)
    ensures
        sorted_by_file(sort_by_file(normal_entries(files_in(m.files, dir)))),
        dir_section_spec(m, dir).len() > 0 ==> dir_section_spec(m, dir) == seq![
            heading_model(stem_of(dir)),
        ] + sort_by_file(normal_entries(files_in(m.files, dir))) + seq![break_model()],
{
    lemma_sort_by_file_sorted(normal_entries(files_in(m.files, dir)));
}

/// The entry nodes a listing yields never carry a directory reference.
pub proof fn lemma_normal_entries_no_dir(files: Seq<FileModel>)
    ensures
        forall|i: int|
            0 <= i < normal_entries(files).len() ==> (#[trigger] normal_entries(files)[i]).dir
                is None,
    decreases files.len(),
{
    if files.len() > 0 {
        lemma_normal_entries_no_dir(files.drop_last());
    }
}

/// Sorting a run of nodes without directory references yields one.
pub proof fn lemma_sort_by_file_no_dir(s: Seq<ContentModel>)
    requires
        forall|i: int| 0 <= i < s.len() ==> (#[trigger] s[i]).dir is None,
    ensures
        forall|i: int|
            0 <= i < sort_by_file(s).len() ==> (#[trigger] sort_by_file(s)[i]).dir is None,
{
    broadcast use vstd::seq_lib::group_to_multiset_ensures;

    lemma_sort_by_file_multiset(s);
    assert forall|i: int| 0 <= i < sort_by_file(s).len() implies (#[trigger] sort_by_file(
        s,
    )[i]).dir is None by {
        let x = sort_by_file(s)[i];
        assert(sort_by_file(s).contains(x));
        assert(s.to_multiset().count(x) > 0);
        assert(s.contains(x));
        let j = choose|j: int| 0 <= j < s.len() && s[j] == x;
        assert(s[j].dir is None);
    }
}

/// No node of a directory group carries a directory reference.
pub proof fn lemma_dir_section_no_dir(m: SnapModel, dir: Seq<char>)
    ensures
        forall|i: int|
            0 <= i < dir_section_spec(m, dir).len() ==> (#[trigger] dir_section_spec(m, dir)[i]).dir
                is None,
{
    lemma_normal_entries_no_dir(files_in(m.files, dir));
    lemma_sort_by_file_no_dir(normal_entries(files_in(m.files, dir)));
}

proof fn lemma_sections_of_no_dir(m: SnapModel, dirs: Seq<Seq<char>>)
    ensures
        forall|i: int|
            0 <= i < sections_of(m, dirs).len() ==> (#[trigger] sections_of(m, dirs)[i]).dir
                is None,
    decreases dirs.len(),
{
    if dirs.len() > 0 {
        lemma_sections_of_no_dir(m, dirs.drop_last());
        lemma_dir_section_no_dir(m, dirs.last());
    }
}

/// No node of the concatenated subdirectory groups carries a directory
/// reference.
pub proof fn lemma_dir_sections_no_dir(m: SnapModel, root: Seq<char>)
    ensures
        forall|i: int|
            0 <= i < dir_sections_spec(m, root).len() ==> (#[trigger] dir_sections_spec(
                m,
                root,
            )[i]).dir is None,
{
    lemma_sections_of_no_dir(m, sort_paths(dirs_in(m.dirs, root)));
}

/// Collects the qualifying file entries of one directory, role checking
/// off, sorted by path.
pub fn dir_file_entries(fs: &Snapshot, path: &str) -> (r: Vec<Content>)
    ensures
        r.deep_view() == sort_by_file(normal_entries(files_in(fs@.files, path@))),
{
    let files = fs.list_files(path);
    let n = files.len();
    let ghost listed = files_in(fs@.files, path@);
    let mut entries: Vec<Content> = Vec::new();
    proof {
        assert(entries.deep_view() =~= normal_entries(listed.take(0)));
    }
    let mut i: usize = 0;
    while i < n
        invariant
            0 <= i <= n,
            n == listed.len(),
            listed == files_in(fs@.files, path@),
            files.deep_view() == listed,
            n == files@.len(),
            entries.deep_view() == normal_entries(listed.take(i as int)),
        decreases n - i,
    {
        let ghost pre = entries.deep_view();
        proof {
            assert(listed[i as int] == files@[i as int]@);
            assert(listed.take(i + 1).drop_last() =~= listed.take(i as int));
            assert(listed.take(i + 1).last() == listed[i as int]);
        }
        match init_entry_contents(&files[i], false) {
            Some(p) => {
                let (c, _) = p;
                entries.push(c);
                proof {
                    assert(entries.deep_view() =~= pre.push(
                        (classify_spec(listed[i as int], false)->0).0,
                    ));
                }
            },
            None => {},
        }
        i = i + 1;
    }
    proof {
        assert(listed.take(n as int) =~= listed);
    }
    sort_contents(entries)
}

/// Initializes content representations from one directory's files: its
/// sorted entries bracketed by a heading and a separator, or nothing when
/// no file qualifies.
pub fn init_dir_contents(fs: &Snapshot, path: &str) -> (r: Option<Vec<Content>>)
    ensures
        (r is Some) == (dir_section_spec(fs@, path@).len() > 0),
        r matches Some(v) ==> v.deep_view() == dir_section_spec(fs@, path@),
{
    let ghost es = normal_entries(files_in(fs@.files, path@));
    let mut sorted = dir_file_entries(fs, path);
    proof {
        lemma_sort_by_file_len(es);
    }
    if sorted.len() == 0 {
        return None;
    }
    let title = build_title_for_dir(fs, path, false);
    let heading = Content::new_heading(title);
    let mut out: Vec<Content> = Vec::new();
    out.push(heading);
    out.append(&mut sorted);
    out.push(Content::new_break());
    proof {
        assert(out.deep_view() =~= seq![heading_model(dir_title_spec(fs@, path@, false))]
            + sort_by_file(es) + seq![break_model()]);
    }
    Some(out)
}

proof fn lemma_sort_by_file_len(s: Seq<ContentModel>)
    ensures
        sort_by_file(s).len() == s.len(),
    decreases s.len(),
{
    if s.len() > 0 {
        lemma_sort_by_file_len(s.drop_last());
        lemma_insert_by_file_len(s.last(), sort_by_file(s.drop_last()));
    }
}

/// Generates the groups of all subdirectories of `root`, in sorted order.
pub fn init_dir_sections(fs: &Snapshot, root: &str) -> (r: Vec<Content>)
    ensures
        r.deep_view() == dir_sections_spec(fs@, root@),
{
    let dirs = fs.list_dirs(root);
    let sorted = sort_path_vec(dirs);
    let ghost ds = sort_paths(dirs_in(fs@.dirs, root@));
    let n = sorted.len();
    let mut out: Vec<Content> = Vec::new();
    proof {
        assert(out.deep_view() =~= sections_of(fs@, ds.take(0)));
    }
    let mut i: usize = 0;
    while i < n
        invariant
            0 <= i <= n,
            n == ds.len(),
            ds == sort_paths(dirs_in(fs@.dirs, root@)),
            sorted.deep_view() == ds,
            n == sorted@.len(),
            out.deep_view() == sections_of(fs@, ds.take(i as int)),
        decreases n - i,
    {
        let ghost pre = out.deep_view();
        proof {
            assert(ds[i as int] == sorted@[i as int]@);
            assert(ds.take(i + 1).drop_last() =~= ds.take(i as int));
            assert(ds.take(i + 1).last() == ds[i as int]);
        }
        match init_dir_contents(fs, sorted[i].as_str()) {
            Some(mut v) => {
                out.append(&mut v);
                proof {
                    assert(out.deep_view() =~= pre + dir_section_spec(fs@, ds[i as int]));
                }
            },
            None => {
                proof {
                    assert(pre + dir_section_spec(fs@, ds[i as int]) =~= pre);
                }
            },
        }
        i = i + 1;
    }
    proof {
        assert(ds.take(n as int) =~= ds);
    }
    out
}

} // verus!
