//! Path handling over plain strings: base names, stems, extensions, parents
//! and root-relative joins. A path is a `/`-separated string; the snapshot
//! the library works on stores every file and directory under such a path.

use vstd::prelude::*;
use vstd::string::StrSliceExecFns;
use vstd::string::StringExecFns;

use crate::text::lower_seq;
use crate::text::eq_lower;

verus! {

/// The index of the last occurrence of `c` in `s`, or `-1` if there is none.
pub open spec fn rfind_char(s: Seq<char>, c: char) -> int
    decreases s.len(),
{
    if s.len() == 0 {
        -1
    } else if s[s.len() - 1] == c {
        s.len() - 1
    } else {
        rfind_char(s.drop_last(), c)
    }
}

pub proof fn lemma_rfind_char_bounds(s: Seq<char>, c: char)
    ensures
        -1 <= rfind_char(s, c) < s.len(),
        rfind_char(s, c) >= 0 ==> s[rfind_char(s, c)] == c,
        forall|j: int| rfind_char(s, c) < j < s.len() ==> s[j] != c,
    decreases s.len(),
{
    if s.len() > 0 && s[s.len() - 1] != c {
        lemma_rfind_char_bounds(s.drop_last(), c);
        assert forall|j: int| rfind_char(s, c) < j < s.len() implies s[j] != c by {
            if j < s.len() - 1 {
                assert(s.drop_last()[j] != c);
            }
        }
    }
}

proof fn lemma_rfind_char_at(s: Seq<char>, c: char, i: int)
    requires
        -1 <= i < s.len(),
        forall|j: int| i < j < s.len() ==> s[j] != c,
        i == -1 || s[i] == c,
    ensures
        rfind_char(s, c) == i,
    decreases s.len(),
{
    if s.len() > 0 {
        if s[s.len() - 1] != c {
            lemma_rfind_char_at(s.drop_last(), c, i);
        }
    }
}

/// Finds the last occurrence of `c` in `s`.
fn rfind_char_str(s: &str, c: char) -> (r: Option<usize>)
    ensures
        match r {
            Some(i) => rfind_char(s@, c) == i,
            None => rfind_char(s@, c) == -1,
        },
{
    let n = s.unicode_len();
    let mut i: usize = n;
    while i > 0
        invariant
            0 <= i <= n,
            n == s@.len(),
            forall|j: int| i <= j < n ==> s@[j] != c,
        decreases i,
    {
        if s.get_char(i - 1) == c {
            proof {
                lemma_rfind_char_at(s@, c, i - 1);
            }
            return Some(i - 1);
        }
        i = i - 1;
    }
    proof {
        lemma_rfind_char_at(s@, c, -1);
    }
    None
}

/// The part of a path after its last separator: the file or directory name.
pub open spec fn base_name(p: Seq<char>) -> Seq<char> {
    p.skip(rfind_char(p, '/') + 1)
}

/// The name without its extension, as a file stem is usually understood:
/// everything before the last dot, unless the dot starts the name.
pub open spec fn stem_of(p: Seq<char>) -> Seq<char> {
    let b = base_name(p);
    let d = rfind_char(b, '.');
    if d <= 0 {
        b
    } else {
        b.take(d)
    }
}

/// The extension of a path, or the empty sequence if it has none.
pub open spec fn ext_of(p: Seq<char>) -> Seq<char> {
    let b = base_name(p);
    let d = rfind_char(b, '.');
    if d <= 0 {
        Seq::empty()
    } else {
        b.skip(d + 1)
    }
}

/// The directory part of a path: everything before the last separator.
pub open spec fn parent_of(p: Seq<char>) -> Seq<char> {
    let k = rfind_char(p, '/');
    if k < 0 {
        Seq::empty()
    } else {
        p.take(k)
    }
}

/// Whether a path is absolute.
pub open spec fn has_root(p: Seq<char>) -> bool {
    p.len() > 0 && p[0] == '/'
}

/// A path relative to a root, joined with a single separator.
pub open spec fn join(root: Seq<char>, rel: Seq<char>) -> Seq<char> {
    root + seq!['/'] + rel
}

/// Extracts the base name of a path.
pub fn base_name_str<'a>(p: &'a str) -> (r: &'a str)
    ensures
        r@ == base_name(p@),
{
    let n = p.unicode_len();
    proof {
        lemma_rfind_char_bounds(p@, '/');
    }
    match rfind_char_str(p, '/') {
        Some(k) => p.substring_char(k + 1, n),
        None => {
            proof {
                assert(p@.skip(0) =~= p@);
            }
            p
        },
    }
}

/// Extracts the stem of a path: its base name without the extension.
pub fn stem_str<'a>(p: &'a str) -> (r: &'a str)
    ensures
        r@ == stem_of(p@),
{
    let b = base_name_str(p);
    proof {
        lemma_rfind_char_bounds(b@, '.');
    }
    match rfind_char_str(b, '.') {
        Some(d) if d > 0 => b.substring_char(0, d),
        _ => b,
    }
}

/// Extracts the extension of a path, or the empty string if it has none.
pub fn ext_str<'a>(p: &'a str) -> (r: &'a str)
    ensures
        r@ == ext_of(p@),
{
    let b = base_name_str(p);
    let n = b.unicode_len();
    proof {
        lemma_rfind_char_bounds(b@, '.');
    }
    match rfind_char_str(b, '.') {
        Some(d) if d > 0 => b.substring_char(d + 1, n),
        _ => {
            proof {
                reveal_strlit("");
                assert(""@ =~= Seq::<char>::empty());
            }
            ""
        },
    }
}

/// Extracts the directory part of a path.
pub fn parent_str<'a>(p: &'a str) -> (r: &'a str)
    ensures
        r@ == parent_of(p@),
{
    proof {
        lemma_rfind_char_bounds(p@, '/');
    }
    match rfind_char_str(p, '/') {
        Some(k) => p.substring_char(0, k),
        None => {
            proof {
                reveal_strlit("");
                assert(""@ =~= Seq::<char>::empty());
            }
            ""
        },
    }
}

/// Whether a path is absolute.
pub fn has_root_str(p: &str) -> (r: bool)
    ensures
        r == has_root(p@),
{
    p.unicode_len() > 0 && p.get_char(0) == '/'
}

/// Joins a relative path onto a root with a single separator.
pub fn join_str(root: &str, rel: &str) -> (r: String)
    ensures
        r@ == join(root@, rel@),
{
    let mut s = String::from_str(root);
    s.append("/");
    s.append(rel);
    proof {
        reveal_strlit("/");
        assert("/"@ =~= seq!['/']);
    }
    s
}

/// Determines if a path is of the given extension, matching the path's
/// extension without regard to ASCII case.
pub fn is_ext(path: &str, ext: &str) -> (r: bool)
    ensures
        r == (lower_seq(ext_of(path@)) == lower_seq(ext@)),
{
    let e = ext_str(path);
    eq_lower(e, ext)
}

} // verus!
