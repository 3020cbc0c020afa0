//! Character-level text helpers: whitespace trimming, heading detection and
//! title inference over the lines of a document.

use vstd::prelude::*;
use vstd::string::StrSliceExecFns;
use vstd::string::StringExecFns;

verus! {

/// The whitespace characters a line is trimmed of.
pub open spec fn is_space(c: char) -> bool {
    c == ' ' || c == '\t' || c == '\n' || c == '\r' || c == '\u{b}' || c == '\u{c}'
}

/// Predicate form of `is_space`, for the trimming functions.
pub open spec fn space_p() -> spec_fn(char) -> bool {
    |c: char| is_space(c)
}

/// Predicate that holds of the plain space character only.
pub open spec fn blank_p() -> spec_fn(char) -> bool {
    |c: char| c == ' '
}

/// Predicate that holds of the heading marker only.
pub open spec fn hash_p() -> spec_fn(char) -> bool {
    |c: char| c == '#'
}

/// Drops the longest prefix of characters satisfying `p`.
pub open spec fn drop_front_while(s: Seq<char>, p: spec_fn(char) -> bool) -> Seq<char>
    decreases s.len(),
{
    if s.len() > 0 && p(s[0]) {
        drop_front_while(s.drop_first(), p)
    } else {
        s
    }
}

/// Drops the longest suffix of characters satisfying `p`.
pub open spec fn drop_back_while(s: Seq<char>, p: spec_fn(char) -> bool) -> Seq<char>
    decreases s.len(),
{
    if s.len() > 0 && p(s[s.len() - 1]) {
        drop_back_while(s.drop_last(), p)
    } else {
        s
    }
}

/// Removes from both ends every character satisfying `p`.
pub open spec fn trim_by(s: Seq<char>, p: spec_fn(char) -> bool) -> Seq<char> {
    drop_back_while(drop_front_while(s, p), p)
}

/// A line trimmed of surrounding whitespace.
pub open spec fn ws_trim(s: Seq<char>) -> Seq<char> {
    trim_by(s, space_p())
}

proof fn lemma_drop_front_while_at(s: Seq<char>, p: spec_fn(char) -> bool, i: int)
    requires
        0 <= i <= s.len(),
        forall|j: int| 0 <= j < i ==> p(s[j]),
        i == s.len() || !p(s[i]),
    ensures
        drop_front_while(s, p) == s.skip(i),
    decreases i,
{
    if i == 0 {
        assert(s.skip(0) =~= s);
    } else {
        lemma_drop_front_while_at(s.drop_first(), p, i - 1);
        assert(s.drop_first().skip(i - 1) =~= s.skip(i));
    }
}

proof fn lemma_drop_back_while_at(s: Seq<char>, p: spec_fn(char) -> bool, i: int)
    requires
        0 <= i <= s.len(),
        forall|j: int| i <= j < s.len() ==> p(s[j]),
        i == 0 || !p(s[i - 1]),
    ensures
        drop_back_while(s, p) == s.take(i),
    decreases s.len() - i,
{
    if i == s.len() {
        assert(s.take(i) =~= s);
        if s.len() > 0 && p(s[s.len() - 1]) {
            assert(false);
        }
    } else {
        lemma_drop_back_while_at(s.drop_last(), p, i);
        assert(s.drop_last().take(i) =~= s.take(i));
    }
}

/// Whether `c` counts as whitespace when trimming a line.
pub fn is_space_char(c: char) -> (r: bool)
    ensures
        r == is_space(c),
{
    c == ' ' || c == '\t' || c == '\n' || c == '\r' || c == '\u{b}' || c == '\u{c}'
}

/// Trims surrounding whitespace from a string slice.
pub fn ws_trim_str<'a>(s: &'a str) -> (r: &'a str)
    ensures
        r@ == ws_trim(s@),
{
    let n = s.unicode_len();
    let mut lo: usize = 0;
    while lo < n && is_space_char(s.get_char(lo))
        invariant
            0 <= lo <= n,
            n == s@.len(),
            forall|j: int| 0 <= j < lo ==> is_space(s@[j]),
        decreases n - lo,
    {
        lo = lo + 1;
    }
    let mut hi: usize = n;
    while hi > lo && is_space_char(s.get_char(hi - 1))
        invariant
            lo <= hi <= n,
            n == s@.len(),
            forall|j: int| hi <= j < n ==> is_space(s@[j]),
        decreases hi,
    {
        hi = hi - 1;
    }
    proof {
        lemma_drop_front_while_at(s@, space_p(), lo as int);
        lemma_drop_back_while_at(s@.skip(lo as int), space_p(), hi - lo);
        assert(s@.skip(lo as int).take(hi - lo) =~= s@.subrange(lo as int, hi as int));
    }
    s.substring_char(lo, hi)
}

/// The title a single line yields: the text after a leading run of heading
/// markers, trimmed of surrounding spaces, if the trimmed line starts with a
/// marker and something is left.
pub open spec fn line_title(line: Seq<char>) -> Option<Seq<char>> {
    let t = ws_trim(line);
    if t.len() > 0 && t[0] == '#' {
        let u = trim_by(drop_front_while(t, hash_p()), blank_p());
        if u.len() > 0 {
            Some(u)
        } else {
            None
        }
    } else {
        None
    }
}

/// Extracts the title a single line yields, if any.
pub fn line_title_str(line: &str) -> (r: Option<String>)
    ensures
        r.deep_view() == line_title(line@),
{
    let t = ws_trim_str(line);
    let n = t.unicode_len();
    if n > 0 && t.get_char(0) == '#' {
        let mut k: usize = 0;
        while k < n && t.get_char(k) == '#'
            invariant
                0 <= k <= n,
                n == t@.len(),
                forall|j: int| 0 <= j < k ==> t@[j] == '#',
            decreases n - k,
        {
            k = k + 1;
        }
        let mut lo: usize = k;
        while lo < n && t.get_char(lo) == ' '
            invariant
                k <= lo <= n,
                n == t@.len(),
                forall|j: int| k <= j < lo ==> t@[j] == ' ',
            decreases n - lo,
        {
            lo = lo + 1;
        }
        let mut hi: usize = n;
        while hi > lo && t.get_char(hi - 1) == ' '
            invariant
                lo <= hi <= n,
                n == t@.len(),
                forall|j: int| hi <= j < n ==> t@[j] == ' ',
        decreases hi,
        {
            hi = hi - 1;
        }
        proof {
            lemma_drop_front_while_at(t@, hash_p(), k as int);
            lemma_drop_front_while_at(t@.skip(k as int), blank_p(), lo - k);
            assert(t@.skip(k as int).skip(lo - k) =~= t@.skip(lo as int));
            lemma_drop_back_while_at(t@.skip(lo as int), blank_p(), hi - lo);
            assert(t@.skip(lo as int).take(hi - lo) =~= t@.subrange(lo as int, hi as int));
        }
        if lo == hi {
            None
        } else {
            Some(String::from_str(t.substring_char(lo, hi)))
        }
    } else {
        None
    }
}

/// The index of the first occurrence of `c` in `s`, or the length of `s`.
pub open spec fn find_char(s: Seq<char>, c: char) -> int
    decreases s.len(),
{
    if s.len() == 0 {
        0
    } else if s[0] == c {
        0
    } else {
        1 + find_char(s.drop_first(), c)
    }
}

pub proof fn lemma_find_char_bounds(s: Seq<char>, c: char)
    ensures
        0 <= find_char(s, c) <= s.len(),
        find_char(s, c) < s.len() ==> s[find_char(s, c)] == c,
        forall|j: int| 0 <= j < find_char(s, c) ==> s[j] != c,
    decreases s.len(),
{
    if s.len() > 0 && s[0] != c {
        lemma_find_char_bounds(s.drop_first(), c);
        assert forall|j: int| 0 <= j < find_char(s, c) implies s[j] != c by {
            if j > 0 {
                assert(s.drop_first()[j - 1] != c);
            }
        }
    }
}

proof fn lemma_find_char_at(s: Seq<char>, c: char, i: int)
    requires
        0 <= i <= s.len(),
        forall|j: int| 0 <= j < i ==> s[j] != c,
        i == s.len() || s[i] == c,
    ensures
        find_char(s, c) == i,
    decreases i,
{
    if i > 0 {
        lemma_find_char_at(s.drop_first(), c, i - 1);
    }
}

/// The lines of a text, split on the newline character.
pub open spec fn split_lines(s: Seq<char>) -> Seq<Seq<char>>
    decreases s.len() via split_lines_dec
{
    let i = find_char(s, '\n');
    if i >= s.len() {
        seq![s]
    } else {
        seq![s.take(i)] + split_lines(s.skip(i + 1))
    }
}

#[via_fn]
proof fn split_lines_dec(s: Seq<char>) {
    lemma_find_char_bounds(s, '\n');
}

/// The first title any line of `lines` yields.
pub open spec fn lines_title(lines: Seq<Seq<char>>) -> Option<Seq<char>>
    decreases lines.len(),
{
    if lines.len() == 0 {
        None
    } else if line_title(lines[0]) is Some {
        line_title(lines[0])
    } else {
        lines_title(lines.drop_first())
    }
}

/// The title of a document: what its first heading line yields.
pub open spec fn text_title(s: Seq<char>) -> Option<Seq<char>> {
    lines_title(split_lines(s))
}

fn find_newline(s: &str) -> (i: usize)
    ensures
        i == find_char(s@, '\n'),
        i <= s@.len(),
{
    let n = s.unicode_len();
    let mut i: usize = 0;
    while i < n && s.get_char(i) != '\n'
        invariant
            0 <= i <= n,
            n == s@.len(),
            forall|j: int| 0 <= j < i ==> s@[j] != '\n',
        decreases n - i,
    {
        i = i + 1;
    }
    proof {
        lemma_find_char_at(s@, '\n', i as int);
    }
    i
}

/// Generates the title from document text: scans the lines from the top and
/// returns what the first heading line yields, or nothing if no line does.
pub fn title_string(text: &str) -> (r: Option<String>)
    ensures
        r.deep_view() == text_title(text@),
    decreases text@.len(),
{
    let n = text.unicode_len();
    let i = find_newline(text);
    let line = text.substring_char(0, i);
    proof {
        assert(line@ =~= text@.take(i as int));
    }
    let lt = line_title_str(line);
    if lt.is_some() {
        proof {
            if i < n {
                assert(split_lines(text@).drop_first() =~= split_lines(text@.skip(i + 1)));
            } else {
                assert(text@.take(i as int) =~= text@);
            }
        }
        return lt;
    }
    if i >= n {
        proof {
            assert(text@.take(i as int) =~= text@);
            assert(split_lines(text@) == seq![text@]);
            assert(line_title(text@) is None);
            assert(seq![text@].drop_first() =~= Seq::<Seq<char>>::empty());
            assert(lines_title(Seq::<Seq<char>>::empty()) is None);
        }
        None
    } else {
        let rest = text.substring_char(i + 1, n);
        proof {
            assert(rest@ =~= text@.skip(i + 1));
            assert(split_lines(text@) == seq![text@.take(i as int)] + split_lines(
                text@.skip(i + 1),
            ));
            assert(split_lines(text@)[0] == text@.take(i as int));
            assert(line_title(split_lines(text@)[0]) is None);
            assert(split_lines(text@).drop_first() =~= split_lines(text@.skip(i + 1)));
        }
        title_string(rest)
    }
}

/// Maps an upper-case ASCII letter to its lower-case form.
pub open spec fn lower_char(c: char) -> char {
    if 65 <= c as u32 && c as u32 <= 90 {
        ((c as u32 + 32) as u8) as char
    } else {
        c
    }
}

/// A character sequence with every ASCII letter lowered.
pub open spec fn lower_seq(s: Seq<char>) -> Seq<char> {
    Seq::new(s.len(), |i: int| lower_char(s[i]))
}

fn lower_char_x(c: char) -> (r: char)
    ensures
        r == lower_char(c),
{
    let u = c as u32;
    if 65 <= u && u <= 90 {
        ((u + 32) as u8) as char
    } else {
        c
    }
}

/// Compares two strings for equality ignoring ASCII case.
pub fn eq_lower(a: &str, b: &str) -> (r: bool)
    ensures
        r == (lower_seq(a@) == lower_seq(b@)),
{
    let na = a.unicode_len();
    let nb = b.unicode_len();
    if na != nb {
        proof {
            assert(lower_seq(a@).len() == a@.len());
            assert(lower_seq(b@).len() == b@.len());
        }
        return false;
    }
    let mut i: usize = 0;
    while i < na
        invariant
            0 <= i <= na,
            na == a@.len(),
            na == b@.len(),
            forall|j: int| 0 <= j < i ==> lower_char(a@[j]) == lower_char(b@[j]),
        decreases na - i,
    {
        if lower_char_x(a.get_char(i)) != lower_char_x(b.get_char(i)) {
            proof {
                assert(lower_seq(a@)[i as int] != lower_seq(b@)[i as int]);
            }
            return false;
        }
        i = i + 1;
    }
    proof {
        assert(lower_seq(a@) =~= lower_seq(b@));
    }
    true
}

/// Compares two strings for character-for-character equality.
pub fn str_eq(a: &str, b: &str) -> (r: bool)
    ensures
        r == (a@ == b@),
{
    let na = a.unicode_len();
    let nb = b.unicode_len();
    if na != nb {
        return false;
    }
    let mut i: usize = 0;
    while i < na
        invariant
            0 <= i <= na,
            na == a@.len(),
            na == b@.len(),
            forall|j: int| 0 <= j < i ==> a@[j] == b@[j],
        decreases na - i,
    {
        if a.get_char(i) != b.get_char(i) {
            return false;
        }
        i = i + 1;
    }
    proof {
        assert(a@ =~= b@);
    }
    true
}

/// Lexicographic order on character sequences, by code point.
pub open spec fn lex_le(a: Seq<char>, b: Seq<char>) -> bool
    decreases a.len(),
{
    if a.len() == 0 {
        true
    } else if b.len() == 0 {
        false
    } else if a[0] != b[0] {
        (a[0] as u32) < (b[0] as u32)
    } else {
        lex_le(a.drop_first(), b.drop_first())
    }
}

/// Decides the lexicographic order on two strings.
pub fn lex_le_str(a: &str, b: &str) -> (r: bool)
    ensures
        r == lex_le(a@, b@),
    decreases a@.len(),
{
    let na = a.unicode_len();
    let nb = b.unicode_len();
    if na == 0 {
        return true;
    }
    if nb == 0 {
        return false;
    }
    let ca = a.get_char(0);
    let cb = b.get_char(0);
    if ca != cb {
        return (ca as u32) < (cb as u32);
    }
    let ra = a.substring_char(1, na);
    let rb = b.substring_char(1, nb);
    proof {
        assert(ra@ =~= a@.drop_first());
        assert(rb@ =~= b@.drop_first());
    }
    lex_le_str(ra, rb)
}

/// The lexicographic order is total.
pub proof fn lemma_lex_le_total(a: Seq<char>, b: Seq<char>)
    ensures
        lex_le(a, b) || lex_le(b, a),
    decreases a.len(),
{
    if a.len() > 0 && b.len() > 0 {
        if a[0] == b[0] {
            lemma_lex_le_total(a.drop_first(), b.drop_first());
        } else {
            vstd::utf8::char_u32_cast(a[0], a[0] as u32);
            vstd::utf8::char_u32_cast(b[0], b[0] as u32);
            assert((a[0] as u32) != (b[0] as u32));
        }
    }
}

} // verus!
