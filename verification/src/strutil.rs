//! Character-level helpers shared by the merge engine and the extractors:
//! locating a separator, taking the name part of an environment rule, and
//! taking the final segment of a path.

use vstd::prelude::*;

verus! {

/// First index at or after `i` where `c` occurs in `s`, if any.
pub open spec fn spec_find_from(s: Seq<char>, c: char, i: int) -> Option<int>
    decreases s.len() - i,
{
    if i < 0 || i >= s.len() {
        None
    } else if s[i] == c {
        Some(i)
    } else {
        spec_find_from(s, c, i + 1)
    }
}

/// First index where `c` occurs in `s`, if any.
pub open spec fn spec_find(s: Seq<char>, c: char) -> Option<int> {
    spec_find_from(s, c, 0)
}

/// Last index where `c` occurs in `s`, if any.
pub open spec fn spec_rfind_upto(s: Seq<char>, c: char, i: int) -> Option<int>
    decreases i,
{
    if i <= 0 || i > s.len() {
        None
    } else if s[i - 1] == c {
        Some(i - 1)
    } else {
        spec_rfind_upto(s, c, i - 1)
    }
}

/// Last index where `c` occurs in `s`, if any.
pub open spec fn spec_rfind(s: Seq<char>, c: char) -> Option<int> {
    spec_rfind_upto(s, c, s.len() as int)
}

/// Index of the first occurrence of `c` in `s`.
pub fn find_char(s: &str, c: char) -> (r: Option<usize>)
    ensures
        match r {
            Some(u) => spec_find(s@, c) == Some(u as int),
            None => spec_find(s@, c) is None,
        },
{
    let len = s.unicode_len();
    let mut i: usize = 0;
    while i < len
        invariant
            i <= len,
            len == s@.len(),
            spec_find(s@, c) == spec_find_from(s@, c, i as int),
        decreases len - i,
    {
        if s.get_char(i) == c {
            return Some(i);
        }
        i = i + 1;
    }
    None
}

/// Whether an environment entry carries a value (`NAME=...`) rather than
/// being a bare removal request (`NAME`).
pub open spec fn env_has_eq(e: Seq<char>) -> bool {
    spec_find(e, '=') is Some
}

/// The name part of an environment entry: everything before the first `=`,
/// or the whole entry when there is none.
pub open spec fn env_name(e: Seq<char>) -> Seq<char> {
    match spec_find(e, '=') {
        Some(i) => e.subrange(0, i),
        None => e,
    }
}

/// The name part of an environment entry, as a fresh string.
pub fn env_name_of(e: &String) -> (r: String)
    ensures
        r@ == env_name(e@),
{
    match find_char(e.as_str(), '=') {
        Some(i) => {
            proof {
                lemma_spec_find_in_range(e@, '=');
            }
            s_to_owned(e.as_str().substring_char(0, i))
        },
        None => e.clone(),
    }
}

/// Whether the entry carries a value; the executable twin of [`env_has_eq`].
pub fn env_entry_has_eq(e: &String) -> (r: bool)
    ensures
        r == env_has_eq(e@),
{
    find_char(e.as_str(), '=').is_some()
}

/// A found index lies inside the sequence.
pub proof fn lemma_spec_find_in_range(s: Seq<char>, c: char)
    ensures
        spec_find(s, c) matches Some(i) ==> 0 <= i < s.len() && s[i] == c,
{
    lemma_spec_find_from_in_range(s, c, 0);
}

proof fn lemma_spec_find_from_in_range(s: Seq<char>, c: char, i: int)
    ensures
        spec_find_from(s, c, i) matches Some(j) ==> i <= j < s.len() && s[j] == c,
    decreases s.len() - i,
{
    if 0 <= i < s.len() && s[i] != c {
        lemma_spec_find_from_in_range(s, c, i + 1);
    }
}

/// The string without its trailing slashes.
pub open spec fn strip_trailing_slashes(p: Seq<char>) -> Seq<char>
    decreases p.len(),
{
    if p.len() > 0 && p.last() == '/' {
        strip_trailing_slashes(p.drop_last())
    } else {
        p
    }
}

/// The final path segment: the part after the last `/` once trailing
/// slashes are stripped; nothing when no segment remains or when the
/// final component is `.` or `..`, which name no file.
pub open spec fn last_segment(p: Seq<char>) -> Option<Seq<char>> {
    let q = strip_trailing_slashes(p);
    if q.len() == 0 {
        None
    } else {
        let seg = (match spec_rfind(q, '/') {
            Some(i) => q.subrange(i + 1, q.len() as int),
            None => q,
        });
        if seg == "."@ || seg == ".."@ {
            None
        } else {
            Some(seg)
        }
    }
}

/// The reverse search finds exactly the last occurrence.
pub proof fn lemma_spec_rfind_exact(s: Seq<char>, c: char, i: int)
    requires
        0 <= i < s.len(),
        s[i] == c,
        forall|j: int| i < j < s.len() ==> s[j] != c,
    ensures
        spec_rfind(s, c) == Some(i),
{
    lemma_spec_rfind_upto_exact(s, c, i, s.len() as int);
}

proof fn lemma_spec_rfind_upto_exact(s: Seq<char>, c: char, i: int, upto: int)
    requires
        0 <= i < upto <= s.len(),
        s[i] == c,
        forall|j: int| i < j < s.len() ==> s[j] != c,
    ensures
        spec_rfind_upto(s, c, upto) == Some(i),
    decreases upto,
{
    if upto - 1 > i {
        lemma_spec_rfind_upto_exact(s, c, i, upto - 1);
    }
}

/// Without any occurrence the reverse search finds nothing.
pub proof fn lemma_spec_rfind_none(s: Seq<char>, c: char)
    requires
        forall|j: int| 0 <= j < s.len() ==> s[j] != c,
    ensures
        spec_rfind(s, c) is None,
{
    lemma_spec_rfind_upto_none(s, c, s.len() as int);
}

proof fn lemma_spec_rfind_upto_none(s: Seq<char>, c: char, upto: int)
    requires
        forall|j: int| 0 <= j < s.len() ==> s[j] != c,
    ensures
        spec_rfind_upto(s, c, upto) is None,
    decreases upto,
{
    if 0 < upto <= s.len() {
        lemma_spec_rfind_upto_none(s, c, upto - 1);
    }
}

/// The final path segment, as a fresh string.
pub fn last_segment_of(p: &str) -> (r: Option<String>)
    ensures
        match r {
            Some(s) => last_segment(p@) == Some(s@),
            None => last_segment(p@) is None,
        },
{
    let len = p.unicode_len();
    proof {
        assert(p@.subrange(0, p@.len() as int) =~= p@);
    }
    let mut end = len;
    while end > 0 && p.get_char(end - 1) == '/'
        invariant
            end <= len,
            len == p@.len(),
            strip_trailing_slashes(p@) == strip_trailing_slashes(p@.subrange(0, end as int)),
        decreases end,
    {
        proof {
            assert(p@.subrange(0, end as int).drop_last() =~= p@.subrange(0, end - 1 as int));
        }
        end = end - 1;
    }
    let ghost q = strip_trailing_slashes(p@);
    proof {
        if end > 0 {
            assert(p@.subrange(0, end as int).last() != '/');
        }
        assert(q == p@.subrange(0, end as int));
    }
    if end == 0 {
        proof {
            assert(q.len() == 0);
        }
        return None;
    }
    let mut i = end;
    while i > 0 && p.get_char(i - 1) != '/'
        invariant
            i <= end,
            end <= len,
            len == p@.len(),
            forall|j: int| i <= j < end ==> p@[j] != '/',
        decreases i,
    {
        i = i - 1;
    }
    proof {
        assert forall|j: int| 0 <= j < q.len() implies q[j] == p@[j] by {}
        if i > 0 {
            assert(p@[i - 1] == '/');
            lemma_spec_rfind_exact(q, '/', i - 1);
            assert(q.subrange(i as int, q.len() as int) =~= p@.subrange(i as int, end as int));
        } else {
            lemma_spec_rfind_none(q, '/');
            assert(q =~= p@.subrange(0, end as int));
        }
    }
    let seg = s_to_owned(p.substring_char(i, end));
    if str_eq(seg.as_str(), ".") || str_eq(seg.as_str(), "..") {
        return None;
    }
    Some(seg)
}

/// An owned copy of a string slice.
pub fn s_to_owned(s: &str) -> (r: String)
    ensures
        r@ == s@,
{
    s.to_owned()
}

/// An element-for-element copy of a vector of strings.
pub fn copy_strings(v: &Vec<String>) -> (r: Vec<String>)
    ensures
        r.deep_view() == v.deep_view(),
{
    let n = v.len();
    let mut r: Vec<String> = Vec::new();
    let mut i: usize = 0;
    while i < n
        invariant
            i <= n,
            n == v.len(),
            r.deep_view() =~= v.deep_view().subrange(0, i as int),
        decreases n - i,
    {
        let ghost pre = r.deep_view();
        let c = v[i].clone();
        proof {
            assert(c@ == v.deep_view()[i as int]);
        }
        r.push(c);
        proof {
            assert(r.deep_view() =~= pre.push(c@));
            assert(r.deep_view() =~= v.deep_view().subrange(0, i + 1 as int));
        }
        i = i + 1;
    }
    proof {
        assert(v.deep_view().subrange(0, n as int) =~= v.deep_view());
    }
    r
}

/// Equality of a string against a literal.
pub fn str_eq(a: &str, b: &str) -> (r: bool)
    ensures
        r == (a@ == b@),
{
    let aa: String = a.to_owned();
    let bb: String = b.to_owned();
    aa == bb
}

} // verus!
