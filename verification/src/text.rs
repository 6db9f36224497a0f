use vstd::prelude::*;

verus! {

// ------------------------------------------------------------------
// Searching in character sequences
// ------------------------------------------------------------------

/// Index of the first occurrence of the non-empty pattern `pat` in `s`
/// that starts at or after `from`; `None` when there is none.
pub open spec fn find_from(s: Seq<char>, pat: Seq<char>, from: int) -> Option<int>
    decreases s.len() - from,
{
    if pat.len() == 0 || from < 0 || from + pat.len() > s.len() {
        None
    } else if s.subrange(from, from + pat.len()) == pat {
        Some(from)
    } else {
        find_from(s, pat, from + 1)
    }
}

/// An occurrence that `find_from` reports lies at or after `from`, inside
/// `s`, and holds the pattern.
pub proof fn lemma_find_from_hit(s: Seq<char>, pat: Seq<char>, from: int)
    ensures
        find_from(s, pat, from) matches Some(j) ==> from <= j && j + pat.len() <= s.len()
            && s.subrange(j, j + pat.len()) == pat,
    decreases s.len() - from,
{
    if pat.len() == 0 || from < 0 || from + pat.len() > s.len() {
    } else if s.subrange(from, from + pat.len()) == pat {
    } else {
        lemma_find_from_hit(s, pat, from + 1);
    }
}

/// Whether the character `c` occurs nowhere in `s`.
pub open spec fn lacks(s: Seq<char>, c: char) -> bool {
    forall|k: int| 0 <= k < s.len() ==> s[k] != c
}

/// A search for one character from `from` reports its first occurrence
/// there or after, or none when it does not occur from there on.
pub proof fn lemma_find_char_from(s: Seq<char>, c: char, from: int)
    requires
        0 <= from,
    ensures
        match find_from(s, seq![c], from) {
            Some(j) => from <= j < s.len() && s[j] == c && forall|k: int| from <= k < j ==> s[k] != c,
            None => forall|k: int| from <= k < s.len() ==> s[k] != c,
        },
    decreases s.len() - from,
{
    if from + 1 > s.len() {
    } else if s.subrange(from, from + 1) == seq![c] {
        assert(s[from] == s.subrange(from, from + 1)[0]);
    } else {
        assert(s[from] != c) by {
            if s[from] == c {
                assert(s.subrange(from, from + 1) =~= seq![c]);
            }
        }
        lemma_find_char_from(s, c, from + 1);
    }
}

/// The part before the first `c` is a prefix of `s` that lacks `c`, and is
/// all of `s` when `s` lacks `c`.
pub proof fn lemma_before_first(s: Seq<char>, c: char)
    ensures
        before_first(s, c).len() <= s.len(),
        before_first(s, c) == s.take(before_first(s, c).len() as int),
        lacks(before_first(s, c), c),
        lacks(s, c) ==> before_first(s, c) == s,
{
    lemma_find_char_from(s, c, 0);
    if find(s, seq![c]) is None {
        assert(s.take(s.len() as int) =~= s);
    }
}

/// The last `c` below `end`, when there is one, lies below `end` and holds
/// `c`.
pub proof fn lemma_rfind_below(s: Seq<char>, c: char, end: int)
    ensures
        rfind_below(s, c, end) matches Some(i) ==> 0 <= i < end && i < s.len() && s[i] == c,
    decreases end,
{
    if end <= 0 || end > s.len() {
    } else if s[end - 1] == c {
    } else {
        lemma_rfind_below(s, c, end - 1);
    }
}

/// Skipping leading `c`s from `i` stops inside `s` (or at its end), at a
/// character other than `c`.
pub proof fn lemma_skip_leading(s: Seq<char>, c: char, i: int)
    requires
        0 <= i <= s.len(),
    ensures
        i <= skip_leading(s, c, i) <= s.len(),
        skip_leading(s, c, i) < s.len() ==> s[skip_leading(s, c, i)] != c,
        i < s.len() && s[i] != c ==> skip_leading(s, c, i) == i,
    decreases s.len() - i,
{
    if i < s.len() && s[i] == c {
        lemma_skip_leading(s, c, i + 1);
    }
}

/// Cutting trailing `c`s off `s.take(j)` stops at a length whose last
/// character is not `c`.
pub proof fn lemma_skip_trailing(s: Seq<char>, c: char, j: int)
    requires
        0 <= j <= s.len(),
    ensures
        0 <= skip_trailing(s, c, j) <= j,
        skip_trailing(s, c, j) > 0 ==> s[skip_trailing(s, c, j) - 1] != c,
        j > 0 && s[j - 1] != c ==> skip_trailing(s, c, j) == j,
    decreases j,
{
    if 0 < j && s[j - 1] == c {
        lemma_skip_trailing(s, c, j - 1);
    }
}

/// Index of the first occurrence of the non-empty pattern `pat` in `s`.
pub open spec fn find(s: Seq<char>, pat: Seq<char>) -> Option<int> {
    find_from(s, pat, 0)
}

/// What `s.split(c).next()` gives: the part of `s` before its first `c`,
/// or all of `s` when `c` does not occur.
pub open spec fn before_first(s: Seq<char>, c: char) -> Seq<char> {
    match find(s, seq![c]) {
        Some(i) => s.take(i),
        None => s,
    }
}

/// Index of the last `c` in `s.take(end)`.
pub open spec fn rfind_below(s: Seq<char>, c: char, end: int) -> Option<int>
    decreases end,
{
    if end <= 0 || end > s.len() {
        None
    } else if s[end - 1] == c {
        Some(end - 1)
    } else {
        rfind_below(s, c, end - 1)
    }
}

/// Index of the last `c` in `s`.
pub open spec fn rfind(s: Seq<char>, c: char) -> Option<int> {
    rfind_below(s, c, s.len() as int)
}

/// First index at or after `i` that does not hold `c`.
pub open spec fn skip_leading(s: Seq<char>, c: char, i: int) -> int
    decreases s.len() - i,
{
    if 0 <= i < s.len() && s[i] == c {
        skip_leading(s, c, i + 1)
    } else {
        i
    }
}

/// End of `s.take(j)` once every trailing `c` is cut off.
pub open spec fn skip_trailing(s: Seq<char>, c: char, j: int) -> int
    decreases j,
{
    if 0 < j <= s.len() && s[j - 1] == c {
        skip_trailing(s, c, j - 1)
    } else {
        j
    }
}

/// `s` without its leading `c`s (what `trim_start_matches(c)` gives).
pub open spec fn trim_start_char(s: Seq<char>, c: char) -> Seq<char> {
    s.subrange(skip_leading(s, c, 0), s.len() as int)
}

/// `s` without its trailing `c`s (what `trim_end_matches(c)` gives).
pub open spec fn trim_end_char(s: Seq<char>, c: char) -> Seq<char> {
    s.take(skip_trailing(s, c, s.len() as int))
}

/// Whether `s` starts with `p`.
pub open spec fn has_prefix(s: Seq<char>, p: Seq<char>) -> bool {
    p.len() <= s.len() && s.take(p.len() as int) == p
}

// ------------------------------------------------------------------
// Executable searching, on a window `[lo, hi)` of a character vector
// ------------------------------------------------------------------

/// The characters of `s`, in order.
pub fn chars_of(s: &str) -> (r: Vec<char>)
    ensures
        r@ == s@,
{
    let mut out: Vec<char> = Vec::new();
    for c in it: s.chars()
        invariant
            out@ == it.seq().take(it.index() as int),
            it.seq() == s@,
    {
        out.push(c);
    }
    out
}

/// Whether `pat` occurs in `v` at index `i`.
fn matches_at(v: &Vec<char>, i: usize, pat: &Vec<char>) -> (r: bool)
    requires
        i + pat.len() <= v.len(),
    ensures
        r == (v@.subrange(i as int, i + pat.len()) == pat@),
{
    let k = pat.len();
    let mut j: usize = 0;
    while j < k
        invariant
            j <= k,
            k == pat.len(),
            i + k <= v.len(),
            forall|m: int| 0 <= m < j ==> v@[i + m] == pat@[m],
        decreases k - j,
    {
        if v[i + j] != pat[j] {
            assert(v@.subrange(i as int, i + k)[j as int] != pat@[j as int]);
            return false;
        }
        j = j + 1;
    }
    assert(v@.subrange(i as int, i + k) =~= pat@);
    true
}

/// First occurrence of `pat` in the window `v[lo..hi]`, as an index into `v`.
pub fn find_in(v: &Vec<char>, lo: usize, hi: usize, pat: &Vec<char>) -> (r: Option<usize>)
    requires
        lo <= hi <= v.len(),
    ensures
        match r {
            Some(i) => lo <= i && i + pat.len() <= hi && find(
                v@.subrange(lo as int, hi as int),
                pat@,
            ) == Some(i - lo),
            None => find(v@.subrange(lo as int, hi as int), pat@) is None,
        },
{
    let ghost w = v@.subrange(lo as int, hi as int);
    proof {
        lemma_find_from_hit(w, pat@, 0);
    }
    let k = pat.len();
    if k == 0 {
        return None;
    }
    let mut i: usize = lo;
    while i <= hi && hi - i >= k
        invariant
            lo <= i,
            hi <= v.len(),
            k == pat.len(),
            k > 0,
            w == v@.subrange(lo as int, hi as int),
            i <= hi ==> find(w, pat@) == find_from(w, pat@, i - lo),
            i > hi ==> find(w, pat@) is None,
        decreases hi + 1 - i,
    {
        let hit = matches_at(v, i, pat);
        assert(w.subrange(i - lo, i - lo + k) =~= v@.subrange(i as int, i + k));
        if hit {
            return Some(i);
        }
        i = i + 1;
    }
    None
}

/// Last occurrence of `c` in the window `v[lo..hi]`, as an index into `v`.
pub fn rfind_in(v: &Vec<char>, lo: usize, hi: usize, c: char) -> (r: Option<usize>)
    requires
        lo <= hi <= v.len(),
    ensures
        match r {
            Some(i) => lo <= i < hi && rfind(v@.subrange(lo as int, hi as int), c) == Some(i - lo),
            None => rfind(v@.subrange(lo as int, hi as int), c) is None,
        },
{
    let ghost w = v@.subrange(lo as int, hi as int);
    let mut j: usize = hi;
    while j > lo
        invariant
            lo <= j <= hi,
            hi <= v.len(),
            w == v@.subrange(lo as int, hi as int),
            rfind(w, c) == rfind_below(w, c, j - lo),
        decreases j,
    {
        if v[j - 1] == c {
            return Some(j - 1);
        }
        j = j - 1;
    }
    None
}

/// First index of the window `v[lo..hi]` that does not hold `c`.
pub fn skip_leading_in(v: &Vec<char>, lo: usize, hi: usize, c: char) -> (r: usize)
    requires
        lo <= hi <= v.len(),
    ensures
        lo <= r <= hi,
        r - lo == skip_leading(v@.subrange(lo as int, hi as int), c, 0),
{
    let ghost w = v@.subrange(lo as int, hi as int);
    let mut i: usize = lo;
    while i < hi && v[i] == c
        invariant
            lo <= i <= hi,
            hi <= v.len(),
            w == v@.subrange(lo as int, hi as int),
            skip_leading(w, c, 0) == skip_leading(w, c, i - lo),
        decreases hi - i,
    {
        i = i + 1;
    }
    i
}

/// End of the window `v[lo..hi]` once every trailing `c` is cut off.
pub fn skip_trailing_in(v: &Vec<char>, lo: usize, hi: usize, c: char) -> (r: usize)
    requires
        lo <= hi <= v.len(),
    ensures
        lo <= r <= hi,
        r - lo == skip_trailing(v@.subrange(lo as int, hi as int), c, hi - lo),
{
    let ghost w = v@.subrange(lo as int, hi as int);
    let mut j: usize = hi;
    while j > lo && v[j - 1] == c
        invariant
            lo <= j <= hi,
            hi <= v.len(),
            w == v@.subrange(lo as int, hi as int),
            skip_trailing(w, c, hi - lo) == skip_trailing(w, c, j - lo),
        decreases j,
    {
        j = j - 1;
    }
    j
}

} // verus!

verus! {

// ------------------------------------------------------------------
// Unicode-aware string operations of std
// ------------------------------------------------------------------

/// Whether `c` has the Unicode property White_Space.
pub open spec fn is_white_space(c: char) -> bool {
    let u = c as u32;
    (0x09 <= u <= 0x0d) || u == 0x20 || u == 0x85 || u == 0xa0 || u == 0x1680 || (0x2000 <= u
        <= 0x200a) || u == 0x2028 || u == 0x2029 || u == 0x202f || u == 0x205f || u == 0x3000
}

/// First index at or after `i` that does not hold white space.
pub open spec fn skip_white_leading(s: Seq<char>, i: int) -> int
    decreases s.len() - i,
{
    if 0 <= i < s.len() && is_white_space(s[i]) {
        skip_white_leading(s, i + 1)
    } else {
        i
    }
}

/// End of `s.take(j)` once its trailing white space is cut off.
pub open spec fn skip_white_trailing(s: Seq<char>, j: int) -> int
    decreases j,
{
    if 0 < j <= s.len() && is_white_space(s[j - 1]) {
        skip_white_trailing(s, j - 1)
    } else {
        j
    }
}

/// `s` without its leading and trailing white space (what `str::trim`
/// gives).
pub open spec fn trimmed(s: Seq<char>) -> Seq<char> {
    let t = s.subrange(skip_white_leading(s, 0), s.len() as int);
    t.take(skip_white_trailing(t, t.len() as int))
}

/// What `str::to_lowercase` returns for a string with these characters: the
/// Unicode lowercase mapping of every character, in order.
pub uninterp spec fn lowercased(s: Seq<char>) -> Seq<char>;

/// Calls `str::trim`. The contract claims that the result is the input
/// without its leading and trailing characters of the Unicode property
/// White_Space, as std documents.
#[verifier::external_body]
pub(crate) fn trim_str(s: &str) -> (r: &str)
    ensures
        r@ == trimmed(s@),
{
    s.trim()
}

/// Calls `str::to_lowercase`. The contract claims only that the result is the
/// named value `lowercased` of the input's characters, that is, that the
/// lowercase mapping depends on its argument alone (it uses no locale).
#[verifier::external_body]
pub(crate) fn lowercase_str(s: &str) -> (r: String)
    ensures
        r@ == lowercased(s@),
{
    s.to_lowercase()
}

/// Whether two string slices hold the same characters.
pub fn str_eq(a: &str, b: &str) -> (r: bool)
    ensures
        r == (a@ == b@),
{
    let x = String::from_str(a);
    let y = String::from_str(b);
    x == y
}

/// What `s.strip_prefix(p)` gives.
pub fn strip_prefix<'a>(s: &'a str, p: &str) -> (r: Option<&'a str>)
    ensures
        match r {
            Some(rest) => has_prefix(s@, p@) && rest@ == s@.subrange(p@.len() as int, s@.len() as int),
            None => !has_prefix(s@, p@),
        },
{
    let sv = chars_of(s);
    let pv = chars_of(p);
    let n = sv.len();
    let k = pv.len();
    if k > n {
        return None;
    }
    let mut j: usize = 0;
    while j < k
        invariant
            j <= k <= n,
            n == sv.len(),
            k == pv.len(),
            sv@ == s@,
            pv@ == p@,
            forall|m: int| 0 <= m < j ==> sv@[m] == pv@[m],
        decreases k - j,
    {
        if sv[j] != pv[j] {
            assert(s@.take(k as int)[j as int] != p@[j as int]);
            return None;
        }
        j = j + 1;
    }
    assert(s@.take(k as int) =~= p@);
    Some(s.substring_char(k, n))
}

} // verus!
