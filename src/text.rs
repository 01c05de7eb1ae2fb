//! Character-sequence helpers: searching, trimming and slicing of a line.
use vstd::prelude::*;

verus! {

/// Unicode white space, as `char::is_whitespace` classifies it.
pub open spec fn is_space(c: char) -> bool {
    let n = c as u32;
    (0x9 <= n && n <= 0xD) || n == 0x20 || n == 0x85 || n == 0xA0 || n == 0x1680 || (0x2000 <= n
        && n <= 0x200A) || n == 0x2028 || n == 0x2029 || n == 0x202F || n == 0x205F || n == 0x3000
}

pub open spec fn trim_start(s: Seq<char>) -> Seq<char>
    decreases s.len(),
{
    if s.len() > 0 && is_space(s[0]) {
        trim_start(s.drop_first())
    } else {
        s
    }
}

pub open spec fn trim_end(s: Seq<char>) -> Seq<char>
    decreases s.len(),
{
    if s.len() > 0 && is_space(s.last()) {
        trim_end(s.drop_last())
    } else {
        s
    }
}

/// White space removed at both ends.
pub open spec fn trim(s: Seq<char>) -> Seq<char> {
    trim_end(trim_start(s))
}

pub open spec fn starts_with(s: Seq<char>, p: Seq<char>) -> bool {
    p.len() <= s.len() && s.take(p.len() as int) == p
}

pub open spec fn shift(o: Option<int>, d: int) -> Option<int> {
    match o {
        Some(i) => Some(i + d),
        None => None,
    }
}

/// Index of the first occurrence of `p` in `s`.
pub open spec fn find(s: Seq<char>, p: Seq<char>) -> Option<int>
    decreases s.len(),
{
    if starts_with(s, p) {
        Some(0)
    } else if s.len() == 0 {
        None
    } else {
        shift(find(s.drop_first(), p), 1)
    }
}

pub open spec fn contains(s: Seq<char>, p: Seq<char>) -> bool {
    find(s, p) is Some
}

/// Index of the last occurrence of `c` in `s`.
pub open spec fn rfind_char(s: Seq<char>, c: char) -> Option<int>
    decreases s.len(),
{
    if s.len() == 0 {
        None
    } else if s.last() == c {
        Some(s.len() - 1)
    } else {
        rfind_char(s.drop_last(), c)
    }
}

pub proof fn lemma_find_bounds(s: Seq<char>, p: Seq<char>)
    ensures
        find(s, p) matches Some(i) ==> 0 <= i && i + p.len() <= s.len() && s.subrange(
            i,
            i + p.len(),
        ) == p,
    decreases s.len(),
{
    if !starts_with(s, p) && s.len() > 0 {
        lemma_find_bounds(s.drop_first(), p);
        if let Some(i) = find(s.drop_first(), p) {
            assert(s.subrange(i + 1, i + 1 + p.len()) =~= s.drop_first().subrange(i, i + p.len()));
        }
    }
}

pub fn is_space_char(c: char) -> (b: bool)
    ensures
        b == is_space(c),
{
    let n = c as u32;
    (0x9 <= n && n <= 0xD) || n == 0x20 || n == 0x85 || n == 0xA0 || n == 0x1680 || (0x2000 <= n
        && n <= 0x200A) || n == 0x2028 || n == 0x2029 || n == 0x202F || n == 0x205F || n == 0x3000
}

/// The characters of `s`, one by one.
pub fn chars_of(s: &str) -> (r: Vec<char>)
    ensures
        r@ == s@,
{
    let mut v: Vec<char> = Vec::new();
    for c in it: s.chars()
        invariant
            v@ == it.seq().take(it.index() as int),
    {
        v.push(c);
    }
    v
}

/// The text of the characters `lo..hi` of `s`, as an owned string.
pub fn text_of(s: &str, lo: usize, hi: usize) -> (r: String)
    requires
        lo <= hi <= s@.len(),
    ensures
        r@ == s@.subrange(lo as int, hi as int),
{
    s.substring_char(lo, hi).to_owned()
}

/// Whether `v[i..hi]` begins with `p`.
pub fn starts_with_at(v: &Vec<char>, i: usize, hi: usize, p: &Vec<char>) -> (b: bool)
    requires
        i <= hi <= v.len(),
    ensures
        b == starts_with(v@.subrange(i as int, hi as int), p@),
{
    if p.len() > hi - i {
        return false;
    }
    let mut k: usize = 0;
    while k < p.len()
        invariant
            i <= hi <= v.len(),
            p.len() <= hi - i,
            k <= p.len(),
            forall|j: int| 0 <= j < k ==> v@[i + j] == p@[j],
        decreases p.len() - k,
    {
        if v[i + k] != p[k] {
            assert(v@.subrange(i as int, hi as int).take(p.len() as int)[k as int] != p@[k as int]);
            return false;
        }
        k = k + 1;
    }
    assert(v@.subrange(i as int, hi as int).take(p.len() as int) =~= p@);
    true
}

/// First occurrence of `p` in `v[lo..hi]`, as an index into `v`.
pub fn find_in(v: &Vec<char>, lo: usize, hi: usize, p: &Vec<char>) -> (r: Option<usize>)
    requires
        lo <= hi <= v.len(),
    ensures
        r matches Some(k) ==> lo <= k <= hi && find(v@.subrange(lo as int, hi as int), p@) == Some(
            k - lo,
        ),
        r is None ==> find(v@.subrange(lo as int, hi as int), p@) is None,
{
    let mut i = lo;
    loop
        invariant
            lo <= i <= hi <= v.len(),
            find(v@.subrange(lo as int, hi as int), p@) == shift(
                find(v@.subrange(i as int, hi as int), p@),
                i - lo,
            ),
        decreases hi - i,
    {
        if starts_with_at(v, i, hi, p) {
            return Some(i);
        }
        if i == hi {
            return None;
        }
        assert(v@.subrange(i as int, hi as int).drop_first() =~= v@.subrange(i + 1, hi as int));
        i = i + 1;
    }
}

/// Last occurrence of `c` in `v[lo..hi]`, as an index into `v`.
pub fn rfind_char_in(v: &Vec<char>, lo: usize, hi: usize, c: char) -> (r: Option<usize>)
    requires
        lo <= hi <= v.len(),
    ensures
        r matches Some(k) ==> lo <= k < hi && rfind_char(v@.subrange(lo as int, hi as int), c)
            == Some(k - lo),
        r is None ==> rfind_char(v@.subrange(lo as int, hi as int), c) is None,
{
    let mut i = hi;
    while i > lo
        invariant
            lo <= i <= hi <= v.len(),
            rfind_char(v@.subrange(lo as int, hi as int), c) == rfind_char(
                v@.subrange(lo as int, i as int),
                c,
            ),
        decreases i - lo,
    {
        assert(v@.subrange(lo as int, i as int).drop_last() =~= v@.subrange(lo as int, i - 1));
        if v[i - 1] == c {
            return Some(i - 1);
        }
        i = i - 1;
    }
    None
}

/// Start of `v[lo..hi]` once leading white space is skipped.
pub fn trim_start_in(v: &Vec<char>, lo: usize, hi: usize) -> (a: usize)
    requires
        lo <= hi <= v.len(),
    ensures
        lo <= a <= hi,
        trim_start(v@.subrange(lo as int, hi as int)) == v@.subrange(a as int, hi as int),
{
    let mut i = lo;
    while i < hi && is_space_char(v[i])
        invariant
            lo <= i <= hi <= v.len(),
            trim_start(v@.subrange(lo as int, hi as int)) == trim_start(
                v@.subrange(i as int, hi as int),
            ),
        decreases hi - i,
    {
        assert(v@.subrange(i as int, hi as int).drop_first() =~= v@.subrange(i + 1, hi as int));
        i = i + 1;
    }
    i
}

/// End of `v[lo..hi]` once trailing white space is dropped.
pub fn trim_end_in(v: &Vec<char>, lo: usize, hi: usize) -> (b: usize)
    requires
        lo <= hi <= v.len(),
    ensures
        lo <= b <= hi,
        trim_end(v@.subrange(lo as int, hi as int)) == v@.subrange(lo as int, b as int),
{
    let mut i = hi;
    while i > lo && is_space_char(v[i - 1])
        invariant
            lo <= i <= hi <= v.len(),
            trim_end(v@.subrange(lo as int, hi as int)) == trim_end(
                v@.subrange(lo as int, i as int),
            ),
        decreases i - lo,
    {
        assert(v@.subrange(lo as int, i as int).drop_last() =~= v@.subrange(lo as int, i - 1));
        i = i - 1;
    }
    i
}

/// Bounds of `v[lo..hi]` with white space removed at both ends.
pub fn trim_in(v: &Vec<char>, lo: usize, hi: usize) -> (r: (usize, usize))
    requires
        lo <= hi <= v.len(),
    ensures
        lo <= r.0 <= r.1 <= hi,
        trim(v@.subrange(lo as int, hi as int)) == v@.subrange(r.0 as int, r.1 as int),
{
    let a = trim_start_in(v, lo, hi);
    let b = trim_end_in(v, a, hi);
    (a, b)
}

/// First occurrence of the character `c` in `v[lo..hi]`, as an index into `v`.
pub fn find_char_in(v: &Vec<char>, lo: usize, hi: usize, c: char) -> (r: Option<usize>)
    requires
        lo <= hi <= v.len(),
    ensures
        r matches Some(k) ==> lo <= k < hi && v@[k as int] == c && find(
            v@.subrange(lo as int, hi as int),
            seq![c],
        ) == Some(k - lo),
        r is None ==> find(v@.subrange(lo as int, hi as int), seq![c]) is None,
{
    let mut p: Vec<char> = Vec::new();
    p.push(c);
    assert(p@ =~= seq![c]);
    let r = find_in(v, lo, hi, &p);
    proof {
        lemma_find_bounds(v@.subrange(lo as int, hi as int), seq![c]);
        if let Some(k) = r {
            assert(v@.subrange(lo as int, hi as int).subrange(k - lo, k - lo + 1)[0] == v@[k as int]);
        }
    }
    r
}

/// Where `find` finds nothing, `p` occurs nowhere in `s`.
pub proof fn lemma_find_none(s: Seq<char>, p: Seq<char>, j: int)
    requires
        find(s, p) is None,
        0 <= j,
        j + p.len() <= s.len(),
    ensures
        s.subrange(j, j + p.len()) != p,
    decreases s.len(),
{
    if j == 0 {
        assert(s.take(p.len() as int) == s.subrange(0, p.len() as int));
    } else {
        lemma_find_none(s.drop_first(), p, j - 1);
        assert(s.drop_first().subrange(j - 1, j - 1 + p.len()) =~= s.subrange(j, j + p.len()));
    }
}

/// What occurs in a part of `s` occurs in `s`.
pub proof fn lemma_contains_sub(s: Seq<char>, lo: int, hi: int, p: Seq<char>)
    requires
        0 <= lo <= hi <= s.len(),
        contains(s.subrange(lo, hi), p),
    ensures
        contains(s, p),
{
    let t = s.subrange(lo, hi);
    lemma_find_bounds(t, p);
    let i = find(t, p)->0;
    assert(t.subrange(i, i + p.len()) =~= s.subrange(lo + i, lo + i + p.len()));
    if find(s, p) is None {
        lemma_find_none(s, p, lo + i);
    }
}

pub open spec fn lacks(x: Seq<char>, c: char) -> bool {
    forall|i: int| 0 <= i < x.len() ==> x[i] != c
}

/// A character that `x` lacks is first found where `y` begins.
pub proof fn lemma_find_char_after(x: Seq<char>, y: Seq<char>, c: char)
    requires
        lacks(x, c),
        y.len() > 0,
        y[0] == c,
    ensures
        find(x + y, seq![c]) == Some(x.len() as int),
    decreases x.len(),
{
    if x.len() == 0 {
        assert(x + y =~= y);
        assert(y.take(1) =~= seq![c]);
    } else {
        assert((x + y).take(1)[0] == x[0]);
        assert((x + y).drop_first() =~= x.drop_first() + y);
        lemma_find_char_after(x.drop_first(), y, c);
    }
}

/// A character that `x` lacks is not found in `x`.
pub proof fn lemma_find_char_absent(x: Seq<char>, c: char)
    requires
        lacks(x, c),
    ensures
        find(x, seq![c]) is None,
    decreases x.len(),
{
    if x.len() > 0 {
        assert(x.take(1)[0] == x[0]);
        lemma_find_char_absent(x.drop_first(), c);
    }
}

/// A character that `y` lacks is last found just before `y`.
pub proof fn lemma_rfind_char_before(x: Seq<char>, y: Seq<char>, c: char)
    requires
        lacks(y, c),
    ensures
        rfind_char(x + seq![c] + y, c) == Some(x.len() as int),
    decreases y.len(),
{
    if y.len() == 0 {
        assert(x + seq![c] + y =~= x + seq![c]);
    } else {
        assert((x + seq![c] + y).drop_last() =~= x + seq![c] + y.drop_last());
        lemma_rfind_char_before(x, y.drop_last(), c);
    }
}

} // verus!
