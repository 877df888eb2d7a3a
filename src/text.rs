//! Character-level helpers for the statement parser: whitespace trimming,
//! keyword matching, searching and splitting on a separator, each stated
//! over `Seq<char>` and implemented over a `Vec<char>` range.
use vstd::prelude::*;
use vstd::string::StrSliceExecFns;

verus! {

/// What `char::is_whitespace` returns: membership in Unicode's White_Space set.
pub uninterp spec fn white_space(c: char) -> bool;

/// Relies on `char::is_whitespace`, which tests the Unicode White_Space property.
#[verifier::external_body]
pub(crate) fn is_space(c: char) -> (r: bool)
    ensures
        r == white_space(c),
{
    c.is_whitespace()
}

/// What `str::to_lowercase` returns: the lower-case mapping of every character.
pub uninterp spec fn lower_of(s: Seq<char>) -> Seq<char>;

/// Relies on `str::to_lowercase`: the result depends on the characters alone.
#[verifier::external_body]
pub(crate) fn lowercase(s: &str) -> (r: String)
    ensures
        r@ == lower_of(s@),
{
    s.to_lowercase()
}

/// `s` without its leading whitespace.
pub open spec fn trim_left(s: Seq<char>) -> Seq<char>
    decreases s.len(),
{
    if s.len() > 0 && white_space(s[0]) {
        trim_left(s.drop_first())
    } else {
        s
    }
}

/// `s` without its trailing whitespace.
pub open spec fn trim_right(s: Seq<char>) -> Seq<char>
    decreases s.len(),
{
    if s.len() > 0 && white_space(s.last()) {
        trim_right(s.drop_last())
    } else {
        s
    }
}

/// `s` without surrounding whitespace.
pub open spec fn trim(s: Seq<char>) -> Seq<char> {
    trim_right(trim_left(s))
}

/// `pre` is a prefix of `s`.
pub open spec fn starts_with(s: Seq<char>, pre: Seq<char>) -> bool {
    pre.len() <= s.len() && s.subrange(0, pre.len() as int) == pre
}

/// `pat` occurs in `s` at index `i`.
pub open spec fn occurs_at(s: Seq<char>, pat: Seq<char>, i: int) -> bool {
    0 <= i && i + pat.len() <= s.len() && s.subrange(i, i + pat.len()) == pat
}

/// The first index at or after `i` where `pat` occurs in `s`.
pub open spec fn find_from(s: Seq<char>, pat: Seq<char>, i: int) -> Option<int>
    decreases s.len() + 1 - i,
{
    if i < 0 || i + pat.len() > s.len() {
        None
    } else if occurs_at(s, pat, i) {
        Some(i)
    } else {
        find_from(s, pat, i + 1)
    }
}

/// The first index where `pat` occurs in `s`.
pub open spec fn find(s: Seq<char>, pat: Seq<char>) -> Option<int> {
    find_from(s, pat, 0)
}

/// The pieces of `s` between occurrences of `sep`: one more than the number of separators.
pub open spec fn pieces(s: Seq<char>, sep: char) -> Seq<Seq<char>>
    decreases s.len(),
{
    if s.len() == 0 {
        seq![Seq::<char>::empty()]
    } else {
        let p = pieces(s.drop_last(), sep);
        if s.last() == sep {
            p.push(Seq::<char>::empty())
        } else {
            p.update(p.len() - 1, p.last().push(s.last()))
        }
    }
}

/// The bounds of the trimmed part of `cs[lo..hi]`.
pub(crate) fn trim_range(cs: &Vec<char>, lo: usize, hi: usize) -> (r: (usize, usize))
    requires
        lo <= hi <= cs@.len(),
    ensures
        lo <= r.0 <= r.1 <= hi,
        cs@.subrange(r.0 as int, r.1 as int) == trim(cs@.subrange(lo as int, hi as int)),
{
    let mut a = lo;
    while a < hi && is_space(cs[a])
        invariant
            lo <= a <= hi <= cs@.len(),
            trim_left(cs@.subrange(lo as int, hi as int)) == trim_left(cs@.subrange(a as int, hi as int)),
        decreases hi - a,
    {
        assert(cs@.subrange(a as int, hi as int).drop_first() =~= cs@.subrange(a + 1, hi as int));
        a = a + 1;
    }
    assert(trim_left(cs@.subrange(a as int, hi as int)) == cs@.subrange(a as int, hi as int));
    let mut b = hi;
    while b > a && is_space(cs[b - 1])
        invariant
            lo <= a <= b <= hi <= cs@.len(),
            trim(cs@.subrange(lo as int, hi as int)) == trim_right(cs@.subrange(a as int, b as int)),
        decreases b - a,
    {
        assert(cs@.subrange(a as int, b as int).drop_last() =~= cs@.subrange(a as int, b - 1));
        b = b - 1;
    }
    (a, b)
}

/// Whether `pat` occurs in `cs` at index `i`, looking no further than `hi`.
pub(crate) fn occurs_at_exec(cs: &Vec<char>, hi: usize, pat: &Vec<char>, i: usize) -> (r: bool)
    requires
        hi <= cs@.len(),
        i <= hi,
    ensures
        r == occurs_at(cs@.subrange(0, hi as int), pat@, i as int),
{
    if pat.len() > hi - i {
        return false;
    }
    let mut k: usize = 0;
    while k < pat.len()
        invariant
            i + pat@.len() <= hi <= cs@.len(),
            k <= pat@.len(),
            forall|j: int| 0 <= j < k ==> cs@[i + j] == pat@[j],
        decreases pat@.len() - k,
    {
        if cs[i + k] != pat[k] {
            assert(cs@.subrange(0, hi as int).subrange(i as int, i + pat@.len())[k as int] != pat@[k as int]);
            return false;
        }
        k = k + 1;
    }
    assert(cs@.subrange(0, hi as int).subrange(i as int, i + pat@.len()) =~= pat@);
    true
}

proof fn lemma_find_shift(s: Seq<char>, pat: Seq<char>, lo: int, hi: int, i: int)
    requires
        0 <= lo <= hi <= s.len(),
        lo <= i <= hi + 1,
    ensures
        find_from(s.subrange(0, hi), pat, i) == (match find_from(s.subrange(lo, hi), pat, i - lo) {
            Some(j) => Some(j + lo),
            None => None::<int>,
        }),
    decreases hi + 1 - i,
{
    let a = s.subrange(0, hi);
    let b = s.subrange(lo, hi);
    if i + pat.len() <= hi {
        if occurs_at(a, pat, i) {
            assert(b.subrange(i - lo, i - lo + pat.len()) =~= a.subrange(i, i + pat.len()));
        } else {
            assert(b.subrange(i - lo, i - lo + pat.len()) =~= a.subrange(i, i + pat.len()));
            lemma_find_shift(s, pat, lo, hi, i + 1);
        }
    }
}

/// The first index at which `pat` occurs in `cs[lo..hi]`, counted from the start of `cs`.
pub(crate) fn find_in(cs: &Vec<char>, lo: usize, hi: usize, pat: &Vec<char>) -> (r: Option<usize>)
    requires
        lo <= hi <= cs@.len(),
    ensures
        r matches Some(i) ==> lo <= i && i + pat@.len() <= hi
            && find(cs@.subrange(lo as int, hi as int), pat@) == Some(i - lo),
        r is None ==> find(cs@.subrange(lo as int, hi as int), pat@) is None,
{
    proof {
        lemma_find_shift(cs@, pat@, lo as int, hi as int, lo as int);
    }
    let r = find_exec(cs, lo, hi, pat);
    proof {
        if let Some(i) = r {
            lemma_find_bounds(cs@.subrange(0, hi as int), pat@, lo as int);
        }
    }
    r
}

proof fn lemma_find_bounds(s: Seq<char>, pat: Seq<char>, i: int)
    ensures
        find_from(s, pat, i) matches Some(j) ==> i <= j && j + pat.len() <= s.len(),
    decreases s.len() + 1 - i,
{
    if !(i < 0 || i + pat.len() > s.len()) && !occurs_at(s, pat, i) {
        lemma_find_bounds(s, pat, i + 1);
    }
}

/// Whether `cs[a..b]` is exactly `kw`.
pub(crate) fn range_is(cs: &Vec<char>, a: usize, b: usize, kw: &Vec<char>) -> (r: bool)
    requires
        a <= b <= cs@.len(),
    ensures
        r == (cs@.subrange(a as int, b as int) == kw@),
{
    if b - a != kw.len() {
        return false;
    }
    let r = occurs_at_exec(cs, b, kw, a);
    assert(cs@.subrange(0, b as int).subrange(a as int, b as int) =~= cs@.subrange(a as int, b as int));
    r
}

/// Whether `cs[lo..hi]` starts with `kw`.
pub(crate) fn range_starts_with(cs: &Vec<char>, lo: usize, hi: usize, kw: &Vec<char>) -> (r: bool)
    requires
        lo <= hi <= cs@.len(),
    ensures
        r == starts_with(cs@.subrange(lo as int, hi as int), kw@),
{
    if kw.len() > hi - lo {
        return false;
    }
    let r = range_is(cs, lo, lo + kw.len(), kw);
    assert(cs@.subrange(lo as int, hi as int).subrange(0, kw@.len() as int) =~= cs@.subrange(lo as int, lo + kw@.len()));
    r
}

/// The bounds of the pieces of `cs[lo..hi]` between occurrences of `sep`.
pub(crate) fn split_ranges(cs: &Vec<char>, lo: usize, hi: usize, sep: char) -> (r: Vec<(usize, usize)>)
    requires
        lo <= hi <= cs@.len(),
    ensures
        r@.len() == pieces(cs@.subrange(lo as int, hi as int), sep).len(),
        forall|k: int| 0 <= k < r@.len() ==> lo <= (#[trigger] r@[k]).0 <= r@[k].1 <= hi
            && cs@.subrange(r@[k].0 as int, r@[k].1 as int) == pieces(cs@.subrange(lo as int, hi as int), sep)[k],
{
    let mut done: Vec<(usize, usize)> = Vec::new();
    let mut start = lo;
    let mut i = lo;
    assert(cs@.subrange(lo as int, lo as int) =~= Seq::<char>::empty());
    while i < hi
        invariant
            lo <= start <= i <= hi <= cs@.len(),
            pieces(cs@.subrange(lo as int, i as int), sep).len() == done@.len() + 1,
            pieces(cs@.subrange(lo as int, i as int), sep)[done@.len() as int] == cs@.subrange(start as int, i as int),
            forall|k: int| 0 <= k < done@.len() ==> lo <= (#[trigger] done@[k]).0 <= done@[k].1 <= hi
                && cs@.subrange(done@[k].0 as int, done@[k].1 as int) == pieces(cs@.subrange(lo as int, i as int), sep)[k],
        decreases hi - i,
    {
        let ghost prev = pieces(cs@.subrange(lo as int, i as int), sep);
        assert(cs@.subrange(lo as int, i + 1).drop_last() =~= cs@.subrange(lo as int, i as int));
        if cs[i] == sep {
            done.push((start, i));
            i = i + 1;
            start = i;
            assert(cs@.subrange(start as int, i as int) =~= Seq::<char>::empty());
        } else {
            assert(cs@.subrange(start as int, i + 1) =~= cs@.subrange(start as int, i as int).push(cs@[i as int]));
            i = i + 1;
        }
    }
    done.push((start, hi));
    done
}

/// The characters of `s`.
pub(crate) fn chars_of(s: &str) -> (r: Vec<char>)
    ensures
        r@ == s@,
{
    let n = s.unicode_len();
    let mut r: Vec<char> = Vec::new();
    let mut i: usize = 0;
    while i < n
        invariant
            n == s@.len(),
            i <= n,
            r@ == s@.subrange(0, i as int),
        decreases n - i,
    {
        r.push(s.get_char(i));
        i = i + 1;
        assert(r@ =~= s@.subrange(0, i as int));
    }
    assert(r@ =~= s@);
    r
}

/// The first index in `lo..hi` at which `pat` occurs in `cs[..hi]`.
pub(crate) fn find_exec(cs: &Vec<char>, lo: usize, hi: usize, pat: &Vec<char>) -> (r: Option<usize>)
    requires
        lo <= hi <= cs@.len(),
    ensures
        r matches Some(i) ==> find_from(cs@.subrange(0, hi as int), pat@, lo as int) == Some(i as int),
        r is None ==> find_from(cs@.subrange(0, hi as int), pat@, lo as int) is None,
{
    let ghost s = cs@.subrange(0, hi as int);
    let mut i = lo;
    while i <= hi
        invariant
            lo <= i <= hi + 1,
            hi <= cs@.len(),
            s == cs@.subrange(0, hi as int),
            find_from(s, pat@, lo as int) == find_from(s, pat@, i as int),
        decreases hi + 1 - i,
    {
        if occurs_at_exec(cs, hi, pat, i) {
            return Some(i);
        }
        if i == hi {
            assert(find_from(s, pat@, hi as int + 1) is None);
            return None;
        }
        i = i + 1;
    }
    None
}

} // verus!
