//! Byte-string helpers: searching, copying, comparing and path joining.
use vstd::prelude::*;

verus! {

/// Index of the first `c` in `s[i..end]`, or `end` where there is none.
pub open spec fn find(s: Seq<u8>, c: u8, i: int, end: int) -> int
    decreases end - i,
{
    if i >= end {
        end
    } else if s[i] == c {
        i
    } else {
        find(s, c, i + 1, end)
    }
}

/// `find` lands inside `[i, end]`, on a `c` unless it is `end`, and skips no `c`.
pub proof fn lemma_find_bounds(s: Seq<u8>, c: u8, i: int, end: int)
    requires
        0 <= i <= end <= s.len(),
    ensures
        i <= find(s, c, i, end) <= end,
        find(s, c, i, end) < end ==> s[find(s, c, i, end)] == c,
        forall|j: int| i <= j < find(s, c, i, end) ==> s[j] != c,
    decreases end - i,
{
    if i < end && s[i] != c {
        lemma_find_bounds(s, c, i + 1, end);
    }
}

/// `find` does not move backwards.
pub proof fn lemma_find_ge(s: Seq<u8>, c: u8, i: int, end: int)
    requires
        i <= end,
    ensures
        i <= find(s, c, i, end) <= end,
    decreases end - i,
{
    if i < end && s[i] != c {
        lemma_find_ge(s, c, i + 1, end);
    }
}

/// The path separator.
pub open spec fn slash() -> u8 {
    47u8
}

/// `dir` with `seg` appended as one more path segment: a separator goes between
/// the two unless `dir` is empty or already ends with one. An empty `seg` leaves
/// a trailing separator.
pub open spec fn join(dir: Seq<u8>, seg: Seq<u8>) -> Seq<u8> {
    if dir.len() == 0 || dir.last() == slash() {
        dir + seg
    } else {
        dir.push(slash()) + seg
    }
}

/// `p` without one leading separator, if it has one.
pub open spec fn strip_leading_slash(p: Seq<u8>) -> Seq<u8> {
    if p.len() > 0 && p[0] == slash() {
        p.drop_first()
    } else {
        p
    }
}

/// The first `c` in `s[from..end]`, or `end`.
pub fn find_byte(s: &[u8], c: u8, from: usize, end: usize) -> (r: usize)
    requires
        from <= end <= s@.len(),
    ensures
        r as int == find(s@, c, from as int, end as int),
        from <= r <= end,
        r < end ==> s@[r as int] == c,
{
    let mut i: usize = from;
    while i < end && s[i] != c
        invariant
            from <= i <= end <= s@.len(),
            find(s@, c, from as int, end as int) == find(s@, c, i as int, end as int),
        decreases end - i,
    {
        i = i + 1;
    }
    proof {
        lemma_find_bounds(s@, c, from as int, end as int);
    }
    i
}

/// A fresh copy of `s[a..b]`.
pub fn copy_range(s: &[u8], a: usize, b: usize) -> (r: Vec<u8>)
    requires
        a <= b <= s@.len(),
    ensures
        r@ == s@.subrange(a as int, b as int),
{
    let mut r: Vec<u8> = Vec::new();
    let mut i: usize = a;
    while i < b
        invariant
            a <= i <= b <= s@.len(),
            r@ == s@.subrange(a as int, i as int),
        decreases b - i,
    {
        r.push(s[i]);
        i = i + 1;
        assert(r@ =~= s@.subrange(a as int, i as int));
    }
    r
}

/// A fresh copy of `s`.
pub fn copy_all(s: &[u8]) -> (r: Vec<u8>)
    ensures
        r@ == s@,
{
    let r = copy_range(s, 0, s.len());
    assert(s@.subrange(0, s@.len() as int) =~= s@);
    r
}

/// Whether the two byte strings are equal.
pub fn bytes_eq(x: &[u8], y: &[u8]) -> (r: bool)
    ensures
        r == (x@ == y@),
{
    if x.len() != y.len() {
        return false;
    }
    let mut i: usize = 0;
    while i < x.len()
        invariant
            x@.len() == y@.len(),
            i <= x@.len(),
            forall|j: int| 0 <= j < i ==> x@[j] == y@[j],
        decreases x@.len() - i,
    {
        if x[i] != y[i] {
            return false;
        }
        i = i + 1;
    }
    assert(x@ =~= y@);
    true
}

/// `dir` joined with the segment `seg`.
pub fn join_path(dir: &[u8], seg: &[u8]) -> (r: Vec<u8>)
    ensures
        r@ == join(dir@, seg@),
{
    let mut r = copy_all(dir);
    if dir.len() > 0 && dir[dir.len() - 1] != 47u8 {
        r.push(47u8);
    }
    let ghost head = r@;
    let mut i: usize = 0;
    while i < seg.len()
        invariant
            i <= seg@.len(),
            r@ == head + seg@.subrange(0, i as int),
        decreases seg@.len() - i,
    {
        r.push(seg[i]);
        i = i + 1;
        assert(r@ =~= head + seg@.subrange(0, i as int));
    }
    assert(seg@.subrange(0, seg@.len() as int) =~= seg@);
    r
}

/// `p` without one leading separator.
pub fn strip_slash(p: &[u8]) -> (r: Vec<u8>)
    ensures
        r@ == strip_leading_slash(p@),
{
    if p.len() > 0 && p[0] == 47u8 {
        let r = copy_range(p, 1, p.len());
        assert(r@ =~= p@.drop_first());
        r
    } else {
        copy_all(p)
    }
}

} // verus!
