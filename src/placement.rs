//! The placement of a process: which cgroup it is in, per controller, as the
//! kernel lists it in `/proc/<pid>/cgroup`.
//!
//! Each line there reads `<hierarchy id>:<controller>,<controller>...:<path>`.
//! The first two colons delimit the columns; any further ones belong to the path.
use vstd::prelude::*;
use vstd::set_lib::lemma_len_union;

use crate::bytemap::ByteMap;
use crate::bytes::{copy_range, find, find_byte, lemma_find_ge};

verus! {

/// Line separator.
pub open spec fn newline() -> u8 {
    10u8
}

/// Column separator.
pub open spec fn colon() -> u8 {
    58u8
}

/// Separator of co-mounted controller names.
pub open spec fn comma() -> u8 {
    44u8
}

#[via_fn]
proof fn names_map_decreases(s: Seq<u8>, i: int, end: int, path: Seq<u8>) {
    if i < end {
        lemma_find_ge(s, comma(), i, end);
    }
}

/// Each non-empty name of the comma-separated list `s[i..end]`, mapped to `path`.
pub open spec fn names_map(s: Seq<u8>, i: int, end: int, path: Seq<u8>) -> Map<Seq<u8>, Seq<u8>>
    decreases end + 1 - i
    via names_map_decreases
{
    if i >= end {
        Map::empty()
    } else {
        let k = find(s, comma(), i, end);
        let here = if k > i {
            Map::empty().insert(s.subrange(i, k), path)
        } else {
            Map::empty()
        };
        here.union_prefer_right(names_map(s, k + 1, end, path))
    }
}

/// The entries that the line `s[a..e]` contributes: none unless it has three
/// columns; else each controller name of the second column, mapped to the third.
pub open spec fn line_map(s: Seq<u8>, a: int, e: int) -> Map<Seq<u8>, Seq<u8>> {
    let c1 = find(s, colon(), a, e);
    let c2 = find(s, colon(), c1 + 1, e);
    if c1 >= e || c2 >= e {
        Map::empty()
    } else {
        names_map(s, c1 + 1, c2, s.subrange(c2 + 1, e))
    }
}

#[via_fn]
proof fn lines_map_decreases(s: Seq<u8>, i: int) {
    if i < s.len() {
        lemma_find_ge(s, newline(), i, s.len() as int);
    }
}

/// The entries of the lines from position `i` on; a later line wins over an
/// earlier one.
pub open spec fn lines_map(s: Seq<u8>, i: int) -> Map<Seq<u8>, Seq<u8>>
    decreases s.len() + 1 - i
    via lines_map_decreases
{
    if i >= s.len() {
        Map::empty()
    } else {
        let e = find(s, newline(), i, s.len() as int);
        line_map(s, i, e).union_prefer_right(lines_map(s, e + 1))
    }
}

/// The placement map that the contents `s` of a procfs cgroup file give.
pub open spec fn placement_of(s: Seq<u8>) -> Map<Seq<u8>, Seq<u8>> {
    lines_map(s, 0)
}

/// How many non-empty names the comma-separated list `s[i..end]` holds,
/// counting repeats.
pub open spec fn names_count(s: Seq<u8>, i: int, end: int) -> nat
    decreases end + 1 - i
    via names_count_decreases
{
    if i >= end {
        0
    } else {
        let k = find(s, comma(), i, end);
        (if k > i { 1nat } else { 0nat }) + names_count(s, k + 1, end)
    }
}

#[via_fn]
proof fn names_count_decreases(s: Seq<u8>, i: int, end: int) {
    if i < end {
        lemma_find_ge(s, comma(), i, end);
    }
}

/// How many controller names the line `s[a..e]` lists, if it has three columns.
pub open spec fn line_count(s: Seq<u8>, a: int, e: int) -> nat {
    let c1 = find(s, colon(), a, e);
    let c2 = find(s, colon(), c1 + 1, e);
    if c1 >= e || c2 >= e {
        0
    } else {
        names_count(s, c1 + 1, c2)
    }
}

/// How many controller names the lines from position `i` on list in all.
pub open spec fn lines_count(s: Seq<u8>, i: int) -> nat
    decreases s.len() + 1 - i
    via lines_count_decreases
{
    if i >= s.len() {
        0
    } else {
        let e = find(s, newline(), i, s.len() as int);
        line_count(s, i, e) + lines_count(s, e + 1)
    }
}

#[via_fn]
proof fn lines_count_decreases(s: Seq<u8>, i: int) {
    if i < s.len() {
        lemma_find_ge(s, newline(), i, s.len() as int);
    }
}

proof fn lemma_union_size(a: Map<Seq<u8>, Seq<u8>>, b: Map<Seq<u8>, Seq<u8>>)
    requires
        a.dom().finite(),
        b.dom().finite(),
    ensures
        a.union_prefer_right(b).dom().finite(),
        a.union_prefer_right(b).len() <= a.len() + b.len(),
{
    assert(a.union_prefer_right(b).dom() =~= a.dom().union(b.dom()));
    lemma_len_union(a.dom(), b.dom());
}

proof fn lemma_names_size(s: Seq<u8>, i: int, end: int, path: Seq<u8>)
    ensures
        names_map(s, i, end, path).dom().finite(),
        names_map(s, i, end, path).len() <= names_count(s, i, end),
    decreases end + 1 - i,
{
    if i < end {
        let k = find(s, comma(), i, end);
        lemma_find_ge(s, comma(), i, end);
        lemma_names_size(s, k + 1, end, path);
        let here = if k > i {
            Map::empty().insert(s.subrange(i, k), path)
        } else {
            Map::<Seq<u8>, Seq<u8>>::empty()
        };
        assert(here.dom().finite() && here.len() == (if k > i { 1nat } else { 0nat })) by {
            if k > i {
                assert(here.dom() =~= set![s.subrange(i, k)]);
            } else {
                assert(here.dom() =~= Set::empty());
            }
        }
        lemma_union_size(here, names_map(s, k + 1, end, path));
    } else {
        assert(names_map(s, i, end, path).dom() =~= Set::empty());
    }
}

proof fn lemma_lines_size(s: Seq<u8>, i: int)
    ensures
        lines_map(s, i).dom().finite(),
        lines_map(s, i).len() <= lines_count(s, i),
    decreases s.len() + 1 - i,
{
    if i < s.len() {
        let e = find(s, newline(), i, s.len() as int);
        lemma_find_ge(s, newline(), i, s.len() as int);
        lemma_lines_size(s, e + 1);
        let c1 = find(s, colon(), i, e);
        let c2 = find(s, colon(), c1 + 1, e);
        if c1 >= e || c2 >= e {
            assert(line_map(s, i, e).dom() =~= Set::empty());
        } else {
            lemma_names_size(s, c1 + 1, c2, s.subrange(c2 + 1, e));
        }
        lemma_union_size(line_map(s, i, e), lines_map(s, e + 1));
    } else {
        assert(lines_map(s, i).dom() =~= Set::empty());
    }
}

/// The placement map that procfs contents give is finite, with at most as many
/// entries as the controller names that its lines list, repeats counted. Each
/// of its keys has one path, being a map.
pub proof fn lemma_placement_size(s: Seq<u8>)
    ensures
        placement_of(s).dom().finite(),
        placement_of(s).len() <= lines_count(s, 0),
{
    lemma_lines_size(s, 0);
}

proof fn lemma_union_assoc(
    a: Map<Seq<u8>, Seq<u8>>,
    b: Map<Seq<u8>, Seq<u8>>,
    c: Map<Seq<u8>, Seq<u8>>,
)
    ensures
        a.union_prefer_right(b.union_prefer_right(c)) == a.union_prefer_right(b).union_prefer_right(
            c,
        ),
{
    assert(a.union_prefer_right(b.union_prefer_right(c)) =~= a.union_prefer_right(
        b,
    ).union_prefer_right(c));
}

/// Adds to `m` the entries of the line `s[a..e]`.
fn add_line(m: &mut ByteMap, s: &[u8], a: usize, e: usize)
    requires
        old(m).wf(),
        a <= e <= s@.len(),
    ensures
        final(m).wf(),
        final(m)@ == old(m)@.union_prefer_right(line_map(s@, a as int, e as int)),
{
    let c1 = find_byte(s, 58u8, a, e);
    if c1 == e {
        assert(old(m)@.union_prefer_right(Map::empty()) =~= old(m)@);
        return;
    }
    let c2 = find_byte(s, 58u8, c1 + 1, e);
    if c2 == e {
        assert(old(m)@.union_prefer_right(Map::empty()) =~= old(m)@);
        return;
    }
    let ghost path = s@.subrange(c2 + 1, e as int);
    let mut j: usize = c1 + 1;
    while j < c2
        invariant
            m.wf(),
            c1 < j <= c2 + 1,
            c2 < e <= s@.len(),
            path == s@.subrange(c2 + 1, e as int),
            old(m)@.union_prefer_right(line_map(s@, a as int, e as int)) == m@.union_prefer_right(
                names_map(s@, j as int, c2 as int, path),
            ),
        decreases c2 + 1 - j,
    {
        let k = find_byte(s, 44u8, j, c2);
        let ghost before = m@;
        let ghost here = if k > j {
            Map::empty().insert(s@.subrange(j as int, k as int), path)
        } else {
            Map::<Seq<u8>, Seq<u8>>::empty()
        };
        if k > j {
            let name = copy_range(s, j, k);
            let value = copy_range(s, c2 + 1, e);
            m.insert(name, value);
            assert(m@ =~= before.union_prefer_right(here));
        } else {
            assert(m@ =~= before.union_prefer_right(here));
        }
        proof {
            lemma_union_assoc(before, here, names_map(s@, k + 1, c2 as int, path));
        }
        j = k + 1;
    }
    assert(m@.union_prefer_right(Map::empty()) =~= m@);
}

/// Parses the contents of a procfs cgroup file into a placement map.
pub fn parse_placement(s: &[u8]) -> (r: ByteMap)
    ensures
        r.wf(),
        r@ == placement_of(s@),
{
    let mut m = ByteMap::new();
    let mut i: usize = 0;
    assert(placement_of(s@) =~= m@.union_prefer_right(lines_map(s@, 0)));
    while i < s.len()
        invariant
            m.wf(),
            i <= s@.len(),
            placement_of(s@) == m@.union_prefer_right(lines_map(s@, i as int)),
        decreases s@.len() - i,
    {
        let e = find_byte(s, 10u8, i, s.len());
        let ghost before = m@;
        add_line(&mut m, s, i, e);
        proof {
            lemma_union_assoc(
                before,
                line_map(s@, i as int, e as int),
                lines_map(s@, e + 1),
            );
        }
        if e < s.len() {
            i = e + 1;
        } else {
            i = e;
            assert(lines_map(s@, e + 1) == lines_map(s@, e as int));
        }
    }
    assert(m@.union_prefer_right(Map::empty()) =~= m@);
    m
}

} // verus!
