//! Dotted version numbers and their ordering.

use vstd::prelude::*;
use crate::text::{chars_of, parse_u32, parsed_u32, slice_of, split, split_on, trim, trimmed, views};

verus! {

/// A version: the numeric components of a dotted version string, in order.
#[derive(Debug, Clone, PartialEq, Eq)]
pub struct Version {
    pub parts: Vec<u32>,
}

/// `s` without any leading `v` or `V`.
pub open spec fn without_v(s: Seq<char>) -> Seq<char>
    decreases s.len(),
{
    if s.len() > 0 && (s.first() == 'v' || s.first() == 'V') {
        without_v(s.drop_first())
    } else {
        s
    }
}

/// The pieces that parse as numbers, in order; the others are dropped.
pub open spec fn numbers(pieces: Seq<Seq<char>>) -> Seq<u32>
    decreases pieces.len(),
{
    if pieces.len() == 0 {
        Seq::<u32>::empty()
    } else {
        let before = numbers(pieces.drop_last());
        match parsed_u32(pieces.last()) {
            Some(n) => before.push(n),
            None => before,
        }
    }
}

/// The components of the version that `s` writes: white space around it and
/// leading `v`s are dropped, the rest is cut at the dots, and the pieces that
/// are not numbers are skipped.
pub open spec fn version_parts(s: Seq<char>) -> Seq<u32> {
    numbers(split_on(without_v(trimmed(s)), '.'))
}

/// Component `i` of a version, zero beyond its end.
pub open spec fn part(v: Seq<u32>, i: int) -> u32 {
    if 0 <= i < v.len() {
        v[i]
    } else {
        0
    }
}

/// `a` is newer than `b`: at the first component where they differ, with the
/// shorter one padded by zeros, `a` is larger.
pub open spec fn newer(a: Seq<u32>, b: Seq<u32>) -> bool {
    exists|i: int|
        0 <= i && part(a, i) > part(b, i) && forall|j: int| 0 <= j < i ==> part(a, j) == part(b, j)
}

/// The numbers among `pieces`, in order.
pub fn parse_numbers(pieces: &Vec<Vec<char>>) -> (r: Vec<u32>)
    ensures
        r@ == numbers(views(pieces@)),
{
    let mut r: Vec<u32> = Vec::new();
    let mut i: usize = 0;
    while i < pieces.len()
        invariant
            i <= pieces.len(),
            r@ == numbers(views(pieces@).take(i as int)),
        decreases pieces.len() - i,
    {
        proof {
            let next = views(pieces@).take(i + 1);
            assert(next.drop_last() == views(pieces@).take(i as int));
            assert(next.last() == pieces@[i as int]@);
        }
        match parse_u32(&pieces[i]) {
            Some(n) => {
                r.push(n);
            },
            None => {},
        }
        i += 1;
    }
    assert(views(pieces@).take(pieces.len() as int) == views(pieces@));
    r
}

impl Version {
    /// Reads a version from text. Never fails: what is not a number is skipped.
    pub fn parse(s: &str) -> (v: Version)
        ensures
            v.parts@ == version_parts(s@),
    {
        let all = chars_of(s);
        let core = trim(&all);
        let n = core.len();
        let mut start: usize = 0;
        assert(core@.subrange(0, n as int) == core@);
        while start < n && (core[start] == 'v' || core[start] == 'V')
            invariant
                start <= n == core.len(),
                without_v(core@) == without_v(core@.subrange(start as int, n as int)),
            decreases n - start,
        {
            assert(core@.subrange(start as int, n as int).drop_first() == core@.subrange(
                start + 1,
                n as int,
            ));
            start += 1;
        }
        let rest = slice_of(&core, start, n);
        let pieces = split(&rest, '.');
        Version { parts: parse_numbers(&pieces) }
    }

    /// Whether this version is newer than `other`.
    pub fn is_newer_than(&self, other: &Version) -> (r: bool)
        ensures
            r == newer(self.parts@, other.parts@),
    {
        let a = &self.parts;
        let b = &other.parts;
        let max_len: usize = if a.len() > b.len() {
            a.len()
        } else {
            b.len()
        };
        let mut i: usize = 0;
        while i < max_len
            invariant
                i <= max_len,
                max_len >= a.len(),
                max_len >= b.len(),
                a@ == self.parts@,
                b@ == other.parts@,
                forall|j: int| 0 <= j < i ==> part(a@, j) == part(b@, j),
            decreases max_len - i,
        {
            let x: u32 = if i < a.len() {
                a[i]
            } else {
                0
            };
            let y: u32 = if i < b.len() {
                b[i]
            } else {
                0
            };
            if x > y {
                assert(0 <= i && part(a@, i as int) > part(b@, i as int) && forall|j: int|
                    0 <= j < i ==> part(a@, j) == part(b@, j));
                return true;
            }
            if x < y {
                assert(part(a@, i as int) < part(b@, i as int));
                assert(!newer(a@, b@)) by {
                    if newer(a@, b@) {
                        let k = choose|k: int|
                            0 <= k && part(a@, k) > part(b@, k) && forall|j: int|
                                0 <= j < k ==> part(a@, j) == part(b@, j);
                        if k < i {
                            assert(part(a@, k) == part(b@, k));
                        } else if k > i {
                            assert(part(a@, i as int) == part(b@, i as int));
                        }
                    }
                }
                return false;
            }
            i += 1;
        }
        assert forall|j: int| 0 <= j implies part(a@, j) == part(b@, j) by {
            if j < i {
                assert(part(a@, j) == part(b@, j));
            }
        }
        false
    }
}

/// No version is newer than itself.
pub proof fn lemma_newer_irreflexive(a: Seq<u32>)
    ensures
        !newer(a, a),
{
}

/// Of two versions at most one is newer than the other.
pub proof fn lemma_newer_asymmetric(a: Seq<u32>, b: Seq<u32>)
    requires
        newer(a, b),
    ensures
        !newer(b, a),
{
    let i = choose|i: int|
        0 <= i && part(a, i) > part(b, i) && forall|j: int| 0 <= j < i ==> part(a, j) == part(b, j);
    if newer(b, a) {
        let k = choose|k: int|
            0 <= k && part(b, k) > part(a, k) && forall|j: int|
                0 <= j < k ==> part(b, j) == part(a, j);
        if k < i {
            assert(part(a, k) == part(b, k));
        } else if i < k {
            assert(part(b, i) == part(a, i));
        }
    }
}

/// Trailing zero components do not make a version newer or older.
pub proof fn lemma_newer_ignores_trailing_zero(a: Seq<u32>, b: Seq<u32>)
    ensures
        newer(a.push(0), b) == newer(a, b),
        newer(b, a.push(0)) == newer(b, a),
{
    let z = a.push(0);
    assert forall|i: int| part(z, i) == part(a, i) by {
        if 0 <= i < a.len() {
            assert(z[i] == a[i]);
        }
    }
    if newer(a, b) {
        let i = choose|i: int|
            0 <= i && part(a, i) > part(b, i) && forall|j: int|
                0 <= j < i ==> part(a, j) == part(b, j);
        assert(0 <= i && part(z, i) > part(b, i) && forall|j: int|
            0 <= j < i ==> part(z, j) == part(b, j));
    }
    if newer(z, b) {
        let i = choose|i: int|
            0 <= i && part(z, i) > part(b, i) && forall|j: int|
                0 <= j < i ==> part(z, j) == part(b, j);
        assert(0 <= i && part(a, i) > part(b, i) && forall|j: int|
            0 <= j < i ==> part(a, j) == part(b, j));
    }
    if newer(b, a) {
        let i = choose|i: int|
            0 <= i && part(b, i) > part(a, i) && forall|j: int|
                0 <= j < i ==> part(b, j) == part(a, j);
        assert(0 <= i && part(b, i) > part(z, i) && forall|j: int|
            0 <= j < i ==> part(b, j) == part(z, j));
    }
    if newer(b, z) {
        let i = choose|i: int|
            0 <= i && part(b, i) > part(z, i) && forall|j: int|
                0 <= j < i ==> part(b, j) == part(z, j);
        assert(0 <= i && part(b, i) > part(a, i) && forall|j: int|
            0 <= j < i ==> part(b, j) == part(a, j));
    }
}

} // verus!
