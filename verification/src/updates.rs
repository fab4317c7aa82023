//! Deciding whether a published release is newer than the running host.

use vstd::prelude::*;
use crate::text::{chars_of, slice_of, split, split_on, string_of};
use crate::version::{numbers, parse_numbers};

verus! {

/// The numeric components of a release name, cut at the dots; pieces that
/// are not numbers are skipped.
pub open spec fn release_numbers(s: Seq<char>) -> Seq<u32> {
    numbers(split_on(s, '.'))
}

/// `latest` is a newer release than `current`: at the first component where
/// both have one and differ, `latest` is larger; or they agree wherever both
/// have a component and `latest` has more of them.
pub open spec fn newer_release(latest: Seq<u32>, current: Seq<u32>) -> bool {
    ||| exists|i: int|
        0 <= i < latest.len() && i < current.len() && latest[i] > current[i] && forall|j: int|
            0 <= j < i ==> latest[j] == current[j]
    ||| latest.len() > current.len() && forall|j: int|
        0 <= j < current.len() ==> latest[j] == current[j]
}

/// Whether the release named `latest` is newer than the one named `current`.
pub fn is_newer_version(latest: &str, current: &str) -> (r: bool)
    ensures
        r == newer_release(release_numbers(latest@), release_numbers(current@)),
{
    let l = parse_numbers(&split(&chars_of(latest), '.'));
    let c = parse_numbers(&split(&chars_of(current), '.'));
    let mut i: usize = 0;
    while i < l.len() && i < c.len()
        invariant
            i <= l.len(),
            i <= c.len(),
            l@ == release_numbers(latest@),
            c@ == release_numbers(current@),
            forall|j: int| 0 <= j < i ==> l@[j] == c@[j],
        decreases l.len() - i,
    {
        if l[i] > c[i] {
            assert(0 <= i < l@.len() && i < c@.len() && l@[i as int] > c@[i as int] && forall|j: int|
                0 <= j < i ==> l@[j] == c@[j]);
            return true;
        }
        if l[i] < c[i] {
            assert(!newer_release(l@, c@)) by {
                if newer_release(l@, c@) {
                    if l@.len() > c@.len() && forall|j: int|
                        0 <= j < c@.len() ==> l@[j] == c@[j] {
                        assert(l@[i as int] == c@[i as int]);
                    } else {
                        let k = choose|k: int|
                            0 <= k < l@.len() && k < c@.len() && l@[k] > c@[k] && forall|j: int|
                                0 <= j < k ==> l@[j] == c@[j];
                        if k < i {
                            assert(l@[k] == c@[k]);
                        } else if k > i {
                            assert(l@[i as int] == c@[i as int]);
                        }
                    }
                }
            }
            return false;
        }
        i += 1;
    }
    let r = l.len() > c.len();
    proof {
        if newer_release(l@, c@) && !r {
            let k = choose|k: int|
                0 <= k < l@.len() && k < c@.len() && l@[k] > c@[k] && forall|j: int|
                    0 <= j < k ==> l@[j] == c@[j];
            assert(l@[k] == c@[k]);
        }
        if r {
            assert(i == c.len());
        }
    }
    r
}

/// `s` without any leading lower-case `v`.
pub open spec fn without_tag_prefix(s: Seq<char>) -> Seq<char>
    decreases s.len(),
{
    if s.len() > 0 && s.first() == 'v' {
        without_tag_prefix(s.drop_first())
    } else {
        s
    }
}

/// What is known of published releases: the first release that was found to
/// be newer than the running host, if any. Once set it is not replaced.
pub struct UpdateState {
    latest: Option<String>,
}

impl UpdateState {
    /// The newer release that is recorded, if any.
    pub closed spec fn recorded(&self) -> Option<Seq<char>> {
        match self.latest {
            Some(s) => Some(s@),
            None => None,
        }
    }

    /// A state with no newer release recorded.
    pub fn new() -> (r: UpdateState)
        ensures
            r.recorded() is None,
    {
        UpdateState { latest: None }
    }

    /// Takes note of the release tagged `tag_name`, published while the host
    /// runs version `current`. Returns whether it is newer; the first newer
    /// release seen is recorded, without the `v`s that lead its tag.
    pub fn record_release(&mut self, tag_name: &str, current: &str) -> (r: bool)
        ensures
            r == newer_release(
                release_numbers(without_tag_prefix(tag_name@)),
                release_numbers(current@),
            ),
            final(self).recorded() == if r && old(self).recorded() is None {
                Some(without_tag_prefix(tag_name@))
            } else {
                old(self).recorded()
            },
    {
        let tag = chars_of(tag_name);
        let n = tag.len();
        let mut start: usize = 0;
        assert(tag@.subrange(0, n as int) == tag@);
        while start < n && tag[start] == 'v'
            invariant
                start <= n == tag.len(),
                without_tag_prefix(tag@) == without_tag_prefix(tag@.subrange(start as int, n as int)),
            decreases n - start,
        {
            assert(tag@.subrange(start as int, n as int).drop_first() == tag@.subrange(
                start + 1,
                n as int,
            ));
            start += 1;
        }
        let latest = string_of(&slice_of(&tag, start, n));
        let r = is_newer_version(latest.as_str(), current);
        if r && self.latest.is_none() {
            self.latest = Some(latest);
        }
        r
    }
}

/// The newer release that `state` has recorded, if any.
pub fn latest_version(state: &UpdateState) -> (r: Option<String>)
    ensures
        match r {
            Some(s) => state.recorded() == Some(s@),
            None => state.recorded() is None,
        },
{
    match &state.latest {
        Some(s) => Some(s.clone()),
        None => None,
    }
}

} // verus!
