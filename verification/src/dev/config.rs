//! Where to look for plugins under development.

use vstd::prelude::*;
use crate::paths::{join, joined};
use crate::text::{chars_of, same_chars};

verus! {

/// The developer's configuration: the directories to search.
#[derive(Debug, Clone, Default)]
pub struct DevConfig {
    pub search_paths: Vec<String>,
}

/// The directories below a home directory in which projects are commonly kept.
pub open spec fn common_dirs() -> Seq<Seq<char>> {
    seq![
        "Developer"@,
        "Projects"@,
        "repos"@,
        "src"@,
        "code"@,
        "dev"@,
        "Git"@,
        "GitHub"@,
        "work"@,
        "workspace"@,
        "Documents/GitHub"@,
        "Documents/Projects"@,
    ]
}

/// The path at position `j` of `paths` stands there for the first time.
pub open spec fn is_first(paths: Seq<String>, j: int) -> bool {
    forall|m: int| 0 <= m < j ==> (#[trigger] paths[m])@ != paths[j]@
}

/// The paths of `paths` without repetitions: each path where it stands for
/// the first time.
pub open spec fn without_repeats(paths: Seq<String>) -> Seq<Seq<char>>
    decreases paths.len(),
{
    if paths.len() == 0 {
        Seq::empty()
    } else {
        let before = without_repeats(paths.drop_last());
        if is_first(paths, paths.len() - 1) {
            before.push(paths.last()@)
        } else {
            before
        }
    }
}

/// The paths without repetitions are exactly the paths, each once.
pub proof fn lemma_without_repeats(paths: Seq<String>)
    ensures
        forall|j: int|
            0 <= j < paths.len() ==> without_repeats(paths).contains((#[trigger] paths[j])@),
        forall|k: int|
            #![trigger without_repeats(paths)[k]]
            0 <= k < without_repeats(paths).len() ==> exists|j: int|
                0 <= j < paths.len() && (#[trigger] paths[j])@ == without_repeats(paths)[k],
        forall|k: int, l: int|
            0 <= k < l < without_repeats(paths).len() ==> without_repeats(paths)[k]
                != without_repeats(paths)[l],
    decreases paths.len(),
{
    if paths.len() > 0 {
        let before = paths.drop_last();
        let last = paths.len() - 1;
        lemma_without_repeats(before);
        let kept = without_repeats(paths);
        let earlier = without_repeats(before);
        assert forall|j: int| 0 <= j < paths.len() implies kept.contains((#[trigger] paths[j])@) by {
            if j < last {
                assert(before[j] == paths[j]);
                let k = choose|k: int| 0 <= k < earlier.len() && earlier[k] == before[j]@;
                assert(kept[k] == paths[j]@);
            } else if is_first(paths, last) {
                assert(kept[kept.len() - 1] == paths[j]@);
            } else {
                let m = choose|m: int| 0 <= m < last && (#[trigger] paths[m])@ == paths[last]@;
                assert(before[m] == paths[m]);
                let k = choose|k: int| 0 <= k < earlier.len() && earlier[k] == before[m]@;
                assert(kept[k] == paths[j]@);
            }
        }
        assert forall|k: int| #![trigger kept[k]] 0 <= k < kept.len() implies exists|j: int|
            0 <= j < paths.len() && (#[trigger] paths[j])@ == kept[k] by {
            if k < earlier.len() {
                let j = choose|j: int| 0 <= j < before.len() && (#[trigger] before[j])@ == earlier[k];
                assert(paths[j] == before[j]);
            } else {
                assert(paths[last]@ == kept[k]);
            }
        }
        assert forall|k: int, l: int| 0 <= k < l < kept.len() implies kept[k] != kept[l] by {
            if l < earlier.len() {
                assert(earlier[k] != earlier[l]);
            } else {
                let j = choose|j: int| 0 <= j < before.len() && (#[trigger] before[j])@ == earlier[k];
                assert(paths[j] == before[j]);
            }
        }
    }
}

impl DevConfig {
    /// The directories below a home directory in which projects are
    /// commonly kept.
    pub fn common_dev_dirs() -> (r: Vec<&'static str>)
        ensures
            r@.len() == common_dirs().len(),
            forall|i: int| 0 <= i < r@.len() ==> (#[trigger] r@[i])@ == common_dirs()[i],
    {
        let mut r: Vec<&'static str> = Vec::new();
        r.push("Developer");
        r.push("Projects");
        r.push("repos");
        r.push("src");
        r.push("code");
        r.push("dev");
        r.push("Git");
        r.push("GitHub");
        r.push("work");
        r.push("workspace");
        r.push("Documents/GitHub");
        r.push("Documents/Projects");
        r
    }

    /// The common project directories below the home directory `home`.
    pub fn default_candidates(home: &str) -> (r: Vec<String>)
        ensures
            r@.len() == common_dirs().len(),
            forall|i: int|
                0 <= i < r@.len() ==> (#[trigger] r@[i])@ == joined(home@, common_dirs()[i]),
    {
        let names = Self::common_dev_dirs();
        let mut r: Vec<String> = Vec::new();
        let mut i: usize = 0;
        while i < names.len()
            invariant
                i <= names.len() == common_dirs().len(),
                r@.len() == i,
                forall|k: int| 0 <= k < names@.len() ==> (#[trigger] names@[k])@ == common_dirs()[k],
                forall|k: int| 0 <= k < i ==> (#[trigger] r@[k])@ == joined(home@, common_dirs()[k]),
            decreases names.len() - i,
        {
            let name = names[i];
            let path = join(home, name);
            r.push(path);
            i += 1;
        }
        r
    }

    /// Whether the configuration names its own search paths, which then
    /// replace the common ones.
    pub fn has_own_paths(&self) -> (r: bool)
        ensures
            r == (self.search_paths@.len() > 0),
    {
        self.search_paths.len() > 0
    }

    /// The paths of `paths` without repetitions: each path stays where it
    /// stands for the first time.
    pub fn effective_search_paths(paths: Vec<String>) -> (r: Vec<String>)
        ensures
            r@.map_values(|p: String| p@) == without_repeats(paths@),
    {
        let mut r: Vec<String> = Vec::new();
        let mut i: usize = 0;
        assert(r@.map_values(|p: String| p@) =~= without_repeats(paths@.take(0)));
        while i < paths.len()
            invariant
                i <= paths.len(),
                r@.map_values(|p: String| p@) == without_repeats(paths@.take(i as int)),
            decreases paths.len() - i,
        {
            let current = chars_of(paths[i].as_str());
            let mut first = true;
            let mut k: usize = 0;
            while k < i
                invariant
                    k <= i < paths.len(),
                    current@ == paths@[i as int]@,
                    first == forall|m: int| 0 <= m < k ==> (#[trigger] paths@[m])@ != current@,
                decreases i - k,
            {
                if same_chars(&chars_of(paths[k].as_str()), &current) {
                    first = false;
                }
                k += 1;
            }
            proof {
                let next = paths@.take(i + 1);
                assert(next.drop_last() == paths@.take(i as int));
                assert(next.last() == paths@[i as int]);
                assert(first == is_first(next, i as int)) by {
                    if first {
                        assert forall|m: int| 0 <= m < i implies (#[trigger] next[m])@ != next[i as int]@ by {
                            assert(next[m] == paths@[m]);
                        }
                    } else {
                        let m = choose|m: int| 0 <= m < i && (#[trigger] paths@[m])@ == current@;
                        assert(next[m] == paths@[m]);
                    }
                }
            }
            if first {
                let ghost before = r@;
                r.push(paths[i].clone());
                assert(r@.map_values(|p: String| p@) =~= before.map_values(|p: String| p@).push(
                    paths@[i as int]@,
                ));
            }
            i += 1;
        }
        assert(paths@.take(paths.len() as int) == paths@);
        r
    }
}

} // verus!
