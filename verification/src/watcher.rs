//! Discovery of newly finalized segments.
//!
//! A `SegmentWatcher` keeps the set of segment names it has already seen.
//! Each poll takes the manifest's current segment list, returns every name
//! not seen before, and folds those names into the seen set, so that no
//! name is ever discovered twice within one pipeline lifetime.

use vstd::prelude::*;

use crate::manifest::names_of;
use crate::manifest::contains_name;

verus! {

/// Polls the manifest and emits each segment name exactly once.
pub struct SegmentWatcher {
    seen: Vec<String>,
}

impl SegmentWatcher {
    /// The names this watcher has already seen.
    pub closed spec fn seen_set(self) -> Set<Seq<char>> {
        names_of(self.seen.deep_view())
    }

    /// Internal consistency: the seen list holds each name once.
    pub closed spec fn wf(self) -> bool {
        self.seen.deep_view().no_duplicates()
    }

    /// One poll step: `post` is the watcher after a poll of `manifest`, and
    /// `discovered` the set of names that poll returned.
    pub open spec fn poll_rel(
        pre: SegmentWatcher,
        post: SegmentWatcher,
        manifest: Set<Seq<char>>,
        discovered: Set<Seq<char>>,
    ) -> bool {
        &&& discovered == manifest.difference(pre.seen_set())
        &&& post.seen_set() == pre.seen_set().union(manifest)
    }

    /// A fresh watcher has seen nothing.
    pub fn new() -> (w: SegmentWatcher)
        ensures
            w.wf(),
            w.seen_set() == Set::<Seq<char>>::empty(),
    {
        let w = SegmentWatcher { seen: Vec::new() };
        proof {
            assert(w.seen_set() =~= Set::<Seq<char>>::empty());
        }
        w
    }

    /// Returns the segment names of `manifest` not seen before, in manifest
    /// order and each once, and marks them seen.
    pub fn poll(&mut self, manifest: &Vec<String>) -> (discovered: Vec<String>)
        requires
            old(self).wf(),
            manifest.deep_view().no_duplicates(),
        ensures
            final(self).wf(),
            discovered.deep_view().no_duplicates(),
            forall|k: int|
                0 <= k < discovered.deep_view().len()
                    ==> !old(self).seen_set().contains(#[trigger] discovered.deep_view()[k]),
            SegmentWatcher::poll_rel(
                *old(self),
                *final(self),
                names_of(manifest.deep_view()),
                names_of(discovered.deep_view()),
            ),
    {
        let ghost seen0 = self.seen.deep_view();
        let mut discovered: Vec<String> = Vec::new();
        let mut i: usize = 0;
        while i < manifest.len()
            invariant
                i <= manifest.len(),
                manifest.deep_view().no_duplicates(),
                self.seen.deep_view().no_duplicates(),
                discovered.deep_view().no_duplicates(),
                self.seen.deep_view() == seen0 + discovered.deep_view(),
                forall|k: int|
                    0 <= k < discovered.deep_view().len() ==> !names_of(seen0).contains(
                        #[trigger] discovered.deep_view()[k],
                    ) && manifest.deep_view().contains(discovered.deep_view()[k]),
                forall|k: int|
                    0 <= k < i ==> self.seen.deep_view().contains(
                        #[trigger] manifest.deep_view()[k],
                    ),
            decreases manifest.len() - i,
        {
            let name = &manifest[i];
            assert(name@ == manifest.deep_view()[i as int]);
            if !contains_name(&self.seen, name) {
                let ghost seen_before = self.seen.deep_view();
                let ghost disc_before = discovered.deep_view();
                discovered.push(name.clone());
                self.seen.push(name.clone());
                proof {
                    assert(!disc_before.contains(name@)) by {
                        if disc_before.contains(name@) {
                            let j = choose|j: int|
                                0 <= j < disc_before.len() && disc_before[j] == name@;
                            assert(seen_before[seen0.len() + j] == name@);
                            assert(seen_before.contains(name@));
                        }
                    }
                    assert(discovered.deep_view() =~= disc_before.push(name@));
                    assert(self.seen.deep_view() =~= seen_before.push(name@));
                    assert(seen_before.push(name@) =~= seen0 + disc_before.push(name@));
                    assert forall|k: int| 0 <= k < i + 1 implies self.seen.deep_view().contains(
                        #[trigger] manifest.deep_view()[k],
                    ) by {
                        if k < i {
                            let j = choose|j: int|
                                0 <= j < seen_before.len() && seen_before[j]
                                    == manifest.deep_view()[k];
                            assert(self.seen.deep_view()[j] == manifest.deep_view()[k]);
                        } else {
                            assert(self.seen.deep_view()[seen_before.len() as int]
                                == manifest.deep_view()[k]);
                        }
                    }
                    assert(!names_of(seen0).contains(name@)) by {
                        if names_of(seen0).contains(name@) {
                            let j = choose|j: int|
                                0 <= j < seen0.len() && seen0[j] == name@;
                            assert(seen_before[j] == name@);
                        }
                    }
                }
            } else {
                proof {
                    assert forall|k: int| 0 <= k < i + 1 implies self.seen.deep_view().contains(
                        #[trigger] manifest.deep_view()[k],
                    ) by {}
                }
            }
            i = i + 1;
        }
        proof {
            let m = names_of(manifest.deep_view());
            let d = names_of(discovered.deep_view());
            let s0 = names_of(seen0);
            assert forall|l: Seq<char>| m.difference(s0).contains(l) implies d.contains(l) by {
                let k = choose|k: int|
                    0 <= k < manifest.deep_view().len() && manifest.deep_view()[k] == l;
                assert(self.seen.deep_view().contains(manifest.deep_view()[k]));
                let j = choose|j: int|
                    0 <= j < self.seen.deep_view().len() && self.seen.deep_view()[j] == l;
                assert(j >= seen0.len()) by {
                    if j < seen0.len() {
                        assert(seen0[j] == l);
                    }
                }
                assert(discovered.deep_view()[j - seen0.len()] == l);
            }
            assert(d =~= m.difference(s0));
            assert forall|l: Seq<char>| s0.union(m).contains(l) implies names_of(
                self.seen.deep_view(),
            ).contains(l) by {
                if s0.contains(l) {
                    let j = choose|j: int| 0 <= j < seen0.len() && seen0[j] == l;
                    assert(self.seen.deep_view()[j] == l);
                } else {
                    let k = choose|k: int|
                        0 <= k < manifest.deep_view().len() && manifest.deep_view()[k] == l;
                    assert(self.seen.deep_view().contains(manifest.deep_view()[k]));
                }
            }
            assert forall|l: Seq<char>| names_of(self.seen.deep_view()).contains(l) implies
                s0.union(m).contains(l) by {
                let j = choose|j: int|
                    0 <= j < self.seen.deep_view().len() && self.seen.deep_view()[j] == l;
                if j < seen0.len() {
                    assert(seen0[j] == l);
                } else {
                    assert(discovered.deep_view()[j - seen0.len()] == l);
                }
            }
            assert(names_of(self.seen.deep_view()) =~= s0.union(m));
        }
        discovered
    }
}

/// Discovery is idempotent: when a poll of a manifest has folded its names
/// into the seen set, a second poll of the same manifest, with no new lines
/// in between, discovers nothing.
pub proof fn lemma_second_poll_empty(
    w0: SegmentWatcher,
    w1: SegmentWatcher,
    w2: SegmentWatcher,
    manifest: Set<Seq<char>>,
    first: Set<Seq<char>>,
    second: Set<Seq<char>>,
)
    requires
        SegmentWatcher::poll_rel(w0, w1, manifest, first),
        SegmentWatcher::poll_rel(w1, w2, manifest, second),
    ensures
        second =~= Set::<Seq<char>>::empty(),
        w2.seen_set() == w1.seen_set(),
{
    assert(second =~= Set::<Seq<char>>::empty());
    assert(w1.seen_set().union(manifest) =~= w0.seen_set().union(manifest));
}

} // verus!
