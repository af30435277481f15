//! One media stream's discovery-dispatch-drain loop.
//!
//! A `Pipeline` owns a segment watcher and the bookkeeping of upload units:
//! which segments are pending a dispatch decision, which uploads are in
//! flight, and which were ever dispatched. The surrounding runtime drives
//! it one iteration at a time — observe the shutdown signal, poll the
//! manifest, dispatch each new segment whose file exists, reap completed
//! units — and performs the actual file checks, task spawns and waits.
//!
//! Shutdown is two-phase: the iteration after the shutdown signal first
//! reads true still runs in full (`Draining`), so a segment finalized
//! concurrently with the stop request is still captured; only then does the
//! loop stop discovering, await every unit still in flight, and reach
//! `Flushed`.

use vstd::prelude::*;

use crate::manifest::names_of;
use crate::watcher::SegmentWatcher;

verus! {

/// Where a pipeline stands in its lifetime. `Flushed` is terminal.
#[derive(Clone, Copy, Debug, PartialEq, Eq, Structural)]
pub enum PipelineState {
    /// Shutdown not yet observed: poll, dispatch, reap, repeat.
    Running,
    /// Shutdown observed: exactly one more full iteration runs, then the
    /// remaining units are drained.
    Draining,
    /// Every discovered segment was resolved and every dispatched unit
    /// completed or failed; the loop has exited for good.
    Flushed,
}

/// The names a segment list holds, with the flagged ones kept in order.
pub open spec fn kept_where(s: Seq<Seq<char>>, flags: Seq<bool>) -> Seq<Seq<char>>
    decreases s.len(),
{
    if s.len() == 0 {
        Seq::empty()
    } else if flags[0] {
        seq![s[0]] + kept_where(s.subrange(1, s.len() as int), flags.subrange(1, flags.len() as int))
    } else {
        kept_where(s.subrange(1, s.len() as int), flags.subrange(1, flags.len() as int))
    }
}

/// A flagged element is kept: `kept_where` holds `s[k]` whenever `flags[k]`.
pub proof fn lemma_kept_where_contains(s: Seq<Seq<char>>, flags: Seq<bool>, k: int)
    requires
        s.len() == flags.len(),
        0 <= k < s.len(),
        flags[k],
    ensures
        kept_where(s, flags).contains(s[k]),
    decreases s.len(),
{
    let st = s.subrange(1, s.len() as int);
    let ft = flags.subrange(1, flags.len() as int);
    if k == 0 {
        assert(kept_where(s, flags)[0] == s[0]);
    } else {
        lemma_kept_where_contains(st, ft, k - 1);
        assert(st[k - 1] == s[k]);
        let j = choose|j: int| 0 <= j < kept_where(st, ft).len() && kept_where(st, ft)[j] == s[k];
        if flags[0] {
            assert(kept_where(s, flags)[j + 1] == s[k]);
        } else {
            assert(kept_where(s, flags)[j] == s[k]);
        }
    }
}

/// Everything `kept_where` holds comes from `s`.
pub proof fn lemma_kept_where_sub(s: Seq<Seq<char>>, flags: Seq<bool>, j: int)
    requires
        s.len() == flags.len(),
        0 <= j < kept_where(s, flags).len(),
    ensures
        exists|k: int| 0 <= k < s.len() && s[k] == kept_where(s, flags)[j] && flags[k],
    decreases s.len(),
{
    let st = s.subrange(1, s.len() as int);
    let ft = flags.subrange(1, flags.len() as int);
    if flags[0] && j == 0 {
        assert(s[0] == kept_where(s, flags)[0] && flags[0]);
    } else if flags[0] {
        lemma_kept_where_sub(st, ft, j - 1);
        let k = choose|k: int| 0 <= k < st.len() && st[k] == kept_where(st, ft)[j - 1] && ft[k];
        assert(s[k + 1] == kept_where(s, flags)[j] && flags[k + 1]);
    } else {
        lemma_kept_where_sub(st, ft, j);
        let k = choose|k: int| 0 <= k < st.len() && st[k] == kept_where(st, ft)[j] && ft[k];
        assert(s[k + 1] == kept_where(s, flags)[j] && flags[k + 1]);
    }
}

/// With every flag set, everything is kept, unchanged.
pub proof fn lemma_kept_where_all(s: Seq<Seq<char>>, flags: Seq<bool>)
    requires
        s.len() == flags.len(),
        forall|k: int| 0 <= k < flags.len() ==> flags[k],
    ensures
        kept_where(s, flags) == s,
    decreases s.len(),
{
    if s.len() == 0 {
        assert(kept_where(s, flags) =~= s);
    } else {
        let st = s.subrange(1, s.len() as int);
        let ft = flags.subrange(1, flags.len() as int);
        assert(flags[0]);
        assert forall|k: int| 0 <= k < ft.len() implies ft[k] by {
            assert(ft[k] == flags[k + 1]);
        }
        lemma_kept_where_all(st, ft);
        assert(seq![s[0]] + st =~= s);
    }
}

/// A concatenation holds the names of either part.
pub proof fn lemma_names_of_concat(a: Seq<Seq<char>>, b: Seq<Seq<char>>)
    ensures
        names_of(a + b) =~= names_of(a).union(names_of(b)),
{
    assert forall|l: Seq<char>| names_of(a + b).contains(l) implies names_of(a).union(
        names_of(b),
    ).contains(l) by {
        let j = choose|j: int| 0 <= j < (a + b).len() && (a + b)[j] == l;
        if j < a.len() {
            assert(a[j] == l);
        } else {
            assert(b[j - a.len()] == l);
        }
    }
    assert forall|l: Seq<char>| names_of(a).union(names_of(b)).contains(l) implies names_of(
        a + b,
    ).contains(l) by {
        if names_of(a).contains(l) {
            let j = choose|j: int| 0 <= j < a.len() && a[j] == l;
            assert((a + b)[j] == l);
        } else {
            let j = choose|j: int| 0 <= j < b.len() && b[j] == l;
            assert((a + b)[a.len() + j] == l);
        }
    }
}

/// One pipeline for one media stream.
pub struct Pipeline {
    state: PipelineState,
    watcher: SegmentWatcher,
    pending: Vec<String>,
    in_flight: Vec<String>,
    dispatched: Vec<String>,
    flush_complete: bool,
}

impl Pipeline {
    /// The lifetime phase.
    pub closed spec fn phase(self) -> PipelineState {
        self.state
    }

    /// Every segment name the watcher has seen.
    pub closed spec fn seen(self) -> Set<Seq<char>> {
        self.watcher.seen_set()
    }

    /// Segments discovered by the last poll and not yet resolved.
    pub closed spec fn pending_seq(self) -> Seq<Seq<char>> {
        self.pending.deep_view()
    }

    /// Upload units dispatched and not yet observed complete.
    pub closed spec fn in_flight_seq(self) -> Seq<Seq<char>> {
        self.in_flight.deep_view()
    }

    /// Every segment ever dispatched, in dispatch order.
    pub closed spec fn dispatched_seq(self) -> Seq<Seq<char>> {
        self.dispatched.deep_view()
    }

    /// The set of segments ever dispatched.
    pub open spec fn dispatched_set(self) -> Set<Seq<char>> {
        names_of(self.dispatched_seq())
    }

    /// The flush-complete signal, set exactly once, after the final drain.
    pub closed spec fn flushed(self) -> bool {
        self.flush_complete
    }

    /// Internal consistency, kept by every operation:
    /// no name is pending, in flight or dispatched twice; nothing is
    /// pending or dispatched that was not seen; nothing still pending was
    /// already dispatched; every in-flight unit was dispatched; a flushed
    /// pipeline has nothing pending and nothing in flight; and the
    /// flush-complete signal is set exactly when the pipeline is flushed.
    pub closed spec fn wf(self) -> bool {
        &&& self.watcher.wf()
        &&& self.pending.deep_view().no_duplicates()
        &&& self.in_flight.deep_view().no_duplicates()
        &&& self.dispatched.deep_view().no_duplicates()
        &&& forall|l: Seq<char>|
            names_of(self.pending.deep_view()).contains(l) ==> self.watcher.seen_set().contains(l)
        &&& forall|l: Seq<char>|
            names_of(self.dispatched.deep_view()).contains(l)
                ==> self.watcher.seen_set().contains(l)
        &&& forall|l: Seq<char>|
            names_of(self.pending.deep_view()).contains(l) ==> !names_of(
                self.dispatched.deep_view(),
            ).contains(l)
        &&& forall|l: Seq<char>|
            names_of(self.in_flight.deep_view()).contains(l) ==> names_of(
                self.dispatched.deep_view(),
            ).contains(l)
        &&& (self.state == PipelineState::Flushed ==> self.pending.deep_view().len() == 0
            && self.in_flight.deep_view().len() == 0)
        &&& (self.flush_complete <==> self.state == PipelineState::Flushed)
    }

    /// The shutdown decision at the top of an iteration: a running pipeline
    /// that observes the signal enters `Draining` and still runs one full
    /// pass (`run_pass`); a draining one runs no further pass and proceeds
    /// to its final drain. Nothing else changes.
    pub open spec fn begin_rel(
        pre: Pipeline,
        post: Pipeline,
        shutdown: bool,
        run_pass: bool,
    ) -> bool {
        &&& post.seen() == pre.seen()
        &&& post.pending_seq() == pre.pending_seq()
        &&& post.in_flight_seq() == pre.in_flight_seq()
        &&& post.dispatched_seq() == pre.dispatched_seq()
        &&& post.flushed() == pre.flushed()
        &&& if pre.phase() == PipelineState::Running && !shutdown {
            post.phase() == PipelineState::Running && run_pass
        } else if pre.phase() == PipelineState::Running && shutdown {
            post.phase() == PipelineState::Draining && run_pass
        } else {
            post.phase() == pre.phase() && !run_pass
        }
    }

    /// One poll of the manifest: the names not seen before become pending,
    /// and all names become seen. Nothing else changes.
    pub open spec fn discover_rel(pre: Pipeline, post: Pipeline, manifest: Set<Seq<char>>) -> bool {
        &&& names_of(post.pending_seq()) == manifest.difference(pre.seen())
        &&& post.seen() == pre.seen().union(manifest)
        &&& post.phase() == pre.phase()
        &&& post.in_flight_seq() == pre.in_flight_seq()
        &&& post.dispatched_seq() == pre.dispatched_seq()
        &&& post.flushed() == pre.flushed()
    }

    /// Resolution of one pending batch: each pending segment whose file
    /// exists (`flags`) is dispatched — appended to the in-flight and
    /// dispatched lists — and the others are skipped for good. Nothing
    /// else changes.
    pub open spec fn dispatch_rel(pre: Pipeline, post: Pipeline, flags: Seq<bool>) -> bool {
        &&& flags.len() == pre.pending_seq().len()
        &&& post.pending_seq().len() == 0
        &&& post.dispatched_seq() == pre.dispatched_seq() + kept_where(pre.pending_seq(), flags)
        &&& post.in_flight_seq() == pre.in_flight_seq() + kept_where(pre.pending_seq(), flags)
        &&& post.seen() == pre.seen()
        &&& post.phase() == pre.phase()
        &&& post.flushed() == pre.flushed()
    }

    /// One reap: the units reported complete — successfully or not — leave
    /// the in-flight list; the others stay, in order. Nothing else changes.
    pub open spec fn reap_rel(pre: Pipeline, post: Pipeline, completed: Seq<bool>) -> bool {
        &&& completed.len() == pre.in_flight_seq().len()
        &&& post.in_flight_seq() == kept_where(
            pre.in_flight_seq(),
            completed.map_values(|c: bool| !c),
        )
        &&& post.pending_seq() == pre.pending_seq()
        &&& post.dispatched_seq() == pre.dispatched_seq()
        &&& post.seen() == pre.seen()
        &&& post.phase() == pre.phase()
        &&& post.flushed() == pre.flushed()
    }

    /// A fresh pipeline: running, nothing seen, nothing in flight.
    pub fn new() -> (p: Pipeline)
        ensures
            p.wf(),
            p.phase() == PipelineState::Running,
            p.seen() == Set::<Seq<char>>::empty(),
            p.pending_seq().len() == 0,
            p.in_flight_seq().len() == 0,
            p.dispatched_seq().len() == 0,
            !p.flushed(),
    {
        let p = Pipeline {
            state: PipelineState::Running,
            watcher: SegmentWatcher::new(),
            pending: Vec::new(),
            in_flight: Vec::new(),
            dispatched: Vec::new(),
            flush_complete: false,
        };
        proof {
            assert(p.pending.deep_view() =~= Seq::<Seq<char>>::empty());
            assert(p.in_flight.deep_view() =~= Seq::<Seq<char>>::empty());
            assert(p.dispatched.deep_view() =~= Seq::<Seq<char>>::empty());
        }
        p
    }

    /// Observes the shutdown signal at the top of an iteration and says
    /// whether a full pass (poll, dispatch, reap) still runs. The first
    /// observation of the signal turns `Running` into `Draining` with one
    /// more full pass owed; on the next iteration no pass runs and the
    /// caller proceeds to the final drain.
    pub fn begin_iteration(&mut self, shutdown: bool) -> (run_pass: bool)
        requires
            old(self).wf(),
            old(self).phase() != PipelineState::Flushed,
            old(self).phase() == PipelineState::Draining ==> shutdown,
        ensures
            final(self).wf(),
            Pipeline::begin_rel(*old(self), *final(self), shutdown, run_pass),
    {
        match self.state {
            PipelineState::Running => {
                if shutdown {
                    self.state = PipelineState::Draining;
                }
                true
            },
            _ => false,
        }
    }

    /// Polls the manifest's current segment names: every name not seen
    /// before becomes pending, in manifest order, and is counted as seen.
    /// Returns how many segments became pending.
    pub fn discover(&mut self, manifest: &Vec<String>) -> (count: usize)
        requires
            old(self).wf(),
            old(self).phase() != PipelineState::Flushed,
            old(self).pending_seq().len() == 0,
            manifest.deep_view().no_duplicates(),
        ensures
            final(self).wf(),
            count == final(self).pending_seq().len(),
            Pipeline::discover_rel(*old(self), *final(self), names_of(manifest.deep_view())),
    {
        let ghost seen0 = self.watcher.seen_set();
        let discovered = self.watcher.poll(manifest);
        self.pending = discovered;
        proof {
            let m = names_of(manifest.deep_view());
            assert forall|l: Seq<char>| names_of(self.pending.deep_view()).contains(l) implies
                self.watcher.seen_set().contains(l) by {
                assert(m.difference(seen0).contains(l));
            }
            assert forall|l: Seq<char>| names_of(self.dispatched.deep_view()).contains(l) implies
                self.watcher.seen_set().contains(l) by {
                assert(seen0.contains(l));
            }
            assert forall|l: Seq<char>| names_of(self.pending.deep_view()).contains(l) implies
                !names_of(self.dispatched.deep_view()).contains(l) by {
                assert(m.difference(seen0).contains(l));
                assert(!seen0.contains(l));
            }
        }
        self.pending.len()
    }

    /// How many discovered segments await a dispatch decision.
    pub fn pending_count(&self) -> (count: usize)
        ensures
            count == self.pending_seq().len(),
    {
        self.pending.len()
    }

    /// The `i`-th pending segment name.
    pub fn pending_at(&self, i: usize) -> (name: String)
        requires
            i < self.pending_seq().len(),
        ensures
            name@ == self.pending_seq()[i as int],
    {
        self.pending[i].clone()
    }

    /// Resolves the whole pending batch: `is_file[i]` says whether the
    /// `i`-th pending segment's path is a regular file. Each one that is
    /// becomes an in-flight upload unit; each one that is not is skipped —
    /// it stays seen, so it is never dispatched later either. Returns the
    /// dispatched names, in order, for the caller to launch one upload
    /// unit each.
    pub fn dispatch_pending(&mut self, is_file: &Vec<bool>) -> (launched: Vec<String>)
        requires
            old(self).wf(),
            is_file@.len() == old(self).pending_seq().len(),
        ensures
            final(self).wf(),
            launched.deep_view() == kept_where(old(self).pending_seq(), is_file@),
            Pipeline::dispatch_rel(*old(self), *final(self), is_file@),
    {
        let ghost pend0 = self.pending.deep_view();
        let ghost disp0 = self.dispatched.deep_view();
        let ghost infl0 = self.in_flight.deep_view();
        let mut launched: Vec<String> = Vec::new();
        proof {
            assert(launched.deep_view() =~= Seq::<Seq<char>>::empty());
            assert(Seq::<Seq<char>>::empty() + kept_where(pend0, is_file@) =~= kept_where(
                pend0,
                is_file@,
            ));
            assert(pend0.subrange(0, pend0.len() as int) =~= pend0);
            assert(is_file@.subrange(0, is_file@.len() as int) =~= is_file@);
            assert(disp0 + launched.deep_view() =~= disp0);
            assert(infl0 + launched.deep_view() =~= infl0);
        }
        let n = self.pending.len();
        let mut i: usize = 0;
        while i < n
            invariant
                i <= n,
                n == pend0.len(),
                is_file@.len() == pend0.len(),
                self.pending.deep_view() == pend0,
                self.watcher == old(self).watcher,
                self.state == old(self).state,
                self.flush_complete == old(self).flush_complete,
                old(self).wf(),
                pend0 == old(self).pending_seq(),
                disp0 == old(self).dispatched_seq(),
                infl0 == old(self).in_flight_seq(),
                kept_where(pend0, is_file@) == launched.deep_view() + kept_where(
                    pend0.subrange(i as int, pend0.len() as int),
                    is_file@.subrange(i as int, is_file@.len() as int),
                ),
                self.dispatched.deep_view() == disp0 + launched.deep_view(),
                self.in_flight.deep_view() == infl0 + launched.deep_view(),
                forall|j: int|
                    0 <= j < launched.deep_view().len() ==> pend0.subrange(0, i as int).contains(
                        #[trigger] launched.deep_view()[j],
                    ),
                self.dispatched.deep_view().no_duplicates(),
                self.in_flight.deep_view().no_duplicates(),
            decreases n - i,
        {
            let ghost ps = pend0.subrange(i as int, pend0.len() as int);
            let ghost fs = is_file@.subrange(i as int, is_file@.len() as int);
            proof {
                assert(ps[0] == pend0[i as int]);
                assert(fs[0] == is_file@[i as int]);
                assert(ps.subrange(1, ps.len() as int) =~= pend0.subrange(
                    i as int + 1,
                    pend0.len() as int,
                ));
                assert(fs.subrange(1, fs.len() as int) =~= is_file@.subrange(
                    i as int + 1,
                    is_file@.len() as int,
                ));
            }
            if is_file[i] {
                let name = self.pending[i].clone();
                let ghost launched0 = launched.deep_view();
                proof {
                    assert(!launched0.contains(pend0[i as int])) by {
                        if launched0.contains(pend0[i as int]) {
                            let j = choose|j: int|
                                0 <= j < launched0.len() && launched0[j] == pend0[i as int];
                            assert(pend0.subrange(0, i as int).contains(launched0[j]));
                            let k = choose|k: int|
                                0 <= k < i && pend0.subrange(0, i as int)[k] == launched0[j];
                            assert(pend0[k] == pend0[i as int]);
                        }
                    }
                    assert(!disp0.contains(pend0[i as int])) by {
                        if disp0.contains(pend0[i as int]) {
                            assert(names_of(pend0).contains(pend0[i as int]));
                            assert(names_of(disp0).contains(pend0[i as int]));
                        }
                    }
                    assert(!infl0.contains(pend0[i as int])) by {
                        if infl0.contains(pend0[i as int]) {
                            assert(names_of(infl0).contains(pend0[i as int]));
                            assert(names_of(disp0).contains(pend0[i as int]));
                        }
                    }
                }
                launched.push(name.clone());
                self.in_flight.push(name.clone());
                self.dispatched.push(name);
                proof {
                    assert(launched.deep_view() =~= launched0.push(pend0[i as int]));
                    assert(self.dispatched.deep_view() =~= (disp0 + launched0).push(
                        pend0[i as int],
                    ));
                    assert(self.in_flight.deep_view() =~= (infl0 + launched0).push(
                        pend0[i as int],
                    ));
                    assert((disp0 + launched0).push(pend0[i as int]) =~= disp0 + launched0.push(
                        pend0[i as int],
                    ));
                    assert((infl0 + launched0).push(pend0[i as int]) =~= infl0 + launched0.push(
                        pend0[i as int],
                    ));
                    assert(kept_where(ps, fs) == seq![ps[0]] + kept_where(
                        ps.subrange(1, ps.len() as int),
                        fs.subrange(1, fs.len() as int),
                    ));
                    assert(launched0 + (seq![pend0[i as int]] + kept_where(
                        pend0.subrange(i as int + 1, pend0.len() as int),
                        is_file@.subrange(i as int + 1, is_file@.len() as int),
                    )) =~= launched0.push(pend0[i as int]) + kept_where(
                        pend0.subrange(i as int + 1, pend0.len() as int),
                        is_file@.subrange(i as int + 1, is_file@.len() as int),
                    ));
                    assert forall|j: int| 0 <= j < launched.deep_view().len() implies
                        pend0.subrange(0, i as int + 1).contains(
                        #[trigger] launched.deep_view()[j],
                    ) by {
                        if j < launched0.len() {
                            let k = choose|k: int|
                                0 <= k < i && pend0.subrange(0, i as int)[k] == launched0[j];
                            assert(pend0.subrange(0, i as int + 1)[k] == launched.deep_view()[j]);
                        } else {
                            assert(pend0.subrange(0, i as int + 1)[i as int]
                                == launched.deep_view()[j]);
                        }
                    }
                }
            } else {
                proof {
                    assert(kept_where(ps, fs) == kept_where(
                        ps.subrange(1, ps.len() as int),
                        fs.subrange(1, fs.len() as int),
                    ));
                    assert forall|j: int| 0 <= j < launched.deep_view().len() implies
                        pend0.subrange(0, i as int + 1).contains(
                        #[trigger] launched.deep_view()[j],
                    ) by {
                        let k = choose|k: int|
                            0 <= k < i && pend0.subrange(0, i as int)[k] == launched.deep_view()[j];
                        assert(pend0.subrange(0, i as int + 1)[k] == launched.deep_view()[j]);
                    }
                }
            }
            i = i + 1;
        }
        self.pending = Vec::new();
        proof {
            assert(self.pending.deep_view() =~= Seq::<Seq<char>>::empty());
            assert(pend0.subrange(n as int, pend0.len() as int) =~= Seq::<Seq<char>>::empty());
            assert(is_file@.subrange(n as int, is_file@.len() as int) =~= Seq::<bool>::empty());
            assert(kept_where(Seq::<Seq<char>>::empty(), Seq::<bool>::empty()) =~= Seq::<
                Seq<char>,
            >::empty());
            assert(launched.deep_view() + Seq::<Seq<char>>::empty() =~= launched.deep_view());
            assert(launched.deep_view() == kept_where(pend0, is_file@));
            assert forall|l: Seq<char>| names_of(self.dispatched.deep_view()).contains(l) implies
                self.watcher.seen_set().contains(l) by {
                let j = choose|j: int|
                    0 <= j < self.dispatched.deep_view().len() && self.dispatched.deep_view()[j]
                        == l;
                if j < disp0.len() {
                    assert(names_of(disp0).contains(l));
                } else {
                    let k = choose|k: int|
                        0 <= k < i && pend0.subrange(0, i as int)[k] == launched.deep_view()[j
                            - disp0.len()];
                    assert(pend0[k] == l);
                    assert(names_of(pend0).contains(l));
                }
            }
            assert forall|l: Seq<char>| names_of(self.in_flight.deep_view()).contains(l) implies
                names_of(self.dispatched.deep_view()).contains(l) by {
                let j = choose|j: int|
                    0 <= j < self.in_flight.deep_view().len() && self.in_flight.deep_view()[j]
                        == l;
                if j < infl0.len() {
                    assert(names_of(infl0).contains(l));
                    assert(names_of(disp0).contains(l));
                    let m = choose|m: int| 0 <= m < disp0.len() && disp0[m] == l;
                    assert(self.dispatched.deep_view()[m] == l);
                } else {
                    assert(self.dispatched.deep_view()[disp0.len() + (j - infl0.len())] == l);
                }
            }
        }
        launched
    }

    /// How many upload units are in flight.
    pub fn in_flight_count(&self) -> (count: usize)
        ensures
            count == self.in_flight_seq().len(),
    {
        self.in_flight.len()
    }

    /// Removes every in-flight unit reported complete — whether it
    /// succeeded or failed — and keeps the others, in order. The caller
    /// reports `completed[i]` for the `i`-th in-flight unit after its
    /// bounded completion check, or after awaiting it during the final
    /// drain.
    pub fn reap(&mut self, completed: &Vec<bool>)
        requires
            old(self).wf(),
            completed@.len() == old(self).in_flight_seq().len(),
        ensures
            final(self).wf(),
            Pipeline::reap_rel(*old(self), *final(self), completed@),
    {
        let ghost infl0 = self.in_flight.deep_view();
        let ghost keep = completed@.map_values(|c: bool| !c);
        let mut kept: Vec<String> = Vec::new();
        proof {
            assert(kept.deep_view() =~= Seq::<Seq<char>>::empty());
            assert(Seq::<Seq<char>>::empty() + kept_where(infl0, keep) =~= kept_where(
                infl0,
                keep,
            ));
            assert(infl0.subrange(0, infl0.len() as int) =~= infl0);
            assert(keep.subrange(0, keep.len() as int) =~= keep);
        }
        let n = self.in_flight.len();
        let mut i: usize = 0;
        while i < n
            invariant
                i <= n,
                n == infl0.len(),
                keep.len() == infl0.len(),
                keep == completed@.map_values(|c: bool| !c),
                self.in_flight.deep_view() == infl0,
                kept_where(infl0, keep) == kept.deep_view() + kept_where(
                    infl0.subrange(i as int, infl0.len() as int),
                    keep.subrange(i as int, keep.len() as int),
                ),
                forall|j: int|
                    0 <= j < kept.deep_view().len() ==> infl0.subrange(0, i as int).contains(
                        #[trigger] kept.deep_view()[j],
                    ),
                infl0.no_duplicates(),
                kept.deep_view().no_duplicates(),
            decreases n - i,
        {
            let ghost ins = infl0.subrange(i as int, infl0.len() as int);
            let ghost ks = keep.subrange(i as int, keep.len() as int);
            proof {
                assert(ins[0] == infl0[i as int]);
                assert(ks[0] == keep[i as int]);
                assert(ins.subrange(1, ins.len() as int) =~= infl0.subrange(
                    i as int + 1,
                    infl0.len() as int,
                ));
                assert(ks.subrange(1, ks.len() as int) =~= keep.subrange(
                    i as int + 1,
                    keep.len() as int,
                ));
            }
            if !completed[i] {
                let ghost kept0 = kept.deep_view();
                proof {
                    assert(keep[i as int]);
                    assert(!kept0.contains(infl0[i as int])) by {
                        if kept0.contains(infl0[i as int]) {
                            let j = choose|j: int|
                                0 <= j < kept0.len() && kept0[j] == infl0[i as int];
                            let k = choose|k: int|
                                0 <= k < i && infl0.subrange(0, i as int)[k] == kept0[j];
                            assert(infl0[k] == infl0[i as int]);
                        }
                    }
                }
                kept.push(self.in_flight[i].clone());
                proof {
                    assert(kept.deep_view() =~= kept0.push(infl0[i as int]));
                    assert(kept_where(ins, ks) == seq![ins[0]] + kept_where(
                        ins.subrange(1, ins.len() as int),
                        ks.subrange(1, ks.len() as int),
                    ));
                    assert(kept0 + (seq![infl0[i as int]] + kept_where(
                        infl0.subrange(i as int + 1, infl0.len() as int),
                        keep.subrange(i as int + 1, keep.len() as int),
                    )) =~= kept0.push(infl0[i as int]) + kept_where(
                        infl0.subrange(i as int + 1, infl0.len() as int),
                        keep.subrange(i as int + 1, keep.len() as int),
                    ));
                    assert forall|j: int| 0 <= j < kept.deep_view().len() implies infl0.subrange(
                        0,
                        i as int + 1,
                    ).contains(#[trigger] kept.deep_view()[j]) by {
                        if j < kept0.len() {
                            let k = choose|k: int|
                                0 <= k < i && infl0.subrange(0, i as int)[k] == kept0[j];
                            assert(infl0.subrange(0, i as int + 1)[k] == kept.deep_view()[j]);
                        } else {
                            assert(infl0.subrange(0, i as int + 1)[i as int] == kept.deep_view()[
                                j]);
                        }
                    }
                }
            } else {
                proof {
                    assert(!keep[i as int]);
                    assert(kept_where(ins, ks) == kept_where(
                        ins.subrange(1, ins.len() as int),
                        ks.subrange(1, ks.len() as int),
                    ));
                    assert forall|j: int| 0 <= j < kept.deep_view().len() implies infl0.subrange(
                        0,
                        i as int + 1,
                    ).contains(#[trigger] kept.deep_view()[j]) by {
                        let k = choose|k: int|
                            0 <= k < i && infl0.subrange(0, i as int)[k] == kept.deep_view()[j];
                        assert(infl0.subrange(0, i as int + 1)[k] == kept.deep_view()[j]);
                    }
                }
            }
            i = i + 1;
        }
        self.in_flight = kept;
        proof {
            assert(infl0.subrange(n as int, infl0.len() as int) =~= Seq::<Seq<char>>::empty());
            assert(keep.subrange(n as int, keep.len() as int) =~= Seq::<bool>::empty());
            assert(kept_where(Seq::<Seq<char>>::empty(), Seq::<bool>::empty()) =~= Seq::<
                Seq<char>,
            >::empty());
            assert(self.in_flight.deep_view() + Seq::<Seq<char>>::empty()
                =~= self.in_flight.deep_view());
            assert forall|l: Seq<char>| names_of(self.in_flight.deep_view()).contains(l) implies
                names_of(self.dispatched.deep_view()).contains(l) by {
                let j = choose|j: int|
                    0 <= j < self.in_flight.deep_view().len() && self.in_flight.deep_view()[j]
                        == l;
                let k = choose|k: int|
                    0 <= k < n && infl0.subrange(0, n as int)[k] == self.in_flight.deep_view()[j];
                assert(infl0[k] == l);
                assert(names_of(infl0).contains(l));
            }
        }
    }

    /// Ends the pipeline after its final drain: callable only while
    /// draining, with no segment awaiting a decision and no unit still in
    /// flight, so `Flushed` is reached only once every dispatched upload
    /// unit — the final pass's included — was awaited to completion or
    /// failure. Sets the flush-complete signal, exactly once.
    pub fn finish(&mut self)
        requires
            old(self).wf(),
            old(self).phase() == PipelineState::Draining,
            old(self).pending_seq().len() == 0,
            old(self).in_flight_seq().len() == 0,
        ensures
            final(self).wf(),
            final(self).phase() == PipelineState::Flushed,
            final(self).flushed(),
            final(self).seen() == old(self).seen(),
            final(self).pending_seq() == old(self).pending_seq(),
            final(self).in_flight_seq() == old(self).in_flight_seq(),
            final(self).dispatched_seq() == old(self).dispatched_seq(),
    {
        self.state = PipelineState::Flushed;
        self.flush_complete = true;
    }

    /// Whether the pipeline has reached its terminal state.
    pub fn is_flushed(&self) -> (flushed: bool)
        ensures
            flushed == (self.phase() == PipelineState::Flushed),
    {
        match self.state {
            PipelineState::Flushed => true,
            _ => false,
        }
    }

    /// Reads the flush-complete signal.
    pub fn flush_signal(&self) -> (signal: bool)
        ensures
            signal == self.flushed(),
    {
        self.flush_complete
    }

    /// How many segments were ever dispatched.
    pub fn dispatched_count(&self) -> (count: usize)
        ensures
            count == self.dispatched_seq().len(),
    {
        self.dispatched.len()
    }

    /// The `i`-th segment ever dispatched, in dispatch order.
    pub fn dispatched_at(&self, i: usize) -> (name: String)
        requires
            i < self.dispatched_seq().len(),
        ensures
            name@ == self.dispatched_seq()[i as int],
    {
        self.dispatched[i].clone()
    }
}

/// No duplicate dispatch: within one pipeline lifetime, every segment name
/// is dispatched for upload at most once — the dispatch history of any
/// well-formed pipeline holds each name at most once.
pub proof fn lemma_dispatch_at_most_once(p: Pipeline)
    requires
        p.wf(),
    ensures
        p.dispatched_seq().no_duplicates(),
{
}

/// The post-signal pass still discovers: when a running pipeline observes
/// the shutdown signal, one more full pass runs, and a segment name that
/// entered the manifest by that pass's poll — even one appended
/// concurrently with the stop request — is still discovered before the
/// pipeline can reach `Flushed`.
pub proof fn lemma_shutdown_pass_discovers(
    p0: Pipeline,
    p1: Pipeline,
    p2: Pipeline,
    manifest: Set<Seq<char>>,
    name: Seq<char>,
)
    requires
        p0.phase() == PipelineState::Running,
        Pipeline::begin_rel(p0, p1, true, true),
        Pipeline::discover_rel(p1, p2, manifest),
        manifest.contains(name),
        !p0.seen().contains(name),
    ensures
        p1.phase() == PipelineState::Draining,
        names_of(p2.pending_seq()).contains(name),
        p2.phase() == PipelineState::Draining,
{
}

/// Every pass captures: a segment name in a pass's manifest that was
/// never seen before, and whose file exists when the pending batch is
/// resolved, is dispatched by the end of that pass — together with
/// `lemma_dispatch_at_most_once`, dispatched exactly once.
pub proof fn lemma_pass_dispatches(
    p1: Pipeline,
    p2: Pipeline,
    p3: Pipeline,
    manifest: Set<Seq<char>>,
    flags: Seq<bool>,
    name: Seq<char>,
)
    requires
        Pipeline::discover_rel(p1, p2, manifest),
        Pipeline::dispatch_rel(p2, p3, flags),
        manifest.contains(name),
        !p1.seen().contains(name),
        forall|k: int| 0 <= k < flags.len() ==> flags[k],
    ensures
        p3.dispatched_set().contains(name),
{
    assert(names_of(p2.pending_seq()).contains(name));
    let k = choose|k: int|
        0 <= k < p2.pending_seq().len() && p2.pending_seq()[k] == name;
    lemma_kept_where_contains(p2.pending_seq(), flags, k);
    let kw = kept_where(p2.pending_seq(), flags);
    let j = choose|j: int| 0 <= j < kw.len() && kw[j] == name;
    assert(p3.dispatched_seq()[p2.dispatched_seq().len() + j] == name);
}

/// The post-signal pass still dispatches: a segment that first appears in
/// the manifest of the pass after the shutdown signal, and whose file
/// exists when the pending batch is resolved, is dispatched — and the
/// pipeline is still `Draining` then, not yet `Flushed`.
pub proof fn lemma_shutdown_pass_dispatches(
    p0: Pipeline,
    p1: Pipeline,
    p2: Pipeline,
    p3: Pipeline,
    manifest: Set<Seq<char>>,
    flags: Seq<bool>,
    name: Seq<char>,
)
    requires
        p0.phase() == PipelineState::Running,
        Pipeline::begin_rel(p0, p1, true, true),
        Pipeline::discover_rel(p1, p2, manifest),
        Pipeline::dispatch_rel(p2, p3, flags),
        manifest.contains(name),
        !p0.seen().contains(name),
        forall|k: int| 0 <= k < flags.len() ==> flags[k],
    ensures
        p3.dispatched_set().contains(name),
        p3.phase() == PipelineState::Draining,
{
    lemma_pass_dispatches(p1, p2, p3, manifest, flags, name);
}

/// `Flushed` is reached only after the full drain: once the flush-complete
/// signal of a well-formed pipeline is set, no upload unit is still in
/// flight and no discovered segment awaits a decision — nothing was
/// abandoned silently.
pub proof fn lemma_flushed_fully_drained(p: Pipeline)
    requires
        p.wf(),
        p.flushed(),
    ensures
        p.phase() == PipelineState::Flushed,
        p.in_flight_seq().len() == 0,
        p.pending_seq().len() == 0,
{
}

/// One full iteration — shutdown observation with the pass still owed,
/// one poll, resolution of the whole pending batch, one reap — in which
/// every discovered segment's file existed when the batch was resolved.
pub open spec fn full_tick_rel(pre: Pipeline, post: Pipeline, manifest: Set<Seq<char>>) -> bool {
    exists|
        shutdown: bool,
        p1: Pipeline,
        p2: Pipeline,
        p3: Pipeline,
        flags: Seq<bool>,
        completed: Seq<bool>,
    |
        #![auto]
        {
            &&& Pipeline::begin_rel(pre, p1, shutdown, true)
            &&& Pipeline::discover_rel(p1, p2, manifest)
            &&& Pipeline::dispatch_rel(p2, p3, flags)
            &&& (forall|k: int| 0 <= k < flags.len() ==> flags[k])
            &&& Pipeline::reap_rel(p3, post, completed)
        }
}

/// A run of full iterations, one manifest snapshot per tick, left to
/// right.
pub open spec fn full_run_rel(pre: Pipeline, post: Pipeline, manifests: Seq<Set<Seq<char>>>) -> bool
    decreases manifests.len(),
{
    if manifests.len() == 0 {
        post == pre
    } else {
        exists|mid: Pipeline|
            #![auto]
            full_tick_rel(pre, mid, manifests[0]) && full_run_rel(
                mid,
                post,
                manifests.subrange(1, manifests.len() as int),
            )
    }
}

/// What one full iteration does to the two sets the upload guarantee
/// rests on: the manifest's names all become seen, and exactly the newly
/// appeared ones are dispatched.
pub proof fn lemma_full_tick_effect(pre: Pipeline, post: Pipeline, manifest: Set<Seq<char>>)
    requires
        full_tick_rel(pre, post, manifest),
    ensures
        post.seen() == pre.seen().union(manifest),
        post.dispatched_set() =~= pre.dispatched_set().union(manifest.difference(pre.seen())),
{
    let (shutdown, p1, p2, p3, flags, completed) = choose|
        shutdown: bool,
        p1: Pipeline,
        p2: Pipeline,
        p3: Pipeline,
        flags: Seq<bool>,
        completed: Seq<bool>,
    |
        #![auto]
        {
            &&& Pipeline::begin_rel(pre, p1, shutdown, true)
            &&& Pipeline::discover_rel(p1, p2, manifest)
            &&& Pipeline::dispatch_rel(p2, p3, flags)
            &&& (forall|k: int| 0 <= k < flags.len() ==> flags[k])
            &&& Pipeline::reap_rel(p3, post, completed)
        };
    lemma_kept_where_all(p2.pending_seq(), flags);
    lemma_names_of_concat(p2.dispatched_seq(), p2.pending_seq());
    assert(names_of(p2.pending_seq()) == manifest.difference(pre.seen()));
    assert(post.dispatched_set() =~= pre.dispatched_set().union(
        manifest.difference(pre.seen()),
    ));
}

/// The dispatch history only grows over a run.
pub proof fn lemma_full_run_monotone(
    pre: Pipeline,
    post: Pipeline,
    manifests: Seq<Set<Seq<char>>>,
    name: Seq<char>,
)
    requires
        full_run_rel(pre, post, manifests),
        pre.dispatched_set().contains(name),
    ensures
        post.dispatched_set().contains(name),
    decreases manifests.len(),
{
    if manifests.len() > 0 {
        let mid = choose|mid: Pipeline|
            #![auto]
            full_tick_rel(pre, mid, manifests[0]) && full_run_rel(
                mid,
                post,
                manifests.subrange(1, manifests.len() as int),
            );
        lemma_full_tick_effect(pre, mid, manifests[0]);
        lemma_full_run_monotone(mid, post, manifests.subrange(1, manifests.len() as int), name);
    }
}

/// Every filename ever appended is dispatched, exactly once, when its
/// file exists: over any sequence of manifest snapshots processed as full
/// iterations — the post-signal pass included — a name appearing in any
/// of them is in the dispatch history at the end of the run. Starting
/// from a pipeline in which everything seen was dispatched (a fresh one,
/// in particular), and with `lemma_dispatch_at_most_once`, it is there
/// exactly once.
pub proof fn lemma_full_run_dispatches_every_name(
    pre: Pipeline,
    post: Pipeline,
    manifests: Seq<Set<Seq<char>>>,
    i: int,
    name: Seq<char>,
)
    requires
        full_run_rel(pre, post, manifests),
        forall|l: Seq<char>| pre.seen().contains(l) ==> pre.dispatched_set().contains(l),
        0 <= i < manifests.len(),
        manifests[i].contains(name),
    ensures
        post.dispatched_set().contains(name),
    decreases manifests.len(),
{
    let rest = manifests.subrange(1, manifests.len() as int);
    let mid = choose|mid: Pipeline|
        #![auto]
        full_tick_rel(pre, mid, manifests[0]) && full_run_rel(
            mid,
            post,
            manifests.subrange(1, manifests.len() as int),
        );
    lemma_full_tick_effect(pre, mid, manifests[0]);
    assert forall|l: Seq<char>| mid.seen().contains(l) implies mid.dispatched_set().contains(
        l,
    ) by {
        if pre.seen().contains(l) {
            assert(pre.dispatched_set().contains(l));
        }
    }
    if i == 0 {
        assert(mid.dispatched_set().contains(name));
        lemma_full_run_monotone(mid, post, rest, name);
    } else {
        assert(rest[i - 1] == manifests[i]);
        lemma_full_run_dispatches_every_name(mid, post, rest, i - 1, name);
    }
}

/// Upload outcomes do not steer the pipeline: a reap removes completed
/// units whether they succeeded or failed, and leaves the seen set, the
/// dispatch history and the phase alone, so a poll right after it
/// discovers exactly what it would have discovered anyway — one segment's
/// failed upload never blocks the discovery or dispatch of later segments.
pub proof fn lemma_failure_does_not_block_discovery(
    p0: Pipeline,
    p1: Pipeline,
    p2: Pipeline,
    completed: Seq<bool>,
    manifest: Set<Seq<char>>,
)
    requires
        Pipeline::reap_rel(p0, p1, completed),
        Pipeline::discover_rel(p1, p2, manifest),
    ensures
        p1.seen() == p0.seen(),
        p1.dispatched_seq() == p0.dispatched_seq(),
        p1.phase() == p0.phase(),
        names_of(p2.pending_seq()) == manifest.difference(p0.seen()),
{
}

} // verus!
