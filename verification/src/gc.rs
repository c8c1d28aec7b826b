//! The reclaimer: which handles the host has given up, which of them a
//! reader protects, and the sweep that frees the rest.

use crate::span::record::SpanView;
use crate::span::store::{lemma_wf_preserved, SpanReference, SpanStore, StoreView};
use std::collections::HashSet;
use vstd::prelude::*;

verus! {

broadcast use vstd::std_specs::hash::group_hash_axioms;

/// How long the background loop sleeps between two sweeps, in milliseconds.
pub const SWEEP_INTERVAL_MS: u64 = 1000;

/// The reclaimer as mathematical values: the handles declared dead and not
/// yet freed, the handles that a reader protects, and whether the background
/// loop is meant to run.
pub struct GcView {
    pub garbage: Set<SpanReference>,
    pub keep: Set<SpanReference>,
    pub started: bool,
}

impl GcView {
    /// The reclaimer before anything happened: nothing queued, nothing
    /// pinned, stopped.
    pub open spec fn idle() -> GcView {
        GcView { garbage: Set::empty(), keep: Set::empty(), started: false }
    }

    /// The handles that a sweep frees: queued and not pinned.
    pub open spec fn reclaimable(self) -> Set<SpanReference> {
        self.garbage.difference(self.keep)
    }

    /// The reclaimer after a sweep: only the pinned handles stay queued.
    pub open spec fn swept(self) -> GcView {
        GcView { garbage: self.garbage.intersect(self.keep), keep: self.keep, started: self.started }
    }
}

/// The arena after the removal of the handles of `order`, first to last.
pub open spec fn remove_all(s: StoreView, order: Seq<SpanReference>) -> StoreView
    decreases order.len(),
{
    if order.len() == 0 {
        s
    } else {
        remove_all(s, order.drop_last()).remove(order.last())
    }
}

/// What a sweep does to the arena: it removes the reclaimable handles, each
/// once, in some order.
pub open spec fn sweep_outcome(gc: GcView, pre: StoreView, post: StoreView) -> bool {
    exists|order: Seq<SpanReference>|
        order.no_duplicates() && order.to_set() == gc.reclaimable() && post == #[trigger] remove_all(
            pre,
            order,
        )
}

/// Removing handles one after another removes exactly their records, mints
/// nothing and keeps every handle that waited for reuse at its place.
pub proof fn lemma_remove_all(s: StoreView, order: Seq<SpanReference>)
    requires
        s.wf(),
    ensures
        remove_all(s, order).wf(),
        remove_all(s, order).spans == s.spans.remove_keys(order.to_set()),
        remove_all(s, order).count == s.count,
        s.free.is_prefix_of(remove_all(s, order).free),
    decreases order.len(),
{
    if order.len() == 0 {
        assert(order.to_set() =~= Set::empty());
        assert(s.spans.remove_keys(order.to_set()) =~= s.spans);
    } else {
        let before = remove_all(s, order.drop_last());
        lemma_remove_all(s, order.drop_last());
        lemma_wf_preserved(before, order.last(), SpanView::zero());
        assert(order =~= order.drop_last().push(order.last()));
        order.drop_last().lemma_push_to_set_commute(order.last());
        assert(before.remove(order.last()).spans =~= s.spans.remove_keys(order.to_set()));
    }
}

/// A sweep leaves a pinned handle alone. Its record, if it has one, stays as
/// it was, and where the handle was queued it stays queued.
pub proof fn lemma_pinned_survives_sweep(
    gc: GcView,
    pre: StoreView,
    post: StoreView,
    h: SpanReference,
)
    requires
        pre.wf(),
        sweep_outcome(gc, pre, post),
        gc.keep.contains(h),
    ensures
        post.wf(),
        post.spans.contains_key(h) == pre.spans.contains_key(h),
        pre.spans.contains_key(h) ==> post.spans[h] == pre.spans[h],
        gc.swept().garbage.contains(h) == gc.garbage.contains(h),
{
    let order = choose|order: Seq<SpanReference>|
        order.no_duplicates() && order.to_set() == gc.reclaimable() && post == #[trigger] remove_all(
            pre,
            order,
        );
    lemma_remove_all(pre, order);
}

/// A sweep removes a queued handle that is not pinned, and the handle leaves
/// the queue.
pub proof fn lemma_unpinned_reclaimed_by_sweep(
    gc: GcView,
    pre: StoreView,
    post: StoreView,
    h: SpanReference,
)
    requires
        pre.wf(),
        sweep_outcome(gc, pre, post),
        gc.garbage.contains(h),
        !gc.keep.contains(h),
    ensures
        post.wf(),
        !post.spans.contains_key(h),
        !gc.swept().garbage.contains(h),
{
    let order = choose|order: Seq<SpanReference>|
        order.no_duplicates() && order.to_set() == gc.reclaimable() && post == #[trigger] remove_all(
            pre,
            order,
        );
    lemma_remove_all(pre, order);
}

/// A pin delays a removal and does not cancel it: a handle that is queued
/// and pinned outlives the sweep that finds it so; once it is released, and
/// still queued, the next sweep removes it.
pub proof fn lemma_pinned_then_released(
    gc: GcView,
    s0: StoreView,
    s1: StoreView,
    s2: StoreView,
    h: SpanReference,
)
    requires
        s0.wf(),
        gc.garbage.contains(h),
        gc.keep.contains(h),
        sweep_outcome(gc, s0, s1),
        sweep_outcome(
            GcView { keep: gc.swept().keep.remove(h), ..gc.swept() },
            s1,
            s2,
        ),
    ensures
        s1.spans.contains_key(h) == s0.spans.contains_key(h),
        s0.spans.contains_key(h) ==> s1.spans[h] == s0.spans[h],
        gc.swept().garbage.contains(h),
        !s2.spans.contains_key(h),
{
    lemma_pinned_survives_sweep(gc, s0, s1, h);
    lemma_unpinned_reclaimed_by_sweep(
        GcView { keep: gc.swept().keep.remove(h), ..gc.swept() },
        s1,
        s2,
        h,
    );
}

/// One more handle of `s` taken: it comes last and joins the set of those
/// taken before.
pub(crate) proof fn lemma_take_next(s: Seq<SpanReference>, i: int)
    requires
        0 <= i < s.len(),
    ensures
        s.take(i + 1).drop_last() == s.take(i),
        s.take(i + 1).last() == s[i],
        s.take(i + 1).to_set() == s.take(i).to_set().insert(s[i]),
{
    assert(s.take(i + 1).drop_last() =~= s.take(i));
    assert(s.take(i + 1) =~= s.take(i).push(s[i]));
    s.take(i).lemma_push_to_set_commute(s[i]);
}

/// The background reclaimer's bookkeeping.
#[derive(Debug)]
pub struct GarbageCollector {
    garbage: HashSet<SpanReference>,
    keep: HashSet<SpanReference>,
    started: bool,
}

impl View for GarbageCollector {
    type V = GcView;

    closed spec fn view(&self) -> GcView {
        GcView { garbage: self.garbage@, keep: self.keep@, started: self.started }
    }
}

impl GarbageCollector {
    /// A stopped reclaimer with nothing queued and nothing pinned.
    pub fn new() -> (gc: GarbageCollector)
        ensures
            gc@ == GcView::idle(),
    {
        GarbageCollector { garbage: HashSet::new(), keep: HashSet::new(), started: false }
    }

    /// Pins `span`: no sweep frees it until it is released.
    pub fn keep(&mut self, span: &SpanReference)
        ensures
            final(self)@ == (GcView { keep: old(self)@.keep.insert(*span), ..old(self)@ }),
    {
        self.keep.insert(*span);
    }

    /// Unpins `span`, however often it was pinned.
    pub fn release(&mut self, span: &SpanReference)
        ensures
            final(self)@ == (GcView { keep: old(self)@.keep.remove(*span), ..old(self)@ }),
    {
        self.keep.remove(span);
    }

    /// Queues `span` for removal by a later sweep.
    pub fn recycle(&mut self, span: &SpanReference)
        ensures
            final(self)@ == (GcView { garbage: old(self)@.garbage.insert(*span), ..old(self)@ }),
    {
        self.garbage.insert(*span);
    }

    /// Whether `span` is pinned.
    pub fn is_kept(&self, span: &SpanReference) -> (b: bool)
        ensures
            b == self@.keep.contains(*span),
    {
        self.keep.contains(span)
    }

    /// Whether `span` waits for removal.
    pub fn is_garbage(&self, span: &SpanReference) -> (b: bool)
        ensures
            b == self@.garbage.contains(*span),
    {
        self.garbage.contains(span)
    }

    /// Whether the background loop is meant to run.
    pub fn is_started(&self) -> (b: bool)
        ensures
            b == self@.started,
    {
        self.started
    }

    /// Switches to running. The result says whether a background loop has to
    /// be launched: not when one runs already.
    pub fn start(&mut self) -> (launch: bool)
        ensures
            launch == !old(self)@.started,
            final(self)@ == (GcView { started: true, ..old(self)@ }),
    {
        let launch = !self.started;
        self.started = true;
        launch
    }

    /// Switches to stopped. The result says whether the background loop has
    /// to be woken so that it sees the change: not when none runs.
    pub fn stop(&mut self) -> (notify: bool)
        ensures
            notify == old(self)@.started,
            final(self)@ == (GcView { started: false, ..old(self)@ }),
    {
        let notify = self.started;
        self.started = false;
        notify
    }

    /// The queued handles that no reader protects, each once.
    fn reclaimable_handles(&self) -> (dead: Vec<SpanReference>)
        ensures
            dead@.no_duplicates(),
            dead@.to_set() == self@.reclaimable(),
    {
        let mut dead: Vec<SpanReference> = Vec::new();
        for h in it: self.garbage.iter()
            invariant
                it.seq().no_duplicates(),
                it.seq().unref().to_set() == self.garbage@,
                dead@.no_duplicates(),
                forall|j: int|
                    0 <= j < dead@.len() ==> !self.keep@.contains(#[trigger] dead@[j])
                        && self.garbage@.contains(dead@[j]),
                forall|j: int, k: int|
                    0 <= j < dead@.len() && it.index() <= k < it.seq().len() ==> #[trigger] dead@[j]
                        != *#[trigger] it.seq()[k],
                forall|x: SpanReference|
                    self.garbage@.contains(x) && !self.keep@.contains(x) && !dead@.contains(x)
                        ==> exists|k: int|
                        it.index() <= k < it.seq().len() && *#[trigger] it.seq()[k] == x,
        {
            let ghost found = dead@;
            if !self.keep.contains(h) {
                dead.push(*h);
            }
            proof {
                assert forall|x: SpanReference|
                    self.garbage@.contains(x) && !self.keep@.contains(x) && !dead@.contains(
                        x,
                    ) implies exists|k: int|
                    it.index() + 1 <= k < it.seq().len() && *#[trigger] it.seq()[k] == x by {
                    if found.contains(x) {
                        let j = choose|j: int| 0 <= j < found.len() && found[j] == x;
                        assert(dead@[j] == x);
                    }
                    let k = choose|k: int|
                        it.index() <= k < it.seq().len() && *#[trigger] it.seq()[k] == x;
                    if k == it.index() {
                        assert(dead@[dead@.len() - 1] == x);
                    }
                }
            }
        }
        proof {
            assert(dead@.to_set() =~= self@.reclaimable());
        }
        dead
    }

    /// One sweep: every queued handle that is not pinned is removed from the
    /// arena and leaves the queue; a pinned one stays queued for a later sweep.
    pub fn sweep(&mut self, store: &mut SpanStore)
        ensures
            final(self)@ == old(self)@.swept(),
            sweep_outcome(old(self)@, old(store)@, final(store)@),
    {
        let dead = self.reclaimable_handles();
        let ghost before = self@;
        let ghost pre = store@;
        let n = dead.len();
        let mut i: usize = 0;
        while i < n
            invariant
                i <= n,
                n == dead@.len(),
                store@ == remove_all(pre, dead@.take(i as int)),
                self.keep@ == before.keep,
                self.started == before.started,
                self.garbage@ == before.garbage.difference(dead@.take(i as int).to_set()),
            decreases n - i,
        {
            store.remove_span(&dead[i]);
            self.garbage.remove(&dead[i]);
            proof {
                lemma_take_next(dead@, i as int);
                let next = dead@.take(i + 1);
                assert(self.garbage@ =~= before.garbage.difference(next.to_set()));
            }
            i += 1;
        }
        proof {
            assert(dead@.take(n as int) =~= dead@);
            assert(self.garbage@ =~= before.garbage.intersect(before.keep));
        }
    }

    /// What the background loop does each time it wakes, on its interval or
    /// on a stop: where the reclaimer was stopped it ends (`false`), else it
    /// sweeps once and goes on (`true`).
    pub fn wake(&mut self, store: &mut SpanStore) -> (go_on: bool)
        ensures
            go_on == old(self)@.started,
            go_on ==> final(self)@ == old(self)@.swept() && sweep_outcome(
                old(self)@,
                old(store)@,
                final(store)@,
            ),
            !go_on ==> final(self)@ == old(self)@ && final(store)@ == old(store)@,
    {
        if !self.started {
            return false;
        }
        self.sweep(store);
        true
    }
}

} // verus!
