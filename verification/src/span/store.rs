//! The arena: live records by handle, and the recycling of handles.

use super::record::{Span, SpanView};
use super::tags::{tag_del, tag_get, tag_set};
use std::collections::HashMap;
use vstd::prelude::*;

verus! {

broadcast use vstd::std_specs::hash::group_hash_axioms;

/// The handle of a span record in the arena.
pub type SpanReference = u32;

/// Why an access to the arena failed.
#[derive(Debug, Clone, Copy, PartialEq, Eq)]
pub enum SpanError {
    /// The handle addresses no live record.
    UnknownHandle(SpanReference),
    /// The record holds nothing under the key that was asked for.
    MissingKey,
}

/// The arena as mathematical values: the live records by handle, the handles
/// that wait for reuse (the most recently freed one last), and the highest
/// handle minted so far.
pub struct StoreView {
    pub spans: Map<SpanReference, SpanView>,
    pub free: Seq<SpanReference>,
    pub count: SpanReference,
}

/// The handles minted when the highest of them is `count`: one up to `count`.
pub open spec fn minted(count: SpanReference) -> Set<SpanReference> {
    Set::new(|h: SpanReference| 1 <= h <= count)
}

impl StoreView {
    /// Every minted handle is either live or waiting for reuse, never both
    /// and never waiting twice, and no other handle is live or waiting.
    pub open spec fn wf(self) -> bool {
        &&& self.spans.dom().finite()
        &&& forall|h: SpanReference| self.spans.contains_key(h) ==> 1 <= h <= self.count
        &&& forall|i: int|
            0 <= i < self.free.len() ==> 1 <= #[trigger] self.free[i] <= self.count
                && !self.spans.contains_key(self.free[i])
        &&& self.free.no_duplicates()
        &&& forall|h: SpanReference|
            1 <= h <= self.count ==> #[trigger] self.spans.contains_key(h) || self.free.contains(h)
    }

    /// The arena before anything was created.
    pub open spec fn empty() -> StoreView {
        StoreView { spans: Map::empty(), free: Seq::empty(), count: 0 }
    }

    /// Whether a handle is left to hand out: not every handle that the
    /// handle type can tell apart addresses a live record.
    pub open spec fn can_create(self) -> bool {
        self.spans.len() < SpanReference::MAX
    }

    /// The handle that the next creation hands out: the most recently freed
    /// one, or else the next one never minted.
    pub open spec fn next_handle(self) -> SpanReference {
        if self.free.len() > 0 {
            self.free.last()
        } else {
            (self.count + 1) as SpanReference
        }
    }

    /// The arena after one creation.
    pub open spec fn create(self) -> StoreView {
        if self.free.len() > 0 {
            StoreView {
                spans: self.spans.insert(self.free.last(), SpanView::zero()),
                free: self.free.drop_last(),
                count: self.count,
            }
        } else {
            StoreView {
                spans: self.spans.insert(self.next_handle(), SpanView::zero()),
                free: self.free,
                count: self.next_handle(),
            }
        }
    }

    /// The arena after the removal of `h`: unchanged where `h` is not live.
    pub open spec fn remove(self, h: SpanReference) -> StoreView {
        if self.spans.contains_key(h) {
            StoreView { spans: self.spans.remove(h), free: self.free.push(h), count: self.count }
        } else {
            self
        }
    }

    /// The arena with the record at `h` replaced by `span`.
    pub open spec fn put(self, h: SpanReference, span: SpanView) -> StoreView {
        StoreView { spans: self.spans.insert(h, span), free: self.free, count: self.count }
    }
}

/// There are as many minted handles as the highest of them says.
pub proof fn lemma_minted_len(count: SpanReference)
    ensures
        minted(count).finite(),
        minted(count).len() == count,
    decreases count,
{
    if count == 0 {
        assert(minted(count) =~= Set::empty());
    } else {
        let below = (count - 1) as SpanReference;
        lemma_minted_len(below);
        assert(minted(count) =~= minted(below).insert(count));
    }
}

/// Every minted handle is accounted for once: the live records and the
/// waiting handles together are as many as were minted. So a handle is left
/// to hand out whenever fewer records are live than the handle type has
/// values above zero.
pub proof fn lemma_handle_accounting(s: StoreView)
    requires
        s.wf(),
    ensures
        s.spans.len() + s.free.len() == s.count,
        s.can_create() ==> s.free.len() > 0 || s.count < SpanReference::MAX,
{
    let live = s.spans.dom();
    let waiting = s.free.to_set();
    lemma_minted_len(s.count);
    s.free.unique_seq_to_set();
    vstd::seq_lib::seq_to_set_is_finite(s.free);
    assert(live.disjoint(waiting)) by {
        assert forall|h: SpanReference| live.contains(h) implies !waiting.contains(h) by {
            if waiting.contains(h) {
                let i = choose|i: int| 0 <= i < s.free.len() && s.free[i] == h;
                assert(!s.spans.contains_key(s.free[i]));
            }
        }
    }
    assert(live + waiting =~= minted(s.count)) by {
        assert forall|h: SpanReference| minted(s.count).contains(h) implies (live + waiting).contains(
            h,
        ) by {
            assert(s.spans.contains_key(h) || s.free.contains(h));
        }
        assert forall|h: SpanReference| (live + waiting).contains(h) implies minted(
            s.count,
        ).contains(h) by {
            if waiting.contains(h) {
                let i = choose|i: int| 0 <= i < s.free.len() && s.free[i] == h;
                assert(1 <= s.free[i] <= s.count);
            }
        }
    }
    vstd::set_lib::lemma_set_disjoint_lens(live, waiting);
}

/// Creation, removal and replacement keep the arena well-formed.
pub proof fn lemma_wf_preserved(s: StoreView, h: SpanReference, span: SpanView)
    requires
        s.wf(),
    ensures
        StoreView::empty().wf(),
        s.can_create() ==> s.create().wf(),
        s.remove(h).wf(),
        s.spans.contains_key(h) ==> s.put(h, span).wf(),
{
    if s.can_create() {
        lemma_handle_accounting(s);
        let t = s.create();
        if s.free.len() > 0 {
            let last = s.free.len() - 1;
            assert forall|i: int| 0 <= i < t.free.len() implies 1 <= #[trigger] t.free[i] <= t.count
                && !t.spans.contains_key(t.free[i]) by {
                assert(t.free[i] == s.free[i]);
                assert(s.free[i] != s.free[last]);
            }
            assert forall|g: SpanReference| 1 <= g <= t.count implies #[trigger] t.spans.contains_key(
                g,
            ) || t.free.contains(g) by {
                if !s.spans.contains_key(g) && g != s.free[last] {
                    let i = choose|i: int| 0 <= i < s.free.len() && s.free[i] == g;
                    assert(t.free[i] == g);
                }
            }
        } else {
            assert forall|g: SpanReference| 1 <= g <= t.count implies #[trigger] t.spans.contains_key(
                g,
            ) || t.free.contains(g) by {
                if g != t.count {
                    assert(s.spans.contains_key(g) || s.free.contains(g));
                }
            }
        }
    }
    if s.spans.contains_key(h) {
        let t = s.remove(h);
        assert forall|i: int| 0 <= i < t.free.len() implies 1 <= #[trigger] t.free[i] <= t.count
            && !t.spans.contains_key(t.free[i]) by {
            if i < s.free.len() {
                assert(t.free[i] == s.free[i]);
            }
        }
        assert forall|i: int, j: int| 0 <= i < t.free.len() && 0 <= j < t.free.len() && i
            != j implies t.free[i] != t.free[j] by {
            if i < s.free.len() {
                assert(t.free[i] == s.free[i]);
            }
            if j < s.free.len() {
                assert(t.free[j] == s.free[j]);
            }
        }
        assert forall|g: SpanReference| 1 <= g <= t.count implies #[trigger] t.spans.contains_key(
            g,
        ) || t.free.contains(g) by {
            if g == h {
                assert(t.free[s.free.len() as int] == g);
            } else if !s.spans.contains_key(g) {
                let i = choose|i: int| 0 <= i < s.free.len() && s.free[i] == g;
                assert(t.free[i] == g);
            }
        }
        let u = s.put(h, span);
        assert forall|g: SpanReference| 1 <= g <= u.count implies #[trigger] u.spans.contains_key(
            g,
        ) || u.free.contains(g) by {
            assert(s.spans.contains_key(g) || s.free.contains(g));
        }
    }
}

/// The handle that a creation hands out addresses no record before the
/// creation and a record with every field unset after it; every other
/// handle is as it was.
pub proof fn lemma_created_handle_is_fresh(s: StoreView)
    requires
        s.wf(),
        s.can_create(),
    ensures
        s.next_handle() >= 1,
        !s.spans.contains_key(s.next_handle()),
        s.create().spans.contains_key(s.next_handle()),
        s.create().spans[s.next_handle()] == SpanView::zero(),
        forall|h: SpanReference|
            h != s.next_handle() ==> (s.create().spans.contains_key(h) <==> s.spans.contains_key(h)),
        forall|h: SpanReference|
            s.spans.contains_key(h) ==> #[trigger] s.create().spans[h] == s.spans[h],
{
    lemma_handle_accounting(s);
    if s.free.len() > 0 {
        assert(s.free[s.free.len() - 1] == s.next_handle());
    }
}

/// After its removal a handle addresses no record, whatever it addressed
/// before; every other handle is as it was.
pub proof fn lemma_removed_handle_is_dead(s: StoreView, h: SpanReference)
    ensures
        !s.remove(h).spans.contains_key(h),
        forall|g: SpanReference|
            g != h ==> (s.remove(h).spans.contains_key(g) <==> s.spans.contains_key(g)),
        forall|g: SpanReference|
            g != h && s.spans.contains_key(g) ==> #[trigger] s.remove(h).spans[g] == s.spans[g],
{
}

/// Handles are reused last freed, first reused: the creation that follows
/// the removal of a live handle hands that handle out again, and the record
/// behind it has every field unset, whatever the removed record held.
pub proof fn lemma_reuse_starts_unset(s: StoreView, h: SpanReference)
    requires
        s.wf(),
        s.spans.contains_key(h),
    ensures
        s.remove(h).can_create(),
        s.remove(h).next_handle() == h,
        s.remove(h).create().spans[h] == SpanView::zero(),
        s.remove(h).create().free == s.free,
        s.remove(h).create().count == s.count,
{
    lemma_wf_preserved(s, h, SpanView::zero());
    lemma_handle_accounting(s.remove(h));
    assert(s.remove(h).free.drop_last() =~= s.free);
}

/// The records of a map as mathematical values.
spec fn spans_of(m: Map<SpanReference, Span>) -> Map<SpanReference, SpanView> {
    m.map_values(|s: Span| s@)
}

/// The arena that is made of these three parts.
spec fn view_of(
    m: Map<SpanReference, Span>,
    count: SpanReference,
    free: Seq<SpanReference>,
) -> StoreView {
    StoreView { spans: spans_of(m), free, count }
}

proof fn lemma_spans_of(m: Map<SpanReference, Span>)
    ensures
        spans_of(m).dom() == m.dom(),
        m.dom().finite() ==> spans_of(m).dom().finite(),
        m == Map::<SpanReference, Span>::empty() ==> spans_of(m) == Map::<
            SpanReference,
            SpanView,
        >::empty(),
        forall|h: SpanReference| #[trigger] spans_of(m).contains_key(h) <==> m.contains_key(h),
        forall|h: SpanReference| m.contains_key(h) ==> #[trigger] spans_of(m)[h] == m[h]@,
        forall|h: SpanReference| #[trigger] spans_of(m.remove(h)) == spans_of(m).remove(h),
{
    assert(spans_of(m).dom() =~= m.dom());
    if m == Map::<SpanReference, Span>::empty() {
        assert(spans_of(m) =~= Map::<SpanReference, SpanView>::empty());
    }
    assert forall|h: SpanReference| #[trigger] spans_of(m.remove(h)) == spans_of(m).remove(h) by {
        assert(spans_of(m.remove(h)) =~= spans_of(m).remove(h));
    }
}

proof fn lemma_spans_of_insert(m: Map<SpanReference, Span>, h: SpanReference, span: Span)
    ensures
        spans_of(m.insert(h, span)) == spans_of(m).insert(h, span@),
        spans_of(m.remove(h).insert(h, span)) == spans_of(m).insert(h, span@),
{
    assert(spans_of(m.insert(h, span)) =~= spans_of(m).insert(h, span@));
    assert(spans_of(m.remove(h).insert(h, span)) =~= spans_of(m).insert(h, span@));
}

/// The arena that owns every span record and hands out their handles.
#[derive(Debug)]
pub struct SpanStore {
    map: HashMap<SpanReference, Span>,
    count: SpanReference,
    free: Vec<SpanReference>,
}

impl View for SpanStore {
    type V = StoreView;

    closed spec fn view(&self) -> StoreView {
        view_of(self.map@, self.count, self.free@)
    }
}

impl SpanStore {
    #[verifier::type_invariant]
    spec fn inv(self) -> bool {
        self@.wf()
    }

    /// An arena without records.
    pub fn new() -> (s: SpanStore)
        ensures
            s@ == StoreView::empty(),
    {
        let map: HashMap<SpanReference, Span> = HashMap::new();
        proof {
            lemma_spans_of(map@);
        }
        SpanStore { map, count: 0, free: Vec::new() }
    }

    /// Leaves the arena empty and hands out what it was made of, for
    /// `restore` to put a changed arena in its place.
    fn take_parts(&mut self) -> (parts: (HashMap<SpanReference, Span>, SpanReference, Vec<
        SpanReference,
    >))
        ensures
            view_of(parts.0@, parts.1, parts.2@) == old(self)@,
            old(self)@.wf(),
            parts.0@.dom().finite(),
    {
        proof {
            use_type_invariant(&*self);
        }
        let mut whole = SpanStore::new();
        std::mem::swap(self, &mut whole);
        let SpanStore { map, count, free } = whole;
        (map, count, free)
    }

    /// Makes the arena the one that consists of these parts.
    fn restore(
        &mut self,
        map: HashMap<SpanReference, Span>,
        count: SpanReference,
        free: Vec<SpanReference>,
    )
        requires
            view_of(map@, count, free@).wf(),
        ensures
            final(self)@ == view_of(map@, count, free@),
    {
        *self = SpanStore { map, count, free };
    }

    /// How many records are live.
    pub fn len(&self) -> (n: usize)
        ensures
            n == self@.spans.len(),
            self@.wf(),
    {
        proof {
            use_type_invariant(self);
            lemma_spans_of(self.map@);
        }
        self.map.len()
    }

    /// Whether `reference` addresses a live record.
    pub fn contains(&self, reference: SpanReference) -> (b: bool)
        ensures
            b == self@.spans.contains_key(reference),
    {
        proof {
            lemma_spans_of(self.map@);
        }
        self.map.contains_key(&reference)
    }

    /// Whether every handle addresses a live record, so that none is left to
    /// hand out.
    pub fn is_exhausted(&self) -> (b: bool)
        ensures
            b == !self@.can_create(),
    {
        proof {
            use_type_invariant(self);
            lemma_handle_accounting(self@);
        }
        self.free.len() == 0 && self.count == SpanReference::MAX
    }

    /// Creates a record with every field unset and returns its handle: the
    /// most recently freed one where one waits, else one never used before.
    pub fn new_span(&mut self) -> (reference: SpanReference)
        requires
            old(self)@.can_create(),
        ensures
            reference == old(self)@.next_handle(),
            final(self)@ == old(self)@.create(),
            !old(self)@.spans.contains_key(reference),
            final(self)@.spans.contains_key(reference),
            final(self)@.spans[reference] == SpanView::zero(),
            final(self)@.wf(),
    {
        let (mut map, mut count, mut free) = self.take_parts();
        proof {
            lemma_handle_accounting(old(self)@);
            lemma_wf_preserved(old(self)@, 0, SpanView::zero());
            lemma_created_handle_is_fresh(old(self)@);
        }
        let reference = match free.pop() {
            Some(n) => n,
            None => {
                count = count + 1;
                count
            },
        };
        let span = Span::new();
        proof {
            lemma_spans_of_insert(map@, reference, span);
            assert(free@ =~= old(self)@.create().free);
        }
        map.insert(reference, span);
        self.restore(map, count, free);
        reference
    }

    /// Deletes the record at `reference` and keeps the handle for reuse.
    /// Where no such record is live, nothing happens.
    pub fn remove_span(&mut self, reference: &SpanReference)
        ensures
            final(self)@ == old(self)@.remove(*reference),
            !final(self)@.spans.contains_key(*reference),
            final(self)@.wf(),
    {
        let (mut map, count, mut free) = self.take_parts();
        proof {
            lemma_spans_of(map@);
            lemma_wf_preserved(old(self)@, *reference, SpanView::zero());
        }
        if map.contains_key(reference) {
            map.remove(reference);
            free.push(*reference);
        }
        self.restore(map, count, free);
    }

    /// The record at `reference`, if it is live.
    pub fn get(&self, reference: SpanReference) -> (r: Option<&Span>)
        ensures
            match r {
                Some(span) => self@.spans.contains_key(reference) && span@
                    == self@.spans[reference],
                None => !self@.spans.contains_key(reference),
            },
    {
        proof {
            lemma_spans_of(self.map@);
        }
        self.map.get(&reference)
    }

    /// The `name` of the record at `reference`.
    pub fn get_name(&self, reference: SpanReference) -> (r: Result<String, SpanError>)
        ensures
            match r {
                Ok(v) => self@.spans.contains_key(reference) && v@
                    == self@.spans[reference].name,
                Err(e) => !self@.spans.contains_key(reference) && e == SpanError::UnknownHandle(
                    reference,
                ),
            },
    {
        match self.get(reference) {
            Some(span) => Ok(span.name.clone()),
            None => Err(SpanError::UnknownHandle(reference)),
        }
    }

    /// Sets the `name` of the record at `reference`.
    pub fn set_name(&mut self, reference: SpanReference, name: String) -> (r: Result<(), SpanError>)
        ensures
            old(self)@.spans.contains_key(reference) ==> r is Ok && final(self)@ == old(self)@.put(
                reference,
                SpanView { name: name@, ..old(self)@.spans[reference] },
            ),
            !old(self)@.spans.contains_key(reference) ==> r == Err::<(), SpanError>(
                SpanError::UnknownHandle(reference),
            ) && final(self)@ == old(self)@,
    {
        let (mut map, count, free) = self.take_parts();
        let ghost before = map@;
        proof {
            lemma_spans_of(before);
        }
        let r = match map.remove(&reference) {
            Some(mut span) => {
                span.set_name(name);
                proof {
                    lemma_spans_of_insert(before, reference, span);
                    lemma_wf_preserved(old(self)@, reference, span@);
                }
                map.insert(reference, span);
                Ok(())
            },
            None => {
                assert(map@ =~= before);
                Err(SpanError::UnknownHandle(reference))
            },
        };
        self.restore(map, count, free);
        r
    }

    /// The `service` of the record at `reference`.
    pub fn get_service(&self, reference: SpanReference) -> (r: Result<String, SpanError>)
        ensures
            match r {
                Ok(v) => self@.spans.contains_key(reference) && v@
                    == self@.spans[reference].service,
                Err(e) => !self@.spans.contains_key(reference) && e == SpanError::UnknownHandle(
                    reference,
                ),
            },
    {
        match self.get(reference) {
            Some(span) => Ok(span.service.clone()),
            None => Err(SpanError::UnknownHandle(reference)),
        }
    }

    /// Sets the `service` of the record at `reference`.
    pub fn set_service(&mut self, reference: SpanReference, service: String) -> (r: Result<(), SpanError>)
        ensures
            old(self)@.spans.contains_key(reference) ==> r is Ok && final(self)@ == old(self)@.put(
                reference,
                SpanView { service: service@, ..old(self)@.spans[reference] },
            ),
            !old(self)@.spans.contains_key(reference) ==> r == Err::<(), SpanError>(
                SpanError::UnknownHandle(reference),
            ) && final(self)@ == old(self)@,
    {
        let (mut map, count, free) = self.take_parts();
        let ghost before = map@;
        proof {
            lemma_spans_of(before);
        }
        let r = match map.remove(&reference) {
            Some(mut span) => {
                span.set_service(service);
                proof {
                    lemma_spans_of_insert(before, reference, span);
                    lemma_wf_preserved(old(self)@, reference, span@);
                }
                map.insert(reference, span);
                Ok(())
            },
            None => {
                assert(map@ =~= before);
                Err(SpanError::UnknownHandle(reference))
            },
        };
        self.restore(map, count, free);
        r
    }

    /// The `resource` of the record at `reference`.
    pub fn get_resource(&self, reference: SpanReference) -> (r: Result<String, SpanError>)
        ensures
            match r {
                Ok(v) => self@.spans.contains_key(reference) && v@
                    == self@.spans[reference].resource,
                Err(e) => !self@.spans.contains_key(reference) && e == SpanError::UnknownHandle(
                    reference,
                ),
            },
    {
        match self.get(reference) {
            Some(span) => Ok(span.resource.clone()),
            None => Err(SpanError::UnknownHandle(reference)),
        }
    }

    /// Sets the `resource` of the record at `reference`.
    pub fn set_resource(&mut self, reference: SpanReference, resource: String) -> (r: Result<(), SpanError>)
        ensures
            old(self)@.spans.contains_key(reference) ==> r is Ok && final(self)@ == old(self)@.put(
                reference,
                SpanView { resource: resource@, ..old(self)@.spans[reference] },
            ),
            !old(self)@.spans.contains_key(reference) ==> r == Err::<(), SpanError>(
                SpanError::UnknownHandle(reference),
            ) && final(self)@ == old(self)@,
    {
        let (mut map, count, free) = self.take_parts();
        let ghost before = map@;
        proof {
            lemma_spans_of(before);
        }
        let r = match map.remove(&reference) {
            Some(mut span) => {
                span.set_resource(resource);
                proof {
                    lemma_spans_of_insert(before, reference, span);
                    lemma_wf_preserved(old(self)@, reference, span@);
                }
                map.insert(reference, span);
                Ok(())
            },
            None => {
                assert(map@ =~= before);
                Err(SpanError::UnknownHandle(reference))
            },
        };
        self.restore(map, count, free);
        r
    }

    /// The `trace_id` of the record at `reference`.
    pub fn get_trace_id(&self, reference: SpanReference) -> (r: Result<u64, SpanError>)
        ensures
            match r {
                Ok(v) => self@.spans.contains_key(reference) && v
                    == self@.spans[reference].trace_id,
                Err(e) => !self@.spans.contains_key(reference) && e == SpanError::UnknownHandle(
                    reference,
                ),
            },
    {
        match self.get(reference) {
            Some(span) => Ok(span.trace_id),
            None => Err(SpanError::UnknownHandle(reference)),
        }
    }

    /// Sets the `trace_id` of the record at `reference`.
    pub fn set_trace_id(&mut self, reference: SpanReference, trace_id: u64) -> (r: Result<(), SpanError>)
        ensures
            old(self)@.spans.contains_key(reference) ==> r is Ok && final(self)@ == old(self)@.put(
                reference,
                SpanView { trace_id, ..old(self)@.spans[reference] },
            ),
            !old(self)@.spans.contains_key(reference) ==> r == Err::<(), SpanError>(
                SpanError::UnknownHandle(reference),
            ) && final(self)@ == old(self)@,
    {
        let (mut map, count, free) = self.take_parts();
        let ghost before = map@;
        proof {
            lemma_spans_of(before);
        }
        let r = match map.remove(&reference) {
            Some(mut span) => {
                span.set_trace_id(trace_id);
                proof {
                    lemma_spans_of_insert(before, reference, span);
                    lemma_wf_preserved(old(self)@, reference, span@);
                }
                map.insert(reference, span);
                Ok(())
            },
            None => {
                assert(map@ =~= before);
                Err(SpanError::UnknownHandle(reference))
            },
        };
        self.restore(map, count, free);
        r
    }

    /// The `parent_id` of the record at `reference`.
    pub fn get_parent_id(&self, reference: SpanReference) -> (r: Result<u64, SpanError>)
        ensures
            match r {
                Ok(v) => self@.spans.contains_key(reference) && v
                    == self@.spans[reference].parent_id,
                Err(e) => !self@.spans.contains_key(reference) && e == SpanError::UnknownHandle(
                    reference,
                ),
            },
    {
        match self.get(reference) {
            Some(span) => Ok(span.parent_id),
            None => Err(SpanError::UnknownHandle(reference)),
        }
    }

    /// Sets the `parent_id` of the record at `reference`.
    pub fn set_parent_id(&mut self, reference: SpanReference, parent_id: u64) -> (r: Result<(), SpanError>)
        ensures
            old(self)@.spans.contains_key(reference) ==> r is Ok && final(self)@ == old(self)@.put(
                reference,
                SpanView { parent_id, ..old(self)@.spans[reference] },
            ),
            !old(self)@.spans.contains_key(reference) ==> r == Err::<(), SpanError>(
                SpanError::UnknownHandle(reference),
            ) && final(self)@ == old(self)@,
    {
        let (mut map, count, free) = self.take_parts();
        let ghost before = map@;
        proof {
            lemma_spans_of(before);
        }
        let r = match map.remove(&reference) {
            Some(mut span) => {
                span.set_parent_id(parent_id);
                proof {
                    lemma_spans_of_insert(before, reference, span);
                    lemma_wf_preserved(old(self)@, reference, span@);
                }
                map.insert(reference, span);
                Ok(())
            },
            None => {
                assert(map@ =~= before);
                Err(SpanError::UnknownHandle(reference))
            },
        };
        self.restore(map, count, free);
        r
    }

    /// The `span_id` of the record at `reference`.
    pub fn get_span_id(&self, reference: SpanReference) -> (r: Result<u64, SpanError>)
        ensures
            match r {
                Ok(v) => self@.spans.contains_key(reference) && v
                    == self@.spans[reference].span_id,
                Err(e) => !self@.spans.contains_key(reference) && e == SpanError::UnknownHandle(
                    reference,
                ),
            },
    {
        match self.get(reference) {
            Some(span) => Ok(span.span_id),
            None => Err(SpanError::UnknownHandle(reference)),
        }
    }

    /// Sets the `span_id` of the record at `reference`.
    pub fn set_span_id(&mut self, reference: SpanReference, span_id: u64) -> (r: Result<(), SpanError>)
        ensures
            old(self)@.spans.contains_key(reference) ==> r is Ok && final(self)@ == old(self)@.put(
                reference,
                SpanView { span_id, ..old(self)@.spans[reference] },
            ),
            !old(self)@.spans.contains_key(reference) ==> r == Err::<(), SpanError>(
                SpanError::UnknownHandle(reference),
            ) && final(self)@ == old(self)@,
    {
        let (mut map, count, free) = self.take_parts();
        let ghost before = map@;
        proof {
            lemma_spans_of(before);
        }
        let r = match map.remove(&reference) {
            Some(mut span) => {
                span.set_span_id(span_id);
                proof {
                    lemma_spans_of_insert(before, reference, span);
                    lemma_wf_preserved(old(self)@, reference, span@);
                }
                map.insert(reference, span);
                Ok(())
            },
            None => {
                assert(map@ =~= before);
                Err(SpanError::UnknownHandle(reference))
            },
        };
        self.restore(map, count, free);
        r
    }

    /// The `start` of the record at `reference`.
    pub fn get_start(&self, reference: SpanReference) -> (r: Result<i64, SpanError>)
        ensures
            match r {
                Ok(v) => self@.spans.contains_key(reference) && v
                    == self@.spans[reference].start,
                Err(e) => !self@.spans.contains_key(reference) && e == SpanError::UnknownHandle(
                    reference,
                ),
            },
    {
        match self.get(reference) {
            Some(span) => Ok(span.start),
            None => Err(SpanError::UnknownHandle(reference)),
        }
    }

    /// Sets the `start` of the record at `reference`.
    pub fn set_start(&mut self, reference: SpanReference, start: i64) -> (r: Result<(), SpanError>)
        ensures
            old(self)@.spans.contains_key(reference) ==> r is Ok && final(self)@ == old(self)@.put(
                reference,
                SpanView { start, ..old(self)@.spans[reference] },
            ),
            !old(self)@.spans.contains_key(reference) ==> r == Err::<(), SpanError>(
                SpanError::UnknownHandle(reference),
            ) && final(self)@ == old(self)@,
    {
        let (mut map, count, free) = self.take_parts();
        let ghost before = map@;
        proof {
            lemma_spans_of(before);
        }
        let r = match map.remove(&reference) {
            Some(mut span) => {
                span.set_start(start);
                proof {
                    lemma_spans_of_insert(before, reference, span);
                    lemma_wf_preserved(old(self)@, reference, span@);
                }
                map.insert(reference, span);
                Ok(())
            },
            None => {
                assert(map@ =~= before);
                Err(SpanError::UnknownHandle(reference))
            },
        };
        self.restore(map, count, free);
        r
    }

    /// The `duration` of the record at `reference`.
    pub fn get_duration(&self, reference: SpanReference) -> (r: Result<i64, SpanError>)
        ensures
            match r {
                Ok(v) => self@.spans.contains_key(reference) && v
                    == self@.spans[reference].duration,
                Err(e) => !self@.spans.contains_key(reference) && e == SpanError::UnknownHandle(
                    reference,
                ),
            },
    {
        match self.get(reference) {
            Some(span) => Ok(span.duration),
            None => Err(SpanError::UnknownHandle(reference)),
        }
    }

    /// Sets the `duration` of the record at `reference`.
    pub fn set_duration(&mut self, reference: SpanReference, duration: i64) -> (r: Result<(), SpanError>)
        ensures
            old(self)@.spans.contains_key(reference) ==> r is Ok && final(self)@ == old(self)@.put(
                reference,
                SpanView { duration, ..old(self)@.spans[reference] },
            ),
            !old(self)@.spans.contains_key(reference) ==> r == Err::<(), SpanError>(
                SpanError::UnknownHandle(reference),
            ) && final(self)@ == old(self)@,
    {
        let (mut map, count, free) = self.take_parts();
        let ghost before = map@;
        proof {
            lemma_spans_of(before);
        }
        let r = match map.remove(&reference) {
            Some(mut span) => {
                span.set_duration(duration);
                proof {
                    lemma_spans_of_insert(before, reference, span);
                    lemma_wf_preserved(old(self)@, reference, span@);
                }
                map.insert(reference, span);
                Ok(())
            },
            None => {
                assert(map@ =~= before);
                Err(SpanError::UnknownHandle(reference))
            },
        };
        self.restore(map, count, free);
        r
    }

    /// The `error` of the record at `reference`.
    pub fn get_error(&self, reference: SpanReference) -> (r: Result<i32, SpanError>)
        ensures
            match r {
                Ok(v) => self@.spans.contains_key(reference) && v
                    == self@.spans[reference].error,
                Err(e) => !self@.spans.contains_key(reference) && e == SpanError::UnknownHandle(
                    reference,
                ),
            },
    {
        match self.get(reference) {
            Some(span) => Ok(span.error),
            None => Err(SpanError::UnknownHandle(reference)),
        }
    }

    /// Sets the `error` of the record at `reference`.
    pub fn set_error(&mut self, reference: SpanReference, error: i32) -> (r: Result<(), SpanError>)
        ensures
            old(self)@.spans.contains_key(reference) ==> r is Ok && final(self)@ == old(self)@.put(
                reference,
                SpanView { error, ..old(self)@.spans[reference] },
            ),
            !old(self)@.spans.contains_key(reference) ==> r == Err::<(), SpanError>(
                SpanError::UnknownHandle(reference),
            ) && final(self)@ == old(self)@,
    {
        let (mut map, count, free) = self.take_parts();
        let ghost before = map@;
        proof {
            lemma_spans_of(before);
        }
        let r = match map.remove(&reference) {
            Some(mut span) => {
                span.set_error(error);
                proof {
                    lemma_spans_of_insert(before, reference, span);
                    lemma_wf_preserved(old(self)@, reference, span@);
                }
                map.insert(reference, span);
                Ok(())
            },
            None => {
                assert(map@ =~= before);
                Err(SpanError::UnknownHandle(reference))
            },
        };
        self.restore(map, count, free);
        r
    }

    /// The tag that the record at `reference` holds under `key`.
    pub fn get_meta(&self, reference: SpanReference, key: &String) -> (r: Result<
        String,
        SpanError,
    >)
        ensures
            match r {
                Ok(v) => self@.spans.contains_key(reference) && tag_get(
                    self@.spans[reference].meta,
                    key@,
                ) == Some(v@),
                Err(e) => if self@.spans.contains_key(reference) {
                    e == SpanError::MissingKey && tag_get(self@.spans[reference].meta, key@)
                        is None
                } else {
                    e == SpanError::UnknownHandle(reference)
                },
            },
    {
        match self.get(reference) {
            Some(span) => match span.get_meta(key) {
                Some(v) => Ok(v.clone()),
                None => Err(SpanError::MissingKey),
            },
            None => Err(SpanError::UnknownHandle(reference)),
        }
    }

    /// Stores a tag under `key` in the record at `reference`, in place of
    /// an earlier one under that key.
    pub fn set_meta(&mut self, reference: SpanReference, key: String, value: String) -> (r: Result<(), SpanError>)
        ensures
            old(self)@.spans.contains_key(reference) ==> r is Ok && final(self)@ == old(self)@.put(
                reference,
                SpanView { meta: tag_set(old(self)@.spans[reference].meta, key@, value@), ..old(self)@.spans[reference] },
            ),
            !old(self)@.spans.contains_key(reference) ==> r == Err::<(), SpanError>(
                SpanError::UnknownHandle(reference),
            ) && final(self)@ == old(self)@,
    {
        let (mut map, count, free) = self.take_parts();
        let ghost before = map@;
        proof {
            lemma_spans_of(before);
        }
        let r = match map.remove(&reference) {
            Some(mut span) => {
                span.set_meta(key, value);
                proof {
                    lemma_spans_of_insert(before, reference, span);
                    lemma_wf_preserved(old(self)@, reference, span@);
                }
                map.insert(reference, span);
                Ok(())
            },
            None => {
                assert(map@ =~= before);
                Err(SpanError::UnknownHandle(reference))
            },
        };
        self.restore(map, count, free);
        r
    }

    /// Drops the tag under `key` from the record at `reference`; where
    /// the record holds none there, it stays as it is.
    pub fn del_meta(&mut self, reference: SpanReference, key: String) -> (r: Result<(), SpanError>)
        ensures
            old(self)@.spans.contains_key(reference) ==> r is Ok && final(self)@ == old(self)@.put(
                reference,
                SpanView { meta: tag_del(old(self)@.spans[reference].meta, key@), ..old(self)@.spans[reference] },
            ),
            !old(self)@.spans.contains_key(reference) ==> r == Err::<(), SpanError>(
                SpanError::UnknownHandle(reference),
            ) && final(self)@ == old(self)@,
    {
        let (mut map, count, free) = self.take_parts();
        let ghost before = map@;
        proof {
            lemma_spans_of(before);
        }
        let r = match map.remove(&reference) {
            Some(mut span) => {
                span.del_meta(key);
                proof {
                    lemma_spans_of_insert(before, reference, span);
                    lemma_wf_preserved(old(self)@, reference, span@);
                }
                map.insert(reference, span);
                Ok(())
            },
            None => {
                assert(map@ =~= before);
                Err(SpanError::UnknownHandle(reference))
            },
        };
        self.restore(map, count, free);
        r
    }

    /// The metric that the record at `reference` holds under `key`.
    pub fn get_metrics(&self, reference: SpanReference, key: &String) -> (r: Result<
        u64,
        SpanError,
    >)
        ensures
            match r {
                Ok(v) => self@.spans.contains_key(reference) && tag_get(
                    self@.spans[reference].metrics,
                    key@,
                ) == Some(v),
                Err(e) => if self@.spans.contains_key(reference) {
                    e == SpanError::MissingKey && tag_get(self@.spans[reference].metrics, key@)
                        is None
                } else {
                    e == SpanError::UnknownHandle(reference)
                },
            },
    {
        match self.get(reference) {
            Some(span) => match span.get_metrics(key) {
                Some(v) => Ok(*v),
                None => Err(SpanError::MissingKey),
            },
            None => Err(SpanError::UnknownHandle(reference)),
        }
    }

    /// Stores a metric under `key` in the record at `reference`, in place of
    /// an earlier one under that key.
    pub fn set_metrics(&mut self, reference: SpanReference, key: String, value: u64) -> (r: Result<(), SpanError>)
        ensures
            old(self)@.spans.contains_key(reference) ==> r is Ok && final(self)@ == old(self)@.put(
                reference,
                SpanView { metrics: tag_set(old(self)@.spans[reference].metrics, key@, value), ..old(self)@.spans[reference] },
            ),
            !old(self)@.spans.contains_key(reference) ==> r == Err::<(), SpanError>(
                SpanError::UnknownHandle(reference),
            ) && final(self)@ == old(self)@,
    {
        let (mut map, count, free) = self.take_parts();
        let ghost before = map@;
        proof {
            lemma_spans_of(before);
        }
        let r = match map.remove(&reference) {
            Some(mut span) => {
                span.set_metrics(key, value);
                proof {
                    lemma_spans_of_insert(before, reference, span);
                    lemma_wf_preserved(old(self)@, reference, span@);
                }
                map.insert(reference, span);
                Ok(())
            },
            None => {
                assert(map@ =~= before);
                Err(SpanError::UnknownHandle(reference))
            },
        };
        self.restore(map, count, free);
        r
    }

    /// Drops the metric under `key` from the record at `reference`; where
    /// the record holds none there, it stays as it is.
    pub fn del_metrics(&mut self, reference: SpanReference, key: String) -> (r: Result<(), SpanError>)
        ensures
            old(self)@.spans.contains_key(reference) ==> r is Ok && final(self)@ == old(self)@.put(
                reference,
                SpanView { metrics: tag_del(old(self)@.spans[reference].metrics, key@), ..old(self)@.spans[reference] },
            ),
            !old(self)@.spans.contains_key(reference) ==> r == Err::<(), SpanError>(
                SpanError::UnknownHandle(reference),
            ) && final(self)@ == old(self)@,
    {
        let (mut map, count, free) = self.take_parts();
        let ghost before = map@;
        proof {
            lemma_spans_of(before);
        }
        let r = match map.remove(&reference) {
            Some(mut span) => {
                span.del_metrics(key);
                proof {
                    lemma_spans_of_insert(before, reference, span);
                    lemma_wf_preserved(old(self)@, reference, span@);
                }
                map.insert(reference, span);
                Ok(())
            },
            None => {
                assert(map@ =~= before);
                Err(SpanError::UnknownHandle(reference))
            },
        };
        self.restore(map, count, free);
        r
    }

    /// The `span_type` of the record at `reference`.
    pub fn get_span_type(&self, reference: SpanReference) -> (r: Result<String, SpanError>)
        ensures
            match r {
                Ok(v) => self@.spans.contains_key(reference) && v@
                    == self@.spans[reference].span_type,
                Err(e) => !self@.spans.contains_key(reference) && e == SpanError::UnknownHandle(
                    reference,
                ),
            },
    {
        match self.get(reference) {
            Some(span) => Ok(span.span_type.clone()),
            None => Err(SpanError::UnknownHandle(reference)),
        }
    }

    /// Sets the `span_type` of the record at `reference`.
    pub fn set_span_type(&mut self, reference: SpanReference, span_type: String) -> (r: Result<(), SpanError>)
        ensures
            old(self)@.spans.contains_key(reference) ==> r is Ok && final(self)@ == old(self)@.put(
                reference,
                SpanView { span_type: span_type@, ..old(self)@.spans[reference] },
            ),
            !old(self)@.spans.contains_key(reference) ==> r == Err::<(), SpanError>(
                SpanError::UnknownHandle(reference),
            ) && final(self)@ == old(self)@,
    {
        let (mut map, count, free) = self.take_parts();
        let ghost before = map@;
        proof {
            lemma_spans_of(before);
        }
        let r = match map.remove(&reference) {
            Some(mut span) => {
                span.set_span_type(span_type);
                proof {
                    lemma_spans_of_insert(before, reference, span);
                    lemma_wf_preserved(old(self)@, reference, span@);
                }
                map.insert(reference, span);
                Ok(())
            },
            None => {
                assert(map@ =~= before);
                Err(SpanError::UnknownHandle(reference))
            },
        };
        self.restore(map, count, free);
        r
    }
}

} // verus!
