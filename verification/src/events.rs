//! Event pool: a bucketed, per-category store of transient application
//! events with publish, first-match lookup, deferred (mark-then-sweep)
//! removal and unconditional clearing.
//!
//! Lifecycle of one event: published, visible to lookups, optionally marked
//! for removal by a consuming lookup, and actually removed only at the next
//! sweep. Removal is swap-based (the removed slot is filled by the last
//! element), and marks within one category are processed from the highest
//! position to the lowest so that still-pending positions stay valid.

use vstd::prelude::*;

verus! {

/// Number of event categories; kept in sync with `EventType` and `Event` by
/// the exhaustive matches in `event_type_index` and `event_category`.
pub const NUM_EVENT_TYPES: usize = 1;

/// The closed set of application event payloads. Events are value types and
/// immutable once published.
#[derive(Clone, Copy, Debug, PartialEq)]
pub enum Event {
    OnNameEntered { trigger_id: u32, name: &'static str },
}

/// The closed set of event categories, one per `Event` variant; used as the
/// bucket key of the pool.
#[derive(Clone, Copy, Debug, PartialEq)]
pub enum EventType {
    OnNameEntered,
}

/// Bucket index of a category.
pub open spec fn spec_event_type_index(t: EventType) -> int {
    match t {
        EventType::OnNameEntered => 0,
    }
}

/// Bucket index of a category (executable form of `spec_event_type_index`).
pub fn event_type_index(t: EventType) -> (i: usize)
    ensures
        i == spec_event_type_index(t),
        i < NUM_EVENT_TYPES,
{
    match t {
        EventType::OnNameEntered => 0,
    }
}

/// Category an event belongs to; exhaustive over the variants of `Event`.
pub open spec fn event_category(e: Event) -> EventType {
    match e {
        Event::OnNameEntered { .. } => EventType::OnNameEntered,
    }
}

/// Correlation id carried by an event; the key that lookups match on.
pub open spec fn spec_event_trigger_id(e: Event) -> u32 {
    match e {
        Event::OnNameEntered { trigger_id, .. } => trigger_id,
    }
}

/// Whether an event matches a lookup for `target_id`.
pub open spec fn event_matches(e: Event, target_id: u32) -> bool {
    spec_event_trigger_id(e) == target_id
}

/// Whether an event matches a lookup for `target_id` (executable form of
/// `event_matches`).
pub fn matches_event(e: &Event, target_id: u32) -> (r: bool)
    ensures
        r == event_matches(*e, target_id),
{
    match e {
        Event::OnNameEntered { trigger_id, .. } => *trigger_id == target_id,
    }
}

/// Position of the first event in `s` (in append order) that matches
/// `target_id`, if any.
pub open spec fn first_match_index(s: Seq<Event>, target_id: u32) -> Option<int>
    decreases s.len(),
{
    if s.len() == 0 {
        None::<int>
    } else if event_matches(s[0], target_id) {
        Some(0int)
    } else {
        match first_match_index(s.drop_first(), target_id) {
            Some(j) => Some(j + 1),
            None => None::<int>,
        }
    }
}

/// The first event in `s` that matches `target_id`, if any.
pub open spec fn spec_find_first(s: Seq<Event>, target_id: u32) -> Option<Event> {
    match first_match_index(s, target_id) {
        Some(i) => Some(s[i]),
        None => None::<Event>,
    }
}

/// `first_match_index` returns the position of a match that no earlier
/// position beats, and `None` exactly when nothing matches.
pub proof fn lemma_first_match_index_spec(s: Seq<Event>, target_id: u32)
    ensures
        match first_match_index(s, target_id) {
            Some(i) => 0 <= i < s.len() && event_matches(s[i], target_id) && (forall|j: int|
                0 <= j < i ==> !event_matches(s[j], target_id)),
            None => forall|j: int| 0 <= j < s.len() ==> !event_matches(s[j], target_id),
        },
    decreases s.len(),
{
    if s.len() == 0 {
    } else if event_matches(s[0], target_id) {
    } else {
        let rest = s.drop_first();
        lemma_first_match_index_spec(rest, target_id);
        match first_match_index(rest, target_id) {
            Some(j) => {
                assert(first_match_index(s, target_id) == Some(j + 1));
                assert(s[j + 1] == rest[j]);
                assert forall|k: int| 0 <= k < j + 1 implies !event_matches(s[k], target_id) by {
                    if k > 0 {
                        assert(rest[k - 1] == s[k]);
                    }
                }
            },
            None => {
                assert forall|k: int| 0 <= k < s.len() implies !event_matches(
                    s[k],
                    target_id,
                ) by {
                    if k > 0 {
                        assert(rest[k - 1] == s[k]);
                    }
                }
            },
        }
    }
}

/// A position that matches while every earlier position does not is exactly
/// what `first_match_index` returns.
pub proof fn lemma_first_match_index_of_witness(s: Seq<Event>, target_id: u32, i: int)
    requires
        0 <= i < s.len(),
        event_matches(s[i], target_id),
        forall|j: int| 0 <= j < i ==> !event_matches(s[j], target_id),
    ensures
        first_match_index(s, target_id) == Some(i),
    decreases s.len(),
{
    if i == 0 {
    } else {
        let rest = s.drop_first();
        assert(!event_matches(s[0], target_id));
        assert forall|j: int| 0 <= j < i - 1 implies !event_matches(rest[j], target_id) by {
            assert(rest[j] == s[j + 1]);
        }
        assert(rest[i - 1] == s[i]);
        lemma_first_match_index_of_witness(rest, target_id, i - 1);
        assert(first_match_index(s, target_id) == Some((i - 1) + 1));
    }
}

/// The sequence after a swap-based removal at position `i`: the last element
/// moves into the removed slot and the sequence shrinks by one.
pub open spec fn swap_removed(s: Seq<Event>, i: int) -> Seq<Event>
    recommends
        0 <= i < s.len(),
{
    s.update(i, s.last()).drop_last()
}

/// The sequence after swap-removing at each position in `marks`, processed
/// front to back. The pool keeps each category's marks strictly descending,
/// so a sweep processes them from the highest position to the lowest.
pub open spec fn apply_marks(s: Seq<Event>, marks: Seq<usize>) -> Seq<Event>
    decreases marks.len(),
{
    if marks.len() == 0 {
        s
    } else {
        apply_marks(swap_removed(s, marks[0] as int), marks.drop_first())
    }
}

/// A sweep with nothing marked removes nothing.
pub proof fn lemma_apply_marks_empty(s: Seq<Event>)
    ensures
        apply_marks(s, Seq::<usize>::empty()) == s,
{
}

/// Marks are strictly descending: later entries are strictly smaller.
pub open spec fn strictly_descending(m: Seq<usize>) -> bool {
    forall|j: int, k: int| 0 <= j < k < m.len() ==> m[j] > m[k]
}

/// Every mark is a valid position in a sequence of length `len`.
pub open spec fn marks_valid(m: Seq<usize>, len: nat) -> bool {
    forall|j: int| 0 <= j < m.len() ==> m[j] < len
}

/// A strictly descending mark list with position `i` recorded: `i` is placed
/// before the first entry not above it, or nowhere if already present.
pub open spec fn insert_mark_spec(m: Seq<usize>, i: usize) -> Seq<usize>
    decreases m.len(),
{
    if m.len() == 0 {
        seq![i]
    } else if m[0] > i {
        seq![m[0]] + insert_mark_spec(m.drop_first(), i)
    } else if m[0] == i {
        m
    } else {
        seq![i] + m
    }
}

/// Recording a mark skips past every entry above it.
proof fn lemma_insert_mark_spec_skip(m: Seq<usize>, i: usize, p: int)
    requires
        0 <= p <= m.len(),
        forall|q: int| 0 <= q < p ==> m[q] > i,
    ensures
        insert_mark_spec(m, i) == m.take(p) + insert_mark_spec(m.skip(p), i),
    decreases p,
{
    if p == 0 {
        assert(m.skip(0) =~= m);
        assert(m.take(0) + insert_mark_spec(m, i) =~= insert_mark_spec(m, i));
    } else {
        let rest = m.drop_first();
        assert(m[0] > i);
        assert(insert_mark_spec(m, i) == seq![m[0]] + insert_mark_spec(rest, i));
        lemma_insert_mark_spec_skip(rest, i, p - 1);
        assert(rest.skip(p - 1) =~= m.skip(p));
        assert(seq![m[0]] + (rest.take(p - 1) + insert_mark_spec(rest.skip(p - 1), i)) =~= m.take(
            p,
        ) + insert_mark_spec(m.skip(p), i));
    }
}

/// In a strictly descending sequence the entry `j` places after the front is
/// at least `j` below the front.
proof fn lemma_descending_gap(m: Seq<usize>, j: int)
    requires
        strictly_descending(m),
        0 <= j < m.len(),
    ensures
        m[j] + j <= m[0],
    decreases j,
{
    if j > 0 {
        lemma_descending_gap(m, j - 1);
        assert(m[j - 1] > m[j]);
    }
}

/// Appending one more mark sweeps it last.
pub proof fn lemma_apply_marks_push(s: Seq<Event>, m: Seq<usize>, x: usize)
    ensures
        apply_marks(s, m.push(x)) == swap_removed(apply_marks(s, m), x as int),
    decreases m.len(),
{
    if m.len() == 0 {
        let one = m.push(x);
        assert(one[0] == x);
        assert(one.drop_first() =~= Seq::<usize>::empty());
        assert(apply_marks(s, one) == apply_marks(swap_removed(s, x as int), one.drop_first()));
        assert(apply_marks(swap_removed(s, x as int), Seq::<usize>::empty()) == swap_removed(
            s,
            x as int,
        ));
        assert(apply_marks(s, m) == s);
    } else {
        let mp = m.push(x);
        assert(mp[0] == m[0]);
        assert(mp.drop_first() =~= m.drop_first().push(x));
        let s1 = swap_removed(s, m[0] as int);
        lemma_apply_marks_push(s1, m.drop_first(), x);
        assert(apply_marks(s, mp) == apply_marks(s1, mp.drop_first()));
        assert(apply_marks(s, m) == apply_marks(s1, m.drop_first()));
    }
}

/// Publishing a matching event into a bucket with no earlier match makes the
/// very next lookup find exactly it; and since a lookup never adds, removes
/// or reorders events, a second lookup finds it again.
pub proof fn lemma_publish_then_find(s: Seq<Event>, e: Event, target_id: u32)
    requires
        event_matches(e, target_id),
        first_match_index(s, target_id) is None,
    ensures
        first_match_index(s.push(e), target_id) == Some(s.len() as int),
        spec_find_first(s.push(e), target_id) == Some(e),
{
    let sp = s.push(e);
    lemma_first_match_index_spec(s, target_id);
    assert forall|j: int| 0 <= j < s.len() implies !event_matches(sp[j], target_id) by {
        assert(sp[j] == s[j]);
    }
    assert(sp[s.len() as int] == e);
    lemma_first_match_index_of_witness(sp, target_id, s.len() as int);
}

/// Consuming the only match and then sweeping leaves the bucket exactly as it
/// was before the publish, so the same lookup afterwards finds nothing.
pub proof fn lemma_consume_then_sweep(s: Seq<Event>, e: Event, target_id: u32)
    requires
        event_matches(e, target_id),
        first_match_index(s, target_id) is None,
        s.len() < usize::MAX,
    ensures
        apply_marks(s.push(e), seq![s.len() as usize]) == s,
        first_match_index(apply_marks(s.push(e), seq![s.len() as usize]), target_id) is None,
{
    let sp = s.push(e);
    let marks = seq![s.len() as usize];
    assert(marks[0] == s.len() as usize);
    assert(marks.drop_first() =~= Seq::<usize>::empty());
    assert(apply_marks(sp, marks) == apply_marks(swap_removed(sp, s.len() as int),
        marks.drop_first()));
    assert(swap_removed(sp, s.len() as int) =~= s);
}

/// Sweeping a bucket of three events whose first and third positions are
/// marked keeps exactly the second, because marks are processed from the
/// highest position to the lowest.
pub proof fn lemma_sweep_keeps_unmarked_of_three(a: Event, b: Event, c: Event)
    ensures
        apply_marks(seq![a, b, c], seq![2usize, 0usize]) == seq![b],
{
    let s = seq![a, b, c];
    let marks = seq![2usize, 0usize];
    assert(marks[0] == 2usize && marks[1] == 0usize);
    assert(swap_removed(s, 2) =~= seq![a, b]);
    assert(marks.drop_first() =~= seq![0usize]);
    assert(apply_marks(s, marks) == apply_marks(seq![a, b], seq![0usize]));
    assert(swap_removed(seq![a, b], 0) =~= seq![b]);
    assert(seq![0usize].drop_first() =~= Seq::<usize>::empty());
    assert(apply_marks(seq![a, b], seq![0usize]) == apply_marks(seq![b], Seq::<usize>::empty()));
}

/// A store of live events bucketed by category, with a per-category list of
/// positions marked for removal at the next sweep.
///
/// Marks are kept strictly descending per category, so the sweep removes from
/// the highest position to the lowest and never invalidates a still-pending
/// position. A mark is valid only until the sweep that consumes it; the sweep
/// leaves no mark behind.
pub struct EventPool {
    data: Vec<Vec<Event>>,
    events_to_remove: Vec<Vec<usize>>,
}

impl EventPool {
    /// The live events of one category, in append order.
    pub closed spec fn events(&self, t: EventType) -> Seq<Event> {
        self.data@[spec_event_type_index(t)]@
    }

    /// The positions of one category marked for removal at the next sweep,
    /// from highest to lowest.
    pub closed spec fn marks(&self, t: EventType) -> Seq<usize> {
        self.events_to_remove@[spec_event_type_index(t)]@
    }

    /// Structural invariant: one bucket and one mark list per category, and
    /// each mark list strictly descending with every mark a valid position in
    /// its bucket.
    pub closed spec fn wf(&self) -> bool {
        &&& self.data@.len() == NUM_EVENT_TYPES
        &&& self.events_to_remove@.len() == NUM_EVENT_TYPES
        &&& forall|c: int|
            0 <= c < NUM_EVENT_TYPES ==> strictly_descending(#[trigger] self.events_to_remove@[c]@)
        &&& forall|c: int|
            0 <= c < NUM_EVENT_TYPES ==> marks_valid(
                #[trigger] self.events_to_remove@[c]@,
                self.data@[c]@.len(),
            )
    }

    /// An empty pool: no live events, nothing marked for removal.
    pub fn new() -> (p: Self)
        ensures
            p.wf(),
            forall|t: EventType| #[trigger] p.events(t) == Seq::<Event>::empty(),
            forall|t: EventType| #[trigger] p.marks(t) == Seq::<usize>::empty(),
    {
        let mut data: Vec<Vec<Event>> = Vec::new();
        let mut events_to_remove: Vec<Vec<usize>> = Vec::new();
        let mut i: usize = 0;
        while i < NUM_EVENT_TYPES
            invariant
                i <= NUM_EVENT_TYPES,
                data@.len() == i,
                events_to_remove@.len() == i,
                forall|c: int| 0 <= c < i ==> (#[trigger] data@[c])@.len() == 0,
                forall|c: int| 0 <= c < i ==> (#[trigger] events_to_remove@[c])@.len() == 0,
            decreases NUM_EVENT_TYPES - i,
        {
            data.push(Vec::new());
            events_to_remove.push(Vec::new());
            i += 1;
        }
        let p = EventPool { data, events_to_remove };
        proof {
            assert forall|t: EventType| #[trigger] p.events(t) == Seq::<Event>::empty() by {
                assert(p.events(t) =~= Seq::<Event>::empty());
            }
            assert forall|t: EventType| #[trigger] p.marks(t) == Seq::<usize>::empty() by {
                assert(p.marks(t) =~= Seq::<usize>::empty());
            }
        }
        p
    }

    /// Publishes an event: appends it to its category's bucket. Never
    /// deduplicates, never fails; events of other categories and all pending
    /// marks are untouched.
    pub fn signal_event(&mut self, event_type: EventType, event: Event)
        requires
            old(self).wf(),
            event_category(event) == event_type,
        ensures
            final(self).wf(),
            final(self).events(event_type) == old(self).events(event_type).push(event),
            forall|t: EventType|
                spec_event_type_index(t) != spec_event_type_index(event_type)
                    ==> #[trigger] final(self).events(t) == old(self).events(t),
            forall|t: EventType| #[trigger] final(self).marks(t) == old(self).marks(t),
    {
        let i = event_type_index(event_type);
        self.data[i].push(event);
    }

    /// Scans one category in append order and returns the first event whose
    /// correlation id matches `target_id`, or `None` if nothing matches. When
    /// `remove_event` is true and a match is found, its position is marked
    /// for removal at the next sweep; the event itself stays visible to
    /// further lookups until then. No event is added, removed or reordered.
    pub fn poll_events(&mut self, event_type: EventType, target_id: u32, remove_event: bool)
        -> (r: Option<Event>)
        requires
            old(self).wf(),
        ensures
            final(self).wf(),
            forall|t: EventType| #[trigger] final(self).events(t) == old(self).events(t),
            r == spec_find_first(old(self).events(event_type), target_id),
            forall|t: EventType|
                spec_event_type_index(t) != spec_event_type_index(event_type)
                    ==> #[trigger] final(self).marks(t) == old(self).marks(t),
            ({
                let s = old(self).events(event_type);
                match first_match_index(s, target_id) {
                    Some(i) => if remove_event {
                        final(self).marks(event_type) == insert_mark_spec(
                            old(self).marks(event_type),
                            i as usize,
                        )
                    } else {
                        final(self).marks(event_type) == old(self).marks(event_type)
                    },
                    None => final(self).marks(event_type) == old(self).marks(event_type),
                }
            }),
    {
        let ti = event_type_index(event_type);
        let ghost s = self.data@[ti as int]@;
        let mut found: Option<usize> = None;
        let mut idx: usize = 0;
        let n = self.data[ti].len();
        while idx < n
            invariant
                idx <= n,
                ti < self.data@.len(),
                self.data@[ti as int]@ == s,
                n == s.len(),
                match found {
                    Some(f) => f < idx && event_matches(s[f as int], target_id) && (forall|j: int|
                        0 <= j < f ==> !event_matches(s[j], target_id)),
                    None => forall|j: int| 0 <= j < idx ==> !event_matches(s[j], target_id),
                },
            decreases n - idx,
        {
            if found.is_none() && matches_event(&self.data[ti][idx], target_id) {
                found = Some(idx);
            }
            idx += 1;
        }
        let result: Option<Event> = match found {
            Some(f) => {
                proof {
                    lemma_first_match_index_of_witness(s, target_id, f as int);
                }
                Some(self.data[ti][f])
            },
            None => {
                proof {
                    lemma_first_match_index_spec(s, target_id);
                }
                None
            },
        };
        if remove_event {
            if let Some(f) = found {
                proof {
                    assert(strictly_descending(old(self).events_to_remove@[ti as int]@));
                    assert(marks_valid(
                        old(self).events_to_remove@[ti as int]@,
                        old(self).data@[ti as int]@.len(),
                    ));
                }
                insert_mark(&mut self.events_to_remove[ti], f);
                proof {
                    let m0 = old(self).events_to_remove@[ti as int]@;
                    let m1 = self.events_to_remove@[ti as int]@;
                    assert forall|j: int| 0 <= j < m1.len() implies m1[j]
                        < self.data@[ti as int]@.len() by {
                        assert(m1.contains(m1[j]));
                        if m0.contains(m1[j]) {
                            let w = choose|w: int| 0 <= w < m0.len() && m0[w] == m1[j];
                            assert(m0[w] < s.len());
                        } else {
                            assert(m1[j] == f);
                        }
                    }
                    assert(marks_valid(m1, self.data@[ti as int]@.len()));
                }
            }
        }
        result
    }

    /// The sweep: removes every marked event, per category from the highest
    /// marked position to the lowest, each removal filling the freed slot
    /// with the bucket's last element; then forgets all marks. After a sweep
    /// no stale position is left pending.
    pub fn remove_events(&mut self)
        requires
            old(self).wf(),
        ensures
            final(self).wf(),
            forall|t: EventType|
                #[trigger] final(self).events(t) == apply_marks(
                    old(self).events(t),
                    old(self).marks(t),
                ),
            forall|t: EventType| #[trigger] final(self).marks(t) == Seq::<usize>::empty(),
    {
        let mut c: usize = 0;
        while c < NUM_EVENT_TYPES
            invariant
                old(self).wf(),
                c <= NUM_EVENT_TYPES,
                self.data@.len() == NUM_EVENT_TYPES,
                self.events_to_remove@.len() == NUM_EVENT_TYPES,
                forall|u: int|
                    0 <= u < c ==> (#[trigger] self.data@[u])@ == apply_marks(
                        old(self).data@[u]@,
                        old(self).events_to_remove@[u]@,
                    ),
                forall|u: int| 0 <= u < c ==> (#[trigger] self.events_to_remove@[u])@.len() == 0,
                forall|u: int|
                    c <= u < NUM_EVENT_TYPES ==> #[trigger] self.data@[u] == old(self).data@[u],
                forall|u: int|
                    c <= u < NUM_EVENT_TYPES ==> #[trigger] self.events_to_remove@[u] == old(
                        self,
                    ).events_to_remove@[u],
            decreases NUM_EVENT_TYPES - c,
        {
            let ghost s0 = self.data@[c as int]@;
            let ghost m0 = self.events_to_remove@[c as int]@;
            proof {
                assert(self.events_to_remove@[c as int] == old(self).events_to_remove@[c as int]);
                assert(strictly_descending(old(self).events_to_remove@[c as int]@));
                assert(marks_valid(
                    old(self).events_to_remove@[c as int]@,
                    old(self).data@[c as int]@.len(),
                ));
                assert(strictly_descending(m0));
                assert(marks_valid(m0, s0.len()));
            }
            let mlen = self.events_to_remove[c].len();
            let mut j: usize = 0;
            while j < mlen
                invariant
                    j <= mlen,
                    c < NUM_EVENT_TYPES,
                    self.data@.len() == NUM_EVENT_TYPES,
                    self.events_to_remove@.len() == NUM_EVENT_TYPES,
                    self.events_to_remove@[c as int]@ == m0,
                    mlen == m0.len(),
                    strictly_descending(m0),
                    marks_valid(m0, s0.len()),
                    self.data@[c as int]@ == apply_marks(s0, m0.take(j as int)),
                    self.data@[c as int]@.len() == s0.len() - j,
                    forall|u: int|
                        0 <= u < NUM_EVENT_TYPES && u != c ==> #[trigger] self.data@[u]
                            == old(self).data@[u],
                    forall|u: int|
                        0 <= u < NUM_EVENT_TYPES && u != c ==> #[trigger] self.events_to_remove@[u]
                            == old(self).events_to_remove@[u],
                    forall|u: int|
                        0 <= u < c ==> (#[trigger] self.data@[u])@ == apply_marks(
                            old(self).data@[u]@,
                            old(self).events_to_remove@[u]@,
                        ),
                    forall|u: int|
                        0 <= u < c ==> (#[trigger] self.events_to_remove@[u])@.len() == 0,
                decreases mlen - j,
            {
                let mark = self.events_to_remove[c][j];
                proof {
                    let mtaken = m0.take(j as int);
                    assert(forall|q: int| 0 <= q < mtaken.len() ==> mtaken[q] == m0[q]);
                    lemma_descending_gap(m0, j as int);
                    assert(mark < s0.len() - j);
                    lemma_apply_marks_push(s0, mtaken, mark);
                    assert(m0.take(j as int).push(m0[j as int]) =~= m0.take(j + 1));
                }
                self.data[c].swap_remove(mark);
                j += 1;
            }
            proof {
                assert(m0.take(mlen as int) =~= m0);
            }
            self.events_to_remove[c].clear();
            c += 1;
        }
        proof {
            assert forall|t: EventType| #[trigger] final(self).marks(t)
                == Seq::<usize>::empty() by {
                assert(final(self).marks(t) =~= Seq::<usize>::empty());
            }
        }
    }

    /// Empties every category unconditionally, marked or not, and forgets all
    /// pending marks, so that the next sweep has nothing to remove. Meant for
    /// hard resets, not for the per-tick cleanup.
    pub fn clear_all_events(&mut self)
        requires
            old(self).wf(),
        ensures
            final(self).wf(),
            forall|t: EventType| #[trigger] final(self).events(t) == Seq::<Event>::empty(),
            forall|t: EventType| #[trigger] final(self).marks(t) == Seq::<usize>::empty(),
    {
        let mut c: usize = 0;
        while c < NUM_EVENT_TYPES
            invariant
                c <= NUM_EVENT_TYPES,
                self.data@.len() == NUM_EVENT_TYPES,
                self.events_to_remove@.len() == NUM_EVENT_TYPES,
                forall|u: int| 0 <= u < c ==> (#[trigger] self.data@[u])@.len() == 0,
                forall|u: int| 0 <= u < c ==> (#[trigger] self.events_to_remove@[u])@.len() == 0,
            decreases NUM_EVENT_TYPES - c,
        {
            self.data[c].clear();
            self.events_to_remove[c].clear();
            c += 1;
        }
        proof {
            assert forall|t: EventType| #[trigger] final(self).events(t)
                == Seq::<Event>::empty() by {
                assert(final(self).events(t) =~= Seq::<Event>::empty());
            }
            assert forall|t: EventType| #[trigger] final(self).marks(t)
                == Seq::<usize>::empty() by {
                assert(final(self).marks(t) =~= Seq::<usize>::empty());
            }
        }
    }
}

/// Records position `i` in a strictly descending mark list, keeping it
/// strictly descending; recording an already-marked position changes nothing.
fn insert_mark(marks: &mut Vec<usize>, i: usize)
    requires
        strictly_descending(old(marks)@),
    ensures
        strictly_descending(final(marks)@),
        final(marks)@ == insert_mark_spec(old(marks)@, i),
        forall|x: usize| final(marks)@.contains(x) ==> old(marks)@.contains(x) || x == i,
{
    let ghost m0 = marks@;
    let mut p: usize = 0;
    while p < marks.len() && marks[p] > i
        invariant
            p <= m0.len(),
            marks@ == m0,
            forall|q: int| 0 <= q < p ==> m0[q] > i,
        decreases m0.len() - p,
    {
        p += 1;
    }
    proof {
        lemma_insert_mark_spec_skip(m0, i, p as int);
    }
    if p < marks.len() && marks[p] == i {
        proof {
            assert(m0.skip(p as int)[0] == i);
            assert(insert_mark_spec(m0.skip(p as int), i) == m0.skip(p as int));
            assert(m0.take(p as int) + m0.skip(p as int) =~= m0);
        }
    } else {
        marks.insert(p, i);
        proof {
            let m1 = marks@;
            if p == m0.len() {
                assert(m0.skip(p as int) =~= Seq::<usize>::empty());
                assert(insert_mark_spec(m0.skip(p as int), i) == seq![i]);
                assert(m0.take(p as int) + seq![i] =~= m0.insert(p as int, i));
            } else {
                assert(m0.skip(p as int)[0] == m0[p as int]);
                assert(m0[p as int] < i);
                assert(insert_mark_spec(m0.skip(p as int), i) == seq![i] + m0.skip(p as int));
                assert(m0.take(p as int) + (seq![i] + m0.skip(p as int)) =~= m0.insert(
                    p as int,
                    i,
                ));
            }
            m0.insert_ensures(p as int, i);
            assert(m1 == m0.insert(p as int, i));
            assert(m1.len() == m0.len() + 1);
            assert forall|a: int, b: int| 0 <= a < b < m1.len() implies m1[a] > m1[b] by {
                if b < p {
                    assert(m1[a] == m0[a] && m1[b] == m0[b]);
                } else if b == p {
                    assert(m1[a] == m0[a] && m0[a] > i);
                } else if a < p {
                    assert(m1[a] == m0[a] && m1[b] == m0[b - 1]);
                    if b - 1 == p {
                        assert(m0[b - 1] <= i);
                    }
                } else if a == p {
                    assert(m1[b] == m0[b - 1] && p <= b - 1 < m0.len());
                    assert(m0[p as int] <= i && m0[p as int] != i);
                    if b - 1 > p {
                        assert(m0[p as int] > m0[b - 1]);
                    }
                } else {
                    assert(m1[a] == m0[a - 1] && m1[b] == m0[b - 1]);
                }
            }
            assert forall|x: usize| m1.contains(x) implies m0.contains(x) || x == i by {
                let w = choose|w: int| 0 <= w < m1.len() && m1[w] == x;
                if w < p {
                    assert(m0[w] == x);
                } else if w > p {
                    assert(m0[w - 1] == x);
                }
            }
        }
    }
}

} // verus!
