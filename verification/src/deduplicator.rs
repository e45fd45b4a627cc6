//! Classification of a freshly fetched batch of events against the
//! in-memory timeline and the durable store: which events are novel, which
//! duplicate an event already in memory (and where), and which duplicate
//! an event the store already persisted.

use vstd::prelude::*;
use crate::events::{
    duplicate_event, timeline_has_id, views_of_events, ChunkView, EventView, Position, RoomEvents,
    TimelineEvent,
};

verus! {

/// The views of a list of identifiers.
pub open spec fn id_views(ids: Seq<String>) -> Seq<Seq<char>> {
    ids.map_values(|s: String| s@)
}

/// The identifier views of a list of (identifier, position) pairs.
pub open spec fn pair_id_views(pairs: Seq<(String, Position)>) -> Seq<Seq<char>> {
    pairs.map_values(|p: (String, Position)| p.0@)
}

/// Whether an event duplicates one already known: it carries no usable
/// identifier, or its identifier is in the timeline or in the store.
pub open spec fn event_known(
    chunks: Seq<ChunkView>,
    store: Seq<Seq<char>>,
    e: EventView,
) -> bool {
    match e.event_id {
        None => true,
        Some(id) => timeline_has_id(chunks, id) || store.contains(id),
    }
}

/// The valid events of a batch: those that carry an identifier, keeping
/// only the first occurrence of each identifier. `seen` holds the
/// identifiers already taken.
pub open spec fn valid_unique(batch: Seq<EventView>, seen: Set<Seq<char>>) -> Seq<EventView>
    decreases batch.len(),
{
    if batch.len() == 0 {
        Seq::empty()
    } else {
        let e = batch[0];
        let rest = batch.drop_first();
        match e.event_id {
            None => valid_unique(rest, seen),
            Some(id) => if seen.contains(id) {
                valid_unique(rest, seen)
            } else {
                seq![e] + valid_unique(rest, seen.insert(id))
            },
        }
    }
}

/// Of the valid events of a batch, the identifiers already present in the
/// in-memory timeline, in batch order.
pub open spec fn dup_mem_ids(
    batch: Seq<EventView>,
    seen: Set<Seq<char>>,
    chunks: Seq<ChunkView>,
) -> Seq<Seq<char>>
    decreases batch.len(),
{
    if batch.len() == 0 {
        Seq::empty()
    } else {
        let e = batch[0];
        let rest = batch.drop_first();
        match e.event_id {
            None => dup_mem_ids(rest, seen, chunks),
            Some(id) => if seen.contains(id) {
                dup_mem_ids(rest, seen, chunks)
            } else if timeline_has_id(chunks, id) {
                seq![id] + dup_mem_ids(rest, seen.insert(id), chunks)
            } else {
                dup_mem_ids(rest, seen.insert(id), chunks)
            },
        }
    }
}

/// Of the valid events of a batch, the identifiers absent from memory but
/// already persisted by the store, in batch order.
pub open spec fn dup_store_ids(
    batch: Seq<EventView>,
    seen: Set<Seq<char>>,
    chunks: Seq<ChunkView>,
    store: Seq<Seq<char>>,
) -> Seq<Seq<char>>
    decreases batch.len(),
{
    if batch.len() == 0 {
        Seq::empty()
    } else {
        let e = batch[0];
        let rest = batch.drop_first();
        match e.event_id {
            None => dup_store_ids(rest, seen, chunks, store),
            Some(id) => if seen.contains(id) {
                dup_store_ids(rest, seen, chunks, store)
            } else if !timeline_has_id(chunks, id) && store.contains(id) {
                seq![id] + dup_store_ids(rest, seen.insert(id), chunks, store)
            } else {
                dup_store_ids(rest, seen.insert(id), chunks, store)
            },
        }
    }
}

/// The events of a run that duplicate nothing already known, in order.
pub open spec fn retained(
    events: Seq<EventView>,
    chunks: Seq<ChunkView>,
    store: Seq<Seq<char>>,
) -> Seq<EventView>
    decreases events.len(),
{
    if events.len() == 0 {
        Seq::empty()
    } else {
        let head: Seq<EventView> = if !event_known(chunks, store, events[0]) {
            seq![events[0]]
        } else {
            Seq::empty()
        };
        head + retained(events.drop_first(), chunks, store)
    }
}

/// Dropping known events distributes over concatenation.
pub proof fn lemma_retained_append(
    a: Seq<EventView>,
    b: Seq<EventView>,
    chunks: Seq<ChunkView>,
    store: Seq<Seq<char>>,
)
    ensures
        retained(a + b, chunks, store) == retained(a, chunks, store) + retained(b, chunks, store),
    decreases a.len(),
{
    if a.len() == 0 {
        assert(a + b =~= b);
        assert(retained(a, chunks, store) + retained(b, chunks, store) =~= retained(
            b,
            chunks,
            store,
        ));
    } else {
        assert((a + b).drop_first() =~= a.drop_first() + b);
        lemma_retained_append(a.drop_first(), b, chunks, store);
        assert(retained(a + b, chunks, store) =~= retained(a, chunks, store) + retained(
            b,
            chunks,
            store,
        ));
    }
}

/// Dropping known events from a single-event run keeps or drops that
/// event.
pub proof fn lemma_retained_single(e: EventView, chunks: Seq<ChunkView>, store: Seq<Seq<char>>)
    ensures
        !event_known(chunks, store, e) ==> retained(seq![e], chunks, store) == seq![e],
        event_known(chunks, store, e) ==> retained(seq![e], chunks, store) == Seq::<
            EventView,
        >::empty(),
{
    assert(seq![e].drop_first() =~= Seq::<EventView>::empty());
    assert(retained(Seq::<EventView>::empty(), chunks, store) =~= Seq::<EventView>::empty());
    if !event_known(chunks, store, e) {
        assert(retained(seq![e], chunks, store) =~= seq![e]);
    } else {
        assert(retained(seq![e], chunks, store) =~= Seq::<EventView>::empty());
    }
}

/// The identifiers found in memory, those found in the store, and the
/// events duplicating neither partition the valid events of a batch.
pub proof fn lemma_duplicate_counts(
    batch: Seq<EventView>,
    seen: Set<Seq<char>>,
    chunks: Seq<ChunkView>,
    store: Seq<Seq<char>>,
)
    ensures
        dup_mem_ids(batch, seen, chunks).len() + dup_store_ids(batch, seen, chunks, store).len()
            + retained(valid_unique(batch, seen), chunks, store).len() == valid_unique(
            batch,
            seen,
        ).len(),
    decreases batch.len(),
{
    if batch.len() == 0 {
    } else {
        let e = batch[0];
        let rest = batch.drop_first();
        match e.event_id {
            None => {
                lemma_duplicate_counts(rest, seen, chunks, store);
            },
            Some(id) => {
                if seen.contains(id) {
                    lemma_duplicate_counts(rest, seen, chunks, store);
                } else {
                    let seen2 = seen.insert(id);
                    lemma_duplicate_counts(rest, seen2, chunks, store);
                    lemma_retained_append(seq![e], valid_unique(rest, seen2), chunks, store);
                    lemma_retained_single(e, chunks, store);
                }
            },
        }
    }
}

/// No two events of the run carry the same identifier; events without
/// an identifier are exempt.
pub open spec fn distinct_ids(es: Seq<EventView>) -> bool {
    forall|i: int, j: int|
        #![trigger es[i], es[j]]
        0 <= i < es.len() && 0 <= j < es.len() && i != j && es[i].event_id is Some
            ==> es[i].event_id != es[j].event_id
}

/// The valid events of a batch all carry identifiers, none already in
/// `seen`, and no identifier twice.
pub proof fn lemma_valid_unique_distinct(batch: Seq<EventView>, seen: Set<Seq<char>>)
    ensures
        distinct_ids(valid_unique(batch, seen)),
        forall|k: int|
            0 <= k < valid_unique(batch, seen).len() ==> ((#[trigger] valid_unique(batch, seen)[k]).event_id matches Some(id)
                && !seen.contains(id)),
    decreases batch.len(),
{
    if batch.len() == 0 {
    } else {
        let e = batch[0];
        let rest = batch.drop_first();
        match e.event_id {
            None => {
                lemma_valid_unique_distinct(rest, seen);
            },
            Some(id) => {
                if seen.contains(id) {
                    lemma_valid_unique_distinct(rest, seen);
                } else {
                    let seen2 = seen.insert(id);
                    lemma_valid_unique_distinct(rest, seen2);
                    let vu2 = valid_unique(rest, seen2);
                    let vu = valid_unique(batch, seen);
                    assert(vu == seq![e] + vu2);
                    assert(vu[0] == e);
                    assert forall|k: int| 0 <= k < vu.len() implies ((#[trigger] vu[k]).event_id
                        matches Some(id2) && !seen.contains(id2)) by {
                        if k > 0 {
                            assert(vu[k] == vu2[k - 1]);
                        }
                    }
                    assert forall|i: int, j: int|
                        0 <= i < vu.len() && 0 <= j < vu.len() && i != j && (#[trigger] vu[i]).event_id
                            is Some implies vu[i].event_id != (#[trigger] vu[j]).event_id by {
                        if i > 0 && j > 0 {
                            assert(vu[i] == vu2[i - 1]);
                            assert(vu[j] == vu2[j - 1]);
                        } else if i == 0 {
                            assert(vu[j] == vu2[j - 1]);
                            assert(vu2[j - 1].event_id matches Some(id2) && !seen2.contains(id2));
                        } else {
                            assert(vu[i] == vu2[i - 1]);
                            assert(vu2[i - 1].event_id matches Some(id2) && !seen2.contains(id2));
                        }
                    }
                }
            },
        }
    }
}

/// Dropping known events keeps identifiers distinct, and introduces no
/// identifier that the run did not carry.
pub proof fn lemma_retained_distinct(
    es: Seq<EventView>,
    chunks: Seq<ChunkView>,
    store: Seq<Seq<char>>,
)
    requires
        distinct_ids(es),
    ensures
        distinct_ids(retained(es, chunks, store)),
        forall|k: int|
            0 <= k < retained(es, chunks, store).len() ==> exists|j: int|
                0 <= j < es.len() && (#[trigger] retained(es, chunks, store)[k]).event_id
                    == es[j].event_id,
    decreases es.len(),
{
    if es.len() == 0 {
    } else {
        let e = es[0];
        let rest = es.drop_first();
        assert forall|i: int, j: int|
            #![trigger rest[i], rest[j]]
            0 <= i < rest.len() && 0 <= j < rest.len() && i != j && rest[i].event_id is Some
            implies rest[i].event_id != rest[j].event_id by {
            assert(rest[i] == es[i + 1]);
            assert(rest[j] == es[j + 1]);
        }
        lemma_retained_distinct(rest, chunks, store);
        let r = retained(es, chunks, store);
        let r2 = retained(rest, chunks, store);
        if !event_known(chunks, store, e) {
            assert(r == seq![e] + r2);
            assert(r[0] == e);
            assert forall|k: int| 0 <= k < r.len() implies exists|j: int|
                0 <= j < es.len() && (#[trigger] r[k]).event_id == es[j].event_id by {
                if k == 0 {
                    assert(r[0].event_id == es[0].event_id);
                } else {
                    assert(r[k] == r2[k - 1]);
                    let j2 = choose|j2: int|
                        0 <= j2 < rest.len() && r2[k - 1].event_id == rest[j2].event_id;
                    assert(rest[j2] == es[j2 + 1]);
                }
            }
            assert forall|i: int, j: int|
                0 <= i < r.len() && 0 <= j < r.len() && i != j && (#[trigger] r[i]).event_id
                    is Some implies r[i].event_id != (#[trigger] r[j]).event_id by {
                if i > 0 && j > 0 {
                    assert(r[i] == r2[i - 1]);
                    assert(r[j] == r2[j - 1]);
                } else if i == 0 && j > 0 {
                    assert(r[j] == r2[j - 1]);
                    let j2 = choose|j2: int|
                        0 <= j2 < rest.len() && r2[j - 1].event_id == rest[j2].event_id;
                    assert(rest[j2] == es[j2 + 1]);
                    assert(es[0].event_id != es[j2 + 1].event_id);
                } else if j == 0 && i > 0 {
                    assert(r[i] == r2[i - 1]);
                    let j2 = choose|j2: int|
                        0 <= j2 < rest.len() && r2[i - 1].event_id == rest[j2].event_id;
                    assert(rest[j2] == es[j2 + 1]);
                    if es[j2 + 1].event_id is Some {
                        assert(es[j2 + 1].event_id != es[0].event_id);
                    }
                }
            }
        } else {
            assert(r == Seq::<EventView>::empty() + r2);
            assert(r =~= r2);
        }
    }
}

/// Concatenation of sequences is associative.
pub(crate) proof fn lemma_add_assoc<A>(a: Seq<A>, b: Seq<A>, c: Seq<A>)
    ensures
        (a + b) + c == a + (b + c),
{
    assert((a + b) + c =~= a + (b + c));
}

/// The empty sequence is a left identity of concatenation.
pub(crate) proof fn lemma_add_empty_left<A>(a: Seq<A>)
    ensures
        Seq::<A>::empty() + a == a,
{
    assert(Seq::<A>::empty() + a =~= a);
}

/// Appending one identifier extends what the list of identifiers holds by
/// exactly that identifier.
proof fn lemma_id_views_push_contains(prev: Seq<String>, cur: Seq<String>, idv: Seq<char>)
    requires
        id_views(cur) == id_views(prev).push(idv),
    ensures
        forall|x: Seq<char>| id_views(cur).contains(x) == (id_views(prev).contains(x) || x
            == idv),
{
    let sv = id_views(cur);
    let pv = id_views(prev);
    assert forall|x: Seq<char>| sv.contains(x) == (pv.contains(x) || x == idv) by {
        if x == idv {
            assert(sv[sv.len() - 1] == idv);
            assert(sv.contains(x));
        } else {
            if pv.contains(x) {
                let j = choose|j: int| 0 <= j < pv.len() && pv[j] == x;
                assert(sv[j] == x);
                assert(sv.contains(x));
            }
            if sv.contains(x) {
                let j = choose|j: int| 0 <= j < sv.len() && sv[j] == x;
                assert(j < pv.len());
                assert(pv.contains(x));
            }
        }
    }
}

/// For one fetched batch: the valid events, the identifiers found to
/// duplicate in-memory events (with a position of the copy in memory),
/// the identifiers found to duplicate store-resident events, and whether
/// every valid event of the batch was a duplicate.
pub struct DeduplicationOutcome {
    pub all_events: Vec<TimelineEvent>,
    pub in_memory_duplicated_event_ids: Vec<(String, Position)>,
    pub in_store_duplicated_event_ids: Vec<String>,
    pub all_duplicates: bool,
}

/// Whether a list of identifiers holds the given one.
pub(crate) fn ids_contain(ids: &Vec<String>, id: &String) -> (r: bool)
    ensures
        r == id_views(ids@).contains(id@),
{
    let n = ids.len();
    let mut i: usize = 0;
    while i < n
        invariant
            n == ids.len(),
            0 <= i <= n,
            forall|k: int| 0 <= k < i ==> id_views(ids@)[k] != id@,
        decreases n - i,
    {
        if id.eq(&ids[i]) {
            assert(id_views(ids@)[i as int] == id@);
            return true;
        }
        i = i + 1;
    }
    assert(!id_views(ids@).contains(id@));
    false
}

/// Classify a fetched batch against the in-memory timeline and the listed
/// store-resident identifiers.
pub fn collect_valid_and_duplicated_events(
    batch: &Vec<TimelineEvent>,
    room_events: &RoomEvents,
    store_event_ids: &Vec<String>,
) -> (r: DeduplicationOutcome)
    ensures
        views_of_events(r.all_events@) == valid_unique(views_of_events(batch@), Set::empty()),
        pair_id_views(r.in_memory_duplicated_event_ids@) == dup_mem_ids(
            views_of_events(batch@),
            Set::empty(),
            room_events@.chunks,
        ),
        id_views(r.in_store_duplicated_event_ids@) == dup_store_ids(
            views_of_events(batch@),
            Set::empty(),
            room_events@.chunks,
            id_views(store_event_ids@),
        ),
        forall|k: int| 0 <= k < r.in_memory_duplicated_event_ids@.len() ==> timeline_has_id(
            room_events@.chunks,
            (#[trigger] r.in_memory_duplicated_event_ids@[k]).0@,
        ),
        r.all_duplicates == (retained(
            valid_unique(views_of_events(batch@), Set::empty()),
            room_events@.chunks,
            id_views(store_event_ids@),
        ).len() == 0),
{
    let ghost bviews = views_of_events(batch@);
    let ghost cs = room_events@.chunks;
    let ghost stviews = id_views(store_event_ids@);

    let n = batch.len();
    let mut all_events: Vec<TimelineEvent> = Vec::new();
    let mut mem_dups: Vec<(String, Position)> = Vec::new();
    let mut store_dups: Vec<String> = Vec::new();
    let mut seen: Vec<String> = Vec::new();
    let ghost mut seen_set: Set<Seq<char>> = Set::empty();

    proof {
        assert(bviews.skip(0) =~= bviews);
        assert(views_of_events(all_events@) =~= Seq::<EventView>::empty());
        assert(pair_id_views(mem_dups@) =~= Seq::<Seq<char>>::empty());
        assert(id_views(store_dups@) =~= Seq::<Seq<char>>::empty());
        assert(id_views(seen@) =~= Seq::<Seq<char>>::empty());
        lemma_add_empty_left(valid_unique(bviews, Set::empty()));
        lemma_add_empty_left(dup_mem_ids(bviews, Set::empty(), cs));
        lemma_add_empty_left(dup_store_ids(bviews, Set::empty(), cs, stviews));
    }

    let mut i: usize = 0;
    while i < n
        invariant
            n == batch.len(),
            0 <= i <= n,
            bviews == views_of_events(batch@),
            cs == room_events@.chunks,
            stviews == id_views(store_event_ids@),
            forall|x: Seq<char>| id_views(seen@).contains(x) == seen_set.contains(x),
            valid_unique(bviews, Set::empty()) == views_of_events(all_events@) + valid_unique(
                bviews.skip(i as int),
                seen_set,
            ),
            dup_mem_ids(bviews, Set::empty(), cs) == pair_id_views(mem_dups@) + dup_mem_ids(
                bviews.skip(i as int),
                seen_set,
                cs,
            ),
            dup_store_ids(bviews, Set::empty(), cs, stviews) == id_views(store_dups@)
                + dup_store_ids(bviews.skip(i as int), seen_set, cs, stviews),
            forall|k: int| 0 <= k < mem_dups@.len() ==> timeline_has_id(
                cs,
                (#[trigger] mem_dups@[k]).0@,
            ),
        decreases n - i,
    {
        proof {
            assert(bviews.len() == n);
            assert(bviews.skip(i as int).len() == n - i);
            assert(bviews.skip(i as int)[0] == bviews[i as int]);
            assert(bviews.skip(i as int).drop_first() =~= bviews.skip(i + 1));
            assert(bviews[i as int] == batch@[i as int]@);
        }
        let e = &batch[i];
        let id = match &e.event_id {
            Some(id) => id,
            None => {
                i = i + 1;
                continue ;
            },
        };
        if ids_contain(&seen, id) {
            proof {
                assert(seen_set.contains(id@));
            }
            i = i + 1;
            continue ;
        }
        proof {
            assert(!seen_set.contains(id@));
        }
        let ghost seen_list0 = seen@;
        let ghost seen_set0 = seen_set;
        let ghost all0 = views_of_events(all_events@);
        let ghost mem0 = pair_id_views(mem_dups@);
        let ghost store0 = id_views(store_dups@);
        seen.push(id.clone());
        all_events.push(duplicate_event(e));
        proof {
            seen_set = seen_set0.insert(id@);
            assert(id_views(seen@) =~= id_views(seen_list0).push(id@));
            lemma_id_views_push_contains(seen_list0, seen@, id@);
            assert(views_of_events(all_events@) =~= all0 + seq![e@]);
            assert(e@.event_id == Some(id@));
            assert(valid_unique(bviews.skip(i as int), seen_set0) == seq![e@] + valid_unique(
                bviews.skip(i + 1),
                seen_set,
            ));
            lemma_add_assoc(all0, seq![e@], valid_unique(bviews.skip(i + 1), seen_set));
        }
        let found = room_events.find_event_position(id);
        let in_store = match &found {
            Some(_) => false,
            None => ids_contain(store_event_ids, id),
        };
        match found {
            Some(pos) => {
                mem_dups.push((id.clone(), pos));
                proof {
                    assert(timeline_has_id(cs, id@));
                    assert(pair_id_views(mem_dups@) =~= mem0 + seq![id@]);
                    assert(dup_mem_ids(bviews.skip(i as int), seen_set0, cs) == seq![id@]
                        + dup_mem_ids(bviews.skip(i + 1), seen_set, cs));
                    lemma_add_assoc(mem0, seq![id@], dup_mem_ids(bviews.skip(i + 1), seen_set, cs));
                }
            },
            None => {
                proof {
                    assert(!timeline_has_id(cs, id@));
                }
                if in_store {
                    store_dups.push(id.clone());
                    proof {
                        assert(stviews.contains(id@));
                        assert(id_views(store_dups@) =~= store0 + seq![id@]);
                        assert(dup_store_ids(bviews.skip(i as int), seen_set0, cs, stviews)
                            == seq![id@] + dup_store_ids(bviews.skip(i + 1), seen_set, cs, stviews));
                        lemma_add_assoc(
                            store0,
                            seq![id@],
                            dup_store_ids(bviews.skip(i + 1), seen_set, cs, stviews),
                        );
                    }
                } else {
                    proof {
                        assert(!stviews.contains(id@));
                    }
                }
            },
        }
        i = i + 1;
    }
    proof {
        assert(bviews.skip(n as int) =~= Seq::<EventView>::empty());
        assert(views_of_events(all_events@) + valid_unique(bviews.skip(n as int), seen_set)
            =~= views_of_events(all_events@));
        assert(pair_id_views(mem_dups@) + dup_mem_ids(bviews.skip(n as int), seen_set, cs)
            =~= pair_id_views(mem_dups@));
        assert(id_views(store_dups@) + dup_store_ids(bviews.skip(n as int), seen_set, cs, stviews)
            =~= id_views(store_dups@));
        lemma_duplicate_counts(bviews, Set::empty(), cs, stviews);
    }
    let total = all_events.len();
    proof {
        assert(pair_id_views(mem_dups@).len() == mem_dups@.len());
        assert(id_views(store_dups@).len() == store_dups@.len());
        assert(views_of_events(all_events@).len() == all_events@.len());
        assert(mem_dups@.len() + store_dups@.len() <= total);
    }
    let dup_count = mem_dups.len() + store_dups.len();
    let all_duplicates = dup_count == total;
    DeduplicationOutcome {
        all_events,
        in_memory_duplicated_event_ids: mem_dups,
        in_store_duplicated_event_ids: store_dups,
        all_duplicates,
    }
}

} // verus!
