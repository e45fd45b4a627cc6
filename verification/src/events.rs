//! The chunked timeline: an ordered sequence of chunks, each a run of
//! events or a gap marker carrying a continuation token. Chunks are
//! addressed by stable identifiers that survive merges.

use vstd::prelude::*;
use vstd::pervasive::VecAdditionalExecFns;

verus! {

/// The position of one event inside the chunk sequence: the identifier of
/// its chunk and its index within that chunk.
#[derive(Debug)]
pub struct Position {
    pub chunk_identifier: u64,
    pub index: usize,
}

/// An immutable timeline event. Identity for deduplication purposes is the
/// identifier alone; an event without one is never used as a dedup key.
#[derive(Debug)]
pub struct TimelineEvent {
    /// The stable identifier, absent when the event carries none.
    pub event_id: Option<String>,
    /// The opaque payload.
    pub payload: String,
}

/// The mathematical value of a [`TimelineEvent`].
pub struct EventView {
    pub event_id: Option<Seq<char>>,
    pub payload: Seq<char>,
}

impl View for TimelineEvent {
    type V = EventView;

    open spec fn view(&self) -> EventView {
        EventView {
            event_id: match self.event_id {
                Some(id) => Some(id@),
                None => None,
            },
            payload: self.payload@,
        }
    }
}

/// A gap marker: unfetched history exists before this point, and the
/// continuation token resumes a backward fetch from it.
#[derive(Debug)]
pub struct Gap {
    /// The opaque continuation token.
    pub prev_token: String,
}

/// The content of a chunk: a run of events, or a single gap.
#[derive(Debug)]
pub enum ChunkContent {
    Items(Vec<TimelineEvent>),
    Gap(Gap),
}

/// A chunk of the timeline, addressed by a stable identifier.
#[derive(Debug)]
pub struct Chunk {
    pub identifier: u64,
    pub content: ChunkContent,
}

/// The mathematical value of a [`Chunk`].
pub struct ChunkView {
    pub identifier: u64,
    pub is_gap: bool,
    /// The events of an items chunk; empty for a gap.
    pub events: Seq<EventView>,
    /// The continuation token of a gap chunk; empty for items.
    pub token: Seq<char>,
}

impl View for Chunk {
    type V = ChunkView;

    open spec fn view(&self) -> ChunkView {
        match self.content {
            ChunkContent::Items(events) => ChunkView {
                identifier: self.identifier,
                is_gap: false,
                events: events@.map_values(|e: TimelineEvent| e@),
                token: Seq::empty(),
            },
            ChunkContent::Gap(gap) => ChunkView {
                identifier: self.identifier,
                is_gap: true,
                events: Seq::empty(),
                token: gap.prev_token@,
            },
        }
    }
}

/// The views of a sequence of events.
pub open spec fn views_of_events(events: Seq<TimelineEvent>) -> Seq<EventView> {
    events.map_values(|e: TimelineEvent| e@)
}

/// Whether some chunk of the sequence is a gap.
pub open spec fn has_gap(chunks: Seq<ChunkView>) -> bool {
    exists|i: int| 0 <= i < chunks.len() && chunks[i].is_gap
}

/// Whether a chunk holds an event with the given identifier.
pub open spec fn chunk_has_id(chunk: ChunkView, id: Seq<char>) -> bool {
    exists|j: int| 0 <= j < chunk.events.len() && chunk.events[j].event_id == Some(id)
}

/// Whether any chunk of the sequence holds an event with the given
/// identifier.
pub open spec fn timeline_has_id(chunks: Seq<ChunkView>, id: Seq<char>) -> bool {
    exists|i: int| 0 <= i < chunks.len() && chunk_has_id(chunks[i], id)
}

/// Whether the sequence holds at least one event.
pub open spec fn some_event(chunks: Seq<ChunkView>) -> bool {
    exists|i: int| 0 <= i < chunks.len() && chunks[i].events.len() > 0
}

/// All events of the sequence, oldest first, gaps contributing nothing.
pub open spec fn flat_events(chunks: Seq<ChunkView>) -> Seq<EventView>
    decreases chunks.len(),
{
    if chunks.len() == 0 {
        Seq::empty()
    } else {
        chunks[0].events + flat_events(chunks.drop_first())
    }
}

/// The ordered, doubly-ended chunk sequence of one room, oldest chunk
/// first. `head_is_definitive` records whether the oldest chunk is known
/// to have no predecessor anywhere, i.e. whether the absolute start of
/// history is in memory.
pub struct RoomEvents {
    pub chunks: Vec<Chunk>,
    /// The identifier handed to the next chunk created.
    pub next_chunk_id: u64,
    /// Whether the head chunk is the definitive head of history.
    pub head_is_definitive: bool,
}

/// The mathematical value of a [`RoomEvents`].
pub struct RoomEventsView {
    pub chunks: Seq<ChunkView>,
    pub next_chunk_id: u64,
    pub head_is_definitive: bool,
}

impl View for RoomEvents {
    type V = RoomEventsView;

    open spec fn view(&self) -> RoomEventsView {
        RoomEventsView {
            chunks: self.chunks@.map_values(|c: Chunk| c@),
            next_chunk_id: self.next_chunk_id,
            head_is_definitive: self.head_is_definitive,
        }
    }
}

impl RoomEvents {
    /// A fresh, empty timeline: nothing synced yet, so the (absent) head
    /// is trivially definitive.
    pub fn new() -> (r: RoomEvents)
        ensures
            r@.chunks.len() == 0,
            r@.next_chunk_id == 0,
            r@.head_is_definitive,
    {
        RoomEvents { chunks: Vec::new(), next_chunk_id: 0, head_is_definitive: true }
    }

    /// Append a run of events at the live end as a fresh chunk; appending
    /// nothing leaves the timeline unchanged.
    pub fn push_events(&mut self, events: Vec<TimelineEvent>)
        requires
            old(self).next_chunk_id < u64::MAX,
        ensures
            events@.len() == 0 ==> *final(self) == *old(self),
            events@.len() > 0 ==> final(self)@.chunks == old(self)@.chunks.push(
                ChunkView {
                    identifier: old(self)@.next_chunk_id,
                    is_gap: false,
                    events: views_of_events(events@),
                    token: Seq::empty(),
                },
            ),
            events@.len() > 0 ==> final(self)@.next_chunk_id == old(self)@.next_chunk_id + 1,
            final(self)@.head_is_definitive == old(self)@.head_is_definitive,
    {
        if events.len() == 0 {
            return ;
        }
        let id = self.next_chunk_id;
        self.next_chunk_id = id + 1;
        self.chunks.push(Chunk { identifier: id, content: ChunkContent::Items(events) });
        proof {
            assert(final(self)@.chunks =~= old(self)@.chunks.push(
                ChunkView {
                    identifier: old(self)@.next_chunk_id,
                    is_gap: false,
                    events: views_of_events(events@),
                    token: Seq::empty(),
                },
            ));
        }
    }

    /// Append a gap marker at the live end.
    pub fn push_gap(&mut self, gap: Gap)
        requires
            old(self).next_chunk_id < u64::MAX,
        ensures
            final(self)@.chunks == old(self)@.chunks.push(
                ChunkView {
                    identifier: old(self)@.next_chunk_id,
                    is_gap: true,
                    events: Seq::empty(),
                    token: gap.prev_token@,
                },
            ),
            final(self)@.next_chunk_id == old(self)@.next_chunk_id + 1,
            final(self)@.head_is_definitive == old(self)@.head_is_definitive,
    {
        let id = self.next_chunk_id;
        self.next_chunk_id = id + 1;
        self.chunks.push(Chunk { identifier: id, content: ChunkContent::Gap(gap) });
        proof {
            assert(final(self)@.chunks =~= old(self)@.chunks.push(
                ChunkView {
                    identifier: old(self)@.next_chunk_id,
                    is_gap: true,
                    events: Seq::empty(),
                    token: gap.prev_token@,
                },
            ));
        }
    }

    /// Whether any gap chunk remains anywhere in the sequence.
    pub fn has_gap_chunk(&self) -> (r: bool)
        ensures
            r == has_gap(self@.chunks),
    {
        let n = self.chunks.len();
        let mut i: usize = 0;
        while i < n
            invariant
                n == self.chunks.len(),
                0 <= i <= n,
                forall|k: int| 0 <= k < i ==> !self@.chunks[k].is_gap,
            decreases n - i,
        {
            if matches!(self.chunks[i].content, ChunkContent::Gap(_)) {
                assert(self@.chunks[i as int].is_gap);
                return true;
            }
            i = i + 1;
        }
        false
    }

    /// Whether the sequence holds at least one event.
    pub fn has_events(&self) -> (r: bool)
        ensures
            r == some_event(self@.chunks),
    {
        let n = self.chunks.len();
        let mut i: usize = 0;
        while i < n
            invariant
                n == self.chunks.len(),
                0 <= i <= n,
                forall|k: int| 0 <= k < i ==> self@.chunks[k].events.len() == 0,
            decreases n - i,
        {
            match &self.chunks[i].content {
                ChunkContent::Items(events) => {
                    if events.len() > 0 {
                        assert(self@.chunks[i as int].events.len() > 0);
                        return true;
                    }
                },
                ChunkContent::Gap(_) => {},
            }
            i = i + 1;
        }
        false
    }

    /// The index of the first chunk that holds an event, if any does.
    pub fn first_event_chunk_index(&self) -> (r: Option<usize>)
        ensures
            match r {
                Some(i) => i < self@.chunks.len() && self@.chunks[i as int].events.len() > 0
                    && forall|k: int| 0 <= k < i ==> self@.chunks[k].events.len() == 0,
                None => !some_event(self@.chunks),
            },
    {
        let n = self.chunks.len();
        let mut i: usize = 0;
        while i < n
            invariant
                n == self.chunks.len(),
                0 <= i <= n,
                forall|k: int| 0 <= k < i ==> self@.chunks[k].events.len() == 0,
            decreases n - i,
        {
            match &self.chunks[i].content {
                ChunkContent::Items(events) => {
                    if events.len() > 0 {
                        assert(self@.chunks[i as int].events.len() > 0);
                        return Some(i);
                    }
                },
                ChunkContent::Gap(_) => {},
            }
            i = i + 1;
        }
        None
    }

    /// The index of the gap chunk with the given identifier, scanning from
    /// the oldest end; `None` when no gap chunk carries it.
    pub fn find_gap_index(&self, id: u64) -> (r: Option<usize>)
        ensures
            match r {
                Some(i) => i < self@.chunks.len() && self@.chunks[i as int].is_gap
                    && self@.chunks[i as int].identifier == id && forall|k: int|
                    0 <= k < i ==> !(self@.chunks[k].is_gap && self@.chunks[k].identifier == id),
                None => forall|k: int|
                    0 <= k < self@.chunks.len() ==> !(self@.chunks[k].is_gap
                        && self@.chunks[k].identifier == id),
            },
    {
        let n = self.chunks.len();
        let mut i: usize = 0;
        while i < n
            invariant
                n == self.chunks.len(),
                0 <= i <= n,
                forall|k: int| 0 <= k < i ==> !(self@.chunks[k].is_gap
                    && self@.chunks[k].identifier == id),
            decreases n - i,
        {
            if self.chunks[i].identifier == id {
                if matches!(self.chunks[i].content, ChunkContent::Gap(_)) {
                    assert(self@.chunks[i as int].is_gap);
                    return Some(i);
                }
            }
            i = i + 1;
        }
        None
    }

    /// The gap chunk nearest the live end: its identifier and a copy of
    /// its continuation token. `None` exactly when no gap chunk exists.
    pub fn latest_gap(&self) -> (r: Option<(u64, String)>)
        ensures
            match r {
                Some(found) => exists|i: int|
                    0 <= i < self@.chunks.len() && self@.chunks[i].is_gap
                        && self@.chunks[i].identifier == found.0
                        && self@.chunks[i].token == found.1@
                        && forall|j: int| i < j < self@.chunks.len() ==> !self@.chunks[j].is_gap,
                None => !has_gap(self@.chunks),
            },
    {
        let n = self.chunks.len();
        let mut i: usize = n;
        while i > 0
            invariant
                n == self.chunks.len(),
                0 <= i <= n,
                forall|j: int| i <= j < n ==> !self@.chunks[j].is_gap,
            decreases i,
        {
            i = i - 1;
            match &self.chunks[i].content {
                ChunkContent::Gap(gap) => {
                    let token = gap.prev_token.clone();
                    let id = self.chunks[i].identifier;
                    assert(self@.chunks[i as int].is_gap);
                    assert(self@.chunks[i as int].token == token@);
                    return Some((id, token));
                },
                ChunkContent::Items(_) => {},
            }
        }
        None
    }

    /// Look an event identifier up: the position of a matching event, or
    /// `None` exactly when no chunk holds one.
    pub fn find_event_position(&self, id: &String) -> (r: Option<Position>)
        ensures
            r is Some == timeline_has_id(self@.chunks, id@),
            match r {
                Some(p) => exists|i: int|
                    0 <= i < self@.chunks.len() && self@.chunks[i].identifier == p.chunk_identifier
                        && p.index < self@.chunks[i].events.len()
                        && self@.chunks[i].events[p.index as int].event_id == Some(id@),
                None => true,
            },
    {
        let n = self.chunks.len();
        let mut i: usize = 0;
        while i < n
            invariant
                n == self.chunks.len(),
                0 <= i <= n,
                forall|k: int| 0 <= k < i ==> !chunk_has_id(self@.chunks[k], id@),
            decreases n - i,
        {
            match &self.chunks[i].content {
                ChunkContent::Items(events) => {
                    let m = events.len();
                    let mut j: usize = 0;
                    while j < m
                        invariant
                            n == self.chunks.len(),
                            i < n,
                            self@.chunks[i as int].events == events@.map_values(
                                |e: TimelineEvent| e@,
                            ),
                            m == events.len(),
                            0 <= j <= m,
                            forall|k: int| 0 <= k < j ==> self@.chunks[i as int].events[k].event_id
                                != Some(id@),
                        decreases m - j,
                    {
                        proof {
                            assert(self@.chunks[i as int].events[j as int] == events@.map_values(
                                |e: TimelineEvent| e@,
                            )[j as int]);
                        }
                        let matched = match &events[j].event_id {
                            Some(eid) => id.eq(eid),
                            None => false,
                        };
                        if matched {
                            assert(self@.chunks[i as int].events[j as int].event_id == Some(id@));
                            assert(chunk_has_id(self@.chunks[i as int], id@));
                            return Some(
                                Position { chunk_identifier: self.chunks[i].identifier, index: j },
                            );
                        }
                        j = j + 1;
                    }
                    assert(!chunk_has_id(self@.chunks[i as int], id@));
                },
                ChunkContent::Gap(_) => {
                    assert(!chunk_has_id(self@.chunks[i as int], id@));
                },
            }
            i = i + 1;
        }
        assert(!timeline_has_id(self@.chunks, id@));
        None
    }

    /// Insert a fresh items chunk before position `at`.
    pub fn insert_items_chunk(&mut self, events: Vec<TimelineEvent>, at: usize)
        requires
            at <= old(self)@.chunks.len(),
            old(self).next_chunk_id < u64::MAX,
        ensures
            final(self)@.chunks == old(self)@.chunks.insert(
                at as int,
                ChunkView {
                    identifier: old(self)@.next_chunk_id,
                    is_gap: false,
                    events: views_of_events(events@),
                    token: Seq::empty(),
                },
            ),
            final(self)@.next_chunk_id == old(self)@.next_chunk_id + 1,
            final(self)@.head_is_definitive == old(self)@.head_is_definitive,
    {
        let id = self.next_chunk_id;
        self.next_chunk_id = id + 1;
        self.chunks.insert(at, Chunk { identifier: id, content: ChunkContent::Items(events) });
        proof {
            assert(final(self)@.chunks =~= old(self)@.chunks.insert(
                at as int,
                ChunkView {
                    identifier: old(self)@.next_chunk_id,
                    is_gap: false,
                    events: views_of_events(events@),
                    token: Seq::empty(),
                },
            ));
        }
    }

    /// Insert a fresh gap chunk before position `at`.
    pub fn insert_gap_chunk(&mut self, gap: Gap, at: usize)
        requires
            at <= old(self)@.chunks.len(),
            old(self).next_chunk_id < u64::MAX,
        ensures
            final(self)@.chunks == old(self)@.chunks.insert(
                at as int,
                ChunkView {
                    identifier: old(self)@.next_chunk_id,
                    is_gap: true,
                    events: Seq::empty(),
                    token: gap.prev_token@,
                },
            ),
            final(self)@.next_chunk_id == old(self)@.next_chunk_id + 1,
            final(self)@.head_is_definitive == old(self)@.head_is_definitive,
    {
        let id = self.next_chunk_id;
        self.next_chunk_id = id + 1;
        self.chunks.insert(at, Chunk { identifier: id, content: ChunkContent::Gap(gap) });
        proof {
            assert(final(self)@.chunks =~= old(self)@.chunks.insert(
                at as int,
                ChunkView {
                    identifier: old(self)@.next_chunk_id,
                    is_gap: true,
                    events: Seq::empty(),
                    token: gap.prev_token@,
                },
            ));
        }
    }

    /// Replace the chunk at position `at` by a fresh items chunk.
    pub fn replace_chunk_with_items(&mut self, events: Vec<TimelineEvent>, at: usize)
        requires
            at < old(self)@.chunks.len(),
            old(self).next_chunk_id < u64::MAX,
        ensures
            final(self)@.chunks == old(self)@.chunks.update(
                at as int,
                ChunkView {
                    identifier: old(self)@.next_chunk_id,
                    is_gap: false,
                    events: views_of_events(events@),
                    token: Seq::empty(),
                },
            ),
            final(self)@.next_chunk_id == old(self)@.next_chunk_id + 1,
            final(self)@.head_is_definitive == old(self)@.head_is_definitive,
    {
        let id = self.next_chunk_id;
        self.next_chunk_id = id + 1;
        self.chunks.set(at, Chunk { identifier: id, content: ChunkContent::Items(events) });
        proof {
            assert(final(self)@.chunks =~= old(self)@.chunks.update(
                at as int,
                ChunkView {
                    identifier: old(self)@.next_chunk_id,
                    is_gap: false,
                    events: views_of_events(events@),
                    token: Seq::empty(),
                },
            ));
        }
    }

    /// Remove the chunk at position `at`.
    pub fn remove_chunk_at(&mut self, at: usize)
        requires
            at < old(self)@.chunks.len(),
        ensures
            final(self)@.chunks == old(self)@.chunks.remove(at as int),
            final(self)@.next_chunk_id == old(self)@.next_chunk_id,
            final(self)@.head_is_definitive == old(self)@.head_is_definitive,
    {
        let _ = self.chunks.remove(at);
        proof {
            assert(final(self)@.chunks =~= old(self)@.chunks.remove(at as int));
        }
    }
}

/// A deep copy of one event; the copy equals the original.
pub fn duplicate_event(e: &TimelineEvent) -> (r: TimelineEvent)
    ensures
        r == *e,
{
    let event_id = match &e.event_id {
        Some(id) => Some(id.clone()),
        None => None,
    };
    TimelineEvent { event_id, payload: e.payload.clone() }
}

/// A deep copy of a run of events, in reverse order.
pub fn reversed_clone(events: &Vec<TimelineEvent>) -> (r: Vec<TimelineEvent>)
    ensures
        r@ == events@.reverse(),
{
    let n = events.len();
    let mut r: Vec<TimelineEvent> = Vec::new();
    let mut i: usize = n;
    while i > 0
        invariant
            n == events.len(),
            0 <= i <= n,
            r@.len() == n - i,
            forall|k: int| 0 <= k < r@.len() ==> r@[k] == events@[n - 1 - k],
        decreases i,
    {
        i = i - 1;
        r.push(duplicate_event(&events[i]));
    }
    proof {
        assert(r@ =~= events@.reverse());
    }
    r
}

} // verus!
