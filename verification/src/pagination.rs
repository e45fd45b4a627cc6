//! The pagination engine of one room: the single-flight status gate, the
//! storage-first resolution of a "load more history" request, the merge
//! of a network response into the chunk sequence, and the token lookup.
//!
//! A pagination round is driven as a small state machine. A driver calls
//! [`RoomPagination::begin_round`]; when the round needs outside work —
//! a bounded wait for a first token, or a network history fetch — the
//! round step says so, the driver performs it, and hands the result back
//! through [`RoomPagination::note_waited_and_resolve`] or
//! [`RoomPagination::complete_fetch`]. A driver that fails or abandons a
//! round calls [`RoomPagination::abort_round`], which restores the status
//! that was captured when the round began.

use vstd::prelude::*;
use crate::events::{
    duplicate_event, flat_events, has_gap, reversed_clone, some_event, views_of_events, ChunkView,
    EventView, Gap, RoomEvents, TimelineEvent,
};
use crate::deduplicator::{
    collect_valid_and_duplicated_events, distinct_ids, event_known, id_views, ids_contain,
    lemma_add_assoc, lemma_add_empty_left, lemma_retained_distinct, lemma_valid_unique_distinct,
    retained, valid_unique,
};
use crate::observable::{
    observable_new, observable_set, observable_subscribe, StatusObservable, StatusSubscriber,
};

verus! {

/// Status for the back-pagination on a room event cache.
#[derive(Clone, Copy, Debug, PartialEq, Eq, Structural)]
pub enum RoomPaginationStatus {
    /// No back-pagination is happening right now.
    Idle {
        /// Have we hit the start of the timeline, i.e. back-paginating
        /// wouldn't have any effect?
        hit_timeline_start: bool,
    },
    /// Back-pagination is already running in the background.
    Paginating,
}

/// Pagination token data, indicating in which state is the current
/// pagination.
#[derive(Clone, Debug, PartialEq)]
pub enum PaginationToken {
    /// We never had a pagination token, so we'll start back-paginating
    /// from the end, or forward-paginating from the start.
    NoneYet,
    /// We paginated once before, and we received a prev/next batch token
    /// that we may reuse for the next query.
    HasMore(String),
    /// We've hit one end of the timeline (either the start or the actual
    /// end), so there's no need to continue paginating.
    HitEnd,
}

impl From<Option<String>> for PaginationToken {
    fn from(token: Option<String>) -> (r: Self) {
        match token {
            Some(val) => PaginationToken::HasMore(val),
            None => PaginationToken::NoneYet,
        }
    }
}

impl vstd::std_specs::convert::FromSpecImpl<Option<String>> for PaginationToken {
    open spec fn obeys_from_spec() -> bool {
        true
    }

    open spec fn from_spec(token: Option<String>) -> Self {
        match token {
            Some(val) => PaginationToken::HasMore(val),
            None => PaginationToken::NoneYet,
        }
    }
}

/// An error of the pagination engine.
#[derive(Clone, Debug, PartialEq)]
pub enum EventCacheError {
    /// A pagination round was attempted while another one was in flight
    /// for the same room.
    AlreadyBackpaginating,
    /// The network history fetch failed; the driver's description of the
    /// failure is carried verbatim.
    BackpaginationError(String),
}

/// The result of a back-pagination: the fetched events, newest first, and
/// whether the start of the timeline was reached.
#[derive(Debug)]
pub struct BackPaginationOutcome {
    /// Whether the start of the timeline has been reached.
    pub reached_start: bool,
    /// The events received, in reverse topological order (the first is
    /// the most recent).
    pub events: Vec<TimelineEvent>,
}

/// What a pagination round asks of its driver next.
#[derive(Debug)]
pub enum RoundStep {
    /// No token has ever been observed and none was waited for yet: wait
    /// (bounded) for the sync stream to produce one, then resolve again.
    WaitForToken,
    /// Fetch history backward from the network, resuming from the given
    /// continuation token; with no token, fetch from the live end. The
    /// gap chunk the token came from, if any, anchors the later merge.
    FetchFromNetwork { prev_token: Option<String>, prev_gap_id: Option<u64> },
    /// The round is over; the status has been settled.
    Finished(BackPaginationOutcome),
}

/// The guarded pagination state of one room: the chunk sequence and the
/// flag recording that a wait for an initial token has completed once.
pub struct RoomEventCacheState {
    pub events: RoomEvents,
    pub waited_for_initial_prev_token: bool,
}

/// The pagination engine of one room. The `status` field is the
/// authoritative status; every change is mirrored into the broadcast
/// slot that [`RoomPagination::status`] hands out subscriptions to.
/// `prev_status` is the captured status of an in-flight round: while it
/// is set, the round's guard is armed, and ending the round without an
/// outcome restores it.
pub struct RoomPagination {
    pub state: RoomEventCacheState,
    pub status: RoomPaginationStatus,
    pub prev_status: Option<RoomPaginationStatus>,
    pub status_observable: StatusObservable,
}

/// What the guard restores on exit: the captured status if the guard is
/// still armed, the current one otherwise.
pub open spec fn guard_restore(
    current: RoomPaginationStatus,
    captured: Option<RoomPaginationStatus>,
) -> RoomPaginationStatus {
    match captured {
        Some(prev) => prev,
        None => current,
    }
}

/// Storage-first resolution finds a gap to fill from the network.
pub open spec fn storage_gap(chunks: Seq<ChunkView>) -> bool {
    has_gap(chunks)
}

/// Storage-first resolution finds events and no gap: the start of the
/// timeline is locally known.
pub open spec fn storage_start(chunks: Seq<ChunkView>) -> bool {
    !has_gap(chunks) && some_event(chunks)
}

/// Storage-first resolution finds nothing at all and no wait has
/// completed yet: wait for the sync stream.
pub open spec fn storage_wait(chunks: Seq<ChunkView>, waited: bool) -> bool {
    !has_gap(chunks) && !some_event(chunks) && !waited
}

/// Storage-first resolution finds nothing, but a wait has already
/// completed once: fetch from the live end without a token.
pub open spec fn storage_fetch_from_end(chunks: Seq<ChunkView>, waited: bool) -> bool {
    !has_gap(chunks) && !some_event(chunks) && waited
}

/// The gap chunk with this identifier and token is the one nearest the
/// live end.
pub open spec fn latest_gap_is(chunks: Seq<ChunkView>, id: u64, token: Seq<char>) -> bool {
    exists|i: int|
        #![trigger chunks[i]]
        0 <= i < chunks.len() && chunks[i].is_gap && chunks[i].identifier == id
            && chunks[i].token == token && (forall|j: int|
            i < j < chunks.len() ==> !chunks[j].is_gap)
}

/// The gap chunk at index `i` carries the given identifier.
pub open spec fn gap_at(chunks: Seq<ChunkView>, i: int, id: u64) -> bool {
    0 <= i < chunks.len() && chunks[i].is_gap && chunks[i].identifier == id
}

/// The gap chunk at index `i` is the oldest one carrying the identifier.
pub open spec fn first_gap_at(chunks: Seq<ChunkView>, i: int, id: u64) -> bool {
    gap_at(chunks, i, id) && forall|k: int| 0 <= k < i ==> !gap_at(chunks, k, id)
}

/// The chunk at index `f` is the oldest one holding an event.
pub open spec fn first_event_chunk_at(chunks: Seq<ChunkView>, f: int) -> bool {
    0 <= f < chunks.len() && chunks[f].events.len() > 0 && forall|k: int|
        0 <= k < f ==> chunks[k].events.len() == 0
}

/// The authoritative recomputation of "reached the start of the
/// timeline": no gap chunk remains anywhere, and the head chunk is the
/// definitive head. With no chunks at all, the network's provisional
/// signal is all there is.
pub open spec fn computed_reached_start(
    chunks: Seq<ChunkView>,
    head_is_definitive: bool,
    network_reached_start: bool,
) -> bool {
    !has_gap(chunks) && if chunks.len() == 0 {
        network_reached_start
    } else {
        head_is_definitive
    }
}

/// The events a merge keeps of a fetched batch: the valid ones,
/// deduplicated within the batch, that duplicate nothing already in the
/// timeline or the store. The already-known copy always wins.
pub open spec fn merge_kept(
    batch: Seq<EventView>,
    chunks: Seq<ChunkView>,
    store: Seq<Seq<char>>,
) -> Seq<EventView> {
    retained(valid_unique(batch, Set::empty()), chunks, store)
}

/// The items chunk a merge splices in: the kept events, oldest first.
pub open spec fn items_chunk_of(id: u64, kept: Seq<EventView>) -> ChunkView {
    ChunkView { identifier: id, is_gap: false, events: kept.reverse(), token: Seq::empty() }
}

/// The gap chunk a merge inserts for a returned continuation token.
pub open spec fn gap_chunk_of(id: u64, token: Seq<char>) -> ChunkView {
    ChunkView { identifier: id, is_gap: true, events: Seq::empty(), token }
}

/// How a merge rewrites the chunk sequence: `pre` and `nid` are the
/// sequence and the next chunk identifier before the merge, `post` and
/// `post_nid` after it; `kept` is what the merge keeps of the batch, and
/// `new_gap_token` the continuation token the network returned, if any.
///
/// With everything a duplicate, the anchoring gap is removed (or nothing
/// changes without an anchor) and no new gap is stored. Otherwise the
/// kept events, oldest first, replace the anchoring gap in place, or are
/// spliced in just before the oldest known event, or appended; a
/// returned token becomes a fresh gap chunk immediately before them.
pub open spec fn merge_post(
    pre: Seq<ChunkView>,
    nid: u64,
    post: Seq<ChunkView>,
    post_nid: u64,
    kept: Seq<EventView>,
    new_gap_token: Option<Seq<char>>,
    prev_gap_id: Option<u64>,
) -> bool {
    let alldup = kept.len() == 0;
    match prev_gap_id {
        Some(id) => {
            if alldup {
                forall|i: int|
                    first_gap_at(pre, i, id) ==> post == pre.remove(i) && post_nid == nid
            } else {
                match new_gap_token {
                    Some(t) => forall|i: int|
                        first_gap_at(pre, i, id) ==> post == pre.update(
                            i,
                            items_chunk_of(nid, kept),
                        ).insert(i, gap_chunk_of((nid + 1) as u64, t)) && post_nid == nid + 2,
                    None => forall|i: int|
                        first_gap_at(pre, i, id) ==> post == pre.update(
                            i,
                            items_chunk_of(nid, kept),
                        ) && post_nid == nid + 1,
                }
            }
        },
        None => {
            if alldup {
                post == pre && post_nid == nid
            } else if some_event(pre) {
                match new_gap_token {
                    Some(t) => forall|f: int|
                        first_event_chunk_at(pre, f) ==> post == pre.insert(
                            f,
                            items_chunk_of(nid, kept),
                        ).insert(f, gap_chunk_of((nid + 1) as u64, t)) && post_nid == nid + 2,
                    None => forall|f: int|
                        first_event_chunk_at(pre, f) ==> post == pre.insert(
                            f,
                            items_chunk_of(nid, kept),
                        ) && post_nid == nid + 1,
                }
            } else {
                match new_gap_token {
                    Some(t) => post == pre.push(items_chunk_of(nid, kept)).insert(
                        pre.len() as int,
                        gap_chunk_of((nid + 1) as u64, t),
                    ) && post_nid == nid + 2,
                    None => post == pre.push(items_chunk_of(nid, kept)) && post_nid == nid + 1,
                }
            }
        },
    }
}

/// The token a merge was handed, as a mathematical value.
pub open spec fn gap_token_view(new_gap: Option<Gap>) -> Option<Seq<char>> {
    match new_gap {
        Some(g) => Some(g.prev_token@),
        None => None,
    }
}

/// What a merge keeps of a batch carries pairwise distinct identifiers
/// — so does its reversal, the contents of the items chunk the merge
/// creates: no such chunk ever holds two events with the same
/// identifier.
pub proof fn lemma_merge_kept_distinct(
    batch: Seq<EventView>,
    chunks: Seq<ChunkView>,
    store: Seq<Seq<char>>,
)
    ensures
        distinct_ids(merge_kept(batch, chunks, store)),
        distinct_ids(merge_kept(batch, chunks, store).reverse()),
{
    lemma_valid_unique_distinct(batch, Set::empty());
    lemma_retained_distinct(valid_unique(batch, Set::empty()), chunks, store);
    let kept = merge_kept(batch, chunks, store);
    let rev = kept.reverse();
    assert forall|i: int, j: int|
        0 <= i < rev.len() && 0 <= j < rev.len() && i != j && (#[trigger] rev[i]).event_id
            is Some implies rev[i].event_id != (#[trigger] rev[j]).event_id by {
        assert(rev[i] == kept[kept.len() - 1 - i]);
        assert(rev[j] == kept[kept.len() - 1 - j]);
    }
}

/// Ending a round without an outcome is status-neutral.
pub proof fn lemma_guard_restores_prior_status(prev: RoomPaginationStatus)
    ensures
        guard_restore(RoomPaginationStatus::Paginating, Some(prev)) == prev,
{
}

impl RoomPagination {
    /// A fresh pagination engine over an empty timeline, idle and with
    /// the start of the timeline not reached.
    pub fn new() -> (r: RoomPagination)
        ensures
            r.state.events@.chunks.len() == 0,
            r.state.events@.next_chunk_id == 0,
            r.state.events@.head_is_definitive,
            !r.state.waited_for_initial_prev_token,
            r.status == (RoomPaginationStatus::Idle { hit_timeline_start: false }),
            r.prev_status is None,
    {
        let status = RoomPaginationStatus::Idle { hit_timeline_start: false };
        RoomPagination {
            state: RoomEventCacheState {
                events: RoomEvents::new(),
                waited_for_initial_prev_token: false,
            },
            status,
            prev_status: None,
            status_observable: observable_new(status),
        }
    }

    /// A subscription to the pagination status: it sees the current
    /// status and every later change.
    pub fn status(&self) -> StatusSubscriber {
        observable_subscribe(&self.status_observable)
    }

    /// Resolve a "load more history" request from local state alone.
    fn resolve_storage(&self) -> (r: RoundStep)
        ensures
            storage_gap(self.state.events@.chunks) ==> (r matches RoundStep::FetchFromNetwork {
                prev_token: Some(t),
                prev_gap_id: Some(g),
            } && latest_gap_is(self.state.events@.chunks, g, t@)),
            storage_start(self.state.events@.chunks) ==> (r matches RoundStep::Finished(o)
                && o.reached_start && o.events@.len() == 0),
            storage_wait(
                self.state.events@.chunks,
                self.state.waited_for_initial_prev_token,
            ) ==> r is WaitForToken,
            storage_fetch_from_end(
                self.state.events@.chunks,
                self.state.waited_for_initial_prev_token,
            ) ==> (r matches RoundStep::FetchFromNetwork {
                prev_token: Option::None,
                prev_gap_id: Option::None,
            }),
    {
        match self.state.events.latest_gap() {
            Some(found) => RoundStep::FetchFromNetwork {
                prev_token: Some(found.1),
                prev_gap_id: Some(found.0),
            },
            None => {
                if self.state.events.has_events() {
                    RoundStep::Finished(
                        BackPaginationOutcome { reached_start: true, events: Vec::new() },
                    )
                } else if !self.state.waited_for_initial_prev_token {
                    RoundStep::WaitForToken
                } else {
                    RoundStep::FetchFromNetwork {
                        prev_token: None,
                        prev_gap_id: None,
                    }
                }
            },
        }
    }

    /// Settle the status for a round that produced an outcome: disarm the
    /// guard and publish idleness.
    fn settle_finished(&mut self, hit_timeline_start: bool)
        ensures
            final(self).state == old(self).state,
            final(self).status == (RoomPaginationStatus::Idle { hit_timeline_start }),
            final(self).prev_status is None,
    {
        self.prev_status = None;
        self.status = RoomPaginationStatus::Idle { hit_timeline_start };
        observable_set(&self.status_observable, self.status);
    }

    /// Start a pagination round: atomically gate on the status, then
    /// resolve the request from local state.
    ///
    /// Starting a round while one is in flight for the same room fails
    /// with the concurrency error and changes nothing: at most one round
    /// is ever in progress.
    pub fn begin_round(&mut self) -> (r: Result<RoundStep, EventCacheError>)
        ensures
            old(self).status is Paginating ==> (r matches Err(
                EventCacheError::AlreadyBackpaginating,
            )) && *final(self) == *old(self),
            old(self).status is Idle ==> r is Ok && final(self).state == old(self).state,
            old(self).status is Idle && storage_gap(old(self).state.events@.chunks) ==> (
            r matches Ok(RoundStep::FetchFromNetwork { prev_token: Some(t), prev_gap_id: Some(g) })
                && latest_gap_is(old(self).state.events@.chunks, g, t@)) && final(self).status
                is Paginating && final(self).prev_status == Some(old(self).status),
            old(self).status is Idle && storage_start(old(self).state.events@.chunks) ==> (
            r matches Ok(RoundStep::Finished(o)) && o.reached_start && o.events@.len() == 0)
                && final(self).status == (RoomPaginationStatus::Idle { hit_timeline_start: true })
                && final(self).prev_status is None,
            old(self).status is Idle && storage_wait(
                old(self).state.events@.chunks,
                old(self).state.waited_for_initial_prev_token,
            ) ==> (r matches Ok(RoundStep::WaitForToken)) && final(self).status is Paginating
                && final(self).prev_status == Some(old(self).status),
            old(self).status is Idle && storage_fetch_from_end(
                old(self).state.events@.chunks,
                old(self).state.waited_for_initial_prev_token,
            ) ==> (r matches Ok(RoundStep::FetchFromNetwork {
                prev_token: Option::None,
                prev_gap_id: Option::None,
            })) && final(self).status is Paginating && final(self).prev_status == Some(
                old(self).status,
            ),
    {
        match self.status {
            RoomPaginationStatus::Paginating => {
                return Err(EventCacheError::AlreadyBackpaginating);
            },
            RoomPaginationStatus::Idle { .. } => {},
        }
        let prev = self.status;
        self.status = RoomPaginationStatus::Paginating;
        observable_set(&self.status_observable, self.status);
        self.prev_status = Some(prev);
        let step = self.resolve_storage();
        let finished_reached: Option<bool> = match &step {
            RoundStep::Finished(o) => Some(o.reached_start),
            _ => None,
        };
        match finished_reached {
            Some(hit) => {
                self.settle_finished(hit);
            },
            None => {},
        }
        Ok(step)
    }

    /// Record that the bounded wait for an initial token has completed,
    /// and resolve again. The round cannot ask to wait a second time.
    pub fn note_waited_and_resolve(&mut self) -> (r: RoundStep)
        requires
            old(self).prev_status is Some,
        ensures
            !(r is WaitForToken),
            final(self).state.waited_for_initial_prev_token,
            final(self).state.events == old(self).state.events,
            storage_gap(old(self).state.events@.chunks) ==> (
            r matches RoundStep::FetchFromNetwork { prev_token: Some(t), prev_gap_id: Some(g) }
                && latest_gap_is(old(self).state.events@.chunks, g, t@)) && final(self).status
                == old(self).status && final(self).prev_status == old(self).prev_status,
            storage_start(old(self).state.events@.chunks) ==> (r matches RoundStep::Finished(o)
                && o.reached_start && o.events@.len() == 0) && final(self).status == (
            RoomPaginationStatus::Idle { hit_timeline_start: true }) && final(self).prev_status
                is None,
            !storage_gap(old(self).state.events@.chunks) && !storage_start(
                old(self).state.events@.chunks,
            ) ==> (r matches RoundStep::FetchFromNetwork {
                prev_token: Option::None,
                prev_gap_id: Option::None,
            }) && final(self).status == old(self).status && final(self).prev_status == old(self).prev_status,
    {
        self.state.waited_for_initial_prev_token = true;
        let step = self.resolve_storage();
        let finished_reached: Option<bool> = match &step {
            RoundStep::Finished(o) => Some(o.reached_start),
            _ => None,
        };
        match finished_reached {
            Some(hit) => {
                self.settle_finished(hit);
            },
            None => {},
        }
        step
    }

    /// End a round that failed or was abandoned: restore the captured
    /// status, so the room never stays stuck in `Paginating`.
    pub fn abort_round(&mut self)
        ensures
            final(self).status == guard_restore(old(self).status, old(self).prev_status),
            final(self).prev_status is None,
            final(self).state == old(self).state,
    {
        match self.prev_status {
            Some(prev) => {
                self.status = prev;
                observable_set(&self.status_observable, prev);
                self.prev_status = None;
            },
            None => {},
        }
    }
}


impl RoomEventCacheState {
    /// Merge the result of a successful network back-pagination into the
    /// chunk sequence.
    ///
    /// The batch is deduplicated against memory and store; when a fetched
    /// event duplicates one already known, the already-known copy is kept
    /// and the fetched copy discarded. The kept events replace the
    /// anchoring gap chunk in place, or are spliced in before the oldest
    /// known event, or appended to an eventless sequence. A returned
    /// continuation token becomes a fresh gap chunk just before the new
    /// events — unless the whole batch was duplicates, in which case the
    /// anchoring gap is simply removed and no new gap is stored.
    /// `reached_start` is recomputed from the post-merge sequence,
    /// overriding the network's provisional signal.
    pub fn handle_network_pagination_result(
        &mut self,
        batch: Vec<TimelineEvent>,
        new_gap: Option<Gap>,
        prev_gap_id: Option<u64>,
        store_event_ids: &Vec<String>,
    ) -> (outcome: BackPaginationOutcome)
        requires
            (match prev_gap_id {
                Some(id) => exists|i: int| gap_at(old(self).events@.chunks, i, id),
                None => true,
            }),
            old(self).events.next_chunk_id < u64::MAX - 1,
        ensures
            ({
                let pre = old(self).events@.chunks;
                let post = final(self).events@.chunks;
                let stv = id_views(store_event_ids@);
                let kept = merge_kept(views_of_events(batch@), pre, stv);
                let nid = old(self).events@.next_chunk_id;
                let post_nid = final(self).events@.next_chunk_id;
                &&& views_of_events(outcome.events@) == kept
                &&& final(self).waited_for_initial_prev_token == old(self).waited_for_initial_prev_token
                &&& final(self).events@.head_is_definitive == old(self).events@.head_is_definitive
                &&& outcome.reached_start == computed_reached_start(
                    post,
                    old(self).events@.head_is_definitive,
                    new_gap is None,
                )
                &&& merge_post(
                    pre,
                    nid,
                    post,
                    post_nid,
                    kept,
                    gap_token_view(new_gap),
                    prev_gap_id,
                )
            }),
    {
        let ghost pre = self.events@.chunks;
        let ghost bviews = views_of_events(batch@);
        let ghost stv = id_views(store_event_ids@);
        let ghost kept_spec = merge_kept(bviews, pre, stv);

        let dedup = collect_valid_and_duplicated_events(&batch, &self.events, store_event_ids);
        let all_duplicates = dedup.all_duplicates;
        let all_events = dedup.all_events;
        let ghost av = views_of_events(all_events@);
        proof {
            assert(av == valid_unique(bviews, Set::empty()));
            assert(kept_spec == retained(av, pre, stv));
        }

        // Keep only the fetched events that duplicate nothing already
        // known; on an all-duplicate batch the whole batch is dropped.
        let mut kept: Vec<TimelineEvent> = Vec::new();
        if !all_duplicates {
            proof {
                lemma_add_empty_left(retained(av, pre, stv));
                assert(av.skip(0) =~= av);
                assert(views_of_events(kept@) =~= Seq::<EventView>::empty());
            }
            let m = all_events.len();
            let mut j: usize = 0;
            while j < m
                invariant
                    m == all_events.len(),
                    0 <= j <= m,
                    av == views_of_events(all_events@),
                    pre == self.events@.chunks,
                    stv == id_views(store_event_ids@),
                    retained(av, pre, stv) == views_of_events(kept@) + retained(
                        av.skip(j as int),
                        pre,
                        stv,
                    ),
                decreases m - j,
            {
                proof {
                    assert(av.skip(j as int).len() == m - j);
                    assert(av.skip(j as int)[0] == av[j as int]);
                    assert(av.skip(j as int).drop_first() =~= av.skip(j + 1));
                    assert(av[j as int] == all_events@[j as int]@);
                }
                let e = &all_events[j];
                let known = match &e.event_id {
                    Some(id) => {
                        let in_mem = match self.events.find_event_position(id) {
                            Some(_) => true,
                            None => false,
                        };
                        if in_mem {
                            true
                        } else {
                            ids_contain(store_event_ids, id)
                        }
                    },
                    None => true,
                };
                if !known {
                    let ghost k0 = views_of_events(kept@);
                    kept.push(duplicate_event(e));
                    proof {
                        assert(!event_known(pre, stv, av[j as int]));
                        assert(views_of_events(kept@) =~= k0 + seq![av[j as int]]);
                        lemma_add_assoc(k0, seq![av[j as int]], retained(av.skip(j + 1), pre, stv));
                    }
                } else {
                    proof {
                        assert(event_known(pre, stv, av[j as int]));
                    }
                }
                j = j + 1;
            }
            proof {
                assert(av.skip(m as int) =~= Seq::<EventView>::empty());
                assert(views_of_events(kept@) + retained(av.skip(m as int), pre, stv)
                    =~= views_of_events(kept@));
            }
        } else {
            proof {
                assert(kept_spec.len() == 0);
                assert(views_of_events(kept@) =~= kept_spec);
            }
        }
        proof {
            assert(views_of_events(kept@) == kept_spec);
            assert(views_of_events(kept@).len() == kept@.len());
        }

        // Oldest-first copy for splicing into the sequence.
        let reversed = reversed_clone(&kept);
        proof {
            assert(views_of_events(reversed@) =~= views_of_events(kept@).reverse());
        }

        let network_reached = match &new_gap {
            Some(_) => false,
            None => true,
        };

        // Splice the events in and remember where a new gap would go.
        let mut anchor: Option<usize> = None;
        match prev_gap_id {
            Some(id) => {
                let found = self.events.find_gap_index(id);
                let gidx = match found {
                    Some(i) => i,
                    None => {
                        proof {
                            let wi = choose|i: int| gap_at(pre, i, id);
                            assert(gap_at(pre, wi, id));
                            assert(false);
                        }
                        0
                    },
                };
                proof {
                    assert(first_gap_at(pre, gidx as int, id));
                    assert forall|i: int| first_gap_at(pre, i, id) implies i == gidx as int by {
                        assert(gap_at(pre, gidx as int, id));
                    }
                }
                if all_duplicates {
                    self.events.remove_chunk_at(gidx);
                } else {
                    self.events.replace_chunk_with_items(reversed, gidx);
                    anchor = Some(gidx);
                }
            },
            None => {
                let first = self.events.first_event_chunk_index();
                match first {
                    Some(fidx) => {
                        proof {
                            assert(first_event_chunk_at(pre, fidx as int));
                            assert forall|f: int| first_event_chunk_at(pre, f) implies f
                                == fidx as int by {
                                assert(pre[fidx as int].events.len() > 0);
                            }
                        }
                        if !all_duplicates {
                            self.events.insert_items_chunk(reversed, fidx);
                            anchor = Some(fidx);
                        }
                    },
                    None => {
                        if !all_duplicates {
                            proof {
                                assert(kept@.len() > 0);
                                assert(reversed@.len() > 0);
                            }
                            let at = self.events.chunks.len();
                            self.events.push_events(reversed);
                            anchor = Some(at);
                        }
                    },
                }
            },
        }

        // Store the returned continuation token as a fresh gap, unless
        // the batch was entirely duplicates: then it would only recreate
        // the boundary that was just paginated through.
        if !all_duplicates {
            match new_gap {
                Some(g) => {
                    match anchor {
                        Some(a) => {
                            self.events.insert_gap_chunk(g, a);
                        },
                        None => {},
                    }
                },
                None => {},
            }
        }

        // Recompute `reached_start` from local structure, which is the
        // ground truth, rather than trusting the network's signal.
        let no_gaps_left = !self.events.has_gap_chunk();
        let chunks_empty = self.events.chunks.len() == 0;
        let reached_start = no_gaps_left && (if chunks_empty {
            network_reached
        } else {
            self.events.head_is_definitive
        });

        BackPaginationOutcome { reached_start, events: kept }
    }
}


/// The outcome of a token lookup that takes no lock beyond a read: the
/// answer, or the instruction to wait for the sync stream first.
#[derive(Clone, Debug, PartialEq)]
pub enum TokenLookup {
    /// The lookup is decided.
    Ready(PaginationToken),
    /// Nothing is known yet and no wait has completed: the caller may
    /// wait (bounded) for the sync stream, then finish the lookup.
    MustWait,
}

/// The gap chunk nearest the live end carries this token.
pub open spec fn latest_gap_token_is(chunks: Seq<ChunkView>, token: Seq<char>) -> bool {
    exists|i: int|
        #![trigger chunks[i]]
        0 <= i < chunks.len() && chunks[i].is_gap && chunks[i].token == token && (forall|j: int|
            i < j < chunks.len() ==> !chunks[j].is_gap)
}

impl RoomPagination {
    /// Complete a round whose step asked for a network fetch, handing
    /// over the fetched batch and the returned continuation token.
    ///
    /// If the anchoring gap chunk has vanished since the request was
    /// issued — the timeline was reset concurrently — the round yields no
    /// outcome: the batch is discarded, and the status captured at the
    /// round's start is restored unchanged. Otherwise the batch is merged
    /// and the status settles to idle with the recomputed
    /// `hit_timeline_start`.
    pub fn complete_fetch(
        &mut self,
        prev_gap_id: Option<u64>,
        batch: Vec<TimelineEvent>,
        new_gap: Option<Gap>,
        store_event_ids: &Vec<String>,
    ) -> (r: Option<BackPaginationOutcome>)
        requires
            old(self).prev_status is Some,
            old(self).state.events.next_chunk_id < u64::MAX - 1,
        ensures
            ({
                let pre = old(self).state.events@.chunks;
                let vanished = match prev_gap_id {
                    Some(id) => !(exists|i: int| gap_at(pre, i, id)),
                    None => false,
                };
                &&& (vanished ==> r is None && final(self).state == old(self).state && final(self).status == guard_restore(old(self).status, old(self).prev_status) && final(self).prev_status is None)
                &&& (!vanished ==> (r matches Some(o) && {
                    let kept = merge_kept(
                        views_of_events(batch@),
                        pre,
                        id_views(store_event_ids@),
                    );
                    &&& views_of_events(o.events@) == kept
                    &&& o.reached_start == computed_reached_start(
                        final(self).state.events@.chunks,
                        old(self).state.events@.head_is_definitive,
                        new_gap is None,
                    )
                    &&& final(self).status == (RoomPaginationStatus::Idle {
                        hit_timeline_start: o.reached_start,
                    })
                    &&& final(self).prev_status is None
                    &&& final(self).state.waited_for_initial_prev_token
                        == old(self).state.waited_for_initial_prev_token
                    &&& merge_post(
                        pre,
                        old(self).state.events@.next_chunk_id,
                        final(self).state.events@.chunks,
                        final(self).state.events@.next_chunk_id,
                        kept,
                        gap_token_view(new_gap),
                        prev_gap_id,
                    )
                }))
            }),
    {
        let vanished = match prev_gap_id {
            Some(id) => match self.state.events.find_gap_index(id) {
                Some(gi) => {
                    proof {
                        assert(gap_at(self.state.events@.chunks, gi as int, id));
                    }
                    false
                },
                None => true,
            },
            None => false,
        };
        if vanished {
            self.abort_round();
            return None;
        }
        let outcome = self.state.handle_network_pagination_result(
            batch,
            new_gap,
            prev_gap_id,
            store_event_ids,
        );
        let hit = outcome.reached_start;
        self.settle_finished(hit);
        Some(outcome)
    }

    /// Look the latest pagination token up without waiting.
    ///
    /// The gap chunk nearest the live end wins. With no gap but local
    /// events, one end of the timeline has been hit. With nothing at all,
    /// the answer is decided only if a wait has already completed once:
    /// there is no repeated unbounded waiting.
    pub fn check_token(&self) -> (r: TokenLookup)
        ensures
            storage_gap(self.state.events@.chunks) ==> (r matches TokenLookup::Ready(
                PaginationToken::HasMore(t),
            ) && latest_gap_token_is(self.state.events@.chunks, t@)),
            storage_start(self.state.events@.chunks) ==> r == TokenLookup::Ready(
                PaginationToken::HitEnd,
            ),
            storage_fetch_from_end(
                self.state.events@.chunks,
                self.state.waited_for_initial_prev_token,
            ) ==> r == TokenLookup::Ready(PaginationToken::NoneYet),
            storage_wait(
                self.state.events@.chunks,
                self.state.waited_for_initial_prev_token,
            ) ==> r == TokenLookup::MustWait,
            self.state.waited_for_initial_prev_token ==> !(r is MustWait),
    {
        match self.state.events.latest_gap() {
            Some(found) => TokenLookup::Ready(PaginationToken::HasMore(found.1)),
            None => {
                if self.state.events.has_events() {
                    TokenLookup::Ready(PaginationToken::HitEnd)
                } else if self.state.waited_for_initial_prev_token {
                    TokenLookup::Ready(PaginationToken::NoneYet)
                } else {
                    TokenLookup::MustWait
                }
            },
        }
    }

    /// Finish a token lookup after the bounded wait completed: record
    /// that a wait happened — so no later lookup ever waits again — and
    /// scan once more with the same three-way logic.
    pub fn wait_completed_token(&mut self) -> (r: PaginationToken)
        ensures
            final(self).state.events == old(self).state.events,
            final(self).state.waited_for_initial_prev_token,
            final(self).status == old(self).status,
            final(self).prev_status == old(self).prev_status,
            final(self).status_observable == old(self).status_observable,
            storage_gap(old(self).state.events@.chunks) ==> (r matches PaginationToken::HasMore(t)
                && latest_gap_token_is(old(self).state.events@.chunks, t@)),
            storage_start(old(self).state.events@.chunks) ==> r == PaginationToken::HitEnd,
            !storage_gap(old(self).state.events@.chunks) && !storage_start(
                old(self).state.events@.chunks,
            ) ==> r == PaginationToken::NoneYet,
    {
        self.state.waited_for_initial_prev_token = true;
        match self.state.events.latest_gap() {
            Some(found) => PaginationToken::HasMore(found.1),
            None => {
                if self.state.events.has_events() {
                    PaginationToken::HitEnd
                } else {
                    PaginationToken::NoneYet
                }
            },
        }
    }
}

/// Fold one round's outcome into the events accumulated so far, deciding
/// whether the multi-round pagination is done: it is once the start of
/// the timeline is reached or enough events have been gathered. Events
/// accumulate in arrival order, so the newest-first order of the rounds
/// is kept across rounds.
pub fn accumulate_events(
    events: &mut Vec<TimelineEvent>,
    outcome: BackPaginationOutcome,
    num_requested_events: u16,
) -> (done: Option<BackPaginationOutcome>)
    ensures
        ({
            let combined = old(events)@ + outcome.events@;
            match done {
                Some(total) => total.events@ == combined && total.reached_start
                    == outcome.reached_start && (outcome.reached_start || combined.len()
                    >= num_requested_events as int) && final(events)@.len() == 0,
                None => final(events)@ == combined && !outcome.reached_start && combined.len()
                    < num_requested_events as int,
            }
        }),
{
    let reached = outcome.reached_start;
    let mut incoming = outcome.events;
    events.append(&mut incoming);
    if reached || events.len() >= num_requested_events as usize {
        let mut drained: Vec<TimelineEvent> = Vec::new();
        core::mem::swap(events, &mut drained);
        Some(BackPaginationOutcome { reached_start: reached, events: drained })
    } else {
        None
    }
}

/// After any merge into a non-empty chunk sequence, `reached_start` is
/// true exactly when no gap chunk remains anywhere and the head chunk is
/// the definitive head — whatever the network reported. (Over an empty
/// sequence nothing local remains, and only there does the network's
/// signal decide.)
pub proof fn lemma_reached_start_correctness(
    chunks: Seq<ChunkView>,
    head_is_definitive: bool,
    network_reached_start: bool,
)
    requires
        chunks.len() > 0,
    ensures
        computed_reached_start(chunks, head_is_definitive, network_reached_start) == (!has_gap(
            chunks,
        ) && head_is_definitive),
{
}

/// Removing an eventless chunk — a gap — leaves the events of the
/// sequence, and so the event identities of every remaining chunk,
/// unchanged.
pub proof fn lemma_gap_removal_preserves_events(chunks: Seq<ChunkView>, i: int)
    requires
        0 <= i < chunks.len(),
        chunks[i].is_gap,
        chunks[i].events.len() == 0,
    ensures
        flat_events(chunks.remove(i)) == flat_events(chunks),
    decreases i,
{
    if i == 0 {
        assert(chunks.remove(0) =~= chunks.drop_first());
        assert(chunks[0].events + flat_events(chunks.drop_first()) =~= flat_events(
            chunks.drop_first(),
        ));
    } else {
        let rest = chunks.drop_first();
        lemma_gap_removal_preserves_events(rest, i - 1);
        assert(chunks.remove(i).drop_first() =~= rest.remove(i - 1));
        assert(chunks.remove(i)[0] == chunks[0]);
    }
}

} // verus!
