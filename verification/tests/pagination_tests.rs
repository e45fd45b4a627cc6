use room_pagination::deduplicator::collect_valid_and_duplicated_events;
use room_pagination::events::{ChunkContent, Gap, RoomEvents, TimelineEvent};
use room_pagination::pagination::{
    accumulate_events, BackPaginationOutcome, EventCacheError, PaginationToken,
    RoomEventCacheState, RoomPagination, RoomPaginationStatus, RoundStep, TokenLookup,
};

fn ev(id: &str, body: &str) -> TimelineEvent {
    TimelineEvent { event_id: Some(id.to_owned()), payload: body.to_owned() }
}

fn ev_no_id(body: &str) -> TimelineEvent {
    TimelineEvent { event_id: None, payload: body.to_owned() }
}

fn gap(token: &str) -> Gap {
    Gap { prev_token: token.to_owned() }
}

fn chunk_ids(events: &RoomEvents) -> Vec<Vec<Option<String>>> {
    events
        .chunks
        .iter()
        .map(|c| match &c.content {
            ChunkContent::Items(items) => items.iter().map(|e| e.event_id.clone()).collect(),
            ChunkContent::Gap(_) => Vec::new(),
        })
        .collect()
}

fn is_gap_chunk(events: &RoomEvents, i: usize) -> bool {
    matches!(events.chunks[i].content, ChunkContent::Gap(_))
}

#[test]
fn token_scan_prefers_newest_gap() {
    let mut p = RoomPagination::new();
    p.state.events.push_gap(gap("old"));
    p.state.events.push_events(vec![ev("$e1", "one")]);
    p.state.events.push_gap(gap("new"));
    p.state.events.push_events(vec![ev("$e2", "two")]);

    let found = p.check_token();
    assert_eq!(found, TokenLookup::Ready(PaginationToken::HasMore("new".to_owned())));
}

#[test]
fn token_scan_hit_end_without_gap() {
    let mut p = RoomPagination::new();
    p.state.events.push_events(vec![ev("$e1", "start of the timeline")]);

    assert_eq!(p.check_token(), TokenLookup::Ready(PaginationToken::HitEnd));
    // even after a completed wait, the answer stays HitEnd
    assert_eq!(p.wait_completed_token(), PaginationToken::HitEnd);
}

#[test]
fn token_scan_empty_timeline() {
    let mut p = RoomPagination::new();
    assert_eq!(p.check_token(), TokenLookup::MustWait);
    // once a wait completed, a lookup never waits again
    assert_eq!(p.wait_completed_token(), PaginationToken::NoneYet);
    assert_eq!(p.check_token(), TokenLookup::Ready(PaginationToken::NoneYet));
}

#[test]
fn single_flight_second_round_fails() {
    let mut p = RoomPagination::new();
    let first = p.begin_round();
    assert!(matches!(first, Ok(RoundStep::WaitForToken)));
    assert_eq!(p.status, RoomPaginationStatus::Paginating);

    // a second round while the first is in flight fails fast and
    // changes nothing
    let second = p.begin_round();
    assert_eq!(second.unwrap_err(), EventCacheError::AlreadyBackpaginating);
    assert_eq!(p.status, RoomPaginationStatus::Paginating);
    assert_eq!(p.prev_status, Some(RoomPaginationStatus::Idle { hit_timeline_start: false }));
}

#[test]
fn status_restored_after_soft_reset() {
    let mut p = RoomPagination::new();
    p.state.events.push_gap(gap("t"));
    p.state.events.push_events(vec![ev("$e1", "one")]);

    let before = p.status;
    let step = p.begin_round().unwrap();
    let gap_id = match step {
        RoundStep::FetchFromNetwork { prev_token, prev_gap_id } => {
            assert_eq!(prev_token, Some("t".to_owned()));
            prev_gap_id.unwrap()
        }
        other => panic!("expected a network fetch, got {:?}", other_name(&other)),
    };

    // the timeline is reset while the request is in flight
    p.state.events = RoomEvents::new();

    let store: Vec<String> = Vec::new();
    let r = p.complete_fetch(Some(gap_id), vec![ev("$e9", "late")], Some(gap("u")), &store);
    assert!(r.is_none());
    // the status is exactly what it was before the round
    assert_eq!(p.status, before);
    assert_eq!(p.prev_status, None);
    // and the reset timeline was not touched
    assert_eq!(p.state.events.chunks.len(), 0);
}

fn other_name(step: &RoundStep) -> &'static str {
    match step {
        RoundStep::WaitForToken => "WaitForToken",
        RoundStep::FetchFromNetwork { .. } => "FetchFromNetwork",
        RoundStep::Finished(_) => "Finished",
    }
}

#[test]
fn status_restored_after_abort() {
    let mut p = RoomPagination::new();
    p.state.events.push_gap(gap("t"));
    let before = p.status;
    let step = p.begin_round().unwrap();
    assert!(matches!(step, RoundStep::FetchFromNetwork { .. }));
    assert_eq!(p.status, RoomPaginationStatus::Paginating);

    // the network fetch failed: the guard restores the prior status
    p.abort_round();
    assert_eq!(p.status, before);
    assert_eq!(p.prev_status, None);
}

#[test]
fn reached_start_recomputed_from_local_state() {
    // the network claims the start was reached (no token returned), but
    // the head chunk is not the definitive head: local structure wins
    let mut st = RoomEventCacheState {
        events: RoomEvents::new(),
        waited_for_initial_prev_token: false,
    };
    st.events.push_gap(gap("t"));
    st.events.head_is_definitive = false;
    let gap_id = st.events.chunks[0].identifier;

    let store: Vec<String> = Vec::new();
    let outcome =
        st.handle_network_pagination_result(vec![ev("$e1", "one")], None, Some(gap_id), &store);
    assert!(!outcome.reached_start);
    assert!(!st.events.chunks.is_empty());

    // with a definitive head and no gap left, the start is reached even
    // if the network had returned another token on an earlier round
    let mut st2 = RoomEventCacheState {
        events: RoomEvents::new(),
        waited_for_initial_prev_token: false,
    };
    st2.events.push_gap(gap("t"));
    let gap_id2 = st2.events.chunks[0].identifier;
    let outcome2 =
        st2.handle_network_pagination_result(vec![ev("$e1", "one")], None, Some(gap_id2), &store);
    assert!(outcome2.reached_start);
}

#[test]
fn all_duplicate_merge_removes_gap_and_keeps_events() {
    let mut st = RoomEventCacheState {
        events: RoomEvents::new(),
        waited_for_initial_prev_token: false,
    };
    st.events.push_gap(gap("t"));
    st.events.push_events(vec![ev("$e1", "one"), ev("$e2", "two")]);
    let gap_id = st.events.chunks[0].identifier;
    let before_ids = chunk_ids(&st.events);

    let store: Vec<String> = Vec::new();
    // the whole fetched batch duplicates known events; the network even
    // returned another token
    let outcome = st.handle_network_pagination_result(
        vec![ev("$e2", "two"), ev("$e1", "one")],
        Some(gap("stale")),
        Some(gap_id),
        &store,
    );

    // the anchoring gap is gone, no replacement gap was stored
    assert_eq!(st.events.chunks.len(), 1);
    assert!(!is_gap_chunk(&st.events, 0));
    // the existing chunks' event identities are unchanged
    let after_ids = chunk_ids(&st.events);
    assert_eq!(after_ids[0], before_ids[1]);
    // nothing was kept of the batch
    assert!(outcome.events.is_empty());
    // no gap left and definitive head: the start is reached
    assert!(outcome.reached_start);
}

#[test]
fn merge_replaces_gap_and_inserts_new_gap() {
    let mut st = RoomEventCacheState {
        events: RoomEvents::new(),
        waited_for_initial_prev_token: false,
    };
    st.events.push_gap(gap("t"));
    st.events.push_events(vec![ev("$e3", "newest")]);
    let gap_id = st.events.chunks[0].identifier;

    let store: Vec<String> = Vec::new();
    // newest-first batch from the network, with more history remaining
    let outcome = st.handle_network_pagination_result(
        vec![ev("$e2", "two"), ev("$e1", "one")],
        Some(gap("older")),
        Some(gap_id),
        &store,
    );

    // [Gap("older"), Items[$e1, $e2], Items[$e3]]
    assert_eq!(st.events.chunks.len(), 3);
    assert!(is_gap_chunk(&st.events, 0));
    let ids = chunk_ids(&st.events);
    assert_eq!(ids[1], vec![Some("$e1".to_owned()), Some("$e2".to_owned())]);
    assert_eq!(ids[2], vec![Some("$e3".to_owned())]);
    // the caller gets the kept events newest-first
    let kept: Vec<Option<String>> = outcome.events.iter().map(|e| e.event_id.clone()).collect();
    assert_eq!(kept, vec![Some("$e2".to_owned()), Some("$e1".to_owned())]);
    // a gap remains: the start was not reached
    assert!(!outcome.reached_start);
}

#[test]
fn merge_without_anchor_prepends_before_first_event() {
    let mut st = RoomEventCacheState {
        events: RoomEvents::new(),
        waited_for_initial_prev_token: true,
    };
    st.events.push_events(vec![ev("$e3", "newest")]);

    let store: Vec<String> = Vec::new();
    let outcome = st.handle_network_pagination_result(
        vec![ev("$e2", "two"), ev("$e1", "one")],
        Some(gap("older")),
        None,
        &store,
    );

    // [Gap("older"), Items[$e1, $e2], Items[$e3]]
    assert_eq!(st.events.chunks.len(), 3);
    assert!(is_gap_chunk(&st.events, 0));
    let ids = chunk_ids(&st.events);
    assert_eq!(ids[1], vec![Some("$e1".to_owned()), Some("$e2".to_owned())]);
    assert_eq!(ids[2], vec![Some("$e3".to_owned())]);
    assert!(!outcome.reached_start);
}

#[test]
fn merge_into_empty_timeline_appends_gap_then_events() {
    let mut st = RoomEventCacheState {
        events: RoomEvents::new(),
        waited_for_initial_prev_token: true,
    };
    let store: Vec<String> = Vec::new();
    let outcome = st.handle_network_pagination_result(
        vec![ev("$e1", "one")],
        Some(gap("older")),
        None,
        &store,
    );

    // [Gap("older"), Items[$e1]]
    assert_eq!(st.events.chunks.len(), 2);
    assert!(is_gap_chunk(&st.events, 0));
    let ids = chunk_ids(&st.events);
    assert_eq!(ids[1], vec![Some("$e1".to_owned())]);
    assert!(!outcome.reached_start);
}

#[test]
fn merge_keeps_store_duplicates_out() {
    let mut st = RoomEventCacheState {
        events: RoomEvents::new(),
        waited_for_initial_prev_token: true,
    };
    st.events.push_gap(gap("t"));
    let gap_id = st.events.chunks[0].identifier;

    let store: Vec<String> = vec!["$persisted".to_owned()];
    let outcome = st.handle_network_pagination_result(
        vec![ev("$fresh", "new"), ev("$persisted", "old"), ev_no_id("invalid")],
        None,
        Some(gap_id),
        &store,
    );

    let kept: Vec<Option<String>> = outcome.events.iter().map(|e| e.event_id.clone()).collect();
    assert_eq!(kept, vec![Some("$fresh".to_owned())]);
    let ids = chunk_ids(&st.events);
    assert_eq!(ids, vec![vec![Some("$fresh".to_owned())]]);
}

#[test]
fn deduplicator_classifies_batch() {
    let mut events = RoomEvents::new();
    events.push_events(vec![ev("$known", "known")]);
    let store: Vec<String> = vec!["$stored".to_owned()];

    let batch = vec![
        ev("$known", "again"),
        ev("$stored", "again"),
        ev("$novel", "new"),
        ev("$novel", "within-batch duplicate"),
        ev_no_id("no identifier"),
    ];
    let outcome = collect_valid_and_duplicated_events(&batch, &events, &store);

    let all: Vec<Option<String>> =
        outcome.all_events.iter().map(|e| e.event_id.clone()).collect();
    assert_eq!(
        all,
        vec![Some("$known".to_owned()), Some("$stored".to_owned()), Some("$novel".to_owned())]
    );
    assert_eq!(outcome.in_memory_duplicated_event_ids.len(), 1);
    assert_eq!(outcome.in_memory_duplicated_event_ids[0].0, "$known");
    assert_eq!(outcome.in_store_duplicated_event_ids, vec!["$stored".to_owned()]);
    assert!(!outcome.all_duplicates);

    let all_dup_batch = vec![ev("$known", "again"), ev("$stored", "again")];
    let outcome2 = collect_valid_and_duplicated_events(&all_dup_batch, &events, &store);
    assert!(outcome2.all_duplicates);

    // an empty batch counts as all duplicates: nothing novel was fetched
    let outcome3 = collect_valid_and_duplicated_events(&Vec::new(), &events, &store);
    assert!(outcome3.all_duplicates);
}

#[test]
fn accumulation_keeps_order_across_rounds() {
    // first round: newest events; second round: older ones
    let mut acc: Vec<TimelineEvent> = Vec::new();
    let done = accumulate_events(
        &mut acc,
        BackPaginationOutcome {
            reached_start: false,
            events: vec![ev("$e4", "four"), ev("$e3", "three")],
        },
        4,
    );
    assert!(done.is_none());

    let done = accumulate_events(
        &mut acc,
        BackPaginationOutcome {
            reached_start: true,
            events: vec![ev("$e2", "two"), ev("$e1", "one")],
        },
        4,
    );
    let total = done.expect("the start was reached");
    assert!(total.reached_start);
    let ids: Vec<Option<String>> = total.events.iter().map(|e| e.event_id.clone()).collect();
    assert_eq!(
        ids,
        vec![
            Some("$e4".to_owned()),
            Some("$e3".to_owned()),
            Some("$e2".to_owned()),
            Some("$e1".to_owned())
        ]
    );
}

#[test]
fn accumulation_stops_at_requested_count() {
    let mut acc: Vec<TimelineEvent> = Vec::new();
    let done = accumulate_events(
        &mut acc,
        BackPaginationOutcome {
            reached_start: false,
            events: vec![ev("$e2", "two"), ev("$e1", "one")],
        },
        2,
    );
    let total = done.expect("two events were requested and gathered");
    assert!(!total.reached_start);
    assert_eq!(total.events.len(), 2);
}

#[test]
fn ordering_across_driven_rounds() {
    // drive two full rounds through the round-step machine, as a caller
    // asking for four events would
    let mut p = RoomPagination::new();
    p.state.events.push_gap(gap("t2"));
    p.state.events.push_events(vec![ev("$e5", "five")]);
    let store: Vec<String> = Vec::new();
    let mut acc: Vec<TimelineEvent> = Vec::new();

    let step = p.begin_round().unwrap();
    let (token, gap_id) = match step {
        RoundStep::FetchFromNetwork { prev_token, prev_gap_id } => (prev_token, prev_gap_id),
        other => panic!("expected a network fetch, got {}", other_name(&other)),
    };
    assert_eq!(token, Some("t2".to_owned()));
    let outcome = p
        .complete_fetch(
            gap_id,
            vec![ev("$e4", "four"), ev("$e3", "three")],
            Some(gap("t1")),
            &store,
        )
        .expect("the gap was still there");
    assert!(accumulate_events(&mut acc, outcome, 4).is_none());

    let step = p.begin_round().unwrap();
    let (token, gap_id) = match step {
        RoundStep::FetchFromNetwork { prev_token, prev_gap_id } => (prev_token, prev_gap_id),
        other => panic!("expected a network fetch, got {}", other_name(&other)),
    };
    assert_eq!(token, Some("t1".to_owned()));
    let outcome = p
        .complete_fetch(gap_id, vec![ev("$e2", "two"), ev("$e1", "one")], None, &store)
        .expect("the gap was still there");
    let total = accumulate_events(&mut acc, outcome, 4).expect("the start was reached");

    // newest-first across both rounds, matching the backward direction
    let ids: Vec<Option<String>> = total.events.iter().map(|e| e.event_id.clone()).collect();
    assert_eq!(
        ids,
        vec![
            Some("$e4".to_owned()),
            Some("$e3".to_owned()),
            Some("$e2".to_owned()),
            Some("$e1".to_owned())
        ]
    );
    assert!(total.reached_start);
    assert_eq!(p.status, RoomPaginationStatus::Idle { hit_timeline_start: true });
}

#[test]
fn start_of_timeline_round_finishes_without_network() {
    let mut p = RoomPagination::new();
    p.state.events.push_events(vec![ev("$e1", "one")]);
    let step = p.begin_round().unwrap();
    match step {
        RoundStep::Finished(outcome) => {
            assert!(outcome.reached_start);
            assert!(outcome.events.is_empty());
        }
        other => panic!("expected a finished round, got {}", other_name(&other)),
    }
    assert_eq!(p.status, RoomPaginationStatus::Idle { hit_timeline_start: true });
}

#[test]
fn waited_round_fetches_from_live_end() {
    let mut p = RoomPagination::new();
    let step = p.begin_round().unwrap();
    assert!(matches!(step, RoundStep::WaitForToken));
    // the wait elapsed with nothing arriving: the next resolution cannot
    // ask to wait again, and fetches from the live end without a token
    let step = p.note_waited_and_resolve();
    match step {
        RoundStep::FetchFromNetwork { prev_token, prev_gap_id } => {
            assert_eq!(prev_token, None);
            assert_eq!(prev_gap_id, None);
        }
        other => panic!("expected a network fetch, got {}", other_name(&other)),
    }
}

#[test]
fn pagination_token_from_option() {
    assert_eq!(
        PaginationToken::from(Some("swimming".to_owned())),
        PaginationToken::HasMore("swimming".to_owned())
    );
    assert_eq!(PaginationToken::from(None), PaginationToken::NoneYet);
}

#[test]
fn status_subscription_sees_changes() {
    let mut p = RoomPagination::new();
    let sub = p.status();
    assert_eq!(sub.inner.get(), RoomPaginationStatus::Idle { hit_timeline_start: false });
    let _ = p.begin_round().unwrap();
    assert_eq!(sub.inner.get(), RoomPaginationStatus::Paginating);
    p.abort_round();
    assert_eq!(sub.inner.get(), RoomPaginationStatus::Idle { hit_timeline_start: false });
}
