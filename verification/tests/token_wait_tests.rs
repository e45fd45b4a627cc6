use std::sync::Arc;
use std::time::{Duration, Instant};

use tokio::sync::{Mutex, Notify};

use room_pagination::events::{Gap, TimelineEvent};
use room_pagination::pagination::{PaginationToken, RoomPagination, TokenLookup};

fn runtime() -> tokio::runtime::Runtime {
    tokio::runtime::Builder::new_current_thread().enable_time().build().unwrap()
}

fn text_event(body: &str) -> TimelineEvent {
    TimelineEvent { event_id: Some(format!("$id-{body}")), payload: body.to_owned() }
}

/// The bounded token wait, as a driver runs it: answer from the fast
/// path when possible, otherwise wait (at most `wait_time`) for the sync
/// stream's notification and scan once more.
async fn get_or_wait_for_token(
    pagination: &Arc<Mutex<RoomPagination>>,
    notifier: &Arc<Notify>,
    wait_time: Option<Duration>,
) -> PaginationToken {
    {
        let p = pagination.lock().await;
        match p.check_token() {
            TokenLookup::Ready(token) => return token,
            TokenLookup::MustWait => {}
        }
    }
    let Some(wait_time) = wait_time else {
        return PaginationToken::NoneYet;
    };
    let _ = tokio::time::timeout(wait_time, notifier.notified()).await;
    let mut p = pagination.lock().await;
    p.wait_completed_token()
}

#[test]
fn wait_no_pagination_token() {
    runtime().block_on(async {
        let pagination = Arc::new(Mutex::new(RoomPagination::new()));
        let notifier = Arc::new(Notify::new());

        // no events, no waiting allowed: no token
        let found = get_or_wait_for_token(&pagination, &notifier, None).await;
        assert_eq!(found, PaginationToken::NoneYet);

        // a zero-duration wait also yields nothing, and quickly
        *pagination.lock().await = RoomPagination::new();
        let before = Instant::now();
        let found =
            get_or_wait_for_token(&pagination, &notifier, Some(Duration::default())).await;
        let waited = before.elapsed();
        assert_eq!(found, PaginationToken::NoneYet);
        assert!(waited.as_secs() < 1);

        // a one-second wait yields nothing after about one second
        *pagination.lock().await = RoomPagination::new();
        let before = Instant::now();
        let found =
            get_or_wait_for_token(&pagination, &notifier, Some(Duration::from_secs(1))).await;
        let waited = before.elapsed();
        assert_eq!(found, PaginationToken::NoneYet);
        assert!(waited.as_secs() >= 1);
        assert!(waited.as_secs() < 2);

        // the wait completed once: a later call without a wait time
        // answers immediately
        let before = Instant::now();
        let found = get_or_wait_for_token(&pagination, &notifier, None).await;
        let waited = before.elapsed();
        assert_eq!(found, PaginationToken::NoneYet);
        assert!(waited.as_millis() < 100);
    });
}

#[test]
fn wait_hit_end_of_timeline() {
    runtime().block_on(async {
        let pagination = Arc::new(Mutex::new(RoomPagination::new()));
        let notifier = Arc::new(Notify::new());
        pagination
            .lock()
            .await
            .state
            .events
            .push_events(vec![text_event("this is the start of the timeline")]);

        // events and no gap: the end was hit, with no waiting at all
        let found = get_or_wait_for_token(&pagination, &notifier, None).await;
        assert_eq!(found, PaginationToken::HitEnd);

        // including with a zero-duration wait
        let before = Instant::now();
        let found =
            get_or_wait_for_token(&pagination, &notifier, Some(Duration::default())).await;
        let waited = before.elapsed();
        assert_eq!(found, PaginationToken::HitEnd);
        assert!(waited.as_secs() < 1);
    });
}

#[test]
fn wait_for_token_already_present() {
    runtime().block_on(async {
        let pagination = Arc::new(Mutex::new(RoomPagination::new()));
        let notifier = Arc::new(Notify::new());
        {
            let mut p = pagination.lock().await;
            p.state.events.push_gap(Gap { prev_token: "old".to_owned() });
            p.state.events.push_events(vec![text_event("yolo")]);
        }

        let found = get_or_wait_for_token(&pagination, &notifier, None).await;
        assert_eq!(found, PaginationToken::HasMore("old".to_owned()));

        let before = Instant::now();
        let found =
            get_or_wait_for_token(&pagination, &notifier, Some(Duration::from_secs(1))).await;
        let waited = before.elapsed();
        assert_eq!(found, PaginationToken::HasMore("old".to_owned()));
        assert!(waited.as_millis() < 100);
    });
}

#[test]
fn wait_for_late_pagination_token() {
    runtime().block_on(async {
        let pagination = Arc::new(Mutex::new(RoomPagination::new()));
        let notifier = Arc::new(Notify::new());

        let writer_pagination = Arc::clone(&pagination);
        let writer_notifier = Arc::clone(&notifier);
        let before = Instant::now();
        let insert_token_task = tokio::task::spawn(async move {
            // a concurrent writer inserts a gap 400ms into the wait
            tokio::time::sleep(Duration::from_millis(400)).await;
            writer_pagination
                .lock()
                .await
                .state
                .events
                .push_gap(Gap { prev_token: "expected".to_owned() });
            writer_notifier.notify_waiters();
        });

        // without waiting, there is nothing yet
        let found = get_or_wait_for_token(&pagination, &notifier, None).await;
        assert_eq!(found, PaginationToken::NoneYet);

        // a 600ms wait picks the token up as soon as it arrives
        let found =
            get_or_wait_for_token(&pagination, &notifier, Some(Duration::from_millis(600))).await;
        let waited = before.elapsed();
        assert_eq!(found, PaginationToken::HasMore("expected".to_owned()));
        assert!(waited.as_millis() >= 400);
        assert!(waited.as_secs() < 1);

        insert_token_task.await.unwrap();
    });
}

#[test]
fn latest_token_wins_over_older_one() {
    runtime().block_on(async {
        let pagination = Arc::new(Mutex::new(RoomPagination::new()));
        let notifier = Arc::new(Notify::new());
        {
            let mut p = pagination.lock().await;
            p.state.events.push_gap(Gap { prev_token: "old".to_owned() });
            p.state.events.push_events(vec![text_event("oldest from cache")]);
            p.state.events.push_gap(Gap { prev_token: "new".to_owned() });
            p.state.events.push_events(vec![text_event("gappy timeline")]);
        }

        let found = get_or_wait_for_token(&pagination, &notifier, None).await;
        assert_eq!(found, PaginationToken::HasMore("new".to_owned()));
    });
}
