use wks::watcher::{
    classify, start, step, Change, EventKinds, WatcherAction, WatcherEvent, WatcherState,
    BACKOFF_SECONDS,
};

fn kinds(close_write: bool, moved_to: bool, delete: bool, moved_from: bool) -> EventKinds {
    EventKinds { close_write, moved_to, delete, moved_from }
}

fn report(name: &str, kinds: EventKinds) -> WatcherEvent {
    WatcherEvent::Notified { name: Some(name.to_string()), kinds }
}

#[test]
fn the_watcher_starts_by_subscribing() {
    let (state, action) = start();
    assert_eq!(state, WatcherState::Subscribing);
    assert!(matches!(action, WatcherAction::Subscribe));
}

#[test]
fn the_pause_lasts_five_seconds() {
    assert_eq!(BACKOFF_SECONDS, 5);
}

#[test]
fn a_failed_subscription_is_retried_after_the_pause() {
    let (state, _) = start();
    let (state, action) = step(state, WatcherEvent::SubscribeFailed);
    assert_eq!(state, WatcherState::Backoff);
    assert!(matches!(action, WatcherAction::Sleep { seconds: 5 }));
    let (state, action) = step(state, WatcherEvent::BackoffElapsed);
    assert_eq!(state, WatcherState::Subscribing);
    assert!(matches!(action, WatcherAction::Subscribe));
    // It fails again, and is retried again.
    let (state, action) = step(state, WatcherEvent::SubscribeFailed);
    assert_eq!(state, WatcherState::Backoff);
    assert!(matches!(action, WatcherAction::Sleep { seconds: 5 }));
    let (state, _) = step(state, WatcherEvent::BackoffElapsed);
    // A later attempt succeeds, and reports are processed.
    let (state, action) = step(state, WatcherEvent::Subscribed);
    assert_eq!(state, WatcherState::Watching);
    assert!(matches!(action, WatcherAction::Wait));
    let (state, action) = step(state, report("alice.pgp", kinds(true, false, false, false)));
    assert_eq!(state, WatcherState::Watching);
    assert!(matches!(action, WatcherAction::Load { name } if name == "alice.pgp"));
}

#[test]
fn a_closed_channel_leads_to_a_new_subscription() {
    let (state, action) = step(WatcherState::Watching, WatcherEvent::ChannelClosed);
    assert_eq!(state, WatcherState::Subscribing);
    assert!(matches!(action, WatcherAction::Reinitialize));
    let (state, action) = step(state, WatcherEvent::Subscribed);
    assert_eq!(state, WatcherState::Watching);
    assert!(matches!(action, WatcherAction::Wait));
}

#[test]
fn reports_are_classified() {
    assert_eq!(classify(kinds(true, false, false, false)), Change::Load);
    assert_eq!(classify(kinds(false, true, false, false)), Change::Load);
    assert_eq!(classify(kinds(false, false, true, false)), Change::Unload);
    assert_eq!(classify(kinds(false, false, false, true)), Change::Unload);
    assert_eq!(classify(kinds(false, false, false, false)), Change::Ignore);
    // Loading goes before unloading.
    assert_eq!(classify(kinds(true, false, true, false)), Change::Load);
    assert_eq!(classify(kinds(false, true, false, true)), Change::Load);
}

#[test]
fn reports_load_and_unload_by_name() {
    let (state, action) =
        step(WatcherState::Watching, report("a.pgp", kinds(false, true, false, false)));
    assert_eq!(state, WatcherState::Watching);
    assert!(matches!(action, WatcherAction::Load { name } if name == "a.pgp"));
    let (state, action) =
        step(WatcherState::Watching, report("a.pgp", kinds(false, false, true, false)));
    assert_eq!(state, WatcherState::Watching);
    assert!(matches!(action, WatcherAction::Unload { name } if name == "a.pgp"));
    let (state, action) =
        step(WatcherState::Watching, report("a.pgp", kinds(false, false, false, true)));
    assert_eq!(state, WatcherState::Watching);
    assert!(matches!(action, WatcherAction::Unload { name } if name == "a.pgp"));
}

#[test]
fn reports_without_a_name_or_a_kind_are_passed_over() {
    let unnamed = WatcherEvent::Notified { name: None, kinds: kinds(true, false, false, false) };
    let (state, action) = step(WatcherState::Watching, unnamed);
    assert_eq!(state, WatcherState::Watching);
    assert!(matches!(action, WatcherAction::Wait));
    let (state, action) =
        step(WatcherState::Watching, report("a.pgp", kinds(false, false, false, false)));
    assert_eq!(state, WatcherState::Watching);
    assert!(matches!(action, WatcherAction::Wait));
}

#[test]
fn an_event_out_of_turn_changes_nothing() {
    let (state, action) = step(WatcherState::Backoff, WatcherEvent::Subscribed);
    assert_eq!(state, WatcherState::Backoff);
    assert!(matches!(action, WatcherAction::Sleep { seconds: 5 }));
    let (state, action) =
        step(WatcherState::Subscribing, report("a.pgp", kinds(true, false, false, false)));
    assert_eq!(state, WatcherState::Subscribing);
    assert!(matches!(action, WatcherAction::Subscribe));
    let (state, action) = step(WatcherState::Watching, WatcherEvent::BackoffElapsed);
    assert_eq!(state, WatcherState::Watching);
    assert!(matches!(action, WatcherAction::Wait));
    let (state, action) = step(WatcherState::Subscribing, WatcherEvent::ChannelClosed);
    assert_eq!(state, WatcherState::Subscribing);
    assert!(matches!(action, WatcherAction::Subscribe));
}
