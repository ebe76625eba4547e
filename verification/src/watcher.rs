//! What the watcher of the key directory does next.
//!
//! The watcher keeps the store in step with one directory. It asks the system
//! to report changes there, waits for reports, and loads or unloads the file
//! that a report names. This module decides; the caller performs the action
//! and comes back with what happened.

use vstd::prelude::*;

verus! {

/// The seconds that the watcher waits before it asks for the subscription
/// again.
pub const BACKOFF_SECONDS: u64 = 5;

/// What the watcher is waiting for.
#[derive(Clone, Copy, Debug, PartialEq, Eq, Structural)]
pub enum WatcherState {
    /// The outcome of asking for the subscription.
    Subscribing,
    /// The end of the pause after a failure.
    Backoff,
    /// The next report of a change.
    Watching,
}

/// What a report says happened to a file.
#[derive(Clone, Copy, Debug, PartialEq, Eq, Structural)]
pub struct EventKinds {
    /// A file that was open for writing was closed.
    pub close_write: bool,
    /// A file was moved into the directory.
    pub moved_to: bool,
    /// A file was deleted.
    pub delete: bool,
    /// A file was moved out of the directory.
    pub moved_from: bool,
}

/// What a report asks of the store.
#[derive(Clone, Copy, Debug, PartialEq, Eq, Structural)]
pub enum Change {
    /// Load the file.
    Load,
    /// Unload the file.
    Unload,
    /// Nothing.
    Ignore,
}

/// What happened since the last action.
#[derive(Debug)]
pub enum WatcherEvent {
    /// The subscription was established.
    Subscribed,
    /// The subscription could not be established.
    SubscribeFailed,
    /// The pause is over.
    BackoffElapsed,
    /// A change was reported, for the file of that name where it has one.
    Notified { name: Option<String>, kinds: EventKinds },
    /// The channel of reports is closed or failed.
    ChannelClosed,
}

/// What the caller is to do now.
#[derive(Debug)]
pub enum WatcherAction {
    /// Ask for the subscription.
    Subscribe,
    /// Make the notification primitive anew, then ask for the subscription.
    Reinitialize,
    /// Pause for that many seconds.
    Sleep { seconds: u64 },
    /// Load the file of that name, then wait for the next report.
    Load { name: String },
    /// Unload the file of that name, then wait for the next report.
    Unload { name: String },
    /// Wait for the next report.
    Wait,
}

/// An action as contracts see it.
pub enum ActionView {
    Subscribe,
    Reinitialize,
    Sleep { seconds: u64 },
    Load { name: Seq<char> },
    Unload { name: Seq<char> },
    Wait,
}

impl View for WatcherAction {
    type V = ActionView;

    open spec fn view(&self) -> ActionView {
        match self {
            WatcherAction::Subscribe => ActionView::Subscribe,
            WatcherAction::Reinitialize => ActionView::Reinitialize,
            WatcherAction::Sleep { seconds } => ActionView::Sleep { seconds: *seconds },
            WatcherAction::Load { name } => ActionView::Load { name: name@ },
            WatcherAction::Unload { name } => ActionView::Unload { name: name@ },
            WatcherAction::Wait => ActionView::Wait,
        }
    }
}

/// An event as contracts see it.
pub enum EventView {
    Subscribed,
    SubscribeFailed,
    BackoffElapsed,
    Notified { name: Option<Seq<char>>, kinds: EventKinds },
    ChannelClosed,
}

impl View for WatcherEvent {
    type V = EventView;

    open spec fn view(&self) -> EventView {
        match self {
            WatcherEvent::Subscribed => EventView::Subscribed,
            WatcherEvent::SubscribeFailed => EventView::SubscribeFailed,
            WatcherEvent::BackoffElapsed => EventView::BackoffElapsed,
            WatcherEvent::Notified { name, kinds } => EventView::Notified {
                name: match name {
                    Some(n) => Some(n@),
                    None => None,
                },
                kinds: *kinds,
            },
            WatcherEvent::ChannelClosed => EventView::ChannelClosed,
        }
    }
}

/// A file that was written or moved in is loaded; else a file that was
/// deleted or moved out is unloaded; any other report is ignored.
pub open spec fn change_of(kinds: EventKinds) -> Change {
    if kinds.close_write || kinds.moved_to {
        Change::Load
    } else if kinds.delete || kinds.moved_from {
        Change::Unload
    } else {
        Change::Ignore
    }
}

/// The action that a state waits on: what the watcher does again when
/// something else than it waits for comes.
pub open spec fn pending(state: WatcherState) -> ActionView {
    match state {
        WatcherState::Subscribing => ActionView::Subscribe,
        WatcherState::Backoff => ActionView::Sleep { seconds: BACKOFF_SECONDS },
        WatcherState::Watching => ActionView::Wait,
    }
}

/// The state after an event, and the action to take.
///
/// A failed subscription leads to a pause and then to a new attempt, without
/// end. A closed channel leads to a new notification primitive and a new
/// subscription. While the watcher watches, each report is taken by itself:
/// the file is loaded or unloaded, and the watcher watches on, whatever
/// became of the file. An event that the state does not wait for changes
/// nothing.
pub open spec fn next(state: WatcherState, event: EventView) -> (WatcherState, ActionView) {
    match (state, event) {
        (WatcherState::Subscribing, EventView::Subscribed) => (
            WatcherState::Watching,
            ActionView::Wait,
        ),
        (WatcherState::Subscribing, EventView::SubscribeFailed) => (
            WatcherState::Backoff,
            ActionView::Sleep { seconds: BACKOFF_SECONDS },
        ),
        (WatcherState::Backoff, EventView::BackoffElapsed) => (
            WatcherState::Subscribing,
            ActionView::Subscribe,
        ),
        (WatcherState::Watching, EventView::ChannelClosed) => (
            WatcherState::Subscribing,
            ActionView::Reinitialize,
        ),
        (WatcherState::Watching, EventView::Notified { name: Some(name), kinds }) => (
            WatcherState::Watching,
            match change_of(kinds) {
                Change::Load => ActionView::Load { name },
                Change::Unload => ActionView::Unload { name },
                Change::Ignore => ActionView::Wait,
            },
        ),
        _ => (state, pending(state)),
    }
}

/// The state in which the watcher starts, after the first scan of the
/// directory: it asks for the subscription.
pub fn start() -> (r: (WatcherState, WatcherAction))
    ensures
        r.0 == WatcherState::Subscribing,
        r.1@ == ActionView::Subscribe,
{
    (WatcherState::Subscribing, WatcherAction::Subscribe)
}

/// Decides what a report asks of the store.
pub fn classify(kinds: EventKinds) -> (change: Change)
    ensures
        change == change_of(kinds),
{
    if kinds.close_write || kinds.moved_to {
        Change::Load
    } else if kinds.delete || kinds.moved_from {
        Change::Unload
    } else {
        Change::Ignore
    }
}

/// The action that a state waits on.
fn repeat(state: WatcherState) -> (action: WatcherAction)
    ensures
        action@ == pending(state),
{
    match state {
        WatcherState::Subscribing => WatcherAction::Subscribe,
        WatcherState::Backoff => WatcherAction::Sleep { seconds: BACKOFF_SECONDS },
        WatcherState::Watching => WatcherAction::Wait,
    }
}

/// Takes an event and returns the next state with the action to perform.
pub fn step(state: WatcherState, event: WatcherEvent) -> (r: (WatcherState, WatcherAction))
    ensures
        (r.0, r.1@) == next(state, event@),
{
    match state {
        WatcherState::Subscribing => match event {
            WatcherEvent::Subscribed => (WatcherState::Watching, WatcherAction::Wait),
            WatcherEvent::SubscribeFailed => (
                WatcherState::Backoff,
                WatcherAction::Sleep { seconds: BACKOFF_SECONDS },
            ),
            _ => (state, repeat(state)),
        },
        WatcherState::Backoff => match event {
            WatcherEvent::BackoffElapsed => (WatcherState::Subscribing, WatcherAction::Subscribe),
            _ => (state, repeat(state)),
        },
        WatcherState::Watching => match event {
            WatcherEvent::ChannelClosed => (WatcherState::Subscribing, WatcherAction::Reinitialize),
            WatcherEvent::Notified { name: Some(name), kinds } => {
                let action = match classify(kinds) {
                    Change::Load => WatcherAction::Load { name },
                    Change::Unload => WatcherAction::Unload { name },
                    Change::Ignore => WatcherAction::Wait,
                };
                (WatcherState::Watching, action)
            },
            _ => (state, repeat(state)),
        },
    }
}

/// A subscription that fails is asked for again after the pause, however
/// often it fails: the watcher never stops over it.
pub proof fn failed_subscription_is_retried(state: WatcherState)
    requires
        state == WatcherState::Subscribing,
    ensures
        next(state, EventView::SubscribeFailed) == (
            WatcherState::Backoff,
            ActionView::Sleep { seconds: BACKOFF_SECONDS },
        ),
        next(next(state, EventView::SubscribeFailed).0, EventView::BackoffElapsed) == (
            WatcherState::Subscribing,
            ActionView::Subscribe,
        ),
{
}

/// While it watches, the watcher goes on watching after every report: what a
/// report names is loaded, unloaded or passed over, and no report ends the
/// watch.
pub proof fn reports_keep_the_watch(name: Option<Seq<char>>, kinds: EventKinds)
    ensures
        next(WatcherState::Watching, EventView::Notified { name, kinds }).0
            == WatcherState::Watching,
{
}

} // verus!
