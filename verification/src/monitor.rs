//! The change monitor: what to do next, given what has just happened. The
//! caller performs each action and reports its outcome as the next event.

use crate::discovery::{service_views, RegisteredService, ServiceView};
use vstd::prelude::*;

verus! {

/// The backend setting that switches change notifications on.
pub const NOTIFICATION_SETTING: &'static str = "notify-keyspace-events";

/// Its value: notifications by key, for sets and hashes only.
pub const NOTIFICATION_CLASSES: &'static str = "Ksh";

/// The pattern of the notifications for every key of the registry.
pub const SUBSCRIPTION_PATTERN: &'static str = "__keyspace@0__:prometheus_sd*";

/// Where the monitor stands.
#[derive(Clone, Copy, Debug, PartialEq, Eq, Structural)]
pub enum MonitorState {
    /// Opening the connection that is kept for notifications alone.
    Connecting,
    /// Switching notifications on.
    Configuring,
    /// Subscribing to the registry's keys.
    Subscribing,
    /// Waiting for the next notification.
    Waiting,
    /// Reading the snapshot after a notification.
    Reading,
    /// Writing the snapshot that was read.
    Writing,
    /// Stopped for good, after a failure.
    Stopped,
}

/// What has just happened.
pub enum MonitorEvent {
    /// The notification connection is open.
    Connected,
    /// Notifications are switched on.
    Configured,
    /// The subscription stands.
    Subscribed,
    /// A notification has arrived.
    Notified,
    /// The snapshot was read.
    SnapshotRead(Vec<RegisteredService>),
    /// The snapshot was written.
    Written,
    /// The last action failed.
    Failed,
}

/// What to do next.
pub enum MonitorAction {
    /// Open a connection for notifications alone.
    Connect,
    /// Give a backend setting a value.
    Configure { setting: String, value: String },
    /// Subscribe to the keys that match a pattern.
    Subscribe { pattern: String },
    /// Block until a notification arrives.
    AwaitNotification,
    /// Read the snapshot over the command connection.
    ReadSnapshot,
    /// Overwrite the output with this snapshot.
    WriteSnapshot(Vec<RegisteredService>),
    /// Give up and report the failure.
    Stop,
}

/// An event over texts.
pub enum EventView {
    Connected,
    Configured,
    Subscribed,
    Notified,
    SnapshotRead(Seq<ServiceView>),
    Written,
    Failed,
}

/// An action over texts.
pub enum ActionView {
    Connect,
    Configure { setting: Seq<char>, value: Seq<char> },
    Subscribe { pattern: Seq<char> },
    AwaitNotification,
    ReadSnapshot,
    WriteSnapshot(Seq<ServiceView>),
    Stop,
}

impl View for MonitorEvent {
    type V = EventView;

    open spec fn view(&self) -> EventView {
        match self {
            MonitorEvent::Connected => EventView::Connected,
            MonitorEvent::Configured => EventView::Configured,
            MonitorEvent::Subscribed => EventView::Subscribed,
            MonitorEvent::Notified => EventView::Notified,
            MonitorEvent::SnapshotRead(services) => EventView::SnapshotRead(
                service_views(services@),
            ),
            MonitorEvent::Written => EventView::Written,
            MonitorEvent::Failed => EventView::Failed,
        }
    }
}

impl View for MonitorAction {
    type V = ActionView;

    open spec fn view(&self) -> ActionView {
        match self {
            MonitorAction::Connect => ActionView::Connect,
            MonitorAction::Configure { setting, value } => ActionView::Configure {
                setting: setting@,
                value: value@,
            },
            MonitorAction::Subscribe { pattern } => ActionView::Subscribe { pattern: pattern@ },
            MonitorAction::AwaitNotification => ActionView::AwaitNotification,
            MonitorAction::ReadSnapshot => ActionView::ReadSnapshot,
            MonitorAction::WriteSnapshot(services) => ActionView::WriteSnapshot(
                service_views(services@),
            ),
            MonitorAction::Stop => ActionView::Stop,
        }
    }
}

/// The monitor's rule. It sets up the subscription step by step; then every
/// notification is answered by one reading of the snapshot, and every snapshot
/// read by one writing of that snapshot. A failure, or an event out of turn,
/// stops the monitor for good.
pub open spec fn next(state: MonitorState, event: EventView) -> (MonitorState, ActionView) {
    match (state, event) {
        (MonitorState::Connecting, EventView::Connected) => (
            MonitorState::Configuring,
            ActionView::Configure { setting: NOTIFICATION_SETTING@, value: NOTIFICATION_CLASSES@ },
        ),
        (MonitorState::Configuring, EventView::Configured) => (
            MonitorState::Subscribing,
            ActionView::Subscribe { pattern: SUBSCRIPTION_PATTERN@ },
        ),
        (MonitorState::Subscribing, EventView::Subscribed) => (
            MonitorState::Waiting,
            ActionView::AwaitNotification,
        ),
        (MonitorState::Waiting, EventView::Notified) => (
            MonitorState::Reading,
            ActionView::ReadSnapshot,
        ),
        (MonitorState::Reading, EventView::SnapshotRead(services)) => (
            MonitorState::Writing,
            ActionView::WriteSnapshot(services),
        ),
        (MonitorState::Writing, EventView::Written) => (
            MonitorState::Waiting,
            ActionView::AwaitNotification,
        ),
        _ => (MonitorState::Stopped, ActionView::Stop),
    }
}

/// Where the monitor ends and what it asks for, one action for each event,
/// when it meets a list of events in order.
pub open spec fn run(state: MonitorState, events: Seq<EventView>) -> (MonitorState, Seq<ActionView>)
    decreases events.len(),
{
    if events.len() == 0 {
        (state, Seq::empty())
    } else {
        let (middle, action) = next(state, events[0]);
        let (end, actions) = run(middle, events.drop_first());
        (end, seq![action] + actions)
    }
}

/// How many of the events are notifications.
pub open spec fn notifications(events: Seq<EventView>) -> nat
    decreases events.len(),
{
    if events.len() == 0 {
        0
    } else {
        (if events[0] is Notified {
            1nat
        } else {
            0nat
        }) + notifications(events.drop_first())
    }
}

/// How many of the actions write a snapshot.
pub open spec fn writes(actions: Seq<ActionView>) -> nat
    decreases actions.len(),
{
    if actions.len() == 0 {
        0
    } else {
        (if actions[0] is WriteSnapshot {
            1nat
        } else {
            0nat
        }) + writes(actions.drop_first())
    }
}

/// How many writes the monitor still owes for notifications that it has taken:
/// one while it reads, none otherwise.
pub open spec fn owed(state: MonitorState) -> nat {
    if state == MonitorState::Reading {
        1
    } else {
        0
    }
}

/// One notification brings one cycle: the snapshot is read once, and what was
/// read is written once, unchanged; then the monitor waits again.
pub proof fn law_one_cycle_per_notification(services: Seq<ServiceView>)
    ensures
        run(
            MonitorState::Waiting,
            seq![EventView::Notified, EventView::SnapshotRead(services), EventView::Written],
        ) == (
            MonitorState::Waiting,
            seq![
                ActionView::ReadSnapshot,
                ActionView::WriteSnapshot(services),
                ActionView::AwaitNotification,
            ],
        ),
{
    let events = seq![EventView::Notified, EventView::SnapshotRead(services), EventView::Written];
    reveal_with_fuel(run, 4);
    let e1 = events.drop_first();
    let e2 = e1.drop_first();
    assert(e2.drop_first().len() == 0);
    assert(run(MonitorState::Waiting, events).1 =~= seq![
        ActionView::ReadSnapshot,
        ActionView::WriteSnapshot(services),
        ActionView::AwaitNotification,
    ]);
}

/// As long as the monitor has not stopped, it has written once for every
/// notification, but for the one whose snapshot it is still reading: bursts
/// are not merged.
pub proof fn law_writes_match_notifications(state: MonitorState, events: Seq<EventView>)
    requires
        run(state, events).0 != MonitorState::Stopped,
    ensures
        writes(run(state, events).1) + owed(run(state, events).0) == notifications(events) + owed(
            state,
        ),
    decreases events.len(),
{
    if events.len() > 0 {
        let (middle, action) = next(state, events[0]);
        let rest = events.drop_first();
        let (end, actions) = run(middle, rest);
        lemma_stopped_stays(rest);
        law_writes_match_notifications(middle, rest);
        let all = seq![action] + actions;
        assert(all.drop_first() =~= actions);
        assert(all[0] == action);
    }
}

/// A monitor that has stopped stays stopped.
pub proof fn lemma_stopped_stays(events: Seq<EventView>)
    ensures
        run(MonitorState::Stopped, events).0 == MonitorState::Stopped,
    decreases events.len(),
{
    if events.len() > 0 {
        lemma_stopped_stays(events.drop_first());
    }
}

/// The change monitor.
pub struct Monitor {
    state: MonitorState,
}

impl Monitor {
    /// Where the monitor stands.
    pub closed spec fn position(&self) -> MonitorState {
        self.state
    }

    /// A monitor at its start, and its first action: to open the connection
    /// for notifications.
    pub fn start() -> (begun: (Monitor, MonitorAction))
        ensures
            begun.0.position() == MonitorState::Connecting,
            begun.1@ == ActionView::Connect,
    {
        (Monitor { state: MonitorState::Connecting }, MonitorAction::Connect)
    }

    /// Where the monitor stands.
    pub fn state(&self) -> (state: MonitorState)
        ensures
            state == self.position(),
    {
        self.state
    }

    /// Takes an event and says what to do next, by the monitor's rule.
    pub fn step(&mut self, event: MonitorEvent) -> (action: MonitorAction)
        ensures
            (final(self).position(), action@) == next(old(self).position(), event@),
    {
        let (state, action) = match (self.state, event) {
            (MonitorState::Connecting, MonitorEvent::Connected) => (
                MonitorState::Configuring,
                MonitorAction::Configure {
                    setting: String::from_str(NOTIFICATION_SETTING),
                    value: String::from_str(NOTIFICATION_CLASSES),
                },
            ),
            (MonitorState::Configuring, MonitorEvent::Configured) => (
                MonitorState::Subscribing,
                MonitorAction::Subscribe { pattern: String::from_str(SUBSCRIPTION_PATTERN) },
            ),
            (MonitorState::Subscribing, MonitorEvent::Subscribed) => (
                MonitorState::Waiting,
                MonitorAction::AwaitNotification,
            ),
            (MonitorState::Waiting, MonitorEvent::Notified) => (
                MonitorState::Reading,
                MonitorAction::ReadSnapshot,
            ),
            (MonitorState::Reading, MonitorEvent::SnapshotRead(services)) => (
                MonitorState::Writing,
                MonitorAction::WriteSnapshot(services),
            ),
            (MonitorState::Writing, MonitorEvent::Written) => (
                MonitorState::Waiting,
                MonitorAction::AwaitNotification,
            ),
            _ => (MonitorState::Stopped, MonitorAction::Stop),
        };
        self.state = state;
        action
    }
}

} // verus!
