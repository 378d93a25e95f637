//! Watching for changes: when a change leads to a sync.

use vstd::prelude::*;

verus! {

/// How long to wait after a change for further ones to arrive, in milliseconds.
pub const SETTLE_MILLIS: u64 = 100;

/// How long after a sync further changes do not lead to another, in nanoseconds.
pub const DEBOUNCE_NANOS: u128 = 500000000;

/// What has happened. Times are in nanoseconds, on a clock that never goes back.
#[derive(Clone, Copy, Debug, PartialEq, Eq, Structural)]
pub enum WatchEvent {
    /// Something was changed.
    Changed,
    /// The watcher reported an error.
    Failed,
    /// The watcher reports nothing any more.
    Closed,
    /// The changes of the moment have arrived.
    Settled { now: u128 },
    /// A sync has ended, with success or without.
    Synced { now: u128 },
}

/// What to do next.
#[derive(Clone, Copy, Debug, PartialEq, Eq, Structural)]
pub enum WatchAction {
    /// Wait for the watcher.
    Wait,
    /// Let the changes of the moment arrive.
    Settle,
    /// Report the watcher's error.
    Report,
    /// Push the changes.
    Sync,
}

/// When the last sync ended, or the watch began.
#[derive(Clone, Copy, Debug, PartialEq, Eq, Structural)]
pub struct Watch {
    pub last: u128,
}

/// Whether changes at `now` lead to a sync.
pub open spec fn is_due(watch: Watch, now: u128) -> bool {
    now - watch.last > DEBOUNCE_NANOS
}

/// The step after an event.
pub open spec fn next_watch(watch: Watch, event: WatchEvent) -> (Watch, WatchAction) {
    match event {
        WatchEvent::Changed => (watch, WatchAction::Settle),
        WatchEvent::Failed => (watch, WatchAction::Report),
        WatchEvent::Closed => (watch, WatchAction::Wait),
        WatchEvent::Settled { now } => (
            watch,
            if is_due(watch, now) {
                WatchAction::Sync
            } else {
                WatchAction::Wait
            },
        ),
        WatchEvent::Synced { now } => (Watch { last: now }, WatchAction::Wait),
    }
}

impl Watch {
    /// A watch that begins at `now`.
    pub fn new(now: u128) -> (r: Watch)
        ensures
            r == (Watch { last: now }),
    {
        Watch { last: now }
    }

    /// Decides what to do after an event.
    pub fn step(&mut self, event: WatchEvent) -> (r: WatchAction)
        ensures
            (*final(self), r) == next_watch(*old(self), event),
    {
        match event {
            WatchEvent::Changed => WatchAction::Settle,
            WatchEvent::Failed => WatchAction::Report,
            WatchEvent::Closed => WatchAction::Wait,
            WatchEvent::Settled { now } => {
                if now > self.last && now - self.last > DEBOUNCE_NANOS {
                    WatchAction::Sync
                } else {
                    WatchAction::Wait
                }
            },
            WatchEvent::Synced { now } => {
                self.last = now;
                WatchAction::Wait
            },
        }
    }
}

/// The watch after a row of events.
pub open spec fn watch_after(watch: Watch, events: Seq<WatchEvent>) -> Watch
    decreases events.len(),
{
    if events.len() == 0 {
        watch
    } else {
        next_watch(watch_after(watch, events.drop_last()), events.last()).0
    }
}

/// However many changes arrive, no sync begins within half a second of the end of the one before,
/// and one that is asked for later does begin.
pub proof fn law_syncs_keep_their_distance(
    watch: Watch,
    ended: u128,
    events: Seq<WatchEvent>,
    now: u128,
)
    requires
        forall|i: int| 0 <= i < events.len() ==> !(#[trigger] events[i] is Synced),
    ensures
        ({
            let synced = next_watch(watch, WatchEvent::Synced { now: ended }).0;
            let later = watch_after(synced, events);
            next_watch(later, WatchEvent::Settled { now }).1 is Sync <==> now - ended > 500000000
        }),
    decreases events.len(),
{
    if events.len() > 0 {
        let before = events.drop_last();
        assert(forall|i: int| 0 <= i < before.len() ==> before[i] == events[i]);
        law_syncs_keep_their_distance(watch, ended, before, now);
        assert(!(events[events.len() - 1] is Synced));
    }
}

/// Each change is left to settle for a tenth of a second, and what comes of it is a sync or nothing;
/// an error is reported and changes nothing; only the end of a sync starts the time anew.
pub proof fn law_what_a_watch_does(watch: Watch, now: u128)
    ensures
        SETTLE_MILLIS == 100,
        next_watch(watch, WatchEvent::Changed) == (watch, WatchAction::Settle),
        next_watch(watch, WatchEvent::Failed) == (watch, WatchAction::Report),
        next_watch(watch, WatchEvent::Closed) == (watch, WatchAction::Wait),
        next_watch(watch, WatchEvent::Synced { now }) == (Watch { last: now }, WatchAction::Wait),
        now - watch.last > 500000000 ==> next_watch(watch, WatchEvent::Settled { now }) == (
            watch,
            WatchAction::Sync,
        ),
        now - watch.last <= 500000000 ==> next_watch(watch, WatchEvent::Settled { now }) == (
            watch,
            WatchAction::Wait,
        ),
{
}

} // verus!
