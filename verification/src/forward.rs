//! Forwarding of watched values and broadcast items. Payloads and the recovery from
//! lag are left to the caller.
use vstd::prelude::*;

verus! {

/// Why a watched value is forwarded.
#[derive(Debug, Clone, Copy, PartialEq, Eq, Structural)]
pub enum WatchPhase {
    Initial,
    Changed,
}

/// The forwarding of a watched value.
#[derive(Debug, Clone, Copy, PartialEq, Eq)]
pub enum WatchForward {
    /// Nothing was forwarded yet.
    Fresh,
    /// The value is forwarded whenever it changes.
    Following,
    /// The source is closed.
    Ended,
}

impl WatchForward {
    /// What is done next, and what is forwarded.
    pub open spec fn step(self, changed: bool) -> (WatchForward, Option<WatchPhase>) {
        match self {
            WatchForward::Fresh => (WatchForward::Following, Some(WatchPhase::Initial)),
            WatchForward::Following => if changed {
                (WatchForward::Following, Some(WatchPhase::Changed))
            } else {
                (WatchForward::Ended, None)
            },
            WatchForward::Ended => (WatchForward::Ended, None),
        }
    }

    /// How the forwarding stands after some steps.
    pub open spec fn after(self, changes: Seq<bool>) -> WatchForward
        decreases changes.len(),
    {
        if changes.len() == 0 {
            self
        } else {
            self.after(changes.drop_last()).step(changes.last()).0
        }
    }

    /// What is done next. The flag tells whether the source announced a change before
    /// it closed; the value that it has at first is forwarded in any case.
    pub fn next(self, changed: bool) -> (r: (WatchForward, Option<WatchPhase>))
        ensures
            r == self.step(changed),
    {
        match self {
            WatchForward::Fresh => (WatchForward::Following, Some(WatchPhase::Initial)),
            WatchForward::Following => if changed {
                (WatchForward::Following, Some(WatchPhase::Changed))
            } else {
                (WatchForward::Ended, None)
            },
            WatchForward::Ended => (WatchForward::Ended, None),
        }
    }
}

/// What a broadcast delivers.
#[derive(Debug, PartialEq, Eq)]
pub enum BroadcastEvent<T> {
    Item(T),
    Lagged(u64),
}

/// What the receiver of a broadcast got.
#[derive(Debug, PartialEq, Eq)]
pub enum Received<T> {
    Item(T),
    /// So many items were missed.
    Lagged(u64),
    Closed,
}

/// What is forwarded of a broadcast.
pub open spec fn broadcast<T>(received: Received<T>) -> Option<BroadcastEvent<T>> {
    match received {
        Received::Item(item) => Some(BroadcastEvent::Item(item)),
        Received::Lagged(count) => Some(BroadcastEvent::Lagged(count)),
        Received::Closed => None,
    }
}

/// What is forwarded of a broadcast. Lag is delivered, never skipped in silence, and
/// nothing follows once the source is closed.
pub fn broadcast_event<T>(received: Received<T>) -> (r: Option<BroadcastEvent<T>>)
    ensures
        r == broadcast(received),
{
    match received {
        Received::Item(item) => Some(BroadcastEvent::Item(item)),
        Received::Lagged(count) => Some(BroadcastEvent::Lagged(count)),
        Received::Closed => None,
    }
}

/// A watched value is forwarded once as it is at first, and then each time that it
/// changes, until the source closes; from then on nothing is.
pub proof fn watched_values_are_followed(changes: Seq<bool>, changed: bool)
    ensures
        WatchForward::Fresh.after(changes).step(changed).1 == if changes.len() == 0 {
            Some(WatchPhase::Initial)
        } else if changed && forall|i: int| 1 <= i < changes.len() ==> #[trigger] changes[i] {
            Some(WatchPhase::Changed)
        } else {
            None
        },
        WatchForward::Fresh.after(changes) is Fresh <==> changes.len() == 0,
        WatchForward::Fresh.after(changes) is Ended <==> exists|i: int|
            1 <= i < changes.len() && !#[trigger] changes[i],
    decreases changes.len(),
{
    if changes.len() > 0 {
        let earlier = changes.drop_last();
        let last = changes.len() - 1;
        watched_values_are_followed(earlier, changes[last]);
        if WatchForward::Fresh.after(earlier) is Ended {
            let i = choose|i: int| 1 <= i < earlier.len() && !#[trigger] earlier[i];
            assert(!changes[i]);
        }
        if WatchForward::Fresh.after(changes) is Ended && !(WatchForward::Fresh.after(
            earlier,
        ) is Ended) {
            assert(!changes[last]);
        }
        if exists|i: int| 1 <= i < changes.len() && !#[trigger] changes[i] {
            let i = choose|i: int| 1 <= i < changes.len() && !#[trigger] changes[i];
            if i < last {
                assert(!earlier[i]);
            }
        }
    }
}

/// The receiver of a broadcast gets each item as it was sent, learns how many it missed,
/// and gets nothing just when the source is closed.
pub proof fn broadcasts_are_passed_on<T>(received: Received<T>)
    ensures
        broadcast(received) is None <==> received is Closed,
        received matches Received::Item(item) ==> broadcast(received) == Some(
            BroadcastEvent::Item(item),
        ),
        received matches Received::Lagged(count) ==> broadcast(received) == Some(
            BroadcastEvent::<T>::Lagged(count),
        ),
{
}

} // verus!
