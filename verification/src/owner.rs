//! The loss of bus owners: which changes of ownership count, and how a wait for the
//! loss of an owner goes on.
use vstd::prelude::*;

use crate::text::{chars_of, decimal, decimal_text, push_text, same_text};

verus! {

/// A change of ownership of a name on the bus. An empty owner is none.
#[derive(Debug, PartialEq, Eq)]
pub struct OwnerChange {
    pub name: String,
    pub old: String,
    pub new: String,
}

/// Whether a change is the loss of a unique name.
pub open spec fn loses_owner(name: Seq<char>, old_owner: Seq<char>, new_owner: Seq<char>) -> bool {
    name.len() > 0 && name[0] == ':' && old_owner.len() > 0 && new_owner.len() == 0
}

/// Whether a change is the loss of a unique name.
pub fn is_owner_loss(change: &OwnerChange) -> (r: bool)
    ensures
        r == loses_owner(change.name@, change.old@, change.new@),
{
    let name = chars_of(change.name.as_str());
    name.len() > 0 && name[0] == ':' && !change.old.as_str().is_empty()
        && change.new.as_str().is_empty()
}

/// Whether a change takes a watched name from its owner.
pub open spec fn replaces_owner(
    watched: Seq<char>,
    name: Seq<char>,
    old_owner: Seq<char>,
    new_owner: Seq<char>,
) -> bool {
    name == watched && old_owner.len() > 0 && old_owner != new_owner
}

/// Whether a change takes a watched name from its owner.
pub fn is_replacement(watched: &str, change: &OwnerChange) -> (r: bool)
    ensures
        r == replaces_owner(watched@, change.name@, change.old@, change.new@),
{
    same_text(change.name.as_str(), watched) && !change.old.as_str().is_empty() && !same_text(
        change.old.as_str(),
        change.new.as_str(),
    )
}

/// The name that is lost by a change, if one could be decoded.
pub open spec fn loss_of(change: Option<OwnerChange>) -> Option<String> {
    match change {
        Some(change) => if loses_owner(change.name@, change.old@, change.new@) {
            Some(change.name)
        } else {
            None
        },
        None => None,
    }
}

/// What a monitor publishes of a signal, which is skipped if it could not be decoded:
/// the name that was lost.
pub fn published_loss(change: Option<OwnerChange>) -> (r: Option<String>)
    ensures
        r == loss_of(change),
{
    match change {
        Some(change) => if is_owner_loss(&change) {
            Some(change.name)
        } else {
            None
        },
        None => None,
    }
}

/// Why no loss was received.
#[derive(Debug, Clone, Copy, PartialEq, Eq, Structural)]
pub enum OwnerLossError {
    Lagged(u64),
    Stopped,
}

impl OwnerLossError {
    /// What the error says.
    pub open spec fn text(&self) -> Seq<char> {
        match *self {
            OwnerLossError::Lagged(count) => "missed "@ + decimal(count as nat)
                + " D-Bus owner losses"@,
            OwnerLossError::Stopped => "D-Bus owner monitor stopped"@,
        }
    }

    /// What the error says.
    pub fn message(&self) -> (r: String)
        ensures
            r@ == self.text(),
    {
        match self {
            OwnerLossError::Lagged(count) => {
                let mut r = "missed ".to_owned();
                push_text(&mut r, decimal_text(*count).as_str());
                push_text(&mut r, " D-Bus owner losses");
                r
            },
            OwnerLossError::Stopped => "D-Bus owner monitor stopped".to_owned(),
        }
    }
}

/// What the receiver of losses got.
#[derive(Debug, PartialEq, Eq)]
pub enum LossSignal {
    Lost(String),
    Lagged(u64),
    Closed,
}

/// The outcome for a receiver of losses.
pub open spec fn loss_outcome(stopped: bool, signal: LossSignal) -> Result<String, OwnerLossError> {
    if stopped {
        Err(OwnerLossError::Stopped)
    } else {
        match signal {
            LossSignal::Lost(name) => Ok(name),
            LossSignal::Lagged(count) => Err(OwnerLossError::Lagged(count)),
            LossSignal::Closed => Err(OwnerLossError::Stopped),
        }
    }
}

/// The outcome for a receiver of losses. A monitor that has stopped, before or while
/// the receiver waited, outweighs whatever else it got.
pub fn received_loss(stopped: bool, signal: LossSignal) -> (r: Result<String, OwnerLossError>)
    ensures
        r == loss_outcome(stopped, signal),
{
    if stopped {
        return Err(OwnerLossError::Stopped);
    }
    match signal {
        LossSignal::Lost(name) => Ok(name),
        LossSignal::Lagged(count) => Err(OwnerLossError::Lagged(count)),
        LossSignal::Closed => Err(OwnerLossError::Stopped),
    }
}

/// What a wait for the loss of an owner got.
#[derive(Debug, PartialEq, Eq)]
pub enum WaitEvent {
    /// Losses are received from now on.
    Subscribed,
    /// Whether the owner exists.
    HasOwner(bool),
    Received(Result<String, OwnerLossError>),
}

/// What a wait for the loss of an owner does next.
#[derive(Debug, Clone, Copy, PartialEq, Eq, Structural)]
pub enum WaitAction {
    /// Ask whether the owner exists.
    CheckOwner,
    /// Wait for a loss.
    Receive,
    /// The owner is lost.
    Lost,
    /// The monitor failed.
    Fail(OwnerLossError),
}

/// What a wait for the loss of an owner does next. Ownership is checked once losses
/// are received, which leaves no gap, and again whenever losses were missed.
pub open spec fn wait_action(owner: Seq<char>, event: WaitEvent) -> WaitAction {
    match event {
        WaitEvent::Subscribed => WaitAction::CheckOwner,
        WaitEvent::HasOwner(true) => WaitAction::Receive,
        WaitEvent::HasOwner(false) => WaitAction::Lost,
        WaitEvent::Received(Ok(name)) => if name@ == owner {
            WaitAction::Lost
        } else {
            WaitAction::Receive
        },
        WaitEvent::Received(Err(OwnerLossError::Lagged(_))) => WaitAction::CheckOwner,
        WaitEvent::Received(Err(OwnerLossError::Stopped)) => WaitAction::Fail(
            OwnerLossError::Stopped,
        ),
    }
}

/// What a wait for the loss of an owner does next.
pub fn wait(owner: &str, event: WaitEvent) -> (action: WaitAction)
    ensures
        action == wait_action(owner@, event),
{
    match event {
        WaitEvent::Subscribed => WaitAction::CheckOwner,
        WaitEvent::HasOwner(exists_now) => if exists_now {
            WaitAction::Receive
        } else {
            WaitAction::Lost
        },
        WaitEvent::Received(Ok(name)) => if same_text(name.as_str(), owner) {
            WaitAction::Lost
        } else {
            WaitAction::Receive
        },
        WaitEvent::Received(Err(OwnerLossError::Lagged(_))) => WaitAction::CheckOwner,
        WaitEvent::Received(Err(OwnerLossError::Stopped)) => WaitAction::Fail(
            OwnerLossError::Stopped,
        ),
    }
}

/// A stopped monitor ends every wait with an error, whatever else was received: no
/// wait stays pending for good.
pub proof fn stopped_monitors_end_waits(owner: Seq<char>, received: Result<String, OwnerLossError>)
    requires
        received == Err::<String, _>(OwnerLossError::Stopped),
    ensures
        wait_action(owner, WaitEvent::Received(received)) == WaitAction::Fail(
            OwnerLossError::Stopped,
        ),
{
}

/// A wait ends well only for the loss of its own owner, by name or by a check.
pub proof fn waits_end_for_their_owner(owner: Seq<char>, event: WaitEvent)
    requires
        wait_action(owner, event) is Lost,
    ensures
        event == WaitEvent::HasOwner(false) || (event matches WaitEvent::Received(Ok(name))
            && name@ == owner),
{
}

/// A unique name is lost when its owner goes and nobody takes its place; other names, and
/// names that had no owner or have one still, are not lost.
pub proof fn losses_leave_no_owner(rest: Seq<char>, old_owner: Seq<char>, new_owner: Seq<char>)
    ensures
        loses_owner(seq![':'] + rest, old_owner, new_owner) <==> old_owner != Seq::<char>::empty()
            && new_owner == Seq::<char>::empty(),
        rest.len() > 0 && rest[0] != ':' ==> !loses_owner(rest, old_owner, new_owner),
        !loses_owner(Seq::empty(), old_owner, new_owner),
{
    if old_owner.len() == 0 {
        assert(old_owner =~= Seq::empty());
    }
    if new_owner.len() == 0 {
        assert(new_owner =~= Seq::empty());
    }
}

/// A watched name is replaced when it had an owner and no longer has that one, whether it
/// went to another or to nobody; other names do not matter.
pub proof fn replacements_change_the_owner(
    watched: Seq<char>,
    name: Seq<char>,
    old_owner: Seq<char>,
    new_owner: Seq<char>,
)
    ensures
        replaces_owner(watched, watched, old_owner, new_owner) <==> old_owner
            != Seq::<char>::empty() && old_owner != new_owner,
        name != watched ==> !replaces_owner(watched, name, old_owner, new_owner),
        old_owner.len() > 0 ==> replaces_owner(watched, watched, old_owner, Seq::empty()),
{
    if old_owner.len() == 0 {
        assert(old_owner =~= Seq::empty());
    }
}

/// A monitor publishes the name that was lost, and nothing of other changes or of a signal
/// that could not be decoded.
pub proof fn losses_are_published_by_name(change: OwnerChange, rest: Seq<char>)
    requires
        change.name@ == seq![':'] + rest,
    ensures
        change.old@.len() > 0 && change.new@.len() == 0 ==> loss_of(Some(change)) == Some(
            change.name,
        ),
        change.old@.len() == 0 || change.new@.len() > 0 ==> loss_of(Some(change)) is None,
        loss_of(None) is None,
{
}

/// A receiver gets the name that was lost, or learns how many losses it missed; once the
/// monitor has stopped it learns that and nothing else.
pub proof fn losses_are_received_until_the_monitor_stops(stopped: bool, signal: LossSignal)
    ensures
        loss_outcome(stopped, signal) == Err::<String, _>(OwnerLossError::Stopped) <==> stopped
            || signal is Closed,
        !stopped ==> (signal matches LossSignal::Lost(name) ==> loss_outcome(stopped, signal)
            == Ok::<_, OwnerLossError>(name)),
        !stopped ==> (signal matches LossSignal::Lagged(count) ==> loss_outcome(stopped, signal)
            == Err::<String, _>(OwnerLossError::Lagged(count))),
{
}

/// A wait checks for the owner once it receives losses and whenever it missed some,
/// receives on while the owner exists or others are lost, and ends when its own is.
pub proof fn waits_go_on_until_the_owner_is_lost(owner: Seq<char>, name: String, count: u64)
    ensures
        wait_action(owner, WaitEvent::Subscribed) is CheckOwner,
        wait_action(owner, WaitEvent::Received(Err(OwnerLossError::Lagged(count)))) is CheckOwner,
        wait_action(owner, WaitEvent::HasOwner(true)) is Receive,
        wait_action(owner, WaitEvent::HasOwner(false)) is Lost,
        name@ != owner ==> wait_action(owner, WaitEvent::Received(Ok(name))) is Receive,
        wait_action(name@, WaitEvent::Received(Ok(name))) is Lost,
{
}

/// A receiver that missed losses is told how many.
pub proof fn missed_losses_are_told(count: u64)
    ensures
        OwnerLossError::Lagged(count).text() == "missed "@ + decimal(count as nat)
            + " D-Bus owner losses"@,
        OwnerLossError::Stopped.text() == "D-Bus owner monitor stopped"@,
{
}

} // verus!
