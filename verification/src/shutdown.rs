//! The single slot through which a running listener is told to stop.
use tokio::sync::oneshot::Sender;
use vstd::prelude::*;

verus! {

/// The sending half of tokio's one-shot channel, carried as an opaque value.
#[verifier::external_type_specification]
#[verifier::external_body]
#[verifier::reject_recursive_types(T)]
pub struct ExSender<T>(Sender<T>);

/// Calls `tokio::sync::oneshot::Sender::send` with the unit value and drops
/// what it returns.  Nothing is claimed of the call: whether the signal
/// arrives depends on whether the receiving half is still alive.
#[verifier::external_body]
fn fire(sender: Sender<()>) {
    let _ = sender.send(());
}

/// Holds at most one pending stop signal.
pub struct ShutdownSlot {
    sender: Option<Sender<()>>,
}

impl ShutdownSlot {
    /// Whether a signal is installed and has not been fired yet.
    pub closed spec fn is_installed(&self) -> bool {
        self.sender is Some
    }

    /// An empty slot.
    pub fn new() -> (slot: Self)
        ensures
            !slot.is_installed(),
    {
        ShutdownSlot { sender: None }
    }

    /// Whether a signal is waiting in the slot.
    pub fn has_signal(&self) -> (installed: bool)
        ensures
            installed == self.is_installed(),
    {
        self.sender.is_some()
    }

    /// Stores `sender`, replacing whatever the slot held.
    pub fn install(&mut self, sender: Sender<()>)
        ensures
            final(self).is_installed(),
    {
        self.sender = Some(sender);
    }

    /// Empties the slot and fires the signal it held, if any.  Says whether
    /// there was one.
    pub fn take_and_signal(&mut self) -> (was_present: bool)
        ensures
            was_present == old(self).is_installed(),
            !final(self).is_installed(),
    {
        match self.sender.take() {
            Some(sender) => {
                fire(sender);
                true
            },
            None => false,
        }
    }
}

} // verus!
