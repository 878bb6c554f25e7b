//! Flush triggering: a flag that asks for a flush of the in-memory table,
//! and the messages to the background flush worker.
use std::sync::mpsc::Sender;
use vstd::prelude::*;

verus! {

/// Message to the background flush worker.
#[derive(Debug, Clone, Copy, PartialEq, Eq, Structural)]
pub enum FlushMessage {
    /// Flush now.
    Trigger,
    /// Stop the worker.
    Stop,
}

#[verifier::external_type_specification]
#[verifier::external_body]
#[verifier::reject_recursive_types(T)]
pub struct ExSender<T>(Sender<T>);

/// Whether the message `m` was handed to the channel of `s`.
pub uninterp spec fn handed(s: Sender<FlushMessage>, m: FlushMessage) -> bool;

/// `Sender::send`: hands `m` to the worker's channel; true where the
/// channel took it, and then `m` is what it took. Whether it takes it
/// depends on the worker still listening, so success is not stated.
#[verifier::external_body]
fn send_message(sender: &Sender<FlushMessage>, m: FlushMessage) -> (r: bool)
    ensures
        r ==> handed(*sender, m),
{
    sender.send(m).is_ok()
}

/// The flush flag and, where a worker runs, the channel to it.
pub struct FlushTrigger {
    trigger: bool,
    sender: Option<Sender<FlushMessage>>,
}

impl FlushTrigger {
    /// Whether a flush is requested.
    pub closed spec fn requested(&self) -> bool {
        self.trigger
    }

    /// Whether a worker channel is attached.
    pub closed spec fn has_worker(&self) -> bool {
        self.sender is Some
    }

    /// Whether the worker channel took the message `m`.
    pub closed spec fn took(&self, m: FlushMessage) -> bool {
        match self.sender {
            Some(s) => handed(s, m),
            None => false,
        }
    }

    /// A trigger with no flush requested and no worker.
    pub fn new() -> (t: Self)
        ensures
            !t.requested(),
            !t.has_worker(),
    {
        FlushTrigger { trigger: false, sender: None }
    }

    /// A trigger with no flush requested that talks to a worker through
    /// `sender`.
    pub fn with_sender(sender: Sender<FlushMessage>) -> (t: Self)
        ensures
            !t.requested(),
            t.has_worker(),
    {
        FlushTrigger { trigger: false, sender: Some(sender) }
    }

    /// Whether a flush is requested.
    pub fn is_requested(&self) -> (r: bool)
        ensures
            r == self.requested(),
    {
        self.trigger
    }

    /// Marks the requested flush as done.
    pub fn mark_completed(&mut self)
        ensures
            !final(self).requested(),
            final(self).has_worker() == old(self).has_worker(),
    {
        self.trigger = false;
    }

    /// Requests a flush.
    pub fn request(&mut self)
        ensures
            final(self).requested(),
            final(self).has_worker() == old(self).has_worker(),
    {
        self.trigger = true;
    }

    /// Sends a flush trigger message to the worker; true where its channel
    /// took it, false where there is no worker or it is no longer
    /// listening.
    pub fn send_trigger(&self) -> (r: bool)
        ensures
            !self.has_worker() ==> !r,
            r ==> self.took(FlushMessage::Trigger),
    {
        match &self.sender {
            Some(s) => send_message(s, FlushMessage::Trigger),
            None => false,
        }
    }

    /// Tells the worker to stop, where there is one; true where its channel
    /// took the stop message.
    pub fn stop(&self) -> (r: bool)
        ensures
            !self.has_worker() ==> !r,
            r ==> self.took(FlushMessage::Stop),
    {
        match &self.sender {
            Some(s) => send_message(s, FlushMessage::Stop),
            None => false,
        }
    }
}

impl Default for FlushTrigger {
    fn default() -> (t: Self)
        ensures
            !t.requested(),
            !t.has_worker(),
    {
        FlushTrigger::new()
    }
}

/// What the background worker does next.
#[derive(Debug, Clone, Copy, PartialEq, Eq, Structural)]
pub enum FlushStep {
    /// Leave the loop.
    Stop,
    /// Request a flush.
    RequestFlush,
    /// Nothing this round.
    Idle,
}

/// The worker's decision on one round: `message` is what arrived before
/// the interval ran out (none on a timeout), `should_flush` what the
/// in-memory table answered. A stop message stops the worker, a trigger
/// message requests a flush, and a timeout requests one where the table
/// should be flushed.
pub fn background_step(message: Option<FlushMessage>, should_flush: bool) -> (s: FlushStep)
    ensures
        s == (match message {
            Some(FlushMessage::Stop) => FlushStep::Stop,
            Some(FlushMessage::Trigger) => FlushStep::RequestFlush,
            None => if should_flush { FlushStep::RequestFlush } else { FlushStep::Idle },
        }),
{
    match message {
        Some(FlushMessage::Stop) => FlushStep::Stop,
        Some(FlushMessage::Trigger) => FlushStep::RequestFlush,
        None => if should_flush { FlushStep::RequestFlush } else { FlushStep::Idle },
    }
}

} // verus!
