//! The command channel between the user interface and the audio thread.
//!
//! The channel has unbounded capacity, so sending never waits. Each half
//! keeps a record of its traffic: the sender, of the commands it enqueued
//! and of whether it has found the channel disconnected; the receiver, of
//! the commands it took. Only the calls into `crossbeam_channel` here move
//! those records.

use vstd::prelude::*;
use crate::audio::engine::EngineCommand;

verus! {

/// The sending half of a `crossbeam_channel` channel.
#[verifier::external_type_specification]
#[verifier::external_body]
#[verifier::reject_recursive_types(T)]
pub struct ExSender<T>(crossbeam_channel::Sender<T>);

/// The receiving half of a `crossbeam_channel` channel.
#[verifier::external_type_specification]
#[verifier::external_body]
#[verifier::reject_recursive_types(T)]
pub struct ExReceiver<T>(crossbeam_channel::Receiver<T>);

/// Calls `crossbeam_channel::unbounded`, which creates a channel of
/// unbounded capacity and returns its two halves. Nothing is claimed of them.
#[verifier::external_body]
fn unbounded_channel<T>() -> (crossbeam_channel::Sender<T>, crossbeam_channel::Receiver<T>) {
    crossbeam_channel::unbounded()
}

/// The sending half of a command channel of unbounded capacity, with the
/// record of the commands enqueued through it, in order.
///
/// Its only constructor is [`command_channel`], which makes the channel with
/// `crossbeam_channel::unbounded`: sending on it never waits for room.
#[verifier::reject_recursive_types(T)]
pub struct CommandSender<T> {
    tx: crossbeam_channel::Sender<EngineCommand<T>>,
    sent: Ghost<Seq<EngineCommand<T>>>,
    disconnected: Ghost<bool>,
}

impl<T> CommandSender<T> {
    /// The channel's sender.
    pub closed spec fn channel(&self) -> crossbeam_channel::Sender<EngineCommand<T>> {
        self.tx
    }

    /// The commands enqueued on the channel through this sender, in order.
    pub closed spec fn sent(&self) -> Seq<EngineCommand<T>> {
        self.sent@
    }

    /// Whether a send through this sender has found the channel
    /// disconnected: every receiver was gone. A channel never reconnects.
    pub closed spec fn disconnected(&self) -> bool {
        self.disconnected@
    }
}

/// Creates a command channel of unbounded capacity: the sender for an
/// [`AudioEngine`] and the receiver for the audio thread, neither of which
/// has carried a command yet.
pub fn command_channel<T>() -> (r: (CommandSender<T>, CommandReceiver<T>))
    ensures
        r.0.sent() == Seq::<EngineCommand<T>>::empty(),
        !r.0.disconnected(),
        r.1.received() == Seq::<EngineCommand<T>>::empty(),
{
    let (tx, rx) = unbounded_channel();
    (
        CommandSender { tx, sent: Ghost(Seq::empty()), disconnected: Ghost(false) },
        CommandReceiver { rx, received: Ghost(Seq::empty()) })
}

/// Calls `crossbeam_channel::Sender::send` on the unbounded sender held by
/// `tx`. On an unbounded channel the call never waits: it enqueues the
/// message or, when every receiver is gone, fails and hands the message
/// back unsent. A disconnected channel stays disconnected: no receiver can
/// be made again once all are dropped. The claims:
/// - on success the message is enqueued, so it is appended to the record of
///   `tx`, and the channel was not known to be disconnected;
/// - on failure the very message comes back, nothing is enqueued, and the
///   channel is disconnected;
/// - once the channel is known to be disconnected, every send fails;
/// - the sender itself never changes.
/// Whether a send to a channel not yet known to be disconnected fails
/// depends on the receiving side and is not stated.
#[verifier::external_body]
pub(crate) fn channel_send<T>(tx: &mut CommandSender<T>, msg: EngineCommand<T>) -> (r: Result<
    (),
    EngineCommand<T>,
>)
    ensures
        final(tx).channel() == old(tx).channel(),
        old(tx).disconnected() ==> r is Err,
        r is Ok ==> final(tx).sent() == old(tx).sent().push(msg) && final(tx).disconnected()
            == old(tx).disconnected(),
        r matches Err(m) ==> m == msg && final(tx).sent() == old(tx).sent()
            && final(tx).disconnected(),
{
    tx.tx.send(msg).map_err(|e| e.0)
}

/// The receiving half of a command channel, with the record of the commands
/// taken from it, in order.
///
/// Its only constructor is [`command_channel`].
#[verifier::reject_recursive_types(T)]
pub struct CommandReceiver<T> {
    rx: crossbeam_channel::Receiver<EngineCommand<T>>,
    received: Ghost<Seq<EngineCommand<T>>>,
}

impl<T> CommandReceiver<T> {
    /// The channel's receiver.
    pub closed spec fn channel(&self) -> crossbeam_channel::Receiver<EngineCommand<T>> {
        self.rx
    }

    /// The commands taken from the channel through this receiver, in order.
    pub closed spec fn received(&self) -> Seq<EngineCommand<T>> {
        self.received@
    }

    /// Takes the next waiting command, if any, without blocking. A command
    /// taken is appended to the record; which one comes, if any, depends on
    /// the sending side.
    pub fn try_receive(&mut self) -> (r: Option<EngineCommand<T>>)
        ensures
            final(self).channel() == old(self).channel(),
            r matches Some(m) ==> final(self).received() == old(self).received().push(m),
            r is None ==> final(self).received() == old(self).received(),
    {
        channel_try_recv(self)
    }
}

/// Calls `crossbeam_channel::Receiver::len` on the receiver held by `rx`:
/// the number of messages waiting in the channel at the time of the call.
/// Other threads may change that number at any time, so nothing is claimed
/// of it.
#[verifier::external_body]
pub(crate) fn channel_len<T>(rx: &CommandReceiver<T>) -> usize {
    rx.rx.len()
}

/// Calls `crossbeam_channel::Receiver::try_recv` on the receiver held by
/// `rx`, which takes the next waiting message without blocking; both of its
/// errors (no message waiting, every sender gone) become `None`. The claims:
/// a message taken is appended to the record of `rx`; when none is taken,
/// the record stays; the receiver itself never changes. Which message comes,
/// if any, depends on other threads and is not stated.
#[verifier::external_body]
fn channel_try_recv<T>(rx: &mut CommandReceiver<T>) -> (r: Option<EngineCommand<T>>)
    ensures
        final(rx).channel() == old(rx).channel(),
        r matches Some(m) ==> final(rx).received() == old(rx).received().push(m),
        r is None ==> final(rx).received() == old(rx).received(),
{
    rx.rx.try_recv().ok()
}

} // verus!
