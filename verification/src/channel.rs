//! The channels over which the delivery logic talks to tasks of the runtime.
//!
//! What comes back over a channel is decided by another task, so the items here
//! promise little: the functions that act on an answer take it as an argument.

use tokio::sync::{mpsc, oneshot};
use vstd::prelude::*;

use crate::backchannel::{BackchannelReply, BackchannelSendCommand, SendOutcome};
use crate::commands::LinkReply;

verus! {

/// The receiving half of a one-value channel, carried through unread.
#[verifier::external_type_specification]
#[verifier::external_body]
#[verifier::reject_recursive_types(T)]
pub struct ExOneshotReceiver<T>(oneshot::Receiver<T>);

/// The sending half of a one-value channel, carried through unread.
#[verifier::external_type_specification]
#[verifier::external_body]
#[verifier::reject_recursive_types(T)]
pub struct ExOneshotSender<T>(oneshot::Sender<T>);

/// The error of an awaited one-value receive, which the receiver's type mentions.
#[verifier::external_type_specification]
#[verifier::external_body]
pub struct ExRecvError(oneshot::error::RecvError);

/// The sending half of a bounded channel, carried through unread.
#[verifier::external_type_specification]
#[verifier::external_body]
#[verifier::reject_recursive_types(T)]
pub struct ExMpscSender<T>(mpsc::Sender<T>);

/// That these are the two halves of one channel for the answer to a send command.
pub uninterp spec fn backchannel_answer_channel(
    tx: oneshot::Sender<BackchannelReply>,
    rx: oneshot::Receiver<BackchannelReply>,
) -> bool;

/// `oneshot::channel` makes a channel for the answer to a send command. Its two halves
/// share one slot: what is sent on the first arrives at the second.
#[verifier::external_body]
pub(crate) fn new_backchannel_answer_channel() -> (halves: (
    oneshot::Sender<BackchannelReply>,
    oneshot::Receiver<BackchannelReply>,
))
    ensures
        backchannel_answer_channel(halves.0, halves.1),
{
    oneshot::channel()
}

/// That these are the two halves of one channel for the answer to a payload.
pub uninterp spec fn link_answer_channel(
    tx: oneshot::Sender<LinkReply>,
    rx: oneshot::Receiver<LinkReply>,
) -> bool;

/// `oneshot::channel` makes a channel for the answer to a payload. Its two halves share
/// one slot: what is sent on the first arrives at the second.
#[verifier::external_body]
pub(crate) fn new_link_answer_channel() -> (halves: (
    oneshot::Sender<LinkReply>,
    oneshot::Receiver<LinkReply>,
))
    ensures
        link_answer_channel(halves.0, halves.1),
{
    oneshot::channel()
}

/// `Clone` of `mpsc::Sender` makes another handle on the same channel. A handle
/// stands for the channel that it leads to, so the two are the same.
pub assume_specification<T>[ <mpsc::Sender<T> as Clone>::clone ](tx: &mpsc::Sender<T>) -> (cloned:
    mpsc::Sender<T>)
    ensures
        cloned == *tx,
;

/// What a look at a one-value channel found.
pub enum Poll<T> {
    /// The value was there and was taken.
    Ready(T),
    /// There is no value yet.
    Empty,
    /// There will never be a value.
    Closed,
}

/// That a look at the answer channel of a send command found this. It relates, and
/// does not determine: the same channel may be empty now and hold its value later.
pub uninterp spec fn backchannel_reply_seen(
    receiver: oneshot::Receiver<BackchannelReply>,
    found: Poll<BackchannelReply>,
) -> bool;

/// `oneshot::Receiver::try_recv` looks for the answer to a send command without
/// waiting. What it finds is up to the sending task; what is recorded is which
/// channel was looked at and what was found. A look that finds nothing yet leaves the
/// receiver as it was.
#[verifier::external_body]
pub(crate) fn poll_backchannel_reply(receiver: &mut oneshot::Receiver<BackchannelReply>) -> (found:
    Poll<BackchannelReply>)
    ensures
        backchannel_reply_seen(*old(receiver), found),
        found is Empty ==> *final(receiver) == *old(receiver),
{
    match receiver.try_recv() {
        Ok(value) => Poll::Ready(value),
        Err(oneshot::error::TryRecvError::Empty) => Poll::Empty,
        Err(oneshot::error::TryRecvError::Closed) => Poll::Closed,
    }
}

/// That a look at the answer channel of a link session found this. It relates, and
/// does not determine: the same channel may be empty now and hold its value later.
pub uninterp spec fn link_reply_seen(
    receiver: oneshot::Receiver<LinkReply>,
    found: Poll<LinkReply>,
) -> bool;

/// `oneshot::Receiver::try_recv` looks for the answer to a payload that goes over an
/// outbound link without waiting. What it finds is up to the sending task; what is
/// recorded is which channel was looked at and what was found. A look that finds
/// nothing yet leaves the receiver as it was.
#[verifier::external_body]
pub(crate) fn poll_link_reply(receiver: &mut oneshot::Receiver<LinkReply>) -> (found: Poll<
    LinkReply,
>)
    ensures
        link_reply_seen(*old(receiver), found),
        found is Empty ==> *final(receiver) == *old(receiver),
{
    match receiver.try_recv() {
        Ok(value) => Poll::Ready(value),
        Err(oneshot::error::TryRecvError::Empty) => Poll::Empty,
        Err(oneshot::error::TryRecvError::Closed) => Poll::Closed,
    }
}

/// An offer of a command to the runtime: over which channel it went, what the command
/// held, and how the offer ended.
#[verifier::ext_equal]
pub struct Offer {
    pub tx: mpsc::Sender<BackchannelSendCommand>,
    pub link_id: [u8; 16],
    pub payload: Seq<u8>,
    pub auto_compress: bool,
    pub result_tx: oneshot::Sender<BackchannelReply>,
    pub outcome: SendOutcome,
}

/// The way by which commands reach the runtime. It keeps a record of the offers, and
/// holds the channel to itself: no command goes over it that is not on record.
pub struct CommandSender {
    tx: mpsc::Sender<BackchannelSendCommand>,
    offered: Ghost<Seq<Offer>>,
}

impl CommandSender {
    /// The channel to the runtime.
    pub closed spec fn channel(self) -> mpsc::Sender<BackchannelSendCommand> {
        self.tx
    }

    /// All offers that were made, in order.
    pub closed spec fn offered(self) -> Seq<Offer> {
        self.offered@
    }

    /// A way over a channel, by which nothing was offered yet.
    pub(crate) fn new(tx: mpsc::Sender<BackchannelSendCommand>) -> (sender: Self)
        ensures
            sender.channel() == tx,
            sender.offered() == Seq::<Offer>::empty(),
    {
        CommandSender { tx, offered: Ghost(Seq::empty()) }
    }

    /// Makes further offers over another channel.
    pub(crate) fn redirect(&mut self, tx: mpsc::Sender<BackchannelSendCommand>)
        ensures
            final(self).channel() == tx,
            final(self).offered() == old(self).offered(),
    {
        self.tx = tx;
    }

    /// `mpsc::Sender::try_send` offers a command to the runtime without waiting. Whether
    /// there is room is up to the receiving task: the command is put on the channel, or
    /// handed back because the channel is full or closed. What is recorded is that this
    /// one command was offered to this channel, and how the offer ended.
    #[verifier::external_body]
    pub(crate) fn offer(&mut self, command: BackchannelSendCommand) -> (outcome: SendOutcome)
        ensures
            final(self).channel() == old(self).channel(),
            final(self).offered() == old(self).offered().push(
                (Offer {
                    tx: old(self).channel(),
                    link_id: command.link_id,
                    payload: command.payload@,
                    auto_compress: command.auto_compress,
                    result_tx: command.result_tx,
                    outcome,
                }),
            ),
    {
        match self.tx.try_send(command) {
            Ok(()) => SendOutcome::Sent,
            Err(mpsc::error::TrySendError::Full(_)) => SendOutcome::Full,
            Err(mpsc::error::TrySendError::Closed(_)) => SendOutcome::Closed,
        }
    }
}

} // verus!
