//! How a payload goes over an outbound link: the sender identifies itself before the
//! payload or after it was delivered, and what came of the payload is answered.
//!
//! The runtime adapter performs the actions and reports how each went; what follows is
//! decided here.

use vstd::prelude::*;

use crate::commands::{LinkPayloadSendReceipt, LinkReply};
use crate::session::reply_view;

verus! {

/// What the adapter has to do now.
#[derive(Debug, Clone, Copy, PartialEq, Eq, Structural)]
pub enum SendAction {
    /// Identify the sender to the other side.
    Identify,
    /// Send the payload and wait until it is proved or lost.
    SendPayload,
}

/// How an action went.
pub enum SendEvent {
    Identified(Result<(), String>),
    Sent(LinkReply),
}

/// How far a send has come.
#[derive(Debug, Clone, Copy, PartialEq, Eq, Structural)]
pub enum SendStage {
    /// The sender is identified before the payload is sent.
    IdentifyFirst,
    /// The payload is being sent, and that is all.
    SendOnly,
    /// The payload is being sent, and the sender is identified afterwards.
    SendThenIdentify,
    /// The payload was delivered, and the sender is being identified.
    IdentifyLast(LinkPayloadSendReceipt),
}

/// What follows an event: another action, or the answer.
pub enum SendStep {
    Continue(SendStage),
    Answer(LinkReply),
}

/// The mathematical content of a [`SendStep`].
pub enum SendStepView {
    Continue(SendStage),
    Answer(Result<LinkPayloadSendReceipt, Seq<char>>),
}

impl View for SendStep {
    type V = SendStepView;

    open spec fn view(&self) -> SendStepView {
        match self {
            SendStep::Continue(stage) => SendStepView::Continue(*stage),
            SendStep::Answer(reply) => SendStepView::Answer(reply_view(*reply)),
        }
    }
}

impl SendStage {
    /// Where a send begins.
    pub open spec fn first(identify_before_send: bool) -> Self {
        if identify_before_send {
            SendStage::IdentifyFirst
        } else {
            SendStage::SendThenIdentify
        }
    }

    /// The action of a stage.
    pub open spec fn action_of(self) -> SendAction {
        match self {
            SendStage::IdentifyFirst | SendStage::IdentifyLast(_) => SendAction::Identify,
            SendStage::SendOnly | SendStage::SendThenIdentify => SendAction::SendPayload,
        }
    }

    /// What follows an event. Without an identification that has to come first nothing
    /// is sent; one that comes last changes nothing about the answer.
    pub open spec fn after(self, event: SendEvent) -> SendStepView {
        match (self, event) {
            (SendStage::IdentifyFirst, SendEvent::Identified(Ok(_))) => SendStepView::Continue(
                SendStage::SendOnly,
            ),
            (SendStage::IdentifyFirst, SendEvent::Identified(Err(reason))) => {
                SendStepView::Answer(Err(reason@))
            },
            (SendStage::SendThenIdentify, SendEvent::Sent(Ok(receipt))) => {
                SendStepView::Continue(SendStage::IdentifyLast(receipt))
            },
            (_, SendEvent::Sent(reply)) => SendStepView::Answer(reply_view(reply)),
            (SendStage::IdentifyLast(receipt), _) => SendStepView::Answer(Ok(receipt)),
            (_, SendEvent::Identified(_)) => SendStepView::Continue(self),
        }
    }

    /// Begins a send.
    pub fn begin(identify_before_send: bool) -> (stage: Self)
        ensures
            stage == Self::first(identify_before_send),
    {
        if identify_before_send {
            SendStage::IdentifyFirst
        } else {
            SendStage::SendThenIdentify
        }
    }

    /// What the adapter has to do at this stage.
    pub fn action(&self) -> (action: SendAction)
        ensures
            action == self.action_of(),
    {
        match self {
            SendStage::IdentifyFirst | SendStage::IdentifyLast(_) => SendAction::Identify,
            SendStage::SendOnly | SendStage::SendThenIdentify => SendAction::SendPayload,
        }
    }

    /// What follows the event that tells how the action of this stage went. An event of
    /// another action than that of this stage has no say: a payload that was answered is
    /// answered for, and an identification that was not asked for changes nothing.
    pub fn next(self, event: SendEvent) -> (step: SendStep)
        ensures
            step@ == self.after(event),
    {
        match event {
            SendEvent::Identified(outcome) => match self {
                SendStage::IdentifyFirst => match outcome {
                    Ok(_) => SendStep::Continue(SendStage::SendOnly),
                    Err(reason) => SendStep::Answer(Err(reason)),
                },
                SendStage::IdentifyLast(receipt) => SendStep::Answer(Ok(receipt)),
                SendStage::SendOnly | SendStage::SendThenIdentify => SendStep::Continue(self),
            },
            SendEvent::Sent(reply) => match (self, reply) {
                (SendStage::SendThenIdentify, Ok(receipt)) => SendStep::Continue(
                    SendStage::IdentifyLast(receipt),
                ),
                (_, reply) => SendStep::Answer(reply),
            },
        }
    }
}

} // verus!
