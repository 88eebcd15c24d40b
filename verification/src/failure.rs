//! Why a delivery could not start, and which failures are worth another try.

use vstd::prelude::*;

use crate::message::LxMessage;
use crate::text::same_text;

verus! {

/// Why no link delivery could be started.
#[derive(Debug, Clone, Copy, PartialEq, Eq, Structural)]
pub enum LinkDeliveryStartError {
    RuntimeUnavailable,
    RemoteIdentityUnavailable,
}

impl LinkDeliveryStartError {
    /// The text of the error.
    pub open spec fn text(self) -> Seq<char> {
        match self {
            LinkDeliveryStartError::RuntimeUnavailable => {
                "Reticulum runtime is required for Link delivery"@
            },
            LinkDeliveryStartError::RemoteIdentityUnavailable => {
                "remote identity public key is required for Link delivery"@
            },
        }
    }

    /// The error as it is shown to people.
    pub fn description(&self) -> (text: String)
        ensures
            text@ == self.text(),
    {
        match self {
            LinkDeliveryStartError::RuntimeUnavailable => {
                "Reticulum runtime is required for Link delivery".to_owned()
            },
            LinkDeliveryStartError::RemoteIdentityUnavailable => {
                "remote identity public key is required for Link delivery".to_owned()
            },
        }
    }
}

/// A link delivery that did not start, with the message handed back.
#[derive(Debug)]
pub struct LinkDeliveryStartFailure {
    pub error: LinkDeliveryStartError,
    pub message: Box<LxMessage>,
}

impl LinkDeliveryStartFailure {
    /// The failure as it is shown to people: the text of its error.
    pub fn description(&self) -> (text: String)
        ensures
            text@ == self.error.text(),
    {
        self.error.description()
    }
}

/// The failures after which a message stays eligible for Direct rediscovery: the
/// link or the way to it was gone, and nothing is known to be wrong with the
/// message itself.
pub open spec fn retryable_reasons() -> Seq<Seq<char>> {
    seq![
        "link establishment timeout"@,
        "link closed"@,
        "transport full"@,
        "transport closed"@,
        "link not found"@,
        "link is not active"@,
        "link session keys are unavailable"@,
        "transport channel is full or closed"@,
        "backchannel send command timeout"@,
        "backchannel send command closed"@,
    ]
}

/// Whether a failure with this reason leaves the message eligible for another
/// Direct attempt.
pub open spec fn is_retryable(reason: Seq<char>) -> bool {
    retryable_reasons().contains(reason)
}

/// Whether a link-delivery failure should be treated like a closed or pending
/// link, where the message remains eligible for Direct rediscovery instead of
/// being terminally failed.
pub fn is_retryable_link_delivery_failure(reason: &str) -> (retryable: bool)
    ensures
        retryable == is_retryable(reason@),
{
    let ghost reasons = retryable_reasons();
    let retryable = same_text(reason, "link establishment timeout")
        || same_text(reason, "link closed")
        || same_text(reason, "transport full")
        || same_text(reason, "transport closed")
    // Backchannel adapters discover these only after asking the embedding
    // runtime to send over an inbound link that it owns.
        || same_text(reason, "link not found")
        || same_text(reason, "link is not active")
        || same_text(reason, "link session keys are unavailable")
        || same_text(reason, "transport channel is full or closed")
        || same_text(reason, "backchannel send command timeout")
        || same_text(reason, "backchannel send command closed");
    proof {
        assert(reasons.len() == 10);
        if retryable {
            assert(reasons[0] == reason@ || reasons[1] == reason@ || reasons[2] == reason@
                || reasons[3] == reason@ || reasons[4] == reason@ || reasons[5] == reason@
                || reasons[6] == reason@ || reasons[7] == reason@ || reasons[8] == reason@
                || reasons[9] == reason@);
        }
    }
    retryable
}

} // verus!
