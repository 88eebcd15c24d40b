//! Which failures leave a message eligible for another Direct attempt.

use vstd::prelude::*;

use crate::backchannel::BackchannelSendError;
use crate::failure::{is_retryable, retryable_reasons};

verus! {

/// A send that the runtime refused can be tried again if the link or the way to it was
/// gone, and cannot if the transfer itself could not be started.
pub proof fn stale_backchannels_are_retried(error: BackchannelSendError)
    requires
        error !is Other,
    ensures
        is_retryable(error.text()) == (error !is ResourceStartFailed),
{
    let reasons = retryable_reasons();
    assert(reasons.len() == 10);
    assert(reasons[4] == "link not found"@);
    assert(reasons[5] == "link is not active"@);
    assert(reasons[6] == "link session keys are unavailable"@);
    assert(reasons[7] == "transport channel is full or closed"@);
    if error is ResourceStartFailed {
        lemma_reasons_begin();
        reveal_strlit("resource transfer could not be started");
    }
}

/// What a message that ran out of its time is told, be it on a link or on a
/// backchannel, is no reason to try again; nor is a link whose task stopped.
pub proof fn overdue_deliveries_are_not_retried()
    ensures
        !is_retryable("delivery timeout"@),
        !is_retryable("backchannel delivery timeout"@),
        !is_retryable("Link session task stopped"@),
{
    lemma_reasons_begin();
    reveal_strlit("delivery timeout");
    reveal_strlit("backchannel delivery timeout");
    reveal_strlit("Link session task stopped");
}

/// A send command that the runtime left unanswered can be tried again.
pub proof fn unanswered_commands_are_retried()
    ensures
        is_retryable("backchannel send command timeout"@),
        is_retryable("backchannel send command closed"@),
        is_retryable("link closed"@),
{
    let reasons = retryable_reasons();
    assert(reasons[8] == "backchannel send command timeout"@);
    assert(reasons[9] == "backchannel send command closed"@);
    assert(reasons[1] == "link closed"@);
}

/// A failure leaves a message eligible for another attempt exactly if the link was not
/// established in time, was closed, not there, not active or without its keys, the way out
/// was full or closed, or the runtime did not answer a send command.
pub proof fn only_lost_ways_are_retried(reason: Seq<char>)
    ensures
        is_retryable(reason) <==> {
            ||| reason == "link establishment timeout"@
            ||| reason == "link closed"@
            ||| reason == "link not found"@
            ||| reason == "link is not active"@
            ||| reason == "link session keys are unavailable"@
            ||| reason == "transport full"@
            ||| reason == "transport closed"@
            ||| reason == "transport channel is full or closed"@
            ||| reason == "backchannel send command timeout"@
            ||| reason == "backchannel send command closed"@
        },
{
    let reasons = retryable_reasons();
    assert(reasons[0] == "link establishment timeout"@);
    assert(reasons[1] == "link closed"@);
    assert(reasons[2] == "transport full"@);
    assert(reasons[3] == "transport closed"@);
    assert(reasons[4] == "link not found"@);
    assert(reasons[5] == "link is not active"@);
    assert(reasons[6] == "link session keys are unavailable"@);
    assert(reasons[7] == "transport channel is full or closed"@);
    assert(reasons[8] == "backchannel send command timeout"@);
    assert(reasons[9] == "backchannel send command closed"@);
}

/// How the retryable reasons begin.
proof fn lemma_reasons_begin()
    ensures
        retryable_reasons().len() == 10,
        forall|i: int|
            0 <= i < 10 ==> {
                let reason = #[trigger] retryable_reasons()[i];
                &&& reason.len() > 12
                &&& reason[0] == 'l' || reason[0] == 't' || (reason[0] == 'b' && reason[12]
                    == 's')
            } || i == 1,
        retryable_reasons()[1] == "link closed"@,
        "link closed"@.len() == 11,
{
    reveal_strlit("link establishment timeout");
    reveal_strlit("link closed");
    reveal_strlit("transport full");
    reveal_strlit("transport closed");
    reveal_strlit("link not found");
    reveal_strlit("link is not active");
    reveal_strlit("link session keys are unavailable");
    reveal_strlit("transport channel is full or closed");
    reveal_strlit("backchannel send command timeout");
    reveal_strlit("backchannel send command closed");
}

} // verus!
