//! What a payload send comes to, from its beginning to its answer.

use vstd::prelude::*;

use crate::commands::{LinkPayloadSendReceipt, LinkReply};
use crate::payload_send::{SendAction, SendEvent, SendStage, SendStepView};
use crate::session::reply_view;

verus! {

/// With the identification first, a payload is sent only once the sender is identified,
/// and the answer is then what came of the payload; a failed identification is the
/// answer, and nothing is sent.
pub proof fn identification_first_guards_the_payload(
    identified: Result<(), String>,
    sent: LinkReply,
)
    ensures
        ({
            let first = SendStage::first(true);
            &&& first.action_of() == SendAction::Identify
            &&& match (first.after(SendEvent::Identified(identified)), identified) {
                (SendStepView::Continue(second), Ok(_)) => {
                    &&& second.action_of() == SendAction::SendPayload
                    &&& second.after(SendEvent::Sent(sent)) == SendStepView::Answer(
                        reply_view(sent),
                    )
                },
                (SendStepView::Answer(answer), Err(reason)) => answer == Err::<
                    LinkPayloadSendReceipt,
                    Seq<char>,
                >(reason@),
                _ => false,
            }
        }),
{
}

/// With the identification last, the payload is sent at once; the sender is identified
/// exactly if it was delivered, and however that goes, the answer is what came of the
/// payload.
pub proof fn identification_last_changes_no_answer(
    sent: LinkReply,
    identified: Result<(), String>,
)
    ensures
        ({
            let first = SendStage::first(false);
            &&& first.action_of() == SendAction::SendPayload
            &&& match (first.after(SendEvent::Sent(sent)), sent) {
                (SendStepView::Continue(second), Ok(_)) => {
                    &&& second.action_of() == SendAction::Identify
                    &&& second.after(SendEvent::Identified(identified)) == SendStepView::Answer(
                        reply_view(sent),
                    )
                },
                (SendStepView::Answer(answer), Err(_)) => answer == reply_view(sent),
                _ => false,
            }
        }),
{
}

/// An event of another action than that of a stage has no say in what the stage is for: an
/// answer to a payload is the answer wherever no identification is to follow, and an
/// identification that was not asked for changes nothing.
pub proof fn stray_events_change_nothing(
    stage: SendStage,
    sent: LinkReply,
    identified: Result<(), String>,
)
    ensures
        stage != SendStage::SendThenIdentify ==> stage.after(SendEvent::Sent(sent))
            == SendStepView::Answer(reply_view(sent)),
        stage.action_of() == SendAction::SendPayload ==> stage.after(
            SendEvent::Identified(identified),
        ) == SendStepView::Continue(stage),
        stage.action_of() == SendAction::SendPayload <==> stage == SendStage::SendOnly || stage
            == SendStage::SendThenIdentify,
        stage.action_of() == SendAction::Identify <==> stage == SendStage::IdentifyFirst || stage
            is IdentifyLast,
{
}

} // verus!
