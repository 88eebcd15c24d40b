//! What the delivery logic asks of the runtime that owns the outbound links.

use tokio::sync::oneshot;
use vstd::prelude::*;

verus! {

/// How a payload went over a link.
#[derive(Debug, Clone, Copy, PartialEq, Eq, Structural)]
pub enum LinkPayloadSendReceipt {
    /// As one packet, which the other side has proved.
    Packet,
    /// As a resource, which the other side has proved.
    Resource,
}

/// The runtime's answer to a payload: a receipt, or why the payload was not
/// delivered.
pub type LinkReply = Result<LinkPayloadSendReceipt, String>;

/// Work for the runtime that owns the outbound links.
pub enum LinkCommand {
    /// Send a payload over a link and answer when it is proved or lost.
    SendPayload {
        link_id: [u8; 16],
        payload: Vec<u8>,
        auto_compress: bool,
        /// How long the send may take, in nanoseconds.
        deadline: u128,
        /// Identify the sender to the other side before the payload, and not after
        /// it was delivered.
        identify_before_send: bool,
        result_tx: oneshot::Sender<LinkReply>,
    },
    /// Close a link.
    Close { link_id: [u8; 16] },
    /// Forget the transport destination of a link.
    DeregisterDestination { link_id: [u8; 16] },
}

/// The mathematical content of a [`LinkCommand`].
#[verifier::ext_equal]
pub enum CommandView {
    SendPayload {
        link_id: [u8; 16],
        payload: Seq<u8>,
        auto_compress: bool,
        deadline: u128,
        identify_before_send: bool,
        result_tx: oneshot::Sender<LinkReply>,
    },
    Close { link_id: [u8; 16] },
    DeregisterDestination { link_id: [u8; 16] },
}

impl View for LinkCommand {
    type V = CommandView;

    open spec fn view(&self) -> CommandView {
        match self {
            LinkCommand::SendPayload {
                link_id,
                payload,
                auto_compress,
                deadline,
                identify_before_send,
                result_tx,
            } => CommandView::SendPayload {
                link_id: *link_id,
                payload: payload@,
                auto_compress: *auto_compress,
                deadline: *deadline,
                identify_before_send: *identify_before_send,
                result_tx: *result_tx,
            },
            LinkCommand::Close { link_id } => CommandView::Close { link_id: *link_id },
            LinkCommand::DeregisterDestination { link_id } => CommandView::DeregisterDestination {
                link_id: *link_id,
            },
        }
    }
}

/// The contents of a list of commands.
pub open spec fn command_views(commands: Seq<LinkCommand>) -> Seq<CommandView> {
    commands.map_values(|command: LinkCommand| command@)
}

/// A list of commands grows by one.
pub proof fn lemma_command_views_push(commands: Seq<LinkCommand>, command: LinkCommand)
    ensures
        command_views(commands.push(command)) == command_views(commands).push(command@),
{
    assert(command_views(commands.push(command)) =~= command_views(commands).push(command@));
}

} // verus!
