use lxmf_core::backchannel::{
    BackchannelProofKey, BackchannelSendCommand, BackchannelSendError, BackchannelSendReceipt,
    BackchannelStartError, PendingBackchannelDelivery, PendingBackchannelStart, SendOutcome,
    BACKCHANNEL_DELIVERY_TIMEOUT, BACKCHANNEL_SEND_COMMAND_TIMEOUT,
};
use lxmf_core::channel::Poll;
use lxmf_core::commands::{LinkCommand, LinkPayloadSendReceipt};
use lxmf_core::events::{DeliveryResult, LxmfDeliveryEventKind};
use lxmf_core::failure::is_retryable_link_delivery_failure;
use lxmf_core::manager::LinkDeliveryManager;
use lxmf_core::message::{LxMessage, MessageError, SignedForm};
use lxmf_core::queue::DirectDeliveryQueue;
use lxmf_core::session::{settle_session, OutboundDeliveryLink, PendingDelivery};
use lxmf_core::types::{
    DeliveryMethod, DeliveryRepresentation, DeliveryState, LinkState, Progress,
};
use std::collections::VecDeque;
use std::time::Instant;
use tokio::sync::{mpsc, oneshot};

const DEST: [u8; 16] = [0xD0; 16];
const LINK: [u8; 16] = [0xE0; 16];

fn unsigned() -> LxMessage {
    LxMessage::new(DEST, [0xBB; 16], "Title", "Content", DeliveryMethod::Direct)
}

fn signed(seed: u8) -> LxMessage {
    let mut message = unsigned();
    message.set_signed(SignedForm {
        hash: [seed; 32],
        signature: [seed; 64],
        packed: vec![seed, seed],
    });
    message
}

fn start(seed: u8) -> PendingBackchannelStart {
    let (_tx, receiver) = oneshot::channel();
    PendingBackchannelStart {
        receiver,
        message: signed(seed),
        dest_hash: DEST,
        link_id: LINK,
        requested_at: Instant::now(),
    }
}

fn wait(seed: u8) -> PendingBackchannelDelivery {
    PendingBackchannelDelivery {
        message: signed(seed),
        dest_hash: DEST,
        link_id: LINK,
        representation: DeliveryRepresentation::Resource,
        started_at: Instant::now(),
    }
}

fn session(state: DeliveryState, reusable: bool) -> PendingDelivery {
    PendingDelivery {
        message: signed(1),
        dest_hash: DEST,
        packed_override: None,
        auto_compress: true,
        link: OutboundDeliveryLink::requested(LINK),
        state,
        started_at: Instant::now(),
        runtime_result: None,
        establishment_timeout: 10,
        timeout: 20,
        msg_hash: Some([1; 32]),
        failure_reason: None,
        reusable,
        backchannel_identified: false,
        queue: DirectDeliveryQueue::new(),
    }
}

fn with_backchannel() -> (LinkDeliveryManager, mpsc::Receiver<BackchannelSendCommand>) {
    let (tx, rx) = mpsc::channel(1);
    let mut manager = LinkDeliveryManager::new();
    manager.set_backchannel_sender(tx);
    manager.register_backchannel(DEST, LINK);
    (manager, rx)
}

#[test]
fn backchannel_start_names_what_is_missing() {
    let mut manager = LinkDeliveryManager::new();
    let failure = manager
        .start_backchannel_delivery(signed(1), DEST)
        .err()
        .unwrap();
    assert_eq!(failure.error, BackchannelStartError::NoBackchannel);
    assert_eq!(failure.message.hash, Some([1; 32]));
    assert_eq!(failure.description(), "backchannel link not found");

    manager.register_backchannel(DEST, LINK);
    let failure = manager
        .start_backchannel_delivery(signed(1), DEST)
        .err()
        .unwrap();
    assert_eq!(failure.error, BackchannelStartError::SenderUnavailable);
    assert_eq!(
        failure.error.description(),
        "backchannel sender unavailable"
    );
    assert!(manager.delivery_link_available(&DEST));

    let (mut manager, _rx) = with_backchannel();
    let failure = manager
        .start_backchannel_delivery(unsigned(), DEST)
        .err()
        .unwrap();
    assert_eq!(failure.error, BackchannelStartError::PackFailed);
    assert_eq!(failure.error.description(), "failed to pack LXMF payload");
    assert!(manager.delivery_link_available(&DEST));
}

#[test]
fn full_command_channel_costs_the_backchannel() {
    let (mut manager, _rx) = with_backchannel();
    assert!(manager.start_backchannel_delivery(signed(1), DEST).is_ok());
    let failure = manager
        .start_backchannel_delivery(signed(2), DEST)
        .err()
        .unwrap();
    assert_eq!(failure.error, BackchannelStartError::CommandFull);
    assert_eq!(
        failure.error.description(),
        "backchannel command channel full"
    );
    assert_eq!(failure.message.hash, Some([2; 32]));
    assert!(!manager.delivery_link_available(&DEST));
    assert_eq!(manager.pending_count(), 1);
}

#[test]
fn closed_command_channel_costs_the_backchannel() {
    let (mut manager, rx) = with_backchannel();
    drop(rx);
    let failure = manager
        .start_backchannel_delivery(signed(1), DEST)
        .err()
        .unwrap();
    assert_eq!(failure.error, BackchannelStartError::CommandClosed);
    assert_eq!(
        failure.error.description(),
        "backchannel command channel closed"
    );
    assert!(!manager.delivery_link_available(&DEST));
}

#[test]
fn offer_is_concluded_by_its_outcome() {
    let mut manager = LinkDeliveryManager::new();
    manager.register_backchannel(DEST, LINK);
    let (_tx, receiver) = oneshot::channel();
    let report = manager
        .conclude_backchannel_offer(
            signed(1),
            DEST,
            LINK,
            SendOutcome::Sent,
            receiver,
            Instant::now(),
        )
        .ok()
        .unwrap();
    assert_eq!(report.link_id, LINK);
    assert_eq!(report.dest_hash, DEST);
    assert_eq!(report.queued_deliveries, 1);
    assert_eq!(report.in_flight_deliveries, 1);
    let events = manager.take_delivery_events();
    assert_eq!(events[0].queued_deliveries, 0);
    assert_eq!(events[0].in_flight_deliveries, 1);
    let snapshot = manager.backchannel_link_snapshot(DEST).unwrap();
    assert_eq!(snapshot.queued_deliveries, 1);
    assert_eq!(snapshot.in_flight_deliveries, 0);
}

#[test]
fn command_carries_the_message_over_the_registered_link() {
    let mut manager = LinkDeliveryManager::new();
    let (tx, _rx) = mpsc::channel(1);
    manager.set_backchannel_sender(tx);
    manager.register_backchannel(DEST, LINK);
    let (result_tx, mut answer) = oneshot::channel();
    let mut message = signed(3);
    message.auto_compress = false;
    let command = manager
        .backchannel_command(&message, DEST, result_tx)
        .ok()
        .unwrap();
    assert_eq!(command.link_id, LINK);
    assert_eq!(command.payload, vec![3, 3]);
    assert!(!command.auto_compress);
    assert!(command
        .result_tx
        .send(Err(BackchannelSendError::LinkNotFound))
        .is_ok());
    assert!(answer.try_recv().is_ok());
}

#[test]
fn resource_receipt_waits_for_a_resource_proof() {
    let (mut manager, mut rx) = with_backchannel();
    assert!(manager.start_backchannel_delivery(signed(1), DEST).is_ok());
    manager.take_delivery_events();
    let command = rx.try_recv().ok().unwrap();
    assert!(command
        .result_tx
        .send(Ok(BackchannelSendReceipt::Resource {
            link_id: LINK,
            resource_hash: [5; 32],
        }))
        .is_ok());
    assert!(manager.tick().is_empty());
    let events = manager.take_delivery_events();
    assert_eq!(events.len(), 1);
    assert_eq!(events[0].kind, LxmfDeliveryEventKind::TransferStarted);
    assert_eq!(f64::from_bits(events[0].progress.unwrap().bits), 0.10);
    assert_eq!(events[0].representation, DeliveryRepresentation::Resource);
    assert_eq!(events[0].in_flight_deliveries, 1);

    let snapshot = manager.message_delivery_snapshot([1; 32]).unwrap();
    assert_eq!(snapshot.delivery_state, DeliveryState::AwaitingProof);
    assert_eq!(snapshot.link_id, LINK);
    assert!(!snapshot.queued);

    assert!(manager
        .handle_backchannel_packet_proof(LINK, [5; 32])
        .is_none());
    assert!(manager
        .handle_backchannel_resource_proof(LINK, [6; 32])
        .is_none());
    assert!(manager
        .handle_backchannel_resource_proof(LINK, [5; 32])
        .is_some());
    assert!(manager
        .handle_backchannel_resource_proof(LINK, [5; 32])
        .is_none());
}

#[test]
fn unanswered_command_waits_ten_seconds() {
    let mut manager = LinkDeliveryManager::new();
    manager.register_backchannel(DEST, LINK);
    let mut results = Vec::new();
    manager.settle_backchannel_start(
        start(1),
        Poll::Empty,
        BACKCHANNEL_SEND_COMMAND_TIMEOUT,
        Instant::now(),
        &mut results,
    );
    assert!(results.is_empty());
    assert_eq!(manager.pending_count(), 1);
    let snapshot = manager.message_delivery_snapshot([1; 32]).unwrap();
    assert!(snapshot.queued);
    assert_eq!(snapshot.delivery_state, DeliveryState::Transferring);

    manager.settle_backchannel_start(
        start(2),
        Poll::Empty,
        BACKCHANNEL_SEND_COMMAND_TIMEOUT + 1,
        Instant::now(),
        &mut results,
    );
    assert_eq!(BACKCHANNEL_SEND_COMMAND_TIMEOUT, 10_000_000_000);
    assert!(matches!(
        &results[..],
        [DeliveryResult::Failed { reason, .. }]
            if reason == "backchannel send command timeout"
                && is_retryable_link_delivery_failure(reason)
    ));
    assert!(!manager.delivery_link_available(&DEST));
}

#[test]
fn dropped_command_fails_the_send() {
    let (mut manager, rx) = with_backchannel();
    assert!(manager.start_backchannel_delivery(signed(1), DEST).is_ok());
    drop(rx);
    let results = manager.tick();
    assert!(matches!(
        &results[..],
        [DeliveryResult::Failed { reason, .. }]
            if reason == "backchannel send command closed"
                && is_retryable_link_delivery_failure(reason)
    ));
    assert!(!manager.delivery_link_available(&DEST));
}

#[test]
fn pending_answer_leaves_the_send_waiting() {
    let (mut manager, mut rx) = with_backchannel();
    assert!(manager.start_backchannel_delivery(signed(1), DEST).is_ok());
    manager.take_delivery_events();
    let command = rx.try_recv().ok().unwrap();
    for _ in 0..3 {
        assert!(manager.tick().is_empty());
        assert!(manager.take_delivery_events().is_empty());
        assert_eq!(manager.pending_count(), 1);
    }
    assert!(command
        .result_tx
        .send(Err(BackchannelSendError::Other("jammed".to_string())))
        .is_ok());
    let results = manager.tick();
    assert!(matches!(
        &results[..],
        [DeliveryResult::Failed { reason, .. }] if reason == "jammed"
    ));
}

#[test]
fn proof_is_awaited_for_six_minutes() {
    let mut manager = LinkDeliveryManager::new();
    manager.register_backchannel(DEST, LINK);
    let mut results = Vec::new();
    manager.age_backchannel_delivery(
        BackchannelProofKey::Packet(LINK, [1; 32]),
        wait(1),
        BACKCHANNEL_DELIVERY_TIMEOUT,
        &mut results,
    );
    assert!(results.is_empty());
    assert!(manager.delivery_link_available(&DEST));
    manager.age_backchannel_delivery(
        BackchannelProofKey::Packet(LINK, [2; 32]),
        wait(2),
        BACKCHANNEL_DELIVERY_TIMEOUT + 1,
        &mut results,
    );
    assert_eq!(BACKCHANNEL_DELIVERY_TIMEOUT, 360_000_000_000);
    assert!(matches!(
        &results[..],
        [DeliveryResult::Failed { reason, msg_hash: Some(hash), .. }]
            if reason == "backchannel delivery timeout"
                && *hash == [2; 32]
                && !is_retryable_link_delivery_failure(reason)
    ));
    assert!(!manager.delivery_link_available(&DEST));
    assert_eq!(manager.pending_count(), 1);
    assert_eq!(
        manager.message_delivery_snapshot([1; 32]).unwrap().link_id,
        LINK
    );
    assert!(manager.fail_delivery_by_message_hash([1; 32], "x").len() == 1);
}

#[test]
fn receipt_for_a_proof_that_is_awaited_takes_its_place() {
    let mut manager = LinkDeliveryManager::new();
    let mut results = Vec::new();
    for seed in 1..3u8 {
        manager.settle_backchannel_start(
            start(seed),
            Poll::Ready(Ok(BackchannelSendReceipt::Packet {
                link_id: LINK,
                packet_hash: [9; 32],
            })),
            0,
            Instant::now(),
            &mut results,
        );
    }
    assert!(results.is_empty());
    assert_eq!(manager.pending_count(), 1);
    let result = manager
        .handle_backchannel_packet_proof(LINK, [9; 32])
        .unwrap();
    assert!(matches!(
        result,
        DeliveryResult::Complete { msg_hash: Some(hash), .. } if hash == [2; 32]
    ));
}

#[test]
fn closed_link_fails_only_its_own_sends() {
    let mut manager = LinkDeliveryManager::new();
    let mut results = Vec::new();
    for seed in 1..4u8 {
        let mut pending = start(seed);
        if seed == 2 {
            pending.link_id = [0xE9; 16];
        }
        manager.settle_backchannel_start(pending, Poll::Empty, 0, Instant::now(), &mut results);
    }
    let results = manager.fail_backchannel_link(LINK, "link closed");
    assert_eq!(results.len(), 2);
    assert_eq!(manager.pending_count(), 1);
    assert!(manager.message_delivery_snapshot([2; 32]).is_some());
    let events = manager.take_delivery_events();
    assert_eq!(events.len(), 2);
    assert_eq!(events[0].msg_hash, Some([1; 32]));
    assert_eq!(events[1].msg_hash, Some([3; 32]));
}

#[test]
fn cancelled_backchannel_sends_keep_the_backchannel() {
    let mut manager = LinkDeliveryManager::new();
    manager.register_backchannel(DEST, LINK);
    let mut results = Vec::new();
    manager.settle_backchannel_start(start(1), Poll::Empty, 0, Instant::now(), &mut results);
    manager.age_backchannel_delivery(
        BackchannelProofKey::Resource(LINK, [2; 32]),
        wait(2),
        0,
        &mut results,
    );
    assert!(manager.cancel_delivery_by_message_hash([1; 32]));
    assert!(manager.cancel_delivery_by_message_hash([2; 32]));
    assert!(!manager.cancel_delivery_by_message_hash([3; 32]));
    assert_eq!(manager.pending_count(), 0);
    assert!(manager.delivery_link_available(&DEST));
    assert!(manager.take_delivery_events().is_empty());
}

#[test]
fn concluded_session_goes_on_or_is_closed() {
    let mut manager = LinkDeliveryManager::new();
    let mut results = Vec::new();
    manager.conclude_session(
        LINK,
        session(DeliveryState::Transferring, false),
        None,
        20,
        Instant::now(),
        &mut results,
    );
    assert!(results.is_empty());
    assert!(manager.has_session(&LINK));

    let other = [0xE5; 16];
    let mut overdue = session(DeliveryState::Transferring, false);
    overdue.link = OutboundDeliveryLink::requested(other);
    manager.conclude_session(other, overdue, None, 21, Instant::now(), &mut results);
    assert!(!manager.has_session(&other));
    assert!(manager.has_session(&LINK));
    assert!(matches!(
        &results[..],
        [DeliveryResult::Failed { reason, .. }] if reason == "delivery timeout"
    ));
    let commands = manager.take_link_commands();
    assert!(matches!(&commands[..], [LinkCommand::Close { link_id }] if *link_id == other));
}

#[test]
fn idle_link_never_runs_out_of_time() {
    let mut results = Vec::new();
    let mut events = VecDeque::new();
    let mut delivery = session(DeliveryState::Idle, true);
    assert!(settle_session(
        &mut results,
        &mut events,
        LINK,
        &mut delivery,
        None,
        u128::MAX,
        Instant::now(),
    ));
    assert!(results.is_empty());
    assert!(events.is_empty());
    assert_eq!(delivery.state, DeliveryState::Idle);
}

#[test]
fn answered_session_raises_the_link() {
    let mut results = Vec::new();
    let mut events = VecDeque::new();
    let mut delivery = session(DeliveryState::Transferring, true);
    assert!(!delivery.backchannel_identified);
    assert!(settle_session(
        &mut results,
        &mut events,
        LINK,
        &mut delivery,
        Some(Ok(LinkPayloadSendReceipt::Resource)),
        0,
        Instant::now(),
    ));
    assert!(matches!(
        &results[..],
        [DeliveryResult::Complete { msg_hash: Some(hash), .. }] if *hash == [1; 32]
    ));
    assert_eq!(events.len(), 1);
    assert_eq!(delivery.link.state(), LinkState::Active);
    assert_eq!(delivery.state, DeliveryState::Idle);
    assert!(delivery.backchannel_identified);
}

#[test]
fn accepted_message_is_unsent_until_it_is_launched() {
    let mut delivery = session(DeliveryState::Identifying, true);
    assert!(delivery.is_unsent());
    let (result_tx, receiver) = oneshot::channel();
    assert!(delivery
        .launch_runtime_current_delivery(result_tx, receiver, Instant::now())
        .is_ok());
    assert!(!delivery.is_unsent());
    assert!(!session(DeliveryState::Idle, true).is_unsent());
}

#[test]
fn unsuccessful_delivery_passes_the_link_on() {
    let mut delivery = session(DeliveryState::Transferring, true);
    delivery.failure_reason = Some("lost".to_string());
    delivery.finish_unsuccessful_reusable_delivery(Instant::now());
    assert_eq!(delivery.state, DeliveryState::Idle);
    assert_eq!(delivery.failure_reason, None);

    delivery.link.set_state(LinkState::Active);
    delivery.queue_delivery(signed(2), Some(vec![4]), false);
    assert_eq!(delivery.active_delivery_count(), 1);
    delivery.finish_unsuccessful_reusable_delivery(Instant::now());
    assert_eq!(delivery.state, DeliveryState::Identifying);
    assert_eq!(delivery.msg_hash, Some([2; 32]));
    assert_eq!(delivery.packed_override, Some(vec![4]));
    assert_eq!(delivery.active_delivery_count(), 1);
}

#[test]
fn packed_override_goes_out_in_place_of_the_message() {
    let mut delivery = session(DeliveryState::Idle, true);
    delivery.message.progress = Progress {
        bits: 0.75f64.to_bits(),
    };
    delivery.packed_override = Some(vec![6, 6]);
    delivery.auto_compress = false;
    let (result_tx, receiver) = oneshot::channel();
    let command = delivery
        .launch_runtime_current_delivery(result_tx, receiver, Instant::now())
        .ok()
        .unwrap();
    assert!(matches!(
        command,
        LinkCommand::SendPayload { payload, auto_compress: false, deadline: 20, .. }
            if payload == vec![6, 6]
    ));
    assert_eq!(delivery.state, DeliveryState::Transferring);
    assert_eq!(f64::from_bits(delivery.message.progress.bits), 0.75);
}

#[test]
fn message_without_payload_is_not_launched() {
    let mut delivery = session(DeliveryState::Identifying, true);
    delivery.message = unsigned();
    let (result_tx, receiver) = oneshot::channel();
    let reason = delivery
        .launch_runtime_current_delivery(result_tx, receiver, Instant::now())
        .err()
        .unwrap();
    assert_eq!(reason, "failed to pack LXMF payload: NotSigned");
    assert_eq!(delivery.state, DeliveryState::Identifying);
    assert!(delivery.runtime_result.is_none());

    // The reason holds the debug form of the error.
    delivery.message.packed = Err(MessageError {
        detail: "too long by 3".to_string(),
        debug: "TooLong { by: 3 }".to_string(),
    });
    let (result_tx, receiver) = oneshot::channel();
    let reason = delivery
        .launch_runtime_current_delivery(result_tx, receiver, Instant::now())
        .err()
        .unwrap();
    assert_eq!(reason, "failed to pack LXMF payload: TooLong { by: 3 }");
}

#[test]
fn backchannel_start_puts_one_command_or_none() {
    let (tx, mut rx) = mpsc::channel(2);
    let mut manager = LinkDeliveryManager::new();
    manager.set_backchannel_sender(tx);
    assert!(manager.start_backchannel_delivery(signed(1), DEST).is_err());
    assert!(rx.try_recv().is_err());

    manager.register_backchannel(DEST, LINK);
    assert!(manager
        .start_backchannel_delivery(unsigned(), DEST)
        .is_err());
    assert!(rx.try_recv().is_err());

    let report = manager
        .start_backchannel_delivery(signed(1), DEST)
        .ok()
        .unwrap();
    assert_eq!(report.link_id, LINK);
    assert_eq!(manager.pending_count(), 1);
    assert!(manager.delivery_link_available(&DEST));
    let command = rx.try_recv().ok().unwrap();
    assert_eq!(command.link_id, LINK);
    assert_eq!(command.payload, vec![1, 1]);
    assert!(command.auto_compress);
    assert!(rx.try_recv().is_err());

    // Neither a round nor ending a delivery puts a command there.
    assert!(manager.tick().is_empty());
    assert_eq!(
        manager
            .fail_delivery_by_message_hash([1; 32], "gave up")
            .len(),
        1
    );
    assert!(rx.try_recv().is_err());
}

#[test]
fn commands_go_to_the_sender_that_was_installed_last() {
    let (mut manager, mut first) = with_backchannel();
    assert!(manager.start_backchannel_delivery(signed(1), DEST).is_ok());
    let (tx, mut second) = mpsc::channel(1);
    manager.set_backchannel_sender(tx);
    assert!(manager.start_backchannel_delivery(signed(2), DEST).is_ok());
    assert_eq!(first.try_recv().ok().unwrap().payload, vec![1, 1]);
    assert!(first.try_recv().is_err());
    assert_eq!(second.try_recv().ok().unwrap().payload, vec![2, 2]);
    assert!(second.try_recv().is_err());
}

#[test]
fn send_errors_have_their_texts() {
    let texts = [
        (BackchannelSendError::LinkNotFound, "link not found", true),
        (
            BackchannelSendError::LinkNotActive,
            "link is not active",
            true,
        ),
        (
            BackchannelSendError::NoSessionKeys,
            "link session keys are unavailable",
            true,
        ),
        (
            BackchannelSendError::TransportUnavailable,
            "transport channel is full or closed",
            true,
        ),
        (
            BackchannelSendError::ResourceStartFailed,
            "resource transfer could not be started",
            false,
        ),
        (
            BackchannelSendError::Other("odd".to_string()),
            "odd",
            false,
        ),
    ];
    for (error, text, retryable) in texts {
        assert_eq!(error.description(), text);
        assert_eq!(is_retryable_link_delivery_failure(text), retryable);
    }
    for text in ["delivery timeout", "Link session task stopped", ""] {
        assert!(!is_retryable_link_delivery_failure(text));
    }
    for text in ["transport full", "transport closed"] {
        assert!(is_retryable_link_delivery_failure(text));
    }
}

#[test]
fn removed_backchannel_is_named() {
    let mut manager = LinkDeliveryManager::new();
    manager.register_backchannel(DEST, LINK);
    manager.register_backchannel(DEST, [0xE3; 16]);
    assert_eq!(manager.remove_backchannel(&DEST), Some([0xE3; 16]));
    assert_eq!(manager.remove_backchannel(&DEST), None);
    assert!(!manager.delivery_link_available(&DEST));
    assert!(manager.backchannel_link_snapshot(DEST).is_none());
}
