use lxmf_core::commands::{LinkCommand, LinkPayloadSendReceipt, LinkReply};
use lxmf_core::events::{DeliveryResult, LxmfDeliveryEventKind, LxmfDeliveryEventMethod};
use lxmf_core::failure::LinkDeliveryStartError;
use lxmf_core::manager::{KnownIdentity, LinkDeliveryManager};
use lxmf_core::message::{LxMessage, SignedForm};
use lxmf_core::model::{DirectLinkStartKind, LinkTiming};
use lxmf_core::reports::{DeliveryStart, DirectLinkStartReport, DirectStart, LinkOpenRequest};
use lxmf_core::session::LINK_MAX_INACTIVITY;
use lxmf_core::types::{DeliveryMethod, DeliveryRepresentation, DeliveryState, LinkState};
use std::time::Instant;
use tokio::sync::{mpsc, oneshot};

const DEST: [u8; 16] = [0xD0; 16];
const DEST_NAME: &str = "d0d0d0d0d0d0d0d0d0d0d0d0d0d0d0d0";
const LINK: [u8; 16] = [0xE0; 16];
const KEY: [u8; 64] = [0x4B; 64];
const TIMING: LinkTiming = LinkTiming {
    establishment_per_hop: 6_000_000_000,
    keepalive: 360_000_000_000,
};

fn unsigned(seed: u8) -> LxMessage {
    let mut message = LxMessage::new(DEST, [0xBB; 16], "Title", "Content", DeliveryMethod::Direct);
    message.delivery_attempts = u32::from(seed);
    message
}

fn signed(seed: u8) -> LxMessage {
    let mut message = unsigned(seed);
    message.set_signed(SignedForm {
        hash: [seed; 32],
        signature: [seed; 64],
        packed: vec![seed, seed],
    });
    message
}

fn manager_with(timing: LinkTiming) -> LinkDeliveryManager {
    let mut manager = LinkDeliveryManager::new();
    manager.set_runtime(timing);
    manager.drain_events(&vec![
        KnownIdentity {
            name: "00".to_string(),
            public_key: [0; 64],
        },
        KnownIdentity {
            name: DEST_NAME.to_string(),
            public_key: KEY,
        },
    ]);
    manager
}

fn manager() -> LinkDeliveryManager {
    manager_with(TIMING)
}

fn open_request(started: DirectStart) -> LinkOpenRequest {
    match started {
        DirectStart::OpenLink(request) => request,
        DirectStart::Attached(_) => panic!("a cached link took the message"),
    }
}

fn attached(started: DirectStart) -> DirectLinkStartReport {
    match started {
        DirectStart::Attached(report) => report,
        DirectStart::OpenLink(_) => panic!("a link is to be opened"),
    }
}

fn open_first(manager: &mut LinkDeliveryManager, seed: u8) -> oneshot::Sender<LinkReply> {
    let started = manager
        .start_delivery_with_report(signed(seed), DEST, 2)
        .ok()
        .unwrap();
    manager.link_opened(open_request(started), LINK);
    sender(manager)
}

fn sender(manager: &mut LinkDeliveryManager) -> oneshot::Sender<LinkReply> {
    let mut commands = manager.take_link_commands();
    assert_eq!(commands.len(), 1);
    match commands.pop().unwrap() {
        LinkCommand::SendPayload { result_tx, .. } => result_tx,
        _ => panic!("no payload is sent"),
    }
}

#[test]
fn direct_start_without_runtime_hands_the_message_back() {
    let mut manager = LinkDeliveryManager::new();
    let failure = manager
        .start_delivery_with_report(signed(1), DEST, 1)
        .err()
        .unwrap();
    assert_eq!(failure.error, LinkDeliveryStartError::RuntimeUnavailable);
    assert_eq!(failure.message.hash, Some([1; 32]));
    assert_eq!(manager.pending_count(), 0);

    let failure = manager
        .start_packed_delivery(signed(2), DEST, 1, vec![9], true)
        .err()
        .unwrap();
    assert_eq!(failure.error, LinkDeliveryStartError::RuntimeUnavailable);
    assert_eq!(failure.message.hash, Some([2; 32]));
}

#[test]
fn direct_start_without_key_hands_the_message_back() {
    let mut manager = manager();
    let failure = manager
        .start_delivery(signed(1), [0x99; 16], 1)
        .err()
        .unwrap();
    assert_eq!(
        failure.error,
        LinkDeliveryStartError::RemoteIdentityUnavailable
    );
    assert_eq!(failure.message.hash, Some([1; 32]));
    let failure = manager
        .start_packed_delivery(signed(1), [0x99; 16], 1, vec![9], true)
        .err()
        .unwrap();
    assert_eq!(
        failure.error,
        LinkDeliveryStartError::RemoteIdentityUnavailable
    );
}

#[test]
fn direct_start_without_wire_form_hands_the_message_back() {
    let mut manager = manager();
    let failure = manager.start_delivery(unsigned(1), DEST, 1).err().unwrap();
    assert_eq!(
        failure.error,
        LinkDeliveryStartError::RemoteIdentityUnavailable
    );
}

#[test]
fn start_errors_have_their_texts() {
    let mut manager = LinkDeliveryManager::new();
    let failure = manager.start_delivery(signed(1), DEST, 1).err().unwrap();
    assert_eq!(
        failure.description(),
        "Reticulum runtime is required for Link delivery"
    );
    assert_eq!(
        LinkDeliveryStartError::RemoteIdentityUnavailable.description(),
        "remote identity public key is required for Link delivery"
    );
}

#[test]
fn new_direct_link_is_requested_and_noted() {
    let mut manager = manager();
    let (inbound_tx, mut inbound_rx) = mpsc::channel(4);
    manager.set_inbound_packet_sender(inbound_tx);
    let started = manager
        .start_delivery_with_report(signed(7), DEST, 3)
        .ok()
        .unwrap();
    assert_eq!(manager.session_count(), 0);
    let request = open_request(started);
    assert_eq!(request.dest_hash, DEST);
    assert_eq!(request.hops, 3);
    assert_eq!(request.public_key, KEY);
    assert_eq!(request.payload, vec![7, 7]);
    assert!(request.reusable);
    assert!(request.auto_compress);
    assert_eq!(request.establishment_timeout, 18_000_000_000);
    assert_eq!(request.timeout, 378_000_000_000);
    let cloned = request.inbound_packet_tx.clone().unwrap();
    assert!(cloned.try_send((vec![5], LINK)).is_ok());
    assert_eq!(inbound_rx.try_recv().ok(), Some((vec![5], LINK)));

    let report = manager.link_opened(request, LINK);
    assert_eq!(report.kind, DirectLinkStartKind::NewDirect);
    assert_eq!(report.link_id, LINK);
    assert_eq!(report.link_state, LinkState::Pending);
    assert_eq!(report.delivery_state, DeliveryState::Establishing);
    assert_eq!(report.queued_deliveries, 0);
    assert_eq!(report.in_flight_deliveries, 1);

    let events = manager.take_delivery_events();
    assert_eq!(events.len(), 1);
    assert_eq!(events[0].kind, LxmfDeliveryEventKind::LinkEstablishing);
    assert_eq!(events[0].msg_hash, Some([7; 32]));
    assert_eq!(events[0].attempts, 7);
    assert_eq!(f64::from_bits(events[0].progress.unwrap().bits), 0.03);
    assert!(manager.take_delivery_events().is_empty());

    let commands = manager.take_link_commands();
    assert_eq!(commands.len(), 1);
    assert!(matches!(
        &commands[0],
        LinkCommand::SendPayload {
            link_id,
            payload,
            auto_compress: true,
            deadline: 378_000_000_000,
            identify_before_send: false,
            ..
        } if *link_id == LINK && *payload == vec![7, 7]
    ));
    assert!(manager.take_link_commands().is_empty());

    assert_eq!(manager.session_count(), 1);
    assert!(manager.has_session(&LINK));
    assert!(!manager.has_session(&DEST));
    assert!(manager.delivery_link_available(&DEST));
    let stats = manager.stats();
    assert_eq!(stats.sessions, 1);
    assert_eq!(stats.direct_sessions, 1);
    assert_eq!(stats.one_shot_sessions, 0);
    assert_eq!(stats.establishing_direct_sessions, 1);
    assert_eq!(stats.active_direct_sessions, 0);
    assert_eq!(stats.idle_direct_sessions, 0);
    assert_eq!(stats.in_flight_deliveries, 1);
}

#[test]
fn start_delivery_names_the_link_or_asks_for_one() {
    let mut manager = manager();
    match manager.start_delivery(signed(1), DEST, 2).ok().unwrap() {
        DeliveryStart::OpenLink(request) => {
            manager.link_opened(request, LINK);
        }
        DeliveryStart::Attached(_) => panic!("there is no link yet"),
    }
    match manager.start_delivery(signed(2), DEST, 2).ok().unwrap() {
        DeliveryStart::Attached(link_id) => assert_eq!(link_id, LINK),
        DeliveryStart::OpenLink(_) => panic!("the link is cached"),
    }
}

#[test]
fn messages_share_one_link_in_the_order_in_which_they_came() {
    let mut manager = manager();
    let first = open_first(&mut manager, 1);
    for seed in 2..4u8 {
        let report = attached(
            manager
                .start_delivery_with_report(signed(seed), DEST, 2)
                .ok()
                .unwrap(),
        );
        assert_eq!(report.kind, DirectLinkStartKind::QueuedOnDirect);
        assert_eq!(report.queued_deliveries, usize::from(seed) - 1);
        assert_eq!(report.delivery_state, DeliveryState::Establishing);
    }
    assert_eq!(manager.pending_count(), 3);
    assert_eq!(manager.session_count(), 1);
    let events = manager.take_delivery_events();
    assert_eq!(events.len(), 3);
    assert_eq!(events[1].kind, LxmfDeliveryEventKind::DirectLinkPending);
    assert_eq!(f64::from_bits(events[1].progress.unwrap().bits), 0.03);

    let snapshot = manager.message_delivery_snapshot([3; 32]).unwrap();
    assert!(snapshot.queued);
    assert_eq!(snapshot.queued_deliveries, 2);
    assert_eq!(snapshot.in_flight_deliveries, 3);
    let snapshot = manager.message_delivery_snapshot([1; 32]).unwrap();
    assert!(!snapshot.queued);
    assert_eq!(snapshot.delivery_state, DeliveryState::Establishing);

    assert!(manager.tick().is_empty());
    assert!(first.send(Ok(LinkPayloadSendReceipt::Packet)).is_ok());
    let results = manager.tick();
    assert_eq!(results.len(), 1);
    assert!(matches!(
        &results[0],
        DeliveryResult::Complete { link_id, msg_hash: Some(hash) }
            if *link_id == LINK && *hash == [1; 32]
    ));
    let events = manager.take_delivery_events();
    assert_eq!(events.len(), 1);
    assert_eq!(events[0].kind, LxmfDeliveryEventKind::Delivered);
    assert_eq!(events[0].method, LxmfDeliveryEventMethod::Direct);
    assert_eq!(events[0].representation, DeliveryRepresentation::Packet);
    assert_eq!(events[0].link_state, LinkState::Active);
    assert_eq!(events[0].delivery_state, DeliveryState::Complete);
    assert_eq!(f64::from_bits(events[0].progress.unwrap().bits), 1.0);
    assert_eq!(events[0].queued_deliveries, 2);
    assert_eq!(manager.stats().idle_direct_sessions, 1);

    // The next round sends the message that waited longest.
    assert!(manager.tick().is_empty());
    let mut commands = manager.take_link_commands();
    assert_eq!(commands.len(), 1);
    let second = match commands.pop().unwrap() {
        LinkCommand::SendPayload {
            payload, result_tx, ..
        } => {
            assert_eq!(payload, vec![2, 2]);
            result_tx
        }
        _ => panic!("no payload is sent"),
    };
    let snapshot = manager.message_delivery_snapshot([2; 32]).unwrap();
    assert!(!snapshot.queued);
    assert_eq!(snapshot.delivery_state, DeliveryState::Transferring);
    assert_eq!(f64::from_bits(snapshot.progress.bits), 0.05);

    assert!(second.send(Ok(LinkPayloadSendReceipt::Resource)).is_ok());
    assert_eq!(manager.tick().len(), 1);
    let events = manager.take_delivery_events();
    assert_eq!(events[0].representation, DeliveryRepresentation::Resource);
    assert_eq!(manager.pending_count(), 1);
    assert!(manager.tick().is_empty());
    let third = sender(&mut manager);
    assert!(third.send(Ok(LinkPayloadSendReceipt::Packet)).is_ok());
    assert_eq!(manager.tick().len(), 1);
    assert_eq!(manager.pending_count(), 0);
    assert!(manager.message_delivery_snapshot([3; 32]).is_none());
    assert_eq!(manager.session_count(), 1);
}

#[test]
fn failed_link_hands_all_its_messages_back() {
    let mut manager = manager();
    let first = open_first(&mut manager, 1);
    attached(
        manager
            .start_delivery_with_report(signed(2), DEST, 2)
            .ok()
            .unwrap(),
    );
    manager.take_delivery_events();
    assert!(first.send(Err("link closed".to_string())).is_ok());
    let results = manager.tick();
    assert_eq!(results.len(), 2);
    for (seed, result) in (1u8..).zip(results.iter()) {
        assert!(matches!(
            result,
            DeliveryResult::Failed { link_id, msg_hash: Some(hash), dest_hash, message, reason }
                if *link_id == LINK
                    && *hash == [seed; 32]
                    && *dest_hash == DEST
                    && message.hash == Some([seed; 32])
                    && reason == "link closed"
        ));
    }
    let events = manager.take_delivery_events();
    assert_eq!(events.len(), 2);
    for (seed, event) in (1u8..).zip(events.iter()) {
        assert_eq!(event.kind, LxmfDeliveryEventKind::Failed);
        assert_eq!(event.msg_hash, Some([seed; 32]));
        assert_eq!(event.reason.as_deref(), Some("link closed"));
        assert_eq!(event.link_state, LinkState::Closed);
    }
    let commands = manager.take_link_commands();
    assert!(matches!(&commands[..], [LinkCommand::Close { link_id }] if *link_id == LINK));
    assert_eq!(manager.session_count(), 0);
    assert!(!manager.delivery_link_available(&DEST));
    assert!(manager.direct_link_snapshot(DEST).is_none());
}

#[test]
fn stopped_link_task_fails_the_delivery() {
    let mut manager = manager();
    drop(open_first(&mut manager, 1));
    let results = manager.tick();
    assert!(matches!(
        &results[..],
        [DeliveryResult::Failed { reason, .. }] if reason == "Link session task stopped"
    ));
}

#[test]
fn overdue_delivery_fails_with_its_link() {
    let mut manager = manager_with(LinkTiming {
        establishment_per_hop: 0,
        keepalive: 0,
    });
    let _answer = open_first(&mut manager, 1);
    let opened = Instant::now();
    while opened.elapsed().as_millis() < 2 {}
    let results = manager.tick();
    assert!(matches!(
        &results[..],
        [DeliveryResult::Failed { reason, .. }] if reason == "delivery timeout"
    ));
    assert_eq!(manager.session_count(), 0);
    assert!(!manager.delivery_link_available(&DEST));
}

#[test]
fn active_idle_link_takes_the_next_message_at_once() {
    let mut manager = manager();
    let first = open_first(&mut manager, 1);
    assert!(first.send(Ok(LinkPayloadSendReceipt::Packet)).is_ok());
    assert_eq!(manager.tick().len(), 1);
    manager.take_delivery_events();
    let report = attached(
        manager
            .start_delivery_with_report(signed(2), DEST, 2)
            .ok()
            .unwrap(),
    );
    assert_eq!(report.kind, DirectLinkStartKind::ReusedActiveDirect);
    assert_eq!(report.link_state, LinkState::Active);
    assert_eq!(report.delivery_state, DeliveryState::Identifying);
    assert_eq!(report.queued_deliveries, 0);
    assert_eq!(report.in_flight_deliveries, 1);
    let events = manager.take_delivery_events();
    assert_eq!(events[0].kind, LxmfDeliveryEventKind::DirectLinkReused);
    assert_eq!(f64::from_bits(events[0].progress.unwrap().bits), 0.05);
    let snapshot = manager.direct_link_snapshot(DEST).unwrap();
    assert_eq!(snapshot.link_id, LINK);
    assert!(!snapshot.idle_expired);
    assert_eq!(snapshot.in_flight_deliveries, 1);
}

#[test]
fn message_that_an_idle_link_accepted_goes_out_in_the_next_round() {
    let mut manager = manager();
    let first = open_first(&mut manager, 1);
    assert!(first.send(Ok(LinkPayloadSendReceipt::Packet)).is_ok());
    assert_eq!(manager.tick().len(), 1);
    let report = attached(
        manager
            .start_delivery_with_report(signed(2), DEST, 2)
            .ok()
            .unwrap(),
    );
    assert_eq!(report.kind, DirectLinkStartKind::ReusedActiveDirect);
    assert!(manager.take_link_commands().is_empty());

    // Another one waits behind it.
    let report = attached(
        manager
            .start_delivery_with_report(signed(3), DEST, 2)
            .ok()
            .unwrap(),
    );
    assert_eq!(report.kind, DirectLinkStartKind::QueuedOnDirect);

    assert!(manager.tick().is_empty());
    let mut commands = manager.take_link_commands();
    assert_eq!(commands.len(), 1);
    let second = match commands.pop().unwrap() {
        LinkCommand::SendPayload {
            link_id,
            payload,
            result_tx,
            ..
        } => {
            assert_eq!(link_id, LINK);
            assert_eq!(payload, vec![2, 2]);
            result_tx
        }
        _ => panic!("no payload is sent"),
    };
    let snapshot = manager.message_delivery_snapshot([2; 32]).unwrap();
    assert_eq!(snapshot.delivery_state, DeliveryState::Transferring);

    // It goes out once.
    assert!(manager.tick().is_empty());
    assert!(manager.take_link_commands().is_empty());

    assert!(second.send(Ok(LinkPayloadSendReceipt::Packet)).is_ok());
    let results = manager.tick();
    assert!(matches!(
        &results[..],
        [DeliveryResult::Complete { msg_hash: Some(hash), .. }] if *hash == [2; 32]
    ));
    assert_eq!(manager.pending_count(), 1);
    assert!(manager.tick().is_empty());
    let third = sender(&mut manager);
    assert!(third.send(Ok(LinkPayloadSendReceipt::Packet)).is_ok());
    assert_eq!(manager.tick().len(), 1);
    assert_eq!(manager.pending_count(), 0);
}

#[test]
fn idle_link_with_waiting_messages_lets_the_next_one_wait() {
    let mut manager = manager();
    let first = open_first(&mut manager, 1);
    attached(
        manager
            .start_delivery_with_report(signed(2), DEST, 2)
            .ok()
            .unwrap(),
    );
    assert!(first.send(Ok(LinkPayloadSendReceipt::Packet)).is_ok());
    assert_eq!(manager.tick().len(), 1);
    assert_eq!(manager.stats().idle_direct_sessions, 1);
    manager.take_delivery_events();

    let report = attached(
        manager
            .start_delivery_with_report(signed(3), DEST, 2)
            .ok()
            .unwrap(),
    );
    assert_eq!(report.kind, DirectLinkStartKind::QueuedOnDirect);
    assert_eq!(report.delivery_state, DeliveryState::Identifying);
    assert_eq!(report.queued_deliveries, 1);
    assert_eq!(report.in_flight_deliveries, 1);
    let events = manager.take_delivery_events();
    assert_eq!(events.len(), 1);
    assert_eq!(events[0].kind, LxmfDeliveryEventKind::DirectLinkPending);
    assert_eq!(events[0].msg_hash, Some([3; 32]));
    assert!(
        !manager
            .message_delivery_snapshot([2; 32])
            .unwrap()
            .queued
    );
    assert!(
        manager
            .message_delivery_snapshot([3; 32])
            .unwrap()
            .queued
    );
    assert!(manager.tick().is_empty());
    let commands = manager.take_link_commands();
    assert!(matches!(
        &commands[..],
        [LinkCommand::SendPayload { payload, .. }] if *payload == vec![2, 2]
    ));
}

#[test]
fn accepted_message_without_wire_form_becomes_a_failed_delivery() {
    let mut manager = manager();
    let first = open_first(&mut manager, 1);
    assert!(first.send(Ok(LinkPayloadSendReceipt::Packet)).is_ok());
    assert_eq!(manager.tick().len(), 1);
    let report = attached(
        manager
            .start_delivery_with_report(unsigned(2), DEST, 2)
            .ok()
            .unwrap(),
    );
    assert_eq!(report.kind, DirectLinkStartKind::ReusedActiveDirect);
    assert!(manager.tick().is_empty());
    assert!(manager.take_link_commands().is_empty());
    let snapshot = manager.direct_link_snapshot(DEST).unwrap();
    assert_eq!(snapshot.delivery_state, DeliveryState::Failed);
    assert_eq!(manager.pending_count(), 1);
}

#[test]
fn link_idle_for_too_long_is_closed_and_opened_anew() {
    let mut manager = manager();
    let first = open_first(&mut manager, 1);
    assert!(first.send(Ok(LinkPayloadSendReceipt::Packet)).is_ok());
    assert_eq!(manager.tick().len(), 1);

    assert!(manager.delivery_link_available_after(&DEST, LINK_MAX_INACTIVITY));
    assert!(!manager.delivery_link_available_after(&DEST, LINK_MAX_INACTIVITY + 1));
    assert!(
        !manager
            .direct_link_snapshot_after(DEST, LINK_MAX_INACTIVITY)
            .unwrap()
            .idle_expired
    );
    assert!(
        manager
            .direct_link_snapshot_after(DEST, LINK_MAX_INACTIVITY + 1)
            .unwrap()
            .idle_expired
    );

    let started = manager
        .start_direct_delivery(
            signed(2),
            DEST,
            2,
            LINK_MAX_INACTIVITY + 1,
            Instant::now(),
        )
        .ok()
        .unwrap();
    open_request(started);
    assert_eq!(manager.session_count(), 0);
    let commands = manager.take_link_commands();
    assert!(matches!(
        &commands[..],
        [
            LinkCommand::Close { link_id: closed },
            LinkCommand::DeregisterDestination { link_id: forgotten },
        ] if *closed == LINK && *forgotten == LINK
    ));
}

#[test]
fn propagation_deposit_uses_its_link_once() {
    let mut manager = manager();
    let request = manager
        .start_packed_delivery(signed(4), DEST, 0, vec![8, 8, 8], false)
        .ok()
        .unwrap();
    assert!(!request.reusable);
    assert_eq!(request.establishment_timeout, 6_000_000_000);
    assert!(request.inbound_packet_tx.is_none());
    manager.link_opened(request, LINK);
    assert!(manager.take_delivery_events().is_empty());
    assert!(!manager.delivery_link_available(&DEST));
    let stats = manager.stats();
    assert_eq!(stats.one_shot_sessions, 1);
    assert_eq!(stats.direct_sessions, 0);
    let mut commands = manager.take_link_commands();
    let answer = match commands.pop().unwrap() {
        LinkCommand::SendPayload {
            payload,
            auto_compress,
            identify_before_send,
            result_tx,
            ..
        } => {
            assert_eq!(payload, vec![8, 8, 8]);
            assert!(!auto_compress);
            assert!(identify_before_send);
            result_tx
        }
        _ => panic!("no payload is sent"),
    };
    assert!(answer.send(Ok(LinkPayloadSendReceipt::Packet)).is_ok());
    let results = manager.tick();
    assert!(matches!(
        &results[..],
        [DeliveryResult::Complete { msg_hash: Some(hash), .. }] if *hash == [4; 32]
    ));
    let events = manager.take_delivery_events();
    assert_eq!(
        events[0].method,
        LxmfDeliveryEventMethod::PropagationDeposit
    );
    assert_eq!(manager.session_count(), 0);
    let commands = manager.take_link_commands();
    assert!(matches!(&commands[..], [LinkCommand::Close { link_id }] if *link_id == LINK));
}

#[test]
fn failing_the_current_message_fails_those_behind_it() {
    let mut manager = manager();
    let _answer = open_first(&mut manager, 1);
    attached(
        manager
            .start_delivery_with_report(signed(2), DEST, 2)
            .ok()
            .unwrap(),
    );
    manager.take_delivery_events();
    let results = manager.fail_delivery_by_message_hash([1; 32], "gave up");
    assert_eq!(results.len(), 2);
    assert_eq!(manager.take_delivery_events().len(), 2);
    assert_eq!(manager.pending_count(), 0);
    assert_eq!(manager.session_count(), 0);
    assert!(!manager.delivery_link_available(&DEST));
    assert!(manager.take_link_commands().is_empty());
}

#[test]
fn failing_a_waiting_message_leaves_the_others() {
    let mut manager = manager();
    let _answer = open_first(&mut manager, 1);
    for seed in 2..5u8 {
        attached(
            manager
                .start_delivery_with_report(signed(seed), DEST, 2)
                .ok()
                .unwrap(),
        );
    }
    manager.take_delivery_events();
    let results = manager.fail_delivery_by_message_hash([3; 32], "gave up");
    assert!(matches!(
        &results[..],
        [DeliveryResult::Failed { msg_hash: Some(hash), reason, .. }]
            if *hash == [3; 32] && reason == "gave up"
    ));
    assert_eq!(manager.pending_count(), 3);
    assert!(manager.message_delivery_snapshot([3; 32]).is_none());
    assert!(manager.message_delivery_snapshot([2; 32]).is_some());
    assert!(manager.message_delivery_snapshot([4; 32]).is_some());
    assert!(manager
        .fail_delivery_by_message_hash([9; 32], "gave up")
        .is_empty());
}

#[test]
fn cancelling_the_current_message_closes_its_link_without_a_word() {
    let mut manager = manager();
    let _answer = open_first(&mut manager, 1);
    attached(
        manager
            .start_delivery_with_report(signed(2), DEST, 2)
            .ok()
            .unwrap(),
    );
    manager.take_delivery_events();
    assert!(manager.cancel_delivery_by_message_hash([1; 32]));
    assert!(manager.take_delivery_events().is_empty());
    let commands = manager.take_link_commands();
    assert_eq!(commands.len(), 2);
    assert!(commands
        .iter()
        .all(|command| matches!(command, LinkCommand::Close { link_id } if *link_id == LINK)));
    assert_eq!(manager.session_count(), 0);
    assert!(!manager.cancel_delivery_by_message_hash([1; 32]));
}

#[test]
fn cancelling_a_waiting_message_leaves_the_others() {
    let mut manager = manager();
    let _answer = open_first(&mut manager, 1);
    attached(
        manager
            .start_delivery_with_report(signed(2), DEST, 2)
            .ok()
            .unwrap(),
    );
    assert!(manager.cancel_delivery_by_message_hash([2; 32]));
    assert_eq!(manager.pending_count(), 1);
    assert!(manager.message_delivery_snapshot([1; 32]).is_some());
    assert!(manager.message_delivery_snapshot([2; 32]).is_none());
}

#[test]
fn waiting_message_without_wire_form_becomes_a_failed_delivery() {
    let mut manager = manager();
    let first = open_first(&mut manager, 1);
    attached(
        manager
            .start_delivery_with_report(unsigned(2), DEST, 2)
            .ok()
            .unwrap(),
    );
    assert!(first.send(Ok(LinkPayloadSendReceipt::Packet)).is_ok());
    assert_eq!(manager.tick().len(), 1);
    assert!(manager.tick().is_empty());
    assert!(manager.take_link_commands().is_empty());
    let snapshot = manager.direct_link_snapshot(DEST).unwrap();
    assert_eq!(snapshot.delivery_state, DeliveryState::Failed);
    assert_eq!(manager.pending_count(), 1);
}

#[test]
fn noted_link_answers_over_the_given_channel() {
    let mut manager = manager();
    let request = open_request(
        manager
            .start_delivery_with_report(signed(1), DEST, 1)
            .ok()
            .unwrap(),
    );
    let (result_tx, receiver) = oneshot::channel();
    let (other_tx, other_rx) = oneshot::channel();
    manager.note_opened_link(request, LINK, other_tx, receiver, Instant::now());
    assert!(result_tx.send(Ok(LinkPayloadSendReceipt::Packet)).is_ok());
    assert_eq!(manager.tick().len(), 1);
    drop(manager);
    drop(other_rx);
}
