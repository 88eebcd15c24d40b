use lxmf_core::backchannel::{BackchannelSendError, BackchannelSendReceipt};
use lxmf_core::events::{DeliveryResult, LxmfDeliveryEventKind};
use lxmf_core::failure::is_retryable_link_delivery_failure;
use lxmf_core::manager::LinkDeliveryManager;
use lxmf_core::message::{LxMessage, SignedForm};
use lxmf_core::types::{DeliveryMethod, DeliveryRepresentation, Progress};
use tokio::sync::mpsc;

fn fraction(progress: Option<Progress>) -> Option<f64> {
    progress.map(|progress| f64::from_bits(progress.bits))
}

fn signed_message(content: &str, seed: u8) -> LxMessage {
    let mut message = LxMessage::new(
        [0xAA; 16],
        [0xBB; 16],
        "Backchannel",
        content,
        DeliveryMethod::Direct,
    );
    message.set_signed(SignedForm {
        hash: [seed; 32],
        signature: [seed; 64],
        packed: vec![seed; 112],
    });
    message
}

#[test]
fn test_link_delivery_manager_creation() {
    let mgr = LinkDeliveryManager::new();
    assert_eq!(mgr.pending_count(), 0);
}

#[test]
fn test_backchannel_delivery_uses_registered_link_and_packet_proof() {
    let (cmd_tx, mut cmd_rx) = mpsc::channel(16);
    let mut mgr = LinkDeliveryManager::new();
    mgr.set_backchannel_sender(cmd_tx);

    let dest_hash = [0xD1; 16];
    let link_id = [0xE1; 16];
    let packet_hash = [0xF1; 32];
    mgr.register_backchannel(dest_hash, link_id);
    assert!(mgr.delivery_link_available(&dest_hash));
    assert_eq!(
        mgr.backchannel_link_snapshot(dest_hash).unwrap().link_id,
        link_id
    );

    let msg = signed_message("packet proof", 0x11);
    let msg_hash = msg.hash;

    let report = mgr.start_backchannel_delivery(msg, dest_hash).unwrap();
    assert_eq!(report.link_id, link_id);
    assert_eq!(mgr.pending_count(), 1);
    let events = mgr.take_delivery_events();
    assert_eq!(events.len(), 1);
    assert_eq!(events[0].kind, LxmfDeliveryEventKind::BackchannelLinkReused);
    assert_eq!(fraction(events[0].progress), Some(0.05));

    let command = cmd_rx.try_recv().expect("backchannel send command");
    assert_eq!(command.link_id, link_id);
    assert!(!command.payload.is_empty());
    assert!(command
        .result_tx
        .send(Ok(BackchannelSendReceipt::Packet {
            link_id,
            packet_hash,
        }))
        .is_ok());

    assert!(mgr.tick().is_empty());
    let events = mgr.take_delivery_events();
    assert!(events.iter().any(|event| {
        event.kind == LxmfDeliveryEventKind::AwaitingProof
            && fraction(event.progress) == Some(0.50)
            && event.representation == DeliveryRepresentation::Packet
    }));
    assert_eq!(mgr.pending_count(), 1);
    assert_eq!(mgr.stats().pending_backchannel_deliveries, 1);

    let result = mgr
        .handle_backchannel_packet_proof(link_id, packet_hash)
        .expect("packet proof completes backchannel delivery");
    assert!(matches!(
        result,
        DeliveryResult::Complete {
            link_id: id,
            msg_hash: hash,
        } if id == link_id && hash == msg_hash
    ));
    let events = mgr.take_delivery_events();
    assert!(events.iter().any(|event| {
        event.kind == LxmfDeliveryEventKind::Delivered && fraction(event.progress) == Some(1.0)
    }));
    assert_eq!(mgr.pending_count(), 0);
    assert_eq!(mgr.stats().backchannel_sessions, 1);
}

#[test]
fn test_backchannel_send_error_removes_link_and_fails_message() {
    let (cmd_tx, mut cmd_rx) = mpsc::channel(16);
    let mut mgr = LinkDeliveryManager::new();
    mgr.set_backchannel_sender(cmd_tx);

    let dest_hash = [0xD2; 16];
    let link_id = [0xE2; 16];
    mgr.register_backchannel(dest_hash, link_id);

    let msg = signed_message("send failure", 0x12);
    let msg_hash = msg.hash;

    mgr.start_backchannel_delivery(msg, dest_hash).unwrap();
    let command = cmd_rx.try_recv().expect("backchannel send command");
    assert!(command
        .result_tx
        .send(Err(BackchannelSendError::LinkNotActive))
        .is_ok());

    let results = mgr.tick();
    assert!(results.iter().any(|result| matches!(
        result,
        DeliveryResult::Failed {
            link_id: id,
            msg_hash: hash,
            dest_hash: dest,
            reason,
            ..
        } if *id == link_id
            && *hash == msg_hash
            && *dest == dest_hash
            && reason == "link is not active"
            && is_retryable_link_delivery_failure(reason)
    )));
    assert!(!mgr.delivery_link_available(&dest_hash));
    let events = mgr.take_delivery_events();
    assert!(events
        .iter()
        .any(|event| event.kind == LxmfDeliveryEventKind::Failed));
}

#[test]
fn test_fail_backchannel_link_removes_cached_link() {
    let mut mgr = LinkDeliveryManager::new();
    let link_id = [0xEA; 16];
    let first_dest = [0xD4; 16];
    let second_dest = [0xD5; 16];
    let other_dest = [0xD6; 16];
    mgr.register_backchannel(first_dest, link_id);
    mgr.register_backchannel(second_dest, link_id);
    mgr.register_backchannel(other_dest, [0xEB; 16]);

    let results = mgr.fail_backchannel_link(link_id, "link closed");

    assert!(results.is_empty());
    assert!(!mgr.delivery_link_available(&first_dest));
    assert!(!mgr.delivery_link_available(&second_dest));
    assert!(mgr.delivery_link_available(&other_dest));
}

#[test]
fn test_fail_backchannel_link_fails_pending_delivery() {
    let (cmd_tx, mut cmd_rx) = mpsc::channel(16);
    let mut mgr = LinkDeliveryManager::new();
    mgr.set_backchannel_sender(cmd_tx);

    let dest_hash = [0xD7; 16];
    let link_id = [0xE7; 16];
    let packet_hash = [0xF7; 32];
    mgr.register_backchannel(dest_hash, link_id);

    let msg = signed_message("closed while awaiting proof", 0x17);
    let msg_hash = msg.hash;

    mgr.start_backchannel_delivery(msg, dest_hash).unwrap();
    let command = cmd_rx.try_recv().expect("backchannel send command");
    assert!(command
        .result_tx
        .send(Ok(BackchannelSendReceipt::Packet {
            link_id,
            packet_hash,
        }))
        .is_ok());
    assert!(mgr.tick().is_empty());
    assert_eq!(mgr.stats().pending_backchannel_deliveries, 1);

    let results = mgr.fail_backchannel_link(link_id, "link closed");

    assert!(matches!(
        results.as_slice(),
        [DeliveryResult::Failed {
            link_id: id,
            msg_hash: hash,
            dest_hash: dest,
            reason,
            ..
        }] if *id == link_id
            && *hash == msg_hash
            && *dest == dest_hash
            && reason == "link closed"
    ));
    assert!(!mgr.delivery_link_available(&dest_hash));
    assert_eq!(mgr.stats().pending_backchannel_deliveries, 0);
}

#[test]
fn test_retryable_link_delivery_failure_includes_stale_backchannels() {
    assert!(is_retryable_link_delivery_failure(
        "link establishment timeout"
    ));
    assert!(is_retryable_link_delivery_failure("link closed"));
    assert!(is_retryable_link_delivery_failure("link not found"));
    assert!(is_retryable_link_delivery_failure("link is not active"));
    assert!(is_retryable_link_delivery_failure(
        "link session keys are unavailable"
    ));
    assert!(is_retryable_link_delivery_failure(
        "transport channel is full or closed"
    ));
    assert!(is_retryable_link_delivery_failure(
        "backchannel send command timeout"
    ));
    assert!(!is_retryable_link_delivery_failure(
        "resource transfer could not be started"
    ));
}

#[test]
fn test_fail_delivery_by_message_hash_aborts_backchannel_start() {
    let (cmd_tx, _cmd_rx) = mpsc::channel(16);
    let mut mgr = LinkDeliveryManager::new();
    mgr.set_backchannel_sender(cmd_tx);

    let dest_hash = [0xD4; 16];
    let link_id = [0xE4; 16];
    let msg = signed_message("stale backchannel delivery", 0x14);
    let msg_hash = msg.hash.unwrap();

    mgr.register_backchannel(dest_hash, link_id);
    mgr.start_backchannel_delivery(msg, dest_hash).unwrap();

    let results = mgr.fail_delivery_by_message_hash(msg_hash, "direct fallback timeout");
    assert_eq!(results.len(), 1);
    assert!(matches!(
        &results[0],
        DeliveryResult::Failed {
            link_id: id,
            msg_hash: Some(hash),
            dest_hash: dest,
            reason,
            ..
        } if *id == link_id
            && *hash == msg_hash
            && *dest == dest_hash
            && reason == "direct fallback timeout"
    ));
    assert_eq!(mgr.pending_count(), 0);
    assert!(!mgr.delivery_link_available(&dest_hash));
}
