use lxmf_core::commands::LinkPayloadSendReceipt;
use lxmf_core::keyed::KeyedList;
use lxmf_core::link_table::LinkTable;
use lxmf_core::message::LxMessage;
use lxmf_core::model::LinkTiming;
use lxmf_core::payload_send::{SendAction, SendEvent, SendStage, SendStep};
use lxmf_core::queue::{DirectDeliveryQueue, QueuedDelivery};
use lxmf_core::reports::LinkDeliveryStats;
use lxmf_core::text::hex_encode;
use lxmf_core::types::{
    DeliveryMethod, Progress, PROGRESS_DONE, PROGRESS_LINK_PENDING, PROGRESS_LINK_READY,
    PROGRESS_NONE, PROGRESS_PACKET_SENT, PROGRESS_RESOURCE_STARTED,
};

fn message(seed: u8) -> LxMessage {
    let mut message = LxMessage::new([seed; 16], [0; 16], "", "", DeliveryMethod::Direct);
    message.hash = Some([seed; 32]);
    message
}

#[test]
fn hexadecimal_text_is_lower_case() {
    assert_eq!(hex_encode(&[]), "");
    assert_eq!(hex_encode(&[0x00, 0x0F, 0xA5, 0xFF]), "000fa5ff");
    assert_ne!(hex_encode(&[0x01, 0x10]), hex_encode(&[0x10, 0x01]));
}

#[test]
fn progress_constants_are_the_fractions_they_stand_for() {
    assert_eq!(f64::from_bits(PROGRESS_NONE), 0.0);
    assert_eq!(f64::from_bits(PROGRESS_LINK_PENDING), 0.03);
    assert_eq!(f64::from_bits(PROGRESS_LINK_READY), 0.05);
    assert_eq!(f64::from_bits(PROGRESS_RESOURCE_STARTED), 0.10);
    assert_eq!(f64::from_bits(PROGRESS_PACKET_SENT), 0.50);
    assert_eq!(f64::from_bits(PROGRESS_DONE), 1.0);
}

#[test]
fn progress_is_raised_as_the_maximum_of_doubles() {
    let floor = 0.05f64;
    for value in [
        0.0,
        0.03,
        0.05,
        0.5,
        1.0,
        -0.0,
        -1.0,
        f64::INFINITY,
        f64::NEG_INFINITY,
        f64::NAN,
    ] {
        let raised = Progress {
            bits: value.to_bits(),
        }
        .at_least(Progress {
            bits: floor.to_bits(),
        });
        assert_eq!(f64::from_bits(raised.bits), value.max(floor));
    }
}

#[test]
fn link_timing_counts_one_hop_at_least() {
    let timing = LinkTiming {
        establishment_per_hop: 6,
        keepalive: 360,
    };
    assert_eq!(timing.establishment_timeout(0), 6);
    assert_eq!(timing.establishment_timeout(1), 6);
    assert_eq!(timing.establishment_timeout(4), 24);
    assert_eq!(timing.delivery_timeout(4), 384);
    let slow = LinkTiming {
        establishment_per_hop: u64::MAX,
        keepalive: u64::MAX,
    };
    assert_eq!(slow.delivery_timeout(255), u128::from(u64::MAX) * 256);
}

#[test]
fn queue_is_first_in_first_out() {
    let mut queue = DirectDeliveryQueue::new();
    assert!(queue.is_empty());
    assert!(queue.pop().is_none());
    for seed in 1..5u8 {
        queue.push(QueuedDelivery::new(message(seed), None, true));
    }
    assert_eq!(queue.len(), 4);
    assert_eq!(queue.position_by_hash([3; 32]), Some(2));
    assert_eq!(queue.position_by_hash([9; 32]), None);
    assert_eq!(queue.get(2).unwrap().msg_hash, Some([3; 32]));
    assert!(queue.get(4).is_none());
    assert_eq!(queue.pop().unwrap().msg_hash, Some([1; 32]));
    assert_eq!(queue.remove(1).unwrap().msg_hash, Some([3; 32]));
    assert!(queue.remove(2).is_none());
    let rest: Vec<Option<[u8; 32]>> = queue
        .drain()
        .iter()
        .map(|queued| queued.msg_hash)
        .collect();
    assert_eq!(rest, vec![Some([2; 32]), Some([4; 32])]);
    assert!(queue.is_empty());
}

#[test]
fn keyed_list_holds_each_key_once() {
    let mut list: KeyedList<[u8; 16], LxMessage> = KeyedList::new();
    list.insert([1; 16], message(1));
    list.insert([2; 16], message(2));
    list.insert([1; 16], message(3));
    assert_eq!(list.len(), 2);
    assert_eq!(list.position(&[2; 16]), Some(1));
    assert_eq!(list.get(&[1; 16]).unwrap().hash, Some([3; 32]));
    assert_eq!(list.remove(&[1; 16]).unwrap().hash, Some([3; 32]));
    assert!(list.remove(&[1; 16]).is_none());
    assert_eq!(list.len(), 1);
}

#[test]
fn link_table_maps_destinations_to_links() {
    let mut table = LinkTable::new();
    table.insert([1; 16], [7; 16]);
    table.insert([2; 16], [7; 16]);
    table.insert([3; 16], [8; 16]);
    table.insert([3; 16], [9; 16]);
    assert_eq!(table.len(), 3);
    assert_eq!(table.get(&[3; 16]), Some([9; 16]));
    table.remove_link(&[7; 16]);
    assert_eq!(table.len(), 1);
    assert!(!table.contains(&[1; 16]));
    assert_eq!(table.remove(&[3; 16]), Some([9; 16]));
    assert_eq!(table.remove(&[3; 16]), None);
}

#[test]
fn default_numbers_are_zero() {
    let stats = LinkDeliveryStats::default();
    assert_eq!(stats.sessions, 0);
    assert_eq!(stats.queued_deliveries, 0);
    assert_eq!(stats.pending_backchannel_deliveries, 0);
}

#[test]
fn payload_send_identifies_first_or_last() {
    let first = SendStage::begin(true);
    assert_eq!(first.action(), SendAction::Identify);
    assert!(matches!(
        first.next(SendEvent::Identified(Err("refused".to_string()))),
        SendStep::Answer(Err(reason)) if reason == "refused"
    ));
    let second = match first.next(SendEvent::Identified(Ok(()))) {
        SendStep::Continue(stage) => stage,
        SendStep::Answer(_) => panic!("nothing was sent"),
    };
    assert_eq!(second.action(), SendAction::SendPayload);
    assert!(matches!(
        second.next(SendEvent::Sent(Ok(LinkPayloadSendReceipt::Packet))),
        SendStep::Answer(Ok(LinkPayloadSendReceipt::Packet))
    ));

    let first = SendStage::begin(false);
    assert_eq!(first.action(), SendAction::SendPayload);
    assert!(matches!(
        first.next(SendEvent::Sent(Err("lost".to_string()))),
        SendStep::Answer(Err(reason)) if reason == "lost"
    ));
    let last = match first.next(SendEvent::Sent(Ok(LinkPayloadSendReceipt::Resource))) {
        SendStep::Continue(stage) => stage,
        SendStep::Answer(_) => panic!("nobody was identified"),
    };
    assert_eq!(last.action(), SendAction::Identify);
    assert!(matches!(
        last.next(SendEvent::Identified(Err("refused".to_string()))),
        SendStep::Answer(Ok(LinkPayloadSendReceipt::Resource))
    ));
}
