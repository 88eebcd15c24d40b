use lxmf_core::backchannel::{BackchannelSendCommand, BackchannelSendError};
use lxmf_core::commands::{LinkCommand, LinkPayloadSendReceipt, LinkReply};
use lxmf_core::events::{DeliveryResult, LxmfDeliveryEvent, LxmfDeliveryEventKind};
use lxmf_core::manager::{KnownIdentity, LinkDeliveryManager};
use lxmf_core::message::{LxMessage, SignedForm};
use lxmf_core::model::{DirectLinkStartKind, LinkTiming};
use lxmf_core::reports::{DeliveryStart, DirectStart, LinkDeliveryStats};
use lxmf_core::text::hex_encode;
use lxmf_core::types::DeliveryMethod;
use tokio::sync::{mpsc, oneshot};

fn signed(seed: u8) -> LxMessage {
    let mut message = LxMessage::new([seed; 16], [0xBB; 16], "T", "C", DeliveryMethod::Direct);
    message.delivery_attempts = u32::from(seed) + 1;
    message.set_signed(SignedForm {
        hash: [seed; 32],
        signature: [seed; 64],
        packed: vec![seed],
    });
    message
}

fn dest(seed: u8) -> [u8; 16] {
    [0xD0 + seed; 16]
}

fn link(seed: u8) -> [u8; 16] {
    [0xE0 + seed; 16]
}

struct Setting {
    manager: LinkDeliveryManager,
    answers: Vec<([u8; 16], oneshot::Sender<LinkReply>)>,
    commands: mpsc::Receiver<BackchannelSendCommand>,
}

fn collect(setting: &mut Setting) {
    for command in setting.manager.take_link_commands() {
        if let LinkCommand::SendPayload {
            link_id, result_tx, ..
        } = command
        {
            setting.answers.push((link_id, result_tx));
        }
    }
}

fn answer(setting: &mut Setting, link_id: [u8; 16], reply: LinkReply) {
    let at = setting
        .answers
        .iter()
        .position(|(id, _)| *id == link_id)
        .unwrap();
    let (_, result_tx) = setting.answers.remove(at);
    assert!(result_tx.send(reply).is_ok());
}

/// Two Direct links, the first with two messages waiting, a deposit, and two sends over
/// a backchannel.
fn setting() -> Setting {
    let (tx, commands) = mpsc::channel(8);
    let mut manager = LinkDeliveryManager::new();
    manager.set_backchannel_sender(tx);
    manager.set_runtime(LinkTiming {
        establishment_per_hop: 6_000_000_000,
        keepalive: 360_000_000_000,
    });
    let known: Vec<KnownIdentity> = (0..4u8)
        .map(|seed| KnownIdentity {
            name: hex_encode(&dest(seed)),
            public_key: [seed; 64],
        })
        .collect();
    manager.drain_events(&known);
    for (seed, to) in [(10u8, 0u8), (11, 1), (12, 0), (13, 0)] {
        match manager.start_delivery(signed(seed), dest(to), 1).ok().unwrap() {
            DeliveryStart::OpenLink(request) => {
                assert_eq!(request.public_key, [to; 64]);
                manager.link_opened(request, link(to));
            }
            DeliveryStart::Attached(link_id) => assert_eq!(link_id, link(to)),
        }
    }
    let request = manager
        .start_packed_delivery(signed(14), dest(2), 1, vec![1], true)
        .ok()
        .unwrap();
    manager.link_opened(request, link(2));
    manager.register_backchannel(dest(3), link(3));
    for seed in [15u8, 16] {
        assert!(manager
            .start_backchannel_delivery(signed(seed), dest(3))
            .is_ok());
    }
    let mut setting = Setting {
        manager,
        answers: Vec::new(),
        commands,
    };
    collect(&mut setting);
    setting
}

fn add_up(manager: &LinkDeliveryManager) -> LinkDeliveryStats {
    let stats = manager.stats();
    assert_eq!(
        stats.queued_deliveries + stats.in_flight_deliveries,
        manager.pending_count()
    );
    assert_eq!(
        stats.direct_sessions + stats.one_shot_sessions,
        stats.sessions
    );
    assert_eq!(stats.sessions, manager.session_count());
    assert!(
        stats.establishing_direct_sessions + stats.idle_direct_sessions <= stats.direct_sessions
    );
    assert!(stats.active_direct_sessions <= stats.direct_sessions);
    stats
}

fn tell(events: &[LxmfDeliveryEvent], results: &[DeliveryResult]) {
    let endings: Vec<&LxmfDeliveryEvent> = events
        .iter()
        .filter(|event| {
            matches!(
                event.kind,
                LxmfDeliveryEventKind::Delivered | LxmfDeliveryEventKind::Failed
            )
        })
        .collect();
    assert_eq!(endings.len(), results.len());
    for (event, result) in endings.iter().zip(results) {
        match result {
            DeliveryResult::Complete { link_id, msg_hash } => {
                assert_eq!(event.kind, LxmfDeliveryEventKind::Delivered);
                assert_eq!(event.link_id, *link_id);
                assert_eq!(event.msg_hash, *msg_hash);
                assert_eq!(event.reason, None);
            }
            DeliveryResult::Failed {
                link_id,
                msg_hash,
                dest_hash,
                message,
                reason,
            } => {
                assert_eq!(event.kind, LxmfDeliveryEventKind::Failed);
                assert_eq!(event.link_id, *link_id);
                assert_eq!(event.msg_hash, *msg_hash);
                assert_eq!(event.dest_hash, *dest_hash);
                assert_eq!(event.attempts, message.delivery_attempts);
                assert_eq!(event.progress, Some(message.progress));
                assert_eq!(event.reason.as_ref(), Some(reason));
            }
            DeliveryResult::Rejected { .. } => panic!("nothing was rejected"),
        }
    }
}

#[test]
fn numbers_add_up_in_a_mixed_state() {
    let setting = setting();
    let stats = add_up(&setting.manager);
    assert_eq!(setting.manager.pending_count(), 7);
    assert_eq!(stats.sessions, 3);
    assert_eq!(stats.direct_sessions, 2);
    assert_eq!(stats.queued_deliveries, 4);
    assert_eq!(stats.in_flight_deliveries, 3);
    assert_eq!(stats.pending_backchannel_starts, 2);
}

#[test]
fn rounds_account_for_every_delivery_and_tell_of_it() {
    let mut setting = setting();
    setting.manager.take_delivery_events();
    let mut ended: usize = 0;

    answer(&mut setting, link(0), Ok(LinkPayloadSendReceipt::Packet));
    answer(&mut setting, link(1), Err("link closed".to_string()));
    answer(&mut setting, link(2), Ok(LinkPayloadSendReceipt::Packet));
    let command = setting.commands.try_recv().ok().unwrap();
    assert!(command
        .result_tx
        .send(Err(BackchannelSendError::LinkNotFound))
        .is_ok());
    let results = setting.manager.tick();
    tell(&setting.manager.take_delivery_events(), &results);
    ended += results.len();
    assert_eq!(ended, 4);
    assert_eq!(setting.manager.pending_count() + ended, 7);
    add_up(&setting.manager);

    // Each link goes on or ends for itself.
    assert!(setting.manager.has_session(&link(0)));
    assert!(!setting.manager.has_session(&link(1)));
    assert!(!setting.manager.has_session(&link(2)));
    assert!(setting.manager.delivery_link_available(&dest(0)));
    assert!(!setting.manager.delivery_link_available(&dest(1)));
    assert!(!setting.manager.delivery_link_available(&dest(3)));

    for _ in 0..2 {
        assert!(setting.manager.tick().is_empty());
        collect(&mut setting);
        answer(&mut setting, link(0), Ok(LinkPayloadSendReceipt::Packet));
        let results = setting.manager.tick();
        tell(&setting.manager.take_delivery_events(), &results);
        ended += results.len();
        assert_eq!(setting.manager.pending_count() + ended, 7);
        add_up(&setting.manager);
    }
    assert_eq!(setting.manager.pending_count(), 1);
}

#[test]
fn quiet_round_changes_nothing() {
    let mut setting = setting();
    setting.manager.take_delivery_events();
    let before = setting.manager.stats();
    assert!(setting.manager.tick().is_empty());
    assert!(setting.manager.take_delivery_events().is_empty());
    assert!(setting.manager.take_link_commands().is_empty());
    assert_eq!(setting.manager.stats(), before);
}

#[test]
fn ending_by_hash_accounts_for_what_it_ends() {
    let mut setting = setting();
    setting.manager.take_delivery_events();
    for (hash, ended) in [(12u8, 1usize), (15, 1), (14, 1), (10, 2), (99, 0)] {
        let before = setting.manager.pending_count();
        assert_eq!(
            setting
                .manager
                .message_delivery_snapshot([hash; 32])
                .is_some(),
            ended > 0
        );
        let results = setting
            .manager
            .fail_delivery_by_message_hash([hash; 32], "gave up");
        assert_eq!(results.len(), ended);
        assert_eq!(setting.manager.pending_count() + ended, before);
        tell(&setting.manager.take_delivery_events(), &results);
        assert!(setting
            .manager
            .message_delivery_snapshot([hash; 32])
            .is_none());
    }
    assert!(!setting.manager.delivery_link_available(&dest(0)));
    assert!(!setting.manager.delivery_link_available(&dest(3)));
}

#[test]
fn failing_a_delivered_message_on_an_idle_link_hands_it_out_again() {
    let mut setting = setting();
    answer(&mut setting, link(1), Ok(LinkPayloadSendReceipt::Packet));
    assert_eq!(setting.manager.tick().len(), 1);
    let before = setting.manager.pending_count();
    let results = setting
        .manager
        .fail_delivery_by_message_hash([11; 32], "late");
    assert_eq!(results.len(), 1);
    assert_eq!(setting.manager.pending_count(), before);
    assert!(!setting.manager.has_session(&link(1)));
}

#[test]
fn closed_link_ends_its_deliveries_and_no_others() {
    let mut setting = setting();
    setting.manager.take_delivery_events();
    let results = setting.manager.fail_backchannel_link(link(3), "link closed");
    assert_eq!(results.len(), 2);
    assert_eq!(setting.manager.pending_count(), 5);
    tell(&setting.manager.take_delivery_events(), &results);
    assert!(setting.manager.has_session(&link(0)));
}

/// The messages that are found by their hashes.
fn pending(manager: &LinkDeliveryManager) -> Vec<u8> {
    (10..17u8)
        .filter(|seed| manager.message_delivery_snapshot([*seed; 32]).is_some())
        .collect()
}

#[test]
fn each_result_belongs_to_a_message_that_was_pending_and_is_no_longer() {
    let mut setting = setting();
    assert_eq!(pending(&setting.manager), vec![10, 11, 12, 13, 14, 15, 16]);
    answer(&mut setting, link(0), Ok(LinkPayloadSendReceipt::Packet));
    answer(&mut setting, link(1), Err("link closed".to_string()));
    answer(&mut setting, link(2), Ok(LinkPayloadSendReceipt::Packet));
    let mut ended: Vec<u8> = Vec::new();
    for result in setting.manager.tick() {
        match result {
            DeliveryResult::Complete {
                msg_hash: Some(hash),
                ..
            }
            | DeliveryResult::Failed {
                msg_hash: Some(hash),
                ..
            } => ended.push(hash[0]),
            _ => panic!("a message without a hash"),
        }
    }
    ended.sort();
    assert_eq!(ended, vec![10, 11, 14]);
    let stats = setting.manager.stats();
    assert_eq!(stats.idle_direct_sessions, 1);
    assert_eq!(setting.manager.pending_count(), 4);
    for seed in [12u8, 13, 15, 16] {
        assert!(pending(&setting.manager).contains(&seed));
    }
    for seed in [11u8, 14] {
        assert!(!pending(&setting.manager).contains(&seed));
    }
}

#[test]
fn reports_agree_with_snapshots() {
    let mut setting = setting();
    let manager = &mut setting.manager;
    assert!(manager.direct_link_snapshot(dest(2)).is_none());
    assert!(manager.direct_link_snapshot(dest(3)).is_none());
    for to in 0..4u8 {
        assert_eq!(
            manager.delivery_link_available(&dest(to)),
            manager
                .direct_link_snapshot(dest(to))
                .is_some_and(|snapshot| !snapshot.idle_expired)
                || manager.backchannel_link_snapshot(dest(to)).is_some()
        );
    }
    let direct = (0..4u8)
        .filter(|to| manager.direct_link_snapshot(dest(*to)).is_some())
        .count();
    assert_eq!(direct, manager.stats().direct_sessions);

    let before = manager.pending_count();
    let report = match manager
        .start_delivery_with_report(signed(17), dest(1), 1)
        .ok()
        .unwrap()
    {
        DirectStart::Attached(report) => report,
        DirectStart::OpenLink(_) => panic!("a link is to be opened"),
    };
    let snapshot = manager.direct_link_snapshot(dest(1)).unwrap();
    assert_eq!(report.link_id, snapshot.link_id);
    assert_eq!(report.delivery_state, snapshot.delivery_state);
    assert_eq!(report.queued_deliveries, snapshot.queued_deliveries);
    assert_eq!(report.in_flight_deliveries, snapshot.in_flight_deliveries);
    assert_eq!(manager.pending_count(), before + 1);

    let request = match manager
        .start_delivery_with_report(signed(18), dest(2), 1)
        .ok()
        .unwrap()
    {
        DirectStart::OpenLink(request) => request,
        DirectStart::Attached(_) => panic!("a cached link took the message"),
    };
    let report = manager.link_opened(request, link(9));
    let snapshot = manager.direct_link_snapshot(dest(2)).unwrap();
    assert_eq!(report.kind, DirectLinkStartKind::NewDirect);
    assert_eq!(report.link_id, snapshot.link_id);
    assert_eq!(report.link_id, link(9));
    assert_eq!(report.delivery_state, snapshot.delivery_state);
    assert_eq!(manager.pending_count(), before + 2);
}
