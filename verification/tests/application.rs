use lxmf_core::application::{
    ApplicationError, DeliveryIdentity, DestinationError, DELIVERY_APP_NAME,
};
use lxmf_core::message::{MessageError, SignedForm};
use lxmf_core::types::{DeliveryMethod, DeliveryRepresentation};

fn local() -> DeliveryIdentity {
    DeliveryIdentity::new(Ok([0x33; 16]), Some("Example".to_string()), Some(8))
        .ok()
        .unwrap()
}

fn form() -> SignedForm {
    SignedForm {
        hash: [0x44; 32],
        signature: [0x55; 64],
        packed: vec![1, 2, 3],
    }
}

#[test]
fn delivery_identity_builds_announce_and_signed_message() {
    let local = local();
    assert_eq!(local.display_name(), Some("Example"));
    assert_eq!(local.stamp_cost(), Some(8));

    let message = local
        .message(
            [0x22; 16],
            "Title",
            "Content",
            DeliveryMethod::Direct,
            Some(Ok(form())),
        )
        .ok()
        .unwrap();
    assert!(message.signature.is_some());
    assert!(message.hash.is_some());
    assert_eq!(message.source_hash, local.destination_hash());
}

#[test]
fn signed_message_is_the_draft_with_its_signature() {
    let local = local();
    let draft = local.draft([0x22; 16], "Title", "Content", DeliveryMethod::Propagated);
    assert_eq!(draft.hash, None);
    assert_eq!(draft.signature, None);
    assert!(draft.pack().is_err());
    assert_eq!(draft.progress.bits, 0.0f64.to_bits());
    assert_eq!(draft.representation, DeliveryRepresentation::Unknown);

    let message = local
        .message(
            [0x22; 16],
            "Title",
            "Content",
            DeliveryMethod::Propagated,
            Some(Ok(form())),
        )
        .ok()
        .unwrap();
    assert_eq!(message.destination_hash, draft.destination_hash);
    assert_eq!(message.source_hash, [0x33; 16]);
    assert_eq!(message.title, "Title");
    assert_eq!(message.content, "Content");
    assert_eq!(message.method, DeliveryMethod::Propagated);
    assert_eq!(message.hash, Some([0x44; 32]));
    assert_eq!(message.signature, Some([0x55; 64]));
    assert_eq!(message.pack().ok(), Some(vec![1, 2, 3]));
}

#[test]
fn identity_without_destination_is_refused() {
    let error = DeliveryIdentity::new(
        Err(DestinationError {
            detail: "bad aspect".to_string(),
        }),
        None,
        None,
    )
    .err()
    .unwrap();
    assert!(matches!(error, ApplicationError::Destination(_)));
    assert_eq!(error.description(), "destination: bad aspect");
    assert_eq!(DELIVERY_APP_NAME, "lxmf.delivery");
}

#[test]
fn message_without_signing_key_is_refused() {
    let error = local()
        .message([0x22; 16], "T", "C", DeliveryMethod::Direct, None)
        .err()
        .unwrap();
    assert!(matches!(error, ApplicationError::MissingSigningKey));
    assert_eq!(error.description(), "identity has no signing key");
}

#[test]
fn message_that_cannot_be_signed_is_refused() {
    let error = local()
        .message(
            [0x22; 16],
            "T",
            "C",
            DeliveryMethod::Direct,
            Some(Err(MessageError {
                detail: "too long".to_string(),
                debug: "TooLong".to_string(),
            })),
        )
        .err()
        .unwrap();
    assert!(matches!(error, ApplicationError::Message(_)));
    assert_eq!(error.description(), "message: too long");
}

#[test]
fn identity_without_name_and_cost() {
    let identity = DeliveryIdentity::new(Ok([7; 16]), None, None).ok().unwrap();
    assert_eq!(identity.display_name(), None);
    assert_eq!(identity.stamp_cost(), None);
    assert_eq!(identity.destination_hash(), [7; 16]);
}
