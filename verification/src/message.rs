//! The message that a delivery carries.

use vstd::prelude::*;

use crate::types::{
    copy_bytes, DeliveryMethod, DeliveryRepresentation, Progress, PROGRESS_NONE,
};

verus! {

/// Why a message has no wire form.
#[derive(Debug)]
pub struct MessageError {
    /// The reason, as it is shown to people.
    pub detail: String,
    /// The reason in its debug form, as it is noted of a failed launch.
    pub debug: String,
}

/// The mathematical content of a [`MessageError`].
#[verifier::ext_equal]
pub struct MessageErrorView {
    pub detail: Seq<char>,
    pub debug: Seq<char>,
}

/// The mathematical content of an [`LxMessage`].
#[verifier::ext_equal]
pub struct LxMessageView {
    pub destination_hash: [u8; 16],
    pub source_hash: [u8; 16],
    pub title: Seq<char>,
    pub content: Seq<char>,
    pub method: DeliveryMethod,
    pub hash: Option<[u8; 32]>,
    pub signature: Option<[u8; 64]>,
    pub packed: Result<Seq<u8>, MessageErrorView>,
    pub auto_compress: bool,
    pub delivery_attempts: u32,
    pub progress: Progress,
    pub representation: DeliveryRepresentation,
}

/// An LXMF message as the delivery logic sees it: who it is for, the hash it is
/// found by, its wire form, and how far its delivery has come.
#[derive(Debug)]
pub struct LxMessage {
    pub destination_hash: [u8; 16],
    pub source_hash: [u8; 16],
    pub title: String,
    pub content: String,
    pub method: DeliveryMethod,
    /// The hash of the signed message; none before it is signed.
    pub hash: Option<[u8; 32]>,
    pub signature: Option<[u8; 64]>,
    /// The wire form of the signed message, or why there is none.
    pub packed: Result<Vec<u8>, MessageError>,
    /// Whether a resource transfer of this message may be compressed.
    pub auto_compress: bool,
    pub delivery_attempts: u32,
    pub progress: Progress,
    pub representation: DeliveryRepresentation,
}

/// What signing a message yields.
#[derive(Debug)]
pub struct SignedForm {
    pub hash: [u8; 32],
    pub signature: [u8; 64],
    pub packed: Vec<u8>,
}

impl View for MessageError {
    type V = MessageErrorView;

    open spec fn view(&self) -> MessageErrorView {
        MessageErrorView { detail: self.detail@, debug: self.debug@ }
    }
}

/// The wire form as a mathematical value.
pub open spec fn packed_view(packed: Result<Vec<u8>, MessageError>) -> Result<
    Seq<u8>,
    MessageErrorView,
> {
    match packed {
        Ok(bytes) => Ok(bytes@),
        Err(error) => Err(error@),
    }
}

impl View for LxMessage {
    type V = LxMessageView;

    open spec fn view(&self) -> LxMessageView {
        LxMessageView {
            destination_hash: self.destination_hash,
            source_hash: self.source_hash,
            title: self.title@,
            content: self.content@,
            method: self.method,
            hash: self.hash,
            signature: self.signature,
            packed: packed_view(self.packed),
            auto_compress: self.auto_compress,
            delivery_attempts: self.delivery_attempts,
            progress: self.progress,
            representation: self.representation,
        }
    }
}

/// What packing an unsigned message reports.
pub open spec fn unsigned_error() -> MessageErrorView {
    MessageErrorView { detail: "message is not signed"@, debug: "NotSigned"@ }
}

impl LxMessageView {
    /// A message that was written and not signed yet.
    pub open spec fn draft(
        destination_hash: [u8; 16],
        source_hash: [u8; 16],
        title: Seq<char>,
        content: Seq<char>,
        method: DeliveryMethod,
    ) -> Self {
        LxMessageView {
            destination_hash,
            source_hash,
            title,
            content,
            method,
            hash: None,
            signature: None,
            packed: Err(unsigned_error()),
            auto_compress: true,
            delivery_attempts: 0,
            progress: Progress { bits: PROGRESS_NONE },
            representation: DeliveryRepresentation::Unknown,
        }
    }

    /// The message with a signature and what comes with it.
    pub open spec fn signed(self, hash: [u8; 32], signature: [u8; 64], packed: Seq<u8>) -> Self {
        LxMessageView {
            hash: Some(hash),
            signature: Some(signature),
            packed: Ok(packed),
            ..self
        }
    }
}

impl LxMessage {
    /// Writes a message. It has no hash and no wire form before it is signed.
    pub fn new(
        destination_hash: [u8; 16],
        source_hash: [u8; 16],
        title: &str,
        content: &str,
        method: DeliveryMethod,
    ) -> (message: Self)
        ensures
            message@ == LxMessageView::draft(
                destination_hash,
                source_hash,
                title@,
                content@,
                method,
            ),
    {
        LxMessage {
            destination_hash,
            source_hash,
            title: title.to_owned(),
            content: content.to_owned(),
            method,
            hash: None,
            signature: None,
            packed: Err(
                MessageError {
                    detail: "message is not signed".to_owned(),
                    debug: "NotSigned".to_owned(),
                },
            ),
            auto_compress: true,
            delivery_attempts: 0,
            progress: Progress { bits: PROGRESS_NONE },
            representation: DeliveryRepresentation::Unknown,
        }
    }

    /// Attaches what signing the message yielded.
    pub fn set_signed(&mut self, form: SignedForm)
        ensures
            final(self)@ == old(self)@.signed(form.hash, form.signature, form.packed@),
    {
        self.hash = Some(form.hash);
        self.signature = Some(form.signature);
        self.packed = Ok(form.packed);
    }

    /// The wire form of the message, or why there is none.
    pub fn pack(&self) -> (packed: Result<Vec<u8>, MessageError>)
        ensures
            packed_view(packed) == self@.packed,
    {
        match &self.packed {
            Ok(bytes) => Ok(copy_bytes(bytes)),
            Err(error) => Err(
                MessageError { detail: error.detail.clone(), debug: error.debug.clone() },
            ),
        }
    }
}

impl Clone for LxMessage {
    fn clone(&self) -> (copied: Self)
        ensures
            copied@ == self@,
    {
        LxMessage {
            destination_hash: self.destination_hash,
            source_hash: self.source_hash,
            title: self.title.clone(),
            content: self.content.clone(),
            method: self.method,
            hash: self.hash,
            signature: self.signature,
            packed: self.pack(),
            auto_compress: self.auto_compress,
            delivery_attempts: self.delivery_attempts,
            progress: self.progress,
            representation: self.representation,
        }
    }
}

} // verus!
