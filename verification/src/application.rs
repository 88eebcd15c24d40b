//! Application-facing helpers around a local LXMF delivery identity.

use vstd::prelude::*;

use crate::message::{LxMessage, LxMessageView, MessageError, SignedForm};
use crate::types::{text_of, DeliveryMethod};

verus! {

/// Canonical Reticulum aspect used for ordinary LXMF delivery destinations.
pub const DELIVERY_APP_NAME: &'static str = "lxmf.delivery";

/// Why no destination could be made for an identity.
#[derive(Debug)]
pub struct DestinationError {
    /// The reason, as it is shown to people.
    pub detail: String,
}

/// What can go wrong with a local delivery identity.
#[derive(Debug)]
pub enum ApplicationError {
    Destination(DestinationError),
    MissingSigningKey,
    Message(MessageError),
}

impl ApplicationError {
    /// The text of the error.
    pub open spec fn text(self) -> Seq<char> {
        match self {
            ApplicationError::Destination(error) => "destination: "@ + error.detail@,
            ApplicationError::MissingSigningKey => "identity has no signing key"@,
            ApplicationError::Message(error) => "message: "@ + error.detail@,
        }
    }

    /// The text of the error.
    pub fn description(&self) -> (text: String)
        ensures
            text@ == self.text(),
    {
        match self {
            ApplicationError::Destination(error) => {
                let mut text = "destination: ".to_owned();
                text.append(error.detail.as_str());
                text
            },
            ApplicationError::MissingSigningKey => "identity has no signing key".to_owned(),
            ApplicationError::Message(error) => {
                let mut text = "message: ".to_owned();
                text.append(error.detail.as_str());
                text
            },
        }
    }
}

/// A local LXMF delivery identity: its canonical destination, and what its announces
/// tell of it.
pub struct DeliveryIdentity {
    destination_hash: [u8; 16],
    display_name: Option<String>,
    stamp_cost: Option<u8>,
}

/// The mathematical content of a [`DeliveryIdentity`].
#[verifier::ext_equal]
pub struct IdentityView {
    pub destination_hash: [u8; 16],
    pub display_name: Option<Seq<char>>,
    pub stamp_cost: Option<u8>,
}

impl View for DeliveryIdentity {
    type V = IdentityView;

    closed spec fn view(&self) -> IdentityView {
        IdentityView {
            destination_hash: self.destination_hash,
            display_name: text_of(self.display_name),
            stamp_cost: self.stamp_cost,
        }
    }
}

impl DeliveryIdentity {
    /// Makes a delivery identity, given the hash of its [`DELIVERY_APP_NAME`]
    /// destination, or why there is no such destination.
    pub fn new(
        destination: Result<[u8; 16], DestinationError>,
        display_name: Option<String>,
        stamp_cost: Option<u8>,
    ) -> (made: Result<Self, ApplicationError>)
        ensures
            match destination {
                Ok(destination_hash) => {
                    &&& made matches Ok(identity)
                    &&& identity@ == (IdentityView {
                        destination_hash,
                        display_name: text_of(display_name),
                        stamp_cost,
                    })
                },
                Err(error) => made == Err::<Self, ApplicationError>(
                    ApplicationError::Destination(error),
                ),
            },
    {
        match destination {
            Ok(destination_hash) => Ok(
                DeliveryIdentity { destination_hash, display_name, stamp_cost },
            ),
            Err(error) => Err(ApplicationError::Destination(error)),
        }
    }

    /// The hash of the destination.
    pub fn destination_hash(&self) -> (hash: [u8; 16])
        ensures
            hash == self@.destination_hash,
    {
        self.destination_hash
    }

    /// The name that announces show.
    pub fn display_name(&self) -> (name: Option<&str>)
        ensures
            match name {
                Some(name) => self@.display_name == Some(name@),
                None => self@.display_name is None,
            },
    {
        match &self.display_name {
            Some(name) => Some(name.as_str()),
            None => None,
        }
    }

    /// The proof of work that senders are asked for.
    pub fn stamp_cost(&self) -> (cost: Option<u8>)
        ensures
            cost == self@.stamp_cost,
    {
        self.stamp_cost
    }

    /// Writes a message from this identity. It is still to be signed.
    pub fn draft(
        &self,
        destination_hash: [u8; 16],
        title: &str,
        content: &str,
        method: DeliveryMethod,
    ) -> (message: LxMessage)
        ensures
            message@ == LxMessageView::draft(
                destination_hash,
                self@.destination_hash,
                title@,
                content@,
                method,
            ),
    {
        LxMessage::new(destination_hash, self.destination_hash(), title, content, method)
    }

    /// Writes a message from this identity and attaches what signing its draft
    /// yielded. Without a signing key nothing was yielded.
    pub fn message(
        &self,
        destination_hash: [u8; 16],
        title: &str,
        content: &str,
        method: DeliveryMethod,
        signing: Option<Result<SignedForm, MessageError>>,
    ) -> (made: Result<LxMessage, ApplicationError>)
        ensures
            match signing {
                Some(Ok(form)) => {
                    &&& made matches Ok(message)
                    &&& message@ == LxMessageView::draft(
                        destination_hash,
                        self@.destination_hash,
                        title@,
                        content@,
                        method,
                    ).signed(form.hash, form.signature, form.packed@)
                },
                Some(Err(error)) => made == Err::<LxMessage, ApplicationError>(
                    ApplicationError::Message(error),
                ),
                None => made == Err::<LxMessage, ApplicationError>(
                    ApplicationError::MissingSigningKey,
                ),
            },
    {
        let mut message = self.draft(destination_hash, title, content, method);
        match signing {
            Some(Ok(form)) => {
                message.set_signed(form);
                Ok(message)
            },
            Some(Err(error)) => Err(ApplicationError::Message(error)),
            None => Err(ApplicationError::MissingSigningKey),
        }
    }
}

} // verus!
