//! Link-based LXMF message delivery.
//!
//! The crate decides how messages travel over Reticulum links: which link a
//! message is attached to, when a queued message starts, which events and
//! results the embedding application sees, and when a link or a backchannel is
//! given up. Opening, driving and closing links is the work of a runtime
//! adapter, which the crate tells what to do through plain commands.

pub mod application;
pub mod backchannel;
pub mod channel;
pub mod clock;
pub mod commands;
pub mod counts;
pub mod events;
pub mod failure;
pub mod keyed;
pub mod laws;
pub mod link_table;
pub mod manager;
pub mod message;
pub mod model;
pub mod payload_send;
pub mod queue;
pub mod reports;
pub mod seqs;
pub mod session;
pub mod text;
pub mod types;
