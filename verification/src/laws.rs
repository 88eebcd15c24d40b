//! What holds of the library as a whole, over the model that the contracts of its
//! functions speak of.

pub mod agreement;
pub mod attaching;
pub mod backchannels;
pub mod coherence;
pub mod conservation;
pub mod ending;
pub mod exact;
pub mod following;
pub mod hashes;
pub mod ledger;
pub mod link_rounds;
pub mod numbers;
pub mod offers;
pub mod opening;
pub mod parts;
pub mod payloads;
pub mod pieces;
pub mod queueing;
pub mod retries;
pub mod rounds;
pub mod sending;
pub mod snapshots;
pub mod steps;
pub mod telling;
pub mod timing;
pub mod views;
