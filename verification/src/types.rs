//! Small value types shared by the whole crate: states, identifiers and the
//! numbers that describe a delivery.

use vstd::prelude::*;

verus! {

/// State of a link as the delivery logic sees it.
#[derive(Debug, Clone, Copy, PartialEq, Eq, Structural)]
pub enum LinkState {
    /// The link was requested and is not established yet.
    Pending,
    /// The link carries data.
    Active,
    /// The link is gone.
    Closed,
}

/// State of a link-based delivery.
#[derive(Debug, Clone, Copy, PartialEq, Eq, Structural)]
pub enum DeliveryState {
    Idle,
    Establishing,
    Identifying,
    Transferring,
    AwaitingProof,
    Complete,
    Rejected,
    Failed,
}

/// How a message travels on the wire.
#[derive(Debug, Clone, Copy, PartialEq, Eq, Structural)]
pub enum DeliveryRepresentation {
    Unknown,
    Packet,
    Resource,
}

/// The delivery method that a message asks for.
#[derive(Debug, Clone, Copy, PartialEq, Eq, Structural)]
pub enum DeliveryMethod {
    Opportunistic,
    Direct,
    Propagated,
    Paper,
}

/// Delivery progress, a fraction between zero and one.
///
/// The fraction is kept as the bit pattern of an IEEE 754 double, which is what
/// applications hand in and read out. The delivery logic only copies it, sets it
/// to one of the constants below, or raises it to a floor.
#[derive(Debug, Clone, Copy, PartialEq, Eq, Structural)]
pub struct Progress {
    pub bits: u64,
}

/// The bit pattern of positive infinity. Among the patterns up to this one the
/// order of the patterns is the order of the numbers; the patterns above it are
/// the NaNs and every number with the sign bit set.
pub const INFINITY_BITS: u64 = 0x7FF0_0000_0000_0000;

/// The bit pattern of 0.0, a delivery that has not begun.
pub const PROGRESS_NONE: u64 = 0;

/// The bit pattern of 0.03, reported while the link is being established.
pub const PROGRESS_LINK_PENDING: u64 = 0x3F9E_B851_EB85_1EB8;

/// The bit pattern of 0.05, reported when the link takes the message.
pub const PROGRESS_LINK_READY: u64 = 0x3FA9_9999_9999_999A;

/// The bit pattern of 0.10, reported when a resource transfer starts.
pub const PROGRESS_RESOURCE_STARTED: u64 = 0x3FB9_9999_9999_999A;

/// The bit pattern of 0.50, reported when a packet was sent and awaits its proof.
pub const PROGRESS_PACKET_SENT: u64 = 0x3FE0_0000_0000_0000;

/// The bit pattern of 1.0, reported when the message was delivered.
pub const PROGRESS_DONE: u64 = 0x3FF0_0000_0000_0000;

impl Progress {
    /// The larger of the two fractions; `floor` where `self` is no number.
    pub open spec fn spec_at_least(self, floor: Progress) -> Progress {
        if floor.bits < self.bits <= INFINITY_BITS {
            self
        } else {
            floor
        }
    }

    /// Raises the fraction to `floor`, which must be a number that is not
    /// negative. What is no number becomes `floor`.
    pub fn at_least(self, floor: Progress) -> (raised: Progress)
        requires
            floor.bits <= INFINITY_BITS,
        ensures
            raised == self.spec_at_least(floor),
    {
        if floor.bits < self.bits && self.bits <= INFINITY_BITS {
            self
        } else {
            floor
        }
    }
}

/// Whether two byte arrays hold the same bytes.
pub fn same_bytes<const N: usize>(a: &[u8; N], b: &[u8; N]) -> (same: bool)
    ensures
        same == (*a == *b),
{
    let mut i: usize = 0;
    while i < N
        invariant
            i <= N,
            forall|j: int| 0 <= j < i ==> a[j] == b[j],
        decreases N - i,
    {
        if a[i] != b[i] {
            return false;
        }
        i += 1;
    }
    assert(*a =~= *b);
    true
}

/// Whether an optional message hash is the given hash.
pub fn hash_is(hash: &Option<[u8; 32]>, wanted: &[u8; 32]) -> (matches: bool)
    ensures
        matches == (*hash == Some(*wanted)),
{
    match hash {
        Some(hash) => same_bytes(hash, wanted),
        None => false,
    }
}

/// What the text of an optional string is.
pub open spec fn text_of(text: Option<String>) -> Option<Seq<char>> {
    match text {
        Some(text) => Some(text@),
        None => None,
    }
}

/// What the bytes of an optional byte string are.
pub open spec fn bytes_of(bytes: Option<Vec<u8>>) -> Option<Seq<u8>> {
    match bytes {
        Some(bytes) => Some(bytes@),
        None => None,
    }
}

/// Copies a byte string.
pub fn copy_bytes(bytes: &Vec<u8>) -> (copied: Vec<u8>)
    ensures
        copied@ == bytes@,
{
    let copied = bytes.clone();
    assert(copied@ =~= bytes@);
    copied
}

} // verus!
