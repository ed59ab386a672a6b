//! Threshold Schnorr signatures (FROST) over Ristretto255: distributed key
//! generation, two-round signing, proactive share rotation and ceremony transcripts.

pub mod arith;
pub mod encoding;
pub mod backend;
pub mod memory;
pub mod scalar;
pub mod point;
pub mod types;
pub mod dkg;
pub mod signing;
pub mod rotation;
pub mod transcript;
pub mod session_token;
pub mod hybrid;
pub mod derived_key;
pub mod hardware;
pub mod wire;

use vstd::prelude::*;

verus! {

/// Errors of the protocol engine.
#[derive(Debug, Clone)]
pub enum FrostError {
    /// An identifier is zero, exceeds the number of participants, or is not in the
    /// expected set.
    InvalidParticipantIndex(u32),
    /// Threshold and participant count violate `1 <= t <= n`.
    InvalidThreshold(u32, u32),
    /// A received share does not lie on its sender's committed polynomial.
    CommitmentVerificationFailed(u32),
    /// A partial signature fails verification.
    InvalidSignatureShare(u32),
    /// The partial-signature list is empty or holds a participant twice.
    AggregationFailed,
    /// Too few inputs to proceed: got, need.
    InsufficientParticipants(usize, u32),
    /// A canonical encoding could not be produced or read.
    SerializationError(String),
    /// A point failed to decode or a scalar was not canonical.
    CryptoError(String),
}

/// Result of the protocol engine's operations.
pub type FrostResult<T> = Result<T, FrostError>;

} // verus!
