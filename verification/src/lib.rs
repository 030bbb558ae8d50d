//! Private set intersection over a prime-order group.
//!
//! Two participants, each holding a private set of byte-string items, learn
//! which items they have in common and nothing more. Every item is hashed to
//! a fixed 32-byte digest, the digest is mapped onto the Ristretto group, and
//! each side blinds the resulting points with a secret scalar. Because scalar
//! multiplication commutes, a point blinded by both secrets is the same on
//! both sides exactly when the underlying digests agree, so matching the
//! doubly-blinded values yields the intersection without disclosing anything
//! about the rest of either set.

use vstd::prelude::*;

pub mod crypto;
pub mod error;
pub mod messages;
pub mod protocol;
pub mod state;

pub use error::PsiError;
pub use messages::BlindedPointsMessage;
pub use messages::DoubleBlindedPointsMessage;
pub use messages::PsiResult;
pub use protocol::PsiProtocol;
pub use state::ComputingState;
pub use state::DoubleBlindedState;
pub use state::FinalState;
pub use state::PreparedState;
pub use state::PsiState;

verus! {

/// The views of a sequence of 32-byte values, as byte sequences.
pub open spec fn byte_views(s: Seq<[u8; 32]>) -> Seq<Seq<u8>> {
    s.map_values(|a: [u8; 32]| a@)
}

/// The views of a sequence of byte vectors, as byte sequences.
pub open spec fn item_views(s: Seq<Vec<u8>>) -> Seq<Seq<u8>> {
    s.map_values(|v: Vec<u8>| v@)
}

/// The views of a sequence of pairs of 32-byte values, as pairs of byte
/// sequences.
pub open spec fn pair_views(s: Seq<([u8; 32], [u8; 32])>) -> Seq<(Seq<u8>, Seq<u8>)> {
    s.map_values(|p: ([u8; 32], [u8; 32])| (p.0@, p.1@))
}

} // verus!
