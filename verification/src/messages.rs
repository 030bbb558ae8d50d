//! Message types exchanged between the two participants.
//!
//! The first-round message carries only compressed blinded points — no
//! digests — so the peer learns nothing about which items exist beyond the
//! set's size; the correspondence between a position and a digest is kept
//! privately by the sender.

use vstd::prelude::*;
use crate::error::PsiError;

verus! {

/// First-round message: one compressed blinded point per distinct item
/// digest, in the sender's recorded index order.
#[derive(Debug, Clone, PartialEq, Eq)]
pub struct BlindedPointsMessage {
    /// Blinded points for each item (no digests included).
    pub blinded_points: Vec<[u8; 32]>,
}

impl BlindedPointsMessage {
    /// Wrap a vector of blinded points as a message.
    pub fn new(blinded_points: Vec<[u8; 32]>) -> (r: Self)
        ensures
            r.blinded_points == blinded_points,
    {
        Self { blinded_points }
    }

    /// Wrap a vector of blinded points, rejecting an empty one.
    pub fn new_validated(blinded_points: Vec<[u8; 32]>) -> (r: Result<Self, PsiError>)
        ensures
            r is Ok <==> blinded_points@.len() > 0,
            r matches Ok(m) ==> m.blinded_points == blinded_points,
            r matches Err(e) ==> (e matches PsiError::InvalidBlindedPoints(m)
                && m@ == "Blinded points vector cannot be empty"@),
    {
        if blinded_points.is_empty() {
            Err(PsiError::InvalidBlindedPoints(
                "Blinded points vector cannot be empty".to_owned(),
            ))
        } else {
            Ok(Self { blinded_points })
        }
    }

    /// The number of points in this message.
    pub fn len(&self) -> (n: usize)
        ensures
            n == self.blinded_points@.len(),
    {
        self.blinded_points.len()
    }

    /// Whether this message contains no points.
    pub fn is_empty(&self) -> (b: bool)
        ensures
            b == (self.blinded_points@.len() == 0),
    {
        self.blinded_points.is_empty()
    }
}

/// Second-round message: the peer's blinded points, each further multiplied
/// by the local secret, in the order the peer's message listed them.
#[derive(Debug, Clone, PartialEq, Eq)]
pub struct DoubleBlindedPointsMessage {
    /// Double-blinded points computed from the peer's single-blinded points.
    pub double_blinded_points: Vec<[u8; 32]>,
}

impl DoubleBlindedPointsMessage {
    /// Wrap a vector of double-blinded points as a message.
    pub fn new(double_blinded_points: Vec<[u8; 32]>) -> (r: Self)
        ensures
            r.double_blinded_points == double_blinded_points,
    {
        Self { double_blinded_points }
    }

    /// The number of points in this message.
    pub fn len(&self) -> (n: usize)
        ensures
            n == self.double_blinded_points@.len(),
    {
        self.double_blinded_points.len()
    }

    /// Whether this message contains no points.
    pub fn is_empty(&self) -> (b: bool)
        ensures
            b == (self.double_blinded_points@.len() == 0),
    {
        self.double_blinded_points.is_empty()
    }
}

/// Final result: the digests common to both sets, and for each such digest
/// its double-blinded point, a shared non-reversible artifact of the run.
#[derive(Debug, Clone, PartialEq, Eq)]
pub struct PsiResult {
    /// Digests of the elements in the intersection.
    pub intersection_hashes: Vec<[u8; 32]>,
    /// Double-blinded points, one pair `(digest, point)` per intersection
    /// digest, in the same order as `intersection_hashes`.
    pub double_blinded_map: Vec<([u8; 32], [u8; 32])>,
}

impl PsiResult {
    /// Assemble a result from its parts.
    pub fn new(
        intersection_hashes: Vec<[u8; 32]>,
        double_blinded_map: Vec<([u8; 32], [u8; 32])>,
    ) -> (r: Self)
        ensures
            r.intersection_hashes == intersection_hashes,
            r.double_blinded_map == double_blinded_map,
    {
        Self { intersection_hashes, double_blinded_map }
    }

    /// The number of elements in the intersection.
    pub fn len(&self) -> (n: usize)
        ensures
            n == self.intersection_hashes@.len(),
    {
        self.intersection_hashes.len()
    }

    /// Whether the intersection is empty.
    pub fn is_empty(&self) -> (b: bool)
        ensures
            b == (self.intersection_hashes@.len() == 0),
    {
        self.intersection_hashes.is_empty()
    }
}

} // verus!
