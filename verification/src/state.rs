//! Protocol phase types. Each phase of a run is a distinct value shape; a
//! transition consumes the current phase value and produces the next, so no
//! phase can be replayed or skipped. The final phase holds no secret.

use vstd::prelude::*;

verus! {

/// Marker trait implemented by every protocol phase type, so the generic
/// `PsiProtocol` wrapper can hold any of them.
pub trait PsiState {

}

/// First phase: the run has been initialized, the local items hashed,
/// deduplicated by digest, and blinded; the blinded points are ready to be
/// sent.
#[derive(Debug)]
pub struct PreparedState {
    /// Secret scalar used for blinding, in canonical byte form.
    pub secret: [u8; 32],
    /// Distinct digests of the local items, in first-occurrence order; the
    /// outgoing message lists the blinded points in this order.
    pub digests: Vec<[u8; 32]>,
    /// Blinded point of each digest, parallel to `digests`.
    pub blinded: Vec<[u8; 32]>,
}

impl PreparedState {
    /// Assemble a prepared phase value from its parts.
    pub fn new(secret: [u8; 32], digests: Vec<[u8; 32]>, blinded: Vec<[u8; 32]>) -> (r: Self)
        ensures
            r.secret == secret,
            r.digests == digests,
            r.blinded == blinded,
    {
        Self { secret, digests, blinded }
    }

    /// The secret scalar bytes.
    pub fn secret(&self) -> (r: &[u8; 32])
        ensures
            r == self.secret,
    {
        &self.secret
    }

    /// The digest-to-blinded-point association, as ordered pairs.
    pub fn hash_to_blinded(&self) -> (r: Vec<([u8; 32], [u8; 32])>)
        requires
            self.digests@.len() == self.blinded@.len(),
        ensures
            r@.len() == self.digests@.len(),
            forall|i: int| 0 <= i < r@.len() ==> #[trigger] r@[i] == (
                self.digests@[i],
                self.blinded@[i],
            ),
    {
        let mut out: Vec<([u8; 32], [u8; 32])> = Vec::new();
        let n = self.digests.len();
        let mut i: usize = 0;
        while i < n
            invariant
                n == self.digests@.len(),
                n == self.blinded@.len(),
                0 <= i <= n,
                out@.len() == i,
                forall|j: int| 0 <= j < i ==> #[trigger] out@[j] == (
                    self.digests@[j],
                    self.blinded@[j],
                ),
            decreases n - i,
        {
            out.push((self.digests[i], self.blinded[i]));
            i = i + 1;
        }
        out
    }

    /// The recorded digest ordering.
    pub fn hash_order(&self) -> (r: &Vec<[u8; 32]>)
        ensures
            r == self.digests,
    {
        &self.digests
    }
}

impl PsiState for PreparedState {

}

/// Intermediate phase shape holding both local data and the peer's blinded
/// points, for integrators that stage the computation themselves.
#[derive(Debug)]
pub struct ComputingState {
    /// Secret scalar used for blinding, in canonical byte form.
    pub secret: [u8; 32],
    /// Distinct digests of the local items, in first-occurrence order.
    pub digests: Vec<[u8; 32]>,
    /// Blinded point of each digest, parallel to `digests`.
    pub blinded: Vec<[u8; 32]>,
    /// The peer's blinded points, digest-free, as received.
    pub remote_blinded_points: Vec<[u8; 32]>,
}

impl ComputingState {
    /// Assemble a computing phase value from its parts.
    pub fn new(
        secret: [u8; 32],
        digests: Vec<[u8; 32]>,
        blinded: Vec<[u8; 32]>,
        remote_blinded_points: Vec<[u8; 32]>,
    ) -> (r: Self)
        ensures
            r.secret == secret,
            r.digests == digests,
            r.blinded == blinded,
            r.remote_blinded_points == remote_blinded_points,
    {
        Self { secret, digests, blinded, remote_blinded_points }
    }

    /// The secret scalar bytes.
    pub fn secret(&self) -> (r: &[u8; 32])
        ensures
            r == self.secret,
    {
        &self.secret
    }

    /// The local digest-to-blinded-point association, as ordered pairs.
    pub fn blinded_map(&self) -> (r: Vec<([u8; 32], [u8; 32])>)
        requires
            self.digests@.len() == self.blinded@.len(),
        ensures
            r@.len() == self.digests@.len(),
            forall|i: int| 0 <= i < r@.len() ==> #[trigger] r@[i] == (
                self.digests@[i],
                self.blinded@[i],
            ),
    {
        let mut out: Vec<([u8; 32], [u8; 32])> = Vec::new();
        let n = self.digests.len();
        let mut i: usize = 0;
        while i < n
            invariant
                n == self.digests@.len(),
                n == self.blinded@.len(),
                0 <= i <= n,
                out@.len() == i,
                forall|j: int| 0 <= j < i ==> #[trigger] out@[j] == (
                    self.digests@[j],
                    self.blinded@[j],
                ),
            decreases n - i,
        {
            out.push((self.digests[i], self.blinded[i]));
            i = i + 1;
        }
        out
    }
}

impl PsiState for ComputingState {

}

/// Third phase: the peer's blinded points have been double-blinded with the
/// local secret; those values have been sent back and are retained for the
/// final matching step.
#[derive(Debug)]
pub struct DoubleBlindedState {
    /// Secret scalar used for blinding, in canonical byte form.
    pub secret: [u8; 32],
    /// Distinct digests of the local items, in first-occurrence order.
    pub digests: Vec<[u8; 32]>,
    /// Blinded point of each digest, parallel to `digests`.
    pub blinded: Vec<[u8; 32]>,
    /// Double-blinded points computed from the peer's blinded points.
    pub double_blinded_from_remote: Vec<[u8; 32]>,
}

impl DoubleBlindedState {
    /// Assemble a double-blinded phase value from its parts.
    pub fn new(
        secret: [u8; 32],
        digests: Vec<[u8; 32]>,
        blinded: Vec<[u8; 32]>,
        double_blinded_from_remote: Vec<[u8; 32]>,
    ) -> (r: Self)
        ensures
            r.secret == secret,
            r.digests == digests,
            r.blinded == blinded,
            r.double_blinded_from_remote == double_blinded_from_remote,
    {
        Self { secret, digests, blinded, double_blinded_from_remote }
    }

    /// The secret scalar bytes.
    pub fn secret(&self) -> (r: &[u8; 32])
        ensures
            r == self.secret,
    {
        &self.secret
    }

    /// The recorded digest ordering.
    pub fn hash_order(&self) -> (r: &Vec<[u8; 32]>)
        ensures
            r == self.digests,
    {
        &self.digests
    }

    /// The double-blinded points computed from the peer's blinded points.
    pub fn double_blinded_from_remote(&self) -> (r: &Vec<[u8; 32]>)
        ensures
            r == self.double_blinded_from_remote,
    {
        &self.double_blinded_from_remote
    }
}

impl PsiState for DoubleBlindedState {

}

/// Final phase: only the intersection's digest-to-double-blinded-point
/// association remains; the secret has been dropped and is unreachable.
#[derive(Debug)]
pub struct FinalState {
    /// Intersection digests paired with their double-blinded points.
    pub hash_to_double_blinded: Vec<([u8; 32], [u8; 32])>,
}

impl FinalState {
    /// Assemble a final phase value from the intersection pairs.
    pub fn new(hash_to_double_blinded: Vec<([u8; 32], [u8; 32])>) -> (r: Self)
        ensures
            r.hash_to_double_blinded == hash_to_double_blinded,
    {
        Self { hash_to_double_blinded }
    }

    /// The intersection digests paired with their double-blinded points.
    pub fn hash_to_double_blinded(&self) -> (r: &Vec<([u8; 32], [u8; 32])>)
        ensures
            r == self.hash_to_double_blinded,
    {
        &self.hash_to_double_blinded
    }

    /// The intersection digests paired with their double-blinded points.
    pub fn double_blinded_map(&self) -> (r: &Vec<([u8; 32], [u8; 32])>)
        ensures
            r == self.hash_to_double_blinded,
    {
        &self.hash_to_double_blinded
    }
}

impl PsiState for FinalState {

}

} // verus!
