//! Error taxonomy of the protocol.

use vstd::prelude::*;
use vstd::string::StringExecFns;

verus! {

/// Everything that can go wrong while running the protocol.
#[derive(Debug, Clone, PartialEq, Eq)]
pub enum PsiError {
    /// A run was started with zero items.
    EmptyInput,
    /// A received message was empty where a non-empty one was required,
    /// or otherwise structurally malformed.
    InvalidBlindedPoints(String),
    /// A peer-supplied compressed point failed to decode to a group element.
    CryptoError(String),
}

impl PsiError {
    /// The human-readable account of the error, as a sequence of characters.
    pub open spec fn describe_spec(self) -> Seq<char> {
        match self {
            PsiError::EmptyInput => "Input data cannot be empty"@,
            PsiError::InvalidBlindedPoints(msg) => "Invalid blinded points: "@ + msg@,
            PsiError::CryptoError(msg) => "Cryptographic error: "@ + msg@,
        }
    }

    /// Render the error as a human-readable string.
    pub fn describe(&self) -> (r: String)
        ensures
            r@ == self.describe_spec(),
    {
        match self {
            PsiError::EmptyInput => "Input data cannot be empty".to_owned(),
            PsiError::InvalidBlindedPoints(msg) => {
                "Invalid blinded points: ".to_owned().concat(msg.as_str())
            },
            PsiError::CryptoError(msg) => {
                "Cryptographic error: ".to_owned().concat(msg.as_str())
            },
        }
    }
}

} // verus!
