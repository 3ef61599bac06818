use vstd::prelude::*;

verus! {

/// The kinds of failure an elliptic-curve operation can report.
#[derive(Clone, Copy, Debug, PartialEq, Eq, Structural)]
pub enum ECErrorKind {
    /// A 32-byte representation decoded to zero or to a value out of range.
    InvalidScalar,
    /// A Diffie-Hellman exchange was attempted between two keys that both
    /// lack a secret.
    NoSecret,
    /// A public key was assigned to a key whose existing secret disagrees.
    KeyMismatch,
    /// A take was attempted on a key that already holds the default value.
    TakeEmpty,
}

/// Failure of an elliptic-curve operation.
#[derive(Clone, Copy, Debug)]
pub struct ECError {
    pub kind: ECErrorKind,
    pub reason: &'static str,
}

impl ECError {
    pub fn new(kind: ECErrorKind, reason: &'static str) -> (r: ECError)
        ensures
            r.kind == kind,
            r.reason == reason,
    {
        ECError { kind, reason }
    }
}

/// Failure of a ratchet-tree operation, carrying the offending position.
#[derive(Clone, Copy, Debug)]
pub struct RatchetError {
    pub reason: &'static str,
    pub index: usize,
    pub height: usize,
}

} // verus!
