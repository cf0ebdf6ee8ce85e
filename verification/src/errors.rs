//! Error taxonomy of the coordination protocol.
//!
//! Registration and signing errors are participant-scoped: the round can
//! go on with the remaining participants. Build, merge and finalize
//! errors are round-fatal: the round is abandoned and a fresh one must
//! start from registration.

use vstd::prelude::*;

verus! {

/// A contribution was rejected at registration time.
#[derive(Clone, Copy, Debug, PartialEq, Eq, Structural)]
pub enum RegistrationError {
    /// The submitted outpoint is already registered in the current round.
    DuplicateOutpoint,
    /// The submitted outpoint is not a spendable coin of the wallet asked
    /// to prove it.
    UnknownOutpoint,
}

/// The joint transaction could not be constructed from the snapshot.
#[derive(Clone, Copy, Debug, PartialEq, Eq, Structural)]
pub enum BuildError {
    /// The snapshot holds no input registrations or no output
    /// registrations.
    EmptyRegistration,
    /// The coordinating wallet's funds do not cover the payouts plus the
    /// estimated fee.
    InsufficientFunds,
    /// The construction cannot satisfy the target fee rate with the
    /// registered contributions.
    SizeOrFeeError,
}

/// One participant's signing call failed; other participants are
/// unaffected.
#[derive(Clone, Copy, Debug, PartialEq, Eq, Structural)]
pub enum SigningError {
    SigningFailed,
}

/// Signed copies of the draft could not be combined.
#[derive(Clone, Copy, Debug, PartialEq, Eq, Structural)]
pub enum MergeError {
    /// Two contributions disagree on a non-signature field: they do not
    /// stem from one and the same distributed draft.
    MergeConflict,
}

/// The merged transaction could not be turned into a broadcastable one.
#[derive(Clone, Copy, Debug, PartialEq, Eq, Structural)]
pub enum FinalizeError {
    /// At least one input's signature slot is still empty.
    IncompleteSignatures,
}

} // verus!
