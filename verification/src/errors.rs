//! The uniform error taxonomy surfaced by every operation of the engine.
//!
//! Every error is terminal for the current operation: the host persists no
//! state change and surfaces the error to the caller.

use vstd::prelude::*;

verus! {

/// Why an operation was rejected.
#[derive(Clone, Copy, Debug, PartialEq, Eq, Structural)]
pub enum StakePoolError {
    /// The presented pool account is not the derived singleton address.
    AddressMismatch,
    /// The pool account is not owned by this program.
    OwnershipMismatch,
    /// A required signer did not sign the request.
    MissingSignature,
    /// Malformed or unknown op-code or payload.
    InvalidInstructionData,
    /// The pool record is created exactly once; a second creation against
    /// an account that already holds an initialized record is rejected.
    AlreadyInitialized,
    /// A withdrawal asked for more than the pool holds.
    InsufficientFunds,
    /// A checked addition would exceed the 64-bit range.
    ArithmeticOverflow,
    /// A checked subtraction would go below zero.
    ArithmeticUnderflow,
    /// A codec buffer is too short, malformed, or out of reserved space.
    BufferTooSmall,
    /// A card operation requires a non-zero stake that the user lacks.
    NoStakeFound,
    /// A card operation requires a linked card that the user lacks.
    NoLinkedCard,
    /// A credit draw-down asked for more than the user's limit.
    ExceedsCreditLimit,
    /// The clock reading ran backwards relative to the last accrual.
    ClockRegression,
}

} // verus!
