//! Failure kinds of the engine; each one aborts the whole operation.
use vstd::prelude::*;

verus! {

/// Why an operation was refused.
#[derive(Clone, Copy, Debug, PartialEq, Eq, Structural)]
pub enum ErrorCode {
    InvalidInstructionData,
    MathOverflow,
    SlippageExceeded,
    InvalidTokenMint,
    InvalidWeights,
    InvalidInputLength,
    InvalidPoolType,
    InvalidSwap,
    InvalidPositionBounds,
    InsufficientLiquidity,
    InvalidAmplification,
    PositionNotActive,
    Unauthorized,
}

} // verus!
