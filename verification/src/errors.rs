use vstd::prelude::*;

verus! {

/// Why a ledger operation was refused. Every operation returns a typed error
/// and leaves the ledger unchanged when it fails; nothing is silently
/// truncated or defaulted.
#[derive(Clone, Copy, Debug, PartialEq, Eq, Structural)]
pub enum StakingError {
    /// A pool with the requested identity already exists.
    AlreadyExists,
    /// The caller is not the pool's administrator.
    Unauthorized,
    /// A non-positive amount, an unknown pool, a token mismatch, a reward
    /// rate above 100 percent, or a negative elapsed time.
    InvalidArgument,
    /// The user already holds an active position in this pool.
    AlreadyStaked,
    /// The user holds no active position in this pool.
    NothingStaked,
    /// The pool's minimum staking duration has not elapsed yet.
    DurationNotMet,
    /// The reward budget cannot cover the computed reward of an unforced
    /// redemption.
    InsufficientRewardFunds,
    /// An arithmetic result does not fit its integer type.
    CalculationError,
    /// The external balance store refused a requested transfer. The ledger
    /// itself never produces this; the host reports it when it cannot execute
    /// a transfer and discards the staged state change.
    TransferFailed,
}

} // verus!
