//! Error taxonomy. Every failure is fatal to the call that raised it: a
//! caller that receives an error is guaranteed that no state was changed.

use vstd::prelude::*;

verus! {

/// Why an operation was rejected.
///
/// Validation failures: `FarmNotFound`, `StakeNotFound`,
/// `MismatchedRewardConfig`, `ZeroSessionInterval`, `ZeroStakeAmount`.
/// Resource shortfalls: `InsufficientStorage` (reports the missing deposit),
/// `InsufficientStorageCredit`, `InsufficientStakedBalance`.
/// Policy violations: `LockupNotExpired`, `WrongStakingToken`,
/// `NotARewardToken`.
#[derive(Clone, Copy, Debug, PartialEq, Eq, Structural)]
pub enum FarmError {
    /// No farm exists under the given identifier.
    FarmNotFound,
    /// The caller has no stake record in the given farm.
    StakeNotFound,
    /// The reward-token list and the per-session reward list differ in
    /// length, or are empty.
    MismatchedRewardConfig,
    /// A farm schedule requested a session interval of zero.
    ZeroSessionInterval,
    /// A stake of zero tokens was requested.
    ZeroStakeAmount,
    /// The account's prepaid storage deposit cannot cover a new record;
    /// `shortfall` is how much more is needed.
    InsufficientStorage { shortfall: u128 },
    /// A storage withdrawal asked for more than the account's balance.
    InsufficientStorageCredit,
    /// A withdrawal asked for more than the staked amount.
    InsufficientStakedBalance,
    /// The stake is still within its lockup period.
    LockupNotExpired,
    /// The transferred asset is not the farm's staking asset.
    WrongStakingToken,
    /// The transferred asset is not one of the farm's reward assets.
    NotARewardToken,
}

} // verus!
