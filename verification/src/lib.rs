//! A multi-token, multi-farm yield-accounting engine.
//!
//! Accounts deposit a staking asset into farms; each farm emits one or more
//! reward assets on a fixed session cadence. A lazy per-farm reward-per-share
//! accumulator makes every operation O(1) in the number of stakers: a stake
//! record only carries its settled baseline (`reward_debt`) and the rewards
//! already realized (`accrued_rewards`).
//!
//! All amounts are integers; every arithmetic step saturates instead of
//! wrapping or panicking. The host environment supplies timestamps and
//! account identities as plain values and performs the outbound asset
//! transfers that `claim_rewards` and `withdraw` request.

pub mod arith;
pub mod contract;
pub mod errors;
pub mod farm;
pub mod laws;
pub mod msg;
pub mod view;

pub use contract::{ChildFarmingContract, DepositEntry, StakeEntry, StorageKey, TransferRequest};
pub use errors::FarmError;
pub use farm::{FarmInput, FarmParams, StakeInfo};
pub use msg::Directive;
pub use view::{FarmView, StakeInfoView};
