//! The farming engine: farm registry, stake ledger and storage-credit
//! ledger, with every operation an atomic transition — an operation either
//! returns `Ok` having applied exactly the documented change, or returns an
//! error having changed nothing.
//!
//! The host environment supplies the current time and the caller's identity
//! as plain values, and performs the `TransferRequest`s an operation hands
//! back; the engine itself never blocks on them.

use vstd::prelude::*;

use crate::arith::{
    sat_add_u128, sat_add_u64, sat_mul_u64, sat_sub_u128,
    saturating_add_u128, saturating_add_u64, saturating_mul_u64, saturating_sub_u128,
};
use crate::errors::FarmError;
use crate::msg::{parse_directive, spec_directive, Directive};
use crate::farm::{
    spec_settle, spec_update_farm, update_farm, settle, FarmInput, FarmInputModel, FarmModel,
    FarmParams, StakeInfo, StakeModel,
};

verus! {

/// Price of one byte of persisted state, in the smallest unit of the native
/// token, as fixed by the host environment.
pub const STORAGE_BYTE_COST: u128 = 10_000_000_000_000_000_000;

/// Durations cross the boundary in seconds; the engine keeps nanoseconds.
pub const NANOSECONDS_PER_SECOND: u64 = 1_000_000_000;

/// Tags distinguishing the engine's persisted collections.
#[derive(Clone, Copy, Debug, PartialEq, Eq, Structural)]
pub enum StorageKey {
    Farms,
    Stakes,
    StorageDeposits,
}

/// An outbound transfer the engine asks the host to perform: `amount` of
/// asset `token` to `receiver`. Fire-and-forget; the engine's books are
/// already updated when the request is handed out.
#[derive(Clone, Debug, PartialEq, Eq)]
pub struct TransferRequest {
    pub token: String,
    pub receiver: String,
    pub amount: u128,
}

/// One stake record together with its owner and farm.
pub struct StakeEntry {
    pub account: String,
    pub farm_id: u64,
    pub info: StakeInfo,
}

/// One account's prepaid storage credit.
pub struct DepositEntry {
    pub account: String,
    pub amount: u128,
}

#[verifier::ext_equal]
pub ghost struct TransferRequestModel {
    pub token: Seq<char>,
    pub receiver: Seq<char>,
    pub amount: u128,
}

#[verifier::ext_equal]
pub ghost struct StakeEntryModel {
    pub account: Seq<char>,
    pub farm_id: u64,
    pub info: StakeModel,
}

#[verifier::ext_equal]
pub ghost struct DepositEntryModel {
    pub account: Seq<char>,
    pub amount: u128,
}

/// Mathematical model of the whole engine state.
#[verifier::ext_equal]
pub ghost struct ContractModel {
    pub farms: Seq<FarmModel>,
    pub stakes: Seq<StakeEntryModel>,
    pub farm_count: u64,
    pub storage_deposits: Seq<DepositEntryModel>,
    pub admin: Seq<char>,
}

impl View for TransferRequest {
    type V = TransferRequestModel;

    open spec fn view(&self) -> TransferRequestModel {
        TransferRequestModel {
            token: self.token@,
            receiver: self.receiver@,
            amount: self.amount,
        }
    }
}

impl DeepView for TransferRequest {
    type V = TransferRequestModel;

    open spec fn deep_view(&self) -> TransferRequestModel {
        self.view()
    }
}

impl View for StakeEntry {
    type V = StakeEntryModel;

    open spec fn view(&self) -> StakeEntryModel {
        StakeEntryModel {
            account: self.account@,
            farm_id: self.farm_id,
            info: self.info@,
        }
    }
}

impl DeepView for StakeEntry {
    type V = StakeEntryModel;

    open spec fn deep_view(&self) -> StakeEntryModel {
        self.view()
    }
}

impl View for DepositEntry {
    type V = DepositEntryModel;

    open spec fn view(&self) -> DepositEntryModel {
        DepositEntryModel {
            account: self.account@,
            amount: self.amount,
        }
    }
}

impl DeepView for DepositEntry {
    type V = DepositEntryModel;

    open spec fn deep_view(&self) -> DepositEntryModel {
        self.view()
    }
}

/// The engine. Farms are identified by their position in `farms`;
/// identifiers are assigned sequentially and never reused.
pub struct ChildFarmingContract {
    pub farms: Vec<FarmParams>,
    pub stakes: Vec<StakeEntry>,
    pub farm_count: u64,
    pub storage_deposits: Vec<DepositEntry>,
    pub admin: String,
}

impl View for ChildFarmingContract {
    type V = ContractModel;

    open spec fn view(&self) -> ContractModel {
        ContractModel {
            farms: self.farms.deep_view(),
            stakes: self.stakes.deep_view(),
            farm_count: self.farm_count,
            storage_deposits: self.storage_deposits.deep_view(),
            admin: self.admin@,
        }
    }
}

/// Index of the first stake record owned by `account` in farm `farm_id`,
/// or `stakes.len()` if there is none.
pub open spec fn spec_find_stake(
    stakes: Seq<StakeEntryModel>,
    account: Seq<char>,
    farm_id: u64,
) -> int
    decreases stakes.len(),
{
    if stakes.len() == 0 {
        0
    } else if stakes[0].account == account && stakes[0].farm_id == farm_id {
        0
    } else {
        1 + spec_find_stake(stakes.skip(1), account, farm_id)
    }
}

/// Index of the first storage-credit entry of `account`, or
/// `deposits.len()` if there is none.
pub open spec fn spec_find_deposit(deposits: Seq<DepositEntryModel>, account: Seq<char>) -> int
    decreases deposits.len(),
{
    if deposits.len() == 0 {
        0
    } else if deposits[0].account == account {
        0
    } else {
        1 + spec_find_deposit(deposits.skip(1), account)
    }
}

/// The storage credit `account` has on deposit (0 if no entry).
pub open spec fn spec_deposit_of(deposits: Seq<DepositEntryModel>, account: Seq<char>) -> u128 {
    let j = spec_find_deposit(deposits, account);
    if j < deposits.len() {
        deposits[j].amount
    } else {
        0u128
    }
}

pub proof fn lemma_find_stake_bounds(stakes: Seq<StakeEntryModel>, account: Seq<char>, farm_id: u64)
    ensures
        0 <= spec_find_stake(stakes, account, farm_id) <= stakes.len(),
        spec_find_stake(stakes, account, farm_id) < stakes.len() ==> {
            let e = stakes[spec_find_stake(stakes, account, farm_id)];
            e.account == account && e.farm_id == farm_id
        },
        forall|k: int|
            0 <= k < spec_find_stake(stakes, account, farm_id) ==> !(stakes[k].account == account
                && stakes[k].farm_id == farm_id),
    decreases stakes.len(),
{
    if stakes.len() == 0 {
    } else if stakes[0].account == account && stakes[0].farm_id == farm_id {
    } else {
        lemma_find_stake_bounds(stakes.skip(1), account, farm_id);
        assert forall|k: int|
            0 <= k < spec_find_stake(stakes, account, farm_id) implies !(stakes[k].account
            == account && stakes[k].farm_id == farm_id) by {
            if k > 0 {
                assert(stakes.skip(1)[k - 1] == stakes[k]);
            }
        }
    }
}

proof fn lemma_find_stake_unique(
    stakes: Seq<StakeEntryModel>,
    account: Seq<char>,
    farm_id: u64,
    i: int,
)
    requires
        0 <= i <= stakes.len(),
        forall|k: int|
            0 <= k < i ==> !(stakes[k].account == account && stakes[k].farm_id == farm_id),
        i < stakes.len() ==> stakes[i].account == account && stakes[i].farm_id == farm_id,
    ensures
        spec_find_stake(stakes, account, farm_id) == i,
    decreases stakes.len(),
{
    if i == 0 {
    } else {
        assert forall|k: int|
            0 <= k < i - 1 implies !(stakes.skip(1)[k].account == account
            && stakes.skip(1)[k].farm_id == farm_id) by {
            assert(stakes.skip(1)[k] == stakes[k + 1]);
        }
        assert(i - 1 < stakes.skip(1).len() ==> stakes.skip(1)[i - 1] == stakes[i]);
        lemma_find_stake_unique(stakes.skip(1), account, farm_id, i - 1);
    }
}

pub proof fn lemma_find_deposit_bounds(deposits: Seq<DepositEntryModel>, account: Seq<char>)
    ensures
        0 <= spec_find_deposit(deposits, account) <= deposits.len(),
        spec_find_deposit(deposits, account) < deposits.len()
            ==> deposits[spec_find_deposit(deposits, account)].account == account,
        forall|k: int|
            0 <= k < spec_find_deposit(deposits, account) ==> deposits[k].account != account,
    decreases deposits.len(),
{
    if deposits.len() == 0 {
    } else if deposits[0].account == account {
    } else {
        lemma_find_deposit_bounds(deposits.skip(1), account);
        assert forall|k: int|
            0 <= k < spec_find_deposit(deposits, account) implies deposits[k].account
            != account by {
            if k > 0 {
                assert(deposits.skip(1)[k - 1] == deposits[k]);
            }
        }
    }
}

proof fn lemma_find_deposit_unique(deposits: Seq<DepositEntryModel>, account: Seq<char>, i: int)
    requires
        0 <= i <= deposits.len(),
        forall|k: int| 0 <= k < i ==> deposits[k].account != account,
        i < deposits.len() ==> deposits[i].account == account,
    ensures
        spec_find_deposit(deposits, account) == i,
    decreases deposits.len(),
{
    if i == 0 {
    } else {
        assert forall|k: int| 0 <= k < i - 1 implies deposits.skip(1)[k].account != account by {
            assert(deposits.skip(1)[k] == deposits[k + 1]);
        }
        assert(i - 1 < deposits.skip(1).len() ==> deposits.skip(1)[i - 1] == deposits[i]);
        lemma_find_deposit_unique(deposits.skip(1), account, i - 1);
    }
}

impl ContractModel {
    /// Structural validity: the identifier counter matches the registry,
    /// every farm is well formed, and every stake record points at an
    /// existing farm, lines up with its reward slots, and holds a positive
    /// amount (a record drained to zero is deleted, never kept).
    pub open spec fn wf(self) -> bool {
        &&& self.farm_count == self.farms.len()
        &&& forall|f: int| 0 <= f < self.farms.len() ==> (#[trigger] self.farms[f]).wf()
        &&& forall|j: int|
            0 <= j < self.stakes.len() ==> {
                let e = #[trigger] self.stakes[j];
                &&& e.farm_id < self.farms.len()
                &&& e.info.wf_for(self.farms[e.farm_id as int])
                &&& e.info.amount > 0
            }
    }
}

/// Bytes needed to persist a farm record with `n` reward slots.
pub open spec fn spec_farm_storage_bytes(n: u64) -> u64 {
    sat_add_u64(
        120,
        sat_add_u64(sat_mul_u64(32, n), sat_add_u64(sat_mul_u64(16, n), sat_mul_u64(16, n))),
    )
}

/// Bytes needed to persist a stake record with `n` reward slots.
pub open spec fn spec_stake_storage_bytes(n: u64) -> u64 {
    sat_add_u64(64, sat_add_u64(sat_mul_u64(16, n), sat_mul_u64(16, n)))
}

/// What `bytes` bytes of storage cost in the native token.
pub open spec fn spec_storage_cost(bytes: u64) -> u128 {
    (bytes as u128 * STORAGE_BYTE_COST) as u128
}

/// The farm a valid creation request yields at time `now`: durations scaled
/// to nanoseconds, an empty accumulator, and the first checkpoint at the
/// requested start (or at `now` for a "start immediately" request).
pub open spec fn spec_farm_from_input(input: FarmInputModel, now: u64) -> FarmModel {
    let start_ns = sat_mul_u64(input.start_at_sec, NANOSECONDS_PER_SECOND);
    FarmModel {
        staking_token: input.staking_token,
        reward_tokens: input.reward_tokens,
        reward_per_session: input.reward_per_session,
        session_interval: sat_mul_u64(input.session_interval_sec, NANOSECONDS_PER_SECOND),
        start_time: start_ns,
        last_distribution: if input.start_at_sec == 0 {
            now
        } else {
            start_ns
        },
        total_staked: 0,
        reward_per_share: Seq::new(input.reward_tokens.len(), |i: int| 0u128),
        lockup_period: sat_mul_u64(input.lockup_period_sec, NANOSECONDS_PER_SECOND),
    }
}

/// Outcome of a farm-creation request: the creator must have storage credit
/// for the record, the reward lists must be non-empty and of equal length,
/// and the session interval must be positive; the farm then gets the next
/// sequential identifier. On error nothing changes.
pub open spec fn spec_create_farm(
    m: ContractModel,
    input: FarmInputModel,
    creator: Seq<char>,
    now: u64,
) -> (ContractModel, Result<u64, FarmError>) {
    let cost = spec_storage_cost(spec_farm_storage_bytes(input.reward_tokens.len() as u64));
    let deposit = spec_deposit_of(m.storage_deposits, creator);
    if deposit < cost {
        (m, Err(FarmError::InsufficientStorage { shortfall: sat_sub_u128(cost, deposit) }))
    } else if input.reward_tokens.len() != input.reward_per_session.len()
        || input.reward_tokens.len() == 0 {
        (m, Err(FarmError::MismatchedRewardConfig))
    } else if input.session_interval_sec == 0 {
        (m, Err(FarmError::ZeroSessionInterval))
    } else {
        (
            ContractModel {
                farms: m.farms.push(spec_farm_from_input(input, now)),
                farm_count: (m.farm_count + 1) as u64,
                ..m
            },
            Ok(m.farm_count),
        )
    }
}

/// Outcome of staking `amount` of `token_in` into `farm_id` for `sender`:
/// the farm must exist and accept `token_in` as its staking asset, the
/// amount must be positive, and a first-time staker needs storage credit
/// for the new record. The farm's accumulator is brought up to `now`, the
/// record (fresh and zeroed, or the existing one) is settled against it,
/// and only then do the record's amount and the farm's total grow by
/// `amount`; the lockup is extended to `now + lockup_period` if that is
/// later, never shortened. On error nothing changes.
pub open spec fn spec_stake_tokens(
    m: ContractModel,
    farm_id: u64,
    token_in: Seq<char>,
    amount: u128,
    sender: Seq<char>,
    now: u64,
) -> (ContractModel, Result<(), FarmError>) {
    if farm_id >= m.farms.len() {
        (m, Err(FarmError::FarmNotFound))
    } else {
        let farm0 = m.farms[farm_id as int];
        if farm0.staking_token != token_in {
            (m, Err(FarmError::WrongStakingToken))
        } else if amount == 0 {
            (m, Err(FarmError::ZeroStakeAmount))
        } else {
            let j = spec_find_stake(m.stakes, sender, farm_id);
            let is_new = j >= m.stakes.len();
            let cost = spec_storage_cost(
                spec_stake_storage_bytes(farm0.reward_tokens.len() as u64),
            );
            let deposit = spec_deposit_of(m.storage_deposits, sender);
            if is_new && deposit < cost {
                (m, Err(FarmError::InsufficientStorage { shortfall: sat_sub_u128(cost, deposit) }))
            } else {
                let farm1 = spec_update_farm(farm0, now);
                let base = if is_new {
                    StakeModel {
                        amount: 0,
                        lockup_end: sat_add_u64(now, farm0.lockup_period),
                        reward_debt: Seq::new(farm0.reward_tokens.len(), |i: int| 0u128),
                        accrued_rewards: Seq::new(farm0.reward_tokens.len(), |i: int| 0u128),
                    }
                } else {
                    m.stakes[j].info
                };
                let settled = spec_settle(farm1, base);
                let new_lockup = sat_add_u64(now, farm1.lockup_period);
                let updated = StakeModel {
                    amount: sat_add_u128(settled.amount, amount),
                    lockup_end: if new_lockup > settled.lockup_end {
                        new_lockup
                    } else {
                        settled.lockup_end
                    },
                    ..settled
                };
                let entry = StakeEntryModel { account: sender, farm_id: farm_id, info: updated };
                let farm2 = FarmModel {
                    total_staked: sat_add_u128(farm1.total_staked, amount),
                    ..farm1
                };
                (
                    ContractModel {
                        farms: m.farms.update(farm_id as int, farm2),
                        stakes: if is_new {
                            m.stakes.push(entry)
                        } else {
                            m.stakes.update(j, entry)
                        },
                        ..m
                    },
                    Ok(()),
                )
            }
        }
    }
}

/// Outcome of a reward top-up: the farm must exist and `token_in` must be
/// one of its reward assets. The transfer is only acknowledged — emission
/// is schedule-driven, so the deposit never feeds the accrual math, and the
/// engine state never changes.
pub open spec fn spec_add_reward(m: ContractModel, farm_id: u64, token_in: Seq<char>) -> Result<
    (),
    FarmError,
> {
    if farm_id >= m.farms.len() {
        Err(FarmError::FarmNotFound)
    } else if !exists|i: int|
        0 <= i < m.farms[farm_id as int].reward_tokens.len()
            && m.farms[farm_id as int].reward_tokens[i] == token_in {
        Err(FarmError::NotARewardToken)
    } else {
        Ok(())
    }
}

/// Outcome of an inbound transfer notification. A message that is no
/// well-formed directive refuses the transfer: the whole amount is handed
/// back and nothing changes. A recognized directive is dispatched to the
/// staking or reward-top-up path; on its success nothing is refunded.
pub open spec fn spec_ft_on_transfer(
    m: ContractModel,
    sender_id: Seq<char>,
    amount: u128,
    msg: Seq<char>,
    token_in: Seq<char>,
    now: u64,
) -> (ContractModel, Result<u128, FarmError>) {
    match spec_directive(msg) {
        Directive::Refused => (m, Ok(amount)),
        Directive::Stake(fid) => {
            let (m2, res) = spec_stake_tokens(m, fid, token_in, amount, sender_id, now);
            match res {
                Ok(_) => (m2, Ok(0u128)),
                Err(e) => (m2, Err(e)),
            }
        },
        Directive::AddReward(fid) => match spec_add_reward(m, fid, token_in) {
            Ok(_) => (m, Ok(0u128)),
            Err(e) => (m, Err(e)),
        },
    }
}

/// The outbound transfers a claim hands out: one request per reward slot
/// with a positive settled accrual, in slot order.
pub open spec fn spec_claim_requests(
    tokens: Seq<Seq<char>>,
    accrued: Seq<u128>,
    receiver: Seq<char>,
) -> Seq<TransferRequestModel>
    recommends
        tokens.len() == accrued.len(),
    decreases accrued.len(),
{
    if accrued.len() == 0 {
        Seq::empty()
    } else {
        let prefix = spec_claim_requests(tokens.drop_last(), accrued.drop_last(), receiver);
        if accrued.last() > 0 {
            prefix.push(
                TransferRequestModel {
                    token: tokens[accrued.len() - 1],
                    receiver: receiver,
                    amount: accrued.last(),
                },
            )
        } else {
            prefix
        }
    }
}

/// Outcome of claiming all pending rewards: the farm's accumulator is
/// brought up to `now`, the caller's record is settled against it, every
/// positive accrued slot is zeroed, and one outbound transfer per such slot
/// is handed out. The slots are cleared optimistically: the engine does not
/// wait for the transfers to complete. On error nothing changes.
pub open spec fn spec_claim_rewards(m: ContractModel, farm_id: u64, user: Seq<char>, now: u64) -> (
    ContractModel,
    Result<Seq<TransferRequestModel>, FarmError>,
) {
    if farm_id >= m.farms.len() {
        (m, Err(FarmError::FarmNotFound))
    } else {
        let j = spec_find_stake(m.stakes, user, farm_id);
        if j >= m.stakes.len() {
            (m, Err(FarmError::StakeNotFound))
        } else {
            let farm1 = spec_update_farm(m.farms[farm_id as int], now);
            let settled = spec_settle(farm1, m.stakes[j].info);
            let cleared = StakeModel {
                accrued_rewards: Seq::new(settled.accrued_rewards.len(), |i: int| 0u128),
                ..settled
            };
            let requests = spec_claim_requests(farm1.reward_tokens, settled.accrued_rewards, user);
            (
                ContractModel {
                    farms: m.farms.update(farm_id as int, farm1),
                    stakes: m.stakes.update(
                        j,
                        StakeEntryModel { account: user, farm_id: farm_id, info: cleared },
                    ),
                    ..m
                },
                Ok(requests),
            )
        }
    }
}

/// Outcome of withdrawing `amount` of staked principal: the record must
/// exist, be past its lockup, and hold at least `amount`. The farm is
/// brought up to `now` and the record settled before the amounts shrink; a
/// record drained to zero is deleted. The returned request transfers the
/// principal back in the farm's staking asset. On error nothing changes.
pub open spec fn spec_withdraw(
    m: ContractModel,
    farm_id: u64,
    amount: u128,
    user: Seq<char>,
    now: u64,
) -> (ContractModel, Result<TransferRequestModel, FarmError>) {
    if farm_id >= m.farms.len() {
        (m, Err(FarmError::FarmNotFound))
    } else {
        let j = spec_find_stake(m.stakes, user, farm_id);
        if j >= m.stakes.len() {
            (m, Err(FarmError::StakeNotFound))
        } else if now < m.stakes[j].info.lockup_end {
            (m, Err(FarmError::LockupNotExpired))
        } else if amount > m.stakes[j].info.amount {
            (m, Err(FarmError::InsufficientStakedBalance))
        } else {
            let farm1 = spec_update_farm(m.farms[farm_id as int], now);
            let settled = spec_settle(farm1, m.stakes[j].info);
            let new_amount = (settled.amount - amount) as u128;
            let farm2 = FarmModel {
                total_staked: sat_sub_u128(farm1.total_staked, amount),
                ..farm1
            };
            let stakes2 = if new_amount == 0 {
                m.stakes.remove(j)
            } else {
                m.stakes.update(
                    j,
                    StakeEntryModel {
                        account: user,
                        farm_id: farm_id,
                        info: StakeModel { amount: new_amount, ..settled },
                    },
                )
            };
            (
                ContractModel { farms: m.farms.update(farm_id as int, farm2), stakes: stakes2, ..m },
                Ok(
                    TransferRequestModel {
                        token: farm1.staking_token,
                        receiver: user,
                        amount: amount,
                    },
                ),
            )
        }
    }
}

/// Outcome of bringing one farm's accumulator up to `now`.
pub open spec fn spec_update_farm_op(m: ContractModel, farm_id: u64, now: u64) -> (
    ContractModel,
    Result<(), FarmError>,
) {
    if farm_id >= m.farms.len() {
        (m, Err(FarmError::FarmNotFound))
    } else {
        (
            ContractModel {
                farms: m.farms.update(
                    farm_id as int,
                    spec_update_farm(m.farms[farm_id as int], now),
                ),
                ..m
            },
            Ok(()),
        )
    }
}

impl ChildFarmingContract {
    pub open spec fn wf(self) -> bool {
        self@.wf()
    }

    /// A fresh engine with no farms, no stakes and no storage credit.
    pub fn new(admin: String) -> (c: Self)
        ensures
            c@.farms == Seq::<FarmModel>::empty(),
            c@.stakes == Seq::<StakeEntryModel>::empty(),
            c@.storage_deposits == Seq::<DepositEntryModel>::empty(),
            c@.farm_count == 0,
            c@.admin == admin@,
            c.wf(),
    {
        let c = ChildFarmingContract {
            farms: Vec::new(),
            stakes: Vec::new(),
            farm_count: 0,
            storage_deposits: Vec::new(),
            admin,
        };
        proof {
            assert(c@.farms =~= Seq::<FarmModel>::empty());
            assert(c@.stakes =~= Seq::<StakeEntryModel>::empty());
            assert(c@.storage_deposits =~= Seq::<DepositEntryModel>::empty());
        }
        c
    }

    /// Bytes a farm record with `num_rewards` reward slots occupies: a
    /// fixed overhead plus the per-slot share arrays and token identifiers.
    pub fn estimate_farm_storage(num_rewards: usize) -> (r: u64)
        ensures
            r == spec_farm_storage_bytes(num_rewards as u64),
    {
        let n = num_rewards as u64;
        let overhead: u64 = 40;
        let base_bytes: u64 = 8 + 8 + 8 + 16 + 8;
        let reward_per_share_bytes = saturating_mul_u64(16, n);
        let reward_per_session_bytes = saturating_mul_u64(16, n);
        let staking_token_bytes: u64 = 32;
        let reward_tokens_bytes = saturating_mul_u64(32, n);

        saturating_add_u64(
            overhead + base_bytes + staking_token_bytes,
            saturating_add_u64(
                reward_tokens_bytes,
                saturating_add_u64(reward_per_share_bytes, reward_per_session_bytes),
            ),
        )
    }

    /// Bytes a stake record with `num_rewards` reward slots occupies.
    pub fn estimate_stake_storage(num_rewards: usize) -> (r: u64)
        ensures
            r == spec_stake_storage_bytes(num_rewards as u64),
    {
        let n = num_rewards as u64;
        let overhead_key: u64 = 40;
        let amount_bytes: u64 = 16;
        let lockup_end_bytes: u64 = 8;
        let reward_debt_bytes = saturating_mul_u64(16, n);
        let accrued_rewards_bytes = saturating_mul_u64(16, n);

        saturating_add_u64(
            overhead_key + amount_bytes + lockup_end_bytes,
            saturating_add_u64(reward_debt_bytes, accrued_rewards_bytes),
        )
    }

    /// Index of `account`'s stake record in `farm_id`, or `stakes.len()`.
    pub(crate) fn find_stake(&self, account: &String, farm_id: u64) -> (j: usize)
        ensures
            j == spec_find_stake(self@.stakes, account@, farm_id),
    {
        let n = self.stakes.len();
        let mut j: usize = 0;
        while j < n
            invariant
                j <= n,
                n == self.stakes.len(),
                forall|k: int|
                    0 <= k < j ==> !((#[trigger] self@.stakes[k]).account == account@
                        && self@.stakes[k].farm_id == farm_id),
            decreases n - j,
        {
            let e = &self.stakes[j];
            if e.account == *account && e.farm_id == farm_id {
                proof {
                    lemma_find_stake_unique(self@.stakes, account@, farm_id, j as int);
                }
                return j;
            }
            j += 1;
        }
        proof {
            lemma_find_stake_unique(self@.stakes, account@, farm_id, n as int);
        }
        n
    }

    /// Index of `account`'s storage-credit entry, or `deposits.len()`.
    fn find_deposit(&self, account: &String) -> (j: usize)
        ensures
            j == spec_find_deposit(self@.storage_deposits, account@),
    {
        let n = self.storage_deposits.len();
        let mut j: usize = 0;
        while j < n
            invariant
                j <= n,
                n == self.storage_deposits.len(),
                forall|k: int|
                    0 <= k < j ==> (#[trigger] self@.storage_deposits[k]).account != account@,
            decreases n - j,
        {
            let e = &self.storage_deposits[j];
            if e.account == *account {
                proof {
                    lemma_find_deposit_unique(self@.storage_deposits, account@, j as int);
                }
                return j;
            }
            j += 1;
        }
        proof {
            lemma_find_deposit_unique(self@.storage_deposits, account@, n as int);
        }
        n
    }

    /// Fails with the shortfall unless `user` has storage credit for
    /// `bytes_needed` more bytes.
    fn check_storage_sufficient(&self, user: &String, bytes_needed: u64) -> (r: Result<
        (),
        FarmError,
    >)
        ensures
            ({
                let deposit = spec_deposit_of(self@.storage_deposits, user@);
                let cost = spec_storage_cost(bytes_needed);
                match r {
                    Ok(()) => deposit >= cost,
                    Err(e) => deposit < cost && e == (FarmError::InsufficientStorage {
                        shortfall: sat_sub_u128(cost, deposit),
                    }),
                }
            }),
    {
        let j = self.find_deposit(user);
        proof {
            lemma_find_deposit_bounds(self@.storage_deposits, user@);
        }
        let deposit: u128 = if j < self.storage_deposits.len() {
            self.storage_deposits[j].amount
        } else {
            0
        };
        let cost: u128 = (bytes_needed as u128) * STORAGE_BYTE_COST;
        if deposit >= cost {
            Ok(())
        } else {
            Err(FarmError::InsufficientStorage { shortfall: saturating_sub_u128(cost, deposit) })
        }
    }

    /// Credits `attached_deposit` to `account_id`'s storage balance.
    pub fn storage_deposit(&mut self, account_id: String, attached_deposit: u128)
        ensures
            final(self)@.farms == old(self)@.farms,
            final(self)@.stakes == old(self)@.stakes,
            final(self)@.farm_count == old(self)@.farm_count,
            final(self)@.admin == old(self)@.admin,
            ({
                let deps = old(self)@.storage_deposits;
                let j = spec_find_deposit(deps, account_id@);
                final(self)@.storage_deposits == if j < deps.len() {
                    deps.update(
                        j,
                        DepositEntryModel {
                            account: account_id@,
                            amount: sat_add_u128(deps[j].amount, attached_deposit),
                        },
                    )
                } else {
                    deps.push(
                        DepositEntryModel { account: account_id@, amount: attached_deposit },
                    )
                }
            }),
            spec_deposit_of(final(self)@.storage_deposits, account_id@) == sat_add_u128(
                spec_deposit_of(old(self)@.storage_deposits, account_id@),
                attached_deposit,
            ),
            old(self).wf() ==> final(self).wf(),
    {
        let ghost a = account_id@;
        let ghost old_deps = self@.storage_deposits;
        let j = self.find_deposit(&account_id);
        proof {
            lemma_find_deposit_bounds(old_deps, a);
        }
        if j < self.storage_deposits.len() {
            let current = self.storage_deposits[j].amount;
            let updated = DepositEntry {
                account: account_id,
                amount: saturating_add_u128(current, attached_deposit),
            };
            self.storage_deposits.set(j, updated);
            proof {
                let new_deps = self@.storage_deposits;
                assert forall|k: int| 0 <= k < j implies new_deps[k].account != a by {
                    assert(new_deps[k] == old_deps[k]);
                }
                lemma_find_deposit_unique(new_deps, a, j as int);
            }
        } else {
            let entry = DepositEntry { account: account_id, amount: attached_deposit };
            self.storage_deposits.push(entry);
            proof {
                let new_deps = self@.storage_deposits;
                assert(new_deps =~= old_deps.push(
                    DepositEntryModel { account: a, amount: attached_deposit },
                ));
                assert forall|k: int|
                    0 <= k < old_deps.len() implies new_deps[k].account != a by {
                    assert(new_deps[k] == old_deps[k]);
                }
                lemma_find_deposit_unique(new_deps, a, old_deps.len() as int);
            }
        }
    }

    /// Debits `amount` (or the whole balance, if `None`) from
    /// `account_id`'s storage credit; the returned value is what the host
    /// must transfer back to the account.
    pub fn storage_withdraw(&mut self, account_id: String, amount: Option<u128>) -> (r: Result<
        u128,
        FarmError,
    >)
        ensures
            final(self)@.farms == old(self)@.farms,
            final(self)@.stakes == old(self)@.stakes,
            final(self)@.farm_count == old(self)@.farm_count,
            final(self)@.admin == old(self)@.admin,
            ({
                let deps = old(self)@.storage_deposits;
                let j = spec_find_deposit(deps, account_id@);
                let current = spec_deposit_of(deps, account_id@);
                let to_withdraw = if amount is Some {
                    amount->0
                } else {
                    current
                };
                match r {
                    Ok(w) => {
                        &&& to_withdraw <= current
                        &&& w == to_withdraw
                        &&& final(self)@.storage_deposits == if j < deps.len() {
                            deps.update(
                                j,
                                DepositEntryModel {
                                    account: account_id@,
                                    amount: (current - to_withdraw) as u128,
                                },
                            )
                        } else {
                            deps.push(
                                DepositEntryModel {
                                    account: account_id@,
                                    amount: (current - to_withdraw) as u128,
                                },
                            )
                        }
                        &&& spec_deposit_of(final(self)@.storage_deposits, account_id@) == current
                            - to_withdraw
                    },
                    Err(e) => {
                        &&& to_withdraw > current
                        &&& e == FarmError::InsufficientStorageCredit
                        &&& final(self)@.storage_deposits == deps
                    },
                }
            }),
            old(self).wf() ==> final(self).wf(),
    {
        let ghost a = account_id@;
        let ghost old_deps = self@.storage_deposits;
        let j = self.find_deposit(&account_id);
        proof {
            lemma_find_deposit_bounds(old_deps, a);
        }
        let current: u128 = if j < self.storage_deposits.len() {
            self.storage_deposits[j].amount
        } else {
            0
        };
        let to_withdraw: u128 = match amount {
            Some(v) => v,
            None => current,
        };
        if to_withdraw > current {
            return Err(FarmError::InsufficientStorageCredit);
        }
        let remaining = current - to_withdraw;
        if j < self.storage_deposits.len() {
            let updated = DepositEntry { account: account_id, amount: remaining };
            self.storage_deposits.set(j, updated);
            proof {
                let new_deps = self@.storage_deposits;
                assert forall|k: int| 0 <= k < j implies new_deps[k].account != a by {
                    assert(new_deps[k] == old_deps[k]);
                }
                lemma_find_deposit_unique(new_deps, a, j as int);
            }
        } else {
            let entry = DepositEntry { account: account_id, amount: remaining };
            self.storage_deposits.push(entry);
            proof {
                let new_deps = self@.storage_deposits;
                assert(new_deps =~= old_deps.push(
                    DepositEntryModel { account: a, amount: remaining },
                ));
                assert forall|k: int|
                    0 <= k < old_deps.len() implies new_deps[k].account != a by {
                    assert(new_deps[k] == old_deps[k]);
                }
                lemma_find_deposit_unique(new_deps, a, old_deps.len() as int);
            }
        }
        proof {
            if old(self).wf() {
                assert(self@.farms == old(self)@.farms);
                assert(self@.stakes == old(self)@.stakes);
                assert(self@.wf());
            }
        }
        Ok(to_withdraw)
    }

    /// Registers a new farm under the next sequential identifier.
    pub fn create_farm(&mut self, input: FarmInput, creator: String, now: u64) -> (r: Result<
        u64,
        FarmError,
    >)
        requires
            old(self).wf(),
        ensures
            final(self).wf(),
            final(self)@ == spec_create_farm(old(self)@, input@, creator@, now).0,
            r == spec_create_farm(old(self)@, input@, creator@, now).1,
    {
        let ghost m0 = self@;
        let ghost input_v = input@;

        let num_rewards = input.reward_tokens.len();
        let required_bytes = Self::estimate_farm_storage(num_rewards);
        match self.check_storage_sufficient(&creator, required_bytes) {
            Ok(()) => {},
            Err(e) => {
                return Err(e);
            },
        }
        if num_rewards != input.reward_per_session.len() || num_rewards == 0 {
            return Err(FarmError::MismatchedRewardConfig);
        }
        if input.session_interval_sec == 0 {
            return Err(FarmError::ZeroSessionInterval);
        }

        let lockup_ns = saturating_mul_u64(input.lockup_period_sec, NANOSECONDS_PER_SECOND);
        let interval_ns = saturating_mul_u64(input.session_interval_sec, NANOSECONDS_PER_SECOND);
        let start_ns = saturating_mul_u64(input.start_at_sec, NANOSECONDS_PER_SECOND);

        let farm_id = self.farm_count;
        let initial_dist = if input.start_at_sec == 0 {
            now
        } else {
            start_ns
        };

        let mut rps: Vec<u128> = Vec::new();
        let mut k: usize = 0;
        while k < num_rewards
            invariant
                k <= num_rewards,
                rps@.len() == k,
                forall|i: int| 0 <= i < k ==> rps@[i] == 0u128,
            decreases num_rewards - k,
        {
            rps.push(0);
            k += 1;
        }

        let farm = FarmParams {
            staking_token: input.staking_token,
            reward_tokens: input.reward_tokens,
            reward_per_session: input.reward_per_session,
            session_interval: interval_ns,
            start_time: start_ns,
            last_distribution: initial_dist,
            total_staked: 0,
            reward_per_share: rps,
            lockup_period: lockup_ns,
        };
        proof {
            assert(farm@.reward_per_share =~= spec_farm_from_input(input_v, now).reward_per_share);
            assert(farm@ =~~= spec_farm_from_input(input_v, now));
        }

        self.farms.push(farm);
        let n = self.farms.len();
        self.farm_count = n as u64;

        proof {
            assert(self@.farms =~= m0.farms.push(spec_farm_from_input(input_v, now)));
            assert(self@ =~~= spec_create_farm(m0, input_v, creator@, now).0);
            let m2 = self@;
            assert(m2.farm_count == m2.farms.len());
            assert forall|f: int| 0 <= f < m2.farms.len() implies (#[trigger] m2.farms[f]).wf() by {
                if f < m0.farms.len() {
                    assert(m2.farms[f] == m0.farms[f]);
                } else {
                    assert(m2.farms[f] == spec_farm_from_input(input_v, now));
                }
            }
            assert forall|j: int| 0 <= j < m2.stakes.len() implies {
                let e = #[trigger] m2.stakes[j];
                &&& e.farm_id < m2.farms.len()
                &&& e.info.wf_for(m2.farms[e.farm_id as int])
                &&& e.info.amount > 0
            } by {
                assert(m2.stakes[j] == m0.stakes[j]);
                assert(m2.farms[m0.stakes[j].farm_id as int] == m0.farms[
                    m0.stakes[j].farm_id as int
                ]);
            }
        }
        Ok(farm_id)
    }

    /// Brings the farm's reward-per-share accumulator and checkpoint up to
    /// `now`. Idempotent: a second call with the same `now` changes nothing.
    pub fn update_farm(&mut self, farm_id: u64, now: u64) -> (r: Result<(), FarmError>)
        requires
            old(self).wf(),
        ensures
            final(self).wf(),
            final(self)@ == spec_update_farm_op(old(self)@, farm_id, now).0,
            r == spec_update_farm_op(old(self)@, farm_id, now).1,
    {
        let ghost m0 = self@;
        if farm_id >= self.farms.len() as u64 {
            return Err(FarmError::FarmNotFound);
        }
        let idx = farm_id as usize;
        let farm_ref = vstd::std_specs::vec::vec_index_mut(&mut self.farms, idx);
        update_farm(farm_ref, now);
        proof {
            assert(self@.farms =~= m0.farms.update(
                farm_id as int,
                spec_update_farm(m0.farms[farm_id as int], now),
            ));
            assert(self@ =~~= spec_update_farm_op(m0, farm_id, now).0);
            let m2 = self@;
            let f1 = spec_update_farm(m0.farms[farm_id as int], now);
            assert(f1.reward_tokens == m0.farms[farm_id as int].reward_tokens);
            assert(f1.reward_per_session == m0.farms[farm_id as int].reward_per_session);
            assert(f1.reward_per_share.len() == m0.farms[farm_id as int].reward_per_share.len());
            assert forall|j: int| 0 <= j < m2.stakes.len() implies {
                let e = #[trigger] m2.stakes[j];
                &&& e.farm_id < m2.farms.len()
                &&& e.info.wf_for(m2.farms[e.farm_id as int])
                &&& e.info.amount > 0
            } by {
                assert(m2.stakes[j] == m0.stakes[j]);
                assert(m0.stakes[j].info.wf_for(m0.farms[m0.stakes[j].farm_id as int]));
            }
            assert(m2.wf());
        }
        Ok(())
    }

    /// Stakes `amount` of `token_in` into `farm_id` on behalf of `sender`.
    pub fn stake_tokens(
        &mut self,
        farm_id: u64,
        token_in: String,
        amount: u128,
        sender: &String,
        now: u64,
    ) -> (r: Result<(), FarmError>)
        requires
            old(self).wf(),
        ensures
            final(self).wf(),
            final(self)@ == spec_stake_tokens(old(self)@, farm_id, token_in@, amount, sender@, now).0,
            r == spec_stake_tokens(old(self)@, farm_id, token_in@, amount, sender@, now).1,
    {
        let ghost m0 = self@;
        if farm_id >= self.farms.len() as u64 {
            return Err(FarmError::FarmNotFound);
        }
        let idx = farm_id as usize;
        if !(self.farms[idx].staking_token == token_in) {
            return Err(FarmError::WrongStakingToken);
        }
        if amount == 0 {
            return Err(FarmError::ZeroStakeAmount);
        }
        let j = self.find_stake(sender, farm_id);
        proof {
            lemma_find_stake_bounds(m0.stakes, sender@, farm_id);
        }
        let is_new = j >= self.stakes.len();
        if is_new {
            let n_slots = self.farms[idx].reward_tokens.len();
            let required_bytes = Self::estimate_stake_storage(n_slots);
            match self.check_storage_sufficient(sender, required_bytes) {
                Ok(()) => {},
                Err(e) => {
                    return Err(e);
                },
            }
        }

        let lockup_period = self.farms[idx].lockup_period;
        let new_lockup = saturating_add_u64(now, lockup_period);

        let farm_ref = vstd::std_specs::vec::vec_index_mut(&mut self.farms, idx);
        update_farm(farm_ref, now);
        proof {
            assert(self@.farms =~= m0.farms.update(
                farm_id as int,
                spec_update_farm(m0.farms[farm_id as int], now),
            ));
        }
        let ghost farm1 = spec_update_farm(m0.farms[farm_id as int], now);

        let mut entry: StakeEntry = if is_new {
            let n_slots = self.farms[idx].reward_tokens.len();
            StakeEntry {
                account: sender.clone(),
                farm_id,
                info: StakeInfo {
                    amount: 0,
                    lockup_end: new_lockup,
                    reward_debt: zeros_vec(n_slots),
                    accrued_rewards: zeros_vec(n_slots),
                },
            }
        } else {
            self.stakes.remove(j)
        };
        proof {
            assert(self.farms.deep_view()[farm_id as int] == farm1);
            assert(farm1.reward_tokens.len() == m0.farms[farm_id as int].reward_tokens.len());
            assert(farm1.reward_per_share.len() == m0.farms[
                farm_id as int
            ].reward_per_share.len());
        }

        let ghost base_v = entry@.info;
        settle(&self.farms[idx], &mut entry.info);

        entry.info.amount = saturating_add_u128(entry.info.amount, amount);
        if new_lockup > entry.info.lockup_end {
            entry.info.lockup_end = new_lockup;
        }

        let farm_ref2 = vstd::std_specs::vec::vec_index_mut(&mut self.farms, idx);
        let new_total = saturating_add_u128(farm_ref2.total_staked, amount);
        farm_ref2.total_staked = new_total;

        let ghost entry_v = entry@;
        if is_new {
            self.stakes.push(entry);
        } else {
            self.stakes.insert(j, entry);
        }

        proof {
            let (m2, res) = spec_stake_tokens(m0, farm_id, token_in@, amount, sender@, now);
            let farm2 = FarmModel { total_staked: sat_add_u128(farm1.total_staked, amount), ..farm1 };
            assert(self@.farms =~= m0.farms.update(farm_id as int, farm2));

            let base = if is_new {
                StakeModel {
                    amount: 0,
                    lockup_end: sat_add_u64(now, m0.farms[farm_id as int].lockup_period),
                    reward_debt: Seq::new(
                        m0.farms[farm_id as int].reward_tokens.len(),
                        |i: int| 0u128,
                    ),
                    accrued_rewards: Seq::new(
                        m0.farms[farm_id as int].reward_tokens.len(),
                        |i: int| 0u128,
                    ),
                }
            } else {
                m0.stakes[j as int].info
            };
            assert(base_v =~~= base);
            let settled = spec_settle(farm1, base);
            let updated = StakeModel {
                amount: sat_add_u128(settled.amount, amount),
                lockup_end: if sat_add_u64(now, farm1.lockup_period) > settled.lockup_end {
                    sat_add_u64(now, farm1.lockup_period)
                } else {
                    settled.lockup_end
                },
                ..settled
            };
            assert(entry_v.info =~~= updated);
            assert(entry_v =~~= StakeEntryModel {
                account: sender@,
                farm_id: farm_id,
                info: updated,
            });
            if is_new {
                assert(self@.stakes =~= m0.stakes.push(entry_v));
            } else {
                assert(self@.stakes =~= m0.stakes.remove(j as int).insert(j as int, entry_v));
                assert(self@.stakes =~= m0.stakes.update(j as int, entry_v));
            }
            assert(self@ =~~= m2);

            assert forall|jj: int| 0 <= jj < m2.stakes.len() implies {
                let e = #[trigger] m2.stakes[jj];
                &&& e.farm_id < m2.farms.len()
                &&& e.info.wf_for(m2.farms[e.farm_id as int])
                &&& e.info.amount > 0
            } by {
                let e = m2.stakes[jj];
                if (is_new && jj == m0.stakes.len()) || (!is_new && jj == j) {
                    assert(e == entry_v);
                    assert(e.info.amount == sat_add_u128(settled.amount, amount));
                } else {
                    assert(e == m0.stakes[jj]);
                    assert(m0.stakes[jj].info.wf_for(m0.farms[m0.stakes[jj].farm_id as int]));
                    if e.farm_id == farm_id {
                        assert(m2.farms[e.farm_id as int] == farm2);
                    } else {
                        assert(m2.farms[e.farm_id as int] == m0.farms[e.farm_id as int]);
                    }
                }
            }
            assert(m2.wf());
        }
        Ok(())
    }

    /// Acknowledges a reward top-up for `farm_id`. The asset must be one of
    /// the farm's reward assets; the accrual state never changes, because
    /// emission is driven by the farm's schedule, not by deposits.
    pub fn add_reward(
        &self,
        farm_id: u64,
        token_in: &String,
        amount: u128,
        sender: &String,
    ) -> (r: Result<(), FarmError>)
        ensures
            r == spec_add_reward(self@, farm_id, token_in@),
    {
        if farm_id >= self.farms.len() as u64 {
            return Err(FarmError::FarmNotFound);
        }
        let idx = farm_id as usize;
        let n = self.farms[idx].reward_tokens.len();
        let mut i: usize = 0;
        while i < n
            invariant
                i <= n,
                farm_id < self.farms@.len(),
                idx == farm_id as int,
                n == self@.farms[farm_id as int].reward_tokens.len(),
                forall|k: int|
                    0 <= k < i ==> self@.farms[farm_id as int].reward_tokens[k] != token_in@,
            decreases n - i,
        {
            if self.farms[idx].reward_tokens[i] == *token_in {
                proof {
                    assert(self@.farms[farm_id as int].reward_tokens[i as int] == token_in@);
                }
                return Ok(());
            }
            i += 1;
        }
        Err(FarmError::NotARewardToken)
    }

    /// Handles an inbound transfer notification carrying a directive
    /// message. The returned value is the amount to refund: the whole
    /// transfer when the message is refused, zero when the directive was
    /// carried out.
    pub fn ft_on_transfer(
        &mut self,
        sender_id: String,
        amount: u128,
        msg: String,
        token_in: String,
        now: u64,
    ) -> (r: Result<u128, FarmError>)
        requires
            old(self).wf(),
        ensures
            final(self).wf(),
            final(self)@ == spec_ft_on_transfer(
                old(self)@,
                sender_id@,
                amount,
                msg@,
                token_in@,
                now,
            ).0,
            r == spec_ft_on_transfer(old(self)@, sender_id@, amount, msg@, token_in@, now).1,
    {
        match parse_directive(msg.as_str()) {
            Directive::Refused => Ok(amount),
            Directive::Stake(fid) => {
                match self.stake_tokens(fid, token_in, amount, &sender_id, now) {
                    Ok(()) => Ok(0),
                    Err(e) => Err(e),
                }
            },
            Directive::AddReward(fid) => {
                match self.add_reward(fid, &token_in, amount, &sender_id) {
                    Ok(()) => Ok(0),
                    Err(e) => Err(e),
                }
            },
        }
    }

    /// Settles and pays out all pending rewards for `user` in `farm_id`.
    /// The returned requests are what the host must transfer, one per
    /// reward asset with a positive accrual.
    pub fn claim_rewards(&mut self, farm_id: u64, user: String, now: u64) -> (r: Result<
        Vec<TransferRequest>,
        FarmError,
    >)
        requires
            old(self).wf(),
        ensures
            final(self).wf(),
            final(self)@ == spec_claim_rewards(old(self)@, farm_id, user@, now).0,
            ({
                let res = spec_claim_rewards(old(self)@, farm_id, user@, now).1;
                match (r, res) {
                    (Ok(v), Ok(s)) => v.deep_view() == s,
                    (Err(e1), Err(e2)) => e1 == e2,
                    _ => false,
                }
            }),
    {
        let ghost m0 = self@;
        if farm_id >= self.farms.len() as u64 {
            return Err(FarmError::FarmNotFound);
        }
        let idx = farm_id as usize;
        let j = self.find_stake(&user, farm_id);
        proof {
            lemma_find_stake_bounds(m0.stakes, user@, farm_id);
        }
        if j >= self.stakes.len() {
            return Err(FarmError::StakeNotFound);
        }

        let farm_ref = vstd::std_specs::vec::vec_index_mut(&mut self.farms, idx);
        update_farm(farm_ref, now);
        let ghost farm1 = spec_update_farm(m0.farms[farm_id as int], now);
        proof {
            assert(self@.farms =~= m0.farms.update(farm_id as int, farm1));
        }

        let mut entry = self.stakes.remove(j);
        proof {
            assert(self.farms.deep_view()[farm_id as int] == farm1);
            assert(m0.stakes[j as int].info.wf_for(m0.farms[farm_id as int]));
        }
        settle(&self.farms[idx], &mut entry.info);
        let ghost settled = spec_settle(farm1, m0.stakes[j as int].info);
        proof {
            assert(entry@.info == settled);
        }

        let n_slots = self.farms[idx].reward_tokens.len();
        let mut requests: Vec<TransferRequest> = Vec::new();
        let mut i: usize = 0;
        while i < n_slots
            invariant
                i <= n_slots,
                farm_id < m0.farms.len(),
                farm_id < self.farms@.len(),
                idx == farm_id as int,
                self.farms.deep_view() == m0.farms.update(farm_id as int, farm1),
                self@.stakes == m0.stakes.remove(j as int),
                self@.storage_deposits == m0.storage_deposits,
                self@.farm_count == m0.farm_count,
                self@.admin == m0.admin,
                n_slots == farm1.reward_tokens.len(),
                settled.accrued_rewards.len() == n_slots,
                entry.info.accrued_rewards@.len() == n_slots,
                entry.info.reward_debt@ == settled.reward_debt,
                entry.info.amount == settled.amount,
                entry.info.lockup_end == settled.lockup_end,
                entry.account@ == m0.stakes[j as int].account,
                entry.farm_id == farm_id,
                forall|k: int| 0 <= k < i ==> entry.info.accrued_rewards@[k] == 0u128,
                forall|k: int|
                    i <= k < n_slots ==> entry.info.accrued_rewards@[k]
                        == settled.accrued_rewards[k],
                requests.deep_view() == spec_claim_requests(
                    farm1.reward_tokens.take(i as int),
                    settled.accrued_rewards.take(i as int),
                    user@,
                ),
            decreases n_slots - i,
        {
            proof {
                assert(farm1.reward_tokens.take(i + 1).drop_last() =~= farm1.reward_tokens.take(
                    i as int,
                ));
                assert(settled.accrued_rewards.take(i + 1).drop_last()
                    =~= settled.accrued_rewards.take(i as int));
                assert(settled.accrued_rewards.take(i + 1).last()
                    == settled.accrued_rewards[i as int]);
            }
            proof {
                assert(self.farms.deep_view()[idx as int] == self.farms@[idx as int].deep_view());
                assert(m0.farms.update(farm_id as int, farm1)[farm_id as int] == farm1);
                assert(self.farms@[idx as int]@ == farm1);
                assert(self.farms@[idx as int].reward_tokens.deep_view()[i as int]
                    == self.farms@[idx as int].reward_tokens@[i as int]@);
            }
            let amt = entry.info.accrued_rewards[i];
            if amt > 0 {
                entry.info.accrued_rewards.set(i, 0);
                let token = self.farms[idx].reward_tokens[i].clone();
                let ghost old_requests = requests.deep_view();
                requests.push(TransferRequest { token, receiver: user.clone(), amount: amt });
                proof {
                    assert(requests.deep_view() =~= old_requests.push(
                        TransferRequestModel {
                            token: farm1.reward_tokens[i as int],
                            receiver: user@,
                            amount: amt,
                        },
                    ));
                }
            }
            i += 1;
        }

        proof {
            let cleared = StakeModel {
                accrued_rewards: Seq::new(settled.accrued_rewards.len(), |k: int| 0u128),
                ..settled
            };
            assert(entry@.info.accrued_rewards =~= cleared.accrued_rewards);
            assert(entry@.info =~~= cleared);
        }
        let ghost entry_v = entry@;
        self.stakes.insert(j, entry);

        proof {
            let (m2, res) = spec_claim_rewards(m0, farm_id, user@, now);
            assert(self@.stakes =~= m0.stakes.remove(j as int).insert(j as int, entry_v));
            assert(self@.stakes =~= m0.stakes.update(j as int, entry_v));
            assert(self@ =~~= m2);

            assert(farm1.reward_tokens.take(n_slots as int) =~= farm1.reward_tokens);
            assert(settled.accrued_rewards.take(n_slots as int) =~= settled.accrued_rewards);

            assert forall|jj: int| 0 <= jj < m2.stakes.len() implies {
                let e = #[trigger] m2.stakes[jj];
                &&& e.farm_id < m2.farms.len()
                &&& e.info.wf_for(m2.farms[e.farm_id as int])
                &&& e.info.amount > 0
            } by {
                let e = m2.stakes[jj];
                if jj != j {
                    assert(e == m0.stakes[jj]);
                    assert(m0.stakes[jj].info.wf_for(m0.farms[m0.stakes[jj].farm_id as int]));
                    if e.farm_id == farm_id {
                        assert(m2.farms[e.farm_id as int] == farm1);
                    } else {
                        assert(m2.farms[e.farm_id as int] == m0.farms[e.farm_id as int]);
                    }
                } else {
                    assert(e == entry_v);
                }
            }
            assert(m2.wf());
        }
        Ok(requests)
    }

    /// Withdraws `amount` of staked principal for `user` from `farm_id`.
    /// The returned request transfers the principal back to the account in
    /// the farm's staking asset.
    pub fn withdraw(&mut self, farm_id: u64, amount: u128, user: String, now: u64) -> (r: Result<
        TransferRequest,
        FarmError,
    >)
        requires
            old(self).wf(),
        ensures
            final(self).wf(),
            final(self)@ == spec_withdraw(old(self)@, farm_id, amount, user@, now).0,
            ({
                let res = spec_withdraw(old(self)@, farm_id, amount, user@, now).1;
                match (r, res) {
                    (Ok(t), Ok(s)) => t@ == s,
                    (Err(e1), Err(e2)) => e1 == e2,
                    _ => false,
                }
            }),
    {
        let ghost m0 = self@;
        if farm_id >= self.farms.len() as u64 {
            return Err(FarmError::FarmNotFound);
        }
        let idx = farm_id as usize;
        let j = self.find_stake(&user, farm_id);
        proof {
            lemma_find_stake_bounds(m0.stakes, user@, farm_id);
        }
        if j >= self.stakes.len() {
            return Err(FarmError::StakeNotFound);
        }
        if now < self.stakes[j].info.lockup_end {
            return Err(FarmError::LockupNotExpired);
        }
        if amount > self.stakes[j].info.amount {
            return Err(FarmError::InsufficientStakedBalance);
        }

        let farm_ref = vstd::std_specs::vec::vec_index_mut(&mut self.farms, idx);
        update_farm(farm_ref, now);
        let ghost farm1 = spec_update_farm(m0.farms[farm_id as int], now);
        proof {
            assert(self@.farms =~= m0.farms.update(farm_id as int, farm1));
        }

        let mut entry = self.stakes.remove(j);
        proof {
            assert(self.farms.deep_view()[farm_id as int] == farm1);
            assert(m0.stakes[j as int].info.wf_for(m0.farms[farm_id as int]));
        }
        settle(&self.farms[idx], &mut entry.info);
        let ghost settled = spec_settle(farm1, m0.stakes[j as int].info);
        proof {
            assert(entry@.info == settled);
        }

        entry.info.amount = entry.info.amount - amount;

        let farm_ref2 = vstd::std_specs::vec::vec_index_mut(&mut self.farms, idx);
        let new_total = saturating_sub_u128(farm_ref2.total_staked, amount);
        farm_ref2.total_staked = new_total;

        let ghost entry_v = entry@;
        let keep = entry.info.amount > 0;
        if keep {
            self.stakes.insert(j, entry);
        }

        let token = self.farms[idx].staking_token.clone();

        proof {
            let (m2, res) = spec_withdraw(m0, farm_id, amount, user@, now);
            let farm2 = FarmModel { total_staked: sat_sub_u128(farm1.total_staked, amount), ..farm1 };
            assert(self@.farms =~= m0.farms.update(farm_id as int, farm2));
            if keep {
                assert(self@.stakes =~= m0.stakes.remove(j as int).insert(j as int, entry_v));
                assert(self@.stakes =~= m0.stakes.update(j as int, entry_v));
                assert(entry_v =~~= StakeEntryModel {
                    account: user@,
                    farm_id: farm_id,
                    info: StakeModel { amount: (settled.amount - amount) as u128, ..settled },
                });
            } else {
                assert(self@.stakes =~= m0.stakes.remove(j as int));
            }
            assert(self@ =~~= m2);

            assert forall|jj: int| 0 <= jj < m2.stakes.len() implies {
                let e = #[trigger] m2.stakes[jj];
                &&& e.farm_id < m2.farms.len()
                &&& e.info.wf_for(m2.farms[e.farm_id as int])
                &&& e.info.amount > 0
            } by {
                let e = m2.stakes[jj];
                if keep && jj == j {
                    assert(e == entry_v);
                } else {
                    let jo = if !keep && jj >= j {
                        jj + 1
                    } else {
                        jj
                    };
                    assert(e == m0.stakes[jo]);
                    assert(m0.stakes[jo].info.wf_for(m0.farms[m0.stakes[jo].farm_id as int]));
                    if e.farm_id == farm_id {
                        assert(m2.farms[e.farm_id as int] == farm2);
                    } else {
                        assert(m2.farms[e.farm_id as int] == m0.farms[e.farm_id as int]);
                    }
                }
            }
            assert(m2.wf());
        }
        Ok(TransferRequest { token, receiver: user, amount })
    }
}

/// A vector of `n` zeroed reward slots.
fn zeros_vec(n: usize) -> (r: Vec<u128>)
    ensures
        r@ == Seq::new(n as nat, |i: int| 0u128),
{
    let mut v: Vec<u128> = Vec::new();
    let mut k: usize = 0;
    while k < n
        invariant
            k <= n,
            v@.len() == k,
            forall|i: int| 0 <= i < k ==> v@[i] == 0u128,
        decreases n - k,
    {
        v.push(0);
        k += 1;
    }
    proof {
        assert(v@ =~= Seq::new(n as nat, |i: int| 0u128));
    }
    v
}

} // verus!
