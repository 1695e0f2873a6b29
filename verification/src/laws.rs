//! Global properties of the engine, proved once over the transition
//! specifications that the operations' contracts are stated with:
//!
//! - every farm's `total_staked` equals the sum of its stake records, and
//!   each operation preserves that;
//! - `reward_per_share` never decreases under any operation;
//! - settling a stake twice against the same accumulator accrues nothing
//!   the second time;
//! - a farm before its start time does not accrue at all;
//! - a farm with no stakers never grows its accumulator, though its
//!   checkpoint still advances.

use vstd::prelude::*;

use crate::arith::{sat_add_u128, sat_mul_u128, sat_sub_u128};
use crate::contract::{
    spec_claim_rewards, spec_create_farm, spec_find_stake, spec_ft_on_transfer, spec_stake_tokens,
    spec_update_farm_op, spec_withdraw, lemma_find_stake_bounds, ContractModel, StakeEntryModel,
};
use crate::farm::{spec_settle, spec_update_farm, FarmInputModel, FarmModel, StakeModel};
use crate::msg::{spec_directive, Directive};

verus! {

/// Total of all staked amounts recorded for farm `farm_id`.
pub open spec fn sum_staked(stakes: Seq<StakeEntryModel>, farm_id: u64) -> int
    decreases stakes.len(),
{
    if stakes.len() == 0 {
        0
    } else {
        sum_staked(stakes.drop_last(), farm_id) + if stakes.last().farm_id == farm_id {
            stakes.last().info.amount as int
        } else {
            0
        }
    }
}

/// Each farm's `total_staked` is exactly the sum of the amounts of its
/// stake records.
pub open spec fn staking_consistent(m: ContractModel) -> bool {
    forall|f: u64| f < m.farms.len() ==> sum_staked(m.stakes, f) == m.farms[f as int].total_staked
}

proof fn lemma_sum_nonneg(stakes: Seq<StakeEntryModel>, farm_id: u64)
    ensures
        sum_staked(stakes, farm_id) >= 0,
    decreases stakes.len(),
{
    if stakes.len() > 0 {
        lemma_sum_nonneg(stakes.drop_last(), farm_id);
    }
}

proof fn lemma_sum_no_entries(stakes: Seq<StakeEntryModel>, farm_id: u64)
    requires
        forall|k: int| 0 <= k < stakes.len() ==> (#[trigger] stakes[k]).farm_id != farm_id,
    ensures
        sum_staked(stakes, farm_id) == 0,
    decreases stakes.len(),
{
    if stakes.len() > 0 {
        assert(forall|k: int|
            0 <= k < stakes.drop_last().len() ==> (#[trigger] stakes.drop_last()[k]).farm_id
                != farm_id);
        lemma_sum_no_entries(stakes.drop_last(), farm_id);
        assert(stakes.last().farm_id != farm_id);
    }
}

proof fn lemma_sum_push(stakes: Seq<StakeEntryModel>, e: StakeEntryModel, farm_id: u64)
    ensures
        sum_staked(stakes.push(e), farm_id) == sum_staked(stakes, farm_id) + if e.farm_id
            == farm_id {
            e.info.amount as int
        } else {
            0
        },
{
    assert(stakes.push(e).drop_last() =~= stakes);
    assert(stakes.push(e).last() == e);
}

proof fn lemma_sum_update(stakes: Seq<StakeEntryModel>, j: int, e: StakeEntryModel, farm_id: u64)
    requires
        0 <= j < stakes.len(),
    ensures
        sum_staked(stakes.update(j, e), farm_id) == sum_staked(stakes, farm_id) - (
        if stakes[j].farm_id == farm_id {
            stakes[j].info.amount as int
        } else {
            0
        }) + (
        if e.farm_id == farm_id {
            e.info.amount as int
        } else {
            0
        }),
    decreases stakes.len(),
{
    if j == stakes.len() - 1 {
        assert(stakes.update(j, e).drop_last() =~= stakes.drop_last());
        assert(stakes.update(j, e).last() == e);
        assert(stakes.last() == stakes[j]);
    } else {
        assert(stakes.update(j, e).drop_last() =~= stakes.drop_last().update(j, e));
        assert(stakes.update(j, e).last() == stakes.last());
        assert(stakes.drop_last()[j] == stakes[j]);
        lemma_sum_update(stakes.drop_last(), j, e, farm_id);
    }
}

proof fn lemma_sum_remove(stakes: Seq<StakeEntryModel>, j: int, farm_id: u64)
    requires
        0 <= j < stakes.len(),
    ensures
        sum_staked(stakes.remove(j), farm_id) == sum_staked(stakes, farm_id) - (
        if stakes[j].farm_id == farm_id {
            stakes[j].info.amount as int
        } else {
            0
        }),
    decreases stakes.len(),
{
    if j == stakes.len() - 1 {
        assert(stakes.remove(j) =~= stakes.drop_last());
        assert(stakes.last() == stakes[j]);
    } else {
        assert(stakes.remove(j).drop_last() =~= stakes.drop_last().remove(j));
        assert(stakes.remove(j).last() == stakes.last());
        assert(stakes.drop_last()[j] == stakes[j]);
        lemma_sum_remove(stakes.drop_last(), j, farm_id);
    }
}

/// One record's amount never exceeds the farm's sum.
proof fn lemma_sum_entry_le(stakes: Seq<StakeEntryModel>, j: int, farm_id: u64)
    requires
        0 <= j < stakes.len(),
        stakes[j].farm_id == farm_id,
    ensures
        stakes[j].info.amount as int <= sum_staked(stakes, farm_id),
    decreases stakes.len(),
{
    if j == stakes.len() - 1 {
        lemma_sum_nonneg(stakes.drop_last(), farm_id);
        assert(stakes.last() == stakes[j]);
    } else {
        assert(stakes.drop_last()[j] == stakes[j]);
        lemma_sum_entry_le(stakes.drop_last(), j, farm_id);
    }
}

/// Bringing a farm's accumulator up to date never changes `total_staked`,
/// the reward assets, or the number of reward slots.
pub proof fn lemma_update_farm_frame(m: FarmModel, now: u64)
    ensures
        spec_update_farm(m, now).total_staked == m.total_staked,
        spec_update_farm(m, now).reward_tokens == m.reward_tokens,
        spec_update_farm(m, now).reward_per_session == m.reward_per_session,
        spec_update_farm(m, now).reward_per_share.len() == m.reward_per_share.len(),
        spec_update_farm(m, now).staking_token == m.staking_token,
        spec_update_farm(m, now).lockup_period == m.lockup_period,
        spec_update_farm(m, now).session_interval == m.session_interval,
        spec_update_farm(m, now).start_time == m.start_time,
{
}

/// Settling never changes a stake's amount or lockup.
pub proof fn lemma_settle_frame(m: FarmModel, s: StakeModel)
    ensures
        spec_settle(m, s).amount == s.amount,
        spec_settle(m, s).lockup_end == s.lockup_end,
{
}

/// Creating a farm preserves stake/total consistency: the new farm starts
/// with no stake records and a zero total.
pub proof fn lemma_create_farm_preserves_consistency(
    m: ContractModel,
    input: FarmInputModel,
    creator: Seq<char>,
    now: u64,
)
    requires
        m.wf(),
        staking_consistent(m),
    ensures
        staking_consistent(spec_create_farm(m, input, creator, now).0),
{
    let m2 = spec_create_farm(m, input, creator, now).0;
    if m2 != m {
        assert forall|f: u64| f < m2.farms.len() implies sum_staked(m2.stakes, f) == m2.farms[
            f as int
        ].total_staked by {
            if f < m.farms.len() {
                assert(m2.farms[f as int] == m.farms[f as int]);
            } else {
                assert(forall|k: int|
                    0 <= k < m.stakes.len() ==> (#[trigger] m.stakes[k]).farm_id != f);
                lemma_sum_no_entries(m.stakes, f);
                assert(m2.farms[f as int].total_staked == 0);
            }
        }
    }
}

/// Bringing a farm up to date preserves stake/total consistency: neither
/// the stake records nor any farm's `total_staked` change.
pub proof fn lemma_update_farm_preserves_consistency(m: ContractModel, farm_id: u64, now: u64)
    requires
        m.wf(),
        staking_consistent(m),
    ensures
        staking_consistent(spec_update_farm_op(m, farm_id, now).0),
{
    let m2 = spec_update_farm_op(m, farm_id, now).0;
    if farm_id < m.farms.len() {
        assert forall|f: u64| f < m2.farms.len() implies sum_staked(m2.stakes, f) == m2.farms[
            f as int
        ].total_staked by {
            if f == farm_id {
                lemma_update_farm_frame(m.farms[farm_id as int], now);
            } else {
                assert(m2.farms[f as int] == m.farms[f as int]);
            }
        }
    }
}

/// Staking preserves stake/total consistency, as long as the farm's total
/// does not hit the numeric ceiling (at the ceiling the record and the
/// total would saturate by different margins).
pub proof fn lemma_stake_preserves_consistency(
    m: ContractModel,
    farm_id: u64,
    token_in: Seq<char>,
    amount: u128,
    sender: Seq<char>,
    now: u64,
)
    requires
        m.wf(),
        staking_consistent(m),
        farm_id < m.farms.len() ==> m.farms[farm_id as int].total_staked + amount <= u128::MAX,
    ensures
        staking_consistent(spec_stake_tokens(m, farm_id, token_in, amount, sender, now).0),
{
    let m2 = spec_stake_tokens(m, farm_id, token_in, amount, sender, now).0;
    if m2 != m && farm_id < m.farms.len() {
        let farm0 = m.farms[farm_id as int];
        let farm1 = spec_update_farm(farm0, now);
        lemma_update_farm_frame(farm0, now);
        let j = spec_find_stake(m.stakes, sender, farm_id);
        lemma_find_stake_bounds(m.stakes, sender, farm_id);
        let is_new = j >= m.stakes.len();
        let total = farm0.total_staked;

        assert forall|f: u64| f < m2.farms.len() implies sum_staked(m2.stakes, f) == m2.farms[
            f as int
        ].total_staked by {
            let base = if is_new {
                StakeModel {
                    amount: 0,
                    lockup_end: crate::arith::sat_add_u64(now, farm0.lockup_period),
                    reward_debt: Seq::new(farm0.reward_tokens.len(), |i: int| 0u128),
                    accrued_rewards: Seq::new(farm0.reward_tokens.len(), |i: int| 0u128),
                }
            } else {
                m.stakes[j].info
            };
            let settled = spec_settle(farm1, base);
            lemma_settle_frame(farm1, base);
            let new_amount = sat_add_u128(settled.amount, amount);
            let entry = m2.stakes[if is_new {
                m.stakes.len() as int
            } else {
                j
            }];
            if is_new {
                lemma_sum_push(m.stakes, entry, f);
            } else {
                lemma_sum_update(m.stakes, j, entry, f);
            }
            if f == farm_id {
                if is_new {
                    assert(settled.amount == 0);
                    assert(new_amount == amount);
                    assert(sum_staked(m2.stakes, f) == sum_staked(m.stakes, f) + amount);
                } else {
                    assert(settled.amount == m.stakes[j].info.amount);
                    lemma_sum_entry_le(m.stakes, j, farm_id);
                    assert(m.stakes[j].info.amount + amount <= total + amount);
                    assert(new_amount == settled.amount + amount);
                    assert(sum_staked(m2.stakes, f) == sum_staked(m.stakes, f) + amount);
                }
                assert(m2.farms[f as int].total_staked == total + amount);
            } else {
                assert(m2.farms[f as int] == m.farms[f as int]);
                assert(sum_staked(m2.stakes, f) == sum_staked(m.stakes, f));
            }
        }
    }
}

/// Claiming preserves stake/total consistency: amounts and totals are
/// untouched, only accrued rewards move.
pub proof fn lemma_claim_preserves_consistency(
    m: ContractModel,
    farm_id: u64,
    user: Seq<char>,
    now: u64,
)
    requires
        m.wf(),
        staking_consistent(m),
    ensures
        staking_consistent(spec_claim_rewards(m, farm_id, user, now).0),
{
    let m2 = spec_claim_rewards(m, farm_id, user, now).0;
    if m2 != m && farm_id < m.farms.len() {
        let j = spec_find_stake(m.stakes, user, farm_id);
        lemma_find_stake_bounds(m.stakes, user, farm_id);
        if j < m.stakes.len() {
            let farm0 = m.farms[farm_id as int];
            let farm1 = spec_update_farm(farm0, now);
            lemma_update_farm_frame(farm0, now);
            let settled = spec_settle(farm1, m.stakes[j].info);
            lemma_settle_frame(farm1, m.stakes[j].info);
            assert forall|f: u64| f < m2.farms.len() implies sum_staked(m2.stakes, f) == m2.farms[
                f as int
            ].total_staked by {
                lemma_sum_update(m.stakes, j, m2.stakes[j], f);
                if f != farm_id {
                    assert(m2.farms[f as int] == m.farms[f as int]);
                }
            }
        }
    }
}

/// Withdrawing preserves stake/total consistency unconditionally: the
/// amount leaves both the record (or deletes it) and the farm's total.
pub proof fn lemma_withdraw_preserves_consistency(
    m: ContractModel,
    farm_id: u64,
    amount: u128,
    user: Seq<char>,
    now: u64,
)
    requires
        m.wf(),
        staking_consistent(m),
    ensures
        staking_consistent(spec_withdraw(m, farm_id, amount, user, now).0),
{
    let m2 = spec_withdraw(m, farm_id, amount, user, now).0;
    if m2 != m && farm_id < m.farms.len() {
        let j = spec_find_stake(m.stakes, user, farm_id);
        lemma_find_stake_bounds(m.stakes, user, farm_id);
        if j < m.stakes.len() && now >= m.stakes[j].info.lockup_end && amount <= m.stakes[
            j
        ].info.amount {
            let farm0 = m.farms[farm_id as int];
            let farm1 = spec_update_farm(farm0, now);
            lemma_update_farm_frame(farm0, now);
            let settled = spec_settle(farm1, m.stakes[j].info);
            lemma_settle_frame(farm1, m.stakes[j].info);
            let new_amount = (settled.amount - amount) as u128;
            lemma_sum_entry_le(m.stakes, j, farm_id);
            assert(amount <= farm0.total_staked);

            assert forall|f: u64| f < m2.farms.len() implies sum_staked(m2.stakes, f) == m2.farms[
                f as int
            ].total_staked by {
                if new_amount == 0 {
                    lemma_sum_remove(m.stakes, j, f);
                } else {
                    lemma_sum_update(m.stakes, j, m2.stakes[j], f);
                }
                if f == farm_id {
                    assert(m2.farms[f as int].total_staked == farm0.total_staked - amount);
                } else {
                    assert(m2.farms[f as int] == m.farms[f as int]);
                }
            }
        }
    }
}

/// An inbound transfer notification preserves stake/total consistency: a
/// refused or reward-top-up transfer changes nothing, and a staking
/// transfer is covered under the same no-saturation condition as staking
/// itself.
pub proof fn lemma_transfer_preserves_consistency(
    m: ContractModel,
    sender: Seq<char>,
    amount: u128,
    msg: Seq<char>,
    token_in: Seq<char>,
    now: u64,
)
    requires
        m.wf(),
        staking_consistent(m),
        (match spec_directive(msg) {
            Directive::Stake(fid) => fid < m.farms.len() ==> m.farms[fid as int].total_staked
                + amount <= u128::MAX,
            _ => true,
        }),
    ensures
        staking_consistent(spec_ft_on_transfer(m, sender, amount, msg, token_in, now).0),
{
    match spec_directive(msg) {
        Directive::Refused => {},
        Directive::Stake(fid) => {
            lemma_stake_preserves_consistency(m, fid, token_in, amount, sender, now);
        },
        Directive::AddReward(_) => {},
    }
}

/// Creating a farm never touches any existing farm's accumulator, and the
/// new farm's accumulator starts at zero in every slot.
pub proof fn lemma_create_farm_monotonic(
    m: ContractModel,
    input: FarmInputModel,
    creator: Seq<char>,
    now: u64,
)
    ensures
        ({
            let m2 = spec_create_farm(m, input, creator, now).0;
            &&& m2.farms.len() >= m.farms.len()
            &&& forall|f: int| 0 <= f < m.farms.len() ==> m2.farms[f] == m.farms[f]
            &&& forall|f: int, i: int|
                m.farms.len() <= f < m2.farms.len() && 0 <= i < m2.farms[f].reward_per_share.len()
                    ==> #[trigger] m2.farms[f].reward_per_share[i] == 0
        }),
{
}

/// The reward-per-share accumulator never decreases in any slot when a
/// farm is brought up to date.
pub proof fn lemma_reward_per_share_monotonic(m: FarmModel, now: u64)
    ensures
        spec_update_farm(m, now).reward_per_share.len() == m.reward_per_share.len(),
        forall|i: int|
            0 <= i < m.reward_per_share.len() ==> spec_update_farm(m, now).reward_per_share[i]
                >= m.reward_per_share[i],
{
}

/// No operation ever decreases any farm's reward-per-share accumulator in
/// any slot: staking.
pub proof fn lemma_stake_monotonic(
    m: ContractModel,
    farm_id: u64,
    token_in: Seq<char>,
    amount: u128,
    sender: Seq<char>,
    now: u64,
)
    ensures
        ({
            let m2 = spec_stake_tokens(m, farm_id, token_in, amount, sender, now).0;
            &&& m2.farms.len() >= m.farms.len()
            &&& forall|f: int, i: int|
                0 <= f < m.farms.len() && 0 <= i < m.farms[f].reward_per_share.len() ==> {
                    &&& m2.farms[f].reward_per_share.len() == m.farms[f].reward_per_share.len()
                    &&& m2.farms[f].reward_per_share[i] >= m.farms[f].reward_per_share[i]
                }
        }),
{
    let m2 = spec_stake_tokens(m, farm_id, token_in, amount, sender, now).0;
    if m2 != m && farm_id < m.farms.len() {
        lemma_reward_per_share_monotonic(m.farms[farm_id as int], now);
    }
}

/// No operation ever decreases any farm's reward-per-share accumulator in
/// any slot: claiming.
pub proof fn lemma_claim_monotonic(m: ContractModel, farm_id: u64, user: Seq<char>, now: u64)
    ensures
        ({
            let m2 = spec_claim_rewards(m, farm_id, user, now).0;
            &&& m2.farms.len() >= m.farms.len()
            &&& forall|f: int, i: int|
                0 <= f < m.farms.len() && 0 <= i < m.farms[f].reward_per_share.len() ==> {
                    &&& m2.farms[f].reward_per_share.len() == m.farms[f].reward_per_share.len()
                    &&& m2.farms[f].reward_per_share[i] >= m.farms[f].reward_per_share[i]
                }
        }),
{
    let m2 = spec_claim_rewards(m, farm_id, user, now).0;
    if m2 != m && farm_id < m.farms.len() {
        lemma_reward_per_share_monotonic(m.farms[farm_id as int], now);
    }
}

/// No operation ever decreases any farm's reward-per-share accumulator in
/// any slot: withdrawing.
pub proof fn lemma_withdraw_monotonic(
    m: ContractModel,
    farm_id: u64,
    amount: u128,
    user: Seq<char>,
    now: u64,
)
    ensures
        ({
            let m2 = spec_withdraw(m, farm_id, amount, user, now).0;
            &&& m2.farms.len() >= m.farms.len()
            &&& forall|f: int, i: int|
                0 <= f < m.farms.len() && 0 <= i < m.farms[f].reward_per_share.len() ==> {
                    &&& m2.farms[f].reward_per_share.len() == m.farms[f].reward_per_share.len()
                    &&& m2.farms[f].reward_per_share[i] >= m.farms[f].reward_per_share[i]
                }
        }),
{
    let m2 = spec_withdraw(m, farm_id, amount, user, now).0;
    if m2 != m && farm_id < m.farms.len() {
        lemma_reward_per_share_monotonic(m.farms[farm_id as int], now);
    }
}

/// No operation ever decreases any farm's reward-per-share accumulator in
/// any slot: the explicit accumulator update.
pub proof fn lemma_update_op_monotonic(m: ContractModel, farm_id: u64, now: u64)
    ensures
        ({
            let m2 = spec_update_farm_op(m, farm_id, now).0;
            &&& m2.farms.len() >= m.farms.len()
            &&& forall|f: int, i: int|
                0 <= f < m.farms.len() && 0 <= i < m.farms[f].reward_per_share.len() ==> {
                    &&& m2.farms[f].reward_per_share.len() == m.farms[f].reward_per_share.len()
                    &&& m2.farms[f].reward_per_share[i] >= m.farms[f].reward_per_share[i]
                }
        }),
{
    let m2 = spec_update_farm_op(m, farm_id, now).0;
    if farm_id < m.farms.len() {
        lemma_reward_per_share_monotonic(m.farms[farm_id as int], now);
    }
}

/// Settlement is idempotent: settling a stake a second time against the
/// same accumulator accrues nothing further and changes nothing at all.
pub proof fn lemma_settle_idempotent(m: FarmModel, s: StakeModel)
    requires
        m.wf(),
        s.wf_for(m),
    ensures
        spec_settle(m, spec_settle(m, s)) == spec_settle(m, s),
{
    let s1 = spec_settle(m, s);
    let s2 = spec_settle(m, s1);
    assert forall|i: int| 0 <= i < s1.accrued_rewards.len() implies s2.accrued_rewards[i]
        == s1.accrued_rewards[i] by {
        assert(sat_sub_u128(m.reward_per_share[i], s1.reward_debt[i]) == 0);
        assert(sat_mul_u128(s1.amount, 0) == 0);
        assert(sat_add_u128(s1.accrued_rewards[i], 0) == s1.accrued_rewards[i]);
    }
    assert(s2.accrued_rewards =~= s1.accrued_rewards);
    assert(s2 =~~= s1);
}

/// A farm whose start time lies in the future accrues nothing: no session
/// elapses and neither the accumulator nor the checkpoint moves.
pub proof fn lemma_before_start_no_accrual(m: FarmModel, now: u64)
    requires
        now < m.start_time,
    ensures
        spec_update_farm(m, now) == m,
{
}

/// A farm with no stakers never grows its accumulator, however many
/// sessions elapse — but its checkpoint still advances to the current
/// time, forfeiting the idle interval for good.
pub proof fn lemma_no_stakers_freezes_accumulator(m: FarmModel, now: u64)
    requires
        m.total_staked == 0,
        now >= m.start_time,
    ensures
        spec_update_farm(m, now).reward_per_share == m.reward_per_share,
        spec_update_farm(m, now).last_distribution == now,
{
}

} // verus!
