//! Farm and stake records, their mathematical models, and the accrual
//! state transitions: the session clock, the reward-per-share accumulator
//! update, and per-stake settlement.

use vstd::prelude::*;

use crate::arith::{
    sat_add_u128, sat_add_u64, sat_mul_u128, sat_mul_u64, sat_sub_u128, sat_sub_u64,
    saturating_add_u64, saturating_mul_u128, saturating_mul_u64, saturating_sub_u64,
};

verus! {

/// Parameters requested by a caller when creating a farm. Durations are in
/// seconds (the coarse external unit); the engine stores nanoseconds.
pub struct FarmInput {
    pub staking_token: String,
    pub reward_tokens: Vec<String>,
    pub lockup_period_sec: u64,
    pub reward_per_session: Vec<u128>,
    pub session_interval_sec: u64,
    pub start_at_sec: u64,
}

/// One staking pool: a single staking asset paired with one or more reward
/// assets on a fixed emission schedule. Times are nanoseconds.
pub struct FarmParams {
    pub staking_token: String,
    pub reward_tokens: Vec<String>,
    pub reward_per_session: Vec<u128>,
    pub session_interval: u64,
    pub start_time: u64,
    pub last_distribution: u64,
    pub total_staked: u128,
    pub reward_per_share: Vec<u128>,
    pub lockup_period: u64,
}

/// One stake record for an (account, farm) pair.
pub struct StakeInfo {
    pub amount: u128,
    pub lockup_end: u64,
    pub reward_debt: Vec<u128>,
    pub accrued_rewards: Vec<u128>,
}

/// Mathematical model of a farm-creation request.
#[verifier::ext_equal]
pub ghost struct FarmInputModel {
    pub staking_token: Seq<char>,
    pub reward_tokens: Seq<Seq<char>>,
    pub lockup_period_sec: u64,
    pub reward_per_session: Seq<u128>,
    pub session_interval_sec: u64,
    pub start_at_sec: u64,
}

/// Mathematical model of a farm.
#[verifier::ext_equal]
pub ghost struct FarmModel {
    pub staking_token: Seq<char>,
    pub reward_tokens: Seq<Seq<char>>,
    pub reward_per_session: Seq<u128>,
    pub session_interval: u64,
    pub start_time: u64,
    pub last_distribution: u64,
    pub total_staked: u128,
    pub reward_per_share: Seq<u128>,
    pub lockup_period: u64,
}

/// Mathematical model of a stake record.
#[verifier::ext_equal]
pub ghost struct StakeModel {
    pub amount: u128,
    pub lockup_end: u64,
    pub reward_debt: Seq<u128>,
    pub accrued_rewards: Seq<u128>,
}

impl View for FarmInput {
    type V = FarmInputModel;

    open spec fn view(&self) -> FarmInputModel {
        FarmInputModel {
            staking_token: self.staking_token@,
            reward_tokens: self.reward_tokens.deep_view(),
            lockup_period_sec: self.lockup_period_sec,
            reward_per_session: self.reward_per_session@,
            session_interval_sec: self.session_interval_sec,
            start_at_sec: self.start_at_sec,
        }
    }
}

impl View for FarmParams {
    type V = FarmModel;

    open spec fn view(&self) -> FarmModel {
        FarmModel {
            staking_token: self.staking_token@,
            reward_tokens: self.reward_tokens.deep_view(),
            reward_per_session: self.reward_per_session@,
            session_interval: self.session_interval,
            start_time: self.start_time,
            last_distribution: self.last_distribution,
            total_staked: self.total_staked,
            reward_per_share: self.reward_per_share@,
            lockup_period: self.lockup_period,
        }
    }
}

impl DeepView for FarmParams {
    type V = FarmModel;

    open spec fn deep_view(&self) -> FarmModel {
        self.view()
    }
}

impl View for StakeInfo {
    type V = StakeModel;

    open spec fn view(&self) -> StakeModel {
        StakeModel {
            amount: self.amount,
            lockup_end: self.lockup_end,
            reward_debt: self.reward_debt@,
            accrued_rewards: self.accrued_rewards@,
        }
    }
}

impl DeepView for StakeInfo {
    type V = StakeModel;

    open spec fn deep_view(&self) -> StakeModel {
        self.view()
    }
}

impl FarmModel {
    /// Structural validity: the reward slots of every per-slot list line up,
    /// there is at least one reward asset, and the session interval is
    /// positive (it is a divisor).
    pub open spec fn wf(self) -> bool {
        &&& self.reward_tokens.len() == self.reward_per_session.len()
        &&& self.reward_tokens.len() == self.reward_per_share.len()
        &&& self.reward_tokens.len() > 0
        &&& self.session_interval > 0
    }

    pub open spec fn n_rewards(self) -> int {
        self.reward_tokens.len() as int
    }
}

impl FarmParams {
    pub open spec fn wf(self) -> bool {
        self@.wf()
    }
}

impl StakeModel {
    /// The stake's per-slot lists line up with the farm's reward slots.
    pub open spec fn wf_for(self, m: FarmModel) -> bool {
        &&& self.reward_debt.len() == m.n_rewards()
        &&& self.accrued_rewards.len() == m.n_rewards()
    }
}

impl StakeInfo {
    pub open spec fn wf_for(self, m: FarmModel) -> bool {
        self@.wf_for(m)
    }
}

/// How many whole sessions have elapsed for `m` at time `now`. Zero when the
/// farm has not started or has no stakers.
pub open spec fn spec_sessions_elapsed(m: FarmModel, now: u64) -> u64
    recommends
        m.wf(),
{
    if now < m.start_time || m.total_staked == 0 {
        0u64
    } else {
        sat_sub_u64(now, m.last_distribution) / m.session_interval
    }
}

/// The farm after bringing its accumulator up to `now`:
/// - before `start_time`, nothing changes (the checkpoint does not advance
///   past the start);
/// - with no stakers, only the checkpoint advances to `now` (idle time is
///   forfeited, never banked);
/// - otherwise each slot's reward-per-share grows by
///   `(sessions * reward_per_session) / total_staked` (saturating multiply,
///   truncating divide, saturating add) and the checkpoint advances by whole
///   sessions only, clamped to `now`.
pub open spec fn spec_update_farm(m: FarmModel, now: u64) -> FarmModel
    recommends
        m.wf(),
{
    if now < m.start_time {
        m
    } else if m.total_staked == 0 {
        FarmModel { last_distribution: now, ..m }
    } else {
        let sessions = sat_sub_u64(now, m.last_distribution) / m.session_interval;
        if sessions == 0 {
            m
        } else {
            let advanced = sat_add_u64(
                m.last_distribution,
                sat_mul_u64(sessions, m.session_interval),
            );
            FarmModel {
                reward_per_share: Seq::new(
                    m.reward_per_share.len(),
                    |i: int|
                        sat_add_u128(
                            m.reward_per_share[i],
                            sat_mul_u128(sessions as u128, m.reward_per_session[i])
                                / m.total_staked,
                        ),
                ),
                last_distribution: if advanced > now {
                    now
                } else {
                    advanced
                },
                ..m
            }
        }
    }
}

/// The reward newly earned by `s` in slot `i` since its last settlement:
/// the stake amount times the accumulator growth above the recorded debt.
pub open spec fn spec_pending(m: FarmModel, s: StakeModel, i: int) -> u128
    recommends
        m.wf(),
        s.wf_for(m),
        0 <= i < m.n_rewards(),
{
    sat_mul_u128(s.amount, sat_sub_u128(m.reward_per_share[i], s.reward_debt[i]))
}

/// The stake after settling against `m`: every slot's pending reward moves
/// into `accrued_rewards` and the debt baseline is raised to the farm's
/// current reward-per-share. Amount and lockup are untouched.
pub open spec fn spec_settle(m: FarmModel, s: StakeModel) -> StakeModel
    recommends
        m.wf(),
        s.wf_for(m),
{
    StakeModel {
        amount: s.amount,
        lockup_end: s.lockup_end,
        reward_debt: m.reward_per_share,
        accrued_rewards: Seq::new(
            s.accrued_rewards.len(),
            |i: int| sat_add_u128(s.accrued_rewards[i], spec_pending(m, s, i)),
        ),
    }
}

/// Advances `farm`'s accumulator and checkpoint to `now`, by whole sessions.
pub fn update_farm(farm: &mut FarmParams, now: u64)
    requires
        old(farm).wf(),
    ensures
        final(farm)@ == spec_update_farm(old(farm)@, now),
        final(farm).wf(),
{
    if now < farm.start_time {
        return;
    }
    if farm.total_staked == 0 {
        farm.last_distribution = now;
        return;
    }
    let elapsed = saturating_sub_u64(now, farm.last_distribution);
    let sessions = elapsed / farm.session_interval;
    if sessions == 0 {
        return;
    }

    let ghost target = spec_update_farm(old(farm)@, now);
    let n = farm.reward_per_share.len();
    let mut i: usize = 0;
    while i < n
        invariant
            old(farm).wf(),
            i <= n,
            n == farm.reward_per_share.len(),
            farm.reward_per_share@.len() == old(farm)@.reward_per_share.len(),
            sessions == spec_sessions_elapsed(old(farm)@, now),
            sessions > 0,
            farm.staking_token == old(farm).staking_token,
            farm.reward_tokens == old(farm).reward_tokens,
            farm.reward_per_session == old(farm).reward_per_session,
            farm.session_interval == old(farm).session_interval,
            farm.start_time == old(farm).start_time,
            farm.last_distribution == old(farm).last_distribution,
            farm.total_staked == old(farm).total_staked,
            farm.lockup_period == old(farm).lockup_period,
            farm.total_staked > 0,
            now >= farm.start_time,
            forall|k: int|
                0 <= k < i ==> farm.reward_per_share@[k] == sat_add_u128(
                    old(farm)@.reward_per_share[k],
                    sat_mul_u128(sessions as u128, old(farm)@.reward_per_session[k])
                        / old(farm)@.total_staked,
                ),
            forall|k: int|
                i <= k < n ==> farm.reward_per_share@[k] == old(farm)@.reward_per_share[k],
        decreases n - i,
    {
        let total_reward = saturating_mul_u128(sessions as u128, farm.reward_per_session[i]);
        if total_reward > 0 {
            let inc = total_reward / farm.total_staked;
            let cur = farm.reward_per_share[i];
            farm.reward_per_share.set(i, cur.saturating_add(inc));
        }
        i += 1;
    }

    let dist_ns = saturating_mul_u64(sessions, farm.session_interval);
    farm.last_distribution = saturating_add_u64(farm.last_distribution, dist_ns);
    if farm.last_distribution > now {
        farm.last_distribution = now;
    }

    proof {
        assert(farm@.reward_per_share =~= target.reward_per_share);
        assert(farm@ =~~= target);
    }
}

/// The reward newly earned in slot `i` since the stake's last settlement.
pub fn calculate_pending(farm: &FarmParams, stake_info: &StakeInfo, i: usize) -> (r: u128)
    requires
        i < farm@.reward_per_share.len(),
        i < stake_info@.reward_debt.len(),
    ensures
        r == spec_pending(farm@, stake_info@, i as int),
{
    let rps_now = farm.reward_per_share[i];
    let rps_debt = stake_info.reward_debt[i];
    let diff = rps_now.saturating_sub(rps_debt);
    saturating_mul_u128(stake_info.amount, diff)
}

/// Realizes all pending rewards of `stake_info` against `farm`'s current
/// accumulator and raises the debt baseline. Must run before any change to
/// `stake_info.amount`.
pub fn settle(farm: &FarmParams, stake_info: &mut StakeInfo)
    requires
        farm.wf(),
        old(stake_info).wf_for(farm@),
    ensures
        final(stake_info)@ == spec_settle(farm@, old(stake_info)@),
        final(stake_info).wf_for(farm@),
{
    let n = farm.reward_per_share.len();
    let mut i: usize = 0;
    while i < n
        invariant
            old(stake_info).wf_for(farm@),
            i <= n,
            n == farm.reward_per_share@.len(),
            stake_info.amount == old(stake_info).amount,
            stake_info.lockup_end == old(stake_info).lockup_end,
            stake_info.reward_debt@.len() == n,
            stake_info.accrued_rewards@.len() == n,
            forall|k: int| 0 <= k < i ==> stake_info.reward_debt@[k] == farm@.reward_per_share[k],
            forall|k: int|
                i <= k < n ==> stake_info.reward_debt@[k] == old(stake_info)@.reward_debt[k],
            forall|k: int|
                0 <= k < i ==> stake_info.accrued_rewards@[k] == sat_add_u128(
                    old(stake_info)@.accrued_rewards[k],
                    spec_pending(farm@, old(stake_info)@, k),
                ),
            forall|k: int|
                i <= k < n ==> stake_info.accrued_rewards@[k]
                    == old(stake_info)@.accrued_rewards[k],
        decreases n - i,
    {
        let pending = calculate_pending(farm, stake_info, i);
        proof {
            assert(pending == spec_pending(farm@, old(stake_info)@, i as int));
        }
        if pending > 0 {
            let cur = stake_info.accrued_rewards[i];
            stake_info.accrued_rewards.set(i, cur.saturating_add(pending));
        }
        stake_info.reward_debt.set(i, farm.reward_per_share[i]);
        i += 1;
    }
    proof {
        assert(stake_info@.reward_debt =~= farm@.reward_per_share);
        assert(stake_info@.accrued_rewards
            =~= spec_settle(farm@, old(stake_info)@).accrued_rewards);
        assert(stake_info@ =~= spec_settle(farm@, old(stake_info)@));
    }
}

} // verus!
