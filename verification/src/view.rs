//! Read-only snapshots for external callers. Internally the engine keeps
//! durations in nanoseconds; a snapshot converts them back to the coarse
//! external unit (seconds, truncating).

use vstd::prelude::*;

use crate::arith::{sat_add_u64, saturating_add_u64};
use crate::contract::{
    lemma_find_stake_bounds, spec_find_stake, ChildFarmingContract, StakeEntryModel,
};
use crate::farm::{FarmModel, FarmParams, StakeInfo, StakeModel};

verus! {

/// A snapshot of one farm, durations in seconds.
pub struct FarmView {
    pub farm_id: u64,
    pub staking_token: String,
    pub reward_tokens: Vec<String>,
    pub reward_per_session: Vec<u128>,
    pub session_interval_sec: u64,
    pub start_at_sec: u64,
    pub last_distribution_sec: u64,
    pub total_staked: u128,
    pub reward_per_share: Vec<u128>,
    pub lockup_period_sec: u64,
}

/// A snapshot of one stake record, durations in seconds.
pub struct StakeInfoView {
    pub farm_id: u64,
    pub amount: u128,
    pub lockup_end_sec: u64,
    pub reward_debt: Vec<u128>,
    pub accrued_rewards: Vec<u128>,
}

#[verifier::ext_equal]
pub ghost struct FarmViewModel {
    pub farm_id: u64,
    pub staking_token: Seq<char>,
    pub reward_tokens: Seq<Seq<char>>,
    pub reward_per_session: Seq<u128>,
    pub session_interval_sec: u64,
    pub start_at_sec: u64,
    pub last_distribution_sec: u64,
    pub total_staked: u128,
    pub reward_per_share: Seq<u128>,
    pub lockup_period_sec: u64,
}

#[verifier::ext_equal]
pub ghost struct StakeInfoViewModel {
    pub farm_id: u64,
    pub amount: u128,
    pub lockup_end_sec: u64,
    pub reward_debt: Seq<u128>,
    pub accrued_rewards: Seq<u128>,
}

impl View for FarmView {
    type V = FarmViewModel;

    open spec fn view(&self) -> FarmViewModel {
        FarmViewModel {
            farm_id: self.farm_id,
            staking_token: self.staking_token@,
            reward_tokens: self.reward_tokens.deep_view(),
            reward_per_session: self.reward_per_session@,
            session_interval_sec: self.session_interval_sec,
            start_at_sec: self.start_at_sec,
            last_distribution_sec: self.last_distribution_sec,
            total_staked: self.total_staked,
            reward_per_share: self.reward_per_share@,
            lockup_period_sec: self.lockup_period_sec,
        }
    }
}

impl DeepView for FarmView {
    type V = FarmViewModel;

    open spec fn deep_view(&self) -> FarmViewModel {
        self.view()
    }
}

impl View for StakeInfoView {
    type V = StakeInfoViewModel;

    open spec fn view(&self) -> StakeInfoViewModel {
        StakeInfoViewModel {
            farm_id: self.farm_id,
            amount: self.amount,
            lockup_end_sec: self.lockup_end_sec,
            reward_debt: self.reward_debt@,
            accrued_rewards: self.accrued_rewards@,
        }
    }
}

impl DeepView for StakeInfoView {
    type V = StakeInfoViewModel;

    open spec fn deep_view(&self) -> StakeInfoViewModel {
        self.view()
    }
}

/// The snapshot a farm yields, field by field.
pub open spec fn spec_farm_view(m: FarmModel, farm_id: u64) -> FarmViewModel {
    FarmViewModel {
        farm_id: farm_id,
        staking_token: m.staking_token,
        reward_tokens: m.reward_tokens,
        reward_per_session: m.reward_per_session,
        session_interval_sec: m.session_interval / 1_000_000_000,
        start_at_sec: m.start_time / 1_000_000_000,
        last_distribution_sec: m.last_distribution / 1_000_000_000,
        total_staked: m.total_staked,
        reward_per_share: m.reward_per_share,
        lockup_period_sec: m.lockup_period / 1_000_000_000,
    }
}

/// The snapshot a stake record yields, field by field.
pub open spec fn spec_stake_view(s: StakeModel, farm_id: u64) -> StakeInfoViewModel {
    StakeInfoViewModel {
        farm_id: farm_id,
        amount: s.amount,
        lockup_end_sec: s.lockup_end / 1_000_000_000,
        reward_debt: s.reward_debt,
        accrued_rewards: s.accrued_rewards,
    }
}

/// An element-for-element copy of a numeric vector.
fn copy_u128_vec(v: &Vec<u128>) -> (r: Vec<u128>)
    ensures
        r@ == v@,
{
    let n = v.len();
    let mut r: Vec<u128> = Vec::new();
    let mut i: usize = 0;
    while i < n
        invariant
            i <= n,
            n == v@.len(),
            r@ == v@.take(i as int),
        decreases n - i,
    {
        proof {
            assert(v@.take(i + 1).drop_last() =~= v@.take(i as int));
            assert(v@.take(i + 1) =~= v@.take(i as int).push(v@[i as int]));
        }
        r.push(v[i]);
        i += 1;
    }
    proof {
        assert(v@.take(n as int) =~= v@);
    }
    r
}

/// An element-for-element copy of a vector of identifiers.
fn clone_string_vec(v: &Vec<String>) -> (r: Vec<String>)
    ensures
        r.deep_view() == v.deep_view(),
{
    let n = v.len();
    let mut r: Vec<String> = Vec::new();
    let mut i: usize = 0;
    while i < n
        invariant
            i <= n,
            n == v@.len(),
            r@.len() == i,
            forall|k: int| 0 <= k < i ==> r.deep_view()[k] == v.deep_view()[k],
        decreases n - i,
    {
        let s = v[i].clone();
        r.push(s);
        i += 1;
    }
    proof {
        assert(r.deep_view() =~= v.deep_view());
    }
    r
}

impl FarmView {
    /// The external snapshot of `farm` under identifier `farm_id`.
    pub fn from_farm(farm: &FarmParams, farm_id: u64) -> (v: FarmView)
        ensures
            v@ == spec_farm_view(farm@, farm_id),
    {
        let v = FarmView {
            farm_id,
            staking_token: farm.staking_token.clone(),
            reward_tokens: clone_string_vec(&farm.reward_tokens),
            reward_per_session: copy_u128_vec(&farm.reward_per_session),
            session_interval_sec: farm.session_interval / 1_000_000_000,
            start_at_sec: farm.start_time / 1_000_000_000,
            last_distribution_sec: farm.last_distribution / 1_000_000_000,
            total_staked: farm.total_staked,
            reward_per_share: copy_u128_vec(&farm.reward_per_share),
            lockup_period_sec: farm.lockup_period / 1_000_000_000,
        };
        proof {
            assert(v@ =~~= spec_farm_view(farm@, farm_id));
        }
        v
    }
}

impl StakeInfoView {
    /// The external snapshot of `info` for farm `farm_id`.
    pub fn from_stake(info: &StakeInfo, farm_id: u64) -> (v: StakeInfoView)
        ensures
            v@ == spec_stake_view(info@, farm_id),
    {
        let v = StakeInfoView {
            farm_id,
            amount: info.amount,
            lockup_end_sec: info.lockup_end / 1_000_000_000,
            reward_debt: copy_u128_vec(&info.reward_debt),
            accrued_rewards: copy_u128_vec(&info.accrued_rewards),
        };
        proof {
            assert(v@ =~~= spec_stake_view(info@, farm_id));
        }
        v
    }
}

/// The stake records of one account, in ledger order.
pub open spec fn spec_stakes_of(stakes: Seq<StakeEntryModel>, account: Seq<char>) -> Seq<
    StakeEntryModel,
> {
    stakes.filter(|e: StakeEntryModel| e.account == account)
}

impl ChildFarmingContract {
    /// Snapshot of farm `farm_id`, if it exists.
    pub fn get_farm(&self, farm_id: u64) -> (r: Option<FarmView>)
        ensures
            match r {
                Some(v) => farm_id < self@.farms.len() && v@ == spec_farm_view(
                    self@.farms[farm_id as int],
                    farm_id,
                ),
                None => farm_id >= self@.farms.len(),
            },
    {
        if farm_id >= self.farms.len() as u64 {
            return None;
        }
        let idx = farm_id as usize;
        Some(FarmView::from_farm(&self.farms[idx], farm_id))
    }

    /// Snapshots of the farms with identifiers in
    /// `[from_index, from_index + limit)`, in identifier order. Farms are
    /// dense, so the result holds one entry per identifier in the range,
    /// clipped to the existing farms.
    pub fn list_farms(&self, from_index: u64, limit: u64) -> (r: Vec<FarmView>)
        ensures
            ({
                let end = if sat_add_u64(from_index, limit) < self@.farm_count {
                    sat_add_u64(from_index, limit)
                } else {
                    self@.farm_count
                };
                if from_index < end && self@.farm_count == self@.farms.len() {
                    &&& r@.len() == end - from_index
                    &&& forall|k: int|
                        0 <= k < r@.len() ==> (#[trigger] r.deep_view()[k]) == spec_farm_view(
                            self@.farms[from_index + k],
                            (from_index + k) as u64,
                        )
                } else {
                    r@.len() == 0
                }
            }),
    {
        let mut results: Vec<FarmView> = Vec::new();
        let upper = saturating_add_u64(from_index, limit);
        let end = if self.farm_count < upper {
            self.farm_count
        } else {
            upper
        };
        if from_index >= end || self.farm_count != self.farms.len() as u64 {
            return results;
        }
        let mut farm_id = from_index;
        while farm_id < end
            invariant
                from_index <= farm_id <= end,
                end <= self.farms@.len(),
                self@.farm_count == self@.farms.len(),
                end == if sat_add_u64(from_index, limit) < self@.farm_count {
                    sat_add_u64(from_index, limit)
                } else {
                    self@.farm_count
                },
                results@.len() == farm_id - from_index,
                forall|k: int|
                    0 <= k < results@.len() ==> (#[trigger] results.deep_view()[k])
                        == spec_farm_view(
                        self@.farms[from_index + k],
                        (from_index + k) as u64,
                    ),
            decreases end - farm_id,
        {
            proof {
                vstd::std_specs::vec::axiom_spec_len(&self.farms);
            }
            let idx = farm_id as usize;
            let farm = &self.farms[idx];
            proof {
                assert(*farm == self.farms@[idx as int]);
            }
            let v = FarmView::from_farm(farm, farm_id);
            proof {
                assert(v@ == spec_farm_view(self.farms@[idx as int]@, farm_id));
                assert(self.farms.deep_view()[farm_id as int] == self.farms@[
                    farm_id as int
                ].deep_view());
                assert(v@ == spec_farm_view(self@.farms[farm_id as int], farm_id));
            }
            let ghost old_deep = results.deep_view();
            results.push(v);
            proof {
                assert(results.deep_view() =~= old_deep.push(v@));
                assert forall|k: int|
                    0 <= k < results@.len() implies (#[trigger] results.deep_view()[k])
                    == spec_farm_view(
                    self@.farms[from_index + k],
                    (from_index + k) as u64,
                ) by {
                    if k < old_deep.len() {
                        assert(results.deep_view()[k] == old_deep[k]);
                    } else {
                        assert(results.deep_view()[k] == v@);
                    }
                }
            }
            farm_id += 1;
        }
        results
    }

    /// Snapshot of `account_id`'s stake in `farm_id`, if a record exists.
    pub fn get_stake_info(&self, account_id: String, farm_id: u64) -> (r: Option<StakeInfoView>)
        ensures
            ({
                let j = spec_find_stake(self@.stakes, account_id@, farm_id);
                match r {
                    Some(v) => j < self@.stakes.len() && v@ == spec_stake_view(
                        self@.stakes[j].info,
                        farm_id,
                    ),
                    None => j >= self@.stakes.len(),
                }
            }),
    {
        let j = self.find_stake(&account_id, farm_id);
        proof {
            lemma_find_stake_bounds(self@.stakes, account_id@, farm_id);
        }
        if j >= self.stakes.len() {
            return None;
        }
        proof {
            assert(self.stakes.deep_view()[j as int] == self.stakes@[j as int].deep_view());
        }
        Some(StakeInfoView::from_stake(&self.stakes[j].info, farm_id))
    }

    /// Snapshots of `account_id`'s stake records across all farms, in
    /// ledger order, skipping the first `from_index` of them and returning
    /// at most `limit`.
    pub fn list_stakes_by_user(&self, account_id: String, from_index: u64, limit: u64) -> (r: Vec<
        StakeInfoView,
    >)
        ensures
            ({
                let owned = spec_stakes_of(self@.stakes, account_id@);
                let lo = if from_index < owned.len() {
                    from_index as int
                } else {
                    owned.len() as int
                };
                let hi = if lo + limit < owned.len() {
                    lo + limit
                } else {
                    owned.len() as int
                };
                &&& r@.len() == hi - lo
                &&& forall|k: int|
                    0 <= k < r@.len() ==> (#[trigger] r.deep_view()[k]) == spec_stake_view(
                        owned[lo + k].info,
                        owned[lo + k].farm_id,
                    )
            }),
    {
        let ghost owned = spec_stakes_of(self@.stakes, account_id@);
        let ghost mut p: int = 0;
        let mut results: Vec<StakeInfoView> = Vec::new();
        let mut count: u64 = 0;
        let mut skipped: u64 = 0;
        let mut broke: bool = false;
        let n = self.stakes.len();
        let mut i: usize = 0;
        proof {
            assert(self@.stakes.take(0) =~= Seq::<StakeEntryModel>::empty());
            reveal(Seq::filter);
            assert(owned.take(0) =~= Seq::<StakeEntryModel>::empty());
        }
        while i < n
            invariant_except_break
                broke == false,
            invariant
                i <= n,
                n == self@.stakes.len(),
                owned == spec_stakes_of(self@.stakes, account_id@),
                spec_stakes_of(self@.stakes.take(i as int), account_id@) == owned.take(p),
                0 <= p <= owned.len(),
                p == skipped + count,
                skipped <= from_index,
                skipped < from_index ==> count == 0,
                count > 0 ==> skipped == from_index,
                count == results@.len(),
                count <= limit,
                forall|k: int|
                    0 <= k < results@.len() ==> (#[trigger] results.deep_view()[k])
                        == spec_stake_view(owned[skipped + k].info, owned[skipped + k].farm_id),
            ensures
                count == results@.len(),
                count <= limit,
                skipped <= from_index,
                skipped < from_index ==> count == 0,
                count > 0 ==> skipped == from_index,
                p == skipped + count,
                0 <= p <= owned.len(),
                spec_stakes_of(self@.stakes.take(i as int), account_id@) == owned.take(p),
                broke ==> count == limit && skipped == from_index && p < owned.len(),
                !broke ==> i == n,
                forall|k: int|
                    0 <= k < results@.len() ==> (#[trigger] results.deep_view()[k])
                        == spec_stake_view(owned[skipped + k].info, owned[skipped + k].farm_id),
            decreases n - i,
        {
            proof {
                lemma_filter_step(self@.stakes, account_id@, i as int);
                assert(self.stakes.deep_view()[i as int] == self.stakes@[i as int].deep_view());
            }
            let e = &self.stakes[i];
            if e.account == account_id {
                proof {
                    lemma_filter_take_prefix(self@.stakes, account_id@, i as int + 1);
                    let fi1 = spec_stakes_of(self@.stakes.take(i as int + 1), account_id@);
                    assert(fi1 == owned.take(p).push(self@.stakes[i as int]));
                    assert(fi1.len() == p + 1);
                    assert(fi1 == owned.take(p + 1));
                    assert(owned.take(p + 1)[p] == owned[p]);
                    assert(owned[p] == self@.stakes[i as int]);
                }
                if skipped < from_index {
                    skipped += 1;
                    proof {
                        p = p + 1;
                    }
                } else if count < limit {
                    let v = StakeInfoView::from_stake(&e.info, e.farm_id);
                    let ghost old_deep = results.deep_view();
                    results.push(v);
                    proof {
                        assert(results.deep_view() =~= old_deep.push(v@));
                        p = p + 1;
                    }
                    count += 1;
                } else {
                    proof {
                        assert(p < owned.len());
                    }
                    broke = true;
                    break ;
                }
            }
            i += 1;
        }
        proof {
            if !broke {
                assert(self@.stakes.take(n as int) =~= self@.stakes);
                assert(owned == owned.take(p));
                assert(owned.take(p).len() == p);
                assert(p == owned.len());
            }
        }
        results
    }
}

/// Filtering one more ledger entry extends the filtered sequence exactly
/// when the entry belongs to the account.
proof fn lemma_filter_step(stakes: Seq<StakeEntryModel>, account: Seq<char>, i: int)
    requires
        0 <= i < stakes.len(),
    ensures
        spec_stakes_of(stakes.take(i + 1), account) == if stakes[i].account == account {
            spec_stakes_of(stakes.take(i), account).push(stakes[i])
        } else {
            spec_stakes_of(stakes.take(i), account)
        },
{
    let t1 = stakes.take(i + 1);
    let t0 = stakes.take(i);
    assert(t1.drop_last() =~= t0);
    assert(t1.last() == stakes[i]);
    reveal(Seq::filter);
}

/// A filter of a prefix of the ledger is a prefix of the filter of the
/// whole ledger.
proof fn lemma_filter_take_prefix(stakes: Seq<StakeEntryModel>, account: Seq<char>, i: int)
    requires
        0 <= i <= stakes.len(),
    ensures
        spec_stakes_of(stakes.take(i), account).len() <= spec_stakes_of(stakes, account).len(),
        spec_stakes_of(stakes.take(i), account) == spec_stakes_of(stakes, account).take(
            spec_stakes_of(stakes.take(i), account).len() as int,
        ),
    decreases stakes.len() - i,
{
    let whole = spec_stakes_of(stakes, account);
    if i == stakes.len() {
        assert(stakes.take(i) =~= stakes);
        assert(whole.take(whole.len() as int) =~= whole);
    } else {
        lemma_filter_take_prefix(stakes, account, i + 1);
        lemma_filter_step(stakes, account, i);
        let fi = spec_stakes_of(stakes.take(i), account);
        let fi1 = spec_stakes_of(stakes.take(i + 1), account);
        if stakes[i].account == account {
            assert(fi1 == fi.push(stakes[i]));
            assert(fi1.len() == fi.len() + 1);
            assert(fi1 == whole.take(fi1.len() as int));
            assert(whole.take(fi1.len() as int).drop_last() =~= whole.take(fi.len() as int));
            assert(fi1.drop_last() =~= fi);
        } else {
            assert(fi1 == fi);
        }
    }
}

} // verus!
