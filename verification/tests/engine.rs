//! End-to-end tests of the farming engine: farm creation, staking through
//! transfer notifications, session-based distribution, claiming,
//! withdrawing, and the storage-credit ledger.

use child_farming::{ChildFarmingContract, FarmError, FarmInput};

const NEAR_10: u128 = 10_000_000_000_000_000_000_000_000;

fn farm_input(
    reward_tokens: Vec<&str>,
    lockup_period_sec: u64,
    reward_per_session: Vec<u128>,
    session_interval_sec: u64,
    start_at_sec: u64,
) -> FarmInput {
    FarmInput {
        staking_token: "staking.token".to_string(),
        reward_tokens: reward_tokens.iter().map(|s| s.to_string()).collect(),
        lockup_period_sec,
        reward_per_session,
        session_interval_sec,
        start_at_sec,
    }
}

#[test]
fn test_storage_deposit_and_create_farm() {
    let mut contract = ChildFarmingContract::new("owner.testnet".to_string());

    // deposit 10 NEAR for storage
    contract.storage_deposit("alice".to_string(), NEAR_10);

    // create farm with 1 reward token => should pass
    let input = farm_input(vec!["reward.token"], 60, vec![100], 10, 0);
    let farm_id = contract
        .create_farm(input, "alice".to_string(), 0)
        .expect("farm creation should succeed");
    assert_eq!(farm_id, 0);

    // check stored
    let farm = contract.get_farm(0).unwrap();
    assert_eq!(farm.staking_token, "staking.token");
    assert_eq!(farm.reward_tokens.len(), 1);
}

#[test]
fn test_create_farm_insufficient_storage() {
    let mut contract = ChildFarmingContract::new("owner.testnet".to_string());

    let input = FarmInput {
        staking_token: "token".to_string(),
        reward_tokens: vec!["reward.token".to_string()],
        lockup_period_sec: 30,
        reward_per_session: vec![10],
        session_interval_sec: 5,
        start_at_sec: 0,
    };
    // no deposit => create_farm fails with the shortfall reported
    let r = contract.create_farm(input, "alice".to_string(), 0);
    assert!(matches!(r, Err(FarmError::InsufficientStorage { shortfall: _ })));
    assert!(contract.get_farm(0).is_none());
}

#[test]
fn test_create_farm_insufficient_storage_multitoken() {
    let mut contract = ChildFarmingContract::new("owner.testnet".to_string());
    contract.storage_deposit("alice".to_string(), 1);

    // a farm with 2 reward tokens needs more deposit than 1 yocto
    let input = farm_input(vec!["reward1.token", "reward2.token"], 60, vec![100, 200], 10, 0);
    let r = contract.create_farm(input, "alice".to_string(), 0);
    assert!(matches!(r, Err(FarmError::InsufficientStorage { shortfall: _ })));
}

#[test]
fn test_staking_flow() {
    let mut contract = ChildFarmingContract::new("owner.testnet".to_string());
    contract.storage_deposit("alice".to_string(), NEAR_10);

    let input = farm_input(vec!["reward.token"], 10, vec![100], 5, 0);
    let farm_id = contract.create_farm(input, "alice".to_string(), 0).unwrap();

    // transfer notification from the staking token
    let r = contract.ft_on_transfer(
        "alice".to_string(),
        500,
        "STAKE:0".to_string(),
        "staking.token".to_string(),
        0,
    );
    assert_eq!(r, Ok(0));

    let stake_info = contract.get_stake_info("alice".to_string(), farm_id).unwrap();
    assert_eq!(stake_info.amount, 500);
}

#[test]
fn test_stake_insufficient_storage() {
    let mut contract = ChildFarmingContract::new("owner.testnet".to_string());
    contract.storage_deposit("alice".to_string(), 10u128.pow(24));

    let farm_id = contract
        .create_farm(farm_input(vec!["reward.token"], 10, vec![100], 5, 0), "alice".to_string(), 0)
        .unwrap();

    // bob has no storage deposit, so his first stake is rejected
    let msg = format!("STAKE:{}", farm_id);
    let r = contract.ft_on_transfer(
        "bob".to_string(),
        100,
        msg,
        "staking.token".to_string(),
        0,
    );
    assert!(matches!(r, Err(FarmError::InsufficientStorage { shortfall: _ })));
    assert!(contract.get_stake_info("bob".to_string(), farm_id).is_none());
}

#[test]
fn test_add_reward() {
    let mut contract = ChildFarmingContract::new("owner.testnet".to_string());
    contract.storage_deposit("alice".to_string(), NEAR_10);

    let farm_id = contract
        .create_farm(farm_input(vec!["reward.token"], 0, vec![100], 5, 0), "alice".to_string(), 0)
        .unwrap();

    let msg = format!("ADD_REWARD:{}", farm_id);
    let r = contract.ft_on_transfer(
        "alice".to_string(),
        10_000,
        msg,
        "reward.token".to_string(),
        0,
    );
    assert_eq!(r, Ok(0));
}

#[test]
fn test_session_based_distribution() {
    let mut contract = ChildFarmingContract::new("owner.testnet".to_string());
    contract.storage_deposit("alice".to_string(), NEAR_10);

    // interval=10s, reward_per_session=100
    let farm_id = contract
        .create_farm(farm_input(vec!["reward.token"], 0, vec![100], 10, 0), "alice".to_string(), 0)
        .unwrap();

    // stake 100 at t=0
    contract
        .ft_on_transfer(
            "alice".to_string(),
            100,
            "STAKE:0".to_string(),
            "staking.token".to_string(),
            0,
        )
        .unwrap();

    // move time forward => 25s => 2 sessions
    let requests = contract
        .claim_rewards(farm_id, "alice".to_string(), 25_000_000_000)
        .unwrap();

    // 2 sessions => total=200 => reward_per_share=200/100=2
    let farm = contract.get_farm(farm_id).unwrap();
    assert_eq!(farm.reward_per_share[0], 2);

    // claiming yields 100 * 2 - 0 = 200 before transfer, 0 after
    assert_eq!(requests.len(), 1);
    assert_eq!(requests[0].token, "reward.token");
    assert_eq!(requests[0].receiver, "alice");
    assert_eq!(requests[0].amount, 200);

    let stake_info = contract.get_stake_info("alice".to_string(), farm_id).unwrap();
    assert_eq!(stake_info.accrued_rewards[0], 0);
}

#[test]
fn test_withdraw_lockup_fail() {
    let mut contract = ChildFarmingContract::new("owner.testnet".to_string());
    contract.storage_deposit("alice".to_string(), NEAR_10);

    let farm_id = contract
        .create_farm(farm_input(vec!["reward.token"], 2, vec![10], 5, 0), "alice".to_string(), 0)
        .unwrap();

    contract
        .ft_on_transfer(
            "alice".to_string(),
            100,
            "STAKE:0".to_string(),
            "staking.token".to_string(),
            0,
        )
        .unwrap();

    // at t=1s the 2s lockup has not expired
    let r = contract.withdraw(farm_id, 50, "alice".to_string(), 1_000_000_000);
    assert_eq!(r, Err(FarmError::LockupNotExpired));
}

#[test]
fn test_withdraw_lockup_success() {
    let mut contract = ChildFarmingContract::new("owner.testnet".to_string());
    contract.storage_deposit("alice".to_string(), NEAR_10);

    let farm_id = contract
        .create_farm(farm_input(vec!["reward.token"], 2, vec![10], 5, 0), "alice".to_string(), 0)
        .unwrap();

    contract
        .ft_on_transfer(
            "alice".to_string(),
            100,
            "STAKE:0".to_string(),
            "staking.token".to_string(),
            0,
        )
        .unwrap();

    // t=3s => beyond lockup
    let req = contract
        .withdraw(farm_id, 50, "alice".to_string(), 3_000_000_000)
        .unwrap();
    assert_eq!(req.token, "staking.token");
    assert_eq!(req.receiver, "alice");
    assert_eq!(req.amount, 50);

    // withdrew half
    let stake_info = contract.get_stake_info("alice".to_string(), farm_id).unwrap();
    assert_eq!(stake_info.amount, 50);

    // the farm's total shrank by the same 50
    let farm = contract.get_farm(farm_id).unwrap();
    assert_eq!(farm.total_staked, 50);
}

#[test]
fn test_future_start_time() {
    let mut contract = ChildFarmingContract::new("owner.testnet".to_string());
    contract.storage_deposit("alice".to_string(), NEAR_10);

    // farm that starts at sec=100
    let farm_id = contract
        .create_farm(
            farm_input(vec!["reward.token"], 0, vec![10], 5, 100),
            "alice".to_string(),
            0,
        )
        .unwrap();

    // stake at time=0
    contract
        .ft_on_transfer(
            "alice".to_string(),
            100,
            "STAKE:0".to_string(),
            "staking.token".to_string(),
            0,
        )
        .unwrap();

    // time => 50s => still before start(=100)
    contract
        .claim_rewards(farm_id, "alice".to_string(), 50_000_000_000)
        .unwrap();

    // no sessions => reward_per_share=0
    let farm = contract.get_farm(farm_id).unwrap();
    assert_eq!(farm.reward_per_share[0], 0);
}

#[test]
fn test_claim_twice_second_yields_nothing() {
    // settling twice with no intervening time accrues nothing the second
    // time
    let mut contract = ChildFarmingContract::new("owner.testnet".to_string());
    contract.storage_deposit("alice".to_string(), NEAR_10);

    let farm_id = contract
        .create_farm(farm_input(vec!["reward.token"], 0, vec![100], 10, 0), "alice".to_string(), 0)
        .unwrap();

    contract
        .ft_on_transfer(
            "alice".to_string(),
            100,
            "STAKE:0".to_string(),
            "staking.token".to_string(),
            0,
        )
        .unwrap();

    let first = contract
        .claim_rewards(farm_id, "alice".to_string(), 25_000_000_000)
        .unwrap();
    assert_eq!(first.len(), 1);
    assert_eq!(first[0].amount, 200);

    let second = contract
        .claim_rewards(farm_id, "alice".to_string(), 25_000_000_000)
        .unwrap();
    assert_eq!(second.len(), 0);
}

#[test]
fn test_no_stakers_freezes_accumulator_but_advances_checkpoint() {
    let mut contract = ChildFarmingContract::new("owner.testnet".to_string());
    contract.storage_deposit("alice".to_string(), NEAR_10);

    let farm_id = contract
        .create_farm(farm_input(vec!["reward.token"], 0, vec![100], 10, 0), "alice".to_string(), 0)
        .unwrap();

    // many sessions elapse with nobody staked
    contract.update_farm(farm_id, 50_000_000_000).unwrap();

    let farm = contract.get_farm(farm_id).unwrap();
    assert_eq!(farm.reward_per_share[0], 0);
    // the idle interval is forfeited: the checkpoint moved to "now"
    assert_eq!(farm.last_distribution_sec, 50);
}

#[test]
fn test_update_farm_idempotent() {
    let mut contract = ChildFarmingContract::new("owner.testnet".to_string());
    contract.storage_deposit("alice".to_string(), NEAR_10);

    let farm_id = contract
        .create_farm(farm_input(vec!["reward.token"], 0, vec![100], 10, 0), "alice".to_string(), 0)
        .unwrap();
    contract
        .ft_on_transfer(
            "alice".to_string(),
            100,
            "STAKE:0".to_string(),
            "staking.token".to_string(),
            0,
        )
        .unwrap();

    contract.update_farm(farm_id, 25_000_000_000).unwrap();
    let once = contract.get_farm(farm_id).unwrap();
    contract.update_farm(farm_id, 25_000_000_000).unwrap();
    let twice = contract.get_farm(farm_id).unwrap();

    assert_eq!(once.reward_per_share, twice.reward_per_share);
    assert_eq!(once.last_distribution_sec, twice.last_distribution_sec);
    assert_eq!(once.total_staked, twice.total_staked);
}

#[test]
fn test_total_staked_matches_sum_of_stakes() {
    let mut contract = ChildFarmingContract::new("owner.testnet".to_string());
    contract.storage_deposit("alice".to_string(), NEAR_10);
    contract.storage_deposit("bob".to_string(), NEAR_10);

    let farm_id = contract
        .create_farm(farm_input(vec!["reward.token"], 0, vec![100], 10, 0), "alice".to_string(), 0)
        .unwrap();

    contract
        .ft_on_transfer(
            "alice".to_string(),
            300,
            "STAKE:0".to_string(),
            "staking.token".to_string(),
            0,
        )
        .unwrap();
    contract
        .ft_on_transfer(
            "bob".to_string(),
            200,
            "STAKE:0".to_string(),
            "staking.token".to_string(),
            0,
        )
        .unwrap();

    let a = contract.get_stake_info("alice".to_string(), farm_id).unwrap().amount;
    let b = contract.get_stake_info("bob".to_string(), farm_id).unwrap().amount;
    let farm = contract.get_farm(farm_id).unwrap();
    assert_eq!(a + b, farm.total_staked);
    assert_eq!(farm.total_staked, 500);

    // after a partial withdraw the books still balance
    contract.withdraw(farm_id, 120, "bob".to_string(), 0).unwrap();
    let a = contract.get_stake_info("alice".to_string(), farm_id).unwrap().amount;
    let b = contract.get_stake_info("bob".to_string(), farm_id).unwrap().amount;
    let farm = contract.get_farm(farm_id).unwrap();
    assert_eq!(a + b, farm.total_staked);
    assert_eq!(farm.total_staked, 380);
}

#[test]
fn test_full_withdraw_deletes_record() {
    let mut contract = ChildFarmingContract::new("owner.testnet".to_string());
    contract.storage_deposit("alice".to_string(), NEAR_10);

    let farm_id = contract
        .create_farm(farm_input(vec!["reward.token"], 0, vec![10], 5, 0), "alice".to_string(), 0)
        .unwrap();
    contract
        .ft_on_transfer(
            "alice".to_string(),
            100,
            "STAKE:0".to_string(),
            "staking.token".to_string(),
            0,
        )
        .unwrap();

    contract.withdraw(farm_id, 100, "alice".to_string(), 0).unwrap();
    assert!(contract.get_stake_info("alice".to_string(), farm_id).is_none());
    assert_eq!(contract.get_farm(farm_id).unwrap().total_staked, 0);
}

#[test]
fn test_withdraw_more_than_staked_fails() {
    let mut contract = ChildFarmingContract::new("owner.testnet".to_string());
    contract.storage_deposit("alice".to_string(), NEAR_10);

    let farm_id = contract
        .create_farm(farm_input(vec!["reward.token"], 0, vec![10], 5, 0), "alice".to_string(), 0)
        .unwrap();
    contract
        .ft_on_transfer(
            "alice".to_string(),
            100,
            "STAKE:0".to_string(),
            "staking.token".to_string(),
            0,
        )
        .unwrap();

    let r = contract.withdraw(farm_id, 101, "alice".to_string(), 0);
    assert_eq!(r, Err(FarmError::InsufficientStakedBalance));
}

#[test]
fn test_lockup_extended_never_shortened() {
    let mut contract = ChildFarmingContract::new("owner.testnet".to_string());
    contract.storage_deposit("alice".to_string(), NEAR_10);

    let farm_id = contract
        .create_farm(farm_input(vec!["reward.token"], 10, vec![10], 5, 0), "alice".to_string(), 0)
        .unwrap();

    // stake at t=0 => lockup ends at 10s
    contract
        .ft_on_transfer(
            "alice".to_string(),
            100,
            "STAKE:0".to_string(),
            "staking.token".to_string(),
            0,
        )
        .unwrap();
    assert_eq!(
        contract.get_stake_info("alice".to_string(), farm_id).unwrap().lockup_end_sec,
        10
    );

    // stake again at t=5s => lockup extends to 15s
    contract
        .ft_on_transfer(
            "alice".to_string(),
            100,
            "STAKE:0".to_string(),
            "staking.token".to_string(),
            5_000_000_000,
        )
        .unwrap();
    assert_eq!(
        contract.get_stake_info("alice".to_string(), farm_id).unwrap().lockup_end_sec,
        15
    );
}

#[test]
fn test_reward_truncation_dust() {
    // 1 session emits 100 over a total stake of 300: 100/300 truncates to
    // 0 reward-per-share; the remainder is permanent, bounded dust
    let mut contract = ChildFarmingContract::new("owner.testnet".to_string());
    contract.storage_deposit("alice".to_string(), NEAR_10);

    let farm_id = contract
        .create_farm(farm_input(vec!["reward.token"], 0, vec![100], 10, 0), "alice".to_string(), 0)
        .unwrap();
    contract
        .ft_on_transfer(
            "alice".to_string(),
            300,
            "STAKE:0".to_string(),
            "staking.token".to_string(),
            0,
        )
        .unwrap();

    let requests = contract
        .claim_rewards(farm_id, "alice".to_string(), 10_000_000_000)
        .unwrap();
    assert_eq!(contract.get_farm(farm_id).unwrap().reward_per_share[0], 0);
    assert_eq!(requests.len(), 0);
}

#[test]
fn test_saturating_stake_never_panics() {
    // the overflow policy is to clamp, never to panic
    let mut contract = ChildFarmingContract::new("owner.testnet".to_string());
    contract.storage_deposit("alice".to_string(), NEAR_10);

    let farm_id = contract
        .create_farm(farm_input(vec!["reward.token"], 0, vec![10], 5, 0), "alice".to_string(), 0)
        .unwrap();

    contract
        .ft_on_transfer(
            "alice".to_string(),
            u128::MAX,
            "STAKE:0".to_string(),
            "staking.token".to_string(),
            0,
        )
        .unwrap();
    contract
        .ft_on_transfer(
            "alice".to_string(),
            1,
            "STAKE:0".to_string(),
            "staking.token".to_string(),
            0,
        )
        .unwrap();

    let stake_info = contract.get_stake_info("alice".to_string(), farm_id).unwrap();
    assert_eq!(stake_info.amount, u128::MAX);
    assert_eq!(contract.get_farm(farm_id).unwrap().total_staked, u128::MAX);
}

#[test]
fn test_storage_withdraw_and_shortfall() {
    let mut contract = ChildFarmingContract::new("owner.testnet".to_string());
    contract.storage_deposit("alice".to_string(), 1000);

    // over-withdrawing is rejected
    let r = contract.storage_withdraw("alice".to_string(), Some(1001));
    assert_eq!(r, Err(FarmError::InsufficientStorageCredit));

    // a partial withdrawal returns the amount to transfer back
    assert_eq!(contract.storage_withdraw("alice".to_string(), Some(400)), Ok(400));
    // withdrawing the rest without naming an amount drains the balance
    assert_eq!(contract.storage_withdraw("alice".to_string(), None), Ok(600));
    assert_eq!(contract.storage_withdraw("alice".to_string(), None), Ok(0));
}
