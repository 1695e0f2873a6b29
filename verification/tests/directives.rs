//! Tests of directive parsing and of the error taxonomy at the transfer
//! boundary: a malformed message refuses the transfer (the amount is
//! returned), while a recognized directive that cannot be carried out is a
//! hard error that changes nothing.

use child_farming::msg::parse_directive;
use child_farming::{ChildFarmingContract, Directive, FarmError, FarmInput};

const NEAR_10: u128 = 10_000_000_000_000_000_000_000_000;

fn setup_with_farm() -> ChildFarmingContract {
    let mut contract = ChildFarmingContract::new("owner.testnet".to_string());
    contract.storage_deposit("alice".to_string(), NEAR_10);
    contract
        .create_farm(
            FarmInput {
                staking_token: "staking.token".to_string(),
                reward_tokens: vec!["reward.token".to_string()],
                lockup_period_sec: 0,
                reward_per_session: vec![100],
                session_interval_sec: 10,
                start_at_sec: 0,
            },
            "alice".to_string(),
            0,
        )
        .unwrap();
    contract
}

#[test]
fn test_parse_directive_forms() {
    assert_eq!(parse_directive("STAKE:0"), Directive::Stake(0));
    assert_eq!(parse_directive("STAKE:42"), Directive::Stake(42));
    assert_eq!(parse_directive("ADD_REWARD:7"), Directive::AddReward(7));
    // extra segments after the identifier are ignored, as a split on ':'
    // would
    assert_eq!(parse_directive("STAKE:1:extra"), Directive::Stake(1));
    assert_eq!(parse_directive("STAKE:18446744073709551615"), Directive::Stake(u64::MAX));

    assert_eq!(parse_directive(""), Directive::Refused);
    assert_eq!(parse_directive("STAKE"), Directive::Refused);
    assert_eq!(parse_directive("STAKE:"), Directive::Refused);
    assert_eq!(parse_directive("STAKE:abc"), Directive::Refused);
    assert_eq!(parse_directive("STAKE:1x"), Directive::Refused);
    assert_eq!(parse_directive("stake:1"), Directive::Refused);
    assert_eq!(parse_directive("UNSTAKE:1"), Directive::Refused);
    // one past u64::MAX no longer fits
    assert_eq!(parse_directive("STAKE:18446744073709551616"), Directive::Refused);
}

#[test]
fn test_malformed_message_refunds_amount() {
    let mut contract = setup_with_farm();
    // unknown message => the engine refuses by returning the whole amount
    let r = contract.ft_on_transfer(
        "alice".to_string(),
        500,
        "garbage".to_string(),
        "staking.token".to_string(),
        0,
    );
    assert_eq!(r, Ok(500));
    assert!(contract.get_stake_info("alice".to_string(), 0).is_none());
}

#[test]
fn test_stake_wrong_token_rejected() {
    let mut contract = setup_with_farm();
    // staking with an asset that is not the farm's staking asset is a
    // policy violation; no stake record is created
    let r = contract.ft_on_transfer(
        "alice".to_string(),
        500,
        "STAKE:0".to_string(),
        "other.token".to_string(),
        0,
    );
    assert_eq!(r, Err(FarmError::WrongStakingToken));
    assert!(contract.get_stake_info("alice".to_string(), 0).is_none());
}

#[test]
fn test_stake_unknown_farm_rejected() {
    let mut contract = setup_with_farm();
    let r = contract.ft_on_transfer(
        "alice".to_string(),
        500,
        "STAKE:9".to_string(),
        "staking.token".to_string(),
        0,
    );
    assert_eq!(r, Err(FarmError::FarmNotFound));
}

#[test]
fn test_stake_zero_amount_rejected() {
    let mut contract = setup_with_farm();
    let r = contract.ft_on_transfer(
        "alice".to_string(),
        0,
        "STAKE:0".to_string(),
        "staking.token".to_string(),
        0,
    );
    assert_eq!(r, Err(FarmError::ZeroStakeAmount));
    assert!(contract.get_stake_info("alice".to_string(), 0).is_none());
}

#[test]
fn test_add_reward_wrong_token_rejected() {
    let mut contract = setup_with_farm();
    let r = contract.ft_on_transfer(
        "alice".to_string(),
        1000,
        "ADD_REWARD:0".to_string(),
        "not.a.reward".to_string(),
        0,
    );
    assert_eq!(r, Err(FarmError::NotARewardToken));
}

#[test]
fn test_claim_without_stake_rejected() {
    let mut contract = setup_with_farm();
    let r = contract.claim_rewards(0, "bob".to_string(), 0);
    assert_eq!(r, Err(FarmError::StakeNotFound));
    let r = contract.claim_rewards(9, "bob".to_string(), 0);
    assert_eq!(r, Err(FarmError::FarmNotFound));
}

#[test]
fn test_mismatched_reward_config_rejected() {
    // 2 reward tokens but only 1 per-session entry fails validation before
    // any state is written
    let mut contract = ChildFarmingContract::new("owner.testnet".to_string());
    contract.storage_deposit("alice".to_string(), NEAR_10);
    let r = contract.create_farm(
        FarmInput {
            staking_token: "staking.token".to_string(),
            reward_tokens: vec!["reward1.token".to_string(), "reward2.token".to_string()],
            lockup_period_sec: 0,
            reward_per_session: vec![100],
            session_interval_sec: 10,
            start_at_sec: 0,
        },
        "alice".to_string(),
        0,
    );
    assert_eq!(r, Err(FarmError::MismatchedRewardConfig));
    assert!(contract.get_farm(0).is_none());
    assert_eq!(contract.list_farms(0, 10).len(), 0);
}

#[test]
fn test_empty_reward_config_rejected() {
    let mut contract = ChildFarmingContract::new("owner.testnet".to_string());
    contract.storage_deposit("alice".to_string(), NEAR_10);
    let r = contract.create_farm(
        FarmInput {
            staking_token: "staking.token".to_string(),
            reward_tokens: vec![],
            lockup_period_sec: 0,
            reward_per_session: vec![],
            session_interval_sec: 10,
            start_at_sec: 0,
        },
        "alice".to_string(),
        0,
    );
    assert_eq!(r, Err(FarmError::MismatchedRewardConfig));
}

#[test]
fn test_zero_session_interval_rejected() {
    let mut contract = ChildFarmingContract::new("owner.testnet".to_string());
    contract.storage_deposit("alice".to_string(), NEAR_10);
    let r = contract.create_farm(
        FarmInput {
            staking_token: "staking.token".to_string(),
            reward_tokens: vec!["reward.token".to_string()],
            lockup_period_sec: 0,
            reward_per_session: vec![100],
            session_interval_sec: 0,
            start_at_sec: 0,
        },
        "alice".to_string(),
        0,
    );
    assert_eq!(r, Err(FarmError::ZeroSessionInterval));
    assert!(contract.get_farm(0).is_none());
}

#[test]
fn test_storage_estimates() {
    // fixed overhead plus per-slot bytes
    assert_eq!(ChildFarmingContract::estimate_farm_storage(1), 184);
    assert_eq!(ChildFarmingContract::estimate_farm_storage(2), 248);
    assert_eq!(ChildFarmingContract::estimate_stake_storage(1), 96);
    assert_eq!(ChildFarmingContract::estimate_stake_storage(3), 160);
}

#[test]
fn test_list_farms_and_stakes_pagination() {
    let mut contract = ChildFarmingContract::new("owner.testnet".to_string());
    contract.storage_deposit("alice".to_string(), NEAR_10);

    for i in 0..3u64 {
        let id = contract
            .create_farm(
                FarmInput {
                    staking_token: "staking.token".to_string(),
                    reward_tokens: vec!["reward.token".to_string()],
                    lockup_period_sec: 0,
                    reward_per_session: vec![100 + i as u128],
                    session_interval_sec: 10,
                    start_at_sec: 0,
                },
                "alice".to_string(),
                0,
            )
            .unwrap();
        assert_eq!(id, i);
    }

    let all = contract.list_farms(0, 10);
    assert_eq!(all.len(), 3);
    assert_eq!(all[0].farm_id, 0);
    assert_eq!(all[2].farm_id, 2);
    assert_eq!(all[1].reward_per_session[0], 101);

    let tail = contract.list_farms(1, 1);
    assert_eq!(tail.len(), 1);
    assert_eq!(tail[0].farm_id, 1);

    assert_eq!(contract.list_farms(3, 10).len(), 0);

    // stake into farms 0 and 2, then page through alice's records
    for fid in [0u64, 2u64] {
        contract
            .ft_on_transfer(
                "alice".to_string(),
                100 + fid as u128,
                format!("STAKE:{}", fid),
                "staking.token".to_string(),
                0,
            )
            .unwrap();
    }
    let stakes = contract.list_stakes_by_user("alice".to_string(), 0, 10);
    assert_eq!(stakes.len(), 2);
    assert_eq!(stakes[0].farm_id, 0);
    assert_eq!(stakes[0].amount, 100);
    assert_eq!(stakes[1].farm_id, 2);
    assert_eq!(stakes[1].amount, 102);

    let second_page = contract.list_stakes_by_user("alice".to_string(), 1, 10);
    assert_eq!(second_page.len(), 1);
    assert_eq!(second_page[0].farm_id, 2);

    let capped = contract.list_stakes_by_user("alice".to_string(), 0, 1);
    assert_eq!(capped.len(), 1);
    assert_eq!(capped[0].farm_id, 0);

    assert_eq!(contract.list_stakes_by_user("bob".to_string(), 0, 10).len(), 0);
}

#[test]
fn test_list_farms_huge_range_saturates() {
    // a from_index + limit that would overflow clamps instead of panicking
    let mut contract = ChildFarmingContract::new("owner.testnet".to_string());
    contract.storage_deposit("alice".to_string(), NEAR_10);
    contract
        .create_farm(
            FarmInput {
                staking_token: "staking.token".to_string(),
                reward_tokens: vec!["reward.token".to_string()],
                lockup_period_sec: 0,
                reward_per_session: vec![100],
                session_interval_sec: 10,
                start_at_sec: 0,
            },
            "alice".to_string(),
            0,
        )
        .unwrap();

    assert_eq!(contract.list_farms(0, u64::MAX).len(), 1);
    assert_eq!(contract.list_farms(u64::MAX, u64::MAX).len(), 0);
}
