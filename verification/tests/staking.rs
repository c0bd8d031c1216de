use fuzio_staking::contract::{
    authcheck, bond, instantiate, migrate, receive_cw20, withdraw, unbond, update_admin,
    update_config, update_lock_duration, update_token_contract, update_tokens_and_distribution,
    redeem,
};
use fuzio_staking::guard::{
    check_bond, check_receive_cw20, check_redeem, check_unbond, check_withdraw,
};
use fuzio_staking::msg::{ContractError, Cw20HookMsg, InstantiateMsg, Response, Transfer};
use fuzio_staking::reward::{
    check_compute_reward, check_compute_staker_reward, compute_reward, compute_staker_reward,
};
use fuzio_staking::schedule::{assert_new_schedules, check_schedule};
use fuzio_staking::state::{
    staker_info_key, unbonding_info_key, user_earned_info_key, Config, Denom, Schedule,
    StakerInfo, State, UnbondingInfo, UserEarnedInfo,
};

const ONE: u128 = 1_000_000_000_000_000_000;

fn schedule(start_time: u64, end_time: u64, amount: u128) -> Schedule {
    Schedule { start_time, end_time, amount }
}

fn config_with(schedules: Vec<Vec<Schedule>>, tokens: Vec<Denom>) -> Config {
    Config {
        lp_token_contract: "lp_token".to_string(),
        reward_token: tokens,
        distribution_schedule: schedules,
        admin: "admin".to_string(),
        lock_duration: 100,
    }
}

fn one_token_config() -> Config {
    config_with(vec![vec![schedule(0, 100, 1000)]],
        vec![Denom::Native("ufuzn".to_string())],
    )
}

fn state(last_distributed: u64, total: u128, index: Vec<u128>) -> State {
    State { last_distributed, total_bond_amount: total, global_reward_index: index }
}

fn staker(address: &str, index: Vec<u128>, bond: u128, pending: Vec<u128>) -> StakerInfo {
    StakerInfo {
        address: address.to_string(),
        reward_index: index,
        bond_amount: bond,
        pending_reward: pending,
    }
}

fn attrs(response: &Response) -> Vec<(String, String)> {
    response
        .attributes
        .iter()
        .map(|a| (a.key.clone(), a.value.clone()))
        .collect()
}

fn pairs(expected: &[(&str, &str)]) -> Vec<(String, String)> {
    expected.iter().map(|(k, v)| (k.to_string(), v.to_string())).collect()
}

#[test]
fn keys_are_built_from_the_address() {
    let address = "juno1staker".to_string();
    assert_eq!(staker_info_key(&address), address);
    assert_eq!(user_earned_info_key(&address), address);
    assert_eq!(unbonding_info_key(&address, 42), (address.clone(), 42));
}

#[test]
fn instantiate_sets_up_config_and_zero_index() {
    let msg = InstantiateMsg {
        lp_token_contract: "lp_token".to_string(),
        reward_token: vec![Denom::Native("ufuzn".to_string()), Denom::Cw20("cw20".to_string())],
        distribution_schedule: vec![vec![schedule(0, 100, 1000)], vec![schedule(10, 20, 5)]],
        lock_duration: 86400,
    };
    let (config, state, response) = instantiate("creator".to_string(), 77, msg).unwrap();
    assert_eq!(config.admin, "creator");
    assert_eq!(config.lock_duration, 86400);
    assert_eq!(config.reward_token.len(), 2);
    assert_eq!(state.last_distributed, 77);
    assert_eq!(state.total_bond_amount, 0);
    assert_eq!(state.global_reward_index, vec![0, 0]);
    assert!(response.messages.is_empty());
    assert_eq!(attrs(&response), pairs(&[("action", "instantiate")]));
}

#[test]
fn instantiate_refuses_mismatched_schedules() {
    let msg = InstantiateMsg {
        lp_token_contract: "lp_token".to_string(),
        reward_token: vec![Denom::Native("ufuzn".to_string())],
        distribution_schedule: vec![],
        lock_duration: 1,
    };
    assert!(matches!(
        instantiate("creator".to_string(), 0, msg),
        Err(ContractError::InvalidSchedules)
    ));
}

#[test]
fn compute_reward_distributes_linearly() {
    // 1000 tokens over 100 s, 50 s passed, 100 bonded: 500 tokens, 5 per unit.
    let config = one_token_config();
    let mut st = state(0, 100, vec![0]);
    assert!(check_compute_reward(&config, &st, 50));
    compute_reward(&config, &mut st, 50);
    assert_eq!(st.global_reward_index, vec![5 * ONE]);
    assert_eq!(st.last_distributed, 50);
    assert_eq!(st.total_bond_amount, 100);
}

#[test]
fn compute_reward_clips_to_schedule_window() {
    // Schedule 10..20 paying 100; distribution from 0 to 50 covers only 10 s.
    let config = config_with(vec![vec![schedule(10, 20, 100)]], vec![Denom::Native("a".into())]);
    let mut st = state(0, 3, vec![0]);
    compute_reward(&config, &mut st, 50);
    // per second 10, distributed 100, index 100 / 3 = 33.333... (18 digits, floored)
    assert_eq!(st.global_reward_index, vec![33_333_333_333_333_333_333]);
}

#[test]
fn compute_reward_skips_inactive_schedules() {
    let config = config_with(vec![vec![schedule(100, 200, 1000)], vec![schedule(0, 10, 1000)]],
        vec![Denom::Native("a".into()), Denom::Native("b".into())],
    );
    let mut st = state(20, 10, vec![7, 9]);
    compute_reward(&config, &mut st, 50);
    assert_eq!(st.global_reward_index, vec![7, 9]);
    assert_eq!(st.last_distributed, 50);
}

#[test]
fn compute_reward_with_nothing_bonded_only_moves_time() {
    let config = one_token_config();
    let mut st = state(0, 0, vec![0]);
    compute_reward(&config, &mut st, 60);
    assert_eq!(st.global_reward_index, vec![0]);
    assert_eq!(st.last_distributed, 60);
}

#[test]
fn compute_reward_again_in_same_block_adds_nothing() {
    let config = one_token_config();
    let mut st = state(0, 100, vec![0]);
    compute_reward(&config, &mut st, 50);
    let once = st.global_reward_index.clone();
    compute_reward(&config, &mut st, 50);
    assert_eq!(st.global_reward_index, once);
}

#[test]
fn check_compute_reward_detects_panics() {
    // A schedule that ends where it starts divides by zero.
    let config = config_with(vec![vec![schedule(5, 5, 10)]], vec![Denom::Native("a".into())]);
    assert!(!check_compute_reward(&config, &state(0, 1, vec![0]), 10));
    // The index lacks an entry for an active schedule.
    let config = one_token_config();
    assert!(!check_compute_reward(&config, &state(0, 1, vec![]), 10));
    // The index would overflow.
    assert!(!check_compute_reward(&config, &state(0, 1, vec![u128::MAX]), 10));
    // Nothing bonded: nothing is computed.
    assert!(check_compute_reward(&config, &state(0, 0, vec![]), 10));
}

#[test]
fn compute_staker_reward_accrues_bond_times_index_growth() {
    let st = state(0, 0, vec![5 * ONE, ONE / 2]);
    let mut s = staker("alice", vec![2 * ONE], 10, vec![7]);
    assert!(check_compute_staker_reward(&st, &s));
    compute_staker_reward(&st, &mut s).unwrap();
    assert_eq!(s.reward_index, vec![5 * ONE, ONE / 2]);
    // token 0: 10 * (5 - 2) = 30 on top of 7; token 1 (new): 10 * 0.5 = 5
    assert_eq!(s.pending_reward, vec![37, 5]);
    assert_eq!(s.bond_amount, 10);
}

#[test]
fn compute_staker_reward_is_idempotent() {
    let st = state(0, 0, vec![3 * ONE]);
    let mut s = staker("alice", vec![ONE], 4, vec![0]);
    compute_staker_reward(&st, &mut s).unwrap();
    let pending = s.pending_reward.clone();
    compute_staker_reward(&st, &mut s).unwrap();
    assert_eq!(s.pending_reward, pending);
    assert_eq!(pending, vec![8]);
}

#[test]
fn compute_staker_reward_reports_index_ahead_of_global() {
    let st = state(0, 0, vec![ONE]);
    let mut s = staker("alice", vec![2 * ONE], 10, vec![0]);
    let err = compute_staker_reward(&st, &mut s).unwrap_err();
    assert_eq!(err.operand1, 10);
    assert_eq!(err.operand2, 20);
}

#[test]
fn check_compute_staker_reward_detects_panics() {
    let st = state(0, 0, vec![ONE]);
    // More tracked tokens than the index has.
    assert!(!check_compute_staker_reward(&st, &staker("a", vec![0, 0], 1, vec![0, 0])));
    // Fewer pending amounts than tracked tokens.
    assert!(!check_compute_staker_reward(&st, &staker("a", vec![0], 1, vec![])));
    // Pending amount overflows.
    assert!(!check_compute_staker_reward(&st, &staker("a", vec![0], 1, vec![u128::MAX])));
}

#[test]
fn bond_creates_staker_and_accrues() {
    let config = one_token_config();
    let st = state(0, 100, vec![0]);
    assert!(check_bond(&config, &st, &None, &"bob".to_string(), 50, 50));
    let (st, s, response) = bond(&config, st, None, "bob".to_string(), 50, 50).unwrap();
    assert_eq!(st.global_reward_index, vec![5 * ONE]);
    assert_eq!(st.total_bond_amount, 150);
    assert_eq!(s.address, "bob");
    assert_eq!(s.bond_amount, 50);
    assert_eq!(s.reward_index, vec![5 * ONE]);
    // a fresh staker starts from a zero index and so accrues from the start
    assert_eq!(s.pending_reward, vec![0]);
    assert_eq!(attrs(&response), pairs(&[("action", "bond"), ("owner", "bob"), ("amount", "50")]));
}

#[test]
fn bond_existing_staker_accrues_then_adds() {
    let config = one_token_config();
    let st = state(0, 100, vec![0]);
    let s = staker("alice", vec![0], 100, vec![0]);
    let (st, s, response) = bond(&config, st, Some(s), "alice".to_string(), 100, 50).unwrap();
    assert_eq!(s.pending_reward, vec![500]);
    assert_eq!(s.bond_amount, 200);
    assert_eq!(st.total_bond_amount, 200);
    assert!(response.messages.is_empty());
}

#[test]
fn check_bond_detects_overflow() {
    let config = one_token_config();
    let st = state(0, u128::MAX, vec![0]);
    assert!(!check_bond(&config, &st, &None, &"bob".to_string(), 1, 0));
}

#[test]
fn unbond_refuses_unknown_staker_and_excess() {
    let config = one_token_config();
    assert!(matches!(
        unbond(&config, state(0, 10, vec![0]), None, "bob".into(), 1, 5),
        Err(ContractError::NotStaked)
    ));
    let s = staker("bob", vec![0], 10, vec![0]);
    assert!(matches!(
        unbond(&config, state(0, 10, vec![0]), Some(s), "bob".into(), 11, 5),
        Err(ContractError::ExceedBondAmount)
    ));
}

#[test]
fn unbond_reports_total_underflow() {
    let config = one_token_config();
    let s = staker("bob", vec![0], 10, vec![0]);
    match unbond(&config, state(0, 5, vec![0]), Some(s), "bob".into(), 8, 0) {
        Err(ContractError::Overflow(e)) => {
            assert_eq!(e.operand1, 5);
            assert_eq!(e.operand2, 8);
        },
        _ => panic!("expected an overflow"),
    }
}

#[test]
fn unbond_records_unbonding_and_keeps_staker_with_rewards() {
    let config = one_token_config();
    let s = staker("bob", vec![0], 100, vec![0]);
    let st = state(0, 100, vec![0]);
    assert!(check_unbond(&config, &st, &Some(s.clone()), 100, 50));
    let (st, s, unbonding, response) =
        unbond(&config, st, Some(s), "bob".into(), 100, 50).unwrap();
    assert_eq!(st.total_bond_amount, 0);
    let s = s.expect("pending rewards keep the staker");
    assert_eq!(s.bond_amount, 0);
    assert_eq!(s.pending_reward, vec![500]);
    assert_eq!(unbonding.address, "bob");
    assert_eq!(unbonding.time, 50);
    assert_eq!(unbonding.amount, 100);
    assert_eq!(attrs(&response), pairs(&[("action", "unbond"), ("owner", "bob"), ("amount", "100")]));
}

#[test]
fn unbond_drops_empty_staker() {
    let config = one_token_config();
    let s = staker("bob", vec![0], 100, vec![0]);
    // nothing has accrued at time 0
    let (_, s, _, _) = unbond(&config, state(0, 100, vec![0]), Some(s), "bob".into(), 100, 0).unwrap();
    assert!(s.is_none());
}

#[test]
fn bond_then_unbond_restores_totals() {
    let config = one_token_config();
    let (st, s, _) = bond(&config, state(0, 40, vec![0]), None, "bob".into(), 60, 10).unwrap();
    let (st, s, _, _) = unbond(&config, st, Some(s), "bob".into(), 60, 20).unwrap();
    assert_eq!(st.total_bond_amount, 40);
    assert_eq!(s.map(|s| s.bond_amount).unwrap_or(0), 0);
}

fn unbonding(time: u64, amount: u128) -> UnbondingInfo {
    UnbondingInfo { address: "bob".to_string(), time, amount }
}

#[test]
fn withdraw_pays_matured_prefix() {
    let config = one_token_config(); // lock 100
    let infos = vec![unbonding(0, 5), unbonding(50, 7), unbonding(150, 11), unbonding(10, 13)];
    assert!(check_withdraw(&infos, config.lock_duration, 160));
    let (keys, response) = withdraw(&config, "bob".into(), infos, 160).unwrap();
    // 0 and 50 have matured at 160, 150 has not, and the walk stops there
    assert_eq!(keys, vec![("bob".to_string(), 0), ("bob".to_string(), 50)]);
    assert_eq!(response.messages.len(), 1);
    match &response.messages[0] {
        Transfer::Cw20 { contract_addr, recipient, amount } => {
            assert_eq!(contract_addr, "lp_token");
            assert_eq!(recipient, "bob");
            assert_eq!(*amount, 12);
        },
        _ => panic!("expected a cw20 transfer"),
    }
    assert_eq!(attrs(&response), pairs(&[("action", "withdraw"), ("owner", "bob"), ("amount", "12")]));
}

#[test]
fn withdraw_with_nothing_matured_fails() {
    let config = one_token_config();
    assert!(matches!(
        withdraw(&config, "bob".into(), vec![unbonding(100, 5)], 150),
        Err(ContractError::NothingToRedeem)
    ));
    assert!(matches!(
        withdraw(&config, "bob".into(), vec![], 150),
        Err(ContractError::NothingToRedeem)
    ));
}

#[test]
fn check_withdraw_detects_overflow() {
    assert!(!check_withdraw(&vec![unbonding(u64::MAX, 1)], 1, 0));
    assert!(!check_withdraw(&vec![unbonding(0, u128::MAX), unbonding(0, 1)], 0, 0));
    assert!(check_withdraw(&vec![unbonding(0, u128::MAX), unbonding(5, 1)], 0, 0));
}

#[test]
fn redeem_pays_pending_rewards_per_token() {
    let config = config_with(vec![vec![schedule(0, 100, 1000)], vec![schedule(0, 100, 200)]],
        vec![Denom::Native("ufuzn".into()), Denom::Cw20("reward_cw20".into())],
    );
    let st = state(0, 100, vec![0, 0]);
    let s = staker("bob", vec![0, 0], 100, vec![1, 2]);
    let earned = UserEarnedInfo { address: "bob".into(), total_earned: vec![10, 20] };
    assert!(check_redeem(&config, &st, &Some(s.clone()), &Some(earned.clone()), 50));
    let (st, s, earned, response) =
        redeem(&config, st, Some(s), Some(earned), "bob".into(), 50).unwrap();
    assert_eq!(st.global_reward_index, vec![5 * ONE, ONE]);
    let s = s.unwrap();
    assert_eq!(s.pending_reward, vec![0, 0]);
    assert_eq!(earned.total_earned, vec![10 + 501, 20 + 102]);
    assert_eq!(response.messages.len(), 2);
    match &response.messages[0] {
        Transfer::Bank { to_address, denom, amount } => {
            assert_eq!(to_address, "bob");
            assert_eq!(denom, "ufuzn");
            assert_eq!(*amount, 501);
        },
        _ => panic!("expected a bank send"),
    }
    match &response.messages[1] {
        Transfer::Cw20 { contract_addr, recipient, amount } => {
            assert_eq!(contract_addr, "reward_cw20");
            assert_eq!(recipient, "bob");
            assert_eq!(*amount, 102);
        },
        _ => panic!("expected a cw20 transfer"),
    }
    assert_eq!(attrs(&response), pairs(&[("action", "redeem"), ("owner", "bob")]));
}

#[test]
fn redeem_first_time_records_earned_and_drops_unbonded_staker() {
    let config = one_token_config();
    let s = staker("bob", vec![0], 0, vec![9]);
    let (_, s, earned, _) = redeem(&config, state(0, 0, vec![0]), Some(s), None, "bob".into(), 10).unwrap();
    assert!(s.is_none());
    assert_eq!(earned.address, "bob");
    assert_eq!(earned.total_earned, vec![9]);
}

#[test]
fn redeem_refuses_unknown_staker() {
    let config = one_token_config();
    assert!(matches!(
        redeem(&config, state(0, 0, vec![0]), None, None, "bob".into(), 10),
        Err(ContractError::NotStaked)
    ));
}

#[test]
fn check_redeem_detects_short_earned_record() {
    // The index has grown to two tokens; the earned record tracks one.
    let config = config_with(vec![vec![schedule(0, 10, 1)], vec![schedule(0, 10, 1)]],
        vec![Denom::Native("a".into()), Denom::Native("b".into())],
    );
    let st = state(0, 0, vec![0, 0]);
    let s = staker("bob", vec![0], 1, vec![0]);
    let earned = UserEarnedInfo { address: "bob".into(), total_earned: vec![0] };
    assert!(!check_redeem(&config, &st, &Some(s), &Some(earned), 0));
}

#[test]
fn receive_cw20_accepts_only_bond_from_lp_token() {
    let config = one_token_config();
    let st = state(0, 100, vec![0]);
    let (st2, s, response) = receive_cw20(
        &config,
        st.clone(),
        None,
        &"lp_token".to_string(),
        Some(Cw20HookMsg::Bond),
        "bob".into(),
        9,
        50,
    )
    .unwrap();
    // the cw20 sender, not the token contract, is credited at once
    assert_eq!(s.address, "bob");
    assert_eq!(s.bond_amount, 9);
    assert_eq!(st2.total_bond_amount, 109);
    assert_eq!(st2.global_reward_index, vec![5 * ONE]);
    assert_eq!(attrs(&response), pairs(&[("action", "bond"), ("owner", "bob"), ("amount", "9")]));
    assert!(matches!(
        receive_cw20(
            &config,
            st.clone(),
            None,
            &"other".to_string(),
            Some(Cw20HookMsg::Bond),
            "bob".into(),
            9,
            50,
        ),
        Err(ContractError::WrongContractError)
    ));
    assert!(matches!(
        receive_cw20(&config, st, None, &"lp_token".to_string(), None, "bob".into(), 9, 50),
        Err(ContractError::DataShouldBeGiven)
    ));
}

#[test]
fn check_receive_cw20_checks_only_accepted_bonds() {
    let config = one_token_config();
    let st = state(0, u128::MAX, vec![0]);
    let lp = "lp_token".to_string();
    let bob = "bob".to_string();
    assert!(!check_receive_cw20(&config, &st, &None, &lp, &Some(Cw20HookMsg::Bond), &bob, 1, 0));
    assert!(check_receive_cw20(&config, &st, &None, &"x".to_string(), &Some(Cw20HookMsg::Bond), &bob, 1, 0));
    assert!(check_receive_cw20(&config, &st, &None, &lp, &None, &bob, 1, 0));
}

#[test]
fn admin_only_updates() {
    let config = one_token_config();
    assert!(authcheck(&config, &"admin".to_string()).is_ok());
    assert!(matches!(authcheck(&config, &"eve".to_string()), Err(ContractError::Unauthorized)));
    assert!(matches!(
        update_admin(config.clone(), &"eve".to_string(), "eve".into()),
        Err(ContractError::Unauthorized)
    ));
    assert!(matches!(
        update_lock_duration(config.clone(), &"eve".to_string(), 5),
        Err(ContractError::Unauthorized)
    ));
    let (c, r) = update_admin(config.clone(), &"admin".to_string(), "new_admin".into()).unwrap();
    assert_eq!(c.admin, "new_admin");
    assert_eq!(attrs(&r), pairs(&[("action", "update_admin")]));
    let (c, r) = update_lock_duration(config, &"admin".to_string(), 5).unwrap();
    assert_eq!(c.lock_duration, 5);
    assert_eq!(attrs(&r), pairs(&[("action", "update_lock_duration")]));
}

#[test]
fn update_config_replaces_schedule_of_same_length() {
    let config = one_token_config();
    // the current schedule has begun at 50 and is kept; a future one is added
    let st = state(50, 0, vec![0]);
    let replacement = vec![vec![schedule(0, 100, 1000), schedule(200, 300, 7)]];
    let (c, r) =
        update_config(config.clone(), &st, &"admin".to_string(), replacement.clone()).unwrap();
    assert_eq!(c.distribution_schedule, replacement);
    assert_eq!(c.admin, "admin");
    assert_eq!(c.lp_token_contract, "lp_token");
    assert_eq!(attrs(&r), pairs(&[("action", "update_config")]));
    assert!(matches!(
        update_config(config.clone(), &st, &"admin".to_string(), vec![]),
        Err(ContractError::InvalidSchedules)
    ));
    assert!(matches!(
        update_config(config, &st, &"eve".to_string(), replacement),
        Err(ContractError::Unauthorized)
    ));
}

#[test]
fn update_config_accepts_a_changed_begun_schedule() {
    // the schedule began at 0 and was last distributed at 50; it may still be changed
    let config = one_token_config();
    let st = state(50, 0, vec![0]);
    let (c, _) = update_config(config, &st, &"admin".to_string(), vec![vec![schedule(0, 100, 2000)]])
        .unwrap();
    assert_eq!(c.distribution_schedule, vec![vec![schedule(0, 100, 2000)]]);
}

#[test]
fn assert_new_schedules_checks_the_length() {
    let config = one_token_config();
    let st = state(0, 0, vec![0]);
    assert!(matches!(
        assert_new_schedules(&config, &st, vec![vec![], vec![]]),
        Err(ContractError::InvalidSchedules)
    ));
    assert!(matches!(
        assert_new_schedules(&config, &st, vec![]),
        Err(ContractError::InvalidSchedules)
    ));
}

#[test]
fn assert_new_schedules_accepts_any_lists_of_the_right_length() {
    let config = config_with(
        vec![vec![schedule(0, 100, 1000), schedule(0, 100, 1000)], vec![schedule(0, 100, 2)]],
        vec![Denom::Native("a".into()), Denom::Native("b".into())],
    );
    let st = state(10, 0, vec![0, 0]);
    // begun schedules dropped, added, swapped between tokens
    assert!(assert_new_schedules(&config, &st, vec![vec![], vec![]]).is_ok());
    assert!(assert_new_schedules(
        &config,
        &st,
        vec![vec![schedule(0, 100, 1000); 3], vec![schedule(5, 20, 1), schedule(0, 100, 1000)]],
    )
    .is_ok());
    assert!(assert_new_schedules(&config, &st, config.distribution_schedule.clone()).is_ok());
}

#[test]
fn check_schedule_passes_begun_and_future_schedules() {
    let st = state(10, 0, vec![0]);
    assert!(check_schedule(schedule(0, 100, 1), &st).is_ok());
    assert!(check_schedule(schedule(10, 100, 1), &st).is_ok());
    assert!(check_schedule(schedule(500, 600, 1), &st).is_ok());
}

#[test]
fn compute_reward_sums_every_schedule_of_a_token() {
    // two schedules of the one token: 1000 over 0..100 and 300 over 0..10
    let config = config_with(
        vec![vec![schedule(0, 100, 1000), schedule(0, 10, 300)]],
        vec![Denom::Native("a".into())],
    );
    let mut st = state(0, 100, vec![0]);
    assert!(check_compute_reward(&config, &st, 50));
    compute_reward(&config, &mut st, 50);
    // 500 + 300 distributed over a bond of 100
    assert_eq!(st.global_reward_index, vec![8 * ONE]);
}

#[test]
fn update_token_contract_needs_one_token_per_schedule() {
    let config = one_token_config();
    let (c, r) = update_token_contract(
        config.clone(),
        &"admin".to_string(),
        "lp2".into(),
        vec![Denom::Cw20("x".into())],
    )
    .unwrap();
    assert_eq!(c.lp_token_contract, "lp2");
    assert_eq!(c.reward_token, vec![Denom::Cw20("x".into())]);
    assert_eq!(attrs(&r), pairs(&[("action", "update_token_contract")]));
    assert!(matches!(
        update_token_contract(config, &"admin".to_string(), "lp2".into(), vec![]),
        Err(ContractError::InvalidSchedules)
    ));
}

#[test]
fn update_tokens_and_distribution_pads_index() {
    let config = one_token_config();
    let st = state(3, 7, vec![ONE]);
    let (c, st, r) = update_tokens_and_distribution(
        config.clone(),
        st,
        &"admin".to_string(),
        "lp2".into(),
        vec![Denom::Native("a".into()), Denom::Native("b".into()), Denom::Native("c".into())],
        vec![vec![schedule(0, 1, 1)], vec![schedule(0, 1, 1), schedule(1, 2, 3)], vec![]],
    )
    .unwrap();
    assert_eq!(c.distribution_schedule.len(), 3);
    assert_eq!(st.global_reward_index, vec![ONE, 0, 0]);
    assert_eq!(st.total_bond_amount, 7);
    assert_eq!(attrs(&r), pairs(&[("action", "update_token_contract")]));
    assert!(matches!(
        update_tokens_and_distribution(
            config,
            state(0, 0, vec![]),
            &"admin".to_string(),
            "lp2".into(),
            vec![],
            vec![vec![schedule(0, 1, 1)]],
        ),
        Err(ContractError::InvalidSchedules)
    ));
}

#[test]
fn migrate_only_from_same_contract() {
    assert!(migrate("fuzio-staking".to_string(), "fuzio-staking").is_ok());
    match migrate("other".to_string(), "fuzio-staking") {
        Err(ContractError::CannotMigrate { previous_contract }) => {
            assert_eq!(previous_contract, "other")
        },
        _ => panic!("expected CannotMigrate"),
    }
}

#[test]
fn large_amounts_format_in_decimal() {
    let config = one_token_config();
    let (_, _, r) = bond(&config, state(0, 0, vec![0]), None, "bob".into(), u128::MAX, 0).unwrap();
    assert_eq!(attrs(&r)[2].1, u128::MAX.to_string());
}

#[test]
fn schedule_pays_at_most_its_amount_over_many_distributions() {
    // 1000 over 3 s pays 333.33.. per second; each one-second distribution floors to 333.
    let config = config_with(vec![vec![schedule(0, 3, 1000)]], vec![Denom::Native("a".into())]);
    let mut st = state(0, 1, vec![0]);
    for t in [1u64, 2, 3, 10] {
        compute_reward(&config, &mut st, t);
    }
    let paid = st.global_reward_index[0] / ONE;
    assert_eq!(paid, 999);
    assert!(paid <= 1000);
}

#[test]
fn index_increment_never_overpays_the_bond() {
    let config = config_with(vec![vec![schedule(0, 10, 100)]], vec![Denom::Native("a".into())]);
    let mut st = state(0, 3, vec![0]);
    compute_reward(&config, &mut st, 10);
    let index = st.global_reward_index[0];
    assert_eq!(index, 33_333_333_333_333_333_333);
    // the whole bond of 3 is credited 99 of the 100 distributed
    let mut s = staker("all", vec![0], 3, vec![0]);
    compute_staker_reward(&st, &mut s).unwrap();
    assert_eq!(s.pending_reward, vec![99]);
}

#[test]
fn checks_detect_fixed_point_overflow() {
    // the payout per second of u128::MAX over one second exceeds a Decimal
    let config = config_with(vec![vec![schedule(0, 1, u128::MAX)]], vec![Denom::Native("a".into())]);
    assert!(!check_compute_reward(&config, &state(0, 1, vec![0]), 1));
    // a huge bond times an index above one exceeds a Uint128
    let st = state(0, 0, vec![2 * ONE]);
    assert!(!check_compute_staker_reward(&st, &staker("a", vec![0], u128::MAX, vec![0])));
}

#[test]
fn consistent_stakers_never_see_an_accrual_error() {
    // the staker's index is below the global one, as every handler leaves it
    let config = one_token_config();
    let s = staker("bob", vec![ONE], 10, vec![0]);
    let st = state(0, 10, vec![2 * ONE]);
    let (st, s, _) = bond(&config, st, Some(s), "bob".into(), 5, 30).unwrap();
    assert_eq!(s.reward_index, st.global_reward_index);
    assert!(s.reward_index[0] >= 2 * ONE);
}

#[test]
fn second_redemption_in_same_block_pays_nothing() {
    let config = one_token_config();
    let s = staker("bob", vec![0], 100, vec![0]);
    let (st, s, earned, first) =
        redeem(&config, state(0, 100, vec![0]), Some(s), None, "bob".into(), 50).unwrap();
    assert!(matches!(first.messages[0], Transfer::Bank { amount: 500, .. }));
    let (_, _, earned, second) =
        redeem(&config, st, s, Some(earned), "bob".into(), 50).unwrap();
    assert!(matches!(second.messages[0], Transfer::Bank { amount: 0, .. }));
    assert_eq!(earned.total_earned, vec![500]);
}

#[test]
fn second_withdraw_at_same_time_finds_nothing() {
    let config = one_token_config(); // lock 100
    let infos = vec![unbonding(0, 5), unbonding(10, 7), unbonding(90, 11)];
    let (keys, _) = withdraw(&config, "bob".into(), infos.clone(), 150).unwrap();
    let remaining: Vec<UnbondingInfo> =
        infos.into_iter().filter(|i| !keys.contains(&(i.address.clone(), i.time))).collect();
    assert_eq!(remaining.len(), 1);
    assert!(matches!(
        withdraw(&config, "bob".into(), remaining, 150),
        Err(ContractError::NothingToRedeem)
    ));
}


#[test]
fn second_distribution_in_same_block_changes_nothing() {
    let config = config_with(
        vec![vec![schedule(0, 100, 1000), schedule(40, 60, 7)]],
        vec![Denom::Native("a".into())],
    );
    let mut st = state(10, 30, vec![ONE]);
    compute_reward(&config, &mut st, 50);
    let once = st.clone();
    assert!(check_compute_reward(&config, &st, 50));
    compute_reward(&config, &mut st, 50);
    assert_eq!(st.last_distributed, once.last_distributed);
    assert_eq!(st.total_bond_amount, once.total_bond_amount);
    assert_eq!(st.global_reward_index, once.global_reward_index);
}

#[test]
fn bonding_twice_in_a_block_equals_bonding_the_sum() {
    let config = one_token_config();
    let alice = staker("alice", vec![0], 100, vec![3]);
    let st = state(0, 100, vec![0]);
    let (st1, s1, _) = bond(&config, st.clone(), Some(alice.clone()), "alice".into(), 30, 50).unwrap();
    let (st2, s2, _) = bond(&config, st1, Some(s1), "alice".into(), 12, 50).unwrap();
    let (st3, s3, _) = bond(&config, st, Some(alice), "alice".into(), 42, 50).unwrap();
    assert_eq!(st2.last_distributed, st3.last_distributed);
    assert_eq!(st2.total_bond_amount, st3.total_bond_amount);
    assert_eq!(st2.global_reward_index, st3.global_reward_index);
    assert_eq!(s2.bond_amount, 142);
    assert_eq!(s2.bond_amount, s3.bond_amount);
    assert_eq!(s2.reward_index, s3.reward_index);
    assert_eq!(s2.pending_reward, s3.pending_reward);
    assert_eq!(s2.pending_reward, vec![503]);
}

#[test]
fn bond_and_unbond_keep_total_equal_to_stored_bonds() {
    let config = one_token_config();
    // stored stakers: alice 60, bob 40
    let mut bonds: Vec<u128> = vec![60, 40];
    let st = state(0, 100, vec![0]);
    let bob = staker("bob", vec![0], 40, vec![0]);
    let (st, bob, _) = bond(&config, st, Some(bob), "bob".into(), 25, 10).unwrap();
    bonds[1] = bob.bond_amount;
    assert_eq!(st.total_bond_amount, bonds.iter().sum::<u128>());
    let (st, carol, _) = bond(&config, st, None, "carol".into(), 5, 20).unwrap();
    bonds.push(carol.bond_amount);
    assert_eq!(st.total_bond_amount, bonds.iter().sum::<u128>());
    let alice = staker("alice", vec![0], 60, vec![0]);
    let (st, alice, _, _) = unbond(&config, st, Some(alice), "alice".into(), 60, 30).unwrap();
    // alice keeps her accrued rewards, so she stays stored with no bond
    bonds[0] = alice.map(|a| a.bond_amount).unwrap_or(0);
    assert_eq!(st.total_bond_amount, bonds.iter().sum::<u128>());
    assert_eq!(st.total_bond_amount, 70);
}
