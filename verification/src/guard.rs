//! Decides, before a handler runs, whether it would run without a panic.
//!
//! Each handler `h` requires `can_h(..)`, the inputs on which it neither
//! overflows nor indexes out of bounds; `check_h` decides that predicate.

use crate::contract::{
    bonding_staker, can_bond, receive_bonds, can_withdraw, can_unbond, can_redeem, earned_can_take,
    first_locked_from, lemma_first_locked_from, lemma_sum_amounts_monotone, sum_amounts,
    unbonding_matured, withdrawable_count,
};
use crate::reward::{
    accrued_pending_reward, can_compute_staker_reward, check_compute_reward,
    check_compute_staker_reward, compute_reward, compute_staker_reward, rewarded_index,
};
use crate::msg::Cw20HookMsg;
use crate::state::{
    zero_amounts, Config, StakerInfo, State, UnbondingInfo,
    UserEarnedInfo,
};
use vstd::prelude::*;

verus! {

/// The state after distributing rewards up to `block_time`, and whether that
/// distribution runs without a panic.
fn rewarded_state(config: &Config, state: &State, block_time: u64) -> (result: Option<State>)
    ensures
        result is None <==> !crate::reward::can_compute_reward(*config, *state, block_time),
        result matches Some(s) ==> s.global_reward_index@ == rewarded_index(
            *config,
            *state,
            block_time,
        ),
{
    if !check_compute_reward(config, state, block_time) {
        return None;
    }
    let mut rewarded = state.duplicate();
    compute_reward(config, &mut rewarded, block_time);
    Some(rewarded)
}

/// Whether the stored redeemed totals can take `paid` without a panic.
fn check_earned_can_take(earned: &Option<UserEarnedInfo>, paid: &Vec<u128>) -> (ok: bool)
    ensures
        ok == earned_can_take(*earned, paid@),
{
    match earned {
        None => true,
        Some(e) => {
            if paid.len() > e.total_earned.len() {
                return false;
            }
            let mut i: usize = 0;
            while i < paid.len()
                invariant
                    *earned == Some(*e),
                    paid@.len() <= e.total_earned@.len(),
                    i <= paid@.len(),
                    forall|k: int| 0 <= k < i ==> e.total_earned@[k] + paid@[k] <= u128::MAX,
                decreases paid@.len() - i,
            {
                if e.total_earned[i].checked_add(paid[i]).is_none() {
                    return false;
                }
                i += 1;
            }
            true
        },
    }
}

/// Whether `bond` runs without a panic on these inputs.
pub fn check_bond(
    config: &Config,
    state: &State,
    staker: &Option<StakerInfo>,
    sender_addr: &String,
    amount: u128,
    block_time: u64,
) -> (ok: bool)
    ensures
        ok == can_bond(*config, *state, *staker, sender_addr@, amount, block_time),
{
    let rewarded = match rewarded_state(config, state, block_time) {
        Some(s) => s,
        None => {
            return false;
        },
    };
    let len = config.reward_token.len();
    let base = match staker {
        Some(s) => s.duplicate(),
        None => StakerInfo {
            address: sender_addr.clone(),
            reward_index: zero_amounts(len),
            bond_amount: 0,
            pending_reward: zero_amounts(len),
        },
    };
    assert(base@ == bonding_staker(*config, *staker, sender_addr@));
    if !check_compute_staker_reward(&rewarded, &base) {
        return false;
    }
    let mut probe = base.duplicate();
    match compute_staker_reward(&rewarded, &mut probe) {
        Err(_) => true,
        Ok(()) => state.total_bond_amount.checked_add(amount).is_some()
            && base.bond_amount.checked_add(amount).is_some(),
    }
}

/// Whether `receive_cw20` runs without a panic on these inputs: only a bond
/// it goes ahead with can panic.
pub fn check_receive_cw20(
    config: &Config,
    state: &State,
    staker: &Option<StakerInfo>,
    token_contract: &String,
    hook: &Option<Cw20HookMsg>,
    cw20_sender: &String,
    amount: u128,
    block_time: u64,
) -> (ok: bool)
    ensures
        ok == (receive_bonds(*config, token_contract@, *hook) ==> can_bond(
            *config,
            *state,
            *staker,
            cw20_sender@,
            amount,
            block_time,
        )),
{
    if hook.is_none() || config.lp_token_contract != *token_contract {
        return true;
    }
    check_bond(config, state, staker, cw20_sender, amount, block_time)
}

/// Whether `unbond` runs without a panic on these inputs.
pub fn check_unbond(
    config: &Config,
    state: &State,
    staker: &Option<StakerInfo>,
    amount: u128,
    block_time: u64,
) -> (ok: bool)
    ensures
        ok == can_unbond(*config, *state, *staker, amount, block_time),
{
    match staker {
        None => true,
        Some(s) => {
            if amount > s.bond_amount {
                return true;
            }
            match rewarded_state(config, state, block_time) {
                None => false,
                Some(rewarded) => check_compute_staker_reward(&rewarded, s),
            }
        },
    }
}

/// Whether `redeem` runs without a panic on these inputs.
pub fn check_redeem(
    config: &Config,
    state: &State,
    staker: &Option<StakerInfo>,
    earned: &Option<UserEarnedInfo>,
    block_time: u64,
) -> (ok: bool)
    ensures
        ok == can_redeem(*config, *state, *staker, *earned, block_time),
{
    match staker {
        None => true,
        Some(s) => {
            let rewarded = match rewarded_state(config, state, block_time) {
                Some(r) => r,
                None => {
                    return false;
                },
            };
            if !check_compute_staker_reward(&rewarded, s) {
                return false;
            }
            let mut probe = s.duplicate();
            match compute_staker_reward(&rewarded, &mut probe) {
                Err(_) => true,
                Ok(()) => {
                    assert(probe.pending_reward@ == accrued_pending_reward(
                        rewarded_index(*config, *state, block_time),
                        s@,
                    ));
                    check_earned_can_take(earned, &probe.pending_reward)
                        && config.reward_token.len() <= probe.pending_reward.len()
                },
            }
        },
    }
}

/// Whether `withdraw` runs without a panic on these inputs.
pub fn check_withdraw(unbonding_infos: &Vec<UnbondingInfo>, lock_duration: u64, crr_time: u64) -> (ok:
    bool)
    ensures
        ok == can_withdraw(unbonding_infos@, lock_duration, crr_time),
{
    let ghost infos = unbonding_infos@;
    let ghost k = withdrawable_count(infos, lock_duration, crr_time);
    let mut amount: u128 = 0;
    let n = unbonding_infos.len();
    let mut i: usize = 0;
    while i < n
        invariant
            n == infos.len(),
            infos == unbonding_infos@,
            k == withdrawable_count(infos, lock_duration, crr_time),
            i <= n,
            first_locked_from(infos, lock_duration, crr_time, i as nat) == k,
            forall|j: int| 0 <= j < i ==> unbonding_matured(#[trigger] infos[j], lock_duration, crr_time),
            forall|j: int| 0 <= j < i ==> #[trigger] infos[j].time + lock_duration <= u64::MAX,
            amount == sum_amounts(infos, i as int),
        decreases n - i,
    {
        if unbonding_infos[i].time.checked_add(lock_duration).is_none() {
            proof {
                lemma_first_locked_from(infos, lock_duration, crr_time, i as nat);
            }
            assert(!(infos[i as int].time + lock_duration <= u64::MAX));
            return false;
        }
        if unbonding_infos[i].time + lock_duration > crr_time {
            assert(first_locked_from(infos, lock_duration, crr_time, i as nat) == i);
            proof {
                lemma_first_locked_from(infos, lock_duration, crr_time, i as nat);
            }
            return true;
        }
        assert(first_locked_from(infos, lock_duration, crr_time, i as nat) == first_locked_from(
            infos,
            lock_duration,
            crr_time,
            (i + 1) as nat,
        ));
        match amount.checked_add(unbonding_infos[i].amount) {
            None => {
                proof {
                    lemma_first_locked_from(infos, lock_duration, crr_time, (i + 1) as nat);
                    lemma_sum_amounts_monotone(infos, i + 1, k as int);
                }
                return false;
            },
            Some(next) => {
                amount = next;
            },
        }
        i += 1;
    }
    proof {
        lemma_first_locked_from(infos, lock_duration, crr_time, n as nat);
    }
    true
}

} // verus!
