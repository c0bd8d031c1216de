//! The contract's handlers, each from the records it reads to the records it
//! writes and the response it emits.

use crate::math::{amount_to_string, decimal_digits};
use crate::msg::{
    action_response, attribute, attributes_are, is_cw20_transfer, is_reward_payment, Attribute,
    ContractError, Cw20HookMsg, InstantiateMsg, OverflowError, Response, Transfer,
};
use crate::laws::{
    accrual_makes_staker_consistent, consistent_staker_settles,
    index_growth_keeps_staker_consistent, reward_distribution_grows_index,
};
use crate::reward::{
    accrued_pending_reward, can_compute_reward, can_compute_staker_reward, compute_reward,
    compute_staker_reward, config_state_consistent, decrease_bond_amount, first_shortfall,
    increase_bond_amount, index_grows, rewarded_index, staker_consistent, staker_reward_settles,
};
use crate::schedule::assert_new_schedules;
use crate::state::{
    copy_amounts, unbonding_info_key, zero_amounts, zeros, Config, Denom, Schedule, StakerInfo,
    StakerView, State, UnbondingInfo, UnbondingInfoKey, UserEarnedInfo,
};
use vstd::prelude::*;

verus! {

/// Whether every amount is zero.
fn all_zero(amounts: &Vec<u128>) -> (all: bool)
    ensures
        all == forall|i: int| 0 <= i < amounts@.len() ==> amounts@[i] == 0,
{
    let mut i: usize = 0;
    while i < amounts.len()
        invariant
            i <= amounts@.len(),
            forall|k: int| 0 <= k < i ==> amounts@[k] == 0,
        decreases amounts@.len() - i,
    {
        if amounts[i] != 0 {
            return false;
        }
        i += 1;
    }
    true
}

/// Only the admin may change the configuration.
pub fn authcheck(config: &Config, sender: &String) -> (result: Result<(), ContractError>)
    ensures
        result is Ok <==> sender@ == config.admin@,
        result is Err ==> result matches Err(ContractError::Unauthorized),
{
    if *sender != config.admin {
        return Err(ContractError::Unauthorized);
    }
    Ok(())
}

/// Sets up the configuration and an empty reward state; the admin is the sender.
pub fn instantiate(sender: String, block_time: u64, msg: InstantiateMsg) -> (result: Result<
    (Config, State, Response),
    ContractError,
>)
    ensures
        result is Err <==> msg.reward_token@.len() != msg.distribution_schedule@.len(),
        result is Err ==> result matches Err(ContractError::InvalidSchedules),
        result matches Ok((config, state, response)) ==> {
            &&& config.lp_token_contract == msg.lp_token_contract
            &&& config.reward_token@ == msg.reward_token@
            &&& config.distribution_schedule@ == msg.distribution_schedule@
            &&& config.admin == sender
            &&& config.lock_duration == msg.lock_duration
            &&& state.last_distributed == block_time
            &&& state.total_bond_amount == 0
            &&& state.global_reward_index@ == zeros(msg.reward_token@.len())
            &&& config_state_consistent(config, state)
            &&& response.messages@.len() == 0
            &&& attributes_are(response.attributes@, seq![("action"@, "instantiate"@)])
        },
{
    if msg.reward_token.len() != msg.distribution_schedule.len() {
        return Err(ContractError::InvalidSchedules);
    }
    let len = msg.reward_token.len();
    let config = Config {
        lp_token_contract: msg.lp_token_contract,
        reward_token: msg.reward_token,
        distribution_schedule: msg.distribution_schedule,
        admin: sender,
        lock_duration: msg.lock_duration,
    };
    let state = State {
        last_distributed: block_time,
        total_bond_amount: 0,
        global_reward_index: zero_amounts(len),
    };
    Ok((config, state, action_response("instantiate")))
}

/// The staker a bond starts from: the stored one, or a fresh one with a zero
/// index and zero pending reward for every reward token.
pub open spec fn bonding_staker(config: Config, staker: Option<StakerInfo>, sender: Seq<char>) -> StakerView {
    match staker {
        Some(s) => s@,
        None => StakerView {
            address: sender,
            reward_index: zeros(config.reward_token@.len()),
            bond_amount: 0,
            pending_reward: zeros(config.reward_token@.len()),
        },
    }
}

/// The stored staker, if any, is consistent with `index`.
pub open spec fn stored_staker_consistent(index: Seq<u128>, staker: Option<StakerInfo>) -> bool {
    match staker {
        Some(s) => staker_consistent(index, s@),
        None => true,
    }
}

/// `bond` runs without a panic.
pub open spec fn can_bond(
    config: Config,
    state: State,
    staker: Option<StakerInfo>,
    sender: Seq<char>,
    amount: u128,
    block_time: u64,
) -> bool {
    let base = bonding_staker(config, staker, sender);
    let index = rewarded_index(config, state, block_time);
    &&& can_compute_reward(config, state, block_time)
    &&& can_compute_staker_reward(index, base)
    &&& staker_reward_settles(index, base) ==> state.total_bond_amount + amount <= u128::MAX
        && base.bond_amount + amount <= u128::MAX
}

/// What `bond` returns: `Ok` exactly when the staker's accrued rewards settle
/// against the distributed index, with the state and staker after
/// distribution, accrual and the added bond; otherwise the first shortfall.
pub open spec fn bond_outcome(
    config: Config,
    state: State,
    staker: Option<StakerInfo>,
    sender: Seq<char>,
    amount: u128,
    block_time: u64,
    result: Result<(State, StakerInfo, Response), ContractError>,
) -> bool {
    let base = bonding_staker(config, staker, sender);
    let index = rewarded_index(config, state, block_time);
    &&& result is Ok <==> staker_reward_settles(index, base)
    &&& result matches Err(e) ==> e matches ContractError::Overflow(o) && first_shortfall(
        index,
        base,
        o,
    )
    &&& result matches Ok((new_state, new_staker, response)) ==> {
        &&& new_state.last_distributed == block_time
        &&& new_state.total_bond_amount == state.total_bond_amount + amount
        &&& new_state.global_reward_index@ == index
        &&& new_staker@ == StakerView {
            address: base.address,
            reward_index: index,
            bond_amount: (base.bond_amount + amount) as u128,
            pending_reward: accrued_pending_reward(index, base),
        }
        &&& response.messages@.len() == 0
        &&& attributes_are(
            response.attributes@,
            seq![
                ("action"@, "bond"@),
                ("owner"@, sender),
                ("amount"@, decimal_digits(amount as nat)),
            ],
        )
        &&& index_grows(state.global_reward_index@, new_state.global_reward_index@)
        &&& new_state.total_bond_amount - new_staker.bond_amount
            == state.total_bond_amount - base.bond_amount
    }
    &&& config_state_consistent(config, state) && stored_staker_consistent(
        state.global_reward_index@,
        staker,
    ) ==> (result matches Ok((new_state, new_staker, _)) && config_state_consistent(
        config,
        new_state,
    ) && staker_consistent(new_state.global_reward_index@, new_staker@))
}

/// Bonds `amount` of LP tokens for `sender_addr`: distributes rewards up to
/// `block_time`, moves the staker's accrued rewards to pending, and adds the
/// amount to the staker's bond and to the total bond.
pub fn bond(
    config: &Config,
    state: State,
    staker: Option<StakerInfo>,
    sender_addr: String,
    amount: u128,
    block_time: u64,
) -> (result: Result<(State, StakerInfo, Response), ContractError>)
    requires
        can_bond(*config, state, staker, sender_addr@, amount, block_time),
    ensures
        bond_outcome(*config, state, staker, sender_addr@, amount, block_time, result),
{
    proof {
        let base = bonding_staker(*config, staker, sender_addr@);
        let index = rewarded_index(*config, state, block_time);
        reward_distribution_grows_index(*config, state, block_time);
        if config_state_consistent(*config, state) && stored_staker_consistent(
            state.global_reward_index@,
            staker,
        ) {
            index_growth_keeps_staker_consistent(state.global_reward_index@, index, base);
            consistent_staker_settles(index, base);
            accrual_makes_staker_consistent(index, base);
        }
    }
    let mut state = state;
    let len = config.reward_token.len();
    let mut staker_info = match staker {
        Some(s) => s,
        None => StakerInfo {
            reward_index: zero_amounts(len),
            bond_amount: 0,
            pending_reward: zero_amounts(len),
            address: sender_addr.clone(),
        },
    };
    compute_reward(config, &mut state, block_time);
    match compute_staker_reward(&state, &mut staker_info) {
        Ok(()) => {},
        Err(e) => {
            return Err(ContractError::Overflow(e));
        },
    }
    increase_bond_amount(&mut state, &mut staker_info, amount);
    let mut attributes: Vec<Attribute> = Vec::new();
    attributes.push(attribute("action", String::from_str("bond")));
    attributes.push(attribute("owner", sender_addr));
    attributes.push(attribute("amount", amount_to_string(amount)));
    Ok((state, staker_info, Response { messages: Vec::new(), attributes }))
}


/// `unbond` runs without a panic: a panic can only come once the staker is
/// found and holds at least `amount`.
pub open spec fn can_unbond(
    config: Config,
    state: State,
    staker: Option<StakerInfo>,
    amount: u128,
    block_time: u64,
) -> bool {
    match staker {
        Some(s) => amount <= s.bond_amount ==> {
            &&& can_compute_reward(config, state, block_time)
            &&& can_compute_staker_reward(rewarded_index(config, state, block_time), s@)
        },
        None => true,
    }
}

/// What `unbond` returns: errors for an unknown staker, an amount above its
/// bond, an accrual shortfall or a total bond below the amount; otherwise the
/// state and staker after distribution, accrual and the removed bond, and the
/// unbonding record.
pub open spec fn unbond_outcome(
    config: Config,
    state: State,
    staker: Option<StakerInfo>,
    sender_addr: String,
    amount: u128,
    block_time: u64,
    result: Result<(State, Option<StakerInfo>, UnbondingInfo, Response), ContractError>,
) -> bool {
    match staker {
        None => result matches Err(ContractError::NotStaked),
        Some(s) => if amount > s.bond_amount {
            result matches Err(ContractError::ExceedBondAmount)
        } else {
            let index = rewarded_index(config, state, block_time);
            let pending = accrued_pending_reward(index, s@);
            &&& !staker_reward_settles(index, s@) ==> (result matches Err(
                ContractError::Overflow(o),
            ) && first_shortfall(index, s@, o))
            &&& staker_reward_settles(index, s@) && amount > state.total_bond_amount ==> (
            result matches Err(ContractError::Overflow(o)) && o == OverflowError {
                operand1: state.total_bond_amount,
                operand2: amount,
            })
            &&& result is Ok <==> staker_reward_settles(index, s@) && amount
                <= state.total_bond_amount
            &&& result matches Ok((new_state, new_staker, unbonding, response)) ==> {
                &&& new_state.last_distributed == block_time
                &&& new_state.total_bond_amount == state.total_bond_amount - amount
                &&& new_state.global_reward_index@ == index
                &&& (new_staker is None <==> (s.bond_amount == amount && forall|i: int|
                    0 <= i < pending.len() ==> pending[i] == 0))
                &&& new_staker matches Some(n) ==> n@ == StakerView {
                    address: s.address@,
                    reward_index: index,
                    bond_amount: (s.bond_amount - amount) as u128,
                    pending_reward: pending,
                }
                &&& unbonding.address == sender_addr
                &&& unbonding.time == block_time
                &&& unbonding.amount == amount
                &&& response.messages@.len() == 0
                &&& attributes_are(
                    response.attributes@,
                    seq![
                        ("action"@, "unbond"@),
                        ("owner"@, sender_addr@),
                        ("amount"@, decimal_digits(amount as nat)),
                    ],
                )
                &&& index_grows(state.global_reward_index@, new_state.global_reward_index@)
            }
            &&& config_state_consistent(config, state) && staker_consistent(
                state.global_reward_index@,
                s@,
            ) && amount <= state.total_bond_amount ==> (result matches Ok(
                (new_state, new_staker, _, _),
            ) && config_state_consistent(config, new_state) && (new_staker matches Some(n)
                ==> staker_consistent(new_state.global_reward_index@, n@)))
        },
    }
}

/// Unbonds `amount` for `sender_addr`: distributes rewards up to `block_time`,
/// moves the staker's accrued rewards to pending, takes the amount off the
/// staker's bond and the total bond, and records it as unbonding at
/// `block_time`. The staker is dropped (`None`) once it holds neither bond nor
/// pending rewards.
pub fn unbond(
    config: &Config,
    state: State,
    staker: Option<StakerInfo>,
    sender_addr: String,
    amount: u128,
    block_time: u64,
) -> (result: Result<(State, Option<StakerInfo>, UnbondingInfo, Response), ContractError>)
    requires
        can_unbond(*config, state, staker, amount, block_time),
    ensures
        unbond_outcome(*config, state, staker, sender_addr, amount, block_time, result),
{
    proof {
        if staker is Some {
            let s = staker->0;
            if amount <= s.bond_amount {
                let index = rewarded_index(*config, state, block_time);
                reward_distribution_grows_index(*config, state, block_time);
                if config_state_consistent(*config, state) && staker_consistent(
                    state.global_reward_index@,
                    s@,
                ) {
                    index_growth_keeps_staker_consistent(state.global_reward_index@, index, s@);
                    consistent_staker_settles(index, s@);
                    accrual_makes_staker_consistent(index, s@);
                }
            }
        }
    }
    let mut state = state;
    let mut staker_info = match staker {
        Some(s) => s,
        None => {
            return Err(ContractError::NotStaked);
        },
    };
    if staker_info.bond_amount < amount {
        return Err(ContractError::ExceedBondAmount);
    }
    compute_reward(config, &mut state, block_time);
    match compute_staker_reward(&state, &mut staker_info) {
        Ok(()) => {},
        Err(e) => {
            return Err(ContractError::Overflow(e));
        },
    }
    match decrease_bond_amount(&mut state, &mut staker_info, amount) {
        Ok(()) => {},
        Err(e) => {
            return Err(ContractError::Overflow(e));
        },
    }
    let new_staker = if all_zero(&staker_info.pending_reward) && staker_info.bond_amount == 0 {
        None
    } else {
        Some(staker_info)
    };
    let unbonding = UnbondingInfo { address: sender_addr.clone(), amount, time: block_time };
    let mut attributes: Vec<Attribute> = Vec::new();
    attributes.push(attribute("action", String::from_str("unbond")));
    attributes.push(attribute("owner", sender_addr));
    attributes.push(attribute("amount", amount_to_string(amount)));
    Ok((state, new_staker, unbonding, Response { messages: Vec::new(), attributes }))
}


/// The unbonding has been locked for `lock_duration` by `now`.
pub open spec fn unbonding_matured(info: UnbondingInfo, lock_duration: u64, now: u64) -> bool {
    info.time + lock_duration <= now
}

/// Position of the first unbonding at or after `i` that has not matured
/// (the length when there is none).
pub open spec fn first_locked_from(infos: Seq<UnbondingInfo>, lock_duration: u64, now: u64, i: nat) -> nat
    decreases infos.len() - i,
{
    if i >= infos.len() {
        infos.len()
    } else if !unbonding_matured(infos[i as int], lock_duration, now) {
        i
    } else {
        first_locked_from(infos, lock_duration, now, i + 1)
    }
}

/// How many unbondings, from the first on, have matured in a row.
pub open spec fn withdrawable_count(infos: Seq<UnbondingInfo>, lock_duration: u64, now: u64) -> nat {
    first_locked_from(infos, lock_duration, now, 0)
}

/// The total amount of the first `k` unbondings.
pub open spec fn sum_amounts(infos: Seq<UnbondingInfo>, k: int) -> int
    decreases k,
{
    if k <= 0 {
        0
    } else {
        sum_amounts(infos, k - 1) + infos[k - 1].amount
    }
}

/// Prefix sums of unbonding amounts grow with the prefix.
pub(crate) proof fn lemma_sum_amounts_monotone(infos: Seq<UnbondingInfo>, j: int, k: int)
    requires
        0 <= j <= k,
    ensures
        sum_amounts(infos, j) <= sum_amounts(infos, k),
    decreases k - j,
{
    if j < k {
        lemma_sum_amounts_monotone(infos, j, k - 1);
    }
}

/// The matured run from `i` ends within the sequence, every unbonding before
/// its end has matured, and the one at its end (if any) is still locked.
pub(crate) proof fn lemma_first_locked_from(
    infos: Seq<UnbondingInfo>,
    lock_duration: u64,
    now: u64,
    i: nat,
)
    requires
        i <= infos.len(),
    ensures
        i <= first_locked_from(infos, lock_duration, now, i) <= infos.len(),
        forall|j: int|
            i <= j < first_locked_from(infos, lock_duration, now, i) ==> unbonding_matured(
                #[trigger] infos[j],
                lock_duration,
                now,
            ),
        first_locked_from(infos, lock_duration, now, i) < infos.len() ==> !unbonding_matured(
            infos[first_locked_from(infos, lock_duration, now, i) as int],
            lock_duration,
            now,
        ),
    decreases infos.len() - i,
{
    if i < infos.len() && unbonding_matured(infos[i as int], lock_duration, now) {
        lemma_first_locked_from(infos, lock_duration, now, i + 1);
    }
}

/// `withdraw` runs without a panic: the lock end of every unbonding it examines
/// fits in a `u64`, and the withdrawn total fits in a `u128`.
pub open spec fn can_withdraw(infos: Seq<UnbondingInfo>, lock_duration: u64, now: u64) -> bool {
    let k = withdrawable_count(infos, lock_duration, now);
    &&& forall|i: int|
        0 <= i < infos.len() && i <= k ==> #[trigger] infos[i].time + lock_duration <= u64::MAX
    &&& sum_amounts(infos, k as int) <= u128::MAX
}

/// Withdraws the liquidity of `sender_addr` whose unbonding lock has passed by `crr_time`:
/// walking `unbonding_infos` in order, it takes every matured one up to the
/// first that is still locked, returns their keys for removal, and pays their
/// total in LP tokens.
pub fn withdraw(
    config: &Config,
    sender_addr: String,
    unbonding_infos: Vec<UnbondingInfo>,
    crr_time: u64,
) -> (result: Result<(Vec<UnbondingInfoKey>, Response), ContractError>)
    requires
        can_withdraw(unbonding_infos@, config.lock_duration, crr_time),
    ensures
        ({
            let k = withdrawable_count(unbonding_infos@, config.lock_duration, crr_time);
            let total = sum_amounts(unbonding_infos@, k as int);
            &&& result is Err <==> total == 0
            &&& result is Err ==> (result matches Err(ContractError::NothingToRedeem))
            &&& result matches Ok((keys, response)) ==> {
                &&& keys@.len() == k
                &&& forall|j: int|
                    0 <= j < k ==> (#[trigger] keys@[j]).0@ == sender_addr@ && keys@[j].1
                        == unbonding_infos@[j].time
                &&& response.messages@.len() == 1
                &&& is_cw20_transfer(
                    response.messages@[0],
                    config.lp_token_contract@,
                    sender_addr@,
                    total as u128,
                )
                &&& attributes_are(
                    response.attributes@,
                    seq![
                        ("action"@, "withdraw"@),
                        ("owner"@, sender_addr@),
                        ("amount"@, decimal_digits(total as nat)),
                    ],
                )
            }
        }),
{
    let ghost infos = unbonding_infos@;
    let ghost lock = config.lock_duration;
    let ghost k = withdrawable_count(infos, lock, crr_time);
    proof {
        lemma_first_locked_from(infos, lock, crr_time, 0);
    }
    let mut amount: u128 = 0;
    let mut keys: Vec<UnbondingInfoKey> = Vec::new();
    let n = unbonding_infos.len();
    let mut i: usize = 0;
    while i < n
        invariant_except_break
            i <= k,
            first_locked_from(infos, lock, crr_time, i as nat) == k,
        invariant
            n == infos.len(),
            infos == unbonding_infos@,
            lock == config.lock_duration,
            k == withdrawable_count(infos, lock, crr_time),
            k <= n,
            can_withdraw(infos, lock, crr_time),
            i <= n,
            i <= k,
            amount == sum_amounts(infos, i as int),
            keys@.len() == i,
            forall|j: int|
                0 <= j < i ==> (#[trigger] keys@[j]).0@ == sender_addr@ && keys@[j].1 == infos[j].time,
        ensures
            i == k,
        decreases n - i,
    {
        assert(infos[i as int].time + lock <= u64::MAX);
        if unbonding_infos[i].time + config.lock_duration > crr_time {
            assert(first_locked_from(infos, lock, crr_time, i as nat) == i);
            break;
        }
        proof {
            assert(unbonding_matured(infos[i as int], lock, crr_time));
            assert(first_locked_from(infos, lock, crr_time, i as nat) == first_locked_from(
                infos,
                lock,
                crr_time,
                (i + 1) as nat,
            ));
            lemma_first_locked_from(infos, lock, crr_time, (i + 1) as nat);
            lemma_sum_amounts_monotone(infos, i + 1, k as int);
        }
        amount = amount + unbonding_infos[i].amount;
        keys.push(unbonding_info_key(&sender_addr, unbonding_infos[i].time));
        i += 1;
    }
    if amount == 0 {
        return Err(ContractError::NothingToRedeem);
    }
    let mut messages: Vec<Transfer> = Vec::new();
    messages.push(
        Transfer::Cw20 {
            contract_addr: config.lp_token_contract.clone(),
            recipient: sender_addr.clone(),
            amount,
        },
    );
    let mut attributes: Vec<Attribute> = Vec::new();
    attributes.push(attribute("action", String::from_str("withdraw")));
    attributes.push(attribute("owner", sender_addr));
    attributes.push(attribute("amount", amount_to_string(amount)));
    Ok((keys, Response { messages, attributes }))
}


/// The user's redeemed totals after redeeming `paid`: added to the stored
/// totals, or `paid` itself for a user without a record. Returns the address
/// and the totals.
pub open spec fn earned_after(earned: Option<UserEarnedInfo>, sender: Seq<char>, paid: Seq<u128>) -> (
    Seq<char>,
    Seq<u128>,
) {
    match earned {
        Some(e) => (
            e.address@,
            Seq::new(
                e.total_earned@.len(),
                |i: int|
                    if i < paid.len() {
                        (e.total_earned@[i] + paid[i]) as u128
                    } else {
                        e.total_earned@[i]
                    },
            ),
        ),
        None => (sender, paid),
    }
}

/// The stored redeemed totals can take `paid`: they track every paid token
/// and no total overflows.
pub open spec fn earned_can_take(earned: Option<UserEarnedInfo>, paid: Seq<u128>) -> bool {
    match earned {
        Some(e) => paid.len() <= e.total_earned@.len() && forall|i: int|
            0 <= i < paid.len() ==> e.total_earned@[i] + paid[i] <= u128::MAX,
        None => true,
    }
}

/// `redeem` runs without a panic: a panic can only come once the staker is found.
pub open spec fn can_redeem(
    config: Config,
    state: State,
    staker: Option<StakerInfo>,
    earned: Option<UserEarnedInfo>,
    block_time: u64,
) -> bool {
    match staker {
        None => true,
        Some(s) => {
            let index = rewarded_index(config, state, block_time);
            let pending = accrued_pending_reward(index, s@);
            &&& can_compute_reward(config, state, block_time)
            &&& can_compute_staker_reward(index, s@)
            &&& staker_reward_settles(index, s@) ==> earned_can_take(earned, pending)
                && config.reward_token@.len() <= pending.len()
        },
    }
}

/// What `redeem` returns: `NotStaked` for an unknown staker, the first
/// shortfall when accrual fails; otherwise the state after distribution, the
/// staker with its pending rewards cleared, the redeemed totals with the paid
/// rewards added, and one payment per reward token of its pending reward.
pub open spec fn redeem_outcome(
    config: Config,
    state: State,
    staker: Option<StakerInfo>,
    earned: Option<UserEarnedInfo>,
    sender_addr: String,
    block_time: u64,
    result: Result<(State, Option<StakerInfo>, UserEarnedInfo, Response), ContractError>,
) -> bool {
    match staker {
        None => result matches Err(ContractError::NotStaked),
        Some(s) => {
            let index = rewarded_index(config, state, block_time);
            let pending = accrued_pending_reward(index, s@);
            let totals = earned_after(earned, sender_addr@, pending);
            &&& result is Ok <==> staker_reward_settles(index, s@)
            &&& !staker_reward_settles(index, s@) ==> (result matches Err(
                ContractError::Overflow(o),
            ) && first_shortfall(index, s@, o))
            &&& result matches Ok((new_state, new_staker, new_earned, response)) ==> {
                &&& new_state.last_distributed == block_time
                &&& new_state.total_bond_amount == state.total_bond_amount
                &&& new_state.global_reward_index@ == index
                &&& (new_staker is None <==> s.bond_amount == 0)
                &&& new_staker matches Some(n) ==> n@ == StakerView {
                    address: s.address@,
                    reward_index: index,
                    bond_amount: s.bond_amount,
                    pending_reward: zeros(pending.len()),
                }
                &&& new_earned.address@ == totals.0
                &&& new_earned.total_earned@ == totals.1
                &&& response.messages@.len() == config.reward_token@.len()
                &&& forall|i: int|
                    0 <= i < config.reward_token@.len() ==> is_reward_payment(
                        #[trigger] response.messages@[i],
                        config.reward_token@[i],
                        sender_addr@,
                        pending[i],
                    )
                &&& attributes_are(
                    response.attributes@,
                    seq![("action"@, "redeem"@), ("owner"@, sender_addr@)],
                )
                &&& index_grows(state.global_reward_index@, new_state.global_reward_index@)
            }
            &&& config_state_consistent(config, state) && staker_consistent(
                state.global_reward_index@,
                s@,
            ) ==> (result matches Ok((new_state, new_staker, _, _)) && config_state_consistent(
                config,
                new_state,
            ) && (new_staker matches Some(n) ==> staker_consistent(
                new_state.global_reward_index@,
                n@,
            )))
        },
    }
}

/// Redeems the rewards of `sender_addr`: distributes rewards up to
/// `block_time`, moves the staker's accrued rewards to pending, pays out every
/// pending reward, adds it to the user's redeemed totals and clears it. The
/// staker is dropped (`None`) when it holds no bond.
pub fn redeem(
    config: &Config,
    state: State,
    staker: Option<StakerInfo>,
    earned: Option<UserEarnedInfo>,
    sender_addr: String,
    block_time: u64,
) -> (result: Result<(State, Option<StakerInfo>, UserEarnedInfo, Response), ContractError>)
    requires
        can_redeem(*config, state, staker, earned, block_time),
    ensures
        redeem_outcome(*config, state, staker, earned, sender_addr, block_time, result),
{
    proof {
        if staker is Some {
            let s = staker->0;
            let index = rewarded_index(*config, state, block_time);
            reward_distribution_grows_index(*config, state, block_time);
            if config_state_consistent(*config, state) && staker_consistent(
                state.global_reward_index@,
                s@,
            ) {
                index_growth_keeps_staker_consistent(state.global_reward_index@, index, s@);
                consistent_staker_settles(index, s@);
                accrual_makes_staker_consistent(index, s@);
            }
        }
    }
    let mut state = state;
    let mut staker_info = match staker {
        Some(s) => s,
        None => {
            return Err(ContractError::NotStaked);
        },
    };
    compute_reward(config, &mut state, block_time);
    match compute_staker_reward(&state, &mut staker_info) {
        Ok(()) => {},
        Err(e) => {
            return Err(ContractError::Overflow(e));
        },
    }
    let ghost pending = staker_info.pending_reward@;
    let new_earned = match earned {
        Some(e) => {
            let mut e = e;
            let ghost start = e.total_earned@;
            let ghost address = e.address;
            let n = staker_info.pending_reward.len();
            let mut i: usize = 0;
            while i < n
                invariant
                    staker is Some,
                    e.address == address,
                    n == pending.len(),
                    pending == staker_info.pending_reward@,
                    i <= n,
                    n <= start.len(),
                    forall|k: int| 0 <= k < n ==> start[k] + pending[k] <= u128::MAX,
                    e.total_earned@.len() == start.len(),
                    forall|k: int|
                        0 <= k < start.len() ==> e.total_earned@[k] == (if k < i {
                            (start[k] + pending[k]) as u128
                        } else {
                            start[k]
                        }),
                decreases n - i,
            {
                let total = e.total_earned[i] + staker_info.pending_reward[i];
                e.total_earned.set(i, total);
                i += 1;
            }
            assert(e.total_earned@ =~= earned_after(earned, sender_addr@, pending).1);
            e
        },
        None => UserEarnedInfo {
            address: sender_addr.clone(),
            total_earned: copy_amounts(&staker_info.pending_reward),
        },
    };
    let len = staker_info.pending_reward.len();
    let amounts = copy_amounts(&staker_info.pending_reward);
    staker_info.pending_reward = zero_amounts(len);
    let new_staker = if staker_info.bond_amount == 0 {
        None
    } else {
        Some(staker_info)
    };
    let mut messages: Vec<Transfer> = Vec::new();
    let n = config.reward_token.len();
    let mut i: usize = 0;
    while i < n
        invariant
            staker is Some,
            n == config.reward_token@.len(),
            n <= amounts@.len(),
            amounts@ == pending,
            i <= n,
            messages@.len() == i,
            forall|k: int|
                0 <= k < i ==> is_reward_payment(
                    #[trigger] messages@[k],
                    config.reward_token@[k],
                    sender_addr@,
                    pending[k],
                ),
        decreases n - i,
    {
        let message = match &config.reward_token[i] {
            Denom::Native(denom) => Transfer::Bank {
                to_address: sender_addr.clone(),
                denom: denom.clone(),
                amount: amounts[i],
            },
            Denom::Cw20(address) => Transfer::Cw20 {
                contract_addr: address.clone(),
                recipient: sender_addr.clone(),
                amount: amounts[i],
            },
        };
        messages.push(message);
        i += 1;
    }
    let mut attributes: Vec<Attribute> = Vec::new();
    attributes.push(attribute("action", String::from_str("redeem")));
    attributes.push(attribute("owner", sender_addr));
    Ok((state, new_staker, new_earned, Response { messages, attributes }))
}


/// The bond a cw20 transfer asks for may go ahead: the attached message is a
/// `Bond` and the LP token contract sent it.
pub open spec fn receive_bonds(config: Config, token_contract: Seq<char>, hook: Option<Cw20HookMsg>) -> bool {
    hook is Some && config.lp_token_contract@ == token_contract
}

/// Handles a cw20 transfer to the contract: the attached message must be a
/// `Bond`, and only the LP token contract may send it; then `cw20_sender`
/// bonds the transferred `amount` at once.
pub fn receive_cw20(
    config: &Config,
    state: State,
    staker: Option<StakerInfo>,
    token_contract: &String,
    hook: Option<Cw20HookMsg>,
    cw20_sender: String,
    amount: u128,
    block_time: u64,
) -> (result: Result<(State, StakerInfo, Response), ContractError>)
    requires
        receive_bonds(*config, token_contract@, hook) ==> can_bond(
            *config,
            state,
            staker,
            cw20_sender@,
            amount,
            block_time,
        ),
    ensures
        hook is None ==> result matches Err(ContractError::DataShouldBeGiven),
        hook is Some && config.lp_token_contract@ != token_contract@ ==> result matches Err(
            ContractError::WrongContractError,
        ),
        receive_bonds(*config, token_contract@, hook) ==> bond_outcome(
            *config,
            state,
            staker,
            cw20_sender@,
            amount,
            block_time,
            result,
        ),
{
    match hook {
        Some(Cw20HookMsg::Bond) => {
            if config.lp_token_contract != *token_contract {
                return Err(ContractError::WrongContractError);
            }
            bond(config, state, staker, cw20_sender, amount, block_time)
        },
        None => Err(ContractError::DataShouldBeGiven),
    }
}

/// Replaces the distribution schedule; only the admin may, and the new
/// schedule must pass `assert_new_schedules`.
pub fn update_config(
    config: Config,
    state: &State,
    sender: &String,
    distribution_schedule: Vec<Vec<Schedule>>,
) -> (result: Result<(Config, Response), ContractError>)
    ensures
        sender@ != config.admin@ ==> result matches Err(ContractError::Unauthorized),
        result is Ok <==> sender@ == config.admin@ && distribution_schedule@.len()
            == config.distribution_schedule@.len(),
        sender@ == config.admin@ && distribution_schedule@.len()
            != config.distribution_schedule@.len() ==> result matches Err(
            ContractError::InvalidSchedules,
        ),
        result matches Ok((new_config, response)) ==> {
            &&& new_config.lp_token_contract == config.lp_token_contract
            &&& new_config.reward_token@ == config.reward_token@
            &&& new_config.distribution_schedule@ == distribution_schedule@
            &&& new_config.admin == config.admin
            &&& new_config.lock_duration == config.lock_duration
            &&& response.messages@.len() == 0
            &&& attributes_are(response.attributes@, seq![("action"@, "update_config"@)])
            &&& config_state_consistent(config, *state) ==> config_state_consistent(
                new_config,
                *state,
            )
        },
{
    authcheck(&config, sender)?;
    let schedules = copy_schedule_lists(&distribution_schedule);
    assert_new_schedules(&config, state, schedules)?;
    let new_config = Config {
        admin: config.admin,
        lp_token_contract: config.lp_token_contract,
        reward_token: config.reward_token,
        distribution_schedule,
        lock_duration: config.lock_duration,
    };
    Ok((new_config, action_response("update_config")))
}

/// A copy of `schedules`.
fn copy_schedules(schedules: &Vec<Schedule>) -> (copy: Vec<Schedule>)
    ensures
        copy@ == schedules@,
{
    let mut copy: Vec<Schedule> = Vec::new();
    let mut i: usize = 0;
    while i < schedules.len()
        invariant
            i <= schedules@.len(),
            copy@ == schedules@.subrange(0, i as int),
        decreases schedules@.len() - i,
    {
        copy.push(schedules[i]);
        i += 1;
        assert(copy@ =~= schedules@.subrange(0, i as int));
    }
    assert(schedules@.subrange(0, i as int) =~= schedules@);
    copy
}

/// A copy of every token's schedule list.
fn copy_schedule_lists(lists: &Vec<Vec<Schedule>>) -> (copy: Vec<Vec<Schedule>>)
    ensures
        copy@.len() == lists@.len(),
        forall|i: int| 0 <= i < lists@.len() ==> (#[trigger] copy@[i])@ == lists@[i]@,
{
    let mut copy: Vec<Vec<Schedule>> = Vec::new();
    let mut i: usize = 0;
    while i < lists.len()
        invariant
            i <= lists@.len(),
            copy@.len() == i,
            forall|k: int| 0 <= k < i ==> (#[trigger] copy@[k])@ == lists@[k]@,
        decreases lists@.len() - i,
    {
        copy.push(copy_schedules(&lists[i]));
        i += 1;
    }
    copy
}

/// Hands the admin role to `address`; only the admin may.
pub fn update_admin(config: Config, sender: &String, address: String) -> (result: Result<
    (Config, Response),
    ContractError,
>)
    ensures
        result is Ok <==> sender@ == config.admin@,
        result is Err ==> result matches Err(ContractError::Unauthorized),
        result matches Ok((new_config, response)) ==> {
            &&& new_config.lp_token_contract == config.lp_token_contract
            &&& new_config.reward_token@ == config.reward_token@
            &&& new_config.distribution_schedule@ == config.distribution_schedule@
            &&& new_config.admin == address
            &&& new_config.lock_duration == config.lock_duration
            &&& response.messages@.len() == 0
            &&& attributes_are(response.attributes@, seq![("action"@, "update_admin"@)])
        },
{
    let mut config = config;
    authcheck(&config, sender)?;
    config.admin = address;
    Ok((config, action_response("update_admin")))
}

/// Replaces the LP token contract and the reward tokens; only the admin may,
/// and there must be one reward token per schedule.
pub fn update_token_contract(
    config: Config,
    sender: &String,
    lp_contract: String,
    reward_token: Vec<Denom>,
) -> (result: Result<(Config, Response), ContractError>)
    ensures
        sender@ != config.admin@ ==> result matches Err(ContractError::Unauthorized),
        sender@ == config.admin@ && reward_token@.len() != config.distribution_schedule@.len()
            ==> result matches Err(ContractError::InvalidSchedules),
        result is Ok <==> sender@ == config.admin@ && reward_token@.len()
            == config.distribution_schedule@.len(),
        result matches Ok((new_config, response)) ==> {
            &&& new_config.lp_token_contract == lp_contract
            &&& new_config.reward_token@ == reward_token@
            &&& new_config.distribution_schedule@ == config.distribution_schedule@
            &&& new_config.admin == config.admin
            &&& new_config.lock_duration == config.lock_duration
            &&& response.messages@.len() == 0
            &&& attributes_are(response.attributes@, seq![("action"@, "update_token_contract"@)])
            &&& forall|state: State|
                config_state_consistent(config, state) ==> #[trigger] config_state_consistent(
                    new_config,
                    state,
                )
        },
{
    let mut config = config;
    authcheck(&config, sender)?;
    if reward_token.len() != config.distribution_schedule.len() {
        return Err(ContractError::InvalidSchedules);
    }
    config.reward_token = reward_token;
    config.lp_token_contract = lp_contract;
    Ok((config, action_response("update_token_contract")))
}

/// Replaces the LP token contract, the reward tokens and the schedule; only the
/// admin may, and there must be one reward token per schedule. The global
/// reward index gains a zero entry for each schedule it did not yet track.
pub fn update_tokens_and_distribution(
    config: Config,
    state: State,
    sender: &String,
    lp_contract: String,
    reward_token: Vec<Denom>,
    distribution_schedule: Vec<Vec<Schedule>>,
) -> (result: Result<(Config, State, Response), ContractError>)
    ensures
        sender@ != config.admin@ ==> result matches Err(ContractError::Unauthorized),
        sender@ == config.admin@ && reward_token@.len() != distribution_schedule@.len() ==> result
            matches Err(ContractError::InvalidSchedules),
        result is Ok <==> sender@ == config.admin@ && reward_token@.len()
            == distribution_schedule@.len(),
        result matches Ok((new_config, new_state, response)) ==> {
            &&& new_config.lp_token_contract == lp_contract
            &&& new_config.reward_token@ == reward_token@
            &&& new_config.distribution_schedule@ == distribution_schedule@
            &&& new_config.admin == config.admin
            &&& new_config.lock_duration == config.lock_duration
            &&& new_state.last_distributed == state.last_distributed
            &&& new_state.total_bond_amount == state.total_bond_amount
            &&& new_state.global_reward_index@ == state.global_reward_index@ + zeros(
                if distribution_schedule@.len() > state.global_reward_index@.len() {
                    (distribution_schedule@.len() - state.global_reward_index@.len()) as nat
                } else {
                    0
                },
            )
            &&& response.messages@.len() == 0
            &&& attributes_are(response.attributes@, seq![("action"@, "update_token_contract"@)])
            &&& config_state_consistent(new_config, new_state)
            &&& index_grows(state.global_reward_index@, new_state.global_reward_index@)
        },
{
    let mut config = config;
    authcheck(&config, sender)?;
    if reward_token.len() != distribution_schedule.len() {
        return Err(ContractError::InvalidSchedules);
    }
    let target = distribution_schedule.len();
    let ghost before = state;
    let mut state = state;
    let ghost start = state.global_reward_index@;
    while state.global_reward_index.len() < target
        invariant
            state.last_distributed == before.last_distributed,
            state.total_bond_amount == before.total_bond_amount,
            start.len() <= state.global_reward_index@.len(),
            state.global_reward_index@.len() <= start.len() || state.global_reward_index@.len()
                <= target,
            state.global_reward_index@ == start + zeros(
                (state.global_reward_index@.len() - start.len()) as nat,
            ),
        decreases target - state.global_reward_index@.len(),
    {
        let ghost added = state.global_reward_index@.len() - start.len();
        state.global_reward_index.push(0);
        assert(zeros((added + 1) as nat) =~= zeros(added as nat).push(0));
    }
    config.reward_token = reward_token;
    config.lp_token_contract = lp_contract;
    config.distribution_schedule = distribution_schedule;
    Ok((config, state, action_response("update_token_contract")))
}

/// Sets the time unbonded tokens stay locked; only the admin may.
pub fn update_lock_duration(config: Config, sender: &String, lock_duration: u64) -> (result: Result<
    (Config, Response),
    ContractError,
>)
    ensures
        result is Ok <==> sender@ == config.admin@,
        result is Err ==> result matches Err(ContractError::Unauthorized),
        result matches Ok((new_config, response)) ==> {
            &&& new_config.lp_token_contract == config.lp_token_contract
            &&& new_config.reward_token@ == config.reward_token@
            &&& new_config.distribution_schedule@ == config.distribution_schedule@
            &&& new_config.admin == config.admin
            &&& new_config.lock_duration == lock_duration
            &&& response.messages@.len() == 0
            &&& attributes_are(response.attributes@, seq![("action"@, "update_lock_duration"@)])
        },
{
    let mut config = config;
    authcheck(&config, sender)?;
    config.lock_duration = lock_duration;
    Ok((config, action_response("update_lock_duration")))
}

/// Allows a migration only from a contract stored under the same name.
pub fn migrate(previous_contract: String, contract_name: &str) -> (result: Result<
    Response,
    ContractError,
>)
    ensures
        result is Ok <==> previous_contract@ == contract_name@,
        result matches Ok(response) ==> response.messages@.len() == 0
            && response.attributes@.len() == 0,
        result matches Err(e) ==> (e == (ContractError::CannotMigrate { previous_contract })),
{
    if previous_contract != String::from_str(contract_name) {
        return Err(ContractError::CannotMigrate { previous_contract });
    }
    Ok(Response { messages: Vec::new(), attributes: Vec::new() })
}

} // verus!
