//! The records the staking contract keeps, and the keys they are stored under.
//!
//! `Uint128` amounts are held as `u128`; `Decimal` reward indices are held as
//! their atomic units (`u128`, 18 fractional digits); addresses as `String`.

use vstd::prelude::*;

verus! {

/// A reward token: a bank denom or the address of a cw20 contract.
#[derive(Clone, Debug, PartialEq, Eq)]
pub enum Denom {
    Native(String),
    Cw20(String),
}

/// Rewards paid out linearly between `start_time` and `end_time` (seconds).
#[derive(Clone, Copy, Debug, PartialEq, Eq, Structural, PartialOrd, Ord)]
pub struct Schedule {
    pub start_time: u64,
    pub end_time: u64,
    pub amount: u128,
}

/// Contract configuration. `reward_token[i]` is paid by the schedules in
/// `distribution_schedule[i]`.
#[derive(Clone, Debug)]
pub struct Config {
    pub lp_token_contract: String,
    pub reward_token: Vec<Denom>,
    pub distribution_schedule: Vec<Vec<Schedule>>,
    pub admin: String,
    pub lock_duration: u64,
}

/// Global reward accounting. `global_reward_index[i]` is the reward of token `i`
/// accrued per bonded unit, as `Decimal` atomics.
#[derive(Clone, Debug)]
pub struct State {
    pub last_distributed: u64,
    pub total_bond_amount: u128,
    pub global_reward_index: Vec<u128>,
}

/// A staker's bond and the rewards accrued to it but not yet redeemed.
#[derive(Clone, Debug)]
pub struct StakerInfo {
    pub address: String,
    pub reward_index: Vec<u128>,
    pub bond_amount: u128,
    pub pending_reward: Vec<u128>,
}

/// A staker as plain values.
#[verifier::ext_equal]
pub struct StakerView {
    pub address: Seq<char>,
    pub reward_index: Seq<u128>,
    pub bond_amount: u128,
    pub pending_reward: Seq<u128>,
}

impl View for StakerInfo {
    type V = StakerView;

    open spec fn view(&self) -> StakerView {
        StakerView {
            address: self.address@,
            reward_index: self.reward_index@,
            bond_amount: self.bond_amount,
            pending_reward: self.pending_reward@,
        }
    }
}

/// Rewards a user has redeemed so far, per reward token.
#[derive(Clone, Debug)]
pub struct UserEarnedInfo {
    pub address: String,
    pub total_earned: Vec<u128>,
}

/// An amount unbonded at `time`, withdrawable once the lock duration has passed.
#[derive(Clone, Debug)]
pub struct UnbondingInfo {
    pub address: String,
    pub time: u64,
    pub amount: u128,
}

/// `n` zeros.
pub open spec fn zeros(n: nat) -> Seq<u128> {
    Seq::new(n, |i: int| 0u128)
}

/// `len` zeros.
pub(crate) fn zero_amounts(len: usize) -> (amounts: Vec<u128>)
    ensures
        amounts@ == zeros(len as nat),
{
    let mut amounts: Vec<u128> = Vec::new();
    while amounts.len() < len
        invariant
            amounts.len() <= len,
            amounts@ == zeros(amounts.len() as nat),
        decreases len - amounts.len(),
    {
        amounts.push(0);
        assert(amounts@ =~= zeros(amounts.len() as nat));
    }
    amounts
}

/// A copy of `amounts`.
pub(crate) fn copy_amounts(amounts: &Vec<u128>) -> (copy: Vec<u128>)
    ensures
        copy@ == amounts@,
{
    let mut copy: Vec<u128> = Vec::new();
    let mut i: usize = 0;
    while i < amounts.len()
        invariant
            i <= amounts@.len(),
            copy@ == amounts@.subrange(0, i as int),
        decreases amounts@.len() - i,
    {
        copy.push(amounts[i]);
        i += 1;
        assert(copy@ =~= amounts@.subrange(0, i as int));
    }
    assert(amounts@.subrange(0, i as int) =~= amounts@);
    copy
}

impl State {
    /// A copy of the state.
    pub fn duplicate(&self) -> (copy: State)
        ensures
            copy.last_distributed == self.last_distributed,
            copy.total_bond_amount == self.total_bond_amount,
            copy.global_reward_index@ == self.global_reward_index@,
    {
        State {
            last_distributed: self.last_distributed,
            total_bond_amount: self.total_bond_amount,
            global_reward_index: copy_amounts(&self.global_reward_index),
        }
    }
}

impl StakerInfo {
    /// A copy of the staker.
    pub fn duplicate(&self) -> (copy: StakerInfo)
        ensures
            copy@ == self@,
    {
        StakerInfo {
            address: self.address.clone(),
            reward_index: copy_amounts(&self.reward_index),
            bond_amount: self.bond_amount,
            pending_reward: copy_amounts(&self.pending_reward),
        }
    }
}

pub type StakerInfoKey = String;

pub type UserEarnedInfoKey = String;

pub type UnbondingInfoKey = (String, u64);

/// The key a staker's `StakerInfo` is stored under: the address itself.
pub fn staker_info_key(address: &String) -> (key: StakerInfoKey)
    ensures
        key@ == address@,
{
    address.clone()
}

/// The key a user's `UserEarnedInfo` is stored under: the address itself.
pub fn user_earned_info_key(address: &String) -> (key: UserEarnedInfoKey)
    ensures
        key@ == address@,
{
    address.clone()
}

/// The key of an `UnbondingInfo`: the address and the unbonding time.
pub fn unbonding_info_key(address: &String, time: u64) -> (key: UnbondingInfoKey)
    ensures
        key.0@ == address@,
        key.1 == time,
{
    (address.clone(), time)
}

} // verus!
