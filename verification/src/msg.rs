//! Messages the contract takes, the responses it gives and the errors it returns.

use crate::state::{Denom, Schedule};
use vstd::prelude::*;

verus! {

/// Parameters of contract instantiation.
#[derive(Clone, Debug)]
pub struct InstantiateMsg {
    pub lp_token_contract: String,
    pub reward_token: Vec<Denom>,
    pub distribution_schedule: Vec<Vec<Schedule>>,
    pub lock_duration: u64,
}

/// The message a cw20 transfer to this contract carries.
#[derive(Clone, Copy, Debug, PartialEq, Eq, Structural)]
pub enum Cw20HookMsg {
    Bond,
}

/// A subtraction of `Uint128` values that would go below zero.
#[derive(Clone, Copy, Debug, PartialEq, Eq, Structural)]
pub struct OverflowError {
    pub operand1: u128,
    pub operand2: u128,
}

/// Why a message is refused.
#[derive(Clone, Debug)]
pub enum ContractError {
    /// A `Uint128` subtraction underflowed.
    Overflow(OverflowError),
    Unauthorized,
    InvalidSchedules,
    WrongContractError,
    DataShouldBeGiven,
    NotStaked,
    ExceedBondAmount,
    NothingToRedeem,
    NewScheduleRemovePastDistribution,
    NewScheduleAddPastDistribution,
    CannotMigrate { previous_contract: String },
}

/// A token transfer the contract asks the chain to perform.
#[derive(Clone, Debug)]
pub enum Transfer {
    /// A bank send of `amount` of the native `denom`.
    Bank { to_address: String, denom: String, amount: u128 },
    /// A cw20 `Transfer { recipient, amount }` executed on `contract_addr`.
    Cw20 { contract_addr: String, recipient: String, amount: u128 },
}

/// An event attribute.
#[derive(Clone, Debug)]
pub struct Attribute {
    pub key: String,
    pub value: String,
}

/// What a handler emits: transfers to perform and event attributes.
#[derive(Clone, Debug)]
pub struct Response {
    pub messages: Vec<Transfer>,
    pub attributes: Vec<Attribute>,
}

/// `attributes` are exactly the (key, value) pairs of `expected`, in order.
pub open spec fn attributes_are(attributes: Seq<Attribute>, expected: Seq<(Seq<char>, Seq<char>)>) -> bool {
    &&& attributes.len() == expected.len()
    &&& forall|i: int|
        0 <= i < expected.len() ==> (#[trigger] attributes[i]).key@ == expected[i].0
            && attributes[i].value@ == expected[i].1
}

/// `transfer` is a cw20 `Transfer` of `amount` to `recipient` on `contract`.
pub open spec fn is_cw20_transfer(transfer: Transfer, contract: Seq<char>, recipient: Seq<char>, amount: u128) -> bool {
    &&& transfer matches Transfer::Cw20 { contract_addr, recipient: to, amount: sent }
    &&& contract_addr@ == contract
    &&& to@ == recipient
    &&& sent == amount
}

/// `transfer` pays `amount` of reward token `token` to `recipient`: a bank send
/// for a native denom, a cw20 transfer for a cw20 token.
pub open spec fn is_reward_payment(transfer: Transfer, token: Denom, recipient: Seq<char>, amount: u128) -> bool {
    match token {
        Denom::Native(denom) => {
            &&& transfer matches Transfer::Bank { to_address, denom: sent_denom, amount: sent }
            &&& to_address@ == recipient
            &&& sent_denom@ == denom@
            &&& sent == amount
        },
        Denom::Cw20(contract) => is_cw20_transfer(transfer, contract@, recipient, amount),
    }
}

/// An attribute with the given key and value.
pub fn attribute(key: &str, value: String) -> (attr: Attribute)
    ensures
        attr.key@ == key@,
        attr.value == value,
{
    Attribute { key: String::from_str(key), value }
}

/// A response with no transfers and the single attribute `("action", action)`.
pub fn action_response(action: &str) -> (response: Response)
    ensures
        response.messages@.len() == 0,
        attributes_are(response.attributes@, seq![("action"@, action@)]),
{
    let mut attributes: Vec<Attribute> = Vec::new();
    attributes.push(attribute("action", String::from_str(action)));
    Response { messages: Vec::new(), attributes }
}

} // verus!
