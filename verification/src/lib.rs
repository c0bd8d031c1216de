//! Fuzio LP-token staking: the reward, bonding and schedule logic of the
//! staking contract, as plain values with verified contracts.
//!
//! Chain storage, the host API and message encoding live outside this crate;
//! every handler here takes the records it reads and returns the records to
//! write together with the response to emit.

pub mod contract;
pub mod guard;
pub mod laws;
pub mod math;
pub mod msg;
pub mod reward;
pub mod schedule;
pub mod state;
