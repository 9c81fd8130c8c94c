//! A custodial staking pool engine: deposits of a base asset, a liquid
//! receipt claim tracked 1:1 against principal, time-based simple-interest
//! rewards, and a card-linked "buy now, pay later" credit feature gated by
//! each depositor's stake.
//!
//! The engine is a pure function from (current pool state, decoded
//! instruction, account metadata, current time) to (new pool state,
//! side-effect requests). The surrounding host applies the state and the
//! requested transfers atomically; nothing here performs I/O.

pub mod accounts;
pub mod cards;
pub mod codec;
pub mod errors;
pub mod guard;
pub mod ids;
pub mod instruction;
pub mod laws;
pub mod pool;
pub mod processor;
pub mod rewards;
