//! Typed domain events the observer emits for downstream subscribers.

use vstd::prelude::*;
use crate::coin::Coin;
use crate::dec::Dec;
use crate::types::TXandResult;

verus! {

/// A transaction was observed in a block.
#[derive(Clone, Debug)]
pub struct MessageTX {
    pub tx: TXandResult,
}

/// A block reward was distributed.
#[derive(Clone, Debug)]
pub struct MessageBlockEventReward {
    pub height: u64,
    pub is_begin: bool,
    pub is_proposer: bool,
    pub validator: String,
    pub amount: Vec<Coin>,
}

/// A liveness report for a validator.
#[derive(Clone, Debug)]
pub struct MessageBlockEventLiveness {
    pub height: u64,
    pub is_begin: bool,
    pub tendermint_address: String,
    pub missed: usize,
}

/// A commission payment to a validator.
#[derive(Clone, Debug)]
pub struct MessageBlockEventCommission {
    pub height: u64,
    pub is_begin: bool,
    pub validator: String,
    pub amount: Vec<Coin>,
}

/// The chain published a new exchange rate.
#[derive(Clone, Debug)]
pub struct MessageBlockEventExchangeRate {
    pub height: u64,
    pub denom: String,
    pub exchange_rate: Dec,
}

/// A validator's submitted price drifted beyond the allowed band.
#[derive(Clone, Debug)]
pub struct MessagePriceDrift {
    pub height: u64,
    pub operator_address: String,
    pub denom: String,
    pub average: Dec,
    pub weighted_average: Dec,
    pub submitted: Dec,
    pub txhash: String,
}

/// A validator abstained on one or more denoms in a window.
#[derive(Clone, Debug)]
pub struct MessagePriceAbstain {
    pub height: u64,
    pub operator_address: String,
    pub denoms: Vec<String>,
    pub txhash: String,
}

/// The total stake bonded to a validator.
#[derive(Clone, Debug)]
pub struct MessageValidatorStakedTotal {
    pub height: u64,
    pub operator_address: String,
    pub tokens: u64,
}

/// A change in the stake bonded to a validator.
#[derive(Clone, Debug)]
pub struct MessageValidatorStakedDelta {
    pub height: u64,
    pub operator_address: String,
    pub token_delta: Dec,
}

/// A refresh of a validator's record.
#[derive(Clone, Debug)]
pub struct MessageValidator {
    pub height: u64,
    pub operator_address: String,
}

/// Severity of a validator event.
#[derive(Clone, Copy, Debug, PartialEq, Eq, Structural)]
pub enum ValidatorEventType {
    TRACE,
    DEBUG,
    INFO,
    WARN,
    ERROR,
    CRITICAL,
    PRIVATE,
    ANNOUNCE,
}

/// A severity-leveled, free-text event about a validator.
#[derive(Clone, Debug)]
pub struct MessageValidatorEvent {
    pub height: u64,
    pub operator_address: String,
    pub moniker: Option<String>,
    pub event_type: ValidatorEventType,
    pub message: String,
    pub hash: Option<String>,
}

/// A severity-leveled, free-text event not tied to a validator.
#[derive(Clone, Debug)]
pub struct MessageSendMessageEvent {
    pub height: u64,
    pub event_type: ValidatorEventType,
    pub message: String,
    pub hash: Option<String>,
}

} // verus!
