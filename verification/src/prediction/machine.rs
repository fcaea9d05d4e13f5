//! The prediction market as a state machine: one call in, one reply out.

use vstd::prelude::*;
use crate::account::AccountId;
use crate::error::LedgerError;
use crate::prediction::ledger::PredictionMarket;
use crate::prediction::state::MarketLedger;
use crate::prediction::market::{odds_of, Market, Stake};

verus! {

/// A call to one of the entry points of the prediction market.
#[derive(Clone, Copy, Debug, PartialEq, Eq, Structural)]
pub enum Call {
    CreateMarket { creator: AccountId, question: u32, end_time: u64 },
    Stake { market_id: u64, staker: AccountId, amount: i128, position: bool },
    Resolve { market_id: u64, outcome: bool },
    Claim { market_id: u64, staker: AccountId },
    GetMarket { market_id: u64 },
    GetStake { market_id: u64, staker: AccountId },
    GetOdds { market_id: u64 },
}

/// What an accepted call returns.
#[derive(Clone, Copy, Debug, PartialEq, Eq, Structural)]
pub enum Reply {
    /// The id of the market that was created.
    Created(u64),
    /// The stake was placed, or the market was resolved.
    Done,
    /// The amount that the claim pays.
    Paid(i128),
    /// The record of the market.
    MarketRecord(Market),
    /// The record of the stake.
    StakeRecord(Stake),
    /// The share of the yes side in basis points.
    Odds(u32),
}

impl Call {
    /// The call only reads.
    pub open spec fn is_read(self) -> bool {
        self is GetMarket || self is GetStake || self is GetOdds
    }
}

/// The ledger after `call`, made by `caller` at clock `now`, and what the call
/// returns. A refused call leaves the ledger as it was.
pub open spec fn step(ledger: MarketLedger, caller: AccountId, call: Call, now: u64) -> (
    MarketLedger,
    Result<Reply, LedgerError>,
) {
    match call {
        Call::CreateMarket { creator, question, end_time } => match ledger.create_refusal(
            caller,
            creator,
            end_time,
            now,
        ) {
            Some(e) => (ledger, Err(e)),
            None => (
                ledger.with_market(creator, question, end_time, now),
                Ok(Reply::Created(ledger.markets.len() as u64)),
            ),
        },
        Call::Stake { market_id, staker, amount, position } => match ledger.stake_refusal(
            caller,
            market_id,
            staker,
            amount,
            position,
            now,
        ) {
            Some(e) => (ledger, Err(e)),
            None => (ledger.with_stake(market_id, staker, amount, position), Ok(Reply::Done)),
        },
        Call::Resolve { market_id, outcome } => match ledger.resolve_refusal(
            caller,
            market_id,
            outcome,
        ) {
            Some(e) => (ledger, Err(e)),
            None => (ledger.with_outcome(market_id, outcome), Ok(Reply::Done)),
        },
        Call::Claim { market_id, staker } => match ledger.claim_refusal(
            caller,
            market_id,
            staker,
        ) {
            Some(e) => (ledger, Err(e)),
            None => (
                ledger.with_claim(market_id, staker),
                Ok(Reply::Paid(ledger.claim_amount(market_id, staker) as i128)),
            ),
        },
        Call::GetMarket { market_id } => match ledger.market(market_id) {
            Some(m) => (ledger, Ok(Reply::MarketRecord(m))),
            None => (ledger, Err(LedgerError::NotFound)),
        },
        Call::GetStake { market_id, staker } => match ledger.stake(market_id, staker) {
            Some(s) => (ledger, Ok(Reply::StakeRecord(s))),
            None => (ledger, Err(LedgerError::NotFound)),
        },
        Call::GetOdds { market_id } => match ledger.market(market_id) {
            Some(m) => (
                ledger,
                Ok(Reply::Odds(odds_of(m.total_yes as int, m.total_no as int) as u32)),
            ),
            None => (ledger, Err(LedgerError::NotFound)),
        },
    }
}

impl PredictionMarket {
    /// Performs `call` for `caller` at clock `now`.
    pub fn apply(&mut self, caller: AccountId, call: Call, now: u64) -> (r: Result<
        Reply,
        LedgerError,
    >)
        requires
            old(self).wf(),
        ensures
            final(self).wf(),
            (final(self)@, r) == step(old(self)@, caller, call, now),
    {
        match call {
            Call::CreateMarket { creator, question, end_time } => {
                match self.create_market(caller, creator, question, end_time, now) {
                    Ok(id) => Ok(Reply::Created(id)),
                    Err(e) => Err(e),
                }
            },
            Call::Stake { market_id, staker, amount, position } => {
                match self.stake(caller, market_id, staker, amount, position, now) {
                    Ok(_) => Ok(Reply::Done),
                    Err(e) => Err(e),
                }
            },
            Call::Resolve { market_id, outcome } => {
                match self.resolve(caller, market_id, outcome) {
                    Ok(_) => Ok(Reply::Done),
                    Err(e) => Err(e),
                }
            },
            Call::Claim { market_id, staker } => {
                match self.claim(caller, market_id, staker) {
                    Ok(paid) => Ok(Reply::Paid(paid)),
                    Err(e) => Err(e),
                }
            },
            Call::GetMarket { market_id } => {
                match self.get_market(market_id) {
                    Ok(m) => Ok(Reply::MarketRecord(m)),
                    Err(e) => Err(e),
                }
            },
            Call::GetStake { market_id, staker } => {
                match self.get_stake(market_id, staker) {
                    Ok(s) => Ok(Reply::StakeRecord(s)),
                    Err(e) => Err(e),
                }
            },
            Call::GetOdds { market_id } => {
                match self.get_odds(market_id) {
                    Ok(bp) => Ok(Reply::Odds(bp)),
                    Err(e) => Err(e),
                }
            },
        }
    }
}

} // verus!
