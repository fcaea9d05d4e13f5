//! The ledger that owns every market and every stake.

use vstd::prelude::*;
use crate::account::AccountId;
use crate::error::LedgerError;
use crate::prediction::market::{odds_of, place_stake, settle, Market, Stake, BASIS_POINTS};
use crate::prediction::state::{MarketLedger, StakeEntry};

verus! {

/// The prediction market contract: every market ever created and every stake
/// placed in one of them.
///
/// Each entry point names the identity that authorised the call; where the
/// clock matters it takes the ledger clock. A refused call changes nothing.
pub struct PredictionMarket {
    markets: Vec<Market>,
    stakes: Vec<StakeEntry>,
}

impl View for PredictionMarket {
    type V = MarketLedger;

    closed spec fn view(&self) -> MarketLedger {
        MarketLedger { markets: self.markets@, stakes: self.stakes@ }
    }
}

impl PredictionMarket {
    /// The invariant that every entry point needs and keeps.
    pub open spec fn wf(&self) -> bool {
        self@.wf()
    }

    /// A ledger without markets.
    pub fn new() -> (ledger: PredictionMarket)
        ensures
            ledger@ == MarketLedger::empty(),
            ledger.wf(),
    {
        PredictionMarket { markets: Vec::new(), stakes: Vec::new() }
    }

    /// The number of markets created so far, which is the id of the next one.
    pub fn market_count(&self) -> (n: u64)
        ensures
            n == self@.markets.len(),
    {
        self.markets.len() as u64
    }

    fn find_stake(&self, market_id: u64, staker: AccountId) -> (r: Option<usize>)
        ensures
            match r {
                Some(j) => self@.holds(market_id, staker, j as int),
                None => !self@.has_stake(market_id, staker),
            },
    {
        let mut j: usize = 0;
        while j < self.stakes.len()
            invariant
                j <= self.stakes.len(),
                forall|k: int| 0 <= k < j ==> !self@.holds(market_id, staker, k),
            decreases self.stakes.len() - j,
        {
            let entry: StakeEntry = self.stakes[j];
            if entry.market_id == market_id && entry.stake.staker == staker {
                return Some(j);
            }
            j = j + 1;
        }
        None
    }

    /// Opens a market on `question` that takes stakes until the clock passes
    /// `end_time`, and returns its id.
    ///
    /// Ids are handed out by a counter that the ledger keeps: the first market
    /// has id 0, and no id is given twice. The caller must be the creator, and
    /// `end_time` must be after `now`.
    pub fn create_market(
        &mut self,
        caller: AccountId,
        creator: AccountId,
        question: u32,
        end_time: u64,
        now: u64,
    ) -> (r: Result<u64, LedgerError>)
        requires
            old(self).wf(),
        ensures
            final(self).wf(),
            match old(self)@.create_refusal(caller, creator, end_time, now) {
                Some(e) => r == Err::<u64, LedgerError>(e) && final(self)@ == old(self)@,
                None => r == Ok::<u64, LedgerError>(old(self)@.markets.len() as u64)
                    && final(self)@ == old(self)@.with_market(creator, question, end_time, now),
            },
    {
        if caller != creator {
            return Err(LedgerError::AuthenticationFailed);
        }
        let market_id: u64 = self.markets.len() as u64;
        let market = match Market::new(market_id, question, creator, end_time, now) {
            Ok(m) => m,
            Err(e) => {
                return Err(e);
            },
        };
        self.markets.push(market);
        proof {
            old(self)@.lemma_with_market_wf(creator, question, end_time, now);
        }
        Ok(market_id)
    }

    /// Puts `amount` on `position` in market `market_id` for `staker`.
    ///
    /// A staker has one record per market. A second stake adds to the first
    /// and must be on the same side; a stake on the other side is refused with
    /// `PositionConflict`. The amount must be positive.
    pub fn stake(
        &mut self,
        caller: AccountId,
        market_id: u64,
        staker: AccountId,
        amount: i128,
        position: bool,
        now: u64,
    ) -> (r: Result<(), LedgerError>)
        requires
            old(self).wf(),
        ensures
            final(self).wf(),
            match old(self)@.stake_refusal(caller, market_id, staker, amount, position, now) {
                Some(e) => r == Err::<(), LedgerError>(e) && final(self)@ == old(self)@,
                None => r is Ok && final(self)@ == old(self)@.with_stake(
                    market_id,
                    staker,
                    amount,
                    position,
                ),
            },
    {
        if caller != staker {
            return Err(LedgerError::AuthenticationFailed);
        }
        if market_id >= self.markets.len() as u64 {
            return Err(LedgerError::NotFound);
        }
        let i: usize = market_id as usize;
        let market: Market = self.markets[i];
        let found = self.find_stake(market_id, staker);
        let existing: Option<Stake> = match found {
            Some(j) => Some(self.stakes[j].stake),
            None => None,
        };
        proof {
            match found {
                Some(j) => {
                    self@.lemma_stake_index(market_id, staker, j as int);
                    assert(self@.entry_ok(j as int));
                },
                None => {},
            }
        }
        let placed = match place_stake(&market, existing, staker, amount, position, now) {
            Ok(p) => p,
            Err(e) => {
                return Err(e);
            },
        };
        let entry = StakeEntry { market_id, stake: placed.1 };
        self.markets.set(i, placed.0);
        match found {
            Some(j) => {
                self.stakes.set(j, entry);
            },
            None => {
                self.stakes.push(entry);
            },
        }
        proof {
            old(self)@.lemma_with_stake_wf(market_id, staker, amount, position, now);
            assert(self@.markets =~= old(self)@.with_stake(
                market_id,
                staker,
                amount,
                position,
            ).markets);
            assert(self@.stakes =~= old(self)@.with_stake(
                market_id,
                staker,
                amount,
                position,
            ).stakes);
        }
        Ok(())
    }

    /// Closes market `market_id` with `outcome`. Only the creator of the
    /// market may do so, and only once.
    ///
    /// An outcome on whose side nothing is staked is refused with
    /// `UnstakedOutcome`, and the market stays open: a resolved market always
    /// has a winner to pay, and no payout divides by an empty pool.
    pub fn resolve(&mut self, caller: AccountId, market_id: u64, outcome: bool) -> (r: Result<
        (),
        LedgerError,
    >)
        requires
            old(self).wf(),
        ensures
            final(self).wf(),
            match old(self)@.resolve_refusal(caller, market_id, outcome) {
                Some(e) => r == Err::<(), LedgerError>(e) && final(self)@ == old(self)@,
                None => r is Ok && final(self)@ == old(self)@.with_outcome(market_id, outcome),
            },
    {
        if market_id >= self.markets.len() as u64 {
            return Err(LedgerError::NotFound);
        }
        let i: usize = market_id as usize;
        let market: Market = self.markets[i];
        if caller != market.creator {
            return Err(LedgerError::AuthenticationFailed);
        }
        let closed = match market.resolve(outcome) {
            Ok(m) => m,
            Err(e) => {
                return Err(e);
            },
        };
        self.markets.set(i, closed);
        proof {
            old(self)@.lemma_with_outcome_wf(caller, market_id, outcome);
            assert(self@.markets =~= old(self)@.with_outcome(market_id, outcome).markets);
        }
        Ok(())
    }

    /// Pays out the stake of `staker` in the resolved market `market_id` and
    /// returns the amount.
    ///
    /// A stake on the winning side is paid its share of the whole pool once
    /// and is then marked as claimed. A stake on the losing side is paid 0 and
    /// is not marked: claiming it again pays 0 again.
    pub fn claim(&mut self, caller: AccountId, market_id: u64, staker: AccountId) -> (r: Result<
        i128,
        LedgerError,
    >)
        requires
            old(self).wf(),
        ensures
            final(self).wf(),
            match old(self)@.claim_refusal(caller, market_id, staker) {
                Some(e) => r == Err::<i128, LedgerError>(e) && final(self)@ == old(self)@,
                None => r == Ok::<i128, LedgerError>(
                    old(self)@.claim_amount(market_id, staker) as i128,
                ) && final(self)@ == old(self)@.with_claim(market_id, staker),
            },
            r != Err::<i128, LedgerError>(LedgerError::Overflow),
    {
        if caller != staker {
            return Err(LedgerError::AuthenticationFailed);
        }
        if market_id >= self.markets.len() as u64 {
            return Err(LedgerError::NotFound);
        }
        let i: usize = market_id as usize;
        let market: Market = self.markets[i];
        if !market.resolved {
            return Err(LedgerError::NotResolved);
        }
        let j: usize = match self.find_stake(market_id, staker) {
            Some(j) => j,
            None => {
                return Err(LedgerError::NotFound);
            },
        };
        let stake: Stake = self.stakes[j].stake;
        proof {
            self@.lemma_stake_index(market_id, staker, j as int);
            assert(self@.entry_ok(j as int));
            self@.lemma_claim_fits(j as int);
        }
        let settled = match settle(&market, &stake) {
            Ok(s) => s,
            Err(e) => {
                return Err(e);
            },
        };
        self.stakes.set(j, StakeEntry { market_id, stake: settled.1 });
        proof {
            old(self)@.lemma_with_claim_wf(market_id, staker);
            assert(self@.stakes =~= old(self)@.with_claim(market_id, staker).stakes);
        }
        Ok(settled.0)
    }

    /// The record of market `market_id`.
    pub fn get_market(&self, market_id: u64) -> (r: Result<Market, LedgerError>)
        ensures
            match self@.market(market_id) {
                Some(m) => r == Ok::<Market, LedgerError>(m),
                None => r == Err::<Market, LedgerError>(LedgerError::NotFound),
            },
    {
        if market_id >= self.markets.len() as u64 {
            return Err(LedgerError::NotFound);
        }
        Ok(self.markets[market_id as usize])
    }

    /// The record of the stake of `staker` in market `market_id`.
    pub fn get_stake(&self, market_id: u64, staker: AccountId) -> (r: Result<Stake, LedgerError>)
        requires
            self.wf(),
        ensures
            match self@.stake(market_id, staker) {
                Some(s) => r == Ok::<Stake, LedgerError>(s),
                None => r == Err::<Stake, LedgerError>(LedgerError::NotFound),
            },
    {
        match self.find_stake(market_id, staker) {
            Some(j) => {
                proof {
                    self@.lemma_stake_index(market_id, staker, j as int);
                }
                Ok(self.stakes[j].stake)
            },
            None => Err(LedgerError::NotFound),
        }
    }

    /// The share of the yes side in the pool of market `market_id`, in basis
    /// points: 5000 while nothing is staked.
    pub fn get_odds(&self, market_id: u64) -> (r: Result<u32, LedgerError>)
        requires
            self.wf(),
        ensures
            match self@.market(market_id) {
                Some(m) => r == Ok::<u32, LedgerError>(
                    odds_of(m.total_yes as int, m.total_no as int) as u32,
                ),
                None => r == Err::<u32, LedgerError>(LedgerError::NotFound),
            },
            r is Ok ==> r->Ok_0 <= BASIS_POINTS,
    {
        if market_id >= self.markets.len() as u64 {
            return Err(LedgerError::NotFound);
        }
        let market: Market = self.markets[market_id as usize];
        Ok(market.odds())
    }
}

} // verus!
