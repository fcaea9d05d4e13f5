//! Market and stake records, and the transitions of a single record.

use vstd::prelude::*;
use crate::account::AccountId;
use crate::arith::mul_div;
use crate::error::LedgerError;

verus! {

/// Odds reported for a market that has no stakes yet, in basis points.
pub const EVEN_ODDS: u32 = 5000;

/// Basis points in the whole.
pub const BASIS_POINTS: u32 = 10000;

/// A yes/no proposition with the stakes pooled on either side.
#[derive(Clone, Copy, Debug, PartialEq, Eq, Structural)]
pub struct Market {
    pub market_id: u64,
    pub question: u32,
    pub creator: AccountId,
    pub total_yes: i128,
    pub total_no: i128,
    pub resolved: bool,
    pub outcome: bool,
    pub end_time: u64,
    pub created_at: u64,
}

/// What one staker has put on one side of one market.
#[derive(Clone, Copy, Debug, PartialEq, Eq, Structural)]
pub struct Stake {
    pub staker: AccountId,
    pub amount: i128,
    pub position: bool,
    pub claimed: bool,
}

/// A winner's share of the whole pool: `floor(amount * total_pool / winning_pool)`,
/// and 0 where nothing was staked on the winning side.
pub open spec fn payout_of(amount: int, total_pool: int, winning_pool: int) -> int {
    if winning_pool > 0 {
        (amount * total_pool) / winning_pool
    } else {
        0
    }
}

/// The share of the yes side in the whole pool, in basis points, and even odds
/// for an empty pool.
pub open spec fn odds_of(total_yes: int, total_no: int) -> int {
    if total_yes + total_no == 0 {
        EVEN_ODDS as int
    } else {
        (total_yes * BASIS_POINTS) / (total_yes + total_no)
    }
}

impl Market {
    /// Both pools are non-negative and their sum fits the amount type; the
    /// market ends after it was created; and once it is resolved, something is
    /// staked on the side that won.
    pub open spec fn wf(&self) -> bool {
        &&& 0 <= self.total_yes
        &&& 0 <= self.total_no
        &&& self.total_yes + self.total_no <= i128::MAX
        &&& self.created_at < self.end_time
        &&& self.resolved ==> self.winning_pool() > 0
    }

    /// Everything staked on the market.
    pub open spec fn pool(&self) -> int {
        self.total_yes + self.total_no
    }

    /// What is staked on the given side.
    pub open spec fn side(&self, position: bool) -> int {
        if position {
            self.total_yes as int
        } else {
            self.total_no as int
        }
    }

    /// What is staked on the side that won; meaningful once resolved.
    pub open spec fn winning_pool(&self) -> int {
        self.side(self.outcome)
    }

    /// The market as it is right after its creation.
    pub open spec fn fresh(
        market_id: u64,
        question: u32,
        creator: AccountId,
        end_time: u64,
        created_at: u64,
    ) -> Market {
        Market {
            market_id,
            question,
            creator,
            total_yes: 0,
            total_no: 0,
            resolved: false,
            outcome: false,
            end_time,
            created_at,
        }
    }

    /// The first reason, if any, for which the market refuses a stake of
    /// `amount` at clock `now`.
    pub open spec fn stake_refusal(&self, amount: i128, now: u64) -> Option<LedgerError> {
        if self.resolved {
            Some(LedgerError::AlreadyResolved)
        } else if now > self.end_time {
            Some(LedgerError::MarketEnded)
        } else if amount <= 0 {
            Some(LedgerError::InvalidAmount)
        } else if self.pool() + amount > i128::MAX {
            Some(LedgerError::Overflow)
        } else {
            None
        }
    }

    /// The market with `amount` added to the pool of `position`.
    pub open spec fn with_stake(&self, amount: i128, position: bool) -> Market {
        if position {
            Market { total_yes: (self.total_yes + amount) as i128, ..*self }
        } else {
            Market { total_no: (self.total_no + amount) as i128, ..*self }
        }
    }

    /// The first reason, if any, for which the market refuses `outcome`: it is
    /// resolved already, or nothing is staked on the side that `outcome`
    /// names, so that nobody could be paid.
    pub open spec fn outcome_refusal(&self, outcome: bool) -> Option<LedgerError> {
        if self.resolved {
            Some(LedgerError::AlreadyResolved)
        } else if self.side(outcome) <= 0 {
            Some(LedgerError::UnstakedOutcome)
        } else {
            None
        }
    }

    /// The market closed with the given outcome.
    pub open spec fn with_outcome(&self, outcome: bool) -> Market {
        Market { resolved: true, outcome, ..*self }
    }

    /// An open market without stakes, created at clock `created_at`; refused
    /// with `InvalidEndTime` unless `end_time` is after `created_at`.
    pub fn new(
        market_id: u64,
        question: u32,
        creator: AccountId,
        end_time: u64,
        created_at: u64,
    ) -> (r: Result<Market, LedgerError>)
        ensures
            end_time <= created_at ==> r == Err::<Market, LedgerError>(
                LedgerError::InvalidEndTime,
            ),
            end_time > created_at ==> r == Ok::<Market, LedgerError>(
                Market::fresh(market_id, question, creator, end_time, created_at),
            ),
            r is Ok ==> r->Ok_0.wf(),
    {
        if end_time <= created_at {
            return Err(LedgerError::InvalidEndTime);
        }
        Ok(
            Market {
                market_id,
                question,
                creator,
                total_yes: 0,
                total_no: 0,
                resolved: false,
                outcome: false,
                end_time,
                created_at,
            },
        )
    }

    /// Whether the record is well formed; a record read from elsewhere is
    /// tested with this before it is handed to a transition.
    pub fn is_well_formed(&self) -> (ok: bool)
        ensures
            ok == self.wf(),
    {
        let winning_pool: i128 = if self.outcome {
            self.total_yes
        } else {
            self.total_no
        };
        self.total_yes >= 0 && self.total_no >= 0 && self.total_no <= i128::MAX - self.total_yes
            && self.created_at < self.end_time && (!self.resolved || winning_pool > 0)
    }

    /// Adds a stake of `amount` on `position` at clock `now`.
    ///
    /// A resolved market refuses before the clock is looked at, the clock
    /// before the amount, and the amount before the size of the pool.
    pub fn accept(&self, amount: i128, position: bool, now: u64) -> (r: Result<Market, LedgerError>)
        requires
            self.wf(),
        ensures
            match self.stake_refusal(amount, now) {
                Some(e) => r == Err::<Market, LedgerError>(e),
                None => r == Ok::<Market, LedgerError>(self.with_stake(amount, position)),
            },
            r is Ok ==> r->Ok_0.wf(),
    {
        if self.resolved {
            return Err(LedgerError::AlreadyResolved);
        }
        if now > self.end_time {
            return Err(LedgerError::MarketEnded);
        }
        if amount <= 0 {
            return Err(LedgerError::InvalidAmount);
        }
        if amount > i128::MAX - self.total_yes - self.total_no {
            return Err(LedgerError::Overflow);
        }
        let mut next: Market = *self;
        if position {
            next.total_yes = self.total_yes + amount;
        } else {
            next.total_no = self.total_no + amount;
        }
        Ok(next)
    }

    /// Closes the market with `outcome`. A closed market refuses, and so does
    /// a market in which nothing is staked on the side that `outcome` names.
    pub fn resolve(&self, outcome: bool) -> (r: Result<Market, LedgerError>)
        ensures
            match self.outcome_refusal(outcome) {
                Some(e) => r == Err::<Market, LedgerError>(e),
                None => r == Ok::<Market, LedgerError>(self.with_outcome(outcome)),
            },
            self.wf() && r is Ok ==> r->Ok_0.wf(),
    {
        if self.resolved {
            return Err(LedgerError::AlreadyResolved);
        }
        let staked: i128 = if outcome {
            self.total_yes
        } else {
            self.total_no
        };
        if staked <= 0 {
            return Err(LedgerError::UnstakedOutcome);
        }
        let mut next: Market = *self;
        next.resolved = true;
        next.outcome = outcome;
        Ok(next)
    }

    /// The share of the yes side in basis points, between 0 and 10000.
    pub fn odds(&self) -> (bp: u32)
        requires
            self.wf(),
        ensures
            bp == odds_of(self.total_yes as int, self.total_no as int),
            bp <= BASIS_POINTS,
    {
        let total: i128 = self.total_yes + self.total_no;
        if total == 0 {
            return EVEN_ODDS;
        }
        let q = mul_div(self.total_yes as u128, BASIS_POINTS as u128, total as u128);
        proof {
            let y = self.total_yes as int;
            let t = total as int;
            assert(0 <= (y * 10000) / t <= 10000) by (nonlinear_arith)
                requires
                    0 <= y <= t,
                    t > 0,
            ;
        }
        match q {
            Some(bp) => bp as u32,
            None => EVEN_ODDS,
        }
    }
}

impl Stake {
    /// The amount is positive.
    pub open spec fn wf(&self) -> bool {
        self.amount > 0
    }

    /// The record of `staker` after putting `amount` on `position`, on top of
    /// what `existing` holds.
    pub open spec fn merged(
        existing: Option<Stake>,
        staker: AccountId,
        amount: i128,
        position: bool,
    ) -> Stake {
        Stake {
            staker,
            amount: match existing {
                Some(s) => (s.amount + amount) as i128,
                None => amount,
            },
            position,
            claimed: false,
        }
    }

    /// The first reason, if any, for which `amount` on `position` cannot be
    /// put on top of `existing`.
    pub open spec fn merge_refusal(existing: Option<Stake>, amount: i128, position: bool) -> Option<
        LedgerError,
    > {
        match existing {
            Some(s) => if s.position != position {
                Some(LedgerError::PositionConflict)
            } else if s.amount + amount > i128::MAX {
                Some(LedgerError::Overflow)
            } else {
                None
            },
            None => None,
        }
    }

    /// The stake once its winnings are paid; a losing stake stays as it is.
    pub open spec fn settled(&self, outcome: bool) -> Stake {
        if self.position == outcome {
            Stake { claimed: true, ..*self }
        } else {
            *self
        }
    }

    /// Whether the record is well formed.
    pub fn is_well_formed(&self) -> (ok: bool)
        ensures
            ok == self.wf(),
    {
        self.amount > 0
    }
}

/// The first reason, if any, for which a stake of `amount` on `position` is
/// refused, given the market and what the staker already holds in it.
pub open spec fn place_refusal(
    market: Market,
    existing: Option<Stake>,
    amount: i128,
    position: bool,
    now: u64,
) -> Option<LedgerError> {
    if market.resolved {
        Some(LedgerError::AlreadyResolved)
    } else if now > market.end_time {
        Some(LedgerError::MarketEnded)
    } else if amount <= 0 {
        Some(LedgerError::InvalidAmount)
    } else if existing is Some && existing->Some_0.position != position {
        Some(LedgerError::PositionConflict)
    } else if market.pool() + amount > i128::MAX {
        Some(LedgerError::Overflow)
    } else if existing is Some && existing->Some_0.amount + amount > i128::MAX {
        Some(LedgerError::Overflow)
    } else {
        None
    }
}

/// Places a stake: the market's pool grows by `amount`, and the staker's
/// record holds what it held before plus `amount`.
///
/// A second stake by the same staker adds to the first; it must be on the same
/// side. The checks come in this order: resolved, clock, amount, side, size.
pub fn place_stake(
    market: &Market,
    existing: Option<Stake>,
    staker: AccountId,
    amount: i128,
    position: bool,
    now: u64,
) -> (r: Result<(Market, Stake), LedgerError>)
    requires
        market.wf(),
        existing is Some ==> existing->Some_0.wf(),
    ensures
        match place_refusal(*market, existing, amount, position, now) {
            Some(e) => r == Err::<(Market, Stake), LedgerError>(e),
            None => r == Ok::<(Market, Stake), LedgerError>(
                (
                    market.with_stake(amount, position),
                    Stake::merged(existing, staker, amount, position),
                ),
            ),
        },
        r is Ok ==> r->Ok_0.0.wf() && r->Ok_0.1.wf(),
{
    if market.resolved {
        return Err(LedgerError::AlreadyResolved);
    }
    if now > market.end_time {
        return Err(LedgerError::MarketEnded);
    }
    if amount <= 0 {
        return Err(LedgerError::InvalidAmount);
    }
    let mut held: i128 = 0;
    match existing {
        Some(s) => {
            if s.position != position {
                return Err(LedgerError::PositionConflict);
            }
            held = s.amount;
        },
        None => {},
    }
    let next = match market.accept(amount, position, now) {
        Ok(m) => m,
        Err(e) => {
            return Err(e);
        },
    };
    if amount > i128::MAX - held {
        return Err(LedgerError::Overflow);
    }
    let stake = Stake { staker, amount: held + amount, position, claimed: false };
    Ok((next, stake))
}

/// The settlement calculator: a winner's share of the whole pool.
///
/// The share is `floor(amount * total_pool / winning_pool)`, computed exactly
/// even where the product exceeds 128 bits. An empty winning pool pays 0
/// instead of dividing by zero. A share that does not fit the amount type is
/// refused with `Overflow`; that cannot happen while `amount` is at most
/// `winning_pool`, which in turn is at most `total_pool`.
pub fn payout(amount: i128, total_pool: i128, winning_pool: i128) -> (r: Result<i128, LedgerError>)
    requires
        0 <= amount,
        0 <= total_pool,
        0 <= winning_pool,
    ensures
        payout_of(amount as int, total_pool as int, winning_pool as int) <= i128::MAX ==> r == Ok::<
            i128,
            LedgerError,
        >(payout_of(amount as int, total_pool as int, winning_pool as int) as i128),
        payout_of(amount as int, total_pool as int, winning_pool as int) > i128::MAX ==> r == Err::<
            i128,
            LedgerError,
        >(LedgerError::Overflow),
{
    if winning_pool == 0 {
        return Ok(0);
    }
    match mul_div(amount as u128, total_pool as u128, winning_pool as u128) {
        Some(q) => if q <= i128::MAX as u128 {
            Ok(q as i128)
        } else {
            Err(LedgerError::Overflow)
        },
        None => Err(LedgerError::Overflow),
    }
}

/// The first reason, if any, for which the stake cannot be settled.
pub open spec fn settle_refusal(market: Market, stake: Stake) -> Option<LedgerError> {
    if !market.resolved {
        Some(LedgerError::NotResolved)
    } else if stake.claimed {
        Some(LedgerError::AlreadyClaimed)
    } else if stake.position == market.outcome && payout_of(
        stake.amount as int,
        market.pool(),
        market.winning_pool(),
    ) > i128::MAX {
        Some(LedgerError::Overflow)
    } else {
        None
    }
}

/// The first reason, if any, for which a claim is refused, given the market
/// and the staker's record in it, if there is one. Whether the market is
/// resolved is looked at before whether the staker has a record.
pub open spec fn claim_record_refusal(market: Market, stake: Option<Stake>) -> Option<LedgerError> {
    if !market.resolved {
        Some(LedgerError::NotResolved)
    } else {
        match stake {
            None => Some(LedgerError::NotFound),
            Some(s) => settle_refusal(market, s),
        }
    }
}

/// What settling the stake pays: nothing to the losing side, the proportional
/// share to the winning side.
pub open spec fn settle_amount(market: Market, stake: Stake) -> int {
    if stake.position == market.outcome {
        payout_of(stake.amount as int, market.pool(), market.winning_pool())
    } else {
        0
    }
}

/// Settles one stake against its resolved market: returns the payout and the
/// stake as it is to be kept.
///
/// A losing stake pays 0 and is returned unchanged, so settling it again pays
/// 0 again. A winning stake is paid once and comes back marked as claimed.
pub fn settle(market: &Market, stake: &Stake) -> (r: Result<(i128, Stake), LedgerError>)
    requires
        market.wf(),
        stake.wf(),
    ensures
        match settle_refusal(*market, *stake) {
            Some(e) => r == Err::<(i128, Stake), LedgerError>(e),
            None => r == Ok::<(i128, Stake), LedgerError>(
                (settle_amount(*market, *stake) as i128, stake.settled(market.outcome)),
            ),
        },
{
    if !market.resolved {
        return Err(LedgerError::NotResolved);
    }
    if stake.claimed {
        return Err(LedgerError::AlreadyClaimed);
    }
    if stake.position != market.outcome {
        return Ok((0, *stake));
    }
    let total_pool: i128 = market.total_yes + market.total_no;
    let winning_pool: i128 = if market.outcome {
        market.total_yes
    } else {
        market.total_no
    };
    match payout(stake.amount, total_pool, winning_pool) {
        Ok(winnings) => {
            let mut paid: Stake = *stake;
            paid.claimed = true;
            Ok((winnings, paid))
        },
        Err(e) => Err(e),
    }
}

/// Settles the claim of a staker against the market, given the staker's
/// record in it, if there is one: returns the payout and the stake as it is to
/// be kept.
pub fn claim_stake(market: &Market, stake: Option<Stake>) -> (r: Result<(i128, Stake), LedgerError>)
    requires
        market.wf(),
        stake is Some ==> stake->Some_0.wf(),
    ensures
        match claim_record_refusal(*market, stake) {
            Some(e) => r == Err::<(i128, Stake), LedgerError>(e),
            None => r == Ok::<(i128, Stake), LedgerError>(
                (
                    settle_amount(*market, stake->Some_0) as i128,
                    stake->Some_0.settled(market.outcome),
                ),
            ),
        },
{
    if !market.resolved {
        return Err(LedgerError::NotResolved);
    }
    match stake {
        Some(s) => settle(market, &s),
        None => Err(LedgerError::NotFound),
    }
}

} // verus!
