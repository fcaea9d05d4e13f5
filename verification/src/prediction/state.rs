//! The state of the prediction market as a mathematical value, its
//! transitions, and the proofs that they keep its invariant.

use vstd::prelude::*;
use crate::account::AccountId;
use crate::error::LedgerError;
use crate::prediction::market::{
    claim_record_refusal, place_refusal, settle_amount, Market, Stake,
};

verus! {


/// A stake together with the market it belongs to.
#[derive(Clone, Copy, Debug, PartialEq, Eq, Structural)]
pub struct StakeEntry {
    pub market_id: u64,
    pub stake: Stake,
}

/// What the entry adds to the pool of `position` in market `market_id`.
pub open spec fn entry_weight(entry: StakeEntry, market_id: u64, position: bool) -> int {
    if entry.market_id == market_id && entry.stake.position == position {
        entry.stake.amount as int
    } else {
        0
    }
}

/// The sum of the amounts that `stakes` hold on `position` in market
/// `market_id`.
pub open spec fn side_total(stakes: Seq<StakeEntry>, market_id: u64, position: bool) -> int
    decreases stakes.len(),
{
    if stakes.len() == 0 {
        0
    } else {
        side_total(stakes.drop_last(), market_id, position) + entry_weight(
            stakes.last(),
            market_id,
            position,
        )
    }
}

/// The state of the ledger: the markets in the order of their creation, and
/// the stakes in the order in which their stakers first staked.
pub struct MarketLedger {
    pub markets: Seq<Market>,
    pub stakes: Seq<StakeEntry>,
}

impl MarketLedger {
    /// The ledger without markets.
    pub open spec fn empty() -> MarketLedger {
        MarketLedger { markets: Seq::empty(), stakes: Seq::empty() }
    }

    /// The market with the given id, if it exists.
    pub open spec fn market(self, market_id: u64) -> Option<Market> {
        if market_id < self.markets.len() {
            Some(self.markets[market_id as int])
        } else {
            None
        }
    }

    /// Entry `j` is the stake of `staker` in market `market_id`.
    pub open spec fn holds(self, market_id: u64, staker: AccountId, j: int) -> bool {
        &&& 0 <= j < self.stakes.len()
        &&& self.stakes[j].market_id == market_id
        &&& self.stakes[j].stake.staker == staker
    }

    /// `staker` has a stake in market `market_id`.
    pub open spec fn has_stake(self, market_id: u64, staker: AccountId) -> bool {
        exists|j: int| self.holds(market_id, staker, j)
    }

    /// Where the stake of `staker` in market `market_id` stands.
    pub open spec fn stake_index(self, market_id: u64, staker: AccountId) -> int {
        choose|j: int| self.holds(market_id, staker, j)
    }

    /// The stake of `staker` in market `market_id`, if there is one.
    pub open spec fn stake(self, market_id: u64, staker: AccountId) -> Option<Stake> {
        if self.has_stake(market_id, staker) {
            Some(self.stakes[self.stake_index(market_id, staker)].stake)
        } else {
            None
        }
    }

    /// The record of market `i` and the stakes agree: each pool is the sum of
    /// the stakes on its side.
    pub open spec fn pools_match(self, i: int) -> bool {
        &&& self.markets[i].total_yes == side_total(self.stakes, i as u64, true)
        &&& self.markets[i].total_no == side_total(self.stakes, i as u64, false)
    }

    /// Entry `j` is a positive stake in an existing market, and is marked as
    /// claimed only if it is on the winning side of a resolved market.
    pub open spec fn entry_ok(self, j: int) -> bool {
        &&& self.stakes[j].market_id < self.markets.len()
        &&& self.stakes[j].stake.wf()
        &&& self.stakes[j].stake.claimed ==> {
            &&& self.markets[self.stakes[j].market_id as int].resolved
            &&& self.markets[self.stakes[j].market_id as int].outcome
                == self.stakes[j].stake.position
        }
    }

    /// No staker has two records in one market.
    pub open spec fn one_record_each(self) -> bool {
        forall|j: int, k: int|
            0 <= j < k < self.stakes.len() ==> !({
                &&& (#[trigger] self.stakes[j]).market_id == (#[trigger] self.stakes[k]).market_id
                &&& self.stakes[j].stake.staker == self.stakes[k].stake.staker
            })
    }

    /// The invariant of the ledger.
    ///
    /// Market ids count up from 0 in the order of creation; every market
    /// record is well formed and its pools are the sums of its stakes; every
    /// stake is positive and belongs to a market; no staker has two records in
    /// one market.
    pub open spec fn wf(self) -> bool {
        &&& forall|i: int|
            0 <= i < self.markets.len() ==> {
                &&& (#[trigger] self.markets[i]).market_id == i
                &&& self.markets[i].wf()
            }
        &&& forall|i: int| 0 <= i < self.markets.len() ==> #[trigger] self.pools_match(i)
        &&& forall|j: int| 0 <= j < self.stakes.len() ==> #[trigger] self.entry_ok(j)
        &&& self.one_record_each()
    }

    /// The first reason, if any, for which a market cannot be created: the
    /// caller must be the creator, and the market must end after `now`.
    pub open spec fn create_refusal(
        self,
        caller: AccountId,
        creator: AccountId,
        end_time: u64,
        now: u64,
    ) -> Option<LedgerError> {
        if caller != creator {
            Some(LedgerError::AuthenticationFailed)
        } else if end_time <= now {
            Some(LedgerError::InvalidEndTime)
        } else {
            None
        }
    }

    /// The ledger with one more market, opened by `creator`.
    pub open spec fn with_market(
        self,
        creator: AccountId,
        question: u32,
        end_time: u64,
        now: u64,
    ) -> MarketLedger {
        MarketLedger {
            markets: self.markets.push(
                Market::fresh(self.markets.len() as u64, question, creator, end_time, now),
            ),
            stakes: self.stakes,
        }
    }

    /// The first reason, if any, for which a stake is refused.
    ///
    /// The caller must be the staker; then the market must exist; then the
    /// market and the staker's record decide.
    pub open spec fn stake_refusal(
        self,
        caller: AccountId,
        market_id: u64,
        staker: AccountId,
        amount: i128,
        position: bool,
        now: u64,
    ) -> Option<LedgerError> {
        if caller != staker {
            Some(LedgerError::AuthenticationFailed)
        } else {
            match self.market(market_id) {
                None => Some(LedgerError::NotFound),
                Some(m) => place_refusal(
                    m,
                    self.stake(market_id, staker),
                    amount,
                    position,
                    now,
                ),
            }
        }
    }

    /// The ledger after `staker` has put `amount` on `position` in market
    /// `market_id`: the pool has grown, and the staker's record holds the sum
    /// of what they staked.
    pub open spec fn with_stake(
        self,
        market_id: u64,
        staker: AccountId,
        amount: i128,
        position: bool,
    ) -> MarketLedger {
        let entry = StakeEntry {
            market_id,
            stake: Stake::merged(self.stake(market_id, staker), staker, amount, position),
        };
        MarketLedger {
            markets: self.markets.update(
                market_id as int,
                self.markets[market_id as int].with_stake(amount, position),
            ),
            stakes: if self.has_stake(market_id, staker) {
                self.stakes.update(self.stake_index(market_id, staker), entry)
            } else {
                self.stakes.push(entry)
            },
        }
    }

    /// The first reason, if any, for which an outcome is refused.
    ///
    /// The market must exist; then the caller must be its creator; then the
    /// market must be open; then something must be staked on the side that
    /// `outcome` names.
    pub open spec fn resolve_refusal(
        self,
        caller: AccountId,
        market_id: u64,
        outcome: bool,
    ) -> Option<LedgerError> {
        match self.market(market_id) {
            None => Some(LedgerError::NotFound),
            Some(m) => if caller != m.creator {
                Some(LedgerError::AuthenticationFailed)
            } else {
                m.outcome_refusal(outcome)
            },
        }
    }

    /// The ledger after market `market_id` was closed with `outcome`.
    pub open spec fn with_outcome(self, market_id: u64, outcome: bool) -> MarketLedger {
        MarketLedger {
            markets: self.markets.update(
                market_id as int,
                self.markets[market_id as int].with_outcome(outcome),
            ),
            stakes: self.stakes,
        }
    }

    /// The first reason, if any, for which a claim is refused.
    ///
    /// The caller must be the staker; then the market must exist and be
    /// resolved; then the stake must exist and be unclaimed.
    pub open spec fn claim_refusal(
        self,
        caller: AccountId,
        market_id: u64,
        staker: AccountId,
    ) -> Option<LedgerError> {
        if caller != staker {
            Some(LedgerError::AuthenticationFailed)
        } else {
            match self.market(market_id) {
                None => Some(LedgerError::NotFound),
                Some(m) => claim_record_refusal(m, self.stake(market_id, staker)),
            }
        }
    }

    /// What the claim of `staker` in market `market_id` pays.
    pub open spec fn claim_amount(self, market_id: u64, staker: AccountId) -> int {
        settle_amount(
            self.markets[market_id as int],
            self.stakes[self.stake_index(market_id, staker)].stake,
        )
    }

    /// The ledger after the claim of `staker` in market `market_id`: a winning
    /// stake is marked as claimed, a losing stake stays as it is.
    pub open spec fn with_claim(self, market_id: u64, staker: AccountId) -> MarketLedger {
        let j = self.stake_index(market_id, staker);
        MarketLedger {
            markets: self.markets,
            stakes: self.stakes.update(
                j,
                StakeEntry {
                    market_id,
                    stake: self.stakes[j].stake.settled(self.markets[market_id as int].outcome),
                },
            ),
        }
    }
}

/// Appending an entry adds its weight to the total of its side.
pub proof fn lemma_side_total_push(
    stakes: Seq<StakeEntry>,
    entry: StakeEntry,
    market_id: u64,
    position: bool,
)
    ensures
        side_total(stakes.push(entry), market_id, position) == side_total(
            stakes,
            market_id,
            position,
        ) + entry_weight(entry, market_id, position),
{
    assert(stakes.push(entry).drop_last() =~= stakes);
}

/// Replacing an entry exchanges its weight for that of the new entry.
pub proof fn lemma_side_total_update(
    stakes: Seq<StakeEntry>,
    j: int,
    entry: StakeEntry,
    market_id: u64,
    position: bool,
)
    requires
        0 <= j < stakes.len(),
    ensures
        side_total(stakes.update(j, entry), market_id, position) == side_total(
            stakes,
            market_id,
            position,
        ) - entry_weight(stakes[j], market_id, position) + entry_weight(entry, market_id, position),
    decreases stakes.len(),
{
    let updated = stakes.update(j, entry);
    if j == stakes.len() - 1 {
        assert(updated.drop_last() =~= stakes.drop_last());
    } else {
        assert(updated.drop_last() =~= stakes.drop_last().update(j, entry));
        lemma_side_total_update(stakes.drop_last(), j, entry, market_id, position);
    }
}

/// Where all stakes are positive, no entry weighs more than the total of its
/// side.
pub proof fn lemma_entry_within_side_total(
    stakes: Seq<StakeEntry>,
    j: int,
    market_id: u64,
    position: bool,
)
    requires
        0 <= j < stakes.len(),
        forall|k: int| 0 <= k < stakes.len() ==> (#[trigger] stakes[k]).stake.amount > 0,
    ensures
        0 <= entry_weight(stakes[j], market_id, position) <= side_total(
            stakes,
            market_id,
            position,
        ),
        0 <= side_total(stakes.drop_last(), market_id, position),
    decreases stakes.len(),
{
    let front = stakes.drop_last();
    if front.len() > 0 {
        lemma_entry_within_side_total(front, 0, market_id, position);
    }
    assert(0 <= side_total(front, market_id, position)) by {
        if front.len() > 0 {
            assert(front[0 as int] == stakes[0]);
        }
    }
    if j < stakes.len() - 1 {
        assert(front[j] == stakes[j]);
        lemma_entry_within_side_total(front, j, market_id, position);
    }
}

impl MarketLedger {
    /// Where no staker has two records in one market, an index that holds a
    /// stake is the index of that stake.
    pub proof fn lemma_stake_index(self, market_id: u64, staker: AccountId, j: int)
        requires
            self.one_record_each(),
            self.holds(market_id, staker, j),
        ensures
            self.has_stake(market_id, staker),
            self.stake_index(market_id, staker) == j,
            self.stake(market_id, staker) == Some(self.stakes[j].stake),
    {
        let k = self.stake_index(market_id, staker);
        assert(self.holds(market_id, staker, k));
        if k < j {
            assert(self.stakes[k].market_id == self.stakes[j].market_id);
        } else if j < k {
            assert(self.stakes[j].market_id == self.stakes[k].market_id);
        }
    }

    /// Opening a market keeps the ledger well formed.
    pub proof fn lemma_with_market_wf(
        self,
        creator: AccountId,
        question: u32,
        end_time: u64,
        now: u64,
    )
        requires
            self.wf(),
            self.markets.len() <= u64::MAX,
            end_time > now,
        ensures
            self.with_market(creator, question, end_time, now).wf(),
    {
        let next = self.with_market(creator, question, end_time, now);
        let id = self.markets.len() as u64;
        assert forall|i: int| 0 <= i < next.markets.len() implies #[trigger] next.pools_match(
            i,
        ) by {
            if i < self.markets.len() {
                assert(self.pools_match(i));
                assert(next.markets[i] == self.markets[i]);
            } else {
                assert forall|j: int| 0 <= j < self.stakes.len() implies (
                #[trigger] self.stakes[j]).market_id != id by {
                    assert(self.entry_ok(j));
                }
                lemma_no_entries_of(self.stakes, id, true);
                lemma_no_entries_of(self.stakes, id, false);
            }
        }
        assert forall|j: int| 0 <= j < next.stakes.len() implies #[trigger] next.entry_ok(j) by {
            assert(self.entry_ok(j));
        }
    }

    /// A stake that is not refused keeps the ledger well formed.
    pub proof fn lemma_with_stake_wf(
        self,
        market_id: u64,
        staker: AccountId,
        amount: i128,
        position: bool,
        now: u64,
    )
        requires
            self.wf(),
            self.stake_refusal(staker, market_id, staker, amount, position, now) is None,
        ensures
            self.with_stake(market_id, staker, amount, position).wf(),
    {
        let next = self.with_stake(market_id, staker, amount, position);
        let entry = StakeEntry {
            market_id,
            stake: Stake::merged(self.stake(market_id, staker), staker, amount, position),
        };
        let m = market_id as int;
        assert(self.pools_match(m));
        if self.has_stake(market_id, staker) {
            let j = self.stake_index(market_id, staker);
            assert(self.holds(market_id, staker, j));
            assert(self.entry_ok(j));
            assert forall|i: int| 0 <= i < next.markets.len() implies #[trigger] next.pools_match(
                i,
            ) by {
                assert(self.pools_match(i));
                lemma_side_total_update(self.stakes, j, entry, i as u64, true);
                lemma_side_total_update(self.stakes, j, entry, i as u64, false);
            }
            assert forall|k: int| 0 <= k < next.stakes.len() implies #[trigger] next.entry_ok(
                k,
            ) by {
                assert(self.entry_ok(k));
            }
        } else {
            assert forall|i: int| 0 <= i < next.markets.len() implies #[trigger] next.pools_match(
                i,
            ) by {
                assert(self.pools_match(i));
                lemma_side_total_push(self.stakes, entry, i as u64, true);
                lemma_side_total_push(self.stakes, entry, i as u64, false);
            }
            assert forall|k: int| 0 <= k < next.stakes.len() implies #[trigger] next.entry_ok(
                k,
            ) by {
                if k < self.stakes.len() {
                    assert(self.entry_ok(k));
                }
            }
            assert forall|a: int, b: int| 0 <= a < b < next.stakes.len() implies !({
                &&& (#[trigger] next.stakes[a]).market_id == (#[trigger] next.stakes[b]).market_id
                &&& next.stakes[a].stake.staker == next.stakes[b].stake.staker
            }) by {
                if b == self.stakes.len() {
                    assert(!self.holds(market_id, staker, a));
                }
            }
        }
    }

    /// An outcome that is not refused keeps the ledger well formed.
    pub proof fn lemma_with_outcome_wf(self, caller: AccountId, market_id: u64, outcome: bool)
        requires
            self.wf(),
            self.resolve_refusal(caller, market_id, outcome) is None,
        ensures
            self.with_outcome(market_id, outcome).wf(),
    {
        let next = self.with_outcome(market_id, outcome);
        assert forall|i: int| 0 <= i < next.markets.len() implies #[trigger] next.pools_match(
            i,
        ) by {
            assert(self.pools_match(i));
        }
        assert forall|j: int| 0 <= j < next.stakes.len() implies #[trigger] next.entry_ok(j) by {
            assert(self.entry_ok(j));
        }
    }

    /// In a well-formed ledger a winner's share is at most the whole pool, so
    /// no claim is refused for its size.
    pub proof fn lemma_claim_fits(self, j: int)
        requires
            self.wf(),
            0 <= j < self.stakes.len(),
        ensures
            0 <= settle_amount(
                self.markets[self.stakes[j].market_id as int],
                self.stakes[j].stake,
            ) <= self.markets[self.stakes[j].market_id as int].pool(),
    {
        let entry = self.stakes[j];
        assert(self.entry_ok(j));
        let market = self.markets[entry.market_id as int];
        assert(self.pools_match(entry.market_id as int));
        if entry.stake.position == market.outcome {
            assert forall|k: int| 0 <= k < self.stakes.len() implies (
            #[trigger] self.stakes[k]).stake.amount > 0 by {
                assert(self.entry_ok(k));
            }
            lemma_entry_within_side_total(self.stakes, j, entry.market_id, market.outcome);
            let a = entry.stake.amount as int;
            let t = market.pool();
            let w = market.winning_pool();
            assert(0 <= (a * t) / w <= t) by (nonlinear_arith)
                requires
                    0 < a <= w,
                    0 <= t,
            ;
        }
    }

    /// A claim that is not refused keeps the ledger well formed.
    pub proof fn lemma_with_claim_wf(self, market_id: u64, staker: AccountId)
        requires
            self.wf(),
            self.claim_refusal(staker, market_id, staker) is None,
        ensures
            self.with_claim(market_id, staker).wf(),
    {
        let next = self.with_claim(market_id, staker);
        let j = self.stake_index(market_id, staker);
        assert(self.holds(market_id, staker, j));
        assert(self.entry_ok(j));
        let entry = next.stakes[j];
        assert forall|i: int| 0 <= i < next.markets.len() implies #[trigger] next.pools_match(
            i,
        ) by {
            assert(self.pools_match(i));
            lemma_side_total_update(self.stakes, j, entry, i as u64, true);
            lemma_side_total_update(self.stakes, j, entry, i as u64, false);
        }
        assert forall|k: int| 0 <= k < next.stakes.len() implies #[trigger] next.entry_ok(k) by {
            assert(self.entry_ok(k));
        }
    }
}

/// Stakes none of which belongs to market `market_id` add nothing to it.
pub proof fn lemma_no_entries_of(stakes: Seq<StakeEntry>, market_id: u64, position: bool)
    requires
        forall|j: int| 0 <= j < stakes.len() ==> (#[trigger] stakes[j]).market_id != market_id,
    ensures
        side_total(stakes, market_id, position) == 0,
    decreases stakes.len(),
{
    if stakes.len() > 0 {
        let front = stakes.drop_last();
        assert forall|j: int| 0 <= j < front.len() implies (#[trigger] front[j]).market_id
            != market_id by {
            assert(front[j] == stakes[j]);
        }
        lemma_no_entries_of(front, market_id, position);
        assert(stakes.last() == stakes[stakes.len() - 1]);
    }
}

} // verus!
