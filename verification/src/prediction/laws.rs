//! What holds of the prediction market whatever calls it has seen.

use vstd::prelude::*;
use crate::account::AccountId;
use crate::error::LedgerError;
use crate::prediction::machine::{step, Call, Reply};
use crate::prediction::market::{settle_amount, Market};
use crate::prediction::state::{entry_weight, side_total, MarketLedger, StakeEntry};

verus! {

/// The sum of the amounts of all stakes in market `market_id`.
pub open spec fn staked_total(stakes: Seq<StakeEntry>, market_id: u64) -> int
    decreases stakes.len(),
{
    if stakes.len() == 0 {
        0
    } else {
        staked_total(stakes.drop_last(), market_id) + if stakes.last().market_id == market_id {
            stakes.last().stake.amount as int
        } else {
            0
        }
    }
}

/// The stake is in `market` and on the side that won.
pub open spec fn is_winner(entry: StakeEntry, market: Market) -> bool {
    entry.market_id == market.market_id && entry.stake.position == market.outcome
}

/// The number of stakes on the winning side of `market`.
pub open spec fn winner_count(stakes: Seq<StakeEntry>, market: Market) -> nat
    decreases stakes.len(),
{
    if stakes.len() == 0 {
        0
    } else {
        winner_count(stakes.drop_last(), market) + if is_winner(stakes.last(), market) {
            1nat
        } else {
            0nat
        }
    }
}

/// The sum of what the claims of all stakes in `market` pay.
pub open spec fn payout_total(stakes: Seq<StakeEntry>, market: Market) -> int
    decreases stakes.len(),
{
    if stakes.len() == 0 {
        0
    } else {
        payout_total(stakes.drop_last(), market) + if stakes.last().market_id
            == market.market_id {
            settle_amount(market, stakes.last().stake)
        } else {
            0
        }
    }
}

/// What is staked in a market is what is staked on its two sides.
pub proof fn lemma_staked_total_splits(stakes: Seq<StakeEntry>, market_id: u64)
    ensures
        staked_total(stakes, market_id) == side_total(stakes, market_id, true) + side_total(
            stakes,
            market_id,
            false,
        ),
    decreases stakes.len(),
{
    if stakes.len() > 0 {
        lemma_staked_total_splits(stakes.drop_last(), market_id);
    }
}

/// In every market of a well-formed ledger, `total_yes + total_no` is the sum
/// of the amounts of the stake records of that market, of which each staker
/// has at most one.
pub proof fn lemma_pool_is_sum_of_stakes(ledger: MarketLedger, market_id: u64)
    requires
        ledger.wf(),
        market_id < ledger.markets.len(),
    ensures
        ledger.markets[market_id as int].total_yes + ledger.markets[market_id as int].total_no
            == staked_total(ledger.stakes, market_id),
        ledger.one_record_each(),
{
    assert(ledger.pools_match(market_id as int));
    lemma_staked_total_splits(ledger.stakes, market_id);
}

/// No two markets have the same id: the market with id `i` is the `i`-th that
/// was created.
pub proof fn lemma_market_ids_are_unique(ledger: MarketLedger, i: int, j: int)
    requires
        ledger.wf(),
        0 <= i < ledger.markets.len(),
        0 <= j < ledger.markets.len(),
        ledger.markets[i].market_id == ledger.markets[j].market_id,
    ensures
        i == j,
        ledger.market(ledger.markets[i].market_id) == Some(ledger.markets[i]),
{
}

/// Every call keeps the ledger well formed, as long as an id is left for the
/// market that a `CreateMarket` call creates.
pub proof fn lemma_step_keeps_wf(ledger: MarketLedger, caller: AccountId, call: Call, now: u64)
    requires
        ledger.wf(),
        call is CreateMarket ==> ledger.markets.len() <= u64::MAX,
    ensures
        step(ledger, caller, call, now).0.wf(),
{
    match call {
        Call::CreateMarket { creator, question, end_time } => {
            if ledger.create_refusal(caller, creator, end_time, now) is None {
                ledger.lemma_with_market_wf(creator, question, end_time, now);
            }
        },
        Call::Stake { market_id, staker, amount, position } => {
            if ledger.stake_refusal(caller, market_id, staker, amount, position, now) is None {
                ledger.lemma_with_stake_wf(market_id, staker, amount, position, now);
            }
        },
        Call::Resolve { market_id, outcome } => {
            if ledger.resolve_refusal(caller, market_id, outcome) is None {
                ledger.lemma_with_outcome_wf(caller, market_id, outcome);
            }
        },
        Call::Claim { market_id, staker } => {
            if ledger.claim_refusal(caller, market_id, staker) is None {
                ledger.lemma_with_claim_wf(market_id, staker);
            }
        },
        _ => {},
    }
}

/// A call that only reads leaves the ledger as it was, so the same read made
/// again, by whomever and whenever, returns the same.
pub proof fn lemma_reads_are_idempotent(
    ledger: MarketLedger,
    call: Call,
    first_caller: AccountId,
    first_now: u64,
    second_caller: AccountId,
    second_now: u64,
)
    requires
        call.is_read(),
    ensures
        step(ledger, first_caller, call, first_now).0 == ledger,
        step(step(ledger, first_caller, call, first_now).0, second_caller, call, second_now).1
            == step(ledger, first_caller, call, first_now).1,
{
}

/// No call changes the record of a resolved market: its outcome and its pools
/// stay as they were when it was resolved.
pub proof fn lemma_resolved_market_is_final(
    ledger: MarketLedger,
    caller: AccountId,
    call: Call,
    now: u64,
    market_id: u64,
)
    requires
        ledger.market(market_id) is Some,
        ledger.market(market_id)->Some_0.resolved,
    ensures
        step(ledger, caller, call, now).0.market(market_id) == ledger.market(market_id),
{
}

/// A market goes from open to resolved only through an accepted `Resolve`
/// call for that market, made by its creator.
pub proof fn lemma_only_resolve_resolves(
    ledger: MarketLedger,
    caller: AccountId,
    call: Call,
    now: u64,
    market_id: u64,
)
    requires
        ledger.market(market_id) is Some,
        !ledger.market(market_id)->Some_0.resolved,
        step(ledger, caller, call, now).0.market(market_id)->Some_0.resolved,
    ensures
        call is Resolve,
        call->Resolve_market_id == market_id,
        caller == ledger.market(market_id)->Some_0.creator,
        step(ledger, caller, call, now).1 is Ok,
{
}

/// Once a `Resolve` call was accepted, every later `Resolve` call by the
/// creator for the same market is refused with `AlreadyResolved`.
pub proof fn lemma_second_resolve_is_refused(
    ledger: MarketLedger,
    caller: AccountId,
    market_id: u64,
    first: bool,
    first_now: u64,
    second: bool,
    second_now: u64,
)
    requires
        step(ledger, caller, Call::Resolve { market_id, outcome: first }, first_now).1 is Ok,
    ensures
        step(
            step(ledger, caller, Call::Resolve { market_id, outcome: first }, first_now).0,
            caller,
            Call::Resolve { market_id, outcome: second },
            second_now,
        ).1 == Err::<Reply, LedgerError>(LedgerError::AlreadyResolved),
{
}

/// No call changes the record of a stake that is marked as claimed.
pub proof fn lemma_claimed_stake_is_final(
    ledger: MarketLedger,
    caller: AccountId,
    call: Call,
    now: u64,
    market_id: u64,
    staker: AccountId,
)
    requires
        ledger.wf(),
        ledger.stake(market_id, staker) is Some,
        ledger.stake(market_id, staker)->Some_0.claimed,
    ensures
        step(ledger, caller, call, now).0.stake(market_id, staker) == ledger.stake(
            market_id,
            staker,
        ),
{
    let next = step(ledger, caller, call, now).0;
    let j = ledger.stake_index(market_id, staker);
    assert(ledger.holds(market_id, staker, j));
    assert(ledger.entry_ok(j));
    match call {
        Call::Stake { market_id: other, staker: who, amount, position } => {
            if ledger.stake_refusal(caller, other, who, amount, position, now) is None {
                ledger.lemma_with_stake_wf(other, who, amount, position, now);
                if ledger.has_stake(other, who) {
                    assert(ledger.holds(other, who, ledger.stake_index(other, who)));
                }
            }
        },
        Call::Claim { market_id: other, staker: who } => {
            if ledger.claim_refusal(caller, other, who) is None {
                ledger.lemma_with_claim_wf(other, who);
                assert(ledger.holds(other, who, ledger.stake_index(other, who)));
            }
        },
        _ => {},
    }
    assert(next.holds(market_id, staker, j));
    next.lemma_stake_index(market_id, staker, j);
}

/// A winning stake is paid once: after an accepted claim, the same claim made
/// again is refused with `AlreadyClaimed`. A losing stake was paid 0 and is
/// paid 0 again.
pub proof fn lemma_second_claim(
    ledger: MarketLedger,
    caller: AccountId,
    market_id: u64,
    staker: AccountId,
    first_now: u64,
    second_now: u64,
)
    requires
        ledger.wf(),
        step(ledger, caller, Call::Claim { market_id, staker }, first_now).1 is Ok,
    ensures
        ledger.stake(market_id, staker)->Some_0.position == ledger.market(
            market_id,
        )->Some_0.outcome ==> step(
            step(ledger, caller, Call::Claim { market_id, staker }, first_now).0,
            caller,
            Call::Claim { market_id, staker },
            second_now,
        ).1 == Err::<Reply, LedgerError>(LedgerError::AlreadyClaimed),
        ledger.stake(market_id, staker)->Some_0.position != ledger.market(
            market_id,
        )->Some_0.outcome ==> step(ledger, caller, Call::Claim { market_id, staker }, first_now).1
            == Ok::<Reply, LedgerError>(Reply::Paid(0)) && step(
            step(ledger, caller, Call::Claim { market_id, staker }, first_now).0,
            caller,
            Call::Claim { market_id, staker },
            second_now,
        ).1 == Ok::<Reply, LedgerError>(Reply::Paid(0)),
{
    let next = ledger.with_claim(market_id, staker);
    let j = ledger.stake_index(market_id, staker);
    assert(ledger.holds(market_id, staker, j));
    ledger.lemma_with_claim_wf(market_id, staker);
    assert(next.holds(market_id, staker, j));
    next.lemma_stake_index(market_id, staker, j);
}

/// The pools of a market never shrink.
pub proof fn lemma_pools_never_shrink(
    ledger: MarketLedger,
    caller: AccountId,
    call: Call,
    now: u64,
    market_id: u64,
)
    requires
        ledger.wf(),
        ledger.market(market_id) is Some,
    ensures
        step(ledger, caller, call, now).0.market(market_id) is Some,
        step(ledger, caller, call, now).0.market(market_id)->Some_0.total_yes >= ledger.market(
            market_id,
        )->Some_0.total_yes,
        step(ledger, caller, call, now).0.market(market_id)->Some_0.total_no >= ledger.market(
            market_id,
        )->Some_0.total_no,
{
}

/// A stake in an open market whose end time the clock has passed is refused
/// with `MarketEnded`, whatever the amount and the side.
pub proof fn lemma_timing_gate(
    ledger: MarketLedger,
    market_id: u64,
    staker: AccountId,
    amount: i128,
    position: bool,
    now: u64,
)
    requires
        ledger.market(market_id) is Some,
        !ledger.market(market_id)->Some_0.resolved,
        now > ledger.market(market_id)->Some_0.end_time,
    ensures
        step(ledger, staker, Call::Stake { market_id, staker, amount, position }, now).1 == Err::<
            Reply,
            LedgerError,
        >(LedgerError::MarketEnded),
{
}

/// A stake in a resolved market is refused with `AlreadyResolved`, whatever
/// the clock says.
pub proof fn lemma_resolved_market_refuses_stakes(
    ledger: MarketLedger,
    market_id: u64,
    staker: AccountId,
    amount: i128,
    position: bool,
    now: u64,
)
    requires
        ledger.market(market_id) is Some,
        ledger.market(market_id)->Some_0.resolved,
    ensures
        step(ledger, staker, Call::Stake { market_id, staker, amount, position }, now).1 == Err::<
            Reply,
            LedgerError,
        >(LedgerError::AlreadyResolved),
{
}

/// An outcome on whose side nothing is staked is refused with
/// `UnstakedOutcome` when the creator names it for an open market, and the
/// market stays open.
pub proof fn lemma_unstaked_outcome_is_refused(
    ledger: MarketLedger,
    market_id: u64,
    outcome: bool,
    now: u64,
)
    requires
        ledger.wf(),
        ledger.market(market_id) is Some,
        !ledger.market(market_id)->Some_0.resolved,
        ledger.market(market_id)->Some_0.side(outcome) == 0,
    ensures
        step(
            ledger,
            ledger.market(market_id)->Some_0.creator,
            Call::Resolve { market_id, outcome },
            now,
        ) == (ledger, Err::<Reply, LedgerError>(LedgerError::UnstakedOutcome)),
{
}

/// Every claim has a defined result: in a resolved market something is staked
/// on the side that won, so no payout divides by zero, and no claim is refused
/// for the size of its payout.
pub proof fn lemma_claim_is_defined(
    ledger: MarketLedger,
    caller: AccountId,
    market_id: u64,
    staker: AccountId,
    now: u64,
)
    requires
        ledger.wf(),
    ensures
        ledger.market(market_id) is Some && ledger.market(market_id)->Some_0.resolved
            ==> ledger.market(market_id)->Some_0.winning_pool() > 0,
        step(ledger, caller, Call::Claim { market_id, staker }, now).1 != Err::<
            Reply,
            LedgerError,
        >(LedgerError::Overflow),
{
    if ledger.market(market_id) is Some && ledger.has_stake(market_id, staker) {
        let j = ledger.stake_index(market_id, staker);
        assert(ledger.holds(market_id, staker, j));
        ledger.lemma_claim_fits(j);
    }
}

/// Bounds on the sum of the payouts of a sequence of stakes, scaled by the
/// winning pool `w` of the market: with `s` the amount that the sequence holds
/// on the winning side, `t` the whole pool and `n` the number of winners in
/// the sequence, `s * t - n * (w - 1) <= w * payouts <= s * t`.
proof fn lemma_payout_bounds(stakes: Seq<StakeEntry>, market: Market)
    requires
        market.winning_pool() > 0,
        market.pool() >= 0,
        forall|k: int| 0 <= k < stakes.len() ==> (#[trigger] stakes[k]).stake.amount > 0,
    ensures
        market.winning_pool() * payout_total(stakes, market) <= side_total(
            stakes,
            market.market_id,
            market.outcome,
        ) * market.pool(),
        market.winning_pool() * payout_total(stakes, market) >= side_total(
            stakes,
            market.market_id,
            market.outcome,
        ) * market.pool() - winner_count(stakes, market) * (market.winning_pool() - 1),
        winner_count(stakes, market) == 0 ==> side_total(stakes, market.market_id, market.outcome)
            == 0,
    decreases stakes.len(),
{
    let w = market.winning_pool();
    let t = market.pool();
    if stakes.len() == 0 {
        assert(w * 0 == 0 && 0 * t == 0 && 0 * (w - 1) == 0) by (nonlinear_arith);
    } else {
        let front = stakes.drop_last();
        let last = stakes.last();
        assert forall|k: int| 0 <= k < front.len() implies (#[trigger] front[k]).stake.amount
            > 0 by {
            assert(front[k] == stakes[k]);
        }
        lemma_payout_bounds(front, market);
        let paid_before = payout_total(front, market);
        let held_before = side_total(front, market.market_id, market.outcome);
        let winners_before = winner_count(front, market) as int;
        assert(last == stakes[stakes.len() - 1]);
        if is_winner(last, market) {
            let a = last.stake.amount as int;
            let p = (a * t) / w;
            assert(settle_amount(market, last.stake) == p);
            assert(entry_weight(last, market.market_id, market.outcome) == a);
            assert({
                &&& w * (paid_before + p) <= (held_before + a) * t
                &&& w * (paid_before + p) >= (held_before + a) * t - (winners_before + 1) * (w - 1)
            }) by (nonlinear_arith)
                requires
                    w > 0,
                    p == (a * t) / w,
                    w * paid_before <= held_before * t,
                    w * paid_before >= held_before * t - winners_before * (w - 1),
            ;
        } else {
            assert(entry_weight(last, market.market_id, market.outcome) == 0);
        }
    }
}

/// Payout conservation: in a resolved market the payouts of all stakes add up
/// to the whole pool, less a rounding loss of at most one unit for each winner
/// but one.
pub proof fn lemma_payout_conservation(ledger: MarketLedger, market_id: u64)
    requires
        ledger.wf(),
        market_id < ledger.markets.len(),
        ledger.markets[market_id as int].resolved,
    ensures
        winner_count(ledger.stakes, ledger.markets[market_id as int]) >= 1,
        payout_total(ledger.stakes, ledger.markets[market_id as int])
            <= ledger.markets[market_id as int].pool(),
        payout_total(ledger.stakes, ledger.markets[market_id as int])
            >= ledger.markets[market_id as int].pool() - (winner_count(
            ledger.stakes,
            ledger.markets[market_id as int],
        ) - 1),
{
    let market = ledger.markets[market_id as int];
    assert(ledger.pools_match(market_id as int));
    assert forall|k: int| 0 <= k < ledger.stakes.len() implies (
    #[trigger] ledger.stakes[k]).stake.amount > 0 by {
        assert(ledger.entry_ok(k));
    }
    lemma_payout_bounds(ledger.stakes, market);
    let w = market.winning_pool();
    let t = market.pool();
    let p = payout_total(ledger.stakes, market);
    let n = winner_count(ledger.stakes, market) as int;
    assert(side_total(ledger.stakes, market.market_id, market.outcome) == w);
    assert(p <= t && p >= t - (n - 1)) by (nonlinear_arith)
        requires
            w > 0,
            n >= 1,
            w * p <= w * t,
            w * p >= w * t - n * (w - 1),
    ;
}

} // verus!
