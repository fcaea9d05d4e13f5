use stellar_finance_hub::prediction::machine::{Call, Reply};
use stellar_finance_hub::prediction::market::{
    claim_stake, payout, place_stake, settle, Market, Stake, BASIS_POINTS, EVEN_ODDS,
};
use stellar_finance_hub::{AccountId, AccountKind, LedgerError, PredictionMarket};

const DAY: u64 = 86400;

fn party(n: u128) -> AccountId {
    AccountId::account(0, n)
}

fn market_with(stakes: &[(u128, i128, bool)]) -> (PredictionMarket, u64, AccountId) {
    let mut ledger = PredictionMarket::new();
    let creator = party(1);
    let id = ledger.create_market(creator, creator, 1234, DAY, 0).unwrap();
    for (who, amount, position) in stakes {
        ledger.stake(party(*who), id, party(*who), *amount, *position, 0).unwrap();
    }
    (ledger, id, creator)
}

#[test]
fn test_create_market() {
    let mut ledger = PredictionMarket::new();
    let creator = party(1);
    let now = 0;
    let end_time = now + 86400;

    let market_id = ledger.create_market(creator, creator, 1234, end_time, now).unwrap();

    let market = ledger.get_market(market_id).unwrap();
    assert_eq!(market.question, 1234);
    assert_eq!(market.resolved, false);
}

#[test]
fn test_stake() {
    let mut ledger = PredictionMarket::new();
    let creator = party(1);
    let staker = party(2);
    let now = 0;
    let end_time = now + 86400;

    let market_id = ledger.create_market(creator, creator, 1234, end_time, now).unwrap();
    ledger.stake(staker, market_id, staker, 1000, true, now).unwrap();

    let market = ledger.get_market(market_id).unwrap();
    assert_eq!(market.total_yes, 1000);
}

#[test]
fn test_resolve_and_claim() {
    let mut ledger = PredictionMarket::new();
    let creator = party(1);
    let winner = party(2);
    let loser = party(3);
    let now = 0;
    let end_time = now + 86400;

    let market_id = ledger.create_market(creator, creator, 1234, end_time, now).unwrap();

    ledger.stake(winner, market_id, winner, 1000, true, now).unwrap();
    ledger.stake(loser, market_id, loser, 500, false, now).unwrap();

    ledger.resolve(creator, market_id, true).unwrap();

    let winnings = ledger.claim(winner, market_id, winner).unwrap();
    assert_eq!(winnings, 1500);
}

#[test]
fn created_market_is_open_and_empty() {
    let mut ledger = PredictionMarket::new();
    let creator = AccountId::contract(7, 9);
    let id = ledger.create_market(creator, creator, 42, 500, 100).unwrap();
    assert_eq!(id, 0);
    assert_eq!(
        ledger.get_market(id),
        Ok(Market {
            market_id: 0,
            question: 42,
            creator,
            total_yes: 0,
            total_no: 0,
            resolved: false,
            outcome: false,
            end_time: 500,
            created_at: 100,
        })
    );
    assert_eq!(creator.kind, AccountKind::Contract);
}

#[test]
fn market_ids_count_up_from_zero() {
    let mut ledger = PredictionMarket::new();
    let creator = party(1);
    assert_eq!(ledger.market_count(), 0);
    assert_eq!(ledger.create_market(creator, creator, 1, DAY, 0), Ok(0));
    assert_eq!(ledger.create_market(creator, creator, 2, DAY, 0), Ok(1));
    assert_eq!(ledger.create_market(party(2), party(2), 3, DAY, 0), Ok(2));
    assert_eq!(ledger.market_count(), 3);
    assert_eq!(ledger.get_market(1).unwrap().question, 2);
    assert_eq!(ledger.get_market(2).unwrap().creator, party(2));
}

#[test]
fn create_market_needs_the_creator_as_caller() {
    let mut ledger = PredictionMarket::new();
    assert_eq!(
        ledger.create_market(party(2), party(1), 1, DAY, 0),
        Err(LedgerError::AuthenticationFailed)
    );
    assert_eq!(ledger.market_count(), 0);
}

#[test]
fn market_must_end_after_its_creation() {
    let mut ledger = PredictionMarket::new();
    let creator = party(1);
    assert_eq!(ledger.create_market(creator, creator, 1, 10, 50), Err(LedgerError::InvalidEndTime));
    assert_eq!(ledger.create_market(creator, creator, 1, 50, 50), Err(LedgerError::InvalidEndTime));
    assert_eq!(ledger.create_market(creator, creator, 1, 0, 0), Err(LedgerError::InvalidEndTime));
    assert_eq!(
        ledger.create_market(party(2), creator, 1, 10, 50),
        Err(LedgerError::AuthenticationFailed)
    );
    assert_eq!(ledger.market_count(), 0);
    assert_eq!(ledger.create_market(creator, creator, 1, 51, 50), Ok(0));
    assert_eq!(ledger.stake(party(2), 0, party(2), 5, true, 51), Ok(()));
    assert_eq!(ledger.stake(party(2), 0, party(2), 5, true, 52), Err(LedgerError::MarketEnded));
}

#[test]
fn scenario_winner_takes_pool_loser_gets_nothing() {
    let mut ledger = PredictionMarket::new();
    let creator = party(1);
    let w = party(2);
    let l = party(3);
    let now = 1_000;
    let id = ledger.create_market(creator, creator, 1234, now + 86400, now).unwrap();
    assert_eq!(ledger.stake(w, id, w, 1000, true, now), Ok(()));
    assert_eq!(ledger.stake(l, id, l, 500, false, now), Ok(()));
    assert_eq!(ledger.resolve(creator, id, true), Ok(()));
    assert_eq!(ledger.claim(w, id, w), Ok(1500));
    assert_eq!(ledger.claim(l, id, l), Ok(0));
    assert_eq!(ledger.claim(w, id, w), Err(LedgerError::AlreadyClaimed));
}

#[test]
fn scenario_odds_follow_the_pools() {
    let mut ledger = PredictionMarket::new();
    let creator = party(1);
    let id = ledger.create_market(creator, creator, 1, DAY, 0).unwrap();
    assert_eq!(ledger.get_odds(id), Ok(5000));
    ledger.stake(party(2), id, party(2), 300, true, 0).unwrap();
    ledger.stake(party(3), id, party(3), 700, false, 0).unwrap();
    assert_eq!(ledger.get_odds(id), Ok(3000));
}

#[test]
fn scenario_stake_after_resolve_is_refused_whatever_the_clock() {
    let (mut ledger, id, creator) = market_with(&[(2, 10, true)]);
    ledger.resolve(creator, id, true).unwrap();
    assert_eq!(ledger.stake(party(3), id, party(3), 10, true, 0), Err(LedgerError::AlreadyResolved));
    assert_eq!(ledger.stake(party(3), id, party(3), 10, true, DAY), Err(LedgerError::AlreadyResolved));
    assert_eq!(
        ledger.stake(party(3), id, party(3), 10, false, DAY + 1),
        Err(LedgerError::AlreadyResolved)
    );
    assert_eq!(
        ledger.stake(party(3), id, party(3), 10, false, u64::MAX),
        Err(LedgerError::AlreadyResolved)
    );
}

#[test]
fn scenario_outcome_without_stakes_is_refused() {
    let (mut ledger, id, creator) = market_with(&[(2, 400, false), (3, 600, false)]);
    let before = ledger.get_market(id).unwrap();
    assert_eq!(before.total_yes, 0);
    assert_eq!(ledger.resolve(creator, id, true), Err(LedgerError::UnstakedOutcome));
    assert_eq!(ledger.get_market(id), Ok(before));
    assert!(!before.resolved);
    assert_eq!(ledger.claim(party(2), id, party(2)), Err(LedgerError::NotResolved));
    assert_eq!(ledger.stake(party(4), id, party(4), 1, true, 0), Ok(()));
    assert_eq!(ledger.resolve(creator, id, true), Ok(()));
    assert_eq!(ledger.claim(party(4), id, party(4)), Ok(1001));
    assert_eq!(ledger.claim(party(2), id, party(2)), Ok(0));
    assert_eq!(ledger.claim(party(3), id, party(3)), Ok(0));
}

#[test]
fn one_sided_market_resolves_to_its_side_and_pays_the_stakes_back() {
    let (mut ledger, id, creator) = market_with(&[(2, 400, false), (3, 600, false)]);
    assert_eq!(ledger.resolve(creator, id, false), Ok(()));
    assert_eq!(ledger.claim(party(2), id, party(2)), Ok(400));
    assert_eq!(ledger.claim(party(3), id, party(3)), Ok(600));
}

#[test]
fn market_without_any_stake_cannot_be_resolved() {
    let (mut ledger, id, creator) = market_with(&[]);
    assert_eq!(ledger.resolve(creator, id, false), Err(LedgerError::UnstakedOutcome));
    assert_eq!(ledger.resolve(creator, id, true), Err(LedgerError::UnstakedOutcome));
    assert_eq!(ledger.resolve(party(2), id, true), Err(LedgerError::AuthenticationFailed));
    assert!(!ledger.get_market(id).unwrap().resolved);
    assert_eq!(ledger.get_odds(id), Ok(EVEN_ODDS));
}

#[test]
fn reads_return_the_same_twice() {
    let (mut ledger, id, creator) = market_with(&[(2, 300, true), (3, 700, false)]);
    let first = ledger.get_market(id);
    let second = ledger.get_market(id);
    assert_eq!(first, second);
    assert_eq!(ledger.get_stake(id, party(2)), ledger.get_stake(id, party(2)));
    assert_eq!(ledger.get_stake(id, party(9)), ledger.get_stake(id, party(9)));
    assert_eq!(ledger.get_odds(id), ledger.get_odds(id));
    assert_eq!(ledger.get_market(77), ledger.get_market(77));
    let read = Call::GetMarket { market_id: id };
    let a = ledger.apply(creator, read, 5);
    let b = ledger.apply(party(8), read, 9_999_999);
    assert_eq!(a, b);
    assert_eq!(a, Ok(Reply::MarketRecord(first.unwrap())));
}

#[test]
fn pools_are_the_sum_of_the_stake_records() {
    let (mut ledger, id, _) = market_with(&[(2, 300, true), (3, 700, false), (4, 25, true)]);
    ledger.stake(party(2), id, party(2), 50, true, 10).unwrap();
    ledger.stake(party(3), id, party(3), 1, false, 20).unwrap();
    let mut sum = 0i128;
    let mut yes = 0i128;
    for who in [2u128, 3, 4] {
        let stake = ledger.get_stake(id, party(who)).unwrap();
        sum += stake.amount;
        if stake.position {
            yes += stake.amount;
        }
    }
    let market = ledger.get_market(id).unwrap();
    assert_eq!(market.total_yes + market.total_no, sum);
    assert_eq!(sum, 1076);
    assert_eq!(market.total_yes, yes);
    assert_eq!(market.total_yes, 375);
    assert_eq!(market.total_no, 701);
}

#[test]
fn stakes_in_one_market_do_not_touch_another() {
    let (mut ledger, first, creator) = market_with(&[(2, 300, true)]);
    let second = ledger.create_market(creator, creator, 5, DAY, 0).unwrap();
    ledger.stake(party(2), second, party(2), 11, false, 0).unwrap();
    assert_eq!(ledger.get_market(first).unwrap().total_yes, 300);
    assert_eq!(ledger.get_market(first).unwrap().total_no, 0);
    assert_eq!(ledger.get_market(second).unwrap().total_no, 11);
    assert_eq!(ledger.get_stake(first, party(2)).unwrap().amount, 300);
    assert_eq!(ledger.get_stake(second, party(2)).unwrap().amount, 11);
    assert!(!ledger.get_stake(second, party(2)).unwrap().position);
}

#[test]
fn second_stake_adds_to_the_first() {
    let (mut ledger, id, _) = market_with(&[(2, 300, true)]);
    assert_eq!(ledger.stake(party(2), id, party(2), 200, true, 0), Ok(()));
    assert_eq!(
        ledger.get_stake(id, party(2)),
        Ok(Stake { staker: party(2), amount: 500, position: true, claimed: false })
    );
    assert_eq!(ledger.get_market(id).unwrap().total_yes, 500);
}

#[test]
fn second_stake_on_the_other_side_is_refused() {
    let (mut ledger, id, _) = market_with(&[(2, 300, true)]);
    assert_eq!(
        ledger.stake(party(2), id, party(2), 200, false, 0),
        Err(LedgerError::PositionConflict)
    );
    assert_eq!(ledger.get_stake(id, party(2)).unwrap().amount, 300);
    assert_eq!(ledger.get_market(id).unwrap().total_no, 0);
    assert_eq!(ledger.get_market(id).unwrap().total_yes, 300);
}

#[test]
fn resolve_works_once() {
    let (mut ledger, id, creator) = market_with(&[(2, 10, true), (3, 10, false)]);
    assert_eq!(ledger.resolve(creator, id, false), Ok(()));
    let resolved = ledger.get_market(id).unwrap();
    assert!(resolved.resolved);
    assert!(!resolved.outcome);
    assert_eq!(ledger.resolve(creator, id, true), Err(LedgerError::AlreadyResolved));
    assert_eq!(ledger.resolve(creator, id, false), Err(LedgerError::AlreadyResolved));
    assert_eq!(ledger.get_market(id), Ok(resolved));
    ledger.claim(party(3), id, party(3)).unwrap();
    assert_eq!(ledger.get_market(id), Ok(resolved));
}

#[test]
fn resolve_needs_the_creator() {
    let (mut ledger, id, creator) = market_with(&[(2, 10, true)]);
    assert_eq!(ledger.resolve(party(2), id, true), Err(LedgerError::AuthenticationFailed));
    assert!(!ledger.get_market(id).unwrap().resolved);
    assert_eq!(ledger.resolve(creator, id + 1, true), Err(LedgerError::NotFound));
    assert_eq!(ledger.resolve(creator, id, true), Ok(()));
    assert_eq!(ledger.resolve(party(2), id, true), Err(LedgerError::AuthenticationFailed));
}

#[test]
fn payouts_add_up_to_the_pool_less_rounding() {
    let (mut ledger, id, creator) =
        market_with(&[(2, 3, true), (3, 3, true), (4, 1, true), (5, 3, false)]);
    ledger.resolve(creator, id, true).unwrap();
    let a = ledger.claim(party(2), id, party(2)).unwrap();
    let b = ledger.claim(party(3), id, party(3)).unwrap();
    let c = ledger.claim(party(4), id, party(4)).unwrap();
    let d = ledger.claim(party(5), id, party(5)).unwrap();
    assert_eq!((a, b, c, d), (4, 4, 1, 0));
    let paid = a + b + c + d;
    let pool = 10;
    let winners = 3;
    assert!(paid <= pool);
    assert!(paid >= pool - (winners - 1));
}

#[test]
fn single_winner_gets_the_whole_pool() {
    let (mut ledger, id, creator) = market_with(&[(2, 7, false), (3, 5, true), (4, 9, true)]);
    ledger.resolve(creator, id, false).unwrap();
    assert_eq!(ledger.claim(party(2), id, party(2)), Ok(21));
}

#[test]
fn stake_is_refused_once_the_clock_has_passed_the_end_time() {
    let (mut ledger, id, _) = market_with(&[]);
    assert_eq!(ledger.stake(party(2), id, party(2), 10, true, DAY), Ok(()));
    assert_eq!(ledger.stake(party(2), id, party(2), 10, true, DAY + 1), Err(LedgerError::MarketEnded));
    assert_eq!(ledger.stake(party(3), id, party(3), 0, false, DAY + 1), Err(LedgerError::MarketEnded));
    assert_eq!(
        ledger.stake(party(2), id, party(2), 10, false, u64::MAX),
        Err(LedgerError::MarketEnded)
    );
    assert_eq!(ledger.get_market(id).unwrap().total_yes, 10);
}

#[test]
fn stake_is_refused_for_unknown_market_wrong_caller_and_bad_amount() {
    let (mut ledger, id, _) = market_with(&[]);
    assert_eq!(ledger.stake(party(2), id + 1, party(2), 10, true, 0), Err(LedgerError::NotFound));
    assert_eq!(
        ledger.stake(party(3), id, party(2), 10, true, 0),
        Err(LedgerError::AuthenticationFailed)
    );
    assert_eq!(ledger.stake(party(2), id, party(2), 0, true, 0), Err(LedgerError::InvalidAmount));
    assert_eq!(ledger.stake(party(2), id, party(2), -5, true, 0), Err(LedgerError::InvalidAmount));
    assert_eq!(ledger.get_stake(id, party(2)), Err(LedgerError::NotFound));
    assert_eq!(ledger.get_market(id).unwrap().total_yes, 0);
}

#[test]
fn stake_is_refused_where_the_pool_would_overflow() {
    let (mut ledger, id, _) = market_with(&[(2, i128::MAX - 10, true)]);
    assert_eq!(ledger.stake(party(3), id, party(3), 11, false, 0), Err(LedgerError::Overflow));
    assert_eq!(ledger.stake(party(2), id, party(2), 11, true, 0), Err(LedgerError::Overflow));
    assert_eq!(ledger.stake(party(3), id, party(3), 10, false, 0), Ok(()));
    let market = ledger.get_market(id).unwrap();
    assert_eq!(market.total_yes, i128::MAX - 10);
    assert_eq!(market.total_no, 10);
    assert_eq!(ledger.get_odds(id), Ok(9999));
}

#[test]
fn claim_is_exact_where_the_product_exceeds_128_bits() {
    let big: i128 = 100_000_000_000_000_000_000_000_000_000_000_000_000;
    let half: i128 = 50_000_000_000_000_000_000_000_000_000_000_000_000;
    let (mut ledger, id, creator) = market_with(&[(2, big, true), (3, half, false)]);
    ledger.resolve(creator, id, true).unwrap();
    assert_eq!(
        ledger.claim(party(2), id, party(2)),
        Ok(150_000_000_000_000_000_000_000_000_000_000_000_000)
    );
}

#[test]
fn claim_is_refused_before_resolution_and_without_a_stake() {
    let (mut ledger, id, creator) = market_with(&[(2, 10, true)]);
    assert_eq!(ledger.claim(party(2), id, party(2)), Err(LedgerError::NotResolved));
    assert_eq!(ledger.claim(party(9), id, party(9)), Err(LedgerError::NotResolved));
    assert_eq!(ledger.claim(party(2), id + 3, party(2)), Err(LedgerError::NotFound));
    assert_eq!(ledger.claim(party(3), id, party(2)), Err(LedgerError::AuthenticationFailed));
    ledger.resolve(creator, id, true).unwrap();
    assert_eq!(ledger.claim(party(9), id, party(9)), Err(LedgerError::NotFound));
    assert_eq!(ledger.claim(party(3), id, party(2)), Err(LedgerError::AuthenticationFailed));
    assert_eq!(ledger.claim(party(2), id, party(2)), Ok(10));
}

#[test]
fn winning_claim_marks_the_stake_and_losing_claim_does_not() {
    let (mut ledger, id, creator) = market_with(&[(2, 10, true), (3, 30, false)]);
    ledger.resolve(creator, id, false).unwrap();
    assert_eq!(ledger.claim(party(2), id, party(2)), Ok(0));
    assert!(!ledger.get_stake(id, party(2)).unwrap().claimed);
    assert_eq!(ledger.claim(party(2), id, party(2)), Ok(0));
    assert_eq!(ledger.claim(party(3), id, party(3)), Ok(40));
    assert_eq!(
        ledger.get_stake(id, party(3)),
        Ok(Stake { staker: party(3), amount: 30, position: false, claimed: true })
    );
    assert_eq!(ledger.claim(party(3), id, party(3)), Err(LedgerError::AlreadyClaimed));
}

#[test]
fn get_market_and_get_stake_report_missing_records() {
    let (ledger, id, _) = market_with(&[(2, 10, true)]);
    assert_eq!(ledger.get_market(id + 1), Err(LedgerError::NotFound));
    assert_eq!(ledger.get_odds(id + 1), Err(LedgerError::NotFound));
    assert_eq!(ledger.get_stake(id + 1, party(2)), Err(LedgerError::NotFound));
    assert_eq!(ledger.get_stake(id, party(3)), Err(LedgerError::NotFound));
    assert_eq!(ledger.get_stake(id, AccountId::contract(0, 2)), Err(LedgerError::NotFound));
    assert_eq!(ledger.get_stake(id, AccountId::account(2, 0)), Err(LedgerError::NotFound));
    assert_eq!(ledger.get_stake(id, party(2)).unwrap().amount, 10);
}

#[test]
fn odds_are_floored_basis_points() {
    let (ledger, id, _) = market_with(&[(2, 1, true), (3, 2, false)]);
    assert_eq!(ledger.get_odds(id), Ok(3333));
    let (ledger, id, _) = market_with(&[(2, 5, true)]);
    assert_eq!(ledger.get_odds(id), Ok(BASIS_POINTS));
    let (ledger, id, _) = market_with(&[(2, 5, false)]);
    assert_eq!(ledger.get_odds(id), Ok(0));
    let big: i128 = 100_000_000_000_000_000_000_000_000_000_000_000_000;
    let (ledger, id, _) = market_with(&[(2, big, true), (3, big / 10 * 7, false)]);
    assert_eq!(ledger.get_odds(id), Ok(5882));
}

#[test]
fn apply_performs_each_call() {
    let mut ledger = PredictionMarket::new();
    let creator = party(1);
    let w = party(2);
    let created =
        ledger.apply(creator, Call::CreateMarket { creator, question: 9, end_time: DAY }, 3);
    assert_eq!(created, Ok(Reply::Created(0)));
    let staked = ledger.apply(
        w,
        Call::Stake { market_id: 0, staker: w, amount: 40, position: true },
        4,
    );
    assert_eq!(staked, Ok(Reply::Done));
    assert_eq!(ledger.apply(w, Call::GetOdds { market_id: 0 }, 4), Ok(Reply::Odds(10000)));
    assert_eq!(
        ledger.apply(w, Call::Resolve { market_id: 0, outcome: true }, 5),
        Err(LedgerError::AuthenticationFailed)
    );
    assert_eq!(
        ledger.apply(creator, Call::Resolve { market_id: 0, outcome: true }, 5),
        Ok(Reply::Done)
    );
    assert_eq!(
        ledger.apply(w, Call::Claim { market_id: 0, staker: w }, 6),
        Ok(Reply::Paid(40))
    );
    assert_eq!(
        ledger.apply(w, Call::GetStake { market_id: 0, staker: w }, 6),
        Ok(Reply::StakeRecord(Stake { staker: w, amount: 40, position: true, claimed: true }))
    );
    assert_eq!(
        ledger.apply(w, Call::GetMarket { market_id: 1 }, 6),
        Err(LedgerError::NotFound)
    );
    assert_eq!(ledger.get_market(0).unwrap().created_at, 3);
}

#[test]
fn refused_calls_change_nothing() {
    let (mut ledger, id, creator) = market_with(&[(2, 10, true), (3, 20, false)]);
    let market = ledger.get_market(id).unwrap();
    let stake = ledger.get_stake(id, party(2)).unwrap();
    assert!(ledger.stake(party(2), id, party(2), 5, false, 0).is_err());
    assert!(ledger.stake(party(2), id, party(2), 5, true, DAY + 1).is_err());
    assert!(ledger.stake(party(2), id, party(2), i128::MAX, true, 0).is_err());
    assert!(ledger.claim(party(2), id, party(2)).is_err());
    assert!(ledger.resolve(party(2), id, true).is_err());
    assert!(ledger.create_market(party(2), creator, 1, 1, 1).is_err());
    assert_eq!(ledger.get_market(id), Ok(market));
    assert_eq!(ledger.get_stake(id, party(2)), Ok(stake));
    assert_eq!(ledger.market_count(), 1);
}

#[test]
fn payout_is_the_floored_share() {
    assert_eq!(payout(1000, 1500, 1000), Ok(1500));
    assert_eq!(payout(3, 10, 7), Ok(4));
    assert_eq!(payout(1, 10, 7), Ok(1));
    assert_eq!(payout(7, 10, 7), Ok(10));
    assert_eq!(payout(0, 10, 7), Ok(0));
    assert_eq!(payout(5, 10, 0), Ok(0));
    assert_eq!(payout(i128::MAX, i128::MAX, i128::MAX), Ok(i128::MAX));
    assert_eq!(payout(2, i128::MAX, 1), Err(LedgerError::Overflow));
    assert_eq!(payout(i128::MAX, i128::MAX, 1), Err(LedgerError::Overflow));
}

#[test]
fn market_record_checks_come_in_order() {
    let creator = party(1);
    assert_eq!(Market::new(3, 8, creator, 50, 50), Err(LedgerError::InvalidEndTime));
    assert_eq!(Market::new(3, 8, creator, 49, 50), Err(LedgerError::InvalidEndTime));
    let open = Market::new(3, 8, creator, 100, 50).unwrap();
    assert!(open.is_well_formed());
    assert_eq!(open.accept(0, true, 101), Err(LedgerError::MarketEnded));
    assert_eq!(open.accept(0, true, 100), Err(LedgerError::InvalidAmount));
    assert_eq!(open.accept(5, true, 100).unwrap().total_yes, 5);
    assert_eq!(open.accept(5, false, 0).unwrap().total_no, 5);
    let full = Market { total_no: i128::MAX, ..open };
    assert!(full.is_well_formed());
    assert_eq!(full.accept(1, true, 0), Err(LedgerError::Overflow));
    assert_eq!(full.odds(), 0);
    assert_eq!(open.resolve(true), Err(LedgerError::UnstakedOutcome));
    assert_eq!(open.resolve(false), Err(LedgerError::UnstakedOutcome));
    let staked = open.accept(5, true, 60).unwrap();
    assert_eq!(staked.resolve(false), Err(LedgerError::UnstakedOutcome));
    let closed = staked.resolve(true).unwrap();
    assert!(closed.resolved && closed.outcome);
    assert!(closed.is_well_formed());
    assert_eq!(closed.resolve(false), Err(LedgerError::AlreadyResolved));
    assert_eq!(closed.resolve(true), Err(LedgerError::AlreadyResolved));
    assert_eq!(closed.accept(0, true, 101), Err(LedgerError::AlreadyResolved));
    let broken = Market { total_yes: -1, ..open };
    assert!(!broken.is_well_formed());
    let too_much = Market { total_yes: i128::MAX, total_no: 1, ..open };
    assert!(!too_much.is_well_formed());
    let ended_early = Market { end_time: 50, ..open };
    assert!(!ended_early.is_well_formed());
    let nobody_won = Market { outcome: false, ..closed };
    assert!(!nobody_won.is_well_formed());
}

#[test]
fn place_stake_updates_market_and_record_together() {
    let creator = party(1);
    let staker = party(2);
    let open = Market::new(0, 1, creator, 100, 0).unwrap();
    let (market, stake) = place_stake(&open, None, staker, 25, false, 7).unwrap();
    assert_eq!(market.total_no, 25);
    assert_eq!(stake, Stake { staker, amount: 25, position: false, claimed: false });
    assert!(stake.is_well_formed());
    let (market, stake) = place_stake(&market, Some(stake), staker, 5, false, 8).unwrap();
    assert_eq!(market.total_no, 30);
    assert_eq!(stake.amount, 30);
    assert_eq!(
        place_stake(&market, Some(stake), staker, 5, true, 8),
        Err(LedgerError::PositionConflict)
    );
    assert_eq!(
        place_stake(&market, Some(stake), staker, -5, true, 8),
        Err(LedgerError::InvalidAmount)
    );
    let held = Stake { staker, amount: i128::MAX, position: false, claimed: false };
    assert_eq!(place_stake(&open, Some(held), staker, 1, false, 8), Err(LedgerError::Overflow));
}

#[test]
fn settle_pays_winners_once_and_losers_nothing() {
    let creator = party(1);
    let staker = party(2);
    let fresh = Market::new(0, 1, creator, 100, 0).unwrap();
    let open = Market { total_yes: 1000, total_no: 500, ..fresh };
    let stake = Stake { staker, amount: 1000, position: true, claimed: false };
    assert_eq!(settle(&open, &stake), Err(LedgerError::NotResolved));
    let yes = open.resolve(true).unwrap();
    assert_eq!(settle(&yes, &stake), Ok((1500, Stake { claimed: true, ..stake })));
    assert_eq!(
        settle(&yes, &Stake { claimed: true, ..stake }),
        Err(LedgerError::AlreadyClaimed)
    );
    let no = open.resolve(false).unwrap();
    assert_eq!(settle(&no, &stake), Ok((0, stake)));
    let lopsided = Market { total_yes: 1, total_no: i128::MAX - 1, ..yes };
    assert_eq!(settle(&lopsided, &stake), Err(LedgerError::Overflow));
}

#[test]
fn claim_looks_at_the_market_before_the_record() {
    let creator = party(1);
    let staker = party(2);
    let fresh = Market::new(0, 1, creator, 100, 0).unwrap();
    let open = Market { total_yes: 30, total_no: 10, ..fresh };
    let stake = Stake { staker, amount: 30, position: true, claimed: false };
    assert_eq!(claim_stake(&open, None), Err(LedgerError::NotResolved));
    assert_eq!(claim_stake(&open, Some(stake)), Err(LedgerError::NotResolved));
    let yes = open.resolve(true).unwrap();
    assert_eq!(claim_stake(&yes, None), Err(LedgerError::NotFound));
    assert_eq!(claim_stake(&yes, Some(stake)), Ok((40, Stake { claimed: true, ..stake })));
    assert_eq!(
        claim_stake(&yes, Some(Stake { claimed: true, ..stake })),
        Err(LedgerError::AlreadyClaimed)
    );
    let no = open.resolve(false).unwrap();
    assert_eq!(claim_stake(&no, Some(stake)), Ok((0, stake)));
}
