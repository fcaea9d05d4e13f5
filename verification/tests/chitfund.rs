use stellar_finance_hub::chitfund::{STATUS_ACTIVE, STATUS_COMPLETED, STATUS_PENDING};
use stellar_finance_hub::{AccountId, ChitChain, ChitFund, LedgerError, Member};

fn party(n: u128) -> AccountId {
    AccountId::account(0, n)
}

#[test]
fn test_create_fund() {
    let mut chain = ChitChain::new();
    let creator = party(1);
    let contribution = 1000;
    let cycle_length = 30;
    let max_members = 10;

    let fund_id =
        chain.create_fund(creator, creator, contribution, cycle_length, max_members, 0).unwrap();

    let fund = chain.get_fund(fund_id).unwrap();
    assert_eq!(fund.contribution, contribution);
    assert_eq!(fund.cycle_length, cycle_length);
    assert_eq!(fund.status, 0);
}

#[test]
fn test_join_fund() {
    let mut chain = ChitChain::new();
    let creator = party(1);
    let member = party(2);

    let fund_id = chain.create_fund(creator, creator, 1000, 30, 10, 0).unwrap();
    chain.join_fund(member, fund_id, member, 0).unwrap();

    let fund = chain.get_fund(fund_id).unwrap();
    assert_eq!(fund.members.len(), 2);
}

#[test]
fn test_contribute() {
    let mut chain = ChitChain::new();
    let creator = party(1);
    let fund_id = chain.create_fund(creator, creator, 1000, 30, 10, 0).unwrap();

    chain.contribute(creator, fund_id, creator, 1000).unwrap();

    let fund = chain.get_fund(fund_id).unwrap();
    assert_eq!(fund.pot_balance, 1000);
}

#[test]
fn created_fund_is_pending_with_its_creator_as_member() {
    let mut chain = ChitChain::new();
    let creator = party(1);
    assert_eq!(chain.create_fund(creator, creator, 250, 7, 4, 99), Ok(0));
    assert_eq!(
        chain.get_fund(0),
        Ok(ChitFund {
            fund_id: 0,
            pot_balance: 0,
            members: vec![creator],
            cycle_length: 7,
            contribution: 250,
            status: STATUS_PENDING,
            creator,
            created_at: 99,
        })
    );
    assert_eq!(
        chain.get_member(0, creator),
        Ok(Member { address: creator, contributed: 0, has_received: false, joined_at: 99 })
    );
    assert_eq!(chain.create_fund(party(2), party(2), 1, 1, 1, 100), Ok(1));
    assert_eq!(chain.get_fund(1).unwrap().creator, party(2));
    assert_eq!(chain.get_fund(2), Err(LedgerError::NotFound));
}

#[test]
fn create_fund_needs_the_creator_as_caller() {
    let mut chain = ChitChain::new();
    assert_eq!(
        chain.create_fund(party(2), party(1), 250, 7, 4, 0),
        Err(LedgerError::AuthenticationFailed)
    );
    assert_eq!(chain.get_fund(0), Err(LedgerError::NotFound));
}

#[test]
fn fund_takes_more_members_than_the_limit_it_was_created_with() {
    let mut chain = ChitChain::new();
    let creator = party(1);
    let id = chain.create_fund(creator, creator, 250, 7, 2, 0).unwrap();
    assert_eq!(chain.join_fund(party(2), id, party(2), 1), Ok(()));
    assert_eq!(chain.join_fund(party(3), id, party(3), 2), Ok(()));
    assert_eq!(chain.get_fund(id).unwrap().members, vec![creator, party(2), party(3)]);
}

#[test]
fn join_is_refused_for_wrong_caller_unknown_fund_and_started_fund() {
    let mut chain = ChitChain::new();
    let creator = party(1);
    let id = chain.create_fund(creator, creator, 250, 7, 4, 0).unwrap();
    assert_eq!(chain.join_fund(party(3), id, party(2), 1), Err(LedgerError::AuthenticationFailed));
    assert_eq!(chain.join_fund(party(2), id + 1, party(2), 1), Err(LedgerError::NotFound));
    assert_eq!(chain.start_fund(creator, id), Ok(()));
    assert_eq!(chain.join_fund(party(2), id, party(2), 1), Err(LedgerError::NotAccepting));
    assert_eq!(chain.complete_fund(creator, id), Ok(()));
    assert_eq!(chain.join_fund(party(2), id, party(2), 1), Err(LedgerError::NotAccepting));
    assert_eq!(chain.get_fund(id).unwrap().members, vec![creator]);
    assert_eq!(chain.get_member(id, party(2)), Err(LedgerError::NotFound));
}

#[test]
fn joining_again_lists_the_member_twice_and_restarts_the_record() {
    let mut chain = ChitChain::new();
    let creator = party(1);
    let member = party(2);
    let id = chain.create_fund(creator, creator, 250, 7, 4, 0).unwrap();
    chain.join_fund(member, id, member, 5).unwrap();
    chain.contribute(member, id, member, 250).unwrap();
    assert_eq!(chain.get_member(id, member).unwrap().contributed, 250);
    chain.join_fund(member, id, member, 9).unwrap();
    assert_eq!(chain.get_fund(id).unwrap().members, vec![creator, member, member]);
    assert_eq!(
        chain.get_member(id, member),
        Ok(Member { address: member, contributed: 0, has_received: false, joined_at: 9 })
    );
    assert_eq!(chain.get_fund(id).unwrap().pot_balance, 250);
}

#[test]
fn contribution_goes_to_the_pot_and_to_the_record() {
    let mut chain = ChitChain::new();
    let creator = party(1);
    let member = party(2);
    let id = chain.create_fund(creator, creator, 250, 7, 4, 0).unwrap();
    chain.join_fund(member, id, member, 5).unwrap();
    chain.contribute(member, id, member, 250).unwrap();
    chain.contribute(creator, id, creator, 100).unwrap();
    chain.contribute(member, id, member, 50).unwrap();
    assert_eq!(chain.get_fund(id).unwrap().pot_balance, 400);
    assert_eq!(chain.get_member(id, member).unwrap().contributed, 300);
    assert_eq!(chain.get_member(id, creator).unwrap().contributed, 100);
    chain.start_fund(creator, id).unwrap();
    chain.contribute(member, id, member, 1).unwrap();
    assert_eq!(chain.get_fund(id).unwrap().pot_balance, 401);
}

#[test]
fn contribution_is_refused_for_strangers_and_overflow() {
    let mut chain = ChitChain::new();
    let creator = party(1);
    let id = chain.create_fund(creator, creator, 250, 7, 4, 0).unwrap();
    assert_eq!(chain.contribute(party(2), id, party(2), 10), Err(LedgerError::NotFound));
    assert_eq!(chain.contribute(party(2), id + 1, party(2), 10), Err(LedgerError::NotFound));
    assert_eq!(
        chain.contribute(party(2), id, creator, 10),
        Err(LedgerError::AuthenticationFailed)
    );
    assert_eq!(chain.contribute(creator, id, creator, i128::MAX), Ok(()));
    assert_eq!(chain.contribute(creator, id, creator, 1), Err(LedgerError::Overflow));
    assert_eq!(chain.contribute(party(2), id, party(2), 1), Err(LedgerError::Overflow));
    assert_eq!(chain.get_fund(id).unwrap().pot_balance, i128::MAX);
    assert_eq!(chain.get_member(id, creator).unwrap().contributed, i128::MAX);
}

#[test]
fn member_total_can_overflow_after_the_pot_was_emptied() {
    let mut chain = ChitChain::new();
    let creator = party(1);
    let id = chain.create_fund(creator, creator, 250, 7, 4, 0).unwrap();
    chain.contribute(creator, id, creator, i128::MAX).unwrap();
    chain.distribute(creator, id, creator).unwrap();
    assert_eq!(chain.get_fund(id).unwrap().pot_balance, 0);
    assert_eq!(chain.contribute(creator, id, creator, 1), Err(LedgerError::Overflow));
    assert_eq!(chain.get_fund(id).unwrap().pot_balance, 0);
    assert_eq!(chain.contribute(creator, id, creator, -1), Ok(()));
    assert_eq!(chain.get_fund(id).unwrap().pot_balance, -1);
    assert_eq!(chain.get_member(id, creator).unwrap().contributed, i128::MAX - 1);
}

#[test]
fn distribution_empties_the_pot_and_marks_the_member_once() {
    let mut chain = ChitChain::new();
    let creator = party(1);
    let member = party(2);
    let id = chain.create_fund(creator, creator, 250, 7, 4, 0).unwrap();
    chain.join_fund(member, id, member, 5).unwrap();
    chain.contribute(member, id, member, 250).unwrap();
    chain.contribute(creator, id, creator, 250).unwrap();
    assert_eq!(chain.distribute(member, id, member), Err(LedgerError::AuthenticationFailed));
    assert_eq!(chain.distribute(creator, id, party(3)), Err(LedgerError::NotFound));
    assert_eq!(chain.distribute(creator, id + 1, member), Err(LedgerError::NotFound));
    assert_eq!(chain.get_fund(id).unwrap().pot_balance, 500);
    assert_eq!(chain.distribute(creator, id, member), Ok(()));
    assert_eq!(chain.get_fund(id).unwrap().pot_balance, 0);
    assert_eq!(
        chain.get_member(id, member),
        Ok(Member { address: member, contributed: 250, has_received: true, joined_at: 5 })
    );
    assert!(!chain.get_member(id, creator).unwrap().has_received);
    chain.contribute(creator, id, creator, 250).unwrap();
    assert_eq!(chain.distribute(creator, id, member), Err(LedgerError::AlreadyReceived));
    assert_eq!(chain.get_fund(id).unwrap().pot_balance, 250);
    assert_eq!(chain.distribute(creator, id, creator), Ok(()));
    assert_eq!(chain.get_fund(id).unwrap().pot_balance, 0);
}

#[test]
fn status_is_set_by_the_creator_only() {
    let mut chain = ChitChain::new();
    let creator = party(1);
    let id = chain.create_fund(creator, creator, 250, 7, 4, 0).unwrap();
    assert_eq!(chain.start_fund(party(2), id), Err(LedgerError::AuthenticationFailed));
    assert_eq!(chain.complete_fund(party(2), id), Err(LedgerError::AuthenticationFailed));
    assert_eq!(chain.start_fund(creator, id + 1), Err(LedgerError::NotFound));
    assert_eq!(chain.complete_fund(creator, id + 1), Err(LedgerError::NotFound));
    assert_eq!(chain.get_fund(id).unwrap().status, STATUS_PENDING);
    assert_eq!(chain.start_fund(creator, id), Ok(()));
    assert_eq!(chain.get_fund(id).unwrap().status, STATUS_ACTIVE);
    assert_eq!(chain.complete_fund(creator, id), Ok(()));
    assert_eq!(chain.get_fund(id).unwrap().status, STATUS_COMPLETED);
    assert_eq!(chain.start_fund(creator, id), Ok(()));
    assert_eq!(chain.get_fund(id).unwrap().status, STATUS_ACTIVE);
}

#[test]
fn funds_keep_their_members_apart() {
    let mut chain = ChitChain::new();
    let a = chain.create_fund(party(1), party(1), 10, 1, 4, 0).unwrap();
    let b = chain.create_fund(party(2), party(2), 20, 2, 4, 0).unwrap();
    chain.join_fund(party(3), b, party(3), 1).unwrap();
    chain.contribute(party(3), b, party(3), 20).unwrap();
    assert_eq!(chain.get_member(a, party(3)), Err(LedgerError::NotFound));
    assert_eq!(chain.contribute(party(3), a, party(3), 20), Err(LedgerError::NotFound));
    assert_eq!(chain.get_fund(a).unwrap().pot_balance, 0);
    assert_eq!(chain.get_fund(b).unwrap().pot_balance, 20);
    assert_eq!(chain.get_fund(a).unwrap().members, vec![party(1)]);
    assert_eq!(chain.get_fund(b).unwrap().members, vec![party(2), party(3)]);
}

#[test]
fn fund_and_member_records_change_on_their_own() {
    let creator = party(1);
    let mut fund = ChitFund::new(4, creator, 10, 3, 77);
    assert_eq!(fund.enrol(party(2)), Ok(()));
    assert_eq!(fund.collect(15), Ok(()));
    assert_eq!(fund.collect(i128::MAX), Err(LedgerError::Overflow));
    assert_eq!(fund.pot_balance, 15);
    let copy = fund.duplicate();
    assert_eq!(copy, fund);
    fund.pay_out();
    assert_eq!(fund.pot_balance, 0);
    assert_eq!(copy.pot_balance, 15);
    fund.set_status(STATUS_ACTIVE);
    assert_eq!(fund.enrol(party(3)), Err(LedgerError::NotAccepting));
    assert_eq!(fund.members, vec![creator, party(2)]);

    let member = Member::new(party(2), 8);
    let credited = member.credit(40).unwrap();
    assert_eq!(credited.contributed, 40);
    assert_eq!(credited.credit(i128::MAX), Err(LedgerError::Overflow));
    assert_eq!(member.credit(i128::MIN).unwrap().contributed, i128::MIN);
    assert_eq!(member.credit(i128::MIN).unwrap().credit(-1), Err(LedgerError::Overflow));
    let paid = credited.receive().unwrap();
    assert!(paid.has_received);
    assert_eq!(paid.contributed, 40);
    assert_eq!(paid.receive(), Err(LedgerError::AlreadyReceived));
}
