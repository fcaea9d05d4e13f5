//! The contract that owns every fund and every member record.

use vstd::prelude::*;
use crate::account::AccountId;
use crate::chitfund::book::FundBook;
use crate::chitfund::fund::{
    ChitFund, FundView, Member, MemberEntry, STATUS_ACTIVE, STATUS_COMPLETED, STATUS_PENDING,
};
use crate::error::LedgerError;

verus! {

/// The chit fund contract: every fund ever created and the records of their
/// members.
///
/// Each entry point names the identity that authorised the call. A refused
/// call changes nothing.
pub struct ChitChain {
    funds: Vec<ChitFund>,
    members: Vec<MemberEntry>,
}

impl View for ChitChain {
    type V = FundBook;

    closed spec fn view(&self) -> FundBook {
        FundBook {
            funds: Seq::new(self.funds@.len(), |i: int| self.funds@[i]@),
            members: self.members@,
        }
    }
}

impl ChitChain {
    /// The invariant that every entry point needs and keeps.
    pub open spec fn wf(&self) -> bool {
        self@.wf()
    }

    /// A contract without funds.
    pub fn new() -> (chain: ChitChain)
        ensures
            chain@ == FundBook::empty(),
            chain.wf(),
    {
        let chain = ChitChain { funds: Vec::new(), members: Vec::new() };
        proof {
            assert(chain@.funds =~= Seq::<FundView>::empty());
        }
        chain
    }

    fn find_member(&self, fund_id: u64, address: AccountId) -> (r: Option<usize>)
        ensures
            match r {
                Some(j) => self@.holds(fund_id, address, j as int),
                None => !self@.has_member(fund_id, address),
            },
    {
        let mut j: usize = 0;
        while j < self.members.len()
            invariant
                j <= self.members.len(),
                forall|k: int| 0 <= k < j ==> !self@.holds(fund_id, address, k),
            decreases self.members.len() - j,
        {
            let entry: MemberEntry = self.members[j];
            if entry.fund_id == fund_id && entry.member.address == address {
                return Some(j);
            }
            j = j + 1;
        }
        None
    }

    /// Creates a pending fund with `creator` as its first member and returns
    /// its id.
    ///
    /// Ids are handed out by a counter that the contract keeps: the first fund
    /// has id 0. The caller must be the creator. `max_members` is not
    /// enforced: the fund keeps no limit, and takes members for as long as it
    /// is pending.
    #[allow(unused_variables)]
    pub fn create_fund(
        &mut self,
        caller: AccountId,
        creator: AccountId,
        contribution: i128,
        cycle_length: u32,
        max_members: u32,
        now: u64,
    ) -> (r: Result<u64, LedgerError>)
        requires
            old(self).wf(),
        ensures
            final(self).wf(),
            caller != creator ==> r == Err::<u64, LedgerError>(LedgerError::AuthenticationFailed)
                && final(self)@ == old(self)@,
            caller == creator ==> r == Ok::<u64, LedgerError>(old(self)@.funds.len() as u64)
                && final(self)@ == old(self)@.with_fund(
                creator,
                contribution,
                cycle_length,
                now,
            ),
    {
        if caller != creator {
            return Err(LedgerError::AuthenticationFailed);
        }
        let fund_id: u64 = self.funds.len() as u64;
        let fund = ChitFund::new(fund_id, creator, contribution, cycle_length, now);
        self.funds.push(fund);
        self.members.push(MemberEntry { fund_id, member: Member::new(creator, now) });
        proof {
            old(self)@.lemma_with_fund_wf(creator, contribution, cycle_length, now);
            assert(self@.funds =~= old(self)@.with_fund(
                creator,
                contribution,
                cycle_length,
                now,
            ).funds);
        }
        Ok(fund_id)
    }

    /// Adds `member` to the pending fund `fund_id`, with nothing paid in.
    ///
    /// Someone who joins a fund again is put on its list once more, and their
    /// record starts afresh: what they had paid in is no longer on it.
    pub fn join_fund(&mut self, caller: AccountId, fund_id: u64, member: AccountId, now: u64) -> (r:
        Result<(), LedgerError>)
        requires
            old(self).wf(),
        ensures
            final(self).wf(),
            match old(self)@.join_refusal(caller, fund_id, member) {
                Some(e) => r == Err::<(), LedgerError>(e) && final(self)@ == old(self)@,
                None => r is Ok && final(self)@ == old(self)@.with_join(fund_id, member, now),
            },
    {
        if caller != member {
            return Err(LedgerError::AuthenticationFailed);
        }
        if fund_id >= self.funds.len() as u64 {
            return Err(LedgerError::NotFound);
        }
        let i: usize = fund_id as usize;
        if self.funds[i].status != STATUS_PENDING {
            return Err(LedgerError::NotAccepting);
        }
        let found = self.find_member(fund_id, member);
        proof {
            match found {
                Some(j) => {
                    self@.lemma_member_index(fund_id, member, j as int);
                },
                None => {},
            }
        }
        self.funds[i].members.push(member);
        let entry = MemberEntry { fund_id, member: Member::new(member, now) };
        match found {
            Some(j) => {
                self.members.set(j, entry);
            },
            None => {
                self.members.push(entry);
            },
        }
        proof {
            old(self)@.lemma_with_join_wf(fund_id, member, now);
            assert(self@.funds =~= old(self)@.with_join(fund_id, member, now).funds);
            assert(self@.members =~= old(self)@.with_join(fund_id, member, now).members);
        }
        Ok(())
    }

    /// Pays `amount` into the pot of fund `fund_id` and onto the record of
    /// `contributor`, who must be a member.
    ///
    /// The amount is not compared with the contribution that the fund names,
    /// and the fund takes it in any status.
    pub fn contribute(
        &mut self,
        caller: AccountId,
        fund_id: u64,
        contributor: AccountId,
        amount: i128,
    ) -> (r: Result<(), LedgerError>)
        requires
            old(self).wf(),
        ensures
            final(self).wf(),
            match old(self)@.contribute_refusal(caller, fund_id, contributor, amount) {
                Some(e) => r == Err::<(), LedgerError>(e) && final(self)@ == old(self)@,
                None => r is Ok && final(self)@ == old(self)@.with_contribution(
                    fund_id,
                    contributor,
                    amount,
                ),
            },
    {
        if caller != contributor {
            return Err(LedgerError::AuthenticationFailed);
        }
        if fund_id >= self.funds.len() as u64 {
            return Err(LedgerError::NotFound);
        }
        let i: usize = fund_id as usize;
        let pot: i128 = match self.funds[i].pot_balance.checked_add(amount) {
            Some(pot) => pot,
            None => {
                return Err(LedgerError::Overflow);
            },
        };
        let j: usize = match self.find_member(fund_id, contributor) {
            Some(j) => j,
            None => {
                return Err(LedgerError::NotFound);
            },
        };
        proof {
            self@.lemma_member_index(fund_id, contributor, j as int);
        }
        let credited = match self.members[j].member.credit(amount) {
            Ok(m) => m,
            Err(e) => {
                return Err(e);
            },
        };
        self.funds[i].pot_balance = pot;
        self.members.set(j, MemberEntry { fund_id, member: credited });
        proof {
            old(self)@.lemma_with_contribution_wf(fund_id, contributor, amount);
            assert(self@.funds =~= old(self)@.with_contribution(
                fund_id,
                contributor,
                amount,
            ).funds);
            assert(self@.members =~= old(self)@.with_contribution(
                fund_id,
                contributor,
                amount,
            ).members);
        }
        Ok(())
    }

    /// Hands the pot of fund `fund_id` to `recipient`: the pot is emptied and
    /// the member is marked as having received. Only the creator of the fund
    /// may do so, and each member receives once.
    pub fn distribute(
        &mut self,
        caller: AccountId,
        fund_id: u64,
        recipient: AccountId,
    ) -> (r: Result<(),LedgerError>)
        requires
            old(self).wf(),
        ensures
            final(self).wf(),
            match old(self)@.distribute_refusal(caller, fund_id, recipient) {
                Some(e) => r == Err::<(), LedgerError>(e) && final(self)@ == old(self)@,
                None => r is Ok && final(self)@ == old(self)@.with_distribution(
                    fund_id,
                    recipient,
                ),
            },
    {
        if fund_id >= self.funds.len() as u64 {
            return Err(LedgerError::NotFound);
        }
        let i: usize = fund_id as usize;
        if caller != self.funds[i].creator {
            return Err(LedgerError::AuthenticationFailed);
        }
        let j: usize = match self.find_member(fund_id, recipient) {
            Some(j) => j,
            None => {
                return Err(LedgerError::NotFound);
            },
        };
        proof {
            self@.lemma_member_index(fund_id, recipient, j as int);
        }
        let paid = match self.members[j].member.receive() {
            Ok(m) => m,
            Err(e) => {
                return Err(e);
            },
        };
        self.funds[i].pot_balance = 0;
        self.members.set(j, MemberEntry { fund_id, member: paid });
        proof {
            old(self)@.lemma_with_distribution_wf(caller, fund_id, recipient);
            assert(self@.funds =~= old(self)@.with_distribution(fund_id, recipient).funds);
            assert(self@.members =~= old(self)@.with_distribution(fund_id, recipient).members);
        }
        Ok(())
    }

    /// The record of fund `fund_id`.
    pub fn get_fund(&self, fund_id: u64) -> (r: Result<ChitFund, LedgerError>)
        ensures
            match self@.fund(fund_id) {
                Some(f) => r is Ok && r->Ok_0@ == f,
                None => r is Err && r->Err_0 == LedgerError::NotFound,
            },
    {
        if fund_id >= self.funds.len() as u64 {
            return Err(LedgerError::NotFound);
        }
        Ok(self.funds[fund_id as usize].duplicate())
    }

    /// The record of `member` in fund `fund_id`.
    pub fn get_member(&self, fund_id: u64, member: AccountId) -> (r: Result<Member, LedgerError>)
        requires
            self.wf(),
        ensures
            match self@.member(fund_id, member) {
                Some(m) => r == Ok::<Member, LedgerError>(m),
                None => r == Err::<Member, LedgerError>(LedgerError::NotFound),
            },
    {
        match self.find_member(fund_id, member) {
            Some(j) => {
                proof {
                    self@.lemma_member_index(fund_id, member, j as int);
                }
                Ok(self.members[j].member)
            },
            None => Err(LedgerError::NotFound),
        }
    }

    fn change_status(&mut self, caller: AccountId, fund_id: u64, status: u32) -> (r: Result<
        (),
        LedgerError,
    >)
        requires
            old(self).wf(),
        ensures
            final(self).wf(),
            match old(self)@.status_refusal(caller, fund_id) {
                Some(e) => r == Err::<(), LedgerError>(e) && final(self)@ == old(self)@,
                None => r is Ok && final(self)@ == old(self)@.with_status(fund_id, status),
            },
    {
        if fund_id >= self.funds.len() as u64 {
            return Err(LedgerError::NotFound);
        }
        let i: usize = fund_id as usize;
        if caller != self.funds[i].creator {
            return Err(LedgerError::AuthenticationFailed);
        }
        self.funds[i].status = status;
        proof {
            old(self)@.lemma_with_status_wf(caller, fund_id, status);
            assert(self@.funds =~= old(self)@.with_status(fund_id, status).funds);
        }
        Ok(())
    }

    /// Puts fund `fund_id` into the active status, from whatever status it is
    /// in; it then takes no new members. Only the creator may do so.
    pub fn start_fund(&mut self, caller: AccountId, fund_id: u64) -> (r: Result<(), LedgerError>)
        requires
            old(self).wf(),
        ensures
            final(self).wf(),
            match old(self)@.status_refusal(caller, fund_id) {
                Some(e) => r == Err::<(), LedgerError>(e) && final(self)@ == old(self)@,
                None => r is Ok && final(self)@ == old(self)@.with_status(
                    fund_id,
                    STATUS_ACTIVE,
                ),
            },
    {
        self.change_status(caller, fund_id, STATUS_ACTIVE)
    }

    /// Puts fund `fund_id` into the completed status, from whatever status it
    /// is in. Only the creator may do so.
    pub fn complete_fund(&mut self, caller: AccountId, fund_id: u64) -> (r: Result<(), LedgerError>)
        requires
            old(self).wf(),
        ensures
            final(self).wf(),
            match old(self)@.status_refusal(caller, fund_id) {
                Some(e) => r == Err::<(), LedgerError>(e) && final(self)@ == old(self)@,
                None => r is Ok && final(self)@ == old(self)@.with_status(
                    fund_id,
                    STATUS_COMPLETED,
                ),
            },
    {
        self.change_status(caller, fund_id, STATUS_COMPLETED)
    }
}

} // verus!
