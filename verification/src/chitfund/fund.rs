//! Fund and member records, and the changes of a single record.

use vstd::prelude::*;
use crate::account::AccountId;
use crate::error::LedgerError;

verus! {


/// The fund is being formed and takes new members.
pub const STATUS_PENDING: u32 = 0;

/// The fund is running.
pub const STATUS_ACTIVE: u32 = 1;

/// The fund has come to its end.
pub const STATUS_COMPLETED: u32 = 2;

/// A fund: its pot, its terms and the list of those who joined.
#[derive(Clone, Debug, PartialEq, Eq)]
pub struct ChitFund {
    pub fund_id: u64,
    pub pot_balance: i128,
    pub members: Vec<AccountId>,
    /// In days.
    pub cycle_length: u32,
    pub contribution: i128,
    /// One of `STATUS_PENDING`, `STATUS_ACTIVE`, `STATUS_COMPLETED`.
    pub status: u32,
    pub creator: AccountId,
    pub created_at: u64,
}

/// A fund as a mathematical value.
pub struct FundView {
    pub fund_id: u64,
    pub pot_balance: i128,
    pub members: Seq<AccountId>,
    pub cycle_length: u32,
    pub contribution: i128,
    pub status: u32,
    pub creator: AccountId,
    pub created_at: u64,
}

impl View for ChitFund {
    type V = FundView;

    open spec fn view(&self) -> FundView {
        FundView {
            fund_id: self.fund_id,
            pot_balance: self.pot_balance,
            members: self.members@,
            cycle_length: self.cycle_length,
            contribution: self.contribution,
            status: self.status,
            creator: self.creator,
            created_at: self.created_at,
        }
    }
}

impl FundView {
    /// The fund as it is right after its creation: pending, with an empty pot
    /// and the creator as its only member.
    pub open spec fn fresh(
        fund_id: u64,
        creator: AccountId,
        contribution: i128,
        cycle_length: u32,
        now: u64,
    ) -> FundView {
        FundView {
            fund_id,
            pot_balance: 0,
            members: seq![creator],
            cycle_length,
            contribution,
            status: STATUS_PENDING,
            creator,
            created_at: now,
        }
    }

    /// The fund with `member` at the end of its list.
    pub open spec fn enrolled(self, member: AccountId) -> FundView {
        FundView { members: self.members.push(member), ..self }
    }

    /// The fund with `amount` more in the pot.
    pub open spec fn collected(self, amount: i128) -> FundView {
        FundView { pot_balance: (self.pot_balance + amount) as i128, ..self }
    }

    /// The fund with an empty pot.
    pub open spec fn emptied(self) -> FundView {
        FundView { pot_balance: 0, ..self }
    }

    /// The fund in the given status.
    pub open spec fn in_status(self, status: u32) -> FundView {
        FundView { status, ..self }
    }
}

/// Whether `a + b` leaves the range of the amount type.
pub open spec fn sum_overflows(a: i128, b: i128) -> bool {
    a + b > i128::MAX || a + b < i128::MIN
}

impl ChitFund {
    /// A pending fund with an empty pot and the creator as its only member.
    pub fn new(
        fund_id: u64,
        creator: AccountId,
        contribution: i128,
        cycle_length: u32,
        now: u64,
    ) -> (fund: ChitFund)
        ensures
            fund@ == FundView::fresh(fund_id, creator, contribution, cycle_length, now),
    {
        let mut members: Vec<AccountId> = Vec::new();
        members.push(creator);
        proof {
            assert(members@ =~= seq![creator]);
        }
        ChitFund {
            fund_id,
            pot_balance: 0,
            members,
            cycle_length,
            contribution,
            status: STATUS_PENDING,
            creator,
            created_at: now,
        }
    }

    /// Puts `member` at the end of the list; a fund that is no longer pending
    /// refuses with `NotAccepting`.
    pub fn enrol(&mut self, member: AccountId) -> (r: Result<(), LedgerError>)
        ensures
            old(self).status != STATUS_PENDING ==> r == Err::<(), LedgerError>(
                LedgerError::NotAccepting,
            ) && final(self)@ == old(self)@,
            old(self).status == STATUS_PENDING ==> r is Ok && final(self)@ == old(
                self,
            )@.enrolled(member),
    {
        if self.status != STATUS_PENDING {
            return Err(LedgerError::NotAccepting);
        }
        self.members.push(member);
        Ok(())
    }

    /// Adds `amount` to the pot; refused with `Overflow` where the pot would
    /// leave the range of the amount type.
    pub fn collect(&mut self, amount: i128) -> (r: Result<(), LedgerError>)
        ensures
            sum_overflows(old(self).pot_balance, amount) ==> r == Err::<(), LedgerError>(
                LedgerError::Overflow,
            ) && final(self)@ == old(self)@,
            !sum_overflows(old(self).pot_balance, amount) ==> r is Ok && final(self)@ == old(
                self,
            )@.collected(amount),
    {
        match self.pot_balance.checked_add(amount) {
            Some(pot) => {
                self.pot_balance = pot;
                Ok(())
            },
            None => Err(LedgerError::Overflow),
        }
    }

    /// Empties the pot.
    pub fn pay_out(&mut self)
        ensures
            final(self)@ == old(self)@.emptied(),
    {
        self.pot_balance = 0;
    }

    /// Puts the fund into `status`.
    pub fn set_status(&mut self, status: u32)
        ensures
            final(self)@ == old(self)@.in_status(status),
    {
        self.status = status;
    }

    /// A copy of the fund.
    pub fn duplicate(&self) -> (copy: ChitFund)
        ensures
            copy@ == self@,
    {
        let mut members: Vec<AccountId> = Vec::new();
        let mut k: usize = 0;
        while k < self.members.len()
            invariant
                k <= self.members.len(),
                members@ == self.members@.subrange(0, k as int),
            decreases self.members.len() - k,
        {
            members.push(self.members[k]);
            proof {
                assert(members@ =~= self.members@.subrange(0, k + 1));
            }
            k = k + 1;
        }
        proof {
            assert(members@ =~= self.members@);
        }
        ChitFund {
            fund_id: self.fund_id,
            pot_balance: self.pot_balance,
            members,
            cycle_length: self.cycle_length,
            contribution: self.contribution,
            status: self.status,
            creator: self.creator,
            created_at: self.created_at,
        }
    }
}

/// What one member has paid in, and whether they have had the pot.
#[derive(Clone, Copy, Debug, PartialEq, Eq, Structural)]
pub struct Member {
    pub address: AccountId,
    pub contributed: i128,
    pub has_received: bool,
    pub joined_at: u64,
}

impl Member {
    /// The record of a member who has just joined.
    pub open spec fn fresh(address: AccountId, now: u64) -> Member {
        Member { address, contributed: 0, has_received: false, joined_at: now }
    }

    /// The record with `amount` more paid in.
    pub open spec fn credited(&self, amount: i128) -> Member {
        Member { contributed: (self.contributed + amount) as i128, ..*self }
    }

    /// The record of a member who has had the pot.
    pub open spec fn paid(&self) -> Member {
        Member { has_received: true, ..*self }
    }

    /// The record of a member who joins at clock `now`.
    pub fn new(address: AccountId, now: u64) -> (member: Member)
        ensures
            member == Member::fresh(address, now),
    {
        Member { address, contributed: 0, has_received: false, joined_at: now }
    }

    /// Adds `amount` to what the member has paid in; refused with `Overflow`
    /// where the sum would leave the range of the amount type.
    pub fn credit(&self, amount: i128) -> (r: Result<Member, LedgerError>)
        ensures
            sum_overflows(self.contributed, amount) ==> r == Err::<Member, LedgerError>(
                LedgerError::Overflow,
            ),
            !sum_overflows(self.contributed, amount) ==> r == Ok::<Member, LedgerError>(
                self.credited(amount),
            ),
    {
        match self.contributed.checked_add(amount) {
            Some(sum) => {
                let mut next: Member = *self;
                next.contributed = sum;
                Ok(next)
            },
            None => Err(LedgerError::Overflow),
        }
    }

    /// Marks the member as having had the pot; a member who has had it
    /// refuses with `AlreadyReceived`.
    pub fn receive(&self) -> (r: Result<Member, LedgerError>)
        ensures
            self.has_received ==> r == Err::<Member, LedgerError>(LedgerError::AlreadyReceived),
            !self.has_received ==> r == Ok::<Member, LedgerError>(self.paid()),
    {
        if self.has_received {
            return Err(LedgerError::AlreadyReceived);
        }
        let mut next: Member = *self;
        next.has_received = true;
        Ok(next)
    }
}

/// A member record together with the fund it belongs to.
#[derive(Clone, Copy, Debug, PartialEq, Eq, Structural)]
pub struct MemberEntry {
    pub fund_id: u64,
    pub member: Member,
}

} // verus!
