//! The state of the chit fund contract as a mathematical value, its
//! transitions, and the proofs that they keep its invariant.

use vstd::prelude::*;
use crate::account::AccountId;
use crate::chitfund::fund::{sum_overflows, FundView, Member, MemberEntry, STATUS_PENDING};
use crate::error::LedgerError;

verus! {

/// The state of the chit fund contract: the funds in the order of their
/// creation, and the member records in the order in which they first joined.
pub struct FundBook {
    pub funds: Seq<FundView>,
    pub members: Seq<MemberEntry>,
}

impl FundBook {
    /// The state without funds.
    pub open spec fn empty() -> FundBook {
        FundBook { funds: Seq::empty(), members: Seq::empty() }
    }

    /// The fund with the given id, if it exists.
    pub open spec fn fund(self, fund_id: u64) -> Option<FundView> {
        if fund_id < self.funds.len() {
            Some(self.funds[fund_id as int])
        } else {
            None
        }
    }

    /// Entry `j` is the record of `address` in fund `fund_id`.
    pub open spec fn holds(self, fund_id: u64, address: AccountId, j: int) -> bool {
        &&& 0 <= j < self.members.len()
        &&& self.members[j].fund_id == fund_id
        &&& self.members[j].member.address == address
    }

    /// `address` has a record in fund `fund_id`.
    pub open spec fn has_member(self, fund_id: u64, address: AccountId) -> bool {
        exists|j: int| self.holds(fund_id, address, j)
    }

    /// Where the record of `address` in fund `fund_id` stands.
    pub open spec fn member_index(self, fund_id: u64, address: AccountId) -> int {
        choose|j: int| self.holds(fund_id, address, j)
    }

    /// The record of `address` in fund `fund_id`, if there is one.
    pub open spec fn member(self, fund_id: u64, address: AccountId) -> Option<Member> {
        if self.has_member(fund_id, address) {
            Some(self.members[self.member_index(fund_id, address)].member)
        } else {
            None
        }
    }

    /// The invariant of the state.
    ///
    /// Fund ids count up from 0 in the order of creation; the list of a fund
    /// starts with its creator; whoever is on the list of a fund has a record
    /// in it, and every record belongs to someone on the list of its fund; no
    /// one has two records in one fund.
    pub open spec fn wf(self) -> bool {
        &&& forall|i: int|
            0 <= i < self.funds.len() ==> {
                &&& (#[trigger] self.funds[i]).fund_id == i
                &&& self.funds[i].members.len() >= 1
                &&& self.funds[i].members[0] == self.funds[i].creator
            }
        &&& forall|i: int, k: int|
            0 <= i < self.funds.len() && 0 <= k < self.funds[i].members.len()
                ==> self.has_member(i as u64, #[trigger] self.funds[i].members[k])
        &&& forall|j: int|
            0 <= j < self.members.len() ==> {
                &&& (#[trigger] self.members[j]).fund_id < self.funds.len()
                &&& self.funds[self.members[j].fund_id as int].members.contains(
                    self.members[j].member.address,
                )
            }
        &&& forall|j: int, k: int|
            0 <= j < k < self.members.len() ==> !({
                &&& (#[trigger] self.members[j]).fund_id == (#[trigger] self.members[k]).fund_id
                &&& self.members[j].member.address == self.members[k].member.address
            })
    }

    /// The member records with the record of `member` in fund `fund_id` set:
    /// in place where there was one, at the end where there was none.
    pub open spec fn with_member(self, fund_id: u64, member: Member) -> Seq<MemberEntry> {
        let entry = MemberEntry { fund_id, member };
        if self.has_member(fund_id, member.address) {
            self.members.update(self.member_index(fund_id, member.address), entry)
        } else {
            self.members.push(entry)
        }
    }

    /// The state with one more fund, created by `creator`.
    pub open spec fn with_fund(
        self,
        creator: AccountId,
        contribution: i128,
        cycle_length: u32,
        now: u64,
    ) -> FundBook {
        let fund_id = self.funds.len() as u64;
        FundBook {
            funds: self.funds.push(
                FundView::fresh(fund_id, creator, contribution, cycle_length, now),
            ),
            members: self.members.push(
                MemberEntry { fund_id, member: Member::fresh(creator, now) },
            ),
        }
    }

    /// The first reason, if any, for which `member` cannot join fund
    /// `fund_id`.
    pub open spec fn join_refusal(
        self,
        caller: AccountId,
        fund_id: u64,
        member: AccountId,
    ) -> Option<LedgerError> {
        if caller != member {
            Some(LedgerError::AuthenticationFailed)
        } else {
            match self.fund(fund_id) {
                None => Some(LedgerError::NotFound),
                Some(f) => if f.status != STATUS_PENDING {
                    Some(LedgerError::NotAccepting)
                } else {
                    None
                },
            }
        }
    }

    /// The state after `member` joined fund `fund_id` at clock `now`.
    pub open spec fn with_join(self, fund_id: u64, member: AccountId, now: u64) -> FundBook {
        FundBook {
            funds: self.funds.update(fund_id as int, self.funds[fund_id as int].enrolled(member)),
            members: self.with_member(fund_id, Member::fresh(member, now)),
        }
    }

    /// The first reason, if any, for which a contribution is refused.
    pub open spec fn contribute_refusal(
        self,
        caller: AccountId,
        fund_id: u64,
        contributor: AccountId,
        amount: i128,
    ) -> Option<LedgerError> {
        if caller != contributor {
            Some(LedgerError::AuthenticationFailed)
        } else {
            match self.fund(fund_id) {
                None => Some(LedgerError::NotFound),
                Some(f) => if sum_overflows(f.pot_balance, amount) {
                    Some(LedgerError::Overflow)
                } else {
                    match self.member(fund_id, contributor) {
                        None => Some(LedgerError::NotFound),
                        Some(m) => if sum_overflows(m.contributed, amount) {
                            Some(LedgerError::Overflow)
                        } else {
                            None
                        },
                    }
                },
            }
        }
    }

    /// The state after `contributor` paid `amount` into fund `fund_id`.
    pub open spec fn with_contribution(
        self,
        fund_id: u64,
        contributor: AccountId,
        amount: i128,
    ) -> FundBook {
        let j = self.member_index(fund_id, contributor);
        FundBook {
            funds: self.funds.update(fund_id as int, self.funds[fund_id as int].collected(amount)),
            members: self.members.update(
                j,
                MemberEntry { fund_id, member: self.members[j].member.credited(amount) },
            ),
        }
    }

    /// The first reason, if any, for which the pot of fund `fund_id` cannot
    /// go to `recipient`.
    pub open spec fn distribute_refusal(
        self,
        caller: AccountId,
        fund_id: u64,
        recipient: AccountId,
    ) -> Option<LedgerError> {
        match self.fund(fund_id) {
            None => Some(LedgerError::NotFound),
            Some(f) => if caller != f.creator {
                Some(LedgerError::AuthenticationFailed)
            } else {
                match self.member(fund_id, recipient) {
                    None => Some(LedgerError::NotFound),
                    Some(m) => if m.has_received {
                        Some(LedgerError::AlreadyReceived)
                    } else {
                        None
                    },
                }
            },
        }
    }

    /// The state after the pot of fund `fund_id` went to `recipient`.
    pub open spec fn with_distribution(self, fund_id: u64, recipient: AccountId) -> FundBook {
        let j = self.member_index(fund_id, recipient);
        FundBook {
            funds: self.funds.update(fund_id as int, self.funds[fund_id as int].emptied()),
            members: self.members.update(
                j,
                MemberEntry { fund_id, member: self.members[j].member.paid() },
            ),
        }
    }

    /// The first reason, if any, for which the status of fund `fund_id` cannot
    /// be set by `caller`.
    pub open spec fn status_refusal(self, caller: AccountId, fund_id: u64) -> Option<LedgerError> {
        match self.fund(fund_id) {
            None => Some(LedgerError::NotFound),
            Some(f) => if caller != f.creator {
                Some(LedgerError::AuthenticationFailed)
            } else {
                None
            },
        }
    }

    /// The state with fund `fund_id` in `status`.
    pub open spec fn with_status(self, fund_id: u64, status: u32) -> FundBook {
        FundBook {
            funds: self.funds.update(fund_id as int, self.funds[fund_id as int].in_status(status)),
            members: self.members,
        }
    }

    /// In a well-formed state an index that holds a record is the index of
    /// that record.
    pub proof fn lemma_member_index(self, fund_id: u64, address: AccountId, j: int)
        requires
            self.wf(),
            self.holds(fund_id, address, j),
        ensures
            self.has_member(fund_id, address),
            self.member_index(fund_id, address) == j,
            self.member(fund_id, address) == Some(self.members[j].member),
    {
        let k = self.member_index(fund_id, address);
        assert(self.holds(fund_id, address, k));
        if k < j {
            assert(self.members[k].fund_id == self.members[j].fund_id);
        } else if j < k {
            assert(self.members[j].fund_id == self.members[k].fund_id);
        }
    }
}

impl FundBook {
    /// A new fund keeps the state well formed.
    pub proof fn lemma_with_fund_wf(
        self,
        creator: AccountId,
        contribution: i128,
        cycle_length: u32,
        now: u64,
    )
        requires
            self.wf(),
            self.funds.len() <= u64::MAX,
        ensures
            self.with_fund(creator, contribution, cycle_length, now).wf(),
    {
        let next = self.with_fund(creator, contribution, cycle_length, now);
        let n = self.funds.len() as int;
        assert forall|i: int, k: int|
            0 <= i < next.funds.len() && 0 <= k < next.funds[i].members.len()
            implies next.has_member(i as u64, #[trigger] next.funds[i].members[k]) by {
            if i < n {
                let a = self.funds[i].members[k];
                assert(self.has_member(i as u64, a));
                let j = self.member_index(i as u64, a);
                assert(self.holds(i as u64, a, j));
                assert(next.holds(i as u64, a, j));
            } else {
                assert(next.holds(i as u64, creator, self.members.len() as int));
            }
        }
        assert forall|j: int| 0 <= j < next.members.len() implies {
            &&& (#[trigger] next.members[j]).fund_id < next.funds.len()
            &&& next.funds[next.members[j].fund_id as int].members.contains(
                next.members[j].member.address,
            )
        } by {
            if j < self.members.len() {
                assert(self.members[j].fund_id < self.funds.len());
                assert(next.funds[next.members[j].fund_id as int]
                    == self.funds[self.members[j].fund_id as int]);
            } else {
                assert(next.funds[n].members[0] == creator);
            }
        }
        assert forall|j: int, k: int| 0 <= j < k < next.members.len() implies !({
            &&& (#[trigger] next.members[j]).fund_id == (#[trigger] next.members[k]).fund_id
            &&& next.members[j].member.address == next.members[k].member.address
        }) by {
            if k >= self.members.len() {
                assert(self.members[j].fund_id < self.funds.len());
            }
        }
    }

    /// Changes that keep the list of every fund, or add to its end, and that
    /// keep whose record stands at which index, or add a record at the end for
    /// someone on the list of an existing fund who had none, keep the state
    /// well formed.
    pub proof fn lemma_wf_carries_over(self, next: FundBook)
        requires
            self.wf(),
            next.funds.len() == self.funds.len(),
            forall|i: int|
                0 <= i < self.funds.len() ==> {
                    &&& (#[trigger] next.funds[i]).fund_id == self.funds[i].fund_id
                    &&& next.funds[i].creator == self.funds[i].creator
                    &&& self.funds[i].members.is_prefix_of(next.funds[i].members)
                },
            next.members.len() >= self.members.len(),
            forall|j: int|
                0 <= j < self.members.len() ==> {
                    &&& (#[trigger] next.members[j]).fund_id == self.members[j].fund_id
                    &&& next.members[j].member.address == self.members[j].member.address
                },
            forall|j: int|
                self.members.len() <= j < next.members.len() ==> {
                    &&& (#[trigger] next.members[j]).fund_id < next.funds.len()
                    &&& !self.has_member(next.members[j].fund_id, next.members[j].member.address)
                },
            next.members.len() <= self.members.len() + 1,
            forall|i: int, k: int|
                0 <= i < next.funds.len() && self.funds[i].members.len() <= k
                    < next.funds[i].members.len() ==> next.has_member(
                    i as u64,
                    #[trigger] next.funds[i].members[k],
                ),
            forall|j: int|
                self.members.len() <= j < next.members.len() ==> next.funds[(
                #[trigger] next.members[j]).fund_id as int].members.contains(
                    next.members[j].member.address,
                ),
        ensures
            next.wf(),
    {
        assert forall|i: int| 0 <= i < next.funds.len() implies {
            &&& (#[trigger] next.funds[i]).fund_id == i
            &&& next.funds[i].members.len() >= 1
            &&& next.funds[i].members[0] == next.funds[i].creator
        } by {
            assert(self.funds[i].fund_id == i);
            assert(self.funds[i].members[0] == next.funds[i].members[0]);
        }
        assert forall|i: int, k: int|
            0 <= i < next.funds.len() && 0 <= k < next.funds[i].members.len()
            implies next.has_member(i as u64, #[trigger] next.funds[i].members[k]) by {
            assert(self.funds[i].fund_id == i);
            if k < self.funds[i].members.len() {
                let a = self.funds[i].members[k];
                assert(a == next.funds[i].members[k]);
                assert(self.has_member(i as u64, a));
                let j = self.member_index(i as u64, a);
                assert(self.holds(i as u64, a, j));
                assert(next.holds(i as u64, a, j));
            }
        }
        assert forall|j: int| 0 <= j < next.members.len() implies {
            &&& (#[trigger] next.members[j]).fund_id < next.funds.len()
            &&& next.funds[next.members[j].fund_id as int].members.contains(
                next.members[j].member.address,
            )
        } by {
            if j < self.members.len() {
                let f = self.members[j].fund_id as int;
                let a = self.members[j].member.address;
                assert(self.funds[f].members.contains(a));
                let k = choose|k: int|
                    0 <= k < self.funds[f].members.len() && self.funds[f].members[k] == a;
                assert(self.funds[f].fund_id == f);
                assert(next.funds[f].members[k] == a);
            }
        }
        assert forall|j: int, k: int| 0 <= j < k < next.members.len() implies !({
            &&& (#[trigger] next.members[j]).fund_id == (#[trigger] next.members[k]).fund_id
            &&& next.members[j].member.address == next.members[k].member.address
        }) by {
            if k >= self.members.len() {
                assert(!self.holds(next.members[k].fund_id, next.members[k].member.address, j));
            }
        }
    }

    /// A join that is not refused keeps the state well formed.
    pub proof fn lemma_with_join_wf(self, fund_id: u64, member: AccountId, now: u64)
        requires
            self.wf(),
            self.join_refusal(member, fund_id, member) is None,
        ensures
            self.with_join(fund_id, member, now).wf(),
    {
        let next = self.with_join(fund_id, member, now);
        let f = fund_id as int;
        let at = if self.has_member(fund_id, member) {
            self.member_index(fund_id, member)
        } else {
            self.members.len() as int
        };
        if self.has_member(fund_id, member) {
            assert(self.holds(fund_id, member, at));
        }
        assert(next.holds(fund_id, member, at));
        assert(next.funds[f].members[self.funds[f].members.len() as int] == member);
        assert forall|i: int|
            0 <= i < self.funds.len() implies self.funds[i].members.is_prefix_of(
            (#[trigger] next.funds[i]).members,
        ) by {
            assert(self.funds[i].members.is_prefix_of(self.funds[i].members.push(member)));
        }
        self.lemma_wf_carries_over(next);
    }

    /// A contribution that is not refused keeps the state well formed.
    pub proof fn lemma_with_contribution_wf(
        self,
        fund_id: u64,
        contributor: AccountId,
        amount: i128,
    )
        requires
            self.wf(),
            self.contribute_refusal(contributor, fund_id, contributor, amount) is None,
        ensures
            self.with_contribution(fund_id, contributor, amount).wf(),
    {
        let next = self.with_contribution(fund_id, contributor, amount);
        assert(self.holds(fund_id, contributor, self.member_index(fund_id, contributor)));
        assert forall|i: int|
            0 <= i < self.funds.len() implies self.funds[i].members.is_prefix_of(
            (#[trigger] next.funds[i]).members,
        ) by {
            assert(self.funds[i].members.is_prefix_of(self.funds[i].members));
        }
        self.lemma_wf_carries_over(next);
    }

    /// A distribution that is not refused keeps the state well formed.
    pub proof fn lemma_with_distribution_wf(
        self,
        caller: AccountId,
        fund_id: u64,
        recipient: AccountId,
    )
        requires
            self.wf(),
            self.distribute_refusal(caller, fund_id, recipient) is None,
        ensures
            self.with_distribution(fund_id, recipient).wf(),
    {
        let next = self.with_distribution(fund_id, recipient);
        assert(self.holds(fund_id, recipient, self.member_index(fund_id, recipient)));
        assert forall|i: int|
            0 <= i < self.funds.len() implies self.funds[i].members.is_prefix_of(
            (#[trigger] next.funds[i]).members,
        ) by {
            assert(self.funds[i].members.is_prefix_of(self.funds[i].members));
        }
        self.lemma_wf_carries_over(next);
    }

    /// A change of status that is not refused keeps the state well formed.
    pub proof fn lemma_with_status_wf(self, caller: AccountId, fund_id: u64, status: u32)
        requires
            self.wf(),
            self.status_refusal(caller, fund_id) is None,
        ensures
            self.with_status(fund_id, status).wf(),
    {
        let next = self.with_status(fund_id, status);
        assert forall|i: int|
            0 <= i < self.funds.len() implies self.funds[i].members.is_prefix_of(
            (#[trigger] next.funds[i]).members,
        ) by {
            assert(self.funds[i].members.is_prefix_of(self.funds[i].members));
        }
        self.lemma_wf_carries_over(next);
    }
}

/// A member who has had the pot does not get it again: once a distribution
/// was accepted, the creator's next distribution to the same member of the
/// same fund is refused with `AlreadyReceived`.
pub proof fn lemma_second_distribution_is_refused(
    book: FundBook,
    caller: AccountId,
    fund_id: u64,
    recipient: AccountId,
)
    requires
        book.wf(),
        book.distribute_refusal(caller, fund_id, recipient) is None,
    ensures
        book.with_distribution(fund_id, recipient).fund(fund_id)->Some_0.pot_balance == 0,
        book.with_distribution(fund_id, recipient).distribute_refusal(caller, fund_id, recipient)
            == Some(LedgerError::AlreadyReceived),
{
    let next = book.with_distribution(fund_id, recipient);
    let j = book.member_index(fund_id, recipient);
    assert(book.holds(fund_id, recipient, j));
    book.lemma_with_distribution_wf(caller, fund_id, recipient);
    assert(next.holds(fund_id, recipient, j));
    next.lemma_member_index(fund_id, recipient, j);
}

/// A fund that its creator has started or completed takes no new members.
pub proof fn lemma_started_fund_takes_no_members(
    book: FundBook,
    caller: AccountId,
    fund_id: u64,
    status: u32,
    member: AccountId,
)
    requires
        book.status_refusal(caller, fund_id) is None,
        status != STATUS_PENDING,
    ensures
        book.with_status(fund_id, status).join_refusal(member, fund_id, member) == Some(
            LedgerError::NotAccepting,
        ),
{
}

} // verus!
