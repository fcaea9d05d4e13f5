//! Reputation scores: one bounded score per account.

use vstd::prelude::*;
use crate::account::AccountId;
use crate::error::LedgerError;

verus! {

/// The score of an account that has no record yet.
pub const DEFAULT_SCORE: u32 = 500;

/// The highest score.
pub const MAX_SCORE: u32 = 1000;

/// The reputation of one account.
#[derive(Clone, Copy, Debug, PartialEq, Eq, Structural)]
pub struct ReputationData {
    pub score: u32,
    pub total_interactions: u32,
    pub last_updated: u64,
}

/// `score` moved by `delta`: a rise stops at `MAX_SCORE`, a fall stops at 0.
pub open spec fn moved_score(score: u32, delta: int) -> int {
    if delta < 0 {
        if score + delta < 0 {
            0
        } else {
            score + delta
        }
    } else {
        if score + delta > MAX_SCORE {
            MAX_SCORE as int
        } else {
            score + delta
        }
    }
}

impl ReputationData {
    /// What is assumed of an account without a record: the default score and
    /// no interactions.
    pub open spec fn initial() -> ReputationData {
        ReputationData { score: DEFAULT_SCORE, total_interactions: 0, last_updated: 0 }
    }

    /// The score is at most `MAX_SCORE`.
    pub open spec fn wf(&self) -> bool {
        self.score <= MAX_SCORE
    }

    /// The record after one more interaction at clock `now` that moves the
    /// score by `delta`.
    pub open spec fn moved(&self, delta: int, now: u64) -> ReputationData {
        ReputationData {
            score: moved_score(self.score, delta) as u32,
            total_interactions: (self.total_interactions + 1) as u32,
            last_updated: now,
        }
    }

    /// The record of an account that has not been seen yet.
    pub fn new() -> (data: ReputationData)
        ensures
            data == ReputationData::initial(),
            data.wf(),
    {
        ReputationData { score: DEFAULT_SCORE, total_interactions: 0, last_updated: 0 }
    }

    /// Whether the record is well formed.
    pub fn is_well_formed(&self) -> (ok: bool)
        ensures
            ok == self.wf(),
    {
        self.score <= MAX_SCORE
    }

    /// Counts one interaction at clock `now` and moves the score by `delta`,
    /// which may be any amount up or down; the score stays between 0 and
    /// `MAX_SCORE`. Refused with `Overflow` once the count of interactions has
    /// reached the end of its range.
    pub fn adjust(&self, delta: i64, now: u64) -> (r: Result<ReputationData, LedgerError>)
        requires
            self.wf(),
        ensures
            self.total_interactions == u32::MAX ==> r == Err::<ReputationData, LedgerError>(
                LedgerError::Overflow,
            ),
            self.total_interactions < u32::MAX ==> r == Ok::<ReputationData, LedgerError>(
                self.moved(delta as int, now),
            ),
            r is Ok ==> r->Ok_0.wf(),
    {
        if self.total_interactions == u32::MAX {
            return Err(LedgerError::Overflow);
        }
        let score: u32 = if delta < 0 {
            if delta <= -(self.score as i64) {
                0
            } else {
                (self.score as i64 + delta) as u32
            }
        } else {
            if delta >= (MAX_SCORE - self.score) as i64 {
                MAX_SCORE
            } else {
                (self.score as i64 + delta) as u32
            }
        };
        Ok(
            ReputationData {
                score,
                total_interactions: self.total_interactions + 1,
                last_updated: now,
            },
        )
    }
}

/// The record of one account.
#[derive(Clone, Copy, Debug, PartialEq, Eq, Structural)]
pub struct ReputationEntry {
    pub account: AccountId,
    pub data: ReputationData,
}

/// The state of the reputation contract: whether it was initialised, and the
/// records of the accounts in the order in which they were first updated.
pub struct ReputationBook {
    pub initialized: bool,
    pub entries: Seq<ReputationEntry>,
}

impl ReputationBook {
    /// The state before any call.
    pub open spec fn empty() -> ReputationBook {
        ReputationBook { initialized: false, entries: Seq::empty() }
    }

    /// Entry `j` is the record of `account`.
    pub open spec fn holds(self, account: AccountId, j: int) -> bool {
        0 <= j < self.entries.len() && self.entries[j].account == account
    }

    /// `account` has a record.
    pub open spec fn has_record(self, account: AccountId) -> bool {
        exists|j: int| self.holds(account, j)
    }

    /// Where the record of `account` stands.
    pub open spec fn record_index(self, account: AccountId) -> int {
        choose|j: int| self.holds(account, j)
    }

    /// The reputation of `account`: its record, or the initial reputation.
    pub open spec fn data(self, account: AccountId) -> ReputationData {
        if self.has_record(account) {
            self.entries[self.record_index(account)].data
        } else {
            ReputationData::initial()
        }
    }

    /// No account has two records, and every score is at most `MAX_SCORE`.
    pub open spec fn wf(self) -> bool {
        &&& forall|j: int| 0 <= j < self.entries.len() ==> (#[trigger] self.entries[j]).data.wf()
        &&& forall|j: int, k: int|
            0 <= j < k < self.entries.len() ==> (#[trigger] self.entries[j]).account != (
            #[trigger] self.entries[k]).account
    }

    /// The first reason, if any, for which an update of `account` is refused.
    pub open spec fn update_refusal(self, caller: AccountId, account: AccountId) -> Option<
        LedgerError,
    > {
        if caller != account {
            Some(LedgerError::AuthenticationFailed)
        } else if self.data(account).total_interactions == u32::MAX {
            Some(LedgerError::Overflow)
        } else {
            None
        }
    }

    /// The state after the record of `account` was set to `data`.
    pub open spec fn with_data(self, account: AccountId, data: ReputationData) -> ReputationBook {
        let entry = ReputationEntry { account, data };
        ReputationBook {
            initialized: self.initialized,
            entries: if self.has_record(account) {
                self.entries.update(self.record_index(account), entry)
            } else {
                self.entries.push(entry)
            },
        }
    }

    /// The state after one interaction of `account` at clock `now` that moves
    /// its score by `delta`.
    pub open spec fn with_update(self, account: AccountId, delta: int, now: u64) -> ReputationBook {
        self.with_data(account, self.data(account).moved(delta, now))
    }

    /// In a well-formed state an index that holds a record is the index of
    /// that record.
    pub proof fn lemma_record_index(self, account: AccountId, j: int)
        requires
            self.wf(),
            self.holds(account, j),
        ensures
            self.has_record(account),
            self.record_index(account) == j,
            self.data(account) == self.entries[j].data,
    {
        let k = self.record_index(account);
        assert(self.holds(account, k));
        if k < j {
            assert(self.entries[k].account != self.entries[j].account);
        } else if j < k {
            assert(self.entries[j].account != self.entries[k].account);
        }
    }

    /// Setting a well-formed record keeps the state well formed, and changes
    /// the reputation of that account and of no other.
    pub proof fn lemma_with_data(self, account: AccountId, data: ReputationData)
        requires
            self.wf(),
            data.wf(),
        ensures
            self.with_data(account, data).wf(),
            self.with_data(account, data).data(account) == data,
            forall|other: AccountId|
                other != account ==> #[trigger] self.with_data(account, data).data(other)
                    == self.data(other),
    {
        let next = self.with_data(account, data);
        let at = if self.has_record(account) {
            self.record_index(account)
        } else {
            self.entries.len() as int
        };
        if self.has_record(account) {
            assert(self.holds(account, at));
        }
        assert(next.holds(account, at));
        assert forall|j: int, k: int| 0 <= j < k < next.entries.len() implies (
        #[trigger] next.entries[j]).account != (#[trigger] next.entries[k]).account by {
            if k < self.entries.len() {
                assert(self.entries[j].account != self.entries[k].account);
            } else {
                assert(!self.holds(account, j));
            }
        }
        next.lemma_record_index(account, at);
        assert forall|other: AccountId| other != account implies #[trigger] next.data(other)
            == self.data(other) by {
            if self.has_record(other) {
                let j = self.record_index(other);
                assert(self.holds(other, j));
                assert(next.holds(other, j));
                next.lemma_record_index(other, j);
            } else {
                if next.has_record(other) {
                    let j = next.record_index(other);
                    assert(next.holds(other, j));
                    assert(self.holds(other, j));
                }
            }
        }
    }
}

/// The reputation contract: the records of all accounts.
///
/// An account without a record has the default score. Every change of a score
/// is authorised by the account itself.
pub struct ReputationCore {
    initialized: bool,
    entries: Vec<ReputationEntry>,
}

impl View for ReputationCore {
    type V = ReputationBook;

    closed spec fn view(&self) -> ReputationBook {
        ReputationBook { initialized: self.initialized, entries: self.entries@ }
    }
}

impl ReputationCore {
    /// The invariant that every entry point needs and keeps.
    pub open spec fn wf(&self) -> bool {
        self@.wf()
    }

    /// A contract without records, not yet initialised.
    pub fn new() -> (core: ReputationCore)
        ensures
            core@ == ReputationBook::empty(),
            core.wf(),
    {
        ReputationCore { initialized: false, entries: Vec::new() }
    }

    /// Marks the contract as initialised; the records stay as they are.
    pub fn initialize(&mut self)
        ensures
            final(self)@ == (ReputationBook { initialized: true, entries: old(self)@.entries }),
    {
        self.initialized = true;
    }

    /// Whether `initialize` was called.
    pub fn is_initialized(&self) -> (yes: bool)
        ensures
            yes == self@.initialized,
    {
        self.initialized
    }

    fn find(&self, account: AccountId) -> (r: Option<usize>)
        ensures
            match r {
                Some(j) => self@.holds(account, j as int),
                None => !self@.has_record(account),
            },
    {
        let mut j: usize = 0;
        while j < self.entries.len()
            invariant
                j <= self.entries.len(),
                forall|k: int| 0 <= k < j ==> !self@.holds(account, k),
            decreases self.entries.len() - j,
        {
            if self.entries[j].account == account {
                return Some(j);
            }
            j = j + 1;
        }
        None
    }

    /// The reputation of `account`: its record, or the default score without
    /// interactions where it has none.
    pub fn get_reputation_data(&self, account: AccountId) -> (data: ReputationData)
        requires
            self.wf(),
        ensures
            data == self@.data(account),
            data.wf(),
    {
        match self.find(account) {
            Some(j) => {
                proof {
                    self@.lemma_record_index(account, j as int);
                }
                self.entries[j].data
            },
            None => ReputationData::new(),
        }
    }

    /// The score of `account`, 500 where it has no record.
    pub fn get_reputation(&self, account: AccountId) -> (score: u32)
        requires
            self.wf(),
        ensures
            score == self@.data(account).score,
            score <= MAX_SCORE,
    {
        self.get_reputation_data(account).score
    }

    /// Whether the score of `account` is at least `threshold`.
    pub fn meets_threshold(&self, account: AccountId, threshold: u32) -> (yes: bool)
        requires
            self.wf(),
        ensures
            yes == (self@.data(account).score >= threshold),
    {
        self.get_reputation(account) >= threshold
    }

    fn change(&mut self, caller: AccountId, account: AccountId, delta: i64, now: u64) -> (r:
        Result<(), LedgerError>)
        requires
            old(self).wf(),
        ensures
            final(self).wf(),
            match old(self)@.update_refusal(caller, account) {
                Some(e) => r == Err::<(), LedgerError>(e) && final(self)@ == old(self)@,
                None => r is Ok && final(self)@ == old(self)@.with_update(
                    account,
                    delta as int,
                    now,
                ),
            },
    {
        if caller != account {
            return Err(LedgerError::AuthenticationFailed);
        }
        let found = self.find(account);
        let current: ReputationData = match found {
            Some(j) => {
                proof {
                    self@.lemma_record_index(account, j as int);
                }
                self.entries[j].data
            },
            None => ReputationData::new(),
        };
        let updated = match current.adjust(delta, now) {
            Ok(d) => d,
            Err(e) => {
                return Err(e);
            },
        };
        let entry = ReputationEntry { account, data: updated };
        match found {
            Some(j) => {
                self.entries.set(j, entry);
            },
            None => {
                self.entries.push(entry);
            },
        }
        proof {
            old(self)@.lemma_with_data(account, updated);
            assert(self@.entries =~= old(self)@.with_update(account, delta as int, now).entries);
        }
        Ok(())
    }

    /// Counts one interaction of `account` at clock `now` and moves its score
    /// by `delta`, up or down, within 0 and `MAX_SCORE`. The caller must be
    /// the account.
    pub fn update_reputation(
        &mut self,
        caller: AccountId,
        account: AccountId,
        delta: i32,
        now: u64,
    ) -> (r: Result<(), LedgerError>)
        requires
            old(self).wf(),
        ensures
            final(self).wf(),
            match old(self)@.update_refusal(caller, account) {
                Some(e) => r == Err::<(), LedgerError>(e) && final(self)@ == old(self)@,
                None => r is Ok && final(self)@ == old(self)@.with_update(
                    account,
                    delta as int,
                    now,
                ),
            },
    {
        self.change(caller, account, delta as i64, now)
    }

    /// Raises the score of `account` by `amount`, to at most `MAX_SCORE`.
    pub fn increment(&mut self, caller: AccountId, account: AccountId, amount: u32, now: u64) -> (r:
        Result<(), LedgerError>)
        requires
            old(self).wf(),
        ensures
            final(self).wf(),
            match old(self)@.update_refusal(caller, account) {
                Some(e) => r == Err::<(), LedgerError>(e) && final(self)@ == old(self)@,
                None => r is Ok && final(self)@ == old(self)@.with_update(
                    account,
                    amount as int,
                    now,
                ),
            },
    {
        self.change(caller, account, amount as i64, now)
    }

    /// Lowers the score of `account` by `amount`, to at least 0.
    pub fn decrement(&mut self, caller: AccountId, account: AccountId, amount: u32, now: u64) -> (r:
        Result<(), LedgerError>)
        requires
            old(self).wf(),
        ensures
            final(self).wf(),
            match old(self)@.update_refusal(caller, account) {
                Some(e) => r == Err::<(), LedgerError>(e) && final(self)@ == old(self)@,
                None => r is Ok && final(self)@ == old(self)@.with_update(
                    account,
                    -(amount as int),
                    now,
                ),
            },
    {
        self.change(caller, account, -(amount as i64), now)
    }
}

/// After an accepted update, the score of the account is its former score
/// moved by `delta` and kept within 0 and `MAX_SCORE`, its interactions have
/// grown by one, and every other account is as it was.
pub proof fn lemma_update_moves_one_score(
    book: ReputationBook,
    account: AccountId,
    delta: int,
    now: u64,
)
    requires
        book.wf(),
        book.update_refusal(account, account) is None,
    ensures
        book.with_update(account, delta, now).wf(),
        book.with_update(account, delta, now).data(account).score == moved_score(
            book.data(account).score,
            delta,
        ),
        0 <= book.with_update(account, delta, now).data(account).score <= MAX_SCORE,
        book.with_update(account, delta, now).data(account).total_interactions == book.data(
            account,
        ).total_interactions + 1,
        forall|other: AccountId|
            other != account ==> #[trigger] book.with_update(account, delta, now).data(other)
                == book.data(other),
{
    if book.has_record(account) {
        assert(book.holds(account, book.record_index(account)));
    }
    book.lemma_with_data(account, book.data(account).moved(delta, now));
}

} // verus!
