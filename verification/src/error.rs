//! The reasons for which an entry point refuses a call.

use vstd::prelude::*;

verus! {

/// Why a call was refused. A refused call leaves the ledger as it was.
#[derive(Clone, Copy, Debug, PartialEq, Eq, Hash, Structural)]
pub enum LedgerError {
    /// The record that the call names does not exist.
    NotFound,
    /// The market has been resolved and takes no further stakes or outcomes.
    AlreadyResolved,
    /// The ledger clock has passed the market's end time.
    MarketEnded,
    /// The market has no outcome yet.
    NotResolved,
    /// The winnings of this stake have been paid out.
    AlreadyClaimed,
    /// The caller is not the identity that this call needs.
    AuthenticationFailed,
    /// The amount is zero or negative.
    InvalidAmount,
    /// The end time of the market is not after the clock at its creation.
    InvalidEndTime,
    /// Nothing is staked on the side that the outcome names.
    UnstakedOutcome,
    /// The staker already holds a stake on the other side of the market.
    PositionConflict,
    /// A balance or a counter would leave the range of its type.
    Overflow,
    /// The fund has left its pending state and takes no new members.
    NotAccepting,
    /// The member has had their turn at the pot.
    AlreadyReceived,
}

} // verus!
