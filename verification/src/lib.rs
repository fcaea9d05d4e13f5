//! Ledger state machines for three small financial contracts: a prediction
//! market with proportional payouts, a rotating chit fund and a reputation
//! score. Each contract is a value that owns its records; every entry point
//! names the identity that authorised the call and the ledger clock, and
//! returns a typed error instead of aborting.

pub mod account;
pub mod arith;
pub mod chitfund;
pub mod error;
pub mod prediction;
pub mod reputation;

pub use account::{AccountId, AccountKind};
pub use chitfund::{ChitChain, ChitFund, Member};
pub use error::LedgerError;
pub use prediction::ledger::PredictionMarket;
pub use prediction::market::{Market, Stake};
pub use reputation::{ReputationCore, ReputationData};
