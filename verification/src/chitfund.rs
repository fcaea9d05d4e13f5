//! The chit fund: members pay into a common pot, and the creator hands the
//! pot to one member at a time.

pub mod book;
pub mod chain;
pub mod fund;

pub use chain::ChitChain;
pub use fund::{ChitFund, Member, STATUS_ACTIVE, STATUS_COMPLETED, STATUS_PENDING};
