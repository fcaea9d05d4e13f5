//! The prediction market: records, the settlement calculator, the ledger that
//! owns the records, and the laws that hold of it.

pub mod laws;
pub mod ledger;
pub mod machine;
pub mod market;
pub mod state;
