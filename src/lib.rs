//! Decentralized-identity documents kept as versioned ledger records, and the
//! trust verdicts computed over credentials and presentations.
pub mod ledger;
pub mod refutation;
pub mod validator;
