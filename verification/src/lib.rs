//! A minimal donation ledger: cumulative contributions from distinct donors
//! to a single beneficiary, with a one-time registration fee deducted from a
//! donor's first transfer and paginated read-back of the records.

pub mod ledger;
pub mod laws;
