//! A finalized block store with strict multi-index consistency, and the
//! decision core of a tip-following block synchronizer.

pub mod types;
pub mod sync;
pub mod store;
pub mod ledger;
