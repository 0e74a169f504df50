//! A per-user counter: one record per identity, created once and then
//! incremented by its owner, with the record's fixed 16-byte layout.

pub mod account;
pub mod ledger;
pub mod program;

pub use account::{CounterAccount, LayoutError, ACCOUNT_DISCRIMINATOR};
pub use ledger::{CounterStore, Identity};
pub use program::{increment, initialize, CounterError, Increment, Initialize};
