//! A non-fungible-token ledger: unique token identifiers mapped to owners,
//! metadata and single-use transfer approvals, with batch operations that
//! either apply whole or leave the ledger untouched.
pub mod error;
pub mod ledger;
pub mod token_ids;
pub mod registry;
pub mod laws;

pub use error::Error;
pub use ledger::{Event, Meta, Principal, TokenId};
pub use registry::CEP47;
