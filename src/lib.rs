//! A ledger of which users hold how much of which options, with a dense
//! users-by-options matrix view over it.
pub mod error;
pub mod laws;
pub mod model;
pub mod records;
pub mod store;

pub use error::StoreError;
pub use records::{OptionRecord, Ownership, User};
pub use store::{MatrixView, Store};
