//! Parsing of pacman's operation log: each line into an entry, and the entries into the
//! transactions that they record.
pub mod entry;
pub mod error;
pub mod issuer;
pub mod message;
mod text;
pub mod timestamp;
pub mod transaction;
pub mod transactions;

pub use entry::Entry;
pub use error::Error;
pub use issuer::Issuer;
pub use message::{Message, Package, Upgrade};
pub use timestamp::{Timestamp, TIME_FORMAT};
pub use transaction::Transaction;
pub use transactions::{transactions, Aggregator};
