//! An SPV-style Bitcoin block-header relay.
//!
//! The crate stores and validates Bitcoin block headers, tracks the
//! canonical chain among competing forks, and answers Merkle-proof
//! inclusion and confirmation-depth queries for transactions, without
//! ever needing full block data.

pub mod errors;
pub mod hashing;
pub mod merkle;
pub mod pow;
pub mod relay;
pub mod retarget;
pub mod header;
pub mod u256;

pub use errors::Error;
pub use relay::{BtcRelay, Chain, Event, ExtBuilder, StoredHeader};
pub use header::BlockHeader;
pub use u256::U256;
