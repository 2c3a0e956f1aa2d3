//! A digital-collectible ("kitty") registry: creation, pricing, ownership
//! transfer, purchase and breeding of uniquely identified assets, with a
//! refundable deposit bonded to each owned asset.

pub mod codec;
pub mod dna;
pub mod hashing;
pub mod ledger;
pub mod registry;
pub mod types;

pub use ledger::{BalanceRecord, Ledger};
pub use registry::Pallet;
pub use types::{AccountId, Balance, Dna, Error, Event, Gender, Kitty, KittyId, RandomContext};
