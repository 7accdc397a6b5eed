pub mod codec;
pub mod consensus;
pub mod crypto;
pub mod hashing;
pub mod ledger;
pub mod script;
pub mod types;
