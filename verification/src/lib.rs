//! A binary codec for a simplified Bitcoin-style transaction format.
//!
//! The wire layout (all integers little-endian) is
//! `Transaction := version(4) VarInt(input_count) Input{input_count} lock_time(4)`,
//! where every variable-length field is counted by the CompactSize
//! variable-width integer. Each entity carries a specification-level
//! serializer and parser, and the executable codec is proved against them;
//! round-trip and truncation-safety laws are stated and proved once per
//! entity.

pub mod compact_size;
pub mod endian;
pub mod error;
pub mod outpoint;
pub mod script;
pub mod text;
pub mod transaction;
pub mod tx_input;
pub mod txid;

pub use compact_size::CompactSize;
pub use error::BitcoinError;
pub use outpoint::OutPoint;
pub use script::Script;
pub use transaction::BitcoinTransaction;
pub use tx_input::TransactionInput;
pub use txid::Txid;
