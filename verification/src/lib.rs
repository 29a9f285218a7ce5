//! A verified token registry: an ownership map from token ids to owners, a
//! derived owner index, a metadata store, an admin role gate, and storage
//! accounting that reconciles each mutation's cost against a caller budget.
//!
//! The hosting environment (caller identity, clock, budget ledger, event
//! sink) is an external collaborator: callers pass identity, timestamp and
//! attached budget in as plain values, and receive refunds and event records
//! back as plain values.

pub mod events;
pub mod kvlist;
pub mod laws;
pub mod metadata;
pub mod ops;
pub mod registry;

pub use events::{EventLog, EventLogVariant, NftMintLog};
pub use metadata::{
    gyde_token_metadata_sample, sample_token_metadata, MetaV, TokenMetadata, UserType,
};
pub use ops::{MintOutcome, STORAGE_PRICE_PER_UNIT};
pub use registry::{Contract, JsonToken, RegistryError, Token};
