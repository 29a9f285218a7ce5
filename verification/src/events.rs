//! Structured event records the registry produces for the host's event
//! sink. The core only builds these records; delivering them is the host's
//! business.

use vstd::prelude::*;

verus! {

/// One minted-token record inside a creation event.
pub struct NftMintLog {
    pub owner_id: String,
    pub token_ids: Vec<String>,
    pub memo: Option<String>,
}

/// The kinds of event the registry produces.
pub enum EventLogVariant {
    NftMint(Vec<NftMintLog>),
}

/// A structured event record: standard name, standard version, and the
/// event payload.
pub struct EventLog {
    pub standard: String,
    pub version: String,
    pub event: EventLogVariant,
}

} // verus!
