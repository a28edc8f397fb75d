//! Identifiers of the version ledger.
//!
//! Clients and versions are named by opaque 128-bit identifiers. The all-zero
//! value is the distinguished sentinel meaning "no history yet": it is never
//! the id of a real version.

use vstd::prelude::*;

verus! {

/// Names one synchronization group (a set of devices sharing a task history).
pub type ClientId = u128;

/// Names one accepted version of a client's history.
pub type VersionId = u128;

/// Sentinel `VersionId`: the parent of the first version of every chain, and
/// the latest-version pointer of a client with no history yet.
pub const NO_VERSION_ID: VersionId = 0;

} // verus!
