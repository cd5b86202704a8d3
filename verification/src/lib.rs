//! Cross-space bridge of a two-namespace ledger: deterministic address
//! virtualization, bridge gas accounting, call/create/withdraw initiation,
//! continuation finalization, and phantom-transaction recovery from logs.
use vstd::prelude::*;

pub mod abi;
pub mod bloom;
pub mod bridge;
pub mod bytes;
pub mod events;
pub mod gas;
pub mod hashing;
pub mod ledger;
pub mod phantom;
pub mod registry;
pub mod types;
