//! Invocation boundary between a ledger engine and a versioned smart-contract
//! execution host: limited binary marshalling, per-call budget accounting,
//! protocol fee formulas, a shared content-addressed module cache, and
//! reconstruction of ledger effects from execution results.

pub mod effects;
pub mod errors;
pub mod events;
pub mod fees;
pub mod invoke;
pub mod budget;
pub mod cache;
pub mod codec;
pub mod version;
pub mod xdr;
