//! Observer library for a price-oracle chain: classifies block events,
//! drives a resilient ingestion state machine, and aggregates validator
//! price votes into windowed consensus averages with drift, abstain and
//! staleness detection.

pub mod classify;
pub mod coin;
pub mod dec;
pub mod messages;
pub mod oracle;
pub mod errors;
pub mod intake;
pub mod smap;
pub mod strutil;
pub mod types;
