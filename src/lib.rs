//! Passive subdomain enumeration: validating targets, merging what many
//! sources report into one set keyed by canonical name, ordering and
//! resolving it, and deciding how the shared HTTP session retries and
//! throttles. Network, DNS and timing live with the caller; every decision
//! taken here is verified.
pub mod cli;
pub mod config;
pub mod engine;
pub mod harvest;
pub mod merge;
pub mod numbers;
pub mod order;
pub mod output;
pub mod resolver;
pub mod session;
pub mod sources;
pub mod text;
pub mod types;
pub mod updater;
pub mod utils;
