//! Keeps DNS records at multiple providers in sync with the caller's WAN
//! address. This crate holds the reconciliation logic: summary accounting,
//! address parsing, the list/diff/update engine for listing-based providers,
//! the lookup-based engine for dynamic-DNS providers, and the run-wide
//! aggregation of per-domain results.

pub mod addr;
pub mod addr6;
pub mod cloudflare;
pub mod config;
pub mod errors;
pub mod godaddy;
pub mod json;
pub mod lookup;
pub mod orchestrator;
pub mod porkbun;
pub mod reconcile;
pub mod strutil;
pub mod summary;
