//! Bounded-depth discovery of subdomains of a target host.
//!
//! The library holds the logic of a discovery run: extracting candidate
//! links from a fetched document, filtering them to the subdomains of the
//! run's root host, deduplicating them by host (or by full URL for the
//! spidering variant), and driving a level-by-level traversal up to a fixed
//! depth ceiling. Network transport, DNS resolution and the command line
//! stay outside; they hand the library plain values and take plain values
//! back.

pub mod active;
pub mod common;
pub mod log;
pub mod passive;
pub mod spider;
pub mod strings;
pub mod urls;
