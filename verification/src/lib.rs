//! Verified core of a pull-history exporter.
//!
//! The library holds the logic of a tool that exports a player's randomized
//! item acquisitions ("pulls") from a game vendor's paginated web API into a
//! spreadsheet: resolving the query endpoint from a trace source, paginating
//! each pull category until an empty page signals exhaustion, and annotating
//! the chronological history with a running pull index and a pity counter.
//! Transport, file access and spreadsheet rendering stay outside; the library
//! works on plain values and states its behaviour in contracts.

pub mod aggregate;
pub mod decimal;
pub mod fetch;
pub mod model;
pub mod resolver;
