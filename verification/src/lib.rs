//! Discovery of a media-server instance on a carrier-grade-NAT mesh overlay
//! network (the 100.64.0.0/10 block).
//!
//! The crate is organised as a layered strategy:
//! - [`address`] validates and normalizes candidate mesh addresses;
//! - [`json`] models a parsed control-plane status document;
//! - [`status`] extracts candidate addresses from such a document;
//! - [`provider`] decides how the control CLI is walked across its install
//!   locations;
//! - [`fallback`] synthesizes heuristic candidates when the CLI is unavailable;
//! - [`probe`] classifies the liveness check of one candidate;
//! - [`orchestrator`] sequences the strategies and aggregates failures.
//!
//! All process and network I/O is performed by the caller, which drives the
//! state machines in [`provider`] and [`orchestrator`] and reports each
//! operation's outcome back as plain data.

pub mod address;
pub mod errors;
pub mod json;
pub mod status;
pub mod provider;
pub mod fallback;
pub mod probe;
pub mod orchestrator;
