//! Verified core of a lease library that stops a running Steam client from
//! reading controllers while another program owns them.
//!
//! The crate holds the wire protocol, the payload's lease accounting and handle
//! table, the analysis of Steam's controller code, and every decision that the
//! host, the payload, the launcher and the C ABI take. Calls into Windows are
//! made by the programs around it, which hand plain values in and carry out the
//! actions that come back.

pub mod cli;
pub mod client;
pub mod election;
pub mod error;
pub mod ffi;
pub mod gate;
pub mod handles;
pub mod hooks;
pub mod inject;
pub mod launch;
pub mod memory;
pub mod paths;
pub mod pe;
pub mod protocol;
pub mod proxy;
pub mod recovery;
pub mod rediscovery;
pub mod resolve;
pub mod scheduler;
pub mod search;
pub mod startup;
pub mod text;
