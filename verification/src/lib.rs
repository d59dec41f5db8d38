//! Shared core of qdrop, a peer-to-peer clipboard, file and link bridge for
//! one person's own devices: the wire vocabulary, framing, pairing, the peer
//! registry and trust roster, and the decision logic of the daemon.

pub mod auth;
pub mod backoff;
pub mod base64;
pub mod bus;
pub mod cli;
pub mod clipboard;
pub mod config;
pub mod connection;
pub mod control;
pub mod crypto;
pub mod device;
pub mod discovery;
pub mod doctor;
pub mod filexfer;
pub mod frame;
pub mod history;
pub mod identity;
pub mod pairing;
pub mod paths;
pub mod peers;
pub mod proto;
pub mod roster;
pub mod state;
pub mod store;
pub mod strmap;
pub mod sync;
pub mod sysinfo;
pub mod text;
pub mod tls;
pub mod transport;
pub mod weblink;

use vstd::prelude::*;

verus! {

/// This build's version.
pub const VERSION: &'static str = "0.1.0";

} // verus!
