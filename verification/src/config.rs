//! Host configuration of a node process.
//!
//! Which port the control-plane service listens on, which port the node's
//! transport listens on, and where the peer key is kept.  Reading and parsing
//! a configuration file is the host process's concern; the values live here.

use vstd::prelude::*;

verus! {

/// A node process's configuration.
#[derive(Debug, Clone)]
pub struct Config {
    /// Port of the control-plane service.
    pub grpc_port: u16,
    /// Port the node's transport listens on.
    pub p2p_port: u16,
    /// Path to the peer's key material.
    pub peer_key_path: String,
}

impl Config {
    /// A configuration from its three values.
    pub fn new(grpc_port: u16, p2p_port: u16, peer_key_path: String) -> (r: Config)
        ensures
            r.grpc_port == grpc_port,
            r.p2p_port == p2p_port,
            r.peer_key_path@ == peer_key_path@,
    {
        Config { grpc_port, p2p_port, peer_key_path }
    }
}

} // verus!
