//! Configuration records for the translator proxy. Loading them from disk
//! is left to the surrounding program; the library holds the plain values.

use vstd::prelude::*;

verus! {

/// Configuration of the translator proxy.
#[derive(Debug, Clone, PartialEq, Eq)]
pub struct ProxyConfig {
    /// Host of the upstream pool.
    pub upstream_address: String,
    /// Port of the upstream pool.
    pub upstream_port: u16,
    /// Authority public key the upstream authenticates with.
    pub upstream_authority_pubkey: String,
    /// Host this proxy listens on for V1 miners.
    pub downstream_address: String,
    /// Port this proxy listens on for V1 miners.
    pub downstream_port: u16,
    /// Highest protocol version this proxy speaks.
    pub max_supported_version: u16,
    /// Lowest protocol version this proxy speaks.
    pub min_supported_version: u16,
    /// Smallest extranonce counter size granted to a miner.
    pub min_extranonce2_size: u16,
    /// Job-declarator connection values, when that role is used.
    pub jn_config: Option<JnConfig>,
}

/// Where the job declarator and the template provider are reached.
#[derive(Debug, Clone, PartialEq, Eq)]
pub struct JnConfig {
    /// Address of the job declarator.
    pub jn_address: String,
    /// Address of the template provider.
    pub tp_address: String,
}

} // verus!
