//! How a bridge is configured.

use vstd::prelude::*;

use crate::text::{concat3, decimal, decimal_of};

verus! {

#[derive(Debug)]
pub struct Config {
    pub server: ServerConfig,
    pub store: StoreConfig,
    pub gateway: GatewayConfig,
    pub claude: ClaudeConfig,
}

#[derive(Debug)]
pub struct ServerConfig {
    pub host: String,
    pub port: u16,
}

#[derive(Debug)]
pub struct StoreConfig {
    pub address: String,
}

/// The gateway, where tool calls go.
#[derive(Debug)]
pub struct GatewayConfig {
    pub address: String,
}

#[derive(Debug)]
pub struct ClaudeConfig {
    pub model: String,
    pub max_tokens: u32,
}

impl ServerConfig {
    /// The address to listen on.
    pub fn bind_address(&self) -> (r: String)
        ensures
            r@ == self.host@ + ":"@ + decimal_of(self.port as nat),
    {
        concat3(self.host.as_str(), ":", decimal(self.port as u64).as_str())
    }
}

} // verus!
