//! The configuration surface: plain values that the embedding program loads.

use vstd::prelude::*;
use crate::interception::InterceptionConfig;
use crate::routing::RouteRule;

verus! {

/// Everything the proxy is configured with.
#[derive(Debug, Clone)]
pub struct AppConfig {
    pub server: ServerConfig,
    pub log: LogConfig,
    pub routing: Vec<RouteRule>,
    pub interception: InterceptionConfig,
    pub security: SecurityConfig,
    pub cache: CacheConfig,
}

/// The accepted API keys; none means that every request passes.
#[derive(Debug, Clone)]
pub struct SecurityConfig {
    pub api_keys: Vec<String>,
}

/// Where the server listens.
#[derive(Debug, Clone)]
pub struct ServerConfig {
    pub host: String,
    pub port: u16,
    /// The status code under which a request without a route is reported.
    pub no_route_status: u16,
}

/// Log verbosity.
#[derive(Debug, Clone)]
pub struct LogConfig {
    pub level: String,
}

/// Response cache settings.
#[derive(Debug, Clone)]
pub struct CacheConfig {
    pub enabled: bool,
    pub max_capacity: u64,
    pub ttl_seconds: u64,
}

} // verus!
