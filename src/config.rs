//! The daemon's settings, as loaded from its configuration file.

use vstd::prelude::*;

verus! {

/// All settings.
pub struct Config {
    pub server: ServerConfig,
    pub security: SecurityConfig,
    pub logging: LoggingConfig,
}

/// Where the daemon listens.
pub struct ServerConfig {
    pub bind_address: String,
    pub port: u16,
}

/// The shared secret and the timestamp window, in seconds.
pub struct SecurityConfig {
    pub secret: String,
    pub timestamp_window: i64,
}

/// Log level and file.
pub struct LoggingConfig {
    pub level: String,
    pub file: String,
}

} // verus!
