pub mod classify;
pub mod content;
pub mod error;
pub mod mask_type;
pub mod models;
pub mod num;
pub mod paths;
pub mod pipeline;
pub mod scan;
pub mod store;
pub mod text;

use vstd::prelude::*;
use vstd::string::*;

verus! {

/// Runtime configuration of the service: where the database lives, where the
/// HTTP server listens, and how verbose the logs are.
pub struct Config {
    pub database_url: String,
    pub server_addr: String,
    pub log_level: String,
}

impl Config {
    /// Assembles a configuration from the database URL and optional overrides,
    /// filling in the documented defaults where an override is absent.
    pub fn from_values(database_url: String, server_addr: Option<String>, log_level: Option<String>) -> (c: Config)
        ensures
            c.database_url@ == database_url@,
            server_addr is Some ==> c.server_addr@ == server_addr.unwrap()@,
            server_addr is None ==> c.server_addr@ == "0.0.0.0:3000"@,
            log_level is Some ==> c.log_level@ == log_level.unwrap()@,
            log_level is None ==> c.log_level@ == "xai_api=info,sqlx=debug,tower_http=debug,axum=info"@,
    {
        let server_addr = match server_addr {
            Some(s) => s,
            None => String::from_str("0.0.0.0:3000"),
        };
        let log_level = match log_level {
            Some(s) => s,
            None => String::from_str("xai_api=info,sqlx=debug,tower_http=debug,axum=info"),
        };
        Config { database_url, server_addr, log_level }
    }
}

} // verus!
