//! Verified core of the ArangoDB connector: request profiles, URL building,
//! secret redaction, result shaping and connection bookkeeping.
pub mod config;
pub mod connection;
pub mod json;
pub mod protocol;
pub mod registry;
pub mod results;
pub mod secrets;
pub mod text;
pub mod url;

pub use config::ArangoConfig;
pub use secrets::{collect_url_auth, push_sensitive};
pub use url::url_component;
